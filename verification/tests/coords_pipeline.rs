use bing::coords::split_coordinate_pair;
use bing::coords::trim_str;
use bing::errors::UsageError;
use bing::pipeline::select_bbox_mode;
use bing::pipeline::fetch_is_success;
use bing::pipeline::BboxMode;
use bing::pipeline::FetchReport;

#[test]
fn coordinate_pair_splits_at_the_comma_and_trims() {
    let (a, b) = split_coordinate_pair("40.0, -3.0").unwrap();
    assert_eq!(a, "40.0");
    assert_eq!(b, "-3.0");
    let (a, b) = split_coordinate_pair("  85.0511 ,\t-180 ").unwrap();
    assert_eq!(a, "85.0511");
    assert_eq!(b, "-180");
}

#[test]
fn coordinate_text_without_one_comma_is_rejected() {
    assert_eq!(split_coordinate_pair("40.0"), Err(UsageError::CoordinateFormat));
    assert_eq!(split_coordinate_pair(""), Err(UsageError::CoordinateFormat));
    assert_eq!(
        split_coordinate_pair("1,2,3"),
        Err(UsageError::CoordinateFormat)
    );
}

#[test]
fn trimming_removes_only_outer_whitespace() {
    assert_eq!(trim_str("  a b  "), "a b");
    assert_eq!(trim_str(""), "");
    assert_eq!(trim_str(" \t\r\n"), "");
    assert_eq!(trim_str("x"), "x");
}

#[test]
fn exactly_one_bbox_mode_must_be_given() {
    assert_eq!(select_bbox_mode(true, true, false, false), Ok(BboxMode::Corners));
    assert_eq!(
        select_bbox_mode(false, false, true, true),
        Ok(BboxMode::CenterSize)
    );
    assert_eq!(
        select_bbox_mode(false, false, false, false),
        Err(UsageError::MissingBoundingBox)
    );
    assert_eq!(
        select_bbox_mode(true, true, true, true),
        Err(UsageError::ConflictingBoundingBox)
    );
    // an incomplete pair does not count as a supplied mode
    assert_eq!(
        select_bbox_mode(true, false, false, false),
        Err(UsageError::MissingBoundingBox)
    );
    assert_eq!(
        select_bbox_mode(true, false, true, true),
        Ok(BboxMode::CenterSize)
    );
}

#[test]
fn only_a_success_status_with_a_body_counts() {
    assert!(fetch_is_success(true, 1));
    assert!(fetch_is_success(true, 4096));
    assert!(!fetch_is_success(true, 0));
    assert!(!fetch_is_success(false, 10));
    assert!(!fetch_is_success(false, 0));
}

#[test]
fn report_tallies_three_of_four_saved() {
    // Four tasks, three succeed and one fails: the report shows 3/4, the
    // failing tile is listed, and the run counts as failed.
    let mut report = FetchReport::new(4);
    report.record_success();
    report.record_success();
    report.record_failure((7, 9));
    assert!(!report.is_complete());
    report.record_success();
    assert!(report.is_complete());
    assert_eq!(report.ok, 3);
    assert_eq!(report.done, 4);
    assert_eq!(report.total, 4);
    assert_eq!(report.failed, vec![(7, 9)]);
    assert!(report.any_failures());
    assert_eq!(report.summary_line(), "Saved 3/4 tiles");
}

#[test]
fn clean_report_has_no_failures() {
    let mut report = FetchReport::new(2);
    report.record_success();
    report.record_success();
    assert!(report.is_complete());
    assert!(!report.any_failures());
    assert_eq!(report.summary_line(), "Saved 2/2 tiles");
}

#[test]
fn empty_run_is_complete_immediately() {
    let report = FetchReport::new(0);
    assert!(report.is_complete());
    assert!(!report.any_failures());
    assert_eq!(report.summary_line(), "Saved 0/0 tiles");
}
