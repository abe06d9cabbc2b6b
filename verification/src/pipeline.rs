//! Decisions and accounting of the bounded-concurrency fetch pipeline.
//!
//! The pipeline itself performs network and file I/O outside this crate;
//! here live the parts that decide and count: which bounding-box input mode
//! a run uses, whether one fetched response counts as a success, and the
//! report that tallies every per-tile completion exactly once against a
//! fixed total.

use crate::errors::UsageError;
use crate::naming::dec_digits;
use crate::naming::u64_to_dec;
use vstd::prelude::*;
use vstd::string::StringExecFns;

verus! {

/// Which of the two mutually exclusive bounding-box input modes was chosen.
#[derive(Clone, Copy, Debug, PartialEq, Eq, Structural)]
pub enum BboxMode {
    /// Explicit southwest and northeast corners.
    Corners,
    /// A center point plus a square size in meters.
    CenterSize,
}

/// The mode selected for given inputs: a complete corner pair or a complete
/// center-plus-size, exactly one of which must be supplied.
pub open spec fn bbox_mode_spec(corners_given: bool, center_given: bool) -> Result<
    BboxMode,
    UsageError,
> {
    if corners_given && center_given {
        Err(UsageError::ConflictingBoundingBox)
    } else if corners_given {
        Ok(BboxMode::Corners)
    } else if center_given {
        Ok(BboxMode::CenterSize)
    } else {
        Err(UsageError::MissingBoundingBox)
    }
}

/// Chooses the bounding-box mode from which inputs were supplied. A mode
/// counts as given only when both of its inputs are present; supplying
/// neither complete mode, or both, is a usage error.
pub fn select_bbox_mode(has_sw: bool, has_ne: bool, has_center: bool, has_size: bool) -> (r:
    Result<BboxMode, UsageError>)
    ensures
        r == bbox_mode_spec(has_sw && has_ne, has_center && has_size),
{
    let corners = has_sw && has_ne;
    let center = has_center && has_size;
    if corners && center {
        Err(UsageError::ConflictingBoundingBox)
    } else if corners {
        Ok(BboxMode::Corners)
    } else if center {
        Ok(BboxMode::CenterSize)
    } else {
        Err(UsageError::MissingBoundingBox)
    }
}

/// Whether one fetched response counts as a saved tile: an HTTP success
/// status with a non-empty body. Anything else is a recorded failure that
/// never aborts the run.
pub fn fetch_is_success(status_success: bool, body_len: usize) -> (ok: bool)
    ensures
        ok == (status_success && body_len > 0),
{
    status_success && body_len > 0
}

/// The running tally of a fetch run: how many of the `total` tiles have
/// completed, how many of those were saved, and which tiles failed.
///
/// Every task reports exactly once, so `done` walks from zero to `total`
/// and the observed progress reaches the total exactly once.
#[derive(Debug)]
pub struct FetchReport {
    /// Number of tiles the run will attempt.
    pub total: usize,
    /// Number of tiles that have completed, successfully or not.
    pub done: usize,
    /// Number of tiles fetched and persisted.
    pub ok: usize,
    /// The tiles whose fetch or write failed, in completion order.
    pub failed: Vec<(i32, i32)>,
}

impl FetchReport {
    /// Completions are conserved: every finished tile is either saved or on
    /// the failure list, and no more than the total have finished.
    pub open spec fn wf(self) -> bool {
        self.ok + self.failed@.len() == self.done && self.done <= self.total
    }

    /// Starts a report for a run over `total` tiles.
    pub fn new(total: usize) -> (r: FetchReport)
        ensures
            r.wf(),
            r.total == total,
            r.done == 0,
            r.ok == 0,
            r.failed@ == Seq::<(i32, i32)>::empty(),
    {
        FetchReport { total, done: 0, ok: 0, failed: Vec::new() }
    }

    /// Records one tile saved. Each task reports exactly once.
    pub fn record_success(&mut self)
        requires
            old(self).wf(),
            old(self).done < old(self).total,
        ensures
            final(self).wf(),
            final(self).total == old(self).total,
            final(self).done == old(self).done + 1,
            final(self).ok == old(self).ok + 1,
            final(self).failed@ == old(self).failed@,
    {
        self.ok = self.ok + 1;
        self.done = self.done + 1;
    }

    /// Records one tile failed. The failure is appended to the list and the
    /// run continues.
    pub fn record_failure(&mut self, tile: (i32, i32))
        requires
            old(self).wf(),
            old(self).done < old(self).total,
        ensures
            final(self).wf(),
            final(self).total == old(self).total,
            final(self).done == old(self).done + 1,
            final(self).ok == old(self).ok,
            final(self).failed@ == old(self).failed@.push(tile),
    {
        self.failed.push(tile);
        self.done = self.done + 1;
    }

    /// Whether every tile of the run has reported.
    pub fn is_complete(&self) -> (b: bool)
        ensures
            b == (self.done == self.total),
    {
        self.done == self.total
    }

    /// Whether any tile failed; the run's overall outcome is success only
    /// if no tile did, and the process exits non-zero otherwise.
    pub fn any_failures(&self) -> (b: bool)
        ensures
            b == (self.failed@.len() > 0),
    {
        self.failed.len() > 0
    }

    /// The summary line: tiles saved out of tiles attempted.
    pub fn summary_line(&self) -> (s: String)
        ensures
            s@ == "Saved "@ + dec_digits(self.ok as nat) + "/"@ + dec_digits(self.total as nat)
                + " tiles"@,
    {
        let mut s = String::from_str("Saved ");
        s.append(u64_to_dec(self.ok as u64).as_str());
        s.append("/");
        s.append(u64_to_dec(self.total as u64).as_str());
        s.append(" tiles");
        s
    }
}

} // verus!
