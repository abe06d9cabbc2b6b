use bing::tiles::bbox_tile_ranges;
use bing::tiles::iter_tiles_in_ranges;
use bing::tiles::tile_xy_to_quadkey;
use bing::tiles::TileRange;

#[test]
fn quadkey_of_origin_is_all_zeros() {
    assert_eq!(tile_xy_to_quadkey(0, 0, 1), "0");
    assert_eq!(tile_xy_to_quadkey(0, 0, 5), "00000");
    assert_eq!(tile_xy_to_quadkey(0, 0, 20), "00000000000000000000");
}

#[test]
fn quadkey_of_zoom_zero_is_empty() {
    assert_eq!(tile_xy_to_quadkey(0, 0, 0), "");
}

#[test]
fn quadkey_interleaves_bits_most_significant_first() {
    // x = 3 (011), y = 5 (101): digits 0+2, 1+0, 1+2.
    assert_eq!(tile_xy_to_quadkey(3, 5, 3), "213");
    // x = 1, y = 0 at zoom 1.
    assert_eq!(tile_xy_to_quadkey(1, 0, 1), "1");
    // x = 0, y = 1 at zoom 1.
    assert_eq!(tile_xy_to_quadkey(0, 1, 1), "2");
    // x = 1, y = 1 at zoom 1.
    assert_eq!(tile_xy_to_quadkey(1, 1, 1), "3");
}

#[test]
fn quadkey_of_last_tile_is_all_threes() {
    for z in 1u32..=20 {
        let last = (1i32 << z) - 1;
        let q = tile_xy_to_quadkey(last, last, z);
        assert_eq!(q.len(), z as usize);
        assert!(q.chars().all(|c| c == '3'));
    }
}

#[test]
fn quadkey_length_and_alphabet() {
    for z in 0u32..=10 {
        let max = 1i32 << z;
        for (x, y) in [(0, 0), (max - 1, 0), (max / 2, max / 2), (1 % max, max - 1)] {
            let q = tile_xy_to_quadkey(x, y, z);
            assert_eq!(q.len(), z as usize);
            assert!(q.chars().all(|c| c == '0' || c == '1' || c == '2' || c == '3'));
        }
    }
}

#[test]
fn quadkeys_are_distinct_within_a_zoom_level() {
    let z = 4u32;
    let n = 1i32 << z;
    let mut seen = Vec::new();
    for y in 0..n {
        for x in 0..n {
            let q = tile_xy_to_quadkey(x, y, z);
            assert!(!seen.contains(&q), "duplicate quadkey {q} at ({x},{y})");
            seen.push(q);
        }
    }
}

#[test]
fn noncrossing_bbox_yields_one_normalized_range() {
    let r = bbox_tile_ranges(10, 20, 7, 5, 8, 6, false, 6);
    assert_eq!(r.len(), 1);
    assert_eq!(
        r[0],
        TileRange {
            x_min: 10,
            x_max: 20,
            y_min: 5,
            y_max: 8
        }
    );
    assert!(r[0].x_min <= r[0].x_max);
    assert!(r[0].y_min <= r[0].y_max);
}

#[test]
fn crossing_bbox_yields_two_disjoint_ranges_touching_both_edges() {
    // A box whose first corner sits east of its second corner wraps the
    // antimeridian: the western part runs to the last index, the eastern
    // remainder starts at zero.
    let z = 4u32;
    let last = (1i32 << z) - 1;
    let r = bbox_tile_ranges(14, 1, 3, 3, 4, 4, true, z);
    assert_eq!(r.len(), 2);
    assert_eq!(
        r[0],
        TileRange {
            x_min: 14,
            x_max: last,
            y_min: 3,
            y_max: 4
        }
    );
    assert_eq!(
        r[1],
        TileRange {
            x_min: 0,
            x_max: 1,
            y_min: 3,
            y_max: 4
        }
    );
    // x spans are disjoint and jointly touch both 0 and the last index.
    assert!(r[1].x_max < r[0].x_min);
    assert_eq!(r[1].x_min, 0);
    assert_eq!(r[0].x_max, last);
}

#[test]
fn iter_tiles_expands_row_major() {
    let ranges = vec![TileRange {
        x_min: 2,
        x_max: 3,
        y_min: 5,
        y_max: 6,
    }];
    let tiles = iter_tiles_in_ranges(&ranges);
    assert_eq!(tiles, vec![(2, 5), (3, 5), (2, 6), (3, 6)]);
}

#[test]
fn iter_tiles_concatenates_ranges_in_order() {
    let ranges = vec![
        TileRange {
            x_min: 0,
            x_max: 0,
            y_min: 0,
            y_max: 1,
        },
        TileRange {
            x_min: 7,
            x_max: 8,
            y_min: 9,
            y_max: 9,
        },
    ];
    let tiles = iter_tiles_in_ranges(&ranges);
    assert_eq!(tiles, vec![(0, 0), (0, 1), (7, 9), (8, 9)]);
}

#[test]
fn iter_tiles_of_empty_range_is_empty() {
    let ranges = vec![TileRange {
        x_min: 5,
        x_max: 4,
        y_min: 0,
        y_max: 9,
    }];
    assert_eq!(iter_tiles_in_ranges(&ranges).len(), 0);
    assert_eq!(iter_tiles_in_ranges(&Vec::new()).len(), 0);
}

#[test]
fn four_tiles_for_a_two_by_two_square() {
    // A bounding box covering exactly a 2x2 tile square produces exactly
    // four fetch tasks.
    let r = bbox_tile_ranges(8, 9, 10, 10, 11, 11, false, 12);
    let tiles = iter_tiles_in_ranges(&r);
    assert_eq!(tiles.len(), 4);
    assert_eq!(tiles, vec![(8, 10), (9, 10), (8, 11), (9, 11)]);
}
