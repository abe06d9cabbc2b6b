use bing::errors::UsageError;
use bing::grid::get_tile_subfolder;
use bing::grid::tile_relative_path;
use bing::grid::validate_and_get_grid_size;
use bing::naming::build_tile_url;
use bing::naming::i64_to_dec;
use bing::naming::part_file_name;
use bing::naming::tile_file_name;
use bing::naming::u64_to_dec;
use bing::naming::u64_to_dec_pad2;

#[test]
fn split_one_gives_grid_size_one() {
    assert_eq!(validate_and_get_grid_size(1), Ok(1));
}

#[test]
fn split_four_gives_grid_size_two() {
    assert_eq!(validate_and_get_grid_size(4), Ok(2));
}

#[test]
fn larger_perfect_squares_are_accepted() {
    assert_eq!(validate_and_get_grid_size(9), Ok(3));
    assert_eq!(validate_and_get_grid_size(16), Ok(4));
    assert_eq!(validate_and_get_grid_size(25), Ok(5));
    assert_eq!(validate_and_get_grid_size(10000), Ok(100));
}

#[test]
fn split_five_is_rejected() {
    assert_eq!(validate_and_get_grid_size(5), Err(UsageError::SplitNotSquare));
}

#[test]
fn split_zero_is_rejected() {
    assert_eq!(validate_and_get_grid_size(0), Err(UsageError::SplitZero));
}

#[test]
fn trivial_grid_has_no_subfolder() {
    assert_eq!(get_tile_subfolder(0, 0, 1), "");
    assert_eq!(get_tile_subfolder(123, 456, 1), "");
    assert_eq!(get_tile_subfolder(-7, 9, 1), "");
}

#[test]
fn subfolder_is_two_padded_parts_below_the_grid_size() {
    for (x, y) in [(0, 0), (7, 5), (-7, 5), (3, -4), (100, 200)] {
        let s = get_tile_subfolder(x, y, 3);
        assert_eq!(s.len(), 5);
        let bytes = s.as_bytes();
        assert_eq!(bytes[2], b'_');
        for i in [0usize, 1, 3, 4] {
            assert!(bytes[i].is_ascii_digit());
        }
        let gx: usize = s[0..2].parse().unwrap();
        let gy: usize = s[3..5].parse().unwrap();
        assert!(gx < 3 && gy < 3);
    }
}

#[test]
fn subfolder_takes_magnitude_before_modulo() {
    assert_eq!(get_tile_subfolder(7, 5, 3), "01_02");
    assert_eq!(get_tile_subfolder(-7, -5, 3), "01_02");
    assert_eq!(get_tile_subfolder(4, 10, 4), "00_02");
}

#[test]
fn decimal_rendering() {
    assert_eq!(u64_to_dec(0), "0");
    assert_eq!(u64_to_dec(7), "7");
    assert_eq!(u64_to_dec(10), "10");
    assert_eq!(u64_to_dec(1234567890), "1234567890");
    assert_eq!(i64_to_dec(-45), "-45");
    assert_eq!(i64_to_dec(45), "45");
    assert_eq!(i64_to_dec(0), "0");
}

#[test]
fn padded_decimal_rendering() {
    assert_eq!(u64_to_dec_pad2(0), "00");
    assert_eq!(u64_to_dec_pad2(9), "09");
    assert_eq!(u64_to_dec_pad2(10), "10");
    assert_eq!(u64_to_dec_pad2(123), "123");
}

#[test]
fn tile_file_names_embed_zoom_and_coordinates() {
    assert_eq!(tile_file_name(18, 5, 7), "18_5_7.glb");
    assert_eq!(tile_file_name(0, 0, 0), "0_0_0.glb");
    assert_eq!(tile_file_name(20, 1048575, 524287), "20_1048575_524287.glb");
}

#[test]
fn part_file_name_is_distinct_sibling() {
    let name = tile_file_name(18, 5, 7);
    let part = part_file_name(&name);
    assert_eq!(part, "18_5_7.glb.part");
    assert_ne!(part, name);
}

#[test]
fn relative_path_uses_subfolder_only_for_real_grids() {
    assert_eq!(tile_relative_path(18, 5, 7, 1), "18_5_7.glb");
    assert_eq!(tile_relative_path(18, 5, 7, 3), "02_01/18_5_7.glb");
}

#[test]
fn url_has_fixed_shape_around_the_quadkey() {
    let url = build_tile_url(
        "https://tiles.example",
        "213",
        "15340",
        "3dv4",
        "testkey",
    );
    assert_eq!(
        url,
        "https://tiles.example/tiles/mtx213?g=15340&tf=3dv4&n=z&key=testkey&form=web3d"
    );
}
