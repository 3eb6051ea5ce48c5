use evolenia::grid::pixel_idx;

#[test]
fn index_is_row_major_inside_the_grid() {
    assert_eq!(pixel_idx(0, 0, 512, 512), 0);
    assert_eq!(pixel_idx(511, 0, 512, 512), 511);
    assert_eq!(pixel_idx(0, 1, 512, 512), 512);
    assert_eq!(pixel_idx(3, 2, 512, 512), 2 * 512 + 3);
}

#[test]
fn shifting_by_one_width_names_the_same_cell() {
    for &(x, y) in &[(0i64, 0i64), (5, 9), (-3, 7), (511, 511), (-600, -600)] {
        assert_eq!(
            pixel_idx(x + 512, y, 512, 512),
            pixel_idx(x, y, 512, 512)
        );
        assert_eq!(
            pixel_idx(x, y + 512, 512, 512),
            pixel_idx(x, y, 512, 512)
        );
    }
}

#[test]
fn negative_coordinates_wrap_from_the_far_edge() {
    assert_eq!(pixel_idx(-1, 0, 64, 64), 63);
    assert_eq!(pixel_idx(0, -1, 64, 64), 63 * 64);
    assert_eq!(pixel_idx(-65, 0, 64, 64), 63);
    assert_eq!(pixel_idx(i64::MIN, 0, 3, 3), pixel_idx(i64::MIN % 3, 0, 3, 3));
}

#[test]
fn wrap_respects_many_periods() {
    for k in -5i64..=5 {
        assert_eq!(pixel_idx(7 + k * 100, 9, 100, 50), pixel_idx(7, 9, 100, 50));
        assert_eq!(pixel_idx(7, 9 + k * 50, 100, 50), pixel_idx(7, 9, 100, 50));
    }
}
