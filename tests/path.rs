use pxsort::path::{clip_points, dedup_adjacent, ellipse_line, row_line, slant_line, slant_offsets};

#[test]
fn row_line_left_to_right() {
    assert_eq!(row_line(3, 5), vec![(0, 5), (1, 5), (2, 5)]);
    assert!(row_line(0, 1).is_empty());
}

#[test]
fn slant_offsets_both_directions() {
    assert_eq!(slant_offsets(4, 10), (-4, 10));
    assert_eq!(slant_offsets(0, 10), (0, 10));
    assert_eq!(slant_offsets(-3, 10), (0, 13));
}

#[test]
fn slant_line_drops_row_zero_and_below() {
    assert_eq!(slant_line(4, &vec![0, 1, 3, 4, 9, 2]), vec![(1, 1), (2, 3), (5, 2)]);
    assert!(slant_line(4, &Vec::new()).is_empty());
}

#[test]
fn clip_points_keeps_inside() {
    let samples = vec![(-1, 0), (0, 0), (3, 1), (2, 2), (2, 1), (0, -5), (i64::MAX, 0)];
    assert_eq!(clip_points(3, 2, &samples), vec![(0, 0), (2, 1)]);
}

#[test]
fn dedup_collapses_neighbours_only() {
    let line = vec![(1, 1), (1, 1), (2, 1), (2, 1), (2, 1), (1, 1), (3, 0)];
    assert_eq!(dedup_adjacent(&line), vec![(1, 1), (2, 1), (1, 1), (3, 0)]);
    assert!(dedup_adjacent(&Vec::new()).is_empty());
}

#[test]
fn ellipse_shell_dedups_after_clipping() {
    let samples = vec![(0, 0), (0, 0), (5, 5), (0, 0), (1, 0), (1, 0)];
    assert_eq!(ellipse_line(2, 2, &samples), vec![(0, 0), (1, 0)]);
}
