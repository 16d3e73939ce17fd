use pxsort::{Heuristic, Pass, Pixel, PixelBuffer, SortOptions};

fn red_image(w: u32, h: u32, keys: &[u8]) -> PixelBuffer {
    let cells = keys.iter().map(|&k| Pixel::new(k, 0, 0, 255)).collect();
    PixelBuffer::from_pixels(w, h, cells).unwrap()
}

fn red_cells(b: PixelBuffer) -> Vec<u8> {
    b.into_pixels().iter().map(|p| p.r).collect()
}

fn by_red() -> SortOptions {
    SortOptions { function: Heuristic::Red, ..SortOptions::default() }
}

#[test]
fn linear_sorts_each_row() {
    let img = red_image(3, 2, &[3, 1, 2, 9, 7, 8]);
    assert_eq!(red_cells(by_red().sort_linear(img)), vec![1, 2, 3, 7, 8, 9]);
}

#[test]
fn vertical_sorts_columns() {
    let img = red_image(2, 3, &[5, 1, 3, 9, 4, 2]);
    let o = SortOptions { vertical: true, ..by_red() };
    let out = red_cells(o.sort_linear(img));
    // Each column, read bottom to top, ends up in ascending order.
    assert_eq!(out, vec![5, 9, 4, 2, 3, 1]);
}

#[test]
fn vertical_equals_rotate_sort_rotate_back() {
    let keys: Vec<u8> = (0..12u32).map(|i| (i * 53 % 256) as u8).collect();
    let img = red_image(4, 3, &keys);
    let o = SortOptions { vertical: true, ..SortOptions::default() };
    let direct = o.sort_linear(img.duplicate());
    let turned = SortOptions::default().sort_linear(img.rotate90()).rotate270();
    assert_eq!(direct.into_pixels(), turned.into_pixels());
}

#[test]
fn sorted_rows_come_back_unchanged() {
    let img = red_image(3, 3, &[1, 2, 3, 0, 0, 9, 4, 200, 255]);
    let before = img.duplicate().into_pixels();
    assert_eq!(by_red().sort_linear(img).into_pixels(), before);
}

#[test]
fn linear_pass_keeps_histogram() {
    let keys: Vec<u8> = (0..30u32).map(|i| (i * 97 % 256) as u8).collect();
    let img = red_image(6, 5, &keys);
    let o = SortOptions { minimum: 20, maximum: 180, reverse: true, ..by_red() };
    let mut out = red_cells(o.sort_linear(img));
    let mut ins = keys.clone();
    out.sort();
    ins.sort();
    assert_eq!(out, ins);
}

#[test]
fn pass_reads_snapshot_and_later_lines_win() {
    let img = red_image(3, 1, &[3, 1, 2]);
    let mut pass = Pass::new(by_red(), img);
    assert_eq!((pass.width(), pass.height()), (3, 1));
    pass.sort_line(&vec![(0, 0), (1, 0), (2, 0)]);
    // Reads come from the unsorted snapshot, so this line sees 2 then 3.
    pass.sort_line(&vec![(0, 0), (2, 0)]);
    assert_eq!(red_cells(pass.finish()), vec![2, 2, 3]);
}

#[test]
fn pass_without_lines_is_identity() {
    let img = red_image(2, 2, &[4, 3, 2, 1]);
    let pass = Pass::new(SortOptions { vertical: true, ..by_red() }, img);
    assert_eq!((pass.width(), pass.height()), (2, 2));
    assert_eq!(red_cells(pass.finish()), vec![4, 3, 2, 1]);
}

#[test]
fn pass_accepts_only_lines_inside() {
    let pass = Pass::new(SortOptions::default(), red_image(3, 2, &[0; 6]));
    assert!(pass.accepts(&vec![(0, 0), (2, 1)]));
    assert!(pass.accepts(&Vec::new()));
    assert!(!pass.accepts(&vec![(0, 0), (3, 0)]));
    assert!(!pass.accepts(&vec![(1, 2)]));
    let turned = Pass::new(SortOptions { vertical: true, ..SortOptions::default() }, red_image(3, 2, &[0; 6]));
    assert_eq!((turned.width(), turned.height()), (2, 3));
    assert!(turned.accepts(&vec![(1, 2)]));
}

#[test]
fn empty_image_sorts_to_empty() {
    let img = PixelBuffer::from_pixels(0, 4, Vec::new()).unwrap();
    let out = SortOptions::default().sort_linear(img);
    assert_eq!((out.width(), out.height()), (0, 4));
    assert!(out.into_pixels().is_empty());
}

#[test]
fn vertical_pass_keeps_histogram() {
    let keys: Vec<u8> = (0..20u32).map(|i| (i * 71 % 256) as u8).collect();
    let img = red_image(4, 5, &keys);
    let o = SortOptions { vertical: true, invert: true, minimum: 60, maximum: 120, ..by_red() };
    let mut out = red_cells(o.sort_linear(img));
    let mut ins = keys.clone();
    out.sort();
    ins.sort();
    assert_eq!(out, ins);
}
