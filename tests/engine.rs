use pxsort::{Heuristic, Pixel, SortOptions};

fn reds(keys: &[u8]) -> Vec<Pixel> {
    keys.iter().map(|&k| Pixel::new(k, 0, 0, 255)).collect()
}

fn red_keys(px: &[Pixel]) -> Vec<u8> {
    px.iter().map(|p| p.r).collect()
}

fn by_red(minimum: u8, maximum: u8) -> SortOptions {
    SortOptions { minimum, maximum, function: Heuristic::Red, ..SortOptions::default() }
}

#[test]
fn default_options() {
    let o = SortOptions::default();
    assert_eq!(o.minimum, 0);
    assert_eq!(o.maximum, 255);
    assert_eq!(o.function, Heuristic::Luma);
    assert!(!o.reverse && !o.invert && !o.vertical && !o.mask_alpha);
}

#[test]
fn run_boundaries_keep_already_sorted_run() {
    let o = by_red(40, 100);
    let mut line = reds(&[10, 200, 50, 60, 5, 210]);
    o.do_sort(&mut line);
    assert_eq!(red_keys(&line), vec![10, 200, 50, 60, 5, 210]);
}

#[test]
fn run_boundaries_reversed() {
    let o = SortOptions { reverse: true, ..by_red(40, 100) };
    let mut line = reds(&[10, 200, 50, 60, 5, 210]);
    o.do_sort(&mut line);
    assert_eq!(red_keys(&line), vec![10, 200, 60, 50, 5, 210]);
}

#[test]
fn full_range_sorts_whole_line() {
    let o = by_red(0, 255);
    let mut line = reds(&[9, 3, 7, 1, 8]);
    o.do_sort(&mut line);
    assert_eq!(red_keys(&line), vec![1, 3, 7, 8, 9]);
}

#[test]
fn runs_sorted_separately() {
    let o = by_red(10, 100);
    let mut line = reds(&[50, 20, 200, 90, 30, 60, 5]);
    o.do_sort(&mut line);
    assert_eq!(red_keys(&line), vec![20, 50, 200, 30, 60, 90, 5]);
}

#[test]
fn inverted_selection_sorts_outside_range() {
    let o = SortOptions { invert: true, ..by_red(40, 100) };
    let mut line = reds(&[30, 10, 50, 250, 200, 60]);
    o.do_sort(&mut line);
    assert_eq!(red_keys(&line), vec![10, 30, 50, 200, 250, 60]);
}

#[test]
fn masked_transparent_pixel_splits_runs() {
    let o = SortOptions { mask_alpha: true, ..by_red(0, 255) };
    let mut line = vec![
        Pixel::new(9, 0, 0, 255),
        Pixel::new(4, 0, 0, 255),
        Pixel::new(1, 0, 0, 0),
        Pixel::new(8, 0, 0, 255),
        Pixel::new(2, 0, 0, 255),
    ];
    o.do_sort(&mut line);
    assert_eq!(red_keys(&line), vec![4, 9, 1, 2, 8]);
    assert_eq!(line[2].a, 0);
}

#[test]
fn equal_keys_keep_their_order() {
    let o = SortOptions::default();
    let a = Pixel::new(0, 0, 0, 1);
    let b = Pixel::new(0, 0, 0, 2);
    let c = Pixel::new(255, 255, 255, 3);
    let mut line = vec![c, a, b];
    o.do_sort(&mut line);
    assert_eq!(line, vec![a, b, c]);
    let mut line = vec![a, c, b];
    SortOptions { reverse: true, ..o }.do_sort(&mut line);
    assert_eq!(line, vec![c, a, b]);
}

#[test]
fn empty_and_unselected_lines_unchanged() {
    let o = by_red(100, 120);
    let mut empty: Vec<Pixel> = Vec::new();
    o.do_sort(&mut empty);
    assert!(empty.is_empty());
    let mut line = reds(&[5, 3, 200, 1]);
    o.do_sort(&mut line);
    assert_eq!(red_keys(&line), vec![5, 3, 200, 1]);
}

#[test]
fn sort_run_orders_by_key() {
    let o = by_red(0, 255);
    assert_eq!(red_keys(&o.sort_run(&reds(&[3, 255, 0, 3, 1]))), vec![0, 1, 3, 3, 255]);
    let rev = SortOptions { reverse: true, ..o };
    assert_eq!(red_keys(&rev.sort_run(&reds(&[3, 255, 0, 3, 1]))), vec![255, 3, 3, 1, 0]);
}

#[test]
fn selection_bounds_are_inclusive() {
    let o = by_red(40, 100);
    assert!(o.is_selected(&Pixel::new(40, 0, 0, 255)));
    assert!(o.is_selected(&Pixel::new(100, 0, 0, 255)));
    assert!(!o.is_selected(&Pixel::new(39, 0, 0, 255)));
    assert!(!o.is_selected(&Pixel::new(101, 0, 0, 255)));
    let inv = SortOptions { invert: true, ..o };
    assert!(!inv.is_selected(&Pixel::new(40, 0, 0, 255)));
    assert!(inv.is_selected(&Pixel::new(101, 0, 0, 255)));
}

#[test]
fn masking_beats_range_and_invert() {
    let clear = Pixel::new(50, 0, 0, 0);
    for invert in [false, true] {
        for (lo, hi) in [(0u8, 255u8), (40, 60), (100, 20)] {
            let o = SortOptions { mask_alpha: true, invert, ..by_red(lo, hi) };
            assert!(!o.is_selected(&clear));
        }
    }
    assert!(by_red(0, 255).is_selected(&clear));
}

#[test]
fn sorting_a_line_permutes_it() {
    let line: Vec<Pixel> = (0..40u32)
        .map(|i| Pixel::new((i * 37 % 256) as u8, (i * 11 % 256) as u8, (i * 101 % 256) as u8, (i % 3) as u8))
        .collect();
    let configs = [
        SortOptions::default(),
        SortOptions { function: Heuristic::Hue, reverse: true, ..SortOptions::default() },
        SortOptions { minimum: 30, maximum: 150, invert: true, mask_alpha: true, ..SortOptions::default() },
    ];
    for o in configs {
        let mut out = line.clone();
        o.do_sort(&mut out);
        let mut a: Vec<(u8, u8, u8, u8)> = line.iter().map(|p| (p.r, p.g, p.b, p.a)).collect();
        let mut b: Vec<(u8, u8, u8, u8)> = out.iter().map(|p| (p.r, p.g, p.b, p.a)).collect();
        a.sort();
        b.sort();
        assert_eq!(a, b);
    }
}
