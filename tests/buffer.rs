use pxsort::{Pixel, PixelBuffer};

fn grey(v: u8) -> Pixel {
    Pixel::new(v, v, v, 255)
}

/// A 3 by 2 buffer whose pixel at (x, y) has red channel 10 * y + x.
fn sample() -> PixelBuffer {
    let cells: Vec<Pixel> = (0..6u8).map(|i| Pixel::new((i / 3) * 10 + i % 3, 0, 0, 255)).collect();
    PixelBuffer::from_pixels(3, 2, cells).unwrap()
}

fn reds(b: &PixelBuffer) -> Vec<Vec<u8>> {
    (0..b.height()).map(|y| (0..b.width()).map(|x| b.get_pixel(x, y).r).collect()).collect()
}

#[test]
fn from_pixels_checks_length() {
    assert!(PixelBuffer::from_pixels(2, 2, vec![grey(0); 3]).is_none());
    assert!(PixelBuffer::from_pixels(2, 2, vec![grey(0); 5]).is_none());
    assert!(PixelBuffer::from_pixels(0, 7, Vec::new()).is_some());
    let b = PixelBuffer::from_pixels(2, 2, vec![grey(0); 4]).unwrap();
    assert_eq!((b.width(), b.height()), (2, 2));
}

#[test]
fn new_fills_every_cell() {
    let b = PixelBuffer::new(4, 3, grey(9)).unwrap();
    assert_eq!(b.into_pixels(), vec![grey(9); 12]);
}

#[test]
fn get_and_put_row_major() {
    let mut b = sample();
    assert_eq!(reds(&b), vec![vec![0, 1, 2], vec![10, 11, 12]]);
    b.put_pixel(2, 1, grey(77));
    assert_eq!(b.get_pixel(2, 1), grey(77));
    assert_eq!(b.into_pixels()[5], grey(77));
}

#[test]
fn rotate90_turns_clockwise() {
    let r = sample().rotate90();
    assert_eq!((r.width(), r.height()), (2, 3));
    assert_eq!(reds(&r), vec![vec![10, 0], vec![11, 1], vec![12, 2]]);
}

#[test]
fn rotate270_turns_counter_clockwise() {
    let r = sample().rotate270();
    assert_eq!((r.width(), r.height()), (2, 3));
    assert_eq!(reds(&r), vec![vec![2, 12], vec![1, 11], vec![0, 10]]);
}

#[test]
fn rotations_undo_each_other() {
    let b = sample();
    assert_eq!(reds(&b.rotate90().rotate270()), reds(&b));
    assert_eq!(reds(&b.rotate270().rotate90()), reds(&b));
}

#[test]
fn duplicate_copies() {
    let b = sample();
    let c = b.duplicate();
    assert_eq!(b.into_pixels(), c.into_pixels());
}
