//! Scan lines: the ordered, in-bounds coordinates that one sort visits.
//!
//! Curves are sampled elsewhere; this module turns the samples into scan
//! lines: it keeps the coordinates inside the image, and for ellipses it
//! collapses repeats of one pixel.
use vstd::prelude::*;

verus! {

broadcast use vstd::seq_lib::group_seq_properties;

/// A pixel coordinate `(x, y)`.
pub type Coord = (u32, u32);

/// A sampled point, already floored to integers, that may lie outside the
/// image.
pub type Sample = (i64, i64);

/// Row `y` of a `width`-wide image, left to right.
pub open spec fn row_spec(width: u32, y: u32) -> Seq<Coord> {
    Seq::new(width as nat, |x: int| (x as u32, y))
}

/// Every row of the image, top to bottom.
pub open spec fn rows_spec(width: u32, height: u32) -> Seq<Seq<Coord>> {
    Seq::new(height as nat, |y: int| row_spec(width, y as u32))
}

/// The offsets of the slanted lines that cover the image: from
/// `-extra_height` to `height` when the lines climb to the right
/// (`extra_height > 0`), else from `0` to `height - extra_height`.
pub open spec fn slant_range(extra_height: int, height: int) -> (int, int) {
    if extra_height > 0 {
        (-extra_height, height)
    } else {
        (0, height - extra_height)
    }
}

/// A row coordinate that a slanted line keeps: inside the image, and not 0.
pub open spec fn kept_row(height: u32) -> spec_fn(Coord) -> bool {
    |c: Coord| 0 < c.1 < height
}

/// The slanted line through the rows `ys[x]`, one per column `x`, without
/// the points whose row is 0 or falls below the image.
pub open spec fn slant_spec(height: u32, ys: Seq<u32>) -> Seq<Coord> {
    Seq::new(ys.len(), |x: int| (x as u32, ys[x])).filter(kept_row(height))
}

/// The sample lies inside a `width` by `height` image.
pub open spec fn inside(width: u32, height: u32) -> spec_fn(Sample) -> bool {
    |s: Sample| 0 <= s.0 < width && 0 <= s.1 < height
}

/// A sample inside the image as a pixel coordinate.
pub open spec fn narrow(s: Sample) -> Coord {
    (s.0 as u32, s.1 as u32)
}

/// The samples that lie inside the image, in order, as coordinates.
pub open spec fn clip_spec(width: u32, height: u32, samples: Seq<Sample>) -> Seq<Coord> {
    samples.filter(inside(width, height)).map_values(|s: Sample| narrow(s))
}

/// The sequence with each run of equal neighbours collapsed to one element.
pub open spec fn dedup_spec(s: Seq<Coord>) -> Seq<Coord>
    decreases s.len(),
{
    if s.len() == 0 {
        s
    } else {
        let d = dedup_spec(s.drop_last());
        if d.len() > 0 && d.last() == s.last() {
            d
        } else {
            d.push(s.last())
        }
    }
}

/// No two neighbours are equal.
pub open spec fn no_repeats(s: Seq<Coord>) -> bool {
    forall|i: int| 0 <= i < s.len() - 1 ==> s[i] != #[trigger] s[i + 1]
}

/// Collapsing repeats leaves no two equal neighbours, drops no coordinate
/// and adds none; its last element is the input's last.
pub proof fn lemma_dedup(s: Seq<Coord>)
    ensures
        no_repeats(dedup_spec(s)),
        forall|c: Coord| s.contains(c) <==> #[trigger] dedup_spec(s).contains(c),
        dedup_spec(s).len() <= s.len(),
        s.len() > 0 ==> dedup_spec(s).len() > 0 && dedup_spec(s).last() == s.last(),
    decreases s.len(),
{
    if s.len() > 0 {
        let t = s.drop_last();
        lemma_dedup(t);
        let d = dedup_spec(t);
        assert(s =~= t.push(s.last()));
        assert forall|c: Coord| s.contains(c) <==> #[trigger] dedup_spec(s).contains(c) by {
            if s.contains(c) && c != s.last() {
                let i = choose|i: int| 0 <= i < s.len() && s[i] == c;
                assert(t[i] == c);
            }
            if dedup_spec(s).contains(c) && c != s.last() {
                let i = choose|i: int| 0 <= i < dedup_spec(s).len() && dedup_spec(s)[i] == c;
                assert(d[i] == c);
            }
        }
    }
}

/// Row `y` of a `width`-wide image.
pub fn row_line(width: u32, y: u32) -> (line: Vec<Coord>)
    ensures
        line@ == row_spec(width, y),
{
    let mut line: Vec<Coord> = Vec::new();
    for x in 0..width
        invariant
            line@ == row_spec(x, y),
    {
        line.push((x, y));
        assert(line@ =~= row_spec((x + 1) as u32, y));
    }
    line
}

/// The offsets, as a half-open interval, of the slanted lines that cover an
/// image of the given height, where `extra_height` is the image's width times
/// the slope, rounded down.
pub fn slant_offsets(extra_height: i64, height: u32) -> (r: (i64, i64))
    requires
        height - extra_height <= i64::MAX,
    ensures
        r.0 as int == slant_range(extra_height as int, height as int).0,
        r.1 as int == slant_range(extra_height as int, height as int).1,
{
    if extra_height > 0 {
        (-extra_height, height as i64)
    } else {
        (0, height as i64 - extra_height)
    }
}

/// The slanted line through the rows `ys`, one per column from the left,
/// without the points in row 0 or below the image.
pub fn slant_line(height: u32, ys: &Vec<u32>) -> (line: Vec<Coord>)
    requires
        ys@.len() <= u32::MAX + 1,
    ensures
        line@ == slant_spec(height, ys@),
{
    let mut line: Vec<Coord> = Vec::new();
    let n = ys.len();
    for i in 0..n
        invariant
            n == ys@.len(),
            n <= u32::MAX + 1,
            line@ == slant_spec(height, ys@.take(i as int)),
    {
        let x = i as u32;
        let c = (x, ys[i]);
        proof {
            let before = Seq::new(i as nat, |j: int| (j as u32, ys@.take(i as int)[j]));
            assert(Seq::new((i + 1) as nat, |j: int| (j as u32, ys@.take(i + 1)[j])) =~= before.push(
                c,
            ));
            before.lemma_filter_push(c, kept_row(height));
        }
        if 0 < ys[i] && ys[i] < height {
            line.push(c);
        }
    }
    assert(ys@.take(n as int) =~= ys@);
    line
}

/// The samples that lie inside a `width` by `height` image, in order.
pub fn clip_points(width: u32, height: u32, samples: &Vec<Sample>) -> (line: Vec<Coord>)
    ensures
        line@ == clip_spec(width, height, samples@),
{
    let mut line: Vec<Coord> = Vec::new();
    for i in 0..samples.len()
        invariant
            line@ == clip_spec(width, height, samples@.take(i as int)),
    {
        let s = samples[i];
        proof {
            let before = samples@.take(i as int);
            assert(samples@.take(i + 1) =~= before.push(s));
            before.lemma_filter_push(s, inside(width, height));
        }
        if 0 <= s.0 && s.0 < width as i64 && 0 <= s.1 && s.1 < height as i64 {
            line.push((s.0 as u32, s.1 as u32));
            assert(clip_spec(width, height, samples@.take(i + 1)) =~= line@);
        } else {
            assert(clip_spec(width, height, samples@.take(i + 1)) =~= line@);
        }
    }
    assert(samples@.take(samples@.len() as int) =~= samples@);
    line
}

/// The line with each run of equal neighbouring coordinates collapsed to one:
/// the result has no two equal neighbours and holds the same coordinates.
pub fn dedup_adjacent(line: &Vec<Coord>) -> (r: Vec<Coord>)
    ensures
        r@ == dedup_spec(line@),
        no_repeats(r@),
        forall|c: Coord| line@.contains(c) <==> #[trigger] r@.contains(c),
{
    let mut r: Vec<Coord> = Vec::new();
    for i in 0..line.len()
        invariant
            r@ == dedup_spec(line@.take(i as int)),
    {
        let c = line[i];
        assert(line@.take(i + 1).drop_last() =~= line@.take(i as int));
        let n = r.len();
        if n == 0 || r[n - 1].0 != c.0 || r[n - 1].1 != c.1 {
            r.push(c);
        }
    }
    assert(line@.take(line@.len() as int) =~= line@);
    proof {
        lemma_dedup(line@);
    }
    r
}

/// One ellipse shell: its samples inside the image, repeats of one pixel
/// among neighbours collapsed.
pub fn ellipse_line(width: u32, height: u32, samples: &Vec<Sample>) -> (line: Vec<Coord>)
    ensures
        line@ == dedup_spec(clip_spec(width, height, samples@)),
        no_repeats(line@),
{
    let clipped = clip_points(width, height, samples);
    dedup_adjacent(&clipped)
}

} // verus!
