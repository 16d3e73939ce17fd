//! A sort pass over a whole image: scan lines read from an unchanging
//! snapshot and written, in order, to the target.
use vstd::prelude::*;

use crate::buffer::{lemma_cell_index, PixelBuffer, Raster};
use crate::engine::{arrange, rank_sorted, same_order, selected, SortOptions};
use crate::heuristic::{key, Heuristic};
use crate::path::{row_line, row_spec, rows_spec, Coord};
use crate::pixel::Pixel;

verus! {

broadcast use vstd::seq_lib::group_seq_properties, vstd::seq_lib::group_to_multiset_ensures;

/// Every coordinate of the line lies in the raster.
pub open spec fn fits(r: Raster, line: Seq<Coord>) -> bool {
    forall|i: int| 0 <= i < line.len() ==> r.contains(#[trigger] line[i].0 as int, line[i].1 as int)
}

/// The pixels at the line's coordinates, in order.
pub open spec fn read_line(r: Raster, line: Seq<Coord>) -> Seq<Pixel> {
    Seq::new(line.len(), |i: int| r.at(line[i].0 as int, line[i].1 as int))
}

/// The raster after `px[i]` is written at `line[i]`, for each `i` in
/// increasing order (a later write to one coordinate wins).
pub open spec fn write_line(r: Raster, line: Seq<Coord>, px: Seq<Pixel>) -> Raster
    decreases line.len(),
{
    if line.len() == 0 {
        r
    } else {
        let k = line.len() - 1;
        write_line(r, line.drop_last(), px).put(line[k].0 as int, line[k].1 as int, px[k])
    }
}

/// The target after one scan line: the line's pixels read from the snapshot,
/// sorted, and written back to the target at the line's coordinates.
pub open spec fn sort_line(o: SortOptions, snapshot: Raster, target: Raster, line: Seq<Coord>) -> Raster {
    write_line(target, line, arrange(o, read_line(snapshot, line)))
}

/// The snapshot after the given scan lines, in order, with every read from
/// the snapshot and every write to the target.
pub open spec fn apply_lines(o: SortOptions, snapshot: Raster, lines: Seq<Seq<Coord>>) -> Raster
    decreases lines.len(),
{
    if lines.len() == 0 {
        snapshot
    } else {
        sort_line(o, snapshot, apply_lines(o, snapshot, lines.drop_last()), lines.last())
    }
}

/// The image that the scan lines traverse: rotated a quarter turn when the
/// pass is vertical.
pub open spec fn oriented(o: SortOptions, image: Raster) -> Raster {
    if o.vertical {
        image.rotated90()
    } else {
        image
    }
}

/// The traversed image turned back to the orientation of the input.
pub open spec fn restored(o: SortOptions, r: Raster) -> Raster {
    if o.vertical {
        r.rotated270()
    } else {
        r
    }
}

/// The image that a pass along `lines` produces.
pub open spec fn outcome(o: SortOptions, image: Raster, lines: Seq<Seq<Coord>>) -> Raster {
    restored(o, apply_lines(o, oriented(o, image), lines))
}

/// The image that a pass along straight rows produces (columns when vertical).
pub open spec fn linear_outcome(o: SortOptions, image: Raster) -> Raster {
    let t = oriented(o, image);
    outcome(o, image, rows_spec(t.width, t.height))
}

/// Sorting keeps the length of a line.
pub proof fn lemma_arrange_len(o: SortOptions, s: Seq<Pixel>)
    ensures
        arrange(o, s).len() == s.len(),
{
    crate::engine::lemma_arrange_permutes(o, s);
    s.to_multiset_ensures();
    arrange(o, s).to_multiset_ensures();
}

proof fn lemma_write_line_shape(r: Raster, line: Seq<Coord>, px: Seq<Pixel>)
    ensures
        write_line(r, line, px).width == r.width,
        write_line(r, line, px).height == r.height,
    decreases line.len(),
{
    if line.len() > 0 {
        lemma_write_line_shape(r, line.drop_last(), px);
    }
}

/// A pass during its run: the snapshot that every scan line reads, the target
/// that it writes, and the scan lines done so far.
pub struct Pass {
    options: SortOptions,
    snapshot: PixelBuffer,
    target: PixelBuffer,
    source: Ghost<Raster>,
    lines: Ghost<Seq<Seq<Coord>>>,
}

impl Pass {
    /// The options of the pass.
    pub closed spec fn options(&self) -> SortOptions {
        self.options
    }

    /// The image that the pass started from.
    pub closed spec fn source(&self) -> Raster {
        self.source@
    }

    /// The scan lines done so far, in order.
    pub closed spec fn lines(&self) -> Seq<Seq<Coord>> {
        self.lines@
    }

    /// The image that the scan lines traverse.
    pub open spec fn frame(&self) -> Raster {
        oriented(self.options(), self.source())
    }

    /// The snapshot is the oriented source; the target is the snapshot after
    /// the lines done so far.
    pub closed spec fn wf(&self) -> bool {
        &&& self.source@.valid()
        &&& self.snapshot.wf()
        &&& self.target.wf()
        &&& self.snapshot@ == oriented(self.options, self.source@)
        &&& self.target@ == apply_lines(self.options, self.snapshot@, self.lines@)
    }

    /// Starts a pass over `image`, rotated a quarter turn when vertical.
    pub fn new(options: SortOptions, image: PixelBuffer) -> (p: Pass)
        requires
            image.wf(),
        ensures
            p.wf(),
            p.options() == options,
            p.source() == image@,
            p.lines() == Seq::<Seq<Coord>>::empty(),
    {
        let ghost source = image@;
        let snapshot = if options.vertical {
            image.rotate90()
        } else {
            image
        };
        let target = snapshot.duplicate();
        Pass { options, snapshot, target, source: Ghost(source), lines: Ghost(Seq::empty()) }
    }

    /// Width of the traversed image.
    pub fn width(&self) -> (w: u32)
        requires
            self.wf(),
        ensures
            w == self.frame().width,
    {
        self.snapshot.width()
    }

    /// Height of the traversed image.
    pub fn height(&self) -> (h: u32)
        requires
            self.wf(),
        ensures
            h == self.frame().height,
    {
        self.snapshot.height()
    }

    /// Whether every coordinate of the line lies in the traversed image.
    pub fn accepts(&self, line: &Vec<Coord>) -> (b: bool)
        requires
            self.wf(),
        ensures
            b == fits(self.frame(), line@),
    {
        let w = self.snapshot.width();
        let h = self.snapshot.height();
        for i in 0..line.len()
            invariant
                w == self.frame().width,
                h == self.frame().height,
                forall|j: int| 0 <= j < i ==> self.frame().contains(#[trigger] line@[j].0 as int, line@[j].1 as int),
        {
            if line[i].0 >= w || line[i].1 >= h {
                assert(!self.frame().contains(line@[i as int].0 as int, line@[i as int].1 as int));
                return false;
            }
        }
        true
    }

    /// Processes one scan line: reads its pixels from the snapshot, sorts
    /// them, and writes them to the target at the line's coordinates.
    pub fn sort_line(&mut self, line: &Vec<Coord>)
        requires
            old(self).wf(),
            fits(old(self).frame(), line@),
        ensures
            final(self).wf(),
            final(self).options() == old(self).options(),
            final(self).source() == old(self).source(),
            final(self).lines() == old(self).lines().push(line@),
    {
        let mut px = read_pixels(&self.snapshot, line);
        self.options.do_sort(&mut px);
        proof {
            lemma_arrange_len(self.options, read_line(self.snapshot@, line@));
            lemma_apply_lines_shape(self.options, self.snapshot@, self.lines@);
        }
        write_pixels(&mut self.target, line, &px);
        let ghost done = self.lines@;
        self.lines = Ghost(done.push(line@));
        assert(self.lines@.drop_last() =~= done);
    }

    /// Ends the pass: the target, turned back to the orientation of the input.
    pub fn finish(self) -> (r: PixelBuffer)
        requires
            self.wf(),
        ensures
            r.wf(),
            r@ == outcome(self.options(), self.source(), self.lines()),
    {
        if self.options.vertical {
            self.target.rotate270()
        } else {
            self.target
        }
    }
}

proof fn lemma_apply_lines_shape(o: SortOptions, snapshot: Raster, lines: Seq<Seq<Coord>>)
    ensures
        apply_lines(o, snapshot, lines).width == snapshot.width,
        apply_lines(o, snapshot, lines).height == snapshot.height,
    decreases lines.len(),
{
    if lines.len() > 0 {
        lemma_apply_lines_shape(o, snapshot, lines.drop_last());
        let t = apply_lines(o, snapshot, lines.drop_last());
        lemma_write_line_shape(t, lines.last(), arrange(o, read_line(snapshot, lines.last())));
    }
}

fn read_pixels(buf: &PixelBuffer, line: &Vec<Coord>) -> (px: Vec<Pixel>)
    requires
        buf.wf(),
        fits(buf@, line@),
    ensures
        px@ == read_line(buf@, line@),
{
    let mut px: Vec<Pixel> = Vec::new();
    for i in 0..line.len()
        invariant
            buf.wf(),
            fits(buf@, line@),
            px@ == read_line(buf@, line@.take(i as int)),
    {
        let c = line[i];
        let p = buf.get_pixel(c.0, c.1);
        px.push(p);
        assert(px@ =~= read_line(buf@, line@.take(i + 1)));
    }
    assert(line@.take(line@.len() as int) =~= line@);
    px
}

fn write_pixels(buf: &mut PixelBuffer, line: &Vec<Coord>, px: &Vec<Pixel>)
    requires
        old(buf).wf(),
        fits(old(buf)@, line@),
        px@.len() == line@.len(),
    ensures
        final(buf).wf(),
        final(buf)@ == write_line(old(buf)@, line@, px@),
{
    let ghost start = buf@;
    for i in 0..line.len()
        invariant
            buf.wf(),
            fits(start, line@),
            px@.len() == line@.len(),
            buf@ == write_line(start, line@.take(i as int), px@),
            buf@.width == start.width,
            buf@.height == start.height,
    {
        let c = line[i];
        buf.put_pixel(c.0, c.1, px[i]);
        assert(line@.take(i + 1).drop_last() =~= line@.take(i as int));
        proof {
            lemma_write_line_px(start, line@.take(i + 1), px@);
        }
    }
    assert(line@.take(line@.len() as int) =~= line@);
}

proof fn lemma_write_line_px(r: Raster, line: Seq<Coord>, px: Seq<Pixel>)
    requires
        line.len() > 0,
    ensures
        write_line(r, line, px) == write_line(r, line.drop_last(), px).put(
            line.last().0 as int,
            line.last().1 as int,
            px[line.len() - 1],
        ),
{
}

proof fn lemma_apply_lines_same(
    o: SortOptions,
    q: SortOptions,
    snapshot: Raster,
    lines: Seq<Seq<Coord>>,
)
    requires
        same_order(o, q),
    ensures
        apply_lines(o, snapshot, lines) == apply_lines(q, snapshot, lines),
    decreases lines.len(),
{
    if lines.len() > 0 {
        lemma_apply_lines_same(o, q, snapshot, lines.drop_last());
        crate::engine::lemma_arrange_same(o, q, read_line(snapshot, lines.last()));
    }
}

/// A vertical pass along some scan lines gives what a pass along the same
/// lines without `vertical` gives on the image turned a quarter turn, turned
/// back three quarter turns.
pub proof fn lemma_vertical_round_trip(o: SortOptions, image: Raster, lines: Seq<Seq<Coord>>)
    requires
        o.vertical,
    ensures
        outcome(o, image, lines) == outcome(
            SortOptions { vertical: false, ..o },
            image.rotated90(),
            lines,
        ).rotated270(),
{
    lemma_apply_lines_same(o, SortOptions { vertical: false, ..o }, image.rotated90(), lines);
}

/// A vertical linear pass gives what the linear pass without `vertical` gives
/// on the image turned a quarter turn, turned back three quarter turns.
pub proof fn lemma_linear_vertical_round_trip(o: SortOptions, image: Raster)
    requires
        o.vertical,
    ensures
        linear_outcome(o, image) == linear_outcome(
            SortOptions { vertical: false, ..o },
            image.rotated90(),
        ).rotated270(),
{
    let t = image.rotated90();
    lemma_vertical_round_trip(o, image, rows_spec(t.width, t.height));
}

/// Writing back the pixels that a line already holds changes nothing.
proof fn lemma_write_same(r: Raster, line: Seq<Coord>, px: Seq<Pixel>)
    requires
        r.valid(),
        fits(r, line),
        px.len() >= line.len(),
        forall|i: int| 0 <= i < line.len() ==> px[i] == r.at(#[trigger] line[i].0 as int, line[i].1 as int),
    ensures
        write_line(r, line, px) == r,
    decreases line.len(),
{
    if line.len() > 0 {
        let k = line.len() - 1;
        let t = line.drop_last();
        assert forall|i: int| 0 <= i < t.len() implies r.contains(#[trigger] t[i].0 as int, t[i].1 as int) by {
            assert(t[i] == line[i]);
        }
        assert forall|i: int| 0 <= i < t.len() implies px[i] == r.at(#[trigger] t[i].0 as int, t[i].1 as int) by {
            assert(t[i] == line[i]);
        }
        lemma_write_same(r, t, px);
        let (x, y) = (line[k].0 as int, line[k].1 as int);
        assert(r.contains(x, y));
        crate::buffer::lemma_cell_index(r.width as int, r.height as int, x, y);
        assert(r.cells.update(y * r.width + x, px[k]) =~= r.cells);
    }
}

/// Scan lines that each leave their pixels as they are leave the image as it
/// is.
proof fn lemma_fixed_lines(o: SortOptions, image: Raster, lines: Seq<Seq<Coord>>)
    requires
        image.valid(),
        forall|k: int| 0 <= k < lines.len() ==> fits(image, #[trigger] lines[k]),
        forall|k: int|
            0 <= k < lines.len() ==> arrange(o, read_line(image, #[trigger] lines[k])) == read_line(
                image,
                lines[k],
            ),
    ensures
        apply_lines(o, image, lines) == image,
    decreases lines.len(),
{
    if lines.len() > 0 {
        let k = lines.len() - 1;
        let t = lines.drop_last();
        assert forall|j: int| 0 <= j < t.len() implies fits(image, #[trigger] t[j]) by {
            assert(t[j] == lines[j]);
        }
        assert forall|j: int| 0 <= j < t.len() implies arrange(o, read_line(image, #[trigger] t[j]))
            == read_line(image, t[j]) by {
            assert(t[j] == lines[j]);
        }
        lemma_fixed_lines(o, image, t);
        assert(fits(image, lines[k]));
        lemma_write_same(image, lines[k], read_line(image, lines[k]));
    }
}

/// Along every row, keys never decrease from left to right.
pub open spec fn rows_sorted(h: Heuristic, image: Raster) -> bool {
    forall|x1: int, x2: int, y: int|
        0 <= x1 < x2 < image.width && 0 <= y < image.height ==> key(h, #[trigger] image.at(x1, y))
            <= key(h, #[trigger] image.at(x2, y))
}

/// A horizontal linear pass over the full key range, ascending, neither
/// inverted nor masked, leaves an image whose rows are already sorted by key
/// exactly as it was.
pub proof fn lemma_sorted_rows_unchanged(o: SortOptions, image: Raster)
    requires
        image.valid(),
        !o.vertical,
        !o.reverse,
        !o.invert,
        !o.mask_alpha,
        o.minimum == 0,
        o.maximum == 255,
        rows_sorted(o.function, image),
    ensures
        linear_outcome(o, image) == image,
{
    let lines = rows_spec(image.width, image.height);
    assert forall|k: int| 0 <= k < lines.len() implies fits(image, #[trigger] lines[k]) by {
        assert forall|i: int| 0 <= i < lines[k].len() implies image.contains(
            #[trigger] lines[k][i].0 as int,
            lines[k][i].1 as int,
        ) by {
            assert(lines[k][i] == (i as u32, k as u32));
        }
    }
    assert forall|k: int| 0 <= k < lines.len() implies arrange(
        o,
        read_line(image, #[trigger] lines[k]),
    ) == read_line(image, lines[k]) by {
        let s = read_line(image, lines[k]);
        assert forall|i: int| 0 <= i < s.len() implies #[trigger] s[i] == image.at(i, k) by {
            assert(lines[k][i] == (i as u32, k as u32));
        }
        assert forall|i: int| 0 <= i < s.len() implies selected(o, #[trigger] s[i]) by {
            crate::engine::lemma_key_range(o.function, s[i]);
        }
        assert forall|i: int, j: int| 0 <= i < j < s.len() implies crate::engine::rank(
            o,
            #[trigger] s[i],
        ) <= crate::engine::rank(o, #[trigger] s[j]) by {
            assert(s[i] == image.at(i, k) && s[j] == image.at(j, k));
        }
        assert(rank_sorted(o, s));
        crate::engine::lemma_arrange_fixed(o, s);
    }
    lemma_fixed_lines(o, image, lines);
}

/// Writing a row up to column `i` replaces those cells of the row and no
/// other.
proof fn lemma_write_row(t: Raster, y: int, px: Seq<Pixel>, i: int)
    requires
        t.valid(),
        0 <= y < t.height,
        0 <= i <= t.width,
        px.len() == t.width,
    ensures
        write_line(t, row_spec(t.width, y as u32).take(i), px).width == t.width,
        write_line(t, row_spec(t.width, y as u32).take(i), px).height == t.height,
        write_line(t, row_spec(t.width, y as u32).take(i), px).cells == Seq::new(
            t.cells.len(),
            |j: int|
                if y * t.width <= j < y * t.width + i {
                    px[j - y * t.width]
                } else {
                    t.cells[j]
                },
        ),
    decreases i,
{
    let w = t.width as int;
    let row = row_spec(t.width, y as u32);
    lemma_write_line_shape(t, row.take(i), px);
    if i == 0 {
        assert(write_line(t, row.take(i), px).cells =~= Seq::new(
            t.cells.len(),
            |j: int|
                if y * w <= j < y * w + i {
                    px[j - y * w]
                } else {
                    t.cells[j]
                },
        ));
    } else {
        lemma_write_row(t, y, px, i - 1);
        assert(row.take(i).drop_last() =~= row.take(i - 1));
        assert(row.take(i)[i - 1] == (((i - 1) as u32), y as u32));
        lemma_cell_index(w, t.height as int, i - 1, y);
        assert(write_line(t, row.take(i), px).cells =~= Seq::new(
            t.cells.len(),
            |j: int|
                if y * w <= j < y * w + i {
                    px[j - y * w]
                } else {
                    t.cells[j]
                },
        ));
    }
}

/// The cells of row `y`.
proof fn lemma_read_row(r: Raster, y: int)
    requires
        r.valid(),
        0 <= y < r.height,
    ensures
        read_line(r, row_spec(r.width, y as u32)) == r.cells.subrange(
            y * r.width,
            y * r.width + r.width,
        ),
{
    let w = r.width as int;
    assert(0 <= y * w && y * w + w <= w * r.height) by (nonlinear_arith)
        requires
            0 <= y < r.height,
            w >= 0,
    ;
    assert(read_line(r, row_spec(r.width, y as u32)) =~= r.cells.subrange(y * w, y * w + w));
}

/// After the first `k` rows, the rows from `k` on are as in the image, and
/// the pixel values as a whole are those of the image.
proof fn lemma_rows_histogram(o: SortOptions, image: Raster, k: int)
    requires
        image.valid(),
        0 <= k <= image.height,
    ensures
        ({
            let t = apply_lines(o, image, rows_spec(image.width, image.height).take(k));
            &&& t.width == image.width
            &&& t.height == image.height
            &&& t.cells.len() == image.cells.len()
            &&& t.cells.subrange(k * image.width, image.cells.len() as int)
                == image.cells.subrange(k * image.width, image.cells.len() as int)
            &&& t.cells.to_multiset() == image.cells.to_multiset()
        }),
    decreases k,
{
    let (w, h) = (image.width as int, image.height as int);
    let n = image.cells.len() as int;
    let rows = rows_spec(image.width, image.height);
    if k == 0 {
        assert(rows.take(0) =~= Seq::<Seq<Coord>>::empty());
        assert(0 * w == 0);
    } else {
        let y = k - 1;
        lemma_rows_histogram(o, image, y);
        let t = apply_lines(o, image, rows.take(y));
        assert(rows.take(k).drop_last() =~= rows.take(y));
        let row = rows.take(k).last();
        assert(row == row_spec(image.width, y as u32));
        let src = read_line(image, row);
        let px = arrange(o, src);
        lemma_read_row(image, y);
        lemma_arrange_len(o, src);
        crate::engine::lemma_arrange_permutes(o, src);
        assert(row.take(w) =~= row);
        lemma_write_row(t, y, px, w);
        let u = apply_lines(o, image, rows.take(k));
        assert(u == write_line(t, row, px));
        assert(y * w + w == k * w) by (nonlinear_arith)
            requires
                y == k - 1,
        ;
        assert(k * w <= n) by (nonlinear_arith)
            requires
                k <= h,
                n == w * h,
                w >= 0,
        ;
        assert(0 <= y * w) by (nonlinear_arith)
            requires
                y >= 0,
                w >= 0,
        ;
        let a = t.cells.subrange(0, y * w);
        let mid = t.cells.subrange(y * w, k * w);
        let b = t.cells.subrange(k * w, n);
        assert(mid =~= image.cells.subrange(y * w, k * w)) by {
            assert forall|j: int| 0 <= j < mid.len() implies #[trigger] mid[j] == image.cells.subrange(
                y * w,
                k * w,
            )[j] by {
                assert(t.cells.subrange(y * w, n)[j] == image.cells.subrange(y * w, n)[j]);
            }
        }
        assert(t.cells =~= a + mid + b);
        assert(u.cells =~= a + px + b);
        assert(u.cells.subrange(k * w, n) =~= image.cells.subrange(k * w, n)) by {
            assert forall|j: int| 0 <= j < n - k * w implies #[trigger] u.cells.subrange(k * w, n)[j]
                == image.cells.subrange(k * w, n)[j] by {
                assert(t.cells.subrange(y * w, n)[j + w] == image.cells.subrange(y * w, n)[j + w]);
            }
        }
        vstd::seq_lib::lemma_multiset_commutative(a, mid);
        vstd::seq_lib::lemma_multiset_commutative(a + mid, b);
        vstd::seq_lib::lemma_multiset_commutative(a, px);
        vstd::seq_lib::lemma_multiset_commutative(a + px, b);
    }
}

/// A horizontal linear pass keeps the pixel values of the whole image: only
/// their places change.
pub proof fn lemma_linear_keeps_histogram(o: SortOptions, image: Raster)
    requires
        image.valid(),
        !o.vertical,
    ensures
        linear_outcome(o, image).cells.to_multiset() == image.cells.to_multiset(),
{
    let rows = rows_spec(image.width, image.height);
    lemma_rows_histogram(o, image, image.height as int);
    assert(rows.take(image.height as int) =~= rows);
}

impl SortOptions {
    /// Sorts along straight rows of the image (columns when vertical).
    pub fn sort_linear(&self, image: PixelBuffer) -> (r: PixelBuffer)
        requires
            image.wf(),
        ensures
            r.wf(),
            r@ == linear_outcome(*self, image@),
    {
        let mut pass = Pass::new(*self, image);
        let w = pass.width();
        let h = pass.height();
        let ghost rows = rows_spec(w, h);
        for y in 0..h
            invariant
                pass.wf(),
                pass.options() == *self,
                pass.source() == image@,
                w == pass.frame().width,
                h == pass.frame().height,
                rows == rows_spec(w, h),
                pass.lines() == rows.take(y as int),
        {
            let line = row_line(w, y);
            assert(fits(pass.frame(), line@));
            pass.sort_line(&line);
            assert(pass.lines() =~= rows.take(y + 1));
        }
        assert(rows.take(h as int) =~= rows);
        pass.finish()
    }
}

} // verus!
