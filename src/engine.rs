//! Run segmentation and sorting of the pixels along one scan line.
use vstd::prelude::*;

use crate::heuristic::{key, Heuristic};
use crate::pixel::Pixel;

verus! {

broadcast use vstd::seq_lib::group_seq_properties, vstd::seq_lib::group_to_multiset_ensures;

/// What a sort pass selects and how it orders: the key range, the key
/// function, the direction, and the selection modifiers.
#[derive(Clone, Copy, Debug, PartialEq, Eq, Structural)]
pub struct SortOptions {
    /// Smallest key that lies in the range.
    pub minimum: u8,
    /// Largest key that lies in the range.
    pub maximum: u8,
    /// Key function.
    pub function: Heuristic,
    /// Sort by descending key.
    pub reverse: bool,
    /// Select the pixels outside the range rather than inside it.
    pub invert: bool,
    /// Traverse a quarter-turn rotated image.
    pub vertical: bool,
    /// Never select a fully transparent pixel.
    pub mask_alpha: bool,
}

impl Default for SortOptions {
    fn default() -> (o: SortOptions)
        ensures
            o == (SortOptions {
                minimum: 0,
                maximum: 255,
                function: Heuristic::Luma,
                reverse: false,
                invert: false,
                vertical: false,
                mask_alpha: false,
            }),
    {
        SortOptions {
            minimum: 0,
            maximum: 255,
            function: Heuristic::Luma,
            reverse: false,
            invert: false,
            vertical: false,
            mask_alpha: false,
        }
    }
}

/// The pixel's key lies in `[minimum, maximum]`.
pub open spec fn in_range(o: SortOptions, p: Pixel) -> bool {
    o.minimum <= key(o.function, p) <= o.maximum
}

/// The pixel takes part in a sortable run: its key is in range (out of range
/// when inverted), and it is not a transparent pixel under masking.
pub open spec fn selected(o: SortOptions, p: Pixel) -> bool {
    (in_range(o, p) != o.invert) && !(o.mask_alpha && p.a == 0)
}

/// The position of a pixel's key in the sort order: the key ascending, its
/// complement when reversed.
pub open spec fn rank(o: SortOptions, p: Pixel) -> int {
    if o.reverse {
        255 - key(o.function, p)
    } else {
        key(o.function, p)
    }
}

/// Pixels of rank `k`.
pub open spec fn rank_is(o: SortOptions, k: int) -> spec_fn(Pixel) -> bool {
    |p: Pixel| rank(o, p) == k
}

/// Pixels of rank `k` or above.
pub open spec fn rank_from(o: SortOptions, k: int) -> spec_fn(Pixel) -> bool {
    |p: Pixel| rank(o, p) >= k
}

/// The pixels of `s` with rank `k` and above, grouped by rank in increasing
/// order, each group in its order in `s`.
pub open spec fn ranked_from(o: SortOptions, s: Seq<Pixel>, k: int) -> Seq<Pixel>
    decreases 256 - k,
{
    if k >= 256 {
        Seq::empty()
    } else {
        s.filter(rank_is(o, k)) + ranked_from(o, s, k + 1)
    }
}

/// A run sorted by key (descending when reversed); pixels of equal key keep
/// their order.
pub open spec fn sorted_run(o: SortOptions, s: Seq<Pixel>) -> Seq<Pixel> {
    ranked_from(o, s, 0)
}

/// The line `s` after its selected pixels have gathered into `run`: each
/// maximal run of selected pixels sorted, every other pixel where it was.
pub open spec fn arrange_from(o: SortOptions, s: Seq<Pixel>, run: Seq<Pixel>) -> Seq<Pixel>
    decreases s.len(),
{
    if s.len() == 0 {
        sorted_run(o, run)
    } else if selected(o, s[0]) {
        arrange_from(o, s.drop_first(), run.push(s[0]))
    } else {
        sorted_run(o, run) + seq![s[0]] + arrange_from(o, s.drop_first(), Seq::empty())
    }
}

/// A scan line's pixels after sorting: each maximal run of selected pixels
/// sorted by key, every unselected pixel in its place.
pub open spec fn arrange(o: SortOptions, s: Seq<Pixel>) -> Seq<Pixel> {
    arrange_from(o, s, Seq::empty())
}

/// Every key is a byte.
pub proof fn lemma_key_range(h: Heuristic, p: Pixel)
    ensures
        0 <= key(h, p) <= 255,
{
    let c = crate::heuristic::chroma_of(p);
    let m = crate::heuristic::max_of(p) as int;
    if h == Heuristic::Hue && c != 0 {
        let d = if p.r == m {
            crate::heuristic::gap(p.g, p.b)
        } else if p.g == m {
            crate::heuristic::gap(p.b, p.r)
        } else {
            crate::heuristic::gap(p.r, p.g)
        };
        assert(0 <= d / c <= 1) by (nonlinear_arith)
            requires
                0 <= d <= c,
                c > 0,
        ;
    }
    if h == Heuristic::Saturation && m != 0 {
        assert(0 <= c / m <= 1) by (nonlinear_arith)
            requires
                0 <= c <= m,
                m > 0,
        ;
    }
}

proof fn lemma_rank_range(o: SortOptions, p: Pixel)
    ensures
        0 <= rank(o, p) <= 255,
{
    lemma_key_range(o.function, p);
}

/// Filtering by a predicate that every element meets keeps the sequence.
proof fn lemma_filter_all(s: Seq<Pixel>, f: spec_fn(Pixel) -> bool)
    requires
        forall|i: int| 0 <= i < s.len() ==> f(s[i]),
    ensures
        s.filter(f) == s,
    decreases s.len(),
{
    reveal(Seq::filter);
    if s.len() > 0 {
        lemma_filter_all(s.drop_last(), f);
        assert(s.drop_last().push(s.last()) =~= s);
    }
}

/// Filtering by a predicate that no element meets leaves nothing.
proof fn lemma_filter_none(s: Seq<Pixel>, f: spec_fn(Pixel) -> bool)
    requires
        forall|i: int| 0 <= i < s.len() ==> !f(s[i]),
    ensures
        s.filter(f) == Seq::<Pixel>::empty(),
    decreases s.len(),
{
    reveal(Seq::filter);
    if s.len() > 0 {
        lemma_filter_none(s.drop_last(), f);
    }
}

/// The pixels of rank `k` and above split into those of rank `k` and those
/// above it.
proof fn lemma_rank_split(o: SortOptions, s: Seq<Pixel>, k: int)
    ensures
        s.filter(rank_from(o, k)).to_multiset() == s.filter(rank_is(o, k)).to_multiset().add(
            s.filter(rank_from(o, k + 1)).to_multiset(),
        ),
    decreases s.len(),
{
    reveal(Seq::filter);
    if s.len() > 0 {
        let t = s.drop_last();
        let x = s.last();
        lemma_rank_split(o, t, k);
        assert(s.filter(rank_from(o, k)) == if rank(o, x) >= k {
            t.filter(rank_from(o, k)).push(x)
        } else {
            t.filter(rank_from(o, k))
        });
    }
    assert(s.filter(rank_from(o, k)).to_multiset() =~= s.filter(rank_is(o, k)).to_multiset().add(
        s.filter(rank_from(o, k + 1)).to_multiset(),
    ));
}

proof fn lemma_ranked_from_multiset(o: SortOptions, s: Seq<Pixel>, k: int)
    requires
        0 <= k <= 256,
    ensures
        ranked_from(o, s, k).to_multiset() == s.filter(rank_from(o, k)).to_multiset(),
    decreases 256 - k,
{
    if k == 256 {
        assert forall|i: int| 0 <= i < s.len() implies !(rank_from(o, k))(s[i]) by {
            lemma_rank_range(o, s[i]);
        }
        lemma_filter_none(s, rank_from(o, k));
        assert(ranked_from(o, s, k).to_multiset() =~= s.filter(rank_from(o, k)).to_multiset());
    } else {
        lemma_ranked_from_multiset(o, s, k + 1);
        lemma_rank_split(o, s, k);
        vstd::seq_lib::lemma_multiset_commutative(
            s.filter(rank_is(o, k)),
            ranked_from(o, s, k + 1),
        );
    }
}

/// Sorting a run permutes it.
pub proof fn lemma_sorted_run_permutes(o: SortOptions, s: Seq<Pixel>)
    ensures
        sorted_run(o, s).to_multiset() == s.to_multiset(),
{
    lemma_ranked_from_multiset(o, s, 0);
    assert forall|i: int| 0 <= i < s.len() implies (rank_from(o, 0))(s[i]) by {
        lemma_rank_range(o, s[i]);
    }
    lemma_filter_all(s, rank_from(o, 0));
}

proof fn lemma_arrange_from_permutes(o: SortOptions, s: Seq<Pixel>, run: Seq<Pixel>)
    ensures
        arrange_from(o, s, run).to_multiset() == run.to_multiset().add(s.to_multiset()),
    decreases s.len(),
{
    if s.len() == 0 {
        lemma_sorted_run_permutes(o, run);
        assert(run.to_multiset().add(s.to_multiset()) =~= run.to_multiset());
    } else {
        let rest = s.drop_first();
        assert(s =~= seq![s[0]] + rest);
        vstd::seq_lib::lemma_multiset_commutative(seq![s[0]], rest);
        if selected(o, s[0]) {
            lemma_arrange_from_permutes(o, rest, run.push(s[0]));
        } else {
            lemma_arrange_from_permutes(o, rest, Seq::empty());
            lemma_sorted_run_permutes(o, run);
            vstd::seq_lib::lemma_multiset_commutative(sorted_run(o, run), seq![s[0]]);
            vstd::seq_lib::lemma_multiset_commutative(
                sorted_run(o, run) + seq![s[0]],
                arrange_from(o, rest, Seq::empty()),
            );
        }
        assert(arrange_from(o, s, run).to_multiset() =~= run.to_multiset().add(s.to_multiset()));
    }
}

/// Sorting a scan line only permutes its pixels: the multiset of pixel values
/// is the same before and after.
pub proof fn lemma_arrange_permutes(o: SortOptions, s: Seq<Pixel>)
    ensures
        arrange(o, s).to_multiset() == s.to_multiset(),
{
    lemma_arrange_from_permutes(o, s, Seq::empty());
    assert(Seq::<Pixel>::empty().to_multiset().add(s.to_multiset()) =~= s.to_multiset());
}

/// A pixel whose key equals the minimum or the maximum of a non-empty range
/// is selected when the range is not inverted and the pixel is not masked.
pub proof fn lemma_bounds_inclusive(o: SortOptions, p: Pixel)
    requires
        !o.invert,
        o.minimum <= o.maximum,
        key(o.function, p) == o.minimum || key(o.function, p) == o.maximum,
        !(o.mask_alpha && p.a == 0),
    ensures
        selected(o, p),
{
}

/// Under masking a fully transparent pixel is never selected, whatever the
/// range and its inversion.
pub proof fn lemma_mask_wins(o: SortOptions, p: Pixel)
    requires
        o.mask_alpha,
        p.a == 0,
    ensures
        !selected(o, p),
{
}

/// The two options select and order alike: they differ at most in
/// `vertical`.
pub open spec fn same_order(o: SortOptions, p: SortOptions) -> bool {
    o == SortOptions { vertical: o.vertical, ..p }
}

proof fn lemma_ranked_from_same(o: SortOptions, q: SortOptions, s: Seq<Pixel>, k: int)
    requires
        same_order(o, q),
    ensures
        ranked_from(o, s, k) == ranked_from(q, s, k),
    decreases 256 - k,
{
    if k < 256 {
        assert(rank_is(o, k) =~= rank_is(q, k));
        lemma_ranked_from_same(o, q, s, k + 1);
    }
}

proof fn lemma_arrange_from_same(o: SortOptions, q: SortOptions, s: Seq<Pixel>, run: Seq<Pixel>)
    requires
        same_order(o, q),
    ensures
        arrange_from(o, s, run) == arrange_from(q, s, run),
    decreases s.len(),
{
    lemma_ranked_from_same(o, q, run, 0);
    if s.len() > 0 {
        lemma_arrange_from_same(o, q, s.drop_first(), run.push(s[0]));
        lemma_arrange_from_same(o, q, s.drop_first(), Seq::empty());
    }
}

/// Sorting a line does not depend on `vertical`.
pub proof fn lemma_arrange_same(o: SortOptions, q: SortOptions, s: Seq<Pixel>)
    requires
        same_order(o, q),
    ensures
        arrange(o, s) == arrange(q, s),
{
    lemma_arrange_from_same(o, q, s, Seq::empty());
}

/// No pixel of `s` has rank `k` or above.
proof fn lemma_ranked_from_below(o: SortOptions, s: Seq<Pixel>, k: int)
    requires
        forall|i: int| 0 <= i < s.len() ==> rank(o, #[trigger] s[i]) < k,
    ensures
        ranked_from(o, s, k) == Seq::<Pixel>::empty(),
    decreases 256 - k,
{
    if k < 256 {
        lemma_filter_none(s, rank_is(o, k));
        lemma_ranked_from_below(o, s, k + 1);
    }
}

/// Appending a pixel of the largest rank so far appends it to the sorted
/// result.
proof fn lemma_ranked_from_push(o: SortOptions, t: Seq<Pixel>, x: Pixel, k: int)
    requires
        k <= rank(o, x) <= 255,
        forall|i: int| 0 <= i < t.len() ==> rank(o, #[trigger] t[i]) <= rank(o, x),
    ensures
        ranked_from(o, t.push(x), k) == ranked_from(o, t, k).push(x),
    decreases 256 - k,
{
    t.lemma_filter_push(x, rank_is(o, k));
    if rank(o, x) == k {
        assert forall|i: int| 0 <= i < t.push(x).len() implies rank(o, #[trigger] t.push(x)[i])
            < k + 1 by {
            if i < t.len() {
                assert(t.push(x)[i] == t[i]);
            }
        }
        lemma_ranked_from_below(o, t.push(x), k + 1);
        lemma_ranked_from_below(o, t, k + 1);
        assert(ranked_from(o, t.push(x), k) =~= ranked_from(o, t, k).push(x));
    } else {
        lemma_ranked_from_push(o, t, x, k + 1);
        assert(ranked_from(o, t.push(x), k) =~= ranked_from(o, t, k).push(x));
    }
}

/// Ranks never decrease along `s`.
pub open spec fn rank_sorted(o: SortOptions, s: Seq<Pixel>) -> bool {
    forall|i: int, j: int| 0 <= i < j < s.len() ==> rank(o, #[trigger] s[i]) <= rank(o, #[trigger] s[j])
}

proof fn lemma_rank_sorted_last(o: SortOptions, s: Seq<Pixel>)
    requires
        rank_sorted(o, s),
        s.len() > 0,
    ensures
        rank_sorted(o, s.drop_last()),
        forall|i: int| 0 <= i < s.len() - 1 ==> rank(o, #[trigger] s.drop_last()[i]) <= rank(o, s.last()),
{
    let t = s.drop_last();
    assert forall|i: int, j: int| 0 <= i < j < t.len() implies rank(o, #[trigger] t[i]) <= rank(
        o,
        #[trigger] t[j],
    ) by {
        assert(t[i] == s[i] && t[j] == s[j]);
    }
    assert forall|i: int| 0 <= i < s.len() - 1 implies rank(o, #[trigger] t[i]) <= rank(o, s.last()) by {
        assert(t[i] == s[i]);
    }
}

/// A run already in sort order is left as it is.
pub proof fn lemma_sorted_run_fixed(o: SortOptions, s: Seq<Pixel>)
    requires
        rank_sorted(o, s),
    ensures
        sorted_run(o, s) == s,
    decreases s.len(),
{
    if s.len() > 0 {
        let t = s.drop_last();
        let x = s.last();
        assert(t.push(x) =~= s);
        lemma_rank_sorted_last(o, s);
        lemma_sorted_run_fixed(o, t);
        lemma_rank_range(o, x);
        lemma_ranked_from_push(o, t, x, 0);
        assert(sorted_run(o, t.push(x)) == t.push(x));
    } else {
        lemma_ranked_from_below(o, s, 0);
    }
}

proof fn lemma_arrange_from_all_selected(o: SortOptions, s: Seq<Pixel>, run: Seq<Pixel>)
    requires
        forall|i: int| 0 <= i < s.len() ==> selected(o, #[trigger] s[i]),
    ensures
        arrange_from(o, s, run) == sorted_run(o, run + s),
    decreases s.len(),
{
    if s.len() == 0 {
        assert(run + s =~= run);
    } else {
        let rest = s.drop_first();
        assert forall|i: int| 0 <= i < rest.len() implies selected(o, #[trigger] rest[i]) by {
            assert(rest[i] == s[i + 1]);
        }
        lemma_arrange_from_all_selected(o, rest, run.push(s[0]));
        assert(run.push(s[0]) + rest =~= run + s);
    }
}

/// A line whose pixels are all selected and already in sort order is left as
/// it is.
pub proof fn lemma_arrange_fixed(o: SortOptions, s: Seq<Pixel>)
    requires
        forall|i: int| 0 <= i < s.len() ==> selected(o, #[trigger] s[i]),
        rank_sorted(o, s),
    ensures
        arrange(o, s) == s,
{
    lemma_arrange_from_all_selected(o, s, Seq::empty());
    assert(Seq::<Pixel>::empty() + s =~= s);
    lemma_sorted_run_fixed(o, s);
}

/// Appends the pixels of `more` to `out`, in order.
fn append_all(out: &mut Vec<Pixel>, more: &Vec<Pixel>)
    ensures
        final(out)@ == old(out)@ + more@,
{
    let ghost start = out@;
    for j in 0..more.len()
        invariant
            out@ == start + more@.take(j as int),
    {
        out.push(more[j]);
        assert(more@.take(j + 1) =~= more@.take(j as int).push(more@[j as int]));
    }
    assert(more@.take(more@.len() as int) =~= more@);
}

impl SortOptions {
    /// Whether the pixel takes part in a sortable run.
    pub fn is_selected(&self, p: &Pixel) -> (b: bool)
        ensures
            b == selected(*self, *p),
    {
        let k = self.function.func(p);
        ((k >= self.minimum && k <= self.maximum) != self.invert) && !(self.mask_alpha && p.a
            == 0)
    }

    /// The rank of a pixel in the sort order.
    fn rank_of(&self, p: &Pixel) -> (r: u8)
        ensures
            r == rank(*self, *p),
    {
        let k = self.function.func(p);
        if self.reverse {
            255 - k
        } else {
            k
        }
    }

    /// Sorts a run by key, keeping the order of pixels of equal key.
    pub fn sort_run(&self, run: &Vec<Pixel>) -> (out: Vec<Pixel>)
        ensures
            out@ == sorted_run(*self, run@),
    {
        let mut buckets: Vec<Vec<Pixel>> = Vec::new();
        for k in 0..256usize
            invariant
                buckets@.len() == k,
                forall|j: int| 0 <= j < k ==> buckets@[j]@ == Seq::<Pixel>::empty(),
        {
            buckets.push(Vec::new());
        }
        for i in 0..run.len()
            invariant
                buckets@.len() == 256,
                forall|j: int|
                    0 <= j < 256 ==> #[trigger] buckets@[j]@ == run@.take(i as int).filter(
                        rank_is(*self, j),
                    ),
        {
            let p = run[i];
            let k = self.rank_of(&p) as usize;
            buckets[k].push(p);
            proof {
                assert(run@.take(i + 1) =~= run@.take(i as int).push(p));
                assert forall|j: int| 0 <= j < 256 implies #[trigger] buckets@[j]@ == run@.take(
                    i + 1,
                ).filter(rank_is(*self, j)) by {
                    run@.take(i as int).lemma_filter_push(p, rank_is(*self, j));
                }
            }
        }
        assert(run@.take(run@.len() as int) =~= run@);
        let mut out: Vec<Pixel> = Vec::new();
        for k in 0..256usize
            invariant
                buckets@.len() == 256,
                forall|j: int|
                    0 <= j < 256 ==> #[trigger] buckets@[j]@ == run@.filter(rank_is(*self, j)),
                out@ + ranked_from(*self, run@, k as int) == sorted_run(*self, run@),
        {
            let bucket = &buckets[k];
            let ghost before = out@;
            append_all(&mut out, bucket);
            assert(ranked_from(*self, run@, k as int) == run@.filter(rank_is(*self, k as int))
                + ranked_from(*self, run@, k + 1));
            assert(out@ + ranked_from(*self, run@, k + 1) =~= before + ranked_from(
                *self,
                run@,
                k as int,
            ));
        }
        assert(out@ + ranked_from(*self, run@, 256) =~= out@);
        out
    }

    /// Sorts the selected runs of a scan line in place: each maximal run of
    /// selected pixels is sorted by key, every other pixel keeps its place.
    pub fn do_sort(&self, pixels: &mut Vec<Pixel>)
        ensures
            final(pixels)@ == arrange(*self, old(pixels)@),
    {
        let ghost s = pixels@;
        let mut out: Vec<Pixel> = Vec::new();
        let mut run: Vec<Pixel> = Vec::new();
        let n = pixels.len();
        for i in 0..n
            invariant
                n == s.len(),
                pixels@ == s,
                out@ + arrange_from(*self, s.skip(i as int), run@) == arrange(*self, s),
        {
            let p = pixels[i];
            let ghost rest = s.skip(i as int);
            assert(rest.drop_first() =~= s.skip(i + 1));
            assert(rest[0] == p);
            if self.is_selected(&p) {
                run.push(p);
            } else {
                let sorted = self.sort_run(&run);
                let ghost prev = out@;
                append_all(&mut out, &sorted);
                out.push(p);
                run = Vec::new();
                assert(prev + (sorted@ + seq![p] + arrange_from(
                    *self,
                    s.skip(i + 1),
                    Seq::empty(),
                )) =~= out@ + arrange_from(*self, s.skip(i + 1), Seq::empty()));
            }
        }
        assert(s.skip(n as int) =~= Seq::<Pixel>::empty());
        let sorted = self.sort_run(&run);
        append_all(&mut out, &sorted);
        *pixels = out;
    }
}

} // verus!
