//! The textual form of a path shape: `line`, `sine(amp, period, offset)`,
//! `circle(cx, cy)` or `ellipse(ecc, cx, cy)`, with optional arguments and
//! any of `()`, `[]`, `{}`, `<>` as brackets.
//!
//! The parser fixes the shape and which argument is which; the arguments
//! stay text, for the caller to read as numbers.
use vstd::prelude::*;

use crate::heuristic::{all_heuristics, name_of, Heuristic};

verus! {

broadcast use vstd::seq_lib::group_seq_properties, vstd::string::group_string_axioms;

/// Characters with the Unicode `White_Space` property.
pub open spec fn white_space(c: char) -> bool {
    let n = c as u32;
    ||| n == 0x20
    ||| 0x09 <= n <= 0x0d
    ||| n == 0x85
    ||| n == 0xa0
    ||| n == 0x1680
    ||| 0x2000 <= n <= 0x200a
    ||| n == 0x2028
    ||| n == 0x2029
    ||| n == 0x202f
    ||| n == 0x205f
    ||| n == 0x3000
}

/// Relies on `char::is_whitespace`, which tests the Unicode `White_Space`
/// property.
#[verifier::external_body]
fn is_space(c: char) -> (b: bool)
    ensures
        b == white_space(c),
{
    c.is_whitespace()
}

/// The text without leading white space.
pub open spec fn trim_start(s: Seq<char>) -> Seq<char>
    decreases s.len(),
{
    if s.len() > 0 && white_space(s[0]) {
        trim_start(s.drop_first())
    } else {
        s
    }
}

/// The text without trailing white space.
pub open spec fn trim_end(s: Seq<char>) -> Seq<char>
    decreases s.len(),
{
    if s.len() > 0 && white_space(s.last()) {
        trim_end(s.drop_last())
    } else {
        s
    }
}

/// The text without leading and trailing white space.
pub open spec fn trim(s: Seq<char>) -> Seq<char> {
    trim_end(trim_start(s))
}

/// An opening and a closing bracket of one kind.
pub open spec fn bracket_pair(open: char, close: char) -> bool {
    ||| open == '(' && close == ')'
    ||| open == '[' && close == ']'
    ||| open == '{' && close == '}'
    ||| open == '<' && close == '>'
}

/// The text between a pair of brackets that enclose the trimmed text.
pub open spec fn unwrap_spec(s: Seq<char>) -> Option<Seq<char>> {
    let t = trim(s);
    if t.len() >= 2 && bracket_pair(t[0], t.last()) {
        Some(t.subrange(1, t.len() - 1))
    } else {
        None
    }
}

/// The pieces of the text between commas; one piece when there is no comma.
pub open spec fn split_spec(s: Seq<char>) -> Seq<Seq<char>>
    decreases s.len(),
{
    if s.len() == 0 {
        seq![Seq::empty()]
    } else {
        let p = split_spec(s.drop_last());
        if s.last() == ',' {
            p.push(Seq::empty())
        } else {
            p.update(p.len() - 1, p.last().push(s.last()))
        }
    }
}

/// The comma-separated arguments, each trimmed.
pub open spec fn args_spec(s: Seq<char>) -> Seq<Seq<char>> {
    split_spec(s).map_values(|a: Seq<char>| trim(a))
}

/// A path shape with its arguments as text; `None` stands for the default.
#[derive(Clone, Debug, PartialEq, Eq)]
pub enum ShapeText<T> {
    Linear,
    Sine { amplitude: Option<T>, lambda: Option<T>, offset: Option<T> },
    Ellipse { eccentricity: Option<T>, center: Option<(T, T)> },
}

/// A parsed shape, its arguments as characters.
pub type ParsedShape = ShapeText<Vec<char>>;

impl View for ShapeText<Vec<char>> {
    type V = ShapeText<Seq<char>>;

    open spec fn view(&self) -> ShapeText<Seq<char>> {
        match self {
            ShapeText::Linear => ShapeText::Linear,
            ShapeText::Sine { amplitude, lambda, offset } => ShapeText::Sine {
                amplitude: view_arg(*amplitude),
                lambda: view_arg(*lambda),
                offset: view_arg(*offset),
            },
            ShapeText::Ellipse { eccentricity, center } => ShapeText::Ellipse {
                eccentricity: view_arg(*eccentricity),
                center: match center {
                    Some((x, y)) => Some((x@, y@)),
                    None => None,
                },
            },
        }
    }
}

/// An optional argument as text.
pub open spec fn view_arg(a: Option<Vec<char>>) -> Option<Seq<char>> {
    match a {
        Some(v) => Some(v@),
        None => None,
    }
}

/// Text that names no shape: the offending text, trimmed.
#[derive(Clone, Debug, PartialEq, Eq)]
pub struct ShapeError {
    pub text: Vec<char>,
}

/// The rest of `t` after the word `w`, when `t` starts with it.
pub open spec fn after_word(t: Seq<char>, w: Seq<char>) -> Option<Seq<char>> {
    if t.len() >= w.len() && t.take(w.len() as int) == w {
        Some(t.skip(w.len() as int))
    } else {
        None
    }
}

/// A sine from one to three arguments: amplitude, period, offset.
pub open spec fn sine_from(a: Seq<Seq<char>>) -> Option<ShapeText<Seq<char>>> {
    if 1 <= a.len() <= 3 {
        Some(
            ShapeText::Sine {
                amplitude: Some(a[0]),
                lambda: if a.len() >= 2 {
                    Some(a[1])
                } else {
                    None
                },
                offset: if a.len() == 3 {
                    Some(a[2])
                } else {
                    None
                },
            },
        )
    } else {
        None
    }
}

/// A circle from its two centre coordinates.
pub open spec fn circle_from(a: Seq<Seq<char>>) -> Option<ShapeText<Seq<char>>> {
    if a.len() == 2 {
        Some(ShapeText::Ellipse { eccentricity: None, center: Some((a[0], a[1])) })
    } else {
        None
    }
}

/// An ellipse from its eccentricity, its centre, or both.
pub open spec fn ellipse_from(a: Seq<Seq<char>>) -> Option<ShapeText<Seq<char>>> {
    if a.len() == 1 {
        Some(ShapeText::Ellipse { eccentricity: Some(a[0]), center: None })
    } else if a.len() == 2 {
        Some(ShapeText::Ellipse { eccentricity: None, center: Some((a[0], a[1])) })
    } else if a.len() == 3 {
        Some(ShapeText::Ellipse { eccentricity: Some(a[0]), center: Some((a[1], a[2])) })
    } else {
        None
    }
}

/// The arguments in brackets after a shape's name.
pub open spec fn bracketed_args(rest: Seq<char>) -> Option<Seq<Seq<char>>> {
    match unwrap_spec(rest) {
        Some(inner) => Some(args_spec(inner)),
        None => None,
    }
}

/// What the text names, or the trimmed text when it names no shape.
pub open spec fn parse_spec(s: Seq<char>) -> Result<ShapeText<Seq<char>>, Seq<char>> {
    let t = trim(s);
    let found = if t == Seq::<char>::empty() || t == "line"@ || t == "linear"@ {
        Some(ShapeText::Linear)
    } else if t == "sine"@ {
        Some(ShapeText::Sine { amplitude: None, lambda: None, offset: None })
    } else if t == "circle"@ || t == "ellipse"@ {
        Some(ShapeText::Ellipse { eccentricity: None, center: None })
    } else if after_word(t, "sine"@) is Some {
        match bracketed_args(after_word(t, "sine"@)->0) {
            Some(a) => sine_from(a),
            None => None,
        }
    } else if after_word(t, "circle"@) is Some {
        match bracketed_args(after_word(t, "circle"@)->0) {
            Some(a) => circle_from(a),
            None => None,
        }
    } else if after_word(t, "ellipse"@) is Some {
        match bracketed_args(after_word(t, "ellipse"@)->0) {
            Some(a) => ellipse_from(a),
            None => None,
        }
    } else {
        None
    };
    match found {
        Some(shape) => Ok(shape),
        None => Err(t),
    }
}

/// The characters of a string, in order.
pub fn chars_of(s: &str) -> (v: Vec<char>)
    ensures
        v@ == s@,
{
    let mut v: Vec<char> = Vec::new();
    for c in it: s.chars()
        invariant
            it.seq() == s@,
            v@ == s@.take(it.index()),
    {
        v.push(c);
        assert(v@ =~= s@.take(it.index() + 1));
    }
    assert(v@ =~= s@);
    v
}

/// The characters `v[lo..hi]` as a new vector.
fn copy_window(v: &Vec<char>, lo: usize, hi: usize) -> (r: Vec<char>)
    requires
        lo <= hi <= v@.len(),
    ensures
        r@ == v@.subrange(lo as int, hi as int),
{
    let mut r: Vec<char> = Vec::new();
    for i in lo..hi
        invariant
            hi <= v@.len(),
            r@ == v@.subrange(lo as int, i as int),
    {
        r.push(v[i]);
        assert(r@ =~= v@.subrange(lo as int, i + 1));
    }
    r
}

/// Whether `v[lo..hi]` is the word `w`.
fn window_is(v: &Vec<char>, lo: usize, hi: usize, w: &str) -> (b: bool)
    requires
        lo <= hi <= v@.len(),
    ensures
        b == (v@.subrange(lo as int, hi as int) == w@),
{
    let n = w.unicode_len();
    if hi - lo != n {
        return false;
    }
    for i in 0..n
        invariant
            n == w@.len(),
            hi - lo == n,
            hi <= v@.len(),
            forall|j: int| 0 <= j < i ==> v@[lo + j] == w@[j],
    {
        if v[lo + i] != w.get_char(i) {
            assert(v@.subrange(lo as int, hi as int)[i as int] != w@[i as int]);
            return false;
        }
    }
    assert(v@.subrange(lo as int, hi as int) =~= w@);
    true
}

/// Whether `v[lo..hi]` starts with the word `w`, and where the rest begins.
fn after_window(v: &Vec<char>, lo: usize, hi: usize, w: &str) -> (r: Option<usize>)
    requires
        lo <= hi <= v@.len(),
    ensures
        after_word(v@.subrange(lo as int, hi as int), w@) is Some <==> r is Some,
        r matches Some(k) ==> lo <= k <= hi && after_word(v@.subrange(lo as int, hi as int), w@)->0
            == v@.subrange(k as int, hi as int),
{
    let n = w.unicode_len();
    let ghost t = v@.subrange(lo as int, hi as int);
    if hi - lo < n {
        return None;
    }
    assert(t.take(n as int) =~= v@.subrange(lo as int, lo + n));
    assert(t.skip(n as int) =~= v@.subrange(lo + n, hi as int));
    if window_is(v, lo, lo + n, w) {
        Some(lo + n)
    } else {
        None
    }
}

/// The window of `v[lo..hi]` without leading and trailing white space.
fn trim_window(v: &Vec<char>, lo: usize, hi: usize) -> (r: (usize, usize))
    requires
        lo <= hi <= v@.len(),
    ensures
        lo <= r.0 <= r.1 <= hi,
        v@.subrange(r.0 as int, r.1 as int) == trim(v@.subrange(lo as int, hi as int)),
{
    let mut a = lo;
    while a < hi && is_space(v[a])
        invariant
            lo <= a <= hi <= v@.len(),
            trim_start(v@.subrange(lo as int, hi as int)) == trim_start(
                v@.subrange(a as int, hi as int),
            ),
        decreases hi - a,
    {
        assert(v@.subrange(a as int, hi as int).drop_first() =~= v@.subrange(a + 1, hi as int));
        a = a + 1;
    }
    let mut b = hi;
    while b > a && is_space(v[b - 1])
        invariant
            a <= b <= hi <= v@.len(),
            trim_start(v@.subrange(lo as int, hi as int)) == v@.subrange(a as int, hi as int),
            trim_end(v@.subrange(a as int, hi as int)) == trim_end(v@.subrange(a as int, b as int)),
        decreases b - a,
    {
        assert(v@.subrange(a as int, b as int).drop_last() =~= v@.subrange(a as int, b - 1));
        b = b - 1;
    }
    (a, b)
}

/// The bracketed window inside `v[lo..hi]`, once trimmed.
fn bracket_window(v: &Vec<char>, lo: usize, hi: usize) -> (r: Option<(usize, usize)>)
    requires
        lo <= hi <= v@.len(),
    ensures
        unwrap_spec(v@.subrange(lo as int, hi as int)) is Some <==> r is Some,
        r matches Some(w) ==> lo <= w.0 <= w.1 <= hi && unwrap_spec(
            v@.subrange(lo as int, hi as int),
        )->0 == v@.subrange(w.0 as int, w.1 as int),
{
    let (a, b) = trim_window(v, lo, hi);
    if b - a < 2 {
        return None;
    }
    let ghost t = v@.subrange(a as int, b as int);
    assert(t[0] == v@[a as int] && t.last() == v@[b - 1]);
    let (open, close) = (v[a], v[b - 1]);
    if (open == '(' && close == ')') || (open == '[' && close == ']') || (open == '{' && close
        == '}') || (open == '<' && close == '>') {
        assert(t.subrange(1, t.len() - 1) =~= v@.subrange(a + 1, b - 1));
        Some((a + 1, b - 1))
    } else {
        None
    }
}

/// The text that each window of `ws` marks in `v`.
pub open spec fn windows_view(v: Seq<char>, ws: Seq<(usize, usize)>) -> Seq<Seq<char>> {
    ws.map_values(|w: (usize, usize)| v.subrange(w.0 as int, w.1 as int))
}

/// The comma-separated pieces of `v[lo..hi]`, as windows.
fn split_windows(v: &Vec<char>, lo: usize, hi: usize) -> (ws: Vec<(usize, usize)>)
    requires
        lo <= hi <= v@.len(),
    ensures
        windows_view(v@, ws@) == split_spec(v@.subrange(lo as int, hi as int)),
        forall|k: int| 0 <= k < ws@.len() ==> lo <= (#[trigger] ws@[k]).0 <= ws@[k].1 <= hi,
{
    let mut ws: Vec<(usize, usize)> = Vec::new();
    let mut start = lo;
    for i in lo..hi
        invariant
            lo <= start <= i,
            hi <= v@.len(),
            forall|k: int| 0 <= k < ws@.len() ==> lo <= (#[trigger] ws@[k]).0 <= ws@[k].1 <= i,
            split_spec(v@.subrange(lo as int, i as int)) == windows_view(v@, ws@).push(
                v@.subrange(start as int, i as int),
            ),
    {
        let ghost prev = windows_view(v@, ws@);
        assert(v@.subrange(lo as int, i + 1).drop_last() =~= v@.subrange(lo as int, i as int));
        if v[i] == ',' {
            ws.push((start, i));
            start = i + 1;
            assert(windows_view(v@, ws@) =~= prev.push(v@.subrange(ws@.last().0 as int, i as int)));
            assert(v@.subrange(start as int, i + 1) =~= Seq::<char>::empty());
        } else {
            assert(v@.subrange(start as int, i + 1) =~= v@.subrange(start as int, i as int).push(
                v@[i as int],
            ));
            assert(prev.push(v@.subrange(start as int, i as int)).update(
                prev.len() as int,
                v@.subrange(start as int, i + 1),
            ) =~= prev.push(v@.subrange(start as int, i + 1)));
        }
    }
    let ghost prev = windows_view(v@, ws@);
    ws.push((start, hi));
    assert(windows_view(v@, ws@) =~= prev.push(v@.subrange(start as int, hi as int)));
    ws
}

/// The trimmed comma-separated arguments between the brackets that follow a
/// shape's name in `v[lo..hi]`; `None` without such brackets.
fn bracketed_window_args(v: &Vec<char>, lo: usize, hi: usize) -> (r: Option<Vec<Vec<char>>>)
    requires
        lo <= hi <= v@.len(),
    ensures
        bracketed_args(v@.subrange(lo as int, hi as int)) is Some <==> r is Some,
        r matches Some(a) ==> a@.map_values(|x: Vec<char>| x@) == bracketed_args(
            v@.subrange(lo as int, hi as int),
        )->0,
{
    let (a, b) = match bracket_window(v, lo, hi) {
        Some(w) => w,
        None => {
            return None;
        },
    };
    let ws = split_windows(v, a, b);
    let ghost pieces = split_spec(v@.subrange(a as int, b as int));
    let mut args: Vec<Vec<char>> = Vec::new();
    for k in 0..ws.len()
        invariant
            b <= v@.len(),
            windows_view(v@, ws@) == pieces,
            forall|j: int| 0 <= j < ws@.len() ==> a <= (#[trigger] ws@[j]).0 <= ws@[j].1 <= b,
            args@.len() == k,
            forall|j: int| 0 <= j < k ==> (#[trigger] args@[j])@ == trim(pieces[j]),
    {
        let w = ws[k];
        let (x, y) = trim_window(v, w.0, w.1);
        args.push(copy_window(v, x, y));
    }
    assert(args@.map_values(|x: Vec<char>| x@) =~= args_spec(v@.subrange(a as int, b as int)));
    Some(args)
}

/// Parses the textual form of a path shape.
///
/// After trimming, `""`, `line` and `linear` name the straight path; `sine`
/// a sine with default parameters; `circle` and `ellipse` the default
/// ellipse. `sine` followed by one to three bracketed, comma-separated
/// arguments gives amplitude, period and offset; `circle` with two gives the
/// centre; `ellipse` with one gives the eccentricity, with two the centre,
/// with three both. Anything else is an error that carries the trimmed text.
pub fn parse_shape(s: &str) -> (r: Result<ParsedShape, ShapeError>)
    ensures
        match (r, parse_spec(s@)) {
            (Ok(p), Ok(q)) => p@ == q,
            (Err(e), Err(t)) => e.text@ == t,
            _ => false,
        },
{
    let v = chars_of(s);
    let (lo, hi) = trim_window(&v, 0, v.len());
    assert(v@.subrange(0, v@.len() as int) =~= s@);
    let ghost t = trim(s@);
    let fail = ShapeError { text: copy_window(&v, lo, hi) };
    if lo == hi || window_is(&v, lo, hi, "line") || window_is(&v, lo, hi, "linear") {
        return Ok(ShapeText::Linear);
    }
    if window_is(&v, lo, hi, "sine") {
        return Ok(ShapeText::Sine { amplitude: None, lambda: None, offset: None });
    }
    if window_is(&v, lo, hi, "circle") || window_is(&v, lo, hi, "ellipse") {
        return Ok(ShapeText::Ellipse { eccentricity: None, center: None });
    }
    if let Some(k) = after_window(&v, lo, hi, "sine") {
        let args = match bracketed_window_args(&v, k, hi) {
            Some(a) => a,
            None => {
                return Err(fail);
            },
        };
        let n = args.len();
        if n < 1 || n > 3 {
            return Err(fail);
        }
        let mut args = args;
        let offset = if n == 3 {
            args.pop()
        } else {
            None
        };
        let lambda = if n >= 2 {
            args.pop()
        } else {
            None
        };
        let amplitude = args.pop();
        return Ok(ShapeText::Sine { amplitude, lambda, offset });
    }
    if let Some(k) = after_window(&v, lo, hi, "circle") {
        let mut args = match bracketed_window_args(&v, k, hi) {
            Some(a) => a,
            None => {
                return Err(fail);
            },
        };
        if args.len() != 2 {
            return Err(fail);
        }
        let y = args.pop().unwrap();
        let x = args.pop().unwrap();
        return Ok(ShapeText::Ellipse { eccentricity: None, center: Some((x, y)) });
    }
    if let Some(k) = after_window(&v, lo, hi, "ellipse") {
        let mut args = match bracketed_window_args(&v, k, hi) {
            Some(a) => a,
            None => {
                return Err(fail);
            },
        };
        let n = args.len();
        if n < 1 || n > 3 {
            return Err(fail);
        }
        let center = if n >= 2 {
            let y = args.pop().unwrap();
            let x = args.pop().unwrap();
            Some((x, y))
        } else {
            None
        };
        let eccentricity = args.pop();
        return Ok(ShapeText::Ellipse { eccentricity, center });
    }
    Err(fail)
}

/// The brackets of a shape's arguments, stripped: the trimmed text when it is
/// enclosed in a pair of matching brackets, without them.
pub fn unwrap_parens(s: &str) -> (r: Result<Vec<char>, ()>)
    ensures
        r is Ok <==> unwrap_spec(s@) is Some,
        r matches Ok(inner) ==> inner@ == unwrap_spec(s@)->0,
{
    let v = chars_of(s);
    assert(v@.subrange(0, v@.len() as int) =~= s@);
    match bracket_window(&v, 0, v.len()) {
        Some((a, b)) => Ok(copy_window(&v, a, b)),
        None => Err(()),
    }
}

impl Heuristic {
    /// The heuristic with the given snake-case name.
    pub fn from_name(s: &str) -> (r: Option<Heuristic>)
        ensures
            r matches Some(h) ==> name_of(h) == s@,
            r is None ==> forall|h: Heuristic| name_of(h) != s@,
    {
        let v = chars_of(s);
        assert(v@.subrange(0, v@.len() as int) =~= s@);
        let hs = Heuristic::concrete_variants();
        for i in 0..hs.len()
            invariant
                hs@ == all_heuristics(),
                v@ == s@,
                forall|j: int| 0 <= j < i ==> name_of(#[trigger] all_heuristics()[j]) != s@,
        {
            if window_is(&v, 0, v.len(), hs[i].name()) {
                return Some(hs[i]);
            }
        }
        assert forall|h: Heuristic| name_of(h) != s@ by {
            let j: int = match h {
                Heuristic::Luma => 0,
                Heuristic::Brightness => 1,
                Heuristic::Max => 2,
                Heuristic::Min => 3,
                Heuristic::Chroma => 4,
                Heuristic::Hue => 5,
                Heuristic::Saturation => 6,
                Heuristic::Value => 7,
                Heuristic::Red => 8,
                Heuristic::Blue => 9,
                Heuristic::Green => 10,
            };
            assert(all_heuristics()[j] == h);
        }
        None
    }
}

} // verus!
