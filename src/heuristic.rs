//! Sort keys: each heuristic maps a pixel to an eight-bit key.
use vstd::prelude::*;

use crate::pixel::Pixel;

verus! {

/// The largest of the three colour channels.
pub open spec fn max_of(p: Pixel) -> u8 {
    if p.r >= p.g && p.r >= p.b {
        p.r
    } else if p.g >= p.b {
        p.g
    } else {
        p.b
    }
}

/// The smallest of the three colour channels.
pub open spec fn min_of(p: Pixel) -> u8 {
    if p.r <= p.g && p.r <= p.b {
        p.r
    } else if p.g <= p.b {
        p.g
    } else {
        p.b
    }
}

/// Spread between the largest and the smallest colour channel.
pub open spec fn chroma_of(p: Pixel) -> int {
    max_of(p) - min_of(p)
}

/// Absolute difference of two channels.
pub open spec fn gap(x: u8, y: u8) -> int {
    if x >= y {
        x - y
    } else {
        y - x
    }
}

/// Hue scaled to a byte: zero for a grey pixel; otherwise the sector of the
/// first maximal channel in red, green, blue order, plus a step within it.
pub open spec fn hue_of(p: Pixel) -> int {
    let c = chroma_of(p);
    if c == 0 {
        0
    } else if p.r == max_of(p) {
        gap(p.g, p.b) / c * 43
    } else if p.g == max_of(p) {
        gap(p.b, p.r) / c * 43 + 85
    } else {
        gap(p.r, p.g) / c * 43 + 171
    }
}

/// Chroma over the largest channel, in integer division; zero for black.
pub open spec fn saturation_of(p: Pixel) -> int {
    if max_of(p) == 0 {
        0
    } else {
        chroma_of(p) / (max_of(p) as int)
    }
}

/// Mean of the colour channels, computed without overflow.
pub open spec fn brightness_of(p: Pixel) -> int {
    p.r / 3 + p.g / 3 + p.b / 3 + (p.r % 3 + p.g % 3 + p.b % 3) / 3
}

/// Cheap perceptual luminance: `(2r + g + 4b) / 8`.
pub open spec fn luma_of(p: Pixel) -> int {
    (2 * p.r + p.g + 4 * p.b) / 8
}

/// Basis to use for sorting individual pixels.
#[derive(Clone, Copy, Debug, PartialEq, Eq, Structural)]
pub enum Heuristic {
    Luma,
    Brightness,
    Max,
    Min,
    Chroma,
    Hue,
    Saturation,
    Value,
    Red,
    Blue,
    Green,
}

/// The key that a heuristic gives a pixel.
pub open spec fn key(h: Heuristic, p: Pixel) -> int {
    match h {
        Heuristic::Luma => luma_of(p),
        Heuristic::Brightness => brightness_of(p),
        Heuristic::Max => max_of(p) as int,
        Heuristic::Value => max_of(p) as int,
        Heuristic::Min => min_of(p) as int,
        Heuristic::Chroma => chroma_of(p),
        Heuristic::Hue => hue_of(p),
        Heuristic::Saturation => saturation_of(p),
        Heuristic::Red => p.r as int,
        Heuristic::Green => p.g as int,
        Heuristic::Blue => p.b as int,
    }
}

/// Every heuristic, in declaration order.
pub open spec fn all_heuristics() -> Seq<Heuristic> {
    seq![
        Heuristic::Luma,
        Heuristic::Brightness,
        Heuristic::Max,
        Heuristic::Min,
        Heuristic::Chroma,
        Heuristic::Hue,
        Heuristic::Saturation,
        Heuristic::Value,
        Heuristic::Red,
        Heuristic::Blue,
        Heuristic::Green,
    ]
}

/// The snake-case name of a heuristic.
pub open spec fn name_of(h: Heuristic) -> Seq<char> {
    match h {
        Heuristic::Luma => "luma"@,
        Heuristic::Brightness => "brightness"@,
        Heuristic::Max => "max"@,
        Heuristic::Min => "min"@,
        Heuristic::Chroma => "chroma"@,
        Heuristic::Hue => "hue"@,
        Heuristic::Saturation => "saturation"@,
        Heuristic::Value => "value"@,
        Heuristic::Red => "red"@,
        Heuristic::Blue => "blue"@,
        Heuristic::Green => "green"@,
    }
}

fn pixel_max(p: &Pixel) -> (m: u8)
    ensures
        m == max_of(*p),
{
    if p.r >= p.g && p.r >= p.b {
        p.r
    } else if p.g >= p.b {
        p.g
    } else {
        p.b
    }
}

fn pixel_min(p: &Pixel) -> (m: u8)
    ensures
        m == min_of(*p),
{
    if p.r <= p.g && p.r <= p.b {
        p.r
    } else if p.g <= p.b {
        p.g
    } else {
        p.b
    }
}

fn pixel_chroma(p: &Pixel) -> (c: u8)
    ensures
        c == chroma_of(*p),
{
    pixel_max(p) - pixel_min(p)
}

fn pixel_hue(p: &Pixel) -> (h: u8)
    ensures
        h == hue_of(*p),
{
    let c = pixel_chroma(p);
    if c == 0 {
        return 0;
    }
    let m = pixel_max(p);
    let (d, base): (u8, u8) = if p.r == m {
        (if p.g >= p.b { p.g - p.b } else { p.b - p.g }, 0)
    } else if p.g == m {
        (if p.b >= p.r { p.b - p.r } else { p.r - p.b }, 85)
    } else {
        (if p.r >= p.g { p.r - p.g } else { p.g - p.r }, 171)
    };
    assert(d <= c);
    let q = d / c;
    assert(q <= 1) by (nonlinear_arith)
        requires
            q == d / c,
            d <= c,
            c > 0,
    ;
    q * 43 + base
}

fn pixel_saturation(p: &Pixel) -> (s: u8)
    ensures
        s == saturation_of(*p),
{
    match pixel_max(p) {
        0 => 0,
        v => pixel_chroma(p) / v,
    }
}

fn pixel_brightness(p: &Pixel) -> (v: u8)
    ensures
        v == brightness_of(*p),
{
    let (r, g, b) = (p.r, p.g, p.b);
    assert(r / 3 + g / 3 + b / 3 + (r % 3 + g % 3 + b % 3) / 3 <= 255) by (nonlinear_arith)
        requires
            r <= 255,
            g <= 255,
            b <= 255,
    ;
    r / 3 + g / 3 + b / 3 + (r % 3 + g % 3 + b % 3) / 3
}

fn pixel_luma(p: &Pixel) -> (v: u8)
    ensures
        v == luma_of(*p),
{
    let s: u16 = (p.r as u16) * 2 + (p.g as u16) + (p.b as u16) * 4;
    assert(s >> 3u16 == s / 8) by (bit_vector);
    (s >> 3) as u8
}

impl Heuristic {
    /// The names of the available heuristics, in declaration order.
    pub fn variants() -> (names: Vec<&'static str>)
        ensures
            names@.len() == all_heuristics().len(),
            forall|i: int| 0 <= i < names@.len() ==> names@[i]@ == name_of(all_heuristics()[i]),
    {
        let hs = Self::concrete_variants();
        let mut names: Vec<&'static str> = Vec::new();
        for i in 0..hs.len()
            invariant
                hs@ == all_heuristics(),
                names@.len() == i,
                forall|j: int| 0 <= j < i ==> names@[j]@ == name_of(all_heuristics()[j]),
        {
            names.push(hs[i].name());
        }
        names
    }

    /// Every heuristic, in declaration order.
    pub fn concrete_variants() -> (hs: Vec<Heuristic>)
        ensures
            hs@ == all_heuristics(),
    {
        let hs = vec![
            Heuristic::Luma,
            Heuristic::Brightness,
            Heuristic::Max,
            Heuristic::Min,
            Heuristic::Chroma,
            Heuristic::Hue,
            Heuristic::Saturation,
            Heuristic::Value,
            Heuristic::Red,
            Heuristic::Blue,
            Heuristic::Green,
        ];
        assert(hs@ =~= all_heuristics());
        hs
    }

    /// The snake-case name of this heuristic.
    pub fn name(self) -> (s: &'static str)
        ensures
            s@ == name_of(self),
    {
        match self {
            Heuristic::Luma => "luma",
            Heuristic::Brightness => "brightness",
            Heuristic::Max => "max",
            Heuristic::Min => "min",
            Heuristic::Chroma => "chroma",
            Heuristic::Hue => "hue",
            Heuristic::Saturation => "saturation",
            Heuristic::Value => "value",
            Heuristic::Red => "red",
            Heuristic::Blue => "blue",
            Heuristic::Green => "green",
        }
    }

    /// The key of a pixel under this heuristic.
    pub fn func(self, pixel: &Pixel) -> (k: u8)
        ensures
            k == key(self, *pixel),
    {
        match self {
            Heuristic::Red => pixel.r,
            Heuristic::Green => pixel.g,
            Heuristic::Blue => pixel.b,
            Heuristic::Max | Heuristic::Value => pixel_max(pixel),
            Heuristic::Min => pixel_min(pixel),
            Heuristic::Chroma => pixel_chroma(pixel),
            Heuristic::Hue => pixel_hue(pixel),
            Heuristic::Saturation => pixel_saturation(pixel),
            Heuristic::Brightness => pixel_brightness(pixel),
            Heuristic::Luma => pixel_luma(pixel),
        }
    }
}

/// A grey pixel (all three colour channels equal) has hue zero.
pub proof fn lemma_grey_hue_is_zero(p: Pixel)
    requires
        p.r == p.g,
        p.g == p.b,
    ensures
        key(Heuristic::Hue, p) == 0,
{
}

} // verus!
