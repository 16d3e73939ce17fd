//! A rectangular grid of pixels, stored row by row.
use vstd::prelude::*;

use crate::pixel::Pixel;

verus! {

/// The mathematical model of a pixel buffer: its dimensions and its cells,
/// row-major, the cell of `(x, y)` at index `y * width + x`.
pub struct Raster {
    pub width: u32,
    pub height: u32,
    pub cells: Seq<Pixel>,
}

impl Raster {
    /// The cells fill the rectangle exactly.
    pub open spec fn valid(self) -> bool {
        self.cells.len() == self.width * self.height
    }

    /// `(x, y)` lies in the grid.
    pub open spec fn contains(self, x: int, y: int) -> bool {
        0 <= x < self.width && 0 <= y < self.height
    }

    /// The pixel at `(x, y)`.
    pub open spec fn at(self, x: int, y: int) -> Pixel {
        self.cells[y * self.width + x]
    }

    /// The raster with `(x, y)` set to `p`.
    pub open spec fn put(self, x: int, y: int, p: Pixel) -> Raster {
        Raster { cells: self.cells.update(y * self.width + x, p), ..self }
    }

    /// Rotated a quarter turn clockwise: the pixel at `(x, y)` moves to
    /// `(height - 1 - y, x)`, and width and height swap.
    pub open spec fn rotated90(self) -> Raster {
        Raster {
            width: self.height,
            height: self.width,
            cells: Seq::new(
                (self.width * self.height) as nat,
                |i: int| self.at(i / self.height as int, self.height - 1 - i % self.height as int),
            ),
        }
    }

    /// Rotated three quarter turns clockwise: the pixel at `(x, y)` moves to
    /// `(y, width - 1 - x)`, and width and height swap.
    pub open spec fn rotated270(self) -> Raster {
        Raster {
            width: self.height,
            height: self.width,
            cells: Seq::new(
                (self.width * self.height) as nat,
                |i: int| self.at(self.width - 1 - i / self.height as int, i % self.height as int),
            ),
        }
    }
}

/// The cell index of `(x, y)` lies in the grid and gives back `x` and `y`.
pub proof fn lemma_cell_index(w: int, h: int, x: int, y: int)
    requires
        0 <= x < w,
        0 <= y < h,
    ensures
        0 <= y * w + x < w * h,
        (y * w + x) / w == y,
        (y * w + x) % w == x,
{
    assert(0 <= y * w + x < w * h) by (nonlinear_arith)
        requires
            0 <= x < w,
            0 <= y < h,
    ;
    vstd::arithmetic::div_mod::lemma_fundamental_div_mod_converse(y * w + x, w, y, x);
}

/// Every cell index names a point of the grid.
pub proof fn lemma_cell_point(w: int, h: int, i: int)
    requires
        0 <= i < w * h,
        w > 0,
    ensures
        0 <= i % w < w,
        0 <= i / w < h,
        i == (i / w) * w + i % w,
{
    vstd::arithmetic::div_mod::lemma_fundamental_div_mod(i, w);
    vstd::arithmetic::div_mod::lemma_mod_bound(i, w);
    vstd::arithmetic::div_mod::lemma_div_pos_is_pos(i, w);
    assert(i / w < h) by (nonlinear_arith)
        requires
            i == w * (i / w) + i % w,
            0 <= i % w,
            i < w * h,
            w > 0,
    ;
}

/// Turning a quarter turn and then three quarter turns gives back the raster.
pub proof fn lemma_rotate_back(r: Raster)
    requires
        r.valid(),
    ensures
        r.rotated90().rotated270() == r,
{
    let (w, h) = (r.width as int, r.height as int);
    let s = r.rotated90();
    let t = s.rotated270();
    assert(h * w == w * h) by (nonlinear_arith);
    assert forall|j: int| 0 <= j < t.cells.len() implies #[trigger] t.cells[j] == r.cells[j] by {
        assert(w > 0) by (nonlinear_arith)
            requires
                0 <= j < w * h,
                h >= 0,
        ;
        lemma_cell_point(w, h, j);
        let (x, y) = (j % w, j / w);
        lemma_cell_index(h, w, h - 1 - y, x);
        assert(t.cells[j] == s.at(h - 1 - y, x));
        assert(s.cells[x * h + (h - 1 - y)] == r.at(x, y));
    }
    assert(t.cells =~= r.cells);
}

/// A grid of pixels, `width` by `height`, stored row by row.
pub struct PixelBuffer {
    width: u32,
    height: u32,
    pixels: Vec<Pixel>,
}

impl View for PixelBuffer {
    type V = Raster;

    closed spec fn view(&self) -> Raster {
        Raster { width: self.width, height: self.height, cells: self.pixels@ }
    }
}

impl PixelBuffer {
    /// The stored cells fill the grid.
    pub open spec fn wf(&self) -> bool {
        self@.valid()
    }

    /// A `width` by `height` buffer filled with `fill`; `None` when the grid
    /// has more cells than a `usize` counts.
    pub fn new(width: u32, height: u32, fill: Pixel) -> (r: Option<PixelBuffer>)
        ensures
            r is None <==> width * height > usize::MAX,
            r matches Some(b) ==> b.wf() && b@.width == width && b@.height == height
                && b@.cells == Seq::new((width * height) as nat, |i: int| fill),
    {
        match (width as usize).checked_mul(height as usize) {
            None => None,
            Some(n) => {
                let pixels = vec![fill; n];
                let b = PixelBuffer { width, height, pixels };
                assert(b@.cells =~= Seq::new((width * height) as nat, |i: int| fill));
                Some(b)
            },
        }
    }

    /// A buffer over the given cells, row by row; `None` when their number is
    /// not `width * height`.
    pub fn from_pixels(width: u32, height: u32, pixels: Vec<Pixel>) -> (r: Option<PixelBuffer>)
        ensures
            r is None <==> pixels@.len() != width * height,
            r matches Some(b) ==> b.wf() && b@ == (Raster { width, height, cells: pixels@ }),
    {
        let len = pixels.len();
        match (width as usize).checked_mul(height as usize) {
            Some(n) => {
                if n == len {
                    Some(PixelBuffer { width, height, pixels })
                } else {
                    None
                }
            },
            None => None,
        }
    }

    /// Number of columns.
    pub fn width(&self) -> (w: u32)
        ensures
            w == self@.width,
    {
        self.width
    }

    /// Number of rows.
    pub fn height(&self) -> (h: u32)
        ensures
            h == self@.height,
    {
        self.height
    }

    /// A copy of this buffer.
    pub fn duplicate(&self) -> (r: PixelBuffer)
        ensures
            r@ == self@,
    {
        let mut pixels: Vec<Pixel> = Vec::new();
        for i in 0..self.pixels.len()
            invariant
                pixels@ == self.pixels@.take(i as int),
        {
            pixels.push(self.pixels[i]);
            assert(pixels@ =~= self.pixels@.take(i + 1));
        }
        assert(pixels@ =~= self.pixels@);
        PixelBuffer { width: self.width, height: self.height, pixels }
    }

    /// The cells, row by row.
    pub fn into_pixels(self) -> (v: Vec<Pixel>)
        ensures
            v@ == self@.cells,
    {
        self.pixels
    }

    /// Where the pixel at `(x, y)` is stored.
    fn index(&self, x: u32, y: u32) -> (i: usize)
        requires
            self.wf(),
            self@.contains(x as int, y as int),
        ensures
            i == y * self@.width + x,
            i < self.pixels@.len(),
    {
        let len = self.pixels.len();
        proof {
            lemma_cell_index(self.width as int, self.height as int, x as int, y as int);
        }
        (y as usize) * (self.width as usize) + (x as usize)
    }

    /// The pixel at `(x, y)`.
    pub fn get_pixel(&self, x: u32, y: u32) -> (p: Pixel)
        requires
            self.wf(),
            self@.contains(x as int, y as int),
        ensures
            p == self@.at(x as int, y as int),
    {
        let i = self.index(x, y);
        self.pixels[i]
    }

    /// Sets the pixel at `(x, y)`.
    pub fn put_pixel(&mut self, x: u32, y: u32, p: Pixel)
        requires
            old(self).wf(),
            old(self)@.contains(x as int, y as int),
        ensures
            final(self).wf(),
            final(self)@ == old(self)@.put(x as int, y as int, p),
    {
        let i = self.index(x, y);
        self.pixels.set(i, p);
    }

    /// The buffer rotated a quarter turn clockwise.
    pub fn rotate90(&self) -> (r: PixelBuffer)
        requires
            self.wf(),
        ensures
            r.wf(),
            r@ == self@.rotated90(),
    {
        let w = self.width;
        let h = self.height;
        let ghost goal = self@.rotated90();
        let mut cells: Vec<Pixel> = Vec::new();
        assert(0 * h == 0) by (nonlinear_arith);
        for ny in 0..w
            invariant
                self.wf(),
                w == self@.width,
                h == self@.height,
                goal == self@.rotated90(),
                cells@.len() == ny * h,
                forall|i: int| 0 <= i < cells@.len() ==> cells@[i] == goal.cells[i],
        {
            for nx in 0..h
                invariant
                    self.wf(),
                    w == self@.width,
                    h == self@.height,
                    ny < w,
                    goal == self@.rotated90(),
                    cells@.len() == ny * h + nx,
                    forall|i: int| 0 <= i < cells@.len() ==> cells@[i] == goal.cells[i],
            {
                proof {
                    lemma_cell_index(h as int, w as int, nx as int, ny as int);
                    assert(h * w == w * h) by (nonlinear_arith);
                    assert(goal.cells[ny * h + nx] == self@.at(ny as int, h - 1 - nx));
                }
                let p = self.get_pixel(ny, h - 1 - nx);
                cells.push(p);
            }
            assert(cells@.len() == (ny + 1) * h) by (nonlinear_arith)
                requires
                    cells@.len() == ny * h + h,
            ;
        }
        assert(cells@.len() == w * h) by (nonlinear_arith)
            requires
                cells@.len() == w * h,
        ;
        let r = PixelBuffer { width: h, height: w, pixels: cells };
        assert(r@.cells =~= goal.cells);
        assert(h * w == w * h) by (nonlinear_arith);
        r
    }

    /// The buffer rotated three quarter turns clockwise.
    pub fn rotate270(&self) -> (r: PixelBuffer)
        requires
            self.wf(),
        ensures
            r.wf(),
            r@ == self@.rotated270(),
    {
        let w = self.width;
        let h = self.height;
        let ghost goal = self@.rotated270();
        let mut cells: Vec<Pixel> = Vec::new();
        assert(0 * h == 0) by (nonlinear_arith);
        for ny in 0..w
            invariant
                self.wf(),
                w == self@.width,
                h == self@.height,
                goal == self@.rotated270(),
                cells@.len() == ny * h,
                forall|i: int| 0 <= i < cells@.len() ==> cells@[i] == goal.cells[i],
        {
            for nx in 0..h
                invariant
                    self.wf(),
                    w == self@.width,
                    h == self@.height,
                    ny < w,
                    goal == self@.rotated270(),
                    cells@.len() == ny * h + nx,
                    forall|i: int| 0 <= i < cells@.len() ==> cells@[i] == goal.cells[i],
            {
                proof {
                    lemma_cell_index(h as int, w as int, nx as int, ny as int);
                    assert(h * w == w * h) by (nonlinear_arith);
                    assert(goal.cells[ny * h + nx] == self@.at(w - 1 - ny, nx as int));
                }
                let p = self.get_pixel(w - 1 - ny, nx);
                cells.push(p);
            }
            assert(cells@.len() == (ny + 1) * h) by (nonlinear_arith)
                requires
                    cells@.len() == ny * h + h,
            ;
        }
        let r = PixelBuffer { width: h, height: w, pixels: cells };
        assert(r@.cells =~= goal.cells);
        assert(h * w == w * h) by (nonlinear_arith);
        r
    }
}

} // verus!
