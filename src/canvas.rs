use vstd::prelude::*;

use crate::ppm::{header_bytes, pixels_text, ppm_text, push_pixel_line};

verus! {

/// One quantized pixel: three channel values in `0..=255`.
#[derive(Clone, Copy, Debug, PartialEq, Eq, Structural)]
pub struct Pixel {
    pub red: u8,
    pub green: u8,
    pub blue: u8,
}

impl Pixel {
    /// The all-zero pixel.
    pub fn black() -> (r: Pixel)
        ensures
            r == Pixel::zero(),
    {
        Pixel { red: 0, green: 0, blue: 0 }
    }

    pub open spec fn zero() -> Pixel {
        Pixel { red: 0, green: 0, blue: 0 }
    }
}

/// A `W`-by-`H` image, stored row-major, top row first.
pub struct Canvas<const W: usize, const H: usize> {
    pixels: Vec<Pixel>,
}

impl<const W: usize, const H: usize> View for Canvas<W, H> {
    type V = Seq<Pixel>;

    closed spec fn view(&self) -> Seq<Pixel> {
        self.pixels@
    }
}

impl<const W: usize, const H: usize> Canvas<W, H> {
    /// One pixel for each of the `W * H` cells.
    pub open spec fn wf(&self) -> bool {
        &&& W * H <= usize::MAX
        &&& self@.len() == W * H
    }

    /// The pixel at `row`, `col`.
    pub open spec fn at(&self, row: int, col: int) -> Pixel {
        self@[row * W + col]
    }

    /// A canvas whose pixels are all black.
    pub fn new() -> (r: Self)
        requires
            W * H <= usize::MAX,
        ensures
            r.wf(),
            forall|i: int| 0 <= i < r@.len() ==> r@[i] == Pixel::zero(),
    {
        let n: usize = W * H;
        let mut pixels: Vec<Pixel> = Vec::new();
        while pixels.len() < n
            invariant
                pixels.len() <= n,
                forall|i: int| 0 <= i < pixels@.len() ==> pixels@[i] == Pixel::zero(),
            decreases n - pixels.len(),
        {
            pixels.push(Pixel::black());
        }
        Canvas { pixels }
    }

    /// The pixel at `row`, `col`.
    pub fn pixel(&self, row: usize, col: usize) -> (r: Pixel)
        requires
            self.wf(),
            row < H,
            col < W,
        ensures
            r == self.at(row as int, col as int),
    {
        proof {
            lemma_cell_in_grid(row as int, col as int, W as int, H as int);
        }
        self.pixels[row * W + col]
    }

    /// Overwrites the pixel at `row`, `col`; every other pixel keeps its value.
    pub fn put_color(&mut self, row: usize, col: usize, color: Pixel)
        requires
            old(self).wf(),
            row < H,
            col < W,
        ensures
            final(self).wf(),
            final(self).at(row as int, col as int) == color,
            forall|r: int, c: int|
                0 <= r < H && 0 <= c < W && (r != row || c != col) ==> #[trigger] final(self).at(r, c)
                    == old(self).at(r, c),
    {
        proof {
            lemma_cell_in_grid(row as int, col as int, W as int, H as int);
        }
        self.pixels.set(row * W + col, color);
        proof {
            assert forall|r: int, c: int|
                0 <= r < H && 0 <= c < W && (r != row || c != col) implies #[trigger] self.at(r, c)
                    == old(self).at(r, c) by {
                lemma_cell_in_grid(r, c, W as int, H as int);
                lemma_cells_distinct(r, c, row as int, col as int, W as int);
            }
        }
    }

    /// Fills every pixel, row by row from the top, with `f(row, col)`.
    pub fn map_pixels<F: Fn(usize, usize) -> Pixel>(&mut self, f: F)
        requires
            old(self).wf(),
            forall|r: usize, c: usize| r < H && c < W ==> f.requires((r, c)),
        ensures
            final(self).wf(),
            forall|r: usize, c: usize|
                r < H && c < W ==> f.ensures((r, c), #[trigger] final(self).at(r as int, c as int)),
    {
        let mut row: usize = 0;
        while row < H
            invariant
                self.wf(),
                row <= H,
                forall|r: usize, c: usize| r < H && c < W ==> f.requires((r, c)),
                forall|r: usize, c: usize|
                    r < row && c < W ==> f.ensures((r, c), #[trigger] self.at(r as int, c as int)),
            decreases H - row,
        {
            let mut col: usize = 0;
            while col < W
                invariant
                    self.wf(),
                    row < H,
                    col <= W,
                    forall|r: usize, c: usize| r < H && c < W ==> f.requires((r, c)),
                    forall|r: usize, c: usize|
                        (r < row && c < W) || (r == row && c < col) ==> f.ensures(
                            (r, c),
                            #[trigger] self.at(r as int, c as int),
                        ),
                decreases W - col,
            {
                let color = f(row, col);
                self.put_color(row, col, color);
                col += 1;
            }
            row += 1;
        }
    }

    /// The image as a plain-text pixel map: the header, then one line per pixel,
    /// row-major, top row first.
    pub fn serialize(&self) -> (r: Vec<u8>)
        requires
            self.wf(),
        ensures
            r@ == ppm_text(W as nat, H as nat, self@),
    {
        let mut out = header_bytes(W, H);
        let ghost head = out@;
        let mut i: usize = 0;
        while i < self.pixels.len()
            invariant
                i <= self@.len(),
                out@ == head + pixels_text(self@.take(i as int)),
            decreases self@.len() - i,
        {
            proof {
                assert(self@.take(i + 1).drop_last() =~= self@.take(i as int));
            }
            push_pixel_line(&mut out, self.pixels[i]);
            i += 1;
        }
        proof {
            assert(self@.take(i as int) =~= self@);
        }
        out
    }
}

/// A cell of a `w`-by-`h` grid has a row-major index below `w * h`.
proof fn lemma_cell_in_grid(r: int, c: int, w: int, h: int)
    requires
        0 <= r < h,
        0 <= c < w,
    ensures
        0 <= r * w + c < w * h,
{
    assert(r * w + c < w * h) by (nonlinear_arith)
        requires
            0 <= r < h,
            0 <= c < w,
    ;
    assert(0 <= r * w) by (nonlinear_arith)
        requires
            0 <= r,
            0 <= w,
    ;
}

/// Two different cells of a grid `w` wide have different row-major indices.
proof fn lemma_cells_distinct(r1: int, c1: int, r2: int, c2: int, w: int)
    requires
        0 <= r1,
        0 <= r2,
        0 <= c1 < w,
        0 <= c2 < w,
        r1 != r2 || c1 != c2,
    ensures
        r1 * w + c1 != r2 * w + c2,
{
    if r1 == r2 {
    } else if r1 < r2 {
        assert(r1 * w + c1 < r2 * w + c2) by (nonlinear_arith)
            requires
                r1 < r2,
                0 <= c1 < w,
                0 <= c2,
        ;
    } else {
        assert(r2 * w + c2 < r1 * w + c1) by (nonlinear_arith)
            requires
                r2 < r1,
                0 <= c2 < w,
                0 <= c1,
        ;
    }
}

} // verus!
