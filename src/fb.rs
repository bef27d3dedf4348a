use vstd::prelude::*;

verus! {

/// Position of pixel `(x, y)` in a row-major grid `w` pixels wide.
pub open spec fn cell_index(x: int, y: int, w: int) -> int {
    y * w + x
}

/// A cell of one of the first `rows` rows lies before the end of those rows.
proof fn lemma_cell_in_rows(x: int, y: int, w: int, rows: int)
    requires
        0 <= x < w,
        0 <= y < rows,
    ensures
        0 <= cell_index(x, y, w) < rows * w,
{
    assert(0 <= y * w + x < rows * w) by (nonlinear_arith)
        requires
            0 <= x < w,
            0 <= y < rows,
    ;
}

/// Number of cells of a `width` by `height` grid.
fn cell_count(width: u16, height: u16) -> (r: usize)
    ensures
        r == width as int * height as int,
{
    assert(width as int * height as int <= 65535 * 65535) by (nonlinear_arith)
        requires
            width <= 65535,
            height <= 65535,
    ;
    width as usize * height as usize
}

/// Row-major index of `(x, y)` in a grid `width` pixels wide.
fn pack(x: u16, y: u16, width: u16) -> (r: usize)
    requires
        x < width,
    ensures
        r == cell_index(x as int, y as int, width as int),
{
    assert(y as int * width as int + x as int <= 65535 * 65535 + 65535) by (nonlinear_arith)
        requires
            y <= 65535,
            width <= 65535,
            x <= 65535,
    ;
    (y as usize * width as usize) + x as usize
}

/// Pixels laid out as bytes, three per pixel in channel order.
pub open spec fn byte_seq(px: Seq<[u8; 3]>) -> Seq<u8> {
    Seq::new(3 * px.len(), |k: int| px[k / 3][k % 3])
}

/// A fixed-size grid of pixels of type `P`, stored row by row from the top.
pub struct Fb<P> {
    width: u16,
    height: u16,
    data: Vec<P>,
}

impl<P> Fb<P> {
    /// Width in pixels.
    pub closed spec fn spec_width(&self) -> nat {
        self.width as nat
    }

    /// Height in pixels.
    pub closed spec fn spec_height(&self) -> nat {
        self.height as nat
    }

    /// All pixels in row-major order, rows top to bottom.
    pub closed spec fn pixels(&self) -> Seq<P> {
        self.data@
    }

    /// One pixel per grid cell.
    pub open spec fn wf(&self) -> bool {
        self.pixels().len() == self.spec_width() * self.spec_height()
    }

    /// The pixel at column `x`, row `y`.
    pub open spec fn pixel(&self, x: int, y: int) -> P {
        self.pixels()[cell_index(x, y, self.spec_width() as int)]
    }

    /// Width in pixels.
    pub fn width(&self) -> (r: u16)
        ensures
            r == self.spec_width(),
    {
        self.width
    }

    /// Height in pixels.
    pub fn height(&self) -> (r: u16)
        ensures
            r == self.spec_height(),
    {
        self.height
    }
    /// Evaluates `func` once for each pixel, rows top to bottom and each row
    /// left to right, and stores each result at its pixel.
    pub fn from_func<F: Fn(u16, u16) -> P>(width: u16, height: u16, func: F) -> (r: Self)
        requires
            forall|x: u16, y: u16| x < width && y < height ==> func.requires((x, y)),
        ensures
            r.wf(),
            r.spec_width() == width,
            r.spec_height() == height,
            forall|x: u16, y: u16|
                x < width && y < height ==> func.ensures((x, y), #[trigger] r.pixel(x as int, y as int)),
    {
        let mut data: Vec<P> = Vec::new();
        let mut y: u16 = 0;
        while y < height
            invariant
                y <= height,
                data@.len() == y as int * width as int,
                forall|x: u16, y: u16| x < width && y < height ==> func.requires((x, y)),
                forall|px: u16, py: u16|
                    px < width && py < y ==> func.ensures(
                        (px, py),
                        #[trigger] data@[cell_index(px as int, py as int, width as int)],
                    ),
            decreases height - y,
        {
            let mut x: u16 = 0;
            while x < width
                invariant
                    y < height,
                    x <= width,
                    data@.len() == y as int * width as int + x as int,
                    forall|x: u16, y: u16| x < width && y < height ==> func.requires((x, y)),
                    forall|px: u16, py: u16|
                        px < width && py < y ==> func.ensures(
                            (px, py),
                            #[trigger] data@[cell_index(px as int, py as int, width as int)],
                        ),
                    forall|px: u16|
                        px < x ==> func.ensures(
                            (px, y),
                            #[trigger] data@[cell_index(px as int, y as int, width as int)],
                        ),
                decreases width - x,
            {
                let c = func(x, y);
                let ghost prev = data@;
                data.push(c);
                proof {
                    assert(prev.len() == cell_index(x as int, y as int, width as int));
                    assert forall|px: u16, py: u16|
                        px < width && py < y implies func.ensures(
                            (px, py),
                            #[trigger] data@[cell_index(px as int, py as int, width as int)],
                        ) by {
                        lemma_cell_in_rows(px as int, py as int, width as int, y as int);
                        assert(data@[cell_index(px as int, py as int, width as int)]
                            == prev[cell_index(px as int, py as int, width as int)]);
                    }
                    assert forall|px: u16|
                        px < x + 1 implies func.ensures(
                            (px, y),
                            #[trigger] data@[cell_index(px as int, y as int, width as int)],
                        ) by {
                        if px < x {
                            assert(data@[cell_index(px as int, y as int, width as int)]
                                == prev[cell_index(px as int, y as int, width as int)]);
                        }
                    }
                }
                x += 1;
            }
            proof {
                assert((y + 1) as int * width as int == y as int * width as int + width as int)
                    by (nonlinear_arith);
                assert forall|px: u16, py: u16|
                    px < width && py < y + 1 implies func.ensures(
                        (px, py),
                        #[trigger] data@[cell_index(px as int, py as int, width as int)],
                    ) by {
                    if py < y {
                    } else {
                        assert(py == y);
                    }
                }
            }
            y += 1;
        }
        assert(height as int * width as int == width as int * height as int) by (nonlinear_arith);
        Fb { width, height, data }
    }

    /// A grid over pixels already laid out row by row from the top; `None`
    /// when `data` does not hold exactly one pixel per cell.
    pub fn from_pixels(width: u16, height: u16, data: Vec<P>) -> (r: Option<Self>)
        ensures
            r is Some <==> data@.len() == width as int * height as int,
            r matches Some(fb) ==> fb.wf() && fb.spec_width() == width && fb.spec_height()
                == height && fb.pixels() == data@,
    {
        if data.len() == cell_count(width, height) {
            Some(Fb { width, height, data })
        } else {
            None
        }
    }

}

impl<P: Copy> Fb<P> {
    /// A `width` by `height` grid with every pixel set to `fill`.
    pub fn new_empty(width: u16, height: u16, fill: P) -> (r: Self)
        ensures
            r.wf(),
            r.spec_width() == width,
            r.spec_height() == height,
            forall|i: int| 0 <= i < r.pixels().len() ==> r.pixels()[i] == fill,
            forall|x: int, y: int| 0 <= x < width && 0 <= y < height ==> #[trigger] r.pixel(x, y) == fill,
    {
        let n: usize = cell_count(width, height);
        let mut data: Vec<P> = Vec::new();
        let mut i: usize = 0;
        while i < n
            invariant
                i <= n,
                data@.len() == i,
                forall|j: int| 0 <= j < i ==> data@[j] == fill,
            decreases n - i,
        {
            data.push(fill);
            i += 1;
        }
        let r = Fb { width, height, data };
        proof {
            assert forall|x: int, y: int| 0 <= x < width && 0 <= y < height implies #[trigger] r.pixel(x, y)
                == fill by {
                lemma_cell_in_rows(x, y, width as int, height as int);
                assert(height as int * width as int == width as int * height as int) by (nonlinear_arith);
            }
        }
        r
    }

    /// The pixel at column `x`, row `y`.
    pub fn get(&self, x: u16, y: u16) -> (r: P)
        requires
            self.wf(),
            x < self.spec_width(),
            y < self.spec_height(),
        ensures
            r == self.pixel(x as int, y as int),
    {
        let i = pack(x, y, self.width);
        proof {
            assert((y as int * self.width as int + x as int) < self.width as int * self.height as int)
                by (nonlinear_arith)
                requires
                    x < self.width,
                    y < self.height,
            ;
        }
        self.data[i]
    }

    /// The grid with `func` applied to every pixel.
    pub fn map<Q, F: Fn(P) -> Q>(&self, func: F) -> (r: Fb<Q>)
        requires
            self.wf(),
            forall|i: int| 0 <= i < self.pixels().len() ==> func.requires((self.pixels()[i],)),
        ensures
            r.wf(),
            r.spec_width() == self.spec_width(),
            r.spec_height() == self.spec_height(),
            forall|i: int|
                0 <= i < self.pixels().len() ==> func.ensures(
                    (self.pixels()[i],),
                    #[trigger] r.pixels()[i],
                ),
    {
        let mut data: Vec<Q> = Vec::new();
        let mut i: usize = 0;
        while i < self.data.len()
            invariant
                i <= self.data@.len(),
                data@.len() == i,
                forall|k: int| 0 <= k < self.pixels().len() ==> func.requires((self.pixels()[k],)),
                forall|k: int| 0 <= k < i ==> func.ensures((self.data@[k],), #[trigger] data@[k]),
            decreases self.data@.len() - i,
        {
            let px = self.data[i];
            assert(px == self.pixels()[i as int]);
            let c = func(px);
            data.push(c);
            i += 1;
        }
        Fb { width: self.width, height: self.height, data }
    }

    /// Box filter by two in each direction: pixel `(x, y)` of the result is
    /// `func` of the four pixels `(2x, 2y)`, `(2x, 2y + 1)`, `(2x + 1, 2y)`
    /// and `(2x + 1, 2y + 1)`, in that order. An odd last row or column is
    /// left out.
    pub fn downsample<Q, F: Fn(P, P, P, P) -> Q>(&self, func: F) -> (r: Fb<Q>)
        requires
            self.wf(),
            forall|a: P, b: P, c: P, d: P| func.requires((a, b, c, d)),
        ensures
            r.wf(),
            r.spec_width() == self.spec_width() / 2,
            r.spec_height() == self.spec_height() / 2,
            forall|x: int, y: int|
                0 <= x < r.spec_width() && 0 <= y < r.spec_height() ==> func.ensures(
                    (
                        self.pixel(2 * x, 2 * y),
                        self.pixel(2 * x, 2 * y + 1),
                        self.pixel(2 * x + 1, 2 * y),
                        self.pixel(2 * x + 1, 2 * y + 1),
                    ),
                    #[trigger] r.pixel(x, y),
                ),
    {
        let width = self.width / 2;
        let height = self.height / 2;
        let f = &func;
        let sample = |x: u16, y: u16| -> (c: Q)
            requires
                x < width,
                y < height,
            ensures
                f.ensures(
                    (
                        self.pixel(2 * x, 2 * y),
                        self.pixel(2 * x, 2 * y + 1),
                        self.pixel(2 * x + 1, 2 * y),
                        self.pixel(2 * x + 1, 2 * y + 1),
                    ),
                    c,
                ),
            {
                let (sx, sy) = (x * 2, y * 2);
                f(self.get(sx, sy), self.get(sx, sy + 1), self.get(sx + 1, sy), self.get(sx + 1, sy + 1))
            };
        let r = Fb::from_func(width, height, sample);
        proof {
            assert forall|x: int, y: int|
                0 <= x < r.spec_width() && 0 <= y < r.spec_height() implies func.ensures(
                    (
                        self.pixel(2 * x, 2 * y),
                        self.pixel(2 * x, 2 * y + 1),
                        self.pixel(2 * x + 1, 2 * y),
                        self.pixel(2 * x + 1, 2 * y + 1),
                    ),
                    #[trigger] r.pixel(x, y),
                ) by {
                assert(sample.ensures((x as u16, y as u16), r.pixel(x as u16 as int, y as u16 as int)));
            }
        }
        r
    }
}

/// Laying pixels out is deterministic: two grids of one size whose every
/// pixel is a result of the same deterministic per-pixel function hold the
/// same pixels, however and in whatever order they were computed, and so
/// the same bytes.
pub proof fn lemma_layout_deterministic<P, F: Fn(u16, u16) -> P>(func: F, a: Fb<P>, b: Fb<P>)
    requires
        a.wf(),
        b.wf(),
        a.spec_width() == b.spec_width(),
        a.spec_height() == b.spec_height(),
        forall|x: u16, y: u16, p: P, q: P|
            func.ensures((x, y), p) && func.ensures((x, y), q) ==> p == q,
        forall|x: u16, y: u16|
            x < a.spec_width() && y < a.spec_height() ==> func.ensures((x, y), #[trigger] a.pixel(x as int, y as int)),
        forall|x: u16, y: u16|
            x < b.spec_width() && y < b.spec_height() ==> func.ensures((x, y), #[trigger] b.pixel(x as int, y as int)),
    ensures
        a.pixels() == b.pixels(),
{
    let w = a.width as int;
    assert forall|i: int| 0 <= i < a.pixels().len() implies a.pixels()[i] == b.pixels()[i] by {
        assert(w > 0) by (nonlinear_arith)
            requires
                0 <= i < w * a.height as int,
        ;
        let (x, y) = (i % w, i / w);
        assert(0 <= x < w && y * w + x == i) by (nonlinear_arith)
            requires
                w > 0,
                x == i % w,
                y == i / w,
                0 <= i,
        ;
        assert(0 <= y < a.height) by (nonlinear_arith)
            requires
                0 <= x < w,
                y * w + x == i,
                0 <= i < w * a.height as int,
        ;
        assert(func.ensures((x as u16, y as u16), a.pixel(x as u16 as int, y as u16 as int)));
        assert(func.ensures((x as u16, y as u16), b.pixel(x as u16 as int, y as u16 as int)));
    }
    assert(a.pixels() =~= b.pixels());
}

impl Fb<[u8; 3]> {
    /// The pixels as bytes: row-major, rows top to bottom, three bytes
    /// (red, green, blue) per pixel.
    pub fn to_bytes(&self) -> (r: Vec<u8>)
        ensures
            r@ == byte_seq(self.pixels()),
            self.wf() ==> r@.len() == 3 * self.spec_width() * self.spec_height(),
            forall|x: int, y: int, c: int|
                0 <= x < self.spec_width() && 0 <= y < self.spec_height() && 0 <= c < 3 && self.wf()
                    ==> r@[3 * cell_index(x, y, self.spec_width() as int) + c] == #[trigger] self.pixel(
                    x,
                    y,
                )[c],
    {
        let mut out: Vec<u8> = Vec::new();
        let mut i: usize = 0;
        while i < self.data.len()
            invariant
                i <= self.data@.len(),
                out@.len() == 3 * i,
                forall|k: int, c: int|
                    0 <= k < i && 0 <= c < 3 ==> out@[3 * k + c] == #[trigger] self.data@[k][c],
            decreases self.data@.len() - i,
        {
            let px = self.data[i];
            out.push(px[0]);
            out.push(px[1]);
            out.push(px[2]);
            i += 1;
        }
        assert forall|k: int| 0 <= k < out@.len() implies out@[k] == byte_seq(self.pixels())[k] by {
            let (q, c) = (k / 3, k % 3);
            assert(k == 3 * q + c);
            assert(out@[3 * q + c] == self.data@[q][c]);
        }
        assert(out@ =~= byte_seq(self.pixels()));
        proof {
            let (w, h) = (self.spec_width() as int, self.spec_height() as int);
            assert(3 * (w * h) == 3 * w * h) by (nonlinear_arith);
            assert(h * w == w * h) by (nonlinear_arith);
            assert forall|x: int, y: int, c: int|
                0 <= x < self.spec_width() && 0 <= y < self.spec_height() && 0 <= c < 3 && self.wf()
                    implies out@[3 * cell_index(x, y, self.spec_width() as int) + c]
                    == #[trigger] self.pixel(x, y)[c] by {
                lemma_cell_in_rows(x, y, self.spec_width() as int, self.spec_height() as int);
                let i = cell_index(x, y, self.spec_width() as int);
                assert(byte_seq(self.pixels())[3 * i + c] == self.pixels()[(3 * i + c) / 3][(3 * i + c) % 3]);
                assert(out@[3 * cell_index(x, y, self.spec_width() as int) + c]
                    == self.data@[cell_index(x, y, self.spec_width() as int)][c]);
            }
        }
        out
    }
}

} // verus!
