use vstd::prelude::*;

verus! {

/// An RGB color.
pub type Rgb = (u8, u8, u8);

/// Black, the background of a fresh raster.
pub const BLACK: Rgb = (0, 0, 0);

/// A rectangular grid of RGB pixels, stored row by row.
#[derive(Debug, Clone)]
pub struct Raster {
    pub width: u32,
    pub height: u32,
    pub rows: Vec<Vec<Rgb>>,
}

/// Why a raster could not be copied into another.
#[derive(Debug, Clone, Copy, PartialEq, Eq, Structural)]
pub enum CopyError {
    /// The copied raster does not lie wholly inside the target.
    OutOfBounds,
}

/// Whether `(px, py)` lies in the `w x h` rectangle whose top-left corner is `(x, y)`.
pub open spec fn in_rect(px: int, py: int, x: int, y: int, w: int, h: int) -> bool {
    x <= px < x + w && y <= py < y + h
}

/// Whether `(px, py)` lies in a raster of `w x h` pixels.
pub open spec fn in_size(px: int, py: int, w: int, h: int) -> bool {
    0 <= px < w && 0 <= py < h
}

/// The `i`-th pixel of a row-major list of RGB bytes.
pub open spec fn rgb_at(bytes: Seq<u8>, i: int) -> Rgb {
    (bytes[3 * i], bytes[3 * i + 1], bytes[3 * i + 2])
}

proof fn lemma_row_major_index(x: int, y: int, w: int, h: int)
    requires
        0 <= x < w,
        0 <= y < h,
    ensures
        0 <= y * w + x < h * w,
        3 * (y * w + x) + 2 < 3 * w * h,
{
    assert(0 <= y * w + x < h * w) by (nonlinear_arith)
        requires
            0 <= x < w,
            0 <= y < h,
    ;
    assert(3 * w * h == 3 * (h * w)) by (nonlinear_arith);
}

impl Raster {
    /// There are `height` rows of `width` pixels each.
    pub open spec fn wf(&self) -> bool {
        &&& self.rows.len() == self.height
        &&& forall|y: int| 0 <= y < self.height ==> (#[trigger] self.rows@[y]).len() == self.width
    }

    /// The pixel in column `x` of row `y`.
    pub open spec fn pixel_spec(&self, x: int, y: int) -> Rgb {
        self.rows@[y]@[x]
    }

    /// A raster of `width x height` black pixels.
    pub fn new(width: u32, height: u32) -> (r: Raster)
        ensures
            r.wf(),
            r.width == width,
            r.height == height,
            forall|x: int, y: int| in_size(x, y, width as int, height as int)
                ==> #[trigger] r.pixel_spec(x, y) == BLACK,
    {
        let mut rows: Vec<Vec<Rgb>> = Vec::new();
        let mut y: u32 = 0;
        while y < height
            invariant
                y <= height,
                rows.len() == y,
                forall|j: int| 0 <= j < y ==> (#[trigger] rows@[j]).len() == width,
                forall|i: int, j: int|
                    0 <= j < y && 0 <= i < width ==> #[trigger] rows@[j]@[i] == BLACK,
            decreases height - y,
        {
            let mut row: Vec<Rgb> = Vec::new();
            let mut x: u32 = 0;
            while x < width
                invariant
                    x <= width,
                    row.len() == x,
                    forall|i: int| 0 <= i < x ==> #[trigger] row@[i] == BLACK,
                decreases width - x,
            {
                row.push(BLACK);
                x = x + 1;
            }
            rows.push(row);
            y = y + 1;
        }
        Raster { width, height, rows }
    }

    /// The raster whose pixels are the row-major RGB triples of `bytes`, or `None`
    /// where `bytes` does not hold exactly `width x height` pixels.
    pub fn from_rgb_bytes(width: u32, height: u32, bytes: &Vec<u8>) -> (r: Option<Raster>)
        ensures
            r is Some <==> bytes.len() == 3 * (width as int) * (height as int),
            r matches Some(img) ==> {
                &&& img.wf()
                &&& img.width == width
                &&& img.height == height
                &&& forall|x: int, y: int| in_size(x, y, width as int, height as int)
                    ==> #[trigger] img.pixel_spec(x, y) == rgb_at(bytes@, y * width + x)
            },
    {
        let len = bytes.len() as u128;
        assert(3 * (width as u128) * (height as u128) <= 3 * (u32::MAX as int) * (u32::MAX as int))
            by (nonlinear_arith)
            requires
                width <= u32::MAX,
                height <= u32::MAX,
        ;
        if len != 3 * (width as u128) * (height as u128) {
            return None;
        }
        let mut rows: Vec<Vec<Rgb>> = Vec::new();
        let mut y: u32 = 0;
        let mut k: usize = 0;
        while y < height
            invariant
                y <= height,
                bytes.len() == 3 * (width as int) * (height as int),
                k == 3 * (y * width),
                rows.len() == y,
                forall|j: int| 0 <= j < y ==> (#[trigger] rows@[j]).len() == width,
                forall|i: int, j: int|
                    0 <= j < y && 0 <= i < width ==> #[trigger] rows@[j]@[i] == rgb_at(
                        bytes@,
                        j * width + i,
                    ),
            decreases height - y,
        {
            let mut row: Vec<Rgb> = Vec::new();
            let mut x: u32 = 0;
            while x < width
                invariant
                    x <= width,
                    y < height,
                    bytes.len() == 3 * (width as int) * (height as int),
                    k == 3 * (y * width + x),
                    row.len() == x,
                    forall|i: int| 0 <= i < x ==> #[trigger] row@[i] == rgb_at(bytes@, y * width + i),
                decreases width - x,
            {
                proof {
                    lemma_row_major_index(x as int, y as int, width as int, height as int);
                }
                row.push((bytes[k], bytes[k + 1], bytes[k + 2]));
                k = k + 3;
                x = x + 1;
            }
            rows.push(row);
            proof {
                assert(3 * (y * width + width) == 3 * ((y + 1) * width)) by (nonlinear_arith);
            }
            y = y + 1;
        }
        Some(Raster { width, height, rows })
    }

    /// Paints the pixels of the `w x h` rectangle at `(x, y)` that lie in the raster
    /// with `color`; the rest of the rectangle is clipped away.
    pub fn fill_rect(&mut self, x: i32, y: i32, w: u32, h: u32, color: Rgb)
        requires
            old(self).wf(),
        ensures
            final(self).wf(),
            final(self).width == old(self).width,
            final(self).height == old(self).height,
            forall|px: int, py: int|
                in_size(px, py, old(self).width as int, old(self).height as int)
                    ==> #[trigger] final(self).pixel_spec(px, py) == if in_rect(
                    px,
                    py,
                    x as int,
                    y as int,
                    w as int,
                    h as int,
                ) {
                    color
                } else {
                    old(self).pixel_spec(px, py)
                },
    {
        let (x0, y0, x1, y1) = (x as i64, y as i64, x as i64 + w as i64, y as i64 + h as i64);
        let mut py: u32 = 0;
        while py < self.height
            invariant
                self.wf(),
                self.width == old(self).width,
                self.height == old(self).height,
                py <= self.height,
                x0 == x && y0 == y && x1 == x + w && y1 == y + h,
                forall|i: int, j: int|
                    in_size(i, j, self.width as int, self.height as int) ==> #[trigger] self.pixel_spec(
                        i,
                        j,
                    ) == if j < py && in_rect(i, j, x as int, y as int, w as int, h as int) {
                        color
                    } else {
                        old(self).pixel_spec(i, j)
                    },
            decreases self.height - py,
        {
            if y0 <= py as i64 && (py as i64) < y1 {
                let ghost before = *self;
                let mut row: Vec<Rgb> = Vec::new();
                let mut px: u32 = 0;
                while px < self.width
                    invariant
                        self.wf(),
                        py < self.height,
                        px <= self.width,
                        row.len() == px,
                        forall|i: int|
                            0 <= i < px ==> #[trigger] row@[i] == if x0 <= i < x1 {
                                color
                            } else {
                                self.pixel_spec(i, py as int)
                            },
                    decreases self.width - px,
                {
                    if x0 <= px as i64 && (px as i64) < x1 {
                        row.push(color);
                    } else {
                        row.push(self.rows[py as usize][px as usize]);
                    }
                    px = px + 1;
                }
                self.rows.set(py as usize, row);
                assert forall|i: int, j: int|
                    in_size(i, j, self.width as int, self.height as int) implies (
                    #[trigger] self.pixel_spec(i, j) == if j < py + 1 && in_rect(i, j, x as int, y as int, w as int, h as int) {
                        color
                    } else {
                        old(self).pixel_spec(i, j)
                    }) by {
                    if j != py {
                        assert(self.pixel_spec(i, j) == before.pixel_spec(i, j));
                    }
                }
            }
            py = py + 1;
        }
    }

    /// Whether `other` placed with its top-left corner at `(x, y)` lies wholly in the raster.
    pub open spec fn fits_at(&self, other: &Raster, x: int, y: int) -> bool {
        other.width + x <= self.width && other.height + y <= self.height
    }

    /// Copies `other` into the raster with its top-left corner at `(x, y)`.
    /// Where it does not lie wholly in the raster nothing is written.
    pub fn copy_from(&mut self, other: &Raster, x: u32, y: u32) -> (r: Result<(), CopyError>)
        requires
            old(self).wf(),
            other.wf(),
        ensures
            r is Ok <==> old(self).fits_at(other, x as int, y as int),
            r is Err ==> *final(self) == *old(self),
            final(self).wf(),
            final(self).width == old(self).width,
            final(self).height == old(self).height,
            forall|px: int, py: int|
                in_size(px, py, old(self).width as int, old(self).height as int)
                    ==> #[trigger] final(self).pixel_spec(px, py) == if r is Ok && in_rect(
                    px,
                    py,
                    x as int,
                    y as int,
                    other.width as int,
                    other.height as int,
                ) {
                    other.pixel_spec(px - x, py - y)
                } else {
                    old(self).pixel_spec(px, py)
                },
    {
        if other.width as u64 + x as u64 > self.width as u64 || other.height as u64 + y as u64
            > self.height as u64 {
            return Err(CopyError::OutOfBounds);
        }
        let x1 = x + other.width;
        let y1 = y + other.height;
        let mut py: u32 = y;
        while py < y1
            invariant
                self.wf(),
                other.wf(),
                self.width == old(self).width,
                self.height == old(self).height,
                old(self).fits_at(other, x as int, y as int),
                x1 == x + other.width,
                y1 == y + other.height,
                y <= py <= y1,
                forall|i: int, j: int|
                    in_size(i, j, self.width as int, self.height as int) ==> #[trigger] self.pixel_spec(
                        i,
                        j,
                    ) == if j < py && in_rect(i, j, x as int, y as int, other.width as int, other.height as int) {
                        other.pixel_spec(i - x, j - y)
                    } else {
                        old(self).pixel_spec(i, j)
                    },
            decreases y1 - py,
        {
            let ghost before = *self;
            let mut row: Vec<Rgb> = Vec::new();
            let mut px: u32 = 0;
            while px < self.width
                invariant
                    self.wf(),
                    other.wf(),
                    y <= py < y1,
                    y1 == y + other.height,
                    x1 == x + other.width,
                    x1 <= self.width,
                    y1 <= self.height,
                    px <= self.width,
                    row.len() == px,
                    forall|i: int|
                        0 <= i < px ==> #[trigger] row@[i] == if x <= i < x1 {
                            other.pixel_spec(i - x, py - y)
                        } else {
                            self.pixel_spec(i, py as int)
                        },
                decreases self.width - px,
            {
                if x <= px && px < x1 {
                    row.push(other.rows[(py - y) as usize][(px - x) as usize]);
                } else {
                    row.push(self.rows[py as usize][px as usize]);
                }
                px = px + 1;
            }
            self.rows.set(py as usize, row);
            assert forall|i: int, j: int|
                in_size(i, j, self.width as int, self.height as int) implies (
                #[trigger] self.pixel_spec(i, j) == if j < py + 1 && in_rect(i, j, x as int, y as int, other.width as int, other.height as int) {
                    other.pixel_spec(i - x, j - y)
                } else {
                    old(self).pixel_spec(i, j)
                }) by {
                if j != py {
                    assert(self.pixel_spec(i, j) == before.pixel_spec(i, j));
                }
            }
            py = py + 1;
        }
        Ok(())
    }

    /// The pixels as row-major RGB triples.
    pub fn to_rgb_bytes(&self) -> (r: Vec<u8>)
        requires
            self.wf(),
        ensures
            r.len() == 3 * (self.width as int) * (self.height as int),
            forall|x: int, y: int| in_size(x, y, self.width as int, self.height as int)
                ==> #[trigger] rgb_at(r@, y * self.width + x) == self.pixel_spec(x, y),
    {
        let w = self.width;
        let mut r: Vec<u8> = Vec::new();
        let mut y: u32 = 0;
        while y < self.height
            invariant
                self.wf(),
                w == self.width,
                y <= self.height,
                r.len() == 3 * (y * w),
                forall|i: int, j: int| in_size(i, j, w as int, y as int)
                    ==> #[trigger] rgb_at(r@, j * w + i) == self.pixel_spec(i, j),
            decreases self.height - y,
        {
            let mut x: u32 = 0;
            while x < w
                invariant
                    self.wf(),
                    w == self.width,
                    y < self.height,
                    x <= w,
                    r.len() == 3 * (y * w + x),
                    forall|i: int, j: int| in_size(i, j, w as int, y as int)
                        ==> #[trigger] rgb_at(r@, j * w + i) == self.pixel_spec(i, j),
                    forall|i: int| 0 <= i < x
                        ==> #[trigger] rgb_at(r@, y * w + i) == self.pixel_spec(i, y as int),
                decreases w - x,
            {
                let p = self.rows[y as usize][x as usize];
                let ghost prev = r@;
                r.push(p.0);
                r.push(p.1);
                r.push(p.2);
                proof {
                    assert forall|i: int, j: int| in_size(i, j, w as int, y as int)
                        implies #[trigger] rgb_at(r@, j * w + i) == self.pixel_spec(i, j) by {
                        lemma_row_major_index(i, j, w as int, y as int);
                        assert(rgb_at(prev, j * w + i) == self.pixel_spec(i, j));
                        assert(j * w + i < y * w) by (nonlinear_arith)
                            requires 0 <= i < w, 0 <= j < y;
                    }
                    assert forall|i: int| 0 <= i < x + 1
                        implies #[trigger] rgb_at(r@, y * w + i) == self.pixel_spec(i, y as int) by {
                        if i < x {
                            assert(rgb_at(prev, y * w + i) == self.pixel_spec(i, y as int));
                        }
                    }
                }
                x = x + 1;
            }
            proof {
                assert forall|i: int, j: int| in_size(i, j, w as int, y + 1)
                    implies #[trigger] rgb_at(r@, j * w + i) == self.pixel_spec(i, j) by {
                    if j == y {
                        assert(rgb_at(r@, y * w + i) == self.pixel_spec(i, y as int));
                    }
                }
                assert(3 * (y * w + w) == 3 * ((y + 1) * w)) by (nonlinear_arith);
            }
            y = y + 1;
        }
        proof {
            assert(3 * (self.height * w) == 3 * (w as int) * (self.height as int)) by (nonlinear_arith);
        }
        r
    }

    /// The pixel in column `x` of row `y`.
    pub fn pixel(&self, x: u32, y: u32) -> (r: Rgb)
        requires
            self.wf(),
            x < self.width,
            y < self.height,
        ensures
            r == self.pixel_spec(x as int, y as int),
    {
        self.rows[y as usize][x as usize]
    }
}

} // verus!
