use vstd::prelude::*;

verus! {

/// One RGBA pixel, eight bits a channel.
#[derive(Debug, Clone, Copy, PartialEq, Eq, Structural)]
pub struct Pixel {
    pub r: u8,
    pub g: u8,
    pub b: u8,
    pub a: u8,
}

/// An RGBA raster stored row by row: `rows[y][x]` is the pixel at `(x, y)`.
#[derive(Debug)]
pub struct Raster {
    pub width: u32,
    pub height: u32,
    pub rows: Vec<Vec<Pixel>>,
}

/// True when the rectangle at `(x, y)` of size `rw` by `rh` lies inside a
/// `w` by `h` image.
pub open spec fn rect_inside(w: int, h: int, x: int, y: int, rw: int, rh: int) -> bool {
    x + rw <= w && y + rh <= h
}

impl Raster {
    /// Every row holds `width` pixels and there are `height` rows.
    pub open spec fn wf(&self) -> bool {
        &&& self.rows@.len() == self.height as int
        &&& forall|y: int| 0 <= y < self.height ==> #[trigger] self.rows@[y]@.len() == self.width as int
    }

    /// The pixel at `(x, y)`.
    pub open spec fn at(&self, x: int, y: int) -> Pixel {
        self.rows@[y]@[x]
    }

    /// True when `self` is a `w` by `h` raster.
    pub open spec fn has_dims(&self, w: int, h: int) -> bool {
        self.wf() && self.width == w && self.height == h
    }

    /// The pixel that a copy of the `w` by `h` rectangle of `src` at
    /// `(sx, sy)` to `(dx, dy)` of `dst` leaves at `(x, y)` of `dst`.
    pub open spec fn copied_at(
        dst: Raster,
        src: Raster,
        sx: int,
        sy: int,
        w: int,
        h: int,
        dx: int,
        dy: int,
        x: int,
        y: int,
    ) -> Pixel {
        if dx <= x < dx + w && dy <= y < dy + h {
            src.at(sx + x - dx, sy + y - dy)
        } else {
            dst.at(x, y)
        }
    }

    /// Whether every row holds `width` pixels and there are `height` rows.
    pub fn is_wf(&self) -> (r: bool)
        ensures
            r == self.wf(),
    {
        if self.rows.len() != self.height as usize {
            return false;
        }
        let mut y: usize = 0;
        while y < self.rows.len()
            invariant
                y <= self.rows@.len(),
                self.rows@.len() == self.height,
                forall|j: int| 0 <= j < y ==> #[trigger] self.rows@[j]@.len() == self.width as int,
            decreases self.rows@.len() - y,
        {
            if self.rows[y].len() != self.width as usize {
                return false;
            }
            y = y + 1;
        }
        true
    }

    /// A `width` by `height` raster where every pixel is `p`.
    pub fn filled(width: u32, height: u32, p: Pixel) -> (r: Raster)
        ensures
            r.has_dims(width as int, height as int),
            forall|x: int, y: int| 0 <= x < width && 0 <= y < height ==> #[trigger] r.at(x, y) == p,
    {
        let mut rows: Vec<Vec<Pixel>> = Vec::new();
        let mut y: u32 = 0;
        while y < height
            invariant
                y <= height,
                rows@.len() == y as int,
                forall|j: int| 0 <= j < y ==> #[trigger] rows@[j]@.len() == width as int,
                forall|i: int, j: int|
                    0 <= j < y && 0 <= i < width ==> #[trigger] rows@[j]@[i] == p,
            decreases height - y,
        {
            let mut row: Vec<Pixel> = Vec::new();
            let mut x: u32 = 0;
            while x < width
                invariant
                    x <= width,
                    row@.len() == x as int,
                    forall|i: int| 0 <= i < x ==> #[trigger] row@[i] == p,
                decreases width - x,
            {
                row.push(p);
                x = x + 1;
            }
            rows.push(row);
            y = y + 1;
        }
        Raster { width, height, rows }
    }

    /// The pixel at `(x, y)`.
    pub fn pixel(&self, x: u32, y: u32) -> (r: Pixel)
        requires
            self.wf(),
            x < self.width,
            y < self.height,
        ensures
            r == self.at(x as int, y as int),
    {
        self.rows[y as usize][x as usize]
    }

    /// Copies the `w` by `h` rectangle of `src` at `(sx, sy)` into `self` at
    /// `(dx, dy)`. Returns false, leaving `self` as it was, when either
    /// rectangle does not lie inside its image.
    pub fn copy_from(
        &mut self,
        src: &Raster,
        sx: u32,
        sy: u32,
        w: u32,
        h: u32,
        dx: u32,
        dy: u32,
    ) -> (r: bool)
        requires
            old(self).wf(),
            src.wf(),
        ensures
            r == (rect_inside(src.width as int, src.height as int, sx as int, sy as int, w as int, h as int)
                && rect_inside(old(self).width as int, old(self).height as int, dx as int, dy as int, w as int, h as int)),
            final(self).width == old(self).width,
            final(self).height == old(self).height,
            final(self).wf(),
            forall|x: int, y: int|
                0 <= x < final(self).width && 0 <= y < final(self).height ==> #[trigger] final(self).at(x, y)
                    == if r {
                    Raster::copied_at(*old(self), *src, sx as int, sy as int, w as int, h as int, dx as int, dy as int, x, y)
                } else {
                    old(self).at(x, y)
                },
    {
        if (sx as u64) + (w as u64) > src.width as u64 || (sy as u64) + (h as u64) > src.height as u64
            || (dx as u64) + (w as u64) > self.width as u64 || (dy as u64) + (h as u64)
            > self.height as u64 {
            return false;
        }
        let ghost orig = *self;
        let mut j: u32 = 0;
        while j < h
            invariant
                orig == *old(self),
                orig.wf(),
                src.wf(),
                j <= h,
                sx + w <= src.width,
                sy + h <= src.height,
                dx + w <= orig.width,
                dy + h <= orig.height,
                self.width == orig.width,
                self.height == orig.height,
                self.wf(),
                forall|x: int, y: int|
                    0 <= x < self.width && 0 <= y < self.height ==> #[trigger] self.at(x, y)
                        == Raster::copied_at(orig, *src, sx as int, sy as int, w as int, j as int, dx as int, dy as int, x, y),
            decreases h - j,
        {
            let y = dy + j;
            let mut row: Vec<Pixel> = Vec::new();
            let mut x: u32 = 0;
            while x < self.width
                invariant
                    orig.wf(),
                    src.wf(),
                    self.wf(),
                    self.width == orig.width,
                    self.height == orig.height,
                    y == dy + j,
                    j < h,
                    y < self.height,
                    sx + w <= src.width,
                    sy + h <= src.height,
                    dx + w <= orig.width,
                    x <= self.width,
                    row@.len() == x as int,
                    forall|i: int| 0 <= i < x ==> #[trigger] row@[i]
                        == Raster::copied_at(orig, *src, sx as int, sy as int, w as int, j as int + 1, dx as int, dy as int, i, y as int),
                    forall|x: int, y: int|
                        0 <= x < self.width && 0 <= y < self.height ==> #[trigger] self.at(x, y)
                            == Raster::copied_at(orig, *src, sx as int, sy as int, w as int, j as int, dx as int, dy as int, x, y),
                decreases self.width - x,
            {
                let p = if dx <= x && x < dx + w {
                    src.rows[(sy + j) as usize][(sx + (x - dx)) as usize]
                } else {
                    assert(self.at(x as int, y as int) == orig.at(x as int, y as int));
                    self.rows[y as usize][x as usize]
                };
                row.push(p);
                x = x + 1;
            }
            let ghost before = *self;
            self.rows.set(y as usize, row);
            assert forall|xx: int, yy: int|
                0 <= xx < self.width && 0 <= yy < self.height implies #[trigger] self.at(xx, yy)
                    == Raster::copied_at(orig, *src, sx as int, sy as int, w as int, j as int + 1, dx as int, dy as int, xx, yy) by {
                if yy != y as int {
                    assert(self.at(xx, yy) == before.at(xx, yy));
                }
            }
            j = j + 1;
        }
        true
    }
}

/// A single-channel raster stored row by row: `rows[y][x]` is the value at
/// `(x, y)`.
#[derive(Debug)]
pub struct LumaRaster {
    pub width: u32,
    pub height: u32,
    pub rows: Vec<Vec<u8>>,
}

impl LumaRaster {
    /// Every row holds `width` values and there are `height` rows.
    pub open spec fn wf(&self) -> bool {
        &&& self.rows@.len() == self.height as int
        &&& forall|y: int| 0 <= y < self.height ==> #[trigger] self.rows@[y]@.len() == self.width as int
    }

    /// The value at `(x, y)`.
    pub open spec fn at(&self, x: int, y: int) -> u8 {
        self.rows@[y]@[x]
    }
}

} // verus!
