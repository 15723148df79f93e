use vstd::prelude::*;

verus! {

/// One RGBA pixel: four 8-bit channels.
#[derive(Clone, Copy, Debug, PartialEq, Eq, Structural)]
pub struct Rgba {
    pub r: u8,
    pub g: u8,
    pub b: u8,
    pub a: u8,
}

/// The fully transparent pixel every fresh canvas is filled with.
pub open spec fn transparent() -> Rgba {
    Rgba { r: 0, g: 0, b: 0, a: 0 }
}

/// A pixel buffer in row-major RGBA order, four bytes per pixel.
#[derive(Debug)]
pub struct Image {
    width: u32,
    height: u32,
    data: Vec<u8>,
}

/// The ranges of raw bytes of two distinct pixels never overlap.
proof fn lemma_idx_disjoint(w: int, h: int, x1: int, y1: int, x2: int, y2: int)
    by (nonlinear_arith)
    requires
        0 <= x1 < w,
        0 <= y1 < h,
        0 <= x2 < w,
        0 <= y2 < h,
        !(x1 == x2 && y1 == y2),
    ensures
        4 * (y1 * w + x1) + 3 < 4 * (y2 * w + x2) || 4 * (y2 * w + x2) + 3 < 4 * (y1 * w + x1),
{
}

/// The four bytes at pixel slot `(i, j)` of a row-major buffer of width `w`
/// hold exactly the channels of `p`.
spec fn pix_bytes_at(data: Seq<u8>, w: int, p: Rgba, i: int, j: int) -> bool {
    let k = 4 * (j * w + i);
    &&& data[k] == p.r
    &&& data[k + 1] == p.g
    &&& data[k + 2] == p.b
    &&& data[k + 3] == p.a
}

/// Row-major order: an earlier pixel has a strictly smaller linear index.
proof fn lemma_rowmajor_lt(w: int, x1: int, y1: int, x2: int, y2: int)
    by (nonlinear_arith)
    requires
        0 <= x1 < w,
        0 <= x2,
        0 <= y1,
        y1 < y2 || (y1 == y2 && x1 < x2),
    ensures
        y1 * w + x1 < y2 * w + x2,
{
}

/// A pixel's raw bytes lie inside a buffer of 4 * w * h bytes.
pub proof fn lemma_idx_in_range(w: int, h: int, x: int, y: int)
    by (nonlinear_arith)
    requires
        0 <= x < w,
        0 <= y < h,
    ensures
        0 <= 4 * (y * w + x),
        4 * (y * w + x) + 3 < 4 * (w * h),
{
}

/// Both sides of an image fit in a `u32`.
pub broadcast proof fn lemma_image_dims(img: &Image)
    ensures
        0 <= #[trigger] img.w() <= u32::MAX,
        0 <= #[trigger] img.h() <= u32::MAX,
{
}

impl Image {
    pub closed spec fn w(&self) -> int {
        self.width as int
    }

    pub closed spec fn h(&self) -> int {
        self.height as int
    }

    /// The raw byte content, as handed to or received from a pixel codec.
    pub closed spec fn raw(&self) -> Seq<u8> {
        self.data@
    }

    pub closed spec fn wf(&self) -> bool {
        self.data@.len() == 4 * (self.w() * self.h())
    }

    closed spec fn idx(&self, x: int, y: int) -> int {
        4 * (y * self.w() + x)
    }

    /// The pixel at column `x` of row `y`.
    pub closed spec fn pix(&self, x: int, y: int) -> Rgba {
        Rgba {
            r: self.data@[self.idx(x, y)],
            g: self.data@[self.idx(x, y) + 1],
            b: self.data@[self.idx(x, y) + 2],
            a: self.data@[self.idx(x, y) + 3],
        }
    }

    /// A pixel's channels are the four raw bytes at its row-major slot.
    pub proof fn lemma_pix_vs_raw(&self, x: int, y: int)
        requires
            self.wf(),
            0 <= x < self.w(),
            0 <= y < self.h(),
        ensures
            ({
                let k = 4 * (y * self.w() + x);
                &&& self.pix(x, y).r == self.raw()[k]
                &&& self.pix(x, y).g == self.raw()[k + 1]
                &&& self.pix(x, y).b == self.raw()[k + 2]
                &&& self.pix(x, y).a == self.raw()[k + 3]
            }),
    {
    }

    pub fn width(&self) -> (r: u32)
        ensures
            r == self.w(),
    {
        self.width
    }

    pub fn height(&self) -> (r: u32)
        ensures
            r == self.h(),
    {
        self.height
    }

    /// Wraps a raw row-major RGBA byte buffer of exactly the right length.
    pub fn from_raw(width: u32, height: u32, data: Vec<u8>) -> (r: Image)
        requires
            data@.len() == 4 * ((width as int) * (height as int)),
        ensures
            r.wf(),
            r.w() == width,
            r.h() == height,
            r.raw() == data@,
    {
        Image { width, height, data }
    }

    /// Hands the raw byte buffer back: four bytes per pixel.
    pub fn into_raw(self) -> (r: Vec<u8>)
        ensures
            r@ == self.raw(),
            self.wf() ==> r@.len() == 4 * (self.w() * self.h()),
    {
        self.data
    }

    /// A fresh canvas of the given size, fully transparent.
    pub fn new(width: u32, height: u32) -> (r: Image)
        requires
            4 * ((width as int) * (height as int)) <= usize::MAX,
        ensures
            r.wf(),
            r.w() == width,
            r.h() == height,
            forall|x: int, y: int|
                0 <= x < width && 0 <= y < height ==> r.pix(x, y) == transparent(),
    {
        proof {
            assert((width as int) * (height as int) >= 0) by (nonlinear_arith);
        }
        let m: usize = (width as usize) * (height as usize);
        let n: usize = 4 * m;
        let mut data: Vec<u8> = Vec::new();
        let mut i: usize = 0;
        while i < n
            invariant
                i == data@.len(),
                i <= n,
                forall|k: int| 0 <= k < data@.len() ==> data@[k] == 0u8,
            decreases n - i,
        {
            data.push(0u8);
            i = i + 1;
        }
        let r = Image { width, height, data };
        proof {
            assert forall|x: int, y: int|
                0 <= x < width && 0 <= y < height implies r.pix(x, y) == transparent() by {
                lemma_idx_in_range(width as int, height as int, x, y);
            }
        }
        r
    }

    /// Reads the pixel at `(x, y)`.
    pub fn get_pixel(&self, x: u32, y: u32) -> (p: Rgba)
        requires
            self.wf(),
            x < self.w(),
            y < self.h(),
        ensures
            p == self.pix(x as int, y as int),
    {
        let _len: usize = self.data.len();
        proof {
            lemma_idx_in_range(self.w(), self.h(), x as int, y as int);
        }
        let i: usize = 4 * ((y as usize) * (self.width as usize) + (x as usize));
        Rgba { r: self.data[i], g: self.data[i + 1], b: self.data[i + 2], a: self.data[i + 3] }
    }

    /// Overwrites the pixel at `(x, y)`, leaving every other pixel as it was.
    pub fn put_pixel(&mut self, x: u32, y: u32, p: Rgba)
        requires
            old(self).wf(),
            x < old(self).w(),
            y < old(self).h(),
        ensures
            final(self).wf(),
            final(self).w() == old(self).w(),
            final(self).h() == old(self).h(),
            final(self).pix(x as int, y as int) == p,
            forall|i: int, j: int|
                0 <= i < old(self).w() && 0 <= j < old(self).h() && !(i == x && j == y)
                    ==> final(self).pix(i, j) == old(self).pix(i, j),
    {
        let _len: usize = self.data.len();
        proof {
            lemma_idx_in_range(self.w(), self.h(), x as int, y as int);
        }
        let i: usize = 4 * ((y as usize) * (self.width as usize) + (x as usize));
        self.data[i] = p.r;
        self.data[i + 1] = p.g;
        self.data[i + 2] = p.b;
        self.data[i + 3] = p.a;
        proof {
            assert forall|i2: int, j2: int|
                0 <= i2 < old(self).w() && 0 <= j2 < old(self).h() && !(i2 == x && j2 == y)
                    implies final(self).pix(i2, j2) == old(self).pix(i2, j2) by {
                lemma_idx_in_range(old(self).w(), old(self).h(), i2, j2);
                lemma_idx_disjoint(old(self).w(), old(self).h(), i2, j2, x as int, y as int);
            }
        }
    }

    /// Copies out the `w`-by-`h` rectangle whose top-left corner is `(x, y)`.
    pub fn sub_image(&self, x: u32, y: u32, w: u32, h: u32) -> (r: Image)
        requires
            self.wf(),
            x + w <= self.w(),
            y + h <= self.h(),
        ensures
            r.wf(),
            r.w() == w,
            r.h() == h,
            forall|i: int, j: int|
                0 <= i < w && 0 <= j < h ==> r.pix(i, j) == self.pix(x + i, y + j),
    {
        let mut data: Vec<u8> = Vec::new();
        let mut j: u32 = 0;
        while j < h
            invariant
                self.wf(),
                x + w <= self.w(),
                y + h <= self.h(),
                0 <= j <= h,
                data@.len() == 4 * ((j as int) * (w as int)),
                forall|i2: int, j2: int|
                    0 <= i2 < w && 0 <= j2 < j
                        ==> #[trigger] pix_bytes_at(data@, w as int, self.pix(x + i2, y + j2), i2, j2),
            decreases h - j,
        {
            let mut i: u32 = 0;
            while i < w
                invariant
                    self.wf(),
                    x + w <= self.w(),
                    y + h <= self.h(),
                    0 <= j < h,
                    0 <= i <= w,
                    data@.len() == 4 * ((j as int) * (w as int) + (i as int)),
                    forall|i2: int, j2: int|
                        0 <= i2 < w && (0 <= j2 < j || (j2 == j && 0 <= i2 < i))
                            ==> #[trigger] pix_bytes_at(data@, w as int, self.pix(x + i2, y + j2), i2, j2),
                decreases w - i,
            {
                let ghost pre = data@;
                let p = self.get_pixel(x + i, y + j);
                data.push(p.r);
                data.push(p.g);
                data.push(p.b);
                data.push(p.a);
                proof {
                    assert forall|i2: int, j2: int|
                        0 <= i2 < w && (0 <= j2 < j || (j2 == j && 0 <= i2 <= i))
                            implies #[trigger] pix_bytes_at(
                            data@,
                            w as int,
                            self.pix(x + i2, y + j2),
                            i2,
                            j2,
                        ) by {
                        if j2 < j || (j2 == j && i2 < i) {
                            lemma_rowmajor_lt(w as int, i2, j2, i as int, j as int);
                            assert(pix_bytes_at(pre, w as int, self.pix(x + i2, y + j2), i2, j2));
                        } else {
                            assert(j2 == j && i2 == i);
                        }
                    }
                }
                i = i + 1;
            }
            proof {
                assert((j as int) * (w as int) + (w as int) == ((j as int) + 1) * (w as int))
                    by (nonlinear_arith);
            }
            j = j + 1;
        }
        proof {
            assert(4 * ((h as int) * (w as int)) == 4 * ((w as int) * (h as int)))
                by (nonlinear_arith);
        }
        let ghost fd = data@;
        let r = Image { width: w, height: h, data };
        proof {
            assert forall|i2: int, j2: int|
                0 <= i2 < w && 0 <= j2 < h implies r.pix(i2, j2) == self.pix(x + i2, y + j2) by {
                lemma_idx_in_range(w as int, h as int, i2, j2);
                assert(pix_bytes_at(fd, w as int, self.pix(x + i2, y + j2), i2, j2));
            }
        }
        r
    }

    /// Copies the whole of `src` into this canvas at top-left corner `(x, y)`.
    pub fn copy_from(&mut self, src: &Image, x: u32, y: u32)
        requires
            old(self).wf(),
            src.wf(),
            x + src.w() <= old(self).w(),
            y + src.h() <= old(self).h(),
        ensures
            final(self).wf(),
            final(self).w() == old(self).w(),
            final(self).h() == old(self).h(),
            forall|i: int, j: int|
                0 <= i < src.w() && 0 <= j < src.h()
                    ==> final(self).pix(x + i, y + j) == src.pix(i, j),
            forall|i: int, j: int|
                0 <= i < old(self).w() && 0 <= j < old(self).h()
                    && !(x <= i < x + src.w() && y <= j < y + src.h())
                    ==> final(self).pix(i, j) == old(self).pix(i, j),
    {
        let w = src.width();
        let h = src.height();
        let mut j: u32 = 0;
        while j < h
            invariant
                self.wf(),
                src.wf(),
                w == src.w(),
                h == src.h(),
                x + w <= self.w(),
                y + h <= self.h(),
                self.w() == old(self).w(),
                self.h() == old(self).h(),
                0 <= j <= h,
                forall|i2: int, j2: int|
                    0 <= i2 < w && 0 <= j2 < j ==> self.pix(x + i2, y + j2) == src.pix(i2, j2),
                forall|i2: int, j2: int|
                    0 <= i2 < self.w() && 0 <= j2 < self.h()
                        && !(x <= i2 < x + w && y <= j2 < y + j)
                        ==> self.pix(i2, j2) == old(self).pix(i2, j2),
            decreases h - j,
        {
            let mut i: u32 = 0;
            while i < w
                invariant
                    self.wf(),
                    src.wf(),
                    w == src.w(),
                    h == src.h(),
                    x + w <= self.w(),
                    y + h <= self.h(),
                    self.w() == old(self).w(),
                    self.h() == old(self).h(),
                    0 <= j < h,
                    0 <= i <= w,
                    forall|i2: int, j2: int|
                        0 <= i2 < w && (0 <= j2 < j || (j2 == j && 0 <= i2 < i))
                            ==> self.pix(x + i2, y + j2) == src.pix(i2, j2),
                    forall|i2: int, j2: int|
                        0 <= i2 < self.w() && 0 <= j2 < self.h()
                            && !(x <= i2 < x + w && y <= j2 < y + j)
                            && !(x <= i2 < x + i && j2 == y + j)
                            ==> self.pix(i2, j2) == old(self).pix(i2, j2),
                decreases w - i,
            {
                let p = src.get_pixel(i, j);
                self.put_pixel(x + i, y + j, p);
                i = i + 1;
            }
            j = j + 1;
        }
    }
}

} // verus!
