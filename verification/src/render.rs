//! Grayscale canvases and the image metrics kernels.
//!
//! An `Image` is a row-major byte canvas whose dimensions are bounded by the
//! data model and whose buffer length always equals `width * height`. The
//! metrics kernels — ink sum, longest non-zero run, bounding box, pixel
//! delta — each come in a plain form and a block-wise form; both are proved
//! against the same mathematical definition, so the two implementations
//! agree exactly on every input.

use vstd::prelude::*;
use vstd::string::StringExecFns;

use crate::batch::BBox;
use crate::errors::Error;

verus! {

/// Sum of a byte sequence, as an unbounded integer.
pub open spec fn byte_sum(s: Seq<u8>) -> int
    decreases s.len(),
{
    if s.len() == 0 {
        0
    } else {
        byte_sum(s.drop_last()) + s.last()
    }
}

/// The byte sum is bounded by 255 per element.
pub proof fn lemma_byte_sum_bounds(s: Seq<u8>)
    ensures
        0 <= byte_sum(s) <= 255 * s.len(),
    decreases s.len(),
{
    if s.len() > 0 {
        lemma_byte_sum_bounds(s.drop_last());
    }
}

/// Extending a prefix by one element adds that element to the sum.
proof fn lemma_byte_sum_step(s: Seq<u8>, i: int)
    requires
        0 <= i < s.len(),
    ensures
        byte_sum(s.take(i + 1)) == byte_sum(s.take(i)) + s[i],
{
    assert(s.take(i + 1).drop_last() =~= s.take(i));
    assert(s.take(i + 1).last() == s[i]);
}

/// Length of the run of non-zero bytes ending exactly at position `i - 1`.
pub open spec fn run_ending(s: Seq<u8>, i: int) -> int
    decreases i,
{
    if i <= 0 || i > s.len() {
        0
    } else if s[i - 1] == 0 {
        0
    } else {
        run_ending(s, i - 1) + 1
    }
}

/// The longest run of non-zero bytes within the first `i` elements.
pub open spec fn best_run(s: Seq<u8>, i: int) -> int
    decreases i,
{
    if i <= 0 {
        0
    } else {
        let prev = best_run(s, i - 1);
        let here = run_ending(s, i);
        if here > prev {
            here
        } else {
            prev
        }
    }
}

/// The longest run of strictly positive bytes in row-major order.
pub open spec fn longest_run_of(s: Seq<u8>) -> int {
    best_run(s, s.len() as int)
}

/// Runs never exceed the scanned length.
pub proof fn lemma_run_bounds(s: Seq<u8>, i: int)
    requires
        0 <= i <= s.len(),
    ensures
        0 <= run_ending(s, i) <= i,
        0 <= best_run(s, i) <= i,
    decreases i,
{
    if i > 0 {
        lemma_run_bounds(s, i - 1);
    }
}

/// Sum of absolute differences of two equally long byte sequences.
pub open spec fn abs_diff_sum(a: Seq<u8>, b: Seq<u8>) -> int
    recommends
        a.len() == b.len(),
    decreases a.len(),
{
    if a.len() == 0 || a.len() != b.len() {
        0
    } else {
        abs_diff_sum(a.drop_last(), b.drop_last()) + abs_diff_of(a.last(), b.last())
    }
}

/// Absolute difference of two bytes.
pub open spec fn abs_diff_of(a: u8, b: u8) -> int {
    if a >= b {
        a - b
    } else {
        b - a
    }
}

proof fn lemma_abs_diff_sum_step(a: Seq<u8>, b: Seq<u8>, i: int)
    requires
        a.len() == b.len(),
        0 <= i < a.len(),
    ensures
        abs_diff_sum(a.take(i + 1), b.take(i + 1)) == abs_diff_sum(a.take(i), b.take(i))
            + abs_diff_of(a[i], b[i]),
{
    assert(a.take(i + 1).drop_last() =~= a.take(i));
    assert(b.take(i + 1).drop_last() =~= b.take(i));
}

/// The absolute-difference sum is bounded by 255 per element.
pub proof fn lemma_abs_diff_sum_bounds(a: Seq<u8>, b: Seq<u8>)
    requires
        a.len() == b.len(),
    ensures
        0 <= abs_diff_sum(a, b) <= 255 * a.len(),
    decreases a.len(),
{
    if a.len() > 0 {
        lemma_abs_diff_sum_bounds(a.drop_last(), b.drop_last());
    }
}

/// Bounded dimensions keep every pixel count within 64-bit sums.
pub proof fn lemma_dims_product_bound(w: int, h: int)
    requires
        1 <= w <= 10000,
        1 <= h <= 10000,
    ensures
        1 <= w * h <= 100000000,
{
    assert(1 <= w * h <= 100000000) by (nonlinear_arith)
        requires
            1 <= w <= 10000 && 1 <= h <= 10000,
    ;
}

/// Grayscale canvas: row-major bytes, zero is background, greater is ink.
#[derive(Clone, Debug)]
pub struct Image {
    width: u32,
    height: u32,
    pixels: Vec<u8>,
}

impl Image {
    /// Width in pixels.
    pub closed spec fn spec_width(&self) -> u32 {
        self.width
    }

    /// Height in pixels.
    pub closed spec fn spec_height(&self) -> u32 {
        self.height
    }

    /// The pixel buffer in row-major order.
    pub closed spec fn spec_pixels(&self) -> Seq<u8> {
        self.pixels@
    }

    /// Well-formedness: dimensions within the data model's bounds and a
    /// buffer of exactly `width * height` bytes.
    pub open spec fn wf(&self) -> bool {
        &&& 1 <= self.spec_width() <= 10000
        &&& 1 <= self.spec_height() <= 10000
        &&& self.spec_pixels().len() == self.spec_width() * self.spec_height()
    }

    /// The pixel at column `x` of row `y`.
    pub open spec fn px(&self, x: int, y: int) -> u8
        recommends
            0 <= x < self.spec_width(),
            0 <= y < self.spec_height(),
    {
        self.spec_pixels()[y * self.spec_width() + x]
    }

    /// Whether the pixel at `(x, y)` carries ink.
    pub open spec fn ink_at(&self, x: int, y: int) -> bool {
        &&& 0 <= x < self.spec_width()
        &&& 0 <= y < self.spec_height()
        &&& self.px(x, y) > 0
    }

    /// Whether any pixel carries ink.
    pub open spec fn has_ink(&self) -> bool {
        exists|x: int, y: int| self.ink_at(x, y)
    }

    /// Create an image, validating dimensions and buffer size. Accepted
    /// exactly when both dimensions are in `[1, 10000]` and the buffer holds
    /// `width * height` bytes; the accepted image carries the arguments
    /// unchanged.
    pub fn new(width: u32, height: u32, pixels: Vec<u8>) -> (r: Result<Image, Error>)
        ensures
            r.is_ok() <==> (1 <= width <= 10000 && 1 <= height <= 10000 && pixels@.len() == width
                * height),
            r matches Ok(img) ==> img.spec_width() == width && img.spec_height() == height
                && img.spec_pixels() == pixels@ && img.wf(),
            r.is_err() ==> (r->Err_0 is InvalidRenderParams || r->Err_0 is Internal),
    {
        if width == 0 || height == 0 || width > 10000 || height > 10000 {
            return Err(
                Error::InvalidRenderParams {
                    reason: String::from_str("Image dimensions out of bounds"),
                },
            );
        }
        proof {
            lemma_dims_product_bound(width as int, height as int);
        }
        let expected: usize = (width as usize) * (height as usize);
        if pixels.len() != expected {
            return Err(Error::Internal { reason: String::from_str("Pixel data size mismatch") });
        }
        Ok(Image { width, height, pixels })
    }

    /// Access the raw grayscale pixels.
    pub fn pixels(&self) -> (r: &Vec<u8>)
        ensures
            r@ == self.spec_pixels(),
    {
        &self.pixels
    }

    /// Consume the image and return the owned pixel buffer.
    pub fn into_pixels(self) -> (r: Vec<u8>)
        ensures
            r@ == self.spec_pixels(),
    {
        self.pixels
    }

    /// Width in pixels.
    pub fn width(&self) -> (r: u32)
        ensures
            r == self.spec_width(),
    {
        self.width
    }

    /// Height in pixels.
    pub fn height(&self) -> (r: u32)
        ensures
            r == self.spec_height(),
    {
        self.height
    }

    /// Total number of pixels.
    pub fn len(&self) -> (r: usize)
        ensures
            r == self.spec_pixels().len(),
    {
        self.pixels.len()
    }

    /// True when every pixel is zero: a blank canvas with no ink.
    pub fn is_empty(&self) -> (r: bool)
        requires
            self.wf(),
        ensures
            r == !self.has_ink(),
    {
        let n = self.pixels.len();
        let mut i: usize = 0;
        while i < n
            invariant
                i <= n,
                n == self.spec_pixels().len(),
                self.wf(),
                forall|j: int| 0 <= j < i ==> self.spec_pixels()[j] == 0,
            decreases n - i,
        {
            if self.pixels[i] > 0 {
                proof {
                    let w = self.spec_width() as int;
                    let h = self.spec_height() as int;
                    let x = i as int % w;
                    let y = i as int / w;
                    vstd::arithmetic::div_mod::lemma_fundamental_div_mod(i as int, w);
                    vstd::arithmetic::div_mod::lemma_mod_bound(i as int, w);
                    vstd::arithmetic::div_mod::lemma_div_pos_is_pos(i as int, w);
                    assert(y < h) by (nonlinear_arith)
                        requires
                            w * y + x == i as int && 0 <= x < w && 0 < w && 0 <= y && (i as int) < w
                                * h,
                    ;
                    assert(self.px(x, y) == self.spec_pixels()[i as int]);
                    assert(self.ink_at(x, y));
                }
                return false;
            }
            i = i + 1;
        }
        proof {
            if self.has_ink() {
                let (x, y) = choose|x: int, y: int| self.ink_at(x, y);
                let w = self.spec_width() as int;
                let h = self.spec_height() as int;
                assert(0 <= y * w + x < n as int) by (nonlinear_arith)
                    requires
                        0 <= x < w && 0 <= y < h && 0 < w && n as int == w * h,
                ;
                assert(self.spec_pixels()[y * w + x] == 0);
            }
        }
        true
    }

    /// Sum of all pixel values, accumulated in 64 bits.
    pub fn pixel_sum(&self) -> (r: u64)
        requires
            self.wf(),
        ensures
            r == byte_sum(self.spec_pixels()),
    {
        let n = self.pixels.len();
        proof {
            lemma_dims_product_bound(self.spec_width() as int, self.spec_height() as int);
        }
        let mut sum: u64 = 0;
        let mut i: usize = 0;
        proof {
            assert(self.spec_pixels().take(0) =~= Seq::<u8>::empty());
        }
        while i < n
            invariant
                i <= n,
                n == self.spec_pixels().len(),
                n <= 100000000,
                self.wf(),
                sum == byte_sum(self.spec_pixels().take(i as int)),
                sum <= 255 * i,
            decreases n - i,
        {
            proof {
                lemma_byte_sum_step(self.spec_pixels(), i as int);
            }
            sum = sum + (self.pixels[i] as u64);
            i = i + 1;
        }
        proof {
            assert(self.spec_pixels().take(n as int) =~= self.spec_pixels());
        }
        sum
    }

    /// Sum of all pixel values, walked in blocks of 32 bytes with a scalar
    /// tail. Computes exactly the same value as `pixel_sum` on every input.
    pub fn pixel_sum_blocks(&self) -> (r: u64)
        requires
            self.wf(),
        ensures
            r == byte_sum(self.spec_pixels()),
    {
        let n = self.pixels.len();
        proof {
            lemma_dims_product_bound(self.spec_width() as int, self.spec_height() as int);
        }
        let mut sum: u64 = 0;
        let mut i: usize = 0;
        proof {
            assert(self.spec_pixels().take(0) =~= Seq::<u8>::empty());
        }
        while i + 32 <= n
            invariant
                i <= n,
                n == self.spec_pixels().len(),
                n <= 100000000,
                self.wf(),
                sum == byte_sum(self.spec_pixels().take(i as int)),
                sum <= 255 * i,
            decreases n - i,
        {
            let mut j: usize = 0;
            while j < 32
                invariant
                    j <= 32,
                    i + 32 <= n,
                    n == self.spec_pixels().len(),
                    n <= 100000000,
                    self.wf(),
                    sum == byte_sum(self.spec_pixels().take((i + j) as int)),
                    sum <= 255 * (i + j),
                decreases 32 - j,
            {
                proof {
                    lemma_byte_sum_step(self.spec_pixels(), (i + j) as int);
                }
                sum = sum + (self.pixels[i + j] as u64);
                j = j + 1;
            }
            i = i + 32;
        }
        while i < n
            invariant
                i <= n,
                n == self.spec_pixels().len(),
                n <= 100000000,
                self.wf(),
                sum == byte_sum(self.spec_pixels().take(i as int)),
                sum <= 255 * i,
            decreases n - i,
        {
            proof {
                lemma_byte_sum_step(self.spec_pixels(), i as int);
            }
            sum = sum + (self.pixels[i] as u64);
            i = i + 1;
        }
        proof {
            assert(self.spec_pixels().take(n as int) =~= self.spec_pixels());
        }
        sum
    }

    /// Length of the longest contiguous run of non-zero pixels in row-major
    /// order.
    pub fn longest_run(&self) -> (r: u64)
        requires
            self.wf(),
        ensures
            r == longest_run_of(self.spec_pixels()),
            r <= self.spec_pixels().len(),
    {
        let n = self.pixels.len();
        proof {
            lemma_dims_product_bound(self.spec_width() as int, self.spec_height() as int);
        }
        let mut best: u64 = 0;
        let mut current: u64 = 0;
        let mut i: usize = 0;
        while i < n
            invariant
                i <= n,
                n == self.spec_pixels().len(),
                n <= 100000000,
                self.wf(),
                current == run_ending(self.spec_pixels(), i as int),
                best == best_run(self.spec_pixels(), i as int),
                current <= i,
                best <= i,
            decreases n - i,
        {
            proof {
                lemma_run_bounds(self.spec_pixels(), i as int);
            }
            if self.pixels[i] > 0 {
                current = current + 1;
                if current > best {
                    best = current;
                }
            } else {
                current = 0;
            }
            i = i + 1;
        }
        proof {
            lemma_run_bounds(self.spec_pixels(), n as int);
        }
        best
    }

    /// Longest non-zero run, walked in blocks of 32 bytes with a scalar
    /// tail. Computes exactly the same value as `longest_run` on every
    /// input.
    pub fn longest_run_blocks(&self) -> (r: u64)
        requires
            self.wf(),
        ensures
            r == longest_run_of(self.spec_pixels()),
            r <= self.spec_pixels().len(),
    {
        let n = self.pixels.len();
        proof {
            lemma_dims_product_bound(self.spec_width() as int, self.spec_height() as int);
        }
        let mut best: u64 = 0;
        let mut current: u64 = 0;
        let mut i: usize = 0;
        while i + 32 <= n
            invariant
                i <= n,
                n == self.spec_pixels().len(),
                n <= 100000000,
                self.wf(),
                current == run_ending(self.spec_pixels(), i as int),
                best == best_run(self.spec_pixels(), i as int),
                current <= i,
                best <= i,
            decreases n - i,
        {
            let mut j: usize = 0;
            while j < 32
                invariant
                    j <= 32,
                    i + 32 <= n,
                    n == self.spec_pixels().len(),
                    n <= 100000000,
                    self.wf(),
                    current == run_ending(self.spec_pixels(), (i + j) as int),
                    best == best_run(self.spec_pixels(), (i + j) as int),
                    current <= i + j,
                    best <= i + j,
                decreases 32 - j,
            {
                proof {
                    lemma_run_bounds(self.spec_pixels(), (i + j) as int);
                }
                if self.pixels[i + j] > 0 {
                    current = current + 1;
                    if current > best {
                        best = current;
                    }
                } else {
                    current = 0;
                }
                j = j + 1;
            }
            i = i + 32;
        }
        while i < n
            invariant
                i <= n,
                n == self.spec_pixels().len(),
                n <= 100000000,
                self.wf(),
                current == run_ending(self.spec_pixels(), i as int),
                best == best_run(self.spec_pixels(), i as int),
                current <= i,
                best <= i,
            decreases n - i,
        {
            proof {
                lemma_run_bounds(self.spec_pixels(), i as int);
            }
            if self.pixels[i] > 0 {
                current = current + 1;
                if current > best {
                    best = current;
                }
            } else {
                current = 0;
            }
            i = i + 1;
        }
        proof {
            lemma_run_bounds(self.spec_pixels(), n as int);
        }
        best
    }

    /// Sum of absolute pixel differences against another image, or `None`
    /// when the two cannot be compared: differing dimensions, or either
    /// canvas blank. The caller divides by `255 * len` or substitutes its
    /// sentinel.
    pub fn pixel_delta_parts(&self, other: &Image) -> (r: Option<u64>)
        requires
            self.wf(),
            other.wf(),
        ensures
            r is None <==> (self.spec_width() != other.spec_width() || self.spec_height()
                != other.spec_height() || !self.has_ink() || !other.has_ink()),
            r matches Some(d) ==> d == abs_diff_sum(self.spec_pixels(), other.spec_pixels()),
    {
        if self.width != other.width || self.height != other.height {
            return None;
        }
        if self.is_empty() || other.is_empty() {
            return None;
        }
        let n = self.pixels.len();
        proof {
            lemma_dims_product_bound(self.spec_width() as int, self.spec_height() as int);
        }
        let mut sum: u64 = 0;
        let mut i: usize = 0;
        proof {
            assert(self.spec_pixels().take(0) =~= Seq::<u8>::empty());
            assert(other.spec_pixels().take(0) =~= Seq::<u8>::empty());
        }
        while i < n
            invariant
                i <= n,
                n == self.spec_pixels().len(),
                n == other.spec_pixels().len(),
                n <= 100000000,
                self.wf(),
                other.wf(),
                sum == abs_diff_sum(
                    self.spec_pixels().take(i as int),
                    other.spec_pixels().take(i as int),
                ),
                sum <= 255 * i,
            decreases n - i,
        {
            proof {
                lemma_abs_diff_sum_step(self.spec_pixels(), other.spec_pixels(), i as int);
            }
            let a = self.pixels[i];
            let b = other.pixels[i];
            let d = if a >= b {
                a - b
            } else {
                b - a
            };
            sum = sum + (d as u64);
            i = i + 1;
        }
        proof {
            assert(self.spec_pixels().take(n as int) =~= self.spec_pixels());
            assert(other.spec_pixels().take(n as int) =~= other.spec_pixels());
        }
        Some(sum)
    }
}

/// A row-major index stays within a `w * h` buffer.
pub proof fn lemma_rowmajor_bound(x: int, y: int, w: int, h: int)
    requires
        0 <= x < w,
        0 <= y < h,
    ensures
        0 <= y * w + x < w * h,
{
    assert(0 <= y * w + x < w * h) by (nonlinear_arith)
        requires
            0 <= x < w && 0 <= y < h,
    ;
}

/// Distinct coordinates map to distinct row-major indices.
pub proof fn lemma_rowmajor_distinct(x1: int, y1: int, x2: int, y2: int, w: int)
    requires
        0 <= x1 < w,
        0 <= x2 < w,
    ensures
        y1 * w + x1 == y2 * w + x2 ==> x1 == x2 && y1 == y2,
{
    assert(y1 * w + x1 == y2 * w + x2 ==> x1 == x2 && y1 == y2) by (nonlinear_arith)
        requires
            0 <= x1 < w && 0 <= x2 < w,
    ;
}

/// The bounding box `b` is correct for `img`: all zeros on a blank canvas,
/// otherwise the smallest axis-aligned rectangle holding every ink pixel.
pub open spec fn bbox_ok(img: Image, b: BBox) -> bool {
    if img.has_ink() {
        &&& 1 <= b.w
        &&& 1 <= b.h
        &&& b.x + b.w <= img.spec_width()
        &&& b.y + b.h <= img.spec_height()
        &&& exists|j: int| img.ink_at(b.x as int, j)
        &&& exists|i: int, j: int| i == b.x + b.w - 1 && img.ink_at(i, j)
        &&& exists|i: int| img.ink_at(i, b.y as int)
        &&& exists|i: int, j: int| j == b.y + b.h - 1 && img.ink_at(i, j)
        &&& forall|i: int, j: int| img.ink_at(i, j) ==> b.x <= i < b.x + b.w && b.y <= j < b.y
            + b.h
    } else {
        b.x == 0 && b.y == 0 && b.w == 0 && b.h == 0
    }
}

/// Alpha blending of one mask sample over one canvas pixel:
/// `dst + alpha * (255 - dst) / 255`, saturating at white.
pub open spec fn blend(dst: u8, alpha: u8) -> u8 {
    let inc = ((alpha as int) * (255 - dst)) / 255;
    if dst + inc >= 255 {
        255
    } else {
        (dst + inc) as u8
    }
}

impl Image {

    /// Leftmost and rightmost ink columns of row `y`, or `None` when the
    /// row is blank.
    fn row_ink_span(&self, y: u32) -> (r: Option<(u32, u32)>)
        requires
            self.wf(),
            y < self.spec_height(),
        ensures
            r is None <==> !(exists|i: int| self.ink_at(i, y as int)),
            r matches Some((lo, hi)) ==> self.ink_at(lo as int, y as int) && self.ink_at(
                hi as int,
                y as int,
            ) && lo <= hi && forall|i: int|
                self.ink_at(i, y as int) ==> lo <= i <= hi,
    {
        let w = self.width;
        let n = self.pixels.len();
        proof {
            lemma_rowmajor_bound(0, y as int, w as int, self.spec_height() as int);
            lemma_dims_product_bound(w as int, self.spec_height() as int);
        }
        let base: usize = (y as usize) * (w as usize);
        let mut lo: u32 = 0;
        let mut hi: u32 = 0;
        let mut found = false;
        let mut x: u32 = 0;
        while x < w
            invariant
                x <= w,
                w == self.spec_width(),
                y < self.spec_height(),
                self.wf(),
                base == (y as int) * (w as int),
                n == self.spec_pixels().len(),
                n <= 100000000,
                !found ==> forall|i: int| 0 <= i < x ==> !self.ink_at(i, y as int),
                found ==> lo <= hi < x && self.ink_at(lo as int, y as int) && self.ink_at(
                    hi as int,
                    y as int,
                ),
                found ==> forall|i: int| 0 <= i < x && self.ink_at(i, y as int) ==> lo <= i <= hi,
            decreases w - x,
        {
            proof {
                lemma_rowmajor_bound(x as int, y as int, w as int, self.spec_height() as int);
                lemma_dims_product_bound(w as int, self.spec_height() as int);
            }
            let v = self.pixels[base + (x as usize)];
            if v > 0 {
                proof {
                    assert(self.ink_at(x as int, y as int));
                }
                if !found {
                    found = true;
                    lo = x;
                    hi = x;
                } else {
                    hi = x;
                }
            }
            x = x + 1;
        }
        if found {
            Some((lo, hi))
        } else {
            None
        }
    }

    /// Calculate the tight bounding box of non-zero pixels: all zeros when
    /// the canvas is blank, otherwise the smallest rectangle holding every
    /// ink pixel.
    pub fn calculate_bbox(&self) -> (r: BBox)
        requires
            self.wf(),
        ensures
            bbox_ok(*self, r),
    {
        let w = self.width;
        let h = self.height;
        let mut found = false;
        let mut min_x: u32 = 0;
        let mut max_x: u32 = 0;
        let mut min_y: u32 = 0;
        let mut max_y: u32 = 0;
        let mut y: u32 = 0;
        while y < h
            invariant
                y <= h,
                w == self.spec_width(),
                h == self.spec_height(),
                self.wf(),
                !found ==> forall|i: int, j: int| 0 <= j < y ==> !self.ink_at(i, j),
                found ==> min_x <= max_x < w && min_y <= max_y < y,
                found ==> (exists|j: int| self.ink_at(min_x as int, j)) && (exists|j: int|
                    self.ink_at(max_x as int, j)) && (exists|i: int|
                    self.ink_at(i, min_y as int)) && (exists|i: int|
                    self.ink_at(i, max_y as int)),
                found ==> forall|i: int, j: int|
                    0 <= j < y && self.ink_at(i, j) ==> min_x <= i <= max_x && min_y <= j <= max_y,
            decreases h - y,
        {
            match self.row_ink_span(y) {
                Some((lo, hi)) => {
                    if !found {
                        found = true;
                        min_x = lo;
                        max_x = hi;
                        min_y = y;
                        max_y = y;
                    } else {
                        if lo < min_x {
                            min_x = lo;
                        }
                        if hi > max_x {
                            max_x = hi;
                        }
                        max_y = y;
                    }
                },
                None => {},
            }
            y = y + 1;
        }
        if !found {
            proof {
                if self.has_ink() {
                    let (i, j) = choose|i: int, j: int| self.ink_at(i, j);
                    assert(!self.ink_at(i, j));
                }
            }
            BBox { x: 0, y: 0, w: 0, h: 0 }
        } else {
            BBox { x: min_x, y: min_y, w: max_x - min_x + 1, h: max_y - min_y + 1 }
        }
    }

    /// Assemble the image metrics as exact integer parts: total ink, longest
    /// run, and pixel count. The parts always satisfy the payload's bounds:
    /// ink never exceeds full white everywhere, and no run is longer than
    /// the canvas.
    pub fn metrics(&self) -> (m: crate::batch::MetricsOutput)
        requires
            self.wf(),
        ensures
            m.ink_total == byte_sum(self.spec_pixels()),
            m.longest_run == longest_run_of(self.spec_pixels()),
            m.pixel_count == self.spec_pixels().len(),
            m.ink_total <= 255 * m.pixel_count,
            m.longest_run <= m.pixel_count,
            m.pixel_count > 0,
    {
        proof {
            lemma_byte_sum_bounds(self.spec_pixels());
            lemma_dims_product_bound(self.spec_width() as int, self.spec_height() as int);
        }
        let ink_total = self.pixel_sum();
        let longest_run = self.longest_run();
        let pixel_count = self.pixels.len() as u64;
        crate::batch::MetricsOutput { ink_total, longest_run, pixel_count }
    }
}

/// The image invariants, bundled: a well-formed canvas holds exactly
/// `width * height` pixels; its ink sum stays within full white everywhere,
/// so the density ratio lies in the unit interval; no run outlasts the
/// canvas, so the beam ratio does too; and its bounding box is either all
/// zero or contained in the canvas.
pub proof fn lemma_image_invariants(img: Image, b: BBox)
    requires
        img.wf(),
        bbox_ok(img, b),
    ensures
        img.spec_pixels().len() == img.spec_width() * img.spec_height(),
        0 <= byte_sum(img.spec_pixels()) <= 255 * img.spec_pixels().len(),
        0 <= longest_run_of(img.spec_pixels()) <= img.spec_pixels().len(),
        b.x + b.w <= img.spec_width(),
        b.y + b.h <= img.spec_height(),
{
    lemma_byte_sum_bounds(img.spec_pixels());
    lemma_run_bounds(img.spec_pixels(), img.spec_pixels().len() as int);
}

/// Whether the mask rectangle placed at `(left, top)` covers canvas pixel
/// `(x, y)`.
pub open spec fn mask_covers(left: int, top: int, mw: int, mh: int, x: int, y: int) -> bool {
    left <= x < left + mw && top <= y < top + mh
}

/// The blended value of canvas pixel `(x, y)` after compositing a mask of
/// extent `mw * mh` placed at `(left, top)`: blended where covered, kept
/// everywhere else.
pub open spec fn composite_px(
    canvas: Seq<u8>,
    mask: Seq<u8>,
    w: int,
    left: int,
    top: int,
    mw: int,
    mh: int,
    x: int,
    y: int,
) -> u8 {
    if mask_covers(left, top, mw, mh, x, y) {
        blend(canvas[y * w + x], mask[(y - top) * mw + (x - left)])
    } else {
        canvas[y * w + x]
    }
}

/// Alpha-composite an alpha mask onto a canvas, clipped to the canvas
/// bounds. Every covered pixel is blended with the mask sample above it;
/// every other pixel keeps its value.
pub fn composite_mask(
    canvas: &mut Vec<u8>,
    width: u32,
    height: u32,
    mask: &Vec<u8>,
    left: i32,
    top: i32,
    mask_w: u32,
    mask_h: u32,
)
    requires
        1 <= width <= 10000,
        1 <= height <= 10000,
        old(canvas)@.len() == width * height,
        mask@.len() == mask_w * mask_h,
    ensures
        final(canvas)@.len() == old(canvas)@.len(),
        forall|x: int, y: int|
            0 <= x < width && 0 <= y < height ==> final(canvas)@[y * width + x] == composite_px(
                old(canvas)@,
                mask@,
                width as int,
                left as int,
                top as int,
                mask_w as int,
                mask_h as int,
                x,
                y,
            ),
{
    let total: usize = canvas.len();
    let mask_total: usize = mask.len();
    let y_start: i64 = if top > 0 {
        top as i64
    } else {
        0
    };
    let y_limit_m: i64 = top as i64 + mask_h as i64;
    let y_end: i64 = if y_limit_m < height as i64 {
        y_limit_m
    } else {
        height as i64
    };
    let x_start: i64 = if left > 0 {
        left as i64
    } else {
        0
    };
    let x_limit_m: i64 = left as i64 + mask_w as i64;
    let x_end: i64 = if x_limit_m < width as i64 {
        x_limit_m
    } else {
        width as i64
    };
    if y_start >= y_end || x_start >= x_end {
        proof {
            assert(forall|x: int, y: int|
                0 <= x < width && 0 <= y < height ==> !mask_covers(
                    left as int,
                    top as int,
                    mask_w as int,
                    mask_h as int,
                    x,
                    y,
                ));
        }
        return ;
    }
    let mut py: i64 = y_start;
    while py < y_end
        invariant
            y_start <= py <= y_end,
            0 <= y_start,
            y_end <= height as i64,
            y_start == if top > 0 { top as int } else { 0int },
            y_end == if top + mask_h < height { (top + mask_h) as int } else { height as int },
            x_start == if left > 0 { left as int } else { 0int },
            x_end == if left + mask_w < width { (left + mask_w) as int } else { width as int },
            0 <= x_start < x_end <= width as int,
            1 <= width <= 10000,
            1 <= height <= 10000,
            canvas@.len() == width * height,
            mask@.len() == mask_w * mask_h,
            total == width * height,
            mask_total == mask_w * mask_h,
            forall|x: int, y: int|
                0 <= x < width && 0 <= y < height ==> canvas@[y * width + x] == (if y < py
                    || !mask_covers(
                    left as int,
                    top as int,
                    mask_w as int,
                    mask_h as int,
                    x,
                    y,
                ) {
                    composite_px(
                        old(canvas)@,
                        mask@,
                        width as int,
                        left as int,
                        top as int,
                        mask_w as int,
                        mask_h as int,
                        x,
                        y,
                    )
                } else {
                    old(canvas)@[y * width + x]
                }),
        decreases y_end - py,
    {
        let mut px: i64 = x_start;
        while px < x_end
            invariant
                x_start <= px <= x_end,
                y_start <= py < y_end,
                0 <= y_start,
                y_end <= height as i64,
                y_start == if top > 0 { top as int } else { 0int },
                y_end == if top + mask_h < height { (top + mask_h) as int } else { height as int },
                x_start == if left > 0 { left as int } else { 0int },
                x_end == if left + mask_w < width { (left + mask_w) as int } else { width as int },
                0 <= x_start < x_end <= width as int,
                1 <= width <= 10000,
                1 <= height <= 10000,
                canvas@.len() == width * height,
                mask@.len() == mask_w * mask_h,
                total == width * height,
                mask_total == mask_w * mask_h,
                forall|x: int, y: int|
                    0 <= x < width && 0 <= y < height ==> canvas@[y * width + x] == (if y < py || (y
                        == py && x < px) || !mask_covers(
                        left as int,
                        top as int,
                        mask_w as int,
                        mask_h as int,
                        x,
                        y,
                    ) {
                        composite_px(
                            old(canvas)@,
                            mask@,
                            width as int,
                            left as int,
                            top as int,
                            mask_w as int,
                            mask_h as int,
                            x,
                            y,
                        )
                    } else {
                        old(canvas)@[y * width + x]
                    }),
            decreases x_end - px,
        {
            proof {
                lemma_rowmajor_bound(px as int, py as int, width as int, height as int);
                lemma_rowmajor_bound(
                    px as int - left as int,
                    py as int - top as int,
                    mask_w as int,
                    mask_h as int,
                );
            }
            let canvas_idx: usize = (py as usize) * (width as usize) + (px as usize);
            let mask_idx: usize = ((py - top as i64) as usize) * (mask_w as usize) + ((px
                - left as i64) as usize);
            let dst = canvas[canvas_idx];
            let alpha = mask[mask_idx];
            proof {
                assert((alpha as int) * (255 - dst) <= 255 * 255) by (nonlinear_arith)
                    requires
                        0 <= alpha <= 255 && 0 <= 255 - dst <= 255,
                ;
            }
            let inc16: u16 = ((alpha as u16) * ((255 - dst) as u16)) / 255;
            let blended = dst.saturating_add(inc16 as u8);
            proof {
                assert(blended == blend(dst, alpha));
            }
            canvas.set(canvas_idx, blended);
            proof {
                assert(mask_covers(
                    left as int,
                    top as int,
                    mask_w as int,
                    mask_h as int,
                    px as int,
                    py as int,
                ));
                assert forall|x: int, y: int|
                    0 <= x < width && 0 <= y < height implies canvas@[y * (width as int) + x] == (
                if y < py as int || (y == py as int && x < px as int + 1) || !mask_covers(
                    left as int,
                    top as int,
                    mask_w as int,
                    mask_h as int,
                    x,
                    y,
                ) {
                    composite_px(
                        old(canvas)@,
                        mask@,
                        width as int,
                        left as int,
                        top as int,
                        mask_w as int,
                        mask_h as int,
                        x,
                        y,
                    )
                } else {
                    old(canvas)@[y * (width as int) + x]
                }) by {
                    lemma_rowmajor_bound(x, y, width as int, height as int);
                    if !(x == px as int && y == py as int) {
                        lemma_rowmajor_distinct(x, y, px as int, py as int, width as int);
                    }
                }
            }
            px = px + 1;
        }
        py = py + 1;
    }
}

/// Invert a canvas in place: every pixel becomes `255 - pixel`, turning
/// white-on-black rendering into dark text on a light background.
pub fn invert_canvas(canvas: &mut Vec<u8>)
    ensures
        final(canvas)@.len() == old(canvas)@.len(),
        forall|i: int|
            0 <= i < old(canvas)@.len() ==> final(canvas)@[i] == 255 - old(canvas)@[i],
{
    let n = canvas.len();
    let mut i: usize = 0;
    while i < n
        invariant
            i <= n,
            canvas@.len() == n,
            n == old(canvas)@.len(),
            forall|j: int| 0 <= j < i ==> canvas@[j] == 255 - old(canvas)@[j],
            forall|j: int| i <= j < n ==> canvas@[j] == old(canvas)@[j],
        decreases n - i,
    {
        let v = canvas[i];
        canvas.set(i, 255 - v);
        i = i + 1;
    }
}


} // verus!
