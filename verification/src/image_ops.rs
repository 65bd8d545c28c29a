//! Image alignment and comparison for font matching.
//!
//! These kernels compare two grayscale renderings: find the dark-pixel
//! bounding box, count dark pixels, pad both images onto a common white
//! canvas, and sum absolute pixel differences. Every result here is an
//! exact integer; the ratios derived from them (density, mean delta,
//! aspect) are divisions the caller performs at the boundary.

use vstd::prelude::*;

use crate::render::{abs_diff_sum, lemma_dims_product_bound, lemma_rowmajor_bound,
    lemma_rowmajor_distinct};

verus! {

/// Alignment method for image comparison.
#[derive(Clone, Copy, Debug, PartialEq, Eq, Structural)]
pub enum AlignMethod {
    /// Center both images in the common canvas.
    Center,
    /// Align both images at the top-left corner.
    CornerTopLeft,
}

/// A pixel is dark when it falls below the threshold.
pub open spec fn dark_at(data: Seq<u8>, w: int, x: int, y: int, threshold: u8) -> bool {
    &&& 0 <= x < w
    &&& 0 <= y
    &&& y * w + x < data.len()
    &&& data[y * w + x] < threshold
}

/// Whether any pixel of the image is dark.
pub open spec fn has_dark(data: Seq<u8>, w: int, threshold: u8) -> bool {
    exists|x: int, y: int| dark_at(data, w, x, y, threshold)
}

/// The number of bytes below a threshold.
pub open spec fn dark_count_of(data: Seq<u8>, threshold: u8) -> int
    decreases data.len(),
{
    if data.len() == 0 {
        0
    } else {
        dark_count_of(data.drop_last(), threshold) + if data.last() < threshold {
            1int
        } else {
            0int
        }
    }
}

/// Count dark pixels: the exact number of bytes below the threshold. The
/// density is this count over the buffer length.
pub fn dark_count(data: &[u8], threshold: u8) -> (r: u64)
    requires
        data@.len() <= 100000000,
    ensures
        r == dark_count_of(data@, threshold),
        r <= data@.len(),
{
    let n = data.len();
    let mut count: u64 = 0;
    proof {
        assert(data@.take(0) =~= Seq::<u8>::empty());
    }
    let mut i: usize = 0;
    while i < n
        invariant
            i <= n,
            n == data@.len(),
            n <= 100000000,
            count == dark_count_of(data@.take(i as int), threshold),
            count <= i,
        decreases n - i,
    {
        proof {
            assert(data@.take(i as int + 1).drop_last() =~= data@.take(i as int));
            lemma_dark_count_bounds(data@.take(i as int), threshold);
        }
        if data[i] < threshold {
            count = count + 1;
        }
        i = i + 1;
    }
    proof {
        assert(data@.take(n as int) =~= data@);
    }
    count
}

/// Dark counts never exceed the scanned length.
proof fn lemma_dark_count_bounds(data: Seq<u8>, threshold: u8)
    ensures
        0 <= dark_count_of(data, threshold) <= data.len(),
    decreases data.len(),
{
    if data.len() > 0 {
        lemma_dark_count_bounds(data.drop_last(), threshold);
    }
}

/// The bounding box `r` is correct: nothing when no pixel is dark,
/// otherwise the inclusive corner coordinates of the smallest rectangle
/// holding every dark pixel.
pub open spec fn dark_bbox_ok(
    data: Seq<u8>,
    w: int,
    threshold: u8,
    r: Option<(u32, u32, u32, u32)>,
) -> bool {
    match r {
        None => !has_dark(data, w, threshold),
        Some((min_x, min_y, max_x, max_y)) => {
            &&& min_x <= max_x
            &&& min_y <= max_y
            &&& (exists|j: int| dark_at(data, w, min_x as int, j, threshold))
            &&& (exists|j: int| dark_at(data, w, max_x as int, j, threshold))
            &&& (exists|i: int| dark_at(data, w, i, min_y as int, threshold))
            &&& (exists|i: int| dark_at(data, w, i, max_y as int, threshold))
            &&& forall|i: int, j: int|
                dark_at(data, w, i, j, threshold) ==> min_x <= i <= max_x && min_y <= j <= max_y
        },
    }
}

/// Find the bounding box of dark pixels: the inclusive corner coordinates
/// `(min_x, min_y, max_x, max_y)` of the smallest rectangle holding every
/// pixel below the threshold, or nothing when the image has none.
pub fn find_dark_bounding_box(data: &[u8], width: u32, height: u32, threshold: u8) -> (r: Option<
    (u32, u32, u32, u32),
>)
    requires
        1 <= width <= 10000,
        1 <= height <= 10000,
        data@.len() == width * height,
    ensures
        dark_bbox_ok(data@, width as int, threshold, r),
{
    let w = width;
    let h = height;
    proof {
        lemma_dims_product_bound(w as int, h as int);
    }
    let mut found = false;
    let mut min_x: u32 = 0;
    let mut max_x: u32 = 0;
    let mut min_y: u32 = 0;
    let mut max_y: u32 = 0;
    let mut y: u32 = 0;
    while y < h
        invariant
            y <= h,
            1 <= w <= 10000,
            1 <= h <= 10000,
            data@.len() == w * h,
            !found ==> forall|i: int, j: int|
                0 <= j < y ==> !dark_at(data@, w as int, i, j, threshold),
            found ==> min_x <= max_x < w && min_y <= max_y < y && y > 0,
            found ==> (exists|j: int| dark_at(data@, w as int, min_x as int, j, threshold)) && (
            exists|j: int| dark_at(data@, w as int, max_x as int, j, threshold)) && (exists|i: int|
                dark_at(data@, w as int, i, min_y as int, threshold)) && (exists|i: int|
                dark_at(data@, w as int, i, max_y as int, threshold)),
            found ==> forall|i: int, j: int|
                0 <= j < y && dark_at(data@, w as int, i, j, threshold) ==> min_x <= i <= max_x
                    && min_y <= j <= max_y,
        decreases h - y,
    {
        proof {
            lemma_rowmajor_bound(0, y as int, w as int, h as int);
            lemma_dims_product_bound(w as int, h as int);
        }
        let base: usize = (y as usize) * (w as usize);
        let mut x: u32 = 0;
        let mut row_found = false;
        let mut row_lo: u32 = 0;
        let mut row_hi: u32 = 0;
        while x < w
            invariant
                x <= w,
                1 <= w <= 10000,
                1 <= h <= 10000,
                y < h,
                data@.len() == w * h,
                base == (y as int) * (w as int),
                !row_found ==> forall|i: int|
                    0 <= i < x ==> !dark_at(data@, w as int, i, y as int, threshold),
                row_found ==> row_lo <= row_hi < x && dark_at(
                    data@,
                    w as int,
                    row_lo as int,
                    y as int,
                    threshold,
                ) && dark_at(data@, w as int, row_hi as int, y as int, threshold),
                row_found ==> forall|i: int|
                    0 <= i < x && dark_at(data@, w as int, i, y as int, threshold) ==> row_lo <= i
                        <= row_hi,
            decreases w - x,
        {
            proof {
                lemma_rowmajor_bound(x as int, y as int, w as int, h as int);
                lemma_dims_product_bound(w as int, h as int);
            }
            let v = data[base + (x as usize)];
            if v < threshold {
                proof {
                    assert(dark_at(data@, w as int, x as int, y as int, threshold));
                }
                if !row_found {
                    row_found = true;
                    row_lo = x;
                    row_hi = x;
                } else {
                    row_hi = x;
                }
            }
            x = x + 1;
        }
        if row_found {
            if !found {
                found = true;
                min_x = row_lo;
                max_x = row_hi;
                min_y = y;
                max_y = y;
            } else {
                if row_lo < min_x {
                    min_x = row_lo;
                }
                if row_hi > max_x {
                    max_x = row_hi;
                }
                max_y = y;
            }
        }
        y = y + 1;
    }
    if found {
        proof {
            assert forall|i: int, j: int|
                dark_at(data@, w as int, i, j, threshold) implies j < h as int by {
                if j >= h {
                    assert(j * w >= h * w) by (nonlinear_arith)
                        requires
                            j >= h as int && w as int > 0,
                    ;
                }
            }
        }
        Some((min_x, min_y, max_x, max_y))
    } else {
        proof {
            if has_dark(data@, w as int, threshold) {
                let (i, j) = choose|i: int, j: int| dark_at(data@, w as int, i, j, threshold);
                assert(j < h) by {
                    if j >= h {
                        assert(j * w >= h * w) by (nonlinear_arith)
                            requires
                                j >= h && w > 0,
                        ;
                    }
                }
                assert(!dark_at(data@, w as int, i, j, threshold));
            }
        }
        None
    }
}

/// The width and height of a dark bounding box as an exact ratio pair; an
/// empty image counts as square.
pub fn aspect_parts(bbox: Option<(u32, u32, u32, u32)>) -> (r: (u32, u32))
    requires
        bbox matches Some((a, b, c, d)) ==> a <= c < 10000 && b <= d < 10000,
    ensures
        r == match bbox {
            Some((min_x, min_y, max_x, max_y)) => ((max_x - min_x + 1) as u32, (max_y - min_y
                + 1) as u32),
            None => (1u32, 1u32),
        },
{
    match bbox {
        Some((min_x, min_y, max_x, max_y)) => (max_x - min_x + 1, max_y - min_y + 1),
        None => (1, 1),
    }
}

/// Sum of absolute pixel differences over two equally long buffers, or
/// nothing when the lengths differ. The mean delta is this sum over the
/// length.
pub fn sum_abs_diff(a: &Vec<u8>, b: &Vec<u8>) -> (r: Option<u64>)
    requires
        a@.len() <= 100000000,
    ensures
        r is Some <==> a@.len() == b@.len(),
        r matches Some(d) ==> d == abs_diff_sum(a@, b@),
{
    if a.len() != b.len() {
        return None;
    }
    let n = a.len();
    let mut sum: u64 = 0;
    proof {
        assert(a@.take(0) =~= Seq::<u8>::empty());
        assert(b@.take(0) =~= Seq::<u8>::empty());
    }
    let mut i: usize = 0;
    while i < n
        invariant
            i <= n,
            n == a@.len(),
            n == b@.len(),
            n <= 100000000,
            sum == abs_diff_sum(a@.take(i as int), b@.take(i as int)),
            sum <= 255 * i,
        decreases n - i,
    {
        proof {
            assert(a@.take(i as int + 1).drop_last() =~= a@.take(i as int));
            assert(b@.take(i as int + 1).drop_last() =~= b@.take(i as int));
            crate::render::lemma_abs_diff_sum_bounds(a@.take(i as int), b@.take(i as int));
        }
        let x = a[i];
        let z = b[i];
        let d = if x >= z {
            x - z
        } else {
            z - x
        };
        sum = sum + (d as u64);
        i = i + 1;
    }
    proof {
        assert(a@.take(n as int) =~= a@);
        assert(b@.take(n as int) =~= b@);
    }
    Some(sum)
}

/// A point lies in the half-open rectangle at `(ox, oy)` of extent
/// `sw * sh`.
pub open spec fn in_rect(ox: int, oy: int, sw: int, sh: int, x: int, y: int) -> bool {
    ox <= x < ox + sw && oy <= y < oy + sh
}

/// The offset at which an image of extent `src` is placed inside a target
/// extent: centered, or flush at the origin.
pub open spec fn place_offset(method: AlignMethod, target: int, src: int) -> int {
    match method {
        AlignMethod::Center => (target - src) / 2,
        AlignMethod::CornerTopLeft => 0,
    }
}

/// One pixel of an aligned canvas: the source pixel where the placed image
/// covers it, white everywhere else.
pub open spec fn aligned_px(
    src: Seq<u8>,
    sw: int,
    sh: int,
    tw: int,
    ox: int,
    oy: int,
    x: int,
    y: int,
) -> u8 {
    if ox <= x < ox + sw && oy <= y < oy + sh {
        src[(y - oy) * sw + (x - ox)]
    } else {
        255
    }
}

/// Pad an image onto a white canvas of the target extent at the given
/// offset: every covered pixel is copied, every other pixel is white.
pub fn place_on_canvas(
    src: &Vec<u8>,
    sw: u32,
    sh: u32,
    tw: u32,
    th: u32,
    ox: u32,
    oy: u32,
) -> (r: Vec<u8>)
    requires
        1 <= sw <= 10000,
        1 <= sh <= 10000,
        1 <= tw <= 10000,
        1 <= th <= 10000,
        src@.len() == sw * sh,
        ox + sw <= tw,
        oy + sh <= th,
    ensures
        r@.len() == tw * th,
        forall|x: int, y: int|
            0 <= x < tw && 0 <= y < th ==> r@[y * tw + x] == aligned_px(
                src@,
                sw as int,
                sh as int,
                tw as int,
                ox as int,
                oy as int,
                x,
                y,
            ),
{
    proof {
        lemma_dims_product_bound(tw as int, th as int);
        lemma_dims_product_bound(sw as int, sh as int);
    }
    let mut out: Vec<u8> = Vec::new();
    let mut y: u32 = 0;
    while y < th
        invariant
            y <= th,
            1 <= sw <= 10000,
            1 <= sh <= 10000,
            1 <= tw <= 10000,
            1 <= th <= 10000,
            src@.len() == sw * sh,
            ox + sw <= tw,
            oy + sh <= th,
            out@.len() == (y as int) * (tw as int),
            forall|a: int, b: int|
                0 <= a < tw && 0 <= b < y ==> out@[b * tw + a] == aligned_px(
                    src@,
                    sw as int,
                    sh as int,
                    tw as int,
                    ox as int,
                    oy as int,
                    a,
                    b,
                ),
        decreases th - y,
    {
        let mut x: u32 = 0;
        while x < tw
            invariant
                x <= tw,
                y < th,
                1 <= sw <= 10000,
                1 <= sh <= 10000,
                1 <= tw <= 10000,
                1 <= th <= 10000,
                src@.len() == sw * sh,
                ox + sw <= tw,
                oy + sh <= th,
                out@.len() == (y as int) * (tw as int) + (x as int),
                forall|a: int, b: int|
                    0 <= a < tw && 0 <= b < y ==> out@[b * tw + a] == aligned_px(
                        src@,
                        sw as int,
                        sh as int,
                        tw as int,
                        ox as int,
                        oy as int,
                        a,
                        b,
                    ),
                forall|a: int|
                    0 <= a < x ==> out@[(y as int) * (tw as int) + a] == aligned_px(
                        src@,
                        sw as int,
                        sh as int,
                        tw as int,
                        ox as int,
                        oy as int,
                        a,
                        y as int,
                    ),
            decreases tw - x,
        {
            proof {
                lemma_rowmajor_bound(x as int, y as int, tw as int, th as int);
                lemma_dims_product_bound(tw as int, th as int);
                lemma_dims_product_bound(sw as int, sh as int);
                if oy <= y && (y as int) < oy + sh && ox <= x && (x as int) < ox + sw {
                    lemma_rowmajor_bound(
                        x as int - ox as int,
                        y as int - oy as int,
                        sw as int,
                        sh as int,
                    );
                }
            }
            let v: u8 = if oy <= y && y < oy + sh && ox <= x && x < ox + sw {
                src[((y - oy) as usize) * (sw as usize) + ((x - ox) as usize)]
            } else {
                255
            };
            out.push(v);
            proof {
                assert forall|a: int, b: int|
                    0 <= a < tw && 0 <= b < y implies out@[b * (tw as int) + a] == aligned_px(
                    src@,
                    sw as int,
                    sh as int,
                    tw as int,
                    ox as int,
                    oy as int,
                    a,
                    b,
                ) by {
                    assert(0 <= b * (tw as int) + a && b * (tw as int) + a < (y as int) * (
                    tw as int)) by (nonlinear_arith)
                        requires
                            0 <= a < tw as int && 0 <= b < y as int,
                    ;
                }
            }
            x = x + 1;
        }
        proof {
            assert(((y + 1) as int) * (tw as int) == (y as int) * (tw as int) + (tw as int))
                by (nonlinear_arith);
            assert forall|a: int, b: int|
                0 <= a < tw && 0 <= b < y + 1 implies out@[b * tw + a] == aligned_px(
                src@,
                sw as int,
                sh as int,
                tw as int,
                ox as int,
                oy as int,
                a,
                b,
            ) by {
                if b == y as int {
                    assert(out@[(y as int) * (tw as int) + a] == aligned_px(
                        src@,
                        sw as int,
                        sh as int,
                        tw as int,
                        ox as int,
                        oy as int,
                        a,
                        y as int,
                    ));
                }
            }
        }
        y = y + 1;
    }
    proof {
        assert(out@.len() == (th as int) * (tw as int));
        assert((th as int) * (tw as int) == (tw as int) * (th as int)) by (nonlinear_arith);
    }
    out
}

/// Aligned images with their exact comparison parts. The float metrics the
/// matcher consumes — mean delta, densities, aspects — are the listed
/// integer parts divided at the boundary.
pub struct AlignCompareResult {
    /// Image A padded onto the common canvas.
    pub aligned_a: Vec<u8>,
    /// Image B padded onto the common canvas.
    pub aligned_b: Vec<u8>,
    /// Common canvas width.
    pub width: u32,
    /// Common canvas height.
    pub height: u32,
    /// Sum of absolute pixel differences over the aligned canvases; the
    /// mean delta is this over `width * height`.
    pub delta_sum: u64,
    /// Dark pixels in the original image A; density is this over A's size.
    pub dark_a: u64,
    /// Dark pixels in the original image B.
    pub dark_b: u64,
    /// Dark bounding box of image A.
    pub bbox_a: Option<(u32, u32, u32, u32)>,
    /// Dark bounding box of image B.
    pub bbox_b: Option<(u32, u32, u32, u32)>,
}

/// Align two grayscale images on a common white canvas and compute the
/// exact comparison parts: dark counts and boxes of the originals, and the
/// absolute-difference sum of the aligned canvases. The dark threshold is
/// 128: at or above is background, below is ink.
pub fn align_and_compare(
    data_a: &Vec<u8>,
    width_a: u32,
    height_a: u32,
    data_b: &Vec<u8>,
    width_b: u32,
    height_b: u32,
    method: AlignMethod,
) -> (r: AlignCompareResult)
    requires
        1 <= width_a <= 10000,
        1 <= height_a <= 10000,
        1 <= width_b <= 10000,
        1 <= height_b <= 10000,
        data_a@.len() == width_a * height_a,
        data_b@.len() == width_b * height_b,
    ensures
        r.width == vstd::math::max(width_a as int, width_b as int),
        r.height == vstd::math::max(height_a as int, height_b as int),
        r.aligned_a@.len() == r.width * r.height,
        r.aligned_b@.len() == r.width * r.height,
        r.delta_sum == abs_diff_sum(r.aligned_a@, r.aligned_b@),
        r.dark_a == dark_count_of(data_a@, 128),
        r.dark_b == dark_count_of(data_b@, 128),
        dark_bbox_ok(data_a@, width_a as int, 128, r.bbox_a),
        dark_bbox_ok(data_b@, width_b as int, 128, r.bbox_b),
        forall|x: int, y: int|
            0 <= x < r.width && 0 <= y < r.height ==> r.aligned_a@[y * r.width + x] == aligned_px(
                data_a@,
                width_a as int,
                height_a as int,
                r.width as int,
                place_offset(method, r.width as int, width_a as int),
                place_offset(method, r.height as int, height_a as int),
                x,
                y,
            ),
        forall|x: int, y: int|
            0 <= x < r.width && 0 <= y < r.height ==> r.aligned_b@[y * r.width + x] == aligned_px(
                data_b@,
                width_b as int,
                height_b as int,
                r.width as int,
                place_offset(method, r.width as int, width_b as int),
                place_offset(method, r.height as int, height_b as int),
                x,
                y,
            ),
{
    let bbox_a = find_dark_bounding_box(data_a.as_slice(), width_a, height_a, 128);
    let bbox_b = find_dark_bounding_box(data_b.as_slice(), width_b, height_b, 128);
    proof {
        lemma_dims_product_bound(width_a as int, height_a as int);
        lemma_dims_product_bound(width_b as int, height_b as int);
    }
    let dark_a = dark_count(data_a.as_slice(), 128);
    let dark_b = dark_count(data_b.as_slice(), 128);
    let tw = if width_a >= width_b {
        width_a
    } else {
        width_b
    };
    let th = if height_a >= height_b {
        height_a
    } else {
        height_b
    };
    let (oax, oay) = match method {
        AlignMethod::Center => ((tw - width_a) / 2, (th - height_a) / 2),
        AlignMethod::CornerTopLeft => (0, 0),
    };
    let (obx, oby) = match method {
        AlignMethod::Center => ((tw - width_b) / 2, (th - height_b) / 2),
        AlignMethod::CornerTopLeft => (0, 0),
    };
    let aligned_a = place_on_canvas(data_a, width_a, height_a, tw, th, oax, oay);
    let aligned_b = place_on_canvas(data_b, width_b, height_b, tw, th, obx, oby);
    proof {
        lemma_dims_product_bound(tw as int, th as int);
    }
    let delta_sum = match sum_abs_diff(&aligned_a, &aligned_b) {
        Some(d) => d,
        None => {
            proof {
                assert(false);
            }
            0
        },
    };
    AlignCompareResult {
        aligned_a,
        aligned_b,
        width: tw,
        height: th,
        delta_sum,
        dark_a,
        dark_b,
        bbox_a,
        bbox_b,
    }
}

} // verus!
