//! Geometric fit: a uniform scale factor so a source image fits within target
//! bounds without exceeding them — an "only shrink to fit, never enlarge"
//! policy. The factor is 1 unless the source exceeds the target in some axis,
//! in which case it is min(targetWidth/sourceWidth, targetHeight/sourceHeight);
//! the new dimensions are the source's scaled by the factor and truncated.

use vstd::prelude::*;
use vstd::arithmetic::div_mod::{lemma_div_is_ordered, lemma_div_multiples_vanish};
use crate::codec::{image_dimensions, image_resize_exact, image_view};
use crate::tensor::width_of;

verus! {

/// Width after fitting a source of (sw, sh) into target bounds (tw, th).
/// The comparison tw * sh <= th * sw decides which axis limits the scale:
/// it is tw / sw <= th / sh written without fractions.
pub open spec fn fit_width(sw: int, sh: int, tw: int, th: int) -> int {
    if sw <= tw && sh <= th {
        sw
    } else if tw * sh <= th * sw {
        tw
    } else {
        (sw * th) / sh
    }
}

/// Height after fitting a source of (sw, sh) into target bounds (tw, th).
pub open spec fn fit_height(sw: int, sh: int, tw: int, th: int) -> int {
    if sw <= tw && sh <= th {
        sh
    } else if tw * sh <= th * sw {
        (sh * tw) / sw
    } else {
        th
    }
}

/// Law: the fit never upscales — a source no larger than the target in both
/// axes keeps exactly its dimensions.
pub proof fn lemma_fit_never_upscales(sw: int, sh: int, tw: int, th: int)
    requires
        1 <= sw <= tw,
        1 <= sh <= th,
    ensures
        fit_width(sw, sh, tw, th) == sw,
        fit_height(sw, sh, tw, th) == sh,
{
}

/// Law: the fit only shrinks — the fitted dimensions never exceed the
/// source's, whatever the target bounds.
pub proof fn lemma_fit_only_shrinks(sw: int, sh: int, tw: int, th: int)
    requires
        1 <= sw,
        1 <= sh,
        0 <= tw,
        0 <= th,
    ensures
        fit_width(sw, sh, tw, th) <= sw,
        fit_height(sw, sh, tw, th) <= sh,
{
    if sw <= tw && sh <= th {
    } else if tw * sh <= th * sw {
        // the width axis limits the scale, so the factor tw / sw is at most 1
        if tw > sw {
            assert(sh > th);
            assert(false) by (nonlinear_arith)
                requires
                    tw * sh <= th * sw,
                    th < sh,
                    sw < tw,
                    1 <= sw,
                    1 <= sh,
            ;
        }
        assert(sh * tw <= sh * sw) by (nonlinear_arith)
            requires
                tw <= sw,
                0 <= sh,
        ;
        lemma_div_is_ordered(sh * tw, sh * sw, sw);
        lemma_div_multiples_vanish(sh, sw);
        assert(sh * sw == sw * sh) by (nonlinear_arith);
        assert((sh * sw) / sw == sh);
        assert(fit_height(sw, sh, tw, th) <= sh);
    } else {
        if th > sh {
            assert(sw > tw);
            assert(false) by (nonlinear_arith)
                requires
                    th * sw < tw * sh,
                    tw < sw,
                    sh < th,
                    1 <= sw,
                    1 <= sh,
            ;
        }
        assert(sw * th <= sw * sh) by (nonlinear_arith)
            requires
                th <= sh,
                0 <= sw,
        ;
        lemma_div_is_ordered(sw * th, sw * sh, sh);
        lemma_div_multiples_vanish(sw, sh);
        assert(sw * sh == sh * sw) by (nonlinear_arith);
        assert((sw * sh) / sh == sw);
        assert(fit_width(sw, sh, tw, th) <= sw);
    }
}

/// Law: the fitted dimensions never exceed the target bounds.
pub proof fn lemma_fit_within_target(sw: int, sh: int, tw: int, th: int)
    requires
        1 <= sw,
        1 <= sh,
        0 <= tw,
        0 <= th,
    ensures
        fit_width(sw, sh, tw, th) <= tw,
        fit_height(sw, sh, tw, th) <= th,
{
    if sw <= tw && sh <= th {
    } else if tw * sh <= th * sw {
        lemma_div_is_ordered(sh * tw, th * sw, sw);
        lemma_div_multiples_vanish(th, sw);
        assert((sw * th) / sw == th);
    } else {
        lemma_div_is_ordered(sw * th, tw * sh, sh);
        lemma_div_multiples_vanish(tw, sh);
        assert((sh * tw) / sh == tw);
    }
}

/// The product of two 32-bit quantities stays within 64 bits.
proof fn lemma_u32_mul_fits(a: int, b: int)
    requires
        0 <= a < 0x1_0000_0000,
        0 <= b < 0x1_0000_0000,
    ensures
        0 <= a * b <= 0xFFFF_FFFF * 0xFFFF_FFFF,
{
    assert(0 <= a * b <= 0xFFFF_FFFF * 0xFFFF_FFFF) by (nonlinear_arith)
        requires
            0 <= a < 0x1_0000_0000,
            0 <= b < 0x1_0000_0000,
    ;
}

/// The fitted dimensions, computed exactly in integer arithmetic.
pub fn fit_dimensions(sw: u32, sh: u32, tw: u32, th: u32) -> (r: (u32, u32))
    requires
        1 <= sw,
        1 <= sh,
    ensures
        r.0 == fit_width(sw as int, sh as int, tw as int, th as int),
        r.1 == fit_height(sw as int, sh as int, tw as int, th as int),
{
    if sw <= tw && sh <= th {
        (sw, sh)
    } else {
        proof {
            lemma_u32_mul_fits(tw as int, sh as int);
            lemma_u32_mul_fits(th as int, sw as int);
            lemma_u32_mul_fits(sh as int, tw as int);
            lemma_u32_mul_fits(sw as int, th as int);
        }
        let cross_a: u64 = (tw as u64) * (sh as u64);
        let cross_b: u64 = (th as u64) * (sw as u64);
        if cross_a <= cross_b {
            let nh: u64 = ((sh as u64) * (tw as u64)) / (sw as u64);
            proof {
                lemma_div_is_ordered(sh as int * tw as int, th as int * sw as int, sw as int);
                lemma_div_multiples_vanish(th as int, sw as int);
                assert((sw as int * th as int) / (sw as int) == th as int);
            }
            (tw, nh as u32)
        } else {
            let nw: u64 = ((sw as u64) * (th as u64)) / (sh as u64);
            proof {
                lemma_div_is_ordered(sw as int * th as int, tw as int * sh as int, sh as int);
                lemma_div_multiples_vanish(tw as int, sh as int);
                assert((sh as int * tw as int) / (sh as int) == tw as int);
            }
            (nw as u32, th)
        }
    }
}

/// Scales the first image to fit within the second image's bounds, never
/// enlarging it; the resampling itself is delegated to the codec.
pub fn fit_center(image1: &image::DynamicImage, image2: &image::DynamicImage) -> (r:
    image::DynamicImage)
    requires
        image_view(*image1).len() >= 1,
        image_view(*image1)[0].len() >= 1,
        image_view(*image2).len() >= 1,
        image_view(*image2)[0].len() >= 1,
    ensures
        image_view(r).len() == fit_height(
            width_of(image_view(*image1)),
            image_view(*image1).len() as int,
            width_of(image_view(*image2)),
            image_view(*image2).len() as int,
        ),
        forall|y: int|
            0 <= y < image_view(r).len() ==> (#[trigger] image_view(r)[y]).len() == fit_width(
                width_of(image_view(*image1)),
                image_view(*image1).len() as int,
                width_of(image_view(*image2)),
                image_view(*image2).len() as int,
            ),
{
    let d1 = image_dimensions(image1);
    let d2 = image_dimensions(image2);
    let dims = fit_dimensions(d1.0, d1.1, d2.0, d2.1);
    image_resize_exact(image1, dims.0, dims.1)
}

/// Page bounds for placing an image on an A4 page (210 mm by 297 mm) at
/// 300 dots per inch.
pub const PAGE_WIDTH_PX: u32 = 2480;

pub const PAGE_HEIGHT_PX: u32 = 3507;

/// Placement of an image on the page: the dimensions after fitting the image
/// within the page bounds (never enlarged) and the centering offsets, all in
/// pixels.
pub fn page_placement(w: u32, h: u32) -> (r: (u32, u32, u32, u32))
    requires
        1 <= w,
        1 <= h,
    ensures
        r.0 == fit_width(w as int, h as int, PAGE_WIDTH_PX as int, PAGE_HEIGHT_PX as int),
        r.1 == fit_height(w as int, h as int, PAGE_WIDTH_PX as int, PAGE_HEIGHT_PX as int),
        r.0 <= PAGE_WIDTH_PX,
        r.1 <= PAGE_HEIGHT_PX,
        r.2 == (PAGE_WIDTH_PX - r.0) / 2,
        r.3 == (PAGE_HEIGHT_PX - r.1) / 2,
{
    proof {
        lemma_fit_within_target(w as int, h as int, PAGE_WIDTH_PX as int, PAGE_HEIGHT_PX as int);
    }
    let dims = fit_dimensions(w, h, PAGE_WIDTH_PX, PAGE_HEIGHT_PX);
    let tx = (PAGE_WIDTH_PX - dims.0) / 2;
    let ty = (PAGE_HEIGHT_PX - dims.1) / 2;
    (dims.0, dims.1, tx, ty)
}

} // verus!
