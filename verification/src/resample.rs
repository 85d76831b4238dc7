//! Resampler: bilinear interpolation resize operating directly on tensors.
//!
//! Each destination pixel (x, y) maps to the continuous source coordinates
//! (x * oldWidth / newWidth, y * oldHeight / newHeight), split into an integer
//! part and a remainder; its channels are the standard bilinear blend of the
//! four surrounding source pixels, computed exactly in fixed point. A
//! destination whose integer part falls on the last source row or column (or
//! beyond) is left at its zero-initialized value — fully transparent black —
//! rather than clamped; the rightmost and bottommost destinations are thereby
//! dropped. This reproduces the engine's boundary policy exactly.

use vstd::prelude::*;
use vstd::arithmetic::div_mod::{
    lemma_div_is_ordered, lemma_div_multiples_vanish, lemma_div_pos_is_pos,
};
use crate::tensor::{lemma_deep_index, wf, width_of, PixelTensor, TensorView, CHANNEL_MAX};

verus! {

/// Largest dimension the resampler accepts: keeps every blend term within
/// 64-bit arithmetic.
pub const MAX_DIM: usize = 32768;

/// One destination channel of the bilinear resize of `t` to `nw` by `nh`.
/// The remainders `rx`, `ry` are the fractional parts of the source
/// coordinates scaled by `nw` and `nh`, so the four weights sum to `nw * nh`
/// and the division truncates the exact rational blend into fixed point.
pub open spec fn sample_channel(t: TensorView, nw: int, nh: int, x: int, y: int, c: int) -> int {
    let ow = width_of(t);
    let oh = t.len() as int;
    let x0 = (x * ow) / nw;
    let y0 = (y * oh) / nh;
    let rx = (x * ow) % nw;
    let ry = (y * oh) % nh;
    if x0 + 1 < ow && y0 + 1 < oh {
        ((nw - rx) * (nh - ry) * (t[y0][x0][c] as int) + rx * (nh - ry) * (t[y0][x0 + 1][c] as int)
            + (nw - rx) * ry * (t[y0 + 1][x0][c] as int) + rx * ry * (t[y0 + 1][x0 + 1][c] as int))
            / (nw * nh)
    } else {
        0
    }
}

/// The full bilinear resize of `t` to `nw` by `nh`, channel by channel.
pub open spec fn resized(t: TensorView, nw: int, nh: int) -> TensorView {
    Seq::new(
        nh as nat,
        |y: int|
            Seq::new(
                nw as nat,
                |x: int| Seq::new(4, |c: int| sample_channel(t, nw, nh, x, y, c) as u64),
            ),
    )
}

/// Law: resizing to the tensor's own dimensions leaves every interior pixel
/// unchanged; only destinations mapped to the last source row or column are
/// dropped by the boundary policy.
pub proof fn lemma_resize_identity(t: TensorView, x: int, y: int, c: int)
    requires
        0 <= x,
        x + 1 < width_of(t),
        0 <= y,
        y + 1 < t.len(),
    ensures
        sample_channel(t, width_of(t), t.len() as int, x, y, c) == t[y][x][c],
{
    let ow = width_of(t);
    let oh = t.len() as int;
    vstd::arithmetic::div_mod::lemma_div_by_multiple(x, ow);
    vstd::arithmetic::div_mod::lemma_div_by_multiple(y, oh);
    vstd::arithmetic::div_mod::lemma_mod_multiples_basic(x, ow);
    vstd::arithmetic::div_mod::lemma_mod_multiples_basic(y, oh);
    assert((x * ow) / ow == x && (y * oh) / oh == y);
    assert((x * ow) % ow == 0 && (y * oh) % oh == 0);
    let v = t[y][x][c] as int;
    assert(sample_channel(t, ow, oh, x, y, c) == (ow * oh * v) / (ow * oh));
    assert(ow * oh > 0) by (nonlinear_arith)
        requires
            ow > 0,
            oh > 0,
    ;
    lemma_div_multiples_vanish(v, ow * oh);
    assert((ow * oh) * v == ow * oh * v);
}

/// The product of two quantities bounded by the given maxima is bounded by
/// the maxima's product.
proof fn lemma_mul_le(a: int, amax: int, b: int, bmax: int)
    requires
        0 <= a <= amax,
        0 <= b <= bmax,
    ensures
        0 <= a * b <= amax * bmax,
{
    assert(0 <= a * b <= amax * bmax) by (nonlinear_arith)
        requires
            0 <= a <= amax,
            0 <= b <= bmax,
    ;
}

/// The bilinear blend of four bounded channels stays bounded: the four
/// weights sum to `nw * nh`, so the truncated quotient never exceeds the
/// largest input channel bound.
proof fn lemma_sample_bounds(
    p00: int,
    p10: int,
    p01: int,
    p11: int,
    nw: int,
    nh: int,
    rx: int,
    ry: int,
)
    requires
        0 <= rx < nw,
        0 <= ry < nh,
        nw <= MAX_DIM,
        nh <= MAX_DIM,
        0 <= p00 <= CHANNEL_MAX,
        0 <= p10 <= CHANNEL_MAX,
        0 <= p01 <= CHANNEL_MAX,
        0 <= p11 <= CHANNEL_MAX,
    ensures
        0 <= (nw - rx) * (nh - ry) * p00 + rx * (nh - ry) * p10 + (nw - rx) * ry * p01 + rx * ry
            * p11 <= nw * nh * CHANNEL_MAX,
        nw * nh * CHANNEL_MAX <= MAX_DIM * MAX_DIM * CHANNEL_MAX,
        0 <= ((nw - rx) * (nh - ry) * p00 + rx * (nh - ry) * p10 + (nw - rx) * ry * p01 + rx * ry
            * p11) / (nw * nh) <= CHANNEL_MAX,
{
    let m = CHANNEL_MAX as int;
    let w00 = (nw - rx) * (nh - ry);
    let w10 = rx * (nh - ry);
    let w01 = (nw - rx) * ry;
    let w11 = rx * ry;
    assert(0 <= w00 && 0 <= w10 && 0 <= w01 && 0 <= w11 && w00 + w10 + w01 + w11 == nw * nh && 0
        < nw * nh && nw * nh <= MAX_DIM * MAX_DIM) by (nonlinear_arith)
        requires
            w00 == (nw - rx) * (nh - ry),
            w10 == rx * (nh - ry),
            w01 == (nw - rx) * ry,
            w11 == rx * ry,
            0 <= rx < nw,
            0 <= ry < nh,
            nw <= MAX_DIM,
            nh <= MAX_DIM,
    ;
    assert(0 <= w00 * p00 <= w00 * m) by (nonlinear_arith)
        requires
            0 <= w00,
            0 <= p00 <= m,
    ;
    assert(0 <= w10 * p10 <= w10 * m) by (nonlinear_arith)
        requires
            0 <= w10,
            0 <= p10 <= m,
    ;
    assert(0 <= w01 * p01 <= w01 * m) by (nonlinear_arith)
        requires
            0 <= w01,
            0 <= p01 <= m,
    ;
    assert(0 <= w11 * p11 <= w11 * m) by (nonlinear_arith)
        requires
            0 <= w11,
            0 <= p11 <= m,
    ;
    assert(w00 * m + w10 * m + w01 * m + w11 * m == (w00 + w10 + w01 + w11) * m)
        by (nonlinear_arith);
    let sum = w00 * p00 + w10 * p10 + w01 * p01 + w11 * p11;
    assert((nw * nh) * m == nw * nh * m);
    assert(0 <= sum <= nw * nh * m);
    assert(nw * nh * m <= MAX_DIM * MAX_DIM * m) by (nonlinear_arith)
        requires
            0 < nw * nh <= MAX_DIM * MAX_DIM,
            0 <= m,
    ;
    lemma_div_is_ordered(0, sum, nw * nh);
    lemma_div_is_ordered(sum, nw * nh * m, nw * nh);
    lemma_div_multiples_vanish(m, nw * nh);
}

/// In-place replacement of the tensor's contents with a bilinearly resampled
/// version at the new dimensions.
#[verifier::loop_isolation(false)]
pub fn resize(tensor: &mut PixelTensor, width: usize, height: usize)
    requires
        old(tensor)@.len() > 0,
        wf(old(tensor).deep_view()),
        old(tensor)@.len() <= MAX_DIM,
        width_of(old(tensor).deep_view()) <= MAX_DIM,
        width <= MAX_DIM,
        height <= MAX_DIM,
    ensures
        final(tensor).deep_view() == resized(
            old(tensor).deep_view(),
            width as int,
            height as int,
        ),
        wf(final(tensor).deep_view()),
{
    proof {
        lemma_deep_index(*tensor);
    }
    let ghost src: TensorView = tensor.deep_view();
    let ghost goal: TensorView = resized(src, width as int, height as int);
    let old_width = tensor[0].len();
    let old_height = tensor.len();
    let mut temp: PixelTensor = Vec::new();
    let mut y: usize = 0;
    while y < height
        invariant
            y <= height,
            temp@.len() == y,
            forall|j: int| 0 <= j < y ==> #[trigger] temp.deep_view()[j] == goal[j],
        decreases height - y,
    {
        let ghost prev = temp.deep_view();
        proof {
            lemma_mul_le(y as int, MAX_DIM as int, old_height as int, MAX_DIM as int);
        }
        let sy = y * old_height;
        let y0 = sy / height;
        let ry = sy % height;
        proof {
            lemma_div_pos_is_pos(sy as int, height as int);
        }
        let mut row: Vec<Vec<u64>> = Vec::new();
        let mut x: usize = 0;
        while x < width
            invariant
                x <= width,
                row@.len() == x,
                forall|i: int| 0 <= i < x ==> #[trigger] row.deep_view()[i] == goal[y as int][i],
            decreases width - x,
        {
            let ghost prev_row = row.deep_view();
            proof {
                lemma_mul_le(x as int, MAX_DIM as int, old_width as int, MAX_DIM as int);
            }
            let sx = x * old_width;
            let x0 = sx / width;
            let rx = sx % width;
            proof {
                lemma_div_pos_is_pos(sx as int, width as int);
            }
            let mut pixel: Vec<u64> = Vec::new();
            if x0 + 1 < old_width && y0 + 1 < old_height {
                proof {
                    lemma_mul_le(width as int, MAX_DIM as int, height as int, MAX_DIM as int);
                }
                let weight_x0: u64 = (width - rx) as u64;
                let weight_x1: u64 = rx as u64;
                let weight_y0: u64 = (height - ry) as u64;
                let weight_y1: u64 = ry as u64;
                proof {
                    assert(width as int * height as int > 0) by (nonlinear_arith)
                        requires
                            width >= 1,
                            height >= 1,
                    ;
                }
                let quot: u64 = (width as u64) * (height as u64);
                let mut c: usize = 0;
                while c < 4
                    invariant
                        c <= 4,
                        pixel@.len() == c,
                        x0 + 1 < old_width,
                        y0 + 1 < old_height,
                        forall|k: int|
                            0 <= k < c ==> #[trigger] pixel@[k] == goal[y as int][x as int][k],
                    decreases 4 - c,
                {
                    let p00: u64 = tensor[y0][x0][c];
                    let p10: u64 = tensor[y0][x0 + 1][c];
                    let p01: u64 = tensor[y0 + 1][x0][c];
                    let p11: u64 = tensor[y0 + 1][x0 + 1][c];
                    proof {
                        assert(p00 == src[y0 as int][x0 as int][c as int]);
                        assert(p10 == src[y0 as int][x0 as int + 1][c as int]);
                        assert(p01 == src[y0 as int + 1][x0 as int][c as int]);
                        assert(p11 == src[y0 as int + 1][x0 as int + 1][c as int]);
                        lemma_sample_bounds(
                            p00 as int,
                            p10 as int,
                            p01 as int,
                            p11 as int,
                            width as int,
                            height as int,
                            rx as int,
                            ry as int,
                        );
                        lemma_mul_le(
                            (width - rx) as int,
                            MAX_DIM as int,
                            (height - ry) as int,
                            MAX_DIM as int,
                        );
                        lemma_mul_le(rx as int, MAX_DIM as int, (height - ry) as int, MAX_DIM as int);
                        lemma_mul_le((width - rx) as int, MAX_DIM as int, ry as int, MAX_DIM as int);
                        lemma_mul_le(rx as int, MAX_DIM as int, ry as int, MAX_DIM as int);
                        lemma_mul_le(
                            ((width - rx) * (height - ry)) as int,
                            (MAX_DIM * MAX_DIM) as int,
                            p00 as int,
                            CHANNEL_MAX as int,
                        );
                        lemma_mul_le(
                            (rx * (height - ry)) as int,
                            (MAX_DIM * MAX_DIM) as int,
                            p10 as int,
                            CHANNEL_MAX as int,
                        );
                        lemma_mul_le(
                            ((width - rx) * ry) as int,
                            (MAX_DIM * MAX_DIM) as int,
                            p01 as int,
                            CHANNEL_MAX as int,
                        );
                        lemma_mul_le(
                            (rx * ry) as int,
                            (MAX_DIM * MAX_DIM) as int,
                            p11 as int,
                            CHANNEL_MAX as int,
                        );
                    }
                    let v: u64 = (weight_x0 * weight_y0 * p00 + weight_x1 * weight_y0 * p10
                        + weight_x0 * weight_y1 * p01 + weight_x1 * weight_y1 * p11) / quot;
                    proof {
                        assert(v as int == sample_channel(
                            src,
                            width as int,
                            height as int,
                            x as int,
                            y as int,
                            c as int,
                        ));
                        assert(goal[y as int][x as int][c as int] == v);
                    }
                    pixel.push(v);
                    c = c + 1;
                }
            } else {
                pixel.push(0);
                pixel.push(0);
                pixel.push(0);
                pixel.push(0);
                proof {
                    assert forall|k: int| 0 <= k < 4 implies #[trigger] pixel@[k]
                        == goal[y as int][x as int][k] by {
                        assert(sample_channel(
                            src,
                            width as int,
                            height as int,
                            x as int,
                            y as int,
                            k,
                        ) == 0);
                    }
                }
            }
            proof {
                assert(pixel.deep_view() =~= pixel@);
                assert(pixel@ =~= goal[y as int][x as int]);
            }
            row.push(pixel);
            proof {
                assert forall|i: int| 0 <= i < row@.len() implies #[trigger] row.deep_view()[i]
                    == goal[y as int][i] by {
                    assert(row.deep_view()[i] == row@[i].deep_view());
                    if i < row@.len() - 1 {
                        assert(row@[i].deep_view() == prev_row[i]);
                    } else {
                        assert(row@[i] == pixel);
                    }
                }
            }
            x = x + 1;
        }
        proof {
            assert(row.deep_view() =~= goal[y as int]);
        }
        temp.push(row);
        proof {
            assert forall|j: int| 0 <= j < temp@.len() implies #[trigger] temp.deep_view()[j]
                == goal[j] by {
                assert(temp.deep_view()[j] == temp@[j].deep_view());
                if j < temp@.len() - 1 {
                    assert(temp@[j].deep_view() == prev[j]);
                } else {
                    assert(temp@[j] == row);
                }
            }
        }
        y = y + 1;
    }
    *tensor = temp;
    proof {
        assert(tensor.deep_view() =~= goal);
        assert forall|j: int, i: int, k: int|
            0 <= j < goal.len() && 0 <= i < goal[j].len() && 0 <= k
                < goal[j][i].len() implies #[trigger] goal[j][i][k] <= CHANNEL_MAX by {
            let ow = width_of(src);
            let oh = src.len() as int;
            let x0 = (i * ow) / (width as int);
            let y0 = (j * oh) / (height as int);
            if x0 + 1 < ow && y0 + 1 < oh {
                vstd::arithmetic::div_mod::lemma_mod_bound(i * ow, width as int);
                vstd::arithmetic::div_mod::lemma_mod_bound(j * oh, height as int);
                lemma_mul_le(i, MAX_DIM as int, ow, MAX_DIM as int);
                lemma_mul_le(j, MAX_DIM as int, oh, MAX_DIM as int);
                lemma_div_pos_is_pos(i * ow, width as int);
                lemma_div_pos_is_pos(j * oh, height as int);
                lemma_sample_bounds(
                    src[y0][x0][k] as int,
                    src[y0][x0 + 1][k] as int,
                    src[y0 + 1][x0][k] as int,
                    src[y0 + 1][x0 + 1][k] as int,
                    width as int,
                    height as int,
                    (i * ow) % (width as int),
                    (j * oh) % (height as int),
                );
            }
        }
        assert(wf(tensor.deep_view()));
    }
}

} // verus!
