//! Compositor: alpha-blends an overlay tensor onto a base tensor, centered.
//!
//! The overlay's own alpha channel drives the blend of the three color
//! channels; afterwards the base pixel's alpha is forced to a full channel,
//! so compositing always yields an opaque result. Either tensor being empty
//! is an error; the overlay must not exceed the base in either dimension.

use vstd::prelude::*;
use vstd::arithmetic::div_mod::{lemma_div_is_ordered, lemma_div_multiples_vanish};
use crate::tensor::{
    lemma_deep_index, wf, width_of, PixelTensor, TensorView, CHANNEL_MAX, CHANNEL_UNIT,
};

verus! {

/// The error compositing reports when a tensor that must be non-empty has
/// zero rows.
#[derive(Debug)]
pub struct ArrayEmptyError;

/// One color channel alpha-blended in fixed point, truncated:
/// (1 - alpha) * base + alpha * overlay.
pub open spec fn blend_channel(b: int, o: int, a: int) -> int {
    ((CHANNEL_UNIT - a) * b + a * o) / (CHANNEL_UNIT as int)
}

/// Every overlay alpha value is at most a full channel, so the blend weights
/// stay non-negative.
pub open spec fn alphas_bounded(t: TensorView) -> bool {
    forall|y: int, x: int|
        0 <= y < t.len() && 0 <= x < t[y].len() ==> (#[trigger] t[y][x])[3] <= CHANNEL_UNIT
}

/// The base tensor with the overlay blended over it at centered, truncated
/// offsets: inside the overlaid region the color channels are alpha-blended
/// and the alpha channel is forced to a full channel; everything else is the
/// base, unchanged.
pub open spec fn composited(over: TensorView, base: TensorView) -> TensorView {
    let oy = (base.len() - over.len()) / 2;
    let ox = (width_of(base) - width_of(over)) / 2;
    Seq::new(
        base.len(),
        |y: int|
            Seq::new(
                base[y].len(),
                |x: int|
                    Seq::new(
                        base[y][x].len(),
                        |c: int|
                            if oy <= y < oy + over.len() && ox <= x < ox + width_of(over) && 0 <= c
                                < 4 {
                                if c == 3 {
                                    CHANNEL_UNIT
                                } else {
                                    blend_channel(
                                        base[y][x][c] as int,
                                        over[y - oy][x - ox][c] as int,
                                        over[y - oy][x - ox][3] as int,
                                    ) as u64
                                }
                            } else {
                                base[y][x][c]
                            },
                    ),
            ),
    )
}

/// A blend of two bounded channels is bounded and its arithmetic fits.
proof fn lemma_blend_bounds(b: int, o: int, a: int)
    requires
        0 <= a <= CHANNEL_UNIT,
        0 <= b <= CHANNEL_MAX,
        0 <= o <= CHANNEL_MAX,
    ensures
        0 <= (CHANNEL_UNIT - a) * b + a * o <= CHANNEL_UNIT * CHANNEL_MAX,
        0 <= blend_channel(b, o, a) <= CHANNEL_MAX,
{
    assert(0 <= (CHANNEL_UNIT - a) * b + a * o <= CHANNEL_UNIT * CHANNEL_MAX) by (nonlinear_arith)
        requires
            0 <= a <= CHANNEL_UNIT,
            0 <= b <= CHANNEL_MAX,
            0 <= o <= CHANNEL_MAX,
    ;
    lemma_div_is_ordered(0, (CHANNEL_UNIT - a) * b + a * o, CHANNEL_UNIT as int);
    lemma_div_is_ordered(
        (CHANNEL_UNIT - a) * b + a * o,
        CHANNEL_UNIT as int * CHANNEL_MAX as int,
        CHANNEL_UNIT as int,
    );
    lemma_div_multiples_vanish(CHANNEL_MAX as int, CHANNEL_UNIT as int);
}

/// Mutates the base in place, alpha-blending the overlay centered over it.
/// Fails if and only if either tensor has zero rows, leaving the base
/// untouched; the overlay must fit within the base and carry alphas of at
/// most a full channel.
#[verifier::loop_isolation(false)]
pub fn addwatermark(logoimage: &PixelTensor, basedimage: &mut PixelTensor) -> (r: Result<
    (),
    ArrayEmptyError,
>)
    requires
        wf(logoimage.deep_view()),
        wf(old(basedimage).deep_view()),
        alphas_bounded(logoimage.deep_view()),
        logoimage@.len() > 0 && old(basedimage)@.len() > 0 ==> logoimage@.len() <= old(
            basedimage,
        )@.len() && width_of(logoimage.deep_view()) <= width_of(old(basedimage).deep_view()),
    ensures
        r is Err ==> (logoimage@.len() == 0 || old(basedimage)@.len() == 0)
            && *final(basedimage) == *old(basedimage),
        r is Ok ==> logoimage@.len() > 0 && old(basedimage)@.len() > 0
            && final(basedimage).deep_view()
            == composited(logoimage.deep_view(), old(basedimage).deep_view())
            && wf(final(basedimage).deep_view()),
{
    if logoimage.len() == 0 || basedimage.len() == 0 {
        return Result::Err(ArrayEmptyError);
    }
    proof {
        lemma_deep_index(*logoimage);
        lemma_deep_index(*basedimage);
    }
    let ghost logo: TensorView = logoimage.deep_view();
    let ghost orig: TensorView = basedimage.deep_view();
    let ghost goal: TensorView = composited(logo, orig);
    let bheight = basedimage.len();
    let bwidth = basedimage[0].len();
    let lheight = logoimage.len();
    let lwidth = logoimage[0].len();
    let offset_y = (bheight - lheight) / 2;
    let offset_x = (bwidth - lwidth) / 2;
    proof {
        assert(goal.len() == bheight);
        assert(offset_y + lheight <= bheight);
        assert(offset_x + lwidth <= bwidth);
    }
    let mut y: usize = 0;
    while y < lheight
        invariant
            y <= lheight,
            basedimage@.len() == bheight,
            forall|j: int| #![trigger basedimage@[j]]
                0 <= j < bheight ==> basedimage@[j]@.len() == bwidth,
            forall|j: int, i: int| #![trigger basedimage@[j]@[i]]
                0 <= j < bheight && 0 <= i < bwidth ==> basedimage@[j]@[i]@ == (
                if offset_y <= j < offset_y + y && offset_x <= i < offset_x + lwidth {
                    goal[j][i]
                } else {
                    orig[j][i]
                }),
        decreases lheight - y,
    {
        let mut x: usize = 0;
        while x < lwidth
            invariant
                x <= lwidth,
                basedimage@.len() == bheight,
                forall|j: int| #![trigger basedimage@[j]]
                    0 <= j < bheight ==> basedimage@[j]@.len() == bwidth,
                forall|j: int, i: int| #![trigger basedimage@[j]@[i]]
                    0 <= j < bheight && 0 <= i < bwidth ==> basedimage@[j]@[i]@ == (
                    if (offset_y <= j < offset_y + y && offset_x <= i < offset_x + lwidth) || (j
                        == offset_y + y && offset_x <= i < offset_x + x) {
                        goal[j][i]
                    } else {
                        orig[j][i]
                    }),
            decreases lwidth - x,
        {
            let by = offset_y + y;
            let bx = offset_x + x;
            let a: u64 = logoimage[y][x][3];
            proof {
                assert(logo[y as int][x as int][3] == a);
                assert(a <= CHANNEL_UNIT);
            }
            let mut np: Vec<u64> = Vec::new();
            let mut c: usize = 0;
            while c < 3
                invariant
                    c <= 3,
                    np@.len() == c,
                    forall|k: int| 0 <= k < c ==> #[trigger] np@[k] == goal[by as int][bx as int][k],
                decreases 3 - c,
            {
                let bch: u64 = basedimage[by][bx][c];
                let och: u64 = logoimage[y][x][c];
                proof {
                    assert(basedimage@[by as int]@[bx as int]@ == orig[by as int][bx as int]);
                    assert(bch == orig[by as int][bx as int][c as int]);
                    assert(och == logo[y as int][x as int][c as int]);
                    lemma_blend_bounds(bch as int, och as int, a as int);
                }
                let v: u64 = ((CHANNEL_UNIT - a) * bch + a * och) / CHANNEL_UNIT;
                proof {
                    assert(v as int == blend_channel(bch as int, och as int, a as int));
                    assert(goal[by as int][bx as int][c as int] == v);
                }
                np.push(v);
                c = c + 1;
            }
            np.push(CHANNEL_UNIT);
            proof {
                assert(np@ =~= goal[by as int][bx as int]);
            }
            basedimage[by][bx] = np;
            proof {
                assert forall|j: int, i: int|
                    0 <= j < bheight && 0 <= i < bwidth implies #[trigger] basedimage@[j]@[i]@ == (
                if (offset_y <= j < offset_y + y && offset_x <= i < offset_x + lwidth) || (j
                    == offset_y + y && offset_x <= i < offset_x + x + 1) {
                    goal[j][i]
                } else {
                    orig[j][i]
                }) by {
                }
            }
            x = x + 1;
        }
        y = y + 1;
    }
    proof {
        lemma_deep_index(*basedimage);
        assert(basedimage.deep_view() =~~= goal);
        assert forall|j: int, i: int, k: int|
            0 <= j < goal.len() && 0 <= i < goal[j].len() && 0 <= k
                < goal[j][i].len() implies #[trigger] goal[j][i][k] <= CHANNEL_MAX by {
            if offset_y <= j < offset_y + lheight && offset_x <= i < offset_x + lwidth && k != 3 {
                lemma_blend_bounds(
                    orig[j][i][k] as int,
                    logo[j - offset_y][i - offset_x][k] as int,
                    logo[j - offset_y][i - offset_x][3] as int,
                );
            }
        }
        assert(wf(basedimage.deep_view()));
    }
    Result::Ok(())
}

} // verus!
