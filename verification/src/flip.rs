//! Axis flips: in-place vertical and horizontal mirroring of a tensor.
//!
//! Both flips are pure permutations: every pixel value is preserved, only its
//! position changes, and applying the same flip twice is the identity.

use vstd::prelude::*;
use crate::tensor::{PixelTensor, TensorView};

verus! {

/// A sequence read back to front.
pub open spec fn reversed<T>(s: Seq<T>) -> Seq<T> {
    Seq::new(s.len(), |i: int| s[s.len() - 1 - i])
}

/// A tensor mirrored top-to-bottom: row `y` moves to row `height - 1 - y`.
pub open spec fn vflip(t: TensorView) -> TensorView {
    reversed(t)
}

/// A tensor mirrored left-to-right: within every row, the pixel at column `x`
/// moves to column `width - 1 - x`.
pub open spec fn hflip(t: TensorView) -> TensorView {
    Seq::new(t.len(), |y: int| reversed(t[y]))
}

/// Law: flipping vertically twice is the identity.
pub proof fn lemma_flip_vertical_involutive(t: TensorView)
    ensures
        vflip(vflip(t)) == t,
{
    assert(vflip(vflip(t)) =~= t);
}

/// Law: flipping horizontally twice is the identity.
pub proof fn lemma_flip_horizontal_involutive(t: TensorView)
    ensures
        hflip(hflip(t)) == t,
{
    assert forall|y: int| 0 <= y < t.len() implies hflip(hflip(t))[y] == t[y] by {
        assert(reversed(reversed(t[y])) =~= t[y]);
    }
    assert(hflip(hflip(t)) =~= t);
}

/// In place, swaps row `y` with row `height - 1 - y`; for odd heights the
/// middle row is untouched.
pub fn flip_vertical(tensor: &mut PixelTensor)
    requires
        old(tensor)@.len() > 0,
    ensures
        final(tensor).deep_view() == vflip(old(tensor).deep_view()),
{
    let ghost orig: TensorView = tensor.deep_view();
    let mut flipped: PixelTensor = Vec::new();
    while tensor.len() > 0
        invariant
            flipped@.len() + tensor@.len() == orig.len(),
            tensor.deep_view() =~= orig.take(tensor@.len() as int),
            forall|i: int|
                0 <= i < flipped@.len()
                    ==> #[trigger] flipped.deep_view()[i] == orig[orig.len() - 1 - i],
        decreases tensor@.len(),
    {
        let ghost n = tensor@.len() as int;
        let ghost prev = flipped.deep_view();
        let row = tensor.pop().unwrap();
        proof {
            assert(row.deep_view() == orig.take(n)[n - 1]);
            assert(tensor.deep_view() =~= orig.take(n - 1));
        }
        flipped.push(row);
        proof {
            assert forall|i: int| 0 <= i < flipped@.len() implies #[trigger] flipped.deep_view()[i]
                == orig[orig.len() - 1 - i] by {
                assert(flipped.deep_view()[i] == flipped@[i].deep_view());
                if i < flipped@.len() - 1 {
                    assert(flipped@[i].deep_view() == prev[i]);
                } else {
                    assert(flipped@[i] == row);
                }
            }
        }
    }
    *tensor = flipped;
    proof {
        assert(tensor.deep_view() =~= vflip(orig));
    }
}

/// In place, swaps column `x` with column `width - 1 - x` within every row;
/// for odd widths the middle column is untouched.
pub fn flip_horizontal(tensor: &mut PixelTensor)
    requires
        old(tensor)@.len() > 0,
    ensures
        final(tensor).deep_view() == hflip(old(tensor).deep_view()),
{
    let ghost orig: TensorView = tensor.deep_view();
    // Reverse the row order, then rebuild: popping the reversed rows restores
    // the original order while each row's pixels are reversed.
    flip_vertical(tensor);
    proof {
        assert(tensor@.len() == tensor.deep_view().len());
        assert(tensor@.len() == orig.len());
    }
    let mut result: PixelTensor = Vec::new();
    while tensor.len() > 0
        invariant
            result@.len() + tensor@.len() == orig.len(),
            tensor.deep_view() =~= vflip(orig).take(tensor@.len() as int),
            forall|j: int|
                0 <= j < result@.len()
                    ==> #[trigger] result.deep_view()[j] == reversed(orig[j]),
        decreases tensor@.len(),
    {
        let ghost n = tensor@.len() as int;
        let mut row = tensor.pop().unwrap();
        proof {
            assert(row.deep_view() == vflip(orig).take(n)[n - 1]);
            assert(row.deep_view() == orig[orig.len() - n]);
            assert(tensor.deep_view() =~= vflip(orig).take(n - 1));
        }
        let ghost rowview: Seq<Seq<u64>> = row.deep_view();
        let mut new_row: Vec<Vec<u64>> = Vec::new();
        while row.len() > 0
            invariant
                new_row@.len() + row@.len() == rowview.len(),
                row.deep_view() =~= rowview.take(row@.len() as int),
                forall|i: int|
                    0 <= i < new_row@.len()
                        ==> #[trigger] new_row.deep_view()[i] == rowview[rowview.len() - 1 - i],
            decreases row@.len(),
        {
            let ghost m = row@.len() as int;
            let ghost prev_px = new_row.deep_view();
            let px = row.pop().unwrap();
            proof {
                assert(px.deep_view() == rowview.take(m)[m - 1]);
                assert(row.deep_view() =~= rowview.take(m - 1));
            }
            new_row.push(px);
            proof {
                assert forall|i: int| 0 <= i < new_row@.len() implies
                    #[trigger] new_row.deep_view()[i] == rowview[rowview.len() - 1 - i] by {
                    assert(new_row.deep_view()[i] == new_row@[i].deep_view());
                    if i < new_row@.len() - 1 {
                        assert(new_row@[i].deep_view() == prev_px[i]);
                    } else {
                        assert(new_row@[i] == px);
                    }
                }
            }
        }
        proof {
            assert(new_row.deep_view() =~= reversed(rowview));
        }
        let ghost prev_rows = result.deep_view();
        result.push(new_row);
        proof {
            assert forall|j: int| 0 <= j < result@.len() implies #[trigger] result.deep_view()[j]
                == reversed(orig[j]) by {
                assert(result.deep_view()[j] == result@[j].deep_view());
                if j < result@.len() - 1 {
                    assert(result@[j].deep_view() == prev_rows[j]);
                } else {
                    assert(result@[j] == new_row);
                }
            }
        }
    }
    *tensor = result;
    proof {
        assert forall|y: int| 0 <= y < orig.len() implies tensor.deep_view()[y] == hflip(orig)[y]
        by {
        }
        assert(tensor.deep_view() =~= hflip(orig));
    }
}

} // verus!
