//! The pixel tensor data model.
//!
//! A tensor is an ordered three-level structure: rows (length = height), each
//! row an ordered sequence of pixels (length = width), each pixel exactly four
//! channel values (R, G, B, A). A channel value is a fixed-point number: the
//! integer `n` stands for `n / 65280`, so `CHANNEL_UNIT` stands for a full
//! channel (1.0) and `CHANNEL_STEP` for one 8-bit quantization step (1/255).
//! The structure itself does not clamp values to `[0, CHANNEL_UNIT]`;
//! well-formedness only bounds them by `CHANNEL_MAX` so that transform
//! arithmetic stays exact.

use vstd::prelude::*;

verus! {

/// Fixed-point value of one 8-bit quantization step, 1/255.
pub const CHANNEL_STEP: u64 = 256;

/// Fixed-point value of a full channel, 1.0 (255 steps of 1/255).
pub const CHANNEL_UNIT: u64 = 255 * 256;

/// Largest channel value a well-formed tensor may hold. Transforms may push
/// values beyond `CHANNEL_UNIT`, but not beyond this bound, which keeps the
/// blending arithmetic within machine integers.
pub const CHANNEL_MAX: u64 = 0xFFFF_FFFF;

/// The executable tensor: rows of pixels of channel values.
pub type PixelTensor = Vec<Vec<Vec<u64>>>;

/// The mathematical model of a tensor.
pub type TensorView = Seq<Seq<Seq<u64>>>;

/// Width of a two-or-more-level nested sequence: the length of its first row.
/// Dimensions are derived, not stored; an empty structure has width 0.
pub open spec fn width_of<T>(t: Seq<Seq<T>>) -> int {
    if t.len() > 0 {
        t[0].len() as int
    } else {
        0
    }
}

/// All rows have the width of the first row.
pub open spec fn rectangular<T>(t: Seq<Seq<T>>) -> bool {
    forall|y: int| 0 <= y < t.len() ==> (#[trigger] t[y]).len() == width_of(t)
}

/// Every pixel holds exactly four channels.
pub open spec fn four_channel<T>(t: Seq<Seq<Seq<T>>>) -> bool {
    forall|y: int, x: int|
        0 <= y < t.len() && 0 <= x < t[y].len() ==> (#[trigger] t[y][x]).len() == 4
}

/// Every channel value is at most `bound`.
pub open spec fn values_at_most(t: TensorView, bound: u64) -> bool {
    forall|y: int, x: int, c: int|
        0 <= y < t.len() && 0 <= x < t[y].len() && 0 <= c < t[y][x].len()
            ==> #[trigger] t[y][x][c] <= bound
}

/// A well-formed tensor: rectangular, four channels per pixel, values bounded.
pub open spec fn wf(t: TensorView) -> bool {
    &&& rectangular(t)
    &&& four_channel(t)
    &&& values_at_most(t, CHANNEL_MAX)
}

/// Relates element access on the executable tensor to its model: indexing the
/// nested vectors agrees with indexing the deep view, level by level.
pub proof fn lemma_deep_index(t: PixelTensor)
    ensures
        t.deep_view().len() == t@.len(),
        forall|y: int| #![trigger t@[y]]
            0 <= y < t@.len() ==> t@[y].deep_view() == t.deep_view()[y] && t@[y]@.len()
                == t.deep_view()[y].len(),
        forall|y: int, x: int| #![trigger t@[y]@[x]]
            0 <= y < t@.len() && 0 <= x < t@[y]@.len() ==> t@[y]@[x]@ == t.deep_view()[y][x]
                && t@[y]@[x]@.len() == t.deep_view()[y][x].len(),
{
    assert forall|y: int| 0 <= y < t@.len() implies t@[y].deep_view() == t.deep_view()[y]
        && t@[y]@.len() == t.deep_view()[y].len() by {
        assert(t.deep_view()[y] == t@[y].deep_view());
    }
    assert forall|y: int, x: int| 0 <= y < t@.len() && 0 <= x < t@[y]@.len() implies t@[y]@[x]@
        == t.deep_view()[y][x] && t@[y]@[x]@.len() == t.deep_view()[y][x].len() by {
        assert(t@[y].deep_view()[x] == t@[y]@[x].deep_view());
        assert(t@[y]@[x]@ =~= t@[y]@[x].deep_view());
    }
}

} // verus!
