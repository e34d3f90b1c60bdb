//! Fixed-point difference samples.

use vstd::prelude::*;

verus! {

/// The sample that stands for the value 1.0: a sample `v` means
/// `v / NORMALIZER`.
pub const NORMALIZER: u32 = 10_000;

/// A cell counts as "on" when its value is at least 1.0.
pub open spec fn is_on(v: u32) -> bool {
    v >= NORMALIZER
}

/// The binarised value of `v` against `cutoff`: 1.0 when `v` reaches the
/// cutoff, 0.0 otherwise.
pub open spec fn threshold_sample(v: u32, cutoff: u32) -> u32 {
    if v >= cutoff {
        NORMALIZER
    } else {
        0
    }
}

/// `plane` with every cell binarised against `cutoff`.
pub open spec fn thresholded(plane: Seq<Seq<u32>>, cutoff: u32) -> Seq<Seq<u32>> {
    Seq::new(
        plane.len(),
        |r: int| Seq::new(plane[r].len(), |c: int| threshold_sample(plane[r][c], cutoff)),
    )
}

/// Binarising twice gives what binarising once gives, as long as the cutoff
/// does not exceed 1.0.
pub proof fn lemma_threshold_idempotent(plane: Seq<Seq<u32>>, cutoff: u32)
    requires
        cutoff <= NORMALIZER,
    ensures
        thresholded(thresholded(plane, cutoff), cutoff) == thresholded(plane, cutoff),
{
    let once = thresholded(plane, cutoff);
    let twice = thresholded(once, cutoff);
    assert forall|r: int| 0 <= r < once.len() implies #[trigger] twice[r] == once[r] by {
        assert(twice[r] =~= once[r]);
    }
    assert(twice =~= once);
}

} // verus!
