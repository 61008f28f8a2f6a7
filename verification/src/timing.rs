//! Frame pacing: how long to wait ahead of the next vertical blank.

use vstd::arithmetic::div_mod::{lemma_div_is_ordered, lemma_div_is_ordered_by_denominator};
use vstd::prelude::*;

verus! {

/// Safety margin subtracted from half a frame period, in nanoseconds.
pub const VBLANK_MARGIN_NS: u64 = 100_000;

/// The wait before the next vertical blank, in nanoseconds: half the frame
/// period of the given refresh rate, less the fixed margin. Refresh rates
/// above 5000 Hz would drive the wait below zero and are excluded.
pub fn get_vertical_blank_duration(refresh_rate: u32) -> (ns: u64)
    requires
        1 <= refresh_rate <= 5000,
    ensures
        ns == 1_000_000_000int / (refresh_rate as int) / 2 - VBLANK_MARGIN_NS,
{
    let frame_ns: u64 = 1_000_000_000 / (refresh_rate as u64);
    let half_ns: u64 = frame_ns / 2;
    proof {
        lemma_div_is_ordered_by_denominator(1_000_000_000int, refresh_rate as int, 5000);
        lemma_div_is_ordered(200_000int, frame_ns as int, 2);
    }
    half_ns - VBLANK_MARGIN_NS
}

} // verus!
