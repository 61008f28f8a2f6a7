//! Laws of the pipeline, stated and proved over the spec functions that the
//! executable contracts use.

use vstd::arithmetic::div_mod::{
    lemma_div_is_ordered, lemma_div_is_ordered_by_denominator, lemma_fundamental_div_mod,
};
use vstd::arithmetic::mul::lemma_mul_inequality;
use vstd::prelude::*;

use crate::color::{cyclic_hue_diff_md, hsv_of, max3, sat_pm_of, similarity_pm, val_pm_of, Hsv};
use crate::locate::{head_point_of, scan_rows_at_probe, PROBE_COLUMN};
use crate::mask::{mask_byte, mask_of};
use crate::math::{lemma_sqrt_floor_bounds, lemma_sqrt_floor_unique, sqrt_floor};

verus! {

/// The converter's value channel is exactly the largest normalized input
/// channel, and its saturation is zero exactly on achromatic triples.
pub proof fn lemma_value_is_max_and_saturation_zero_iff_achromatic(r: u8, g: u8, b: u8)
    ensures
        val_pm_of(r as int, g as int, b as int) == 1000 * max3(r as int, g as int, b as int)
            / 255,
        sat_pm_of(r as int, g as int, b as int) == 0 <==> (r == g && g == b),
{
    let ri = r as int;
    let gi = g as int;
    let bi = b as int;
    let mx = max3(ri, gi, bi);
    let d = mx - crate::color::min3(ri, gi, bi);
    if d != 0 {
        assert(1 <= mx <= 255);
        assert(1000 <= 1000 * d) by (nonlinear_arith)
            requires
                1 <= d,
        ;
        lemma_div_is_ordered(1000, 1000 * d, mx);
        lemma_div_is_ordered_by_denominator(1000, mx, 255);
        assert(1000 * d / mx >= 3);
    }
}

/// A triple compared with itself is a perfect match under any hue cutoff,
/// including the bound of zero.
pub proof fn lemma_identical_match_is_perfect(x: Hsv)
    requires
        x.wf(),
    ensures
        similarity_pm(x, x, 0) == 1000,
{
    assert(cyclic_hue_diff_md(x.hue_md as int, x.hue_md as int) == 0);
    assert(sqrt_floor(0) == 0);
}

/// Hue is cyclic: hues of 10 and 350 degrees are 20 degrees apart, not 340,
/// and score exactly as a direct 20-degree gap does, whatever the shared
/// saturation and value.
pub proof fn lemma_hue_wraps_shortest_arc(s: u32, v: u32)
    requires
        s <= 1000,
        v <= 1000,
    ensures
        cyclic_hue_diff_md(10_000, 350_000) == 20_000,
        similarity_pm(
            Hsv { hue_md: 10_000, sat_pm: s, val_pm: v },
            Hsv { hue_md: 350_000, sat_pm: s, val_pm: v },
            180_000,
        ) == similarity_pm(
            Hsv { hue_md: 0, sat_pm: s, val_pm: v },
            Hsv { hue_md: 20_000, sat_pm: s, val_pm: v },
            180_000,
        ),
        similarity_pm(
            Hsv { hue_md: 10_000, sat_pm: s, val_pm: v },
            Hsv { hue_md: 350_000, sat_pm: s, val_pm: v },
            180_000,
        ) == 334,
{
    assert(20_000int * 20_000int == 400_000_000int);
    lemma_sqrt_floor_unique(400_000_000nat, 20_000nat);
    assert((400_000_000int) as nat == 400_000_000nat);
    assert(sqrt_floor(400_000_000nat) as int / 30 == 666);
}

/// The hue cutoff is hard: whenever the cyclic hue difference
/// exceeds the bound, the score is exactly zero.
pub proof fn lemma_hue_cutoff_is_hard(a: Hsv, b: Hsv, max_h_diff_md: int)
    requires
        cyclic_hue_diff_md(a.hue_md as int, b.hue_md as int) > max_h_diff_md,
    ensures
        similarity_pm(a, b, max_h_diff_md) == 0,
{
}

/// An all-zero buffer yields an all-zero mask whenever the target's hue is
/// away from zero: every pixel converts to hue 0, which the zero hue cutoff
/// then rejects. (A target at hue 0, such as pure black itself, matches the
/// black pixels and yields a nonzero mask.)
pub proof fn lemma_black_buffer_blank_mask(buf: Seq<u8>, target: Hsv)
    requires
        forall|i: int| 0 <= i < buf.len() ==> buf[i] == 0,
        target.wf(),
        target.hue_md != 0,
    ensures
        mask_of(buf, target).len() == buf.len() / 4,
        forall|j: int| 0 <= j < buf.len() / 4 ==> mask_of(buf, target)[j] == 0,
{
    assert forall|j: int| 0 <= j < buf.len() / 4 implies mask_of(buf, target)[j] == 0 by {
        lemma_fundamental_div_mod(buf.len() as int, 4);
        assert(4 * j + 2 < buf.len());
        assert(buf[4 * j] == 0);
        assert(buf[4 * j + 1] == 0);
        assert(buf[4 * j + 2] == 0);
        let px = hsv_of(0, 0, 0);
        assert(px.hue_md == 0 && px.sat_pm == 0 && px.val_pm == 0);
        let dh = cyclic_hue_diff_md(target.hue_md as int, 0);
        assert(dh > 0);
        assert(similarity_pm(target, px, 0) == 0);
        assert(mask_byte(0, 0, 0, target) == 0);
    }
}

/// Rows that carry only zero pixels at the probe column yield no probe hit.
proof fn lemma_scan_rows_zero(m: Seq<u8>, side: int, bound: int)
    requires
        forall|i: int| 0 <= i < m.len() ==> m[i] == 0,
        PROBE_COLUMN < side,
        0 <= bound,
        bound * side <= m.len(),
    ensures
        scan_rows_at_probe(m, side, bound) is None,
    decreases bound,
{
    if bound > 0 {
        assert((bound - 1) * side + PROBE_COLUMN < bound * side) by (nonlinear_arith)
            requires
                0 < bound,
                PROBE_COLUMN < side,
        ;
        assert(m[(bound - 1) * side + PROBE_COLUMN as int] == 0);
        lemma_mul_inequality(bound - 1, bound, side);
        lemma_scan_rows_zero(m, side, bound - 1);
    }
}

/// An all-zero mask has no feature point: the probe scan of the upper half
/// finds nothing, so the locator reports absence.
pub proof fn lemma_blank_mask_no_feature(m: Seq<u8>)
    requires
        forall|i: int| 0 <= i < m.len() ==> m[i] == 0,
        PROBE_COLUMN < sqrt_floor(m.len()),
    ensures
        head_point_of(m) is None,
{
    let side = sqrt_floor(m.len()) as int;
    lemma_sqrt_floor_bounds(m.len());
    assert((side / 2) * side <= side * side) by (nonlinear_arith)
        requires
            0 <= side / 2 <= side,
    ;
    lemma_scan_rows_zero(m, side, side / 2);
}

/// The pipeline is a pure function of the buffer and the target: equal
/// buffers yield the identical mask and the identical feature answer, so
/// running the pipeline twice on one buffer changes nothing.
pub proof fn lemma_pipeline_deterministic(buf1: Seq<u8>, buf2: Seq<u8>, target: Hsv)
    requires
        buf1 == buf2,
    ensures
        mask_of(buf1, target) == mask_of(buf2, target),
        head_point_of(mask_of(buf1, target)) == head_point_of(mask_of(buf2, target)),
{
}

} // verus!
