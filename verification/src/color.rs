//! Color-space converter and similarity scorer.
//!
//! An [`Hsv`] triple carries hue in thousandths of a degree and saturation
//! and value in thousandths of a unit. The converter maps an 8-bit color
//! triple to the exact floor of the standard 60-degree-sector HSV formulas at
//! that scale; the scorer compares two triples cyclically in hue and returns
//! a clamped match strength in thousandths.

use vstd::arithmetic::div_mod::{
    lemma_div_is_ordered, lemma_div_multiples_vanish, lemma_multiply_divide_lt,
};
use vstd::prelude::*;

use crate::math::{isqrt_u64, sqrt_floor};

verus! {

/// Hue units (thousandths of a degree) in a full turn.
pub const FULL_TURN: u32 = 360_000;

/// Hue units in half a turn: the longest possible cyclic hue difference.
pub const HALF_TURN: u32 = 180_000;

/// Fixed-point scale of saturation, value and similarity: 1000 is 1.0.
pub const UNIT: u32 = 1000;

/// A color in HSV space, in fixed-point units: `hue_md` in thousandths of a
/// degree below a full turn, `sat_pm` and `val_pm` in thousandths of a unit.
#[derive(Clone, Copy, PartialEq, Eq, Structural, Debug)]
pub struct Hsv {
    pub hue_md: u32,
    pub sat_pm: u32,
    pub val_pm: u32,
}

impl Hsv {
    /// The triple lies in the HSV domain: hue below a full turn, saturation
    /// and value at most one unit.
    pub open spec fn wf(self) -> bool {
        self.hue_md < FULL_TURN && self.sat_pm <= UNIT && self.val_pm <= UNIT
    }
}

/// The largest of three channel intensities.
pub open spec fn max3(r: int, g: int, b: int) -> int {
    if r >= g && r >= b {
        r
    } else if g >= b {
        g
    } else {
        b
    }
}

/// The smallest of three channel intensities.
pub open spec fn min3(r: int, g: int, b: int) -> int {
    if r <= g && r <= b {
        r
    } else if g <= b {
        g
    } else {
        b
    }
}

/// Hue of an 8-bit color triple, in thousandths of a degree: the floor of
/// the standard 60-degree-sector formula, wrapped into `[0, FULL_TURN)`,
/// and 0 for an achromatic triple.
pub open spec fn hue_md_of(r: int, g: int, b: int) -> int {
    let mx = max3(r, g, b);
    let d = mx - min3(r, g, b);
    if d == 0 {
        0
    } else if mx == r {
        (60_000 * (if g >= b {
            g - b
        } else {
            g - b + 6 * d
        })) / d
    } else if mx == g {
        (60_000 * (b - r) + 120_000 * d) / d
    } else {
        (60_000 * (r - g) + 240_000 * d) / d
    }
}

/// Saturation of an 8-bit color triple, in thousandths of a unit: the floor
/// of `1000 * delta / max`, and 0 for an achromatic triple.
pub open spec fn sat_pm_of(r: int, g: int, b: int) -> int {
    let mx = max3(r, g, b);
    let d = mx - min3(r, g, b);
    if d == 0 {
        0
    } else {
        1000 * d / mx
    }
}

/// Value of an 8-bit color triple, in thousandths of a unit: the floor of
/// `1000 * max / 255`.
pub open spec fn val_pm_of(r: int, g: int, b: int) -> int {
    1000 * max3(r, g, b) / 255
}

/// The HSV triple of an 8-bit color triple.
pub open spec fn hsv_of(r: u8, g: u8, b: u8) -> Hsv {
    Hsv {
        hue_md: hue_md_of(r as int, g as int, b as int) as u32,
        sat_pm: sat_pm_of(r as int, g as int, b as int) as u32,
        val_pm: val_pm_of(r as int, g as int, b as int) as u32,
    }
}

/// The shortest arc between two hues on the hue circle, in thousandths of a
/// degree: at most half a turn.
pub open spec fn cyclic_hue_diff_md(h1: int, h2: int) -> int {
    let d = if h1 >= h2 {
        h1 - h2
    } else {
        h2 - h1
    };
    if d > HALF_TURN {
        FULL_TURN - d
    } else {
        d
    }
}

/// Match strength of two HSV triples under a hue cutoff, in thousandths of a
/// unit. If the cyclic hue difference exceeds `max_h_diff_md` the score is
/// exactly 0; otherwise it is `1 - distance / 30` at the fixed-point scale,
/// clamped below at 0, where `distance` is the Euclidean distance over the
/// (hue, saturation, value) differences and 30 degrees is the fixed
/// normalization constant.
pub open spec fn similarity_pm(a: Hsv, b: Hsv, max_h_diff_md: int) -> int {
    let dh = cyclic_hue_diff_md(a.hue_md as int, b.hue_md as int);
    if dh <= max_h_diff_md {
        let ds = if a.sat_pm >= b.sat_pm {
            a.sat_pm - b.sat_pm
        } else {
            b.sat_pm - a.sat_pm
        };
        let dv = if a.val_pm >= b.val_pm {
            a.val_pm - b.val_pm
        } else {
            b.val_pm - a.val_pm
        };
        let q = (sqrt_floor((dh * dh + ds * ds + dv * dv) as nat) as int) / 30;
        if q >= 1000 {
            0
        } else {
            1000 - q
        }
    } else {
        0
    }
}

/// Converts an 8-bit color triple to its fixed-point HSV triple.
///
/// An achromatic triple (all channels equal) has hue 0 and saturation 0;
/// pure black additionally has value 0. The function is total over all
/// 8-bit inputs.
pub fn rgb_to_hsv(r: u8, g: u8, b: u8) -> (h: Hsv)
    ensures
        h == hsv_of(r, g, b),
        h.hue_md == hue_md_of(r as int, g as int, b as int),
        h.sat_pm == sat_pm_of(r as int, g as int, b as int),
        h.val_pm == val_pm_of(r as int, g as int, b as int),
        h.wf(),
{
    let ri = r as u32;
    let gi = g as u32;
    let bi = b as u32;
    let mx = if ri >= gi && ri >= bi {
        ri
    } else if gi >= bi {
        gi
    } else {
        bi
    };
    let mn = if ri <= gi && ri <= bi {
        ri
    } else if gi <= bi {
        gi
    } else {
        bi
    };
    let d = mx - mn;
    let val = 1000 * mx / 255;
    proof {
        lemma_div_is_ordered(1000 * mx as int, 255_000int, 255);
    }
    let mut hue: u32 = 0;
    let mut sat: u32 = 0;
    if d > 0 {
        if mx == ri {
            let e = if gi >= bi {
                gi - bi
            } else {
                gi + 6 * d - bi
            };
            hue = 60_000 * e / d;
            proof {
                assert(e < 6 * d);
                lemma_multiply_divide_lt(60_000 * e as int, d as int, 360_000);
            }
        } else if mx == gi {
            hue = (60_000 * bi + 120_000 * d - 60_000 * ri) / d;
            proof {
                assert(60_000 * bi + 120_000 * d - 60_000 * ri < 360_000 * d) by (nonlinear_arith)
                    requires
                        d > 0,
                        bi <= mx,
                        mx == mn + d,
                        mn <= bi,
                        mn <= ri,
                ;
                lemma_multiply_divide_lt(
                    60_000 * bi + 120_000 * d - 60_000 * ri,
                    d as int,
                    360_000,
                );
            }
        } else {
            hue = (60_000 * ri + 240_000 * d - 60_000 * gi) / d;
            proof {
                assert(60_000 * ri + 240_000 * d - 60_000 * gi < 360_000 * d) by (nonlinear_arith)
                    requires
                        d > 0,
                        ri <= mx,
                        mx == mn + d,
                        mn <= ri,
                        mn <= gi,
                ;
                lemma_multiply_divide_lt(
                    60_000 * ri + 240_000 * d - 60_000 * gi,
                    d as int,
                    360_000,
                );
            }
        }
        sat = 1000 * d / mx;
        proof {
            lemma_div_is_ordered(1000 * d as int, 1000 * mx as int, mx as int);
            lemma_div_multiples_vanish(1000, mx as int);
        }
    }
    proof {
        lemma_div_multiples_vanish(1000, 255);
    }
    Hsv { hue_md: hue, sat_pm: sat, val_pm: val }
}

/// Scores how closely `b` matches `a`, in thousandths of a unit.
///
/// The hue difference is the shortest arc on the hue circle. If it exceeds
/// `max_h_diff_md` (thousandths of a degree) the score is exactly 0; a
/// perfect match scores 1000. Scores are clamped below at 0.
pub fn calculate_hsv_similarity(a: Hsv, b: Hsv, max_h_diff_md: u32) -> (sim: u32)
    requires
        a.wf(),
        b.wf(),
    ensures
        sim == similarity_pm(a, b, max_h_diff_md as int),
        sim <= 1000,
{
    let dh_raw = if a.hue_md >= b.hue_md {
        a.hue_md - b.hue_md
    } else {
        b.hue_md - a.hue_md
    };
    let dh = if dh_raw > HALF_TURN {
        FULL_TURN - dh_raw
    } else {
        dh_raw
    };
    if dh <= max_h_diff_md {
        let ds = if a.sat_pm >= b.sat_pm {
            a.sat_pm - b.sat_pm
        } else {
            b.sat_pm - a.sat_pm
        };
        let dv = if a.val_pm >= b.val_pm {
            a.val_pm - b.val_pm
        } else {
            b.val_pm - a.val_pm
        };
        proof {
            assert((dh as int) * (dh as int) <= 180_000int * 180_000int) by (nonlinear_arith)
                requires
                    0 <= dh as int <= 180_000int,
            ;
            assert((ds as int) * (ds as int) <= 1000int * 1000int) by (nonlinear_arith)
                requires
                    0 <= ds as int <= 1000int,
            ;
            assert((dv as int) * (dv as int) <= 1000int * 1000int) by (nonlinear_arith)
                requires
                    0 <= dv as int <= 1000int,
            ;
        }
        let dsq: u64 = (dh as u64) * (dh as u64) + (ds as u64) * (ds as u64) + (dv as u64) * (dv
            as u64);
        let dist = isqrt_u64(dsq);
        let q = dist / 30;
        if q >= 1000 {
            0
        } else {
            1000 - (q as u32)
        }
    } else {
        0
    }
}

} // verus!
