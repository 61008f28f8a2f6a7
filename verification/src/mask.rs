//! Mask generator: sweeps a 4-bytes-per-pixel buffer in blue-green-red-alpha
//! order, converts each pixel to HSV, scores it against a target color with a
//! hue cutoff of zero, and emits one match-strength byte per pixel.

use vstd::arithmetic::div_mod::{lemma_div_is_ordered, lemma_div_multiples_vanish};
use vstd::prelude::*;

use crate::color::{calculate_hsv_similarity, hsv_of, rgb_to_hsv, similarity_pm, Hsv};

verus! {

/// Match-strength byte of one pixel against the target: the score in
/// thousandths, rescaled to `0..=255` by the floor of `score * 255 / 1000`.
pub open spec fn mask_byte(blue: u8, green: u8, red: u8, target: Hsv) -> int {
    similarity_pm(target, hsv_of(red, green, blue), 0) * 255 / 1000
}

/// The match mask of a pixel buffer: one byte per complete 4-byte pixel,
/// in buffer order; trailing bytes of an incomplete pixel are ignored.
pub open spec fn mask_of(buf: Seq<u8>, target: Hsv) -> Seq<u8> {
    Seq::new(
        (buf.len() / 4) as nat,
        |i: int| mask_byte(buf[4 * i], buf[4 * i + 1], buf[4 * i + 2], target) as u8,
    )
}

/// The match-strength byte of any pixel lies in `0..=255`.
pub proof fn lemma_mask_byte_in_range(blue: u8, green: u8, red: u8, target: Hsv)
    ensures
        0 <= mask_byte(blue, green, red, target) <= 255,
{
    let s = similarity_pm(target, hsv_of(red, green, blue), 0);
    assert(0 <= s <= 1000);
    lemma_div_is_ordered(0, s * 255, 1000);
    lemma_div_is_ordered(s * 255, 255_000int, 1000);
    assert(s * 255 <= 255_000int) by (nonlinear_arith)
        requires
            0 <= s <= 1000,
    ;
    lemma_div_multiples_vanish(255, 1000);
}

/// Sweeps the buffer 4 bytes at a time in blue-green-red-alpha order and
/// returns the match mask against `target`: one byte per complete pixel,
/// each the rescaled similarity score of that pixel. Trailing bytes that do
/// not form a complete pixel are ignored; an empty buffer yields an empty
/// mask. The input is never mutated and the function is total.
pub fn threshold_white(image_data: &[u8], target: Hsv) -> (mask: Vec<u8>)
    requires
        target.wf(),
    ensures
        mask@ == mask_of(image_data@, target),
        mask@.len() == image_data@.len() / 4,
{
    let n = image_data.len();
    let mut mask: Vec<u8> = Vec::new();
    let mut index: usize = 0;
    while n - index >= 4
        invariant
            n == image_data@.len(),
            index == 4 * mask@.len(),
            index <= n,
            mask@.len() <= n as int / 4,
            forall|j: int|
                0 <= j < mask@.len() ==> mask@[j] == mask_of(image_data@, target)[j],
            target.wf(),
        decreases n - index,
    {
        let blue = image_data[index];
        let green = image_data[index + 1];
        let red = image_data[index + 2];
        let hsv = rgb_to_hsv(red, green, blue);
        let sim = calculate_hsv_similarity(target, hsv, 0);
        proof {
            lemma_mask_byte_in_range(blue, green, red, target);
            assert(sim * 255 / 1000 == mask_byte(blue, green, red, target));
            assert(4 * (mask@.len() + 1) <= n) by {
                vstd::arithmetic::div_mod::lemma_fundamental_div_mod(n as int, 4);
            }
        }
        let strength = (sim * 255 / 1000) as u8;
        mask.push(strength);
        index = index + 4;
    }
    proof {
        assert(mask@.len() == n as int / 4) by {
            vstd::arithmetic::div_mod::lemma_fundamental_div_mod(n as int, 4);
        }
        assert(mask@ =~= mask_of(image_data@, target));
    }
    mask
}

} // verus!
