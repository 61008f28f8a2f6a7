use color_filtering::color::{calculate_hsv_similarity, rgb_to_hsv, Hsv};
use color_filtering::locate::find_head_point;
use color_filtering::mask::threshold_white;

fn hsv(hue_md: u32, sat_pm: u32, val_pm: u32) -> Hsv {
    Hsv { hue_md, sat_pm, val_pm }
}

#[test]
fn converter_fixed_points() {
    assert_eq!(rgb_to_hsv(255, 0, 0), hsv(0, 1000, 1000));
    assert_eq!(rgb_to_hsv(0, 255, 0), hsv(120_000, 1000, 1000));
    assert_eq!(rgb_to_hsv(0, 0, 255), hsv(240_000, 1000, 1000));
    assert_eq!(rgb_to_hsv(255, 255, 255), hsv(0, 0, 1000));
    assert_eq!(rgb_to_hsv(0, 0, 0), hsv(0, 0, 0));
    assert_eq!(rgb_to_hsv(255, 255, 0), hsv(60_000, 1000, 1000));
}

#[test]
fn converter_value_is_max_channel() {
    for &(r, g, b) in &[(10u8, 200u8, 30u8), (7, 7, 7), (255, 1, 128), (0, 0, 9)] {
        let h = rgb_to_hsv(r, g, b);
        let mx = r.max(g).max(b) as u32;
        assert_eq!(h.val_pm, 1000 * mx / 255);
    }
}

#[test]
fn converter_saturation_zero_iff_achromatic() {
    for v in 0u8..=255 {
        assert_eq!(rgb_to_hsv(v, v, v).sat_pm, 0);
    }
    assert!(rgb_to_hsv(10, 200, 30).sat_pm > 0);
    assert!(rgb_to_hsv(1, 0, 0).sat_pm > 0);
}

#[test]
fn converter_mixed_triple() {
    // max = g: hue = 60 * ((b - r) / delta + 2) degrees, here 126.315... deg.
    let h = rgb_to_hsv(10, 200, 30);
    assert_eq!(h, hsv(126_315, 950, 784));
}

#[test]
fn scorer_identical_is_perfect() {
    for &x in &[hsv(0, 0, 0), hsv(123_000, 400, 900), hsv(359_999, 1000, 1)] {
        assert_eq!(calculate_hsv_similarity(x, x, 0), 1000);
    }
}

#[test]
fn scorer_hue_wraps_shortest_arc() {
    let a = hsv(10_000, 400, 900);
    let b = hsv(350_000, 400, 900);
    let direct_a = hsv(0, 400, 900);
    let direct_b = hsv(20_000, 400, 900);
    let wrapped = calculate_hsv_similarity(a, b, 180_000);
    assert_eq!(wrapped, calculate_hsv_similarity(direct_a, direct_b, 180_000));
    // A 20-degree gap: 1000 - 20000 / 30 = 334, far above the score of a
    // 340-degree gap, which would be cut off entirely.
    assert_eq!(wrapped, 334);
}

#[test]
fn scorer_hard_cutoff() {
    let a = hsv(0, 1000, 1000);
    let b = hsv(30_000, 1000, 1000);
    assert_eq!(calculate_hsv_similarity(a, b, 29_999), 0);
    assert_eq!(calculate_hsv_similarity(a, b, 0), 0);
    // A slightly narrower gap passes the cutoff and scores above zero.
    let near = hsv(29_000, 1000, 1000);
    assert!(calculate_hsv_similarity(a, near, 30_000) > 0);
}

#[test]
fn scorer_clamps_large_distance_to_zero() {
    // A 40-degree hue gap passes a wide hue cutoff but lies beyond the
    // normalization constant, so the score clamps to zero.
    let a = hsv(0, 0, 0);
    let b = hsv(40_000, 0, 0);
    assert_eq!(calculate_hsv_similarity(a, b, 180_000), 0);
}

#[test]
fn mask_length_is_quarter_of_input() {
    let yellow = hsv(60_000, 1000, 1000);
    assert_eq!(threshold_white(&[], yellow).len(), 0);
    assert_eq!(threshold_white(&[1, 2, 3], yellow).len(), 0);
    assert_eq!(threshold_white(&[0; 7], yellow).len(), 1);
    assert_eq!(threshold_white(&[0; 400], yellow).len(), 100);
}

#[test]
fn mask_of_black_buffer_is_blank() {
    let yellow = hsv(60_000, 1000, 1000);
    let mask = threshold_white(&[0; 64], yellow);
    assert!(mask.iter().all(|&b| b == 0));
}

#[test]
fn mask_perfect_pixel_scores_full() {
    // One pure-yellow pixel in blue-green-red-alpha order.
    let buf = [0u8, 255, 255, 0];
    let yellow = hsv(60_000, 1000, 1000);
    assert_eq!(threshold_white(&buf, yellow), vec![255]);
    // A red pixel fails yellow's hue cutoff outright.
    let red_px = [0u8, 0, 255, 0];
    assert_eq!(threshold_white(&red_px, yellow), vec![0]);
}

/// A square mask of the given side with a vertical bar at the probe column
/// spanning `bar_rows`, plus extra nonzero pixels.
fn bar_mask(side: usize, bar_rows: std::ops::RangeInclusive<usize>, extra: &[(usize, usize)]) -> Vec<u8> {
    let mut m = vec![0u8; side * side];
    for row in bar_rows {
        m[row * side + 50] = 200;
    }
    for &(row, col) in extra {
        m[row * side + col] = 77;
    }
    m
}

#[test]
fn locator_finds_neck_midpoint() {
    // Bar at column 50 down through row 44; row 45 has nonzero pixels at
    // columns 40 and 60 only.
    let m = bar_mask(100, 30..=44, &[(45, 40), (45, 60)]);
    assert_eq!(find_head_point(&m), Some((50, 45)));
}

#[test]
fn locator_midpoint_is_floored() {
    let m = bar_mask(100, 20..=39, &[(40, 33), (40, 58)]);
    assert_eq!(find_head_point(&m), Some(((33 + 58) / 2, 40)));
}

#[test]
fn locator_absent_on_blank_mask() {
    assert_eq!(find_head_point(&vec![0u8; 100 * 100]), None);
}

#[test]
fn locator_absent_without_edges() {
    // Probe hit but nothing nonzero left of the midpoint on the next row.
    let only_right = bar_mask(100, 30..=44, &[(45, 60)]);
    assert_eq!(find_head_point(&only_right), None);
    // Probe hit but nothing nonzero right of the midpoint on the next row.
    let only_left = bar_mask(100, 30..=44, &[(45, 40)]);
    assert_eq!(find_head_point(&only_left), None);
}

#[test]
fn locator_ignores_lower_half_probe_hits() {
    // A probe-column hit at or below the vertical midpoint does not count.
    let mut m = vec![0u8; 100 * 100];
    m[50 * 100 + 50] = 255;
    m[80 * 100 + 50] = 255;
    assert_eq!(find_head_point(&m), None);
}

#[test]
fn pipeline_is_idempotent() {
    // A small scene over a 100x100 BGRA buffer: a yellow bar through the
    // probe column and yellow neck edges below it.
    let side = 100usize;
    let mut buf = vec![0u8; side * side * 4];
    let mut paint = |row: usize, col: usize| {
        let at = (row * side + col) * 4;
        buf[at] = 0; // blue
        buf[at + 1] = 255; // green
        buf[at + 2] = 255; // red
    };
    for row in 25..=43 {
        paint(row, 50);
    }
    paint(44, 42);
    paint(44, 57);
    let yellow = hsv(60_000, 1000, 1000);

    let mask1 = threshold_white(&buf, yellow);
    let mask2 = threshold_white(&buf, yellow);
    assert_eq!(mask1, mask2);
    let point_a = find_head_point(&mask1);
    let point_b = find_head_point(&mask2);
    assert_eq!(point_a, point_b);
    assert_eq!(point_a, Some(((42 + 57) / 2, 44)));
}

#[test]
fn vertical_blank_wait() {
    // 60 Hz: half of 16_666_666 ns, less the 100_000 ns margin.
    assert_eq!(
        color_filtering::timing::get_vertical_blank_duration(60),
        16_666_666 / 2 - 100_000
    );
    // The highest accepted refresh rate drives the wait to zero exactly.
    assert_eq!(color_filtering::timing::get_vertical_blank_duration(5000), 0);
}

#[test]
fn locator_neck_on_midpoint_row() {
    // The probe bar reaches the last row of the upper half, so the neck row
    // is the midpoint row itself.
    let m = bar_mask(100, 30..=49, &[(50, 45), (50, 55)]);
    assert_eq!(find_head_point(&m), Some((50, 50)));
}
