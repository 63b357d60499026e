use wluma::frame::compute_perceived_lightness_percent;

#[test]
fn test_black_frame_is_dark() {
    let rgbs = vec![0u8; 12];
    assert_eq!(0, compute_perceived_lightness_percent(&rgbs, false, 4));
}

#[test]
fn test_white_frame_is_fully_light() {
    let rgbs = vec![255u8; 12];
    assert_eq!(100, compute_perceived_lightness_percent(&rgbs, false, 4));
}

#[test]
fn test_inverted_polarity() {
    let rgbs = vec![255u8; 3];
    assert_eq!(0, compute_perceived_lightness_percent(&rgbs, true, 1));
    let dark = vec![0u8; 3];
    assert_eq!(100, compute_perceived_lightness_percent(&dark, true, 1));
}

#[test]
fn test_red_only_pixel_weighs_in_at_its_luminance_share() {
    // One pure red pixel: 2126 * 255 out of 10000 * 255, i.e. 21.26 percent.
    let rgbs = vec![255u8, 0, 0];
    assert_eq!(21, compute_perceived_lightness_percent(&rgbs, false, 1));
}

#[test]
fn test_green_heavy_mix() {
    // Two pixels: pure green and pure blue.
    // (7152 + 722) * 255 over 2 * 10000 * 255 = 39.37 percent.
    let rgbs = vec![0u8, 255, 0, 0, 0, 255];
    assert_eq!(39, compute_perceived_lightness_percent(&rgbs, false, 2));
}
