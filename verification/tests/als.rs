use std::sync::mpsc;
use wluma::als::iio::{
    illuminance_from_raw, intensity_from_rgb, offset_from_reading, scale_from_reading, MAX_MICRO,
    MICRO,
};
use wluma::als::smoothen;
use wluma::als::time;
use wluma::als::webcam::{Als, DEFAULT_LUX};

#[test]
fn test_smoothen() {
    assert_eq!(0, smoothen(123, &vec![]));
    assert_eq!(0, smoothen(23, &vec![100, 200]));
    assert_eq!(1, smoothen(123, &vec![100, 200]));
    assert_eq!(2, smoothen(223, &vec![100, 200]));
}

#[test]
fn test_smoothen_at_threshold() {
    // A raw value equal to a threshold counts as having reached it.
    assert_eq!(1, smoothen(100, &vec![100, 200]));
    assert_eq!(2, smoothen(200, &vec![100, 200]));
}

fn setup() -> (Als, mpsc::Sender<u64>) {
    let (webcam_tx, webcam_rx) = mpsc::channel();
    let als = Als::new(webcam_rx, Vec::new());
    (als, webcam_tx)
}

#[test]
fn test_get_raw_returns_default_value_when_no_data_from_webcam() {
    let (mut als, _webcam_tx) = setup();

    assert_eq!(DEFAULT_LUX, als.get_raw());
}

#[test]
fn test_get_raw_returns_value_from_webcam() {
    let (mut als, webcam_tx) = setup();

    webcam_tx.send(42).unwrap();

    assert_eq!(42, als.get_raw());
}

#[test]
fn test_get_raw_returns_most_recent_value_from_webcam() {
    let (mut als, webcam_tx) = setup();

    webcam_tx.send(42).unwrap();
    webcam_tx.send(43).unwrap();
    webcam_tx.send(44).unwrap();

    assert_eq!(44, als.get_raw());
}

#[test]
fn test_get_raw_returns_last_known_value_from_webcam_when_no_new_data() {
    let (mut als, webcam_tx) = setup();

    webcam_tx.send(42).unwrap();
    webcam_tx.send(43).unwrap();

    assert_eq!(43, als.get_raw());
    assert_eq!(43, als.get_raw());
    assert_eq!(43, als.get_raw());
}

#[test]
fn test_webcam_get_smoothens_onto_profile_scale() {
    let (webcam_tx, webcam_rx) = mpsc::channel();
    let mut als = Als::new(webcam_rx, vec![50, 200]);

    webcam_tx.send(60).unwrap();

    assert_eq!(1, als.get());
}

#[test]
fn test_absorb_takes_fresh_value_and_keeps_cache_otherwise() {
    let (mut als, _webcam_tx) = setup();

    assert_eq!(7, als.absorb(Some(7)));
    assert_eq!(7, als.lux);
    assert_eq!(7, als.absorb(None));
    assert_eq!(7, als.lux);
}

#[test]
fn test_illuminance_identity_scale() {
    assert_eq!(100, illuminance_from_raw(100, 1_000_000, 0));
}

#[test]
fn test_illuminance_scale_and_offset() {
    // (100 + 2) * 0.5
    assert_eq!(51, illuminance_from_raw(100, 500_000, 2_000_000));
}

#[test]
fn test_illuminance_clamps_at_zero() {
    assert_eq!(0, illuminance_from_raw(1, 1_000_000, -2_000_000));
}

#[test]
fn test_intensity_green_dominates() {
    assert_eq!(157837, intensity_from_rgb(0, 100_000, 0));
}

#[test]
fn test_intensity_clamps_at_zero() {
    assert_eq!(0, intensity_from_rgb(100_000, 0, 0));
}

#[test]
fn test_intensity_mixed_truncates() {
    // (157837 - 32466 - 73191) / 100000 = 0.52...
    assert_eq!(0, intensity_from_rgb(1, 1, 1));
}

#[test]
fn test_scale_reading_defaults_and_bounds() {
    assert_eq!(MICRO, scale_from_reading(None));
    assert_eq!(MICRO, scale_from_reading(Some(-5)));
    assert_eq!(500_000, scale_from_reading(Some(500_000)));
    assert_eq!(MAX_MICRO, scale_from_reading(Some(MAX_MICRO as i64 + 1)));
}

#[test]
fn test_offset_reading_defaults_and_bounds() {
    assert_eq!(0, offset_from_reading(None));
    assert_eq!(-2_000_000, offset_from_reading(Some(-2_000_000)));
    assert_eq!(
        -(MAX_MICRO as i64),
        offset_from_reading(Some(-(MAX_MICRO as i64) - 1))
    );
    assert_eq!(
        MAX_MICRO as i64,
        offset_from_reading(Some(MAX_MICRO as i64 + 1))
    );
}

#[test]
fn test_time_curve_by_hour() {
    let als = time::Als::new(vec![5, 10]);
    assert_eq!(5, als.lux_at_hour(0));
    assert_eq!(10, als.lux_at_hour(3));
}

#[test]
fn test_time_empty_curve_reads_zero() {
    let als = time::Als::new(Vec::new());
    assert_eq!(0, als.lux_at_hour(12));
}
