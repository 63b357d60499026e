use wluma::predictor::kalman::Kalman;

#[test]
fn test_initialized_flips_on_first_process() {
    let mut kalman = Kalman::new(1, 20, 10);
    assert_eq!(false, kalman.initialized());

    let first = kalman.process(42);

    assert_eq!(true, kalman.initialized());
    assert_eq!(42, first);
}

#[test]
fn test_process_moves_estimate_toward_measurement() {
    let mut kalman = Kalman::new(1, 20, 10);
    kalman.process(42);

    // Gain is (10 + 1) / (10 + 1 + 20) = 11/31, so the estimate becomes
    // 42 + 10 * 11/31 = 45.5..., truncated to whole units.
    assert_eq!(45, kalman.process(52));
}

#[test]
fn test_process_converges_on_constant_signal() {
    let mut kalman = Kalman::new(1, 20, 10);
    for _ in 0..10 {
        kalman.process(100);
    }
    assert_eq!(100, kalman.process(100));
}
