use iosmic::resample::{
    check_group_delay, check_input, check_output, check_rates, freezes_integral, side_of,
    ResampleError, SaturationClock, Side,
};
use iosmic::time::Duration;

#[test]
fn a_resampler_needs_rates_and_frames() {
    assert_eq!(check_rates(48_000, 44_100, 441), Ok(()));
    let cases = [
        (check_rates(0, 0, 0), "source sample rate must be positive"),
        (check_rates(48_000, 0, 0), "output sample rate must be positive"),
        (check_rates(48_000, 44_100, 0), "output period must contain frames"),
    ];
    for (verdict, text) in cases {
        assert_eq!(verdict.unwrap_err().message(), text);
    }
}

#[test]
fn a_resampler_takes_and_gives_exact_lengths() {
    assert_eq!(check_input(480, 480), Ok(()));
    assert_eq!(
        check_input(480, 479).unwrap_err().message(),
        "fixed-output resampler needs 480 input frames, got 479"
    );
    assert_eq!(check_output(480, 480, 441, 441), Ok(()));
    assert_eq!(check_output(480, 479, 441, 440), Err(ResampleError::Unconsumed));
    assert_eq!(ResampleError::Unconsumed.message(), "resampler left input unconsumed");
    assert_eq!(
        check_output(480, 480, 441, 440).unwrap_err().message(),
        "resampler wrote 440 frames instead of 441"
    );
}

#[test]
fn a_slow_resampler_is_refused() {
    let limit = Duration::from_nanos(250_000);
    assert!(check_group_delay(limit, limit).is_ok());
    assert_eq!(
        check_group_delay(Duration::from_nanos(1_234_567), limit).unwrap_err().message(),
        "Rubato output delay 1.235 ms exceeds the measured 0.250 ms provenance-free limit"
    );
}

#[test]
fn the_integral_stands_still_only_at_its_own_limit() {
    assert_eq!(side_of(true, true), Side::Below);
    assert_eq!(side_of(false, true), Side::Above);
    assert_eq!(side_of(false, false), Side::Within);
    assert!(freezes_integral(Side::Below, Side::Above));
    assert!(freezes_integral(Side::Above, Side::Below));
    assert!(!freezes_integral(Side::Below, Side::Below));
    assert!(!freezes_integral(Side::Above, Side::Above));
    assert!(!freezes_integral(Side::Within, Side::Above));
}

#[test]
fn saturation_is_timed_while_it_lasts() {
    let period = Duration::from_millis(10);
    let mut clock = SaturationClock::new();
    let mut seconds = 0.0;
    for _ in 0..500 {
        clock.note(Side::Below, period);
        seconds += 0.01;
    }
    assert_eq!(clock.duration(), Duration::from_secs(5));
    assert_eq!(clock.held.digits as f64 / (1u64 << -clock.held.place) as f64, seconds);
    clock.note(Side::Above, period);
    assert_eq!(clock.duration(), period);
    clock.note(Side::Within, period);
    assert_eq!(clock, SaturationClock::new());
}
