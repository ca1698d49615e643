use iosmic::text::{push_decimal, push_millis};
use iosmic::time::{rounded_ratio, Duration, Instant};

#[test]
fn ratios_are_rounded_to_the_nearest_even() {
    let cases = [(0, 10, 0), (4, 10, 0), (5, 10, 0), (6, 10, 1), (15, 10, 2), (25, 10, 2), (1, 3, 0), (2, 3, 1)];
    for (numerator, denominator, rounded) in cases {
        assert_eq!(rounded_ratio(numerator, denominator), rounded);
    }
}

#[test]
fn frames_last_their_time() {
    assert_eq!(Duration::from_frames(480, 48_000), Duration::from_millis(10));
    assert_eq!(Duration::from_frames(1024, 44_100), Duration::from_nanos(23_219_955));
}

#[test]
fn spans_are_spelled_out() {
    let mut text = String::new();
    push_decimal(&mut text, 0);
    text.push(' ');
    push_decimal(&mut text, 1_234_567_890);
    text.push(' ');
    push_millis(&mut text, Duration::from_nanos(10_020_833));
    text.push(' ');
    push_millis(&mut text, Duration::zero());
    assert_eq!(text, "0 1234567890 10.021 0.000");
}

#[test]
fn clocks_do_not_run_backwards() {
    let early = Instant::at(Duration::from_secs(1));
    let late = early.after(Duration::from_millis(5));
    assert_eq!(late.checked_duration_since(early), Some(Duration::from_millis(5)));
    assert_eq!(early.checked_duration_since(late), None);
    assert_eq!(early.saturating_duration_since(late), Duration::zero());
    assert_eq!(Duration::from_secs(1).abs_diff(Duration::from_secs(3)), Duration::from_secs(2));
    assert_eq!(Duration::from_secs(1).saturating_sub(Duration::from_secs(3)), Duration::zero());
    assert_eq!(Duration::from_nanos(1_999_999).as_millis(), 1);
    assert_eq!(Duration::from_nanos(1_999).as_micros(), 1);
}
