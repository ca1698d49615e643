use iosmic::double::Double;
use iosmic::frame::Frame;
use iosmic::measure::{
    measure_step, measurement_warmup, measuring_decoder, packet_counts, percentile, remaining_time, MeasureStats,
    MeasureStep,
};
use iosmic::time::{Duration, Instant};

#[test]
fn percentile_uses_nearest_upper_sample() {
    let values = [0.0, 1.0, 2.0, 3.0, 4.0];

    assert_eq!(percentile(&values, Double::nearest_to(50, 100)), 2.0);
    assert_eq!(percentile(&values, Double::nearest_to(95, 100)), 4.0);
    assert_eq!(percentile(&values, Double::nearest_to(99, 100)), 4.0);
}

#[test]
fn measurement_warmup_is_capped_to_short_startup_window() {
    assert_eq!(measurement_warmup(Duration::from_secs(5)), Duration::from_millis(500));
    assert_eq!(measurement_warmup(Duration::from_secs(30)), Duration::from_secs(2));
}

#[test]
fn a_tenth_of_a_measurement_is_one_in_double_precision() {
    for nanos in [0, 5, 15, 25, 1_234_567_895, 19_999_999_995, 20_000_000_005] {
        let seconds = (std::time::Duration::from_nanos(nanos).as_secs_f64() / 10.0).min(2.0);
        assert_eq!(
            measurement_warmup(Duration::from_nanos(nanos as u128)).as_nanos(),
            std::time::Duration::from_secs_f64(seconds).as_nanos()
        );
    }
}

#[test]
fn percentiles_of_one_value_are_that_value() {
    assert_eq!(percentile(&[7], Double::whole(0)), 7);
    assert_eq!(percentile(&[7], Double::whole(1)), 7);
    assert_eq!(percentile(&[7, 8], Double::whole(2)), 8);
    assert_eq!(percentile(&[7, 8], Double::nearest_to(1, 1000)), 8);
}

#[test]
fn percentiles_are_counted_in_double_precision() {
    // A hundred times 0.55 is a little more than fifty-five.
    let values: Vec<usize> = (0..101).collect();
    assert_eq!(percentile(&values, Double::nearest_to(55, 100)), (100.0f64 * 0.55).ceil() as usize);
    assert_eq!(percentile(&values, Double::nearest_to(55, 100)), 56);
    assert_eq!(percentile(&values, Double::nearest_to(50, 100)), 50);
    assert_eq!(percentile(&values, Double::nearest_to(95, 100)), 95);
}

#[test]
fn drift_is_what_a_packet_is_late_by() {
    let mut stats = MeasureStats::default();
    let mut now = Instant::at(Duration::from_secs(9));
    // Packets of 20 ms, after 20, 25, 10 and 60 ms.
    stats.record(960, 48_000, now);
    for millis in [20, 25, 10, 60] {
        now = now.after(Duration::from_millis(millis));
        stats.record(960, 48_000, now);
    }
    let report = stats.report(Duration::from_secs(30), Duration::from_secs(2)).unwrap();
    assert_eq!(report.audio_packets, 5);
    assert_eq!(report.total, Duration::from_secs(30));
    assert_eq!(report.warmup, Duration::from_secs(2));
    assert_eq!(report.measured, Duration::from_secs(28));
    assert_eq!(report.p50, Double::whole(5));
    assert_eq!(report.p95, Double::whole(40));
    assert_eq!(report.p99, Double::whole(40));
    assert_eq!(report.p999, Double::whole(40));
    assert_eq!(report.maximum, Double::whole(40));
}

#[test]
fn one_packet_is_not_enough_to_measure() {
    let mut stats = MeasureStats::default();
    assert!(stats.report(Duration::from_secs(1), Duration::zero()).is_err());
    stats.record(960, 48_000, Instant::at(Duration::zero()));
    let error = stats.report(Duration::from_secs(1), Duration::zero()).unwrap_err();
    assert_eq!(error.message(), "Not enough audio packets received to measure jitter");
    stats.record(960, 48_000, Instant::at(Duration::from_millis(30)));
    let report = stats.report(Duration::from_secs(1), Duration::zero()).unwrap();
    let ten = Double::whole(10);
    assert_eq!((report.audio_packets, report.p50, report.maximum), (2, ten, ten));
}

#[test]
fn audio_needs_a_configuration_first() {
    let audio = || Frame::Audio { pts: 7, data: vec![1, 2] };
    match measure_step(audio(), false) {
        MeasureStep::Fail(error) => assert_eq!(error.message(), "Got audio data before config"),
        other => panic!("{other:?}"),
    }
    match measure_step(audio(), true) {
        MeasureStep::Decode { pts, data } => assert_eq!((pts, data), (7, vec![1, 2])),
        other => panic!("{other:?}"),
    }
    match measure_step(Frame::Config(vec![3]), false) {
        MeasureStep::Configure(config) => assert_eq!(config, vec![3]),
        other => panic!("{other:?}"),
    }
}

#[test]
fn a_measurement_ends_and_its_warmup_does_not_count() {
    let start = Instant::at(Duration::from_secs(1));
    let deadline = start.after(Duration::from_secs(10));
    assert_eq!(remaining_time(deadline, start), Some(Duration::from_secs(10)));
    assert_eq!(remaining_time(deadline, deadline), None);
    let after = start.after(Duration::from_secs(1));
    assert!(!packet_counts(960, start, after));
    assert!(packet_counts(960, after, after));
    assert!(!packet_counts(0, after, after));
}

#[test]
fn a_measurement_ends_without_a_decoder() {
    let message = |config: &[u8]| measuring_decoder(config).err().unwrap().message().to_owned();
    assert_eq!(message(&[0x12]), "AAC config too short");
    assert_eq!(
        message(&[0x0a, 0x10]),
        "Failed to create AAC decoder: unsupported feature: aac: aac too complex"
    );
    assert_eq!(measuring_decoder(&[0x12, 0x10]).ok().unwrap().channels(), 2);
}

#[test]
fn drifts_are_differences_of_double_precision() {
    for (delta, frames, rate) in
        [(23_219_955u64, 1024usize, 44_100u32), (23_219_954, 1024, 44_100), (7, 1, 3), (u64::MAX, 1, 1)]
    {
        let mut stats = MeasureStats::default();
        let start = Instant::at(Duration::from_nanos(1));
        stats.record(frames, rate, start);
        stats.record(frames, rate, start.after(Duration::from_nanos(delta as u128)));
        let report = stats.report(Duration::from_secs(1), Duration::zero()).unwrap();
        let arrival = std::time::Duration::from_nanos(delta).as_secs_f64() * 1000.0;
        let drift = (arrival - frames as f64 * 1000.0 / rate as f64).max(0.0);
        let held = report.maximum.digits as f64 * 2f64.powi(report.maximum.place);
        assert_eq!(held, drift, "{delta} ns");
    }
}
