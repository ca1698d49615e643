use iosmic::policy::{
    default_target_buffer_ms, duration_to_frames_ceil, BufferLimits, LatencyExceeded, PlayPolicy,
    PlayStep, PolicyState, RenderPolicy,
};
use iosmic::sink::SinkParameters;
use iosmic::time::Duration;

fn default_policy(buffer_ms: u32, latency_reconnect_ms: u32) -> PlayPolicy {
    PlayPolicy { buffer_ms, latency_reconnect_ms }
}

/// A device that records what it is given and is always equally far behind.
struct RecordingSink {
    delay: i64,
    writes: Vec<Vec<i32>>,
}

impl RecordingSink {
    fn new(delay: i64) -> Self {
        RecordingSink { delay, writes: Vec::new() }
    }
}

fn convert(samples: &[f32]) -> Vec<i32> {
    samples.iter().map(|&sample| (sample * i32::MAX as f32) as i32).collect()
}

fn write(
    state: &mut PolicyState<f32>,
    sink: &mut RecordingSink,
    samples: &[f32],
) -> Result<i64, LatencyExceeded> {
    match state.write(samples, sink.delay)? {
        PlayStep::Buffered => {}
        PlayStep::Flush => {
            sink.writes.push(convert(state.prefill()));
            state.flushed();
        }
        PlayStep::Resample => sink.writes.push(convert(samples)),
    }
    Ok(sink.delay)
}

fn flush_prefill(state: &mut PolicyState<f32>, sink: &mut RecordingSink, buffer_samples: usize) {
    let zeros = vec![0.0f32; buffer_samples];
    write(state, sink, &zeros).expect("prefill flush failed");
}

#[test]
fn prefill_accumulates_without_flushing_until_threshold() {
    let mut sink = RecordingSink::new(42);
    let mut state = PolicyState::new(&default_policy(100, 0), 1000);
    let samples = vec![0.0f32; 50];
    assert!(write(&mut state, &mut sink, &samples).is_ok());
    assert!(sink.writes.is_empty());
}

#[test]
fn prefill_flushes_exactly_at_threshold() {
    let mut sink = RecordingSink::new(42);
    let mut state = PolicyState::new(&default_policy(100, 0), 1000);
    let samples = vec![0.0f32; 100];
    assert!(write(&mut state, &mut sink, &samples).is_ok());
    assert_eq!(sink.writes.len(), 1);
    assert_eq!(sink.writes[0].len(), 100);
}

#[test]
fn prefill_flush_then_subsequent_write_goes_through_resampler() {
    let mut sink = RecordingSink::new(42);
    let mut state = PolicyState::new(&default_policy(10, 0), 1000);
    flush_prefill(&mut state, &mut sink, 10);
    let samples = vec![0.0f32; 1024];
    assert_eq!(state.write(&samples, 42), Ok(PlayStep::Resample));
    assert!(write(&mut state, &mut sink, &samples).is_ok());
    assert_eq!(sink.writes.len(), 2);
}

#[test]
fn reconnect_threshold_zero_never_bails() {
    let mut sink = RecordingSink::new(999999);
    let mut state = PolicyState::new(&default_policy(10, 0), 1000);
    flush_prefill(&mut state, &mut sink, 10);
    let samples = vec![0.0f32; 1024];
    assert!(write(&mut state, &mut sink, &samples).is_ok());
    assert_eq!(sink.writes.len(), 2);
}

#[test]
fn reconnect_threshold_exceeded_returns_error() {
    let mut sink = RecordingSink::new(51);
    let mut state = PolicyState::new(&default_policy(10, 50), 1000);
    flush_prefill(&mut state, &mut sink, 10);
    let samples = vec![0.0f32; 1024];
    let result = write(&mut state, &mut sink, &samples);
    assert!(result.is_err());
    assert_eq!(sink.writes.len(), 1);
    let msg = result.unwrap_err().message();
    assert!(msg.contains("Latency"), "error message was: {msg}");
    assert_eq!(msg, "Latency 51 samples exceeds reconnect threshold");
}

#[test]
fn reconnect_threshold_at_boundary_does_not_bail() {
    let mut sink = RecordingSink::new(50);
    let mut state = PolicyState::new(&default_policy(10, 50), 1000);
    flush_prefill(&mut state, &mut sink, 10);
    let samples = vec![0.0f32; 1024];
    assert!(write(&mut state, &mut sink, &samples).is_ok());
    assert_eq!(sink.writes.len(), 2);
}

#[test]
fn prefill_keeps_every_sample_in_order() {
    let mut sink = RecordingSink::new(0);
    let mut state = PolicyState::new(&default_policy(3, 0), 1000);
    assert!(write(&mut state, &mut sink, &[0.25]).is_ok());
    assert!(write(&mut state, &mut sink, &[0.5]).is_ok());
    assert!(write(&mut state, &mut sink, &[0.75, 1.0]).is_ok());
    assert_eq!(sink.writes, vec![convert(&[0.25, 0.5, 0.75, 1.0])]);
    assert!(state.prefill().is_empty());
}

#[test]
fn a_negative_delay_is_spelled_out() {
    let error = LatencyExceeded { delay: i64::MIN };
    assert_eq!(
        error.message(),
        "Latency -9223372036854775808 samples exceeds reconnect threshold"
    );
}

#[test]
fn the_buffer_is_converted_to_microseconds() {
    assert_eq!(default_policy(100, 0).buffer_us(), 100_000);
    assert_eq!(default_policy(100, 0).clone().buffer_ms, 100);
}

fn render_policy(target: Option<u32>, maximum: Option<u32>) -> RenderPolicy {
    RenderPolicy {
        target_buffer_ms: target,
        default_target_buffer_ms: default_target_buffer_ms(true),
        maximum_buffer_ms: maximum,
        alsa_buffer_ms: 40,
        starvation_reconnect_ms: 1500,
    }
}

#[test]
fn wifi_gets_twice_the_target_of_a_cable() {
    assert_eq!(default_target_buffer_ms(false), 50);
    assert_eq!(default_target_buffer_ms(true), 100);
}

#[test]
fn limits_follow_the_policy() {
    let period = Duration::from_millis(10);
    assert_eq!(
        render_policy(Some(50), Some(100)).derive_limits(48_000, 1024, period).unwrap(),
        BufferLimits {
            target_frames: 2400,
            maximum_frames: 4800,
            maximum_age_periods: 10,
            largest_packet_frames: 1024,
            submission_bound: Duration::from_millis(110),
        }
    );
    // The target covers a packet and a period at least.
    let limits = render_policy(None, None).derive_limits(8_000, 2048, period).unwrap();
    assert_eq!(limits.target_frames, 2128);
    assert_eq!(limits.maximum_frames, 4256);
    assert_eq!(limits.maximum_age_periods, 54);
    assert_eq!(limits.submission_bound, Duration::from_millis(550));
    assert!(render_policy(None, None).derive_limits(8_000, 3920, period).is_ok());
}

#[test]
fn limits_that_do_not_fit_are_refused() {
    let period = Duration::from_millis(10);
    let refusals = [
        render_policy(None, None).derive_limits(8_000, 3921, period),
        render_policy(None, None).derive_limits(0, 1024, period),
        render_policy(None, None).derive_limits(48_000, 1024, Duration::zero()),
        render_policy(None, None).derive_limits(48_000, usize::MAX, period),
        render_policy(None, None).derive_limits(48_000, 1024, Duration::from_secs(u64::MAX)),
        render_policy(Some(501), None).derive_limits(48_000, 1024, period),
        render_policy(Some(200), Some(100)).derive_limits(48_000, 1024, period),
    ];
    for refusal in refusals {
        assert!(refusal.unwrap_err().message().contains("no buffer limits fit"));
    }
}

#[test]
fn the_device_is_asked_for_the_source_rate() {
    let policy = render_policy(None, None);
    assert_eq!(
        policy.requested_parameters(44_100, Duration::from_millis(10)),
        Some(SinkParameters { rate: 44_100, period_frames: 441, buffer_frames: 1764 })
    );
    assert_eq!(policy.requested_parameters(44_100, Duration::from_nanos(u128::MAX)), None);
    assert_eq!(policy.requested_parameters(44_100, Duration::from_secs(u64::MAX)), None);
    assert_eq!(policy.requested_alsa_buffer(), Duration::from_millis(40));
    assert_eq!(policy.starvation_reconnect(), Duration::from_millis(1500));
}

#[test]
fn spans_are_rounded_up_to_frames() {
    assert_eq!(duration_to_frames_ceil(Duration::from_millis(10), 22_050), 221);
    assert_eq!(duration_to_frames_ceil(Duration::from_millis(10), 48_000), 480);
    assert_eq!(duration_to_frames_ceil(Duration::from_nanos(1), 1), 1);
    assert_eq!(duration_to_frames_ceil(Duration::zero(), 48_000), 0);
}
