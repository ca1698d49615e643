use iosmic::policy::{BufferLimits, RenderPolicy};
use iosmic::shared::{period_index, SharedAudio};
use iosmic::sink::SinkParameters;
use iosmic::time::{Duration, Instant};

#[test]
fn period_index_is_quantized_monotonic_time() {
    let period = Duration::from_millis(10);
    assert_eq!(period_index(Duration::from_millis(9), period), 0);
    assert_eq!(period_index(Duration::from_millis(10), period), 1);
    assert_eq!(period_index(Duration::from_millis(25), period), 2);
}

fn limits(target_frames: usize, maximum_frames: usize) -> BufferLimits {
    BufferLimits {
        target_frames,
        maximum_frames,
        maximum_age_periods: 3,
        largest_packet_frames: 4,
        submission_bound: Duration::from_millis(40),
    }
}

fn shared() -> (SharedAudio<i32>, Instant) {
    let now = Instant::at(Duration::from_secs(5));
    (SharedAudio::new(limits(6, 8), 1000, 4, Duration::from_millis(10), now), now)
}

#[test]
fn time_stands_still_without_a_period_and_never_runs_out() {
    assert_eq!(period_index(Duration::from_secs(9), Duration::zero()), 0);
    assert_eq!(period_index(Duration::from_nanos(u128::MAX), Duration::from_nanos(1)), u64::MAX);
}

#[test]
fn playback_starts_at_the_target() {
    let (mut shared, now) = shared();
    shared.insert(vec![1, 2, 3, 4], None, now);
    assert!(!shared.begin_period(now).started);
    shared.insert(vec![5, 6], None, now);
    let snapshot = shared.begin_period(now);
    assert!(snapshot.started && snapshot.just_started);
    assert_eq!(snapshot.occupancy, 6);
    let snapshot = shared.begin_period(now);
    assert!(snapshot.started && !snapshot.just_started);
    assert_eq!(shared.take_frames(6, now).unwrap().samples, vec![1, 2, 3, 4, 5, 6]);
    // Once started, playback goes on below the target.
    assert!(shared.begin_period(now).started);
    assert_eq!(shared.splice_serial, 0);
}

#[test]
fn discarded_frames_make_a_cut() {
    let (mut shared, now) = shared();
    shared.insert(vec![1, 2, 3, 4], None, now);
    shared.insert(vec![5, 6, 7, 8], None, now);
    assert_eq!(shared.splice_serial, 0);
    shared.insert(vec![9], None, now);
    assert_eq!(shared.splice_serial, 1);
    assert!(shared.take_frames(9, now).is_none());
    assert_eq!(shared.splice_serial, 1);
    let late = now.after(Duration::from_millis(40));
    assert_eq!(shared.current_index(late), 4);
    assert_eq!(shared.begin_period(late).occupancy, 0);
    assert_eq!(shared.splice_serial, 2);
    assert_eq!(shared.buffer.eviction_stats().capacity_frames, 1);
    assert_eq!(shared.buffer.eviction_stats().age_frames, 8);
}

#[test]
fn a_larger_packet_widens_the_limits() {
    let (mut shared, now) = shared();
    shared.insert(vec![1, 2, 3, 4], None, now);
    shared.insert(vec![5, 6], None, now);
    assert!(shared.begin_period(now).started);
    assert!(!shared.outgrows(4));
    assert!(shared.outgrows(5));
    shared.insert(vec![7; 5], Some(limits(10, 20)), now);
    assert_eq!(shared.limits, limits(10, 20));
    assert_eq!(shared.largest_packet_frames, 5);
    assert_eq!(shared.limits_serial, 1);
    // Six frames were there, fewer than the new target: playback starts again.
    assert!(!shared.started);
    assert_eq!(shared.buffer.occupancy(), 11);
    assert!(shared.begin_period(now).just_started);
}

#[test]
fn serials_wrap() {
    let (mut shared, now) = shared();
    shared.splice_serial = u64::MAX;
    shared.clear_and_reanchor(now);
    assert_eq!(shared.splice_serial, 0);
}

#[test]
fn audio_is_handed_out_within_the_bound_or_not_at_all() {
    for (nanos, handed_out) in [(39_999_999, true), (40_000_000, false)] {
        let (mut shared, now) = shared();
        shared.insert(vec![1], None, now);
        let later = now.after(Duration::from_nanos(nanos));
        assert_eq!(shared.take_frames(1, later).is_some(), handed_out);
    }
}

#[test]
fn a_renderer_starts_with_what_it_will_ask_for() {
    let policy = RenderPolicy {
        target_buffer_ms: None,
        default_target_buffer_ms: 50,
        maximum_buffer_ms: None,
        alsa_buffer_ms: 40,
        starvation_reconnect_ms: 1500,
    };
    let period = Duration::from_millis(10);
    let now = Instant::at(Duration::from_secs(2));
    let (parameters, shared) =
        SharedAudio::<i32>::start(&policy, 16_000, 1024, period, now).unwrap();
    assert_eq!(
        parameters,
        SinkParameters { rate: 16_000, period_frames: 160, buffer_frames: 640 }
    );
    assert_eq!(shared.period, parameters.period());
    assert_eq!(shared.limits.target_frames, 1024 + 160);
    assert_eq!(shared.age_epoch, now);
    assert!(SharedAudio::<i32>::start(&policy, 0, 1024, period, now).is_err());
    assert!(SharedAudio::<i32>::start(&policy, 8_000, 4_000, period, now).is_err());
    let endless = Duration::from_nanos(u128::MAX);
    assert!(SharedAudio::<i32>::start(&policy, 8_000, 1024, endless, now).is_err());
}

#[test]
fn a_packet_gets_the_limits_that_the_policy_derives() {
    let policy = RenderPolicy {
        target_buffer_ms: None,
        default_target_buffer_ms: 50,
        maximum_buffer_ms: None,
        alsa_buffer_ms: 40,
        starvation_reconnect_ms: 1500,
    };
    let now = Instant::at(Duration::from_secs(2));
    let period = Duration::from_millis(10);
    let (_, mut shared) = SharedAudio::<i32>::start(&policy, 8_000, 400, period, now).unwrap();
    let first = shared.limits;
    assert!(shared.admit_packet(&policy, vec![1; 400], now).is_ok());
    assert_eq!((shared.limits, shared.limits_serial), (first, 0));
    assert!(shared.admit_packet(&policy, vec![2; 500], now).is_ok());
    assert_eq!(shared.limits, policy.derive_limits(8_000, 500, period).unwrap());
    assert_eq!((shared.largest_packet_frames, shared.limits_serial), (500, 1));
    assert_eq!(shared.buffer.occupancy(), 900);
    // No limits fit this packet: nothing changes.
    let error = shared.admit_packet(&policy, vec![3; 4000], now).unwrap_err();
    assert!(error.message().contains("no buffer limits fit"));
    assert_eq!((shared.largest_packet_frames, shared.limits_serial), (500, 1));
    assert_eq!(shared.buffer.occupancy(), 900);
}

#[test]
fn both_reasons_for_discarding_are_counted_apart() {
    let (mut shared, now) = shared();
    shared.insert(vec![1, 2, 3, 4], None, now);
    let late = now.after(Duration::from_millis(20));
    shared.insert(vec![5, 6, 7, 8], None, late);
    // The new limits find the first packet too old, and have no room for one frame of the second.
    let narrow = BufferLimits { maximum_age_periods: 1, ..limits(2, 3) };
    shared.insert(vec![9; 5], Some(narrow), late);
    assert_eq!(shared.buffer.eviction_stats().age_frames, 4);
    assert_eq!(shared.buffer.eviction_stats().capacity_frames, 1 + 5);
    assert_eq!(shared.buffer.occupancy(), 3);
}
