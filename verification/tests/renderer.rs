use std::collections::VecDeque;
use std::sync::{Arc, Mutex};

use iosmic::error::ConfigurationError;
use iosmic::jitter::TakenAudio;
use iosmic::period::{
    apply_ramp, declick_frames, PeriodAction, PeriodEvent, PeriodMode, PeriodPlan, SilentPeriod,
};
use iosmic::policy::RenderPolicy;
use iosmic::recovery::{underrun_patience, RunAction, UnderrunStep};
use iosmic::renderer::{
    AttemptAction, AttemptEvent, AttemptResult, Control, InFlight, RenderCounters, RenderState,
};
use iosmic::reopen::{sleep_slice, Reopen, ReopenStep};
use iosmic::shared::SharedAudio;
use iosmic::sink::{
    AudioSink, Availability, MissingPulsePlugin, OpenError, SinkError, SinkFactory, SinkParameters,
    WaitResult, WriteResult,
};
use iosmic::time::{Duration, Instant};

const WRITE_ATTEMPT_MILLIS: u64 = 100;
const EXPIRY_ATTEMPTS: u32 = 3;

#[derive(Default)]
struct FakeState {
    waits: VecDeque<WaitResult>,
    availability: VecDeque<Availability>,
    writes: VecDeque<WriteResult>,
    prepare_calls: usize,
    drop_prepare_calls: usize,
    written_frames: usize,
    submitted_lengths: Vec<usize>,
    open_failures: usize,
    incompatible_open: bool,
}

struct FakeSink {
    parameters: SinkParameters,
    state: Arc<Mutex<FakeState>>,
}

impl AudioSink for FakeSink {
    fn parameters(&self) -> SinkParameters {
        self.parameters
    }

    fn wait_ready(&self, _timeout: Duration) -> Result<WaitResult, SinkError> {
        Ok(self.state.lock().unwrap().waits.pop_front().unwrap_or(WaitResult::Ready))
    }

    fn available_frames(&self) -> Result<Availability, SinkError> {
        Ok(self
            .state
            .lock()
            .unwrap()
            .availability
            .pop_front()
            .unwrap_or(Availability::Frames(self.parameters.period_frames)))
    }

    fn write(&mut self, samples: &[i32]) -> Result<WriteResult, SinkError> {
        let mut state = self.state.lock().unwrap();
        state.submitted_lengths.push(samples.len());
        let result = state.writes.pop_front().unwrap_or(WriteResult::Written(samples.len()));
        if let WriteResult::Written(frames) = result {
            state.written_frames += frames;
        }
        Ok(result)
    }

    fn prepare(&mut self) -> Result<(), SinkError> {
        self.state.lock().unwrap().prepare_calls += 1;
        Ok(())
    }

    fn drop_and_prepare(&mut self) -> Result<(), SinkError> {
        self.state.lock().unwrap().drop_prepare_calls += 1;
        Ok(())
    }

    fn drop_queue(&mut self) -> Result<(), SinkError> {
        Ok(())
    }

    fn delay_frames(&self) -> Result<i64, SinkError> {
        Ok(0)
    }
}

struct FakeFactory {
    parameters: SinkParameters,
    state: Arc<Mutex<FakeState>>,
}

impl SinkFactory for FakeFactory {
    fn open(
        &self,
        _requested_rate: u32,
        _requested_buffer: Duration,
        _requested_period: Duration,
    ) -> Result<Box<dyn AudioSink>, OpenError> {
        let mut state = self.state.lock().unwrap();
        if state.incompatible_open {
            return Err(OpenError::Configuration(ConfigurationError::new("incompatible fake PCM")));
        }
        if state.open_failures > 0 {
            state.open_failures -= 1;
            return Err(OpenError::Unavailable("fake PCM unavailable".to_owned()));
        }
        Ok(Box::new(FakeSink { parameters: self.parameters, state: Arc::clone(&self.state) }))
    }
}

fn mix(from: f32, sample: f32, position: usize, count: usize) -> f32 {
    from + (sample - from) * (position as f32 / count as f32)
}

fn convert(sample: f32) -> i32 {
    (sample.clamp(-1.0, 1.0) * i32::MAX as f32) as i32
}

/// A renderer on a clock that stands still unless it is moved.
struct Worker {
    sink: Option<Box<dyn AudioSink>>,
    factory: FakeFactory,
    policy: RenderPolicy,
    shared: SharedAudio<f32>,
    render: RenderState<f32>,
    now: Instant,
    resets: Vec<Control>,
    starved: usize,
}

impl Worker {
    fn note(&mut self, control: Control) {
        if control != Control::Keep {
            self.resets.push(control);
        }
    }

    fn write_one_attempt(&mut self) -> AttemptResult {
        let deadline = self.now.after(Duration::from_millis(WRITE_ATTEMPT_MILLIS));
        let mut event = AttemptEvent::Begin { cancelled: false };
        loop {
            let (action, control) =
                self.render.attempt_step(&self.shared, event, self.now, deadline);
            self.note(control);
            event = match action {
                AttemptAction::Wait(timeout) => {
                    AttemptEvent::Waited(self.sink.as_ref().unwrap().wait_ready(timeout))
                }
                AttemptAction::Offer => {
                    let sink = self.sink.as_ref().unwrap();
                    AttemptEvent::Offered {
                        period_frames: sink.parameters().period_frames,
                        available: sink.available_frames(),
                    }
                }
                AttemptAction::Render => AttemptEvent::Rendered(self.render_silence_period()),
                AttemptAction::Write => {
                    let samples = self.render.unwritten().to_vec();
                    AttemptEvent::Wrote(self.sink.as_mut().unwrap().write(&samples))
                }
                AttemptAction::Again => AttemptEvent::Begin { cancelled: false },
                AttemptAction::Finish(result) => return result,
            };
        }
    }

    fn render_silence_period(&mut self) -> InFlight {
        let SilentPeriod { period, control, starved } = self.render.render_silence_period(
            self.sink.as_ref().unwrap().parameters(),
            self.policy.starvation_reconnect(),
            self.shared.buffer.occupancy(),
            &mix,
            &convert,
        );
        self.note(control);
        self.starved += starved as usize;
        period
    }

    fn hard_write_recovery(&mut self) {
        let recovered = self.sink.as_mut().unwrap().drop_and_prepare().is_ok();
        let (control, reopen) =
            self.render.hard_write_recovery(&mut self.shared, recovered, self.now);
        self.note(control);
        assert!(!reopen);
    }

    fn recover_underrun(&mut self) -> UnderrunStep {
        let attempt = Duration::from_millis(WRITE_ATTEMPT_MILLIS);
        let (step, control) =
            self.render.begin_underrun(&mut self.shared, self.now, attempt, EXPIRY_ATTEMPTS);
        self.note(control);
        if step == UnderrunStep::Prepare {
            self.sink.as_mut().unwrap().prepare().unwrap();
            let control = self.render.finish_underrun(&self.shared);
            self.note(control);
        }
        step
    }

    /// Opens the device; waiting moves the clock.
    fn reopen_sink(&mut self, initial_open: bool) -> Result<(), OpenError> {
        self.render.begin_reopen();
        self.sink = None;
        let mut reopen = Reopen::start(initial_open, self.now);
        loop {
            match self.factory.open(
                self.shared.source_rate,
                self.policy.requested_alsa_buffer(),
                Duration::from_millis(10),
            ) {
                Ok(sink) => {
                    self.render
                        .adopt_device(
                            &mut self.shared,
                            &self.policy,
                            sink.parameters(),
                            self.now,
                        )
                        .unwrap();
                    self.sink = Some(sink);
                    return Ok(());
                }
                Err(error) => {
                    self.render.count_open_error(&error);
                    match reopen.on_error(error, self.now) {
                        ReopenStep::GiveUp(error) => return Err(error),
                        ReopenStep::Retry { wait, .. } => self.now = self.now.after(wait),
                    }
                }
            }
        }
    }
}

fn parameters() -> SinkParameters {
    SinkParameters { rate: 48_000, period_frames: 480, buffer_frames: 1920 }
}

fn test_worker() -> (Worker, Arc<Mutex<FakeState>>) {
    let parameters = parameters();
    let policy = RenderPolicy {
        target_buffer_ms: Some(50),
        default_target_buffer_ms: 50,
        maximum_buffer_ms: Some(100),
        alsa_buffer_ms: 40,
        starvation_reconnect_ms: 1500,
    };
    let limits = policy.derive_limits(48_000, 1024, parameters.period()).unwrap();
    let now = Instant::at(Duration::from_secs(100));
    let state = Arc::new(Mutex::new(FakeState::default()));
    let worker = Worker {
        sink: Some(Box::new(FakeSink { parameters, state: Arc::clone(&state) })),
        factory: FakeFactory { parameters, state: Arc::clone(&state) },
        policy,
        shared: SharedAudio::new(limits, 48_000, 1024, parameters.period(), now),
        render: RenderState::new(0.0),
        now,
        resets: Vec::new(),
        starved: 0,
    };
    (worker, state)
}

#[test]
fn declick_ramp_reaches_new_signal() {
    let mut samples = vec![1.0; 4];
    apply_ramp(&mut samples, 0.0, 4, &mix);
    assert_eq!(samples, vec![0.25, 0.5, 0.75, 1.0]);
}

#[test]
fn a_ramp_leaves_the_rest_of_the_signal_alone() {
    let mut samples = vec![1.0; 5];
    apply_ramp(&mut samples, 0.0, 2, &mix);
    assert_eq!(samples, vec![0.5, 1.0, 1.0, 1.0, 1.0]);
    apply_ramp(&mut samples, 0.0, 0, &mix);
    assert_eq!(samples, vec![0.5, 1.0, 1.0, 1.0, 1.0]);
    assert_eq!(declick_frames(48_000), 240);
    assert_eq!(declick_frames(44_100), 220);
}

#[test]
fn readiness_expiry_does_not_consume_jitter_media() {
    let (mut worker, state) = test_worker();
    worker.shared.buffer.insert(vec![0.25; 3000], 0);
    state.lock().unwrap().waits.push_back(WaitResult::TimedOut);

    assert_eq!(worker.write_one_attempt(), AttemptResult::Expired);
    assert_eq!(worker.shared.buffer.occupancy(), 3000);
    assert!(worker.render.in_flight.is_none());
}

#[test]
fn readiness_requires_a_complete_output_period() {
    let (mut worker, state) = test_worker();
    worker.shared.buffer.insert(vec![0.25; 3000], 0);
    {
        let mut state = state.lock().unwrap();
        state.availability.push_back(Availability::Frames(479));
        state.waits.push_back(WaitResult::Ready);
        state.waits.push_back(WaitResult::TimedOut);
    }

    assert_eq!(worker.write_one_attempt(), AttemptResult::Expired);
    assert_eq!(worker.shared.buffer.occupancy(), 3000);
    assert!(worker.render.in_flight.is_none());
}

#[test]
fn readiness_underrun_is_not_misclassified_as_reopen() {
    let (mut worker, state) = test_worker();
    state.lock().unwrap().waits.push_back(WaitResult::Underrun);
    assert_eq!(worker.write_one_attempt(), AttemptResult::Underrun);
}

#[test]
fn soft_expiry_preserves_an_existing_in_flight_period() {
    let (mut worker, state) = test_worker();
    worker.render.in_flight =
        Some(InFlight { samples: vec![1; 480], offset: 17, oldest_insertion_index: None });
    state.lock().unwrap().waits.push_back(WaitResult::TimedOut);

    assert_eq!(worker.write_one_attempt(), AttemptResult::Expired);
    assert_eq!(worker.render.in_flight.as_ref().unwrap().offset, 17);
}

#[test]
fn hard_write_recovery_clears_media_and_drops_pcm_queue() {
    let (mut worker, state) = test_worker();
    worker.render.rendered_source = true;
    worker.render.last_output = 0.25;
    worker.shared.buffer.insert(vec![0.25; 3000], 0);
    worker.render.in_flight =
        Some(InFlight { samples: vec![1; 480], offset: 0, oldest_insertion_index: Some(0) });

    worker.hard_write_recovery();
    assert_eq!(worker.shared.buffer.occupancy(), 0);
    assert!(worker.render.in_flight.is_none());
    assert_eq!(worker.render.ramp_from, Some(0.25));
    assert_eq!(state.lock().unwrap().drop_prepare_calls, 1);
    assert_eq!(worker.resets, vec![Control::ResetAll { occupancy: 0 }]);
}

#[test]
fn underrun_preserves_fresh_buffer_and_suffix() {
    let (mut worker, state) = test_worker();
    worker.shared.buffer.insert(vec![0.25; 3000], 0);
    worker.render.in_flight =
        Some(InFlight { samples: vec![1; 480], offset: 37, oldest_insertion_index: Some(0) });

    assert_eq!(worker.recover_underrun(), UnderrunStep::Prepare);
    assert_eq!(worker.shared.buffer.occupancy(), 3000);
    assert_eq!(worker.render.in_flight.as_ref().unwrap().offset, 37);
    assert_eq!(state.lock().unwrap().prepare_calls, 1);
    assert_eq!(worker.resets, vec![Control::ResetAll { occupancy: 3000 }]);
}

#[test]
fn indexed_expiry_wins_over_underrun_suffix_preservation() {
    let (mut worker, state) = test_worker();
    worker.shared.limits.maximum_age_periods = 0;
    worker.now = worker.now.after(Duration::from_millis(20));
    worker.render.in_flight =
        Some(InFlight { samples: vec![1; 480], offset: 37, oldest_insertion_index: Some(0) });

    assert_eq!(worker.recover_underrun(), UnderrunStep::Dropped);
    assert!(worker.render.in_flight.is_none());
    assert_eq!(state.lock().unwrap().prepare_calls, 0);
}

#[test]
fn recovered_playback_is_silent_until_the_target_is_reached() {
    let (mut worker, _state) = test_worker();
    worker.shared.insert(vec![0.25; 1000], None, worker.now);
    worker.shared.insert(vec![0.25; 1000], None, worker.now);
    worker.shared.insert(vec![0.25; 1000], None, worker.now);
    assert!(worker.shared.begin_period(worker.now).started);
    worker.hard_write_recovery();
    let snapshot = worker.shared.begin_period(worker.now);
    assert_eq!(worker.render.begin_period(snapshot).mode, PeriodMode::Silence);
    worker.shared.insert(vec![0.25; 1000], None, worker.now);
    worker.shared.insert(vec![0.25; 1000], None, worker.now);
    assert!(!worker.shared.begin_period(worker.now).started);
    worker.shared.insert(vec![0.25; 400], None, worker.now);
    assert!(worker.shared.begin_period(worker.now).just_started);
}

#[test]
fn patience_lasts_as_long_as_the_attempts_that_may_expire() {
    let attempt = Duration::from_millis(WRITE_ATTEMPT_MILLIS);
    assert_eq!(
        underrun_patience(attempt, EXPIRY_ATTEMPTS),
        Duration::from_millis(WRITE_ATTEMPT_MILLIS * EXPIRY_ATTEMPTS as u64)
    );
    assert_eq!(underrun_patience(attempt, 0), Duration::zero());
}

#[test]
fn underruns_without_an_end_reopen_the_device() {
    let (mut worker, state) = test_worker();
    worker.shared.buffer.insert(vec![0.25; 3000], 0);
    assert_eq!(worker.recover_underrun(), UnderrunStep::Prepare);
    worker.now = worker.now.after(Duration::from_millis(299));
    assert_eq!(worker.recover_underrun(), UnderrunStep::Prepare);
    worker.now = worker.now.after(Duration::from_millis(1));
    assert_eq!(worker.recover_underrun(), UnderrunStep::Reopen);
    assert_eq!(worker.shared.buffer.occupancy(), 0);
    assert_eq!(state.lock().unwrap().prepare_calls, 2);
}

#[test]
fn partial_writes_submit_only_the_unwritten_suffix() {
    let (mut worker, state) = test_worker();
    worker.render.in_flight =
        Some(InFlight { samples: vec![1; 480], offset: 0, oldest_insertion_index: None });
    state
        .lock()
        .unwrap()
        .writes
        .extend([WriteResult::Written(17), WriteResult::Written(463)]);

    assert_eq!(worker.write_one_attempt(), AttemptResult::Completed);
    let state = state.lock().unwrap();
    assert_eq!(state.submitted_lengths, vec![480, 463]);
    assert_eq!(state.written_frames, 480);
}

#[test]
fn a_write_that_would_block_is_counted_and_repeated() {
    let (mut worker, state) = test_worker();
    worker.render.in_flight =
        Some(InFlight { samples: vec![1; 480], offset: 0, oldest_insertion_index: None });
    state
        .lock()
        .unwrap()
        .writes
        .extend([WriteResult::WouldBlock, WriteResult::Written(0), WriteResult::Written(480)]);

    assert_eq!(worker.write_one_attempt(), AttemptResult::Completed);
    assert_eq!(worker.render.counters.would_block, 1);
    assert_eq!(state.lock().unwrap().submitted_lengths, vec![480, 480, 480]);
}

#[test]
fn a_suspended_device_is_reopened() {
    let (mut worker, state) = test_worker();
    state.lock().unwrap().waits.push_back(WaitResult::Suspended);
    assert_eq!(worker.write_one_attempt(), AttemptResult::Reopen);
    state.lock().unwrap().availability.push_back(Availability::Suspended);
    assert_eq!(worker.write_one_attempt(), AttemptResult::Reopen);
    state.lock().unwrap().writes.push_back(WriteResult::Suspended);
    assert_eq!(worker.write_one_attempt(), AttemptResult::Reopen);
    state.lock().unwrap().writes.push_back(WriteResult::Underrun);
    assert_eq!(worker.write_one_attempt(), AttemptResult::Underrun);
}

#[test]
fn a_cancelled_or_late_attempt_ends_before_the_device_is_asked() {
    let (mut worker, _state) = test_worker();
    let now = worker.now;
    let cancelled = AttemptEvent::Begin { cancelled: true };
    assert_eq!(
        worker.render.attempt_step(&worker.shared, cancelled, now, now),
        (AttemptAction::Finish(AttemptResult::Completed), Control::Keep)
    );
    let begin = AttemptEvent::Begin { cancelled: false };
    assert_eq!(
        worker.render.attempt_step(&worker.shared, begin, now, now),
        (AttemptAction::Wait(Duration::zero()), Control::Keep)
    );
    let late = now.after(Duration::from_nanos(1));
    let begin = AttemptEvent::Begin { cancelled: false };
    assert_eq!(
        worker.render.attempt_step(&worker.shared, begin, late, now),
        (AttemptAction::Finish(AttemptResult::Expired), Control::Keep)
    );
    let failed = AttemptEvent::Waited(Err(SinkError::Errno(5)));
    assert_eq!(
        worker.render.attempt_step(&worker.shared, failed, now, now),
        (AttemptAction::Finish(AttemptResult::Reopen), Control::Keep)
    );
}

#[test]
fn an_aged_period_is_dropped_instead_of_written() {
    let (mut worker, state) = test_worker();
    worker.shared.limits.maximum_age_periods = 3;
    worker.now = worker.now.after(Duration::from_millis(39));
    worker.render.last_output = 0.5;
    let period = || InFlight { samples: vec![1; 480], offset: 0, oldest_insertion_index: Some(0) };
    worker.render.in_flight = Some(period());
    assert_eq!(worker.write_one_attempt(), AttemptResult::Completed);
    assert_eq!(state.lock().unwrap().submitted_lengths, vec![480]);

    worker.now = worker.now.after(Duration::from_millis(1));
    worker.render.in_flight = Some(period());
    state.lock().unwrap().waits.push_back(WaitResult::TimedOut);
    assert_eq!(worker.write_one_attempt(), AttemptResult::Expired);
    assert!(worker.render.in_flight.is_none());
    assert_eq!(worker.render.ramp_from, Some(0.5));
    assert_eq!(worker.render.counters.splices, 1);
    assert_eq!(worker.resets, vec![Control::ResetFilter { occupancy: 0 }]);
}

#[test]
fn starvation_emits_one_reconnect_event_at_the_threshold() {
    let (mut worker, _state) = test_worker();
    worker.render.rendered_source = true;

    for _ in 0..149 {
        let _ = worker.render_silence_period();
        assert_eq!(worker.starved, 0);
    }
    let _ = worker.render_silence_period();
    assert_eq!(worker.starved, 1);
    assert_eq!(worker.render.starving_for, Duration::from_millis(1500));
}

#[test]
fn silence_before_any_audio_is_no_starvation() {
    let (mut worker, _state) = test_worker();
    for _ in 0..200 {
        let period = worker.render_silence_period();
        assert_eq!(period.samples, vec![0; 480]);
        assert_eq!(period.oldest_insertion_index, None);
    }
    assert_eq!(worker.starved, 0);
    assert_eq!(worker.render.counters.silence_frames, 200 * 480);
    assert_eq!(worker.render.counters.splices, 0);
}

#[test]
fn silence_after_audio_is_faded_in_once() {
    let (mut worker, _state) = test_worker();
    worker.render.source_was_silent = false;
    worker.render.last_output = 1.0;
    let first = worker.render_silence_period();
    assert_eq!(first.samples[239], 0);
    assert_eq!(first.samples[119], convert(0.5));
    assert!(first.samples[0] > first.samples[1]);
    let second = worker.render_silence_period();
    assert_eq!(second.samples, vec![0; 480]);
    assert_eq!(worker.render.counters.splices, 1);
}

#[test]
fn audio_after_silence_is_faded_in_and_ends_starvation() {
    let (mut worker, _state) = test_worker();
    worker.render.starving_for = Duration::from_secs(1);
    let period = worker.render.render_source_period(vec![1.0; 480], 7, 48_000, &mix, &convert);
    assert_eq!(period.offset, 0);
    assert_eq!(period.oldest_insertion_index, Some(7));
    assert_eq!(period.samples[119], convert(0.5));
    assert_eq!(period.samples[239], convert(1.0));
    assert_eq!(period.samples[479], convert(1.0));
    assert_eq!(worker.render.last_output, 1.0);
    assert!(worker.render.rendered_source);
    assert!(worker.render.starving_for.is_zero());

    let period = worker.render.render_source_period(vec![0.5; 480], 8, 48_000, &mix, &convert);
    assert_eq!(period.samples, vec![convert(0.5); 480]);
    let period = worker.render.render_source_period(Vec::new(), 9, 48_000, &mix, &convert);
    assert!(period.samples.is_empty());
    assert_eq!(worker.render.last_output, 0.5);
}

#[test]
fn a_period_begins_with_what_changed() {
    let (mut worker, _state) = test_worker();
    let snapshot = worker.shared.begin_period(worker.now);
    assert_eq!(
        worker.render.begin_period(snapshot),
        PeriodPlan {
            reconfigure: None,
            control: Control::Keep,
            start_filter: None,
            mode: PeriodMode::Silence,
        }
    );

    let limits = worker.policy.derive_limits(48_000, 2000, parameters().period()).unwrap();
    worker.shared.insert(vec![0.25; 2000], Some(limits), worker.now);
    worker.shared.insert(vec![0.25; 2000], None, worker.now);
    worker.shared.insert(vec![0.25; 2000], None, worker.now);
    let snapshot = worker.shared.begin_period(worker.now);
    assert_eq!(
        worker.render.begin_period(snapshot),
        PeriodPlan {
            reconfigure: Some(limits),
            control: Control::ResetFilter { occupancy: 4800 },
            start_filter: Some(4800),
            mode: PeriodMode::Source { occupancy: 4800 },
        }
    );
    let snapshot = worker.shared.begin_period(worker.now);
    assert_eq!(
        worker.render.begin_period(snapshot),
        PeriodPlan {
            reconfigure: None,
            control: Control::Keep,
            start_filter: None,
            mode: PeriodMode::Source { occupancy: 4800 },
        }
    );
}

fn taken(length: usize) -> Option<TakenAudio<f32>> {
    Some(TakenAudio { samples: vec![0.25; length], oldest_insertion_index: 0 })
}

#[test]
fn a_period_is_rendered_step_by_step() {
    let (mut worker, _state) = test_worker();
    let now = worker.now;
    let step = worker.render.period_step(&mut worker.shared, PeriodEvent::Begin, now);
    assert!(matches!(step.action, PeriodAction::Silence));

    for _ in 0..3 {
        worker.shared.insert(vec![0.25; 1000], None, now);
    }
    let step = worker.render.period_step(&mut worker.shared, PeriodEvent::Begin, now);
    assert!(matches!(step.action, PeriodAction::Correct { occupancy: 3000 }));
    assert_eq!(step.start_filter, Some(3000));
    assert_eq!(step.control, Control::Keep);

    let corrected =
        PeriodEvent::Corrected { saturated: Duration::from_secs(5), needed: 480 };
    let step = worker.render.period_step(&mut worker.shared, corrected, now);
    assert!(step.report);
    match step.action {
        PeriodAction::Resample(audio) => assert_eq!(Some(audio), taken(480)),
        other => panic!("{other:?}"),
    }
    assert_eq!(worker.shared.buffer.occupancy(), 2520);

    let corrected = PeriodEvent::Corrected { saturated: Duration::zero(), needed: 2521 };
    let step = worker.render.period_step(&mut worker.shared, corrected, now);
    assert!(!step.report);
    assert!(matches!(step.action, PeriodAction::Silence));
    assert_eq!(worker.shared.buffer.occupancy(), 2520);
}

#[test]
fn audio_cut_short_by_a_splice_is_not_resampled() {
    let (mut worker, _state) = test_worker();
    let now = worker.now;
    worker.shared.insert(vec![0.0; 1000], None, now);
    let late = now.after(Duration::from_millis(60));
    worker.shared.insert(vec![0.25; 1000], None, late);
    // By now the first packet is too old and the second is not.
    let later = now.after(Duration::from_millis(110));
    let corrected = PeriodEvent::Corrected { saturated: Duration::zero(), needed: 480 };
    let step = worker.render.period_step(&mut worker.shared, corrected, later);
    assert_eq!(step.control, Control::ResetFilter { occupancy: 520 });
    let audio = match step.action {
        PeriodAction::Refit { taken } => taken.unwrap(),
        other => panic!("{other:?}"),
    };
    assert_eq!(audio.samples, vec![0.25; 480]);
    assert_eq!(audio.oldest_insertion_index, 6);

    let refitted = |taken, needed| PeriodEvent::Refitted { taken, needed };
    let mut action =
        |event| worker.render.period_step(&mut worker.shared, event, later).action;
    assert!(matches!(action(refitted(taken(480), 480)), PeriodAction::Resample(_)));
    assert!(matches!(action(refitted(taken(480), 481)), PeriodAction::Silence));
    assert!(matches!(action(refitted(None, 480)), PeriodAction::Silence));
}

#[test]
fn saturation_is_reported_once_each_time() {
    let (mut worker, _state) = test_worker();
    let long = Duration::from_secs(5);
    assert!(!worker.render.note_saturation(Duration::from_millis(4999)));
    assert!(worker.render.note_saturation(long));
    assert!(!worker.render.note_saturation(long));
    assert!(!worker.render.note_saturation(Duration::zero()));
    assert!(worker.render.note_saturation(long));
}

#[test]
fn attempts_are_counted_and_lead_to_recovery() {
    let (mut worker, _state) = test_worker();
    let render = &mut worker.render;
    for period in 1..=200u64 {
        assert_eq!(
            render.on_attempt(AttemptResult::Completed, EXPIRY_ATTEMPTS),
            RunAction::Continue { log: period % 100 == 0 }
        );
    }
    let quiet = RunAction::Continue { log: false };
    assert_eq!(render.on_attempt(AttemptResult::Expired, EXPIRY_ATTEMPTS), quiet);
    assert_eq!(render.on_attempt(AttemptResult::Expired, EXPIRY_ATTEMPTS), quiet);
    assert_eq!(
        render.on_attempt(AttemptResult::Expired, EXPIRY_ATTEMPTS),
        RunAction::HardRecovery
    );
    assert_eq!(
        render.on_attempt(AttemptResult::Underrun, EXPIRY_ATTEMPTS),
        RunAction::RecoverUnderrun
    );
    assert_eq!(render.on_attempt(AttemptResult::Reopen, EXPIRY_ATTEMPTS), RunAction::Reopen);
    assert_eq!(
        render.counters,
        RenderCounters { write_expiries: 3, underruns: 1, ..RenderCounters::default() }
    );
    assert!(render.has_room());
}

#[test]
fn initial_pcm_unavailability_retries_locally_until_open() {
    let (mut worker, state) = test_worker();
    worker.sink = None;
    state.lock().unwrap().open_failures = 1;

    worker.reopen_sink(true).unwrap();

    assert!(worker.sink.is_some());
    assert_eq!(worker.render.counters.reopen_attempts, 1);
    assert_eq!(worker.render.counters.reopen_failures, 1);
}

#[test]
fn incompatible_initial_pcm_is_immediately_terminal() {
    let (mut worker, state) = test_worker();
    worker.sink = None;
    state.lock().unwrap().incompatible_open = true;

    let error = worker.reopen_sink(true).unwrap_err();

    assert!(matches!(error, OpenError::Configuration(_)));
    assert_eq!(worker.render.counters.reopen_failures, 1);
}

#[test]
fn an_incompatible_device_is_given_up_on_after_a_while() {
    let (mut worker, state) = test_worker();
    let started = worker.now;
    state.lock().unwrap().incompatible_open = true;

    let error = worker.reopen_sink(false).unwrap_err();

    assert!(matches!(error, OpenError::Configuration(_)));
    // Tries after 0, 250, 750, 1750, 3750 and 7750 milliseconds.
    assert_eq!(worker.render.counters.reopen_failures, 6);
    assert_eq!(worker.now, started.after(Duration::from_millis(7750)));
}

#[test]
fn waits_double_and_reports_come_at_their_times() {
    let start = Instant::at(Duration::from_secs(1));
    let mut now = start;
    let mut reopen = Reopen::start(false, now);
    let mut waits = Vec::new();
    let mut reports = Vec::new();
    while now.saturating_duration_since(start) <= Duration::from_secs(130) {
        match reopen.on_error(OpenError::Unavailable("gone".to_owned()), now) {
            ReopenStep::Retry { wait, unavailable } => {
                if let Some(reason) = unavailable {
                    assert_eq!(reason, "gone");
                    reports.push(reopen.elapsed_at(now).as_millis());
                }
                waits.push(wait.as_millis());
                now = now.after(wait);
            }
            ReopenStep::GiveUp(error) => panic!("{error:?}"),
        }
    }
    assert_eq!(waits[..7], [250, 500, 1000, 2000, 4000, 5000, 5000]);
    assert_eq!(reports, vec![7750, 17750, 32750, 62750, 122750]);
}

#[test]
fn another_fault_or_an_absence_starts_the_count_over() {
    let fault = |text: &str| OpenError::Configuration(ConfigurationError::new(text));
    let mut now = Instant::at(Duration::zero());
    let mut reopen = Reopen::start(false, now);
    for text in ["a", "a", "b", "a", "a"] {
        assert!(matches!(reopen.on_error(fault(text), now), ReopenStep::Retry { .. }));
        now = now.after(Duration::from_secs(10));
    }
    let away = OpenError::Unavailable("away".to_owned());
    assert!(matches!(reopen.on_error(away, now), ReopenStep::Retry { .. }));
    assert!(matches!(reopen.on_error(fault("a"), now), ReopenStep::Retry { .. }));
    assert!(matches!(reopen.on_error(fault("a"), now), ReopenStep::Retry { .. }));
    let later = now.after(Duration::from_secs(5));
    assert!(matches!(
        reopen.on_error(fault("a"), later),
        ReopenStep::GiveUp(OpenError::Configuration(_))
    ));
    let missing = OpenError::MissingPulsePlugin(MissingPulsePlugin);
    assert!(matches!(
        reopen.on_error(missing, later),
        ReopenStep::GiveUp(OpenError::MissingPulsePlugin(_))
    ));
}

#[test]
fn a_missing_plugin_is_not_counted() {
    let (mut worker, _state) = test_worker();
    worker.render.count_open_error(&OpenError::MissingPulsePlugin(MissingPulsePlugin));
    assert_eq!(worker.render.counters.reopen_failures, 0);
}

#[test]
fn sleep_is_cut_into_slices() {
    let now = Instant::at(Duration::from_secs(3));
    let deadline = now.after(Duration::from_millis(250));
    assert_eq!(sleep_slice(deadline, now), Some(Duration::from_millis(100)));
    let later = now.after(Duration::from_millis(200));
    assert_eq!(sleep_slice(deadline, later), Some(Duration::from_millis(50)));
    assert_eq!(sleep_slice(deadline, deadline), Some(Duration::zero()));
    assert_eq!(sleep_slice(deadline, deadline.after(Duration::from_nanos(1))), None);
}

#[test]
fn a_reopened_device_starts_over() {
    let (mut worker, _state) = test_worker();
    worker.shared.buffer.insert(vec![0.25; 3000], 0);
    worker.shared.started = true;
    worker.render.rendered_source = true;
    worker.render.last_output = 0.75;
    worker.render.consecutive_expiries = 2;
    worker.reopen_sink(false).unwrap();
    assert_eq!(worker.shared.buffer.occupancy(), 0);
    assert!(!worker.shared.started);
    assert_eq!(worker.shared.limits_serial, 1);
    assert_eq!(worker.shared.splice_serial, 1);
    assert_eq!(worker.render.ramp_from, Some(0.75));
    assert_eq!(worker.render.last_output, 0.0);
    assert_eq!(worker.render.consecutive_expiries, 0);
}

#[test]
fn a_device_without_limits_is_not_adopted() {
    let (mut worker, _state) = test_worker();
    worker.shared.buffer.insert(vec![0.25; 3000], 0);
    let long = SinkParameters { rate: 48_000, period_frames: 48_000, buffer_frames: 96_000 };
    let still = SinkParameters { rate: 0, ..parameters() };
    for refused in [long, still] {
        assert!(worker
            .render
            .adopt_device(&mut worker.shared, &worker.policy, refused, worker.now)
            .is_err());
        assert_eq!(worker.shared.buffer.occupancy(), 3000);
        assert_eq!(worker.shared.limits_serial, 0);
    }
    let other = SinkParameters { rate: 44_100, period_frames: 441, buffer_frames: 1764 };
    worker
        .render
        .adopt_device(&mut worker.shared, &worker.policy, other, worker.now)
        .unwrap();
    assert_eq!(
        worker.shared.limits,
        worker.policy.derive_limits(48_000, 1024, other.period()).unwrap()
    );
    assert_eq!(worker.shared.period, other.period());
    assert_eq!(worker.shared.buffer.occupancy(), 0);
}
