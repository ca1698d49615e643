//! How much audio is held back before it is played, and when playback gives up.

use vstd::prelude::*;

use crate::error::ConfigurationError;
use crate::jitter::joined;
use crate::sink::SinkParameters;
use crate::text::{decimal, decimals_are_read_back, push_decimal, read_decimal};
use crate::time::{frames_nanos, Duration, NANOS_PER_MILLI, NANOS_PER_SEC};

verus! {

/// The simple policy: fill a buffer once, then play everything, and reconnect when the device
/// falls too far behind.
#[derive(Clone, Debug)]
pub struct PlayPolicy {
    pub buffer_ms: u32,
    pub latency_reconnect_ms: u32,
}

impl PlayPolicy {
    /// The buffer in microseconds.
    pub fn buffer_us(&self) -> (micros: u32)
        requires
            self.buffer_ms * 1000 <= u32::MAX,
        ensures
            micros == self.buffer_ms * 1000,
    {
        self.buffer_ms * 1000
    }
}

/// The device is further behind than the policy admits.
#[derive(Clone, Copy, Debug, PartialEq, Eq, Structural)]
pub struct LatencyExceeded {
    pub delay: i64,
}

impl LatencyExceeded {
    pub open spec fn text(self) -> Seq<char> {
        "Latency "@ + if self.delay < 0 {
            "-"@ + decimal((-self.delay) as nat)
        } else {
            decimal(self.delay as nat)
        } + " samples exceeds reconnect threshold"@
    }

    pub fn message(&self) -> (message: String)
        ensures
            message@ == self.text(),
    {
        let mut text: String = "Latency ".to_owned();
        if self.delay < 0 {
            text.append("-");
            push_decimal(&mut text, (-(self.delay as i128)) as u128);
            assert(text@ =~= "Latency "@ + ("-"@ + decimal((-self.delay) as nat)));
        } else {
            push_decimal(&mut text, self.delay as u128);
        }
        text.append(" samples exceeds reconnect threshold");
        text
    }
}

/// What a run of samples calls for.
#[derive(Clone, Copy, Debug, PartialEq, Eq, Structural)]
pub enum PlayStep {
    /// They were put aside.
    Buffered,
    /// The buffer is full: write out what was put aside, then confirm it.
    Flush,
    /// Resample them towards the buffer's fill level and write them.
    Resample,
}

/// Where playback under a [`PlayPolicy`] stands.
#[derive(Debug)]
pub struct PolicyState<T> {
    prefill: Vec<T>,
    prefilled: bool,
    buffer_samples: u32,
    latency_reconnect_samples: i64,
}

/// How many samples `millis` milliseconds take, cut to 32 bits.
pub open spec fn buffer_samples_of(sample_rate: u32, millis: u32) -> nat {
    ((sample_rate * millis / 1000) % 0x1_0000_0000) as nat
}

/// How many samples `millis` milliseconds take.
pub open spec fn threshold_of(sample_rate: u32, millis: u32) -> nat {
    (sample_rate * millis / 1000) as nat
}

impl<T: Copy> PolicyState<T> {
    /// The samples put aside.
    pub closed spec fn put_aside(self) -> Seq<T> {
        self.prefill@
    }

    pub closed spec fn is_playing(self) -> bool {
        self.prefilled
    }

    pub closed spec fn wanted(self) -> u32 {
        self.buffer_samples
    }

    pub closed spec fn threshold(self) -> i64 {
        self.latency_reconnect_samples
    }

    /// Playback goes by this policy, at this rate.
    pub open spec fn goes_by(self, policy: PlayPolicy, sample_rate: u32) -> bool {
        &&& self.wanted() == buffer_samples_of(sample_rate, policy.buffer_ms)
        &&& self.threshold() == threshold_of(sample_rate, policy.latency_reconnect_ms)
    }

    pub fn new(policy: &PlayPolicy, sample_rate: u32) -> (state: Self)
        ensures
            state.put_aside() == Seq::<T>::empty(),
            !state.is_playing(),
            state.goes_by(*policy, sample_rate),
            state.wanted() == buffer_samples_of(sample_rate, policy.buffer_ms),
            state.threshold() == threshold_of(sample_rate, policy.latency_reconnect_ms),
            sample_rate * policy.buffer_ms < 0x1_0000_0000 * 1000 ==> state.wanted() * 1000
                <= sample_rate * policy.buffer_ms < (state.wanted() + 1) * 1000,
            state.threshold() * 1000 <= sample_rate * policy.latency_reconnect_ms < (
            state.threshold() + 1) * 1000,
    {
        let rate: u64 = sample_rate as u64;
        let buffer_ms: u64 = policy.buffer_ms as u64;
        let reconnect_ms: u64 = policy.latency_reconnect_ms as u64;
        assert(rate * buffer_ms <= 0xffff_ffff * 0xffff_ffff) by (nonlinear_arith)
            requires
                rate <= 0xffff_ffff,
                buffer_ms <= 0xffff_ffff,
        ;
        assert(rate * reconnect_ms <= 0xffff_ffff * 0xffff_ffff) by (nonlinear_arith)
            requires
                rate <= 0xffff_ffff,
                reconnect_ms <= 0xffff_ffff,
        ;
        let buffer: u64 = rate * buffer_ms / 1000;
        PolicyState {
            prefill: Vec::new(),
            prefilled: false,
            buffer_samples: (buffer % 0x1_0000_0000) as u32,
            latency_reconnect_samples: (rate * reconnect_ms / 1000) as i64,
        }
    }

    /// A run of samples was taken in.
    pub open spec fn written_from(
        self,
        before: Self,
        samples: Seq<T>,
        delay: i64,
        step: Result<PlayStep, LatencyExceeded>,
    ) -> bool {
        &&& self.is_playing() == before.is_playing()
        &&& self.wanted() == before.wanted()
        &&& self.threshold() == before.threshold()
        &&& self.put_aside() == if before.is_playing() {
            before.put_aside()
        } else {
            before.put_aside() + samples
        }
        &&& step == if !before.is_playing() {
            if self.put_aside().len() >= before.wanted() {
                Ok::<PlayStep, LatencyExceeded>(PlayStep::Flush)
            } else {
                Ok(PlayStep::Buffered)
            }
        } else if before.threshold() > 0 && delay > before.threshold() {
            Err(LatencyExceeded { delay })
        } else {
            Ok(PlayStep::Resample)
        }
    }

    /// Takes a run of samples; `delay` is how far the device is behind. Until the buffer is full
    /// the samples are put aside, whatever the delay.
    pub fn write(&mut self, samples: &[T], delay: i64) -> (step: Result<PlayStep, LatencyExceeded>)
        requires
            !old(self).is_playing() ==> old(self).put_aside().len() + samples@.len() <= usize::MAX,
        ensures
            final(self).written_from(*old(self), samples@, delay, step),
    {
        if !self.prefilled {
            let mut next: usize = 0;
            assert(samples@.take(0) =~= Seq::empty());
            while next < samples.len()
                invariant
                    next <= samples@.len(),
                    self.prefill@ == old(self).prefill@ + samples@.take(next as int),
                    self.prefilled == old(self).prefilled,
                    self.buffer_samples == old(self).buffer_samples,
                    self.latency_reconnect_samples == old(self).latency_reconnect_samples,
                decreases samples@.len() - next,
            {
                self.prefill.push(samples[next]);
                next = next + 1;
                assert(self.prefill@ =~= old(self).prefill@ + samples@.take(next as int));
            }
            assert(samples@.take(next as int) =~= samples@);
            if self.prefill.len() as u64 >= self.buffer_samples as u64 {
                return Ok(PlayStep::Flush);
            }
            return Ok(PlayStep::Buffered);
        }
        if self.latency_reconnect_samples > 0 && delay > self.latency_reconnect_samples {
            return Err(LatencyExceeded { delay });
        }
        Ok(PlayStep::Resample)
    }

    /// The samples put aside, in the order in which they came.
    pub fn prefill(&self) -> (samples: &Vec<T>)
        ensures
            samples@ == self.put_aside(),
    {
        &self.prefill
    }

    /// What was put aside has been written out: from now on samples are played as they come.
    pub fn flushed(&mut self)
        ensures
            final(self).put_aside() == Seq::<T>::empty(),
            final(self).is_playing(),
            final(self).wanted() == old(self).wanted(),
            final(self).threshold() == old(self).threshold(),
    {
        self.prefill = Vec::new();
        self.prefilled = true;
    }
}

/// Of runs of samples that come in one after the other, the first that makes enough, and none
/// before it, calls for a flush, whatever the delays; and what is flushed is all runs so far, in
/// their order, with nothing dropped or repeated.
pub proof fn prefill_is_all_runs_in_order<T: Copy>(
    states: Seq<PolicyState<T>>,
    runs: Seq<Seq<T>>,
    delays: Seq<i64>,
    steps: Seq<Result<PlayStep, LatencyExceeded>>,
)
    requires
        runs.len() > 0,
        states.len() == runs.len() + 1,
        delays.len() == runs.len(),
        steps.len() == runs.len(),
        !states[0].is_playing(),
        states[0].put_aside() == Seq::<T>::empty(),
        forall|k: int|
            0 <= k < runs.len() ==> (#[trigger] states[k + 1]).written_from(
                states[k],
                runs[k],
                delays[k],
                steps[k],
            ),
        forall|k: int|
            0 < k < runs.len() ==> joined(#[trigger] runs.take(k)).len() < states[0].wanted(),
        joined(runs).len() >= states[0].wanted(),
    ensures
        forall|k: int|
            0 <= k < runs.len() - 1 ==> #[trigger] steps[k] == Ok::<PlayStep, LatencyExceeded>(
                PlayStep::Buffered,
            ),
        steps.last() == Ok::<PlayStep, LatencyExceeded>(PlayStep::Flush),
        states.last().put_aside() == joined(runs),
{
    assert forall|k: int| 0 <= k < runs.len() - 1 implies #[trigger] steps[k] == Ok::<
        PlayStep,
        LatencyExceeded,
    >(PlayStep::Buffered) by {
        lemma_runs_add_up(states, runs, delays, steps, k + 1);
        lemma_runs_add_up(states, runs, delays, steps, k);
        assert(states[k + 1].written_from(states[k], runs[k], delays[k], steps[k]));
        assert(joined(runs.take(k + 1)).len() < states[0].wanted());
    }
    let last = runs.len() - 1;
    lemma_runs_add_up(states, runs, delays, steps, last + 1);
    lemma_runs_add_up(states, runs, delays, steps, last);
    assert(states[last + 1].written_from(states[last], runs[last], delays[last], steps[last]));
    assert(runs.take(runs.len() as int) =~= runs);
}

proof fn lemma_runs_add_up<T: Copy>(
    states: Seq<PolicyState<T>>,
    runs: Seq<Seq<T>>,
    delays: Seq<i64>,
    steps: Seq<Result<PlayStep, LatencyExceeded>>,
    count: int,
)
    requires
        0 <= count <= runs.len(),
        states.len() == runs.len() + 1,
        !states[0].is_playing(),
        states[0].put_aside() == Seq::<T>::empty(),
        forall|k: int|
            0 <= k < runs.len() ==> (#[trigger] states[k + 1]).written_from(
                states[k],
                runs[k],
                delays[k],
                steps[k],
            ),
    ensures
        !states[count].is_playing(),
        states[count].wanted() == states[0].wanted(),
        states[count].put_aside() == joined(runs.take(count)),
    decreases count,
{
    if count == 0 {
        assert(joined(runs.take(0)) =~= Seq::<T>::empty());
    } else {
        let k = count - 1;
        lemma_runs_add_up(states, runs, delays, steps, k);
        assert(states[k + 1].written_from(states[k], runs[k], delays[k], steps[k]));
        assert(runs.take(count).drop_last() =~= runs.take(k));
        assert(runs.take(count).last() == runs[k]);
    }
}

/// What is put aside before playback lasts the configured time at the stream's own rate, to the
/// sample, and the device may be behind by the configured time, to the sample. Where a count of
/// samples does not fit in 32 bits, what is wanted differs from it by a multiple of `2^32`.
pub proof fn counts_last_the_configured_time<T: Copy>(
    state: PolicyState<T>,
    policy: PlayPolicy,
    sample_rate: u32,
)
    requires
        state.goes_by(policy, sample_rate),
    ensures
        sample_rate * policy.buffer_ms < 0x1_0000_0000 * 1000 ==> state.wanted() * 1000
            <= sample_rate * policy.buffer_ms < (state.wanted() + 1) * 1000,
        exists|wraps: nat|
            state.wanted() * 1000 + #[trigger] wrapped(wraps) <= sample_rate * policy.buffer_ms < (
            state.wanted() + 1) * 1000 + wrapped(wraps),
        state.threshold() * 1000 <= sample_rate * policy.latency_reconnect_ms < (state.threshold()
            + 1) * 1000,
{
    let product = (sample_rate * policy.buffer_ms) as nat;
    let limit = (sample_rate * policy.latency_reconnect_ms) as nat;
    assert(0 <= sample_rate * policy.buffer_ms <= 0xffff_ffff * 0xffff_ffff) by (nonlinear_arith)
        requires
            0 <= sample_rate <= 0xffff_ffff,
            0 <= policy.buffer_ms <= 0xffff_ffff,
    ;
    assert(0 <= sample_rate * policy.latency_reconnect_ms <= 0xffff_ffff * 0xffff_ffff)
        by (nonlinear_arith)
        requires
            0 <= sample_rate <= 0xffff_ffff,
            0 <= policy.latency_reconnect_ms <= 0xffff_ffff,
    ;
    let wraps = product / 1000 / 0x1_0000_0000;
    assert(wrapped(wraps) == wraps * 0x1_0000_0000 * 1000);
}

/// So many wraps of a count of samples in 32 bits, in thousandths of a sample.
pub open spec fn wrapped(wraps: nat) -> nat {
    wraps * 0x1_0000_0000 * 1000
}

/// Playback does not start before the configured time came in, and starts with the run of samples
/// that completes it: a flush is called for if and only if the samples so far, and one more, last
/// longer than that.
pub proof fn playback_waits_for_the_configured_time<T: Copy>(
    policy: PlayPolicy,
    sample_rate: u32,
    states: Seq<PolicyState<T>>,
    runs: Seq<Seq<T>>,
    delays: Seq<i64>,
    steps: Seq<Result<PlayStep, LatencyExceeded>>,
    k: int,
)
    requires
        states[0].goes_by(policy, sample_rate),
        sample_rate * policy.buffer_ms < 0x1_0000_0000 * 1000,
        states.len() == runs.len() + 1,
        !states[0].is_playing(),
        states[0].put_aside() == Seq::<T>::empty(),
        forall|k: int|
            0 <= k < runs.len() ==> (#[trigger] states[k + 1]).written_from(
                states[k],
                runs[k],
                delays[k],
                steps[k],
            ),
        0 <= k < runs.len(),
    ensures
        ({
            let came = joined(runs.take(k + 1)).len();
            &&& states[k + 1].put_aside() == joined(runs.take(k + 1))
            &&& steps[k] == if (came + 1) * 1000 > sample_rate * policy.buffer_ms {
                Ok::<PlayStep, LatencyExceeded>(PlayStep::Flush)
            } else {
                Ok(PlayStep::Buffered)
            }
        }),
{
    counts_last_the_configured_time(states[0], policy, sample_rate);
    lemma_runs_add_up(states, runs, delays, steps, k + 1);
    lemma_runs_add_up(states, runs, delays, steps, k);
    assert(states[k + 1].written_from(states[k], runs[k], delays[k], steps[k]));
}

/// Once playback runs, samples are played as they come unless the device is behind by more than the
/// configured time at the stream's rate; a configured time of less than a sample is no limit. What
/// was put aside is not touched.
pub proof fn only_a_late_device_ends_playback<T: Copy>(
    policy: PlayPolicy,
    sample_rate: u32,
    before: PolicyState<T>,
    after: PolicyState<T>,
    samples: Seq<T>,
    delay: i64,
    step: Result<PlayStep, LatencyExceeded>,
)
    requires
        before.goes_by(policy, sample_rate),
        before.is_playing(),
        after.written_from(before, samples, delay, step),
    ensures
        step is Err <==> sample_rate * policy.latency_reconnect_ms >= 1000 && delay * 1000
            > sample_rate * policy.latency_reconnect_ms,
        step matches Err(late) ==> late.delay == delay,
        step is Ok ==> step == Ok::<PlayStep, LatencyExceeded>(PlayStep::Resample),
        after.is_playing(),
        after.put_aside() == before.put_aside(),
        after.goes_by(policy, sample_rate),
{
    counts_last_the_configured_time(before, policy, sample_rate);
}

/// How much audio is held, and for how long.
#[derive(Clone, Copy, Debug, PartialEq, Eq, Structural)]
pub struct BufferLimits {
    /// Playback starts when so many frames are there.
    pub target_frames: usize,
    /// No more frames than these are held.
    pub maximum_frames: usize,
    /// Frames older than so many periods are discarded.
    pub maximum_age_periods: u64,
    /// The largest packet that was seen.
    pub largest_packet_frames: usize,
    /// No frame is handed to the device later than this after it came in.
    pub submission_bound: Duration,
}

/// What the renderer goes by.
#[derive(Clone, Copy, Debug, PartialEq, Eq, Structural)]
pub struct RenderPolicy {
    pub target_buffer_ms: Option<u32>,
    pub default_target_buffer_ms: u32,
    pub maximum_buffer_ms: Option<u32>,
    pub alsa_buffer_ms: u32,
    pub starvation_reconnect_ms: u32,
}

/// What is said when no limits can be derived.
pub const REFUSED_LIMITS: &'static str = "no buffer limits fit the packet size, the period and the policy";

/// The longest target, in milliseconds.
pub const MAX_TARGET_MILLIS: u32 = 500;

/// The target when none is given: a stream over Wi-Fi gets twice that of a cable.
pub fn default_target_buffer_ms(over_wifi: bool) -> (millis: u32)
    ensures
        millis == if over_wifi {
            100u32
        } else {
            50
        },
{
    if over_wifi {
        100
    } else {
        50
    }
}

impl RenderPolicy {
    /// The target in milliseconds.
    pub open spec fn target_ms(self) -> u32 {
        match self.target_buffer_ms {
            Some(millis) => millis,
            None => self.default_target_buffer_ms,
        }
    }

    /// The frames held back before playback starts: what the target says, but no less than one
    /// packet and one period.
    pub open spec fn target_frames(
        self,
        source_rate: u32,
        largest_packet_frames: usize,
        period: Duration,
    ) -> nat {
        let configured = frames_ceil(
            (self.target_ms() * NANOS_PER_MILLI) as nat,
            source_rate as nat,
        );
        let needed = largest_packet_frames as nat + frames_ceil(
            period.nanos as nat,
            source_rate as nat,
        );
        if configured >= needed {
            configured
        } else {
            needed
        }
    }

    /// The most frames that are held: what the policy says, or else twice the target.
    pub open spec fn maximum_frames(
        self,
        source_rate: u32,
        largest_packet_frames: usize,
        period: Duration,
    ) -> nat {
        match self.maximum_buffer_ms {
            Some(millis) => frames_ceil((millis * NANOS_PER_MILLI) as nat, source_rate as nat),
            None => 2 * self.target_frames(source_rate, largest_packet_frames, period),
        }
    }

    /// Limits can be derived: time passes, the target is no longer than the longest one, and the
    /// most frames that are held reach the target and can be counted.
    pub open spec fn admits(
        self,
        source_rate: u32,
        largest_packet_frames: usize,
        period: Duration,
    ) -> bool {
        let target = self.target_frames(source_rate, largest_packet_frames, period);
        let maximum = self.maximum_frames(source_rate, largest_packet_frames, period);
        &&& source_rate > 0
        &&& period.nanos > 0
        &&& target <= frames_ceil((MAX_TARGET_MILLIS * NANOS_PER_MILLI) as nat, source_rate as nat)
        &&& target <= maximum <= usize::MAX
    }

    /// These are the limits for a source and a device: audio is held for no longer than it takes to
    /// play the most that is held.
    pub open spec fn are_limits(
        self,
        limits: BufferLimits,
        source_rate: u32,
        largest_packet_frames: usize,
        period: Duration,
    ) -> bool {
        let maximum = self.maximum_frames(source_rate, largest_packet_frames, period);
        &&& limits.target_frames == self.target_frames(
            source_rate,
            largest_packet_frames,
            period,
        )
        &&& limits.maximum_frames == maximum
        &&& limits.maximum_age_periods == periods_to_play(
            maximum,
            source_rate as nat,
            period.nanos as nat,
        )
        &&& limits.largest_packet_frames == largest_packet_frames
        &&& limits.submission_bound.nanos == period.nanos * (limits.maximum_age_periods + 1)
    }

    /// A renderer can be started: what it asks of a device can be counted, and limits can be derived
    /// for a period of that many frames.
    pub open spec fn admits_start(
        self,
        source_rate: u32,
        first_packet_frames: usize,
        requested_period: Duration,
    ) -> bool {
        let period_frames = frames_ceil(requested_period.nanos as nat, source_rate as nat);
        let buffer_frames = frames_ceil(
            (self.alsa_buffer_ms * NANOS_PER_MILLI) as nat,
            source_rate as nat,
        );
        let period = Duration { nanos: frames_nanos(period_frames, source_rate as nat) as u128 };
        &&& source_rate > 0
        &&& period_frames <= usize::MAX
        &&& buffer_frames <= usize::MAX
        &&& self.admits(source_rate, first_packet_frames, period)
    }

    /// The limits for a source and a device.
    pub fn derive_limits(
        &self,
        source_rate: u32,
        largest_packet_frames: usize,
        period: Duration,
    ) -> (limits: Result<BufferLimits, ConfigurationError>)
        ensures
            limits is Ok <==> self.admits(source_rate, largest_packet_frames, period),
            match limits {
                Ok(limits) => self.are_limits(limits, source_rate, largest_packet_frames, period),
                Err(error) => error@ == REFUSED_LIMITS@,
            },
    {
        let refusal: &str = REFUSED_LIMITS;
        if source_rate == 0 || period.is_zero() {
            return Err(ConfigurationError::new(refusal));
        }
        let longest: Duration = Duration::from_millis(MAX_TARGET_MILLIS as u64);
        let ceiling: u128 = span_frames(longest, source_rate);
        if period.nanos > u32::MAX as u128 * NANOS_PER_MILLI {
            proof {
                long_spans_take_more_frames(
                    longest.nanos as nat,
                    period.nanos as nat,
                    source_rate as nat,
                );
            }
            return Err(ConfigurationError::new(refusal));
        }
        let target_ms: u32 = match self.target_buffer_ms {
            Some(millis) => millis,
            None => self.default_target_buffer_ms,
        };
        let configured: u128 = span_frames(Duration::from_millis(target_ms as u64), source_rate);
        let needed: u128 = largest_packet_frames as u128 + span_frames(period, source_rate);
        let target: u128 = if configured >= needed {
            configured
        } else {
            needed
        };
        if target > ceiling {
            return Err(ConfigurationError::new(refusal));
        }
        let maximum: u128 = match self.maximum_buffer_ms {
            Some(millis) => span_frames(Duration::from_millis(millis as u64), source_rate),
            None => 2 * target,
        };
        if maximum < target || maximum > usize::MAX as u128 {
            return Err(ConfigurationError::new(refusal));
        }
        let rate: u128 = source_rate as u128;
        proof {
            let span: nat = match self.maximum_buffer_ms {
                Some(millis) => (millis * NANOS_PER_MILLI) as nat,
                None => 2 * longest.nanos as nat,
            };
            rounding_up_covers_the_span(span, rate as nat);
            rounding_up_covers_the_span(longest.nanos as nat, rate as nat);
            assert((2 * longest.nanos) * rate == 2 * (longest.nanos * rate)) by (nonlinear_arith);
            playing_takes_a_while(maximum as nat, rate as nat, period.nanos as nat, span);
        }
        assert(0 < period.nanos * rate <= 0xffff_ffff * 1_000_000 * 0xffff_ffff)
            by (nonlinear_arith)
            requires
                0 < period.nanos <= 0xffff_ffff * 1_000_000,
                0 < rate <= 0xffff_ffff,
        ;
        let divisor: u128 = period.nanos * rate;
        let age: u128 = (maximum * NANOS_PER_SEC + (divisor - 1)) / divisor;
        let maximum_age_periods: u64 = age as u64;
        assert(period.nanos * (age + 1) <= 0xffff_ffff * 1_000_000 * 0x1_0000_0000_0000_0000)
            by (nonlinear_arith)
            requires
                period.nanos <= 0xffff_ffff * 1_000_000,
                age < 0x1_0000_0000_0000_0000,
        ;
        Ok(
            BufferLimits {
                target_frames: target as usize,
                maximum_frames: maximum as usize,
                maximum_age_periods,
                largest_packet_frames,
                submission_bound: Duration { nanos: period.nanos * (age + 1) },
            },
        )
    }

    /// The buffer to ask of the device.
    pub fn requested_alsa_buffer(&self) -> (buffer: Duration)
        ensures
            buffer.nanos == self.alsa_buffer_ms * NANOS_PER_MILLI,
    {
        Duration::from_millis(self.alsa_buffer_ms as u64)
    }

    /// What to ask of a device: the source's own rate, so that nothing has to be resampled if the
    /// device agrees. Nothing when a count of frames does not fit.
    pub fn requested_parameters(&self, source_rate: u32, period: Duration) -> (parameters: Option<
        SinkParameters,
    >)
        ensures
            ({
                let period_frames = frames_ceil(period.nanos as nat, source_rate as nat);
                let buffer_frames = frames_ceil(
                    (self.alsa_buffer_ms * NANOS_PER_MILLI) as nat,
                    source_rate as nat,
                );
                parameters == if period_frames <= usize::MAX && buffer_frames <= usize::MAX {
                    Some(
                        SinkParameters {
                            rate: source_rate,
                            period_frames: period_frames as usize,
                            buffer_frames: buffer_frames as usize,
                        },
                    )
                } else {
                    None
                }
            }),
    {
        match (
            counted_frames(period, source_rate),
            counted_frames(self.requested_alsa_buffer(), source_rate),
        ) {
            (Some(period_frames), Some(buffer_frames)) => Some(
                SinkParameters { rate: source_rate, period_frames, buffer_frames },
            ),
            _ => None,
        }
    }

    /// How long playback may run dry.
    pub fn starvation_reconnect(&self) -> (limit: Duration)
        ensures
            limit.nanos == self.starvation_reconnect_ms * NANOS_PER_MILLI,
    {
        Duration::from_millis(self.starvation_reconnect_ms as u64)
    }
}

/// The quotient, rounded up.
pub open spec fn ratio_ceil(numerator: nat, denominator: nat) -> nat {
    ((numerator + denominator - 1) / denominator as int) as nat
}

/// The frames that a span takes at a rate, rounded up.
pub open spec fn frames_ceil(nanos: nat, rate: nat) -> nat {
    ratio_ceil(nanos * rate, NANOS_PER_SEC as nat)
}

/// The frames that `duration` takes at `rate`, rounded up.
pub fn duration_to_frames_ceil(duration: Duration, rate: u32) -> (frames: usize)
    requires
        frames_ceil(duration.nanos as nat, rate as nat) <= usize::MAX,
    ensures
        frames == frames_ceil(duration.nanos as nat, rate as nat),
{
    proof {
        rounding_up_covers_the_span(duration.nanos as nat, rate as nat);
    }
    let nanos: u128 = duration.nanos * rate as u128;
    ((nanos + (NANOS_PER_SEC - 1)) / NANOS_PER_SEC) as usize
}

/// The frames that a span takes, rounded up, if they can be counted.
fn counted_frames(span: Duration, rate: u32) -> (frames: Option<usize>)
    ensures
        frames == {
            let count = frames_ceil(span.nanos as nat, rate as nat);
            if count <= usize::MAX {
                Some(count as usize)
            } else {
                None
            }
        },
{
    let nanos: Option<u128> = span.nanos.checked_mul(rate as u128);
    proof {
        rounding_up_covers_the_span(span.nanos as nat, rate as nat);
    }
    match nanos {
        None => None,
        Some(nanos) => {
            if nanos > usize::MAX as u128 * NANOS_PER_SEC {
                return None;
            }
            Some(((nanos + (NANOS_PER_SEC - 1)) / NANOS_PER_SEC) as usize)
        },
    }
}

/// The periods that it takes to play so many frames, the last one counted in full.
pub open spec fn periods_to_play(frames: nat, rate: nat, period: nat) -> nat {
    ratio_ceil(frames * NANOS_PER_SEC as nat, period * rate)
}

proof fn long_spans_take_more_frames(short: nat, long: nat, rate: nat)
    requires
        rate > 0,
        long >= short + NANOS_PER_SEC,
    ensures
        frames_ceil(short, rate) < frames_ceil(long, rate),
{
    rounding_up_covers_the_span(short, rate);
    rounding_up_covers_the_span(long, rate);
    assert(long * rate >= short * rate + NANOS_PER_SEC) by (nonlinear_arith)
        requires
            long >= short + NANOS_PER_SEC,
            rate > 0,
    ;
}

proof fn playing_takes_a_while(frames: nat, rate: nat, period: nat, span: nat)
    requires
        rate > 0,
        period > 0,
        frames * NANOS_PER_SEC <= span * rate + 2 * NANOS_PER_SEC,
    ensures
        periods_to_play(frames, rate, period) <= span + 2 * NANOS_PER_SEC + 1,
{
    let total = frames * NANOS_PER_SEC as nat;
    let divisor = period * rate;
    let count = periods_to_play(frames, rate, period);
    assert(divisor >= rate) by (nonlinear_arith)
        requires
            divisor == period * rate,
            period > 0,
    ;
    vstd::arithmetic::div_mod::lemma_fundamental_div_mod(total + divisor - 1, divisor as int);
    assert(divisor * count <= total + divisor - 1);
    if count > span + 2 * NANOS_PER_SEC + 1 {
        assert(divisor * count >= divisor + span * rate + 2 * NANOS_PER_SEC + 1) by (nonlinear_arith)
            requires
                divisor >= rate,
                rate > 0,
                count >= span + 2 * NANOS_PER_SEC + 2,
        ;
    }
}

/// The frames that a span of milliseconds takes, however many they are.
fn span_frames(span: Duration, rate: u32) -> (frames: u128)
    requires
        span.nanos <= u32::MAX * NANOS_PER_MILLI,
    ensures
        frames == frames_ceil(span.nanos as nat, rate as nat),
        frames <= u32::MAX * u32::MAX,
{
    let rate: u128 = rate as u128;
    assert(span.nanos * rate <= 0xffff_ffff * 1_000_000 * 0xffff_ffff) by (nonlinear_arith)
        requires
            span.nanos <= 0xffff_ffff * 1_000_000,
            rate <= 0xffff_ffff,
    ;
    (span.nanos * rate + (NANOS_PER_SEC - 1)) / NANOS_PER_SEC
}

/// Rounding up never falls short, and is less than one frame too much.
pub proof fn rounding_up_covers_the_span(nanos: nat, rate: nat)
    ensures
        frames_ceil(nanos, rate) * NANOS_PER_SEC >= nanos * rate,
        frames_ceil(nanos, rate) * NANOS_PER_SEC < nanos * rate + NANOS_PER_SEC,
{
    let product = nanos * rate;
    assert(frames_ceil(nanos, rate) == (product + 999_999_999) / 1_000_000_000);
}

/// Limits that were derived leave room: what is held back covers a packet and a period, and there is
/// space for all that is held back.
pub proof fn derived_limits_leave_room(
    policy: RenderPolicy,
    source_rate: u32,
    largest_packet_frames: usize,
    period: Duration,
)
    requires
        policy.admits(source_rate, largest_packet_frames, period),
    ensures
        ({
            let target = policy.target_frames(source_rate, largest_packet_frames, period);
            let maximum = policy.maximum_frames(source_rate, largest_packet_frames, period);
            &&& largest_packet_frames <= target <= maximum
            &&& (target - largest_packet_frames) * NANOS_PER_SEC >= period.nanos * source_rate
            &&& target * NANOS_PER_SEC >= policy.target_ms() * NANOS_PER_MILLI * source_rate
            &&& periods_to_play(maximum, source_rate as nat, period.nanos as nat) * (period.nanos
                * source_rate) >= maximum * NANOS_PER_SEC
        }),
{
    let rate = source_rate as nat;
    let span = (policy.target_ms() * NANOS_PER_MILLI) as nat;
    rounding_up_covers_the_span(period.nanos as nat, rate);
    rounding_up_covers_the_span(span, rate);
    let target = policy.target_frames(source_rate, largest_packet_frames, period);
    let maximum = policy.maximum_frames(source_rate, largest_packet_frames, period);
    let divisor = period.nanos as nat * rate;
    let total = maximum * NANOS_PER_SEC as nat;
    assert(divisor > 0) by (nonlinear_arith)
        requires
            divisor == period.nanos as nat * rate,
            period.nanos > 0,
            rate > 0,
    ;
    vstd::arithmetic::div_mod::lemma_fundamental_div_mod(total + divisor - 1, divisor as int);
    let count = periods_to_play(maximum, rate, period.nanos as nat);
    assert(divisor * count == count * divisor) by (nonlinear_arith);
}

/// A count of frames for a span is the least that lasts as long as the span.
pub proof fn counts_are_the_least_that_cover(nanos: nat, rate: nat, frames: nat)
    ensures
        frames >= frames_ceil(nanos, rate) <==> frames * 1_000_000_000 >= nanos * rate,
{
    rounding_up_covers_the_span(nanos, rate);
}

/// The limits that are derived are the least that do: the target is the smallest count of frames
/// that lasts the configured time and holds a packet and a period, the maximum the smallest that
/// lasts its own configured time, or twice the target where none is configured, and the maximum age
/// the smallest number of periods in which the maximum can be played.
pub proof fn derived_limits_are_the_least_that_do(
    policy: RenderPolicy,
    limits: BufferLimits,
    source_rate: u32,
    largest_packet_frames: usize,
    period: Duration,
)
    requires
        policy.admits(source_rate, largest_packet_frames, period),
        policy.are_limits(limits, source_rate, largest_packet_frames, period),
    ensures
        ({
            let wanted = source_rate * (match policy.target_buffer_ms {
                Some(millis) => millis,
                None => policy.default_target_buffer_ms,
            });
            &&& forall|frames: nat|
                #![trigger holds_frames(limits.target_frames as nat, frames)]
                holds_frames(limits.target_frames as nat, frames) <==> frames * 1000 >= wanted
                    && frames >= largest_packet_frames && (frames - largest_packet_frames)
                    * 1_000_000_000 >= period.nanos * source_rate
        }),
        policy.maximum_buffer_ms matches Some(millis) ==> forall|frames: nat|
            #![trigger holds_frames(limits.maximum_frames as nat, frames)]
            holds_frames(limits.maximum_frames as nat, frames) <==> frames * 1000 >= millis
                * source_rate,
        policy.maximum_buffer_ms is None ==> limits.maximum_frames == 2 * limits.target_frames,
        limits.maximum_frames >= limits.target_frames,
        limits.maximum_age_periods * (period.nanos * source_rate) >= limits.maximum_frames
            * 1_000_000_000,
        (limits.maximum_age_periods - 1) * (period.nanos * source_rate) < limits.maximum_frames
            * 1_000_000_000,
        limits.largest_packet_frames == largest_packet_frames,
        limits.submission_bound.nanos == period.nanos * (limits.maximum_age_periods + 1),
        (limits.target_frames - 1) * 1000 < 500 * source_rate,
{
    let rate = source_rate as nat;
    let target_ms = policy.target_ms() as nat;
    let target = limits.target_frames as nat;
    let maximum = limits.maximum_frames as nat;
    let packet = largest_packet_frames as nat;
    millis_of_frames(target_ms, rate);
    assert(source_rate * target_ms == target_ms * rate) by (nonlinear_arith)
        requires
            rate == source_rate,
    ;
    assert forall|frames: nat|
        #![trigger holds_frames(target, frames)]
        holds_frames(target, frames) <==> frames * 1000 >= source_rate * target_ms && frames
            >= largest_packet_frames && (frames - largest_packet_frames) * 1_000_000_000
            >= period.nanos * source_rate by {
        counts_are_the_least_that_cover((target_ms * NANOS_PER_MILLI) as nat, rate, frames);
        if frames >= packet {
            counts_are_the_least_that_cover(
                period.nanos as nat,
                rate,
                (frames - packet) as nat,
            );
        }
    }
    if let Some(millis) = policy.maximum_buffer_ms {
        millis_of_frames(millis as nat, rate);
        assert forall|frames: nat|
            #![trigger holds_frames(maximum, frames)]
            holds_frames(maximum, frames) <==> frames * 1000 >= millis * source_rate by {
            counts_are_the_least_that_cover((millis * NANOS_PER_MILLI) as nat, rate, frames);
        }
    }
    let divisor = period.nanos as nat * rate;
    let total = maximum * NANOS_PER_SEC as nat;
    assert(divisor > 0) by (nonlinear_arith)
        requires
            divisor == period.nanos as nat * rate,
            period.nanos > 0,
            rate > 0,
    ;
    let count = periods_to_play(maximum, rate, period.nanos as nat);
    vstd::arithmetic::div_mod::lemma_fundamental_div_mod(total + divisor - 1, divisor as int);
    assert(divisor * count == count * divisor) by (nonlinear_arith);
    assert((count - 1) * divisor == count * divisor - divisor) by (nonlinear_arith);
    millis_of_frames(500, rate);
    counts_are_the_least_that_cover(
        (MAX_TARGET_MILLIS * NANOS_PER_MILLI) as nat,
        rate,
        (target - 1) as nat,
    );
}

/// At least that many frames.
pub open spec fn holds_frames(least: nat, frames: nat) -> bool {
    frames >= least
}

proof fn millis_of_frames(millis: nat, rate: nat)
    ensures
        (millis * NANOS_PER_MILLI) * rate == millis * rate * 1_000_000,
{
    assert((millis * NANOS_PER_MILLI) * rate == millis * rate * 1_000_000) by (nonlinear_arith)
        requires
            NANOS_PER_MILLI == 1_000_000,
    ;
}

/// Limits are refused for a stream or a device without time, for a target of more than half a
/// second, and for a maximum that the target does not fit under or that cannot be counted; and for
/// nothing else.
pub proof fn limits_are_refused_for_a_reason(
    policy: RenderPolicy,
    source_rate: u32,
    largest_packet_frames: usize,
    period: Duration,
)
    ensures
        ({
            let target = policy.target_frames(source_rate, largest_packet_frames, period);
            let maximum = policy.maximum_frames(source_rate, largest_packet_frames, period);
            policy.admits(source_rate, largest_packet_frames, period) <==> source_rate > 0
                && period.nanos > 0 && (target - 1) * 1000 < 500 * source_rate && target <= maximum
                && maximum <= usize::MAX
        }),
{
    let rate = source_rate as nat;
    let target = policy.target_frames(source_rate, largest_packet_frames, period);
    millis_of_frames(500, rate);
    if target > 0 {
        counts_are_the_least_that_cover(
            (MAX_TARGET_MILLIS * NANOS_PER_MILLI) as nat,
            rate,
            (target - 1) as nat,
        );
    }
}

/// A device that is too far behind is reported with its delay: the number in the words is read back as
/// the delay.
pub proof fn late_devices_are_named_with_their_delay(late: LatencyExceeded)
    requires
        late.delay >= 0,
    ensures
        ({
            let text = late.text();
            let start = "Latency "@.len() as int;
            let end = text.len() - " samples exceeds reconnect threshold"@.len();
            &&& "Latency "@.is_prefix_of(text)
            &&& start <= end
            &&& read_decimal(text.subrange(start, end)) == late.delay
            &&& text.skip(end) == " samples exceeds reconnect threshold"@
        }),
{
    let before = "Latency "@;
    let after = " samples exceeds reconnect threshold"@;
    let digits = decimal(late.delay as nat);
    let text = late.text();
    decimals_are_read_back(late.delay as nat);
    assert(text =~= before + digits + after);
    assert(before.is_prefix_of(text));
    assert(text.subrange(before.len() as int, text.len() - after.len()) =~= digits);
    assert(text.skip(text.len() - after.len()) =~= after);
}

} // verus!
