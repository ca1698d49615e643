//! One period of output: from the buffer while there is enough in it, silence when there is not.
//!
//! What touches the samples themselves comes in as closures: `mix` blends the sample that a fade
//! starts from with the sample at a position of it, `convert` makes the device's sample.

use vstd::prelude::*;

use crate::jitter::TakenAudio;
use crate::policy::BufferLimits;
use crate::renderer::{Control, InFlight, RenderCounters, RenderState};
use crate::shared::{PeriodSnapshot, SharedAudio};
use crate::sink::SinkParameters;
use crate::time::{Duration, Instant, NANOS_PER_SEC};

verus! {

/// How a period is to be rendered.
#[derive(Clone, Copy, Debug, PartialEq, Eq, Structural)]
pub enum PeriodMode {
    Silence,
    /// From the buffer, which holds this many frames.
    Source { occupancy: usize },
}

/// How to begin a period: the steps in the order in which they are taken.
#[derive(Clone, Copy, Debug, PartialEq, Eq, Structural)]
pub struct PeriodPlan {
    /// Limits that the controller has to be reconfigured for.
    pub reconfigure: Option<BufferLimits>,
    pub control: Control,
    /// An occupancy that the controller's filter has to be started at because playback just
    /// started.
    pub start_filter: Option<usize>,
    pub mode: PeriodMode,
}

/// How long the fade after a cut lasts, in milliseconds.
pub const DECLICK_MILLIS: u64 = 5;

/// How long the controller may be saturated before that is reported, in seconds.
pub const SATURATION_REPORT_SECS: u64 = 5;


/// The frames that the fade after a cut lasts.
pub open spec fn declick_count(rate: u32) -> nat {
    (rate * DECLICK_MILLIS / 1000) as nat
}

/// The frames that the fade after a cut lasts.
pub fn declick_frames(rate: u32) -> (frames: usize)
    ensures
        frames == declick_count(rate),
{
    (rate as u64 * DECLICK_MILLIS / 1000) as usize
}

/// A closure that blends can be called at every position of a fade.
pub open spec fn blends<T, M: Fn(T, T, usize, usize) -> T>(mix: M) -> bool {
    forall|from: T, sample: T, position: usize, count: usize|
        0 < position <= count ==> #[trigger] call_requires(mix, (from, sample, position, count))
}

/// A closure that converts can be called on every sample.
pub open spec fn converts<T, C: Fn(T) -> i32>(convert: C) -> bool {
    forall|sample: T| #[trigger] call_requires(convert, (sample,))
}

/// How many samples a fade of `frames` frames covers.
pub open spec fn ramp_count(frames: nat, length: nat) -> nat {
    if frames < length {
        frames
    } else {
        length
    }
}

/// `after` is `before` faded in from `from` over `frames` frames: the first sample is blended at
/// position one, the last sample of the fade at the fade's full count, and the rest is as it was.
pub open spec fn is_ramp<T, M: Fn(T, T, usize, usize) -> T>(
    mix: M,
    before: Seq<T>,
    after: Seq<T>,
    from: T,
    frames: nat,
) -> bool {
    let count = ramp_count(frames, before.len());
    &&& after.len() == before.len()
    &&& forall|i: int|
        0 <= i < count ==> call_ensures(
            mix,
            (from, before[i], (i + 1) as usize, count as usize),
            #[trigger] after[i],
        )
    &&& forall|i: int| count <= i < before.len() ==> #[trigger] after[i] == before[i]
}

/// Fades in from `from` where there is one.
pub open spec fn is_declicked<T, M: Fn(T, T, usize, usize) -> T>(
    mix: M,
    before: Seq<T>,
    after: Seq<T>,
    from: Option<T>,
    frames: nat,
) -> bool {
    match from {
        Some(from) => is_ramp(mix, before, after, from, frames),
        None => after == before,
    }
}

/// Each sample was converted.
pub open spec fn is_converted<T, C: Fn(T) -> i32>(
    convert: C,
    before: Seq<T>,
    after: Seq<i32>,
) -> bool {
    &&& after.len() == before.len()
    &&& forall|i: int|
        0 <= i < before.len() ==> call_ensures(convert, (before[i],), #[trigger] after[i])
}

/// `samples` is what the device gets for `raw`: `output` is `raw` with its fade, converted.
pub open spec fn is_rendered<T, M: Fn(T, T, usize, usize) -> T, C: Fn(T) -> i32>(
    mix: M,
    convert: C,
    raw: Seq<T>,
    from: Option<T>,
    frames: nat,
    output: Seq<T>,
    samples: Seq<i32>,
) -> bool {
    &&& is_declicked(mix, raw, output, from, frames)
    &&& is_converted(convert, output, samples)
}

/// One sample, over and over.
pub open spec fn repeated<T>(sample: T, count: nat) -> Seq<T> {
    Seq::new(count, |i: int| sample)
}

/// Fades the samples in from `from`, over `frames` frames at most.
pub fn apply_ramp<T: Copy, M: Fn(T, T, usize, usize) -> T>(
    samples: &mut Vec<T>,
    from: T,
    frames: usize,
    mix: &M,
)
    requires
        blends(*mix),
    ensures
        is_ramp(*mix, old(samples)@, final(samples)@, from, frames as nat),
{
    let length: usize = samples.len();
    let count: usize = if frames < length {
        frames
    } else {
        length
    };
    let mut next: usize = 0;
    while next < count
        invariant
            blends(*mix),
            next <= count <= length,
            count == ramp_count(frames as nat, length as nat),
            length == samples@.len(),
            length == old(samples)@.len(),
            forall|i: int|
                0 <= i < next ==> call_ensures(
                    *mix,
                    (from, old(samples)@[i], (i + 1) as usize, count),
                    #[trigger] samples@[i],
                ),
            forall|i: int| next <= i < length ==> #[trigger] samples@[i] == old(samples)@[i],
        decreases count - next,
    {
        let blended = mix(from, samples[next], next + 1, count);
        samples.set(next, blended);
        next = next + 1;
    }
}

fn convert_all<T: Copy, C: Fn(T) -> i32>(samples: &Vec<T>, convert: &C) -> (converted: Vec<i32>)
    requires
        converts(*convert),
    ensures
        is_converted(*convert, samples@, converted@),
{
    let mut converted: Vec<i32> = Vec::new();
    let mut next: usize = 0;
    while next < samples.len()
        invariant
            converts(*convert),
            next <= samples@.len(),
            converted@.len() == next,
            forall|i: int|
                0 <= i < next ==> call_ensures(
                    *convert,
                    (samples@[i],),
                    #[trigger] converted@[i],
                ),
        decreases samples@.len() - next,
    {
        converted.push(convert(samples[next]));
        next = next + 1;
    }
    converted
}

fn repeat<T: Copy>(sample: T, count: usize) -> (samples: Vec<T>)
    ensures
        samples@ == repeated(sample, count as nat),
{
    let mut samples: Vec<T> = Vec::new();
    while samples.len() < count
        invariant
            samples@ =~= repeated(sample, samples@.len()),
            samples@.len() <= count,
        decreases count - samples@.len(),
    {
        samples.push(sample);
    }
    samples
}

/// A rendered period of silence.
#[derive(Debug)]
pub struct SilentPeriod {
    pub period: InFlight,
    pub control: Control,
    /// Playback ran dry for as long as it may: it has to end.
    pub starved: bool,
}

/// What happens while a period is rendered.
#[derive(Debug)]
pub enum PeriodEvent<T> {
    Begin,
    /// The controller took in the occupancy, and the resampler its correction: the controller has
    /// been saturated for so long, and the resampler wants so many frames.
    Corrected { saturated: Duration, needed: usize },
    /// After a cut the resampler took in the correction again, and wants so many frames. The audio
    /// is what was taken before.
    Refitted { taken: Option<TakenAudio<T>>, needed: usize },
}

/// What to do next to render a period.
#[derive(Debug)]
pub enum PeriodAction<T> {
    /// Let the controller take in this occupancy, and the resampler its correction.
    Correct { occupancy: usize },
    /// Let the resampler take in the controller's correction again; this was taken for it.
    Refit { taken: Option<TakenAudio<T>> },
    /// Resample this, and make a period of it.
    Resample(TakenAudio<T>),
    /// Make a period of silence.
    Silence,
}

/// One step of rendering a period: what to tell the controller, in this order, and what to do then.
#[derive(Debug)]
pub struct PeriodStep<T> {
    /// The controller has been saturated for long enough to be reported.
    pub report: bool,
    /// Limits that the controller has to be reconfigured for.
    pub reconfigure: Option<BufferLimits>,
    pub control: Control,
    /// An occupancy that the controller's filter has to be started at.
    pub start_filter: Option<usize>,
    pub action: PeriodAction<T>,
}

/// Audio that was taken before a cut is of use only if its length is what the resampler wants after
/// it.
fn fitting<T: Copy>(taken: Option<TakenAudio<T>>, needed: usize) -> (action: PeriodAction<T>)
    ensures
        action == fitting_action(taken, needed),
{
    match taken {
        Some(audio) => {
            if audio.samples.len() != needed {
                return PeriodAction::Silence;
            }
            PeriodAction::Resample(audio)
        },
        None => PeriodAction::Silence,
    }
}

/// What is rendered of audio that was taken before a cut.
pub open spec fn fitting_action<T>(taken: Option<TakenAudio<T>>, needed: usize) -> PeriodAction<T> {
    match taken {
        Some(audio) => if audio.samples@.len() == needed {
            PeriodAction::Resample(audio)
        } else {
            PeriodAction::Silence
        },
        None => PeriodAction::Silence,
    }
}

impl<T: Copy> RenderState<T> {
    /// What a serial leads to: one not seen before is a cut.
    pub open spec fn after_splice(self, splice_serial: u64, occupancy: usize) -> (Self, Control) {
        let seen = RenderState { seen_splice_serial: splice_serial, ..self };
        if splice_serial != self.seen_splice_serial {
            (seen.spliced(), Control::ResetFilter { occupancy })
        } else {
            (self, Control::Keep)
        }
    }

    /// How a period begins with what is seen of the shared audio.
    pub open spec fn after_begin(self, snapshot: PeriodSnapshot) -> (Self, PeriodPlan) {
        let seen = RenderState { seen_limits_serial: snapshot.limits_serial, ..self };
        let (state, control) = seen.after_splice(snapshot.splice_serial, snapshot.occupancy);
        (
            state,
            PeriodPlan {
                reconfigure: if snapshot.limits_serial != self.seen_limits_serial {
                    Some(snapshot.limits)
                } else {
                    None
                },
                control,
                start_filter: if snapshot.started && snapshot.just_started {
                    Some(snapshot.occupancy)
                } else {
                    None
                },
                mode: if snapshot.started {
                    PeriodMode::Source { occupancy: snapshot.occupancy }
                } else {
                    PeriodMode::Silence
                },
            },
        )
    }

    /// The controller has been saturated for long.
    pub open spec fn is_long(saturated: Duration) -> bool {
        saturated.nanos >= SATURATION_REPORT_SECS * NANOS_PER_SEC
    }

    /// Takes in the shared audio's state at the start of a period.
    pub fn begin_period(&mut self, snapshot: PeriodSnapshot) -> (plan: PeriodPlan)
        requires
            old(self).room(),
        ensures
            (*final(self), plan) == old(self).after_begin(snapshot),
    {
        let mut reconfigure: Option<BufferLimits> = None;
        if snapshot.limits_serial != self.seen_limits_serial {
            self.seen_limits_serial = snapshot.limits_serial;
            reconfigure = Some(snapshot.limits);
        }
        let control = self.note_splice(snapshot.splice_serial, snapshot.occupancy);
        if !snapshot.started {
            return PeriodPlan {
                reconfigure,
                control,
                start_filter: None,
                mode: PeriodMode::Silence,
            };
        }
        let start_filter = if snapshot.just_started {
            Some(snapshot.occupancy)
        } else {
            None
        };
        PeriodPlan {
            reconfigure,
            control,
            start_filter,
            mode: PeriodMode::Source { occupancy: snapshot.occupancy },
        }
    }

    /// Takes in the shared audio's splice serial: a serial not seen before is a cut.
    pub fn note_splice(&mut self, splice_serial: u64, occupancy: usize) -> (control: Control)
        requires
            old(self).room(),
        ensures
            (*final(self), control) == old(self).after_splice(splice_serial, occupancy),
    {
        if splice_serial != self.seen_splice_serial {
            self.seen_splice_serial = splice_serial;
            return self.mark_splice(occupancy);
        }
        Control::Keep
    }

    /// Takes in how long the controller has been saturated, and says whether that is to be
    /// reported: once each time that it lasts.
    pub fn note_saturation(&mut self, saturated: Duration) -> (report: bool)
        ensures
            *final(self) == (RenderState {
                saturation_reported: Self::is_long(saturated),
                ..*old(self)
            }),
            report == (Self::is_long(saturated) && !old(self).saturation_reported),
    {
        if saturated.nanos >= Duration::from_secs(SATURATION_REPORT_SECS).nanos {
            if !self.saturation_reported {
                self.saturation_reported = true;
                return true;
            }
        } else {
            self.saturation_reported = false;
        }
        false
    }

    /// Takes one step of rendering a period.
    pub fn period_step(
        &mut self,
        shared: &mut SharedAudio<T>,
        event: PeriodEvent<T>,
        now: Instant,
    ) -> (step: PeriodStep<T>)
        requires
            old(self).room(),
            old(shared).wf(),
        ensures
            final(shared).wf(),
            match event {
                PeriodEvent::Begin => {
                    let snapshot = final(shared).snapshot(old(shared).started);
                    let (state, plan) = old(self).after_begin(snapshot);
                    &&& final(shared).began_from(*old(shared), now)
                    &&& *final(self) == state
                    &&& step == (PeriodStep {
                        report: false,
                        reconfigure: plan.reconfigure,
                        control: plan.control,
                        start_filter: plan.start_filter,
                        action: match plan.mode {
                            PeriodMode::Source { occupancy } => PeriodAction::<T>::Correct {
                                occupancy,
                            },
                            PeriodMode::Silence => PeriodAction::Silence,
                        },
                    })
                },
                PeriodEvent::Corrected { saturated, needed } => {
                    let noted = RenderState {
                        saturation_reported: Self::is_long(saturated),
                        ..*old(self)
                    };
                    let occupancy = final(shared).buffer@.len() as usize;
                    let (state, control) = noted.after_splice(
                        final(shared).splice_serial,
                        occupancy,
                    );
                    let taken = match step.action {
                        PeriodAction::Refit { taken } => taken,
                        PeriodAction::Resample(audio) => Some(audio),
                        _ => None,
                    };
                    &&& final(shared).took_from(*old(shared), needed, now, taken)
                    &&& *final(self) == state
                    &&& step == (PeriodStep {
                        report: Self::is_long(saturated) && !old(self).saturation_reported,
                        reconfigure: None,
                        control,
                        start_filter: None,
                        action: match taken {
                            _ if control != Control::Keep => PeriodAction::Refit { taken },
                            Some(audio) => PeriodAction::Resample(audio),
                            None => PeriodAction::Silence,
                        },
                    })
                },
                PeriodEvent::Refitted { taken, needed } => {
                    &&& *final(shared) == *old(shared)
                    &&& *final(self) == *old(self)
                    &&& step == (PeriodStep {
                        report: false,
                        reconfigure: None,
                        control: Control::Keep,
                        start_filter: None,
                        action: fitting_action(taken, needed),
                    })
                },
            },
    {
        match event {
            PeriodEvent::Begin => {
                let plan = self.begin_period(shared.begin_period(now));
                let action = match plan.mode {
                    PeriodMode::Source { occupancy } => PeriodAction::Correct { occupancy },
                    PeriodMode::Silence => PeriodAction::Silence,
                };
                PeriodStep {
                    report: false,
                    reconfigure: plan.reconfigure,
                    control: plan.control,
                    start_filter: plan.start_filter,
                    action,
                }
            },
            PeriodEvent::Corrected { saturated, needed } => {
                let report = self.note_saturation(saturated);
                let taken = shared.take_frames(needed, now);
                let control = self.note_splice(shared.splice_serial, shared.buffer.occupancy());
                let action = if control != Control::Keep {
                    PeriodAction::Refit { taken }
                } else {
                    match taken {
                        Some(audio) => PeriodAction::Resample(audio),
                        None => PeriodAction::Silence,
                    }
                };
                PeriodStep { report, reconfigure: None, control, start_filter: None, action }
            },
            PeriodEvent::Refitted { taken, needed } => PeriodStep {
                report: false,
                reconfigure: None,
                control: Control::Keep,
                start_filter: None,
                action: fitting(taken, needed),
            },
        }
    }

    /// Where a period of audio is faded in from.
    pub open spec fn source_ramp(self) -> Option<T> {
        match self.ramp_from {
            Some(from) => Some(from),
            None => if self.source_was_silent {
                Some(self.silence)
            } else {
                None
            },
        }
    }

    /// Makes a period of resampled audio; `oldest_insertion_index` says how old it is.
    pub fn render_source_period<M: Fn(T, T, usize, usize) -> T, C: Fn(T) -> i32>(
        &mut self,
        resampled: Vec<T>,
        oldest_insertion_index: u64,
        rate: u32,
        mix: &M,
        convert: &C,
    ) -> (period: InFlight)
        requires
            blends(*mix),
            converts(*convert),
        ensures
            period.wf(),
            period.offset == 0,
            period.oldest_insertion_index == Some(oldest_insertion_index),
            period.samples@.len() == resampled@.len(),
            old(self).ramp_from is None && !old(self).source_was_silent ==> forall|i: int|
                0 <= i < resampled@.len() ==> call_ensures(
                    *convert,
                    (resampled@[i],),
                    #[trigger] period.samples@[i],
                ),
            forall|i: int|
                rate * 5 / 1000 <= i < resampled@.len() ==> call_ensures(
                    *convert,
                    (resampled@[i],),
                    #[trigger] period.samples@[i],
                ),
            exists|output: Seq<T>|
                {
                    &&& #[trigger] is_rendered(
                        *mix,
                        *convert,
                        resampled@,
                        old(self).source_ramp(),
                        declick_count(rate),
                        output,
                        period.samples@,
                    )
                    &&& *final(self) == (RenderState {
                        ramp_from: None,
                        last_output: if output.len() > 0 {
                            output.last()
                        } else {
                            old(self).last_output
                        },
                        source_was_silent: false,
                        rendered_source: true,
                        starving_for: Duration { nanos: 0 },
                        ..*old(self)
                    })
                },
    {
        let mut output = resampled;
        let from: Option<T> = match self.ramp_from.take() {
            Some(from) => Some(from),
            None => if self.source_was_silent {
                Some(self.silence)
            } else {
                None
            },
        };
        match from {
            Some(from) => {
                apply_ramp(&mut output, from, declick_frames(rate), mix);
            },
            None => {},
        }
        if output.len() > 0 {
            self.last_output = output[output.len() - 1];
        }
        self.source_was_silent = false;
        self.rendered_source = true;
        self.starving_for = Duration::zero();
        let samples = convert_all(&output, convert);
        let period = InFlight {
            samples,
            offset: 0,
            oldest_insertion_index: Some(oldest_insertion_index),
        };
        assert(is_rendered(
            *mix,
            *convert,
            resampled@,
            old(self).source_ramp(),
            declick_count(rate),
            output@,
            period.samples@,
        ));
        proof {
            the_device_gets_each_sample_in_its_place(
                *mix,
                *convert,
                resampled@,
                old(self).source_ramp(),
                rate,
                output@,
                period.samples@,
            );
        }
        period
    }

    /// Where a period of silence is faded in from: when audio played last, from its last sample.
    pub open spec fn silence_ramp(self) -> Option<T> {
        if self.source_was_silent {
            self.ramp_from
        } else {
            Some(self.last_output)
        }
    }

    /// The state after a period of silence. Going over from audio to silence is a cut; once audio
    /// was played, playback runs dry.
    pub open spec fn silenced(self, parameters: SinkParameters) -> Self {
        let frames = self.counters.silence_frames + parameters.period_frames;
        let cut = if self.source_was_silent {
            self
        } else {
            self.spliced()
        };
        RenderState {
            counters: RenderCounters {
                silence_frames: if frames <= u64::MAX {
                    frames as u64
                } else {
                    u64::MAX
                },
                ..cut.counters
            },
            ramp_from: None,
            source_was_silent: true,
            last_output: self.silence,
            starving_for: if self.rendered_source {
                Duration { nanos: (self.starving_for.nanos + parameters.period_nanos()) as u128 }
            } else {
                self.starving_for
            },
            ..self
        }
    }

    /// Makes a period of silence. Playback may run dry for `reconnect` at most.
    pub fn render_silence_period<M: Fn(T, T, usize, usize) -> T, C: Fn(T) -> i32>(
        &mut self,
        parameters: SinkParameters,
        reconnect: Duration,
        occupancy: usize,
        mix: &M,
        convert: &C,
    ) -> (silent: SilentPeriod)
        requires
            parameters.rate > 0,
            old(self).room(),
            old(self).starving_for.nanos + parameters.period_nanos() <= u128::MAX,
            blends(*mix),
            converts(*convert),
        ensures
            *final(self) == old(self).silenced(parameters),
            silent.control == if old(self).source_was_silent {
                Control::Keep
            } else {
                Control::ResetFilter { occupancy }
            },
            silent.starved == (old(self).rendered_source && final(self).starving_for.nanos
                >= reconnect.nanos),
            silent.period.wf(),
            silent.period.offset == 0,
            silent.period.oldest_insertion_index is None,
            silent.period.samples@.len() == parameters.period_frames,
            forall|i: int|
                parameters.rate * 5 / 1000 <= i < parameters.period_frames ==> call_ensures(
                    *convert,
                    (old(self).silence,),
                    #[trigger] silent.period.samples@[i],
                ),
            exists|output: Seq<T>| #[trigger]
                is_rendered(
                    *mix,
                    *convert,
                    repeated(old(self).silence, parameters.period_frames as nat),
                    old(self).silence_ramp(),
                    declick_count(parameters.rate),
                    output,
                    silent.period.samples@,
                ),
    {
        let mut output = repeat(self.silence, parameters.period_frames);
        self.counters.silence_frames = self.counters.silence_frames.saturating_add(
            parameters.period_frames as u64,
        );
        let mut control = Control::Keep;
        if !self.source_was_silent {
            control = self.mark_splice(occupancy);
        }
        match self.ramp_from.take() {
            Some(from) => {
                apply_ramp(&mut output, from, declick_frames(parameters.rate), mix);
            },
            None => {},
        }
        self.source_was_silent = true;
        self.last_output = self.silence;
        let mut starved = false;
        if self.rendered_source {
            self.starving_for = self.starving_for.plus(parameters.period());
            starved = self.starving_for.nanos >= reconnect.nanos;
        }
        let samples = convert_all(&output, convert);
        let silent = SilentPeriod {
            period: InFlight { samples, offset: 0, oldest_insertion_index: None },
            control,
            starved,
        };
        assert(is_rendered(
            *mix,
            *convert,
            repeated(old(self).silence, parameters.period_frames as nat),
            old(self).silence_ramp(),
            declick_count(parameters.rate),
            output@,
            silent.period.samples@,
        ));
        proof {
            the_device_gets_each_sample_in_its_place(
                *mix,
                *convert,
                repeated(old(self).silence, parameters.period_frames as nat),
                old(self).silence_ramp(),
                parameters.rate,
                output@,
                silent.period.samples@,
            );
        }
        silent
    }

    /// The state after so many periods of silence on end.
    pub open spec fn silenced_for(self, parameters: SinkParameters, periods: nat) -> Self
        decreases periods,
    {
        if periods == 0 {
            self
        } else {
            self.silenced_for(parameters, (periods - 1) as nat).silenced(parameters)
        }
    }
}

/// Once audio was played, each period of silence on end adds one period to the time that playback
/// runs dry, so that the limit is met with the first period that reaches it; before that, silence
/// does not count.
pub proof fn starvation_adds_up<T: Copy>(
    state: RenderState<T>,
    parameters: SinkParameters,
    periods: nat,
)
    requires
        state.starving_for.nanos + periods * parameters.period_nanos() <= u128::MAX,
    ensures
        state.silenced_for(parameters, periods).rendered_source == state.rendered_source,
        state.silenced_for(parameters, periods).starving_for.nanos == state.starving_for.nanos + (
        if state.rendered_source {
            periods * parameters.period_nanos()
        } else {
            0
        }),
    decreases periods,
{
    let period = parameters.period_nanos();
    if periods == 0 {
        assert(0 * period == 0);
    } else {
        let before = (periods - 1) as nat;
        assert(periods * period == before * period + period) by (nonlinear_arith)
            requires
                periods == before + 1,
        ;
        starvation_adds_up(state, parameters, before);
    }
}

/// Of periods of silence on end, only the first can be a cut.
pub proof fn silence_is_cut_once<T: Copy>(
    state: RenderState<T>,
    parameters: SinkParameters,
    periods: nat,
)
    requires
        periods > 0,
        state.counters.splices < u64::MAX,
    ensures
        state.silenced_for(parameters, periods).source_was_silent,
        state.silenced_for(parameters, periods).counters.splices == state.counters.splices + (
        if state.source_was_silent {
            0int
        } else {
            1
        }),
    decreases periods,
{
    if periods > 1 {
        silence_is_cut_once(state, parameters, (periods - 1) as nat);
    } else {
        reveal_with_fuel(RenderState::silenced_for, 2);
    }
}

/// The device gets a period sample by sample, each in its place: the sample at `i` is the conversion
/// of the output at `i`. Without a fade the output at `i` is the signal at `i`; with one, it is so
/// from the end of the fade on, five milliseconds into the period, and before that it is the signal
/// at `i` blended with the sample that the fade starts from, at the place `i + 1` of the fade.
pub proof fn the_device_gets_each_sample_in_its_place<
    T,
    M: Fn(T, T, usize, usize) -> T,
    C: Fn(T) -> i32,
>(
    mix: M,
    convert: C,
    raw: Seq<T>,
    from: Option<T>,
    rate: u32,
    output: Seq<T>,
    samples: Seq<i32>,
)
    requires
        is_rendered(mix, convert, raw, from, declick_count(rate), output, samples),
    ensures
        output.len() == raw.len(),
        samples.len() == raw.len(),
        forall|i: int|
            0 <= i < raw.len() ==> call_ensures(convert, (output[i],), #[trigger] samples[i]),
        from is None ==> forall|i: int| 0 <= i < raw.len() ==> #[trigger] output[i] == raw[i],
        forall|i: int| rate * 5 / 1000 <= i < raw.len() ==> #[trigger] output[i] == raw[i],
        from matches Some(from) ==> forall|i: int|
            0 <= i < raw.len() && i < rate * 5 / 1000 ==> call_ensures(
                mix,
                (
                    from,
                    raw[i],
                    (i + 1) as usize,
                    (if rate * 5 / 1000 < raw.len() {
                        rate * 5 / 1000
                    } else {
                        raw.len() as int
                    }) as usize,
                ),
                #[trigger] output[i],
            ),
{
    assert(declick_count(rate) == rate * 5 / 1000);
}

/// Rendering a longer signal renders its beginning as before: without a fade, what the device gets
/// of a run of samples does not depend on what follows it, nor on what comes before it.
pub proof fn conversion_is_local<T, M: Fn(T, T, usize, usize) -> T, C: Fn(T) -> i32>(
    mix: M,
    convert: C,
    first: Seq<T>,
    second: Seq<T>,
    rate: u32,
    output: Seq<T>,
    samples: Seq<i32>,
)
    requires
        is_rendered(mix, convert, first + second, None, declick_count(rate), output, samples),
    ensures
        is_rendered(
            mix,
            convert,
            first,
            None,
            declick_count(rate),
            first,
            samples.take(first.len() as int),
        ),
        is_rendered(
            mix,
            convert,
            second,
            None,
            declick_count(rate),
            second,
            samples.skip(first.len() as int),
        ),
{
    let whole = first + second;
    assert forall|i: int| 0 <= i < first.len() implies call_ensures(
        convert,
        (first[i],),
        #[trigger] samples.take(first.len() as int)[i],
    ) by {
        assert(whole[i] == first[i]);
        assert(call_ensures(convert, (output[i],), samples[i]));
    }
    assert forall|i: int| 0 <= i < second.len() implies call_ensures(
        convert,
        (second[i],),
        #[trigger] samples.skip(first.len() as int)[i],
    ) by {
        assert(whole[first.len() + i] == second[i]);
        assert(call_ensures(convert, (output[first.len() + i],), samples[first.len() + i]));
    }
}

/// When a fade is made: audio is faded in after a cut from the sample played last before it, and
/// after silence from silence, and otherwise is left alone; silence is faded in from the last sample
/// of the audio before it, and once it plays only after a cut.
pub proof fn fades_follow_cuts_and_silence<T: Copy>(state: RenderState<T>)
    ensures
        state.ramp_from is Some ==> state.source_ramp() == state.ramp_from,
        state.ramp_from is None && state.source_was_silent ==> state.source_ramp() == Some(
            state.silence,
        ),
        state.ramp_from is None && !state.source_was_silent ==> state.source_ramp() is None,
        !state.source_was_silent ==> state.silence_ramp() == Some(state.last_output),
        state.source_was_silent ==> state.silence_ramp() == state.ramp_from,
        state.spliced().source_ramp() == Some(state.last_output),
        state.spliced().counters.splices == (state.counters.splices + 1) as u64,
        state.spliced().in_flight == state.in_flight,
        state.spliced().last_output == state.last_output,
        state.spliced().source_was_silent == state.source_was_silent,
        state.spliced().rendered_source == state.rendered_source,
        state.spliced().starving_for == state.starving_for,
{
}

/// What a period of silence changes: its frames are counted, silence is what was played last, and
/// playback runs dry by one period more if audio was played before; a cut is marked only if audio
/// was played just before.
pub proof fn a_period_of_silence_is_accounted_for<T: Copy>(
    state: RenderState<T>,
    parameters: SinkParameters,
)
    requires
        state.counters.splices < u64::MAX,
        state.counters.silence_frames + parameters.period_frames <= u64::MAX,
        state.starving_for.nanos + parameters.period_nanos() <= u128::MAX,
    ensures
        ({
            let after = state.silenced(parameters);
            &&& after.counters.silence_frames - state.counters.silence_frames
                == parameters.period_frames
            &&& after.counters.splices - state.counters.splices == if state.source_was_silent {
                0int
            } else {
                1
            }
            &&& after.starving_for.nanos - state.starving_for.nanos == if state.rendered_source {
                parameters.period_nanos() as int
            } else {
                0
            }
            &&& after.source_was_silent
            &&& after.last_output == state.silence
            &&& after.ramp_from is None
            &&& after.source_ramp() == Some(state.silence)
            &&& after.silence_ramp() is None
            &&& after.rendered_source == state.rendered_source
            &&& after.in_flight == state.in_flight
            &&& after.consecutive_expiries == state.consecutive_expiries
            &&& after.counters.underruns == state.counters.underruns
            &&& after.counters.write_expiries == state.counters.write_expiries
            &&& after.counters.would_block == state.counters.would_block
        }),
{
}

/// A period begins with what changed since the last one: limits are handed on when their serial is a
/// new one, a cut is marked when the splice serial is, and both serials are then known, so that
/// beginning again with the same snapshot hands nothing on and marks nothing. Audio is played if and
/// only if playback has started.
pub proof fn changes_are_taken_in_once<T: Copy>(state: RenderState<T>, snapshot: PeriodSnapshot)
    requires
        state.counters.splices < u64::MAX,
    ensures
        ({
            let (after, plan) = state.after_begin(snapshot);
            let again = after.after_begin(snapshot);
            let cut = snapshot.splice_serial != state.seen_splice_serial;
            &&& after.seen_limits_serial == snapshot.limits_serial
            &&& after.seen_splice_serial == snapshot.splice_serial
            &&& plan.reconfigure is Some <==> snapshot.limits_serial != state.seen_limits_serial
            &&& plan.reconfigure is Some ==> plan.reconfigure == Some(snapshot.limits)
            &&& plan.control == if cut {
                Control::ResetFilter { occupancy: snapshot.occupancy }
            } else {
                Control::Keep
            }
            &&& after.counters.splices - state.counters.splices == if cut {
                1int
            } else {
                0
            }
            &&& after.ramp_from == if cut {
                Some(state.last_output)
            } else {
                state.ramp_from
            }
            &&& plan.mode is Source <==> snapshot.started
            &&& plan.mode matches PeriodMode::Source { occupancy } ==> occupancy
                == snapshot.occupancy
            &&& plan.start_filter == if snapshot.started && snapshot.just_started {
                Some(snapshot.occupancy)
            } else {
                None
            }
            &&& again.0 == after
            &&& again.1.reconfigure is None
            &&& again.1.control == Control::Keep
            &&& after.in_flight == state.in_flight
            &&& after.last_output == state.last_output
            &&& after.source_was_silent == state.source_was_silent
            &&& after.rendered_source == state.rendered_source
            &&& after.starving_for == state.starving_for
        }),
{
}

/// Audio that was taken before a cut is resampled if it has the length that is wanted after it, and
/// as it is; in every other case there is silence.
pub proof fn only_fitting_audio_is_resampled<T>(taken: Option<TakenAudio<T>>, needed: usize)
    ensures
        fitting_action(taken, needed) matches PeriodAction::Resample(audio) ==> taken == Some(audio)
            && audio.samples@.len() == needed,
        fitting_action(taken, needed) is Resample <==> taken is Some && taken->0.samples@.len()
            == needed,
        fitting_action(taken, needed) is Resample || fitting_action(taken, needed) is Silence,
{
}

/// Saturation is long from five seconds on, and not before.
pub proof fn saturation_is_long_after_five_seconds<T: Copy>(saturated: Duration)
    ensures
        RenderState::<T>::is_long(saturated) <==> saturated.nanos >= 5_000_000_000,
{
}

} // verus!
