//! The renderer: one period of output at a time, and what to do when the device does not keep up.
//!
//! The device, the resampler and the fill-level controller are driven from outside. Each function
//! here takes what they answered, decides, and says what to do next.

use vstd::prelude::*;

use crate::error::SessionError;
use crate::jitter::is_aged;
use crate::shared::SharedAudio;
use crate::sink::{Availability, SinkError, WaitResult, WriteResult};
use crate::time::{Duration, Instant};

verus! {

/// What the renderer has to say.
#[derive(Debug)]
pub enum RendererEvent {
    /// Playback ran dry for as long as it may.
    Starvation,
    /// Playback cannot go on, for this reason.
    Terminal(SessionError),
}

/// How often what happened, for the log.
#[derive(Clone, Copy, Debug, PartialEq, Eq, Structural)]
pub struct RenderCounters {
    pub would_block: u64,
    pub write_expiries: u64,
    pub underruns: u64,
    pub hard_recoveries: u64,
    pub reopen_attempts: u64,
    pub reopen_failures: u64,
    pub splices: u64,
    pub silence_frames: u64,
}

impl RenderCounters {
    pub open spec fn zero() -> Self {
        RenderCounters {
            would_block: 0,
            write_expiries: 0,
            underruns: 0,
            hard_recoveries: 0,
            reopen_attempts: 0,
            reopen_failures: 0,
            splices: 0,
            silence_frames: 0,
        }
    }

    /// Every counter that counts by one can still do so.
    pub open spec fn room(self) -> bool {
        &&& self.would_block < u64::MAX
        &&& self.write_expiries < u64::MAX
        &&& self.underruns < u64::MAX
        &&& self.hard_recoveries < u64::MAX
        &&& self.reopen_attempts < u64::MAX
        &&& self.reopen_failures < u64::MAX
        &&& self.splices < u64::MAX
    }
}

impl Default for RenderCounters {
    fn default() -> (counters: Self)
        ensures
            counters == RenderCounters::zero(),
    {
        RenderCounters {
            would_block: 0,
            write_expiries: 0,
            underruns: 0,
            hard_recoveries: 0,
            reopen_attempts: 0,
            reopen_failures: 0,
            splices: 0,
            silence_frames: 0,
        }
    }
}

/// A period on its way to the device; the samples before `offset` are already there.
#[derive(Debug)]
pub struct InFlight {
    pub samples: Vec<i32>,
    pub offset: usize,
    /// When the oldest audio in it came in; nothing for silence.
    pub oldest_insertion_index: Option<u64>,
}

impl InFlight {
    pub open spec fn wf(self) -> bool {
        self.offset <= self.samples@.len()
    }

    /// What the device still has to get.
    pub open spec fn unwritten(self) -> Seq<i32> {
        self.samples@.skip(self.offset as int)
    }
}

/// What the resampler and the fill-level controller have to be told.
#[derive(Clone, Copy, Debug, PartialEq, Eq, Structural)]
pub enum Control {
    /// Nothing.
    Keep,
    /// The signal was cut: reset the resampler, and start the controller's filter at this
    /// occupancy.
    ResetFilter { occupancy: usize },
    /// Start over: reset the resampler, and all of the controller, at this occupancy.
    ResetAll { occupancy: usize },
}

/// How an attempt to write a period ended.
#[derive(Clone, Copy, Debug, PartialEq, Eq, Structural)]
pub enum AttemptResult {
    Completed,
    Expired,
    Underrun,
    Reopen,
}

/// What happened in an attempt to write a period.
#[derive(Debug)]
pub enum AttemptEvent {
    /// A round begins.
    Begin { cancelled: bool },
    /// The device was waited for.
    Waited(Result<WaitResult, SinkError>),
    /// The device was asked how much it can take.
    Offered { period_frames: usize, available: Result<Availability, SinkError> },
    /// A period was rendered.
    Rendered(InFlight),
    /// What is unwritten was written, as far as the device took it.
    Wrote(Result<WriteResult, SinkError>),
}

/// What to do next in an attempt to write a period.
#[derive(Clone, Copy, Debug, PartialEq, Eq, Structural)]
pub enum AttemptAction {
    /// Wait for the device, no longer than this.
    Wait(Duration),
    /// Ask the device how much it can take.
    Offer,
    /// Render a period.
    Render,
    /// Write what is unwritten of the period in flight.
    Write,
    /// Begin another round.
    Again,
    /// The attempt is over.
    Finish(AttemptResult),
}

/// The renderer's state. `T` is a sample of the signal before it is converted for the device.
#[derive(Debug)]
pub struct RenderState<T> {
    /// The sample that silence is made of.
    pub silence: T,
    pub in_flight: Option<InFlight>,
    pub consecutive_expiries: u32,
    pub underrun_recovery_started: Option<Instant>,
    /// Whether audio was rendered since playback last started over.
    pub rendered_source: bool,
    pub starving_for: Duration,
    pub source_was_silent: bool,
    pub last_output: T,
    /// Where the next period has to be faded in from.
    pub ramp_from: Option<T>,
    pub seen_splice_serial: u64,
    pub seen_limits_serial: u64,
    pub completed_periods: u64,
    pub counters: RenderCounters,
    pub saturation_reported: bool,
}

impl<T: Copy> RenderState<T> {
    pub open spec fn wf(self) -> bool {
        self.in_flight matches Some(period) ==> period.wf()
    }

    /// Every counter can still count.
    pub open spec fn room(self) -> bool {
        &&& self.counters.room()
        &&& self.consecutive_expiries < u32::MAX
        &&& self.completed_periods < u64::MAX
    }

    /// The audio in flight is older than the buffer's audio may get.
    pub open spec fn is_expired(self, shared: SharedAudio<T>, now: Instant) -> bool {
        match self.in_flight {
            Some(period) => match period.oldest_insertion_index {
                Some(oldest) => is_aged(
                    oldest,
                    shared.index_at(now),
                    shared.limits.maximum_age_periods,
                ),
                None => false,
            },
            None => false,
        }
    }

    /// The signal was cut here: the next period is faded in from the last output.
    pub open spec fn spliced(self) -> Self {
        RenderState {
            ramp_from: Some(self.last_output),
            counters: RenderCounters {
                splices: (self.counters.splices + 1) as u64,
                ..self.counters
            },
            ..self
        }
    }

    /// The period in flight is given up.
    pub open spec fn dropped(self) -> Self {
        RenderState { in_flight: None, ..self }.spliced()
    }

    /// Nothing was rendered yet.
    pub fn new(silence: T) -> (state: Self)
        ensures
            state == (RenderState {
                silence,
                in_flight: None,
                consecutive_expiries: 0,
                underrun_recovery_started: None,
                rendered_source: false,
                starving_for: Duration { nanos: 0 },
                source_was_silent: true,
                last_output: silence,
                ramp_from: None,
                seen_splice_serial: 0,
                seen_limits_serial: 0,
                completed_periods: 0,
                counters: RenderCounters::zero(),
                saturation_reported: false,
            }),
    {
        RenderState {
            silence,
            in_flight: None,
            consecutive_expiries: 0,
            underrun_recovery_started: None,
            rendered_source: false,
            starving_for: Duration::zero(),
            source_was_silent: true,
            last_output: silence,
            ramp_from: None,
            seen_splice_serial: 0,
            seen_limits_serial: 0,
            completed_periods: 0,
            counters: RenderCounters::default(),
            saturation_reported: false,
        }
    }

    /// Whether every counter can still count.
    pub fn has_room(&self) -> (room: bool)
        ensures
            room == self.room(),
    {
        self.counters.would_block < u64::MAX && self.counters.write_expiries < u64::MAX
            && self.counters.underruns < u64::MAX && self.counters.hard_recoveries < u64::MAX
            && self.counters.reopen_attempts < u64::MAX && self.counters.reopen_failures < u64::MAX
            && self.counters.splices < u64::MAX && self.consecutive_expiries < u32::MAX
            && self.completed_periods < u64::MAX
    }

    /// Whether the audio in flight is too old to be played.
    pub fn in_flight_is_expired(&self, shared: &SharedAudio<T>, now: Instant) -> (expired: bool)
        ensures
            expired == self.is_expired(*shared, now),
    {
        match &self.in_flight {
            Some(period) => match period.oldest_insertion_index {
                Some(oldest) => shared.current_index(now).saturating_sub(oldest)
                    > shared.limits.maximum_age_periods,
                None => false,
            },
            None => false,
        }
    }

    /// Marks a cut in the signal.
    pub fn mark_splice(&mut self, occupancy: usize) -> (control: Control)
        requires
            old(self).counters.splices < u64::MAX,
        ensures
            *final(self) == old(self).spliced(),
            control == (Control::ResetFilter { occupancy }),
    {
        self.counters.splices = self.counters.splices + 1;
        self.ramp_from = Some(self.last_output);
        Control::ResetFilter { occupancy }
    }

    /// What is still unwritten of the period in flight.
    pub fn unwritten(&self) -> (samples: &[i32])
        requires
            self.wf(),
            self.in_flight is Some,
        ensures
            samples@ == self.in_flight->0.unwritten(),
    {
        match &self.in_flight {
            Some(period) => {
                let end: usize = period.samples.len();
                let samples = vstd::slice::slice_subrange(
                    period.samples.as_slice(),
                    period.offset,
                    end,
                );
                assert(samples@ =~= period.unwritten());
                samples
            },
            None => {
                assert(false);
                &[]
            },
        }
    }

    /// A period is there: write it, unless it is too old by now.
    pub open spec fn write_unless_expired(self, shared: SharedAudio<T>, now: Instant) -> (
        Self,
        AttemptAction,
        Control,
    ) {
        if self.is_expired(shared, now) {
            (
                self.dropped(),
                AttemptAction::Again,
                Control::ResetFilter { occupancy: shared.buffer@.len() as usize },
            )
        } else {
            (self, AttemptAction::Write, Control::Keep)
        }
    }

    /// How far the device has got after taking `written` samples more.
    pub open spec fn advanced(self, written: usize) -> (Self, AttemptAction) {
        let period = self.in_flight->0;
        let reached = period.offset + written;
        if reached >= period.samples@.len() {
            (
                RenderState { in_flight: None, ..self },
                AttemptAction::Finish(AttemptResult::Completed),
            )
        } else {
            (
                RenderState {
                    in_flight: Some(InFlight { offset: reached as usize, ..period }),
                    ..self
                },
                AttemptAction::Again,
            )
        }
    }

    /// What an event in an attempt leads to: the state, the next action, and what the resampler
    /// and the controller are told.
    pub open spec fn attempt_next(
        self,
        shared: SharedAudio<T>,
        event: AttemptEvent,
        now: Instant,
        deadline: Instant,
    ) -> (Self, AttemptAction, Control) {
        match event {
            AttemptEvent::Begin { cancelled } => if cancelled {
                (self, AttemptAction::Finish(AttemptResult::Completed), Control::Keep)
            } else {
                let action = if now.nanos > deadline.nanos {
                    AttemptAction::Finish(AttemptResult::Expired)
                } else {
                    AttemptAction::Wait(
                        Duration { nanos: (deadline.nanos - now.nanos) as u128 },
                    )
                };
                if self.is_expired(shared, now) {
                    (
                        self.dropped(),
                        action,
                        Control::ResetFilter { occupancy: shared.buffer@.len() as usize },
                    )
                } else {
                    (self, action, Control::Keep)
                }
            },
            AttemptEvent::Waited(result) => (
                self,
                match result {
                    Ok(WaitResult::Ready) => AttemptAction::Offer,
                    Ok(WaitResult::TimedOut) => AttemptAction::Finish(AttemptResult::Expired),
                    Ok(WaitResult::Underrun) => AttemptAction::Finish(AttemptResult::Underrun),
                    Ok(WaitResult::Suspended) => AttemptAction::Finish(AttemptResult::Reopen),
                    Err(_) => AttemptAction::Finish(AttemptResult::Reopen),
                },
                Control::Keep,
            ),
            AttemptEvent::Offered { period_frames, available } => match available {
                Ok(Availability::Frames(frames)) => if frames < period_frames {
                    (self, AttemptAction::Again, Control::Keep)
                } else if self.in_flight is None {
                    (self, AttemptAction::Render, Control::Keep)
                } else {
                    self.write_unless_expired(shared, now)
                },
                Ok(Availability::Underrun) => (
                    self,
                    AttemptAction::Finish(AttemptResult::Underrun),
                    Control::Keep,
                ),
                Ok(Availability::Suspended) => (
                    self,
                    AttemptAction::Finish(AttemptResult::Reopen),
                    Control::Keep,
                ),
                Err(_) => (self, AttemptAction::Finish(AttemptResult::Reopen), Control::Keep),
            },
            AttemptEvent::Rendered(period) => RenderState {
                in_flight: Some(period),
                ..self
            }.write_unless_expired(shared, now),
            AttemptEvent::Wrote(result) => match result {
                Ok(WriteResult::Written(written)) => if written == 0 {
                    (self, AttemptAction::Again, Control::Keep)
                } else {
                    let (state, action) = self.advanced(written);
                    (state, action, Control::Keep)
                },
                Ok(WriteResult::WouldBlock) => (
                    RenderState {
                        counters: RenderCounters {
                            would_block: (self.counters.would_block + 1) as u64,
                            ..self.counters
                        },
                        ..self
                    },
                    AttemptAction::Again,
                    Control::Keep,
                ),
                Ok(WriteResult::Underrun) => (
                    self,
                    AttemptAction::Finish(AttemptResult::Underrun),
                    Control::Keep,
                ),
                Ok(WriteResult::Suspended) => (
                    self,
                    AttemptAction::Finish(AttemptResult::Reopen),
                    Control::Keep,
                ),
                Err(_) => (self, AttemptAction::Finish(AttemptResult::Reopen), Control::Keep),
            },
        }
    }

    fn write_or_drop(&mut self, shared: &SharedAudio<T>, now: Instant) -> (step: (
        AttemptAction,
        Control,
    ))
        requires
            old(self).wf(),
            old(self).room(),
            shared.wf(),
        ensures
            final(self).wf(),
            (*final(self), step.0, step.1) == old(self).write_unless_expired(*shared, now),
    {
        if self.in_flight_is_expired(shared, now) {
            self.in_flight = None;
            let control = self.mark_splice(shared.buffer.occupancy());
            return (AttemptAction::Again, control);
        }
        (AttemptAction::Write, Control::Keep)
    }

    /// Takes one step of an attempt to write a period to the device.
    pub fn attempt_step(
        &mut self,
        shared: &SharedAudio<T>,
        event: AttemptEvent,
        now: Instant,
        deadline: Instant,
    ) -> (step: (AttemptAction, Control))
        requires
            old(self).wf(),
            old(self).room(),
            shared.wf(),
            event matches AttemptEvent::Rendered(period) ==> period.wf(),
            event is Wrote ==> old(self).in_flight is Some,
        ensures
            final(self).wf(),
            (*final(self), step.0, step.1) == old(self).attempt_next(*shared, event, now, deadline),
            step.0 is Write ==> final(self).in_flight is Some,
    {
        match event {
            AttemptEvent::Begin { cancelled } => {
                if cancelled {
                    return (AttemptAction::Finish(AttemptResult::Completed), Control::Keep);
                }
                let mut control = Control::Keep;
                if self.in_flight_is_expired(shared, now) {
                    self.in_flight = None;
                    control = self.mark_splice(shared.buffer.occupancy());
                }
                match deadline.checked_duration_since(now) {
                    Some(remaining) => (AttemptAction::Wait(remaining), control),
                    None => (AttemptAction::Finish(AttemptResult::Expired), control),
                }
            },
            AttemptEvent::Waited(result) => {
                let action = match result {
                    Ok(WaitResult::Ready) => AttemptAction::Offer,
                    Ok(WaitResult::TimedOut) => AttemptAction::Finish(AttemptResult::Expired),
                    Ok(WaitResult::Underrun) => AttemptAction::Finish(AttemptResult::Underrun),
                    Ok(WaitResult::Suspended) => AttemptAction::Finish(AttemptResult::Reopen),
                    Err(_) => AttemptAction::Finish(AttemptResult::Reopen),
                };
                (action, Control::Keep)
            },
            AttemptEvent::Offered { period_frames, available } => match available {
                Ok(Availability::Frames(frames)) => {
                    if frames < period_frames {
                        (AttemptAction::Again, Control::Keep)
                    } else if self.in_flight.is_none() {
                        (AttemptAction::Render, Control::Keep)
                    } else {
                        self.write_or_drop(shared, now)
                    }
                },
                Ok(Availability::Underrun) => (
                    AttemptAction::Finish(AttemptResult::Underrun),
                    Control::Keep,
                ),
                Ok(Availability::Suspended) => (
                    AttemptAction::Finish(AttemptResult::Reopen),
                    Control::Keep,
                ),
                Err(_) => (AttemptAction::Finish(AttemptResult::Reopen), Control::Keep),
            },
            AttemptEvent::Rendered(period) => {
                self.in_flight = Some(period);
                self.write_or_drop(shared, now)
            },
            AttemptEvent::Wrote(result) => match result {
                Ok(WriteResult::Written(written)) => {
                    if written == 0 {
                        return (AttemptAction::Again, Control::Keep);
                    }
                    (self.advance(written), Control::Keep)
                },
                Ok(WriteResult::WouldBlock) => {
                    self.counters.would_block = self.counters.would_block + 1;
                    (AttemptAction::Again, Control::Keep)
                },
                Ok(WriteResult::Underrun) => (
                    AttemptAction::Finish(AttemptResult::Underrun),
                    Control::Keep,
                ),
                Ok(WriteResult::Suspended) => (
                    AttemptAction::Finish(AttemptResult::Reopen),
                    Control::Keep,
                ),
                Err(_) => (AttemptAction::Finish(AttemptResult::Reopen), Control::Keep),
            },
        }
    }

    fn advance(&mut self, written: usize) -> (action: AttemptAction)
        requires
            old(self).wf(),
            old(self).in_flight is Some,
        ensures
            final(self).wf(),
            (*final(self), action) == old(self).advanced(written),
    {
        let taken = self.in_flight.take();
        match taken {
            Some(period) => {
                let mut period = period;
                let length: usize = period.samples.len();
                if written >= length - period.offset {
                    return AttemptAction::Finish(AttemptResult::Completed);
                }
                period.offset = period.offset + written;
                self.in_flight = Some(period);
                AttemptAction::Again
            },
            None => {
                assert(false);
                AttemptAction::Again
            },
        }
    }
}

/// A partial write leaves exactly the suffix that the device did not take, so that in the end each
/// sample of the period was submitted once and in order; a write of all that is left completes the
/// period.
pub proof fn partial_writes_leave_the_suffix<T: Copy>(
    state: RenderState<T>,
    shared: SharedAudio<T>,
    written: usize,
    now: Instant,
    deadline: Instant,
)
    requires
        state.wf(),
        state.in_flight is Some,
        written > 0,
    ensures
        ({
            let unwritten = state.in_flight->0.unwritten();
            let event = AttemptEvent::Wrote(Ok(WriteResult::Written(written)));
            let (next, action, control) = state.attempt_next(shared, event, now, deadline);
            if written < unwritten.len() {
                &&& action == AttemptAction::Again
                &&& next.in_flight is Some
                &&& unwritten == unwritten.take(written as int) + next.in_flight->0.unwritten()
            } else {
                &&& action == AttemptAction::Finish(AttemptResult::Completed)
                &&& next.in_flight is None
            }
        }),
{
    let period = state.in_flight->0;
    let unwritten = period.unwritten();
    assert(period.samples@.len() == period.samples.len());
    if written < unwritten.len() {
        let rest = period.samples@.skip(period.offset + written);
        assert(unwritten =~= unwritten.take(written as int) + rest);
    }
}

/// A period in flight changes in three ways only: the device took some of it, it grew too old, or
/// there was none and one was rendered. Above all, a wait that runs out or a device that is not
/// ready leaves it as it is.
pub proof fn only_age_and_progress_change_the_period<T: Copy>(
    state: RenderState<T>,
    shared: SharedAudio<T>,
    event: AttemptEvent,
    now: Instant,
    deadline: Instant,
)
    requires
        !state.is_expired(shared, now),
        !(event is Rendered),
        !(event matches AttemptEvent::Wrote(Ok(WriteResult::Written(written))) && written > 0),
    ensures
        state.attempt_next(shared, event, now, deadline).0.in_flight == state.in_flight,
        state.attempt_next(shared, event, now, deadline).2 == Control::Keep,
{
}

/// Silence never grows too old.
pub proof fn silence_does_not_expire<T: Copy>(
    state: RenderState<T>,
    shared: SharedAudio<T>,
    now: Instant,
)
    requires
        state.in_flight matches Some(period) ==> period.oldest_insertion_index is None,
    ensures
        !state.is_expired(shared, now),
{
}

/// Nothing too old is ever written: whenever the next action is to write, a period is in flight
/// and is not too old.
pub proof fn only_fresh_periods_are_written<T: Copy>(
    state: RenderState<T>,
    shared: SharedAudio<T>,
    event: AttemptEvent,
    now: Instant,
    deadline: Instant,
)
    ensures
        ({
            let (next, action, control) = state.attempt_next(shared, event, now, deadline);
            action == AttemptAction::Write ==> next.in_flight is Some && !next.is_expired(
                shared,
                now,
            )
        }),
{
}

/// An attempt does not outlast its deadline: no wait is longer than what is left, and a round that
/// begins later ends the attempt.
pub proof fn attempts_end_at_the_deadline<T: Copy>(
    state: RenderState<T>,
    shared: SharedAudio<T>,
    cancelled: bool,
    now: Instant,
    deadline: Instant,
)
    ensures
        ({
            let event = AttemptEvent::Begin { cancelled };
            match state.attempt_next(shared, event, now, deadline).1 {
                AttemptAction::Wait(timeout) => !cancelled && now.nanos + timeout.nanos
                    == deadline.nanos,
                AttemptAction::Finish(result) => if cancelled {
                    result == AttemptResult::Completed
                } else {
                    result == AttemptResult::Expired && now.nanos > deadline.nanos
                },
                _ => false,
            }
        }),
{
}

/// The sum of the counts.
pub open spec fn total(counts: Seq<usize>) -> nat
    decreases counts.len(),
{
    if counts.len() == 0 {
        0
    } else {
        total(counts.drop_last()) + counts.last() as nat
    }
}

/// The state after writes of which the device took so many samples each.
pub open spec fn after_writes<T: Copy>(
    state: RenderState<T>,
    shared: SharedAudio<T>,
    counts: Seq<usize>,
    now: Instant,
    deadline: Instant,
) -> RenderState<T>
    decreases counts.len(),
{
    if counts.len() == 0 {
        state
    } else {
        let event = AttemptEvent::Wrote(Ok(WriteResult::Written(counts.last())));
        after_writes(state, shared, counts.drop_last(), now, deadline).attempt_next(
            shared,
            event,
            now,
            deadline,
        ).0
    }
}

/// However a period is cut up by the device, what is left to write is always what the writes so far
/// did not cover; nothing is skipped or repeated.
pub proof fn writes_add_up<T: Copy>(
    state: RenderState<T>,
    shared: SharedAudio<T>,
    counts: Seq<usize>,
    now: Instant,
    deadline: Instant,
)
    requires
        state.wf(),
        state.in_flight is Some,
        total(counts) < state.in_flight->0.unwritten().len(),
    ensures
        ({
            let later = after_writes(state, shared, counts, now, deadline);
            &&& later.wf()
            &&& later.in_flight is Some
            &&& later.in_flight->0.samples == state.in_flight->0.samples
            &&& later.in_flight->0.unwritten() == state.in_flight->0.unwritten().skip(
                total(counts) as int,
            )
        }),
    decreases counts.len(),
{
    let period = state.in_flight->0;
    assert(period.samples@.len() == period.samples.len());
    if counts.len() == 0 {
        assert(period.unwritten().skip(0) =~= period.unwritten());
    } else {
        let shorter = counts.drop_last();
        writes_add_up(state, shared, shorter, now, deadline);
        let before = after_writes(state, shared, shorter, now, deadline);
        let after = after_writes(state, shared, counts, now, deadline);
        assert(before.in_flight->0.unwritten().len() == period.unwritten().len() - total(shorter));
        assert(after.in_flight->0.unwritten() =~= period.unwritten().skip(total(counts) as int));
    }
}

/// Audio in flight is too old exactly if it came in more periods ago than the limits admit; then it
/// is dropped as soon as a round of an attempt begins, and the cut is marked. Before that no event
/// but a write touches it.
pub proof fn audio_in_flight_lives_for_the_maximum_age<T: Copy>(
    state: RenderState<T>,
    shared: SharedAudio<T>,
    now: Instant,
    deadline: Instant,
    oldest: u64,
)
    requires
        state.in_flight is Some,
        state.in_flight->0.oldest_insertion_index == Some(oldest),
        state.counters.splices < u64::MAX,
        shared.buffer@.len() <= usize::MAX,
    ensures
        ({
            let event = AttemptEvent::Begin { cancelled: false };
            let (next, action, control) = state.attempt_next(shared, event, now, deadline);
            &&& shared.index_at(now) <= oldest + shared.limits.maximum_age_periods ==> next.in_flight
                == state.in_flight && control == Control::Keep && next.counters == state.counters
            &&& shared.index_at(now) > oldest + shared.limits.maximum_age_periods ==> {
                &&& next.in_flight is None
                &&& next.ramp_from == Some(state.last_output)
                &&& next.counters.splices == state.counters.splices + 1
                &&& control matches Control::ResetFilter { occupancy } && occupancy
                    == shared.buffer@.len()
            }
        }),
        state.is_expired(shared, now) <==> shared.index_at(now) > oldest
            + shared.limits.maximum_age_periods,
{
}

/// A period that was rendered is on its way as it is, and is written unless it is too old already.
pub proof fn rendered_periods_are_written<T: Copy>(
    state: RenderState<T>,
    shared: SharedAudio<T>,
    period: InFlight,
    now: Instant,
    deadline: Instant,
)
    ensures
        ({
            let event = AttemptEvent::Rendered(period);
            let (next, action, control) = state.attempt_next(shared, event, now, deadline);
            let late = period.oldest_insertion_index matches Some(oldest) && shared.index_at(now)
                > oldest + shared.limits.maximum_age_periods;
            &&& !late ==> next.in_flight == Some(period) && action == AttemptAction::Write
                && control == Control::Keep && next.counters == state.counters
            &&& late ==> next.in_flight is None && action == AttemptAction::Again
        }),
{
}

/// A period is rendered, or written, only when the device has room for a whole one: a device that
/// offers less is asked again, and nothing changes.
pub proof fn the_device_needs_room_for_a_whole_period<T: Copy>(
    state: RenderState<T>,
    shared: SharedAudio<T>,
    period_frames: usize,
    available: Result<Availability, SinkError>,
    now: Instant,
    deadline: Instant,
)
    ensures
        ({
            let event = AttemptEvent::Offered { period_frames, available };
            let (next, action, control) = state.attempt_next(shared, event, now, deadline);
            &&& (action == AttemptAction::Render || action == AttemptAction::Write) ==> (available
                matches Ok(Availability::Frames(frames)) && frames >= period_frames)
            &&& (available matches Ok(Availability::Frames(frames)) && frames < period_frames) ==> {
                &&& action == AttemptAction::Again
                &&& next == state
                &&& control == Control::Keep
            }
            &&& (available matches Ok(Availability::Frames(frames)) && frames >= period_frames
                && state.in_flight is None) ==> action == AttemptAction::Render && next == state
            &&& (available matches Ok(Availability::Frames(frames)) && frames >= period_frames
                && state.in_flight is Some && !state.is_expired(shared, now)) ==> action
                == AttemptAction::Write && next == state
        }),
{
}

/// A device that ran dry, wherever that shows, is told from one that is suspended or fails: the first
/// is prepared again, the others are opened anew; the period in flight is kept in both cases.
pub proof fn faults_of_the_device_are_told_apart<T: Copy>(
    state: RenderState<T>,
    shared: SharedAudio<T>,
    event: AttemptEvent,
    now: Instant,
    deadline: Instant,
)
    ensures
        ({
            let (next, action, control) = state.attempt_next(shared, event, now, deadline);
            let dry = event == AttemptEvent::Waited(Ok(WaitResult::Underrun)) || event
                == AttemptEvent::Wrote(Ok(WriteResult::Underrun)) || (event
                matches AttemptEvent::Offered { available: Ok(Availability::Underrun), .. });
            let gone = event == AttemptEvent::Waited(Ok(WaitResult::Suspended)) || event
                == AttemptEvent::Wrote(Ok(WriteResult::Suspended)) || (event
                matches AttemptEvent::Offered { available: Ok(Availability::Suspended), .. })
                || (event matches AttemptEvent::Waited(Err(_))) || (event
                matches AttemptEvent::Wrote(Err(_))) || (event
                matches AttemptEvent::Offered { available: Err(_), .. });
            &&& action == AttemptAction::Finish(AttemptResult::Underrun) <==> dry
            &&& action == AttemptAction::Finish(AttemptResult::Reopen) <==> gone
            &&& (dry || gone) ==> next == state && control == Control::Keep
            &&& event == AttemptEvent::Waited(Ok(WaitResult::TimedOut)) ==> action
                == AttemptAction::Finish(AttemptResult::Expired) && next == state
            &&& event == AttemptEvent::Waited(Ok(WaitResult::Ready)) ==> action
                == AttemptAction::Offer && next == state
            &&& event == AttemptEvent::Wrote(Ok(WriteResult::WouldBlock)) ==> {
                &&& action == AttemptAction::Again
                &&& next.in_flight == state.in_flight
                &&& next.counters.would_block == (state.counters.would_block + 1) as u64
            }
        }),
{
}

/// Counting begins with nothing counted.
pub proof fn counting_begins_with_nothing_counted()
    ensures
        ({
            let counters = RenderCounters::zero();
            counters.would_block + counters.write_expiries + counters.underruns
                + counters.hard_recoveries + counters.reopen_attempts + counters.reopen_failures
                + counters.splices + counters.silence_frames == 0
        }),
{
}

} // verus!
