//! What the renderer does when the device does not keep up: it counts, drops, clears and reopens.

use vstd::prelude::*;

use crate::error::ConfigurationError;
use crate::policy::{BufferLimits, RenderPolicy, REFUSED_LIMITS};
use crate::renderer::{AttemptResult, Control, RenderCounters, RenderState};
use crate::shared::SharedAudio;
use crate::sink::SinkParameters;
use crate::time::{Duration, Instant};

verus! {

/// The state is logged after every so many periods.
pub const LOG_PERIODS: u64 = 100;

/// What to do after an attempt.
#[derive(Clone, Copy, Debug, PartialEq, Eq, Structural)]
pub enum RunAction {
    /// Make the next attempt; log the state first if so said.
    Continue { log: bool },
    /// Drop what the device has queued and prepare it again.
    HardRecovery,
    /// Prepare the device again and go on where it ran dry.
    RecoverUnderrun,
    /// Open the device anew.
    Reopen,
}

/// What an underrun calls for.
#[derive(Clone, Copy, Debug, PartialEq, Eq, Structural)]
pub enum UnderrunStep {
    /// The period in flight was too old and is gone; nothing else to do.
    Dropped,
    /// Recovery took too long: everything was cleared, and the device has to be opened anew.
    Reopen,
    /// Prepare the device.
    Prepare,
}

/// How long underruns may follow each other without a period completed in between: as long as all
/// the attempts that may expire in a row.
pub fn underrun_patience(write_attempt: Duration, expiry_attempts: u32) -> (patience: Duration)
    requires
        write_attempt.nanos * expiry_attempts <= u128::MAX,
    ensures
        patience.nanos == write_attempt.nanos * expiry_attempts,
{
    Duration::from_nanos(write_attempt.nanos * expiry_attempts as u128)
}

impl<T: Copy> RenderState<T> {
    /// What an attempt leads to, when `expiry_attempts` attempts in a row may expire.
    pub open spec fn after_attempt(self, result: AttemptResult, expiry_attempts: u32) -> (
        Self,
        RunAction,
    ) {
        match result {
            AttemptResult::Completed => (
                RenderState {
                    consecutive_expiries: 0,
                    underrun_recovery_started: None,
                    completed_periods: (self.completed_periods + 1) as u64,
                    ..self
                },
                RunAction::Continue { log: (self.completed_periods + 1) % LOG_PERIODS as int == 0 },
            ),
            AttemptResult::Expired => (
                RenderState {
                    consecutive_expiries: (self.consecutive_expiries + 1) as u32,
                    counters: RenderCounters {
                        write_expiries: (self.counters.write_expiries + 1) as u64,
                        ..self.counters
                    },
                    ..self
                },
                if self.consecutive_expiries + 1 >= expiry_attempts {
                    RunAction::HardRecovery
                } else {
                    RunAction::Continue { log: false }
                },
            ),
            AttemptResult::Underrun => (
                RenderState {
                    counters: RenderCounters {
                        underruns: (self.counters.underruns + 1) as u64,
                        ..self.counters
                    },
                    ..self
                },
                RunAction::RecoverUnderrun,
            ),
            AttemptResult::Reopen => (self, RunAction::Reopen),
        }
    }

    /// Takes in how an attempt ended, and says what to do about it.
    pub fn on_attempt(&mut self, result: AttemptResult, expiry_attempts: u32) -> (action: RunAction)
        requires
            old(self).room(),
        ensures
            (*final(self), action) == old(self).after_attempt(result, expiry_attempts),
    {
        match result {
            AttemptResult::Completed => {
                self.consecutive_expiries = 0;
                self.underrun_recovery_started = None;
                self.completed_periods = self.completed_periods + 1;
                RunAction::Continue { log: self.completed_periods % LOG_PERIODS == 0 }
            },
            AttemptResult::Expired => {
                self.counters.write_expiries = self.counters.write_expiries + 1;
                self.consecutive_expiries = self.consecutive_expiries + 1;
                if self.consecutive_expiries >= expiry_attempts {
                    return RunAction::HardRecovery;
                }
                RunAction::Continue { log: false }
            },
            AttemptResult::Underrun => {
                self.counters.underruns = self.counters.underruns + 1;
                RunAction::RecoverUnderrun
            },
            AttemptResult::Reopen => RunAction::Reopen,
        }
    }

    /// The state after all audio was cleared. What is played next is faded in from the last output
    /// if audio was played.
    pub open spec fn cleared(self) -> Self {
        RenderState {
            source_was_silent: true,
            last_output: self.silence,
            ramp_from: if self.rendered_source {
                Some(self.last_output)
            } else {
                None
            },
            rendered_source: false,
            starving_for: Duration { nanos: 0 },
            ..self
        }
    }

    /// Clears all audio and starts over at `now`.
    pub fn clear_media_and_reset(&mut self, shared: &mut SharedAudio<T>, now: Instant) -> (control:
        Control)
        requires
            old(shared).wf(),
        ensures
            final(shared).wf(),
            final(shared).is_cleared_from(*old(shared), now),
            *final(self) == old(self).cleared(),
            control == (Control::ResetAll { occupancy: 0 }),
    {
        let ramp_from = if self.rendered_source {
            Some(self.last_output)
        } else {
            None
        };
        shared.clear_and_reanchor(now);
        let occupancy: usize = shared.buffer.occupancy();
        self.source_was_silent = true;
        self.last_output = self.silence;
        self.ramp_from = ramp_from;
        self.rendered_source = false;
        self.starving_for = Duration::zero();
        Control::ResetAll { occupancy }
    }

    /// Gives up on writing: the period in flight and all buffered audio are gone. `recovered` says
    /// whether the device dropped its queue and could be prepared; if not, it has to be opened
    /// anew, as the second result says.
    pub fn hard_write_recovery(
        &mut self,
        shared: &mut SharedAudio<T>,
        recovered: bool,
        now: Instant,
    ) -> (step: (Control, bool))
        requires
            old(self).room(),
            old(shared).wf(),
        ensures
            final(self).wf(),
            final(shared).wf(),
            final(shared).is_cleared_from(*old(shared), now),
            *final(self) == (RenderState {
                in_flight: None,
                consecutive_expiries: 0,
                counters: RenderCounters {
                    hard_recoveries: (old(self).counters.hard_recoveries + 1) as u64,
                    ..old(self).counters
                },
                ..*old(self)
            }).cleared(),
            step == (Control::ResetAll { occupancy: 0 }, !recovered),
    {
        self.counters.hard_recoveries = self.counters.hard_recoveries + 1;
        self.in_flight = None;
        let control = self.clear_media_and_reset(shared, now);
        self.consecutive_expiries = 0;
        (control, !recovered)
    }

    /// When recovery from underruns began, if it begins now unless it already has.
    pub open spec fn recovering_since(self, now: Instant) -> Instant {
        match self.underrun_recovery_started {
            Some(started) => started,
            None => now,
        }
    }

    /// Begins to recover from an underrun. One attempt to write takes `write_attempt` at most, and
    /// `expiry_attempts` attempts in a row may expire: underruns may follow each other for as long
    /// without a period completed in between.
    pub fn begin_underrun(
        &mut self,
        shared: &mut SharedAudio<T>,
        now: Instant,
        write_attempt: Duration,
        expiry_attempts: u32,
    ) -> (step: (UnderrunStep, Control))
        requires
            write_attempt.nanos * expiry_attempts <= u128::MAX,
            old(self).wf(),
            old(self).room(),
            old(shared).wf(),
        ensures
            final(self).wf(),
            final(shared).wf(),
            ({
                let since = old(self).recovering_since(now);
                if old(self).is_expired(*old(shared), now) {
                    &&& step.0 == UnderrunStep::Dropped
                    &&& step.1 == (Control::ResetFilter {
                        occupancy: old(shared).buffer@.len() as usize,
                    })
                    &&& *final(self) == old(self).dropped()
                    &&& *final(shared) == *old(shared)
                } else if (if now.nanos >= since.nanos {
                    now.nanos - since.nanos
                } else {
                    0
                }) >= write_attempt.nanos * expiry_attempts {
                    &&& step.0 == UnderrunStep::Reopen
                    &&& step.1 == (Control::ResetAll { occupancy: 0 })
                    &&& *final(self) == (RenderState {
                        underrun_recovery_started: Some(since),
                        in_flight: None,
                        ..*old(self)
                    }).cleared()
                    &&& final(shared).is_cleared_from(*old(shared), now)
                } else {
                    &&& step.0 == UnderrunStep::Prepare
                    &&& step.1 == Control::Keep
                    &&& *final(self) == (RenderState {
                        underrun_recovery_started: Some(since),
                        ..*old(self)
                    })
                    &&& *final(shared) == *old(shared)
                }
            }),
    {
        if self.in_flight_is_expired(shared, now) {
            self.in_flight = None;
            let control = self.mark_splice(shared.buffer.occupancy());
            return (UnderrunStep::Dropped, control);
        }
        let started: Instant = match self.underrun_recovery_started {
            Some(started) => started,
            None => now,
        };
        self.underrun_recovery_started = Some(started);
        let patience = underrun_patience(write_attempt, expiry_attempts);
        if now.saturating_duration_since(started).nanos >= patience.nanos {
            self.in_flight = None;
            let control = self.clear_media_and_reset(shared, now);
            return (UnderrunStep::Reopen, control);
        }
        (UnderrunStep::Prepare, Control::Keep)
    }

    /// Goes on after an underrun, once the device is prepared again: what is in flight and what is
    /// buffered is kept.
    pub fn finish_underrun(&mut self, shared: &SharedAudio<T>) -> (control: Control)
        requires
            shared.wf(),
        ensures
            *final(self) == (RenderState {
                ramp_from: Some(old(self).last_output),
                consecutive_expiries: 0,
                ..*old(self)
            }),
            control == (Control::ResetAll { occupancy: shared.buffer@.len() as usize }),
    {
        self.ramp_from = Some(self.last_output);
        self.consecutive_expiries = 0;
        Control::ResetAll { occupancy: shared.buffer.occupancy() }
    }

    /// Begins to open the device anew: what is in flight is gone.
    pub fn begin_reopen(&mut self)
        requires
            old(self).room(),
        ensures
            final(self).wf(),
            *final(self) == (RenderState {
                in_flight: None,
                counters: RenderCounters {
                    reopen_attempts: (old(self).counters.reopen_attempts + 1) as u64,
                    ..old(self).counters
                },
                ..*old(self)
            }),
    {
        self.counters.reopen_attempts = self.counters.reopen_attempts + 1;
        self.in_flight = None;
    }

    /// Takes on a device that was opened anew, with the limits derived for its period.
    pub fn reconfigure_after_reopen(
        &mut self,
        shared: &mut SharedAudio<T>,
        limits: BufferLimits,
        period: Duration,
        now: Instant,
    )
        requires
            old(shared).wf(),
        ensures
            final(shared).wf(),
            final(shared).is_reconfigured_from(*old(shared), limits, period, now),
            *final(self) == (RenderState {
                consecutive_expiries: 0,
                underrun_recovery_started: None,
                ..*old(self)
            }).cleared(),
    {
        let ramp_from = if self.rendered_source {
            Some(self.last_output)
        } else {
            None
        };
        shared.reconfigure(limits, period, now);
        self.source_was_silent = true;
        self.last_output = self.silence;
        self.ramp_from = ramp_from;
        self.rendered_source = false;
        self.starving_for = Duration::zero();
        self.consecutive_expiries = 0;
        self.underrun_recovery_started = None;
    }

    /// Takes on a device that was opened anew under a policy: limits are derived for its period and
    /// the largest packet so far. Without any, nothing changes.
    pub fn adopt_device(
        &mut self,
        shared: &mut SharedAudio<T>,
        policy: &RenderPolicy,
        parameters: SinkParameters,
        now: Instant,
    ) -> (adopted: Result<(), ConfigurationError>)
        requires
            old(shared).wf(),
        ensures
            final(shared).wf(),
            ({
                let period = Duration { nanos: parameters.period_nanos() as u128 };
                &&& adopted is Ok <==> parameters.rate > 0 && policy.admits(
                    old(shared).source_rate,
                    old(shared).largest_packet_frames,
                    period,
                )
                &&& match adopted {
                    Ok(()) => {
                        &&& policy.are_limits(
                            final(shared).limits,
                            old(shared).source_rate,
                            old(shared).largest_packet_frames,
                            period,
                        )
                        &&& final(shared).is_reconfigured_from(
                            *old(shared),
                            final(shared).limits,
                            period,
                            now,
                        )
                        &&& *final(self) == (RenderState {
                            consecutive_expiries: 0,
                            underrun_recovery_started: None,
                            ..*old(self)
                        }).cleared()
                    },
                    Err(error) => {
                        &&& error@ == REFUSED_LIMITS@
                        &&& *final(shared) == *old(shared)
                        &&& *final(self) == *old(self)
                    },
                }
            }),
    {
        if parameters.rate == 0 {
            return Err(ConfigurationError::new(REFUSED_LIMITS));
        }
        let period: Duration = parameters.period();
        match policy.derive_limits(shared.source_rate, shared.largest_packet_frames, period) {
            Err(error) => Err(error),
            Ok(limits) => {
                self.reconfigure_after_reopen(shared, limits, period, now);
                Ok(())
            },
        }
    }

    /// The state after so many attempts that expired, one after the other.
    pub open spec fn after_expiries(self, attempts: nat, expiry_attempts: u32) -> Self
        decreases attempts,
    {
        if attempts == 0 {
            self
        } else {
            self.after_expiries((attempts - 1) as nat, expiry_attempts).after_attempt(
                AttemptResult::Expired,
                expiry_attempts,
            ).0
        }
    }
}

/// Of attempts that expire one after the other, the last admitted one, and none before it, calls
/// for the device's queue to be dropped.
pub proof fn hard_recovery_comes_with_the_last_attempt<T: Copy>(
    state: RenderState<T>,
    attempts: nat,
    expiry_attempts: u32,
)
    requires
        state.consecutive_expiries == 0,
        attempts < expiry_attempts,
        state.counters.write_expiries + attempts < u64::MAX,
    ensures
        state.after_expiries(attempts, expiry_attempts).consecutive_expiries == attempts,
        state.after_expiries(attempts, expiry_attempts).counters.write_expiries
            == state.counters.write_expiries + attempts,
        state.after_expiries(attempts, expiry_attempts).in_flight == state.in_flight,
        (state.after_expiries(attempts, expiry_attempts).after_attempt(
            AttemptResult::Expired,
            expiry_attempts,
        ).1 == RunAction::HardRecovery) == (attempts + 1 == expiry_attempts),
    decreases attempts,
{
    if attempts > 0 {
        hard_recovery_comes_with_the_last_attempt(state, (attempts - 1) as nat, expiry_attempts);
    }
}

/// After all audio was cleared nothing is played but silence until the target is reached again.
pub proof fn cleared_audio_is_followed_by_silence<T: Copy>(
    before: SharedAudio<T>,
    cleared: SharedAudio<T>,
    at: Instant,
    now: Instant,
)
    requires
        cleared.is_cleared_from(before, at),
        before.limits.target_frames > 0,
    ensures
        !cleared.started,
        cleared.fresh_at(now).len() < cleared.limits.target_frames,
{
}

/// Each attempt is counted once, under what it came to, and leaves the period in flight and the sound
/// as they are. A completed period ends every count of failures; the state is logged with every
/// hundredth.
pub proof fn attempts_are_counted_once<T: Copy>(
    state: RenderState<T>,
    result: AttemptResult,
    expiry_attempts: u32,
)
    requires
        state.room(),
    ensures
        ({
            let (next, action) = state.after_attempt(result, expiry_attempts);
            &&& next.completed_periods - state.completed_periods == if result
                == AttemptResult::Completed {
                1int
            } else {
                0
            }
            &&& next.counters.write_expiries - state.counters.write_expiries == if result
                == AttemptResult::Expired {
                1int
            } else {
                0
            }
            &&& next.counters.underruns - state.counters.underruns == if result
                == AttemptResult::Underrun {
                1int
            } else {
                0
            }
            &&& next.consecutive_expiries == match result {
                AttemptResult::Completed => 0int,
                AttemptResult::Expired => state.consecutive_expiries + 1,
                _ => state.consecutive_expiries as int,
            }
            &&& result == AttemptResult::Completed ==> next.underrun_recovery_started is None
            &&& result != AttemptResult::Completed ==> next.underrun_recovery_started
                == state.underrun_recovery_started
            &&& action == RunAction::HardRecovery <==> result == AttemptResult::Expired
                && state.consecutive_expiries + 1 >= expiry_attempts
            &&& action == RunAction::RecoverUnderrun <==> result == AttemptResult::Underrun
            &&& action == RunAction::Reopen <==> result == AttemptResult::Reopen
            &&& action == (RunAction::Continue { log: true }) <==> result
                == AttemptResult::Completed && next.completed_periods % 100 == 0
            &&& next.in_flight == state.in_flight
            &&& next.last_output == state.last_output
            &&& next.ramp_from == state.ramp_from
            &&& next.source_was_silent == state.source_was_silent
            &&& next.rendered_source == state.rendered_source
            &&& next.starving_for == state.starving_for
            &&& next.counters.splices == state.counters.splices
            &&& next.counters.would_block == state.counters.would_block
            &&& next.counters.hard_recoveries == state.counters.hard_recoveries
            &&& next.counters.reopen_attempts == state.counters.reopen_attempts
            &&& next.counters.reopen_failures == state.counters.reopen_failures
            &&& next.counters.silence_frames == state.counters.silence_frames
        }),
{
}

/// Starting over forgets how long playback ran dry and that audio was played. What comes next is
/// faded in from the last sample if audio was played, and from silence if not; nothing is counted.
pub proof fn starting_over_fades_out_what_was_played<T: Copy>(state: RenderState<T>)
    ensures
        ({
            let after = state.cleared();
            &&& after.starving_for.nanos == 0
            &&& !after.rendered_source
            &&& after.source_was_silent
            &&& after.last_output == state.silence
            &&& state.rendered_source ==> after.source_ramp() == Some(state.last_output)
                && after.silence_ramp() == Some(state.last_output)
            &&& !state.rendered_source ==> after.source_ramp() == Some(state.silence)
                && after.silence_ramp() is None
            &&& after.counters == state.counters
            &&& after.silence == state.silence
            &&& after.in_flight == state.in_flight
            &&& after.consecutive_expiries == state.consecutive_expiries
            &&& after.completed_periods == state.completed_periods
            &&& after.seen_splice_serial == state.seen_splice_serial
            &&& after.seen_limits_serial == state.seen_limits_serial
            &&& after.underrun_recovery_started == state.underrun_recovery_started
            &&& after.saturation_reported == state.saturation_reported
        }),
{
}

/// Recovery from underruns is timed from the first of them, and the time does not begin anew before
/// a period was completed.
pub proof fn underruns_are_timed_from_the_first<T: Copy>(
    state: RenderState<T>,
    first: Instant,
    later: Instant,
)
    requires
        state.underrun_recovery_started is None,
    ensures
        state.recovering_since(first) == first,
        (RenderState {
            underrun_recovery_started: Some(state.recovering_since(first)),
            ..state
        }).recovering_since(later) == first,
{
}

} // verus!
