//! The audio that the receiving side and the rendering side share.

use vstd::prelude::*;

use crate::error::ConfigurationError;
use crate::jitter::{
    aged_by_periods, aged_frames_are_a_prefix, in_arrival_order, is_aged, loses_to_age,
    lost_its_front, newest, no_aged_frame_survives, samples_of, stamped, without_aged,
    EvictionStats, JitterBuffer, TakenAudio,
};
use crate::policy::{frames_ceil, BufferLimits, RenderPolicy, REFUSED_LIMITS};
use crate::sink::SinkParameters;
use crate::time::{Duration, Instant, NANOS_PER_MILLI};

verus! {

/// How many whole periods a span holds, as far as 64 bits go. A period of no length never ends.
pub open spec fn period_count(elapsed: nat, period: nat) -> u64 {
    if period == 0 {
        0
    } else if elapsed / period <= u64::MAX {
        (elapsed / period) as u64
    } else {
        u64::MAX
    }
}

/// Time, counted in whole periods.
pub fn period_index(elapsed: Duration, period: Duration) -> (index: u64)
    ensures
        index == period_count(elapsed.nanos as nat, period.nanos as nat),
{
    if period.is_zero() {
        return 0;
    }
    let periods: u128 = elapsed.as_nanos() / period.as_nanos();
    if periods <= u64::MAX as u128 {
        periods as u64
    } else {
        u64::MAX
    }
}

/// The count never goes back as time goes on.
pub proof fn period_count_is_monotonic(earlier: nat, later: nat, period: nat)
    requires
        earlier <= later,
    ensures
        period_count(earlier, period) <= period_count(later, period),
{
    if period > 0 {
        vstd::arithmetic::div_mod::lemma_div_is_ordered(
            earlier as int,
            later as int,
            period as int,
        );
    }
}

/// Each period that passes adds one.
pub proof fn period_count_is_quantized(elapsed: nat, period: nat)
    requires
        period > 0,
        elapsed / period < u64::MAX,
    ensures
        period_count(elapsed, period) * period <= elapsed < (period_count(elapsed, period) + 1)
            * period,
        period_count(elapsed + period, period) == period_count(elapsed, period) + 1,
{
    vstd::arithmetic::div_mod::lemma_fundamental_div_mod(elapsed as int, period as int);
    vstd::arithmetic::div_mod::lemma_div_plus_one(elapsed as int, period as int);
    let count = elapsed / period;
    assert((count + 1) * period == count * period + period) by (nonlinear_arith);
    assert(period * count == count * period) by (nonlinear_arith);
}

/// The jitter buffer and all that both sides have to agree on.
#[derive(Debug)]
pub struct SharedAudio<T> {
    pub buffer: JitterBuffer<T>,
    pub limits: BufferLimits,
    pub source_rate: u32,
    pub largest_packet_frames: usize,
    pub period: Duration,
    /// When index zero began.
    pub age_epoch: Instant,
    /// Whether enough was buffered to start playing.
    pub started: bool,
    /// Changes whenever the buffered audio was cut.
    pub splice_serial: u64,
    /// Changes whenever the limits did.
    pub limits_serial: u64,
}

/// What the renderer sees of the shared audio at the start of a period.
#[derive(Clone, Copy, Debug, PartialEq, Eq, Structural)]
pub struct PeriodSnapshot {
    pub occupancy: usize,
    pub limits: BufferLimits,
    pub splice_serial: u64,
    pub limits_serial: u64,
    pub started: bool,
    pub just_started: bool,
}

/// The serial after one more event.
pub open spec fn next_serial(serial: u64) -> u64 {
    if serial == u64::MAX {
        0
    } else {
        (serial + 1) as u64
    }
}

impl<T: Copy> SharedAudio<T> {
    pub open spec fn wf(self) -> bool {
        self.buffer.wf()
    }

    /// The period index at a point in time.
    pub open spec fn index_at(self, now: Instant) -> u64 {
        let elapsed = if now.nanos >= self.age_epoch.nanos {
            now.nanos - self.age_epoch.nanos
        } else {
            0
        };
        period_count(elapsed as nat, self.period.nanos as nat)
    }

    /// The buffered frames that are not aged at a point in time.
    pub open spec fn fresh_at(self, now: Instant) -> Seq<(T, u64)> {
        without_aged(self.buffer@, self.index_at(now), self.buffer.maximum_age())
    }

    /// All buffered audio was forgotten at `now`: playback has to start again, which is a cut.
    pub open spec fn is_cleared_from(self, before: Self, now: Instant) -> bool {
        &&& self.buffer@ == Seq::<(T, u64)>::empty()
        &&& self.buffer.maximum() == before.buffer.maximum()
        &&& self.buffer.maximum_age() == before.buffer.maximum_age()
        &&& self.buffer.stats() == before.buffer.stats()
        &&& self == (SharedAudio {
            buffer: self.buffer,
            started: false,
            splice_serial: next_serial(before.splice_serial),
            age_epoch: now,
            ..before
        })
    }

    /// The limits and the period were replaced at `now`, and all buffered audio was forgotten:
    /// what the new limits leave no room for counts as discarded.
    pub open spec fn is_reconfigured_from(
        self,
        before: Self,
        limits: BufferLimits,
        period: Duration,
        now: Instant,
    ) -> bool {
        let index = (SharedAudio { period, ..before }).index_at(now);
        let fresh = without_aged(before.buffer@, index, limits.maximum_age_periods);
        let kept = newest(fresh, limits.maximum_frames as nat);
        &&& self.buffer@ == Seq::<(T, u64)>::empty()
        &&& self.buffer.maximum() == limits.maximum_frames
        &&& self.buffer.maximum_age() == limits.maximum_age_periods
        &&& self.buffer.stats().age_frames == before.buffer.stats().age_frames
            + before.buffer@.len() - fresh.len()
        &&& self.buffer.stats().capacity_frames == before.buffer.stats().capacity_frames
            + fresh.len() - kept.len()
        &&& self == (SharedAudio {
            buffer: self.buffer,
            limits,
            period,
            limits_serial: next_serial(before.limits_serial),
            started: false,
            splice_serial: next_serial(before.splice_serial),
            age_epoch: now,
            ..before
        })
    }

    /// Nothing came in yet, and time is counted from `now`.
    pub open spec fn is_new(
        self,
        source_rate: u32,
        first_packet_frames: usize,
        now: Instant,
    ) -> bool {
        &&& self.wf()
        &&& self.buffer@ == Seq::<(T, u64)>::empty()
        &&& self.buffer.maximum() == self.limits.maximum_frames
        &&& self.buffer.maximum_age() == self.limits.maximum_age_periods
        &&& self.buffer.stats() == (EvictionStats { capacity_frames: 0, age_frames: 0 })
        &&& self.source_rate == source_rate
        &&& self.largest_packet_frames == first_packet_frames
        &&& self.age_epoch == now
        &&& !self.started
        &&& self.splice_serial == 0
        &&& self.limits_serial == 0
    }

    /// An empty buffer, playback not started, the index counted from `now`.
    pub fn new(
        limits: BufferLimits,
        source_rate: u32,
        first_packet_frames: usize,
        period: Duration,
        now: Instant,
    ) -> (shared: Self)
        ensures
            shared.is_new(source_rate, first_packet_frames, now),
            shared.limits == limits,
            shared.period == period,
    {
        SharedAudio {
            buffer: JitterBuffer::new(limits.maximum_frames, limits.maximum_age_periods),
            limits,
            source_rate,
            largest_packet_frames: first_packet_frames,
            period,
            age_epoch: now,
            started: false,
            splice_serial: 0,
            limits_serial: 0,
        }
    }

    /// The audio shared with a renderer that starts at `now`, before any device was opened: the
    /// period is the one that will be asked for, in whole frames.
    pub fn start(
        policy: &RenderPolicy,
        source_rate: u32,
        first_packet_frames: usize,
        requested_period: Duration,
        now: Instant,
    ) -> (started: Result<(SinkParameters, Self), ConfigurationError>)
        ensures
            match started {
                Ok((parameters, shared)) => {
                    let period = Duration { nanos: parameters.period_nanos() as u128 };
                    &&& parameters.rate == source_rate
                    &&& parameters.period_frames == frames_ceil(
                        requested_period.nanos as nat,
                        source_rate as nat,
                    )
                    &&& parameters.buffer_frames == frames_ceil(
                        (policy.alsa_buffer_ms * NANOS_PER_MILLI) as nat,
                        source_rate as nat,
                    )
                    &&& policy.admits(source_rate, first_packet_frames, period)
                    &&& policy.are_limits(
                        shared.limits,
                        source_rate,
                        first_packet_frames,
                        period,
                    )
                    &&& shared.period == period
                    &&& shared.is_new(source_rate, first_packet_frames, now)
                },
                Err(error) => {
                    &&& error@ == REFUSED_LIMITS@
                    &&& !policy.admits_start(source_rate, first_packet_frames, requested_period)
                },
            },
            started is Ok ==> policy.admits_start(
                source_rate,
                first_packet_frames,
                requested_period,
            ),
    {
        if source_rate == 0 {
            return Err(ConfigurationError::new(REFUSED_LIMITS));
        }
        match policy.requested_parameters(source_rate, requested_period) {
            None => Err(ConfigurationError::new(REFUSED_LIMITS)),
            Some(parameters) => {
                let period: Duration = parameters.period();
                match policy.derive_limits(source_rate, first_packet_frames, period) {
                    Err(error) => Err(error),
                    Ok(limits) => {
                        let shared = SharedAudio::new(
                            limits,
                            source_rate,
                            first_packet_frames,
                            period,
                            now,
                        );
                        Ok((parameters, shared))
                    },
                }
            },
        }
    }

    /// The period index at a point in time.
    pub fn current_index(&self, now: Instant) -> (index: u64)
        ensures
            index == self.index_at(now),
    {
        period_index(now.saturating_duration_since(self.age_epoch), self.period)
    }

    /// Marks a cut if frames were discarded since `before`.
    pub fn refresh_splice_serial(&mut self, before: EvictionStats)
        ensures
            *final(self) == (SharedAudio {
                splice_serial: if old(self).buffer.stats() != before {
                    next_serial(old(self).splice_serial)
                } else {
                    old(self).splice_serial
                },
                ..*old(self)
            }),
    {
        if self.buffer.eviction_stats() != before {
            self.splice_serial = self.splice_serial.wrapping_add(1);
        }
    }

    /// Forgets the buffered audio and starts over at `now`.
    pub fn clear_and_reanchor(&mut self, now: Instant)
        requires
            old(self).wf(),
        ensures
            final(self).wf(),
            final(self).is_cleared_from(*old(self), now),
    {
        self.buffer.clear();
        self.started = false;
        self.splice_serial = self.splice_serial.wrapping_add(1);
        self.age_epoch = now;
    }

    /// Whether a packet is larger than any before, so that new limits have to be derived for it.
    pub fn outgrows(&self, packet_frames: usize) -> (larger: bool)
        ensures
            larger == (packet_frames > self.largest_packet_frames),
    {
        packet_frames > self.largest_packet_frames
    }

    /// Takes on limits derived for a larger packet. If what is buffered no longer reaches the
    /// target, playback has to start again.
    pub fn widen(&mut self, limits: BufferLimits, packet_frames: usize, now: Instant)
        requires
            old(self).wf(),
        ensures
            final(self).wf(),
            final(self).buffer.maximum() == limits.maximum_frames,
            final(self).buffer.maximum_age() == limits.maximum_age_periods,
            ({
                let index = old(self).index_at(now);
                let fresh = without_aged(old(self).buffer@, index, limits.maximum_age_periods);
                &&& final(self).buffer@ == newest(fresh, limits.maximum_frames as nat)
                &&& final(self).buffer.stats().age_frames == old(self).buffer.stats().age_frames
                    + old(self).buffer@.len() - fresh.len()
                &&& final(self).buffer.stats().capacity_frames == old(
                    self,
                ).buffer.stats().capacity_frames + fresh.len() - final(self).buffer@.len()
            }),
            final(self).buffer.accounted() == old(self).buffer.accounted(),
            final(self).buffer@.len() <= old(self).buffer@.len(),
            *final(self) == (SharedAudio {
                buffer: final(self).buffer,
                limits,
                largest_packet_frames: packet_frames,
                limits_serial: next_serial(old(self).limits_serial),
                started: old(self).started && final(self).buffer@.len() >= limits.target_frames,
                ..*old(self)
            }),
    {
        proof {
            aged_frames_are_a_prefix(
                self.buffer@,
                self.index_at(now),
                limits.maximum_age_periods,
            );
        }
        let index: u64 = self.current_index(now);
        self.buffer.update_limits(limits.maximum_frames, limits.maximum_age_periods, index);
        self.limits = limits;
        self.largest_packet_frames = packet_frames;
        self.limits_serial = self.limits_serial.wrapping_add(1);
        if self.buffer.occupancy() < limits.target_frames {
            self.started = false;
        }
    }

    /// Lets a packet in; frames that it pushes out make a cut.
    pub fn push_packet(&mut self, samples: Vec<T>, now: Instant)
        requires
            old(self).wf(),
            old(self).buffer@.len() + samples@.len() <= usize::MAX,
            old(self).buffer.accounted() + samples@.len() <= u64::MAX,
        ensures
            final(self).wf(),
            final(self).buffer.maximum() == old(self).buffer.maximum(),
            final(self).buffer.maximum_age() == old(self).buffer.maximum_age(),
            ({
                let fresh = old(self).fresh_at(now);
                let all = fresh + stamped(samples@, old(self).index_at(now));
                let aged = old(self).buffer@.len() - fresh.len();
                let surplus = all.len() - final(self).buffer@.len();
                &&& final(self).buffer@ == newest(all, old(self).buffer.maximum() as nat)
                &&& final(self).buffer.stats().age_frames == old(self).buffer.stats().age_frames
                    + aged
                &&& final(self).buffer.stats().capacity_frames == old(
                    self,
                ).buffer.stats().capacity_frames + surplus
                &&& *final(self) == (SharedAudio {
                    buffer: final(self).buffer,
                    splice_serial: if aged > 0 || surplus > 0 {
                        next_serial(old(self).splice_serial)
                    } else {
                        old(self).splice_serial
                    },
                    ..*old(self)
                })
            }),
    {
        proof {
            aged_frames_are_a_prefix(
                self.buffer@,
                self.index_at(now),
                self.buffer.maximum_age(),
            );
        }
        let index: u64 = self.current_index(now);
        let before = self.buffer.eviction_stats();
        self.buffer.insert(samples, index);
        self.refresh_splice_serial(before);
    }

    /// What is not too old for the limits derived for a packet, if it is the largest so far.
    pub open spec fn fresh_for_packet(self, widened: Option<BufferLimits>, now: Instant) -> Seq<
        (T, u64),
    > {
        match widened {
            Some(limits) => without_aged(
                self.buffer@,
                self.index_at(now),
                limits.maximum_age_periods,
            ),
            None => self.buffer@,
        }
    }

    /// What a packet finds in the buffer: what was there, cut down to the limits derived for the
    /// packet if it is the largest so far.
    pub open spec fn met_by_packet(self, widened: Option<BufferLimits>, now: Instant) -> Seq<
        (T, u64),
    > {
        match widened {
            Some(limits) => newest(
                self.fresh_for_packet(widened, now),
                limits.maximum_frames as nat,
            ),
            None => self.buffer@,
        }
    }

    /// A packet was let in; `widened` are the limits derived for it, if it outgrew all before.
    pub open spec fn admitted_from(
        self,
        before: Self,
        samples: Seq<T>,
        widened: Option<BufferLimits>,
        now: Instant,
    ) -> bool {
        let met = before.met_by_packet(widened, now);
        let index = before.index_at(now);
        let fresh = without_aged(met, index, self.buffer.maximum_age());
        let all = fresh + stamped(samples, index);
        let stats = before.buffer.stats();
        // What the new limits find too old, and what they have no room for.
        let unaged = before.fresh_for_packet(widened, now).len();
        let aged_by_limits = before.buffer@.len() - unaged;
        let cut_by_limits = unaged - met.len();
        &&& self.buffer.maximum() == match widened {
            Some(limits) => limits.maximum_frames,
            None => before.buffer.maximum(),
        }
        &&& self.buffer.maximum_age() == match widened {
            Some(limits) => limits.maximum_age_periods,
            None => before.buffer.maximum_age(),
        }
        &&& self.buffer.accounted() == before.buffer.accounted() + samples.len()
        &&& self.buffer@ == newest(all, self.buffer.maximum() as nat)
        &&& self.buffer.stats().age_frames == stats.age_frames + aged_by_limits + met.len()
            - fresh.len()
        &&& self.buffer.stats().capacity_frames == stats.capacity_frames + cut_by_limits
            + all.len() - self.buffer@.len()
        &&& self == (SharedAudio {
            buffer: self.buffer,
            limits: match widened {
                Some(limits) => limits,
                None => before.limits,
            },
            largest_packet_frames: if widened is Some {
                samples.len() as usize
            } else {
                before.largest_packet_frames
            },
            limits_serial: if widened is Some {
                next_serial(before.limits_serial)
            } else {
                before.limits_serial
            },
            started: before.started && match widened {
                Some(limits) => met.len() >= limits.target_frames,
                None => true,
            },
            splice_serial: if fresh.len() < met.len() || self.buffer@.len() < all.len() {
                next_serial(before.splice_serial)
            } else {
                before.splice_serial
            },
            ..before
        })
    }

    /// Lets a packet in. `widened` are the limits derived for it if it outgrows all before; they
    /// are taken on first.
    pub fn insert(&mut self, samples: Vec<T>, widened: Option<BufferLimits>, now: Instant)
        requires
            old(self).wf(),
            widened is Some <==> samples@.len() > old(self).largest_packet_frames,
            old(self).buffer@.len() + samples@.len() <= usize::MAX,
            old(self).buffer.accounted() + samples@.len() <= u64::MAX,
        ensures
            final(self).wf(),
            final(self).admitted_from(*old(self), samples@, widened, now),
    {
        let packet_frames: usize = samples.len();
        match widened {
            Some(limits) => {
                self.widen(limits, packet_frames, now);
            },
            None => {},
        }
        self.push_packet(samples, now);
    }

    /// Lets a packet in under a policy: if it outgrows all before, limits are derived for it first,
    /// and it is refused, with nothing changed, if there are none.
    pub fn admit_packet(&mut self, policy: &RenderPolicy, samples: Vec<T>, now: Instant) -> (admitted:
        Result<(), ConfigurationError>)
        requires
            old(self).wf(),
            old(self).buffer@.len() + samples@.len() <= usize::MAX,
            old(self).buffer.accounted() + samples@.len() <= u64::MAX,
        ensures
            final(self).wf(),
            admitted is Ok <==> (samples@.len() <= old(self).largest_packet_frames
                || policy.admits(
                old(self).source_rate,
                samples@.len() as usize,
                old(self).period,
            )),
            match admitted {
                Ok(()) => {
                    let widened = if samples@.len() > old(self).largest_packet_frames {
                        Some(final(self).limits)
                    } else {
                        None
                    };
                    &&& final(self).admitted_from(*old(self), samples@, widened, now)
                    &&& widened is Some ==> policy.are_limits(
                        final(self).limits,
                        old(self).source_rate,
                        samples@.len() as usize,
                        old(self).period,
                    )
                },
                Err(error) => error@ == REFUSED_LIMITS@ && *final(self) == *old(self),
            },
    {
        let mut widened: Option<BufferLimits> = None;
        if self.outgrows(samples.len()) {
            match policy.derive_limits(self.source_rate, samples.len(), self.period) {
                Err(error) => {
                    return Err(error);
                },
                Ok(limits) => {
                    widened = Some(limits);
                },
            }
        }
        self.insert(samples, widened, now);
        Ok(())
    }

    /// A period began at `now`: aged frames were discarded, which is a cut, and playback started if
    /// the target was reached.
    pub open spec fn began_from(self, before: Self, now: Instant) -> bool {
        let fresh = before.fresh_at(now);
        let aged = before.buffer@.len() - fresh.len();
        &&& self.buffer.maximum() == before.buffer.maximum()
        &&& self.buffer.maximum_age() == before.buffer.maximum_age()
        &&& self.buffer@ == fresh
        &&& self.buffer.stats() == (EvictionStats {
            age_frames: (before.buffer.stats().age_frames + aged) as u64,
            ..before.buffer.stats()
        })
        &&& self == (SharedAudio {
            buffer: self.buffer,
            splice_serial: if aged > 0 {
                next_serial(before.splice_serial)
            } else {
                before.splice_serial
            },
            started: before.started || fresh.len() >= before.limits.target_frames,
            ..before
        })
    }

    /// What the renderer sees, when playback was or was not started before.
    pub open spec fn snapshot(self, was_started: bool) -> PeriodSnapshot {
        PeriodSnapshot {
            occupancy: self.buffer@.len() as usize,
            limits: self.limits,
            splice_serial: self.splice_serial,
            limits_serial: self.limits_serial,
            started: self.started,
            just_started: self.started && !was_started,
        }
    }

    /// The oldest `frames` frames were handed out at `now`, all of them or none; aged frames were
    /// discarded before, which is a cut.
    pub open spec fn took_from(
        self,
        before: Self,
        frames: usize,
        now: Instant,
        taken: Option<TakenAudio<T>>,
    ) -> bool {
        let fresh = before.fresh_at(now);
        let aged = before.buffer@.len() - fresh.len();
        &&& self.buffer.maximum() == before.buffer.maximum()
        &&& self.buffer.maximum_age() == before.buffer.maximum_age()
        &&& self.buffer.stats() == (EvictionStats {
            age_frames: (before.buffer.stats().age_frames + aged) as u64,
            ..before.buffer.stats()
        })
        &&& taken is Some <==> 0 < frames <= fresh.len()
        &&& match taken {
            Some(audio) => {
                &&& audio.samples@ == samples_of(fresh.take(frames as int))
                &&& audio.oldest_insertion_index == fresh[0].1
                &&& self.buffer@ == fresh.skip(frames as int)
            },
            None => self.buffer@ == fresh,
        }
        &&& self == (SharedAudio {
            buffer: self.buffer,
            splice_serial: if aged > 0 {
                next_serial(before.splice_serial)
            } else {
                before.splice_serial
            },
            ..before
        })
    }

    /// What the renderer needs to know at the start of a period. Aged frames are discarded first;
    /// playback starts as soon as the target is reached.
    pub fn begin_period(&mut self, now: Instant) -> (snapshot: PeriodSnapshot)
        requires
            old(self).wf(),
        ensures
            final(self).wf(),
            final(self).began_from(*old(self), now),
            snapshot == final(self).snapshot(old(self).started),
            snapshot.occupancy == final(self).buffer@.len(),
    {
        proof {
            aged_frames_are_a_prefix(
                self.buffer@,
                self.index_at(now),
                self.buffer.maximum_age(),
            );
        }
        let index: u64 = self.current_index(now);
        let before = self.buffer.eviction_stats();
        let _ = self.buffer.take(0, index);
        self.refresh_splice_serial(before);
        let occupancy: usize = self.buffer.occupancy();
        let just_started: bool = !self.started && occupancy >= self.limits.target_frames;
        if just_started {
            self.started = true;
        }
        PeriodSnapshot {
            occupancy,
            limits: self.limits,
            splice_serial: self.splice_serial,
            limits_serial: self.limits_serial,
            started: self.started,
            just_started,
        }
    }

    /// Hands out the oldest `frames` frames, or none when there are fewer; aged frames that are
    /// discarded on the way make a cut.
    pub fn take_frames(&mut self, frames: usize, now: Instant) -> (taken: Option<TakenAudio<T>>)
        requires
            old(self).wf(),
        ensures
            final(self).wf(),
            final(self).took_from(*old(self), frames, now, taken),
    {
        proof {
            aged_frames_are_a_prefix(
                self.buffer@,
                self.index_at(now),
                self.buffer.maximum_age(),
            );
        }
        let index: u64 = self.current_index(now);
        let before = self.buffer.eviction_stats();
        let taken = self.buffer.take(frames, index);
        self.refresh_splice_serial(before);
        taken
    }

    /// Takes on the limits and the period of a device that was opened anew, and starts over.
    pub fn reconfigure(&mut self, limits: BufferLimits, period: Duration, now: Instant)
        requires
            old(self).wf(),
        ensures
            final(self).wf(),
            final(self).is_reconfigured_from(*old(self), limits, period, now),
    {
        self.period = period;
        self.limits = limits;
        self.limits_serial = self.limits_serial.wrapping_add(1);
        let index: u64 = self.current_index(now);
        self.buffer.update_limits(limits.maximum_frames, limits.maximum_age_periods, index);
        self.clear_and_reanchor(now);
    }
}

/// Audio that is not aged was let in less than the admitted number of periods ago, counting the
/// running one: this bounds how late any audio can be handed to the device.
pub proof fn audio_is_submitted_in_time<T: Copy>(
    shared: SharedAudio<T>,
    inserted: Instant,
    taken: Instant,
    maximum_age_periods: u64,
)
    requires
        shared.period.nanos > 0,
        shared.age_epoch.nanos <= inserted.nanos <= taken.nanos,
        shared.index_at(taken) < u64::MAX,
        !is_aged(shared.index_at(inserted), shared.index_at(taken), maximum_age_periods),
    ensures
        taken.nanos - inserted.nanos < shared.period.nanos * (maximum_age_periods + 1),
{
    let period = shared.period.nanos as nat;
    let first = (inserted.nanos - shared.age_epoch.nanos) as nat;
    let last = (taken.nanos - shared.age_epoch.nanos) as nat;
    period_count_is_monotonic(first, last, period);
    period_count_is_quantized(first, period);
    period_count_is_quantized(last, period);
    let from = period_count(first, period);
    let to = period_count(last, period);
    assert((to + 1) * period - from * period <= period * (maximum_age_periods + 1))
        by (nonlinear_arith)
        requires
            to - from <= maximum_age_periods,
    ;
}

/// A cut never goes unnoticed by someone who saw the serial before it.
pub proof fn a_cut_changes_the_serial(serial: u64)
    ensures
        next_serial(serial) != serial,
{
}

/// Time is counted in whole periods from the moment that it is counted from: the index is the number
/// of periods that have passed in full. Before that moment, or without a period, it is zero.
pub proof fn the_index_counts_the_periods_that_passed<T: Copy>(shared: SharedAudio<T>, now: Instant)
    requires
        shared.index_at(now) < u64::MAX,
    ensures
        shared.period.nanos > 0 && now.nanos >= shared.age_epoch.nanos ==> shared.index_at(now)
            * shared.period.nanos <= now.nanos - shared.age_epoch.nanos < (shared.index_at(now) + 1)
            * shared.period.nanos,
        now.nanos < shared.age_epoch.nanos ==> shared.index_at(now) == 0,
        shared.period.nanos == 0 ==> shared.index_at(now) == 0,
{
    let period = shared.period.nanos as nat;
    if period > 0 {
        if now.nanos >= shared.age_epoch.nanos {
            period_count_is_quantized((now.nanos - shared.age_epoch.nanos) as nat, period);
        } else {
            vstd::arithmetic::div_mod::lemma_basic_div(0, period as int);
        }
    }
}

/// A period begins with all audio that is not too old: only frames at the front that came in more
/// than the maximum age before are gone, which makes a cut if there were any. Playback starts when
/// the target is there, and does not stop again.
pub proof fn a_period_begins_with_all_fresh_audio<T: Copy>(
    before: SharedAudio<T>,
    after: SharedAudio<T>,
    now: Instant,
)
    requires
        before.wf(),
        after.wf(),
        after.began_from(before, now),
    ensures
        ({
            let aged = after.buffer.stats().age_frames - before.buffer.stats().age_frames;
            &&& loses_to_age(
                before.buffer@,
                aged,
                before.index_at(now),
                before.buffer.maximum_age(),
            )
            &&& lost_its_front(before.buffer@, aged, after.buffer@)
            &&& after.buffer.stats().capacity_frames == before.buffer.stats().capacity_frames
            &&& after.started <==> before.started || after.buffer@.len()
                >= before.limits.target_frames
            &&& after.splice_serial != before.splice_serial <==> aged > 0
            &&& after.limits == before.limits
            &&& after.limits_serial == before.limits_serial
            &&& after.age_epoch == before.age_epoch
            &&& after.period == before.period
            &&& after.largest_packet_frames == before.largest_packet_frames
            &&& after.source_rate == before.source_rate
            &&& after.buffer.maximum() == before.buffer.maximum()
            &&& after.buffer.maximum_age() == before.buffer.maximum_age()
        }),
{
    before.buffer.bounded();
    aged_by_periods(before.buffer@, before.index_at(now), before.buffer.maximum_age());
}

/// What the renderer takes is the oldest audio that is not too old, in its order, as much as was
/// asked for or nothing; the rest stays. Only frames that are too old are lost, which makes a cut.
pub proof fn the_renderer_takes_the_oldest_fresh_audio<T: Copy>(
    before: SharedAudio<T>,
    after: SharedAudio<T>,
    frames: usize,
    now: Instant,
    taken: Option<TakenAudio<T>>,
)
    requires
        before.wf(),
        after.wf(),
        after.took_from(before, frames, now, taken),
    ensures
        ({
            let aged = after.buffer.stats().age_frames - before.buffer.stats().age_frames;
            let held = before.buffer@.len() - aged;
            &&& loses_to_age(
                before.buffer@,
                aged,
                before.index_at(now),
                before.buffer.maximum_age(),
            )
            &&& match taken {
                Some(audio) => {
                    &&& 0 < frames <= held
                    &&& audio.samples@.len() == frames
                    &&& forall|i: int|
                        0 <= i < frames ==> #[trigger] audio.samples@[i] == before.buffer@[aged
                            + i].0
                    &&& audio.oldest_insertion_index == before.buffer@[aged].1
                    &&& lost_its_front(before.buffer@, aged + frames, after.buffer@)
                },
                None => {
                    &&& frames == 0 || frames > held
                    &&& lost_its_front(before.buffer@, aged, after.buffer@)
                },
            }
            &&& after.splice_serial != before.splice_serial <==> aged > 0
            &&& after.started == before.started
            &&& after.limits == before.limits
            &&& after.limits_serial == before.limits_serial
            &&& after.age_epoch == before.age_epoch
            &&& after.period == before.period
            &&& after.largest_packet_frames == before.largest_packet_frames
            &&& after.source_rate == before.source_rate
            &&& after.buffer.stats().capacity_frames == before.buffer.stats().capacity_frames
            &&& after.buffer.maximum() == before.buffer.maximum()
            &&& after.buffer.maximum_age() == before.buffer.maximum_age()
        }),
{
    before.buffer.bounded();
    let index = before.index_at(now);
    aged_by_periods(before.buffer@, index, before.buffer.maximum_age());
    let fresh = before.fresh_at(now);
    let aged = before.buffer@.len() - fresh.len();
    if let Some(audio) = taken {
        assert forall|i: int| 0 <= i < frames implies #[trigger] audio.samples@[i]
            == before.buffer@[aged + i].0 by {
            assert(fresh[i] == before.buffer@[aged + i]);
        }
        assert(fresh[0] == before.buffer@[aged]);
        assert forall|i: int| 0 <= i < after.buffer@.len() implies #[trigger] after.buffer@[i]
            == before.buffer@[aged + frames + i] by {
            assert(fresh[frames + i] == before.buffer@[aged + (frames + i)]);
        }
    }
}

/// A packet is let in behind the audio that is not too old, under the limits in force, or under those
/// derived for it if it is the largest so far: frames leave for their age only if they are older than
/// those limits say, and for want of room only as far as those limits have none, the oldest first.
/// Whatever stays keeps its order, and every sample of the packet carries the index of now.
pub proof fn a_packet_is_let_in_behind_all_fresh_audio<T: Copy>(
    before: SharedAudio<T>,
    after: SharedAudio<T>,
    samples: Seq<T>,
    widened: Option<BufferLimits>,
    now: Instant,
)
    requires
        before.wf(),
        in_arrival_order(before.buffer@),
        after.admitted_from(before, samples, widened, now),
    ensures
        ({
            let index = before.index_at(now);
            let maximum = match widened {
                Some(limits) => limits.maximum_frames,
                None => before.buffer.maximum(),
            };
            let maximum_age = match widened {
                Some(limits) => limits.maximum_age_periods,
                None => before.buffer.maximum_age(),
            };
            let aged = after.buffer.stats().age_frames - before.buffer.stats().age_frames;
            let surplus = after.buffer.stats().capacity_frames
                - before.buffer.stats().capacity_frames;
            let had = before.buffer@.len();
            let held = had - aged + samples.len();
            &&& loses_to_age(before.buffer@, aged, index, maximum_age)
            &&& surplus == if held > maximum {
                held - maximum
            } else {
                0
            }
            &&& after.buffer@.len() == held - surplus
            &&& forall|i: int|
                aged + surplus <= i < had ==> after.buffer@[i - aged - surplus]
                    == #[trigger] before.buffer@[i]
            &&& forall|i: int|
                0 <= i < samples.len() && aged + surplus <= had + i ==> after.buffer@[had + i - aged
                    - surplus] == (#[trigger] samples[i], index)
            &&& after.buffer.maximum() == maximum
            &&& after.buffer.maximum_age() == maximum_age
            &&& after.limits == match widened {
                Some(limits) => limits,
                None => before.limits,
            }
            &&& after.limits_serial != before.limits_serial <==> widened is Some
            &&& widened is None ==> (after.splice_serial != before.splice_serial <==> aged + surplus
                > 0)
            &&& widened is None ==> after.started == before.started
            &&& after.started ==> before.started
            &&& after.age_epoch == before.age_epoch
            &&& after.period == before.period
            &&& after.source_rate == before.source_rate
        }),
{
    let index = before.index_at(now);
    let stats = before.buffer.stats();
    let maximum = after.buffer.maximum() as nat;
    let age = after.buffer.maximum_age();
    let all_fresh = without_aged(before.buffer@, index, age);
    let met = before.met_by_packet(widened, now);
    let fresh = without_aged(met, index, age);
    let all = fresh + stamped(samples, index);
    aged_by_periods(before.buffer@, index, age);
    no_aged_frame_survives(before.buffer@, index, age);
    if widened is Some {
        if met.len() > 0 {
            let dropped = all_fresh.len() - met.len();
            assert(met[0] == all_fresh[dropped]);
        }
        assert(fresh == met);
    }
    let aged = before.buffer@.len() - all_fresh.len();
    let had = before.buffer@.len();
    let gone = all_fresh.len() - fresh.len();
    let surplus = gone + all.len() - after.buffer@.len();
    assert(after.buffer.stats().age_frames - stats.age_frames == aged);
    assert(after.buffer.stats().capacity_frames - stats.capacity_frames == surplus);
    assert forall|i: int| aged + surplus <= i < had implies after.buffer@[i - aged - surplus]
        == #[trigger] before.buffer@[i] by {
        assert(all_fresh[i - aged] == before.buffer@[i]);
        assert(fresh[i - aged - gone] == all_fresh[i - aged]);
        assert(all[i - aged - gone] == fresh[i - aged - gone]);
        assert(after.buffer@[i - aged - surplus] == all[i - aged - gone]);
    }
    assert forall|i: int|
        0 <= i < samples.len() && aged + surplus <= had + i implies after.buffer@[had + i - aged
        - surplus] == (#[trigger] samples[i], index) by {
        assert(all[fresh.len() + i] == (samples[i], index));
        assert(after.buffer@[fresh.len() + i - (surplus - gone)] == all[fresh.len() + i]);
    }
}

/// A larger packet ends playback only if what it finds in the buffer, under the limits derived for
/// it, does not reach the new target; and from then on it is the largest.
pub proof fn a_larger_packet_may_need_a_new_start<T: Copy>(
    before: SharedAudio<T>,
    after: SharedAudio<T>,
    samples: Seq<T>,
    limits: BufferLimits,
    now: Instant,
)
    requires
        in_arrival_order(before.buffer@),
        samples.len() <= usize::MAX,
        after.admitted_from(before, samples, Some(limits), now),
    ensures
        after.largest_packet_frames == samples.len(),
        ({
            let fresh = before.buffer@.len() - (after.buffer.stats().age_frames
                - before.buffer.stats().age_frames);
            after.started <==> before.started && fresh >= limits.target_frames
                && limits.maximum_frames >= limits.target_frames
        }),
{
    let index = before.index_at(now);
    let age = limits.maximum_age_periods;
    let all_fresh = without_aged(before.buffer@, index, age);
    let met = before.met_by_packet(Some(limits), now);
    no_aged_frame_survives(before.buffer@, index, age);
    if met.len() > 0 {
        let dropped = all_fresh.len() - met.len();
        assert(met[0] == all_fresh[dropped]);
    }
    assert(without_aged(met, index, age) == met);
}

/// What the renderer is shown is what there is, and that playback just started if and only if it had
/// not before.
pub proof fn snapshots_show_what_there_is<T: Copy>(shared: SharedAudio<T>, was_started: bool)
    requires
        shared.buffer@.len() <= usize::MAX,
    ensures
        shared.snapshot(was_started).occupancy == shared.buffer@.len(),
        shared.snapshot(was_started).limits == shared.limits,
        shared.snapshot(was_started).splice_serial == shared.splice_serial,
        shared.snapshot(was_started).limits_serial == shared.limits_serial,
        shared.snapshot(was_started).started == shared.started,
        shared.snapshot(was_started).just_started <==> shared.started && !was_started,
{
}

/// After the audio was cleared, for whatever reason, nothing is buffered, playback has to start
/// again, time is counted anew from that moment, and a cut is marked; a device that was taken on
/// brings its period and its limits, and nothing else changes.
pub proof fn clearing_starts_over<T: Copy>(
    before: SharedAudio<T>,
    after: SharedAudio<T>,
    limits: BufferLimits,
    period: Duration,
    now: Instant,
)
    requires
        after.is_cleared_from(before, now) || after.is_reconfigured_from(
            before,
            limits,
            period,
            now,
        ),
    ensures
        after.buffer@.len() == 0,
        !after.started,
        after.age_epoch == now,
        after.index_at(now) == 0,
        after.splice_serial != before.splice_serial,
        after.source_rate == before.source_rate,
        after.largest_packet_frames == before.largest_packet_frames,
        after.is_cleared_from(before, now) ==> {
            &&& after.period == before.period
            &&& after.limits == before.limits
            &&& after.limits_serial == before.limits_serial
            &&& after.buffer.maximum() == before.buffer.maximum()
            &&& after.buffer.maximum_age() == before.buffer.maximum_age()
            &&& after.buffer.stats() == before.buffer.stats()
        },
        after.is_reconfigured_from(before, limits, period, now) ==> {
            &&& after.period == period
            &&& after.limits == limits
            &&& after.limits_serial != before.limits_serial
            &&& after.buffer.maximum() == limits.maximum_frames
            &&& after.buffer.maximum_age() == limits.maximum_age_periods
        },
{
    if after.period.nanos > 0 {
        vstd::arithmetic::div_mod::lemma_basic_div(0, after.period.nanos as int);
    }
}

/// A start is a start of everything: no audio is buffered, discarded or fresh, no cut or change of
/// limits was made, and time is counted in whole periods from the moment of the start on.
pub proof fn a_start_counts_from_its_moment<T: Copy>(
    shared: SharedAudio<T>,
    source_rate: u32,
    first_packet_frames: usize,
    begun: Instant,
    now: Instant,
)
    requires
        shared.is_new(source_rate, first_packet_frames, begun),
        shared.period.nanos > 0,
        now.nanos >= begun.nanos,
        shared.index_at(now) < u64::MAX,
    ensures
        shared.index_at(now) * shared.period.nanos <= now.nanos - begun.nanos < (shared.index_at(now)
            + 1) * shared.period.nanos,
        shared.fresh_at(now).len() == 0,
        shared.buffer@.len() == 0,
        shared.buffer.stats().capacity_frames + shared.buffer.stats().age_frames == 0,
        shared.splice_serial + shared.limits_serial == 0,
        !shared.started,
{
    the_index_counts_the_periods_that_passed(shared, now);
    aged_frames_are_a_prefix(shared.buffer@, shared.index_at(now), shared.buffer.maximum_age());
}

} // verus!
