//! Measuring jitter: how much later than their own length packets arrive.

use vstd::multiset::Multiset;
use vstd::prelude::*;

use crate::decode::{aac_config, codec_accepts, opened_codec, AacConfigError, AacStreamDecoder};
use crate::double::{
    ceilings_are_the_least, ceilings_keep_order, closeness_is_halved, differences_are_held_closely,
    fractions_are_held_closely, integers_are_held_closely, integers_are_near, is_close, is_rounded, nearest,
    nearest_is_canonical, nearest_keeps_order, one, order_is_that_of_fine_units,
    products_are_held_closely, ratios_are_held_closely, ratios_keep_order, rounded_is_close, whole,
    whole_is_bounded, Binary, Double,
};
use crate::error::SessionError;
use crate::frame::Frame;
use crate::session::{codec_error_words, refusal_text, set_up_failure};
use crate::time::{
    milliseconds_are_close, rounding_a_close_number, seconds_are_nanoseconds_over_a_billion,
    seconds_nanos, seconds_of, Duration, Instant,
};

verus! {

/// No warm-up is longer than this, in seconds.
pub const MAX_WARMUP_SECS: u64 = 2;

/// The warm-up of a measurement, in nanoseconds.
pub open spec fn warmup_nanos(nanos: nat) -> nat {
    seconds_nanos(seconds_of(nanos).over(10).min(whole(MAX_WARMUP_SECS as nat)))
}

/// The time at the start of a measurement in which nothing is counted: a tenth of it, but not for
/// long.
pub fn measurement_warmup(duration: Duration) -> (warmup: Duration)
    ensures
        warmup.nanos == warmup_nanos(duration.nanos as nat),
{
    let most = Double::whole(MAX_WARMUP_SECS as u128);
    let warmup = duration.as_seconds().over(10).min(most);
    proof {
        vstd::arithmetic::power2::lemma2_to64();
        whole_is_bounded(MAX_WARMUP_SECS as nat, 0);
    }
    Duration::from_seconds(warmup)
}

/// The values are in order, the smallest first.
pub open spec fn is_sorted(values: Seq<Double>) -> bool {
    forall|i: int, j: int| 0 <= i <= j < values.len() ==> (#[trigger] values[i])@.at_most(
        (#[trigger] values[j])@,
    )
}

/// Where the percentile stands among `count` sorted values: at the nearest value from above.
pub open spec fn percentile_rank(count: nat, fraction: Binary) -> int {
    let last = count - 1;
    let rank = whole(last as nat).product(fraction).ceiling();
    if rank <= last {
        rank as int
    } else {
        last
    }
}

/// The value that this fraction of the sorted values does not exceed.
pub fn percentile<T: Copy>(sorted_values: &[T], fraction: Double) -> (value: T)
    requires
        sorted_values@.len() > 0,
        fraction.moderate(),
        -600 <= fraction.place <= 600,
    ensures
        0 <= percentile_rank(sorted_values@.len(), fraction@) < sorted_values@.len(),
        value == sorted_values@[percentile_rank(sorted_values@.len(), fraction@)],
{
    let last: usize = sorted_values.len() - 1;
    let rank: usize = Double::whole(last as u128).product(fraction).ceiling_within(last);
    sorted_values[rank]
}

/// A higher percentile stands no earlier.
pub proof fn percentiles_are_in_order(count: nat, lower: Binary, higher: Binary)
    requires
        count > 0,
        lower.canonical(),
        higher.canonical(),
        lower.at_most(higher),
    ensures
        0 <= percentile_rank(count, lower) <= percentile_rank(count, higher) < count,
{
    let last = whole((count - 1) as nat);
    nearest_is_canonical((count - 1) as nat, 1);
    nearest_is_canonical(last.digits * lower.digits, 1);
    nearest_is_canonical(last.digits * higher.digits, 1);
    assert(last.digits * lower.digits == lower.digits * last.digits) by (nonlinear_arith);
    assert(last.digits * higher.digits == higher.digits * last.digits) by (nonlinear_arith);
    ratios_keep_order(lower, higher, last.digits, 1);
    ceilings_keep_order(last.product(lower), last.product(higher));
}

/// How much later than its length a packet arrived, in milliseconds.
pub open spec fn positive_drift(arrival_nanos: nat, frames: nat, rate: nat) -> Binary {
    seconds_of(arrival_nanos).times(1000).minus(whole(frames).times(1000).over(rate))
}

/// The drift of a packet of `frames` frames that arrives at `now`, after one at `previous`.
pub open spec fn drift_between(
    previous: Instant,
    frames: usize,
    rate: u32,
    now: Instant,
) -> Binary {
    positive_drift(
        if now.nanos >= previous.nanos {
            (now.nanos - previous.nanos) as nat
        } else {
            0
        },
        frames as nat,
        rate as nat,
    )
}

/// A packet that was counted.
pub struct Arrival {
    pub frames: usize,
    pub rate: u32,
    pub at: Instant,
}

/// The drifts of packets that arrive one after the other: each but the first has one.
pub open spec fn drifts_of(arrivals: Seq<Arrival>) -> Multiset<Double>
    decreases arrivals.len(),
{
    if arrivals.len() <= 1 {
        Multiset::empty()
    } else {
        let before = arrivals.drop_last();
        let last = arrivals.last();
        drifts_of(before).insert(
            drift_between(before.last().at, last.frames, last.rate, last.at).held(),
        )
    }
}

/// What was measured so far.
#[derive(Debug)]
pub struct MeasureStats {
    frame_count: u64,
    prev_arrival: Option<Instant>,
    /// In order, the smallest first.
    positive_drift: Vec<Double>,
}

/// What a measurement came to; the drifts are in milliseconds.
#[derive(Clone, Copy, Debug, PartialEq, Eq, Structural)]
pub struct MeasureReport {
    pub total: Duration,
    pub warmup: Duration,
    pub measured: Duration,
    pub audio_packets: u64,
    pub p50: Double,
    pub p95: Double,
    pub p99: Double,
    pub p999: Double,
    pub maximum: Double,
}

impl Default for MeasureStats {
    fn default() -> (stats: Self)
        ensures
            stats.wf(),
            stats.packets() == 0,
            stats.previous() is None,
            stats.drifts() == Seq::<Double>::empty(),
    {
        MeasureStats { frame_count: 0, prev_arrival: None, positive_drift: Vec::new() }
    }
}

impl MeasureStats {
    /// How many packets were counted.
    pub closed spec fn packets(self) -> u64 {
        self.frame_count
    }

    /// When the last packet arrived.
    pub closed spec fn previous(self) -> Option<Instant> {
        self.prev_arrival
    }

    /// The drifts, the smallest first.
    pub closed spec fn drifts(self) -> Seq<Double> {
        self.positive_drift@
    }

    /// The drifts are in order, and every packet but the first has one.
    pub open spec fn wf(self) -> bool {
        &&& is_sorted(self.drifts())
        &&& if self.previous() is Some {
            self.drifts().len() + 1 == self.packets()
        } else {
            self.drifts().len() == 0 && self.packets() == 0
        }
    }

    /// A packet was counted.
    pub open spec fn recorded_from(
        self,
        before: Self,
        frames: usize,
        rate: u32,
        now: Instant,
    ) -> bool {
        &&& self.wf()
        &&& self.packets() == before.packets() + 1
        &&& self.previous() == Some(now)
        &&& self.drifts().to_multiset() == if before.previous() is Some {
            before.drifts().to_multiset().insert(before.drift_at(frames, rate, now).held())
        } else {
            before.drifts().to_multiset()
        }
    }

    /// The drift of a packet of `frames` frames that arrives at `now`.
    pub open spec fn drift_at(self, frames: usize, rate: u32, now: Instant) -> Binary {
        drift_between(self.previous()->0, frames, rate, now)
    }

    /// Counts a packet. Its drift is measured from the packet before it.
    pub fn record(&mut self, decoded_frames: usize, sample_rate: u32, now: Instant)
        requires
            old(self).wf(),
            old(self).packets() < u64::MAX,
            sample_rate > 0,
        ensures
            final(self).recorded_from(*old(self), decoded_frames, sample_rate, now),
            old(self).previous() is None ==> final(self).drifts() == old(self).drifts(),
    {
        self.frame_count = self.frame_count + 1;
        match self.prev_arrival {
            Some(previous) => {
                let arrival = now.saturating_duration_since(previous).as_seconds().times(1000);
                let frames = Double::whole(decoded_frames as u128);
                let decoded = frames.times(1000).over(sample_rate as u64);
                self.insert_sorted(arrival.minus(decoded));
            },
            None => {},
        }
        self.prev_arrival = Some(now);
    }

    fn insert_sorted(&mut self, drift: Double)
        requires
            is_sorted(old(self).drifts()),
        ensures
            is_sorted(final(self).drifts()),
            final(self).drifts().len() == old(self).drifts().len() + 1,
            final(self).packets() == old(self).packets(),
            final(self).previous() == old(self).previous(),
            final(self).drifts().to_multiset() == old(self).drifts().to_multiset().insert(drift),
    {
        let mut place: usize = self.positive_drift.len();
        while place > 0 && !self.positive_drift[place - 1].at_most(drift)
            invariant
                *self == *old(self),
                is_sorted(self.drifts()),
                place <= self.positive_drift@.len(),
                forall|i: int|
                    place <= i < self.positive_drift@.len() ==> !(
                    #[trigger] self.positive_drift@[i])@.at_most(drift@),
            decreases place,
        {
            place = place - 1;
        }
        let ghost before = self.positive_drift@;
        self.positive_drift.insert(place, drift);
        proof {
            let after = self.positive_drift@;
            assert(after =~= before.insert(place as int, drift));
            assert forall|i: int, j: int| 0 <= i <= j < after.len() implies (#[trigger] after[i])@.at_most(
                (#[trigger] after[j])@,
            ) by {
                if i < place && place > 0 {
                    assert(before[i]@.at_most(before[place - 1]@));
                }
            }
            vstd::seq_lib::to_multiset_insert(before, place as int, drift);
        }
    }

    /// Sums the measurement up; without two packets there is nothing to sum up.
    pub fn report(&self, duration: Duration, warmup: Duration) -> (report: Result<
        MeasureReport,
        SessionError,
    >)
        requires
            self.wf(),
        ensures
            report is Ok <==> self.packets() >= 2,
            report is Ok <==> self.drifts().len() > 0,
            match report {
                Ok(report) => {
                    let count = self.drifts().len();
                    &&& report.total == duration
                    &&& report.warmup == warmup
                    &&& report.measured.nanos == if duration.nanos > warmup.nanos {
                        duration.nanos - warmup.nanos
                    } else {
                        0
                    }
                    &&& report.audio_packets == self.packets()
                    &&& report.p50 == self.drifts()[percentile_rank(count, nearest(50, 100))]
                    &&& report.p95 == self.drifts()[percentile_rank(count, nearest(95, 100))]
                    &&& report.p99 == self.drifts()[percentile_rank(count, nearest(99, 100))]
                    &&& report.p999 == self.drifts()[percentile_rank(count, nearest(999, 1000))]
                    &&& report.maximum == self.drifts().last()
                    &&& report.p50@.at_most(report.p95@)
                    &&& report.p95@.at_most(report.p99@)
                    &&& report.p99@.at_most(report.p999@)
                    &&& report.p999@.at_most(report.maximum@)
                    &&& self.drifts().contains(report.p50)
                    &&& self.drifts().contains(report.p95)
                    &&& self.drifts().contains(report.p99)
                    &&& self.drifts().contains(report.p999)
                    &&& self.drifts().contains(report.maximum)
                    &&& forall|i: int|
                        0 <= i < count ==> (#[trigger] self.drifts()[i])@.at_most(report.maximum@)
                },
                Err(error) => error is Lost && error.text()
                    == "Not enough audio packets received to measure jitter"@,
            },
    {
        if self.positive_drift.len() == 0 {
            return Err(
                SessionError::lost("Not enough audio packets received to measure jitter"),
            );
        }
        let values = self.positive_drift.as_slice();
        let p50 = Double::nearest_to(50, 100);
        let p95 = Double::nearest_to(95, 100);
        let p99 = Double::nearest_to(99, 100);
        let p999 = Double::nearest_to(999, 1000);
        proof {
            let count = self.drifts().len();
            nearest_keeps_order(50, 100, 95, 100);
            nearest_keeps_order(95, 100, 99, 100);
            nearest_keeps_order(99, 100, 999, 1000);
            percentiles_are_in_order(count, nearest(50, 100), nearest(95, 100));
            percentiles_are_in_order(count, nearest(95, 100), nearest(99, 100));
            percentiles_are_in_order(count, nearest(99, 100), nearest(999, 1000));
        }
        Ok(
            MeasureReport {
                total: duration,
                warmup,
                measured: duration.saturating_sub(warmup),
                audio_packets: self.frame_count,
                p50: percentile(values, p50),
                p95: percentile(values, p95),
                p99: percentile(values, p99),
                p999: percentile(values, p999),
                maximum: values[values.len() - 1],
            },
        )
    }
}

/// After any number of packets, all of them were counted, the drifts are exactly those between one
/// packet and the next, and there is something to report if and only if there were two packets.
pub proof fn reports_need_two_packets(states: Seq<MeasureStats>, arrivals: Seq<Arrival>)
    requires
        states.len() == arrivals.len() + 1,
        states[0].wf(),
        states[0].packets() == 0,
        forall|k: int|
            0 <= k < arrivals.len() ==> (#[trigger] states[k + 1]).recorded_from(
                states[k],
                arrivals[k].frames,
                arrivals[k].rate,
                arrivals[k].at,
            ),
    ensures
        states.last().wf(),
        states.last().packets() == arrivals.len(),
        states.last().drifts().to_multiset() == drifts_of(arrivals),
        states.last().drifts().len() > 0 <==> arrivals.len() >= 2,
        arrivals.len() > 0 ==> states.last().previous() == Some(arrivals.last().at),
        arrivals.len() > 0 ==> states.last().drifts().len() == arrivals.len() - 1,
    decreases arrivals.len(),
{
    broadcast use vstd::seq_lib::group_to_multiset_ensures;

    if arrivals.len() == 0 {
        assert(states.last().drifts() =~= Seq::empty());
        assert(states.last().drifts().to_multiset() =~= drifts_of(arrivals));
    } else {
        let before = arrivals.drop_last();
        let earlier = states.drop_last();
        assert forall|k: int| 0 <= k < before.len() implies (#[trigger] earlier[k
            + 1]).recorded_from(
            earlier[k],
            before[k].frames,
            before[k].rate,
            before[k].at,
        ) by {
            assert(states[k + 1] == earlier[k + 1]);
        }
        reports_need_two_packets(earlier, before);
        let k = arrivals.len() - 1;
        assert(states[k + 1].recorded_from(
            states[k],
            arrivals[k].frames,
            arrivals[k].rate,
            arrivals[k].at,
        ));
    }
}

/// What to do with a frame while measuring.
#[derive(Debug)]
pub enum MeasureStep {
    /// Set the codec up.
    Configure(Vec<u8>),
    /// Decode this.
    Decode { pts: u64, data: Vec<u8> },
    Fail(SessionError),
}

/// Takes in a frame while measuring. Audio cannot come before a configuration.
pub fn measure_step(frame: Frame, configured: bool) -> (step: MeasureStep)
    ensures
        match frame {
            Frame::Config(config) => step == MeasureStep::Configure(config),
            Frame::Audio { pts, data } => if configured {
                step == (MeasureStep::Decode { pts, data })
            } else {
                step matches MeasureStep::Fail(error) && error is Lost && error.text()
                    == "Got audio data before config"@
            },
        },
{
    match frame {
        Frame::Config(config) => MeasureStep::Configure(config),
        Frame::Audio { pts, data } => {
            if configured {
                MeasureStep::Decode { pts, data }
            } else {
                MeasureStep::Fail(SessionError::lost("Got audio data before config"))
            }
        },
    }
}

/// Sets a decoder up for a measurement, which ends where none can be set up.
pub fn measuring_decoder(config: &[u8]) -> (decoder: Result<AacStreamDecoder, SessionError>)
    ensures
        decoder is Ok <==> aac_config(config@) is Ok && codec_accepts(config@),
        match decoder {
            Ok(decoder) => {
                &&& decoder.decoding() == opened_codec(config@)->Ok_0
                &&& aac_config(config@) == Ok::<_, AacConfigError>(
                    (decoder.rate(), decoder.channel_total()),
                )
            },
            Err(error) => error is Lost && error.text() == match aac_config(config@) {
                Err(cause) => cause.text(),
                Ok(_) => refusal_text() + codec_error_words(opened_codec(config@)->Err_0),
            },
        },
{
    match AacStreamDecoder::new(config) {
        Ok(decoder) => Ok(decoder),
        Err(error) => Err(SessionError::Lost(set_up_failure(&error))),
    }
}

/// How long the next frame may take; nothing once the measurement is over.
pub fn remaining_time(deadline: Instant, now: Instant) -> (remaining: Option<Duration>)
    ensures
        remaining == if now.nanos < deadline.nanos {
            Some(Duration { nanos: (deadline.nanos - now.nanos) as u128 })
        } else {
            None
        },
{
    if now.nanos < deadline.nanos {
        Some(deadline.saturating_duration_since(now))
    } else {
        None
    }
}

/// Whether a decoded packet counts: it holds samples, and the warm-up is over.
pub fn packet_counts(samples: usize, now: Instant, measure_after: Instant) -> (counts: bool)
    ensures
        counts == (samples > 0 && now.nanos >= measure_after.nanos),
{
    samples > 0 && now.nanos >= measure_after.nanos
}

/// The warm-up is a tenth of the measurement, to the nanosecond, as long as that is no more than two
/// seconds, and two seconds from then on.
pub proof fn the_warm_up_is_a_tenth_or_two_seconds(nanos: nat)
    ensures
        nanos <= 20_000_000_000 ==> -11 <= 10 * warmup_nanos(nanos) - nanos <= 11,
        nanos > 20_000_000_000 ==> warmup_nanos(nanos) == 2_000_000_000,
{
    let seconds = seconds_of(nanos);
    let tenth = seconds.over(10);
    let most = whole(2);
    let unit = one();
    vstd::arithmetic::power2::lemma2_to64();
    vstd::arithmetic::power2::lemma_pow2_pos(1100);
    seconds_are_nanoseconds_over_a_billion(nanos);
    assert(seconds.digits * 1 == seconds.digits && seconds.fine() * 1 == seconds.fine());
    ratios_are_held_closely(seconds, 1, 10, 4);
    closeness_is_halved(
        seconds.fine(),
        1_000_000_000,
        nanos * unit,
        0x800_0000_0000,
        tenth.fine(),
        1,
        10,
    );
    assert(nanos * unit * 1 == nanos * unit);
    integers_are_held_closely(2);
    order_is_that_of_fine_units(tenth, most);
    let exact = nanos * unit;
    let value = tenth.fine();
    let cap = most.fine();
    assert(cap * 1 == cap);
    assert(0x10_0000_0000_0000 * (cap - 2 * unit) <= 2 * unit);
    assert(0x10_0000_0000_0000 * (2 * unit - cap) <= 2 * unit);
    integers_are_near(most, 1_000_000_000);
    let two = most.rounded_times(1_000_000_000);
    assert(two * unit < 2_000_000_001 * unit && two * unit > 1_999_999_999 * unit);
    assert(two == 2_000_000_000) by (nonlinear_arith)
        requires
            two * unit < 2_000_000_001 * unit,
            two * unit > 1_999_999_999 * unit,
            unit > 0,
    ;
    if nanos > 20_000_000_000 {
        assert(exact >= 20_000_000_001 * unit) by (nonlinear_arith)
            requires
                exact == nanos * unit,
                nanos >= 20_000_000_001,
        ;
        assert(value > cap);
    } else {
        rounding_a_close_number(tenth, 1_000_000_000, 10_000_000_000, nanos, 0x800_0000_0000);
        let rounded = tenth.rounded_times(1_000_000_000);
        if !tenth.at_most(most) {
            assert(value > cap);
            assert(exact <= 20_000_000_000 * unit) by (nonlinear_arith)
                requires
                    exact == nanos * unit,
                    nanos <= 20_000_000_000,
            ;
            if nanos < 20_000_000_000 - 1 {
                assert(exact <= 19_999_999_998 * unit) by (nonlinear_arith)
                    requires
                        exact == nanos * unit,
                        nanos <= 19_999_999_998,
                ;
                assert(false);
            }
        }
    }
}

/// The drift of a packet is how much later it came than the packet before it lasted, in milliseconds,
/// and nothing if it did not come later. With the time since the packet before it as `since`
/// nanoseconds, that is `since / 1000000 - frames * 1000 / rate`, to one part in `2^40` of either.
pub proof fn drift_is_lateness(since: nat, frames: nat, rate: nat)
    requires
        0 < rate <= u32::MAX,
    ensures
        ({
            let drift = positive_drift(since, frames, rate).fine() * 1_000_000_000 * rate;
            let came = since * 1000 * rate * one();
            let lasted = frames * 1000 * 1_000_000_000 * one();
            let late = if came > lasted {
                came - lasted
            } else {
                0
            };
            &&& 0x100_0000_0000 * (drift - late) <= came + lasted
            &&& 0x100_0000_0000 * (late - drift) <= came + lasted
        }),
{
    let unit = one();
    let billion: nat = 1_000_000_000;
    let arrival = seconds_of(since).times(1000);
    let count = whole(frames);
    let thousand = count.times(1000);
    let decoded = thousand.over(rate);
    vstd::arithmetic::power2::lemma2_to64();
    milliseconds_are_close(since);
    integers_are_held_closely(frames);
    ratios_are_held_closely(count, 1000, 1, 0);
    rounded_is_close(count.fine(), 1, frames * unit, 0x2000_0000_0000);
    closeness_is_halved(
        count.fine(),
        1,
        frames * unit,
        0x1000_0000_0000,
        thousand.fine(),
        1000,
        1,
    );
    assert(thousand.digits * 1 == thousand.digits && thousand.fine() * 1 == thousand.fine());
    ratios_are_held_closely(thousand, 1, rate, 32);
    closeness_is_halved(
        thousand.fine(),
        1,
        frames * unit * 1000,
        0x800_0000_0000,
        decoded.fine(),
        1,
        rate,
    );
    assert(1 * rate == rate);
    differences_are_held_closely(arrival, decoded);
    let drift = positive_drift(since, frames, rate).fine();
    let first = arrival.fine();
    let second = decoded.fine();
    let scale = billion * rate;
    let came = since * 1000 * rate * unit;
    let lasted = frames * 1000 * billion * unit;
    let early = since * 1000 * unit;
    let length = frames * unit * 1000;
    // Both sides on one scale.
    assert(0x800_0000_0000 * (first * scale - came) <= came && 0x800_0000_0000 * (came - first
        * scale) <= came) by (nonlinear_arith)
        requires
            0x800_0000_0000 * (first * billion - early) <= early,
            0x800_0000_0000 * (early - first * billion) <= early,
            scale == billion * rate,
            came == since * 1000 * rate * unit,
            early == since * 1000 * unit,
    {
        assert(came == early * rate);
        assert(first * scale == first * billion * rate);
        assert(0x800_0000_0000 * ((first * billion - early) * rate) <= early * rate);
        assert(0x800_0000_0000 * ((early - first * billion) * rate) <= early * rate);
        assert((first * billion - early) * rate == first * billion * rate - early * rate);
        assert((early - first * billion) * rate == early * rate - first * billion * rate);
    }
    assert(0x800_0000_0000 * (second * scale - lasted) <= lasted && 0x800_0000_0000 * (lasted
        - second * scale) <= lasted) by (nonlinear_arith)
        requires
            0x800_0000_0000 * (second * rate - length) <= length,
            0x800_0000_0000 * (length - second * rate) <= length,
            scale == billion * rate,
            lasted == frames * 1000 * billion * unit,
            length == frames * unit * 1000,
    {
        assert(lasted == length * billion);
        assert(second * scale == second * rate * billion);
        assert(0x800_0000_0000 * ((second * rate - length) * billion) <= length * billion);
        assert(0x800_0000_0000 * ((length - second * rate) * billion) <= length * billion);
        assert((second * rate - length) * billion == second * rate * billion - length * billion);
        assert((length - second * rate) * billion == length * billion - second * rate * billion);
    }
    let shown = drift * billion * rate;
    let a = first * scale;
    let b = second * scale;
    assert(shown == drift * scale) by (nonlinear_arith)
        requires
            shown == drift * billion * rate,
            scale == billion * rate,
    ;
    assert(drift * 1 == drift);
    if first > second {
        let gap = (first - second) as nat;
        assert(gap * scale == a - b) by (nonlinear_arith)
            requires
                gap == first - second,
                a == first * scale,
                b == second * scale,
        ;
        assert(0x10_0000_0000_0000 * (drift * scale - gap * scale) <= gap * scale
            && 0x10_0000_0000_0000 * (gap * scale - drift * scale) <= gap * scale)
            by (nonlinear_arith)
            requires
                0x10_0000_0000_0000 * (drift - gap) <= gap,
                0x10_0000_0000_0000 * (gap - drift) <= gap,
                scale >= 0,
        ;
    } else {
        assert(a <= b) by (nonlinear_arith)
            requires
                a == first * scale,
                b == second * scale,
                first <= second,
        ;
        assert(drift * scale == 0) by (nonlinear_arith)
            requires
                drift == 0,
        ;
    }
    assert(a >= 0 && b >= 0) by (nonlinear_arith)
        requires
            a == first * scale,
            b == second * scale,
    ;
}

/// The percentile of a fraction stands at the nearest value from above: the values before it are
/// fewer than the fraction says, and with it there are enough, counting from the first and leaving
/// the last one out, to one part in `2^40`; and it is one of the values.
pub proof fn percentiles_stand_at_their_fraction(count: nat, numerator: nat, denominator: nat)
    requires
        count > 0,
        0 < numerator <= denominator <= u32::MAX,
    ensures
        ({
            let rank = percentile_rank(count, nearest(numerator, denominator));
            let exact = (count - 1) * numerator;
            &&& 0 <= rank < count
            &&& 0x100_0000_0000 * (exact - rank * denominator) <= exact
            &&& rank > 0 ==> 0x100_0000_0000 * ((rank - 1) * denominator - exact) <= exact
        }),
{
    let last = (count - 1) as nat;
    let unit = one();
    vstd::arithmetic::power2::lemma2_to64();
    vstd::arithmetic::power2::lemma_pow2_pos(1100);
    let fraction = nearest(numerator, denominator);
    let total = whole(last);
    let product = total.product(fraction);
    let rank = product.ceiling();
    integers_are_held_closely(last);
    fractions_are_held_closely(numerator, denominator);
    products_are_held_closely(total, fraction);
    ceilings_are_the_least(product);
    assert(total.fine() * 1 == total.fine());
    ranks_are_close(total.fine(), last, fraction.fine(), numerator, denominator, product.fine());
    let exact = last * numerator;
    let value = product.fine() * denominator;
    assert(value <= rank * denominator * unit) by (nonlinear_arith)
        requires
            value == product.fine() * denominator,
            product.fine() <= rank * unit,
    ;
    assert(0x100_0000_0000 * (exact - rank * denominator) <= exact) by (nonlinear_arith)
        requires
            0x100_0000_0000 * (exact * unit - value) <= exact * unit,
            value <= rank * denominator * unit,
            unit > 0,
    ;
    if rank > 0 {
        let below = (rank - 1) as nat;
        assert(below * denominator * unit <= value) by (nonlinear_arith)
            requires
                value == product.fine() * denominator,
                below * unit < product.fine(),
        ;
        assert(0x100_0000_0000 * (below * denominator - exact) <= exact) by (nonlinear_arith)
            requires
                0x100_0000_0000 * (value - exact * unit) <= exact * unit,
                below * denominator * unit <= value,
                unit > 0,
        ;
    }
    if rank > last {
        assert(last * denominator >= exact) by (nonlinear_arith)
            requires
                exact == last * numerator,
                numerator <= denominator,
        ;
        if last > 0 {
            assert((last - 1) * denominator <= (rank - 1) * denominator) by (nonlinear_arith)
                requires
                    last <= rank,
                    denominator > 0,
            ;
        }
    }
}

proof fn ranks_are_close(
    total: nat,
    last: nat,
    fraction: nat,
    numerator: nat,
    denominator: nat,
    product: nat,
)
    requires
        is_rounded(total, 1, last * one()),
        is_rounded(fraction, denominator, numerator * one()),
        is_rounded(product, one(), total * fraction),
        denominator > 0,
    ensures
        0x100_0000_0000 * (product * denominator - last * numerator * one()) <= last * numerator
            * one(),
        0x100_0000_0000 * (last * numerator * one() - product * denominator) <= last * numerator
            * one(),
{
    let unit = one();
    vstd::arithmetic::power2::lemma_pow2_pos(1100);
    let left = last * unit;
    let right = fraction * denominator;
    let goal = numerator * unit;
    assert(total * 1 == total);
    // The product of the two close numbers.
    let both = total * right;
    let aim = left * goal;
    assert(0x10_0000_0000_0000 * ((total - left) * right) <= left * right && 0x10_0000_0000_0000 * ((
    left - total) * right) <= left * right) by (nonlinear_arith)
        requires
            0x10_0000_0000_0000 * (total - left) <= left,
            0x10_0000_0000_0000 * (left - total) <= left,
            right >= 0,
    ;
    assert(0x10_0000_0000_0000 * (left * (right - goal)) <= left * goal && 0x10_0000_0000_0000 * (left
        * (goal - right)) <= left * goal) by (nonlinear_arith)
        requires
            0x10_0000_0000_0000 * (right - goal) <= goal,
            0x10_0000_0000_0000 * (goal - right) <= goal,
            left >= 0,
    ;
    assert(left * right <= 2 * (left * goal)) by (nonlinear_arith)
        requires
            0 <= right <= 2 * goal,
            left >= 0,
    ;
    assert(both - aim == (total - left) * right + left * (right - goal)) by (nonlinear_arith)
        requires
            both == total * right,
            aim == left * goal,
    ;
    assert(aim - both == (left - total) * right + left * (goal - right)) by (nonlinear_arith)
        requires
            both == total * right,
            aim == left * goal,
    ;
    assert(0x1_0000_0000_0000 * (both - aim) <= aim && 0x1_0000_0000_0000 * (aim - both) <= aim);
    // Rounded once more.
    let raw = total * fraction;
    let scaled = product * unit;
    assert(both == raw * denominator) by (nonlinear_arith)
        requires
            both == total * (fraction * denominator),
            raw == total * fraction,
    ;
    assert(0x10_0000_0000_0000 * (scaled * denominator - both) <= both && 0x10_0000_0000_0000 * (both
        - scaled * denominator) <= both) by (nonlinear_arith)
        requires
            0x10_0000_0000_0000 * (scaled - raw) <= raw,
            0x10_0000_0000_0000 * (raw - scaled) <= raw,
            both == raw * denominator,
            denominator > 0,
    ;
    let shown = product * denominator;
    let exact = last * numerator * unit;
    assert(scaled * denominator == shown * unit) by (nonlinear_arith)
        requires
            scaled == product * unit,
            shown == product * denominator,
    ;
    assert(aim == exact * unit) by (nonlinear_arith)
        requires
            aim == (last * unit) * (numerator * unit),
            exact == last * numerator * unit,
    ;
    assert(0x100_0000_0000 * (shown * unit - exact * unit) <= exact * unit);
    assert(0x100_0000_0000 * (exact * unit - shown * unit) <= exact * unit);
    assert(0x100_0000_0000 * (shown - exact) <= exact) by (nonlinear_arith)
        requires
            0x100_0000_0000 * (shown * unit - exact * unit) <= exact * unit,
            unit > 0,
    ;
    assert(0x100_0000_0000 * (exact - shown) <= exact) by (nonlinear_arith)
        requires
            0x100_0000_0000 * (exact * unit - shown * unit) <= exact * unit,
            unit > 0,
    ;
}

/// Drift is measured over the time since the packet before: only the gap between the two arrivals
/// matters, not when they were, and a packet that is timed before the one before it came at once.
pub proof fn drift_is_measured_over_the_gap(
    previous: Instant,
    gap: nat,
    frames: usize,
    rate: u32,
    now: Instant,
)
    ensures
        now.nanos == previous.nanos + gap ==> drift_between(previous, frames, rate, now)
            == positive_drift(gap, frames as nat, rate as nat),
        now.nanos + gap == previous.nanos ==> drift_between(previous, frames, rate, now)
            == positive_drift(0, frames as nat, rate as nat),
{
}

} // verus!
