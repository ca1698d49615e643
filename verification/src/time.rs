//! Time as whole nanoseconds.
//!
//! Every rule of the library reads time through the two types of this module: a [`Duration`] is a
//! span, an [`Instant`] is a reading of a monotonic clock.

use vstd::prelude::*;

use crate::double::{
    closeness_is_halved, integers_are_held_closely, integers_are_near, is_close, is_rounded, one,
    over_is_bounded, plus_is_bounded, ratios_are_held_closely, rounded_is_close, rounded_times_fits,
    sums_are_held_closely, whole, whole_is_bounded, Binary, Double,
};

verus! {

/// Nanoseconds in one second.
pub const NANOS_PER_SEC: u128 = 1_000_000_000;

/// Nanoseconds in one millisecond.
pub const NANOS_PER_MILLI: u128 = 1_000_000;

/// Nanoseconds in one microsecond.
pub const NANOS_PER_MICRO: u128 = 1_000;

/// The integer nearest to `numerator / denominator`; of two equally near ones, the even one.
pub open spec fn round_half_even(numerator: nat, denominator: nat) -> nat
    recommends
        denominator > 0,
{
    let quotient = numerator / denominator;
    let twice_rest = 2 * (numerator % denominator);
    if twice_rest < denominator || (twice_rest == denominator && quotient % 2 == 0) {
        quotient
    } else {
        quotient + 1
    }
}

/// Rounding never moves a ratio by more than half a unit, and by half a unit only to an even number.
pub proof fn rounding_stays_within_half_a_unit(numerator: nat, denominator: nat)
    requires
        denominator > 0,
    ensures
        2 * (round_half_even(numerator, denominator) * denominator - numerator) <= denominator,
        2 * (numerator - round_half_even(numerator, denominator) * denominator) <= denominator,
        2 * (round_half_even(numerator, denominator) * denominator - numerator) == denominator ==>
            round_half_even(numerator, denominator) % 2 == 0,
        2 * (numerator - round_half_even(numerator, denominator) * denominator) == denominator ==>
            round_half_even(numerator, denominator) % 2 == 0,
{
    let quotient = numerator / denominator;
    vstd::arithmetic::div_mod::lemma_fundamental_div_mod(numerator as int, denominator as int);
    assert((quotient + 1) * denominator == quotient * denominator + denominator)
        by (nonlinear_arith);
    assert(denominator * quotient == quotient * denominator) by (nonlinear_arith);
}

/// The ratio of two integers, rounded as [`round_half_even`] says.
pub fn rounded_ratio(numerator: u128, denominator: u128) -> (rounded: u128)
    requires
        denominator > 0,
        numerator < u128::MAX,
    ensures
        rounded == round_half_even(numerator as nat, denominator as nat),
{
    let quotient: u128 = numerator / denominator;
    let rest: u128 = numerator % denominator;
    // `rest < denominator - rest` is `2 * rest < denominator` without the overflow.
    let missing: u128 = denominator - rest;
    proof {
        vstd::arithmetic::div_mod::lemma_div_is_ordered_by_denominator(
            numerator as int,
            1,
            denominator as int,
        );
    }
    if rest < missing || (rest == missing && quotient % 2 == 0) {
        quotient
    } else {
        quotient + 1
    }
}

/// A span of time.
#[derive(Clone, Copy, Debug, PartialEq, Eq, PartialOrd, Ord, Structural)]
pub struct Duration {
    pub nanos: u128,
}

/// The span of that many seconds, to the nearest nanosecond.
pub open spec fn seconds_nanos(seconds: Binary) -> nat {
    seconds.rounded_times(NANOS_PER_SEC as nat)
}

/// A span in seconds of double precision: its whole seconds and what is left, added up.
pub open spec fn seconds_of(nanos: nat) -> Binary {
    whole(nanos / NANOS_PER_SEC as nat).plus(
        whole(nanos % NANOS_PER_SEC as nat).over(NANOS_PER_SEC as nat),
    )
}

/// The span that `frames` audio frames last at `rate` frames per second: their number over the rate
/// in double precision, to the nearest nanosecond.
pub open spec fn frames_nanos(frames: nat, rate: nat) -> nat {
    seconds_nanos(whole(frames).over(rate))
}

/// A span in seconds is not large.
pub proof fn seconds_are_bounded(nanos: u128)
    ensures
        seconds_of(nanos as nat).canonical(),
        seconds_of(nanos as nat).place <= 49,
{
    let secs = nanos as nat / NANOS_PER_SEC as nat;
    let rest = nanos as nat % NANOS_PER_SEC as nat;
    vstd::arithmetic::power2::lemma2_to64();
    vstd::arithmetic::power2::lemma2_to64_rest();
    whole_is_bounded(secs, 46);
    whole_is_bounded(rest, 0);
    over_is_bounded(whole(rest), NANOS_PER_SEC as nat);
    plus_is_bounded(whole(secs), whole(rest).over(NANOS_PER_SEC as nat), 47);
}

impl Duration {
    pub fn zero() -> (span: Self)
        ensures
            span.nanos == 0,
    {
        Duration { nanos: 0 }
    }

    pub fn from_nanos(nanos: u128) -> (span: Self)
        ensures
            span.nanos == nanos,
    {
        Duration { nanos }
    }

    pub fn from_millis(millis: u64) -> (span: Self)
        ensures
            span.nanos == millis * NANOS_PER_MILLI,
    {
        Duration { nanos: millis as u128 * NANOS_PER_MILLI }
    }

    pub fn from_secs(secs: u64) -> (span: Self)
        ensures
            span.nanos == secs * NANOS_PER_SEC,
    {
        Duration { nanos: secs as u128 * NANOS_PER_SEC }
    }

    /// How long `frames` frames last at `rate` frames per second.
    pub fn from_frames(frames: usize, rate: u32) -> (span: Self)
        requires
            rate > 0,
        ensures
            span.nanos == frames_nanos(frames as nat, rate as nat),
    {
        let count = Double::whole(frames as u128);
        proof {
            vstd::arithmetic::power2::lemma2_to64();
            whole_is_bounded(frames as nat, 11);
            over_is_bounded(count@, rate as nat);
        }
        Duration::from_seconds(count.over(rate as u64))
    }

    /// The span of that many seconds, to the nearest nanosecond.
    pub fn from_seconds(seconds: Double) -> (span: Self)
        requires
            seconds.wf(),
            seconds.place <= 40,
        ensures
            span.nanos == seconds_nanos(seconds@),
    {
        proof {
            if seconds.place >= 0 {
                vstd::arithmetic::power2::lemma2_to64();
                rounded_times_fits(seconds@, NANOS_PER_SEC as nat, 40, 30);
            }
        }
        Duration { nanos: seconds.rounded_times(1_000_000_000) }
    }

    /// The span in seconds.
    pub fn as_seconds(&self) -> (seconds: Double)
        ensures
            seconds.moderate(),
            seconds@ == seconds_of(self.nanos as nat),
            -429 <= seconds.place <= 49,
    {
        proof {
            seconds_are_bounded(self.nanos);
        }
        let rest = Double::whole(self.nanos % NANOS_PER_SEC).over(1_000_000_000);
        Double::whole(self.nanos / NANOS_PER_SEC).plus(rest)
    }

    pub fn as_nanos(&self) -> (nanos: u128)
        ensures
            nanos == self.nanos,
    {
        self.nanos
    }

    /// Whole microseconds, cut off.
    pub fn as_micros(&self) -> (micros: u128)
        ensures
            micros == self.nanos / NANOS_PER_MICRO,
    {
        self.nanos / NANOS_PER_MICRO
    }

    /// Whole milliseconds, cut off.
    pub fn as_millis(&self) -> (millis: u128)
        ensures
            millis == self.nanos / NANOS_PER_MILLI,
    {
        self.nanos / NANOS_PER_MILLI
    }

    pub fn is_zero(&self) -> (zero: bool)
        ensures
            zero == (self.nanos == 0),
    {
        self.nanos == 0
    }

    pub fn plus(&self, other: Duration) -> (sum: Self)
        requires
            self.nanos + other.nanos <= u128::MAX,
        ensures
            sum.nanos == self.nanos + other.nanos,
    {
        Duration { nanos: self.nanos + other.nanos }
    }

    pub fn saturating_sub(&self, other: Duration) -> (rest: Self)
        ensures
            rest.nanos == if self.nanos > other.nanos {
                self.nanos - other.nanos
            } else {
                0
            },
    {
        if self.nanos > other.nanos {
            Duration { nanos: self.nanos - other.nanos }
        } else {
            Duration { nanos: 0 }
        }
    }

    pub fn abs_diff(&self, other: Duration) -> (difference: Self)
        ensures
            difference.nanos == if self.nanos > other.nanos {
                self.nanos - other.nanos
            } else {
                other.nanos - self.nanos
            },
    {
        if self.nanos > other.nanos {
            Duration { nanos: self.nanos - other.nanos }
        } else {
            Duration { nanos: other.nanos - self.nanos }
        }
    }

    /// The shorter of two spans.
    pub fn at_most(&self, other: Duration) -> (shorter: Self)
        ensures
            shorter.nanos == if self.nanos <= other.nanos {
                self.nanos
            } else {
                other.nanos
            },
    {
        if self.nanos <= other.nanos {
            *self
        } else {
            other
        }
    }
}

/// A reading of a monotonic clock: the span since the clock's origin.
#[derive(Clone, Copy, Debug, PartialEq, Eq, PartialOrd, Ord, Structural)]
pub struct Instant {
    pub nanos: u128,
}

impl Instant {
    /// The reading `span` after the clock's origin.
    pub fn at(span: Duration) -> (instant: Self)
        ensures
            instant.nanos == span.nanos,
    {
        Instant { nanos: span.nanos }
    }

    pub fn after(&self, span: Duration) -> (later: Self)
        requires
            self.nanos + span.nanos <= u128::MAX,
        ensures
            later.nanos == self.nanos + span.nanos,
    {
        Instant { nanos: self.nanos + span.nanos }
    }

    /// The span from `earlier` to this reading; nothing when `earlier` is in fact later.
    pub fn checked_duration_since(&self, earlier: Instant) -> (span: Option<Duration>)
        ensures
            span == if self.nanos >= earlier.nanos {
                Some(Duration { nanos: (self.nanos - earlier.nanos) as u128 })
            } else {
                None
            },
    {
        if self.nanos >= earlier.nanos {
            Some(Duration { nanos: self.nanos - earlier.nanos })
        } else {
            None
        }
    }

    /// The span from `earlier` to this reading, zero when `earlier` is in fact later.
    pub fn saturating_duration_since(&self, earlier: Instant) -> (span: Duration)
        ensures
            span.nanos == if self.nanos >= earlier.nanos {
                self.nanos - earlier.nanos
            } else {
                0
            },
    {
        if self.nanos >= earlier.nanos {
            Duration { nanos: self.nanos - earlier.nanos }
        } else {
            Duration { nanos: 0 }
        }
    }
}

/// A span in seconds is its nanoseconds over a thousand million, to one part in `2^44`.
pub proof fn seconds_are_nanoseconds_over_a_billion(nanos: nat)
    ensures
        seconds_of(nanos).canonical(),
        seconds_of(nanos).place >= -100,
        is_close(seconds_of(nanos).fine(), 1_000_000_000, nanos * one(), 0x1000_0000_0000),
{
    let billion: nat = 1_000_000_000;
    let secs = nanos / NANOS_PER_SEC as nat;
    let rest = nanos % NANOS_PER_SEC as nat;
    vstd::arithmetic::power2::lemma2_to64();
    integers_are_held_closely(secs);
    integers_are_held_closely(rest);
    let major = whole(secs);
    let minor = whole(rest);
    let part = minor.over(billion);
    assert(minor.digits * 1 == minor.digits && minor.fine() * 1 == minor.fine());
    ratios_are_held_closely(minor, 1, billion, 30);
    rounded_is_close(minor.fine(), 1, rest * one(), 0x4000_0000_0000);
    closeness_is_halved(
        minor.fine(),
        1,
        rest * one(),
        0x2000_0000_0000,
        part.fine(),
        1,
        billion,
    );
    assert(1 * billion == billion && rest * one() * 1 == rest * one());
    rounded_is_close(major.fine(), 1, secs * one(), 0x2000_0000_0000);
    sums_are_held_closely(major, part);
    let both = major.fine() + part.fine();
    let unit = one();
    assert(both * billion == major.fine() * billion + part.fine() * billion) by (nonlinear_arith)
        requires
            both == major.fine() + part.fine(),
    ;
    assert(nanos * unit == secs * unit * billion + rest * unit) by (nonlinear_arith)
        requires
            nanos == secs * billion + rest,
    ;
    assert(is_close(both, billion, nanos * unit, 0x2000_0000_0000));
    assert(both * 1 == both);
    closeness_is_halved(
        both,
        billion,
        nanos * unit,
        0x1000_0000_0000,
        seconds_of(nanos).fine(),
        1,
        1,
    );
    assert(billion * 1 == billion && nanos * unit * 1 == nanos * unit);
}

/// A count over a rate, in seconds, to one part in `2^45`.
pub proof fn counts_over_rates_are_close(count: nat, rate: nat)
    requires
        0 < rate <= u32::MAX,
    ensures
        whole(count).over(rate).canonical(),
        whole(count).over(rate).place >= -100,
        is_close(whole(count).over(rate).fine(), rate, count * one(), 0x2000_0000_0000),
{
    vstd::arithmetic::power2::lemma2_to64();
    integers_are_held_closely(count);
    let number = whole(count);
    assert(number.digits * 1 == number.digits && number.fine() * 1 == number.fine());
    ratios_are_held_closely(number, 1, rate, 32);
    rounded_is_close(number.fine(), 1, count * one(), 0x4000_0000_0000);
    closeness_is_halved(
        number.fine(),
        1,
        count * one(),
        0x2000_0000_0000,
        number.over(rate).fine(),
        1,
        rate,
    );
    assert(1 * rate == rate && count * one() * 1 == count * one());
}

/// The nearest integer to a close number is close to what that number stands for: the error is one,
/// and one part in so many.
pub proof fn rounding_a_close_number(
    number: Binary,
    factor: nat,
    denominator: nat,
    exact: nat,
    parts: nat,
)
    requires
        number.place >= -1100,
        is_close(number.fine(), denominator, exact * one(), parts),
    ensures
        parts * (number.rounded_times(factor) * denominator - exact * factor) <= parts * denominator
            + exact * factor,
        parts * (exact * factor - number.rounded_times(factor) * denominator) <= parts * denominator
            + exact * factor,
{
    integers_are_near(number, factor);
    let rounded = number.rounded_times(factor);
    let value = number.fine();
    let unit = one();
    vstd::arithmetic::power2::lemma_pow2_pos(1100);
    let error = rounded * denominator - exact * factor;
    let first = rounded * unit - value * factor;
    let second = value * denominator - exact * unit;
    assert(unit * error == denominator * first + factor * second) by (nonlinear_arith)
        requires
            error == rounded * denominator - exact * factor,
            first == rounded * unit - value * factor,
            second == value * denominator - exact * unit,
    ;
    let bound = parts * denominator + exact * factor;
    let near = parts * (denominator * first);
    let off = factor * (parts * second);
    let widest = parts * (denominator * unit);
    let furthest = factor * (exact * unit);
    assert(-widest <= near <= widest) by (nonlinear_arith)
        requires
            near == parts * (denominator * first),
            widest == parts * (denominator * unit),
            -unit <= first <= unit,
    {
        assert(denominator * first <= denominator * unit);
        assert(-(denominator * unit) <= denominator * first);
    }
    assert(-furthest <= off <= furthest) by (nonlinear_arith)
        requires
            off == factor * (parts * second),
            furthest == factor * (exact * unit),
            parts * second <= exact * unit,
            parts * (-second) <= exact * unit,
    ;
    assert(unit * (parts * error) == near + off) by (nonlinear_arith)
        requires
            unit * error == denominator * first + factor * second,
            near == parts * (denominator * first),
            off == factor * (parts * second),
    {
        assert(parts * (unit * error) == parts * (denominator * first) + parts * (factor * second));
    }
    assert(unit * bound == widest + furthest) by (nonlinear_arith)
        requires
            bound == parts * denominator + exact * factor,
            widest == parts * (denominator * unit),
            furthest == factor * (exact * unit),
    ;
    assert(unit * (parts * (-error)) == -(unit * (parts * error))) by (nonlinear_arith);
    assert(parts * error <= bound && parts * (-error) <= bound) by (nonlinear_arith)
        requires
            unit * (parts * error) <= unit * bound,
            unit * (parts * (-error)) <= unit * bound,
            unit > 0,
    ;
    assert(-error == exact * factor - rounded * denominator);
}

/// Frames last their number over the rate: in nanoseconds, times the rate, that is a thousand million
/// for each frame, but for one nanosecond and one part in `2^45`.
pub proof fn frames_last_their_number_over_the_rate(frames: nat, rate: nat)
    requires
        0 < rate <= u32::MAX,
    ensures
        0x2000_0000_0000 * (frames_nanos(frames, rate) * rate - frames * 1_000_000_000)
            <= 0x2000_0000_0000 * rate + frames * 1_000_000_000,
        0x2000_0000_0000 * (frames * 1_000_000_000 - frames_nanos(frames, rate) * rate)
            <= 0x2000_0000_0000 * rate + frames * 1_000_000_000,
{
    counts_over_rates_are_close(frames, rate);
    rounding_a_close_number(
        whole(frames).over(rate),
        NANOS_PER_SEC as nat,
        rate,
        frames,
        0x2000_0000_0000,
    );
}

/// A span in milliseconds, to one part in `2^43`.
pub proof fn milliseconds_are_close(nanos: nat)
    ensures
        seconds_of(nanos).times(1000).canonical(),
        seconds_of(nanos).times(1000).place >= -100,
        is_close(
            seconds_of(nanos).times(1000).fine(),
            1_000_000_000,
            nanos * 1000 * one(),
            0x800_0000_0000,
        ),
{
    let seconds = seconds_of(nanos);
    let millis = seconds.times(1000);
    vstd::arithmetic::power2::lemma2_to64();
    seconds_are_nanoseconds_over_a_billion(nanos);
    ratios_are_held_closely(seconds, 1000, 1, 0);
    closeness_is_halved(
        seconds.fine(),
        1_000_000_000,
        nanos * one(),
        0x800_0000_0000,
        millis.fine(),
        1000,
        1,
    );
    let unit = one();
    assert(nanos * unit * 1000 == nanos * 1000 * unit) by (nonlinear_arith);
}

/// A second is a thousand milliseconds, and a million microseconds, of a thousand nanoseconds each.
pub proof fn units_of_time_nest(seconds: nat)
    ensures
        seconds * NANOS_PER_SEC == seconds * 1000 * NANOS_PER_MILLI,
        seconds * NANOS_PER_SEC == seconds * 1_000_000 * NANOS_PER_MICRO,
        seconds * NANOS_PER_MICRO == seconds * 1000,
{
}

} // verus!
