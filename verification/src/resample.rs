//! The rules that a resampler and its fill-level controller have to keep.
//!
//! The signal itself, and the controller's gains, are handled outside: what stands here is when a
//! resampler can be made and used, and how long the controller has been at its limit.

use vstd::prelude::*;

use crate::double::{is_close, is_rounded, one, sums_are_held_closely, zero, Binary, Double};
use crate::error::ConfigurationError;
use crate::text::{decimal, millis_text, push_decimal, push_millis};
use crate::time::{seconds_are_nanoseconds_over_a_billion, seconds_nanos, seconds_of, Duration};

verus! {

/// The longest output delay that is admitted, in nanoseconds: two frames at the lowest rate that a
/// stream can have.
pub const MAX_GROUP_DELAY_NANOS: u128 = 250_000;

/// Why a resampler cannot be made or used.
#[derive(Clone, Copy, Debug, PartialEq, Eq, Structural)]
pub enum ResampleError {
    SourceRate,
    OutputRate,
    OutputPeriod,
    InputLength { required: usize, given: usize },
    Unconsumed,
    OutputLength { written: usize, expected: usize },
}

impl ResampleError {
    pub open spec fn text(self) -> Seq<char> {
        match self {
            ResampleError::SourceRate => "source sample rate must be positive"@,
            ResampleError::OutputRate => "output sample rate must be positive"@,
            ResampleError::OutputPeriod => "output period must contain frames"@,
            ResampleError::InputLength { required, given } => "fixed-output resampler needs "@
                + decimal(required as nat) + " input frames, got "@ + decimal(given as nat),
            ResampleError::Unconsumed => "resampler left input unconsumed"@,
            ResampleError::OutputLength { written, expected } => "resampler wrote "@ + decimal(
                written as nat,
            ) + " frames instead of "@ + decimal(expected as nat),
        }
    }

    pub fn message(&self) -> (message: String)
        ensures
            message@ == self.text(),
    {
        match self {
            ResampleError::SourceRate => "source sample rate must be positive".to_owned(),
            ResampleError::OutputRate => "output sample rate must be positive".to_owned(),
            ResampleError::OutputPeriod => "output period must contain frames".to_owned(),
            ResampleError::InputLength { required, given } => {
                let mut text: String = "fixed-output resampler needs ".to_owned();
                push_decimal(&mut text, *required as u128);
                text.append(" input frames, got ");
                push_decimal(&mut text, *given as u128);
                text
            },
            ResampleError::Unconsumed => "resampler left input unconsumed".to_owned(),
            ResampleError::OutputLength { written, expected } => {
                let mut text: String = "resampler wrote ".to_owned();
                push_decimal(&mut text, *written as u128);
                text.append(" frames instead of ");
                push_decimal(&mut text, *expected as u128);
                text
            },
        }
    }
}

/// Whether a resampler can be made that hands out `output_frames` frames at a time.
pub fn check_rates(source_rate: u32, output_rate: u32, output_frames: usize) -> (verdict: Result<
    (),
    ResampleError,
>)
    ensures
        verdict == if source_rate == 0 {
            Err::<(), ResampleError>(ResampleError::SourceRate)
        } else if output_rate == 0 {
            Err(ResampleError::OutputRate)
        } else if output_frames == 0 {
            Err(ResampleError::OutputPeriod)
        } else {
            Ok(())
        },
{
    if source_rate == 0 {
        return Err(ResampleError::SourceRate);
    }
    if output_rate == 0 {
        return Err(ResampleError::OutputRate);
    }
    if output_frames == 0 {
        return Err(ResampleError::OutputPeriod);
    }
    Ok(())
}

/// Whether a resampler gets as much as it wants.
pub fn check_input(required: usize, given: usize) -> (verdict: Result<(), ResampleError>)
    ensures
        verdict == if given == required {
            Ok::<(), ResampleError>(())
        } else {
            Err(ResampleError::InputLength { required, given })
        },
{
    if given != required {
        return Err(ResampleError::InputLength { required, given });
    }
    Ok(())
}

/// Whether a resampler used all of its input and filled all of its output.
pub fn check_output(given: usize, consumed: usize, expected: usize, written: usize) -> (verdict:
    Result<(), ResampleError>)
    ensures
        verdict == if consumed != given {
            Err::<(), ResampleError>(ResampleError::Unconsumed)
        } else if written != expected {
            Err(ResampleError::OutputLength { written, expected })
        } else {
            Ok(())
        },
{
    if consumed != given {
        return Err(ResampleError::Unconsumed);
    }
    if written != expected {
        return Err(ResampleError::OutputLength { written, expected });
    }
    Ok(())
}

pub open spec fn group_delay_text(delay: Duration, limit: Duration) -> Seq<char> {
    "Rubato output delay "@ + millis_text(delay.nanos as nat) + " ms exceeds the measured "@
        + millis_text(limit.nanos as nat) + " ms provenance-free limit"@
}

/// Whether a resampler is quick enough.
pub fn check_group_delay(delay: Duration, limit: Duration) -> (verdict: Result<
    (),
    ConfigurationError,
>)
    ensures
        match verdict {
            Ok(()) => delay.nanos <= limit.nanos,
            Err(error) => delay.nanos > limit.nanos && error@ == group_delay_text(delay, limit),
        },
{
    if delay.nanos > limit.nanos {
        let mut text: String = "Rubato output delay ".to_owned();
        push_millis(&mut text, delay);
        text.append(" ms exceeds the measured ");
        push_millis(&mut text, limit);
        text.append(" ms provenance-free limit");
        return Err(ConfigurationError::new(text.as_str()));
    }
    Ok(())
}

/// Where a command lies, seen from the range that it may have.
#[derive(Clone, Copy, Debug, PartialEq, Eq, Structural)]
pub enum Side {
    Below,
    Within,
    Above,
}

/// The side that a command is on.
pub fn side_of(below: bool, above: bool) -> (side: Side)
    ensures
        side == if below {
            Side::Below
        } else if above {
            Side::Above
        } else {
            Side::Within
        },
{
    if below {
        Side::Below
    } else if above {
        Side::Above
    } else {
        Side::Within
    }
}

/// Whether the integral has to stand still: the command is at its limit, and the error would drive
/// it further. Too much in the buffer lowers the command, too little raises it.
pub fn freezes_integral(command: Side, error: Side) -> (freeze: bool)
    ensures
        freeze == ((command == Side::Below && error == Side::Above) || (command == Side::Above
            && error == Side::Below)),
{
    (command == Side::Below && error == Side::Above) || (command == Side::Above && error
        == Side::Below)
}

/// How long the command has been at one limit without a break.
#[derive(Clone, Copy, Debug, PartialEq, Eq, Structural)]
pub struct SaturationClock {
    pub side: Side,
    /// In seconds.
    pub held: Double,
}

/// That many seconds, added up one after the other.
pub open spec fn added_up(seconds: Binary, times: nat) -> Binary
    decreases times,
{
    if times == 0 {
        zero()
    } else {
        added_up(seconds, (times - 1) as nat).plus(seconds)
    }
}

impl SaturationClock {
    /// One more period has passed with the command on `side`.
    pub open spec fn noted_from(self, before: Self, side: Side, period: Duration) -> bool {
        &&& self.side == side
        &&& self.held@ == if side == Side::Within {
            zero()
        } else if side == before.side {
            before.held@.plus(seconds_of(period.nanos as nat))
        } else {
            seconds_of(period.nanos as nat)
        }
    }

    /// A clock at rest.
    pub fn new() -> (clock: Self)
        ensures
            clock.side == Side::Within,
            clock.held@ == zero(),
            clock.held.moderate(),
    {
        SaturationClock { side: Side::Within, held: Double { digits: 0, place: 0 } }
    }

    /// Takes in one more period.
    pub fn note(&mut self, side: Side, period: Duration)
        requires
            old(self).held.moderate(),
        ensures
            final(self).noted_from(*old(self), side, period),
            final(self).held.wf(),
    {
        let seconds = period.as_seconds();
        if side == Side::Within {
            self.held = Double { digits: 0, place: 0 };
        } else if side == self.side {
            self.held = self.held.plus(seconds);
        } else {
            self.held = seconds;
        }
        self.side = side;
    }

    /// The time on the clock.
    pub fn duration(&self) -> (duration: Duration)
        requires
            self.held.wf(),
            self.held.place <= 40,
        ensures
            duration.nanos == seconds_nanos(self.held@),
    {
        Duration::from_seconds(self.held)
    }
}

/// Only time at one limit without a break counts: a period within the range sets the clock back,
/// and from there, or from the other limit, each period at a limit is added once.
pub proof fn only_continuous_saturation_counts(
    clocks: Seq<SaturationClock>,
    side: Side,
    period: Duration,
)
    requires
        clocks.len() > 1,
        side == Side::Within || side != clocks[0].side,
        forall|k: int|
            0 <= k < clocks.len() - 1 ==> (#[trigger] clocks[k + 1]).noted_from(
                clocks[k],
                side,
                period,
            ),
    ensures
        clocks.last().side == side,
        clocks.last().held@ == if side == Side::Within {
            zero()
        } else {
            added_up(seconds_of(period.nanos as nat), (clocks.len() - 1) as nat)
        },
    decreases clocks.len(),
{
    let last = clocks.len() - 2;
    assert(clocks[last + 1].noted_from(clocks[last], side, period));
    if clocks.len() > 2 {
        let earlier = clocks.drop_last();
        assert forall|k: int| 0 <= k < earlier.len() - 1 implies (#[trigger] earlier[k
            + 1]).noted_from(earlier[k], side, period) by {
            assert(clocks[k + 1] == earlier[k + 1]);
        }
        only_continuous_saturation_counts(earlier, side, period);
    } else {
        reveal_with_fuel(added_up, 2);
    }
}

/// The longest output delay that is admitted is that of two frames at 8000 frames per second.
pub proof fn two_frames_of_delay_are_admitted()
    ensures
        MAX_GROUP_DELAY_NANOS * 8000 == 2 * 1_000_000_000,
{
}

/// One period at a limit adds its own length to the clock, and the first of a run starts it: whatever
/// was on the clock before, a period on the other side counts alone, and one within the range clears
/// it.
pub proof fn a_run_of_saturation_starts_with_its_first_period(
    before: SaturationClock,
    after: SaturationClock,
    side: Side,
    period: Duration,
)
    requires
        after.noted_from(before, side, period),
    ensures
        after.side == side,
        side == Side::Within ==> after.held@.digits == 0,
        side != Side::Within && side != before.side ==> is_close(
            after.held@.fine(),
            1_000_000_000,
            (period.nanos as nat) * one(),
            0x1000_0000_0000,
        ),
        side != Side::Within && side == before.side && before.held@.canonical() && before.held@.place
            >= -1000 ==> is_rounded(
            after.held@.fine(),
            1,
            before.held@.fine() + seconds_of(period.nanos as nat).fine(),
        ),
{
    seconds_are_nanoseconds_over_a_billion(period.nanos as nat);
    if before.held@.canonical() && before.held@.place >= -1000 {
        sums_are_held_closely(before.held@, seconds_of(period.nanos as nat));
    }
}

} // verus!
