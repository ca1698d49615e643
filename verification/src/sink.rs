//! The playback device: what it negotiates, what it answers, and the rules it has to meet.

use vstd::prelude::*;

use crate::double::{
    is_close, is_rounded, one, order_is_that_of_fine_units, products_are_held_closely, whole, Double,
};
use crate::error::ConfigurationError;
use crate::text::{decimal, millis_text, push_decimal, push_millis};
use crate::time::{
    counts_over_rates_are_close, frames_last_their_number_over_the_rate, frames_nanos,
    seconds_are_nanoseconds_over_a_billion, seconds_of, Duration, NANOS_PER_MICRO, NANOS_PER_MILLI,
};

verus! {

/// ALSA's `pulse` device is asked for and not there.
#[derive(Clone, Copy, Debug, PartialEq, Eq, Structural)]
pub struct MissingPulsePlugin;

impl MissingPulsePlugin {
    pub open spec fn text() -> Seq<char> {
        "ALSA's `pulse` PCM device is unavailable. Install the ALSA plugins package that provides the `pulse` plugin, then verify it with `aplay -L | grep -x pulse`. See README.md for package commands."@
    }

    pub fn message(&self) -> (message: &'static str)
        ensures
            message@ == Self::text(),
    {
        "ALSA's `pulse` PCM device is unavailable. Install the ALSA plugins package that provides the `pulse` plugin, then verify it with `aplay -L | grep -x pulse`. See README.md for package commands."
    }
}

/// What a playback device agreed to.
#[derive(Clone, Copy, Debug, PartialEq, Eq, Structural)]
pub struct SinkParameters {
    pub rate: u32,
    pub period_frames: usize,
    pub buffer_frames: usize,
}

impl SinkParameters {
    /// The length of one period in nanoseconds.
    pub open spec fn period_nanos(self) -> nat {
        frames_nanos(self.period_frames as nat, self.rate as nat)
    }

    /// The length of the device's buffer in nanoseconds.
    pub open spec fn buffer_nanos(self) -> nat {
        frames_nanos(self.buffer_frames as nat, self.rate as nat)
    }

    /// How long one period lasts.
    pub fn period(&self) -> (period: Duration)
        requires
            self.rate > 0,
        ensures
            period.nanos == self.period_nanos(),
    {
        Duration::from_frames(self.period_frames, self.rate)
    }

    /// How long the device's buffer lasts.
    pub fn buffer(&self) -> (buffer: Duration)
        requires
            self.rate > 0,
        ensures
            buffer.nanos == self.buffer_nanos(),
    {
        Duration::from_frames(self.buffer_frames, self.rate)
    }
}

/// What came of a write.
#[derive(Clone, Copy, Debug, PartialEq, Eq, Structural)]
pub enum WriteResult {
    Written(usize),
    WouldBlock,
    Underrun,
    Suspended,
}

/// What came of waiting for the device.
#[derive(Clone, Copy, Debug, PartialEq, Eq, Structural)]
pub enum WaitResult {
    Ready,
    TimedOut,
    Underrun,
    Suspended,
}

/// How much the device can take.
#[derive(Clone, Copy, Debug, PartialEq, Eq, Structural)]
pub enum Availability {
    Frames(usize),
    Underrun,
    Suspended,
}

/// Why a device call failed.
#[derive(Clone, Copy, Debug, PartialEq, Eq, Structural)]
pub enum SinkError {
    /// The operating system's error number.
    Errno(i32),
    /// The device reported a period of negative length.
    PeriodSize,
    /// The device reported a buffer of negative length.
    BufferSize,
    /// The device reported a negative count of free frames.
    AvailableFrames,
}

/// A count of frames as the device reports it can be held: it is not negative, nor too large.
pub open spec fn is_frame_count(frames: i64) -> bool {
    0 <= frames <= usize::MAX
}

fn frame_count(frames: i64) -> (count: Option<usize>)
    ensures
        count == if is_frame_count(frames) {
            Some(frames as usize)
        } else {
            None
        },
{
    if frames >= 0 && frames as u64 <= usize::MAX as u64 {
        Some(frames as usize)
    } else {
        None
    }
}

/// A call that changes a playback device.
pub enum SinkCall {
    Write(Seq<i32>),
    Prepare,
    DropAndPrepare,
    DropQueue,
}

/// A playback device.
///
/// For each call the trait names the answers that the device may give; a device that promises
/// nothing admits them all. A device that keeps a record says which calls it got, in their order:
/// each call adds exactly itself. Not every device has a state to read that from, so a device keeps
/// no record unless it says so.
pub trait AudioSink: Send {
    /// The device keeps a record of its calls.
    open spec fn keeps_record(&self) -> bool {
        false
    }

    /// The calls that the device got, if it keeps a record.
    open spec fn calls(&self) -> Seq<SinkCall> {
        Seq::empty()
    }

    open spec fn may_have(&self, parameters: SinkParameters) -> bool {
        true
    }

    open spec fn may_wait(&self, timeout: Duration, result: Result<WaitResult, SinkError>) -> bool {
        true
    }

    open spec fn may_offer(&self, result: Result<Availability, SinkError>) -> bool {
        true
    }

    open spec fn may_write(&self, samples: Seq<i32>, result: Result<WriteResult, SinkError>) -> bool {
        true
    }

    open spec fn may_prepare(&self, result: Result<(), SinkError>) -> bool {
        true
    }

    open spec fn may_drop_and_prepare(&self, result: Result<(), SinkError>) -> bool {
        true
    }

    open spec fn may_drop_queue(&self, result: Result<(), SinkError>) -> bool {
        true
    }

    open spec fn may_delay(&self, result: Result<i64, SinkError>) -> bool {
        true
    }

    fn parameters(&self) -> (parameters: SinkParameters)
        ensures
            self.may_have(parameters),
    ;

    fn wait_ready(&self, timeout: Duration) -> (result: Result<WaitResult, SinkError>)
        ensures
            self.may_wait(timeout, result),
    ;

    fn available_frames(&self) -> (result: Result<Availability, SinkError>)
        ensures
            self.may_offer(result),
    ;

    fn write(&mut self, samples: &[i32]) -> (result: Result<WriteResult, SinkError>)
        ensures
            old(self).may_write(samples@, result),
            old(self).keeps_record() ==> final(self).keeps_record() && final(self).calls() == old(
                self,
            ).calls().push(SinkCall::Write(samples@)),
    ;

    fn prepare(&mut self) -> (result: Result<(), SinkError>)
        ensures
            old(self).may_prepare(result),
            old(self).keeps_record() ==> final(self).keeps_record() && final(self).calls() == old(
                self,
            ).calls().push(SinkCall::Prepare),
    ;

    fn drop_and_prepare(&mut self) -> (result: Result<(), SinkError>)
        ensures
            old(self).may_drop_and_prepare(result),
            old(self).keeps_record() ==> final(self).keeps_record() && final(self).calls() == old(
                self,
            ).calls().push(SinkCall::DropAndPrepare),
    ;

    fn drop_queue(&mut self) -> (result: Result<(), SinkError>)
        ensures
            old(self).may_drop_queue(result),
            old(self).keeps_record() ==> final(self).keeps_record() && final(self).calls() == old(
                self,
            ).calls().push(SinkCall::DropQueue),
    ;

    fn delay_frames(&self) -> (result: Result<i64, SinkError>)
        ensures
            self.may_delay(result),
    ;
}

/// A boxed device answers as the device in the box does, and hands each call on exactly once.
impl AudioSink for Box<dyn AudioSink> {
    open spec fn keeps_record(&self) -> bool {
        (**self).keeps_record()
    }

    open spec fn calls(&self) -> Seq<SinkCall> {
        (**self).calls()
    }

    open spec fn may_have(&self, parameters: SinkParameters) -> bool {
        (**self).may_have(parameters)
    }

    open spec fn may_wait(&self, timeout: Duration, result: Result<WaitResult, SinkError>) -> bool {
        (**self).may_wait(timeout, result)
    }

    open spec fn may_offer(&self, result: Result<Availability, SinkError>) -> bool {
        (**self).may_offer(result)
    }

    open spec fn may_write(
        &self,
        samples: Seq<i32>,
        result: Result<WriteResult, SinkError>,
    ) -> bool {
        (**self).may_write(samples, result)
    }

    open spec fn may_prepare(&self, result: Result<(), SinkError>) -> bool {
        (**self).may_prepare(result)
    }

    open spec fn may_drop_and_prepare(&self, result: Result<(), SinkError>) -> bool {
        (**self).may_drop_and_prepare(result)
    }

    open spec fn may_drop_queue(&self, result: Result<(), SinkError>) -> bool {
        (**self).may_drop_queue(result)
    }

    open spec fn may_delay(&self, result: Result<i64, SinkError>) -> bool {
        (**self).may_delay(result)
    }

    fn parameters(&self) -> (parameters: SinkParameters) {
        (**self).parameters()
    }

    fn wait_ready(&self, timeout: Duration) -> (result: Result<WaitResult, SinkError>) {
        (**self).wait_ready(timeout)
    }

    fn available_frames(&self) -> (result: Result<Availability, SinkError>) {
        (**self).available_frames()
    }

    fn write(&mut self, samples: &[i32]) -> (result: Result<WriteResult, SinkError>) {
        (**self).write(samples)
    }

    fn prepare(&mut self) -> (result: Result<(), SinkError>) {
        (**self).prepare()
    }

    fn drop_and_prepare(&mut self) -> (result: Result<(), SinkError>) {
        (**self).drop_and_prepare()
    }

    fn drop_queue(&mut self) -> (result: Result<(), SinkError>) {
        (**self).drop_queue()
    }

    fn delay_frames(&self) -> (result: Result<i64, SinkError>) {
        (**self).delay_frames()
    }
}

/// Why a device could not be opened.
#[derive(Debug)]
pub enum OpenError {
    MissingPulsePlugin(MissingPulsePlugin),
    Configuration(ConfigurationError),
    /// Anything else: the device may be there at the next try.
    Unavailable(String),
}

/// Opens playback devices.
pub trait SinkFactory: Send + Sync {
    fn open(
        &self,
        requested_rate: u32,
        requested_buffer: Duration,
        requested_period: Duration,
    ) -> (sink: Result<Box<dyn AudioSink>, OpenError>);
}

/// Names the ALSA device to open.
#[derive(Clone, Debug)]
pub struct AlsaSinkFactory {
    device: String,
}

impl AlsaSinkFactory {
    /// The device's name.
    pub closed spec fn view(self) -> Seq<char> {
        self.device@
    }

    pub fn new(device: String) -> (factory: Self)
        ensures
            factory@ == device@,
    {
        AlsaSinkFactory { device }
    }

    pub fn device(&self) -> (device: &str)
        ensures
            device@ == self@,
    {
        self.device.as_str()
    }
}

/// Nothing can be played with a rate, a period or a buffer of zero.
pub open spec fn is_degenerate(actual: SinkParameters) -> bool {
    actual.rate == 0 || actual.period_frames == 0 || actual.buffer_frames == 0
}

/// The period misses the requested one by more than a tenth of it, in seconds of double precision.
pub open spec fn period_is_off(actual: SinkParameters, requested_period: Duration) -> bool {
    let error = if actual.period_nanos() > requested_period.nanos {
        actual.period_nanos() - requested_period.nanos
    } else {
        requested_period.nanos - actual.period_nanos()
    };
    let tenth = whole(1).over(10);
    !seconds_of(error as nat).at_most(seconds_of(requested_period.nanos as nat).product(tenth))
}

/// The buffer is longer than requested by more than one period.
pub open spec fn buffer_is_off(actual: SinkParameters, requested_buffer: Duration) -> bool {
    actual.buffer_nanos() > requested_buffer.nanos + actual.period_nanos()
}

pub open spec fn degenerate_text(actual: SinkParameters) -> Seq<char> {
    "ALSA negotiated invalid parameters: SinkParameters { rate: "@ + decimal(actual.rate as nat)
        + ", period_frames: "@ + decimal(actual.period_frames as nat) + ", buffer_frames: "@
        + decimal(actual.buffer_frames as nat) + " }"@
}

pub open spec fn period_text(actual: SinkParameters, requested_period: Duration) -> Seq<char> {
    "ALSA period mismatch: requested "@ + millis_text(requested_period.nanos as nat)
        + " ms, actual "@ + millis_text(actual.period_nanos()) + " ms"@
}

pub open spec fn buffer_text(actual: SinkParameters, requested_buffer: Duration) -> Seq<char> {
    "ALSA buffer mismatch: requested "@ + millis_text(requested_buffer.nanos as nat)
        + " ms, actual "@ + millis_text(actual.buffer_nanos()) + " ms (limit "@ + millis_text(
        requested_buffer.nanos as nat + actual.period_nanos(),
    ) + " ms)"@
}

/// Holds what a device agreed to against what was asked of it.
pub fn validate_parameters(
    actual: SinkParameters,
    requested_period: Duration,
    requested_buffer: Duration,
) -> (verdict: Result<(), ConfigurationError>)
    requires
        actual.rate > 0 ==> requested_buffer.nanos + actual.period_nanos() <= u128::MAX,
    ensures
        match verdict {
            Ok(()) => {
                &&& !is_degenerate(actual)
                &&& !period_is_off(actual, requested_period)
                &&& !buffer_is_off(actual, requested_buffer)
            },
            Err(error) => if is_degenerate(actual) {
                error@ == degenerate_text(actual)
            } else if period_is_off(actual, requested_period) {
                error@ == period_text(actual, requested_period)
            } else {
                buffer_is_off(actual, requested_buffer) && error@ == buffer_text(
                    actual,
                    requested_buffer,
                )
            },
        },
{
    if actual.rate == 0 || actual.period_frames == 0 || actual.buffer_frames == 0 {
        let mut text: String = "ALSA negotiated invalid parameters: SinkParameters { rate: ".to_owned();
        push_decimal(&mut text, actual.rate as u128);
        text.append(", period_frames: ");
        push_decimal(&mut text, actual.period_frames as u128);
        text.append(", buffer_frames: ");
        push_decimal(&mut text, actual.buffer_frames as u128);
        text.append(" }");
        return Err(ConfigurationError::new(text.as_str()));
    }
    let period = actual.period();
    let period_error = period.abs_diff(requested_period);
    let tenth = Double::whole(1).over(10);
    if !period_error.as_seconds().at_most(requested_period.as_seconds().product(tenth)) {
        let mut text: String = "ALSA period mismatch: requested ".to_owned();
        push_millis(&mut text, requested_period);
        text.append(" ms, actual ");
        push_millis(&mut text, period);
        text.append(" ms");
        return Err(ConfigurationError::new(text.as_str()));
    }
    let buffer = actual.buffer();
    let limit = requested_buffer.plus(period);
    if buffer.nanos > limit.nanos {
        let mut text: String = "ALSA buffer mismatch: requested ".to_owned();
        push_millis(&mut text, requested_buffer);
        text.append(" ms, actual ");
        push_millis(&mut text, buffer);
        text.append(" ms (limit ");
        push_millis(&mut text, limit);
        text.append(" ms)");
        return Err(ConfigurationError::new(text.as_str()));
    }
    Ok(())
}

/// A span in whole microseconds, as far as 32 bits go.
pub fn duration_micros(duration: Duration) -> (micros: u32)
    ensures
        micros * 1000 <= duration.nanos,
        micros < u32::MAX ==> duration.nanos < (micros + 1) * 1000,
        micros == if duration.nanos / NANOS_PER_MICRO <= u32::MAX {
            duration.nanos / NANOS_PER_MICRO
        } else {
            u32::MAX as u128
        },
{
    let micros: u128 = duration.as_micros();
    if micros <= u32::MAX as u128 {
        micros as u32
    } else {
        u32::MAX
    }
}

/// A time limit in whole milliseconds, as far as 32 bits go.
pub fn timeout_millis(timeout: Duration) -> (millis: u32)
    ensures
        millis * 1_000_000 <= timeout.nanos,
        millis < u32::MAX ==> timeout.nanos < (millis + 1) * 1_000_000,
        millis == if timeout.nanos / NANOS_PER_MILLI <= u32::MAX {
            timeout.nanos / NANOS_PER_MILLI
        } else {
            u32::MAX as u128
        },
{
    let millis: u128 = timeout.as_millis();
    if millis <= u32::MAX as u128 {
        millis as u32
    } else {
        u32::MAX
    }
}

/// The sizes that a device reports are signed; what is no count of frames is refused, the period
/// first.
pub fn negotiated_parameters(rate: u32, period_size: i64, buffer_size: i64) -> (parameters: Result<
    SinkParameters,
    SinkError,
>)
    ensures
        parameters == if !is_frame_count(period_size) {
            Err::<SinkParameters, SinkError>(SinkError::PeriodSize)
        } else if !is_frame_count(buffer_size) {
            Err(SinkError::BufferSize)
        } else {
            Ok(
                SinkParameters {
                    rate,
                    period_frames: period_size as usize,
                    buffer_frames: buffer_size as usize,
                },
            )
        },
{
    match frame_count(period_size) {
        None => Err(SinkError::PeriodSize),
        Some(period_frames) => match frame_count(buffer_size) {
            None => Err(SinkError::BufferSize),
            Some(buffer_frames) => Ok(SinkParameters { rate, period_frames, buffer_frames }),
        },
    }
}

/// `libc::ENOENT`: 2 on Linux.
#[verifier::external_body]
fn enoent() -> (errno: i32)
    ensures
        errno == 2,
{
    libc::ENOENT
}

/// `libc::EAGAIN`: 11 on Linux.
#[verifier::external_body]
fn eagain() -> (errno: i32)
    ensures
        errno == 11,
{
    libc::EAGAIN
}

/// `libc::EPIPE`: 32 on Linux.
#[verifier::external_body]
fn epipe() -> (errno: i32)
    ensures
        errno == 32,
{
    libc::EPIPE
}

/// `libc::ESTRPIPE`: 86 on most Linux machines, 91 on SPARC and 92 on MIPS.
#[verifier::external_body]
fn estrpipe() -> (errno: i32)
    ensures
        errno == 86 || errno == 91 || errno == 92,
{
    libc::ESTRPIPE
}

/// The error numbers that a device call can recover from.
#[derive(Clone, Copy, Debug, PartialEq, Eq, Structural)]
pub struct SinkErrnos {
    /// The call would block.
    pub again: i32,
    /// The device ran dry.
    pub pipe: i32,
    /// The device was suspended.
    pub suspended: i32,
}

impl SinkErrnos {
    /// The numbers differ, so an error means one thing.
    pub open spec fn wf(self) -> bool {
        self.again != self.pipe && self.again != self.suspended && self.pipe != self.suspended
    }

    /// The numbers of the machine that this runs on. Which number a suspended device gives
    /// depends on the machine.
    pub fn of_platform() -> (errnos: Self)
        ensures
            errnos.wf(),
            errnos.again == 11,
            errnos.pipe == 32,
            errnos.suspended == 86 || errnos.suspended == 91 || errnos.suspended == 92,
    {
        SinkErrnos { again: eagain(), pipe: epipe(), suspended: estrpipe() }
    }

    /// What waiting for the device came to.
    pub fn wait_result(&self, outcome: Result<bool, i32>) -> (result: Result<WaitResult, SinkError>)
        ensures
            result == match outcome {
                Ok(ready) => Ok::<WaitResult, SinkError>(
                    if ready {
                        WaitResult::Ready
                    } else {
                        WaitResult::TimedOut
                    },
                ),
                Err(errno) => if errno == self.pipe {
                    Ok(WaitResult::Underrun)
                } else if errno == self.suspended {
                    Ok(WaitResult::Suspended)
                } else {
                    Err(SinkError::Errno(errno))
                },
            },
    {
        match outcome {
            Ok(true) => Ok(WaitResult::Ready),
            Ok(false) => Ok(WaitResult::TimedOut),
            Err(errno) => if errno == self.pipe {
                Ok(WaitResult::Underrun)
            } else if errno == self.suspended {
                Ok(WaitResult::Suspended)
            } else {
                Err(SinkError::Errno(errno))
            },
        }
    }

    /// What the device's count of free frames came to.
    pub fn availability(&self, outcome: Result<i64, i32>) -> (result: Result<
        Availability,
        SinkError,
    >)
        ensures
            result == match outcome {
                Ok(frames) => if is_frame_count(frames) {
                    Ok::<Availability, SinkError>(Availability::Frames(frames as usize))
                } else {
                    Err(SinkError::AvailableFrames)
                },
                Err(errno) => if errno == self.pipe {
                    Ok(Availability::Underrun)
                } else if errno == self.suspended {
                    Ok(Availability::Suspended)
                } else {
                    Err(SinkError::Errno(errno))
                },
            },
    {
        match outcome {
            Ok(frames) => match frame_count(frames) {
                Some(count) => Ok(Availability::Frames(count)),
                None => Err(SinkError::AvailableFrames),
            },
            Err(errno) => if errno == self.pipe {
                Ok(Availability::Underrun)
            } else if errno == self.suspended {
                Ok(Availability::Suspended)
            } else {
                Err(SinkError::Errno(errno))
            },
        }
    }

    /// What a write came to.
    pub fn write_result(&self, outcome: Result<usize, i32>) -> (result: Result<
        WriteResult,
        SinkError,
    >)
        ensures
            result == match outcome {
                Ok(written) => Ok::<WriteResult, SinkError>(WriteResult::Written(written)),
                Err(errno) => if errno == self.again {
                    Ok(WriteResult::WouldBlock)
                } else if errno == self.pipe {
                    Ok(WriteResult::Underrun)
                } else if errno == self.suspended {
                    Ok(WriteResult::Suspended)
                } else {
                    Err(SinkError::Errno(errno))
                },
            },
    {
        match outcome {
            Ok(written) => Ok(WriteResult::Written(written)),
            Err(errno) => if errno == self.again {
                Ok(WriteResult::WouldBlock)
            } else if errno == self.pipe {
                Ok(WriteResult::Underrun)
            } else if errno == self.suspended {
                Ok(WriteResult::Suspended)
            } else {
                Err(SinkError::Errno(errno))
            },
        }
    }
}

/// Opening the `pulse` device fails with "no such file" exactly when ALSA's plugin for it is not
/// installed.
pub fn is_missing_pulse_plugin(device: &str, errno: i32) -> (missing: bool)
    ensures
        missing == (device@ == "pulse"@ && errno == 2),
{
    let pulse: String = "pulse".to_owned();
    device.to_owned() == pulse && errno == enoent()
}

/// A tenth of a close number is close to a tenth of what it stands for.
proof fn a_tenth_is_close(value: nat, exact: nat, tenth: nat, product: nat)
    requires
        is_close(value, 1_000_000_000, exact * one(), 0x1000_0000_0000),
        is_close(tenth, 10, one(), 0x2000_0000_0000),
        is_rounded(product, one(), value * tenth),
    ensures
        is_close(product, 10_000_000_000, exact * one(), 0x100_0000_0000),
{
    let unit = one();
    vstd::arithmetic::power2::lemma_pow2_pos(1100);
    let left = value * 1_000_000_000;
    let right = tenth * 10;
    let both = left * right;
    let goal = exact * unit * unit;
    // The product of two close numbers is close.
    let target = exact * unit;
    assert(goal == target * unit);
    assert(0x1000_0000_0000 * ((left - target) * right) <= target * right) by (nonlinear_arith)
        requires
            0x1000_0000_0000 * (left - target) <= target,
            right >= 0,
    ;
    assert(0x1000_0000_0000 * ((target - left) * right) <= target * right) by (nonlinear_arith)
        requires
            0x1000_0000_0000 * (target - left) <= target,
            right >= 0,
    ;
    assert(0x2000_0000_0000 * (target * (right - unit)) <= target * unit) by (nonlinear_arith)
        requires
            0x2000_0000_0000 * (right - unit) <= unit,
            target >= 0,
    ;
    assert(0x2000_0000_0000 * (target * (unit - right)) <= target * unit) by (nonlinear_arith)
        requires
            0x2000_0000_0000 * (unit - right) <= unit,
            target >= 0,
    ;
    assert(target * right <= 2 * (target * unit)) by (nonlinear_arith)
        requires
            0 <= right <= 2 * unit,
            target >= 0,
    ;
    assert(both - goal == (left - target) * right + target * (right - unit)) by (nonlinear_arith)
        requires
            both == left * right,
            goal == target * unit,
    ;
    assert(goal - both == (target - left) * right + target * (unit - right)) by (nonlinear_arith)
        requires
            both == left * right,
            goal == target * unit,
    ;
    assert(0x400_0000_0000 * (both - goal) <= goal && 0x400_0000_0000 * (goal - both) <= goal);
    // Rounding the product loses next to nothing more.
    let raw = value * tenth;
    assert(both == 10_000_000_000 * raw) by (nonlinear_arith)
        requires
            both == (value * 1_000_000_000) * (tenth * 10),
            raw == value * tenth,
    ;
    let scaled = product * unit;
    assert(both <= 2 * goal);
    assert(0x100_0000_0000 * (10_000_000_000 * scaled - goal) <= goal);
    assert(0x100_0000_0000 * (goal - 10_000_000_000 * scaled) <= goal);
    let shown = product * 10_000_000_000;
    assert(10_000_000_000 * scaled == shown * unit) by (nonlinear_arith)
        requires
            scaled == product * unit,
            shown == product * 10_000_000_000,
    ;
    assert(0x100_0000_0000 * (shown - target) <= target) by (nonlinear_arith)
        requires
            0x100_0000_0000 * (shown * unit - target * unit) <= target * unit,
            unit > 0,
    ;
    assert(0x100_0000_0000 * (target - shown) <= target) by (nonlinear_arith)
        requires
            0x100_0000_0000 * (target * unit - shown * unit) <= target * unit,
            unit > 0,
    ;
}

/// A period is refused if it misses the requested one by more than a tenth, and taken if it misses it
/// by less, on either side; between the two lies one part in `2^38`. A period that is exactly the
/// requested one is always taken.
pub proof fn a_tenth_of_the_period_is_admitted(actual: SinkParameters, requested_period: Duration)
    ensures
        ({
            let asked = requested_period.nanos as int;
            let missed = if actual.period_nanos() > asked {
                actual.period_nanos() - asked
            } else {
                asked - actual.period_nanos()
            };
            &&& 0x40_0000_0000 * (10 * missed - asked) > asked ==> period_is_off(
                actual,
                requested_period,
            )
            &&& 0x40_0000_0000 * (asked - 10 * missed) > asked ==> !period_is_off(
                actual,
                requested_period,
            )
            &&& missed == 0 ==> !period_is_off(actual, requested_period)
        }),
{
    let asked = requested_period.nanos as nat;
    let missed = (if actual.period_nanos() > asked {
        actual.period_nanos() - asked
    } else {
        asked - actual.period_nanos()
    }) as nat;
    let tenth = whole(1).over(10);
    let error = seconds_of(missed);
    let wanted = seconds_of(asked);
    let limit = wanted.product(tenth);
    let unit = one();
    vstd::arithmetic::power2::lemma_pow2_pos(1100);
    seconds_are_nanoseconds_over_a_billion(missed);
    seconds_are_nanoseconds_over_a_billion(asked);
    counts_over_rates_are_close(1, 10);
    assert(1 * unit == unit);
    if tenth.digits == 0 {
        assert(tenth.fine() == 0) by (nonlinear_arith)
            requires
                tenth.fine() == tenth.digits * vstd::arithmetic::power2::pow2(
                    (tenth.place + 1100) as nat,
                ),
                tenth.digits == 0,
        ;
        assert(false);
    }
    products_are_held_closely(wanted, tenth);
    a_tenth_is_close(wanted.fine(), asked, tenth.fine(), limit.fine());
    order_is_that_of_fine_units(error, limit);
    let have = missed * unit;
    let base = asked * unit;
    let seen = error.fine();
    let most = limit.fine();
    if 0x40_0000_0000 * (10 * missed - asked) > asked {
        assert(0x40_0000_0000 * (10 * have - base) > base) by (nonlinear_arith)
            requires
                0x40_0000_0000 * (10 * missed - asked) > asked,
                have == missed * unit,
                base == asked * unit,
                unit > 0,
        ;
        assert(seen > most);
    }
    if 0x40_0000_0000 * (asked - 10 * missed) > asked {
        assert(0x40_0000_0000 * (base - 10 * have) > base) by (nonlinear_arith)
            requires
                0x40_0000_0000 * (asked - 10 * missed) > asked,
                have == missed * unit,
                base == asked * unit,
                unit > 0,
        ;
        assert(seen <= most);
    }
    if missed == 0 {
        assert(have == 0) by (nonlinear_arith)
            requires
                have == missed * unit,
                missed == 0,
        ;
        assert(seen == 0);
    }
}

/// A buffer is refused if and only if it lasts longer than the requested one and a period together;
/// parameters without a rate, a period or a buffer are refused in any case.
pub proof fn one_period_more_is_admitted(actual: SinkParameters, requested_buffer: Duration)
    ensures
        buffer_is_off(actual, requested_buffer) <==> actual.buffer_nanos() - actual.period_nanos()
            > requested_buffer.nanos,
        is_degenerate(actual) <==> actual.rate * actual.period_frames * actual.buffer_frames == 0,
{
    assert(is_degenerate(actual) <==> actual.rate * actual.period_frames * actual.buffer_frames == 0)
        by (nonlinear_arith)
        requires
            is_degenerate(actual) == (actual.rate == 0 || actual.period_frames == 0
                || actual.buffer_frames == 0),
            actual.rate >= 0,
            actual.period_frames >= 0,
            actual.buffer_frames >= 0,
    ;
}

/// A period and a buffer last as long as their frames do at the device's rate, but for one nanosecond
/// and one part in `2^45`.
pub proof fn parameters_last_their_frames(parameters: SinkParameters)
    requires
        parameters.rate > 0,
    ensures
        ({
            let rate = parameters.rate as int;
            let period = parameters.period_frames * 1_000_000_000;
            let buffer = parameters.buffer_frames * 1_000_000_000;
            let period_error = parameters.period_nanos() * rate - period;
            let buffer_error = parameters.buffer_nanos() * rate - buffer;
            &&& 0x2000_0000_0000 * period_error <= 0x2000_0000_0000 * rate + period
            &&& -(0x2000_0000_0000 * rate + period) <= 0x2000_0000_0000 * period_error
            &&& 0x2000_0000_0000 * buffer_error <= 0x2000_0000_0000 * rate + buffer
            &&& -(0x2000_0000_0000 * rate + buffer) <= 0x2000_0000_0000 * buffer_error
        }),
{
    frames_last_their_number_over_the_rate(
        parameters.period_frames as nat,
        parameters.rate as nat,
    );
    frames_last_their_number_over_the_rate(
        parameters.buffer_frames as nat,
        parameters.rate as nat,
    );
}

} // verus!
