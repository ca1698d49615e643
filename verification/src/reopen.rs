//! Opening the device anew: how long to wait between tries, when to report, and when to give up.

use vstd::prelude::*;

use crate::renderer::{RenderCounters, RenderState};
use crate::sink::OpenError;
use crate::time::{Duration, Instant, NANOS_PER_MILLI, NANOS_PER_SEC};

verus! {

/// The wait after the first failure, in milliseconds.
pub const INITIAL_BACKOFF_MILLIS: u64 = 250;

/// No wait is longer than this, in milliseconds.
pub const MAX_BACKOFF_MILLIS: u64 = 5000;

/// How many reports are made at times of their own, before the regular ones begin.
pub const FIXED_DIAGNOSTICS: usize = 3;

/// The time between regular reports, in seconds.
pub const DIAGNOSTIC_SECS: u64 = 60;

/// An incompatible device is given up on after it was found so often with the same fault.
pub const REPEATED_FAULTS: u32 = 3;

/// An incompatible device is not given up on earlier than this after its fault was first found,
/// in seconds.
pub const REPEATED_FAULT_SECS: u64 = 5;

/// A sleep that can be broken off is cut into pieces of this length, in milliseconds.
pub const SLEEP_SLICE_MILLIS: u64 = 100;

/// When the first reports are made: after 5, 15 and 30 seconds.
pub open spec fn diagnostic_secs(index: nat) -> u64 {
    if index == 0 {
        5
    } else if index == 1 {
        15
    } else {
        30
    }
}

fn diagnostic_time(index: usize) -> (time: Duration)
    ensures
        time.nanos == diagnostic_secs(index as nat) * NANOS_PER_SEC,
{
    if index == 0 {
        Duration::from_secs(5)
    } else if index == 1 {
        Duration::from_secs(15)
    } else {
        Duration::from_secs(30)
    }
}

/// The next of the first reports is due.
pub open spec fn fixed_is_due(elapsed: Duration, next_fixed: usize) -> bool {
    next_fixed < FIXED_DIAGNOSTICS && elapsed.nanos >= diagnostic_secs(next_fixed as nat)
        * NANOS_PER_SEC
}

/// Whether a report is due after `elapsed`; if so, the next one is scheduled.
pub fn elapsed_crossed_diagnostic(
    elapsed: Duration,
    next_fixed: &mut usize,
    next_periodic: &mut Duration,
) -> (due: bool)
    requires
        elapsed.nanos + DIAGNOSTIC_SECS * NANOS_PER_SEC <= u128::MAX,
    ensures
        due == (fixed_is_due(elapsed, *old(next_fixed)) || elapsed.nanos >= old(
            next_periodic,
        ).nanos),
        *final(next_fixed) == if fixed_is_due(elapsed, *old(next_fixed)) {
            *old(next_fixed) + 1
        } else {
            *old(next_fixed) as int
        },
        final(next_periodic).nanos == if due && !fixed_is_due(elapsed, *old(next_fixed)) {
            old(next_periodic).nanos + DIAGNOSTIC_SECS * NANOS_PER_SEC
        } else {
            old(next_periodic).nanos as int
        },
{
    if *next_fixed < FIXED_DIAGNOSTICS && elapsed.nanos >= diagnostic_time(*next_fixed).nanos {
        *next_fixed = *next_fixed + 1;
        return true;
    }
    if elapsed.nanos >= next_periodic.nanos {
        *next_periodic = next_periodic.plus(Duration::from_secs(DIAGNOSTIC_SECS));
        return true;
    }
    false
}

/// How long to sleep next on the way to `deadline`, so that the sleep can be broken off soon;
/// nothing once the deadline has passed.
pub fn sleep_slice(deadline: Instant, now: Instant) -> (slice: Option<Duration>)
    ensures
        slice is Some <==> now.nanos <= deadline.nanos,
        slice matches Some(slice) ==> slice.nanos <= 100_000_000 && now.nanos + slice.nanos
            <= deadline.nanos && (slice.nanos == 100_000_000 || now.nanos + slice.nanos
            == deadline.nanos),
        slice == if now.nanos > deadline.nanos {
            None
        } else if deadline.nanos - now.nanos <= SLEEP_SLICE_MILLIS * NANOS_PER_MILLI {
            Some(Duration { nanos: (deadline.nanos - now.nanos) as u128 })
        } else {
            Some(Duration { nanos: (SLEEP_SLICE_MILLIS * NANOS_PER_MILLI) as u128 })
        },
{
    match deadline.checked_duration_since(now) {
        Some(remaining) => Some(remaining.at_most(Duration::from_millis(SLEEP_SLICE_MILLIS))),
        None => None,
    }
}

/// A device that was incompatible in the same way, time and again.
#[derive(Debug)]
struct RepeatedFault {
    message: String,
    count: u32,
    first: Instant,
}

/// What is known of a fault that repeats: what it is, how often it was found, and when first.
pub struct FaultRecord {
    pub message: Seq<char>,
    pub count: u32,
    pub first: Instant,
}

/// What to do about a device that could not be opened.
#[derive(Debug)]
pub enum ReopenStep {
    /// Give up, for this reason.
    GiveUp(OpenError),
    /// Wait so long, then try again. `unavailable` says that the device has been away for long
    /// enough to be reported, with the reason.
    Retry { wait: Duration, unavailable: Option<String> },
}

/// Where the tries to open the device stand.
#[derive(Debug)]
pub struct Reopen {
    initial_open: bool,
    started: Instant,
    backoff: Duration,
    next_fixed: usize,
    next_periodic: Duration,
    repeated: Option<RepeatedFault>,
}

/// The fault after it was found once more at `now`: it goes on if it is the same as before.
pub open spec fn fault_after(
    before: Option<FaultRecord>,
    message: Seq<char>,
    now: Instant,
) -> FaultRecord {
    match before {
        Some(record) => if record.message == message {
            FaultRecord {
                count: if record.count < u32::MAX {
                    (record.count + 1) as u32
                } else {
                    u32::MAX
                },
                ..record
            }
        } else {
            FaultRecord { message, count: 1, first: now }
        },
        None => FaultRecord { message, count: 1, first: now },
    }
}

/// The fault was there before, was found often enough, and is old enough.
pub open spec fn fault_is_final(record: FaultRecord, now: Instant) -> bool {
    &&& record.count >= REPEATED_FAULTS
    &&& now.nanos - record.first.nanos >= REPEATED_FAULT_SECS * NANOS_PER_SEC
}

/// Twice the wait, but no longer than the longest.
pub open spec fn doubled(nanos: nat) -> nat {
    if 2 * nanos <= MAX_BACKOFF_MILLIS * NANOS_PER_MILLI {
        2 * nanos
    } else {
        (MAX_BACKOFF_MILLIS * NANOS_PER_MILLI) as nat
    }
}

impl Reopen {
    /// Whether no device was open before.
    pub closed spec fn is_initial(self) -> bool {
        self.initial_open
    }

    /// When the tries began.
    pub closed spec fn since(self) -> Instant {
        self.started
    }

    /// How long the next wait is, in nanoseconds.
    pub closed spec fn wait_nanos(self) -> nat {
        self.backoff.nanos as nat
    }

    /// How many of the first reports were made.
    pub closed spec fn fixed_made(self) -> usize {
        self.next_fixed
    }

    /// When the next regular report is due.
    pub closed spec fn periodic(self) -> Duration {
        self.next_periodic
    }

    /// The fault that the last tries ended in, if it is one.
    pub closed spec fn fault(self) -> Option<FaultRecord> {
        match self.repeated {
            Some(repeated) => Some(
                FaultRecord {
                    message: repeated.message@,
                    count: repeated.count,
                    first: repeated.first,
                },
            ),
            None => None,
        }
    }

    pub open spec fn wf(self) -> bool {
        &&& self.wait_nanos() <= MAX_BACKOFF_MILLIS * NANOS_PER_MILLI
        &&& self.fault() matches Some(record) ==> record.count > 0
    }

    /// How long the tries have gone on at `now`.
    pub open spec fn elapsed(self, now: Instant) -> Duration {
        Duration {
            nanos: if now.nanos >= self.since().nanos {
                (now.nanos - self.since().nanos) as u128
            } else {
                0
            },
        }
    }

    /// A report is due at `now`.
    pub open spec fn report_due(self, now: Instant) -> bool {
        fixed_is_due(self.elapsed(now), self.fixed_made()) || self.elapsed(now).nanos
            >= self.periodic().nanos
    }

    /// The tries began at `now`.
    pub open spec fn is_started(self, initial_open: bool, now: Instant) -> bool {
        &&& self.wf()
        &&& self.is_initial() == initial_open
        &&& self.since() == now
        &&& self.wait_nanos() == INITIAL_BACKOFF_MILLIS * NANOS_PER_MILLI
        &&& self.fixed_made() == 0
        &&& self.periodic().nanos == DIAGNOSTIC_SECS * NANOS_PER_SEC
        &&& self.fault() is None
    }

    /// The tries begin.
    pub fn start(initial_open: bool, now: Instant) -> (reopen: Self)
        ensures
            reopen.is_started(initial_open, now),
    {
        Reopen {
            initial_open,
            started: now,
            backoff: Duration::from_millis(INITIAL_BACKOFF_MILLIS),
            next_fixed: 0,
            next_periodic: Duration::from_secs(DIAGNOSTIC_SECS),
            repeated: None,
        }
    }

    /// How long the tries have gone on.
    pub fn elapsed_at(&self, now: Instant) -> (elapsed: Duration)
        ensures
            elapsed == self.elapsed(now),
    {
        now.saturating_duration_since(self.started)
    }

    fn next_wait(&mut self) -> (wait: Duration)
        requires
            old(self).wf(),
        ensures
            final(self).wf(),
            wait.nanos == old(self).wait_nanos(),
            final(self).wait_nanos() == doubled(old(self).wait_nanos()),
            final(self).is_initial() == old(self).is_initial(),
            final(self).since() == old(self).since(),
            final(self).fixed_made() == old(self).fixed_made(),
            final(self).periodic() == old(self).periodic(),
            final(self).fault() == old(self).fault(),
    {
        let wait = self.backoff;
        self.backoff = wait.plus(wait).at_most(Duration::from_millis(MAX_BACKOFF_MILLIS));
        wait
    }

    /// Notes a fault of the device, and says whether it is final.
    fn note_fault(&mut self, message: &str, now: Instant) -> (done: bool)
        requires
            old(self).wf(),
        ensures
            final(self).wf(),
            final(self).is_initial() == old(self).is_initial(),
            final(self).since() == old(self).since(),
            final(self).wait_nanos() == old(self).wait_nanos(),
            final(self).fixed_made() == old(self).fixed_made(),
            final(self).periodic() == old(self).periodic(),
            final(self).fault() == Some(fault_after(old(self).fault(), message@, now)),
            done == fault_is_final(fault_after(old(self).fault(), message@, now), now),
    {
        let message: String = message.to_owned();
        match self.repeated.take() {
            Some(repeated) => {
                let mut repeated = repeated;
                if repeated.message == message {
                    repeated.count = repeated.count.saturating_add(1);
                    let age: Duration = now.saturating_duration_since(repeated.first);
                    let done: bool = repeated.count >= REPEATED_FAULTS && age.nanos
                        >= Duration::from_secs(REPEATED_FAULT_SECS).nanos;
                    self.repeated = Some(repeated);
                    return done;
                }
            },
            None => {},
        }
        self.repeated = Some(RepeatedFault { message, count: 1, first: now });
        false
    }

    /// The device could not be opened at `now`, and this is what to do about it.
    pub open spec fn answered_from(
        self,
        before: Self,
        error: OpenError,
        now: Instant,
        step: ReopenStep,
    ) -> bool {
        &&& self.wf()
        &&& self.is_initial() == before.is_initial()
        &&& self.since() == before.since()
        &&& match error {
            OpenError::MissingPulsePlugin(_) => {
                &&& step == ReopenStep::GiveUp(error)
                &&& self == before
            },
            OpenError::Configuration(fault) => {
                let record = fault_after(before.fault(), fault@, now);
                &&& self.fixed_made() == before.fixed_made()
                &&& self.periodic() == before.periodic()
                &&& if before.is_initial() {
                    &&& step == ReopenStep::GiveUp(error)
                    &&& self == before
                } else if fault_is_final(record, now) {
                    &&& step == ReopenStep::GiveUp(error)
                    &&& self.fault() == Some(record)
                    &&& self.wait_nanos() == before.wait_nanos()
                } else {
                    &&& step matches ReopenStep::Retry { wait, unavailable }
                    &&& wait.nanos == before.wait_nanos()
                    &&& unavailable is None
                    &&& self.fault() == Some(record)
                    &&& self.wait_nanos() == doubled(before.wait_nanos())
                }
            },
            OpenError::Unavailable(reason) => {
                &&& step matches ReopenStep::Retry { wait, unavailable }
                &&& wait.nanos == before.wait_nanos()
                &&& unavailable == if before.report_due(now) {
                    Some(reason)
                } else {
                    None
                }
                &&& self.fault() is None
                &&& self.wait_nanos() == doubled(before.wait_nanos())
                &&& self.fixed_made() == if fixed_is_due(
                    before.elapsed(now),
                    before.fixed_made(),
                ) {
                    before.fixed_made() + 1
                } else {
                    before.fixed_made() as int
                }
                &&& self.periodic().nanos == if before.report_due(now)
                    && !fixed_is_due(before.elapsed(now), before.fixed_made()) {
                    before.periodic().nanos + DIAGNOSTIC_SECS * NANOS_PER_SEC
                } else {
                    before.periodic().nanos as int
                }
            },
        }
    }

    /// Takes in that the device could not be opened.
    ///
    /// A missing plugin is final. An incompatible device is final at the first open; later it is
    /// final once the same fault was found often enough, for long enough. Everything else is tried
    /// again.
    pub fn on_error(&mut self, error: OpenError, now: Instant) -> (step: ReopenStep)
        requires
            old(self).wf(),
            now.nanos + DIAGNOSTIC_SECS * NANOS_PER_SEC <= u128::MAX,
        ensures
            final(self).wf(),
            final(self).answered_from(*old(self), error, now, step),
    {
        match error {
            OpenError::MissingPulsePlugin(plugin) => ReopenStep::GiveUp(
                OpenError::MissingPulsePlugin(plugin),
            ),
            OpenError::Configuration(fault) => {
                if self.initial_open || self.note_fault(fault.message(), now) {
                    return ReopenStep::GiveUp(OpenError::Configuration(fault));
                }
                ReopenStep::Retry { wait: self.next_wait(), unavailable: None }
            },
            OpenError::Unavailable(reason) => {
                self.repeated = None;
                let elapsed = self.elapsed_at(now);
                let due = elapsed_crossed_diagnostic(
                    elapsed,
                    &mut self.next_fixed,
                    &mut self.next_periodic,
                );
                let wait = self.next_wait();
                ReopenStep::Retry {
                    wait,
                    unavailable: if due {
                        Some(reason)
                    } else {
                        None
                    },
                }
            },
        }
    }
}

impl<T: Copy> RenderState<T> {
    /// Counts a device that could not be opened; a missing plugin does not count.
    pub fn count_open_error(&mut self, error: &OpenError)
        requires
            old(self).room(),
        ensures
            *final(self) == (RenderState {
                counters: RenderCounters {
                    reopen_failures: if error is MissingPulsePlugin {
                        old(self).counters.reopen_failures
                    } else {
                        (old(self).counters.reopen_failures + 1) as u64
                    },
                    ..old(self).counters
                },
                ..*old(self)
            }),
    {
        match error {
            OpenError::MissingPulsePlugin(_) => {},
            OpenError::Configuration(_) => {
                self.counters.reopen_failures = self.counters.reopen_failures + 1;
            },
            OpenError::Unavailable(_) => {
                self.counters.reopen_failures = self.counters.reopen_failures + 1;
            },
        }
    }
}

/// The wait after so many doublings of the first one.
pub open spec fn wait_after(failures: nat) -> nat
    decreases failures,
{
    if failures == 0 {
        (INITIAL_BACKOFF_MILLIS * NANOS_PER_MILLI) as nat
    } else {
        doubled(wait_after((failures - 1) as nat))
    }
}

/// The waits never get shorter and never exceed the longest one; each is the first wait doubled as
/// often as there were failures before, as long as that is not too long.
pub proof fn waits_double_up_to_the_longest(failures: nat)
    ensures
        wait_after(failures) <= wait_after(failures + 1) <= MAX_BACKOFF_MILLIS * NANOS_PER_MILLI,
        failures <= 4 ==> wait_after(failures) == INITIAL_BACKOFF_MILLIS * NANOS_PER_MILLI
            * vstd::arithmetic::power2::pow2(failures),
        failures > 4 ==> wait_after(failures) == MAX_BACKOFF_MILLIS * NANOS_PER_MILLI,
    decreases failures,
{
    vstd::arithmetic::power2::lemma2_to64();
    if failures > 0 {
        waits_double_up_to_the_longest((failures - 1) as nat);
    }
    assert(wait_after(failures + 1) == doubled(wait_after(failures)));
}

/// Each wait is twice the one before until that would be more than five seconds, and then five
/// seconds; the first is a quarter of a second. Starting from a wait within that, no wait is shorter
/// than the one before.
pub proof fn a_wait_is_twice_the_one_before(nanos: nat)
    ensures
        nanos <= 2_500_000_000 ==> doubled(nanos) == 2 * nanos,
        nanos > 2_500_000_000 ==> doubled(nanos) == 5_000_000_000,
        nanos <= 5_000_000_000 ==> nanos <= doubled(nanos) <= 5_000_000_000,
        wait_after(0) == 250_000_000,
{
}

/// Absences are reported after 5, 15 and 30 seconds, once each and in this order.
pub proof fn absences_are_reported_at_their_times(elapsed: Duration, made: usize)
    ensures
        fixed_is_due(elapsed, made) <==> (made == 0 && elapsed.nanos >= 5_000_000_000) || (made == 1
            && elapsed.nanos >= 15_000_000_000) || (made == 2 && elapsed.nanos >= 30_000_000_000),
{
}

/// A fault is counted on while it stays the same: each time that it is found adds one, and its first
/// time stays. Another fault, or one after none, is counted from one, and from now.
pub proof fn the_same_fault_is_counted_on(
    before: Option<FaultRecord>,
    message: Seq<char>,
    now: Instant,
)
    ensures
        ({
            let after = fault_after(before, message, now);
            &&& after.message == message
            &&& (before matches Some(record) && record.message == message) ==> {
                let record = before->0;
                &&& after.first == record.first
                &&& record.count < u32::MAX ==> after.count == record.count + 1
                &&& record.count == u32::MAX ==> after.count == u32::MAX
            }
            &&& !(before matches Some(record) && record.message == message) ==> after.count == 1
                && after.first == now
        }),
{
}

/// The record after the same fault was found at so many times, one after the other.
pub open spec fn fault_found_at(message: Seq<char>, times: Seq<Instant>) -> Option<FaultRecord>
    decreases times.len(),
{
    if times.len() == 0 {
        None
    } else {
        Some(fault_after(fault_found_at(message, times.drop_last()), message, times.last()))
    }
}

/// A device is given up on exactly when the same fault was found three times or more and five seconds
/// or more have passed since it was found first.
pub proof fn a_fault_is_final_after_three_times_and_five_seconds(
    message: Seq<char>,
    times: Seq<Instant>,
)
    requires
        0 < times.len() < u32::MAX,
    ensures
        fault_found_at(message, times) matches Some(record) && record.message == message
            && record.count == times.len() && record.first == times[0] && (fault_is_final(
            record,
            times.last(),
        ) <==> times.len() >= 3 && times.last().nanos - times[0].nanos >= 5_000_000_000),
    decreases times.len(),
{
    if times.len() > 1 {
        a_fault_is_final_after_three_times_and_five_seconds(message, times.drop_last());
    } else {
        reveal_with_fuel(fault_found_at, 2);
        assert(times.drop_last() =~= Seq::<Instant>::empty());
    }
}

/// However often a device that is not there is tried, it is tried again: the first wait is a quarter of
/// a second, each one is twice the one before, and none is longer than five seconds. No time spent on
/// an absence, however long, ends the tries.
pub proof fn an_absent_device_is_tried_again_and_again(
    states: Seq<Reopen>,
    initial_open: bool,
    begun: Instant,
    reasons: Seq<String>,
    times: Seq<Instant>,
    steps: Seq<ReopenStep>,
    k: int,
)
    requires
        states.len() == reasons.len() + 1,
        times.len() == reasons.len(),
        steps.len() == reasons.len(),
        states[0].is_started(initial_open, begun),
        forall|k: int|
            0 <= k < reasons.len() ==> (#[trigger] states[k + 1]).answered_from(
                states[k],
                OpenError::Unavailable(reasons[k]),
                times[k],
                steps[k],
            ),
        0 <= k < reasons.len(),
    ensures
        steps[k] matches ReopenStep::Retry { wait, unavailable } && wait.nanos == (if k <= 4 {
            250_000_000 * vstd::arithmetic::power2::pow2(k as nat)
        } else {
            5_000_000_000
        }) && (unavailable matches Some(reason) ==> reason == reasons[k]),
        states[k + 1].fault() is None,
        states[k + 1].since() == begun,
{
    lemma_waits_add_up(states, initial_open, begun, reasons, times, steps, k);
    assert(states[k + 1].answered_from(
        states[k],
        OpenError::Unavailable(reasons[k]),
        times[k],
        steps[k],
    ));
    waits_double_up_to_the_longest(k as nat);
}

proof fn lemma_waits_add_up(
    states: Seq<Reopen>,
    initial_open: bool,
    begun: Instant,
    reasons: Seq<String>,
    times: Seq<Instant>,
    steps: Seq<ReopenStep>,
    k: int,
)
    requires
        states.len() == reasons.len() + 1,
        states[0].is_started(initial_open, begun),
        forall|k: int|
            0 <= k < reasons.len() ==> (#[trigger] states[k + 1]).answered_from(
                states[k],
                OpenError::Unavailable(reasons[k]),
                times[k],
                steps[k],
            ),
        0 <= k <= reasons.len(),
    ensures
        states[k].wait_nanos() == wait_after(k as nat),
        states[k].since() == begun,
        states[k].is_initial() == initial_open,
    decreases k,
{
    if k > 0 {
        lemma_waits_add_up(states, initial_open, begun, reasons, times, steps, k - 1);
        assert(states[k - 1 + 1].answered_from(
            states[k - 1],
            OpenError::Unavailable(reasons[k - 1]),
            times[k - 1],
            steps[k - 1],
        ));
    }
}

/// An absence is reported, with its reason, when it has lasted 5, 15 and 30 seconds, and then every
/// minute; each of these reports is made once, and none is made before its time.
pub proof fn each_report_is_made_once(
    before: Reopen,
    after: Reopen,
    reason: String,
    now: Instant,
    step: ReopenStep,
)
    requires
        after.answered_from(before, OpenError::Unavailable(reason), now, step),
    ensures
        ({
            let away = if now.nanos >= before.since().nanos {
                now.nanos - before.since().nanos
            } else {
                0
            };
            let made = before.fixed_made();
            let early = (made == 0 && away >= 5_000_000_000) || (made == 1 && away
                >= 15_000_000_000) || (made == 2 && away >= 30_000_000_000);
            let regular = !early && away >= before.periodic().nanos;
            &&& step matches ReopenStep::Retry { wait, unavailable } && unavailable == (if early
                || regular {
                Some(reason)
            } else {
                None
            })
            &&& after.fixed_made() - made == if early {
                1int
            } else {
                0
            }
            &&& after.periodic().nanos - before.periodic().nanos == if regular {
                60_000_000_000int
            } else {
                0
            }
        }),
{
    absences_are_reported_at_their_times(before.elapsed(now), before.fixed_made());
}

/// A missing plugin ends the tries at once, and so does an incompatible device when none was open
/// before; a device that turns out incompatible later is tried again until the same fault was found
/// three times, five seconds apart. Neither is waited for longer than an absent device, and an absence
/// in between starts the count of faults over.
pub proof fn faults_end_the_tries(
    before: Reopen,
    after: Reopen,
    error: OpenError,
    now: Instant,
    step: ReopenStep,
)
    requires
        before.wf(),
        after.answered_from(before, error, now, step),
    ensures
        error is MissingPulsePlugin ==> step == ReopenStep::GiveUp(error),
        error is Configuration && before.is_initial() ==> step == ReopenStep::GiveUp(error),
        error is Unavailable ==> step is Retry && after.fault() is None,
        (error matches OpenError::Configuration(fault) && !before.is_initial()) ==> {
            let fault = error->Configuration_0;
            let again = before.fault() is Some && before.fault()->0.message == fault@;
            let first = if again {
                before.fault()->0.first
            } else {
                now
            };
            let found = if again {
                before.fault()->0.count + 1
            } else {
                1
            };
            &&& (before.fault() is None || before.fault()->0.count < u32::MAX) ==> (step
                == ReopenStep::GiveUp(error) <==> found >= 3 && now.nanos - first.nanos
                >= 5_000_000_000)
            &&& step is GiveUp || step is Retry
            &&& (before.fault() is None || before.fault()->0.count < u32::MAX) ==> after.fault()
                == Some(FaultRecord { message: fault@, count: found as u32, first })
            &&& step matches ReopenStep::Retry { wait, unavailable } ==> unavailable is None
                && wait.nanos == before.wait_nanos()
        },
{
}

/// Once the tries begin, an absence is reported from five seconds on and not before, and the first
/// wait is a quarter of a second.
pub proof fn the_first_report_comes_after_five_seconds(
    state: Reopen,
    initial_open: bool,
    begun: Instant,
    now: Instant,
)
    requires
        state.is_started(initial_open, begun),
    ensures
        state.report_due(now) <==> now.nanos >= begun.nanos + 5_000_000_000,
        state.wait_nanos() == 250_000_000,
        state.fault() is None,
{
}

} // verus!
