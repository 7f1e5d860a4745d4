//! Time as plain numbers.

use vstd::prelude::*;

verus! {

/// Nanoseconds in one second.
pub const NANOS_PER_SEC: u32 = 1_000_000_000;

/// What the debug output of a `std::time::Duration` made of `secs` seconds
/// and `nanos` nanoseconds reads.
pub uninterp spec fn duration_text(secs: u64, nanos: u32) -> Seq<char>;

/// The debug output of `std::time::Duration`, a function of the duration
/// alone. Its notation is not claimed.
#[verifier::external_body]
fn debug_duration(secs: u64, nanos: u32) -> (text: String)
    requires
        nanos < NANOS_PER_SEC,
    ensures
        text@ == duration_text(secs, nanos),
{
    format!("{:?}", std::time::Duration::new(secs, nanos))
}

/// A length of time: whole seconds and the nanoseconds of a started one.
#[derive(Debug, Clone, Copy, PartialEq, Eq)]
pub struct Duration {
    secs: u64,
    nanos: u32,
}

impl Duration {
    #[verifier::type_invariant]
    spec fn well_formed(self) -> bool {
        self.nanos < NANOS_PER_SEC
    }

    /// The whole seconds.
    pub closed spec fn secs(self) -> u64 {
        self.secs
    }

    /// The nanoseconds beyond the whole seconds.
    pub closed spec fn subsec_nanos(self) -> u32 {
        self.nanos
    }

    /// The length in nanoseconds.
    pub open spec fn total_nanos(self) -> nat {
        (self.secs() * 1_000_000_000 + self.subsec_nanos()) as nat
    }

    /// The length in whole milliseconds, rounded down.
    pub open spec fn total_millis(self) -> nat {
        self.total_nanos() / 1_000_000
    }

    /// The duration of `secs` seconds and `nanos` nanoseconds.
    pub fn new(secs: u64, nanos: u32) -> (d: Duration)
        requires
            nanos < NANOS_PER_SEC,
        ensures
            d.secs() == secs,
            d.subsec_nanos() == nanos,
    {
        Duration { secs, nanos }
    }

    pub fn from_secs(secs: u64) -> (d: Duration)
        ensures
            d.secs() == secs,
            d.subsec_nanos() == 0,
    {
        Duration { secs, nanos: 0 }
    }

    pub fn from_millis(millis: u64) -> (d: Duration)
        ensures
            d.total_nanos() == millis * 1_000_000,
            d.subsec_nanos() < NANOS_PER_SEC,
    {
        Duration { secs: millis / 1000, nanos: ((millis % 1000) as u32) * 1_000_000 }
    }

    /// The text of this duration in the notation of the standard library's
    /// debug output, such as `60s`.
    pub fn text(&self) -> (text: String)
        ensures
            text@ == duration_text(self.secs(), self.subsec_nanos()),
    {
        proof {
            use_type_invariant(self);
        }
        debug_duration(self.secs, self.nanos)
    }

    pub fn as_secs(&self) -> (secs: u64)
        ensures
            secs == self.secs(),
    {
        self.secs
    }

    pub fn as_nanos(&self) -> (nanos: u128)
        ensures
            nanos == self.total_nanos(),
    {
        (self.secs as u128) * 1_000_000_000 + (self.nanos as u128)
    }
}

}

verus! {

/// The monotonic clock reading that a [`Clock`] counts from.
#[verifier::external_type_specification]
#[verifier::external_body]
pub struct ExInstant(std::time::Instant);

#[verifier::external_type_specification]
#[verifier::external_body]
pub struct ExSystemTime(std::time::SystemTime);

#[verifier::external_type_specification]
#[verifier::external_body]
pub struct ExSystemTimeError(std::time::SystemTimeError);

/// `std::time::Instant::now` reads the monotonic clock; nothing is claimed of
/// the reading.
pub assume_specification[ std::time::Instant::now ]() -> (now: std::time::Instant);

/// `std::time::Instant::elapsed` measures the time since a reading; nothing
/// is claimed of the measure.
pub assume_specification[ std::time::Instant::elapsed ](
    instant: &std::time::Instant,
) -> (elapsed: std::time::Duration);

/// The whole seconds of a standard duration.
pub uninterp spec fn whole_secs(duration: std::time::Duration) -> u64;

/// The nanoseconds of a standard duration beyond its whole seconds.
pub uninterp spec fn nanos_beyond(duration: std::time::Duration) -> u32;

/// `std::time::Duration::as_secs` is a function of the duration alone.
pub assume_specification[ std::time::Duration::as_secs ](
    duration: &std::time::Duration,
) -> (secs: u64)
    ensures
        secs == whole_secs(*duration),
;

/// `std::time::Duration::subsec_nanos` is a function of the duration alone,
/// and always less than a second.
pub assume_specification[ std::time::Duration::subsec_nanos ](
    duration: &std::time::Duration,
) -> (nanos: u32)
    ensures
        nanos == nanos_beyond(*duration),
        nanos < 1_000_000_000,
;

/// `std::time::SystemTime::now` reads the wall clock; nothing is claimed of
/// the reading.
pub assume_specification[ std::time::SystemTime::now ]() -> (now: std::time::SystemTime);

/// `std::time::SystemTime::duration_since`, counted from
/// `std::time::UNIX_EPOCH`: an error means that `now` is before the epoch.
/// Nothing is claimed of either outcome, which is the wall clock's.
#[verifier::external_body]
fn since_unix_epoch(now: std::time::SystemTime) -> (since: Result<
    std::time::Duration,
    std::time::SystemTimeError,
>) {
    now.duration_since(std::time::UNIX_EPOCH)
}

/// A moment, as nanoseconds since the origin of the [`Clock`] it belongs to.
/// Moments before the origin are negative.
#[derive(Debug, Clone, Copy, PartialEq, Eq, PartialOrd, Ord)]
pub struct Instant {
    pub nanos: i128,
}

/// The nanoseconds of a standard duration.
pub open spec fn std_nanos(duration: std::time::Duration) -> nat {
    (whole_secs(duration) * 1_000_000_000 + nanos_beyond(duration)) as nat
}

/// How many nanoseconds no length of time comes up to: those of two to the
/// sixty-fourth seconds.
pub open spec fn nanos_bound() -> nat {
    0x1_0000_0000_0000_0000 * 1_000_000_000
}

/// Whether a moment is one that a clock can read: not before the origin, and
/// not beyond what a length of time can be.
pub open spec fn is_reading(now: Instant) -> bool {
    0 <= now.nanos < nanos_bound()
}

impl Duration {
    /// A standard duration as a plain value.
    pub fn from_std(duration: std::time::Duration) -> (d: Duration)
        ensures
            d.secs() == whole_secs(duration),
            d.subsec_nanos() == nanos_beyond(duration),
            d.total_nanos() < nanos_bound(),
    {
        Duration::new(duration.as_secs(), duration.subsec_nanos())
    }
}

/// The moment at which so much time has passed since a clock's origin.
pub fn moment_after(elapsed: std::time::Duration) -> (moment: Instant)
    ensures
        moment.nanos == std_nanos(elapsed),
        is_reading(moment),
{
    Instant { nanos: Duration::from_std(elapsed).as_nanos() as i128 }
}

/// A monotonic clock: every moment it reads counts from one origin.
#[derive(Debug, Clone, Copy)]
pub struct Clock {
    origin: std::time::Instant,
}

impl Clock {
    /// A clock whose origin is the present moment.
    pub fn new() -> (clock: Clock) {
        Clock { origin: std::time::Instant::now() }
    }

    /// The present moment: the [`moment_after`] the time that the monotonic
    /// clock says has passed since the origin. Which one it is depends on the
    /// time; it is never before the origin, and never beyond what a length of
    /// time can be.
    pub fn now(&self) -> (now: Instant)
        ensures
            is_reading(now),
    {
        moment_after(self.origin.elapsed())
    }
}

/// The milliseconds since the Unix epoch, rounded down, given what the wall
/// clock says: nothing when it stands before the epoch.
pub fn millis_since_epoch(
    since: Result<std::time::Duration, std::time::SystemTimeError>,
) -> (millis: Option<u128>)
    ensures
        match since {
            Ok(since) => millis matches Some(m) && m == std_nanos(since) / 1_000_000 && m
                < nanos_bound() / 1_000_000,
            Err(_) => millis is None,
        },
{
    match since {
        Ok(since) => Some(Duration::from_std(since).as_nanos() / 1_000_000),
        Err(_) => None,
    }
}

/// The milliseconds between the Unix epoch and the present wall-clock time,
/// as [`millis_since_epoch`] has them. Which they are depends on the time;
/// they are no more than a length of time can be.
pub(crate) fn wall_clock_millis() -> (millis: Option<u128>)
    ensures
        millis matches Some(m) ==> m < nanos_bound() / 1_000_000,
{
    millis_since_epoch(since_unix_epoch(std::time::SystemTime::now()))
}

/// Seconds, milliseconds and nanoseconds of a length of time agree: a second
/// has a thousand milliseconds and each of those a million nanoseconds, and
/// what is less than a millisecond is left out of the milliseconds.
pub proof fn units_of_time_agree(d: Duration)
    requires
        d.subsec_nanos() < 1_000_000_000,
    ensures
        d.total_nanos() == 1_000_000_000 * d.secs() + d.subsec_nanos(),
        1_000_000 * d.total_millis() <= d.total_nanos() < 1_000_000 * (d.total_millis() + 1),
        1_000 * d.secs() <= d.total_millis() < 1_000 * (d.secs() + 1),
        nanos_bound() == 18_446_744_073_709_551_616_000_000_000,
        d.total_nanos() < nanos_bound(),
{
}

/// A standard duration counts for the same time, and a clock reads the moments
/// from its origin on.
pub proof fn readings_begin_at_the_origin(duration: std::time::Duration, nanos: i128)
    ensures
        std_nanos(duration) == 1_000_000_000 * whole_secs(duration) + nanos_beyond(duration),
        is_reading(Instant { nanos }) <==> 0 <= nanos
            && nanos < 18_446_744_073_709_551_616_000_000_000,
{
}

}
