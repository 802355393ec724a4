//! Points in time and how they are written.

use vstd::prelude::*;
use vstd::string::*;

use crate::events::{Event, LogEntry};

verus! {

/// A point in time that `chrono` can represent, as the seconds since
/// 1970-01-01 00:00:00 UTC and the nanoseconds into that second. In the last
/// second of a minute the nanoseconds of a leap second may follow.
#[derive(Debug, Clone, Copy)]
pub struct UtcTime {
    secs: i64,
    nanos: u32,
}

/// Whether `chrono` has a point in time for these numbers.
pub open spec fn representable(secs: int, nanos: int) -> bool {
    &&& -8_334_601_228_800 <= secs <= 8_210_266_876_799
    &&& 0 <= nanos < 2_000_000_000
    &&& nanos >= 1_000_000_000 ==> secs % 60 == 59
}

/// The ways in which the library writes a point in time.
#[derive(Debug, Clone, Copy, PartialEq, Eq, Structural)]
pub enum TimeFormat {
    /// `2026-05-06`
    Date,
    /// `193211`
    Clock,
    /// `2026-05-06 19:32:11`
    DateAndClock,
    /// `20260506T193211`
    Stamp,
}

/// What `chrono` writes for a point in time under a format pattern.
pub uninterp spec fn utc_format(secs: i64, nanos: u32, pattern: Seq<char>) -> Seq<char>;

/// What `chrono` writes for a point in time in the form of RFC 3339.
pub uninterp spec fn utc_rfc3339(secs: i64, nanos: u32) -> Seq<char>;

/// The pattern of a format.
pub open spec fn pattern_of(format: TimeFormat) -> Seq<char> {
    match format {
        TimeFormat::Date => "%Y-%m-%d"@,
        TimeFormat::Clock => "%H%M%S"@,
        TimeFormat::DateAndClock => "%Y-%m-%d %H:%M:%S"@,
        TimeFormat::Stamp => "%Y%m%dT%H%M%S"@,
    }
}

/// `chrono::DateTime::from_timestamp` and `format` with a pattern, as text.
/// Trusted: the text depends on the arguments alone. `from_timestamp` has a
/// value for every representable time, and the admitted patterns are valid.
#[verifier::external_body]
fn format_utc(secs: i64, nanos: u32, pattern: &str) -> (text: String)
    requires
        representable(secs as int, nanos as int),
        exists|format: TimeFormat| pattern@ == #[trigger] pattern_of(format),
    ensures
        text@ == utc_format(secs, nanos, pattern@),
{
    chrono::DateTime::from_timestamp(secs, nanos).unwrap().format(pattern).to_string()
}

/// `chrono::DateTime::from_timestamp` and `to_rfc3339`. Trusted: the text
/// depends on the arguments alone.
#[verifier::external_body]
fn rfc3339_utc(secs: i64, nanos: u32) -> (text: String)
    requires
        representable(secs as int, nanos as int),
    ensures
        text@ == utc_rfc3339(secs, nanos),
{
    chrono::DateTime::from_timestamp(secs, nanos).unwrap().to_rfc3339()
}

impl UtcTime {
    #[verifier::type_invariant]
    spec fn is_representable(self) -> bool {
        representable(self.secs as int, self.nanos as int)
    }

    /// The seconds since 1970.
    pub closed spec fn seconds(self) -> i64 {
        self.secs
    }

    /// The nanoseconds into the second.
    pub closed spec fn nanoseconds(self) -> u32 {
        self.nanos
    }

    /// The point in time with these numbers, where there is one.
    pub fn new(secs: i64, nanos: u32) -> (time: Option<UtcTime>)
        ensures
            time is Some <==> representable(secs as int, nanos as int),
            time matches Some(t) ==> t.seconds() == secs && t.nanoseconds() == nanos,
    {
        if secs < -8_334_601_228_800 || secs > 8_210_266_876_799 || nanos >= 2_000_000_000 {
            return None;
        }
        // Whole minutes from the earliest time on, so that the remainder of a
        // negative number does not arise.
        let shifted: i64 = secs + 8_334_601_228_800;
        if nanos >= 1_000_000_000 && shifted % 60 != 59 {
            return None;
        }
        Some(UtcTime { secs, nanos })
    }

    /// The time in one of the library's formats.
    pub fn format(&self, format: TimeFormat) -> (text: String)
        ensures
            text@ == utc_format(self.seconds(), self.nanoseconds(), pattern_of(format)),
    {
        proof {
            use_type_invariant(self);
        }
        let pattern = match format {
            TimeFormat::Date => "%Y-%m-%d",
            TimeFormat::Clock => "%H%M%S",
            TimeFormat::DateAndClock => "%Y-%m-%d %H:%M:%S",
            TimeFormat::Stamp => "%Y%m%dT%H%M%S",
        };
        assert(pattern@ == pattern_of(format));
        format_utc(self.secs, self.nanos, pattern)
    }

    /// The time in the form of RFC 3339.
    pub fn to_rfc3339(&self) -> (text: String)
        ensures
            text@ == utc_rfc3339(self.seconds(), self.nanoseconds()),
    {
        proof {
            use_type_invariant(self);
        }
        rfc3339_utc(self.secs, self.nanos)
    }

    /// The event that an entry becomes at this time.
    pub fn event(&self, entry: LogEntry) -> (event: Event)
        ensures
            event.ts@ == utc_rfc3339(self.seconds(), self.nanoseconds()),
            event.kind == entry.kind,
            event.data == entry.data,
    {
        Event { ts: self.to_rfc3339(), kind: entry.kind, data: entry.data }
    }

    /// The directory of a run that begins at this time.
    pub fn run_dir_name(&self, task_name: &str) -> (name: String)
        ensures
            name@ == run_directory(
                utc_format(self.seconds(), self.nanoseconds(), pattern_of(TimeFormat::Stamp)),
                task_name@,
            ),
    {
        run_dir_name(self.format(TimeFormat::Stamp).as_str(), task_name)
    }
}

/// The name of a run's directory, from its time stamp and its task.
pub open spec fn run_directory(stamp: Seq<char>, task_name: Seq<char>) -> Seq<char> {
    stamp + "_"@ + task_name
}

/// The name of a run's directory, from its time stamp and its task.
pub fn run_dir_name(stamp: &str, task_name: &str) -> (name: String)
    ensures
        name@ == run_directory(stamp@, task_name@),
{
    stamp.to_owned().concat("_").concat(task_name)
}

/// The directory of a run is named by its time and then its task.
pub proof fn law_run_directory_names_both(stamp: Seq<char>, task_name: Seq<char>)
    ensures
        stamp.is_prefix_of(run_directory(stamp, task_name)),
        task_name.is_suffix_of(run_directory(stamp, task_name)),
        run_directory(stamp, task_name).len() == stamp.len() + 1 + task_name.len(),
{
    reveal_strlit("_");
    let name = run_directory(stamp, task_name);
    assert(stamp =~= name.subrange(0, stamp.len() as int));
    assert(task_name =~= name.subrange(name.len() - task_name.len(), name.len() as int));
}

/// A date is written as year, month and day, a time as hour, minute and second, and
/// both together as the one and then the other.
pub proof fn law_formats_agree()
    ensures
        pattern_of(TimeFormat::Date) == "%Y"@ + "-"@ + "%m"@ + "-"@ + "%d"@,
        pattern_of(TimeFormat::Clock) == "%H"@ + "%M"@ + "%S"@,
        pattern_of(TimeFormat::DateAndClock) == pattern_of(TimeFormat::Date) + " "@ + "%H:%M:%S"@,
        pattern_of(TimeFormat::Stamp) == "%Y"@ + "%m"@ + "%d"@ + "T"@ + pattern_of(
            TimeFormat::Clock,
        ),
{
    reveal_strlit("%Y-%m-%d");
    reveal_strlit("%H%M%S");
    reveal_strlit("%Y-%m-%d %H:%M:%S");
    reveal_strlit("%Y%m%dT%H%M%S");
    reveal_strlit("%Y");
    reveal_strlit("%m");
    reveal_strlit("%d");
    reveal_strlit("%H");
    reveal_strlit("%M");
    reveal_strlit("%S");
    reveal_strlit("-");
    reveal_strlit("T");
    reveal_strlit(" ");
    reveal_strlit("%H:%M:%S");
    let date = "%Y"@ + "-"@ + "%m"@ + "-"@ + "%d"@;
    let clock = "%H"@ + "%M"@ + "%S"@;
    assert(pattern_of(TimeFormat::Date) =~= date);
    assert(pattern_of(TimeFormat::Clock) =~= clock);
    assert(pattern_of(TimeFormat::DateAndClock) =~= date + " "@ + "%H:%M:%S"@);
    assert(pattern_of(TimeFormat::Stamp) =~= "%Y"@ + "%m"@ + "%d"@ + "T"@ + clock);
}

} // verus!
