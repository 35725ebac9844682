//! Points in time in UTC, as whole seconds since the Unix epoch and the
//! nanoseconds past that second, read from the system clock.
use vstd::prelude::*;

verus! {

/// A point in time: `secs` whole seconds after 1970-01-01 00:00:00 UTC (before
/// it where negative) and `nanos` nanoseconds more.
#[derive(Clone, Copy, PartialEq, Eq, Structural, Debug)]
pub struct Timestamp {
    pub secs: i64,
    pub nanos: u32,
}

impl Timestamp {
    /// Whether `self` comes strictly before `other`.
    pub open spec fn earlier(self, other: Timestamp) -> bool {
        self.secs < other.secs || (self.secs == other.secs && self.nanos < other.nanos)
    }
}

/// The current time, from `chrono::Utc::now`, split into the whole seconds
/// since the epoch (`DateTime::timestamp`) and the nanoseconds past them
/// (`DateTime::timestamp_subsec_nanos`). Of the clock's reading nothing is
/// claimed but that the nanoseconds stay under two seconds' worth, as chrono's
/// times do (the second beyond a full second stands for a leap second).
#[verifier::external_body]
pub(crate) fn now() -> (t: Timestamp)
    ensures
        t.nanos < 2_000_000_000,
{
    let t = chrono::Utc::now();
    Timestamp { secs: t.timestamp(), nanos: t.timestamp_subsec_nanos() }
}

/// The text chrono writes for the UTC date and time `secs` seconds and
/// `nanos` nanoseconds after the epoch (`NaiveDateTime`'s `Display`, such as
/// `2015-05-15 00:00:00`), or `None` where chrono cannot represent the time.
pub uninterp spec fn naive_time_text(secs: i64, nanos: u32) -> Option<Seq<char>>;

/// Writes the time out as `chrono::DateTime::from_timestamp` and the `Display`
/// of its `naive_utc` give it. Claimed: the result is [`naive_time_text`] of
/// the time.
#[verifier::external_body]
pub(crate) fn time_text(t: Timestamp) -> (text: Option<String>)
    ensures
        match text {
            Some(s) => naive_time_text(t.secs, t.nanos) == Some(s@),
            None => naive_time_text(t.secs, t.nanos) is None,
        },
{
    chrono::DateTime::from_timestamp(t.secs, t.nanos).map(|d| d.naive_utc().to_string())
}

} // verus!
