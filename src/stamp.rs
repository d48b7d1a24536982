use vstd::prelude::*;

verus! {

/// The layout of the timestamp that opens each log line.
pub const DATE_FORMAT: &'static str = "%Y-%m-%dT%H:%M:%S%.6f";

/// A point in time: whole seconds since the Unix epoch and the nanoseconds
/// past them (beyond a billion during a leap second).
#[derive(Clone, Copy, Debug, PartialEq, Eq, Structural)]
pub struct Stamp {
    pub secs: i64,
    pub nanos: u32,
}

/// Strict chronological order on stamps.
pub open spec fn stamp_lt(a: Stamp, b: Stamp) -> bool {
    a.secs < b.secs || (a.secs == b.secs && a.nanos < b.nanos)
}

/// Chronological order on stamps, equal stamps included.
pub open spec fn stamp_le(a: Stamp, b: Stamp) -> bool {
    stamp_lt(a, b) || a == b
}

/// What the date parser gives for a text and a format: the seconds since the
/// epoch and the sub-second nanoseconds, or nothing where the text does not fit.
pub uninterp spec fn parsed_date_time(text: Seq<char>, format: Seq<char>) -> Option<(i64, u32)>;

/// Relies on chrono's `NaiveDateTime::parse_from_str`, read back through
/// `timestamp` and `timestamp_subsec_nanos`: the result depends on the two
/// texts alone. With `DATE_FORMAT` the parse only reads fields of a calendar
/// date and never goes through a raw timestamp.
#[verifier::external_body]
fn parse_date_time(text: &str, format: &str) -> (r: Option<(i64, u32)>)
    requires
        format@ == DATE_FORMAT@,
    ensures
        r == parsed_date_time(text@, format@),
{
    match chrono::NaiveDateTime::parse_from_str(text, format) {
        Ok(d) => Some((d.timestamp(), d.timestamp_subsec_nanos())),
        Err(_) => None,
    }
}

/// The stamp of a date text in `DATE_FORMAT`, if it is one.
pub open spec fn stamp_of(text: Seq<char>) -> Option<Stamp> {
    match parsed_date_time(text, DATE_FORMAT@) {
        Some((secs, nanos)) => Some(Stamp { secs, nanos }),
        None => None,
    }
}

/// Parses a date text written in `DATE_FORMAT`.
pub fn parse_stamp(text: &str) -> (r: Option<Stamp>)
    ensures
        r == stamp_of(text@),
{
    match parse_date_time(text, DATE_FORMAT) {
        Some((secs, nanos)) => Some(Stamp { secs, nanos }),
        None => None,
    }
}

/// The latest second since the epoch that the calendar reaches
/// (262143-12-31T23:59:59).
pub const MAX_TIMESTAMP: i64 = 8210298412799;

/// Whether a clock reading and an uptime give a boot time: the uptime is not
/// negative, does not reach before the epoch, and leaves a time within the
/// calendar.
pub open spec fn boot_readable(now_secs: int, uptime_secs: int) -> bool {
    0 <= uptime_secs <= now_secs && now_secs - uptime_secs <= MAX_TIMESTAMP
}

/// The moment of the last boot, to the whole second, from the current time
/// in seconds since the epoch and the uptime in seconds.
pub fn boot_stamp(now_secs: u64, uptime_secs: i64) -> (r: Stamp)
    requires
        boot_readable(now_secs as int, uptime_secs as int),
    ensures
        r.secs == now_secs - uptime_secs,
        r.nanos == 0,
{
    let secs: u64 = now_secs - uptime_secs as u64;
    Stamp { secs: secs as i64, nanos: 0 }
}

/// Compares two stamps in chronological order.
pub fn stamp_less(a: Stamp, b: Stamp) -> (r: bool)
    ensures
        r == stamp_lt(a, b),
{
    a.secs < b.secs || (a.secs == b.secs && a.nanos < b.nanos)
}

} // verus!
