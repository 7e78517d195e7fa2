//! Moments in time, as plain numbers.

use crate::text::trimmed;
use vstd::prelude::*;

verus! {

/// A moment, with the offset of the clock that read it.
///
/// The moment is `secs` whole seconds and `nanos` nanoseconds after the start
/// of 1970 in UTC. `offset` is how far east of UTC the clock stood, in seconds.
#[derive(Debug, Clone, Copy, PartialEq, Eq, Structural)]
pub struct Stamp {
    /// Whole seconds since the start of 1970, UTC.
    pub secs: i64,
    /// Nanoseconds on top of the seconds.
    pub nanos: u32,
    /// Seconds east of UTC.
    pub offset: i32,
}

/// True when `a` is an earlier moment than `b`, wherever the clocks stood.
pub open spec fn is_before(a: Stamp, b: Stamp) -> bool {
    a.secs < b.secs || (a.secs == b.secs && a.nanos < b.nanos)
}

impl Stamp {
    /// True when this moment comes before `other`.
    pub fn before(&self, other: &Stamp) -> (r: bool)
        ensures
            r == is_before(*self, *other),
    {
        self.secs < other.secs || (self.secs == other.secs && self.nanos < other.nanos)
    }
}

/// `chrono`'s reading of a text as an RFC 3339 moment, where it is one.
pub uninterp spec fn rfc3339(text: Seq<char>) -> Option<Stamp>;

/// `chrono`'s RFC 3339 text of a moment, where the calendar reaches it.
pub uninterp spec fn rfc3339_text(stamp: Stamp) -> Option<Seq<char>>;

/// The last second of the year 9998, in UTC.
pub const LAST_PLAIN_SECOND: i64 = 253370764799;

/// True for a moment that its RFC 3339 text holds in full: between 1970 and
/// 9998, no leap second, and a clock that stood whole minutes from UTC.
pub open spec fn is_plain(stamp: Stamp) -> bool {
    &&& 86400 <= stamp.secs <= LAST_PLAIN_SECOND
    &&& stamp.nanos < 1_000_000_000
    &&& -86400 < stamp.offset < 86400
    &&& stamp.offset % 60 == 0
}

/// `chrono::Local::now()`: the time, by the clock of the machine. Which time it
/// is is left open.
#[verifier::external_body]
pub(crate) fn now() -> (r: Stamp) {
    let now = chrono::Local::now().fixed_offset();
    Stamp {
        secs: now.timestamp(),
        nanos: now.timestamp_subsec_nanos(),
        offset: now.offset().local_minus_utc(),
    }
}

/// `chrono::DateTime::parse_from_rfc3339` of a text: a function of the text
/// alone.
#[verifier::external_body]
pub(crate) fn parse_rfc3339(text: &str) -> (r: Option<Stamp>)
    ensures
        r == rfc3339(text@),
{
    let at = chrono::DateTime::parse_from_rfc3339(text).ok()?;
    Some(
        Stamp {
            secs: at.timestamp(),
            nanos: at.timestamp_subsec_nanos(),
            offset: at.offset().local_minus_utc(),
        },
    )
}

/// `chrono::DateTime::to_rfc3339` of a moment. The text of a plain moment has no
/// whitespace around it and is read back as that moment.
#[verifier::external_body]
pub(crate) fn to_rfc3339(stamp: Stamp) -> (r: Option<String>)
    ensures
        r is Some <==> rfc3339_text(stamp) is Some,
        r is Some ==> r.unwrap()@ == rfc3339_text(stamp).unwrap(),
        is_plain(stamp) ==> r is Some && trimmed(r.unwrap()@) == r.unwrap()@ && rfc3339(r.unwrap()@)
            == Some(stamp),
{
    let offset = chrono::FixedOffset::east_opt(stamp.offset)?;
    let at = chrono::DateTime::from_timestamp(stamp.secs, stamp.nanos)?;
    Some(at.with_timezone(&offset).to_rfc3339())
}

/// The order of moments is that of time, wherever the clocks stood: an earlier
/// moment is fewer nanoseconds after the start of 1970.
pub proof fn moments_are_ordered_by_time(a: Stamp, b: Stamp)
    requires
        a.nanos < 1_000_000_000,
        b.nanos < 1_000_000_000,
    ensures
        is_before(a, b) <==> a.secs * 1_000_000_000 + a.nanos < b.secs * 1_000_000_000 + b.nanos,
{
}

} // verus!
