//! Points in time, and how the ledger writes them.
use vstd::prelude::*;

verus! {

/// The RFC 3339 text of a point in time, given in seconds since 1970 and nanoseconds, where it has
/// one.
pub uninterp spec fn rfc3339_text(secs: i64, nanos: u32) -> Option<Seq<char>>;

/// `chrono::Utc::now`, as `timestamp` and `timestamp_subsec_nanos` give it: a point in time not
/// before 1970, which has a text. A clock that is set before 1970 stops the program.
#[verifier::external_body]
fn utc_now() -> (r: (i64, u32))
    ensures
        r.0 >= 0,
        r.1 < 1_000_000_000,
        rfc3339_text(r.0, r.1) is Some,
{
    let now = chrono::Utc::now();
    (now.timestamp(), now.timestamp_subsec_nanos())
}

/// `chrono::DateTime::from_timestamp` and `to_rfc3339`: the text depends on the point in time alone,
/// and every point within some 250 000 years of 1970 has one.
#[verifier::external_body]
fn rfc3339(secs: i64, nanos: u32) -> (r: Option<String>)
    ensures
        match r {
            Some(s) => rfc3339_text(secs, nanos) == Some(s@),
            None => rfc3339_text(secs, nanos) is None,
        },
        -8_000_000_000_000 <= secs <= 8_000_000_000_000 && nanos < 1_000_000_000 ==> r is Some,
{
    chrono::DateTime::from_timestamp(secs, nanos).map(|t| t.to_rfc3339())
}

/// A point in time: seconds since 1970, and nanoseconds.
#[derive(Debug, Clone, Copy, PartialEq, Eq, Structural)]
pub struct Instant {
    pub secs: i64,
    pub nanos: u32,
}

/// The longest span, in seconds, that can be subtracted from a point in time.
pub const MAX_SPAN: i64 = 9_223_372_036_854_775;

/// The seconds of `days` days, where a span can hold them.
pub open spec fn span_of(days: i64) -> Option<int> {
    if days * 86_400 <= MAX_SPAN {
        Some(days * 86_400)
    } else {
        None
    }
}

/// The point in time `days` days before `now`, as text, where there is such a point.
pub open spec fn cutoff_view(now: Instant, days: i64) -> Option<Seq<char>> {
    match span_of(days) {
        Some(span) => if now.secs - span < i64::MIN {
            None
        } else {
            rfc3339_text((now.secs - span) as i64, now.nanos)
        },
        None => None,
    }
}

/// A point in time that a clock can show: not before 1970, and with a text.
pub open spec fn on_a_clock(t: Instant) -> bool {
    t.secs >= 0 && t.nanos < 1_000_000_000 && rfc3339_text(t.secs, t.nanos) is Some
}

impl Instant {
    /// The present.
    pub fn now() -> (r: Instant)
        ensures
            on_a_clock(r),
    {
        let (secs, nanos) = utc_now();
        Instant { secs, nanos }
    }

    /// This point in time as text; `None` where it lies too far from 1970.
    pub fn to_rfc3339(&self) -> (r: Option<String>)
        ensures
            match r {
                Some(s) => rfc3339_text(self.secs, self.nanos) == Some(s@),
                None => rfc3339_text(self.secs, self.nanos) is None,
            },
    {
        rfc3339(self.secs, self.nanos)
    }

    /// The point in time `days` days before this one, as text; `None` where it lies too far from
    /// 1970, or the span is too long to subtract: nothing is that old.
    pub fn days_before(&self, days: i64) -> (r: Option<String>)
        requires
            days > 0,
        ensures
            match r {
                Some(s) => cutoff_view(*self, days) == Some(s@),
                None => cutoff_view(*self, days) is None,
            },
            0 <= self.secs <= 8_000_000_000_000 && self.nanos < 1_000_000_000 && days <= 92_000_000
                ==> r is Some,
    {
        let span: i128 = days as i128 * 86_400;
        if span > MAX_SPAN as i128 {
            return None;
        }
        let secs: i128 = self.secs as i128 - span;
        if secs < i64::MIN as i128 {
            return None;
        }
        rfc3339(secs as i64, self.nanos)
    }
}

} // verus!
