//! Which port the interceptor listens on.
use crate::text;
use vstd::prelude::*;

verus! {

/// Default interceptor port; the scan for a free port starts here.
pub const DEFAULT_PORT: u16 = 8787;

/// How many ports past the first one a scan tries.
pub const SCAN_SPAN: u16 = 64;

/// Which port to wire: a definite one, or where to start looking for a free one.
#[derive(Debug, Clone, Copy, PartialEq, Eq, Structural)]
pub enum PortChoice {
    /// Use exactly this port.
    Use(u16),
    /// No port is pinned: scan upward from here for the first free one.
    ScanFrom(u16),
}

/// No port from `start` up to `end` was free.
#[derive(Debug, Clone, Copy, PartialEq, Eq, Structural)]
pub struct NoFreePort {
    pub start: u16,
    pub end: u16,
}

/// The port that is pinned: what the user asked for, else what a live daemon serves, else what the
/// environment is wired to.
pub open spec fn pinned(
    explicit: Option<u16>,
    running: Option<u16>,
    configured: Option<u16>,
) -> Option<u16> {
    if explicit is Some {
        explicit
    } else if running is Some {
        running
    } else {
        configured
    }
}

/// The last port of a scan that starts at `start`.
pub open spec fn scan_end(start: u16, span: u16) -> u16 {
    if start + span > 0xffff {
        0xffff
    } else {
        (start + span) as u16
    }
}

/// The port that is pinned, if any.
pub fn pinned_port(explicit: Option<u16>, running: Option<u16>, configured: Option<u16>) -> (r:
    Option<u16>)
    ensures
        r == pinned(explicit, running, configured),
{
    if explicit.is_some() {
        explicit
    } else if running.is_some() {
        running
    } else {
        configured
    }
}

/// Decides the port without scanning: the pinned port, else a scan from the default.
pub fn choose_port(explicit: Option<u16>, running: Option<u16>, configured: Option<u16>) -> (r:
    PortChoice)
    ensures
        r == match pinned(explicit, running, configured) {
            Some(p) => PortChoice::Use(p),
            None => PortChoice::ScanFrom(DEFAULT_PORT),
        },
{
    match pinned_port(explicit, running, configured) {
        Some(p) => PortChoice::Use(p),
        None => PortChoice::ScanFrom(DEFAULT_PORT),
    }
}

/// The first port from `start` up to `span` past it that `probe` accepts; `None` when it accepts
/// none of them.
pub fn first_free_port<F: Fn(u16) -> bool>(start: u16, span: u16, probe: F) -> (r: Option<u16>)
    requires
        forall|p: u16| start <= p <= scan_end(start, span) ==> call_requires(probe, (p,)),
    ensures
        match r {
            Some(p) => {
                &&& start <= p <= scan_end(start, span)
                &&& call_ensures(probe, (p,), true)
                &&& forall|q: u16| start <= q < p ==> #[trigger] call_ensures(probe, (q,), false)
            },
            None => forall|q: u16|
                start <= q <= scan_end(start, span) ==> #[trigger] call_ensures(
                    probe,
                    (q,),
                    false,
                ),
        },
{
    let end: u16 = if span > 0xffff - start {
        0xffff
    } else {
        start + span
    };
    let mut p: u16 = start;
    loop
        invariant
            end == scan_end(start, span),
            start <= p <= end,
            forall|q: u16| start <= q <= end ==> call_requires(probe, (q,)),
            forall|q: u16| start <= q < p ==> #[trigger] call_ensures(probe, (q,), false),
        decreases end - p,
    {
        if probe(p) {
            return Some(p);
        }
        if p == end {
            return None;
        }
        p = p + 1;
    }
}

/// The port to wire: the pinned one, or the first free one from the default upward where none is.
pub fn resolve_port<F: Fn(u16) -> bool>(
    explicit: Option<u16>,
    running: Option<u16>,
    configured: Option<u16>,
    probe: F,
) -> (r: Result<u16, NoFreePort>)
    requires
        forall|p: u16|
            DEFAULT_PORT <= p <= DEFAULT_PORT + SCAN_SPAN ==> call_requires(probe, (p,)),
    ensures
        match pinned(explicit, running, configured) {
            Some(p) => r == Ok::<u16, NoFreePort>(p),
            None => match r {
                Ok(p) => {
                    &&& DEFAULT_PORT <= p <= DEFAULT_PORT + SCAN_SPAN
                    &&& call_ensures(probe, (p,), true)
                    &&& forall|q: u16|
                        DEFAULT_PORT <= q < p ==> #[trigger] call_ensures(probe, (q,), false)
                },
                Err(e) => {
                    &&& e.start == DEFAULT_PORT
                    &&& e.end == DEFAULT_PORT + SCAN_SPAN
                    &&& forall|q: u16|
                        DEFAULT_PORT <= q <= DEFAULT_PORT + SCAN_SPAN
                            ==> #[trigger] call_ensures(probe, (q,), false)
                },
            },
        },
{
    match choose_port(explicit, running, configured) {
        PortChoice::Use(p) => Ok(p),
        PortChoice::ScanFrom(start) => match first_free_port(start, SCAN_SPAN, probe) {
            Some(p) => Ok(p),
            None => Err(NoFreePort { start, end: start + SCAN_SPAN }),
        },
    }
}

impl NoFreePort {
    /// The text of this error.
    pub open spec fn text(self) -> Seq<char> {
        "no free port in "@ + text::decimal(self.start as nat) + "..="@ + text::decimal(
            self.end as nat,
        )
    }

    /// The text of this error.
    pub fn message(&self) -> (r: String)
        ensures
            r@ == self.text(),
    {
        let mut out = "no free port in ".to_owned();
        out.append(text::decimal_text(self.start as u64).as_str());
        out.append("..=");
        out.append(text::decimal_text(self.end as u64).as_str());
        out
    }
}

// ---------------------------------------------------------------------------------------------
// The port that is wired already
// ---------------------------------------------------------------------------------------------

/// The address of the interceptor on `port`.
pub open spec fn proxy_url_view(port: u16) -> Seq<char> {
    "http://127.0.0.1:"@ + text::decimal(port as nat)
}

/// How many decimal digits `s` begins with.
pub open spec fn digit_run(s: Seq<char>) -> nat
    decreases s.len(),
{
    if s.len() > 0 && text::is_digit(s[0]) {
        1 + digit_run(s.drop_first())
    } else {
        0
    }
}

/// What stands between the first occurrence of `pat` in `s` and the next one, or the end of `s`.
pub open spec fn after_first(s: Seq<char>, pat: Seq<char>) -> Option<Seq<char>> {
    match text::first_at(s, pat, 0) {
        Some(i) => {
            let start = i + pat.len();
            match text::first_at(s, pat, start) {
                Some(j) => Some(s.subrange(start, j)),
                None => Some(s.skip(start)),
            }
        },
        None => None,
    }
}

/// The port that a text wires: the number right after the first `127.0.0.1:`.
pub open spec fn wired_port(s: Seq<char>) -> Option<u16> {
    match after_first(s, "127.0.0.1:"@) {
        Some(after) => match text::digits_up_to(after.take(digit_run(after) as int), 0xffff) {
            Some(n) => Some(n as u16),
            None => None,
        },
        None => None,
    }
}

/// The address of the interceptor on `port`.
pub fn proxy_url(port: u16) -> (r: String)
    ensures
        r@ == proxy_url_view(port),
{
    let mut out = "http://127.0.0.1:".to_owned();
    out.append(text::decimal_text(port as u64).as_str());
    out
}

/// The port from a local proxy address anywhere in `s`: the number right after `127.0.0.1:`.
pub fn parse_proxy_port(s: &str) -> (r: Option<u16>)
    ensures
        r == wired_port(s@),
{
    let v = text::chars_of(s);
    let total: usize = v.len();
    let pat = text::chars_of("127.0.0.1:");
    let at = match text::find_from(v.as_slice(), pat.as_slice(), 0) {
        Some(i) => i,
        None => {
            return None;
        },
    };
    proof {
        text::lemma_first_at(v@, pat@, 0);
    }
    let start: usize = at + pat.len();
    let end: usize = match text::find_from(v.as_slice(), pat.as_slice(), start) {
        Some(j) => j,
        None => total,
    };
    proof {
        text::lemma_first_at(v@, pat@, start as int);
    }
    let ghost after = v@.subrange(start as int, end as int);
    assert(after_first(s@, "127.0.0.1:"@) == Some(after)) by {
        assert(v@.skip(start as int) =~= v@.subrange(start as int, v@.len() as int));
    }
    let mut k: usize = start;
    assert(after.skip(0) =~= after);
    while k < end && v[k] >= '0' && v[k] <= '9'
        invariant
            start <= k <= end <= v@.len(),
            after == v@.subrange(start as int, end as int),
            digit_run(after) == k - start + digit_run(after.skip(k - start)),
        decreases end - k,
    {
        assert(after.skip(k - start)[0] == v@[k as int]);
        assert(after.skip(k - start).drop_first() =~= after.skip(k + 1 - start));
        k = k + 1;
    }
    assert(k < end ==> after.skip(k - start)[0] == v@[k as int]);
    assert(digit_run(after) == k - start);
    assert(v@.subrange(start as int, k as int) =~= after.take(k - start));
    match text::read_digits(v.as_slice(), start, k, 0xffff) {
        Some(n) => Some(n as u16),
        None => None,
    }
}

} // verus!
