//! Instants, time-to-live spans, and the text forms of durations.
use vstd::prelude::*;
use std::time::Duration;
use crate::text::{
    chars_of, decimal, is_white, lowercase_of, owned, push_char, push_decimal, str_eq,
    string_from_range, to_lower, trim_str, trimmed_of,
};

verus! {

broadcast use vstd::string::group_string_axioms;

pub const NANOS_PER_SEC: u64 = 1_000_000_000;

/// The last instant that `chrono::DateTime<Utc>` can hold, as seconds since
/// the Unix epoch (December 31, 262142, 23:59:59 UTC).
pub const MAX_INSTANT_SECS: i64 = 8_210_266_876_799;

/// A point in time: seconds and nanoseconds since the Unix epoch, the
/// components `chrono` reports for a UTC instant.
#[derive(Clone, Copy, Debug, PartialEq, Eq, Structural)]
pub struct Timestamp {
    pub secs: i64,
    pub nanos: u32,
}

impl Timestamp {
    /// Nanoseconds since the epoch.
    pub open spec fn total(self) -> int {
        self.secs * 1_000_000_000 + self.nanos
    }

    /// The components are in range.
    pub open spec fn wf(self) -> bool {
        self.nanos < 1_000_000_000
    }

    /// Whether `self` is strictly later than `other`.
    pub fn is_after(&self, other: &Timestamp) -> (r: bool)
        requires
            self.wf(),
            other.wf(),
        ensures
            r == (self.total() > other.total()),
    {
        self.secs > other.secs || (self.secs == other.secs && self.nanos > other.nanos)
    }
}

/// The first instant that `chrono::DateTime<Utc>` can hold, as seconds since
/// the Unix epoch (January 1, -262143, 00:00:00 UTC).
pub const MIN_INSTANT_SECS: i64 = -8_334_601_315_200;

/// The earliest instant `chrono` can represent, in nanoseconds.
pub open spec fn min_instant_total() -> int {
    MIN_INSTANT_SECS * 1_000_000_000
}

/// Whether an instant lies in the range `chrono` can represent.
pub open spec fn representable(t: Timestamp) -> bool {
    t.wf() && min_instant_total() <= t.total() <= max_instant_total()
}

/// The latest instant `chrono` can represent, in nanoseconds.
pub open spec fn max_instant_total() -> int {
    MAX_INSTANT_SECS * 1_000_000_000 + 999_999_999
}

/// Reads the system clock through `chrono::Utc::now`, taking the seconds and
/// the sub-second nanoseconds of the instant it returns.  Nothing is known of
/// the instant but that its nanoseconds are below one second and that it lies
/// in the range `chrono` can represent.
#[verifier::external_body]
pub fn clock_now() -> (r: Timestamp)
    ensures
        r.wf(),
        r.total() <= max_instant_total(),
        representable(r),
{
    let t = chrono::Utc::now();
    Timestamp { secs: t.timestamp(), nanos: t.timestamp_subsec_nanos() }
}

/// A non-negative span of time, kept as whole seconds and nanoseconds.
#[derive(Clone, Copy, Debug, PartialEq, Eq, Structural)]
pub struct Ttl {
    secs: u64,
    nanos: u32,
}

/// Longest span `chrono::TimeDelta` accepts: `i64::MAX` milliseconds.
pub open spec fn max_delta_total() -> int {
    9_223_372_036_854_775_807int * 1_000_000
}

impl Ttl {
    #[verifier::type_invariant]
    spec fn inv(self) -> bool {
        self.nanos < 1_000_000_000
    }

    /// Whole seconds of the span.
    pub closed spec fn secs_of(self) -> nat {
        self.secs as nat
    }

    /// Sub-second nanoseconds of the span.
    pub closed spec fn nanos_of(self) -> nat {
        self.nanos as nat
    }

    /// Length of the span in nanoseconds.
    pub open spec fn total(self) -> nat {
        self.secs_of() * 1_000_000_000 + self.nanos_of()
    }

    /// A span of `secs` seconds and `nanos` nanoseconds.
    pub fn from_parts(secs: u64, nanos: u32) -> (r: Ttl)
        requires
            nanos < 1_000_000_000,
        ensures
            r.secs_of() == secs,
            r.nanos_of() == nanos,
    {
        Ttl { secs, nanos }
    }

    /// A span equal to a `std::time::Duration`.
    pub fn new(duration: Duration) -> (r: Ttl)
        ensures
            r.secs_of() == duration_secs(duration),
            r.nanos_of() == duration_subsec_nanos(duration),
    {
        Ttl { secs: duration.as_secs(), nanos: duration.subsec_nanos() }
    }

    /// A span of `secs` seconds.
    pub fn from_secs(secs: u64) -> (r: Ttl)
        ensures
            r.secs_of() == secs,
            r.nanos_of() == 0,
    {
        Ttl { secs, nanos: 0 }
    }

    /// A span of `millis` milliseconds.
    pub fn from_millis(millis: u64) -> (r: Ttl)
        ensures
            r.total() == millis * 1_000_000,
    {
        let r = Ttl { secs: millis / 1000, nanos: ((millis % 1000) * 1_000_000) as u32 };
        assert(r.total() == millis * 1_000_000) by (nonlinear_arith)
            requires
                r.secs_of() == millis / 1000,
                r.nanos_of() == (millis % 1000) * 1_000_000,
        {
        }
        r
    }

    /// A span of `mins` minutes.
    pub fn from_mins(mins: u64) -> (r: Ttl)
        requires
            mins * 60 <= u64::MAX,
        ensures
            r.secs_of() == mins * 60,
            r.nanos_of() == 0,
    {
        Ttl { secs: mins * 60, nanos: 0 }
    }

    /// A span of `hours` hours.
    pub fn from_hours(hours: u64) -> (r: Ttl)
        requires
            hours * 3600 <= u64::MAX,
        ensures
            r.secs_of() == hours * 3600,
            r.nanos_of() == 0,
    {
        Ttl { secs: hours * 3600, nanos: 0 }
    }

    /// A span of `days` days.
    pub fn from_days(days: u64) -> (r: Ttl)
        requires
            days * 86400 <= u64::MAX,
        ensures
            r.secs_of() == days * 86400,
            r.nanos_of() == 0,
    {
        Ttl { secs: days * 86400, nanos: 0 }
    }

    /// The span as a `std::time::Duration`.
    pub fn as_duration(&self) -> (r: Duration)
        ensures
            duration_secs(r) == self.secs_of(),
            duration_subsec_nanos(r) == self.nanos_of(),
    {
        proof {
            use_type_invariant(self);
        }
        Duration::new(self.secs, self.nanos)
    }

    /// Whole seconds of the span.
    pub fn as_secs(&self) -> (r: u64)
        ensures
            r == self.secs_of(),
    {
        self.secs
    }

    /// Sub-second nanoseconds of the span.
    pub fn subsec_nanos(&self) -> (r: u32)
        ensures
            r == self.nanos_of(),
            r < 1_000_000_000,
    {
        proof {
            use_type_invariant(self);
        }
        self.nanos
    }

    /// Whole milliseconds of the span.
    pub fn as_millis(&self) -> (r: u128)
        ensures
            r == self.total() / 1_000_000,
    {
        proof {
            use_type_invariant(self);
        }
        let r = (self.secs as u128) * 1000 + (self.nanos / 1_000_000) as u128;
        assert(r == self.total() / 1_000_000) by (nonlinear_arith)
            requires
                r == self.secs_of() * 1000 + self.nanos_of() / 1_000_000,
                self.nanos_of() < 1_000_000_000,
                self.total() == self.secs_of() * 1_000_000_000 + self.nanos_of(),
        {
        }
        r
    }

    /// The displayed form of the span (see `ttl_text`).
    pub fn to_string(&self) -> (r: String)
        ensures
            r@ == ttl_text(self.secs_of(), self.nanos_of()),
    {
        proof {
            use_type_invariant(self);
        }
        let secs = self.secs;
        let mut out = String::new();
        if secs >= 86400 && secs % 86400 == 0 {
            push_decimal(&mut out, (secs / 86400) as u128);
            push_char(&mut out, 'd');
        } else if secs >= 3600 && secs % 3600 == 0 {
            push_decimal(&mut out, (secs / 3600) as u128);
            push_char(&mut out, 'h');
        } else if secs >= 60 && secs % 60 == 0 {
            push_decimal(&mut out, (secs / 60) as u128);
            push_char(&mut out, 'm');
        } else if secs > 0 {
            push_decimal(&mut out, secs as u128);
            push_char(&mut out, 's');
        } else {
            push_decimal(&mut out, self.as_millis());
            push_char(&mut out, 'm');
            push_char(&mut out, 's');
        }
        out
    }

    /// The end of a span of this length starting at `start`, as `chrono`
    /// computes `start + TimeDelta::from_std(span).unwrap_or_default()`:
    /// spans longer than `chrono` accepts count as zero.
    pub fn added_to(&self, start: &Timestamp) -> (r: Timestamp)
        requires
            start.wf(),
            start.total() + delta_of(self.total()) <= max_instant_total(),
        ensures
            r.wf(),
            r.total() == start.total() + delta_of(self.total()),
    {
        proof {
            use_type_invariant(self);
        }
        // 9_223_372_036_854_775 whole seconds and 807_000_000 nanoseconds is
        // the longest span chrono takes.
        let fits = self.secs < 9_223_372_036_854_775
            || (self.secs == 9_223_372_036_854_775 && self.nanos <= 807_000_000);
        if !fits {
            return *start;
        }
        assert(self.secs <= 8_210_266_876_800 + 1_000_000_000_000_000_000) by {
            assert(self.total() <= max_delta_total());
        }
        let mut secs: i128 = start.secs as i128 + self.secs as i128;
        let mut nanos: u64 = start.nanos as u64 + self.nanos as u64;
        if nanos >= 1_000_000_000 {
            nanos = nanos - 1_000_000_000;
            secs = secs + 1;
        }
        assert(secs * 1_000_000_000 + nanos == start.total() + self.total()) by (nonlinear_arith)
            requires
                secs * 1_000_000_000 + nanos == start.secs * 1_000_000_000 + self.secs * 1_000_000_000 + start.nanos + self.nanos,
        {
        }
        assert(secs <= MAX_INSTANT_SECS) by (nonlinear_arith)
            requires
                secs * 1_000_000_000 + nanos <= MAX_INSTANT_SECS * 1_000_000_000 + 999_999_999,
                0 <= nanos,
        {
        }
        Timestamp { secs: secs as i64, nanos: nanos as u32 }
    }
}

/// What `TimeDelta::from_std(span).unwrap_or_default()` keeps of a span of
/// `total` nanoseconds: all of it when it fits, nothing otherwise.
pub open spec fn delta_of(total: nat) -> nat {
    if total <= max_delta_total() { total } else { 0 }
}

/// The displayed form of a span of `secs` seconds and `nanos` nanoseconds:
/// whole days, hours or minutes when the seconds are a positive multiple of
/// them ("2d", "3h", "5m"), otherwise seconds ("30s"), and milliseconds
/// ("500ms") when there are no whole seconds.
pub open spec fn ttl_text(secs: nat, nanos: nat) -> Seq<char> {
    if secs >= 86400 && secs % 86400 == 0 {
        decimal(secs / 86400).push('d')
    } else if secs >= 3600 && secs % 3600 == 0 {
        decimal(secs / 3600).push('h')
    } else if secs >= 60 && secs % 60 == 0 {
        decimal(secs / 60).push('m')
    } else if secs > 0 {
        decimal(secs).push('s')
    } else {
        decimal(nanos / 1_000_000).push('m').push('s')
    }
}

/// Formats a `std::time::Duration` in the way `Ttl::to_string` does.
pub fn format_duration(d: Duration) -> (r: String)
    ensures
        r@ == ttl_text(duration_secs(d) as nat, duration_subsec_nanos(d) as nat),
{
    Ttl::new(d).to_string()
}

// ---------------------------------------------------------------------------
// std::time::Duration
// ---------------------------------------------------------------------------

/// The whole seconds of a `Duration`, as `Duration::as_secs` gives them.
pub uninterp spec fn duration_secs(d: Duration) -> u64;

/// The sub-second nanoseconds of a `Duration`, as `Duration::subsec_nanos`
/// gives them.
pub uninterp spec fn duration_subsec_nanos(d: Duration) -> u32;

/// `Duration::as_secs`: the whole seconds of the duration.
pub assume_specification[ core::time::Duration::as_secs ](d: &Duration) -> (r: u64)
    ensures
        r == duration_secs(*d),
;

/// `Duration::subsec_nanos`: the fractional part in nanoseconds, always
/// below one second.
pub assume_specification[ core::time::Duration::subsec_nanos ](d: &Duration) -> (r: u32)
    ensures
        r == duration_subsec_nanos(*d),
        r < 1_000_000_000,
;

/// `Duration::new`: nanoseconds of a second or more carry over into the
/// seconds; it panics where that carry overflows, which `requires` rules out.
pub assume_specification[ core::time::Duration::new ](secs: u64, nanos: u32) -> (r: Duration)
    requires
        secs + nanos / 1_000_000_000 <= u64::MAX,
    ensures
        duration_secs(r) == secs + nanos / 1_000_000_000,
        duration_subsec_nanos(r) == nanos % 1_000_000_000,
;

// ---------------------------------------------------------------------------
// Duration text: "30s", "5m", "1.5h", "100ms"
// ---------------------------------------------------------------------------

/// Units a duration text may name.
#[derive(Clone, Copy, Debug, PartialEq, Eq, Structural)]
pub enum DurationUnit {
    Milliseconds,
    Seconds,
    Minutes,
    Hours,
    Days,
}

/// The unit named by an already lower-cased unit word; no word means seconds.
pub open spec fn unit_named(u: Seq<char>) -> Option<DurationUnit> {
    if u == "ms"@ || u == "millis"@ || u == "milliseconds"@ {
        Some(DurationUnit::Milliseconds)
    } else if u == "s"@ || u == "sec"@ || u == "secs"@ || u == "second"@ || u == "seconds"@ || u.len() == 0 {
        Some(DurationUnit::Seconds)
    } else if u == "m"@ || u == "min"@ || u == "mins"@ || u == "minute"@ || u == "minutes"@ {
        Some(DurationUnit::Minutes)
    } else if u == "h"@ || u == "hr"@ || u == "hrs"@ || u == "hour"@ || u == "hours"@ {
        Some(DurationUnit::Hours)
    } else if u == "d"@ || u == "day"@ || u == "days"@ {
        Some(DurationUnit::Days)
    } else {
        None
    }
}

/// A character that may belong to the numeric part: an ASCII digit or a dot.
pub open spec fn numeric_char(c: char) -> bool {
    ('0' <= c && c <= '9') || c == '.'
}

/// Length of the longest prefix of `s` made of numeric characters.
pub open spec fn numeric_prefix_len(s: Seq<char>) -> nat
    decreases s.len(),
{
    if s.len() == 0 || !numeric_char(s[0]) {
        0
    } else {
        1 + numeric_prefix_len(s.drop_first())
    }
}

/// A duration text split into its number and its unit.
#[derive(Debug)]
pub struct DurationText {
    /// The numeric part, made of digits and dots.
    pub number: String,
    /// The unit the text names.
    pub unit: DurationUnit,
}

/// How a duration text splits: trimmed, a non-empty numeric prefix, then a
/// unit word (itself trimmed and lower-cased) that names a known unit.
pub open spec fn duration_split(s: Seq<char>) -> Option<(Seq<char>, DurationUnit)> {
    let t = trimmed_of(s);
    let n = numeric_prefix_len(t);
    if t.len() == 0 || n == 0 {
        None
    } else {
        match unit_named(lowercase_of(trimmed_of(t.skip(n as int)))) {
            Some(u) => Some((t.take(n as int), u)),
            None => None,
        }
    }
}

proof fn lemma_numeric_prefix(s: Seq<char>, i: int)
    requires
        0 <= i <= s.len(),
        forall|j: int| 0 <= j < i ==> numeric_char(s[j]),
        i == s.len() || !numeric_char(s[i]),
    ensures
        numeric_prefix_len(s) == i,
    decreases i,
{
    if i > 0 {
        lemma_numeric_prefix(s.drop_first(), i - 1);
    }
}

fn unit_of(u: &str) -> (r: Option<DurationUnit>)
    ensures
        r == unit_named(u@),
{
    proof {
        reveal_strlit("ms");
        reveal_strlit("millis");
        reveal_strlit("milliseconds");
        reveal_strlit("s");
        reveal_strlit("sec");
        reveal_strlit("secs");
        reveal_strlit("second");
        reveal_strlit("seconds");
        reveal_strlit("m");
        reveal_strlit("min");
        reveal_strlit("mins");
        reveal_strlit("minute");
        reveal_strlit("minutes");
        reveal_strlit("h");
        reveal_strlit("hr");
        reveal_strlit("hrs");
        reveal_strlit("hour");
        reveal_strlit("hours");
        reveal_strlit("d");
        reveal_strlit("day");
        reveal_strlit("days");
    }
    if str_eq(u, "ms") || str_eq(u, "millis") || str_eq(u, "milliseconds") {
        Some(DurationUnit::Milliseconds)
    } else if str_eq(u, "s") || str_eq(u, "sec") || str_eq(u, "secs") || str_eq(u, "second")
        || str_eq(u, "seconds") || u.is_empty() {
        Some(DurationUnit::Seconds)
    } else if str_eq(u, "m") || str_eq(u, "min") || str_eq(u, "mins") || str_eq(u, "minute")
        || str_eq(u, "minutes") {
        Some(DurationUnit::Minutes)
    } else if str_eq(u, "h") || str_eq(u, "hr") || str_eq(u, "hrs") || str_eq(u, "hour")
        || str_eq(u, "hours") {
        Some(DurationUnit::Hours)
    } else if str_eq(u, "d") || str_eq(u, "day") || str_eq(u, "days") {
        Some(DurationUnit::Days)
    } else {
        None
    }
}

/// Splits a duration text such as "30s", " 1.5 h " or "100ms" into its
/// numeric part and its unit; `None` when the text is blank, does not start
/// with a digit or dot, or names an unknown unit.
pub fn split_duration(s: &str) -> (r: Option<DurationText>)
    ensures
        match duration_split(s@) {
            None => r is None,
            Some((num, unit)) => r matches Some(t) && t.number@ == num && t.unit == unit,
        },
{
    let t = trim_str(s);
    let cs = chars_of(t);
    if cs.len() == 0 {
        return None;
    }
    let mut n: usize = 0;
    while n < cs.len() && ((cs[n] >= '0' && cs[n] <= '9') || cs[n] == '.')
        invariant
            n <= cs@.len(),
            forall|j: int| 0 <= j < n ==> numeric_char(cs@[j]),
        decreases cs@.len() - n,
    {
        n = n + 1;
    }
    proof {
        lemma_numeric_prefix(cs@, n as int);
    }
    if n == 0 {
        return None;
    }
    let number = string_from_range(&cs, 0, n);
    let rest = string_from_range(&cs, n, cs.len());
    let unit_word = to_lower(trim_str(rest.as_str()));
    assert(cs@.subrange(n as int, cs@.len() as int) =~= cs@.skip(n as int));
    assert(cs@.subrange(0, n as int) =~= cs@.take(n as int));
    match unit_of(unit_word.as_str()) {
        Some(unit) => Some(DurationText { number, unit }),
        None => None,
    }
}

/// Parses a duration text such as "30s", "5m", "1h", "7d", "100ms" or
/// "1.5s".  The numeric part and the unit are found here (see
/// `duration_split`); `span` does the floating-point part: it reads the
/// numeric part as a double, scales it to seconds by the unit and turns
/// it into a span, or refuses a numeric part that is no number.
pub fn parse_duration<F: Fn(String, DurationUnit) -> Option<Ttl>>(s: &str, span: &F) -> (r: Option<Ttl>)
    requires
        forall|n: String, u: DurationUnit| call_requires(*span, (n, u)),
    ensures
        match duration_split(s@) {
            None => r is None,
            Some((num, unit)) => exists|n: String| n@ == num && #[trigger] call_ensures(*span, (n, unit), r),
        },
{
    match split_duration(s) {
        Some(t) => {
            let DurationText { number, unit } = t;
            let ghost nv = number;
            let r = span(number, unit);
            assert(call_ensures(*span, (nv, unit), r));
            r
        },
        None => None,
    }
}

impl Ttl {
    /// Parses a duration text as a span (see `parse_duration`).
    pub fn parse<F: Fn(String, DurationUnit) -> Option<Ttl>>(s: &str, span: &F) -> (r: Option<Ttl>)
        requires
            forall|n: String, u: DurationUnit| call_requires(*span, (n, u)),
        ensures
            match duration_split(s@) {
                None => r is None,
                Some((num, unit)) => exists|n: String| n@ == num && #[trigger] call_ensures(*span, (n, unit), r),
            },
    {
        parse_duration(s, span)
    }
}

/// The RFC 3339 text `chrono` writes for the UTC instant `secs` seconds
/// and `nanos` nanoseconds after the epoch (the form its `Serialize` gives).
pub uninterp spec fn rfc3339_of(secs: i64, nanos: u32) -> Seq<char>;

/// Builds the instant with `chrono::DateTime::from_timestamp` (which gives
/// one for every representable instant) and renders it with
/// `to_rfc3339_opts(SecondsFormat::AutoSi, true)`, the form `chrono`'s
/// `Serialize` writes; the text is named `rfc3339_of`.
#[verifier::external_body]
pub fn rfc3339_text(t: &Timestamp) -> (r: String)
    requires
        representable(*t),
    ensures
        r@ == rfc3339_of(t.secs, t.nanos),
{
    chrono::DateTime::from_timestamp(t.secs, t.nanos).unwrap().to_rfc3339_opts(chrono::SecondsFormat::AutoSi, true)
}

} // verus!
