//! Points in time, in UTC.

use vstd::prelude::*;

verus! {

/// First second that a [`Timestamp`] can name: the start of the year -262143.
pub const MIN_SECS: i64 = -8_334_601_228_800;

/// Last second that a [`Timestamp`] can name: the end of the year 262142.
pub const MAX_SECS: i64 = 8_210_266_876_799;

/// A point in time: whole seconds since the start of 1970 in UTC, leap seconds not
/// counted, and the nanoseconds since the last whole second.
///
/// The nanoseconds reach past one second within a leap second, which follows the last
/// second of a minute. The range is the one that `chrono::DateTime<Utc>` has.
#[derive(Debug, Clone, Copy, PartialEq, Eq, Structural)]
pub struct Timestamp {
    secs: i64,
    nanos: u32,
}

/// What a [`Timestamp`] holds.
pub struct TimestampView {
    pub secs: int,
    pub nanos: int,
}

impl View for Timestamp {
    type V = TimestampView;

    closed spec fn view(&self) -> TimestampView {
        TimestampView { secs: self.secs as int, nanos: self.nanos as int }
    }
}

/// Whether seconds and nanoseconds name a point in time.
pub open spec fn in_range(secs: int, nanos: int) -> bool {
    &&& MIN_SECS <= secs <= MAX_SECS
    &&& 0 <= nanos < 2_000_000_000
    &&& nanos >= 1_000_000_000 ==> secs % 60 == 59
}

/// Whether `a` is earlier than `b`.
pub open spec fn earlier(a: Timestamp, b: Timestamp) -> bool {
    a@.secs < b@.secs || (a@.secs == b@.secs && a@.nanos < b@.nanos)
}

/// Nanoseconds from `b` to `a`. A leap second between them is counted where one of the two
/// lies in it and the other at a later time of day.
pub open spec fn elapsed_nanos(a: Timestamp, b: Timestamp) -> int {
    let a_of_day = a@.secs % 86_400;
    let b_of_day = b@.secs % 86_400;
    let leap: int = if a_of_day > b_of_day && b@.nanos >= 1_000_000_000 {
        1
    } else if a_of_day < b_of_day && a@.nanos >= 1_000_000_000 {
        -1
    } else {
        0
    };
    (a@.secs - b@.secs + leap) * 1_000_000_000 + (a@.nanos - b@.nanos)
}

/// `n / d` without its fraction.
pub open spec fn truncated(n: int, d: int) -> int {
    if n >= 0 {
        n / d
    } else {
        -((-n) / d)
    }
}

/// Nanoseconds from the start of 1970 to `t`.
pub open spec fn unix_nanos(t: Timestamp) -> int {
    t@.secs * 1_000_000_000 + t@.nanos
}

/// What `chrono::DateTime<Utc>::format` gives for a pattern, as text.
pub uninterp spec fn formatted(secs: int, nanos: int, pattern: Seq<char>) -> Seq<char>;

/// What `chrono::DateTime<Utc>::to_rfc3339` gives.
pub uninterp spec fn rfc3339(secs: int, nanos: int) -> Seq<char>;

/// What `chrono::DateTime<Utc>` displays as.
pub uninterp spec fn displayed(secs: int, nanos: int) -> Seq<char>;

/// The current time, from `chrono::Utc::now`. It depends on the machine's clock; all that
/// holds of it is that it does not lie before 1970 nor in a leap second. Where the clock
/// stands before 1970, `chrono` panics.
#[verifier::external_body]
pub(crate) fn utc_now() -> (t: Timestamp)
    ensures
        t@.secs >= 0,
        t@.nanos < 1_000_000_000,
{
    let now = chrono::Utc::now();
    Timestamp { secs: now.timestamp(), nanos: now.timestamp_subsec_nanos() }
}

/// `chrono::DateTime<Utc>::signed_duration_since`, as the whole seconds and the
/// nanoseconds of the difference, both with its sign.
#[verifier::external_body]
fn duration_since(a: Timestamp, b: Timestamp) -> (d: (i64, i32))
    requires
        in_range(a@.secs, a@.nanos),
        in_range(b@.secs, b@.nanos),
    ensures
        d.0 * 1_000_000_000 + d.1 == elapsed_nanos(a, b),
        -1_000_000_000 < d.1 < 1_000_000_000,
        d.0 > 0 ==> d.1 >= 0,
        d.0 < 0 ==> d.1 <= 0,
{
    let a = chrono::DateTime::from_timestamp(a.secs, a.nanos).unwrap();
    let b = chrono::DateTime::from_timestamp(b.secs, b.nanos).unwrap();
    let d = a.signed_duration_since(b);
    (d.num_seconds(), d.subsec_nanos())
}

/// `chrono::DateTime<Utc>::timestamp_nanos_opt`: the nanoseconds since the start of 1970,
/// where they fit into 64 bits.
#[verifier::external_body]
fn timestamp_nanos_opt(t: Timestamp) -> (n: Option<i64>)
    requires
        in_range(t@.secs, t@.nanos),
    ensures
        match n {
            Some(n) => n == unix_nanos(t),
            None => !(i64::MIN <= unix_nanos(t) <= i64::MAX),
        },
{
    chrono::DateTime::from_timestamp(t.secs, t.nanos).unwrap().timestamp_nanos_opt()
}

/// `chrono::DateTime<Utc>::format` with a pattern of years, months, days, hours, minutes
/// and seconds.
#[verifier::external_body]
fn format_utc(t: Timestamp, pattern: &str) -> (s: String)
    requires
        in_range(t@.secs, t@.nanos),
        pattern@ == "%Y-%m"@ || pattern@ == "%Y%m%d%H%M%S"@,
    ensures
        s@ == formatted(t@.secs, t@.nanos, pattern@),
{
    chrono::DateTime::from_timestamp(t.secs, t.nanos).unwrap().format(pattern).to_string()
}

/// `chrono::DateTime<Utc>::to_rfc3339`.
#[verifier::external_body]
fn to_rfc3339(t: Timestamp) -> (s: String)
    requires
        in_range(t@.secs, t@.nanos),
    ensures
        s@ == rfc3339(t@.secs, t@.nanos),
{
    chrono::DateTime::from_timestamp(t.secs, t.nanos).unwrap().to_rfc3339()
}

/// The text that `chrono::DateTime<Utc>` displays as.
#[verifier::external_body]
fn display_utc(t: Timestamp) -> (s: String)
    requires
        in_range(t@.secs, t@.nanos),
    ensures
        s@ == displayed(t@.secs, t@.nanos),
{
    chrono::DateTime::from_timestamp(t.secs, t.nanos).unwrap().to_string()
}

impl Timestamp {
    #[verifier::type_invariant]
    spec fn inv(self) -> bool {
        in_range(self.secs as int, self.nanos as int)
    }

    /// The point in time that the seconds and nanoseconds name, if they name one.
    pub fn from_parts(secs: i64, nanos: u32) -> (t: Option<Timestamp>)
        ensures
            match t {
                Some(t) => in_range(secs as int, nanos as int) && t@.secs == secs && t@.nanos
                    == nanos,
                None => !in_range(secs as int, nanos as int),
            },
    {
        if secs < MIN_SECS || secs > MAX_SECS || nanos >= 2_000_000_000 {
            return None;
        }
        if nanos >= 1_000_000_000 {
            let of_minute: i64 = (secs - MIN_SECS) % 60;
            if of_minute != 59 {
                return None;
            }
        }
        Some(Timestamp { secs, nanos })
    }

    /// Whole seconds since the start of 1970.
    pub fn secs(&self) -> (r: i64)
        ensures
            r == self@.secs,
    {
        self.secs
    }

    /// Nanoseconds since the last whole second.
    pub fn subsec_nanos(&self) -> (r: u32)
        ensures
            r == self@.nanos,
    {
        self.nanos
    }

    /// Whether this is earlier than `other`.
    pub fn is_before(&self, other: &Timestamp) -> (r: bool)
        ensures
            r == earlier(*self, *other),
    {
        self.secs < other.secs || (self.secs == other.secs && self.nanos < other.nanos)
    }

    /// Whole milliseconds from `other` to this, without the fraction.
    pub fn millis_since(&self, other: &Timestamp) -> (ms: i64)
        ensures
            ms == truncated(elapsed_nanos(*self, *other), 1_000_000),
    {
        proof {
            use_type_invariant(self);
            use_type_invariant(other);
        }
        let d = duration_since(*self, *other);
        let secs: i64 = d.0;
        let nanos: i32 = d.1;
        assert(-20_000_000_000_000 < secs < 20_000_000_000_000);
        let part: i64 = if nanos >= 0 {
            (nanos / 1_000_000) as i64
        } else {
            -(((-nanos) / 1_000_000) as i64)
        };
        secs * 1_000 + part
    }

    /// Whether at least `days` days have passed from `other` to this.
    pub fn days_passed_since(&self, other: &Timestamp, days: u32) -> (r: bool)
        ensures
            r == (elapsed_nanos(*self, *other) >= days * 86_400 * 1_000_000_000),
    {
        proof {
            use_type_invariant(self);
            use_type_invariant(other);
        }
        let d = duration_since(*self, *other);
        let secs: i64 = d.0;
        let nanos: i32 = d.1;
        let threshold: i64 = days as i64 * 86_400;
        secs > threshold || (secs == threshold && nanos >= 0)
    }

    /// Nanoseconds since the start of 1970, or 0 where they do not fit into 64 bits. Before
    /// 1970 they count down from two to the power of 64.
    pub fn nanos_since_epoch(&self) -> (n: u128)
        ensures
            n == epoch_nanos(*self),
    {
        proof {
            use_type_invariant(self);
        }
        match timestamp_nanos_opt(*self) {
            Some(n) => {
                if n >= 0 {
                    n as u128
                } else {
                    (n as i128 + 0x1_0000_0000_0000_0000) as u128
                }
            },
            None => 0,
        }
    }

    /// The year and month.
    pub fn year_month(&self) -> (s: String)
        ensures
            s@ == formatted(self@.secs, self@.nanos, "%Y-%m"@),
    {
        proof {
            use_type_invariant(self);
        }
        format_utc(*self, "%Y-%m")
    }

    /// Year, month, day, hour, minute and second without separators.
    pub fn compact_text(&self) -> (s: String)
        ensures
            s@ == formatted(self@.secs, self@.nanos, "%Y%m%d%H%M%S"@),
    {
        proof {
            use_type_invariant(self);
        }
        format_utc(*self, "%Y%m%d%H%M%S")
    }

    /// The text of the time as RFC 3339 writes it.
    pub fn rfc3339_text(&self) -> (s: String)
        ensures
            s@ == rfc3339(self@.secs, self@.nanos),
    {
        proof {
            use_type_invariant(self);
        }
        to_rfc3339(*self)
    }

    /// The text of the time for people to read.
    pub fn text(&self) -> (s: String)
        ensures
            s@ == displayed(self@.secs, self@.nanos),
    {
        proof {
            use_type_invariant(self);
        }
        display_utc(*self)
    }
}

/// Nanoseconds since the start of 1970 as an unsigned number of 64 bits, or 0 where they
/// do not fit.
pub open spec fn epoch_nanos(t: Timestamp) -> int {
    if !(i64::MIN <= unix_nanos(t) <= i64::MAX) {
        0
    } else if unix_nanos(t) >= 0 {
        unix_nanos(t)
    } else {
        unix_nanos(t) + 0x1_0000_0000_0000_0000
    }
}

/// The order of time is strict and total: no time is earlier than itself, the order carries
/// over, and of two different times one is earlier.
pub proof fn law_earlier_is_total_order(a: Timestamp, b: Timestamp, c: Timestamp)
    ensures
        !earlier(a, a),
        earlier(a, b) && earlier(b, c) ==> earlier(a, c),
        a != b ==> earlier(a, b) || earlier(b, a),
{
}

/// The order of time, for all times at once.
pub proof fn lemma_earlier_all()
    ensures
        forall|a: Timestamp, b: Timestamp, c: Timestamp|
            !(#[trigger] earlier(a, b)) && !(#[trigger] earlier(b, c)) ==> !earlier(a, c),
        forall|a: Timestamp, b: Timestamp, c: Timestamp|
            !(#[trigger] earlier(a, b)) && (#[trigger] earlier(a, c)) ==> earlier(b, c),
        forall|a: Timestamp, b: Timestamp| #[trigger] earlier(a, b) ==> !earlier(b, a),
        forall|a: Timestamp| !#[trigger] earlier(a, a),
{
}

/// Of two times the one with fewer seconds is earlier, and of two within the same second the one
/// with fewer nanoseconds.
pub proof fn law_earlier(a: Timestamp, b: Timestamp)
    ensures
        a@.secs < b@.secs ==> earlier(a, b) && !earlier(b, a),
        a@.secs == b@.secs && a@.nanos < b@.nanos ==> earlier(a, b) && !earlier(b, a),
        a@ == b@ ==> !earlier(a, b),
{
}

/// What has passed between two times outside of leap seconds is the difference of their
/// nanoseconds since 1970. It is nothing between a time and itself.
pub proof fn law_elapsed(a: Timestamp, b: Timestamp)
    ensures
        a@.nanos < 1_000_000_000 && b@.nanos < 1_000_000_000 ==> elapsed_nanos(a, b) == (a@.secs
            * 1_000_000_000 + a@.nanos) - (b@.secs * 1_000_000_000 + b@.nanos),
        elapsed_nanos(a, a) == 0,
        elapsed_nanos(a, b) == -elapsed_nanos(b, a),
{
}

/// Nanoseconds since 1970 count from 0, and before 1970 down from two to the power of 64.
pub proof fn law_epoch_nanos(t: Timestamp)
    ensures
        ({
            let n = t@.secs * 1_000_000_000 + t@.nanos;
            &&& 0 <= n < 0x8000_0000_0000_0000 ==> epoch_nanos(t) == n
            &&& -0x8000_0000_0000_0000 <= n < 0 ==> epoch_nanos(t) == n + 0x1_0000_0000_0000_0000
            &&& n < -0x8000_0000_0000_0000 || n >= 0x8000_0000_0000_0000 ==> epoch_nanos(t) == 0
        }),
{
}

/// A fraction that is left out does not reach one, and the sign stays.
pub proof fn law_truncated(n: int, d: int)
    requires
        d > 0,
    ensures
        n >= 0 ==> truncated(n, d) * d <= n < truncated(n, d) * d + d && truncated(n, d) >= 0,
        n < 0 ==> truncated(n, d) * d - d < n <= truncated(n, d) * d && truncated(n, d) <= 0,
{
    let m = if n >= 0 {
        n
    } else {
        -n
    };
    vstd::arithmetic::div_mod::lemma_fundamental_div_mod(m, d);
    vstd::arithmetic::div_mod::lemma_mod_division_less_than_divisor(m, d);
    vstd::arithmetic::div_mod::lemma_div_pos_is_pos(m, d);
    let q = m / d;
    assert(d * q == q * d) by (nonlinear_arith);
    assert((-q) * d == -(q * d)) by (nonlinear_arith);
}

} // verus!
