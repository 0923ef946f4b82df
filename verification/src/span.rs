//! Instants and signed spans of time, with the arithmetic that the statistics need.
//!
//! A span is held the way `chrono::TimeDelta` holds it (whole seconds and a sub-second
//! count of nanoseconds in `0..1_000_000_000`), and its view is its length in
//! nanoseconds. The arithmetic itself is chrono's, reached through the wrappers below.

use vstd::prelude::*;
use chrono::{DateTime, TimeDelta};

verus! {

/// The largest length of a span, in nanoseconds: `i64::MAX` milliseconds, the bound of
/// `chrono::TimeDelta`.
pub open spec fn span_limit() -> int {
    9_223_372_036_854_775_807_000_000
}

/// `secs` seconds and `nanos` nanoseconds, in nanoseconds.
pub open spec fn nanos_total(secs: int, nanos: int) -> int {
    secs * 1_000_000_000 + nanos
}

/// `parts` reads as `total` nanoseconds: whole seconds, and a signed remainder
/// smaller than one second in magnitude.
pub open spec fn reads_as(parts: (i64, i32), total: int) -> bool {
    &&& nanos_total(parts.0 as int, parts.1 as int) == total
    &&& -1_000_000_000 < parts.1 < 1_000_000_000
}

/// `x / y` rounded toward zero, for `y > 0`.
pub open spec fn div_toward_zero(x: int, y: int) -> int {
    if x >= 0 {
        x / y
    } else {
        -((-x) / y)
    }
}

/// An instant, as seconds and nanoseconds since 1970-01-01T00:00:00Z
/// (what `DateTime::<Utc>::timestamp` and `timestamp_subsec_nanos` report).
#[derive(Clone, Copy, Debug, PartialEq, Eq)]
pub struct Moment {
    pub secs: i64,
    pub nanos: u32,
}

impl View for Moment {
    type V = int;

    open spec fn view(&self) -> int {
        nanos_total(self.secs as int, self.nanos as int)
    }
}

/// A signed span of time: `secs` seconds plus `nanos` nanoseconds.
#[derive(Clone, Copy, Debug, PartialEq, Eq)]
pub struct Span {
    pub secs: i64,
    pub nanos: u32,
}

impl View for Span {
    type V = int;

    open spec fn view(&self) -> int {
        nanos_total(self.secs as int, self.nanos as int)
    }
}

impl Span {
    /// The span is in canonical form and within the range of `chrono::TimeDelta`.
    pub open spec fn wf(self) -> bool {
        &&& self.nanos < 1_000_000_000
        &&& -span_limit() <= self@ <= span_limit()
    }

    /// Builds the canonical span from a reading in whole seconds and a signed remainder.
    pub fn from_reading(parts: (i64, i32)) -> (r: Span)
        requires
            -1_000_000_000 < parts.1 < 1_000_000_000,
            -span_limit() <= nanos_total(parts.0 as int, parts.1 as int) <= span_limit(),
        ensures
            r.wf(),
            r@ == nanos_total(parts.0 as int, parts.1 as int),
    {
        let (secs, nanos) = parts;
        if nanos < 0 {
            let s: i64 = secs - 1;
            let n: i32 = nanos + 1_000_000_000;
            Span { secs: s, nanos: n as u32 }
        } else {
            Span { secs: secs, nanos: nanos as u32 }
        }
    }

    /// The smaller of two spans (`Ord::min` on `TimeDelta`).
    pub fn earliest(self, other: Span) -> (r: Span)
        requires
            self.wf(),
            other.wf(),
        ensures
            r.wf(),
            r@ == if self@ <= other@ { self@ } else { other@ },
    {
        if self.secs < other.secs || (self.secs == other.secs && self.nanos <= other.nanos) {
            self
        } else {
            other
        }
    }

    /// The larger of two spans (`Ord::max` on `TimeDelta`).
    pub fn latest(self, other: Span) -> (r: Span)
        requires
            self.wf(),
            other.wf(),
        ensures
            r.wf(),
            r@ == if self@ <= other@ { other@ } else { self@ },
    {
        if self.secs < other.secs || (self.secs == other.secs && self.nanos <= other.nanos) {
            other
        } else {
            self
        }
    }
}

/// What `chrono` computes for `TimeDelta / i32` with a positive `divisor`, in nanoseconds,
/// for a span of `total` nanoseconds held as whole seconds (rounded down) and a
/// sub-second part: the seconds are divided toward zero, their remainder is carried into
/// nanoseconds and divided toward zero, and the sub-second part is divided on its own.
pub open spec fn chrono_quotient(total: int, divisor: int) -> int {
    let secs = total / 1_000_000_000;
    let nanos = total % 1_000_000_000;
    let whole = div_toward_zero(secs, divisor);
    let carry = secs - whole * divisor;
    whole * 1_000_000_000 + div_toward_zero(carry * 1_000_000_000, divisor) + nanos / divisor
}

/// The instant can be placed on chrono's calendar (`DateTime::from_timestamp` accepts
/// it): it falls between January 1, 262144 BCE and December 31, 262142 CE, and its
/// sub-second part is below one second, or below two in the last second of a minute
/// (a leap second).
pub open spec fn on_calendar(m: Moment) -> bool {
    &&& -8_334_601_228_800 <= m.secs <= 8_210_266_876_799
    &&& (m.nanos < 1_000_000_000 || (m.nanos < 2_000_000_000 && m.secs % 60 == 59))
}

/// What `chrono` computes for `DateTime::<Utc>::signed_duration_since` between the
/// instants `end` and `start`, each rebuilt with `DateTime::from_timestamp`, in
/// nanoseconds; `None` where `from_timestamp` refuses one of them. It is `end - start`,
/// save that a leap second (a sub-second part of one second or more) counts as one more
/// second when it lies at an earlier time of day than the other instant, and one less
/// when it lies at a later one.
pub open spec fn chrono_elapsed(end: Moment, start: Moment) -> Option<int> {
    if on_calendar(end) && on_calendar(start) {
        let end_of_day = end.secs % 86_400;
        let start_of_day = start.secs % 86_400;
        let leap: int = if end_of_day > start_of_day && start.nanos >= 1_000_000_000 {
            1
        } else if end_of_day < start_of_day && end.nanos >= 1_000_000_000 {
            -1
        } else {
            0
        };
        Some(nanos_total(end.secs - start.secs + leap, end.nanos - start.nanos))
    } else {
        None
    }
}

/// The bound on a product that chrono's `TimeDelta * i32` accepts: its whole seconds
/// must lie strictly between `i64::MIN` and `i64::MAX`.
pub open spec fn product_limit() -> int {
    9_223_372_036_854_775_807_000_000_000
}

/// `TimeDelta * i32` and then `TimeDelta + TimeDelta` (chrono), on the spans rebuilt with
/// `TimeDelta::new`, read back with `num_seconds` and `subsec_nanos`: `a * k + b`.
/// Claimed: `TimeDelta::new` accepts every well-formed span (its documented bounds are
/// those of `Span::wf`); `checked_mul` is exact and refuses only products whose whole
/// seconds reach `i64::MIN` or `i64::MAX`, which `requires` rules out (the product may
/// leave chrono's range, as `checked_mul` does not check it); `checked_add` is exact and
/// refuses only sums out of chrono's range, which `requires` rules out too; and
/// `subsec_nanos() + num_seconds() * 1_000_000_000` is the sum's length, as chrono
/// documents. So neither operator panics. The two calls share one item because the
/// product may lie outside the range of `Span`.
#[verifier::external_body]
fn chrono_times_plus(a: Span, k: i32, b: Span) -> (r: Option<(i64, i32)>)
    requires
        a.wf(),
        b.wf(),
        -product_limit() <= a@ * k < product_limit(),
        -span_limit() <= a@ * k + b@ <= span_limit(),
    ensures
        r is Some,
        r matches Some(p) ==> reads_as(p, a@ * k + b@),
{
    let t = TimeDelta::new(a.secs, a.nanos)? * k + TimeDelta::new(b.secs, b.nanos)?;
    Some((t.num_seconds(), t.subsec_nanos()))
}

/// `TimeDelta / i32` (chrono) on the span rebuilt with `TimeDelta::new`, read back as in
/// `chrono_times_plus`. Claimed: the result is `chrono_quotient` of the span's length and the
/// divisor (what chrono's `checked_div` computes), and for a positive divisor it stays
/// within chrono's range (the seconds and the nanoseconds are each divided toward zero,
/// so the quotient is never longer than the span). The divisor is required to be
/// positive; chrono panics on zero.
#[verifier::external_body]
fn chrono_divide(a: Span, d: i32) -> (r: Option<(i64, i32)>)
    requires
        a.wf(),
        d > 0,
    ensures
        r is Some,
        r matches Some(p) ==> reads_as(p, chrono_quotient(a@, d as int)),
        r matches Some(p) ==> -span_limit() <= nanos_total(p.0 as int, p.1 as int)
            <= span_limit(),
{
    let t = TimeDelta::new(a.secs, a.nanos)? / d;
    Some((t.num_seconds(), t.subsec_nanos()))
}

/// `TimeDelta::num_minutes` (chrono) on the span rebuilt with `TimeDelta::new`. Claimed:
/// the whole number of minutes, rounded toward zero, as chrono documents and computes
/// (`num_seconds() / 60`, with `num_seconds` rounded toward zero).
#[verifier::external_body]
fn chrono_minutes(a: Span) -> (r: Option<i64>)
    requires
        a.wf(),
    ensures
        r == Some(div_toward_zero(a@, 60_000_000_000) as i64),
{
    Some(TimeDelta::new(a.secs, a.nanos)?.num_minutes())
}

/// `DateTime::<Utc>::signed_duration_since` (chrono), from `start` to `end`, after
/// rebuilding both with `DateTime::from_timestamp`; the result is read back as in
/// `chrono_times_plus`. Claimed: `from_timestamp` accepts exactly the instants
/// `on_calendar` (its calendar runs from `NaiveDate::MIN` to `NaiveDate::MAX`, and
/// `NaiveTime` takes a sub-second part of one second or more only at second 59); the
/// result is `chrono_elapsed(end, start)`: the days between the dates, plus the
/// difference of the times of day, which `NaiveTime::signed_duration_since` shifts by a
/// second where a leap second lies at an earlier or later time of day than the other.
#[verifier::external_body]
fn chrono_elapsed_reading(end: Moment, start: Moment) -> (r: Option<(i64, i32)>)
    ensures
        r is Some <==> (on_calendar(end) && on_calendar(start)),
        r matches Some(p) ==> chrono_elapsed(end, start) == Some(
            nanos_total(p.0 as int, p.1 as int),
        ),
        r matches Some(p) ==> -1_000_000_000 < p.1 < 1_000_000_000,
{
    let end_time = DateTime::from_timestamp(end.secs, end.nanos)?;
    let start_time = DateTime::from_timestamp(start.secs, start.nanos)?;
    let t = end_time.signed_duration_since(start_time);
    Some((t.num_seconds(), t.subsec_nanos()))
}

/// The bound `span_limit`, as a machine integer.
pub const SPAN_LIMIT: i128 = 9_223_372_036_854_775_807_000_000;

/// The bound `product_limit`, as a machine integer.
pub const PRODUCT_LIMIT: i128 = 9_223_372_036_854_775_807_000_000_000;

/// The running mean can take one more sample without a panic in chrono:
/// `TimeDelta * i32` accepts `mean * (count - 1)`, and that plus `sample` stays within
/// chrono's range.
pub open spec fn mean_fits(mean: int, count: int, sample: int) -> bool {
    &&& -product_limit() <= mean * (count - 1) < product_limit()
    &&& -span_limit() <= mean * (count - 1) + sample <= span_limit()
}

/// The running mean after a `count`-th sample, as chrono computes
/// `(mean * (count - 1) + sample) / count`.
pub open spec fn mean_after(mean: int, count: int, sample: int) -> int {
    chrono_quotient(mean * (count - 1) + sample, count)
}

/// The length of a span in nanoseconds, as a machine integer.
pub fn span_nanos(s: Span) -> (r: i128)
    requires
        s.wf(),
    ensures
        r == s@,
{
    (s.secs as i128) * 1_000_000_000 + (s.nanos as i128)
}

/// The running mean of durations after one more sample:
/// `(mean * (count - 1) + sample) / count` in chrono's arithmetic. `None` where one of
/// chrono's operators would panic: the product's whole seconds leave `i64`, or the sum
/// leaves chrono's range.
pub fn running_mean(mean: Span, count: i32, sample: Span) -> (r: Option<Span>)
    requires
        mean.wf(),
        sample.wf(),
        count >= 1,
    ensures
        r is Some <==> mean_fits(mean@, count as int, sample@),
        r matches Some(s) ==> s.wf() && s@ == mean_after(mean@, count as int, sample@),
{
    let k: i32 = count - 1;
    let m: i128 = span_nanos(mean);
    let x: i128 = span_nanos(sample);
    assert(-170141183460469231731687303715884105728 <= m * (k as int)
        <= 170141183460469231731687303715884105727) by (nonlinear_arith)
        requires
            -9_223_372_036_854_775_807_000_000 <= m <= 9_223_372_036_854_775_807_000_000,
            0 <= k <= 2147483647,
    ;
    let product: i128 = m * (k as i128);
    if product < -PRODUCT_LIMIT || product >= PRODUCT_LIMIT {
        return None;
    }
    let sum: i128 = product + x;
    if sum < -SPAN_LIMIT || sum > SPAN_LIMIT {
        return None;
    }
    let added = match chrono_times_plus(mean, k, sample) {
        Some(parts) => Span::from_reading(parts),
        None => return None,
    };
    match chrono_divide(added, count) {
        Some(parts) => Some(Span::from_reading(parts)),
        None => None,
    }
}

/// The length of a span in whole minutes, rounded toward zero (`TimeDelta::num_minutes`).
pub fn whole_minutes(s: Span) -> (r: i64)
    requires
        s.wf(),
    ensures
        r == div_toward_zero(s@, 60_000_000_000),
{
    match chrono_minutes(s) {
        Some(m) => m,
        None => 0,
    }
}

/// The time elapsed from `start` to `end`, in chrono's reckoning
/// (`DateTime::signed_duration_since`). `None` where chrono cannot place one of the
/// instants on its calendar.
pub fn elapsed(end: Moment, start: Moment) -> (r: Option<Span>)
    ensures
        r is Some <==> (on_calendar(end) && on_calendar(start)),
        r matches Some(s) ==> s.wf() && chrono_elapsed(end, start) == Some(s@),
        r matches Some(s) ==> (end.nanos < 1_000_000_000 && start.nanos < 1_000_000_000
            ==> s@ == end@ - start@),
{
    match chrono_elapsed_reading(end, start) {
        Some(parts) => Some(Span::from_reading(parts)),
        None => None,
    }
}

/// `x` rounded toward zero lies within `d` of `div_toward_zero(x, d) * d`, on the side of
/// zero.
pub proof fn lemma_div_toward_zero(x: int, d: int)
    requires
        d >= 1,
    ensures
        x >= 0 ==> x - d < div_toward_zero(x, d) * d <= x,
        x < 0 ==> x <= div_toward_zero(x, d) * d < x + d,
{
    let t = div_toward_zero(x, d);
    if x >= 0 {
        vstd::arithmetic::div_mod::lemma_fundamental_div_mod(x, d);
        vstd::arithmetic::div_mod::lemma_mod_bound(x, d);
        let q = x / d;
        assert(t == q);
        assert(t * d == d * q) by (nonlinear_arith)
            requires
                t == q,
        ;
    } else {
        vstd::arithmetic::div_mod::lemma_fundamental_div_mod(-x, d);
        vstd::arithmetic::div_mod::lemma_mod_bound(-x, d);
        let q = (-x) / d;
        assert(t == -q);
        assert(t * d == -(d * q)) by (nonlinear_arith)
            requires
                t == -q,
        ;
    }
}

/// chrono's quotient is within two divisors below and one divisor above the exact one:
/// `x - 2d < q * d < x + d`.
pub proof fn lemma_quotient_bounds(x: int, d: int)
    requires
        d >= 1,
    ensures
        x - 2 * d < chrono_quotient(x, d) * d < x + d,
{
    let secs = x / 1_000_000_000;
    let nanos = x % 1_000_000_000;
    vstd::arithmetic::div_mod::lemma_fundamental_div_mod(x, 1_000_000_000);
    vstd::arithmetic::div_mod::lemma_mod_bound(x, 1_000_000_000);
    let whole = div_toward_zero(secs, d);
    let carry = secs - whole * d;
    let e = div_toward_zero(carry * 1_000_000_000, d);
    let f = nanos / d;
    lemma_div_toward_zero(carry * 1_000_000_000, d);
    vstd::arithmetic::div_mod::lemma_fundamental_div_mod(nanos, d);
    vstd::arithmetic::div_mod::lemma_mod_bound(nanos, d);
    assert(f * d == d * f) by (nonlinear_arith);
    assert(carry * 1_000_000_000 - d < e * d < carry * 1_000_000_000 + d);
    assert(nanos - d < f * d <= nanos);
    assert(x == (whole * d + carry) * 1_000_000_000 + nanos);
    assert(chrono_quotient(x, d) == whole * 1_000_000_000 + e + f);
    assert(chrono_quotient(x, d) * d == whole * d * 1_000_000_000 + e * d + f * d)
        by (nonlinear_arith)
        requires
            chrono_quotient(x, d) == whole * 1_000_000_000 + e + f,
    ;
    assert(x == whole * d * 1_000_000_000 + carry * 1_000_000_000 + nanos) by (nonlinear_arith)
        requires
            x == (whole * d + carry) * 1_000_000_000 + nanos,
    ;
}

/// One more sample keeps the running mean within the samples' range, save for chrono's
/// rounding: if the mean `a` of `k - 1` samples lies in `[lo - (k - 2), hi]` and the
/// `k`-th sample in `[lo, hi]`, the new mean lies in `[lo - (k - 1), hi]`.
pub proof fn lemma_mean_step_bounds(a: int, k: int, x: int, lo: int, hi: int)
    requires
        k >= 2,
        lo - (k - 2) <= a <= hi,
        lo <= x <= hi,
    ensures
        lo - (k - 1) <= mean_after(a, k, x) <= hi,
{
    let total = a * (k - 1) + x;
    let q = mean_after(a, k, x);
    lemma_quotient_bounds(total, k);
    assert(q * k < total + k);
    assert(q * k > total - 2 * k);
    assert(total <= hi * k) by (nonlinear_arith)
        requires
            total == a * (k - 1) + x,
            a <= hi,
            x <= hi,
            k >= 2,
    ;
    assert(total >= lo * k - (k - 2) * (k - 1)) by (nonlinear_arith)
        requires
            total == a * (k - 1) + x,
            a >= lo - (k - 2),
            x >= lo,
            k >= 2,
    ;
    assert(q <= hi) by (nonlinear_arith)
        requires
            q * k < total + k,
            total <= hi * k,
            k >= 2,
    ;
    assert(q >= lo - (k - 1)) by (nonlinear_arith)
        requires
            q * k > total - 2 * k,
            total >= lo * k - (k - 2) * (k - 1),
            k >= 2,
    ;
}

} // verus!
