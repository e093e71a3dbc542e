//! Candle intervals and bucket alignment.

use vstd::prelude::*;

verus! {

/// The time resolution of a candle.
#[derive(Debug, Clone, Copy, PartialEq, Eq, Hash, Structural)]
pub enum KlineInterval {
    OneMinute,
    FiveMinutes,
    FifteenMinutes,
    OneHour,
    FourHours,
    OneDay,
}

/// The length of an interval in seconds.
pub open spec fn interval_seconds(i: KlineInterval) -> int {
    match i {
        KlineInterval::OneMinute => 60,
        KlineInterval::FiveMinutes => 300,
        KlineInterval::FifteenMinutes => 900,
        KlineInterval::OneHour => 3600,
        KlineInterval::FourHours => 14400,
        KlineInterval::OneDay => 86400,
    }
}

/// The short label of an interval, as it is stored with a candle.
pub open spec fn interval_label(i: KlineInterval) -> Seq<char> {
    match i {
        KlineInterval::OneMinute => "1m"@,
        KlineInterval::FiveMinutes => "5m"@,
        KlineInterval::FifteenMinutes => "15m"@,
        KlineInterval::OneHour => "1h"@,
        KlineInterval::FourHours => "4h"@,
        KlineInterval::OneDay => "1d"@,
    }
}

/// The start of the bucket of width `width` that holds the instant `t`:
/// `floor(t / width) * width`.
pub open spec fn bucket_start(t: int, width: int) -> int
    recommends
        width > 0,
{
    (t / width) * width
}

/// A bucket start is a multiple of the width, is not after the instant and is
/// less than one width before it.
pub proof fn lemma_bucket_start(t: int, width: int)
    requires
        width > 0,
    ensures
        bucket_start(t, width) % width == 0,
        bucket_start(t, width) <= t < bucket_start(t, width) + width,
{
    vstd::arithmetic::div_mod::lemma_fundamental_div_mod(t, width);
    vstd::arithmetic::div_mod::lemma_mod_multiples_basic(t / width, width);
    vstd::arithmetic::div_mod::lemma_mod_bound(t, width);
    vstd::arithmetic::mul::lemma_mul_is_commutative(t / width, width);
}

/// `floor(t / width)`, also where `t` is negative.
pub fn floor_div(t: i64, width: i64) -> (q: i64)
    requires
        0 < width,
    ensures
        q == (t as int) / (width as int),
{
    if t >= 0 {
        t / width
    } else {
        let n: i64 = -(t + 1);
        let q: i64 = n / width;
        proof {
            let w = width as int;
            vstd::arithmetic::div_mod::lemma_fundamental_div_mod(n as int, w);
            vstd::arithmetic::div_mod::lemma_mod_bound(n as int, w);
            vstd::arithmetic::mul::lemma_mul_is_commutative(q as int, w);
            let rest = w - (n as int % w) - 1;
            assert((-(q as int) - 1) * w == -((q as int) * w) - w) by (nonlinear_arith);
            assert(t as int == (-(q as int) - 1) * w + rest);
            vstd::arithmetic::div_mod::lemma_fundamental_div_mod_converse(
                t as int,
                w,
                -(q as int) - 1,
                rest,
            );
        }
        -q - 1
    }
}

/// Aligns `t` down to a multiple of `width`, rounding toward negative
/// infinity also where `t` is negative.
pub fn align_down(t: i64, width: i64) -> (r: i64)
    requires
        0 < width,
        t >= i64::MIN + width,
    ensures
        r == bucket_start(t as int, width as int),
{
    let q = floor_div(t, width);
    proof {
        lemma_bucket_start(t as int, width as int);
        assert(q * width == bucket_start(t as int, width as int));
    }
    q * width
}

impl KlineInterval {
    /// The length of the interval in seconds.
    pub fn seconds(&self) -> (r: i64)
        ensures
            r == interval_seconds(*self),
            0 < r <= 86400,
    {
        match self {
            KlineInterval::OneMinute => 60,
            KlineInterval::FiveMinutes => 300,
            KlineInterval::FifteenMinutes => 900,
            KlineInterval::OneHour => 3600,
            KlineInterval::FourHours => 14400,
            KlineInterval::OneDay => 86400,
        }
    }

    /// The short label: `1m`, `5m`, `15m`, `1h`, `4h` or `1d`.
    pub fn label(&self) -> (r: &'static str)
        ensures
            r@ == interval_label(*self),
    {
        match self {
            KlineInterval::OneMinute => "1m",
            KlineInterval::FiveMinutes => "5m",
            KlineInterval::FifteenMinutes => "15m",
            KlineInterval::OneHour => "1h",
            KlineInterval::FourHours => "4h",
            KlineInterval::OneDay => "1d",
        }
    }

    /// The label as an owned string.
    pub fn to_text(&self) -> (r: String)
        ensures
            r@ == interval_label(*self),
    {
        self.label().to_owned()
    }

    /// The start of the bucket of this interval that holds second `now_s`.
    pub fn aligned(&self, now_s: i64) -> (r: i64)
        requires
            now_s >= i64::MIN + 86400,
        ensures
            r == bucket_start(now_s as int, interval_seconds(*self)),
            (r as int) % interval_seconds(*self) == 0,
    {
        proof {
            lemma_bucket_start(now_s as int, interval_seconds(*self));
        }
        align_down(now_s, self.seconds())
    }
}

} // verus!
