//! Fixed-point decimal numbers.
//!
//! A [`Decimal`] is a 96-bit signed mantissa and a scale between 0 and 28; it
//! stands for `mantissa / 10^scale`. Arithmetic, rounding, ordering, parsing
//! and printing are done by the `rust_decimal` crate: a value is handed over
//! by its mantissa and scale and taken back the same way.

use crate::text::{digit_char, int_text, nat_text};
use vstd::arithmetic::power::pow;
use vstd::prelude::*;

verus! {

/// The largest magnitude of a mantissa: `2^96 - 1`.
pub const MAX_MANTISSA: i128 = 0x0000_0000_FFFF_FFFF_FFFF_FFFF_FFFF_FFFF;

/// The largest scale.
pub const MAX_SCALE: u32 = 28;

/// What a decimal number is made of.
pub struct DecimalView {
    pub mantissa: int,
    pub scale: nat,
}

/// A decimal number `mantissa / 10^scale`.
#[derive(Debug, Clone, Copy)]
pub struct Decimal {
    mantissa: i128,
    scale: u32,
}

impl View for Decimal {
    type V = DecimalView;

    closed spec fn view(&self) -> DecimalView {
        DecimalView { mantissa: self.mantissa as int, scale: self.scale as nat }
    }
}

/// Whether a mantissa and a scale are within the limits of a decimal number.
pub open spec fn decimal_in_range(d: DecimalView) -> bool {
    &&& -MAX_MANTISSA <= d.mantissa <= MAX_MANTISSA
    &&& d.scale <= MAX_SCALE
}

/// `10^n`.
pub open spec fn pow10(n: nat) -> int {
    pow(10, n)
}

/// Whether `a` is numerically less than `b`.
pub open spec fn dec_lt(a: DecimalView, b: DecimalView) -> bool {
    a.mantissa * pow10(b.scale) < b.mantissa * pow10(a.scale)
}

/// Whether `a` is numerically at most `b`.
pub open spec fn dec_le(a: DecimalView, b: DecimalView) -> bool {
    a.mantissa * pow10(b.scale) <= b.mantissa * pow10(a.scale)
}

/// Whether `a` and `b` are the same number, whatever their scales.
pub open spec fn dec_same(a: DecimalView, b: DecimalView) -> bool {
    a.mantissa * pow10(b.scale) == b.mantissa * pow10(a.scale)
}

/// The larger of two numbers; the first where they are equal.
pub open spec fn dec_max(a: DecimalView, b: DecimalView) -> DecimalView {
    if dec_lt(a, b) {
        b
    } else {
        a
    }
}

/// The smaller of two numbers; the first where they are equal.
pub open spec fn dec_min(a: DecimalView, b: DecimalView) -> DecimalView {
    if dec_lt(b, a) {
        b
    } else {
        a
    }
}

/// `d` rounded to at most `dp` fractional digits, a midpoint going away from
/// zero. A number that has no more than `dp` digits is left as it is.
pub open spec fn dec_round_half_away(d: DecimalView, dp: nat) -> DecimalView {
    if d.scale <= dp {
        d
    } else {
        let unit = pow10((d.scale - dp) as nat);
        let magnitude = if d.mantissa < 0 {
            -d.mantissa
        } else {
            d.mantissa
        };
        let whole = magnitude / unit;
        let rest = magnitude % unit;
        let rounded = if 2 * rest >= unit {
            whole + 1
        } else {
            whole
        };
        DecimalView {
            mantissa: if d.mantissa < 0 {
                -rounded
            } else {
                rounded
            },
            scale: dp,
        }
    }
}

/// The sum that `rust_decimal` gives for two numbers, `None` where it
/// overflows.
pub uninterp spec fn decimal_sum(a: DecimalView, b: DecimalView) -> Option<DecimalView>;

/// The quotient that `rust_decimal` gives for two numbers, `None` where it
/// overflows or the divisor is zero.
pub uninterp spec fn decimal_quotient(a: DecimalView, b: DecimalView) -> Option<DecimalView>;

/// The last `width` decimal digits of `n`, with zeros in front where `n` has
/// fewer.
pub open spec fn padded_digits(n: nat, width: nat) -> Seq<char>
    decreases width,
{
    if width == 0 {
        Seq::empty()
    } else {
        padded_digits(n / 10, (width - 1) as nat).push(digit_char(n % 10))
    }
}

/// The text of a number: a `-` where it is negative, the digits of the whole
/// part, and, where the scale is not zero, a point and as many fractional
/// digits as the scale says.
pub open spec fn decimal_text(d: DecimalView) -> Seq<char> {
    let magnitude = if d.mantissa < 0 {
        (-d.mantissa) as nat
    } else {
        d.mantissa as nat
    };
    let sign = if d.mantissa < 0 {
        seq!['-']
    } else {
        Seq::<char>::empty()
    };
    let unit = pow10(d.scale) as nat;
    if d.scale == 0 {
        sign + nat_text(magnitude)
    } else {
        sign + nat_text(magnitude / unit) + seq!['.'] + padded_digits(magnitude % unit, d.scale)
    }
}

/// The number that `rust_decimal` reads from a text, `None` where it reads
/// none.
pub uninterp spec fn decimal_parse(text: Seq<char>) -> Option<DecimalView>;

/// `rust_decimal::Decimal::checked_add` on two numbers given by mantissa and
/// scale. The contract names the result and claims only that it is the same
/// for the same operands.
#[verifier::external_body]
fn outside_add(a: Decimal, b: Decimal) -> (r: Option<Decimal>)
    requires
        decimal_in_range(a@),
        decimal_in_range(b@),
    ensures
        match r {
            Some(d) => decimal_sum(a@, b@) == Some(d@),
            None => decimal_sum(a@, b@) is None,
        },
{
    let x = rust_decimal::Decimal::from_i128_with_scale(a.mantissa, a.scale);
    let y = rust_decimal::Decimal::from_i128_with_scale(b.mantissa, b.scale);
    x.checked_add(y).map(|d| Decimal { mantissa: d.mantissa(), scale: d.scale() })
}

/// `rust_decimal::Decimal::checked_div` on two numbers given by mantissa and
/// scale. The contract names the result and claims only that it is the same
/// for the same operands.
#[verifier::external_body]
fn outside_div(a: Decimal, b: Decimal) -> (r: Option<Decimal>)
    requires
        decimal_in_range(a@),
        decimal_in_range(b@),
    ensures
        match r {
            Some(d) => decimal_quotient(a@, b@) == Some(d@),
            None => decimal_quotient(a@, b@) is None,
        },
{
    let x = rust_decimal::Decimal::from_i128_with_scale(a.mantissa, a.scale);
    let y = rust_decimal::Decimal::from_i128_with_scale(b.mantissa, b.scale);
    x.checked_div(y).map(|d| Decimal { mantissa: d.mantissa(), scale: d.scale() })
}

/// The `<` of `rust_decimal::Decimal`. The contract claims that it compares
/// the two numbers by value: after bringing both to one scale, by their
/// mantissas.
#[verifier::external_body]
fn outside_lt(a: Decimal, b: Decimal) -> (r: bool)
    requires
        decimal_in_range(a@),
        decimal_in_range(b@),
    ensures
        r == dec_lt(a@, b@),
{
    let x = rust_decimal::Decimal::from_i128_with_scale(a.mantissa, a.scale);
    let y = rust_decimal::Decimal::from_i128_with_scale(b.mantissa, b.scale);
    x < y
}

/// `rust_decimal::Decimal::round_dp_with_strategy` with the strategy
/// `MidpointAwayFromZero`. The contract claims that a number with more than
/// `dp` fractional digits loses the surplus digits, its magnitude going up by
/// one unit of the last digit kept where the part cut off is at least half of
/// that unit, and that any other number comes back unchanged.
#[verifier::external_body]
fn outside_round_half_away(a: Decimal, dp: u32) -> (r: Decimal)
    requires
        decimal_in_range(a@),
    ensures
        r@ == dec_round_half_away(a@, dp as nat),
{
    let x = rust_decimal::Decimal::from_i128_with_scale(a.mantissa, a.scale);
    let y = x.round_dp_with_strategy(dp, rust_decimal::RoundingStrategy::MidpointAwayFromZero);
    Decimal { mantissa: y.mantissa(), scale: y.scale() }
}

/// The `Display` of `rust_decimal::Decimal`, through `to_string`. The
/// contract claims that the text is the sign, the whole part in decimal
/// digits and, for a scale above zero, a point and exactly that many
/// fractional digits.
#[verifier::external_body]
fn outside_to_text(a: Decimal) -> (r: String)
    requires
        decimal_in_range(a@),
    ensures
        r@ == decimal_text(a@),
{
    rust_decimal::Decimal::from_i128_with_scale(a.mantissa, a.scale).to_string()
}

/// The `FromStr` of `rust_decimal::Decimal`, through `str::parse`. The
/// contract names the result and claims only that it is the same for the same
/// text.
#[verifier::external_body]
fn outside_parse(text: &str) -> (r: Option<Decimal>)
    ensures
        match r {
            Some(d) => decimal_parse(text@) == Some(d@),
            None => decimal_parse(text@) is None,
        },
{
    match text.parse::<rust_decimal::Decimal>() {
        Ok(d) => Some(Decimal { mantissa: d.mantissa(), scale: d.scale() }),
        Err(_) => None,
    }
}

impl Decimal {
    #[verifier::type_invariant]
    pub closed spec fn in_range(self) -> bool {
        decimal_in_range(self@)
    }

    /// The number `mantissa / 10^scale`, or `None` where the mantissa does
    /// not fit in 96 bits or the scale is above 28.
    pub fn try_new(mantissa: i128, scale: u32) -> (r: Option<Decimal>)
        ensures
            match r {
                Some(d) => d@ == (DecimalView { mantissa: mantissa as int, scale: scale as nat }),
                None => !decimal_in_range(
                    DecimalView { mantissa: mantissa as int, scale: scale as nat },
                ),
            },
    {
        if scale <= MAX_SCALE && -MAX_MANTISSA <= mantissa && mantissa <= MAX_MANTISSA {
            Some(Decimal { mantissa, scale })
        } else {
            None
        }
    }

    /// Zero, with scale 0.
    pub fn zero() -> (r: Decimal)
        ensures
            r@ == (DecimalView { mantissa: 0, scale: 0 }),
    {
        Decimal { mantissa: 0, scale: 0 }
    }

    /// A whole number.
    pub fn from_i64(n: i64) -> (r: Decimal)
        ensures
            r@ == (DecimalView { mantissa: n as int, scale: 0 }),
    {
        Decimal { mantissa: n as i128, scale: 0 }
    }

    /// A whole number that is a count.
    pub fn from_u64(n: u64) -> (r: Decimal)
        ensures
            r@ == (DecimalView { mantissa: n as int, scale: 0 }),
    {
        Decimal { mantissa: n as i128, scale: 0 }
    }

    /// The mantissa.
    pub fn mantissa(&self) -> (r: i128)
        ensures
            r == self@.mantissa,
    {
        self.mantissa
    }

    /// The scale.
    pub fn scale(&self) -> (r: u32)
        ensures
            r == self@.scale,
    {
        self.scale
    }

    /// The sum of two numbers, `None` where it overflows.
    pub fn checked_add(self, other: Decimal) -> (r: Option<Decimal>)
        ensures
            match r {
                Some(d) => decimal_sum(self@, other@) == Some(d@),
                None => decimal_sum(self@, other@) is None,
            },
    {
        proof {
            use_type_invariant(&self);
            use_type_invariant(&other);
        }
        outside_add(self, other)
    }

    /// The quotient of two numbers, `None` where it overflows or `other` is
    /// zero.
    pub fn checked_div(self, other: Decimal) -> (r: Option<Decimal>)
        ensures
            match r {
                Some(d) => decimal_quotient(self@, other@) == Some(d@),
                None => decimal_quotient(self@, other@) is None,
            },
    {
        proof {
            use_type_invariant(&self);
            use_type_invariant(&other);
        }
        outside_div(self, other)
    }

    /// Whether this number is less than `other`.
    pub fn less_than(self, other: Decimal) -> (r: bool)
        ensures
            r == dec_lt(self@, other@),
    {
        proof {
            use_type_invariant(&self);
            use_type_invariant(&other);
        }
        outside_lt(self, other)
    }

    /// The larger of the two; `self` where they are equal.
    pub fn max(self, other: Decimal) -> (r: Decimal)
        ensures
            r@ == dec_max(self@, other@),
    {
        if self.less_than(other) {
            other
        } else {
            self
        }
    }

    /// The smaller of the two; `self` where they are equal.
    pub fn min(self, other: Decimal) -> (r: Decimal)
        ensures
            r@ == dec_min(self@, other@),
    {
        if other.less_than(self) {
            other
        } else {
            self
        }
    }

    /// This number with at most `dp` fractional digits, a midpoint rounded
    /// away from zero.
    pub fn round_half_away(self, dp: u32) -> (r: Decimal)
        ensures
            r@ == dec_round_half_away(self@, dp as nat),
    {
        proof {
            use_type_invariant(&self);
        }
        outside_round_half_away(self, dp)
    }

    /// The number as text.
    pub fn to_text(&self) -> (r: String)
        ensures
            r@ == decimal_text(self@),
    {
        proof {
            use_type_invariant(self);
        }
        outside_to_text(*self)
    }

    /// Reads a number from text.
    pub fn parse(text: &str) -> (r: Option<Decimal>)
        ensures
            match r {
                Some(d) => decimal_parse(text@) == Some(d@),
                None => decimal_parse(text@) is None,
            },
    {
        outside_parse(text)
    }
}

/// A whole number is printed as its decimal digits.
pub proof fn lemma_text_of_whole_number(n: int)
    ensures
        decimal_text(DecimalView { mantissa: n, scale: 0 }) == int_text(n),
{
    if n >= 0 {
        assert(Seq::<char>::empty() + nat_text(n as nat) =~= nat_text(n as nat));
    }
}

/// Powers of ten are positive.
pub proof fn lemma_pow10_positive(n: nat)
    ensures
        pow10(n) > 0,
{
    vstd::arithmetic::power::lemma_pow_positive(10, n);
}

/// The order is reflexive.
pub proof fn lemma_dec_le_reflexive(a: DecimalView)
    ensures
        dec_le(a, a),
{
}

/// The order is total: of two numbers one is at most the other, and `<` is
/// the negation of the reversed `<=`.
pub proof fn lemma_dec_le_total(a: DecimalView, b: DecimalView)
    ensures
        dec_le(a, b) || dec_le(b, a),
        dec_lt(a, b) <==> !dec_le(b, a),
        dec_le(a, b) <==> (dec_lt(a, b) || dec_same(a, b)),
{
}

/// The order is transitive.
pub proof fn lemma_dec_le_transitive(a: DecimalView, b: DecimalView, c: DecimalView)
    requires
        dec_le(a, b),
        dec_le(b, c),
    ensures
        dec_le(a, c),
{
    lemma_pow10_positive(a.scale);
    lemma_pow10_positive(b.scale);
    lemma_pow10_positive(c.scale);
    let pa = pow10(a.scale);
    let pb = pow10(b.scale);
    let pc = pow10(c.scale);
    let x = a.mantissa;
    let y = b.mantissa;
    let z = c.mantissa;
    assert(x * pc <= z * pa) by (nonlinear_arith)
        requires
            x * pb <= y * pa,
            y * pc <= z * pb,
            pa > 0,
            pb > 0,
            pc > 0,
    {
        assert((x * pb) * pc <= (y * pa) * pc);
        assert((y * pc) * pa <= (z * pb) * pa);
        assert((x * pc) * pb <= (z * pa) * pb);
    }
}

/// The larger of two numbers is one of them and is at least both.
pub proof fn lemma_dec_max(a: DecimalView, b: DecimalView)
    ensures
        dec_max(a, b) == a || dec_max(a, b) == b,
        dec_le(a, dec_max(a, b)),
        dec_le(b, dec_max(a, b)),
{
}

/// The smaller of two numbers is one of them and is at most both.
pub proof fn lemma_dec_min(a: DecimalView, b: DecimalView)
    ensures
        dec_min(a, b) == a || dec_min(a, b) == b,
        dec_le(dec_min(a, b), a),
        dec_le(dec_min(a, b), b),
{
}

} // verus!
