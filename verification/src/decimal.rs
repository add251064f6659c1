//! Arbitrary-precision decimal numbers.
//!
//! A decimal is an integer of any size (the unscaled value) together with a
//! scale: the number it stands for is `unscaled * 10^(-scale)`. The digits are
//! kept as plain values, so that range checks and narrowing to machine
//! integers never pass through a fixed-width type that could wrap.

use bigdecimal::num_bigint::{BigInt, Sign};
use bigdecimal::BigDecimal;
use std::str::FromStr;
use vstd::arithmetic::div_mod::{
    lemma_basic_div, lemma_div_pos_is_pos, lemma_fundamental_div_mod,
    lemma_fundamental_div_mod_converse, lemma_mod_pos_bound, lemma_small_mod,
};
use vstd::prelude::*;
use vstd::string::is_ascii_spec_bytes;
use vstd::utf8::is_ascii_chars;

verus! {

/// Largest magnitude that the scale of a decimal may have. The bound keeps
/// the work of bringing two decimals to one scale, and the length of the
/// text of a decimal, within reason.
pub const SCALE_LIMIT: i64 = 131072;

/// Largest magnitude of a 64-bit signed integer, `2^63`.
pub const I64_MAGNITUDE: u64 = 0x8000_0000_0000_0000;

/// Longest text, in characters, that is read as a number, `2^62`.
pub const TEXT_LIMIT: u64 = 0x4000_0000_0000_0000;

/// Longest exponent part of the text of a number: the mark and eighteen
/// characters, so that the exponent is below `10^18` in magnitude.
pub const EXPONENT_LIMIT: usize = 19;

/// `10^n`.
pub open spec fn pow10(n: nat) -> nat
    decreases n,
{
    if n == 0 {
        1
    } else {
        10 * pow10((n - 1) as nat)
    }
}

/// The number that a sequence of base-10 digits spells, most significant
/// digit first.
pub open spec fn digits_value(digits: Seq<u8>) -> nat
    decreases digits.len(),
{
    if digits.len() == 0 {
        0
    } else {
        digits_value(digits.drop_last()) * 10 + digits.last() as nat
    }
}

/// Every element is a digit of base 10.
pub open spec fn decimal_digits(digits: Seq<u8>) -> bool {
    forall|i: int| 0 <= i < digits.len() ==> #[trigger] digits[i] <= 9
}

/// The integer with the given sign and magnitude.
pub open spec fn signed(negative: bool, magnitude: nat) -> int {
    if negative {
        -(magnitude as int)
    } else {
        magnitude as int
    }
}

/// The mathematical content of a decimal: it stands for
/// `unscaled * 10^(-scale)`.
pub struct DecimalValue {
    pub unscaled: int,
    pub scale: int,
}

impl DecimalValue {
    /// Absolute value of the unscaled integer.
    pub open spec fn magnitude(self) -> nat {
        if self.unscaled < 0 {
            (-self.unscaled) as nat
        } else {
            self.unscaled as nat
        }
    }

    /// Absolute value of the number with its fractional digits cut off.
    pub open spec fn truncated_magnitude(self) -> nat {
        if self.scale <= 0 {
            self.magnitude() * pow10((-self.scale) as nat)
        } else {
            (self.magnitude() / pow10(self.scale as nat)) as nat
        }
    }

    /// Whether the number has a fractional part other than zero.
    pub open spec fn has_fraction(self) -> bool {
        self.scale > 0 && self.magnitude() % pow10(self.scale as nat) != 0
    }

    /// The number rounded toward zero to an integer.
    pub open spec fn truncated(self) -> int {
        signed(self.unscaled < 0, self.truncated_magnitude())
    }

    /// Whether the number equals the integer `n`.
    pub open spec fn denotes(self, n: int) -> bool {
        if self.scale <= 0 {
            self.unscaled * pow10((-self.scale) as nat) == n
        } else {
            self.unscaled == n * pow10(self.scale as nat)
        }
    }

    /// The larger of the two scales.
    pub open spec fn common_scale(self, other: DecimalValue) -> int {
        if self.scale >= other.scale {
            self.scale
        } else {
            other.scale
        }
    }

    /// The unscaled integer that spells the same number at a scale that is
    /// not smaller.
    pub open spec fn unscaled_at(self, scale: int) -> int {
        self.unscaled * pow10((scale - self.scale) as nat)
    }

    /// The sum, at the larger of the two scales.
    pub open spec fn plus(self, other: DecimalValue) -> DecimalValue {
        let scale = self.common_scale(other);
        DecimalValue { unscaled: self.unscaled_at(scale) + other.unscaled_at(scale), scale }
    }

    /// The difference, at the larger of the two scales.
    pub open spec fn minus(self, other: DecimalValue) -> DecimalValue {
        let scale = self.common_scale(other);
        DecimalValue { unscaled: self.unscaled_at(scale) - other.unscaled_at(scale), scale }
    }

    /// The number with the opposite sign.
    pub open spec fn negated(self) -> DecimalValue {
        DecimalValue { unscaled: -self.unscaled, scale: self.scale }
    }

    /// Whether the number lies in the inclusive range from `lo` to `hi`.
    pub open spec fn within(self, lo: int, hi: int) -> bool {
        if self.scale <= 0 {
            lo <= self.unscaled * pow10((-self.scale) as nat) <= hi
        } else {
            lo * pow10(self.scale as nat) <= self.unscaled <= hi * pow10(self.scale as nat)
        }
    }
}

/// Whether two decimals stand for the same number, whatever their scales.
pub open spec fn same_number(a: DecimalValue, b: DecimalValue) -> bool {
    a.unscaled_at(a.common_scale(b)) == b.unscaled_at(a.common_scale(b))
}

/// Whether a character opens the exponent part of a number.
pub open spec fn is_exponent_mark(c: char) -> bool {
    c == 'e' || c == 'E'
}

/// Texts that are read as numbers at all: ASCII, of bounded length, and with
/// an exponent part, if any, that starts within the last
/// [`EXPONENT_LIMIT`] characters.
pub open spec fn numeric_text(text: Seq<char>) -> bool {
    &&& is_ascii_chars(text)
    &&& text.len() <= TEXT_LIMIT
    &&& forall|i: int|
        0 <= i < text.len() - EXPONENT_LIMIT ==> !is_exponent_mark(#[trigger] text[i])
}

/// The sign, the decimal digits (most significant first) and the scale that
/// `BigDecimal::from_str` of the `bigdecimal` crate reads from a text, or
/// none where it rejects the text.
pub uninterp spec fn parsed_decimal(text: Seq<char>) -> Option<(bool, Seq<u8>, i64)>;

/// The text that the `Display` impl of `bigdecimal::BigDecimal` gives the
/// decimal with this unscaled integer and scale.
pub uninterp spec fn decimal_text(unscaled: int, scale: int) -> Seq<char>;

/// The decimal that a text denotes: what the parser reads from a numeric
/// text, where its digits are decimal and its scale within
/// [`SCALE_LIMIT`].
pub open spec fn decimal_of_text(text: Seq<char>) -> Option<DecimalValue> {
    if !numeric_text(text) {
        None
    } else {
        match parsed_decimal(text) {
            Some((negative, digits, scale)) => if decimal_digits(digits) && -SCALE_LIMIT <= scale
                <= SCALE_LIMIT {
                Some(
                    DecimalValue {
                        unscaled: signed(negative, digits_value(digits)),
                        scale: scale as int,
                    },
                )
            } else {
                None
            },
            None => None,
        }
    }
}

/// A power of ten is positive.
pub proof fn lemma_pow10_positive(n: nat)
    ensures
        pow10(n) >= 1,
    decreases n,
{
    if n > 0 {
        lemma_pow10_positive((n - 1) as nat);
    }
}

/// Powers of ten grow with the exponent.
pub proof fn lemma_pow10_monotonic(a: nat, b: nat)
    requires
        a <= b,
    ensures
        pow10(a) <= pow10(b),
    decreases b,
{
    if a < b {
        lemma_pow10_monotonic(a, (b - 1) as nat);
        lemma_pow10_positive((b - 1) as nat);
    }
}

/// Digits written one after the other: the first group is shifted left by
/// the length of the second.
pub proof fn lemma_digits_value_concat(a: Seq<u8>, b: Seq<u8>)
    ensures
        digits_value(a + b) == digits_value(a) * pow10(b.len()) + digits_value(b),
    decreases b.len(),
{
    if b.len() == 0 {
        assert(a + b =~= a);
        assert(pow10(0) == 1);
        assert(digits_value(b) == 0);
        assert(digits_value(a) * 1 == digits_value(a)) by (nonlinear_arith);
    } else {
        let front = b.drop_last();
        assert((a + b).drop_last() =~= a + front);
        assert((a + b).last() == b.last());
        lemma_digits_value_concat(a, front);
        let x = digits_value(a) as int;
        let y = pow10(front.len()) as int;
        let z = digits_value(front) as int;
        assert(pow10(b.len()) == 10 * y);
        assert(digits_value(a + b) == (x * y + z) * 10 + b.last() as nat);
        assert(digits_value(b) == z * 10 + b.last() as nat);
        assert((x * y + z) * 10 == x * (10 * y) + z * 10) by (nonlinear_arith);
    }
}

/// A number of `n` digits is below `10^n`.
pub proof fn lemma_digits_value_bound(digits: Seq<u8>)
    requires
        decimal_digits(digits),
    ensures
        digits_value(digits) < pow10(digits.len()),
    decreases digits.len(),
{
    if digits.len() > 0 {
        lemma_digits_value_bound(digits.drop_last());
    }
}

/// A number is zero exactly when all of its digits are.
pub proof fn lemma_digits_value_zero(digits: Seq<u8>)
    ensures
        digits_value(digits) == 0 <==> forall|i: int| 0 <= i < digits.len() ==> digits[i] == 0,
    decreases digits.len(),
{
    if digits.len() > 0 {
        let front = digits.drop_last();
        lemma_digits_value_zero(front);
        if digits_value(digits) == 0 {
            assert forall|i: int| 0 <= i < digits.len() implies digits[i] == 0 by {
                if i < front.len() {
                    assert(front[i] == digits[i]);
                }
            }
        }
        if forall|i: int| 0 <= i < digits.len() ==> digits[i] == 0 {
            assert forall|i: int| 0 <= i < front.len() implies front[i] == 0 by {
                assert(front[i] == digits[i]);
            }
            assert(digits.last() == digits[digits.len() - 1]);
        }
    }
}

/// Cutting a number of decimal digits `scale` places from the right gives
/// its quotient and remainder by `10^scale`.
pub proof fn lemma_digits_split_by_scale(digits: Seq<u8>, scale: nat)
    requires
        decimal_digits(digits),
        scale > 0,
    ensures
        ({
            let cut = if digits.len() > scale {
                digits.len() - scale
            } else {
                0
            };
            &&& digits_value(digits) / pow10(scale) == digits_value(digits.take(cut))
            &&& digits_value(digits) % pow10(scale) == digits_value(digits.skip(cut))
        }),
{
    let cut = if digits.len() > scale {
        digits.len() - scale
    } else {
        0
    };
    let high = digits.take(cut);
    let low = digits.skip(cut);
    assert(digits =~= high + low);
    lemma_digits_value_concat(high, low);
    lemma_digits_value_bound(low);
    lemma_pow10_positive(scale);
    if digits.len() >= scale {
        assert(low.len() == scale);
        assert(digits_value(digits) == digits_value(high) * pow10(scale) + digits_value(low));
        lemma_fundamental_div_mod_converse(
            digits_value(digits) as int,
            pow10(scale) as int,
            digits_value(high) as int,
            digits_value(low) as int,
        );
    } else {
        assert(high =~= Seq::<u8>::empty());
        assert(low =~= digits);
        lemma_pow10_monotonic(digits.len(), scale);
        lemma_basic_div(digits_value(digits) as int, pow10(scale) as int);
        lemma_small_mod(digits_value(digits), pow10(scale));
    }
}

/// A number lies in a range of integers exactly when its truncation does,
/// with one bound made strict where a fractional part goes beyond the
/// truncation.
pub proof fn lemma_within_by_truncation(value: DecimalValue, lo: int, hi: int)
    ensures
        value.within(lo, hi) <==> if value.unscaled >= 0 {
            lo <= value.truncated() && if value.has_fraction() {
                value.truncated() < hi
            } else {
                value.truncated() <= hi
            }
        } else {
            value.truncated() <= hi && if value.has_fraction() {
                lo < value.truncated()
            } else {
                lo <= value.truncated()
            }
        },
{
    if value.scale <= 0 {
        let p = pow10((-value.scale) as nat) as int;
        if value.unscaled < 0 {
            assert(value.unscaled * p == -((-value.unscaled) * p)) by (nonlinear_arith);
        }
    } else {
        let p = pow10(value.scale as nat) as int;
        lemma_pow10_positive(value.scale as nat);
        let m = value.magnitude() as int;
        let q = m / p;
        let r = m % p;
        lemma_fundamental_div_mod(m, p);
        assert(0 <= r < p) by {
            lemma_mod_pos_bound(m, p);
        }
        assert(q >= 0) by {
            lemma_div_pos_is_pos(m, p);
        }
        if value.unscaled >= 0 {
            lemma_scaled_bounds(p, q, r, lo, hi);
        } else {
            lemma_scaled_bounds(p, q, r, -hi, -lo);
            assert((-hi) * p == -(hi * p)) by (nonlinear_arith);
            assert((-lo) * p == -(lo * p)) by (nonlinear_arith);
        }
    }
}

/// A number that lies in a range lies in every range that holds it.
pub proof fn lemma_within_wider(value: DecimalValue, lo: int, hi: int, wider_lo: int, wider_hi: int)
    requires
        value.within(lo, hi),
        wider_lo <= lo,
        hi <= wider_hi,
    ensures
        value.within(wider_lo, wider_hi),
{
    lemma_within_by_truncation(value, lo, hi);
    lemma_within_by_truncation(value, wider_lo, wider_hi);
}

/// For `m = q * p + r` with `0 <= r < p`: `lo * p <= m` exactly when
/// `lo <= q`, and `m <= hi * p` exactly when `q <= hi`, or `q < hi` where
/// `r` is not zero.
proof fn lemma_scaled_bounds(p: int, q: int, r: int, lo: int, hi: int)
    requires
        p > 0,
        0 <= r < p,
    ensures
        lo * p <= p * q + r <==> lo <= q,
        p * q + r <= hi * p <==> if r != 0 {
            q < hi
        } else {
            q <= hi
        },
{
    assert(lo <= q ==> lo * p <= p * q) by (nonlinear_arith)
        requires
            p > 0,
    ;
    assert(lo >= q + 1 ==> lo * p >= p * q + p) by (nonlinear_arith)
        requires
            p > 0,
    ;
    assert(q + 1 <= hi ==> p * q + p <= hi * p) by (nonlinear_arith)
        requires
            p > 0,
    ;
    assert(q <= hi ==> p * q <= hi * p) by (nonlinear_arith)
        requires
            p > 0,
    ;
    assert(hi <= q ==> hi * p <= p * q) by (nonlinear_arith)
        requires
            p > 0,
    ;
    assert(hi < q ==> hi * p + p <= p * q) by (nonlinear_arith)
        requires
            p > 0,
    ;
}

/// A number that equals an integer has no fractional part, and the integer
/// is its truncation.
pub proof fn lemma_denotes_truncated(value: DecimalValue, n: int)
    ensures
        value.denotes(n) <==> !value.has_fraction() && value.truncated() == n,
{
    if value.scale <= 0 {
        let p = pow10((-value.scale) as nat) as int;
        if value.unscaled < 0 {
            assert(value.unscaled * p == -((-value.unscaled) * p)) by (nonlinear_arith);
        }
    } else {
        let p = pow10(value.scale as nat) as int;
        lemma_pow10_positive(value.scale as nat);
        let m = value.magnitude() as int;
        lemma_fundamental_div_mod(m, p);
        lemma_mod_pos_bound(m, p);
        lemma_div_pos_is_pos(m, p);
        let q = m / p;
        let r = m % p;
        if value.denotes(n) {
            if value.unscaled >= 0 {
                assert(n >= 0) by (nonlinear_arith)
                    requires
                        n * p >= 0,
                        p > 0,
                ;
                lemma_fundamental_div_mod_converse(m, p, n, 0);
            } else {
                assert((-n) * p == -(n * p)) by (nonlinear_arith);
                assert(-n >= 0) by (nonlinear_arith)
                    requires
                        (-n) * p >= 0,
                        p > 0,
                ;
                lemma_fundamental_div_mod_converse(m, p, -n, 0);
            }
        }
        if !value.has_fraction() && value.truncated() == n {
            assert(m == p * q);
            assert(p * q == q * p) by (nonlinear_arith);
            if value.unscaled < 0 {
                assert((-q) * p == -(q * p)) by (nonlinear_arith);
            }
        }
    }
}

/// Zero has no fractional part and truncates to zero, whatever its scale.
pub proof fn lemma_zero_truncated(value: DecimalValue)
    requires
        value.unscaled == 0,
    ensures
        value.truncated_magnitude() == 0,
        !value.has_fraction(),
{
    if value.scale <= 0 {
        assert(0 * pow10((-value.scale) as nat) == 0) by (nonlinear_arith);
    } else {
        lemma_pow10_positive(value.scale as nat);
        lemma_basic_div(0, pow10(value.scale as nat) as int);
        lemma_small_mod(0, pow10(value.scale as nat));
    }
}

/// An arbitrary-precision decimal number. Its digits are decimal digits and
/// the magnitude of its scale is at most [`SCALE_LIMIT`]. Two decimals are
/// `==` when they have the same sign, digits and scale; whether they stand
/// for the same number is what [`Decimal::same_number`] tells.
#[derive(Debug, PartialEq, Eq)]
pub struct Decimal {
    negative: bool,
    digits: Vec<u8>,
    scale: i64,
}

impl View for Decimal {
    type V = DecimalValue;

    closed spec fn view(&self) -> DecimalValue {
        DecimalValue {
            unscaled: signed(self.negative, digits_value(self.digits@)),
            scale: self.scale as int,
        }
    }
}

impl DeepView for Decimal {
    type V = DecimalValue;

    open spec fn deep_view(&self) -> DecimalValue {
        self@
    }
}

/// The number spelled by the first `end` digits, unless it is above `2^63`.
fn leading_value(digits: &Vec<u8>, end: usize) -> (r: Option<u64>)
    requires
        end <= digits@.len(),
    ensures
        match r {
            Some(v) => v == digits_value(digits@.take(end as int)) && v <= I64_MAGNITUDE,
            None => digits_value(digits@.take(end as int)) > I64_MAGNITUDE,
        },
{
    let mut acc: u64 = 0;
    let mut i: usize = 0;
    while i < end
        invariant
            i <= end <= digits@.len(),
            acc == digits_value(digits@.take(i as int)),
            acc <= I64_MAGNITUDE,
        decreases end - i,
    {
        let next: u128 = acc as u128 * 10 + digits[i] as u128;
        proof {
            let longer = digits@.take(i + 1);
            assert(longer.drop_last() =~= digits@.take(i as int));
            assert(longer.last() == digits@[i as int]);
            assert(next == digits_value(longer));
            if next > I64_MAGNITUDE {
                let rest = digits@.subrange(i + 1, end as int);
                assert(digits@.take(end as int) =~= longer + rest);
                lemma_digits_value_concat(longer, rest);
                lemma_pow10_positive(rest.len());
                assert(digits_value(longer) * pow10(rest.len()) >= digits_value(longer))
                    by (nonlinear_arith)
                    requires
                        pow10(rest.len()) >= 1,
                ;
            }
        }
        if next > I64_MAGNITUDE as u128 {
            return None;
        }
        acc = next as u64;
        i += 1;
    }
    Some(acc)
}

/// Calls `BigDecimal::from_str` of the `bigdecimal` crate and takes the
/// result apart with `into_bigint_and_exponent` and `BigInt::to_radix_be`.
/// The contract names what the parser reads and claims nothing else of it.
/// The parser computes the scale in 64 bits, as the number of digits behind
/// the point less the exponent: on a numeric text the first is at most
/// `2^62` and the second below `10^18` in magnitude, so the difference
/// fits.
#[verifier::external_body]
fn parse_decimal(text: &str) -> (r: Option<(bool, Vec<u8>, i64)>)
    requires
        numeric_text(text@),
    ensures
        r matches Some(parts) ==> parsed_decimal(text@) == Some((parts.0, parts.1@, parts.2)),
        r is None ==> parsed_decimal(text@) is None,
{
    match BigDecimal::from_str(text) {
        Ok(value) => {
            let (unscaled, scale) = value.into_bigint_and_exponent();
            let (sign, digits) = unscaled.to_radix_be(10);
            Some((matches!(sign, Sign::Minus), digits, scale))
        },
        Err(_) => None,
    }
}

/// Formats a decimal with the `Display` impl of `bigdecimal::BigDecimal`,
/// built by `BigInt::from_radix_be` and `BigDecimal::new`. The contract
/// names the text and claims nothing else of it. A [`Decimal`] holds
/// decimal digits, which `from_radix_be` takes, and a scale within
/// [`SCALE_LIMIT`], which bounds the zeros that the text is padded with.
#[verifier::external_body]
fn format_decimal(value: &Decimal) -> (r: String)
    ensures
        r@ == decimal_text(value@.unscaled, value@.scale),
{
    let sign = if value.negative { Sign::Minus } else { Sign::Plus };
    let unscaled = BigInt::from_radix_be(sign, &value.digits, 10).unwrap_or_default();
    BigDecimal::new(unscaled, value.scale).to_string()
}

/// Adds two decimals with `Add` of `bigdecimal::BigDecimal`, which brings
/// both operands to the larger scale and adds the unscaled integers. The
/// result comes back through `BigInt::to_radix_be` as sign, digits of base
/// ten and scale. The scales of two [`Decimal`]s differ by at most twice
/// [`SCALE_LIMIT`], which bounds the zeros that an operand is padded with.
#[verifier::external_body]
fn add_decimals(left: &Decimal, right: &Decimal) -> (r: (bool, Vec<u8>, i64))
    ensures
        decimal_digits(r.1@),
        signed(r.0, digits_value(r.1@)) == left@.plus(right@).unscaled,
        r.2 == left@.plus(right@).scale,
{
    let a = if left.negative { Sign::Minus } else { Sign::Plus };
    let b = if right.negative { Sign::Minus } else { Sign::Plus };
    let x = BigDecimal::new(BigInt::from_radix_be(a, &left.digits, 10).unwrap_or_default(), left.scale);
    let y = BigDecimal::new(BigInt::from_radix_be(b, &right.digits, 10).unwrap_or_default(), right.scale);
    let (unscaled, scale) = (x + y).into_bigint_and_exponent();
    let (sign, digits) = unscaled.to_radix_be(10);
    (matches!(sign, Sign::Minus), digits, scale)
}

/// Subtracts two decimals with `Sub` of `bigdecimal::BigDecimal`, which
/// brings both operands to the larger scale and subtracts the unscaled
/// integers. The result comes back through `BigInt::to_radix_be` as sign,
/// digits of base ten and scale. The scales of two [`Decimal`]s differ by
/// at most twice [`SCALE_LIMIT`], which bounds the zeros that an operand is
/// padded with.
#[verifier::external_body]
fn subtract_decimals(left: &Decimal, right: &Decimal) -> (r: (bool, Vec<u8>, i64))
    ensures
        decimal_digits(r.1@),
        signed(r.0, digits_value(r.1@)) == left@.minus(right@).unscaled,
        r.2 == left@.minus(right@).scale,
{
    let a = if left.negative { Sign::Minus } else { Sign::Plus };
    let b = if right.negative { Sign::Minus } else { Sign::Plus };
    let x = BigDecimal::new(BigInt::from_radix_be(a, &left.digits, 10).unwrap_or_default(), left.scale);
    let y = BigDecimal::new(BigInt::from_radix_be(b, &right.digits, 10).unwrap_or_default(), right.scale);
    let (unscaled, scale) = (x - y).into_bigint_and_exponent();
    let (sign, digits) = unscaled.to_radix_be(10);
    (matches!(sign, Sign::Minus), digits, scale)
}

/// Whether a text is read as a number at all.
pub fn is_numeric_text(text: &str) -> (r: bool)
    ensures
        r == numeric_text(text@),
{
    if !text.is_ascii() {
        return false;
    }
    let bytes = text.as_bytes();
    let len = bytes.len();
    proof {
        is_ascii_spec_bytes(text);
        assert(bytes@.len() == text@.len());
    }
    if len as u64 > TEXT_LIMIT {
        return false;
    }
    if len <= EXPONENT_LIMIT {
        return true;
    }
    let end = len - EXPONENT_LIMIT;
    let mut i: usize = 0;
    while i < end
        invariant
            i <= end,
            end == text@.len() - EXPONENT_LIMIT,
            bytes@.len() == text@.len(),
            is_ascii_chars(text@),
            text@.len() <= TEXT_LIMIT,
            forall|j: int| 0 <= j < text@.len() ==> bytes@[j] == #[trigger] text@[j] as u8,
            forall|j: int| 0 <= j < i ==> !is_exponent_mark(#[trigger] text@[j]),
        decreases end - i,
    {
        let b = bytes[i];
        proof {
            let c = text@[i as int];
            assert('\0' <= c <= '\u{7f}');
            assert(c as u8 == b);
            assert(is_exponent_mark(c) <==> (b == 101 || b == 69));
        }
        if b == 101 || b == 69 {
            return false;
        }
        i += 1;
    }
    true
}

impl Clone for Decimal {
    /// A decimal with the same content.
    fn clone(&self) -> (r: Decimal)
        ensures
            r@ == self@,
    {
        proof {
            use_type_invariant(self);
        }
        let mut digits: Vec<u8> = Vec::new();
        let mut i: usize = 0;
        while i < self.digits.len()
            invariant
                i <= self.digits@.len(),
                digits@ == self.digits@.take(i as int),
            decreases self.digits@.len() - i,
        {
            digits.push(self.digits[i]);
            proof {
                assert(digits@ =~= self.digits@.take(i + 1));
            }
            i += 1;
        }
        proof {
            assert(digits@ =~= self.digits@);
        }
        Decimal { negative: self.negative, digits, scale: self.scale }
    }
}

impl Decimal {
    #[verifier::type_invariant]
    spec fn well_formed(self) -> bool {
        &&& decimal_digits(self.digits@)
        &&& -SCALE_LIMIT <= self.scale <= SCALE_LIMIT
    }

    /// The decimal with the given sign, digits (most significant first) and
    /// scale; `None` unless every digit is below ten and the scale is within
    /// [`SCALE_LIMIT`].
    pub fn from_parts(negative: bool, digits: Vec<u8>, scale: i64) -> (r: Option<Decimal>)
        ensures
            r is Some <==> decimal_digits(digits@) && -SCALE_LIMIT <= scale <= SCALE_LIMIT,
            r matches Some(d) ==> d@ == (DecimalValue {
                unscaled: signed(negative, digits_value(digits@)),
                scale: scale as int,
            }),
    {
        if scale < -SCALE_LIMIT || scale > SCALE_LIMIT {
            return None;
        }
        let mut i: usize = 0;
        while i < digits.len()
            invariant
                i <= digits@.len(),
                forall|j: int| 0 <= j < i ==> #[trigger] digits@[j] <= 9,
            decreases digits@.len() - i,
        {
            if digits[i] > 9 {
                return None;
            }
            i += 1;
        }
        Some(Decimal { negative, digits, scale })
    }

    /// The decimal that equals `n`, with scale zero.
    pub fn from_i64(n: i64) -> (r: Decimal)
        ensures
            r@ == (DecimalValue { unscaled: n as int, scale: 0 }),
    {
        let magnitude: u64 = if n < 0 {
            (-(n as i128)) as u64
        } else {
            n as u64
        };
        let mut digits: Vec<u8> = Vec::new();
        let mut rest: u64 = magnitude;
        let mut divisor: u64 = 1_000_000_000_000_000_000;
        let mut place: usize = 19;
        proof {
            reveal_with_fuel(pow10, 20);
            assert(pow10(18) == 1_000_000_000_000_000_000);
            assert(digits_value(digits@) * pow10(19) == 0) by (nonlinear_arith)
                requires
                    digits_value(digits@) == 0,
            ;
        }
        while place > 0
            invariant
                place <= 19,
                place > 0 ==> divisor == pow10((place - 1) as nat),
                rest < pow10(place as nat),
                digits_value(digits@) * pow10(place as nat) + rest == magnitude,
                decimal_digits(digits@),
            decreases place,
        {
            place -= 1;
            let digit: u64 = rest / divisor;
            let below: u64 = rest % divisor;
            proof {
                let d = divisor as int;
                lemma_fundamental_div_mod(rest as int, d);
                lemma_mod_pos_bound(rest as int, d);
                assert(pow10((place + 1) as nat) == 10 * pow10(place as nat));
                assert(digit <= 9) by (nonlinear_arith)
                    requires
                        rest == d * digit + below,
                        below >= 0,
                        rest < 10 * d,
                        d > 0,
                ;
                let v = digits_value(digits@) as int;
                assert((v * 10 + digit) * d + below == v * (10 * d) + rest) by (nonlinear_arith)
                    requires
                        rest == d * digit + below,
                ;
                let pushed = digits@.push(digit as u8);
                assert(pushed.drop_last() =~= digits@);
                assert(pushed.last() == digit as u8);
                if place > 0 {
                    assert(pow10(place as nat) == 10 * pow10((place - 1) as nat));
                }
            }
            if digit != 0 || digits.len() > 0 || place == 0 {
                digits.push(digit as u8);
            } else {
                proof {
                    assert(digits_value(digits@) == 0);
                    assert(0 * pow10(place as nat) == 0) by (nonlinear_arith);
                }
            }
            rest = below;
            if place > 0 {
                divisor = divisor / 10;
            }
        }
        proof {
            assert(pow10(0) == 1);
            assert(digits_value(digits@) * 1 == digits_value(digits@)) by (nonlinear_arith);
        }
        Decimal { negative: n < 0, digits, scale: 0 }
    }

    /// The decimal that a text denotes, as [`decimal_of_text`] defines it.
    pub fn parse(text: &str) -> (r: Option<Decimal>)
        ensures
            r is Some <==> decimal_of_text(text@) is Some,
            r matches Some(d) ==> decimal_of_text(text@) == Some(d@),
    {
        if !is_numeric_text(text) {
            return None;
        }
        match parse_decimal(text) {
            Some((negative, digits, scale)) => Decimal::from_parts(negative, digits, scale),
            None => None,
        }
    }

    /// The decimal as text.
    pub fn to_text(&self) -> (r: String)
        ensures
            r@ == decimal_text(self@.unscaled, self@.scale),
    {
        format_decimal(self)
    }

    /// The sum of two decimals.
    pub fn plus(&self, other: &Decimal) -> (r: Decimal)
        ensures
            r@ == self@.plus(other@),
    {
        proof {
            use_type_invariant(self);
            use_type_invariant(other);
        }
        let (negative, digits, scale) = add_decimals(self, other);
        Decimal { negative, digits, scale }
    }

    /// The difference of two decimals.
    pub fn minus(&self, other: &Decimal) -> (r: Decimal)
        ensures
            r@ == self@.minus(other@),
    {
        proof {
            use_type_invariant(self);
            use_type_invariant(other);
        }
        let (negative, digits, scale) = subtract_decimals(self, other);
        Decimal { negative, digits, scale }
    }

    /// Whether the decimal is zero.
    pub fn is_zero(&self) -> (r: bool)
        ensures
            r == (self@.unscaled == 0),
    {
        let mut i: usize = 0;
        while i < self.digits.len()
            invariant
                i <= self.digits@.len(),
                forall|j: int| 0 <= j < i ==> self.digits@[j] == 0,
            decreases self.digits@.len() - i,
        {
            if self.digits[i] != 0 {
                proof {
                    lemma_digits_value_zero(self.digits@);
                }
                return false;
            }
            i += 1;
        }
        proof {
            lemma_digits_value_zero(self.digits@);
        }
        true
    }

    /// Whether two decimals stand for the same number, whatever their
    /// scales: their difference is zero.
    pub fn same_number(&self, other: &Decimal) -> (r: bool)
        ensures
            r == same_number(self@, other@),
    {
        self.minus(other).is_zero()
    }

    /// The decimal with the opposite sign.
    pub fn negated(&self) -> (r: Decimal)
        ensures
            r@ == self@.negated(),
    {
        proof {
            use_type_invariant(self);
        }
        let zero = self.is_zero();
        let copy = self.clone();
        proof {
            use_type_invariant(&copy);
        }
        Decimal { negative: !zero && !copy.negative, digits: copy.digits, scale: copy.scale }
    }

    /// The scale of the decimal.
    pub fn scale(&self) -> (r: i64)
        ensures
            r == self@.scale,
            -SCALE_LIMIT <= r <= SCALE_LIMIT,
    {
        proof {
            use_type_invariant(self);
        }
        self.scale
    }

    /// Index of the first digit behind the decimal point, for a positive
    /// scale; the number of digits otherwise.
    fn fraction_start(&self) -> (cut: usize)
        ensures
            cut <= self.digits@.len(),
            self@.scale > 0 ==> digits_value(self.digits@.take(cut as int))
                == self@.truncated_magnitude() && digits_value(self.digits@.skip(cut as int))
                == self@.magnitude() % pow10(self@.scale as nat),
            self@.scale <= 0 ==> cut == self.digits@.len(),
    {
        proof {
            use_type_invariant(self);
            if self.scale > 0 {
                lemma_digits_split_by_scale(self.digits@, self.scale as nat);
            }
        }
        let len = self.digits.len();
        if self.scale <= 0 {
            len
        } else if self.scale as u64 >= len as u64 {
            0
        } else {
            len - self.scale as usize
        }
    }

    /// Whether the decimal has a fractional part other than zero.
    pub fn has_fraction(&self) -> (r: bool)
        ensures
            r == self@.has_fraction(),
    {
        let cut = self.fraction_start();
        let mut i: usize = cut;
        while i < self.digits.len()
            invariant
                cut <= i <= self.digits@.len(),
                self@.scale <= 0 ==> cut == self.digits@.len(),
                self@.scale > 0 ==> digits_value(self.digits@.skip(cut as int))
                    == self@.magnitude() % pow10(self@.scale as nat),
                forall|j: int| cut <= j < i ==> self.digits@[j] == 0,
            decreases self.digits@.len() - i,
        {
            if self.digits[i] != 0 {
                proof {
                    let low = self.digits@.skip(cut as int);
                    lemma_digits_value_zero(low);
                    assert(low[i - cut] == self.digits@[i as int]);
                    assert(digits_value(low) != 0);
                    assert(self@.scale > 0);
                }
                return true;
            }
            i += 1;
        }
        proof {
            lemma_digits_value_zero(self.digits@.skip(cut as int));
        }
        false
    }

    /// The magnitude of the truncated decimal, unless it is above `2^63`.
    fn integral_magnitude(&self) -> (r: Option<u64>)
        ensures
            match r {
                Some(m) => m == self@.truncated_magnitude() && m <= I64_MAGNITUDE,
                None => self@.truncated_magnitude() > I64_MAGNITUDE,
            },
    {
        proof {
            use_type_invariant(self);
        }
        let cut = self.fraction_start();
        let leading = leading_value(&self.digits, cut);
        if self.scale > 0 {
            return leading;
        }
        proof {
            assert(self.digits@.take(cut as int) =~= self.digits@);
            lemma_pow10_positive((-self.scale) as nat);
            assert(self@.magnitude() * pow10((-self.scale) as nat) >= self@.magnitude())
                by (nonlinear_arith)
                requires
                    pow10((-self.scale) as nat) >= 1,
            ;
        }
        match leading {
            None => None,
            Some(value) => {
                if value == 0 {
                    proof {
                        assert(0 * pow10((-self.scale) as nat) == 0) by (nonlinear_arith);
                    }
                    return Some(0);
                }
                let zeros: i64 = -self.scale;
                let mut acc: u64 = value;
                let mut k: i64 = 0;
                proof {
                    assert(value * pow10(0) == value) by (nonlinear_arith)
                        requires
                            pow10(0) == 1,
                    ;
                }
                while k < zeros
                    invariant
                        0 <= k <= zeros,
                        zeros == -self@.scale,
                        value == self@.magnitude(),
                        acc == value * pow10(k as nat),
                        acc <= I64_MAGNITUDE,
                        value >= 1,
                    decreases zeros - k,
                {
                    let next: u128 = acc as u128 * 10;
                    proof {
                        assert(pow10((k + 1) as nat) == 10 * pow10(k as nat));
                        assert(next == value * pow10((k + 1) as nat)) by (nonlinear_arith)
                            requires
                                next == value * pow10(k as nat) * 10,
                                pow10((k + 1) as nat) == 10 * pow10(k as nat),
                        ;
                        if next > I64_MAGNITUDE {
                            lemma_pow10_monotonic((k + 1) as nat, zeros as nat);
                            assert(value * pow10(zeros as nat) >= value * pow10((k + 1) as nat))
                                by (nonlinear_arith)
                                requires
                                    pow10(zeros as nat) >= pow10((k + 1) as nat),
                                    value >= 1,
                            ;
                        }
                    }
                    if next > I64_MAGNITUDE as u128 {
                        return None;
                    }
                    acc = next as u64;
                    k += 1;
                }
                Some(acc)
            },
        }
    }

    /// Whether the decimal lies in the inclusive range from `lo` to `hi`.
    pub fn is_within(&self, lo: i64, hi: i64) -> (r: bool)
        ensures
            r == self@.within(lo as int, hi as int),
    {
        proof {
            lemma_within_by_truncation(self@, lo as int, hi as int);
            if self@.unscaled == 0 {
                lemma_zero_truncated(self@);
            }
        }
        let fraction = self.has_fraction();
        match self.integral_magnitude() {
            None => false,
            Some(m) => {
                if self.negative {
                    let t: i128 = -(m as i128);
                    t <= hi as i128 && if fraction {
                        (lo as i128) < t
                    } else {
                        lo as i128 <= t
                    }
                } else {
                    let t: i128 = m as i128;
                    lo as i128 <= t && if fraction {
                        t < hi as i128
                    } else {
                        t <= hi as i128
                    }
                }
            },
        }
    }

    /// The decimal rounded toward zero, where that fits in 64 bits.
    pub fn to_i64(&self) -> (r: Option<i64>)
        ensures
            r == if i64::MIN <= self@.truncated() <= i64::MAX {
                Some(self@.truncated() as i64)
            } else {
                None
            },
    {
        proof {
            if self@.unscaled == 0 {
                lemma_zero_truncated(self@);
            }
        }
        match self.integral_magnitude() {
            None => None,
            Some(m) => {
                if self.negative {
                    Some((-(m as i128)) as i64)
                } else if m < I64_MAGNITUDE {
                    Some(m as i64)
                } else {
                    None
                }
            },
        }
    }

    /// The decimal rounded toward zero, where that fits in 32 bits.
    pub fn to_i32(&self) -> (r: Option<i32>)
        ensures
            r == if i32::MIN <= self@.truncated() <= i32::MAX {
                Some(self@.truncated() as i32)
            } else {
                None
            },
    {
        match self.to_i64() {
            Some(n) if i32::MIN as i64 <= n && n <= i32::MAX as i64 => Some(n as i32),
            _ => None,
        }
    }

    /// The decimal rounded toward zero, where that fits in 16 bits.
    pub fn to_i16(&self) -> (r: Option<i16>)
        ensures
            r == if i16::MIN <= self@.truncated() <= i16::MAX {
                Some(self@.truncated() as i16)
            } else {
                None
            },
    {
        match self.to_i64() {
            Some(n) if i16::MIN as i64 <= n && n <= i16::MAX as i64 => Some(n as i16),
            _ => None,
        }
    }
}

} // verus!
