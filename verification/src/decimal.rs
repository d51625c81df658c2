//! Arbitrary-precision decimal numbers.
//!
//! A [`Decimal`] is an integer of any size together with a scale: it stands for
//! `unscaled * 10^(-scale)`. The integer is held as its bytes in two's
//! complement, least significant first. The arithmetic itself is done by the
//! `bigdecimal` and `num` crates; the functions at the end of this file that
//! call them are trusted, everything else is verified against their contracts.
use bigdecimal::BigDecimal;
use num::BigInt;
use vstd::prelude::*;

verus! {

/// Largest magnitude of the scale of a well-formed decimal.
pub const SCALE_LIMIT: i64 = 0x1_0000_0000;

/// `10^n`.
pub open spec fn pow10(n: nat) -> nat
    decreases n,
{
    if n == 0 {
        1
    } else {
        10 * pow10((n - 1) as nat)
    }
}

/// Integer division that rounds toward zero, for a positive divisor.
pub open spec fn trunc_div(a: int, d: int) -> int {
    if a >= 0 {
        a / d
    } else {
        -((-a) / d)
    }
}

/// `256^n`.
pub open spec fn pow256(n: nat) -> nat
    decreases n,
{
    if n == 0 {
        1
    } else {
        256 * pow256((n - 1) as nat)
    }
}

/// The natural number that the bytes stand for, least significant first.
pub open spec fn bytes_value(bytes: Seq<u8>) -> nat
    decreases bytes.len(),
{
    if bytes.len() == 0 {
        0
    } else {
        bytes[0] as nat + 256 * bytes_value(bytes.drop_first())
    }
}

/// The integer that the bytes stand for in two's complement, least
/// significant first: the top bit of the last byte has negative weight. No
/// bytes stand for zero.
pub open spec fn signed_value(bytes: Seq<u8>) -> int {
    if bytes.len() > 0 && bytes.last() >= 128 {
        bytes_value(bytes) - pow256(bytes.len())
    } else {
        bytes_value(bytes) as int
    }
}

/// What a decimal is, mathematically: the number `unscaled * 10^(-scale)`.
pub struct DecimalValue {
    pub unscaled: int,
    pub scale: int,
}

impl DecimalValue {
    /// The same number written with another scale. Raising the scale appends
    /// zeros; lowering it drops digits, rounding toward zero.
    pub open spec fn rescaled(self, scale: int) -> DecimalValue {
        if scale >= self.scale {
            DecimalValue { unscaled: self.unscaled * pow10((scale - self.scale) as nat), scale }
        } else {
            DecimalValue {
                unscaled: trunc_div(self.unscaled, pow10((self.scale - scale) as nat) as int),
                scale,
            }
        }
    }

    /// Sum of two numbers of one scale.
    pub open spec fn plus(self, other: DecimalValue) -> DecimalValue
        recommends
            self.scale == other.scale,
    {
        DecimalValue { unscaled: self.unscaled + other.unscaled, scale: self.scale }
    }

    /// Difference of two numbers of one scale.
    pub open spec fn minus(self, other: DecimalValue) -> DecimalValue
        recommends
            self.scale == other.scale,
    {
        DecimalValue { unscaled: self.unscaled - other.unscaled, scale: self.scale }
    }

    /// Exact product.
    pub open spec fn times(self, other: DecimalValue) -> DecimalValue {
        DecimalValue {
            unscaled: self.unscaled * other.unscaled,
            scale: self.scale + other.scale,
        }
    }

    /// Quotient by a positive integer, rounded toward zero at the number's scale.
    pub open spec fn over(self, divisor: int) -> DecimalValue {
        DecimalValue { unscaled: trunc_div(self.unscaled, divisor), scale: self.scale }
    }

    /// `self < other` as numbers, whatever their scales.
    pub open spec fn less_than(self, other: DecimalValue) -> bool {
        let top = if self.scale >= other.scale {
            self.scale
        } else {
            other.scale
        };
        self.unscaled * pow10((top - self.scale) as nat) < other.unscaled * pow10(
            (top - other.scale) as nat,
        )
    }

    /// Sum at `precision` fractional digits.
    pub open spec fn plus_at(self, other: DecimalValue, precision: nat) -> DecimalValue {
        self.rescaled(precision as int).plus(other.rescaled(precision as int))
    }

    /// Difference at `precision` fractional digits.
    pub open spec fn minus_at(self, other: DecimalValue, precision: nat) -> DecimalValue {
        self.rescaled(precision as int).minus(other.rescaled(precision as int))
    }

    /// Product, cut to `precision` fractional digits.
    pub open spec fn times_at(self, other: DecimalValue, precision: nat) -> DecimalValue {
        self.times(other).rescaled(precision as int)
    }

    /// Quotient by a positive integer at `precision` fractional digits.
    pub open spec fn over_at(self, divisor: int, precision: nat) -> DecimalValue {
        self.rescaled(precision as int).over(divisor)
    }
}

/// An arbitrary-precision decimal number.
#[derive(Debug)]
pub struct Decimal {
    /// The unscaled integer in two's complement, least significant byte first.
    pub bytes: Vec<u8>,
    /// Number of decimal digits to the right of the point.
    pub scale: i64,
}

impl View for Decimal {
    type V = DecimalValue;

    open spec fn view(&self) -> DecimalValue {
        DecimalValue { unscaled: signed_value(self.bytes@), scale: self.scale as int }
    }
}

impl Clone for Decimal {
    fn clone(&self) -> (r: Self)
        ensures
            r.bytes@ == self.bytes@,
            r.scale == self.scale,
    {
        let bytes = self.bytes.clone();
        assert(bytes@ =~= self.bytes@);
        Decimal { bytes, scale: self.scale }
    }
}

/// `10^n` is positive.
pub proof fn lemma_pow10_positive(n: nat)
    ensures
        pow10(n) > 0,
    decreases n,
{
    if n > 0 {
        lemma_pow10_positive((n - 1) as nat);
    }
}

/// Zero stays zero under any change of scale.
pub proof fn lemma_rescaled_zero(value: DecimalValue, scale: int)
    requires
        value.unscaled == 0,
    ensures
        value.rescaled(scale) == (DecimalValue { unscaled: 0, scale }),
{
    if scale < value.scale {
        let d = pow10((value.scale - scale) as nat) as int;
        lemma_pow10_positive((value.scale - scale) as nat);
        assert(0int / d == 0) by (nonlinear_arith)
            requires
                d > 0,
        ;
    }
}

/// A number that already has the scale asked for is left as it is.
pub proof fn lemma_rescaled_same(value: DecimalValue)
    ensures
        value.rescaled(value.scale) == value,
{
    assert(pow10(0) == 1);
    assert(value.unscaled * 1 == value.unscaled);
}

/// Numbers of one scale compare as their unscaled integers do.
pub proof fn lemma_less_than_same_scale(a: DecimalValue, b: DecimalValue)
    requires
        a.scale == b.scale,
    ensures
        a.less_than(b) == (a.unscaled < b.unscaled),
{
    let one = pow10(0) as int;
    assert(one == 1);
    assert(a.unscaled * one == a.unscaled && b.unscaled * one == b.unscaled) by (nonlinear_arith)
        requires
            one == 1,
    ;
}

impl Decimal {
    /// The scale is small enough for every operation of this module.
    pub open spec fn wf(&self) -> bool {
        -SCALE_LIMIT <= self.scale <= SCALE_LIMIT
    }

    /// Whether the decimal is well-formed.
    pub fn is_wf(&self) -> (r: bool)
        ensures
            r == self.wf(),
    {
        -SCALE_LIMIT <= self.scale && self.scale <= SCALE_LIMIT
    }

    /// The decimal with the given bytes and scale, if the scale is within the
    /// limit.
    pub fn from_bytes(bytes: Vec<u8>, scale: i64) -> (r: Option<Decimal>)
        ensures
            r is Some <==> -SCALE_LIMIT <= scale <= SCALE_LIMIT,
            r is Some ==> {
                &&& r->Some_0.wf()
                &&& r->Some_0.bytes == bytes
                &&& r->Some_0.scale == scale
            },
    {
        if -SCALE_LIMIT <= scale && scale <= SCALE_LIMIT {
            Some(Decimal { bytes, scale })
        } else {
            None
        }
    }

    /// The integer `n`.
    pub fn from_u32(n: u32) -> (r: Decimal)
        ensures
            r.wf(),
            r@ == (DecimalValue { unscaled: n as int, scale: 0 }),
    {
        Decimal { bytes: le_bytes(n as u64), scale: 0 }
    }

    /// The number `value * 10^(-scale)`.
    pub fn from_i64(value: i64, scale: i32) -> (r: Decimal)
        ensures
            r.wf(),
            r@ == (DecimalValue { unscaled: value as int, scale: scale as int }),
    {
        // the bit pattern of `value`: `value + 2^64` where it is negative
        let pattern: u64 = if value >= 0 {
            value as u64
        } else {
            (value - i64::MIN) as u64 + 0x8000_0000_0000_0000u64
        };
        let bytes = le_bytes(pattern);
        proof {
            lemma_pow256_8();
        }
        Decimal { bytes, scale: scale as i64 }
    }

    /// The same number with exactly `precision` fractional digits; digits
    /// beyond them are dropped, rounding toward zero.
    pub fn rescale(&self, precision: u32) -> (r: Decimal)
        requires
            self.wf(),
        ensures
            r.wf(),
            r@ == self@.rescaled(precision as int),
    {
        raw_rescale(self, precision as i64)
    }

    /// Sum of the two numbers, each first brought to `precision` fractional
    /// digits.
    pub fn add_at(&self, other: &Decimal, precision: u32) -> (r: Decimal)
        requires
            self.wf(),
            other.wf(),
        ensures
            r.wf(),
            r@ == self@.plus_at(other@, precision as nat),
    {
        let a = raw_rescale(self, precision as i64);
        let b = raw_rescale(other, precision as i64);
        raw_sum(&a, &b)
    }

    /// Difference of the two numbers, each first brought to `precision`
    /// fractional digits.
    pub fn sub_at(&self, other: &Decimal, precision: u32) -> (r: Decimal)
        requires
            self.wf(),
            other.wf(),
        ensures
            r.wf(),
            r@ == self@.minus_at(other@, precision as nat),
    {
        let a = raw_rescale(self, precision as i64);
        let b = raw_rescale(other, precision as i64);
        raw_difference(&a, &b)
    }

    /// Product of the two numbers, cut to `precision` fractional digits.
    pub fn mul_at(&self, other: &Decimal, precision: u32) -> (r: Decimal)
        requires
            self.wf(),
            other.wf(),
        ensures
            r.wf(),
            r@ == self@.times_at(other@, precision as nat),
    {
        let exact = raw_product(self, other);
        raw_rescale(&exact, precision as i64)
    }

    /// The number divided by `divisor`, at `precision` fractional digits,
    /// rounded toward zero.
    pub fn div_at(&self, divisor: u32, precision: u32) -> (r: Decimal)
        requires
            self.wf(),
            divisor > 0,
        ensures
            r.wf(),
            r@ == self@.over_at(divisor as int, precision as nat),
    {
        let a = raw_rescale(self, precision as i64);
        raw_quotient(&a, divisor)
    }

    /// Whether `self` is the smaller number.
    pub fn less_than(&self, other: &Decimal) -> (r: bool)
        requires
            self.wf(),
            other.wf(),
        ensures
            r == self@.less_than(other@),
    {
        let top = if self.scale >= other.scale {
            self.scale
        } else {
            other.scale
        };
        let a = raw_rescale(self, top);
        let b = raw_rescale(other, top);
        raw_less(&a, &b)
    }
}

/// `256^8 = 2^64`.
proof fn lemma_pow256_8()
    ensures
        pow256(8) == 0x1_0000_0000_0000_0000,
{
    reveal_with_fuel(pow256, 9);
}

/// The value of eight bytes, written out.
proof fn lemma_bytes_value_8(bytes: Seq<u8>)
    requires
        bytes.len() == 8,
    ensures
        bytes_value(bytes) == bytes[0] + 0x100 * bytes[1] + 0x1_0000 * bytes[2] + 0x100_0000
            * bytes[3] + 0x1_0000_0000 * bytes[4] + 0x100_0000_0000 * bytes[5]
            + 0x1_0000_0000_0000 * bytes[6] + 0x100_0000_0000_0000 * bytes[7],
{
    let s1 = bytes.drop_first();
    let s2 = s1.drop_first();
    let s3 = s2.drop_first();
    let s4 = s3.drop_first();
    let s5 = s4.drop_first();
    let s6 = s5.drop_first();
    let s7 = s6.drop_first();
    let s8 = s7.drop_first();
    assert(bytes_value(s8) == 0);
    assert(bytes_value(s7) == s7[0] + 256 * bytes_value(s8));
    assert(bytes_value(s6) == s6[0] + 256 * bytes_value(s7));
    assert(bytes_value(s5) == s5[0] + 256 * bytes_value(s6));
    assert(bytes_value(s4) == s4[0] + 256 * bytes_value(s5));
    assert(bytes_value(s3) == s3[0] + 256 * bytes_value(s4));
    assert(bytes_value(s2) == s2[0] + 256 * bytes_value(s3));
    assert(bytes_value(s1) == s1[0] + 256 * bytes_value(s2));
    assert(bytes_value(bytes) == bytes[0] + 256 * bytes_value(s1));
}

/// The eight bytes of `u`, least significant first.
fn le_bytes(u: u64) -> (r: Vec<u8>)
    ensures
        r@.len() == 8,
        bytes_value(r@) == u,
        r@[7] >= 128 <==> u >= 0x8000_0000_0000_0000,
{
    proof {
        assert((u & 0xff) <= 0xff) by (bit_vector);
        assert(((u >> 8) & 0xff) <= 0xff) by (bit_vector);
        assert(((u >> 16) & 0xff) <= 0xff) by (bit_vector);
        assert(((u >> 24) & 0xff) <= 0xff) by (bit_vector);
        assert(((u >> 32) & 0xff) <= 0xff) by (bit_vector);
        assert(((u >> 40) & 0xff) <= 0xff) by (bit_vector);
        assert(((u >> 48) & 0xff) <= 0xff) by (bit_vector);
        assert(((u >> 56) & 0xff) <= 0xff) by (bit_vector);
    }
    let b0: u8 = (u & 0xff) as u8;
    let b1: u8 = ((u >> 8) & 0xff) as u8;
    let b2: u8 = ((u >> 16) & 0xff) as u8;
    let b3: u8 = ((u >> 24) & 0xff) as u8;
    let b4: u8 = ((u >> 32) & 0xff) as u8;
    let b5: u8 = ((u >> 40) & 0xff) as u8;
    let b6: u8 = ((u >> 48) & 0xff) as u8;
    let b7: u8 = ((u >> 56) & 0xff) as u8;
    let mut r: Vec<u8> = Vec::new();
    r.push(b0);
    r.push(b1);
    r.push(b2);
    r.push(b3);
    r.push(b4);
    r.push(b5);
    r.push(b6);
    r.push(b7);
    proof {
        assert(u == (u & 0xff) + 0x100 * ((u >> 8) & 0xff) + 0x1_0000 * ((u >> 16) & 0xff)
            + 0x100_0000 * ((u >> 24) & 0xff) + 0x1_0000_0000 * ((u >> 32) & 0xff)
            + 0x100_0000_0000 * ((u >> 40) & 0xff) + 0x1_0000_0000_0000 * ((u >> 48) & 0xff)
            + 0x100_0000_0000_0000 * ((u >> 56) & 0xff)) by (bit_vector);
        assert(((u >> 56) & 0xff) >= 128 <==> u >= 0x8000_0000_0000_0000) by (bit_vector);
        lemma_bytes_value_8(r@);
    }
    r
}

// The functions below are trusted: Verus takes their contracts for granted.
// Each hands its arguments to the outside crates with
// `BigInt::from_signed_bytes_le` and `BigDecimal::new` and takes the result
// back with `BigDecimal::into_bigint_and_exponent` and
// `BigInt::to_signed_bytes_le`. That these read and write two's complement,
// least significant byte first, is part of what is trusted.

/// Calls `BigDecimal::with_scale`. Trusted: the result has exactly the scale
/// asked for; a higher scale multiplies the unscaled integer by the power of
/// ten, a lower one divides it, rounding toward zero. The scales are bounded so
/// that their difference fits the crate's `i64` arithmetic.
#[verifier::external_body]
fn raw_rescale(x: &Decimal, scale: i64) -> (r: Decimal)
    requires
        -2 * SCALE_LIMIT <= x.scale <= 2 * SCALE_LIMIT,
        -2 * SCALE_LIMIT <= scale <= 2 * SCALE_LIMIT,
    ensures
        r@ == x@.rescaled(scale as int),
{
    let value = BigDecimal::new(BigInt::from_signed_bytes_le(&x.bytes), x.scale);
    let (unscaled, scale) = value.with_scale(scale).into_bigint_and_exponent();
    Decimal { bytes: unscaled.to_signed_bytes_le(), scale }
}

/// Calls `BigDecimal`'s `+` on two owned values. Trusted: for operands of
/// one scale the result keeps that scale and its unscaled integer is the sum.
#[verifier::external_body]
fn raw_sum(a: &Decimal, b: &Decimal) -> (r: Decimal)
    requires
        a.scale == b.scale,
    ensures
        r@ == a@.plus(b@),
{
    let x = BigDecimal::new(BigInt::from_signed_bytes_le(&a.bytes), a.scale);
    let y = BigDecimal::new(BigInt::from_signed_bytes_le(&b.bytes), b.scale);
    let (unscaled, scale) = (x + y).into_bigint_and_exponent();
    Decimal { bytes: unscaled.to_signed_bytes_le(), scale }
}

/// Calls `BigDecimal`'s `-` on two owned values. Trusted: for operands of
/// one scale the result keeps that scale and its unscaled integer is the
/// difference.
#[verifier::external_body]
fn raw_difference(a: &Decimal, b: &Decimal) -> (r: Decimal)
    requires
        a.scale == b.scale,
    ensures
        r@ == a@.minus(b@),
{
    let x = BigDecimal::new(BigInt::from_signed_bytes_le(&a.bytes), a.scale);
    let y = BigDecimal::new(BigInt::from_signed_bytes_le(&b.bytes), b.scale);
    let (unscaled, scale) = (x - y).into_bigint_and_exponent();
    Decimal { bytes: unscaled.to_signed_bytes_le(), scale }
}

/// Calls `BigDecimal`'s `*` with a borrowed right operand. Trusted: the
/// unscaled integers are multiplied and the scales added. The scales are
/// bounded so that their sum fits an `i64`.
#[verifier::external_body]
fn raw_product(a: &Decimal, b: &Decimal) -> (r: Decimal)
    requires
        -SCALE_LIMIT <= a.scale <= SCALE_LIMIT,
        -SCALE_LIMIT <= b.scale <= SCALE_LIMIT,
    ensures
        r@ == a@.times(b@),
{
    let x = BigDecimal::new(BigInt::from_signed_bytes_le(&a.bytes), a.scale);
    let y = BigDecimal::new(BigInt::from_signed_bytes_le(&b.bytes), b.scale);
    let (unscaled, scale) = (x * &y).into_bigint_and_exponent();
    Decimal { bytes: unscaled.to_signed_bytes_le(), scale }
}

/// Calls `BigDecimal`'s `<`. Trusted: for operands of one scale it compares
/// the unscaled integers.
#[verifier::external_body]
fn raw_less(a: &Decimal, b: &Decimal) -> (r: bool)
    requires
        a.scale == b.scale,
    ensures
        r == (a@.unscaled < b@.unscaled),
{
    let x = BigDecimal::new(BigInt::from_signed_bytes_le(&a.bytes), a.scale);
    let y = BigDecimal::new(BigInt::from_signed_bytes_le(&b.bytes), b.scale);
    x < y
}

/// Calls `BigInt`'s `/` with a `u32` divisor on the unscaled integer.
/// Trusted: the quotient is rounded toward zero; the divisor must not be zero.
#[verifier::external_body]
fn raw_quotient(x: &Decimal, divisor: u32) -> (r: Decimal)
    requires
        divisor > 0,
    ensures
        r@ == x@.over(divisor as int),
{
    let unscaled = BigInt::from_signed_bytes_le(&x.bytes) / divisor;
    Decimal { bytes: unscaled.to_signed_bytes_le(), scale: x.scale }
}

} // verus!
