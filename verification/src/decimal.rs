//! Fixed-point decimal values and the arithmetic the engine performs on them.
//!
//! A [`DecimalValue`] is the pair (mantissa, scale) of a 96-bit decimal number:
//! it stands for `mantissa / 10^scale`. Products, quotients and sums are
//! computed by the decimal arithmetic of `sqlx::types::Decimal`; what those
//! operations return is named here and not interpreted. The ordering is
//! stated exactly, rounding to an integer is computed here, and fractions are
//! brought to lowest terms before they are divided.

use vstd::prelude::*;

verus! {

/// Largest scale (number of decimal places) a decimal value can carry.
pub const MAX_SCALE: u32 = 28;

/// Largest magnitude of a mantissa: `2^96 - 1`.
pub const MAX_MANTISSA: i128 = 0xFFFF_FFFF_FFFF_FFFF_FFFF_FFFF;

/// Largest decimal exponent whose power of ten fits in 64 bits.
pub const MAX_TOKEN_DECIMALS: u8 = 19;

/// `10^e`.
pub open spec fn pow10(e: nat) -> nat
    decreases e,
{
    if e == 0 {
        1
    } else {
        10 * pow10((e - 1) as nat)
    }
}

/// `pow10` grows with its exponent.
pub proof fn lemma_pow10_monotonic(a: nat, b: nat)
    requires
        a <= b,
    ensures
        1 <= pow10(a) <= pow10(b),
    decreases b,
{
    if b == 0 {
    } else if a == b {
        lemma_pow10_monotonic(0, (b - 1) as nat);
    } else {
        lemma_pow10_monotonic(a, (b - 1) as nat);
    }
}

/// The largest power of ten that the engine forms fits in 64 bits.
pub proof fn lemma_pow10_19()
    ensures
        pow10(19) == 10_000_000_000_000_000_000nat,
{
    reveal_with_fuel(pow10, 20);
}

/// The number `mantissa / 10^scale`, with a mantissa of at most 96 bits and a
/// scale of at most 28.
#[derive(Clone, Copy, Debug, PartialEq, Eq, Structural)]
pub struct DecimalValue {
    mantissa: i128,
    scale: u32,
}

impl DecimalValue {
    #[verifier::type_invariant]
    closed spec fn well_formed(self) -> bool {
        &&& -MAX_MANTISSA <= self.mantissa <= MAX_MANTISSA
        &&& self.scale <= MAX_SCALE
    }

    /// The integer that, divided by `10^scale`, gives the value.
    pub closed spec fn spec_mantissa(self) -> int {
        self.mantissa as int
    }

    /// The number of decimal places.
    pub closed spec fn spec_scale(self) -> nat {
        self.scale as nat
    }

    /// The decimal value with the given parts, as a specification value.
    pub closed spec fn from_parts(mantissa: int, scale: nat) -> DecimalValue {
        DecimalValue { mantissa: mantissa as i128, scale: scale as u32 }
    }

    /// Whether the pair can be held: the mantissa in 96 bits, the scale at most 28.
    pub open spec fn representable(mantissa: int, scale: nat) -> bool {
        &&& -MAX_MANTISSA <= mantissa <= MAX_MANTISSA
        &&& scale <= MAX_SCALE
    }

    /// Builds the value `mantissa / 10^scale`; `None` where the mantissa needs
    /// more than 96 bits or the scale is above 28.
    pub fn new(mantissa: i128, scale: u32) -> (r: Option<DecimalValue>)
        ensures
            r.is_some() <==> Self::representable(mantissa as int, scale as nat),
            r matches Some(d) ==> d == Self::from_parts(mantissa as int, scale as nat)
                && d.spec_mantissa() == mantissa && d.spec_scale() == scale,
    {
        if -MAX_MANTISSA <= mantissa && mantissa <= MAX_MANTISSA && scale <= MAX_SCALE {
            Some(DecimalValue { mantissa, scale })
        } else {
            None
        }
    }

    /// The integer `x` as a decimal value of scale 0.
    pub fn from_u64(x: u64) -> (r: DecimalValue)
        ensures
            r == Self::from_parts(x as int, 0),
            r.spec_mantissa() == x,
            r.spec_scale() == 0,
    {
        DecimalValue { mantissa: x as i128, scale: 0 }
    }

    /// Zero, at scale 0.
    pub fn zero() -> (r: DecimalValue)
        ensures
            r == Self::from_parts(0, 0),
            r.spec_mantissa() == 0,
            r.spec_scale() == 0,
    {
        DecimalValue { mantissa: 0, scale: 0 }
    }

    /// The mantissa: the value times `10^scale`.
    pub fn mantissa(&self) -> (r: i128)
        ensures
            r == self.spec_mantissa(),
            Self::representable(self.spec_mantissa(), self.spec_scale()),
            *self == Self::from_parts(self.spec_mantissa(), self.spec_scale()),
    {
        proof {
            use_type_invariant(self);
        }
        self.mantissa
    }

    /// The number of decimal places.
    pub fn scale(&self) -> (r: u32)
        ensures
            r == self.spec_scale(),
            Self::representable(self.spec_mantissa(), self.spec_scale()),
    {
        proof {
            use_type_invariant(self);
        }
        self.scale
    }

    /// Whether the value is zero, at whatever scale.
    pub fn is_zero(&self) -> (r: bool)
        ensures
            r == (self.spec_mantissa() == 0),
    {
        self.mantissa == 0
    }
}

/// What decimal multiplication gives for two values: the product, rounded where
/// it does not fit, or `None` where it overflows.
pub uninterp spec fn decimal_product(a: DecimalValue, b: DecimalValue) -> Option<DecimalValue>;

/// What decimal division gives for two values: the quotient to the precision
/// that fits, or `None` for a zero divisor or an overflow.
pub uninterp spec fn decimal_quotient(a: DecimalValue, b: DecimalValue) -> Option<DecimalValue>;

/// What decimal addition gives for two values, or `None` where it overflows.
pub uninterp spec fn decimal_sum(a: DecimalValue, b: DecimalValue) -> Option<DecimalValue>;

/// The integer nearest to `mantissa / 10^scale`; of two integers that are
/// equally near, the even one. The size of the number is rounded, and the
/// sign is kept.
pub open spec fn rounded_half_even(mantissa: int, scale: nat) -> int {
    let unit = pow10(scale) as int;
    let size = magnitude(mantissa) as int;
    let whole = size / unit;
    let rest = size % unit;
    let nearest = if 2 * rest < unit || (2 * rest == unit && whole % 2 == 0) {
        whole
    } else {
        whole + 1
    };
    if mantissa >= 0 {
        nearest
    } else {
        -nearest
    }
}

/// A value rounded to an integer, midpoints to the even neighbour: an integer
/// at scale 0.
pub open spec fn decimal_rounded(a: DecimalValue) -> DecimalValue {
    DecimalValue::from_parts(rounded_half_even(a.spec_mantissa(), a.spec_scale()), 0)
}

/// `a < b` as numbers: `a.mantissa / 10^a.scale < b.mantissa / 10^b.scale`.
pub open spec fn decimal_lt(a: DecimalValue, b: DecimalValue) -> bool {
    a.spec_mantissa() * pow10(b.spec_scale()) < b.spec_mantissa() * pow10(a.spec_scale())
}

/// `a <= b` as numbers.
pub open spec fn decimal_le(a: DecimalValue, b: DecimalValue) -> bool {
    !decimal_lt(b, a)
}

/// Calls `Decimal::checked_mul` of `sqlx::types::Decimal` on the two values.
/// The contract only names the result: it is the crate's product of the two
/// values, `None` where the crate reports an overflow.
#[verifier::external_body]
pub(crate) fn checked_mul(a: DecimalValue, b: DecimalValue) -> (r: Option<DecimalValue>)
    ensures
        r == decimal_product(a, b),
{
    let x = sqlx::types::Decimal::from_i128_with_scale(a.mantissa, a.scale);
    let y = sqlx::types::Decimal::from_i128_with_scale(b.mantissa, b.scale);
    match x.checked_mul(y) {
        Some(z) => Some(DecimalValue { mantissa: z.mantissa(), scale: z.scale() }),
        None => None,
    }
}

/// Calls `Decimal::checked_div` of `sqlx::types::Decimal` on the two values.
/// The contract only names the result: it is the crate's quotient, `None`
/// where the crate reports a zero divisor or an overflow.
#[verifier::external_body]
pub(crate) fn checked_div(a: DecimalValue, b: DecimalValue) -> (r: Option<DecimalValue>)
    ensures
        r == decimal_quotient(a, b),
{
    let x = sqlx::types::Decimal::from_i128_with_scale(a.mantissa, a.scale);
    let y = sqlx::types::Decimal::from_i128_with_scale(b.mantissa, b.scale);
    match x.checked_div(y) {
        Some(z) => Some(DecimalValue { mantissa: z.mantissa(), scale: z.scale() }),
        None => None,
    }
}

/// Calls `Decimal::checked_add` of `sqlx::types::Decimal` on the two values.
/// The contract only names the result: it is the crate's sum, `None` where the
/// crate reports an overflow.
#[verifier::external_body]
pub(crate) fn checked_add(a: DecimalValue, b: DecimalValue) -> (r: Option<DecimalValue>)
    ensures
        r == decimal_sum(a, b),
{
    let x = sqlx::types::Decimal::from_i128_with_scale(a.mantissa, a.scale);
    let y = sqlx::types::Decimal::from_i128_with_scale(b.mantissa, b.scale);
    match x.checked_add(y) {
        Some(z) => Some(DecimalValue { mantissa: z.mantissa(), scale: z.scale() }),
        None => None,
    }
}

/// The largest power of ten that a scale stands for fits in 128 bits.
proof fn lemma_pow10_28()
    ensures
        pow10(28) == 10_000_000_000_000_000_000_000_000_000nat,
{
    reveal_with_fuel(pow10, 29);
}

/// `10^scale` as a machine integer.
fn pow10_u128(scale: u32) -> (r: u128)
    requires
        scale <= MAX_SCALE,
    ensures
        r == pow10(scale as nat),
        r >= 1,
        scale >= 1 ==> r >= 10,
{
    let mut f: u128 = 1;
    let mut i: u32 = 0;
    while i < scale
        invariant
            i <= scale <= MAX_SCALE,
            f == pow10(i as nat),
            f >= 1,
            i >= 1 ==> f >= 10,
        decreases scale - i,
    {
        proof {
            lemma_pow10_monotonic((i + 1) as nat, 28);
            lemma_pow10_28();
        }
        f = f * 10;
        i = i + 1;
    }
    f
}

/// Rounds a value to an integer, midpoints to the even neighbour.
pub fn round(a: DecimalValue) -> (r: DecimalValue)
    ensures
        r == decimal_rounded(a),
{
    proof {
        use_type_invariant(a);
    }
    let negative = a.mantissa < 0;
    let size: u128 = if negative {
        (-a.mantissa) as u128
    } else {
        a.mantissa as u128
    };
    let unit = pow10_u128(a.scale);
    proof {
        lemma_pow10_monotonic(a.scale as nat, 28);
        lemma_pow10_28();
    }
    let whole = size / unit;
    let rest = size % unit;
    assert(whole <= size && (unit >= 10 ==> whole * 10 <= size)) by (nonlinear_arith)
        requires
            whole == size / unit,
            unit >= 1,
    ;
    let nearest: u128 = if 2 * rest < unit || (2 * rest == unit && whole % 2 == 0) {
        whole
    } else {
        whole + 1
    };
    let mantissa: i128 = if negative {
        -(nearest as i128)
    } else {
        nearest as i128
    };
    DecimalValue { mantissa, scale: 0 }
}

/// Compares two values with `<` of `sqlx::types::Decimal`, which orders
/// decimals as numbers: the contract states that order over mantissas brought
/// to a common scale.
#[verifier::external_body]
pub(crate) fn less_than(a: DecimalValue, b: DecimalValue) -> (r: bool)
    ensures
        r == decimal_lt(a, b),
{
    let x = sqlx::types::Decimal::from_i128_with_scale(a.mantissa, a.scale);
    let y = sqlx::types::Decimal::from_i128_with_scale(b.mantissa, b.scale);
    x < y
}

/// The product of two integers where it fits a mantissa; `None` where it does not.
pub fn checked_product(a: u128, b: u128) -> (r: Option<u128>)
    ensures
        r is Some <==> a * b <= MAX_MANTISSA,
        r matches Some(p) ==> p == a * b,
{
    match a.checked_mul(b) {
        Some(p) => if p <= MAX_MANTISSA as u128 {
            Some(p)
        } else {
            None
        },
        None => None,
    }
}

/// The greatest common divisor of two numbers; that of zero and zero is zero.
pub open spec fn gcd(a: nat, b: nat) -> nat
    decreases b,
{
    if b == 0 {
        a
    } else {
        gcd(b, a % b)
    }
}

/// The greatest common divisor of two numbers that are not both zero is not zero.
pub proof fn lemma_gcd_positive(a: nat, b: nat)
    requires
        a > 0 || b > 0,
    ensures
        gcd(a, b) > 0,
    decreases b,
{
    if b != 0 {
        lemma_gcd_positive(b, a % b);
    }
}

/// Scaling two numbers by `k` scales their greatest common divisor by `k`.
pub proof fn lemma_gcd_scales(a: nat, b: nat, k: nat)
    requires
        k > 0,
    ensures
        gcd(k * a, k * b) == k * gcd(a, b),
    decreases b,
{
    if b == 0 {
        assert(k * b == 0) by (nonlinear_arith)
            requires
                b == 0,
        ;
    } else {
        vstd::arithmetic::div_mod::lemma_truncate_middle(a as int, k as int, b as int);
        assert((k * a) % (k * b) == k * (a % b));
        assert(k * b > 0);
        lemma_gcd_scales(b, a % b, k);
    }
}

/// A fraction of two numbers in lowest terms: both divided by their greatest
/// common divisor.
pub open spec fn lowest_terms(numerator: nat, denominator: nat) -> (nat, nat) {
    let common = gcd(numerator, denominator);
    if common == 0 {
        (numerator, denominator)
    } else {
        (numerator / common, denominator / common)
    }
}

/// Scaling numerator and denominator by the same `k` leaves the fraction in
/// lowest terms unchanged.
pub proof fn lemma_lowest_terms_scale(numerator: nat, denominator: nat, k: nat)
    requires
        k > 0,
    ensures
        lowest_terms(k * numerator, k * denominator) == lowest_terms(numerator, denominator),
{
    let common = gcd(numerator, denominator);
    lemma_gcd_scales(numerator, denominator, k);
    if common == 0 {
        assert(numerator == 0 && denominator == 0) by {
            if numerator > 0 || denominator > 0 {
                lemma_gcd_positive(numerator, denominator);
            }
        }
        assert(k * numerator == 0 && k * denominator == 0 && k * common == 0) by (nonlinear_arith)
            requires
                numerator == 0,
                denominator == 0,
                common == 0,
        ;
    } else {
        vstd::arithmetic::div_mod::lemma_div_multiples_vanish_quotient(
            k as int,
            numerator as int,
            common as int,
        );
        vstd::arithmetic::div_mod::lemma_div_multiples_vanish_quotient(
            k as int,
            denominator as int,
            common as int,
        );
        assert(k * common > 0);
    }
}

/// The greatest common divisor of two integers.
pub fn gcd_u128(a: u128, b: u128) -> (r: u128)
    ensures
        r == gcd(a as nat, b as nat),
{
    let mut x = a;
    let mut y = b;
    while y != 0
        invariant
            gcd(x as nat, y as nat) == gcd(a as nat, b as nat),
        decreases y,
    {
        let rest = x % y;
        x = y;
        y = rest;
    }
    x
}

/// The decimal quotient of two non-negative integers, taken of the fraction
/// in lowest terms: `None` where one of the integers does not fit a mantissa,
/// and where the division gives none.
pub open spec fn quotient_of(numerator: int, denominator: int) -> Option<DecimalValue> {
    if 0 <= numerator <= MAX_MANTISSA && 0 <= denominator <= MAX_MANTISSA {
        let lowest = lowest_terms(numerator as nat, denominator as nat);
        decimal_quotient(
            DecimalValue::from_parts(lowest.0 as int, 0),
            DecimalValue::from_parts(lowest.1 as int, 0),
        )
    } else {
        None
    }
}

/// The quotient of two integers is that of any fraction that scales them by
/// the same number and still fits.
pub proof fn lemma_quotient_of_scale(numerator: int, denominator: int, k: int)
    requires
        k > 0,
        0 <= numerator,
        0 <= denominator,
        k * numerator <= MAX_MANTISSA,
        k * denominator <= MAX_MANTISSA,
    ensures
        quotient_of(k * numerator, k * denominator) == quotient_of(numerator, denominator),
{
    assert(0 <= numerator <= k * numerator && 0 <= denominator <= k * denominator)
        by (nonlinear_arith)
        requires
            k >= 1,
            numerator >= 0,
            denominator >= 0,
    ;
    lemma_lowest_terms_scale(numerator as nat, denominator as nat, k as nat);
}

/// Divides one integer by another in decimal arithmetic, in lowest terms.
pub fn divide_integers(numerator: u128, denominator: u128) -> (r: Option<DecimalValue>)
    ensures
        r == quotient_of(numerator as int, denominator as int),
{
    if numerator > MAX_MANTISSA as u128 || denominator > MAX_MANTISSA as u128 {
        return None;
    }
    let common = gcd_u128(numerator, denominator);
    let (top, bottom) = if common == 0 {
        (numerator, denominator)
    } else {
        (numerator / common, denominator / common)
    };
    assert(top <= numerator && bottom <= denominator) by (nonlinear_arith)
        requires
            common == 0 ==> top == numerator && bottom == denominator,
            common > 0 ==> top == numerator / common && bottom == denominator / common,
    ;
    let a = DecimalValue { mantissa: top as i128, scale: 0 };
    let b = DecimalValue { mantissa: bottom as i128, scale: 0 };
    checked_div(a, b)
}

/// The size of a number.
pub open spec fn magnitude(x: int) -> nat {
    if x >= 0 {
        x as nat
    } else {
        (-x) as nat
    }
}

/// The decimal quotient of a value by a non-negative integer, taken with the
/// common divisor of the mantissa and the integer cancelled.
pub open spec fn quotient_by(value: DecimalValue, divisor: nat) -> Option<DecimalValue> {
    let mantissa = value.spec_mantissa();
    let lowest = lowest_terms(magnitude(mantissa), divisor);
    decimal_quotient(
        DecimalValue::from_parts(
            if mantissa >= 0 {
                lowest.0 as int
            } else {
                -(lowest.0 as int)
            },
            value.spec_scale(),
        ),
        DecimalValue::from_parts(lowest.1 as int, 0),
    )
}

/// The quotient of a value by an integer is that of the value and the integer
/// both scaled by the same number.
pub proof fn lemma_quotient_by_scale(mantissa: int, scale: nat, divisor: nat, k: nat)
    requires
        k > 0,
        DecimalValue::representable(k * mantissa, scale),
    ensures
        quotient_by(DecimalValue::from_parts(k * mantissa, scale), k * divisor) == quotient_by(
            DecimalValue::from_parts(mantissa, scale),
            divisor,
        ),
{
    assert(magnitude(k * mantissa) == k * magnitude(mantissa) && (k * mantissa >= 0 <==> mantissa
        >= 0) && -MAX_MANTISSA <= mantissa <= MAX_MANTISSA) by (nonlinear_arith)
        requires
            k >= 1,
            -MAX_MANTISSA <= k * mantissa <= MAX_MANTISSA,
    ;
    lemma_lowest_terms_scale(magnitude(mantissa), divisor, k);
}

/// Divides a value by an integer in decimal arithmetic, with their common
/// divisor cancelled.
pub fn divide_by(value: DecimalValue, divisor: u64) -> (r: Option<DecimalValue>)
    ensures
        r == quotient_by(value, divisor as nat),
{
    proof {
        use_type_invariant(value);
    }
    let negative = value.mantissa < 0;
    let size: u128 = if negative {
        (-value.mantissa) as u128
    } else {
        value.mantissa as u128
    };
    let common = gcd_u128(size, divisor as u128);
    let (top, bottom) = if common == 0 {
        (size, divisor as u128)
    } else {
        (size / common, divisor as u128 / common)
    };
    assert(top <= size && bottom <= divisor) by (nonlinear_arith)
        requires
            common == 0 ==> top == size && bottom == divisor,
            common > 0 ==> top == size / common && bottom == divisor as u128 / common,
    ;
    let mantissa: i128 = if negative {
        -(top as i128)
    } else {
        top as i128
    };
    let a = DecimalValue { mantissa, scale: value.scale };
    let b = DecimalValue { mantissa: bottom as i128, scale: 0 };
    checked_div(a, b)
}

/// A conversion to readable units gave no value: an exponent is out of range,
/// an integer needs more than 96 bits, or decimal arithmetic reports an
/// overflow or a zero divisor.
#[derive(Clone, Copy, Debug, PartialEq, Eq, Structural)]
pub struct Unpriced;

/// The value, or zero where there is none.
pub open spec fn or_zero(value: Option<DecimalValue>) -> DecimalValue {
    match value {
        Some(v) => v,
        None => DecimalValue::from_parts(0, 0),
    }
}

/// The decimal product of two values, zero where the product overflows.
pub fn mul_or_zero(a: DecimalValue, b: DecimalValue) -> (r: DecimalValue)
    ensures
        r == or_zero(decimal_product(a, b)),
{
    match checked_mul(a, b) {
        Some(v) => v,
        None => DecimalValue::zero(),
    }
}

/// The decimal quotient of two values, zero where the division gives none.
pub fn div_or_zero(a: DecimalValue, b: DecimalValue) -> (r: DecimalValue)
    ensures
        r == or_zero(decimal_quotient(a, b)),
{
    match checked_div(a, b) {
        Some(v) => v,
        None => DecimalValue::zero(),
    }
}

/// The fixed-point factor of a token with `decimals` decimal places: `10^decimals`.
pub fn token_factor(decimals: u8) -> (r: DecimalValue)
    requires
        decimals <= MAX_TOKEN_DECIMALS,
    ensures
        r == DecimalValue::from_parts(pow10(decimals as nat) as int, 0),
        r.spec_mantissa() == pow10(decimals as nat),
        r.spec_scale() == 0,
{
    DecimalValue::from_u64(pow10_u64(decimals))
}

/// `10^decimals` as a machine integer.
pub fn pow10_u64(decimals: u8) -> (r: u64)
    requires
        decimals <= MAX_TOKEN_DECIMALS,
    ensures
        r == pow10(decimals as nat),
{
    let mut f: u64 = 1;
    let mut i: u8 = 0;
    while i < decimals
        invariant
            i <= decimals <= MAX_TOKEN_DECIMALS,
            f == pow10(i as nat),
        decreases decimals - i,
    {
        proof {
            lemma_pow10_monotonic((i + 1) as nat, 19);
            lemma_pow10_19();
        }
        f = f * 10;
        i = i + 1;
    }
    f
}

} // verus!
