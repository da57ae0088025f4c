//! Fixed-point decimal numbers.
//!
//! A number is a mantissa and the count of its fractional digits. Order,
//! rounding and arithmetic are those of the `rust_decimal` crate. Zero carries
//! no sign here.

use core::cmp::Ordering;
use vstd::prelude::*;

verus! {

/// An arithmetic step left the range of a decimal, or divided by zero.
#[derive(Clone, Copy, Debug, PartialEq, Eq, Structural)]
pub struct ArithError;

/// A decimal number with 96 bits of mantissa and at most 28 fractional digits.
#[derive(Clone, Copy, Debug)]
pub struct Decimal {
    mantissa: i128,
    scale: u32,
}

/// What a computation on decimals gives.
pub type Calc = Result<Decimal, ArithError>;

/// The first mantissa that no longer fits.
pub const MANTISSA_LIMIT: i128 = 79_228_162_514_264_337_593_543_950_336;

/// The largest number of fractional digits.
pub const MAX_SCALE: u32 = 28;

/// Ten to the power `n`.
pub open spec fn pow10(n: nat) -> int
    decreases n,
{
    if n == 0 {
        1
    } else {
        10 * pow10((n - 1) as nat)
    }
}

pub proof fn lemma_pow10_positive(n: nat)
    ensures
        pow10(n) > 0,
    decreases n,
{
    if n > 0 {
        lemma_pow10_positive((n - 1) as nat);
    }
}

/// `|x|`.
pub open spec fn magnitude(x: int) -> int {
    if x < 0 {
        -x
    } else {
        x
    }
}

/// `x / p` rounded to the nearest integer, a tie going to the even one.
pub open spec fn half_even(x: int, p: int) -> int {
    let q = magnitude(x) / p;
    let r = magnitude(x) % p;
    let up = 2 * r > p || (2 * r == p && q % 2 == 1);
    let n = if up {
        q + 1
    } else {
        q
    };
    if x < 0 {
        -n
    } else {
        n
    }
}

/// `x / p` cut off toward zero.
pub open spec fn toward_zero(x: int, p: int) -> int {
    if x < 0 {
        -(magnitude(x) / p)
    } else {
        magnitude(x) / p
    }
}

/// The decimal `m / 10^s`.
pub closed spec fn lit(m: int, s: int) -> Decimal {
    Decimal { mantissa: m as i128, scale: s as u32 }
}

pub broadcast proof fn lemma_lit(m: int, s: int)
    requires
        -MANTISSA_LIMIT < m < MANTISSA_LIMIT,
        0 <= s <= MAX_SCALE,
    ensures
        (#[trigger] lit(m, s)).mant() == m,
        lit(m, s).scl() == s,
{
}

/// A decimal is made of its mantissa and its scale, and turning its sign twice leaves it
/// as it is.
pub proof fn lemma_turned(a: Decimal)
    ensures
        lit(a.mant(), a.scl()) == a,
        a.valid() ==> dneg(dneg(a)) == a,
        a.valid() ==> dneg(a).units() == -a.units(),
        dneg(lit(0, 0)) == lit(0, 0),
{
    broadcast use lemma_lit;

    if a.valid() {
        lemma_multiple_value(a, -1, dneg(a));
    }
}

impl Decimal {
    /// The mantissa.
    pub closed spec fn mant(self) -> int {
        self.mantissa as int
    }

    /// The number of fractional digits.
    pub closed spec fn scl(self) -> int {
        self.scale as int
    }

    #[verifier::type_invariant]
    spec fn well_formed(self) -> bool {
        -MANTISSA_LIMIT < self.mantissa < MANTISSA_LIMIT && self.scale <= MAX_SCALE
    }

    /// The mantissa fits in 96 bits and there are at most 28 fractional digits.
    pub open spec fn valid(self) -> bool {
        -MANTISSA_LIMIT < self.mant() < MANTISSA_LIMIT && 0 <= self.scl() <= MAX_SCALE
    }

    /// The value in units of `10^-28`: what order and equality go by.
    #[verifier::opaque]
    pub open spec fn units(self) -> int {
        self.mant() * pow10((MAX_SCALE - self.scl()) as nat)
    }
}

/// A decimal lies on the side of zero on which its mantissa lies.
pub broadcast proof fn lemma_sign(a: Decimal)
    ensures
        #[trigger] a.units() > 0 <==> a.mant() > 0,
        a.units() < 0 <==> a.mant() < 0,
        a.units() == 0 <==> a.mant() == 0,
{
    reveal(Decimal::units);
    let p = pow10((MAX_SCALE - a.scl()) as nat);
    lemma_pow10_positive((MAX_SCALE - a.scl()) as nat);
    let m = a.mant();
    assert(m > 0 ==> m * p > 0) by (nonlinear_arith)
        requires
            p > 0,
    ;
    assert(m < 0 ==> m * p < 0) by (nonlinear_arith)
        requires
            p > 0,
    ;
    assert(m == 0 ==> m * p == 0) by (nonlinear_arith);
}

pub proof fn lemma_pow10_add(a: nat, b: nat)
    ensures
        pow10(a + b) == pow10(a) * pow10(b),
    decreases a,
{
    if a > 0 {
        lemma_pow10_add((a - 1) as nat, b);
        let p = pow10((a - 1) as nat);
        let q = pow10(b);
        assert(10 * (p * q) == (10 * p) * q) by (nonlinear_arith);
    }
}

pub proof fn lemma_pow10_grows(a: nat, b: nat)
    requires
        a <= b,
    ensures
        0 < pow10(a) <= pow10(b),
    decreases b,
{
    lemma_pow10_positive(a);
    if a < b {
        lemma_pow10_grows(a, (b - 1) as nat);
    }
}

/// Whatever a mantissa is, it has no more than 29 digits.
pub proof fn lemma_room(d: Decimal, n: nat)
    requires
        d.valid(),
        n >= 29,
    ensures
        magnitude(d.mant()) < pow10(n),
{
    reveal_with_fuel(pow10, 30);
    assert(pow10(29) == 100_000_000_000_000_000_000_000_000_000);
    lemma_pow10_grows(29, n);
}

/// Decimals of the same value have the same mantissa on the finer of their scales.
pub proof fn lemma_same_value(a: Decimal, b: Decimal)
    requires
        a.valid(),
        b.valid(),
        a.units() == b.units(),
    ensures
        on_scale(a, finer(a, b)) == on_scale(b, finer(a, b)),
        aligned(a, b),
{
    reveal(Decimal::units);
    let f = finer(a, b);
    let rest = (MAX_SCALE - f) as nat;
    lemma_pow10_positive(rest);
    lemma_pow10_add((f - a.scl()) as nat, rest);
    lemma_pow10_add((f - b.scl()) as nat, rest);
    let x = on_scale(a, f);
    let y = on_scale(b, f);
    let p = pow10(rest);
    assert(a.mant() * (pow10((f - a.scl()) as nat) * p) == x * p) by (nonlinear_arith)
        requires
            x == a.mant() * pow10((f - a.scl()) as nat),
    ;
    assert(b.mant() * (pow10((f - b.scl()) as nat) * p) == y * p) by (nonlinear_arith)
        requires
            y == b.mant() * pow10((f - b.scl()) as nat),
    ;
    assert(x == y) by (nonlinear_arith)
        requires
            x * p == y * p,
            p > 0,
    ;
    assert(pow10(0) == 1);
    if a.scl() < b.scl() {
        assert(y == b.mant() * 1);
    } else {
        assert(x == a.mant() * 1);
    }
}

// ---------------------------------------------------------------------------
// What the arithmetic gives
// ---------------------------------------------------------------------------

/// What `a + b` is: `None` where it leaves the range.
pub uninterp spec fn decimal_sum(a: Decimal, b: Decimal) -> Option<Decimal>;

/// What `a - b` is: `None` where it leaves the range.
pub uninterp spec fn decimal_difference(a: Decimal, b: Decimal) -> Option<Decimal>;

/// What `a * b` is: `None` where it leaves the range.
pub uninterp spec fn decimal_product(a: Decimal, b: Decimal) -> Option<Decimal>;

/// What `a / b` is: `None` where `b` is zero or the quotient leaves the range.
pub uninterp spec fn decimal_quotient(a: Decimal, b: Decimal) -> Option<Decimal>;

/// The decimal that a text spells, if it spells one.
pub uninterp spec fn decimal_of_text(text: Seq<char>) -> Option<Decimal>;

/// How a decimal is written.
pub uninterp spec fn text_of_decimal(d: Decimal) -> Seq<char>;

/// What `rust_decimal` writes for a number where the number of fractional digits
/// is given.
pub uninterp spec fn fixed_text(d: Decimal, dp: int) -> Seq<char>;

/// The digits before the point and `dp` digits behind it come to 31 at most: with
/// the point they are what the formatter has room for.
pub open spec fn has_room(d: Decimal, dp: int) -> bool {
    0 <= dp <= MAX_SCALE && magnitude(d.mant()) < pow10((31 - dp + d.scl()) as nat)
}

/// A computed number as one that may be missing.
pub open spec fn some_calc(c: Calc) -> Result<Option<Decimal>, ArithError> {
    match c {
        Ok(d) => Ok(Some(d)),
        Err(e) => Err(e),
    }
}

/// A missing value stands for an arithmetic error.
pub open spec fn to_calc(x: Option<Decimal>) -> Calc {
    match x {
        Some(d) => Ok(d),
        None => Err(ArithError),
    }
}

/// `a + b`, an error on either side or in the sum carrying through.
pub open spec fn sum(a: Calc, b: Calc) -> Calc {
    match (a, b) {
        (Ok(x), Ok(y)) => to_calc(decimal_sum(x, y)),
        _ => Err(ArithError),
    }
}

/// `a - b`, an error on either side or in the difference carrying through.
pub open spec fn diff(a: Calc, b: Calc) -> Calc {
    match (a, b) {
        (Ok(x), Ok(y)) => to_calc(decimal_difference(x, y)),
        _ => Err(ArithError),
    }
}

/// `a * b`, an error on either side or in the product carrying through.
pub open spec fn prod(a: Calc, b: Calc) -> Calc {
    match (a, b) {
        (Ok(x), Ok(y)) => to_calc(decimal_product(x, y)),
        _ => Err(ArithError),
    }
}

/// `a / b`, an error on either side or in the quotient carrying through.
pub open spec fn quot(a: Calc, b: Calc) -> Calc {
    match (a, b) {
        (Ok(x), Ok(y)) => to_calc(decimal_quotient(x, y)),
        _ => Err(ArithError),
    }
}

/// The larger of two decimals, the first where they are equal.
pub open spec fn dmax(a: Decimal, b: Decimal) -> Decimal {
    if a.units() < b.units() {
        b
    } else {
        a
    }
}

/// The smaller of two decimals, the first where they are equal.
pub open spec fn dmin(a: Decimal, b: Decimal) -> Decimal {
    if a.units() > b.units() {
        b
    } else {
        a
    }
}

/// `|a|`.
pub open spec fn dabs(a: Decimal) -> Decimal {
    lit(magnitude(a.mant()), a.scl())
}

/// `-a`.
pub open spec fn dneg(a: Decimal) -> Decimal {
    lit(-a.mant(), a.scl())
}

/// `-x`, where there is a number.
pub open spec fn negated(x: Option<Decimal>) -> Option<Decimal> {
    match x {
        Some(d) => Some(dneg(d)),
        None => None,
    }
}

/// `-x`, where `x` could be computed.
pub open spec fn turned(x: Calc) -> Calc {
    match x {
        Ok(d) => Ok(dneg(d)),
        Err(e) => Err(e),
    }
}

/// `a` rounded to `dp` fractional digits, a tie going to the even digit.
pub open spec fn dround(a: Decimal, dp: int) -> Decimal {
    if a.scl() <= dp {
        a
    } else {
        lit(half_even(a.mant(), pow10((a.scl() - dp) as nat)), dp)
    }
}

/// The integral part of `a`.
pub open spec fn dtrunc(a: Decimal) -> Decimal {
    lit(toward_zero(a.mant(), pow10(a.scl() as nat)), 0)
}

/// The mantissa of `a` on the scale `s`.
pub open spec fn on_scale(a: Decimal, s: int) -> int {
    a.mant() * pow10((s - a.scl()) as nat)
}

/// The finer of two scales.
pub open spec fn finer(a: Decimal, b: Decimal) -> int {
    if a.scl() < b.scl() {
        b.scl()
    } else {
        a.scl()
    }
}

/// A mantissa within 96 bits.
pub open spec fn fits(m: int) -> bool {
    -MANTISSA_LIMIT < m < MANTISSA_LIMIT
}

/// Both numbers fit on their finer scale.
pub open spec fn aligned(a: Decimal, b: Decimal) -> bool {
    fits(on_scale(a, finer(a, b))) && fits(on_scale(b, finer(a, b)))
}

/// Adding: zero gives the other number, the sum is exact where both numbers and it fit
/// on the finer scale, and it turns its sign with both numbers.
#[verifier::opaque]
pub open spec fn adds_up(a: Decimal, b: Decimal, r: Calc) -> bool {
    let x = on_scale(a, finer(a, b));
    let y = on_scale(b, finer(a, b));
    &&& a.mant() == 0 ==> r == Ok::<Decimal, ArithError>(b)
    &&& b.mant() == 0 && a.mant() != 0 ==> r == Ok::<Decimal, ArithError>(a)
    &&& a.mant() != 0 && b.mant() != 0 && aligned(a, b) && fits(x + y) ==> r == Ok::<
        Decimal,
        ArithError,
    >(lit(x + y, finer(a, b)))
    &&& sum(Ok(dneg(a)), Ok(dneg(b))) == turned(r)
    &&& diff(Ok(dneg(a)), Ok(b)) == turned(r)
}

/// Taking away: nothing leaves the number, the difference is exact where both numbers and
/// it fit on the finer scale, and it turns its sign with both numbers.
#[verifier::opaque]
pub open spec fn takes_away(a: Decimal, b: Decimal, r: Calc) -> bool {
    let x = on_scale(a, finer(a, b));
    let y = on_scale(b, finer(a, b));
    &&& b.mant() == 0 && a.mant() != 0 ==> r == Ok::<Decimal, ArithError>(a)
    &&& a.mant() == 0 ==> r == Ok::<Decimal, ArithError>(dneg(b))
    &&& a.mant() != 0 && b.mant() != 0 && aligned(a, b) && fits(x - y) ==> r == Ok::<
        Decimal,
        ArithError,
    >(lit(x - y, finer(a, b)))
    &&& sum(Ok(dneg(a)), Ok(b)) == turned(r)
}

/// Multiplying: nothing comes of zero, the product is exact where its digits fit, and it
/// turns its sign with the first number.
#[verifier::opaque]
pub open spec fn multiplies(a: Decimal, b: Decimal, r: Calc) -> bool {
    &&& a.mant() == 0 || b.mant() == 0 ==> r == Ok::<Decimal, ArithError>(lit(0, 0))
    &&& a.mant() != 0 && b.mant() != 0 && fits(a.mant() * b.mant()) && a.scl() + b.scl()
        <= MAX_SCALE ==> r == Ok::<Decimal, ArithError>(
        lit(a.mant() * b.mant(), a.scl() + b.scl()),
    )
    &&& prod(Ok(dneg(a)), Ok(b)) == turned(r)
}

/// Dividing: zero gives zero, and the quotient is exact where the mantissas divide and
/// the scales allow it.
#[verifier::opaque]
pub open spec fn divides(a: Decimal, b: Decimal, r: Calc) -> bool {
    &&& b.mant() == 0 ==> r is Err
    &&& b.mant() != 0 && a.mant() == 0 ==> r == Ok::<Decimal, ArithError>(lit(0, 0))
    &&& b.mant() != 0 && a.mant() != 0 && a.mant() % b.mant() == 0 && a.scl() >= b.scl() ==> r
        == Ok::<Decimal, ArithError>(lit(a.mant() / b.mant(), a.scl() - b.scl()))
}

/// `rust_decimal::Decimal::checked_add`. The result is `decimal_sum`; adding
/// zero gives the other number, and the sum is exact on the finer of the two
/// scales where the operands and the sum fit there. Where they do not, digits
/// are rounded away, and how is left to the name; but it goes by the digits
/// alone, so that turning the signs of both operands turns that of the sum, and
/// taking the second from the first turned round gives the same.
#[verifier::external_body]
fn checked_add(a: Decimal, b: Decimal) -> (r: Option<Decimal>)
    ensures
        r == decimal_sum(a, b),
        a.mant() == 0 ==> r == Some(b),
        b.mant() == 0 && a.mant() != 0 ==> r == Some(a),
        a.mant() != 0 && b.mant() != 0 && aligned(a, b) && fits(
            on_scale(a, finer(a, b)) + on_scale(b, finer(a, b)),
        ) ==> r == Some(lit(on_scale(a, finer(a, b)) + on_scale(b, finer(a, b)), finer(a, b))),
        decimal_sum(dneg(a), dneg(b)) == negated(r),
        decimal_difference(dneg(a), b) == negated(r),
{
    let x = rust_decimal::Decimal::from_i128_with_scale(a.mantissa, a.scale);
    let y = rust_decimal::Decimal::from_i128_with_scale(b.mantissa, b.scale);
    let z = x.checked_add(y)?;
    Some(Decimal { mantissa: z.mantissa(), scale: z.scale() })
}

/// `rust_decimal::Decimal::checked_sub`. The result is `decimal_difference`;
/// taking zero away gives the number, taking a number from zero gives its
/// negation, and the difference is exact on the finer of the two scales where
/// the operands and the difference fit there. With the signs turned it is the
/// sum of the second number and the first one's negation.
#[verifier::external_body]
fn checked_sub(a: Decimal, b: Decimal) -> (r: Option<Decimal>)
    ensures
        r == decimal_difference(a, b),
        b.mant() == 0 && a.mant() != 0 ==> r == Some(a),
        a.mant() == 0 ==> r == Some(dneg(b)),
        a.mant() != 0 && b.mant() != 0 && aligned(a, b) && fits(
            on_scale(a, finer(a, b)) - on_scale(b, finer(a, b)),
        ) ==> r == Some(lit(on_scale(a, finer(a, b)) - on_scale(b, finer(a, b)), finer(a, b))),
        decimal_sum(dneg(a), b) == negated(r),
{
    let x = rust_decimal::Decimal::from_i128_with_scale(a.mantissa, a.scale);
    let y = rust_decimal::Decimal::from_i128_with_scale(b.mantissa, b.scale);
    let z = x.checked_sub(y)?;
    Some(Decimal { mantissa: z.mantissa(), scale: z.scale() })
}

/// `rust_decimal::Decimal::checked_mul`. The result is `decimal_product`; it is
/// zero where a factor is, and exact where the product of the mantissas and the
/// sum of the scales fit. Turning the sign of a factor turns that of the
/// product and nothing else.
#[verifier::external_body]
fn checked_mul(a: Decimal, b: Decimal) -> (r: Option<Decimal>)
    ensures
        r == decimal_product(a, b),
        a.mant() == 0 || b.mant() == 0 ==> r == Some(lit(0, 0)),
        a.mant() != 0 && b.mant() != 0 && fits(a.mant() * b.mant()) && a.scl() + b.scl()
            <= MAX_SCALE ==> r == Some(lit(a.mant() * b.mant(), a.scl() + b.scl())),
        r matches Some(p) ==> p.mant() > 0 ==> (a.mant() > 0 <==> b.mant() > 0),
        r matches Some(p) ==> p.mant() < 0 ==> (a.mant() > 0 <==> b.mant() < 0),
        decimal_product(dneg(a), b) == negated(r),
{
    let x = rust_decimal::Decimal::from_i128_with_scale(a.mantissa, a.scale);
    let y = rust_decimal::Decimal::from_i128_with_scale(b.mantissa, b.scale);
    let z = x.checked_mul(y)?;
    Some(Decimal { mantissa: z.mantissa(), scale: z.scale() })
}

/// `rust_decimal::Decimal::checked_div`. The result is `decimal_quotient`;
/// there is none for a zero divisor, zero divided is zero, and a mantissa that
/// the divisor's mantissa divides gives the exact quotient where the scales
/// allow it.
#[verifier::external_body]
fn checked_div(a: Decimal, b: Decimal) -> (r: Option<Decimal>)
    ensures
        r == decimal_quotient(a, b),
        b.mant() == 0 ==> r is None,
        b.mant() != 0 && a.mant() == 0 ==> r == Some(lit(0, 0)),
        b.mant() != 0 && a.mant() != 0 && a.mant() % b.mant() == 0 && a.scl() >= b.scl() ==> r
            == Some(lit(a.mant() / b.mant(), a.scl() - b.scl())),
        r matches Some(q) ==> q.mant() > 0 ==> (a.mant() > 0 <==> b.mant() > 0),
        r matches Some(q) ==> q.mant() < 0 ==> (a.mant() > 0 <==> b.mant() < 0),
{
    let x = rust_decimal::Decimal::from_i128_with_scale(a.mantissa, a.scale);
    let y = rust_decimal::Decimal::from_i128_with_scale(b.mantissa, b.scale);
    let z = x.checked_div(y)?;
    Some(Decimal { mantissa: z.mantissa(), scale: z.scale() })
}

/// `<` on `rust_decimal::Decimal`: the numbers are compared by value, whatever
/// their scales.
#[verifier::external_body]
fn less(a: Decimal, b: Decimal) -> (r: bool)
    ensures
        r == (a.units() < b.units()),
{
    let x = rust_decimal::Decimal::from_i128_with_scale(a.mantissa, a.scale);
    let y = rust_decimal::Decimal::from_i128_with_scale(b.mantissa, b.scale);
    x < y
}

/// `rust_decimal::Decimal::round_dp`: a number with more than `dp` fractional
/// digits is rounded to `dp` of them, a tie going to the even digit; any other
/// is returned as it is.
#[verifier::external_body]
fn rounded(a: Decimal, dp: u32) -> (r: Decimal)
    ensures
        r == dround(a, dp as int),
{
    let x = rust_decimal::Decimal::from_i128_with_scale(a.mantissa, a.scale);
    let z = x.round_dp(dp);
    Decimal { mantissa: z.mantissa(), scale: z.scale() }
}

/// `rust_decimal::Decimal::trunc`: the fractional digits are cut off.
#[verifier::external_body]
fn truncated(a: Decimal) -> (r: Decimal)
    ensures
        r == dtrunc(a),
{
    let x = rust_decimal::Decimal::from_i128_with_scale(a.mantissa, a.scale);
    let z = x.trunc();
    Decimal { mantissa: z.mantissa(), scale: z.scale() }
}

/// `rust_decimal::Decimal::from_str`. The result is `decimal_of_text` of the
/// text; the grammar it reads is left to the name.
#[verifier::external_body]
fn parsed(text: &str) -> (r: Option<Decimal>)
    ensures
        r == decimal_of_text(text@),
{
    let z: rust_decimal::Decimal = text.parse().ok()?;
    Some(Decimal { mantissa: z.mantissa(), scale: z.scale() })
}

/// `to_string` of `rust_decimal::Decimal`. The result is `text_of_decimal`.
#[verifier::external_body]
fn written(a: Decimal) -> (r: String)
    ensures
        r@ == text_of_decimal(a),
{
    let x = rust_decimal::Decimal::from_i128_with_scale(a.mantissa, a.scale);
    x.to_string()
}

/// `rust_decimal::Decimal`'s `Display` with a precision: what is written is
/// `fixed_text`. The formatter writes into 32 characters, the sign not among them,
/// and panics where the digits on both sides and the point do not fit.
#[verifier::external_body]
fn written_fixed(a: Decimal, dp: usize) -> (r: String)
    requires
        has_room(a, dp as int),
    ensures
        r@ == fixed_text(a, dp as int),
{
    format!("{:.*}", dp, rust_decimal::Decimal::from_i128_with_scale(a.mantissa, a.scale))
}

/// The sum of two numbers takes no rounding.
pub open spec fn sums_exactly(a: Decimal, b: Decimal) -> bool {
    a.mant() == 0 || b.mant() == 0 || (aligned(a, b) && fits(
        on_scale(a, finer(a, b)) + on_scale(b, finer(a, b)),
    ))
}

/// On a finer scale a number has the same value.
pub proof fn lemma_on_scale(a: Decimal, s: int)
    requires
        0 <= a.scl() <= s <= MAX_SCALE,
    ensures
        a.units() == on_scale(a, s) * pow10((MAX_SCALE - s) as nat),
{
    reveal(Decimal::units);
    let x = pow10((s - a.scl()) as nat);
    let y = pow10((MAX_SCALE - s) as nat);
    lemma_pow10_add((s - a.scl()) as nat, (MAX_SCALE - s) as nat);
    let m = a.mant();
    assert(m * (x * y) == (m * x) * y) by (nonlinear_arith);
}

/// An exact sum has the value of the two numbers together.
pub proof fn lemma_sum_value(a: Decimal, b: Decimal, r: Calc)
    requires
        a.valid(),
        b.valid(),
        sums_exactly(a, b),
        adds_up(a, b, r),
    ensures
        r is Ok,
        r->Ok_0.units() == a.units() + b.units(),
{
    broadcast use lemma_lit, lemma_sign;

    reveal(adds_up);
    let f = finer(a, b);
    if a.mant() != 0 && b.mant() != 0 {
        let x = on_scale(a, f);
        let y = on_scale(b, f);
        lemma_on_scale(a, f);
        lemma_on_scale(b, f);
        lemma_on_scale(lit(x + y, f), f);
        let p = pow10((MAX_SCALE - f) as nat);
        assert(pow10(0) == 1);
        let z = x + y;
        assert(z * 1 == z);
        assert((f - lit(z, f).scl()) as nat == 0);
        assert((x + y) * p == x * p + y * p) by (nonlinear_arith);
    }
}

/// An exact difference has the value of the first number less that of the second.
pub proof fn lemma_difference_value(a: Decimal, b: Decimal, r: Calc)
    requires
        a.valid(),
        b.valid(),
        sums_exactly(a, dneg(b)),
        takes_away(a, b, r),
    ensures
        r is Ok,
        r->Ok_0.units() == a.units() - b.units(),
{
    broadcast use lemma_lit, lemma_sign;

    reveal(takes_away);
    let c = dneg(b);
    lemma_multiple_value(b, -1, c);
    let f = finer(a, b);
    if a.mant() != 0 && b.mant() != 0 {
        let x = on_scale(a, f);
        let y = on_scale(b, f);
        let q = pow10((f - b.scl()) as nat);
        let m = b.mant();
        assert((-m) * q == -(m * q)) by (nonlinear_arith);
        assert(on_scale(c, f) == -y);
        lemma_on_scale(a, f);
        lemma_on_scale(b, f);
        lemma_on_scale(lit(x - y, f), f);
        let p = pow10((MAX_SCALE - f) as nat);
        assert(pow10(0) == 1);
        let z = x - y;
        assert(z * 1 == z);
        assert((f - lit(z, f).scl()) as nat == 0);
        assert((x - y) * p == x * p - y * p) by (nonlinear_arith);
    }
}

/// `m` times the mantissa on the same scale is `m` times the value.
pub proof fn lemma_multiple_value(a: Decimal, m: int, r: Decimal)
    requires
        r.mant() == m * a.mant(),
        r.scl() == a.scl(),
    ensures
        r.units() == m * a.units(),
{
    reveal(Decimal::units);
    let p = pow10((MAX_SCALE - a.scl()) as nat);
    let x = a.mant();
    assert((m * x) * p == m * (x * p)) by (nonlinear_arith);
}

// ---------------------------------------------------------------------------
// Values
// ---------------------------------------------------------------------------

/// What a computation comes to, in units of `10^-28`.
pub open spec fn value(c: Calc) -> int {
    c->Ok_0.units()
}

/// One, in units of `10^-28`.
#[verifier::opaque]
pub open spec fn whole() -> int {
    pow10(MAX_SCALE as nat)
}

/// The sum is there, and nothing of it is rounded away.
pub open spec fn adds_exactly(a: Calc, b: Calc) -> bool {
    sum(a, b) is Ok && value(sum(a, b)) == value(a) + value(b)
}

/// The difference is there, and nothing of it is rounded away.
pub open spec fn subtracts_exactly(a: Calc, b: Calc) -> bool {
    diff(a, b) is Ok && value(diff(a, b)) == value(a) - value(b)
}

/// The product is there, and nothing of it is rounded away.
pub open spec fn multiplies_exactly(a: Calc, b: Calc) -> bool {
    prod(a, b) is Ok && value(prod(a, b)) * whole() == value(a) * value(b)
}

/// The quotient is there, and nothing of it is rounded away.
pub open spec fn divides_exactly(a: Calc, b: Calc) -> bool {
    quot(a, b) is Ok && value(b) != 0 && value(quot(a, b)) * value(b) == value(a) * whole()
}

pub proof fn lemma_whole()
    ensures
        whole() > 0,
{
    reveal(whole);
    lemma_pow10_positive(MAX_SCALE as nat);
}

/// A whole number is that many times one.
pub proof fn lemma_whole_number(n: int)
    requires
        fits(n),
    ensures
        lit(n, 0).units() == n * whole(),
{
    broadcast use lemma_lit;

    reveal(whole);
    reveal(Decimal::units);
}

/// A number without fractional digits is that many times one.
pub proof fn lemma_whole_number_of(a: Decimal)
    requires
        a.scl() == 0,
    ensures
        a.units() == a.mant() * whole(),
{
    reveal(whole);
    reveal(Decimal::units);
}

/// The larger of two numbers has the larger value, the smaller one the smaller.
pub proof fn lemma_extremes(a: Decimal, b: Decimal)
    ensures
        dmax(a, b).units() >= a.units(),
        dmax(a, b).units() >= b.units(),
        dmin(a, b).units() <= a.units(),
        dmin(a, b).units() <= b.units(),
        dmax(a, b) == a || dmax(a, b) == b,
        dmin(a, b) == a || dmin(a, b) == b,
{
}

/// `|a|` has the value without its sign.
pub proof fn lemma_size(a: Decimal)
    requires
        a.valid(),
    ensures
        dabs(a).units() == magnitude(a.units()),
{
    broadcast use lemma_lit, lemma_sign;

    if a.mant() < 0 {
        lemma_multiple_value(a, -1, dabs(a));
    } else {
        lemma_multiple_value(a, 1, dabs(a));
    }
}

/// Scaling by a positive number keeps the order.
pub proof fn lemma_scaled_order(x: int, y: int, p: int)
    requires
        p > 0,
    ensures
        x < y <==> x * p < y * p,
        x <= y <==> x * p <= y * p,
        x == y <==> x * p == y * p,
{
    assert(x < y ==> x * p < y * p) by (nonlinear_arith)
        requires
            p > 0,
    ;
    assert(y < x ==> y * p < x * p) by (nonlinear_arith)
        requires
            p > 0,
    ;
}

/// Where the sum takes no rounding, adding gives it exactly.
pub proof fn lemma_adds_exactly(a: Decimal, b: Decimal)
    requires
        a.valid(),
        b.valid(),
        sums_exactly(a, b),
        adds_up(a, b, sum(Ok(a), Ok(b))),
    ensures
        adds_exactly(Ok(a), Ok(b)),
{
    lemma_sum_value(a, b, sum(Ok(a), Ok(b)));
}

/// Where the difference takes no rounding, taking away gives it exactly.
pub proof fn lemma_subtracts_exactly(a: Decimal, b: Decimal)
    requires
        a.valid(),
        b.valid(),
        sums_exactly(a, dneg(b)),
        takes_away(a, b, diff(Ok(a), Ok(b))),
    ensures
        subtracts_exactly(Ok(a), Ok(b)),
{
    lemma_difference_value(a, b, diff(Ok(a), Ok(b)));
}

/// Where the digits of the product fit, multiplying gives it exactly.
pub proof fn lemma_multiplies_exactly(a: Decimal, b: Decimal)
    requires
        a.valid(),
        b.valid(),
        a.mant() == 0 || b.mant() == 0 || (fits(a.mant() * b.mant()) && a.scl() + b.scl()
            <= MAX_SCALE),
        multiplies(a, b, prod(Ok(a), Ok(b))),
    ensures
        multiplies_exactly(Ok(a), Ok(b)),
{
    broadcast use lemma_lit, lemma_sign;

    reveal(multiplies);
    let x = a.units();
    let y = b.units();
    let w = whole();
    if a.mant() == 0 || b.mant() == 0 {
        assert(0 * w == x * y) by (nonlinear_arith)
            requires
                x == 0 || y == 0,
        ;
    } else {
        reveal(whole);
        reveal(Decimal::units);
        let r = lit(a.mant() * b.mant(), a.scl() + b.scl());
        let m = a.mant();
        let n = b.mant();
        let pa = pow10((MAX_SCALE - a.scl()) as nat);
        let pb = pow10((MAX_SCALE - b.scl()) as nat);
        let pr = pow10((MAX_SCALE - a.scl() - b.scl()) as nat);
        lemma_pow10_add((MAX_SCALE - a.scl()) as nat, (MAX_SCALE - b.scl()) as nat);
        lemma_pow10_add((MAX_SCALE - a.scl() - b.scl()) as nat, MAX_SCALE as nat);
        assert((MAX_SCALE - a.scl() - b.scl()) as nat + MAX_SCALE as nat == (MAX_SCALE
            - a.scl()) as nat + (MAX_SCALE - b.scl()) as nat);
        assert(((m * n) * pr) * w == (m * pa) * (n * pb)) by (nonlinear_arith)
            requires
                pr * w == pa * pb,
        ;
    }
}

/// Where the mantissas divide and the scales allow it, dividing is exact.
pub proof fn lemma_divides_exactly(a: Decimal, b: Decimal)
    requires
        a.valid(),
        b.valid(),
        b.mant() != 0,
        a.mant() == 0 || (a.mant() % b.mant() == 0 && a.scl() >= b.scl()),
        divides(a, b, quot(Ok(a), Ok(b))),
    ensures
        divides_exactly(Ok(a), Ok(b)),
{
    broadcast use lemma_lit, lemma_sign;

    reveal(divides);
    let x = a.units();
    let y = b.units();
    let w = whole();
    if a.mant() == 0 {
        assert(0 * y == x * w) by (nonlinear_arith)
            requires
                x == 0,
        ;
    } else {
        reveal(whole);
        reveal(Decimal::units);
        let m = a.mant();
        let n = b.mant();
        let q = m / n;
        assert(m == q * n && magnitude(q) <= magnitude(m)) by (nonlinear_arith)
            requires
                n != 0,
                m % n == 0,
                q == m / n,
        ;
        let pa = pow10((MAX_SCALE - a.scl()) as nat);
        let pb = pow10((MAX_SCALE - b.scl()) as nat);
        let pq = pow10((MAX_SCALE - (a.scl() - b.scl())) as nat);
        lemma_pow10_add((MAX_SCALE - (a.scl() - b.scl())) as nat, (MAX_SCALE - b.scl()) as nat);
        lemma_pow10_add((MAX_SCALE - a.scl()) as nat, MAX_SCALE as nat);
        assert((MAX_SCALE - (a.scl() - b.scl())) as nat + (MAX_SCALE - b.scl()) as nat == (
        MAX_SCALE - a.scl()) as nat + MAX_SCALE as nat);
        assert((q * pq) * (n * pb) == (m * pa) * w) by (nonlinear_arith)
            requires
                pq * pb == pa * w,
                m == q * n,
        ;
    }
}

/// Half of a sum takes no rounding.
pub open spec fn halves_exactly(a: Calc, b: Calc) -> bool {
    adds_exactly(a, b) && divides_exactly(sum(a, b), Ok(lit(2, 0)))
}

/// Half of a sum, twice, is the sum.
pub proof fn lemma_half(a: Calc, b: Calc)
    requires
        halves_exactly(a, b),
    ensures
        quot(sum(a, b), Ok(lit(2, 0))) is Ok,
        2 * value(quot(sum(a, b), Ok(lit(2, 0)))) == value(a) + value(b),
{
    lemma_whole();
    lemma_whole_number(2);
    let w = whole();
    let h = value(quot(sum(a, b), Ok(lit(2, 0))));
    let t = value(a) + value(b);
    assert(2 * h == t) by (nonlinear_arith)
        requires
            h * (2 * w) == t * w,
            w > 0,
    ;
}

/// A part in percent takes no rounding.
pub open spec fn percents_exactly(part: Calc, base: Calc) -> bool {
    divides_exactly(part, base) && multiplies_exactly(quot(part, base), Ok(lit(100, 0)))
}

/// A part in percent of a base, times the base, is a hundred times the part. It lies on the
/// side of zero on which the part lies, where the base is above zero.
pub proof fn lemma_percent(part: Calc, base: Calc)
    requires
        percents_exactly(part, base),
    ensures
        prod(quot(part, base), Ok(lit(100, 0))) is Ok,
        ({
            let x = value(prod(quot(part, base), Ok(lit(100, 0))));
            &&& x * value(base) == 100 * value(part) * whole()
            &&& value(base) > 0 ==> (x > 0 <==> value(part) > 0) && (x < 0 <==> value(part) < 0)
        }),
{
    lemma_whole();
    lemma_whole_number(100);
    let w = whole();
    let q = value(quot(part, base));
    let x = value(prod(quot(part, base), Ok(lit(100, 0))));
    let b = value(base);
    let p = value(part);
    assert(x == 100 * q) by (nonlinear_arith)
        requires
            x * w == q * (100 * w),
            w > 0,
    ;
    assert((100 * q) * b == 100 * p * w) by (nonlinear_arith)
        requires
            q * b == p * w,
    ;
    if b > 0 {
        lemma_scaled_order(0, x, b);
        lemma_scaled_order(x, 0, b);
        let z = 100 * p;
        lemma_scaled_order(0, z, w);
        lemma_scaled_order(z, 0, w);
        assert(0 * b == 0 && 0 * w == 0) by (nonlinear_arith);
    }
}

/// A number over a count is the mean: times the count it is the number.
pub proof fn lemma_over_count(total: Calc, n: int)
    requires
        0 < n,
        fits(n),
        divides_exactly(total, Ok(lit(n, 0))),
    ensures
        value(quot(total, Ok(lit(n, 0)))) * n == value(total),
{
    lemma_whole();
    lemma_whole_number(n);
    let w = whole();
    let m = value(quot(total, Ok(lit(n, 0))));
    let t = value(total);
    assert(m * n == t) by (nonlinear_arith)
        requires
            m * (n * w) == t * w,
            w > 0,
    ;
}

/// Rounding to `dp` digits moves a number by half a digit at most, and gives a whole number
/// of such digits.
pub proof fn lemma_rounded(a: Decimal, dp: int)
    requires
        a.valid(),
        0 <= dp <= MAX_SCALE,
    ensures
        ({
            let digit = pow10((MAX_SCALE - dp) as nat);
            let r = dround(a, dp).units();
            &&& digit > 0
            &&& 2 * magnitude(r - a.units()) <= digit
            &&& a.scl() > dp ==> dround(a, dp).mant() * digit == r
            &&& a.scl() > dp ==> dround(a, dp).scl() == dp
        }),
{
    broadcast use lemma_lit;

    reveal(Decimal::units);
    let digit = pow10((MAX_SCALE - dp) as nat);
    lemma_pow10_positive((MAX_SCALE - dp) as nat);
    if a.scl() > dp {
        let p = pow10((a.scl() - dp) as nat);
        let rest = pow10((MAX_SCALE - a.scl()) as nat);
        lemma_pow10_positive((a.scl() - dp) as nat);
        lemma_pow10_positive((MAX_SCALE - a.scl()) as nat);
        lemma_pow10_add((a.scl() - dp) as nat, (MAX_SCALE - a.scl()) as nat);
        lemma_pow10_grows(1, (a.scl() - dp) as nat);
        assert(pow10(1) == 10) by {
            reveal_with_fuel(pow10, 2);
        }
        let m = a.mant();
        let h = half_even(m, p);
        lemma_half_even(m, p);
        assert(magnitude(h) <= magnitude(m) + 1 && (magnitude(m) >= 10 ==> magnitude(h)
            <= magnitude(m)));
        assert(fits(h));
        let e = h * p - m;
        assert(h * digit - m * rest == e * rest) by (nonlinear_arith)
            requires
                digit == p * rest,
                e == h * p - m,
        ;
        assert(2 * magnitude(e * rest) <= digit) by (nonlinear_arith)
            requires
                digit == p * rest,
                2 * magnitude(e) <= p,
                rest > 0,
        ;
    } else {
        assert(magnitude(0) == 0);
    }
}

proof fn lemma_half_even(m: int, p: int)
    requires
        p >= 10,
    ensures
        2 * magnitude(half_even(m, p) * p - m) <= p,
        magnitude(half_even(m, p)) <= magnitude(m) + 1,
        magnitude(m) >= 10 ==> magnitude(half_even(m, p)) <= magnitude(m),
        m >= 0 ==> half_even(m, p) >= 0,
{
    let x = magnitude(m);
    let q = x / p;
    let r = x % p;
    assert(x == q * p + r && 0 <= r < p && q >= 0 && q * 10 <= x) by (nonlinear_arith)
        requires
            p >= 10,
            x >= 0,
            q == x / p,
            r == x % p,
    ;
    assert((q + 1) * p == q * p + p && (-q) * p == -(q * p) && (-(q + 1)) * p == -(q * p) - p)
        by (nonlinear_arith);
}

/// Rounded to a whole number, a number is that many times one, within half of one; cutting
/// its fraction off then changes nothing.
pub proof fn lemma_rounded_whole(a: Decimal)
    requires
        a.valid(),
    ensures
        2 * magnitude(dround(a, 0).mant() * whole() - a.units()) <= whole(),
        dround(a, 0).scl() == 0,
        dtrunc(dround(a, 0)).mant() == dround(a, 0).mant(),
        dround(a, 0).valid(),
{
    broadcast use lemma_lit;

    reveal(whole);
    reveal(Decimal::units);
    lemma_rounded(a, 0);
    let r = dround(a, 0);
    if a.scl() > 0 {
        let p = pow10(a.scl() as nat);
        lemma_pow10_grows(1, a.scl() as nat);
        assert(pow10(1) == 10) by {
            reveal_with_fuel(pow10, 2);
        }
        lemma_half_even(a.mant(), p);
        assert(fits(r.mant()));
    }
    assert(pow10(0) == 1);
    let m = r.mant();
    assert(magnitude(m) / 1 == magnitude(m));
    assert(toward_zero(m, 1) == m);
}

/// What some numbers come to together, in units of `10^-28`.
pub open spec fn units_of(s: Seq<Decimal>) -> int
    decreases s.len(),
{
    if s.len() == 0 {
        0
    } else {
        units_of(s.drop_last()) + s.last().units()
    }
}

/// Numbers added one after the other.
pub open spec fn running_sum(s: Seq<Decimal>) -> Calc
    decreases s.len(),
{
    if s.len() == 0 {
        Ok(lit(0, 0))
    } else {
        sum(running_sum(s.drop_last()), Ok(s.last()))
    }
}

/// Nothing is rounded away while the numbers are added one after the other.
pub open spec fn adds_up_exactly(s: Seq<Decimal>) -> bool
    decreases s.len(),
{
    s.len() == 0 || (adds_up_exactly(s.drop_last()) && adds_exactly(
        running_sum(s.drop_last()),
        Ok(s.last()),
    ))
}

pub proof fn lemma_running_sum(s: Seq<Decimal>)
    requires
        adds_up_exactly(s),
    ensures
        running_sum(s) is Ok,
        value(running_sum(s)) == units_of(s),
    decreases s.len(),
{
    broadcast use lemma_lit, lemma_sign;

    if s.len() > 0 {
        lemma_running_sum(s.drop_last());
    }
}

/// Where the numbers come to more than zero one of them is above zero, and where they come
/// to less one is below it.
pub proof fn lemma_some_on_the_side(s: Seq<Decimal>)
    ensures
        units_of(s) > 0 ==> exists|i: int| 0 <= i < s.len() && (#[trigger] s[i]).units() > 0,
        units_of(s) < 0 ==> exists|i: int| 0 <= i < s.len() && (#[trigger] s[i]).units() < 0,
    decreases s.len(),
{
    if s.len() > 0 {
        let t = s.drop_last();
        lemma_some_on_the_side(t);
        assert(s[s.len() - 1] == s.last());
        if units_of(t) > 0 {
            let i = choose|i: int| 0 <= i < t.len() && (#[trigger] t[i]).units() > 0;
            assert(s[i] == t[i]);
        }
        if units_of(t) < 0 {
            let i = choose|i: int| 0 <= i < t.len() && (#[trigger] t[i]).units() < 0;
            assert(s[i] == t[i]);
        }
    }
}

/// A mean of numbers lies between bounds that all of them keep.
pub proof fn lemma_units_between(s: Seq<Decimal>, lo: int, hi: int)
    requires
        forall|i: int| 0 <= i < s.len() ==> lo <= (#[trigger] s[i]).units() <= hi,
    ensures
        lo * s.len() <= units_of(s) <= hi * s.len(),
    decreases s.len(),
{
    if s.len() > 0 {
        let t = s.drop_last();
        let n = t.len() as int;
        assert forall|i: int| 0 <= i < t.len() implies lo <= (#[trigger] t[i]).units() <= hi by {
            assert(t[i] == s[i]);
        }
        lemma_units_between(t, lo, hi);
        assert(s[s.len() - 1] == s.last());
        assert(lo * (n + 1) == lo * n + lo && hi * (n + 1) == hi * n + hi) by (nonlinear_arith);
    }
}

// ---------------------------------------------------------------------------
// Operations
// ---------------------------------------------------------------------------

impl Decimal {
    /// `num / 10^scale`.
    pub fn new(num: i64, scale: u32) -> (r: Decimal)
        requires
            scale <= MAX_SCALE,
        ensures
            r == lit(num as int, scale as int),
            r.mant() == num,
            r.scl() == scale,
    {
        Decimal { mantissa: num as i128, scale }
    }

    /// A whole number.
    pub fn from_int(num: i64) -> (r: Decimal)
        ensures
            r == lit(num as int, 0),
            r.mant() == num,
            r.scl() == 0,
    {
        Decimal { mantissa: num as i128, scale: 0 }
    }

    /// A whole number of 64 unsigned bits.
    pub fn from_u64(num: u64) -> (r: Decimal)
        ensures
            r == lit(num as int, 0),
            r.mant() == num,
            r.scl() == 0,
    {
        Decimal { mantissa: num as i128, scale: 0 }
    }

    /// A mantissa and a scale, where both fit.
    pub fn from_parts(mantissa: i128, scale: u32) -> (r: Option<Decimal>)
        ensures
            r is Some <==> fits(mantissa as int) && scale <= MAX_SCALE,
            r matches Some(d) ==> d == lit(mantissa as int, scale as int),
    {
        if mantissa < MANTISSA_LIMIT && mantissa > -MANTISSA_LIMIT && scale <= MAX_SCALE {
            Some(Decimal { mantissa, scale })
        } else {
            None
        }
    }

    /// Zero.
    pub fn zero() -> (r: Decimal)
        ensures
            r == lit(0, 0),
            r.mant() == 0,
            r.scl() == 0,
            r.units() == 0,
    {
        proof {
            lemma_sign(Decimal { mantissa: 0, scale: 0 });
        }
        Decimal { mantissa: 0, scale: 0 }
    }

    /// One.
    pub fn one() -> (r: Decimal)
        ensures
            r == lit(1, 0),
            r.mant() == 1,
            r.scl() == 0,
    {
        Decimal { mantissa: 1, scale: 0 }
    }

    /// The number that a text spells.
    pub fn parse(text: &str) -> (r: Option<Decimal>)
        ensures
            r == decimal_of_text(text@),
    {
        parsed(text)
    }

    /// The number as text.
    pub fn text(self) -> (r: String)
        ensures
            r@ == text_of_decimal(self),
    {
        written(self)
    }

    /// The number can be written with `dp` fractional digits.
    pub fn can_be_fixed(self, dp: usize) -> (r: bool)
        ensures
            r == has_room(self, dp as int),
    {
        proof {
            use_type_invariant(&self);
        }
        if dp > MAX_SCALE as usize {
            return false;
        }
        let n: u32 = 31 - dp as u32 + self.scale;
        if n >= 29 {
            proof {
                lemma_room(self, n as nat);
            }
            return true;
        }
        let mut p: i128 = 1;
        let mut i: u32 = 0;
        proof {
            reveal_with_fuel(pow10, 30);
            assert(pow10(28) == 10_000_000_000_000_000_000_000_000_000);
            lemma_pow10_grows(n as nat, 28);
            lemma_pow10_grows(0, n as nat);
        }
        while i < n
            invariant
                i <= n < 29,
                p == pow10(i as nat),
                p <= pow10(n as nat) < MANTISSA_LIMIT,
            decreases n - i,
        {
            proof {
                lemma_pow10_grows((i + 1) as nat, n as nat);
            }
            p = 10 * p;
            i = i + 1;
        }
        if self.mantissa < 0 {
            -self.mantissa < p
        } else {
            self.mantissa < p
        }
    }

    /// The number with `dp` fractional digits.
    pub fn fixed(self, dp: usize) -> (r: String)
        requires
            has_room(self, dp as int),
        ensures
            r@ == fixed_text(self, dp as int),
    {
        written_fixed(self, dp)
    }

    pub fn mantissa(self) -> (r: i128)
        ensures
            r == self.mant(),
            fits(r as int),
    {
        proof {
            use_type_invariant(&self);
        }
        self.mantissa
    }

    pub fn scale(self) -> (r: u32)
        ensures
            r == self.scl(),
            r <= MAX_SCALE,
    {
        proof {
            use_type_invariant(&self);
        }
        self.scale
    }

    pub fn is_zero(self) -> (r: bool)
        ensures
            r == (self.mant() == 0),
            r == (self.units() == 0),
    {
        proof {
            lemma_sign(self);
        }
        self.mantissa == 0
    }

    /// Not below zero.
    pub fn is_sign_positive(self) -> (r: bool)
        ensures
            r == (self.mant() >= 0),
            r == (self.units() >= 0),
    {
        proof {
            lemma_sign(self);
        }
        self.mantissa >= 0
    }

    /// Above zero.
    pub fn is_positive(self) -> (r: bool)
        ensures
            r == (self.mant() > 0),
            r == (self.units() > 0),
    {
        proof {
            lemma_sign(self);
        }
        self.mantissa > 0
    }

    pub fn plus(self, other: Decimal) -> (r: Calc)
        ensures
            r == sum(Ok(self), Ok(other)),
            self.mant() == 0 ==> r == Ok::<Decimal, ArithError>(other),
            other.mant() == 0 && self.mant() != 0 ==> r == Ok::<Decimal, ArithError>(self),
            adds_up(self, other, r),
            self.valid(),
            other.valid(),
            r matches Ok(d) ==> d.valid(),
    {
        reveal(adds_up);
        proof {
            use_type_invariant(&self);
            use_type_invariant(&other);
        }
        match checked_add(self, other) {
            Some(d) => {
                proof {
                    use_type_invariant(&d);
                }
                Ok(d)
            },
            None => Err(ArithError),
        }
    }

    pub fn minus(self, other: Decimal) -> (r: Calc)
        ensures
            r == diff(Ok(self), Ok(other)),
            takes_away(self, other, r),
            self.valid(),
            other.valid(),
            r matches Ok(d) ==> d.valid(),
    {
        reveal(takes_away);
        proof {
            use_type_invariant(&self);
            use_type_invariant(&other);
        }
        match checked_sub(self, other) {
            Some(d) => {
                proof {
                    use_type_invariant(&d);
                }
                Ok(d)
            },
            None => Err(ArithError),
        }
    }

    pub fn times(self, other: Decimal) -> (r: Calc)
        ensures
            r == prod(Ok(self), Ok(other)),
            self.mant() >= 0 && other.mant() >= 0 && r is Ok ==> r->Ok_0.mant() >= 0,
            multiplies(self, other, r),
            self.valid(),
            other.valid(),
    {
        reveal(multiplies);
        proof {
            use_type_invariant(&self);
            use_type_invariant(&other);
        }
        match checked_mul(self, other) {
            Some(d) => Ok(d),
            None => Err(ArithError),
        }
    }

    pub fn over(self, other: Decimal) -> (r: Calc)
        ensures
            r == quot(Ok(self), Ok(other)),
            other.mant() == 0 ==> r is Err,
            self.mant() >= 0 && other.mant() >= 0 && r is Ok ==> r->Ok_0.mant() >= 0,
            divides(self, other, r),
    {
        reveal(divides);
        match checked_div(self, other) {
            Some(d) => Ok(d),
            None => Err(ArithError),
        }
    }

    pub fn neg(self) -> (r: Decimal)
        ensures
            r == dneg(self),
            r.mant() == -self.mant(),
            r.scl() == self.scl(),
    {
        proof {
            use_type_invariant(&self);
        }
        Decimal { mantissa: -self.mantissa, scale: self.scale }
    }

    pub fn abs(self) -> (r: Decimal)
        ensures
            r == dabs(self),
            r.mant() == magnitude(self.mant()),
            r.scl() == self.scl(),
    {
        proof {
            use_type_invariant(&self);
        }
        if self.mantissa < 0 {
            Decimal { mantissa: -self.mantissa, scale: self.scale }
        } else {
            self
        }
    }

    pub fn max(self, other: Decimal) -> (r: Decimal)
        ensures
            r == dmax(self, other),
    {
        if less(self, other) {
            other
        } else {
            self
        }
    }

    pub fn min(self, other: Decimal) -> (r: Decimal)
        ensures
            r == dmin(self, other),
    {
        if less(other, self) {
            other
        } else {
            self
        }
    }

    /// Rounded to `dp` fractional digits.
    pub fn round_dp(self, dp: u32) -> (r: Decimal)
        ensures
            r == dround(self, dp as int),
            r.valid(),
    {
        let r = rounded(self, dp);
        proof {
            use_type_invariant(&r);
        }
        r
    }

    /// Rounded to a whole number.
    pub fn round(self) -> (r: Decimal)
        ensures
            r == dround(self, 0),
    {
        rounded(self, 0)
    }

    /// The integral part.
    pub fn trunc(self) -> (r: Decimal)
        ensures
            r == dtrunc(self),
    {
        truncated(self)
    }
}

/// The sum of two results.
pub fn add_calc(a: Calc, b: Calc) -> (r: Calc)
    ensures
        r == sum(a, b),
{
    a?.plus(b?)
}

impl PartialEq for Decimal {
    fn eq(&self, other: &Decimal) -> (r: bool) {
        !less(*self, *other) && !less(*other, *self)
    }
}

impl vstd::std_specs::cmp::PartialEqSpecImpl for Decimal {
    open spec fn obeys_eq_spec() -> bool {
        true
    }

    open spec fn eq_spec(&self, other: &Decimal) -> bool {
        self.units() == other.units()
    }
}

impl Eq for Decimal {
}

impl PartialOrd for Decimal {
    fn partial_cmp(&self, other: &Decimal) -> (r: Option<Ordering>) {
        if less(*self, *other) {
            Some(Ordering::Less)
        } else if less(*other, *self) {
            Some(Ordering::Greater)
        } else {
            Some(Ordering::Equal)
        }
    }
}

impl vstd::std_specs::cmp::PartialOrdSpecImpl for Decimal {
    open spec fn obeys_partial_cmp_spec() -> bool {
        true
    }

    open spec fn partial_cmp_spec(&self, other: &Decimal) -> Option<Ordering> {
        if self.units() < other.units() {
            Some(Ordering::Less)
        } else if other.units() < self.units() {
            Some(Ordering::Greater)
        } else {
            Some(Ordering::Equal)
        }
    }
}

} // verus!
