use rust_decimal::Decimal;
use vstd::prelude::*;

verus! {

/// The largest mantissa magnitude that a decimal amount can hold: 2^96 - 1.
pub const MAX_MANTISSA: i128 = 79228162514264337593543950335;

/// The largest number of fractional digits of a decimal amount.
pub const MAX_SCALE: u32 = 28;

/// A decimal amount of money: `mantissa / 10^scale`.
///
/// It holds the same two numbers as a `rust_decimal::Decimal`, which does
/// the arithmetic on it.
#[derive(Debug, Clone, Copy)]
pub struct Amount {
    pub mantissa: i128,
    pub scale: u32,
}

/// `10^n`.
pub open spec fn pow10(n: nat) -> int
    decreases n,
{
    if n == 0 {
        1
    } else {
        10 * pow10((n - 1) as nat)
    }
}

/// The mantissa of `m / 10^s` written with `t` fractional digits (`s <= t`).
pub open spec fn aligned_mantissa(m: int, s: u32, t: u32) -> int {
    m * pow10((t - s) as nat)
}

/// The larger of two scales.
pub open spec fn max_scale(s: u32, t: u32) -> u32 {
    if s <= t {
        t
    } else {
        s
    }
}

/// Whether `m` fits in the 96-bit mantissa of a decimal.
pub open spec fn mantissa_fits(m: int) -> bool {
    -MAX_MANTISSA <= m <= MAX_MANTISSA
}

impl Amount {
    /// A decimal can hold the amount.
    pub open spec fn wf(self) -> bool {
        &&& mantissa_fits(self.mantissa as int)
        &&& self.scale <= MAX_SCALE
    }

    /// The amount in units of `10^-28`.
    pub open spec fn value(self) -> int {
        aligned_mantissa(self.mantissa as int, self.scale, MAX_SCALE)
    }

    /// Zero, with no fractional digits.
    pub fn zero() -> (r: Amount)
        ensures
            r.wf(),
            r.value() == 0,
            r.mantissa == 0,
            r.scale == 0,
    {
        Amount { mantissa: 0, scale: 0 }
    }

    /// `mantissa / 10^scale`, where a decimal can hold it.
    pub fn new(mantissa: i128, scale: u32) -> (r: Option<Amount>)
        ensures
            r matches Some(a) ==> a.mantissa == mantissa && a.scale == scale,
            r is Some <==> (mantissa_fits(mantissa as int) && scale <= MAX_SCALE),
    {
        if -MAX_MANTISSA <= mantissa && mantissa <= MAX_MANTISSA && scale <= MAX_SCALE {
            Some(Amount { mantissa, scale })
        } else {
            None
        }
    }
}

/// The exact sum of `a` and `b` fits in a decimal with as many fractional
/// digits as the finer of the two.
pub open spec fn sum_fits(a: Amount, b: Amount) -> bool {
    let t = max_scale(a.scale, b.scale);
    mantissa_fits(
        aligned_mantissa(a.mantissa as int, a.scale, t) + aligned_mantissa(
            b.mantissa as int,
            b.scale,
            t,
        ),
    )
}

/// The exact difference `a - b` fits in a decimal with as many fractional
/// digits as the finer of the two.
pub open spec fn difference_fits(a: Amount, b: Amount) -> bool {
    let t = max_scale(a.scale, b.scale);
    mantissa_fits(
        aligned_mantissa(a.mantissa as int, a.scale, t) - aligned_mantissa(
            b.mantissa as int,
            b.scale,
            t,
        ),
    )
}

/// The (mantissa, scale) pair of the result of `Decimal::checked_add` on the
/// decimals with the given mantissas and scales, or `None` where it
/// overflows.
pub uninterp spec fn decimal_checked_add(
    a_mantissa: i128,
    a_scale: u32,
    b_mantissa: i128,
    b_scale: u32,
) -> Option<(i128, u32)>;

/// The (mantissa, scale) pair of the result of `Decimal::checked_sub` on the
/// decimals with the given mantissas and scales, or `None` where it
/// overflows.
pub uninterp spec fn decimal_checked_sub(
    a_mantissa: i128,
    a_scale: u32,
    b_mantissa: i128,
    b_scale: u32,
) -> Option<(i128, u32)>;

/// An optional (mantissa, scale) pair as an optional amount.
pub open spec fn amount_of_parts(parts: Option<(i128, u32)>) -> Option<Amount> {
    match parts {
        Some((m, s)) => Some(Amount { mantissa: m, scale: s }),
        None => None,
    }
}

/// The exact sum of `a` and `b` as a decimal computes it where it fits:
/// the other operand where one is zero, else the aligned sum with the finer
/// of the two scales.
pub open spec fn exact_sum(a: Amount, b: Amount) -> Amount {
    let t = max_scale(a.scale, b.scale);
    if a.mantissa == 0 {
        b
    } else if b.mantissa == 0 {
        a
    } else {
        Amount {
            mantissa: (aligned_mantissa(a.mantissa as int, a.scale, t) + aligned_mantissa(
                b.mantissa as int,
                b.scale,
                t,
            )) as i128,
            scale: t,
        }
    }
}

/// The exact difference `a - b` as a decimal computes it where it fits:
/// `-b` where `a` is zero, `a` where `b` is zero, else the aligned
/// difference with the finer of the two scales.
pub open spec fn exact_difference(a: Amount, b: Amount) -> Amount {
    let t = max_scale(a.scale, b.scale);
    if a.mantissa == 0 {
        Amount { mantissa: (-b.mantissa) as i128, scale: b.scale }
    } else if b.mantissa == 0 {
        a
    } else {
        Amount {
            mantissa: (aligned_mantissa(a.mantissa as int, a.scale, t) - aligned_mantissa(
                b.mantissa as int,
                b.scale,
                t,
            )) as i128,
            scale: t,
        }
    }
}

/// What `a + b` gives on decimals: the exact sum where it fits, else the
/// result of `Decimal::checked_add` (`None` where it overflows; the `+`
/// operator panics there).
pub open spec fn amount_sum(a: Amount, b: Amount) -> Option<Amount> {
    if sum_fits(a, b) {
        Some(exact_sum(a, b))
    } else {
        amount_of_parts(decimal_checked_add(a.mantissa, a.scale, b.mantissa, b.scale))
    }
}

/// What `a - b` gives on decimals: the exact difference where it fits,
/// else the result of `Decimal::checked_sub` (`None` where it overflows;
/// the `-` operator panics there).
pub open spec fn amount_difference(a: Amount, b: Amount) -> Option<Amount> {
    if difference_fits(a, b) {
        Some(exact_difference(a, b))
    } else {
        amount_of_parts(decimal_checked_sub(a.mantissa, a.scale, b.mantissa, b.scale))
    }
}

/// `10^(x + y) == 10^x * 10^y`.
pub proof fn lemma_pow10_add(x: nat, y: nat)
    ensures
        pow10(x + y) == pow10(x) * pow10(y),
    decreases x,
{
    if x > 0 {
        lemma_pow10_add((x - 1) as nat, y);
        assert(pow10(x + y) == 10 * pow10((x - 1 + y) as nat));
        assert(10 * (pow10((x - 1) as nat) * pow10(y)) == (10 * pow10((x - 1) as nat)) * pow10(y))
            by (nonlinear_arith);
    }
}

/// Aligning a mantissa to scale `t` keeps the value it stands for.
pub proof fn lemma_aligned_value(m: int, s: u32, t: u32)
    requires
        s <= t <= MAX_SCALE,
    ensures
        aligned_mantissa(m, s, t) * pow10((MAX_SCALE - t) as nat) == aligned_mantissa(
            m,
            s,
            MAX_SCALE,
        ),
{
    let x = (t - s) as nat;
    let y = (MAX_SCALE - t) as nat;
    lemma_pow10_add(x, y);
    assert((x + y) as nat == (MAX_SCALE - s) as nat);
    assert(m * pow10(x) * pow10(y) == m * (pow10(x) * pow10(y))) by (nonlinear_arith);
}

/// The exact sum stands for the sum of the values and is a valid decimal.
pub proof fn lemma_exact_sum(a: Amount, b: Amount)
    requires
        a.wf(),
        b.wf(),
        sum_fits(a, b),
    ensures
        exact_sum(a, b).wf(),
        exact_sum(a, b).value() == a.value() + b.value(),
{
    let t = max_scale(a.scale, b.scale);
    let x = aligned_mantissa(a.mantissa as int, a.scale, t);
    let y = aligned_mantissa(b.mantissa as int, b.scale, t);
    let p = pow10((MAX_SCALE - t) as nat);
    lemma_aligned_value(a.mantissa as int, a.scale, t);
    lemma_aligned_value(b.mantissa as int, b.scale, t);
    assert((x + y) * p == x * p + y * p) by (nonlinear_arith);
    if a.mantissa == 0 {
        assert(a.value() == 0) by (nonlinear_arith)
            requires
                a.value() == a.mantissa * pow10((MAX_SCALE - a.scale) as nat),
                a.mantissa == 0,
        ;
    } else if b.mantissa == 0 {
        assert(b.value() == 0) by (nonlinear_arith)
            requires
                b.value() == b.mantissa * pow10((MAX_SCALE - b.scale) as nat),
                b.mantissa == 0,
        ;
    }
}

/// The exact difference stands for the difference of the values and is a
/// valid decimal.
pub proof fn lemma_exact_difference(a: Amount, b: Amount)
    requires
        a.wf(),
        b.wf(),
        difference_fits(a, b),
    ensures
        exact_difference(a, b).wf(),
        exact_difference(a, b).value() == a.value() - b.value(),
{
    let t = max_scale(a.scale, b.scale);
    let x = aligned_mantissa(a.mantissa as int, a.scale, t);
    let y = aligned_mantissa(b.mantissa as int, b.scale, t);
    let p = pow10((MAX_SCALE - t) as nat);
    lemma_aligned_value(a.mantissa as int, a.scale, t);
    lemma_aligned_value(b.mantissa as int, b.scale, t);
    assert((x - y) * p == x * p - y * p) by (nonlinear_arith);
    if a.mantissa == 0 {
        let pb = pow10((MAX_SCALE - b.scale) as nat);
        assert(a.value() == 0) by (nonlinear_arith)
            requires
                a.value() == a.mantissa * pow10((MAX_SCALE - a.scale) as nat),
                a.mantissa == 0,
        ;
        assert((-b.mantissa) * pb == -(b.mantissa * pb)) by (nonlinear_arith);
    } else if b.mantissa == 0 {
        assert(b.value() == 0) by (nonlinear_arith)
            requires
                b.value() == b.mantissa * pow10((MAX_SCALE - b.scale) as nat),
                b.mantissa == 0,
        ;
    }
}

/// Calls `rust_decimal::Decimal::checked_add` on the two amounts.
///
/// Claimed of it: where the exact sum fits in 96 bits at the finer of the
/// two scales, the result is that exact sum, with the scale that
/// `exact_sum` gives (the other operand where one is zero); elsewhere it is
/// the named `decimal_checked_add` of the arguments, which the claim leaves
/// open (a rounded sum, or `None` where even no fractional digits hold it);
/// and a result is always a valid decimal.
#[verifier::external_body]
pub(crate) fn checked_add_amounts(a: Amount, b: Amount) -> (r: Option<Amount>)
    requires
        a.wf(),
        b.wf(),
    ensures
        sum_fits(a, b) ==> r == Some(exact_sum(a, b)),
        !sum_fits(a, b) ==> r == amount_of_parts(
            decimal_checked_add(a.mantissa, a.scale, b.mantissa, b.scale),
        ),
        r matches Some(s) ==> s.wf(),
{
    let x = Decimal::from_i128_with_scale(a.mantissa, a.scale);
    let y = Decimal::from_i128_with_scale(b.mantissa, b.scale);
    match x.checked_add(y) {
        Some(d) => Some(Amount { mantissa: d.mantissa(), scale: d.scale() }),
        None => None,
    }
}

/// Calls `rust_decimal::Decimal::checked_sub` on the two amounts.
///
/// Claimed of it: where the exact difference fits in 96 bits at the finer
/// of the two scales, the result is that exact difference, with the scale
/// that `exact_difference` gives; elsewhere it is the named
/// `decimal_checked_sub` of the arguments, which the claim leaves open; and
/// a result is always a valid decimal.
#[verifier::external_body]
pub(crate) fn checked_sub_amounts(a: Amount, b: Amount) -> (r: Option<Amount>)
    requires
        a.wf(),
        b.wf(),
    ensures
        difference_fits(a, b) ==> r == Some(exact_difference(a, b)),
        !difference_fits(a, b) ==> r == amount_of_parts(
            decimal_checked_sub(a.mantissa, a.scale, b.mantissa, b.scale),
        ),
        r matches Some(s) ==> s.wf(),
{
    let x = Decimal::from_i128_with_scale(a.mantissa, a.scale);
    let y = Decimal::from_i128_with_scale(b.mantissa, b.scale);
    match x.checked_sub(y) {
        Some(d) => Some(Amount { mantissa: d.mantissa(), scale: d.scale() }),
        None => None,
    }
}

/// Calls `>=` (`PartialOrd::ge`) on the two amounts as `rust_decimal::Decimal`s.
///
/// Claimed of it: it compares the numbers that the decimals stand for,
/// whatever their scales.
#[verifier::external_body]
pub(crate) fn amount_at_least(a: Amount, b: Amount) -> (r: bool)
    requires
        a.wf(),
        b.wf(),
    ensures
        r == (a.value() >= b.value()),
{
    Decimal::from_i128_with_scale(a.mantissa, a.scale) >= Decimal::from_i128_with_scale(
        b.mantissa,
        b.scale,
    )
}

} // verus!
