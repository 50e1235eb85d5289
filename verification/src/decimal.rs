use vstd::prelude::*;

verus! {

/// A fixed-point decimal number: the value it stands for is
/// `mantissa / 10^scale`, with a 96-bit mantissa and a scale of at
/// most 28 digits, the representation the underlying decimal
/// arithmetic works on.
#[derive(Debug, Clone, Copy, PartialEq, Eq, Structural)]
pub struct Dec {
    pub mantissa: i128,
    pub scale: u32,
}

/// Ten raised to a non-negative power.
pub open spec fn pow10(n: nat) -> int
    decreases n,
{
    if n == 0 {
        1
    } else {
        10 * pow10((n - 1) as nat)
    }
}

impl Dec {
    /// The representation the underlying decimal type admits: a
    /// mantissa within 96 bits and a scale of at most 28.
    pub open spec fn wf(self) -> bool {
        -0x1000000000000000000000000 < self.mantissa < 0x1000000000000000000000000
            && self.scale <= 28
    }

    /// Builds a decimal from its mantissa and scale, refusing a
    /// representation outside the admissible range.
    pub fn new(mantissa: i128, scale: u32) -> (r: Option<Dec>)
        ensures
            r matches Some(d) ==> d.wf() && d.mantissa == mantissa && d.scale == scale,
            r is None ==> !(Dec { mantissa, scale }.wf()),
    {
        if -0x1000000000000000000000000i128 < mantissa && mantissa < 0x1000000000000000000000000i128
            && scale <= 28 {
            Some(Dec { mantissa, scale })
        } else {
            None
        }
    }

    /// The decimal an integer promotes to.
    pub fn from_i64(v: i64) -> (r: Dec)
        ensures
            r.wf(),
            r.mantissa == v,
            r.scale == 0,
    {
        Dec { mantissa: v as i128, scale: 0 }
    }

    /// Whether the number is zero: a zero mantissa, whatever the scale.
    pub fn is_zero(&self) -> (r: bool)
        ensures
            r == (self.mantissa == 0),
    {
        self.mantissa == 0
    }

    /// Negation; exact, since the mantissa range is symmetric.
    pub fn neg(&self) -> (r: Dec)
        requires
            self.wf(),
        ensures
            r.wf(),
            r.mantissa == -self.mantissa,
            r.scale == self.scale,
    {
        Dec { mantissa: -self.mantissa, scale: self.scale }
    }
}

/// What the underlying decimal addition returns for the numbers
/// `m1/10^s1` and `m2/10^s2`, as mantissa and scale; `None` when the
/// sum does not fit the representation.
pub uninterp spec fn dec_add_of(m1: int, s1: int, m2: int, s2: int) -> Option<(int, int)>;

/// What the underlying decimal subtraction returns; `None` when the
/// difference does not fit.
pub uninterp spec fn dec_sub_of(m1: int, s1: int, m2: int, s2: int) -> Option<(int, int)>;

/// What the underlying decimal multiplication returns; `None` when the
/// product does not fit.
pub uninterp spec fn dec_mul_of(m1: int, s1: int, m2: int, s2: int) -> Option<(int, int)>;

/// What the underlying decimal division returns for a non-zero
/// divisor; `None` when the quotient does not fit.
pub uninterp spec fn dec_div_of(m1: int, s1: int, m2: int, s2: int) -> Option<(int, int)>;

/// What the underlying decimal remainder returns for a non-zero
/// divisor; `None` when it does not fit.
pub uninterp spec fn dec_rem_of(m1: int, s1: int, m2: int, s2: int) -> Option<(int, int)>;

/// Relies on rust_decimal: `Decimal::checked_add` adds two decimals
/// exactly, rounding to the representation's 28 significant digits
/// when needed, and returns `None` when the sum is out of range.
#[verifier::external_body]
pub fn dec_add(a: &Dec, b: &Dec) -> (r: Option<Dec>)
    requires
        a.wf(),
        b.wf(),
    ensures
        r matches Some(d) ==> d.wf() && dec_add_of(
            a.mantissa as int, a.scale as int, b.mantissa as int, b.scale as int,
        ) == Some((d.mantissa as int, d.scale as int)),
        r is None ==> dec_add_of(
            a.mantissa as int, a.scale as int, b.mantissa as int, b.scale as int,
        ) is None,
{
    let x = rust_decimal::Decimal::from_i128_with_scale(a.mantissa, a.scale);
    let y = rust_decimal::Decimal::from_i128_with_scale(b.mantissa, b.scale);
    x.checked_add(y).map(|d| Dec { mantissa: d.mantissa(), scale: d.scale() })
}

/// Relies on rust_decimal: `Decimal::checked_sub`, as `dec_add` for
/// the difference.
#[verifier::external_body]
pub fn dec_sub(a: &Dec, b: &Dec) -> (r: Option<Dec>)
    requires
        a.wf(),
        b.wf(),
    ensures
        r matches Some(d) ==> d.wf() && dec_sub_of(
            a.mantissa as int, a.scale as int, b.mantissa as int, b.scale as int,
        ) == Some((d.mantissa as int, d.scale as int)),
        r is None ==> dec_sub_of(
            a.mantissa as int, a.scale as int, b.mantissa as int, b.scale as int,
        ) is None,
{
    let x = rust_decimal::Decimal::from_i128_with_scale(a.mantissa, a.scale);
    let y = rust_decimal::Decimal::from_i128_with_scale(b.mantissa, b.scale);
    x.checked_sub(y).map(|d| Dec { mantissa: d.mantissa(), scale: d.scale() })
}

/// Relies on rust_decimal: `Decimal::checked_mul`, as `dec_add` for
/// the product.
#[verifier::external_body]
pub fn dec_mul(a: &Dec, b: &Dec) -> (r: Option<Dec>)
    requires
        a.wf(),
        b.wf(),
    ensures
        r matches Some(d) ==> d.wf() && dec_mul_of(
            a.mantissa as int, a.scale as int, b.mantissa as int, b.scale as int,
        ) == Some((d.mantissa as int, d.scale as int)),
        r is None ==> dec_mul_of(
            a.mantissa as int, a.scale as int, b.mantissa as int, b.scale as int,
        ) is None,
{
    let x = rust_decimal::Decimal::from_i128_with_scale(a.mantissa, a.scale);
    let y = rust_decimal::Decimal::from_i128_with_scale(b.mantissa, b.scale);
    x.checked_mul(y).map(|d| Dec { mantissa: d.mantissa(), scale: d.scale() })
}

/// Relies on rust_decimal: `Decimal::checked_div`, which rounds the
/// exact quotient to the representation; the zero divisor is left out
/// here, so `None` means only that the quotient is out of range.
#[verifier::external_body]
pub fn dec_div(a: &Dec, b: &Dec) -> (r: Option<Dec>)
    requires
        a.wf(),
        b.wf(),
        b.mantissa != 0,
    ensures
        r matches Some(d) ==> d.wf() && dec_div_of(
            a.mantissa as int, a.scale as int, b.mantissa as int, b.scale as int,
        ) == Some((d.mantissa as int, d.scale as int)),
        r is None ==> dec_div_of(
            a.mantissa as int, a.scale as int, b.mantissa as int, b.scale as int,
        ) is None,
{
    let x = rust_decimal::Decimal::from_i128_with_scale(a.mantissa, a.scale);
    let y = rust_decimal::Decimal::from_i128_with_scale(b.mantissa, b.scale);
    x.checked_div(y).map(|d| Dec { mantissa: d.mantissa(), scale: d.scale() })
}

/// Relies on rust_decimal: `Decimal::checked_rem` for a non-zero
/// divisor; `None` means the result is out of range.
#[verifier::external_body]
pub fn dec_rem(a: &Dec, b: &Dec) -> (r: Option<Dec>)
    requires
        a.wf(),
        b.wf(),
        b.mantissa != 0,
    ensures
        r matches Some(d) ==> d.wf() && dec_rem_of(
            a.mantissa as int, a.scale as int, b.mantissa as int, b.scale as int,
        ) == Some((d.mantissa as int, d.scale as int)),
        r is None ==> dec_rem_of(
            a.mantissa as int, a.scale as int, b.mantissa as int, b.scale as int,
        ) is None,
{
    let x = rust_decimal::Decimal::from_i128_with_scale(a.mantissa, a.scale);
    let y = rust_decimal::Decimal::from_i128_with_scale(b.mantissa, b.scale);
    x.checked_rem(y).map(|d| Dec { mantissa: d.mantissa(), scale: d.scale() })
}

/// Relies on rust_decimal: `Decimal::cmp` orders two decimals by
/// their exact values, that is by `m1 * 10^s2` against `m2 * 10^s1`.
#[verifier::external_body]
pub fn dec_cmp(a: &Dec, b: &Dec) -> (r: i8)
    requires
        a.wf(),
        b.wf(),
    ensures
        -1 <= r <= 1,
        (r == 0) <==> a.mantissa * pow10(b.scale as nat) == b.mantissa * pow10(a.scale as nat),
        (r == -1) <==> a.mantissa * pow10(b.scale as nat) < b.mantissa * pow10(a.scale as nat),
{
    let x = rust_decimal::Decimal::from_i128_with_scale(a.mantissa, a.scale);
    let y = rust_decimal::Decimal::from_i128_with_scale(b.mantissa, b.scale);
    match x.cmp(&y) {
        core::cmp::Ordering::Less => -1,
        core::cmp::Ordering::Equal => 0,
        core::cmp::Ordering::Greater => 1,
    }
}

} // verus!
