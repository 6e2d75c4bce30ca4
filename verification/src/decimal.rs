//! Fixed-point decimal numbers as exchanges quote them: a mantissa of at most
//! 96 bits and a scale between 0 and 28, the number being
//! `mantissa / 10^scale`. Comparison and subtraction are those of
//! `rust_decimal`.
use std::cmp::Ordering;
use vstd::prelude::*;
use vstd::std_specs::cmp::PartialEqSpecImpl;

verus! {

/// The largest magnitude of a mantissa: `2^96 - 1`.
pub const MAX_MANTISSA: i128 = 79228162514264337593543950335;

/// The largest scale, that is the largest number of digits after the point.
pub const MAX_SCALE: u32 = 28;

/// `10^n`.
pub open spec fn pow10(n: nat) -> int
    decreases n,
{
    if n == 0 {
        1
    } else {
        10 * pow10((n - 1) as nat)
    }
}

/// A number `x`, in units of `10^-28`, rounds to a decimal of rust_decimal's
/// range: it lies less than half a unit beyond the largest magnitude
/// `2^96 - 1`. (At exactly half a unit beyond, rounding to even leaves the
/// range.)
pub open spec fn rounds_into_range(x: int) -> bool {
    -(2 * MAX_MANTISSA + 1) * pow10(MAX_SCALE as nat) < 2 * x < (2 * MAX_MANTISSA + 1) * pow10(
        MAX_SCALE as nat,
    )
}

/// `x` rounded to a whole number of `unit`s, half to even.
pub open spec fn round_half_even(x: int, unit: int) -> int {
    let q = x / unit;
    let rest = x % unit;
    if 2 * rest < unit {
        q * unit
    } else if 2 * rest > unit {
        (q + 1) * unit
    } else if q % 2 == 0 {
        q * unit
    } else {
        (q + 1) * unit
    }
}

/// The unit of a decimal of scale `scale`, in units of `10^-28`.
pub open spec fn unit_of_scale(scale: int) -> int {
    pow10((MAX_SCALE - scale) as nat)
}

/// The larger of the two scales.
pub open spec fn larger_scale(a: Dec, b: Dec) -> int {
    if a.spec_scale() >= b.spec_scale() {
        a.spec_scale()
    } else {
        b.spec_scale()
    }
}

/// `a - b` is a decimal of the larger of the two scales (its mantissa fits
/// in 96 bits), so that it needs no rounding.
pub open spec fn difference_is_exact(a: Dec, b: Dec) -> bool {
    let unit = pow10((MAX_SCALE - larger_scale(a, b)) as nat);
    -MAX_MANTISSA * unit <= a@ - b@ <= MAX_MANTISSA * unit
}

/// The name for what `rust_decimal::Decimal::checked_sub` gives for the
/// decimals `a_mantissa / 10^a_scale` and `b_mantissa / 10^b_scale`: the
/// mantissa and scale of the difference, or `None` when it overflows.
pub uninterp spec fn decimal_checked_sub(
    a_mantissa: int,
    a_scale: int,
    b_mantissa: int,
    b_scale: int,
) -> Option<(int, int)>;

/// A decimal number `mantissa / 10^scale`.
#[derive(Debug, Clone, Copy)]
pub struct Dec {
    mantissa: i128,
    scale: u32,
}

impl Dec {
    #[verifier::type_invariant]
    spec fn well_formed(self) -> bool {
        &&& -MAX_MANTISSA <= self.mantissa <= MAX_MANTISSA
        &&& self.scale <= MAX_SCALE
    }

    /// The mantissa.
    pub closed spec fn spec_mantissa(self) -> int {
        self.mantissa as int
    }

    /// The scale.
    pub closed spec fn spec_scale(self) -> int {
        self.scale as int
    }

    /// The mantissa and the scale, as plain integers.
    pub open spec fn parts(self) -> (int, int) {
        (self.spec_mantissa(), self.spec_scale())
    }

    /// The decimal `mantissa / 10^scale`, when the mantissa fits in 96 bits
    /// and the scale is at most 28.
    pub fn from_parts(mantissa: i128, scale: u32) -> (r: Option<Dec>)
        ensures
            r is Some <==> (-MAX_MANTISSA <= mantissa <= MAX_MANTISSA && scale <= MAX_SCALE),
            r matches Some(d) ==> d.parts() == (mantissa as int, scale as int),
    {
        if -MAX_MANTISSA <= mantissa && mantissa <= MAX_MANTISSA && scale <= MAX_SCALE {
            Some(Dec { mantissa, scale })
        } else {
            None
        }
    }

    /// Zero, with scale 0.
    pub fn zero() -> (r: Dec)
        ensures
            r.parts() == (0int, 0int),
            r@ == 0,
    {
        let r = Dec { mantissa: 0, scale: 0 };
        assert(r.spec_mantissa() == 0);
        assert(r@ == 0) by (nonlinear_arith)
            requires
                r@ == r.spec_mantissa() * pow10((MAX_SCALE - r.spec_scale()) as nat),
                r.spec_mantissa() == 0,
        ;
        r
    }

    /// The mantissa.
    pub fn mantissa(&self) -> (r: i128)
        ensures
            r == self.spec_mantissa(),
    {
        self.mantissa
    }

    /// The scale.
    pub fn scale(&self) -> (r: u32)
        ensures
            r == self.spec_scale(),
    {
        self.scale
    }

    /// Compares the numbers that two decimals denote, whatever their scales.
    pub fn compare(&self, other: &Dec) -> (r: Ordering)
        ensures
            (r == Ordering::Less) == (self@ < other@),
            (r == Ordering::Equal) == (self@ == other@),
            (r == Ordering::Greater) == (self@ > other@),
    {
        proof {
            use_type_invariant(self);
            use_type_invariant(other);
        }
        decimal_order(self, other)
    }

    /// `self - other`, or `None` where `rust_decimal` reports an overflow.
    pub fn checked_sub(&self, other: &Dec) -> (r: Option<Dec>)
        ensures
            r matches Some(d) ==> decimal_checked_sub(
                self.spec_mantissa(),
                self.spec_scale(),
                other.spec_mantissa(),
                other.spec_scale(),
            ) == Some(d.parts()),
            r is None ==> decimal_checked_sub(
                self.spec_mantissa(),
                self.spec_scale(),
                other.spec_mantissa(),
                other.spec_scale(),
            ) is None,
            (r is Some) == rounds_into_range(self@ - other@),
            r matches Some(d) ==> (difference_is_exact(*self, *other) ==> d@ == self@ - other@),
            r matches Some(d) ==> d.spec_scale() <= larger_scale(*self, *other) && d@ == round_half_even(
                self@ - other@,
                unit_of_scale(d.spec_scale()),
            ),
    {
        proof {
            use_type_invariant(self);
            use_type_invariant(other);
        }
        decimal_difference(self, other)
    }
}

impl View for Dec {
    /// The number in units of `10^-28`: every decimal is a whole number of them.
    type V = int;

    open spec fn view(&self) -> int {
        self.spec_mantissa() * pow10((MAX_SCALE - self.spec_scale()) as nat)
    }
}

/// Two decimals are equal when they denote the same number, as with
/// `rust_decimal`: `1.0 == 1.00`.
impl PartialEq for Dec {
    fn eq(&self, other: &Dec) -> (r: bool) {
        match self.compare(other) {
            Ordering::Equal => true,
            _ => false,
        }
    }
}

impl PartialEqSpecImpl for Dec {
    open spec fn obeys_eq_spec() -> bool {
        true
    }

    open spec fn eq_spec(&self, other: &Dec) -> bool {
        self@ == other@
    }
}

impl Eq for Dec {
}

/// `rust_decimal::Decimal::cmp` on the two decimals: rust_decimal orders
/// decimals by the numbers they denote, whatever their scales.
#[verifier::external_body]
fn decimal_order(a: &Dec, b: &Dec) -> (r: Ordering)
    requires
        a.well_formed(),
        b.well_formed(),
    ensures
        (r == Ordering::Less) == (a@ < b@),
        (r == Ordering::Equal) == (a@ == b@),
        (r == Ordering::Greater) == (a@ > b@),
{
    let x = rust_decimal::Decimal::from_i128_with_scale(a.mantissa, a.scale);
    let y = rust_decimal::Decimal::from_i128_with_scale(b.mantissa, b.scale);
    x.cmp(&y)
}

/// `rust_decimal::Decimal::checked_sub` on the two decimals. Its result is
/// named by `decimal_checked_sub`; a result is a decimal of rust_decimal's
/// range (96-bit mantissa, scale at most 28). rust_decimal computes the
/// difference exactly and rounds it, half to even, to the largest scale at
/// which its mantissa fits in 96 bits: so there is a result exactly where the
/// difference rounds into the range, and it is the difference itself where
/// that fits at the larger of the two scales. The scale of a result is at
/// most the larger of the two, and the result is the difference rounded half
/// to even to its scale; which scale that is where the difference does not
/// fit is left to the name.
#[verifier::external_body]
fn decimal_difference(a: &Dec, b: &Dec) -> (r: Option<Dec>)
    requires
        a.well_formed(),
        b.well_formed(),
    ensures
        r matches Some(d) ==> d.well_formed() && decimal_checked_sub(
            a.spec_mantissa(),
            a.spec_scale(),
            b.spec_mantissa(),
            b.spec_scale(),
        ) == Some(d.parts()),
        r is None ==> decimal_checked_sub(
            a.spec_mantissa(),
            a.spec_scale(),
            b.spec_mantissa(),
            b.spec_scale(),
        ) is None,
        (r is Some) == rounds_into_range(a@ - b@),
        r matches Some(d) ==> (difference_is_exact(*a, *b) ==> d@ == a@ - b@),
        r matches Some(d) ==> d.spec_scale() <= larger_scale(*a, *b) && d@ == round_half_even(
            a@ - b@,
            unit_of_scale(d.spec_scale()),
        ),
{
    let x = rust_decimal::Decimal::from_i128_with_scale(a.mantissa, a.scale);
    let y = rust_decimal::Decimal::from_i128_with_scale(b.mantissa, b.scale);
    match x.checked_sub(y) {
        Some(d) => Some(Dec { mantissa: d.mantissa(), scale: d.scale() }),
        None => None,
    }
}

} // verus!
