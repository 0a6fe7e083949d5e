use vstd::prelude::*;

verus! {

/// An exact fraction `num / den`, the result type for averages and
/// relative price changes.
///
/// A fraction with a zero denominator stands for a non-finite result,
/// such as the relative change of a series whose first price is zero.
/// Callers must check `is_finite` before treating the value as a number.
#[derive(Clone, Copy, Debug, PartialEq, Eq, Structural)]
pub struct Frac {
    pub num: i128,
    pub den: i128,
}

/// `a < b` as rational numbers; meaningful when both denominators are positive.
pub open spec fn frac_lt(a: Frac, b: Frac) -> bool
    recommends
        a.den > 0,
        b.den > 0,
{
    a.num * b.den < b.num * a.den
}

impl Frac {
    /// A fraction is finite exactly when its denominator is nonzero.
    pub open spec fn spec_is_finite(self) -> bool {
        self.den != 0
    }

    /// True when the fraction stands for an actual number rather than a
    /// non-finite result of a division by zero.
    pub fn is_finite(&self) -> (r: bool)
        ensures
            r == self.spec_is_finite(),
    {
        self.den != 0
    }

    /// True when the fraction's value is exactly the integer `k`.
    pub fn eq_int(&self, k: i64) -> (r: bool)
        requires
            self.den != 0,
        ensures
            r <==> self.num as int == (k as int) * (self.den as int),
    {
        match (k as i128).checked_mul(self.den) {
            Some(p) => p == self.num,
            None => false,
        }
    }
}

} // verus!
