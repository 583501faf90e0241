//! Small general helpers: linear interpolation over the fixed-point
//! scale, and a family of unit-conversion traits used to collapse any
//! error into a unit-like one.

use vstd::arithmetic::div_mod::lemma_div_multiples_vanish;
use vstd::arithmetic::div_mod::lemma_div_nonincreasing;
use vstd::arithmetic::div_mod::lemma_div_pos_is_pos;
use vstd::prelude::*;

verus! {

/// Integer division rounding toward zero, the rounding the run-time
/// code uses.
pub open spec fn div_toward_zero(p: int, q: int) -> int
    recommends
        q > 0,
{
    if p >= 0 {
        p / q
    } else {
        -((-p) / q)
    }
}

/// Rounding toward zero never grows the magnitude of the dividend.
pub proof fn lemma_div_toward_zero_bounds(p: int, q: int)
    requires
        q >= 1,
    ensures
        p >= 0 ==> 0 <= div_toward_zero(p, q) <= p,
        p < 0 ==> p <= div_toward_zero(p, q) <= 0,
{
    if p >= 0 {
        lemma_div_pos_is_pos(p, q);
        lemma_div_nonincreasing(p, q);
    } else {
        lemma_div_pos_is_pos(-p, q);
        lemma_div_nonincreasing(-p, q);
    }
}

/// Exact division is unchanged by the rounding direction.
pub proof fn lemma_div_toward_zero_exact(a: int, q: int)
    requires
        q >= 1,
    ensures
        div_toward_zero(a * q, q) == a,
{
    assert(a * q == q * a) by (nonlinear_arith);
    if a >= 0 {
        lemma_div_multiples_vanish(a, q);
        assert((q * a) / q == a);
    } else {
        lemma_div_multiples_vanish(-a, q);
        assert(-(a * q) == q * (-a)) by (nonlinear_arith);
        assert((q * (-a)) / q == -a);
    }
}

/// Linear interpolation between `low` and `high` with the rational
/// factor `num / den`, rounded toward zero.  A factor outside `[0, 1]`
/// (`num` negative or above `den`) extrapolates on the same line; no
/// clamping is applied.
pub fn interpolate(low: i64, high: i64, num: i64, den: i64) -> (r: i64)
    requires
        den > 0,
        i64::MIN < high - low < i64::MAX,
        i64::MIN < (high - low) * num < i64::MAX,
        i64::MIN <= low + div_toward_zero((high - low) * num, den as int) <= i64::MAX,
    ensures
        r == low + div_toward_zero((high - low) * num, den as int),
{
    let diff = high - low;
    let p = diff * num;
    proof {
        lemma_div_toward_zero_bounds(p as int, den as int);
    }
    let step: i64 = if p >= 0 {
        let u: u64 = (p as u64) / (den as u64);
        u as i64
    } else {
        let u: u64 = ((-p) as u64) / (den as u64);
        -(u as i64)
    };
    low + step
}

/// Anything can be dropped down to the unit value.
pub trait Sink {
    fn sink(self) -> ();
}

impl<T> Sink for T {
    fn sink(self) -> () {
        ()
    }
}

/// Types with a canonical, argument-free constructor.
pub trait UnitType: Sized {
    fn unit_create() -> Self;
}

/// The unit value can spring up into any `UnitType`.
pub trait Spring<T> {
    fn spring(self) -> T;
}

impl<T: UnitType> Spring<T> for () {
    fn spring(self) -> T {
        T::unit_create()
    }
}

/// Composition of `Sink` and `Spring`: turns any value into the
/// canonical value of a `UnitType`.
pub trait UnitMap<U: UnitType> where Self: Sink {
    fn unit_map(self) -> U;
}

impl<T: Sink, U: UnitType> UnitMap<U> for T {
    fn unit_map(self) -> U {
        self.sink().spring()
    }
}

} // verus!
