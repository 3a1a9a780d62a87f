//! The scalar type shared by the matrix algebra, and small numeric helpers.
//!
//! Scalars are exact fixed-point numbers: a value is stored as a whole
//! number of thousandths (millis), so `1.5` is held as `1500`.  All
//! arithmetic on scalars in this crate is exact; contracts state results
//! over the stored millis.

use vstd::arithmetic::div_mod::lemma_fundamental_div_mod;
use vstd::arithmetic::div_mod::lemma_fundamental_div_mod_converse;
use vstd::prelude::*;

verus! {

/// Number of stored units per whole unit: scalars hold thousandths.
pub const SCALE: i64 = 1000;

/// A fixed-point scalar holding an exact number of thousandths.
#[derive(Debug, Clone, Copy, PartialEq, Eq, Structural)]
pub struct Scalar {
    pub millis: i64,
}

impl Scalar {
    /// The scalar for a whole number.
    pub fn from_int(i: i64) -> (s: Scalar)
        requires
            i64::MIN <= i * SCALE <= i64::MAX,
        ensures
            s.millis == i * SCALE,
    {
        Scalar { millis: i * SCALE }
    }

    /// The scalar holding exactly `m` thousandths.
    pub fn from_millis(m: i64) -> (s: Scalar)
        ensures
            s.millis == m,
    {
        Scalar { millis: m }
    }

    /// True when the scalar holds a whole number; the runtime check for
    /// the integrality that the exact determinant and product require.
    pub fn is_whole(&self) -> (b: bool)
        ensures
            b == (self.millis % SCALE == 0),
    {
        self.millis % SCALE == 0
    }
}

/// Exact division: the quotient of `a` by a positive divisor that divides it.
pub(crate) fn div_exact(a: i64, b: i64) -> (q: i64)
    requires
        b > 0,
        a % b == 0,
        a > i64::MIN,
    ensures
        q == a as int / b as int,
        q * b == a,
{
    let q = a / b;
    proof {
        let ai = a as int;
        let bi = b as int;
        lemma_fundamental_div_mod(ai, bi);
        let k = ai / bi;
        assert(ai == bi * k);
        if a < 0 {
            assert(bi * (-k) == -(bi * k)) by (nonlinear_arith);
            assert(-ai == bi * (-k));
            lemma_fundamental_div_mod_converse(-ai, bi, -k, 0);
            assert((-ai) / bi == -k);
        }
        assert(q == k);
        assert(k * bi == bi * k) by (nonlinear_arith);
        assert(q * bi == ai);
    }
    q
}

/// True when `n` is odd; used to pick the sign of a cofactor.
pub fn is_odd(n: usize) -> (r: bool)
    ensures
        r == (n % 2 != 0),
{
    if n == 0 {
        false
    } else {
        n % 2 != 0
    }
}

} // verus!
