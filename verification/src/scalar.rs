//! Fixed-point scalars.
//!
//! Every coordinate and every scalar measure (area, length, distance) is a
//! signed count of thousandths: the value `2.5` is stored as `2500` units.
//! Exact integer arithmetic on units is what makes the measures of this
//! engine provable; where a measure involves a square root, the result is
//! the floor of the exact root, stated by [`sqrt_floor`].

use vstd::prelude::*;

verus! {

/// Units per whole number: scalars count thousandths.
pub const SCALE: i64 = 1000;

/// A fixed-point scalar: `units` thousandths.
#[derive(Clone, Copy, Debug, PartialEq, Eq, PartialOrd, Ord, Structural)]
pub struct Scalar {
    pub units: i64,
}

impl Scalar {
    /// The scalar worth `units` thousandths.
    pub fn from_units(units: i64) -> (r: Scalar)
        ensures
            r.units == units,
    {
        Scalar { units }
    }

    /// The number of thousandths this scalar holds.
    pub fn units(&self) -> (r: i64)
        ensures
            r == self.units,
    {
        self.units
    }
}

/// Floor of the square root of a natural number, defined recursively.
pub open spec fn sqrt_floor(n: nat) -> nat
    decreases n,
{
    if n == 0 {
        0
    } else {
        let p = sqrt_floor((n - 1) as nat);
        if (p + 1) * (p + 1) <= n {
            p + 1
        } else {
            p
        }
    }
}

/// `sqrt_floor(n)` is the unique `r` with `r * r <= n < (r + 1) * (r + 1)`.
pub proof fn lemma_sqrt_floor_bounds(n: nat)
    ensures
        sqrt_floor(n) * sqrt_floor(n) <= n,
        n < (sqrt_floor(n) + 1) * (sqrt_floor(n) + 1),
    decreases n,
{
    if n == 0 {
        assert(n < (sqrt_floor(n) + 1) * (sqrt_floor(n) + 1)) by (nonlinear_arith)
            requires
                n == 0,
                sqrt_floor(n) == 0,
        ;
    } else {
        lemma_sqrt_floor_bounds((n - 1) as nat);
        let p = sqrt_floor((n - 1) as nat);
        assert(sqrt_floor(n) == if (p + 1) * (p + 1) <= n {
            p + 1
        } else {
            p
        });
        if (p + 1) * (p + 1) <= n {
            assert(sqrt_floor(n) == p + 1);
            assert(n < (sqrt_floor(n) + 1) * (sqrt_floor(n) + 1)) by (nonlinear_arith)
                requires
                    sqrt_floor(n) == p + 1,
                    n == (p + 1) * (p + 1),
            ;
        } else {
            assert(sqrt_floor(n) == p);
        }
    }
}

/// Any `r` within the square-root bracket of `n` is `sqrt_floor(n)`.
pub proof fn lemma_sqrt_floor_unique(n: nat, r: nat)
    requires
        r * r <= n,
        n < (r + 1) * (r + 1),
    ensures
        r == sqrt_floor(n),
{
    lemma_sqrt_floor_bounds(n);
    let s = sqrt_floor(n);
    if r < s {
        assert((r + 1) * (r + 1) <= s * s) by (nonlinear_arith)
            requires
                r + 1 <= s,
        ;
    }
    if s < r {
        assert((s + 1) * (s + 1) <= r * r) by (nonlinear_arith)
            requires
                s + 1 <= r,
        ;
    }
}

/// Floor of the square root, computed by bisection.
///
/// The bound on `n` keeps the bisection midpoints within `u128` when
/// squared; every value this crate takes a root of is far below it.
pub fn isqrt(n: u128) -> (r: u64)
    requires
        n < 0x1_0000_0000_0000_0000_0000_0000_0000,  // 2^112
    ensures
        r == sqrt_floor(n as nat),
{
    let mut lo: u128 = 0;
    let mut hi: u128 = 0x1_0000_0000_0000_0000_0000_0000_0000u128;
    // invariant: lo * lo <= n < hi * hi, found root is in [lo, hi)
    proof {
        assert((0x1_0000_0000_0000_0000_0000_0000_0000u128 as nat)
            * (0x1_0000_0000_0000_0000_0000_0000_0000u128 as nat) > n as nat) by (nonlinear_arith)
            requires
                n < 0x1_0000_0000_0000_0000_0000_0000_0000,
        ;
    }
    while hi - lo > 1
        invariant
            lo < hi,
            n < 0x1_0000_0000_0000_0000_0000_0000_0000,
            hi <= 0x1_0000_0000_0000_0000_0000_0000_0000,
            (lo as nat) * (lo as nat) <= n as nat,
            (n as nat) < (hi as nat) * (hi as nat),
        decreases hi - lo,
    {
        let mid: u128 = lo + (hi - lo) / 2;
        if mid <= n / mid {
            proof {
                assert((mid as nat) * (mid as nat) <= n as nat) by (nonlinear_arith)
                    requires
                        mid > 0,
                        mid as nat <= (n as nat) / (mid as nat),
                ;
            }
            lo = mid;
        } else {
            proof {
                assert((n as nat) < (mid as nat) * (mid as nat)) by (nonlinear_arith)
                    requires
                        mid > 0,
                        (n as nat) / (mid as nat) < mid as nat,
                ;
            }
            hi = mid;
        }
    }
    proof {
        lemma_sqrt_floor_unique(n as nat, lo as nat);
        assert(lo < 0x1_0000_0000_0000_0000u128) by (nonlinear_arith)
            requires
                (lo as nat) * (lo as nat) <= n as nat,
                n < 0x1_0000_0000_0000_0000_0000_0000_0000,
        ;
    }
    lo as u64
}

} // verus!
