//! Scalar one-dimensional Kalman filter over fixed-point numbers.
//!
//! Noise parameters and the running estimate are held scaled by `FP_ONE`
//! (sixteen fractional bits).  On each measurement `z` the classic update
//! runs: `p <- p + q; k <- p / (p + r); x <- x + k * (z - x); p <- (1 - k) * p`,
//! with the gain `k` kept as the exact rational `(p + q) / (p + q + r)` and a
//! single flooring division per updated quantity.

use vstd::arithmetic::div_mod::{lemma_div_multiples_vanish, lemma_multiply_divide_le};
use vstd::arithmetic::mul::{lemma_mul_inequality, lemma_mul_upper_bound};
use vstd::prelude::*;

verus! {

/// The fixed-point unit: values are stored multiplied by this.
pub const FP_ONE: u64 = 0x10000;

/// Largest accepted noise/covariance parameter, in whole units.
pub const MAX_PARAM: u64 = 0x10_0000;

pub struct Kalman {
    /// Process noise, scaled by `FP_ONE`.
    pub q: u64,
    /// Measurement noise, scaled by `FP_ONE`.
    pub r: u64,
    /// Estimate covariance, scaled by `FP_ONE`.
    pub p: u64,
    /// Running estimate, scaled by `FP_ONE`.
    pub x: u128,
    /// False until the first measurement has been processed.
    pub initialized: bool,
}

/// Numerator of the Kalman gain after the covariance grew by `q`.
pub open spec fn spec_gain_num(k: Kalman) -> int {
    k.p + k.q
}

/// Denominator of the Kalman gain.
pub open spec fn spec_gain_den(k: Kalman) -> int {
    k.p + k.q + k.r
}

/// The estimate after one measurement `z`, for an initialized filter.
pub open spec fn spec_next_x(k: Kalman, z: u64) -> int {
    let zf = z * FP_ONE;
    if zf >= k.x {
        k.x + (zf - k.x) * spec_gain_num(k) / spec_gain_den(k)
    } else {
        k.x - (k.x - zf) * spec_gain_num(k) / spec_gain_den(k)
    }
}

/// The covariance after one measurement, for an initialized filter.
pub open spec fn spec_next_p(k: Kalman) -> int {
    k.r * spec_gain_num(k) / spec_gain_den(k)
}

impl Kalman {
    pub open spec fn wf(self) -> bool {
        &&& self.q <= MAX_PARAM * FP_ONE
        &&& FP_ONE <= self.r <= MAX_PARAM * FP_ONE
        &&& self.p <= MAX_PARAM * FP_ONE
        &&& self.x <= (u64::MAX as u128) * (FP_ONE as u128)
    }

    /// A fresh filter; the parameters are given in whole units and the
    /// measurement noise must be positive.
    pub fn new(q: u64, r: u64, p: u64) -> (k: Kalman)
        requires
            q <= MAX_PARAM,
            1 <= r <= MAX_PARAM,
            p <= MAX_PARAM,
        ensures
            k.q == q * FP_ONE,
            k.r == r * FP_ONE,
            k.p == p * FP_ONE,
            k.x == 0,
            !k.initialized,
            k.wf(),
    {
        Kalman { q: q * FP_ONE, r: r * FP_ONE, p: p * FP_ONE, x: 0, initialized: false }
    }

    pub fn initialized(&self) -> (r: bool)
        ensures
            r == self.initialized,
    {
        self.initialized
    }

    /// Process one measurement and return the updated estimate, truncated to
    /// whole units.  The first measurement only seeds the estimate.
    pub fn process(&mut self, z: u64) -> (res: u64)
        requires
            old(self).wf(),
        ensures
            final(self).wf(),
            final(self).initialized,
            final(self).q == old(self).q,
            final(self).r == old(self).r,
            !old(self).initialized ==> {
                &&& final(self).x == z * FP_ONE
                &&& final(self).p == old(self).p
                &&& res == z
            },
            old(self).initialized ==> {
                &&& final(self).x == spec_next_x(*old(self), z)
                &&& final(self).p == spec_next_p(*old(self))
            },
            res == final(self).x / (FP_ONE as u128),
    {
        let fp: u128 = FP_ONE as u128;
        if !self.initialized {
            self.x = (z as u128) * fp;
            self.initialized = true;
            proof {
                lemma_div_multiples_vanish(z as int, FP_ONE as int);
                assert((FP_ONE as int) * (z as int) == (z as int) * (FP_ONE as int));
            }
            return z;
        }
        let num: u64 = self.p + self.q;
        let den: u64 = num + self.r;
        let zf: u128 = (z as u128) * fp;
        let diff: u128 = if zf >= self.x {
            zf - self.x
        } else {
            self.x - zf
        };
        proof {
            lemma_mul_inequality(z as int, u64::MAX as int, FP_ONE as int);
            assert(diff <= 0xFFFF_FFFF_FFFF_FFFF_0000);
            lemma_mul_upper_bound(diff as int, 0xFFFF_FFFF_FFFF_FFFF_0000, num as int,
                0x40_0000_0000);
            lemma_mul_div_le(diff as int, num as int, den as int);
        }
        if zf >= self.x {
            self.x = self.x + (diff * (num as u128)) / (den as u128);
        } else {
            self.x = self.x - (diff * (num as u128)) / (den as u128);
        }
        proof {
            lemma_mul_upper_bound(self.r as int, 0x40_0000_0000, num as int, 0x40_0000_0000);
            lemma_mul_div_le(self.r as int, num as int, den as int);
        }
        self.p = (((self.r as u128) * (num as u128)) / (den as u128)) as u64;
        proof {
            lemma_multiply_divide_le(self.x as int, FP_ONE as int, u64::MAX as int);
            assert((FP_ONE as int) * (u64::MAX as int) == (u64::MAX as int) * (FP_ONE as int));
        }
        (self.x / fp) as u64
    }
}

/// A quotient `a * b / c` with `b <= c` never exceeds `a`.
proof fn lemma_mul_div_le(a: int, b: int, c: int)
    requires
        0 <= a,
        0 <= b <= c,
        0 < c,
    ensures
        a * b / c <= a,
{
    lemma_mul_inequality(b, c, a);
    assert(b * a == a * b);
    assert(c * a == a * c);
    lemma_multiply_divide_le(a * b, c, a);
}

} // verus!
