//! Inverse-distance-weighted interpolation over the learned entries.
//!
//! The prediction for a query point `(lux, luma)` averages the entries'
//! brightness values, each weighted by the reciprocal of its Euclidean
//! distance to the query in the `(lux, luma)` plane.  Distances are integer
//! square roots; the reciprocals are carried in fixed point, normalised by
//! the smallest distance so that the nearest entry always keeps full weight.
//! An entry at distance zero is an exact hit and decides the prediction by
//! itself.

use super::data::Entry;
use vstd::arithmetic::div_mod::{
    lemma_div_is_ordered, lemma_div_multiples_vanish, lemma_div_pos_is_pos,
    lemma_multiply_divide_le,
};
use vstd::arithmetic::mul::{
    lemma_mul_inequality, lemma_mul_is_commutative, lemma_mul_is_distributive_add,
    lemma_mul_nonnegative, lemma_mul_upper_bound,
};
use vstd::prelude::*;

verus! {

/// Fixed-point unit for the reciprocal weights.
pub const INV_SCALE: u64 = 0x1_0000_0000;

/// Integer square root: the largest `r` with `r * r <= n`.
pub open spec fn spec_isqrt(n: int) -> int
    recommends
        n >= 0,
    decreases n,
{
    if n <= 0 {
        0
    } else {
        let p = spec_isqrt(n - 1);
        if (p + 1) * (p + 1) <= n {
            p + 1
        } else {
            p
        }
    }
}

pub proof fn lemma_isqrt_bounds(n: int)
    requires
        n >= 0,
    ensures
        spec_isqrt(n) >= 0,
        spec_isqrt(n) * spec_isqrt(n) <= n,
        n < (spec_isqrt(n) + 1) * (spec_isqrt(n) + 1),
    decreases n,
{
    if n == 0 {
        assert(spec_isqrt(0) == 0);
    } else {
        lemma_isqrt_bounds(n - 1);
        let p = spec_isqrt(n - 1);
        if (p + 1) * (p + 1) <= n {
            assert(n <= (p + 1) * (p + 1)) by {
                assert(n - 1 < (p + 1) * (p + 1));
            }
            assert((p + 1) * (p + 1) < (p + 2) * (p + 2)) by (nonlinear_arith)
                requires
                    p >= 0,
            ;
        }
    }
}

/// A positive number has a positive integer square root.
pub proof fn lemma_isqrt_pos(n: int)
    requires
        n >= 1,
    ensures
        spec_isqrt(n) >= 1,
{
    lemma_isqrt_bounds(n);
    let r = spec_isqrt(n);
    if r == 0 {
        assert((r + 1) * (r + 1) == 1) by (nonlinear_arith)
            requires
                r == 0,
        ;
    }
}

/// Any `r` with `r * r <= n < (r + 1) * (r + 1)` is the integer square root.
pub proof fn lemma_isqrt_unique(n: int, r: int)
    requires
        n >= 0,
        r >= 0,
        r * r <= n,
        n < (r + 1) * (r + 1),
    ensures
        r == spec_isqrt(n),
{
    lemma_isqrt_bounds(n);
    let s = spec_isqrt(n);
    if r < s {
        assert((r + 1) * (r + 1) <= s * s) by (nonlinear_arith)
            requires
                0 <= r,
                r + 1 <= s,
        ;
    }
    if s < r {
        assert((s + 1) * (s + 1) <= r * r) by (nonlinear_arith)
            requires
                0 <= s,
                s + 1 <= r,
        ;
    }
}

/// Executable integer square root of a `u128`, by bisection.
pub fn isqrt(n: u128) -> (r: u64)
    ensures
        r == spec_isqrt(n as int),
{
    let mut lo: u128 = 0;
    let mut hi: u128 = 0x1_0000_0000_0000_0000;
    proof {
        assert((0x1_0000_0000_0000_0000 as int) * (0x1_0000_0000_0000_0000 as int) > n as int);
    }
    while lo + 1 < hi
        invariant
            0 <= lo < hi <= 0x1_0000_0000_0000_0000,
            (lo as int) * (lo as int) <= n as int,
            (n as int) < (hi as int) * (hi as int),
        decreases hi - lo,
    {
        let mid: u128 = lo + (hi - lo) / 2;
        proof {
            lemma_mul_upper_bound(mid as int, 0xFFFF_FFFF_FFFF_FFFF, mid as int,
                0xFFFF_FFFF_FFFF_FFFF);
        }
        if mid * mid <= n {
            lo = mid;
        } else {
            hi = mid;
        }
    }
    proof {
        lemma_isqrt_unique(n as int, lo as int);
    }
    lo as u64
}

/// Luma with an unobserved value counting as zero.
pub open spec fn spec_luma0(l: Option<u8>) -> int {
    match l {
        Option::Some(v) => v as int,
        Option::None => 0,
    }
}

pub open spec fn spec_abs_diff(a: int, b: int) -> int {
    if a >= b {
        a - b
    } else {
        b - a
    }
}

/// Squared Euclidean distance between an entry and a query point.
pub open spec fn spec_dist_sq(e: Entry, lux: u64, luma: Option<u8>) -> int {
    let dl = spec_abs_diff(lux as int, e.lux as int);
    let dm = spec_abs_diff(spec_luma0(luma), spec_luma0(e.luma));
    dl * dl + dm * dm
}

/// Distance between an entry and a query point.
pub open spec fn spec_dist(e: Entry, lux: u64, luma: Option<u8>) -> int {
    spec_isqrt(spec_dist_sq(e, lux, luma))
}

/// Whether some entry sits exactly on the query point.
pub open spec fn spec_has_hit(s: Seq<Entry>, lux: u64, luma: Option<u8>) -> bool {
    exists|j: int| 0 <= j < s.len() && spec_dist_sq(#[trigger] s[j], lux, luma) == 0
}

/// Index of the first entry sitting exactly on the query point
/// (`s.len()` when there is none).
pub open spec fn spec_first_hit(s: Seq<Entry>, lux: u64, luma: Option<u8>) -> int
    decreases s.len(),
{
    if s.len() == 0 {
        0
    } else if spec_dist_sq(s[0], lux, luma) == 0 {
        0
    } else {
        1 + spec_first_hit(s.drop_first(), lux, luma)
    }
}

pub proof fn lemma_first_hit_at(s: Seq<Entry>, lux: u64, luma: Option<u8>, i: int)
    requires
        0 <= i < s.len(),
        spec_dist_sq(s[i], lux, luma) == 0,
        forall|j: int| 0 <= j < i ==> spec_dist_sq(#[trigger] s[j], lux, luma) != 0,
    ensures
        spec_has_hit(s, lux, luma),
        spec_first_hit(s, lux, luma) == i,
    decreases i,
{
    if i == 0 {
    } else {
        let t = s.drop_first();
        assert(forall|j: int| 0 <= j < t.len() ==> #[trigger] t[j] == s[j + 1]);
        lemma_first_hit_at(t, lux, luma, i - 1);
    }
}

/// Fixed-point reciprocal weight of one entry, normalised by the smallest
/// distance `dmin`.
pub open spec fn spec_weight(e: Entry, lux: u64, luma: Option<u8>, dmin: int) -> int {
    dmin * INV_SCALE / spec_dist(e, lux, luma)
}

/// Smallest distance of any entry to the query point.
pub open spec fn spec_min_dist(s: Seq<Entry>, lux: u64, luma: Option<u8>) -> int
    recommends
        s.len() >= 1,
    decreases s.len(),
{
    if s.len() <= 1 {
        spec_dist(s[0], lux, luma)
    } else {
        let rest = spec_min_dist(s.drop_last(), lux, luma);
        let last = spec_dist(s.last(), lux, luma);
        if last < rest {
            last
        } else {
            rest
        }
    }
}

/// Sum of the weights.
pub open spec fn spec_wsum(s: Seq<Entry>, lux: u64, luma: Option<u8>, dmin: int) -> int
    decreases s.len(),
{
    if s.len() == 0 {
        0
    } else {
        spec_wsum(s.drop_last(), lux, luma, dmin) + spec_weight(s.last(), lux, luma, dmin)
    }
}

/// Sum of brightness times weight.
pub open spec fn spec_bwsum(s: Seq<Entry>, lux: u64, luma: Option<u8>, dmin: int) -> int
    decreases s.len(),
{
    if s.len() == 0 {
        0
    } else {
        spec_bwsum(s.drop_last(), lux, luma, dmin) + s.last().brightness * spec_weight(
            s.last(),
            lux,
            luma,
            dmin,
        )
    }
}

/// The smallest brightness of any entry.
pub open spec fn spec_min_brightness(s: Seq<Entry>) -> int
    recommends
        s.len() >= 1,
    decreases s.len(),
{
    if s.len() <= 1 {
        s[0].brightness as int
    } else {
        let rest = spec_min_brightness(s.drop_last());
        let last = s.last().brightness as int;
        if last < rest {
            last
        } else {
            rest
        }
    }
}

/// The greatest brightness of any entry.
pub open spec fn spec_max_brightness(s: Seq<Entry>) -> int
    recommends
        s.len() >= 1,
    decreases s.len(),
{
    if s.len() <= 1 {
        s[0].brightness as int
    } else {
        let rest = spec_max_brightness(s.drop_last());
        let last = s.last().brightness as int;
        if last > rest {
            last
        } else {
            rest
        }
    }
}

proof fn lemma_brightness_range_element(s: Seq<Entry>, i: int)
    requires
        0 <= i < s.len(),
    ensures
        spec_min_brightness(s) <= s[i].brightness as int <= spec_max_brightness(s),
    decreases s.len(),
{
    if s.len() > 1 && i < s.len() - 1 {
        lemma_brightness_range_element(s.drop_last(), i);
    }
}

proof fn lemma_first_hit_found(s: Seq<Entry>, lux: u64, luma: Option<u8>)
    requires
        spec_has_hit(s, lux, luma),
    ensures
        0 <= spec_first_hit(s, lux, luma) < s.len(),
        spec_dist_sq(s[spec_first_hit(s, lux, luma)], lux, luma) == 0,
    decreases s.len(),
{
    if spec_dist_sq(s[0], lux, luma) != 0 {
        let t = s.drop_first();
        assert(forall|j: int| 0 <= j < t.len() ==> #[trigger] t[j] == s[j + 1]);
        let j = choose|j: int| 0 <= j < s.len() && spec_dist_sq(#[trigger] s[j], lux, luma) == 0;
        assert(t[j - 1] == s[j]);
        lemma_first_hit_found(t, lux, luma);
    }
}

proof fn lemma_min_dist_achieved(s: Seq<Entry>, lux: u64, luma: Option<u8>)
    requires
        s.len() >= 1,
    ensures
        exists|j: int|
            0 <= j < s.len() && spec_dist(#[trigger] s[j], lux, luma) == spec_min_dist(
                s,
                lux,
                luma,
            ),
        forall|j: int|
            0 <= j < s.len() ==> spec_min_dist(s, lux, luma) <= spec_dist(
                #[trigger] s[j],
                lux,
                luma,
            ),
    decreases s.len(),
{
    if s.len() == 1 {
        assert(spec_dist(s[0], lux, luma) == spec_min_dist(s, lux, luma));
    } else {
        let front = s.drop_last();
        lemma_min_dist_achieved(front, lux, luma);
        if spec_dist(s.last(), lux, luma) < spec_min_dist(front, lux, luma) {
            assert(spec_dist(s[s.len() - 1], lux, luma) == spec_min_dist(s, lux, luma));
        } else {
            let j0 = choose|j: int|
                0 <= j < front.len() && spec_dist(#[trigger] front[j], lux, luma)
                    == spec_min_dist(front, lux, luma);
            assert(s[j0] == front[j0]);
        }
        assert forall|j: int|
            0 <= j < s.len() implies spec_min_dist(s, lux, luma) <= spec_dist(
            #[trigger] s[j],
            lux,
            luma,
        ) by {
            if j < s.len() - 1 {
                assert(front[j] == s[j]);
            }
        }
    }
}

proof fn lemma_wsum_nonneg(s: Seq<Entry>, lux: u64, luma: Option<u8>, dmin: int)
    requires
        dmin >= 0,
        forall|j: int| 0 <= j < s.len() ==> spec_dist(#[trigger] s[j], lux, luma) >= 1,
    ensures
        spec_wsum(s, lux, luma, dmin) >= 0,
    decreases s.len(),
{
    if s.len() > 0 {
        lemma_wsum_nonneg(s.drop_last(), lux, luma, dmin);
        lemma_mul_nonnegative(dmin, INV_SCALE as int);
        lemma_div_pos_is_pos(dmin * (INV_SCALE as int), spec_dist(s.last(), lux, luma));
    }
}

proof fn lemma_wsum_lower(s: Seq<Entry>, lux: u64, luma: Option<u8>, dmin: int)
    requires
        dmin >= 1,
        forall|j: int|
            0 <= j < s.len() ==> dmin <= spec_dist(#[trigger] s[j], lux, luma),
        exists|j: int|
            0 <= j < s.len() && spec_dist(#[trigger] s[j], lux, luma) == dmin,
    ensures
        spec_wsum(s, lux, luma, dmin) >= INV_SCALE,
    decreases s.len(),
{
    lemma_div_multiples_vanish(INV_SCALE as int, dmin);
    if spec_dist(s.last(), lux, luma) == dmin {
        lemma_wsum_nonneg(s.drop_last(), lux, luma, dmin);
        assert(spec_weight(s.last(), lux, luma, dmin) == INV_SCALE);
    } else {
        let j = choose|j: int|
            0 <= j < s.len() && spec_dist(#[trigger] s[j], lux, luma) == dmin;
        assert(s.drop_last()[j] == s[j]);
        lemma_wsum_lower(s.drop_last(), lux, luma, dmin);
        lemma_mul_nonnegative(dmin, INV_SCALE as int);
        lemma_div_pos_is_pos(dmin * (INV_SCALE as int), spec_dist(s.last(), lux, luma));
    }
}

proof fn lemma_bwsum_range(s: Seq<Entry>, lux: u64, luma: Option<u8>, dmin: int)
    requires
        s.len() >= 1,
        dmin >= 0,
        forall|j: int| 0 <= j < s.len() ==> spec_dist(#[trigger] s[j], lux, luma) >= 1,
    ensures
        spec_min_brightness(s) * spec_wsum(s, lux, luma, dmin) <= spec_bwsum(s, lux, luma, dmin),
        spec_bwsum(s, lux, luma, dmin) <= spec_max_brightness(s) * spec_wsum(s, lux, luma, dmin),
    decreases s.len(),
{
    let wlast = spec_weight(s.last(), lux, luma, dmin);
    let blast = s.last().brightness as int;
    lemma_mul_nonnegative(dmin, INV_SCALE as int);
    lemma_div_pos_is_pos(dmin * (INV_SCALE as int), spec_dist(s.last(), lux, luma));
    if s.len() == 1 {
        assert(spec_wsum(s.drop_last(), lux, luma, dmin) == 0);
        assert(spec_bwsum(s.drop_last(), lux, luma, dmin) == 0);
        assert(spec_wsum(s, lux, luma, dmin) == wlast);
        assert(spec_bwsum(s, lux, luma, dmin) == blast * wlast);
    } else {
        let front = s.drop_last();
        lemma_bwsum_range(front, lux, luma, dmin);
        lemma_wsum_nonneg(front, lux, luma, dmin);
        let wf = spec_wsum(front, lux, luma, dmin);
        let minf = spec_min_brightness(front);
        let maxf = spec_max_brightness(front);
        let mins = spec_min_brightness(s);
        let maxs = spec_max_brightness(s);
        lemma_mul_inequality(maxf, maxs, wf);
        lemma_mul_inequality(blast, maxs, wlast);
        lemma_mul_is_distributive_add(maxs, wf, wlast);
        lemma_mul_inequality(mins, minf, wf);
        lemma_mul_inequality(mins, blast, wlast);
        lemma_mul_is_distributive_add(mins, wf, wlast);
    }
}

/// Law: a prediction always lies between the least and the greatest learned
/// brightness — it interpolates the entries and never extrapolates past
/// them.
pub proof fn lemma_predict_in_brightness_range(s: Seq<Entry>, lux: u64, luma: Option<u8>)
    requires
        s.len() >= 1,
    ensures
        spec_min_brightness(s) <= spec_predict(s, lux, luma) <= spec_max_brightness(s),
{
    if spec_has_hit(s, lux, luma) {
        lemma_first_hit_found(s, lux, luma);
        lemma_brightness_range_element(s, spec_first_hit(s, lux, luma));
    } else {
        assert forall|j: int| 0 <= j < s.len() implies spec_dist(
            #[trigger] s[j],
            lux,
            luma,
        ) >= 1 by {
            let e = s[j];
            let dl = spec_abs_diff(lux as int, e.lux as int);
            let dm = spec_abs_diff(spec_luma0(luma), spec_luma0(e.luma));
            lemma_mul_nonnegative(dl, dl);
            lemma_mul_nonnegative(dm, dm);
            let n = spec_dist_sq(e, lux, luma);
            assert(n != 0);
            lemma_isqrt_bounds(n);
            if spec_isqrt(n) == 0 {
                assert(n < (0 + 1) * (0 + 1));
                assert(false);
            }
        }
        let dmin = spec_min_dist(s, lux, luma);
        lemma_min_dist_achieved(s, lux, luma);
        lemma_wsum_lower(s, lux, luma, dmin);
        lemma_bwsum_range(s, lux, luma, dmin);
        let wsum = spec_wsum(s, lux, luma, dmin);
        let bwsum = spec_bwsum(s, lux, luma, dmin);
        let mins = spec_min_brightness(s);
        let maxs = spec_max_brightness(s);
        lemma_mul_is_commutative(maxs, wsum);
        lemma_multiply_divide_le(bwsum, wsum, maxs);
        lemma_div_is_ordered(mins * wsum, bwsum, wsum);
        lemma_mul_is_commutative(mins, wsum);
        lemma_div_multiples_vanish(mins, wsum);
    }
}

fn luma0(l: Option<u8>) -> (r: u64)
    ensures
        r as int == spec_luma0(l),
{
    match l {
        Option::Some(v) => v as u64,
        Option::None => 0,
    }
}

/// The predicted brightness for a query point, over a non-empty entry set:
/// the brightness of the first exact hit if there is one, else the weighted
/// average truncated toward zero.
pub open spec fn spec_predict(s: Seq<Entry>, lux: u64, luma: Option<u8>) -> int
    recommends
        s.len() >= 1,
{
    if spec_has_hit(s, lux, luma) {
        s[spec_first_hit(s, lux, luma)].brightness as int
    } else {
        let dmin = spec_min_dist(s, lux, luma);
        spec_bwsum(s, lux, luma, dmin) / spec_wsum(s, lux, luma, dmin)
    }
}

/// Compute the predicted brightness for the query point `(lux, luma)`.
#[verifier::loop_isolation(false)]
pub fn predict_brightness(entries: &Vec<Entry>, lux: u64, luma: Option<u8>) -> (r: u64)
    requires
        1 <= entries@.len() <= super::data::MAX_ENTRIES,
    ensures
        r as int == spec_predict(entries@, lux, luma),
        spec_min_brightness(entries@) <= r as int <= spec_max_brightness(entries@),
{
    let n: usize = entries.len();
    let mut dists: Vec<u64> = Vec::new();
    let mut i: usize = 0;
    while i < n
        invariant
            0 <= i <= n,
            dists@.len() == i,
            forall|j: int| 0 <= j < i ==> spec_dist_sq(#[trigger] entries@[j], lux, luma) != 0,
            forall|j: int|
                0 <= j < i ==> (#[trigger] dists@[j]) as int == spec_dist(
                    entries@[j],
                    lux,
                    luma,
                ),
            forall|j: int| 0 <= j < i ==> (#[trigger] dists@[j]) >= 1,
        decreases n - i,
    {
        let e = entries[i];
        let dl: u64 = if lux >= e.lux {
            lux - e.lux
        } else {
            e.lux - lux
        };
        let q: u64 = luma0(luma);
        let ql: u64 = luma0(e.luma);
        let dm: u64 = if q >= ql {
            q - ql
        } else {
            ql - q
        };
        proof {
            lemma_mul_upper_bound(dl as int, u64::MAX as int, dl as int, u64::MAX as int);
            lemma_mul_upper_bound(dm as int, 255, dm as int, 255);
        }
        let sq: u128 = (dl as u128) * (dl as u128) + (dm as u128) * (dm as u128);
        proof {
            assert(sq as int == spec_dist_sq(entries@[i as int], lux, luma));
        }
        if sq == 0 {
            proof {
                lemma_first_hit_at(entries@, lux, luma, i as int);
                lemma_predict_in_brightness_range(entries@, lux, luma);
            }
            return entries[i].brightness;
        }
        let d: u64 = isqrt(sq);
        proof {
            lemma_isqrt_pos(sq as int);
        }
        dists.push(d);
        i = i + 1;
    }

    let mut dmin: u64 = dists[0];
    let mut i: usize = 1;
    while i < n
        invariant
            1 <= i <= n,
            dmin as int == spec_min_dist(entries@.take(i as int), lux, luma),
            exists|j: int| 0 <= j < i && (#[trigger] dists@[j]) == dmin,
            forall|j: int| 0 <= j < i ==> dmin <= #[trigger] dists@[j],
        decreases n - i,
    {
        proof {
            assert(entries@.take(i + 1).drop_last() =~= entries@.take(i as int));
            assert(entries@.take(i + 1).last() == entries@[i as int]);
        }
        if dists[i] < dmin {
            dmin = dists[i];
        }
        i = i + 1;
    }
    proof {
        assert(entries@.take(n as int) =~= entries@);
        assert(!spec_has_hit(entries@, lux, luma));
    }

    let mut num: u128 = 0;
    let mut den: u128 = 0;
    let mut i: usize = 0;
    while i < n
        invariant
            0 <= i <= n,
            num as int == spec_bwsum(entries@.take(i as int), lux, luma, dmin as int),
            den as int == spec_wsum(entries@.take(i as int), lux, luma, dmin as int),
            den as int <= (i as int) * (INV_SCALE as int),
            num as int <= (den as int) * (u64::MAX as int),
            (exists|j: int| 0 <= j < i && (#[trigger] dists@[j]) == dmin) ==> den
                >= INV_SCALE,
        decreases n - i,
    {
        proof {
            lemma_mul_upper_bound(dmin as int, u64::MAX as int, INV_SCALE as int,
                INV_SCALE as int);
        }
        let w: u128 = ((dmin as u128) * (INV_SCALE as u128)) / (dists[i] as u128);
        proof {
            lemma_mul_inequality(dmin as int, dists@[i as int] as int, INV_SCALE as int);
            lemma_multiply_divide_le((dmin as int) * (INV_SCALE as int),
                dists@[i as int] as int, INV_SCALE as int);
            assert(w <= INV_SCALE);
            if dists@[i as int] == dmin {
                lemma_div_multiples_vanish(INV_SCALE as int, dmin as int);
                assert(w == INV_SCALE);
            }
            lemma_div_pos_is_pos((dmin as int) * (INV_SCALE as int), dists@[i as int] as int);
        }
        let b: u64 = entries[i].brightness;
        proof {
            lemma_mul_upper_bound(b as int, u64::MAX as int, w as int, INV_SCALE as int);
            lemma_mul_inequality(b as int, u64::MAX as int, w as int);
            assert(entries@.take(i + 1).drop_last() =~= entries@.take(i as int));
            assert(entries@.take(i + 1).last() == entries@[i as int]);
            assert(spec_weight(entries@[i as int], lux, luma, dmin as int) == w as int);
        }
        num = num + (b as u128) * w;
        den = den + w;
        i = i + 1;
    }
    proof {
        assert(entries@.take(n as int) =~= entries@);
        assert(den >= INV_SCALE);
        lemma_multiply_divide_le(num as int, den as int, u64::MAX as int);
        lemma_predict_in_brightness_range(entries@, lux, luma);
    }
    (num / den) as u64
}

} // verus!
