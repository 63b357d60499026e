//! Ambient-light sources and the mapping from raw readings to smoothed
//! profile indices.

pub mod iio;
pub mod none;
pub mod time;
pub mod webcam;

use vstd::prelude::*;

verus! {

/// Index of the first threshold exceeding `raw` (the list's length when none
/// does).
pub open spec fn spec_smoothen(raw: u64, t: Seq<u64>) -> int
    decreases t.len(),
{
    if t.len() == 0 {
        0
    } else if raw < t[0] {
        0
    } else {
        1 + spec_smoothen(raw, t.drop_first())
    }
}

/// How many thresholds do not exceed `raw`.
pub open spec fn spec_count_le(t: Seq<u64>, raw: u64) -> int
    decreases t.len(),
{
    if t.len() == 0 {
        0
    } else {
        let c: int = if t[0] <= raw {
            1
        } else {
            0
        };
        c + spec_count_le(t.drop_first(), raw)
    }
}

pub open spec fn spec_sorted(t: Seq<u64>) -> bool {
    forall|i: int, j: int| 0 <= i <= j < t.len() ==> t[i] <= t[j]
}

/// Map a raw ambient reading onto the profile scale given by an ordered
/// threshold list.
pub fn smoothen(raw_lux: u64, thresholds: &Vec<u64>) -> (r: u64)
    ensures
        r as int == spec_smoothen(raw_lux, thresholds@),
        r <= thresholds@.len(),
{
    let n: usize = thresholds.len();
    let mut i: usize = 0;
    while i < n
        invariant
            0 <= i <= n,
            n == thresholds@.len(),
            forall|j: int| 0 <= j < i ==> thresholds@[j] <= raw_lux,
        decreases n - i,
    {
        if raw_lux < thresholds[i] {
            proof {
                lemma_smoothen_prefix(raw_lux, thresholds@, i as int);
            }
            return i as u64;
        }
        i = i + 1;
    }
    proof {
        lemma_smoothen_prefix(raw_lux, thresholds@, n as int);
    }
    n as u64
}

/// When every threshold before `i` is at most `raw` and, unless `i` is the
/// length, the one at `i` exceeds it, the smoothened index is `i`.
proof fn lemma_smoothen_prefix(raw: u64, t: Seq<u64>, i: int)
    requires
        0 <= i <= t.len(),
        forall|j: int| 0 <= j < i ==> t[j] <= raw,
        i < t.len() ==> raw < t[i],
    ensures
        spec_smoothen(raw, t) == i,
    decreases i,
{
    if i == 0 {
    } else {
        let rest = t.drop_first();
        assert(forall|j: int| 0 <= j < rest.len() ==> #[trigger] rest[j] == t[j + 1]);
        lemma_smoothen_prefix(raw, rest, i - 1);
    }
}

/// Law: over an ordered threshold list, the smoothened index equals the
/// number of thresholds not exceeding the raw value — 0 when the value lies
/// below them all, the list's length when it lies at or above the last.
pub proof fn lemma_smoothen_counts(raw: u64, t: Seq<u64>)
    requires
        spec_sorted(t),
    ensures
        spec_smoothen(raw, t) == spec_count_le(t, raw),
    decreases t.len(),
{
    if t.len() > 0 {
        let rest = t.drop_first();
        assert(forall|j: int| 0 <= j < rest.len() ==> #[trigger] rest[j] == t[j + 1]);
        if raw < t[0] {
            lemma_count_le_none(rest, raw);
        } else {
            lemma_smoothen_counts(raw, rest);
        }
    }
}

/// A list all of whose thresholds exceed `raw` contributes no count.
proof fn lemma_count_le_none(t: Seq<u64>, raw: u64)
    requires
        forall|j: int| 0 <= j < t.len() ==> raw < #[trigger] t[j],
    ensures
        spec_count_le(t, raw) == 0,
    decreases t.len(),
{
    if t.len() > 0 {
        let rest = t.drop_first();
        assert(forall|j: int| 0 <= j < rest.len() ==> #[trigger] rest[j] == t[j + 1]);
        lemma_count_le_none(rest, raw);
    }
}

} // verus!
