//! The weighted sampler.
//!
//! Draws an index from a list of non-negative integer weights,
//! proportionally to weight, spending a single uniform draw on one
//! cumulative scan. It yields no sample when every weight is zero, when
//! the list is empty, or when the weights do not sum within `u64`;
//! callers treat that as a dead end, never as an error.

use vstd::prelude::*;
use crate::rng::RandomSource;

verus! {

/// The sum of a sequence of weights, as an unbounded integer.
pub open spec fn sum_weights(s: Seq<u64>) -> int
    decreases s.len(),
{
    if s.len() == 0 {
        0
    } else {
        sum_weights(s.drop_last()) + s.last()
    }
}

/// Prefix sums never exceed the whole sum.
pub proof fn lemma_sum_prefix(s: Seq<u64>, i: int)
    requires
        0 <= i <= s.len(),
    ensures
        sum_weights(s.take(i)) <= sum_weights(s),
    decreases s.len() - i,
{
    if i < s.len() {
        lemma_sum_prefix(s, i + 1);
        assert(s.take(i + 1).drop_last() =~= s.take(i));
        assert(sum_weights(s.take(i + 1)) == sum_weights(s.take(i)) + s[i]);
        assert(s.take(s.len() as int) =~= s);
    } else {
        assert(s.take(i) =~= s);
    }
}

/// Sums are non-negative.
pub proof fn lemma_sum_nonneg(s: Seq<u64>)
    ensures
        sum_weights(s) >= 0,
    decreases s.len(),
{
    if s.len() > 0 {
        lemma_sum_nonneg(s.drop_last());
    }
}

/// No single weight exceeds the sum.
pub proof fn lemma_sum_element(s: Seq<u64>, k: int)
    requires
        0 <= k < s.len(),
    ensures
        s[k] <= sum_weights(s),
    decreases s.len(),
{
    if k == s.len() - 1 {
        lemma_sum_nonneg(s.drop_last());
    } else {
        assert(s.drop_last()[k] == s[k]);
        lemma_sum_element(s.drop_last(), k);
    }
}

/// Pick an index with probability proportional to its weight, using one
/// draw from the source. `None` exactly when no index carries positive
/// weight that the scan can reach: an empty list, all-zero weights, or a
/// total beyond `u64`.
pub fn weighted_pick(weights: &Vec<u64>, src: &mut RandomSource) -> (r: Option<usize>)
    ensures
        match r {
            Some(i) => i < weights.len() && weights[i as int] > 0,
            None => sum_weights(weights@) == 0 || sum_weights(weights@) > u64::MAX,
        },
{
    // One pass to total the weights, refusing an overflowing sum as the
    // underlying distribution type of `rand` would.
    let mut total: u64 = 0;
    let mut i: usize = 0;
    while i < weights.len()
        invariant
            i <= weights.len(),
            total == sum_weights(weights@.take(i as int)),
        decreases weights.len() - i,
    {
        proof {
            assert(weights@.take(i + 1).drop_last() =~= weights@.take(i as int));
        }
        let w = weights[i];
        match total.checked_add(w) {
            Some(t) => {
                total = t;
            },
            None => {
                proof {
                    lemma_sum_prefix(weights@, i + 1);
                }
                return None;
            },
        }
        i = i + 1;
    }
    proof {
        assert(weights@.take(weights@.len() as int) =~= weights@);
    }
    if total == 0 {
        return None;
    }

    // One uniform draw, one cumulative scan.
    let u = src.below(total);
    let mut acc: u64 = 0;
    let mut j: usize = 0;
    while j < weights.len()
        invariant
            j <= weights.len(),
            acc == sum_weights(weights@.take(j as int)),
            acc <= u,
            u < total,
            total == sum_weights(weights@),
        decreases weights.len() - j,
    {
        proof {
            assert(weights@.take(j + 1).drop_last() =~= weights@.take(j as int));
            lemma_sum_prefix(weights@, j + 1);
        }
        let w = weights[j];
        if u < acc + w {
            return Some(j);
        }
        acc = acc + w;
        j = j + 1;
    }
    proof {
        assert(weights@.take(weights@.len() as int) =~= weights@);
        assert(false);
    }
    None
}

} // verus!
