//! Categorical sampling: draws a symbol index from unnormalised non-negative
//! integer weights, one per symbol of the alphabet.
//!
//! A draw takes a uniform value `r` in `[0, total)` and returns the smallest
//! index whose cumulative weight exceeds `r`, which is the same as normalising
//! the weights and comparing a uniform value in `[0, 1)` against the
//! cumulative distribution. Where no cumulative weight exceeds `r` the result
//! is index 0.
use crate::vocab::VOCAB_SIZE;
use rand::rngs::StdRng;
use rand::Rng;
use vstd::prelude::*;

verus! {

#[verifier::external_type_specification]
#[verifier::external_body]
pub struct ExStdRng(StdRng);

/// Why a distribution cannot be sampled.
#[derive(Debug, Clone, Copy, PartialEq, Eq, Structural)]
pub enum SampleError {
    /// The distribution does not hold one weight per symbol.
    WrongLength,
    /// All weights are zero.
    ZeroTotal,
}

/// Largest single weight.
pub const MAX_WEIGHT: u64 = 0xFFFF_FFFF;

/// The cumulative weight of the first `n` entries.
pub open spec fn cumulative(w: Seq<u32>, n: int) -> int
    decreases n,
{
    if n <= 0 || n > w.len() {
        0
    } else {
        cumulative(w, n - 1) + w[n - 1]
    }
}

/// One weight per symbol, not all zero.
pub open spec fn valid_distribution(w: Seq<u32>) -> bool {
    w.len() == VOCAB_SIZE && cumulative(w, w.len() as int) > 0
}

/// `i` is what a draw with uniform value `r` selects from `w`: the smallest
/// index whose cumulative weight exceeds `r`, or 0 where there is none.
pub open spec fn is_pick(w: Seq<u32>, r: int, i: int) -> bool {
    &&& 0 <= i < w.len()
    &&& {
        ||| (cumulative(w, i + 1) > r && forall|j: int|
            0 <= j < i ==> #[trigger] cumulative(w, j + 1) <= r)
        ||| (i == 0 && forall|j: int|
            0 <= j < w.len() ==> #[trigger] cumulative(w, j + 1) <= r)
    }
}

/// The error that `w` is refused with, if any.
pub open spec fn rejects(w: Seq<u32>, e: SampleError) -> bool {
    match e {
        SampleError::WrongLength => w.len() != VOCAB_SIZE,
        SampleError::ZeroTotal => w.len() == VOCAB_SIZE && cumulative(w, w.len() as int) == 0,
    }
}

proof fn lemma_cumulative_bounds(w: Seq<u32>, n: int)
    requires
        0 <= n <= w.len(),
    ensures
        0 <= cumulative(w, n) <= n * MAX_WEIGHT,
    decreases n,
{
    if n > 0 {
        lemma_cumulative_bounds(w, n - 1);
    }
}

proof fn lemma_cumulative_monotone(w: Seq<u32>, a: int, b: int)
    requires
        0 <= a <= b <= w.len(),
    ensures
        cumulative(w, a) <= cumulative(w, b),
    decreases b - a,
{
    if a < b {
        lemma_cumulative_monotone(w, a, b - 1);
    }
}

/// A positive weight anywhere makes the total positive.
pub proof fn lemma_positive_total(w: Seq<u32>, i: int)
    requires
        0 <= i < w.len(),
        w[i] > 0,
    ensures
        cumulative(w, w.len() as int) > 0,
{
    lemma_cumulative_bounds(w, i);
    lemma_cumulative_monotone(w, i + 1, w.len() as int);
}

/// Relies on rand's `Rng::random_range` on the half-open range `0..bound`:
/// the value lies in the range (the call panics on an empty range).
#[verifier::external_body]
fn random_below(rng: &mut StdRng, bound: u64) -> (r: u64)
    requires
        bound > 0,
    ensures
        r < bound,
{
    rng.random_range(0..bound)
}

/// Checks a distribution and returns its total weight.
pub fn total_weight(weights: &Vec<u32>) -> (res: Result<u64, SampleError>)
    ensures
        match res {
            Ok(t) => valid_distribution(weights@) && t == cumulative(weights@, weights@.len() as int),
            Err(e) => rejects(weights@, e),
        },
{
    if weights.len() != VOCAB_SIZE {
        return Err(SampleError::WrongLength);
    }
    let mut acc: u64 = 0;
    let mut i: usize = 0;
    while i < weights.len()
        invariant
            weights@.len() == VOCAB_SIZE,
            0 <= i <= weights@.len(),
            acc == cumulative(weights@, i as int),
        decreases weights.len() - i,
    {
        proof {
            lemma_cumulative_bounds(weights@, i as int);
        }
        acc = acc + weights[i] as u64;
        i += 1;
    }
    if acc == 0 {
        Err(SampleError::ZeroTotal)
    } else {
        Ok(acc)
    }
}

/// Selects the index that the uniform value `r` falls on.
pub fn pick_index(weights: &Vec<u32>, r: u64) -> (res: Result<usize, SampleError>)
    ensures
        match res {
            Ok(i) => valid_distribution(weights@) && is_pick(weights@, r as int, i as int),
            Err(e) => rejects(weights@, e),
        },
{
    if let Err(e) = total_weight(weights) {
        return Err(e);
    }
    let mut acc: u64 = 0;
    let mut i: usize = 0;
    while i < weights.len()
        invariant
            weights@.len() == VOCAB_SIZE,
            valid_distribution(weights@),
            0 <= i <= weights@.len(),
            acc == cumulative(weights@, i as int),
            forall|j: int| 0 <= j < i ==> #[trigger] cumulative(weights@, j + 1) <= r,
        decreases weights.len() - i,
    {
        proof {
            lemma_cumulative_bounds(weights@, i as int);
        }
        acc = acc + weights[i] as u64;
        if acc > r {
            return Ok(i);
        }
        i += 1;
    }
    Ok(0)
}

/// Draws one symbol index from `weights` with the random source `rng`.
/// The index always has a positive weight.
pub fn draw_sample(weights: &Vec<u32>, rng: &mut StdRng) -> (res: Result<usize, SampleError>)
    ensures
        match res {
            Ok(i) => {
                &&& valid_distribution(weights@)
                &&& i < VOCAB_SIZE
                &&& weights@[i as int] > 0
                &&& exists|r: int|
                    0 <= r < cumulative(weights@, weights@.len() as int) && #[trigger] is_pick(
                        weights@,
                        r,
                        i as int,
                    )
            },
            Err(e) => rejects(weights@, e),
        },
{
    let total = match total_weight(weights) {
        Ok(t) => t,
        Err(e) => {
            return Err(e);
        },
    };
    let r = random_below(rng, total);
    let res = pick_index(weights, r);
    match res {
        Ok(i) => {
            proof {
                lemma_pick_has_weight(weights@, r as int, i as int);
            }
            Ok(i)
        },
        Err(e) => Err(e),
    }
}

/// A uniform value below the total weight never falls on a zero weight.
pub proof fn lemma_pick_has_weight(w: Seq<u32>, r: int, i: int)
    requires
        0 <= r < cumulative(w, w.len() as int),
        is_pick(w, r, i),
    ensures
        w[i] > 0,
{
    assert(w.len() > 0);
    let last = w.len() - 1;
    assert(cumulative(w, last + 1) > r);
    if cumulative(w, i + 1) > r && forall|j: int| 0 <= j < i ==> #[trigger] cumulative(w, j + 1) <= r {
        if i > 0 {
            assert(cumulative(w, (i - 1) + 1) <= r);
        }
    }
}

/// A draw is a function of the weights and the uniform value: two indices
/// picked with the same value from the same weights are equal.
pub proof fn lemma_pick_unique(w: Seq<u32>, r: int, i1: int, i2: int)
    requires
        is_pick(w, r, i1),
        is_pick(w, r, i2),
    ensures
        i1 == i2,
{
    if i1 < i2 {
        assert(cumulative(w, i1 + 1) <= r);
    } else if i2 < i1 {
        assert(cumulative(w, i2 + 1) <= r);
    }
}

/// Every pick lies in `[0, 27)`.
pub proof fn lemma_pick_in_alphabet(w: Seq<u32>, r: int, i: int)
    requires
        valid_distribution(w),
        is_pick(w, r, i),
    ensures
        0 <= i < VOCAB_SIZE,
{
}

/// A distribution whose only positive weight is that of the boundary symbol
/// always yields index 0, whatever the uniform value.
pub proof fn lemma_boundary_only(w: Seq<u32>, r: int, i: int)
    requires
        w.len() == VOCAB_SIZE,
        w[0] > 0,
        forall|j: int| 1 <= j < VOCAB_SIZE ==> #[trigger] w[j] == 0,
        0 <= r,
        is_pick(w, r, i),
    ensures
        i == 0,
{
    if i > 0 {
        if cumulative(w, i + 1) > r {
            assert(cumulative(w, 0int + 1) <= r);
            lemma_zero_tail(w, i + 1);
            lemma_zero_tail(w, 1);
        }
    }
}

proof fn lemma_zero_tail(w: Seq<u32>, n: int)
    requires
        1 <= n <= w.len(),
        forall|j: int| 1 <= j < w.len() ==> #[trigger] w[j] == 0,
    ensures
        cumulative(w, n) == w[0],
    decreases n,
{
    if n > 1 {
        lemma_zero_tail(w, n - 1);
        assert(w[n - 1] == 0);
    } else {
        assert(cumulative(w, 0) == 0);
    }
}

} // verus!
