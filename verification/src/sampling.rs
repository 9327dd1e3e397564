//! Fitness-proportional sampling: the weighted distribution that selection
//! draws parents from.  Zero-weight members keep their slot (indices stay
//! valid) but have zero probability of being drawn.

use vstd::prelude::*;
use crate::entropy::EntropySource;
use crate::entropy::draw_below;
use crate::GaError;

verus! {

/// How many draws a collision-avoiding loop makes before it falls back
/// to a deterministic choice.
pub const RETRY_CAP: u64 = 32;

/// The sum of the first `n` weights.
pub open spec fn prefix_weight(w: Seq<u64>, n: int) -> int
    decreases n,
{
    if n <= 0 {
        0
    } else {
        prefix_weight(w, n - 1) + w[n - 1]
    }
}

/// How many of the first `n` weights are strictly positive.
pub open spec fn positive_count(w: Seq<u64>, n: int) -> int
    decreases n,
{
    if n <= 0 {
        0
    } else {
        positive_count(w, n - 1) + if w[n - 1] > 0 { 1int } else { 0int }
    }
}

pub proof fn lemma_prefix_weight_bounds(w: Seq<u64>, n: int)
    requires
        0 <= n <= w.len(),
    ensures
        0 <= prefix_weight(w, n) <= n * (u64::MAX as int),
    decreases n,
{
    if n > 0 {
        lemma_prefix_weight_bounds(w, n - 1);
        assert((n - 1) * (u64::MAX as int) + (u64::MAX as int) == n * (u64::MAX as int))
            by (nonlinear_arith);
    }
}

/// A positive weight somewhere in the prefix makes the prefix sum positive.
pub proof fn lemma_positive_total(w: Seq<u64>, n: int)
    requires
        0 <= n <= w.len(),
        positive_count(w, n) >= 1,
    ensures
        prefix_weight(w, n) >= 1,
    decreases n,
{
    if n > 0 {
        lemma_prefix_weight_bounds(w, n - 1);
        if !(w[n - 1] > 0) {
            lemma_positive_total(w, n - 1);
        }
    }
}

/// At least one positive weight has an index.
pub proof fn lemma_positive_one(w: Seq<u64>, n: int)
    requires
        0 <= n <= w.len(),
        positive_count(w, n) >= 1,
    ensures
        exists|i: int| 0 <= i < n && w[i] > 0,
    decreases n,
{
    if n > 0 {
        if w[n - 1] > 0 {
            assert(w[n - 1] > 0);
        } else {
            lemma_positive_one(w, n - 1);
        }
    }
}

/// Two positive weights have two distinct indices.
pub proof fn lemma_positive_pair(w: Seq<u64>, n: int)
    requires
        0 <= n <= w.len(),
        positive_count(w, n) >= 2,
    ensures
        exists|i: int, j: int| 0 <= i < j < n && w[i] > 0 && w[j] > 0,
    decreases n,
{
    if n > 0 {
        if w[n - 1] > 0 {
            lemma_positive_one(w, n - 1);
            let i = choose|i: int| 0 <= i < n - 1 && w[i] > 0;
            assert(0 <= i < n - 1 && w[i] > 0 && w[n - 1] > 0);
        } else {
            lemma_positive_pair(w, n - 1);
        }
    }
}

/// When every weight is positive, so is the whole count.
pub proof fn lemma_positive_count_all(w: Seq<u64>, n: int)
    requires
        0 <= n <= w.len(),
        forall|i: int| 0 <= i < n ==> #[trigger] w[i] > 0,
    ensures
        positive_count(w, n) == n,
    decreases n,
{
    if n > 0 {
        lemma_positive_count_all(w, n - 1);
    }
}

/// Counts the strictly positive weights.
pub fn count_positive(weights: &Vec<u64>) -> (c: usize)
    ensures
        c <= weights@.len(),
        c == positive_count(weights@, weights@.len() as int),
{
    let mut c: usize = 0;
    let mut i: usize = 0;
    while i < weights.len()
        invariant
            0 <= i <= weights@.len(),
            c <= i,
            c == positive_count(weights@, i as int),
        decreases weights@.len() - i,
    {
        if weights[i] > 0 {
            c = c + 1;
        }
        i = i + 1;
    }
    c
}

/// The total weight of the whole distribution.  A sum of at most
/// `usize::MAX` values of `u64` always fits in a `u128`.
pub fn total_weight(weights: &Vec<u64>) -> (t: u128)
    ensures
        t == prefix_weight(weights@, weights@.len() as int),
{
    let mut t: u128 = 0;
    let mut i: usize = 0;
    while i < weights.len()
        invariant
            0 <= i <= weights@.len(),
            t == prefix_weight(weights@, i as int),
        decreases weights@.len() - i,
    {
        proof {
            lemma_prefix_weight_bounds(weights@, i as int + 1);
            assert((i as int + 1) * (u64::MAX as int) < u128::MAX as int) by (nonlinear_arith)
                requires i as int + 1 <= usize::MAX as int + 1;
        }
        t = t + weights[i] as u128;
        i = i + 1;
    }
    t
}

/// Maps a uniform draw below the total weight to the member whose
/// cumulative-weight interval contains it: the unique index with
/// `prefix_weight(idx) <= r < prefix_weight(idx + 1)`.  The chosen
/// member always has positive weight.
pub fn pick_weighted(weights: &Vec<u64>, r: u128) -> (idx: usize)
    requires
        r < prefix_weight(weights@, weights@.len() as int),
    ensures
        idx < weights@.len(),
        weights@[idx as int] > 0,
        prefix_weight(weights@, idx as int) <= r < prefix_weight(weights@, idx as int + 1),
{
    let n = weights.len();
    let mut i: usize = 0;
    let mut acc: u128 = 0;
    while i < n
        invariant
            n == weights@.len(),
            0 <= i <= n,
            acc == prefix_weight(weights@, i as int),
            acc <= r,
            r < prefix_weight(weights@, n as int),
        decreases n - i,
    {
        proof {
            lemma_prefix_weight_bounds(weights@, i as int + 1);
            assert((i as int + 1) * (u64::MAX as int) < u128::MAX as int) by (nonlinear_arith)
                requires i as int + 1 <= usize::MAX as int + 1;
        }
        let wi = weights[i];
        if r < acc + wi as u128 {
            return i;
        }
        acc = acc + wi as u128;
        i = i + 1;
    }
    proof {
        assert(false);
    }
    0
}

/// Draws one member of the distribution, weight-proportionally.
fn draw_weighted<E: EntropySource>(weights: &Vec<u64>, total: u128, src: &mut E) -> (idx: usize)
    requires
        total == prefix_weight(weights@, weights@.len() as int),
        total >= 1,
    ensures
        idx < weights@.len(),
        weights@[idx as int] > 0,
{
    let d = src.next_u64();
    let r = (d as u128) % total;
    pick_weighted(weights, r)
}

/// Selects two distinct members, each with probability proportional to
/// its weight; the second is redrawn on collision with the first, up to
/// `RETRY_CAP` times, after which the smallest differing positive-weight
/// index is taken.  Fails with `InsufficientDiversity` exactly when at
/// most one weight is positive.
pub fn select_two<E: EntropySource>(weights: &Vec<u64>, src: &mut E) -> (r: Result<
    (usize, usize),
    GaError,
>)
    ensures
        match r {
            Ok(p) => {
                &&& positive_count(weights@, weights@.len() as int) >= 2
                &&& p.0 < weights@.len() && p.1 < weights@.len()
                &&& p.0 != p.1
                &&& weights@[p.0 as int] > 0 && weights@[p.1 as int] > 0
            },
            Err(e) => {
                &&& e == GaError::InsufficientDiversity
                &&& positive_count(weights@, weights@.len() as int) <= 1
            },
        },
{
    let n = weights.len();
    let positives = count_positive(weights);
    if positives <= 1 {
        return Err(GaError::InsufficientDiversity);
    }
    proof {
        lemma_positive_total(weights@, n as int);
    }
    let total = total_weight(weights);
    let first = draw_weighted(weights, total, src);

    let mut tries: u64 = 0;
    while tries < RETRY_CAP
        invariant
            total == prefix_weight(weights@, weights@.len() as int),
            total >= 1,
            first < weights@.len(),
            weights@[first as int] > 0,
            positive_count(weights@, weights@.len() as int) >= 2,
        decreases RETRY_CAP - tries,
    {
        let second = draw_weighted(weights, total, src);
        if second != first {
            return Ok((first, second));
        }
        tries = tries + 1;
    }

    proof {
        lemma_positive_pair(weights@, n as int);
    }
    let mut k: usize = 0;
    while k < n
        invariant
            n == weights@.len(),
            0 <= k <= n,
            first < weights@.len(),
            weights@[first as int] > 0,
            positive_count(weights@, n as int) >= 2,
            forall|m: int| 0 <= m < k ==> m == first as int || weights@[m] == 0,
        decreases n - k,
    {
        if k != first && weights[k] > 0 {
            return Ok((first, k));
        }
        k = k + 1;
    }
    proof {
        lemma_positive_pair(weights@, n as int);
        let (i, j) = choose|i: int, j: int|
            0 <= i < j < n && weights@[i] > 0 && weights@[j] > 0;
        assert(false);
    }
    Err(GaError::InsufficientDiversity)
}

/// Picks two distinct slots uniformly, ignoring weights: the documented
/// fallback when a generation lacks two positive-fitness members.
pub fn pick_uniform_pair<E: EntropySource>(len: usize, src: &mut E) -> (r: (usize, usize))
    requires
        len >= 2,
    ensures
        r.0 < len,
        r.1 < len,
        r.0 != r.1,
{
    let first = draw_below(src, len as u64) as usize;
    let mut tries: u64 = 0;
    while tries < RETRY_CAP
        invariant
            len >= 2,
            first < len,
        decreases RETRY_CAP - tries,
    {
        let second = draw_below(src, len as u64) as usize;
        if second != first {
            return (first, second);
        }
        tries = tries + 1;
    }
    let second = if first + 1 < len {
        first + 1
    } else {
        0
    };
    (first, second)
}

} // verus!
