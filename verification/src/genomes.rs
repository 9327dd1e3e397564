//! Permutation genomes for the traveling-salesman problem: a genome of
//! length `n` holds each location index `0..n-1` exactly once, and every
//! operator here preserves that invariant.  Distances are Euclidean, in
//! fixed point at 1000 units per grid unit, so that the tour length and
//! its reciprocal fitness stay in integer arithmetic.

use vstd::prelude::*;
use crate::entropy::EntropySource;
use crate::entropy::draw_below;
use crate::layout::TourMap;
use crate::sampling;
use crate::GaError;

verus! {

/// The numerator of the reciprocal fitness: fitness is
/// `FITNESS_SCALE / tour_length`, and `FITNESS_SCALE` itself when the
/// tour length is zero (all locations coincide), the maximum attainable.
pub const FITNESS_SCALE: u64 = 1000000000000;

/// No scaled distance between two grid points exceeds this: the
/// integer square root of `1000^2 * (255^2 + 255^2)`.
pub const MAX_EDGE: u64 = 360624;

/// A genome is a permutation: every element indexes a location, and no
/// two positions hold the same element, so each index `0..n-1` appears
/// exactly once.
pub open spec fn is_permutation(g: Seq<u8>) -> bool {
    &&& forall|i: int| 0 <= i < g.len() ==> (#[trigger] g[i] as int) < g.len()
    &&& g.no_duplicates()
}

/// The integer square root: the largest `r` with `r * r <= n`.
pub open spec fn isqrt_spec(n: int) -> int
    decreases n,
{
    if n <= 0 {
        0
    } else {
        let r = isqrt_spec(n - 1);
        if (r + 1) * (r + 1) <= n {
            r + 1
        } else {
            r
        }
    }
}

pub proof fn lemma_isqrt_spec(n: int)
    requires
        n >= 0,
    ensures
        isqrt_spec(n) >= 0,
        isqrt_spec(n) * isqrt_spec(n) <= n,
        n < (isqrt_spec(n) + 1) * (isqrt_spec(n) + 1),
    decreases n,
{
    if n > 0 {
        lemma_isqrt_spec(n - 1);
        let r0 = isqrt_spec(n - 1);
        if (r0 + 1) * (r0 + 1) <= n {
            assert((r0 + 2) * (r0 + 2) > (r0 + 1) * (r0 + 1)) by (nonlinear_arith)
                requires r0 >= 0;
        }
    }
}

proof fn lemma_isqrt_unique(n: int, r: int)
    requires
        n >= 0,
        r >= 0,
        r * r <= n,
        n < (r + 1) * (r + 1),
    ensures
        r == isqrt_spec(n),
{
    lemma_isqrt_spec(n);
    let s = isqrt_spec(n);
    if r < s {
        assert((r + 1) * (r + 1) <= s * s) by (nonlinear_arith)
            requires 0 <= r + 1 <= s;
        assert(false);
    }
    if r > s {
        assert((s + 1) * (s + 1) <= r * r) by (nonlinear_arith)
            requires 0 <= s + 1 <= r;
        assert(false);
    }
}

/// The integer square root, by bisection.
pub fn isqrt(n: u64) -> (r: u64)
    ensures
        r == isqrt_spec(n as int),
{
    let mut lo: u64 = 0;
    let mut hi: u64 = 4294967295;
    proof {
        assert((hi as int + 1) * (hi as int + 1) > u64::MAX as int) by (nonlinear_arith)
            requires hi == 4294967295;
    }
    while lo < hi
        invariant
            lo <= hi <= 4294967295,
            (lo as int) * (lo as int) <= n as int,
            (n as int) < (hi as int + 1) * (hi as int + 1),
        decreases hi - lo,
    {
        let mid = lo + (hi - lo + 1) / 2;
        proof {
            assert(lo < mid <= hi) by (nonlinear_arith)
                requires lo < hi, mid == lo + (hi - lo + 1) / 2;
        }
        proof {
            assert((mid as int) * (mid as int) <= u128::MAX as int) by (nonlinear_arith)
                requires 0 <= (mid as int) <= 4294967295;
        }
        let sq = (mid as u128) * (mid as u128);
        if sq <= n as u128 {
            lo = mid;
        } else {
            hi = mid - 1;
        }
    }
    proof {
        lemma_isqrt_unique(n as int, lo as int);
    }
    lo
}

/// A square, in the mathematical integers.
pub open spec fn sq(a: int) -> int {
    a * a
}

/// The squared Euclidean distance between two grid points.
pub open spec fn dist2_spec(a: (u8, u8), b: (u8, u8)) -> int {
    sq(b.0 - a.0) + sq(b.1 - a.1)
}

/// Computes the squared Euclidean distance, widening before squaring so
/// the arithmetic cannot overflow even at the corners of the grid.
pub fn distance_squared(a: (u8, u8), b: (u8, u8)) -> (d: u32)
    ensures
        d == dist2_spec(a, b),
        d <= 130050,
{
    let dx: u32 = if a.0 > b.0 {
        (a.0 - b.0) as u32
    } else {
        (b.0 - a.0) as u32
    };
    let dy: u32 = if a.1 > b.1 {
        (a.1 - b.1) as u32
    } else {
        (b.1 - a.1) as u32
    };
    proof {
        let d0 = (b.0 as int) - (a.0 as int);
        let d1 = (b.1 as int) - (a.1 as int);
        assert(d0 * d0 == (dx as int) * (dx as int)) by (nonlinear_arith)
            requires (dx as int) == d0 || (dx as int) == -d0;
        assert(d1 * d1 == (dy as int) * (dy as int)) by (nonlinear_arith)
            requires (dy as int) == d1 || (dy as int) == -d1;
        assert((dx as int) * (dx as int) <= 65025) by (nonlinear_arith)
            requires 0 <= (dx as int) <= 255;
        assert((dy as int) * (dy as int) <= 65025) by (nonlinear_arith)
            requires 0 <= (dy as int) <= 255;
    }
    dx * dx + dy * dy
}

/// The fixed-point Euclidean distance between two grid points.
pub open spec fn scaled_distance_spec(a: (u8, u8), b: (u8, u8)) -> int {
    isqrt_spec(1000000 * dist2_spec(a, b))
}

pub proof fn lemma_scaled_distance_bounds(a: (u8, u8), b: (u8, u8))
    ensures
        0 <= scaled_distance_spec(a, b) <= MAX_EDGE,
{
    let d0 = (b.0 as int) - (a.0 as int);
    let d1 = (b.1 as int) - (a.1 as int);
    assert(0 <= d0 * d0 <= 65025) by (nonlinear_arith)
        requires -255 <= d0 <= 255;
    assert(0 <= d1 * d1 <= 65025) by (nonlinear_arith)
        requires -255 <= d1 <= 255;
    lemma_isqrt_spec(1000000 * dist2_spec(a, b));
    let r = isqrt_spec(1000000 * dist2_spec(a, b));
    if r > 360624 {
        assert(r * r >= 360625 * 360625) by (nonlinear_arith)
            requires r >= 360625;
        assert(false);
    }
}

/// Computes the fixed-point Euclidean distance between two grid points.
pub fn scaled_distance(a: (u8, u8), b: (u8, u8)) -> (d: u64)
    ensures
        d == scaled_distance_spec(a, b),
        d <= MAX_EDGE,
{
    let d2 = distance_squared(a, b);
    let r = isqrt(1000000 * (d2 as u64));
    proof {
        lemma_scaled_distance_bounds(a, b);
    }
    r
}

/// The coordinate pair of location `idx` in a flat coordinate buffer.
pub open spec fn coord_of(locs: Seq<u8>, idx: int) -> (u8, u8) {
    (locs[2 * idx], locs[2 * idx + 1])
}

/// The scaled length of the open path through the first `n` genome
/// positions.
pub open spec fn path_length_spec(g: Seq<u8>, locs: Seq<u8>, n: int) -> int
    decreases n,
{
    if n <= 1 {
        0
    } else {
        path_length_spec(g, locs, n - 1) + scaled_distance_spec(
            coord_of(locs, g[n - 2] as int),
            coord_of(locs, g[n - 1] as int),
        )
    }
}

/// The scaled length of the closed tour: the open path plus the edge
/// from the last location back to the first.
pub open spec fn tour_length_spec(g: Seq<u8>, locs: Seq<u8>) -> int
    recommends
        g.len() >= 1,
{
    path_length_spec(g, locs, g.len() as int) + scaled_distance_spec(
        coord_of(locs, g[g.len() - 1] as int),
        coord_of(locs, g[0] as int),
    )
}

proof fn lemma_path_length_bounds(g: Seq<u8>, locs: Seq<u8>, n: int)
    requires
        0 <= n <= g.len(),
    ensures
        0 <= path_length_spec(g, locs, n) <= n * (MAX_EDGE as int),
    decreases n,
{
    if n <= 1 {
        assert(n * (MAX_EDGE as int) >= 0) by (nonlinear_arith)
            requires n >= 0;
    } else {
        lemma_path_length_bounds(g, locs, n - 1);
        lemma_scaled_distance_bounds(
            coord_of(locs, g[n - 2] as int),
            coord_of(locs, g[n - 1] as int),
        );
        assert((n - 1) * (MAX_EDGE as int) + (MAX_EDGE as int) == n * (MAX_EDGE as int))
            by (nonlinear_arith);
    }
}

/// The reciprocal fitness of a tour: `FITNESS_SCALE / tour_length`,
/// and the maximum `FITNESS_SCALE` for a zero-length tour.
pub open spec fn fitness_spec(g: Seq<u8>, locs: Seq<u8>) -> int
    recommends
        g.len() >= 1,
{
    if tour_length_spec(g, locs) == 0 {
        FITNESS_SCALE as int
    } else {
        FITNESS_SCALE as int / tour_length_spec(g, locs)
    }
}

/// Evaluates the reciprocal tour fitness of a genome over a map.  The
/// fitness of a permutation genome is always positive: a tour over at
/// most 255 locations is always far shorter than `FITNESS_SCALE`.
pub fn fitness(genome: &Vec<u8>, map: &TourMap) -> (f: u64)
    requires
        map.wf(),
        genome@.len() >= 1,
        genome@.len() == map.spec_location_count(),
        forall|i: int|
            0 <= i < genome@.len() ==> (#[trigger] genome@[i] as int) < map.spec_location_count(),
    ensures
        f == fitness_spec(genome@, map.locations@),
        f >= 1,
{
    let length = genome.len();
    let mut total: u64 = 0;
    let mut i: usize = 1;
    while i < length
        invariant
            map.wf(),
            length == genome@.len(),
            1 <= length <= 255,
            length == map.spec_location_count(),
            forall|k: int|
                0 <= k < genome@.len() ==> (#[trigger] genome@[k] as int)
                    < map.spec_location_count(),
            1 <= i <= length,
            total == path_length_spec(genome@, map.locations@, i as int),
            total <= (i as int) * (MAX_EDGE as int),
        decreases length - i,
    {
        let c1 = map.coords(genome[i - 1] as usize);
        let c2 = map.coords(genome[i] as usize);
        let d = scaled_distance(c1, c2);
        proof {
            lemma_path_length_bounds(genome@, map.locations@, i as int + 1);
            assert((i as int) * (MAX_EDGE as int) + (MAX_EDGE as int) == (i as int + 1) * (
            MAX_EDGE as int)) by (nonlinear_arith);
        }
        total = total + d;
        i = i + 1;
    }
    let c1 = map.coords(genome[length - 1] as usize);
    let c2 = map.coords(genome[0] as usize);
    let d = scaled_distance(c1, c2);
    proof {
        lemma_path_length_bounds(genome@, map.locations@, length as int);
        assert((length as int) * (MAX_EDGE as int) <= 255 * (MAX_EDGE as int))
            by (nonlinear_arith)
            requires 1 <= (length as int) <= 255;
    }
    let tour = total + d;
    if tour == 0 {
        FITNESS_SCALE
    } else {
        proof {
            assert((FITNESS_SCALE as int) / (tour as int) >= 1) by (nonlinear_arith)
                requires 1 <= (tour as int) <= 255 * (MAX_EDGE as int) + (MAX_EDGE as int);
        }
        FITNESS_SCALE / tour
    }
}

/// The genome with the values at positions `x` and `y` exchanged.
pub open spec fn swapped(g: Seq<u8>, x: int, y: int) -> Seq<u8> {
    g.update(x, g[y]).update(y, g[x])
}

/// A pairwise swap never breaks the permutation invariant.
pub proof fn lemma_swap_preserves_permutation(g: Seq<u8>, x: int, y: int)
    requires
        is_permutation(g),
        0 <= x < g.len(),
        0 <= y < g.len(),
    ensures
        is_permutation(swapped(g, x, y)),
{
    let s = swapped(g, x, y);
    assert(s.len() == g.len());
    assert forall|i: int, j: int|
        0 <= i < s.len() && 0 <= j < s.len() && i != j implies s[i] != s[j] by {
        assert(g.no_duplicates());
    }
    assert(s.no_duplicates());
}

/// Swapping the same two positions twice is an involution: the genome
/// returns to its original value.
pub proof fn lemma_swap_involution(g: Seq<u8>, x: int, y: int)
    requires
        0 <= x < g.len(),
        0 <= y < g.len(),
    ensures
        swapped(swapped(g, x, y), x, y) == g,
{
    assert(swapped(swapped(g, x, y), x, y) =~= g);
}

/// Exchanges the values at two positions of a genome.
fn swap_genes(genome: &mut Vec<u8>, x: usize, y: usize)
    requires
        x < old(genome)@.len(),
        y < old(genome)@.len(),
    ensures
        final(genome)@ == swapped(old(genome)@, x as int, y as int),
{
    let tmp = genome[x];
    let vy = genome[y];
    genome.set(x, vy);
    genome.set(y, tmp);
    proof {
        assert(genome@ =~= swapped(old(genome)@, x as int, y as int));
    }
}

/// Mutates a genome by one pairwise swap of two distinct positions,
/// drawn uniformly with resampling on collision; length and the
/// permutation invariant are always preserved.
pub fn mutate<E: EntropySource>(genome: &mut Vec<u8>, src: &mut E)
    requires
        old(genome)@.len() >= 2,
    ensures
        final(genome)@.len() == old(genome)@.len(),
        exists|x: int, y: int|
            {
                &&& 0 <= x < old(genome)@.len() && 0 <= y < old(genome)@.len()
                &&& x != y
                &&& final(genome)@ == swapped(old(genome)@, x, y)
            },
        is_permutation(old(genome)@) ==> is_permutation(final(genome)@),
{
    let size = genome.len();
    let a = draw_below(src, size as u64) as usize;
    let mut b = a;
    let mut tries: u64 = 0;
    while tries < sampling::RETRY_CAP
        invariant
            size >= 2,
            size == genome@.len(),
            genome@ == old(genome)@,
            a < size,
            b < size,
        decreases sampling::RETRY_CAP - tries,
    {
        b = draw_below(src, size as u64) as usize;
        if b != a {
            break ;
        }
        tries = tries + 1;
    }
    if b == a {
        b = if a + 1 < size {
            a + 1
        } else {
            0
        };
    }
    swap_genes(genome, a, b);
    proof {
        if is_permutation(old(genome)@) {
            lemma_swap_preserves_permutation(old(genome)@, a as int, b as int);
        }
        assert(0 <= (a as int) < old(genome)@.len() && 0 <= (b as int) < old(genome)@.len() && (
        a as int) != (b as int) && final(genome)@ == swapped(old(genome)@, a as int, b as int));
    }
}

/// Generates a uniformly random permutation of `0..size-1` by a full
/// shuffle of the identity.
pub fn generate<E: EntropySource>(size: u8, src: &mut E) -> (genome: Vec<u8>)
    ensures
        genome@.len() == size,
        is_permutation(genome@),
{
    let mut genome: Vec<u8> = Vec::new();
    let mut i: u16 = 0;
    while i < size as u16
        invariant
            0 <= i <= size,
            genome@.len() == i,
            forall|k: int| 0 <= k < i ==> #[trigger] genome@[k] == k as u8,
        decreases size as u16 - i,
    {
        genome.push(i as u8);
        i = i + 1;
    }
    proof {
        assert(is_permutation(genome@));
    }
    let mut k: usize = size as usize;
    while k > 1
        invariant
            genome@.len() == size,
            is_permutation(genome@),
            k <= size,
        decreases k,
    {
        let j = draw_below(src, k as u64) as usize;
        proof {
            lemma_swap_preserves_permutation(genome@, k as int - 1, j as int);
        }
        swap_genes(&mut genome, k - 1, j);
        k = k - 1;
    }
    genome
}

/// A permutation holds every index below its length.
pub proof fn lemma_permutation_contains(g: Seq<u8>, v: int)
    requires
        is_permutation(g),
        0 <= v < g.len(),
    ensures
        g.contains(v as u8),
{
    broadcast use vstd::set::group_set_axioms;

    let t = Seq::new(g.len(), |i: int| g[i] as int);
    assert(t.no_duplicates());
    t.unique_seq_to_set();
    vstd::set_lib::lemma_int_range(0, g.len() as int);
    let r = vstd::set_lib::set_int_range(0, g.len() as int);
    assert(t.to_set().subset_of(r));
    vstd::set_lib::lemma_len_subset(t.to_set(), r);
    vstd::set_lib::lemma_subset_equality(t.to_set(), r);
    assert(r.contains(v));
    assert(t.to_set().contains(v));
    let i = choose|i: int| 0 <= i < t.len() && t[i] == v;
    assert(g[i] == v as u8);
}

/// The predicate that keeps a parent-B value: it does not occur in the
/// transplanted segment `a[start..end]`.
pub open spec fn keep_pred(a: Seq<u8>, start: int, end: int) -> spec_fn(u8) -> bool {
    |v: u8| !a.subrange(start, end).contains(v)
}

/// Parent B's values outside the transplanted segment, in parent B's
/// own order.
pub open spec fn ox_keep(a: Seq<u8>, b: Seq<u8>, start: int, end: int) -> Seq<u8> {
    b.filter(keep_pred(a, start, end))
}

/// The order-preserving crossover child: parent A's segment verbatim at
/// `[start, end)`, and the remaining positions filled in index order
/// with parent B's not-yet-used values, keeping their relative order.
pub open spec fn ox_child_spec(a: Seq<u8>, b: Seq<u8>, start: int, end: int) -> Seq<u8> {
    ox_keep(a, b, start, end).take(start) + a.subrange(start, end) + ox_keep(
        a,
        b,
        start,
        end,
    ).skip(start)
}

/// How many non-segment child positions lie before position `i`.
pub open spec fn filled_before(i: int, start: int, end: int) -> int {
    if i <= start {
        i
    } else if i <= end {
        start
    } else {
        start + (i - end)
    }
}

proof fn lemma_filter_take_step(s: Seq<u8>, pred: spec_fn(u8) -> bool, k: int)
    requires
        0 <= k < s.len(),
    ensures
        s.take(k + 1).filter(pred) == if pred(s[k]) {
            s.take(k).filter(pred).push(s[k])
        } else {
            s.take(k).filter(pred)
        },
{
    reveal(Seq::filter);
    let x = s.take(k);
    let t = s.take(k + 1);
    assert(t =~= x.push(s[k]));
    assert(t.drop_last() =~= x);
    assert(t.last() == s[k]);
}

proof fn lemma_filter_split(s: Seq<u8>, pred: spec_fn(u8) -> bool, k: int)
    requires
        0 <= k <= s.len(),
    ensures
        s.filter(pred) == s.take(k).filter(pred) + s.skip(k).filter(pred),
{
    assert(s =~= s.take(k) + s.skip(k));
    Seq::filter_distributes_over_add(s.take(k), s.skip(k), pred);
}

proof fn lemma_filter_no_dup(s: Seq<u8>, pred: spec_fn(u8) -> bool)
    requires
        s.no_duplicates(),
    ensures
        s.filter(pred).no_duplicates(),
    decreases s.len(),
{
    reveal(Seq::filter);
    if s.len() > 0 {
        let x = s.drop_last();
        let last = s.last();
        assert(x.no_duplicates());
        lemma_filter_no_dup(x, pred);
        if pred(last) {
            let f = x.filter(pred);
            if f.contains(last) {
                x.lemma_filter_contains_rev(pred, last);
                let q = choose|q: int| 0 <= q < x.len() && x[q] == last;
                assert(s[q] == s[s.len() - 1]);
                assert(false);
            }
            assert forall|i: int, j: int|
                0 <= i < f.push(last).len() && 0 <= j < f.push(last).len() && i
                    != j implies f.push(last)[i] != f.push(last)[j] by {
                if i < f.len() && j < f.len() {
                    assert(f[i] != f[j]);
                } else if i < f.len() {
                    assert(f.contains(f[i]));
                } else if j < f.len() {
                    assert(f.contains(f[j]));
                }
            }
            assert(s.filter(pred) =~= f.push(last));
        }
    }
}

/// The kept part of parent B has exactly the length of what the
/// segment leaves free: parent B holds each value once, and every
/// segment value occurs in it.
proof fn lemma_keep_len(a: Seq<u8>, b: Seq<u8>, start: int, end: int)
    requires
        a.no_duplicates(),
        b.no_duplicates(),
        a.len() == b.len(),
        forall|v: u8| a.contains(v) ==> #[trigger] b.contains(v),
        0 <= start <= end <= a.len(),
    ensures
        ox_keep(a, b, start, end).len() == b.len() - (end - start),
{
    broadcast use vstd::set::group_set_axioms;

    let seg = a.subrange(start, end);
    let pred = keep_pred(a, start, end);
    let inseg_pred: spec_fn(u8) -> bool = |v: u8| seg.contains(v);
    let inseg = b.filter(inseg_pred);
    lemma_filter_partition(b, inseg_pred, pred);

    assert(seg.no_duplicates());
    lemma_filter_no_dup(b, inseg_pred);
    inseg.unique_seq_to_set();
    seg.unique_seq_to_set();

    assert forall|x: u8| inseg.to_set().contains(x) implies seg.to_set().contains(x) by {
        let i = choose|i: int| 0 <= i < inseg.len() && inseg[i] == x;
        b.lemma_filter_pred(inseg_pred, i);
    }
    assert forall|x: u8| seg.to_set().contains(x) implies inseg.to_set().contains(x) by {
        let k = choose|k: int| 0 <= k < seg.len() && seg[k] == x;
        assert(a[start + k] == x);
        assert(a.contains(x));
        assert(b.contains(x));
        let q = choose|q: int| 0 <= q < b.len() && b[q] == x;
        assert(inseg_pred(b[q]));
        b.lemma_filter_contains(inseg_pred, q);
    }
    assert(inseg.to_set() =~= seg.to_set());
    assert(inseg.len() == seg.len());
}

proof fn lemma_filter_partition(s: Seq<u8>, p: spec_fn(u8) -> bool, q: spec_fn(u8) -> bool)
    requires
        forall|x: u8| #[trigger] q(x) <==> !p(x),
    ensures
        s.filter(p).len() + s.filter(q).len() == s.len(),
    decreases s.len(),
{
    reveal(Seq::filter);
    if s.len() > 0 {
        lemma_filter_partition(s.drop_last(), p, q);
    }
}

/// The crossover child of two permutations is a permutation: every
/// value appears exactly once, because the fill consumes parent B's
/// values in order while skipping those of the transplanted segment.
pub proof fn lemma_ox_child_permutation(a: Seq<u8>, b: Seq<u8>, start: int, end: int)
    requires
        a.no_duplicates(),
        b.no_duplicates(),
        a.len() == b.len(),
        forall|v: u8| a.contains(v) ==> #[trigger] b.contains(v),
        0 <= start <= end <= a.len(),
    ensures
        ox_child_spec(a, b, start, end).len() == a.len(),
        ox_child_spec(a, b, start, end).no_duplicates(),
        forall|i: int|
            0 <= i < a.len() ==> b.contains(#[trigger] ox_child_spec(a, b, start, end)[i]),
        is_permutation(a) && is_permutation(b) ==> is_permutation(ox_child_spec(a, b, start, end)),
{
    let n = a.len() as int;
    let seg = a.subrange(start, end);
    let pred = keep_pred(a, start, end);
    let keep = ox_keep(a, b, start, end);
    let child = ox_child_spec(a, b, start, end);
    lemma_keep_len(a, b, start, end);
    lemma_filter_no_dup(b, pred);
    assert(child.len() == n);

    assert forall|i: int| 0 <= i < n implies b.contains(#[trigger] child[i]) by {
        if i < start {
            assert(child[i] == keep[i]);
            keep_elem_in_b(a, b, start, end, i);
        } else if i < end {
            assert(child[i] == a[i]);
            assert(a.contains(a[i]));
        } else {
            assert(child[i] == keep[start + i - end]);
            keep_elem_in_b(a, b, start, end, start + i - end);
        }
    }

    assert forall|i: int, j: int|
        0 <= i < n && 0 <= j < n && i != j implies child[i] != child[j] by {
        let ki = child_keep_index(i, start, end);
        let kj = child_keep_index(j, start, end);
        if start <= i < end && start <= j < end {
            assert(child[i] == a[i] && child[j] == a[j]);
        } else if start <= i < end {
            assert(child[j] == keep[kj]);
            b.lemma_filter_pred(pred, kj);
            assert(seg.contains(a[i])) by {
                assert(seg[i - start] == a[i]);
            }
            assert(child[i] == a[i]);
        } else if start <= j < end {
            assert(child[i] == keep[ki]);
            b.lemma_filter_pred(pred, ki);
            assert(seg.contains(a[j])) by {
                assert(seg[j - start] == a[j]);
            }
            assert(child[j] == a[j]);
        } else {
            assert(child[i] == keep[ki] && child[j] == keep[kj]);
            assert(ki != kj);
            assert(keep[ki] != keep[kj]);
        }
    }

    if is_permutation(a) && is_permutation(b) {
        assert forall|i: int| 0 <= i < n implies (#[trigger] child[i] as int) < n by {
            assert(b.contains(child[i]));
            let q = choose|q: int| 0 <= q < b.len() && b[q] == child[i];
            assert((b[q] as int) < b.len());
        }
    }
}

/// The keep index that fills child position `i` outside the segment.
spec fn child_keep_index(i: int, start: int, end: int) -> int {
    if i < start {
        i
    } else {
        start + i - end
    }
}

proof fn keep_elem_in_b(a: Seq<u8>, b: Seq<u8>, start: int, end: int, k: int)
    requires
        0 <= k < ox_keep(a, b, start, end).len(),
    ensures
        b.contains(ox_keep(a, b, start, end)[k]),
{
    let keep = ox_keep(a, b, start, end);
    assert(keep.contains(keep[k]));
    b.lemma_filter_contains_rev(keep_pred(a, start, end), keep[k]);
}

/// Chooses the crossover segment: `start` uniform over `[0, length-1)`
/// and a width of at least 2 and at most `length - start`, as a raw
/// draw reduced by a modulus with the excess below 2 saturated away.
pub fn gen_crossover_range<E: EntropySource>(length: usize, src: &mut E) -> (r: (usize, usize))
    requires
        2 <= length <= 255,
    ensures
        r.0 < length - 1,
        r.0 + 2 <= r.1 <= length,
{
    let start = draw_below(src, (length - 1) as u64) as usize;
    let remaining_width = length - start;
    let w0 = draw_below(src, (remaining_width + 1) as u64) as usize;
    let width = 2 + (if w0 > 2 {
        w0 - 2
    } else {
        0
    });
    (start, start + width)
}

/// Order-preserving segment crossover: one child from two parents.  A
/// contiguous segment of parent A is copied verbatim; the other
/// positions take parent B's remaining values in parent B's order.
/// The child is always a valid permutation.
pub fn crossover<E: EntropySource>(a: &Vec<u8>, b: &Vec<u8>, src: &mut E) -> (child: Vec<u8>)
    requires
        a@.len() == b@.len(),
        2 <= a@.len() <= 255,
        a@.no_duplicates(),
        b@.no_duplicates(),
        forall|v: u8| a@.contains(v) ==> #[trigger] b@.contains(v),
    ensures
        child@.len() == a@.len(),
        child@.no_duplicates(),
        forall|i: int| 0 <= i < child@.len() ==> b@.contains(#[trigger] child@[i]),
        is_permutation(a@) && is_permutation(b@) ==> is_permutation(child@),
        exists|start: int, end: int|
            {
                &&& 0 <= start
                &&& start + 2 <= end <= a@.len()
                &&& child@ == ox_child_spec(a@, b@, start, end)
            },
{
    let size = a.len();
    let (start, end) = gen_crossover_range(size, src);
    let ghost gstart = start as int;
    let ghost gend = end as int;
    let ghost seg = a@.subrange(gstart, gend);
    let ghost pred = keep_pred(a@, gstart, gend);
    let ghost keep = ox_keep(a@, b@, gstart, gend);
    proof {
        lemma_keep_len(a@, b@, gstart, gend);
        lemma_filter_no_dup(b@, pred);
        assert(seg.no_duplicates());
    }

    let mut used: Vec<bool> = Vec::new();
    let mut v: usize = 0;
    while v < 256
        invariant
            0 <= v <= 256,
            used@.len() == v,
            forall|m: int| 0 <= m < v ==> #[trigger] used@[m] == false,
        decreases 256 - v,
    {
        used.push(false);
        v = v + 1;
    }

    let mut k: usize = start;
    while k < end
        invariant
            size == a@.len(),
            2 <= size <= 255,
            a@.no_duplicates(),
            gstart == start as int,
            gend == end as int,
            start <= k <= end <= size,
            used@.len() == 256,
            forall|m: int|
                0 <= m < 256 ==> #[trigger] used@[m] == a@.subrange(gstart, k as int).contains(
                    m as u8,
                ),
        decreases end - k,
    {
        proof {
            assert(a@.subrange(gstart, k as int + 1) =~= a@.subrange(gstart, k as int).push(
                a@[k as int],
            ));
        }
        let val = a[k];
        used.set(val as usize, true);
        proof {
            let snew = a@.subrange(gstart, k as int + 1);
            let sold = a@.subrange(gstart, k as int);
            assert forall|m: int| 0 <= m < 256 implies #[trigger] used@[m] == snew.contains(
                m as u8,
            ) by {
                if m == val as int {
                    assert(snew[snew.len() - 1] == val);
                    assert(snew.contains(m as u8));
                } else {
                    if snew.contains(m as u8) {
                        let q = choose|q: int| 0 <= q < snew.len() && snew[q] == m as u8;
                        assert((m as u8) as int == m);
                        assert(q < sold.len());
                        assert(sold[q] == m as u8);
                        assert(sold.contains(m as u8));
                    }
                    if sold.contains(m as u8) {
                        let q = choose|q: int| 0 <= q < sold.len() && sold[q] == m as u8;
                        assert(snew[q] == m as u8);
                        assert(snew.contains(m as u8));
                    }
                }
            }
        }
        k = k + 1;
    }

    let mut result: Vec<u8> = Vec::new();
    let mut b_index: usize = 0;
    let mut i: usize = 0;
    while i < size
        invariant
            size == a@.len() == b@.len(),
            2 <= size <= 255,
            a@.no_duplicates(),
            b@.no_duplicates(),
            forall|v: u8| a@.contains(v) ==> #[trigger] b@.contains(v),
            gstart == start as int,
            gend == end as int,
            0 <= gstart,
            gstart + 2 <= gend <= size,
            start < size,
            seg == a@.subrange(gstart, gend),
            pred == keep_pred(a@, gstart, gend),
            keep == ox_keep(a@, b@, gstart, gend),
            keep.len() == size - (gend - gstart),
            keep.no_duplicates(),
            seg.no_duplicates(),
            used@.len() == 256,
            0 <= i <= size,
            0 <= b_index <= size,
            result@.len() == i,
            filled_before(i as int, gstart, gend) <= keep.len(),
            b@.take(b_index as int).filter(pred) == keep.take(
                filled_before(i as int, gstart, gend),
            ),
            forall|m: int|
                0 <= m < 256 ==> #[trigger] used@[m] == (seg.contains(m as u8) || keep.take(
                    filled_before(i as int, gstart, gend),
                ).contains(m as u8)),
            forall|m: int|
                0 <= m < i && gstart <= m < gend ==> #[trigger] result@[m] == a@[m],
            forall|m: int| 0 <= m < i && m < gstart ==> #[trigger] result@[m] == keep[m],
            forall|m: int|
                0 <= m < i && m >= gend ==> #[trigger] result@[m] == keep[gstart + m - gend],
        decreases size - i,
    {
        let ghost c = filled_before(i as int, gstart, gend);
        if start <= i && i < end {
            result.push(a[i]);
            proof {
                assert(filled_before(i as int + 1, gstart, gend) == c);
            }
        } else {
            proof {
                assert(c < keep.len());
                lemma_filter_split(b@, pred, b_index as int);
                assert(keep == b@.take(b_index as int).filter(pred) + b@.skip(
                    b_index as int,
                ).filter(pred));
                assert(b@.skip(b_index as int).filter(pred).len() == keep.len() - c);
                let rest = b@.skip(b_index as int).filter(pred);
                assert(rest.len() > 0);
                assert(rest.contains(rest[0]));
                b@.skip(b_index as int).lemma_filter_contains_rev(pred, rest[0]);
                let ri = choose|ri: int|
                    0 <= ri < b@.skip(b_index as int).len() && b@.skip(b_index as int)[ri]
                        == rest[0];
                assert(pred(rest[0])) by {
                    b@.skip(b_index as int).lemma_filter_pred(pred, 0);
                }
                let p0 = b_index as int + ri;
                assert(b@[p0] == rest[0]);
                if keep.take(c).contains(b@[p0]) {
                    b@.take(b_index as int).lemma_filter_contains_rev(pred, b@[p0]);
                    let q = choose|q: int|
                        0 <= q < b@.take(b_index as int).len() && b@.take(b_index as int)[q]
                            == b@[p0];
                    assert(b@[q] == b@[p0] && q != p0);
                    assert(false);
                }
                assert(b_index as int <= p0 < size as int && !(seg.contains(b@[p0]) || keep.take(
                    c,
                ).contains(b@[p0])));
            }
            let ghost p = choose|p: int|
                b_index as int <= p < size as int && !(seg.contains(b@[p]) || keep.take(
                    c,
                ).contains(b@[p]));
            while used[b[b_index]as usize]
                invariant
                    size == b@.len(),
                    b@.no_duplicates(),
                    used@.len() == 256,
                    b_index as int <= p < size as int,
                    !(seg.contains(b@[p]) || keep.take(c).contains(b@[p])),
                    c == filled_before(i as int, gstart, gend),
                    c < keep.len(),
                    pred == keep_pred(a@, gstart, gend),
                    keep == ox_keep(a@, b@, gstart, gend),
                    seg == a@.subrange(gstart, gend),
                    b@.take(b_index as int).filter(pred) == keep.take(c),
                    forall|m: int|
                        0 <= m < 256 ==> #[trigger] used@[m] == (seg.contains(m as u8)
                            || keep.take(c).contains(m as u8)),
                decreases p - b_index,
            {
                proof {
                    let bv = b@[b_index as int];
                    assert(used@[bv as int]);
                    if keep.take(c).contains(bv) {
                        b@.take(b_index as int).lemma_filter_contains_rev(pred, bv);
                        let q = choose|q: int|
                            0 <= q < b@.take(b_index as int).len() && b@.take(b_index as int)[q]
                                == bv;
                        assert(b@[q] == b@[b_index as int] && q != b_index as int);
                        assert(false);
                    }
                    assert(seg.contains(bv));
                    assert(!pred(bv));
                    lemma_filter_take_step(b@, pred, b_index as int);
                    assert(b_index as int != p);
                }
                b_index = b_index + 1;
            }
            let val = b[b_index];
            proof {
                let bv = b@[b_index as int];
                assert(!used@[bv as int]);
                assert(pred(bv));
                lemma_filter_take_step(b@, pred, b_index as int);
                assert(b@.take(b_index as int + 1).filter(pred) == keep.take(c).push(bv));
                lemma_filter_split(b@, pred, b_index as int + 1);
                assert(keep == keep.take(c).push(bv) + b@.skip(b_index as int + 1).filter(pred));
                assert(keep[c] == bv);
                assert(keep.take(c + 1) =~= keep.take(c).push(bv));
                assert(filled_before(i as int + 1, gstart, gend) == c + 1);
            }
            result.push(val);
            used.set(val as usize, true);
            b_index = b_index + 1;
        }
        i = i + 1;
    }
    proof {
        lemma_ox_child_permutation(a@, b@, gstart, gend);
        let child = ox_child_spec(a@, b@, gstart, gend);
        assert forall|m: int| 0 <= m < size as int implies result@[m] == child[m] by {
            if m < gstart {
                assert(child[m] == keep[m]);
            } else if m < gend {
                assert(child[m] == a@[m]);
            } else {
                assert(child[m] == keep[gstart + m - gend]);
            }
        }
        assert(result@ =~= child);
    }
    result
}

/// One parent's worth of the flat population buffer: genome `i` of
/// genomes of `gs` elements each.
pub open spec fn chunk_of(population: Seq<u8>, gs: int, i: int) -> Seq<u8> {
    population.subrange(i * gs, (i + 1) * gs)
}

/// Draws two distinct parents from a flat population buffer,
/// fitness-proportionally, and returns their concatenation.  Fails
/// with `InsufficientDiversity` exactly when at most one member has
/// positive fitness.
pub fn select<E: EntropySource>(population: &Vec<u8>, fitnesses: &Vec<u64>, src: &mut E) -> (r:
    Result<Vec<u8>, GaError>)
    requires
        fitnesses@.len() >= 1,
        population@.len() == fitnesses@.len() * (population@.len() / fitnesses@.len()),
    ensures
        match r {
            Ok(pair) => {
                &&& sampling::positive_count(fitnesses@, fitnesses@.len() as int) >= 2
                &&& exists|i: int, j: int|
                    {
                        &&& 0 <= i < fitnesses@.len() && 0 <= j < fitnesses@.len()
                        &&& i != j
                        &&& fitnesses@[i] > 0 && fitnesses@[j] > 0
                        &&& pair@ == chunk_of(
                            population@,
                            population@.len() as int / fitnesses@.len() as int,
                            i,
                        ) + chunk_of(
                            population@,
                            population@.len() as int / fitnesses@.len() as int,
                            j,
                        )
                    }
            },
            Err(e) => {
                &&& e == GaError::InsufficientDiversity
                &&& sampling::positive_count(fitnesses@, fitnesses@.len() as int) <= 1
            },
        },
{
    let n = fitnesses.len();
    let genome_size = population.len() / n;
    match sampling::select_two(fitnesses, src) {
        Ok(pair) => {
            let first = copy_chunk(population, genome_size, pair.0, n);
            let mut result = first;
            let second = copy_chunk(population, genome_size, pair.1, n);
            let mut s: usize = 0;
            while s < second.len()
                invariant
                    0 <= s <= second@.len(),
                    result@ == first@ + second@.take(s as int),
                decreases second@.len() - s,
            {
                result.push(second[s]);
                proof {
                    assert(result@ =~= first@ + second@.take(s as int + 1));
                }
                s = s + 1;
            }
            proof {
                assert(second@.take(second@.len() as int) =~= second@);
                assert(result@ == chunk_of(population@, genome_size as int, pair.0 as int)
                    + chunk_of(population@, genome_size as int, pair.1 as int));
            }
            Ok(result)
        },
        Err(e) => Err(e),
    }
}

/// Copies genome `i` out of a flat population buffer of `n` genomes.
fn copy_chunk(population: &Vec<u8>, genome_size: usize, i: usize, n: usize) -> (c: Vec<u8>)
    requires
        i < n,
        n >= 1,
        population@.len() == n * genome_size,
    ensures
        c@ == chunk_of(population@, genome_size as int, i as int),
{
    proof {
        assert((i as int) * (genome_size as int) + (genome_size as int) <= (n as int) * (
        genome_size as int)) by (nonlinear_arith)
            requires 0 <= (i as int) < (n as int), 0 <= (genome_size as int);
        assert((i as int) * (genome_size as int) >= 0) by (nonlinear_arith)
            requires 0 <= (i as int), 0 <= (genome_size as int);
        assert((i as int + 1) * (genome_size as int) == (i as int) * (genome_size as int) + (
        genome_size as int)) by (nonlinear_arith);
    }
    let pl = population.len();
    let base = i * genome_size;
    let mut c: Vec<u8> = Vec::new();
    let mut k: usize = 0;
    while k < genome_size
        invariant
            population@.len() == n * genome_size,
            pl == population@.len(),
            (i as int) * (genome_size as int) + (genome_size as int) <= population@.len(),
            base == (i as int) * (genome_size as int),
            0 <= k <= genome_size,
            c@.len() == k,
            forall|m: int| 0 <= m < k ==> #[trigger] c@[m] == population@[base + m],
        decreases genome_size - k,
    {
        c.push(population[base + k]);
        k = k + 1;
    }
    proof {
        assert((i as int + 1) * (genome_size as int) == (i as int) * (genome_size as int) + (
        genome_size as int)) by (nonlinear_arith);
        assert(c@ =~= chunk_of(population@, genome_size as int, i as int));
    }
    c
}

} // verus!
