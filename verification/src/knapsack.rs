//! The 0/1 knapsack solver: binary chromosones, one gene per item.
//! Fitness is the summed value of the selected items, or zero when the
//! selected weight exceeds the capacity, so infeasible solutions lose
//! all reproductive weight without being removed from the population.

use vstd::prelude::*;
use crate::entropy::EntropySource;
use crate::entropy::draw_below;
use crate::entropy::happens;
use crate::items::Item;
use crate::population::is_binary;
use crate::sampling;
use crate::GaError;
use crate::Probability;

verus! {

/// The selected weight of the first `n` genes: `sum gene[i] * weight[i]`.
pub open spec fn weight_sum(g: Seq<u8>, items: Seq<Item>, n: int) -> int
    decreases n,
{
    if n <= 0 {
        0
    } else {
        weight_sum(g, items, n - 1) + g[n - 1] * items[n - 1].weight
    }
}

/// The selected value of the first `n` genes: `sum gene[i] * value[i]`.
pub open spec fn value_sum(g: Seq<u8>, items: Seq<Item>, n: int) -> int
    decreases n,
{
    if n <= 0 {
        0
    } else {
        value_sum(g, items, n - 1) + g[n - 1] * items[n - 1].value
    }
}

/// The weight of every item together, selected or not.
pub open spec fn items_weight_total(items: Seq<Item>, n: int) -> int
    decreases n,
{
    if n <= 0 {
        0
    } else {
        items_weight_total(items, n - 1) + items[n - 1].weight
    }
}

/// The value of every item together.
pub open spec fn items_value_total(items: Seq<Item>, n: int) -> int
    decreases n,
{
    if n <= 0 {
        0
    } else {
        items_value_total(items, n - 1) + items[n - 1].value
    }
}

/// What a chromosone is worth: zero whenever the selected weight
/// exceeds the capacity, regardless of the selected value; otherwise
/// the selected value.
pub open spec fn fitness_spec(g: Seq<u8>, items: Seq<Item>, max_weight: u32) -> int {
    if weight_sum(g, items, g.len() as int) > max_weight {
        0
    } else {
        value_sum(g, items, g.len() as int)
    }
}

/// A binary gene contributes at most the whole item to either sum.
proof fn lemma_sums_bounded(g: Seq<u8>, items: Seq<Item>, n: int)
    requires
        0 <= n <= g.len(),
        g.len() == items.len(),
        is_binary(g),
    ensures
        0 <= weight_sum(g, items, n) <= items_weight_total(items, n),
        0 <= value_sum(g, items, n) <= items_value_total(items, n),
    decreases n,
{
    if n > 0 {
        lemma_sums_bounded(g, items, n - 1);
        assert(g[n - 1] == 0 || g[n - 1] == 1);
        assert(g[n - 1] * items[n - 1].weight >= 0) by (nonlinear_arith);
        assert(g[n - 1] * items[n - 1].value >= 0) by (nonlinear_arith);
        assert(g[n - 1] <= 1 ==> g[n - 1] * items[n - 1].weight <= items[n - 1].weight)
            by (nonlinear_arith);
        assert(g[n - 1] <= 1 ==> g[n - 1] * items[n - 1].value <= items[n - 1].value)
            by (nonlinear_arith);
    }
}

/// Item totals grow with the prefix.
proof fn lemma_totals_mono(items: Seq<Item>, m: int, n: int)
    requires
        0 <= m <= n <= items.len(),
    ensures
        items_weight_total(items, m) <= items_weight_total(items, n),
        items_value_total(items, m) <= items_value_total(items, n),
    decreases n - m,
{
    if m < n {
        lemma_totals_mono(items, m, n - 1);
    }
}

/// With no items there is nothing to select: every fitness is zero.
/// This is why a knapsack run over an empty item list reports a best
/// fitness of zero every generation, without error.
pub proof fn lemma_no_items_fitness_zero(g: Seq<u8>, items: Seq<Item>, max_weight: u32)
    requires
        g.len() == 0,
        items.len() == 0,
    ensures
        fitness_spec(g, items, max_weight) == 0,
{
}

/// Evaluates one chromosone against the items and the weight capacity.
/// The item totals must fit in `u32` so no intermediate sum overflows.
pub fn fitness(chromosone: &Vec<u8>, items: &Vec<Item>, max_weight: u32) -> (r: u32)
    requires
        chromosone@.len() == items@.len(),
        is_binary(chromosone@),
        items_weight_total(items@, items@.len() as int) <= u32::MAX,
        items_value_total(items@, items@.len() as int) <= u32::MAX,
    ensures
        r == fitness_spec(chromosone@, items@, max_weight),
{
    let n = chromosone.len();
    let mut total_weight: u32 = 0;
    let mut i: usize = 0;
    while i < n
        invariant
            n == chromosone@.len() == items@.len(),
            is_binary(chromosone@),
            items_weight_total(items@, n as int) <= u32::MAX,
            0 <= i <= n,
            total_weight == weight_sum(chromosone@, items@, i as int),
        decreases n - i,
    {
        proof {
            lemma_sums_bounded(chromosone@, items@, i as int + 1);
            lemma_totals_mono(items@, i as int + 1, n as int);
            assert(chromosone@[i as int] * items@[i as int].weight == if chromosone@[i as int]
                == 1 {
                items@[i as int].weight as int
            } else {
                0
            }) by (nonlinear_arith)
                requires chromosone@[i as int] <= 1;
        }
        if chromosone[i] == 1 {
            total_weight = total_weight + items[i].weight;
        }
        i = i + 1;
    }

    if total_weight > max_weight {
        return 0;
    }

    let mut total_value: u32 = 0;
    let mut k: usize = 0;
    while k < n
        invariant
            n == chromosone@.len() == items@.len(),
            is_binary(chromosone@),
            items_value_total(items@, n as int) <= u32::MAX,
            0 <= k <= n,
            total_value == value_sum(chromosone@, items@, k as int),
        decreases n - k,
    {
        proof {
            lemma_sums_bounded(chromosone@, items@, k as int + 1);
            lemma_totals_mono(items@, k as int + 1, n as int);
            assert(chromosone@[k as int] * items@[k as int].value == if chromosone@[k as int]
                == 1 {
                items@[k as int].value as int
            } else {
                0
            }) by (nonlinear_arith)
                requires chromosone@[k as int] <= 1;
        }
        if chromosone[k] == 1 {
            total_value = total_value + items[k].value;
        }
        k = k + 1;
    }
    total_value
}

/// An owned copy of a chromosone.
pub fn copy_genome(v: &Vec<u8>) -> (r: Vec<u8>)
    ensures
        r@ == v@,
{
    let mut r: Vec<u8> = Vec::new();
    let mut i: usize = 0;
    while i < v.len()
        invariant
            0 <= i <= v@.len(),
            r@ == v@.take(i as int),
        decreases v@.len() - i,
    {
        r.push(v[i]);
        proof {
            assert(r@ =~= v@.take(i as int + 1));
        }
        i = i + 1;
    }
    proof {
        assert(r@ =~= v@);
    }
    r
}

/// How many of the first `n` fitness values are strictly positive.
pub open spec fn positive_fitness_count(f: Seq<u32>, n: int) -> int
    decreases n,
{
    if n <= 0 {
        0
    } else {
        positive_fitness_count(f, n - 1) + if f[n - 1] > 0 { 1int } else { 0int }
    }
}

proof fn lemma_positive_count_cast(f: Seq<u32>, w: Seq<u64>, n: int)
    requires
        0 <= n <= f.len(),
        f.len() == w.len(),
        forall|i: int| 0 <= i < w.len() ==> w[i] == #[trigger] f[i] as u64,
    ensures
        sampling::positive_count(w, n) == positive_fitness_count(f, n),
    decreases n,
{
    if n > 0 {
        lemma_positive_count_cast(f, w, n - 1);
    }
}

/// Draws two distinct parents, fitness-proportionally, returning owned
/// copies.  Fails with `InsufficientDiversity` exactly when at most one
/// population member has positive fitness.
pub fn select<E: EntropySource>(
    population: &Vec<Vec<u8>>,
    fitness: &Vec<u32>,
    src: &mut E,
) -> (r: Result<(Vec<u8>, Vec<u8>), GaError>)
    requires
        population@.len() == fitness@.len(),
    ensures
        match r {
            Ok(p) => {
                &&& positive_fitness_count(fitness@, fitness@.len() as int) >= 2
                &&& exists|i: int, j: int|
                    {
                        &&& 0 <= i < population@.len() && 0 <= j < population@.len()
                        &&& i != j
                        &&& fitness@[i] > 0 && fitness@[j] > 0
                        &&& p.0@ == #[trigger] population@[i]@ && p.1@
                            == #[trigger] population@[j]@
                    }
            },
            Err(e) => {
                &&& e == GaError::InsufficientDiversity
                &&& positive_fitness_count(fitness@, fitness@.len() as int) <= 1
            },
        },
{
    let n = fitness.len();
    let mut weights: Vec<u64> = Vec::new();
    let mut i: usize = 0;
    while i < n
        invariant
            n == fitness@.len(),
            0 <= i <= n,
            weights@.len() == i,
            forall|k: int| 0 <= k < i ==> weights@[k] == #[trigger] fitness@[k] as u64,
        decreases n - i,
    {
        weights.push(fitness[i] as u64);
        i = i + 1;
    }
    proof {
        lemma_positive_count_cast(fitness@, weights@, n as int);
    }
    match sampling::select_two(&weights, src) {
        Ok(pair) => {
            let first = copy_genome(&population[pair.0]);
            let second = copy_genome(&population[pair.1]);
            Ok((first, second))
        },
        Err(e) => Err(e),
    }
}

/// Splices two chromosones at one uniformly drawn cut point, with
/// probability equal to the crossover rate; otherwise both children are
/// exact clones of the two parents.  A crossover rate of zero therefore
/// always returns exact clones.
pub fn crossover<E: EntropySource>(
    a: &Vec<u8>,
    b: &Vec<u8>,
    crossover_rate: Probability,
    src: &mut E,
) -> (c: (Vec<u8>, Vec<u8>))
    requires
        a@.len() == b@.len(),
        crossover_rate.wf(),
    ensures
        c.0@.len() == a@.len() && c.1@.len() == a@.len(),
        exists|cut: int|
            {
                &&& 0 <= cut <= a@.len()
                &&& c.0@ == a@.take(cut) + b@.skip(cut)
                &&& c.1@ == b@.take(cut) + a@.skip(cut)
            },
        crossover_rate.ppm == 0 ==> c.0@ == a@ && c.1@ == b@,
        crossover_rate.ppm == crate::PPM_ONE && a@.len() > 0 ==> exists|cut: int|
            {
                &&& 0 <= cut < a@.len()
                &&& c.0@ == a@.take(cut) + b@.skip(cut)
                &&& c.1@ == b@.take(cut) + a@.skip(cut)
            },
        is_binary(a@) && is_binary(b@) ==> is_binary(c.0@) && is_binary(c.1@),
{
    let n = a.len();
    if n > 0 && happens(crossover_rate, src) {
        let cut = draw_below(src, n as u64) as usize;
        let mut child1: Vec<u8> = Vec::new();
        let mut child2: Vec<u8> = Vec::new();
        let mut i: usize = 0;
        while i < n
            invariant
                n == a@.len() == b@.len(),
                0 <= cut < n,
                0 <= i <= n,
                child1@.len() == i && child2@.len() == i,
                forall|k: int|
                    0 <= k < i ==> #[trigger] child1@[k] == if k < cut {
                        a@[k]
                    } else {
                        b@[k]
                    },
                forall|k: int|
                    0 <= k < i ==> #[trigger] child2@[k] == if k < cut {
                        b@[k]
                    } else {
                        a@[k]
                    },
            decreases n - i,
        {
            if i < cut {
                child1.push(a[i]);
                child2.push(b[i]);
            } else {
                child1.push(b[i]);
                child2.push(a[i]);
            }
            i = i + 1;
        }
        proof {
            assert(child1@ =~= a@.take(cut as int) + b@.skip(cut as int));
            assert(child2@ =~= b@.take(cut as int) + a@.skip(cut as int));
        }
        (child1, child2)
    } else {
        let c = (copy_genome(a), copy_genome(b));
        proof {
            let cut = a@.len() as int;
            assert(c.0@ =~= a@.take(cut) + b@.skip(cut));
            assert(c.1@ =~= b@.take(cut) + a@.skip(cut));
        }
        c
    }
}

/// The perturbed form of one binary gene: `|gene - 1|`, a toggle of
/// zero and one.
pub open spec fn flipped(gene: u8) -> u8 {
    if gene == 0 {
        1u8
    } else {
        (gene - 1) as u8
    }
}

/// Perturbs each gene independently with probability equal to the
/// mutation rate; a rate of zero leaves the chromosone unchanged.
pub fn mutate<E: EntropySource>(chromosone: &mut Vec<u8>, mutation_rate: Probability, src: &mut E)
    requires
        mutation_rate.wf(),
    ensures
        final(chromosone)@.len() == old(chromosone)@.len(),
        forall|i: int|
            0 <= i < old(chromosone)@.len() ==> {
                ||| #[trigger] final(chromosone)@[i] == old(chromosone)@[i]
                ||| final(chromosone)@[i] == flipped(old(chromosone)@[i])
            },
        mutation_rate.ppm == 0 ==> final(chromosone)@ == old(chromosone)@,
        mutation_rate.ppm == crate::PPM_ONE ==> forall|i: int|
            0 <= i < old(chromosone)@.len() ==> #[trigger] final(chromosone)@[i] == flipped(
                old(chromosone)@[i],
            ),
        is_binary(old(chromosone)@) ==> is_binary(final(chromosone)@),
{
    let n = chromosone.len();
    let mut i: usize = 0;
    while i < n
        invariant
            mutation_rate.wf(),
            n == chromosone@.len(),
            chromosone@.len() == old(chromosone)@.len(),
            0 <= i <= n,
            forall|k: int|
                0 <= k < n ==> {
                    ||| #[trigger] chromosone@[k] == old(chromosone)@[k]
                    ||| chromosone@[k] == flipped(old(chromosone)@[k])
                },
            forall|k: int| i <= k < n ==> #[trigger] chromosone@[k] == old(chromosone)@[k],
            mutation_rate.ppm == 0 ==> chromosone@ == old(chromosone)@,
            mutation_rate.ppm == crate::PPM_ONE ==> forall|k: int|
                0 <= k < i ==> #[trigger] chromosone@[k] == flipped(old(chromosone)@[k]),
        decreases n - i,
    {
        if happens(mutation_rate, src) {
            let gene = chromosone[i];
            let new_gene = if gene == 0 {
                1
            } else {
                gene - 1
            };
            chromosone.set(i, new_gene);
        }
        i = i + 1;
    }
    proof {
        if is_binary(old(chromosone)@) {
            assert forall|k: int| 0 <= k < chromosone@.len() implies #[trigger] chromosone@[k]
                <= 1 by {
                assert(old(chromosone)@[k] <= 1);
            }
        }
    }
}

/// A single-point splice: the first `cut` genes of one parent, the
/// rest of the other.  A cut of the full length is a clone of the
/// first parent.
pub open spec fn splice(pa: Seq<u8>, pb: Seq<u8>, cut: int) -> Seq<u8> {
    pa.take(cut) + pb.skip(cut)
}

/// A chromosone obtained from `base` by keeping or flipping each gene,
/// which is what one pass of mutation can do.
pub open spec fn mutated_from(child: Seq<u8>, base: Seq<u8>) -> bool {
    &&& child.len() == base.len()
    &&& forall|i: int|
        0 <= i < child.len() ==> #[trigger] child[i] == base[i] || child[i] == flipped(base[i])
}

/// A chromosone descends from the ordered parent pair `(pa, pb)`: it
/// is a single-point splice of the two, each gene then kept or
/// flipped.
pub open spec fn is_offspring(child: Seq<u8>, pa: Seq<u8>, pb: Seq<u8>) -> bool {
    &&& pa.len() == pb.len()
    &&& exists|cut: int|
        0 <= cut <= pa.len() && mutated_from(child, #[trigger] splice(pa, pb, cut))
}

/// A next-generation chromosone was bred from two distinct members of
/// the previous generation; whenever that generation had at least two
/// positive-fitness members, both parents have positive fitness.
pub open spec fn bred_from(child: Seq<u8>, pop: Seq<Vec<u8>>, fits: Seq<u32>) -> bool {
    exists|i: int, j: int|
        {
            &&& 0 <= i < pop.len() && 0 <= j < pop.len()
            &&& i != j
            &&& fits.len() == pop.len()
            &&& (positive_fitness_count(fits, fits.len() as int) >= 2 ==> fits[i] > 0 && fits[j]
                > 0)
            &&& is_offspring(child, (#[trigger] pop[i])@, (#[trigger] pop[j])@)
        }
}

/// Draws two distinct parents: fitness-proportionally, or uniformly
/// when fewer than two members have positive fitness — the documented
/// fallback that keeps a run alive through a zero-diversity
/// generation.
fn select_parents<E: EntropySource>(
    population: &Vec<Vec<u8>>,
    fitness: &Vec<u32>,
    src: &mut E,
) -> (r: (Vec<u8>, Vec<u8>))
    requires
        population@.len() == fitness@.len(),
        population@.len() >= 2,
    ensures
        exists|i: int, j: int|
            {
                &&& 0 <= i < population@.len() && 0 <= j < population@.len()
                &&& i != j
                &&& (positive_fitness_count(fitness@, fitness@.len() as int) >= 2 ==> fitness@[i]
                    > 0 && fitness@[j] > 0)
                &&& r.0@ == (#[trigger] population@[i])@ && r.1@ == (#[trigger] population@[j])@
            },
{
    match select(population, fitness, src) {
        Ok(p) => p,
        Err(_) => {
            let pair = sampling::pick_uniform_pair(population.len(), src);
            (copy_genome(&population[pair.0]), copy_genome(&population[pair.1]))
        },
    }
}

/// The best fitness among the first `n` values (zero when there are none).
pub open spec fn max_fitness(f: Seq<u32>, n: int) -> int
    decreases n,
{
    if n <= 0 {
        0
    } else {
        let m = max_fitness(f, n - 1);
        if f[n - 1] > m {
            f[n - 1] as int
        } else {
            m
        }
    }
}

proof fn lemma_max_fitness_bounds(f: Seq<u32>, n: int)
    requires
        0 <= n <= f.len(),
    ensures
        0 <= max_fitness(f, n) <= u32::MAX,
    decreases n,
{
    if n > 0 {
        lemma_max_fitness_bounds(f, n - 1);
    }
}

proof fn lemma_max_fitness_zero(f: Seq<u32>, n: int)
    requires
        0 <= n <= f.len(),
        forall|i: int| 0 <= i < n ==> #[trigger] f[i] == 0,
    ensures
        max_fitness(f, n) == 0,
    decreases n,
{
    if n > 0 {
        lemma_max_fitness_zero(f, n - 1);
    }
}

/// The best fitness of the generation whose cache is `f`.
fn best_of(f: &Vec<u32>) -> (b: u32)
    ensures
        b == max_fitness(f@, f@.len() as int),
{
    let mut b: u32 = 0;
    let mut i: usize = 0;
    while i < f.len()
        invariant
            0 <= i <= f@.len(),
            b == max_fitness(f@, i as int),
        decreases f@.len() - i,
    {
        if f[i] > b {
            b = f[i];
        }
        i = i + 1;
    }
    b
}

/// One knapsack run: the immutable configuration, the current
/// generation with its fitness cache, and the per-generation record of
/// best fitness for external plotting.
pub struct Run {
    pub items: Vec<Item>,
    pub max_weight: u32,
    pub crossover_rate: Probability,
    pub mutation_rate: Probability,
    pub population: Vec<Vec<u8>>,
    pub fitnesses: Vec<u32>,
    pub history: Vec<u32>,
}

impl Run {
    /// The run invariant: rates are probabilities, the population can
    /// breed (at least two members), every chromosone matches the item
    /// list and is binary, the item totals fit in `u32`, and the
    /// fitness cache is exactly the fitness of each member.
    pub open spec fn wf(self) -> bool {
        &&& self.crossover_rate.wf()
        &&& self.mutation_rate.wf()
        &&& self.population@.len() >= 2
        &&& self.fitnesses@.len() == self.population@.len()
        &&& items_weight_total(self.items@, self.items@.len() as int) <= u32::MAX
        &&& items_value_total(self.items@, self.items@.len() as int) <= u32::MAX
        &&& forall|i: int|
            0 <= i < self.population@.len() ==> {
                &&& (#[trigger] self.population@[i])@.len() == self.items@.len()
                &&& is_binary(self.population@[i]@)
            }
        &&& forall|i: int|
            0 <= i < self.population@.len() ==> #[trigger] self.fitnesses@[i] == fitness_spec(
                self.population@[i]@,
                self.items@,
                self.max_weight,
            )
    }

    /// Builds a run over the given items: the population is drawn
    /// uniformly at random and evaluated.  A population too small to
    /// breed, or item totals that could overflow a `u32` sum, are
    /// rejected as invalid configuration.
    pub fn new<E: EntropySource>(
        items: Vec<Item>,
        max_weight: u32,
        population_size: usize,
        crossover_rate: Probability,
        mutation_rate: Probability,
        src: &mut E,
    ) -> (r: Result<Run, GaError>)
        requires
            crossover_rate.wf(),
            mutation_rate.wf(),
        ensures
            match r {
                Ok(run) => {
                    &&& run.wf()
                    &&& run.items@ == items@
                    &&& run.max_weight == max_weight
                    &&& run.crossover_rate == crossover_rate
                    &&& run.mutation_rate == mutation_rate
                    &&& run.population@.len() == population_size
                    &&& run.history@ == Seq::<u32>::empty()
                },
                Err(e) => {
                    &&& e == GaError::InvalidConfiguration
                    &&& (population_size < 2 || items_weight_total(
                        items@,
                        items@.len() as int,
                    ) > u32::MAX || items_value_total(items@, items@.len() as int) > u32::MAX)
                },
            },
    {
        if population_size < 2 {
            return Err(GaError::InvalidConfiguration);
        }
        let n_items = items.len();
        let mut wtot: u128 = 0;
        let mut vtot: u128 = 0;
        let mut i: usize = 0;
        while i < n_items
            invariant
                n_items == items@.len(),
                0 <= i <= n_items,
                wtot == items_weight_total(items@, i as int),
                vtot == items_value_total(items@, i as int),
                wtot <= i * (u32::MAX as int),
                vtot <= i * (u32::MAX as int),
            decreases n_items - i,
        {
            proof {
                assert((i as int) * (u32::MAX as int) + (u32::MAX as int) == (i as int + 1) * (
                u32::MAX as int)) by (nonlinear_arith);
                assert((i as int + 1) * (u32::MAX as int) < u128::MAX as int) by (nonlinear_arith)
                    requires i as int + 1 <= usize::MAX as int + 1;
            }
            wtot = wtot + items[i].weight as u128;
            vtot = vtot + items[i].value as u128;
            i = i + 1;
        }
        if wtot > u32::MAX as u128 || vtot > u32::MAX as u128 {
            return Err(GaError::InvalidConfiguration);
        }

        let population = crate::population::generate(population_size, n_items, src);
        let mut fitnesses: Vec<u32> = Vec::new();
        let mut k: usize = 0;
        while k < population_size
            invariant
                population@.len() == population_size,
                n_items == items@.len(),
                items_weight_total(items@, n_items as int) <= u32::MAX,
                items_value_total(items@, n_items as int) <= u32::MAX,
                forall|m: int|
                    0 <= m < population_size ==> {
                        &&& (#[trigger] population@[m])@.len() == n_items
                        &&& is_binary(population@[m]@)
                    },
                0 <= k <= population_size,
                fitnesses@.len() == k,
                forall|m: int|
                    0 <= m < k ==> #[trigger] fitnesses@[m] == fitness_spec(
                        population@[m]@,
                        items@,
                        max_weight,
                    ),
            decreases population_size - k,
        {
            let f = fitness(&population[k], &items, max_weight);
            fitnesses.push(f);
            k = k + 1;
        }

        Ok(
            Run {
                items,
                max_weight,
                crossover_rate,
                mutation_rate,
                population,
                fitnesses,
                history: Vec::new(),
            },
        )
    }

    /// Advances one generation: records the current best fitness, then
    /// repeatedly selects two parents fitness-proportionally, crosses
    /// them with probability equal to the crossover rate, mutates both
    /// children, and fills the next generation to the configured size.
    /// When fewer than two members have positive fitness, parents are
    /// drawn uniformly instead, so a run never aborts on a transient
    /// zero-diversity population.
    pub fn tick<E: EntropySource>(&mut self, src: &mut E)
        requires
            old(self).wf(),
        ensures
            final(self).wf(),
            final(self).items@ == old(self).items@,
            final(self).max_weight == old(self).max_weight,
            final(self).crossover_rate == old(self).crossover_rate,
            final(self).mutation_rate == old(self).mutation_rate,
            final(self).population@.len() == old(self).population@.len(),
            final(self).history@ == old(self).history@.push(
                max_fitness(old(self).fitnesses@, old(self).fitnesses@.len() as int) as u32,
            ),
            forall|m: int|
                0 <= m < final(self).population@.len() ==> bred_from(
                    (#[trigger] final(self).population@[m])@,
                    old(self).population@,
                    old(self).fitnesses@,
                ),
    {
        proof {
            lemma_max_fitness_bounds(old(self).fitnesses@, old(self).fitnesses@.len() as int);
        }
        let pop_size = self.population.len();
        let n_items = self.items.len();
        let best = best_of(&self.fitnesses);

        let mut next: Vec<Vec<u8>> = Vec::new();
        while next.len() < pop_size
            invariant
                self.wf(),
                self.items@ == old(self).items@,
                self.max_weight == old(self).max_weight,
                self.crossover_rate == old(self).crossover_rate,
                self.mutation_rate == old(self).mutation_rate,
                self.population@ == old(self).population@,
                self.fitnesses@ == old(self).fitnesses@,
                self.history@ == old(self).history@,
                pop_size == self.population@.len(),
                n_items == self.items@.len(),
                next@.len() <= pop_size,
                forall|m: int|
                    0 <= m < next@.len() ==> {
                        &&& (#[trigger] next@[m])@.len() == n_items
                        &&& is_binary(next@[m]@)
                    },
                forall|m: int|
                    0 <= m < next@.len() ==> bred_from(
                        (#[trigger] next@[m])@,
                        old(self).population@,
                        old(self).fitnesses@,
                    ),
            decreases pop_size - next.len(),
        {
            let parents = select_parents(&self.population, &self.fitnesses, src);
            let ghost (gi, gj) = choose|i: int, j: int|
                {
                    &&& 0 <= i < self.population@.len() && 0 <= j < self.population@.len()
                    &&& i != j
                    &&& (positive_fitness_count(self.fitnesses@, self.fitnesses@.len() as int)
                        >= 2 ==> self.fitnesses@[i] > 0 && self.fitnesses@[j] > 0)
                    &&& parents.0@ == (#[trigger] self.population@[i])@ && parents.1@ == (
                    #[trigger] self.population@[j])@
                };
            let children = crossover(&parents.0, &parents.1, self.crossover_rate, src);
            let mut child1 = children.0;
            let mut child2 = children.1;
            let ghost s1 = child1@;
            let ghost s2 = child2@;
            mutate(&mut child1, self.mutation_rate, src);
            mutate(&mut child2, self.mutation_rate, src);
            proof {
                let pa = self.population@[gi]@;
                let pb = self.population@[gj]@;
                let cut = choose|cut: int|
                    0 <= cut <= parents.0@.len() && s1 == parents.0@.take(cut) + parents.1@.skip(
                        cut,
                    ) && s2 == parents.1@.take(cut) + parents.0@.skip(cut);
                assert(0 <= cut <= pa.len() && mutated_from(child1@, splice(pa, pb, cut)));
                assert(0 <= cut <= pb.len() && mutated_from(child2@, splice(pb, pa, cut)));
                assert(is_offspring(child1@, pa, pb));
                assert(is_offspring(child2@, pb, pa));
                assert(bred_from(child1@, old(self).population@, old(self).fitnesses@));
                assert(bred_from(child2@, old(self).population@, old(self).fitnesses@));
            }
            next.push(child1);
            if next.len() < pop_size {
                next.push(child2);
            }
        }

        let mut new_fits: Vec<u32> = Vec::new();
        let mut k: usize = 0;
        while k < pop_size
            invariant
                self.wf(),
                self.items@ == old(self).items@,
                self.max_weight == old(self).max_weight,
                self.crossover_rate == old(self).crossover_rate,
                self.mutation_rate == old(self).mutation_rate,
                self.population@ == old(self).population@,
                self.fitnesses@ == old(self).fitnesses@,
                self.history@ == old(self).history@,
                pop_size == self.population@.len(),
                n_items == self.items@.len(),
                next@.len() == pop_size,
                forall|m: int|
                    0 <= m < next@.len() ==> bred_from(
                        (#[trigger] next@[m])@,
                        old(self).population@,
                        old(self).fitnesses@,
                    ),
                forall|m: int|
                    0 <= m < pop_size ==> {
                        &&& (#[trigger] next@[m])@.len() == n_items
                        &&& is_binary(next@[m]@)
                    },
                0 <= k <= pop_size,
                new_fits@.len() == k,
                forall|m: int|
                    0 <= m < k ==> #[trigger] new_fits@[m] == fitness_spec(
                        next@[m]@,
                        self.items@,
                        self.max_weight,
                    ),
            decreases pop_size - k,
        {
            let f = fitness(&next[k], &self.items, self.max_weight);
            new_fits.push(f);
            k = k + 1;
        }

        self.population = next;
        self.fitnesses = new_fits;
        self.history.push(best);
    }

    /// The fittest member of the current generation, with its fitness:
    /// an owned copy, leaving the population buffer untouched.
    pub fn fittest(&self) -> (r: (Vec<u8>, u32))
        requires
            self.wf(),
        ensures
            exists|i: int|
                {
                    &&& 0 <= i < self.population@.len()
                    &&& r.0@ == (#[trigger] self.population@[i])@
                    &&& r.1 == self.fitnesses@[i]
                },
            forall|k: int| 0 <= k < self.fitnesses@.len() ==> #[trigger] self.fitnesses@[k] <= r.1,
    {
        let mut best_idx: usize = 0;
        let mut k: usize = 1;
        while k < self.fitnesses.len()
            invariant
                self.wf(),
                0 <= best_idx < k <= self.fitnesses@.len(),
                forall|m: int| 0 <= m < k ==> #[trigger] self.fitnesses@[m] <= self.fitnesses@[
                    best_idx as int],
            decreases self.fitnesses@.len() - k,
        {
            if self.fitnesses[k] > self.fitnesses[best_idx] {
                best_idx = k;
            }
            k = k + 1;
        }
        (copy_genome(&self.population[best_idx]), self.fitnesses[best_idx])
    }

    /// The recorded best fitness of every generation so far, oldest
    /// first: purely additive, never rewritten.
    pub fn best_fitness_history(&self) -> (h: &Vec<u32>)
        ensures
            h@ == self.history@,
    {
        &self.history
    }
}

/// A run over an empty item list reports a best fitness of zero in
/// every generation: each chromosone is empty, so every cached fitness
/// is zero and so is their maximum.
pub proof fn lemma_empty_run_best_zero(run: Run)
    requires
        run.wf(),
        run.items@.len() == 0,
    ensures
        max_fitness(run.fitnesses@, run.fitnesses@.len() as int) == 0,
{
    assert forall|i: int| 0 <= i < run.fitnesses@.len() implies #[trigger] run.fitnesses@[i]
        == 0 by {
        lemma_no_items_fitness_zero(run.population@[i]@, run.items@, run.max_weight);
    }
    lemma_max_fitness_zero(run.fitnesses@, run.fitnesses@.len() as int);
}

} // verus!
