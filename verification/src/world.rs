//! The traveling-salesman world: a map, a population of permutation
//! genomes with its fitness cache, and the generational tick that
//! replaces the whole population.  A tour's fitness is always positive,
//! so selection never lacks diversity here.

use vstd::prelude::*;
use crate::entropy::EntropySource;
use crate::genomes;
use crate::knapsack::copy_genome;
use crate::layout::LocationLayout;
use crate::layout::TourMap;
use crate::sampling;
use crate::Probability;

verus! {

/// A snapshot of the fittest genome: its fitness and an owned copy of
/// its data.
pub struct Genome {
    pub fitness: u64,
    pub data: Vec<u8>,
}

/// The run configuration: grid extent, location count and layout,
/// population size, and the two rates.  Immutable after construction.
pub struct WorldSettings {
    pub width: u8,
    pub height: u8,
    pub locations: u8,
    pub population_size: usize,
    pub layout: LocationLayout,
    pub crossover_rate: Probability,
    pub mutation_rate: Probability,
}

impl WorldSettings {
    /// A usable configuration: a non-empty grid, enough locations for
    /// a crossover segment, a population that can breed, and rates
    /// that are probabilities.
    pub open spec fn wf(self) -> bool {
        &&& self.width >= 1
        &&& self.height >= 1
        &&& self.locations >= 2
        &&& self.population_size >= 2
        &&& self.crossover_rate.wf()
        &&& self.mutation_rate.wf()
    }

    pub fn new(
        width: u8,
        height: u8,
        locations: u8,
        population_size: usize,
        layout: LocationLayout,
        crossover_rate: Probability,
        mutation_rate: Probability,
    ) -> (s: WorldSettings)
        ensures
            s == (WorldSettings {
                width,
                height,
                locations,
                population_size,
                layout,
                crossover_rate,
                mutation_rate,
            }),
    {
        WorldSettings { width, height, locations, population_size, layout, crossover_rate, mutation_rate }
    }
}

/// A genome equal to `base`, or to `base` after one pairwise swap of
/// two distinct positions — what one optional mutation pass can do.
pub open spec fn maybe_swapped(g: Seq<u8>, base: Seq<u8>) -> bool {
    ||| g == base
    ||| exists|x: int, y: int|
        {
            &&& 0 <= x < base.len() && 0 <= y < base.len()
            &&& x != y
            &&& g == #[trigger] genomes::swapped(base, x, y)
        }
}

/// A next-generation tour that came through crossover: an
/// order-crossover child of two distinct members of the previous
/// generation, for some admissible segment, possibly followed by a
/// single mutation swap.
pub open spec fn descends_by_crossover(g: Seq<u8>, pop: Seq<Vec<u8>>) -> bool {
    exists|i: int, j: int, start: int, end: int|
        {
            &&& 0 <= i < pop.len() && 0 <= j < pop.len()
            &&& i != j
            &&& 0 <= start
            &&& start + 2 <= end <= pop[i]@.len()
            &&& maybe_swapped(g, #[trigger] genomes::ox_child_spec(pop[i]@, pop[j]@, start, end))
        }
}

/// A next-generation tour descends from the previous generation: it is
/// an order-crossover child of two distinct members for some admissible
/// segment, or a copy of one member, in either case possibly followed
/// by a single mutation swap.
pub open spec fn descends_from(g: Seq<u8>, pop: Seq<Vec<u8>>) -> bool {
    ||| descends_by_crossover(g, pop)
    ||| exists|i: int| 0 <= i < pop.len() && maybe_swapped(g, (#[trigger] pop[i])@)
}

/// One traveling-salesman run: the map, the current generation and its
/// fitness cache, and the rates.
pub struct World {
    pub map: TourMap,
    pub population: Vec<Vec<u8>>,
    pub fitnesses: Vec<u64>,
    pub crossover_rate: Probability,
    pub mutation_rate: Probability,
}

impl World {
    /// The world invariant: the map is well formed with at least two
    /// locations, every genome is a permutation of the location
    /// indices, and the fitness cache holds exactly each genome's
    /// (always positive) reciprocal tour fitness.
    pub open spec fn wf(self) -> bool {
        &&& self.map.wf()
        &&& self.map.spec_location_count() >= 2
        &&& self.population@.len() >= 2
        &&& self.fitnesses@.len() == self.population@.len()
        &&& self.crossover_rate.wf()
        &&& self.mutation_rate.wf()
        &&& forall|i: int|
            0 <= i < self.population@.len() ==> {
                &&& (#[trigger] self.population@[i])@.len() == self.map.spec_location_count()
                &&& genomes::is_permutation(self.population@[i]@)
            }
        &&& forall|i: int|
            0 <= i < self.population@.len() ==> {
                &&& (#[trigger] self.fitnesses@[i]) == genomes::fitness_spec(
                    self.population@[i]@,
                    self.map.locations@,
                )
                &&& self.fitnesses@[i] >= 1
            }
    }

    /// Builds a world from its settings: the map is laid out once, the
    /// population is drawn as random permutations and evaluated.
    pub fn new<E: EntropySource>(settings: &WorldSettings, src: &mut E) -> (w: World)
        requires
            settings.wf(),
        ensures
            w.wf(),
            w.map.width == settings.width,
            w.map.height == settings.height,
            w.map.spec_location_count() == settings.locations,
            w.population@.len() == settings.population_size,
            w.crossover_rate == settings.crossover_rate,
            w.mutation_rate == settings.mutation_rate,
    {
        let map = TourMap::new(settings.width, settings.height, settings.locations, settings.layout, src);
        let count = settings.locations;
        let pop_size = settings.population_size;

        let mut population: Vec<Vec<u8>> = Vec::new();
        let mut k: usize = 0;
        while k < pop_size
            invariant
                0 <= k <= pop_size,
                population@.len() == k,
                forall|m: int|
                    0 <= m < k ==> {
                        &&& (#[trigger] population@[m])@.len() == count
                        &&& genomes::is_permutation(population@[m]@)
                    },
            decreases pop_size - k,
        {
            let genome = genomes::generate(count, src);
            population.push(genome);
            k = k + 1;
        }

        let mut fitnesses: Vec<u64> = Vec::new();
        let mut f: usize = 0;
        while f < pop_size
            invariant
                map.wf(),
                map.spec_location_count() == count,
                count >= 2,
                population@.len() == pop_size,
                forall|m: int|
                    0 <= m < pop_size ==> {
                        &&& (#[trigger] population@[m])@.len() == count
                        &&& genomes::is_permutation(population@[m]@)
                    },
                0 <= f <= pop_size,
                fitnesses@.len() == f,
                forall|m: int|
                    0 <= m < f ==> {
                        &&& (#[trigger] fitnesses@[m]) == genomes::fitness_spec(
                            population@[m]@,
                            map.locations@,
                        )
                        &&& fitnesses@[m] >= 1
                    },
            decreases pop_size - f,
        {
            let fit = genomes::fitness(&population[f], &map);
            fitnesses.push(fit);
            f = f + 1;
        }

        World {
            map,
            population,
            fitnesses,
            crossover_rate: settings.crossover_rate,
            mutation_rate: settings.mutation_rate,
        }
    }

    /// The fittest genome of the current generation, with its fitness,
    /// as an owned snapshot.
    pub fn fittest(&self) -> (g: Genome)
        requires
            self.wf(),
        ensures
            exists|i: int|
                {
                    &&& 0 <= i < self.population@.len()
                    &&& g.data@ == (#[trigger] self.population@[i])@
                    &&& g.fitness == self.fitnesses@[i]
                },
            forall|k: int|
                0 <= k < self.fitnesses@.len() ==> #[trigger] self.fitnesses@[k] <= g.fitness,
    {
        let mut best_idx: usize = 0;
        let mut k: usize = 1;
        while k < self.fitnesses.len()
            invariant
                self.wf(),
                0 <= best_idx < k <= self.fitnesses@.len(),
                forall|m: int| 0 <= m < k ==> #[trigger] self.fitnesses@[m] <= self.fitnesses@[
                    best_idx as int],
            decreases self.fitnesses@.len() - k,
        {
            if self.fitnesses[k] > self.fitnesses[best_idx] {
                best_idx = k;
            }
            k = k + 1;
        }
        Genome { fitness: self.fitnesses[best_idx], data: copy_genome(&self.population[best_idx]) }
    }

    /// Advances one generation: repeatedly selects two distinct parents
    /// fitness-proportionally; with probability equal to the crossover
    /// rate they produce one crossed child, otherwise both parents pass
    /// through; each resulting genome is mutated with probability equal
    /// to the mutation rate; the next generation replaces the old one
    /// wholesale once it reaches the population size.
    pub fn tick<E: EntropySource>(&mut self, src: &mut E)
        requires
            old(self).wf(),
        ensures
            final(self).wf(),
            final(self).map == old(self).map,
            final(self).crossover_rate == old(self).crossover_rate,
            final(self).mutation_rate == old(self).mutation_rate,
            final(self).population@.len() == old(self).population@.len(),
            forall|m: int|
                0 <= m < final(self).population@.len() ==> descends_from(
                    (#[trigger] final(self).population@[m])@,
                    old(self).population@,
                ),
            old(self).crossover_rate.ppm == crate::PPM_ONE ==> forall|m: int|
                0 <= m < final(self).population@.len() ==> descends_by_crossover(
                    (#[trigger] final(self).population@[m])@,
                    old(self).population@,
                ),
    {
        let pop_size = self.population.len();
        let count = self.map.location_count();

        let mut next: Vec<Vec<u8>> = Vec::new();
        while next.len() < pop_size
            invariant
                self.wf(),
                *self == *old(self),
                pop_size == self.population@.len(),
                count == self.map.spec_location_count(),
                next@.len() <= pop_size,
                forall|m: int|
                    0 <= m < next@.len() ==> {
                        &&& (#[trigger] next@[m])@.len() == count
                        &&& genomes::is_permutation(next@[m]@)
                    },
                forall|m: int|
                    0 <= m < next@.len() ==> descends_from(
                        (#[trigger] next@[m])@,
                        old(self).population@,
                    ),
                self.crossover_rate.ppm == crate::PPM_ONE ==> forall|m: int|
                    0 <= m < next@.len() ==> descends_by_crossover(
                        (#[trigger] next@[m])@,
                        old(self).population@,
                    ),
            decreases pop_size - next.len(),
        {
            proof {
                sampling::lemma_positive_count_all(
                    self.fitnesses@,
                    self.fitnesses@.len() as int,
                );
            }
            let parents = match sampling::select_two(&self.fitnesses, src) {
                Ok(p) => p,
                Err(_) => {
                    proof {
                        assert(false);
                    }
                    (0, 0)
                },
            };
            if crate::entropy::happens(self.crossover_rate, src) {
                proof {
                    let pa = self.population@[parents.0 as int]@;
                    let pb = self.population@[parents.1 as int]@;
                    assert forall|v: u8| pa.contains(v) implies #[trigger] pb.contains(v) by {
                        let q = choose|q: int| 0 <= q < pa.len() && pa[q] == v;
                        genomes::lemma_permutation_contains(pb, v as int);
                    }
                    assert(2 * self.map.spec_location_count() <= 510);
                }
                let mut child = genomes::crossover(
                    &self.population[parents.0],
                    &self.population[parents.1],
                    src,
                );
                let ghost s = child@;
                if crate::entropy::happens(self.mutation_rate, src) {
                    genomes::mutate(&mut child, src);
                    proof {
                        let (x, y) = choose|x: int, y: int|
                            0 <= x < s.len() && 0 <= y < s.len() && x != y && child@
                                == genomes::swapped(s, x, y);
                        assert(child@ == genomes::swapped(s, x, y));
                        assert(maybe_swapped(child@, s));
                    }
                }
                proof {
                    let gi = parents.0 as int;
                    let gj = parents.1 as int;
                    let pa = old(self).population@[gi]@;
                    let pb = old(self).population@[gj]@;
                    let (start, end) = choose|start: int, end: int|
                        {
                            &&& 0 <= start
                            &&& start + 2 <= end <= pa.len()
                            &&& s == genomes::ox_child_spec(pa, pb, start, end)
                        };
                    assert(maybe_swapped(child@, s));
                    assert(maybe_swapped(
                        child@,
                        genomes::ox_child_spec(
                            (old(self).population@[gi])@,
                            (old(self).population@[gj])@,
                            start,
                            end,
                        ),
                    ));
                    assert(descends_by_crossover(child@, old(self).population@));
                    assert(descends_from(child@, old(self).population@));
                }
                next.push(child);
            } else {
                proof {
                    assert(self.crossover_rate.ppm != crate::PPM_ONE);
                }
                let mut copied = copy_genome(&self.population[parents.0]);
                let ghost s = copied@;
                if crate::entropy::happens(self.mutation_rate, src) {
                    genomes::mutate(&mut copied, src);
                    proof {
                        let (x, y) = choose|x: int, y: int|
                            0 <= x < s.len() && 0 <= y < s.len() && x != y && copied@
                                == genomes::swapped(s, x, y);
                        assert(copied@ == genomes::swapped(s, x, y));
                        assert(maybe_swapped(copied@, s));
                    }
                }
                proof {
                    assert(maybe_swapped(copied@, (old(self).population@[parents.0 as int])@));
                    assert(descends_from(copied@, old(self).population@));
                }
                next.push(copied);
                if next.len() < pop_size {
                    let mut copied2 = copy_genome(&self.population[parents.1]);
                    let ghost s2 = copied2@;
                    if crate::entropy::happens(self.mutation_rate, src) {
                        genomes::mutate(&mut copied2, src);
                        proof {
                            let (x, y) = choose|x: int, y: int|
                                0 <= x < s2.len() && 0 <= y < s2.len() && x != y && copied2@
                                    == genomes::swapped(s2, x, y);
                            assert(copied2@ == genomes::swapped(s2, x, y));
                            assert(maybe_swapped(copied2@, s2));
                        }
                    }
                    proof {
                        assert(maybe_swapped(
                            copied2@,
                            (old(self).population@[parents.1 as int])@,
                        ));
                        assert(descends_from(copied2@, old(self).population@));
                    }
                    next.push(copied2);
                }
            }
        }

        let mut new_fits: Vec<u64> = Vec::new();
        let mut f: usize = 0;
        while f < pop_size
            invariant
                self.wf(),
                *self == *old(self),
                pop_size == self.population@.len(),
                count == self.map.spec_location_count(),
                next@.len() == pop_size,
                forall|m: int|
                    0 <= m < pop_size ==> {
                        &&& (#[trigger] next@[m])@.len() == count
                        &&& genomes::is_permutation(next@[m]@)
                    },
                forall|m: int|
                    0 <= m < next@.len() ==> descends_from(
                        (#[trigger] next@[m])@,
                        old(self).population@,
                    ),
                self.crossover_rate.ppm == crate::PPM_ONE ==> forall|m: int|
                    0 <= m < next@.len() ==> descends_by_crossover(
                        (#[trigger] next@[m])@,
                        old(self).population@,
                    ),
                0 <= f <= pop_size,
                new_fits@.len() == f,
                forall|m: int|
                    0 <= m < f ==> {
                        &&& (#[trigger] new_fits@[m]) == genomes::fitness_spec(
                            next@[m]@,
                            self.map.locations@,
                        )
                        &&& new_fits@[m] >= 1
                    },
            decreases pop_size - f,
        {
            let fit = genomes::fitness(&next[f], &self.map);
            new_fits.push(fit);
            f = f + 1;
        }

        self.population = next;
        self.fitnesses = new_fits;
    }

    pub fn width(&self) -> (w: u8)
        ensures
            w == self.map.width,
    {
        self.map.width()
    }

    pub fn height(&self) -> (h: u8)
        ensures
            h == self.map.height,
    {
        self.map.height()
    }

    pub fn location_count(&self) -> (n: usize)
        ensures
            n == self.map.spec_location_count(),
    {
        self.map.location_count()
    }

    /// The map's raw coordinate buffer, as a read-only view.
    pub fn locations(&self) -> (locs: &Vec<u8>)
        ensures
            locs@ == self.map.locations@,
    {
        self.map.locations()
    }

    pub fn population_size(&self) -> (n: usize)
        ensures
            n == self.population@.len(),
    {
        self.population.len()
    }

    /// The current generation's genomes, as a read-only view.
    pub fn population(&self) -> (p: &Vec<Vec<u8>>)
        ensures
            p@ == self.population@,
    {
        &self.population
    }
}

} // verus!
