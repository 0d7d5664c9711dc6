//! The generational driver: evaluate, check for an exact match, breed the
//! next generation by random parent choice, crossover and mutation.
use crate::fitness::{Fitness, TargetMatch};
use crate::individual::{is_printable, random_printable, Individual};
use crate::population::{
    child, crossover_at, is_stable_rank, lemma_crossover_identical, lemma_rank_of_rescored, rescored,
    scored_from, sorted_desc, Population,
};
use crate::random::draw_in;
use vstd::prelude::*;

verus! {

/// Mutation-skip probabilities are given in parts per million.
pub const MILLION: u32 = 1_000_000;

/// Whether a mutation-skip probability of `skip_per_million` leaves any
/// chance of mutation.
pub open spec fn may_mutate(skip_per_million: u32) -> bool {
    skip_per_million < MILLION
}

/// The values drawn for one breeding round: two parent indices, a crossover
/// point, and for each child an optional mutation (position, character).
#[derive(Clone, Copy, Debug, PartialEq, Eq)]
pub struct Pairing {
    pub first: usize,
    pub second: usize,
    pub point: usize,
    pub mutation_a: Option<(usize, char)>,
    pub mutation_b: Option<(usize, char)>,
}

/// `c` with the given mutation applied, if any.
pub open spec fn apply_mutation(c: Seq<char>, m: Option<(usize, char)>) -> Seq<char> {
    match m {
        Some((k, ch)) => c.update(k as int, ch),
        None => c,
    }
}

/// A mutation fits a chromosome of length `len`: its position is in range.
pub open spec fn mutation_fits(m: Option<(usize, char)>, len: nat) -> bool {
    match m {
        Some((k, _)) => k < len,
        None => true,
    }
}

/// A mutation that the driver can draw: none, or, where mutation is
/// possible, a position in range and a printable character.
pub open spec fn mutation_drawable(m: Option<(usize, char)>, len: nat, mutated: bool) -> bool {
    match m {
        Some((k, ch)) => mutated && k < len && is_printable(ch),
        None => true,
    }
}

/// `pg` can be applied to `pop`: parents exist and share a length, the point
/// and the mutation positions are within it.
pub open spec fn pairing_fits(pg: Pairing, pop: Seq<Individual>) -> bool {
    &&& pg.first < pop.len()
    &&& pg.second < pop.len()
    &&& pop[pg.first as int].chromosome.len() == pop[pg.second as int].chromosome.len()
    &&& pg.point <= pop[pg.first as int].chromosome.len()
    &&& mutation_fits(pg.mutation_a, pop[pg.first as int].chromosome.len() as nat)
    &&& mutation_fits(pg.mutation_b, pop[pg.first as int].chromosome.len() as nat)
}

/// `pg` is one that the driver can draw from `pop`: it fits, its point is
/// strictly interior, and its mutations are drawable.
pub open spec fn pairing_drawable(pg: Pairing, pop: Seq<Individual>, mutated: bool) -> bool {
    &&& pairing_fits(pg, pop)
    &&& 1 <= pg.point <= pop[pg.first as int].chromosome.len() - 2
    &&& mutation_drawable(pg.mutation_a, pop[pg.first as int].chromosome.len() as nat, mutated)
    &&& mutation_drawable(pg.mutation_b, pop[pg.first as int].chromosome.len() as nat, mutated)
}

/// The chromosome at index `k` of a generation bred from `pop` with
/// `pairings`: round `k / 2` crosses `first` and `second`; the even index
/// takes the first child (prefix from `second`), the odd index the second
/// child (prefix from `first`), each with its mutation applied.
pub open spec fn bred_chromosome(pop: Seq<Individual>, pairings: Seq<Pairing>, k: int) -> Seq<
    char,
> {
    let pg = pairings[k / 2];
    let a = pop[pg.first as int].chromosome@;
    let b = pop[pg.second as int].chromosome@;
    if k % 2 == 0 {
        apply_mutation(child(b, a, pg.point as int), pg.mutation_a)
    } else {
        apply_mutation(child(a, b, pg.point as int), pg.mutation_b)
    }
}

/// `bred` is a generation of unevaluated individuals bred from `pop` in
/// pairs, by some sequence of drawable pairings.
pub open spec fn bred_in_pairs(bred: Seq<Individual>, pop: Seq<Individual>, mutated: bool) -> bool {
    exists|pairings: Seq<Pairing>|
        {
            &&& pairings.len() == (bred.len() + 1) / 2
            &&& forall|q: int|
                0 <= q < pairings.len() ==> pairing_drawable(#[trigger] pairings[q], pop, mutated)
            &&& forall|k: int|
                0 <= k < bred.len() ==> (#[trigger] bred[k]).chromosome@ == bred_chromosome(
                    pop,
                    pairings,
                    k,
                ) && bred[k].fitness == 0
        }
}

/// Without mutation, a population of clones of `a` breeds only clones of
/// `a`: crossover of identical parents gives the parent back.
pub proof fn lemma_clones_breed_clones(bred: Seq<Individual>, pop: Seq<Individual>, a: Seq<char>)
    requires
        bred_in_pairs(bred, pop, false),
        forall|i: int| 0 <= i < pop.len() ==> (#[trigger] pop[i]).chromosome@ == a,
    ensures
        forall|k: int| 0 <= k < bred.len() ==> (#[trigger] bred[k]).chromosome@ == a,
{
    let pairings = choose|pairings: Seq<Pairing>|
        {
            &&& pairings.len() == (bred.len() + 1) / 2
            &&& forall|q: int|
                0 <= q < pairings.len() ==> pairing_drawable(#[trigger] pairings[q], pop, false)
            &&& forall|k: int|
                0 <= k < bred.len() ==> (#[trigger] bred[k]).chromosome@ == bred_chromosome(
                    pop,
                    pairings,
                    k,
                ) && bred[k].fitness == 0
        };
    assert forall|k: int| 0 <= k < bred.len() implies (#[trigger] bred[k]).chromosome@ == a by {
        let pg = pairings[k / 2];
        assert(pairing_drawable(pg, pop, false));
        assert(pop[pg.first as int].chromosome@ == a);
        assert(pop[pg.second as int].chromosome@ == a);
        lemma_crossover_identical(a, pg.point as int);
    }
}

/// Draws the mutation of one child of length `length`: a draw in
/// `[0, MILLION)` below `skip_per_million` skips it; otherwise a uniform
/// position and a printable character are drawn.
fn draw_mutation(length: usize, skip_per_million: u32) -> (r: Option<(usize, char)>)
    requires
        length > 0,
    ensures
        mutation_drawable(r, length as nat, may_mutate(skip_per_million)),
{
    let draw = draw_in(0, MILLION as usize);
    if draw >= skip_per_million as usize {
        let k = draw_in(0, length);
        let c = random_printable();
        Some((k, c))
    } else {
        None
    }
}

/// Breeds `size` unevaluated individuals from `pop` with the given drawn
/// values: round `q` crosses `pop[first]` and `pop[second]` at `point`, the
/// first child taking `[0, point)` from `second` and the second child taking
/// it from `first`, applies each child's mutation, and appends both children
/// (only the first in the last round when `size` is odd).
pub fn breed_from_pairs(pop: &Vec<Individual>, pairings: &Vec<Pairing>, size: usize) -> (r: Vec<
    Individual,
>)
    requires
        pairings.len() == (size + 1) / 2,
        forall|q: int| 0 <= q < pairings.len() ==> pairing_fits(#[trigger] pairings@[q], pop@),
    ensures
        r.len() == size,
        forall|k: int|
            0 <= k < size ==> (#[trigger] r@[k]).chromosome@ == bred_chromosome(
                pop@,
                pairings@,
                k,
            ) && r@[k].fitness == 0,
{
    let mut out: Vec<Individual> = Vec::with_capacity(size);
    let mut q: usize = 0;
    while q < pairings.len()
        invariant
            pairings.len() == (size + 1) / 2,
            forall|q: int| 0 <= q < pairings.len() ==> pairing_fits(#[trigger] pairings@[q], pop@),
            q <= pairings.len(),
            out.len() == if 2 * q <= size { 2 * q } else { size as int },
            forall|k: int|
                0 <= k < out.len() ==> (#[trigger] out@[k]).chromosome@ == bred_chromosome(
                    pop@,
                    pairings@,
                    k,
                ) && out@[k].fitness == 0,
        decreases pairings.len() - q,
    {
        let pg = pairings[q];
        assert(pairing_fits(pg, pop@));
        let (mut ca, mut cb) = crossover_at(
            &pop[pg.first],
            &pop[pg.second],
            pg.point,
        );
        match pg.mutation_a {
            Some((k, c)) => ca.mutate_at(k, c),
            None => {},
        }
        match pg.mutation_b {
            Some((k, c)) => cb.mutate_at(k, c),
            None => {},
        }
        let ghost n0 = out.len() as int;
        assert(n0 == 2 * q);
        assert((2 * q) / 2 == q && (2 * q) % 2 == 0);
        assert((2 * q + 1) / 2 == q && (2 * q + 1) % 2 == 1);
        out.push(ca);
        if out.len() < size {
            out.push(cb);
        }
        q = q + 1;
    }
    out
}

/// Whether `a` and `b` hold the same characters.
fn same_chars(a: &Vec<char>, b: &Vec<char>) -> (r: bool)
    ensures
        r == (a@ == b@),
{
    if a.len() != b.len() {
        return false;
    }
    let mut i: usize = 0;
    while i < a.len()
        invariant
            a.len() == b.len(),
            i <= a.len(),
            a@.take(i as int) == b@.take(i as int),
        decreases a.len() - i,
    {
        if a[i] != b[i] {
            return false;
        }
        assert(a@.take(i + 1) =~= a@.take(i as int).push(a@[i as int]));
        assert(b@.take(i + 1) =~= b@.take(i as int).push(b@[i as int]));
        i = i + 1;
    }
    assert(a@ =~= a@.take(i as int));
    assert(b@ =~= b@.take(i as int));
    true
}

/// Whether the outcome of the run is still open.
#[derive(Clone, Copy, Debug, PartialEq, Eq, Structural)]
pub enum Status {
    /// The generation was reported and the next one bred.
    Continued,
    /// The best chromosome of the reported generation equals the target.
    Solved,
    /// The generation limit is reached without an exact match.
    Exhausted,
}

/// What one step reports: the generation index, its best chromosome and that
/// chromosome's fitness, and the status.
#[derive(Clone, Debug)]
pub struct Report {
    pub generation: usize,
    pub best: Vec<char>,
    pub fitness: u32,
    pub status: Status,
}

/// The state of a run toward the target of the population's fitness.
pub struct Evolution<'a> {
    pub population: Population<'a, TargetMatch>,
    pub generation: usize,
    pub max_generations: usize,
    pub skip_per_million: u32,
}

impl<'a> Evolution<'a> {
    /// The string the run evolves toward.
    pub open spec fn target(&self) -> Seq<char> {
        self.population.f.target@
    }

    /// The target has at least three characters (so that crossover has an
    /// interior point), the population is non-empty, every chromosome has the
    /// target's length, and the population is evaluated and ranked.
    pub open spec fn wf(&self) -> bool {
        &&& self.population.f.wf()
        &&& self.target().len() >= 3
        &&& self.population.individuals.len() > 0
        &&& self.population.uniform(self.target().len())
        &&& sorted_desc(self.population.individuals@)
        &&& forall|i: int|
            0 <= i < self.population.individuals.len() ==> (#[trigger] self.population.individuals@[
                i
            ]).fitness == self.population.f.spec_score(self.population.individuals@[i].chromosome@)
    }

    /// The best individual's chromosome (index 0 of the ranked population).
    pub open spec fn best(&self) -> Seq<char> {
        self.population.individuals@[0].chromosome@
    }

    /// Starts a run from the given population: evaluates it, at generation 0.
    pub fn from_population(
        population: Population<'a, TargetMatch>,
        max_generations: usize,
        skip_per_million: u32,
    ) -> (r: Evolution<'a>)
        requires
            population.f.wf(),
            population.f.target.len() >= 3,
            population.individuals.len() > 0,
            population.uniform(population.f.target.len() as nat),
        ensures
            r.wf(),
            r.population.f == population.f,
            is_stable_rank(
                r.population.individuals@,
                rescored(population.individuals@, population.f),
            ),
            r.generation == 0,
            r.max_generations == max_generations,
            r.skip_per_million == skip_per_million,
    {
        let ghost s = population.individuals@;
        let mut population = population;
        population.fitness();
        proof {
            lemma_rank_of_rescored(population.individuals@, s, population.f);
            assert forall|i: int| 0 <= i < population.individuals.len() implies (
            #[trigger] population.individuals@[i]).chromosome.len()
                == population.f.target.len() by {
                assert(scored_from(population.individuals@[i], s, population.f));
            }
        }
        Evolution { population, generation: 0, max_generations, skip_per_million }
    }

    /// Starts a run toward the target of `f` with `size` random individuals,
    /// evaluated, at generation 0.
    pub fn new(f: &'a TargetMatch, size: usize, max_generations: usize, skip_per_million: u32) -> (r:
        Evolution<'a>)
        requires
            f.wf(),
            f.target.len() >= 3,
            size > 0,
        ensures
            r.wf(),
            r.population.f == f,
            r.population.individuals.len() == size,
            r.generation == 0,
            r.max_generations == max_generations,
            r.skip_per_million == skip_per_million,
    {
        let population = Population::new(size, f.target.len(), f);
        Evolution::from_population(population, max_generations, skip_per_million)
    }

    /// Breeds a new generation of the population's size: for each round,
    /// parents are drawn uniformly with replacement, a crossover point is
    /// drawn strictly inside the chromosome, and each child's mutation is
    /// drawn (skipped with the configured probability).
    fn breed(&self) -> (r: Vec<Individual>)
        requires
            self.wf(),
        ensures
            r.len() == self.population.individuals.len(),
            forall|k: int|
                0 <= k < r.len() ==> (#[trigger] r@[k]).chromosome.len() == self.target().len(),
            bred_in_pairs(r@, self.population.individuals@, may_mutate(self.skip_per_million)),
    {
        let pop = &self.population.individuals;
        let n = pop.len();
        let l = self.population.f.target.len();
        let rounds = n / 2 + n % 2;
        let ghost mutated = may_mutate(self.skip_per_million);
        let mut pairings: Vec<Pairing> = Vec::with_capacity(rounds);
        while pairings.len() < rounds
            invariant
                self.wf(),
                pop == &self.population.individuals,
                n == pop.len(),
                l == self.target().len(),
                rounds == (n + 1) / 2,
                mutated == may_mutate(self.skip_per_million),
                pairings.len() <= rounds,
                forall|q: int|
                    0 <= q < pairings.len() ==> pairing_drawable(
                        #[trigger] pairings@[q],
                        pop@,
                        mutated,
                    ),
            decreases rounds - pairings.len(),
        {
            let first = draw_in(0, n);
            let second = draw_in(0, n);
            let point = draw_in(1, l - 1);
            let mutation_a = draw_mutation(l, self.skip_per_million);
            let mutation_b = draw_mutation(l, self.skip_per_million);
            let pg = Pairing { first, second, point, mutation_a, mutation_b };
            assert(pop@[first as int].chromosome.len() == l);
            assert(pop@[second as int].chromosome.len() == l);
            pairings.push(pg);
            assert forall|q: int| 0 <= q < pairings.len() implies pairing_drawable(
                #[trigger] pairings@[q],
                pop@,
                mutated,
            ) by {
                if q == pairings.len() - 1 {
                    assert(pairings@[q] == pg);
                }
            }
        }
        let r = breed_from_pairs(pop, &pairings, n);
        proof {
            assert forall|k: int| 0 <= k < r.len() implies (#[trigger] r@[k]).chromosome.len()
                == l by {
                let pg = pairings@[k / 2];
                assert(pairing_drawable(pg, pop@, mutated));
                assert(r@[k].chromosome@ == bred_chromosome(pop@, pairings@, k));
            }
            assert forall|q: int| 0 <= q < pairings.len() implies pairing_drawable(
                #[trigger] pairings@[q],
                pop@,
                mutated,
            ) by {}
            assert(bred_in_pairs(r@, pop@, mutated));
        }
        r
    }

    /// One generation step. Reports the current generation's best individual,
    /// then: at the generation limit the run is exhausted and nothing changes;
    /// on an exact match with the target it is solved and nothing changes;
    /// otherwise a new generation of the same size is bred from the current
    /// one in pairs, replaces it, is evaluated and ranked, and is counted.
    pub fn advance(&mut self) -> (r: Report)
        requires
            old(self).wf(),
        ensures
            final(self).wf(),
            final(self).population.f == old(self).population.f,
            final(self).max_generations == old(self).max_generations,
            final(self).skip_per_million == old(self).skip_per_million,
            final(self).population.individuals.len() == old(self).population.individuals.len(),
            r.generation == old(self).generation,
            r.best@ == old(self).best(),
            r.fitness == old(self).population.individuals@[0].fitness,
            old(self).generation >= old(self).max_generations ==> r.status == Status::Exhausted
                && *final(self) == *old(self),
            old(self).generation < old(self).max_generations && old(self).best() == old(
                self,
            ).target() ==> r.status == Status::Solved && *final(self) == *old(self),
            old(self).generation < old(self).max_generations && old(self).best() != old(
                self,
            ).target() ==> r.status == Status::Continued && final(self).generation == old(
                self,
            ).generation + 1 && exists|bred: Seq<Individual>|
                bred.len() == old(self).population.individuals.len() && #[trigger] bred_in_pairs(
                    bred,
                    old(self).population.individuals@,
                    may_mutate(old(self).skip_per_million),
                ) && is_stable_rank(
                    final(self).population.individuals@,
                    rescored(bred, old(self).population.f),
                ),
    {
        let best = &self.population.individuals[0];
        let chromosome = best.chromosome.clone();
        assert(chromosome@ =~= best.chromosome@);
        let fitness = best.fitness;
        let generation = self.generation;
        if self.generation >= self.max_generations {
            return Report { generation, best: chromosome, fitness, status: Status::Exhausted };
        }
        if same_chars(&best.chromosome, &self.population.f.target) {
            return Report { generation, best: chromosome, fitness, status: Status::Solved };
        }
        let bred = self.breed();
        let ghost bs = bred@;
        self.population.individuals = bred;
        self.population.fitness();
        self.generation = self.generation + 1;
        proof {
            let r = self.population.individuals@;
            lemma_rank_of_rescored(r, bs, self.population.f);
            assert forall|i: int| 0 <= i < r.len() implies (#[trigger] r[i]).chromosome.len()
                == self.target().len() by {
                assert(scored_from(r[i], bs, self.population.f));
                let k = choose|k: int|
                    0 <= k < bs.len() && r[i].chromosome == (#[trigger] bs[k]).chromosome
                        && r[i].fitness == self.population.f.spec_score(bs[k].chromosome@);
                assert(bs[k].chromosome.len() == self.target().len());
            }
        }
        Report { generation, best: chromosome, fitness, status: Status::Continued }
    }
}

} // verus!
