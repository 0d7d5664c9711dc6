//! A population of individuals: ranked evaluation and single-point crossover.
use crate::fitness::Fitness;
use crate::individual::{is_printable, Individual};
use crate::random::draw_in;
use vstd::prelude::*;
use vstd::seq_lib::group_filter_ensures;

verus! {

/// Every individual of `s` carries a fitness no lower than any individual
/// after it.
pub open spec fn sorted_desc(s: Seq<Individual>) -> bool {
    forall|i: int, j: int| 0 <= i < j < s.len() ==> s[i].fitness >= s[j].fitness
}

/// Whether an individual's fitness is `v`.
pub open spec fn fitness_is(v: u32) -> spec_fn(Individual) -> bool {
    |x: Individual| x.fitness == v
}

/// The individuals of `s` whose fitness is `v`, in their order in `s`.
pub open spec fn with_fitness(s: Seq<Individual>, v: u32) -> Seq<Individual> {
    s.filter(fitness_is(v))
}

/// `r` is `s` stably sorted by descending fitness: sorted, and for every
/// fitness value the individuals carrying it keep their order in `s`.
pub open spec fn is_stable_rank(r: Seq<Individual>, s: Seq<Individual>) -> bool {
    &&& r.len() == s.len()
    &&& sorted_desc(r)
    &&& forall|v: u32| #[trigger] with_fitness(r, v) == with_fitness(s, v)
}

/// `s` with every fitness replaced by the score that `f` gives the chromosome.
pub open spec fn rescored<F: Fitness>(s: Seq<Individual>, f: &F) -> Seq<Individual> {
    Seq::new(
        s.len(),
        |i: int| Individual { chromosome: s[i].chromosome, fitness: f.spec_score(s[i].chromosome@) },
    )
}

/// A child chromosome: `[0, p)` from `first`, `[p, len)` from `second`.
pub open spec fn child(first: Seq<char>, second: Seq<char>, p: int) -> Seq<char> {
    first.take(p) + second.skip(p)
}

proof fn lemma_none_with_fitness(s: Seq<Individual>, v: u32)
    requires
        forall|i: int| 0 <= i < s.len() ==> s[i].fitness != v,
    ensures
        with_fitness(s, v) == Seq::<Individual>::empty(),
    decreases s.len(),
{
    reveal_with_fuel(Seq::filter, 1);
    if s.len() > 0 {
        lemma_none_with_fitness(s.drop_last(), v);
    }
}

/// Inserts `x` into a descending-sorted sequence after every individual whose
/// fitness is at least that of `x`.
fn rank_insert(out: &mut Vec<Individual>, x: Individual)
    requires
        sorted_desc(old(out)@),
    ensures
        final(out)@.len() == old(out)@.len() + 1,
        sorted_desc(final(out)@),
        forall|v: u32|
            #[trigger] with_fitness(final(out)@, v) == if x.fitness == v {
                with_fitness(old(out)@, v).push(x)
            } else {
                with_fitness(old(out)@, v)
            },
{
    let ghost s = out@;
    let mut k: usize = 0;
    while k < out.len() && out[k].fitness >= x.fitness
        invariant
            out@ == s,
            k <= s.len(),
            forall|j: int| 0 <= j < k ==> s[j].fitness >= x.fitness,
        decreases s.len() - k,
    {
        k = k + 1;
    }
    proof {
        assert forall|j: int| k <= j < s.len() implies s[j].fitness < x.fitness by {
            if k < s.len() {
                assert(s[k as int].fitness < x.fitness);
            }
        }
    }
    out.insert(k, x);
    proof {
        let r = out@;
        let pre = s.take(k as int);
        let post = s.skip(k as int);
        assert(s =~= pre + post);
        assert(r =~= pre + seq![x] + post);
        assert forall|v: u32| #[trigger]
            with_fitness(r, v) == if x.fitness == v {
                with_fitness(s, v).push(x)
            } else {
                with_fitness(s, v)
            } by {
            Seq::filter_distributes_over_add(pre, post, fitness_is(v));
            Seq::filter_distributes_over_add(pre + seq![x], post, fitness_is(v));
            Seq::filter_distributes_over_add(pre, seq![x], fitness_is(v));
            reveal_with_fuel(Seq::filter, 2);
            assert(seq![x].drop_last() =~= Seq::<Individual>::empty());
            if x.fitness == v {
                lemma_none_with_fitness(post, v);
                assert(with_fitness(s, v) =~= with_fitness(pre, v));
                assert(with_fitness(r, v) =~= with_fitness(pre, v).push(x));
            } else {
                assert(with_fitness(r, v) =~= with_fitness(pre, v) + with_fitness(post, v));
            }
        }
    }
}

/// An ordered collection of individuals scored by a borrowed fitness
/// capability. After `fitness` the best individual stands at index 0.
pub struct Population<'a, F: Fitness> {
    pub individuals: Vec<Individual>,
    pub f: &'a F,
}

impl<'a, F: Fitness> Population<'a, F> {
    /// Every individual's chromosome has `length` characters.
    pub open spec fn uniform(&self, length: nat) -> bool {
        forall|i: int|
            0 <= i < self.individuals.len() ==> (#[trigger] self.individuals@[i]).chromosome.len()
                == length
    }

    /// The fitness capability accepts every individual.
    pub open spec fn scorable(&self) -> bool {
        forall|i: int|
            0 <= i < self.individuals.len() ==> self.f.accepts(
                (#[trigger] self.individuals@[i]).chromosome@,
            )
    }

    /// `size` unevaluated random individuals of `length` printable ASCII
    /// characters each, scored later by `f`.
    pub fn new(size: usize, length: usize, f: &'a F) -> (r: Population<'a, F>)
        requires
            size > 0,
            length > 0,
        ensures
            r.f == f,
            r.individuals.len() == size,
            r.uniform(length as nat),
            forall|i: int, j: int|
                0 <= i < size && 0 <= j < length ==> is_printable(
                    #[trigger] r.individuals@[i].chromosome@[j],
                ),
            forall|i: int| 0 <= i < size ==> (#[trigger] r.individuals@[i]).fitness == 0,
    {
        let mut individuals: Vec<Individual> = Vec::with_capacity(size);
        let mut n: usize = 0;
        while n < size
            invariant
                n <= size,
                individuals.len() == n,
                forall|i: int|
                    0 <= i < n ==> (#[trigger] individuals@[i]).chromosome.len() == length
                        && individuals@[i].fitness == 0,
                forall|i: int, j: int|
                    0 <= i < n && 0 <= j < length ==> is_printable(
                        #[trigger] individuals@[i].chromosome@[j],
                    ),
            decreases size - n,
        {
            let x = Individual::new_rand(length);
            individuals.push(x);
            proof {
                assert forall|i: int, j: int|
                    0 <= i < n + 1 && 0 <= j < length implies is_printable(
                    #[trigger] individuals@[i].chromosome@[j],
                ) by {
                    if i == n {
                        assert(individuals@[i] == x);
                    }
                }
            }
            n = n + 1;
        }
        Population { individuals, f }
    }

    /// Scores every individual with the fitness capability, then stably sorts
    /// the individuals by descending fitness.
    pub fn fitness(&mut self)
        requires
            old(self).scorable(),
        ensures
            final(self).f == old(self).f,
            is_stable_rank(final(self).individuals@, rescored(old(self).individuals@, old(self).f)),
    {
        let ghost s = rescored(self.individuals@, self.f);
        let ghost n = self.individuals.len();
        let mut rest: Vec<Individual> = Vec::new();
        std::mem::swap(&mut rest, &mut self.individuals);
        let ghost orig = rest@;
        let mut out: Vec<Individual> = Vec::new();
        let mut i: usize = 0;
        while rest.len() > 0
            invariant
                n == orig.len(),
                s == rescored(orig, self.f),
                forall|j: int| 0 <= j < n ==> self.f.accepts((#[trigger] orig[j]).chromosome@),
                i <= n,
                rest@ == orig.skip(i as int),
                out.len() == i,
                sorted_desc(out@),
                forall|v: u32| #[trigger]
                    with_fitness(out@, v) == with_fitness(s.take(i as int), v),
            decreases rest.len(),
        {
            let mut x = rest.remove(0);
            assert(x == orig[i as int]);
            x.fitness = self.f.score(&x);
            assert(x == s[i as int]);
            let ghost before = out@;
            rank_insert(&mut out, x);
            proof {
                assert(s.take(i + 1) =~= s.take(i as int).push(x));
                assert forall|v: u32| #[trigger]
                    with_fitness(out@, v) == with_fitness(s.take(i + 1), v) by {
                    s.take(i as int).lemma_filter_push(x, fitness_is(v));
                    assert(with_fitness(before, v) == with_fitness(s.take(i as int), v));
                }
            }
            i = i + 1;
        }
        assert(s.take(i as int) =~= s);
        self.individuals = out;
    }

    /// Single-point crossover of two parents of equal length at a uniformly
    /// drawn point `p` strictly inside the chromosome (`1 <= p <= len - 2`).
    /// The first child takes `[0, p)` from `b` and the rest from `a`; the
    /// second takes `[0, p)` from `a` and the rest from `b`. Both children are
    /// unevaluated; the parents are left as they are.
    pub fn crossover(&self, a: &Individual, b: &Individual) -> (r: (Individual, Individual))
        requires
            a.chromosome.len() == b.chromosome.len(),
            a.chromosome.len() >= 3,
        ensures
            exists|p: int|
                1 <= p <= a.chromosome.len() - 2 && r.0.chromosome@ == child(
                    b.chromosome@,
                    a.chromosome@,
                    p,
                ) && r.1.chromosome@ == child(a.chromosome@, b.chromosome@, p),
            r.0.fitness == 0,
            r.1.fitness == 0,
    {
        let p = draw_in(1, a.chromosome.len() - 1);
        crossover_at(a, b, p)
    }
}

/// Single-point crossover at the given point `p`: the first child takes
/// `[0, p)` from `b` and `[p, len)` from `a`; the second takes `[0, p)` from
/// `a` and `[p, len)` from `b`. Both children are unevaluated.
pub fn crossover_at(a: &Individual, b: &Individual, p: usize) -> (r: (Individual, Individual))
    requires
        a.chromosome.len() == b.chromosome.len(),
        p <= a.chromosome.len(),
    ensures
        r.0.chromosome@ == child(b.chromosome@, a.chromosome@, p as int),
        r.1.chromosome@ == child(a.chromosome@, b.chromosome@, p as int),
        r.0.fitness == 0,
        r.1.fitness == 0,
{
    let len = a.chromosome.len();
    let mut desc_a: Vec<char> = Vec::with_capacity(len);
    let mut desc_b: Vec<char> = Vec::with_capacity(len);
    let mut i: usize = 0;
    while i < len
        invariant
            len == a.chromosome.len(),
            len == b.chromosome.len(),
            p <= len,
            i <= len,
            desc_a@ == child(b.chromosome@, a.chromosome@, p as int).take(i as int),
            desc_b@ == child(a.chromosome@, b.chromosome@, p as int).take(i as int),
        decreases len - i,
    {
        let ghost ca = child(b.chromosome@, a.chromosome@, p as int);
        let ghost cb = child(a.chromosome@, b.chromosome@, p as int);
        if i < p {
            desc_a.push(b.chromosome[i]);
            desc_b.push(a.chromosome[i]);
        } else {
            desc_a.push(a.chromosome[i]);
            desc_b.push(b.chromosome[i]);
        }
        assert(desc_a@ =~= ca.take(i + 1));
        assert(desc_b@ =~= cb.take(i + 1));
        i = i + 1;
    }
    assert(desc_a@ =~= child(b.chromosome@, a.chromosome@, p as int));
    assert(desc_b@ =~= child(a.chromosome@, b.chromosome@, p as int));
    (Individual::new(desc_a), Individual::new(desc_b))
}

/// Crossover invents no character: both children keep the parents' length,
/// and at each position the two children hold the same pair of characters as
/// the two parents, one from each.
pub proof fn lemma_crossover_preserves_positions(a: Seq<char>, b: Seq<char>, p: int)
    requires
        a.len() == b.len(),
        0 <= p <= a.len(),
    ensures
        child(b, a, p).len() == a.len(),
        child(a, b, p).len() == a.len(),
        child(b, a, p).take(p) == b.take(p),
        child(b, a, p).skip(p) == a.skip(p),
        child(a, b, p).take(p) == a.take(p),
        child(a, b, p).skip(p) == b.skip(p),
        forall|i: int|
            0 <= i < a.len() ==> (child(b, a, p)[i] == a[i] && child(a, b, p)[i] == b[i]) || (
            child(b, a, p)[i] == b[i] && child(a, b, p)[i] == a[i]),
{
    assert(child(b, a, p).take(p) =~= b.take(p));
    assert(child(b, a, p).skip(p) =~= a.skip(p));
    assert(child(a, b, p).take(p) =~= a.take(p));
    assert(child(a, b, p).skip(p) =~= b.skip(p));
}

/// Crossing a chromosome with itself gives that chromosome back.
pub proof fn lemma_crossover_identical(a: Seq<char>, p: int)
    requires
        0 <= p <= a.len(),
    ensures
        child(a, a, p) == a,
{
    assert(child(a, a, p) =~= a);
}

/// A ranked sequence holds only individuals of the sequence it ranks.
pub proof fn lemma_rank_members(r: Seq<Individual>, s: Seq<Individual>)
    requires
        is_stable_rank(r, s),
    ensures
        forall|i: int| 0 <= i < r.len() ==> s.contains(#[trigger] r[i]),
{
    broadcast use group_filter_ensures;

    assert forall|i: int| 0 <= i < r.len() implies s.contains(#[trigger] r[i]) by {
        let v = r[i].fitness;
        r.lemma_filter_contains(fitness_is(v), i);
        assert(with_fitness(r, v) == with_fitness(s, v));
        assert(s.filter(fitness_is(v)).contains(r[i]));
        #[allow(deprecated)]
        s.lemma_filter_contains_rev(fitness_is(v), r[i]);
    }
}

/// `x` carries the chromosome of an individual of `s` and that chromosome's
/// score under `f`.
pub open spec fn scored_from<F: Fitness>(x: Individual, s: Seq<Individual>, f: &F) -> bool {
    exists|k: int|
        0 <= k < s.len() && x.chromosome == (#[trigger] s[k]).chromosome && x.fitness
            == f.spec_score(s[k].chromosome@)
}

/// Each individual of a ranking of `rescored(s, f)` carries the chromosome of
/// an individual of `s` and that chromosome's score.
pub proof fn lemma_rank_of_rescored<F: Fitness>(r: Seq<Individual>, s: Seq<Individual>, f: &F)
    requires
        is_stable_rank(r, rescored(s, f)),
    ensures
        forall|i: int| 0 <= i < r.len() ==> scored_from(#[trigger] r[i], s, f),
{
    lemma_rank_members(r, rescored(s, f));
    assert forall|i: int| 0 <= i < r.len() implies scored_from(#[trigger] r[i], s, f) by {
        assert(rescored(s, f).contains(r[i]));
        let k = choose|k: int| 0 <= k < s.len() && rescored(s, f)[k] == r[i];
        assert(rescored(s, f)[k] == Individual {
            chromosome: s[k].chromosome,
            fitness: f.spec_score(s[k].chromosome@),
        });
    }
}

/// After ranking, the first individual carries the highest fitness.
pub proof fn lemma_rank_best_first(r: Seq<Individual>, s: Seq<Individual>)
    requires
        is_stable_rank(r, s),
        r.len() > 0,
    ensures
        forall|i: int| 0 <= i < r.len() ==> r[0].fitness >= #[trigger] r[i].fitness,
{
    assert forall|i: int| 0 <= i < r.len() implies r[0].fitness >= #[trigger] r[i].fitness by {
        if i > 0 {
            assert(sorted_desc(r));
        }
    }
}

} // verus!
