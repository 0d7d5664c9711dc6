//! Hamming distance and the fitness capability used to rank individuals.
use crate::individual::Individual;
use vstd::prelude::*;

verus! {

/// Number of positions among the first `a.len()` at which `a` and `b` differ.
pub open spec fn diff_count(a: Seq<char>, b: Seq<char>) -> nat
    decreases a.len(),
{
    if a.len() == 0 {
        0
    } else {
        diff_count(a.drop_last(), b.take(a.len() - 1))
            + if a.last() != b[a.len() - 1] { 1nat } else { 0nat }
    }
}

/// Number of positions among the first `a.len()` at which `a` and `b` agree.
pub open spec fn match_count(a: Seq<char>, b: Seq<char>) -> nat
    decreases a.len(),
{
    if a.len() == 0 {
        0
    } else {
        match_count(a.drop_last(), b.take(a.len() - 1))
            + if a.last() == b[a.len() - 1] { 1nat } else { 0nat }
    }
}

/// Every position either differs or agrees: the Hamming distance and the
/// number of matching positions add up to the length.
pub proof fn lemma_diff_plus_match(a: Seq<char>, b: Seq<char>)
    requires
        a.len() == b.len(),
    ensures
        diff_count(a, b) + match_count(a, b) == a.len(),
    decreases a.len(),
{
    if a.len() > 0 {
        assert(b.take(a.len() - 1).len() == a.drop_last().len());
        lemma_diff_plus_match(a.drop_last(), b.take(a.len() - 1));
    }
}

/// Counts the positions at which two equal-length strings differ.
pub fn hamming(a: &Vec<char>, b: &Vec<char>) -> (r: u32)
    requires
        a.len() == b.len(),
        a.len() <= u32::MAX,
    ensures
        r == diff_count(a@, b@),
{
    let mut r: u32 = 0;
    let mut i: usize = 0;
    while i < a.len()
        invariant
            a.len() == b.len(),
            a.len() <= u32::MAX,
            i <= a.len(),
            r == diff_count(a@.take(i as int), b@.take(i as int)),
            r <= i,
        decreases a.len() - i,
    {
        proof {
            let ai = a@.take(i + 1);
            assert(ai.drop_last() =~= a@.take(i as int));
            assert(b@.take(i + 1).take(i as int) =~= b@.take(i as int));
        }
        if a[i] != b[i] {
            r = r + 1;
        }
        i = i + 1;
    }
    assert(a@.take(i as int) =~= a@);
    assert(b@.take(i as int) =~= b@);
    r
}

/// A diff count never exceeds the length of the first string.
pub proof fn lemma_diff_count_bound(a: Seq<char>, b: Seq<char>)
    ensures
        diff_count(a, b) <= a.len(),
    decreases a.len(),
{
    if a.len() > 0 {
        lemma_diff_count_bound(a.drop_last(), b.take(a.len() - 1));
    }
}

/// Hamming distance is symmetric: `hamming(a, b) == hamming(b, a)`.
pub proof fn lemma_hamming_symmetric(a: Seq<char>, b: Seq<char>)
    requires
        a.len() == b.len(),
    ensures
        diff_count(a, b) == diff_count(b, a),
    decreases a.len(),
{
    if a.len() > 0 {
        assert(a.drop_last() =~= a.take(a.len() - 1));
        assert(b.drop_last() =~= b.take(b.len() - 1));
        lemma_hamming_symmetric(a.drop_last(), b.drop_last());
    }
}

/// A string is at Hamming distance zero from itself.
pub proof fn lemma_hamming_self(a: Seq<char>)
    ensures
        diff_count(a, a) == 0,
    decreases a.len(),
{
    if a.len() > 0 {
        assert(a.drop_last() =~= a.take(a.len() - 1));
        lemma_hamming_self(a.drop_last());
    }
}

/// A scoring capability for chromosomes: pure and deterministic in the
/// chromosome, defined on the chromosomes it accepts.
pub trait Fitness {
    /// The chromosomes this capability can score.
    spec fn accepts(&self, c: Seq<char>) -> bool;

    /// The score of an accepted chromosome.
    spec fn spec_score(&self, c: Seq<char>) -> u32;

    /// Scores an individual by its chromosome.
    fn score(&self, individual: &Individual) -> (r: u32)
        requires
            self.accepts(individual.chromosome@),
        ensures
            r == self.spec_score(individual.chromosome@),
    ;
}

/// Scores a chromosome by the number of positions at which it matches a
/// target string.
pub struct TargetMatch {
    pub target: Vec<char>,
}

impl TargetMatch {
    /// The target's length fits the score type.
    pub open spec fn wf(&self) -> bool {
        self.target.len() <= u32::MAX
    }

    pub fn new(target: Vec<char>) -> (r: TargetMatch)
        requires
            target.len() <= u32::MAX,
        ensures
            r.target@ == target@,
            r.wf(),
    {
        TargetMatch { target }
    }
}

impl Fitness for TargetMatch {
    open spec fn accepts(&self, c: Seq<char>) -> bool {
        self.wf() && c.len() == self.target.len()
    }

    open spec fn spec_score(&self, c: Seq<char>) -> u32 {
        (self.target.len() - diff_count(self.target@, c)) as u32
    }

    fn score(&self, individual: &Individual) -> (r: u32) {
        let d = hamming(&self.target, &individual.chromosome);
        proof {
            lemma_diff_count_bound(self.target@, individual.chromosome@);
        }
        self.target.len() as u32 - d
    }
}

/// The target-matching score is the length minus the Hamming distance to the
/// target, which is the number of positions matching the target; it never
/// exceeds the length, and the target itself scores the full length.
pub proof fn lemma_target_match_score(f: &TargetMatch, c: Seq<char>)
    requires
        f.accepts(c),
    ensures
        f.spec_score(c) as int == f.target.len() - diff_count(f.target@, c),
        f.spec_score(c) == match_count(f.target@, c),
        f.spec_score(c) <= f.target.len(),
        f.spec_score(f.target@) == f.target.len(),
{
    lemma_diff_count_bound(f.target@, c);
    lemma_diff_plus_match(f.target@, c);
    lemma_hamming_self(f.target@);
}

} // verus!
