//! A candidate solution: a chromosome of characters with a fitness score.
use crate::random::draw_in;
use vstd::prelude::*;

verus! {

/// Lowest printable ASCII code point (space).
pub const PRINTABLE_LOW: u8 = 32;

/// One past the highest printable ASCII code point (`~`).
pub const PRINTABLE_END: u8 = 127;

/// A printable ASCII character: code point in `[32, 126]`.
pub open spec fn is_printable(c: char) -> bool {
    PRINTABLE_LOW <= (c as u32) && (c as u32) < PRINTABLE_END
}

#[derive(Clone, Debug, PartialEq, Eq)]
pub struct Individual {
    pub chromosome: Vec<char>,
    pub fitness: u32,
}

impl Individual {
    /// Wraps a chromosome as an unevaluated individual.
    pub fn new(chromosome: Vec<char>) -> (r: Individual)
        ensures
            r.chromosome@ == chromosome@,
            r.fitness == 0,
    {
        Individual { chromosome, fitness: 0 }
    }

    /// An unevaluated individual of `length` uniformly drawn printable ASCII
    /// characters.
    pub fn new_rand(length: usize) -> (r: Individual)
        ensures
            r.chromosome.len() == length,
            forall|i: int| 0 <= i < length ==> is_printable(#[trigger] r.chromosome@[i]),
            r.fitness == 0,
    {
        let mut c: Vec<char> = Vec::with_capacity(length);
        let mut i: usize = 0;
        while i < length
            invariant
                i <= length,
                c.len() == i,
                forall|j: int| 0 <= j < i ==> is_printable(#[trigger] c@[j]),
            decreases length - i,
        {
            c.push(random_printable());
            i = i + 1;
        }
        Individual::new(c)
    }

    /// Replaces the character at `index` with `c`; everything else, the
    /// fitness included, is kept.
    pub fn mutate_at(&mut self, index: usize, c: char)
        requires
            index < old(self).chromosome.len(),
        ensures
            final(self).chromosome@ == old(self).chromosome@.update(index as int, c),
            final(self).fitness == old(self).fitness,
    {
        self.chromosome.set(index, c);
    }

    /// Replaces the character at one uniformly drawn position with a freshly
    /// drawn printable ASCII character. The length is kept, every other
    /// position is kept, and the fitness is left as it was (stale).
    pub fn mutate(&mut self)
        requires
            old(self).chromosome.len() > 0,
        ensures
            final(self).chromosome.len() == old(self).chromosome.len(),
            final(self).fitness == old(self).fitness,
            exists|index: int|
                0 <= index < old(self).chromosome.len() && is_printable(
                    #[trigger] final(self).chromosome@[index],
                ) && final(self).chromosome@ == old(self).chromosome@.update(
                    index,
                    final(self).chromosome@[index],
                ),
    {
        let index = draw_in(0, self.chromosome.len());
        let c = random_printable();
        self.mutate_at(index, c);
        assert(self.chromosome@[index as int] == c);
    }
}

/// Draws one printable ASCII character uniformly.
pub(crate) fn random_printable() -> (c: char)
    ensures
        is_printable(c),
{
    let code = draw_in(PRINTABLE_LOW as usize, PRINTABLE_END as usize);
    let b: u8 = code as u8;
    b as char
}

} // verus!
