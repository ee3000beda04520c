//! Per-species age counters: generations lived, evaluations done, and the
//! current streak of generations without a fitness improvement.

use vstd::prelude::*;

verus! {

/// Counters describing how long a species has existed and how long it has
/// gone without improving. All counters start at zero.
#[derive(Clone, Copy, PartialEq, Eq, Structural)]
pub struct Age {
    /// Number of generations this species has lived through.
    pub generations: usize,
    /// Number of evaluation passes this species has been part of.
    pub evaluations: usize,
    /// Number of consecutive generations without a new best fitness.
    pub no_improvements: usize,
}

impl Age {
    /// A fresh age: every counter is zero.
    pub fn new() -> (r: Self)
        ensures
            r == (Age { generations: 0, evaluations: 0, no_improvements: 0 }),
    {
        Self { generations: 0, evaluations: 0, no_improvements: 0 }
    }

    pub fn increase_generations(&mut self)
        requires
            old(self).generations < usize::MAX,
        ensures
            *final(self) == (Age { generations: (old(self).generations + 1) as usize, ..*old(self) }),
    {
        self.generations = self.generations + 1;
    }

    pub fn increase_evaluations(&mut self)
        requires
            old(self).evaluations < usize::MAX,
        ensures
            *final(self) == (Age { evaluations: (old(self).evaluations + 1) as usize, ..*old(self) }),
    {
        self.evaluations = self.evaluations + 1;
    }

    pub fn increase_no_improvements(&mut self)
        requires
            old(self).no_improvements < usize::MAX,
        ensures
            *final(self) == (Age { no_improvements: (old(self).no_improvements + 1) as usize, ..*old(self) }),
    {
        self.no_improvements = self.no_improvements + 1;
    }

    /// Makes the age young again. Rejuvenation also clears the stagnation
    /// streak, so both `generations` and `no_improvements` return to zero.
    pub fn reset_generations(&mut self)
        ensures
            *final(self) == (Age { generations: 0, no_improvements: 0, ..*old(self) }),
    {
        self.generations = 0;
        self.no_improvements = 0;
    }

    pub fn reset_no_improvements(&mut self)
        ensures
            *final(self) == (Age { no_improvements: 0, ..*old(self) }),
    {
        self.no_improvements = 0;
    }

    pub fn reset_evaluations(&mut self)
        ensures
            *final(self) == (Age { evaluations: 0, ..*old(self) }),
    {
        self.evaluations = 0;
    }
}

} // verus!
