use vstd::prelude::*;

verus! {

/// A constraint system under evaluation on a witness: it keeps whether the
/// witness meets every constraint added so far.
#[derive(Clone, Copy, Debug)]
pub struct CS {
    satisfied: bool,
}

impl CS {
    /// Whether the witness meets every constraint added so far.
    pub closed spec fn satisfied(&self) -> bool {
        self.satisfied
    }

    /// A system without constraints.
    pub fn new() -> (r: CS)
        ensures
            r.satisfied(),
    {
        CS { satisfied: true }
    }

    /// Whether the witness meets every constraint added so far.
    pub fn is_satisfied(&self) -> (r: bool)
        ensures
            r == self.satisfied(),
    {
        self.satisfied
    }

    /// Adds a constraint that the witness meets or not.
    pub fn enforce(&mut self, holds: bool)
        ensures
            final(self).satisfied() == (old(self).satisfied() && holds),
    {
        self.satisfied = self.satisfied && holds;
    }
}

} // verus!
