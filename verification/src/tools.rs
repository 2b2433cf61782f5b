//! The context of tools executed by agents.
use vstd::prelude::*;

verus! {

/// A budget for exploration.
pub struct ExplorationBudget;

/// A decentralised identifier.
pub struct Did(pub String);

impl Did {
    pub fn to_string(&self) -> (r: String)
        ensures
            r == self.0,
    {
        self.0.clone()
    }
}

} // verus!
