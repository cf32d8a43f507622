use crate::model::{Keyword, Reaction};
use vstd::prelude::*;

verus! {

/// The keyword of a unit that cannot be declared as a blocker.
pub open spec fn cant_block_spec() -> Keyword {
    Keyword {
        name: "Can't Block",
        description: "This unit can't block.",
        reaction: Reaction::Silent,
    }
}

#[verifier::when_used_as_spec(cant_block_spec)]
pub fn cant_block() -> (k: Keyword)
    ensures
        k == cant_block_spec(),
{
    Keyword {
        name: "Can't Block",
        description: "This unit can't block.",
        reaction: Reaction::Silent,
    }
}

} // verus!
