use vstd::prelude::*;

verus! {

/// Which side an entity fights for.
#[derive(Debug, Clone, PartialEq, Eq, Structural)]
pub enum Group {
    Friendly,
    Hostility,
}

} // verus!
