//! Column storage for one component kind.

use vstd::prelude::*;

verus! {

/// Entity handle.
pub type Entity = u32;

/// Identifies a component kind (the role a Rust type plays for the caller).
pub type ComponentKind = u32;

/// Contiguous column of the values of one component kind inside an archetype.
pub struct TypedVec<V> {
    pub data: Vec<V>,
}

impl<V> TypedVec<V> {
    /// An empty column.
    pub fn new() -> (r: Self)
        ensures
            r.data@ == Seq::<V>::empty(),
    {
        TypedVec { data: Vec::new() }
    }
}

} // verus!
