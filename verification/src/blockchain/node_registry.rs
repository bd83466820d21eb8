//! The registry of node identifiers in use. Whoever holds the registry
//! exclusively registers and releases identifiers in one step each, so no
//! identifier is ever handed out twice.

use crate::encoding::{decimal_text, push_decimal_text};
use std::collections::HashSet;
use vstd::prelude::*;
use vstd::std_specs::hash::*;
use vstd::string::*;

verus! {

broadcast use vstd::std_specs::hash::group_hash_axioms;

/// The identifiers that are in use.
#[derive(Debug)]
pub struct NodeRegistry {
    pub ids: HashSet<u32>,
}

impl View for NodeRegistry {
    type V = Set<u32>;

    open spec fn view(&self) -> Set<u32> {
        self.ids@
    }
}

/// What `register_id` says when the identifier is taken.
pub open spec fn id_in_use_message(id: u32) -> Seq<char> {
    "ID "@ + decimal_text(id as nat) + " já está em uso"@
}

impl NodeRegistry {
    /// A registry in which no identifier is in use.
    pub fn new() -> (registry: NodeRegistry)
        ensures
            registry@ == Set::<u32>::empty(),
    {
        NodeRegistry { ids: HashSet::new() }
    }

    /// Whether `id` is in use.
    pub fn is_registered(&self, id: u32) -> (used: bool)
        ensures
            used == self@.contains(id),
    {
        self.ids.contains(&id)
    }
}

/// Takes `id` into use. Fails, and changes nothing, if it is in use
/// already.
pub fn register_id(registry: &mut NodeRegistry, id: u32) -> (res: Result<(), String>)
    ensures
        old(registry)@.contains(id) ==> res is Err && res->Err_0@ == id_in_use_message(id)
            && final(registry)@ == old(registry)@,
        !old(registry)@.contains(id) ==> res is Ok && final(registry)@ == old(registry)@.insert(id),
{
    if registry.ids.contains(&id) {
        let mut message = "ID ".to_owned();
        push_decimal_text(&mut message, id as u64);
        message.append(" já está em uso");
        Err(message)
    } else {
        registry.ids.insert(id);
        Ok(())
    }
}

/// Releases `id`. Nothing happens if it was not in use.
pub fn unregister_id(registry: &mut NodeRegistry, id: u32)
    ensures
        final(registry)@ == old(registry)@.remove(id),
{
    registry.ids.remove(&id);
}

} // verus!
