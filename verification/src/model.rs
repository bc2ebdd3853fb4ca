//! Plain-data model of the host object graph.
//!
//! Entities are stable `u64` identifiers.  A storage group ("archetype")
//! lists its entities in slot order together with the component types that
//! every entity of the group shares.  Relation data (display name, parent,
//! children) is carried per entity by `EntityRecord`, in the graph's natural
//! iteration order.

use vstd::prelude::*;

verus! {

/// Where an entity's component data lives: the storage group's index and
/// the entity's slot within that group.  Valid only for the snapshot it was
/// computed for.
#[derive(Clone, Copy, PartialEq, Eq, Structural, Debug)]
pub struct Location {
    pub group: u32,
    pub slot: usize,
}

/// A component type: a stable identifier used for dispatch and ignore
/// lists, and a fully-qualified name used (shortened) for display.
#[derive(Debug)]
pub struct ComponentType {
    pub id: u64,
    pub name: String,
}

/// A storage group ("archetype"): its entities in slot order, and the
/// component types shared by all of them.
#[derive(Debug)]
pub struct StorageGroup {
    pub entities: Vec<u64>,
    pub types: Vec<ComponentType>,
}

/// Per-entity relation data: an optional display name, an optional parent
/// link and an optional ordered children list.  An entity with no parent is
/// a root of the hierarchy.
#[derive(Debug)]
pub struct EntityRecord {
    pub entity: u64,
    pub name: Option<String>,
    pub parent: Option<u64>,
    pub children: Option<Vec<u64>>,
}

/// Copies a component-type list; the copy's view equals the original's.
pub fn copy_component_types(v: &Vec<ComponentType>) -> (r: Vec<ComponentType>)
    ensures
        r@ == v@,
{
    let mut r: Vec<ComponentType> = Vec::new();
    let mut i: usize = 0;
    while i < v.len()
        invariant
            i <= v.len(),
            r@ =~= v@.subrange(0, i as int),
        decreases v.len() - i,
    {
        let name = v[i].name.clone();
        r.push(ComponentType { id: v[i].id, name });
        proof {
            assert(r@ =~= v@.subrange(0, i + 1));
        }
        i += 1;
    }
    proof {
        assert(r@ =~= v@);
    }
    r
}

/// Copies a list of entity identifiers.
pub fn copy_entity_list(v: &Vec<u64>) -> (r: Vec<u64>)
    ensures
        r@ == v@,
{
    let mut r: Vec<u64> = Vec::new();
    let mut i: usize = 0;
    while i < v.len()
        invariant
            i <= v.len(),
            r@ =~= v@.subrange(0, i as int),
        decreases v.len() - i,
    {
        r.push(v[i]);
        proof {
            assert(r@ =~= v@.subrange(0, i + 1));
        }
        i += 1;
    }
    proof {
        assert(r@ =~= v@);
    }
    r
}

} // verus!
