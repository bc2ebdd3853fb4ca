//! One-shot snapshot index of the object graph.
//!
//! `WorldSnapshotIndex::build` scans every storage group in order and maps
//! each entity to its `Location` and to the component-type list recorded at
//! that location.  The index is rebuilt for every render pass and must not
//! outlive it: the host may relocate entities between passes.

use std::collections::HashMap;
use vstd::prelude::*;

use crate::model::{ComponentType, Location, StorageGroup};
use crate::model::copy_component_types;

verus! {

broadcast use vstd::std_specs::hash::group_hash_axioms;

/// Derived per-entity record: the entity's location and, in scan order, the
/// component types of every storage-group occurrence of the entity.
#[derive(Debug)]
pub struct EntityEntry {
    pub location: Location,
    pub types: Vec<ComponentType>,
}

/// Reported when two storage-group scans place the same entity at two
/// different locations: the host's disjoint-membership invariant is broken,
/// and the render pass must be aborted rather than risk showing component
/// data of the wrong entity.
#[derive(Clone, Copy, PartialEq, Eq, Structural, Debug)]
pub struct LocationConflict {
    pub entity: u64,
    pub first: Location,
    pub second: Location,
}

/// Snapshot mapping from entity to its entry, built fresh each render pass.
#[derive(Debug)]
pub struct WorldSnapshotIndex {
    pub map: HashMap<u64, EntityEntry>,
}

/// `(g, s)` is a cell of the graph: group `g` exists and has a slot `s`.
pub open spec fn valid_cell(gs: Seq<StorageGroup>, g: int, s: int) -> bool {
    &&& 0 <= g < gs.len()
    &&& 0 <= s < gs[g].entities@.len()
}

/// The entity held by cell `(g, s)`.
pub open spec fn entity_at(gs: Seq<StorageGroup>, g: int, s: int) -> u64 {
    gs[g].entities@[s]
}

/// Some cell of the graph holds entity `e`.
pub open spec fn graph_contains(gs: Seq<StorageGroup>, e: u64) -> bool {
    exists|g: int, s: int| valid_cell(gs, g, s) && entity_at(gs, g, s) == e
}

/// No entity occupies two distinct cells: the storage groups partition the
/// entities and list each at one slot only.
pub open spec fn placement_injective(gs: Seq<StorageGroup>) -> bool {
    forall|g1: int, s1: int, g2: int, s2: int|
        valid_cell(gs, g1, s1) && valid_cell(gs, g2, s2) && (g1 != g2 || s1 != s2)
            ==> #[trigger] entity_at(gs, g1, s1) != #[trigger] entity_at(gs, g2, s2)
}

/// What a successful `build` returns: the index holds exactly the graph's
/// entities, and each one is mapped to its unique cell and to that cell's
/// group-wide component-type list.
pub open spec fn is_snapshot_of(index: WorldSnapshotIndex, gs: Seq<StorageGroup>) -> bool {
    &&& placement_injective(gs)
    &&& forall|e: u64| #[trigger] index.map@.contains_key(e) <==> graph_contains(gs, e)
    &&& forall|g: int, s: int|
        valid_cell(gs, g, s) ==> {
            let e = #[trigger] entity_at(gs, g, s);
            &&& index.map@.contains_key(e)
            &&& index.map@[e].location.group as int == g
            &&& index.map@[e].location.slot as int == s
            &&& index.map@[e].types@ == gs[g].types@
        }
}

/// A cell scanned strictly before cell `(g, s)` in group-then-slot order.
pub open spec fn scanned_before(g: int, s: int, gi: int, si: int) -> bool {
    gi < g || (gi == g && si < s)
}

impl WorldSnapshotIndex {
    /// Scans all storage groups and builds the entity index.  Succeeds if
    /// and only if no entity occupies two distinct cells; on the first
    /// entity found at two locations it reports both and the pass aborts.
    /// An entity seen again at the very same location would only have that
    /// occurrence's types appended to its list.
    pub fn build(groups: &Vec<StorageGroup>) -> (r: Result<WorldSnapshotIndex, LocationConflict>)
        requires
            groups@.len() <= u32::MAX,
        ensures
            match r {
                Ok(index) => is_snapshot_of(index, groups@),
                Err(c) => {
                    &&& !placement_injective(groups@)
                    &&& c.first != c.second
                    &&& valid_cell(groups@, c.first.group as int, c.first.slot as int)
                    &&& valid_cell(groups@, c.second.group as int, c.second.slot as int)
                    &&& entity_at(groups@, c.first.group as int, c.first.slot as int) == c.entity
                    &&& entity_at(groups@, c.second.group as int, c.second.slot as int) == c.entity
                },
            },
    {
        let ghost gs = groups@;
        let mut map: HashMap<u64, EntityEntry> = HashMap::new();
        let mut g: usize = 0;
        while g < groups.len()
            invariant
                gs == groups@,
                gs.len() <= u32::MAX,
                g <= gs.len(),
                forall|e: u64| #[trigger] map@.contains_key(e) <==> exists|gi: int, si: int|
                    scanned_before(g as int, 0, gi, si) && valid_cell(gs, gi, si) && entity_at(
                        gs,
                        gi,
                        si,
                    ) == e,
                forall|gi: int, si: int|
                    valid_cell(gs, gi, si) && scanned_before(g as int, 0, gi, si) ==> {
                        let e = #[trigger] entity_at(gs, gi, si);
                        &&& map@.contains_key(e)
                        &&& map@[e].location.group as int == gi
                        &&& map@[e].location.slot as int == si
                        &&& map@[e].types@ == gs[gi].types@
                    },
                forall|g1: int, s1: int, g2: int, s2: int|
                    valid_cell(gs, g1, s1) && valid_cell(gs, g2, s2) && scanned_before(
                        g as int,
                        0,
                        g1,
                        s1,
                    ) && scanned_before(g as int, 0, g2, s2) && (g1 != g2 || s1 != s2)
                        ==> #[trigger] entity_at(gs, g1, s1) != #[trigger] entity_at(gs, g2, s2),
            decreases gs.len() - g,
        {
            let group = &groups[g];
            let mut s: usize = 0;
            while s < group.entities.len()
                invariant
                    gs == groups@,
                    gs.len() <= u32::MAX,
                    g < gs.len(),
                    group == &groups[g as int],
                    s <= group.entities@.len(),
                    forall|e: u64| #[trigger] map@.contains_key(e) <==> exists|gi: int, si: int|
                        scanned_before(g as int, s as int, gi, si) && valid_cell(gs, gi, si)
                            && entity_at(gs, gi, si) == e,
                    forall|gi: int, si: int|
                        valid_cell(gs, gi, si) && scanned_before(g as int, s as int, gi, si) ==> {
                            let e = #[trigger] entity_at(gs, gi, si);
                            &&& map@.contains_key(e)
                            &&& map@[e].location.group as int == gi
                            &&& map@[e].location.slot as int == si
                            &&& map@[e].types@ == gs[gi].types@
                        },
                    forall|g1: int, s1: int, g2: int, s2: int|
                        valid_cell(gs, g1, s1) && valid_cell(gs, g2, s2) && scanned_before(
                            g as int,
                            s as int,
                            g1,
                            s1,
                        ) && scanned_before(g as int, s as int, g2, s2) && (g1 != g2 || s1 != s2)
                            ==> #[trigger] entity_at(gs, g1, s1) != #[trigger] entity_at(
                            gs,
                            g2,
                            s2,
                        ),
                decreases group.entities@.len() - s,
            {
                let e = group.entities[s];
                let location = Location { group: g as u32, slot: s };
                proof {
                    assert(valid_cell(gs, g as int, s as int));
                    assert(entity_at(gs, g as int, s as int) == e);
                }
                let existing: Option<Location> = match map.get(&e) {
                    Some(entry) => Some(entry.location),
                    None => None,
                };
                match existing {
                    Some(l) => {
                        proof {
                            let (gi, si) = choose|gi: int, si: int|
                                scanned_before(g as int, s as int, gi, si) && valid_cell(
                                    gs,
                                    gi,
                                    si,
                                ) && entity_at(gs, gi, si) == e;
                            assert(0 <= gi < gs.len() && gi <= u32::MAX);
                            assert(l.group as int == gi && l.slot as int == si);
                            assert(valid_cell(gs, l.group as int, l.slot as int));
                            assert(entity_at(gs, l.group as int, l.slot as int) == e);
                            assert(gi != g as int || si != s as int);
                        }
                        if l.group != location.group || l.slot != location.slot {
                            proof {
                                assert(l != location);
                                assert(entity_at(gs, l.group as int, l.slot as int) == entity_at(
                                    gs,
                                    g as int,
                                    s as int,
                                ));
                                assert(!placement_injective(gs));
                            }
                            return Err(
                                LocationConflict { entity: e, first: l, second: location },
                            );
                        }
                        // The stored location names an already-scanned cell,
                        // which the current cell is not, so the two cannot
                        // match; this defensive append is unreachable.
                        proof {
                            assert(l.group as int == g as int && l.slot as int == s as int);
                            assert(false);
                        }
                        let old_entry = map.remove(&e).unwrap();
                        let mut types = old_entry.types;
                        let mut extra = copy_component_types(&group.types);
                        types.append(&mut extra);
                        map.insert(e, EntityEntry { location: l, types });
                    },
                    None => {
                        let ghost m0 = map@;
                        let types = copy_component_types(&group.types);
                        map.insert(e, EntityEntry { location, types });
                        proof {
                            assert forall|x: u64| #[trigger] map@.contains_key(x) implies exists|
                                gi: int,
                                si: int,
                            |
                                scanned_before(g as int, s as int + 1, gi, si) && valid_cell(
                                    gs,
                                    gi,
                                    si,
                                ) && entity_at(gs, gi, si) == x by {
                                if x == e {
                                    assert(scanned_before(g as int, s as int + 1, g as int, s as int)
                                        && valid_cell(gs, g as int, s as int) && entity_at(
                                        gs,
                                        g as int,
                                        s as int,
                                    ) == x);
                                } else {
                                    assert(m0.contains_key(x));
                                    let (gi, si) = choose|gi: int, si: int|
                                        scanned_before(g as int, s as int, gi, si) && valid_cell(
                                            gs,
                                            gi,
                                            si,
                                        ) && entity_at(gs, gi, si) == x;
                                    assert(scanned_before(g as int, s as int + 1, gi, si)
                                        && valid_cell(gs, gi, si) && entity_at(gs, gi, si) == x);
                                }
                            };
                            assert forall|gi: int, si: int|
                                valid_cell(gs, gi, si) && scanned_before(
                                    g as int,
                                    s as int + 1,
                                    gi,
                                    si,
                                ) implies {
                                let x = #[trigger] entity_at(gs, gi, si);
                                &&& map@.contains_key(x)
                                &&& map@[x].location.group as int == gi
                                &&& map@[x].location.slot as int == si
                                &&& map@[x].types@ == gs[gi].types@
                            } by {
                                let x = entity_at(gs, gi, si);
                                if gi == g as int && si == s as int {
                                    assert(x == e);
                                } else {
                                    assert(scanned_before(g as int, s as int, gi, si));
                                    assert(x != e);
                                }
                            };
                        }
                    },
                }
                s += 1;
            }
            g += 1;
        }
        proof {
            assert forall|e: u64| #[trigger] map@.contains_key(e) implies graph_contains(gs, e) by {
                let (gi, si) = choose|gi: int, si: int|
                    scanned_before(g as int, 0, gi, si) && valid_cell(gs, gi, si) && entity_at(
                        gs,
                        gi,
                        si,
                    ) == e;
                assert(valid_cell(gs, gi, si) && entity_at(gs, gi, si) == e);
            };
            assert forall|e: u64| graph_contains(gs, e) implies map@.contains_key(e) by {
                let (gi, si) = choose|gi: int, si: int|
                    valid_cell(gs, gi, si) && entity_at(gs, gi, si) == e;
                assert(scanned_before(g as int, 0, gi, si) && valid_cell(gs, gi, si) && entity_at(
                    gs,
                    gi,
                    si,
                ) == e);
            };
            assert forall|gi: int, si: int| valid_cell(gs, gi, si) implies {
                let e = #[trigger] entity_at(gs, gi, si);
                &&& map@.contains_key(e)
                &&& map@[e].location.group as int == gi
                &&& map@[e].location.slot as int == si
                &&& map@[e].types@ == gs[gi].types@
            } by {
                assert(scanned_before(g as int, 0, gi, si));
            };
            assert forall|g1: int, s1: int, g2: int, s2: int|
                valid_cell(gs, g1, s1) && valid_cell(gs, g2, s2) && (g1 != g2 || s1 != s2) implies
                #[trigger] entity_at(gs, g1, s1) != #[trigger] entity_at(gs, g2, s2) by {
                assert(scanned_before(g as int, 0, g1, s1));
                assert(scanned_before(g as int, 0, g2, s2));
            };
        }
        Ok(WorldSnapshotIndex { map })
    }

    /// The snapshot entry of an entity, if the graph contained it.
    pub fn components_of(&self, entity: u64) -> (r: Option<&EntityEntry>)
        ensures
            match r {
                Some(entry) => self.map@.contains_key(entity) && *entry == self.map@[entity],
                None => !self.map@.contains_key(entity),
            },
    {
        self.map.get(&entity)
    }
}

/// Total length of the component-type lists of the groups from index `g` on
/// that contain entity `e`.
pub open spec fn sum_types_len_from(gs: Seq<StorageGroup>, e: u64, g: int) -> nat
    decreases gs.len() - g,
{
    if g < 0 || g >= gs.len() {
        0
    } else if gs[g].entities@.contains(e) {
        gs[g].types@.len() + sum_types_len_from(gs, e, g + 1)
    } else {
        sum_types_len_from(gs, e, g + 1)
    }
}

/// Total length of the component-type lists of the groups containing `e`.
pub open spec fn sum_types_len(gs: Seq<StorageGroup>, e: u64) -> nat {
    sum_types_len_from(gs, e, 0)
}

proof fn lemma_sum_single(gs: Seq<StorageGroup>, e: u64, g: int, lo: int)
    requires
        0 <= lo <= g < gs.len(),
        gs[g].entities@.contains(e),
        forall|g2: int| 0 <= g2 < gs.len() && g2 != g ==> !(#[trigger] gs[g2].entities@.contains(
            e,
        )),
    ensures
        sum_types_len_from(gs, e, lo) == gs[g].types@.len(),
    decreases g - lo,
{
    if lo == g {
        lemma_sum_zero(gs, e, g + 1);
    } else {
        lemma_sum_single(gs, e, g, lo + 1);
    }
}

proof fn lemma_sum_zero(gs: Seq<StorageGroup>, e: u64, lo: int)
    requires
        forall|g2: int| lo <= g2 < gs.len() ==> !(#[trigger] gs[g2].entities@.contains(e)),
    ensures
        sum_types_len_from(gs, e, lo) == 0,
    decreases gs.len() - lo,
{
    if 0 <= lo < gs.len() {
        lemma_sum_zero(gs, e, lo + 1);
    }
}

/// Every entity of the graph is a key of exactly the snapshot map (one entry
/// per entity), and its component list is exactly as long as the summed
/// type lists of the storage groups that contain it.
pub proof fn lemma_entry_component_count(
    index: WorldSnapshotIndex,
    gs: Seq<StorageGroup>,
    e: u64,
)
    requires
        is_snapshot_of(index, gs),
        graph_contains(gs, e),
    ensures
        index.map@.contains_key(e),
        index.map@[e].types@.len() == sum_types_len(gs, e),
{
    let (g, s) = choose|g: int, s: int| valid_cell(gs, g, s) && entity_at(gs, g, s) == e;
    assert(index.map@[e].types@ == gs[g].types@);
    assert forall|g2: int| 0 <= g2 < gs.len() && g2 != g implies !(
    #[trigger] gs[g2].entities@.contains(e)) by {
        if gs[g2].entities@.contains(e) {
            let s2 = choose|s2: int| 0 <= s2 < gs[g2].entities@.len() && gs[g2].entities@[s2] == e;
            assert(entity_at(gs, g2, s2) == entity_at(gs, g, s));
        }
    }
    lemma_sum_single(gs, e, g, 0);
}

/// Building twice from the same unmutated graph is deterministic: both
/// snapshots hold the same entities, and resolve each to the identical
/// location and component-type list.
pub proof fn lemma_build_deterministic(
    a: WorldSnapshotIndex,
    b: WorldSnapshotIndex,
    gs: Seq<StorageGroup>,
    e: u64,
)
    requires
        is_snapshot_of(a, gs),
        is_snapshot_of(b, gs),
    ensures
        a.map@.contains_key(e) <==> b.map@.contains_key(e),
        a.map@.contains_key(e) ==> {
            &&& a.map@[e].location == b.map@[e].location
            &&& a.map@[e].types@ == b.map@[e].types@
        },
{
    if a.map@.contains_key(e) {
        let (g, s) = choose|g: int, s: int| valid_cell(gs, g, s) && entity_at(gs, g, s) == e;
        assert(a.map@[e].location.group as int == g && a.map@[e].location.slot as int == s);
        assert(b.map@[e].location.group as int == g && b.map@[e].location.slot as int == s);
        assert(a.map@[e].location.group == b.map@[e].location.group);
        assert(a.map@[e].location.slot == b.map@[e].location.slot);
    }
}

} // verus!
