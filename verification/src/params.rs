//! Render-pass configuration: the ignore set and the inspector registry.

use std::collections::HashSet;
use vstd::prelude::*;

verus! {

broadcast use vstd::std_specs::hash::group_hash_axioms;

/// Controls the way the world inspector is shown.  Mutable only between
/// render passes; read-only while one runs.
pub struct WorldInspectorParams {
    /// component types (by stable identifier) that will not be rendered
    pub ignore_components: HashSet<u64>,
}

impl WorldInspectorParams {
    /// Starts with nothing ignored.  The embedder adds its own noise types
    /// (name, parent-link and similar internal components) at startup.
    pub fn new() -> (r: WorldInspectorParams)
        ensures
            r.ignore_components@ == Set::<u64>::empty(),
    {
        WorldInspectorParams { ignore_components: HashSet::new() }
    }

    /// Startup constructor: ignore exactly the listed type identifiers.
    pub fn with_ignored(ids: &Vec<u64>) -> (r: WorldInspectorParams)
        ensures
            forall|t: u64| r.ignore_components@.contains(t) <==> ids@.contains(t),
    {
        let mut r = WorldInspectorParams::new();
        let mut i: usize = 0;
        while i < ids.len()
            invariant
                i <= ids.len(),
                forall|t: u64| r.ignore_components@.contains(t) <==> ids@.subrange(
                    0,
                    i as int,
                ).contains(t),
            decreases ids.len() - i,
        {
            let ghost before = ids@.subrange(0, i as int);
            r.ignore_component(ids[i]);
            proof {
                assert(ids@.subrange(0, i + 1) =~= before.push(ids@[i as int]));
                assert forall|t: u64| r.ignore_components@.contains(t) <==> ids@.subrange(
                    0,
                    i + 1,
                ).contains(t) by {
                    if t == ids@[i as int] {
                        assert(ids@.subrange(0, i + 1)[i as int] == t);
                    } else {
                        if before.contains(t) {
                            let k = choose|k: int| 0 <= k < before.len() && before[k] == t;
                            assert(ids@.subrange(0, i + 1)[k] == t);
                        }
                        if ids@.subrange(0, i + 1).contains(t) {
                            let k = choose|k: int|
                                0 <= k < i + 1 && #[trigger] ids@.subrange(0, i + 1)[k] == t;
                            assert(before[k] == t);
                        }
                    }
                };
            }
            i += 1;
        }
        proof {
            assert(ids@.subrange(0, ids@.len() as int) =~= ids@);
        }
        r
    }

    /// Add a component type to the ignore list.
    pub fn ignore_component(&mut self, type_id: u64)
        ensures
            final(self).ignore_components@ == old(self).ignore_components@.insert(type_id),
    {
        self.ignore_components.insert(type_id);
    }

    /// Is this component type on the ignore list?
    pub fn should_ignore_component(&self, type_id: u64) -> (r: bool)
        ensures
            r == self.ignore_components@.contains(type_id),
    {
        self.ignore_components.contains(&type_id)
    }
}

impl Default for WorldInspectorParams {
    /// Same as `new`: nothing ignored until the embedder says so.
    fn default() -> (r: Self)
        ensures
            r.ignore_components@ == Set::<u64>::empty(),
    {
        WorldInspectorParams::new()
    }
}

/// The set of component types for which the embedder has registered an
/// inspector.  The inspector functions themselves draw into the embedder's
/// UI and stay outside this core; the render pass only needs to know
/// whether dispatch for a type can succeed.
pub struct InspectorRegistry {
    pub registered: HashSet<u64>,
}

impl InspectorRegistry {
    /// An empty dispatch table.
    pub fn new() -> (r: InspectorRegistry)
        ensures
            r.registered@ == Set::<u64>::empty(),
    {
        InspectorRegistry { registered: HashSet::new() }
    }

    /// Record that an inspector exists for this component type.
    pub fn register(&mut self, type_id: u64)
        ensures
            final(self).registered@ == old(self).registered@.insert(type_id),
    {
        self.registered.insert(type_id);
    }

    /// Can components of this type be dispatched to an inspector?
    pub fn is_registered(&self, type_id: u64) -> (r: bool)
        ensures
            r == self.registered@.contains(type_id),
    {
        self.registered.contains(&type_id)
    }
}

impl Default for InspectorRegistry {
    /// Same as `new`: no inspectors registered yet.
    fn default() -> (r: Self)
        ensures
            r.registered@ == Set::<u64>::empty(),
    {
        InspectorRegistry::new()
    }
}

} // verus!
