//! Hierarchy rendering.
//!
//! One render pass walks the roots of the parent/children relation and
//! emits, for every entity, a collapsible region holding its component
//! regions and its children's regions.  The pass produces a flat sequence
//! of `UiOp` commands; the embedder executes them against its widget
//! toolkit and dispatches `Inspect` commands to its per-type inspectors.

use std::collections::HashMap;
use vstd::prelude::*;

use crate::model::{copy_entity_list, ComponentType, EntityRecord, Location};
use crate::names::{shorten_spec, short_name, wf_name};
use crate::params::{InspectorRegistry, WorldInspectorParams};
use crate::snapshot::{EntityEntry, WorldSnapshotIndex};

verus! {

broadcast use {vstd::std_specs::hash::group_hash_axioms, vstd::seq_lib::seq_to_set_is_finite};

/// One UI command.  `OpenRegion` and `CloseRegion` bracket a collapsible
/// region; commands between them form the region's body.
#[derive(Debug, PartialEq, Eq)]
pub enum UiOp {
    OpenRegion { label: String },
    CloseRegion,
    Label { text: String },
    Separator,
    /// Dispatch the registered inspector for the component of type
    /// `type_id` stored at `location`.
    Inspect { location: Location, type_id: u64 },
}

/// Mathematical form of a `UiOp`: labels as character sequences.
pub enum UiOpView {
    OpenRegion { label: Seq<char> },
    CloseRegion,
    Label { text: Seq<char> },
    Separator,
    Inspect { location: Location, type_id: u64 },
}

impl View for UiOp {
    type V = UiOpView;

    open spec fn view(&self) -> UiOpView {
        match self {
            UiOp::OpenRegion { label } => UiOpView::OpenRegion { label: label@ },
            UiOp::CloseRegion => UiOpView::CloseRegion,
            UiOp::Label { text } => UiOpView::Label { text: text@ },
            UiOp::Separator => UiOpView::Separator,
            UiOp::Inspect { location, type_id } => UiOpView::Inspect {
                location: *location,
                type_id: *type_id,
            },
        }
    }
}

pub open spec fn ops_view(ops: Seq<UiOp>) -> Seq<UiOpView> {
    ops.map_values(|op: UiOp| op@)
}

broadcast proof fn lemma_ops_view_push(ops: Seq<UiOp>, op: UiOp)
    ensures
        #[trigger] ops_view(ops.push(op)) =~= ops_view(ops).push(op@),
{
}

/// The decimal digits of `n`, most significant first.
pub open spec fn dec_str(n: nat) -> Seq<char>
    decreases n,
{
    if n < 10 {
        seq![dec_digit(n as int)]
    } else {
        dec_str(n / 10) + seq![dec_digit((n % 10) as int)]
    }
}

pub open spec fn dec_digit(d: int) -> char {
    if d == 0 {
        '0'
    } else if d == 1 {
        '1'
    } else if d == 2 {
        '2'
    } else if d == 3 {
        '3'
    } else if d == 4 {
        '4'
    } else if d == 5 {
        '5'
    } else if d == 6 {
        '6'
    } else if d == 7 {
        '7'
    } else if d == 8 {
        '8'
    } else {
        '9'
    }
}

fn dec_digit_str(d: u64) -> (r: &'static str)
    requires
        d < 10,
    ensures
        r@ =~= seq![dec_digit(d as int)],
{
    proof {
        reveal_strlit("0");
        reveal_strlit("1");
        reveal_strlit("2");
        reveal_strlit("3");
        reveal_strlit("4");
        reveal_strlit("5");
        reveal_strlit("6");
        reveal_strlit("7");
        reveal_strlit("8");
        reveal_strlit("9");
    }
    if d == 0 {
        "0"
    } else if d == 1 {
        "1"
    } else if d == 2 {
        "2"
    } else if d == 3 {
        "3"
    } else if d == 4 {
        "4"
    } else if d == 5 {
        "5"
    } else if d == 6 {
        "6"
    } else if d == 7 {
        "7"
    } else if d == 8 {
        "8"
    } else {
        "9"
    }
}

/// Renders `n` in decimal.
pub fn u64_to_dec(n: u64) -> (r: String)
    ensures
        r@ == dec_str(n as nat),
    decreases n,
{
    if n < 10 {
        String::from_str(dec_digit_str(n))
    } else {
        let mut r = u64_to_dec(n / 10);
        r.append(dec_digit_str(n % 10));
        proof {
            assert(r@ =~= dec_str(n as nat));
        }
        r
    }
}

/// The first record of entity `e` at or after index `i`.
pub open spec fn record_of_from(recs: Seq<EntityRecord>, e: u64, i: int) -> Option<EntityRecord>
    decreases recs.len() - i,
{
    if i < 0 || i >= recs.len() {
        None
    } else if recs[i].entity == e {
        Some(recs[i])
    } else {
        record_of_from(recs, e, i + 1)
    }
}

/// The relation record of entity `e`, if it has one.
pub open spec fn record_of(recs: Seq<EntityRecord>, e: u64) -> Option<EntityRecord> {
    record_of_from(recs, e, 0)
}

/// The entity's display label: its attached name, or "Entity " followed by
/// its identifier in decimal.
pub open spec fn display_name_spec(recs: Seq<EntityRecord>, e: u64) -> Seq<char> {
    match record_of(recs, e) {
        Some(rec) => match rec.name {
            Some(n) => n@,
            None => "Entity "@ + dec_str(e as nat),
        },
        None => "Entity "@ + dec_str(e as nat),
    }
}

/// The entity's children list, if it has one.
pub open spec fn children_of(recs: Seq<EntityRecord>, e: u64) -> Option<Seq<u64>> {
    match record_of(recs, e) {
        Some(rec) => match rec.children {
            Some(c) => Some(c@),
            None => None,
        },
        None => None,
    }
}

fn find_record<'a>(recs: &'a Vec<EntityRecord>, e: u64) -> (r: Option<&'a EntityRecord>)
    ensures
        match r {
            Some(rec) => record_of(recs@, e) == Some(*rec),
            None => record_of(recs@, e) is None,
        },
{
    let mut i: usize = 0;
    while i < recs.len()
        invariant
            i <= recs@.len(),
            record_of(recs@, e) == record_of_from(recs@, e, i as int),
        decreases recs@.len() - i,
    {
        if recs[i].entity == e {
            return Some(&recs[i]);
        }
        i += 1;
    }
    None
}

fn entity_fallback_name(e: u64) -> (r: String)
    ensures
        r@ == "Entity "@ + dec_str(e as nat),
{
    let mut r = String::from_str("Entity ");
    let digits = u64_to_dec(e);
    r.append(digits.as_str());
    r
}

fn display_name(recs: &Vec<EntityRecord>, e: u64) -> (r: String)
    ensures
        r@ == display_name_spec(recs@, e),
{
    match find_record(recs, e) {
        Some(rec) => match &rec.name {
            Some(n) => n.clone(),
            None => entity_fallback_name(e),
        },
        None => entity_fallback_name(e),
    }
}

fn contains_u64(v: &Vec<u64>, x: u64) -> (b: bool)
    ensures
        b == v@.contains(x),
{
    let mut i: usize = 0;
    while i < v.len()
        invariant
            i <= v@.len(),
            forall|j: int| 0 <= j < i ==> v@[j] != x,
        decreases v@.len() - i,
    {
        if v[i] == x {
            return true;
        }
        i += 1;
    }
    false
}

/// The region commands of a single component: nothing when the type is
/// ignored; otherwise a region labeled with the shortened type name whose
/// body is either an inspector dispatch or the literal fallback message.
pub open spec fn component_ops_one(
    loc: Location,
    t: ComponentType,
    ignore: Set<u64>,
    reg: Set<u64>,
) -> Seq<UiOpView> {
    if ignore.contains(t.id) {
        seq![]
    } else if reg.contains(t.id) {
        seq![
            UiOpView::OpenRegion { label: shorten_spec(t.name@) },
            UiOpView::Inspect { location: loc, type_id: t.id },
            UiOpView::CloseRegion,
        ]
    } else {
        seq![
            UiOpView::OpenRegion { label: shorten_spec(t.name@) },
            UiOpView::Label { text: "Inspectable has not been defined for this component"@ },
            UiOpView::CloseRegion,
        ]
    }
}

/// The commands of the components from index `i` on, in recorded order.
pub open spec fn components_ops(
    loc: Location,
    types: Seq<ComponentType>,
    ignore: Set<u64>,
    reg: Set<u64>,
    i: int,
) -> Seq<UiOpView>
    decreases types.len() - i,
{
    if i < 0 || i >= types.len() {
        seq![]
    } else {
        component_ops_one(loc, types[i], ignore, reg) + components_ops(
            loc,
            types,
            ignore,
            reg,
            i + 1,
        )
    }
}

/// Entities not yet on the ancestor path, as a recursion measure.
pub open spec fn height(snap: Map<u64, EntityEntry>, path: Set<u64>) -> int {
    snap.dom().len() - path.len()
}

/// The commands of one entity's region: its display label, the "Components"
/// header, its component regions, a separator, then either "No children" or
/// the "Children" header followed by the children's regions.  `None` when
/// the walk meets an entity already on its ancestor path (a cycle) or one
/// without a snapshot entry: a broken host invariant aborts the pass.
pub open spec fn entity_ops(
    snap: Map<u64, EntityEntry>,
    recs: Seq<EntityRecord>,
    ignore: Set<u64>,
    reg: Set<u64>,
    e: u64,
    path: Set<u64>,
) -> Option<Seq<UiOpView>>
    decreases height(snap, path), 0int,
    when path.finite() && path.subset_of(snap.dom()) && snap.dom().finite()
    via entity_ops_dec
{
    if path.contains(e) || !snap.contains_key(e) {
        None
    } else {
        let entry = snap[e];
        let head = seq![
            UiOpView::OpenRegion { label: display_name_spec(recs, e) },
            UiOpView::Label { text: "Components"@ },
        ] + components_ops(entry.location, entry.types@, ignore, reg, 0) + seq![
            UiOpView::Separator,
        ];
        match children_of(recs, e) {
            None => Some(
                head + seq![UiOpView::Label { text: "No children"@ }, UiOpView::CloseRegion],
            ),
            Some(cs) => match children_ops(snap, recs, ignore, reg, cs, path.insert(e), 0) {
                None => None,
                Some(tail) => Some(
                    head + seq![UiOpView::Label { text: "Children"@ }] + tail + seq![
                        UiOpView::CloseRegion,
                    ],
                ),
            },
        }
    }
}

/// The concatenated regions of the children from index `i` on.
pub open spec fn children_ops(
    snap: Map<u64, EntityEntry>,
    recs: Seq<EntityRecord>,
    ignore: Set<u64>,
    reg: Set<u64>,
    cs: Seq<u64>,
    path: Set<u64>,
    i: int,
) -> Option<Seq<UiOpView>>
    decreases height(snap, path), 1 + cs.len() - i,
    when path.finite() && path.subset_of(snap.dom()) && snap.dom().finite()
    via children_ops_dec
{
    if i < 0 || i >= cs.len() {
        Some(seq![])
    } else {
        match entity_ops(snap, recs, ignore, reg, cs[i], path) {
            None => None,
            Some(ops) => match children_ops(snap, recs, ignore, reg, cs, path, i + 1) {
                None => None,
                Some(rest) => Some(ops + rest),
            },
        }
    }
}

#[via_fn]
proof fn entity_ops_dec(
    snap: Map<u64, EntityEntry>,
    recs: Seq<EntityRecord>,
    ignore: Set<u64>,
    reg: Set<u64>,
    e: u64,
    path: Set<u64>,
) {
    if path.finite() && path.subset_of(snap.dom()) && snap.dom().finite() && !path.contains(e)
        && snap.contains_key(e) {
        vstd::set_lib::lemma_len_subset(path.insert(e), snap.dom());
    }
}

#[via_fn]
proof fn children_ops_dec(
    snap: Map<u64, EntityEntry>,
    recs: Seq<EntityRecord>,
    ignore: Set<u64>,
    reg: Set<u64>,
    cs: Seq<u64>,
    path: Set<u64>,
    i: int,
) {
}

/// The whole pass: the regions of every root (an entity whose record has no
/// parent link), in record order.
pub open spec fn roots_ops(
    snap: Map<u64, EntityEntry>,
    recs: Seq<EntityRecord>,
    ignore: Set<u64>,
    reg: Set<u64>,
    i: int,
) -> Option<Seq<UiOpView>>
    decreases recs.len() - i,
{
    if i < 0 || i >= recs.len() {
        Some(seq![])
    } else if recs[i].parent is None {
        match entity_ops(snap, recs, ignore, reg, recs[i].entity, Set::empty()) {
            None => None,
            Some(ops) => match roots_ops(snap, recs, ignore, reg, i + 1) {
                None => None,
                Some(rest) => Some(ops + rest),
            },
        }
    } else {
        roots_ops(snap, recs, ignore, reg, i + 1)
    }
}

/// What `render` emits for a snapshot, relation table, ignore set and
/// registry, or `None` when the walk must abort.
pub open spec fn render_ops(
    snap: Map<u64, EntityEntry>,
    recs: Seq<EntityRecord>,
    ignore: Set<u64>,
    reg: Set<u64>,
) -> Option<Seq<UiOpView>> {
    roots_ops(snap, recs, ignore, reg, 0)
}

/// Every component name recorded in the snapshot is one the shortener
/// accepts.
pub open spec fn entry_names_wf(entry: EntityEntry) -> bool {
    forall|i: int| 0 <= i < entry.types@.len() ==> wf_name(#[trigger] entry.types@[i].name@)
}

pub open spec fn names_wf(snap: Map<u64, EntityEntry>) -> bool {
    forall|e: u64| #[trigger] snap.contains_key(e) ==> entry_names_wf(snap[e])
}

/// The tree walk found the hierarchy inconsistent at `entity`: either the
/// parent/children relation reached it twice along one ancestor chain (a
/// cycle), or it has no snapshot entry.  As with a location conflict, the
/// pass aborts rather than draw a wrong or unbounded tree.
#[derive(Clone, Copy, PartialEq, Eq, Structural, Debug)]
pub struct RenderError {
    pub entity: u64,
}

#[verifier::loop_isolation(false)]
#[verifier::rlimit(100)]
fn render_entity(
    snap: &HashMap<u64, EntityEntry>,
    recs: &Vec<EntityRecord>,
    params: &WorldInspectorParams,
    registry: &InspectorRegistry,
    e: u64,
    path: &Vec<u64>,
    out: &mut Vec<UiOp>,
) -> (r: Result<(), RenderError>)
    requires
        path@.no_duplicates(),
        forall|k: int| 0 <= k < path@.len() ==> snap@.contains_key(#[trigger] path@[k]),
        names_wf(snap@),
    ensures
        match r {
            Ok(u) => {
                &&& entity_ops(
                    snap@,
                    recs@,
                    params.ignore_components@,
                    registry.registered@,
                    e,
                    path@.to_set(),
                ) is Some
                &&& ops_view(final(out)@) == ops_view(old(out)@) + entity_ops(
                    snap@,
                    recs@,
                    params.ignore_components@,
                    registry.registered@,
                    e,
                    path@.to_set(),
                ).unwrap()
            },
            Err(err) => entity_ops(
                snap@,
                recs@,
                params.ignore_components@,
                registry.registered@,
                e,
                path@.to_set(),
            ) is None,
        },
    decreases snap@.dom().len() - path@.len(),
{
    let ghost ign = params.ignore_components@;
    let ghost regd = registry.registered@;
    let ghost pset = path@.to_set();
    let ghost base = ops_view(out@);
    proof {
        broadcast use lemma_ops_view_push;

        path@.unique_seq_to_set();
        assert(pset.subset_of(snap@.dom())) by {
            assert forall|x: u64| pset.contains(x) implies snap@.dom().contains(x) by {
                let k = choose|k: int| 0 <= k < path@.len() && path@[k] == x;
                assert(snap@.contains_key(path@[k]));
            };
        };
    }
    if contains_u64(path, e) {
        proof {
            assert(pset.contains(e));
        }
        return Err(RenderError { entity: e });
    }
    let entry = match snap.get(&e) {
        None => {
            return Err(RenderError { entity: e });
        },
        Some(entry) => entry,
    };
    proof {
        assert(*entry == snap@[e]);
    }
    out.push(UiOp::OpenRegion { label: display_name(recs, e) });
    out.push(UiOp::Label { text: String::from_str("Components") });
    let ghost head2 = seq![
        UiOpView::OpenRegion { label: display_name_spec(recs@, e) },
        UiOpView::Label { text: "Components"@ },
    ];
    proof {
        assert(ops_view(out@) =~= base + head2);
    }
    let loc = entry.location;
    let mut ci: usize = 0;
    while ci < entry.types.len()
        invariant
            ci <= entry.types@.len(),
            ops_view(out@) + components_ops(loc, entry.types@, ign, regd, ci as int) =~= base
                + head2 + components_ops(loc, entry.types@, ign, regd, 0),
        decreases entry.types@.len() - ci,
    {
        let t = &entry.types[ci];
        proof {
            assert(wf_name(t.name@));
            assert(components_ops(loc, entry.types@, ign, regd, ci as int)
                =~= component_ops_one(loc, entry.types@[ci as int], ign, regd) + components_ops(
                loc,
                entry.types@,
                ign,
                regd,
                ci as int + 1,
            ));
        }
        if !params.should_ignore_component(t.id) {
            let label = short_name(t.name.as_str());
            out.push(UiOp::OpenRegion { label });
            if registry.is_registered(t.id) {
                out.push(UiOp::Inspect { location: loc, type_id: t.id });
            } else {
                out.push(
                    UiOp::Label {
                        text: String::from_str(
                            "Inspectable has not been defined for this component",
                        ),
                    },
                );
            }
            out.push(UiOp::CloseRegion);
        }
        proof {
            assert(ops_view(out@) + components_ops(loc, entry.types@, ign, regd, ci as int + 1)
                =~= base + head2 + components_ops(loc, entry.types@, ign, regd, 0));
        }
        ci += 1;
    }
    out.push(UiOp::Separator);
    let ghost head = head2 + components_ops(loc, entry.types@, ign, regd, 0) + seq![
        UiOpView::Separator,
    ];
    proof {
        assert(ops_view(out@) =~= base + head);
    }
    let children: Option<&Vec<u64>> = match find_record(recs, e) {
        Some(rec) => match &rec.children {
            Some(c) => Some(c),
            None => None,
        },
        None => None,
    };
    match children {
        None => {
            proof {
                assert(children_of(recs@, e) is None);
            }
            out.push(UiOp::Label { text: String::from_str("No children") });
            out.push(UiOp::CloseRegion);
            proof {
                assert(ops_view(out@) =~= base + (head + seq![
                    UiOpView::Label { text: "No children"@ },
                    UiOpView::CloseRegion,
                ]));
            }
        },
        Some(cs) => {
            proof {
                assert(children_of(recs@, e) == Some(cs@));
            }
            out.push(UiOp::Label { text: String::from_str("Children") });
            let mut path2 = copy_entity_list(path);
            path2.push(e);
            let ghost p2set = path2@.to_set();
            proof {
                assert(path2@ =~= path@.push(e));
                assert(path2@.no_duplicates());
                path2@.unique_seq_to_set();
                assert(p2set =~= pset.insert(e)) by {
                    assert forall|x: u64| p2set.contains(x) implies pset.insert(e).contains(x) by {
                        let k = choose|k: int| 0 <= k < path2@.len() && path2@[k] == x;
                        if k < path@.len() {
                            assert(path@[k] == x);
                        }
                    };
                    assert forall|x: u64| pset.insert(e).contains(x) implies p2set.contains(x) by {
                        if x == e {
                            assert(path2@[path@.len() as int] == e);
                        } else {
                            let k = choose|k: int| 0 <= k < path@.len() && path@[k] == x;
                            assert(path2@[k] == x);
                        }
                    };
                };
                assert(forall|k: int|
                    0 <= k < path2@.len() ==> snap@.contains_key(#[trigger] path2@[k]));
            }
            let ghost pre = ops_view(out@);
            let ghost mut done: Seq<UiOpView> = seq![];
            let mut k: usize = 0;
            while k < cs.len()
                invariant
                    k <= cs@.len(),
                    ops_view(out@) == pre + done,
                    match children_ops(snap@, recs@, ign, regd, cs@, p2set, k as int) {
                        None => children_ops(snap@, recs@, ign, regd, cs@, p2set, 0) is None,
                        Some(rest) => children_ops(snap@, recs@, ign, regd, cs@, p2set, 0)
                            == Some(done + rest),
                    },
                decreases cs@.len() - k,
            {
                let child = cs[k];
                proof {
                    vstd::set_lib::lemma_len_subset(p2set, snap@.dom());
                }
                match render_entity(snap, recs, params, registry, child, &path2, out) {
                    Err(err) => {
                        proof {
                            assert(children_ops(snap@, recs@, ign, regd, cs@, p2set, k as int)
                                is None);
                        }
                        return Err(err);
                    },
                    Ok(u) => {},
                }
                proof {
                    let child_ops = entity_ops(snap@, recs@, ign, regd, child, p2set).unwrap();
                    assert(ops_view(out@) == pre + done + child_ops);
                    assert(pre + done + child_ops =~= pre + (done + child_ops));
                    if children_ops(snap@, recs@, ign, regd, cs@, p2set, k as int + 1) is Some {
                        let rest = children_ops(
                            snap@,
                            recs@,
                            ign,
                            regd,
                            cs@,
                            p2set,
                            k as int + 1,
                        ).unwrap();
                        assert(children_ops(snap@, recs@, ign, regd, cs@, p2set, k as int)
                            == Some(child_ops + rest));
                        assert(done + (child_ops + rest) =~= (done + child_ops) + rest);
                    }
                    done = done + child_ops;
                }
                k += 1;
            }
            proof {
                assert(children_ops(snap@, recs@, ign, regd, cs@, p2set, cs@.len() as int)
                    == Some(Seq::<UiOpView>::empty()));
                assert(done + Seq::<UiOpView>::empty() =~= done);
                assert(children_ops(snap@, recs@, ign, regd, cs@, p2set, 0) == Some(done));
            }
            out.push(UiOp::CloseRegion);
            proof {
                assert(ops_view(out@) =~= base + (head + seq![
                    UiOpView::Label { text: "Children"@ },
                ] + done + seq![UiOpView::CloseRegion]));
            }
        },
    }
    Ok(())
}

/// One render pass.  Walks every root record in order and emits the UI
/// command sequence for the whole hierarchy.  Fails if and only if the walk
/// meets a cycle in the parent/children relation or an entity without a
/// snapshot entry; the embedder then aborts the frame as it would for a
/// location conflict.
#[verifier::loop_isolation(false)]
pub fn render(
    index: &WorldSnapshotIndex,
    records: &Vec<EntityRecord>,
    params: &WorldInspectorParams,
    registry: &InspectorRegistry,
) -> (r: Result<Vec<UiOp>, RenderError>)
    requires
        names_wf(index.map@),
    ensures
        match r {
            Ok(ops) => render_ops(
                index.map@,
                records@,
                params.ignore_components@,
                registry.registered@,
            ) == Some(ops_view(ops@)),
            Err(err) => render_ops(
                index.map@,
                records@,
                params.ignore_components@,
                registry.registered@,
            ) is None,
        },
{
    proof {
        broadcast use lemma_ops_view_push;

    }
    let ghost ign = params.ignore_components@;
    let ghost regd = registry.registered@;
    let mut out: Vec<UiOp> = Vec::new();
    let empty_path: Vec<u64> = Vec::new();
    proof {
        assert(empty_path@.to_set() =~= Set::<u64>::empty());
    }
    let mut i: usize = 0;
    while i < records.len()
        invariant
            i <= records@.len(),
            match roots_ops(index.map@, records@, ign, regd, i as int) {
                None => roots_ops(index.map@, records@, ign, regd, 0) is None,
                Some(rest) => roots_ops(index.map@, records@, ign, regd, 0) == Some(
                    ops_view(out@) + rest,
                ),
            },
        decreases records@.len() - i,
    {
        let is_root = records[i].parent.is_none();
        if is_root {
            let root = records[i].entity;
            let ghost prev = ops_view(out@);
            match render_entity(snap_ref(index), records, params, registry, root, &empty_path, &mut out) {
                Err(err) => {
                    proof {
                        assert(roots_ops(index.map@, records@, ign, regd, i as int) is None);
                    }
                    return Err(err);
                },
                Ok(u) => {},
            }
            proof {
                let root_ops = entity_ops(
                    index.map@,
                    records@,
                    ign,
                    regd,
                    root,
                    Set::empty(),
                ).unwrap();
                assert(ops_view(out@) == prev + root_ops);
                if roots_ops(index.map@, records@, ign, regd, i as int + 1) is Some {
                    let rest = roots_ops(index.map@, records@, ign, regd, i as int + 1).unwrap();
                    assert(roots_ops(index.map@, records@, ign, regd, i as int) == Some(
                        root_ops + rest,
                    ));
                    assert(prev + (root_ops + rest) =~= (prev + root_ops) + rest);
                }
            }
        }
        i += 1;
    }
    proof {
        assert(roots_ops(index.map@, records@, ign, regd, records@.len() as int) == Some(
            Seq::<UiOpView>::empty(),
        ));
        assert(ops_view(out@) + Seq::<UiOpView>::empty() =~= ops_view(out@));
    }
    Ok(out)
}

/// Borrow of the snapshot's underlying map.
fn snap_ref(index: &WorldSnapshotIndex) -> (r: &HashMap<u64, EntityEntry>)
    ensures
        r@ == index.map@,
{
    &index.map
}

/// An ignored component type produces no rendered region at all, no matter
/// whether an inspector is registered for it.
pub proof fn lemma_ignored_component_renders_nothing(
    loc: Location,
    t: ComponentType,
    ignore: Set<u64>,
    reg: Set<u64>,
)
    requires
        ignore.contains(t.id),
    ensures
        component_ops_one(loc, t, ignore, reg) =~= Seq::<UiOpView>::empty(),
{
}

/// A component whose type has no registered inspector renders as a region
/// holding exactly the literal fallback message — never an inspector
/// dispatch.
pub proof fn lemma_unregistered_component_fallback(
    loc: Location,
    t: ComponentType,
    ignore: Set<u64>,
    reg: Set<u64>,
)
    requires
        !ignore.contains(t.id),
        !reg.contains(t.id),
    ensures
        component_ops_one(loc, t, ignore, reg) =~= seq![
            UiOpView::OpenRegion { label: shorten_spec(t.name@) },
            UiOpView::Label { text: "Inspectable has not been defined for this component"@ },
            UiOpView::CloseRegion,
        ],
        forall|k: int|
            0 <= k < component_ops_one(loc, t, ignore, reg).len() ==> !(component_ops_one(
                loc,
                t,
                ignore,
                reg,
            )[k] is Inspect),
{
}

/// A component whose type has a registered inspector renders as a region
/// holding exactly the dispatch command.
pub proof fn lemma_registered_component_dispatches(
    loc: Location,
    t: ComponentType,
    ignore: Set<u64>,
    reg: Set<u64>,
)
    requires
        !ignore.contains(t.id),
        reg.contains(t.id),
    ensures
        component_ops_one(loc, t, ignore, reg) =~= seq![
            UiOpView::OpenRegion { label: shorten_spec(t.name@) },
            UiOpView::Inspect { location: loc, type_id: t.id },
            UiOpView::CloseRegion,
        ],
{
}

/// An entity with no children list closes with the literal "No children";
/// one with a children list emits the "Children" header and its children's
/// regions instead, and never that literal at its own level.
pub proof fn lemma_children_labels(
    snap: Map<u64, EntityEntry>,
    recs: Seq<EntityRecord>,
    ignore: Set<u64>,
    reg: Set<u64>,
    e: u64,
    path: Set<u64>,
)
    requires
        path.finite(),
        path.subset_of(snap.dom()),
        snap.dom().finite(),
        entity_ops(snap, recs, ignore, reg, e, path) is Some,
    ensures
        ({
            let ops = entity_ops(snap, recs, ignore, reg, e, path).unwrap();
            let head = seq![
                UiOpView::OpenRegion { label: display_name_spec(recs, e) },
                UiOpView::Label { text: "Components"@ },
            ] + components_ops(snap[e].location, snap[e].types@, ignore, reg, 0) + seq![
                UiOpView::Separator,
            ];
            match children_of(recs, e) {
                None => ops =~= head + seq![
                    UiOpView::Label { text: "No children"@ },
                    UiOpView::CloseRegion,
                ],
                Some(cs) => ops =~= head + seq![UiOpView::Label { text: "Children"@ }]
                    + children_ops(snap, recs, ignore, reg, cs, path.insert(e), 0).unwrap()
                    + seq![UiOpView::CloseRegion],
            }
        }),
{
}

} // verus!
