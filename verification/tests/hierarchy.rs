use world_inspector::model::{ComponentType, EntityRecord, StorageGroup};
use world_inspector::params::{InspectorRegistry, WorldInspectorParams};
use world_inspector::render::{render, UiOp};
use world_inspector::snapshot::WorldSnapshotIndex;

fn ct(id: u64, name: &str) -> ComponentType {
    ComponentType {
        id,
        name: name.to_string(),
    }
}

fn rec(entity: u64, name: Option<&str>, parent: Option<u64>, children: Option<Vec<u64>>) -> EntityRecord {
    EntityRecord {
        entity,
        name: name.map(|n| n.to_string()),
        parent,
        children,
    }
}

fn open(label: &str) -> UiOp {
    UiOp::OpenRegion {
        label: label.to_string(),
    }
}

fn label(text: &str) -> UiOp {
    UiOp::Label {
        text: text.to_string(),
    }
}

const FALLBACK: &str = "Inspectable has not been defined for this component";

#[test]
fn entity_without_children_says_so() {
    let groups = vec![StorageGroup {
        entities: vec![1],
        types: Vec::new(),
    }];
    let index = WorldSnapshotIndex::build(&groups).unwrap();
    let records = vec![rec(1, None, None, None)];
    let params = WorldInspectorParams::new();
    let registry = InspectorRegistry::new();
    let ops = render(&index, &records, &params, &registry).unwrap();
    assert_eq!(
        ops,
        vec![
            open("Entity 1"),
            label("Components"),
            UiOp::Separator,
            label("No children"),
            UiOp::CloseRegion,
        ]
    );
}

#[test]
fn entity_with_children_never_says_no_children() {
    let groups = vec![StorageGroup {
        entities: vec![1, 2],
        types: Vec::new(),
    }];
    let index = WorldSnapshotIndex::build(&groups).unwrap();
    let records = vec![
        rec(1, Some("Root"), None, Some(vec![2])),
        rec(2, None, Some(1), None),
    ];
    let params = WorldInspectorParams::new();
    let registry = InspectorRegistry::new();
    let ops = render(&index, &records, &params, &registry).unwrap();
    assert_eq!(
        ops,
        vec![
            open("Root"),
            label("Components"),
            UiOp::Separator,
            label("Children"),
            open("Entity 2"),
            label("Components"),
            UiOp::Separator,
            label("No children"),
            UiOp::CloseRegion,
            UiOp::CloseRegion,
        ]
    );
}

#[test]
fn ignored_component_renders_no_region() {
    let groups = vec![StorageGroup {
        entities: vec![1],
        types: vec![ct(10, "a::Noise"), ct(11, "a::Kept")],
    }];
    let index = WorldSnapshotIndex::build(&groups).unwrap();
    let records = vec![rec(1, None, None, None)];
    let mut params = WorldInspectorParams::new();
    params.ignore_component(10);
    // an inspector being registered for the ignored type changes nothing
    let mut registry = InspectorRegistry::new();
    registry.register(10);
    let ops = render(&index, &records, &params, &registry).unwrap();
    assert_eq!(
        ops,
        vec![
            open("Entity 1"),
            label("Components"),
            open("Kept"),
            label(FALLBACK),
            UiOp::CloseRegion,
            UiOp::Separator,
            label("No children"),
            UiOp::CloseRegion,
        ]
    );
}

#[test]
fn unregistered_component_emits_fallback() {
    let groups = vec![StorageGroup {
        entities: vec![1],
        types: vec![ct(10, "x::y::Widget")],
    }];
    let index = WorldSnapshotIndex::build(&groups).unwrap();
    let records = vec![rec(1, None, None, None)];
    let params = WorldInspectorParams::new();
    let registry = InspectorRegistry::new();
    let ops = render(&index, &records, &params, &registry).unwrap();
    assert_eq!(
        ops,
        vec![
            open("Entity 1"),
            label("Components"),
            open("Widget"),
            label(FALLBACK),
            UiOp::CloseRegion,
            UiOp::Separator,
            label("No children"),
            UiOp::CloseRegion,
        ]
    );
    assert!(!ops
        .iter()
        .any(|op| matches!(op, UiOp::Inspect { .. })));
}

#[test]
fn registered_component_dispatches() {
    let groups = vec![StorageGroup {
        entities: vec![1],
        types: vec![ct(10, "x::y::Widget<z::T>")],
    }];
    let index = WorldSnapshotIndex::build(&groups).unwrap();
    let records = vec![rec(1, None, None, None)];
    let params = WorldInspectorParams::new();
    let mut registry = InspectorRegistry::new();
    registry.register(10);
    let ops = render(&index, &records, &params, &registry).unwrap();
    assert_eq!(ops[2], open("Widget<T>"));
    match &ops[3] {
        UiOp::Inspect { location, type_id } => {
            assert_eq!(location.group, 0);
            assert_eq!(location.slot, 0);
            assert_eq!(*type_id, 10);
        }
        other => panic!("expected an inspector dispatch, got {:?}", other),
    }
    assert!(!ops.iter().any(|op| op == &label(FALLBACK)));
}

#[test]
fn cyclic_hierarchy_is_rejected() {
    let groups = vec![StorageGroup {
        entities: vec![1, 2],
        types: Vec::new(),
    }];
    let index = WorldSnapshotIndex::build(&groups).unwrap();
    let records = vec![
        rec(1, None, None, Some(vec![2])),
        rec(2, None, Some(1), Some(vec![1])),
    ];
    let params = WorldInspectorParams::new();
    let registry = InspectorRegistry::new();
    let err = render(&index, &records, &params, &registry).unwrap_err();
    assert_eq!(err.entity, 1);
}

#[test]
fn child_without_snapshot_entry_is_rejected() {
    let groups = vec![StorageGroup {
        entities: vec![1],
        types: Vec::new(),
    }];
    let index = WorldSnapshotIndex::build(&groups).unwrap();
    let records = vec![rec(1, None, None, Some(vec![99]))];
    let params = WorldInspectorParams::new();
    let registry = InspectorRegistry::new();
    let err = render(&index, &records, &params, &registry).unwrap_err();
    assert_eq!(err.entity, 99);
}

#[test]
fn roots_render_in_record_order() {
    let groups = vec![StorageGroup {
        entities: vec![3, 1],
        types: Vec::new(),
    }];
    let index = WorldSnapshotIndex::build(&groups).unwrap();
    let records = vec![rec(3, Some("B"), None, None), rec(1, Some("A"), None, None)];
    let params = WorldInspectorParams::new();
    let registry = InspectorRegistry::new();
    let ops = render(&index, &records, &params, &registry).unwrap();
    assert_eq!(ops[0], open("B"));
    assert_eq!(ops[5], open("A"));
}

#[test]
fn ignore_list_is_extensible() {
    let mut params = WorldInspectorParams::new();
    assert!(!params.should_ignore_component(42));
    params.ignore_component(42);
    assert!(params.should_ignore_component(42));

    let preset = WorldInspectorParams::with_ignored(&vec![1, 2, 3]);
    assert!(preset.should_ignore_component(2));
    assert!(!preset.should_ignore_component(4));
}

#[test]
fn fallback_labels_render_entity_ids_in_decimal() {
    let groups = vec![StorageGroup {
        entities: vec![0, 1234567890],
        types: Vec::new(),
    }];
    let index = WorldSnapshotIndex::build(&groups).unwrap();
    let records = vec![rec(0, None, None, None), rec(1234567890, None, None, None)];
    let params = WorldInspectorParams::new();
    let registry = InspectorRegistry::new();
    let ops = render(&index, &records, &params, &registry).unwrap();
    assert_eq!(ops[0], open("Entity 0"));
    assert_eq!(ops[5], open("Entity 1234567890"));
}

#[test]
fn registry_records_registrations() {
    let mut registry = InspectorRegistry::new();
    assert!(!registry.is_registered(7));
    registry.register(7);
    assert!(registry.is_registered(7));
}
