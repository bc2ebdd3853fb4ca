use world_inspector::model::{ComponentType, StorageGroup};
use world_inspector::snapshot::WorldSnapshotIndex;

fn ct(id: u64, name: &str) -> ComponentType {
    ComponentType {
        id,
        name: name.to_string(),
    }
}

#[test]
fn build_empty_graph() {
    let groups: Vec<StorageGroup> = Vec::new();
    let index = WorldSnapshotIndex::build(&groups).unwrap();
    assert!(index.map.is_empty());
}

#[test]
fn build_resolves_locations_and_types() {
    let groups = vec![
        StorageGroup {
            entities: vec![1, 2],
            types: vec![ct(10, "a::A"), ct(11, "b::B")],
        },
        StorageGroup {
            entities: vec![3],
            types: vec![ct(12, "c::C")],
        },
    ];
    let index = WorldSnapshotIndex::build(&groups).unwrap();
    assert_eq!(index.map.len(), 3);

    let e1 = &index.map[&1];
    assert_eq!(e1.location.group, 0);
    assert_eq!(e1.location.slot, 0);
    assert_eq!(e1.types.len(), 2);
    assert_eq!(e1.types[0].id, 10);
    assert_eq!(e1.types[0].name, "a::A");
    assert_eq!(e1.types[1].id, 11);

    let e2 = &index.map[&2];
    assert_eq!(e2.location.group, 0);
    assert_eq!(e2.location.slot, 1);

    let e3 = &index.map[&3];
    assert_eq!(e3.location.group, 1);
    assert_eq!(e3.location.slot, 0);
    assert_eq!(e3.types.len(), 1);
    assert_eq!(e3.types[0].name, "c::C");
}

#[test]
fn build_rejects_entity_in_two_groups() {
    let groups = vec![
        StorageGroup {
            entities: vec![1],
            types: vec![ct(10, "a::A")],
        },
        StorageGroup {
            entities: vec![1],
            types: vec![ct(12, "c::C")],
        },
    ];
    let conflict = WorldSnapshotIndex::build(&groups).unwrap_err();
    assert_eq!(conflict.entity, 1);
    assert_eq!(conflict.first.group, 0);
    assert_eq!(conflict.first.slot, 0);
    assert_eq!(conflict.second.group, 1);
    assert_eq!(conflict.second.slot, 0);
}

#[test]
fn build_rejects_entity_twice_in_one_group() {
    let groups = vec![StorageGroup {
        entities: vec![5, 5],
        types: vec![ct(10, "a::A")],
    }];
    let conflict = WorldSnapshotIndex::build(&groups).unwrap_err();
    assert_eq!(conflict.entity, 5);
    assert_eq!(conflict.first.slot, 0);
    assert_eq!(conflict.second.slot, 1);
}

#[test]
fn entry_types_match_containing_group() {
    // Each entity's component list is as long as the summed type lists of
    // the groups that contain it: here one group apiece.
    let groups = vec![
        StorageGroup {
            entities: vec![7],
            types: vec![ct(1, "x::X"), ct(2, "y::Y"), ct(3, "z::Z")],
        },
        StorageGroup {
            entities: vec![8],
            types: Vec::new(),
        },
    ];
    let index = WorldSnapshotIndex::build(&groups).unwrap();
    assert_eq!(index.map[&7].types.len(), 3);
    assert_eq!(index.map[&8].types.len(), 0);
}

#[test]
fn build_twice_is_deterministic() {
    let groups = vec![
        StorageGroup {
            entities: vec![4, 9],
            types: vec![ct(10, "a::A")],
        },
        StorageGroup {
            entities: vec![2],
            types: vec![ct(12, "c::C")],
        },
    ];
    let first = WorldSnapshotIndex::build(&groups).unwrap();
    let second = WorldSnapshotIndex::build(&groups).unwrap();
    assert_eq!(first.map.len(), second.map.len());
    for (entity, entry) in first.map.iter() {
        let other = &second.map[entity];
        assert_eq!(entry.location, other.location);
        assert_eq!(entry.types.len(), other.types.len());
        for (a, b) in entry.types.iter().zip(other.types.iter()) {
            assert_eq!(a.id, b.id);
            assert_eq!(a.name, b.name);
        }
    }
}

#[test]
fn components_of_reports_presence() {
    let groups = vec![StorageGroup {
        entities: vec![1],
        types: vec![ct(10, "a::A")],
    }];
    let index = WorldSnapshotIndex::build(&groups).unwrap();
    assert!(index.components_of(1).is_some());
    assert!(index.components_of(2).is_none());
}
