use world_inspector::names::{is_well_formed_name, short_name};

#[test]
fn shorten_name_basic() {
    assert_eq!(short_name("path::to::some::Type"), "Type".to_string());
}

#[test]
fn shorten_name_generic() {
    assert_eq!(
        short_name("bevy::ecs::Handle<bevy::render::StandardMaterial>"),
        "Handle<StandardMaterial>".to_string()
    );
}

#[test]
fn shorten_name_nested_generic() {
    assert_eq!(
        short_name("foo::bar::quux<qaax<p::t::b>>"),
        "quux<qaax<b>>".to_string()
    );
}

#[test]
fn shorten_keeps_plain_names() {
    assert_eq!(short_name("Type"), "Type".to_string());
    assert_eq!(short_name("plain_name"), "plain_name".to_string());
    assert_eq!(short_name(""), "".to_string());
}

#[test]
fn shorten_cuts_last_path_segment() {
    assert_eq!(short_name("a::b::c::Type"), "Type".to_string());
}

#[test]
fn shorten_generic_argument() {
    assert_eq!(
        short_name("a::b::Handle<c::d::Material>"),
        "Handle<Material>".to_string()
    );
}

#[test]
fn shorten_nested_generic_arguments() {
    assert_eq!(
        short_name("a::b::Outer<c::Inner<d::e::Leaf>>"),
        "Outer<Inner<Leaf>>".to_string()
    );
}

#[test]
fn shorten_keeps_suffix_after_generics() {
    assert_eq!(short_name("a::b<c>::d"), "b<c>::d".to_string());
}

#[test]
fn well_formed_names() {
    assert!(is_well_formed_name("plain"));
    assert!(is_well_formed_name("a::b::c"));
    assert!(is_well_formed_name("a<b>"));
    assert!(is_well_formed_name("a<b<c>>"));
    assert!(!is_well_formed_name("a<b"));
    assert!(!is_well_formed_name("a>b<c"));
}
