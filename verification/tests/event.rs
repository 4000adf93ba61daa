use lowresourcecapture::dataset::{class_of, CLASS_NONE};
use lowresourcecapture::event::Kind;

#[test]
fn every_kind_round_trips_through_its_wire_name() {
    for k in Kind::all() {
        assert_eq!(Kind::from_wire(k.wire_name()), Some(k), "{k:?} did not round-trip");
    }
}

#[test]
fn wire_names_are_all_distinct() {
    let mut names: Vec<&str> = Kind::all().iter().map(|k| k.wire_name()).collect();
    names.sort_unstable();
    let count = names.len();
    names.dedup();
    assert_eq!(names.len(), count, "two kinds share a wire name");
}

#[test]
fn an_unknown_wire_name_is_refused_rather_than_defaulted() {
    assert_eq!(Kind::from_wire("bogus"), None);
    assert_eq!(Kind::from_wire(""), None);
    assert_eq!(Kind::from_wire("Death"), None, "matching is exact, not case-folded");
}

#[test]
fn wire_names_are_the_lowercase_variant_names() {
    assert_eq!(Kind::Death.wire_name(), "death");
    assert_eq!(Kind::PlayerKill.wire_name(), "playerkill");
    assert_eq!(Kind::MonsterKill.wire_name(), "monsterkill");
    assert_eq!(Kind::from_wire("monsterkill"), Some(Kind::MonsterKill));
}

#[test]
fn classes_are_distinct_per_kind() {
    assert_eq!(class_of(Kind::PlayerKill), "player");
    assert_eq!(class_of(Kind::MonsterKill), "monster");
    assert_eq!(class_of(Kind::Death), "own_death");
    assert_ne!(class_of(Kind::PlayerKill), class_of(Kind::MonsterKill));
}

#[test]
fn no_kind_maps_to_the_none_class() {
    for k in Kind::all() {
        assert_ne!(class_of(k), CLASS_NONE);
    }
    assert_eq!(CLASS_NONE, "none");
}
