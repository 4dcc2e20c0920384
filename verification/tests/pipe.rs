use bevy::ecs::entity::Entity;
use bevy_fabulous::entity::{has_component, EntitySnapshot};
use bevy_fabulous::postfab::{NameCriteria, PostfabPipe, RunType};
use std::any::TypeId;

struct Health;
struct Armor;
struct Frozen;

fn snapshot(id: u32, name: Option<&str>, components: Vec<TypeId>) -> EntitySnapshot {
    EntitySnapshot {
        entity: Entity::from_raw(id),
        name: name.map(|n| n.to_string()),
        components,
    }
}

#[test]
fn a_new_step_has_no_filters() {
    let pipe = PostfabPipe::system(7);
    assert_eq!(pipe.executor, RunType::System(7));
    assert!(pipe.with_components.is_empty());
    assert!(pipe.without_components.is_empty());
    assert!(pipe.name_criteria.is_none());
    assert!(!pipe.root_only);
    assert_eq!(PostfabPipe::cmd(8).executor, RunType::Command(8));
    assert_eq!(PostfabPipe::entity(9).executor, RunType::Entity(9));
}

#[test]
fn builders_set_their_field_and_keep_the_rest() {
    let pipe = PostfabPipe::entity(3)
        .with_components(vec![TypeId::of::<Health>()])
        .without_components(vec![TypeId::of::<Frozen>(), TypeId::of::<Armor>()])
        .name_ends_with("Orbiter")
        .root_only();
    assert_eq!(pipe.executor, RunType::Entity(3));
    assert_eq!(pipe.with_components, vec![TypeId::of::<Health>()]);
    assert_eq!(
        pipe.without_components,
        vec![TypeId::of::<Frozen>(), TypeId::of::<Armor>()]
    );
    assert!(matches!(pipe.name_criteria, Some(NameCriteria::EndsWith(ref t)) if t == "Orbiter"));
    assert!(pipe.root_only);
}

#[test]
fn a_later_name_test_replaces_the_earlier() {
    let pipe = PostfabPipe::system(1).with_name("Gear").name_contains("Orbiter");
    assert!(matches!(pipe.name_criteria, Some(NameCriteria::Contains(ref t)) if t == "Orbiter"));
    assert!(pipe.applies_to(&snapshot(1, Some("LeftOrbiter"), vec![])));
    assert!(!pipe.applies_to(&snapshot(1, Some("Gear"), vec![])));
}

#[test]
fn name_builders_build_the_matching_test() {
    let pipe = PostfabPipe::system(1).with_name("Gear");
    assert!(matches!(pipe.name_criteria, Some(NameCriteria::Equals(ref t)) if t == "Gear"));
    let pipe = PostfabPipe::system(1).name_starts_with("Ge");
    assert!(matches!(pipe.name_criteria, Some(NameCriteria::StartsWith(ref t)) if t == "Ge"));
    let pipe = PostfabPipe::system(1).name_contains("ea");
    assert!(matches!(pipe.name_criteria, Some(NameCriteria::Contains(ref t)) if t == "ea"));
}

#[test]
fn list_builders_build_any_of_the_same_kind() {
    let pipe = PostfabPipe::system(1).name_contains_any(vec!["Orbiter", "Gear"]);
    match &pipe.name_criteria {
        Some(NameCriteria::Any(list)) => {
            assert_eq!(list.len(), 2);
            assert!(matches!(&list[0], NameCriteria::Contains(t) if t == "Orbiter"));
            assert!(matches!(&list[1], NameCriteria::Contains(t) if t == "Gear"));
        }
        other => panic!("unexpected name test: {:?}", other),
    }
    let pipe = PostfabPipe::system(1).name_starts_with_any(vec!["Left", "Right"]);
    match &pipe.name_criteria {
        Some(NameCriteria::Any(list)) => {
            assert!(matches!(&list[0], NameCriteria::StartsWith(t) if t == "Left"));
            assert!(matches!(&list[1], NameCriteria::StartsWith(t) if t == "Right"));
        }
        other => panic!("unexpected name test: {:?}", other),
    }
    let pipe = PostfabPipe::system(1).name_ends_with_any(vec!["A"]);
    match &pipe.name_criteria {
        Some(NameCriteria::Any(list)) => {
            assert_eq!(list.len(), 1);
            assert!(matches!(&list[0], NameCriteria::EndsWith(t) if t == "A"));
        }
        other => panic!("unexpected name test: {:?}", other),
    }
    assert!(PostfabPipe::system(1)
        .name_starts_with_any(vec!["Left", "Right"])
        .applies_to(&snapshot(1, Some("RightOrbiter"), vec![])));
    let none: Vec<&str> = vec![];
    assert!(!PostfabPipe::system(1)
        .name_contains_any(none)
        .applies_to(&snapshot(1, Some("RightOrbiter"), vec![])));
}

#[test]
fn an_entity_without_a_name_is_never_matched() {
    let pipe = PostfabPipe::system(1);
    assert!(!pipe.applies_to(&snapshot(1, None, vec![])));
    assert!(pipe.applies_to(&snapshot(1, Some(""), vec![])));
    assert!(pipe.applies_to(&snapshot(1, Some("Anything"), vec![])));
}

#[test]
fn required_components_must_all_be_there() {
    let pipe = PostfabPipe::system(1)
        .with_components(vec![TypeId::of::<Health>(), TypeId::of::<Armor>()]);
    let both = vec![TypeId::of::<Armor>(), TypeId::of::<Frozen>(), TypeId::of::<Health>()];
    assert!(pipe.applies_to(&snapshot(1, Some("Unit"), both)));
    assert!(!pipe.applies_to(&snapshot(1, Some("Unit"), vec![TypeId::of::<Health>()])));
    assert!(!pipe.applies_to(&snapshot(1, Some("Unit"), vec![TypeId::of::<Armor>()])));
    assert!(!pipe.applies_to(&snapshot(1, Some("Unit"), vec![])));
}

#[test]
fn forbidden_components_must_all_be_absent() {
    let pipe = PostfabPipe::system(1)
        .without_components(vec![TypeId::of::<Frozen>(), TypeId::of::<Armor>()]);
    assert!(pipe.applies_to(&snapshot(1, Some("Unit"), vec![TypeId::of::<Health>()])));
    assert!(pipe.applies_to(&snapshot(1, Some("Unit"), vec![])));
    assert!(!pipe.applies_to(&snapshot(1, Some("Unit"), vec![TypeId::of::<Armor>()])));
    assert!(!pipe.applies_to(&snapshot(
        1,
        Some("Unit"),
        vec![TypeId::of::<Health>(), TypeId::of::<Frozen>()]
    )));
}

#[test]
fn has_component_tells_types_apart() {
    let list = vec![TypeId::of::<Health>(), TypeId::of::<Armor>()];
    assert!(has_component(&list, &TypeId::of::<Health>()));
    assert!(has_component(&list, &TypeId::of::<Armor>()));
    assert!(!has_component(&list, &TypeId::of::<Frozen>()));
    assert!(!has_component(&vec![], &TypeId::of::<Frozen>()));
}

#[test]
fn a_copied_step_is_the_same_step() {
    let pipe = PostfabPipe::cmd(4)
        .with_components(vec![TypeId::of::<Health>()])
        .without_components(vec![TypeId::of::<Frozen>()])
        .name_contains_any(vec!["Orbiter", "Gear"])
        .root_only();
    let copy = pipe.clone();
    assert_eq!(copy.executor, pipe.executor);
    assert_eq!(copy.with_components, pipe.with_components);
    assert_eq!(copy.without_components, pipe.without_components);
    assert_eq!(copy.root_only, pipe.root_only);
    for name in ["Gear", "LeftOrbiter", "Hull"] {
        let entity = snapshot(2, Some(name), vec![TypeId::of::<Health>()]);
        assert_eq!(copy.applies_to(&entity), pipe.applies_to(&entity));
    }
}
