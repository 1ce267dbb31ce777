use ecs::query::Query;
use ecs::world::World;

/// The closed set of component types these tests attach, with one type key
/// for each variant.
#[derive(PartialEq, Debug)]
enum Comp {
    Class(String),
    Id(u32),
    Marker,
}

const CLASS: u64 = 1;
const ID: u64 = 2;
const MARKER: u64 = 3;

fn id_number(c: &Comp) -> u32 {
    match c {
        Comp::Id(n) => *n,
        _ => panic!("component is not an id component"),
    }
}

#[test]
fn test_query_unused_component() {
    // Given
    let mut world: World<Comp> = World::new();

    let negative_entity = world.new_entity();

    // When
    let actual = world.query(Query::new().with(MARKER));

    // Then
    assert!(!actual.contains(&negative_entity));
}

#[test]
fn test_result_singleton() {
    // Given
    let mut world: World<Comp> = World::new();

    let negative_entity = world.new_entity();

    let positive_entity = world.new_entity();
    world.add_component(positive_entity, MARKER, Comp::Marker);

    // When
    let actual = world.query(Query::new().with(MARKER));

    // Then
    assert!(actual.contains(&positive_entity));
    assert!(!actual.contains(&negative_entity));
}

#[test]
fn test_result_set() {
    // Given
    let mut world: World<Comp> = World::new();

    let negative_entity = world.new_entity();

    let positive_entity_1 = world.new_entity();
    world.add_component(positive_entity_1, MARKER, Comp::Marker);

    let positive_entity_2 = world.new_entity();
    world.add_component(positive_entity_2, MARKER, Comp::Marker);

    // When
    let actual = world.query(Query::new().with(MARKER));

    // Then
    assert!(actual.contains(&positive_entity_1));
    assert!(actual.contains(&positive_entity_2));
    assert!(!actual.contains(&negative_entity));
}

#[test]
fn test_query_no_results() {
    // Given
    let mut world: World<Comp> = World::new();

    let negative_entity_1 = world.new_entity();
    world.add_component(negative_entity_1, MARKER, Comp::Marker);
    world.add_component(negative_entity_1, ID, Comp::Id(1));

    let negative_entity_2 = world.new_entity();
    world.add_component(negative_entity_2, MARKER, Comp::Marker);
    world.add_component(negative_entity_2, CLASS, Comp::Class(String::from("")));

    // When
    let actual = world.query(Query::new().with(ID).with(CLASS));

    // Then
    assert!(!actual.contains(&negative_entity_1));
    assert!(!actual.contains(&negative_entity_2));
}

#[test]
fn test_read_component() {
    // Given
    let mut world: World<Comp> = World::new();

    let positive_entity = world.new_entity();
    let id = 1138;
    world.add_component(positive_entity, ID, Comp::Id(id));

    // When
    let actual = world.get_component(positive_entity, ID);

    // Then
    assert_eq!(id, id_number(actual.unwrap()));
}

#[test]
fn test_update_component() {
    // Given
    let mut world: World<Comp> = World::new();

    let positive_entity = world.new_entity();
    let old_id = 1138;
    world.add_component(positive_entity, ID, Comp::Id(old_id));

    let new_id = 8311;

    // When
    match world.get_component_mut(positive_entity, ID) {
        Some(Comp::Id(n)) => *n = new_id,
        _ => panic!("component is not an id component"),
    }
    let actual = world.get_component(positive_entity, ID);

    // Then
    assert_eq!(new_id, id_number(actual.unwrap()));
}

#[test]
fn test_delete_component() {
    // Given
    let mut world: World<Comp> = World::new();

    let positive_entity = world.new_entity();
    let id = 1;
    world.add_component(positive_entity, ID, Comp::Id(id));

    // When
    world.remove_component(positive_entity, ID);
    let actual = world.get_component(positive_entity, ID);

    // Then
    assert_eq!(None, actual);
}

#[test]
fn test_delete_entity() {
    // Given
    let mut world: World<Comp> = World::new();

    let positive_entity = world.new_entity();
    world.add_component(positive_entity, ID, Comp::Id(1));

    let negative_entity = world.new_entity();
    let expected_id = 2;
    world.add_component(negative_entity, ID, Comp::Id(expected_id));

    // When
    world.remove_entity(positive_entity);
    let positive_actual = world.get_component(positive_entity, ID);
    let negative_actual = world.get_component(negative_entity, ID);

    // Then
    assert_eq!(world.query(Query::new()).len(), 1);
    assert_eq!(None, positive_actual);
    assert_eq!(expected_id, id_number(negative_actual.unwrap()));
}
