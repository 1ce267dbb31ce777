use ecs::query::Query;
use ecs::world::World;

#[derive(PartialEq, Debug)]
enum Comp {
    Id(u32),
    Marker,
}

const ID: u64 = 2;
const MARKER: u64 = 3;
const UNUSED: u64 = 9;

#[test]
fn empty_query_lists_all_live_until_removal() {
    let mut world: World<Comp> = World::new();
    let e1 = world.new_entity();
    let e2 = world.new_entity();
    let e3 = world.new_entity();

    let all = world.query(Query::new());
    assert_eq!(all.len(), 3);
    assert!(all.contains(&e1));
    assert!(all.contains(&e2));
    assert!(all.contains(&e3));

    world.remove_entity(e2);
    let rest = world.query(Query::new());
    assert_eq!(rest.len(), 2);
    assert!(rest.contains(&e1));
    assert!(!rest.contains(&e2));
    assert!(rest.contains(&e3));
}

#[test]
fn component_roundtrip_and_removal() {
    let mut world: World<Comp> = World::new();
    let e = world.new_entity();

    world.add_component(e, ID, Comp::Id(5));
    assert_eq!(Some(&Comp::Id(5)), world.get_component(e, ID));

    world.remove_component(e, ID);
    assert_eq!(None, world.get_component(e, ID));
}

#[test]
fn add_component_overwrites_prior_value() {
    let mut world: World<Comp> = World::new();
    let e = world.new_entity();

    world.add_component(e, ID, Comp::Id(1));
    world.add_component(e, ID, Comp::Id(9));

    assert_eq!(Some(&Comp::Id(9)), world.get_component(e, ID));

    let result = world.query(Query::new().with(ID));
    assert_eq!(result.iter().filter(|x| **x == e).count(), 1);
}

#[test]
fn removed_entity_is_gone_everywhere() {
    let mut world: World<Comp> = World::new();
    let e = world.new_entity();
    world.add_component(e, ID, Comp::Id(4));
    world.add_component(e, MARKER, Comp::Marker);

    world.remove_entity(e);

    assert_eq!(None, world.get_component(e, ID));
    assert_eq!(None, world.get_component(e, MARKER));
    assert!(!world.query(Query::new()).contains(&e));
    assert!(!world.query(Query::new().with(ID)).contains(&e));
    assert!(!world.query(Query::new().with(MARKER)).contains(&e));
}

#[test]
fn unattached_required_type_empties_the_result() {
    let mut world: World<Comp> = World::new();
    let e1 = world.new_entity();
    world.add_component(e1, MARKER, Comp::Marker);

    let result = world.query(Query::new().with(MARKER).with(UNUSED));
    assert!(result.is_empty());
}

#[test]
fn query_intersection() {
    let mut world: World<Comp> = World::new();
    let e1 = world.new_entity();
    world.add_component(e1, MARKER, Comp::Marker);
    let e2 = world.new_entity();
    world.add_component(e2, MARKER, Comp::Marker);
    world.add_component(e2, ID, Comp::Id(7));

    let with_marker = world.query(Query::new().with(MARKER));
    assert_eq!(with_marker.len(), 2);
    assert!(with_marker.contains(&e1));
    assert!(with_marker.contains(&e2));

    let with_both = world.query(Query::new().with(MARKER).with(ID));
    assert_eq!(with_both.len(), 1);
    assert!(with_both.contains(&e2));

    let with_unused = world.query(Query::new().with(UNUSED));
    assert!(with_unused.is_empty());
}

#[test]
fn removing_unknown_or_removed_entity_is_harmless() {
    let mut world: World<Comp> = World::new();
    let kept = world.new_entity();
    world.add_component(kept, ID, Comp::Id(6));

    // An identifier this registry never issued: the other registry starts
    // an independent lineage counting from 1, so its third entity is
    // unknown to a registry that will only ever issue two.
    let mut other_world: World<Comp> = World::new();
    other_world.new_entity();
    other_world.new_entity();
    let foreign = other_world.new_entity();
    world.remove_entity(foreign);

    // An entity removed twice.
    let doomed = world.new_entity();
    world.remove_entity(doomed);
    world.remove_entity(doomed);

    assert_eq!(Some(&Comp::Id(6)), world.get_component(kept, ID));
    let all = world.query(Query::new());
    assert_eq!(all.len(), 1);
    assert!(all.contains(&kept));
}

#[test]
fn issued_entities_are_distinct() {
    let mut world: World<Comp> = World::new();
    let e1 = world.new_entity();
    let e2 = world.new_entity();
    assert_ne!(e1, e2);

    world.remove_entity(e1);
    world.remove_entity(e2);
    let e3 = world.new_entity();
    assert_ne!(e1, e3);
    assert_ne!(e2, e3);
}

#[test]
fn repeated_with_is_idempotent() {
    let mut world: World<Comp> = World::new();
    let e = world.new_entity();
    world.add_component(e, MARKER, Comp::Marker);

    let once = world.query(Query::new().with(MARKER));
    let twice = world.query(Query::new().with(MARKER).with(MARKER));
    assert_eq!(once.len(), 1);
    assert_eq!(twice.len(), 1);
    assert!(twice.contains(&e));
}

#[test]
fn query_on_empty_world_is_empty() {
    let world: World<Comp> = World::new();
    assert!(world.query(Query::new()).is_empty());
    assert!(world.query(Query::new().with(ID)).is_empty());
}

#[test]
fn identifier_lineage_spans_registries() {
    let mut w1: World<Comp> = World::new();
    let e1 = w1.new_entity();
    let e2 = w1.new_entity();

    let generator = w1.into_generator();
    let mut w2: World<Comp> = World::with_generator(generator);
    let e3 = w2.new_entity();
    let e4 = w2.new_entity();

    assert_ne!(e3, e1);
    assert_ne!(e3, e2);
    assert_ne!(e4, e1);
    assert_ne!(e4, e2);
    assert_ne!(e3, e4);
}
