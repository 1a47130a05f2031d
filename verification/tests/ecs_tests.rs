use ecs_core::demo::{Card, EventLog, LogSystem, Player, Position, Rank, Suit};
use ecs_core::ecs::{ComponentStorage, Entity, System, SystemScheduler, World};
use ecs_core::registry::GameRegistry;

fn new_world() -> World<GameRegistry> {
    World::<GameRegistry>::new()
}

#[test]
fn entity_wraps_and_returns_id() {
    let e = Entity::new(7);
    assert_eq!(e.id(), 7);
    assert_eq!(e.0, 7);
    assert_eq!(Entity::new(7), e);
}

#[test]
fn storage_insert_get_remove_contains() {
    let mut storage: ComponentStorage<u32> = ComponentStorage::new();
    assert!(storage.is_empty());
    assert_eq!(storage.len(), 0);
    let a = Entity::new(1);
    let b = Entity::new(2);
    assert_eq!(storage.insert(a, 10), None);
    assert_eq!(storage.insert(b, 20), None);
    assert_eq!(storage.len(), 2);
    assert!(!storage.is_empty());
    assert!(storage.contains(a));
    assert!(!storage.contains(Entity::new(3)));
    assert_eq!(storage.get(a), Some(&10));
    assert_eq!(storage.get(Entity::new(3)), None);
    assert_eq!(storage.insert(a, 11), Some(10));
    assert_eq!(storage.get(a), Some(&11));
    assert_eq!(storage.remove(a), Some(11));
    assert_eq!(storage.remove(a), None);
    assert_eq!(storage.len(), 1);
}

#[test]
fn storage_get_mut_edits_in_place() {
    let mut storage: ComponentStorage<u32> = ComponentStorage::new();
    let a = Entity::new(1);
    storage.insert(a, 5);
    if let Some(v) = storage.get_mut(a) {
        *v = 50;
    } else {
        panic!("expected a stored value");
    }
    assert_eq!(storage.get(a), Some(&50));
    assert!(storage.get_mut(Entity::new(9)).is_none());
}

#[test]
fn storage_iter_yields_each_pair_once() {
    let mut storage: ComponentStorage<u32> = ComponentStorage::new();
    for i in 1..=5u32 {
        storage.insert(Entity::new(i), i * 100);
    }
    storage.remove(Entity::new(3));
    let pairs = storage.iter();
    assert_eq!(pairs.len(), 4);
    for i in [1u32, 2, 4, 5] {
        let hits: Vec<_> = pairs.iter().filter(|(e, _)| e.id() == i).collect();
        assert_eq!(hits.len(), 1);
        assert_eq!(hits[0].1, i * 100);
    }
}

#[test]
fn create_entity_issues_increasing_ids_from_one() {
    // Ids start at 1 and rise strictly, and the count tracks
    // creations minus completed removals.
    let mut world = new_world();
    let e1 = world.create_entity();
    let e2 = world.create_entity();
    let e3 = world.create_entity();
    assert_eq!(e1.id(), 1);
    assert_eq!(e2.id(), 2);
    assert_eq!(e3.id(), 3);
    assert!(e1.id() < e2.id() && e2.id() < e3.id());
    assert_eq!(world.entity_count(), 3);
    assert!(world.remove_entity(e2));
    assert_eq!(world.entity_count(), 2);
    assert!(!world.remove_entity(e2));
    assert_eq!(world.entity_count(), 2);
    let e4 = world.create_entity();
    assert_eq!(e4.id(), 4);
    assert_eq!(world.entity_count(), 3);
    assert_eq!(
        world.entities().iter().map(|e| e.id()).collect::<Vec<_>>(),
        vec![1, 3, 4]
    );
}

#[test]
fn add_component_then_get_component_returns_it() {
    let mut world = new_world();
    let e1 = world.create_entity();
    assert_eq!(e1.id(), 1);
    world.add_component(e1, Position::new(10, 20));
    assert_eq!(world.get_component::<Position>(e1), Some(&Position { x: 10, y: 20 }));
}

#[test]
fn entity_ids_continue_after_existing_entities() {
    let mut world = new_world();
    let e1 = world.create_entity();
    let e2 = world.create_entity();
    assert_eq!(e1.id(), 1);
    assert_eq!(e2.id(), 2);
    assert_eq!(world.entity_count(), 2);
}

#[test]
fn adding_twice_returns_replaced_value() {
    let mut world = new_world();
    let e1 = world.create_entity();
    world.add_component(e1, Position::new(1, 1));
    let replaced = world.add_component(e1, Position::new(2, 2));
    assert_eq!(replaced, Some(Position { x: 1, y: 1 }));
    assert_eq!(world.get_component::<Position>(e1), Some(&Position { x: 2, y: 2 }));
}

#[test]
fn removing_missing_component_is_empty_not_a_panic() {
    let mut world = new_world();
    let _e1 = world.create_entity();
    let e2 = world.create_entity();
    assert_eq!(world.remove_component::<Position>(e2), None);
}

#[test]
fn remove_component_returns_inserted_value_and_clears_it() {
    let mut world = new_world();
    let e = world.create_entity();
    world.add_component(e, Card::new(Suit::Spades, Rank::Ace));
    let removed = world.remove_component::<Card>(e);
    assert_eq!(removed, Some(Card { suit: Suit::Spades, rank: Rank::Ace, is_face_up: false }));
    assert_eq!(world.get_component::<Card>(e), None);
    assert!(!world.has_component::<Card>(e));
}

#[test]
fn query_on_untouched_type_is_empty_not_an_error() {
    let mut world = new_world();
    let e = world.create_entity();
    world.add_component(e, Position::new(0, 0));
    // No Card was ever inserted: the query yields nothing.
    assert_eq!(world.query::<Card>().len(), 0);
    assert_eq!(world.query::<Position>().len(), 1);
}

#[test]
fn has_component_tracks_inserts_and_removes() {
    let mut world = new_world();
    let e1 = world.create_entity();
    let e2 = world.create_entity();
    assert!(!world.has_component::<Position>(e1));
    world.add_component(e1, Position::new(3, 4));
    assert!(world.has_component::<Position>(e1));
    assert!(!world.has_component::<Position>(e2));
    world.remove_component::<Position>(e1);
    assert!(!world.has_component::<Position>(e1));
}

#[test]
fn get_component_mut_edits_in_place() {
    let mut world = new_world();
    let e = world.create_entity();
    world.add_component(e, Player::new(String::from("alice")));
    if let Some(p) = world.get_component_mut::<Player>(e) {
        p.score += 500;
    } else {
        panic!("expected a player");
    }
    assert_eq!(world.get_component::<Player>(e).unwrap().score, 500);
}

#[test]
fn query_mut_gives_the_whole_storage() {
    let mut world = new_world();
    let e1 = world.create_entity();
    let e2 = world.create_entity();
    world.add_component(e1, Position::new(1, 0));
    world.add_component(e2, Position::new(2, 0));
    let storage = world.query_mut::<Position>();
    assert_eq!(storage.len(), 2);
    if let Some(p) = storage.get_mut(e1) {
        p.y = 9;
    }
    assert_eq!(world.get_component::<Position>(e1), Some(&Position { x: 1, y: 9 }));
}

#[test]
fn soft_delete_leaves_components_resident() {
    // Removing an entity from the roster does not purge its
    // components; they stay visible to queries until removed
    // explicitly.
    let mut world = new_world();
    let e = world.create_entity();
    world.add_component(e, Position::new(5, 5));
    assert!(world.remove_entity(e));
    assert_eq!(world.entity_count(), 0);
    assert!(world.has_component::<Position>(e));
    assert_eq!(world.query::<Position>().len(), 1);
}

#[test]
fn scheduler_runs_systems_in_registration_order() {
    // Two systems that each append their label to a shared log:
    // after one update the log holds exactly [first, second].
    let mut world = new_world();
    let log_entity = world.create_entity();
    world.add_component(log_entity, EventLog::new());
    let mut scheduler = SystemScheduler::new();
    scheduler.add_system(LogSystem::new("first", log_entity));
    scheduler.add_system(LogSystem::new("second", log_entity));
    assert_eq!(scheduler.system_count(), 2);
    scheduler.update(&mut world, 16);
    let log = world.get_component::<EventLog>(log_entity).unwrap();
    assert_eq!(log.entries, vec!["first", "second"]);
}

#[test]
fn scheduler_runs_each_system_exactly_once_per_update() {
    // Three systems labelled A, B, C run as A, B, C on every
    // update, once each.
    let mut world = new_world();
    let log_entity = world.create_entity();
    world.add_component(log_entity, EventLog::new());
    let mut scheduler = SystemScheduler::new();
    scheduler.add_system(LogSystem::new("A", log_entity));
    scheduler.add_system(LogSystem::new("B", log_entity));
    scheduler.add_system(LogSystem::new("C", log_entity));
    scheduler.update(&mut world, 16);
    scheduler.update(&mut world, 16);
    let log = world.get_component::<EventLog>(log_entity).unwrap();
    assert_eq!(log.entries, vec!["A", "B", "C", "A", "B", "C"]);
}

#[test]
fn system_names_are_their_labels() {
    let s = LogSystem::new("tick", Entity::new(1));
    let name: &str = <LogSystem as System<GameRegistry>>::name(&s);
    assert_eq!(name, "tick");
}
