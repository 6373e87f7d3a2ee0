use pipelain::components::{
    Color, Component, CraftQueue, Kind, Name, PickupQueue, Position, Renderable, Tier,
};
use pipelain::logs::Log;
use pipelain::pickup::{in_reach, pick_up, reachable, PickupSystem, PICKUP_REACH};
use pipelain::world::{Entity, World};

fn player_at(world: &mut World, x: i32, y: i32) -> Entity {
    let player = world.create();
    world.insert(player, Component::Player);
    world.insert(player, Component::Position(Position { x, y }));
    world.insert(player, Component::PickupQueue(PickupQueue::new()));
    world.insert(player, Component::CraftQueue(CraftQueue::new()));
    player
}

fn item_at(world: &mut World, name: &str, x: i32, y: i32) -> Entity {
    let item = world.create();
    world.insert(item, Component::Item);
    world.insert(item, Component::Name(Name::new(name)));
    world.insert(item, Component::Tier(Tier::new(1)));
    world.insert(item, Component::Position(Position { x, y }));
    world.insert(item, Component::Renderable(Renderable::new(42, Color { r: 255, g: 255, b: 0 })));
    item
}

fn backpack(world: &World) -> Vec<Entity> {
    world.entities().into_iter().filter(|e| world.has(*e, Kind::InBackpack)).collect()
}

#[test]
fn scenario_three_requests_one_tick() {
    let mut world = World::new();
    let mut log = Log::new();
    log.push("the game has fully loaded".to_string());
    let player = player_at(&mut world, 40, 25);
    let a = item_at(&mut world, "A", 41, 25);
    let b = item_at(&mut world, "B", 70, 3);
    let c = item_at(&mut world, "C", 40, 24);

    // an earlier tick picks C up
    world.push_pickup(player, c);
    PickupSystem::run(&mut world, player, &mut log);
    assert!(world.has(c, Kind::InBackpack));
    assert_eq!(log.len(), 2);

    world.push_pickup(player, a);
    world.push_pickup(player, b);
    world.push_pickup(player, c);
    PickupSystem::run(&mut world, player, &mut log);

    // A is in the backpack and off the map
    assert!(world.has(a, Kind::InBackpack));
    assert_eq!(world.position(a), None);
    assert_eq!(world.renderable(a), None);
    // B is where it was
    assert!(!world.has(b, Kind::InBackpack));
    assert_eq!(world.position(b), Some(Position { x: 70, y: 3 }));
    assert!(world.renderable(b).is_some());
    // C is as the earlier tick left it
    assert!(world.has(c, Kind::InBackpack));
    assert_eq!(world.position(c), None);
    // exactly one new entry
    assert_eq!(log.len(), 3);
    assert_eq!(log.entries[2], "picked up A");
    // the queue is empty
    assert!(world.pickup_queue(player).unwrap().queue.is_empty());
}

#[test]
fn draining_an_empty_pickup_queue_changes_nothing() {
    let mut world = World::new();
    let mut log = Log::new();
    log.push("hello".to_string());
    let player = player_at(&mut world, 1, 1);
    let item = item_at(&mut world, "flint", 1, 2);
    PickupSystem::run(&mut world, player, &mut log);
    assert_eq!(log.entries, vec!["hello".to_string()]);
    assert_eq!(world.position(item), Some(Position { x: 1, y: 2 }));
    assert!(world.renderable(item).is_some());
    assert!(!world.has(item, Kind::InBackpack));
    assert_eq!(world.position(player), Some(Position { x: 1, y: 1 }));
    assert!(world.pickup_queue(player).unwrap().queue.is_empty());
    assert_eq!(world.entities(), vec![player, item]);
}

#[test]
fn draining_without_a_queue_changes_nothing() {
    let mut world = World::new();
    let mut log = Log::new();
    let loner = world.create();
    world.insert(loner, Component::Position(Position { x: 0, y: 0 }));
    let item = item_at(&mut world, "flint", 0, 0);
    PickupSystem::run(&mut world, loner, &mut log);
    assert_eq!(log.len(), 0);
    assert!(!world.has(loner, Kind::PickupQueue));
    assert!(!world.has(item, Kind::InBackpack));
    // nor does a run for an actor that is gone
    world.delete(loner);
    PickupSystem::run(&mut world, loner, &mut log);
    assert_eq!(log.len(), 0);
    assert_eq!(world.entities(), vec![item]);
}

#[test]
fn a_far_item_stays_and_nothing_is_logged() {
    let mut world = World::new();
    let mut log = Log::new();
    let player = player_at(&mut world, 10, 10);
    let far = item_at(&mut world, "rose", 12, 10);
    world.push_pickup(player, far);
    PickupSystem::run(&mut world, player, &mut log);
    assert!(backpack(&world).is_empty());
    assert_eq!(log.len(), 0);
    assert_eq!(world.position(far), Some(Position { x: 12, y: 10 }));
    assert!(world.pickup_queue(player).unwrap().queue.is_empty());
}

#[test]
fn a_request_for_an_entity_that_is_gone_is_dropped() {
    let mut world = World::new();
    let mut log = Log::new();
    let player = player_at(&mut world, 10, 10);
    let kept = item_at(&mut world, "axe", 30, 30);
    world.insert(kept, Component::InBackpack);
    world.remove(kept, Kind::Position);
    let gone = item_at(&mut world, "bush", 10, 11);
    world.push_pickup(player, gone);
    world.delete(gone);
    PickupSystem::run(&mut world, player, &mut log);
    assert_eq!(backpack(&world), vec![kept]);
    assert_eq!(log.len(), 0);
    assert!(world.pickup_queue(player).unwrap().queue.is_empty());
}

#[test]
fn a_stale_request_does_not_pick_up_the_newcomer_in_its_slot() {
    let mut world = World::new();
    let mut log = Log::new();
    let player = player_at(&mut world, 10, 10);
    let gone = item_at(&mut world, "bush", 10, 11);
    world.push_pickup(player, gone);
    world.delete(gone);
    let newcomer = item_at(&mut world, "rose", 10, 11);
    assert_eq!(newcomer.index(), gone.index());
    PickupSystem::run(&mut world, player, &mut log);
    assert!(!world.has(newcomer, Kind::InBackpack));
    assert_eq!(world.position(newcomer), Some(Position { x: 10, y: 11 }));
    assert_eq!(log.len(), 0);
}

#[test]
fn many_requests_for_the_same_invalid_entity_are_all_drained() {
    let mut world = World::new();
    let mut log = Log::new();
    let player = player_at(&mut world, 0, 0);
    let gone = item_at(&mut world, "bush", 0, 1);
    for _ in 0..4 {
        world.push_pickup(player, gone);
    }
    world.delete(gone);
    PickupSystem::run(&mut world, player, &mut log);
    assert!(world.pickup_queue(player).unwrap().queue.is_empty());
    assert_eq!(log.len(), 0);
    assert!(backpack(&world).is_empty());
}

#[test]
fn a_second_request_for_a_picked_item_is_dropped() {
    let mut world = World::new();
    let mut log = Log::new();
    let player = player_at(&mut world, 0, 0);
    let item = item_at(&mut world, "flint", 0, 1);
    world.push_pickup(player, item);
    world.push_pickup(player, item);
    PickupSystem::run(&mut world, player, &mut log);
    assert_eq!(log.entries, vec!["picked up flint".to_string()]);
    assert_eq!(backpack(&world), vec![item]);
}

#[test]
fn a_pickup_moves_the_item_and_stays_done() {
    let mut world = World::new();
    let mut log = Log::new();
    let player = player_at(&mut world, 5, 5);
    let item = item_at(&mut world, "flint", 5, 5);
    assert!(world.position(item).is_some());
    assert!(!world.has(item, Kind::InBackpack));
    world.push_pickup(player, item);
    PickupSystem::run(&mut world, player, &mut log);
    assert!(world.position(item).is_none());
    assert!(world.has(item, Kind::InBackpack));
    // what a pickup leaves alone
    assert!(world.has(item, Kind::Item));
    assert_eq!(world.name(item).unwrap().as_str(), "flint");
    assert_eq!(world.tier(item), Some(Tier::new(1)));
    assert_eq!(world.position(player), Some(Position { x: 5, y: 5 }));
    // draining the emptied queue again reverses nothing
    PickupSystem::run(&mut world, player, &mut log);
    PickupSystem::run(&mut world, player, &mut log);
    assert!(world.position(item).is_none());
    assert!(world.has(item, Kind::InBackpack));
    assert_eq!(log.entries, vec!["picked up flint".to_string()]);
}

#[test]
fn requests_are_resolved_oldest_first() {
    let mut world = World::new();
    let mut log = Log::new();
    let player = player_at(&mut world, 0, 0);
    let one = item_at(&mut world, "one", 1, 0);
    let two = item_at(&mut world, "two", 0, 1);
    let three = item_at(&mut world, "three", -1, -1);
    world.push_pickup(player, two);
    world.push_pickup(player, three);
    world.push_pickup(player, one);
    PickupSystem::run(&mut world, player, &mut log);
    assert_eq!(
        log.entries,
        vec![
            "picked up two".to_string(),
            "picked up three".to_string(),
            "picked up one".to_string()
        ]
    );
    assert_eq!(backpack(&world), vec![one, two, three]);
}

#[test]
fn an_item_without_a_name_is_something() {
    let mut world = World::new();
    let mut log = Log::new();
    let player = player_at(&mut world, 0, 0);
    let item = world.create();
    world.insert(item, Component::Position(Position { x: 0, y: 0 }));
    world.push_pickup(player, item);
    PickupSystem::run(&mut world, player, &mut log);
    assert_eq!(log.entries, vec!["picked up something".to_string()]);
    assert!(world.has(item, Kind::InBackpack));
}

#[test]
fn an_actor_off_the_map_picks_nothing_up() {
    let mut world = World::new();
    let mut log = Log::new();
    let player = world.create();
    world.insert(player, Component::PickupQueue(PickupQueue::new()));
    let item = item_at(&mut world, "flint", 0, 0);
    world.push_pickup(player, item);
    PickupSystem::run(&mut world, player, &mut log);
    assert!(!world.has(item, Kind::InBackpack));
    assert_eq!(log.len(), 0);
    assert!(world.pickup_queue(player).unwrap().queue.is_empty());
}

#[test]
fn pick_up_reports_whether_it_picked() {
    let mut world = World::new();
    let mut log = Log::new();
    let player = player_at(&mut world, 3, 3);
    let near = item_at(&mut world, "near", 4, 4);
    let far = item_at(&mut world, "far", 5, 3);
    assert!(!pick_up(&mut world, player, far, &mut log));
    assert_eq!(log.len(), 0);
    assert!(pick_up(&mut world, player, near, &mut log));
    assert_eq!(log.entries, vec!["picked up near".to_string()]);
    assert!(!pick_up(&mut world, player, near, &mut log));
    assert_eq!(log.len(), 1);
}

#[test]
fn reach_is_the_own_tile_and_the_eight_around() {
    assert_eq!(PICKUP_REACH, 1);
    let here = Position { x: 10, y: -10 };
    for dx in -3..=3 {
        for dy in -3..=3 {
            let there = Position { x: 10 + dx, y: -10 + dy };
            let near = dx >= -1 && dx <= 1 && dy >= -1 && dy <= 1;
            assert_eq!(in_reach(here, there), near);
            assert_eq!(in_reach(there, here), near);
        }
    }
}

#[test]
fn reach_at_the_edge_of_the_numbers() {
    let low = Position { x: i32::MIN, y: i32::MIN };
    let high = Position { x: i32::MAX, y: i32::MAX };
    assert!(!in_reach(low, high));
    assert!(!in_reach(high, low));
    assert!(in_reach(high, Position { x: i32::MAX - 1, y: i32::MAX }));
    assert!(in_reach(low, Position { x: i32::MIN + 1, y: i32::MIN + 1 }));
    assert!(!in_reach(low, Position { x: i32::MIN + 2, y: i32::MIN }));
    assert!(!in_reach(Position { x: 0, y: i32::MIN }, Position { x: 0, y: i32::MAX }));
}

#[test]
fn reachable_lists_the_items_around_the_actor() {
    let mut world = World::new();
    let player = player_at(&mut world, 10, 10);
    let here = item_at(&mut world, "here", 10, 10);
    let far = item_at(&mut world, "far", 12, 12);
    let corner = item_at(&mut world, "corner", 9, 11);
    let carried = item_at(&mut world, "carried", 10, 9);
    world.remove(carried, Kind::Position);
    world.insert(carried, Component::InBackpack);
    // something near that is no item
    let rock = world.create();
    world.insert(rock, Component::Position(Position { x: 11, y: 10 }));
    assert_eq!(reachable(&world, player), vec![here, corner]);
    // the far item reaches itself only
    assert_eq!(reachable(&world, far), vec![far]);
    // one that takes a freed slot is listed after those created before it
    world.delete(here);
    let late = item_at(&mut world, "late", 11, 11);
    assert_eq!(late.index(), here.index());
    assert_eq!(reachable(&world, player), vec![corner, late]);
    // an actor off the map, or gone, reaches nothing
    world.remove(player, Kind::Position);
    assert!(reachable(&world, player).is_empty());
    world.delete(player);
    assert!(reachable(&world, player).is_empty());
}
