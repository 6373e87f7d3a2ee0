use pipelain::components::{
    Color, Component, CraftQueue, Kind, Name, PickupQueue, Position, Recipe, Renderable, Tier,
};
use pipelain::world::World;

#[test]
fn new_world_is_empty() {
    let world = World::new();
    assert!(world.entities().is_empty());
}

#[test]
fn created_entity_is_alive_and_bare() {
    let mut world = World::new();
    let e = world.create();
    assert!(world.is_alive(e));
    assert_eq!(world.entities(), vec![e]);
    for kind in [
        Kind::Position,
        Kind::Renderable,
        Kind::Name,
        Kind::Item,
        Kind::Tier,
        Kind::BlocksMovement,
        Kind::Player,
        Kind::InBackpack,
        Kind::PickupQueue,
        Kind::CraftQueue,
    ] {
        assert!(!world.has(e, kind));
    }
    assert_eq!(world.position(e), None);
    assert_eq!(world.renderable(e), None);
    assert_eq!(world.tier(e), None);
    assert!(world.name(e).is_none());
    assert!(world.pickup_queue(e).is_none());
    assert!(world.craft_queue(e).is_none());
}

#[test]
fn insert_then_get_each_kind() {
    let mut world = World::new();
    let e = world.create();
    let other = world.create();
    let drawn = Renderable::new(64, Color { r: 255, g: 255, b: 0 });
    assert!(world.insert(e, Component::Position(Position { x: 3, y: -4 })));
    assert!(world.insert(e, Component::Renderable(drawn)));
    assert!(world.insert(e, Component::Name(Name::new("flint"))));
    assert!(world.insert(e, Component::Item));
    assert!(world.insert(e, Component::Tier(Tier::new(2))));
    assert!(world.insert(e, Component::BlocksMovement));
    assert!(world.insert(e, Component::Player));
    assert!(world.insert(e, Component::InBackpack));
    assert!(world.insert(e, Component::PickupQueue(PickupQueue { queue: vec![other] })));
    assert!(world.insert(
        e,
        Component::CraftQueue(CraftQueue { queue: vec![Recipe::new("axe", Tier::new(2), vec![])] })
    ));

    assert_eq!(world.position(e), Some(Position { x: 3, y: -4 }));
    assert_eq!(world.renderable(e), Some(drawn));
    assert_eq!(world.name(e).unwrap().as_str(), "flint");
    assert_eq!(world.tier(e), Some(Tier { rank: 2 }));
    assert!(world.has(e, Kind::Item));
    assert!(world.has(e, Kind::BlocksMovement));
    assert!(world.has(e, Kind::Player));
    assert!(world.has(e, Kind::InBackpack));
    assert_eq!(world.pickup_queue(e).unwrap().queue, vec![other]);
    assert_eq!(world.craft_queue(e).unwrap().queue.len(), 1);
    assert_eq!(world.craft_queue(e).unwrap().queue[0].product, "axe");

    // the neighbour got nothing
    assert_eq!(world.position(other), None);
    assert!(!world.has(other, Kind::Item));
}

#[test]
fn insert_replaces_a_component_of_the_same_kind() {
    let mut world = World::new();
    let e = world.create();
    world.insert(e, Component::Position(Position { x: 1, y: 1 }));
    world.insert(e, Component::Position(Position { x: 9, y: 8 }));
    assert_eq!(world.position(e), Some(Position { x: 9, y: 8 }));
    world.insert(e, Component::Name(Name::new("old")));
    world.insert(e, Component::Name(Name::new("new")));
    assert_eq!(world.name(e).unwrap().as_str(), "new");
}

#[test]
fn remove_takes_only_the_named_kind() {
    let mut world = World::new();
    let e = world.create();
    world.insert(e, Component::Position(Position { x: 1, y: 2 }));
    world.insert(e, Component::Tier(Tier::new(1)));
    world.insert(e, Component::Item);
    assert!(world.remove(e, Kind::Position));
    assert_eq!(world.position(e), None);
    assert_eq!(world.tier(e), Some(Tier::new(1)));
    assert!(world.has(e, Kind::Item));
    // nothing left to remove
    assert!(!world.remove(e, Kind::Position));
    assert!(world.remove(e, Kind::Item));
    assert!(!world.has(e, Kind::Item));
    assert!(world.is_alive(e));
}

#[test]
fn every_kind_can_be_removed() {
    let kinds = [
        Kind::Position,
        Kind::Renderable,
        Kind::Name,
        Kind::Item,
        Kind::Tier,
        Kind::BlocksMovement,
        Kind::Player,
        Kind::InBackpack,
        Kind::PickupQueue,
        Kind::CraftQueue,
    ];
    for kind in kinds {
        let mut world = World::new();
        let e = world.create();
        world.insert(e, Component::Position(Position { x: 0, y: 0 }));
        world.insert(e, Component::Renderable(Renderable::new(1, Color { r: 1, g: 2, b: 3 })));
        world.insert(e, Component::Name(Name::new("n")));
        world.insert(e, Component::Item);
        world.insert(e, Component::Tier(Tier::new(0)));
        world.insert(e, Component::BlocksMovement);
        world.insert(e, Component::Player);
        world.insert(e, Component::InBackpack);
        world.insert(e, Component::PickupQueue(PickupQueue::new()));
        world.insert(e, Component::CraftQueue(CraftQueue::new()));
        assert!(world.remove(e, kind));
        for k in kinds {
            assert_eq!(world.has(e, k), k != kind);
        }
    }
}

#[test]
fn component_kind_names_its_type() {
    assert_eq!(Component::Position(Position { x: 0, y: 0 }).kind(), Kind::Position);
    assert_eq!(
        Component::Renderable(Renderable::new(0, Color { r: 0, g: 0, b: 0 })).kind(),
        Kind::Renderable
    );
    assert_eq!(Component::Name(Name::new("")).kind(), Kind::Name);
    assert_eq!(Component::Item.kind(), Kind::Item);
    assert_eq!(Component::Tier(Tier::new(1)).kind(), Kind::Tier);
    assert_eq!(Component::BlocksMovement.kind(), Kind::BlocksMovement);
    assert_eq!(Component::Player.kind(), Kind::Player);
    assert_eq!(Component::InBackpack.kind(), Kind::InBackpack);
    assert_eq!(Component::PickupQueue(PickupQueue::new()).kind(), Kind::PickupQueue);
    assert_eq!(Component::CraftQueue(CraftQueue::new()).kind(), Kind::CraftQueue);
}

#[test]
fn a_deleted_entity_is_absent_everywhere() {
    let mut world = World::new();
    let e = world.create();
    world.insert(e, Component::Position(Position { x: 5, y: 5 }));
    world.insert(e, Component::Name(Name::new("rose")));
    world.insert(e, Component::PickupQueue(PickupQueue::new()));
    assert!(world.delete(e));
    assert!(!world.is_alive(e));
    assert_eq!(world.position(e), None);
    assert!(world.name(e).is_none());
    assert!(!world.has(e, Kind::Position));
    assert!(!world.insert(e, Component::Item));
    assert!(!world.remove(e, Kind::Name));
    assert!(!world.push_pickup(e, e));
    assert!(world.take_pickups(e).is_empty());
    assert!(!world.push_craft(e, Recipe::new("x", Tier::new(1), vec![])));
    assert!(world.take_crafts(e).is_empty());
    assert!(world.entities().is_empty());
    // deleting twice does nothing more
    assert!(!world.delete(e));
}

#[test]
fn a_stale_handle_never_reaches_the_entity_that_took_its_slot() {
    let mut world = World::new();
    let old = world.create();
    world.insert(old, Component::Name(Name::new("old")));
    world.delete(old);
    let new = world.create();
    world.insert(new, Component::Name(Name::new("new")));
    // the slot is used again, under the next generation
    assert_eq!(new.index(), old.index());
    assert_eq!(new.generation(), old.generation() + 1);
    assert_ne!(new, old);
    assert!(world.is_alive(new));
    assert!(!world.is_alive(old));
    assert!(world.name(old).is_none());
    assert!(!world.insert(old, Component::Item));
    assert!(!world.has(new, Kind::Item));
    assert!(!world.delete(old));
    assert!(world.is_alive(new));
    assert_eq!(world.name(new).unwrap().as_str(), "new");
}

#[test]
fn a_reused_slot_starts_bare() {
    let mut world = World::new();
    let old = world.create();
    world.insert(old, Component::Position(Position { x: 1, y: 1 }));
    world.insert(old, Component::InBackpack);
    world.insert(old, Component::Tier(Tier::new(3)));
    world.delete(old);
    let new = world.create();
    assert_eq!(world.position(new), None);
    assert_eq!(world.tier(new), None);
    assert!(!world.has(new, Kind::InBackpack));
}

#[test]
fn entities_come_in_the_order_of_creation() {
    let mut world = World::new();
    let a = world.create();
    let b = world.create();
    let c = world.create();
    assert_eq!((a.index(), b.index(), c.index()), (0, 1, 2));
    assert_eq!((a.generation(), b.generation(), c.generation()), (0, 0, 0));
    assert_eq!(world.entities(), vec![a, b, c]);
    world.delete(b);
    assert_eq!(world.entities(), vec![a, c]);
    // the newcomer takes the freed slot, and still comes last
    let d = world.create();
    assert_eq!(d.index(), 1);
    assert_eq!(world.entities(), vec![a, c, d]);
    let e = world.create();
    assert_eq!(e.index(), 3);
    assert_eq!(world.entities(), vec![a, c, d, e]);
    world.delete(a);
    let f = world.create();
    assert_eq!(f.index(), 0);
    assert_eq!(world.entities(), vec![c, d, e, f]);
    // deleting what is gone changes nothing
    world.delete(a);
    world.delete(b);
    assert_eq!(world.entities(), vec![c, d, e, f]);
    world.delete(e);
    world.delete(c);
    assert_eq!(world.entities(), vec![d, f]);
}

#[test]
fn freed_slots_are_each_used_once() {
    let mut world = World::new();
    let a = world.create();
    let b = world.create();
    world.delete(a);
    world.delete(b);
    let c = world.create();
    let d = world.create();
    let e = world.create();
    assert_ne!(c.index(), d.index());
    assert!(c.index() < 2 && d.index() < 2);
    assert_eq!(e.index(), 2);
    assert_eq!(world.entities().len(), 3);
}

#[test]
fn pickup_queue_is_first_in_first_out() {
    let mut world = World::new();
    let actor = world.create();
    let x = world.create();
    let y = world.create();
    // no queue yet: the request is refused
    assert!(!world.push_pickup(actor, x));
    world.insert(actor, Component::PickupQueue(PickupQueue::new()));
    assert!(world.push_pickup(actor, x));
    assert!(world.push_pickup(actor, y));
    assert!(world.push_pickup(actor, x));
    assert_eq!(world.pickup_queue(actor).unwrap().queue, vec![x, y, x]);
    assert_eq!(world.take_pickups(actor), vec![x, y, x]);
    // taking empties the queue and keeps it
    assert!(world.has(actor, Kind::PickupQueue));
    assert!(world.pickup_queue(actor).unwrap().queue.is_empty());
    assert!(world.take_pickups(actor).is_empty());
}

#[test]
fn craft_queue_is_first_in_first_out() {
    let mut world = World::new();
    let actor = world.create();
    assert!(!world.push_craft(actor, Recipe::new("axe", Tier::new(2), vec![])));
    world.insert(actor, Component::CraftQueue(CraftQueue::new()));
    assert!(world.push_craft(actor, Recipe::new("axe", Tier::new(2), vec![Tier::new(1)])));
    assert!(world.push_craft(actor, Recipe::new("fire pit", Tier::new(3), vec![])));
    let taken = world.take_crafts(actor);
    assert_eq!(taken.len(), 2);
    assert_eq!(taken[0].product, "axe");
    assert_eq!(taken[0].tier, Tier::new(2));
    assert_eq!(taken[0].materials, vec![Tier::new(1)]);
    assert_eq!(taken[1].product, "fire pit");
    assert!(world.has(actor, Kind::CraftQueue));
    assert!(world.craft_queue(actor).unwrap().queue.is_empty());
    assert!(world.take_crafts(actor).is_empty());
}

#[test]
fn taking_from_an_entity_without_queues_changes_nothing() {
    let mut world = World::new();
    let e = world.create();
    world.insert(e, Component::Name(Name::new("bush")));
    assert!(world.take_pickups(e).is_empty());
    assert!(world.take_crafts(e).is_empty());
    assert!(!world.has(e, Kind::PickupQueue));
    assert!(!world.has(e, Kind::CraftQueue));
    assert_eq!(world.name(e).unwrap().as_str(), "bush");
}

#[test]
fn renderable_new_has_a_black_background() {
    let r = Renderable::new(35, Color { r: 0, g: 128, b: 0 });
    assert_eq!(r.glyph, 35);
    assert_eq!(r.fg, Color { r: 0, g: 128, b: 0 });
    assert_eq!(r.bg, Color { r: 0, g: 0, b: 0 });
}

#[test]
fn name_keeps_its_text() {
    let name = Name::new("wooden stick");
    assert_eq!(name.as_str(), "wooden stick");
    assert_eq!(name.to_string(), "wooden stick".to_string());
    assert_eq!(name.duplicate().as_str(), "wooden stick");
    assert_eq!(Name::new("").as_str(), "");
}

#[test]
fn tiers_rank_from_low_to_high() {
    assert!(Tier::new(2).outranks(Tier::new(1)));
    assert!(!Tier::new(1).outranks(Tier::new(2)));
    assert!(!Tier::new(2).outranks(Tier::new(2)));
    assert_eq!(Tier::new(7).rank, 7);
}

#[test]
fn entities_with_fetches_components_jointly() {
    let mut world = World::new();
    let both = world.create();
    world.insert(both, Component::Position(Position { x: 1, y: 1 }));
    world.insert(both, Component::Renderable(Renderable::new(1, Color { r: 9, g: 9, b: 9 })));
    let placed = world.create();
    world.insert(placed, Component::Position(Position { x: 2, y: 2 }));
    let drawn = world.create();
    world.insert(drawn, Component::Renderable(Renderable::new(2, Color { r: 9, g: 9, b: 9 })));
    let bare = world.create();
    let also = world.create();
    world.insert(also, Component::Position(Position { x: 3, y: 3 }));
    world.insert(also, Component::Renderable(Renderable::new(3, Color { r: 9, g: 9, b: 9 })));
    world.insert(also, Component::Item);

    assert_eq!(world.entities_with(&vec![Kind::Position, Kind::Renderable]), vec![both, also]);
    assert_eq!(world.entities_with(&vec![Kind::Position]), vec![both, placed, also]);
    assert_eq!(world.entities_with(&vec![Kind::Item, Kind::Position]), vec![also]);
    assert_eq!(world.entities_with(&vec![Kind::Tier]), vec![]);
    assert_eq!(world.entities_with(&vec![]), vec![both, placed, drawn, bare, also]);
    world.delete(both);
    assert_eq!(world.entities_with(&vec![Kind::Position, Kind::Renderable]), vec![also]);
    // one that takes the freed slot comes after those created before it
    let late = world.create();
    assert_eq!(late.index(), both.index());
    world.insert(late, Component::Position(Position { x: 4, y: 4 }));
    world.insert(late, Component::Renderable(Renderable::new(4, Color { r: 9, g: 9, b: 9 })));
    assert_eq!(world.entities_with(&vec![Kind::Position, Kind::Renderable]), vec![also, late]);
    assert_eq!(world.entities_with(&vec![Kind::Position]), vec![placed, also, late]);
}
