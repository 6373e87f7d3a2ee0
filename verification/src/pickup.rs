//! Picking items up: requests wait in the pickup queue of an actor and are
//! resolved, oldest first, against the world as it is when their turn comes.

use vstd::prelude::*;
use vstd::string::StringExecFns;

use crate::components::{Component, Kind, Position};
use crate::logs::Log;
use crate::state::{backpack, coherent, scene_of, Scene};
use crate::world::{lookup, Entity, Record, World};

verus! {

/// How many tiles away, along each axis, an item may lie and still be picked
/// up. With 1 the actor reaches its own tile and the eight around it; with 0
/// it would reach its own tile only.
pub const PICKUP_REACH: i32 = 1;

/// Whether an actor at `actor` reaches an item at `target`.
pub open spec fn within_reach(actor: Position, target: Position) -> bool {
    &&& -PICKUP_REACH <= actor.x - target.x <= PICKUP_REACH
    &&& -PICKUP_REACH <= actor.y - target.y <= PICKUP_REACH
}

/// Whether a request of `actor` to pick `target` up is valid in `world`: the
/// target exists and lies on the map, and the actor stands within reach of it.
pub open spec fn can_pick_up(world: Map<Entity, Record>, actor: Entity, target: Entity) -> bool {
    &&& lookup(world, actor).position is Some
    &&& lookup(world, target).position is Some
    &&& within_reach(lookup(world, actor).position->0, lookup(world, target).position->0)
}

/// The record of an item once it has been picked up: off the map, no longer
/// drawn, and in the backpack.
pub open spec fn carried(item: Record) -> Record {
    Record { position: None, renderable: None, in_backpack: true, ..item }
}

/// What the log calls an item: its name, or "something" if it has none.
pub open spec fn label(item: Record) -> Seq<char> {
    match item.name {
        Some(name) => name,
        None => "something"@,
    }
}

/// The log entry for a pickup of `item`.
pub open spec fn pickup_entry(item: Record) -> Seq<char> {
    "picked up "@ + label(item)
}

/// The scene after one request of `actor` to pick `target` up is resolved.
/// A valid request moves the item into the backpack and is logged. Any other
/// request is dropped: nothing changes and nothing is logged.
pub open spec fn resolve(scene: Scene, actor: Entity, target: Entity) -> Scene {
    if can_pick_up(scene.world, actor, target) {
        Scene {
            world: scene.world.insert(target, carried(scene.world[target])),
            log: scene.log.push(pickup_entry(scene.world[target])),
            ..scene
        }
    } else {
        scene
    }
}

/// The scene after `requests` of `actor` are resolved in order, each against
/// the scene that the requests before it left.
pub open spec fn resolve_all(scene: Scene, actor: Entity, requests: Seq<Entity>) -> Scene
    decreases requests.len(),
{
    if requests.len() == 0 {
        scene
    } else {
        resolve(resolve_all(scene, actor, requests.drop_last()), actor, requests.last())
    }
}

/// The pickup requests that wait on `actor`, oldest first: none if the actor
/// is gone or has no pickup queue.
pub open spec fn pending(world: Map<Entity, Record>, actor: Entity) -> Seq<Entity> {
    match lookup(world, actor).pickups {
        Some(requests) => requests,
        None => Seq::empty(),
    }
}

/// `world` with the pickup queue of `actor` emptied, if it has one.
pub open spec fn emptied(world: Map<Entity, Record>, actor: Entity) -> Map<Entity, Record> {
    if lookup(world, actor).pickups is Some {
        world.insert(actor, Record { pickups: Some(Seq::empty()), ..world[actor] })
    } else {
        world
    }
}

/// The scene after one run of the pickup system for `actor`: its queue is
/// empty, and every request that waited in it has been resolved.
pub open spec fn drained(scene: Scene, actor: Entity) -> Scene {
    resolve_all(
        Scene { world: emptied(scene.world, actor), ..scene },
        actor,
        pending(scene.world, actor),
    )
}

/// A request that is not valid changes nothing: the backpack holds what it
/// held, and the log gains no entry. A request is not valid, among other
/// things, if its target does not exist, or lies out of reach.
pub proof fn lemma_invalid_request_is_dropped(scene: Scene, actor: Entity, target: Entity)
    ensures
        !scene.world.contains_key(target) ==> !can_pick_up(scene.world, actor, target),
        lookup(scene.world, actor).position is Some && lookup(scene.world, target).position is Some
            && !within_reach(
            lookup(scene.world, actor).position->0,
            lookup(scene.world, target).position->0,
        ) ==> !can_pick_up(scene.world, actor, target),
        !can_pick_up(scene.world, actor, target) ==> {
            &&& resolve(scene, actor, target) == scene
            &&& backpack(resolve(scene, actor, target).world) == backpack(scene.world)
            &&& resolve(scene, actor, target).log == scene.log
        },
{
}

/// A valid request moves the item: afterwards it is off the map and in the
/// backpack, whatever it was before. Every other entity is as it was, and
/// the log has gained the one entry that names the item.
pub proof fn lemma_pickup_moves_item(scene: Scene, actor: Entity, target: Entity)
    requires
        can_pick_up(scene.world, actor, target),
    ensures
        scene.world.contains_key(target),
        scene.world[target].position is Some,
        coherent(scene.world) ==> !scene.world[target].in_backpack,
        ({
            let after = resolve(scene, actor, target);
            &&& after.world.dom() == scene.world.dom()
            &&& after.world[target].position is None
            &&& after.world[target].in_backpack
            &&& backpack(after.world) == backpack(scene.world).insert(target)
            &&& forall|e: Entity| e != target ==> lookup(after.world, e) == lookup(scene.world, e)
            &&& after.log == scene.log.push(pickup_entry(scene.world[target]))
        }),
{
    let after = resolve(scene, actor, target);
    assert(after.world.dom() =~= scene.world.dom());
    assert(backpack(after.world) =~= backpack(scene.world).insert(target));
}

/// Resolving requests leaves every queue as it was, adds and removes no
/// entity, keeps what the log held, and keeps the world coherent.
pub proof fn lemma_resolve_all_keeps(scene: Scene, actor: Entity, requests: Seq<Entity>)
    ensures
        ({
            let after = resolve_all(scene, actor, requests);
            &&& after.world.dom() == scene.world.dom()
            &&& after.order == scene.order
            &&& forall|e: Entity| #[trigger]
                lookup(after.world, e).pickups == lookup(scene.world, e).pickups
            &&& forall|e: Entity| #[trigger]
                lookup(after.world, e).crafts == lookup(scene.world, e).crafts
            &&& scene.log.is_prefix_of(after.log)
            &&& coherent(scene.world) ==> coherent(after.world)
        }),
    decreases requests.len(),
{
    if requests.len() > 0 {
        lemma_resolve_all_keeps(scene, actor, requests.drop_last());
        let middle = resolve_all(scene, actor, requests.drop_last());
        let after = resolve(middle, actor, requests.last());
        assert(after.world.dom() =~= middle.world.dom());
        assert forall|e: Entity| #[trigger]
            lookup(after.world, e).pickups == lookup(scene.world, e).pickups by {
            assert(lookup(middle.world, e).pickups == lookup(scene.world, e).pickups);
        }
        assert forall|e: Entity| #[trigger]
            lookup(after.world, e).crafts == lookup(scene.world, e).crafts by {
            assert(lookup(middle.world, e).crafts == lookup(scene.world, e).crafts);
        }
        if coherent(scene.world) {
            assert forall|e: Entity| #[trigger] after.world.contains_key(e) implies !(
            after.world[e].position is Some && after.world[e].in_backpack) by {
                assert(middle.world.contains_key(e));
            }
        }
    }
}

/// Draining an empty queue changes nothing: neither the world nor the log.
pub proof fn lemma_empty_drain_changes_nothing(scene: Scene, actor: Entity)
    requires
        pending(scene.world, actor).len() == 0,
    ensures
        drained(scene, actor) == scene,
{
    if lookup(scene.world, actor).pickups is Some {
        assert(scene.world[actor].pickups->0 =~= Seq::empty());
    }
    assert(emptied(scene.world, actor) =~= scene.world);
}

/// After a run of the pickup system the queue is empty, so a second run
/// changes nothing: what was picked up stays picked up.
pub proof fn lemma_second_drain_changes_nothing(scene: Scene, actor: Entity)
    ensures
        pending(drained(scene, actor).world, actor).len() == 0,
        drained(drained(scene, actor), actor) == drained(scene, actor),
{
    let start = Scene { world: emptied(scene.world, actor), ..scene };
    lemma_resolve_all_keeps(start, actor, pending(scene.world, actor));
    let once = drained(scene, actor);
    assert(lookup(once.world, actor).pickups == lookup(start.world, actor).pickups);
    lemma_empty_drain_changes_nothing(once, actor);
}

/// Whether an actor at `actor` reaches an item at `target`.
pub fn in_reach(actor: Position, target: Position) -> (near: bool)
    ensures
        near == within_reach(actor, target),
{
    let dx: i64 = actor.x as i64 - target.x as i64;
    let dy: i64 = actor.y as i64 - target.y as i64;
    let reach: i64 = PICKUP_REACH as i64;
    -reach <= dx && dx <= reach && -reach <= dy && dy <= reach
}

/// Resolves one request of `actor` to pick `target` up, in one step: either
/// the item leaves the map, enters the backpack and is logged, or nothing
/// happens at all. Returns whether the item was picked up.
pub fn pick_up(world: &mut World, actor: Entity, target: Entity, log: &mut Log) -> (picked: bool)
    requires
        old(world).wf(),
    ensures
        final(world).wf(),
        forall|index: usize| final(world).latest(index) == old(world).latest(index),
        picked == can_pick_up(old(world)@, actor, target),
        scene_of(final(world), final(log)) == resolve(scene_of(old(world), old(log)), actor, target),
{
    let from = match world.position(actor) {
        Some(position) => position,
        None => {
            return false;
        },
    };
    let at = match world.position(target) {
        Some(position) => position,
        None => {
            return false;
        },
    };
    if !in_reach(from, at) {
        return false;
    }
    let entry = match world.name(target) {
        Some(name) => String::from_str("picked up ").concat(name.as_str()),
        None => String::from_str("picked up ").concat("something"),
    };
    world.remove(target, Kind::Position);
    world.remove(target, Kind::Renderable);
    world.insert(target, Component::InBackpack);
    log.push(entry);
    assert(world@ =~= old(world)@.insert(target, carried(old(world)@[target])));
    true
}

/// Whether `entity` is an item that `actor` could pick up as `world` is now.
pub open spec fn on_offer(world: Map<Entity, Record>, actor: Entity, entity: Entity) -> bool {
    world.contains_key(entity) && world[entity].item && can_pick_up(world, actor, entity)
}

/// The test that an entity is an item that `actor` could pick up as
/// `world` is now.
pub open spec fn offered(world: Map<Entity, Record>, actor: Entity) -> spec_fn(Entity) -> bool {
    |e: Entity| on_offer(world, actor, e)
}

/// The items within reach of `actor`, in the order in which they were
/// created: what a request to pick up can sensibly name.
pub fn reachable(world: &World, actor: Entity) -> (found: Vec<Entity>)
    ensures
        found@ == world.order().filter(offered(world@, actor)),
{
    let from = world.position(actor);
    let all = world.entities();
    let mut found: Vec<Entity> = Vec::new();
    let mut seen: usize = 0;
    while seen < all.len()
        invariant
            seen <= all.len(),
            from == lookup(world@, actor).position,
            found@ == all@.take(seen as int).filter(offered(world@, actor)),
        decreases all.len() - seen,
    {
        let entity = all[seen];
        let near = match (from, world.position(entity)) {
            (Some(here), Some(there)) => in_reach(here, there),
            _ => false,
        };
        if near && world.has(entity, Kind::Item) {
            found.push(entity);
        }
        proof {
            assert(all@.take(seen + 1) =~= all@.take(seen as int).push(entity));
            all@.take(seen as int).lemma_filter_push(entity, offered(world@, actor));
        }
        seen += 1;
    }
    proof {
        reveal(Seq::filter);
        assert(all@.take(seen as int) =~= all@);
    }
    found
}

/// The system that resolves pickup requests.
pub struct PickupSystem;

impl PickupSystem {
    /// Drains the pickup queue of `actor`: takes every request out of it and
    /// resolves them oldest first. With an empty queue, or none, nothing
    /// changes.
    pub fn run(world: &mut World, actor: Entity, log: &mut Log)
        requires
            old(world).wf(),
        ensures
            final(world).wf(),
            forall|index: usize| final(world).latest(index) == old(world).latest(index),
            scene_of(final(world), final(log)) == drained(scene_of(old(world), old(log)), actor),
    {
        let ghost before = scene_of(old(world), old(log));
        let requests = world.take_pickups(actor);
        let ghost start = scene_of(world, log);
        let ghost latest = |index: usize| world.latest(index);
        assert(start.world =~= emptied(before.world, actor));
        let mut done: usize = 0;
        while done < requests.len()
            invariant
                done <= requests.len(),
                world.wf(),
                forall|index: usize| world.latest(index) == latest(index),
                scene_of(world, log) == resolve_all(start, actor, requests@.take(done as int)),
            decreases requests.len() - done,
        {
            assert(requests@.take(done + 1).drop_last() =~= requests@.take(done as int));
            pick_up(world, actor, requests[done], log);
            done += 1;
        }
        assert(requests@.take(done as int) =~= requests@);
    }
}

} // verus!
