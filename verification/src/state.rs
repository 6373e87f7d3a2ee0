//! The state of a running game.

use vstd::prelude::*;

use crate::components::{Component, CraftQueue, PickupQueue};
use crate::craft::{cleared, crafts_all_to, waiting, CraftSystem};
use crate::gui::UserInterfaceState;
use crate::logs::Log;
use crate::pickup::{drained, PickupSystem};
use crate::world::{Entity, Record, World};

verus! {

/// What the systems read and change, as plain values: the records of the
/// living entities, the order in which these were created, and the entries
/// of the log.
pub struct Scene {
    pub world: Map<Entity, Record>,
    pub order: Seq<Entity>,
    pub log: Seq<Seq<char>>,
}

/// The scene that `world` and `log` make.
pub open spec fn scene_of(world: &World, log: &Log) -> Scene {
    Scene { world: world@, order: world.order(), log: log@ }
}

/// Whether the order of `scene` names every entity of its world, once, and
/// no other, as is so in every store.
pub open spec fn arranged(scene: Scene) -> bool {
    &&& scene.order.no_duplicates()
    &&& forall|e: Entity| scene.order.contains(e) <==> scene.world.contains_key(e)
}

/// The entities of `world` that are in the backpack.
pub open spec fn backpack(world: Map<Entity, Record>) -> Set<Entity> {
    Set::new(|e: Entity| world.contains_key(e) && world[e].in_backpack)
}

/// Whether no entity of `world` is on the map and in the backpack at once.
pub open spec fn coherent(world: Map<Entity, Record>) -> bool {
    forall|e: Entity| #[trigger]
        world.contains_key(e) ==> !(world[e].position is Some && world[e].in_backpack)
}

/// The record of the player as a game starts: tagged as the player, with
/// both queues empty, and not yet on the map.
pub open spec fn newcomer() -> Record {
    Record {
        player: true,
        pickups: Some(Seq::empty()),
        crafts: Some(Seq::empty()),
        ..Record::bare()
    }
}

/// Everything a running game holds, one of each: the world of entities, the
/// log, the state of the user interface, and the handle of the player.
pub struct State {
    pub world: World,
    pub log: Log,
    pub ui: UserInterfaceState,
    pub player: Entity,
}

impl State {
    /// The scene of this state.
    pub open spec fn scene(&self) -> Scene {
        scene_of(&self.world, &self.log)
    }

    /// A game at its start: the world holds the player and nothing else, and
    /// the log is empty.
    pub fn new(ui: UserInterfaceState) -> (state: State)
        ensures
            state.world.wf(),
            state.ui == ui,
            state.world@ == Map::<Entity, Record>::empty().insert(state.player, newcomer()),
            state.world.order() == seq![state.player],
            state.log@ == Seq::<Seq<char>>::empty(),
    {
        let mut world = World::new();
        let player = world.create();
        world.insert(player, Component::Player);
        world.insert(player, Component::PickupQueue(PickupQueue::new()));
        world.insert(player, Component::CraftQueue(CraftQueue::new()));
        assert(world@ =~= Map::<Entity, Record>::empty().insert(player, newcomer()));
        assert(world.order() =~= seq![player]);
        State { world, log: Log::new(), ui, player }
    }

    /// One step of the simulation: the systems run once for the player. The
    /// user interface has no part in it: requests are resolved whatever mode
    /// the menu is in.
    pub fn tick(&mut self)
        requires
            old(self).world.wf(),
        ensures
            final(self).world.wf(),
            final(self).world.follows(&old(self).world),
            final(self).ui == old(self).ui,
            final(self).player == old(self).player,
            ticks_to(old(self).scene(), old(self).player, final(self).scene()),
    {
        run_systems(&mut self.world, self.player, &mut self.log);
    }
}

/// Whether one tick for `actor` leads from `before` to `after`: first every
/// pickup request that waits on the actor is resolved, then every craft
/// request, which so finds in the backpack what was just picked up.
pub open spec fn ticks_to(before: Scene, actor: Entity, after: Scene) -> bool {
    let picked = drained(before, actor);
    crafts_all_to(
        Scene { world: cleared(picked.world, actor), ..picked },
        waiting(picked.world, actor),
        after,
    )
}

/// Runs the systems of one tick in their fixed order: the pickup system
/// drains the pickup queue of `actor`, then the craft system drains its
/// craft queue.
pub fn run_systems(world: &mut World, actor: Entity, log: &mut Log)
    requires
        old(world).wf(),
    ensures
        final(world).wf(),
        final(world).follows(old(world)),
        ticks_to(scene_of(old(world), old(log)), actor, scene_of(final(world), final(log))),
{
    let ghost before = *world;
    PickupSystem::run(world, actor, log);
    let ghost between = *world;
    CraftSystem::run(world, actor, log);
    proof {
        crate::pickup::lemma_resolve_all_keeps(
            Scene { world: crate::pickup::emptied(before@, actor), ..scene_of(old(world), old(log)) },
            actor,
            crate::pickup::pending(before@, actor),
        );
        assert forall|e: Entity| #[trigger] before.issued(e) implies world.issued(e) && (
        world@.contains_key(e) ==> before@.contains_key(e)) by {
            assert(between.issued(e));
        }
    }
}

/// A tick with nothing waiting changes nothing: neither the world nor the
/// log.
pub proof fn lemma_idle_tick_changes_nothing(scene: Scene, actor: Entity, after: Scene)
    requires
        crate::pickup::pending(scene.world, actor).len() == 0,
        waiting(scene.world, actor).len() == 0,
        ticks_to(scene, actor, after),
    ensures
        after == scene,
{
    crate::pickup::lemma_empty_drain_changes_nothing(scene, actor);
    crate::craft::lemma_no_requests_craft_nothing(scene, actor, after);
}

} // verus!
