//! The entity-component store: entities are handles, components hang on them
//! by type, and a handle whose entity is gone finds nothing.

use vstd::prelude::*;

use crate::components::{
    recipe_views, Component, CraftQueue, Kind, Name, PickupQueue, Position, Recipe, RecipeView,
    Renderable, Tier,
};

verus! {

/// A handle to one game object: a slot of the store and the generation of
/// the slot that the handle was issued for. It carries no data of its own.
#[derive(Clone, Copy, Debug, PartialEq, Eq, Hash, Structural)]
pub struct Entity {
    index: usize,
    generation: u64,
}

impl Entity {
    /// The slot of the store that this handle points into.
    pub closed spec fn spec_index(&self) -> usize {
        self.index
    }

    /// The generation of the slot that this handle was issued for.
    pub closed spec fn spec_generation(&self) -> u64 {
        self.generation
    }

    /// The slot of the store that this handle points into.
    #[verifier::when_used_as_spec(spec_index)]
    pub fn index(&self) -> (i: usize)
        ensures
            i == self.spec_index(),
    {
        self.index
    }

    /// The generation of the slot that this handle was issued for.
    #[verifier::when_used_as_spec(spec_generation)]
    pub fn generation(&self) -> (g: u64)
        ensures
            g == self.spec_generation(),
    {
        self.generation
    }
}

/// Everything that one entity carries, as plain values. An absent component
/// is `None`; a tag is `true` when present.
pub struct Record {
    pub position: Option<Position>,
    pub renderable: Option<Renderable>,
    pub name: Option<Seq<char>>,
    pub item: bool,
    pub tier: Option<Tier>,
    pub blocks_movement: bool,
    pub player: bool,
    pub in_backpack: bool,
    pub pickups: Option<Seq<Entity>>,
    pub crafts: Option<Seq<RecipeView>>,
}

impl Record {
    /// The record of an entity that carries nothing.
    pub open spec fn bare() -> Record {
        Record {
            position: None,
            renderable: None,
            name: None,
            item: false,
            tier: None,
            blocks_movement: false,
            player: false,
            in_backpack: false,
            pickups: None,
            crafts: None,
        }
    }

    /// Whether a component of this type is present.
    pub open spec fn has(self, kind: Kind) -> bool {
        match kind {
            Kind::Position => self.position is Some,
            Kind::Renderable => self.renderable is Some,
            Kind::Name => self.name is Some,
            Kind::Item => self.item,
            Kind::Tier => self.tier is Some,
            Kind::BlocksMovement => self.blocks_movement,
            Kind::Player => self.player,
            Kind::InBackpack => self.in_backpack,
            Kind::PickupQueue => self.pickups is Some,
            Kind::CraftQueue => self.crafts is Some,
        }
    }

    /// Whether a component of each of these types is present.
    pub open spec fn has_all(self, kinds: Seq<Kind>) -> bool {
        forall|i: int| 0 <= i < kinds.len() ==> self.has(#[trigger] kinds[i])
    }

    /// This record with `component` attached, in place of any component of
    /// the same type.
    pub open spec fn with(self, component: Component) -> Record {
        match component {
            Component::Position(p) => Record { position: Some(p), ..self },
            Component::Renderable(r) => Record { renderable: Some(r), ..self },
            Component::Name(n) => Record { name: Some(n@), ..self },
            Component::Item => Record { item: true, ..self },
            Component::Tier(t) => Record { tier: Some(t), ..self },
            Component::BlocksMovement => Record { blocks_movement: true, ..self },
            Component::Player => Record { player: true, ..self },
            Component::InBackpack => Record { in_backpack: true, ..self },
            Component::PickupQueue(q) => Record { pickups: Some(q@), ..self },
            Component::CraftQueue(q) => Record { crafts: Some(q@), ..self },
        }
    }

    /// This record without its component of the given type.
    pub open spec fn without(self, kind: Kind) -> Record {
        match kind {
            Kind::Position => Record { position: None, ..self },
            Kind::Renderable => Record { renderable: None, ..self },
            Kind::Name => Record { name: None, ..self },
            Kind::Item => Record { item: false, ..self },
            Kind::Tier => Record { tier: None, ..self },
            Kind::BlocksMovement => Record { blocks_movement: false, ..self },
            Kind::Player => Record { player: false, ..self },
            Kind::InBackpack => Record { in_backpack: false, ..self },
            Kind::PickupQueue => Record { pickups: None, ..self },
            Kind::CraftQueue => Record { crafts: None, ..self },
        }
    }
}

/// What `world` holds for `entity`: its record while it lives, and the bare
/// record once it is gone or if it never was.
pub open spec fn lookup(world: Map<Entity, Record>, entity: Entity) -> Record {
    if world.contains_key(entity) {
        world[entity]
    } else {
        Record::bare()
    }
}

/// The test that an entity of `world` carries a component of each of the
/// types `kinds`. An entity that is gone carries nothing.
pub open spec fn carrying(world: Map<Entity, Record>, kinds: Seq<Kind>) -> spec_fn(Entity) -> bool {
    |e: Entity| lookup(world, e).has_all(kinds)
}

/// The place of `entity` in `order`, counted from 0. It means something
/// only where `order` holds `entity`, and is told apart from other places
/// only where `order` holds it once.
pub open spec fn rank(order: Seq<Entity>, entity: Entity) -> int {
    order.index_of(entity)
}

/// The test that an entity is none of `gone`.
pub open spec fn not_among(gone: Set<Entity>) -> spec_fn(Entity) -> bool {
    |e: Entity| !gone.contains(e)
}

/// `order` with the entities of `gone` taken out, the others as they stood.
pub open spec fn without(order: Seq<Entity>, gone: Set<Entity>) -> Seq<Entity> {
    order.filter(not_among(gone))
}

/// A sequence without duplicates, with one more entity at its end that it
/// did not hold, has no duplicates, and holds that entity besides what it
/// held.
pub proof fn lemma_push_fresh(order: Seq<Entity>, entity: Entity)
    requires
        order.no_duplicates(),
        !order.contains(entity),
    ensures
        order.push(entity).no_duplicates(),
        forall|e: Entity| order.push(entity).contains(e) <==> order.contains(e) || e == entity,
{
    let longer = order.push(entity);
    assert forall|e: Entity| longer.contains(e) <==> order.contains(e) || e == entity by {
        if longer.contains(e) {
            let i = choose|i: int| 0 <= i < longer.len() && longer[i] == e;
            if i < order.len() {
                assert(order[i] == e);
            }
        }
        if order.contains(e) {
            let i = choose|i: int| 0 <= i < order.len() && order[i] == e;
            assert(longer[i] == e);
        }
        if e == entity {
            assert(longer[order.len() as int] == e);
        }
    }
    assert forall|i: int, j: int|
        0 <= i < longer.len() && 0 <= j < longer.len() && i != j implies longer[i] != longer[j] by {
        if i < order.len() && j < order.len() {
            assert(order[i] != order[j]);
        } else if i < order.len() {
            assert(order.contains(order[i]));
        } else {
            assert(order.contains(order[j]));
        }
    }
}

/// In a sequence without duplicates every entity stands at its rank.
pub proof fn lemma_rank(order: Seq<Entity>, place: int)
    requires
        order.no_duplicates(),
        0 <= place < order.len(),
    ensures
        rank(order, order[place]) == place,
{
    let found = choose|i: int| 0 <= i < order.len() && order[i] == order[place];
    assert(order[found] == order[place]);
}

/// Filtering a sequence without duplicates keeps exactly the entities that
/// pass the test, each once and in the order in which they stood.
pub proof fn lemma_filter_in_order(order: Seq<Entity>, keep: spec_fn(Entity) -> bool)
    requires
        order.no_duplicates(),
    ensures
        order.filter(keep).no_duplicates(),
        forall|e: Entity| order.filter(keep).contains(e) <==> order.contains(e) && keep(e),
        forall|i: int, j: int|
            0 <= i < j < order.filter(keep).len() ==> rank(order, #[trigger] order.filter(keep)[i])
                < rank(order, #[trigger] order.filter(keep)[j]),
    decreases order.len(),
{
    reveal(Seq::filter);
    if order.len() > 0 {
        let front = order.drop_last();
        let last = order.last();
        let kept = front.filter(keep);
        let all = order.filter(keep);
        lemma_filter_in_order(front, keep);
        assert forall|e: Entity| front.contains(e) implies order.contains(e) && e != last && rank(
            order,
            e,
        ) == rank(front, e) by {
            let i = choose|i: int| 0 <= i < front.len() && front[i] == e;
            assert(order[i] == e);
            lemma_rank(order, i);
            lemma_rank(front, i);
        }
        assert(order[order.len() - 1] == last);
        lemma_rank(order, order.len() - 1);
        assert forall|e: Entity| all.contains(e) <==> order.contains(e) && keep(e) by {
            if all.contains(e) {
                let i = choose|i: int| 0 <= i < all.len() && all[i] == e;
                if i < kept.len() {
                    assert(kept[i] == e);
                    assert(kept.contains(e));
                }
            }
            if order.contains(e) && keep(e) {
                let i = choose|i: int| 0 <= i < order.len() && order[i] == e;
                if i < front.len() {
                    assert(front[i] == e);
                    assert(front.contains(e));
                    assert(kept.contains(e));
                    let j = choose|j: int| 0 <= j < kept.len() && kept[j] == e;
                    assert(all[j] == e);
                } else {
                    assert(all[all.len() - 1] == e);
                }
            }
        }
        assert forall|i: int, j: int| 0 <= i < j < all.len() implies rank(order, #[trigger] all[i])
            < rank(order, #[trigger] all[j]) by {
            assert(kept[i] == all[i]);
            assert(kept.contains(kept[i]));
            assert(front.contains(all[i]));
            let place = choose|k: int| 0 <= k < front.len() && front[k] == all[i];
            lemma_rank(front, place);
            if j < kept.len() {
                assert(kept[j] == all[j]);
                assert(kept.contains(kept[j]));
            }
        }
        assert forall|i: int, j: int| 0 <= i < j < all.len() implies all[i] != all[j] by {
            assert(rank(order, all[i]) < rank(order, all[j]));
        }
    }
}

/// Taking out entities that are not there changes nothing.
pub proof fn lemma_without_strangers(order: Seq<Entity>, gone: Set<Entity>)
    requires
        forall|e: Entity| gone.contains(e) ==> !order.contains(e),
    ensures
        without(order, gone) == order,
    decreases order.len(),
{
    reveal(Seq::filter);
    if order.len() > 0 {
        let front = order.drop_last();
        assert forall|e: Entity| gone.contains(e) implies !front.contains(e) by {
            if front.contains(e) {
                let i = choose|i: int| 0 <= i < front.len() && front[i] == e;
                assert(order[i] == e);
            }
        }
        lemma_without_strangers(front, gone);
        assert(order[order.len() - 1] == order.last());
        assert(front.push(order.last()) =~= order);
    }
}

/// Taking out the one entity at `place` removes that place and no other.
pub proof fn lemma_without_one(order: Seq<Entity>, place: int)
    requires
        order.no_duplicates(),
        0 <= place < order.len(),
    ensures
        without(order, set![order[place]]) == order.remove(place),
    decreases order.len(),
{
    reveal(Seq::filter);
    let front = order.drop_last();
    let gone = set![order[place]];
    if place == order.len() - 1 {
        assert forall|e: Entity| gone.contains(e) implies !front.contains(e) by {
            if front.contains(e) {
                let i = choose|i: int| 0 <= i < front.len() && front[i] == e;
                assert(order[i] == order[place]);
            }
        }
        lemma_without_strangers(front, gone);
        assert(order.remove(place) =~= front);
    } else {
        assert(front[place] == order[place]);
        lemma_without_one(front, place);
        assert(order.last() == order[order.len() - 1]);
        assert(front.remove(place).push(order.last()) =~= order.remove(place));
    }
}

/// Taking out some entities and then others is taking out all of them.
pub proof fn lemma_without_twice(order: Seq<Entity>, first: Set<Entity>, second: Set<Entity>)
    ensures
        without(without(order, first), second) == without(order, first.union(second)),
    decreases order.len(),
{
    reveal(Seq::filter);
    if order.len() > 0 {
        let front = order.drop_last();
        lemma_without_twice(front, first, second);
        if !first.contains(order.last()) {
            without(front, first).lemma_filter_push(order.last(), not_among(second));
        }
    }
}

struct Slot {
    generation: u64,
    live: bool,
    position: Option<Position>,
    renderable: Option<Renderable>,
    name: Option<Name>,
    item: bool,
    tier: Option<Tier>,
    blocks_movement: bool,
    player: bool,
    in_backpack: bool,
    pickups: Option<PickupQueue>,
    crafts: Option<CraftQueue>,
}

impl Slot {
    spec fn record(&self) -> Record {
        Record {
            position: self.position,
            renderable: self.renderable,
            name: match self.name {
                Some(n) => Some(n@),
                None => None,
            },
            item: self.item,
            tier: self.tier,
            blocks_movement: self.blocks_movement,
            player: self.player,
            in_backpack: self.in_backpack,
            pickups: match self.pickups {
                Some(q) => Some(q@),
                None => None,
            },
            crafts: match self.crafts {
                Some(q) => Some(q@),
                None => None,
            },
        }
    }

    fn empty(generation: u64, live: bool) -> (s: Slot)
        ensures
            s.live == live,
            s.generation == generation,
            s.record() == Record::bare(),
    {
        Slot {
            generation,
            live,
            position: None,
            renderable: None,
            name: None,
            item: false,
            tier: None,
            blocks_movement: false,
            player: false,
            in_backpack: false,
            pickups: None,
            crafts: None,
        }
    }
}

/// The store of all entities and their components. It knows nothing of the
/// rules of the game.
///
/// Its view maps each living entity to its record, and `order` lists the
/// living entities as they were created. A slot is used again after its
/// entity is deleted, under the next generation, so a handle to the deleted
/// entity never matches the newer one.
pub struct World {
    slots: Vec<Slot>,
    free: Vec<usize>,
    roster: Vec<Entity>,
}

impl View for World {
    type V = Map<Entity, Record>;

    closed spec fn view(&self) -> Map<Entity, Record> {
        Map::new(|e: Entity| self.holds(e), |e: Entity| self.slots[e.index as int].record())
    }
}

impl World {
    spec fn holds(&self, e: Entity) -> bool {
        &&& e.index < self.slots.len()
        &&& self.slots[e.index as int].live
        &&& self.slots[e.index as int].generation == e.generation
    }

    /// The generation of the newest handle issued for the slot `index`, if
    /// the slot was ever used.
    pub closed spec fn latest(&self, index: usize) -> Option<u64> {
        if index < self.slots.len() {
            Some(self.slots[index as int].generation)
        } else {
            None
        }
    }

    /// Whether `entity` is, or once was, an entity of this store: its slot
    /// has been used, for its generation or a later one.
    pub open spec fn issued(&self, entity: Entity) -> bool {
        self.latest(entity.index()) matches Some(newest) && entity.generation() <= newest
    }

    /// The living entities, each once, the one created first in front.
    pub closed spec fn order(&self) -> Seq<Entity> {
        self.roster@
    }

    /// The invariant of the store.
    pub closed spec fn wf(&self) -> bool {
        &&& self.roster@.no_duplicates()
        &&& forall|e: Entity| self.roster@.contains(e) <==> self.holds(e)
        &&& forall|i: int|
            0 <= i < self.slots.len() && !(#[trigger] self.slots[i]).live ==> self.slots[i].record()
                == Record::bare()
        &&& forall|k: int|
            0 <= k < self.free.len() ==> {
                &&& (#[trigger] self.free[k]) < self.slots.len()
                &&& !self.slots[self.free[k] as int].live
                &&& self.slots[self.free[k] as int].generation < u64::MAX
            }
        &&& forall|k: int, l: int|
            0 <= k < l < self.free.len() ==> #[trigger] self.free[k] != #[trigger] self.free[l]
    }

    /// Whether this store can be a later state of `earlier`: every handle
    /// issued by then is still known, and none of them lives now unless it
    /// lived then. So a handle to an entity that is gone never comes to refer
    /// to another entity.
    pub open spec fn follows(&self, earlier: &World) -> bool {
        forall|e: Entity| #[trigger]
            earlier.issued(e) ==> self.issued(e) && (self@.contains_key(e) ==> earlier@.contains_key(
                e,
            ))
    }

    spec fn same_living(&self, earlier: &World) -> bool {
        &&& self.roster@ == earlier.roster@
        &&& self.slots.len() == earlier.slots.len()
        &&& forall|i: int|
            0 <= i < self.slots.len() ==> (#[trigger] self.slots[i]).live == earlier.slots[i].live
                && self.slots[i].generation == earlier.slots[i].generation
    }

    proof fn lemma_roster_kept(&self, earlier: &World)
        requires
            earlier.wf(),
            self.same_living(earlier),
        ensures
            self.roster@.no_duplicates(),
            forall|e: Entity| self.roster@.contains(e) <==> self.holds(e),
    {
        assert forall|e: Entity| self.roster@.contains(e) <==> self.holds(e) by {
            assert(earlier.holds(e) == self.holds(e));
        }
    }

    /// The order of creation names every living entity, once, and no other.
    pub proof fn lemma_order(&self)
        requires
            self.wf(),
        ensures
            self.order().no_duplicates(),
            forall|e: Entity| self.order().contains(e) <==> self@.contains_key(e),
    {
    }

    /// A living entity is the newest of its slot, and so has been issued.
    pub proof fn lemma_living_is_latest(&self, entity: Entity)
        ensures
            self@.contains_key(entity) ==> self.latest(entity.index()) == Some(entity.generation()),
            self@.contains_key(entity) ==> self.issued(entity),
    {
    }

    /// The store holds finitely many entities.
    pub proof fn lemma_finite(&self)
        ensures
            self@.dom().finite(),
    {
        let slots = self.slots;
        let indices = Set::new(|i: int| 0 <= i < slots.len());
        vstd::set_lib::lemma_int_range(0, slots.len() as int);
        assert(indices =~= vstd::set_lib::set_int_range(0, slots.len() as int));
        let living = indices.filter(|i: int| slots[i].live);
        let handles = living.map(
            |i: int| Entity { index: i as usize, generation: slots[i].generation },
        );
        living.lemma_map_finite(
            |i: int| Entity { index: i as usize, generation: slots[i].generation },
        );
        assert(self@.dom() =~= handles) by {
            assert forall|e: Entity| self@.dom().contains(e) implies handles.contains(e) by {
                assert(living.contains(e.index as int));
            }
        }
    }

    /// An empty store.
    pub fn new() -> (world: World)
        ensures
            world.wf(),
            world@ == Map::<Entity, Record>::empty(),
            world.order() == Seq::<Entity>::empty(),
            forall|index: usize| world.latest(index) is None,
    {
        let world = World { slots: Vec::new(), free: Vec::new(), roster: Vec::new() };
        assert(world@ =~= Map::<Entity, Record>::empty());
        world
    }

    /// Whether `entity` still exists.
    pub fn is_alive(&self, entity: Entity) -> (alive: bool)
        ensures
            alive == self@.contains_key(entity),
    {
        entity.index < self.slots.len() && self.slots[entity.index].live
            && self.slots[entity.index].generation == entity.generation
    }

    /// Puts `entity`, which is not yet in the roster, at its end.
    fn enrol(&mut self, entity: Entity)
        requires
            !old(self).roster@.contains(entity),
            old(self).roster@.no_duplicates(),
        ensures
            final(self).slots == old(self).slots,
            final(self).free == old(self).free,
            final(self).roster@ == old(self).roster@.push(entity),
            final(self).roster@.no_duplicates(),
            forall|e: Entity|
                final(self).roster@.contains(e) <==> old(self).roster@.contains(e) || e == entity,
    {
        proof {
            lemma_push_fresh(self.roster@, entity);
        }
        self.roster.push(entity);
    }

    /// Makes a new entity that carries nothing, the last in the order of
    /// creation. It takes a slot that is free: one never used, under
    /// generation 0, or one whose entity is gone, under the generation after
    /// the last. So its handle was never issued before, and no handle that is
    /// already around refers to it.
    pub fn create(&mut self) -> (entity: Entity)
        requires
            old(self).wf(),
        ensures
            final(self).wf(),
            !old(self).issued(entity),
            entity.generation() == match old(self).latest(entity.index()) {
                Some(last) => last + 1,
                None => 0,
            },
            final(self)@ == old(self)@.insert(entity, Record::bare()),
            final(self).order() == old(self).order().push(entity),
            final(self).latest(entity.index()) == Some(entity.generation()),
            forall|index: usize|
                index != entity.index() ==> final(self).latest(index) == old(self).latest(index),
    {
        if self.free.len() > 0 {
            let index = self.free.pop().unwrap();
            let generation = self.slots[index].generation + 1;
            self.slots[index].generation = generation;
            self.slots[index].live = true;
            let entity = Entity { index, generation };
            assert(!old(self).holds(entity));
            self.enrol(entity);
            assert forall|e: Entity| self.roster@.contains(e) <==> self.holds(e) by {
                assert(old(self).roster@.contains(e) <==> old(self).holds(e));
            }
            assert(self@ =~= old(self)@.insert(entity, Record::bare()));
            entity
        } else {
            let index = self.slots.len();
            self.slots.push(Slot::empty(0, true));
            let entity = Entity { index, generation: 0 };
            assert(!old(self).holds(entity));
            self.enrol(entity);
            assert forall|e: Entity| self.roster@.contains(e) <==> self.holds(e) by {
                assert(old(self).roster@.contains(e) <==> old(self).holds(e));
            }
            assert(self@ =~= old(self)@.insert(entity, Record::bare()));
            entity
        }
    }

    /// Destroys `entity` with all its components, and takes it out of the
    /// order of creation. Returns whether it existed.
    pub fn delete(&mut self, entity: Entity) -> (deleted: bool)
        requires
            old(self).wf(),
        ensures
            final(self).wf(),
            deleted == old(self)@.contains_key(entity),
            final(self)@ == old(self)@.remove(entity),
            final(self).order() == without(old(self).order(), set![entity]),
            forall|index: usize| final(self).latest(index) == old(self).latest(index),
    {
        if !self.is_alive(entity) {
            assert(self@ =~= old(self)@.remove(entity));
            proof {
                lemma_without_strangers(self.roster@, set![entity]);
            }
            return false;
        }
        let mut place: usize = 0;
        while self.roster[place] != entity
            invariant
                place < self.roster.len(),
                self.roster@.contains(entity),
                forall|i: int| 0 <= i < place ==> self.roster@[i] != entity,
            decreases self.roster.len() - place,
        {
            place += 1;
            assert(place < self.roster.len()) by {
                let i = choose|i: int| 0 <= i < self.roster@.len() && self.roster@[i] == entity;
                assert(i >= place);
            }
        }
        let ghost before = self.roster@;
        self.roster.remove(place);
        self.slots[entity.index] = Slot::empty(entity.generation, false);
        if entity.generation < u64::MAX {
            self.free.push(entity.index);
        }
        proof {
            lemma_without_one(before, place as int);
            lemma_filter_in_order(before, not_among(set![entity]));
            assert forall|e: Entity| self.roster@.contains(e) <==> self.holds(e) by {
                assert(old(self).holds(e) <==> before.contains(e));
            }
        }
        assert(self@ =~= old(self)@.remove(entity));
        true
    }

    /// Attaches `component` to `entity`, in place of any component of the
    /// same type. Returns whether the entity exists; if not, nothing changes.
    pub fn insert(&mut self, entity: Entity, component: Component) -> (stored: bool)
        requires
            old(self).wf(),
        ensures
            final(self).wf(),
            stored == old(self)@.contains_key(entity),
            stored ==> final(self)@ == old(self)@.insert(
                entity,
                old(self)@[entity].with(component),
            ),
            !stored ==> final(self)@ == old(self)@,
            final(self).order() == old(self).order(),
            forall|index: usize| final(self).latest(index) == old(self).latest(index),
    {
        if !self.is_alive(entity) {
            return false;
        }
        let ghost attached = component;
        let index = entity.index;
        match component {
            Component::Position(p) => {
                self.slots[index].position = Some(p);
            },
            Component::Renderable(r) => {
                self.slots[index].renderable = Some(r);
            },
            Component::Name(n) => {
                self.slots[index].name = Some(n);
            },
            Component::Item => {
                self.slots[index].item = true;
            },
            Component::Tier(t) => {
                self.slots[index].tier = Some(t);
            },
            Component::BlocksMovement => {
                self.slots[index].blocks_movement = true;
            },
            Component::Player => {
                self.slots[index].player = true;
            },
            Component::InBackpack => {
                self.slots[index].in_backpack = true;
            },
            Component::PickupQueue(q) => {
                self.slots[index].pickups = Some(q);
            },
            Component::CraftQueue(q) => {
                self.slots[index].crafts = Some(q);
            },
        }
        proof {
            self.lemma_roster_kept(old(self));
        }
        assert(self@ =~= old(self)@.insert(entity, old(self)@[entity].with(attached)));
        true
    }

    /// Detaches the component of type `kind` from `entity`. Returns whether
    /// there was one; if not, nothing changes.
    pub fn remove(&mut self, entity: Entity, kind: Kind) -> (removed: bool)
        requires
            old(self).wf(),
        ensures
            final(self).wf(),
            removed == lookup(old(self)@, entity).has(kind),
            removed ==> final(self)@ == old(self)@.insert(entity, old(self)@[entity].without(kind)),
            !removed ==> final(self)@ == old(self)@,
            final(self).order() == old(self).order(),
            forall|index: usize| final(self).latest(index) == old(self).latest(index),
    {
        if !self.has(entity, kind) {
            return false;
        }
        let index = entity.index;
        match kind {
            Kind::Position => {
                self.slots[index].position = None;
            },
            Kind::Renderable => {
                self.slots[index].renderable = None;
            },
            Kind::Name => {
                self.slots[index].name = None;
            },
            Kind::Item => {
                self.slots[index].item = false;
            },
            Kind::Tier => {
                self.slots[index].tier = None;
            },
            Kind::BlocksMovement => {
                self.slots[index].blocks_movement = false;
            },
            Kind::Player => {
                self.slots[index].player = false;
            },
            Kind::InBackpack => {
                self.slots[index].in_backpack = false;
            },
            Kind::PickupQueue => {
                self.slots[index].pickups = None;
            },
            Kind::CraftQueue => {
                self.slots[index].crafts = None;
            },
        }
        proof {
            self.lemma_roster_kept(old(self));
        }
        assert(self@ =~= old(self)@.insert(entity, old(self)@[entity].without(kind)));
        true
    }

    /// Whether `entity` exists and carries a component of type `kind`.
    pub fn has(&self, entity: Entity, kind: Kind) -> (present: bool)
        ensures
            present == lookup(self@, entity).has(kind),
    {
        if !self.is_alive(entity) {
            return false;
        }
        let slot = &self.slots[entity.index];
        match kind {
            Kind::Position => slot.position.is_some(),
            Kind::Renderable => slot.renderable.is_some(),
            Kind::Name => slot.name.is_some(),
            Kind::Item => slot.item,
            Kind::Tier => slot.tier.is_some(),
            Kind::BlocksMovement => slot.blocks_movement,
            Kind::Player => slot.player,
            Kind::InBackpack => slot.in_backpack,
            Kind::PickupQueue => slot.pickups.is_some(),
            Kind::CraftQueue => slot.crafts.is_some(),
        }
    }

    /// Where `entity` stands, if it exists and stands on the map.
    pub fn position(&self, entity: Entity) -> (found: Option<Position>)
        ensures
            found == lookup(self@, entity).position,
    {
        if !self.is_alive(entity) {
            return None;
        }
        self.slots[entity.index].position
    }

    /// How `entity` is drawn, if it exists and is drawn.
    pub fn renderable(&self, entity: Entity) -> (found: Option<Renderable>)
        ensures
            found == lookup(self@, entity).renderable,
    {
        if !self.is_alive(entity) {
            return None;
        }
        self.slots[entity.index].renderable
    }

    /// The tier of `entity`, if it exists and has one.
    pub fn tier(&self, entity: Entity) -> (found: Option<Tier>)
        ensures
            found == lookup(self@, entity).tier,
    {
        if !self.is_alive(entity) {
            return None;
        }
        self.slots[entity.index].tier
    }

    /// The name of `entity`, if it exists and has one.
    pub fn name(&self, entity: Entity) -> (found: Option<&Name>)
        ensures
            match found {
                Some(n) => lookup(self@, entity).name == Some(n@),
                None => lookup(self@, entity).name is None,
            },
    {
        if !self.is_alive(entity) {
            return None;
        }
        self.slots[entity.index].name.as_ref()
    }

    /// The pickup requests that wait on `entity`, if it exists and has a
    /// pickup queue.
    pub fn pickup_queue(&self, entity: Entity) -> (found: Option<&PickupQueue>)
        ensures
            match found {
                Some(q) => lookup(self@, entity).pickups == Some(q@),
                None => lookup(self@, entity).pickups is None,
            },
    {
        if !self.is_alive(entity) {
            return None;
        }
        self.slots[entity.index].pickups.as_ref()
    }

    /// The craft requests that wait on `entity`, if it exists and has a
    /// craft queue.
    pub fn craft_queue(&self, entity: Entity) -> (found: Option<&CraftQueue>)
        ensures
            match found {
                Some(q) => lookup(self@, entity).crafts == Some(q@),
                None => lookup(self@, entity).crafts is None,
            },
    {
        if !self.is_alive(entity) {
            return None;
        }
        self.slots[entity.index].crafts.as_ref()
    }

    /// Appends a request to pick `target` up to the pickup queue of `actor`.
    /// Returns whether the actor exists and has such a queue; if not, nothing
    /// changes.
    pub fn push_pickup(&mut self, actor: Entity, target: Entity) -> (queued: bool)
        requires
            old(self).wf(),
        ensures
            final(self).wf(),
            queued == lookup(old(self)@, actor).pickups is Some,
            queued ==> final(self)@ == old(self)@.insert(
                actor,
                Record { pickups: Some(old(self)@[actor].pickups->0.push(target)), ..old(self)@[actor] },
            ),
            !queued ==> final(self)@ == old(self)@,
            final(self).order() == old(self).order(),
            forall|index: usize| final(self).latest(index) == old(self).latest(index),
    {
        if !self.has(actor, Kind::PickupQueue) {
            return false;
        }
        let index = actor.index;
        let mut queue: Option<PickupQueue> = None;
        std::mem::swap(&mut self.slots[index].pickups, &mut queue);
        let mut queue = queue.unwrap();
        queue.queue.push(target);
        self.slots[index].pickups = Some(queue);
        proof {
            self.lemma_roster_kept(old(self));
        }
        assert(self@ =~= old(self)@.insert(
            actor,
            Record { pickups: Some(old(self)@[actor].pickups->0.push(target)), ..old(self)@[actor] },
        ));
        true
    }

    /// Takes every request out of the pickup queue of `actor`, oldest first,
    /// and leaves the queue empty. Without such a queue nothing is taken and
    /// nothing changes.
    pub fn take_pickups(&mut self, actor: Entity) -> (taken: Vec<Entity>)
        requires
            old(self).wf(),
        ensures
            final(self).wf(),
            taken@ == match lookup(old(self)@, actor).pickups {
                Some(q) => q,
                None => Seq::<Entity>::empty(),
            },
            final(self)@ == match lookup(old(self)@, actor).pickups {
                Some(q) => old(self)@.insert(
                    actor,
                    Record { pickups: Some(Seq::<Entity>::empty()), ..old(self)@[actor] },
                ),
                None => old(self)@,
            },
            final(self).order() == old(self).order(),
            forall|index: usize| final(self).latest(index) == old(self).latest(index),
    {
        if !self.has(actor, Kind::PickupQueue) {
            return Vec::new();
        }
        let index = actor.index;
        let mut queue: Option<PickupQueue> = Some(PickupQueue::new());
        std::mem::swap(&mut self.slots[index].pickups, &mut queue);
        proof {
            self.lemma_roster_kept(old(self));
        }
        assert(self@ =~= old(self)@.insert(
            actor,
            Record { pickups: Some(Seq::<Entity>::empty()), ..old(self)@[actor] },
        ));
        queue.unwrap().queue
    }

    /// Appends a craft request to the craft queue of `actor`. Returns whether
    /// the actor exists and has such a queue; if not, nothing changes.
    pub fn push_craft(&mut self, actor: Entity, recipe: Recipe) -> (queued: bool)
        requires
            old(self).wf(),
        ensures
            final(self).wf(),
            queued == lookup(old(self)@, actor).crafts is Some,
            queued ==> final(self)@ == old(self)@.insert(
                actor,
                Record { crafts: Some(old(self)@[actor].crafts->0.push(recipe@)), ..old(self)@[actor] },
            ),
            !queued ==> final(self)@ == old(self)@,
            final(self).order() == old(self).order(),
            forall|index: usize| final(self).latest(index) == old(self).latest(index),
    {
        if !self.has(actor, Kind::CraftQueue) {
            return false;
        }
        let ghost asked = recipe@;
        let index = actor.index;
        let mut queue: Option<CraftQueue> = None;
        std::mem::swap(&mut self.slots[index].crafts, &mut queue);
        let mut queue = queue.unwrap();
        let ghost before = queue@;
        queue.queue.push(recipe);
        assert(queue@ =~= before.push(asked));
        self.slots[index].crafts = Some(queue);
        proof {
            self.lemma_roster_kept(old(self));
        }
        assert(self@ =~= old(self)@.insert(
            actor,
            Record { crafts: Some(old(self)@[actor].crafts->0.push(asked)), ..old(self)@[actor] },
        ));
        true
    }

    /// Takes every request out of the craft queue of `actor`, oldest first,
    /// and leaves the queue empty. Without such a queue nothing is taken and
    /// nothing changes.
    pub fn take_crafts(&mut self, actor: Entity) -> (taken: Vec<Recipe>)
        requires
            old(self).wf(),
        ensures
            final(self).wf(),
            recipe_views(taken@) == match lookup(old(self)@, actor).crafts {
                Some(q) => q,
                None => Seq::<RecipeView>::empty(),
            },
            final(self)@ == match lookup(old(self)@, actor).crafts {
                Some(q) => old(self)@.insert(
                    actor,
                    Record { crafts: Some(Seq::<RecipeView>::empty()), ..old(self)@[actor] },
                ),
                None => old(self)@,
            },
            final(self).order() == old(self).order(),
            forall|index: usize| final(self).latest(index) == old(self).latest(index),
    {
        if !self.has(actor, Kind::CraftQueue) {
            let taken: Vec<Recipe> = Vec::new();
            assert(recipe_views(taken@) =~= Seq::<RecipeView>::empty());
            return taken;
        }
        let index = actor.index;
        let mut queue: Option<CraftQueue> = Some(CraftQueue::new());
        std::mem::swap(&mut self.slots[index].crafts, &mut queue);
        proof {
            self.lemma_roster_kept(old(self));
        }
        assert(self@ =~= old(self)@.insert(
            actor,
            Record { crafts: Some(Seq::<RecipeView>::empty()), ..old(self)@[actor] },
        ));
        queue.unwrap().queue
    }

    /// The living entities, each once, in the order in which they were
    /// created.
    pub fn entities(&self) -> (all: Vec<Entity>)
        ensures
            all@ == self.order(),
    {
        let mut all: Vec<Entity> = Vec::new();
        let mut next: usize = 0;
        while next < self.roster.len()
            invariant
                next <= self.roster.len(),
                all@ == self.roster@.take(next as int),
            decreases self.roster.len() - next,
        {
            all.push(self.roster[next]);
            assert(self.roster@.take(next + 1) =~= self.roster@.take(next as int).push(
                self.roster@[next as int],
            ));
            next += 1;
        }
        assert(self.roster@.take(next as int) =~= self.roster@);
        all
    }

    /// The living entities that carry a component of each of the types
    /// `kinds`, each once, in the order in which they were created.
    pub fn entities_with(&self, kinds: &Vec<Kind>) -> (found: Vec<Entity>)
        ensures
            found@ == self.order().filter(carrying(self@, kinds@)),
    {
        let mut found: Vec<Entity> = Vec::new();
        let mut next: usize = 0;
        proof {
            reveal(Seq::filter);
        }
        while next < self.roster.len()
            invariant
                next <= self.roster.len(),
                found@ == self.roster@.take(next as int).filter(carrying(self@, kinds@)),
            decreases self.roster.len() - next,
        {
            let entity = self.roster[next];
            let mut fits = true;
            let mut checked: usize = 0;
            while checked < kinds.len()
                invariant
                    checked <= kinds.len(),
                    fits <==> forall|i: int|
                        0 <= i < checked ==> lookup(self@, entity).has(#[trigger] kinds[i]),
                decreases kinds.len() - checked,
            {
                if !self.has(entity, kinds[checked]) {
                    fits = false;
                }
                checked += 1;
            }
            if fits {
                found.push(entity);
            }
            proof {
                assert(self.roster@.take(next + 1) =~= self.roster@.take(next as int).push(entity));
                self.roster@.take(next as int).lemma_filter_push(
                    entity,
                    carrying(self@, kinds@),
                );
            }
            next += 1;
        }
        assert(self.roster@.take(next as int) =~= self.roster@);
        found
    }
}

} // verus!
