//! Crafting: requests wait in the craft queue of an actor. Each names a
//! recipe, and is resolved against the backpack as it is when its turn comes.

use vstd::prelude::*;
use vstd::string::StringExecFns;

use crate::components::{Component, Kind, Name, Recipe, RecipeView, Tier};
use crate::logs::Log;
use crate::state::{arranged, backpack, coherent, scene_of, Scene};
use crate::world::{
    carrying, lemma_filter_in_order, lemma_push_fresh, lemma_without_twice, lookup, rank, without,
    Entity, Record, World,
};

verus! {

/// Whether `entity` can serve as a material of tier `tier`: it exists, is in
/// the backpack, and has that tier.
pub open spec fn usable(world: Map<Entity, Record>, entity: Entity, tier: Tier) -> bool {
    &&& world.contains_key(entity)
    &&& world[entity].in_backpack
    &&& world[entity].tier == Some(tier)
}

/// The backpack items of tier `tier`.
pub open spec fn stock_of(world: Map<Entity, Record>, tier: Tier) -> Set<Entity> {
    Set::new(|e: Entity| usable(world, e, tier))
}

/// How many backpack items of tier `tier` there are.
pub open spec fn stock(world: Map<Entity, Record>, tier: Tier) -> nat {
    stock_of(world, tier).len()
}

/// How many items of tier `tier` the materials ask for.
pub open spec fn demand(materials: Seq<Tier>, tier: Tier) -> nat {
    materials.to_multiset().count(tier)
}

/// Whether the backpack holds the materials: of every tier at least as many
/// items as are asked for.
pub open spec fn enough(world: Map<Entity, Record>, materials: Seq<Tier>) -> bool {
    forall|tier: Tier| #[trigger] demand(materials, tier) <= stock(world, tier)
}

/// Whether `used` supplies `materials`: one backpack item of the right tier
/// for each material, and no item twice.
pub open spec fn fits(world: Map<Entity, Record>, materials: Seq<Tier>, used: Seq<Entity>) -> bool {
    &&& used.len() == materials.len()
    &&& forall|i: int| 0 <= i < used.len() ==> usable(world, #[trigger] used[i], materials[i])
    &&& used.no_duplicates()
}

/// Whether `used` is the supply that crafting takes: for each material in
/// turn, of the fitting items not yet taken the one that was created first,
/// which is the one that stands first in `order`.
pub open spec fn first_fit(
    world: Map<Entity, Record>,
    order: Seq<Entity>,
    materials: Seq<Tier>,
    used: Seq<Entity>,
) -> bool {
    &&& fits(world, materials, used)
    &&& forall|i: int, e: Entity|
        0 <= i < used.len() && #[trigger] usable(world, e, materials[i]) && !used.take(i).contains(e)
            ==> rank(order, used[i]) <= rank(order, e)
}

/// The record of a newly crafted item: a named item of the recipe's tier,
/// in the backpack and not on the map.
pub open spec fn product_record(recipe: RecipeView) -> Record {
    Record {
        name: Some(recipe.product),
        item: true,
        tier: Some(recipe.tier),
        in_backpack: true,
        ..Record::bare()
    }
}

/// `world` once the items `used` are destroyed and `product` is made.
pub open spec fn crafted(
    world: Map<Entity, Record>,
    used: Seq<Entity>,
    product: Entity,
    recipe: RecipeView,
) -> Map<Entity, Record> {
    world.remove_keys(used.to_set()).insert(product, product_record(recipe))
}

/// The log entry for a craft that succeeded.
pub open spec fn craft_entry(recipe: RecipeView) -> Seq<char> {
    "crafted "@ + recipe.product
}

/// The log entry for a craft that failed for want of materials.
pub open spec fn shortage_entry() -> Seq<char> {
    "not enough materials"@
}

/// Whether `after` is `before` with `recipe` crafted from the items `used`
/// into the new entity `product`, which is then the last one created.
pub open spec fn made_with(
    before: Scene,
    recipe: RecipeView,
    used: Seq<Entity>,
    product: Entity,
    after: Scene,
) -> bool {
    &&& first_fit(before.world, before.order, recipe.materials, used)
    &&& !before.world.contains_key(product)
    &&& after.world == crafted(before.world, used, product, recipe)
    &&& after.order == without(before.order, used.to_set()).push(product)
    &&& after.log == before.log.push(craft_entry(recipe))
}

/// Whether `after` is `before` with `recipe` crafted into the new entity
/// `product`, from the items that `first_fit` names.
pub open spec fn makes(before: Scene, recipe: RecipeView, product: Entity, after: Scene) -> bool {
    exists|used: Seq<Entity>| #[trigger] made_with(before, recipe, used, product, after)
}

/// Whether one craft request for `recipe` leads from `before` to `after`.
/// With enough materials the items that `first_fit` names are destroyed, one
/// new item is made, and the success is logged. Otherwise only the log
/// changes: it tells of the shortage.
pub open spec fn crafts_to(before: Scene, recipe: RecipeView, after: Scene) -> bool {
    if enough(before.world, recipe.materials) {
        exists|product: Entity| #[trigger] makes(before, recipe, product, after)
    } else {
        after == (Scene { log: before.log.push(shortage_entry()), ..before })
    }
}

/// Of the backpack items of tier `tier`, those among `used`.
pub open spec fn spent(world: Map<Entity, Record>, used: Seq<Entity>, tier: Tier) -> Set<Entity> {
    Set::new(|e: Entity| usable(world, e, tier) && used.contains(e))
}

/// A supply that fits takes of each tier exactly as many items as the
/// materials ask for.
pub proof fn lemma_spent_is_demand(
    world: Map<Entity, Record>,
    materials: Seq<Tier>,
    used: Seq<Entity>,
    tier: Tier,
)
    requires
        fits(world, materials, used),
    ensures
        spent(world, used, tier).finite(),
        spent(world, used, tier).len() == demand(materials, tier),
    decreases used.len(),
{
    broadcast use vstd::multiset::group_multiset_axioms;

    if used.len() == 0 {
        assert(spent(world, used, tier) =~= Set::<Entity>::empty());
        assert(materials =~= Seq::<Tier>::empty());
        materials.to_multiset_ensures();
        assert(!materials.contains(tier));
    } else {
        let fewer = used.drop_last();
        let asked = materials.drop_last();
        assert(fits(world, asked, fewer)) by {
            assert forall|i: int| 0 <= i < fewer.len() implies usable(
                world,
                #[trigger] fewer[i],
                asked[i],
            ) by {
                assert(fewer[i] == used[i]);
            }
        }
        lemma_spent_is_demand(world, asked, fewer, tier);
        assert(materials =~= asked.push(materials.last()));
        vstd::seq_lib::to_multiset_build(asked, materials.last());
        let last = used.last();
        assert(usable(world, last, materials.last())) by {
            assert(last == used[used.len() - 1]);
        }
        assert(!fewer.contains(last)) by {
            if fewer.contains(last) {
                let k = choose|k: int| 0 <= k < fewer.len() && fewer[k] == last;
                assert(used[k] == used[used.len() - 1]);
            }
        }
        assert forall|e: Entity| used.contains(e) <==> fewer.contains(e) || e == last by {
            if used.contains(e) {
                let k = choose|k: int| 0 <= k < used.len() && used[k] == e;
                if k < fewer.len() {
                    assert(fewer[k] == e);
                }
            }
            if fewer.contains(e) {
                let k = choose|k: int| 0 <= k < fewer.len() && fewer[k] == e;
                assert(used[k] == e);
            }
            if e == last {
                assert(used[used.len() - 1] == e);
            }
        }
        if materials.last() == tier {
            assert(spent(world, used, tier) =~= spent(world, fewer, tier).insert(last));
        } else {
            assert(spent(world, used, tier) =~= spent(world, fewer, tier));
        }
    }
}

/// The materials up to any point ask for no more of a tier than all of them.
pub proof fn lemma_demand_grows(materials: Seq<Tier>, count: int, tier: Tier)
    requires
        0 <= count <= materials.len(),
    ensures
        demand(materials.take(count), tier) <= demand(materials, tier),
        count < materials.len() ==> demand(materials.take(count + 1), tier) == demand(
            materials.take(count),
            tier,
        ) + if materials[count] == tier {
            1int
        } else {
            0int
        },
{
    broadcast use vstd::multiset::group_multiset_axioms;

    assert(materials =~= materials.take(count) + materials.skip(count));
    vstd::seq_lib::lemma_multiset_commutative(materials.take(count), materials.skip(count));
    if count < materials.len() {
        assert(materials.take(count + 1) =~= materials.take(count).push(materials[count]));
        vstd::seq_lib::to_multiset_build(materials.take(count), materials[count]);
    }
}

/// Whether `pool` names `entity`.
pub open spec fn lists(pool: Seq<(Entity, Tier)>, entity: Entity) -> bool {
    exists|j: int| 0 <= j < pool.len() && (#[trigger] pool[j]).0 == entity
}

/// Whether `pool` is the stockpile of `world`: the backpack items that have a
/// tier, each with its tier, in the order in which they were created, which
/// is how they stand in `order`.
pub open spec fn is_stockpile(
    world: Map<Entity, Record>,
    order: Seq<Entity>,
    pool: Seq<(Entity, Tier)>,
) -> bool {
    &&& forall|j: int| 0 <= j < pool.len() ==> usable(world, (#[trigger] pool[j]).0, pool[j].1)
    &&& forall|j: int, k: int|
        0 <= j < k < pool.len() ==> rank(order, (#[trigger] pool[j]).0) < rank(
            order,
            (#[trigger] pool[k]).0,
        )
    &&& forall|e: Entity, tier: Tier| #[trigger] usable(world, e, tier) ==> lists(pool, e)
}

/// The backpack items that have a tier, each with its tier, in the order in
/// which they were created.
pub fn stockpile(world: &World) -> (pool: Vec<(Entity, Tier)>)
    requires
        world.wf(),
    ensures
        is_stockpile(world@, world.order(), pool@),
{
    let mut kinds: Vec<Kind> = Vec::new();
    kinds.push(Kind::InBackpack);
    kinds.push(Kind::Tier);
    assert(kinds@ =~= seq![Kind::InBackpack, Kind::Tier]);
    let items = world.entities_with(&kinds);
    proof {
        world.lemma_order();
        lemma_filter_in_order(world.order(), carrying(world@, kinds@));
        assert forall|e: Entity|
            items@.contains(e) <==> world@.contains_key(e) && world@[e].has_all(kinds@) by {
            assert(items@.contains(e) <==> world.order().contains(e) && carrying(
                world@,
                kinds@,
            )(e));
            assert(world.order().contains(e) <==> world@.contains_key(e));
        }
    }
    let mut pool: Vec<(Entity, Tier)> = Vec::new();
    let mut seen: usize = 0;
    while seen < items.len()
        invariant
            seen <= items.len(),
            pool.len() == seen,
            kinds@ == seq![Kind::InBackpack, Kind::Tier],
            forall|e: Entity|
                items@.contains(e) <==> world@.contains_key(e) && world@[e].has_all(kinds@),
            forall|j: int|
                0 <= j < seen ==> (#[trigger] pool[j]).0 == items[j] && usable(
                    world@,
                    items[j],
                    pool[j].1,
                ),
        decreases items.len() - seen,
    {
        let entity = items[seen];
        assert(items@.contains(entity));
        assert(world@[entity].has(kinds@[0]) && world@[entity].has(kinds@[1]));
        let tier = world.tier(entity).unwrap();
        pool.push((entity, tier));
        seen += 1;
    }
    assert forall|e: Entity, tier: Tier| #[trigger] usable(world@, e, tier) implies lists(
        pool@,
        e,
    ) by {
        assert(world@[e].has(kinds@[0]) && world@[e].has(kinds@[1]));
        assert(items@.contains(e));
        let i = choose|i: int| 0 <= i < items@.len() && items@[i] == e;
        assert(pool[i].0 == e);
    }
    assert forall|j: int, k: int| 0 <= j < k < pool.len() implies rank(
        world.order(),
        (#[trigger] pool[j]).0,
    ) < rank(world.order(), (#[trigger] pool[k]).0) by {
        assert(pool[j].0 == items[j] && pool[k].0 == items[k]);
    }
    pool
}

/// Picks the backpack items that crafting from `materials` would use up:
/// for each material in turn, of the fitting items not yet picked the one
/// that was created first. There is such a supply exactly if the backpack
/// holds enough of every tier.
pub fn supply(world: &World, materials: &Vec<Tier>) -> (found: Option<Vec<Entity>>)
    requires
        world.wf(),
    ensures
        found is Some <==> enough(world@, materials@),
        found matches Some(used) ==> first_fit(world@, world.order(), materials@, used@),
{
    let mut pool = stockpile(world);
    let mut used: Vec<Entity> = Vec::new();
    let mut filled: usize = 0;
    proof {
        world.lemma_finite();
    }
    while filled < materials.len()
        invariant
            filled <= materials.len(),
            used.len() == filled,
            world@.dom().finite(),
            fits(world@, materials@.take(filled as int), used@),
            forall|j: int| 0 <= j < pool.len() ==> usable(world@, (#[trigger] pool[j]).0, pool[j].1),
            forall|j: int, k: int|
                0 <= j < k < pool.len() ==> rank(world.order(), (#[trigger] pool[j]).0) < rank(
                    world.order(),
                    (#[trigger] pool[k]).0,
                ),
            forall|j: int| 0 <= j < pool.len() ==> !used@.contains((#[trigger] pool[j]).0),
            forall|e: Entity, tier: Tier| #[trigger]
                usable(world@, e, tier) ==> used@.contains(e) || lists(pool@, e),
            forall|q: int, e: Entity|
                0 <= q < filled && #[trigger] usable(world@, e, materials[q]) && !used@.take(
                    q,
                ).contains(e) ==> rank(world.order(), used[q]) <= rank(world.order(), e),
        decreases materials.len() - filled,
    {
        let wanted = materials[filled];
        let mut at: usize = 0;
        while at < pool.len() && pool[at].1 != wanted
            invariant
                at <= pool.len(),
                forall|k: int| 0 <= k < at ==> (#[trigger] pool[k]).1 != wanted,
            decreases pool.len() - at,
        {
            at += 1;
        }
        if at == pool.len() {
            proof {
                let so_far = materials@.take(filled as int);
                lemma_spent_is_demand(world@, so_far, used@, wanted);
                lemma_demand_grows(materials@, filled as int, wanted);
                lemma_demand_grows(materials@, filled + 1, wanted);
                assert(stock_of(world@, wanted) =~= spent(world@, used@, wanted)) by {
                    assert forall|e: Entity| usable(world@, e, wanted) implies used@.contains(
                        e,
                    ) by {
                        if lists(pool@, e) {
                            let j = choose|j: int| 0 <= j < pool.len() && pool[j].0 == e;
                            assert(pool[j].1 == wanted);
                        }
                    }
                }
                assert(demand(materials@, wanted) > stock(world@, wanted));
            }
            return None;
        }
        let ghost before = pool@;
        let ghost taken = used@;
        let (entity, _) = pool.remove(at);
        used.push(entity);
        proof {
            let so_far = materials@.take(filled + 1);
            assert(so_far.drop_last() =~= materials@.take(filled as int));
            assert forall|i: int| 0 <= i < used.len() implies usable(
                world@,
                #[trigger] used[i],
                so_far[i],
            ) by {
                if i < filled {
                    assert(used[i] == taken[i]);
                }
            }
            assert(!taken.contains(entity)) by {
                assert(before[at as int].0 == entity);
            }
            lemma_push_fresh(taken, entity);
            assert forall|j: int| 0 <= j < pool.len() implies !used@.contains(
                (#[trigger] pool[j]).0,
            ) by {
                if j < at {
                    assert(pool[j] == before[j]);
                    assert(rank(world.order(), before[j].0) < rank(
                        world.order(),
                        before[at as int].0,
                    ));
                } else {
                    assert(pool[j] == before[j + 1]);
                    assert(rank(world.order(), before[at as int].0) < rank(
                        world.order(),
                        before[j + 1].0,
                    ));
                }
            }
            assert forall|j: int, k: int| 0 <= j < k < pool.len() implies rank(
                world.order(),
                (#[trigger] pool[j]).0,
            ) < rank(world.order(), (#[trigger] pool[k]).0) by {
                let jj = if j < at {
                    j
                } else {
                    j + 1
                };
                let kk = if k < at {
                    k
                } else {
                    k + 1
                };
                assert(pool[j] == before[jj] && pool[k] == before[kk]);
            }
            assert forall|j: int| 0 <= j < pool.len() implies usable(
                world@,
                (#[trigger] pool[j]).0,
                pool[j].1,
            ) by {
                let jj = if j < at {
                    j
                } else {
                    j + 1
                };
                assert(pool[j] == before[jj]);
            }
            assert forall|e: Entity, t: Tier| #[trigger] usable(world@, e, t) implies used@.contains(
                e,
            ) || lists(pool@, e) by {
                if !taken.contains(e) && e != entity {
                    assert(lists(before, e));
                    let j = choose|j: int| 0 <= j < before.len() && before[j].0 == e;
                    if j < at {
                        assert(pool[j].0 == e);
                    } else {
                        assert(pool[j - 1].0 == e);
                    }
                }
            }
            assert forall|q: int, e: Entity|
                0 <= q < filled + 1 && #[trigger] usable(world@, e, materials[q]) && !used@.take(
                    q,
                ).contains(e) implies rank(world.order(), used[q]) <= rank(world.order(), e) by {
                if q < filled {
                    assert(used@.take(q) =~= taken.take(q));
                    assert(used[q] == taken[q]);
                } else {
                    assert(used@.take(q) =~= taken);
                    assert(lists(before, e));
                    let j = choose|j: int| 0 <= j < before.len() && before[j].0 == e;
                    assert(before[j].1 == wanted);
                    if j > at {
                        assert(rank(world.order(), before[at as int].0) < rank(
                            world.order(),
                            before[j].0,
                        ));
                    }
                }
            }
        }
        filled += 1;
    }
    proof {
        assert(materials@.take(filled as int) =~= materials@);
        assert forall|tier: Tier| #[trigger] demand(materials@, tier) <= stock(world@, tier) by {
            lemma_spent_is_demand(world@, materials@, used@, tier);
            assert(spent(world@, used@, tier).subset_of(stock_of(world@, tier)));
            assert(stock_of(world@, tier).subset_of(world@.dom()));
            vstd::set_lib::lemma_len_subset(stock_of(world@, tier), world@.dom());
            vstd::set_lib::lemma_len_subset(spent(world@, used@, tier), stock_of(world@, tier));
        }
    }
    Some(used)
}

/// Resolves one craft request. With enough materials in the backpack the
/// items that `supply` picks are destroyed, one new item is made in the
/// backpack, and the success is logged; the new item is returned. Otherwise
/// nothing changes but the log, which tells of the shortage.
pub fn craft(world: &mut World, recipe: &Recipe, log: &mut Log) -> (made: Option<Entity>)
    requires
        old(world).wf(),
    ensures
        final(world).wf(),
        final(world).follows(old(world)),
        made is Some <==> enough(old(world)@, recipe@.materials),
        crafts_to(scene_of(old(world), old(log)), recipe@, scene_of(final(world), final(log))),
        made matches Some(product) ==> !old(world).issued(product) && makes(
            scene_of(old(world), old(log)),
            recipe@,
            product,
            scene_of(final(world), final(log)),
        ),
{
    let ghost before = scene_of(old(world), old(log));
    let used = match supply(world, &recipe.materials) {
        Some(used) => used,
        None => {
            log.push(String::from_str("not enough materials"));
            return None;
        },
    };
    proof {
        crate::world::lemma_without_strangers(before.order, Set::<Entity>::empty());
        assert(used@.take(0).to_set() =~= Set::<Entity>::empty());
    }
    let mut gone: usize = 0;
    while gone < used.len()
        invariant
            gone <= used.len(),
            world.wf(),
            forall|index: usize| world.latest(index) == old(world).latest(index),
            world@ == before.world.remove_keys(used@.take(gone as int).to_set()),
            world.order() == without(before.order, used@.take(gone as int).to_set()),
        decreases used.len() - gone,
    {
        let ghost sofar = used@.take(gone as int).to_set();
        world.delete(used[gone]);
        proof {
            lemma_without_twice(before.order, sofar, set![used[gone as int]]);
            assert(sofar.union(set![used[gone as int]]) =~= sofar.insert(used[gone as int]));
        }
        assert(used@.take(gone + 1).to_set() =~= sofar.insert(used[gone as int])) by {
            assert(used@.take(gone + 1) =~= used@.take(gone as int).push(used[gone as int]));
            used@.take(gone as int).lemma_push_to_set_commute(used[gone as int]);
        }
        assert(world@ =~= before.world.remove_keys(sofar.insert(used[gone as int])));
        gone += 1;
    }
    assert(used@.take(gone as int) =~= used@);
    let product = world.create();
    world.insert(product, Component::Name(Name::new(recipe.product.as_str())));
    world.insert(product, Component::Item);
    world.insert(product, Component::Tier(recipe.tier));
    world.insert(product, Component::InBackpack);
    log.push(String::from_str("crafted ").concat(recipe.product.as_str()));
    proof {
        old(world).lemma_living_is_latest(product);
        assert(world@ =~= crafted(before.world, used@, product, recipe@));
        assert forall|e: Entity| #[trigger] old(world).issued(e) implies world.issued(e) && (
        world@.contains_key(e) ==> old(world)@.contains_key(e)) by {}
        assert(!old(world).issued(product));
        assert(made_with(before, recipe@, used@, product, scene_of(world, log)));
        assert(makes(before, recipe@, product, scene_of(world, log)));
    }
    Some(product)
}

/// Whether `steps` are the scenes that resolving craft requests for
/// `recipes`, in order, goes through: one more scene than requests, and each
/// request leads from its scene to the next.
pub open spec fn crafts_in_steps(steps: Seq<Scene>, recipes: Seq<RecipeView>) -> bool {
    &&& steps.len() == recipes.len() + 1
    &&& forall|i: int|
        0 <= i < recipes.len() ==> crafts_to(#[trigger] steps[i], recipes[i], steps[i + 1])
}

/// Whether resolving craft requests for `recipes`, in order, leads from
/// `before` to `after`, each request starting from the scene that the
/// requests before it left.
pub open spec fn crafts_all_to(before: Scene, recipes: Seq<RecipeView>, after: Scene) -> bool {
    exists|steps: Seq<Scene>| #[trigger]
        crafts_in_steps(steps, recipes) && steps.first() == before && steps.last() == after
}

proof fn lemma_first_fit_agrees(
    scene: Scene,
    materials: Seq<Tier>,
    one: Seq<Entity>,
    other: Seq<Entity>,
    count: int,
)
    requires
        arranged(scene),
        first_fit(scene.world, scene.order, materials, one),
        first_fit(scene.world, scene.order, materials, other),
        0 <= count <= materials.len(),
    ensures
        one.take(count) == other.take(count),
    decreases count,
{
    if count == 0 {
        assert(one.take(0) =~= other.take(0));
    } else {
        let k = count - 1;
        lemma_first_fit_agrees(scene, materials, one, other, k);
        let world = scene.world;
        assert(usable(world, one[k], materials[k]));
        assert(usable(world, other[k], materials[k]));
        assert(!one.take(k).contains(one[k])) by {
            if one.take(k).contains(one[k]) {
                let j = choose|j: int| 0 <= j < k && one.take(k)[j] == one[k];
                assert(one[j] == one[k]);
            }
        }
        assert(!other.take(k).contains(other[k])) by {
            if other.take(k).contains(other[k]) {
                let j = choose|j: int| 0 <= j < k && other.take(k)[j] == other[k];
                assert(other[j] == other[k]);
            }
        }
        assert(rank(scene.order, one[k]) == rank(scene.order, other[k]));
        assert(scene.order.contains(one[k]) && scene.order.contains(other[k]));
        assert(one[k] == other[k]);
        assert(one.take(count) =~= one.take(k).push(one[k]));
        assert(other.take(count) =~= other.take(k).push(other[k]));
    }
}

/// Which items a craft uses up is settled by the scene and the materials:
/// two supplies that are both the first fit are the same.
pub proof fn lemma_first_fit_is_unique(
    scene: Scene,
    materials: Seq<Tier>,
    one: Seq<Entity>,
    other: Seq<Entity>,
)
    requires
        arranged(scene),
        first_fit(scene.world, scene.order, materials, one),
        first_fit(scene.world, scene.order, materials, other),
    ensures
        one == other,
{
    lemma_first_fit_agrees(scene, materials, one, other, materials.len() as int);
    assert(one.take(materials.len() as int) =~= one);
    assert(other.take(materials.len() as int) =~= other);
}

/// A craft that succeeds uses up exactly the materials and makes exactly one
/// item. Of every tier the backpack then holds what it held, less what the
/// materials ask for, plus one for the tier of the product. The entities of
/// the backpack are those of before without the items used, and the product,
/// which is new and the last one created. The items used are gone, and
/// nothing else has changed.
pub proof fn lemma_craft_takes_materials(
    before: Scene,
    recipe: RecipeView,
    used: Seq<Entity>,
    product: Entity,
    after: Scene,
    tier: Tier,
)
    requires
        before.world.dom().finite(),
        made_with(before, recipe, used, product, after),
    ensures
        stock(after.world, tier) == stock(before.world, tier) - demand(recipe.materials, tier)
            + if tier == recipe.tier {
            1int
        } else {
            0int
        },
        backpack(after.world) == backpack(before.world).difference(used.to_set()).insert(product),
        !backpack(before.world).contains(product),
        forall|i: int| 0 <= i < used.len() ==> !after.world.contains_key(#[trigger] used[i]),
        forall|e: Entity|
            e != product && !used.contains(e) ==> #[trigger] lookup(after.world, e) == lookup(
                before.world,
                e,
            ),
        after.order == without(before.order, used.to_set()).push(product),
        after.log == before.log.push(craft_entry(recipe)),
{
    let had = stock_of(before.world, tier);
    let took = spent(before.world, used, tier);
    let kept = had.difference(took);
    lemma_spent_is_demand(before.world, recipe.materials, used, tier);
    assert(had.subset_of(before.world.dom()));
    vstd::set_lib::lemma_len_subset(had, before.world.dom());
    assert(kept.disjoint(took));
    assert(kept.union(took) =~= had);
    vstd::set_lib::lemma_len_subset(kept, had);
    vstd::set_lib::lemma_set_disjoint_lens(kept, took);
    assert forall|i: int| 0 <= i < used.len() implies !after.world.contains_key(
        #[trigger] used[i],
    ) by {
        assert(used.to_set().contains(used[i]));
        assert(before.world.contains_key(used[i]));
    }
    assert(!kept.contains(product));
    if tier == recipe.tier {
        assert(stock_of(after.world, tier) =~= kept.insert(product));
    } else {
        assert(stock_of(after.world, tier) =~= kept);
    }
    assert(backpack(after.world) =~= backpack(before.world).difference(used.to_set()).insert(
        product,
    ));
}

/// A craft that fails for want of materials leaves the world as it was, the
/// backpack with it, and adds exactly one entry to the log.
pub proof fn lemma_craft_without_materials(before: Scene, recipe: RecipeView, after: Scene)
    requires
        !enough(before.world, recipe.materials),
        crafts_to(before, recipe, after),
    ensures
        after.world == before.world,
        backpack(after.world) == backpack(before.world),
        after.log == before.log.push(shortage_entry()),
        after.log.len() == before.log.len() + 1,
{
}

/// The craft requests that wait on `actor`, oldest first: none if the actor
/// is gone or has no craft queue.
pub open spec fn waiting(world: Map<Entity, Record>, actor: Entity) -> Seq<RecipeView> {
    match lookup(world, actor).crafts {
        Some(requests) => requests,
        None => Seq::empty(),
    }
}

/// `world` with the craft queue of `actor` emptied, if it has one.
pub open spec fn cleared(world: Map<Entity, Record>, actor: Entity) -> Map<Entity, Record> {
    if lookup(world, actor).crafts is Some {
        world.insert(actor, Record { crafts: Some(Seq::empty()), ..world[actor] })
    } else {
        world
    }
}

/// Whether the queues of the record `now` are those of `then`, unless they
/// are gone.
pub open spec fn queues_kept(then: Record, now: Record) -> bool {
    &&& now.crafts == then.crafts || now.crafts is None
    &&& now.pickups == then.pickups || now.pickups is None
}

/// Whether `after` can come of `before` by resolving `count` craft requests,
/// as far as this goes: the log has grown by one entry for each request and
/// kept what it held, a coherent world is still coherent, and every queue is
/// as it was or gone with its entity.
pub open spec fn kept_through(before: Scene, count: nat, after: Scene) -> bool {
    &&& after.log.len() == before.log.len() + count
    &&& before.log.is_prefix_of(after.log)
    &&& coherent(before.world) ==> coherent(after.world)
    &&& forall|e: Entity| #[trigger]
        queues_kept(lookup(before.world, e), lookup(after.world, e))
}

/// One craft request, however it ends, adds one entry to the log, keeps a
/// coherent world coherent, and leaves the queues alone.
pub proof fn lemma_craft_keeps(before: Scene, recipe: RecipeView, after: Scene)
    requires
        crafts_to(before, recipe, after),
    ensures
        kept_through(before, 1, after),
{
    if enough(before.world, recipe.materials) {
        let product = choose|product: Entity| #[trigger] makes(before, recipe, product, after);
        let used = choose|used: Seq<Entity>| #[trigger]
            made_with(before, recipe, used, product, after);
        assert forall|e: Entity| #[trigger]
            queues_kept(lookup(before.world, e), lookup(after.world, e)) by {}
        if coherent(before.world) {
            assert forall|e: Entity| #[trigger] after.world.contains_key(e) implies !(
            after.world[e].position is Some && after.world[e].in_backpack) by {
                if e != product {
                    assert(before.world.contains_key(e));
                }
            }
        }
    }
}

proof fn lemma_steps_keep(steps: Seq<Scene>, recipes: Seq<RecipeView>, upto: int)
    requires
        crafts_in_steps(steps, recipes),
        0 <= upto <= recipes.len(),
    ensures
        kept_through(steps[0], upto as nat, steps[upto]),
    decreases upto,
{
    if upto > 0 {
        lemma_steps_keep(steps, recipes, upto - 1);
        let start = steps[0];
        let middle = steps[upto - 1];
        let end = steps[upto];
        assert(crafts_to(middle, recipes[upto - 1], end));
        lemma_craft_keeps(middle, recipes[upto - 1], end);
        assert forall|e: Entity| #[trigger]
            queues_kept(lookup(start.world, e), lookup(end.world, e)) by {
            assert(queues_kept(lookup(start.world, e), lookup(middle.world, e)));
            assert(queues_kept(lookup(middle.world, e), lookup(end.world, e)));
        }
    }
}

/// Resolving craft requests adds one entry to the log for each request and
/// keeps what the log held, keeps a coherent world coherent, and leaves
/// every queue as it was, unless its entity was used up.
pub proof fn lemma_crafts_keep(before: Scene, recipes: Seq<RecipeView>, after: Scene)
    requires
        crafts_all_to(before, recipes, after),
    ensures
        kept_through(before, recipes.len(), after),
{
    let steps = choose|steps: Seq<Scene>| #[trigger]
        crafts_in_steps(steps, recipes) && steps.first() == before && steps.last() == after;
    lemma_steps_keep(steps, recipes, recipes.len() as int);
}

/// After a run of the craft system the queue is empty, so a second run
/// changes nothing: no materials are used and nothing is logged.
pub proof fn lemma_second_craft_run_changes_nothing(
    scene: Scene,
    actor: Entity,
    once: Scene,
    twice: Scene,
)
    requires
        crafts_all_to(
            Scene { world: cleared(scene.world, actor), ..scene },
            waiting(scene.world, actor),
            once,
        ),
        crafts_all_to(
            Scene { world: cleared(once.world, actor), ..once },
            waiting(once.world, actor),
            twice,
        ),
    ensures
        waiting(once.world, actor).len() == 0,
        twice == once,
{
    let start = Scene { world: cleared(scene.world, actor), ..scene };
    lemma_crafts_keep(start, waiting(scene.world, actor), once);
    assert(queues_kept(lookup(start.world, actor), lookup(once.world, actor)));
    lemma_no_requests_craft_nothing(once, actor, twice);
}

/// Draining an empty craft queue changes nothing: neither the world nor the
/// log.
pub proof fn lemma_no_requests_craft_nothing(scene: Scene, actor: Entity, after: Scene)
    requires
        waiting(scene.world, actor).len() == 0,
        crafts_all_to(
            Scene { world: cleared(scene.world, actor), ..scene },
            waiting(scene.world, actor),
            after,
        ),
    ensures
        after == scene,
{
    if lookup(scene.world, actor).crafts is Some {
        assert(scene.world[actor].crafts->0 =~= Seq::empty());
    }
    assert(cleared(scene.world, actor) =~= scene.world);
}

/// The system that resolves craft requests.
pub struct CraftSystem;

impl CraftSystem {
    /// Drains the craft queue of `actor`: takes every request out of it and
    /// resolves them oldest first. With an empty queue, or none, nothing
    /// changes.
    pub fn run(world: &mut World, actor: Entity, log: &mut Log)
        requires
            old(world).wf(),
        ensures
            final(world).wf(),
            final(world).follows(old(world)),
            crafts_all_to(
                Scene { world: cleared(old(world)@, actor), ..scene_of(old(world), old(log)) },
                waiting(old(world)@, actor),
                scene_of(final(world), final(log)),
            ),
    {
        let recipes = world.take_crafts(actor);
        let ghost start = scene_of(world, log);
        let ghost asked = crate::components::recipe_views(recipes@);
        assert(start.world =~= cleared(old(world)@, actor));
        let ghost mut steps: Seq<Scene> = seq![start];
        let mut done: usize = 0;
        while done < recipes.len()
            invariant
                done <= recipes.len(),
                world.wf(),
                world.follows(old(world)),
                asked == crate::components::recipe_views(recipes@),
                crafts_in_steps(steps, asked.take(done as int)),
                steps.first() == start,
                steps.last() == scene_of(world, log),
            decreases recipes.len() - done,
        {
            let ghost middle = scene_of(world, log);
            let ghost earlier = *world;
            craft(world, &recipes[done], log);
            proof {
                let after = scene_of(world, log);
                let longer = steps.push(after);
                assert forall|i: int| 0 <= i < done + 1 implies crafts_to(
                    #[trigger] longer[i],
                    asked.take(done + 1)[i],
                    longer[i + 1],
                ) by {
                    if i < done {
                        assert(crafts_to(steps[i], asked.take(done as int)[i], steps[i + 1]));
                    } else {
                        assert(longer[i] == middle);
                        assert(asked.take(done + 1)[i] == recipes[done as int]@);
                    }
                }
                steps = longer;
                assert forall|e: Entity| #[trigger] old(world).issued(e) implies world.issued(e)
                    && (world@.contains_key(e) ==> old(world)@.contains_key(e)) by {
                    assert(earlier.issued(e));
                }
            }
            done += 1;
        }
        assert(asked.take(done as int) =~= asked);
        assert(crafts_in_steps(steps, asked));
    }
}

} // verus!
