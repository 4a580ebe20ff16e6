//! Selecting the vehicles of a route.
//!
//! An entity serves a route suffix if it has a vehicle with a trip whose
//! route identifier ends with the suffix. An entity that lacks any of these
//! serves no route: it is passed over, never an error.

use crate::model::{EntityView, FeedEntity, FeedMessage};
use crate::text::{ends_with, text_ends_with};
use vstd::prelude::*;

verus! {

/// The route identifier of an entity, where it has one.
pub open spec fn route_of(entity: EntityView) -> Option<Seq<char>> {
    match entity.vehicle {
        Some(vehicle) => match vehicle.trip {
            Some(trip) => trip.route_id,
            None => None,
        },
        None => None,
    }
}

/// The entity has a route identifier, and it ends with `suffix`.
pub open spec fn serves_route(entity: EntityView, suffix: Seq<char>) -> bool {
    route_of(entity) matches Some(route) && ends_with(route, suffix)
}

/// The positions in `entities` of those that serve `suffix`, in rising order.
pub open spec fn matching_positions(entities: Seq<EntityView>, suffix: Seq<char>) -> Seq<int>
    decreases entities.len(),
{
    if entities.len() == 0 {
        Seq::empty()
    } else if serves_route(entities.last(), suffix) {
        matching_positions(entities.drop_last(), suffix).push(entities.len() - 1)
    } else {
        matching_positions(entities.drop_last(), suffix)
    }
}

/// The entities that serve `suffix`, in the order in which `entities` holds
/// them.
pub open spec fn matching(entities: Seq<EntityView>, suffix: Seq<char>) -> Seq<EntityView> {
    matching_positions(entities, suffix).map_values(|i: int| entities[i])
}

/// Views of borrowed entities, one by one.
pub open spec fn borrowed_views(entities: Seq<&FeedEntity>) -> Seq<EntityView> {
    entities.map_values(|e: &FeedEntity| e@)
}

/// The selected positions lie within the sequence and rise strictly, so what
/// is selected is a subsequence of the entities, in their order.
pub proof fn lemma_matching_keeps_order(entities: Seq<EntityView>, suffix: Seq<char>)
    ensures
        matching(entities, suffix).len() == matching_positions(entities, suffix).len(),
        matching_positions(entities, suffix).len() <= entities.len(),
        forall|k: int|
            0 <= k < matching_positions(entities, suffix).len() ==> 0 <= (
            #[trigger] matching_positions(entities, suffix)[k]) < entities.len(),
        forall|j: int, k: int|
            0 <= j < k < matching_positions(entities, suffix).len() ==> matching_positions(
                entities,
                suffix,
            )[j] < matching_positions(entities, suffix)[k],
        forall|k: int|
            0 <= k < matching(entities, suffix).len() ==> #[trigger] matching(entities, suffix)[k]
                == entities[matching_positions(entities, suffix)[k]],
    decreases entities.len(),
{
    if entities.len() > 0 {
        lemma_matching_keeps_order(entities.drop_last(), suffix);
    }
}

/// Selection goes entity by entity: the last one is added to what the ones
/// before it give, or left out.
pub proof fn lemma_matching_step(entities: Seq<EntityView>, suffix: Seq<char>)
    requires
        entities.len() > 0,
    ensures
        matching(entities, suffix) == if serves_route(entities.last(), suffix) {
            matching(entities.drop_last(), suffix).push(entities.last())
        } else {
            matching(entities.drop_last(), suffix)
        },
{
    let front = entities.drop_last();
    lemma_matching_keeps_order(front, suffix);
    lemma_matching_keeps_order(entities, suffix);
    let positions = matching_positions(front, suffix);
    assert forall|k: int| 0 <= k < positions.len() implies entities[positions[k]]
        == front[positions[k]] by {}
    if serves_route(entities.last(), suffix) {
        assert(matching(entities, suffix) =~= matching(front, suffix).push(entities.last()));
    } else {
        assert(matching(entities, suffix) =~= matching(front, suffix));
    }
}

/// A position is selected exactly if the entity there serves the suffix.
pub proof fn lemma_matching_is_exact(entities: Seq<EntityView>, suffix: Seq<char>, i: int)
    ensures
        matching_positions(entities, suffix).contains(i) <==> 0 <= i < entities.len()
            && serves_route(entities[i], suffix),
    decreases entities.len(),
{
    if entities.len() > 0 {
        let front = entities.drop_last();
        let last = entities.len() - 1;
        lemma_matching_is_exact(front, suffix, i);
        let before = matching_positions(front, suffix);
        if serves_route(entities.last(), suffix) {
            let all = before.push(last);
            if before.contains(i) {
                let k = choose|k: int| 0 <= k < before.len() && before[k] == i;
                assert(all[k] == i);
            }
            if i == last {
                assert(all[before.len() as int] == i);
            }
        }
    }
}

/// What is selected serves the suffix and stands in `entities`; every entity
/// of `entities` that serves the suffix is selected.
pub proof fn lemma_matching_members(entities: Seq<EntityView>, suffix: Seq<char>)
    ensures
        forall|k: int|
            0 <= k < matching(entities, suffix).len() ==> serves_route(
                #[trigger] matching(entities, suffix)[k],
                suffix,
            ) && entities.contains(matching(entities, suffix)[k]),
        forall|i: int|
            0 <= i < entities.len() && serves_route(#[trigger] entities[i], suffix) ==> matching(
                entities,
                suffix,
            ).contains(entities[i]),
{
    let positions = matching_positions(entities, suffix);
    let found = matching(entities, suffix);
    lemma_matching_keeps_order(entities, suffix);
    assert forall|k: int| 0 <= k < found.len() implies serves_route(#[trigger] found[k], suffix)
        && entities.contains(found[k]) by {
        lemma_matching_is_exact(entities, suffix, positions[k]);
        assert(positions.contains(positions[k]));
    }
    assert forall|i: int|
        0 <= i < entities.len() && serves_route(#[trigger] entities[i], suffix) implies found.contains(
        entities[i],
    ) by {
        lemma_matching_is_exact(entities, suffix, i);
        let k = choose|k: int| 0 <= k < positions.len() && positions[k] == i;
        assert(found[k] == entities[i]);
    }
}

/// Where no entity serves the suffix, nothing is selected.
pub proof fn lemma_matching_none(entities: Seq<EntityView>, suffix: Seq<char>)
    requires
        forall|i: int| 0 <= i < entities.len() ==> !serves_route(#[trigger] entities[i], suffix),
    ensures
        matching(entities, suffix) == Seq::<EntityView>::empty(),
    decreases entities.len(),
{
    if entities.len() > 0 {
        let front = entities.drop_last();
        assert forall|i: int| 0 <= i < front.len() implies !serves_route(
            #[trigger] front[i],
            suffix,
        ) by {
            assert(front[i] == entities[i]);
        }
        lemma_matching_none(front, suffix);
        assert(!serves_route(entities[entities.len() - 1], suffix));
    }
    assert(matching(entities, suffix) =~= Seq::<EntityView>::empty());
}

/// Whether `entity` has a route identifier that ends with `suffix`.
pub fn entity_serves_route(entity: &FeedEntity, suffix: &str) -> (serves: bool)
    ensures
        serves == serves_route(entity@, suffix@),
{
    match &entity.vehicle {
        Some(vehicle) => match &vehicle.trip {
            Some(trip) => match &trip.route_id {
                Some(route) => text_ends_with(route.as_str(), suffix),
                None => false,
            },
            None => false,
        },
        None => false,
    }
}

/// The entities of `feed` whose route identifier ends with `suffix`, in the
/// feed's order: the entity at each selected position, and no other.
pub fn filter_by_route<'a>(feed: &'a FeedMessage, suffix: &str) -> (found: Vec<&'a FeedEntity>)
    ensures
        borrowed_views(found@) == matching(feed@.entity, suffix@),
        found@.len() == matching_positions(feed@.entity, suffix@).len(),
        forall|k: int|
            0 <= k < found@.len() ==> *#[trigger] found@[k] == feed.entity@[matching_positions(
                feed@.entity,
                suffix@,
            )[k]],
{
    let mut found: Vec<&'a FeedEntity> = Vec::new();
    let mut i: usize = 0;
    assert(feed@.entity.take(0) =~= Seq::empty());
    assert(borrowed_views(found@) =~= matching(feed@.entity.take(0), suffix@));
    while i < feed.entity.len()
        invariant
            i <= feed.entity.len(),
            feed@.entity.len() == feed.entity.len(),
            borrowed_views(found@) == matching(feed@.entity.take(i as int), suffix@),
            found@.len() == matching_positions(feed@.entity.take(i as int), suffix@).len(),
            forall|k: int|
                0 <= k < found@.len() ==> *#[trigger] found@[k] == feed.entity@[matching_positions(
                    feed@.entity.take(i as int),
                    suffix@,
                )[k]],
        decreases feed.entity.len() - i,
    {
        let entity = &feed.entity[i];
        let ghost before = feed@.entity.take(i as int);
        let ghost now = feed@.entity.take(i + 1);
        let ghost kept = found@;
        assert(now.drop_last() =~= before);
        assert(now.last() == entity@);
        proof {
            lemma_matching_step(now, suffix@);
        }
        if entity_serves_route(entity, suffix) {
            found.push(entity);
            assert(borrowed_views(found@) =~= borrowed_views(kept).push(entity@));
        }
        i += 1;
    }
    assert(feed@.entity.take(i as int) =~= feed@.entity);
    found
}

} // verus!
