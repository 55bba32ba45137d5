//! What holds of the event queue as a tick goes through its systems.

use vstd::prelude::*;
use crate::chain::food_marked;
use crate::components::{Collision, Position, Tail};
use crate::events::Event;
use crate::store;
use crate::store::{Row, select, world_order, world_rows, world_wf};
use crate::systems::{
    eaten, eaten_entities, food_targets_placed, grows, growth, growths, has_game_over, head_items,
    kept, obstacle_items, response, responses, sprout, sprouts, stayed, strike, strikes,
};
use crate::walk::{lemma_filter_map_sources, lemma_gather, lemma_select};

verus! {

/// The entity that a collision strikes.
pub open spec fn struck(ev: Event) -> Option<hecs::Entity> {
    match ev {
        Event::Collision { target, source, pos, kind } => Some(target),
        _ => None,
    }
}

/// Whether the queue holds collisions only, each with a live target that has
/// a position and the collision mark that the event names, and no target
/// twice.
pub open spec fn strikes_sound(q: Seq<Event>, rows: Map<hecs::Entity, Row>) -> bool {
    &&& forall|i: int|
        0 <= i < q.len() ==> match #[trigger] q[i] {
            Event::Collision { target, source, pos, kind } => rows.dom().contains(target)
                && rows[target].position is Some && rows[target].collision == Some(
                Collision { kind },
            ),
            _ => false,
        }
    &&& forall|i: int, j: int| 0 <= i < j < q.len() ==> struck(q[i]) != struck(q[j])
}

/// Whether every meal of the queue names a live entity that is marked as
/// food, and no two meals name the same.
pub open spec fn meals_sound(q: Seq<Event>, rows: Map<hecs::Entity, Row>) -> bool {
    &&& forall|i: int|
        0 <= i < q.len() ==> match #[trigger] q[i] {
            Event::SnakeEatFood { entity, pos } => rows.dom().contains(entity) && food_marked(
                rows[entity],
            ),
            _ => true,
        }
    &&& forall|i: int, j: int|
        0 <= i < j < q.len() && q[i] is SnakeEatFood && q[j] is SnakeEatFood ==> eaten(q[i])
            != eaten(q[j])
}

/// The collisions that a well-formed world records are sound, and there are
/// no more of them than entities.
pub proof fn lemma_strikes_sound(w: hecs::World)
    requires
        world_wf(w),
    ensures
        strikes_sound(strikes(w), world_rows(w)),
        strikes(w).len() <= world_order(w).len(),
{
    let heads = head_items(w);
    let order = world_order(w);
    let rows = world_rows(w);
    if heads.len() > 0 {
        let items = obstacle_items(w);
        let sel = select(order, rows, store::wants_obstacle());
        let f = |item: (hecs::Entity, Position, Collision)|
            strike(item, heads[0].0, heads[0].1.0, heads[0].2.0);
        let q = strikes(w);
        assert(q == items.filter_map(f));
        lemma_select(order, rows, store::wants_obstacle());
        lemma_gather(order, rows, store::wants_obstacle(), store::takes_obstacle());
        let from = lemma_filter_map_sources(items, f);
        assert forall|i: int| 0 <= i < q.len() implies match #[trigger] q[i] {
            Event::Collision { target, source, pos, kind } => rows.dom().contains(target)
                && rows[target].position is Some && rows[target].collision == Some(
                Collision { kind },
            ),
            _ => false,
        } by {
            let k = from[i];
            assert(f(items[k]) == Some(q[i]));
            assert(items[k] == (
                sel[k],
                rows[sel[k]].position.unwrap(),
                rows[sel[k]].collision.unwrap(),
            ));
            assert(order.contains(sel[k]));
        }
        assert forall|i: int, j: int| 0 <= i < j < q.len() implies struck(q[i]) != struck(
            q[j],
        ) by {
            assert(f(items[from[i]]) == Some(q[i]));
            assert(f(items[from[j]]) == Some(q[j]));
            assert(items[from[i]].0 == sel[from[i]]);
            assert(items[from[j]].0 == sel[from[j]]);
            assert(from[i] < from[j]);
        }
    }
}

/// `filter_map` makes nothing of a sequence none of whose items gives a
/// result.
pub proof fn lemma_filter_map_none<A, B>(s: Seq<A>, f: spec_fn(A) -> Option<B>)
    requires
        forall|i: int| 0 <= i < s.len() ==> f(#[trigger] s[i]) is None,
    ensures
        s.filter_map(f).len() == 0,
{
    let from = lemma_filter_map_sources(s, f);
    if from.len() > 0 {
        assert(f(s[from[0]]) is Some);
    }
}

/// What the dispatch of sound collisions leaves in the queue: meals and ends
/// of the game only, one for each collision, and sound meals.
pub proof fn lemma_handled(s: Seq<Event>, rows: Map<hecs::Entity, Row>)
    requires
        strikes_sound(s, rows),
    ensures
        food_targets_placed(s, rows),
        stayed(s).len() == 0,
        responses(s, rows).len() <= s.len(),
        meals_sound(responses(s, rows), rows),
        forall|i: int|
            0 <= i < responses(s, rows).len() ==> (#[trigger] responses(s, rows)[i]) is GameOver
                || responses(s, rows)[i] is SnakeEatFood,
{
    let keep = |ev: Event| kept(ev);
    let respond = |ev: Event| response(ev, rows);
    assert forall|i: int| 0 <= i < s.len() implies keep(#[trigger] s[i]) is None by {}
    lemma_filter_map_none(s, keep);
    let q = s.filter_map(respond);
    let from = lemma_filter_map_sources(s, respond);
    assert forall|i: int| 0 <= i < q.len() implies match #[trigger] q[i] {
        Event::SnakeEatFood { entity, pos } => rows.dom().contains(entity) && food_marked(
            rows[entity],
        ),
        _ => true,
    } by {
        assert(respond(s[from[i]]) == Some(q[i]));
    }
    assert forall|i: int, j: int|
        0 <= i < j < q.len() && q[i] is SnakeEatFood && q[j] is SnakeEatFood implies eaten(q[i])
        != eaten(q[j]) by {
        assert(respond(s[from[i]]) == Some(q[i]));
        assert(respond(s[from[j]]) == Some(q[j]));
        assert(from[i] < from[j]);
        assert(struck(s[from[i]]) != struck(s[from[j]]));
    }
    assert forall|i: int| 0 <= i < q.len() implies (#[trigger] q[i]) is GameOver
        || q[i] is SnakeEatFood by {
        assert(respond(s[from[i]]) == Some(q[i]));
    }
}

/// The eaten entities of a queue with sound meals are live, marked as food
/// and all different.
pub proof fn lemma_meals(q: Seq<Event>, rows: Map<hecs::Entity, Row>)
    requires
        meals_sound(q, rows),
    ensures
        eaten_entities(q).no_duplicates(),
        eaten_entities(q).len() <= q.len(),
        forall|k: int|
            0 <= k < eaten_entities(q).len() ==> rows.dom().contains(
                #[trigger] eaten_entities(q)[k],
            ) && food_marked(rows[eaten_entities(q)[k]]),
{
    let f = |ev: Event| eaten(ev);
    let all = eaten_entities(q);
    let from = lemma_filter_map_sources(q, f);
    assert forall|k: int| 0 <= k < all.len() implies rows.dom().contains(#[trigger] all[k])
        && food_marked(rows[all[k]]) by {
        assert(f(q[from[k]]) == Some(all[k]));
    }
    assert forall|k: int, l: int| 0 <= k < all.len() && 0 <= l < all.len() && k != l implies all[k]
        != all[l] by {
        assert(f(q[from[k]]) == Some(all[k]));
        assert(f(q[from[l]]) == Some(all[l]));
        if k < l {
            assert(from[k] < from[l]);
        } else {
            assert(from[l] < from[k]);
        }
    }
}

/// What the trigger of the tail's growth leaves in a queue of meals and ends
/// of the game: the same meals, the same ends, and behind them one request
/// for the same new segment for each meal.
pub proof fn lemma_triggered(
    q: Seq<Event>,
    rows: Map<hecs::Entity, Row>,
    tails: Seq<(hecs::Entity, Tail, Position)>,
)
    requires
        meals_sound(q, rows),
        forall|i: int| 0 <= i < q.len() ==> (#[trigger] q[i]) is GameOver || q[i] is SnakeEatFood,
    ensures
        ({
            let more = q + growths(q, tails);
            &&& more.len() <= 2 * q.len()
            &&& meals_sound(more, rows)
            &&& has_game_over(more) == has_game_over(q)
            &&& forall|i: int|
                0 <= i < more.len() ==> (#[trigger] more[i]) is GameOver || more[i] is SnakeEatFood
                    || (tails.len() > 0 && more[i] == growth(tails))
        }),
{
    let f = |ev: Event| grows(ev, tails);
    let added = q.filter_map(f);
    let more = q + added;
    let from = lemma_filter_map_sources(q, f);
    assert forall|i: int| 0 <= i < added.len() implies tails.len() > 0 && #[trigger] added[i]
        == growth(tails) by {
        assert(f(q[from[i]]) == Some(added[i]));
    }
    assert forall|i: int| 0 <= i < more.len() implies (#[trigger] more[i]) is GameOver
        || more[i] is SnakeEatFood || (tails.len() > 0 && more[i] == growth(tails)) by {
        if i < q.len() {
            assert(more[i] == q[i]);
        } else {
            assert(more[i] == added[i - q.len()]);
        }
    }
    assert forall|i: int| 0 <= i < more.len() implies match #[trigger] more[i] {
        Event::SnakeEatFood { entity, pos } => rows.dom().contains(entity) && food_marked(
            rows[entity],
        ),
        _ => true,
    } by {
        if i < q.len() {
            assert(more[i] == q[i]);
        } else {
            assert(more[i] == added[i - q.len()]);
        }
    }
    assert forall|i: int, j: int|
        0 <= i < j < more.len() && more[i] is SnakeEatFood
            && more[j] is SnakeEatFood implies eaten(more[i]) != eaten(more[j]) by {
        if j < q.len() {
            assert(more[i] == q[i] && more[j] == q[j]);
        } else {
            assert(more[j] == added[j - q.len()]);
        }
    }
    if has_game_over(q) {
        let k = choose|k: int| 0 <= k < q.len() && (#[trigger] q[k]) is GameOver;
        assert(more[k] is GameOver);
    }
    if has_game_over(more) {
        let k = choose|k: int| 0 <= k < more.len() && (#[trigger] more[k]) is GameOver;
        if k < q.len() {
            assert(q[k] is GameOver);
        } else {
            assert(more[k] == added[k - q.len()]);
        }
    }
}

/// The segments that a queue asks for are all the one row `row`, where each
/// of its requests asks for that row; and there are no more of them than
/// events.
pub proof fn lemma_sprouts(q: Seq<Event>, row: Row)
    requires
        forall|i: int|
            0 <= i < q.len() && (#[trigger] q[i]) is SpawnSnakeTail ==> sprout(q[i]) == Some(row),
    ensures
        sprouts(q).len() <= q.len(),
        forall|k: int| 0 <= k < sprouts(q).len() ==> #[trigger] sprouts(q)[k] == row,
{
    let f = |ev: Event| sprout(ev);
    let from = lemma_filter_map_sources(q, f);
    assert forall|k: int| 0 <= k < sprouts(q).len() implies #[trigger] sprouts(q)[k] == row by {
        assert(f(q[from[k]]) == Some(sprouts(q)[k]));
    }
}

/// Sound meals stay sound while the entities stay live and keep their
/// collision marks.
pub proof fn lemma_meals_carried(
    q: Seq<Event>,
    before: Map<hecs::Entity, Row>,
    after: Map<hecs::Entity, Row>,
)
    requires
        meals_sound(q, before),
        forall|e: hecs::Entity| #[trigger]
            before.dom().contains(e) ==> after.dom().contains(e) && after[e].collision
                == before[e].collision,
    ensures
        meals_sound(q, after),
{
    assert forall|i: int| 0 <= i < q.len() implies match #[trigger] q[i] {
        Event::SnakeEatFood { entity, pos } => after.dom().contains(entity) && food_marked(
            after[entity],
        ),
        _ => true,
    } by {
        match q[i] {
            Event::SnakeEatFood { entity, pos } => {
                assert(before.dom().contains(entity));
            },
            _ => {},
        }
    }
}

} // verus!
