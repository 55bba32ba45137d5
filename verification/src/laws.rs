//! Laws that relate several operations of the library, each proved from the
//! contracts of the operations.

use vstd::prelude::*;
use crate::chain::{
    first_links, fits_behind, fresh_snake, lemma_added, snake_ok, snake_part,
};
use crate::components::{Collision, CollsionKind, Position, Tail};
use crate::events::Event;
use crate::stages::game::{feed_step, movement_path};
use crate::score::rescored;
use crate::store;
use crate::components::{Input, Timer};
use crate::graphics::renderer::RenderAssetCommands;
use crate::stages::game::{tick_path, GameState};
use crate::store::{Row, despawned, select, spawned, world_order, world_rows, world_wf};
use crate::systems::{
    FOOD_CAP, eaten, eaten_entities, first_head_row, first_segment_row, food_population,
    food_row, growth, growths, grows, head_items, kept, lemma_tip_index, obstacle_items,
    placed_tail_items, response, responses, rows_added, snake_added, sprout, sprouts, stayed,
    strike, strikes, tip_index,
};
use crate::systems::{followed, has_game_over, tails_linked, GameWorld};
use crate::walk::{
    lemma_despawned_wf, lemma_filter_map_sources, lemma_gather, lemma_select,
    lemma_select_counts, lemma_spawned_wf, wanted,
};

verus! {

/// Whether `paused` is the timer `running` paused at `at`.
pub open spec fn paused_at(running: Timer, paused: Timer, at: i64) -> bool {
    &&& paused.spec_start() == running.spec_start()
    &&& paused.spec_duration() == running.spec_duration()
    &&& paused.spec_paused_time() == Some(at)
}

/// Whether `resumed` is the timer `paused` resumed at `at`.
pub open spec fn resumed_at(paused: Timer, resumed: Timer, at: i64) -> bool {
    &&& resumed.spec_start() == paused.spec_resumed_start(at)
    &&& resumed.spec_duration() == paused.spec_duration()
    &&& resumed.spec_paused_time() is None
}

/// A pause does not count. While a timer is paused it stands where it stood
/// at the pause, whatever the clock says. Once it is resumed it has run for
/// as long as it had at the pause, and goes on from there: at any time it is
/// finished exactly when the time it ran before the pause and the time since
/// the resume together make up its span.
pub proof fn law_pause_keeps_phase(
    running: Timer,
    paused: Timer,
    resumed: Timer,
    pause: i64,
    resume: i64,
    now: i64,
)
    requires
        running.spec_paused_time() is None,
        paused_at(running, paused, pause),
        resumed_at(paused, resumed, resume),
    ensures
        paused.spec_elapsed(now) == running.spec_elapsed(pause),
        paused.spec_finished(now) == running.spec_finished(pause),
        resumed.spec_elapsed(resume) == running.spec_elapsed(pause),
        resumed.spec_elapsed(now) == running.spec_elapsed(pause) + (now - resume),
        resumed.spec_finished(now) <==> running.spec_elapsed(pause) + (now - resume)
            >= running.spec_duration(),
{
}

/// A timer of the span `first + second`, with `second` above zero, that ran
/// for `first` ticks and was then paused is not finished for as long as it is
/// paused, whatever the clock says. Once it is resumed it is finished
/// `second` ticks after the resume and at no time before that.
pub proof fn law_paused_timer_finishes_on_time(
    running: Timer,
    paused: Timer,
    resumed: Timer,
    pause: i64,
    resume: i64,
    first: i64,
    second: i64,
    now: i64,
)
    requires
        running.spec_paused_time() is None,
        running.spec_duration() == first + second,
        second > 0,
        pause == running.spec_start() + first,
        paused_at(running, paused, pause),
        resumed_at(paused, resumed, resume),
    ensures
        !paused.spec_finished(now),
        now == resume + second ==> resumed.spec_finished(now),
        now < resume + second ==> !resumed.spec_finished(now),
{
}

/// An entity that was spawned and then despawned is gone: the world holds
/// what it held before the spawn, so no query finds the entity, and the
/// entity is not live, so that another despawn of it fails.
pub proof fn law_spawn_despawn_round_trip(
    before: hecs::World,
    between: hecs::World,
    after: hecs::World,
    e: hecs::Entity,
    row: Row,
    want: spec_fn(Row) -> bool,
)
    requires
        world_wf(before),
        spawned(before, between, e, row),
        despawned(between, after, e),
    ensures
        world_wf(after),
        world_rows(after) == world_rows(before),
        world_order(after).len() == world_order(before).len(),
        !world_rows(after).dom().contains(e),
        !select(world_order(after), world_rows(after), want).contains(e),
        world_order(before).len() == 0 ==> select(world_order(after), world_rows(after), want).len()
            == 0,
{
    lemma_spawned_wf(before, between, e, row);
    lemma_despawned_wf(between, after, e);
    assert(world_rows(after) =~= world_rows(before));
    lemma_select(world_order(after), world_rows(after), want);
    let sel = select(world_order(after), world_rows(after), want);
    if sel.contains(e) {
        let i = choose|i: int| 0 <= i < sel.len() && sel[i] == e;
        assert(world_order(after).contains(sel[i]));
    }
}

/// The tail follows by snapshot: after the tail's move every tail link with
/// a position is where the entity it follows was before the move, whether or
/// not that entity has moved too.
pub proof fn law_tail_follows_snapshot(before: GameWorld, after: GameWorld, e: hecs::Entity)
    requires
        tails_linked(before.rows()),
        before.rewrites_to(&after, |r: Row| followed(r, before.rows())),
        before.has(e),
        before.rows()[e].tail is Some,
        before.rows()[e].position is Some,
    ensures
        after.rows()[e].position == before.rows()[before.rows()[e].tail.unwrap().ahead].position,
        after.rows()[e].tail == before.rows()[e].tail,
{
}

/// The end of the game starts the game anew within the tick: where the
/// queue held the end of the game when the tick looked for it, the world
/// that the tick leaves holds a new snake and nothing else, no entity that
/// was live at that point is live any more, and at the time of the tick
/// neither timer has run.
pub proof fn law_game_over_resets(
    a: GameState,
    input: Input,
    now: i64,
    c0: Seq<RenderAssetCommands>,
    b: GameState,
    c1: Seq<RenderAssetCommands>,
    g1: GameWorld,
    g2: GameWorld,
    g3: GameWorld,
    g4: GameWorld,
    g5: GameWorld,
)
    requires
        tick_path(a, input, now, c0, b, c1, g1, g2, g3, g4, g5),
        has_game_over(g5.events@),
    ensures
        fresh_snake(b.game_world.rows()),
        b.game_world.order().len() == 2,
        b.game_world.events@.len() == 0,
        forall|e: hecs::Entity| #[trigger] g5.has(e) ==> !b.game_world.has(e),
        b.move_timer.spec_elapsed(now) == 0,
        b.food_timer.spec_elapsed(now) == 0,
{
}

/// A new snake in a world that held no part of a snake is the whole snake:
/// its head is the one head and has a position, and its tail segment is the
/// one first link and follows that head.
pub proof fn law_new_snake(before: hecs::World, after: hecs::World, head: hecs::Entity, tail: hecs::Entity)
    requires
        forall|e: hecs::Entity| #[trigger]
            world_rows(before).dom().contains(e) ==> !snake_part(world_rows(before)[e]),
        snake_added(before, after, head, tail),
    ensures
        snake_ok(world_rows(after), head),
        first_links(world_rows(after)) == set![tail],
        world_rows(after)[tail].tail.unwrap().ahead == head,
        world_rows(after)[head].position is Some,
{
    let rows = world_rows(after);
    assert(rows[head] == first_head_row());
    assert(rows[tail] == first_segment_row(head));
    assert forall|e: hecs::Entity| #[trigger] rows.dom().contains(e) implies e == head || e == tail
        || (world_rows(before).dom().contains(e) && rows[e] == world_rows(before)[e]) by {}
    assert(first_links(rows) =~= set![tail]);
}

/// The requests that meals trigger all ask for the same segment: behind the
/// tip, on the tip's cell, with the number after the tip's. The tip is a
/// link with the greatest segment number, so the new number is greater than
/// every segment number there is.
pub proof fn law_growth_is_behind_the_tip(
    events: Seq<Event>,
    tails: Seq<(hecs::Entity, Tail, Position)>,
)
    requires
        tails.len() > 0,
        tails[tip_index(tails)].1.segment < usize::MAX,
    ensures
        0 <= tip_index(tails) < tails.len(),
        forall|i: int|
            0 <= i < growths(events, tails).len() ==> #[trigger] growths(events, tails)[i] == (
            Event::SpawnSnakeTail {
                ahead: tails[tip_index(tails)].0,
                pos: tails[tip_index(tails)].2.0,
                segment: (tails[tip_index(tails)].1.segment + 1) as usize,
            }),
        forall|j: int|
            0 <= j < tails.len() ==> (#[trigger] tails[j]).1.segment < tails[tip_index(
                tails,
            )].1.segment + 1,
{
    lemma_tip_index(tails);
    let f = |ev: Event| crate::systems::grows(ev, tails);
    let from = lemma_filter_map_sources(events, f);
    assert forall|i: int| 0 <= i < growths(events, tails).len() implies #[trigger] growths(
        events,
        tails,
    )[i] == growth(tails) by {
        assert(f(events[from[i]]) == Some(growths(events, tails)[i]));
    }
}

/// New segments that hang on the snake keep it whole. Where every segment
/// that the queue asks for fits behind the snake, the rows after the spawn
/// still meet the snake's invariant with the same head and the same first
/// links, and every entity from before has the row it had.
pub proof fn law_new_segments_keep_the_snake(
    before: Map<hecs::Entity, Row>,
    after: Map<hecs::Entity, Row>,
    born: Seq<hecs::Entity>,
    events: Seq<Event>,
    head: hecs::Entity,
)
    requires
        snake_ok(before, head),
        rows_added(before, after, born, sprouts(events)),
        forall|i: int|
            0 <= i < events.len() && (#[trigger] events[i]) is SpawnSnakeTail ==> fits_behind(
                before,
                sprout(events[i]).unwrap(),
            ),
    ensures
        snake_ok(after, head),
        first_links(after) == first_links(before),
        forall|e: hecs::Entity| #[trigger] before.dom().contains(e) ==> after[e] == before[e],
{
    let f = |ev: Event| sprout(ev);
    let from = lemma_filter_map_sources(events, f);
    assert forall|i: int| 0 <= i < sprouts(events).len() implies fits_behind(
        before,
        #[trigger] sprouts(events)[i],
    ) by {
        assert(f(events[from[i]]) == Some(sprouts(events)[i]));
    }
    lemma_added(before, after, born, sprouts(events));
}

/// What one firing of the food timer does to the food on the field: one more
/// piece below the cap, and no change at the cap or above it.
pub proof fn law_food_step(a: crate::systems::GameWorld, b: crate::systems::GameWorld)
    requires
        a.wf(),
        feed_step(a, b),
    ensures
        food_population(b.rows()) == (if food_population(a.rows()) < FOOD_CAP {
            food_population(a.rows()) + 1
        } else {
            food_population(a.rows())
        }),
{
    if food_population(a.rows()) < FOOD_CAP {
        let (e, cell) = choose|e: hecs::Entity, cell: crate::components::GridVec|
            crate::systems::on_field(cell) && #[trigger] spawned(a.world, b.world, e, food_row(cell));
        lemma_select_counts(a.world, store::wants_food());
        lemma_select_counts(b.world, store::wants_food());
        assert(wanted(b.rows(), store::wants_food()) =~= wanted(
            a.rows(),
            store::wants_food(),
        ).insert(e));
    }
}

/// The food timer may fire as often as it likes: the field never holds more
/// food than the cap. After `k` firings in a row a field that began with `n`
/// pieces, `n` at most the cap, holds `n + k` pieces or the cap, whichever is
/// less.
pub proof fn law_food_cap_over_calls(worlds: Seq<crate::systems::GameWorld>, k: int)
    requires
        0 <= k < worlds.len(),
        worlds[0].wf(),
        food_population(worlds[0].rows()) <= FOOD_CAP,
        forall|i: int| 0 <= i < worlds.len() - 1 ==> #[trigger] feed_step(worlds[i], worlds[i + 1]),
    ensures
        worlds[k].wf(),
        food_population(worlds[k].rows()) <= FOOD_CAP,
        food_population(worlds[k].rows()) == (if food_population(worlds[0].rows()) + k
            < FOOD_CAP {
            food_population(worlds[0].rows()) + k
        } else {
            FOOD_CAP as int
        }),
    decreases k,
{
    if k > 0 {
        law_food_cap_over_calls(worlds, k - 1);
        assert(feed_step(worlds[k - 1], worlds[k - 1 + 1]));
        law_food_step(worlds[k - 1], worlds[k]);
    }
}

/// Whether the one thing on the cell that the head of the world is about to
/// enter is the food `f`.
pub open spec fn only_food_ahead(w: hecs::World, f: hecs::Entity) -> bool {
    let heads = head_items(w);
    let rows = world_rows(w);
    &&& heads.len() > 0
    &&& rows.dom().contains(f)
    &&& rows[f].position is Some
    &&& rows[f].collision == Some(Collision { kind: CollsionKind::Food })
    &&& forall|e: hecs::Entity| #[trigger]
        rows.dom().contains(e) && rows[e].position is Some && rows[e].collision is Some ==> (
        rows[e].position.unwrap().0.spec_is_step_from(heads[0].1.0, heads[0].2.0) <==> e == f)
}

/// The meal that the head makes of the food `f` in the world `w`.
pub open spec fn meal_of(w: hecs::World, f: hecs::Entity) -> Event {
    Event::SnakeEatFood { entity: f, pos: world_rows(w)[f].position.unwrap().0 }
}

/// Where the food `f` is the one thing ahead of the head, the head's
/// collisions are the one with `f`.
pub proof fn law_one_food_ahead(w: hecs::World, f: hecs::Entity)
    requires
        world_wf(w),
        only_food_ahead(w, f),
    ensures
        strikes(w) == seq![
            Event::Collision {
                target: f,
                source: head_items(w)[0].0,
                pos: world_rows(w)[f].position.unwrap().0,
                kind: CollsionKind::Food,
            },
        ],
{
    let heads = head_items(w);
    let order = world_order(w);
    let rows = world_rows(w);
    let items = obstacle_items(w);
    let sel = select(order, rows, store::wants_obstacle());
    let g = |item: (hecs::Entity, Position, Collision)|
        strike(item, heads[0].0, heads[0].1.0, heads[0].2.0);
    let q = strikes(w);
    assert(q == items.filter_map(g));
    lemma_select(order, rows, store::wants_obstacle());
    lemma_gather(order, rows, store::wants_obstacle(), store::takes_obstacle());
    let from = lemma_filter_map_sources(items, g);
    assert forall|k: int| 0 <= k < q.len() implies sel[from[k]] == f && q[k] == (
    Event::Collision {
        target: f,
        source: heads[0].0,
        pos: rows[f].position.unwrap().0,
        kind: CollsionKind::Food,
    }) by {
        let i = from[k];
        assert(g(items[i]) == Some(q[k]));
        assert(items[i] == (sel[i], rows[sel[i]].position.unwrap(), rows[sel[i]].collision.unwrap()));
        assert(order.contains(sel[i]));
        assert(rows.dom().contains(sel[i]));
    }
    if q.len() > 1 {
        assert(sel[from[0]] == f && sel[from[1]] == f);
        assert(from[0] < from[1]);
    }
    assert(order.contains(f));
    assert(sel.contains(f));
    let i = choose|i: int| 0 <= i < sel.len() && sel[i] == f;
    assert(items[i] == (sel[i], rows[sel[i]].position.unwrap(), rows[sel[i]].collision.unwrap()));
    assert(g(items[i]) is Some);
    assert(q.len() == 1);
    assert(q =~= seq![
        Event::Collision {
            target: f,
            source: heads[0].0,
            pos: rows[f].position.unwrap().0,
            kind: CollsionKind::Food,
        },
    ]);
}

/// Eating grows the tail. Where a movement tick starts with an empty queue
/// and, once the tail has followed, the food `f` is the one thing ahead of
/// the head and there is a tail, the tick leaves in the queue the meal of `f`
/// and one request for a segment behind the tip; and it leaves in the world,
/// besides what it moved, exactly one new entity: that segment, on the cell
/// where the tip is after following. The food is still there: it leaves when
/// the eaten food is despawned.
pub proof fn law_meal_grows_the_tail(
    a: GameWorld,
    h1: GameWorld,
    h2: GameWorld,
    h3: GameWorld,
    h4: GameWorld,
    h5: GameWorld,
    h6: GameWorld,
    b: GameWorld,
    f: hecs::Entity,
)
    requires
        a.events@.len() == 0,
        movement_path(a, h1, h2, h3, h4, h5, h6, b),
        only_food_ahead(h2.world, f),
        placed_tail_items(h2.world).len() > 0,
    ensures
        b.events@ == seq![meal_of(h2.world, f), growth(placed_tail_items(h2.world))],
        b.has(f),
        exists|n: hecs::Entity|
            !h6.has(n) && #[trigger] b.has(n) && b.rows() == h6.rows().insert(
                n,
                sprout(growth(placed_tail_items(h2.world))).unwrap(),
            ),
{
    let rows = h2.rows();
    let tails = placed_tail_items(h2.world);
    let hit = Event::Collision {
        target: f,
        source: head_items(h2.world)[0].0,
        pos: rows[f].position.unwrap().0,
        kind: CollsionKind::Food,
    };
    let meal = meal_of(h2.world, f);
    law_one_food_ahead(h2.world, f);
    assert(h3.events@ =~= seq![hit]);
    Seq::lemma_filter_map_singleton(hit, |ev: Event| kept(ev));
    Seq::lemma_filter_map_singleton(hit, |ev: Event| response(ev, rows));
    assert(stayed(seq![hit]) =~= Seq::empty());
    assert(responses(seq![hit], rows) =~= seq![meal]);
    assert(h4.events@ =~= seq![meal]);
    Seq::lemma_filter_map_singleton(meal, |ev: Event| grows(ev, tails));
    assert(growths(seq![meal], tails) =~= seq![growth(tails)]);
    let q = seq![meal, growth(tails)];
    assert(h5.events@ =~= q);
    assert(b.events@ == q);
    let row = sprout(growth(tails)).unwrap();
    assert(sprouts(q) =~= seq![row]) by {
        let g = |ev: Event| sprout(ev);
        assert(q.drop_last() =~= seq![meal]);
        Seq::lemma_filter_map_singleton(meal, g);
        assert(q.last() == growth(tails));
    }
    let born = choose|born: Seq<hecs::Entity>| #[trigger]
        rows_added(h6.rows(), b.rows(), born, sprouts(h6.events@));
    let n = born[0];
    assert(born.contains(n));
    assert forall|e: hecs::Entity| b.rows().dom().contains(e) <==> h6.rows().insert(
        n,
        row,
    ).dom().contains(e) by {
        if born.contains(e) {
            let k = choose|k: int| 0 <= k < born.len() && born[k] == e;
        }
    }
    assert(b.rows() =~= h6.rows().insert(n, row));
    assert(h6.has(f));
    assert(!h6.has(n) && b.has(n) && b.rows() == h6.rows().insert(n, row));
}

/// A meal within a whole tick. Where the movement timer is finished, the
/// queue is empty at the start and, once the tail has followed, the food `f`
/// is the one thing ahead of the head and there is a tail, the tick does not
/// end the game: it despawns `f`, counts one more point, and leaves one new
/// segment behind the tip. Whatever else the movement left, but for `f` and
/// the score display, is as the movement left it.
pub proof fn law_meal_in_a_tick(
    a: GameState,
    input: Input,
    now: i64,
    c0: Seq<RenderAssetCommands>,
    b: GameState,
    c1: Seq<RenderAssetCommands>,
    g1: GameWorld,
    g2: GameWorld,
    g3: GameWorld,
    g4: GameWorld,
    g5: GameWorld,
    h1: GameWorld,
    h2: GameWorld,
    h3: GameWorld,
    h4: GameWorld,
    h5: GameWorld,
    h6: GameWorld,
    f: hecs::Entity,
)
    requires
        a.game_world.events@.len() == 0,
        a.move_timer.spec_finished(now),
        tick_path(a, input, now, c0, b, c1, g1, g2, g3, g4, g5),
        movement_path(g1, h1, h2, h3, h4, h5, h6, g2),
        only_food_ahead(h2.world, f),
        placed_tail_items(h2.world).len() > 0,
    ensures
        !has_game_over(g5.events@),
        !b.game_world.has(f),
        b.score == a.score + 1,
        b.game_world.events@.len() == 0,
        exists|n: hecs::Entity|
            !h6.has(n) && #[trigger] b.game_world.has(n) && b.game_world.rows()[n] == sprout(
                growth(placed_tail_items(h2.world)),
            ).unwrap(),
        forall|e: hecs::Entity| #[trigger]
            h6.has(e) && e != f && !(h6.rows()[e].score && h6.rows()[e].text is Some)
                ==> b.game_world.has(e) && b.game_world.rows()[e] == h6.rows()[e],
{
    let tails = placed_tail_items(h2.world);
    let meal = meal_of(h2.world, f);
    let row = sprout(growth(tails)).unwrap();
    let q = seq![meal, growth(tails)];
    assert(g1.events@ =~= a.game_world.events@);
    law_meal_grows_the_tail(g1, h1, h2, h3, h4, h5, h6, g2, f);
    let n = choose|n: hecs::Entity|
        !h6.has(n) && #[trigger] g2.has(n) && g2.rows() == h6.rows().insert(n, row);
    assert(g3.events@ == q);
    assert(g3.has(n) && g3.rows()[n] == row && g3.has(f));
    assert forall|e: hecs::Entity| #[trigger] h6.has(e) implies g3.has(e) && g3.rows()[e]
        == h6.rows()[e] by {}
    assert(eaten_entities(q) =~= seq![f]) by {
        let g = |ev: Event| eaten(ev);
        assert(q.drop_last() =~= seq![meal]);
        Seq::lemma_filter_map_singleton(meal, g);
        assert(q.last() == growth(tails));
    }
    assert(seq![f].to_set() =~= set![f]) by {
        assert(seq![f][0] == f);
        assert forall|x: hecs::Entity| seq![f].to_set().contains(x) <==> set![f].contains(
            x,
        ) by {
            if seq![f].contains(x) {
                let k = choose|k: int| 0 <= k < seq![f].len() && seq![f][k] == x;
            }
        }
    }
    assert(g4.rows() == g3.rows().remove_keys(set![f]));
    assert(!g4.has(f));
    assert(g4.events@ == q);
    assert(g5.events@ == q);
    if has_game_over(q) {
        let k = choose|k: int| 0 <= k < q.len() && (#[trigger] q[k]) is GameOver;
        assert(k == 0 || k == 1);
    }
    assert(b.game_world.world == g5.world);
    assert(g4.has(n));
    assert(rescored(g4.rows()[n], g5.rows()[n], b.score as int));
    assert forall|e: hecs::Entity| #[trigger]
        h6.has(e) && e != f && !(h6.rows()[e].score && h6.rows()[e].text is Some) implies b.game_world.has(
        e,
    ) && b.game_world.rows()[e] == h6.rows()[e] by {
        assert(g4.has(e));
        assert(rescored(g4.rows()[e], g5.rows()[e], b.score as int));
    }
    assert(!h6.has(n) && b.game_world.has(n) && b.game_world.rows()[n] == row);
}

} // verus!
