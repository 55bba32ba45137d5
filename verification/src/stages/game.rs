//! The running game: the world, the two timers that pace it and the score,
//! and the tick that advances them.

use vstd::prelude::*;
use crate::assets::AssetType;
use crate::chain::{
    is_head, lemma_rows_ready, link_holds, row_fits,
};
use crate::components::CollsionKind;
use crate::chain::{
    first_links, fits_behind, food_marked, fresh_snake, is_fresh_snake, lemma_added, lemma_added_food,
    lemma_committed, lemma_followed, lemma_fresh_snake, lemma_moved, lemma_one_added,
    lemma_one_head, lemma_removed, lemma_removed_food, lemma_same_kinds, lemma_same_kinds_snake_ok,
    lemma_snake_links, lemma_steered, same_kind, segments_fit, snake_ok, steps_fit,
};
use crate::components::{Direction, GridVec, HeadDirection, Input, Position, Text, Timer};
use crate::events::Event;
use crate::graphics::renderer::{
    AssetCommandView, RenderAssetCommands, RenderFontCommand, SpriteRenderCommand,
};
use crate::queue::{
    lemma_handled, lemma_meals, lemma_meals_carried, lemma_sprouts, lemma_strikes_sound,
    lemma_triggered, meals_sound,
};
use crate::score::{
    relabel, rescored, score_board_items, score_label, score_text, update_score_system,
};
use crate::stages::paused::Paused;
use crate::stages::{NextStage, Stage};
use crate::store;
use crate::store::{Row, select, spawned, walk_extends, world_order, world_rows};
use crate::systems::{
    FOOD_CAP, GameWorld, add_food_system, arrow_command, arrows_fit, asset_views, committed,
    create_snake_system, debug_render_cmds, despawn_food_system, draw_text, eaten_entities,
    facing_items, first_head_row, first_segment_row, followed, font_views, food_population,
    food_row, game_over_system, gather_render_cmds, growth, growths, handle_collision_system,
    has_game_over, head_collision_system, label_items, lemma_tip_index, moved, movement_system,
    on_field, placed_tail_items, responses, rows_added, shown, snake_added, spawn_tail_system,
    sprite_command, sprite_items, sprout, sprouts, stayed, steered, strikes,
    tail_movement_system, tails_linked, tip_index, trigger_tail_spawn, update_input,
    update_velocity_direction, wanted_text,
};
use crate::walk::{lemma_filter_map_sources, lemma_gather, lemma_select, lemma_spawned_wf};

verus! {

/// Whether `b` is `a` after the velocities took the directions.
pub open spec fn commit_step(a: GameWorld, b: GameWorld) -> bool {
    b.wf() && b.events == a.events && a.rewrites_to(&b, |r: Row| committed(r))
}

/// Whether `b` is `a` after the tail followed.
pub open spec fn follow_step(a: GameWorld, b: GameWorld) -> bool {
    b.wf() && b.events == a.events && a.rewrites_to(&b, |r: Row| followed(r, a.rows()))
}

/// Whether `b` is `a` after the head's collisions were recorded.
pub open spec fn strike_step(a: GameWorld, b: GameWorld) -> bool {
    b.world == a.world && b.events@ == a.events@ + strikes(a.world)
}

/// Whether `b` is `a` after the collisions were dispatched.
pub open spec fn dispatch_step(a: GameWorld, b: GameWorld) -> bool {
    b.world == a.world && b.events@ == stayed(a.events@) + responses(a.events@, a.rows())
}

/// Whether `b` is `a` after the meals triggered the tail's growth.
pub open spec fn trigger_step(a: GameWorld, b: GameWorld) -> bool {
    b.world == a.world && b.events@ == a.events@ + growths(
        a.events@,
        placed_tail_items(a.world),
    )
}

/// Whether `b` is `a` after everything with a velocity moved.
pub open spec fn move_step(a: GameWorld, b: GameWorld) -> bool {
    b.wf() && b.events == a.events && a.rewrites_to(&b, |r: Row| moved(r))
}

/// Whether `b` is `a` after the new tail segments were spawned.
pub open spec fn sprout_step(a: GameWorld, b: GameWorld) -> bool {
    &&& b.wf()
    &&& b.events == a.events
    &&& b.order().len() == a.order().len() + sprouts(a.events@).len()
    &&& walk_extends(a.order(), b.order())
    &&& exists|born: Seq<hecs::Entity>| #[trigger]
        rows_added(a.rows(), b.rows(), born, sprouts(a.events@))
}

/// Whether the worlds are those that a movement tick goes through, in its
/// fixed order: the velocities take the directions, the tail follows, the
/// head's collisions are recorded and dispatched, the meals trigger the
/// growth, everything moves, and the new segments are spawned.
pub open spec fn movement_path(
    a: GameWorld,
    h1: GameWorld,
    h2: GameWorld,
    h3: GameWorld,
    h4: GameWorld,
    h5: GameWorld,
    h6: GameWorld,
    b: GameWorld,
) -> bool {
    &&& commit_step(a, h1)
    &&& follow_step(h1, h2)
    &&& strike_step(h2, h3)
    &&& dispatch_step(h3, h4)
    &&& trigger_step(h4, h5)
    &&& move_step(h5, h6)
    &&& sprout_step(h6, b)
}

/// Whether `b` is `a` after a movement tick.
pub open spec fn movement_ticked(a: GameWorld, b: GameWorld) -> bool {
    exists|
        h1: GameWorld,
        h2: GameWorld,
        h3: GameWorld,
        h4: GameWorld,
        h5: GameWorld,
        h6: GameWorld,
    | #[trigger]
        movement_path(a, h1, h2, h3, h4, h5, h6, b)
}

/// Whether a movement tick can run on the world: the queue is empty, every
/// tail link follows a live entity with a position, and the numbers that the
/// tick counts up have room.
pub open spec fn can_move_tick(g: GameWorld) -> bool {
    &&& g.wf()
    &&& g.events@.len() == 0
    &&& tails_linked(g.rows())
    &&& steps_fit(g.rows())
    &&& segments_fit(g.rows())
    &&& 3 * g.order().len() <= u32::MAX
}

/// Runs the systems of a movement tick in their fixed order.
pub fn movement_tick(game_world: &mut GameWorld)
    requires
        can_move_tick(*old(game_world)),
    ensures
        final(game_world).wf(),
        movement_ticked(*old(game_world), *final(game_world)),
        final(game_world).events@.len() <= 2 * old(game_world).order().len(),
        final(game_world).order().len() <= 3 * old(game_world).order().len(),
        meals_sound(final(game_world).events@, final(game_world).rows()),
        food_population(final(game_world).rows()) == food_population(old(game_world).rows()),
        forall|head: hecs::Entity|
            snake_ok(old(game_world).rows(), head) ==> snake_ok(final(game_world).rows(), head)
                && first_links(final(game_world).rows()) == first_links(old(game_world).rows()),
{
    let ghost a = *game_world;
    update_velocity_direction(game_world);
    let ghost h1 = *game_world;
    proof {
        lemma_committed(a.rows(), h1.rows());
        lemma_same_kinds(a.rows(), h1.rows());
    }
    tail_movement_system(game_world);
    let ghost h2 = *game_world;
    let ghost rows2 = h2.rows();
    proof {
        lemma_followed(h1.rows(), rows2);
        lemma_same_kinds(h1.rows(), rows2);
        lemma_strikes_sound(h2.world);
        lemma_handled(strikes(h2.world), rows2);
    }
    head_collision_system(game_world);
    let ghost h3 = *game_world;
    proof {
        assert(h3.events@ =~= strikes(h2.world));
    }
    handle_collision_system(game_world);
    let ghost h4 = *game_world;
    let ghost tails = placed_tail_items(h4.world);
    proof {
        assert(h4.events@ =~= responses(h3.events@, rows2));
        lemma_triggered(h4.events@, rows2, tails);
        if tails.len() > 0 {
            lemma_tip_index(tails);
            lemma_select(world_order(h4.world), rows2, store::wants_placed_tail());
            lemma_gather(
                world_order(h4.world),
                rows2,
                store::wants_placed_tail(),
                store::takes_placed_tail(),
            );
            let sel = select(world_order(h4.world), rows2, store::wants_placed_tail());
            let k = tip_index(tails);
            assert(tails[k] == (sel[k], rows2[sel[k]].tail.unwrap(), rows2[sel[k]].position.unwrap()));
            assert(world_order(h4.world).contains(sel[k]));
            assert(rows2.dom().contains(sel[k]));
        }
    }
    trigger_tail_spawn(game_world);
    let ghost h5 = *game_world;
    movement_system(game_world);
    let ghost h6 = *game_world;
    let ghost rows6 = h6.rows();
    let ghost grown = sprout(growth(tails)).unwrap();
    proof {
        lemma_moved(rows2, rows6);
        lemma_same_kinds(rows2, rows6);
        assert forall|e: hecs::Entity| #[trigger] rows2.dom().contains(e) implies rows6.dom().contains(
            e,
        ) && rows6[e].collision == rows2[e].collision by {}
        lemma_meals_carried(h5.events@, rows2, rows6);
        assert forall|i: int|
            0 <= i < h5.events@.len() && (#[trigger] h5.events@[i]) is SpawnSnakeTail implies sprout(
            h5.events@[i],
        ) == Some(grown) by {}
        lemma_sprouts(h5.events@, grown);
    }
    spawn_tail_system(game_world);
    proof {
        let b = *game_world;
        let born = choose|born: Seq<hecs::Entity>| #[trigger]
            rows_added(rows6, b.rows(), born, sprouts(h6.events@));
        assert forall|e: hecs::Entity| #[trigger] rows6.dom().contains(e) implies b.rows().dom().contains(
            e,
        ) && b.rows()[e].collision == rows6[e].collision by {}
        lemma_meals_carried(b.events@, rows6, b.rows());
        assert forall|i: int| 0 <= i < sprouts(h6.events@).len() implies !(#[trigger] sprouts(
            h6.events@,
        )[i]).food by {}
        lemma_added_food(rows6, b.rows(), born, sprouts(h6.events@));
        assert forall|head: hecs::Entity| snake_ok(a.rows(), head) implies snake_ok(
            b.rows(),
            head,
        ) && first_links(b.rows()) == first_links(a.rows()) by {
            lemma_same_kinds_snake_ok(a.rows(), h1.rows(), head);
            lemma_same_kinds_snake_ok(h1.rows(), rows2, head);
            lemma_same_kinds_snake_ok(rows2, rows6, head);
            if sprouts(h6.events@).len() > 0 {
                assert(sprouts(h6.events@)[0] == grown);
                assert(tails.len() > 0) by {
                    let from = lemma_filter_map_sources(h6.events@, |ev: Event| sprout(ev));
                    assert(h6.events@[from[0]] is SpawnSnakeTail);
                }
                let k = tip_index(tails);
                let sel = select(world_order(h4.world), rows2, store::wants_placed_tail());
                assert(rows2[sel[k]].tail.unwrap().segment >= 1);
                assert(rows6.dom().contains(sel[k]) && same_kind(rows2[sel[k]], rows6[sel[k]]));
                assert(fits_behind(rows6, grown));
            }
            assert forall|i: int| 0 <= i < sprouts(h6.events@).len() implies fits_behind(
                rows6,
                #[trigger] sprouts(h6.events@)[i],
            ) by {}
            lemma_added(rows6, b.rows(), born, sprouts(h6.events@));
        }
        assert(movement_path(a, h1, h2, h3, h4, h5, h6, b));
    }
}

/// The ticks of the clock between two movement ticks.
pub const MOVE_PERIOD: i64 = 250;

/// The ticks of the clock between two pieces of food.
pub const FOOD_PERIOD: i64 = 1500;

/// The running game.
pub struct GameState {
    pub direction: Direction,
    pub game_world: GameWorld,
    pub move_timer: Timer,
    pub food_timer: Timer,
    pub score: i32,
}

/// Whether `b` is `a` after the input steered the head.
pub open spec fn steer_step(a: GameWorld, b: GameWorld, input: Input) -> bool {
    b.wf() && b.events == a.events && a.rewrites_to(&b, |r: Row| steered(r, input))
}

/// Whether `b` is `a` after the food timer fired: with one more piece of
/// food on some cell of the field, unless the field held the most it may.
pub open spec fn feed_step(a: GameWorld, b: GameWorld) -> bool {
    &&& b.wf()
    &&& b.events == a.events
    &&& food_population(a.rows()) >= FOOD_CAP ==> b.world == a.world
    &&& food_population(a.rows()) < FOOD_CAP ==> exists|e: hecs::Entity, cell: GridVec|
        on_field(cell) && #[trigger] spawned(a.world, b.world, e, food_row(cell))
}

/// Whether `b` is `a` after the eaten food was despawned.
pub open spec fn clean_step(a: GameWorld, b: GameWorld) -> bool {
    &&& b.wf()
    &&& b.events == a.events
    &&& b.rows() == a.rows().remove_keys(eaten_entities(a.events@).to_set())
    &&& b.order().len() == a.order().len() - eaten_entities(a.events@).len()
}

/// Whether `b`, with the score `s1` and the commands `c1`, is `a` with the
/// score `s0` and the commands `c0` after the meals were counted.
pub open spec fn score_step(
    a: GameWorld,
    s0: i32,
    c0: Seq<RenderAssetCommands>,
    b: GameWorld,
    s1: i32,
    c1: Seq<RenderAssetCommands>,
) -> bool {
    let meals = eaten_entities(a.events@).len();
    &&& b.wf()
    &&& b.events == a.events
    &&& s1 == s0 + meals
    &&& b.order() == a.order()
    &&& b.rows().dom() == a.rows().dom()
    &&& meals == 0 ==> b.world == a.world && c1 == c0
    &&& meals > 0 ==> forall|e: hecs::Entity| #[trigger]
        a.has(e) ==> rescored(a.rows()[e], b.rows()[e], s1 as int)
    &&& meals > 0 ==> asset_views(c1) == asset_views(c0) + score_board_items(a.world).map_values(
        |item: (hecs::Entity, Text)| relabel(item, s1 as int),
    )
}

/// Whether the timer `after` is `before` started anew at `now`.
pub open spec fn restarted(before: Timer, after: Timer, now: i64) -> bool {
    &&& after.spec_start() == now
    &&& after.spec_duration() == before.spec_duration()
    &&& after.spec_paused_time() is None
}

/// Whether the states and worlds are those that a tick at `now` goes
/// through. The input steers the head (`g1`). Where the movement timer is
/// finished, a movement tick runs and the timer starts anew (`g2`); where
/// the food timer is finished, food is added and that timer starts anew
/// (`g3`). The eaten food is despawned (`g4`) and the meals are counted
/// (`g5`). Where the queue then holds the end of the game, a new snake is
/// spawned, every entity that was live leaves and both timers start anew. At
/// the end the queue is empty.
pub open spec fn tick_path(
    a: GameState,
    input: Input,
    now: i64,
    c0: Seq<RenderAssetCommands>,
    b: GameState,
    c1: Seq<RenderAssetCommands>,
    g1: GameWorld,
    g2: GameWorld,
    g3: GameWorld,
    g4: GameWorld,
    g5: GameWorld,
) -> bool {
    let move_due = a.move_timer.spec_finished(now);
    let food_due = a.food_timer.spec_finished(now);
    let over = has_game_over(g5.events@);
    &&& b.direction == a.direction.spec_turned(input)
    &&& steer_step(a.game_world, g1, input)
    &&& if move_due {
        movement_ticked(g1, g2)
    } else {
        g2 == g1
    }
    &&& if food_due {
        feed_step(g2, g3)
    } else {
        g3 == g2
    }
    &&& clean_step(g3, g4)
    &&& score_step(g4, a.score, c0, g5, b.score, c1)
    &&& b.game_world.events@.len() == 0
    &&& if over {
        &&& fresh_snake(b.game_world.rows())
        &&& b.game_world.order().len() == 2
        &&& forall|e: hecs::Entity| #[trigger] g5.has(e) ==> !b.game_world.has(e)
    } else {
        b.game_world.world == g5.world
    }
    &&& if over || move_due {
        restarted(a.move_timer, b.move_timer, now)
    } else {
        b.move_timer == a.move_timer
    }
    &&& if over || food_due {
        restarted(a.food_timer, b.food_timer, now)
    } else {
        b.food_timer == a.food_timer
    }
}

/// Whether `b`, with the commands `c1`, is `a` with the commands `c0` after
/// a tick at `now` with the given input.
pub open spec fn ticked(
    a: GameState,
    input: Input,
    now: i64,
    c0: Seq<RenderAssetCommands>,
    b: GameState,
    c1: Seq<RenderAssetCommands>,
) -> bool {
    exists|g1: GameWorld, g2: GameWorld, g3: GameWorld, g4: GameWorld, g5: GameWorld|
        #[trigger] tick_path(a, input, now, c0, b, c1, g1, g2, g3, g4, g5) && tick_keeps(a, b, g5)
}

/// What a tick keeps, where `g5` is the world in which it looked for the
/// end of the game. Unless the game ended, the snake has the head it had and
/// meets its invariant as before, and its first links are the same entities.
/// And the field holds no more food than it may, where it did not before.
pub open spec fn tick_keeps(a: GameState, b: GameState, g5: GameWorld) -> bool {
    &&& !has_game_over(g5.events@) ==> forall|head: hecs::Entity|
        snake_ok(a.game_world.rows(), head) ==> snake_ok(b.game_world.rows(), head)
            && first_links(b.game_world.rows()) == first_links(a.game_world.rows())
    &&& food_population(a.game_world.rows()) <= FOOD_CAP ==> food_population(
        b.game_world.rows(),
    ) <= FOOD_CAP
}

/// Where the score is shown.
pub open spec fn score_cell() -> GridVec {
    GridVec { x: -24i32, y: 18 }
}

/// Whether `row` is that of the score display of a new game: at its cell,
/// showing the score 0 in the font of the game.
pub open spec fn is_first_board(row: Row) -> bool {
    &&& row.text is Some
    &&& row.text.unwrap().spec_text() == score_label(0)
    &&& row.text.unwrap().spec_font() == "KenneyFuture"@
    &&& row == Row::score_board(Position(score_cell()), row.text.unwrap())
}

/// Whether the rows are those of a new game: the snake of a game just begun
/// with the head `head` and the tail segment `tail`, and the score display
/// `board`.
pub open spec fn is_new_game(
    rows: Map<hecs::Entity, Row>,
    head: hecs::Entity,
    tail: hecs::Entity,
    board: hecs::Entity,
) -> bool {
    &&& head != tail
    &&& board != head
    &&& board != tail
    &&& rows.dom().contains(board)
    &&& is_first_board(rows[board])
    &&& rows == store::no_rows().insert(head, first_head_row()).insert(
        tail,
        first_segment_row(head),
    ).insert(board, rows[board])
}

/// Whether `b` is the game `a` taken up again at `now`: both timers
/// resumed, everything else as it was.
pub open spec fn game_entered(a: GameState, b: GameState, now: i64) -> bool {
    &&& b.direction == a.direction
    &&& b.game_world == a.game_world
    &&& b.score == a.score
    &&& b.move_timer.spec_start() == a.move_timer.spec_resumed_start(now)
    &&& b.move_timer.spec_duration() == a.move_timer.spec_duration()
    &&& b.move_timer.spec_paused_time() is None
    &&& b.food_timer.spec_start() == a.food_timer.spec_resumed_start(now)
    &&& b.food_timer.spec_duration() == a.food_timer.spec_duration()
    &&& b.food_timer.spec_paused_time() is None
}

/// Whether `b` is the game `a` halted at `now`: both timers paused, unless
/// they were already, and everything else as it was.
pub open spec fn game_exited(a: GameState, b: GameState, now: i64) -> bool {
    &&& b.direction == a.direction
    &&& b.game_world == a.game_world
    &&& b.score == a.score
    &&& b.move_timer.spec_start() == a.move_timer.spec_start()
    &&& b.move_timer.spec_duration() == a.move_timer.spec_duration()
    &&& b.move_timer.spec_paused_time() == a.move_timer.spec_paused_from(now)
    &&& b.food_timer.spec_start() == a.food_timer.spec_start()
    &&& b.food_timer.spec_duration() == a.food_timer.spec_duration()
    &&& b.food_timer.spec_paused_time() == a.food_timer.spec_paused_from(now)
}

/// Whether `b`, with the commands `c1` and the request `next`, is what an
/// update at `now` makes of the game `a` with the commands `c0`.
pub open spec fn game_updated(
    a: GameState,
    input: Input,
    now: i64,
    c0: Seq<RenderAssetCommands>,
    b: GameState,
    c1: Seq<RenderAssetCommands>,
    next: NextStage,
) -> bool {
    &&& b.wf()
    &&& if input.pause {
        next == NextStage::Push(Stage::Paused(Paused { go_back: false })) && b == a && c1 == c0
    } else {
        next is Noop && ticked(a, input, now, c0, b, c1)
    }
}

impl GameState {
    /// A new game at the time `now`: the snake, the score display showing 0,
    /// both timers started, and the request to prepare the score's text
    /// appended to the commands.
    pub fn new(now: i64, asset_commands: &mut Vec<RenderAssetCommands>) -> (state: GameState)
        ensures
            state.wf(),
            state.can_tick(),
            state.score == 0,
            state.direction == Direction::Up,
            state.game_world.order().len() == 3,
            exists|head: hecs::Entity, tail: hecs::Entity, board: hecs::Entity| #[trigger]
                is_new_game(state.game_world.rows(), head, tail, board),
            state.move_timer.spec_start() == now,
            state.move_timer.spec_duration() == MOVE_PERIOD,
            state.move_timer.spec_paused_time() is None,
            state.food_timer.spec_start() == now,
            state.food_timer.spec_duration() == FOOD_PERIOD,
            state.food_timer.spec_paused_time() is None,
            asset_views(final(asset_commands)@) == asset_views(old(asset_commands)@).push(
                AssetCommandView::LoadText { text: score_label(0), font: "KenneyFuture"@ },
            ),
    {
        let mut game_world = GameWorld::new();
        let ghost w0 = game_world.world;
        create_snake_system(&mut game_world);
        let ghost w1 = game_world.world;
        let label = score_text(0);
        let (load_cmd, text_component) = Text::create_text(label.as_str());
        let ghost cmds = asset_commands@;
        let board = store::spawn_score_board(
            &mut game_world.world,
            Position(GridVec::new(-24, 18)),
            text_component,
        );
        asset_commands.push(load_cmd);
        proof {
            let (head, tail) = choose|head: hecs::Entity, tail: hecs::Entity|
                snake_added(w0, w1, head, tail);
            let row = Row::score_board(Position(score_cell()), text_component);
            lemma_spawned_wf(w1, game_world.world, board, row);
            let rows = game_world.rows();
            assert(is_fresh_snake(world_rows(w1), head, tail));
            lemma_fresh_snake(world_rows(w1), head, tail);
            lemma_one_added(world_rows(w1), board, row, head);
            assert(rows[board] == row);
            assert(is_new_game(rows, head, tail, board));
            assert forall|e: hecs::Entity| #[trigger] rows.dom().contains(e) implies e == head
                || e == tail || e == board by {}
            assert(asset_views(asset_commands@) =~= asset_views(cmds).push(load_cmd@));
        }
        GameState {
            direction: Direction::Up,
            game_world,
            move_timer: Timer::new(MOVE_PERIOD, now),
            food_timer: Timer::new(FOOD_PERIOD, now),
            score: 0,
        }
    }

    /// Takes the game up again at `now`, when its screen comes back to the
    /// top: both timers resume.
    pub fn enter(&mut self, now: i64)
        requires
            old(self).move_timer.can_resume(now),
            old(self).food_timer.can_resume(now),
        ensures
            game_entered(*old(self), *final(self), now),
    {
        self.move_timer.resume(now);
        self.food_timer.resume(now);
    }

    /// Halts the game at `now`, when another screen is put over it: both
    /// timers are paused.
    pub fn exit(&mut self, now: i64)
        ensures
            game_exited(*old(self), *final(self), now),
    {
        self.move_timer.paused(now);
        self.food_timer.paused(now);
    }

    /// Appends what is to be drawn this frame: a sprite for each entity
    /// that has a kind, then an arrow ahead of each entity that has a
    /// direction, and each text, or the request to prepare it where it is not
    /// among the `loaded` ones.
    pub fn draw(
        &mut self,
        loaded: &Vec<String>,
        sprites: &mut Vec<SpriteRenderCommand>,
        font_commands: &mut Vec<RenderFontCommand>,
        asset_commands: &mut Vec<RenderAssetCommands>,
    )
        requires
            arrows_fit(old(self).game_world.world),
        ensures
            *final(self) == *old(self),
            final(sprites)@ == old(sprites)@ + sprite_items(old(self).game_world.world).map_values(
                |item: (AssetType, Position)| sprite_command(item),
            ) + facing_items(old(self).game_world.world).map_values(
                |item: (HeadDirection, Position)| arrow_command(item),
            ),
            font_views(final(font_commands)@) == font_views(old(font_commands)@) + label_items(
                old(self).game_world.world,
            ).filter_map(|item: (Text, Position)| shown(item, loaded@)),
            asset_views(final(asset_commands)@) == asset_views(old(asset_commands)@) + label_items(
                old(self).game_world.world,
            ).filter_map(|item: (Text, Position)| wanted_text(item, loaded@)),
    {
        gather_render_cmds(&mut self.game_world, sprites);
        debug_render_cmds(&mut self.game_world, sprites);
        draw_text(&mut self.game_world, loaded, font_commands, asset_commands);
    }

    /// Whether the state is one that a tick leaves: the world is well formed,
    /// the queue is empty, and the snake meets its invariant.
    pub open spec fn wf(&self) -> bool {
        &&& self.game_world.wf()
        &&& self.game_world.events@.len() == 0
        &&& exists|head: hecs::Entity| snake_ok(self.game_world.rows(), head)
    }

    /// Whether the numbers that a tick counts up have room: the steps of
    /// every entity, the segment numbers, the number of entities and the
    /// score.
    pub open spec fn can_tick(&self) -> bool {
        &&& steps_fit(self.game_world.rows())
        &&& segments_fit(self.game_world.rows())
        &&& 3 * self.game_world.order().len() + 3 <= u32::MAX
        &&& self.score + 2 * self.game_world.order().len() <= i32::MAX
    }

    /// Whether a tick can run on the state: it is one that a tick leaves,
    /// and the numbers that a tick counts up have room.
    pub open spec fn ready(&self) -> bool {
        self.wf() && self.can_tick()
    }

    /// Whether a tick can run on the state.
    pub fn check_tick(&self) -> (ok: bool)
        requires
            self.game_world.wf(),
        ensures
            ok == self.ready(),
    {
        let ghost rows = self.game_world.rows();
        let ghost order = self.game_world.order();
        if self.game_world.events.len() != 0 {
            return false;
        }
        let count = store::count(&self.game_world.world);
        if count > 1431655764 {
            return false;
        }
        if self.score as i64 + 2 * (count as i64) > 0x7fff_ffff {
            return false;
        }
        let all = store::entities(&self.game_world.world);
        let mut head: Option<hecs::Entity> = None;
        let mut i: usize = 0;
        while i < all.len()
            invariant
                0 <= i <= all.len(),
                self.game_world.wf(),
                rows == self.game_world.rows(),
                order == self.game_world.order(),
                all@ == order,
                forall|k: int| 0 <= k < i ==> row_fits(rows[#[trigger] all@[k]]),
                head is None ==> forall|k: int| 0 <= k < i ==> !rows[#[trigger] all@[k]].snake,
                head is Some ==> rows[head.unwrap()].snake && (exists|j: int|
                    0 <= j < i && all@[j] == head.unwrap()) && (forall|k: int|
                    0 <= k < i && rows[#[trigger] all@[k]].snake ==> all@[k] == head.unwrap()),
            decreases all.len() - i,
        {
            let e = all[i];
            proof {
                assert(order.contains(all@[i as int]));
                assert(rows.dom().contains(e));
            }
            let snake = store::is_snake(&self.game_world.world, e);
            let position = store::position_of(&self.game_world.world, e);
            let velocity = store::velocity_of(&self.game_world.world, e);
            let tail = store::tail_of(&self.game_world.world, e);
            let collision = store::collision_of(&self.game_world.world, e);
            if snake {
                if head.is_some() {
                    proof {
                        let j = choose|j: int| 0 <= j < i && all@[j] == head.unwrap();
                        assert(all@[j] != all@[i as int]);
                        assert(order.contains(all@[j]));
                        assert forall|h: hecs::Entity| !snake_ok(rows, h) by {
                            if snake_ok(rows, h) {
                                assert(rows.dom().contains(e) && rows[e].snake);
                                assert(rows.dom().contains(all@[j]) && rows[all@[j]].snake);
                            }
                        }
                    }
                    return false;
                }
                head = Some(e);
            }
            let mut fits = true;
            match position {
                Some(p) => {
                    if p.0.x == i32::MIN || p.0.x == i32::MAX || p.0.y == i32::MIN || p.0.y
                        == i32::MAX {
                        fits = false;
                    }
                },
                None => {},
            }
            match velocity {
                Some(v) => {
                    if v.0.x < -1 || v.0.x > 1 || v.0.y < -1 || v.0.y > 1 {
                        fits = false;
                    }
                },
                None => {},
            }
            match tail {
                Some(link) => {
                    if link.segment < 1 || link.segment == usize::MAX {
                        fits = false;
                    }
                },
                None => {},
            }
            if snake || tail.is_some() {
                match collision {
                    Some(mark) => {
                        match mark.kind {
                            CollsionKind::Food => {
                                fits = false;
                            },
                            CollsionKind::Snake => {},
                        }
                    },
                    None => {},
                }
            }
            proof {
                assert(fits == row_fits(rows[e]));
            }
            if !fits {
                proof {
                    assert forall|h: hecs::Entity|
                        !(snake_ok(rows, h) && steps_fit(rows) && segments_fit(rows)) by {
                        lemma_rows_ready(rows, h);
                    }
                }
                return false;
            }
            i += 1;
        }
        let head = match head {
            Some(h) => h,
            None => {
                proof {
                    assert forall|h: hecs::Entity| !snake_ok(rows, h) by {
                        if snake_ok(rows, h) {
                            assert(order.contains(h));
                            let k = choose|k: int| 0 <= k < order.len() && order[k] == h;
                            assert(!rows[all@[k]].snake);
                        }
                    }
                }
                return false;
            },
        };
        proof {
            let j = choose|j: int| 0 <= j < all@.len() && all@[j] == head;
            assert(order.contains(all@[j]));
            assert forall|e: hecs::Entity| #[trigger] rows.dom().contains(e) && rows[e].snake implies e
                == head by {
                assert(order.contains(e));
                let k = choose|k: int| 0 <= k < order.len() && order[k] == e;
                assert(rows[all@[k]].snake);
            }
            assert(is_head(rows, head));
        }
        let mut j: usize = 0;
        while j < all.len()
            invariant
                0 <= j <= all.len(),
                self.game_world.wf(),
                rows == self.game_world.rows(),
                order == self.game_world.order(),
                all@ == order,
                is_head(rows, head),
                forall|k: int| 0 <= k < all@.len() ==> row_fits(rows[#[trigger] all@[k]]),
                forall|k: int|
                    0 <= k < j && rows[#[trigger] all@[k]].tail is Some ==> link_holds(
                        rows,
                        rows[all@[k]].tail.unwrap(),
                        head,
                    ),
            decreases all.len() - j,
        {
            let e = all[j];
            proof {
                assert(order.contains(all@[j as int]));
                assert(rows.dom().contains(e));
            }
            match store::tail_of(&self.game_world.world, e) {
                Some(link) => {
                    let live = store::is_live(&self.game_world.world, link.ahead);
                    let placed = store::position_of(&self.game_world.world, link.ahead).is_some();
                    let part = store::is_snake(&self.game_world.world, link.ahead)
                        || store::tail_of(&self.game_world.world, link.ahead).is_some();
                    let first = link.segment != 1 || store::same_entity(link.ahead, head);
                    let holds = live && part && placed && first;
                    proof {
                        assert(holds == link_holds(rows, link, head));
                    }
                    if !holds {
                        proof {
                            assert forall|h: hecs::Entity|
                                !(snake_ok(rows, h) && steps_fit(rows) && segments_fit(rows)) by {
                                lemma_rows_ready(rows, h);
                                if is_head(rows, h) {
                                    assert(rows.dom().contains(head) && rows[head].snake);
                                    assert(h == head);
                                }
                            }
                        }
                        return false;
                    }
                },
                None => {},
            }
            j += 1;
        }
        proof {
            lemma_rows_ready(rows, head);
            assert forall|e: hecs::Entity| #[trigger] rows.dom().contains(e) implies row_fits(
                rows[e],
            ) by {
                assert(order.contains(e));
                let k = choose|k: int| 0 <= k < order.len() && order[k] == e;
                assert(row_fits(rows[all@[k]]));
            }
            assert forall|e: hecs::Entity| #[trigger]
                rows.dom().contains(e) && rows[e].tail is Some implies link_holds(
                rows,
                rows[e].tail.unwrap(),
                head,
            ) by {
                assert(order.contains(e));
                let k = choose|k: int| 0 <= k < order.len() && order[k] == e;
                assert(rows[all@[k]].tail is Some);
            }
            assert(snake_ok(rows, head));
        }
        true
    }

    /// Advances the game by one tick where a tick can run, and leaves the
    /// game as it is where none can.
    pub fn try_update(
        &mut self,
        input: &Input,
        now: i64,
        asset_commands: &mut Vec<RenderAssetCommands>,
    ) -> (next: Option<NextStage>)
        requires
            old(self).game_world.wf(),
        ensures
            next is Some <==> old(self).ready(),
            next is Some ==> game_updated(
                *old(self),
                *input,
                now,
                old(asset_commands)@,
                *final(self),
                final(asset_commands)@,
                next.unwrap(),
            ),
            next is None ==> *final(self) == *old(self) && final(asset_commands)@ == old(
                asset_commands,
            )@,
    {
        if self.check_tick() {
            Some(self.update(input, now, asset_commands))
        } else {
            None
        }
    }

    /// Advances the game by one tick at the time `now`. A request to pause
    /// changes nothing and asks for the paused screen. Otherwise the input
    /// steers the head, the systems that are due run in their fixed order,
    /// and the queue is emptied.
    pub fn update(
        &mut self,
        input: &Input,
        now: i64,
        asset_commands: &mut Vec<RenderAssetCommands>,
    ) -> (next: NextStage)
        requires
            old(self).wf(),
            old(self).can_tick(),
        ensures
            game_updated(
                *old(self),
                *input,
                now,
                old(asset_commands)@,
                *final(self),
                final(asset_commands)@,
                next,
            ),
            forall|head: hecs::Entity|
                snake_ok(old(self).game_world.rows(), head) ==> (snake_ok(
                    final(self).game_world.rows(),
                    head,
                ) && first_links(final(self).game_world.rows()) == first_links(
                    old(self).game_world.rows(),
                )) || fresh_snake(final(self).game_world.rows()),
            food_population(old(self).game_world.rows()) <= FOOD_CAP ==> food_population(
                final(self).game_world.rows(),
            ) <= FOOD_CAP,
    {
        if input.pause {
            return NextStage::Push(Stage::Paused(Paused::new()));
        }
        let ghost a = *self;
        let ghost c0 = asset_commands@;
        let ghost head = choose|head: hecs::Entity| snake_ok(a.game_world.rows(), head);
        let ghost count = a.game_world.order().len();
        self.direction.update(input);
        update_input(&mut self.game_world, input);
        let ghost g1 = self.game_world;
        proof {
            lemma_steered(a.game_world.rows(), g1.rows(), *input);
            lemma_same_kinds(a.game_world.rows(), g1.rows());
            lemma_same_kinds_snake_ok(a.game_world.rows(), g1.rows(), head);
            lemma_snake_links(g1.rows(), head);
        }
        if self.move_timer.finished(now) {
            movement_tick(&mut self.game_world);
            self.move_timer.reset(now);
        }
        let ghost g2 = self.game_world;
        if self.food_timer.finished(now) {
            add_food_system(&mut self.game_world);
            self.food_timer.reset(now);
            proof {
                let g3 = self.game_world;
                if food_population(g2.rows()) < FOOD_CAP {
                    let (e, cell) = choose|e: hecs::Entity, cell: GridVec|
                        on_field(cell) && spawned(g2.world, g3.world, e, food_row(cell));
                    lemma_one_added(g2.rows(), e, food_row(cell), head);
                    assert forall|x: hecs::Entity| #[trigger] g2.rows().dom().contains(x) implies g3.rows().dom().contains(
                        x,
                    ) && g3.rows()[x].collision == g2.rows()[x].collision by {}
                    lemma_meals_carried(g2.events@, g2.rows(), g3.rows());
                    assert(on_field(cell) && spawned(g2.world, g3.world, e, food_row(cell)));
                }
            }
        }
        let ghost g3 = self.game_world;
        proof {
            lemma_meals(g3.events@, g3.rows());
        }
        despawn_food_system(&mut self.game_world);
        let ghost g4 = self.game_world;
        proof {
            let gone = eaten_entities(g3.events@).to_set();
            assert forall|e: hecs::Entity| #[trigger]
                gone.contains(e) && g3.rows().dom().contains(e) implies food_marked(
                g3.rows()[e],
            ) by {
                let k = choose|k: int|
                    0 <= k < eaten_entities(g3.events@).len() && eaten_entities(g3.events@)[k]
                        == e;
                assert(food_marked(g3.rows()[eaten_entities(g3.events@)[k]]));
            }
            lemma_removed(g3.rows(), gone, head);
            lemma_removed_food(g3.world, g4.world, gone);
        }
        update_score_system(&mut self.game_world, &mut self.score, asset_commands);
        let ghost g5 = self.game_world;
        proof {
            if eaten_entities(g4.events@).len() > 0 {
                assert forall|e: hecs::Entity| #[trigger] g4.rows().dom().contains(e) implies same_kind(
                    g4.rows()[e],
                    g5.rows()[e],
                ) by {
                    assert(g4.has(e));
                }
                lemma_same_kinds(g4.rows(), g5.rows());
                lemma_same_kinds_snake_ok(g4.rows(), g5.rows(), head);
            }
        }
        let over = game_over_system(&mut self.game_world);
        if over {
            self.move_timer.reset(now);
            self.food_timer.reset(now);
        }
        self.game_world.events.clear();
        proof {
            let b = *self;
            if over {
                let (h, t) = choose|h: hecs::Entity, t: hecs::Entity|
                    h != t && b.game_world.rows() == store::no_rows().insert(
                        h,
                        first_head_row(),
                    ).insert(t, first_segment_row(h));
                assert(is_fresh_snake(b.game_world.rows(), h, t));
                lemma_fresh_snake(b.game_world.rows(), h, t);
            } else {
                assert(snake_ok(b.game_world.rows(), head));
                assert(first_links(b.game_world.rows()) == first_links(a.game_world.rows()));
            }
            assert forall|other: hecs::Entity|
                snake_ok(a.game_world.rows(), other) implies (snake_ok(
                b.game_world.rows(),
                other,
            ) && first_links(b.game_world.rows()) == first_links(a.game_world.rows()))
                || fresh_snake(b.game_world.rows()) by {
                lemma_one_head(a.game_world.rows(), head, other);
            }
            assert(tick_path(a, *input, now, c0, b, asset_commands@, g1, g2, g3, g4, g5));
            assert(tick_keeps(a, b, g5));
        }
        NextStage::Noop
    }
}

} // verus!
