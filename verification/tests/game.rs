use snake_game::components::{
    CollsionKind, Direction, GridVec, HeadDirection, Input, Key, Position, Tail, Velocity,
};
use snake_game::graphics::renderer::{RenderAssetCommands, RenderFontCommand, SpriteRenderCommand};
use snake_game::assets::AssetType;
use snake_game::stages::game::{movement_tick, GameState, FOOD_PERIOD, MOVE_PERIOD};
use snake_game::stages::paused::Paused;
use snake_game::stages::{new_stage_stack, update_stages, NextStage, Stage};
use snake_game::systems::{create_snake_system, place_food, GameWorld};

fn cell(x: i32, y: i32) -> GridVec {
    GridVec::new(x, y)
}

fn load_text(cmd: &RenderAssetCommands) -> (String, String) {
    match cmd {
        RenderAssetCommands::LoadText { text, font } => (text.clone(), font.clone()),
        _ => panic!("a request to load a text was expected"),
    }
}

#[test]
fn periods_are_a_quarter_and_one_and_a_half_seconds() {
    assert_eq!(MOVE_PERIOD, 250);
    assert_eq!(FOOD_PERIOD, 1500);
}

#[test]
fn new_game_has_snake_and_score_display() {
    let mut cmds = Vec::new();
    let state = GameState::new(40, &mut cmds);
    assert_eq!(state.score, 0);
    assert_eq!(state.direction, Direction::Up);
    assert_eq!(state.game_world.len(), 3);
    assert!(state.game_world.events.is_empty());
    assert_eq!(state.game_world.heads().len(), 1);
    assert_eq!(state.game_world.tails().len(), 1);
    let labels = state.game_world.labels();
    assert_eq!(labels.len(), 1);
    assert_eq!(labels[0].0.text(), "Score:  0");
    assert_eq!(labels[0].0.font(), "KenneyFuture");
    assert_eq!(labels[0].1, Position(cell(-24, 18)));
    assert_eq!(cmds.len(), 1);
    assert_eq!(load_text(&cmds[0]), ("Score:  0".to_string(), "KenneyFuture".to_string()));
    assert_eq!(state.move_timer.elapsed(40), 0);
    assert_eq!(state.food_timer.elapsed(40), 0);
    assert!(!state.move_timer.finished(40 + MOVE_PERIOD - 1));
    assert!(state.move_timer.finished(40 + MOVE_PERIOD));
    assert!(!state.food_timer.finished(40 + FOOD_PERIOD - 1));
    assert!(state.food_timer.finished(40 + FOOD_PERIOD));
}

#[test]
fn before_the_movement_timer_nothing_moves() {
    let mut cmds = Vec::new();
    let mut state = GameState::new(0, &mut cmds);
    let input = Input { go_right: true, ..Input::default() };
    let next = state.update(&input, 100, &mut cmds);
    assert!(matches!(next, NextStage::Noop));
    let heads = state.game_world.heads();
    assert_eq!(heads[0].1, Position(cell(0, 0)));
    // the direction is taken at once, the velocity only at the movement tick
    assert_eq!(heads[0].2, Velocity(cell(0, 1)));
    assert_eq!(state.game_world.directions()[0].1, HeadDirection(Direction::Right));
    assert_eq!(state.direction, Direction::Right);
    assert_eq!(state.move_timer.elapsed(100), 100);
    assert_eq!(cmds.len(), 1);
}

#[test]
fn a_movement_tick_moves_head_and_tail() {
    let mut cmds = Vec::new();
    let mut state = GameState::new(0, &mut cmds);
    let tail = state.game_world.tails()[0].0;
    state.update(&Input { go_right: true, ..Input::default() }, 100, &mut cmds);
    state.update(&Input::default(), 250, &mut cmds);
    let heads = state.game_world.heads();
    assert_eq!(heads[0].1, Position(cell(1, 0)));
    assert_eq!(heads[0].2, Velocity(cell(1, 0)));
    assert_eq!(state.game_world.position_of(tail), Some(Position(cell(0, 0))));
    assert_eq!(state.move_timer.elapsed(250), 0);
    assert_eq!(state.food_timer.elapsed(250), 250);
    assert!(state.game_world.events.is_empty());
    assert_eq!(state.game_world.len(), 3);
    state.update(&Input::default(), 499, &mut cmds);
    assert_eq!(state.game_world.heads()[0].1, Position(cell(1, 0)));
    state.update(&Input::default(), 500, &mut cmds);
    assert_eq!(state.game_world.heads()[0].1, Position(cell(2, 0)));
    assert_eq!(state.game_world.position_of(tail), Some(Position(cell(1, 0))));
}

#[test]
fn eating_food_grows_the_tail() {
    let mut cmds = Vec::new();
    let mut state = GameState::new(0, &mut cmds);
    let head = state.game_world.heads()[0].0;
    let first = state.game_world.tails()[0].0;
    place_food(&mut state.game_world, cell(0, 1));
    let food = state
        .game_world
        .obstacles()
        .into_iter()
        .find(|o| o.2.kind == CollsionKind::Food)
        .unwrap()
        .0;
    let next = state.update(&Input::default(), 250, &mut cmds);
    assert!(matches!(next, NextStage::Noop));
    assert!(!state.game_world.contains(food));
    assert_eq!(state.game_world.food_count(), 0);
    assert_eq!(state.game_world.position_of(head), Some(Position(cell(0, 1))));
    assert_eq!(state.game_world.position_of(first), Some(Position(cell(0, 0))));
    let tails = state.game_world.tails();
    assert_eq!(tails.len(), 2);
    let grown: Vec<_> = tails.iter().filter(|t| t.0 != first).collect();
    assert_eq!(grown.len(), 1);
    assert_eq!(grown[0].1.segment, 2);
    assert_eq!(grown[0].1.ahead, first);
    assert_eq!(grown[0].2, Position(cell(0, 0)));
    assert_eq!(state.score, 1);
    assert_eq!(state.game_world.len(), 4);
    assert!(state.game_world.events.is_empty());
    let labels = state.game_world.labels();
    assert_eq!(labels.len(), 1);
    assert_eq!(labels[0].0.text(), "Score:  1");
    assert_eq!(cmds.len(), 2);
    match &cmds[1] {
        RenderAssetCommands::UpdateText { new_text, text, font } => {
            assert_eq!(new_text, "Score:  1");
            assert_eq!(text, "Score:  0");
            assert_eq!(font, "KenneyFuture");
        }
        _ => panic!("a request to update a text was expected"),
    }
    // one tick later the new segment trails the first
    state.update(&Input::default(), 500, &mut cmds);
    assert_eq!(state.game_world.position_of(head), Some(Position(cell(0, 2))));
    assert_eq!(state.game_world.position_of(first), Some(Position(cell(0, 1))));
    assert_eq!(state.game_world.position_of(grown[0].0), Some(Position(cell(0, 0))));
    assert_eq!(state.score, 1);
}

#[test]
fn two_meals_in_one_tick_count_twice() {
    let mut cmds = Vec::new();
    let mut state = GameState::new(0, &mut cmds);
    place_food(&mut state.game_world, cell(0, 1));
    place_food(&mut state.game_world, cell(0, 1));
    state.update(&Input::default(), 250, &mut cmds);
    assert_eq!(state.score, 2);
    assert_eq!(state.game_world.food_count(), 0);
    assert_eq!(state.game_world.tails().len(), 3);
    assert_eq!(state.game_world.labels()[0].0.text(), "Score:  2");
}

#[test]
fn running_into_the_snake_starts_the_game_anew() {
    let mut cmds = Vec::new();
    let mut state = GameState::new(0, &mut cmds);
    let head = state.game_world.heads()[0].0;
    let first = state.game_world.tails()[0].0;
    place_food(&mut state.game_world, cell(7, 7));
    let a = state.game_world.spawn_tail(Tail { segment: 2, ahead: first }, cell(0, 1));
    let b = state.game_world.spawn_tail(Tail { segment: 3, ahead: a }, cell(0, 1));
    let next = state.update(&Input::default(), 300, &mut cmds);
    assert!(matches!(next, NextStage::Noop));
    assert_eq!(state.game_world.len(), 2);
    for old in [head, first, a, b] {
        assert!(!state.game_world.contains(old));
        assert_eq!(state.game_world.position_of(old), None);
    }
    assert_eq!(state.game_world.food_count(), 0);
    assert!(state.game_world.labels().is_empty());
    let heads = state.game_world.heads();
    assert_eq!(heads.len(), 1);
    assert_eq!(heads[0].1, Position(cell(0, 0)));
    assert_eq!(heads[0].2, Velocity(cell(0, 1)));
    assert_eq!(state.game_world.directions()[0].1, HeadDirection(Direction::Up));
    let tails = state.game_world.tails();
    assert_eq!(tails.len(), 1);
    assert_eq!(tails[0].1.segment, 1);
    assert_eq!(tails[0].1.ahead, heads[0].0);
    assert_eq!(tails[0].2, Position(cell(0, -1)));
    assert!(state.game_world.events.is_empty());
    assert_eq!(state.move_timer.elapsed(300), 0);
    assert_eq!(state.food_timer.elapsed(300), 0);
    assert!(!state.move_timer.finished(300));
    assert!(!state.food_timer.finished(300));
    // the game goes on from the new snake
    state.update(&Input::default(), 550, &mut cmds);
    assert_eq!(state.game_world.heads()[0].1, Position(cell(0, 1)));
    assert_eq!(state.game_world.len(), 2);
}

#[test]
fn food_timer_adds_food() {
    let mut cmds = Vec::new();
    let mut state = GameState::new(0, &mut cmds);
    state.update(&Input::default(), 1499, &mut cmds);
    assert_eq!(state.game_world.food_count(), 0);
    state.update(&Input::default(), 1500, &mut cmds);
    assert_eq!(state.game_world.food_count(), 1);
    assert_eq!(state.food_timer.elapsed(1500), 0);
    state.update(&Input::default(), 1600, &mut cmds);
    assert_eq!(state.game_world.food_count(), 1);
}

#[test]
fn food_stays_capped_over_many_ticks() {
    let mut cmds = Vec::new();
    let mut state = GameState::new(0, &mut cmds);
    // keep the head turning in a small circle, away from the food's timer
    let turns = [Direction::Right, Direction::Down, Direction::Left, Direction::Up];
    let mut now = 0;
    for round in 0..400 {
        now += 1500;
        let want = turns[round % 4];
        let input = Input {
            go_right: want == Direction::Right,
            go_down: want == Direction::Down,
            go_left: want == Direction::Left,
            go_up: want == Direction::Up,
            ..Input::default()
        };
        state.update(&input, now, &mut cmds);
        assert!(state.game_world.food_count() <= 10);
        let firsts: Vec<_> =
            state.game_world.tails().into_iter().filter(|t| t.1.segment == 1).collect();
        assert_eq!(firsts.len(), 1);
        assert_eq!(firsts[0].1.ahead, state.game_world.heads()[0].0);
        assert!(state.game_world.events.is_empty());
    }
}

#[test]
fn pause_changes_nothing_and_asks_for_the_paused_screen() {
    let mut cmds = Vec::new();
    let mut state = GameState::new(0, &mut cmds);
    let input = Input { pause: true, go_left: true, ..Input::default() };
    let next = state.update(&input, 10_000, &mut cmds);
    match next {
        NextStage::Push(Stage::Paused(p)) => assert_eq!(p, Paused { go_back: false }),
        _ => panic!("the paused screen was expected"),
    }
    assert_eq!(state.game_world.heads()[0].1, Position(cell(0, 0)));
    assert_eq!(state.game_world.directions()[0].1, HeadDirection(Direction::Up));
    assert_eq!(state.direction, Direction::Up);
    assert_eq!(state.move_timer.elapsed(10_000), 10_000);
    assert_eq!(state.game_world.food_count(), 0);
    assert_eq!(cmds.len(), 1);
}

#[test]
fn movement_tick_runs_the_systems_in_order() {
    let mut world = GameWorld::new();
    create_snake_system(&mut world);
    let head = world.heads()[0].0;
    let first = world.tails()[0].0;
    place_food(&mut world, cell(0, 1));
    movement_tick(&mut world);
    assert_eq!(world.position_of(head), Some(Position(cell(0, 1))));
    assert_eq!(world.position_of(first), Some(Position(cell(0, 0))));
    assert_eq!(world.tails().len(), 2);
    // the food leaves only when the eaten food is despawned
    assert_eq!(world.food_count(), 1);
    assert_eq!(world.events.len(), 2);
}

#[test]
fn paused_asks_to_leave_after_escape() {
    let mut paused = Paused::new();
    assert!(!paused.go_back);
    assert!(matches!(paused.update(&Input::default()), NextStage::Noop));
    paused.key_down_event(Key::Escape, true);
    assert!(!paused.go_back);
    paused.key_down_event(Key::A, false);
    assert!(!paused.go_back);
    paused.key_down_event(Key::Escape, false);
    assert!(paused.go_back);
    assert!(matches!(paused.update(&Input::default()), NextStage::Pop));
    assert_eq!(Paused::default(), Paused { go_back: false });
}

#[test]
fn stack_pushes_the_pause_and_pops_it_again() {
    let mut cmds = Vec::new();
    let mut stages = new_stage_stack(16);
    assert!(stages.is_empty());
    let mut input = Input::default();
    input.resize(800, 600);
    // with no screen open nothing happens and the input stays
    input.key_down(Key::Left, false);
    update_stages(&mut stages, &mut input, 0, &mut cmds);
    assert!(input.go_left);
    input.reset();
    stages.push(Stage::Game(GameState::new(0, &mut cmds)));
    input.key_down(Key::Escape, false);
    update_stages(&mut stages, &mut input, 100, &mut cmds);
    assert_eq!(stages.len(), 2);
    assert!(matches!(stages[1], Stage::Paused(Paused { go_back: false })));
    assert_eq!(input, Input { width: 800, height: 600, ..Input::default() });
    // while paused the game below does not run
    update_stages(&mut stages, &mut input, 5_000, &mut cmds);
    assert_eq!(stages.len(), 2);
    match &stages[0] {
        Stage::Game(g) => assert_eq!(g.game_world.heads()[0].1, Position(cell(0, 0))),
        _ => panic!("the game was expected below"),
    }
    if let Stage::Paused(p) = &mut stages[1] {
        p.key_down_event(Key::Escape, false);
    }
    update_stages(&mut stages, &mut input, 9_000, &mut cmds);
    assert_eq!(stages.len(), 1);
    match &stages[0] {
        Stage::Game(g) => {
            // 100 ticks had passed at the pause, and as many have at the resume
            assert_eq!(g.move_timer.elapsed(9_000), 100);
            assert_eq!(g.food_timer.elapsed(9_000), 100);
        }
        _ => panic!("the game was expected on top"),
    }
    update_stages(&mut stages, &mut input, 9_149, &mut cmds);
    match &stages[0] {
        Stage::Game(g) => assert_eq!(g.game_world.heads()[0].1, Position(cell(0, 0))),
        _ => panic!("the game was expected on top"),
    }
    update_stages(&mut stages, &mut input, 9_150, &mut cmds);
    match &stages[0] {
        Stage::Game(g) => assert_eq!(g.game_world.heads()[0].1, Position(cell(0, 1))),
        _ => panic!("the game was expected on top"),
    }
}

#[test]
fn popping_the_last_screen_leaves_the_stack_empty() {
    let mut cmds = Vec::new();
    let mut stages = new_stage_stack(2);
    stages.push(Stage::Paused(Paused { go_back: true }));
    let mut input = Input::default();
    update_stages(&mut stages, &mut input, 0, &mut cmds);
    assert!(stages.is_empty());
}

#[test]
fn draw_lists_sprites_arrows_and_texts() {
    let mut cmds = Vec::new();
    let mut state = GameState::new(0, &mut cmds);
    place_food(&mut state.game_world, cell(3, -2));
    let mut sprites: Vec<SpriteRenderCommand> = Vec::new();
    let mut fonts: Vec<RenderFontCommand> = Vec::new();
    let mut assets: Vec<RenderAssetCommands> = Vec::new();
    state.draw(&Vec::new(), &mut sprites, &mut fonts, &mut assets);
    assert_eq!(sprites.len(), 4);
    assert!(sprites.contains(&SpriteRenderCommand {
        binding: AssetType::Snake,
        position: cell(0, 0),
        heading: None,
        num_of_elements: 6,
    }));
    assert!(sprites.contains(&SpriteRenderCommand {
        binding: AssetType::Tail,
        position: cell(0, -1),
        heading: None,
        num_of_elements: 6,
    }));
    assert!(sprites.contains(&SpriteRenderCommand {
        binding: AssetType::Food,
        position: cell(3, -2),
        heading: None,
        num_of_elements: 6,
    }));
    // the arrow comes after the sprites, one cell ahead of the head
    assert_eq!(
        sprites[3],
        SpriteRenderCommand {
            binding: AssetType::Arrow,
            position: cell(0, 1),
            heading: Some(Direction::Up),
            num_of_elements: 9,
        }
    );
    // the text is not loaded yet: it is asked for, not drawn
    assert!(fonts.is_empty());
    assert_eq!(assets.len(), 1);
    assert_eq!(load_text(&assets[0]), ("Score:  0".to_string(), "KenneyFuture".to_string()));
    // once it is loaded it is drawn
    let loaded = vec!["Other".to_string(), "Score:  0".to_string()];
    state.draw(&loaded, &mut sprites, &mut fonts, &mut assets);
    assert_eq!(assets.len(), 1);
    assert_eq!(fonts.len(), 1);
    assert_eq!(fonts[0].font, "KenneyFuture");
    assert_eq!(fonts[0].text, "Score:  0");
    assert_eq!(fonts[0].position, cell(-24, 18));
    assert_eq!(sprites.len(), 8);
}

#[test]
fn a_new_game_is_ready_for_a_tick() {
    let mut cmds = Vec::new();
    let mut state = GameState::new(0, &mut cmds);
    assert!(state.check_tick());
    place_food(&mut state.game_world, cell(3, 3));
    assert!(state.check_tick());
    let first = state.game_world.tails()[0].0;
    state.game_world.spawn_tail(Tail { segment: 2, ahead: first }, cell(0, -2));
    assert!(state.check_tick());
    let next = state.try_update(&Input::default(), 250, &mut cmds);
    assert!(matches!(next, Some(NextStage::Noop)));
    assert_eq!(state.game_world.heads()[0].1, Position(cell(0, 1)));
    assert!(state.check_tick());
}

#[test]
fn events_left_in_the_queue_make_the_game_unready() {
    let mut cmds = Vec::new();
    let mut state = GameState::new(0, &mut cmds);
    state.game_world.events.push(snake_game::events::Event::Noop);
    assert!(!state.check_tick());
    let next = state.try_update(&Input::default(), 250, &mut cmds);
    assert!(next.is_none());
    assert_eq!(state.game_world.heads()[0].1, Position(cell(0, 0)));
    assert_eq!(state.game_world.events.len(), 1);
    assert_eq!(state.move_timer.elapsed(250), 250);
    assert_eq!(cmds.len(), 1);
}

#[test]
fn an_entity_on_the_rim_makes_the_game_unready() {
    let mut cmds = Vec::new();
    let mut state = GameState::new(0, &mut cmds);
    let first = state.game_world.tails()[0].0;
    let far = state.game_world.spawn_tail(Tail { segment: 2, ahead: first }, cell(i32::MAX, 0));
    assert!(!state.check_tick());
    assert_eq!(state.game_world.despawn(far), Ok(()));
    assert!(state.check_tick());
    let far = state.game_world.spawn_tail(Tail { segment: 2, ahead: first }, cell(5, i32::MIN));
    assert!(!state.check_tick());
    assert_eq!(state.game_world.despawn(far), Ok(()));
    state.game_world.spawn_tail(Tail { segment: 2, ahead: first }, cell(i32::MAX - 1, i32::MIN + 1));
    assert!(state.check_tick());
}

#[test]
fn a_broken_snake_makes_the_game_unready() {
    // two heads
    let mut cmds = Vec::new();
    let mut state = GameState::new(0, &mut cmds);
    create_snake_system(&mut state.game_world);
    assert!(!state.check_tick());
    // no head
    let mut state = GameState::new(0, &mut cmds);
    let head = state.game_world.heads()[0].0;
    assert_eq!(state.game_world.despawn(head), Ok(()));
    assert!(!state.check_tick());
    // a link that follows what is gone
    let mut state = GameState::new(0, &mut cmds);
    let first = state.game_world.tails()[0].0;
    let second = state.game_world.spawn_tail(Tail { segment: 2, ahead: first }, cell(0, -2));
    state.game_world.spawn_tail(Tail { segment: 3, ahead: second }, cell(0, -3));
    assert!(state.check_tick());
    assert_eq!(state.game_world.despawn(second), Ok(()));
    assert!(!state.check_tick());
    // a link that follows food
    let mut state = GameState::new(0, &mut cmds);
    place_food(&mut state.game_world, cell(4, 4));
    let food = state
        .game_world
        .obstacles()
        .into_iter()
        .find(|o| o.2.kind == CollsionKind::Food)
        .unwrap()
        .0;
    state.game_world.spawn_tail(Tail { segment: 2, ahead: food }, cell(0, -2));
    assert!(!state.check_tick());
    // a first link that does not follow the head
    let mut state = GameState::new(0, &mut cmds);
    let first = state.game_world.tails()[0].0;
    state.game_world.spawn_tail(Tail { segment: 1, ahead: first }, cell(0, -2));
    assert!(!state.check_tick());
    // segment numbers out of range
    let mut state = GameState::new(0, &mut cmds);
    let first = state.game_world.tails()[0].0;
    let zero = state.game_world.spawn_tail(Tail { segment: 0, ahead: first }, cell(0, -2));
    assert!(!state.check_tick());
    assert_eq!(state.game_world.despawn(zero), Ok(()));
    state.game_world.spawn_tail(Tail { segment: usize::MAX, ahead: first }, cell(0, -2));
    assert!(!state.check_tick());
}

#[test]
fn a_score_without_room_makes_the_game_unready() {
    let mut cmds = Vec::new();
    let mut state = GameState::new(0, &mut cmds);
    state.score = i32::MAX - 6;
    assert!(state.check_tick());
    state.score = i32::MAX - 5;
    assert!(!state.check_tick());
}
