use snake_game::assets::AssetType;
use snake_game::components::{
    Collision, CollsionKind, Direction, GridVec, HeadDirection, Input, Key, Text, Timer,
};
use snake_game::graphics::font::ascii_character_list;
use snake_game::graphics::renderer::RenderAssetCommands;
use snake_game::score::{score_text, update_score_system};
use snake_game::events::Event;
use snake_game::stages::game::GameState;
use snake_game::systems::{place_food, GameWorld};
use snake_game::types::AssetIdentity as Identity;
use snake_game::ui::WindowParams;
use snake_game::AssetIdentity;

#[test]
fn timer_is_finished_when_its_span_has_passed() {
    let timer = Timer::new(10, 100);
    assert!(!timer.finished(100));
    assert!(!timer.finished(109));
    assert!(timer.finished(110));
    assert!(timer.finished(500));
    assert_eq!(timer.elapsed(100), 0);
    assert_eq!(timer.elapsed(107), 7);
    assert_eq!(timer.elapsed(90), -10);
}

#[test]
fn timer_reset_starts_anew() {
    let mut timer = Timer::new(10, 0);
    assert!(timer.finished(10));
    timer.reset(10);
    assert!(!timer.finished(10));
    assert!(!timer.finished(19));
    assert!(timer.finished(20));
    assert_eq!(timer.elapsed(10), 0);
}

#[test]
fn a_paused_timer_does_not_finish() {
    let mut timer = Timer::new(100, 0);
    timer.paused(50);
    assert!(!timer.finished(50));
    assert!(!timer.finished(100));
    assert!(!timer.finished(1000));
    assert!(!timer.finished(i64::MAX));
    assert_eq!(timer.elapsed(1000), 50);
    assert_eq!(timer.elapsed(i64::MAX), 50);
    timer.resume(1000);
    assert!(!timer.finished(1049));
    assert!(timer.finished(1050));
}

#[test]
fn a_timer_paused_after_its_span_stays_finished() {
    let mut timer = Timer::new(100, 0);
    timer.paused(100);
    assert!(timer.finished(0));
    assert!(timer.finished(5000));
    assert_eq!(timer.elapsed(5000), 100);
}

#[test]
fn a_second_pause_does_not_let_the_first_one_count() {
    let mut timer = Timer::new(100, 0);
    timer.paused(30);
    timer.paused(80);
    assert_eq!(timer.elapsed(500), 30);
    timer.resume(500);
    assert_eq!(timer.elapsed(500), 30);
    assert!(!timer.finished(569));
    assert!(timer.finished(570));
}

#[test]
fn pause_does_not_count() {
    let mut timer = Timer::new(10, 1000);
    timer.paused(1005);
    assert!(timer.check_resume(7777));
    timer.resume(7777);
    assert_eq!(timer.elapsed(7777), 5);
    assert!(!timer.finished(7777));
    assert!(!timer.finished(7781));
    assert!(timer.finished(7782));
}

#[test]
fn pause_keeps_the_phase_for_any_length_of_pause() {
    for gap in [0i64, 1, 9, 10, 11, 1_000_000] {
        let mut timer = Timer::new(10, 0);
        timer.paused(5);
        timer.resume(5 + gap);
        assert_eq!(timer.elapsed(5 + gap), 5);
        assert!(!timer.finished(5 + gap + 4));
        assert!(timer.finished(5 + gap + 5));
    }
}

#[test]
fn resume_without_pause_changes_nothing() {
    let mut timer = Timer::new(10, 0);
    timer.resume(500);
    assert_eq!(timer.elapsed(500), 500);
    assert!(timer.finished(10));
    assert!(!timer.finished(9));
}

#[test]
fn reset_ends_a_pause() {
    let mut timer = Timer::new(10, 0);
    timer.paused(5);
    timer.reset(20);
    timer.resume(100);
    assert_eq!(timer.elapsed(100), 80);
}

#[test]
fn resume_is_refused_where_the_start_would_not_fit() {
    let mut timer = Timer::new(10, i64::MAX);
    timer.paused(i64::MIN);
    assert!(!timer.check_resume(0));
    assert!(!timer.check_resume(i64::MAX));
    let mut timer = Timer::new(10, 0);
    timer.paused(5);
    assert!(timer.check_resume(i64::MAX));
    assert!(timer.check_resume(i64::MIN + 5));
    assert!(!timer.check_resume(i64::MIN + 4));
}

#[test]
fn direction_velocities_are_unit_steps() {
    assert_eq!(Direction::Up.velocity(), GridVec::new(0, 1));
    assert_eq!(Direction::Right.velocity(), GridVec::new(1, 0));
    assert_eq!(Direction::Down.velocity(), GridVec::new(0, -1));
    assert_eq!(Direction::Left.velocity(), GridVec::new(-1, 0));
    assert_eq!(Direction::default(), Direction::Up);
    assert_eq!(HeadDirection::default(), HeadDirection(Direction::Up));
}

#[test]
fn direction_update_takes_the_keys_in_turn() {
    let mut d = Direction::Up;
    d.update(&Input { go_left: true, ..Input::default() });
    assert_eq!(d, Direction::Left);
    // right is the reversal of left: refused
    d.update(&Input { go_right: true, ..Input::default() });
    assert_eq!(d, Direction::Left);
    // left is granted, then right is its reversal and ends the turn
    let mut d = Direction::Up;
    d.update(&Input { go_left: true, go_right: true, go_up: true, ..Input::default() });
    assert_eq!(d, Direction::Left);
    // right is granted, then up is granted over it
    let mut d = Direction::Up;
    d.update(&Input { go_right: true, go_up: true, ..Input::default() });
    assert_eq!(d, Direction::Up);
    // down is the reversal of up: refused, and up is not looked at
    let mut d = Direction::Up;
    d.update(&Input { go_down: true, go_up: true, ..Input::default() });
    assert_eq!(d, Direction::Up);
    let mut d = Direction::Right;
    d.update(&Input { go_down: true, go_up: true, ..Input::default() });
    assert_eq!(d, Direction::Down);
    let mut d = Direction::Right;
    d.update(&Input::default());
    assert_eq!(d, Direction::Right);
}

#[test]
fn input_direction_priority() {
    assert_eq!(Input::default().direction(), None);
    let all = Input { go_left: true, go_right: true, go_down: true, go_up: true, ..Input::default() };
    assert_eq!(all.direction(), Some(Direction::Left));
    let no_left = Input { go_left: false, ..all };
    assert_eq!(no_left.direction(), Some(Direction::Right));
    let down_up = Input { go_down: true, go_up: true, ..Input::default() };
    assert_eq!(down_up.direction(), Some(Direction::Down));
    let up = Input { go_up: true, ..Input::default() };
    assert_eq!(up.direction(), Some(Direction::Up));
}

#[test]
fn input_reset_keeps_the_size() {
    let mut input = Input {
        go_left: true,
        go_right: true,
        go_up: true,
        go_down: true,
        go_back: true,
        pause: true,
        width: 640,
        height: 480,
        resized: true,
    };
    input.reset();
    assert_eq!(input, Input { width: 640, height: 480, ..Input::default() });
}

#[test]
fn keys_set_the_requests() {
    let mut input = Input::default();
    input.key_down(Key::A, false);
    assert_eq!(input, Input { go_left: true, ..Input::default() });
    input.key_down(Key::Right, false);
    input.key_down(Key::W, false);
    input.key_down(Key::Down, false);
    assert!(input.go_left && input.go_right && input.go_up && input.go_down);
    assert!(!input.pause && !input.go_back);
    let mut input = Input::default();
    input.key_down(Key::Escape, false);
    assert_eq!(input, Input { pause: true, go_back: true, ..Input::default() });
    let mut input = Input::default();
    input.key_down(Key::Escape, true);
    input.key_down(Key::Left, true);
    input.key_down(Key::Other, false);
    assert_eq!(input, Input::default());
    for (key, want) in [
        (Key::Left, Direction::Left),
        (Key::D, Direction::Right),
        (Key::Up, Direction::Up),
        (Key::S, Direction::Down),
    ] {
        let mut input = Input::default();
        input.key_down(key, false);
        assert_eq!(input.direction(), Some(want));
    }
}

#[test]
fn resize_is_noted() {
    let mut input = Input { go_up: true, ..Input::default() };
    input.resize(1024, 768);
    assert_eq!(input, Input { go_up: true, width: 1024, height: 768, resized: true, ..Input::default() });
}

#[test]
fn grid_vectors() {
    let a = GridVec::new(3, -4);
    assert_eq!(a.plus(GridVec::new(-1, 1)), GridVec::new(2, -3));
    assert!(GridVec::new(0, 1).opposes(&GridVec::new(0, -1)));
    assert!(!GridVec::new(0, 1).opposes(&GridVec::new(0, 1)));
    assert!(!GridVec::new(0, 1).opposes(&GridVec::new(1, -1)));
    assert!(GridVec::new(i32::MIN, 0).opposes(&GridVec::new(i32::MIN, 0)) == false);
    assert!(GridVec::new(5, 6).is_step_from(&GridVec::new(5, 5), &GridVec::new(0, 1)));
    assert!(!GridVec::new(5, 5).is_step_from(&GridVec::new(5, 5), &GridVec::new(0, 1)));
    assert!(!GridVec::new(i32::MIN, 0).is_step_from(&GridVec::new(i32::MAX, 0), &GridVec::new(1, 0)));
}

#[test]
fn collision_marks() {
    assert_eq!(Collision::snake().kind, CollsionKind::Snake);
    assert_eq!(Collision::food().kind, CollsionKind::Food);
}

#[test]
fn text_and_its_load_command() {
    let (cmd, text) = Text::create_text("Hello");
    assert_eq!(text.text(), "Hello");
    assert_eq!(text.font(), "KenneyFuture");
    match cmd {
        RenderAssetCommands::LoadText { text, font } => {
            assert_eq!(text, "Hello");
            assert_eq!(font, "KenneyFuture");
        }
        _ => panic!("a request to load a text was expected"),
    }
    let text = Text::new("");
    assert_eq!(text.text(), "");
    match text.load_command() {
        RenderAssetCommands::LoadText { text, font } => {
            assert_eq!(text, "");
            assert_eq!(font, "KenneyFuture");
        }
        _ => panic!("a request to load a text was expected"),
    }
    let other = text.with_string("Bye".to_string());
    assert_eq!(other.text(), "Bye");
    assert_eq!(other.font(), "KenneyFuture");
    assert_eq!(other.clone().text(), "Bye");
}

#[test]
fn score_is_written_in_decimal() {
    assert_eq!(score_text(0), "Score:  0");
    assert_eq!(score_text(7), "Score:  7");
    assert_eq!(score_text(10), "Score:  10");
    assert_eq!(score_text(1203), "Score:  1203");
    assert_eq!(score_text(-5), "Score:  -5");
    assert_eq!(score_text(i32::MAX), "Score:  2147483647");
    assert_eq!(score_text(i32::MIN), "Score:  -2147483648");
    for n in [0, 9, 99, 100, 4711, -1, -10, -4711] {
        let expected = format!("Score:  {}", n);
        assert_eq!(score_text(n), expected);
    }
}

#[test]
fn score_counts_every_meal_of_the_queue() {
    let mut cmds = Vec::new();
    let mut state = GameState::new(0, &mut cmds);
    place_food(&mut state.game_world, GridVec::new(1, 1));
    let food = state.game_world.obstacles().into_iter().find(|o| o.2.kind == CollsionKind::Food).unwrap();
    let mut score = 41;
    update_score_system(&mut state.game_world, &mut score, &mut cmds);
    assert_eq!(score, 41);
    assert_eq!(cmds.len(), 1);
    assert_eq!(state.game_world.labels()[0].0.text(), "Score:  0");
    state.game_world.events.push(Event::SnakeEatFood { entity: food.0, pos: food.1 .0 });
    state.game_world.events.push(Event::GameOver);
    state.game_world.events.push(Event::SnakeEatFood { entity: food.0, pos: food.1 .0 });
    update_score_system(&mut state.game_world, &mut score, &mut cmds);
    assert_eq!(score, 43);
    assert_eq!(state.game_world.events.len(), 3);
    assert_eq!(state.game_world.labels()[0].0.text(), "Score:  43");
    assert_eq!(state.game_world.labels()[0].0.font(), "KenneyFuture");
    assert_eq!(cmds.len(), 2);
    match &cmds[1] {
        RenderAssetCommands::UpdateText { new_text, text, font } => {
            assert_eq!(new_text, "Score:  43");
            assert_eq!(text, "Score:  0");
            assert_eq!(font, "KenneyFuture");
        }
        _ => panic!("a request to update a text was expected"),
    }
}

#[test]
fn score_without_a_display_only_counts() {
    let mut world = GameWorld::new();
    place_food(&mut world, GridVec::new(1, 1));
    let food = world.obstacles()[0];
    world.events.push(Event::SnakeEatFood { entity: food.0, pos: food.1 .0 });
    let mut score = 0;
    let mut cmds = Vec::new();
    update_score_system(&mut world, &mut score, &mut cmds);
    assert_eq!(score, 1);
    assert!(cmds.is_empty());
}

#[test]
fn ascii_list_holds_the_first_255_characters() {
    let list = ascii_character_list();
    assert_eq!(list.len(), 255);
    assert_eq!(list[0], '\0');
    assert_eq!(list[65], 'A');
    assert_eq!(list[97], 'a');
    assert_eq!(list[254], '\u{fe}');
    for (i, c) in list.iter().enumerate() {
        assert_eq!(*c as usize, i);
    }
}

#[test]
fn asset_names() {
    assert_eq!(AssetType::Food.name(), "Food");
    assert_eq!(AssetType::Snake.name(), "Snake");
    assert_eq!(AssetType::Tail.name(), "Tail");
    assert_eq!(AssetType::Arrow.name(), "Arrow");
}

#[test]
fn identity_depends_on_the_name_alone() {
    let a: AssetIdentity = "Food".into();
    let b: AssetIdentity = String::from("Food").into();
    let c: AssetIdentity = AssetType::Food.into();
    let d = Identity::of("Food");
    assert_eq!(a, b);
    assert_eq!(a, c);
    assert_eq!(a, d);
    let other: AssetIdentity = "Snake".into();
    assert_ne!(a, other);
    assert_ne!(AssetIdentity::from(AssetType::Tail), AssetIdentity::from(AssetType::Arrow));
    assert_ne!(AssetIdentity::of(""), AssetIdentity::of("a"));
}

#[test]
fn window_defaults() {
    let params = WindowParams::default();
    assert_eq!(params.label, "");
    assert!(params.movable);
    assert!(!params.close_button);
    assert!(params.titlebar);
}
