use snake_game::components::{
    Collision, CollsionKind, Direction, GridVec, HeadDirection, Input, Position, Tail, Velocity,
};
use snake_game::events::Event;
use snake_game::systems::{
    add_food_system, create_snake_system, despawn_food_system, game_over_system,
    handle_collision_system, head_collision_system, movement_system, place_food,
    spawn_tail_system, tail_movement_system, trigger_tail_spawn, update_input,
    update_velocity_direction, GameWorld, NotFound, FOOD_CAP,
};

fn cell(x: i32, y: i32) -> GridVec {
    GridVec::new(x, y)
}

fn new_snake() -> (GameWorld, hecs::Entity, hecs::Entity) {
    let mut world = GameWorld::new();
    create_snake_system(&mut world);
    let head = world.heads()[0].0;
    let tail = world.tails()[0].0;
    (world, head, tail)
}

#[test]
fn new_world_is_empty() {
    let world = GameWorld::new();
    assert_eq!(world.len(), 0);
    assert!(world.events.is_empty());
    assert!(world.heads().is_empty());
    assert!(world.tails().is_empty());
    assert_eq!(world.food_count(), 0);
}

#[test]
fn create_snake_spawns_head_and_first_segment() {
    let (world, head, tail) = new_snake();
    assert_eq!(world.len(), 2);
    let heads = world.heads();
    assert_eq!(heads.len(), 1);
    assert_eq!(heads[0].1, Position(cell(0, 0)));
    assert_eq!(heads[0].2, Velocity(cell(0, 1)));
    let dirs = world.directions();
    assert_eq!(dirs.len(), 1);
    assert_eq!(dirs[0].0, head);
    assert_eq!(dirs[0].1, HeadDirection(Direction::Up));
    let tails = world.tails();
    assert_eq!(tails.len(), 1);
    assert_eq!(tails[0].0, tail);
    assert_eq!(tails[0].1.segment, 1);
    assert_eq!(tails[0].1.ahead, head);
    assert_eq!(tails[0].2, Position(cell(0, -1)));
    let obstacles = world.obstacles();
    assert_eq!(obstacles.len(), 1);
    assert_eq!(obstacles[0].0, tail);
    assert_eq!(obstacles[0].2, Collision { kind: CollsionKind::Snake });
}

#[test]
fn first_segment_follows_the_head() {
    let (world, head, _) = new_snake();
    let firsts: Vec<_> = world.tails().into_iter().filter(|t| t.1.segment == 1).collect();
    assert_eq!(firsts.len(), 1);
    assert_eq!(firsts[0].1.ahead, head);
}

#[test]
fn spawn_then_despawn_leaves_nothing() {
    let mut world = GameWorld::new();
    let ahead = {
        create_snake_system(&mut world);
        world.heads()[0].0
    };
    world.clear();
    assert_eq!(world.len(), 0);
    let e = world.spawn_tail(Tail { segment: 7, ahead }, cell(3, 4));
    assert!(world.contains(e));
    assert_eq!(world.len(), 1);
    assert_eq!(world.tails().len(), 1);
    assert_eq!(world.position_of(e), Some(Position(cell(3, 4))));
    assert_eq!(world.despawn(e), Ok(()));
    assert!(!world.contains(e));
    assert_eq!(world.len(), 0);
    assert!(world.tails().is_empty());
    assert!(world.obstacles().is_empty());
    assert_eq!(world.position_of(e), None);
    assert_eq!(world.despawn(e), Err(NotFound));
    assert_eq!(world.len(), 0);
}

#[test]
fn despawn_keeps_the_other_entities() {
    let (mut world, head, tail) = new_snake();
    place_food(&mut world, cell(5, 5));
    assert_eq!(world.len(), 3);
    assert_eq!(world.despawn(tail), Ok(()));
    assert_eq!(world.len(), 2);
    assert!(world.contains(head));
    assert_eq!(world.position_of(head), Some(Position(cell(0, 0))));
    assert_eq!(world.food_count(), 1);
    assert_eq!(world.despawn(tail), Err(NotFound));
}

#[test]
fn clear_removes_every_entity_and_keeps_the_events() {
    let (mut world, head, _) = new_snake();
    world.events.push(Event::GameOver);
    world.clear();
    assert_eq!(world.len(), 0);
    assert!(!world.contains(head));
    assert_eq!(world.events.len(), 1);
}

#[test]
fn input_sets_the_direction() {
    let (mut world, head, _) = new_snake();
    let input = Input { go_left: true, ..Input::default() };
    update_input(&mut world, &input);
    assert_eq!(world.directions(), vec![(head, HeadDirection(Direction::Left))]);
    let input = Input { go_right: true, ..Input::default() };
    update_input(&mut world, &input);
    assert_eq!(world.directions(), vec![(head, HeadDirection(Direction::Right))]);
    let input = Input { go_up: true, ..Input::default() };
    update_input(&mut world, &input);
    assert_eq!(world.directions(), vec![(head, HeadDirection(Direction::Up))]);
}

#[test]
fn reversal_of_the_velocity_is_rejected() {
    let (mut world, head, _) = new_snake();
    let input = Input { go_down: true, ..Input::default() };
    update_input(&mut world, &input);
    assert_eq!(world.directions(), vec![(head, HeadDirection(Direction::Up))]);
    assert_eq!(world.heads()[0].2, Velocity(cell(0, 1)));
}

#[test]
fn reversal_is_judged_by_the_velocity_not_the_direction() {
    let (mut world, head, _) = new_snake();
    update_input(&mut world, &Input { go_left: true, ..Input::default() });
    assert_eq!(world.directions(), vec![(head, HeadDirection(Direction::Left))]);
    // the velocity is still up, so down stays forbidden and right is allowed
    update_input(&mut world, &Input { go_down: true, ..Input::default() });
    assert_eq!(world.directions(), vec![(head, HeadDirection(Direction::Left))]);
    update_input(&mut world, &Input { go_right: true, ..Input::default() });
    assert_eq!(world.directions(), vec![(head, HeadDirection(Direction::Right))]);
}

#[test]
fn several_keys_left_wins() {
    let (mut world, head, _) = new_snake();
    let input =
        Input { go_left: true, go_right: true, go_up: true, go_down: true, ..Input::default() };
    update_input(&mut world, &input);
    assert_eq!(world.directions(), vec![(head, HeadDirection(Direction::Left))]);
}

#[test]
fn a_rejected_first_choice_is_not_replaced_by_a_later_one() {
    let (mut world, head, _) = new_snake();
    // down wins over up, and down is the reversal: nothing changes
    let input = Input { go_up: true, go_down: true, ..Input::default() };
    update_input(&mut world, &Input { go_left: true, ..Input::default() });
    update_input(&mut world, &input);
    assert_eq!(world.directions(), vec![(head, HeadDirection(Direction::Left))]);
}

#[test]
fn no_input_keeps_the_direction() {
    let (mut world, head, _) = new_snake();
    update_input(&mut world, &Input::default());
    assert_eq!(world.directions(), vec![(head, HeadDirection(Direction::Up))]);
}

#[test]
fn velocity_takes_the_direction() {
    let (mut world, _, _) = new_snake();
    update_input(&mut world, &Input { go_right: true, ..Input::default() });
    assert_eq!(world.heads()[0].2, Velocity(cell(0, 1)));
    update_velocity_direction(&mut world);
    assert_eq!(world.heads()[0].2, Velocity(cell(1, 0)));
    assert_eq!(world.heads()[0].1, Position(cell(0, 0)));
}

#[test]
fn movement_adds_the_velocity() {
    let (mut world, head, tail) = new_snake();
    movement_system(&mut world);
    assert_eq!(world.position_of(head), Some(Position(cell(0, 1))));
    assert_eq!(world.position_of(tail), Some(Position(cell(0, -1))));
    movement_system(&mut world);
    assert_eq!(world.position_of(head), Some(Position(cell(0, 2))));
}

#[test]
fn tail_takes_the_positions_from_before_the_move() {
    let (mut world, head, first) = new_snake();
    let second = world.spawn_tail(Tail { segment: 2, ahead: first }, cell(0, -2));
    let third = world.spawn_tail(Tail { segment: 3, ahead: second }, cell(0, -3));
    movement_system(&mut world);
    movement_system(&mut world);
    movement_system(&mut world);
    assert_eq!(world.position_of(head), Some(Position(cell(0, 3))));
    tail_movement_system(&mut world);
    assert_eq!(world.position_of(first), Some(Position(cell(0, 3))));
    assert_eq!(world.position_of(second), Some(Position(cell(0, -1))));
    assert_eq!(world.position_of(third), Some(Position(cell(0, -2))));
    assert_eq!(world.position_of(head), Some(Position(cell(0, 3))));
}

#[test]
fn tail_follow_does_not_depend_on_the_order_of_spawning() {
    let mut world = GameWorld::new();
    create_snake_system(&mut world);
    let head = world.heads()[0].0;
    let first = world.tails()[0].0;
    // spawn the third link before the second, so that the walk meets them
    // out of chain order
    let spare = world.spawn_tail(Tail { segment: 9, ahead: head }, cell(9, 9));
    let second = world.spawn_tail(Tail { segment: 2, ahead: first }, cell(0, -2));
    let third = world.spawn_tail(Tail { segment: 3, ahead: second }, cell(0, -3));
    assert_eq!(world.despawn(spare), Ok(()));
    tail_movement_system(&mut world);
    assert_eq!(world.position_of(first), Some(Position(cell(0, 0))));
    assert_eq!(world.position_of(second), Some(Position(cell(0, -1))));
    assert_eq!(world.position_of(third), Some(Position(cell(0, -2))));
}

#[test]
fn head_collision_records_what_is_ahead() {
    let (mut world, head, _) = new_snake();
    place_food(&mut world, cell(0, 1));
    place_food(&mut world, cell(1, 1));
    head_collision_system(&mut world);
    assert_eq!(world.events.len(), 1);
    match world.events[0] {
        Event::Collision { target, source, pos, kind } => {
            assert_eq!(source, head);
            assert_eq!(pos, cell(0, 1));
            assert_eq!(kind, CollsionKind::Food);
            assert_eq!(world.position_of(target), Some(Position(cell(0, 1))));
        }
        _ => panic!("a collision was expected"),
    }
    // detection moves and despawns nothing
    assert_eq!(world.len(), 4);
    assert_eq!(world.position_of(head), Some(Position(cell(0, 0))));
    assert_eq!(world.food_count(), 2);
}

#[test]
fn head_collision_records_every_obstacle_on_the_cell() {
    let (mut world, _, _) = new_snake();
    place_food(&mut world, cell(0, 1));
    place_food(&mut world, cell(0, 1));
    head_collision_system(&mut world);
    assert_eq!(world.events.len(), 2);
}

#[test]
fn head_collision_without_a_head_does_nothing() {
    let mut world = GameWorld::new();
    place_food(&mut world, cell(0, 1));
    head_collision_system(&mut world);
    assert!(world.events.is_empty());
}

#[test]
fn head_collision_with_nothing_ahead_records_nothing() {
    let (mut world, _, _) = new_snake();
    place_food(&mut world, cell(0, 2));
    head_collision_system(&mut world);
    assert!(world.events.is_empty());
}

#[test]
fn collisions_are_replaced_by_their_responses() {
    let (mut world, head, tail) = new_snake();
    place_food(&mut world, cell(4, 2));
    let food = world.obstacles().into_iter().find(|o| o.2.kind == CollsionKind::Food).unwrap().0;
    world.events.push(Event::Noop);
    world.events.push(
        Event::Collision { target: food, source: head, pos: cell(0, 0), kind: CollsionKind::Food },
    );
    world.events.push(Event::GameOver);
    world.events.push(
        Event::Collision { target: tail, source: head, pos: cell(0, -1), kind: CollsionKind::Snake },
    );
    handle_collision_system(&mut world);
    assert_eq!(world.events.len(), 4);
    assert!(matches!(world.events[0], Event::Noop));
    assert!(matches!(world.events[1], Event::GameOver));
    match world.events[2] {
        Event::SnakeEatFood { entity, pos } => {
            assert_eq!(entity, food);
            // the position is that of the target, not that of the collision
            assert_eq!(pos, cell(4, 2));
        }
        _ => panic!("a meal was expected"),
    }
    assert!(matches!(world.events[3], Event::GameOver));
    assert_eq!(world.len(), 3);
}

#[test]
fn a_meal_asks_for_a_segment_behind_the_tip() {
    let (mut world, head, first) = new_snake();
    let second = world.spawn_tail(Tail { segment: 2, ahead: first }, cell(0, -2));
    world.events.push(Event::SnakeEatFood { entity: head, pos: cell(0, 0) });
    trigger_tail_spawn(&mut world);
    assert_eq!(world.events.len(), 2);
    match world.events[1] {
        Event::SpawnSnakeTail { ahead, pos, segment } => {
            assert_eq!(ahead, second);
            assert_eq!(pos, cell(0, -2));
            assert_eq!(segment, 3);
        }
        _ => panic!("a request for a segment was expected"),
    }
}

#[test]
fn two_meals_ask_for_the_same_segment_twice() {
    let (mut world, head, first) = new_snake();
    world.events.push(Event::SnakeEatFood { entity: head, pos: cell(0, 0) });
    world.events.push(Event::GameOver);
    world.events.push(Event::SnakeEatFood { entity: head, pos: cell(0, 0) });
    trigger_tail_spawn(&mut world);
    assert_eq!(world.events.len(), 5);
    for i in 3..5 {
        match world.events[i] {
            Event::SpawnSnakeTail { ahead, pos, segment } => {
                assert_eq!(ahead, first);
                assert_eq!(pos, cell(0, -1));
                assert_eq!(segment, 2);
            }
            _ => panic!("a request for a segment was expected"),
        }
    }
}

#[test]
fn of_equal_segments_the_last_in_the_walk_is_the_tip() {
    let (mut world, head, first) = new_snake();
    let a = world.spawn_tail(Tail { segment: 5, ahead: first }, cell(1, 0));
    let b = world.spawn_tail(Tail { segment: 5, ahead: first }, cell(2, 0));
    let tails = world.tails();
    let last = tails.iter().filter(|t| t.1.segment == 5).last().unwrap().0;
    assert!(last == a || last == b);
    world.events.push(Event::SnakeEatFood { entity: head, pos: cell(0, 0) });
    trigger_tail_spawn(&mut world);
    match world.events[1] {
        Event::SpawnSnakeTail { ahead, segment, .. } => {
            assert_eq!(ahead, last);
            assert_eq!(segment, 6);
        }
        _ => panic!("a request for a segment was expected"),
    }
}

#[test]
fn no_meal_no_growth() {
    let (mut world, _, _) = new_snake();
    world.events.push(Event::GameOver);
    trigger_tail_spawn(&mut world);
    assert_eq!(world.events.len(), 1);
}

#[test]
fn no_tail_no_growth() {
    let mut world = GameWorld::new();
    place_food(&mut world, cell(0, 0));
    let food = world.obstacles()[0].0;
    world.events.push(Event::SnakeEatFood { entity: food, pos: cell(0, 0) });
    trigger_tail_spawn(&mut world);
    assert_eq!(world.events.len(), 1);
}

#[test]
fn requested_segments_are_spawned() {
    let (mut world, _, first) = new_snake();
    world.events.push(Event::SpawnSnakeTail { ahead: first, pos: cell(3, 3), segment: 2 });
    world.events.push(Event::Noop);
    spawn_tail_system(&mut world);
    assert_eq!(world.len(), 3);
    assert_eq!(world.events.len(), 2);
    let tails = world.tails();
    let new: Vec<_> = tails.iter().filter(|t| t.1.segment == 2).collect();
    assert_eq!(new.len(), 1);
    assert_eq!(new[0].1.ahead, first);
    assert_eq!(new[0].2, Position(cell(3, 3)));
    let marks: Vec<_> = world.obstacles().into_iter().filter(|o| o.0 == new[0].0).collect();
    assert_eq!(marks.len(), 1);
    assert_eq!(marks[0].2, Collision { kind: CollsionKind::Snake });
}

#[test]
fn eaten_food_is_despawned() {
    let (mut world, head, _) = new_snake();
    place_food(&mut world, cell(1, 1));
    place_food(&mut world, cell(2, 2));
    let foods: Vec<_> =
        world.obstacles().into_iter().filter(|o| o.2.kind == CollsionKind::Food).collect();
    assert_eq!(foods.len(), 2);
    world.events.push(Event::SnakeEatFood { entity: foods[0].0, pos: foods[0].1 .0 });
    despawn_food_system(&mut world);
    assert_eq!(world.food_count(), 1);
    assert!(!world.contains(foods[0].0));
    assert!(world.contains(foods[1].0));
    assert!(world.contains(head));
    assert_eq!(world.events.len(), 1);
}

#[test]
fn game_over_starts_anew() {
    let (mut world, old_head, old_tail) = new_snake();
    place_food(&mut world, cell(1, 1));
    movement_system(&mut world);
    world.events.push(Event::Noop);
    world.events.push(Event::GameOver);
    assert!(game_over_system(&mut world));
    assert_eq!(world.len(), 2);
    assert_eq!(world.food_count(), 0);
    let heads = world.heads();
    assert_eq!(heads.len(), 1);
    assert_eq!(heads[0].1, Position(cell(0, 0)));
    assert_eq!(heads[0].2, Velocity(cell(0, 1)));
    let tails = world.tails();
    assert_eq!(tails.len(), 1);
    assert_eq!(tails[0].1.segment, 1);
    assert_eq!(tails[0].1.ahead, heads[0].0);
    assert_eq!(tails[0].2, Position(cell(0, -1)));
    assert_eq!(world.events.len(), 2);
    // no handle from before the reset names an entity after it
    assert!(!world.contains(old_head));
    assert!(!world.contains(old_tail));
    assert_eq!(world.position_of(old_head), None);
    assert_eq!(world.position_of(old_tail), None);
    assert_ne!(heads[0].0, old_head);
    assert_ne!(tails[0].0, old_tail);
    assert_eq!(world.despawn(old_head), Err(NotFound));
}

#[test]
fn handles_stay_dead_over_many_resets() {
    let (mut world, first_head, first_tail) = new_snake();
    let mut seen = vec![first_head, first_tail];
    for _ in 0..20 {
        place_food(&mut world, cell(2, 2));
        seen.push(world.obstacles().into_iter().find(|o| o.2.kind == CollsionKind::Food).unwrap().0);
        world.events.clear();
        world.events.push(Event::GameOver);
        assert!(game_over_system(&mut world));
        assert_eq!(world.len(), 2);
        for old in seen.iter() {
            assert!(!world.contains(*old));
        }
        seen.push(world.heads()[0].0);
        seen.push(world.tails()[0].0);
    }
}

#[test]
fn clear_kills_the_handles() {
    let (mut world, head, tail) = new_snake();
    world.clear();
    create_snake_system(&mut world);
    assert_eq!(world.len(), 2);
    assert!(!world.contains(head));
    assert!(!world.contains(tail));
    assert_ne!(world.heads()[0].0, head);
}

#[test]
fn without_game_over_nothing_is_reset() {
    let (mut world, head, _) = new_snake();
    movement_system(&mut world);
    world.events.push(Event::Noop);
    assert!(!game_over_system(&mut world));
    assert_eq!(world.len(), 2);
    assert_eq!(world.position_of(head), Some(Position(cell(0, 1))));
}

#[test]
fn food_is_placed_on_the_cell() {
    let mut world = GameWorld::new();
    place_food(&mut world, cell(-7, 12));
    assert_eq!(world.food_count(), 1);
    let obstacles = world.obstacles();
    assert_eq!(obstacles.len(), 1);
    assert_eq!(obstacles[0].1, Position(cell(-7, 12)));
    assert_eq!(obstacles[0].2, Collision { kind: CollsionKind::Food });
}

#[test]
fn food_never_exceeds_the_cap() {
    let mut world = GameWorld::new();
    for round in 0..50 {
        add_food_system(&mut world);
        let expected = if round < FOOD_CAP { round + 1 } else { FOOD_CAP };
        assert_eq!(world.food_count(), expected);
    }
    assert_eq!(world.food_count(), 10);
    assert_eq!(world.len(), 10);
}

#[test]
fn food_appears_on_the_field() {
    let mut world = GameWorld::new();
    for _ in 0..10 {
        add_food_system(&mut world);
    }
    let obstacles = world.obstacles();
    assert_eq!(obstacles.len(), 10);
    for (_, position, collision) in obstacles {
        assert_eq!(collision.kind, CollsionKind::Food);
        assert!(-24 <= position.0.x && position.0.x <= 24);
        assert!(-15 <= position.0.y && position.0.y <= 15);
    }
}

#[test]
fn food_is_added_again_after_a_meal() {
    let mut world = GameWorld::new();
    for _ in 0..12 {
        add_food_system(&mut world);
    }
    let food = world.obstacles()[0];
    world.events.push(Event::SnakeEatFood { entity: food.0, pos: food.1 .0 });
    despawn_food_system(&mut world);
    assert_eq!(world.food_count(), 9);
    add_food_system(&mut world);
    assert_eq!(world.food_count(), 10);
}

#[test]
fn food_cells_are_drawn_by_chance() {
    let mut world = GameWorld::new();
    for _ in 0..10 {
        add_food_system(&mut world);
    }
    let cells: Vec<GridVec> = world.obstacles().into_iter().map(|o| o.1 .0).collect();
    assert_eq!(cells.len(), 10);
    assert!(cells.iter().any(|c| c.x != cells[0].x));
    assert!(cells.iter().any(|c| c.y != cells[0].y));
    assert!(cells.iter().any(|c| c.x != -24 && c.x != 24));
    assert!(cells.iter().any(|c| c.y != -15 && c.y != 15));
}
