use snek::app::App;
use snek::app_owned_data::{AppOwnedData, Capability, GameObject, InputEvent, Key, TickSignal, Time};
use snek::board::{Board, Position};
use snek::collider::{intersects_any, ColliderLayer, ColliderType, AABB};
use snek::food::Food;
use snek::snek::{DirKeypoint, MoveDir, Snek, INIT_LENGTH, INIT_SPEED, LENGTH_PER_FOOD, MAX_SPEED};

fn frame(delta: u64) -> Time {
    Time { delta, elapsed: 0 }
}

fn placed_snek(board: &Board) -> Snek {
    let mut s = Snek::new();
    s.on_setup(board);
    s
}

fn press(key: Key) -> InputEvent {
    InputEvent::Keyboard { key, pressed: true, repeat: false }
}

fn is_midpoint(board: &Board, p: Position) -> bool {
    board.midpoints.iter().any(|(y, row)| *y == p.y && row.iter().any(|x| *x == p.x))
}

#[test]
fn board_of_sixteen_by_sixteen() {
    let board = Board::new(400, 400, 25);
    assert_eq!(board.midpoints.len(), 16);
    for (i, (y, row)) in board.midpoints.iter().enumerate() {
        assert_eq!(*y, i as i64 * 25_000 + 12_500);
        assert_eq!(row.len(), 16);
        for (j, x) in row.iter().enumerate() {
            assert_eq!(*x, j as i64 * 25_000 + 12_500);
        }
    }
    assert_eq!(board.width, 400_000);
    assert_eq!(board.height, 400_000);
    assert_eq!(board.grid_size, 25_000);
}

#[test]
fn board_drops_partial_cells() {
    let board = Board::new(410, 390, 25);
    assert_eq!(board.midpoints.len(), 15);
    assert_eq!(board.midpoints[0].1.len(), 16);
    assert_eq!(board.width, 400_000);
    assert_eq!(board.height, 375_000);
}

#[test]
fn board_smaller_than_a_cell_is_empty() {
    let board = Board::new(20, 20, 25);
    assert_eq!(board.midpoints.len(), 0);
    assert_eq!(board.width, 0);
    assert_eq!(board.current_midpts(Position { x: 0, y: 0 }), None);
}

#[test]
fn midpoint_lookup() {
    let board = Board::new(400, 400, 25);
    assert_eq!(
        board.current_midpts(Position { x: 0, y: 0 }),
        Some(Position { x: 12_500, y: 12_500 })
    );
    assert_eq!(
        board.current_midpts(Position { x: 399_999, y: 25_000 }),
        Some(Position { x: 387_500, y: 37_500 })
    );
    assert_eq!(board.current_midpts(Position { x: 400_000, y: 0 }), None);
    assert_eq!(board.current_midpts(Position { x: 0, y: 400_000 }), None);
    assert_eq!(board.current_midpts(Position { x: -1, y: 0 }), None);
}

#[test]
fn boxes_touching_at_an_edge_intersect() {
    let a = AABB::new(Position { x: 0, y: 0 }, Position { x: 10, y: 10 });
    let b = AABB::new(Position { x: 10, y: 5 }, Position { x: 20, y: 8 });
    let c = AABB::new(Position { x: 11, y: 0 }, Position { x: 20, y: 10 });
    assert!(a.intersects(&b));
    assert!(b.intersects(&a));
    assert!(!a.intersects(&c));
    assert!(!c.intersects(&a));
    let boxes = vec![ColliderType::AABB(c), ColliderType::AABB(b)];
    assert!(intersects_any(&a, &boxes, 0));
    assert!(!intersects_any(&a, &boxes, 2));
    assert!(!intersects_any(&a, &vec![ColliderType::AABB(c)], 0));
}

#[test]
fn directions_invert() {
    assert_eq!(MoveDir::Up.invert(), MoveDir::Down);
    assert_eq!(MoveDir::Down.invert(), MoveDir::Up);
    assert_eq!(MoveDir::Left.invert(), MoveDir::Right);
    assert_eq!(MoveDir::Right.invert(), MoveDir::Left);
}

#[test]
fn setup_places_snake_at_centre() {
    let board = Board::new(400, 400, 25);
    let s = placed_snek(&board);
    assert_eq!(s.position, Position { x: 200_000, y: 200_000 });
    assert_eq!(s.radius, 12_500);
    assert_eq!(s.speed, INIT_SPEED);
    assert_eq!(s.length, INIT_LENGTH);
    assert_eq!(s.dir, MoveDir::Left);
}

#[test]
fn snake_clamps_at_right_wall() {
    let board = Board::new(400, 400, 25);
    let mut s = placed_snek(&board);
    s.dir = MoveDir::Right;
    s.on_tick(&frame(10_000_000), &board);
    assert_eq!(s.position.x, 387_500);
    assert_eq!(s.position.y, 200_000);
}

#[test]
fn snake_moves_speed_times_time() {
    let board = Board::new(400, 400, 25);
    let mut s = placed_snek(&board);
    s.dir = MoveDir::Up;
    let signal = s.on_tick(&frame(250_000), &board);
    assert_eq!(signal, TickSignal::Continue);
    assert_eq!(s.position, Position { x: 200_000, y: 230_000 });
    s.dir = MoveDir::Down;
    s.on_tick(&frame(500_000), &board);
    assert_eq!(s.position, Position { x: 200_000, y: 170_000 });
}

#[test]
fn edge_dwell_ends_the_life() {
    let board = Board::new(400, 400, 25);
    let mut s = placed_snek(&board);
    s.dir = MoveDir::Right;
    s.position.x = 387_500;
    assert_eq!(s.on_tick(&frame(50_000), &board), TickSignal::Continue);
    assert_eq!(s.in_edge, 50_000);
    assert_eq!(s.on_tick(&frame(50_000), &board), TickSignal::Continue);
    assert_eq!(s.in_edge, 100_000);
    assert_eq!(s.on_tick(&frame(50_000), &board), TickSignal::GameOver);
    assert!(s.game_over);
    assert_eq!(s.on_tick(&frame(50_000), &board), TickSignal::GameOver);
}

#[test]
fn leaving_the_wall_resets_dwell() {
    let board = Board::new(400, 400, 25);
    let mut s = placed_snek(&board);
    s.dir = MoveDir::Right;
    s.position.x = 387_500;
    s.on_tick(&frame(50_000), &board);
    s.on_tick(&frame(50_000), &board);
    assert_eq!(s.in_edge, 100_000);
    s.dir = MoveDir::Up;
    assert_eq!(s.on_tick(&frame(10_000), &board), TickSignal::Continue);
    assert_eq!(s.in_edge, 0);
    s.dir = MoveDir::Right;
    assert_eq!(s.on_tick(&frame(50_000), &board), TickSignal::Continue);
    assert_eq!(s.in_edge, 50_000);
    assert!(!s.game_over);
}

#[test]
fn fresh_snake_collider_reaches_back_one_length() {
    let board = Board::new(400, 400, 25);
    let s = placed_snek(&board);
    let boxes = s.collider();
    assert_eq!(boxes.len(), 1);
    let ColliderType::AABB(b) = boxes[0];
    assert_eq!(b.min, Position { x: 188_750, y: 188_750 });
    assert_eq!(b.max, Position { x: 300_000, y: 211_250 });
}

#[test]
fn turn_waits_for_a_cell_centre() {
    let board = Board::new(400, 400, 25);
    let mut s = placed_snek(&board);
    s.on_input(&press(Key::ArrowUp), &board);
    assert_eq!(s.dir_candidate, Some(MoveDir::Up));
    assert_eq!(s.dir, MoveDir::Left);
    s.on_tick(&frame(50_000), &board);
    assert_eq!(s.position, Position { x: 194_000, y: 200_000 });
    assert_eq!(s.dir, MoveDir::Left);
    assert_eq!(s.dir_candidate, Some(MoveDir::Up));
    s.on_tick(&frame(50_000), &board);
    assert_eq!(s.position, Position { x: 187_500, y: 200_000 });
    assert_eq!(s.dir, MoveDir::Up);
    assert_eq!(s.dir_candidate, None);
    assert_eq!(s.dir_keypoints.len(), 1);
    assert_eq!(
        s.dir_keypoints[0],
        DirKeypoint { from: MoveDir::Right, at: Position { x: 187_500, y: 200_000 }, dst_head: 0 }
    );
    s.on_tick(&frame(100_000), &board);
    assert_eq!(s.position, Position { x: 187_500, y: 212_000 });
    assert_eq!(s.dir_keypoints[0].dst_head, 12_000);
    let pts = s.get_keypoints();
    assert_eq!(pts.len(), 2);
    assert_eq!(pts[1], DirKeypoint { from: MoveDir::Down, at: s.position, dst_head: 0 });
    let boxes = s.collider();
    assert_eq!(boxes.len(), 2);
    let ColliderType::AABB(seg) = boxes[0];
    assert_eq!(seg.min, Position { x: 176_250, y: 188_750 });
    assert_eq!(seg.max, Position { x: 198_750, y: 223_250 });
    let ColliderType::AABB(tail) = boxes[1];
    assert_eq!(tail.min, Position { x: 176_250, y: 188_750 });
    assert_eq!(tail.max, Position { x: 275_500, y: 211_250 });
}

#[test]
fn old_turning_points_are_dropped() {
    let board = Board::new(400, 400, 25);
    let mut s = placed_snek(&board);
    s.on_input(&press(Key::KeyW), &board);
    s.on_tick(&frame(50_000), &board);
    s.on_tick(&frame(50_000), &board);
    assert_eq!(s.dir_keypoints.len(), 1);
    s.on_tick(&frame(500_000), &board);
    assert_eq!(s.dir_keypoints[0].dst_head, 60_000);
    s.on_tick(&frame(500_000), &board);
    assert_eq!(s.dir_keypoints.len(), 0);
}

#[test]
fn reverse_and_repeated_keys_are_ignored() {
    let board = Board::new(400, 400, 25);
    let mut s = placed_snek(&board);
    s.on_input(&press(Key::ArrowRight), &board);
    assert_eq!(s.dir_candidate, None);
    s.on_input(&press(Key::KeyA), &board);
    assert_eq!(s.dir_candidate, None);
    s.on_input(&InputEvent::Keyboard { key: Key::ArrowDown, pressed: false, repeat: false }, &board);
    assert_eq!(s.dir_candidate, None);
    s.on_input(&InputEvent::Keyboard { key: Key::ArrowDown, pressed: true, repeat: true }, &board);
    assert_eq!(s.dir_candidate, None);
    s.on_input(&InputEvent::Other, &board);
    s.on_input(&press(Key::Other), &board);
    assert_eq!(s.dir_candidate, None);
    s.on_input(&press(Key::KeyS), &board);
    assert_eq!(s.dir_candidate, Some(MoveDir::Down));
    s.on_input(&press(Key::ArrowUp), &board);
    assert_eq!(s.dir_candidate, Some(MoveDir::Up));
    assert_eq!(s.dir, MoveDir::Left);
}

#[test]
fn no_turn_into_a_near_wall() {
    let board = Board::new(400, 400, 25);
    let mut s = placed_snek(&board);
    s.position.y = 380_000;
    s.on_input(&press(Key::ArrowUp), &board);
    assert_eq!(s.dir_candidate, None);
    s.position.y = 20_000;
    s.on_input(&press(Key::ArrowDown), &board);
    assert_eq!(s.dir_candidate, None);
    s.on_input(&press(Key::ArrowUp), &board);
    assert_eq!(s.dir_candidate, Some(MoveDir::Up));
}

#[test]
fn eating_grows_and_speeds_up() {
    let board = Board::new(400, 400, 25);
    let mut s = placed_snek(&board);
    let food = vec![ColliderType::AABB(AABB::new(
        Position { x: 200_000, y: 200_000 },
        Position { x: 225_000, y: 225_000 },
    ))];
    s.check_collision(ColliderLayer::Food, &food);
    assert_eq!(s.length, INIT_LENGTH + LENGTH_PER_FOOD);
    assert_eq!(s.speed, 123_000);
    s.check_collision(ColliderLayer::Player, &food);
    assert_eq!(s.length, 110_000);
    for _ in 0..20 {
        s.check_collision(ColliderLayer::Food, &food);
    }
    assert_eq!(s.length, 310_000);
    assert_eq!(s.speed, MAX_SPEED);
    assert!(!s.game_over);
}

#[test]
fn missing_food_changes_nothing() {
    let board = Board::new(400, 400, 25);
    let mut s = placed_snek(&board);
    let far = vec![ColliderType::AABB(AABB::new(
        Position { x: 0, y: 0 },
        Position { x: 25_000, y: 25_000 },
    ))];
    s.check_collision(ColliderLayer::Food, &far);
    assert_eq!(s.length, INIT_LENGTH);
    assert_eq!(s.speed, INIT_SPEED);
}

#[test]
fn faster_snake_snaps_from_further() {
    let board = Board::new(400, 400, 25);
    let mut s = placed_snek(&board);
    s.speed = 160_000;
    s.position.x = 192_400;
    s.on_input(&press(Key::ArrowUp), &board);
    s.on_tick(&frame(0), &board);
    assert_eq!(s.dir, MoveDir::Up);
    assert_eq!(s.position.x, 187_500);
    let mut slow = placed_snek(&board);
    slow.position.x = 192_400;
    slow.on_input(&press(Key::ArrowUp), &board);
    slow.on_tick(&frame(0), &board);
    assert_eq!(slow.dir, MoveDir::Left);
}

#[test]
fn head_meeting_old_body_ends_the_life() {
    let board = Board::new(400, 400, 25);
    let mut s = placed_snek(&board);
    s.length = 400_000;
    s.dir = MoveDir::Up;
    s.position = Position { x: 200_000, y: 212_500 };
    s.dir_keypoints.push_back(DirKeypoint {
        from: MoveDir::Up,
        at: Position { x: 200_000, y: 187_500 },
        dst_head: 100_000,
    });
    s.dir_keypoints.push_back(DirKeypoint {
        from: MoveDir::Left,
        at: Position { x: 225_000, y: 187_500 },
        dst_head: 75_000,
    });
    s.dir_keypoints.push_back(DirKeypoint {
        from: MoveDir::Down,
        at: Position { x: 225_000, y: 212_500 },
        dst_head: 50_000,
    });
    s.dir_keypoints.push_back(DirKeypoint {
        from: MoveDir::Right,
        at: Position { x: 200_000, y: 212_500 },
        dst_head: 25_000,
    });
    let far = vec![ColliderType::AABB(AABB::new(
        Position { x: 0, y: 0 },
        Position { x: 1_000, y: 1_000 },
    ))];
    s.check_collision(ColliderLayer::Player, &far);
    assert!(!s.game_over);
    s.check_collision(ColliderLayer::Food, &far);
    assert!(s.game_over);
    assert_eq!(s.on_tick(&frame(1_000), &board), TickSignal::GameOver);
}

#[test]
fn food_sits_on_a_cell_centre() {
    let board = Board::new(400, 400, 25);
    let mut f = Food::new();
    assert!(f.collided_with_player);
    f.on_setup(&board);
    assert!(is_midpoint(&board, f.position));
    assert_eq!(f.radius, 12_500);
    assert!(!f.collided_with_player);
    assert_eq!(f.layer(), ColliderLayer::Food);
    let boxes = f.collider();
    assert_eq!(boxes.len(), 1);
    let ColliderType::AABB(b) = boxes[0];
    assert_eq!(b.min, Position { x: f.position.x - 12_500, y: f.position.y - 12_500 });
    assert_eq!(b.max, Position { x: f.position.x + 12_500, y: f.position.y + 12_500 });
}

#[test]
fn eaten_food_moves_on_the_next_tick() {
    let board = Board::new(400, 400, 25);
    let mut f = Food::new();
    f.on_setup(&board);
    let before = f.position;
    let player = vec![ColliderType::AABB(AABB::new(
        Position { x: before.x - 5_000, y: before.y - 5_000 },
        Position { x: before.x + 5_000, y: before.y + 5_000 },
    ))];
    f.check_collision(ColliderLayer::Food, &player);
    assert!(!f.collided_with_player);
    f.check_collision(ColliderLayer::Player, &player);
    assert!(f.collided_with_player);
    assert_eq!(f.position, before);
    assert_eq!(f.on_tick(&frame(16_000), &board), TickSignal::Continue);
    assert!(!f.collided_with_player);
    assert!(is_midpoint(&board, f.position));
    let kept = f.position;
    f.on_tick(&frame(16_000), &board);
    assert_eq!(f.position, kept);
}

#[test]
fn food_placed_by_row_and_column() {
    let board = Board::new(400, 300, 25);
    let mut f = Food::new();
    f.place_at(&board, 3, 7);
    assert_eq!(f.position, Position { x: 187_500, y: 87_500 });
    f.place_at(&board, 11, 15);
    assert_eq!(f.position, Position { x: 387_500, y: 287_500 });
}

#[test]
fn owned_data_reports_capabilities() {
    let s = AppOwnedData::from(GameObject::Snek(Snek::new()));
    let f = AppOwnedData::from(GameObject::Food(Food::new()));
    assert!(s.is(Capability::Setup));
    assert!(s.is(Capability::Update));
    assert!(s.is(Capability::Input));
    assert!(s.is(Capability::Collide));
    assert!(f.is(Capability::Setup));
    assert!(f.is(Capability::Update));
    assert!(!f.is(Capability::Input));
    assert!(f.is(Capability::Collide));
    assert!(matches!(s.as_ref(), GameObject::Snek(_)));
    assert!(matches!(f.as_ref(), GameObject::Food(_)));
}

#[test]
fn owned_data_gives_mutable_access() {
    let mut s = AppOwnedData::from(GameObject::Snek(Snek::new()));
    if let GameObject::Snek(inner) = s.as_mut() {
        inner.length = 5;
    }
    match s.as_ref() {
        GameObject::Snek(inner) => assert_eq!(inner.length, 5),
        GameObject::Food(_) => panic!("wrong kind"),
    }
}

#[test]
fn registry_lists_capabilities_in_order() {
    let app = App::new(400, 400, 25);
    assert_eq!(app.owned_data.len(), 2);
    assert_eq!(app.owned_data_counter, 2);
    assert_eq!(app.updateable_ids, vec![0, 1]);
    assert_eq!(app.input_listener_ids, vec![0]);
    assert_eq!(app.collider_ids, vec![0, 1]);
    match app.owned_data[0].as_ref() {
        GameObject::Snek(s) => assert_eq!(s.position, Position { x: 200_000, y: 200_000 }),
        GameObject::Food(_) => panic!("snake expected first"),
    }
    match app.owned_data[1].as_ref() {
        GameObject::Food(f) => assert!(is_midpoint(&app.board, f.position)),
        GameObject::Snek(_) => panic!("food expected second"),
    }
}

#[test]
fn registry_hands_out_next_handle() {
    let mut app = App::new(400, 400, 25);
    app.take(AppOwnedData::from(GameObject::Food(Food::new())));
    assert_eq!(app.owned_data_counter, 3);
    assert_eq!(app.updateable_ids, vec![0, 1, 2]);
    assert_eq!(app.input_listener_ids, vec![0]);
    assert_eq!(app.collider_ids, vec![0, 1, 2]);
}

#[test]
fn registry_delivers_input_and_ticks() {
    let mut app = App::new(400, 400, 25);
    app.window_event(press(Key::ArrowDown));
    match app.owned_data[0].as_ref() {
        GameObject::Snek(s) => assert_eq!(s.dir_candidate, Some(MoveDir::Down)),
        GameObject::Food(_) => panic!("snake expected first"),
    }
    assert!(!app.render(frame(50_000)));
    match app.owned_data[0].as_ref() {
        GameObject::Snek(s) => {
            assert_eq!(s.position, Position { x: 194_000, y: 200_000 });
            assert!(!s.game_over);
        }
        GameObject::Food(_) => panic!("snake expected first"),
    }
}

#[test]
fn registry_resets_after_game_over() {
    let mut app = App::new(400, 400, 25);
    if let GameObject::Snek(s) = app.owned_data[0].as_mut() {
        s.game_over = true;
        s.length = 300_000;
    }
    assert!(app.render(frame(16_000)));
    assert_eq!(app.owned_data.len(), 2);
    match app.owned_data[0].as_ref() {
        GameObject::Snek(s) => {
            assert!(!s.game_over);
            assert_eq!(s.length, INIT_LENGTH);
            assert_eq!(s.position, Position { x: 200_000, y: 200_000 });
        }
        GameObject::Food(_) => panic!("snake expected first"),
    }
}

#[test]
fn registry_feeds_snake_and_marks_food() {
    let mut app = App::new(400, 400, 25);
    if let GameObject::Food(f) = app.owned_data[1].as_mut() {
        f.position = Position { x: 187_500, y: 187_500 };
    }
    app.collision_sweep();
    match app.owned_data[0].as_ref() {
        GameObject::Snek(s) => {
            assert_eq!(s.length, 110_000);
            assert_eq!(s.speed, 123_000);
        }
        GameObject::Food(_) => panic!("snake expected first"),
    }
    match app.owned_data[1].as_ref() {
        GameObject::Food(f) => {
            assert!(f.collided_with_player);
            assert_eq!(f.position, Position { x: 187_500, y: 187_500 });
        }
        GameObject::Snek(_) => panic!("food expected second"),
    }
    let over = app.update_pass(&frame(1_000));
    assert!(!over);
    match app.owned_data[1].as_ref() {
        GameObject::Food(f) => assert!(!f.collided_with_player),
        GameObject::Snek(_) => panic!("food expected second"),
    }
}
