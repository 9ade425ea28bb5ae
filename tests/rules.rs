use snake::{food_distances, wall_distances, Coord, Direction, Snake};

fn c(x: u8, y: u8) -> Coord {
    Coord { x, y }
}

fn partition_holds(game: &Snake) -> bool {
    let body = game.body();
    let size = game.size();
    for x in 0..size {
        for y in 0..size {
            let cell = c(x, y);
            if game.is_free(cell) == body.contains(&cell) {
                return false;
            }
        }
    }
    true
}

#[test]
fn initial_state() {
    let game = Snake::new(0, 10);
    assert_eq!(game.body(), vec![c(5, 4), c(4, 4)]);
    assert_eq!(game.current_direction(), Direction::Right);
    assert_eq!(game.length(), 2);
    assert!(game.is_free(game.food_cell()));
    assert!(partition_holds(&game));
}

#[test]
fn smallest_board() {
    let game = Snake::new(3, 2);
    assert_eq!(game.body(), vec![c(1, 0), c(0, 0)]);
    let food = game.food_cell();
    assert!(food == c(0, 1) || food == c(1, 1));
}

#[test]
fn turn_up_moves_and_keeps_length() {
    let mut game = Snake::new(0, 10);
    game.set_food(c(0, 0));
    assert!(game.turn(Direction::Up));
    assert_eq!(game.current_direction(), Direction::Up);
    assert_eq!(game.body(), vec![c(5, 3), c(5, 4)]);
    assert_eq!(game.length(), 2);
    assert!(game.is_free(c(4, 4)));
    assert!(partition_holds(&game));
}

#[test]
fn wall_distances_of_initial_head() {
    let game = Snake::new(0, 10);
    assert_eq!(game.head(), c(5, 4));
    assert_eq!(game.walls(), vec![5, 4, 4, 4, 4, 4, 5, 5]);
    assert_eq!(wall_distances(c(0, 9), 10), vec![0, 0, 9, 9, 9, 0, 0, 0]);
}

#[test]
fn reversal_is_ignored() {
    let mut game = Snake::new(0, 10);
    game.set_food(c(0, 0));
    assert!(game.turn(Direction::Left));
    assert_eq!(game.current_direction(), Direction::Right);
    assert_eq!(game.head(), c(6, 4));
    assert!(game.turn(Direction::Down));
    assert!(game.turn(Direction::Up));
    assert_eq!(game.current_direction(), Direction::Down);
    assert_eq!(game.head(), c(6, 6));
}

#[test]
fn left_wall_ends_game() {
    let mut game = Snake::from_body(0, 10, vec![c(0, 4), c(1, 4)], Direction::Left).unwrap();
    assert!(!game.turn(Direction::Left));
    assert_eq!(game.length(), 2);
    assert_eq!(game.body(), vec![c(0, 4), c(1, 4)]);
    let mut game = Snake::from_body(0, 10, vec![c(0, 4), c(1, 4)], Direction::Left).unwrap();
    assert!(!game.turn(Direction::Center));
    assert_eq!(game.body(), vec![c(0, 4), c(1, 4)]);
}

#[test]
fn right_and_bottom_walls_end_game() {
    let mut game = Snake::from_body(0, 10, vec![c(9, 4), c(8, 4)], Direction::Right).unwrap();
    assert!(!game.turn(Direction::Center));
    let mut game = Snake::from_body(0, 10, vec![c(3, 9), c(3, 8)], Direction::Down).unwrap();
    assert!(!game.turn(Direction::Down));
    assert_eq!(game.length(), 2);
}

#[test]
fn self_collision_ends_game() {
    // head at (5,4) heading up; the cell above is part of the body
    let body = vec![c(5, 4), c(6, 4), c(6, 3), c(5, 3), c(4, 3)];
    let mut game = Snake::from_body(1, 10, body.clone(), Direction::Up).unwrap();
    assert!(!game.turn(Direction::Center));
    assert_eq!(game.body(), body);
    assert!(partition_holds(&game));
}

#[test]
fn entering_the_tail_cell_ends_game() {
    let body = vec![c(5, 4), c(6, 4), c(6, 3), c(5, 3)];
    let mut game = Snake::from_body(1, 10, body.clone(), Direction::Up).unwrap();
    assert!(!game.turn(Direction::Center));
    assert_eq!(game.body(), body);
}

#[test]
fn eating_grows_by_one() {
    let mut game = Snake::new(0, 10);
    game.set_food(c(6, 4));
    assert!(game.turn(Direction::Center));
    assert_eq!(game.length(), 3);
    assert_eq!(game.body(), vec![c(6, 4), c(5, 4), c(4, 4)]);
    assert!(game.is_free(game.food_cell()));
    assert!(partition_holds(&game));
}

#[test]
fn full_board_ends_game() {
    let mut game =
        Snake::from_body(0, 2, vec![c(0, 0), c(1, 0), c(1, 1)], Direction::Down).unwrap();
    assert_eq!(game.food_cell(), c(0, 1));
    assert!(!game.turn(Direction::Center));
    assert_eq!(game.length(), 4);
}

#[test]
fn same_seed_same_game() {
    let moves = [
        Direction::Up,
        Direction::Left,
        Direction::Down,
        Direction::Center,
        Direction::Right,
        Direction::Down,
        Direction::Left,
        Direction::Up,
    ];
    let mut a = Snake::new(42, 12);
    let mut b = Snake::new(42, 12);
    assert_eq!(a.food_cell(), b.food_cell());
    for step in 0..200 {
        let dir = moves[(step / 3) % moves.len()];
        let ra = a.turn(dir);
        let rb = b.turn(dir);
        assert_eq!(ra, rb);
        assert_eq!(a.body(), b.body());
        assert_eq!(a.food_cell(), b.food_cell());
        if !ra {
            break;
        }
        assert!(partition_holds(&a));
    }
}

#[test]
fn invariant_over_a_long_game() {
    let mut game = Snake::new(7, 8);
    let mut dir = Direction::Up;
    for step in 0..300 {
        let before = game.length();
        let food = game.food_cell();
        let target = match game.current_direction() {
            Direction::Up if game.head().y == 0 => Direction::Left,
            Direction::Left if game.head().x == 0 => Direction::Down,
            Direction::Down if game.head().y == 7 => Direction::Right,
            Direction::Right if game.head().x == 7 => Direction::Up,
            _ => dir,
        };
        dir = target;
        if !game.turn(dir) {
            break;
        }
        let grew = game.head() == food;
        assert_eq!(game.length(), before + if grew { 1 } else { 0 });
        assert!(partition_holds(&game), "step {}", step);
    }
}

#[test]
fn from_body_rejections() {
    assert!(Snake::from_body(0, 1, vec![c(0, 0)], Direction::Right).is_none());
    assert!(Snake::from_body(0, 10, vec![], Direction::Right).is_none());
    assert!(Snake::from_body(0, 10, vec![c(1, 1)], Direction::Center).is_none());
    assert!(Snake::from_body(0, 10, vec![c(1, 1), c(10, 1)], Direction::Right).is_none());
    assert!(Snake::from_body(0, 10, vec![c(1, 1), c(2, 1), c(1, 1)], Direction::Right).is_none());
}

#[test]
fn body_distances() {
    let game = Snake::from_body(0, 10, vec![c(5, 5), c(5, 4), c(4, 4), c(3, 4), c(3, 5), c(3, 6)], Direction::Down)
        .unwrap();
    // left: (4,5) free, (3,5) body at step 2; up: (5,4) at step 1; up-left: (4,4) at step 1;
    // down-left: (4,6) free, (3,7) free ... no hit; right/down/down-right: no hit
    assert_eq!(game.snake(), vec![2, 1, 1, 10, 10, 10, 10, 10]);
}

#[test]
fn food_signal_in_each_direction() {
    let h = c(5, 4);
    assert_eq!(food_distances(h, c(2, 4), 10), vec![3, 10, 10, 10, 10, 10, 10, 10]);
    assert_eq!(food_distances(h, c(3, 2), 10), vec![10, 2, 10, 10, 10, 10, 10, 10]);
    assert_eq!(food_distances(h, c(5, 0), 10), vec![10, 10, 4, 10, 10, 10, 10, 10]);
    assert_eq!(food_distances(h, c(7, 2), 10), vec![10, 10, 10, 2, 10, 10, 10, 10]);
    assert_eq!(food_distances(h, c(9, 4), 10), vec![10, 10, 10, 10, 4, 10, 10, 10]);
    assert_eq!(food_distances(h, c(8, 7), 10), vec![10, 10, 10, 10, 10, 3, 10, 10]);
    assert_eq!(food_distances(h, c(5, 9), 10), vec![10, 10, 10, 10, 10, 10, 5, 10]);
    assert_eq!(food_distances(h, c(1, 8), 10), vec![10, 10, 10, 10, 10, 10, 10, 4]);
    assert_eq!(food_distances(h, c(2, 3), 10), vec![10; 8]);
}

#[test]
fn coordinate_steps() {
    assert_eq!(c(3, 0).add(Direction::Up), Err("Already at top row"));
    assert_eq!(c(0, 3).add(Direction::Left), Err("Already at left column"));
    assert_eq!(c(3, 3).add(Direction::Down), Ok(c(3, 4)));
    assert_eq!(c(3, 3).add(Direction::Right), Ok(c(4, 3)));
    assert_eq!(c(3, 3).add(Direction::Center), Ok(c(3, 3)));
    assert!(c(9, 9).in_bounds(10));
    assert!(!c(9, 10).in_bounds(10));
}
