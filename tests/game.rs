use snake::{Coord, Direction, Snake};

fn c(x: u8, y: u8) -> Coord {
    Coord { x, y }
}

fn normalized(counts: Vec<u8>, size: u8) -> Vec<f32> {
    counts.iter().map(|&n| n as f32 / size as f32).collect()
}

#[test]
fn test_alive() {
    let test = Snake::new(0, 10);
    assert!(test.is_free(c(6, 4)));
    assert!(!test.is_free(c(4, 10)));
    assert!(!test.is_free(c(5, 4)));
}

#[test]
fn test_found_food() {
    let mut test = Snake::new(0, 10);
    test.set_food(c(0, 2));
    assert!(!test.found_food());
    let mut test = Snake::from_body(0, 10, vec![c(0, 2)], Direction::Right).unwrap();
    test.set_food(c(0, 2));
    assert!(test.found_food());
}

#[test]
fn test_snake() {
    let mut test = Snake::new(0, 10);
    test.set_food(c(0, 2));
    assert!(test.turn(Direction::Up));
    assert!(test.turn(Direction::Center));

    assert!(test.turn(Direction::Left));
    for _ in 0..4 {
        assert!(test.turn(Direction::Center));
    }
    assert_eq!(test.length(), 3);
    test.set_food(c(9, 5));

    assert!(test.turn(Direction::Down));
    for _ in 0..2 {
        assert!(test.turn(Direction::Center));
    }

    assert!(test.turn(Direction::Right));
    for _ in 0..8 {
        assert!(test.turn(Direction::Center));
    }
    assert_eq!(test.length(), 4);
}

#[test]
fn test_walls() {
    let test = Snake::new(0, 10);
    assert_eq!(
        normalized(test.walls(), test.size()),
        vec![0.5, 0.4, 0.4, 0.4, 0.4, 0.4, 0.5, 0.5]
    );
}

#[test]
fn test_snake_dis() {
    let test = Snake::new(0, 10);
    assert_eq!(
        normalized(test.snake(), test.size()),
        vec![0.1, 1.0, 1.0, 1.0, 1.0, 1.0, 1.0, 1.0]
    );
}

#[test]
fn test_food() {
    let mut test = Snake::new(0, 10);
    assert_eq!(
        normalized(test.food(), test.size()),
        vec![1.0, 1.0, 1.0, 1.0, 1.0, 1.0, 1.0, 1.0]
    );
    test.set_food(c(8, 4));
    assert_eq!(
        normalized(test.food(), test.size()),
        vec![1.0, 1.0, 1.0, 1.0, 0.3, 1.0, 1.0, 1.0]
    );
}
