use snake::apple::Apple;
use snake::common::{
    get_random_cell, get_random_pos, grid_pos, vec2_to_rect, wrap_around, Direction, Position, Rect, CELL_SIZE,
    GRID_SIZE, SCREEN_SIZE,
};
use snake::snake::Snake;

fn all_directions() -> Vec<Direction> {
    vec![Direction::Up, Direction::Down, Direction::Left, Direction::Right]
}

#[test]
fn a_heading_reverses_itself_and_its_opposite() {
    for d in all_directions() {
        assert!(d.is_reversal(d));
    }
    assert!(Direction::Up.is_reversal(Direction::Down));
    assert!(Direction::Down.is_reversal(Direction::Up));
    assert!(Direction::Left.is_reversal(Direction::Right));
    assert!(Direction::Right.is_reversal(Direction::Left));
}

#[test]
fn a_quarter_turn_is_never_a_reversal() {
    for d in all_directions() {
        let p = d.perpendicular();
        assert!(!d.is_reversal(p));
        assert!(!p.is_reversal(d));
        assert_eq!(d.x() * p.x() + d.y() * p.y(), 0);
    }
    assert_eq!(Direction::Up.perpendicular(), Direction::Right);
    assert_eq!(Direction::Left.perpendicular(), Direction::Up);
}

#[test]
fn unit_vectors_of_the_headings() {
    assert_eq!((Direction::Up.x(), Direction::Up.y()), (0, -1));
    assert_eq!((Direction::Down.x(), Direction::Down.y()), (0, 1));
    assert_eq!((Direction::Left.x(), Direction::Left.y()), (-1, 0));
    assert_eq!((Direction::Right.x(), Direction::Right.y()), (1, 0));
}

#[test]
fn board_is_twenty_cells_of_thirty_two_units() {
    assert_eq!(GRID_SIZE, 20);
    assert_eq!(CELL_SIZE, 32);
    assert_eq!(SCREEN_SIZE, 640);
}

#[test]
fn wrap_keeps_positions_on_the_board() {
    let p = Position { x: 96, y: 608 };
    assert_eq!(wrap_around(p), p);
    assert_eq!(wrap_around(Position { x: 0, y: 0 }), Position { x: 0, y: 0 });
    assert_eq!(wrap_around(Position { x: 639, y: 1 }), Position { x: 639, y: 1 });
}

#[test]
fn wrap_brings_overshoot_back_on_either_side() {
    assert_eq!(wrap_around(Position { x: -32, y: 0 }), Position { x: 608, y: 0 });
    assert_eq!(wrap_around(Position { x: 640, y: 700 }), Position { x: 0, y: 60 });
    assert_eq!(wrap_around(Position { x: -1, y: -640 }), Position { x: 639, y: 0 });
    assert_eq!(wrap_around(Position { x: -641, y: 1279 }), Position { x: 639, y: 639 });
    assert_eq!(wrap_around(Position { x: i64::MIN, y: i64::MAX }), Position { x: 512, y: 127 });
}

#[test]
fn wrap_lands_in_range_and_ignores_whole_board_sides() {
    let samples: Vec<i64> = vec![-100_000, -641, -640, -639, -33, -1, 0, 1, 31, 320, 639, 640, 641, 99_999];
    for &x in samples.iter() {
        for &y in samples.iter() {
            let w = wrap_around(Position { x, y });
            assert!(0 <= w.x && w.x < SCREEN_SIZE);
            assert!(0 <= w.y && w.y < SCREEN_SIZE);
            for k in -3i64..=3 {
                let shifted = Position { x: x + k * SCREEN_SIZE, y: y - k * SCREEN_SIZE };
                assert_eq!(wrap_around(shifted), w);
            }
        }
    }
}

#[test]
fn cell_square_has_the_side_of_a_cell() {
    assert_eq!(
        vec2_to_rect(Position { x: 64, y: -32 }),
        Rect { x: 64, y: -32, w: 32, h: 32 }
    );
}

#[test]
fn grid_corner_of_a_cell() {
    assert_eq!(grid_pos(0, 0), Position { x: 0, y: 0 });
    assert_eq!(grid_pos(3, 19), Position { x: 96, y: 608 });
}

#[test]
fn random_positions_are_corners_of_cells_and_differ() {
    let first = get_random_pos();
    let mut differs = false;
    for _ in 0..2000 {
        let p = get_random_pos();
        assert!(0 <= p.x && p.x < SCREEN_SIZE);
        assert!(0 <= p.y && p.y < SCREEN_SIZE);
        assert_eq!(p.x % CELL_SIZE, 0);
        assert_eq!(p.y % CELL_SIZE, 0);
        if p != first {
            differs = true;
        }
    }
    assert!(differs);
}

#[test]
fn apple_starts_on_a_cell() {
    for _ in 0..200 {
        let a = Apple::new();
        let p = *a.get_vec();
        assert!(0 <= p.x && p.x < SCREEN_SIZE && p.x % CELL_SIZE == 0);
        assert!(0 <= p.y && p.y < SCREEN_SIZE && p.y % CELL_SIZE == 0);
    }
}

#[test]
fn apple_square() {
    let a = Apple::at_cell(2, 5);
    assert_eq!(*a.get_vec(), Position { x: 64, y: 160 });
    assert_eq!(a.draw(), Rect { x: 64, y: 160, w: 32, h: 32 });
}

#[test]
fn apple_away_from_the_head_stays() {
    let snake = Snake::new(3, 8, false);
    let mut a = Apple::at_cell(4, 4);
    for _ in 0..50 {
        a.update(&snake);
        assert_eq!(*a.get_vec(), Position { x: 128, y: 128 });
    }
}

#[test]
fn apple_under_the_head_moves_away() {
    let snake = Snake::new(3, 8, false);
    assert_eq!(*snake.get_vec(), Position { x: 0, y: 0 });
    let mut moved: usize = 0;
    for _ in 0..400 {
        let mut a = Apple::at_cell(0, 0);
        a.update(&snake);
        let p = *a.get_vec();
        assert!(0 <= p.x && p.x < SCREEN_SIZE && p.x % CELL_SIZE == 0);
        assert!(0 <= p.y && p.y < SCREEN_SIZE && p.y % CELL_SIZE == 0);
        if p != *snake.get_vec() {
            moved += 1;
        }
    }
    assert!(moved >= 380);
}

#[test]
fn apple_under_the_head_moves_to_the_cell_drawn() {
    let snake = Snake::new(3, 8, false);
    let mut a = Apple::at_cell(0, 0);
    a.update_to(&snake, 7, 3);
    assert_eq!(*a.get_vec(), Position { x: 224, y: 96 });
    assert!(*a.get_vec() != *snake.get_vec());
    a.update_to(&snake, 1, 1);
    assert_eq!(*a.get_vec(), Position { x: 224, y: 96 });
    let mut b = Apple::at_cell(0, 0);
    b.update_to(&snake, 0, 0);
    assert_eq!(*b.get_vec(), Position { x: 0, y: 0 });
}

#[test]
fn random_cells_are_on_the_board() {
    let mut seen_other = false;
    let first = get_random_cell();
    for _ in 0..2000 {
        let c = get_random_cell();
        assert!(c.0 < 20 && c.1 < 20);
        if c != first {
            seen_other = true;
        }
    }
    assert!(seen_other);
}

#[test]
fn apple_reset_lands_on_a_cell() {
    let mut a = Apple::at_cell(0, 0);
    let mut left = false;
    for _ in 0..200 {
        a.reset();
        let p = *a.get_vec();
        assert!(0 <= p.x && p.x < SCREEN_SIZE && p.x % CELL_SIZE == 0);
        assert!(0 <= p.y && p.y < SCREEN_SIZE && p.y % CELL_SIZE == 0);
        if p != (Position { x: 0, y: 0 }) {
            left = true;
        }
    }
    assert!(left);
}
