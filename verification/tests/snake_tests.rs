use std::collections::VecDeque;

use snake_game::Board;
use snake_game::Direction;
use snake_game::Food;
use snake_game::FoodType;
use snake_game::Snake;

fn snake_with_body(cells: Vec<(i32, i32)>, d: Direction) -> Snake {
    let mut p: VecDeque<(i32, i32)> = VecDeque::new();
    for c in cells {
        p.push_back(c);
    }
    Snake { p, d }
}

#[test]
fn new_snake_is_empty_and_idle() {
    let s = Snake::new();
    assert_eq!(s.p.len(), 0);
    assert_eq!(s.d, Direction::Idle);
}

#[test]
fn new_food_is_an_apple_at_the_origin() {
    let food = Food::new();
    assert_eq!(food.p, (0, 0));
    assert_eq!(food.f, FoodType::Apple);
}

#[test]
fn first_direction_input_is_accepted() {
    let mut s = Snake::new();
    s.set_direction(Direction::Up);
    assert_eq!(s.d, Direction::Up);

    let mut s = Snake::new();
    s.set_direction(Direction::Down);
    assert_eq!(s.d, Direction::Down);

    let mut s = Snake::new();
    s.set_direction(Direction::Left);
    assert_eq!(s.d, Direction::Left);

    let mut s = Snake::new();
    s.set_direction(Direction::Right);
    assert_eq!(s.d, Direction::Right);
}

#[test]
fn opposite_direction_is_rejected() {
    let mut s = Snake::new();
    s.set_direction(Direction::Up);
    s.set_direction(Direction::Down);
    assert_eq!(s.d, Direction::Up);

    let mut s = Snake::new();
    s.set_direction(Direction::Down);
    s.set_direction(Direction::Up);
    assert_eq!(s.d, Direction::Down);

    let mut s = Snake::new();
    s.set_direction(Direction::Left);
    s.set_direction(Direction::Right);
    assert_eq!(s.d, Direction::Left);

    let mut s = Snake::new();
    s.set_direction(Direction::Right);
    s.set_direction(Direction::Left);
    assert_eq!(s.d, Direction::Right);
}

#[test]
fn non_opposite_direction_changes_heading() {
    let mut s = Snake::new();
    s.set_direction(Direction::Up);
    s.set_direction(Direction::Up);
    assert_eq!(s.d, Direction::Up);
    s.set_direction(Direction::Left);
    assert_eq!(s.d, Direction::Left);
    s.set_direction(Direction::Down);
    assert_eq!(s.d, Direction::Down);
    s.set_direction(Direction::Right);
    assert_eq!(s.d, Direction::Right);
}

#[test]
fn collide_with_tail_false_for_distinct_body() {
    let s = snake_with_body(vec![(5, 0), (4, 0), (3, 0)], Direction::Right);
    assert!(!s.collide_with_tail());
}

#[test]
fn collide_with_tail_detects_head_on_body() {
    let s = snake_with_body(vec![(4, 0), (5, 0), (5, 1), (4, 1), (4, 0)], Direction::Up);
    assert!(s.collide_with_tail());
}

#[test]
fn collide_with_food_checks_the_head_cell() {
    let s = snake_with_body(vec![(2, 3), (2, 4)], Direction::Up);
    let on_head = Food { p: (2, 3), f: FoodType::Apple };
    let on_tail = Food { p: (2, 4), f: FoodType::Apple };
    let elsewhere = Food { p: (7, 7), f: FoodType::Apple };
    assert!(s.collide_with_food(&on_head));
    assert!(!s.collide_with_food(&on_tail));
    assert!(!s.collide_with_food(&elsewhere));
}

#[test]
fn collide_with_edge_checks_all_four_sides() {
    // a deliberately non-square board: x is checked against cols, y against rows
    let board = Board { rows: 5, cols: 3 };
    let cases = vec![
        ((-1, 0), true),
        ((0, -1), true),
        ((3, 0), true),
        ((0, 5), true),
        ((2, 4), false),
        ((0, 0), false),
    ];
    for (cell, expected) in cases {
        let s = snake_with_body(vec![cell], Direction::Idle);
        assert_eq!(s.collide_with_edge(&board), expected);
    }
}
