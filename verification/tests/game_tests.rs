use snake_game::Board;
use snake_game::Direction;
use snake_game::FoodType;
use snake_game::Game;
use snake_game::GameState;

const FREQ: u64 = 80;

fn standard_game() -> Game {
    Game::new(Board { rows: 30, cols: 30 }, 6, FREQ)
}

fn food_on_snake(g: &Game) -> bool {
    g.snake.p.iter().any(|&c| c == g.food.p)
}

#[test]
fn new_game_initial_configuration() {
    let g = standard_game();
    assert_eq!(g.state, GameState::Playing);
    assert_eq!(g.snake.d, Direction::Idle);
    assert_eq!(g.snake.p.len(), 6);
    for i in 0..6usize {
        assert_eq!(g.snake.p[i], (5 - i as i32, 0));
    }
    assert_eq!(g.score(), 0);
    assert_eq!(g.food.f, FoodType::Banana);
    assert!(!food_on_snake(&g));
    assert!(!g.board_full);
}

#[test]
fn no_self_overlap_after_construction() {
    let g = standard_game();
    assert!(!g.snake.collide_with_tail());
}

#[test]
fn heading_up_then_down_stays_up() {
    let mut g = standard_game();
    g.apply_direction(Direction::Up);
    g.apply_direction(Direction::Down);
    assert_eq!(g.snake.d, Direction::Up);
}

#[test]
fn idle_snake_stays_put() {
    let mut g = standard_game();
    for _ in 0..5 {
        g.apply_tick(FREQ);
    }
    assert_eq!(g.state, GameState::Playing);
    assert_eq!(g.snake.p[0], (5, 0));
    assert_eq!(g.snake.p.len(), 6);
}

#[test]
fn timer_gates_movement() {
    let mut g = standard_game();
    g.food.p = (20, 20);
    g.apply_direction(Direction::Right);
    g.apply_tick(FREQ - 1);
    assert_eq!(g.snake.p[0], (5, 0));
    assert_eq!(g.time, FREQ - 1);
    g.apply_tick(1);
    assert_eq!(g.snake.p[0], (6, 0));
    assert_eq!(g.time, 0);
}

#[test]
fn five_ticks_move_the_head_five_cells_right() {
    let mut g = standard_game();
    g.food.p = (20, 20);
    g.apply_direction(Direction::Right);
    for _ in 0..5 {
        g.apply_tick(FREQ);
    }
    assert_eq!(g.state, GameState::Playing);
    assert_eq!(g.snake.p[0], (10, 0));
    assert_eq!(g.snake.p.len(), 6);
    assert_eq!(g.score(), 0);
}

#[test]
fn eating_food_grows_by_one_and_respawns() {
    let mut g = standard_game();
    g.food.p = (6, 0);
    g.apply_direction(Direction::Right);
    g.apply_tick(FREQ);
    assert_eq!(g.state, GameState::Playing);
    assert_eq!(g.snake.p[0], (6, 0));
    assert_eq!(g.snake.p.len(), 7);
    assert_eq!(g.score(), 50);
    // the new food comes from the then-current free set, one flavor further
    assert!(!food_on_snake(&g));
    assert_eq!(g.food.f, FoodType::Grape);
}

#[test]
fn moving_without_food_keeps_length() {
    let mut g = standard_game();
    g.food.p = (20, 20);
    g.apply_direction(Direction::Down);
    g.apply_tick(FREQ);
    assert_eq!(g.snake.p.len(), 6);
    assert_eq!(g.snake.p[0], (5, 1));
}

#[test]
fn score_matches_formula_and_never_decreases() {
    let mut g = standard_game();
    g.apply_direction(Direction::Right);
    let mut last_score = g.score();
    for step in 0..40 {
        // place the food in the snake's path on every fourth step
        if step % 4 == 0 {
            let head = g.snake.p[0];
            g.food.p = (head.0 + 1, head.1);
        } else if !food_on_snake(&g) {
            g.food.p = (20, 20);
        }
        g.apply_tick(FREQ);
        if g.state != GameState::Playing {
            break;
        }
        let score = g.score();
        assert_eq!(score, (g.snake.p.len() as i64 - 6) * 50);
        assert!(score >= last_score);
        last_score = score;
    }
    assert!(last_score >= 50);
}

#[test]
fn spawned_food_never_lands_on_the_snake() {
    let mut g = standard_game();
    for i in 0..50 {
        g.spawn_food_at(i);
        assert!(!food_on_snake(&g));
        g.spawn_food();
        assert!(!food_on_snake(&g));
    }
    assert_eq!(g.state, GameState::Playing);
}

#[test]
fn food_flavor_cycles_with_period_five() {
    let mut g = standard_game();
    assert_eq!(g.food.f, FoodType::Banana);
    let expected = vec![
        FoodType::Grape,
        FoodType::Blueberry,
        FoodType::Orange,
        FoodType::Apple,
        FoodType::Banana,
    ];
    for f in expected {
        g.spawn_food();
        assert_eq!(g.food.f, f);
    }
}

#[test]
fn generate_random_food_steps_the_cycle() {
    let mut g = standard_game();
    g.food.f = FoodType::Apple;
    assert_eq!(g.generate_random_food(), FoodType::Banana);
    g.food.f = FoodType::Orange;
    assert_eq!(g.generate_random_food(), FoodType::Apple);
}

#[test]
fn spawn_food_at_is_deterministic() {
    // 2x2 board, snake on (0,0) and (1,0): the free cells are (0,1), (1,1)
    let mut g = Game::new(Board { rows: 2, cols: 2 }, 2, 10);
    g.spawn_food_at(0);
    assert_eq!(g.food.p, (0, 1));
    g.spawn_food_at(1);
    assert_eq!(g.food.p, (1, 1));
    g.spawn_food_at(2);
    assert_eq!(g.food.p, (0, 1));
}

#[test]
fn filling_the_board_ends_the_game() {
    let mut g = Game::new(Board { rows: 2, cols: 2 }, 2, 10);
    g.spawn_food_at(1);
    assert_eq!(g.food.p, (1, 1));
    g.apply_direction(Direction::Down);
    g.apply_tick(10);
    assert_eq!(g.state, GameState::Playing);
    assert_eq!(g.snake.p.len(), 3);
    // only one cell is left free, so the new food must sit there
    assert_eq!(g.food.p, (0, 1));
    g.apply_direction(Direction::Left);
    g.apply_tick(10);
    assert_eq!(g.snake.p.len(), 4);
    assert_eq!(g.state, GameState::GameOver);
    assert!(g.board_full);
    assert_eq!(g.score(), 100);
}

#[test]
fn edge_collision_ends_the_game() {
    let mut g = Game::new(Board { rows: 2, cols: 3 }, 3, 10);
    g.apply_direction(Direction::Right);
    g.apply_tick(10);
    assert_eq!(g.state, GameState::GameOver);
    assert!(!g.board_full);
    assert_eq!(g.snake.p.len(), 3);
    assert_eq!(g.snake.p[0], (2, 0));
    assert_eq!(g.score(), 0);
}

#[test]
fn tail_collision_ends_the_game() {
    let mut g = standard_game();
    g.food.p = (20, 20);
    g.apply_direction(Direction::Down);
    g.apply_tick(FREQ);
    g.apply_direction(Direction::Left);
    g.apply_tick(FREQ);
    g.apply_direction(Direction::Up);
    g.apply_tick(FREQ);
    assert_eq!(g.state, GameState::GameOver);
    assert_eq!(g.snake.p.len(), 6);
}

#[test]
fn pause_stops_the_simulation() {
    let mut g = standard_game();
    g.food.p = (20, 20);
    g.apply_direction(Direction::Right);
    g.toggle_pause();
    assert_eq!(g.state, GameState::Paused);
    g.apply_tick(10 * FREQ);
    assert_eq!(g.snake.p[0], (5, 0));
    g.toggle_pause();
    assert_eq!(g.state, GameState::Playing);
    g.apply_tick(FREQ);
    assert_eq!(g.snake.p[0], (6, 0));
}

#[test]
fn pause_has_no_effect_when_game_is_over() {
    let mut g = standard_game();
    g.game_over();
    g.toggle_pause();
    assert_eq!(g.state, GameState::GameOver);
}

#[test]
fn tick_after_game_over_resets_the_game() {
    let mut g = Game::new(Board { rows: 2, cols: 3 }, 3, 10);
    g.apply_direction(Direction::Right);
    g.apply_tick(10);
    assert_eq!(g.state, GameState::GameOver);
    g.apply_tick(0);
    assert_eq!(g.state, GameState::Playing);
    assert_eq!(g.snake.d, Direction::Idle);
    assert_eq!(g.snake.p.len(), 3);
    assert_eq!(g.snake.p[0], (2, 0));
    assert_eq!(g.score(), 0);
    assert!(!food_on_snake(&g));
}

#[test]
fn restart_is_honored_while_paused() {
    let mut g = standard_game();
    g.food.p = (20, 20);
    g.apply_direction(Direction::Right);
    g.apply_tick(FREQ);
    g.toggle_pause();
    g.restart();
    assert_eq!(g.state, GameState::Playing);
    assert_eq!(g.snake.d, Direction::Idle);
    assert_eq!(g.snake.p[0], (5, 0));
    assert_eq!(g.score(), 0);
}

#[test]
fn restart_is_ignored_while_playing() {
    let mut g = standard_game();
    g.food.p = (20, 20);
    g.apply_direction(Direction::Right);
    g.apply_tick(FREQ);
    g.restart();
    assert_eq!(g.state, GameState::Playing);
    assert_eq!(g.snake.p[0], (6, 0));
    assert_eq!(g.snake.d, Direction::Right);
}

#[test]
fn collide_with_food_follows_the_head() {
    let mut g = standard_game();
    g.food.p = (5, 0);
    assert!(g.collide_with_food());
    g.food.p = (4, 0);
    assert!(!g.collide_with_food());
}
