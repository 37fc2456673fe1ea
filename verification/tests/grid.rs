use snake_sim::board::Board;
use snake_sim::direction::Direction;
use snake_sim::field::{Field, FieldType};

fn count_of(board: &Board, t: FieldType) -> usize {
    board.fields.iter().filter(|f| f.field_type == t).count()
}

#[test]
fn fresh_board_state() {
    let board = Board::new(3, 3);
    assert_eq!(board.width, 3);
    assert_eq!(board.height, 3);
    assert_eq!(board.snake_length, 1);
    assert!(!board.game_over);
    assert!(matches!(board.direction, Direction::Still));
    assert!(board.head_idx < 9);
    assert_eq!(board.fields.len(), 9);
    assert_eq!(count_of(&board, FieldType::APPLE), 1);
    assert_eq!(count_of(&board, FieldType::SNAKE), 0);
    assert_eq!(count_of(&board, FieldType::EMPTY), 8);
}

#[test]
fn deterministic_constructor_state() {
    let board = Board::new_with_positions(5, 5, 12, 0);
    assert_eq!(board.head_idx, 12);
    assert_eq!(board.snake_length, 1);
    assert!(!board.game_over);
    assert_eq!(board.fields[0].field_type, FieldType::APPLE);
    assert_eq!(board.fields[0].longevity, 0);
    for i in 1..25 {
        assert_eq!(board.fields[i].field_type, FieldType::EMPTY);
        assert_eq!(board.fields[i].longevity, 0);
    }
}

// A 5x5 grid, snake of length one with its head at index 12 (row 2,
// column 2), moving right for two ticks with no apple in the path: the
// head ends at index 14, the game goes on, and exactly one cell is
// occupied, since the previous head cell decays back to empty each step.
#[test]
fn two_ticks_right_across_open_ground() {
    let mut board = Board::new_with_positions(5, 5, 12, 0);
    board.direction = Direction::Right;
    board.tick();
    assert_eq!(board.head_idx, 13);
    board.tick();
    assert_eq!(board.head_idx, 14);
    assert!(!board.game_over);
    assert_eq!(board.snake_length, 1);
    assert_eq!(count_of(&board, FieldType::SNAKE), 1);
    assert_eq!(board.fields[14].field_type, FieldType::SNAKE);
    assert_eq!(board.fields[13].field_type, FieldType::EMPTY);
    assert_eq!(board.fields[12].field_type, FieldType::EMPTY);
}

// A head on column 0 moving left: one tick ends the game and leaves the
// head where it was.
#[test]
fn wall_hit_on_left_edge() {
    let mut board = Board::new_with_positions(3, 3, 3, 1);
    board.direction = Direction::Left;
    board.tick();
    assert!(board.game_over);
    assert_eq!(board.head_idx, 3);
    assert_eq!(board.fields[1].field_type, FieldType::APPLE);
    assert_eq!(board.snake_length, 1);
}

#[test]
fn wall_hits_on_all_edges() {
    for (w, h, head, dir) in [
        (3, 3, 2, Direction::Right),
        (3, 3, 1, Direction::Up),
        (3, 3, 7, Direction::Down),
        (1, 1, 0, Direction::Left),
    ] {
        let mut board = Board::new_with_positions(w, h, head, 0);
        board.direction = dir;
        board.tick();
        assert!(board.game_over);
        assert_eq!(board.head_idx, head);
    }
}

// Eating an apple exactly when the tail segment is one tick from
// vacating: the snake grows by one and that segment stays occupied, the
// growth pass having cancelled this tick's decay.
#[test]
fn apple_eaten_while_tail_about_to_vacate() {
    let mut board = Board::new_with_positions(4, 1, 0, 2);
    board.direction = Direction::Right;

    board.tick();
    assert_eq!(board.head_idx, 1);
    assert_eq!(board.fields[1].field_type, FieldType::SNAKE);
    assert_eq!(board.fields[1].longevity, 1);

    board.tick();
    assert!(!board.game_over);
    assert_eq!(board.head_idx, 2);
    assert_eq!(board.snake_length, 2);
    // the old head cell would have decayed to empty this tick had the
    // apple not been eaten
    assert_eq!(board.fields[1].field_type, FieldType::SNAKE);
    assert_eq!(board.fields[1].longevity, 1);
    assert_eq!(board.fields[2].field_type, FieldType::SNAKE);
    assert_eq!(board.fields[2].longevity, 2);
    // a replacement apple landed on one of the two empty cells
    assert_eq!(count_of(&board, FieldType::APPLE), 1);
    assert!(board.fields[0].field_type == FieldType::APPLE
        || board.fields[3].field_type == FieldType::APPLE);
}

// Eating the last apple fills the grid: no replacement apple appears.
#[test]
fn last_apple_leaves_grid_full() {
    let mut board = Board::new_with_positions(2, 1, 0, 1);
    board.direction = Direction::Right;
    board.tick();
    assert!(!board.game_over);
    assert_eq!(board.snake_length, 2);
    assert_eq!(board.head_idx, 1);
    assert_eq!(count_of(&board, FieldType::APPLE), 0);
    assert_eq!(board.fields[1].field_type, FieldType::SNAKE);
}

// Moving into a cell whose segment vacates this very tick is legal: the
// decay pass runs before the collision check.
#[test]
fn cell_vacated_this_tick_is_passable() {
    let mut board = Board::new_with_positions(2, 2, 3, 0);
    board.snake_length = 2;
    board.fields[1] = Field { field_type: FieldType::SNAKE, longevity: 1 };
    board.fields[3] = Field { field_type: FieldType::SNAKE, longevity: 2 };
    board.direction = Direction::Up;

    board.tick();
    assert!(!board.game_over);
    assert_eq!(board.head_idx, 1);
    assert_eq!(board.fields[1].field_type, FieldType::SNAKE);
    assert_eq!(board.fields[1].longevity, 2);
    assert_eq!(board.fields[3].field_type, FieldType::SNAKE);
    assert_eq!(board.fields[3].longevity, 1);
}

// Moving into a cell still occupied after the decay pass ends the game
// and leaves the head where it was.
#[test]
fn collision_with_own_body() {
    let mut board = Board::new_with_positions(3, 3, 4, 0);
    board.snake_length = 5;
    board.fields[4] = Field { field_type: FieldType::SNAKE, longevity: 5 };
    board.fields[5] = Field { field_type: FieldType::SNAKE, longevity: 3 };
    board.fields[8] = Field { field_type: FieldType::SNAKE, longevity: 2 };
    board.fields[7] = Field { field_type: FieldType::SNAKE, longevity: 1 };
    board.direction = Direction::Right;

    board.tick();
    assert!(board.game_over);
    assert_eq!(board.head_idx, 4);
    assert_eq!(board.snake_length, 5);
    // the decay pass had already been applied when the game ended
    assert_eq!(board.fields[5].longevity, 2);
    assert_eq!(board.fields[7].field_type, FieldType::EMPTY);
}

#[test]
fn tick_without_direction_is_a_noop() {
    let mut board = Board::new_with_positions(3, 3, 4, 0);
    board.tick();
    assert_eq!(board.head_idx, 4);
    assert_eq!(board.snake_length, 1);
    assert!(!board.game_over);
    assert_eq!(count_of(&board, FieldType::SNAKE), 0);
    assert_eq!(board.fields[0].field_type, FieldType::APPLE);
}

#[test]
fn tick_after_game_over_is_a_noop() {
    let mut board = Board::new_with_positions(3, 3, 3, 0);
    board.direction = Direction::Left;
    board.tick();
    assert!(board.game_over);
    let head = board.head_idx;
    board.direction = Direction::Right;
    board.tick();
    assert!(board.game_over);
    assert_eq!(board.head_idx, head);
    assert_eq!(board.snake_length, 1);
}

// The snake keeps exactly `snake_length` cells occupied across a long
// run once the body has materialised, here while circling a 3x3 grid.
#[test]
fn occupied_count_tracks_snake_length_while_circling() {
    // the apple sits on the centre cell, which the path never enters, so
    // no random placement can disturb the run
    let mut board = Board::new_with_positions(3, 3, 0, 4);
    let path = [
        Direction::Right,
        Direction::Right,
        Direction::Down,
        Direction::Down,
        Direction::Left,
        Direction::Left,
        Direction::Up,
        Direction::Up,
    ];
    for lap in 0..3 {
        for dir in path {
            board.direction = dir;
            board.tick();
            assert!(!board.game_over, "lap {lap}");
            assert_eq!(count_of(&board, FieldType::SNAKE), board.snake_length as usize);
        }
    }
    assert_eq!(board.head_idx, 0);
    assert_eq!(board.snake_length, 1);
}
