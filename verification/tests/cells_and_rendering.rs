use snake_sim::board::Board;
use snake_sim::direction::Direction;
use snake_sim::field::{Field, FieldType};

#[test]
fn new_cell_is_empty() {
    let f = Field::new();
    assert_eq!(f.field_type, FieldType::EMPTY);
    assert_eq!(f.longevity, 0);
}

#[test]
fn set_overwrites_unconditionally() {
    let mut f = Field::new();
    f.set(FieldType::SNAKE, 7);
    assert_eq!(f.field_type, FieldType::SNAKE);
    assert_eq!(f.longevity, 7);
    f.set(FieldType::APPLE, 0);
    assert_eq!(f.field_type, FieldType::APPLE);
    assert_eq!(f.longevity, 0);
}

#[test]
fn decay_is_idempotent_on_empty_cells() {
    let mut f = Field::new();
    f.tick();
    f.tick();
    assert_eq!(f.field_type, FieldType::EMPTY);
    assert_eq!(f.longevity, 0);
}

#[test]
fn decay_counts_down_and_empties_the_cell() {
    let mut f = Field { field_type: FieldType::SNAKE, longevity: 2 };
    f.tick();
    assert_eq!(f.field_type, FieldType::SNAKE);
    assert_eq!(f.longevity, 1);
    f.tick();
    assert_eq!(f.field_type, FieldType::EMPTY);
    assert_eq!(f.longevity, 0);
    f.tick();
    assert_eq!(f.field_type, FieldType::EMPTY);
    assert_eq!(f.longevity, 0);
}

#[test]
fn decay_leaves_apples_alone() {
    let mut f = Field { field_type: FieldType::APPLE, longevity: 0 };
    f.tick();
    assert_eq!(f.field_type, FieldType::APPLE);
    assert_eq!(f.longevity, 0);
}

#[test]
fn printable_symbols() {
    assert_eq!(FieldType::get_printable(FieldType::APPLE), "◀▶");
    assert_eq!(FieldType::get_printable(FieldType::SNAKE), "▓▓");
    assert_eq!(FieldType::get_printable(FieldType::EMPTY), "░░");
}

#[test]
fn rows_render_with_head_override() {
    let board = Board::new_with_positions(2, 2, 3, 0);
    assert_eq!(board.row_as_string(0).unwrap(), "◀▶░░");
    assert_eq!(board.row_as_string(1).unwrap(), "░░██");
    assert!(board.row_as_string(2).is_none());
}

#[test]
fn head_glyph_overrides_cell_content() {
    // the head stands on the apple cell: the head glyph wins
    let board = Board::new_with_positions(2, 1, 1, 1);
    assert_eq!(board.row_as_string(0).unwrap(), "░░██");
}

#[test]
fn rendering_follows_the_snake() {
    let mut board = Board::new_with_positions(3, 1, 0, 2);
    board.direction = Direction::Right;
    board.tick();
    assert_eq!(board.row_as_string(0).unwrap(), "░░██◀▶");
    board.tick();
    // the apple was eaten; the only empty cell left for its replacement
    // was the one behind the snake
    assert_eq!(board.row_as_string(0).unwrap(), "◀▶▓▓██");
    assert_eq!(board.row_as_string(1), None);
}

#[test]
fn check_opposite_pairs() {
    assert!(Direction::check_opposite(Direction::Up, Direction::Down));
    assert!(Direction::check_opposite(Direction::Down, Direction::Up));
    assert!(Direction::check_opposite(Direction::Left, Direction::Right));
    assert!(Direction::check_opposite(Direction::Right, Direction::Left));

    assert!(!Direction::check_opposite(Direction::Up, Direction::Up));
    assert!(!Direction::check_opposite(Direction::Up, Direction::Left));
    assert!(!Direction::check_opposite(Direction::Right, Direction::Down));
    assert!(!Direction::check_opposite(Direction::Still, Direction::Still));
    assert!(!Direction::check_opposite(Direction::Up, Direction::Still));
}
