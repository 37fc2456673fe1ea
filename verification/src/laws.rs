use vstd::prelude::*;

use crate::board::{
    apple_step, lemma_candidate_on_grid, lemma_room_to_grow, plain_step, step_ctx, tick_rel, Board,
};
use crate::counting::{
    count_type, lemma_count_decay, lemma_count_type_update, lemma_full_snake_has_unit_segment,
};
use crate::direction::Direction;
use crate::field::{cell_wf, decayed, grown, Field, FieldType};

verus! {

/// At most one cell of a sound grid holds the apple at any time, and a
/// grid of more than one cell that the snake fills completely holds none.
pub proof fn lemma_apple_uniqueness(b: Board)
    requires
        b.inv(),
    ensures
        count_type(b.fields@, FieldType::APPLE) <= 1,
        1 < b.area() && b.snake_length == b.area() ==> count_type(b.fields@, FieldType::APPLE)
            == 0,
{
}

/// A tick that leaves the game running keeps the body's size exact: when
/// exactly `snake_length` cells were occupied before the tick, exactly
/// `snake_length` cells — with the new value of the length — are occupied
/// after it. Once the body has fully materialised on the grid, it never
/// loses step with the counter.
#[verifier::spinoff_prover]
#[verifier::rlimit(100)]
pub proof fn lemma_tick_keeps_occupied_count(pre: Board, post: Board)
    requires
        pre.inv(),
        tick_rel(pre, post),
        count_type(pre.fields@, FieldType::SNAKE) == pre.snake_length,
        !post.game_over,
    ensures
        count_type(post.fields@, FieldType::SNAKE) == post.snake_length,
{
    if pre.direction == Direction::Still || pre.game_over {
        // nothing moved
        assert(post == pre);
    } else if pre.wall_hit() {
        assert(post.game_over);
        assert(false);
    } else {
        lemma_candidate_on_grid(pre);
        let c = pre.candidate();
        let len = pre.fields@.len();
        if pre.fields@[c].field_type == FieldType::APPLE {
            lemma_room_to_grow(pre, c);
            let snake_new = Field {
                field_type: FieldType::SNAKE,
                longevity: post.snake_length,
            };
            let apple = Field { field_type: FieldType::APPLE, longevity: 0 };
            if pre.snake_length + 1 < pre.area() {
                let a = choose|a: int|
                    0 <= a < pre.fields@.len() && a != c && (#[trigger] pre.fields@[a]).field_type
                        == FieldType::EMPTY && post.fields@[a] == (Field {
                        field_type: FieldType::APPLE,
                        longevity: 0,
                    }) && forall|i: int|
                        0 <= i < pre.fields@.len() && i != c && i != a
                            ==> #[trigger] post.fields@[i] == decayed(grown(pre.fields@[i]));
                assert forall|i: int| 0 <= i < len && i != c && i != a implies #[trigger] post.fields@[i]
                    == pre.fields@[i] by {
                    assert(post.fields@[i] == decayed(grown(pre.fields@[i])));
                    assert(cell_wf(pre.fields@[i], pre.snake_length));
                }
                assert(post.fields@ =~= pre.fields@.update(a, apple).update(c, snake_new));
                lemma_count_type_update(pre.fields@, a, apple, FieldType::SNAKE);
                lemma_count_type_update(
                    pre.fields@.update(a, apple),
                    c,
                    snake_new,
                    FieldType::SNAKE,
                );
            } else {
                assert forall|i: int| 0 <= i < len && i != c implies #[trigger] post.fields@[i]
                    == pre.fields@[i] by {
                    assert(post.fields@[i] == decayed(grown(pre.fields@[i])));
                    assert(cell_wf(pre.fields@[i], pre.snake_length));
                }
                assert(post.fields@ =~= pre.fields@.update(c, snake_new));
                lemma_count_type_update(pre.fields@, c, snake_new, FieldType::SNAKE);
            }
        } else {
            // without an apple the one segment whose life ran out vacates,
            // and the new head segment replaces it
            let snake_new = Field {
                field_type: FieldType::SNAKE,
                longevity: pre.snake_length,
            };
            let dec = Seq::new(len, |i: int| decayed(pre.fields@[i]));
            assert(!(decayed(pre.fields@[c]).field_type == FieldType::SNAKE));
            assert(post.fields@ =~= dec.update(c, snake_new));
            lemma_count_decay(pre.fields@, dec);
            lemma_full_snake_has_unit_segment(pre.fields@, pre.snake_length as int);
            lemma_count_type_update(dec, c, snake_new, FieldType::SNAKE);
        }
    }
}

/// Moving into a wall always ends the game and changes nothing else: the
/// head index and every cell stay as they were, for rendering the final
/// state.
pub proof fn lemma_wall_stops_game(pre: Board, post: Board)
    requires
        tick_rel(pre, post),
        !pre.game_over,
        pre.direction != Direction::Still,
        pre.wall_hit(),
    ensures
        post.game_over,
        post.head_idx == pre.head_idx,
        post.fields@ == pre.fields@,
        post.snake_length == pre.snake_length,
{
}

/// Eating the apple grows the snake by exactly one, and no currently
/// occupied cell loses any effective lifetime: the growth pass cancels
/// this tick's decay, so even a segment that was one tick from vacating
/// stays occupied, with its counter unchanged.
pub proof fn lemma_apple_grows_snake(pre: Board, post: Board)
    requires
        pre.inv(),
        tick_rel(pre, post),
        !pre.game_over,
        pre.direction != Direction::Still,
        !pre.wall_hit(),
        pre.fields@[pre.candidate()].field_type == FieldType::APPLE,
    ensures
        post.snake_length == pre.snake_length + 1,
        !post.game_over,
        forall|i: int|
            0 <= i < pre.fields@.len() && (#[trigger] pre.fields@[i]).field_type
                == FieldType::SNAKE ==> post.fields@[i] == pre.fields@[i],
{
    lemma_candidate_on_grid(pre);
    let c = pre.candidate();
    lemma_room_to_grow(pre, c);
    assert(apple_step(pre, post, c));
    if pre.snake_length + 1 < pre.area() {
        let a = choose|a: int|
            0 <= a < pre.fields@.len() && a != c && (#[trigger] pre.fields@[a]).field_type
                == FieldType::EMPTY && post.fields@[a] == (Field {
                field_type: FieldType::APPLE,
                longevity: 0,
            }) && forall|i: int|
                0 <= i < pre.fields@.len() && i != c && i != a ==> #[trigger] post.fields@[i]
                    == decayed(grown(pre.fields@[i]));
        assert forall|i: int|
            0 <= i < pre.fields@.len() && (#[trigger] pre.fields@[i]).field_type
                == FieldType::SNAKE implies post.fields@[i] == pre.fields@[i] by {
            assert(post.fields@[i] == decayed(grown(pre.fields@[i])));
            assert(cell_wf(pre.fields@[i], pre.snake_length));
        }
    } else {
        assert forall|i: int|
            0 <= i < pre.fields@.len() && (#[trigger] pre.fields@[i]).field_type
                == FieldType::SNAKE implies post.fields@[i] == pre.fields@[i] by {
            assert(post.fields@[i] == decayed(grown(pre.fields@[i])));
            assert(cell_wf(pre.fields@[i], pre.snake_length));
        }
    }
}

/// The self-collision rule, decided after this tick's decay: a candidate
/// cell still occupied ends the game with the head unmoved, while one
/// whose segment vacated this very tick is passable — the head advances
/// and the game goes on.
pub proof fn lemma_self_collision(pre: Board, post: Board)
    requires
        pre.inv(),
        tick_rel(pre, post),
        !pre.game_over,
        pre.direction != Direction::Still,
        !pre.wall_hit(),
        pre.fields@[pre.candidate()].field_type != FieldType::APPLE,
    ensures
        decayed(pre.fields@[pre.candidate()]).field_type == FieldType::SNAKE ==> post.game_over
            && post.head_idx == pre.head_idx,
        decayed(pre.fields@[pre.candidate()]).field_type != FieldType::SNAKE ==> !post.game_over
            && post.head_idx == pre.candidate(),
{
    assert(plain_step(pre, post, pre.candidate()));
}

} // verus!
