use vstd::pervasive::VecAdditionalExecFns;
use vstd::prelude::*;
use vstd::string::StringExecFns;

use rand::Rng;

use crate::counting::{
    count_type, distinct_snake_longevities, lemma_count_decay, lemma_count_grow,
    lemma_count_type_none, lemma_count_type_pos, lemma_count_type_total, lemma_count_type_update,
    lemma_snake_count_bounded,
};
use crate::direction::Direction;
use crate::field::{cell_wf, decayed, grown, printable_chars, Field, FieldType};

verus! {

/// The whole simulation state: a rectangular grid of cells in row-major
/// order, the head's cell index, the direction the head moves on the next
/// tick, the snake's logical length, and the terminal flag.
pub struct Board {
    pub width: u32,
    pub height: u32,
    pub fields: Vec<Field>,
    pub head_idx: u32,
    pub direction: Direction,
    pub snake_length: u32,
    pub game_over: bool,
}

/// Relies on `rand::Rng::gen_range` called on `rand::thread_rng()` with
/// the half-open range `0..n`: it panics only when the range is empty and
/// otherwise returns a uniformly drawn element of the range, so the result
/// is below `n`. Nothing more can be promised of a random draw.
#[verifier::external_body]
fn random_below(n: u32) -> (r: u32)
    requires
        n > 0,
    ensures
        r < n,
{
    rand::thread_rng().gen_range(0..n)
}

impl Board {
    /// The number of cells of the grid.
    pub open spec fn area(self) -> int {
        (self.width as int) * (self.height as int)
    }

    /// The structural part of the invariant: positive dimensions whose
    /// product fits the index type, a cell per grid position, the head on
    /// the grid, and a length between one and the grid's capacity.
    pub open spec fn grid_wf(self) -> bool {
        &&& 0 < self.width
        &&& 0 < self.height
        &&& self.area() <= u32::MAX
        &&& self.fields@.len() == self.area()
        &&& self.head_idx < self.area()
        &&& 1 <= self.snake_length <= self.area()
    }

    /// Every cell is well formed, with `snake_length` as the largest
    /// remaining life a segment can carry.
    pub open spec fn cells_wf(self) -> bool {
        forall|i: int|
            0 <= i < self.fields@.len() ==> cell_wf(#[trigger] self.fields@[i], self.snake_length)
    }

    /// The apple bookkeeping: never more than one apple, and exactly one
    /// as long as the snake has room to grow. A grid that grew full (of
    /// more than one cell) has eaten its last apple and holds none.
    pub open spec fn apple_inv(self) -> bool {
        &&& count_type(self.fields@, FieldType::APPLE) <= 1
        &&& self.snake_length < self.area() ==> count_type(self.fields@, FieldType::APPLE) == 1
        &&& (1 < self.area() && self.snake_length == self.area()) ==> count_type(
            self.fields@,
            FieldType::APPLE,
        ) == 0
    }

    /// The full invariant: established by the constructors and preserved
    /// by every tick.
    pub open spec fn inv(self) -> bool {
        &&& self.grid_wf()
        &&& self.cells_wf()
        &&& distinct_snake_longevities(self.fields@)
        &&& self.apple_inv()
    }

    /// The column of a cell index.
    pub open spec fn spec_col(self, idx: int) -> int {
        idx % (self.width as int)
    }

    /// The row of a cell index.
    pub open spec fn spec_row(self, idx: int) -> int {
        idx / (self.width as int)
    }

    /// Whether one step in the current direction would leave the grid.
    pub open spec fn wall_hit(self) -> bool {
        match self.direction {
            Direction::Left => self.spec_col(self.head_idx as int) == 0,
            Direction::Right => self.spec_col(self.head_idx as int) == self.width - 1,
            Direction::Up => self.spec_row(self.head_idx as int) == 0,
            Direction::Down => self.spec_row(self.head_idx as int) == self.height - 1,
            Direction::Still => false,
        }
    }

    /// The glyph drawn for the cell at `idx`: the head glyph wherever the
    /// head stands, whatever that cell holds, else the cell's own symbol.
    pub open spec fn cell_chars(self, idx: int) -> Seq<char> {
        if idx == self.head_idx {
            "██"@
        } else {
            printable_chars(self.fields@[idx].field_type)
        }
    }

    /// The first `cols` glyphs of row `row`, concatenated left to right.
    pub open spec fn row_chars(self, row: int, cols: int) -> Seq<char>
        decreases cols,
    {
        if cols <= 0 {
            Seq::empty()
        } else {
            self.row_chars(row, cols - 1) + self.cell_chars(row * self.width + (cols - 1))
        }
    }

    /// The cell index one step ahead of the head in the current
    /// direction. Meaningful only when no wall is hit.
    pub open spec fn candidate(self) -> int {
        match self.direction {
            Direction::Left => self.head_idx - 1,
            Direction::Right => self.head_idx + 1,
            Direction::Up => self.head_idx - self.width,
            Direction::Down => self.head_idx + self.width,
            Direction::Still => self.head_idx as int,
        }
    }
}

/// Everything but the cells and the terminal flag is kept.
pub open spec fn frame_kept(pre: Board, post: Board) -> bool {
    &&& post.width == pre.width
    &&& post.height == pre.height
    &&& post.direction == pre.direction
    &&& post.fields@.len() == pre.fields@.len()
}

/// The tick outcome when the head steps onto the apple: the snake grows by
/// one, every live segment's counter is extended by one tick before the
/// decay pass (so the net effect leaves the body untouched), the candidate
/// cell becomes the new head segment, and — while there is still room — a
/// fresh apple appears on some previously empty cell.
pub open spec fn apple_step(pre: Board, post: Board, c: int) -> bool {
    &&& post.snake_length == pre.snake_length + 1
    &&& post.game_over == pre.game_over
    &&& post.head_idx == c
    &&& post.fields@[c] == (Field {
        field_type: FieldType::SNAKE,
        longevity: post.snake_length,
    })
    &&& if pre.snake_length + 1 < pre.area() {
        exists|a: int|
            0 <= a < pre.fields@.len() && a != c && (#[trigger] pre.fields@[a]).field_type
                == FieldType::EMPTY && post.fields@[a] == (Field {
                field_type: FieldType::APPLE,
                longevity: 0,
            }) && forall|i: int|
                0 <= i < pre.fields@.len() && i != c && i != a ==> #[trigger] post.fields@[i]
                    == decayed(grown(pre.fields@[i]))
    } else {
        forall|i: int|
            0 <= i < pre.fields@.len() && i != c ==> #[trigger] post.fields@[i] == decayed(
                grown(pre.fields@[i]),
            )
    }
}

/// The tick outcome when the candidate cell holds no apple: the decay pass
/// runs over the whole grid, and then either the candidate still holds a
/// body segment — the snake bit itself, the game is over and the head does
/// not move — or the head advances onto the candidate, which becomes the
/// new head segment.
pub open spec fn plain_step(pre: Board, post: Board, c: int) -> bool {
    &&& post.snake_length == pre.snake_length
    &&& forall|i: int|
        0 <= i < pre.fields@.len() && i != c ==> #[trigger] post.fields@[i] == decayed(
            pre.fields@[i],
        )
    &&& if decayed(pre.fields@[c]).field_type == FieldType::SNAKE {
        &&& post.game_over
        &&& post.head_idx == pre.head_idx
        &&& post.fields@[c] == decayed(pre.fields@[c])
    } else {
        &&& post.game_over == pre.game_over
        &&& post.head_idx == c
        &&& post.fields@[c] == (Field {
            field_type: FieldType::SNAKE,
            longevity: pre.snake_length,
        })
    }
}

/// The full pre/post relation of one tick, covering every case: the
/// do-nothing states, the wall collision, the apple step and the plain
/// step. [`Board::tick`] ensures exactly this relation.
pub open spec fn tick_rel(pre: Board, post: Board) -> bool {
    if pre.direction == Direction::Still || pre.game_over {
        post == pre
    } else if pre.wall_hit() {
        &&& frame_kept(pre, post)
        &&& post.fields@ == pre.fields@
        &&& post.head_idx == pre.head_idx
        &&& post.snake_length == pre.snake_length
        &&& post.game_over
    } else {
        &&& frame_kept(pre, post)
        &&& if pre.fields@[pre.candidate()].field_type == FieldType::APPLE {
            apple_step(pre, post, pre.candidate())
        } else {
            plain_step(pre, post, pre.candidate())
        }
    }
}

/// Row/column geometry of a cell index on a `w` by `h` grid.
proof fn lemma_idx_geometry(idx: int, w: int, h: int)
    requires
        0 < w,
        0 < h,
        0 <= idx < w * h,
    ensures
        0 <= idx % w < w,
        0 <= idx / w < h,
        idx == w * (idx / w) + idx % w,
{
    vstd::arithmetic::div_mod::lemma_fundamental_div_mod(idx, w);
    vstd::arithmetic::div_mod::lemma_mod_bound(idx, w);
    assert(0 <= idx / w < h) by (nonlinear_arith)
        requires
            0 < w,
            0 < h,
            0 <= idx < w * h,
            idx == w * (idx / w) + idx % w,
            0 <= idx % w < w,
    ;
}

/// A head that is not on the leftmost column has a left neighbour.
proof fn lemma_step_left(idx: int, w: int, h: int)
    requires
        0 < w,
        0 < h,
        0 <= idx < w * h,
        idx % w > 0,
    ensures
        1 <= idx,
        2 <= w,
{
    lemma_idx_geometry(idx, w, h);
    assert(w * (idx / w) >= 0) by (nonlinear_arith)
        requires
            0 <= idx / w,
            0 < w,
    ;
}

/// A head that is not on the rightmost column has a right neighbour.
proof fn lemma_step_right(idx: int, w: int, h: int)
    requires
        0 < w,
        0 < h,
        0 <= idx < w * h,
        idx % w < w - 1,
    ensures
        idx + 1 < w * h,
        2 <= w,
{
    lemma_idx_geometry(idx, w, h);
    assert(idx + 1 < w * h) by (nonlinear_arith)
        requires
            0 < w,
            0 < h,
            idx == w * (idx / w) + idx % w,
            0 <= idx / w < h,
            0 <= idx % w < w - 1,
    ;
}

/// A head that is not on the topmost row has an upper neighbour.
proof fn lemma_step_up(idx: int, w: int, h: int)
    requires
        0 < w,
        0 < h,
        0 <= idx < w * h,
        idx / w > 0,
    ensures
        w <= idx,
        2 <= h,
{
    lemma_idx_geometry(idx, w, h);
    assert(w <= w * (idx / w)) by (nonlinear_arith)
        requires
            1 <= idx / w,
            0 < w,
    ;
}

/// A head that is not on the bottommost row has a lower neighbour.
proof fn lemma_step_down(idx: int, w: int, h: int)
    requires
        0 < w,
        0 < h,
        0 <= idx < w * h,
        idx / w < h - 1,
    ensures
        idx + w < w * h,
        2 <= h,
{
    lemma_idx_geometry(idx, w, h);
    assert(idx + w < w * h) by (nonlinear_arith)
        requires
            0 < w,
            0 < h,
            idx == w * (idx / w) + idx % w,
            0 <= idx / w < h - 1,
            0 <= idx % w < w,
    ;
}

/// The shape of the cells after the growth pass and the apple
/// replacement, but before the decay pass, on a tick whose candidate cell
/// `c` held the apple: every cell is the grown original, except that —
/// when the snake still has room — some empty cell `a` received the next
/// apple.
pub open spec fn apple_mid_rel(pre: Board, mid: Seq<Field>, c: int) -> bool {
    &&& mid.len() == pre.fields@.len()
    &&& if pre.snake_length + 1 < pre.area() {
        exists|a: int|
            0 <= a < mid.len() && a != c && (#[trigger] pre.fields@[a]).field_type
                == FieldType::EMPTY && mid[a] == (Field {
                field_type: FieldType::APPLE,
                longevity: 0,
            }) && forall|i: int|
                0 <= i < mid.len() && i != a ==> #[trigger] mid[i] == grown(pre.fields@[i])
    } else {
        forall|i: int| 0 <= i < mid.len() ==> #[trigger] mid[i] == grown(pre.fields@[i])
    }
}

/// The common context of a tick that moved off `pre.head_idx`: the state
/// is sound, the game is running, and the candidate cell `c` is on the
/// grid.
pub open spec fn step_ctx(pre: Board, c: int) -> bool {
    &&& pre.inv()
    &&& !pre.game_over
    &&& pre.direction != Direction::Still
    &&& !pre.wall_hit()
    &&& c == pre.candidate()
    &&& 0 <= c < pre.area()
    &&& 1 < pre.area()
}

/// A running grid whose head does not face the wall has its candidate
/// cell on the grid: the whole context of a moving tick.
pub proof fn lemma_candidate_on_grid(pre: Board)
    requires
        pre.inv(),
        !pre.game_over,
        pre.direction != Direction::Still,
        !pre.wall_hit(),
    ensures
        step_ctx(pre, pre.candidate()),
{
    let w = pre.width as int;
    let h = pre.height as int;
    let head = pre.head_idx as int;
    lemma_idx_geometry(head, w, h);
    match pre.direction {
        Direction::Left => lemma_step_left(head, w, h),
        Direction::Right => lemma_step_right(head, w, h),
        Direction::Up => lemma_step_up(head, w, h),
        Direction::Down => lemma_step_down(head, w, h),
        Direction::Still => (),
    }
    assert(1 < pre.area()) by (nonlinear_arith)
        requires
            1 <= pre.width,
            1 <= pre.height,
            2 <= pre.width || 2 <= pre.height,
    ;
}

/// On a tick that ate the apple, the snake had room to grow.
pub proof fn lemma_room_to_grow(pre: Board, c: int)
    requires
        step_ctx(pre, c),
        pre.fields@[c].field_type == FieldType::APPLE,
    ensures
        pre.snake_length < pre.area(),
{
    lemma_count_type_pos(pre.fields@, FieldType::APPLE, c);
}

/// After the growth pass on a tick that ate the apple, and while the
/// snake still has room to grow further, some cell of the grid is still
/// empty: the body takes at most `snake_length` cells and the apple one
/// more.
proof fn lemma_empty_cell_exists(pre: Board, c: int, grow_cells: Seq<Field>)
    requires
        step_ctx(pre, c),
        pre.fields@[c].field_type == FieldType::APPLE,
        pre.snake_length + 1 < pre.area(),
        grow_cells.len() == pre.fields@.len(),
        forall|j: int|
            0 <= j < grow_cells.len() ==> #[trigger] grow_cells[j] == grown(pre.fields@[j]),
    ensures
        exists|j: int|
            0 <= j < grow_cells.len() && (#[trigger] grow_cells[j]).field_type
                == FieldType::EMPTY,
{
    lemma_count_grow(pre.fields@, grow_cells);
    lemma_snake_count_bounded(pre.fields@, pre.snake_length as int);
    lemma_count_type_pos(pre.fields@, FieldType::APPLE, c);
    lemma_count_type_total(grow_cells);
    assert(count_type(grow_cells, FieldType::EMPTY) >= 1);
    if !(exists|j: int|
        0 <= j < grow_cells.len() && (#[trigger] grow_cells[j]).field_type == FieldType::EMPTY) {
        assert forall|j: int|
            0 <= j < grow_cells.len() implies (#[trigger] grow_cells[j]).field_type
            != FieldType::EMPTY by {}
        lemma_count_type_none(grow_cells, FieldType::EMPTY);
        assert(false);
    }
}

/// The cells right after the apple branch are pointwise the grown
/// originals, with the replacement apple written onto some empty cell
/// while there was room.
#[verifier::spinoff_prover]
#[verifier::rlimit(100)]
proof fn lemma_mid_shape(pre: Board, c: int, grow_cells: Seq<Field>, cur: Seq<Field>)
    requires
        step_ctx(pre, c),
        pre.fields@[c].field_type == FieldType::APPLE,
        grow_cells.len() == pre.fields@.len(),
        forall|j: int|
            0 <= j < grow_cells.len() ==> #[trigger] grow_cells[j] == grown(pre.fields@[j]),
        if pre.snake_length + 1 < pre.area() {
            exists|a: int|
                0 <= a < grow_cells.len() && (#[trigger] grow_cells[a]).field_type
                    == FieldType::EMPTY && cur == grow_cells.update(
                    a,
                    Field { field_type: FieldType::APPLE, longevity: 0 },
                )
        } else {
            cur == grow_cells
        },
    ensures
        apple_mid_rel(pre, cur, c),
{
    if pre.snake_length + 1 < pre.area() {
        let apple = Field { field_type: FieldType::APPLE, longevity: 0 };
        let a = choose|a: int|
            0 <= a < grow_cells.len() && (#[trigger] grow_cells[a]).field_type
                == FieldType::EMPTY && cur == grow_cells.update(a, apple);
        assert(grow_cells[a] == grown(pre.fields@[a]));
        assert(pre.fields@[a].field_type == FieldType::EMPTY);
        assert(grow_cells[c] == grown(pre.fields@[c]));
        assert(a != c);
        assert(cur[a] == apple);
        assert forall|i: int| 0 <= i < cur.len() && i != a implies #[trigger] cur[i] == grown(
            pre.fields@[i],
        ) by {
            assert(cur[i] == grow_cells[i]);
        }
        assert(apple_mid_rel(pre, cur, c));
    } else {
        assert forall|i: int| 0 <= i < cur.len() implies #[trigger] cur[i] == grown(
            pre.fields@[i],
        ) by {}
        assert(apple_mid_rel(pre, cur, c));
    }
}

/// The tick ended in a self-collision: the candidate cell still held a
/// body segment after the decay pass. The game ends, the head does not
/// move, and the invariant is preserved.
proof fn lemma_tick_collision(pre: Board, post: Board, c: int, mid: Seq<Field>)
    requires
        step_ctx(pre, c),
        mid.len() == pre.fields@.len(),
        pre.fields@[c].field_type == FieldType::APPLE ==> apple_mid_rel(pre, mid, c),
        pre.fields@[c].field_type != FieldType::APPLE ==> mid == pre.fields@,
        post.fields@.len() == mid.len(),
        forall|j: int| 0 <= j < mid.len() ==> #[trigger] post.fields@[j] == decayed(mid[j]),
        post.fields@[c].field_type == FieldType::SNAKE,
        post.width == pre.width,
        post.height == pre.height,
        post.direction == pre.direction,
        post.game_over,
        post.head_idx == pre.head_idx,
        pre.fields@[c].field_type != FieldType::APPLE ==> post.snake_length == pre.snake_length,
    ensures
        tick_rel(pre, post),
        post.inv(),
{
    if pre.fields@[c].field_type == FieldType::APPLE {
        // the candidate kept the apple through growth and decay: it
        // cannot have been a body segment
        lemma_room_to_grow(pre, c);
        if pre.snake_length + 1 < pre.area() {
            let a = choose|a: int|
                0 <= a < mid.len() && a != c && (#[trigger] pre.fields@[a]).field_type
                    == FieldType::EMPTY && mid[a] == (Field {
                    field_type: FieldType::APPLE,
                    longevity: 0,
                }) && forall|i: int|
                    0 <= i < mid.len() && i != a ==> #[trigger] mid[i] == grown(pre.fields@[i]);
            assert(mid[c] == grown(pre.fields@[c]));
        }
        assert(mid[c] == pre.fields@[c]);
        assert(post.fields@[c] == decayed(pre.fields@[c]));
        assert(false);
    }
    // the plain collision step
    assert forall|i: int| 0 <= i < pre.fields@.len() && i != c implies #[trigger] post.fields@[i]
        == decayed(pre.fields@[i]) by {
        assert(mid[i] == pre.fields@[i]);
    }
    assert(post.fields@[c] == decayed(pre.fields@[c]));
    assert(plain_step(pre, post, c));

    // the invariant survives the decay pass
    assert forall|i: int| 0 <= i < post.fields@.len() implies cell_wf(
        #[trigger] post.fields@[i],
        post.snake_length,
    ) by {
        assert(post.fields@[i] == decayed(pre.fields@[i]));
        assert(cell_wf(pre.fields@[i], pre.snake_length));
    }
    assert forall|i: int, j: int|
        0 <= i < post.fields@.len() && 0 <= j < post.fields@.len() && i != j && (#[trigger] post.fields@[i]).field_type
            == FieldType::SNAKE && (#[trigger] post.fields@[j]).field_type
            == FieldType::SNAKE implies post.fields@[i].longevity != post.fields@[j].longevity by {
        assert(post.fields@[i] == decayed(pre.fields@[i]));
        assert(post.fields@[j] == decayed(pre.fields@[j]));
    }
    lemma_count_decay(pre.fields@, post.fields@);
}

/// The frame of a tick whose head advanced onto the candidate cell `c`.
pub open spec fn move_frame(pre: Board, post: Board, c: int) -> bool {
    &&& post.width == pre.width
    &&& post.height == pre.height
    &&& post.direction == pre.direction
    &&& post.game_over == pre.game_over
    &&& post.head_idx == c
}

/// The head advanced onto an apple and the snake still had room after
/// growing: the apple branch with a replacement apple placed.
#[verifier::spinoff_prover]
#[verifier::rlimit(100)]
proof fn lemma_tick_move_apple_placed(pre: Board, post: Board, c: int, mid: Seq<Field>, dec: Seq<Field>)
    requires
        step_ctx(pre, c),
        pre.fields@[c].field_type == FieldType::APPLE,
        pre.snake_length + 1 < pre.area(),
        apple_mid_rel(pre, mid, c),
        dec.len() == mid.len(),
        forall|j: int| 0 <= j < mid.len() ==> #[trigger] dec[j] == decayed(mid[j]),
        move_frame(pre, post, c),
        post.snake_length == pre.snake_length + 1,
        post.fields@ == dec.update(
            c,
            Field { field_type: FieldType::SNAKE, longevity: post.snake_length },
        ),
    ensures
        apple_step(pre, post, c),
        post.inv(),
        frame_kept(pre, post),
{
    let len = pre.fields@.len();
    let snake_new = Field { field_type: FieldType::SNAKE, longevity: post.snake_length };
    let apple = Field { field_type: FieldType::APPLE, longevity: 0 };
    lemma_count_type_pos(pre.fields@, FieldType::APPLE, c);
    assert(count_type(pre.fields@, FieldType::APPLE) == 1);

    let a = choose|a: int|
        0 <= a < mid.len() && a != c && (#[trigger] pre.fields@[a]).field_type
            == FieldType::EMPTY && mid[a] == (Field {
            field_type: FieldType::APPLE,
            longevity: 0,
        }) && forall|i: int|
            0 <= i < mid.len() && i != a ==> #[trigger] mid[i] == grown(pre.fields@[i]);

    // off the two special cells, growth and decay cancel
    assert forall|i: int| 0 <= i < len && i != c && i != a implies #[trigger] post.fields@[i]
        == pre.fields@[i] && post.fields@[i] == decayed(grown(pre.fields@[i])) by {
        assert(mid[i] == grown(pre.fields@[i]));
        assert(post.fields@[i] == dec[i]);
        assert(cell_wf(pre.fields@[i], pre.snake_length));
    }
    assert(mid[a] == apple);
    assert(post.fields@[a] == dec[a]);
    assert(post.fields@[a] == apple);
    assert(apple_step(pre, post, c));

    // apple bookkeeping by two single-cell updates
    assert(post.fields@ =~= pre.fields@.update(a, apple).update(c, snake_new));
    lemma_count_type_update(pre.fields@, a, apple, FieldType::APPLE);
    lemma_count_type_update(pre.fields@.update(a, apple), c, snake_new, FieldType::APPLE);
    assert(count_type(post.fields@, FieldType::APPLE) == 1);

    // cell well-formedness and distinct counters
    assert forall|i: int| 0 <= i < len implies cell_wf(
        #[trigger] post.fields@[i],
        post.snake_length,
    ) by {
        assert(cell_wf(pre.fields@[i], pre.snake_length));
        if i != c && i != a {
            assert(post.fields@[i] == pre.fields@[i]);
        }
    }
    assert forall|i: int, j: int|
        0 <= i < len && 0 <= j < len && i != j && (#[trigger] post.fields@[i]).field_type
            == FieldType::SNAKE && (#[trigger] post.fields@[j]).field_type
            == FieldType::SNAKE implies post.fields@[i].longevity != post.fields@[j].longevity by {
        if i != c && i != a {
            assert(post.fields@[i] == pre.fields@[i]);
            assert(cell_wf(pre.fields@[i], pre.snake_length));
        }
        if j != c && j != a {
            assert(post.fields@[j] == pre.fields@[j]);
            assert(cell_wf(pre.fields@[j], pre.snake_length));
        }
    }
}

/// The head advanced onto the last apple: the grid is full afterwards, so
/// no new apple appears.
#[verifier::spinoff_prover]
#[verifier::rlimit(100)]
proof fn lemma_tick_move_apple_full(pre: Board, post: Board, c: int, mid: Seq<Field>, dec: Seq<Field>)
    requires
        step_ctx(pre, c),
        pre.fields@[c].field_type == FieldType::APPLE,
        pre.snake_length < pre.area(),
        pre.snake_length + 1 >= pre.area(),
        apple_mid_rel(pre, mid, c),
        dec.len() == mid.len(),
        forall|j: int| 0 <= j < mid.len() ==> #[trigger] dec[j] == decayed(mid[j]),
        move_frame(pre, post, c),
        post.snake_length == pre.snake_length + 1,
        post.fields@ == dec.update(
            c,
            Field { field_type: FieldType::SNAKE, longevity: post.snake_length },
        ),
    ensures
        apple_step(pre, post, c),
        post.inv(),
        frame_kept(pre, post),
{
    let len = pre.fields@.len();
    let snake_new = Field { field_type: FieldType::SNAKE, longevity: post.snake_length };
    lemma_count_type_pos(pre.fields@, FieldType::APPLE, c);
    assert(count_type(pre.fields@, FieldType::APPLE) == 1);

    assert forall|i: int| 0 <= i < len && i != c implies #[trigger] post.fields@[i]
        == pre.fields@[i] && post.fields@[i] == decayed(grown(pre.fields@[i])) by {
        assert(mid[i] == grown(pre.fields@[i]));
        assert(post.fields@[i] == dec[i]);
        assert(cell_wf(pre.fields@[i], pre.snake_length));
    }
    assert(apple_step(pre, post, c));

    assert(post.fields@ =~= pre.fields@.update(c, snake_new));
    lemma_count_type_update(pre.fields@, c, snake_new, FieldType::APPLE);
    assert(count_type(post.fields@, FieldType::APPLE) == 0);

    assert forall|i: int| 0 <= i < len implies cell_wf(
        #[trigger] post.fields@[i],
        post.snake_length,
    ) by {
        assert(cell_wf(pre.fields@[i], pre.snake_length));
        if i != c {
            assert(post.fields@[i] == pre.fields@[i]);
        }
    }
    assert forall|i: int, j: int|
        0 <= i < len && 0 <= j < len && i != j && (#[trigger] post.fields@[i]).field_type
            == FieldType::SNAKE && (#[trigger] post.fields@[j]).field_type
            == FieldType::SNAKE implies post.fields@[i].longevity != post.fields@[j].longevity by {
        if i != c {
            assert(post.fields@[i] == pre.fields@[i]);
            assert(cell_wf(pre.fields@[i], pre.snake_length));
        }
        if j != c {
            assert(post.fields@[j] == pre.fields@[j]);
            assert(cell_wf(pre.fields@[j], pre.snake_length));
        }
    }
}

/// The head advanced onto an apple-free, body-free cell: the plain move.
#[verifier::spinoff_prover]
#[verifier::rlimit(100)]
proof fn lemma_tick_move_plain(pre: Board, post: Board, c: int, dec: Seq<Field>)
    requires
        step_ctx(pre, c),
        pre.fields@[c].field_type != FieldType::APPLE,
        dec.len() == pre.fields@.len(),
        forall|j: int| 0 <= j < pre.fields@.len() ==> #[trigger] dec[j] == decayed(
            pre.fields@[j],
        ),
        dec[c].field_type != FieldType::SNAKE,
        move_frame(pre, post, c),
        post.snake_length == pre.snake_length,
        post.fields@ == dec.update(
            c,
            Field { field_type: FieldType::SNAKE, longevity: post.snake_length },
        ),
    ensures
        plain_step(pre, post, c),
        post.inv(),
        frame_kept(pre, post),
{
    let len = pre.fields@.len();
    let snake_new = Field { field_type: FieldType::SNAKE, longevity: post.snake_length };

    assert forall|i: int| 0 <= i < len && i != c implies #[trigger] post.fields@[i] == decayed(
        pre.fields@[i],
    ) by {
        assert(post.fields@[i] == dec[i]);
    }
    assert(plain_step(pre, post, c));

    lemma_count_decay(pre.fields@, dec);
    assert(dec[c] == decayed(pre.fields@[c]));
    assert(dec[c].field_type != FieldType::APPLE);
    lemma_count_type_update(dec, c, snake_new, FieldType::APPLE);
    assert(count_type(post.fields@, FieldType::APPLE) == count_type(
        pre.fields@,
        FieldType::APPLE,
    ));

    assert forall|i: int| 0 <= i < len implies cell_wf(
        #[trigger] post.fields@[i],
        post.snake_length,
    ) by {
        assert(cell_wf(pre.fields@[i], pre.snake_length));
        if i != c {
            assert(post.fields@[i] == decayed(pre.fields@[i]));
        }
    }
    assert forall|i: int, j: int|
        0 <= i < len && 0 <= j < len && i != j && (#[trigger] post.fields@[i]).field_type
            == FieldType::SNAKE && (#[trigger] post.fields@[j]).field_type
            == FieldType::SNAKE implies post.fields@[i].longevity != post.fields@[j].longevity by {
        if i != c {
            assert(post.fields@[i] == decayed(pre.fields@[i]));
            assert(cell_wf(pre.fields@[i], pre.snake_length));
        }
        if j != c {
            assert(post.fields@[j] == decayed(pre.fields@[j]));
            assert(cell_wf(pre.fields@[j], pre.snake_length));
        }
    }
}

/// A grid holding a single apple and otherwise empty cells satisfies the
/// invariant for a snake of length one.
proof fn lemma_fresh_grid_inv(b: Board, a: int)
    requires
        b.grid_wf(),
        b.snake_length == 1,
        0 <= a < b.fields@.len(),
        b.fields@[a] == (Field { field_type: FieldType::APPLE, longevity: 0 }),
        forall|i: int|
            0 <= i < b.fields@.len() && i != a ==> b.fields@[i] == (Field {
                field_type: FieldType::EMPTY,
                longevity: 0,
            }),
    ensures
        b.inv(),
{
    let apple = Field { field_type: FieldType::APPLE, longevity: 0 };
    let blank = Field { field_type: FieldType::EMPTY, longevity: 0 };
    let e = b.fields@.update(a, blank);
    assert forall|i: int| 0 <= i < e.len() implies (#[trigger] e[i]).field_type
        != FieldType::APPLE by {
        if i != a {
            assert(e[i] == b.fields@[i]);
        }
    }
    lemma_count_type_none(e, FieldType::APPLE);
    lemma_count_type_update(e, a, apple, FieldType::APPLE);
    assert(e.update(a, apple) =~= b.fields@);
    assert(count_type(b.fields@, FieldType::APPLE) == 1);
}

fn empty_fields(n: usize) -> (r: Vec<Field>)
    ensures
        r@.len() == n,
        forall|i: int|
            0 <= i < r@.len() ==> r@[i] == (Field { field_type: FieldType::EMPTY, longevity: 0 }),
{
    let mut fields: Vec<Field> = Vec::new();
    while fields.len() < n
        invariant
            fields@.len() <= n,
            forall|i: int|
                0 <= i < fields@.len() ==> fields@[i] == (Field {
                    field_type: FieldType::EMPTY,
                    longevity: 0,
                }),
        decreases n - fields.len(),
    {
        fields.push(Field::new());
    }
    fields
}

impl Board {
    /// A fresh grid: every cell empty, the head placed on a random cell
    /// (tracked only through `head_idx` until the first tick writes it),
    /// no direction yet, a snake of length one, and a single apple placed
    /// on a random empty cell.
    #[verifier::rlimit(60)]
    pub fn new(width: u32, height: u32) -> (r: Board)
        requires
            0 < width,
            0 < height,
            width * height <= u32::MAX,
        ensures
            r.inv(),
            r.width == width,
            r.height == height,
            r.head_idx < width * height,
            r.direction == Direction::Still,
            r.snake_length == 1,
            !r.game_over,
            exists|a: int|
                0 <= a < r.fields@.len() && (#[trigger] r.fields@[a]) == (Field {
                    field_type: FieldType::APPLE,
                    longevity: 0,
                }) && forall|i: int|
                    0 <= i < r.fields@.len() && i != a ==> r.fields@[i] == (Field {
                        field_type: FieldType::EMPTY,
                        longevity: 0,
                    }),
    {
        proof {
            assert(width * height >= 1) by (nonlinear_arith)
                requires
                    1 <= width,
                    1 <= height,
            ;
        }
        let head_idx = random_below(width * height);

        let fields = empty_fields((width * height) as usize);

        let mut return_obj = Board {
            width,
            height,
            fields,
            head_idx,
            direction: Direction::Still,
            snake_length: 1,
            game_over: false,
        };

        // cell 0 witnesses the empty cell that apple placement asks for
        assert(return_obj.fields@[0].field_type == FieldType::EMPTY);

        let ghost pre_cells = return_obj.fields@;
        return_obj.generate_apple_field();

        proof {
            let apple = Field { field_type: FieldType::APPLE, longevity: 0 };
            let a = choose|a: int|
                0 <= a < pre_cells.len() && (#[trigger] pre_cells[a]).field_type
                    == FieldType::EMPTY && return_obj.fields@ == pre_cells.update(a, apple);
            assert(return_obj.fields@[a] == apple);
            assert forall|i: int| 0 <= i < return_obj.fields@.len() && i != a implies
                return_obj.fields@[i] == (Field {
                field_type: FieldType::EMPTY,
                longevity: 0,
            }) by {
                assert(return_obj.fields@[i] == pre_cells[i]);
            }
            lemma_fresh_grid_inv(return_obj, a);
        }

        return return_obj;
    }

    /// Deterministic constructor: the same fresh grid as [`Board::new`],
    /// with the head cell and the apple cell supplied by the caller
    /// instead of drawn from a random source. Lets a driver or a test
    /// inject its own placement.
    pub fn new_with_positions(width: u32, height: u32, head_idx: u32, apple_idx: u32) -> (r: Board)
        requires
            0 < width,
            0 < height,
            width * height <= u32::MAX,
            head_idx < width * height,
            apple_idx < width * height,
        ensures
            r.inv(),
            r.width == width,
            r.height == height,
            r.head_idx == head_idx,
            r.direction == Direction::Still,
            r.snake_length == 1,
            !r.game_over,
            r.fields@.len() == width * height,
            r.fields@[apple_idx as int] == (Field { field_type: FieldType::APPLE, longevity: 0 }),
            forall|i: int|
                0 <= i < r.fields@.len() && i != apple_idx ==> r.fields@[i] == (Field {
                    field_type: FieldType::EMPTY,
                    longevity: 0,
                }),
    {
        let mut fields = empty_fields((width * height) as usize);
        let mut f = Field::new();
        f.set(FieldType::APPLE, 0);
        fields.set(apple_idx as usize, f);

        let return_obj = Board {
            width,
            height,
            fields,
            head_idx,
            direction: Direction::Still,
            snake_length: 1,
            game_over: false,
        };

        proof {
            lemma_fresh_grid_inv(return_obj, apple_idx as int);
        }

        return return_obj;
    }

    /// The row-major cell index of a grid coordinate. `column` may equal
    /// `width`: the rendering uses that as a row's one-past-the-end index.
    pub fn get_index(&self, row: u32, column: u32) -> (r: usize)
        requires
            self.grid_wf(),
            row < self.height,
            column <= self.width,
        ensures
            r == row * self.width + column,
    {
        proof {
            assert((row as int) * (self.width as int) + column <= (self.width as int) * (
            self.height as int)) by (nonlinear_arith)
                requires
                    row < self.height,
                    column <= self.width,
                    0 < self.width,
            ;
        }
        (row * self.width + column) as usize
    }

    /// The column and row of a cell index, in that order.
    pub fn get_coordinates(&self, idx: u32) -> (r: [u32; 2])
        requires
            self.width > 0,
        ensures
            r[0] == self.spec_col(idx as int),
            r[1] == self.spec_row(idx as int),
    {
        [idx % self.width, idx / self.width]
    }

    /// One simulation step, exactly the relation [`tick_rel`]: nothing
    /// happens before the first direction is chosen or after the game
    /// ended; a move against the wall merely ends the game; otherwise the
    /// head advances, eating an apple grows the snake by one (the growth
    /// pass cancels this tick's decay on the body) and a new apple is
    /// placed while there is room, the whole grid decays, and stepping
    /// onto a still-occupied cell ends the game with the head unmoved —
    /// a cell whose segment vacated this very tick is passable.
    #[verifier::spinoff_prover]
    #[verifier::rlimit(100)]
    pub fn tick(&mut self)
        requires
            old(self).inv(),
        ensures
            final(self).inv(),
            tick_rel(*old(self), *final(self)),
    {
        if self.direction == Direction::Still || self.game_over {
            return ;
        }

        let head_coordinates = self.get_coordinates(self.head_idx);
        proof {
            lemma_idx_geometry(self.head_idx as int, self.width as int, self.height as int);
        }

        let cand: u32;
        match self.direction {
            Direction::Left => {
                if head_coordinates[0] <= 0 {
                    self.game_over = true;
                    return ;
                }
                proof {
                    lemma_step_left(
                        self.head_idx as int,
                        self.width as int,
                        self.height as int,
                    );
                }
                cand = self.head_idx - 1;
            }
            Direction::Right => {
                if head_coordinates[0] >= self.width - 1 {
                    self.game_over = true;
                    return ;
                }
                proof {
                    lemma_step_right(
                        self.head_idx as int,
                        self.width as int,
                        self.height as int,
                    );
                }
                cand = self.head_idx + 1;
            }
            Direction::Up => {
                if head_coordinates[1] <= 0 {
                    self.game_over = true;
                    return ;
                }
                proof {
                    lemma_step_up(
                        self.head_idx as int,
                        self.width as int,
                        self.height as int,
                    );
                }
                cand = self.head_idx - self.width;
            }
            Direction::Down => {
                if head_coordinates[1] >= self.height - 1 {
                    self.game_over = true;
                    return ;
                }
                proof {
                    lemma_step_down(
                        self.head_idx as int,
                        self.width as int,
                        self.height as int,
                    );
                }
                cand = self.head_idx + self.width;
            }
            Direction::Still => {
                proof {
                    assert(false);
                }
                cand = 0;
            }
        }

        let ghost pre = *old(self);
        let ghost c = cand as int;

        proof {
            assert(!pre.wall_hit());
            assert(cand == pre.candidate());
            assert(0 <= c < pre.area());
            assert(2 <= pre.width || 2 <= pre.height);
            assert(1 < pre.area()) by (nonlinear_arith)
                requires
                    1 <= pre.width,
                    1 <= pre.height,
                    2 <= pre.width || 2 <= pre.height,
            ;
        }

        let cand_us = cand as usize;
        let ghost ate = pre.fields@[c].field_type == FieldType::APPLE;

        if self.fields[cand_us].field_type == FieldType::APPLE {
            proof {
                lemma_room_to_grow(pre, c);
            }
            self.snake_length = self.snake_length + 1;

            let ghost pre_grow = self.fields@;
            let mut i: usize = 0;
            while i < self.fields.len()
                invariant
                    self.width == pre.width,
                    self.height == pre.height,
                    self.head_idx == pre.head_idx,
                    self.direction == pre.direction,
                    self.game_over == pre.game_over,
                    self.snake_length == pre.snake_length + 1,
                    pre.snake_length < pre.area() <= u32::MAX,
                    forall|j: int|
                        0 <= j < pre_grow.len() ==> cell_wf(
                            #[trigger] pre_grow[j],
                            pre.snake_length,
                        ),
                    self.fields@.len() == pre_grow.len(),
                    i <= pre_grow.len(),
                    forall|j: int| 0 <= j < i ==> #[trigger] self.fields@[j] == grown(pre_grow[j]),
                    forall|j: int|
                        i <= j < pre_grow.len() ==> #[trigger] self.fields@[j] == pre_grow[j],
                decreases pre_grow.len() - i,
            {
                let mut f = self.fields[i];
                if f.field_type == FieldType::SNAKE {
                    f.longevity = f.longevity + 1;
                }
                self.fields.set(i, f);
                i = i + 1;
            }

            let ghost grow_cells = self.fields@;

            let room = self.snake_length < self.height * self.width;
            proof {
                assert(room == (pre.snake_length + 1 < pre.area()));
            }
            if room {
                proof {
                    lemma_empty_cell_exists(pre, c, grow_cells);
                }
                self.generate_apple_field();
            }

            proof {
                lemma_mid_shape(pre, c, grow_cells, self.fields@);
            }
        }

        let ghost mid_cells = self.fields@;
        let ghost mid_len = self.snake_length;

        let mut i: usize = 0;
        while i < self.fields.len()
            invariant
                self.width == pre.width,
                self.height == pre.height,
                self.head_idx == pre.head_idx,
                self.direction == pre.direction,
                self.game_over == pre.game_over,
                self.snake_length == mid_len,
                self.fields@.len() == mid_cells.len(),
                i <= mid_cells.len(),
                forall|j: int| 0 <= j < i ==> #[trigger] self.fields@[j] == decayed(mid_cells[j]),
                forall|j: int|
                    i <= j < mid_cells.len() ==> #[trigger] self.fields@[j] == mid_cells[j],
            decreases mid_cells.len() - i,
        {
            let mut f = self.fields[i];
            f.tick();
            self.fields.set(i, f);
            i = i + 1;
        }

        let ghost dec_cells = self.fields@;

        if self.fields[cand_us].field_type == FieldType::SNAKE {
            self.game_over = true;
            proof {
                lemma_tick_collision(pre, *self, c, mid_cells);
            }
            return ;
        }

        self.head_idx = cand;
        let mut f = self.fields[cand_us];
        f.set(FieldType::SNAKE, self.snake_length);
        self.fields.set(cand_us, f);

        proof {
            if pre.fields@[c].field_type == FieldType::APPLE {
                lemma_room_to_grow(pre, c);
                if pre.snake_length + 1 < pre.area() {
                    lemma_tick_move_apple_placed(pre, *self, c, mid_cells, dec_cells);
                } else {
                    lemma_tick_move_apple_full(pre, *self, c, mid_cells, dec_cells);
                }
            } else {
                lemma_tick_move_plain(pre, *self, c, dec_cells);
            }
            assert(tick_rel(pre, *self));
        }
    }

    /// The given row rendered as text, two columns of glyphs per cell,
    /// with the head glyph overriding whatever the head's cell happens to
    /// hold; `None` for a row off the grid. Read-only: this is the one
    /// place that reconciles the separately tracked head index with the
    /// cell array.
    pub fn row_as_string(&self, row: u32) -> (r: Option<String>)
        requires
            self.grid_wf(),
        ensures
            row < self.height ==> (r matches Some(s) && s@ == self.row_chars(
                row as int,
                self.width as int,
            )),
            row >= self.height ==> r is None,
    {
        if row >= self.height {
            return None;
        }

        let mut row_string = String::new();
        let mut column: u32 = 0;
        while column < self.width
            invariant
                self.grid_wf(),
                row < self.height,
                column <= self.width,
                row_string@ == self.row_chars(row as int, column as int),
            decreases self.width - column,
        {
            let idx = self.get_index(row, column);
            proof {
                assert((row as int) * (self.width as int) + (column as int) < (self.width as int)
                    * (self.height as int)) by (nonlinear_arith)
                    requires
                        row < self.height,
                        column < self.width,
                        0 < self.width,
                ;
            }
            let field = self.fields[idx];
            let symbol: &str = if idx as u32 == self.head_idx {
                "██"
            } else {
                FieldType::get_printable(field.field_type)
            };
            row_string.append(symbol);
            column = column + 1;
        }

        return Some(row_string);
    }

    /// Rejection sampling for the next apple: draw random cells until an
    /// empty one comes up, then turn it into the apple. The caller
    /// guarantees that an empty cell exists; the grid is otherwise left
    /// untouched. The sampling is cut off after one draw per grid cell —
    /// a scan for the first empty cell then settles the placement, so the
    /// call provably terminates rather than gambling on the dice forever.
    #[verifier::loop_isolation(false)]
    fn generate_apple_field(&mut self)
        requires
            old(self).grid_wf(),
            exists|i: int|
                0 <= i < old(self).fields@.len() && (#[trigger] old(self).fields@[i]).field_type
                    == FieldType::EMPTY,
        ensures
            final(self).width == old(self).width,
            final(self).height == old(self).height,
            final(self).head_idx == old(self).head_idx,
            final(self).direction == old(self).direction,
            final(self).snake_length == old(self).snake_length,
            final(self).game_over == old(self).game_over,
            exists|a: int|
                0 <= a < old(self).fields@.len() && (#[trigger] old(self).fields@[a]).field_type
                    == FieldType::EMPTY && final(self).fields@ == old(self).fields@.update(
                    a,
                    Field { field_type: FieldType::APPLE, longevity: 0 },
                ),
    {
        let n = (self.width * self.height) as usize;

        let mut tries: usize = 0;
        while tries < n
            invariant
                *self == *old(self),
            decreases n - tries,
        {
            let apple_idx = random_below(self.width * self.height) as usize;

            if self.fields[apple_idx].field_type == FieldType::EMPTY {
                let mut f = self.fields[apple_idx];
                f.set(FieldType::APPLE, 0);
                self.fields.set(apple_idx, f);
                return ;
            }
            tries = tries + 1;
        }

        let mut idx: usize = 0;
        while idx < n
            invariant
                *self == *old(self),
                idx <= n,
                forall|j: int|
                    0 <= j < idx ==> (#[trigger] self.fields@[j]).field_type != FieldType::EMPTY,
            decreases n - idx,
        {
            if self.fields[idx].field_type == FieldType::EMPTY {
                let mut f = self.fields[idx];
                f.set(FieldType::APPLE, 0);
                self.fields.set(idx, f);
                return ;
            }
            idx = idx + 1;
        }

        // unreachable: the caller guarantees an empty cell
        proof {
            assert(false);
        }
    }
}

} // verus!
