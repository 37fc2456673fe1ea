use vstd::prelude::*;

use crate::field::{decayed, grown, Field, FieldType};

verus! {

/// How many cells of `s` currently have occupancy `t`.
pub open spec fn count_type(s: Seq<Field>, t: FieldType) -> int
    decreases s.len(),
{
    if s.len() == 0 {
        0
    } else {
        count_type(s.drop_last(), t) + if s.last().field_type == t {
            1int
        } else {
            0int
        }
    }
}

/// How many snake segments of `s` have exactly `v` ticks of life left.
pub open spec fn count_snake_at(s: Seq<Field>, v: int) -> int
    decreases s.len(),
{
    if s.len() == 0 {
        0
    } else {
        count_snake_at(s.drop_last(), v) + if s.last().field_type == FieldType::SNAKE
            && s.last().longevity == v {
            1int
        } else {
            0int
        }
    }
}

/// No two snake segments share the same remaining life. This is what lets
/// the grid recover the body's shape from the bare counters: exactly one
/// segment can vacate per tick.
pub open spec fn distinct_snake_longevities(s: Seq<Field>) -> bool {
    forall|i: int, j: int|
        0 <= i < s.len() && 0 <= j < s.len() && i != j && (#[trigger] s[i]).field_type
            == FieldType::SNAKE && (#[trigger] s[j]).field_type == FieldType::SNAKE
            ==> s[i].longevity != s[j].longevity
}

/// A cell with the segment of remaining life `v` blanked out.
pub open spec fn erased_at(f: Field, v: int) -> Field {
    if f.field_type == FieldType::SNAKE && f.longevity == v {
        Field { field_type: FieldType::EMPTY, longevity: 0 }
    } else {
        f
    }
}

pub proof fn lemma_count_type_nonneg(s: Seq<Field>, t: FieldType)
    ensures
        0 <= count_type(s, t) <= s.len(),
    decreases s.len(),
{
    if s.len() > 0 {
        lemma_count_type_nonneg(s.drop_last(), t);
    }
}

pub proof fn lemma_count_snake_at_nonneg(s: Seq<Field>, v: int)
    ensures
        0 <= count_snake_at(s, v) <= s.len(),
    decreases s.len(),
{
    if s.len() > 0 {
        lemma_count_snake_at_nonneg(s.drop_last(), v);
    }
}

pub proof fn lemma_count_type_none(s: Seq<Field>, t: FieldType)
    requires
        forall|i: int| 0 <= i < s.len() ==> (#[trigger] s[i]).field_type != t,
    ensures
        count_type(s, t) == 0,
    decreases s.len(),
{
    if s.len() > 0 {
        assert forall|i: int| 0 <= i < s.drop_last().len() implies (#[trigger] s.drop_last()[i]).field_type
            != t by {
            assert(s.drop_last()[i] == s[i]);
        }
        lemma_count_type_none(s.drop_last(), t);
    }
}

pub proof fn lemma_count_type_pos(s: Seq<Field>, t: FieldType, i: int)
    requires
        0 <= i < s.len(),
        s[i].field_type == t,
    ensures
        count_type(s, t) >= 1,
    decreases s.len(),
{
    lemma_count_type_nonneg(s.drop_last(), t);
    if i < s.len() - 1 {
        assert(s.drop_last()[i] == s[i]);
        lemma_count_type_pos(s.drop_last(), t, i);
    }
}

pub proof fn lemma_count_snake_at_none(s: Seq<Field>, v: int)
    requires
        forall|i: int|
            0 <= i < s.len() ==> !((#[trigger] s[i]).field_type == FieldType::SNAKE
                && s[i].longevity == v),
    ensures
        count_snake_at(s, v) == 0,
    decreases s.len(),
{
    if s.len() > 0 {
        assert forall|i: int|
            0 <= i < s.drop_last().len() implies !((#[trigger] s.drop_last()[i]).field_type
            == FieldType::SNAKE && s.drop_last()[i].longevity == v) by {
            assert(s.drop_last()[i] == s[i]);
        }
        lemma_count_snake_at_none(s.drop_last(), v);
    }
}

pub proof fn lemma_count_snake_at_pos(s: Seq<Field>, v: int, i: int)
    requires
        0 <= i < s.len(),
        s[i].field_type == FieldType::SNAKE,
        s[i].longevity == v,
    ensures
        count_snake_at(s, v) >= 1,
    decreases s.len(),
{
    lemma_count_snake_at_nonneg(s.drop_last(), v);
    if i < s.len() - 1 {
        assert(s.drop_last()[i] == s[i]);
        lemma_count_snake_at_pos(s.drop_last(), v, i);
    }
}

/// Replacing the cell at `i` moves the count by the difference between the
/// new and the old cell.
pub proof fn lemma_count_type_update(s: Seq<Field>, i: int, f: Field, t: FieldType)
    requires
        0 <= i < s.len(),
    ensures
        count_type(s.update(i, f), t) == count_type(s, t) - (if s[i].field_type == t {
            1int
        } else {
            0int
        }) + (if f.field_type == t {
            1int
        } else {
            0int
        }),
    decreases s.len(),
{
    let s2 = s.update(i, f);
    if i == s.len() - 1 {
        assert(s2.drop_last() =~= s.drop_last());
    } else {
        assert(s2.drop_last() =~= s.drop_last().update(i, f));
        lemma_count_type_update(s.drop_last(), i, f, t);
        assert(s2.last() == s.last());
    }
}

/// Every cell has exactly one occupancy, so the three counts partition the
/// grid.
pub proof fn lemma_count_type_total(s: Seq<Field>)
    ensures
        count_type(s, FieldType::EMPTY) + count_type(s, FieldType::APPLE) + count_type(
            s,
            FieldType::SNAKE,
        ) == s.len(),
    decreases s.len(),
{
    if s.len() > 0 {
        lemma_count_type_total(s.drop_last());
    }
}

/// One decay pass removes exactly the snake segments whose life was down
/// to a single tick, and (as long as apples carry no countdown) leaves the
/// apples alone.
pub proof fn lemma_count_decay(s: Seq<Field>, s2: Seq<Field>)
    requires
        s2.len() == s.len(),
        forall|i: int| 0 <= i < s.len() ==> s2[i] == decayed(#[trigger] s[i]),
        forall|i: int|
            0 <= i < s.len() ==> ((#[trigger] s[i]).field_type == FieldType::APPLE
                ==> s[i].longevity == 0),
    ensures
        count_type(s2, FieldType::SNAKE) == count_type(s, FieldType::SNAKE) - count_snake_at(s, 1),
        count_type(s2, FieldType::APPLE) == count_type(s, FieldType::APPLE),
    decreases s.len(),
{
    if s.len() > 0 {
        assert forall|i: int| 0 <= i < s.drop_last().len() implies s2.drop_last()[i] == decayed(
            #[trigger] s.drop_last()[i],
        ) by {
            assert(s.drop_last()[i] == s[i]);
            assert(s2.drop_last()[i] == s2[i]);
        }
        assert forall|i: int|
            0 <= i < s.drop_last().len() && (#[trigger] s.drop_last()[i]).field_type
            == FieldType::APPLE implies s.drop_last()[i].longevity == 0 by {
            assert(s.drop_last()[i] == s[i]);
        }
        lemma_count_decay(s.drop_last(), s2.drop_last());
        assert(s2.last() == decayed(s.last()));
    }
}

/// The growth pass changes no cell's occupancy, so every count is kept.
pub proof fn lemma_count_grow(s: Seq<Field>, s2: Seq<Field>)
    requires
        s2.len() == s.len(),
        forall|i: int| 0 <= i < s.len() ==> s2[i] == grown(#[trigger] s[i]),
    ensures
        count_type(s2, FieldType::SNAKE) == count_type(s, FieldType::SNAKE),
        count_type(s2, FieldType::APPLE) == count_type(s, FieldType::APPLE),
        count_type(s2, FieldType::EMPTY) == count_type(s, FieldType::EMPTY),
    decreases s.len(),
{
    if s.len() > 0 {
        assert forall|i: int| 0 <= i < s.drop_last().len() implies s2.drop_last()[i] == grown(
            #[trigger] s.drop_last()[i],
        ) by {
            assert(s.drop_last()[i] == s[i]);
            assert(s2.drop_last()[i] == s2[i]);
        }
        lemma_count_grow(s.drop_last(), s2.drop_last());
        assert(s2.last() == grown(s.last()));
    }
}

/// Blanking out the segments of remaining life `v` removes exactly the
/// segments counted by `count_snake_at`.
pub proof fn lemma_count_erase(s: Seq<Field>, s2: Seq<Field>, v: int)
    requires
        s2.len() == s.len(),
        forall|i: int| 0 <= i < s.len() ==> s2[i] == erased_at(#[trigger] s[i], v),
    ensures
        count_type(s2, FieldType::SNAKE) == count_type(s, FieldType::SNAKE) - count_snake_at(s, v),
    decreases s.len(),
{
    if s.len() > 0 {
        assert forall|i: int| 0 <= i < s.drop_last().len() implies s2.drop_last()[i] == erased_at(
            #[trigger] s.drop_last()[i],
            v,
        ) by {
            assert(s.drop_last()[i] == s[i]);
            assert(s2.drop_last()[i] == s2[i]);
        }
        lemma_count_erase(s.drop_last(), s2.drop_last(), v);
        assert(s2.last() == erased_at(s.last(), v));
    }
}

/// With all longevities distinct, at most one segment carries the value
/// `v`.
pub proof fn lemma_distinct_snake_at(s: Seq<Field>, v: int)
    requires
        distinct_snake_longevities(s),
    ensures
        count_snake_at(s, v) <= 1,
    decreases s.len(),
{
    if s.len() > 0 {
        let s0 = s.drop_last();
        assert forall|i: int, j: int|
            0 <= i < s0.len() && 0 <= j < s0.len() && i != j && (#[trigger] s0[i]).field_type
                == FieldType::SNAKE && (#[trigger] s0[j]).field_type
                == FieldType::SNAKE implies s0[i].longevity != s0[j].longevity by {
            assert(s0[i] == s[i]);
            assert(s0[j] == s[j]);
        }
        lemma_distinct_snake_at(s0, v);
        if s.last().field_type == FieldType::SNAKE && s.last().longevity == v {
            assert forall|i: int|
                0 <= i < s0.len() implies !((#[trigger] s0[i]).field_type == FieldType::SNAKE
                && s0[i].longevity == v) by {
                assert(s0[i] == s[i]);
                assert(s[s.len() - 1].field_type == FieldType::SNAKE);
            }
            lemma_count_snake_at_none(s0, v);
        } else {
            lemma_count_snake_at_nonneg(s0, v);
        }
    }
}

/// Pigeonhole for the body encoding: distinct longevities drawn from
/// `1..=n` leave room for at most `n` snake segments.
pub proof fn lemma_snake_count_bounded(s: Seq<Field>, n: int)
    requires
        0 <= n,
        distinct_snake_longevities(s),
        forall|i: int|
            0 <= i < s.len() && (#[trigger] s[i]).field_type == FieldType::SNAKE ==> 1
                <= s[i].longevity <= n,
    ensures
        count_type(s, FieldType::SNAKE) <= n,
    decreases n,
{
    if n == 0 {
        assert forall|i: int| 0 <= i < s.len() implies (#[trigger] s[i]).field_type
            != FieldType::SNAKE by {}
        lemma_count_type_none(s, FieldType::SNAKE);
    } else {
        let s2 = Seq::new(s.len(), |i: int| erased_at(s[i], n));
        lemma_count_erase(s, s2, n);
        lemma_distinct_snake_at(s, n);
        lemma_count_snake_at_nonneg(s, n);
        assert forall|i: int, j: int|
            0 <= i < s2.len() && 0 <= j < s2.len() && i != j && (#[trigger] s2[i]).field_type
                == FieldType::SNAKE && (#[trigger] s2[j]).field_type
                == FieldType::SNAKE implies s2[i].longevity != s2[j].longevity by {
            assert(s2[i] == erased_at(s[i], n));
            assert(s2[j] == erased_at(s[j], n));
        }
        assert forall|i: int|
            0 <= i < s2.len() && (#[trigger] s2[i]).field_type == FieldType::SNAKE implies 1
            <= s2[i].longevity <= n - 1 by {
            assert(s2[i] == erased_at(s[i], n));
        }
        lemma_snake_count_bounded(s2, n - 1);
    }
}

/// Pigeonhole the other way round: when `n` distinct longevities all fit
/// in `1..=n`, every value occurs, in particular the value 1 — exactly one
/// segment is about to vacate.
pub proof fn lemma_full_snake_has_unit_segment(s: Seq<Field>, n: int)
    requires
        1 <= n,
        distinct_snake_longevities(s),
        forall|i: int|
            0 <= i < s.len() && (#[trigger] s[i]).field_type == FieldType::SNAKE ==> 1
                <= s[i].longevity <= n,
        forall|i: int|
            0 <= i < s.len() ==> ((#[trigger] s[i]).field_type == FieldType::APPLE
                ==> s[i].longevity == 0),
        count_type(s, FieldType::SNAKE) == n,
    ensures
        count_snake_at(s, 1) == 1,
{
    lemma_distinct_snake_at(s, 1);
    lemma_count_snake_at_nonneg(s, 1);
    if count_snake_at(s, 1) == 0 {
        let s2 = Seq::new(s.len(), |i: int| decayed(s[i]));
        lemma_count_decay(s, s2);
        assert forall|i: int, j: int|
            0 <= i < s2.len() && 0 <= j < s2.len() && i != j && (#[trigger] s2[i]).field_type
                == FieldType::SNAKE && (#[trigger] s2[j]).field_type
                == FieldType::SNAKE implies s2[i].longevity != s2[j].longevity by {
            assert(s2[i] == decayed(s[i]));
            assert(s2[j] == decayed(s[j]));
        }
        assert forall|i: int|
            0 <= i < s2.len() && (#[trigger] s2[i]).field_type == FieldType::SNAKE implies 1
            <= s2[i].longevity <= n - 1 by {
            assert(s2[i] == decayed(s[i]));
            if s[i].field_type == FieldType::SNAKE && s[i].longevity == 1 {
                lemma_count_snake_at_pos(s, 1, i);
            }
        }
        lemma_snake_count_bounded(s2, n - 1);
        assert(false);
    }
}

} // verus!
