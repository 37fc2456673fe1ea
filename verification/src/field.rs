use vstd::prelude::*;

verus! {

/// The role a single grid cell currently plays.
#[derive(Clone, Copy, Debug, PartialEq, Eq, Structural)]
pub enum FieldType {
    EMPTY,
    APPLE,
    SNAKE,
}

/// One grid cell: its occupancy together with the number of ticks a snake
/// segment remains before the tail recedes past it. The counter is
/// meaningful only while `field_type` is `SNAKE`.
#[derive(Clone, Copy, Debug)]
pub struct Field {
    pub field_type: FieldType,
    pub longevity: u32,
}

/// A cell is well formed when its counter agrees with its occupancy:
/// empty cells and apples carry no countdown, and a snake segment's
/// countdown is positive and never exceeds `max`.
pub open spec fn cell_wf(f: Field, max: u32) -> bool {
    &&& f.field_type == FieldType::EMPTY ==> f.longevity == 0
    &&& f.field_type == FieldType::APPLE ==> f.longevity == 0
    &&& f.field_type == FieldType::SNAKE ==> 1 <= f.longevity <= max
}

/// What one decay step ([`Field::tick`]) leaves of a cell: a positive
/// counter on a non-empty cell goes down by one, and a counter that
/// reaches zero empties the cell.
pub open spec fn decayed(f: Field) -> Field {
    if f.longevity == 0 || f.field_type == FieldType::EMPTY {
        f
    } else if f.longevity == 1 {
        Field { field_type: FieldType::EMPTY, longevity: 0 }
    } else {
        Field { field_type: f.field_type, longevity: (f.longevity - 1) as u32 }
    }
}

/// What the growth pass leaves of a cell when an apple is eaten: every
/// snake segment gains one tick of life, everything else is untouched.
pub open spec fn grown(f: Field) -> Field {
    if f.field_type == FieldType::SNAKE {
        Field { field_type: f.field_type, longevity: (f.longevity + 1) as u32 }
    } else {
        f
    }
}

/// The two-column glyph a cell is rendered as.
pub open spec fn printable_chars(t: FieldType) -> Seq<char> {
    match t {
        FieldType::APPLE => "◀▶"@,
        FieldType::SNAKE => "▓▓"@,
        FieldType::EMPTY => "░░"@,
    }
}

impl FieldType {
    /// The display glyph for a cell of this occupancy.
    pub fn get_printable(field_type: FieldType) -> (r: &'static str)
        ensures
            r@ == printable_chars(field_type),
    {
        match field_type {
            FieldType::APPLE => "◀▶",
            FieldType::SNAKE => "▓▓",
            _ => "░░",
        }
    }
}

impl Field {
    /// A fresh, empty cell.
    pub fn new() -> (r: Field)
        ensures
            r == (Field { field_type: FieldType::EMPTY, longevity: 0 }),
    {
        Field { field_type: FieldType::EMPTY, longevity: 0 }
    }

    /// One decay step. Idempotent on empty cells: a zero counter is left
    /// alone, so no underflow is possible.
    pub fn tick(&mut self)
        ensures
            *final(self) == decayed(*old(self)),
    {
        if self.longevity == 0 || self.field_type == FieldType::EMPTY {
            return;
        }

        self.longevity = self.longevity - 1;
        if self.longevity == 0 {
            self.field_type = FieldType::EMPTY;
        }
    }

    /// Overwrite the cell unconditionally with the given occupancy and
    /// counter.
    pub fn set(&mut self, field_type: FieldType, longevity: u32)
        ensures
            *final(self) == (Field { field_type, longevity }),
    {
        self.field_type = field_type;
        self.longevity = longevity;
    }
}

} // verus!
