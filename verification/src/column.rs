//! Column schemas: the static mapping from a logical column name to its
//! `(offset, width)` slice of the flat column buffer. Offsets partition
//! `[0, COLUMNS_NUM)` with no gaps or overlaps; the main and the preprocessed
//! trace each have their own schema and total width.

use vstd::prelude::*;

verus! {

/// Number of byte limbs in one machine word: a 4-byte word occupies 4
/// adjacent columns, one field element per byte.
pub const WORD_SIZE: usize = 4;

/// Total width of the main-trace schema.
pub const COLUMNS_NUM: usize = 21;

/// Total width of the preprocessed-trace schema.
pub const PREPROCESSED_COLUMNS_NUM: usize = 2;

/// Logical columns of the main execution trace.
#[derive(Clone, Copy, PartialEq, Eq, Structural, Debug)]
pub enum Column {
    /// Program counter, one column per byte.
    Pc,
    /// Selector: one exactly on rows that execute an addition.
    IsAdd,
    /// First operand of the row, one column per byte.
    ValueA,
    /// Second operand of the row, one column per byte.
    ValueB,
    /// Result of the row, one column per byte.
    ValueC,
    /// Per-byte carry bits of the addition, one column per byte.
    CarryFlag,
}

impl Column {
    /// Declared width of the column group.
    pub open spec fn spec_size(self) -> int {
        match self {
            Column::Pc => 4,
            Column::IsAdd => 1,
            Column::ValueA => 4,
            Column::ValueB => 4,
            Column::ValueC => 4,
            Column::CarryFlag => 4,
        }
    }

    /// Offset of the column group's first column in the flat buffer.
    pub open spec fn spec_offset(self) -> int {
        match self {
            Column::Pc => 0,
            Column::IsAdd => 4,
            Column::ValueA => 5,
            Column::ValueB => 9,
            Column::ValueC => 13,
            Column::CarryFlag => 17,
        }
    }

    /// Declared width of the column group.
    pub fn size(self) -> (n: usize)
        ensures
            n == self.spec_size(),
    {
        match self {
            Column::Pc => 4,
            Column::IsAdd => 1,
            Column::ValueA => 4,
            Column::ValueB => 4,
            Column::ValueC => 4,
            Column::CarryFlag => 4,
        }
    }

    /// Offset of the column group's first column in the flat buffer.
    pub fn offset(self) -> (n: usize)
        ensures
            n == self.spec_offset(),
    {
        match self {
            Column::Pc => 0,
            Column::IsAdd => 4,
            Column::ValueA => 5,
            Column::ValueB => 9,
            Column::ValueC => 13,
            Column::CarryFlag => 17,
        }
    }
}

/// Logical columns of the preprocessed trace.
#[derive(Clone, Copy, PartialEq, Eq, Structural, Debug)]
pub enum PreprocessedColumn {
    /// Exactly one field-one at row 0, field-zero elsewhere.
    IsFirst,
    /// Rows 0..=255 hold 0..=255 as field elements; later rows hold zero.
    Range256,
}

impl PreprocessedColumn {
    /// Declared width of the column group.
    pub open spec fn spec_size(self) -> int {
        match self {
            PreprocessedColumn::IsFirst => 1,
            PreprocessedColumn::Range256 => 1,
        }
    }

    /// Offset of the column group's first column in the flat buffer.
    pub open spec fn spec_offset(self) -> int {
        match self {
            PreprocessedColumn::IsFirst => 0,
            PreprocessedColumn::Range256 => 1,
        }
    }

    /// Declared width of the column group.
    pub fn size(self) -> (n: usize)
        ensures
            n == self.spec_size(),
    {
        match self {
            PreprocessedColumn::IsFirst => 1,
            PreprocessedColumn::Range256 => 1,
        }
    }

    /// Offset of the column group's first column in the flat buffer.
    pub fn offset(self) -> (n: usize)
        ensures
            n == self.spec_offset(),
    {
        match self {
            PreprocessedColumn::IsFirst => 0,
            PreprocessedColumn::Range256 => 1,
        }
    }
}

/// Every main-schema column group lies inside the flat buffer.
pub proof fn lemma_main_schema_in_bounds()
    ensures
        forall|c: Column| 0 <= #[trigger] c.spec_offset() && c.spec_offset() + c.spec_size() <= COLUMNS_NUM,
        forall|c: Column| #[trigger] c.spec_size() >= 1,
{
}

/// Some main-schema column group covers flat index `k`.
pub open spec fn main_schema_covers(k: int) -> bool {
    exists|c: Column| (#[trigger] c.spec_offset()) <= k < c.spec_offset() + c.spec_size()
}

/// Some preprocessed-schema column group covers flat index `k`.
pub open spec fn preprocessed_schema_covers(k: int) -> bool {
    exists|c: PreprocessedColumn| (#[trigger] c.spec_offset()) <= k < c.spec_offset() + c.spec_size()
}

/// The main-schema column groups partition the flat buffer `[0, COLUMNS_NUM)`:
/// distinct groups never overlap, and every flat index belongs to some group.
pub proof fn lemma_main_schema_partition()
    ensures
        forall|c1: Column, c2: Column|
            c1 != c2 ==> (#[trigger] c1.spec_offset()) + c1.spec_size() <= c2.spec_offset()
                || (#[trigger] c2.spec_offset()) + c2.spec_size() <= c1.spec_offset(),
        forall|k: int| 0 <= k < COLUMNS_NUM ==> #[trigger] main_schema_covers(k),
{
    assert forall|k: int| 0 <= k < COLUMNS_NUM implies #[trigger] main_schema_covers(k) by {
        if k < 4 {
            assert(Column::Pc.spec_offset() <= k < Column::Pc.spec_offset() + Column::Pc.spec_size());
        } else if k < 5 {
            assert(Column::IsAdd.spec_offset() <= k < Column::IsAdd.spec_offset() + Column::IsAdd.spec_size());
        } else if k < 9 {
            assert(Column::ValueA.spec_offset() <= k < Column::ValueA.spec_offset() + Column::ValueA.spec_size());
        } else if k < 13 {
            assert(Column::ValueB.spec_offset() <= k < Column::ValueB.spec_offset() + Column::ValueB.spec_size());
        } else if k < 17 {
            assert(Column::ValueC.spec_offset() <= k < Column::ValueC.spec_offset() + Column::ValueC.spec_size());
        } else {
            assert(Column::CarryFlag.spec_offset() <= k < Column::CarryFlag.spec_offset()
                + Column::CarryFlag.spec_size());
        }
    }
}

/// The preprocessed-schema column groups partition their flat buffer the same
/// way.
pub proof fn lemma_preprocessed_schema_partition()
    ensures
        forall|c: PreprocessedColumn|
            0 <= #[trigger] c.spec_offset() && c.spec_offset() + c.spec_size() <= PREPROCESSED_COLUMNS_NUM,
        forall|c1: PreprocessedColumn, c2: PreprocessedColumn|
            c1 != c2 ==> (#[trigger] c1.spec_offset()) + c1.spec_size() <= c2.spec_offset()
                || (#[trigger] c2.spec_offset()) + c2.spec_size() <= c1.spec_offset(),
        forall|k: int| 0 <= k < PREPROCESSED_COLUMNS_NUM ==> #[trigger] preprocessed_schema_covers(k),
{
    assert forall|k: int| 0 <= k < PREPROCESSED_COLUMNS_NUM implies #[trigger] preprocessed_schema_covers(k) by {
        if k < 1 {
            assert(PreprocessedColumn::IsFirst.spec_offset() <= k < PreprocessedColumn::IsFirst.spec_offset()
                + PreprocessedColumn::IsFirst.spec_size());
        } else {
            assert(PreprocessedColumn::Range256.spec_offset() <= k < PreprocessedColumn::Range256.spec_offset()
                + PreprocessedColumn::Range256.spec_size());
        }
    }
}

} // verus!
