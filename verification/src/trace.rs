//! The trace store: all column buffers of one trace kind, with row-indexed
//! read/write access through the column schema. A trace is a list of
//! equal-length columns of field elements; the length is always a power of
//! two, and every access must declare exactly the addressed column's width
//! — a mismatch is a programming-contract breach ruled out by precondition.

use vstd::prelude::*;

verus! {

use vstd::arithmetic::power2::{lemma2_to64, lemma_pow2_adds, lemma_pow2_pos, lemma_pow2_strictly_increases, pow2};
use crate::column::{lemma_main_schema_in_bounds, Column, PreprocessedColumn, COLUMNS_NUM, PREPROCESSED_COLUMNS_NUM};
use crate::field::M31;
use crate::reorder::{domain_order, to_domain_order};

broadcast use lemma_pow2_pos;

/// Base-two logarithm of the vectorized backend's lane count: no trace may
/// have fewer rows than one vector lane holds.
pub const LOG_N_LANES: u32 = 4;

/// Largest supported row-count exponent, so that `2^log_size` fits a machine
/// word.
pub const MAX_LOG_SIZE: u32 = 31;

/// Computes `2^k` as a machine word.
pub fn pow2_exec(k: u32) -> (n: usize)
    requires
        k <= MAX_LOG_SIZE,
    ensures
        n == pow2(k as nat),
        n >= 1,
{
    let mut n: usize = 1;
    let mut i: u32 = 0;
    proof {
        lemma2_to64();
    }
    while i < k
        invariant
            i <= k,
            n == pow2(i as nat),
        decreases k - i,
    {
        proof {
            lemma_pow2_adds(i as nat, 1);
            if i + 1 < 31 {
                lemma_pow2_strictly_increases((i + 1) as nat, 31);
            }
        }
        n = n * 2;
        i = i + 1;
    }
    n
}

/// Bytes embedded into the field, element-wise.
pub open spec fn bytes_to_fes(bytes: Seq<u8>) -> Seq<M31> {
    bytes.map_values(|b: u8| M31 { v: b as u32 })
}

/// `n` copies of the field zero.
pub open spec fn zero_fes(n: nat) -> Seq<M31> {
    Seq::new(n, |i: int| M31 { v: 0 })
}

/// The columns of `t`, with `vals` written into row `row` of the columns
/// `offset..offset + vals.len()`.
pub open spec fn spec_write(t: Seq<Seq<M31>>, row: int, vals: Seq<M31>, offset: int) -> Seq<Seq<M31>> {
    Seq::new(
        t.len(),
        |i: int|
            if offset <= i < offset + vals.len() {
                t[i].update(row, vals[i - offset])
            } else {
                t[i]
            },
    )
}

/// Row `row` of the columns `offset..offset + size` of `t`.
pub open spec fn spec_read(t: Seq<Seq<M31>>, row: int, offset: int, size: nat) -> Seq<M31> {
    Seq::new(size as nat, |i: int| t[offset + i][row])
}

/// Every column has exactly `n_rows` cells and every cell is a canonical
/// field element.
pub open spec fn cols_ok(t: Seq<Seq<M31>>, n_rows: nat) -> bool {
    &&& forall|i: int| 0 <= i < t.len() ==> (#[trigger] t[i]).len() == n_rows
    &&& forall|i: int, j: int|
        0 <= i < t.len() && 0 <= j < t[i].len() ==> (#[trigger] t[i][j]).inv()
}

/// All column buffers of one trace kind, each `2^log_size` rows long.
pub struct Traces {
    cols: Vec<Vec<M31>>,
    log_size: u32,
}

impl View for Traces {
    type V = Seq<Seq<M31>>;

    closed spec fn view(&self) -> Seq<Seq<M31>> {
        Seq::new(self.cols@.len(), |i: int| self.cols@[i]@)
    }
}

impl Traces {
    /// Row-count exponent of this trace.
    pub closed spec fn spec_log_size(&self) -> u32 {
        self.log_size
    }

    /// Number of rows, `2^log_size`.
    pub open spec fn spec_num_rows(&self) -> nat {
        pow2(self.spec_log_size() as nat)
    }

    /// Well-formedness: the exponent is within the supported band and all
    /// columns are equal-length vectors of canonical field elements.
    pub open spec fn wf(&self) -> bool {
        &&& LOG_N_LANES <= self.spec_log_size() <= MAX_LOG_SIZE
        &&& cols_ok(self@, self.spec_num_rows())
    }

    /// Builds `num_cols` zeroed columns of length `2^log_size`.
    pub(crate) fn zero_trace(log_size: u32, num_cols: usize) -> (r: Traces)
        requires
            LOG_N_LANES <= log_size <= MAX_LOG_SIZE,
        ensures
            r.wf(),
            r.spec_log_size() == log_size,
            r@.len() == num_cols,
            forall|i: int, j: int|
                0 <= i < r@.len() && 0 <= j < r@[i].len() ==> (#[trigger] r@[i][j]).v == 0,
    {
        let n = pow2_exec(log_size);
        let mut cols: Vec<Vec<M31>> = Vec::new();
        while cols.len() < num_cols
            invariant
                cols@.len() <= num_cols,
                forall|i: int| 0 <= i < cols@.len() ==> (#[trigger] cols@[i])@.len() == pow2(log_size as nat),
                forall|i: int, j: int|
                    0 <= i < cols@.len() && 0 <= j < cols@[i]@.len() ==> (#[trigger] cols@[i]@[j]).v == 0,
            decreases num_cols - cols.len(),
        {
            let mut column: Vec<M31> = Vec::new();
            while column.len() < n
                invariant
                    column@.len() <= n,
                    forall|j: int| 0 <= j < column@.len() ==> (#[trigger] column@[j]).v == 0,
                decreases n - column.len(),
            {
                column.push(M31 { v: 0 });
            }
            cols.push(column);
        }
        Traces { cols, log_size }
    }

    /// Replaces the single cell at flat column index `ci` and row `row`.
    fn set_cell(&mut self, ci: usize, row: usize, val: M31)
        requires
            ci < old(self)@.len(),
            row < old(self)@[ci as int].len(),
        ensures
            final(self)@ == old(self)@.update(ci as int, old(self)@[ci as int].update(row as int, val)),
            final(self).spec_log_size() == old(self).spec_log_size(),
    {
        self.cols[ci][row] = val;
        proof {
            assert(self@ =~= old(self)@.update(ci as int, old(self)@[ci as int].update(row as int, val)));
        }
    }

    /// Returns [`COLUMNS_NUM`] zeroed columns, each one `2^log_size` in
    /// length.
    pub fn new(log_size: u32) -> (r: Traces)
        requires
            LOG_N_LANES <= log_size <= MAX_LOG_SIZE,
        ensures
            r.wf(),
            r.spec_log_size() == log_size,
            r@.len() == COLUMNS_NUM,
            forall|i: int, j: int|
                0 <= i < r@.len() && 0 <= j < r@[i].len() ==> (#[trigger] r@[i][j]).v == 0,
    {
        Self::zero_trace(log_size, COLUMNS_NUM)
    }

    /// Returns [`PREPROCESSED_COLUMNS_NUM`] columns, each one `2^log_size` in
    /// length, filled with the preprocessed trace content: the boundary
    /// indicator and the 256-entry range lookup table. The exponent must be
    /// at least 8 so the table fits.
    pub fn new_preprocessed_trace(log_size: u32) -> (r: Traces)
        requires
            8 <= log_size <= MAX_LOG_SIZE,
        ensures
            r.wf(),
            r.spec_log_size() == log_size,
            r@.len() == PREPROCESSED_COLUMNS_NUM,
            forall|j: int|
                0 <= j < r.spec_num_rows() ==> (#[trigger] r@[PreprocessedColumn::IsFirst.spec_offset()][j]).v
                    == if j == 0 { 1int } else { 0int },
            forall|j: int|
                0 <= j < r.spec_num_rows() ==> (#[trigger] r@[PreprocessedColumn::Range256.spec_offset()][j]).v
                    == if j < 256 { j } else { 0int },
    {
        proof {
            lemma2_to64();
            if log_size > 8 {
                lemma_pow2_strictly_increases(8, log_size as nat);
            }
        }
        let mut r = Self::zero_trace(log_size, PREPROCESSED_COLUMNS_NUM);
        let is_first = PreprocessedColumn::IsFirst.offset();
        let range256 = PreprocessedColumn::Range256.offset();
        r.set_cell(is_first, 0, M31 { v: 1 });
        let mut row: usize = 0;
        while row < 256
            invariant
                row <= 256,
                r@.len() == PREPROCESSED_COLUMNS_NUM,
                r.spec_log_size() == log_size,
                cols_ok(r@, r.spec_num_rows()),
                forall|j: int|
                    0 <= j < r.spec_num_rows() ==> (#[trigger] r@[is_first as int][j]).v
                        == if j == 0 { 1int } else { 0int },
                forall|j: int|
                    0 <= j < r.spec_num_rows() ==> (#[trigger] r@[range256 as int][j]).v
                        == if j < row { j } else { 0int },
            decreases 256 - row,
        {
            let ghost before = r@;
            r.set_cell(range256, row, M31 { v: row as u32 });
            proof {
                lemma_cols_ok_update(before, range256 as int, row as int, M31 { v: row as u32 }, r.spec_num_rows());
                assert forall|j: int| 0 <= j < r.spec_num_rows() implies (#[trigger] r@[is_first as int][j]).v
                    == if j == 0 { 1int } else { 0int } by {
                    assert(r@[is_first as int] == before[is_first as int]);
                }
            }
            row = row + 1;
        }
        r
    }

    /// Surrenders the inner column representation.
    pub fn into_inner(self) -> (r: Vec<Vec<M31>>)
        ensures
            r@.len() == self@.len(),
            forall|i: int| 0 <= i < r@.len() ==> (#[trigger] r@[i])@ == self@[i],
    {
        self.cols
    }

    /// Row-count exponent of the columns.
    pub fn log_size(&self) -> (s: u32)
        ensures
            s == self.spec_log_size(),
    {
        self.log_size
    }

    /// Number of rows of each column.
    pub fn num_rows(&self) -> (n: usize)
        requires
            self.wf(),
        ensures
            n == self.spec_num_rows(),
    {
        pow2_exec(self.log_size)
    }

    /// One cell, addressed by flat column index and row.
    pub fn cell(&self, col_idx: usize, row: usize) -> (r: M31)
        requires
            col_idx < self@.len(),
            row < self@[col_idx as int].len(),
        ensures
            r == self@[col_idx as int][row as int],
    {
        self.cols[col_idx][row]
    }

    /// Returns a copy of the `N` cells of column group `col` at `row`. The
    /// caller-declared width `N` must equal the column's declared width: a
    /// mismatch is a fatal programming-contract violation, so the
    /// precondition leaves it out and no verified caller can reach it.
    pub fn column<const N: usize>(&self, row: usize, col: Column) -> (r: Vec<M31>)
        requires
            self.wf(),
            self@.len() == COLUMNS_NUM,
            row < self.spec_num_rows(),
            N == col.spec_size(),
        ensures
            r@ == spec_read(self@, row as int, col.spec_offset(), col.spec_size() as nat),
    {
        proof {
            lemma_main_schema_in_bounds();
        }
        let offset = col.offset();
        let mut out: Vec<M31> = Vec::new();
        let mut i: usize = 0;
        while i < N
            invariant
                i <= N,
                N == col.spec_size(),
                offset == col.spec_offset(),
                out@.len() == i,
                forall|k: int| 0 <= k < i ==> (#[trigger] out@[k]) == self@[offset + k][row as int],
            decreases N - i,
        {
            out.push(self.cell(offset + i, row));
            i = i + 1;
        }
        proof {
            assert(out@ =~= spec_read(self@, row as int, col.spec_offset(), col.spec_size() as nat));
        }
        out
    }

    /// Writes `values` into the cells of column group `col` at `row`. The
    /// number of values must equal the column's declared width: a mismatch
    /// is a fatal programming-contract violation, so the precondition leaves
    /// it out and no verified caller can reach it.
    pub fn column_mut(&mut self, row: usize, values: &[M31], col: Column)
        requires
            old(self).wf(),
            old(self)@.len() == COLUMNS_NUM,
            row < old(self).spec_num_rows(),
            forall|k: int| 0 <= k < values@.len() ==> (#[trigger] values@[k]).inv(),
            values@.len() == col.spec_size(),
        ensures
            final(self).wf(),
            final(self).spec_log_size() == old(self).spec_log_size(),
            final(self)@.len() == old(self)@.len(),
            final(self)@ == spec_write(old(self)@, row as int, values@, col.spec_offset()),
    {
        let n = values.len();
        proof {
            lemma_main_schema_in_bounds();
        }
        let offset = col.offset();
        let ghost t0 = self@;
        let ghost vals = values@;
        let mut i: usize = 0;
        proof {
            assert(self@ =~= spec_write(t0, row as int, vals.take(0), offset as int));
        }
        while i < n
            invariant
                i <= n,
                offset == col.spec_offset(),
                self.spec_log_size() == old(self).spec_log_size(),
                self@ == spec_write(t0, row as int, vals.take(i as int), offset as int),
            decreases n - i,
        {
            proof {
                lemma_spec_write_len(t0, row as int, vals.take(i as int), offset as int);
            }
            self.set_cell(offset + i, row, values[i]);
            proof {
                lemma_spec_write_step(t0, row as int, vals, offset as int, i as int);
            }
            i = i + 1;
        }
        proof {
            assert(vals.take(n as int) =~= vals);
            lemma_spec_write_ok(t0, row as int, vals, offset as int, old(self).spec_num_rows());
        }
    }

    /// Returns a copy of the `N` columns of group `col`, each reordered into
    /// the circle-domain bit-reversed format the vectorized backend expects.
    /// The caller-declared width `N` must equal the column's declared width:
    /// a mismatch is a fatal programming-contract violation, so the
    /// precondition leaves it out and no verified caller can reach it.
    pub fn get_base_column<const N: usize>(&self, col: Column) -> (r: Vec<Vec<M31>>)
        requires
            self.wf(),
            self@.len() == COLUMNS_NUM,
            N == col.spec_size(),
        ensures
            r@.len() == N,
            forall|k: int|
                0 <= k < N ==> (#[trigger] r@[k])@ == domain_order(
                    self@[col.spec_offset() + k],
                    self.spec_log_size() as nat,
                ),
    {
        proof {
            lemma_main_schema_in_bounds();
        }
        let offset = col.offset();
        let mut out: Vec<Vec<M31>> = Vec::new();
        let mut k: usize = 0;
        while k < N
            invariant
                k <= N,
                offset == col.spec_offset(),
                out@.len() == k,
                forall|m: int|
                    0 <= m < k ==> (#[trigger] out@[m])@ == domain_order(
                        self@[offset + m],
                        self.spec_log_size() as nat,
                    ),
            decreases N - k,
        {
            proof {
                assert(self@[offset + k as int] == self.cols@[offset + k as int]@);
            }
            out.push(to_domain_order(&self.cols[offset + k], self.log_size));
            k = k + 1;
        }
        out
    }

    /// Converts the whole trace into circle-domain evaluations, one per
    /// column, each in the bit-reversed circle-domain ordering.
    pub fn circle_evaluation(&self) -> (r: Vec<Vec<M31>>)
        requires
            self.wf(),
        ensures
            r@.len() == self@.len(),
            forall|i: int|
                0 <= i < r@.len() ==> (#[trigger] r@[i])@ == domain_order(
                    self@[i],
                    self.spec_log_size() as nat,
                ),
    {
        let mut out: Vec<Vec<M31>> = Vec::new();
        let mut i: usize = 0;
        let n_cols = self.cols.len();
        while i < n_cols
            invariant
                i <= n_cols,
                out@.len() == i,
                forall|m: int|
                    0 <= m < i ==> (#[trigger] out@[m])@ == domain_order(
                        self@[m],
                        self.spec_log_size() as nat,
                    ),
            decreases n_cols - i,
        {
            proof {
                assert(self@[i as int] == self.cols@[i as int]@);
            }
            out.push(to_domain_order(&self.cols[i], self.log_size));
            i = i + 1;
        }
        out
    }

    /// Fills the cells of column group `col` at `row` with the bytes of
    /// `value`, each byte cast to a field element. The byte count must equal
    /// the column's declared width: a mismatch is a fatal
    /// programming-contract violation, so the precondition leaves it out and
    /// no verified caller can reach it.
    pub fn fill_columns(&mut self, row: usize, value: &[u8], col: Column)
        requires
            old(self).wf(),
            old(self)@.len() == COLUMNS_NUM,
            row < old(self).spec_num_rows(),
            value@.len() == col.spec_size(),
        ensures
            final(self).wf(),
            final(self).spec_log_size() == old(self).spec_log_size(),
            final(self)@.len() == old(self)@.len(),
            final(self)@ == spec_write(old(self)@, row as int, bytes_to_fes(value@), col.spec_offset()),
    {
        self.fill_effective_columns(row, value, col, false)
    }

    /// Fills the cells of column group `col` at `row`: with the field zero in
    /// every slot when `selector` is true, and with the bytes of `value`
    /// otherwise. The byte count must equal the column's declared width
    /// either way: a mismatch is a fatal programming-contract violation, so
    /// the precondition leaves it out and no verified caller can reach it.
    pub fn fill_effective_columns(&mut self, row: usize, value: &[u8], col: Column, selector: bool)
        requires
            old(self).wf(),
            old(self)@.len() == COLUMNS_NUM,
            row < old(self).spec_num_rows(),
            value@.len() == col.spec_size(),
        ensures
            final(self).wf(),
            final(self).spec_log_size() == old(self).spec_log_size(),
            final(self)@.len() == old(self)@.len(),
            final(self)@ == spec_write(
                old(self)@,
                row as int,
                if selector {
                    zero_fes(value@.len())
                } else {
                    bytes_to_fes(value@)
                },
                col.spec_offset(),
            ),
    {
        let n = value.len();
        proof {
            lemma_main_schema_in_bounds();
        }
        let offset = col.offset();
        let ghost t0 = self@;
        let ghost vals = if selector {
            zero_fes(value@.len())
        } else {
            bytes_to_fes(value@)
        };
        let mut i: usize = 0;
        proof {
            assert(self@ =~= spec_write(t0, row as int, vals.take(0), offset as int));
        }
        while i < n
            invariant
                i <= n,
                offset == col.spec_offset(),
                self.spec_log_size() == old(self).spec_log_size(),
                self@ == spec_write(t0, row as int, vals.take(i as int), offset as int),
            decreases n - i,
        {
            let fe = if selector {
                M31 { v: 0 }
            } else {
                M31 { v: value[i] as u32 }
            };
            proof {
                lemma_spec_write_len(t0, row as int, vals.take(i as int), offset as int);
                assert(fe == vals[i as int]);
            }
            self.set_cell(offset + i, row, fe);
            proof {
                lemma_spec_write_step(t0, row as int, vals, offset as int, i as int);
            }
            i = i + 1;
        }
        proof {
            assert(vals.take(n as int) =~= vals);
            assert(forall|k: int| 0 <= k < vals.len() ==> (#[trigger] vals[k]).inv());
            lemma_spec_write_ok(t0, row as int, vals, offset as int, old(self).spec_num_rows());
        }
    }
}

/// A written trace keeps every column's length.
proof fn lemma_spec_write_len(t: Seq<Seq<M31>>, row: int, vals: Seq<M31>, offset: int)
    requires
        forall|i: int| 0 <= i < t.len() ==> 0 <= row < (#[trigger] t[i]).len(),
    ensures
        spec_write(t, row, vals, offset).len() == t.len(),
        forall|i: int|
            0 <= i < t.len() ==> (#[trigger] spec_write(t, row, vals, offset)[i]).len() == t[i].len(),
{
    let w = spec_write(t, row, vals, offset);
    assert forall|i: int| 0 <= i < t.len() implies (#[trigger] w[i]).len() == t[i].len() by {
        if offset <= i < offset + vals.len() {
            assert(w[i] == t[i].update(row, vals[i - offset]));
        }
    }
}

/// Writing one more value extends a partial group write by one single-cell
/// update.
proof fn lemma_spec_write_step(t: Seq<Seq<M31>>, row: int, vals: Seq<M31>, offset: int, i: int)
    requires
        0 <= i < vals.len(),
        0 <= offset,
        offset + vals.len() <= t.len(),
    ensures
        spec_write(t, row, vals.take(i + 1), offset) == spec_write(t, row, vals.take(i), offset).update(
            offset + i,
            spec_write(t, row, vals.take(i), offset)[offset + i].update(row, vals[i]),
        ),
{
    let a = spec_write(t, row, vals.take(i + 1), offset);
    let prev = spec_write(t, row, vals.take(i), offset);
    let b = prev.update(offset + i, prev[offset + i].update(row, vals[i]));
    assert forall|w: int| 0 <= w < a.len() implies a[w] == b[w] by {
        if w == offset + i {
            assert(prev[w] == t[w]);
            assert(a[w] == t[w].update(row, vals.take(i + 1)[i]));
            assert(vals.take(i + 1)[i] == vals[i]);
        } else if offset <= w < offset + i {
            assert(a[w] == t[w].update(row, vals.take(i + 1)[w - offset]));
            assert(prev[w] == t[w].update(row, vals.take(i)[w - offset]));
            assert(vals.take(i + 1)[w - offset] == vals[w - offset]);
            assert(vals.take(i)[w - offset] == vals[w - offset]);
        } else {
            assert(a[w] == t[w]);
            assert(prev[w] == t[w]);
        }
    }
    assert(a =~= b);
}

/// Replacing one cell with a canonical field element keeps a column set well
/// formed.
proof fn lemma_cols_ok_update(t: Seq<Seq<M31>>, ci: int, row: int, val: M31, n_rows: nat)
    requires
        cols_ok(t, n_rows),
        0 <= ci < t.len(),
        0 <= row < n_rows,
        val.inv(),
    ensures
        cols_ok(t.update(ci, t[ci].update(row, val)), n_rows),
{
    let w = t.update(ci, t[ci].update(row, val));
    assert forall|i: int| 0 <= i < w.len() implies (#[trigger] w[i]).len() == n_rows by {
        if i != ci {
            assert(w[i] == t[i]);
        }
    }
    assert forall|i: int, j: int| 0 <= i < w.len() && 0 <= j < w[i].len() implies (#[trigger] w[i][j]).inv() by {
        if i == ci {
            if j != row {
                assert(w[i][j] == t[i][j]);
            }
        } else {
            assert(w[i][j] == t[i][j]);
        }
    }
}

/// Writing canonical field elements into an in-range row keeps every column's
/// length and keeps every cell canonical.
proof fn lemma_spec_write_ok(t: Seq<Seq<M31>>, row: int, vals: Seq<M31>, offset: int, n_rows: nat)
    requires
        cols_ok(t, n_rows),
        0 <= row < n_rows,
        forall|k: int| 0 <= k < vals.len() ==> (#[trigger] vals[k]).inv(),
    ensures
        cols_ok(spec_write(t, row, vals, offset), n_rows),
{
    let w = spec_write(t, row, vals, offset);
    assert forall|i: int| 0 <= i < w.len() implies (#[trigger] w[i]).len() == n_rows by {
        if offset <= i < offset + vals.len() {
            assert(w[i] == t[i].update(row, vals[i - offset]));
        }
    }
    assert forall|i: int, j: int| 0 <= i < w.len() && 0 <= j < w[i].len() implies (#[trigger] w[i][j]).inv() by {
        if offset <= i < offset + vals.len() {
            if j == row {
                assert(w[i][j] == vals[i - offset]);
            } else {
                assert(w[i][j] == t[i][j]);
            }
        } else {
            assert(w[i][j] == t[i][j]);
        }
    }
}

/// Round trip: writing a group of canonical field elements and reading the
/// same column group back returns exactly what was written.
pub proof fn lemma_write_then_read(t: Seq<Seq<M31>>, row: int, vals: Seq<M31>, offset: int, n_rows: nat)
    requires
        0 <= offset,
        offset + vals.len() <= t.len(),
        cols_ok(t, n_rows),
        0 <= row < n_rows,
    ensures
        spec_read(spec_write(t, row, vals, offset), row, offset, vals.len()) == vals,
{
    let w = spec_write(t, row, vals, offset);
    let r = spec_read(w, row, offset, vals.len());
    assert forall|i: int| 0 <= i < vals.len() implies r[i] == vals[i] by {
        assert(w[offset + i] == t[offset + i].update(row, vals[i]));
    }
    assert(r =~= vals);
}

/// Round trip through the byte interface: filling a column group from a byte
/// slice of the declared width and reading the group back returns the bytes,
/// element-wise embedded into the field.
pub proof fn lemma_fill_then_read(t: Seq<Seq<M31>>, row: int, bytes: Seq<u8>, offset: int, n_rows: nat)
    requires
        0 <= offset,
        offset + bytes.len() <= t.len(),
        cols_ok(t, n_rows),
        0 <= row < n_rows,
    ensures
        spec_read(spec_write(t, row, bytes_to_fes(bytes), offset), row, offset, bytes.len())
            == bytes_to_fes(bytes),
{
    lemma_write_then_read(t, row, bytes_to_fes(bytes), offset, n_rows);
}

/// Selector law: a selected fill with the selector raised writes the field
/// zero into every slot whatever the bytes say, and with the selector lowered
/// it is exactly the unconditional fill.
pub proof fn lemma_fill_selected(t: Seq<Seq<M31>>, row: int, bytes: Seq<u8>, offset: int, n_rows: nat)
    requires
        0 <= offset,
        offset + bytes.len() <= t.len(),
        cols_ok(t, n_rows),
        0 <= row < n_rows,
    ensures
        spec_read(spec_write(t, row, zero_fes(bytes.len()), offset), row, offset, bytes.len())
            == zero_fes(bytes.len()),
        forall|i: int| 0 <= i < bytes.len() ==> (#[trigger] zero_fes(bytes.len())[i]).v == 0,
        spec_write(t, row, zero_fes(bytes.len()), offset) == spec_write(
            t,
            row,
            bytes_to_fes(Seq::new(bytes.len(), |i: int| 0u8)),
            offset,
        ),
{
    lemma_write_then_read(t, row, zero_fes(bytes.len()), offset, n_rows);
    assert(zero_fes(bytes.len()) =~= bytes_to_fes(Seq::new(bytes.len(), |i: int| 0u8)));
}

} // verus!
