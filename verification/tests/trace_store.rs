use trace_core::column::{Column, COLUMNS_NUM, PREPROCESSED_COLUMNS_NUM};
use trace_core::field::{M31, P};
use trace_core::trace::Traces;

#[test]
fn field_arithmetic_exact_values() {
    let a = M31::new(5);
    let b = M31::new(7);
    assert_eq!(a.add(b).v, 12);
    assert_eq!(a.sub(b).v, P - 2);
    assert_eq!(b.sub(a).v, 2);
    assert_eq!(a.mul(b).v, 35);
    assert_eq!(M31::new(P).v, 0);
    assert_eq!(M31::new(P - 1).add(M31::new(2)).v, 1);
    assert_eq!(M31::new(P - 1).mul(M31::new(P - 1)).v, 1);
    assert_eq!(M31::zero().v, 0);
    assert_eq!(M31::one().v, 1);
    assert_eq!(M31::from_u8(255).v, 255);
}

#[test]
fn new_trace_is_all_zero() {
    let trace = Traces::new(6);
    assert_eq!(trace.log_size(), 6);
    assert_eq!(trace.num_rows(), 64);
    let cols = trace.into_inner();
    assert_eq!(cols.len(), COLUMNS_NUM);
    for col in &cols {
        assert_eq!(col.len(), 64);
        for cell in col {
            assert_eq!(cell.v, 0);
        }
    }
}

#[test]
fn preprocessed_trace_content() {
    let trace = Traces::new_preprocessed_trace(9);
    let cols = trace.into_inner();
    assert_eq!(cols.len(), PREPROCESSED_COLUMNS_NUM);
    // IsFirst: exactly one field-one at row 0.
    assert_eq!(cols[0][0].v, 1);
    for row in 1..512 {
        assert_eq!(cols[0][row].v, 0);
    }
    // Range256: 0..=255 in order, zero afterwards.
    for row in 0..256 {
        assert_eq!(cols[1][row].v, row as u32);
    }
    for row in 256..512 {
        assert_eq!(cols[1][row].v, 0);
    }
}

#[test]
fn write_then_read_round_trip() {
    let mut trace = Traces::new(4);
    let bytes = [17u8, 0, 255, 3];
    trace.fill_columns(5, &bytes, Column::ValueA);
    let got = trace.column::<4>(5, Column::ValueA);
    for i in 0..4 {
        assert_eq!(got[i].v, bytes[i] as u32);
    }
    // Other rows of the same group stay zero.
    let other = trace.column::<4>(6, Column::ValueA);
    for cell in &other {
        assert_eq!(cell.v, 0);
    }
}

#[test]
fn column_mut_writes_field_elements() {
    let mut trace = Traces::new(4);
    let vals = [M31::new(11), M31::new(22), M31::new(33), M31::new(44)];
    trace.column_mut(2, &vals, Column::ValueC);
    let got = trace.column::<4>(2, Column::ValueC);
    assert_eq!(got[0].v, 11);
    assert_eq!(got[1].v, 22);
    assert_eq!(got[2].v, 33);
    assert_eq!(got[3].v, 44);
}

#[test]
fn selector_true_blanks_regardless_of_bytes() {
    let mut trace = Traces::new(4);
    let bytes = [9u8, 8, 7, 6];
    trace.fill_columns(1, &bytes, Column::ValueB);
    trace.fill_effective_columns(1, &bytes, Column::ValueB, true);
    let got = trace.column::<4>(1, Column::ValueB);
    for cell in &got {
        assert_eq!(cell.v, 0);
    }
}

#[test]
fn selector_false_equals_unconditional_fill() {
    let bytes = [1u8, 2, 3, 4];
    let mut a = Traces::new(4);
    let mut b = Traces::new(4);
    a.fill_columns(3, &bytes, Column::Pc);
    b.fill_effective_columns(3, &bytes, Column::Pc, false);
    let ca = a.into_inner();
    let cb = b.into_inner();
    for i in 0..ca.len() {
        for j in 0..ca[i].len() {
            assert_eq!(ca[i][j].v, cb[i][j].v);
        }
    }
}

#[test]
fn declared_widths_govern_every_access() {
    // Width mismatches are ruled out by precondition (a fatal
    // programming-contract breach, not a reportable value), so only the
    // declared widths are exercised here, one per column shape.
    let mut trace = Traces::new(4);
    trace.fill_columns(0, &[1u8, 2, 3, 4], Column::ValueA);
    trace.fill_columns(0, &[1u8], Column::IsAdd);
    trace.column_mut(0, &[M31::zero(); 4], Column::CarryFlag);
    assert_eq!(trace.column::<4>(0, Column::ValueA).len(), 4);
    assert_eq!(trace.column::<1>(0, Column::IsAdd).len(), 1);
    assert_eq!(trace.column::<4>(0, Column::CarryFlag).len(), 4);
}

#[test]
fn cell_reads_flat_layout() {
    let mut trace = Traces::new(4);
    let bytes = [5u8, 6, 7, 8];
    // ValueB starts at flat offset 9.
    trace.fill_columns(2, &bytes, Column::ValueB);
    assert_eq!(trace.cell(9, 2).v, 5);
    assert_eq!(trace.cell(10, 2).v, 6);
    assert_eq!(trace.cell(11, 2).v, 7);
    assert_eq!(trace.cell(12, 2).v, 8);
    assert_eq!(trace.cell(13, 2).v, 0);
}
