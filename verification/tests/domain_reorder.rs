use trace_core::column::Column;
use trace_core::field::M31;
use trace_core::reorder::{bit_reverse, coset_order_to_circle_domain_order};
use trace_core::trace::Traces;

fn fes(vals: &[u32]) -> Vec<M31> {
    vals.iter().map(|v| M31::new(*v)).collect()
}

fn values(col: &[M31]) -> Vec<u32> {
    col.iter().map(|m| m.v).collect()
}

#[test]
fn coset_to_circle_domain_order_small() {
    let input = fes(&[0, 1, 2, 3, 4, 5, 6, 7]);
    let out = coset_order_to_circle_domain_order(&input);
    // Even indices upward, then odd indices downward.
    assert_eq!(values(&out), vec![0, 2, 4, 6, 7, 5, 3, 1]);
}

#[test]
fn bit_reverse_small() {
    let mut v = fes(&[0, 1, 2, 3, 4, 5, 6, 7]);
    bit_reverse(&mut v, 3);
    assert_eq!(values(&v), vec![0, 4, 2, 6, 1, 5, 3, 7]);
}

#[test]
fn bit_reverse_is_involution() {
    let original: Vec<u32> = (0..64).map(|i| (i * 37 + 5) % 1000).collect();
    let mut v = fes(&original);
    bit_reverse(&mut v, 6);
    bit_reverse(&mut v, 6);
    assert_eq!(values(&v), original);
}

#[test]
fn domain_reorder_is_a_permutation() {
    // Same multiset of values before and after, for a whole trace.
    let mut trace = Traces::new(4);
    for row in 0..16 {
        let b = [row as u8, (row * 3) as u8, (255 - row) as u8, 1u8];
        trace.fill_columns(row, &b, Column::ValueA);
    }
    let evals = trace.circle_evaluation();
    let cols = trace.into_inner();
    assert_eq!(evals.len(), cols.len());
    for (before, after) in cols.iter().zip(evals.iter()) {
        let mut b = values(before);
        let mut a = values(after);
        assert_eq!(a.len(), b.len());
        b.sort();
        a.sort();
        assert_eq!(a, b);
    }
}

#[test]
fn get_base_column_matches_manual_reorder() {
    let mut trace = Traces::new(4);
    for row in 0..16 {
        let b = [(row * row) as u8, row as u8, 0u8, 255u8];
        trace.fill_columns(row, &b, Column::ValueC);
    }
    let base = trace.get_base_column::<4>(Column::ValueC);
    assert_eq!(base.len(), 4);
    let cols = trace.into_inner();
    // ValueC starts at flat offset 13.
    for k in 0..4 {
        let mut expected = coset_order_to_circle_domain_order(&cols[13 + k]);
        bit_reverse(&mut expected, 4);
        assert_eq!(values(&base[k]), values(&expected));
    }
}

fn reverse_bits(i: usize, k: u32) -> usize {
    let mut j = 0usize;
    let mut cur = i;
    for _ in 0..k {
        j = 2 * j + cur % 2;
        cur /= 2;
    }
    j
}

fn coset_source_index(n: usize, i: usize) -> usize {
    if i < n / 2 {
        2 * i
    } else {
        2 * n - 1 - 2 * i
    }
}

#[test]
fn domain_order_positionally_correct() {
    // Output position i must hold the coset-ordered value at source index
    // cdo(rev(i)), for every position of every column.
    let mut trace = Traces::new(5);
    for row in 0..32 {
        let b = [(row * 11 + 3) as u8, (row * 7) as u8, row as u8, (91 - row) as u8];
        trace.fill_columns(row, &b, Column::ValueB);
    }
    let evals = trace.circle_evaluation();
    let cols = trace.into_inner();
    let n = 32usize;
    for (col, eval) in cols.iter().zip(evals.iter()) {
        for i in 0..n {
            let src = coset_source_index(n, reverse_bits(i, 5));
            assert_eq!(eval[i].v, col[src].v);
        }
    }
}

#[test]
fn get_base_column_single_width_group() {
    let trace = Traces::new(4);
    let base = trace.get_base_column::<1>(Column::IsAdd);
    assert_eq!(base.len(), 1);
    assert_eq!(base[0].len(), 16);
}
