use trace_core::chip::{AccumChip, AddChip, LookupElements};
use trace_core::column::Column;
use trace_core::error::{TraceError, VMError};
use trace_core::field::M31;
use trace_core::pipeline::CommitPipeline;
use trace_core::trace::Traces;

fn add_with_carries(a: [u8; 4], b: [u8; 4]) -> ([u8; 4], [u8; 4]) {
    let mut c = [0u8; 4];
    let mut carry = [0u8; 4];
    let mut cin = 0u16;
    for i in 0..4 {
        let s = a[i] as u16 + b[i] as u16 + cin;
        c[i] = (s & 0xff) as u8;
        carry[i] = (s >> 8) as u8;
        cin = carry[i] as u16;
    }
    (c, carry)
}

fn valid_add_trace(log_size: u32, filled_rows: usize) -> Traces {
    let mut trace = Traces::new(log_size);
    for row in 0..filled_rows {
        let a = [row as u8, (row * 7) as u8, 200, (row * 13) as u8];
        let b = [255 - (row as u8), 99, (row * 5) as u8, 128];
        let (c, carry) = add_with_carries(a, b);
        trace.fill_columns(row, &[1u8], Column::IsAdd);
        trace.fill_columns(row, &a, Column::ValueA);
        trace.fill_columns(row, &b, Column::ValueB);
        trace.fill_columns(row, &c, Column::ValueC);
        trace.fill_columns(row, &carry, Column::CarryFlag);
        let pc = (row * 4) as u32;
        trace.fill_columns(row, &pc.to_le_bytes(), Column::Pc);
    }
    trace
}

fn challenge() -> LookupElements {
    let elems: Vec<M31> = (1u32..=12).map(|i| M31::new(i * 1009 + 7)).collect();
    LookupElements::new(elems)
}

#[test]
fn full_pipeline_accepts_valid_trace() {
    // Accumulator chip: interaction trace plus challenge-bound identities.
    let mut p = CommitPipeline::new(8);
    let pre_evals = p.commit_preprocessed(None).unwrap();
    assert_eq!(pre_evals.len(), 2);
    let main_evals = p.commit_main(valid_add_trace(8, 40)).unwrap();
    assert_eq!(main_evals.len(), 21);
    p.draw_challenge(challenge()).unwrap();
    let inter_evals = p.commit_interaction::<AccumChip>().unwrap();
    assert_eq!(inter_evals.len(), 1);
    assert!(p.check_constraints::<AccumChip>().is_ok());

    // Addition chip: per-byte carry identities, empty interaction trace.
    let mut p2 = CommitPipeline::new(8);
    p2.commit_preprocessed(None).unwrap();
    p2.commit_main(valid_add_trace(8, 40)).unwrap();
    p2.draw_challenge(challenge()).unwrap();
    let inter_evals2 = p2.commit_interaction::<AddChip>().unwrap();
    assert_eq!(inter_evals2.len(), 0);
    assert!(p2.check_constraints::<AddChip>().is_ok());
}

#[test]
fn single_flipped_element_is_detected() {
    let mut trace = valid_add_trace(8, 40);
    // Flip one field element of the result word of row 11 after filling,
    // before commitment.
    let mut group = trace.column::<4>(11, Column::ValueC);
    group[0] = M31::new(group[0].v ^ 1);
    trace.column_mut(11, &group, Column::ValueC);

    let mut p = CommitPipeline::new(8);
    p.commit_preprocessed(None).unwrap();
    p.commit_main(trace).unwrap();
    p.draw_challenge(challenge()).unwrap();
    p.commit_interaction::<AddChip>().unwrap();
    assert_eq!(
        p.check_constraints::<AddChip>(),
        Err(TraceError::ConstraintViolation)
    );
}

#[test]
fn drawing_challenge_before_main_commit_is_rejected() {
    let mut p = CommitPipeline::new(8);
    assert_eq!(
        p.draw_challenge(challenge()),
        Err(TraceError::OrderViolation)
    );
    p.commit_preprocessed(None).unwrap();
    assert_eq!(
        p.draw_challenge(challenge()),
        Err(TraceError::OrderViolation)
    );
    // Building the interaction trace before the challenge is rejected too.
    assert!(matches!(
        p.commit_interaction::<AccumChip>(),
        Err(TraceError::OrderViolation)
    ));
    // After the main commitment the draw is accepted.
    p.commit_main(valid_add_trace(8, 4)).unwrap();
    assert!(p.draw_challenge(challenge()).is_ok());
}

#[test]
fn every_out_of_order_transition_is_rejected() {
    let mut p = CommitPipeline::new(8);
    assert!(matches!(
        p.commit_main(valid_add_trace(8, 2)),
        Err(TraceError::OrderViolation)
    ));
    assert!(matches!(
        p.commit_interaction::<AddChip>(),
        Err(TraceError::OrderViolation)
    ));
    assert_eq!(p.check_constraints::<AddChip>(), Err(TraceError::OrderViolation));
    p.commit_preprocessed(None).unwrap();
    assert!(matches!(
        p.commit_preprocessed(None),
        Err(TraceError::OrderViolation)
    ));
    p.commit_main(valid_add_trace(8, 2)).unwrap();
    assert!(matches!(
        p.commit_main(valid_add_trace(8, 2)),
        Err(TraceError::OrderViolation)
    ));
    assert_eq!(p.check_constraints::<AddChip>(), Err(TraceError::OrderViolation));
    p.draw_challenge(challenge()).unwrap();
    assert_eq!(
        p.draw_challenge(challenge()),
        Err(TraceError::OrderViolation)
    );
    p.commit_interaction::<AddChip>().unwrap();
    assert!(p.check_constraints::<AddChip>().is_ok());
}

#[test]
fn custom_preprocessed_trace_is_committed() {
    let mut p = CommitPipeline::new(8);
    let custom = Traces::new_preprocessed_trace(8);
    let evals = p.commit_preprocessed(Some(custom)).unwrap();
    assert_eq!(evals.len(), 2);
    p.commit_main(valid_add_trace(8, 3)).unwrap();
    p.draw_challenge(challenge()).unwrap();
    p.commit_interaction::<AccumChip>().unwrap();
    assert!(p.check_constraints::<AccumChip>().is_ok());
}

#[test]
fn assert_as_original_trace_checks_constraints_directly() {
    let le = challenge();
    assert!(valid_add_trace(4, 10)
        .assert_as_original_trace::<AddChip>(&le)
        .is_ok());

    let mut bad = valid_add_trace(4, 10);
    let mut group = bad.column::<4>(3, Column::ValueA);
    group[2] = M31::new(group[2].v + 1);
    bad.column_mut(3, &group, Column::ValueA);
    assert_eq!(
        bad.assert_as_original_trace::<AddChip>(&le),
        Err(TraceError::ConstraintViolation)
    );
}

#[test]
fn vm_error_variants_carry_their_payloads() {
    let e = VMError::UnimplementedSyscall(0x2a, 0x1000);
    assert_eq!(e, VMError::UnimplementedSyscall(0x2a, 0x1000));
    assert_ne!(e, VMError::VMOutOfInstructions);
    assert_eq!(VMError::VMExited(0), VMError::VMExited(0));
    let m = VMError::MemoryError(String::from("unaligned access"));
    assert!(matches!(m, VMError::MemoryError(_)));
    assert!(matches!(
        VMError::UnsupportedInstruction(0xffff_ffff),
        VMError::UnsupportedInstruction(_)
    ));
}
