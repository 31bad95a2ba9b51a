//! The ordered commit/constraint protocol: a strict state machine that
//! commits the preprocessed trace, then the main trace, only then accepts
//! the drawn challenge, then derives and commits the interaction trace, and
//! finally checks every registered identity on every row. Skipping or
//! reordering a transition is rejected as an order violation, since drawing
//! the challenge before the main-trace commitment would let a prover choose
//! trace content knowing the challenge. The commitment primitive itself is
//! an external collaborator: each commit step hands the domain evaluations
//! back to the caller, who absorbs them into its transcript and, after the
//! main commitment, draws the challenge vector from it.

use vstd::prelude::*;

verus! {

use vstd::arithmetic::power2::pow2;
use crate::chip::{LookupElements, MachineChip};
use crate::column::{PreprocessedColumn, COLUMNS_NUM, PREPROCESSED_COLUMNS_NUM};
use crate::constraint::{all_hold, mat_view, ConstraintEvaluator};
use crate::error::TraceError;
use crate::field::M31;
use crate::reorder::{columns_to_domain_order, domain_order};
use crate::trace::{cols_ok, Traces, MAX_LOG_SIZE};

/// The protocol position of a [`CommitPipeline`].
#[derive(Clone, Copy, PartialEq, Eq, Structural, Debug)]
pub enum PipelineState {
    /// Nothing committed yet.
    Empty,
    /// The preprocessed-trace evaluations have been handed out for
    /// commitment.
    PreprocessedCommitted,
    /// The main-trace evaluations have been handed out for commitment.
    MainCommitted,
    /// The challenge vector has been drawn from the transcript.
    ChallengeDrawn,
    /// The interaction-trace evaluations have been handed out for
    /// commitment.
    InteractionCommitted,
    /// Every registered identity vanished on every row.
    ConstraintsChecked,
}

/// The position of a state in the fixed transition order.
pub open spec fn stage(s: PipelineState) -> int {
    match s {
        PipelineState::Empty => 0,
        PipelineState::PreprocessedCommitted => 1,
        PipelineState::MainCommitted => 2,
        PipelineState::ChallengeDrawn => 3,
        PipelineState::InteractionCommitted => 4,
        PipelineState::ConstraintsChecked => 5,
    }
}

/// `n_cols` columns of `n_rows` field zeros.
pub open spec fn zero_mat(n_cols: nat, n_rows: nat) -> Seq<Seq<M31>> {
    Seq::new(n_cols, |i: int| Seq::new(n_rows, |j: int| M31 { v: 0 }))
}

/// The commit/constraint pipeline: owns the traces as they are committed
/// and refuses every out-of-order transition. Exactly one caller must drive
/// it; the cryptographic transcript lives with that caller.
pub struct CommitPipeline {
    state: PipelineState,
    log_size: u32,
    preprocessed: Option<Traces>,
    main: Option<Traces>,
    lookup_elements: Option<LookupElements>,
    interaction: Option<Vec<Vec<M31>>>,
}

impl CommitPipeline {
    /// The protocol position.
    pub closed spec fn spec_state(&self) -> PipelineState {
        self.state
    }

    /// Row-count exponent every committed trace must share.
    pub closed spec fn spec_log_size(&self) -> u32 {
        self.log_size
    }

    /// The committed preprocessed trace; meaningful from stage 1 on.
    pub closed spec fn spec_preprocessed(&self) -> Traces {
        self.preprocessed->Some_0
    }

    /// The committed main trace; meaningful from stage 2 on.
    pub closed spec fn spec_main(&self) -> Traces {
        self.main->Some_0
    }

    /// The drawn challenge; meaningful from stage 3 on.
    pub closed spec fn spec_lookup_elements(&self) -> Seq<M31> {
        self.lookup_elements->Some_0@
    }

    /// The committed interaction trace; meaningful from stage 4 on.
    pub closed spec fn spec_interaction(&self) -> Seq<Seq<M31>> {
        mat_view(self.interaction->Some_0@)
    }

    /// Number of rows of every committed trace.
    pub open spec fn spec_num_rows(&self) -> nat {
        pow2(self.spec_log_size() as nat)
    }

    /// Whatever the reached stage needs has actually been stored.
    pub closed spec fn slots_filled(&self) -> bool {
        &&& stage(self.spec_state()) >= 1 ==> self.preprocessed is Some
        &&& stage(self.spec_state()) >= 2 ==> self.main is Some
        &&& stage(self.spec_state()) >= 3 ==> self.lookup_elements is Some
        &&& stage(self.spec_state()) >= 4 ==> self.interaction is Some
    }

    /// Well-formedness: whatever the reached stage owns is a well-formed
    /// trace of the declared schema and the shared row count.
    pub open spec fn wf(&self) -> bool {
        &&& self.slots_filled()
        &&& 8 <= self.spec_log_size() <= MAX_LOG_SIZE
        &&& stage(self.spec_state()) >= 1 ==> {
            &&& self.spec_preprocessed().wf()
            &&& self.spec_preprocessed()@.len() == PREPROCESSED_COLUMNS_NUM
            &&& self.spec_preprocessed().spec_log_size() == self.spec_log_size()
        }
        &&& stage(self.spec_state()) >= 2 ==> {
            &&& self.spec_main().wf()
            &&& self.spec_main()@.len() == COLUMNS_NUM
            &&& self.spec_main().spec_log_size() == self.spec_log_size()
        }
        &&& stage(self.spec_state()) >= 3 ==> {
            &&& self.spec_lookup_elements().len() == crate::chip::LOOKUP_ELEMENTS_NUM
            &&& forall|i: int|
                0 <= i < self.spec_lookup_elements().len() ==> (#[trigger] self.spec_lookup_elements()[i]).inv()
        }
        &&& stage(self.spec_state()) >= 4 ==> cols_ok(self.spec_interaction(), self.spec_num_rows())
    }

    /// A fresh pipeline with nothing committed.
    pub fn new(log_size: u32) -> (r: CommitPipeline)
        requires
            8 <= log_size <= MAX_LOG_SIZE,
        ensures
            r.wf(),
            r.spec_state() == PipelineState::Empty,
            r.spec_log_size() == log_size,
    {
        CommitPipeline {
            state: PipelineState::Empty,
            log_size,
            preprocessed: None,
            main: None,
            lookup_elements: None,
            interaction: None,
        }
    }

    /// First transition: store the preprocessed trace — the given one, or
    /// the generated lookup-table content when none is given — and hand its
    /// domain evaluations out for commitment. Rejected unless nothing has
    /// been committed yet.
    pub fn commit_preprocessed(&mut self, custom: Option<Traces>) -> (r: Result<Vec<Vec<M31>>, TraceError>)
        requires
            old(self).wf(),
            custom matches Some(t) ==> t.wf() && t@.len() == PREPROCESSED_COLUMNS_NUM
                && t.spec_log_size() == old(self).spec_log_size(),
        ensures
            final(self).wf(),
            final(self).spec_log_size() == old(self).spec_log_size(),
            r is Err <==> old(self).spec_state() != PipelineState::Empty,
            r is Err ==> r == Err::<Vec<Vec<M31>>, TraceError>(TraceError::OrderViolation) && *final(self)
                == *old(self),
            r is Ok ==> {
                &&& final(self).spec_state() == PipelineState::PreprocessedCommitted
                &&& (custom matches Some(t) ==> final(self).spec_preprocessed() == t)
                &&& (custom is None ==> {
                    let p = final(self).spec_preprocessed();
                    &&& p@.len() == PREPROCESSED_COLUMNS_NUM
                    &&& forall|j: int|
                        0 <= j < p.spec_num_rows() ==> (#[trigger] p@[PreprocessedColumn::IsFirst.spec_offset()][j]).v
                            == if j == 0 { 1int } else { 0int }
                    &&& forall|j: int|
                        0 <= j < p.spec_num_rows() ==> (#[trigger] p@[PreprocessedColumn::Range256.spec_offset()][j]).v
                            == if j < 256 { j } else { 0int }
                })
                &&& r->Ok_0@.len() == PREPROCESSED_COLUMNS_NUM
                &&& forall|i: int|
                    0 <= i < r->Ok_0@.len() ==> (#[trigger] r->Ok_0@[i])@ == domain_order(
                        final(self).spec_preprocessed()@[i],
                        old(self).spec_log_size() as nat,
                    )
            },
    {
        if self.state != PipelineState::Empty {
            return Err(TraceError::OrderViolation);
        }
        let pre = match custom {
            Some(t) => t,
            None => Traces::new_preprocessed_trace(self.log_size),
        };
        let evals = pre.circle_evaluation();
        self.preprocessed = Some(pre);
        self.state = PipelineState::PreprocessedCommitted;
        Ok(evals)
    }

    /// Second transition: store the filled main trace and hand its domain
    /// evaluations out for commitment, chaining it after the preprocessed
    /// commitment. Rejected unless the preprocessed trace was committed
    /// first.
    pub fn commit_main(&mut self, main_trace: Traces) -> (r: Result<Vec<Vec<M31>>, TraceError>)
        requires
            old(self).wf(),
            main_trace.wf(),
            main_trace@.len() == COLUMNS_NUM,
            main_trace.spec_log_size() == old(self).spec_log_size(),
        ensures
            final(self).wf(),
            final(self).spec_log_size() == old(self).spec_log_size(),
            r is Err <==> old(self).spec_state() != PipelineState::PreprocessedCommitted,
            r is Err ==> r == Err::<Vec<Vec<M31>>, TraceError>(TraceError::OrderViolation) && *final(self)
                == *old(self),
            r is Ok ==> {
                &&& final(self).spec_state() == PipelineState::MainCommitted
                &&& final(self).spec_main() == main_trace
                &&& final(self).spec_preprocessed() == old(self).spec_preprocessed()
                &&& r->Ok_0@.len() == COLUMNS_NUM
                &&& forall|i: int|
                    0 <= i < r->Ok_0@.len() ==> (#[trigger] r->Ok_0@[i])@ == domain_order(
                        main_trace@[i],
                        old(self).spec_log_size() as nat,
                    )
            },
    {
        if self.state != PipelineState::PreprocessedCommitted {
            return Err(TraceError::OrderViolation);
        }
        let evals = main_trace.circle_evaluation();
        self.main = Some(main_trace);
        self.state = PipelineState::MainCommitted;
        Ok(evals)
    }

    /// Third transition: accept the challenge vector the caller has drawn
    /// from its transcript. Rejected unless the main trace has been
    /// committed, so a prover can never choose trace content knowing the
    /// challenge.
    pub fn draw_challenge(&mut self, elems: LookupElements) -> (r: Result<(), TraceError>)
        requires
            old(self).wf(),
            elems.wf(),
        ensures
            final(self).wf(),
            final(self).spec_log_size() == old(self).spec_log_size(),
            r is Err <==> old(self).spec_state() != PipelineState::MainCommitted,
            r is Err ==> r == Err::<(), TraceError>(TraceError::OrderViolation) && *final(self) == *old(self),
            r is Ok ==> {
                &&& final(self).spec_state() == PipelineState::ChallengeDrawn
                &&& final(self).spec_lookup_elements() == elems@
                &&& final(self).spec_preprocessed() == old(self).spec_preprocessed()
                &&& final(self).spec_main() == old(self).spec_main()
            },
    {
        if self.state != PipelineState::MainCommitted {
            return Err(TraceError::OrderViolation);
        }
        self.lookup_elements = Some(elems);
        self.state = PipelineState::ChallengeDrawn;
        Ok(())
    }

    /// Fourth transition: derive the interaction trace through the chip
    /// interface from the committed traces and the drawn challenge, store
    /// it, and hand its domain evaluations out for commitment. Rejected
    /// unless the challenge has been drawn.
    pub fn commit_interaction<C: MachineChip>(&mut self) -> (r: Result<Vec<Vec<M31>>, TraceError>)
        requires
            old(self).wf(),
        ensures
            final(self).wf(),
            final(self).spec_log_size() == old(self).spec_log_size(),
            r is Err <==> old(self).spec_state() != PipelineState::ChallengeDrawn,
            r is Err ==> r == Err::<Vec<Vec<M31>>, TraceError>(TraceError::OrderViolation) && *final(self)
                == *old(self),
            r is Ok ==> {
                &&& final(self).spec_state() == PipelineState::InteractionCommitted
                &&& final(self).spec_interaction().len() == C::spec_n_interaction_cols()
                &&& final(self).spec_interaction() == C::spec_interaction_trace(
                    old(self).spec_main()@,
                    old(self).spec_preprocessed()@,
                    old(self).spec_lookup_elements(),
                    old(self).spec_num_rows(),
                )
                &&& final(self).spec_preprocessed() == old(self).spec_preprocessed()
                &&& final(self).spec_main() == old(self).spec_main()
                &&& final(self).spec_lookup_elements() == old(self).spec_lookup_elements()
                &&& r->Ok_0@.len() == C::spec_n_interaction_cols()
                &&& forall|i: int|
                    0 <= i < r->Ok_0@.len() ==> (#[trigger] r->Ok_0@[i])@ == domain_order(
                        final(self).spec_interaction()[i],
                        old(self).spec_log_size() as nat,
                    )
            },
    {
        if self.state != PipelineState::ChallengeDrawn {
            return Err(TraceError::OrderViolation);
        }
        let inter = {
            let pre = match &self.preprocessed {
                Some(t) => t,
                None => vstd::pervasive::unreached(),
            };
            let main = match &self.main {
                Some(t) => t,
                None => vstd::pervasive::unreached(),
            };
            let le = match &self.lookup_elements {
                Some(l) => l,
                None => vstd::pervasive::unreached(),
            };
            C::fill_interaction_trace(main, pre, le)
        };
        proof {
            assert forall|i: int| 0 <= i < inter@.len() implies (#[trigger] inter@[i])@.len() == pow2(
                self.log_size as nat,
            ) by {
                assert(mat_view(inter@)[i] == inter@[i]@);
            }
        }
        let evals = columns_to_domain_order(&inter, self.log_size);
        self.interaction = Some(inter);
        self.state = PipelineState::InteractionCommitted;
        Ok(evals)
    }

    /// Final transition: register the chip's identities and check that
    /// every one of them vanishes on every row of the combined committed
    /// traces. Rejected unless the interaction trace has been committed; a
    /// non-vanishing identity is a fatal proof-soundness failure and leaves
    /// the pipeline short of its final state.
    pub fn check_constraints<C: MachineChip>(&mut self) -> (r: Result<(), TraceError>)
        requires
            old(self).wf(),
            old(self).spec_state() == PipelineState::InteractionCommitted ==> old(self).spec_interaction().len()
                == C::spec_n_interaction_cols(),
        ensures
            final(self).wf(),
            final(self).spec_log_size() == old(self).spec_log_size(),
            old(self).spec_state() != PipelineState::InteractionCommitted ==> r == Err::<(), TraceError>(
                TraceError::OrderViolation,
            ) && *final(self) == *old(self),
            old(self).spec_state() == PipelineState::InteractionCommitted ==> {
                &&& (r is Ok <==> all_hold(
                    C::spec_identities(old(self).spec_lookup_elements()),
                    old(self).spec_preprocessed()@,
                    old(self).spec_main()@,
                    old(self).spec_interaction(),
                    old(self).spec_num_rows() as int,
                ))
                &&& (r is Ok ==> {
                    &&& final(self).spec_state() == PipelineState::ConstraintsChecked
                    &&& final(self).spec_preprocessed() == old(self).spec_preprocessed()
                    &&& final(self).spec_main() == old(self).spec_main()
                    &&& final(self).spec_lookup_elements() == old(self).spec_lookup_elements()
                    &&& final(self).spec_interaction() == old(self).spec_interaction()
                })
                &&& (r is Err ==> r == Err::<(), TraceError>(TraceError::ConstraintViolation) && *final(self)
                    == *old(self))
            },
    {
        if self.state != PipelineState::InteractionCommitted {
            return Err(TraceError::OrderViolation);
        }
        let le = match &self.lookup_elements {
            Some(l) => l,
            None => vstd::pervasive::unreached(),
        };
        let mut ev = ConstraintEvaluator::new();
        C::add_constraints(&mut ev, le);
        proof {
            C::identities_wf(le@);
            assert(ev.identities() =~= C::spec_identities(le@));
        }
        let pre = match &self.preprocessed {
            Some(t) => t,
            None => vstd::pervasive::unreached(),
        };
        let main = match &self.main {
            Some(t) => t,
            None => vstd::pervasive::unreached(),
        };
        let inter = match &self.interaction {
            Some(v) => v,
            None => vstd::pervasive::unreached(),
        };
        let res = ev.check_all(pre, main, inter);
        match res {
            Ok(()) => {
                self.state = PipelineState::ConstraintsChecked;
                Ok(())
            },
            Err(e) => Err(e),
        }
    }
}

impl Traces {
    /// Test-only shortcut: combines this main trace with a zero-filled
    /// preprocessed trace and an empty interaction trace and directly checks
    /// the chip's identities, skipping commitment entirely. There is no
    /// cryptographic binding here; it is acceptable only for unit-testing
    /// constraint logic in isolation, never for producing a real proof, and
    /// only for chips that derive no interaction columns.
    pub fn assert_as_original_trace<C: MachineChip>(self, lookup_elements: &LookupElements) -> (r: Result<
        (),
        TraceError,
    >)
        requires
            self.wf(),
            self@.len() == COLUMNS_NUM,
            lookup_elements.wf(),
            C::spec_n_interaction_cols() == 0,
        ensures
            r is Ok <==> all_hold(
                C::spec_identities(lookup_elements@),
                zero_mat(PREPROCESSED_COLUMNS_NUM as nat, self.spec_num_rows()),
                self@,
                Seq::<Seq<M31>>::empty(),
                self.spec_num_rows() as int,
            ),
            r is Err ==> r == Err::<(), TraceError>(TraceError::ConstraintViolation),
    {
        let pre = Traces::zero_trace(self.log_size(), PREPROCESSED_COLUMNS_NUM);
        proof {
            assert(pre@ =~~= zero_mat(PREPROCESSED_COLUMNS_NUM as nat, self.spec_num_rows()));
        }
        let empty_inter: Vec<Vec<M31>> = Vec::new();
        let mut ev = ConstraintEvaluator::new();
        C::add_constraints(&mut ev, lookup_elements);
        proof {
            C::identities_wf(lookup_elements@);
            assert(ev.identities() =~= C::spec_identities(lookup_elements@));
            assert(mat_view(empty_inter@) =~= Seq::<Seq<M31>>::empty());
        }
        ev.check_all(&pre, &self, &empty_inter)
    }
}

} // verus!
