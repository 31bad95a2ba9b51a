//! The pluggable chip interface: each sub-circuit derives its
//! interaction-trace columns from the main and preprocessed traces plus the
//! drawn challenge, and registers the polynomial identities that must vanish
//! on every row of the combined trace. Two chips are provided: the addition
//! chip with its per-byte carry identities, and the accumulator chip that
//! binds the operand columns to the drawn challenge with the running-sum
//! shape of a lookup argument.

use vstd::prelude::*;

verus! {

use crate::column::{Column, PreprocessedColumn, COLUMNS_NUM, PREPROCESSED_COLUMNS_NUM, WORD_SIZE};
use crate::constraint::{all_hold, eval_expr, expr_wf, lemma_eval_expr_inv, mat_view, ConstraintEvaluator, Expr};
use crate::field::{lemma_add_then_sub, lemma_mul_zero, lemma_sub_self, M31};
use crate::trace::{cols_ok, Traces};

/// Number of random field elements drawn from the transcript for the lookup
/// argument.
pub const LOOKUP_ELEMENTS_NUM: usize = 12;

/// The fixed-size vector of random field elements drawn from the transcript
/// after the main-trace commitment. Both the interaction-trace construction
/// and the constraint check must use the identical vector.
pub struct LookupElements {
    elems: Vec<M31>,
}

impl View for LookupElements {
    type V = Seq<M31>;

    closed spec fn view(&self) -> Seq<M31> {
        self.elems@
    }
}

impl LookupElements {
    /// Exactly [`LOOKUP_ELEMENTS_NUM`] canonical field elements.
    pub open spec fn wf(&self) -> bool {
        &&& self@.len() == LOOKUP_ELEMENTS_NUM
        &&& forall|i: int| 0 <= i < self@.len() ==> (#[trigger] self@[i]).inv()
    }

    /// Wraps the challenge vector a caller has drawn from its transcript.
    pub fn new(elems: Vec<M31>) -> (r: LookupElements)
        requires
            elems@.len() == LOOKUP_ELEMENTS_NUM,
            forall|i: int| 0 <= i < elems@.len() ==> (#[trigger] elems@[i]).inv(),
        ensures
            r@ == elems@,
            r.wf(),
    {
        LookupElements { elems }
    }

    /// One drawn element.
    pub fn get(&self, i: usize) -> (r: M31)
        requires
            i < self@.len(),
        ensures
            r == self@[i as int],
    {
        self.elems[i]
    }
}

/// The contract every sub-circuit implements: derive interaction columns and
/// register vanishing identities. A trace satisfying the registered
/// identities for a well-formed challenge vector is accepted as a valid
/// witness; the identities themselves are a pure function of the challenge.
pub trait MachineChip {
    /// Number of interaction-trace columns this chip derives.
    spec fn spec_n_interaction_cols() -> int;

    /// The identities this chip registers, as a function of the drawn
    /// challenge.
    spec fn spec_identities(lookup: Seq<M31>) -> Seq<Expr>;

    /// The interaction columns this chip derives, named as a function of
    /// exactly the committed traces and the drawn challenge: the derivation
    /// is deterministic in these three inputs and nothing else.
    spec fn spec_interaction_trace(
        main: Seq<Seq<M31>>,
        preprocessed: Seq<Seq<M31>>,
        lookup: Seq<M31>,
        n_rows: nat,
    ) -> Seq<Seq<M31>>;

    /// Every registered identity addresses only declared columns.
    proof fn identities_wf(lookup: Seq<M31>)
        requires
            lookup.len() == LOOKUP_ELEMENTS_NUM,
            forall|i: int| 0 <= i < lookup.len() ==> (#[trigger] lookup[i]).inv(),
        ensures
            Self::spec_n_interaction_cols() >= 0,
            forall|k: int|
                0 <= k < Self::spec_identities(lookup).len() ==> expr_wf(
                    #[trigger] Self::spec_identities(lookup)[k],
                    Self::spec_n_interaction_cols(),
                ),
    ;

    /// Derives the interaction-trace columns from the committed traces and
    /// the drawn challenge; deterministic given its three inputs.
    fn fill_interaction_trace(main: &Traces, preprocessed: &Traces, lookup_elements: &LookupElements) -> (r: Vec<
        Vec<M31>,
    >)
        requires
            main.wf(),
            main@.len() == COLUMNS_NUM,
            preprocessed.wf(),
            preprocessed@.len() == PREPROCESSED_COLUMNS_NUM,
            preprocessed.spec_log_size() == main.spec_log_size(),
            lookup_elements.wf(),
        ensures
            r@.len() == Self::spec_n_interaction_cols(),
            cols_ok(mat_view(r@), main.spec_num_rows()),
            mat_view(r@) == Self::spec_interaction_trace(
                main@,
                preprocessed@,
                lookup_elements@,
                main.spec_num_rows(),
            ),
    ;

    /// Registers this chip's identities on the evaluator, in order, touching
    /// nothing that was registered before.
    fn add_constraints(ev: &mut ConstraintEvaluator, lookup_elements: &LookupElements)
        requires
            lookup_elements.wf(),
        ensures
            final(ev).identities() == old(ev).identities() + Self::spec_identities(lookup_elements@),
    ;
}

/// The main-trace selector cell gating a chip's identities.
pub open spec fn spec_is_add() -> Expr {
    Expr::Main(Column::IsAdd, 0)
}

/// `x * (x - 1)`: vanishes exactly when `x` is zero or one.
pub open spec fn spec_booleanity(x: Expr) -> Expr {
    Expr::Mul(Box::new(x), Box::new(Expr::Sub(Box::new(x), Box::new(Expr::Const(M31 { v: 1 })))))
}

/// The gated per-byte addition identity for limb `i`:
/// `IsAdd * (A_i + B_i + carry_in - C_i - 256 * Carry_i)`, with no carry
/// into the lowest limb.
pub open spec fn spec_add_limb_identity(i: int) -> Expr {
    let carry_in = if i == 0 {
        Expr::Const(M31 { v: 0 })
    } else {
        Expr::Main(Column::CarryFlag, (i - 1) as usize)
    };
    let lhs = Expr::Add(
        Box::new(Expr::Add(
            Box::new(Expr::Main(Column::ValueA, i as usize)),
            Box::new(Expr::Main(Column::ValueB, i as usize)),
        )),
        Box::new(carry_in),
    );
    let rhs = Expr::Add(
        Box::new(Expr::Main(Column::ValueC, i as usize)),
        Box::new(Expr::Mul(
            Box::new(Expr::Const(M31 { v: 256 })),
            Box::new(Expr::Main(Column::CarryFlag, i as usize)),
        )),
    );
    Expr::Mul(Box::new(spec_is_add()), Box::new(Expr::Sub(Box::new(lhs), Box::new(rhs))))
}

/// The identities of the addition chip: selector booleanity, gated carry
/// booleanity per limb, and the gated per-byte addition identity per limb.
pub open spec fn spec_add_chip_identities() -> Seq<Expr> {
    seq![
        spec_booleanity(spec_is_add()),
        Expr::Mul(Box::new(spec_is_add()), Box::new(spec_booleanity(Expr::Main(Column::CarryFlag, 0)))),
        Expr::Mul(Box::new(spec_is_add()), Box::new(spec_booleanity(Expr::Main(Column::CarryFlag, 1)))),
        Expr::Mul(Box::new(spec_is_add()), Box::new(spec_booleanity(Expr::Main(Column::CarryFlag, 2)))),
        Expr::Mul(Box::new(spec_is_add()), Box::new(spec_booleanity(Expr::Main(Column::CarryFlag, 3)))),
        spec_add_limb_identity(0),
        spec_add_limb_identity(1),
        spec_add_limb_identity(2),
        spec_add_limb_identity(3),
    ]
}

/// The sub-circuit checking 32-bit addition a byte at a time: on every row
/// selected by `IsAdd`, the operand, result and carry columns must satisfy
/// `A_i + B_i + carry_in = C_i + 256 * Carry_i` with boolean carries. It
/// derives no interaction columns.
pub struct AddChip;

impl MachineChip for AddChip {
    open spec fn spec_n_interaction_cols() -> int {
        0
    }

    open spec fn spec_identities(lookup: Seq<M31>) -> Seq<Expr> {
        spec_add_chip_identities()
    }

    open spec fn spec_interaction_trace(
        main: Seq<Seq<M31>>,
        preprocessed: Seq<Seq<M31>>,
        lookup: Seq<M31>,
        n_rows: nat,
    ) -> Seq<Seq<M31>> {
        Seq::empty()
    }

    proof fn identities_wf(lookup: Seq<M31>) {
        let ids = spec_add_chip_identities();
        assert forall|k: int| 0 <= k < ids.len() implies expr_wf(#[trigger] ids[k], 0) by {
            reveal_with_fuel(expr_wf, 12);
            if k == 0 {
                assert(expr_wf(ids[0], 0));
            } else if k == 1 {
                assert(expr_wf(ids[1], 0));
            } else if k == 2 {
                assert(expr_wf(ids[2], 0));
            } else if k == 3 {
                assert(expr_wf(ids[3], 0));
            } else if k == 4 {
                assert(expr_wf(ids[4], 0));
            } else if k == 5 {
                assert(expr_wf(ids[5], 0));
            } else if k == 6 {
                assert(expr_wf(ids[6], 0));
            } else if k == 7 {
                assert(expr_wf(ids[7], 0));
            } else {
                assert(expr_wf(ids[8], 0));
            }
        }
    }

    fn fill_interaction_trace(main: &Traces, preprocessed: &Traces, lookup_elements: &LookupElements) -> (r: Vec<
        Vec<M31>,
    >) {
        let r: Vec<Vec<M31>> = Vec::new();
        proof {
            assert(mat_view(r@) =~= Seq::<Seq<M31>>::empty());
        }
        r
    }
    fn add_constraints(ev: &mut ConstraintEvaluator, lookup_elements: &LookupElements) {
        ev.add_constraint(build_booleanity(Column::IsAdd, 0));
        ev.add_constraint(build_gated_booleanity(Column::CarryFlag, 0));
        ev.add_constraint(build_gated_booleanity(Column::CarryFlag, 1));
        ev.add_constraint(build_gated_booleanity(Column::CarryFlag, 2));
        ev.add_constraint(build_gated_booleanity(Column::CarryFlag, 3));
        ev.add_constraint(build_add_limb_identity(0));
        ev.add_constraint(build_add_limb_identity(1));
        ev.add_constraint(build_add_limb_identity(2));
        ev.add_constraint(build_add_limb_identity(3));
        proof {
            assert(ev.identities() =~= old(ev).identities() + spec_add_chip_identities());
        }
    }
}

/// Builds `x * (x - 1)` for the addressed main-trace cell.
fn build_booleanity(c: Column, idx: usize) -> (e: Expr)
    ensures
        e == spec_booleanity(Expr::Main(c, idx)),
{
    Expr::Mul(
        Box::new(Expr::Main(c, idx)),
        Box::new(Expr::Sub(Box::new(Expr::Main(c, idx)), Box::new(Expr::Const(M31 { v: 1 })))),
    )
}

/// Builds the booleanity of the addressed cell, gated by the `IsAdd`
/// selector.
fn build_gated_booleanity(c: Column, idx: usize) -> (e: Expr)
    ensures
        e == Expr::Mul(Box::new(spec_is_add()), Box::new(spec_booleanity(Expr::Main(c, idx)))),
{
    Expr::Mul(Box::new(Expr::Main(Column::IsAdd, 0)), Box::new(build_booleanity(c, idx)))
}

/// Builds the gated per-byte addition identity for limb `i`.
fn build_add_limb_identity(i: usize) -> (e: Expr)
    requires
        i < WORD_SIZE,
    ensures
        e == spec_add_limb_identity(i as int),
{
    let carry_in = if i == 0 {
        Expr::Const(M31 { v: 0 })
    } else {
        Expr::Main(Column::CarryFlag, i - 1)
    };
    let lhs = Expr::Add(
        Box::new(Expr::Add(
            Box::new(Expr::Main(Column::ValueA, i)),
            Box::new(Expr::Main(Column::ValueB, i)),
        )),
        Box::new(carry_in),
    );
    let rhs = Expr::Add(
        Box::new(Expr::Main(Column::ValueC, i)),
        Box::new(Expr::Mul(
            Box::new(Expr::Const(M31 { v: 256 })),
            Box::new(Expr::Main(Column::CarryFlag, i)),
        )),
    );
    Expr::Mul(
        Box::new(Expr::Main(Column::IsAdd, 0)),
        Box::new(Expr::Sub(Box::new(lhs), Box::new(rhs))),
    )
}

/// The main column carrying limb `j` of the randomized combination: the
/// twelve drawn elements are paired with the twelve operand and result limbs.
pub open spec fn spec_term_column(j: int) -> Column {
    if j < 4 {
        Column::ValueA
    } else if j < 8 {
        Column::ValueB
    } else {
        Column::ValueC
    }
}

/// One term of the randomized combination: `e_j * cell_j`.
pub open spec fn spec_combine_term(lookup: Seq<M31>, j: int) -> Expr {
    Expr::Mul(
        Box::new(Expr::Const(lookup[j])),
        Box::new(Expr::Main(spec_term_column(j), (j % 4) as usize)),
    )
}

/// The tail of the randomized combination starting at term `j`.
pub open spec fn spec_combine_from(lookup: Seq<M31>, j: int) -> Expr
    decreases LOOKUP_ELEMENTS_NUM - j,
{
    if j >= LOOKUP_ELEMENTS_NUM - 1 {
        spec_combine_term(lookup, LOOKUP_ELEMENTS_NUM - 1)
    } else {
        Expr::Add(
            Box::new(spec_combine_term(lookup, j)),
            Box::new(spec_combine_from(lookup, j + 1)),
        )
    }
}

/// The identities of the accumulator chip: on the boundary row the
/// accumulator equals the row's combination, and on every other row it grows
/// by exactly the row's combination, the wrap-around row being carved out by
/// the boundary indicator.
pub open spec fn spec_accum_identities(lookup: Seq<M31>) -> Seq<Expr> {
    seq![
        Expr::Mul(
            Box::new(Expr::Pre(PreprocessedColumn::IsFirst, 0)),
            Box::new(Expr::Sub(Box::new(Expr::Inter(0)), Box::new(spec_combine_from(lookup, 0)))),
        ),
        Expr::Mul(
            Box::new(Expr::Sub(
                Box::new(Expr::Const(M31 { v: 1 })),
                Box::new(Expr::Pre(PreprocessedColumn::IsFirst, 0)),
            )),
            Box::new(Expr::Sub(
                Box::new(Expr::Sub(Box::new(Expr::Inter(0)), Box::new(Expr::InterPrev(0)))),
                Box::new(spec_combine_from(lookup, 0)),
            )),
        ),
    ]
}

/// Every tail of the randomized combination addresses only declared columns.
proof fn lemma_combine_from_wf(lookup: Seq<M31>, j: int, n_inter: int)
    requires
        lookup.len() == LOOKUP_ELEMENTS_NUM,
        forall|i: int| 0 <= i < lookup.len() ==> (#[trigger] lookup[i]).inv(),
        0 <= j <= LOOKUP_ELEMENTS_NUM - 1,
        n_inter >= 0,
    ensures
        expr_wf(spec_combine_from(lookup, j), n_inter),
    decreases LOOKUP_ELEMENTS_NUM - j,
{
    reveal_with_fuel(expr_wf, 4);
    if j < LOOKUP_ELEMENTS_NUM - 1 {
        lemma_combine_from_wf(lookup, j + 1, n_inter);
    }
}

/// Builds the tail of the randomized combination starting at term `j`.
fn build_combine_from(lookup_elements: &LookupElements, j: usize) -> (e: Expr)
    requires
        lookup_elements.wf(),
        j < LOOKUP_ELEMENTS_NUM,
    ensures
        e == spec_combine_from(lookup_elements@, j as int),
    decreases LOOKUP_ELEMENTS_NUM - j,
{
    let c = if j < 4 {
        Column::ValueA
    } else if j < 8 {
        Column::ValueB
    } else {
        Column::ValueC
    };
    let term = Expr::Mul(
        Box::new(Expr::Const(lookup_elements.get(j))),
        Box::new(Expr::Main(c, j % 4)),
    );
    if j >= LOOKUP_ELEMENTS_NUM - 1 {
        term
    } else {
        Expr::Add(Box::new(term), Box::new(build_combine_from(lookup_elements, j + 1)))
    }
}

/// The value of the randomized combination of the operand and result limbs
/// on one row: the combination expression evaluated there. The expression
/// reads no interaction column, so the empty interaction matrix suffices.
pub open spec fn spec_combine_value(
    main: Seq<Seq<M31>>,
    pre: Seq<Seq<M31>>,
    lookup: Seq<M31>,
    row: int,
    n_rows: int,
) -> M31 {
    eval_expr(spec_combine_from(lookup, 0), pre, main, Seq::<Seq<M31>>::empty(), row, n_rows)
}

/// The running sum of the row combinations over rows `0..=row`.
pub open spec fn spec_accum_value(
    main: Seq<Seq<M31>>,
    pre: Seq<Seq<M31>>,
    lookup: Seq<M31>,
    row: int,
    n_rows: int,
) -> M31
    decreases row,
{
    if row <= 0 {
        spec_combine_value(main, pre, lookup, 0, n_rows)
    } else {
        spec_accum_value(main, pre, lookup, row - 1, n_rows).spec_add(
            spec_combine_value(main, pre, lookup, row, n_rows),
        )
    }
}

/// The combination expression reads no interaction column, so its value is
/// the same over any interaction matrix.
proof fn lemma_combine_eval_any_inter(
    main: Seq<Seq<M31>>,
    pre: Seq<Seq<M31>>,
    lookup: Seq<M31>,
    inter1: Seq<Seq<M31>>,
    inter2: Seq<Seq<M31>>,
    row: int,
    n: int,
    j: int,
)
    requires
        0 <= j <= LOOKUP_ELEMENTS_NUM - 1,
    ensures
        eval_expr(spec_combine_from(lookup, j), pre, main, inter1, row, n) == eval_expr(
            spec_combine_from(lookup, j),
            pre,
            main,
            inter2,
            row,
            n,
        ),
    decreases LOOKUP_ELEMENTS_NUM - j,
{
    reveal_with_fuel(eval_expr, 4);
    if j < LOOKUP_ELEMENTS_NUM - 1 {
        lemma_combine_eval_any_inter(main, pre, lookup, inter1, inter2, row, n, j + 1);
    }
}

/// Every accumulator value is a canonical field element.
proof fn lemma_accum_value_inv(
    main: Seq<Seq<M31>>,
    pre: Seq<Seq<M31>>,
    lookup: Seq<M31>,
    row: int,
    n_rows: nat,
)
    requires
        cols_ok(main, n_rows),
        main.len() == COLUMNS_NUM,
        cols_ok(pre, n_rows),
        pre.len() == PREPROCESSED_COLUMNS_NUM,
        lookup.len() == LOOKUP_ELEMENTS_NUM,
        forall|i: int| 0 <= i < lookup.len() ==> (#[trigger] lookup[i]).inv(),
        0 <= row < n_rows,
    ensures
        spec_accum_value(main, pre, lookup, row, n_rows as int).inv(),
    decreases row,
{
    lemma_combine_from_wf(lookup, 0, 0);
    let empty = Seq::<Seq<M31>>::empty();
    if row <= 0 {
        lemma_eval_expr_inv(spec_combine_from(lookup, 0), pre, main, empty, 0, n_rows);
    } else {
        lemma_accum_value_inv(main, pre, lookup, row - 1, n_rows);
        lemma_eval_expr_inv(spec_combine_from(lookup, 0), pre, main, empty, row, n_rows);
    }
}

/// The accumulator chip is sound by construction: its derived running-sum
/// column satisfies the chip's two identities on every row, for every
/// well-formed main trace and challenge, whenever the preprocessed boundary
/// column holds one on the first row and zero elsewhere. A main trace
/// therefore needs nothing further for the pipeline's constraint check to
/// accept this chip.
pub proof fn lemma_accum_chip_sound(
    main: Seq<Seq<M31>>,
    pre: Seq<Seq<M31>>,
    lookup: Seq<M31>,
    n_rows: nat,
)
    requires
        cols_ok(main, n_rows),
        main.len() == COLUMNS_NUM,
        cols_ok(pre, n_rows),
        pre.len() == PREPROCESSED_COLUMNS_NUM,
        lookup.len() == LOOKUP_ELEMENTS_NUM,
        forall|i: int| 0 <= i < lookup.len() ==> (#[trigger] lookup[i]).inv(),
        n_rows >= 1,
        forall|j: int|
            0 <= j < n_rows ==> (#[trigger] pre[PreprocessedColumn::IsFirst.spec_offset()][j]).v
                == if j == 0 { 1int } else { 0int },
    ensures
        all_hold(
            spec_accum_identities(lookup),
            pre,
            main,
            AccumChip::spec_interaction_trace(main, pre, lookup, n_rows),
            n_rows as int,
        ),
{
    let inter = AccumChip::spec_interaction_trace(main, pre, lookup, n_rows);
    let ids = spec_accum_identities(lookup);
    let n = n_rows as int;
    let empty = Seq::<Seq<M31>>::empty();
    assert forall|k: int, row: int| 0 <= k < ids.len() && 0 <= row < n implies (#[trigger] eval_expr(
        ids[k],
        pre,
        main,
        inter,
        row,
        n,
    )).v == 0 by {
        reveal_with_fuel(eval_expr, 6);
        let isf = pre[PreprocessedColumn::IsFirst.spec_offset()][row];
        let combv = spec_combine_value(main, pre, lookup, row, n);
        lemma_combine_eval_any_inter(main, pre, lookup, inter, empty, row, n, 0);
        assert(eval_expr(spec_combine_from(lookup, 0), pre, main, inter, row, n) == combv);
        lemma_accum_value_inv(main, pre, lookup, row, n_rows);
        lemma_combine_from_wf(lookup, 0, 0);
        lemma_eval_expr_inv(spec_combine_from(lookup, 0), pre, main, empty, row, n_rows);
        let acc = spec_accum_value(main, pre, lookup, row, n);
        assert(inter[0][row] == acc);
        if k == 0 {
            assert(eval_expr(ids[0], pre, main, inter, row, n) == isf.spec_mul(
                inter[0][row].spec_sub(combv),
            ));
            if row == 0 {
                assert(acc == combv);
                lemma_sub_self(combv);
                lemma_mul_zero(isf, acc.spec_sub(combv));
            } else {
                assert(isf.v == 0);
                lemma_mul_zero(isf, acc.spec_sub(combv));
            }
        } else {
            let prev = if row == 0 { n - 1 } else { row - 1 };
            let one = M31 { v: 1 };
            let lhs = one.spec_sub(isf);
            assert(eval_expr(ids[1], pre, main, inter, row, n) == lhs.spec_mul(
                (inter[0][row].spec_sub(inter[0][prev])).spec_sub(combv),
            ));
            if row == 0 {
                assert(isf.v == 1);
                assert(lhs.v == 0);
                lemma_mul_zero(lhs, (inter[0][row].spec_sub(inter[0][prev])).spec_sub(combv));
            } else {
                let accp = spec_accum_value(main, pre, lookup, row - 1, n);
                assert(inter[0][prev] == accp);
                lemma_accum_value_inv(main, pre, lookup, row - 1, n_rows);
                assert(acc == accp.spec_add(combv));
                lemma_add_then_sub(accp, combv);
                assert(acc.spec_sub(accp) == combv);
                lemma_sub_self(combv);
                lemma_mul_zero(lhs, (acc.spec_sub(accp)).spec_sub(combv));
            }
        }
    }
}

/// The sub-circuit accumulating the randomized combination of every row's
/// operand and result limbs into one running-sum interaction column, the
/// shape a lookup argument uses to bind committed columns to the drawn
/// challenge.
pub struct AccumChip;

impl MachineChip for AccumChip {
    open spec fn spec_n_interaction_cols() -> int {
        1
    }

    open spec fn spec_identities(lookup: Seq<M31>) -> Seq<Expr> {
        spec_accum_identities(lookup)
    }

    open spec fn spec_interaction_trace(
        main: Seq<Seq<M31>>,
        preprocessed: Seq<Seq<M31>>,
        lookup: Seq<M31>,
        n_rows: nat,
    ) -> Seq<Seq<M31>> {
        seq![
            Seq::new(
                n_rows,
                |j: int| spec_accum_value(main, preprocessed, lookup, j, n_rows as int),
            ),
        ]
    }

    proof fn identities_wf(lookup: Seq<M31>) {
        lemma_combine_from_wf(lookup, 0, 1);
        let ids = spec_accum_identities(lookup);
        assert forall|k: int| 0 <= k < ids.len() implies expr_wf(#[trigger] ids[k], 1) by {
            reveal_with_fuel(expr_wf, 6);
            if k == 0 {
                assert(expr_wf(ids[0], 1));
            } else {
                assert(expr_wf(ids[1], 1));
            }
        }
    }

    fn fill_interaction_trace(main: &Traces, preprocessed: &Traces, lookup_elements: &LookupElements) -> (r: Vec<
        Vec<M31>,
    >) {
        let combine = build_combine_from(lookup_elements, 0);
        proof {
            lemma_combine_from_wf(lookup_elements@, 0, 0);
        }
        let empty: Vec<Vec<M31>> = Vec::new();
        proof {
            assert(mat_view(empty@) =~= Seq::<Seq<M31>>::empty());
        }
        let n = main.num_rows();
        let mut acc = M31 { v: 0 };
        let mut col: Vec<M31> = Vec::new();
        let mut row: usize = 0;
        while row < n
            invariant
                row <= n,
                col@.len() == row,
                acc.inv(),
                forall|k: int| 0 <= k < row ==> (#[trigger] col@[k]).inv(),
                forall|k: int|
                    0 <= k < row ==> (#[trigger] col@[k]) == spec_accum_value(
                        main@,
                        preprocessed@,
                        lookup_elements@,
                        k,
                        main.spec_num_rows() as int,
                    ),
                row > 0 ==> acc == spec_accum_value(
                    main@,
                    preprocessed@,
                    lookup_elements@,
                    row - 1,
                    main.spec_num_rows() as int,
                ),
            decreases n - row,
        {
            let c = crate::constraint::eval(&combine, preprocessed, main, &empty, row);
            proof {
                assert(c == spec_combine_value(
                    main@,
                    preprocessed@,
                    lookup_elements@,
                    row as int,
                    main.spec_num_rows() as int,
                ));
            }
            acc = if row == 0 {
                c
            } else {
                acc.add(c)
            };
            col.push(acc);
            row = row + 1;
        }
        let mut r: Vec<Vec<M31>> = Vec::new();
        r.push(col);
        proof {
            assert forall|i: int, jj: int|
                0 <= i < mat_view(r@).len() && 0 <= jj < mat_view(r@)[i].len() implies (#[trigger] mat_view(
                r@,
            )[i][jj]).inv() by {
                assert(mat_view(r@)[i] == r@[i]@);
            }
            assert forall|i: int| 0 <= i < mat_view(r@).len() implies (#[trigger] mat_view(r@)[i]).len()
                == main.spec_num_rows() by {
                assert(mat_view(r@)[i] == r@[i]@);
            }
            assert(r@[0]@ =~= Seq::new(
                main.spec_num_rows(),
                |j: int| spec_accum_value(
                    main@,
                    preprocessed@,
                    lookup_elements@,
                    j,
                    main.spec_num_rows() as int,
                ),
            ));
            assert(mat_view(r@) =~= Self::spec_interaction_trace(
                main@,
                preprocessed@,
                lookup_elements@,
                main.spec_num_rows(),
            ));
        }
        r
    }

    fn add_constraints(ev: &mut ConstraintEvaluator, lookup_elements: &LookupElements) {
        let first = Expr::Mul(
            Box::new(Expr::Pre(PreprocessedColumn::IsFirst, 0)),
            Box::new(Expr::Sub(
                Box::new(Expr::Inter(0)),
                Box::new(build_combine_from(lookup_elements, 0)),
            )),
        );
        let step = Expr::Mul(
            Box::new(Expr::Sub(
                Box::new(Expr::Const(M31 { v: 1 })),
                Box::new(Expr::Pre(PreprocessedColumn::IsFirst, 0)),
            )),
            Box::new(Expr::Sub(
                Box::new(Expr::Sub(Box::new(Expr::Inter(0)), Box::new(Expr::InterPrev(0)))),
                Box::new(build_combine_from(lookup_elements, 0)),
            )),
        );
        ev.add_constraint(first);
        ev.add_constraint(step);
        proof {
            assert(ev.identities() =~= old(ev).identities() + spec_accum_identities(
                lookup_elements@,
            ));
        }
    }
}

} // verus!
