//! Polynomial identities over the combined traces, represented as explicit
//! expression trees, and the evaluator that chips register them on. An
//! identity is evaluated on every row of the trace domain; a trace is
//! accepted only when every registered identity vanishes on every row.

use vstd::prelude::*;

verus! {

use crate::column::{
    lemma_main_schema_in_bounds, lemma_preprocessed_schema_partition, Column, PreprocessedColumn,
    COLUMNS_NUM, PREPROCESSED_COLUMNS_NUM,
};
use crate::error::TraceError;
use crate::field::M31;
use crate::trace::{cols_ok, Traces};

/// The column views of a vector of raw columns.
pub open spec fn mat_view(m: Seq<Vec<M31>>) -> Seq<Seq<M31>> {
    Seq::new(m.len(), |i: int| m[i]@)
}

/// One polynomial identity term over a row of the combined (preprocessed,
/// main, interaction) traces. `InterPrev` reads the cyclically previous row,
/// which lets running-accumulator identities relate adjacent rows; the
/// wrap-around row is carved out by multiplying with the boundary indicator.
pub enum Expr {
    /// A constant field element.
    Const(M31),
    /// A cell of the addressed preprocessed column group at the current
    /// row: the group's offset plus the given limb index.
    Pre(PreprocessedColumn, usize),
    /// A cell of the addressed main column group at the current row.
    Main(Column, usize),
    /// Interaction-trace column at the current row.
    Inter(usize),
    /// Interaction-trace column at the cyclically previous row.
    InterPrev(usize),
    /// Field addition of two terms.
    Add(Box<Expr>, Box<Expr>),
    /// Field subtraction of two terms.
    Sub(Box<Expr>, Box<Expr>),
    /// Field multiplication of two terms.
    Mul(Box<Expr>, Box<Expr>),
}

/// The expression addresses only declared columns: limb indices stay inside
/// their column group's declared width and interaction references stay below
/// the chip's declared interaction width.
pub open spec fn expr_wf(e: Expr, n_inter: int) -> bool
    decreases e,
{
    match e {
        Expr::Const(c) => c.inv(),
        Expr::Pre(c, idx) => idx < c.spec_size(),
        Expr::Main(c, idx) => idx < c.spec_size(),
        Expr::Inter(j) => j < n_inter,
        Expr::InterPrev(j) => j < n_inter,
        Expr::Add(a, b) => expr_wf(*a, n_inter) && expr_wf(*b, n_inter),
        Expr::Sub(a, b) => expr_wf(*a, n_inter) && expr_wf(*b, n_inter),
        Expr::Mul(a, b) => expr_wf(*a, n_inter) && expr_wf(*b, n_inter),
    }
}

/// The value of an identity term at `row`, over the three trace views.
pub open spec fn eval_expr(
    e: Expr,
    pre: Seq<Seq<M31>>,
    main: Seq<Seq<M31>>,
    inter: Seq<Seq<M31>>,
    row: int,
    n_rows: int,
) -> M31
    decreases e,
{
    match e {
        Expr::Const(c) => c,
        Expr::Pre(c, idx) => pre[c.spec_offset() + idx][row],
        Expr::Main(c, idx) => main[c.spec_offset() + idx][row],
        Expr::Inter(j) => inter[j as int][row],
        Expr::InterPrev(j) => inter[j as int][if row == 0 {
            n_rows - 1
        } else {
            row - 1
        }],
        Expr::Add(a, b) => eval_expr(*a, pre, main, inter, row, n_rows).spec_add(
            eval_expr(*b, pre, main, inter, row, n_rows),
        ),
        Expr::Sub(a, b) => eval_expr(*a, pre, main, inter, row, n_rows).spec_sub(
            eval_expr(*b, pre, main, inter, row, n_rows),
        ),
        Expr::Mul(a, b) => eval_expr(*a, pre, main, inter, row, n_rows).spec_mul(
            eval_expr(*b, pre, main, inter, row, n_rows),
        ),
    }
}

/// Every identity in `ids` vanishes on every row.
pub open spec fn all_hold(
    ids: Seq<Expr>,
    pre: Seq<Seq<M31>>,
    main: Seq<Seq<M31>>,
    inter: Seq<Seq<M31>>,
    n_rows: int,
) -> bool {
    forall|k: int, row: int|
        0 <= k < ids.len() && 0 <= row < n_rows ==> (#[trigger] eval_expr(
            ids[k],
            pre,
            main,
            inter,
            row,
            n_rows,
        )).v == 0
}

/// The value of a well-formed identity term over well-formed traces is a
/// canonical field element.
pub proof fn lemma_eval_expr_inv(
    e: Expr,
    pre: Seq<Seq<M31>>,
    main: Seq<Seq<M31>>,
    inter: Seq<Seq<M31>>,
    row: int,
    n_rows: nat,
)
    requires
        cols_ok(pre, n_rows),
        pre.len() == PREPROCESSED_COLUMNS_NUM,
        cols_ok(main, n_rows),
        main.len() == COLUMNS_NUM,
        cols_ok(inter, n_rows),
        expr_wf(e, inter.len() as int),
        0 <= row < n_rows,
    ensures
        eval_expr(e, pre, main, inter, row, n_rows as int).inv(),
    decreases e,
{
    lemma_main_schema_in_bounds();
    lemma_preprocessed_schema_partition();
    match e {
        Expr::Const(c) => {
        },
        Expr::Pre(c, idx) => {
        },
        Expr::Main(c, idx) => {
        },
        Expr::Inter(j) => {
        },
        Expr::InterPrev(j) => {
        },
        Expr::Add(a, b) => {
            lemma_eval_expr_inv(*a, pre, main, inter, row, n_rows);
            lemma_eval_expr_inv(*b, pre, main, inter, row, n_rows);
        },
        Expr::Sub(a, b) => {
            lemma_eval_expr_inv(*a, pre, main, inter, row, n_rows);
            lemma_eval_expr_inv(*b, pre, main, inter, row, n_rows);
        },
        Expr::Mul(a, b) => {
            lemma_eval_expr_inv(*a, pre, main, inter, row, n_rows);
            lemma_eval_expr_inv(*b, pre, main, inter, row, n_rows);
        },
    }
}

/// Evaluates one identity term at `row` of the given traces.
pub fn eval(e: &Expr, pre: &Traces, main: &Traces, inter: &Vec<Vec<M31>>, row: usize) -> (r: M31)
    requires
        pre.wf(),
        pre@.len() == PREPROCESSED_COLUMNS_NUM,
        main.wf(),
        main@.len() == COLUMNS_NUM,
        pre.spec_log_size() == main.spec_log_size(),
        cols_ok(mat_view(inter@), main.spec_num_rows()),
        expr_wf(*e, inter@.len() as int),
        row < main.spec_num_rows(),
    ensures
        r == eval_expr(*e, pre@, main@, mat_view(inter@), row as int, main.spec_num_rows() as int),
        r.inv(),
    decreases *e,
{
    proof {
        lemma_main_schema_in_bounds();
        lemma_preprocessed_schema_partition();
    }
    match e {
        Expr::Const(c) => *c,
        Expr::Pre(c, idx) => pre.cell(c.offset() + *idx, row),
        Expr::Main(c, idx) => main.cell(c.offset() + *idx, row),
        Expr::Inter(j) => {
            proof {
                assert(mat_view(inter@)[*j as int] == inter@[*j as int]@);
            }
            inter[*j][row]
        },
        Expr::InterPrev(j) => {
            let n = main.num_rows();
            let prev = if row == 0 {
                n - 1
            } else {
                row - 1
            };
            proof {
                assert(mat_view(inter@)[*j as int] == inter@[*j as int]@);
            }
            inter[*j][prev]
        },
        Expr::Add(a, b) => {
            let x = eval(a, pre, main, inter, row);
            let y = eval(b, pre, main, inter, row);
            x.add(y)
        },
        Expr::Sub(a, b) => {
            let x = eval(a, pre, main, inter, row);
            let y = eval(b, pre, main, inter, row);
            x.sub(y)
        },
        Expr::Mul(a, b) => {
            let x = eval(a, pre, main, inter, row);
            let y = eval(b, pre, main, inter, row);
            x.mul(y)
        },
    }
}

/// The evaluator that chips register their identities on: nothing more than
/// the ordered list of registered identity terms.
pub struct ConstraintEvaluator {
    exprs: Vec<Expr>,
}

impl ConstraintEvaluator {
    /// The identities registered so far, in registration order.
    pub closed spec fn identities(&self) -> Seq<Expr> {
        self.exprs@
    }

    /// An evaluator with no registered identities.
    pub fn new() -> (r: ConstraintEvaluator)
        ensures
            r.identities() == Seq::<Expr>::empty(),
    {
        let r = ConstraintEvaluator { exprs: Vec::new() };
        proof {
            assert(r.identities() =~= Seq::<Expr>::empty());
        }
        r
    }

    /// Registers one identity; everything registered before stays in place.
    pub fn add_constraint(&mut self, e: Expr)
        ensures
            final(self).identities() == old(self).identities().push(e),
    {
        self.exprs.push(e);
    }

    /// Checks that every registered identity vanishes on every row; the
    /// first row holding a non-vanishing identity is reported as a fatal
    /// constraint violation.
    pub fn check_all(&self, pre: &Traces, main: &Traces, inter: &Vec<Vec<M31>>) -> (r: Result<
        (),
        TraceError,
    >)
        requires
            pre.wf(),
            pre@.len() == PREPROCESSED_COLUMNS_NUM,
            main.wf(),
            main@.len() == COLUMNS_NUM,
            pre.spec_log_size() == main.spec_log_size(),
            cols_ok(mat_view(inter@), main.spec_num_rows()),
            forall|k: int|
                0 <= k < self.identities().len() ==> expr_wf(
                    #[trigger] self.identities()[k],
                    inter@.len() as int,
                ),
        ensures
            r is Ok <==> all_hold(
                self.identities(),
                pre@,
                main@,
                mat_view(inter@),
                main.spec_num_rows() as int,
            ),
            r is Err ==> r == Err::<(), TraceError>(TraceError::ConstraintViolation),
    {
        let n_rows = main.num_rows();
        let n_ids = self.exprs.len();
        let mut row: usize = 0;
        while row < n_rows
            invariant
                row <= n_rows,
                forall|k: int, rr: int|
                    0 <= k < self.identities().len() && 0 <= rr < row ==> (#[trigger] eval_expr(
                        self.identities()[k],
                        pre@,
                        main@,
                        mat_view(inter@),
                        rr,
                        main.spec_num_rows() as int,
                    )).v == 0,
            decreases n_rows - row,
        {
            let mut k: usize = 0;
            while k < n_ids
                invariant
                    k <= n_ids,
                    row < n_rows,
                    forall|kk: int|
                        0 <= kk < k ==> (#[trigger] eval_expr(
                            self.identities()[kk],
                            pre@,
                            main@,
                            mat_view(inter@),
                            row as int,
                            main.spec_num_rows() as int,
                        )).v == 0,
                decreases n_ids - k,
            {
                let value = eval(&self.exprs[k], pre, main, inter, row);
                if value.v != 0 {
                    return Err(TraceError::ConstraintViolation);
                }
                k = k + 1;
            }
            row = row + 1;
        }
        Ok(())
    }
}

} // verus!
