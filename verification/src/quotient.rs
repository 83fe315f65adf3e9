//! The quotient of one table: the folded constraints on every point of the
//! quotient domain, divided by the vanishing polynomial of the trace
//! domain, and its chunks.

use vstd::prelude::*;
use vstd::arithmetic::power2::pow2;
use vstd::slice::slice_to_vec;
use crate::domain::{selectors_on_coset_value, CosetSelectorValues, Domain, GENERATOR};
use crate::extension::{ef_seq, ext_from_base, ext_scale, ext_zero, Ef, Ext};
use crate::field::{fe_seq, Fe};
use crate::folder::{fold_constraints, ProverConstraintFolder};
use crate::matrix::Matrix;
use crate::permutation::{opt, trace_row, trace_width};
use crate::symbolic::{Frame, Shape, SymbolicExpression};
use crate::trace::coefficient;
use crate::window::{all_fit, embed_row, embed_seq, public_seq, TwoRowMatrixView};

verus! {

/// The extension elements that a row of base elements stands for: one for
/// every four cells, which are its coefficients; the rest is dropped.
pub open spec fn rebuilt(row: Seq<int>) -> Seq<Ext> {
    Seq::new(
        row.len() / 4,
        |j: int| Ext { c0: row[4 * j], c1: row[4 * j + 1], c2: row[4 * j + 2], c3: row[4 * j + 3] },
    )
}

/// Rebuilds the extension elements of a row from their coefficients.
pub fn rebuild_row(row: &[Fe]) -> (r: Vec<Ef>)
    ensures
        ef_seq(r@) == rebuilt(fe_seq(row@)),
        r@.len() == row@.len() / 4,
{
    let count: usize = row.len() / 4;
    let mut out: Vec<Ef> = Vec::new();
    let mut j: usize = 0;
    while j < count
        invariant
            j <= count,
            count == row@.len() / 4,
            out@.len() == j,
            forall|j1: int|
                0 <= j1 < j ==> (#[trigger] out@[j1])@ == (Ext {
                    c0: row@[4 * j1]@,
                    c1: row@[4 * j1 + 1]@,
                    c2: row@[4 * j1 + 2]@,
                    c3: row@[4 * j1 + 3]@,
                }),
        decreases count - j,
    {
        let len: usize = row.len();
        assert(4 * j + 3 < len);
        out.push(Ef::new(row[4 * j], row[4 * j + 1], row[4 * j + 2], row[4 * j + 3]));
        j += 1;
    }
    proof {
        assert(ef_seq(out@) =~= rebuilt(fe_seq(row@)));
    }
    out
}

/// The row that follows row `i` on a domain of `size` points when every
/// trace row spans `step` points.
pub open spec fn row_ahead(i: int, step: int, size: int) -> int {
    (i + step) % size
}

/// What the constraints read on point `i` of the quotient domain: the
/// evaluations of the traces on that point and on the point one trace row
/// ahead, the rows of an absent trace being empty, and the values of the
/// selectors on that point.
pub open spec fn quotient_frame(
    preprocessed: Option<Matrix<Fe>>,
    main: Option<Matrix<Fe>>,
    perm: Option<Matrix<Fe>>,
    selectors: CosetSelectorValues,
    perm_challenges: Seq<Ef>,
    cumulative_sum: Ext,
    public_values: Seq<Fe>,
    i: int,
    next: int,
) -> Frame {
    Frame {
        preprocessed_local: embed_seq(trace_row(preprocessed, i)),
        preprocessed_next: embed_seq(trace_row(preprocessed, next)),
        main_local: embed_seq(trace_row(main, i)),
        main_next: embed_seq(trace_row(main, next)),
        permutation_local: rebuilt(trace_row(perm, i)),
        permutation_next: rebuilt(trace_row(perm, next)),
        public_values: public_seq(public_values),
        challenges: ef_seq(perm_challenges),
        cumulative_sum,
        is_first_row: ext_from_base(selectors.is_first_row[i]),
        is_last_row: ext_from_base(selectors.is_last_row[i]),
        is_transition: ext_from_base(selectors.is_transition[i]),
    }
}

/// The sizes of what the evaluations offer to the constraints.
pub open spec fn quotient_shape(
    preprocessed: Option<Matrix<Fe>>,
    main: Option<Matrix<Fe>>,
    perm: Option<Matrix<Fe>>,
    public_values: Seq<Fe>,
) -> Shape {
    Shape {
        preprocessed_width: trace_width(preprocessed) as usize,
        main_width: trace_width(main) as usize,
        permutation_width: (trace_width(perm) / 4) as usize,
        public_values: public_values.len() as usize,
        challenges: 2,
    }
}

/// Whether the evaluations of a trace, if it is there, have one row for
/// each point of the quotient domain.
pub open spec fn evaluated_on(trace: Option<Matrix<Fe>>, size: nat) -> bool {
    trace is Some ==> trace->0.rows() == size
}

/// Whether the quotient of a table can be computed from these evaluations:
/// the trace domain is a subgroup, the quotient domain is at least as large
/// and shifted by the generator, every trace is evaluated on the quotient
/// domain, and every constraint reads only what was evaluated.
pub open spec fn quotient_ready(
    constraints: Seq<SymbolicExpression>,
    trace_domain: Domain,
    quotient_domain: Domain,
    preprocessed: Option<Matrix<Fe>>,
    main: Option<Matrix<Fe>>,
    perm: Option<Matrix<Fe>>,
    public_values: Seq<Fe>,
) -> bool {
    &&& trace_domain.first() == 1
    &&& quotient_domain.first() == GENERATOR
    &&& quotient_domain.log_size() >= trace_domain.log_size()
    &&& evaluated_on(preprocessed, quotient_domain.points())
    &&& evaluated_on(main, quotient_domain.points())
    &&& evaluated_on(perm, quotient_domain.points())
    &&& all_fit(constraints, quotient_shape(preprocessed, main, perm, public_values))
}

/// The value of the quotient on point `i` of the quotient domain, which is
/// the coset of `2^quotient_log` points shifted by the generator: the
/// constraints folded with `alpha` on that point, times the inverse of the
/// vanishing polynomial of the trace domain, the subgroup of `2^trace_log`
/// points, on that point.
pub open spec fn quotient_value(
    constraints: Seq<SymbolicExpression>,
    trace_log: nat,
    quotient_log: nat,
    preprocessed: Option<Matrix<Fe>>,
    main: Option<Matrix<Fe>>,
    perm: Option<Matrix<Fe>>,
    perm_challenges: Seq<Ef>,
    alpha: Ext,
    cumulative_sum: Ext,
    public_values: Seq<Fe>,
    i: int,
) -> Ext {
    let selectors = selectors_on_coset_value(trace_log, quotient_log, GENERATOR as int);
    let size = pow2(quotient_log) as int;
    let step = size / (pow2(trace_log) as int);
    let frame = quotient_frame(
        preprocessed,
        main,
        perm,
        selectors,
        perm_challenges,
        cumulative_sum,
        public_values,
        i,
        row_ahead(i, step, size),
    );
    ext_scale(
        fold_constraints(constraints, frame, alpha, ext_zero(), constraints.len()),
        selectors.inv_zeroifier[i],
    )
}

/// Rows `i` and `next` of evaluations over the base field, seen in the
/// extension; two empty rows if the trace is absent.
pub(crate) fn base_rows(trace: Option<&Matrix<Fe>>, i: usize, next: usize) -> (w:
    TwoRowMatrixView)
    requires
        trace is Some ==> i < trace->0.rows() && next < trace->0.rows(),
    ensures
        ef_seq(w.local@) == embed_seq(trace_row(opt(trace), i as int)),
        ef_seq(w.next@) == embed_seq(trace_row(opt(trace), next as int)),
        w.local@.len() == trace_width(opt(trace)),
        w.next@.len() == trace_width(opt(trace)),
{
    match trace {
        Some(m) => TwoRowMatrixView::new(embed_row(m.row_slice(i)), embed_row(m.row_slice(next))),
        None => {
            let w = TwoRowMatrixView::empty();
            proof {
                assert(ef_seq(w.local@) =~= embed_seq(trace_row(opt(trace), i as int)));
                assert(ef_seq(w.next@) =~= embed_seq(trace_row(opt(trace), next as int)));
            }
            w
        },
    }
}

/// Rows `i` and `next` of the evaluations of a flattened permutation trace,
/// rebuilt; two empty rows if the trace is absent.
fn rebuilt_rows(trace: Option<&Matrix<Fe>>, i: usize, next: usize) -> (w: TwoRowMatrixView)
    requires
        trace is Some ==> i < trace->0.rows() && next < trace->0.rows(),
    ensures
        ef_seq(w.local@) == rebuilt(trace_row(opt(trace), i as int)),
        ef_seq(w.next@) == rebuilt(trace_row(opt(trace), next as int)),
        w.local@.len() == trace_width(opt(trace)) / 4,
        w.next@.len() == trace_width(opt(trace)) / 4,
{
    match trace {
        Some(m) => TwoRowMatrixView::new(rebuild_row(m.row_slice(i)), rebuild_row(m.row_slice(next))),
        None => {
            let w = TwoRowMatrixView::empty();
            proof {
                assert(ef_seq(w.local@) =~= rebuilt(trace_row(opt(trace), i as int)));
                assert(ef_seq(w.next@) =~= rebuilt(trace_row(opt(trace), next as int)));
            }
            w
        },
    }
}

/// Computes the quotient of one table on every point of the quotient
/// domain.
pub fn quotient_values(
    constraints: &[SymbolicExpression],
    trace_domain: Domain,
    quotient_domain: Domain,
    preprocessed_trace_on_quotient_domain: Option<&Matrix<Fe>>,
    main_trace_on_quotient_domain: Option<&Matrix<Fe>>,
    perm_trace_on_quotient_domain: Option<&Matrix<Fe>>,
    perm_challenges: [Ef; 2],
    alpha: Ef,
    cumulative_sum: Ef,
    public_values: &[Fe],
) -> (r: Vec<Ef>)
    requires
        quotient_ready(
            constraints@,
            trace_domain,
            quotient_domain,
            opt(preprocessed_trace_on_quotient_domain),
            opt(main_trace_on_quotient_domain),
            opt(perm_trace_on_quotient_domain),
            public_values@,
        ),
    ensures
        r@.len() == quotient_domain.points(),
        forall|i: int|
            0 <= i < r@.len() ==> (#[trigger] r@[i])@ == quotient_value(
                constraints@,
                trace_domain.log_size(),
                quotient_domain.log_size(),
                opt(preprocessed_trace_on_quotient_domain),
                opt(main_trace_on_quotient_domain),
                opt(perm_trace_on_quotient_domain),
                perm_challenges@,
                alpha@,
                cumulative_sum@,
                public_values@,
                i,
            ),
{
    let quotient_size: usize = quotient_domain.size();
    let trace_size: usize = trace_domain.size();
    let next_step: usize = quotient_size / trace_size;
    let sels = trace_domain.selectors_on_coset(&quotient_domain);
    let ghost selectors = sels@;
    let ghost preprocessed = opt(preprocessed_trace_on_quotient_domain);
    let ghost main = opt(main_trace_on_quotient_domain);
    let ghost perm = opt(perm_trace_on_quotient_domain);
    let mut out: Vec<Ef> = Vec::new();
    let mut i: usize = 0;
    while i < quotient_size
        invariant
            i <= quotient_size,
            quotient_size == quotient_domain.points(),
            trace_size == trace_domain.points(),
            trace_size >= 1,
            quotient_size <= 0x800_0000,
            next_step == quotient_size as int / trace_size as int,
            selectors == sels@,
            selectors == selectors_on_coset_value(
                trace_domain.log_size(),
                quotient_domain.log_size(),
                quotient_domain.first(),
            ),
            sels.is_first_row@.len() == quotient_size,
            sels.is_last_row@.len() == quotient_size,
            sels.is_transition@.len() == quotient_size,
            sels.inv_zeroifier@.len() == quotient_size,
            preprocessed == opt(preprocessed_trace_on_quotient_domain),
            main == opt(main_trace_on_quotient_domain),
            perm == opt(perm_trace_on_quotient_domain),
            quotient_ready(
                constraints@,
                trace_domain,
                quotient_domain,
                preprocessed,
                main,
                perm,
                public_values@,
            ),
            out@.len() == i,
            forall|i1: int|
                0 <= i1 < i ==> (#[trigger] out@[i1])@ == quotient_value(
                    constraints@,
                    trace_domain.log_size(),
                    quotient_domain.log_size(),
                    preprocessed,
                    main,
                    perm,
                    perm_challenges@,
                    alpha@,
                    cumulative_sum@,
                    public_values@,
                    i1,
                ),
        decreases quotient_size - i,
    {
        assert(next_step <= quotient_size) by (nonlinear_arith)
            requires
                next_step == quotient_size as int / trace_size as int,
                trace_size >= 1,
                quotient_size >= 0,
        ;
        let next: usize = (i + next_step) % quotient_size;
        let mut folder = ProverConstraintFolder {
            preprocessed: base_rows(preprocessed_trace_on_quotient_domain, i, next),
            main: base_rows(main_trace_on_quotient_domain, i, next),
            perm: rebuilt_rows(perm_trace_on_quotient_domain, i, next),
            perm_challenges,
            public_values: slice_to_vec(public_values),
            cumulative_sum,
            is_first_row: Ef::from_base(sels.is_first_row[i]),
            is_last_row: Ef::from_base(sels.is_last_row[i]),
            is_transition: Ef::from_base(sels.is_transition[i]),
            alpha,
            accumulator: Ef::zero(),
        };
        proof {
            assert(folder.frame() == quotient_frame(
                preprocessed,
                main,
                perm,
                selectors,
                perm_challenges@,
                cumulative_sum@,
                public_values@,
                i as int,
                row_ahead(i as int, next_step as int, quotient_size as int),
            ));
            assert(folder.shape() == quotient_shape(preprocessed, main, perm, public_values@));
        }
        folder.eval_all(constraints);
        out.push(folder.accumulator.scale(sels.inv_zeroifier[i]));
        i += 1;
    }
    out
}

/// Whether `chunks` are the `count` chunks of the quotient with the given
/// values: chunk `c` holds, flattened to the base field, the values on the
/// points `c`, `c + count`, `c + 2 count` and so on.
pub open spec fn chunks_of(chunks: Seq<Matrix<Fe>>, values: Seq<Ef>, count: nat) -> bool {
    &&& chunks.len() == count
    &&& forall|c: int|
        0 <= c < count ==> {
            &&& (#[trigger] chunks[c]).well_formed()
            &&& chunks[c].cols() == 4
            &&& chunks[c].rows() == values.len() / count
            &&& forall|i: int, e: int|
                0 <= i < values.len() / count && 0 <= e < 4 ==> (#[trigger] chunks[c].row(i)[e])@
                    == coefficient(values[i * count + c]@, e)
        }
}

/// Flattens the values of the quotient to the base field and splits them
/// into `count` chunks of equal height.
pub fn split_quotient(values: &Vec<Ef>, count: usize) -> (r: Vec<Matrix<Fe>>)
    requires
        count > 0,
        values@.len() % (count as nat) == 0,
    ensures
        chunks_of(r@, values@, count as nat),
{
    let total: usize = values.len();
    let height: usize = total / count;
    proof {
        vstd::arithmetic::div_mod::lemma_fundamental_div_mod(total as int, count as int);
    }
    let mut chunks: Vec<Matrix<Fe>> = Vec::new();
    let mut c: usize = 0;
    while c < count
        invariant
            c <= count,
            count > 0,
            total == values@.len(),
            height == total / count,
            total == count * height,
            chunks@.len() == c,
            forall|c1: int|
                0 <= c1 < c ==> {
                    &&& (#[trigger] chunks@[c1]).well_formed()
                    &&& chunks@[c1].cols() == 4
                    &&& chunks@[c1].rows() == height
                    &&& forall|i: int, e: int|
                        0 <= i < height && 0 <= e < 4 ==> (#[trigger] chunks@[c1].row(i)[e])@
                            == coefficient(values@[i * count + c1]@, e)
                },
        decreases count - c,
    {
        let mut rows: Vec<Vec<Fe>> = Vec::new();
        let mut i: usize = 0;
        while i < height
            invariant
                i <= height,
                c < count,
                total == values@.len(),
                total == count * height,
                rows@.len() == i,
                forall|i1: int| 0 <= i1 < i ==> (#[trigger] rows@[i1])@.len() == 4,
                forall|i1: int, e: int|
                    0 <= i1 < i && 0 <= e < 4 ==> (#[trigger] rows@[i1]@[e])@ == coefficient(
                        values@[i1 * count + c]@,
                        e,
                    ),
            decreases height - i,
        {
            assert(i * count + c < total) by (nonlinear_arith)
                requires
                    i < height,
                    c < count,
                    total == count * height,
            ;
            assert(0 <= i * count) by (nonlinear_arith)
                requires
                    0 <= i,
                    0 <= count,
            ;
            let x = values[i * count + c];
            let mut row: Vec<Fe> = Vec::new();
            row.push(x.coefficient(0));
            row.push(x.coefficient(1));
            row.push(x.coefficient(2));
            row.push(x.coefficient(3));
            rows.push(row);
            i += 1;
        }
        let chunk = Matrix::from_rows(&rows, 4);
        proof {
            assert forall|i1: int, e: int| 0 <= i1 < height && 0 <= e < 4 implies (
            #[trigger] chunk.row(i1)[e])@ == coefficient(values@[i1 * count + c]@, e) by {
                assert(chunk.row(i1) == rows@[i1]@);
            }
        }
        chunks.push(chunk);
        c += 1;
    }
    chunks
}

} // verus!
