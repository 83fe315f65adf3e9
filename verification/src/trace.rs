//! The traces of the machine, table by table, and the stages that fill
//! them in: preprocessed, main, permutation, quotient. Each stage that
//! commits hands back the batch of traces to commit, in order.

use vstd::prelude::*;
use vstd::arithmetic::power2::pow2;
use crate::domain::{Domain, TWO_ADICITY};
use crate::extension::{Ef, Ext};
use crate::field::Fe;
use crate::interaction::{Interaction, InteractionType};
use crate::matrix::Matrix;
use crate::symbolic::SymbolicExpression;

verus! {

/// A trace together with the domain that its rows stand on.
#[derive(Debug)]
pub struct Trace<T> {
    pub value: Matrix<T>,
    pub domain: Domain,
}

/// A trace together with its position in the batch it is committed in.
#[derive(Debug)]
pub struct IndexedTrace<T> {
    pub trace: Trace<T>,
    pub opening_index: usize,
}

/// The chunks of the quotient of one table, with their position in the
/// batch they are committed in.
#[derive(Debug)]
pub struct QuotientTrace {
    pub traces: Vec<Trace<Fe>>,
    pub opening_index: usize,
}

/// What the machine knows of a table before any trace exists: its
/// constraints, its interactions, and its preprocessed trace.
#[derive(Debug)]
pub struct ChipType {
    pub constraints: Vec<SymbolicExpression>,
    pub interactions: Vec<(Interaction, InteractionType)>,
    pub preprocessed: Option<Matrix<Fe>>,
}

/// All traces of one table.
#[derive(Debug)]
pub struct ChipTrace<'a> {
    pub chip: &'a ChipType,
    pub preprocessed: Option<IndexedTrace<Fe>>,
    pub main: Option<IndexedTrace<Fe>>,
    pub permutation: Option<IndexedTrace<Ef>>,
    pub cumulative_sum: Option<Ef>,
    pub quotient_chunks: Option<QuotientTrace>,
    pub quotient_degree: Option<usize>,
}

impl<T: Copy> Clone for Trace<T> {
    fn clone(&self) -> (r: Self)
        ensures
            same_matrix(r.value, self.value),
            r.domain == self.domain,
    {
        Trace { value: self.value.duplicate(), domain: self.domain }
    }
}

impl<T: Copy> Clone for IndexedTrace<T> {
    fn clone(&self) -> (r: Self)
        ensures
            same_matrix(r.trace.value, self.trace.value),
            r.trace.domain == self.trace.domain,
            r.opening_index == self.opening_index,
    {
        IndexedTrace { trace: self.trace.clone(), opening_index: self.opening_index }
    }
}

impl Clone for QuotientTrace {
    fn clone(&self) -> (r: Self)
        ensures
            r.opening_index == self.opening_index,
            r.traces@.len() == self.traces@.len(),
            forall|i: int|
                0 <= i < self.traces@.len() ==> same_matrix(
                    (#[trigger] r.traces@[i]).value,
                    self.traces@[i].value,
                ) && r.traces@[i].domain == self.traces@[i].domain,
    {
        let mut traces: Vec<Trace<Fe>> = Vec::new();
        let mut i: usize = 0;
        while i < self.traces.len()
            invariant
                i <= self.traces@.len(),
                traces@.len() == i,
                forall|j: int|
                    0 <= j < i ==> same_matrix((#[trigger] traces@[j]).value, self.traces@[j].value)
                        && traces@[j].domain == self.traces@[j].domain,
            decreases self.traces@.len() - i,
        {
            traces.push(self.traces[i].clone());
            i += 1;
        }
        QuotientTrace { traces, opening_index: self.opening_index }
    }
}

/// Whether two loaded traces, if they are there, hold the same cells on
/// the same domain at the same position.
pub open spec fn same_entry<T>(a: Option<IndexedTrace<T>>, b: Option<IndexedTrace<T>>) -> bool {
    &&& a is Some <==> b is Some
    &&& a is Some ==> same_matrix(a->0.trace.value, b->0.trace.value) && a->0.trace.domain
        == b->0.trace.domain && a->0.opening_index == b->0.opening_index
}

/// Whether two lists of quotient chunks, if they are there, hold the same
/// cells on the same domains at the same position.
pub open spec fn same_chunks(a: Option<QuotientTrace>, b: Option<QuotientTrace>) -> bool {
    &&& a is Some <==> b is Some
    &&& a is Some ==> a->0.opening_index == b->0.opening_index && a->0.traces@.len()
        == b->0.traces@.len() && forall|i: int|
        0 <= i < b->0.traces@.len() ==> same_matrix(
            (#[trigger] a->0.traces@[i]).value,
            b->0.traces@[i].value,
        ) && a->0.traces@[i].domain == b->0.traces@[i].domain
}

impl<'a> Clone for ChipTrace<'a> {
    fn clone(&self) -> (r: Self)
        ensures
            r.chip == self.chip,
            r.cumulative_sum == self.cumulative_sum,
            r.quotient_degree == self.quotient_degree,
            same_entry(r.preprocessed, self.preprocessed),
            same_entry(r.main, self.main),
            same_entry(r.permutation, self.permutation),
            same_chunks(r.quotient_chunks, self.quotient_chunks),
    {
        ChipTrace {
            chip: self.chip,
            preprocessed: match &self.preprocessed {
                Some(t) => Some(t.clone()),
                None => None,
            },
            main: match &self.main {
                Some(t) => Some(t.clone()),
                None => None,
            },
            permutation: match &self.permutation {
                Some(t) => Some(t.clone()),
                None => None,
            },
            cumulative_sum: self.cumulative_sum,
            quotient_chunks: match &self.quotient_chunks {
                Some(q) => Some(q.clone()),
                None => None,
            },
            quotient_degree: self.quotient_degree,
        }
    }
}

/// The coefficient of `X^e` of an extension element.
pub open spec fn coefficient(x: Ext, e: int) -> int {
    if e == 0 {
        x.c0
    } else if e == 1 {
        x.c1
    } else if e == 2 {
        x.c2
    } else {
        x.c3
    }
}

/// The matrix over the base field that stands for a matrix over the
/// extension: every cell becomes four cells in a row, its coefficients.
pub fn flatten_to_base(value: &Matrix<Ef>) -> (r: Matrix<Fe>)
    ensures
        r.well_formed(),
        value.rows() > 0 ==> r.cols() == 4 * value.cols(),
        r.rows() == value.rows(),
        r.cells().len() == 4 * value.cells().len(),
        forall|i: int, e: int|
            0 <= i < value.cells().len() && 0 <= e < 4 ==> (#[trigger] r.cells()[4 * i + e])@
                == coefficient(value.cells()[i]@, e),
{
    let height: usize = value.height();
    let width: usize = value.width();
    let mut rows: Vec<Vec<Fe>> = Vec::new();
    let mut n: usize = 0;
    while n < height
        invariant
            n <= height,
            height == value.rows(),
            width == value.cols(),
            value.well_formed(),
            rows@.len() == n,
            forall|n1: int| 0 <= n1 < n ==> (#[trigger] rows@[n1])@.len() == 4 * width,
            forall|n1: int, j: int, e: int|
                0 <= n1 < n && 0 <= j < width && 0 <= e < 4 ==> (#[trigger] rows@[n1]@[4 * j
                    + e])@ == coefficient(value.row(n1)[j]@, e),
        decreases height - n,
    {
        let source = value.row_slice(n);
        let mut row: Vec<Fe> = Vec::new();
        let mut j: usize = 0;
        while j < width
            invariant
                j <= width,
                source@.len() == width,
                row@.len() == 4 * j,
                forall|j1: int, e: int|
                    0 <= j1 < j && 0 <= e < 4 ==> (#[trigger] row@[4 * j1 + e])@ == coefficient(
                        source@[j1]@,
                        e,
                    ),
            decreases width - j,
        {
            let x = source[j];
            row.push(x.coefficient(0));
            row.push(x.coefficient(1));
            row.push(x.coefficient(2));
            row.push(x.coefficient(3));
            j += 1;
        }
        rows.push(row);
        n += 1;
    }
    if width == 0 || height == 0 {
        proof {
            if width > 0 {
                vstd::arithmetic::div_mod::lemma_fundamental_div_mod(
                    value.cells().len() as int,
                    width as int,
                );
            }
            assert(value.cells().len() == 0);
        }
        return Matrix::new(Vec::new(), 0);
    }
    let flat_width: usize = rows[0].len();
    let r = Matrix::from_rows(&rows, flat_width);
    proof {
        lemma_flattened(*value, r, rows@);
    }
    r
}

/// The cells of the matrix built from flattened rows are the coefficients
/// of the cells of the matrix that was flattened.
proof fn lemma_flattened(value: Matrix<Ef>, r: Matrix<Fe>, rows: Seq<Vec<Fe>>)
    requires
        value.well_formed(),
        r.well_formed(),
        value.cols() > 0,
        r.cols() == 4 * value.cols(),
        r.rows() == value.rows(),
        rows.len() == value.rows(),
        forall|i: int| 0 <= i < rows.len() ==> #[trigger] r.row(i) == rows[i]@,
        forall|n1: int| 0 <= n1 < rows.len() ==> (#[trigger] rows[n1])@.len() == 4 * value.cols(),
        forall|n1: int, j: int, e: int|
            0 <= n1 < rows.len() && 0 <= j < value.cols() && 0 <= e < 4 ==> (
            #[trigger] rows[n1]@[4 * j + e])@ == coefficient(value.row(n1)[j]@, e),
    ensures
        r.cells().len() == 4 * value.cells().len(),
        forall|i: int, e: int|
            0 <= i < value.cells().len() && 0 <= e < 4 ==> (#[trigger] r.cells()[4 * i + e])@
                == coefficient(value.cells()[i]@, e),
{
    let w = value.cols() as int;
    let h = value.rows() as int;
    let len = value.cells().len() as int;
    vstd::arithmetic::div_mod::lemma_fundamental_div_mod(len, w);
    assert(len == w * h) by {
        assert(len % w == 0);
        assert(len / w == h);
    }
    let rlen = r.cells().len() as int;
    vstd::arithmetic::div_mod::lemma_fundamental_div_mod(rlen, 4 * w);
    assert(rlen == (4 * w) * h);
    assert(rlen == 4 * len) by (nonlinear_arith)
        requires
            rlen == (4 * w) * h,
            len == w * h,
    ;
    assert forall|i: int, e: int| 0 <= i < len && 0 <= e < 4 implies (#[trigger] r.cells()[4 * i
        + e])@ == coefficient(value.cells()[i]@, e) by {
        let n1 = i / w;
        let j = i % w;
        vstd::arithmetic::div_mod::lemma_fundamental_div_mod(i, w);
        assert(0 <= n1 < h) by (nonlinear_arith)
            requires
                0 <= i < w * h,
                i == w * n1 + j,
                0 <= j < w,
                w > 0,
        ;
        value.lemma_row(n1);
        r.lemma_row(n1);
        assert(n1 * w == w * n1) by (nonlinear_arith);
        assert(value.row(n1)[j] == value.cells()[i]);
        assert(4 * i + e == n1 * (4 * w) + (4 * j + e)) by (nonlinear_arith)
            requires
                i == w * n1 + j,
        ;
        assert(r.row(n1)[4 * j + e] == r.cells()[4 * i + e]);
        assert(r.row(n1) == rows[n1]@);
        assert(rows[n1]@[4 * j + e]@ == coefficient(value.row(n1)[j]@, e));
    }
}

impl Trace<Ef> {
    /// The trace over the base field that stands for this trace over the
    /// extension, on the same domain.
    pub fn flatten_to_base(&self) -> (r: Trace<Fe>)
        ensures
            r.domain == self.domain,
            r.value.well_formed(),
            self.value.rows() > 0 ==> r.value.cols() == 4 * self.value.cols(),
            r.value.rows() == self.value.rows(),
            r.value.cells().len() == 4 * self.value.cells().len(),
            forall|i: int, e: int|
                0 <= i < self.value.cells().len() && 0 <= e < 4 ==> (
                #[trigger] r.value.cells()[4 * i + e])@ == coefficient(self.value.cells()[i]@, e),
    {
        Trace { value: flatten_to_base(&self.value), domain: self.domain }
    }
}

impl<'a> ChipTrace<'a> {
    /// The traces of a table of which none exists yet.
    pub fn new(chip: &'a ChipType) -> (r: ChipTrace<'a>)
        ensures
            r.chip == chip,
            r.preprocessed is None,
            r.main is None,
            r.permutation is None,
            r.cumulative_sum is None,
            r.quotient_chunks is None,
            r.quotient_degree is None,
    {
        ChipTrace {
            chip,
            preprocessed: None,
            main: None,
            permutation: None,
            cumulative_sum: None,
            quotient_chunks: None,
            quotient_degree: None,
        }
    }

    /// The trace domain of the table: that of its main trace or of its
    /// preprocessed trace, whichever is larger, the preprocessed one if they
    /// are equal; `None` if it has neither.
    pub open spec fn trace_domain(self) -> Option<Domain> {
        match (self.preprocessed, self.main) {
            (Some(preprocessed), Some(main)) => if main.trace.domain.points()
                > preprocessed.trace.domain.points() {
                Some(main.trace.domain)
            } else {
                Some(preprocessed.trace.domain)
            },
            (Some(preprocessed), None) => Some(preprocessed.trace.domain),
            (None, Some(main)) => Some(main.trace.domain),
            (None, None) => None,
        }
    }

    /// The trace domain of the table.
    pub fn domain(&self) -> (r: Option<Domain>)
        ensures
            r == self.trace_domain(),
    {
        match &self.preprocessed {
            Some(preprocessed) => match &self.main {
                Some(main) => {
                    let preprocessed_domain = preprocessed.trace.domain;
                    let main_domain = main.trace.domain;
                    if main_domain.size() > preprocessed_domain.size() {
                        Some(main_domain)
                    } else {
                        Some(preprocessed_domain)
                    }
                },
                None => Some(preprocessed.trace.domain),
            },
            None => match &self.main {
                Some(main) => Some(main.trace.domain),
                None => None,
            },
        }
    }
}

/// Whether a trace of `height` rows has a domain: the height is a power of
/// two for which the field has a subgroup.
pub open spec fn valid_height(height: nat) -> bool {
    exists|k: nat| k <= TWO_ADICITY && #[trigger] pow2(k) == height
}

/// Whether a trace is there and has rows.
pub open spec fn has_rows<T>(trace: Option<Matrix<T>>) -> bool {
    trace is Some && trace->0.rows() > 0
}

/// The number of traces with rows among the first `i`.
pub open spec fn traces_before<T>(traces: Seq<Option<Matrix<T>>>, i: nat) -> nat
    decreases i,
{
    if i == 0 {
        0
    } else if has_rows(traces[i - 1]) {
        traces_before(traces, (i - 1) as nat) + 1
    } else {
        traces_before(traces, (i - 1) as nat)
    }
}

/// Whether every trace that has rows has a height for which a domain
/// exists.
pub open spec fn heights_valid<T>(traces: Seq<Option<Matrix<T>>>) -> bool {
    forall|i: int|
        0 <= i < traces.len() && has_rows(#[trigger] traces[i]) ==> valid_height(
            traces[i]->0.rows(),
        )
}

/// Whether two matrices have the same cells in the same rows.
pub open spec fn same_matrix<T>(a: Matrix<T>, b: Matrix<T>) -> bool {
    a.cells() == b.cells() && a.cols() == b.cols()
}

/// What loading makes of trace `i`: nothing if it is absent or has no rows;
/// else the trace itself on the subgroup of as many points as it has rows,
/// indexed by the number of traces with rows before it.
pub open spec fn is_loaded<T>(
    entry: Option<IndexedTrace<T>>,
    traces: Seq<Option<Matrix<T>>>,
    i: int,
) -> bool {
    if has_rows(traces[i]) {
        &&& entry is Some
        &&& same_matrix(entry->0.trace.value, traces[i]->0)
        &&& entry->0.trace.value.well_formed()
        &&& entry->0.trace.domain.well_formed()
        &&& entry->0.trace.domain.points() == traces[i]->0.rows()
        &&& entry->0.trace.domain.first() == 1
        &&& entry->0.opening_index == traces_before(traces, i as nat)
    } else {
        entry is None
    }
}

/// Gives every trace that has rows its domain and its position in the
/// batch. A trace that is absent or has no rows gets neither, and takes no
/// position.
pub fn load_traces<T>(traces: Vec<Option<Matrix<T>>>) -> (r: Vec<Option<IndexedTrace<T>>>)
    requires
        heights_valid(traces@),
    ensures
        r@.len() == traces@.len(),
        forall|i: int| 0 <= i < traces@.len() ==> is_loaded(#[trigger] r@[i], traces@, i),
{
    let mut out: Vec<Option<IndexedTrace<T>>> = Vec::new();
    let mut count: usize = 0;
    let ghost all = traces@;
    let total: usize = traces.len();
    for mt in it: traces
        invariant
            it.seq() == all,
            all.len() == total,
            heights_valid(all),
            out@.len() == it.index(),
            count == traces_before(all, it.index() as nat),
            count <= it.index(),
            forall|i: int| 0 <= i < it.index() ==> is_loaded(#[trigger] out@[i], all, i),
    {
        let ghost i = it.index() as int;
        assert(all[i] == mt);
        let entry = match mt {
            Some(trace) => {
                let degree: usize = trace.height();
                if degree > 0 {
                    match Domain::natural_domain_for_degree(degree) {
                        Some(domain) => {
                            let index: usize = count;
                            count = count + 1;
                            Some(
                                IndexedTrace {
                                    trace: Trace { value: trace, domain },
                                    opening_index: index,
                                },
                            )
                        },
                        None => {
                            proof {
                                assert(valid_height(degree as nat));
                                let k = choose|k: nat|
                                    k <= TWO_ADICITY && #[trigger] pow2(k) == degree as nat;
                                assert(pow2(k) != degree);
                            }
                            None
                        },
                    }
                } else {
                    None
                }
            },
            None => None,
        };
        out.push(entry);
    }
    out
}

/// Tests whether every trace that has rows has a height for which a domain
/// exists.
pub fn check_heights<T>(traces: &Vec<Option<Matrix<T>>>) -> (r: bool)
    ensures
        r == heights_valid(traces@),
{
    let mut i: usize = 0;
    while i < traces.len()
        invariant
            i <= traces@.len(),
            forall|j: int|
                0 <= j < i && has_rows(#[trigger] traces@[j]) ==> valid_height(
                    traces@[j]->0.rows(),
                ),
        decreases traces@.len() - i,
    {
        match &traces[i] {
            Some(trace) => {
                let degree: usize = trace.height();
                if degree > 0 {
                    match Domain::natural_domain_for_degree(degree) {
                        Some(d) => {
                            proof {
                                assert(d.log_size() <= TWO_ADICITY && pow2(d.log_size()) == degree);
                            }
                        },
                        None => {
                            return false;
                        },
                    }
                }
            },
            None => {},
        }
        i += 1;
    }
    true
}

/// The batch that a list of traces is committed as: each trace with its
/// domain, in order.
pub open spec fn batch_of(traces: Seq<Trace<Fe>>) -> Seq<(Domain, Matrix<Fe>)> {
    traces.map_values(|t: Trace<Fe>| (t.domain, t.value))
}

/// Makes the batch to commit out of a list of traces. An empty list gives
/// no batch, so that nothing is committed.
pub fn commit_traces(traces: Vec<Trace<Fe>>) -> (r: Option<Vec<(Domain, Matrix<Fe>)>>)
    ensures
        r is None <==> traces@.len() == 0,
        r matches Some(batch) ==> batch@ == batch_of(traces@),
{
    let mut domains_and_traces: Vec<(Domain, Matrix<Fe>)> = Vec::new();
    let ghost all = traces@;
    for trace in it: traces
        invariant
            it.seq() == all,
            domains_and_traces@ == batch_of(all.take(it.index() as int)),
    {
        proof {
            assert(all.take(it.index() + 1) == all.take(it.index() as int).push(trace));
            assert(batch_of(all.take(it.index() + 1)) == batch_of(all.take(it.index() as int)).push(
                (trace.domain, trace.value),
            ));
        }
        domains_and_traces.push((trace.domain, trace.value));
    }
    proof {
        assert(all.take(all.len() as int) == all);
    }
    if domains_and_traces.len() > 0 {
        Some(domains_and_traces)
    } else {
        None
    }
}

} // verus!
