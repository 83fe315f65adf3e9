//! The stages of the machine trace: each takes the traces of all tables as
//! the stage before left them, and fills in or hands out the next part.

use vstd::prelude::*;
use vstd::arithmetic::power2::{lemma_pow2_adds, lemma_pow2_strictly_increases, pow2};
use crate::debug::claimed_sum;
use crate::domain::{
    lemma_log2_ceil_pow2, lemma_pow2_27, split_domains_shift, Domain, GENERATOR, TWO_ADICITY,
};
use crate::extension::{Ef, Ext};
use crate::field::fp_mul;
use crate::quotient::{
    evaluated_on, quotient_shape, quotient_value, quotient_values, split_quotient,
};
use crate::symbolic::{
    checked_log_quotient_degree, get_quotient_degree, quotient_log, quotient_target,
    SymbolicExpression, MAX_QUOTIENT_TARGET,
};
use crate::trace::QuotientTrace;
use crate::window::all_fit;
use crate::field::Fe;
use crate::matrix::Matrix;
use crate::permutation::{
    check_table, is_permutation_trace, opt, permutation_trace_of, table_fits, table_height,
    trace_height,
};
use crate::symbolic::Shape;
use crate::window::constraints_fit;
use crate::trace::{
    batch_of, coefficient, commit_traces, has_rows, heights_valid, is_loaded, load_traces,
    same_matrix, traces_before, valid_height, ChipTrace, ChipType, IndexedTrace, Trace,
};

verus! {

/// The traces of all tables of the machine, in the order of the tables.
pub type MachineTrace<'a> = Vec<ChipTrace<'a>>;

/// Whether `c` holds the traces of the table `chip` of which none exists
/// yet.
pub open spec fn is_fresh(c: ChipTrace, chip: &ChipType) -> bool {
    &&& c.chip == chip
    &&& c.preprocessed is None
    &&& c.main is None
    &&& c.permutation is None
    &&& c.cumulative_sum is None
    &&& c.quotient_chunks is None
    &&& c.quotient_degree is None
}

/// Makes the traces of a machine out of its tables.
pub trait MachineTraceBuilder<'a>: Sized {
    /// The traces of the tables, in the order of the tables.
    spec fn built(&self) -> Seq<ChipTrace<'a>>;

    /// The traces of the given tables, none of which exists yet.
    fn new(chips: &'a [&'a ChipType]) -> (r: Self)
        ensures
            r.built().len() == chips@.len(),
            forall|i: int| 0 <= i < chips@.len() ==> is_fresh(#[trigger] r.built()[i], chips@[i]),
    ;
}

impl<'a> MachineTraceBuilder<'a> for Vec<ChipTrace<'a>> {
    open spec fn built(&self) -> Seq<ChipTrace<'a>> {
        self@
    }

    fn new(chips: &'a [&'a ChipType]) -> Self {
        new_machine_trace(chips)
    }
}

/// The traces of the given tables, none of which exists yet.
pub fn new_machine_trace<'a>(chips: &'a [&'a ChipType]) -> (r: Vec<ChipTrace<'a>>)
    ensures
        r@.len() == chips@.len(),
        forall|i: int| 0 <= i < chips@.len() ==> is_fresh(#[trigger] r@[i], chips@[i]),
{
    let mut out: Vec<ChipTrace<'a>> = Vec::new();
    let mut i: usize = 0;
    while i < chips.len()
        invariant
            i <= chips@.len(),
            out@.len() == i,
            forall|j: int| 0 <= j < i ==> is_fresh(#[trigger] out@[j], chips@[j]),
        decreases chips@.len() - i,
    {
        out.push(ChipTrace::new(chips[i]));
        i += 1;
    }
    out
}

/// The same items in the opposite order.
fn reversed<T>(v: Vec<T>) -> (r: Vec<T>)
    ensures
        r@.len() == v@.len(),
        forall|j: int| 0 <= j < v@.len() ==> #[trigger] r@[j] == v@[v@.len() - 1 - j],
{
    let mut v = v;
    let ghost orig = v@;
    let mut out: Vec<T> = Vec::new();
    while v.len() > 0
        invariant
            v@.len() + out@.len() == orig.len(),
            v@ == orig.take(v@.len() as int),
            forall|j: int| 0 <= j < out@.len() ==> #[trigger] out@[j] == orig[orig.len() - 1 - j],
        decreases v@.len(),
    {
        let x = v.pop().unwrap();
        out.push(x);
    }
    out
}

/// The matrix of a loaded trace, if there is one.
pub open spec fn value_of<T>(entry: Option<IndexedTrace<T>>) -> Option<Matrix<T>> {
    match entry {
        Some(t) => Some(t.trace.value),
        None => None,
    }
}

/// The matrix of a loaded trace, if there is one.
fn value_ref<T>(entry: &Option<IndexedTrace<T>>) -> (r: Option<&Matrix<T>>)
    ensures
        opt(r) == value_of(*entry),
{
    match entry {
        Some(t) => Some(&t.trace.value),
        None => None,
    }
}

/// The traces given for a stage fit the machine: there is one, present or
/// absent, for each table, and each that has rows has a height for which a
/// domain exists.
pub open spec fn traces_fit<T>(machine: Seq<ChipTrace>, traces: Seq<Option<Matrix<T>>>) -> bool {
    machine.len() == traces.len() && heights_valid(traces)
}

/// Attaches the given preprocessed traces to the tables, each with its
/// domain and its position in the batch.
pub fn load_preprocessed<'a>(machine: Vec<ChipTrace<'a>>, traces: Vec<Option<Matrix<Fe>>>) -> (r:
    Vec<ChipTrace<'a>>)
    requires
        traces_fit(machine@, traces@),
    ensures
        r@.len() == machine@.len(),
        forall|i: int|
            0 <= i < machine@.len() ==> is_loaded((#[trigger] r@[i]).preprocessed, traces@, i)
                && r@[i] == (ChipTrace { preprocessed: r@[i].preprocessed, ..machine@[i] }),
{
    let ghost given = traces@;
    let ghost before = machine@;
    let mut entries = reversed(load_traces(traces));
    let mut out: Vec<ChipTrace<'a>> = Vec::new();
    for chip_trace in it: machine
        invariant
            it.seq() == before,
            before.len() == given.len(),
            out@.len() == it.index(),
            entries@.len() == before.len() - it.index(),
            forall|j: int|
                0 <= j < entries@.len() ==> is_loaded(
                    #[trigger] entries@[j],
                    given,
                    before.len() - 1 - j,
                ),
            forall|i: int|
                0 <= i < it.index() ==> is_loaded((#[trigger] out@[i]).preprocessed, given, i)
                    && out@[i] == (ChipTrace { preprocessed: out@[i].preprocessed, ..before[i] }),
    {
        assert(before[it.index() as int] == chip_trace);
        let entry = entries.pop().unwrap();
        out.push(ChipTrace { preprocessed: entry, ..chip_trace });
    }
    out
}

/// Attaches the given main traces to the tables, each with its domain and
/// its position in the batch.
pub fn load_main<'a>(machine: Vec<ChipTrace<'a>>, traces: Vec<Option<Matrix<Fe>>>) -> (r: Vec<
    ChipTrace<'a>,
>)
    requires
        traces_fit(machine@, traces@),
    ensures
        r@.len() == machine@.len(),
        forall|i: int|
            0 <= i < machine@.len() ==> is_loaded((#[trigger] r@[i]).main, traces@, i) && r@[i] == (
            ChipTrace { main: r@[i].main, ..machine@[i] }),
{
    let ghost given = traces@;
    let ghost before = machine@;
    let mut entries = reversed(load_traces(traces));
    let mut out: Vec<ChipTrace<'a>> = Vec::new();
    for chip_trace in it: machine
        invariant
            it.seq() == before,
            before.len() == given.len(),
            out@.len() == it.index(),
            entries@.len() == before.len() - it.index(),
            forall|j: int|
                0 <= j < entries@.len() ==> is_loaded(
                    #[trigger] entries@[j],
                    given,
                    before.len() - 1 - j,
                ),
            forall|i: int|
                0 <= i < it.index() ==> is_loaded((#[trigger] out@[i]).main, given, i) && out@[i]
                    == (ChipTrace { main: out@[i].main, ..before[i] }),
    {
        assert(before[it.index() as int] == chip_trace);
        let entry = entries.pop().unwrap();
        out.push(ChipTrace { main: entry, ..chip_trace });
    }
    out
}

/// The preprocessed traces that the tables bring with them.
pub open spec fn chip_preprocessed(machine: Seq<ChipTrace>) -> Seq<Option<Matrix<Fe>>> {
    machine.map_values(|c: ChipTrace| c.chip.preprocessed)
}

/// Whether `copies` holds the same traces as `traces`.
spec fn same_traces(copies: Seq<Option<Matrix<Fe>>>, traces: Seq<Option<Matrix<Fe>>>) -> bool {
    &&& copies.len() == traces.len()
    &&& forall|i: int|
        0 <= i < traces.len() ==> ((#[trigger] copies[i]) is Some <==> traces[i] is Some) && (
        traces[i] is Some ==> same_matrix(copies[i]->0, traces[i]->0))
}

/// Copies of traces have rows where the traces have rows.
proof fn lemma_same_traces_before(
    copies: Seq<Option<Matrix<Fe>>>,
    traces: Seq<Option<Matrix<Fe>>>,
    i: nat,
)
    requires
        same_traces(copies, traces),
        i <= traces.len(),
    ensures
        traces_before(copies, i) == traces_before(traces, i),
    decreases i,
{
    if i > 0 {
        lemma_same_traces_before(copies, traces, (i - 1) as nat);
        assert(copies[i - 1] is Some <==> traces[i - 1] is Some);
    }
}

/// Attaches to every table the preprocessed trace that it brings with it,
/// with its domain and its position in the batch.
pub fn generate_preprocessed<'a>(machine: Vec<ChipTrace<'a>>) -> (r: Vec<ChipTrace<'a>>)
    requires
        heights_valid(chip_preprocessed(machine@)),
    ensures
        r@.len() == machine@.len(),
        forall|i: int|
            0 <= i < machine@.len() ==> is_loaded(
                (#[trigger] r@[i]).preprocessed,
                chip_preprocessed(machine@),
                i,
            ) && r@[i] == (ChipTrace { preprocessed: r@[i].preprocessed, ..machine@[i] }),
{
    let ghost before = machine@;
    let ghost brought = chip_preprocessed(before);
    let mut traces: Vec<Option<Matrix<Fe>>> = Vec::new();
    let mut i: usize = 0;
    while i < machine.len()
        invariant
            i <= machine@.len(),
            machine@ == before,
            brought == chip_preprocessed(before),
            traces@.len() == i,
            forall|j: int|
                0 <= j < i ==> ((#[trigger] traces@[j]) is Some <==> brought[j] is Some) && (
                brought[j] is Some ==> same_matrix(traces@[j]->0, brought[j]->0)),
        decreases machine@.len() - i,
    {
        let copy = match &machine[i].chip.preprocessed {
            Some(m) => Some(m.duplicate()),
            None => None,
        };
        traces.push(copy);
        i += 1;
    }
    let ghost copies = traces@;
    proof {
        assert(same_traces(copies, brought));
        assert forall|j: int| 0 <= j < copies.len() && has_rows(#[trigger] copies[j]) implies valid_height(
            copies[j]->0.rows(),
        ) by {
            assert(has_rows(brought[j]));
        }
    }
    let r = load_preprocessed(machine, traces);
    proof {
        assert forall|j: int| 0 <= j < before.len() implies is_loaded(
            (#[trigger] r@[j]).preprocessed,
            brought,
            j,
        ) by {
            lemma_same_traces_before(copies, brought, j as nat);
            assert(is_loaded(r@[j].preprocessed, copies, j));
            assert(copies[j] is Some <==> brought[j] is Some);
        }
    }
    r
}

/// The items that are there among the first `n`, in order.
pub open spec fn present<T>(entries: Seq<Option<T>>, n: nat) -> Seq<T>
    decreases n,
{
    if n == 0 {
        Seq::empty()
    } else if entries[n - 1] is Some {
        present(entries, (n - 1) as nat).push(entries[n - 1]->0)
    } else {
        present(entries, (n - 1) as nat)
    }
}

/// The trace of a loaded entry, without its position.
pub open spec fn trace_of<T>(entry: Option<IndexedTrace<T>>) -> Option<Trace<T>> {
    match entry {
        Some(t) => Some(t.trace),
        None => None,
    }
}

/// The preprocessed traces of the tables.
pub open spec fn preprocessed_traces(machine: Seq<ChipTrace>) -> Seq<Option<Trace<Fe>>> {
    machine.map_values(|c: ChipTrace| trace_of(c.preprocessed))
}

/// The main traces of the tables.
pub open spec fn main_traces(machine: Seq<ChipTrace>) -> Seq<Option<Trace<Fe>>> {
    machine.map_values(|c: ChipTrace| trace_of(c.main))
}

/// The permutation traces of the tables.
pub open spec fn permutation_traces(machine: Seq<ChipTrace>) -> Seq<Option<Trace<Ef>>> {
    machine.map_values(|c: ChipTrace| trace_of(c.permutation))
}

/// The batch of the preprocessed traces that exist, in the order of the
/// tables, or `None` if none exists.
pub fn commit_preprocessed<'a>(machine: Vec<ChipTrace<'a>>) -> (r: Option<Vec<(Domain, Matrix<Fe>)>>)
    ensures
        r is None <==> present(preprocessed_traces(machine@), machine@.len()).len() == 0,
        r matches Some(batch) ==> batch@ == batch_of(
            present(preprocessed_traces(machine@), machine@.len()),
        ),
{
    let ghost all = machine@;
    let mut traces: Vec<Trace<Fe>> = Vec::new();
    for chip_trace in it: machine
        invariant
            it.seq() == all,
            traces@ == present(preprocessed_traces(all), it.index() as nat),
    {
        assert(all[it.index() as int] == chip_trace);
        match chip_trace.preprocessed {
            Some(preprocessed) => {
                traces.push(preprocessed.trace);
            },
            None => {},
        }
    }
    commit_traces(traces)
}

/// The batch of the main traces that exist, in the order of the tables, or
/// `None` if none exists.
pub fn commit_main<'a>(machine: Vec<ChipTrace<'a>>) -> (r: Option<Vec<(Domain, Matrix<Fe>)>>)
    ensures
        r is None <==> present(main_traces(machine@), machine@.len()).len() == 0,
        r matches Some(batch) ==> batch@ == batch_of(present(main_traces(machine@), machine@.len())),
{
    let ghost all = machine@;
    let mut traces: Vec<Trace<Fe>> = Vec::new();
    for chip_trace in it: machine
        invariant
            it.seq() == all,
            traces@ == present(main_traces(all), it.index() as nat),
    {
        assert(all[it.index() as int] == chip_trace);
        match chip_trace.main {
            Some(main) => {
                traces.push(main.trace);
            },
            None => {},
        }
    }
    commit_traces(traces)
}

/// Whether `flat` stands for `value` over the base field: on the same
/// domain, with the four coefficients of every cell in its place.
pub open spec fn flattens(value: Trace<Ef>, flat: (Domain, Matrix<Fe>)) -> bool {
    &&& flat.0 == value.domain
    &&& flat.1.rows() == value.value.rows()
    &&& value.value.rows() > 0 ==> flat.1.cols() == 4 * value.value.cols()
    &&& flat.1.cells().len() == 4 * value.value.cells().len()
    &&& forall|i: int, e: int|
        0 <= i < value.value.cells().len() && 0 <= e < 4 ==> (#[trigger] flat.1.cells()[4 * i
            + e])@ == coefficient(value.value.cells()[i]@, e)
}

/// The batch of the permutation traces that exist, each flattened to the
/// base field, in the order of the tables, or `None` if none exists.
pub fn commit_permutation<'a>(machine: Vec<ChipTrace<'a>>) -> (r: Option<Vec<(Domain, Matrix<Fe>)>>)
    ensures
        r is None <==> present(permutation_traces(machine@), machine@.len()).len() == 0,
        r matches Some(batch) ==> {
            let traces = present(permutation_traces(machine@), machine@.len());
            &&& batch@.len() == traces.len()
            &&& forall|j: int| 0 <= j < traces.len() ==> flattens(traces[j], #[trigger] batch@[j])
        },
{
    let ghost all = machine@;
    let mut traces: Vec<Trace<Fe>> = Vec::new();
    for chip_trace in it: machine
        invariant
            it.seq() == all,
            traces@.len() == present(permutation_traces(all), it.index() as nat).len(),
            forall|j: int|
                0 <= j < traces@.len() ==> flattens(
                    present(permutation_traces(all), it.index() as nat)[j],
                    (#[trigger] traces@[j].domain, traces@[j].value),
                ),
    {
        assert(all[it.index() as int] == chip_trace);
        match chip_trace.permutation {
            Some(permutation) => {
                traces.push(permutation.trace.flatten_to_base());
            },
            None => {},
        }
    }
    let ghost flat = traces@;
    let r = commit_traces(traces);
    proof {
        if r is Some {
            let batch = r->0@;
            let sources = present(permutation_traces(all), all.len());
            assert forall|j: int| 0 <= j < sources.len() implies flattens(
                sources[j],
                #[trigger] batch[j],
            ) by {
                assert(batch[j] == (flat[j].domain, flat[j].value));
            }
        }
    }
    r
}

/// The number of rows of a table whose preprocessed and main traces are
/// loaded.
pub open spec fn chip_height(c: ChipTrace) -> nat {
    trace_height(value_of(c.preprocessed), value_of(c.main))
}

/// Whether the loaded traces of every table can be walked row by row, and
/// have a height for which a domain exists.
pub open spec fn tables_fit(machine: Seq<ChipTrace>) -> bool {
    forall|i: int|
        0 <= i < machine.len() ==> table_fits(
            value_of((#[trigger] machine[i]).preprocessed),
            value_of(machine[i].main),
            machine[i].chip.interactions@,
        ) && (chip_height(machine[i]) > 0 ==> valid_height(chip_height(machine[i])))
}

/// Tests whether the loaded traces of every table can be walked row by row
/// and have a height for which a domain exists.
pub fn check_tables<'a>(machine: &Vec<ChipTrace<'a>>) -> (r: bool)
    ensures
        r == tables_fit(machine@),
{
    let mut i: usize = 0;
    while i < machine.len()
        invariant
            i <= machine@.len(),
            forall|j: int|
                0 <= j < i ==> table_fits(
                    value_of((#[trigger] machine@[j]).preprocessed),
                    value_of(machine@[j].main),
                    machine@[j].chip.interactions@,
                ) && (chip_height(machine@[j]) > 0 ==> valid_height(chip_height(machine@[j]))),
        decreases machine@.len() - i,
    {
        let preprocessed = value_ref(&machine[i].preprocessed);
        let main = value_ref(&machine[i].main);
        if !check_table(preprocessed, main, machine[i].chip.interactions.as_slice()) {
            return false;
        }
        let height: usize = table_height(preprocessed, main);
        if height > 0 {
            match Domain::natural_domain_for_degree(height) {
                Some(d) => {
                    proof {
                        assert(d.log_size() <= TWO_ADICITY && pow2(d.log_size()) == height);
                    }
                },
                None => {
                    return false;
                },
            }
        }
        i += 1;
    }
    true
}

/// The number of tables with rows among the first `i`.
pub open spec fn tables_before(machine: Seq<ChipTrace>, i: nat) -> nat
    decreases i,
{
    if i == 0 {
        0
    } else if chip_height(machine[i - 1]) > 0 {
        tables_before(machine, (i - 1) as nat) + 1
    } else {
        tables_before(machine, (i - 1) as nat)
    }
}

/// What the permutation stage makes of a table: nothing if the table has no
/// rows; else its permutation trace under the challenges, on the subgroup
/// of as many points as the table has rows, indexed by the number of tables
/// with rows before it, and as cumulative sum the last entry of the running
/// sum. Nothing else changes.
pub open spec fn has_permutation(
    after: ChipTrace,
    before: ChipTrace,
    index: nat,
    beta: crate::extension::Ext,
    gamma: crate::extension::Ext,
) -> bool {
    let preprocessed = value_of(before.preprocessed);
    let main = value_of(before.main);
    let height = trace_height(preprocessed, main);
    let k = before.chip.interactions@.len() as int;
    &&& after == (ChipTrace {
        permutation: after.permutation,
        cumulative_sum: after.cumulative_sum,
        ..before
    })
    &&& if height == 0 {
        after.permutation is None && after.cumulative_sum is None
    } else {
        &&& after.permutation is Some
        &&& is_permutation_trace(
            after.permutation->0.trace.value,
            preprocessed,
            main,
            before.chip.interactions@,
            beta,
            gamma,
        )
        &&& after.permutation->0.trace.domain.points() == height
        &&& after.permutation->0.trace.domain.first() == 1
        &&& after.permutation->0.opening_index == index
        &&& after.cumulative_sum is Some
        &&& after.cumulative_sum->0 == after.permutation->0.trace.value.row(height - 1)[k]
    }
}

/// What the permutation stage computes for one table before the traces get
/// their domains.
spec fn generated(
    perm: Option<Matrix<Ef>>,
    sum: Option<Ef>,
    c: ChipTrace,
    beta: crate::extension::Ext,
    gamma: crate::extension::Ext,
) -> bool {
    let preprocessed = value_of(c.preprocessed);
    let main = value_of(c.main);
    let height = trace_height(preprocessed, main);
    let k = c.chip.interactions@.len() as int;
    if height == 0 {
        perm is None && sum is None
    } else {
        &&& perm is Some
        &&& is_permutation_trace(perm->0, preprocessed, main, c.chip.interactions@, beta, gamma)
        &&& sum is Some
        &&& sum->0 == perm->0.row(height - 1)[k]
    }
}

/// The traces with rows are those of the tables with rows.
proof fn lemma_traces_before(
    machine: Seq<ChipTrace>,
    perms: Seq<Option<Matrix<Ef>>>,
    sums: Seq<Option<Ef>>,
    beta: crate::extension::Ext,
    gamma: crate::extension::Ext,
    i: nat,
)
    requires
        i <= machine.len(),
        perms.len() == machine.len(),
        sums.len() == machine.len(),
        forall|j: int|
            0 <= j < machine.len() ==> generated(#[trigger] perms[j], sums[j], machine[j], beta, gamma),
    ensures
        traces_before(perms, i) == tables_before(machine, i),
    decreases i,
{
    if i > 0 {
        lemma_traces_before(machine, perms, sums, beta, gamma, (i - 1) as nat);
        assert(generated(perms[i - 1], sums[i - 1], machine[i - 1], beta, gamma));
    }
}

/// A matrix with the same cells in the same rows as a permutation trace is
/// that permutation trace.
proof fn lemma_same_trace(
    a: Matrix<Ef>,
    b: Matrix<Ef>,
    preprocessed: Option<Matrix<Fe>>,
    main: Option<Matrix<Fe>>,
    interactions: Seq<(crate::interaction::Interaction, crate::interaction::InteractionType)>,
    beta: crate::extension::Ext,
    gamma: crate::extension::Ext,
)
    requires
        is_permutation_trace(a, preprocessed, main, interactions, beta, gamma),
        same_matrix(b, a),
        b.well_formed(),
    ensures
        is_permutation_trace(b, preprocessed, main, interactions, beta, gamma),
{
    assert forall|n: int| 0 <= n < b.rows() implies #[trigger] b.row(n) == a.row(n) by {}
    assert forall|n: int, m: int|
        0 <= n < b.rows() && 0 <= m < interactions.len() implies crate::permutation::is_reciprocal(
        crate::permutation::message_rlc(
            interactions[m].0,
            crate::permutation::trace_row(preprocessed, n),
            crate::permutation::trace_row(main, n),
            beta,
            gamma,
        ),
        (#[trigger] b.row(n)[m])@,
    ) by {
        assert(b.row(n) == a.row(n));
        assert(a.row(n)[m] == b.row(n)[m]);
    }
    assert forall|n: int| 0 <= n < b.rows() implies (#[trigger] b.row(
        n,
    ))[interactions.len() as int]@ == crate::permutation::row_sum(
        crate::permutation::sum_above(b, n),
        crate::extension::ef_seq(b.row(n)),
        interactions,
        crate::permutation::trace_row(preprocessed, n),
        crate::permutation::trace_row(main, n),
        interactions.len(),
    ) by {
        assert(b.row(n) == a.row(n));
        if n > 0 {
            assert(b.row(n - 1) == a.row(n - 1));
        }
        assert(crate::permutation::sum_above(b, n) == crate::permutation::sum_above(a, n));
    }
}

/// Builds the permutation trace of every table that has rows, under the
/// challenges `beta` and `gamma` in this order, and attaches it with its
/// domain, its position in the batch and the cumulative sum of the table.
pub fn generate_permutation<'a>(machine: Vec<ChipTrace<'a>>, perm_challenges: [Ef; 2]) -> (r: Vec<
    ChipTrace<'a>,
>)
    requires
        tables_fit(machine@),
    ensures
        r@.len() == machine@.len(),
        forall|i: int|
            0 <= i < machine@.len() ==> has_permutation(
                #[trigger] r@[i],
                machine@[i],
                tables_before(machine@, i as nat),
                perm_challenges[0]@,
                perm_challenges[1]@,
            ),
{
    let ghost before = machine@;
    let ghost beta = perm_challenges[0]@;
    let ghost gamma = perm_challenges[1]@;
    let mut traces: Vec<Option<Matrix<Ef>>> = Vec::new();
    let mut cumulative_sums: Vec<Option<Ef>> = Vec::new();
    let mut i: usize = 0;
    while i < machine.len()
        invariant
            i <= machine@.len(),
            machine@ == before,
            tables_fit(before),
            beta == perm_challenges[0]@,
            gamma == perm_challenges[1]@,
            traces@.len() == i,
            cumulative_sums@.len() == i,
            forall|j: int|
                0 <= j < i ==> generated(
                    #[trigger] traces@[j],
                    cumulative_sums@[j],
                    before[j],
                    beta,
                    gamma,
                ),
        decreases machine@.len() - i,
    {
        let chip_trace = &machine[i];
        let preprocessed = value_ref(&chip_trace.preprocessed);
        let main = value_ref(&chip_trace.main);
        assert(table_fits(
            value_of(before[i as int].preprocessed),
            value_of(before[i as int].main),
            before[i as int].chip.interactions@,
        ));
        let trace = permutation_trace_of(
            preprocessed,
            main,
            chip_trace.chip.interactions.as_slice(),
            perm_challenges,
        );
        let cumulative_sum = match &trace {
            Some(perm) => {
                let height: usize = perm.height();
                let k: usize = chip_trace.chip.interactions.len();
                proof {
                    perm.lemma_row(height - 1);
                }
                Some(perm.get(height - 1, k))
            },
            None => None,
        };
        traces.push(trace);
        cumulative_sums.push(cumulative_sum);
        i += 1;
    }
    let ghost perms = traces@;
    let ghost sums = cumulative_sums@;
    proof {
        assert forall|j: int| 0 <= j < perms.len() && has_rows(#[trigger] perms[j]) implies valid_height(
            perms[j]->0.rows(),
        ) by {
            assert(generated(perms[j], sums[j], before[j], beta, gamma));
        }
    }
    let mut entries = reversed(load_traces(traces));
    let mut sums_left = reversed(cumulative_sums);
    let mut out: Vec<ChipTrace<'a>> = Vec::new();
    for chip_trace in it: machine
        invariant
            it.seq() == before,
            perms.len() == before.len(),
            sums.len() == before.len(),
            forall|j: int|
                0 <= j < before.len() ==> generated(#[trigger] perms[j], sums[j], before[j], beta, gamma),
            out@.len() == it.index(),
            entries@.len() == before.len() - it.index(),
            sums_left@.len() == before.len() - it.index(),
            forall|j: int|
                0 <= j < entries@.len() ==> is_loaded(
                    #[trigger] entries@[j],
                    perms,
                    before.len() - 1 - j,
                ),
            forall|j: int|
                0 <= j < sums_left@.len() ==> #[trigger] sums_left@[j] == sums[before.len() - 1 - j],
            forall|i1: int|
                0 <= i1 < it.index() ==> has_permutation(
                    #[trigger] out@[i1],
                    before[i1],
                    tables_before(before, i1 as nat),
                    beta,
                    gamma,
                ),
    {
        let ghost i1 = it.index() as int;
        assert(before[i1] == chip_trace);
        let permutation = entries.pop().unwrap();
        let cumulative_sum = sums_left.pop().unwrap();
        proof {
            assert(is_loaded(permutation, perms, i1));
            assert(cumulative_sum == sums[i1]);
            assert(generated(perms[i1], sums[i1], before[i1], beta, gamma));
            lemma_traces_before(before, perms, sums, beta, gamma, i1 as nat);
            if chip_height(before[i1]) > 0 {
                lemma_same_trace(
                    perms[i1]->0,
                    permutation->0.trace.value,
                    value_of(before[i1].preprocessed),
                    value_of(before[i1].main),
                    before[i1].chip.interactions@,
                    beta,
                    gamma,
                );
                assert(permutation->0.trace.value.row(chip_height(before[i1]) - 1)
                    == perms[i1]->0.row(chip_height(before[i1]) - 1));
            }
        }
        out.push(ChipTrace { permutation, cumulative_sum, ..chip_trace });
    }
    out
}

/// The evaluations of the traces of one table on its quotient domain, the
/// permutation trace flattened to the base field.
#[derive(Debug)]
pub struct TraceEvaluations {
    pub preprocessed: Option<Matrix<Fe>>,
    pub main: Option<Matrix<Fe>>,
    pub permutation: Option<Matrix<Fe>>,
}

/// Whether the quotient of a table with the given constraints and trace
/// domain can be computed from the evaluations: the trace domain is a
/// subgroup; the quotient domain, which has as many points as the trace
/// domain times the quotient degree, exists; every trace is evaluated on
/// it; and every constraint reads only what was evaluated. No public value
/// is offered.
pub open spec fn quotient_prepared(
    constraints: Seq<SymbolicExpression>,
    trace_domain: Domain,
    evaluations: TraceEvaluations,
) -> bool {
    let l = quotient_log(constraints);
    let size = pow2(trace_domain.log_size() + l);
    &&& quotient_target(constraints) <= MAX_QUOTIENT_TARGET
    &&& trace_domain.first() == 1
    &&& trace_domain.log_size() + l <= TWO_ADICITY
    &&& evaluated_on(evaluations.preprocessed, size)
    &&& evaluated_on(evaluations.main, size)
    &&& evaluated_on(evaluations.permutation, size)
    &&& all_fit(
        constraints,
        quotient_shape(
            evaluations.preprocessed,
            evaluations.main,
            evaluations.permutation,
            Seq::empty(),
        ),
    )
}

/// Whether `quotient` holds the chunks of the quotient of a table: as many
/// as the quotient degree, a power of two; chunk `c` on its part of the
/// quotient domain, holding, flattened to the base field, the value of the
/// quotient on the points `c`, `c + count`, `c + 2 count` and so on.
pub open spec fn is_quotient(
    quotient: QuotientTrace,
    constraints: Seq<SymbolicExpression>,
    trace_log: nat,
    evaluations: TraceEvaluations,
    cumulative_sum: Option<Ef>,
    perm_challenges: Seq<Ef>,
    alpha: Ext,
    index: nat,
) -> bool {
    let l = quotient_log(constraints);
    let count = pow2(l) as int;
    &&& quotient.opening_index == index
    &&& quotient.traces@.len() == count
    &&& forall|c: int|
        0 <= c < count ==> {
            &&& (#[trigger] quotient.traces@[c]).value.cols() == 4
            &&& quotient.traces@[c].value.rows() == pow2(trace_log)
            &&& quotient.traces@[c].domain.points() == pow2(trace_log)
            &&& quotient.traces@[c].domain.first() == split_domains_shift(
                trace_log + l,
                GENERATOR as int,
                count as nat,
                c,
            )
            &&& forall|i: int, e: int|
                0 <= i < pow2(trace_log) && 0 <= e < 4 ==> (
                #[trigger] quotient.traces@[c].value.row(i)[e])@ == coefficient(
                    quotient_value(
                        constraints,
                        trace_log,
                        trace_log + l,
                        evaluations.preprocessed,
                        evaluations.main,
                        evaluations.permutation,
                        perm_challenges,
                        alpha,
                        claimed_sum(cumulative_sum),
                        Seq::empty(),
                        i * count + c,
                    ),
                    e,
                )
        }
}

/// The domain on which the traces of a table have to be evaluated for its
/// quotient: the coset, shifted by the generator, of as many points as the
/// trace domain times the quotient degree.
pub fn quotient_domain_of(constraints: &[SymbolicExpression], trace_domain: Domain) -> (r: Option<
    Domain,
>)
    ensures
        r is Some <==> quotient_target(constraints@) <= MAX_QUOTIENT_TARGET
            && trace_domain.log_size() + quotient_log(constraints@) <= TWO_ADICITY,
        r matches Some(d) ==> d.log_size() == trace_domain.log_size() + quotient_log(constraints@)
            && d.first() == fp_mul(trace_domain.first(), GENERATOR as int) && d.well_formed(),
{
    let log_degree: usize = match checked_log_quotient_degree(constraints) {
        Some(l) => l,
        None => {
            return None;
        },
    };
    let log_trace: usize = trace_domain.log_n();
    if log_trace + log_degree > TWO_ADICITY {
        return None;
    }
    let size: usize = trace_domain.size();
    let degree: usize = get_quotient_degree(constraints);
    proof {
        lemma_pow2_adds(log_trace as nat, log_degree as nat);
        lemma_pow2_27();
        if log_trace + log_degree < 27 {
            lemma_pow2_strictly_increases((log_trace + log_degree) as nat, 27);
        }
        lemma_log2_ceil_pow2((log_trace + log_degree) as nat);
        assert(size * degree == pow2((log_trace + log_degree) as nat));
    }
    let r = trace_domain.create_disjoint_domain(size * degree);
    proof {
        if r is Some {
            let d = r->0;
            assert(d.log_size() == log_trace + log_degree);
        }
    }
    match r {
        Some(d) => {
            proof {
                use_type_invariant(&d);
            }
            Some(d)
        },
        None => None,
    }
}

/// Computes the chunks of the quotient of one table.
pub fn chip_quotient(
    constraints: &[SymbolicExpression],
    trace_domain: Domain,
    evaluations: &TraceEvaluations,
    cumulative_sum: Option<Ef>,
    perm_challenges: [Ef; 2],
    alpha: Ef,
    opening_index: usize,
) -> (r: QuotientTrace)
    requires
        quotient_prepared(constraints@, trace_domain, *evaluations),
    ensures
        is_quotient(
            r,
            constraints@,
            trace_domain.log_size(),
            *evaluations,
            cumulative_sum,
            perm_challenges@,
            alpha@,
            opening_index as nat,
        ),
{
    let ghost a = trace_domain.log_size();
    let ghost l = quotient_log(constraints@);
    let quotient_degree: usize = get_quotient_degree(constraints);
    let quotient_domain = match quotient_domain_of(constraints, trace_domain) {
        Some(d) => d,
        None => {
            assert(false);
            return QuotientTrace { traces: Vec::new(), opening_index };
        },
    };
    proof {
        assert(fp_mul(1, GENERATOR as int) == GENERATOR as int);
        lemma_pow2_adds(a, l);
        vstd::arithmetic::power2::lemma_pow2_pos(l);
        vstd::arithmetic::power2::lemma_pow2_pos(a);
    }
    let sum = match cumulative_sum {
        Some(c) => c,
        None => Ef::zero(),
    };
    let no_public_values: Vec<Fe> = Vec::new();
    proof {
        assert(no_public_values@ =~= Seq::<Fe>::empty());
    }
    let values = quotient_values(
        constraints,
        trace_domain,
        quotient_domain,
        evaluations.preprocessed.as_ref(),
        evaluations.main.as_ref(),
        evaluations.permutation.as_ref(),
        perm_challenges,
        alpha,
        sum,
        no_public_values.as_slice(),
    );
    proof {
        assert(values@.len() == pow2(a) * pow2(l));
        assert(pow2(a) * pow2(l) == pow2(l) * pow2(a)) by (nonlinear_arith);
        vstd::arithmetic::div_mod::lemma_mod_multiples_basic(pow2(a) as int, pow2(l) as int);
        vstd::arithmetic::div_mod::lemma_div_multiples_vanish(pow2(a) as int, pow2(l) as int);
        assert(quotient_domain.splits_into(quotient_degree as nat)) by {
            assert(l <= quotient_domain.log_size() && quotient_degree as nat == pow2(l));
        }
    }
    let chunks = split_quotient(&values, quotient_degree);
    let chunk_domains = quotient_domain.split_domains(quotient_degree);
    let ghost chunk_values = chunks@;
    let mut left = reversed(chunks);
    let mut traces: Vec<Trace<Fe>> = Vec::new();
    let mut c: usize = 0;
    while c < quotient_degree
        invariant
            c <= quotient_degree,
            chunk_values.len() == quotient_degree,
            chunk_domains@.len() == quotient_degree,
            left@.len() == quotient_degree - c,
            forall|j: int|
                0 <= j < left@.len() ==> #[trigger] left@[j] == chunk_values[quotient_degree - 1
                    - j],
            traces@.len() == c,
            forall|c1: int|
                0 <= c1 < c ==> (#[trigger] traces@[c1]).value == chunk_values[c1] && traces@[c1].domain
                    == chunk_domains@[c1],
        decreases quotient_degree - c,
    {
        let value = left.pop().unwrap();
        traces.push(Trace { value, domain: chunk_domains[c] });
        c += 1;
    }
    proof {
        let count = pow2(l) as int;
        assert forall|c1: int| 0 <= c1 < count implies {
            &&& (#[trigger] traces@[c1]).value.cols() == 4
            &&& traces@[c1].value.rows() == pow2(a)
            &&& traces@[c1].domain.points() == pow2(a)
            &&& traces@[c1].domain.first() == split_domains_shift(
                a + l,
                GENERATOR as int,
                count as nat,
                c1,
            )
            &&& forall|i: int, e: int|
                0 <= i < pow2(a) && 0 <= e < 4 ==> (#[trigger] traces@[c1].value.row(i)[e])@
                    == coefficient(
                    quotient_value(
                        constraints@,
                        a,
                        a + l,
                        evaluations.preprocessed,
                        evaluations.main,
                        evaluations.permutation,
                        perm_challenges@,
                        alpha@,
                        claimed_sum(cumulative_sum),
                        Seq::empty(),
                        i * count + c1,
                    ),
                    e,
                )
        } by {
            assert(traces@[c1].value == chunk_values[c1]);
            assert(traces@[c1].domain == chunk_domains@[c1]);
            let p = chunk_domains@[c1].points() as int;
            assert(p == pow2(a)) by (nonlinear_arith)
                requires
                    p * count == pow2(a) * count,
                    count > 0,
            ;
            assert forall|i: int, e: int| 0 <= i < pow2(a) && 0 <= e < 4 implies (
            #[trigger] traces@[c1].value.row(i)[e])@ == coefficient(
                quotient_value(
                    constraints@,
                    a,
                    a + l,
                    evaluations.preprocessed,
                    evaluations.main,
                    evaluations.permutation,
                    perm_challenges@,
                    alpha@,
                    claimed_sum(cumulative_sum),
                    Seq::empty(),
                    i * count + c1,
                ),
                e,
            ) by {
                assert(0 <= i * count + c1 < pow2(a) * count) by (nonlinear_arith)
                    requires
                        0 <= i < pow2(a),
                        0 <= c1 < count,
                ;
                assert(chunk_values[c1].row(i)[e]@ == coefficient(values@[i * count + c1]@, e));
            }
        }
    }
    QuotientTrace { traces, opening_index }
}

/// The quotient chunks of the tables.
pub open spec fn chunk_lists(machine: Seq<ChipTrace>, n: nat) -> Seq<Trace<Fe>>
    decreases n,
{
    if n == 0 {
        Seq::empty()
    } else if machine[n - 1].quotient_chunks is Some {
        chunk_lists(machine, (n - 1) as nat) + machine[n - 1].quotient_chunks->0.traces@
    } else {
        chunk_lists(machine, (n - 1) as nat)
    }
}

/// The batch of all quotient chunks, table after table and chunk after
/// chunk, or `None` if there is none.
pub fn commit_quotient<'a>(machine: Vec<ChipTrace<'a>>) -> (r: Option<Vec<(Domain, Matrix<Fe>)>>)
    ensures
        r is None <==> chunk_lists(machine@, machine@.len()).len() == 0,
        r matches Some(batch) ==> batch@ == batch_of(chunk_lists(machine@, machine@.len())),
{
    let ghost all = machine@;
    let mut traces: Vec<Trace<Fe>> = Vec::new();
    for chip_trace in it: machine
        invariant
            it.seq() == all,
            traces@ == chunk_lists(all, it.index() as nat),
    {
        assert(all[it.index() as int] == chip_trace);
        match chip_trace.quotient_chunks {
            Some(quotient) => {
                let mut chunks = quotient.traces;
                traces.append(&mut chunks);
            },
            None => {},
        }
    }
    commit_traces(traces)
}

/// The number of tables with a trace domain among the first `i`.
pub open spec fn domains_before(machine: Seq<ChipTrace>, i: nat) -> nat
    decreases i,
{
    if i == 0 {
        0
    } else if machine[i - 1].trace_domain() is Some {
        domains_before(machine, (i - 1) as nat) + 1
    } else {
        domains_before(machine, (i - 1) as nat)
    }
}

/// What has to be evaluated for the quotient of one table: the domain to
/// evaluate on, and, for each trace that the table has, the position of
/// that trace in the batch it was committed in.
#[derive(Debug)]
pub struct EvaluationRequest {
    pub domain: Domain,
    pub preprocessed: Option<usize>,
    pub main: Option<usize>,
    pub permutation: Option<usize>,
}

/// The position of a trace in the batch it was committed in, if the trace
/// is there.
pub open spec fn position_of<T>(entry: Option<IndexedTrace<T>>) -> Option<usize> {
    match entry {
        Some(e) => Some(e.opening_index),
        None => None,
    }
}

fn position<T>(entry: &Option<IndexedTrace<T>>) -> (r: Option<usize>)
    ensures
        r == position_of(*entry),
{
    match entry {
        Some(e) => Some(e.opening_index),
        None => None,
    }
}

/// What has to be evaluated for the quotient of a table: each trace that
/// the table has, and no other, on the quotient domain of the table.
/// `None` for a table without trace domain, and for one whose quotient
/// domain does not exist.
pub fn evaluation_request<'a>(table: &ChipTrace<'a>) -> (r: Option<EvaluationRequest>)
    ensures
        r is Some <==> table.trace_domain() is Some && quotient_target(table.chip.constraints@)
            <= MAX_QUOTIENT_TARGET && table.trace_domain()->0.log_size() + quotient_log(
            table.chip.constraints@,
        ) <= TWO_ADICITY,
        r matches Some(request) ==> {
            &&& request.domain.well_formed()
            &&& request.domain.log_size() == table.trace_domain()->0.log_size() + quotient_log(
                table.chip.constraints@,
            )
            &&& request.domain.first() == fp_mul(
                table.trace_domain()->0.first(),
                GENERATOR as int,
            )
            &&& request.preprocessed == position_of(table.preprocessed)
            &&& request.main == position_of(table.main)
            &&& request.permutation == position_of(table.permutation)
        },
{
    let trace_domain = match table.domain() {
        Some(d) => d,
        None => {
            return None;
        },
    };
    match quotient_domain_of(table.chip.constraints.as_slice(), trace_domain) {
        Some(domain) => Some(
            EvaluationRequest {
                domain,
                preprocessed: position(&table.preprocessed),
                main: position(&table.main),
                permutation: position(&table.permutation),
            },
        ),
        None => None,
    }
}

/// Whether the evaluations are those of the traces that a table has: a
/// trace that the table has is evaluated, and of one that it lacks there
/// are no evaluations, so that its constraints read empty rows of it.
pub open spec fn evaluations_match(table: ChipTrace, evaluations: TraceEvaluations) -> bool {
    &&& evaluations.preprocessed is Some <==> table.preprocessed is Some
    &&& evaluations.main is Some <==> table.main is Some
    &&& evaluations.permutation is Some <==> table.permutation is Some
}

/// Whether the quotient stage can run: there are evaluations, present or
/// absent, for each table, and those of every table that has a trace
/// domain are present, are those of the traces that the table has, and fit
/// its constraints.
pub open spec fn quotients_prepared(
    machine: Seq<ChipTrace>,
    evaluations: Seq<Option<TraceEvaluations>>,
) -> bool {
    &&& machine.len() == evaluations.len()
    &&& forall|i: int|
        0 <= i < machine.len() && (#[trigger] machine[i]).trace_domain() is Some ==> evaluations[i]
            is Some && evaluations_match(machine[i], evaluations[i]->0) && quotient_prepared(
            machine[i].chip.constraints@,
            machine[i].trace_domain()->0,
            evaluations[i]->0,
        )
}

/// Evaluations that answer the request of a table, one for each trace that
/// the request names and no other, are those of the traces that the table
/// has.
pub proof fn lemma_answered_request_matches(
    table: ChipTrace,
    request: EvaluationRequest,
    evaluations: TraceEvaluations,
)
    requires
        request.preprocessed == position_of(table.preprocessed),
        request.main == position_of(table.main),
        request.permutation == position_of(table.permutation),
        evaluations.preprocessed is Some <==> request.preprocessed is Some,
        evaluations.main is Some <==> request.main is Some,
        evaluations.permutation is Some <==> request.permutation is Some,
    ensures
        evaluations_match(table, evaluations),
{
}

/// Tests whether the evaluations are those of the traces that a table has.
pub fn check_evaluations_match<'a>(table: &ChipTrace<'a>, evaluations: &TraceEvaluations) -> (r:
    bool)
    ensures
        r == evaluations_match(*table, *evaluations),
{
    evaluations.preprocessed.is_some() == table.preprocessed.is_some()
        && evaluations.main.is_some() == table.main.is_some()
        && evaluations.permutation.is_some() == table.permutation.is_some()
}

/// Tests whether the evaluations of a trace, if it is there, have one row
/// for each point of a domain of `size` points.
fn check_evaluated(trace: &Option<Matrix<Fe>>, size: usize) -> (r: bool)
    ensures
        r == evaluated_on(*trace, size as nat),
{
    match trace {
        Some(m) => m.height() == size,
        None => true,
    }
}

/// Tests whether the quotient of a table can be computed from the
/// evaluations.
pub fn check_quotient_prepared(
    constraints: &[SymbolicExpression],
    trace_domain: Domain,
    evaluations: &TraceEvaluations,
) -> (r: bool)
    ensures
        r == quotient_prepared(constraints@, trace_domain, *evaluations),
{
    if trace_domain.first_point().value() != 1 {
        return false;
    }
    let quotient_domain = match quotient_domain_of(constraints, trace_domain) {
        Some(d) => d,
        None => {
            return false;
        },
    };
    let size: usize = quotient_domain.size();
    if !check_evaluated(&evaluations.preprocessed, size) || !check_evaluated(
        &evaluations.main,
        size,
    ) || !check_evaluated(&evaluations.permutation, size) {
        return false;
    }
    let shape = Shape {
        preprocessed_width: match &evaluations.preprocessed {
            Some(m) => m.width(),
            None => 0,
        },
        main_width: match &evaluations.main {
            Some(m) => m.width(),
            None => 0,
        },
        permutation_width: match &evaluations.permutation {
            Some(m) => m.width() / 4,
            None => 0,
        },
        public_values: 0,
        challenges: 2,
    };
    proof {
        assert(shape == quotient_shape(
            evaluations.preprocessed,
            evaluations.main,
            evaluations.permutation,
            Seq::empty(),
        ));
    }
    constraints_fit(constraints, &shape)
}

/// Tests whether the quotient stage can run.
pub fn check_quotients_prepared<'a>(
    machine: &Vec<ChipTrace<'a>>,
    evaluations: &Vec<Option<TraceEvaluations>>,
) -> (r: bool)
    ensures
        r == quotients_prepared(machine@, evaluations@),
{
    if machine.len() != evaluations.len() {
        return false;
    }
    let mut i: usize = 0;
    while i < machine.len()
        invariant
            i <= machine@.len(),
            machine@.len() == evaluations@.len(),
            forall|j: int|
                0 <= j < i && (#[trigger] machine@[j]).trace_domain() is Some ==> evaluations@[j]
                    is Some && evaluations_match(machine@[j], evaluations@[j]->0)
                    && quotient_prepared(
                    machine@[j].chip.constraints@,
                    machine@[j].trace_domain()->0,
                    evaluations@[j]->0,
                ),
        decreases machine@.len() - i,
    {
        match machine[i].domain() {
            Some(d) => match &evaluations[i] {
                Some(ev) => {
                    if !check_evaluations_match(&machine[i], ev) {
                        return false;
                    }
                    if !check_quotient_prepared(machine[i].chip.constraints.as_slice(), d, ev) {
                        return false;
                    }
                },
                None => {
                    return false;
                },
            },
            None => {},
        }
        i += 1;
    }
    true
}

/// What the quotient stage makes of a table: nothing changes in a table
/// without trace domain; a table with one gets the chunks of its quotient,
/// indexed by the number of tables with a trace domain before it.
pub open spec fn has_quotient(
    after: ChipTrace,
    before: ChipTrace,
    evaluations: Option<TraceEvaluations>,
    index: nat,
    perm_challenges: Seq<Ef>,
    alpha: Ext,
) -> bool {
    if before.trace_domain() is Some {
        &&& after == (ChipTrace { quotient_chunks: after.quotient_chunks, ..before })
        &&& after.quotient_chunks is Some
        &&& is_quotient(
            after.quotient_chunks->0,
            before.chip.constraints@,
            before.trace_domain()->0.log_size(),
            evaluations->0,
            before.cumulative_sum,
            perm_challenges,
            alpha,
            index,
        )
    } else {
        after == before
    }
}

/// Computes the quotient of every table that has a trace domain from the
/// evaluations of its traces on its quotient domain, and attaches the
/// chunks with their position in the batch.
pub fn generate_quotient<'a>(
    machine: Vec<ChipTrace<'a>>,
    evaluations: &Vec<Option<TraceEvaluations>>,
    perm_challenges: [Ef; 2],
    alpha: Ef,
) -> (r: Vec<ChipTrace<'a>>)
    requires
        quotients_prepared(machine@, evaluations@),
    ensures
        r@.len() == machine@.len(),
        forall|i: int|
            0 <= i < machine@.len() ==> has_quotient(
                #[trigger] r@[i],
                machine@[i],
                evaluations@[i],
                domains_before(machine@, i as nat),
                perm_challenges@,
                alpha@,
            ),
{
    let ghost before = machine@;
    let total: usize = machine.len();
    let mut out: Vec<ChipTrace<'a>> = Vec::new();
    let mut count: usize = 0;
    let mut index: usize = 0;
    for chip_trace in it: machine
        invariant
            it.seq() == before,
            before.len() == total,
            index == it.index(),
            quotients_prepared(before, evaluations@),
            out@.len() == it.index(),
            count == domains_before(before, it.index() as nat),
            count <= it.index(),
            forall|i: int|
                0 <= i < it.index() ==> has_quotient(
                    #[trigger] out@[i],
                    before[i],
                    evaluations@[i],
                    domains_before(before, i as nat),
                    perm_challenges@,
                    alpha@,
                ),
    {
        let ghost i = it.index() as int;
        assert(before[i] == chip_trace);
        match chip_trace.domain() {
            Some(trace_domain) => {
                let quotient = match &evaluations[index] {
                    Some(ev) => chip_quotient(
                        chip_trace.chip.constraints.as_slice(),
                        trace_domain,
                        ev,
                        chip_trace.cumulative_sum,
                        perm_challenges,
                        alpha,
                        count,
                    ),
                    None => {
                        assert(false);
                        QuotientTrace { traces: Vec::new(), opening_index: count }
                    },
                };
                count = count + 1;
                out.push(ChipTrace { quotient_chunks: Some(quotient), ..chip_trace });
            },
            None => {
                out.push(chip_trace);
            },
        }
        index = index + 1;
    }
    out
}

/// The stages that fill in the traces of the machine, each taking the
/// machine trace as the stage before left it.
pub trait MachineTraceLoader<'a>: Sized {
    /// The traces of the tables, in the order of the tables.
    spec fn tables(&self) -> Seq<ChipTrace<'a>>;

    /// Attaches to every table the preprocessed trace that it brings with
    /// it.
    fn generate_preprocessed(self) -> (r: Self)
        requires
            heights_valid(chip_preprocessed(self.tables())),
        ensures
            r.tables().len() == self.tables().len(),
            forall|i: int|
                0 <= i < self.tables().len() ==> is_loaded(
                    (#[trigger] r.tables()[i]).preprocessed,
                    chip_preprocessed(self.tables()),
                    i,
                ) && r.tables()[i] == (ChipTrace {
                    preprocessed: r.tables()[i].preprocessed,
                    ..self.tables()[i]
                }),
    ;

    /// Attaches the given preprocessed traces to the tables.
    fn load_preprocessed(self, traces: Vec<Option<Matrix<Fe>>>) -> (r: Self)
        requires
            traces_fit(self.tables(), traces@),
        ensures
            r.tables().len() == self.tables().len(),
            forall|i: int|
                0 <= i < self.tables().len() ==> is_loaded(
                    (#[trigger] r.tables()[i]).preprocessed,
                    traces@,
                    i,
                ) && r.tables()[i] == (ChipTrace {
                    preprocessed: r.tables()[i].preprocessed,
                    ..self.tables()[i]
                }),
    ;

    /// Attaches the given main traces to the tables.
    fn load_main(self, traces: Vec<Option<Matrix<Fe>>>) -> (r: Self)
        requires
            traces_fit(self.tables(), traces@),
        ensures
            r.tables().len() == self.tables().len(),
            forall|i: int|
                0 <= i < self.tables().len() ==> is_loaded(
                    (#[trigger] r.tables()[i]).main,
                    traces@,
                    i,
                ) && r.tables()[i] == (ChipTrace { main: r.tables()[i].main, ..self.tables()[i] }),
    ;

    /// Builds and attaches the permutation trace of every table that has
    /// rows.
    fn generate_permutation(self, perm_challenges: [Ef; 2]) -> (r: Self)
        requires
            tables_fit(self.tables()),
        ensures
            r.tables().len() == self.tables().len(),
            forall|i: int|
                0 <= i < self.tables().len() ==> has_permutation(
                    #[trigger] r.tables()[i],
                    self.tables()[i],
                    tables_before(self.tables(), i as nat),
                    perm_challenges[0]@,
                    perm_challenges[1]@,
                ),
    ;

    /// Computes and attaches the quotient chunks of every table that has a
    /// trace domain.
    fn generate_quotient(
        self,
        evaluations: &Vec<Option<TraceEvaluations>>,
        perm_challenges: [Ef; 2],
        alpha: Ef,
    ) -> (r: Self)
        requires
            quotients_prepared(self.tables(), evaluations@),
        ensures
            r.tables().len() == self.tables().len(),
            forall|i: int|
                0 <= i < self.tables().len() ==> has_quotient(
                    #[trigger] r.tables()[i],
                    self.tables()[i],
                    evaluations@[i],
                    domains_before(self.tables(), i as nat),
                    perm_challenges@,
                    alpha@,
                ),
    ;
}

impl<'a> MachineTraceLoader<'a> for Vec<ChipTrace<'a>> {
    open spec fn tables(&self) -> Seq<ChipTrace<'a>> {
        self@
    }

    fn generate_preprocessed(self) -> (r: Self) {
        generate_preprocessed(self)
    }

    fn load_preprocessed(self, traces: Vec<Option<Matrix<Fe>>>) -> (r: Self) {
        load_preprocessed(self, traces)
    }

    fn load_main(self, traces: Vec<Option<Matrix<Fe>>>) -> (r: Self) {
        load_main(self, traces)
    }

    fn generate_permutation(self, perm_challenges: [Ef; 2]) -> (r: Self) {
        generate_permutation(self, perm_challenges)
    }

    fn generate_quotient(
        self,
        evaluations: &Vec<Option<TraceEvaluations>>,
        perm_challenges: [Ef; 2],
        alpha: Ef,
    ) -> (r: Self) {
        generate_quotient(self, evaluations, perm_challenges, alpha)
    }
}

/// The stages that hand out the batches to commit.
pub trait MachineTraceCommiter<'a>: Sized {
    /// The traces of the tables, in the order of the tables.
    spec fn committed(&self) -> Seq<ChipTrace<'a>>;

    /// The batch of the preprocessed traces, or `None` if there is none.
    fn commit_preprocessed(self) -> (r: Option<Vec<(Domain, Matrix<Fe>)>>)
        ensures
            r is None <==> present(
                preprocessed_traces(self.committed()),
                self.committed().len(),
            ).len() == 0,
            r matches Some(batch) ==> batch@ == batch_of(
                present(preprocessed_traces(self.committed()), self.committed().len()),
            ),
    ;

    /// The batch of the main traces, or `None` if there is none.
    fn commit_main(self) -> (r: Option<Vec<(Domain, Matrix<Fe>)>>)
        ensures
            r is None <==> present(main_traces(self.committed()), self.committed().len()).len()
                == 0,
            r matches Some(batch) ==> batch@ == batch_of(
                present(main_traces(self.committed()), self.committed().len()),
            ),
    ;

    /// The batch of the flattened permutation traces, or `None` if there
    /// is none.
    fn commit_permutation(self) -> (r: Option<Vec<(Domain, Matrix<Fe>)>>)
        ensures
            r is None <==> present(
                permutation_traces(self.committed()),
                self.committed().len(),
            ).len() == 0,
            r matches Some(batch) ==> {
                let traces = present(permutation_traces(self.committed()), self.committed().len());
                &&& batch@.len() == traces.len()
                &&& forall|j: int|
                    0 <= j < traces.len() ==> flattens(traces[j], #[trigger] batch@[j])
            },
    ;

    /// The batch of all quotient chunks, or `None` if there is none.
    fn commit_quotient(self) -> (r: Option<Vec<(Domain, Matrix<Fe>)>>)
        ensures
            r is None <==> chunk_lists(self.committed(), self.committed().len()).len() == 0,
            r matches Some(batch) ==> batch@ == batch_of(
                chunk_lists(self.committed(), self.committed().len()),
            ),
    ;
}

impl<'a> MachineTraceCommiter<'a> for Vec<ChipTrace<'a>> {
    open spec fn committed(&self) -> Seq<ChipTrace<'a>> {
        self@
    }

    fn commit_preprocessed(self) -> (r: Option<Vec<(Domain, Matrix<Fe>)>>) {
        commit_preprocessed(self)
    }

    fn commit_main(self) -> (r: Option<Vec<(Domain, Matrix<Fe>)>>) {
        commit_main(self)
    }

    fn commit_permutation(self) -> (r: Option<Vec<(Domain, Matrix<Fe>)>>) {
        commit_permutation(self)
    }

    fn commit_quotient(self) -> (r: Option<Vec<(Domain, Matrix<Fe>)>>) {
        commit_quotient(self)
    }
}

} // verus!
