//! Laws of the permutation argument and of the flattening, proved from the
//! contracts of the functions they speak of.

use vstd::prelude::*;
use vstd::arithmetic::div_mod::*;
use crate::extension::{
    ef_seq, ext_canonical, ext_from_base, ext_monomial, ext_mul, ext_one, ext_zero, Ef, Ext,
};
use crate::field::{is_canonical, modulus, Fe};
use crate::check_constraints::satisfied;
use crate::interaction::{Interaction, InteractionType};
use crate::matrix::Matrix;
use crate::permutation::{
    add_term, is_permutation_trace, message_rlc, row_sum, sum_above, table_fits,
    trace_height, trace_row,
};
use crate::debug::{checkable, row_frame, selector};
use crate::symbolic::SymbolicExpression;
use crate::domain::CosetSelectorValues;
use crate::pipeline::{
    chip_height, has_permutation, present, quotients_prepared, tables_before, trace_of,
    TraceEvaluations,
};
use crate::quotient::quotient_frame;
use crate::trace::{has_rows, is_loaded, traces_before, ChipTrace, IndexedTrace};
use crate::verify::monomial_combination;

verus! {

/// The product of two extension elements does not depend on their order.
pub proof fn lemma_mul_commutative(a: Ext, b: Ext)
    ensures
        ext_mul(a, b) == ext_mul(b, a),
{
    assert(a.c0 * b.c0 == b.c0 * a.c0) by (nonlinear_arith);
    assert(a.c0 * b.c1 == b.c1 * a.c0) by (nonlinear_arith);
    assert(a.c0 * b.c2 == b.c2 * a.c0) by (nonlinear_arith);
    assert(a.c0 * b.c3 == b.c3 * a.c0) by (nonlinear_arith);
    assert(a.c1 * b.c0 == b.c0 * a.c1) by (nonlinear_arith);
    assert(a.c1 * b.c1 == b.c1 * a.c1) by (nonlinear_arith);
    assert(a.c1 * b.c2 == b.c2 * a.c1) by (nonlinear_arith);
    assert(a.c1 * b.c3 == b.c3 * a.c1) by (nonlinear_arith);
    assert(a.c2 * b.c0 == b.c0 * a.c2) by (nonlinear_arith);
    assert(a.c2 * b.c1 == b.c1 * a.c2) by (nonlinear_arith);
    assert(a.c2 * b.c2 == b.c2 * a.c2) by (nonlinear_arith);
    assert(a.c2 * b.c3 == b.c3 * a.c2) by (nonlinear_arith);
    assert(a.c3 * b.c0 == b.c0 * a.c3) by (nonlinear_arith);
    assert(a.c3 * b.c1 == b.c1 * a.c3) by (nonlinear_arith);
    assert(a.c3 * b.c2 == b.c2 * a.c3) by (nonlinear_arith);
    assert(a.c3 * b.c3 == b.c3 * a.c3) by (nonlinear_arith);
}

/// Reciprocal invariant: in a permutation trace, on every row, the entry of
/// every interaction times the random linear combination of its message is
/// one, wherever that combination is not zero.
pub proof fn lemma_reciprocal_invariant(
    perm: Matrix<Ef>,
    preprocessed: Option<Matrix<Fe>>,
    main: Option<Matrix<Fe>>,
    interactions: Seq<(Interaction, InteractionType)>,
    beta: Ext,
    gamma: Ext,
    n: int,
    m: int,
)
    requires
        is_permutation_trace(perm, preprocessed, main, interactions, beta, gamma),
        0 <= n < perm.rows(),
        0 <= m < interactions.len(),
        message_rlc(
            interactions[m].0,
            trace_row(preprocessed, n),
            trace_row(main, n),
            beta,
            gamma,
        ) != ext_zero(),
    ensures
        ext_mul(
            perm.row(n)[m]@,
            message_rlc(
                interactions[m].0,
                trace_row(preprocessed, n),
                trace_row(main, n),
                beta,
                gamma,
            ),
        ) == ext_one(),
{
    let rlc = message_rlc(
        interactions[m].0,
        trace_row(preprocessed, n),
        trace_row(main, n),
        beta,
        gamma,
    );
    assert(crate::permutation::is_reciprocal(rlc, perm.row(n)[m]@));
    lemma_mul_commutative(perm.row(n)[m]@, rlc);
}

/// The running sum up to and including row `n`: over the rows in order, and
/// on each row over the interactions in order, the sum of the entries times
/// their multiplicities, added for a send and subtracted for a receive.
pub open spec fn running_sum(
    perm: Matrix<Ef>,
    preprocessed: Option<Matrix<Fe>>,
    main: Option<Matrix<Fe>>,
    interactions: Seq<(Interaction, InteractionType)>,
    n: int,
) -> Ext
    decreases n + 1,
{
    if n < 0 {
        ext_zero()
    } else {
        row_sum(
            running_sum(perm, preprocessed, main, interactions, n - 1),
            ef_seq(perm.row(n)),
            interactions,
            trace_row(preprocessed, n),
            trace_row(main, n),
            interactions.len(),
        )
    }
}

/// Running-sum invariant: in a permutation trace, the last entry of every
/// row is the sum, over that row and all rows above it, of the signed
/// entries times their multiplicities.
pub proof fn lemma_running_sum_invariant(
    perm: Matrix<Ef>,
    preprocessed: Option<Matrix<Fe>>,
    main: Option<Matrix<Fe>>,
    interactions: Seq<(Interaction, InteractionType)>,
    beta: Ext,
    gamma: Ext,
    n: int,
)
    requires
        is_permutation_trace(perm, preprocessed, main, interactions, beta, gamma),
        0 <= n < perm.rows(),
    ensures
        perm.row(n)[interactions.len() as int]@ == running_sum(
            perm,
            preprocessed,
            main,
            interactions,
            n,
        ),
    decreases n,
{
    if n > 0 {
        lemma_running_sum_invariant(perm, preprocessed, main, interactions, beta, gamma, n - 1);
    }
    assert(sum_above(perm, n) == running_sum(perm, preprocessed, main, interactions, n - 1));
}

/// A term with multiplicity zero changes nothing.
pub proof fn lemma_zero_multiplicity(acc: Ext, kind: InteractionType, reciprocal: Ext)
    requires
        ext_canonical(acc),
    ensures
        add_term(acc, kind, reciprocal, 0) == acc,
{
    assert(reciprocal.c0 * 0 == 0);
    assert(reciprocal.c1 * 0 == 0);
    assert(reciprocal.c2 * 0 == 0);
    assert(reciprocal.c3 * 0 == 0);
    lemma_small_mod(acc.c0 as nat, modulus() as nat);
    lemma_small_mod(acc.c1 as nat, modulus() as nat);
    lemma_small_mod(acc.c2 as nat, modulus() as nat);
    lemma_small_mod(acc.c3 as nat, modulus() as nat);
}

/// The sum of a row of which every multiplicity is zero is what the sum
/// started with.
pub proof fn lemma_zero_row(
    start: Ext,
    row: Seq<Ext>,
    interactions: Seq<(Interaction, InteractionType)>,
    preprocessed_row: Seq<int>,
    main_row: Seq<int>,
    m: nat,
)
    requires
        ext_canonical(start),
        m <= interactions.len(),
        forall|j: int|
            0 <= j < m ==> (#[trigger] interactions[j]).0.count.value(preprocessed_row, main_row)
                == 0,
    ensures
        row_sum(start, row, interactions, preprocessed_row, main_row, m) == start,
    decreases m,
{
    if m > 0 {
        lemma_zero_row(start, row, interactions, preprocessed_row, main_row, (m - 1) as nat);
        assert(interactions[m - 1].0.count.value(preprocessed_row, main_row) == 0);
        lemma_zero_multiplicity(start, interactions[m - 1].1, row[m - 1]);
    }
}

/// The sum of a row is canonical if what it started with is.
pub proof fn lemma_row_sum_canonical(
    start: Ext,
    row: Seq<Ext>,
    interactions: Seq<(Interaction, InteractionType)>,
    preprocessed_row: Seq<int>,
    main_row: Seq<int>,
    m: nat,
)
    requires
        ext_canonical(start),
    ensures
        ext_canonical(row_sum(start, row, interactions, preprocessed_row, main_row, m)),
    decreases m,
{
    if m > 0 {
        lemma_row_sum_canonical(
            start,
            row,
            interactions,
            preprocessed_row,
            main_row,
            (m - 1) as nat,
        );
    }
}

/// The running sum is canonical on every row.
pub proof fn lemma_running_sum_canonical(
    perm: Matrix<Ef>,
    preprocessed: Option<Matrix<Fe>>,
    main: Option<Matrix<Fe>>,
    interactions: Seq<(Interaction, InteractionType)>,
    n: int,
)
    ensures
        ext_canonical(running_sum(perm, preprocessed, main, interactions, n)),
    decreases n + 1,
{
    if n >= 0 {
        lemma_running_sum_canonical(perm, preprocessed, main, interactions, n - 1);
        lemma_row_sum_canonical(
            running_sum(perm, preprocessed, main, interactions, n - 1),
            ef_seq(perm.row(n)),
            interactions,
            trace_row(preprocessed, n),
            trace_row(main, n),
            interactions.len(),
        );
    }
}

/// Rows without messages: in a permutation trace, on a row on which every
/// multiplicity is zero, the running sum stays what it was on the row
/// above, or zero on the first row, whatever the entries of the row are.
pub proof fn lemma_idle_row_keeps_the_sum(
    perm: Matrix<Ef>,
    preprocessed: Option<Matrix<Fe>>,
    main: Option<Matrix<Fe>>,
    interactions: Seq<(Interaction, InteractionType)>,
    beta: Ext,
    gamma: Ext,
    n: int,
)
    requires
        is_permutation_trace(perm, preprocessed, main, interactions, beta, gamma),
        0 <= n < perm.rows(),
        forall|j: int|
            0 <= j < interactions.len() ==> (#[trigger] interactions[j]).0.count.value(
                trace_row(preprocessed, n),
                trace_row(main, n),
            ) == 0,
    ensures
        perm.row(n)[interactions.len() as int]@ == sum_above(perm, n),
{
    if n > 0 {
        lemma_running_sum_invariant(perm, preprocessed, main, interactions, beta, gamma, n - 1);
        lemma_running_sum_canonical(perm, preprocessed, main, interactions, n - 1);
    }
    lemma_zero_row(
        sum_above(perm, n),
        ef_seq(perm.row(n)),
        interactions,
        trace_row(preprocessed, n),
        trace_row(main, n),
        interactions.len(),
    );
}

/// The four coefficients of an extension element, each seen in the
/// extension.
pub open spec fn flattened(x: Ext) -> Seq<Ext> {
    seq![ext_from_base(x.c0), ext_from_base(x.c1), ext_from_base(x.c2), ext_from_base(x.c3)]
}

/// Flattening and rebuilding are inverse to each other: the combination of
/// the coefficients of an element with the basis elements is the element.
pub proof fn lemma_unflatten_flatten(x: Ext)
    requires
        ext_canonical(x),
    ensures
        monomial_combination(flattened(x), 4) == x,
{
    let s = flattened(x);
    reveal_with_fuel(monomial_combination, 5);
    lemma_small_mod(x.c0 as nat, modulus() as nat);
    lemma_small_mod(x.c1 as nat, modulus() as nat);
    lemma_small_mod(x.c2 as nat, modulus() as nat);
    lemma_small_mod(x.c3 as nat, modulus() as nat);
    lemma_small_mod(0, modulus() as nat);
    lemma_basis_term(0, x.c0);
    lemma_basis_term(1, x.c1);
    lemma_basis_term(2, x.c2);
    lemma_basis_term(3, x.c3);
    assert(s[0] == ext_from_base(x.c0));
    assert(s[1] == ext_from_base(x.c1));
    assert(s[2] == ext_from_base(x.c2));
    assert(s[3] == ext_from_base(x.c3));
}

/// A basis element times a canonical base element is that element at the
/// place of the basis element.
proof fn lemma_basis_term(e: int, f: int)
    requires
        0 <= e < 4,
        is_canonical(f),
    ensures
        ext_mul(ext_monomial(e), ext_from_base(f)) == (Ext {
            c0: if e == 0 {
                f
            } else {
                0
            },
            c1: if e == 1 {
                f
            } else {
                0
            },
            c2: if e == 2 {
                f
            } else {
                0
            },
            c3: if e == 3 {
                f
            } else {
                0
            },
        }),
{
    crate::soundness::lemma_mul_embedded(ext_monomial(e), f);
    lemma_small_mod(f as nat, modulus() as nat);
    lemma_small_mod(0, modulus() as nat);
    assert(1 * f == f);
    assert(0 * f == 0);
}

/// A table without rows contributes nothing: loading gives it no trace, no
/// domain and no position, so that the batch of a commitment holds
/// nothing of it.
pub proof fn lemma_empty_table_contributes_nothing<T>(
    entries: Seq<Option<IndexedTrace<T>>>,
    traces: Seq<Option<Matrix<T>>>,
    i: int,
)
    requires
        entries.len() == traces.len(),
        0 <= i < traces.len(),
        forall|j: int| 0 <= j < traces.len() ==> is_loaded(#[trigger] entries[j], traces, j),
        !has_rows(traces[i]),
    ensures
        entries[i] is None,
        traces_before(traces, (i + 1) as nat) == traces_before(traces, i as nat),
        present(entries.map_values(|e: Option<IndexedTrace<T>>| trace_of(e)), (i + 1) as nat)
            == present(entries.map_values(|e: Option<IndexedTrace<T>>| trace_of(e)), i as nat),
{
    assert(is_loaded(entries[i], traces, i));
}

/// A table without rows can be walked whatever its interactions read: only
/// the bound on the number of interactions and on their bus identifiers is
/// asked of it.
pub proof fn lemma_empty_table_fits(
    preprocessed: Option<Matrix<Fe>>,
    main: Option<Matrix<Fe>>,
    interactions: Seq<(Interaction, InteractionType)>,
)
    requires
        trace_height(preprocessed, main) == 0,
        interactions.len() < usize::MAX,
        forall|m: int|
            0 <= m < interactions.len() ==> (#[trigger] interactions[m]).0.argument_index
                < usize::MAX,
    ensures
        table_fits(preprocessed, main, interactions),
{
}

/// A table without rows can be checked whatever its constraints read, and
/// passes: there is no row on which a constraint could fail.
pub proof fn lemma_empty_table_passes(
    constraints: Seq<SymbolicExpression>,
    preprocessed: Option<Matrix<Fe>>,
    main: Option<Matrix<Fe>>,
    perm: Option<Matrix<Ef>>,
    perm_challenges: Seq<Ef>,
    cumulative_sum: Option<Ef>,
    public_values: Seq<Fe>,
)
    requires
        trace_height(preprocessed, main) == 0,
        perm is Some ==> perm->0.rows() == 0,
    ensures
        checkable(constraints, preprocessed, main, perm, public_values),
        satisfied(
            constraints,
            preprocessed,
            main,
            perm,
            perm_challenges,
            cumulative_sum,
            public_values,
        ),
{
}

/// A table without preprocessed trace: its constraints read empty
/// preprocessed rows, and the selectors are those of the row all the same.
pub proof fn lemma_absent_preprocessed_is_empty(
    main: Option<Matrix<Fe>>,
    perm: Option<Matrix<Ef>>,
    perm_challenges: Seq<Ef>,
    cumulative_sum: Option<Ef>,
    public_values: Seq<Fe>,
    i: int,
)
    ensures
        ({
            let frame = row_frame(
                None,
                main,
                perm,
                perm_challenges,
                cumulative_sum,
                public_values,
                i,
            );
            let height = trace_height(None, main) as int;
            &&& frame.preprocessed_local.len() == 0
            &&& frame.preprocessed_next.len() == 0
            &&& frame.is_first_row == selector(i == 0)
            &&& frame.is_last_row == selector(i == height - 1)
            &&& frame.is_transition == selector(i != height - 1)
        }),
{
}

/// A table without rows in the permutation stage: it gets no permutation
/// trace and no cumulative sum, and takes no position, so that the tables
/// after it are indexed as if it were not there.
pub proof fn lemma_idle_table_takes_no_position(
    machine: Seq<ChipTrace>,
    after: ChipTrace,
    i: int,
    beta: Ext,
    gamma: Ext,
)
    requires
        0 <= i < machine.len(),
        chip_height(machine[i]) == 0,
        has_permutation(after, machine[i], tables_before(machine, i as nat), beta, gamma),
    ensures
        after.permutation is None,
        after.cumulative_sum is None,
        tables_before(machine, (i + 1) as nat) == tables_before(machine, i as nat),
{
}

/// A table without preprocessed trace in the quotient stage: it has no
/// preprocessed evaluations, so on every point of the quotient domain its
/// constraints read empty preprocessed rows, and the selectors are those
/// of the point all the same.
pub proof fn lemma_quotient_without_preprocessed(
    machine: Seq<ChipTrace>,
    evaluations: Seq<Option<TraceEvaluations>>,
    table: int,
    selectors: CosetSelectorValues,
    perm_challenges: Seq<Ef>,
    cumulative_sum: Ext,
    public_values: Seq<Fe>,
    i: int,
    next: int,
)
    requires
        quotients_prepared(machine, evaluations),
        0 <= table < machine.len(),
        machine[table].trace_domain() is Some,
        machine[table].preprocessed is None,
    ensures
        evaluations[table] is Some,
        evaluations[table]->0.preprocessed is None,
        ({
            let frame = quotient_frame(
                evaluations[table]->0.preprocessed,
                evaluations[table]->0.main,
                evaluations[table]->0.permutation,
                selectors,
                perm_challenges,
                cumulative_sum,
                public_values,
                i,
                next,
            );
            &&& frame.preprocessed_local.len() == 0
            &&& frame.preprocessed_next.len() == 0
            &&& frame.is_first_row == ext_from_base(selectors.is_first_row[i])
            &&& frame.is_last_row == ext_from_base(selectors.is_last_row[i])
            &&& frame.is_transition == ext_from_base(selectors.is_transition[i])
        }),
{
}

} // verus!
