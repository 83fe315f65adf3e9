//! The permutation trace of one table: for every interaction a column of
//! reciprocals, and a last column that holds the running sum of the signed,
//! weighted reciprocals.

use vstd::prelude::*;
use vstd::arithmetic::div_mod::*;
use crate::extension::{
    ef_seq, ext_add, ext_mul, ext_one, ext_pow, ext_scale, ext_sub, ext_zero,
    inverse_or_zero, quartic_batch_inverse, Ef, Ext,
};
use crate::field::{fe_seq, Fe};
use crate::interaction::{powers_from_first, reduce_row, reduce_row_spec, Interaction, InteractionType};
use crate::matrix::Matrix;

verus! {

/// `y` is the inverse of `x`, or both are zero.
pub open spec fn reciprocal_or_zero(x: Ext, y: Ext) -> bool {
    if x == ext_zero() {
        y == ext_zero()
    } else {
        ext_mul(x, y) == ext_one()
    }
}

/// `y` is the inverse of `x` in the field, or both are zero.
pub open spec fn is_reciprocal(x: Ext, y: Ext) -> bool {
    reciprocal_or_zero(x, y) && y == inverse_or_zero(x)
}

/// Inverts every element that is not zero and leaves the zeros in place.
pub fn batch_multiplicative_inverse_allowing_zero(values: Vec<Ef>) -> (r: Vec<Ef>)
    ensures
        r@.len() == values@.len(),
        forall|i: int|
            0 <= i < values@.len() ==> reciprocal_or_zero(values@[i]@, (#[trigger] r@[i])@)
                && r@[i]@ == inverse_or_zero(values@[i]@),
{
    let mut nonzero_values: Vec<Ef> = Vec::new();
    let mut indices: Vec<usize> = Vec::new();
    let ghost mut slot: Seq<int> = Seq::empty();
    let mut i: usize = 0;
    while i < values.len()
        invariant
            i <= values@.len(),
            slot.len() == i,
            nonzero_values@.len() == indices@.len(),
            forall|k: int|
                0 <= k < indices@.len() ==> (#[trigger] indices@[k]) < i && values@[indices@[k] as int]
                    == nonzero_values@[k] && nonzero_values@[k]@ != ext_zero(),
            forall|k1: int, k2: int|
                0 <= k1 < k2 < indices@.len() ==> (#[trigger] indices@[k1]) < (
                #[trigger] indices@[k2]),
            forall|j: int|
                0 <= j < i && values@[j]@ != ext_zero() ==> 0 <= (#[trigger] slot[j])
                    < indices@.len() && indices@[slot[j]] == j,
        decreases values@.len() - i,
    {
        let value = values[i];
        if !value.is_zero() {
            proof {
                slot = slot.push(indices@.len() as int);
            }
            nonzero_values.push(value);
            indices.push(i);
        } else {
            proof {
                slot = slot.push(-1);
            }
        }
        i += 1;
    }
    assert forall|q: int| 0 <= q < nonzero_values@.len() implies (#[trigger] nonzero_values@[q])@
        != ext_zero() by {
        assert(indices@[q] < i);
    }
    let inverse_nonzero_values = quartic_batch_inverse(&nonzero_values);
    let mut result = values;
    let ghost original = result@;
    let mut k: usize = 0;
    while k < indices.len()
        invariant
            k <= indices@.len(),
            result@.len() == original.len(),
            nonzero_values@.len() == indices@.len(),
            inverse_nonzero_values@.len() == indices@.len(),
            forall|q: int|
                0 <= q < indices@.len() ==> (#[trigger] indices@[q]) < original.len()
                    && original[indices@[q] as int] == nonzero_values@[q] && nonzero_values@[q]@
                    != ext_zero(),
            forall|k1: int, k2: int|
                0 <= k1 < k2 < indices@.len() ==> (#[trigger] indices@[k1]) < (
                #[trigger] indices@[k2]),
            forall|q: int|
                0 <= q < k ==> result@[(#[trigger] indices@[q]) as int]
                    == inverse_nonzero_values@[q],
            forall|j: int|
                0 <= j < original.len() && original[j]@ == ext_zero() ==> (#[trigger] result@[j])
                    == original[j],
        decreases indices@.len() - k,
    {
        let index = indices[k];
        result.set(index, inverse_nonzero_values[k]);
        k += 1;
    }
    proof {
        assert forall|j: int| 0 <= j < original.len() implies reciprocal_or_zero(
            original[j]@,
            (#[trigger] result@[j])@,
        ) && result@[j]@ == inverse_or_zero(original[j]@) by {
            if original[j]@ != ext_zero() {
                let q = slot[j];
                assert(indices@[q] == j);
                assert(result@[indices@[q] as int] == inverse_nonzero_values@[q]);
                assert(ext_mul(nonzero_values@[q]@, inverse_nonzero_values@[q]@) == ext_one());
            }
        }
    }
    result
}

/// The number of rows of a table: that of its main trace or of its
/// preprocessed trace, whichever is larger, and zero if it has neither.
pub open spec fn trace_height(preprocessed: Option<Matrix<Fe>>, main: Option<Matrix<Fe>>) -> nat {
    match (main, preprocessed) {
        (Some(m), Some(p)) => if m.rows() > p.rows() {
            m.rows()
        } else {
            p.rows()
        },
        (Some(m), None) => m.rows(),
        (None, Some(p)) => p.rows(),
        (None, None) => 0,
    }
}

/// The width of a trace; an absent trace has width zero.
pub open spec fn trace_width(trace: Option<Matrix<Fe>>) -> nat {
    match trace {
        Some(m) => m.cols(),
        None => 0,
    }
}

/// Row `n` of a trace; every row of an absent trace is empty.
pub open spec fn trace_row(trace: Option<Matrix<Fe>>, n: int) -> Seq<int> {
    match trace {
        Some(m) => fe_seq(m.row(n)),
        None => Seq::empty(),
    }
}

/// The tag of a bus: the challenge `gamma` raised to one more than the bus
/// identifier, so that every bus has a tag of its own.
pub open spec fn bus_tag(gamma: Ext, bus: nat) -> Ext {
    ext_pow(gamma, bus + 1)
}

/// The random linear combination of the message that `interaction` carries
/// on one row.
pub open spec fn message_rlc(
    interaction: Interaction,
    preprocessed_row: Seq<int>,
    main_row: Seq<int>,
    beta: Ext,
    gamma: Ext,
) -> Ext {
    reduce_row_spec(
        preprocessed_row,
        main_row,
        interaction.fields@,
        bus_tag(gamma, interaction.argument_index as nat),
        beta,
    )
}

/// `acc` with one more term: a send adds the reciprocal times the
/// multiplicity, a receive subtracts it.
pub open spec fn add_term(acc: Ext, kind: InteractionType, reciprocal: Ext, mult: int) -> Ext {
    match kind {
        InteractionType::Send => ext_add(acc, ext_scale(reciprocal, mult)),
        InteractionType::Receive => ext_sub(acc, ext_scale(reciprocal, mult)),
    }
}

/// `start` plus the terms of the first `m` interactions on one row, whose
/// reciprocals are the first `m` entries of `row`.
pub open spec fn row_sum(
    start: Ext,
    row: Seq<Ext>,
    interactions: Seq<(Interaction, InteractionType)>,
    preprocessed_row: Seq<int>,
    main_row: Seq<int>,
    m: nat,
) -> Ext
    decreases m,
{
    if m == 0 {
        start
    } else {
        add_term(
            row_sum(start, row, interactions, preprocessed_row, main_row, (m - 1) as nat),
            interactions[m - 1].1,
            row[m - 1],
            interactions[m - 1].0.count.value(preprocessed_row, main_row),
        )
    }
}

/// The sum of a row reads only the reciprocals of the interactions it sums.
pub proof fn lemma_row_sum_prefix(
    start: Ext,
    a: Seq<Ext>,
    b: Seq<Ext>,
    interactions: Seq<(Interaction, InteractionType)>,
    preprocessed_row: Seq<int>,
    main_row: Seq<int>,
    m: nat,
)
    requires
        m <= a.len(),
        m <= b.len(),
        forall|j: int| 0 <= j < m ==> a[j] == b[j],
    ensures
        row_sum(start, a, interactions, preprocessed_row, main_row, m) == row_sum(
            start,
            b,
            interactions,
            preprocessed_row,
            main_row,
            m,
        ),
    decreases m,
{
    if m > 0 {
        lemma_row_sum_prefix(
            start,
            a,
            b,
            interactions,
            preprocessed_row,
            main_row,
            (m - 1) as nat,
        );
    }
}

/// The running sum before row `n`: zero before the first row, else the last
/// entry of the row above.
pub open spec fn sum_above(perm: Matrix<Ef>, n: int) -> Ext {
    if n == 0 {
        ext_zero()
    } else {
        perm.row(n - 1)[perm.cols() - 1]@
    }
}

/// What makes `perm` the permutation trace of a table with the given traces
/// and interactions under the challenges `beta` and `gamma`: one row for
/// each row of the table; one column for each interaction, which holds the
/// inverse of the message's random linear combination, or zero where that
/// combination is zero; and a last column, which on every row holds the
/// entry above it plus the terms of that row.
pub open spec fn is_permutation_trace(
    perm: Matrix<Ef>,
    preprocessed: Option<Matrix<Fe>>,
    main: Option<Matrix<Fe>>,
    interactions: Seq<(Interaction, InteractionType)>,
    beta: Ext,
    gamma: Ext,
) -> bool {
    &&& perm.well_formed()
    &&& perm.rows() == trace_height(preprocessed, main)
    &&& perm.cols() == interactions.len() + 1
    &&& forall|n: int, m: int|
        0 <= n < perm.rows() && 0 <= m < interactions.len() ==> is_reciprocal(
            message_rlc(
                interactions[m].0,
                trace_row(preprocessed, n),
                trace_row(main, n),
                beta,
                gamma,
            ),
            (#[trigger] perm.row(n)[m])@,
        )
    &&& forall|n: int|
        0 <= n < perm.rows() ==> (#[trigger] perm.row(n))[interactions.len() as int]@ == row_sum(
            sum_above(perm, n),
            ef_seq(perm.row(n)),
            interactions,
            trace_row(preprocessed, n),
            trace_row(main, n),
            interactions.len(),
        )
}

/// Whether every column that an interaction reads exists.
pub open spec fn columns_exist(
    preprocessed: Option<Matrix<Fe>>,
    main: Option<Matrix<Fe>>,
    interactions: Seq<(Interaction, InteractionType)>,
) -> bool {
    forall|m: int|
        0 <= m < interactions.len() ==> (#[trigger] interactions[m]).0.fits(
            trace_width(preprocessed),
            trace_width(main),
        )
}

/// Whether the traces and interactions of a table can be walked row by row:
/// the two traces, where both are present, have the same height; no bus
/// identifier is the largest machine integer; and, where the table has
/// rows, every column that an interaction reads exists. Of a table without
/// rows no column is read, so none is asked for.
pub open spec fn table_fits(
    preprocessed: Option<Matrix<Fe>>,
    main: Option<Matrix<Fe>>,
    interactions: Seq<(Interaction, InteractionType)>,
) -> bool {
    &&& preprocessed is Some && main is Some ==> preprocessed->0.rows() == main->0.rows()
    &&& interactions.len() < usize::MAX
    &&& forall|m: int|
        0 <= m < interactions.len() ==> (#[trigger] interactions[m]).0.argument_index
            < usize::MAX
    &&& trace_height(preprocessed, main) > 0 ==> columns_exist(preprocessed, main, interactions)
}

/// The trace behind a reference, if there is one.
pub open spec fn opt<T>(trace: Option<&Matrix<T>>) -> Option<Matrix<T>> {
    match trace {
        Some(m) => Some(*m),
        None => None,
    }
}

/// The number of rows of a table.
pub fn table_height(preprocessed: Option<&Matrix<Fe>>, main: Option<&Matrix<Fe>>) -> (h: usize)
    ensures
        h == trace_height(opt(preprocessed), opt(main)),
{
    match main {
        Some(m) => match preprocessed {
            Some(p) => {
                let a: usize = m.height();
                let b: usize = p.height();
                if a > b {
                    a
                } else {
                    b
                }
            },
            None => m.height(),
        },
        None => match preprocessed {
            Some(p) => p.height(),
            None => 0,
        },
    }
}

/// Tests whether the traces and interactions of a table can be walked row
/// by row.
pub fn check_table(
    preprocessed: Option<&Matrix<Fe>>,
    main: Option<&Matrix<Fe>>,
    interactions: &[(Interaction, InteractionType)],
) -> (r: bool)
    ensures
        r == table_fits(opt(preprocessed), opt(main), interactions@),
{
    let preprocessed_width: usize = match preprocessed {
        Some(p) => p.width(),
        None => 0,
    };
    let main_width: usize = match main {
        Some(m) => m.width(),
        None => 0,
    };
    match preprocessed {
        Some(p) => match main {
            Some(m) => {
                if p.height() != m.height() {
                    return false;
                }
            },
            None => {},
        },
        None => {},
    }
    if interactions.len() == usize::MAX {
        return false;
    }
    let has_rows: bool = table_height(preprocessed, main) > 0;
    let mut m: usize = 0;
    while m < interactions.len()
        invariant
            m <= interactions@.len(),
            preprocessed_width == trace_width(opt(preprocessed)),
            main_width == trace_width(opt(main)),
            has_rows == (trace_height(opt(preprocessed), opt(main)) > 0),
            forall|j: int|
                0 <= j < m ==> (#[trigger] interactions@[j]).0.argument_index < usize::MAX,
            has_rows ==> forall|j: int|
                0 <= j < m ==> (#[trigger] interactions@[j]).0.fits(
                    trace_width(opt(preprocessed)),
                    trace_width(opt(main)),
                ),
        decreases interactions@.len() - m,
    {
        if interactions[m].0.argument_index == usize::MAX {
            return false;
        }
        if has_rows && !interactions[m].0.fits_widths(preprocessed_width, main_width) {
            return false;
        }
        m += 1;
    }
    true
}

/// The position of the cell in row `n` and column `m` of a buffer that holds
/// rows of width `k` one after the other.
#[verifier::opaque]
pub open spec fn flat_index(n: int, m: int, k: int) -> int {
    n * k + m
}

proof fn lemma_flat_index_value(n: int, m: int, k: int)
    ensures
        flat_index(n, m, k) == n * k + m,
        flat_index(n, m + 1, k) == flat_index(n, m, k) + 1,
        flat_index(n, k, k) == flat_index(n + 1, 0, k),
        flat_index(0, m, k) == m,
{
    reveal(flat_index);
    assert((n + 1) * k == n * k + k) by (nonlinear_arith);
}

proof fn lemma_flat_index_order(n1: int, m1: int, n2: int, m2: int, k: int)
    requires
        0 <= n1,
        0 <= m1 < k,
        0 <= m2 <= k,
        n1 < n2 || (n1 == n2 && m1 < m2),
    ensures
        0 <= flat_index(n1, m1, k) < flat_index(n2, m2, k),
{
    reveal(flat_index);
    assert(0 <= n1 * k) by (nonlinear_arith)
        requires
            0 <= n1,
            0 < k,
    ;
    if n1 < n2 {
        assert((n1 + 1) * k <= n2 * k) by (nonlinear_arith)
            requires
                n1 + 1 <= n2,
                0 < k,
        ;
        assert((n1 + 1) * k == n1 * k + k) by (nonlinear_arith);
    }
}

/// Row `n` of a trace, or the empty row of an absent trace.
pub(crate) fn row_or_empty<'a>(
    trace: Option<&'a Matrix<Fe>>,
    empty: &'a Vec<Fe>,
    n: usize,
) -> (row: &'a [Fe])
    requires
        empty@.len() == 0,
        trace is Some ==> n < trace->0.rows(),
    ensures
        fe_seq(row@) == trace_row(opt(trace), n as int),
        row@.len() == trace_width(opt(trace)),
{
    match trace {
        Some(m) => m.row_slice(n),
        None => {
            proof {
                assert(fe_seq(empty@) =~= Seq::<int>::empty());
            }
            empty.as_slice()
        },
    }
}

/// The random linear combinations of all messages of a table, row after
/// row.
fn message_combinations(
    preprocessed: Option<&Matrix<Fe>>,
    main: Option<&Matrix<Fe>>,
    interactions: &[(Interaction, InteractionType)],
    beta: Ef,
    gamma: Ef,
) -> (flat: Vec<Ef>)
    requires
        table_fits(opt(preprocessed), opt(main), interactions@),
    ensures
        flat@.len() == flat_index(
            trace_height(opt(preprocessed), opt(main)) as int,
            0,
            interactions@.len() as int,
        ),
        forall|n1: int, m1: int|
            0 <= n1 < trace_height(opt(preprocessed), opt(main)) && 0 <= m1 < interactions@.len() ==> (
            #[trigger] flat@[flat_index(n1, m1, interactions@.len() as int)])@ == message_rlc(
                interactions@[m1].0,
                trace_row(opt(preprocessed), n1),
                trace_row(opt(main), n1),
                beta@,
                gamma@,
            ),
{
    let height: usize = table_height(preprocessed, main);
    let k: usize = interactions.len();
    let empty: Vec<Fe> = Vec::new();
    let mut top: usize = 0;
    let mut i: usize = 0;
    while i < k
        invariant
            i <= k,
            k == interactions@.len(),
            table_fits(opt(preprocessed), opt(main), interactions@),
            top < usize::MAX,
            forall|j: int| 0 <= j < i ==> (#[trigger] interactions@[j]).0.argument_index <= top,
        decreases k - i,
    {
        if interactions[i].0.argument_index > top {
            top = interactions[i].0.argument_index;
        }
        i += 1;
    }
    let alphas = powers_from_first(gamma, top + 1);
    let mut flat: Vec<Ef> = Vec::new();
    let mut n: usize = 0;
    proof {
        lemma_flat_index_value(0, 0, k as int);
    }
    while n < height
        invariant
            n <= height,
            height == trace_height(opt(preprocessed), opt(main)),
            k == interactions@.len(),
            empty@.len() == 0,
            table_fits(opt(preprocessed), opt(main), interactions@),
            alphas@.len() == top + 1,
            forall|j: int| 0 <= j < k ==> (#[trigger] interactions@[j]).0.argument_index <= top,
            forall|b: int|
                0 <= b < alphas@.len() ==> (#[trigger] alphas@[b])@ == ext_pow(
                    gamma@,
                    (b + 1) as nat,
                ),
            flat@.len() == flat_index(n as int, 0, k as int),
            forall|n1: int, m1: int|
                0 <= n1 < n && 0 <= m1 < k ==> (#[trigger] flat@[flat_index(n1, m1, k as int)])@
                    == message_rlc(
                    interactions@[m1].0,
                    trace_row(opt(preprocessed), n1),
                    trace_row(opt(main), n1),
                    beta@,
                    gamma@,
                ),
        decreases height - n,
    {
        let preprocessed_row = row_or_empty(preprocessed, &empty, n);
        let main_row = row_or_empty(main, &empty, n);
        let mut m: usize = 0;
        while m < k
            invariant
                m <= k,
                n < height,
                height == trace_height(opt(preprocessed), opt(main)),
                k == interactions@.len(),
                table_fits(opt(preprocessed), opt(main), interactions@),
                fe_seq(preprocessed_row@) == trace_row(opt(preprocessed), n as int),
                preprocessed_row@.len() == trace_width(opt(preprocessed)),
                fe_seq(main_row@) == trace_row(opt(main), n as int),
                main_row@.len() == trace_width(opt(main)),
                alphas@.len() == top + 1,
                forall|j: int| 0 <= j < k ==> (#[trigger] interactions@[j]).0.argument_index <= top,
                forall|b: int|
                    0 <= b < alphas@.len() ==> (#[trigger] alphas@[b])@ == ext_pow(
                        gamma@,
                        (b + 1) as nat,
                    ),
                flat@.len() == flat_index(n as int, m as int, k as int),
                forall|n1: int, m1: int|
                    0 <= n1 < n && 0 <= m1 < k ==> (#[trigger] flat@[flat_index(
                        n1,
                        m1,
                        k as int,
                    )])@ == message_rlc(
                        interactions@[m1].0,
                        trace_row(opt(preprocessed), n1),
                        trace_row(opt(main), n1),
                        beta@,
                        gamma@,
                    ),
                forall|m1: int|
                    0 <= m1 < m ==> (#[trigger] flat@[flat_index(n as int, m1, k as int)])@
                        == message_rlc(
                        interactions@[m1].0,
                        trace_row(opt(preprocessed), n as int),
                        trace_row(opt(main), n as int),
                        beta@,
                        gamma@,
                    ),
            decreases k - m,
        {
            let interaction = &interactions[m].0;
            assert(interactions@[m as int].0.fits(
                trace_width(opt(preprocessed)),
                trace_width(opt(main)),
            ));
            let alpha = alphas[interaction.argument_index];
            let rlc = reduce_row(
                preprocessed_row,
                main_row,
                interaction.fields.as_slice(),
                alpha,
                beta,
            );
            let ghost before = flat@;
            flat.push(rlc);
            proof {
                lemma_flat_index_value(n as int, m as int, k as int);
                assert forall|n1: int, m1: int| 0 <= n1 < n && 0 <= m1 < k implies (
                #[trigger] flat@[flat_index(n1, m1, k as int)])@ == message_rlc(
                    interactions@[m1].0,
                    trace_row(opt(preprocessed), n1),
                    trace_row(opt(main), n1),
                    beta@,
                    gamma@,
                ) by {
                    lemma_flat_index_order(n1, m1, n as int, m as int, k as int);
                    assert(flat@[flat_index(n1, m1, k as int)] == before[flat_index(
                        n1,
                        m1,
                        k as int,
                    )]);
                }
                assert forall|m1: int| 0 <= m1 < m + 1 implies (#[trigger] flat@[flat_index(
                    n as int,
                    m1,
                    k as int,
                )])@ == message_rlc(
                    interactions@[m1].0,
                    trace_row(opt(preprocessed), n as int),
                    trace_row(opt(main), n as int),
                    beta@,
                    gamma@,
                ) by {
                    if m1 < m {
                        lemma_flat_index_order(n as int, m1, n as int, m as int, k as int);
                        assert(flat@[flat_index(n as int, m1, k as int)] == before[flat_index(
                            n as int,
                            m1,
                            k as int,
                        )]);
                    }
                }
            }
            m += 1;
        }
        proof {
            lemma_flat_index_value(n as int, 0, k as int);
        }
        n += 1;
    }
    flat
}

/// What the rows of a permutation trace hold, given the reciprocals of all
/// messages row after row: on each row its reciprocals, then the running
/// sum.
spec fn rows_hold(
    rows: Seq<Vec<Ef>>,
    inverses: Seq<Ef>,
    preprocessed: Option<Matrix<Fe>>,
    main: Option<Matrix<Fe>>,
    interactions: Seq<(Interaction, InteractionType)>,
    n: int,
) -> bool {
    let k = interactions.len() as int;
    &&& rows.len() == n
    &&& forall|n1: int| 0 <= n1 < n ==> (#[trigger] rows[n1])@.len() == k + 1
    &&& forall|n1: int, m1: int|
        0 <= n1 < n && 0 <= m1 < k ==> (#[trigger] rows[n1]@[m1]) == inverses[flat_index(
            n1,
            m1,
            k,
        )]
    &&& forall|n1: int|
        0 <= n1 < n ==> (#[trigger] rows[n1])@[k]@ == row_sum(
            if n1 == 0 {
                ext_zero()
            } else {
                rows[n1 - 1]@[k]@
            },
            ef_seq(rows[n1]@),
            interactions,
            trace_row(preprocessed, n1),
            trace_row(main, n1),
            k as nat,
        )
}

/// One row of the permutation trace: the reciprocals of row `n`, then
/// `above` plus the terms of the row.
fn running_sum_row(
    preprocessed: Option<&Matrix<Fe>>,
    main: Option<&Matrix<Fe>>,
    interactions: &[(Interaction, InteractionType)],
    inverses: &Vec<Ef>,
    above: Ef,
    n: usize,
) -> (row: Vec<Ef>)
    requires
        table_fits(opt(preprocessed), opt(main), interactions@),
        n < trace_height(opt(preprocessed), opt(main)),
        inverses@.len() == flat_index(
            trace_height(opt(preprocessed), opt(main)) as int,
            0,
            interactions@.len() as int,
        ),
    ensures
        row@.len() == interactions@.len() + 1,
        forall|m1: int|
            0 <= m1 < interactions@.len() ==> (#[trigger] row@[m1]) == inverses@[flat_index(
                n as int,
                m1,
                interactions@.len() as int,
            )],
        row@[interactions@.len() as int]@ == row_sum(
            above@,
            ef_seq(row@),
            interactions@,
            trace_row(opt(preprocessed), n as int),
            trace_row(opt(main), n as int),
            interactions@.len(),
        ),
{
    let k: usize = interactions.len();
    let ghost height = trace_height(opt(preprocessed), opt(main)) as int;
    let empty: Vec<Fe> = Vec::new();
    let preprocessed_row = row_or_empty(preprocessed, &empty, n);
    let main_row = row_or_empty(main, &empty, n);
    let mut phi = above;
    let mut row: Vec<Ef> = Vec::new();
    let mut m: usize = 0;
    while m < k
        invariant
            m <= k,
            n < height,
            height == trace_height(opt(preprocessed), opt(main)),
            k == interactions@.len(),
            table_fits(opt(preprocessed), opt(main), interactions@),
            fe_seq(preprocessed_row@) == trace_row(opt(preprocessed), n as int),
            preprocessed_row@.len() == trace_width(opt(preprocessed)),
            fe_seq(main_row@) == trace_row(opt(main), n as int),
            main_row@.len() == trace_width(opt(main)),
            inverses@.len() == flat_index(height, 0, k as int),
            row@.len() == m,
            forall|m1: int|
                0 <= m1 < m ==> (#[trigger] row@[m1]) == inverses@[flat_index(
                    n as int,
                    m1,
                    k as int,
                )],
            phi@ == row_sum(
                above@,
                ef_seq(row@),
                interactions@,
                trace_row(opt(preprocessed), n as int),
                trace_row(opt(main), n as int),
                m as nat,
            ),
        decreases k - m,
    {
        let total: usize = inverses.len();
        proof {
            lemma_flat_index_order(n as int, m as int, height, 0, k as int);
            lemma_flat_index_value(n as int, m as int, k as int);
            assert(0 <= n * k) by (nonlinear_arith)
                requires
                    0 <= n,
                    0 <= k,
            ;
            assert(n * k + m < total);
        }
        let reciprocal = inverses[n * k + m];
        let interaction = &interactions[m].0;
        assert(interactions@[m as int].0.fits(trace_width(opt(preprocessed)), trace_width(opt(main))));
        let mult = interaction.count.apply(preprocessed_row, main_row);
        let term = reciprocal.scale(mult);
        let ghost before = row@;
        match interactions[m].1 {
            InteractionType::Send => {
                phi = phi.add(term);
            },
            InteractionType::Receive => {
                phi = phi.sub(term);
            },
        }
        row.push(reciprocal);
        proof {
            lemma_row_sum_prefix(
                above@,
                ef_seq(before),
                ef_seq(row@),
                interactions@,
                trace_row(opt(preprocessed), n as int),
                trace_row(opt(main), n as int),
                m as nat,
            );
            assert(ef_seq(row@)[m as int] == reciprocal@);
        }
        m += 1;
    }
    let ghost before = row@;
    row.push(phi);
    proof {
        lemma_row_sum_prefix(
            above@,
            ef_seq(before),
            ef_seq(row@),
            interactions@,
            trace_row(opt(preprocessed), n as int),
            trace_row(opt(main), n as int),
            k as nat,
        );
    }
    row
}

/// All rows of the permutation trace, from the reciprocals of all messages.
fn running_sum_rows(
    preprocessed: Option<&Matrix<Fe>>,
    main: Option<&Matrix<Fe>>,
    interactions: &[(Interaction, InteractionType)],
    inverses: &Vec<Ef>,
) -> (rows: Vec<Vec<Ef>>)
    requires
        table_fits(opt(preprocessed), opt(main), interactions@),
        inverses@.len() == flat_index(
            trace_height(opt(preprocessed), opt(main)) as int,
            0,
            interactions@.len() as int,
        ),
    ensures
        rows_hold(
            rows@,
            inverses@,
            opt(preprocessed),
            opt(main),
            interactions@,
            trace_height(opt(preprocessed), opt(main)) as int,
        ),
{
    let height: usize = table_height(preprocessed, main);
    let k: usize = interactions.len();
    let mut rows: Vec<Vec<Ef>> = Vec::new();
    let mut phi = Ef::zero();
    let mut n: usize = 0;
    while n < height
        invariant
            n <= height,
            height == trace_height(opt(preprocessed), opt(main)),
            k == interactions@.len(),
            table_fits(opt(preprocessed), opt(main), interactions@),
            inverses@.len() == flat_index(height as int, 0, k as int),
            n == 0 ==> phi@ == ext_zero(),
            n > 0 ==> phi == rows@[n - 1]@[k as int],
            rows_hold(rows@, inverses@, opt(preprocessed), opt(main), interactions@, n as int),
        decreases height - n,
    {
        let row = running_sum_row(preprocessed, main, interactions, inverses, phi, n);
        let ghost start = phi@;
        phi = row[k];
        let ghost above = rows@;
        rows.push(row);
        proof {
            lemma_rows_hold_push(
                above,
                row,
                inverses@,
                opt(preprocessed),
                opt(main),
                interactions@,
                n as int,
            );
        }
        n += 1;
    }
    rows
}

/// A further row that holds its reciprocals and its running sum extends the
/// rows above it.
proof fn lemma_rows_hold_push(
    above: Seq<Vec<Ef>>,
    row: Vec<Ef>,
    inverses: Seq<Ef>,
    preprocessed: Option<Matrix<Fe>>,
    main: Option<Matrix<Fe>>,
    interactions: Seq<(Interaction, InteractionType)>,
    n: int,
)
    requires
        0 <= n,
        rows_hold(above, inverses, preprocessed, main, interactions, n),
        row@.len() == interactions.len() + 1,
        forall|m1: int|
            0 <= m1 < interactions.len() ==> (#[trigger] row@[m1]) == inverses[flat_index(
                n,
                m1,
                interactions.len() as int,
            )],
        row@[interactions.len() as int]@ == row_sum(
            if n == 0 {
                ext_zero()
            } else {
                above[n - 1]@[interactions.len() as int]@
            },
            ef_seq(row@),
            interactions,
            trace_row(preprocessed, n),
            trace_row(main, n),
            interactions.len(),
        ),
    ensures
        rows_hold(above.push(row), inverses, preprocessed, main, interactions, n + 1),
{
    let rows = above.push(row);
    let k = interactions.len() as int;
    assert forall|n1: int| 0 <= n1 < n + 1 implies (#[trigger] rows[n1])@.len() == k + 1 by {
        if n1 < n {
            assert(rows[n1] == above[n1]);
        }
    }
    assert forall|n1: int, m1: int| 0 <= n1 < n + 1 && 0 <= m1 < k implies (
    #[trigger] rows[n1]@[m1]) == inverses[flat_index(n1, m1, k)] by {
        if n1 < n {
            assert(rows[n1] == above[n1]);
            assert(above[n1]@[m1] == inverses[flat_index(n1, m1, k)]);
        }
    }
    assert forall|n1: int| 0 <= n1 < n + 1 implies (#[trigger] rows[n1])@[k]@ == row_sum(
        if n1 == 0 {
            ext_zero()
        } else {
            rows[n1 - 1]@[k]@
        },
        ef_seq(rows[n1]@),
        interactions,
        trace_row(preprocessed, n1),
        trace_row(main, n1),
        k as nat,
    ) by {
        if n1 < n {
            assert(rows[n1] == above[n1]);
            if n1 > 0 {
                assert(rows[n1 - 1] == above[n1 - 1]);
            }
        } else {
            if n1 > 0 {
                assert(rows[n1 - 1] == above[n1 - 1]);
            }
        }
    }
}

/// The matrix of rows that hold the reciprocals and the running sums is the
/// permutation trace.
proof fn lemma_rows_are_trace(
    perm: Matrix<Ef>,
    rows: Seq<Vec<Ef>>,
    rlcs: Seq<Ef>,
    inverses: Seq<Ef>,
    preprocessed: Option<Matrix<Fe>>,
    main: Option<Matrix<Fe>>,
    interactions: Seq<(Interaction, InteractionType)>,
    beta: Ext,
    gamma: Ext,
)
    requires
        perm.well_formed(),
        perm.rows() == rows.len(),
        perm.cols() == interactions.len() + 1,
        forall|i: int| 0 <= i < rows.len() ==> #[trigger] perm.row(i) == rows[i]@,
        rows_hold(
            rows,
            inverses,
            preprocessed,
            main,
            interactions,
            trace_height(preprocessed, main) as int,
        ),
        rlcs.len() == flat_index(
            trace_height(preprocessed, main) as int,
            0,
            interactions.len() as int,
        ),
        inverses.len() == rlcs.len(),
        forall|i: int| 0 <= i < rlcs.len() ==> is_reciprocal(rlcs[i]@, (#[trigger] inverses[i])@),
        forall|n1: int, m1: int|
            0 <= n1 < trace_height(preprocessed, main) && 0 <= m1 < interactions.len() ==> (
            #[trigger] rlcs[flat_index(n1, m1, interactions.len() as int)])@ == message_rlc(
                interactions[m1].0,
                trace_row(preprocessed, n1),
                trace_row(main, n1),
                beta,
                gamma,
            ),
    ensures
        is_permutation_trace(perm, preprocessed, main, interactions, beta, gamma),
{
    let k = interactions.len() as int;
    let height = trace_height(preprocessed, main) as int;
    assert forall|n1: int, m1: int|
        0 <= n1 < perm.rows() && 0 <= m1 < interactions.len() implies is_reciprocal(
        message_rlc(
            interactions[m1].0,
            trace_row(preprocessed, n1),
            trace_row(main, n1),
            beta,
            gamma,
        ),
        (#[trigger] perm.row(n1)[m1])@,
    ) by {
        assert(perm.row(n1) == rows[n1]@);
        assert(rows[n1]@[m1] == inverses[flat_index(n1, m1, k)]);
        lemma_flat_index_order(n1, m1, height, 0, k);
        let idx = flat_index(n1, m1, k);
        assert(rlcs[idx]@ == message_rlc(
            interactions[m1].0,
            trace_row(preprocessed, n1),
            trace_row(main, n1),
            beta,
            gamma,
        ));
        assert(is_reciprocal(rlcs[idx]@, inverses[idx]@));
    }
    assert forall|n1: int| 0 <= n1 < perm.rows() implies (#[trigger] perm.row(
        n1,
    ))[interactions.len() as int]@ == row_sum(
        sum_above(perm, n1),
        ef_seq(perm.row(n1)),
        interactions,
        trace_row(preprocessed, n1),
        trace_row(main, n1),
        interactions.len(),
    ) by {
        assert(perm.row(n1) == rows[n1]@);
        assert(rows[n1]@.len() == k + 1);
        if n1 > 0 {
            assert(perm.row(n1 - 1) == rows[n1 - 1]@);
            assert(rows[n1 - 1]@.len() == k + 1);
        }
    }
}

/// Builds the permutation trace of one table. `random_elements[0]` is the
/// challenge `beta`, whose powers combine the fields of a message;
/// `random_elements[1]` is the challenge `gamma`, whose powers tag the buses.
/// A table without rows has no permutation trace.
pub fn generate_permutation_trace(
    preprocessed: &Option<Matrix<Fe>>,
    main: &Option<Matrix<Fe>>,
    interactions: &[(Interaction, InteractionType)],
    random_elements: [Ef; 2],
) -> (r: Option<Matrix<Ef>>)
    requires
        table_fits(*preprocessed, *main, interactions@),
    ensures
        r is None <==> trace_height(*preprocessed, *main) == 0,
        r matches Some(perm) ==> is_permutation_trace(
            perm,
            *preprocessed,
            *main,
            interactions@,
            random_elements[0]@,
            random_elements[1]@,
        ),
{
    permutation_trace_of(preprocessed.as_ref(), main.as_ref(), interactions, random_elements)
}

/// Builds the permutation trace of one table from its traces, where it has
/// them.
pub fn permutation_trace_of(
    preprocessed: Option<&Matrix<Fe>>,
    main: Option<&Matrix<Fe>>,
    interactions: &[(Interaction, InteractionType)],
    random_elements: [Ef; 2],
) -> (r: Option<Matrix<Ef>>)
    requires
        table_fits(opt(preprocessed), opt(main), interactions@),
    ensures
        r is None <==> trace_height(opt(preprocessed), opt(main)) == 0,
        r matches Some(perm) ==> is_permutation_trace(
            perm,
            opt(preprocessed),
            opt(main),
            interactions@,
            random_elements[0]@,
            random_elements[1]@,
        ),
{
    let height: usize = table_height(preprocessed, main);
    if height == 0 {
        return None;
    }
    let k: usize = interactions.len();
    let beta = random_elements[0];
    let gamma = random_elements[1];
    let flat = message_combinations(preprocessed, main, interactions, beta, gamma);
    let ghost rlcs = flat@;
    let inverses = batch_multiplicative_inverse_allowing_zero(flat);
    let rows = running_sum_rows(preprocessed, main, interactions, &inverses);
    let perm = Matrix::from_rows(&rows, k + 1);
    proof {
        lemma_rows_are_trace(
            perm,
            rows@,
            rlcs,
            inverses@,
            opt(preprocessed),
            opt(main),
            interactions@,
            beta@,
            gamma@,
        );
    }
    Some(perm)
}

} // verus!
