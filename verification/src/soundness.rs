//! The permutation trace that the generator builds satisfies the
//! constraints that the evaluator emits.

use vstd::prelude::*;
use vstd::arithmetic::div_mod::*;
use crate::check_constraints::satisfied;
use crate::chip::{
    column_expr, fields_expr, first_row_constraint, last_row_constraint, message_expr,
    permutation_constraints, reciprocal_constraint, terms_expr,
    transition_constraint, virtual_column_expr, };
use crate::debug::{row_after, row_frame, selector};
use crate::extension::{
    ef_seq, ext_add, ext_from_base, ext_mul, ext_pow, ext_scale, ext_sub, ext_zero, Ef,
    Ext,
};
use crate::field::{fp_add, fp_mul, modulus, Fe};
use crate::interaction::{combine_fields, Interaction, InteractionType, PairCol, VirtualPairCol};
use crate::matrix::Matrix;
use crate::permutation::{
    is_permutation_trace, message_rlc, row_sum, sum_above,
    table_fits, trace_height, trace_row, trace_width,
};
use crate::symbolic::{Frame, SymbolicExpression};
use crate::window::embed_seq;

verus! {

/// Multiplying by a base element seen in the extension is scaling by it.
pub proof fn lemma_mul_embedded(x: Ext, f: int)
    ensures
        ext_mul(x, ext_from_base(f)) == ext_scale(x, f),
{
    assert(x.c0 * f + 11 * (x.c1 * 0 + x.c2 * 0 + x.c3 * 0) == x.c0 * f);
    assert(x.c0 * 0 + x.c1 * f + 11 * (x.c2 * 0 + x.c3 * 0) == x.c1 * f);
    assert(x.c0 * 0 + x.c1 * 0 + x.c2 * f + 11 * (x.c3 * 0) == x.c2 * f);
    assert(x.c0 * 0 + x.c1 * 0 + x.c2 * 0 + x.c3 * f == x.c3 * f);
}

/// The base field lies in the extension with its sum and its product.
pub proof fn lemma_embedding(a: int, b: int)
    ensures
        ext_add(ext_from_base(a), ext_from_base(b)) == ext_from_base(fp_add(a, b)),
        ext_mul(ext_from_base(a), ext_from_base(b)) == ext_from_base(fp_mul(a, b)),
{
    assert(a * b + 11 * (0 * 0 + 0 * 0 + 0 * 0) == a * b);
    assert(a * 0 + 0 * b + 11 * (0 * 0 + 0 * 0) == 0);
    assert(a * 0 + 0 * 0 + 0 * b + 11 * (0 * 0) == 0);
    assert(a * 0 + 0 * 0 + 0 * 0 + 0 * b == 0);
}

/// Zero times anything is zero, and one times zero is zero.
pub proof fn lemma_selected(on: bool, y: Ext)
    ensures
        !on ==> ext_mul(selector(on), y) == ext_zero(),
        on && y == ext_zero() ==> ext_mul(selector(on), y) == ext_zero(),
{
    if !on {
        assert(0 * y.c0 + 11 * (0 * y.c3 + 0 * y.c2 + 0 * y.c1) == 0);
        assert(0 * y.c1 + 0 * y.c0 + 11 * (0 * y.c3 + 0 * y.c2) == 0);
        assert(0 * y.c2 + 0 * y.c1 + 0 * y.c0 + 11 * (0 * y.c3) == 0);
        assert(0 * y.c3 + 0 * y.c2 + 0 * y.c1 + 0 * y.c0 == 0);
    }
}

/// Whether the rows that a frame offers on this row or on the next are the
/// given rows: the base rows seen in the extension, and the permutation row
/// as it is.
pub open spec fn frame_reads(
    frame: Frame,
    next: bool,
    preprocessed_row: Seq<int>,
    main_row: Seq<int>,
    perm_row: Seq<Ext>,
) -> bool {
    if next {
        &&& frame.preprocessed_next == embed_seq(preprocessed_row)
        &&& frame.main_next == embed_seq(main_row)
        &&& frame.permutation_next == perm_row
    } else {
        &&& frame.preprocessed_local == embed_seq(preprocessed_row)
        &&& frame.main_local == embed_seq(main_row)
        &&& frame.permutation_local == perm_row
    }
}

/// A virtual column as an expression evaluates to the value of the column,
/// seen in the extension.
pub proof fn lemma_virtual_column(
    column: VirtualPairCol,
    next: bool,
    n: nat,
    frame: Frame,
    preprocessed_row: Seq<int>,
    main_row: Seq<int>,
    perm_row: Seq<Ext>,
)
    requires
        frame_reads(frame, next, preprocessed_row, main_row, perm_row),
        column.fits(preprocessed_row.len(), main_row.len()),
        n <= column.column_weights@.len(),
    ensures
        virtual_column_expr(column, next, n).eval(frame) == ext_from_base(
            column.partial(preprocessed_row, main_row, n),
        ),
    decreases n,
{
    reveal_with_fuel(SymbolicExpression::eval, 4);
    if n > 0 {
        lemma_virtual_column(
            column,
            next,
            (n - 1) as nat,
            frame,
            preprocessed_row,
            main_row,
            perm_row,
        );
        let term = column.column_weights@[n - 1];
        assert(term.0.fits(preprocessed_row.len(), main_row.len()));
        let cell = term.0.read(preprocessed_row, main_row);
        assert(column_expr(term.0, next).eval(frame) == ext_from_base(cell)) by {
            match term.0 {
                PairCol::Preprocessed(i) => {
                    assert(embed_seq(preprocessed_row)[i as int] == ext_from_base(
                        preprocessed_row[i as int],
                    ));
                },
                PairCol::Main(i) => {
                    assert(embed_seq(main_row)[i as int] == ext_from_base(main_row[i as int]));
                },
            }
        }
        lemma_embedding(cell, term.1@);
        lemma_embedding(
            column.partial(preprocessed_row, main_row, (n - 1) as nat),
            fp_mul(cell, term.1@),
        );
    }
}

/// The combination of the fields of a message as an expression evaluates
/// to the combination of the fields.
pub proof fn lemma_fields(
    fields: Seq<VirtualPairCol>,
    n: nat,
    frame: Frame,
    preprocessed_row: Seq<int>,
    main_row: Seq<int>,
    perm_row: Seq<Ext>,
    beta: Ext,
)
    requires
        frame_reads(frame, false, preprocessed_row, main_row, perm_row),
        frame.challenges.len() == 2,
        frame.challenges[0] == beta,
        n <= fields.len(),
        n <= usize::MAX,
        forall|j: int|
            0 <= j < fields.len() ==> (#[trigger] fields[j]).fits(
                preprocessed_row.len(),
                main_row.len(),
            ),
    ensures
        fields_expr(fields, n).eval(frame) == combine_fields(
            preprocessed_row,
            main_row,
            fields,
            beta,
            n,
        ),
    decreases n,
{
    reveal_with_fuel(SymbolicExpression::eval, 4);
    if n == 0 {
        Fe::lemma_constants();
    } else {
        lemma_fields(fields, (n - 1) as nat, frame, preprocessed_row, main_row, perm_row, beta);
        let field = fields[n - 1];
        lemma_virtual_column(
            field,
            false,
            field.column_weights@.len(),
            frame,
            preprocessed_row,
            main_row,
            perm_row,
        );
        lemma_mul_embedded(ext_pow(beta, (n - 1) as nat), field.value(preprocessed_row, main_row));
        assert(((n - 1) as usize) as nat == (n - 1) as nat);
    }
}

/// The random linear combination of a message as an expression evaluates
/// to the random linear combination of the message.
pub proof fn lemma_message(
    interaction: Interaction,
    frame: Frame,
    preprocessed_row: Seq<int>,
    main_row: Seq<int>,
    perm_row: Seq<Ext>,
    beta: Ext,
    gamma: Ext,
)
    requires
        frame_reads(frame, false, preprocessed_row, main_row, perm_row),
        frame.challenges.len() == 2,
        frame.challenges[0] == beta,
        frame.challenges[1] == gamma,
        interaction.fits(preprocessed_row.len(), main_row.len()),
        interaction.argument_index < usize::MAX,
    ensures
        message_expr(interaction).eval(frame) == message_rlc(
            interaction,
            preprocessed_row,
            main_row,
            beta,
            gamma,
        ),
{
    reveal_with_fuel(SymbolicExpression::eval, 4);
    assert(interaction.fields@.len() == interaction.fields.len());
    lemma_fields(
        interaction.fields@,
        interaction.fields@.len(),
        frame,
        preprocessed_row,
        main_row,
        perm_row,
        beta,
    );
}

/// Every coefficient of `a` differs from the sum of those of `b` and `c` by
/// a multiple of the prime.
pub open spec fn splits(a: Ext, b: Ext, c: Ext) -> bool {
    &&& (a.c0 - b.c0 - c.c0) % modulus() == 0
    &&& (a.c1 - b.c1 - c.c1) % modulus() == 0
    &&& (a.c2 - b.c2 - c.c2) % modulus() == 0
    &&& (a.c3 - b.c3 - c.c3) % modulus() == 0
}

/// Reducing the two sides of a difference does not change its residue.
proof fn lemma_reduced_difference(x: int, y: int, z: int)
    ensures
        (x % modulus() - y % modulus() - z) % modulus() == (x - y - z) % modulus(),
        (x % modulus() - y) % modulus() == (x - y) % modulus(),
{
    let p = modulus();
    lemma_fundamental_div_mod(x, p);
    lemma_fundamental_div_mod(y, p);
    let k = y / p - x / p;
    assert(x - y - z == p * (-k) + (x % p - y % p - z)) by (nonlinear_arith)
        requires
            x == p * (x / p) + x % p,
            y == p * (y / p) + y % p,
            k == y / p - x / p,
    ;
    lemma_mod_multiples_vanish(-k, x % p - y % p - z, p);
    let j = x / p;
    assert(x - y == p * j + (x % p - y)) by (nonlinear_arith)
        requires
            x == p * (x / p) + x % p,
            j == x / p,
    ;
    lemma_mod_multiples_vanish(j, x % p - y, p);
}

/// Adding the same term to, or subtracting it from, both a sum and one of
/// its parts keeps the sum split.
proof fn lemma_splits_step(r: Ext, s: Ext, t: Ext, term: Ext, kind: InteractionType)
    requires
        splits(r, s, t),
    ensures
        kind == InteractionType::Send ==> splits(ext_add(r, term), s, ext_add(t, term)),
        kind == InteractionType::Receive ==> splits(ext_sub(r, term), s, ext_sub(t, term)),
{
    lemma_reduced_difference(r.c0 + term.c0, t.c0 + term.c0, s.c0);
    lemma_reduced_difference(r.c1 + term.c1, t.c1 + term.c1, s.c1);
    lemma_reduced_difference(r.c2 + term.c2, t.c2 + term.c2, s.c2);
    lemma_reduced_difference(r.c3 + term.c3, t.c3 + term.c3, s.c3);
    lemma_reduced_difference(r.c0 - term.c0, t.c0 - term.c0, s.c0);
    lemma_reduced_difference(r.c1 - term.c1, t.c1 - term.c1, s.c1);
    lemma_reduced_difference(r.c2 - term.c2, t.c2 - term.c2, s.c2);
    lemma_reduced_difference(r.c3 - term.c3, t.c3 - term.c3, s.c3);
    assert(r.c0 + term.c0 - (t.c0 + term.c0) - s.c0 == r.c0 - t.c0 - s.c0);
    assert(r.c0 - term.c0 - (t.c0 - term.c0) - s.c0 == r.c0 - t.c0 - s.c0);
}

/// A sum less its two parts is zero.
proof fn lemma_splits_cancel(r: Ext, s: Ext, t: Ext)
    requires
        splits(r, s, t),
    ensures
        ext_sub(ext_sub(r, s), t) == ext_zero(),
        s == ext_zero() ==> ext_sub(r, t) == ext_zero(),
{
    lemma_reduced_difference(r.c0 - s.c0, t.c0, 0);
    lemma_reduced_difference(r.c1 - s.c1, t.c1, 0);
    lemma_reduced_difference(r.c2 - s.c2, t.c2, 0);
    lemma_reduced_difference(r.c3 - s.c3, t.c3, 0);
}

/// The sum of a row that starts with `start` splits into `start` and the
/// value of the terms of the row as an expression.
pub proof fn lemma_terms(
    interactions: Seq<(Interaction, InteractionType)>,
    next: bool,
    m: nat,
    frame: Frame,
    preprocessed_row: Seq<int>,
    main_row: Seq<int>,
    perm_row: Seq<Ext>,
    start: Ext,
)
    requires
        frame_reads(frame, next, preprocessed_row, main_row, perm_row),
        m <= interactions.len(),
        m <= perm_row.len(),
        m <= usize::MAX,
        forall|j: int|
            0 <= j < interactions.len() ==> (#[trigger] interactions[j]).0.fits(
                preprocessed_row.len(),
                main_row.len(),
            ),
    ensures
        splits(
            row_sum(start, perm_row, interactions, preprocessed_row, main_row, m),
            start,
            terms_expr(interactions, next, m).eval(frame),
        ),
    decreases m,
{
    reveal_with_fuel(SymbolicExpression::eval, 4);
    if m == 0 {
        Fe::lemma_constants();
        lemma_mod_self_0(modulus());
        assert(0int % modulus() == 0) by {
            lemma_small_mod(0, modulus() as nat);
        }
    } else {
        lemma_terms(
            interactions,
            next,
            (m - 1) as nat,
            frame,
            preprocessed_row,
            main_row,
            perm_row,
            start,
        );
        let interaction = interactions[m - 1].0;
        let kind = interactions[m - 1].1;
        assert(interaction.fits(preprocessed_row.len(), main_row.len()));
        lemma_virtual_column(
            interaction.count,
            next,
            interaction.count.column_weights@.len(),
            frame,
            preprocessed_row,
            main_row,
            perm_row,
        );
        let mult = interaction.count.value(preprocessed_row, main_row);
        lemma_mul_embedded(perm_row[m - 1], mult);
        let term = ext_scale(perm_row[m - 1], mult);
        assert(((m - 1) as usize) as int == m - 1);
        let cell = SymbolicExpression::Permutation { next, column: (m - 1) as usize };
        assert(cell.eval(frame) == perm_row[m - 1]);
        lemma_splits_step(
            row_sum(start, perm_row, interactions, preprocessed_row, main_row, (m - 1) as nat),
            start,
            terms_expr(interactions, next, (m - 1) as nat).eval(frame),
            term,
            kind,
        );
    }
}

/// What the rows of a well-formed table offer to a frame on row `i`.
proof fn lemma_row_reads(
    perm: Matrix<Ef>,
    preprocessed: Option<Matrix<Fe>>,
    main: Option<Matrix<Fe>>,
    interactions: Seq<(Interaction, InteractionType)>,
    perm_challenges: Seq<Ef>,
    cumulative_sum: Option<Ef>,
    public_values: Seq<Fe>,
    i: int,
    r: int,
)
    requires
        perm.well_formed(),
        perm.rows() == trace_height(preprocessed, main),
        perm.cols() == interactions.len() + 1,
        table_fits(preprocessed, main, interactions),
        preprocessed is Some ==> preprocessed->0.well_formed(),
        main is Some ==> main->0.well_formed(),
        0 <= i < perm.rows(),
        r == i || r == row_after(i, perm.rows() as int),
    ensures
        0 <= r < perm.rows(),
        trace_row(preprocessed, r).len() == trace_width(preprocessed),
        trace_row(main, r).len() == trace_width(main),
        ef_seq(perm.row(r)).len() == interactions.len() + 1,
        frame_reads(
            row_frame(
                preprocessed,
                main,
                Some(perm),
                perm_challenges,
                cumulative_sum,
                public_values,
                i,
            ),
            r != i,
            trace_row(preprocessed, r),
            trace_row(main, r),
            ef_seq(perm.row(r)),
        ) || (r == i && r == row_after(i, perm.rows() as int)),
        r == i ==> frame_reads(
            row_frame(
                preprocessed,
                main,
                Some(perm),
                perm_challenges,
                cumulative_sum,
                public_values,
                i,
            ),
            false,
            trace_row(preprocessed, r),
            trace_row(main, r),
            ef_seq(perm.row(r)),
        ),
        r == row_after(i, perm.rows() as int) ==> frame_reads(
            row_frame(
                preprocessed,
                main,
                Some(perm),
                perm_challenges,
                cumulative_sum,
                public_values,
                i,
            ),
            true,
            trace_row(preprocessed, r),
            trace_row(main, r),
            ef_seq(perm.row(r)),
        ),
{
    perm.lemma_row(r);
    if preprocessed is Some {
        preprocessed->0.lemma_row(r);
    }
    if main is Some {
        main->0.lemma_row(r);
    }
}

/// The constraints of the permutation argument hold on every row of the
/// trace that the generator builds: wherever no random linear combination
/// is zero, a permutation trace of a table, together with the last entry of
/// its running sum as cumulative sum, satisfies the reciprocal constraints
/// and the transition, first-row and last-row constraints of the running
/// sum.
pub proof fn lemma_permutation_trace_satisfies_constraints(
    perm: Matrix<Ef>,
    preprocessed: Option<Matrix<Fe>>,
    main: Option<Matrix<Fe>>,
    interactions: Seq<(Interaction, InteractionType)>,
    perm_challenges: Seq<Ef>,
    cumulative_sum: Ef,
    public_values: Seq<Fe>,
)
    requires
        perm_challenges.len() == 2,
        is_permutation_trace(
            perm,
            preprocessed,
            main,
            interactions,
            perm_challenges[0]@,
            perm_challenges[1]@,
        ),
        table_fits(preprocessed, main, interactions),
        preprocessed is Some ==> preprocessed->0.well_formed(),
        main is Some ==> main->0.well_formed(),
        forall|n: int, m: int|
            0 <= n < perm.rows() && 0 <= m < interactions.len() ==> #[trigger] message_rlc(
                interactions[m].0,
                trace_row(preprocessed, n),
                trace_row(main, n),
                perm_challenges[0]@,
                perm_challenges[1]@,
            ) != ext_zero(),
        perm.rows() > 0 ==> cumulative_sum@ == perm.row(perm.rows() - 1)[interactions.len() as int]@,
    ensures
        satisfied(
            permutation_constraints(interactions),
            preprocessed,
            main,
            Some(perm),
            perm_challenges,
            Some(cumulative_sum),
            public_values,
        ),
{
    let constraints = permutation_constraints(interactions);
    let k = interactions.len() as int;
    assert forall|i: int, j: int|
        0 <= i < trace_height(preprocessed, main) && 0 <= j < constraints.len() implies (
    #[trigger] constraints[j]).eval(
        #[trigger] row_frame(
            preprocessed,
            main,
            Some(perm),
            perm_challenges,
            Some(cumulative_sum),
            public_values,
            i,
        ),
    ) == ext_zero() by {
        if j < k {
            lemma_reciprocal_holds(
                perm,
                preprocessed,
                main,
                interactions,
                perm_challenges,
                cumulative_sum,
                public_values,
                i,
                j,
            );
        } else if j == k {
            lemma_transition_holds(
                perm,
                preprocessed,
                main,
                interactions,
                perm_challenges,
                cumulative_sum,
                public_values,
                i,
            );
        } else if j == k + 1 {
            lemma_first_row_holds(
                perm,
                preprocessed,
                main,
                interactions,
                perm_challenges,
                cumulative_sum,
                public_values,
                i,
            );
        } else {
            lemma_last_row_holds(
                perm,
                preprocessed,
                main,
                interactions,
                perm_challenges,
                cumulative_sum,
                public_values,
                i,
            );
        }
    }
}

/// The reciprocal constraint of interaction `m` holds on row `i`.
proof fn lemma_reciprocal_holds(
    perm: Matrix<Ef>,
    preprocessed: Option<Matrix<Fe>>,
    main: Option<Matrix<Fe>>,
    interactions: Seq<(Interaction, InteractionType)>,
    perm_challenges: Seq<Ef>,
    cumulative_sum: Ef,
    public_values: Seq<Fe>,
    i: int,
    m: int,
)
    requires
        perm_challenges.len() == 2,
        is_permutation_trace(
            perm,
            preprocessed,
            main,
            interactions,
            perm_challenges[0]@,
            perm_challenges[1]@,
        ),
        table_fits(preprocessed, main, interactions),
        preprocessed is Some ==> preprocessed->0.well_formed(),
        main is Some ==> main->0.well_formed(),
        0 <= i < perm.rows(),
        0 <= m < interactions.len(),
        message_rlc(
            interactions[m].0,
            trace_row(preprocessed, i),
            trace_row(main, i),
            perm_challenges[0]@,
            perm_challenges[1]@,
        ) != ext_zero(),
    ensures
        permutation_constraints(interactions)[m].eval(
            row_frame(
                preprocessed,
                main,
                Some(perm),
                perm_challenges,
                Some(cumulative_sum),
                public_values,
                i,
            ),
        ) == ext_zero(),
{
    reveal_with_fuel(SymbolicExpression::eval, 4);
    let frame = row_frame(
        preprocessed,
        main,
        Some(perm),
        perm_challenges,
        Some(cumulative_sum),
        public_values,
        i,
    );
    lemma_row_reads(
        perm,
        preprocessed,
        main,
        interactions,
        perm_challenges,
        Some(cumulative_sum),
        public_values,
        i,
        i,
    );
    let interaction = interactions[m].0;
    assert(interactions[m].0.fits(trace_width(preprocessed), trace_width(main)));
    lemma_message(
        interaction,
        frame,
        trace_row(preprocessed, i),
        trace_row(main, i),
        ef_seq(perm.row(i)),
        perm_challenges[0]@,
        perm_challenges[1]@,
    );
    let rlc = message_rlc(
        interaction,
        trace_row(preprocessed, i),
        trace_row(main, i),
        perm_challenges[0]@,
        perm_challenges[1]@,
    );
    assert(crate::permutation::is_reciprocal(rlc, perm.row(i)[m]@));
    assert(permutation_constraints(interactions)[m] == reciprocal_constraint(
        interaction,
        m as usize,
    ));
    Fe::lemma_constants();
    assert(frame.permutation_local[m] == perm.row(i)[m]@);
    lemma_small_mod(0, modulus() as nat);
}

/// The transition constraint holds on row `i`.
proof fn lemma_transition_holds(
    perm: Matrix<Ef>,
    preprocessed: Option<Matrix<Fe>>,
    main: Option<Matrix<Fe>>,
    interactions: Seq<(Interaction, InteractionType)>,
    perm_challenges: Seq<Ef>,
    cumulative_sum: Ef,
    public_values: Seq<Fe>,
    i: int,
)
    requires
        perm_challenges.len() == 2,
        is_permutation_trace(
            perm,
            preprocessed,
            main,
            interactions,
            perm_challenges[0]@,
            perm_challenges[1]@,
        ),
        table_fits(preprocessed, main, interactions),
        preprocessed is Some ==> preprocessed->0.well_formed(),
        main is Some ==> main->0.well_formed(),
        0 <= i < perm.rows(),
    ensures
        permutation_constraints(interactions)[interactions.len() as int].eval(
            row_frame(
                preprocessed,
                main,
                Some(perm),
                perm_challenges,
                Some(cumulative_sum),
                public_values,
                i,
            ),
        ) == ext_zero(),
{
    reveal_with_fuel(SymbolicExpression::eval, 5);
    let k = interactions.len() as int;
    let height = perm.rows() as int;
    let frame = row_frame(
        preprocessed,
        main,
        Some(perm),
        perm_challenges,
        Some(cumulative_sum),
        public_values,
        i,
    );
    assert(permutation_constraints(interactions)[k] == transition_constraint(interactions));
    let next = row_after(i, height);
    lemma_row_reads(
        perm,
        preprocessed,
        main,
        interactions,
        perm_challenges,
        Some(cumulative_sum),
        public_values,
        i,
        next,
    );
    lemma_row_reads(
        perm,
        preprocessed,
        main,
        interactions,
        perm_challenges,
        Some(cumulative_sum),
        public_values,
        i,
        i,
    );
    let terms = terms_expr(interactions, true, interactions.len()).eval(frame);
    let above = frame.permutation_local[k];
    let below = frame.permutation_next[k];
    let inner = ext_sub(ext_sub(below, above), terms);
    assert((k as usize) as int == k);
    if i == height - 1 {
        lemma_selected(false, inner);
    } else {
        assert(next == i + 1);
        assert(above == perm.row(i)[k]@);
        assert(below == perm.row(i + 1)[k]@);
        assert(sum_above(perm, i + 1) == above);
        lemma_terms(
            interactions,
            true,
            interactions.len(),
            frame,
            trace_row(preprocessed, i + 1),
            trace_row(main, i + 1),
            ef_seq(perm.row(i + 1)),
            above,
        );
        lemma_splits_cancel(below, above, terms);
        lemma_selected(true, inner);
    }
}

/// The value of the first-row constraint on a frame.
proof fn lemma_first_row_value(interactions: Seq<(Interaction, InteractionType)>, frame: Frame)
    requires
        interactions.len() <= usize::MAX,
    ensures
        first_row_constraint(interactions).eval(frame) == ext_mul(
            frame.is_first_row,
            ext_sub(
                frame.permutation_local[interactions.len() as int],
                terms_expr(interactions, false, interactions.len()).eval(frame),
            ),
        ),
{
    reveal_with_fuel(SymbolicExpression::eval, 3);
    assert(((interactions.len() as usize) as int) == interactions.len());
}

/// The first-row constraint holds on row `i`.
proof fn lemma_first_row_holds(
    perm: Matrix<Ef>,
    preprocessed: Option<Matrix<Fe>>,
    main: Option<Matrix<Fe>>,
    interactions: Seq<(Interaction, InteractionType)>,
    perm_challenges: Seq<Ef>,
    cumulative_sum: Ef,
    public_values: Seq<Fe>,
    i: int,
)
    requires
        perm_challenges.len() == 2,
        is_permutation_trace(
            perm,
            preprocessed,
            main,
            interactions,
            perm_challenges[0]@,
            perm_challenges[1]@,
        ),
        table_fits(preprocessed, main, interactions),
        preprocessed is Some ==> preprocessed->0.well_formed(),
        main is Some ==> main->0.well_formed(),
        0 <= i < perm.rows(),
    ensures
        permutation_constraints(interactions)[interactions.len() as int + 1].eval(
            row_frame(
                preprocessed,
                main,
                Some(perm),
                perm_challenges,
                Some(cumulative_sum),
                public_values,
                i,
            ),
        ) == ext_zero(),
{
    let k = interactions.len() as int;
    let frame = row_frame(
        preprocessed,
        main,
        Some(perm),
        perm_challenges,
        Some(cumulative_sum),
        public_values,
        i,
    );
    assert(permutation_constraints(interactions)[k + 1] == first_row_constraint(interactions));
    lemma_first_row_value(interactions, frame);
    let terms = terms_expr(interactions, false, interactions.len()).eval(frame);
    let here = frame.permutation_local[k];
    let inner = ext_sub(here, terms);
    if i == 0 {
        lemma_row_reads(
            perm,
            preprocessed,
            main,
            interactions,
            perm_challenges,
            Some(cumulative_sum),
            public_values,
            0,
            0,
        );
        let row = ef_seq(perm.row(0));
        assert(here == row[k]);
        assert(row[k] == perm.row(0)[k]@);
        assert(sum_above(perm, 0) == ext_zero());
        assert(perm.row(0)[k]@ == row_sum(
            ext_zero(),
            row,
            interactions,
            trace_row(preprocessed, 0),
            trace_row(main, 0),
            interactions.len(),
        ));
        lemma_terms(
            interactions,
            false,
            interactions.len(),
            frame,
            trace_row(preprocessed, 0),
            trace_row(main, 0),
            row,
            ext_zero(),
        );
        lemma_splits_cancel(here, ext_zero(), terms);
        lemma_selected(true, inner);
    } else {
        lemma_selected(false, inner);
    }
}

/// The last-row constraint holds on row `i`.
proof fn lemma_last_row_holds(
    perm: Matrix<Ef>,
    preprocessed: Option<Matrix<Fe>>,
    main: Option<Matrix<Fe>>,
    interactions: Seq<(Interaction, InteractionType)>,
    perm_challenges: Seq<Ef>,
    cumulative_sum: Ef,
    public_values: Seq<Fe>,
    i: int,
)
    requires
        perm_challenges.len() == 2,
        is_permutation_trace(
            perm,
            preprocessed,
            main,
            interactions,
            perm_challenges[0]@,
            perm_challenges[1]@,
        ),
        table_fits(preprocessed, main, interactions),
        preprocessed is Some ==> preprocessed->0.well_formed(),
        main is Some ==> main->0.well_formed(),
        0 <= i < perm.rows(),
        cumulative_sum@ == perm.row(perm.rows() - 1)[interactions.len() as int]@,
    ensures
        permutation_constraints(interactions)[interactions.len() as int + 2].eval(
            row_frame(
                preprocessed,
                main,
                Some(perm),
                perm_challenges,
                Some(cumulative_sum),
                public_values,
                i,
            ),
        ) == ext_zero(),
{
    reveal_with_fuel(SymbolicExpression::eval, 5);
    let k = interactions.len() as int;
    let height = perm.rows() as int;
    let frame = row_frame(
        preprocessed,
        main,
        Some(perm),
        perm_challenges,
        Some(cumulative_sum),
        public_values,
        i,
    );
    assert(permutation_constraints(interactions)[k + 2] == last_row_constraint(interactions));
    lemma_row_reads(
        perm,
        preprocessed,
        main,
        interactions,
        perm_challenges,
        Some(cumulative_sum),
        public_values,
        i,
        i,
    );
    let here = frame.permutation_local[k];
    let inner = ext_sub(here, frame.cumulative_sum);
    assert((k as usize) as int == k);
    if i == height - 1 {
        assert(here == perm.row(i)[k]@);
        lemma_small_mod(0, modulus() as nat);
        assert(inner == ext_zero());
        lemma_selected(true, inner);
    } else {
        lemma_selected(false, inner);
    }
}

} // verus!
