//! Checking the constraints of a table on its concrete traces, row by row.

use vstd::prelude::*;
use vstd::slice::slice_to_vec;
use crate::debug::{
    checkable, first_nonzero, lemma_first_nonzero, permutation_row, permutation_width, row_after,
    row_frame, table_shape, ConstraintViolation, DebugConstraintBuilder, TrackingConstraintBuilder,
};
use crate::entry::{collect_entries, expr_entries, strictly_sorted, Entry};
use crate::extension::{ef_seq, ext_zero, Ef};
use crate::field::Fe;
use crate::matrix::Matrix;
use crate::permutation::{table_height, trace_height};
use crate::quotient::base_rows;
use crate::symbolic::SymbolicExpression;
use crate::window::{all_fit, TwoRowMatrixView};

verus! {

/// Rows `i` and `next` of a permutation trace; two empty rows if the trace
/// is absent.
fn permutation_window(perm: &Option<Matrix<Ef>>, i: usize, next: usize) -> (w: TwoRowMatrixView)
    requires
        perm is Some ==> i < perm->0.rows() && next < perm->0.rows(),
    ensures
        ef_seq(w.local@) == permutation_row(*perm, i as int),
        ef_seq(w.next@) == permutation_row(*perm, next as int),
        w.local@.len() == permutation_width(*perm),
        w.next@.len() == permutation_width(*perm),
{
    match perm {
        Some(m) => TwoRowMatrixView::new(
            slice_to_vec(m.row_slice(i)),
            slice_to_vec(m.row_slice(next)),
        ),
        None => {
            let w = TwoRowMatrixView::empty();
            proof {
                assert(ef_seq(w.local@) =~= permutation_row(*perm, i as int));
                assert(ef_seq(w.next@) =~= permutation_row(*perm, next as int));
            }
            w
        },
    }
}

/// One if `on`, else zero.
fn selector_value(on: bool) -> (r: Ef)
    ensures
        r@ == crate::debug::selector(on),
{
    if on {
        Ef::one()
    } else {
        Ef::zero()
    }
}

/// The cumulative sum that a table claims, zero if it claims none.
fn sum_or_zero(cumulative_sum: Option<Ef>) -> (r: Ef)
    ensures
        r@ == crate::debug::claimed_sum(cumulative_sum),
{
    match cumulative_sum {
        Some(c) => c,
        None => Ef::zero(),
    }
}

/// Tests whether the traces of a table can be checked row by row.
pub fn check_checkable(
    constraints: &[SymbolicExpression],
    preprocessed: &Option<Matrix<Fe>>,
    main: &Option<Matrix<Fe>>,
    perm: &Option<Matrix<Ef>>,
    public_values: &[Fe],
) -> (r: bool)
    ensures
        r == checkable(constraints@, *preprocessed, *main, *perm, public_values@),
{
    match preprocessed {
        Some(p) => match main {
            Some(m) => {
                if p.height() != m.height() {
                    return false;
                }
            },
            None => {},
        },
        None => {},
    }
    let height: usize = table_height(preprocessed.as_ref(), main.as_ref());
    match perm {
        Some(p) => {
            if p.height() != height {
                return false;
            }
        },
        None => {},
    }
    if height == 0 {
        return true;
    }
    let shape = crate::symbolic::Shape {
        preprocessed_width: match preprocessed {
            Some(m) => m.width(),
            None => 0,
        },
        main_width: match main {
            Some(m) => m.width(),
            None => 0,
        },
        permutation_width: match perm {
            Some(m) => m.width(),
            None => 0,
        },
        public_values: public_values.len(),
        challenges: 2,
    };
    proof {
        assert(shape == table_shape(*preprocessed, *main, *perm, public_values@));
    }
    crate::window::constraints_fit(constraints, &shape)
}

/// Whether every constraint is zero on every row of the table.
pub open spec fn satisfied(
    constraints: Seq<SymbolicExpression>,
    preprocessed: Option<Matrix<Fe>>,
    main: Option<Matrix<Fe>>,
    perm: Option<Matrix<Ef>>,
    perm_challenges: Seq<Ef>,
    cumulative_sum: Option<Ef>,
    public_values: Seq<Fe>,
) -> bool {
    forall|i: int, j: int|
        0 <= i < trace_height(preprocessed, main) && 0 <= j < constraints.len() ==> (
        #[trigger] constraints[j]).eval(
            #[trigger] row_frame(
                preprocessed,
                main,
                perm,
                perm_challenges,
                cumulative_sum,
                public_values,
                i,
            ),
        ) == ext_zero()
}

/// Checks that every constraint holds on every row of the traces of a
/// table, the window wrapping from the last row to the first. Where one
/// does not, the first such row is reported with the first constraint that
/// fails on it.
pub fn check_constraints(
    constraints: &[SymbolicExpression],
    preprocessed: &Option<Matrix<Fe>>,
    main: &Option<Matrix<Fe>>,
    perm: &Option<Matrix<Ef>>,
    perm_challenges: [Ef; 2],
    cumulative_sum: Option<Ef>,
    public_values: &[Fe],
) -> (r: Result<(), ConstraintViolation>)
    requires
        checkable(constraints@, *preprocessed, *main, *perm, public_values@),
    ensures
        r is Ok <==> satisfied(
            constraints@,
            *preprocessed,
            *main,
            *perm,
            perm_challenges@,
            cumulative_sum,
            public_values@,
        ),
        r matches Err(v) ==> {
            let height = trace_height(*preprocessed, *main) as int;
            &&& v.row < height
            &&& forall|i: int|
                0 <= i < v.row ==> first_nonzero(
                    constraints@,
                    #[trigger] row_frame(
                        *preprocessed,
                        *main,
                        *perm,
                        perm_challenges@,
                        cumulative_sum,
                        public_values@,
                        i,
                    ),
                    constraints@.len(),
                ) is None
            &&& first_nonzero(
                constraints@,
                row_frame(
                    *preprocessed,
                    *main,
                    *perm,
                    perm_challenges@,
                    cumulative_sum,
                    public_values@,
                    v.row as int,
                ),
                constraints@.len(),
            ) == Some(v.constraint)
            &&& v.constraint < constraints@.len()
            &&& strictly_sorted(v.contributing_entries@)
            &&& forall|x: Entry|
                v.contributing_entries@.contains(x) <==> expr_entries(
                    constraints@[v.constraint as int],
                    v.row,
                    row_after(v.row as int, height) as usize,
                ).contains(x)
        },
{
    let height: usize = table_height(preprocessed.as_ref(), main.as_ref());
    let total: usize = constraints.len();
    let sum = sum_or_zero(cumulative_sum);
    let mut i: usize = 0;
    while i < height
        invariant
            i <= height,
            total == constraints@.len(),
            height == trace_height(*preprocessed, *main),
            sum@ == crate::debug::claimed_sum(cumulative_sum),
            checkable(constraints@, *preprocessed, *main, *perm, public_values@),
            forall|i1: int|
                0 <= i1 < i ==> first_nonzero(
                    constraints@,
                    #[trigger] row_frame(
                        *preprocessed,
                        *main,
                        *perm,
                        perm_challenges@,
                        cumulative_sum,
                        public_values@,
                        i1,
                    ),
                    constraints@.len(),
                ) is None,
        decreases height - i,
    {
        let next: usize = if i + 1 == height {
            0
        } else {
            i + 1
        };
        let mut builder = DebugConstraintBuilder {
            row_index: i,
            preprocessed: base_rows(preprocessed.as_ref(), i, next),
            main: base_rows(main.as_ref(), i, next),
            permutation: permutation_window(perm, i, next),
            perm_challenges,
            public_values: slice_to_vec(public_values),
            cumulative_sum: sum,
            is_first_row: selector_value(i == 0),
            is_last_row: selector_value(i == height - 1),
            is_transition: selector_value(i != height - 1),
            asserted: 0,
            failed: None,
        };
        let ghost frame = row_frame(
            *preprocessed,
            *main,
            *perm,
            perm_challenges@,
            cumulative_sum,
            public_values@,
            i as int,
        );
        proof {
            assert(builder.frame() == frame);
            assert(builder.shape() == table_shape(*preprocessed, *main, *perm, public_values@));
        }
        builder.eval_all(constraints);
        match builder.failed {
            Some(j) => {
                proof {
                    lemma_first_nonzero(constraints@, frame, constraints@.len());
                }
                let mut entries: Vec<Entry> = Vec::new();
                collect_entries(&constraints[j], i, next, &mut entries);
                return Err(ConstraintViolation { row: i, constraint: j, contributing_entries: entries });
            },
            None => {},
        }
        i += 1;
    }
    proof {
        assert forall|i1: int, j: int|
            0 <= i1 < trace_height(*preprocessed, *main) && 0 <= j
                < constraints@.len() implies (#[trigger] constraints@[j]).eval(
            #[trigger] row_frame(
                *preprocessed,
                *main,
                *perm,
                perm_challenges@,
                cumulative_sum,
                public_values@,
                i1,
            ),
        ) == ext_zero() by {
            let frame = row_frame(
                *preprocessed,
                *main,
                *perm,
                perm_challenges@,
                cumulative_sum,
                public_values@,
                i1,
            );
            assert(first_nonzero(constraints@, frame, constraints@.len()) is None);
            lemma_first_nonzero(constraints@, frame, constraints@.len());
        }
    }
    Ok(())
}

/// Whether constraint `j` fails on row `i` and reads `x` there.
pub open spec fn blames(
    constraints: Seq<SymbolicExpression>,
    preprocessed: Option<Matrix<Fe>>,
    main: Option<Matrix<Fe>>,
    perm: Option<Matrix<Ef>>,
    perm_challenges: Seq<Ef>,
    cumulative_sum: Option<Ef>,
    public_values: Seq<Fe>,
    i: int,
    j: int,
    x: Entry,
) -> bool {
    let height = trace_height(preprocessed, main) as int;
    &&& constraints[j].eval(
        row_frame(preprocessed, main, perm, perm_challenges, cumulative_sum, public_values, i),
    ) != ext_zero()
    &&& expr_entries(constraints[j], i as usize, row_after(i, height) as usize).contains(x)
}

/// Whether some constraint fails on some row before row `i`, or on row `i`
/// among the first `j` constraints, and reads `x` there.
pub open spec fn blamed_before(
    constraints: Seq<SymbolicExpression>,
    preprocessed: Option<Matrix<Fe>>,
    main: Option<Matrix<Fe>>,
    perm: Option<Matrix<Ef>>,
    perm_challenges: Seq<Ef>,
    cumulative_sum: Option<Ef>,
    public_values: Seq<Fe>,
    i: int,
    j: int,
    x: Entry,
) -> bool {
    exists|i1: int, j1: int|
        0 <= i1 && 0 <= j1 < constraints.len() && (i1 < i || (i1 == i && j1 < j))
            && #[trigger] blames(
            constraints,
            preprocessed,
            main,
            perm,
            perm_challenges,
            cumulative_sum,
            public_values,
            i1,
            j1,
            x,
        )
}

/// Whether some constraint fails on some row of the table and reads `x`
/// there.
pub open spec fn blamed(
    constraints: Seq<SymbolicExpression>,
    preprocessed: Option<Matrix<Fe>>,
    main: Option<Matrix<Fe>>,
    perm: Option<Matrix<Ef>>,
    perm_challenges: Seq<Ef>,
    cumulative_sum: Option<Ef>,
    public_values: Seq<Fe>,
    x: Entry,
) -> bool {
    blamed_before(
        constraints,
        preprocessed,
        main,
        perm,
        perm_challenges,
        cumulative_sum,
        public_values,
        trace_height(preprocessed, main) as int,
        0,
        x,
    )
}

/// Checks every constraint on every row of the traces of a table, and
/// returns, in order and each once, the cells and public values that the
/// failing constraints read.
pub fn check_constraints_and_track(
    constraints: &[SymbolicExpression],
    preprocessed: &Option<Matrix<Fe>>,
    main: &Option<Matrix<Fe>>,
    permutation: &Option<Matrix<Ef>>,
    perm_challenges: [Ef; 2],
    cumulative_sum: Option<Ef>,
    public_values: &[Fe],
) -> (r: Vec<Entry>)
    requires
        checkable(constraints@, *preprocessed, *main, *permutation, public_values@),
    ensures
        strictly_sorted(r@),
        forall|x: Entry|
            r@.contains(x) <==> blamed(
                constraints@,
                *preprocessed,
                *main,
                *permutation,
                perm_challenges@,
                cumulative_sum,
                public_values@,
                x,
            ),
{
    let height: usize = table_height(preprocessed.as_ref(), main.as_ref());
    let sum = sum_or_zero(cumulative_sum);
    let mut indices: Vec<Entry> = Vec::new();
    let mut i: usize = 0;
    while i < height
        invariant
            i <= height,
            height == trace_height(*preprocessed, *main),
            sum@ == crate::debug::claimed_sum(cumulative_sum),
            checkable(constraints@, *preprocessed, *main, *permutation, public_values@),
            strictly_sorted(indices@),
            forall|x: Entry|
                indices@.contains(x) <==> blamed_before(
                    constraints@,
                    *preprocessed,
                    *main,
                    *permutation,
                    perm_challenges@,
                    cumulative_sum,
                    public_values@,
                    i as int,
                    0,
                    x,
                ),
        decreases height - i,
    {
        let next: usize = if i + 1 == height {
            0
        } else {
            i + 1
        };
        let mut builder = TrackingConstraintBuilder {
            row_index: i,
            next_row_index: next,
            entries: indices,
            preprocessed: base_rows(preprocessed.as_ref(), i, next),
            main: base_rows(main.as_ref(), i, next),
            permutation: permutation_window(permutation, i, next),
            perm_challenges,
            public_values: slice_to_vec(public_values),
            cumulative_sum: sum,
            is_first_row: selector_value(i == 0),
            is_last_row: selector_value(i == height - 1),
            is_transition: selector_value(i != height - 1),
        };
        let ghost frame = row_frame(
            *preprocessed,
            *main,
            *permutation,
            perm_challenges@,
            cumulative_sum,
            public_values@,
            i as int,
        );
        proof {
            assert(builder.frame() == frame);
            assert(builder.shape() == table_shape(
                *preprocessed,
                *main,
                *permutation,
                public_values@,
            ));
        }
        let mut j: usize = 0;
        while j < constraints.len()
            invariant
                j <= constraints@.len(),
                i < height,
                height == trace_height(*preprocessed, *main),
                next == row_after(i as int, height as int),
                builder.aligned(),
                builder.frame() == frame,
                frame == row_frame(
                    *preprocessed,
                    *main,
                    *permutation,
                    perm_challenges@,
                    cumulative_sum,
                    public_values@,
                    i as int,
                ),
                builder.row_index == i,
                builder.next_row_index == next,
                all_fit(constraints@, builder.shape()),
                strictly_sorted(builder.entries@),
                forall|x: Entry|
                    builder.entries@.contains(x) <==> blamed_before(
                        constraints@,
                        *preprocessed,
                        *main,
                        *permutation,
                        perm_challenges@,
                        cumulative_sum,
                        public_values@,
                        i as int,
                        j as int,
                        x,
                    ),
            decreases constraints@.len() - j,
        {
            let value = builder.track(&constraints[j]);
            let ghost before = builder.entries@;
            builder.assert_zero(&value);
            proof {
                assert forall|x: Entry|
                    builder.entries@.contains(x) <==> blamed_before(
                        constraints@,
                        *preprocessed,
                        *main,
                        *permutation,
                        perm_challenges@,
                        cumulative_sum,
                        public_values@,
                        i as int,
                        j + 1,
                        x,
                    ) by {
                    lemma_blamed_step(
                        constraints@,
                        *preprocessed,
                        *main,
                        *permutation,
                        perm_challenges@,
                        cumulative_sum,
                        public_values@,
                        i as int,
                        j as int,
                        x,
                    );
                }
            }
            j += 1;
        }
        indices = builder.entries;
        proof {
            assert forall|x: Entry|
                indices@.contains(x) <==> blamed_before(
                    constraints@,
                    *preprocessed,
                    *main,
                    *permutation,
                    perm_challenges@,
                    cumulative_sum,
                    public_values@,
                    i + 1,
                    0,
                    x,
                ) by {
                lemma_blamed_row(
                    constraints@,
                    *preprocessed,
                    *main,
                    *permutation,
                    perm_challenges@,
                    cumulative_sum,
                    public_values@,
                    i as int,
                    x,
                );
            }
        }
        i += 1;
    }
    indices
}

/// What is blamed before constraint `j + 1` of row `i` is what was blamed
/// before constraint `j`, and what constraint `j` is blamed for.
pub proof fn lemma_blamed_step(
    constraints: Seq<SymbolicExpression>,
    preprocessed: Option<Matrix<Fe>>,
    main: Option<Matrix<Fe>>,
    perm: Option<Matrix<Ef>>,
    perm_challenges: Seq<Ef>,
    cumulative_sum: Option<Ef>,
    public_values: Seq<Fe>,
    i: int,
    j: int,
    x: Entry,
)
    requires
        0 <= i,
        0 <= j < constraints.len(),
    ensures
        blamed_before(
            constraints,
            preprocessed,
            main,
            perm,
            perm_challenges,
            cumulative_sum,
            public_values,
            i,
            j + 1,
            x,
        ) <==> (blamed_before(
            constraints,
            preprocessed,
            main,
            perm,
            perm_challenges,
            cumulative_sum,
            public_values,
            i,
            j,
            x,
        ) || blames(
            constraints,
            preprocessed,
            main,
            perm,
            perm_challenges,
            cumulative_sum,
            public_values,
            i,
            j,
            x,
        )),
{
    if blamed_before(
        constraints,
        preprocessed,
        main,
        perm,
        perm_challenges,
        cumulative_sum,
        public_values,
        i,
        j + 1,
        x,
    ) {
        let (i1, j1) = choose|i1: int, j1: int|
            0 <= i1 && 0 <= j1 < constraints.len() && (i1 < i || (i1 == i && j1 < j + 1))
                && #[trigger] blames(
                constraints,
                preprocessed,
                main,
                perm,
                perm_challenges,
                cumulative_sum,
                public_values,
                i1,
                j1,
                x,
            );
        if !(i1 == i && j1 == j) {
            assert(0 <= i1 && 0 <= j1 < constraints.len() && (i1 < i || (i1 == i && j1 < j))
                && blames(
                constraints,
                preprocessed,
                main,
                perm,
                perm_challenges,
                cumulative_sum,
                public_values,
                i1,
                j1,
                x,
            ));
        }
    }
    if blamed_before(
        constraints,
        preprocessed,
        main,
        perm,
        perm_challenges,
        cumulative_sum,
        public_values,
        i,
        j,
        x,
    ) {
        let (i1, j1) = choose|i1: int, j1: int|
            0 <= i1 && 0 <= j1 < constraints.len() && (i1 < i || (i1 == i && j1 < j))
                && #[trigger] blames(
                constraints,
                preprocessed,
                main,
                perm,
                perm_challenges,
                cumulative_sum,
                public_values,
                i1,
                j1,
                x,
            );
        assert(0 <= i1 && 0 <= j1 < constraints.len() && (i1 < i || (i1 == i && j1 < j + 1))
            && blames(
            constraints,
            preprocessed,
            main,
            perm,
            perm_challenges,
            cumulative_sum,
            public_values,
            i1,
            j1,
            x,
        ));
    }
    if blames(
        constraints,
        preprocessed,
        main,
        perm,
        perm_challenges,
        cumulative_sum,
        public_values,
        i,
        j,
        x,
    ) {
        assert(0 <= i && 0 <= j < constraints.len() && (i < i || (i == i && j < j + 1)) && blames(
            constraints,
            preprocessed,
            main,
            perm,
            perm_challenges,
            cumulative_sum,
            public_values,
            i,
            j,
            x,
        ));
    }
}

/// What is blamed after all constraints of row `i` is what is blamed before
/// the first constraint of row `i + 1`.
pub proof fn lemma_blamed_row(
    constraints: Seq<SymbolicExpression>,
    preprocessed: Option<Matrix<Fe>>,
    main: Option<Matrix<Fe>>,
    perm: Option<Matrix<Ef>>,
    perm_challenges: Seq<Ef>,
    cumulative_sum: Option<Ef>,
    public_values: Seq<Fe>,
    i: int,
    x: Entry,
)
    requires
        0 <= i,
    ensures
        blamed_before(
            constraints,
            preprocessed,
            main,
            perm,
            perm_challenges,
            cumulative_sum,
            public_values,
            i,
            constraints.len() as int,
            x,
        ) <==> blamed_before(
            constraints,
            preprocessed,
            main,
            perm,
            perm_challenges,
            cumulative_sum,
            public_values,
            i + 1,
            0,
            x,
        ),
{
    if blamed_before(
        constraints,
        preprocessed,
        main,
        perm,
        perm_challenges,
        cumulative_sum,
        public_values,
        i,
        constraints.len() as int,
        x,
    ) {
        let (i1, j1) = choose|i1: int, j1: int|
            0 <= i1 && 0 <= j1 < constraints.len() && (i1 < i || (i1 == i && j1
                < constraints.len())) && #[trigger] blames(
                constraints,
                preprocessed,
                main,
                perm,
                perm_challenges,
                cumulative_sum,
                public_values,
                i1,
                j1,
                x,
            );
        assert(0 <= i1 && 0 <= j1 < constraints.len() && (i1 < i + 1 || (i1 == i + 1 && j1 < 0))
            && blames(
            constraints,
            preprocessed,
            main,
            perm,
            perm_challenges,
            cumulative_sum,
            public_values,
            i1,
            j1,
            x,
        ));
    }
    if blamed_before(
        constraints,
        preprocessed,
        main,
        perm,
        perm_challenges,
        cumulative_sum,
        public_values,
        i + 1,
        0,
        x,
    ) {
        let (i1, j1) = choose|i1: int, j1: int|
            0 <= i1 && 0 <= j1 < constraints.len() && (i1 < i + 1 || (i1 == i + 1 && j1 < 0))
                && #[trigger] blames(
                constraints,
                preprocessed,
                main,
                perm,
                perm_challenges,
                cumulative_sum,
                public_values,
                i1,
                j1,
                x,
            );
        assert(0 <= i1 && 0 <= j1 < constraints.len() && (i1 < i || (i1 == i && j1
            < constraints.len())) && blames(
            constraints,
            preprocessed,
            main,
            perm,
            perm_challenges,
            cumulative_sum,
            public_values,
            i1,
            j1,
            x,
        ));
    }
}

} // verus!
