//! The checking builders: they evaluate every constraint on every row of
//! concrete traces. The debug builder stops at the first constraint that
//! does not hold; the tracking builder goes on and names every cell that a
//! failing constraint read.

use vstd::prelude::*;
use crate::entry::{collect_entries, expr_entries, insert_entry, strictly_sorted, Entry};
use crate::extension::{ef_seq, ext_from_base, ext_zero, Ef, Ext};
use crate::field::Fe;
use crate::matrix::Matrix;
use crate::permutation::{trace_height, trace_row, trace_width};
use crate::symbolic::{Frame, Shape, SymbolicExpression};
use crate::window::{
    all_fit, embed_seq, evaluate, frame_of, public_seq, shape_of, TwoRowMatrixView,
};

verus! {

/// A constraint that does not hold: the row, the position of the constraint
/// among those asserted on that row, and the cells that it read.
#[derive(Clone, Debug)]
pub struct ConstraintViolation {
    pub row: usize,
    pub constraint: usize,
    pub contributing_entries: Vec<Entry>,
}

/// The value of a selector that is on or off.
pub open spec fn selector(on: bool) -> Ext {
    ext_from_base(
        if on {
            1
        } else {
            0
        },
    )
}

/// Row `n` of a permutation trace; every row of an absent trace is empty.
pub open spec fn permutation_row(perm: Option<Matrix<Ef>>, n: int) -> Seq<Ext> {
    match perm {
        Some(p) => ef_seq(p.row(n)),
        None => Seq::empty(),
    }
}

/// The width of a permutation trace; an absent trace has width zero.
pub open spec fn permutation_width(perm: Option<Matrix<Ef>>) -> nat {
    match perm {
        Some(p) => p.cols(),
        None => 0,
    }
}

/// The row after row `i` in a table of `height` rows; the last row is
/// followed by the first.
pub open spec fn row_after(i: int, height: int) -> int {
    if i + 1 == height {
        0
    } else {
        i + 1
    }
}

/// The cumulative sum that a table claims, zero if it claims none.
pub open spec fn claimed_sum(cumulative_sum: Option<Ef>) -> Ext {
    match cumulative_sum {
        Some(c) => c@,
        None => ext_zero(),
    }
}

/// What the constraints read when the window stands on row `i` of a table:
/// the cells of that row and of the row after it, the rows of an absent
/// trace being empty, and the selectors of the first row, of the last row
/// and of the rows that have a successor as one or zero.
pub open spec fn row_frame(
    preprocessed: Option<Matrix<Fe>>,
    main: Option<Matrix<Fe>>,
    perm: Option<Matrix<Ef>>,
    perm_challenges: Seq<Ef>,
    cumulative_sum: Option<Ef>,
    public_values: Seq<Fe>,
    i: int,
) -> Frame {
    let height = trace_height(preprocessed, main) as int;
    let next = row_after(i, height);
    Frame {
        preprocessed_local: embed_seq(trace_row(preprocessed, i)),
        preprocessed_next: embed_seq(trace_row(preprocessed, next)),
        main_local: embed_seq(trace_row(main, i)),
        main_next: embed_seq(trace_row(main, next)),
        permutation_local: permutation_row(perm, i),
        permutation_next: permutation_row(perm, next),
        public_values: public_seq(public_values),
        challenges: ef_seq(perm_challenges),
        cumulative_sum: claimed_sum(cumulative_sum),
        is_first_row: selector(i == 0),
        is_last_row: selector(i == height - 1),
        is_transition: selector(i != height - 1),
    }
}

/// The sizes of what the traces of a table offer to its constraints.
pub open spec fn table_shape(
    preprocessed: Option<Matrix<Fe>>,
    main: Option<Matrix<Fe>>,
    perm: Option<Matrix<Ef>>,
    public_values: Seq<Fe>,
) -> Shape {
    Shape {
        preprocessed_width: trace_width(preprocessed) as usize,
        main_width: trace_width(main) as usize,
        permutation_width: permutation_width(perm) as usize,
        public_values: public_values.len() as usize,
        challenges: 2,
    }
}

/// Whether the traces of a table can be checked row by row: those that are
/// present have the same height, and, where the table has rows, every
/// constraint reads only what they offer. Of a table without rows nothing
/// is read, so nothing is asked of its constraints.
pub open spec fn checkable(
    constraints: Seq<SymbolicExpression>,
    preprocessed: Option<Matrix<Fe>>,
    main: Option<Matrix<Fe>>,
    perm: Option<Matrix<Ef>>,
    public_values: Seq<Fe>,
) -> bool {
    &&& preprocessed is Some && main is Some ==> preprocessed->0.rows() == main->0.rows()
    &&& perm is Some ==> perm->0.rows() == trace_height(preprocessed, main)
    &&& trace_height(preprocessed, main) > 0 ==> all_fit(
        constraints,
        table_shape(preprocessed, main, perm, public_values),
    )
}

/// The position of the first among the first `n` constraints whose value on
/// the frame is not zero.
pub open spec fn first_nonzero(constraints: Seq<SymbolicExpression>, frame: Frame, n: nat) -> Option<
    usize,
>
    decreases n,
{
    if n == 0 {
        None
    } else {
        let before = first_nonzero(constraints, frame, (n - 1) as nat);
        if before is Some {
            before
        } else if constraints[n - 1].eval(frame) != ext_zero() {
            Some((n - 1) as usize)
        } else {
            None
        }
    }
}

/// No constraint is found exactly when every constraint is zero.
pub proof fn lemma_first_nonzero(constraints: Seq<SymbolicExpression>, frame: Frame, n: nat)
    requires
        n <= constraints.len(),
        n <= usize::MAX,
    ensures
        first_nonzero(constraints, frame, n) is None <==> forall|j: int|
            0 <= j < n ==> (#[trigger] constraints[j]).eval(frame) == ext_zero(),
        first_nonzero(constraints, frame, n) matches Some(j) ==> j < n && constraints[j as int].eval(
            frame,
        ) != ext_zero() && forall|j2: int|
            0 <= j2 < j ==> (#[trigger] constraints[j2]).eval(frame) == ext_zero(),
    decreases n,
{
    if n > 0 {
        lemma_first_nonzero(constraints, frame, (n - 1) as nat);
    }
}

/// The builder that checks constraints on one row of concrete traces.
#[derive(Clone, Debug)]
pub struct DebugConstraintBuilder {
    pub row_index: usize,
    pub preprocessed: TwoRowMatrixView,
    pub main: TwoRowMatrixView,
    pub permutation: TwoRowMatrixView,
    pub perm_challenges: [Ef; 2],
    pub public_values: Vec<Fe>,
    pub cumulative_sum: Ef,
    pub is_first_row: Ef,
    pub is_last_row: Ef,
    pub is_transition: Ef,
    /// How many values have been asserted.
    pub asserted: usize,
    /// The position of the first asserted value that was not zero.
    pub failed: Option<usize>,
}

impl DebugConstraintBuilder {
    /// Whether the two rows of each window have the same width.
    pub open spec fn aligned(self) -> bool {
        self.preprocessed.aligned() && self.main.aligned() && self.permutation.aligned()
    }

    /// The sizes of what the builder offers to an expression.
    pub open spec fn shape(self) -> Shape {
        shape_of(self.preprocessed, self.main, self.permutation, self.public_values@)
    }

    /// The values that an expression reads from the builder.
    pub open spec fn frame(self) -> Frame {
        frame_of(
            self.preprocessed,
            self.main,
            self.permutation,
            self.perm_challenges@,
            self.public_values@,
            self.cumulative_sum,
            self.is_first_row,
            self.is_last_row,
            self.is_transition,
        )
    }

    pub fn main(&self) -> (r: &TwoRowMatrixView)
        ensures
            *r == self.main,
    {
        &self.main
    }

    pub fn preprocessed(&self) -> (r: &TwoRowMatrixView)
        ensures
            *r == self.preprocessed,
    {
        &self.preprocessed
    }

    pub fn permutation(&self) -> (r: &TwoRowMatrixView)
        ensures
            *r == self.permutation,
    {
        &self.permutation
    }

    pub fn permutation_randomness(&self) -> (r: &[Ef; 2])
        ensures
            *r == self.perm_challenges,
    {
        &self.perm_challenges
    }

    pub fn public_values(&self) -> (r: &Vec<Fe>)
        ensures
            *r == self.public_values,
    {
        &self.public_values
    }

    pub fn is_first_row(&self) -> (r: Ef)
        ensures
            r == self.is_first_row,
    {
        self.is_first_row
    }

    pub fn is_last_row(&self) -> (r: Ef)
        ensures
            r == self.is_last_row,
    {
        self.is_last_row
    }

    /// The selector of the rows that have a successor. Only windows of two
    /// rows exist.
    pub fn is_transition_window(&self, size: usize) -> (r: Ef)
        requires
            size == 2,
        ensures
            r == self.is_transition,
    {
        self.is_transition
    }

    /// Checks that `x` is zero, and remembers the first value that was not.
    pub fn assert_zero(&mut self, x: Ef)
        requires
            old(self).asserted < usize::MAX,
        ensures
            final(self).asserted == old(self).asserted + 1,
            final(self).failed == (if old(self).failed is None && x@ != ext_zero() {
                Some(old(self).asserted)
            } else {
                old(self).failed
            }),
            *final(self) == (DebugConstraintBuilder {
                asserted: final(self).asserted,
                failed: final(self).failed,
                ..*old(self)
            }),
    {
        if self.failed.is_none() && !x.is_zero() {
            self.failed = Some(self.asserted);
        }
        self.asserted = self.asserted + 1;
    }

    /// Checks that the extension value `x` is zero, and remembers the first
    /// value that was not.
    pub fn assert_zero_ext(&mut self, x: Ef)
        requires
            old(self).asserted < usize::MAX,
        ensures
            final(self).asserted == old(self).asserted + 1,
            final(self).failed == (if old(self).failed is None && x@ != ext_zero() {
                Some(old(self).asserted)
            } else {
                old(self).failed
            }),
            *final(self) == (DebugConstraintBuilder {
                asserted: final(self).asserted,
                failed: final(self).failed,
                ..*old(self)
            }),
    {
        self.assert_zero(x);
    }

    /// The value of an expression on the builder's window.
    pub fn eval(&self, e: &SymbolicExpression) -> (r: Ef)
        requires
            self.aligned(),
            e.fits(self.shape()),
        ensures
            r@ == e.eval(self.frame()),
    {
        evaluate(
            e,
            &self.preprocessed,
            &self.main,
            &self.permutation,
            &self.perm_challenges,
            &self.public_values,
            self.cumulative_sum,
            self.is_first_row,
            self.is_last_row,
            self.is_transition,
        )
    }

    /// Evaluates and checks every constraint, in order.
    pub fn eval_all(&mut self, constraints: &[SymbolicExpression])
        requires
            old(self).aligned(),
            old(self).asserted == 0,
            old(self).failed is None,
            all_fit(constraints@, old(self).shape()),
        ensures
            final(self).failed == first_nonzero(
                constraints@,
                old(self).frame(),
                constraints@.len(),
            ),
            final(self).asserted == constraints@.len(),
            *final(self) == (DebugConstraintBuilder {
                asserted: final(self).asserted,
                failed: final(self).failed,
                ..*old(self)
            }),
    {
        let mut j: usize = 0;
        while j < constraints.len()
            invariant
                j <= constraints@.len(),
                self.aligned(),
                all_fit(constraints@, self.shape()),
                self.asserted == j,
                self.failed == first_nonzero(constraints@, old(self).frame(), j as nat),
                *self == (DebugConstraintBuilder {
                    asserted: self.asserted,
                    failed: self.failed,
                    ..*old(self)
                }),
            decreases constraints@.len() - j,
        {
            let x = self.eval(&constraints[j]);
            self.assert_zero_ext(x);
            j += 1;
        }
    }
}

/// A value together with the cells it was computed from.
#[derive(Clone, Debug)]
pub struct TrackedFieldExpression {
    pub value: Ef,
    pub entries: Vec<Entry>,
}

/// Whether `after` holds what `before` held and, if the value of `x` is not
/// zero, the cells that `x` was computed from.
pub open spec fn joined(before: Seq<Entry>, after: Seq<Entry>, x: TrackedFieldExpression) -> bool {
    forall|e: Entry|
        after.contains(e) <==> (before.contains(e) || (x.value@ != ext_zero()
            && x.entries@.contains(e)))
}

/// The builder that checks constraints on one row of concrete traces and
/// collects the cells that the failing constraints read.
#[derive(Clone, Debug)]
pub struct TrackingConstraintBuilder {
    pub row_index: usize,
    pub next_row_index: usize,
    pub entries: Vec<Entry>,
    pub preprocessed: TwoRowMatrixView,
    pub main: TwoRowMatrixView,
    pub permutation: TwoRowMatrixView,
    pub perm_challenges: [Ef; 2],
    pub public_values: Vec<Fe>,
    pub cumulative_sum: Ef,
    pub is_first_row: Ef,
    pub is_last_row: Ef,
    pub is_transition: Ef,
}

impl TrackingConstraintBuilder {
    /// Whether the two rows of each window have the same width.
    pub open spec fn aligned(self) -> bool {
        self.preprocessed.aligned() && self.main.aligned() && self.permutation.aligned()
    }

    /// The sizes of what the builder offers to an expression.
    pub open spec fn shape(self) -> Shape {
        shape_of(self.preprocessed, self.main, self.permutation, self.public_values@)
    }

    /// The values that an expression reads from the builder.
    pub open spec fn frame(self) -> Frame {
        frame_of(
            self.preprocessed,
            self.main,
            self.permutation,
            self.perm_challenges@,
            self.public_values@,
            self.cumulative_sum,
            self.is_first_row,
            self.is_last_row,
            self.is_transition,
        )
    }

    /// The value of an expression on the builder's window, with the cells
    /// that the expression reads.
    pub fn track(&self, e: &SymbolicExpression) -> (r: TrackedFieldExpression)
        requires
            self.aligned(),
            e.fits(self.shape()),
        ensures
            r.value@ == e.eval(self.frame()),
            strictly_sorted(r.entries@),
            forall|x: Entry|
                r.entries@.contains(x) <==> expr_entries(
                    *e,
                    self.row_index,
                    self.next_row_index,
                ).contains(x),
    {
        let value = evaluate(
            e,
            &self.preprocessed,
            &self.main,
            &self.permutation,
            &self.perm_challenges,
            &self.public_values,
            self.cumulative_sum,
            self.is_first_row,
            self.is_last_row,
            self.is_transition,
        );
        let mut entries: Vec<Entry> = Vec::new();
        collect_entries(e, self.row_index, self.next_row_index, &mut entries);
        TrackedFieldExpression { value, entries }
    }

    /// Checks that `x` is zero; if it is not, the cells it was computed from
    /// join the collected entries.
    pub fn assert_zero(&mut self, x: &TrackedFieldExpression)
        requires
            strictly_sorted(old(self).entries@),
        ensures
            strictly_sorted(final(self).entries@),
            joined(old(self).entries@, final(self).entries@, *x),
            *final(self) == (TrackingConstraintBuilder {
                entries: final(self).entries,
                ..*old(self)
            }),
    {
        if !x.value.is_zero() {
            let mut i: usize = 0;
            while i < x.entries.len()
                invariant
                    i <= x.entries@.len(),
                    strictly_sorted(self.entries@),
                    *self == (TrackingConstraintBuilder { entries: self.entries, ..*old(self) }),
                    forall|e: Entry|
                        self.entries@.contains(e) <==> (old(self).entries@.contains(e) || (exists|
                            k: int,
                        |
                            0 <= k < i && x.entries@[k] == e)),
                decreases x.entries@.len() - i,
            {
                let ghost before = self.entries@;
                insert_entry(&mut self.entries, x.entries[i]);
                proof {
                    assert forall|e: Entry|
                        self.entries@.contains(e) <==> (old(self).entries@.contains(e) || (exists|
                            k: int,
                        |
                            0 <= k < i + 1 && x.entries@[k] == e)) by {
                        if before.contains(e) && !old(self).entries@.contains(e) {
                            let k = choose|k: int| 0 <= k < i && x.entries@[k] == e;
                            assert(0 <= k < i + 1 && x.entries@[k] == e);
                        }
                        if e == x.entries@[i as int] {
                            assert(0 <= i < i + 1 && x.entries@[i as int] == e);
                        }
                        if exists|k: int| 0 <= k < i + 1 && x.entries@[k] == e {
                            let k = choose|k: int| 0 <= k < i + 1 && x.entries@[k] == e;
                            if k < i {
                                assert(0 <= k < i && x.entries@[k] == e);
                            }
                        }
                    }
                }
                i += 1;
            }
        }
    }

    /// Checks that the extension value `x` is zero; if it is not, the cells
    /// it was computed from join the collected entries.
    pub fn assert_zero_ext(&mut self, x: &TrackedFieldExpression)
        requires
            strictly_sorted(old(self).entries@),
        ensures
            strictly_sorted(final(self).entries@),
            joined(old(self).entries@, final(self).entries@, *x),
            *final(self) == (TrackingConstraintBuilder {
                entries: final(self).entries,
                ..*old(self)
            }),
    {
        self.assert_zero(x);
    }
}

} // verus!
