//! The folding builders: they batch the values of all constraints on one
//! point into one accumulator, with the powers of one random `alpha`.

use vstd::prelude::*;
use crate::extension::{ext_add, ext_mul, Ef, Ext};
use crate::field::Fe;
use crate::symbolic::{Frame, Shape, SymbolicExpression};
use crate::window::{all_fit, evaluate, frame_of, shape_of, TwoRowMatrixView};

verus! {

/// The accumulator after one more value: the accumulator times `alpha`,
/// plus the value.
pub open spec fn fold_step(acc: Ext, alpha: Ext, x: Ext) -> Ext {
    ext_add(ext_mul(acc, alpha), x)
}

/// The accumulator after the first `n` constraints have been folded in, in
/// order, starting from `start`.
pub open spec fn fold_constraints(
    constraints: Seq<SymbolicExpression>,
    frame: Frame,
    alpha: Ext,
    start: Ext,
    n: nat,
) -> Ext
    decreases n,
{
    if n == 0 {
        start
    } else {
        fold_step(
            fold_constraints(constraints, frame, alpha, start, (n - 1) as nat),
            alpha,
            constraints[n - 1].eval(frame),
        )
    }
}

/// The folder of the prover: its window is one point of the quotient domain
/// and the point after it, and its selectors are the values of the selector
/// polynomials on that point.
#[derive(Clone, Debug)]
pub struct ProverConstraintFolder {
    pub preprocessed: TwoRowMatrixView,
    pub main: TwoRowMatrixView,
    pub perm: TwoRowMatrixView,
    pub perm_challenges: [Ef; 2],
    pub public_values: Vec<Fe>,
    pub cumulative_sum: Ef,
    pub is_first_row: Ef,
    pub is_last_row: Ef,
    pub is_transition: Ef,
    pub alpha: Ef,
    pub accumulator: Ef,
}

impl ProverConstraintFolder {
    /// Whether the two rows of each window have the same width.
    pub open spec fn aligned(self) -> bool {
        self.preprocessed.aligned() && self.main.aligned() && self.perm.aligned()
    }

    /// The sizes of what the folder offers to an expression.
    pub open spec fn shape(self) -> Shape {
        shape_of(self.preprocessed, self.main, self.perm, self.public_values@)
    }

    /// The values that an expression reads from the folder.
    pub open spec fn frame(self) -> Frame {
        frame_of(
            self.preprocessed,
            self.main,
            self.perm,
            self.perm_challenges@,
            self.public_values@,
            self.cumulative_sum,
            self.is_first_row,
            self.is_last_row,
            self.is_transition,
        )
    }

    pub fn main(&self) -> (r: &TwoRowMatrixView)
        ensures
            *r == self.main,
    {
        &self.main
    }

    pub fn preprocessed(&self) -> (r: &TwoRowMatrixView)
        ensures
            *r == self.preprocessed,
    {
        &self.preprocessed
    }

    pub fn permutation(&self) -> (r: &TwoRowMatrixView)
        ensures
            *r == self.perm,
    {
        &self.perm
    }

    pub fn permutation_randomness(&self) -> (r: &[Ef; 2])
        ensures
            *r == self.perm_challenges,
    {
        &self.perm_challenges
    }

    pub fn public_values(&self) -> (r: &Vec<Fe>)
        ensures
            *r == self.public_values,
    {
        &self.public_values
    }

    pub fn is_first_row(&self) -> (r: Ef)
        ensures
            r == self.is_first_row,
    {
        self.is_first_row
    }

    pub fn is_last_row(&self) -> (r: Ef)
        ensures
            r == self.is_last_row,
    {
        self.is_last_row
    }

    /// The selector of the rows that have a successor. Only windows of two
    /// rows exist.
    pub fn is_transition_window(&self, size: usize) -> (r: Ef)
        requires
            size == 2,
        ensures
            r == self.is_transition,
    {
        self.is_transition
    }

    /// Folds the value `x`, which a constraint asks to be zero, into the
    /// accumulator.
    pub fn assert_zero(&mut self, x: Ef)
        ensures
            final(self).accumulator@ == fold_step(old(self).accumulator@, old(self).alpha@, x@),
            *final(self) == (ProverConstraintFolder { accumulator: final(self).accumulator, ..*old(self) }),
    {
        self.accumulator = self.accumulator.mul(self.alpha).add(x);
    }

    /// Folds the extension value `x`, which a constraint asks to be zero,
    /// into the accumulator.
    pub fn assert_zero_ext(&mut self, x: Ef)
        ensures
            final(self).accumulator@ == fold_step(old(self).accumulator@, old(self).alpha@, x@),
            *final(self) == (ProverConstraintFolder { accumulator: final(self).accumulator, ..*old(self) }),
    {
        self.accumulator = self.accumulator.mul(self.alpha).add(x);
    }

    /// The value of an expression on the folder's window.
    pub fn eval(&self, e: &SymbolicExpression) -> (r: Ef)
        requires
            self.aligned(),
            e.fits(self.shape()),
        ensures
            r@ == e.eval(self.frame()),
    {
        evaluate(
            e,
            &self.preprocessed,
            &self.main,
            &self.perm,
            &self.perm_challenges,
            &self.public_values,
            self.cumulative_sum,
            self.is_first_row,
            self.is_last_row,
            self.is_transition,
        )
    }

    /// Evaluates every constraint and folds its value into the accumulator,
    /// in order.
    pub fn eval_all(&mut self, constraints: &[SymbolicExpression])
        requires
            old(self).aligned(),
            all_fit(constraints@, old(self).shape()),
        ensures
            final(self).accumulator@ == fold_constraints(
                constraints@,
                old(self).frame(),
                old(self).alpha@,
                old(self).accumulator@,
                constraints@.len(),
            ),
            *final(self) == (ProverConstraintFolder { accumulator: final(self).accumulator, ..*old(self) }),
    {
        let mut i: usize = 0;
        while i < constraints.len()
            invariant
                i <= constraints@.len(),
                self.aligned(),
                all_fit(constraints@, self.shape()),
                *self == (ProverConstraintFolder { accumulator: self.accumulator, ..*old(self) }),
                self.accumulator@ == fold_constraints(
                    constraints@,
                    old(self).frame(),
                    old(self).alpha@,
                    old(self).accumulator@,
                    i as nat,
                ),
            decreases constraints@.len() - i,
        {
            let x = self.eval(&constraints[i]);
            self.assert_zero_ext(x);
            i += 1;
        }
    }
}

/// The folder of the verifier: its window holds the values that were opened
/// at the challenge point and at its successor, and its selectors are the
/// values of the selector polynomials at that point.
#[derive(Clone, Debug)]
pub struct VerifierConstraintFolder {
    pub preprocessed: TwoRowMatrixView,
    pub main: TwoRowMatrixView,
    pub perm: TwoRowMatrixView,
    pub perm_challenges: [Ef; 2],
    pub public_values: Vec<Fe>,
    pub cumulative_sum: Ef,
    pub is_first_row: Ef,
    pub is_last_row: Ef,
    pub is_transition: Ef,
    pub alpha: Ef,
    pub accumulator: Ef,
}

impl VerifierConstraintFolder {
    /// Whether the two rows of each window have the same width.
    pub open spec fn aligned(self) -> bool {
        self.preprocessed.aligned() && self.main.aligned() && self.perm.aligned()
    }

    /// The sizes of what the folder offers to an expression.
    pub open spec fn shape(self) -> Shape {
        shape_of(self.preprocessed, self.main, self.perm, self.public_values@)
    }

    /// The values that an expression reads from the folder.
    pub open spec fn frame(self) -> Frame {
        frame_of(
            self.preprocessed,
            self.main,
            self.perm,
            self.perm_challenges@,
            self.public_values@,
            self.cumulative_sum,
            self.is_first_row,
            self.is_last_row,
            self.is_transition,
        )
    }

    pub fn main(&self) -> (r: &TwoRowMatrixView)
        ensures
            *r == self.main,
    {
        &self.main
    }

    pub fn preprocessed(&self) -> (r: &TwoRowMatrixView)
        ensures
            *r == self.preprocessed,
    {
        &self.preprocessed
    }

    pub fn permutation(&self) -> (r: &TwoRowMatrixView)
        ensures
            *r == self.perm,
    {
        &self.perm
    }

    pub fn permutation_randomness(&self) -> (r: &[Ef; 2])
        ensures
            *r == self.perm_challenges,
    {
        &self.perm_challenges
    }

    pub fn public_values(&self) -> (r: &Vec<Fe>)
        ensures
            *r == self.public_values,
    {
        &self.public_values
    }

    pub fn is_first_row(&self) -> (r: Ef)
        ensures
            r == self.is_first_row,
    {
        self.is_first_row
    }

    pub fn is_last_row(&self) -> (r: Ef)
        ensures
            r == self.is_last_row,
    {
        self.is_last_row
    }

    /// The selector of the rows that have a successor. Only windows of two
    /// rows exist.
    pub fn is_transition_window(&self, size: usize) -> (r: Ef)
        requires
            size == 2,
        ensures
            r == self.is_transition,
    {
        self.is_transition
    }

    /// Folds the value `x`, which a constraint asks to be zero, into the
    /// accumulator.
    pub fn assert_zero(&mut self, x: Ef)
        ensures
            final(self).accumulator@ == fold_step(old(self).accumulator@, old(self).alpha@, x@),
            *final(self) == (VerifierConstraintFolder { accumulator: final(self).accumulator, ..*old(self) }),
    {
        self.accumulator = self.accumulator.mul(self.alpha).add(x);
    }

    /// Folds the extension value `x`, which a constraint asks to be zero,
    /// into the accumulator.
    pub fn assert_zero_ext(&mut self, x: Ef)
        ensures
            final(self).accumulator@ == fold_step(old(self).accumulator@, old(self).alpha@, x@),
            *final(self) == (VerifierConstraintFolder { accumulator: final(self).accumulator, ..*old(self) }),
    {
        self.accumulator = self.accumulator.mul(self.alpha).add(x);
    }

    /// The value of an expression on the folder's window.
    pub fn eval(&self, e: &SymbolicExpression) -> (r: Ef)
        requires
            self.aligned(),
            e.fits(self.shape()),
        ensures
            r@ == e.eval(self.frame()),
    {
        evaluate(
            e,
            &self.preprocessed,
            &self.main,
            &self.perm,
            &self.perm_challenges,
            &self.public_values,
            self.cumulative_sum,
            self.is_first_row,
            self.is_last_row,
            self.is_transition,
        )
    }

    /// Evaluates every constraint and folds its value into the accumulator,
    /// in order.
    pub fn eval_all(&mut self, constraints: &[SymbolicExpression])
        requires
            old(self).aligned(),
            all_fit(constraints@, old(self).shape()),
        ensures
            final(self).accumulator@ == fold_constraints(
                constraints@,
                old(self).frame(),
                old(self).alpha@,
                old(self).accumulator@,
                constraints@.len(),
            ),
            *final(self) == (VerifierConstraintFolder { accumulator: final(self).accumulator, ..*old(self) }),
    {
        let mut i: usize = 0;
        while i < constraints.len()
            invariant
                i <= constraints@.len(),
                self.aligned(),
                all_fit(constraints@, self.shape()),
                *self == (VerifierConstraintFolder { accumulator: self.accumulator, ..*old(self) }),
                self.accumulator@ == fold_constraints(
                    constraints@,
                    old(self).frame(),
                    old(self).alpha@,
                    old(self).accumulator@,
                    i as nat,
                ),
            decreases constraints@.len() - i,
        {
            let x = self.eval(&constraints[i]);
            self.assert_zero_ext(x);
            i += 1;
        }
    }
}

} // verus!
