//! Constraints as expressions: what a table asserts of every row, written
//! over the cells of a two-row window, the public values, the permutation
//! challenges and the row selectors. Every builder reads the same
//! expressions; the symbolic builder collects them and measures their degree.

use vstd::prelude::*;
use vstd::arithmetic::power2::pow2;
use crate::extension::{
    ext_add, ext_from_base, ext_mul, ext_neg, ext_pow, ext_sub, Ext,
};
use crate::field::Fe;

verus! {

/// An expression over one row and the row after it.
#[derive(Debug)]
pub enum SymbolicExpression {
    /// A constant of the base field.
    Constant(Fe),
    /// A cell of the preprocessed trace, on this row or on the next.
    Preprocessed { next: bool, column: usize },
    /// A cell of the main trace, on this row or on the next.
    Main { next: bool, column: usize },
    /// A cell of the permutation trace, on this row or on the next.
    Permutation { next: bool, column: usize },
    /// A public value.
    Public { index: usize },
    /// A power of a permutation challenge.
    ChallengePower { index: usize, power: usize },
    /// The cumulative sum that the table claims.
    CumulativeSum,
    /// The selector of the first row.
    IsFirstRow,
    /// The selector of the last row.
    IsLastRow,
    /// The selector of every row but the last.
    IsTransition,
    Add(Box<SymbolicExpression>, Box<SymbolicExpression>),
    Sub(Box<SymbolicExpression>, Box<SymbolicExpression>),
    Mul(Box<SymbolicExpression>, Box<SymbolicExpression>),
    Neg(Box<SymbolicExpression>),
}

/// The sizes of what an expression may read.
#[derive(Clone, Copy, Debug, PartialEq, Eq, Structural)]
pub struct Shape {
    pub preprocessed_width: usize,
    pub main_width: usize,
    pub permutation_width: usize,
    pub public_values: usize,
    pub challenges: usize,
}

/// The values that an expression reads on one row.
pub struct Frame {
    pub preprocessed_local: Seq<Ext>,
    pub preprocessed_next: Seq<Ext>,
    pub main_local: Seq<Ext>,
    pub main_next: Seq<Ext>,
    pub permutation_local: Seq<Ext>,
    pub permutation_next: Seq<Ext>,
    pub public_values: Seq<Ext>,
    pub challenges: Seq<Ext>,
    pub cumulative_sum: Ext,
    pub is_first_row: Ext,
    pub is_last_row: Ext,
    pub is_transition: Ext,
}

impl SymbolicExpression {
    /// Whether everything that the expression reads exists in `shape`.
    pub open spec fn fits(self, shape: Shape) -> bool
        decreases self,
    {
        match self {
            SymbolicExpression::Constant(_) => true,
            SymbolicExpression::Preprocessed { next, column } => column < shape.preprocessed_width,
            SymbolicExpression::Main { next, column } => column < shape.main_width,
            SymbolicExpression::Permutation { next, column } => column < shape.permutation_width,
            SymbolicExpression::Public { index } => index < shape.public_values,
            SymbolicExpression::ChallengePower { index, power } => index < shape.challenges,
            SymbolicExpression::CumulativeSum => true,
            SymbolicExpression::IsFirstRow => true,
            SymbolicExpression::IsLastRow => true,
            SymbolicExpression::IsTransition => true,
            SymbolicExpression::Add(a, b) => a.fits(shape) && b.fits(shape),
            SymbolicExpression::Sub(a, b) => a.fits(shape) && b.fits(shape),
            SymbolicExpression::Mul(a, b) => a.fits(shape) && b.fits(shape),
            SymbolicExpression::Neg(a) => a.fits(shape),
        }
    }

    /// The value of the expression on a frame.
    pub open spec fn eval(self, frame: Frame) -> Ext
        decreases self,
    {
        match self {
            SymbolicExpression::Constant(c) => ext_from_base(c@),
            SymbolicExpression::Preprocessed { next, column } => if next {
                frame.preprocessed_next[column as int]
            } else {
                frame.preprocessed_local[column as int]
            },
            SymbolicExpression::Main { next, column } => if next {
                frame.main_next[column as int]
            } else {
                frame.main_local[column as int]
            },
            SymbolicExpression::Permutation { next, column } => if next {
                frame.permutation_next[column as int]
            } else {
                frame.permutation_local[column as int]
            },
            SymbolicExpression::Public { index } => frame.public_values[index as int],
            SymbolicExpression::ChallengePower { index, power } => ext_pow(
                frame.challenges[index as int],
                power as nat,
            ),
            SymbolicExpression::CumulativeSum => frame.cumulative_sum,
            SymbolicExpression::IsFirstRow => frame.is_first_row,
            SymbolicExpression::IsLastRow => frame.is_last_row,
            SymbolicExpression::IsTransition => frame.is_transition,
            SymbolicExpression::Add(a, b) => ext_add(a.eval(frame), b.eval(frame)),
            SymbolicExpression::Sub(a, b) => ext_sub(a.eval(frame), b.eval(frame)),
            SymbolicExpression::Mul(a, b) => ext_mul(a.eval(frame), b.eval(frame)),
            SymbolicExpression::Neg(a) => ext_neg(a.eval(frame)),
        }
    }

    /// The degree of the expression as a polynomial in the trace: a cell and
    /// the selectors of the first and the last row count one; constants,
    /// public values, challenges, the cumulative sum and the transition
    /// selector count nothing; a product adds the degrees of its factors.
    pub open spec fn degree(self) -> nat
        decreases self,
    {
        match self {
            SymbolicExpression::Constant(_) => 0,
            SymbolicExpression::Preprocessed { next, column } => 1,
            SymbolicExpression::Main { next, column } => 1,
            SymbolicExpression::Permutation { next, column } => 1,
            SymbolicExpression::Public { index } => 0,
            SymbolicExpression::ChallengePower { index, power } => 0,
            SymbolicExpression::CumulativeSum => 0,
            SymbolicExpression::IsFirstRow => 1,
            SymbolicExpression::IsLastRow => 1,
            SymbolicExpression::IsTransition => 0,
            SymbolicExpression::Add(a, b) => if a.degree() > b.degree() {
                a.degree()
            } else {
                b.degree()
            },
            SymbolicExpression::Sub(a, b) => if a.degree() > b.degree() {
                a.degree()
            } else {
                b.degree()
            },
            SymbolicExpression::Mul(a, b) => a.degree() + b.degree(),
            SymbolicExpression::Neg(a) => a.degree(),
        }
    }

    /// The sum of two expressions.
    pub fn plus(self, rhs: SymbolicExpression) -> (r: SymbolicExpression)
        ensures
            r == SymbolicExpression::Add(Box::new(self), Box::new(rhs)),
    {
        SymbolicExpression::Add(Box::new(self), Box::new(rhs))
    }

    /// The difference of two expressions.
    pub fn minus(self, rhs: SymbolicExpression) -> (r: SymbolicExpression)
        ensures
            r == SymbolicExpression::Sub(Box::new(self), Box::new(rhs)),
    {
        SymbolicExpression::Sub(Box::new(self), Box::new(rhs))
    }

    /// The product of two expressions.
    pub fn times(self, rhs: SymbolicExpression) -> (r: SymbolicExpression)
        ensures
            r == SymbolicExpression::Mul(Box::new(self), Box::new(rhs)),
    {
        SymbolicExpression::Mul(Box::new(self), Box::new(rhs))
    }

    /// The expression with its sign changed.
    pub fn negated(self) -> (r: SymbolicExpression)
        ensures
            r == SymbolicExpression::Neg(Box::new(self)),
    {
        SymbolicExpression::Neg(Box::new(self))
    }

    /// A copy of the expression.
    pub fn duplicate(&self) -> (r: SymbolicExpression)
        ensures
            r == *self,
        decreases self,
    {
        match self {
            SymbolicExpression::Constant(c) => SymbolicExpression::Constant(*c),
            SymbolicExpression::Preprocessed { next, column } => SymbolicExpression::Preprocessed {
                next: *next,
                column: *column,
            },
            SymbolicExpression::Main { next, column } => SymbolicExpression::Main {
                next: *next,
                column: *column,
            },
            SymbolicExpression::Permutation { next, column } => SymbolicExpression::Permutation {
                next: *next,
                column: *column,
            },
            SymbolicExpression::Public { index } => SymbolicExpression::Public { index: *index },
            SymbolicExpression::ChallengePower { index, power } => {
                SymbolicExpression::ChallengePower { index: *index, power: *power }
            },
            SymbolicExpression::CumulativeSum => SymbolicExpression::CumulativeSum,
            SymbolicExpression::IsFirstRow => SymbolicExpression::IsFirstRow,
            SymbolicExpression::IsLastRow => SymbolicExpression::IsLastRow,
            SymbolicExpression::IsTransition => SymbolicExpression::IsTransition,
            SymbolicExpression::Add(a, b) => SymbolicExpression::Add(
                Box::new(a.duplicate()),
                Box::new(b.duplicate()),
            ),
            SymbolicExpression::Sub(a, b) => SymbolicExpression::Sub(
                Box::new(a.duplicate()),
                Box::new(b.duplicate()),
            ),
            SymbolicExpression::Mul(a, b) => SymbolicExpression::Mul(
                Box::new(a.duplicate()),
                Box::new(b.duplicate()),
            ),
            SymbolicExpression::Neg(a) => SymbolicExpression::Neg(Box::new(a.duplicate())),
        }
    }

    /// Tests whether everything that the expression reads exists in `shape`.
    pub fn fits_shape(&self, shape: &Shape) -> (r: bool)
        ensures
            r == self.fits(*shape),
        decreases self,
    {
        match self {
            SymbolicExpression::Constant(_) => true,
            SymbolicExpression::Preprocessed { next, column } => *column < shape.preprocessed_width,
            SymbolicExpression::Main { next, column } => *column < shape.main_width,
            SymbolicExpression::Permutation { next, column } => *column < shape.permutation_width,
            SymbolicExpression::Public { index } => *index < shape.public_values,
            SymbolicExpression::ChallengePower { index, power } => *index < shape.challenges,
            SymbolicExpression::CumulativeSum => true,
            SymbolicExpression::IsFirstRow => true,
            SymbolicExpression::IsLastRow => true,
            SymbolicExpression::IsTransition => true,
            SymbolicExpression::Add(a, b) => a.fits_shape(shape) && b.fits_shape(shape),
            SymbolicExpression::Sub(a, b) => a.fits_shape(shape) && b.fits_shape(shape),
            SymbolicExpression::Mul(a, b) => a.fits_shape(shape) && b.fits_shape(shape),
            SymbolicExpression::Neg(a) => a.fits_shape(shape),
        }
    }

    /// The degree of the expression, or the largest machine integer where
    /// the degree is larger than that.
    pub fn degree_multiple(&self) -> (r: usize)
        ensures
            r == saturate(self.degree()),
        decreases self,
    {
        match self {
            SymbolicExpression::Constant(_) => 0,
            SymbolicExpression::Preprocessed { next, column } => 1,
            SymbolicExpression::Main { next, column } => 1,
            SymbolicExpression::Permutation { next, column } => 1,
            SymbolicExpression::Public { index } => 0,
            SymbolicExpression::ChallengePower { index, power } => 0,
            SymbolicExpression::CumulativeSum => 0,
            SymbolicExpression::IsFirstRow => 1,
            SymbolicExpression::IsLastRow => 1,
            SymbolicExpression::IsTransition => 0,
            SymbolicExpression::Add(a, b) => {
                let x: usize = a.degree_multiple();
                let y: usize = b.degree_multiple();
                if x > y {
                    x
                } else {
                    y
                }
            },
            SymbolicExpression::Sub(a, b) => {
                let x: usize = a.degree_multiple();
                let y: usize = b.degree_multiple();
                if x > y {
                    x
                } else {
                    y
                }
            },
            SymbolicExpression::Mul(a, b) => {
                let x: usize = a.degree_multiple();
                let y: usize = b.degree_multiple();
                if x > usize::MAX - y {
                    usize::MAX
                } else {
                    x + y
                }
            },
            SymbolicExpression::Neg(a) => a.degree_multiple(),
        }
    }
}

impl Clone for SymbolicExpression {
    fn clone(&self) -> (r: Self)
        ensures
            r == *self,
    {
        self.duplicate()
    }
}

/// `n`, or the largest machine integer if `n` is larger.
pub open spec fn saturate(n: nat) -> usize {
    if n > usize::MAX {
        usize::MAX
    } else {
        n as usize
    }
}

/// The largest degree among the first `n` constraints, or zero.
pub open spec fn max_degree(constraints: Seq<SymbolicExpression>, n: nat) -> nat
    decreases n,
{
    if n == 0 {
        0
    } else {
        let rest = max_degree(constraints, (n - 1) as nat);
        let d = constraints[n - 1].degree();
        if d > rest {
            d
        } else {
            rest
        }
    }
}

/// The largest degree among the constraints, or the largest machine integer
/// where it is larger than that.
pub fn get_max_constraint_degree(constraints: &[SymbolicExpression]) -> (r: usize)
    ensures
        r == saturate(max_degree(constraints@, constraints@.len())),
{
    let mut best: usize = 0;
    let mut i: usize = 0;
    while i < constraints.len()
        invariant
            i <= constraints@.len(),
            best == saturate(max_degree(constraints@, i as nat)),
        decreases constraints@.len() - i,
    {
        let d: usize = constraints[i].degree_multiple();
        if d > best {
            best = d;
        }
        i += 1;
    }
    best
}

/// Whether `q` is a power of two.
pub open spec fn is_power_of_two(q: nat) -> bool
    decreases q,
{
    q == 1 || (q >= 2 && q % 2 == 0 && is_power_of_two(q / 2))
}

/// What the quotient has to make room for: the largest degree less one, and
/// at least one.
pub open spec fn quotient_target(constraints: Seq<SymbolicExpression>) -> nat {
    let d = max_degree(constraints, constraints.len());
    if d <= 2 {
        1
    } else {
        (d - 1) as nat
    }
}

/// The logarithm of the quotient degree: the least `l` for which `2^l` is
/// at least the largest constraint degree less one.
pub open spec fn quotient_log(constraints: Seq<SymbolicExpression>) -> nat {
    crate::domain::log2_ceil(quotient_target(constraints))
}

/// The largest target for which a power of two fits every machine.
pub const MAX_QUOTIENT_TARGET: usize = 0x4000_0000;

/// The number of chunks of the quotient: the smallest power of two that is
/// at least the largest constraint degree less one. Constraints of degree
/// two or less need one chunk.
pub fn get_quotient_degree(constraints: &[SymbolicExpression]) -> (q: usize)
    requires
        quotient_target(constraints@) <= MAX_QUOTIENT_TARGET,
    ensures
        q == pow2(quotient_log(constraints@)),
        is_power_of_two(q as nat),
        q >= quotient_target(constraints@),
        q == 1 || q / 2 < quotient_target(constraints@),
{
    let d: usize = get_max_constraint_degree(constraints);
    let target: usize = if d <= 2 {
        1
    } else {
        d - 1
    };
    let mut q: usize = 1;
    let ghost mut l: nat = 0;
    proof {
        vstd::arithmetic::power2::lemma2_to64();
    }
    while q < target
        invariant
            target <= MAX_QUOTIENT_TARGET,
            is_power_of_two(q as nat),
            q == pow2(l),
            l == 0 || pow2((l - 1) as nat) < target,
            1 <= q <= 2 * MAX_QUOTIENT_TARGET,
            q == 1 || q / 2 < target,
        decreases 2 * target - q,
    {
        proof {
            vstd::arithmetic::power2::lemma_pow2_unfold(l + 1);
            l = l + 1;
        }
        q = q * 2;
    }
    proof {
        crate::domain::lemma_log2_ceil_unique(target as nat, l);
    }
    q
}

/// The logarithm of the quotient degree of the constraints.
pub fn get_log_quotient_degree(constraints: &[SymbolicExpression]) -> (l: usize)
    requires
        quotient_target(constraints@) <= MAX_QUOTIENT_TARGET,
    ensures
        l <= 30,
        l == quotient_log(constraints@),
{
    let d: usize = get_max_constraint_degree(constraints);
    let target: usize = if d <= 2 {
        1
    } else {
        d - 1
    };
    let mut l: usize = 0;
    let mut q: usize = 1;
    proof {
        vstd::arithmetic::power2::lemma2_to64();
    }
    while q < target
        invariant
            target <= MAX_QUOTIENT_TARGET,
            l <= 30,
            q == pow2(l as nat),
            1 <= q <= MAX_QUOTIENT_TARGET,
            pow2(30) == MAX_QUOTIENT_TARGET,
            l == 0 || pow2((l - 1) as nat) < target,
        decreases 2 * target - q,
    {
        proof {
            vstd::arithmetic::power2::lemma_pow2_unfold((l + 1) as nat);
            assert(l < 30);
            if l + 1 < 30 {
                vstd::arithmetic::power2::lemma_pow2_strictly_increases((l + 1) as nat, 30);
            }
        }
        q = q * 2;
        l = l + 1;
    }
    proof {
        crate::domain::lemma_log2_ceil_unique(target as nat, l as nat);
    }
    l
}

/// The logarithm of the quotient degree of the constraints, or `None` where
/// the degree does not fit every machine.
pub fn checked_log_quotient_degree(constraints: &[SymbolicExpression]) -> (r: Option<usize>)
    ensures
        r is Some <==> quotient_target(constraints@) <= MAX_QUOTIENT_TARGET,
        r matches Some(l) ==> l == quotient_log(constraints@) && l <= 30,
{
    let d: usize = get_max_constraint_degree(constraints);
    if d > 2 && d - 1 > MAX_QUOTIENT_TARGET {
        None
    } else {
        Some(get_log_quotient_degree(constraints))
    }
}

/// The quotient degree of the constraints, or `None` where it does not fit
/// every machine.
pub fn checked_quotient_degree(constraints: &[SymbolicExpression]) -> (r: Option<usize>)
    ensures
        r is Some <==> quotient_target(constraints@) <= MAX_QUOTIENT_TARGET,
        r matches Some(q) ==> is_power_of_two(q as nat) && q >= quotient_target(constraints@) && (q
            == 1 || q / 2 < quotient_target(constraints@)),
{
    let d: usize = get_max_constraint_degree(constraints);
    if d > 2 && d - 1 > MAX_QUOTIENT_TARGET {
        None
    } else {
        Some(get_quotient_degree(constraints))
    }
}

/// The builder that records constraints instead of checking them.
#[derive(Debug)]
pub struct SymbolicAirBuilder {
    pub shape: Shape,
    pub constraints: Vec<SymbolicExpression>,
}

impl SymbolicAirBuilder {
    /// A builder for tables of the given shape, with nothing asserted yet.
    pub fn new(shape: Shape) -> (r: SymbolicAirBuilder)
        ensures
            r.shape == shape,
            r.constraints@.len() == 0,
    {
        SymbolicAirBuilder { shape, constraints: Vec::new() }
    }

    /// The cell of the main trace in column `column`, on this row or on the
    /// next.
    pub fn main(&self, next: bool, column: usize) -> (r: SymbolicExpression)
        ensures
            r == (SymbolicExpression::Main { next, column }),
    {
        SymbolicExpression::Main { next, column }
    }

    /// The cell of the preprocessed trace in column `column`, on this row or
    /// on the next.
    pub fn preprocessed(&self, next: bool, column: usize) -> (r: SymbolicExpression)
        ensures
            r == (SymbolicExpression::Preprocessed { next, column }),
    {
        SymbolicExpression::Preprocessed { next, column }
    }

    /// The cell of the permutation trace in column `column`, on this row or
    /// on the next.
    pub fn permutation(&self, next: bool, column: usize) -> (r: SymbolicExpression)
        ensures
            r == (SymbolicExpression::Permutation { next, column }),
    {
        SymbolicExpression::Permutation { next, column }
    }

    /// The two permutation challenges.
    pub fn permutation_randomness(&self) -> (r: [SymbolicExpression; 2])
        ensures
            r[0] == (SymbolicExpression::ChallengePower { index: 0, power: 1 }),
            r[1] == (SymbolicExpression::ChallengePower { index: 1, power: 1 }),
    {
        [
            SymbolicExpression::ChallengePower { index: 0, power: 1 },
            SymbolicExpression::ChallengePower { index: 1, power: 1 },
        ]
    }

    /// The public value at `index`.
    pub fn public_value(&self, index: usize) -> (r: SymbolicExpression)
        ensures
            r == (SymbolicExpression::Public { index }),
    {
        SymbolicExpression::Public { index }
    }

    pub fn is_first_row(&self) -> (r: SymbolicExpression)
        ensures
            r == SymbolicExpression::IsFirstRow,
    {
        SymbolicExpression::IsFirstRow
    }

    pub fn is_last_row(&self) -> (r: SymbolicExpression)
        ensures
            r == SymbolicExpression::IsLastRow,
    {
        SymbolicExpression::IsLastRow
    }

    /// The selector of the rows that have a successor. Only windows of two
    /// rows exist.
    pub fn is_transition_window(&self, size: usize) -> (r: SymbolicExpression)
        requires
            size == 2,
        ensures
            r == SymbolicExpression::IsTransition,
    {
        SymbolicExpression::IsTransition
    }

    /// Records that `x` is zero on every row.
    pub fn assert_zero(&mut self, x: SymbolicExpression)
        ensures
            final(self).shape == old(self).shape,
            final(self).constraints@ == old(self).constraints@.push(x),
    {
        self.constraints.push(x);
    }

    /// Records that the extension expression `x` is zero on every row.
    pub fn assert_zero_ext(&mut self, x: SymbolicExpression)
        ensures
            final(self).shape == old(self).shape,
            final(self).constraints@ == old(self).constraints@.push(x),
    {
        self.constraints.push(x);
    }

    /// Records that `x` and `y` are equal on every row: that their
    /// difference is zero.
    pub fn assert_eq(&mut self, x: SymbolicExpression, y: SymbolicExpression)
        ensures
            final(self).shape == old(self).shape,
            final(self).constraints@ == old(self).constraints@.push(
                SymbolicExpression::Sub(Box::new(x), Box::new(y)),
            ),
    {
        self.constraints.push(x.minus(y));
    }

    /// Records that `x` is one on every row: that `x` less one is zero.
    pub fn assert_one(&mut self, x: SymbolicExpression)
        ensures
            final(self).shape == old(self).shape,
            final(self).constraints@ == old(self).constraints@.push(
                SymbolicExpression::Sub(
                    Box::new(x),
                    Box::new(SymbolicExpression::Constant(Fe::spec_one())),
                ),
            ),
    {
        self.constraints.push(x.minus(SymbolicExpression::Constant(Fe::one())));
    }

    /// Records that `x` is zero on every row on which `condition` is not:
    /// that their product is zero.
    pub fn assert_zero_when(&mut self, condition: SymbolicExpression, x: SymbolicExpression)
        ensures
            final(self).shape == old(self).shape,
            final(self).constraints@ == old(self).constraints@.push(
                SymbolicExpression::Mul(Box::new(condition), Box::new(x)),
            ),
    {
        self.constraints.push(condition.times(x));
    }

    /// Records that `x` and `y` are equal on every row on which `condition`
    /// is not zero.
    pub fn assert_eq_when(
        &mut self,
        condition: SymbolicExpression,
        x: SymbolicExpression,
        y: SymbolicExpression,
    )
        ensures
            final(self).shape == old(self).shape,
            final(self).constraints@ == old(self).constraints@.push(
                SymbolicExpression::Mul(
                    Box::new(condition),
                    Box::new(SymbolicExpression::Sub(Box::new(x), Box::new(y))),
                ),
            ),
    {
        self.constraints.push(condition.times(x.minus(y)));
    }
}

} // verus!
