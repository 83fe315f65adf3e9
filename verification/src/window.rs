//! The two-row window that the checking builders read, and the evaluation
//! of an expression on it.

use vstd::prelude::*;
use crate::extension::{ef_seq, ext_from_base, ext_pow, Ef, Ext};
use crate::field::Fe;
use crate::symbolic::{Frame, Shape, SymbolicExpression};

verus! {

/// One row of a trace and the row after it.
#[derive(Clone, Debug)]
pub struct TwoRowMatrixView {
    pub local: Vec<Ef>,
    pub next: Vec<Ef>,
}

impl TwoRowMatrixView {
    pub fn new(local: Vec<Ef>, next: Vec<Ef>) -> (r: TwoRowMatrixView)
        ensures
            r.local == local,
            r.next == next,
    {
        TwoRowMatrixView { local, next }
    }

    /// The window of a trace that is absent: two empty rows.
    pub fn empty() -> (r: TwoRowMatrixView)
        ensures
            r.local@.len() == 0,
            r.next@.len() == 0,
    {
        TwoRowMatrixView { local: Vec::new(), next: Vec::new() }
    }

    /// Whether both rows have the same width.
    pub open spec fn aligned(self) -> bool {
        self.local@.len() == self.next@.len()
    }

    /// The width of the rows.
    pub fn width(&self) -> (r: usize)
        ensures
            r == self.local@.len(),
    {
        self.local.len()
    }
}

/// The base elements of a row, seen in the extension.
pub open spec fn embed_seq(row: Seq<int>) -> Seq<Ext> {
    row.map_values(|x: int| ext_from_base(x))
}

/// The public values, seen in the extension.
pub open spec fn public_seq(values: Seq<Fe>) -> Seq<Ext> {
    values.map_values(|x: Fe| ext_from_base(x@))
}

/// The base elements of a row, seen in the extension.
pub fn embed_row(row: &[Fe]) -> (r: Vec<Ef>)
    ensures
        ef_seq(r@) == embed_seq(crate::field::fe_seq(row@)),
        r@.len() == row@.len(),
{
    let mut out: Vec<Ef> = Vec::new();
    let mut i: usize = 0;
    while i < row.len()
        invariant
            i <= row@.len(),
            out@.len() == i,
            forall|j: int| 0 <= j < i ==> (#[trigger] out@[j])@ == ext_from_base(row@[j]@),
        decreases row@.len() - i,
    {
        out.push(Ef::from_base(row[i]));
        i += 1;
    }
    proof {
        assert(ef_seq(out@) =~= embed_seq(crate::field::fe_seq(row@)));
    }
    out
}

/// The frame that a builder with these parts reads.
pub open spec fn frame_of(
    preprocessed: TwoRowMatrixView,
    main: TwoRowMatrixView,
    perm: TwoRowMatrixView,
    perm_challenges: Seq<Ef>,
    public_values: Seq<Fe>,
    cumulative_sum: Ef,
    is_first_row: Ef,
    is_last_row: Ef,
    is_transition: Ef,
) -> Frame {
    Frame {
        preprocessed_local: ef_seq(preprocessed.local@),
        preprocessed_next: ef_seq(preprocessed.next@),
        main_local: ef_seq(main.local@),
        main_next: ef_seq(main.next@),
        permutation_local: ef_seq(perm.local@),
        permutation_next: ef_seq(perm.next@),
        public_values: public_seq(public_values),
        challenges: ef_seq(perm_challenges),
        cumulative_sum: cumulative_sum@,
        is_first_row: is_first_row@,
        is_last_row: is_last_row@,
        is_transition: is_transition@,
    }
}

/// The sizes of what a builder with these parts offers.
pub open spec fn shape_of(
    preprocessed: TwoRowMatrixView,
    main: TwoRowMatrixView,
    perm: TwoRowMatrixView,
    public_values: Seq<Fe>,
) -> Shape {
    Shape {
        preprocessed_width: preprocessed.local@.len() as usize,
        main_width: main.local@.len() as usize,
        permutation_width: perm.local@.len() as usize,
        public_values: public_values.len() as usize,
        challenges: 2,
    }
}

/// `base` raised to the power `power`.
pub fn power_of(base: Ef, power: usize) -> (r: Ef)
    ensures
        r@ == ext_pow(base@, power as nat),
{
    let mut acc = Ef::one();
    let mut i: usize = 0;
    while i < power
        invariant
            i <= power,
            acc@ == ext_pow(base@, i as nat),
        decreases power - i,
    {
        acc = acc.mul(base);
        i += 1;
    }
    acc
}

/// The value of an expression on the window.
pub fn evaluate(
    e: &SymbolicExpression,
    preprocessed: &TwoRowMatrixView,
    main: &TwoRowMatrixView,
    perm: &TwoRowMatrixView,
    perm_challenges: &[Ef; 2],
    public_values: &Vec<Fe>,
    cumulative_sum: Ef,
    is_first_row: Ef,
    is_last_row: Ef,
    is_transition: Ef,
) -> (r: Ef)
    requires
        preprocessed.aligned(),
        main.aligned(),
        perm.aligned(),
        e.fits(shape_of(*preprocessed, *main, *perm, public_values@)),
    ensures
        r@ == e.eval(
            frame_of(
                *preprocessed,
                *main,
                *perm,
                perm_challenges@,
                public_values@,
                cumulative_sum,
                is_first_row,
                is_last_row,
                is_transition,
            ),
        ),
    decreases e,
{
    match e {
        SymbolicExpression::Constant(c) => Ef::from_base(*c),
        SymbolicExpression::Preprocessed { next, column } => if *next {
            preprocessed.next[*column]
        } else {
            preprocessed.local[*column]
        },
        SymbolicExpression::Main { next, column } => if *next {
            main.next[*column]
        } else {
            main.local[*column]
        },
        SymbolicExpression::Permutation { next, column } => if *next {
            perm.next[*column]
        } else {
            perm.local[*column]
        },
        SymbolicExpression::Public { index } => Ef::from_base(public_values[*index]),
        SymbolicExpression::ChallengePower { index, power } => power_of(
            perm_challenges[*index],
            *power,
        ),
        SymbolicExpression::CumulativeSum => cumulative_sum,
        SymbolicExpression::IsFirstRow => is_first_row,
        SymbolicExpression::IsLastRow => is_last_row,
        SymbolicExpression::IsTransition => is_transition,
        SymbolicExpression::Add(a, b) => {
            let x = evaluate(
                a,
                preprocessed,
                main,
                perm,
                perm_challenges,
                public_values,
                cumulative_sum,
                is_first_row,
                is_last_row,
                is_transition,
            );
            let y = evaluate(
                b,
                preprocessed,
                main,
                perm,
                perm_challenges,
                public_values,
                cumulative_sum,
                is_first_row,
                is_last_row,
                is_transition,
            );
            x.add(y)
        },
        SymbolicExpression::Sub(a, b) => {
            let x = evaluate(
                a,
                preprocessed,
                main,
                perm,
                perm_challenges,
                public_values,
                cumulative_sum,
                is_first_row,
                is_last_row,
                is_transition,
            );
            let y = evaluate(
                b,
                preprocessed,
                main,
                perm,
                perm_challenges,
                public_values,
                cumulative_sum,
                is_first_row,
                is_last_row,
                is_transition,
            );
            x.sub(y)
        },
        SymbolicExpression::Mul(a, b) => {
            let x = evaluate(
                a,
                preprocessed,
                main,
                perm,
                perm_challenges,
                public_values,
                cumulative_sum,
                is_first_row,
                is_last_row,
                is_transition,
            );
            let y = evaluate(
                b,
                preprocessed,
                main,
                perm,
                perm_challenges,
                public_values,
                cumulative_sum,
                is_first_row,
                is_last_row,
                is_transition,
            );
            x.mul(y)
        },
        SymbolicExpression::Neg(a) => {
            let x = evaluate(
                a,
                preprocessed,
                main,
                perm,
                perm_challenges,
                public_values,
                cumulative_sum,
                is_first_row,
                is_last_row,
                is_transition,
            );
            x.neg()
        },
    }
}

/// Whether every constraint reads only what `shape` offers.
pub open spec fn all_fit(constraints: Seq<SymbolicExpression>, shape: Shape) -> bool {
    forall|i: int| 0 <= i < constraints.len() ==> (#[trigger] constraints[i]).fits(shape)
}

/// Tests whether every constraint reads only what `shape` offers.
pub fn constraints_fit(constraints: &[SymbolicExpression], shape: &Shape) -> (r: bool)
    ensures
        r == all_fit(constraints@, *shape),
{
    let mut i: usize = 0;
    while i < constraints.len()
        invariant
            i <= constraints@.len(),
            forall|j: int| 0 <= j < i ==> (#[trigger] constraints@[j]).fits(*shape),
        decreases constraints@.len() - i,
    {
        if !constraints[i].fits_shape(shape) {
            return false;
        }
        i += 1;
    }
    true
}

} // verus!
