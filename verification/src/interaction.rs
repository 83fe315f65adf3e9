//! Virtual columns and the bus model: what one table sends to, and receives
//! from, the others.

use vstd::prelude::*;
use crate::extension::{ext_add, ext_pow, ext_scale, ext_zero, lemma_mul_one_left, Ef, Ext};
use crate::field::{fe_seq, fp_add, fp_mul, modulus, Fe};

verus! {

/// Whether an interaction puts a message on its bus or takes one off.
#[derive(Clone, Copy, Debug, PartialEq, Eq, Structural)]
pub enum InteractionType {
    Send,
    Receive,
}

/// A column of the preprocessed trace or of the main trace.
#[derive(Clone, Copy, Debug, PartialEq, Eq, Structural)]
pub enum PairCol {
    Preprocessed(usize),
    Main(usize),
}

impl PairCol {
    /// Whether the column exists in rows of the given widths.
    pub open spec fn fits(self, preprocessed_width: nat, main_width: nat) -> bool {
        match self {
            PairCol::Preprocessed(i) => i < preprocessed_width,
            PairCol::Main(i) => i < main_width,
        }
    }

    /// The cell of this column in a pair of rows.
    pub open spec fn read(self, preprocessed: Seq<int>, main: Seq<int>) -> int {
        match self {
            PairCol::Preprocessed(i) => preprocessed[i as int],
            PairCol::Main(i) => main[i as int],
        }
    }

    /// The cell of this column in a pair of rows.
    pub fn get(&self, preprocessed: &[Fe], main: &[Fe]) -> (r: Fe)
        requires
            self.fits(preprocessed@.len(), main@.len()),
        ensures
            r@ == self.read(fe_seq(preprocessed@), fe_seq(main@)),
    {
        match self {
            PairCol::Preprocessed(i) => preprocessed[*i],
            PairCol::Main(i) => main[*i],
        }
    }
}

/// An affine form over the cells of a preprocessed row and a main row: a
/// constant plus a weighted sum of columns.
#[derive(Clone, Debug)]
pub struct VirtualPairCol {
    pub column_weights: Vec<(PairCol, Fe)>,
    pub constant: Fe,
}

impl VirtualPairCol {
    /// Whether every column of the form exists in rows of the given widths.
    pub open spec fn fits(self, preprocessed_width: nat, main_width: nat) -> bool {
        forall|i: int|
            0 <= i < self.column_weights@.len() ==> (#[trigger] self.column_weights@[i]).0.fits(
                preprocessed_width,
                main_width,
            )
    }

    /// The constant plus the first `n` weighted columns.
    pub open spec fn partial(self, preprocessed: Seq<int>, main: Seq<int>, n: nat) -> int
        decreases n,
    {
        if n == 0 {
            self.constant@
        } else {
            let term = self.column_weights@[n - 1];
            fp_add(
                self.partial(preprocessed, main, (n - 1) as nat),
                fp_mul(term.0.read(preprocessed, main), term.1@),
            )
        }
    }

    /// The value of the form on a pair of rows.
    pub open spec fn value(self, preprocessed: Seq<int>, main: Seq<int>) -> int {
        self.partial(preprocessed, main, self.column_weights@.len())
    }

    pub fn new(column_weights: Vec<(PairCol, Fe)>, constant: Fe) -> (r: VirtualPairCol)
        ensures
            r.column_weights == column_weights,
            r.constant == constant,
    {
        VirtualPairCol { column_weights, constant }
    }

    /// The form that is `x` on every row.
    pub fn constant(x: Fe) -> (r: VirtualPairCol)
        ensures
            r.column_weights@.len() == 0,
            r.constant == x,
            forall|p: Seq<int>, m: Seq<int>| #[trigger] r.value(p, m) == x@,
    {
        VirtualPairCol { column_weights: Vec::new(), constant: x }
    }

    /// The form that equals one column.
    pub fn single(column: PairCol) -> (r: VirtualPairCol)
        ensures
            r.column_weights@.len() == 1,
            r.column_weights@[0].0 == column,
            r.column_weights@[0].1@ == 1,
            r.constant@ == 0,
            forall|p: Seq<int>, m: Seq<int>| #[trigger]
                r.value(p, m) == column.read(p, m) % modulus(),
    {
        let mut column_weights: Vec<(PairCol, Fe)> = Vec::new();
        column_weights.push((column, Fe::one()));
        let r = VirtualPairCol { column_weights, constant: Fe::zero() };
        proof {
            assert forall|p: Seq<int>, m: Seq<int>| #[trigger]
                r.value(p, m) == column.read(p, m) % modulus() by {
                reveal_with_fuel(VirtualPairCol::partial, 2);
                let x = column.read(p, m);
                assert(x * 1 == x);
                vstd::arithmetic::div_mod::lemma_mod_twice(x, modulus());
                assert(0 + x % modulus() == x % modulus());
            }
        }
        r
    }

    /// The form that equals one column of the main trace.
    pub fn single_main(column: usize) -> (r: VirtualPairCol)
        ensures
            r.column_weights@.len() == 1,
            r.column_weights@[0].0 == PairCol::Main(column),
            r.column_weights@[0].1@ == 1,
            r.constant@ == 0,
            forall|p: Seq<int>, m: Seq<int>| #[trigger]
                r.value(p, m) == m[column as int] % modulus(),
    {
        VirtualPairCol::single(PairCol::Main(column))
    }

    /// The form that equals one column of the preprocessed trace.
    pub fn single_preprocessed(column: usize) -> (r: VirtualPairCol)
        ensures
            r.column_weights@.len() == 1,
            r.column_weights@[0].0 == PairCol::Preprocessed(column),
            r.column_weights@[0].1@ == 1,
            r.constant@ == 0,
            forall|p: Seq<int>, m: Seq<int>| #[trigger]
                r.value(p, m) == p[column as int] % modulus(),
    {
        VirtualPairCol::single(PairCol::Preprocessed(column))
    }

    /// Tests whether every column of the form exists in rows of the given
    /// widths.
    pub fn fits_widths(&self, preprocessed_width: usize, main_width: usize) -> (r: bool)
        ensures
            r == self.fits(preprocessed_width as nat, main_width as nat),
    {
        let mut i: usize = 0;
        while i < self.column_weights.len()
            invariant
                i <= self.column_weights@.len(),
                forall|j: int|
                    0 <= j < i ==> (#[trigger] self.column_weights@[j]).0.fits(
                        preprocessed_width as nat,
                        main_width as nat,
                    ),
            decreases self.column_weights@.len() - i,
        {
            let ok = match self.column_weights[i].0 {
                PairCol::Preprocessed(c) => c < preprocessed_width,
                PairCol::Main(c) => c < main_width,
            };
            if !ok {
                return false;
            }
            i += 1;
        }
        true
    }

    /// The value of the form on a pair of rows.
    pub fn apply(&self, preprocessed: &[Fe], main: &[Fe]) -> (r: Fe)
        requires
            self.fits(preprocessed@.len(), main@.len()),
        ensures
            r@ == self.value(fe_seq(preprocessed@), fe_seq(main@)),
    {
        let mut acc = self.constant;
        let mut i: usize = 0;
        while i < self.column_weights.len()
            invariant
                i <= self.column_weights@.len(),
                self.fits(preprocessed@.len(), main@.len()),
                acc@ == self.partial(fe_seq(preprocessed@), fe_seq(main@), i as nat),
            decreases self.column_weights@.len() - i,
        {
            let col = self.column_weights[i].0;
            let w = self.column_weights[i].1;
            acc = acc.add(col.get(preprocessed, main).mul(w));
            i += 1;
        }
        acc
    }
}

/// One message on a bus: the fields that make it up, how many times it is
/// sent or received on a row, and the bus that carries it.
#[derive(Clone, Debug)]
pub struct Interaction {
    pub fields: Vec<VirtualPairCol>,
    pub count: VirtualPairCol,
    pub argument_index: usize,
}

impl Interaction {
    /// Whether every column that the interaction reads exists in rows of the
    /// given widths.
    pub open spec fn fits(self, preprocessed_width: nat, main_width: nat) -> bool {
        &&& self.count.fits(preprocessed_width, main_width)
        &&& forall|j: int|
            0 <= j < self.fields@.len() ==> (#[trigger] self.fields@[j]).fits(
                preprocessed_width,
                main_width,
            )
    }

    /// Tests whether every column that the interaction reads exists in rows
    /// of the given widths.
    pub fn fits_widths(&self, preprocessed_width: usize, main_width: usize) -> (r: bool)
        ensures
            r == self.fits(preprocessed_width as nat, main_width as nat),
    {
        if !self.count.fits_widths(preprocessed_width, main_width) {
            return false;
        }
        let mut j: usize = 0;
        while j < self.fields.len()
            invariant
                j <= self.fields@.len(),
                forall|k: int|
                    0 <= k < j ==> (#[trigger] self.fields@[k]).fits(
                        preprocessed_width as nat,
                        main_width as nat,
                    ),
            decreases self.fields@.len() - j,
        {
            if !self.fields[j].fits_widths(preprocessed_width, main_width) {
                return false;
            }
            j += 1;
        }
        true
    }
}

/// What a virtual column is: its columns with their weights, in order, and
/// its constant.
pub struct ColumnModel {
    pub weights: Seq<(PairCol, int)>,
    pub constant: int,
}

/// What an interaction is: its fields, its multiplicity and its bus.
pub struct InteractionModel {
    pub fields: Seq<ColumnModel>,
    pub count: ColumnModel,
    pub bus: usize,
}

impl VirtualPairCol {
    /// What the virtual column is.
    pub open spec fn model(self) -> ColumnModel {
        ColumnModel {
            weights: self.column_weights@.map_values(|w: (PairCol, Fe)| (w.0, w.1@)),
            constant: self.constant@,
        }
    }
}

impl Interaction {
    /// What the interaction is.
    pub open spec fn model(self) -> InteractionModel {
        InteractionModel {
            fields: self.fields@.map_values(|f: VirtualPairCol| f.model()),
            count: self.count.model(),
            bus: self.argument_index,
        }
    }
}

/// What the interactions of a list are.
pub open spec fn interaction_models(interactions: Seq<Interaction>) -> Seq<InteractionModel> {
    interactions.map_values(|i: Interaction| i.model())
}

/// What the interactions of a list are, each with its kind.
pub open spec fn labelled_models(interactions: Seq<(Interaction, InteractionType)>) -> Seq<
    (InteractionModel, InteractionType),
> {
    interactions.map_values(|i: (Interaction, InteractionType)| (i.0.model(), i.1))
}

/// The sends, each marked as a send, followed by the receives, each marked
/// as a receive, over what the interactions are.
pub open spec fn all_interactions_model(
    sends: Seq<InteractionModel>,
    receives: Seq<InteractionModel>,
) -> Seq<(InteractionModel, InteractionType)> {
    sends.map_values(|i: InteractionModel| (i, InteractionType::Send)) + receives.map_values(
        |i: InteractionModel| (i, InteractionType::Receive),
    )
}

/// Joining the sends and the receives and then looking at what they are is
/// joining what they are.
pub proof fn lemma_all_interactions_model(sends: Seq<Interaction>, receives: Seq<Interaction>)
    ensures
        labelled_models(all_interactions_spec(sends, receives)) == all_interactions_model(
            interaction_models(sends),
            interaction_models(receives),
        ),
{
    assert(labelled_models(all_interactions_spec(sends, receives)) =~= all_interactions_model(
        interaction_models(sends),
        interaction_models(receives),
    ));
}

/// The sends, each marked as a send, followed by the receives, each marked
/// as a receive. The position of an interaction in this list is its column
/// in the permutation trace.
pub open spec fn all_interactions_spec(
    sends: Seq<Interaction>,
    receives: Seq<Interaction>,
) -> Seq<(Interaction, InteractionType)> {
    sends.map_values(|i: Interaction| (i, InteractionType::Send)) + receives.map_values(
        |i: Interaction| (i, InteractionType::Receive),
    )
}

/// Joins the sends and the receives of one table into its list of
/// interactions.
pub fn all_interactions(sends: Vec<Interaction>, receives: Vec<Interaction>) -> (r: Vec<
    (Interaction, InteractionType),
>)
    ensures
        r@ == all_interactions_spec(sends@, receives@),
{
    let mut out: Vec<(Interaction, InteractionType)> = Vec::new();
    for x in it: sends
        invariant
            out@ == it.seq().take(it.index() as int).map_values(
                |i: Interaction| (i, InteractionType::Send),
            ),
    {
        proof {
            let f = |i: Interaction| (i, InteractionType::Send);
            assert(it.seq().take(it.index() + 1) == it.seq().take(it.index() as int).push(x));
            assert(it.seq().take(it.index() + 1).map_values(f) == it.seq().take(
                it.index() as int,
            ).map_values(f).push(f(x)));
        }
        out.push((x, InteractionType::Send));
    }
    let ghost head = out@;
    for x in it: receives
        invariant
            out@ == head + it.seq().take(it.index() as int).map_values(
                |i: Interaction| (i, InteractionType::Receive),
            ),
    {
        proof {
            let f = |i: Interaction| (i, InteractionType::Receive);
            assert(it.seq().take(it.index() + 1) == it.seq().take(it.index() as int).push(x));
            assert(it.seq().take(it.index() + 1).map_values(f) == it.seq().take(
                it.index() as int,
            ).map_values(f).push(f(x)));
        }
        out.push((x, InteractionType::Receive));
    }
    out
}

/// The largest bus identifier among the first `n` interactions, or zero.
pub open spec fn max_bus(interactions: Seq<Interaction>, n: nat) -> nat
    decreases n,
{
    if n == 0 {
        0
    } else {
        let rest = max_bus(interactions, (n - 1) as nat);
        let bus = interactions[n - 1].argument_index as nat;
        if bus > rest {
            bus
        } else {
            rest
        }
    }
}

/// The largest bus identifier among `interactions`, or zero if there is
/// none.
pub fn largest_bus(interactions: &[Interaction]) -> (r: usize)
    ensures
        r == max_bus(interactions@, interactions@.len()),
{
    let mut best: usize = 0;
    let mut i: usize = 0;
    while i < interactions.len()
        invariant
            i <= interactions@.len(),
            best == max_bus(interactions@, i as nat),
        decreases interactions@.len() - i,
    {
        if interactions[i].argument_index > best {
            best = interactions[i].argument_index;
        }
        i += 1;
    }
    best
}

/// The first `count` powers of `base`, starting with `base` itself.
pub fn powers_from_first(base: Ef, count: usize) -> (r: Vec<Ef>)
    ensures
        r@.len() == count,
        forall|i: int| 0 <= i < count ==> (#[trigger] r@[i])@ == ext_pow(base@, (i + 1) as nat),
{
    let mut out: Vec<Ef> = Vec::new();
    let mut current = base;
    proof {
        use_type_invariant(&base);
        reveal_with_fuel(ext_pow, 2);
        lemma_mul_one_left(base@);
    }
    let mut i: usize = 0;
    while i < count
        invariant
            i <= count,
            out@.len() == i,
            current@ == ext_pow(base@, (i + 1) as nat),
            forall|j: int| 0 <= j < i ==> (#[trigger] out@[j])@ == ext_pow(base@, (j + 1) as nat),
        decreases count - i,
    {
        out.push(current);
        current = current.mul(base);
        i += 1;
    }
    out
}

/// The tags of the buses: entry `b` is the challenge raised to the power
/// `b + 1`, for every bus up to the largest that a send or a receive names.
pub fn generate_rlc_elements(
    sends: &[Interaction],
    receives: &[Interaction],
    random_element: Ef,
) -> (r: Vec<Ef>)
    requires
        max_bus(sends@, sends@.len()) < usize::MAX,
        max_bus(receives@, receives@.len()) < usize::MAX,
    ensures
        r@.len() == rlc_count(sends@, receives@),
        forall|b: int|
            0 <= b < r@.len() ==> (#[trigger] r@[b])@ == ext_pow(random_element@, (b + 1) as nat),
{
    let a: usize = largest_bus(sends);
    let b: usize = largest_bus(receives);
    let top: usize = if a > b {
        a
    } else {
        b
    };
    powers_from_first(random_element, top + 1)
}

/// One more than the largest bus identifier among the sends and the
/// receives.
pub open spec fn rlc_count(sends: Seq<Interaction>, receives: Seq<Interaction>) -> nat {
    let a = max_bus(sends, sends.len());
    let b = max_bus(receives, receives.len());
    if a > b {
        a + 1
    } else {
        b + 1
    }
}

/// The first `n` fields of a message, each scaled by the matching power of
/// `beta` and summed.
pub open spec fn combine_fields(
    preprocessed: Seq<int>,
    main: Seq<int>,
    fields: Seq<VirtualPairCol>,
    beta: Ext,
    n: nat,
) -> Ext
    decreases n,
{
    if n == 0 {
        ext_zero()
    } else {
        ext_add(
            combine_fields(preprocessed, main, fields, beta, (n - 1) as nat),
            ext_scale(ext_pow(beta, (n - 1) as nat), fields[n - 1].value(preprocessed, main)),
        )
    }
}

/// The random linear combination of a message: its fields combined by the
/// powers of `beta`, plus the tag `alpha` of its bus.
pub open spec fn reduce_row_spec(
    preprocessed: Seq<int>,
    main: Seq<int>,
    fields: Seq<VirtualPairCol>,
    alpha: Ext,
    beta: Ext,
) -> Ext {
    ext_add(combine_fields(preprocessed, main, fields, beta, fields.len()), alpha)
}

/// Computes the random linear combination of one message on one row.
pub fn reduce_row(
    preprocessed_row: &[Fe],
    main_row: &[Fe],
    fields: &[VirtualPairCol],
    alpha: Ef,
    beta: Ef,
) -> (r: Ef)
    requires
        forall|j: int|
            0 <= j < fields@.len() ==> (#[trigger] fields@[j]).fits(
                preprocessed_row@.len(),
                main_row@.len(),
            ),
    ensures
        r@ == reduce_row_spec(
            fe_seq(preprocessed_row@),
            fe_seq(main_row@),
            fields@,
            alpha@,
            beta@,
        ),
{
    let mut rlc = Ef::zero();
    let mut power = Ef::one();
    let mut j: usize = 0;
    while j < fields.len()
        invariant
            j <= fields@.len(),
            forall|k: int|
                0 <= k < fields@.len() ==> (#[trigger] fields@[k]).fits(
                    preprocessed_row@.len(),
                    main_row@.len(),
                ),
            power@ == ext_pow(beta@, j as nat),
            rlc@ == combine_fields(
                fe_seq(preprocessed_row@),
                fe_seq(main_row@),
                fields@,
                beta@,
                j as nat,
            ),
        decreases fields@.len() - j,
    {
        let elem = fields[j].apply(preprocessed_row, main_row);
        rlc = rlc.add(power.scale(elem));
        power = power.mul(beta);
        j += 1;
    }
    rlc.add(alpha)
}

} // verus!
