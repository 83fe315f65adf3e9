//! What a table hands to the machine, and the constraints that tie its
//! permutation trace to its other traces.

use vstd::prelude::*;
use crate::field::{fe_seq, Fe};
use crate::interaction::{
    all_interactions, all_interactions_model, interaction_models, labelled_models,
    lemma_all_interactions_model, Interaction, InteractionModel, InteractionType, PairCol,
    VirtualPairCol,
};
use crate::matrix::Matrix;
use crate::symbolic::{Shape, SymbolicAirBuilder, SymbolicExpression};
use crate::trace::ChipType;

verus! {

/// The index of the challenge `beta` among the permutation challenges.
pub const BETA: usize = 0;

/// The index of the challenge `gamma` among the permutation challenges.
pub const GAMMA: usize = 1;

/// The number of permutation challenges.
pub const NUM_PERM_CHALLENGES: usize = 2;

/// What a table is, as far as the machine reads it.
pub struct TableModel {
    /// The number of columns of the main trace.
    pub main_width: usize,
    /// What the table puts on the buses.
    pub sent: Seq<InteractionModel>,
    /// What the table takes off the buses.
    pub received: Seq<InteractionModel>,
    /// The table's own constraints, in the order in which it asserts them.
    pub asserted: Seq<SymbolicExpression>,
    /// The trace that is fixed when the machine is set up, if the table has
    /// one: its cells, row after row, and its width.
    pub preprocessed: Option<(Seq<int>, nat)>,
}

/// The cells, row after row, and the width of a trace, if there is one.
pub open spec fn trace_model(trace: Option<Matrix<Fe>>) -> Option<(Seq<int>, nat)> {
    match trace {
        Some(m) => Some((fe_seq(m.cells()), m.cols())),
        None => None,
    }
}

/// A table of the machine. A table says what it is, and what it hands to
/// the machine is held to that.
pub trait Chip {
    /// What the table is.
    spec fn model(&self) -> TableModel;

    /// The number of columns of the main trace.
    fn width(&self) -> (r: usize)
        ensures
            r == self.model().main_width,
    ;

    /// The trace that is fixed when the machine is set up, if the table has
    /// one.
    fn preprocessed_trace(&self) -> (r: Option<Matrix<Fe>>)
        ensures
            trace_model(r) == self.model().preprocessed,
    ;

    /// The main trace of the table, which has as many columns as the table
    /// says.
    fn generate_trace(&self) -> (r: Matrix<Fe>)
        ensures
            r.cols() == self.model().main_width,
    ;

    /// What the table puts on the buses.
    fn sends(&self) -> (r: Vec<Interaction>)
        ensures
            interaction_models(r@) == self.model().sent,
    ;

    /// What the table takes off the buses.
    fn receives(&self) -> (r: Vec<Interaction>)
        ensures
            interaction_models(r@) == self.model().received,
    ;

    /// Asserts the table's own constraints on `builder`.
    fn eval(&self, builder: &mut SymbolicAirBuilder)
        ensures
            final(builder).shape == old(builder).shape,
            final(builder).constraints@ == old(builder).constraints@ + self.model().asserted,
    ;

    /// The sends followed by the receives, each with its kind.
    fn all_interactions(&self) -> (r: Vec<(Interaction, InteractionType)>)
        ensures
            labelled_models(r@) == all_interactions_model(self.model().sent, self.model().received),
    {
        let sends = self.sends();
        let receives = self.receives();
        proof {
            lemma_all_interactions_model(sends@, receives@);
        }
        all_interactions(sends, receives)
    }
}

/// A table that the machine can prove.
pub trait MachineChip: Chip {
    /// The number of columns of the main trace.
    fn trace_width(&self) -> (r: usize)
        ensures
            r == self.model().main_width,
    {
        self.width()
    }
}

/// The cell of a column, on this row or on the next.
pub open spec fn column_expr(column: PairCol, next: bool) -> SymbolicExpression {
    match column {
        PairCol::Preprocessed(i) => SymbolicExpression::Preprocessed { next, column: i },
        PairCol::Main(i) => SymbolicExpression::Main { next, column: i },
    }
}

/// The constant of a virtual column plus its first `n` weighted columns, as
/// an expression.
pub open spec fn virtual_column_expr(column: VirtualPairCol, next: bool, n: nat) -> SymbolicExpression
    decreases n,
{
    if n == 0 {
        SymbolicExpression::Constant(column.constant)
    } else {
        SymbolicExpression::Add(
            Box::new(virtual_column_expr(column, next, (n - 1) as nat)),
            Box::new(
                SymbolicExpression::Mul(
                    Box::new(column_expr(column.column_weights@[n - 1].0, next)),
                    Box::new(SymbolicExpression::Constant(column.column_weights@[n - 1].1)),
                ),
            ),
        )
    }
}

/// A virtual column as an expression.
pub open spec fn virtual_column(column: VirtualPairCol, next: bool) -> SymbolicExpression {
    virtual_column_expr(column, next, column.column_weights@.len())
}

/// The first `n` fields of a message on this row, each multiplied by the
/// matching power of `beta` and summed.
pub open spec fn fields_expr(fields: Seq<VirtualPairCol>, n: nat) -> SymbolicExpression
    decreases n,
{
    if n == 0 {
        SymbolicExpression::Constant(Fe::spec_zero())
    } else {
        SymbolicExpression::Add(
            Box::new(fields_expr(fields, (n - 1) as nat)),
            Box::new(
                SymbolicExpression::Mul(
                    Box::new(
                        SymbolicExpression::ChallengePower { index: BETA, power: (n - 1) as usize },
                    ),
                    Box::new(virtual_column(fields[n - 1], false)),
                ),
            ),
        )
    }
}

/// The random linear combination of a message on this row: its fields
/// combined by the powers of `beta`, plus the tag of its bus.
pub open spec fn message_expr(interaction: Interaction) -> SymbolicExpression {
    SymbolicExpression::Add(
        Box::new(fields_expr(interaction.fields@, interaction.fields@.len())),
        Box::new(
            SymbolicExpression::ChallengePower {
                index: GAMMA,
                power: (interaction.argument_index + 1) as usize,
            },
        ),
    )
}

/// The constraint on column `m` of the permutation trace: the cell times the
/// random linear combination of the message is one.
pub open spec fn reciprocal_constraint(interaction: Interaction, m: usize) -> SymbolicExpression {
    SymbolicExpression::Sub(
        Box::new(
            SymbolicExpression::Mul(
                Box::new(message_expr(interaction)),
                Box::new(SymbolicExpression::Permutation { next: false, column: m }),
            ),
        ),
        Box::new(SymbolicExpression::Constant(Fe::spec_one())),
    )
}

/// The terms of the first `m` interactions on this row or on the next: each
/// reciprocal times its multiplicity, added for a send and subtracted for a
/// receive.
pub open spec fn terms_expr(
    interactions: Seq<(Interaction, InteractionType)>,
    next: bool,
    m: nat,
) -> SymbolicExpression
    decreases m,
{
    if m == 0 {
        SymbolicExpression::Constant(Fe::spec_zero())
    } else {
        let term = SymbolicExpression::Mul(
            Box::new(SymbolicExpression::Permutation { next, column: (m - 1) as usize }),
            Box::new(virtual_column(interactions[m - 1].0.count, next)),
        );
        match interactions[m - 1].1 {
            InteractionType::Send => SymbolicExpression::Add(
                Box::new(terms_expr(interactions, next, (m - 1) as nat)),
                Box::new(term),
            ),
            InteractionType::Receive => SymbolicExpression::Sub(
                Box::new(terms_expr(interactions, next, (m - 1) as nat)),
                Box::new(term),
            ),
        }
    }
}

/// On every row but the last, the running sum grows by the terms of the next
/// row.
pub open spec fn transition_constraint(
    interactions: Seq<(Interaction, InteractionType)>,
) -> SymbolicExpression {
    let k = interactions.len() as usize;
    SymbolicExpression::Mul(
        Box::new(SymbolicExpression::IsTransition),
        Box::new(
            SymbolicExpression::Sub(
                Box::new(
                    SymbolicExpression::Sub(
                        Box::new(SymbolicExpression::Permutation { next: true, column: k }),
                        Box::new(SymbolicExpression::Permutation { next: false, column: k }),
                    ),
                ),
                Box::new(terms_expr(interactions, true, interactions.len())),
            ),
        ),
    )
}

/// On the first row, the running sum is the terms of that row.
pub open spec fn first_row_constraint(
    interactions: Seq<(Interaction, InteractionType)>,
) -> SymbolicExpression {
    let k = interactions.len() as usize;
    SymbolicExpression::Mul(
        Box::new(SymbolicExpression::IsFirstRow),
        Box::new(
            SymbolicExpression::Sub(
                Box::new(SymbolicExpression::Permutation { next: false, column: k }),
                Box::new(terms_expr(interactions, false, interactions.len())),
            ),
        ),
    )
}

/// On the last row, the running sum is the cumulative sum that the table
/// claims.
pub open spec fn last_row_constraint(
    interactions: Seq<(Interaction, InteractionType)>,
) -> SymbolicExpression {
    let k = interactions.len() as usize;
    SymbolicExpression::Mul(
        Box::new(SymbolicExpression::IsLastRow),
        Box::new(
            SymbolicExpression::Sub(
                Box::new(SymbolicExpression::Permutation { next: false, column: k }),
                Box::new(SymbolicExpression::CumulativeSum),
            ),
        ),
    )
}

/// The first `m` reciprocal constraints.
pub open spec fn reciprocal_constraints(
    interactions: Seq<(Interaction, InteractionType)>,
    m: nat,
) -> Seq<SymbolicExpression> {
    Seq::new(m, |i: int| reciprocal_constraint(interactions[i].0, i as usize))
}

/// The constraints that tie the permutation trace of a table to its other
/// traces: one reciprocal constraint for each interaction, then the
/// transition, first-row and last-row constraints of the running sum.
pub open spec fn permutation_constraints(
    interactions: Seq<(Interaction, InteractionType)>,
) -> Seq<SymbolicExpression> {
    reciprocal_constraints(interactions, interactions.len()).push(
        transition_constraint(interactions),
    ).push(first_row_constraint(interactions)).push(last_row_constraint(interactions))
}

/// Two virtual columns that are the same column give the same expression.
pub proof fn lemma_virtual_column_of_model(a: VirtualPairCol, b: VirtualPairCol, next: bool, n: nat)
    requires
        a.model() == b.model(),
        n <= a.column_weights@.len(),
    ensures
        a.column_weights@.len() == b.column_weights@.len(),
        virtual_column_expr(a, next, n) == virtual_column_expr(b, next, n),
    decreases n,
{
    assert(a.model().weights.len() == a.column_weights@.len());
    assert(b.model().weights.len() == b.column_weights@.len());
    Fe::lemma_view_injective(a.constant, b.constant);
    if n > 0 {
        lemma_virtual_column_of_model(a, b, next, (n - 1) as nat);
        assert(a.model().weights[n - 1] == b.model().weights[n - 1]);
        Fe::lemma_view_injective(a.column_weights@[n - 1].1, b.column_weights@[n - 1].1);
    }
}

/// Two lists of fields that are the same fields combine to the same
/// expression.
pub proof fn lemma_fields_of_models(a: Interaction, b: Interaction, n: nat)
    requires
        a.model() == b.model(),
        n <= a.fields@.len(),
    ensures
        a.fields@.len() == b.fields@.len(),
        fields_expr(a.fields@, n) == fields_expr(b.fields@, n),
    decreases n,
{
    assert(a.model().fields.len() == a.fields@.len());
    assert(b.model().fields.len() == b.fields@.len());
    if n > 0 {
        lemma_fields_of_models(a, b, (n - 1) as nat);
        assert(a.model().fields[n - 1] == a.fields@[n - 1].model());
        assert(b.model().fields[n - 1] == b.fields@[n - 1].model());
        lemma_virtual_column_of_model(
            a.fields@[n - 1],
            b.fields@[n - 1],
            false,
            a.fields@[n - 1].column_weights@.len(),
        );
    }
}

/// Two lists of interactions that are the same interactions with the same
/// kinds give the same terms.
pub proof fn lemma_terms_of_models(
    a: Seq<(Interaction, InteractionType)>,
    b: Seq<(Interaction, InteractionType)>,
    next: bool,
    m: nat,
)
    requires
        labelled_models(a) == labelled_models(b),
        m <= a.len(),
    ensures
        a.len() == b.len(),
        terms_expr(a, next, m) == terms_expr(b, next, m),
    decreases m,
{
    assert(labelled_models(a).len() == a.len());
    assert(labelled_models(b).len() == b.len());
    if m > 0 {
        lemma_terms_of_models(a, b, next, (m - 1) as nat);
        assert(labelled_models(a)[m - 1] == labelled_models(b)[m - 1]);
        lemma_virtual_column_of_model(
            a[m - 1].0.count,
            b[m - 1].0.count,
            next,
            a[m - 1].0.count.column_weights@.len(),
        );
    }
}

/// The permutation constraints of a list of interactions are fixed by what
/// the interactions are and by their kinds.
pub proof fn lemma_constraints_of_models(
    a: Seq<(Interaction, InteractionType)>,
    b: Seq<(Interaction, InteractionType)>,
)
    requires
        labelled_models(a) == labelled_models(b),
    ensures
        permutation_constraints(a) == permutation_constraints(b),
{
    assert(labelled_models(a).len() == a.len());
    assert(labelled_models(b).len() == b.len());
    lemma_terms_of_models(a, b, true, a.len());
    lemma_terms_of_models(a, b, false, a.len());
    assert forall|i: int| 0 <= i < a.len() implies reciprocal_constraint(a[i].0, i as usize)
        == reciprocal_constraint(b[i].0, i as usize) by {
        assert(labelled_models(a)[i] == labelled_models(b)[i]);
        lemma_fields_of_models(a[i].0, b[i].0, a[i].0.fields@.len());
    }
    assert(reciprocal_constraints(a, a.len()) =~= reciprocal_constraints(b, b.len()));
}

/// A virtual column as an expression over this row or the next.
pub fn apply_symbolic(column: &VirtualPairCol, next: bool) -> (r: SymbolicExpression)
    ensures
        r == virtual_column(*column, next),
{
    let mut acc = SymbolicExpression::Constant(column.constant);
    let mut i: usize = 0;
    while i < column.column_weights.len()
        invariant
            i <= column.column_weights@.len(),
            acc == virtual_column_expr(*column, next, i as nat),
        decreases column.column_weights@.len() - i,
    {
        let cell = match column.column_weights[i].0 {
            PairCol::Preprocessed(c) => SymbolicExpression::Preprocessed { next, column: c },
            PairCol::Main(c) => SymbolicExpression::Main { next, column: c },
        };
        let weight = SymbolicExpression::Constant(column.column_weights[i].1);
        acc = acc.plus(cell.times(weight));
        i += 1;
    }
    acc
}

/// The random linear combination of a message, as an expression.
fn message_symbolic(interaction: &Interaction) -> (r: SymbolicExpression)
    requires
        interaction.argument_index < usize::MAX,
    ensures
        r == message_expr(*interaction),
{
    let mut rlc = SymbolicExpression::Constant(Fe::zero());
    let mut j: usize = 0;
    while j < interaction.fields.len()
        invariant
            j <= interaction.fields@.len(),
            rlc == fields_expr(interaction.fields@, j as nat),
        decreases interaction.fields@.len() - j,
    {
        let beta = SymbolicExpression::ChallengePower { index: BETA, power: j };
        let elem = apply_symbolic(&interaction.fields[j], false);
        rlc = rlc.plus(beta.times(elem));
        j += 1;
    }
    rlc.plus(
        SymbolicExpression::ChallengePower { index: GAMMA, power: interaction.argument_index + 1 },
    )
}

/// The terms of all interactions on this row or on the next, as an
/// expression.
fn terms_symbolic(interactions: &[(Interaction, InteractionType)], next: bool) -> (r:
    SymbolicExpression)
    ensures
        r == terms_expr(interactions@, next, interactions@.len()),
{
    let mut acc = SymbolicExpression::Constant(Fe::zero());
    let mut m: usize = 0;
    while m < interactions.len()
        invariant
            m <= interactions@.len(),
            acc == terms_expr(interactions@, next, m as nat),
        decreases interactions@.len() - m,
    {
        let reciprocal = SymbolicExpression::Permutation { next, column: m };
        let term = reciprocal.times(apply_symbolic(&interactions[m].0.count, next));
        acc = match interactions[m].1 {
            InteractionType::Send => acc.plus(term),
            InteractionType::Receive => acc.minus(term),
        };
        m += 1;
    }
    acc
}

/// Asserts on `builder` the constraints that tie the permutation trace to
/// the other traces of a table with the given interactions.
pub fn eval_permutation_constraints(
    interactions: &[(Interaction, InteractionType)],
    builder: &mut SymbolicAirBuilder,
)
    requires
        forall|m: int|
            0 <= m < interactions@.len() ==> (#[trigger] interactions@[m]).0.argument_index
                < usize::MAX,
    ensures
        final(builder).shape == old(builder).shape,
        final(builder).constraints@ == old(builder).constraints@ + permutation_constraints(
            interactions@,
        ),
{
    let k: usize = interactions.len();
    let ghost before = builder.constraints@;
    let mut m: usize = 0;
    while m < k
        invariant
            m <= k,
            k == interactions@.len(),
            builder.shape == old(builder).shape,
            forall|i: int|
                0 <= i < interactions@.len() ==> (#[trigger] interactions@[i]).0.argument_index
                    < usize::MAX,
            builder.constraints@ == before + reciprocal_constraints(interactions@, m as nat),
        decreases k - m,
    {
        let rlc = message_symbolic(&interactions[m].0);
        let cell = builder.permutation(false, m);
        builder.assert_one(rlc.times(cell));
        proof {
            assert(reciprocal_constraints(interactions@, (m + 1) as nat) == reciprocal_constraints(
                interactions@,
                m as nat,
            ).push(reciprocal_constraint(interactions@[m as int].0, m)));
        }
        m += 1;
    }
    let phi_local = builder.permutation(false, k);
    let phi_next = builder.permutation(true, k);
    let rhs = terms_symbolic(interactions, true);
    let lhs = phi_next.minus(phi_local);
    let transition = builder.is_transition_window(2);
    builder.assert_eq_when(transition, lhs, rhs);

    let phi_0 = terms_symbolic(interactions, false);
    let first = builder.is_first_row();
    let phi = builder.permutation(false, k);
    builder.assert_eq_when(first, phi, phi_0);

    let last = builder.is_last_row();
    let phi = builder.permutation(false, k);
    builder.assert_eq_when(last, phi, SymbolicExpression::CumulativeSum);
}

/// Whether one more than every bus identifier is a machine integer.
pub open spec fn buses_in_range(interactions: Seq<(InteractionModel, InteractionType)>) -> bool {
    forall|m: int| 0 <= m < interactions.len() ==> (#[trigger] interactions[m]).0.bus < usize::MAX
}

/// Asserts on `builder` all constraints of a table: its own, then those of
/// its permutation trace. Returns the interactions of the table, or `None`,
/// with only the table's own constraints asserted, where a bus identifier
/// is the largest machine integer.
pub fn eval_all<C: Chip>(chip: &C, builder: &mut SymbolicAirBuilder) -> (r: Option<
    Vec<(Interaction, InteractionType)>,
>)
    ensures
        final(builder).shape == old(builder).shape,
        r is Some <==> buses_in_range(all_interactions_model(chip.model().sent, chip.model().received)),
        r matches Some(interactions) ==> labelled_models(interactions@) == all_interactions_model(
            chip.model().sent,
            chip.model().received,
        ) && final(builder).constraints@ == old(builder).constraints@ + chip.model().asserted
            + permutation_constraints(interactions@),
        r is None ==> final(builder).constraints@ == old(builder).constraints@ + chip.model().asserted,
{
    chip.eval(builder);
    let interactions = chip.all_interactions();
    proof {
        let models = labelled_models(interactions@);
        assert(models.len() == interactions@.len());
        assert forall|m: int| 0 <= m < interactions@.len() implies (#[trigger] models[m]).0.bus
            == interactions@[m].0.argument_index by {}
        if buses_in_range(models) {
            assert forall|m: int| 0 <= m < interactions@.len() implies (
            #[trigger] interactions@[m]).0.argument_index < usize::MAX by {
                assert(models[m].0.bus < usize::MAX);
            }
        }
    }
    if !buses_fit(&interactions) {
        return None;
    }
    eval_permutation_constraints(interactions.as_slice(), builder);
    Some(interactions)
}

/// What the machine keeps of a table: all its constraints, its own followed
/// by those of its permutation trace; its interactions, the sends before
/// the receives; and its preprocessed trace. The constraints may read
/// `public_values` public values. `None` where the table has as many
/// interactions as the largest machine integer, or uses that integer as a
/// bus identifier.
pub fn chip_type<C: Chip>(chip: &C, public_values: usize) -> (r: Option<ChipType>)
    ensures
        r is Some <==> all_interactions_model(chip.model().sent, chip.model().received).len()
            < usize::MAX && buses_in_range(
            all_interactions_model(chip.model().sent, chip.model().received),
        ),
        r matches Some(t) ==> {
            &&& labelled_models(t.interactions@) == all_interactions_model(
                chip.model().sent,
                chip.model().received,
            )
            &&& t.constraints@ == chip.model().asserted + permutation_constraints(t.interactions@)
            &&& trace_model(t.preprocessed) == chip.model().preprocessed
        },
{
    let listed = chip.all_interactions();
    proof {
        assert(labelled_models(listed@).len() == listed@.len());
    }
    if listed.len() == usize::MAX {
        return None;
    }
    let preprocessed = chip.preprocessed_trace();
    let shape = Shape {
        preprocessed_width: match &preprocessed {
            Some(m) => m.width(),
            None => 0,
        },
        main_width: chip.width(),
        permutation_width: listed.len() + 1,
        public_values,
        challenges: NUM_PERM_CHALLENGES,
    };
    let mut builder = SymbolicAirBuilder::new(shape);
    match eval_all(chip, &mut builder) {
        Some(interactions) => {
            proof {
                assert(builder.constraints@ =~= chip.model().asserted + permutation_constraints(
                    interactions@,
                ));
            }
            Some(ChipType { constraints: builder.constraints, interactions, preprocessed })
        },
        None => None,
    }
}

/// Tests whether one more than every bus identifier is a machine integer.
pub fn buses_fit(interactions: &Vec<(Interaction, InteractionType)>) -> (r: bool)
    ensures
        r == forall|m: int|
            0 <= m < interactions@.len() ==> (#[trigger] interactions@[m]).0.argument_index
                < usize::MAX,
{
    let mut m: usize = 0;
    while m < interactions.len()
        invariant
            m <= interactions@.len(),
            forall|i: int|
                0 <= i < m ==> (#[trigger] interactions@[i]).0.argument_index < usize::MAX,
        decreases interactions@.len() - m,
    {
        if interactions[m].0.argument_index == usize::MAX {
            return false;
        }
        m += 1;
    }
    true
}

} // verus!
