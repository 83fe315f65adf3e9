//! The balance of the buses: over all tables, what is sent on a bus must be
//! what is received on it.

use vstd::prelude::*;
use crate::extension::{ext_add, ext_zero, Ef, Ext};
use crate::field::Fe;
use crate::interaction::{Interaction, InteractionType};
use crate::matrix::Matrix;
use crate::permutation::{add_term, row_or_empty, trace_row, trace_width};
use crate::verify::VerificationError;

verus! {

/// `acc` plus the terms of one interaction, whose reciprocals stand in
/// column `j` of the permutation trace, on the first `n` rows.
pub open spec fn column_sum(
    acc: Ext,
    perm: Matrix<Ef>,
    preprocessed: Option<Matrix<Fe>>,
    main: Option<Matrix<Fe>>,
    interaction: Interaction,
    kind: InteractionType,
    j: int,
    n: nat,
) -> Ext
    decreases n,
{
    if n == 0 {
        acc
    } else {
        add_term(
            column_sum(acc, perm, preprocessed, main, interaction, kind, j, (n - 1) as nat),
            kind,
            perm.row(n - 1)[j]@,
            interaction.count.value(trace_row(preprocessed, n - 1), trace_row(main, n - 1)),
        )
    }
}

/// `acc` plus the terms, on all rows, of those among the first `j`
/// interactions of a table that use the bus.
pub open spec fn table_sum(
    acc: Ext,
    interactions: Seq<(Interaction, InteractionType)>,
    perm: Matrix<Ef>,
    preprocessed: Option<Matrix<Fe>>,
    main: Option<Matrix<Fe>>,
    bus: usize,
    j: nat,
) -> Ext
    decreases j,
{
    if j == 0 {
        acc
    } else {
        let before = table_sum(acc, interactions, perm, preprocessed, main, bus, (j - 1) as nat);
        if interactions[j - 1].0.argument_index == bus {
            column_sum(
                before,
                perm,
                preprocessed,
                main,
                interactions[j - 1].0,
                interactions[j - 1].1,
                j - 1,
                perm.rows(),
            )
        } else {
            before
        }
    }
}

/// The sum of a bus over the first `i` tables. A table without permutation
/// trace adds nothing.
pub open spec fn bus_sum(
    interactions: Seq<Vec<(Interaction, InteractionType)>>,
    preprocessed: Seq<Option<Matrix<Fe>>>,
    main: Seq<Option<Matrix<Fe>>>,
    permutation: Seq<Option<Matrix<Ef>>>,
    bus: usize,
    i: nat,
) -> Ext
    decreases i,
{
    if i == 0 {
        ext_zero()
    } else {
        let before = bus_sum(interactions, preprocessed, main, permutation, bus, (i - 1) as nat);
        match permutation[i - 1] {
            Some(perm) => table_sum(
                before,
                interactions[i - 1]@,
                perm,
                preprocessed[i - 1],
                main[i - 1],
                bus,
                interactions[i - 1]@.len(),
            ),
            None => before,
        }
    }
}

/// The sum of the cumulative sums of the first `i` tables: the last entry
/// of the last row of each permutation trace. A table without permutation
/// trace adds nothing.
pub open spec fn total_sum(permutation: Seq<Option<Matrix<Ef>>>, i: nat) -> Ext
    decreases i,
{
    if i == 0 {
        ext_zero()
    } else {
        let before = total_sum(permutation, (i - 1) as nat);
        match permutation[i - 1] {
            Some(perm) => ext_add(before, perm.row(perm.rows() - 1)[perm.cols() - 1]@),
            None => before,
        }
    }
}

/// The largest bus identifier among the interactions of the first `i`
/// tables, or zero.
pub open spec fn top_bus(interactions: Seq<Vec<(Interaction, InteractionType)>>, i: nat) -> usize
    decreases i,
{
    if i == 0 {
        0
    } else {
        let before = top_bus(interactions, (i - 1) as nat);
        let here = top_of(interactions[i - 1]@, interactions[i - 1]@.len());
        if here > before {
            here
        } else {
            before
        }
    }
}

/// The largest bus identifier among the first `j` interactions, or zero.
pub open spec fn top_of(interactions: Seq<(Interaction, InteractionType)>, j: nat) -> usize
    decreases j,
{
    if j == 0 {
        0
    } else {
        let before = top_of(interactions, (j - 1) as nat);
        if interactions[j - 1].0.argument_index > before {
            interactions[j - 1].0.argument_index
        } else {
            before
        }
    }
}

/// Whether the traces of table `i` can be summed: its permutation trace, if
/// it has one, has rows, a column for each interaction and one more; its
/// other traces have a row for each row of the permutation trace; and every
/// multiplicity reads only columns that exist.
pub open spec fn table_summable(
    interactions: Seq<(Interaction, InteractionType)>,
    preprocessed: Option<Matrix<Fe>>,
    main: Option<Matrix<Fe>>,
    permutation: Option<Matrix<Ef>>,
) -> bool {
    permutation is Some ==> {
        let perm = permutation->0;
        &&& perm.rows() > 0
        &&& perm.cols() > interactions.len()
        &&& preprocessed is Some ==> preprocessed->0.rows() >= perm.rows()
        &&& main is Some ==> main->0.rows() >= perm.rows()
        &&& forall|j: int|
            0 <= j < interactions.len() ==> (#[trigger] interactions[j]).0.count.fits(
                trace_width(preprocessed),
                trace_width(main),
            )
    }
}

/// Whether the traces of all tables can be summed.
pub open spec fn summable(
    interactions: Seq<Vec<(Interaction, InteractionType)>>,
    preprocessed: Seq<Option<Matrix<Fe>>>,
    main: Seq<Option<Matrix<Fe>>>,
    permutation: Seq<Option<Matrix<Ef>>>,
) -> bool {
    &&& interactions.len() == permutation.len()
    &&& preprocessed.len() == permutation.len()
    &&& main.len() == permutation.len()
    &&& forall|i: int|
        0 <= i < permutation.len() ==> table_summable(
            (#[trigger] interactions[i])@,
            preprocessed[i],
            main[i],
            permutation[i],
        )
}

/// Tests whether the traces of one table can be summed.
pub fn check_table_summable(
    interactions: &Vec<(Interaction, InteractionType)>,
    preprocessed: &Option<Matrix<Fe>>,
    main: &Option<Matrix<Fe>>,
    permutation: &Option<Matrix<Ef>>,
) -> (r: bool)
    ensures
        r == table_summable(interactions@, *preprocessed, *main, *permutation),
{
    let perm = match permutation {
        Some(perm) => perm,
        None => {
            return true;
        },
    };
    if perm.height() == 0 || perm.width() <= interactions.len() {
        return false;
    }
    let preprocessed_width: usize = match preprocessed {
        Some(p) => {
            if p.height() < perm.height() {
                return false;
            }
            p.width()
        },
        None => 0,
    };
    let main_width: usize = match main {
        Some(m) => {
            if m.height() < perm.height() {
                return false;
            }
            m.width()
        },
        None => 0,
    };
    let mut j: usize = 0;
    while j < interactions.len()
        invariant
            j <= interactions@.len(),
            permutation is Some,
            preprocessed_width == trace_width(*preprocessed),
            main_width == trace_width(*main),
            forall|j1: int|
                0 <= j1 < j ==> (#[trigger] interactions@[j1]).0.count.fits(
                    trace_width(*preprocessed),
                    trace_width(*main),
                ),
        decreases interactions@.len() - j,
    {
        if !interactions[j].0.count.fits_widths(preprocessed_width, main_width) {
            return false;
        }
        j += 1;
    }
    true
}

/// Tests whether the traces of all tables can be summed.
pub fn check_summable(
    interactions: &[Vec<(Interaction, InteractionType)>],
    preprocessed: &[Option<Matrix<Fe>>],
    main: &[Option<Matrix<Fe>>],
    permutation: &[Option<Matrix<Ef>>],
) -> (r: bool)
    ensures
        r == summable(interactions@, preprocessed@, main@, permutation@),
{
    if interactions.len() != permutation.len() || preprocessed.len() != permutation.len()
        || main.len() != permutation.len() {
        return false;
    }
    let mut i: usize = 0;
    while i < permutation.len()
        invariant
            i <= permutation@.len(),
            interactions@.len() == permutation@.len(),
            preprocessed@.len() == permutation@.len(),
            main@.len() == permutation@.len(),
            forall|i1: int|
                0 <= i1 < i ==> table_summable(
                    (#[trigger] interactions@[i1])@,
                    preprocessed@[i1],
                    main@[i1],
                    permutation@[i1],
                ),
        decreases permutation@.len() - i,
    {
        if !check_table_summable(&interactions[i], &preprocessed[i], &main[i], &permutation[i]) {
            return false;
        }
        i += 1;
    }
    true
}

/// Adds to `acc` the terms of one table on one bus.
fn add_table(
    acc: Ef,
    interactions: &Vec<(Interaction, InteractionType)>,
    perm: &Matrix<Ef>,
    preprocessed: &Option<Matrix<Fe>>,
    main: &Option<Matrix<Fe>>,
    bus: usize,
) -> (r: Ef)
    requires
        table_summable(interactions@, *preprocessed, *main, Some(*perm)),
    ensures
        r@ == table_sum(acc@, interactions@, *perm, *preprocessed, *main, bus, interactions@.len()),
{
    let empty: Vec<Fe> = Vec::new();
    let height: usize = perm.height();
    let mut sum = acc;
    let mut j: usize = 0;
    while j < interactions.len()
        invariant
            j <= interactions@.len(),
            empty@.len() == 0,
            height == perm.rows(),
            perm.well_formed(),
            table_summable(interactions@, *preprocessed, *main, Some(*perm)),
            sum@ == table_sum(acc@, interactions@, *perm, *preprocessed, *main, bus, j as nat),
        decreases interactions@.len() - j,
    {
        if interactions[j].0.argument_index == bus {
            let ghost start = sum@;
            let mut n: usize = 0;
            while n < height
                invariant
                    n <= height,
                    j < interactions@.len(),
                    empty@.len() == 0,
                    height == perm.rows(),
                    perm.well_formed(),
                    table_summable(interactions@, *preprocessed, *main, Some(*perm)),
                    sum@ == column_sum(
                        start,
                        *perm,
                        *preprocessed,
                        *main,
                        interactions@[j as int].0,
                        interactions@[j as int].1,
                        j as int,
                        n as nat,
                    ),
                decreases height - n,
            {
                let preprocessed_row = row_or_empty(preprocessed.as_ref(), &empty, n);
                let main_row = row_or_empty(main.as_ref(), &empty, n);
                assert(interactions@[j as int].0.count.fits(
                    trace_width(*preprocessed),
                    trace_width(*main),
                ));
                let mult = interactions[j].0.count.apply(preprocessed_row, main_row);
                proof {
                    perm.lemma_row(n as int);
                }
                let term = perm.get(n, j).scale(mult);
                sum = match interactions[j].1 {
                    InteractionType::Send => sum.add(term),
                    InteractionType::Receive => sum.sub(term),
                };
                n += 1;
            }
        }
        j += 1;
    }
    sum
}

/// The sum of one bus over all tables.
pub fn sum_of_bus(
    interactions: &[Vec<(Interaction, InteractionType)>],
    preprocessed: &[Option<Matrix<Fe>>],
    main: &[Option<Matrix<Fe>>],
    permutation: &[Option<Matrix<Ef>>],
    bus: usize,
) -> (r: Ef)
    requires
        summable(interactions@, preprocessed@, main@, permutation@),
    ensures
        r@ == bus_sum(
            interactions@,
            preprocessed@,
            main@,
            permutation@,
            bus,
            permutation@.len(),
        ),
{
    let mut sum = Ef::zero();
    let mut i: usize = 0;
    while i < permutation.len()
        invariant
            i <= permutation@.len(),
            summable(interactions@, preprocessed@, main@, permutation@),
            sum@ == bus_sum(interactions@, preprocessed@, main@, permutation@, bus, i as nat),
        decreases permutation@.len() - i,
    {
        match &permutation[i] {
            Some(perm) => {
                assert(table_summable(
                    interactions@[i as int]@,
                    preprocessed@[i as int],
                    main@[i as int],
                    permutation@[i as int],
                ));
                sum = add_table(sum, &interactions[i], perm, &preprocessed[i], &main[i], bus);
            },
            None => {},
        }
        i += 1;
    }
    sum
}

/// The largest bus identifier that any table uses, or zero.
pub fn largest_bus_used(interactions: &[Vec<(Interaction, InteractionType)>]) -> (r: usize)
    ensures
        r == top_bus(interactions@, interactions@.len()),
{
    let mut top: usize = 0;
    let mut i: usize = 0;
    while i < interactions.len()
        invariant
            i <= interactions@.len(),
            top == top_bus(interactions@, i as nat),
        decreases interactions@.len() - i,
    {
        let list = &interactions[i];
        let mut here: usize = 0;
        let mut j: usize = 0;
        while j < list.len()
            invariant
                j <= list@.len(),
                here == top_of(list@, j as nat),
            decreases list@.len() - j,
        {
            if list[j].0.argument_index > here {
                here = list[j].0.argument_index;
            }
            j += 1;
        }
        if here > top {
            top = here;
        }
        i += 1;
    }
    top
}

/// Checks that every bus balances, and that the cumulative sums of all
/// tables add up to zero. The buses are checked in the order of their
/// identifiers, and the first that does not balance is reported. Where
/// every bus balances and the cumulative sums still do not add up to zero,
/// no bus is named.
pub fn check_cumulative_sums(
    interactions: &[Vec<(Interaction, InteractionType)>],
    preprocessed: &[Option<Matrix<Fe>>],
    main: &[Option<Matrix<Fe>>],
    permutation: &[Option<Matrix<Ef>>],
) -> (r: Result<(), VerificationError>)
    requires
        summable(interactions@, preprocessed@, main@, permutation@),
    ensures
        r is Ok <==> (forall|b: usize|
            b <= top_bus(interactions@, interactions@.len()) ==> #[trigger] bus_sum(
                interactions@,
                preprocessed@,
                main@,
                permutation@,
                b,
                permutation@.len(),
            ) == ext_zero()) && total_sum(permutation@, permutation@.len()) == ext_zero(),
        r matches Err(e) ==> match e {
            VerificationError::NonZeroCumulativeSum { bus_id: Some(bus_id) } => {
                &&& bus_id <= top_bus(interactions@, interactions@.len())
                &&& bus_sum(
                    interactions@,
                    preprocessed@,
                    main@,
                    permutation@,
                    bus_id,
                    permutation@.len(),
                ) != ext_zero()
                &&& forall|b: usize|
                    b < bus_id ==> #[trigger] bus_sum(
                        interactions@,
                        preprocessed@,
                        main@,
                        permutation@,
                        b,
                        permutation@.len(),
                    ) == ext_zero()
            },
            VerificationError::NonZeroCumulativeSum { bus_id: None } => {
                &&& forall|b: usize|
                    b <= top_bus(interactions@, interactions@.len()) ==> #[trigger] bus_sum(
                        interactions@,
                        preprocessed@,
                        main@,
                        permutation@,
                        b,
                        permutation@.len(),
                    ) == ext_zero()
                &&& total_sum(permutation@, permutation@.len()) != ext_zero()
            },
            _ => false,
        },
{
    let top: usize = largest_bus_used(interactions);
    let mut bus: usize = 0;
    loop
        invariant
            bus <= top,
            top == top_bus(interactions@, interactions@.len()),
            summable(interactions@, preprocessed@, main@, permutation@),
            forall|b: usize|
                b < bus ==> #[trigger] bus_sum(
                    interactions@,
                    preprocessed@,
                    main@,
                    permutation@,
                    b,
                    permutation@.len(),
                ) == ext_zero(),
        ensures
            forall|b: usize|
                b <= top ==> #[trigger] bus_sum(
                    interactions@,
                    preprocessed@,
                    main@,
                    permutation@,
                    b,
                    permutation@.len(),
                ) == ext_zero(),
        decreases top - bus,
    {
        let sum = sum_of_bus(interactions, preprocessed, main, permutation, bus);
        if !sum.is_zero() {
            return Err(VerificationError::NonZeroCumulativeSum { bus_id: Some(bus) });
        }
        if bus == top {
            break ;
        }
        bus += 1;
    }
    let mut total = Ef::zero();
    let mut i: usize = 0;
    while i < permutation.len()
        invariant
            i <= permutation@.len(),
            summable(interactions@, preprocessed@, main@, permutation@),
            total@ == total_sum(permutation@, i as nat),
        decreases permutation@.len() - i,
    {
        match &permutation[i] {
            Some(perm) => {
                assert(table_summable(
                    interactions@[i as int]@,
                    preprocessed@[i as int],
                    main@[i as int],
                    permutation@[i as int],
                ));
                let height: usize = perm.height();
                let width: usize = perm.width();
                proof {
                    perm.lemma_row(height - 1);
                }
                total = total.add(perm.get(height - 1, width - 1));
            },
            None => {},
        }
        i += 1;
    }
    if total.is_zero() {
        Ok(())
    } else {
        Err(VerificationError::NonZeroCumulativeSum { bus_id: None })
    }
}

} // verus!
