use rap_machine::bus::check_cumulative_sums;
use rap_machine::check_constraints::{check_constraints, check_constraints_and_track};
use rap_machine::entry::Entry;
use rap_machine::extension::Ef;
use rap_machine::field::Fe;
use rap_machine::interaction::{Interaction, InteractionType, VirtualPairCol};
use rap_machine::matrix::Matrix;
use rap_machine::permutation::generate_permutation_trace;
use rap_machine::symbolic::{
    checked_quotient_degree, get_log_quotient_degree, get_max_constraint_degree,
    get_quotient_degree, SymbolicExpression,
};
use rap_machine::verify::VerificationError;

fn fe(v: u32) -> Fe {
    Fe::new(v)
}

fn base(v: u32) -> Ef {
    Ef::from_base(Fe::new(v))
}

fn column(values: &[u32]) -> Matrix<Fe> {
    Matrix::new(values.iter().map(|v| Fe::new(*v)).collect(), 1)
}

fn main0() -> SymbolicExpression {
    SymbolicExpression::Main { next: false, column: 0 }
}

fn constant(v: u32) -> SymbolicExpression {
    SymbolicExpression::Constant(Fe::new(v))
}

fn message(bus: usize) -> Interaction {
    Interaction {
        fields: vec![VirtualPairCol::single_main(0)],
        count: VirtualPairCol::constant(fe(1)),
        argument_index: bus,
    }
}

#[test]
fn trivial_table_satisfies_its_constraint() {
    let preprocessed = Some(column(&[1, 1]));
    let main = Some(column(&[0, 0]));
    let challenges = [base(2), base(3)];
    let perm = generate_permutation_trace(&preprocessed, &main, &[], challenges);
    let sum = perm.as_ref().unwrap().get(1, 0);
    assert!(sum.is_zero());
    let constraints = vec![main0()];
    let r = check_constraints(&constraints, &preprocessed, &main, &perm, challenges, Some(sum), &[]);
    assert!(r.is_ok());
}

#[test]
fn nonzero_cell_violates_the_constraint() {
    let main = Some(column(&[0, 4]));
    let constraints = vec![main0()];
    let v = check_constraints(&constraints, &None, &main, &None, [base(2), base(3)], None, &[])
        .unwrap_err();
    assert_eq!(v.row, 1);
    assert_eq!(v.constraint, 0);
    assert_eq!(v.contributing_entries, vec![Entry::Main { row: 1, col: 0 }]);
}

#[test]
fn table_without_traces_has_nothing_to_violate() {
    let constraints = vec![constant(1)];
    let r = check_constraints(&constraints, &None, &None, &None, [base(2), base(3)], None, &[]);
    assert!(r.is_ok());
}

#[test]
fn table_without_rows_passes_whatever_its_constraints_read() {
    let constraints = vec![
        main0(),
        SymbolicExpression::Preprocessed { next: true, column: 3 },
        SymbolicExpression::Permutation { next: false, column: 2 },
        SymbolicExpression::Public { index: 1 },
        constant(1),
    ];
    let challenges = [base(2), base(3)];
    let r = check_constraints(&constraints, &None, &None, &None, challenges, None, &[]);
    assert!(r.is_ok());
    let no_rows: Option<Matrix<Fe>> = Some(Matrix::new(vec![], 1));
    let no_perm: Option<Matrix<Ef>> = Some(Matrix::new(vec![], 2));
    let r = check_constraints(&constraints, &no_rows, &no_rows, &no_perm, challenges, None, &[]);
    assert!(r.is_ok());
    let cells =
        check_constraints_and_track(&constraints, &None, &no_rows, &None, challenges, None, &[]);
    assert!(cells.is_empty());
}

#[test]
fn boundary_selectors_pick_the_first_and_the_last_row() {
    // first row: main[0] = 7; last row: main[0] = 9.
    let constraints = vec![
        SymbolicExpression::IsFirstRow.times(main0().minus(constant(7))),
        SymbolicExpression::IsLastRow.times(main0().minus(constant(9))),
    ];
    let good = Some(column(&[7, 100, 200, 9]));
    let r = check_constraints(&constraints, &None, &good, &None, [base(2), base(3)], None, &[]);
    assert!(r.is_ok());
    let bad = Some(column(&[7, 100, 200, 8]));
    let v = check_constraints(&constraints, &None, &bad, &None, [base(2), base(3)], None, &[])
        .unwrap_err();
    assert_eq!(v.row, 3);
    assert_eq!(v.constraint, 1);
}

#[test]
fn transition_reads_the_next_row_and_skips_the_last() {
    // On every row but the last, the next cell is the cell plus one.
    let next = SymbolicExpression::Main { next: true, column: 0 };
    let constraints =
        vec![SymbolicExpression::IsTransition.times(next.minus(main0().plus(constant(1))))];
    let good = Some(column(&[3, 4, 5, 6]));
    assert!(
        check_constraints(&constraints, &None, &good, &None, [base(2), base(3)], None, &[]).is_ok()
    );
    let bad = Some(column(&[3, 4, 6, 7]));
    let v = check_constraints(&constraints, &None, &bad, &None, [base(2), base(3)], None, &[])
        .unwrap_err();
    assert_eq!(v.row, 1);
    assert_eq!(
        v.contributing_entries,
        vec![Entry::Main { row: 1, col: 0 }, Entry::Main { row: 2, col: 0 }]
    );
}

#[test]
fn window_wraps_from_the_last_row_to_the_first() {
    // Without the transition selector the last row is compared with the
    // first.
    let next = SymbolicExpression::Main { next: true, column: 0 };
    let constraints = vec![next.minus(main0())];
    let same = Some(column(&[5, 5]));
    assert!(
        check_constraints(&constraints, &None, &same, &None, [base(2), base(3)], None, &[]).is_ok()
    );
}

#[test]
fn public_values_and_preprocessed_cells_are_read() {
    // main[0] = preprocessed[0] * public[0]
    let constraints = vec![main0().minus(
        SymbolicExpression::Preprocessed { next: false, column: 0 }
            .times(SymbolicExpression::Public { index: 0 }),
    )];
    let preprocessed = Some(column(&[2, 3]));
    let main = Some(column(&[10, 15]));
    let r = check_constraints(
        &constraints,
        &preprocessed,
        &main,
        &None,
        [base(2), base(3)],
        None,
        &[fe(5)],
    );
    assert!(r.is_ok());
    let v = check_constraints(
        &constraints,
        &preprocessed,
        &main,
        &None,
        [base(2), base(3)],
        None,
        &[fe(6)],
    )
    .unwrap_err();
    assert_eq!(v.row, 0);
    assert_eq!(
        v.contributing_entries,
        vec![
            Entry::Preprocessed { row: 0, col: 0 },
            Entry::Main { row: 0, col: 0 },
            Entry::Public { index: 0 }
        ]
    );
}

#[test]
fn tracking_names_every_cell_of_every_failing_constraint() {
    let next = SymbolicExpression::Main { next: true, column: 0 };
    let constraints = vec![
        main0().minus(constant(1)),
        SymbolicExpression::IsTransition.times(next.minus(main0())),
    ];
    // Row 0 holds both; row 1 fails the first; row 2 fails the first and the
    // second; row 3, the last, holds both.
    let main = Some(column(&[1, 1, 2, 1]));
    let entries = check_constraints_and_track(
        &constraints,
        &None,
        &main,
        &None,
        [base(2), base(3)],
        None,
        &[],
    );
    assert_eq!(
        entries,
        vec![
            Entry::Main { row: 1, col: 0 },
            Entry::Main { row: 2, col: 0 },
            Entry::Main { row: 3, col: 0 }
        ]
    );
}

#[test]
fn tracking_returns_nothing_when_all_holds() {
    let constraints = vec![main0()];
    let main = Some(column(&[0, 0]));
    let entries = check_constraints_and_track(
        &constraints,
        &None,
        &main,
        &None,
        [base(2), base(3)],
        None,
        &[],
    );
    assert!(entries.is_empty());
}

#[test]
fn cubic_constraint_needs_two_chunks() {
    // main[0]^3 - main[0]
    let cube = main0().times(main0()).times(main0());
    let constraints = vec![cube.minus(main0())];
    assert_eq!(get_max_constraint_degree(&constraints), 3);
    assert_eq!(get_quotient_degree(&constraints), 2);
    assert_eq!(get_log_quotient_degree(&constraints), 1);
    assert_eq!(checked_quotient_degree(&constraints), Some(2));
}

#[test]
fn low_degrees_need_one_chunk() {
    assert_eq!(get_quotient_degree(&[]), 1);
    assert_eq!(get_quotient_degree(&[main0()]), 1);
    assert_eq!(get_quotient_degree(&[main0().times(main0())]), 1);
}

#[test]
fn quotient_degree_is_the_next_power_of_two() {
    // degree 4 needs 3, so 4 chunks; degree 6 needs 5, so 8 chunks.
    let d4 = main0().times(main0()).times(main0()).times(main0());
    assert_eq!(get_quotient_degree(&[d4]), 4);
    let d6 = main0().times(main0()).times(main0()).times(main0()).times(main0()).times(main0());
    assert_eq!(get_quotient_degree(&[d6]), 8);
}

#[test]
fn selectors_count_towards_the_degree() {
    let first = SymbolicExpression::IsFirstRow.times(main0().times(main0()));
    assert_eq!(get_max_constraint_degree(&[first]), 3);
    let transition = SymbolicExpression::IsTransition.times(main0().times(main0()));
    assert_eq!(get_max_constraint_degree(&[transition]), 2);
    let challenge = SymbolicExpression::ChallengePower { index: 0, power: 5 }.times(main0());
    assert_eq!(get_max_constraint_degree(&[challenge]), 1);
}

#[test]
fn balanced_bus_checks_out() {
    let challenges = [base(2), base(3)];
    let main_a = Some(column(&[5]));
    let main_b = Some(column(&[5]));
    let a = vec![(message(0), InteractionType::Send)];
    let b = vec![(message(0), InteractionType::Receive)];
    let perm_a = generate_permutation_trace(&None, &main_a, &a, challenges);
    let perm_b = generate_permutation_trace(&None, &main_b, &b, challenges);
    let sum_a = perm_a.as_ref().unwrap().get(0, 1);
    let sum_b = perm_b.as_ref().unwrap().get(0, 1);
    assert!(!sum_a.is_zero());
    assert!(sum_a.add(sum_b).is_zero());
    let r = check_cumulative_sums(&[a, b], &[None, None], &[main_a, main_b], &[perm_a, perm_b]);
    assert_eq!(r, Ok(()));
}

#[test]
fn missing_receive_leaves_the_bus_unbalanced() {
    let challenges = [base(2), base(3)];
    let main_a = Some(column(&[5]));
    let main_b: Option<Matrix<Fe>> = Some(Matrix::new(vec![], 1));
    let a = vec![(message(0), InteractionType::Send)];
    let b = vec![(message(0), InteractionType::Receive)];
    let perm_a = generate_permutation_trace(&None, &main_a, &a, challenges);
    let perm_b = generate_permutation_trace(&None, &main_b, &b, challenges);
    assert!(perm_b.is_none());
    let r = check_cumulative_sums(&[a, b], &[None, None], &[main_a, main_b], &[perm_a, perm_b]);
    assert_eq!(r, Err(VerificationError::NonZeroCumulativeSum { bus_id: Some(0) }));
}

#[test]
fn first_unbalanced_bus_is_reported() {
    let challenges = [base(2), base(3)];
    let main_a = Some(column(&[5]));
    let main_b = Some(column(&[5]));
    // Bus 1 balances; bus 2 and bus 4 carry a send only.
    let a = vec![
        (message(4), InteractionType::Send),
        (message(1), InteractionType::Send),
        (message(2), InteractionType::Send),
    ];
    let b = vec![(message(1), InteractionType::Receive)];
    let perm_a = generate_permutation_trace(&None, &main_a, &a, challenges);
    let perm_b = generate_permutation_trace(&None, &main_b, &b, challenges);
    let r = check_cumulative_sums(&[a, b], &[None, None], &[main_a, main_b], &[perm_a, perm_b]);
    assert_eq!(r, Err(VerificationError::NonZeroCumulativeSum { bus_id: Some(2) }));
}

#[test]
fn different_messages_do_not_balance() {
    let challenges = [base(2), base(3)];
    let main_a = Some(column(&[5]));
    let main_b = Some(column(&[6]));
    let a = vec![(message(0), InteractionType::Send)];
    let b = vec![(message(0), InteractionType::Receive)];
    let perm_a = generate_permutation_trace(&None, &main_a, &a, challenges);
    let perm_b = generate_permutation_trace(&None, &main_b, &b, challenges);
    let r = check_cumulative_sums(&[a, b], &[None, None], &[main_a, main_b], &[perm_a, perm_b]);
    assert_eq!(r, Err(VerificationError::NonZeroCumulativeSum { bus_id: Some(0) }));
}

#[test]
fn wrong_running_sum_names_no_bus() {
    let challenges = [base(2), base(3)];
    let main_a = Some(column(&[5]));
    let main_b = Some(column(&[5]));
    let a = vec![(message(0), InteractionType::Send)];
    let b = vec![(message(0), InteractionType::Receive)];
    let perm_a = generate_permutation_trace(&None, &main_a, &a, challenges).unwrap();
    let perm_b = generate_permutation_trace(&None, &main_b, &b, challenges);
    let tampered = Matrix::new(vec![perm_a.get(0, 0), perm_a.get(0, 1).add(Ef::one())], 2);
    let r = check_cumulative_sums(
        &[a, b],
        &[None, None],
        &[main_a, main_b],
        &[Some(tampered), perm_b],
    );
    assert_eq!(r, Err(VerificationError::NonZeroCumulativeSum { bus_id: None }));
}

#[test]
fn multiplicities_balance_across_rows() {
    // One table sends the message 5 twice on one row; the other receives it
    // once on each of two rows.
    let challenges = [Ef::from_array([2, 3, 4, 5]), Ef::from_array([7, 0, 1, 0])];
    let main_a = Some(column(&[5]));
    let main_b = Some(column(&[5, 5]));
    let twice = Interaction {
        fields: vec![VirtualPairCol::single_main(0)],
        count: VirtualPairCol::constant(fe(2)),
        argument_index: 3,
    };
    let a = vec![(twice, InteractionType::Send)];
    let b = vec![(message(3), InteractionType::Receive)];
    let perm_a = generate_permutation_trace(&None, &main_a, &a, challenges);
    let perm_b = generate_permutation_trace(&None, &main_b, &b, challenges);
    let r = check_cumulative_sums(&[a, b], &[None, None], &[main_a, main_b], &[perm_a, perm_b]);
    assert_eq!(r, Ok(()));
}
