use rap_machine::check_constraints::check_constraints;
use rap_machine::chip::eval_permutation_constraints;
use rap_machine::extension::Ef;
use rap_machine::field::{Fe, P};
use rap_machine::interaction::{
    all_interactions, generate_rlc_elements, reduce_row, Interaction, InteractionType,
    VirtualPairCol,
};
use rap_machine::matrix::Matrix;
use rap_machine::permutation::generate_permutation_trace;
use rap_machine::symbolic::{Shape, SymbolicAirBuilder};

fn fe(v: u32) -> Fe {
    Fe::new(v)
}

fn base(v: u32) -> Ef {
    Ef::from_base(Fe::new(v))
}

fn column(values: &[u32]) -> Matrix<Fe> {
    Matrix::new(values.iter().map(|v| Fe::new(*v)).collect(), 1)
}

fn send_main0(bus: usize) -> Interaction {
    Interaction {
        fields: vec![VirtualPairCol::single_main(0)],
        count: VirtualPairCol::constant(fe(1)),
        argument_index: bus,
    }
}

#[test]
fn all_interactions_puts_sends_first() {
    let list = all_interactions(vec![send_main0(3)], vec![send_main0(5), send_main0(7)]);
    assert_eq!(list.len(), 3);
    assert_eq!(list[0].0.argument_index, 3);
    assert_eq!(list[0].1, InteractionType::Send);
    assert_eq!(list[1].0.argument_index, 5);
    assert_eq!(list[1].1, InteractionType::Receive);
    assert_eq!(list[2].0.argument_index, 7);
    assert_eq!(list[2].1, InteractionType::Receive);
}

#[test]
fn virtual_column_is_affine() {
    // 7 + 2 * main[1] + 3 * preprocessed[0]
    let col = VirtualPairCol::new(
        vec![
            (rap_machine::interaction::PairCol::Main(1), fe(2)),
            (rap_machine::interaction::PairCol::Preprocessed(0), fe(3)),
        ],
        fe(7),
    );
    let value = col.apply(&[fe(5)], &[fe(11), fe(13)]);
    assert_eq!(value.value(), 7 + 2 * 13 + 3 * 5);
    assert!(col.fits_widths(1, 2));
    assert!(!col.fits_widths(1, 1));
    assert!(!col.fits_widths(0, 2));
}

#[test]
fn rlc_elements_are_powers_from_the_first() {
    let tags = generate_rlc_elements(&[send_main0(2)], &[send_main0(0)], base(3));
    assert_eq!(tags.len(), 3);
    assert_eq!(tags[0].to_array(), [3, 0, 0, 0]);
    assert_eq!(tags[1].to_array(), [9, 0, 0, 0]);
    assert_eq!(tags[2].to_array(), [27, 0, 0, 0]);
}

#[test]
fn rlc_elements_without_interactions_hold_one_tag() {
    let tags = generate_rlc_elements(&[], &[], base(5));
    assert_eq!(tags.len(), 1);
    assert_eq!(tags[0].to_array(), [5, 0, 0, 0]);
}

#[test]
fn reduce_row_combines_fields_with_powers_of_beta() {
    // fields main[0], main[1] on the row (4, 6), beta = 10, alpha = 1000:
    // 1 * 4 + 10 * 6 + 1000.
    let fields = vec![VirtualPairCol::single_main(0), VirtualPairCol::single_main(1)];
    let r = reduce_row(&[], &[fe(4), fe(6)], &fields, base(1000), base(10));
    assert_eq!(r.to_array(), [1064, 0, 0, 0]);
}

#[test]
fn table_without_interactions_has_a_zero_running_sum() {
    let main = Some(column(&[0, 0]));
    let preprocessed = Some(column(&[1, 1]));
    let perm = generate_permutation_trace(&preprocessed, &main, &[], [base(2), base(3)]).unwrap();
    assert_eq!(perm.width(), 1);
    assert_eq!(perm.height(), 2);
    assert!(perm.get(0, 0).is_zero());
    assert!(perm.get(1, 0).is_zero());
}

#[test]
fn table_without_rows_has_no_permutation_trace() {
    let main: Option<Matrix<Fe>> = Some(Matrix::new(vec![], 1));
    assert!(generate_permutation_trace(&None, &main, &[], [base(2), base(3)]).is_none());
    assert!(generate_permutation_trace(&None, &None, &[], [base(2), base(3)]).is_none());
}

#[test]
fn table_without_rows_may_have_interactions() {
    let list = vec![
        (send_main0(0), InteractionType::Send),
        (send_main0(4), InteractionType::Receive),
    ];
    let challenges = [base(2), base(3)];
    assert!(generate_permutation_trace(&None, &None, &list, challenges).is_none());
    let main: Option<Matrix<Fe>> = Some(Matrix::new(vec![], 1));
    assert!(generate_permutation_trace(&None, &main, &list, challenges).is_none());
    let preprocessed: Option<Matrix<Fe>> = Some(Matrix::new(vec![], 3));
    assert!(generate_permutation_trace(&preprocessed, &None, &list, challenges).is_none());
}

#[test]
fn reciprocal_columns_invert_the_combination() {
    // beta = 2 combines the fields, gamma = 3 tags the buses: on bus 0 the
    // message (5) has the combination 3 + 5 = 8, on bus 1 it has 9 + 5 = 14.
    let main = Some(column(&[5, 6]));
    let interactions = vec![
        (send_main0(0), InteractionType::Send),
        (send_main0(1), InteractionType::Receive),
    ];
    let perm =
        generate_permutation_trace(&None, &main, &interactions, [base(2), base(3)]).unwrap();
    assert_eq!(perm.width(), 3);
    assert_eq!(perm.height(), 2);
    assert_eq!(perm.get(0, 0).mul(base(8)).to_array(), [1, 0, 0, 0]);
    assert_eq!(perm.get(0, 1).mul(base(14)).to_array(), [1, 0, 0, 0]);
    assert_eq!(perm.get(1, 0).mul(base(9)).to_array(), [1, 0, 0, 0]);
    assert_eq!(perm.get(1, 1).mul(base(15)).to_array(), [1, 0, 0, 0]);
}

#[test]
fn running_sum_adds_sends_and_subtracts_receives() {
    let main = Some(column(&[5, 6]));
    let interactions = vec![
        (send_main0(0), InteractionType::Send),
        (send_main0(1), InteractionType::Receive),
    ];
    let perm =
        generate_permutation_trace(&None, &main, &interactions, [base(2), base(3)]).unwrap();
    let phi0 = perm.get(0, 0).sub(perm.get(0, 1));
    let phi1 = phi0.add(perm.get(1, 0)).sub(perm.get(1, 1));
    assert_eq!(perm.get(0, 2).to_array(), phi0.to_array());
    assert_eq!(perm.get(1, 2).to_array(), phi1.to_array());
    assert!(!phi1.is_zero());
}

#[test]
fn multiplicity_scales_the_term() {
    // count = main[1]: the term of row 0 counts three times, that of row 1 not
    // at all.
    let main = Some(Matrix::new(vec![fe(5), fe(3), fe(6), fe(0)], 2));
    let interaction = Interaction {
        fields: vec![VirtualPairCol::single_main(0)],
        count: VirtualPairCol::single_main(1),
        argument_index: 0,
    };
    let interactions = vec![(interaction, InteractionType::Send)];
    let perm =
        generate_permutation_trace(&None, &main, &interactions, [base(2), base(3)]).unwrap();
    let expected = perm.get(0, 0).scale(fe(3));
    assert_eq!(perm.get(0, 1).to_array(), expected.to_array());
    assert_eq!(perm.get(1, 1).to_array(), expected.to_array());
}

#[test]
fn zero_combination_leaves_a_zero_reciprocal() {
    // gamma = 3 and the message P - 3 give the combination zero.
    let main = Some(column(&[P - 3, 1]));
    let interactions = vec![(send_main0(0), InteractionType::Send)];
    let perm =
        generate_permutation_trace(&None, &main, &interactions, [base(2), base(3)]).unwrap();
    assert!(perm.get(0, 0).is_zero());
    assert!(perm.get(0, 1).is_zero());
    assert_eq!(perm.get(1, 0).mul(base(4)).to_array(), [1, 0, 0, 0]);
    assert_eq!(perm.get(1, 1).to_array(), perm.get(1, 0).to_array());
}

#[test]
fn challenges_in_the_extension_are_used_as_given() {
    let beta = Ef::from_array([2, 1, 0, 0]);
    let gamma = Ef::from_array([3, 0, 1, 0]);
    let main = Some(Matrix::new(vec![fe(5), fe(7)], 2));
    let interaction = Interaction {
        fields: vec![VirtualPairCol::single_main(0), VirtualPairCol::single_main(1)],
        count: VirtualPairCol::constant(fe(1)),
        argument_index: 1,
    };
    let interactions = vec![(interaction, InteractionType::Send)];
    let perm = generate_permutation_trace(&None, &main, &interactions, [beta, gamma]).unwrap();
    // gamma^2 + 5 + 7 * beta
    let rlc = gamma.mul(gamma).add(base(5)).add(beta.scale(fe(7)));
    assert_eq!(perm.get(0, 0).mul(rlc).to_array(), [1, 0, 0, 0]);
}

#[test]
fn generated_trace_meets_the_permutation_constraints() {
    let main = Some(Matrix::new(vec![fe(5), fe(1), fe(6), fe(2), fe(7), fe(0), fe(8), fe(4)], 2));
    let interactions = vec![
        (
            Interaction {
                fields: vec![VirtualPairCol::single_main(0)],
                count: VirtualPairCol::single_main(1),
                argument_index: 0,
            },
            InteractionType::Send,
        ),
        (send_main0(2), InteractionType::Receive),
    ];
    let challenges = [Ef::from_array([2, 1, 0, 5]), Ef::from_array([3, 0, 1, 0])];
    let perm = generate_permutation_trace(&None, &main, &interactions, challenges).unwrap();
    let cumulative_sum = perm.get(3, 2);
    let shape = Shape {
        preprocessed_width: 0,
        main_width: 2,
        permutation_width: 3,
        public_values: 0,
        challenges: 2,
    };
    let mut builder = SymbolicAirBuilder::new(shape);
    eval_permutation_constraints(&interactions, &mut builder);
    assert_eq!(builder.constraints.len(), 5);
    let perm = Some(perm);
    let r = check_constraints(
        &builder.constraints,
        &None,
        &main,
        &perm,
        challenges,
        Some(cumulative_sum),
        &[],
    );
    assert!(r.is_ok());
    // A wrong claim for the cumulative sum fails on the last row, in the
    // last-row constraint.
    let r = check_constraints(
        &builder.constraints,
        &None,
        &main,
        &perm,
        challenges,
        Some(cumulative_sum.add(Ef::one())),
        &[],
    );
    let v = r.unwrap_err();
    assert_eq!(v.row, 3);
    assert_eq!(v.constraint, 4);
}

#[test]
fn tampered_trace_fails_the_permutation_constraints() {
    let main = Some(column(&[5, 6]));
    let interactions = vec![(send_main0(0), InteractionType::Send)];
    let challenges = [base(2), base(3)];
    let perm = generate_permutation_trace(&None, &main, &interactions, challenges).unwrap();
    let cumulative_sum = perm.get(1, 1);
    let tampered = Matrix::new(
        vec![perm.get(0, 0).add(Ef::one()), perm.get(0, 1), perm.get(1, 0), perm.get(1, 1)],
        2,
    );
    let shape = Shape {
        preprocessed_width: 0,
        main_width: 1,
        permutation_width: 2,
        public_values: 0,
        challenges: 2,
    };
    let mut builder = SymbolicAirBuilder::new(shape);
    eval_permutation_constraints(&interactions, &mut builder);
    let v = check_constraints(
        &builder.constraints,
        &None,
        &main,
        &Some(tampered),
        challenges,
        Some(cumulative_sum),
        &[],
    )
    .unwrap_err();
    assert_eq!(v.row, 0);
    assert_eq!(v.constraint, 0);
}
