use rap_machine::domain::Domain;
use rap_machine::extension::Ef;
use rap_machine::field::{Fe, P};
use rap_machine::folder::VerifierConstraintFolder;
use rap_machine::machine::{check_degrees, chip_domains, machine_domains, verify_chips};
use rap_machine::symbolic::SymbolicExpression;
use rap_machine::verify::{
    check_quotient, check_quotient_degree, quotient_weights, recompose_quotient, unflatten,
    verify_constraints, verify_cumulative_sums, AdjacentOpenedValues, OpenedValues,
    VerificationError,
};
use rap_machine::window::TwoRowMatrixView;

fn fe(v: u32) -> Fe {
    Fe::new(v)
}

fn base(v: u32) -> Ef {
    Ef::from_base(Fe::new(v))
}

fn flat(x: Ef) -> Vec<Ef> {
    x.to_array().iter().map(|c| base(*c)).collect()
}

fn main0() -> SymbolicExpression {
    SymbolicExpression::Main { next: false, column: 0 }
}

fn power(x: Ef, n: usize) -> Ef {
    let mut acc = Ef::one();
    for _ in 0..n {
        acc = acc.mul(x);
    }
    acc
}

#[test]
fn natural_domain_needs_a_power_of_two() {
    let d = Domain::natural_domain_for_degree(8).unwrap();
    assert_eq!(d.size(), 8);
    assert_eq!(d.log_n(), 3);
    assert_eq!(d.first_point().value(), 1);
    assert_eq!(Domain::natural_domain_for_degree(1).unwrap().size(), 1);
    assert!(Domain::natural_domain_for_degree(0).is_none());
    assert!(Domain::natural_domain_for_degree(6).is_none());
    assert_eq!(Domain::natural_domain_for_degree(1 << 27).unwrap().log_n(), 27);
    assert!(Domain::natural_domain_for_degree(1 << 28).is_none());
}

#[test]
fn domain_needs_a_shift_and_a_subgroup() {
    assert!(Domain::new(fe(0), 3).is_none());
    assert!(Domain::new(fe(5), 28).is_none());
    let d = Domain::new(fe(5), 27).unwrap();
    assert_eq!(d.first_point().value(), 5);
    assert_eq!(d.size(), 1 << 27);
}

#[test]
fn vanishing_polynomial_of_a_subgroup() {
    // On the subgroup of order 4 it is X^4 - 1.
    let d = Domain::natural_domain_for_degree(4).unwrap();
    assert_eq!(d.zp_at_point(base(2)).to_array(), [15, 0, 0, 0]);
    assert!(d.zp_at_point(base(1)).is_zero());
    assert!(d.zp_at_point(base(P - 1)).is_zero());
    // X^4 = 11 in the extension.
    assert_eq!(d.zp_at_point(Ef::monomial(1)).to_array(), [10, 0, 0, 0]);
}

#[test]
fn vanishing_polynomial_of_a_coset() {
    // On the coset 3 H with H of order 2 it is (X / 3)^2 - 1, which is zero
    // at 3 and at -3, and 3 at 6.
    let d = Domain::new(fe(3), 1).unwrap();
    assert!(d.zp_at_point(base(3)).is_zero());
    assert!(d.zp_at_point(base(P - 3)).is_zero());
    assert_eq!(d.zp_at_point(base(6)).to_array(), [3, 0, 0, 0]);
}

#[test]
fn selectors_do_not_exist_on_the_domain() {
    let d = Domain::natural_domain_for_degree(4).unwrap();
    assert!(d.selectors_at_point(base(1)).is_none());
    assert!(d.selectors_at_point(base(P - 1)).is_none());
}

#[test]
fn selectors_at_a_point_outside_the_domain() {
    // Subgroup of order 2, generated by -1, at the point 3: the vanishing
    // polynomial is 8; the first-row selector is 8 / (3 - 1), the last-row
    // selector 8 / (3 + 1), the transition selector 3 + 1.
    let d = Domain::natural_domain_for_degree(2).unwrap();
    let s = d.selectors_at_point(base(3)).unwrap();
    assert_eq!(s.is_first_row.to_array(), [4, 0, 0, 0]);
    assert_eq!(s.is_last_row.to_array(), [2, 0, 0, 0]);
    assert_eq!(s.is_transition.to_array(), [4, 0, 0, 0]);
    assert_eq!(s.inv_zeroifier.mul(base(8)).to_array(), [1, 0, 0, 0]);
}

#[test]
fn disjoint_domain_is_shifted_by_the_generator() {
    let d = Domain::natural_domain_for_degree(4).unwrap();
    let q = d.create_disjoint_domain(8).unwrap();
    assert_eq!(q.size(), 8);
    assert_eq!(q.first_point().value(), 31);
    // Five points need eight.
    assert_eq!(d.create_disjoint_domain(5).unwrap().size(), 8);
    assert_eq!(d.create_disjoint_domain(1).unwrap().size(), 1);
    assert!(d.create_disjoint_domain((1 << 27) + 1).is_none());
    let again = q.create_disjoint_domain(2).unwrap();
    assert_eq!(again.first_point().value(), 31 * 31);
}

#[test]
fn split_domains_have_equal_size_and_cover_the_domain() {
    let d = Domain::natural_domain_for_degree(4).unwrap();
    let q = d.create_disjoint_domain(8).unwrap();
    let parts = q.split_domains(2);
    assert_eq!(parts.len(), 2);
    assert_eq!(parts[0].size(), 4);
    assert_eq!(parts[1].size(), 4);
    assert_eq!(parts[0].first_point().value(), 31);
    // The second part starts at the second point of the domain; its eighth
    // power is that of the shift.
    let second = parts[1].first_point();
    assert_ne!(second.value(), 31);
    let mut p8 = Fe::one();
    let mut s8 = Fe::one();
    for _ in 0..8 {
        p8 = p8.mul(second);
        s8 = s8.mul(fe(31));
    }
    assert_eq!(p8.value(), s8.value());
    // Every point of one part is outside the other.
    assert!(!parts[0].zp_at_point(Ef::from_base(second)).is_zero());
    assert!(parts[1].zp_at_point(Ef::from_base(second)).is_zero());
    let one = q.split_domains(1);
    assert_eq!(one.len(), 1);
    assert_eq!(one[0].size(), 8);
}

#[test]
fn selectors_on_a_coset_have_one_value_for_each_point() {
    let d = Domain::natural_domain_for_degree(2).unwrap();
    let q = d.create_disjoint_domain(4).unwrap();
    let s = d.selectors_on_coset(&q);
    assert_eq!(s.is_first_row.len(), 4);
    assert_eq!(s.is_last_row.len(), 4);
    assert_eq!(s.is_transition.len(), 4);
    assert_eq!(s.inv_zeroifier.len(), 4);
    // At the first point of the coset, 31, the vanishing polynomial of the
    // subgroup of order two is 31^2 - 1 = 960.
    assert_eq!(s.inv_zeroifier[0].mul(fe(960)).value(), 1);
    assert_eq!(s.is_transition[0].value(), 32);
    assert_eq!(s.is_first_row[0].value(), 32);
    assert_eq!(s.is_last_row[0].value(), 30);
}

#[test]
fn unflatten_rebuilds_elements_from_coefficients() {
    let x = Ef::from_array([3, 1, 4, 1]);
    let y = Ef::from_array([5, 9, 2, 6]);
    let mut v = flat(x);
    v.extend(flat(y));
    v.push(base(7));
    let r = unflatten(&v);
    assert_eq!(r.len(), 2);
    assert_eq!(r[0].to_array(), [3, 1, 4, 1]);
    assert_eq!(r[1].to_array(), [5, 9, 2, 6]);
}

#[test]
fn unflatten_of_values_in_the_extension() {
    // 1 * a + X * b with a = X and b = X^3 is X + X^4 = 11 + X.
    let v = vec![Ef::monomial(1), Ef::monomial(3), Ef::zero(), Ef::zero()];
    assert_eq!(unflatten(&v)[0].to_array(), [11, 1, 0, 0]);
}

#[test]
fn single_chunk_has_weight_one() {
    let d = Domain::natural_domain_for_degree(4).unwrap().create_disjoint_domain(4).unwrap();
    let w = quotient_weights(&[d], base(5)).unwrap();
    assert_eq!(w.len(), 1);
    assert_eq!(w[0].to_array(), [1, 0, 0, 0]);
}

#[test]
fn weights_divide_by_the_other_domains() {
    let q = Domain::natural_domain_for_degree(2).unwrap().create_disjoint_domain(4).unwrap();
    let parts = q.split_domains(2);
    let zeta = Ef::from_array([7, 1, 0, 0]);
    let w = quotient_weights(&parts, zeta).unwrap();
    assert_eq!(w.len(), 2);
    let first0 = Ef::from_base(parts[0].first_point());
    let first1 = Ef::from_base(parts[1].first_point());
    let expected0 =
        parts[1].zp_at_point(zeta).mul(parts[1].zp_at_point(first0).try_inverse().unwrap());
    let expected1 =
        parts[0].zp_at_point(zeta).mul(parts[0].zp_at_point(first1).try_inverse().unwrap());
    assert_eq!(w[0].to_array(), expected0.to_array());
    assert_eq!(w[1].to_array(), expected1.to_array());
    assert_ne!(w[0].to_array(), w[1].to_array());
}

#[test]
fn overlapping_domains_have_no_weights() {
    let d = Domain::natural_domain_for_degree(4).unwrap();
    assert!(quotient_weights(&[d, d], base(5)).is_none());
}

#[test]
fn recomposition_weighs_and_rebuilds() {
    let x = Ef::from_array([3, 1, 4, 1]);
    let y = Ef::from_array([5, 9, 2, 6]);
    let w0 = Ef::from_array([2, 0, 0, 1]);
    let w1 = Ef::from_array([0, 7, 0, 0]);
    let r = recompose_quotient(&[w0, w1], &[flat(x), flat(y)]);
    assert_eq!(r.to_array(), w0.mul(x).add(w1.mul(y)).to_array());
}

#[test]
fn quotient_check_compares_the_product() {
    let folded = Ef::from_array([1, 2, 3, 4]);
    let inv = Ef::from_array([5, 6, 7, 8]);
    assert_eq!(check_quotient(folded, inv, folded.mul(inv)), Ok(()));
    assert_eq!(
        check_quotient(folded, inv, folded.mul(inv).add(Ef::one())),
        Err(VerificationError::OodEvaluationMismatch)
    );
}

#[test]
fn verifier_folder_folds_with_alpha() {
    let alpha = Ef::from_array([2, 1, 0, 0]);
    let mut folder = VerifierConstraintFolder {
        preprocessed: TwoRowMatrixView::empty(),
        main: TwoRowMatrixView::new(vec![base(5)], vec![base(6)]),
        perm: TwoRowMatrixView::empty(),
        perm_challenges: [base(2), base(3)],
        public_values: vec![],
        cumulative_sum: Ef::zero(),
        is_first_row: Ef::one(),
        is_last_row: Ef::zero(),
        is_transition: Ef::one(),
        alpha,
        accumulator: Ef::zero(),
    };
    let next = SymbolicExpression::Main { next: true, column: 0 };
    folder.eval_all(&[main0(), next, SymbolicExpression::Constant(fe(7))]);
    // ((5 * alpha) + 6) * alpha + 7
    let expected = base(5).mul(alpha).add(base(6)).mul(alpha).add(base(7));
    assert_eq!(folder.accumulator.to_array(), expected.to_array());
    folder.assert_zero(base(1));
    assert_eq!(folder.accumulator.to_array(), expected.mul(alpha).add(base(1)).to_array());
}

fn honest_opening(zeta: Ef, alpha: Ef, value: Ef) -> (OpenedValues, Domain, Vec<Domain>, Ef) {
    // One constraint, main[0]^2 - main[0], opened at `value`; the quotient is
    // the folded constraint times the inverse of the vanishing polynomial.
    let _ = alpha;
    let main_domain = Domain::natural_domain_for_degree(4).unwrap();
    let quotient_domain = main_domain.create_disjoint_domain(4).unwrap();
    let qc_domains = quotient_domain.split_domains(1);
    let folded = value.mul(value).sub(value);
    let sels = main_domain.selectors_at_point(zeta).unwrap();
    let quotient = folded.mul(sels.inv_zeroifier);
    let opened = OpenedValues {
        preprocessed: None,
        main: Some(AdjacentOpenedValues { local: vec![value], next: vec![value] }),
        permutation: None,
        quotient_chunks: Some(vec![flat(quotient)]),
    };
    (opened, main_domain, qc_domains, quotient)
}

fn square_constraint() -> Vec<SymbolicExpression> {
    vec![main0().times(main0()).minus(main0())]
}

#[test]
fn honest_opening_is_accepted() {
    let zeta = Ef::from_array([9, 8, 7, 6]);
    let alpha = Ef::from_array([1, 2, 3, 4]);
    let value = Ef::from_array([5, 0, 2, 0]);
    let (opened, main_domain, qc_domains, quotient) = honest_opening(zeta, alpha, value);
    assert!(!quotient.is_zero());
    let r = verify_constraints(
        &square_constraint(),
        &opened,
        main_domain,
        &qc_domains,
        zeta,
        alpha,
        [base(2), base(3)],
        None,
        &[],
    );
    assert_eq!(r, Ok(()));
}

#[test]
fn changed_quotient_value_is_an_evaluation_mismatch() {
    let zeta = Ef::from_array([9, 8, 7, 6]);
    let alpha = Ef::from_array([1, 2, 3, 4]);
    let value = Ef::from_array([5, 0, 2, 0]);
    for e in 0..4 {
        let (mut opened, main_domain, qc_domains, quotient) = honest_opening(zeta, alpha, value);
        let mut chunk = flat(quotient);
        chunk[e] = chunk[e].add(Ef::from_array([0, 0, 1, 0]));
        opened.quotient_chunks = Some(vec![chunk]);
        let r = verify_constraints(
            &square_constraint(),
            &opened,
            main_domain,
            &qc_domains,
            zeta,
            alpha,
            [base(2), base(3)],
            None,
            &[],
        );
        assert_eq!(r, Err(VerificationError::OodEvaluationMismatch));
    }
}

#[test]
fn product_of_three_does_not_depend_on_the_grouping() {
    let a = Ef::from_array([3, 1, 4, 1]);
    let b = Ef::from_array([2013265920, 9, 2, 6]);
    let c = Ef::from_array([5, 3, 5, 2013265919]);
    assert_eq!(a.mul(b).mul(c).to_array(), a.mul(b.mul(c)).to_array());
    // X times X^3 / 11 is one.
    let x = Ef::from_array([0, 1, 0, 0]);
    let inverse = Ef::from_array([0, 0, 0, 549072524]);
    assert_eq!(inverse.mul(x).to_array(), [1, 0, 0, 0]);
}

#[test]
fn changed_opening_is_an_evaluation_mismatch() {
    let zeta = Ef::from_array([9, 8, 7, 6]);
    let alpha = Ef::from_array([1, 2, 3, 4]);
    let value = Ef::from_array([5, 0, 2, 0]);
    let (mut opened, main_domain, qc_domains, _) = honest_opening(zeta, alpha, value);
    opened.main = Some(AdjacentOpenedValues {
        local: vec![value.add(Ef::one())],
        next: vec![value],
    });
    let r = verify_constraints(
        &square_constraint(),
        &opened,
        main_domain,
        &qc_domains,
        zeta,
        alpha,
        [base(2), base(3)],
        None,
        &[],
    );
    assert_eq!(r, Err(VerificationError::OodEvaluationMismatch));
}

#[test]
fn point_on_the_trace_domain_is_an_evaluation_mismatch() {
    let alpha = Ef::from_array([1, 2, 3, 4]);
    let value = Ef::from_array([5, 0, 2, 0]);
    let (opened, main_domain, qc_domains, _) =
        honest_opening(Ef::from_array([9, 8, 7, 6]), alpha, value);
    let r = verify_constraints(
        &square_constraint(),
        &opened,
        main_domain,
        &qc_domains,
        base(1),
        alpha,
        [base(2), base(3)],
        None,
        &[],
    );
    assert_eq!(r, Err(VerificationError::OodEvaluationMismatch));
}

#[test]
fn missing_quotient_is_missing_proof_data() {
    let zeta = Ef::from_array([9, 8, 7, 6]);
    let alpha = Ef::from_array([1, 2, 3, 4]);
    let (mut opened, main_domain, qc_domains, _) = honest_opening(zeta, alpha, base(5));
    opened.quotient_chunks = None;
    let r = verify_constraints(
        &square_constraint(),
        &opened,
        main_domain,
        &qc_domains,
        zeta,
        alpha,
        [base(2), base(3)],
        None,
        &[],
    );
    assert_eq!(r, Err(VerificationError::MissingProofData));
}

#[test]
fn wrong_shapes_are_invalid_proof_shapes() {
    let zeta = Ef::from_array([9, 8, 7, 6]);
    let alpha = Ef::from_array([1, 2, 3, 4]);
    let check = |opened: &OpenedValues, constraints: &[SymbolicExpression], qc: &[Domain]| {
        verify_constraints(
            constraints,
            opened,
            Domain::natural_domain_for_degree(4).unwrap(),
            qc,
            zeta,
            alpha,
            [base(2), base(3)],
            None,
            &[],
        )
    };
    let (opened, _, qc_domains, _) = honest_opening(zeta, alpha, base(5));
    // Two chunk domains for one chunk.
    let two = Domain::natural_domain_for_degree(4)
        .unwrap()
        .create_disjoint_domain(8)
        .unwrap()
        .split_domains(2);
    assert_eq!(
        check(&opened, &square_constraint(), &two),
        Err(VerificationError::InvalidProofShape)
    );
    // A chunk of three values.
    let (mut short, _, _, _) = honest_opening(zeta, alpha, base(5));
    short.quotient_chunks = Some(vec![vec![base(1), base(2), base(3)]]);
    assert_eq!(
        check(&short, &square_constraint(), &qc_domains),
        Err(VerificationError::InvalidProofShape)
    );
    // A constraint that reads a column that was not opened.
    let wide = vec![SymbolicExpression::Main { next: false, column: 1 }];
    assert_eq!(check(&opened, &wide, &qc_domains), Err(VerificationError::InvalidProofShape));
    // More values on this row than on the next.
    let (mut uneven, _, _, _) = honest_opening(zeta, alpha, base(5));
    uneven.main = Some(AdjacentOpenedValues { local: vec![base(5)], next: vec![] });
    assert_eq!(
        check(&uneven, &square_constraint(), &qc_domains),
        Err(VerificationError::InvalidProofShape)
    );
}

#[test]
fn opened_permutation_values_are_rebuilt_and_selectors_used() {
    // first row: permutation[0] - cumulative sum = 0, folded with a second
    // constraint.
    let zeta = Ef::from_array([9, 8, 7, 6]);
    let alpha = Ef::from_array([1, 2, 3, 4]);
    let phi = Ef::from_array([4, 3, 2, 1]);
    let sum = Ef::from_array([1, 1, 1, 1]);
    let main_domain = Domain::natural_domain_for_degree(2).unwrap();
    let qc_domains = main_domain.create_disjoint_domain(2).unwrap().split_domains(1);
    let constraints = vec![
        SymbolicExpression::IsFirstRow.times(
            SymbolicExpression::Permutation { next: false, column: 0 }
                .minus(SymbolicExpression::CumulativeSum),
        ),
        SymbolicExpression::IsTransition
            .times(SymbolicExpression::ChallengePower { index: 1, power: 2 }),
    ];
    let sels = main_domain.selectors_at_point(zeta).unwrap();
    let gamma = Ef::from_array([0, 3, 0, 0]);
    let c0 = sels.is_first_row.mul(phi.sub(sum));
    let c1 = sels.is_transition.mul(power(gamma, 2));
    let folded = c0.mul(alpha).add(c1);
    let quotient = folded.mul(sels.inv_zeroifier);
    let opened = OpenedValues {
        preprocessed: None,
        main: None,
        permutation: Some(AdjacentOpenedValues { local: flat(phi), next: flat(phi) }),
        quotient_chunks: Some(vec![flat(quotient)]),
    };
    let r = verify_constraints(
        &constraints,
        &opened,
        main_domain,
        &qc_domains,
        zeta,
        alpha,
        [base(2), gamma],
        Some(sum),
        &[],
    );
    assert_eq!(r, Ok(()));
    let r = verify_constraints(
        &constraints,
        &opened,
        main_domain,
        &qc_domains,
        zeta,
        alpha,
        [base(2), gamma],
        None,
        &[],
    );
    assert_eq!(r, Err(VerificationError::OodEvaluationMismatch));
}

#[test]
fn declared_quotient_degree_must_cover_the_constraints() {
    let cube = main0().times(main0()).times(main0());
    let constraints = vec![cube];
    assert_eq!(check_quotient_degree(2, &constraints), Ok(()));
    assert_eq!(check_quotient_degree(4, &constraints), Ok(()));
    assert_eq!(check_quotient_degree(1, &constraints), Err(VerificationError::DegreeOutOfBounds));
    assert_eq!(check_quotient_degree(0, &[]), Ok(()));
}

#[test]
fn claimed_sums_must_add_up_to_zero() {
    let x = Ef::from_array([3, 1, 4, 1]);
    assert_eq!(verify_cumulative_sums(&[Some(x), None, Some(x.neg())]), Ok(()));
    assert_eq!(verify_cumulative_sums(&[]), Ok(()));
    assert_eq!(
        verify_cumulative_sums(&[Some(x), None]),
        Err(VerificationError::NonZeroCumulativeSum { bus_id: None })
    );
}

fn square_chip() -> rap_machine::trace::ChipType {
    rap_machine::trace::ChipType {
        constraints: square_constraint(),
        interactions: vec![],
        preprocessed: None,
    }
}

fn nothing() -> OpenedValues {
    OpenedValues { preprocessed: None, main: None, permutation: None, quotient_chunks: None }
}

fn proof_of(log_degree: u8, opened_values: OpenedValues, sum: Option<Ef>) -> rap_machine::machine_proof::ChipProof {
    rap_machine::machine_proof::ChipProof { log_degree, opened_values, cumulative_sum: sum }
}

#[test]
fn domains_are_derived_from_the_proof() {
    let zeta = Ef::from_array([9, 8, 7, 6]);
    let alpha = Ef::from_array([1, 2, 3, 4]);
    let (opened, _, _, _) = honest_opening(zeta, alpha, base(5));
    let cube = vec![main0().times(main0()).times(main0())];
    let d = chip_domains(&cube, &proof_of(2, opened.clone(), None)).unwrap().unwrap();
    assert_eq!(d.trace.size(), 4);
    assert_eq!(d.trace.first_point().value(), 1);
    assert_eq!(d.chunks.len(), 2);
    assert_eq!(d.chunks[0].size(), 4);
    assert_eq!(d.chunks[0].first_point().value(), 31);
    // Nothing opened: no domains, and no cumulative sum to claim.
    assert!(chip_domains(&cube, &proof_of(2, nothing(), None)).unwrap().is_none());
    assert_eq!(
        chip_domains(&cube, &proof_of(2, nothing(), Some(base(1)))).unwrap_err(),
        VerificationError::InvalidProofShape
    );
    assert_eq!(
        chip_domains(&cube, &proof_of(28, opened.clone(), None)).unwrap_err(),
        VerificationError::InvalidProofShape
    );
    assert_eq!(
        chip_domains(&cube, &proof_of(27, opened.clone(), None)).unwrap_err(),
        VerificationError::InvalidProofShape
    );

    let chip = square_chip();
    let chips = [&chip, &chip];
    let proofs = vec![proof_of(2, opened.clone(), None), proof_of(0, nothing(), None)];
    let domains = machine_domains(&chips, None, &proofs).unwrap();
    assert_eq!(domains.len(), 2);
    assert!(domains[0].is_some());
    assert!(domains[1].is_none());
    assert_eq!(
        machine_domains(&chips[0..1], None, &proofs).unwrap_err(),
        VerificationError::InvalidProofShape
    );
}

#[test]
fn heights_of_the_verifying_key_must_agree() {
    let zeta = Ef::from_array([9, 8, 7, 6]);
    let alpha = Ef::from_array([1, 2, 3, 4]);
    let (mut opened, _, _, _) = honest_opening(zeta, alpha, base(5));
    opened.preprocessed = Some(AdjacentOpenedValues { local: vec![base(1)], next: vec![base(1)] });
    let proofs = vec![proof_of(2, opened, None), proof_of(0, nothing(), None)];
    assert!(check_degrees(&[4, 0], &proofs));
    assert!(check_degrees(&[4, 77], &proofs));
    assert!(!check_degrees(&[8, 0], &proofs));
    assert!(!check_degrees(&[4], &proofs));
    let chip = square_chip();
    let chips = [&chip, &chip];
    assert!(machine_domains(&chips, Some(&vec![4, 0]), &proofs).is_ok());
    assert_eq!(
        machine_domains(&chips, Some(&vec![2, 0]), &proofs).unwrap_err(),
        VerificationError::InvalidProofShape
    );
}

#[test]
fn machine_is_verified_table_by_table_and_then_the_sums() {
    let zeta = Ef::from_array([9, 8, 7, 6]);
    let alpha = Ef::from_array([1, 2, 3, 4]);
    let value = Ef::from_array([5, 0, 2, 0]);
    let (opened, _, _, _) = honest_opening(zeta, alpha, value);
    let chip = square_chip();
    let chips = [&chip, &chip, &chip];
    let x = Ef::from_array([3, 1, 4, 1]);
    let check = |proofs: &Vec<rap_machine::machine_proof::ChipProof>| {
        let domains = machine_domains(&chips, None, proofs).unwrap();
        verify_chips(&chips, proofs, &domains, zeta, alpha, [base(2), base(3)], &[])
    };
    let good = vec![
        proof_of(2, opened.clone(), Some(x)),
        proof_of(0, nothing(), None),
        proof_of(2, opened.clone(), Some(x.neg())),
    ];
    assert_eq!(check(&good), Ok(()));
    let unbalanced = vec![
        proof_of(2, opened.clone(), Some(x)),
        proof_of(0, nothing(), None),
        proof_of(2, opened.clone(), Some(x)),
    ];
    assert_eq!(check(&unbalanced), Err(VerificationError::NonZeroCumulativeSum { bus_id: None }));
    let mut changed = opened.clone();
    changed.main = Some(AdjacentOpenedValues { local: vec![base(7)], next: vec![base(7)] });
    let mut missing = opened.clone();
    missing.quotient_chunks = None;
    // The first table that fails decides, before the sums are looked at.
    let bad = vec![
        proof_of(2, opened.clone(), Some(x)),
        proof_of(2, missing, None),
        proof_of(2, changed.clone(), None),
    ];
    assert_eq!(check(&bad), Err(VerificationError::MissingProofData));
    let bad = vec![
        proof_of(2, changed, None),
        proof_of(0, nothing(), None),
        proof_of(2, opened.clone(), Some(x)),
    ];
    assert_eq!(check(&bad), Err(VerificationError::OodEvaluationMismatch));
}
