use rap_machine::bus::{check_summable, largest_bus_used, sum_of_bus};
use rap_machine::check_constraints::check_checkable;
use rap_machine::chip::{
    apply_symbolic, buses_fit, chip_type, eval_all, Chip, MachineChip, TableModel,
};
use rap_machine::debug::{DebugConstraintBuilder, TrackingConstraintBuilder};
use rap_machine::entry::{collect_entries, insert_entry, Entry};
use rap_machine::extension::Ef;
use rap_machine::field::Fe;
use rap_machine::interaction::{
    largest_bus, powers_from_first, Interaction, InteractionType, PairCol, VirtualPairCol,
};
use rap_machine::matrix::Matrix;
use rap_machine::permutation::{check_table, generate_permutation_trace, table_height};
use rap_machine::pipeline::{check_quotient_prepared, check_tables, load_main, new_machine_trace};
use rap_machine::pipeline::TraceEvaluations;
use rap_machine::domain::Domain;
use rap_machine::symbolic::{Shape, SymbolicAirBuilder, SymbolicExpression};
use rap_machine::trace::ChipType;
use rap_machine::window::{constraints_fit, embed_row, evaluate, power_of, TwoRowMatrixView};

fn fe(v: u32) -> Fe {
    Fe::new(v)
}

fn base(v: u32) -> Ef {
    Ef::from_base(Fe::new(v))
}

fn column(values: &[u32]) -> Matrix<Fe> {
    Matrix::new(values.iter().map(|v| Fe::new(*v)).collect(), 1)
}

fn main0() -> SymbolicExpression {
    SymbolicExpression::Main { next: false, column: 0 }
}

fn message(bus: usize) -> Interaction {
    Interaction {
        fields: vec![VirtualPairCol::single_main(0)],
        count: VirtualPairCol::constant(fe(1)),
        argument_index: bus,
    }
}

struct Counter;

impl Chip for Counter {
    // Read by contracts only, never run.
    fn model(&self) -> TableModel {
        unreachable!()
    }

    fn width(&self) -> usize {
        1
    }

    fn preprocessed_trace(&self) -> Option<Matrix<Fe>> {
        None
    }

    fn generate_trace(&self) -> Matrix<Fe> {
        column(&[0, 1, 2, 3])
    }

    fn sends(&self) -> Vec<Interaction> {
        vec![message(1)]
    }

    fn receives(&self) -> Vec<Interaction> {
        vec![message(2), message(0)]
    }

    fn eval(&self, builder: &mut SymbolicAirBuilder) {
        let local = builder.main(false, 0);
        let next = builder.main(true, 0);
        let one = SymbolicExpression::Constant(Fe::one());
        let transition = builder.is_transition_window(2);
        builder.assert_zero(transition.times(next.minus(local.plus(one))));
        let first = builder.is_first_row();
        builder.assert_zero(first.times(builder.main(false, 0)));
    }
}

impl MachineChip for Counter {}

#[test]
fn entries_are_ordered_by_kind_then_row_then_column() {
    let a = Entry::Preprocessed { row: 9, col: 9 };
    let b = Entry::Main { row: 0, col: 0 };
    let c = Entry::Main { row: 0, col: 1 };
    let d = Entry::Main { row: 1, col: 0 };
    let e = Entry::Permutation { row: 0, col: 0 };
    let f = Entry::Public { index: 0 };
    let g = Entry::Untracked;
    let all = [a, b, c, d, e, f, g];
    for i in 0..all.len() {
        for j in 0..all.len() {
            assert_eq!(all[i].is_before(&all[j]), i < j);
        }
    }
}

#[test]
fn inserting_keeps_entries_sorted_and_once() {
    let mut entries = Vec::new();
    insert_entry(&mut entries, Entry::Main { row: 2, col: 0 });
    insert_entry(&mut entries, Entry::Public { index: 1 });
    insert_entry(&mut entries, Entry::Main { row: 1, col: 5 });
    insert_entry(&mut entries, Entry::Main { row: 2, col: 0 });
    insert_entry(&mut entries, Entry::Preprocessed { row: 7, col: 7 });
    assert_eq!(
        entries,
        vec![
            Entry::Preprocessed { row: 7, col: 7 },
            Entry::Main { row: 1, col: 5 },
            Entry::Main { row: 2, col: 0 },
            Entry::Public { index: 1 }
        ]
    );
}

#[test]
fn entries_of_an_expression_are_its_cells() {
    let e = SymbolicExpression::Main { next: true, column: 2 }
        .times(SymbolicExpression::Permutation { next: false, column: 1 })
        .plus(SymbolicExpression::ChallengePower { index: 0, power: 3 })
        .minus(SymbolicExpression::Public { index: 4 }.negated())
        .plus(SymbolicExpression::IsFirstRow.times(SymbolicExpression::CumulativeSum));
    let mut entries = Vec::new();
    collect_entries(&e, 5, 6, &mut entries);
    assert_eq!(
        entries,
        vec![
            Entry::Main { row: 6, col: 2 },
            Entry::Permutation { row: 5, col: 1 },
            Entry::Public { index: 4 }
        ]
    );
}

#[test]
fn evaluation_follows_the_expression() {
    let preprocessed = TwoRowMatrixView::new(vec![base(2)], vec![base(3)]);
    let main = TwoRowMatrixView::new(vec![base(5), base(7)], vec![base(11), base(13)]);
    let perm = TwoRowMatrixView::new(
        vec![Ef::from_array([1, 1, 0, 0])],
        vec![Ef::from_array([0, 0, 1, 0])],
    );
    let challenges = [Ef::from_array([0, 1, 0, 0]), base(4)];
    let public = vec![fe(100)];
    let eval = |e: &SymbolicExpression| {
        evaluate(
            e,
            &preprocessed,
            &main,
            &perm,
            &challenges,
            &public,
            base(9),
            base(1),
            base(0),
            base(1),
        )
    };
    assert_eq!(eval(&SymbolicExpression::Constant(fe(6))).to_array(), [6, 0, 0, 0]);
    assert_eq!(
        eval(&SymbolicExpression::Preprocessed { next: true, column: 0 }).to_array(),
        [3, 0, 0, 0]
    );
    assert_eq!(eval(&SymbolicExpression::Main { next: false, column: 1 }).to_array(), [7, 0, 0, 0]);
    assert_eq!(eval(&SymbolicExpression::Main { next: true, column: 0 }).to_array(), [11, 0, 0, 0]);
    assert_eq!(
        eval(&SymbolicExpression::Permutation { next: true, column: 0 }).to_array(),
        [0, 0, 1, 0]
    );
    assert_eq!(eval(&SymbolicExpression::Public { index: 0 }).to_array(), [100, 0, 0, 0]);
    // X^5 = 11 X.
    assert_eq!(
        eval(&SymbolicExpression::ChallengePower { index: 0, power: 5 }).to_array(),
        [0, 11, 0, 0]
    );
    assert_eq!(
        eval(&SymbolicExpression::ChallengePower { index: 1, power: 0 }).to_array(),
        [1, 0, 0, 0]
    );
    assert_eq!(eval(&SymbolicExpression::CumulativeSum).to_array(), [9, 0, 0, 0]);
    assert_eq!(eval(&SymbolicExpression::IsFirstRow).to_array(), [1, 0, 0, 0]);
    assert_eq!(eval(&SymbolicExpression::IsLastRow).to_array(), [0, 0, 0, 0]);
    assert_eq!(eval(&SymbolicExpression::IsTransition).to_array(), [1, 0, 0, 0]);
    // (5 + 7) * (1 + X) - 11
    let e = main0()
        .plus(SymbolicExpression::Main { next: false, column: 1 })
        .times(SymbolicExpression::Permutation { next: false, column: 0 })
        .minus(SymbolicExpression::Main { next: true, column: 0 });
    assert_eq!(eval(&e).to_array(), [1, 12, 0, 0]);
    assert_eq!(eval(&main0().negated()).to_array(), [rap_machine::field::P - 5, 0, 0, 0]);
    assert_eq!(power_of(Ef::from_array([0, 1, 0, 0]), 4).to_array(), [11, 0, 0, 0]);
}

#[test]
fn degree_and_shape_of_expressions() {
    let e = main0().times(SymbolicExpression::Permutation { next: true, column: 3 });
    assert_eq!(e.degree_multiple(), 2);
    let shape = Shape {
        preprocessed_width: 0,
        main_width: 1,
        permutation_width: 4,
        public_values: 0,
        challenges: 2,
    };
    assert!(e.fits_shape(&shape));
    let narrow = Shape { permutation_width: 3, ..shape };
    assert!(!e.fits_shape(&narrow));
    assert!(!SymbolicExpression::ChallengePower { index: 2, power: 1 }.fits_shape(&shape));
    assert!(!SymbolicExpression::Public { index: 0 }.fits_shape(&shape));
    assert!(constraints_fit(&[e], &shape));
}

#[test]
fn debug_builder_remembers_the_first_failure() {
    let mut builder = DebugConstraintBuilder {
        row_index: 3,
        preprocessed: TwoRowMatrixView::empty(),
        main: TwoRowMatrixView::new(embed_row(&[fe(5)]), embed_row(&[fe(6)])),
        permutation: TwoRowMatrixView::empty(),
        perm_challenges: [base(2), base(3)],
        public_values: vec![],
        cumulative_sum: Ef::zero(),
        is_first_row: Ef::zero(),
        is_last_row: Ef::zero(),
        is_transition: Ef::one(),
        asserted: 0,
        failed: None,
    };
    assert_eq!(builder.main().local[0].to_array(), [5, 0, 0, 0]);
    assert_eq!(builder.is_transition_window(2).to_array(), [1, 0, 0, 0]);
    builder.assert_zero(Ef::zero());
    assert_eq!(builder.failed, None);
    builder.assert_zero(base(1));
    builder.assert_zero_ext(base(2));
    assert_eq!(builder.failed, Some(1));
    assert_eq!(builder.asserted, 3);
    let mut fresh = DebugConstraintBuilder { asserted: 0, failed: None, ..builder };
    let five = SymbolicExpression::Constant(fe(5));
    fresh.eval_all(&[main0().minus(five), main0()]);
    assert_eq!(fresh.failed, Some(1));
    assert_eq!(fresh.asserted, 2);
}

#[test]
fn tracking_builder_collects_the_cells_of_failures_only() {
    let mut builder = TrackingConstraintBuilder {
        row_index: 2,
        next_row_index: 3,
        entries: vec![],
        preprocessed: TwoRowMatrixView::empty(),
        main: TwoRowMatrixView::new(embed_row(&[fe(5), fe(0)]), embed_row(&[fe(6), fe(0)])),
        permutation: TwoRowMatrixView::empty(),
        perm_challenges: [base(2), base(3)],
        public_values: vec![],
        cumulative_sum: Ef::zero(),
        is_first_row: Ef::zero(),
        is_last_row: Ef::zero(),
        is_transition: Ef::one(),
    };
    let holds = builder.track(&SymbolicExpression::Main { next: false, column: 1 });
    assert!(holds.value.is_zero());
    assert_eq!(holds.entries, vec![Entry::Main { row: 2, col: 1 }]);
    builder.assert_zero(&holds);
    assert!(builder.entries.is_empty());
    let fails = builder.track(&main0().plus(SymbolicExpression::Main { next: true, column: 1 }));
    builder.assert_zero_ext(&fails);
    assert_eq!(
        builder.entries,
        vec![Entry::Main { row: 2, col: 0 }, Entry::Main { row: 3, col: 1 }]
    );
}

#[test]
fn symbolic_builder_records_what_a_table_asserts() {
    let shape = Shape {
        preprocessed_width: 0,
        main_width: 1,
        permutation_width: 4,
        public_values: 0,
        challenges: 2,
    };
    let mut builder = SymbolicAirBuilder::new(shape);
    let chip = Counter;
    assert_eq!(chip.trace_width(), 1);
    assert_eq!(chip.all_interactions().len(), 3);
    assert_eq!(chip.all_interactions()[0].1, InteractionType::Send);
    assert_eq!(chip.all_interactions()[2].0.argument_index, 0);
    let interactions = eval_all(&chip, &mut builder).unwrap();
    assert_eq!(interactions.len(), 3);
    // Two of its own, three reciprocal constraints, three for the running sum.
    assert_eq!(builder.constraints.len(), 8);
    assert!(constraints_fit(&builder.constraints, &shape));
    assert_eq!(rap_machine::symbolic::get_max_constraint_degree(&builder.constraints), 2);
    let r = builder.permutation_randomness();
    assert_eq!(r[0].degree_multiple(), 0);
    assert_eq!(builder.public_value(3).degree_multiple(), 0);
    assert_eq!(builder.preprocessed(true, 1).degree_multiple(), 1);
    assert_eq!(builder.is_last_row().degree_multiple(), 1);
}

struct Unbounded;

impl Chip for Unbounded {
    // Read by contracts only, never run.
    fn model(&self) -> TableModel {
        unreachable!()
    }

    fn width(&self) -> usize {
        2
    }

    fn preprocessed_trace(&self) -> Option<Matrix<Fe>> {
        None
    }

    fn generate_trace(&self) -> Matrix<Fe> {
        Matrix::new(vec![fe(0), fe(0)], 2)
    }

    fn sends(&self) -> Vec<Interaction> {
        vec![message(3)]
    }

    fn receives(&self) -> Vec<Interaction> {
        vec![message(usize::MAX)]
    }

    fn eval(&self, builder: &mut SymbolicAirBuilder) {
        builder.assert_zero(builder.main(false, 1));
    }
}

impl MachineChip for Unbounded {}

#[test]
fn a_bus_beyond_the_largest_tag_gives_no_permutation_constraints() {
    let shape = Shape {
        preprocessed_width: 0,
        main_width: 2,
        permutation_width: 3,
        public_values: 0,
        challenges: 2,
    };
    let mut builder = SymbolicAirBuilder::new(shape);
    let chip = Unbounded;
    assert_eq!(chip.trace_width(), 2);
    let all = chip.all_interactions();
    assert_eq!(all.len(), 2);
    assert_eq!((all[0].0.argument_index, all[0].1), (3, InteractionType::Send));
    assert_eq!((all[1].0.argument_index, all[1].1), (usize::MAX, InteractionType::Receive));
    assert!(eval_all(&chip, &mut builder).is_none());
    assert_eq!(builder.constraints.len(), 1);
    assert!(matches!(
        builder.constraints[0],
        SymbolicExpression::Main { next: false, column: 1 }
    ));
}

#[test]
fn machine_keeps_the_constraints_and_interactions_of_a_table() {
    let kept = chip_type(&Counter, 0).unwrap();
    // Two of its own, three reciprocal constraints, three for the running sum.
    assert_eq!(kept.constraints.len(), 8);
    assert!(matches!(kept.constraints[0], SymbolicExpression::Mul(_, _)));
    assert!(matches!(kept.constraints[2], SymbolicExpression::Sub(_, _)));
    let buses: Vec<usize> = kept.interactions.iter().map(|i| i.0.argument_index).collect();
    assert_eq!(buses, vec![1, 2, 0]);
    assert_eq!(kept.interactions[0].1, InteractionType::Send);
    assert_eq!(kept.interactions[1].1, InteractionType::Receive);
    assert!(kept.preprocessed.is_none());
    assert!(chip_type(&Unbounded, 0).is_none());

    // The table as the machine keeps it goes through the stages.
    let chips = [&kept];
    let trace = load_main(new_machine_trace(&chips), vec![Some(Counter.generate_trace())]);
    assert!(check_tables(&trace));
    assert_eq!(trace[0].main.as_ref().unwrap().trace.value.width(), Counter.trace_width());
}

#[test]
fn all_interactions_lists_sends_before_receives() {
    let all = Counter.all_interactions();
    let buses: Vec<usize> = all.iter().map(|i| i.0.argument_index).collect();
    assert_eq!(buses, vec![1, 2, 0]);
    assert_eq!(all[0].1, InteractionType::Send);
    assert_eq!(all[1].1, InteractionType::Receive);
    assert_eq!(all[2].1, InteractionType::Receive);
    assert_eq!(all[0].0.fields.len(), 1);
}

#[test]
fn honest_counter_passes_all_its_constraints() {
    let chip = Counter;
    let main = Some(chip.generate_trace());
    let challenges = [Ef::from_array([2, 1, 0, 5]), Ef::from_array([3, 0, 1, 0])];
    let shape = Shape {
        preprocessed_width: 0,
        main_width: 1,
        permutation_width: 4,
        public_values: 0,
        challenges: 2,
    };
    let mut builder = SymbolicAirBuilder::new(shape);
    let interactions = eval_all(&chip, &mut builder).unwrap();
    assert!(check_table(None, main.as_ref(), &interactions));
    let perm = generate_permutation_trace(&None, &main, &interactions, challenges);
    let sum = perm.as_ref().unwrap().get(3, 3);
    assert!(check_checkable(&builder.constraints, &None, &main, &perm, &[]));
    let r = rap_machine::check_constraints::check_constraints(
        &builder.constraints,
        &None,
        &main,
        &perm,
        challenges,
        Some(sum),
        &[],
    );
    assert!(r.is_ok());
    let wrong = Some(column(&[0, 1, 3, 4]));
    let perm = generate_permutation_trace(&None, &wrong, &interactions, challenges);
    let sum = perm.as_ref().unwrap().get(3, 3);
    let v = rap_machine::check_constraints::check_constraints(
        &builder.constraints,
        &None,
        &wrong,
        &perm,
        challenges,
        Some(sum),
        &[],
    )
    .unwrap_err();
    assert_eq!(v.row, 1);
    assert_eq!(v.constraint, 0);
}

#[test]
fn virtual_column_as_an_expression() {
    let col = VirtualPairCol::new(
        vec![(PairCol::Main(1), fe(2)), (PairCol::Preprocessed(0), fe(3))],
        fe(7),
    );
    let e = apply_symbolic(&col, true);
    assert_eq!(e.degree_multiple(), 1);
    let preprocessed = TwoRowMatrixView::new(vec![base(0)], vec![base(5)]);
    let main = TwoRowMatrixView::new(vec![base(0), base(0)], vec![base(11), base(13)]);
    let v = evaluate(
        &e,
        &preprocessed,
        &main,
        &TwoRowMatrixView::empty(),
        &[base(2), base(3)],
        &vec![],
        Ef::zero(),
        Ef::zero(),
        Ef::zero(),
        Ef::zero(),
    );
    assert_eq!(v.to_array(), [7 + 2 * 13 + 3 * 5, 0, 0, 0]);
    assert_eq!(col.apply(&[fe(5)], &[fe(11), fe(13)]).value(), 48);
}

#[test]
fn preconditions_can_be_tested() {
    let main = column(&[1, 2]);
    let other = column(&[1, 2, 3, 4]);
    assert!(check_table(Some(&main), Some(&main), &[(message(0), InteractionType::Send)]));
    assert!(!check_table(Some(&main), Some(&other), &[]));
    // Without rows no column is read, so none is asked for.
    assert!(check_table(None, None, &[(message(0), InteractionType::Send)]));
    let no_rows = Matrix::new(vec![], 1);
    assert!(check_table(None, Some(&no_rows), &[(message(0), InteractionType::Send)]));
    assert!(!check_table(None, None, &[(message(usize::MAX), InteractionType::Send)]));
    let reads_second = Interaction {
        fields: vec![VirtualPairCol::single_main(1)],
        count: VirtualPairCol::constant(fe(1)),
        argument_index: 0,
    };
    assert!(!check_table(None, Some(&main), &[(reads_second, InteractionType::Send)]));
    assert!(!check_table(None, Some(&main), &[(message(usize::MAX), InteractionType::Send)]));
    assert_eq!(table_height(Some(&main), None), 2);
    assert_eq!(table_height(None, None), 0);
    assert!(buses_fit(&vec![(message(5), InteractionType::Send)]));
    assert!(!buses_fit(&vec![(message(usize::MAX), InteractionType::Send)]));
    assert_eq!(largest_bus(&[message(3), message(9), message(1)]), 9);
    assert_eq!(largest_bus(&[]), 0);
    let powers = powers_from_first(base(2), 3);
    assert_eq!(powers[2].to_array(), [8, 0, 0, 0]);

    let reads_preprocessed = vec![SymbolicExpression::Preprocessed { next: false, column: 0 }];
    assert!(!check_checkable(&reads_preprocessed, &None, &Some(column(&[1, 2])), &None, &[]));
    assert!(check_checkable(
        &reads_preprocessed,
        &Some(column(&[1, 2])),
        &Some(column(&[1, 2])),
        &None,
        &[]
    ));
    assert!(check_checkable(&reads_preprocessed, &None, &None, &None, &[]));
    assert!(check_checkable(&[main0()], &None, &Some(Matrix::new(vec![], 1)), &None, &[]));
    let short_perm = Some(Matrix::new(vec![Ef::zero()], 1));
    assert!(!check_checkable(&reads_preprocessed, &None, &None, &short_perm, &[]));
    assert!(!check_checkable(&[], &None, &Some(column(&[1, 2])), &short_perm, &[]));

    let chip = ChipType {
        constraints: vec![],
        interactions: vec![(message(0), InteractionType::Send)],
        preprocessed: None,
    };
    let chips = [&chip];
    assert!(check_tables(&new_machine_trace(&chips)));
    let wide = ChipType {
        constraints: vec![],
        interactions: vec![(
            Interaction {
                fields: vec![VirtualPairCol::single_main(1)],
                count: VirtualPairCol::constant(fe(1)),
                argument_index: 0,
            },
            InteractionType::Send,
        )],
        preprocessed: None,
    };
    let wide_chips = [&wide];
    assert!(check_tables(&new_machine_trace(&wide_chips)));
    assert!(!check_tables(&load_main(new_machine_trace(&wide_chips), vec![Some(column(&[1, 2]))])));
    assert!(check_tables(&load_main(new_machine_trace(&chips), vec![Some(column(&[1, 2]))])));

    let d = Domain::natural_domain_for_degree(2).unwrap();
    let good = TraceEvaluations { preprocessed: None, main: Some(column(&[1, 2])), permutation: None };
    let short = TraceEvaluations { preprocessed: None, main: Some(column(&[1])), permutation: None };
    assert!(check_quotient_prepared(&[main0()], d, &good));
    assert!(!check_quotient_prepared(&[main0()], d, &short));
    assert!(!check_quotient_prepared(
        &[SymbolicExpression::Public { index: 0 }],
        d,
        &good
    ));
}

#[test]
fn bus_sums_one_bus_at_a_time() {
    let challenges = [base(2), base(3)];
    let main = Some(column(&[5, 6]));
    let list = vec![(message(0), InteractionType::Send), (message(2), InteractionType::Receive)];
    let perm = generate_permutation_trace(&None, &main, &list, challenges).unwrap();
    let expected0 = perm.get(0, 0).add(perm.get(1, 0));
    let expected2 = Ef::zero().sub(perm.get(0, 1)).sub(perm.get(1, 1));
    let interactions = [list];
    let perms = [Some(perm)];
    let mains = [main];
    assert!(check_summable(&interactions, &[None], &mains, &perms));
    assert!(!check_summable(&interactions, &[], &mains, &perms));
    assert_eq!(largest_bus_used(&interactions), 2);
    assert_eq!(sum_of_bus(&interactions, &[None], &mains, &perms, 0).to_array(), expected0.to_array());
    assert!(sum_of_bus(&interactions, &[None], &mains, &perms, 1).is_zero());
    assert_eq!(sum_of_bus(&interactions, &[None], &mains, &perms, 2).to_array(), expected2.to_array());
}
