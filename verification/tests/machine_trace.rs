use rap_machine::domain::Domain;
use rap_machine::extension::Ef;
use rap_machine::field::Fe;
use rap_machine::folder::ProverConstraintFolder;
use rap_machine::interaction::{Interaction, InteractionType, VirtualPairCol};
use rap_machine::matrix::Matrix;
use rap_machine::pipeline::{
    check_evaluations_match, check_quotients_prepared, check_tables, chip_quotient, commit_main,
    commit_permutation, commit_preprocessed, commit_quotient, evaluation_request,
    generate_permutation, generate_preprocessed, generate_quotient, load_main, load_preprocessed,
    new_machine_trace, quotient_domain_of, MachineTrace, MachineTraceBuilder,
    MachineTraceCommiter, MachineTraceLoader, TraceEvaluations,
};
use rap_machine::quotient::{quotient_values, rebuild_row, split_quotient};
use rap_machine::symbolic::SymbolicExpression;
use rap_machine::trace::{
    check_heights, commit_traces, flatten_to_base, load_traces, ChipTrace, ChipType, Trace,
};
use rap_machine::window::{embed_row, TwoRowMatrixView};

fn fe(v: u32) -> Fe {
    Fe::new(v)
}

fn base(v: u32) -> Ef {
    Ef::from_base(Fe::new(v))
}

fn column(values: &[u32]) -> Matrix<Fe> {
    Matrix::new(values.iter().map(|v| Fe::new(*v)).collect(), 1)
}

fn main0() -> SymbolicExpression {
    SymbolicExpression::Main { next: false, column: 0 }
}

fn plain_chip() -> ChipType {
    ChipType { constraints: vec![main0()], interactions: vec![], preprocessed: None }
}

fn sending_chip(kind: InteractionType) -> ChipType {
    ChipType {
        constraints: vec![],
        interactions: vec![(
            Interaction {
                fields: vec![VirtualPairCol::single_main(0)],
                count: VirtualPairCol::constant(fe(1)),
                argument_index: 0,
            },
            kind,
        )],
        preprocessed: None,
    }
}

#[test]
fn matrix_rows_and_cells() {
    let m = Matrix::new(vec![1u32, 2, 3, 4, 5, 6], 3);
    assert_eq!(m.width(), 3);
    assert_eq!(m.height(), 2);
    assert_eq!(m.row_slice(1), &[4, 5, 6]);
    assert_eq!(m.get(0, 2), 3);
    assert_eq!(m.values_len(), 6);
    let c = m.clone();
    assert_eq!(c.row_slice(0), &[1, 2, 3]);
    let e: Matrix<u32> = Matrix::new(vec![], 0);
    assert_eq!(e.height(), 0);
    let col = Matrix::new_col(vec![7u32, 8]);
    assert_eq!(col.height(), 2);
    assert_eq!(col.width(), 1);
    let rows = Matrix::from_rows(&vec![vec![1u32, 2], vec![3, 4], vec![5, 6]], 2);
    assert_eq!(rows.height(), 3);
    assert_eq!(rows.row_slice(2), &[5, 6]);
}

#[test]
fn flattening_lays_out_the_coefficients() {
    let m = Matrix::new(
        vec![
            Ef::from_array([1, 2, 3, 4]),
            Ef::from_array([5, 6, 7, 8]),
            Ef::from_array([9, 10, 11, 12]),
            Ef::from_array([13, 14, 15, 16]),
        ],
        2,
    );
    let f = flatten_to_base(&m);
    assert_eq!(f.width(), 8);
    assert_eq!(f.height(), 2);
    let row0: Vec<u32> = f.row_slice(0).iter().map(|x| x.value()).collect();
    let row1: Vec<u32> = f.row_slice(1).iter().map(|x| x.value()).collect();
    assert_eq!(row0, vec![1, 2, 3, 4, 5, 6, 7, 8]);
    assert_eq!(row1, vec![9, 10, 11, 12, 13, 14, 15, 16]);
    // Rebuilding gives the cells back.
    let back = rebuild_row(f.row_slice(1));
    assert_eq!(back[0].to_array(), [9, 10, 11, 12]);
    assert_eq!(back[1].to_array(), [13, 14, 15, 16]);
}

#[test]
fn flattening_an_empty_matrix_gives_an_empty_matrix() {
    let m: Matrix<Ef> = Matrix::new(vec![], 3);
    let f = flatten_to_base(&m);
    assert_eq!(f.height(), 0);
    assert_eq!(f.values_len(), 0);
}

#[test]
fn loading_skips_absent_and_empty_traces() {
    let traces = vec![
        Some(column(&[1, 2])),
        None,
        Some(Matrix::new(vec![], 1)),
        Some(column(&[3, 4, 5, 6])),
        Some(column(&[7])),
    ];
    assert!(check_heights(&traces));
    let loaded = load_traces(traces);
    assert_eq!(loaded.len(), 5);
    assert_eq!(loaded[0].as_ref().unwrap().opening_index, 0);
    assert_eq!(loaded[0].as_ref().unwrap().trace.domain.size(), 2);
    assert!(loaded[1].is_none());
    assert!(loaded[2].is_none());
    assert_eq!(loaded[3].as_ref().unwrap().opening_index, 1);
    assert_eq!(loaded[3].as_ref().unwrap().trace.domain.size(), 4);
    assert_eq!(loaded[3].as_ref().unwrap().trace.value.get(2, 0).value(), 5);
    assert_eq!(loaded[4].as_ref().unwrap().opening_index, 2);
    assert_eq!(loaded[4].as_ref().unwrap().trace.domain.size(), 1);
}

#[test]
fn heights_must_be_powers_of_two() {
    assert!(!check_heights(&vec![Some(column(&[1, 2, 3]))]));
    assert!(check_heights(&vec![Some(column(&[1, 2, 3, 4])), None]));
    let none: Vec<Option<Matrix<Fe>>> = vec![];
    assert!(check_heights(&none));
}

#[test]
fn committing_nothing_gives_no_batch() {
    assert!(commit_traces(vec![]).is_none());
    let d = Domain::natural_domain_for_degree(2).unwrap();
    let batch = commit_traces(vec![Trace { value: column(&[1, 2]), domain: d }]).unwrap();
    assert_eq!(batch.len(), 1);
    assert_eq!(batch[0].0, d);
    assert_eq!(batch[0].1.get(1, 0).value(), 2);
}

#[test]
fn new_machine_trace_has_nothing_loaded() {
    let a = plain_chip();
    let b = plain_chip();
    let chips = [&a, &b];
    let trace: MachineTrace = MachineTraceBuilder::new(&chips);
    assert_eq!(trace.len(), 2);
    for t in trace.iter() {
        assert!(t.preprocessed.is_none());
        assert!(t.main.is_none());
        assert!(t.permutation.is_none());
        assert!(t.cumulative_sum.is_none());
        assert!(t.quotient_chunks.is_none());
        assert!(t.quotient_degree.is_none());
        assert!(t.domain().is_none());
    }
    assert!(commit_main(trace).is_none());
}

#[test]
fn empty_table_contributes_nothing() {
    let a = plain_chip();
    let b = plain_chip();
    let c = plain_chip();
    let chips = [&a, &b, &c];
    let trace = new_machine_trace(&chips);
    let trace =
        load_main(trace, vec![Some(column(&[1, 2])), Some(Matrix::new(vec![], 1)), Some(column(&[3]))]);
    assert!(trace[1].main.is_none());
    assert!(trace[1].domain().is_none());
    assert_eq!(trace[0].main.as_ref().unwrap().opening_index, 0);
    assert_eq!(trace[2].main.as_ref().unwrap().opening_index, 1);
    let trace = generate_permutation(trace, [base(2), base(3)]);
    assert!(trace[1].permutation.is_none());
    assert!(trace[1].cumulative_sum.is_none());
    assert_eq!(trace[0].permutation.as_ref().unwrap().opening_index, 0);
    assert_eq!(trace[2].permutation.as_ref().unwrap().opening_index, 1);
    let batch = commit_permutation(trace).unwrap();
    assert_eq!(batch.len(), 2);
    assert_eq!(batch[0].0.size(), 2);
    assert_eq!(batch[1].0.size(), 1);
}

#[test]
fn trace_domain_is_the_larger_one() {
    let a = plain_chip();
    let chips = [&a];
    let trace = new_machine_trace(&chips);
    let trace = load_preprocessed(trace, vec![Some(column(&[1, 2]))]);
    assert_eq!(trace[0].domain().unwrap().size(), 2);
    let trace = load_main(trace, vec![Some(column(&[1, 2, 3, 4]))]);
    assert_eq!(trace[0].domain().unwrap().size(), 4);
    let b = plain_chip();
    let chips = [&b];
    let trace = load_main(new_machine_trace(&chips), vec![Some(column(&[1, 2]))]);
    assert_eq!(trace[0].domain().unwrap().size(), 2);
}

#[test]
fn preprocessed_traces_come_from_the_tables() {
    let with = ChipType {
        constraints: vec![],
        interactions: vec![],
        preprocessed: Some(column(&[4, 5])),
    };
    let without = plain_chip();
    let chips = [&without, &with];
    let trace = generate_preprocessed(new_machine_trace(&chips));
    assert!(trace[0].preprocessed.is_none());
    let p = trace[1].preprocessed.as_ref().unwrap();
    assert_eq!(p.opening_index, 0);
    assert_eq!(p.trace.value.get(1, 0).value(), 5);
    let batch = commit_preprocessed(trace).unwrap();
    assert_eq!(batch.len(), 1);
    assert_eq!(batch[0].1.height(), 2);
}

#[test]
fn idle_table_with_interactions_gets_no_permutation_trace() {
    let a = sending_chip(InteractionType::Send);
    let idle = sending_chip(InteractionType::Receive);
    let c = sending_chip(InteractionType::Receive);
    let chips = [&a, &idle, &c];
    let trace = load_main(
        new_machine_trace(&chips),
        vec![Some(column(&[5, 6])), None, Some(column(&[6, 5]))],
    );
    assert!(check_tables(&trace));
    let trace = generate_permutation(trace, [base(2), base(3)]);
    assert!(trace[1].permutation.is_none());
    assert!(trace[1].cumulative_sum.is_none());
    assert_eq!(trace[0].permutation.as_ref().unwrap().opening_index, 0);
    assert_eq!(trace[2].permutation.as_ref().unwrap().opening_index, 1);
    let sum_a = trace[0].cumulative_sum.unwrap();
    let sum_c = trace[2].cumulative_sum.unwrap();
    assert!(sum_a.add(sum_c).is_zero());
    let batch = commit_permutation(trace).unwrap();
    assert_eq!(batch.len(), 2);
}

#[test]
fn permutation_stage_attaches_traces_and_sums() {
    let a = sending_chip(InteractionType::Send);
    let b = sending_chip(InteractionType::Receive);
    let chips = [&a, &b];
    let trace = load_main(
        new_machine_trace(&chips),
        vec![Some(column(&[5, 6])), Some(column(&[6, 5]))],
    );
    let trace = trace.generate_permutation([base(2), base(3)]);
    let pa = trace[0].permutation.as_ref().unwrap();
    let pb = trace[1].permutation.as_ref().unwrap();
    assert_eq!(pa.trace.value.width(), 2);
    assert_eq!(pa.trace.value.height(), 2);
    assert_eq!(pa.trace.domain.size(), 2);
    assert_eq!(pa.opening_index, 0);
    assert_eq!(pb.opening_index, 1);
    assert_eq!(pa.trace.value.get(0, 0).mul(base(8)).to_array(), [1, 0, 0, 0]);
    let sum_a = trace[0].cumulative_sum.unwrap();
    let sum_b = trace[1].cumulative_sum.unwrap();
    assert_eq!(sum_a.to_array(), pa.trace.value.get(1, 1).to_array());
    assert!(!sum_a.is_zero());
    assert!(sum_a.add(sum_b).is_zero());
    let perm_a = pa.trace.value.get(1, 0);
    let batch = trace.commit_permutation().unwrap();
    assert_eq!(batch.len(), 2);
    assert_eq!(batch[0].1.width(), 8);
    let flat: Vec<u32> = batch[0].1.row_slice(1)[0..4].iter().map(|x| x.value()).collect();
    assert_eq!(flat, perm_a.to_array().to_vec());
}

#[test]
fn quotient_domain_has_room_for_the_degree() {
    let d = Domain::natural_domain_for_degree(4).unwrap();
    let cube = main0().times(main0()).times(main0());
    let q = quotient_domain_of(&[cube], d).unwrap();
    assert_eq!(q.size(), 8);
    assert_eq!(q.first_point().value(), 31);
    assert_eq!(quotient_domain_of(&[main0()], d).unwrap().size(), 4);
    let large = Domain::natural_domain_for_degree(1 << 27).unwrap();
    let cube = main0().times(main0()).times(main0());
    assert!(quotient_domain_of(&[cube], large).is_none());
}

#[test]
fn quotient_values_fold_and_divide_on_every_point() {
    let trace_domain = Domain::natural_domain_for_degree(2).unwrap();
    let quotient_domain = trace_domain.create_disjoint_domain(4).unwrap();
    let main = Matrix::new(vec![fe(1), fe(2), fe(3), fe(4), fe(5), fe(6), fe(7), fe(8)], 2);
    // One extension column, flattened.
    let perm = Matrix::new((10..26).map(fe).collect(), 4);
    let next = SymbolicExpression::Main { next: true, column: 1 };
    let constraints = vec![
        main0().times(next),
        SymbolicExpression::IsFirstRow
            .times(SymbolicExpression::Permutation { next: true, column: 0 }),
        SymbolicExpression::IsLastRow.plus(SymbolicExpression::IsTransition),
    ];
    let alpha = Ef::from_array([1, 2, 3, 4]);
    let challenges = [base(2), base(3)];
    let values = quotient_values(
        &constraints,
        trace_domain,
        quotient_domain,
        None,
        Some(&main),
        Some(&perm),
        challenges,
        alpha,
        Ef::zero(),
        &[],
    );
    assert_eq!(values.len(), 4);
    let sels = trace_domain.selectors_on_coset(&quotient_domain);
    for i in 0..4 {
        // One trace row is two points of the quotient domain.
        let next = (i + 2) % 4;
        let mut folder = ProverConstraintFolder {
            preprocessed: TwoRowMatrixView::empty(),
            main: TwoRowMatrixView::new(embed_row(main.row_slice(i)), embed_row(main.row_slice(next))),
            perm: TwoRowMatrixView::new(
                rebuild_row(perm.row_slice(i)),
                rebuild_row(perm.row_slice(next)),
            ),
            perm_challenges: challenges,
            public_values: vec![],
            cumulative_sum: Ef::zero(),
            is_first_row: Ef::from_base(sels.is_first_row[i]),
            is_last_row: Ef::from_base(sels.is_last_row[i]),
            is_transition: Ef::from_base(sels.is_transition[i]),
            alpha,
            accumulator: Ef::zero(),
        };
        let c0 = base(main.get(i, 0).value()).mul(base(main.get(next, 1).value()));
        let c1 = folder.is_first_row().mul(rebuild_row(perm.row_slice(next))[0]);
        let c2 = folder.is_last_row().add(folder.is_transition_window(2));
        folder.eval_all(&constraints);
        let expected = c0.mul(alpha).add(c1).mul(alpha).add(c2);
        assert_eq!(folder.accumulator.to_array(), expected.to_array());
        assert_eq!(values[i].to_array(), expected.scale(sels.inv_zeroifier[i]).to_array());
    }
    assert_ne!(values[0].to_array(), values[1].to_array());
}

#[test]
fn quotient_is_split_point_by_point() {
    let values: Vec<Ef> = (0..8u32).map(|i| Ef::from_array([i, i + 10, i + 20, i + 30])).collect();
    let chunks = split_quotient(&values, 2);
    assert_eq!(chunks.len(), 2);
    assert_eq!(chunks[0].width(), 4);
    assert_eq!(chunks[0].height(), 4);
    let row = |m: &Matrix<Fe>, r: usize| -> Vec<u32> {
        m.row_slice(r).iter().map(|x| x.value()).collect()
    };
    assert_eq!(row(&chunks[0], 0), vec![0, 10, 20, 30]);
    assert_eq!(row(&chunks[1], 0), vec![1, 11, 21, 31]);
    assert_eq!(row(&chunks[0], 3), vec![6, 16, 26, 36]);
    assert_eq!(row(&chunks[1], 3), vec![7, 17, 27, 37]);
    let one = split_quotient(&values, 1);
    assert_eq!(one.len(), 1);
    assert_eq!(one[0].height(), 8);
    assert_eq!(row(&one[0], 5), vec![5, 15, 25, 35]);
}

#[test]
fn table_of_low_degree_still_has_one_chunk() {
    let trace_domain = Domain::natural_domain_for_degree(2).unwrap();
    let evaluations = TraceEvaluations {
        preprocessed: None,
        main: Some(column(&[3, 4])),
        permutation: None,
    };
    let q = chip_quotient(
        &[main0()],
        trace_domain,
        &evaluations,
        None,
        [base(2), base(3)],
        Ef::from_array([1, 2, 3, 4]),
        5,
    );
    assert_eq!(q.opening_index, 5);
    assert_eq!(q.traces.len(), 1);
    assert_eq!(q.traces[0].value.height(), 2);
    assert_eq!(q.traces[0].value.width(), 4);
    assert_eq!(q.traces[0].domain.size(), 2);
    assert_eq!(q.traces[0].domain.first_point().value(), 31);
    // On the first point, 31, the quotient is 3 / (31^2 - 1).
    let first = Ef::new(
        q.traces[0].value.get(0, 0),
        q.traces[0].value.get(0, 1),
        q.traces[0].value.get(0, 2),
        q.traces[0].value.get(0, 3),
    );
    assert_eq!(first.mul(base(960)).to_array(), [3, 0, 0, 0]);
}

#[test]
fn quotient_stage_indexes_the_tables_with_a_domain() {
    let cube = ChipType {
        constraints: vec![main0().times(main0()).times(main0()).minus(main0())],
        interactions: vec![],
        preprocessed: None,
    };
    let empty = plain_chip();
    let plain = plain_chip();
    let chips = [&cube, &empty, &plain];
    let trace = load_main(
        new_machine_trace(&chips),
        vec![Some(column(&[0, 1])), None, Some(column(&[0, 0, 0, 0]))],
    );
    let trace = generate_permutation(trace, [base(2), base(3)]);
    let evaluations = vec![
        Some(TraceEvaluations {
            preprocessed: None,
            main: Some(column(&[1, 2, 3, 4])),
            permutation: Some(Matrix::new((0..16).map(fe).collect(), 4)),
        }),
        None,
        Some(TraceEvaluations {
            preprocessed: None,
            main: Some(column(&[1, 2, 3, 4])),
            permutation: Some(Matrix::new((0..16).map(fe).collect(), 4)),
        }),
    ];
    assert!(check_quotients_prepared(&trace, &evaluations));
    let trace = generate_quotient(trace, &evaluations, [base(2), base(3)], base(7));
    let q0 = trace[0].quotient_chunks.as_ref().unwrap();
    assert_eq!(q0.opening_index, 0);
    assert_eq!(q0.traces.len(), 2);
    assert_eq!(q0.traces[0].value.height(), 2);
    assert_eq!(q0.traces[1].domain.size(), 2);
    assert!(trace[1].quotient_chunks.is_none());
    let q2 = trace[2].quotient_chunks.as_ref().unwrap();
    assert_eq!(q2.opening_index, 1);
    assert_eq!(q2.traces.len(), 1);
    assert_eq!(q2.traces[0].value.height(), 4);
    let batch = commit_quotient(trace).unwrap();
    assert_eq!(batch.len(), 3);
    assert_eq!(batch[0].1.height(), 2);
    assert_eq!(batch[2].1.height(), 4);
}

#[test]
fn stages_chain_through_the_traits() {
    let a = sending_chip(InteractionType::Send);
    let chips = [&a];
    let trace: Vec<ChipTrace> = MachineTraceBuilder::new(&chips);
    let trace = MachineTraceLoader::load_preprocessed(trace, vec![None]);
    let trace = MachineTraceLoader::load_main(trace, vec![Some(column(&[5, 6]))]);
    let trace = MachineTraceLoader::generate_permutation(trace, [base(2), base(3)]);
    assert!(trace[0].cumulative_sum.is_some());
    assert!(MachineTraceCommiter::commit_quotient(trace).is_none());
    let trace: Vec<ChipTrace> = MachineTraceBuilder::new(&chips);
    assert!(MachineTraceCommiter::commit_preprocessed(trace).is_none());
    let trace: Vec<ChipTrace> = MachineTraceBuilder::new(&chips);
    let trace = MachineTraceLoader::generate_preprocessed(trace);
    let trace = MachineTraceLoader::load_main(trace, vec![Some(column(&[5, 6]))]);
    let batch = MachineTraceCommiter::commit_main(trace).unwrap();
    assert_eq!(batch.len(), 1);
}

#[test]
fn evaluations_are_asked_for_the_traces_that_a_table_has() {
    let with_preprocessed = ChipType {
        constraints: vec![main0().times(main0()).times(main0()).minus(main0())],
        interactions: vec![],
        preprocessed: Some(column(&[1, 1])),
    };
    let idle = plain_chip();
    let plain = plain_chip();
    let chips = [&with_preprocessed, &idle, &plain];
    let trace = generate_preprocessed(new_machine_trace(&chips));
    let trace = load_main(trace, vec![Some(column(&[0, 1])), None, Some(column(&[0, 0, 0, 0]))]);
    let before = evaluation_request(&trace[2]).unwrap();
    assert!(before.permutation.is_none());
    let trace = generate_permutation(trace, [base(2), base(3)]);

    let first = evaluation_request(&trace[0]).unwrap();
    assert_eq!(first.domain.size(), 4);
    assert_eq!(first.domain.first_point().value(), 31);
    assert_eq!(first.preprocessed, Some(0));
    assert_eq!(first.main, Some(0));
    assert_eq!(first.permutation, Some(0));
    assert!(evaluation_request(&trace[1]).is_none());
    let third = evaluation_request(&trace[2]).unwrap();
    assert_eq!(third.domain.size(), 4);
    assert_eq!(third.preprocessed, None);
    assert_eq!(third.main, Some(1));
    assert_eq!(third.permutation, Some(1));

    let flat = || Some(Matrix::new((0..16).map(fe).collect(), 4));
    let full = || TraceEvaluations {
        preprocessed: Some(column(&[1, 1, 1, 1])),
        main: Some(column(&[1, 2, 3, 4])),
        permutation: flat(),
    };
    let without_preprocessed = || TraceEvaluations {
        preprocessed: None,
        main: Some(column(&[1, 2, 3, 4])),
        permutation: flat(),
    };
    assert!(check_evaluations_match(&trace[0], &full()));
    assert!(!check_evaluations_match(&trace[0], &without_preprocessed()));
    assert!(check_evaluations_match(&trace[2], &without_preprocessed()));
    assert!(!check_evaluations_match(&trace[2], &full()));
    assert!(check_quotients_prepared(
        &trace,
        &vec![Some(full()), None, Some(without_preprocessed())]
    ));
    // Preprocessed evaluations for a table without preprocessed trace.
    assert!(!check_quotients_prepared(&trace, &vec![Some(full()), None, Some(full())]));
    // No permutation evaluations for a table with a permutation trace.
    let no_permutation = TraceEvaluations {
        preprocessed: None,
        main: Some(column(&[1, 2, 3, 4])),
        permutation: None,
    };
    assert!(!check_quotients_prepared(&trace, &vec![Some(full()), None, Some(no_permutation)]));
    assert!(!check_quotients_prepared(&trace, &vec![Some(full()), None, None]));
}

#[test]
fn chip_proofs_pick_the_openings_by_position() {
    let a = sending_chip(InteractionType::Send);
    let empty = plain_chip();
    let b = plain_chip();
    let chips = [&a, &empty, &b];
    let trace = load_main(
        new_machine_trace(&chips),
        vec![Some(column(&[5, 6])), None, Some(column(&[0, 0, 0, 0]))],
    );
    let trace = generate_permutation(trace, [base(2), base(3)]);
    let evaluations = vec![
        Some(TraceEvaluations {
            preprocessed: None,
            main: Some(column(&[1, 2])),
            permutation: Some(Matrix::new((0..16).map(fe).collect(), 8)),
        }),
        None,
        Some(TraceEvaluations {
            preprocessed: None,
            main: Some(column(&[1, 2, 3, 4])),
            permutation: Some(Matrix::new((0..16).map(fe).collect(), 4)),
        }),
    ];
    let trace = generate_quotient(trace, &evaluations, [base(2), base(3)], base(7));
    let values = |v: u32| rap_machine::verify::AdjacentOpenedValues {
        local: vec![base(v)],
        next: vec![base(v + 1)],
    };
    let openings = rap_machine::machine::RoundOpenings {
        preprocessed: vec![],
        main: vec![values(10), values(20)],
        permutation: vec![values(30), values(40)],
        quotient: vec![vec![base(50)], vec![base(60)]],
    };
    let proofs = rap_machine::machine::assemble_chip_proofs(&trace, &openings).unwrap();
    assert_eq!(proofs.len(), 3);
    assert_eq!(proofs[0].log_degree, 1);
    assert_eq!(proofs[2].log_degree, 2);
    assert_eq!(proofs[1].log_degree, 0);
    assert!(proofs[1].opened_values.main.is_none());
    assert!(proofs[1].opened_values.quotient_chunks.is_none());
    assert!(proofs[1].cumulative_sum.is_none());
    assert!(proofs[0].opened_values.preprocessed.is_none());
    let main2 = proofs[2].opened_values.main.as_ref().unwrap();
    assert_eq!(main2.local[0].to_array(), [20, 0, 0, 0]);
    assert_eq!(main2.next[0].to_array(), [21, 0, 0, 0]);
    let perm0 = proofs[0].opened_values.permutation.as_ref().unwrap();
    assert_eq!(perm0.local[0].to_array(), [30, 0, 0, 0]);
    let q2 = proofs[2].opened_values.quotient_chunks.as_ref().unwrap();
    assert_eq!(q2.len(), 1);
    assert_eq!(q2[0][0].to_array(), [60, 0, 0, 0]);
    assert_eq!(
        proofs[0].cumulative_sum.unwrap().to_array(),
        trace[0].cumulative_sum.unwrap().to_array()
    );
    // One quotient chunk too few was opened.
    let short = rap_machine::machine::RoundOpenings {
        preprocessed: vec![],
        main: vec![values(10), values(20)],
        permutation: vec![values(30), values(40)],
        quotient: vec![vec![base(50)]],
    };
    assert!(rap_machine::machine::assemble_chip_proofs(&trace, &short).is_none());
}
