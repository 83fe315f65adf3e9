use rap_machine::bus::check_cumulative_sums;
use rap_machine::extension::Ef;
use rap_machine::field::Fe;
use rap_machine::interaction::{all_interactions, Interaction, PairCol};
use rap_machine::matrix::Matrix;
use rap_machine::merkle_tree::{column_interaction, MerkleTreeChip};
use rap_machine::permutation::generate_permutation_trace;
use rap_machine::verify::VerificationError;

const INPUT_BUS: usize = 0;
const OUTPUT_BUS: usize = 1;

fn merkle() -> MerkleTreeChip {
    // Columns: is_real, two of the left child, two of the right child, two of
    // the digest.
    MerkleTreeChip {
        left_node: vec![1, 2],
        right_node: vec![3, 4],
        output: vec![5, 6],
        is_real: 0,
        bus_keccak_permute_input: INPUT_BUS,
        bus_keccak_digest_output: OUTPUT_BUS,
    }
}

fn rows(values: &[[u32; 7]]) -> Matrix<Fe> {
    Matrix::new(values.iter().flatten().map(|v| Fe::new(*v)).collect(), 7)
}

fn columns(i: &Interaction) -> Vec<PairCol> {
    i.fields.iter().map(|f| f.column_weights[0].0).collect()
}

#[test]
fn merkle_table_sends_the_children_and_receives_the_digest() {
    let chip = merkle();
    let sends = chip.sends();
    assert_eq!(sends.len(), 1);
    assert_eq!(sends[0].argument_index, INPUT_BUS);
    assert_eq!(
        columns(&sends[0]),
        vec![PairCol::Main(1), PairCol::Main(2), PairCol::Main(3), PairCol::Main(4)]
    );
    assert_eq!(sends[0].count.column_weights[0].0, PairCol::Main(0));
    assert_eq!(sends[0].count.column_weights[0].1.value(), 1);
    assert_eq!(sends[0].count.constant.value(), 0);
    let receives = chip.receives();
    assert_eq!(receives.len(), 1);
    assert_eq!(receives[0].argument_index, OUTPUT_BUS);
    assert_eq!(columns(&receives[0]), vec![PairCol::Main(5), PairCol::Main(6)]);
    assert_eq!(receives[0].count.column_weights[0].0, PairCol::Main(0));
}

fn machine(
    hashed: [u32; 2],
) -> (
    Vec<Vec<(Interaction, rap_machine::interaction::InteractionType)>>,
    Vec<Option<Matrix<Fe>>>,
    Vec<Option<Matrix<Ef>>>,
) {
    let chip = merkle();
    // The hashing table has the same columns, receives the children and
    // sends the digest.
    let hashing_receives = vec![column_interaction(&[1, 2], &[3, 4], 0, INPUT_BUS)];
    let hashing_sends = vec![column_interaction(&[5, 6], &[], 0, OUTPUT_BUS)];
    let merkle_main = rows(&[[1, 10, 11, 12, 13, 77, 78], [0, 0, 0, 0, 0, 0, 0]]);
    let hashing_main = rows(&[[0, 9, 9, 9, 9, 9, 9], [1, 10, 11, 12, 13, hashed[0], hashed[1]]]);
    let challenges = [Ef::from_array([2, 3, 5, 7]), Ef::from_array([11, 13, 17, 19])];
    let a = all_interactions(chip.sends(), chip.receives());
    let b = all_interactions(hashing_sends, hashing_receives);
    let main = vec![Some(merkle_main), Some(hashing_main)];
    let perm = vec![
        generate_permutation_trace(&None, &main[0], &a, challenges),
        generate_permutation_trace(&None, &main[1], &b, challenges),
    ];
    (vec![a, b], main, perm)
}

#[test]
fn merkle_and_hashing_tables_balance() {
    let (interactions, main, perm) = machine([77, 78]);
    let total = perm[0].as_ref().unwrap().get(1, 2).add(perm[1].as_ref().unwrap().get(1, 2));
    assert!(total.is_zero());
    assert!(!perm[0].as_ref().unwrap().get(1, 2).is_zero());
    assert_eq!(check_cumulative_sums(&interactions, &[None, None], &main, &perm), Ok(()));
}

#[test]
fn changed_digest_unbalances_the_digest_bus() {
    let (interactions, main, perm) = machine([77, 79]);
    assert_eq!(
        check_cumulative_sums(&interactions, &[None, None], &main, &perm),
        Err(VerificationError::NonZeroCumulativeSum { bus_id: Some(OUTPUT_BUS) })
    );
}
