//! The interactions of the Merkle-tree table: it sends the two children of
//! a node to the Keccak table, and receives the digest from it.

use vstd::prelude::*;
use crate::interaction::{Interaction, PairCol, VirtualPairCol};

verus! {

/// The Merkle-tree table, as far as its interactions go: the columns of the
/// main trace that hold the left child, the right child and the digest of a
/// node, the column that says whether the row is in use, and the two buses
/// that connect the table with the Keccak table.
#[derive(Clone, Debug)]
pub struct MerkleTreeChip {
    pub left_node: Vec<usize>,
    pub right_node: Vec<usize>,
    pub output: Vec<usize>,
    pub is_real: usize,
    pub bus_keccak_permute_input: usize,
    pub bus_keccak_digest_output: usize,
}

/// Whether a virtual column is one column of the main trace, as it is.
pub open spec fn is_single_main(v: VirtualPairCol, column: usize) -> bool {
    &&& v.column_weights@.len() == 1
    &&& v.column_weights@[0].0 == PairCol::Main(column)
    &&& v.column_weights@[0].1@ == 1
    &&& v.constant@ == 0
}

/// Whether an interaction carries the given columns of the main trace as
/// its fields, in order, counts as often as the column `count` says, and
/// uses the bus.
pub open spec fn carries_columns(
    interaction: Interaction,
    columns: Seq<usize>,
    count: usize,
    bus: usize,
) -> bool {
    &&& interaction.argument_index == bus
    &&& is_single_main(interaction.count, count)
    &&& interaction.fields@.len() == columns.len()
    &&& forall|j: int|
        0 <= j < columns.len() ==> is_single_main(#[trigger] interaction.fields@[j], columns[j])
}

/// The interaction that carries the given columns of the main trace.
pub fn column_interaction(first: &[usize], second: &[usize], count: usize, bus: usize) -> (r:
    Interaction)
    ensures
        carries_columns(r, first@ + second@, count, bus),
{
    let mut fields: Vec<VirtualPairCol> = Vec::new();
    let mut i: usize = 0;
    while i < first.len()
        invariant
            i <= first@.len(),
            fields@.len() == i,
            forall|j: int| 0 <= j < i ==> is_single_main(#[trigger] fields@[j], first@[j]),
        decreases first@.len() - i,
    {
        fields.push(VirtualPairCol::single_main(first[i]));
        i += 1;
    }
    let mut k: usize = 0;
    while k < second.len()
        invariant
            k <= second@.len(),
            fields@.len() == first@.len() + k,
            forall|j: int|
                0 <= j < first@.len() + k ==> is_single_main(
                    #[trigger] fields@[j],
                    (first@ + second@)[j],
                ),
        decreases second@.len() - k,
    {
        fields.push(VirtualPairCol::single_main(second[k]));
        k += 1;
    }
    Interaction { fields, count: VirtualPairCol::single_main(count), argument_index: bus }
}

impl MerkleTreeChip {
    /// What the table sends: on every row in use, the left child followed
    /// by the right child, to the input of the Keccak permutation.
    pub fn sends(&self) -> (r: Vec<Interaction>)
        ensures
            r@.len() == 1,
            carries_columns(
                r@[0],
                self.left_node@ + self.right_node@,
                self.is_real,
                self.bus_keccak_permute_input,
            ),
    {
        let mut out: Vec<Interaction> = Vec::new();
        out.push(
            column_interaction(
                self.left_node.as_slice(),
                self.right_node.as_slice(),
                self.is_real,
                self.bus_keccak_permute_input,
            ),
        );
        out
    }

    /// What the table receives: on every row in use, the digest, from the
    /// output of the Keccak table.
    pub fn receives(&self) -> (r: Vec<Interaction>)
        ensures
            r@.len() == 1,
            carries_columns(
                r@[0],
                self.output@,
                self.is_real,
                self.bus_keccak_digest_output,
            ),
    {
        let none: Vec<usize> = Vec::new();
        let mut out: Vec<Interaction> = Vec::new();
        let interaction = column_interaction(
            self.output.as_slice(),
            none.as_slice(),
            self.is_real,
            self.bus_keccak_digest_output,
        );
        proof {
            assert(self.output@ + none@ =~= self.output@);
        }
        out.push(interaction);
        out
    }
}

} // verus!
