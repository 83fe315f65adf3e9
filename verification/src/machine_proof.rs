//! What the prover hands to the verifier, and the keys of both. The
//! commitments, the opening proof and the prover's data of a commitment are
//! those of the commitment scheme, whatever it is.

use vstd::prelude::*;
use crate::extension::Ef;
use crate::field::Fe;
use crate::matrix::Matrix;
use crate::verify::OpenedValues;

verus! {

/// The commitments of one proof, one for each round that committed to
/// anything.
#[derive(Debug)]
pub struct Commitments<Com> {
    pub preprocessed: Option<Com>,
    pub main: Option<Com>,
    pub permutation: Option<Com>,
    pub quotient: Option<Com>,
}

/// What a proof says of one table: the logarithm of the height of its
/// traces, the values that were opened, and its cumulative sum. A table
/// without rows has no opened values and no cumulative sum.
#[derive(Debug)]
pub struct ChipProof {
    pub log_degree: u8,
    pub opened_values: OpenedValues,
    pub cumulative_sum: Option<Ef>,
}

/// A proof of the machine.
#[derive(Debug)]
pub struct MachineProof<Com, PcsProof> {
    pub commitments: Commitments<Com>,
    pub opening_proof: PcsProof,
    pub chip_proofs: Vec<ChipProof>,
}

/// The preprocessed traces as the prover keeps them.
#[derive(Debug)]
pub struct ProverPreprocessedData<Com, ProverData> {
    pub traces: Vec<Option<Matrix<Fe>>>,
    pub data: Option<ProverData>,
    pub commitment: Option<Com>,
}

/// The preprocessed traces as the verifier knows them: their commitment and
/// their heights.
#[derive(Debug)]
pub struct VerifierPreprocessedData<Com> {
    pub commitment: Com,
    pub degrees: Vec<usize>,
}

/// The key of the prover.
#[derive(Debug)]
pub struct ProvingKey<Com, ProverData> {
    pub preprocessed: ProverPreprocessedData<Com, ProverData>,
}

/// The key of the verifier.
#[derive(Debug)]
pub struct VerifyingKey<Com> {
    pub preprocessed: Option<VerifierPreprocessedData<Com>>,
}

} // verus!
