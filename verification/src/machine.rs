//! The verifier's checks over all tables of the machine: the shape of the
//! proof, the constraints of each table, and the balance of the buses.

use vstd::prelude::*;
use vstd::arithmetic::power2::pow2;
use crate::domain::{split_domains_shift, Domain, GENERATOR, TWO_ADICITY};
use crate::extension::{Ef, Ext};
use crate::field::Fe;
use crate::machine_proof::ChipProof;
use crate::pipeline::quotient_domain_of;
use crate::symbolic::{
    get_quotient_degree, quotient_log, quotient_target, SymbolicExpression, MAX_QUOTIENT_TARGET,
};
use vstd::slice::slice_to_vec;
use crate::trace::{ChipTrace, ChipType, IndexedTrace};
use crate::verify::{
    claimed_total, constraints_verdict, verify_constraints, verify_cumulative_sums,
    AdjacentOpenedValues, OpenedValues, VerificationError,
};

verus! {

/// The domains of one table as the verifier derives them: that of its
/// traces, and those of the chunks of its quotient.
#[derive(Debug)]
pub struct ChipDomains {
    pub trace: Domain,
    pub chunks: Vec<Domain>,
}

/// Whether nothing of a table was opened, as for a table without rows.
pub open spec fn nothing_opened(opened_values: OpenedValues) -> bool {
    &&& opened_values.preprocessed is None
    &&& opened_values.main is None
    &&& opened_values.permutation is None
    &&& opened_values.quotient_chunks is None
}

/// Whether the quotient domain of a table exists: the quotient degree fits
/// the machine, and the field has a subgroup of as many points as the
/// trace domain times the quotient degree.
pub open spec fn quotient_fits(constraints: Seq<SymbolicExpression>, log_degree: nat) -> bool {
    quotient_target(constraints) <= MAX_QUOTIENT_TARGET && log_degree + quotient_log(constraints)
        <= TWO_ADICITY
}

/// Whether `domains` are the domains of a table of `2^log_degree` rows with
/// the given constraints: the subgroup of that order, and the parts of the
/// quotient domain, one for each chunk.
pub open spec fn domains_of(
    domains: ChipDomains,
    constraints: Seq<SymbolicExpression>,
    log_degree: nat,
) -> bool {
    let l = quotient_log(constraints);
    let count = pow2(l);
    &&& domains.trace.log_size() == log_degree
    &&& domains.trace.first() == 1
    &&& domains.chunks@.len() == count
    &&& forall|c: int|
        0 <= c < count ==> (#[trigger] domains.chunks@[c]).points() == pow2(log_degree)
            && domains.chunks@[c].first() == split_domains_shift(
            log_degree + l,
            GENERATOR as int,
            count,
            c,
        )
}

/// What is wrong with the shape of the proof of one table, if anything: a
/// table of which nothing was opened must claim no cumulative sum; of any
/// other table the height must be one that the field has a subgroup for,
/// and its quotient domain must exist.
pub open spec fn chip_shape_error(constraints: Seq<SymbolicExpression>, proof: ChipProof) -> Option<
    VerificationError,
> {
    if nothing_opened(proof.opened_values) {
        if proof.cumulative_sum is Some {
            Some(VerificationError::InvalidProofShape)
        } else {
            None
        }
    } else if proof.log_degree > TWO_ADICITY || !quotient_fits(
        constraints,
        proof.log_degree as nat,
    ) {
        Some(VerificationError::InvalidProofShape)
    } else {
        None
    }
}

/// Derives the domains of one table from its proof, or says what is wrong
/// with the shape of the proof. A table of which nothing was opened has no
/// domains.
pub fn chip_domains(constraints: &[SymbolicExpression], proof: &ChipProof) -> (r: Result<
    Option<ChipDomains>,
    VerificationError,
>)
    ensures
        match chip_shape_error(constraints@, *proof) {
            Some(e) => r == Err::<Option<ChipDomains>, VerificationError>(e),
            None => r is Ok && (r->Ok_0 is None <==> nothing_opened(proof.opened_values)) && (
            r->Ok_0 matches Some(d) ==> domains_of(d, constraints@, proof.log_degree as nat)),
        },
{
    let opened = &proof.opened_values;
    if opened.preprocessed.is_none() && opened.main.is_none() && opened.permutation.is_none()
        && opened.quotient_chunks.is_none() {
        if proof.cumulative_sum.is_some() {
            return Err(VerificationError::InvalidProofShape);
        }
        return Ok(None);
    }
    let log_degree: usize = proof.log_degree as usize;
    let trace = match Domain::new(Fe::one(), log_degree) {
        Some(d) => d,
        None => {
            return Err(VerificationError::InvalidProofShape);
        },
    };
    let quotient_domain = match quotient_domain_of(constraints, trace) {
        Some(d) => d,
        None => {
            return Err(VerificationError::InvalidProofShape);
        },
    };
    let count: usize = get_quotient_degree(constraints);
    proof {
        let l = quotient_log(constraints@);
        assert(crate::field::fp_mul(1, GENERATOR as int) == GENERATOR as int);
        assert(quotient_domain.splits_into(count as nat)) by {
            assert(l <= quotient_domain.log_size() && count as nat == pow2(l));
        }
        vstd::arithmetic::power2::lemma_pow2_adds(log_degree as nat, l);
        vstd::arithmetic::power2::lemma_pow2_pos(l);
    }
    let chunks = quotient_domain.split_domains(count);
    proof {
        let l = quotient_log(constraints@);
        let n = pow2(l) as int;
        assert forall|c: int| 0 <= c < n implies (#[trigger] chunks@[c]).points() == pow2(
            log_degree as nat,
        ) by {
            let p = chunks@[c].points() as int;
            let want = pow2(log_degree as nat) as int;
            assert(p == want) by (nonlinear_arith)
                requires
                    p * n == want * n,
                    n > 0,
            ;
        }
    }
    Ok(Some(ChipDomains { trace, chunks }))
}

/// Whether the heights that the verifying key gives for the preprocessed
/// traces agree with the proof: there is one for each table, and the
/// height of every table whose preprocessed trace was opened is the one
/// that the proof claims.
pub open spec fn degrees_agree(degrees: Seq<usize>, proofs: Seq<ChipProof>) -> bool {
    &&& degrees.len() == proofs.len()
    &&& forall|i: int|
        0 <= i < proofs.len() && (#[trigger] proofs[i]).opened_values.preprocessed is Some
            ==> proofs[i].log_degree <= TWO_ADICITY && degrees[i] == pow2(
            proofs[i].log_degree as nat,
        )
}

/// Tests whether the heights that the verifying key gives agree with the
/// proof.
pub fn check_degrees(degrees: &[usize], proofs: &[ChipProof]) -> (r: bool)
    ensures
        r == degrees_agree(degrees@, proofs@),
{
    if degrees.len() != proofs.len() {
        return false;
    }
    let mut i: usize = 0;
    while i < proofs.len()
        invariant
            i <= proofs@.len(),
            degrees@.len() == proofs@.len(),
            forall|j: int|
                0 <= j < i && (#[trigger] proofs@[j]).opened_values.preprocessed is Some
                    ==> proofs@[j].log_degree <= TWO_ADICITY && degrees@[j] == pow2(
                    proofs@[j].log_degree as nat,
                ),
        decreases proofs@.len() - i,
    {
        if proofs[i].opened_values.preprocessed.is_some() {
            match Domain::new(Fe::one(), proofs[i].log_degree as usize) {
                Some(d) => {
                    if d.size() != degrees[i] {
                        return false;
                    }
                },
                None => {
                    return false;
                },
            }
        }
        i += 1;
    }
    true
}

/// The first thing that is wrong with the shape of the proofs of the first
/// `n` tables, if anything.
pub open spec fn first_shape_error(
    chips: Seq<&ChipType>,
    proofs: Seq<ChipProof>,
    n: nat,
) -> Option<VerificationError>
    decreases n,
{
    if n == 0 {
        None
    } else {
        let before = first_shape_error(chips, proofs, (n - 1) as nat);
        if before is Some {
            before
        } else {
            chip_shape_error(chips[n - 1].constraints@, proofs[n - 1])
        }
    }
}

/// What is wrong with the shape of a proof, if anything: it must say
/// something of every table; where the verifying key gives heights, they
/// must agree with the proof; and the proof of every table must have its
/// shape.
pub open spec fn shape_error(
    chips: Seq<&ChipType>,
    degrees: Option<Seq<usize>>,
    proofs: Seq<ChipProof>,
) -> Option<VerificationError> {
    if proofs.len() != chips.len() {
        Some(VerificationError::InvalidProofShape)
    } else if degrees is Some && !degrees_agree(degrees->0, proofs) {
        Some(VerificationError::InvalidProofShape)
    } else {
        first_shape_error(chips, proofs, proofs.len())
    }
}

/// Derives the domains of all tables from the proof, or says what is wrong
/// with the shape of the proof.
pub fn machine_domains(
    chips: &[&ChipType],
    degrees: Option<&Vec<usize>>,
    proofs: &[ChipProof],
) -> (r: Result<Vec<Option<ChipDomains>>, VerificationError>)
    ensures
        match shape_error(
            chips@,
            match degrees {
                Some(d) => Some(d@),
                None => None,
            },
            proofs@,
        ) {
            Some(e) => r == Err::<Vec<Option<ChipDomains>>, VerificationError>(e),
            None => r is Ok && r->Ok_0@.len() == proofs@.len() && forall|i: int|
                0 <= i < proofs@.len() ==> ((#[trigger] r->Ok_0@[i]) is None <==> nothing_opened(
                    proofs@[i].opened_values,
                )) && (r->Ok_0@[i] matches Some(d) ==> domains_of(
                    d,
                    chips@[i].constraints@,
                    proofs@[i].log_degree as nat,
                )),
        },
{
    if proofs.len() != chips.len() {
        return Err(VerificationError::InvalidProofShape);
    }
    match degrees {
        Some(d) => {
            if !check_degrees(d.as_slice(), proofs) {
                return Err(VerificationError::InvalidProofShape);
            }
        },
        None => {},
    }
    let ghost heights = match degrees {
        Some(d) => Some(d@),
        None => None,
    };
    let mut out: Vec<Option<ChipDomains>> = Vec::new();
    let mut i: usize = 0;
    while i < proofs.len()
        invariant
            i <= proofs@.len(),
            proofs@.len() == chips@.len(),
            heights == (match degrees {
                Some(d) => Some(d@),
                None => None,
            }),
            heights is Some ==> degrees_agree(heights->0, proofs@),
            out@.len() == i,
            first_shape_error(chips@, proofs@, i as nat) is None,
            forall|j: int|
                0 <= j < i ==> ((#[trigger] out@[j]) is None <==> nothing_opened(
                    proofs@[j].opened_values,
                )) && (out@[j] matches Some(d) ==> domains_of(
                    d,
                    chips@[j].constraints@,
                    proofs@[j].log_degree as nat,
                )),
        decreases proofs@.len() - i,
    {
        match chip_domains(chips[i].constraints.as_slice(), &proofs[i]) {
            Ok(d) => {
                out.push(d);
            },
            Err(e) => {
                proof {
                    assert(first_shape_error(chips@, proofs@, (i + 1) as nat) == Some(e));
                    lemma_first_shape_error_stays(chips@, proofs@, (i + 1) as nat, proofs@.len());
                }
                return Err(e);
            },
        }
        i += 1;
    }
    Ok(out)
}

/// An error among the first `n` tables is the first error among more.
proof fn lemma_first_shape_error_stays(
    chips: Seq<&ChipType>,
    proofs: Seq<ChipProof>,
    n: nat,
    m: nat,
)
    requires
        n <= m,
        first_shape_error(chips, proofs, n) is Some,
    ensures
        first_shape_error(chips, proofs, m) == first_shape_error(chips, proofs, n),
    decreases m,
{
    if m > n {
        lemma_first_shape_error_stays(chips, proofs, n, (m - 1) as nat);
    }
}

/// The cumulative sums that the proofs claim.
pub open spec fn claimed_sums(proofs: Seq<ChipProof>) -> Seq<Option<Ef>> {
    proofs.map_values(|p: ChipProof| p.cumulative_sum)
}

/// What the check of table `i` comes to; there is nothing to check of a
/// table without domains.
pub open spec fn chip_verdict(
    chips: Seq<&ChipType>,
    proofs: Seq<ChipProof>,
    domains: Seq<Option<ChipDomains>>,
    zeta: Ext,
    alpha: Ext,
    permutation_challenges: Seq<Ef>,
    public_values: Seq<Fe>,
    i: int,
) -> Result<(), VerificationError> {
    match domains[i] {
        Some(d) => constraints_verdict(
            chips[i].constraints@,
            proofs[i].opened_values,
            d.trace,
            d.chunks@,
            zeta,
            alpha,
            permutation_challenges,
            proofs[i].cumulative_sum,
            public_values,
        ),
        None => Ok(()),
    }
}

/// The first failure among the checks of the first `n` tables, if any.
pub open spec fn first_failure(
    chips: Seq<&ChipType>,
    proofs: Seq<ChipProof>,
    domains: Seq<Option<ChipDomains>>,
    zeta: Ext,
    alpha: Ext,
    permutation_challenges: Seq<Ef>,
    public_values: Seq<Fe>,
    n: nat,
) -> Result<(), VerificationError>
    decreases n,
{
    if n == 0 {
        Ok(())
    } else {
        let before = first_failure(
            chips,
            proofs,
            domains,
            zeta,
            alpha,
            permutation_challenges,
            public_values,
            (n - 1) as nat,
        );
        if before is Err {
            before
        } else {
            chip_verdict(
                chips,
                proofs,
                domains,
                zeta,
                alpha,
                permutation_challenges,
                public_values,
                n - 1,
            )
        }
    }
}

/// What the check of all tables comes to: the first failure of a table, or
/// else, if the claimed cumulative sums do not add up to zero, that.
pub open spec fn machine_verdict(
    chips: Seq<&ChipType>,
    proofs: Seq<ChipProof>,
    domains: Seq<Option<ChipDomains>>,
    zeta: Ext,
    alpha: Ext,
    permutation_challenges: Seq<Ef>,
    public_values: Seq<Fe>,
) -> Result<(), VerificationError> {
    let tables = first_failure(
        chips,
        proofs,
        domains,
        zeta,
        alpha,
        permutation_challenges,
        public_values,
        proofs.len(),
    );
    if tables is Err {
        tables
    } else if claimed_total(claimed_sums(proofs), proofs.len()) != crate::extension::ext_zero() {
        Err(VerificationError::NonZeroCumulativeSum { bus_id: None })
    } else {
        Ok(())
    }
}

/// A failure among the first `n` tables is the first failure among more.
proof fn lemma_first_failure_stays(
    chips: Seq<&ChipType>,
    proofs: Seq<ChipProof>,
    domains: Seq<Option<ChipDomains>>,
    zeta: Ext,
    alpha: Ext,
    permutation_challenges: Seq<Ef>,
    public_values: Seq<Fe>,
    n: nat,
    m: nat,
)
    requires
        n <= m,
        first_failure(chips, proofs, domains, zeta, alpha, permutation_challenges, public_values, n)
            is Err,
    ensures
        first_failure(chips, proofs, domains, zeta, alpha, permutation_challenges, public_values, m)
            == first_failure(
            chips,
            proofs,
            domains,
            zeta,
            alpha,
            permutation_challenges,
            public_values,
            n,
        ),
    decreases m,
{
    if m > n {
        lemma_first_failure_stays(
            chips,
            proofs,
            domains,
            zeta,
            alpha,
            permutation_challenges,
            public_values,
            n,
            (m - 1) as nat,
        );
    }
}

/// Checks every table of the machine against the values that were opened
/// for it, in the order of the tables, and then that the cumulative sums
/// that the tables claim add up to zero.
pub fn verify_chips(
    chips: &[&ChipType],
    proofs: &[ChipProof],
    domains: &[Option<ChipDomains>],
    zeta: Ef,
    alpha: Ef,
    permutation_challenges: [Ef; 2],
    public_values: &[Fe],
) -> (r: Result<(), VerificationError>)
    requires
        chips@.len() == proofs@.len(),
        domains@.len() == proofs@.len(),
    ensures
        r == machine_verdict(
            chips@,
            proofs@,
            domains@,
            zeta@,
            alpha@,
            permutation_challenges@,
            public_values@,
        ),
{
    let mut sums: Vec<Option<Ef>> = Vec::new();
    let mut i: usize = 0;
    while i < proofs.len()
        invariant
            i <= proofs@.len(),
            chips@.len() == proofs@.len(),
            domains@.len() == proofs@.len(),
            sums@ == claimed_sums(proofs@).take(i as int),
            first_failure(
                chips@,
                proofs@,
                domains@,
                zeta@,
                alpha@,
                permutation_challenges@,
                public_values@,
                i as nat,
            ) is Ok,
        decreases proofs@.len() - i,
    {
        match &domains[i] {
            Some(d) => {
                let verdict = verify_constraints(
                    chips[i].constraints.as_slice(),
                    &proofs[i].opened_values,
                    d.trace,
                    d.chunks.as_slice(),
                    zeta,
                    alpha,
                    permutation_challenges,
                    proofs[i].cumulative_sum,
                    public_values,
                );
                match verdict {
                    Ok(()) => {},
                    Err(e) => {
                        proof {
                            assert(first_failure(
                                chips@,
                                proofs@,
                                domains@,
                                zeta@,
                                alpha@,
                                permutation_challenges@,
                                public_values@,
                                (i + 1) as nat,
                            ) == Err::<(), VerificationError>(e));
                            lemma_first_failure_stays(
                                chips@,
                                proofs@,
                                domains@,
                                zeta@,
                                alpha@,
                                permutation_challenges@,
                                public_values@,
                                (i + 1) as nat,
                                proofs@.len(),
                            );
                        }
                        return Err(e);
                    },
                }
            },
            None => {},
        }
        proof {
            assert(claimed_sums(proofs@).take(i + 1) == claimed_sums(proofs@).take(i as int).push(
                proofs@[i as int].cumulative_sum,
            ));
        }
        sums.push(proofs[i].cumulative_sum);
        i += 1;
    }
    proof {
        assert(claimed_sums(proofs@).take(proofs@.len() as int) == claimed_sums(proofs@));
        assert(sums@.len() == proofs@.len());
    }
    verify_cumulative_sums(sums.as_slice())
}

/// What the commitment scheme opened, round by round and, in each round,
/// in the order in which the traces were committed: of every preprocessed,
/// main and permutation trace the values at the challenge point and at its
/// successor, and of every quotient chunk the values at the point.
#[derive(Debug)]
pub struct RoundOpenings {
    pub preprocessed: Vec<AdjacentOpenedValues>,
    pub main: Vec<AdjacentOpenedValues>,
    pub permutation: Vec<AdjacentOpenedValues>,
    pub quotient: Vec<Vec<Ef>>,
}

/// The number of quotient chunks of a table.
pub open spec fn chunk_count(c: ChipTrace) -> nat {
    match c.quotient_chunks {
        Some(q) => q.traces@.len(),
        None => 0,
    }
}

/// The number of quotient chunks of the first `i` tables, which is the
/// position of the first chunk of table `i` in its round.
pub open spec fn chunk_offset(machine: Seq<ChipTrace>, i: nat) -> nat
    decreases i,
{
    if i == 0 {
        0
    } else {
        chunk_offset(machine, (i - 1) as nat) + chunk_count(machine[i - 1])
    }
}

/// Whether the position of a trace, if the trace is there, lies within its
/// round.
pub open spec fn opened_in<T>(entry: Option<IndexedTrace<T>>, round: Seq<AdjacentOpenedValues>) -> bool {
    entry is Some ==> entry->0.opening_index < round.len()
}

/// Whether `picked` holds what was opened of a trace: nothing if the trace
/// is absent, else the values at its position in its round.
pub open spec fn picked_from<T>(
    picked: Option<AdjacentOpenedValues>,
    entry: Option<IndexedTrace<T>>,
    round: Seq<AdjacentOpenedValues>,
) -> bool {
    match entry {
        Some(t) => picked is Some && picked->0.local@ == round[t.opening_index as int].local@
            && picked->0.next@ == round[t.opening_index as int].next@,
        None => picked is None,
    }
}

/// Whether something of every trace of every table was opened.
pub open spec fn all_opened(machine: Seq<ChipTrace>, opened: RoundOpenings) -> bool {
    &&& forall|i: int|
        0 <= i < machine.len() ==> opened_in((#[trigger] machine[i]).preprocessed, opened.preprocessed@)
            && opened_in(machine[i].main, opened.main@) && opened_in(
            machine[i].permutation,
            opened.permutation@,
        )
    &&& chunk_offset(machine, machine.len()) <= opened.quotient@.len()
}

/// Whether `proof` is what the proof says of a table: the logarithm of the
/// size of its trace domain, or zero if it has none; what was opened of
/// each of its traces; its quotient chunks, which start at `offset` in
/// their round; and its cumulative sum.
pub open spec fn is_chip_proof(
    proof: ChipProof,
    c: ChipTrace,
    opened: RoundOpenings,
    offset: nat,
) -> bool {
    &&& proof.log_degree == (match c.trace_domain() {
        Some(d) => d.log_size(),
        None => 0,
    })
    &&& proof.cumulative_sum == c.cumulative_sum
    &&& picked_from(proof.opened_values.preprocessed, c.preprocessed, opened.preprocessed@)
    &&& picked_from(proof.opened_values.main, c.main, opened.main@)
    &&& picked_from(proof.opened_values.permutation, c.permutation, opened.permutation@)
    &&& match c.quotient_chunks {
        Some(q) => proof.opened_values.quotient_chunks is Some
            && proof.opened_values.quotient_chunks->0@.len() == q.traces@.len() && forall|k: int|
            0 <= k < q.traces@.len() ==> (#[trigger] proof.opened_values.quotient_chunks->0@[k])@
                == opened.quotient@[offset + k]@,
        None => proof.opened_values.quotient_chunks is None,
    }
}

/// What was opened of a trace, if the trace is there and its position lies
/// within its round.
fn pick<T>(entry: &Option<IndexedTrace<T>>, round: &Vec<AdjacentOpenedValues>) -> (r: Option<
    Option<AdjacentOpenedValues>,
>)
    ensures
        r is Some <==> opened_in(*entry, round@),
        r matches Some(p) ==> picked_from(p, *entry, round@),
{
    match entry {
        Some(t) => {
            if t.opening_index < round.len() {
                let v = &round[t.opening_index];
                Some(
                    Some(
                        AdjacentOpenedValues {
                            local: slice_to_vec(v.local.as_slice()),
                            next: slice_to_vec(v.next.as_slice()),
                        },
                    ),
                )
            } else {
                None
            }
        },
        None => Some(None),
    }
}

/// Puts together what the proof says of every table from what the
/// commitment scheme opened, or `None` where something of a trace was not
/// opened.
pub fn assemble_chip_proofs<'a>(machine: &Vec<ChipTrace<'a>>, opened: &RoundOpenings) -> (r: Option<
    Vec<ChipProof>,
>)
    ensures
        r is Some <==> all_opened(machine@, *opened),
        r matches Some(proofs) ==> proofs@.len() == machine@.len() && forall|i: int|
            0 <= i < machine@.len() ==> is_chip_proof(
                #[trigger] proofs@[i],
                machine@[i],
                *opened,
                chunk_offset(machine@, i as nat),
            ),
{
    let mut proofs: Vec<ChipProof> = Vec::new();
    let mut offset: usize = 0;
    let total: usize = opened.quotient.len();
    let mut i: usize = 0;
    while i < machine.len()
        invariant
            i <= machine@.len(),
            total == opened.quotient@.len(),
            offset == chunk_offset(machine@, i as nat),
            offset <= total,
            proofs@.len() == i,
            forall|j: int|
                0 <= j < i ==> opened_in((#[trigger] machine@[j]).preprocessed, opened.preprocessed@)
                    && opened_in(machine@[j].main, opened.main@) && opened_in(
                    machine@[j].permutation,
                    opened.permutation@,
                ),
            forall|j: int|
                0 <= j < i ==> is_chip_proof(
                    #[trigger] proofs@[j],
                    machine@[j],
                    *opened,
                    chunk_offset(machine@, j as nat),
                ),
        decreases machine@.len() - i,
    {
        let c = &machine[i];
        let preprocessed = match pick(&c.preprocessed, &opened.preprocessed) {
            Some(p) => p,
            None => {
                return None;
            },
        };
        let main = match pick(&c.main, &opened.main) {
            Some(p) => p,
            None => {
                return None;
            },
        };
        let permutation = match pick(&c.permutation, &opened.permutation) {
            Some(p) => p,
            None => {
                return None;
            },
        };
        let ghost start = offset;
        let quotient_chunks = match &c.quotient_chunks {
            Some(q) => {
                let count: usize = q.traces.len();
                if count > total - offset {
                    proof {
                        lemma_chunk_offset_grows(machine@, (i + 1) as nat, machine@.len());
                    }
                    return None;
                }
                let mut chunks: Vec<Vec<Ef>> = Vec::new();
                let mut k: usize = 0;
                while k < count
                    invariant
                        k <= count,
                        offset + count <= total,
                        total == opened.quotient@.len(),
                        chunks@.len() == k,
                        forall|k1: int|
                            0 <= k1 < k ==> (#[trigger] chunks@[k1])@ == opened.quotient@[offset
                                + k1]@,
                    decreases count - k,
                {
                    chunks.push(slice_to_vec(opened.quotient[offset + k].as_slice()));
                    k += 1;
                }
                offset = offset + count;
                Some(chunks)
            },
            None => None,
        };
        let log_degree: u8 = match c.domain() {
            Some(d) => {
                let l: usize = d.log_n();
                l as u8
            },
            None => 0,
        };
        proofs.push(
            ChipProof {
                log_degree,
                opened_values: OpenedValues { preprocessed, main, permutation, quotient_chunks },
                cumulative_sum: c.cumulative_sum,
            },
        );
        i += 1;
    }
    Some(proofs)
}

/// The position of the chunks does not go back.
proof fn lemma_chunk_offset_grows(machine: Seq<ChipTrace>, i: nat, n: nat)
    requires
        i <= n,
    ensures
        chunk_offset(machine, i) <= chunk_offset(machine, n),
    decreases n,
{
    if n > i {
        lemma_chunk_offset_grows(machine, i, (n - 1) as nat);
    }
}

} // verus!
