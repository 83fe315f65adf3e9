//! The verifier's check of one table: the quotient, recomposed from its
//! opened chunks, against the constraints folded at the challenge point.

use vstd::prelude::*;
use vstd::slice::slice_to_vec;
use crate::domain::{Domain};
use crate::extension::{
    ef_seq, ext_add, ext_from_base, ext_monomial, ext_mul, ext_one, ext_zero, quartic_inverse, Ef,
    Ext,
};
use crate::field::Fe;
use crate::folder::{fold_constraints, VerifierConstraintFolder};
use crate::symbolic::{Frame, Shape, SymbolicExpression};
use crate::window::{all_fit, constraints_fit, public_seq, TwoRowMatrixView};

verus! {

/// Why a proof is rejected.
#[derive(Clone, Copy, Debug, PartialEq, Eq, Structural)]
pub enum VerificationError {
    /// The proof does not have the parts that the machine has.
    InvalidProofShape,
    /// The commitment scheme rejects the openings.
    InvalidOpeningArgument,
    /// The recomposed quotient is not the folded constraints divided by the
    /// vanishing polynomial.
    OodEvaluationMismatch,
    /// The messages do not balance: on the bus `bus_id`, where the buses
    /// were summed one by one; where only the cumulative sums of the tables
    /// do not add up to zero, which does not say on which bus, no bus is
    /// named.
    NonZeroCumulativeSum { bus_id: Option<usize> },
    /// A table declares fewer quotient chunks than its constraints need.
    DegreeOutOfBounds,
    /// The proof lacks the opened values of a table that has a trace.
    MissingProofData,
}

/// Checks that a table declares as many quotient chunks as its constraints
/// need: at least the largest constraint degree less one. A degree above
/// the largest machine integer counts as that integer.
pub fn check_quotient_degree(declared: usize, constraints: &[SymbolicExpression]) -> (r: Result<
    (),
    VerificationError,
>)
    ensures
        r == (if declared + 1 >= crate::symbolic::saturate(
            crate::symbolic::max_degree(constraints@, constraints@.len()),
        ) {
            Ok::<(), VerificationError>(())
        } else {
            Err::<(), VerificationError>(VerificationError::DegreeOutOfBounds)
        }),
{
    let d: usize = crate::symbolic::get_max_constraint_degree(constraints);
    if d == 0 || declared >= d - 1 {
        Ok(())
    } else {
        Err(VerificationError::DegreeOutOfBounds)
    }
}

/// The sum of the cumulative sums that the first `n` tables claim; a table
/// that claims none adds nothing.
pub open spec fn claimed_total(sums: Seq<Option<Ef>>, n: nat) -> Ext
    decreases n,
{
    if n == 0 {
        ext_zero()
    } else {
        match sums[n - 1] {
            Some(c) => ext_add(claimed_total(sums, (n - 1) as nat), c@),
            None => claimed_total(sums, (n - 1) as nat),
        }
    }
}

/// Checks that the cumulative sums that the tables claim add up to zero.
/// Where they do not, no bus is named: the sums do not say which one is
/// out of balance.
pub fn verify_cumulative_sums(sums: &[Option<Ef>]) -> (r: Result<(), VerificationError>)
    ensures
        r == (if claimed_total(sums@, sums@.len()) == ext_zero() {
            Ok::<(), VerificationError>(())
        } else {
            Err::<(), VerificationError>(VerificationError::NonZeroCumulativeSum { bus_id: None })
        }),
{
    let mut total = Ef::zero();
    let mut i: usize = 0;
    while i < sums.len()
        invariant
            i <= sums@.len(),
            total@ == claimed_total(sums@, i as nat),
        decreases sums@.len() - i,
    {
        match sums[i] {
            Some(c) => {
                total = total.add(c);
            },
            None => {},
        }
        i += 1;
    }
    if total.is_zero() {
        Ok(())
    } else {
        Err(VerificationError::NonZeroCumulativeSum { bus_id: None })
    }
}

/// The values of a trace that were opened at the challenge point and at its
/// successor.
#[derive(Clone, Debug)]
pub struct AdjacentOpenedValues {
    pub local: Vec<Ef>,
    pub next: Vec<Ef>,
}

/// All values of one table that were opened.
#[derive(Clone, Debug)]
pub struct OpenedValues {
    pub preprocessed: Option<AdjacentOpenedValues>,
    pub main: Option<AdjacentOpenedValues>,
    pub permutation: Option<AdjacentOpenedValues>,
    pub quotient_chunks: Option<Vec<Vec<Ef>>>,
}

/// The first `n` coefficients, each times its basis element, summed.
pub open spec fn monomial_combination(coefficients: Seq<Ext>, n: nat) -> Ext
    decreases n,
{
    if n == 0 {
        ext_zero()
    } else {
        ext_add(
            monomial_combination(coefficients, (n - 1) as nat),
            ext_mul(ext_monomial(n - 1), coefficients[n - 1]),
        )
    }
}

/// The extension elements that a flattened row stands for: one for every
/// four values, the rest being dropped.
pub open spec fn unflattened(v: Seq<Ext>) -> Seq<Ext> {
    Seq::new(v.len() / 4, |k: int| monomial_combination(v.subrange(4 * k, 4 * k + 4), 4))
}

/// Rebuilds the extension elements of a row from their flattened form.
pub fn unflatten(v: &[Ef]) -> (r: Vec<Ef>)
    ensures
        ef_seq(r@) == unflattened(ef_seq(v@)),
{
    let count: usize = v.len() / 4;
    let mut out: Vec<Ef> = Vec::new();
    let mut k: usize = 0;
    while k < count
        invariant
            k <= count,
            count == v@.len() / 4,
            out@.len() == k,
            forall|i: int|
                0 <= i < k ==> (#[trigger] out@[i])@ == monomial_combination(
                    ef_seq(v@).subrange(4 * i, 4 * i + 4),
                    4,
                ),
        decreases count - k,
    {
        let ghost chunk = ef_seq(v@).subrange(4 * k, 4 * k + 4);
        let mut acc = Ef::zero();
        let mut e: usize = 0;
        while e < 4
            invariant
                e <= 4,
                k < count,
                count == v@.len() / 4,
                chunk == ef_seq(v@).subrange(4 * k, 4 * k + 4),
                acc@ == monomial_combination(chunk, e as nat),
            decreases 4 - e,
        {
            let len: usize = v.len();
            assert(4 * k + e < len);
            let c = v[4 * k + e];
            assert(chunk[e as int] == c@);
            acc = acc.add(Ef::monomial(e).mul(c));
            e += 1;
        }
        out.push(acc);
        k += 1;
    }
    proof {
        assert(ef_seq(out@) =~= unflattened(ef_seq(v@)));
    }
    out
}

/// The first `n` values of a chunk, each times its basis element and the
/// weight of the chunk, summed.
pub open spec fn weighted_combination(weight: Ext, chunk: Seq<Ext>, n: nat) -> Ext
    decreases n,
{
    if n == 0 {
        ext_zero()
    } else {
        ext_add(
            weighted_combination(weight, chunk, (n - 1) as nat),
            ext_mul(ext_mul(weight, ext_monomial(n - 1)), chunk[n - 1]),
        )
    }
}

/// The quotient recomposed from the first `n` chunks.
pub open spec fn recomposed(weights: Seq<Ext>, chunks: Seq<Seq<Ext>>, n: nat) -> Ext
    decreases n,
{
    if n == 0 {
        ext_zero()
    } else {
        ext_add(
            recomposed(weights, chunks, (n - 1) as nat),
            weighted_combination(weights[n - 1], chunks[n - 1], 4),
        )
    }
}

/// The models of the opened chunks.
pub open spec fn chunk_seqs(chunks: Seq<Vec<Ef>>) -> Seq<Seq<Ext>> {
    chunks.map_values(|c: Vec<Ef>| ef_seq(c@))
}

/// Whether there is one chunk for each weight and every chunk has one value
/// for each basis element.
pub open spec fn chunks_shaped(chunks: Seq<Vec<Ef>>, count: nat) -> bool {
    &&& chunks.len() == count
    &&& forall|i: int| 0 <= i < chunks.len() ==> (#[trigger] chunks[i])@.len() == 4
}

/// Recomposes the value of the quotient from the opened values of its
/// chunks and the weights of the chunks.
pub fn recompose_quotient(weights: &[Ef], chunks: &[Vec<Ef>]) -> (r: Ef)
    requires
        chunks_shaped(chunks@, weights@.len()),
    ensures
        r@ == recomposed(ef_seq(weights@), chunk_seqs(chunks@), chunks@.len()),
{
    let mut quotient = Ef::zero();
    let mut i: usize = 0;
    while i < chunks.len()
        invariant
            i <= chunks@.len(),
            chunks_shaped(chunks@, weights@.len()),
            quotient@ == recomposed(ef_seq(weights@), chunk_seqs(chunks@), i as nat),
        decreases chunks@.len() - i,
    {
        let chunk = &chunks[i];
        let weight = weights[i];
        let mut acc = Ef::zero();
        let mut e: usize = 0;
        while e < 4
            invariant
                e <= 4,
                chunk@.len() == 4,
                acc@ == weighted_combination(weight@, ef_seq(chunk@), e as nat),
            decreases 4 - e,
        {
            acc = acc.add(weight.mul(Ef::monomial(e)).mul(chunk[e]));
            e += 1;
        }
        proof {
            assert(chunk_seqs(chunks@)[i as int] == ef_seq(chunk@));
            assert(ef_seq(weights@)[i as int] == weight@);
        }
        quotient = quotient.add(acc);
        i += 1;
    }
    quotient
}

/// The vanishing polynomial of domain `j` at the first point of domain `i`.
pub open spec fn cross_vanishing(domains: Seq<Domain>, i: int, j: int) -> Ext {
    domains[j].vanishing(ext_from_base(domains[i].first()))
}

/// The weight of chunk `i`, over the first `n` domains: the product, over
/// every other domain among them, of its vanishing polynomial at the point
/// divided by its vanishing polynomial at the first point of domain `i`.
pub open spec fn chunk_weight(domains: Seq<Domain>, zeta: Ext, i: int, n: nat) -> Ext
    decreases n,
{
    if n == 0 {
        ext_one()
    } else {
        let rest = chunk_weight(domains, zeta, i, (n - 1) as nat);
        if n - 1 == i {
            rest
        } else {
            ext_mul(
                rest,
                ext_mul(
                    domains[n - 1].vanishing(zeta),
                    quartic_inverse(cross_vanishing(domains, i, n - 1)),
                ),
            )
        }
    }
}

/// The weights of all chunks.
pub open spec fn chunk_weights(domains: Seq<Domain>, zeta: Ext) -> Seq<Ext> {
    Seq::new(domains.len(), |i: int| chunk_weight(domains, zeta, i, domains.len()))
}

/// Whether no domain vanishes at the first point of another, so that the
/// weights exist.
pub open spec fn domains_apart(domains: Seq<Domain>) -> bool {
    forall|i: int, j: int|
        0 <= i < domains.len() && 0 <= j < domains.len() && i != j ==> #[trigger] cross_vanishing(
            domains,
            i,
            j,
        ) != ext_zero()
}

/// The weights of the chunks of the quotient at the point `zeta`, or `None`
/// where a domain vanishes at the first point of another.
pub fn quotient_weights(qc_domains: &[Domain], zeta: Ef) -> (r: Option<Vec<Ef>>)
    ensures
        r is Some <==> domains_apart(qc_domains@),
        r matches Some(w) ==> ef_seq(w@) == chunk_weights(qc_domains@, zeta@),
{
    let n: usize = qc_domains.len();
    let mut zps: Vec<Ef> = Vec::new();
    let mut i: usize = 0;
    while i < n
        invariant
            i <= n,
            n == qc_domains@.len(),
            zps@.len() == i,
            forall|i1: int, j: int|
                0 <= i1 < i && 0 <= j < n && i1 != j ==> #[trigger] cross_vanishing(
                    qc_domains@,
                    i1,
                    j,
                ) != ext_zero(),
            forall|i1: int|
                0 <= i1 < i ==> (#[trigger] zps@[i1])@ == chunk_weight(
                    qc_domains@,
                    zeta@,
                    i1,
                    n as nat,
                ),
        decreases n - i,
    {
        let first = Ef::from_base(qc_domains[i].first_point());
        let mut weight = Ef::one();
        let mut j: usize = 0;
        while j < n
            invariant
                j <= n,
                i < n,
                n == qc_domains@.len(),
                first@ == ext_from_base(qc_domains@[i as int].first()),
                weight@ == chunk_weight(qc_domains@, zeta@, i as int, j as nat),
                forall|j1: int|
                    0 <= j1 < j && i != j1 ==> #[trigger] cross_vanishing(
                        qc_domains@,
                        i as int,
                        j1,
                    ) != ext_zero(),
            decreases n - j,
        {
            if j != i {
                let at_zeta = qc_domains[j].zp_at_point(zeta);
                let at_first = qc_domains[j].zp_at_point(first);
                match at_first.try_inverse() {
                    Some(inverse) => {
                        weight = weight.mul(at_zeta.mul(inverse));
                    },
                    None => {
                        proof {
                            assert(cross_vanishing(qc_domains@, i as int, j as int) == ext_zero());
                        }
                        return None;
                    },
                }
            }
            j += 1;
        }
        zps.push(weight);
        i += 1;
    }
    proof {
        assert(ef_seq(zps@) =~= chunk_weights(qc_domains@, zeta@));
    }
    Some(zps)
}

/// The window of an opened trace; the window of an absent trace is empty.
pub open spec fn opened_local(values: Option<AdjacentOpenedValues>) -> Seq<Ext> {
    match values {
        Some(v) => ef_seq(v.local@),
        None => Seq::empty(),
    }
}

/// The window of an opened trace on the next row; the window of an absent
/// trace is empty.
pub open spec fn opened_next(values: Option<AdjacentOpenedValues>) -> Seq<Ext> {
    match values {
        Some(v) => ef_seq(v.next@),
        None => Seq::empty(),
    }
}

/// What the constraints read from the opened values: the preprocessed and
/// main values as they were opened, the permutation values rebuilt from
/// their flattened form, and the selectors of the trace domain at the point.
pub open spec fn opened_frame(
    opened_values: OpenedValues,
    selectors: crate::domain::SelectorValues,
    permutation_challenges: Seq<Ef>,
    cumulative_sum: Option<Ef>,
    public_values: Seq<Fe>,
) -> Frame {
    Frame {
        preprocessed_local: opened_local(opened_values.preprocessed),
        preprocessed_next: opened_next(opened_values.preprocessed),
        main_local: opened_local(opened_values.main),
        main_next: opened_next(opened_values.main),
        permutation_local: unflattened(opened_local(opened_values.permutation)),
        permutation_next: unflattened(opened_next(opened_values.permutation)),
        public_values: public_seq(public_values),
        challenges: ef_seq(permutation_challenges),
        cumulative_sum: crate::debug::claimed_sum(cumulative_sum),
        is_first_row: selectors.is_first_row,
        is_last_row: selectors.is_last_row,
        is_transition: selectors.is_transition,
    }
}

/// The sizes of what the opened values offer to the constraints.
pub open spec fn opened_shape(opened_values: OpenedValues, public_values: Seq<Fe>) -> Shape {
    Shape {
        preprocessed_width: opened_local(opened_values.preprocessed).len() as usize,
        main_width: opened_local(opened_values.main).len() as usize,
        permutation_width: (opened_local(opened_values.permutation).len() / 4) as usize,
        public_values: public_values.len() as usize,
        challenges: 2,
    }
}

/// Whether the opened values have the shape that the check needs: one
/// quotient chunk of four values for each chunk domain; in each trace as
/// many values on the next row as on this row; domains that do not vanish
/// at each other's first point; and every constraint reading only what was
/// opened.
pub open spec fn proof_shaped(
    constraints: Seq<SymbolicExpression>,
    opened_values: OpenedValues,
    qc_domains: Seq<Domain>,
    public_values: Seq<Fe>,
) -> bool {
    &&& opened_values.quotient_chunks is Some
    &&& chunks_shaped(opened_values.quotient_chunks->0@, qc_domains.len())
    &&& opened_local(opened_values.preprocessed).len() == opened_next(
        opened_values.preprocessed,
    ).len()
    &&& opened_local(opened_values.main).len() == opened_next(opened_values.main).len()
    &&& opened_local(opened_values.permutation).len() / 4 == opened_next(
        opened_values.permutation,
    ).len() / 4
    &&& all_fit(constraints, opened_shape(opened_values, public_values))
    &&& domains_apart(qc_domains)
}

/// Whether the folded constraints, divided by the vanishing polynomial of
/// the trace domain, are the recomposed quotient at the point `zeta`, which
/// lies outside the trace domain.
pub open spec fn quotient_matches(
    constraints: Seq<SymbolicExpression>,
    opened_values: OpenedValues,
    main_domain: Domain,
    qc_domains: Seq<Domain>,
    zeta: Ext,
    alpha: Ext,
    permutation_challenges: Seq<Ef>,
    cumulative_sum: Option<Ef>,
    public_values: Seq<Fe>,
) -> bool {
    let selectors = main_domain.selectors(zeta);
    let frame = opened_frame(
        opened_values,
        selectors,
        permutation_challenges,
        cumulative_sum,
        public_values,
    );
    let folded = fold_constraints(constraints, frame, alpha, ext_zero(), constraints.len());
    let quotient = recomposed(
        chunk_weights(qc_domains, zeta),
        chunk_seqs(opened_values.quotient_chunks->0@),
        qc_domains.len(),
    );
    &&& main_domain.vanishing(zeta) != ext_zero()
    &&& ext_mul(folded, selectors.inv_zeroifier) == quotient
}

/// Compares the folded constraints, divided by the vanishing polynomial,
/// with the recomposed quotient.
pub fn check_quotient(folded_constraints: Ef, inv_zeroifier: Ef, quotient: Ef) -> (r: Result<
    (),
    VerificationError,
>)
    ensures
        r == (if ext_mul(folded_constraints@, inv_zeroifier@) == quotient@ {
            Ok::<(), VerificationError>(())
        } else {
            Err::<(), VerificationError>(VerificationError::OodEvaluationMismatch)
        }),
{
    if folded_constraints.mul(inv_zeroifier).equals(quotient) {
        Ok(())
    } else {
        Err(VerificationError::OodEvaluationMismatch)
    }
}

/// The two rows of an opened trace, or two empty rows.
fn opened_window(values: &Option<AdjacentOpenedValues>) -> (w: TwoRowMatrixView)
    ensures
        ef_seq(w.local@) == opened_local(*values),
        ef_seq(w.next@) == opened_next(*values),
        w.local@.len() == opened_local(*values).len(),
        w.next@.len() == opened_next(*values).len(),
{
    match values {
        Some(v) => TwoRowMatrixView::new(
            slice_to_vec(v.local.as_slice()),
            slice_to_vec(v.next.as_slice()),
        ),
        None => {
            let w = TwoRowMatrixView::empty();
            proof {
                assert(ef_seq(w.local@) =~= opened_local(*values));
                assert(ef_seq(w.next@) =~= opened_next(*values));
            }
            w
        },
    }
}

/// The two rows of an opened permutation trace, rebuilt from their
/// flattened form, or two empty rows.
fn opened_permutation(values: &Option<AdjacentOpenedValues>) -> (w: TwoRowMatrixView)
    ensures
        ef_seq(w.local@) == unflattened(opened_local(*values)),
        ef_seq(w.next@) == unflattened(opened_next(*values)),
        w.local@.len() == opened_local(*values).len() / 4,
        w.next@.len() == opened_next(*values).len() / 4,
{
    match values {
        Some(v) => {
            let local = unflatten(v.local.as_slice());
            let next = unflatten(v.next.as_slice());
            proof {
                assert(ef_seq(local@).len() == local@.len());
                assert(ef_seq(next@).len() == next@.len());
            }
            TwoRowMatrixView::new(local, next)
        },
        None => {
            let w = TwoRowMatrixView::empty();
            proof {
                assert(ef_seq(w.local@) =~= unflattened(opened_local(*values)));
                assert(ef_seq(w.next@) =~= unflattened(opened_next(*values)));
            }
            w
        },
    }
}

/// What the check of the opened values of one table comes to: the quotient
/// must have been opened; the opened values must have the shape that the
/// check needs; and the folded constraints, divided by the vanishing
/// polynomial, must be the recomposed quotient.
pub open spec fn constraints_verdict(
    constraints: Seq<SymbolicExpression>,
    opened_values: OpenedValues,
    main_domain: Domain,
    qc_domains: Seq<Domain>,
    zeta: Ext,
    alpha: Ext,
    permutation_challenges: Seq<Ef>,
    cumulative_sum: Option<Ef>,
    public_values: Seq<Fe>,
) -> Result<(), VerificationError> {
    if opened_values.quotient_chunks is None {
        Err(VerificationError::MissingProofData)
    } else if !proof_shaped(constraints, opened_values, qc_domains, public_values) {
        Err(VerificationError::InvalidProofShape)
    } else if !quotient_matches(
        constraints,
        opened_values,
        main_domain,
        qc_domains,
        zeta,
        alpha,
        permutation_challenges,
        cumulative_sum,
        public_values,
    ) {
        Err(VerificationError::OodEvaluationMismatch)
    } else {
        Ok(())
    }
}

/// Checks the opened values of one table: the constraints, folded with
/// `alpha` on the values opened at `zeta` and divided by the vanishing
/// polynomial of the trace domain, must be the quotient recomposed from its
/// opened chunks.
pub fn verify_constraints(
    constraints: &[SymbolicExpression],
    opened_values: &OpenedValues,
    main_domain: Domain,
    qc_domains: &[Domain],
    zeta: Ef,
    alpha: Ef,
    permutation_challenges: [Ef; 2],
    cumulative_sum: Option<Ef>,
    public_values: &[Fe],
) -> (r: Result<(), VerificationError>)
    ensures
        r == constraints_verdict(
            constraints@,
            *opened_values,
            main_domain,
            qc_domains@,
            zeta@,
            alpha@,
            permutation_challenges@,
            cumulative_sum,
            public_values@,
        ),
{
    let chunks = match &opened_values.quotient_chunks {
        Some(chunks) => chunks,
        None => {
            return Err(VerificationError::MissingProofData);
        },
    };
    if chunks.len() != qc_domains.len() {
        return Err(VerificationError::InvalidProofShape);
    }
    let mut i: usize = 0;
    while i < chunks.len()
        invariant
            i <= chunks@.len(),
            opened_values.quotient_chunks == Some(*chunks),
            chunks@.len() == qc_domains@.len(),
            forall|i1: int| 0 <= i1 < i ==> (#[trigger] chunks@[i1])@.len() == 4,
        decreases chunks@.len() - i,
    {
        if chunks[i].len() != 4 {
            return Err(VerificationError::InvalidProofShape);
        }
        i += 1;
    }
    let preprocessed = opened_window(&opened_values.preprocessed);
    let main = opened_window(&opened_values.main);
    let perm = opened_permutation(&opened_values.permutation);
    if preprocessed.local.len() != preprocessed.next.len() || main.local.len() != main.next.len()
        || perm.local.len() != perm.next.len() {
        return Err(VerificationError::InvalidProofShape);
    }
    let shape = Shape {
        preprocessed_width: preprocessed.local.len(),
        main_width: main.local.len(),
        permutation_width: perm.local.len(),
        public_values: public_values.len(),
        challenges: 2,
    };
    assert(shape == opened_shape(*opened_values, public_values@));
    if !constraints_fit(constraints, &shape) {
        return Err(VerificationError::InvalidProofShape);
    }
    let zps = match quotient_weights(qc_domains, zeta) {
        Some(zps) => zps,
        None => {
            return Err(VerificationError::InvalidProofShape);
        },
    };
    assert(ef_seq(zps@).len() == zps@.len());
    assert(chunks_shaped(chunks@, qc_domains@.len()));
    assert(proof_shaped(constraints@, *opened_values, qc_domains@, public_values@));
    let quotient = recompose_quotient(zps.as_slice(), chunks.as_slice());
    let sels = match main_domain.selectors_at_point(zeta) {
        Some(sels) => sels,
        None => {
            return Err(VerificationError::OodEvaluationMismatch);
        },
    };
    let sum = match cumulative_sum {
        Some(c) => c,
        None => Ef::zero(),
    };
    let mut folder = VerifierConstraintFolder {
        preprocessed,
        main,
        perm,
        perm_challenges: permutation_challenges,
        public_values: slice_to_vec(public_values),
        cumulative_sum: sum,
        is_first_row: sels.is_first_row,
        is_last_row: sels.is_last_row,
        is_transition: sels.is_transition,
        alpha,
        accumulator: Ef::zero(),
    };
    proof {
        assert(folder.frame() == opened_frame(
            *opened_values,
            main_domain.selectors(zeta@),
            permutation_challenges@,
            cumulative_sum,
            public_values@,
        ));
        assert(folder.shape() == shape);
    }
    folder.eval_all(constraints);
    check_quotient(folder.accumulator, sels.inv_zeroifier, quotient)
}

} // verus!
