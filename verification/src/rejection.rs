//! A law of the verifier: opened values that pass do not pass any more once
//! one opened value of the quotient is changed.

use vstd::prelude::*;
use vstd::arithmetic::div_mod::{lemma_mod_bound, lemma_mod_multiples_vanish, lemma_small_mod};
use crate::algebra::{lemma_cancel, lemma_mul_associative, lemma_mul_is_raw};
use crate::balance::{
    congruent, lemma_congruent_canonical, lemma_congruent_chain, lemma_congruent_mod,
    lemma_congruent_sum,
};
use crate::domain::Domain;
use crate::extension::{
    ext_add, ext_canonical, ext_monomial, ext_mul, ext_one, ext_zero, Ef, Ext,
};
use crate::field::{modulus, Fe};
use crate::symbolic::SymbolicExpression;
use crate::verify::{
    chunk_seqs, chunk_weight, chunk_weights, constraints_verdict, proof_shaped, quotient_matches, recomposed,
    weighted_combination, OpenedValues, VerificationError,
};

verus! {

/// A sum is canonical.
proof fn lemma_sum_canonical(a: Ext, b: Ext)
    ensures
        ext_canonical(ext_add(a, b)),
{
    lemma_mod_bound(a.c0 + b.c0, modulus());
    lemma_mod_bound(a.c1 + b.c1, modulus());
    lemma_mod_bound(a.c2 + b.c2, modulus());
    lemma_mod_bound(a.c3 + b.c3, modulus());
}

/// Two canonical integers that give the same sum with a third are the same.
proof fn lemma_cancel_term(a: int, b: int, t: int)
    requires
        (a + t) % modulus() == (b + t) % modulus(),
        0 <= a < modulus(),
        0 <= b < modulus(),
    ensures
        a == b,
{
    lemma_congruent_mod(a + t);
    lemma_congruent_mod(b + t);
    lemma_congruent_chain((a + t) % modulus(), a + t, a + t);
    lemma_congruent_chain(a + t, (b + t) % modulus(), b + t);
    assert(congruent(t, t)) by {
        lemma_small_mod(0, modulus() as nat);
    }
    lemma_congruent_sum(a + t, b + t, t, t);
    assert(a + t - t == a);
    assert(b + t - t == b);
    lemma_congruent_canonical(a, b);
}

/// The term that is added last can be taken off a sum again.
proof fn lemma_cancel_last(a: Ext, b: Ext, t: Ext)
    requires
        ext_add(a, t) == ext_add(b, t),
        ext_canonical(a),
        ext_canonical(b),
    ensures
        a == b,
{
    lemma_cancel_term(a.c0, b.c0, t.c0);
    lemma_cancel_term(a.c1, b.c1, t.c1);
    lemma_cancel_term(a.c2, b.c2, t.c2);
    lemma_cancel_term(a.c3, b.c3, t.c3);
}

/// What a sum started with can be taken off it again.
proof fn lemma_cancel_first(a: Ext, s: Ext, t: Ext)
    requires
        ext_add(a, s) == ext_add(a, t),
        ext_canonical(s),
        ext_canonical(t),
    ensures
        s == t,
{
    assert(s.c0 + a.c0 == a.c0 + s.c0 && t.c0 + a.c0 == a.c0 + t.c0);
    assert(s.c1 + a.c1 == a.c1 + s.c1 && t.c1 + a.c1 == a.c1 + t.c1);
    assert(s.c2 + a.c2 == a.c2 + s.c2 && t.c2 + a.c2 == a.c2 + t.c2);
    assert(s.c3 + a.c3 == a.c3 + s.c3 && t.c3 + a.c3 == a.c3 + t.c3);
    lemma_cancel_term(s.c0, t.c0, a.c0);
    lemma_cancel_term(s.c1, t.c1, a.c1);
    lemma_cancel_term(s.c2, t.c2, a.c2);
    lemma_cancel_term(s.c3, t.c3, a.c3);
}

/// The inverse of the `i`-th element of the monomial basis: `X^(4 - i)`
/// divided by eleven.
pub open spec fn monomial_inverse(i: int) -> Ext {
    Ext {
        c0: if i == 0 { 1 } else { 0 },
        c1: if i == 3 { 549072524 } else { 0 },
        c2: if i == 2 { 549072524 } else { 0 },
        c3: if i == 1 { 549072524 } else { 0 },
    }
}

/// Every element of the monomial basis has an inverse.
proof fn lemma_monomial_inverse(i: int)
    requires
        0 <= i < 4,
    ensures
        ext_mul(monomial_inverse(i), ext_monomial(i)) == ext_one(),
{
    assert(11 * 549072524 == modulus() * 3 + 1);
    lemma_mod_multiples_vanish(3, 1, modulus());
    lemma_small_mod(1, modulus() as nat);
    lemma_small_mod(0, modulus() as nat);
    let a = monomial_inverse(i);
    let b = ext_monomial(i);
    if i == 0 {
        assert(a == ext_one() && b == ext_one());
        assert(a.c0 * b.c0 + 11 * (a.c1 * b.c3 + a.c2 * b.c2 + a.c3 * b.c1) == 1);
    } else if i == 1 {
        assert(a.c3 == 549072524 && b.c1 == 1);
        assert(a.c3 * b.c1 == 549072524);
        assert(a.c0 * b.c0 + 11 * (a.c1 * b.c3 + a.c2 * b.c2 + a.c3 * b.c1) == 11 * 549072524);
    } else if i == 2 {
        assert(a.c2 == 549072524 && b.c2 == 1);
        assert(a.c2 * b.c2 == 549072524);
        assert(a.c0 * b.c0 + 11 * (a.c1 * b.c3 + a.c2 * b.c2 + a.c3 * b.c1) == 11 * 549072524);
    } else {
        assert(a.c1 == 549072524 && b.c3 == 1);
        assert(a.c1 * b.c3 == 549072524);
        assert(a.c0 * b.c0 + 11 * (a.c1 * b.c3 + a.c2 * b.c2 + a.c3 * b.c1) == 11 * 549072524);
    }
    assert(a.c0 * b.c1 + a.c1 * b.c0 + 11 * (a.c2 * b.c3 + a.c3 * b.c2) == 0) by {
        assert(a.c0 * b.c1 == 0 && a.c1 * b.c0 == 0 && a.c2 * b.c3 == 0 && a.c3 * b.c2 == 0);
    }
    assert(a.c0 * b.c2 + a.c1 * b.c1 + a.c2 * b.c0 + 11 * (a.c3 * b.c3) == 0) by {
        assert(a.c0 * b.c2 == 0 && a.c1 * b.c1 == 0 && a.c2 * b.c0 == 0 && a.c3 * b.c3 == 0);
    }
    assert(a.c0 * b.c3 + a.c1 * b.c2 + a.c2 * b.c1 + a.c3 * b.c0 == 0) by {
        assert(a.c0 * b.c3 == 0 && a.c1 * b.c2 == 0 && a.c2 * b.c1 == 0 && a.c3 * b.c0 == 0);
    }
}

/// The term of value `j` of a chunk in the recomposed quotient.
pub open spec fn chunk_term(weight: Ext, chunk: Seq<Ext>, j: int) -> Ext {
    ext_mul(ext_mul(weight, ext_monomial(j)), chunk[j])
}

/// Two chunks that agree on their first `n` values have the same weighted
/// combination of them.
proof fn lemma_same_prefix(weight: Ext, a: Seq<Ext>, b: Seq<Ext>, n: nat)
    requires
        forall|j: int| 0 <= j < n ==> a[j] == b[j],
    ensures
        weighted_combination(weight, a, n) == weighted_combination(weight, b, n),
    decreases n,
{
    if n > 0 {
        lemma_same_prefix(weight, a, b, (n - 1) as nat);
    }
}

/// A weighted combination is canonical.
proof fn lemma_combination_canonical(weight: Ext, chunk: Seq<Ext>, n: nat)
    ensures
        ext_canonical(weighted_combination(weight, chunk, n)),
{
    if n > 0 {
        lemma_sum_canonical(
            weighted_combination(weight, chunk, (n - 1) as nat),
            chunk_term(weight, chunk, n - 1),
        );
    }
}

/// Two chunks that differ in value `e` only and have the same weighted
/// combination of their first `n` values, `n` being beyond `e`, have the
/// same term there.
proof fn lemma_same_term(weight: Ext, a: Seq<Ext>, b: Seq<Ext>, e: int, n: nat)
    requires
        0 <= e < n,
        forall|j: int| 0 <= j < n && j != e ==> a[j] == b[j],
        weighted_combination(weight, a, n) == weighted_combination(weight, b, n),
    ensures
        chunk_term(weight, a, e) == chunk_term(weight, b, e),
    decreases n,
{
    let before_a = weighted_combination(weight, a, (n - 1) as nat);
    let before_b = weighted_combination(weight, b, (n - 1) as nat);
    if n - 1 == e {
        lemma_same_prefix(weight, a, b, (n - 1) as nat);
        lemma_mul_is_raw(ext_mul(weight, ext_monomial(e)), a[e]);
        lemma_mul_is_raw(ext_mul(weight, ext_monomial(e)), b[e]);
        lemma_cancel_first(before_a, chunk_term(weight, a, e), chunk_term(weight, b, e));
    } else {
        lemma_combination_canonical(weight, a, (n - 1) as nat);
        lemma_combination_canonical(weight, b, (n - 1) as nat);
        assert(chunk_term(weight, a, n - 1) == chunk_term(weight, b, n - 1));
        lemma_cancel_last(before_a, before_b, chunk_term(weight, a, n - 1));
        lemma_same_term(weight, a, b, e, (n - 1) as nat);
    }
}

/// A recomposed quotient is canonical.
proof fn lemma_recomposed_canonical(weights: Seq<Ext>, chunks: Seq<Seq<Ext>>, n: nat)
    ensures
        ext_canonical(recomposed(weights, chunks, n)),
{
    if n > 0 {
        lemma_sum_canonical(
            recomposed(weights, chunks, (n - 1) as nat),
            weighted_combination(weights[n - 1], chunks[n - 1], 4),
        );
    }
}

/// Two lists of chunks that differ in the first chunk only and recompose
/// to the same quotient have the same weighted combination of the first
/// chunk.
proof fn lemma_same_first_chunk(weights: Seq<Ext>, a: Seq<Seq<Ext>>, b: Seq<Seq<Ext>>, n: nat)
    requires
        n > 0,
        forall|i: int| 0 < i < n ==> a[i] == b[i],
        recomposed(weights, a, n) == recomposed(weights, b, n),
    ensures
        weighted_combination(weights[0], a[0], 4) == weighted_combination(weights[0], b[0], 4),
    decreases n,
{
    let before_a = recomposed(weights, a, (n - 1) as nat);
    let before_b = recomposed(weights, b, (n - 1) as nat);
    if n == 1 {
        lemma_combination_canonical(weights[0], a[0], 4);
        lemma_combination_canonical(weights[0], b[0], 4);
        lemma_cancel_first(
            ext_zero(),
            weighted_combination(weights[0], a[0], 4),
            weighted_combination(weights[0], b[0], 4),
        );
    } else {
        lemma_recomposed_canonical(weights, a, (n - 1) as nat);
        lemma_recomposed_canonical(weights, b, (n - 1) as nat);
        assert(a[n - 1] == b[n - 1]);
        lemma_cancel_last(
            before_a,
            before_b,
            weighted_combination(weights[n - 1], a[n - 1], 4),
        );
        lemma_same_first_chunk(weights, a, b, (n - 1) as nat);
    }
}

/// A changed value changes the recomposed quotient: two lists of chunks
/// that differ in one value of the first chunk only, whose weight has an
/// inverse, do not recompose to the same quotient.
pub proof fn lemma_changed_value_changes_the_quotient(
    weights: Seq<Ext>,
    weight_inverse: Ext,
    a: Seq<Seq<Ext>>,
    b: Seq<Seq<Ext>>,
    e: int,
    n: nat,
)
    requires
        n > 0,
        forall|i: int| 0 < i < n ==> a[i] == b[i],
        0 <= e < 4,
        forall|j: int| 0 <= j < 4 && j != e ==> a[0][j] == b[0][j],
        a[0][e] != b[0][e],
        ext_canonical(a[0][e]),
        ext_canonical(b[0][e]),
        ext_mul(weight_inverse, weights[0]) == ext_one(),
    ensures
        recomposed(weights, a, n) != recomposed(weights, b, n),
{
    if recomposed(weights, a, n) == recomposed(weights, b, n) {
        let w = weights[0];
        let m = ext_monomial(e);
        lemma_same_first_chunk(weights, a, b, n);
        lemma_same_term(w, a[0], b[0], e, 4);
        lemma_mul_associative(w, m, a[0][e]);
        lemma_mul_associative(w, m, b[0][e]);
        lemma_mul_is_raw(m, a[0][e]);
        lemma_mul_is_raw(m, b[0][e]);
        lemma_cancel(w, weight_inverse, ext_mul(m, a[0][e]), ext_mul(m, b[0][e]));
        lemma_monomial_inverse(e);
        lemma_cancel(m, monomial_inverse(e), a[0][e], b[0][e]);
    }
}

/// Opened values that pass the check of a table do not pass it any more
/// once one value of the first opened chunk of the quotient is replaced by
/// another: the check then fails on the quotient. This is stated where the
/// weight of the first chunk has an inverse, as every element of a field
/// but zero has one.
pub proof fn lemma_changed_chunk_is_rejected(
    constraints: Seq<SymbolicExpression>,
    opened: OpenedValues,
    changed: OpenedValues,
    main_domain: Domain,
    qc_domains: Seq<Domain>,
    zeta: Ext,
    alpha: Ext,
    permutation_challenges: Seq<Ef>,
    cumulative_sum: Option<Ef>,
    public_values: Seq<Fe>,
    e: int,
    weight_inverse: Ext,
)
    requires
        constraints_verdict(
            constraints,
            opened,
            main_domain,
            qc_domains,
            zeta,
            alpha,
            permutation_challenges,
            cumulative_sum,
            public_values,
        ) == Ok::<(), VerificationError>(()),
        changed.preprocessed == opened.preprocessed,
        changed.main == opened.main,
        changed.permutation == opened.permutation,
        changed.quotient_chunks is Some,
        ({
            let before = chunk_seqs(opened.quotient_chunks->0@);
            let after = chunk_seqs(changed.quotient_chunks->0@);
            &&& after.len() == before.len()
            &&& before.len() > 0
            &&& forall|i: int| 0 < i < before.len() ==> after[i] == before[i]
            &&& 0 <= e < 4
            &&& after[0].len() == 4
            &&& forall|j: int| 0 <= j < 4 && j != e ==> after[0][j] == before[0][j]
            &&& after[0][e] != before[0][e]
            &&& ext_canonical(after[0][e])
            &&& ext_canonical(before[0][e])
        }),
        ext_mul(weight_inverse, chunk_weights(qc_domains, zeta)[0]) == ext_one(),
    ensures
        constraints_verdict(
            constraints,
            changed,
            main_domain,
            qc_domains,
            zeta,
            alpha,
            permutation_challenges,
            cumulative_sum,
            public_values,
        ) == Err::<(), VerificationError>(VerificationError::OodEvaluationMismatch),
{
    let chunks = opened.quotient_chunks->0@;
    let others = changed.quotient_chunks->0@;
    let before = chunk_seqs(chunks);
    let after = chunk_seqs(others);
    assert(proof_shaped(constraints, opened, qc_domains, public_values));
    assert(before.len() == chunks.len());
    assert(after.len() == others.len());
    assert forall|i: int| 0 <= i < others.len() implies (#[trigger] others[i])@.len() == 4 by {
        assert(after[i].len() == others[i]@.len());
        assert(before[i].len() == chunks[i]@.len());
        if i > 0 {
            assert(after[i] == before[i]);
        }
    }
    assert(proof_shaped(constraints, changed, qc_domains, public_values));
    lemma_changed_value_changes_the_quotient(
        chunk_weights(qc_domains, zeta),
        weight_inverse,
        after,
        before,
        e,
        qc_domains.len(),
    );
    assert(quotient_matches(
        constraints,
        opened,
        main_domain,
        qc_domains,
        zeta,
        alpha,
        permutation_challenges,
        cumulative_sum,
        public_values,
    ));
}

/// Where the quotient has a single chunk, its weight is one, and the law
/// holds as it stands: opened values that pass do not pass any more once
/// one value of the opened chunk is replaced by another.
pub proof fn lemma_changed_single_chunk_is_rejected(
    constraints: Seq<SymbolicExpression>,
    opened: OpenedValues,
    changed: OpenedValues,
    main_domain: Domain,
    qc_domains: Seq<Domain>,
    zeta: Ext,
    alpha: Ext,
    permutation_challenges: Seq<Ef>,
    cumulative_sum: Option<Ef>,
    public_values: Seq<Fe>,
    e: int,
)
    requires
        qc_domains.len() == 1,
        constraints_verdict(
            constraints,
            opened,
            main_domain,
            qc_domains,
            zeta,
            alpha,
            permutation_challenges,
            cumulative_sum,
            public_values,
        ) == Ok::<(), VerificationError>(()),
        changed.preprocessed == opened.preprocessed,
        changed.main == opened.main,
        changed.permutation == opened.permutation,
        changed.quotient_chunks is Some,
        ({
            let before = chunk_seqs(opened.quotient_chunks->0@);
            let after = chunk_seqs(changed.quotient_chunks->0@);
            &&& after.len() == 1
            &&& 0 <= e < 4
            &&& after[0].len() == 4
            &&& forall|j: int| 0 <= j < 4 && j != e ==> after[0][j] == before[0][j]
            &&& after[0][e] != before[0][e]
            &&& ext_canonical(after[0][e])
            &&& ext_canonical(before[0][e])
        }),
    ensures
        constraints_verdict(
            constraints,
            changed,
            main_domain,
            qc_domains,
            zeta,
            alpha,
            permutation_challenges,
            cumulative_sum,
            public_values,
        ) == Err::<(), VerificationError>(VerificationError::OodEvaluationMismatch),
{
    assert(proof_shaped(constraints, opened, qc_domains, public_values));
    assert(chunk_seqs(opened.quotient_chunks->0@).len() == opened.quotient_chunks->0@.len());
    reveal_with_fuel(chunk_weight, 2);
    assert(chunk_weights(qc_domains, zeta)[0] == ext_one());
    assert(ext_canonical(ext_one()));
    crate::extension::lemma_mul_one_left(ext_one());
    lemma_changed_chunk_is_rejected(
        constraints,
        opened,
        changed,
        main_domain,
        qc_domains,
        zeta,
        alpha,
        permutation_challenges,
        cumulative_sum,
        public_values,
        e,
        ext_one(),
    );
}

} // verus!
