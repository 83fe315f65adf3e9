//! The ring laws of the challenge field that the laws of the verifier rest
//! on: multiplication is associative, and a factor that has an inverse can
//! be cancelled.

use vstd::prelude::*;
use vstd::arithmetic::div_mod::lemma_mod_bound;
use crate::balance::{
    congruent, ext_congruent, lemma_congruent_canonical, lemma_congruent_chain,
    lemma_congruent_mod, lemma_congruent_product, lemma_congruent_sum,
};
use crate::extension::{ext_canonical, ext_mul, ext_one, lemma_mul_one_left, Ext};
use crate::field::modulus;

verus! {

/// The product of two polynomials of degree below four, reduced by
/// `X^4 = 11`, in the integers.
pub open spec fn raw_mul(a: Ext, b: Ext) -> Ext {
    Ext {
        c0: a.c0 * b.c0 + 11 * (a.c1 * b.c3 + a.c2 * b.c2 + a.c3 * b.c1),
        c1: a.c0 * b.c1 + a.c1 * b.c0 + 11 * (a.c2 * b.c3 + a.c3 * b.c2),
        c2: a.c0 * b.c2 + a.c1 * b.c1 + a.c2 * b.c0 + 11 * (a.c3 * b.c3),
        c3: a.c0 * b.c3 + a.c1 * b.c2 + a.c2 * b.c1 + a.c3 * b.c0,
    }
}

/// The product in the field is the product in the integers, reduced.
pub proof fn lemma_mul_is_raw(a: Ext, b: Ext)
    ensures
        ext_congruent(ext_mul(a, b), raw_mul(a, b)),
        ext_canonical(ext_mul(a, b)),
{
    let r = raw_mul(a, b);
    lemma_congruent_mod(r.c0);
    lemma_congruent_mod(r.c1);
    lemma_congruent_mod(r.c2);
    lemma_congruent_mod(r.c3);
    lemma_mod_bound(r.c0, modulus());
    lemma_mod_bound(r.c1, modulus());
    lemma_mod_bound(r.c2, modulus());
    lemma_mod_bound(r.c3, modulus());
}

/// The difference of two congruent integers, times a factor, is the
/// difference of the products and a multiple of the modulus.
proof fn lemma_difference(a: int, b: int, k: int)
    requires
        congruent(a, b),
    ensures
        a * k - b * k == (a - b) * k,
        congruent((a - b) * k, 0),
{
    assert(a * k - b * k == (a - b) * k) by (nonlinear_arith);
    assert(k * (a - b) == (a - b) * k) by (nonlinear_arith);
    lemma_congruent_product(k, a - b);
}

/// A sum of four terms times a factor, on either side.
proof fn lemma_distribute(x0: int, x1: int, x2: int, x3: int, c: int)
    ensures
        (x0 + x1 + x2 + x3) * c == x0 * c + x1 * c + x2 * c + x3 * c,
        c * (x0 + x1 + x2 + x3) == c * x0 + c * x1 + c * x2 + c * x3,
{
    assert((x0 + x1 + x2 + x3) * c == x0 * c + x1 * c + x2 * c + x3 * c) by (nonlinear_arith);
    assert(c * (x0 + x1 + x2 + x3) == c * x0 + c * x1 + c * x2 + c * x3) by (nonlinear_arith);
}

/// Eleven times a product, times a factor, on either side.
proof fn lemma_eleven(x: int, c: int)
    ensures
        (11 * x) * c == 11 * (x * c),
        c * (11 * x) == 11 * (c * x),
{
    assert((11 * x) * c == 11 * (x * c)) by (nonlinear_arith);
    assert(c * (11 * x) == 11 * (c * x)) by (nonlinear_arith);
}

/// A product of three integers does not depend on how they are grouped.
proof fn lemma_grouping(a: int, b: int, c: int)
    ensures
        (a * b) * c == a * (b * c),
{
    assert((a * b) * c == a * (b * c)) by (nonlinear_arith);
}

/// A sum of four terms, the last three of them times eleven, times a factor
/// on the right.
proof fn lemma_expand_right(x0: int, x1: int, x2: int, x3: int, w1: int, w2: int, w3: int, c: int)
    requires
        w1 == 1 || w1 == 11,
        w2 == 1 || w2 == 11,
        w3 == 1 || w3 == 11,
    ensures
        (x0 + w1 * x1 + w2 * x2 + w3 * x3) * c == x0 * c + w1 * (x1 * c) + w2 * (x2 * c) + w3 * (
            x3 * c),
{
    lemma_distribute(x0, w1 * x1, w2 * x2, w3 * x3, c);
    lemma_eleven(x1, c);
    lemma_eleven(x2, c);
    lemma_eleven(x3, c);
}

/// A sum of four terms, the last three of them times eleven, times a factor
/// on the left.
proof fn lemma_expand_left(c: int, x0: int, x1: int, x2: int, x3: int, w1: int, w2: int, w3: int)
    requires
        w1 == 1 || w1 == 11,
        w2 == 1 || w2 == 11,
        w3 == 1 || w3 == 11,
    ensures
        c * (x0 + w1 * x1 + w2 * x2 + w3 * x3) == c * x0 + w1 * (c * x1) + w2 * (c * x2) + w3 * (
            c * x3),
{
    lemma_distribute(x0, w1 * x1, w2 * x2, w3 * x3, c);
    lemma_eleven(x1, c);
    lemma_eleven(x2, c);
    lemma_eleven(x3, c);
}

/// A combination of four multiples of the modulus is one.
proof fn lemma_combination(t0: int, t1: int, t2: int, t3: int, w1: int, w2: int, w3: int)
    requires
        congruent(t0, 0),
        congruent(t1, 0),
        congruent(t2, 0),
        congruent(t3, 0),
    ensures
        congruent(t0 + w1 * t1 + w2 * t2 + w3 * t3, 0),
{
    lemma_congruent_product(w1, t1);
    lemma_congruent_product(w2, t2);
    lemma_congruent_product(w3, t3);
    lemma_congruent_sum(t0, 0, w1 * t1, 0);
    lemma_congruent_sum(t0 + w1 * t1, 0, w2 * t2, 0);
    lemma_congruent_sum(t0 + w1 * t1 + w2 * t2, 0, w3 * t3, 0);
}

/// The product in the integers of congruent left factors is congruent.
proof fn lemma_raw_congruent_left(a: Ext, b: Ext, c: Ext)
    requires
        ext_congruent(a, b),
    ensures
        ext_congruent(raw_mul(a, c), raw_mul(b, c)),
{
    lemma_difference(a.c0, b.c0, c.c0);
    lemma_difference(a.c0, b.c0, c.c1);
    lemma_difference(a.c0, b.c0, c.c2);
    lemma_difference(a.c0, b.c0, c.c3);
    lemma_difference(a.c1, b.c1, c.c0);
    lemma_difference(a.c1, b.c1, c.c1);
    lemma_difference(a.c1, b.c1, c.c2);
    lemma_difference(a.c1, b.c1, c.c3);
    lemma_difference(a.c2, b.c2, c.c0);
    lemma_difference(a.c2, b.c2, c.c1);
    lemma_difference(a.c2, b.c2, c.c2);
    lemma_difference(a.c2, b.c2, c.c3);
    lemma_difference(a.c3, b.c3, c.c0);
    lemma_difference(a.c3, b.c3, c.c1);
    lemma_difference(a.c3, b.c3, c.c2);
    lemma_difference(a.c3, b.c3, c.c3);
    lemma_combination(
        (a.c0 - b.c0) * c.c0,
        (a.c1 - b.c1) * c.c3,
        (a.c2 - b.c2) * c.c2,
        (a.c3 - b.c3) * c.c1,
        11,
        11,
        11,
    );
    lemma_combination(
        (a.c0 - b.c0) * c.c1,
        (a.c1 - b.c1) * c.c0,
        (a.c2 - b.c2) * c.c3,
        (a.c3 - b.c3) * c.c2,
        1,
        11,
        11,
    );
    lemma_combination(
        (a.c0 - b.c0) * c.c2,
        (a.c1 - b.c1) * c.c1,
        (a.c2 - b.c2) * c.c0,
        (a.c3 - b.c3) * c.c3,
        1,
        1,
        11,
    );
    lemma_combination(
        (a.c0 - b.c0) * c.c3,
        (a.c1 - b.c1) * c.c2,
        (a.c2 - b.c2) * c.c1,
        (a.c3 - b.c3) * c.c0,
        1,
        1,
        1,
    );
}

/// The product in the integers does not depend on the order of its
/// factors.
proof fn lemma_raw_commutative(a: Ext, b: Ext)
    ensures
        raw_mul(a, b) == raw_mul(b, a),
{
    assert(a.c0 * b.c0 == b.c0 * a.c0) by (nonlinear_arith);
    assert(a.c0 * b.c1 == b.c1 * a.c0) by (nonlinear_arith);
    assert(a.c0 * b.c2 == b.c2 * a.c0) by (nonlinear_arith);
    assert(a.c0 * b.c3 == b.c3 * a.c0) by (nonlinear_arith);
    assert(a.c1 * b.c0 == b.c0 * a.c1) by (nonlinear_arith);
    assert(a.c1 * b.c1 == b.c1 * a.c1) by (nonlinear_arith);
    assert(a.c1 * b.c2 == b.c2 * a.c1) by (nonlinear_arith);
    assert(a.c1 * b.c3 == b.c3 * a.c1) by (nonlinear_arith);
    assert(a.c2 * b.c0 == b.c0 * a.c2) by (nonlinear_arith);
    assert(a.c2 * b.c1 == b.c1 * a.c2) by (nonlinear_arith);
    assert(a.c2 * b.c2 == b.c2 * a.c2) by (nonlinear_arith);
    assert(a.c2 * b.c3 == b.c3 * a.c2) by (nonlinear_arith);
    assert(a.c3 * b.c0 == b.c0 * a.c3) by (nonlinear_arith);
    assert(a.c3 * b.c1 == b.c1 * a.c3) by (nonlinear_arith);
    assert(a.c3 * b.c2 == b.c2 * a.c3) by (nonlinear_arith);
    assert(a.c3 * b.c3 == b.c3 * a.c3) by (nonlinear_arith);
}

/// The product in the integers of three factors does not depend on how
/// they are grouped.
proof fn lemma_raw_associative(a: Ext, b: Ext, c: Ext)
    ensures
        raw_mul(raw_mul(a, b), c) == raw_mul(a, raw_mul(b, c)),
{
    let x = raw_mul(a, b);
    let y = raw_mul(b, c);
    lemma_grouping(a.c0, b.c0, c.c0);
    lemma_grouping(a.c0, b.c0, c.c1);
    lemma_grouping(a.c0, b.c0, c.c2);
    lemma_grouping(a.c0, b.c0, c.c3);
    lemma_grouping(a.c0, b.c1, c.c0);
    lemma_grouping(a.c0, b.c1, c.c1);
    lemma_grouping(a.c0, b.c1, c.c2);
    lemma_grouping(a.c0, b.c1, c.c3);
    lemma_grouping(a.c0, b.c2, c.c0);
    lemma_grouping(a.c0, b.c2, c.c1);
    lemma_grouping(a.c0, b.c2, c.c2);
    lemma_grouping(a.c0, b.c2, c.c3);
    lemma_grouping(a.c0, b.c3, c.c0);
    lemma_grouping(a.c0, b.c3, c.c1);
    lemma_grouping(a.c0, b.c3, c.c2);
    lemma_grouping(a.c0, b.c3, c.c3);
    lemma_grouping(a.c1, b.c0, c.c0);
    lemma_grouping(a.c1, b.c0, c.c1);
    lemma_grouping(a.c1, b.c0, c.c2);
    lemma_grouping(a.c1, b.c0, c.c3);
    lemma_grouping(a.c1, b.c1, c.c0);
    lemma_grouping(a.c1, b.c1, c.c1);
    lemma_grouping(a.c1, b.c1, c.c2);
    lemma_grouping(a.c1, b.c1, c.c3);
    lemma_grouping(a.c1, b.c2, c.c0);
    lemma_grouping(a.c1, b.c2, c.c1);
    lemma_grouping(a.c1, b.c2, c.c2);
    lemma_grouping(a.c1, b.c2, c.c3);
    lemma_grouping(a.c1, b.c3, c.c0);
    lemma_grouping(a.c1, b.c3, c.c1);
    lemma_grouping(a.c1, b.c3, c.c2);
    lemma_grouping(a.c1, b.c3, c.c3);
    lemma_grouping(a.c2, b.c0, c.c0);
    lemma_grouping(a.c2, b.c0, c.c1);
    lemma_grouping(a.c2, b.c0, c.c2);
    lemma_grouping(a.c2, b.c0, c.c3);
    lemma_grouping(a.c2, b.c1, c.c0);
    lemma_grouping(a.c2, b.c1, c.c1);
    lemma_grouping(a.c2, b.c1, c.c2);
    lemma_grouping(a.c2, b.c1, c.c3);
    lemma_grouping(a.c2, b.c2, c.c0);
    lemma_grouping(a.c2, b.c2, c.c1);
    lemma_grouping(a.c2, b.c2, c.c2);
    lemma_grouping(a.c2, b.c2, c.c3);
    lemma_grouping(a.c2, b.c3, c.c0);
    lemma_grouping(a.c2, b.c3, c.c1);
    lemma_grouping(a.c2, b.c3, c.c2);
    lemma_grouping(a.c2, b.c3, c.c3);
    lemma_grouping(a.c3, b.c0, c.c0);
    lemma_grouping(a.c3, b.c0, c.c1);
    lemma_grouping(a.c3, b.c0, c.c2);
    lemma_grouping(a.c3, b.c0, c.c3);
    lemma_grouping(a.c3, b.c1, c.c0);
    lemma_grouping(a.c3, b.c1, c.c1);
    lemma_grouping(a.c3, b.c1, c.c2);
    lemma_grouping(a.c3, b.c1, c.c3);
    lemma_grouping(a.c3, b.c2, c.c0);
    lemma_grouping(a.c3, b.c2, c.c1);
    lemma_grouping(a.c3, b.c2, c.c2);
    lemma_grouping(a.c3, b.c2, c.c3);
    lemma_grouping(a.c3, b.c3, c.c0);
    lemma_grouping(a.c3, b.c3, c.c1);
    lemma_grouping(a.c3, b.c3, c.c2);
    lemma_grouping(a.c3, b.c3, c.c3);
    lemma_expand_right(a.c0 * b.c0, a.c1 * b.c3, a.c2 * b.c2, a.c3 * b.c1, 11, 11, 11, c.c0);
    lemma_expand_right(a.c0 * b.c0, a.c1 * b.c3, a.c2 * b.c2, a.c3 * b.c1, 11, 11, 11, c.c1);
    lemma_expand_right(a.c0 * b.c0, a.c1 * b.c3, a.c2 * b.c2, a.c3 * b.c1, 11, 11, 11, c.c2);
    lemma_expand_right(a.c0 * b.c0, a.c1 * b.c3, a.c2 * b.c2, a.c3 * b.c1, 11, 11, 11, c.c3);
    lemma_expand_right(a.c0 * b.c1, a.c1 * b.c0, a.c2 * b.c3, a.c3 * b.c2, 1, 11, 11, c.c0);
    lemma_expand_right(a.c0 * b.c1, a.c1 * b.c0, a.c2 * b.c3, a.c3 * b.c2, 1, 11, 11, c.c1);
    lemma_expand_right(a.c0 * b.c1, a.c1 * b.c0, a.c2 * b.c3, a.c3 * b.c2, 1, 11, 11, c.c2);
    lemma_expand_right(a.c0 * b.c1, a.c1 * b.c0, a.c2 * b.c3, a.c3 * b.c2, 1, 11, 11, c.c3);
    lemma_expand_right(a.c0 * b.c2, a.c1 * b.c1, a.c2 * b.c0, a.c3 * b.c3, 1, 1, 11, c.c0);
    lemma_expand_right(a.c0 * b.c2, a.c1 * b.c1, a.c2 * b.c0, a.c3 * b.c3, 1, 1, 11, c.c1);
    lemma_expand_right(a.c0 * b.c2, a.c1 * b.c1, a.c2 * b.c0, a.c3 * b.c3, 1, 1, 11, c.c2);
    lemma_expand_right(a.c0 * b.c2, a.c1 * b.c1, a.c2 * b.c0, a.c3 * b.c3, 1, 1, 11, c.c3);
    lemma_expand_right(a.c0 * b.c3, a.c1 * b.c2, a.c2 * b.c1, a.c3 * b.c0, 1, 1, 1, c.c0);
    lemma_expand_right(a.c0 * b.c3, a.c1 * b.c2, a.c2 * b.c1, a.c3 * b.c0, 1, 1, 1, c.c1);
    lemma_expand_right(a.c0 * b.c3, a.c1 * b.c2, a.c2 * b.c1, a.c3 * b.c0, 1, 1, 1, c.c2);
    lemma_expand_right(a.c0 * b.c3, a.c1 * b.c2, a.c2 * b.c1, a.c3 * b.c0, 1, 1, 1, c.c3);
    lemma_expand_left(a.c0, b.c0 * c.c0, b.c1 * c.c3, b.c2 * c.c2, b.c3 * c.c1, 11, 11, 11);
    lemma_expand_left(a.c1, b.c0 * c.c0, b.c1 * c.c3, b.c2 * c.c2, b.c3 * c.c1, 11, 11, 11);
    lemma_expand_left(a.c2, b.c0 * c.c0, b.c1 * c.c3, b.c2 * c.c2, b.c3 * c.c1, 11, 11, 11);
    lemma_expand_left(a.c3, b.c0 * c.c0, b.c1 * c.c3, b.c2 * c.c2, b.c3 * c.c1, 11, 11, 11);
    lemma_expand_left(a.c0, b.c0 * c.c1, b.c1 * c.c0, b.c2 * c.c3, b.c3 * c.c2, 1, 11, 11);
    lemma_expand_left(a.c1, b.c0 * c.c1, b.c1 * c.c0, b.c2 * c.c3, b.c3 * c.c2, 1, 11, 11);
    lemma_expand_left(a.c2, b.c0 * c.c1, b.c1 * c.c0, b.c2 * c.c3, b.c3 * c.c2, 1, 11, 11);
    lemma_expand_left(a.c3, b.c0 * c.c1, b.c1 * c.c0, b.c2 * c.c3, b.c3 * c.c2, 1, 11, 11);
    lemma_expand_left(a.c0, b.c0 * c.c2, b.c1 * c.c1, b.c2 * c.c0, b.c3 * c.c3, 1, 1, 11);
    lemma_expand_left(a.c1, b.c0 * c.c2, b.c1 * c.c1, b.c2 * c.c0, b.c3 * c.c3, 1, 1, 11);
    lemma_expand_left(a.c2, b.c0 * c.c2, b.c1 * c.c1, b.c2 * c.c0, b.c3 * c.c3, 1, 1, 11);
    lemma_expand_left(a.c3, b.c0 * c.c2, b.c1 * c.c1, b.c2 * c.c0, b.c3 * c.c3, 1, 1, 11);
    lemma_expand_left(a.c0, b.c0 * c.c3, b.c1 * c.c2, b.c2 * c.c1, b.c3 * c.c0, 1, 1, 1);
    lemma_expand_left(a.c1, b.c0 * c.c3, b.c1 * c.c2, b.c2 * c.c1, b.c3 * c.c0, 1, 1, 1);
    lemma_expand_left(a.c2, b.c0 * c.c3, b.c1 * c.c2, b.c2 * c.c1, b.c3 * c.c0, 1, 1, 1);
    lemma_expand_left(a.c3, b.c0 * c.c3, b.c1 * c.c2, b.c2 * c.c1, b.c3 * c.c0, 1, 1, 1);
}

/// The product of three elements does not depend on how they are grouped.
pub proof fn lemma_mul_associative(a: Ext, b: Ext, c: Ext)
    ensures
        ext_mul(ext_mul(a, b), c) == ext_mul(a, ext_mul(b, c)),
{
    let ab = ext_mul(a, b);
    let bc = ext_mul(b, c);
    let left = ext_mul(ab, c);
    let right = ext_mul(a, bc);
    lemma_mul_is_raw(a, b);
    lemma_mul_is_raw(b, c);
    lemma_mul_is_raw(ab, c);
    lemma_mul_is_raw(a, bc);
    lemma_raw_congruent_left(ab, raw_mul(a, b), c);
    lemma_raw_congruent_left(bc, raw_mul(b, c), a);
    lemma_raw_commutative(bc, a);
    lemma_raw_commutative(raw_mul(b, c), a);
    lemma_raw_associative(a, b, c);
    let l1 = raw_mul(ab, c);
    let l2 = raw_mul(raw_mul(a, b), c);
    let r1 = raw_mul(a, bc);
    lemma_congruent_chain(left.c0, l1.c0, l2.c0);
    lemma_congruent_chain(left.c1, l1.c1, l2.c1);
    lemma_congruent_chain(left.c2, l1.c2, l2.c2);
    lemma_congruent_chain(left.c3, l1.c3, l2.c3);
    lemma_congruent_chain(right.c0, r1.c0, l2.c0);
    lemma_congruent_chain(right.c1, r1.c1, l2.c1);
    lemma_congruent_chain(right.c2, r1.c2, l2.c2);
    lemma_congruent_chain(right.c3, r1.c3, l2.c3);
    lemma_congruent_chain(l2.c0, right.c0, right.c0);
    lemma_congruent_chain(l2.c1, right.c1, right.c1);
    lemma_congruent_chain(l2.c2, right.c2, right.c2);
    lemma_congruent_chain(l2.c3, right.c3, right.c3);
    lemma_congruent_chain(left.c0, l2.c0, right.c0);
    lemma_congruent_chain(left.c1, l2.c1, right.c1);
    lemma_congruent_chain(left.c2, l2.c2, right.c2);
    lemma_congruent_chain(left.c3, l2.c3, right.c3);
    lemma_congruent_canonical(left.c0, right.c0);
    lemma_congruent_canonical(left.c1, right.c1);
    lemma_congruent_canonical(left.c2, right.c2);
    lemma_congruent_canonical(left.c3, right.c3);
}

/// A factor that has an inverse can be cancelled: two elements that give
/// the same product with it are the same element.
pub proof fn lemma_cancel(u: Ext, inverse: Ext, v: Ext, w: Ext)
    requires
        ext_mul(inverse, u) == ext_one(),
        ext_mul(u, v) == ext_mul(u, w),
        ext_canonical(v),
        ext_canonical(w),
    ensures
        v == w,
{
    lemma_mul_one_left(v);
    lemma_mul_one_left(w);
    lemma_mul_associative(inverse, u, v);
    lemma_mul_associative(inverse, u, w);
}

} // verus!
