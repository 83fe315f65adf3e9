//! The challenge field: the quartic extension `F[X] / (X^4 - 11)` of the
//! base field, in the monomial basis `1, X, X^2, X^3`.
//!
//! The mathematical model of an element is the [`Ext`] of its four
//! coefficients. Addition, subtraction and multiplication are computed here
//! and proved against that model; inversion is left to `p3-field`.

use vstd::prelude::*;
use vstd::arithmetic::div_mod::*;
use crate::field::{fp_add, fp_mul, fp_neg, fp_sub, is_canonical, lemma_product_bound, modulus, Fe, P};
use p3_baby_bear::BabyBear;
use p3_field::extension::BinomialExtensionField;
use p3_field::{BasedVectorSpace, Field, PrimeField32};

verus! {

/// The number of base coefficients of one extension element.
pub const D: usize = 4;

/// The constant `W` of the defining polynomial `X^4 - W`.
pub const W: u32 = 11;

/// The coefficients of an extension element, lowest degree first.
pub struct Ext {
    pub c0: int,
    pub c1: int,
    pub c2: int,
    pub c3: int,
}

pub open spec fn ext_zero() -> Ext {
    Ext { c0: 0, c1: 0, c2: 0, c3: 0 }
}

pub open spec fn ext_one() -> Ext {
    Ext { c0: 1, c1: 0, c2: 0, c3: 0 }
}

/// The base element `a`, seen in the extension.
pub open spec fn ext_from_base(a: int) -> Ext {
    Ext { c0: a, c1: 0, c2: 0, c3: 0 }
}

pub open spec fn ext_canonical(a: Ext) -> bool {
    is_canonical(a.c0) && is_canonical(a.c1) && is_canonical(a.c2) && is_canonical(a.c3)
}

pub open spec fn ext_add(a: Ext, b: Ext) -> Ext {
    Ext {
        c0: fp_add(a.c0, b.c0),
        c1: fp_add(a.c1, b.c1),
        c2: fp_add(a.c2, b.c2),
        c3: fp_add(a.c3, b.c3),
    }
}

pub open spec fn ext_sub(a: Ext, b: Ext) -> Ext {
    Ext {
        c0: fp_sub(a.c0, b.c0),
        c1: fp_sub(a.c1, b.c1),
        c2: fp_sub(a.c2, b.c2),
        c3: fp_sub(a.c3, b.c3),
    }
}

pub open spec fn ext_neg(a: Ext) -> Ext {
    Ext { c0: fp_neg(a.c0), c1: fp_neg(a.c1), c2: fp_neg(a.c2), c3: fp_neg(a.c3) }
}

/// The extension element `a` times the base element `k`.
pub open spec fn ext_scale(a: Ext, k: int) -> Ext {
    Ext { c0: fp_mul(a.c0, k), c1: fp_mul(a.c1, k), c2: fp_mul(a.c2, k), c3: fp_mul(a.c3, k) }
}

/// The product of two polynomials of degree below four, reduced by
/// `X^4 = 11`.
pub open spec fn ext_mul(a: Ext, b: Ext) -> Ext {
    Ext {
        c0: (a.c0 * b.c0 + 11 * (a.c1 * b.c3 + a.c2 * b.c2 + a.c3 * b.c1)) % modulus(),
        c1: (a.c0 * b.c1 + a.c1 * b.c0 + 11 * (a.c2 * b.c3 + a.c3 * b.c2)) % modulus(),
        c2: (a.c0 * b.c2 + a.c1 * b.c1 + a.c2 * b.c0 + 11 * (a.c3 * b.c3)) % modulus(),
        c3: (a.c0 * b.c3 + a.c1 * b.c2 + a.c2 * b.c1 + a.c3 * b.c0) % modulus(),
    }
}

/// `base` raised to the power `n`, as `n` successive multiplications.
pub open spec fn ext_pow(base: Ext, n: nat) -> Ext
    decreases n,
{
    if n == 0 {
        ext_one()
    } else {
        ext_mul(ext_pow(base, (n - 1) as nat), base)
    }
}

/// The `i`-th element of the monomial basis, `X^i`.
pub open spec fn ext_monomial(i: int) -> Ext {
    Ext {
        c0: if i == 0 { 1 } else { 0 },
        c1: if i == 1 { 1 } else { 0 },
        c2: if i == 2 { 1 } else { 0 },
        c3: if i == 3 { 1 } else { 0 },
    }
}

/// Reducing the part that is multiplied by eleven beforehand does not change
/// the residue.
proof fn lemma_reduce_high_part(x: int, t: int)
    ensures
        (x + 11 * (t % modulus())) % modulus() == (x + 11 * t) % modulus(),
{
    let p = modulus();
    lemma_fundamental_div_mod(t, p);
    let k = 11 * (t / p);
    assert(x + 11 * t == p * k + (x + 11 * (t % p))) by (nonlinear_arith)
        requires
            t == p * (t / p) + t % p,
            k == 11 * (t / p),
    ;
    lemma_mod_multiples_vanish(k, x + 11 * (t % p), p);
}

/// One times an element is that element.
pub proof fn lemma_mul_one_left(x: Ext)
    requires
        ext_canonical(x),
    ensures
        ext_mul(ext_one(), x) == x,
{
    assert(1 * x.c0 + 11 * (0 * x.c3 + 0 * x.c2 + 0 * x.c1) == x.c0);
    assert(1 * x.c1 + 0 * x.c0 + 11 * (0 * x.c3 + 0 * x.c2) == x.c1);
    assert(1 * x.c2 + 0 * x.c1 + 0 * x.c0 + 11 * (0 * x.c3) == x.c2);
    assert(1 * x.c3 + 0 * x.c2 + 0 * x.c1 + 0 * x.c0 == x.c3);
    lemma_small_mod(x.c0 as nat, modulus() as nat);
    lemma_small_mod(x.c1 as nat, modulus() as nat);
    lemma_small_mod(x.c2 as nat, modulus() as nat);
    lemma_small_mod(x.c3 as nat, modulus() as nat);
}

/// An element of the challenge field.
#[derive(Clone, Copy, Debug, PartialEq, Eq, Structural)]
pub struct Ef {
    pub(crate) c0: Fe,
    pub(crate) c1: Fe,
    pub(crate) c2: Fe,
    pub(crate) c3: Fe,
}

impl View for Ef {
    type V = Ext;

    closed spec fn view(&self) -> Ext {
        Ext { c0: self.c0@, c1: self.c1@, c2: self.c2@, c3: self.c3@ }
    }
}

impl Ef {
    /// Every coefficient is stored reduced.
    #[verifier::type_invariant]
    pub open spec fn well_formed(self) -> bool {
        ext_canonical(self@)
    }

    /// Two elements with the same model are the same element.
    pub proof fn lemma_view_injective(a: Ef, b: Ef)
        ensures
            a@ == b@ <==> a == b,
    {
        Fe::lemma_view_injective(a.c0, b.c0);
        Fe::lemma_view_injective(a.c1, b.c1);
        Fe::lemma_view_injective(a.c2, b.c2);
        Fe::lemma_view_injective(a.c3, b.c3);
    }

    /// The element with the given coefficients, lowest degree first.
    pub fn new(c0: Fe, c1: Fe, c2: Fe, c3: Fe) -> (r: Ef)
        ensures
            r@ == (Ext { c0: c0@, c1: c1@, c2: c2@, c3: c3@ }),
    {
        proof {
            use_type_invariant(&c0);
            use_type_invariant(&c1);
            use_type_invariant(&c2);
            use_type_invariant(&c3);
        }
        Ef { c0, c1, c2, c3 }
    }

    /// The element whose coefficients the four integers represent.
    pub fn from_array(c: [u32; 4]) -> (r: Ef)
        ensures
            r@ == (Ext {
                c0: (c[0] as int) % modulus(),
                c1: (c[1] as int) % modulus(),
                c2: (c[2] as int) % modulus(),
                c3: (c[3] as int) % modulus(),
            }),
    {
        Ef::new(Fe::new(c[0]), Fe::new(c[1]), Fe::new(c[2]), Fe::new(c[3]))
    }

    /// The canonical representatives of the four coefficients.
    pub fn to_array(self) -> (r: [u32; 4])
        ensures
            ext_canonical(self@),
            r[0] as int == self@.c0,
            r[1] as int == self@.c1,
            r[2] as int == self@.c2,
            r[3] as int == self@.c3,
    {
        [self.c0.value(), self.c1.value(), self.c2.value(), self.c3.value()]
    }

    /// The coefficient of `X^i`.
    pub fn coefficient(self, i: usize) -> (r: Fe)
        requires
            i < 4,
        ensures
            i == 0 ==> r@ == self@.c0,
            i == 1 ==> r@ == self@.c1,
            i == 2 ==> r@ == self@.c2,
            i == 3 ==> r@ == self@.c3,
    {
        if i == 0 {
            self.c0
        } else if i == 1 {
            self.c1
        } else if i == 2 {
            self.c2
        } else {
            self.c3
        }
    }

    pub fn zero() -> (r: Ef)
        ensures
            r@ == ext_zero(),
    {
        Ef::new(Fe::zero(), Fe::zero(), Fe::zero(), Fe::zero())
    }

    pub fn one() -> (r: Ef)
        ensures
            r@ == ext_one(),
    {
        Ef::new(Fe::one(), Fe::zero(), Fe::zero(), Fe::zero())
    }

    /// The base element `a`, seen in the extension.
    pub fn from_base(a: Fe) -> (r: Ef)
        ensures
            r@ == ext_from_base(a@),
    {
        Ef::new(a, Fe::zero(), Fe::zero(), Fe::zero())
    }

    /// The `i`-th element of the monomial basis.
    pub fn monomial(i: usize) -> (r: Ef)
        requires
            i < 4,
        ensures
            r@ == ext_monomial(i as int),
    {
        let o = Fe::one();
        let z = Fe::zero();
        if i == 0 {
            Ef::new(o, z, z, z)
        } else if i == 1 {
            Ef::new(z, o, z, z)
        } else if i == 2 {
            Ef::new(z, z, o, z)
        } else {
            Ef::new(z, z, z, o)
        }
    }

    pub fn is_zero(self) -> (r: bool)
        ensures
            r == (self@ == ext_zero()),
    {
        self.c0.is_zero() && self.c1.is_zero() && self.c2.is_zero() && self.c3.is_zero()
    }

    pub fn equals(self, other: Ef) -> (r: bool)
        ensures
            r == (self@ == other@),
    {
        self.c0.equals(other.c0) && self.c1.equals(other.c1) && self.c2.equals(other.c2)
            && self.c3.equals(other.c3)
    }

    pub fn add(self, rhs: Ef) -> (r: Ef)
        ensures
            r@ == ext_add(self@, rhs@),
    {
        Ef::new(
            self.c0.add(rhs.c0),
            self.c1.add(rhs.c1),
            self.c2.add(rhs.c2),
            self.c3.add(rhs.c3),
        )
    }

    pub fn sub(self, rhs: Ef) -> (r: Ef)
        ensures
            r@ == ext_sub(self@, rhs@),
    {
        Ef::new(
            self.c0.sub(rhs.c0),
            self.c1.sub(rhs.c1),
            self.c2.sub(rhs.c2),
            self.c3.sub(rhs.c3),
        )
    }

    pub fn neg(self) -> (r: Ef)
        ensures
            r@ == ext_neg(self@),
    {
        Ef::new(self.c0.neg(), self.c1.neg(), self.c2.neg(), self.c3.neg())
    }

    /// This element times the base element `k`.
    pub fn scale(self, k: Fe) -> (r: Ef)
        ensures
            r@ == ext_scale(self@, k@),
    {
        Ef::new(self.c0.mul(k), self.c1.mul(k), self.c2.mul(k), self.c3.mul(k))
    }

    pub fn mul(self, rhs: Ef) -> (r: Ef)
        ensures
            r@ == ext_mul(self@, rhs@),
    {
        let a = self.to_array();
        let b = rhs.to_array();
        let p: u64 = P as u64;
        let w: u64 = W as u64;
        let a0: u64 = a[0] as u64;
        let a1: u64 = a[1] as u64;
        let a2: u64 = a[2] as u64;
        let a3: u64 = a[3] as u64;
        let b0: u64 = b[0] as u64;
        let b1: u64 = b[1] as u64;
        let b2: u64 = b[2] as u64;
        let b3: u64 = b[3] as u64;
        proof {
            lemma_product_bound(a0 as int, b0 as int);
            lemma_product_bound(a0 as int, b1 as int);
            lemma_product_bound(a0 as int, b2 as int);
            lemma_product_bound(a0 as int, b3 as int);
            lemma_product_bound(a1 as int, b0 as int);
            lemma_product_bound(a1 as int, b1 as int);
            lemma_product_bound(a1 as int, b2 as int);
            lemma_product_bound(a1 as int, b3 as int);
            lemma_product_bound(a2 as int, b0 as int);
            lemma_product_bound(a2 as int, b1 as int);
            lemma_product_bound(a2 as int, b2 as int);
            lemma_product_bound(a2 as int, b3 as int);
            lemma_product_bound(a3 as int, b0 as int);
            lemma_product_bound(a3 as int, b1 as int);
            lemma_product_bound(a3 as int, b2 as int);
            lemma_product_bound(a3 as int, b3 as int);
        }
        let h0: u64 = (a1 * b3 + a2 * b2 + a3 * b1) % p;
        let h1: u64 = (a2 * b3 + a3 * b2) % p;
        let h2: u64 = (a3 * b3) % p;
        let r0: u64 = (a0 * b0 + w * h0) % p;
        let r1: u64 = (a0 * b1 + a1 * b0 + w * h1) % p;
        let r2: u64 = (a0 * b2 + a1 * b1 + a2 * b0 + w * h2) % p;
        let r3: u64 = (a0 * b3 + a1 * b2 + a2 * b1 + a3 * b0) % p;
        proof {
            lemma_reduce_high_part(a0 * b0, a1 * b3 + a2 * b2 + a3 * b1);
            lemma_reduce_high_part(a0 * b1 + a1 * b0, a2 * b3 + a3 * b2);
            lemma_reduce_high_part(a0 * b2 + a1 * b1 + a2 * b0, a3 * b3);
            lemma_small_mod(r0 as nat, modulus() as nat);
            lemma_small_mod(r1 as nat, modulus() as nat);
            lemma_small_mod(r2 as nat, modulus() as nat);
            lemma_small_mod(r3 as nat, modulus() as nat);
        }
        Ef::from_array([r0 as u32, r1 as u32, r2 as u32, r3 as u32])
    }

    /// The inverse of this element, or `None` for zero.
    pub fn try_inverse(self) -> (r: Option<Ef>)
        ensures
            r is None <==> self@ == ext_zero(),
            r matches Some(y) ==> y@ == quartic_inverse(self@) && ext_mul(self@, y@) == ext_one(),
    {
        quartic_try_inverse(self)
    }
}

/// The models of a sequence of elements.
pub open spec fn ef_seq(s: Seq<Ef>) -> Seq<Ext> {
    s.map_values(|x: Ef| x@)
}

/// What `Field::try_inverse` of `p3-field` returns for an element of
/// `BinomialExtensionField<BabyBear, 4>` that is not zero: its inverse.
pub uninterp spec fn quartic_inverse(x: Ext) -> Ext;

/// The inverse of `x`, or zero if `x` is zero.
pub open spec fn inverse_or_zero(x: Ext) -> Ext {
    if x == ext_zero() {
        ext_zero()
    } else {
        quartic_inverse(x)
    }
}

/// Calls `Field::try_inverse` of `p3-field` on the element of
/// `BinomialExtensionField<BabyBear, 4>` with the same coefficients. Stated
/// of it: zero, and only zero, has no inverse; the inverse is a function of
/// the element; and the inverse multiplied by the element gives one.
#[verifier::external_body]
fn quartic_try_inverse(x: Ef) -> (r: Option<Ef>)
    ensures
        r is None <==> x@ == ext_zero(),
        r matches Some(y) ==> y@ == quartic_inverse(x@) && ext_mul(x@, y@) == ext_one(),
{
    let v = BinomialExtensionField::<BabyBear, 4>::new(x.to_array().map(BabyBear::new));
    v.try_inverse().map(|y| {
        let c: &[BabyBear] = y.as_basis_coefficients_slice();
        Ef::from_array([
            c[0].as_canonical_u32(),
            c[1].as_canonical_u32(),
            c[2].as_canonical_u32(),
            c[3].as_canonical_u32(),
        ])
    })
}

/// Calls `batch_multiplicative_inverse` of `p3-field` on the elements of
/// `BinomialExtensionField<BabyBear, 4>` with the same coefficients. It
/// panics on a zero, so none is admitted. Stated of it: the result is as
/// long as the input, and each entry is the inverse of the input at the
/// same position, the same that `Field::try_inverse` returns for it, so
/// that their product is one.
#[verifier::external_body]
pub(crate) fn quartic_batch_inverse(xs: &Vec<Ef>) -> (r: Vec<Ef>)
    requires
        forall|i: int| 0 <= i < xs.len() ==> (#[trigger] xs[i])@ != ext_zero(),
    ensures
        r.len() == xs.len(),
        forall|i: int|
            0 <= i < xs.len() ==> (#[trigger] r[i])@ == quartic_inverse(xs[i]@) && ext_mul(
                xs[i]@,
                r[i]@,
            ) == ext_one(),
{
    let v: Vec<BinomialExtensionField<BabyBear, 4>> = xs
        .iter()
        .map(|x| BinomialExtensionField::new(x.to_array().map(BabyBear::new)))
        .collect();
    let mut out: Vec<Ef> = Vec::with_capacity(v.len());
    for y in p3_field::batch_multiplicative_inverse(&v) {
        let c: &[BabyBear] = y.as_basis_coefficients_slice();
        out.push(Ef::from_array([
            c[0].as_canonical_u32(),
            c[1].as_canonical_u32(),
            c[2].as_canonical_u32(),
            c[3].as_canonical_u32(),
        ]));
    }
    out
}

} // verus!
