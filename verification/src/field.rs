//! The base field: integers modulo the BabyBear prime `2^31 - 2^27 + 1`.
//!
//! The mathematical model of an element is the `int` in `[0, P)` that
//! represents it. All arithmetic is stated over that model.

use vstd::prelude::*;
use vstd::arithmetic::div_mod::*;

verus! {

/// The BabyBear prime.
pub const P: u32 = 2013265921;

/// The prime as a mathematical integer.
pub open spec fn modulus() -> int {
    2013265921
}

/// Whether `a` is the canonical representative of its residue class.
pub open spec fn is_canonical(a: int) -> bool {
    0 <= a < modulus()
}

pub open spec fn fp_add(a: int, b: int) -> int {
    (a + b) % modulus()
}

pub open spec fn fp_sub(a: int, b: int) -> int {
    (a - b) % modulus()
}

pub open spec fn fp_mul(a: int, b: int) -> int {
    (a * b) % modulus()
}

pub open spec fn fp_neg(a: int) -> int {
    (-a) % modulus()
}

/// `a` raised to the power `n`, as `n` successive multiplications.
pub open spec fn fp_pow(a: int, n: nat) -> int
    decreases n,
{
    if n == 0 {
        1
    } else {
        fp_mul(fp_pow(a, (n - 1) as nat), a)
    }
}

/// The inverse of `a`: `a` raised to the power of the prime less two.
pub open spec fn fp_inv(a: int) -> int {
    fp_pow(a, (modulus() - 2) as nat)
}

/// An element of the base field, held as its canonical representative.
#[derive(Clone, Copy, Debug, PartialEq, Eq, Structural)]
pub struct Fe {
    pub(crate) value: u32,
}

impl View for Fe {
    type V = int;

    closed spec fn view(&self) -> int {
        self.value as int
    }
}

impl Fe {
    /// Every element is stored reduced.
    #[verifier::type_invariant]
    pub open spec fn well_formed(self) -> bool {
        is_canonical(self@)
    }

    /// Two elements with the same model are the same element.
    pub proof fn lemma_view_injective(a: Fe, b: Fe)
        ensures
            a@ == b@ <==> a == b,
    {
    }

    /// The element that `v` represents, reduced modulo the prime.
    pub fn new(v: u32) -> (r: Fe)
        ensures
            r@ == (v as int) % modulus(),
            is_canonical(r@),
    {
        Fe { value: v % P }
    }

    /// The element zero.
    pub closed spec fn spec_zero() -> Fe {
        Fe { value: 0 }
    }

    /// The element one.
    pub closed spec fn spec_one() -> Fe {
        Fe { value: 1 }
    }

    /// The models of zero and one are the integers zero and one.
    pub proof fn lemma_constants()
        ensures
            Fe::spec_zero()@ == 0,
            Fe::spec_one()@ == 1,
    {
    }

    pub fn zero() -> (r: Fe)
        ensures
            r == Fe::spec_zero(),
            r@ == 0,
    {
        Fe { value: 0 }
    }

    pub fn one() -> (r: Fe)
        ensures
            r == Fe::spec_one(),
            r@ == 1,
    {
        Fe { value: 1 }
    }

    /// The canonical representative.
    pub fn value(self) -> (r: u32)
        ensures
            r as int == self@,
            is_canonical(self@),
    {
        proof {
            use_type_invariant(&self);
        }
        self.value
    }

    pub fn is_zero(self) -> (r: bool)
        ensures
            r == (self@ == 0),
    {
        self.value == 0
    }

    pub fn equals(self, other: Fe) -> (r: bool)
        ensures
            r == (self@ == other@),
    {
        self.value == other.value
    }

    pub fn add(self, rhs: Fe) -> (r: Fe)
        ensures
            r@ == fp_add(self@, rhs@),
    {
        proof {
            use_type_invariant(&self);
            use_type_invariant(&rhs);
        }
        let s: u64 = self.value as u64 + rhs.value as u64;
        Fe { value: (s % (P as u64)) as u32 }
    }

    pub fn sub(self, rhs: Fe) -> (r: Fe)
        ensures
            r@ == fp_sub(self@, rhs@),
    {
        proof {
            use_type_invariant(&self);
            use_type_invariant(&rhs);
            lemma_mod_add_multiples_vanish(self@ - rhs@, modulus());
        }
        let s: u64 = self.value as u64 + P as u64 - rhs.value as u64;
        Fe { value: (s % (P as u64)) as u32 }
    }

    pub fn neg(self) -> (r: Fe)
        ensures
            r@ == fp_neg(self@),
    {
        proof {
            use_type_invariant(&self);
            lemma_mod_add_multiples_vanish(-self@, modulus());
        }
        let s: u32 = P - self.value;
        Fe { value: s % P }
    }

    pub fn mul(self, rhs: Fe) -> (r: Fe)
        ensures
            r@ == fp_mul(self@, rhs@),
    {
        proof {
            use_type_invariant(&self);
            use_type_invariant(&rhs);
            lemma_product_bound(self@, rhs@);
        }
        let s: u64 = (self.value as u64) * (rhs.value as u64);
        Fe { value: (s % (P as u64)) as u32 }
    }
}

/// The product of two canonical representatives fits in 62 bits.
pub proof fn lemma_product_bound(a: int, b: int)
    requires
        is_canonical(a),
        is_canonical(b),
    ensures
        0 <= a * b <= 4053239664633446400,
{
    assert(0 <= a * b <= 2013265920 * 2013265920) by (nonlinear_arith)
        requires
            0 <= a <= 2013265920,
            0 <= b <= 2013265920,
    ;
}

/// The models of a sequence of elements.
pub open spec fn fe_seq(s: Seq<Fe>) -> Seq<int> {
    s.map_values(|x: Fe| x@)
}

} // verus!
