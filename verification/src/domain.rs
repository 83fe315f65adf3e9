//! Trace domains: cosets of the subgroups of two-power order of the
//! multiplicative group of the base field. What needs the generators of
//! those subgroups, or a division, is computed by `p3-commit`.

use vstd::prelude::*;
use vstd::arithmetic::power2::{lemma_pow2_strictly_increases, lemma_pow2_unfold, pow2};
use crate::extension::{ext_mul, ext_one, ext_pow, ext_scale, ext_sub, ext_zero, Ef, Ext};
use crate::field::{fp_inv, fp_mul, Fe};
use p3_baby_bear::BabyBear;
use p3_commit::PolynomialSpace;
use p3_field::coset::TwoAdicMultiplicativeCoset;
use p3_field::extension::BinomialExtensionField;
use p3_field::{BasedVectorSpace, PrimeField32};

verus! {

/// The largest `k` for which the field has a subgroup of order `2^k`.
pub const TWO_ADICITY: usize = 27;

/// The generator of the multiplicative group of the field by which a
/// disjoint domain is shifted.
pub const GENERATOR: u32 = 31;

/// The coset `shift * H`, where `H` is the subgroup of order `2^log_n`.
#[derive(Clone, Copy, Debug, PartialEq, Eq, Structural)]
pub struct Domain {
    pub(crate) log_n: usize,
    pub(crate) shift: Fe,
}

/// The values at one point of the selector polynomials of a domain.
#[derive(Clone, Copy, Debug, PartialEq, Eq, Structural)]
pub struct LagrangeSelectors {
    pub is_first_row: Ef,
    pub is_last_row: Ef,
    pub is_transition: Ef,
    pub inv_zeroifier: Ef,
}

/// The models of the four selector values.
pub struct SelectorValues {
    pub is_first_row: Ext,
    pub is_last_row: Ext,
    pub is_transition: Ext,
    pub inv_zeroifier: Ext,
}

impl View for LagrangeSelectors {
    type V = SelectorValues;

    open spec fn view(&self) -> SelectorValues {
        SelectorValues {
            is_first_row: self.is_first_row@,
            is_last_row: self.is_last_row@,
            is_transition: self.is_transition@,
            inv_zeroifier: self.inv_zeroifier@,
        }
    }
}

/// The values on every point of a coset of the selector polynomials of a
/// domain.
#[derive(Clone, Debug)]
pub struct CosetSelectors {
    pub is_first_row: Vec<Fe>,
    pub is_last_row: Vec<Fe>,
    pub is_transition: Vec<Fe>,
    pub inv_zeroifier: Vec<Fe>,
}

/// The models of the selector values on a coset.
pub struct CosetSelectorValues {
    pub is_first_row: Seq<int>,
    pub is_last_row: Seq<int>,
    pub is_transition: Seq<int>,
    pub inv_zeroifier: Seq<int>,
}

impl View for CosetSelectors {
    type V = CosetSelectorValues;

    open spec fn view(&self) -> CosetSelectorValues {
        CosetSelectorValues {
            is_first_row: crate::field::fe_seq(self.is_first_row@),
            is_last_row: crate::field::fe_seq(self.is_last_row@),
            is_transition: crate::field::fe_seq(self.is_transition@),
            inv_zeroifier: crate::field::fe_seq(self.inv_zeroifier@),
        }
    }
}

/// What `PolynomialSpace::selectors_at_point` of `p3-commit` returns for the
/// coset with the given logarithm of its size and shift, at a point.
pub uninterp spec fn selectors_at_point_value(log_n: nat, shift: int, point: Ext) -> SelectorValues;

/// The shift of chunk `i` among the `num_chunks` domains that
/// `PolynomialSpace::split_domains` of `p3-commit` returns for the coset
/// with the given logarithm of its size and shift.
pub uninterp spec fn split_domains_shift(log_n: nat, shift: int, num_chunks: nat, i: int) -> int;

/// What `PolynomialSpace::selectors_on_coset` of `p3-commit` returns for the
/// subgroup of order `2^log_n` on the coset with the given logarithm of its
/// size and shift.
pub uninterp spec fn selectors_on_coset_value(
    log_n: nat,
    coset_log_n: nat,
    coset_shift: int,
) -> CosetSelectorValues;

/// The number of bits that it takes to count up to `n`: the least `k` with
/// `n <= 2^k`.
pub open spec fn log2_ceil(n: nat) -> nat
    decreases n,
{
    if n <= 1 {
        0
    } else {
        1 + log2_ceil((n + 1) / 2)
    }
}

/// The least `k` with `n <= 2^k` is the only `l` with `n <= 2^l` for which
/// `2^(l - 1) < n`, if `l` is not zero.
pub proof fn lemma_log2_ceil_unique(n: nat, l: nat)
    requires
        pow2(l) >= n,
        l == 0 || pow2((l - 1) as nat) < n,
    ensures
        log2_ceil(n) == l,
{
    lemma_log2_ceil_bounds(n);
    let k = log2_ceil(n);
    if l < k {
        if l < k - 1 {
            lemma_pow2_strictly_increases(l, (k - 1) as nat);
        }
    } else if l > k {
        if k < l - 1 {
            lemma_pow2_strictly_increases(k, (l - 1) as nat);
        }
    }
}

/// `n <= 2^k` for the `k` that counts the bits of `n`, and `2^(k - 1) < n`
/// if `k` is not zero.
pub proof fn lemma_log2_ceil_bounds(n: nat)
    ensures
        pow2(log2_ceil(n)) >= n,
        log2_ceil(n) == 0 || pow2((log2_ceil(n) - 1) as nat) < n,
    decreases n,
{
    vstd::arithmetic::power2::lemma2_to64();
    if n > 1 {
        let half = (n + 1) / 2;
        lemma_log2_ceil_bounds(half);
        let k = log2_ceil(half);
        lemma_pow2_unfold(k + 1);
        if k > 0 {
            lemma_pow2_unfold(k);
        }
    }
}

/// The logarithm of a power of two is its exponent.
pub proof fn lemma_log2_ceil_pow2(k: nat)
    ensures
        log2_ceil(pow2(k)) == k,
{
    if k > 0 {
        lemma_pow2_strictly_increases((k - 1) as nat, k);
    }
    lemma_log2_ceil_unique(pow2(k), k);
}

impl Domain {
    /// The subgroup exists, and the shift is not zero.
    #[verifier::type_invariant]
    pub open spec fn well_formed(self) -> bool {
        self.log_size() <= TWO_ADICITY && self.first() != 0
    }

    /// The logarithm of the size of the domain.
    pub closed spec fn log_size(self) -> nat {
        self.log_n as nat
    }

    /// The first point of the domain, its shift.
    pub closed spec fn first(self) -> int {
        self.shift@
    }

    /// The number of points of the domain.
    pub open spec fn points(self) -> nat {
        pow2(self.log_size())
    }

    /// The vanishing polynomial of the domain at a point:
    /// `(point / shift)^(2^log_n) - 1`.
    pub open spec fn vanishing(self, point: Ext) -> Ext {
        ext_sub(
            ext_pow(ext_scale(point, fp_inv(self.first())), pow2(self.log_size())),
            ext_one(),
        )
    }

    /// The selector values of the domain at a point.
    pub open spec fn selectors(self, point: Ext) -> SelectorValues {
        selectors_at_point_value(self.log_size(), self.first(), point)
    }

    /// The coset with the given shift and logarithm of its size, if the
    /// shift is not zero and the field has a subgroup of that order.
    pub fn new(shift: Fe, log_n: usize) -> (r: Option<Domain>)
        ensures
            r is Some <==> (shift@ != 0 && log_n <= TWO_ADICITY),
            r matches Some(d) ==> d.log_size() == log_n && d.first() == shift@,
    {
        if !shift.is_zero() && log_n <= TWO_ADICITY {
            Some(Domain { log_n, shift })
        } else {
            None
        }
    }

    /// The domain of a trace of `degree` rows: the subgroup of that order,
    /// if `degree` is a power of two for which the field has one.
    pub fn natural_domain_for_degree(degree: usize) -> (r: Option<Domain>)
        ensures
            r matches Some(d) ==> d.points() == degree && d.first() == 1 && d.well_formed(),
            r is None ==> forall|k: nat| k <= TWO_ADICITY ==> #[trigger] pow2(k) != degree,
    {
        let mut k: usize = 0;
        let mut size: usize = 1;
        proof {
            lemma_pow2_unfold(1);
            assert(pow2(0) == 1) by {
                vstd::arithmetic::power2::lemma2_to64();
            }
            lemma_pow2_27();
        }
        while k < TWO_ADICITY && size != degree
            invariant
                k <= TWO_ADICITY,
                size == pow2(k as nat),
                size <= 0x800_0000,
                pow2(27) == 0x800_0000,
                forall|j: nat| j < k ==> #[trigger] pow2(j) != degree,
            decreases TWO_ADICITY - k,
        {
            proof {
                lemma_pow2_unfold((k + 1) as nat);
                if k + 1 <= 27 {
                    if k + 1 < 27 {
                        lemma_pow2_strictly_increases((k + 1) as nat, 27);
                    }
                }
            }
            size = size * 2;
            k = k + 1;
        }
        if size == degree {
            Some(Domain { log_n: k, shift: Fe::one() })
        } else {
            proof {
                assert forall|j: nat| j <= TWO_ADICITY implies #[trigger] pow2(j) != degree by {
                    if j == k {
                    }
                }
            }
            None
        }
    }

    /// The logarithm of the number of points.
    pub fn log_n(&self) -> (r: usize)
        ensures
            r == self.log_size(),
            r <= TWO_ADICITY,
    {
        proof {
            use_type_invariant(self);
        }
        self.log_n
    }

    /// The number of points.
    pub fn size(&self) -> (r: usize)
        ensures
            r == self.points(),
            1 <= r <= 0x800_0000,
    {
        proof {
            use_type_invariant(self);
            assert(pow2(0) == 1) by {
                vstd::arithmetic::power2::lemma2_to64();
            }
            lemma_pow2_27();
        }
        let mut k: usize = 0;
        let mut size: usize = 1;
        while k < self.log_n
            invariant
                k <= self.log_n <= TWO_ADICITY,
                size == pow2(k as nat),
                1 <= size <= 0x800_0000,
                pow2(27) == 0x800_0000,
            decreases self.log_n - k,
        {
            proof {
                lemma_pow2_unfold((k + 1) as nat);
                if k + 1 < 27 {
                    lemma_pow2_strictly_increases((k + 1) as nat, 27);
                }
            }
            size = size * 2;
            k = k + 1;
        }
        size
    }

    /// The first point of the domain.
    pub fn first_point(&self) -> (r: Fe)
        ensures
            r@ == self.first(),
            r@ != 0,
    {
        proof {
            use_type_invariant(self);
        }
        self.shift
    }

    /// The vanishing polynomial of the domain at a point.
    pub fn zp_at_point(&self, point: Ef) -> (r: Ef)
        ensures
            r@ == self.vanishing(point@),
    {
        coset_vanishing(self, point)
    }

    /// The selector values of the domain at a point, or `None` where the
    /// point lies in the domain, so that the selectors do not exist.
    pub fn selectors_at_point(&self, point: Ef) -> (r: Option<LagrangeSelectors>)
        ensures
            r is None <==> self.vanishing(point@) == ext_zero(),
            r matches Some(s) ==> s@ == self.selectors(point@) && ext_mul(
                self.vanishing(point@),
                s.inv_zeroifier@,
            ) == ext_one(),
    {
        let z = self.zp_at_point(point);
        if z.is_zero() {
            None
        } else {
            Some(coset_selectors_at_point(self, point))
        }
    }

    /// A domain of at least `min_size` points that shares no point with this
    /// one, or `None` where the field has no subgroup that large.
    pub fn create_disjoint_domain(&self, min_size: usize) -> (r: Option<Domain>)
        ensures
            r is Some <==> log2_ceil(min_size as nat) <= TWO_ADICITY,
            r matches Some(d) ==> d.log_size() == log2_ceil(min_size as nat) && d.first() == fp_mul(
                self.first(),
                GENERATOR as int,
            ),
    {
        coset_disjoint(self, min_size)
    }

    /// The selector values of this domain, which must be a subgroup, on
    /// every point of a larger coset whose shift is the generator of the
    /// multiplicative group, so that the two share no point.
    pub fn selectors_on_coset(&self, coset: &Domain) -> (r: CosetSelectors)
        requires
            self.first() == 1,
            coset.first() == GENERATOR,
            coset.log_size() >= self.log_size(),
        ensures
            r@ == selectors_on_coset_value(self.log_size(), coset.log_size(), coset.first()),
            r.is_first_row@.len() == coset.points(),
            r.is_last_row@.len() == coset.points(),
            r.is_transition@.len() == coset.points(),
            r.inv_zeroifier@.len() == coset.points(),
    {
        coset_selectors_on_coset(self, coset)
    }

    /// Whether the domain can be split into `num_chunks` domains: the
    /// number is a power of two that is at most the size of the domain.
    pub open spec fn splits_into(self, num_chunks: nat) -> bool {
        exists|c: nat| c <= self.log_size() && num_chunks == #[trigger] pow2(c)
    }

    /// The `num_chunks` domains of equal size that make up this domain.
    pub fn split_domains(&self, num_chunks: usize) -> (r: Vec<Domain>)
        requires
            self.splits_into(num_chunks as nat),
        ensures
            r@.len() == num_chunks,
            forall|i: int|
                0 <= i < num_chunks ==> (#[trigger] r@[i]).points() * num_chunks == self.points()
                    && r@[i].first() == split_domains_shift(
                    self.log_size(),
                    self.first(),
                    num_chunks as nat,
                    i,
                ),
    {
        coset_split(self, num_chunks)
    }
}

pub proof fn lemma_pow2_27()
    ensures
        pow2(27) == 0x800_0000,
{
    vstd::arithmetic::power2::lemma2_to64();
}

/// Calls `PolynomialSpace::vanishing_poly_at_point` of `p3-commit` on the
/// `TwoAdicMultiplicativeCoset` of `BabyBear` with the domain's shift and
/// size. Stated of it: the result is the point divided by the shift, raised
/// to the number of points, less one.
#[verifier::external_body]
fn coset_vanishing(domain: &Domain, point: Ef) -> (r: Ef)
    ensures
        r@ == domain.vanishing(point@),
{
    let coset = TwoAdicMultiplicativeCoset::new(BabyBear::new(domain.shift.value()), domain.log_n)
        .unwrap();
    let p = BinomialExtensionField::<BabyBear, 4>::new(point.to_array().map(BabyBear::new));
    let z = coset.vanishing_poly_at_point(p);
    let c: &[BabyBear] = z.as_basis_coefficients_slice();
    Ef::from_array(core::array::from_fn(|i| c[i].as_canonical_u32()))
}

/// Calls `PolynomialSpace::selectors_at_point` of `p3-commit` on the
/// `TwoAdicMultiplicativeCoset` of `BabyBear` with the domain's shift and
/// size. It divides by the vanishing polynomial and by two of its factors,
/// so a point at which that polynomial is zero is not admitted. Stated of
/// it: the result is a function of the domain and the point, and its last
/// part is the inverse of the vanishing polynomial at the point.
#[verifier::external_body]
fn coset_selectors_at_point(domain: &Domain, point: Ef) -> (r: LagrangeSelectors)
    requires
        domain.vanishing(point@) != ext_zero(),
    ensures
        r@ == selectors_at_point_value(domain.log_size(), domain.first(), point@),
        ext_mul(domain.vanishing(point@), r.inv_zeroifier@) == ext_one(),
{
    let coset = TwoAdicMultiplicativeCoset::new(BabyBear::new(domain.shift.value()), domain.log_n)
        .unwrap();
    let p = BinomialExtensionField::<BabyBear, 4>::new(point.to_array().map(BabyBear::new));
    let s = coset.selectors_at_point(p);
    let back = |x: BinomialExtensionField<BabyBear, 4>| {
        let c: &[BabyBear] = x.as_basis_coefficients_slice();
        Ef::from_array(core::array::from_fn(|i| c[i].as_canonical_u32()))
    };
    LagrangeSelectors {
        is_first_row: back(s.is_first_row),
        is_last_row: back(s.is_last_row),
        is_transition: back(s.is_transition),
        inv_zeroifier: back(s.inv_vanishing),
    }
}

/// Calls `PolynomialSpace::try_create_disjoint_domain` of `p3-commit` on the
/// `TwoAdicMultiplicativeCoset` of `BabyBear` with the domain's shift and
/// size. Stated of it: the new coset has the least two-power size that is
/// at least `min_size`, if the field has a subgroup of that order, and its
/// shift is the old shift times the generator 31.
#[verifier::external_body]
fn coset_disjoint(domain: &Domain, min_size: usize) -> (r: Option<Domain>)
    ensures
        r is Some <==> log2_ceil(min_size as nat) <= TWO_ADICITY,
        r matches Some(d) ==> d.log_size() == log2_ceil(min_size as nat) && d.first() == fp_mul(
            domain.first(),
            GENERATOR as int,
        ),
{
    let coset = TwoAdicMultiplicativeCoset::new(BabyBear::new(domain.shift.value()), domain.log_n)
        .unwrap();
    coset.try_create_disjoint_domain(min_size).map(
        |d| Domain { log_n: d.log_size(), shift: Fe::new(d.shift().as_canonical_u32()) },
    )
}

/// Calls `PolynomialSpace::split_domains` of `p3-commit` on the
/// `TwoAdicMultiplicativeCoset` of `BabyBear` with the domain's shift and
/// size. It takes the logarithm of `num_chunks` and subtracts it from that
/// of the size, so only a power of two that is at most the size is
/// admitted. Stated of it: there are `num_chunks` domains, each of the
/// size divided by `num_chunks`, and the shift of each is a function of the
/// domain, the number of chunks and its position.
#[verifier::external_body]
fn coset_split(domain: &Domain, num_chunks: usize) -> (r: Vec<Domain>)
    requires
        domain.splits_into(num_chunks as nat),
    ensures
        r@.len() == num_chunks,
        forall|i: int|
            0 <= i < num_chunks ==> (#[trigger] r@[i]).points() * num_chunks == domain.points()
                && r@[i].first() == split_domains_shift(
                domain.log_size(),
                domain.first(),
                num_chunks as nat,
                i,
            ),
{
    let coset = TwoAdicMultiplicativeCoset::new(BabyBear::new(domain.shift.value()), domain.log_n)
        .unwrap();
    let mut out: Vec<Domain> = Vec::new();
    for d in coset.split_domains(num_chunks) {
        out.push(Domain { log_n: d.log_size(), shift: Fe::new(d.shift().as_canonical_u32()) });
    }
    out
}

/// Calls `PolynomialSpace::selectors_on_coset` of `p3-commit` on the
/// `TwoAdicMultiplicativeCoset` of `BabyBear` with the domain's size, with
/// the coset as argument. It asserts that the domain is a subgroup and that
/// the coset is at least as large, and inverts the differences of their
/// points, so only a coset shifted by the generator 31, which shares no
/// point with a subgroup of two-power order, is admitted. Stated of it: the
/// result is a function of the two, and each part has one value for each
/// point of the coset.
#[verifier::external_body]
fn coset_selectors_on_coset(domain: &Domain, coset: &Domain) -> (r: CosetSelectors)
    requires
        domain.first() == 1,
        coset.first() == GENERATOR,
        coset.log_size() >= domain.log_size(),
    ensures
        r@ == selectors_on_coset_value(domain.log_size(), coset.log_size(), coset.first()),
        r.is_first_row@.len() == coset.points(),
        r.is_last_row@.len() == coset.points(),
        r.is_transition@.len() == coset.points(),
        r.inv_zeroifier@.len() == coset.points(),
{
    let h = TwoAdicMultiplicativeCoset::new(BabyBear::new(domain.shift.value()), domain.log_n)
        .unwrap();
    let k = TwoAdicMultiplicativeCoset::new(BabyBear::new(coset.shift.value()), coset.log_n)
        .unwrap();
    let s = h.selectors_on_coset(k);
    let back = |v: Vec<BabyBear>| v.iter().map(|x| Fe::new(x.as_canonical_u32())).collect();
    CosetSelectors {
        is_first_row: back(s.is_first_row),
        is_last_row: back(s.is_last_row),
        is_transition: back(s.is_transition),
        inv_zeroifier: back(s.inv_vanishing),
    }
}

} // verus!
