//! Evaluation domains: a buffer of `2^exp` field elements, read either as the
//! coefficients of a polynomial or as its values at the `2^exp`-th roots of
//! unity, with the constants that the transforms between the two need.

use vstd::prelude::*;
use vstd::arithmetic::power2::{
    lemma2_to64,
    lemma2_to64_rest,
    lemma_pow2_adds,
    lemma_pow2_pos,
    lemma_pow2_strictly_increases,
    lemma_pow2_unfold,
    pow2,
};
use crate::dft::{
    dft,
    inverse_dft,
    padded,
    pointwise_mul,
    pointwise_sub,
    primitive_root,
    scaled,
    with_powers,
};
use crate::error::KZGError;
use crate::fft::best_fft;
use crate::field::{
    all_wf,
    generator_value,
    inverse_mod,
    modulus,
    mul_mod,
    pow_mod,
    root_of_unity_value,
    sub_mod,
    values,
    FieldElement,
};
use crate::ring::{
    lemma_neg_one_value,
    lemma_pow_mod_bound,
    lemma_pow_mod_mul,
    lemma_pow_mod_of_zero,
    lemma_pow_mod_succ,
    lemma_sub_mod_nonzero,
};
use crate::orthogonality::lemma_inverse_root;
use crate::roots::{lemma_generator_power, lemma_root_of_unity_order};

verus! {

/// The exponent of the smallest power of two that is at least `d`.
pub open spec fn domain_exp(d: nat) -> nat
    decreases d,
{
    if d <= 1 {
        0
    } else {
        1 + domain_exp((d + 1) / 2)
    }
}

/// No power of two below `2^domain_exp(d)` reaches `d`.
pub proof fn lemma_domain_exp_lower(d: nat, e: nat)
    requires
        pow2(e) < d,
    ensures
        domain_exp(d) > e,
    decreases e,
{
    lemma_pow2_pos(e);
    if e > 0 {
        lemma_pow2_unfold(e);
        lemma_domain_exp_lower((d + 1) / 2, (e - 1) as nat);
    }
}

/// `2^domain_exp(d)` reaches `d`, and so does every higher power of two.
pub proof fn lemma_domain_exp_upper(d: nat, e: nat)
    requires
        pow2(e) >= d,
    ensures
        domain_exp(d) <= e,
    decreases e,
{
    if d > 1 {
        if e == 0 {
            lemma2_to64();
        } else {
            lemma_pow2_unfold(e);
            lemma_domain_exp_upper((d + 1) / 2, (e - 1) as nat);
        }
    }
}

/// `2^domain_exp(d)` is the smallest power of two that is at least `d`.
pub proof fn lemma_domain_exp(d: nat)
    ensures
        pow2(domain_exp(d)) >= d,
        domain_exp(d) > 0 ==> pow2((domain_exp(d) - 1) as nat) < d,
    decreases d,
{
    let e = domain_exp(d);
    if d <= 1 {
        lemma2_to64();
    } else {
        lemma_domain_exp((d + 1) / 2);
        lemma_pow2_unfold(e);
        if e > 1 {
            lemma_pow2_unfold((e - 1) as nat);
        } else {
            lemma2_to64();
        }
    }
}

/// The root of unity that a domain of `2^exp` entries is built on: the
/// field's root of order `2^32`, raised to `2^(32 - exp)`.
pub open spec fn domain_root(exp: nat) -> nat {
    pow_mod(root_of_unity_value(), pow2((32 - exp) as nat))
}

/// The root of a domain of `2^exp` entries has order exactly `2^exp`: its
/// `2^exp`-th power is 1, and for `exp >= 1` its `2^(exp - 1)`-th power is
/// `-1`, which is not 1.
pub proof fn lemma_domain_root(exp: nat)
    requires
        exp <= 32,
    ensures
        domain_root(exp) < modulus(),
        domain_root(exp) != 0,
        pow_mod(domain_root(exp), pow2(exp)) == 1,
        primitive_root(domain_root(exp), exp),
        exp > 0 ==> pow_mod(domain_root(exp), pow2((exp - 1) as nat)) != 1,
{
    let r = root_of_unity_value();
    let k = (32 - exp) as nat;
    lemma_root_of_unity_order();
    lemma_pow_mod_bound(r, pow2(k));
    lemma_pow_mod_mul(r, pow2(k), pow2(exp));
    lemma_pow2_adds(k, exp);
    lemma_neg_one_value();
    if exp > 0 {
        lemma_pow_mod_mul(r, pow2(k), pow2((exp - 1) as nat));
        lemma_pow2_adds(k, (exp - 1) as nat);
    }
    lemma_pow2_pos(exp);
    if domain_root(exp) == 0 {
        lemma_pow_mod_of_zero(pow2(exp));
    }
}

/// `2^k` as a 64-bit integer.
pub fn pow2_u64(k: u32) -> (r: u64)
    requires
        k < 64,
    ensures
        r == pow2(k as nat),
{
    let mut r: u64 = 1;
    let mut i: u32 = 0;
    proof {
        lemma2_to64();
        lemma2_to64_rest();
    }
    while i < k
        invariant
            i <= k,
            k < 64,
            r == pow2(i as nat),
            pow2(63) == 0x8000_0000_0000_0000,
        decreases k - i,
    {
        proof {
            lemma_pow2_unfold((i + 1) as nat);
            if i + 1 < 63 {
                lemma_pow2_strictly_increases((i + 1) as nat, 63);
            }
        }
        r = r * 2;
        i += 1;
    }
    r
}

/// A polynomial over the field, as a buffer of `d == 2^exp` elements, with
/// the root of unity `omega` of order `d` and the inverses that the
/// transforms use.
///
/// Whether the buffer holds coefficients or values is for the caller to keep
/// track of.
#[derive(Debug, Clone, PartialEq, Eq)]
pub struct EvaluationDomain {
    pub coeffs: Vec<FieldElement>,
    pub d: usize,
    pub exp: u32,
    pub omega: FieldElement,
    pub omegainv: FieldElement,
    pub geninv: FieldElement,
    pub minv: FieldElement,
}

impl EvaluationDomain {
    /// The values of the elements in the buffer.
    pub open spec fn view(&self) -> Seq<nat> {
        values(self.coeffs@)
    }

    /// The size, the root and the cached inverses fit together.
    pub open spec fn shape_wf(&self) -> bool {
        &&& self.exp <= 32
        &&& self.d == pow2(self.exp as nat)
        &&& self.omega.wf()
        &&& self.omegainv.wf()
        &&& self.geninv.wf()
        &&& self.minv.wf()
        &&& pow_mod(self.omega@, pow2(self.exp as nat)) == 1
        &&& primitive_root(self.omega@, self.exp as nat)
        &&& mul_mod(self.omega@, self.omegainv@) == 1
        &&& mul_mod(generator_value(), self.geninv@) == 1
        &&& mul_mod(self.d as nat, self.minv@) == 1
    }

    /// The domain is consistent: its buffer has `d` well-formed elements and
    /// its constants fit together.
    pub open spec fn wf(&self) -> bool {
        &&& self.shape_wf()
        &&& self.coeffs@.len() == self.d
        &&& all_wf(self.coeffs@)
    }

    /// Everything but the buffer is the same in both domains.
    pub open spec fn same_shape(&self, other: &EvaluationDomain) -> bool {
        &&& self.d == other.d
        &&& self.exp == other.exp
        &&& self.omega == other.omega
        &&& self.omegainv == other.omegainv
        &&& self.geninv == other.geninv
        &&& self.minv == other.minv
    }

    /// Hands the buffer back.
    pub fn into_coeffs(self) -> (r: Vec<FieldElement>)
        ensures
            r == self.coeffs,
    {
        self.coeffs
    }

    /// The number of elements in the buffer.
    pub fn len(&self) -> (r: usize)
        ensures
            r == self.coeffs@.len(),
    {
        self.coeffs.len()
    }

    /// The elements in the buffer.
    pub fn as_ref(&self) -> (r: &Vec<FieldElement>)
        ensures
            r == self.coeffs,
    {
        &self.coeffs
    }

    /// The elements in the buffer, to be changed in place.
    pub fn as_mut(&mut self) -> (r: &mut Vec<FieldElement>)
        ensures
            *r == old(self).coeffs,
            final(self).coeffs == *final(r),
            final(self).same_shape(old(self)),
    {
        &mut self.coeffs
    }

    /// Sizes a domain for `d` coefficients: the smallest power of two
    /// `m = 2^exp` with `m >= d`, and the root of unity of order `m`.
    ///
    /// It fails if `exp` would exceed the field's two-adicity 32, or `m` the
    /// largest `usize`.
    pub fn compute_omega(d: usize) -> (r: Result<(usize, u32, FieldElement), KZGError>)
        ensures
            r is Ok <==> domain_exp(d as nat) <= 32 && pow2(domain_exp(d as nat)) <= usize::MAX,
            r is Err ==> r->Err_0 == KZGError::PolynomialDegreeTooLarge,
            r is Ok ==> ({
                let (m, exp, omega) = r->Ok_0;
                &&& exp == domain_exp(d as nat)
                &&& m == pow2(exp as nat)
                &&& m >= d
                &&& exp > 0 ==> m / 2 < d
                &&& omega.wf()
                &&& omega@ == domain_root(exp as nat)
                &&& pow_mod(omega@, m as nat) == 1
                &&& exp > 0 ==> pow_mod(omega@, (m / 2) as nat) != 1
            }),
    {
        let s: u32 = FieldElement::two_adicity();
        let target: u64 = d as u64;
        let mut m: u64 = 1;
        let mut exp: u32 = 0;
        proof {
            lemma2_to64();
            lemma2_to64_rest();
        }
        while m < target
            invariant
                s == 32,
                target == d,
                exp <= 32,
                m == pow2(exp as nat),
                exp > 0 ==> pow2((exp - 1) as nat) < d,
                pow2(32) == 0x1_0000_0000,
            decreases 32 - exp,
        {
            if exp >= s {
                proof {
                    lemma_domain_exp_lower(d as nat, 32);
                }
                return Err(KZGError::PolynomialDegreeTooLarge);
            }
            proof {
                lemma_pow2_unfold((exp + 1) as nat);
                if exp + 1 < 32 {
                    lemma_pow2_strictly_increases((exp + 1) as nat, 32);
                }
            }
            m = m * 2;
            exp += 1;
        }
        proof {
            lemma_domain_exp_upper(d as nat, exp as nat);
            if exp > 0 {
                lemma_domain_exp_lower(d as nat, (exp - 1) as nat);
                lemma_pow2_unfold(exp as nat);
            }
        }
        if m > usize::MAX as u64 {
            return Err(KZGError::PolynomialDegreeTooLarge);
        }
        let omega = FieldElement::root_of_unity().pow(pow2_u64(s - exp));
        proof {
            lemma_domain_root(exp as nat);
        }
        Ok((m as usize, exp, omega))
    }

    /// The same domain with another buffer.
    pub fn clone_with_different_coeffs(&self, coeffs: Vec<FieldElement>) -> (r: EvaluationDomain)
        ensures
            r.coeffs == coeffs,
            r.same_shape(self),
    {
        EvaluationDomain {
            coeffs,
            d: self.d,
            exp: self.exp,
            omega: self.omega,
            omegainv: self.omegainv,
            geninv: self.geninv,
            minv: self.minv,
        }
    }

    /// A domain from its parts. The inverses of `omega`, of the generator and
    /// of `d` are computed here; neither `omega` nor `d` may be zero.
    pub fn new(coeffs: Vec<FieldElement>, d: usize, exp: u32, omega: FieldElement) -> (r:
        EvaluationDomain)
        requires
            omega.wf(),
            omega@ != 0,
            d != 0,
        ensures
            r.coeffs == coeffs,
            r.d == d,
            r.exp == exp,
            r.omega == omega,
            r.omegainv.wf(),
            r.omegainv@ == inverse_mod(omega@),
            mul_mod(omega@, r.omegainv@) == 1,
            r.geninv.wf(),
            r.geninv@ == inverse_mod(generator_value()),
            mul_mod(generator_value(), r.geninv@) == 1,
            r.minv.wf(),
            r.minv@ == inverse_mod(d as nat),
            mul_mod(d as nat, r.minv@) == 1,
    {
        EvaluationDomain {
            coeffs,
            d,
            exp,
            omega,
            omegainv: omega.invert().unwrap(),
            geninv: FieldElement::multiplicative_generator().invert().unwrap(),
            minv: FieldElement::from_u64(d as u64).invert().unwrap(),
        }
    }

    /// A domain for the polynomial with the given coefficients, padded with
    /// zeros up to the next power of two.
    ///
    /// It fails where [`EvaluationDomain::compute_omega`] fails for the
    /// number of coefficients.
    pub fn from_coeffs(coeffs: Vec<FieldElement>) -> (r: Result<EvaluationDomain, KZGError>)
        requires
            all_wf(coeffs@),
        ensures
            r is Ok <==> domain_exp(coeffs@.len()) <= 32 && pow2(domain_exp(coeffs@.len()))
                <= usize::MAX,
            r is Err ==> r->Err_0 == KZGError::PolynomialDegreeTooLarge,
            r is Ok ==> ({
                let dom = r->Ok_0;
                &&& dom.wf()
                &&& dom.exp == domain_exp(coeffs@.len())
                &&& dom.omega@ == domain_root(dom.exp as nat)
                &&& dom.coeffs@.subrange(0, coeffs@.len() as int) == coeffs@
                &&& dom@ == padded(values(coeffs@), pow2(dom.exp as nat))
            }),
    {
        let ghost given = coeffs@;
        let mut coeffs = coeffs;
        let (m, exp, omega) = match Self::compute_omega(coeffs.len()) {
            Ok(sized) => sized,
            Err(e) => {
                return Err(e);
            },
        };
        while coeffs.len() < m
            invariant
                given.len() <= coeffs@.len() <= m,
                all_wf(coeffs@),
                coeffs@.subrange(0, given.len() as int) == given,
                forall|i: int| given.len() <= i < coeffs@.len() ==> (#[trigger] coeffs@[i])@ == 0,
            decreases m - coeffs@.len(),
        {
            let ghost before = coeffs@;
            coeffs.push(FieldElement::zero());
            proof {
                assert(coeffs@.subrange(0, given.len() as int) =~= before.subrange(
                    0,
                    given.len() as int,
                ));
            }
        }
        proof {
            lemma_domain_root(exp as nat);
            lemma_pow2_pos(exp as nat);
            assert(values(coeffs@) =~= padded(values(given), pow2(exp as nat))) by {
                assert forall|i: int| 0 <= i < given.len() implies coeffs@[i] == given[i] by {
                    assert(coeffs@.subrange(0, given.len() as int)[i] == given[i]);
                }
            }
        }
        Ok(Self::new(coeffs, m, exp, omega))
    }

    /// The forward transform, in place: from the coefficients of a
    /// polynomial to its values at the powers of `omega`.
    pub fn fft(&mut self)
        requires
            old(self).wf(),
        ensures
            final(self).wf(),
            final(self).same_shape(old(self)),
            final(self)@ == dft(old(self)@, old(self).omega@),
    {
        let omega = self.omega;
        best_fft(&mut self.coeffs, &omega, self.exp);
    }

    /// The inverse transform, in place: from the values of a polynomial at
    /// the powers of `omega` to its coefficients.
    pub fn ifft(&mut self)
        requires
            old(self).wf(),
        ensures
            final(self).wf(),
            final(self).same_shape(old(self)),
            final(self)@ == inverse_dft(old(self)@, old(self).omegainv@, old(self).minv@),
    {
        let omegainv = self.omegainv;
        let minv = self.minv;
        proof {
            lemma_inverse_root(self.omega@, self.omegainv@, self.exp as nat);
        }
        best_fft(&mut self.coeffs, &omegainv, self.exp);
        let ghost transformed = values(self.coeffs@);
        let n: usize = self.coeffs.len();
        let mut i: usize = 0;
        while i < n
            invariant
                i <= n,
                n == self.coeffs@.len(),
                minv.wf(),
                all_wf(self.coeffs@),
                self.same_shape(old(self)),
                transformed.len() == n,
                forall|k: int|
                    0 <= k < i ==> (#[trigger] self.coeffs@[k])@ == mul_mod(
                        transformed[k],
                        minv@,
                    ),
                forall|k: int| i <= k < n ==> (#[trigger] self.coeffs@[k])@ == transformed[k],
            decreases n - i,
        {
            let v = self.coeffs[i].mul(&minv);
            self.coeffs.set(i, v);
            i += 1;
        }
        proof {
            assert(self@ =~= inverse_dft(old(self)@, old(self).omegainv@, old(self).minv@));
        }
    }

    /// Multiplies the element at `i` by `g^i`, in place.
    pub fn distribute_powers(&mut self, g: FieldElement)
        requires
            all_wf(old(self).coeffs@),
            g.wf(),
        ensures
            final(self).same_shape(old(self)),
            final(self).coeffs@.len() == old(self).coeffs@.len(),
            all_wf(final(self).coeffs@),
            final(self)@ == with_powers(old(self)@, g@),
    {
        let n: usize = self.coeffs.len();
        let mut u = g.pow(0);
        let mut i: usize = 0;
        while i < n
            invariant
                i <= n,
                n == self.coeffs@.len(),
                n == old(self).coeffs@.len(),
                g.wf(),
                u.wf(),
                u@ == pow_mod(g@, i as nat),
                all_wf(self.coeffs@),
                self.same_shape(old(self)),
                forall|k: int|
                    0 <= k < i ==> (#[trigger] self.coeffs@[k])@ == mul_mod(
                        old(self).coeffs@[k]@,
                        pow_mod(g@, k as nat),
                    ),
                forall|k: int| i <= k < n ==> (#[trigger] self.coeffs@[k]) == old(self).coeffs@[k],
            decreases n - i,
        {
            let v = self.coeffs[i].mul(&u);
            self.coeffs.set(i, v);
            proof {
                lemma_pow_mod_succ(g@, i as nat);
            }
            u = u.mul(&g);
            i += 1;
        }
        proof {
            assert(self@ =~= with_powers(old(self)@, g@));
        }
    }

    /// The forward transform onto the coset of the roots of unity by the
    /// generator: from coefficients to the values at `7 * omega^i`.
    pub fn coset_fft(&mut self)
        requires
            old(self).wf(),
        ensures
            final(self).wf(),
            final(self).same_shape(old(self)),
            final(self)@ == dft(with_powers(old(self)@, generator_value()), old(self).omega@),
    {
        self.distribute_powers(FieldElement::multiplicative_generator());
        self.fft();
    }

    /// The inverse of [`EvaluationDomain::coset_fft`].
    pub fn icoset_fft(&mut self)
        requires
            old(self).wf(),
        ensures
            final(self).wf(),
            final(self).same_shape(old(self)),
            final(self)@ == with_powers(
                inverse_dft(old(self)@, old(self).omegainv@, old(self).minv@),
                old(self).geninv@,
            ),
    {
        let geninv = self.geninv;
        self.ifft();
        self.distribute_powers(geninv);
    }

    /// The vanishing polynomial of the domain at `tau`: `tau^m - 1`, where
    /// `m` is the number of elements in the buffer.
    pub fn z(&self, tau: &FieldElement) -> (r: FieldElement)
        requires
            tau.wf(),
        ensures
            r.wf(),
            r@ == sub_mod(pow_mod(tau@, self.coeffs@.len()), 1),
    {
        let tmp = tau.pow(self.coeffs.len() as u64);
        tmp.sub(&FieldElement::one())
    }

    /// Divides every element by the value of the vanishing polynomial at the
    /// generator, which is its value at every point of the coset.
    ///
    /// This is a division of polynomials only for a buffer that holds, on
    /// the coset, the values of a polynomial that vanishes on the domain.
    pub fn divide_by_z_on_coset(&mut self)
        requires
            old(self).wf(),
        ensures
            final(self).wf(),
            final(self).same_shape(old(self)),
            final(self)@ == scaled(
                old(self)@,
                inverse_mod(sub_mod(pow_mod(generator_value(), old(self).coeffs@.len()), 1)),
            ),
    {
        proof {
            lemma_generator_power(self.exp as nat);
            lemma_pow_mod_bound(generator_value(), pow2(self.exp as nat));
            lemma_sub_mod_nonzero(pow_mod(generator_value(), pow2(self.exp as nat)), 1);
        }
        let inv = self.z(&FieldElement::multiplicative_generator()).invert().unwrap();
        let n: usize = self.coeffs.len();
        let mut i: usize = 0;
        while i < n
            invariant
                i <= n,
                n == self.coeffs@.len(),
                n == old(self).coeffs@.len(),
                inv.wf(),
                all_wf(self.coeffs@),
                self.same_shape(old(self)),
                forall|k: int|
                    0 <= k < i ==> (#[trigger] self.coeffs@[k])@ == mul_mod(
                        old(self).coeffs@[k]@,
                        inv@,
                    ),
                forall|k: int| i <= k < n ==> (#[trigger] self.coeffs@[k]) == old(self).coeffs@[k],
            decreases n - i,
        {
            let v = self.coeffs[i].mul(&inv);
            self.coeffs.set(i, v);
            i += 1;
        }
        proof {
            assert(self@ =~= scaled(old(self)@, inv@));
        }
    }

    /// Multiplies the elements by those of `other`, place by place. The two
    /// buffers must have the same length.
    pub fn mul_assign(&mut self, other: &EvaluationDomain)
        requires
            old(self).coeffs@.len() == other.coeffs@.len(),
            all_wf(old(self).coeffs@),
            all_wf(other.coeffs@),
        ensures
            final(self).same_shape(old(self)),
            final(self).coeffs@.len() == old(self).coeffs@.len(),
            all_wf(final(self).coeffs@),
            final(self)@ == pointwise_mul(old(self)@, other@),
    {
        let n: usize = self.coeffs.len();
        let mut i: usize = 0;
        while i < n
            invariant
                i <= n,
                n == self.coeffs@.len(),
                n == old(self).coeffs@.len(),
                n == other.coeffs@.len(),
                all_wf(self.coeffs@),
                all_wf(other.coeffs@),
                self.same_shape(old(self)),
                forall|k: int|
                    0 <= k < i ==> (#[trigger] self.coeffs@[k])@ == mul_mod(
                        old(self).coeffs@[k]@,
                        other.coeffs@[k]@,
                    ),
                forall|k: int| i <= k < n ==> (#[trigger] self.coeffs@[k]) == old(self).coeffs@[k],
            decreases n - i,
        {
            let v = self.coeffs[i].mul(&other.coeffs[i]);
            self.coeffs.set(i, v);
            i += 1;
        }
        proof {
            assert(self@ =~= pointwise_mul(old(self)@, other@));
        }
    }

    /// Subtracts the elements of `other`, place by place. The two buffers
    /// must have the same length.
    pub fn sub_assign(&mut self, other: &EvaluationDomain)
        requires
            old(self).coeffs@.len() == other.coeffs@.len(),
            all_wf(old(self).coeffs@),
            all_wf(other.coeffs@),
        ensures
            final(self).same_shape(old(self)),
            final(self).coeffs@.len() == old(self).coeffs@.len(),
            all_wf(final(self).coeffs@),
            final(self)@ == pointwise_sub(old(self)@, other@),
    {
        let n: usize = self.coeffs.len();
        let mut i: usize = 0;
        while i < n
            invariant
                i <= n,
                n == self.coeffs@.len(),
                n == old(self).coeffs@.len(),
                n == other.coeffs@.len(),
                all_wf(self.coeffs@),
                all_wf(other.coeffs@),
                self.same_shape(old(self)),
                forall|k: int|
                    0 <= k < i ==> (#[trigger] self.coeffs@[k])@ == sub_mod(
                        old(self).coeffs@[k]@,
                        other.coeffs@[k]@,
                    ),
                forall|k: int| i <= k < n ==> (#[trigger] self.coeffs@[k]) == old(self).coeffs@[k],
            decreases n - i,
        {
            let v = self.coeffs[i].sub(&other.coeffs[i]);
            self.coeffs.set(i, v);
            i += 1;
        }
        proof {
            assert(self@ =~= pointwise_sub(old(self)@, other@));
        }
    }
}

} // verus!
