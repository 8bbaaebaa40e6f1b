//! Elements of the BLS12-381 scalar field.
//!
//! A [`FieldElement`] holds the canonical little-endian limbs of a residue
//! modulo the field prime. The arithmetic itself is done by `blstrs`; the
//! functions at the end of this file hand the limbs over and state, without
//! proof, what comes back.

use vstd::prelude::*;
use pairing::group::ff::Field;
use pairing::group::ff::PrimeField;
use pairing::group::ff::PrimeFieldBits;

verus! {

/// The weight of one limb, `2^64`.
pub open spec fn limb_base() -> nat {
    0x1_0000_0000_0000_0000
}

/// The integer that four little-endian 64-bit limbs stand for.
pub open spec fn limbs_value(l0: u64, l1: u64, l2: u64, l3: u64) -> nat {
    (l0 as nat) + limb_base() * ((l1 as nat) + limb_base() * ((l2 as nat) + limb_base() * (
    l3 as nat)))
}

/// The field prime
/// `0x73eda753299d7d483339d80809a1d80553bda402fffe5bfeffffffff00000001`.
pub open spec fn modulus() -> nat {
    limbs_value(
        0xffff_ffff_0000_0001,
        0x53bd_a402_fffe_5bfe,
        0x3339_d808_09a1_d805,
        0x73ed_a753_299d_7d48,
    )
}

/// The multiplicative generator of the field, `7`.
pub open spec fn generator_value() -> nat {
    7
}

/// The distinguished root of unity of order `2^32`,
/// `0x16a2a19edfe81f20d09b681922c813b4b63683508c2280b93829971f439f0d2b`.
pub open spec fn root_of_unity_value() -> nat {
    limbs_value(
        0x3829_971f_439f_0d2b,
        0xb636_8350_8c22_80b9,
        0xd09b_6819_22c8_13b4,
        0x16a2_a19e_dfe8_1f20,
    )
}

/// Sum in the field.
pub open spec fn add_mod(a: nat, b: nat) -> nat {
    (a + b) % modulus()
}

/// Difference in the field.
pub open spec fn sub_mod(a: nat, b: nat) -> nat {
    ((a - b) % (modulus() as int)) as nat
}

/// Product in the field.
pub open spec fn mul_mod(a: nat, b: nat) -> nat {
    (a * b) % modulus()
}

/// `a` raised to the power `e` in the field; the empty product is `1`.
pub open spec fn pow_mod(a: nat, e: nat) -> nat
    decreases e,
{
    if e == 0 {
        1
    } else {
        mul_mod(a, pow_mod(a, (e - 1) as nat))
    }
}

/// The multiplicative inverse of `a`: the canonical `x` with `a * x == 1`.
/// It exists for every `a` that is not a multiple of the prime.
pub open spec fn inverse_mod(a: nat) -> nat {
    choose|x: nat| x < modulus() && mul_mod(a, x) == 1
}

/// An element of the scalar field, kept as the four little-endian limbs of its
/// canonical representative.
#[derive(Clone, Copy, Debug, PartialEq, Eq, Structural)]
pub struct FieldElement {
    l0: u64,
    l1: u64,
    l2: u64,
    l3: u64,
}

impl FieldElement {
    /// The integer in `[0, modulus)` that the element stands for.
    pub closed spec fn view(self) -> nat {
        limbs_value(self.l0, self.l1, self.l2, self.l3)
    }

    /// The limbs are those of a canonical representative.
    pub open spec fn wf(self) -> bool {
        self@ < modulus()
    }

    /// Two well-formed elements with the same value are the same element.
    pub proof fn lemma_view_injective(self, other: FieldElement)
        requires
            self@ == other@,
        ensures
            self == other,
    {
    }

    /// The additive identity.
    pub fn zero() -> (r: FieldElement)
        ensures
            r.wf(),
            r@ == 0,
    {
        FieldElement { l0: 0, l1: 0, l2: 0, l3: 0 }
    }

    /// The multiplicative identity.
    pub fn one() -> (r: FieldElement)
        ensures
            r.wf(),
            r@ == 1,
    {
        FieldElement { l0: 1, l1: 0, l2: 0, l3: 0 }
    }

    /// The element that a 64-bit integer stands for.
    pub fn from_u64(v: u64) -> (r: FieldElement)
        ensures
            r.wf(),
            r@ == v,
    {
        FieldElement { l0: v, l1: 0, l2: 0, l3: 0 }
    }

    /// Reads an element from little-endian limbs, refusing a value that is
    /// not below the modulus.
    pub fn from_u64s_le(limbs: &[u64; 4]) -> (r: Option<FieldElement>)
        ensures
            r is Some <==> limbs_value(limbs[0], limbs[1], limbs[2], limbs[3]) < modulus(),
            r is Some ==> r->0.wf() && r->0@ == limbs_value(
                limbs[0],
                limbs[1],
                limbs[2],
                limbs[3],
            ),
    {
        let l0: u64 = limbs[0];
        let l1: u64 = limbs[1];
        let l2: u64 = limbs[2];
        let l3: u64 = limbs[3];
        let below = l3 < 0x73ed_a753_299d_7d48 || (l3 == 0x73ed_a753_299d_7d48 && (l2
            < 0x3339_d808_09a1_d805 || (l2 == 0x3339_d808_09a1_d805 && (l1 < 0x53bd_a402_fffe_5bfe
            || (l1 == 0x53bd_a402_fffe_5bfe && l0 < 0xffff_ffff_0000_0001)))));
        if below {
            Some(FieldElement { l0, l1, l2, l3 })
        } else {
            None
        }
    }

    /// The little-endian limbs of the canonical representative.
    pub fn to_u64s_le(&self) -> (r: [u64; 4])
        ensures
            limbs_value(r[0], r[1], r[2], r[3]) == self@,
    {
        [self.l0, self.l1, self.l2, self.l3]
    }

    /// Whether the element is the additive identity.
    pub fn is_zero(&self) -> (r: bool)
        ensures
            r <==> self@ == 0,
    {
        self.l0 == 0 && self.l1 == 0 && self.l2 == 0 && self.l3 == 0
    }

    /// The fixed generator of the field's multiplicative group.
    pub fn multiplicative_generator() -> (r: FieldElement)
        ensures
            r.wf(),
            r@ == generator_value(),
    {
        scalar_generator()
    }

    /// The fixed root of unity of order `2^S`.
    pub fn root_of_unity() -> (r: FieldElement)
        ensures
            r.wf(),
            r@ == root_of_unity_value(),
    {
        scalar_root_of_unity()
    }

    /// `S`, the largest exponent for which the field has a root of unity of
    /// order `2^S`.
    pub fn two_adicity() -> (r: u32)
        ensures
            r == 32,
    {
        scalar_two_adicity()
    }

    /// The sum of two elements.
    pub fn add(&self, rhs: &FieldElement) -> (r: FieldElement)
        requires
            self.wf(),
            rhs.wf(),
        ensures
            r.wf(),
            r@ == add_mod(self@, rhs@),
    {
        scalar_add(self, rhs)
    }

    /// The difference of two elements.
    pub fn sub(&self, rhs: &FieldElement) -> (r: FieldElement)
        requires
            self.wf(),
            rhs.wf(),
        ensures
            r.wf(),
            r@ == sub_mod(self@, rhs@),
    {
        scalar_sub(self, rhs)
    }

    /// The product of two elements.
    pub fn mul(&self, rhs: &FieldElement) -> (r: FieldElement)
        requires
            self.wf(),
            rhs.wf(),
        ensures
            r.wf(),
            r@ == mul_mod(self@, rhs@),
    {
        scalar_mul(self, rhs)
    }

    /// `self` raised to the power `e`.
    pub fn pow(&self, e: u64) -> (r: FieldElement)
        requires
            self.wf(),
        ensures
            r.wf(),
            r@ == pow_mod(self@, e as nat),
    {
        scalar_pow(self, e)
    }

    /// The multiplicative inverse; zero has none.
    pub fn invert(&self) -> (r: Option<FieldElement>)
        requires
            self.wf(),
        ensures
            r is Some <==> self@ != 0,
            r is Some ==> r->0.wf() && r->0@ == inverse_mod(self@) && mul_mod(self@, r->0@) == 1,
    {
        let r = scalar_invert(self);
        proof {
            if r is Some {
                crate::ring::lemma_inverse_mod(self@, r->0@);
            }
        }
        r
    }
}

/// The values of a sequence of elements.
pub open spec fn values(s: Seq<FieldElement>) -> Seq<nat> {
    Seq::new(s.len(), |i: int| s[i]@)
}

/// Every element of the sequence is well formed.
pub open spec fn all_wf(s: Seq<FieldElement>) -> bool {
    forall|i: int| 0 <= i < s.len() ==> #[trigger] s[i].wf()
}

/// `blstrs::Scalar::multiplicative_generator`. Claimed: the constant it
/// returns is the canonical element 7.
#[verifier::external_body]
fn scalar_generator() -> (r: FieldElement)
    ensures
        r.wf(),
        r@ == generator_value(),
{
    let [l0, l1, l2, l3] = blstrs::Scalar::multiplicative_generator().to_le_bits().into_inner();
    FieldElement { l0, l1, l2, l3 }
}

/// `blstrs::Scalar::root_of_unity`. Claimed: the constant it returns, taken
/// out of Montgomery form, is [`root_of_unity_value`], that is the generator
/// raised to `(modulus - 1) / 2^32`.
#[verifier::external_body]
fn scalar_root_of_unity() -> (r: FieldElement)
    ensures
        r.wf(),
        r@ == root_of_unity_value(),
{
    let [l0, l1, l2, l3] = blstrs::Scalar::root_of_unity().to_le_bits().into_inner();
    FieldElement { l0, l1, l2, l3 }
}

/// The constant `blstrs::Scalar::S`. Claimed: it is 32.
#[verifier::external_body]
fn scalar_two_adicity() -> (r: u32)
    ensures
        r == 32,
{
    blstrs::Scalar::S
}

/// `+` of `blstrs::Scalar`. Claimed: the canonical representative of the
/// result is the sum of those of the operands, reduced modulo the prime.
#[verifier::external_body]
fn scalar_add(a: &FieldElement, b: &FieldElement) -> (r: FieldElement)
    requires
        a.wf(),
        b.wf(),
    ensures
        r.wf(),
        r@ == add_mod(a@, b@),
{
    let x = blstrs::Scalar::from_u64s_le(&[a.l0, a.l1, a.l2, a.l3]).unwrap();
    let y = blstrs::Scalar::from_u64s_le(&[b.l0, b.l1, b.l2, b.l3]).unwrap();
    let [l0, l1, l2, l3] = (x + y).to_le_bits().into_inner();
    FieldElement { l0, l1, l2, l3 }
}

/// `-` of `blstrs::Scalar`. Claimed: the canonical representative of the
/// result is the difference of those of the operands, reduced modulo the
/// prime into `[0, modulus)`.
#[verifier::external_body]
fn scalar_sub(a: &FieldElement, b: &FieldElement) -> (r: FieldElement)
    requires
        a.wf(),
        b.wf(),
    ensures
        r.wf(),
        r@ == sub_mod(a@, b@),
{
    let x = blstrs::Scalar::from_u64s_le(&[a.l0, a.l1, a.l2, a.l3]).unwrap();
    let y = blstrs::Scalar::from_u64s_le(&[b.l0, b.l1, b.l2, b.l3]).unwrap();
    let [l0, l1, l2, l3] = (x - y).to_le_bits().into_inner();
    FieldElement { l0, l1, l2, l3 }
}

/// `*` of `blstrs::Scalar`. Claimed: the canonical representative of the
/// result is the product of those of the operands, reduced modulo the prime.
#[verifier::external_body]
fn scalar_mul(a: &FieldElement, b: &FieldElement) -> (r: FieldElement)
    requires
        a.wf(),
        b.wf(),
    ensures
        r.wf(),
        r@ == mul_mod(a@, b@),
{
    let x = blstrs::Scalar::from_u64s_le(&[a.l0, a.l1, a.l2, a.l3]).unwrap();
    let y = blstrs::Scalar::from_u64s_le(&[b.l0, b.l1, b.l2, b.l3]).unwrap();
    let [l0, l1, l2, l3] = (x * y).to_le_bits().into_inner();
    FieldElement { l0, l1, l2, l3 }
}

/// `pow_vartime` of `blstrs::Scalar` with a one-limb exponent. Claimed: the
/// result is `a` multiplied with itself `e` times, and 1 for `e == 0`.
#[verifier::external_body]
fn scalar_pow(a: &FieldElement, e: u64) -> (r: FieldElement)
    requires
        a.wf(),
    ensures
        r.wf(),
        r@ == pow_mod(a@, e as nat),
{
    let x = blstrs::Scalar::from_u64s_le(&[a.l0, a.l1, a.l2, a.l3]).unwrap();
    let [l0, l1, l2, l3] = x.pow_vartime(&[e]).to_le_bits().into_inner();
    FieldElement { l0, l1, l2, l3 }
}

/// `invert` of `blstrs::Scalar`. Claimed: it fails on zero and on nothing
/// else, and the product of an element with its inverse is 1.
#[verifier::external_body]
fn scalar_invert(a: &FieldElement) -> (r: Option<FieldElement>)
    requires
        a.wf(),
    ensures
        r is Some <==> a@ != 0,
        r is Some ==> r->0.wf() && mul_mod(a@, r->0@) == 1,
{
    let x = blstrs::Scalar::from_u64s_le(&[a.l0, a.l1, a.l2, a.l3]).unwrap();
    match Option::<blstrs::Scalar>::from(x.invert()) {
        Some(y) => {
            let [l0, l1, l2, l3] = y.to_le_bits().into_inner();
            Some(FieldElement { l0, l1, l2, l3 })
        },
        None => None,
    }
}

} // verus!
