//! The form in which a domain is written out: the buffer and the cached
//! constants, every element as the four little-endian limbs of its canonical
//! representative. The size is not written; it is `2^exp`.

use vstd::prelude::*;
use vstd::arithmetic::power2::pow2;
use crate::domain::{pow2_u64, EvaluationDomain};
use crate::field::{limbs_value, modulus, FieldElement};

verus! {

/// The integer that the limbs stand for.
pub open spec fn limbs_of(l: [u64; 4]) -> nat {
    limbs_value(l[0], l[1], l[2], l[3])
}

/// A domain as it is written out. There is no field for the size.
#[derive(Debug, Clone, PartialEq, Eq)]
pub struct SerializableEvaluationDomain {
    pub coeffs: Vec<[u64; 4]>,
    pub exp: u32,
    pub omega: [u64; 4],
    pub omegainv: [u64; 4],
    pub geninv: [u64; 4],
    pub minv: [u64; 4],
}

impl SerializableEvaluationDomain {
    /// Every field holds the limbs of the field of `domain` that it is named
    /// after.
    pub open spec fn encodes(&self, domain: &EvaluationDomain) -> bool {
        &&& self.exp == domain.exp
        &&& self.coeffs@.len() == domain.coeffs@.len()
        &&& forall|i: int|
            0 <= i < self.coeffs@.len() ==> limbs_of(#[trigger] self.coeffs@[i])
                == domain.coeffs@[i]@
        &&& limbs_of(self.omega) == domain.omega@
        &&& limbs_of(self.omegainv) == domain.omegainv@
        &&& limbs_of(self.geninv) == domain.geninv@
        &&& limbs_of(self.minv) == domain.minv@
    }

    /// A domain can be read back: the exponent is in range, the buffer has
    /// `2^exp` entries, and all limbs are those of canonical representatives.
    pub open spec fn decodable(&self) -> bool {
        &&& self.exp <= 32
        &&& self.coeffs@.len() == pow2(self.exp as nat)
        &&& forall|i: int|
            0 <= i < self.coeffs@.len() ==> limbs_of(#[trigger] self.coeffs@[i]) < modulus()
        &&& limbs_of(self.omega) < modulus()
        &&& limbs_of(self.omegainv) < modulus()
        &&& limbs_of(self.geninv) < modulus()
        &&& limbs_of(self.minv) < modulus()
    }

    /// Writes a domain out.
    pub fn from_domain(domain: &EvaluationDomain) -> (r: SerializableEvaluationDomain)
        ensures
            r.encodes(domain),
    {
        let mut coeffs: Vec<[u64; 4]> = Vec::new();
        let n: usize = domain.coeffs.len();
        let mut i: usize = 0;
        while i < n
            invariant
                i <= n,
                n == domain.coeffs@.len(),
                coeffs@.len() == i,
                forall|k: int|
                    0 <= k < i ==> limbs_of(#[trigger] coeffs@[k]) == domain.coeffs@[k]@,
            decreases n - i,
        {
            coeffs.push(domain.coeffs[i].to_u64s_le());
            i += 1;
        }
        SerializableEvaluationDomain {
            coeffs,
            exp: domain.exp,
            omega: domain.omega.to_u64s_le(),
            omegainv: domain.omegainv.to_u64s_le(),
            geninv: domain.geninv.to_u64s_le(),
            minv: domain.minv.to_u64s_le(),
        }
    }

    /// Reads a domain back, where there is one. Its size is `2^exp`, its
    /// elements are well formed and are the ones written; that its constants
    /// fit together is for the writer to have seen to.
    pub fn to_domain(&self) -> (r: Option<EvaluationDomain>)
        ensures
            r is Some <==> self.decodable(),
            r is Some ==> ({
                let domain = r->0;
                &&& self.encodes(&domain)
                &&& domain.d == pow2(self.exp as nat)
                &&& domain.coeffs@.len() == domain.d
                &&& crate::field::all_wf(domain.coeffs@)
                &&& domain.omega.wf()
                &&& domain.omegainv.wf()
                &&& domain.geninv.wf()
                &&& domain.minv.wf()
            }),
    {
        if self.exp > 32 {
            return None;
        }
        let n: usize = self.coeffs.len();
        if n as u64 != pow2_u64(self.exp) {
            return None;
        }
        let omega = match FieldElement::from_u64s_le(&self.omega) {
            Some(e) => e,
            None => {
                return None;
            },
        };
        let omegainv = match FieldElement::from_u64s_le(&self.omegainv) {
            Some(e) => e,
            None => {
                return None;
            },
        };
        let geninv = match FieldElement::from_u64s_le(&self.geninv) {
            Some(e) => e,
            None => {
                return None;
            },
        };
        let minv = match FieldElement::from_u64s_le(&self.minv) {
            Some(e) => e,
            None => {
                return None;
            },
        };
        let mut coeffs: Vec<FieldElement> = Vec::new();
        let mut i: usize = 0;
        while i < n
            invariant
                i <= n,
                n == self.coeffs@.len(),
                coeffs@.len() == i,
                crate::field::all_wf(coeffs@),
                forall|k: int| 0 <= k < i ==> limbs_of(#[trigger] self.coeffs@[k]) == coeffs@[k]@,
            decreases n - i,
        {
            match FieldElement::from_u64s_le(&self.coeffs[i]) {
                Some(e) => {
                    coeffs.push(e);
                },
                None => {
                    return None;
                },
            }
            i += 1;
        }
        proof {
            assert forall|k: int| 0 <= k < n implies limbs_of(#[trigger] self.coeffs@[k])
                < modulus() by {
                assert(coeffs@[k].wf());
            }
        }
        Some(EvaluationDomain { coeffs, d: n, exp: self.exp, omega, omegainv, geninv, minv })
    }

    /// What is written determines what is read: two domains of size `2^exp`
    /// that the same record encodes have the same buffer and the same
    /// constants.
    pub proof fn lemma_round_trip(&self, written: &EvaluationDomain, read: &EvaluationDomain)
        requires
            self.encodes(written),
            self.encodes(read),
            written.d == read.d,
        ensures
            read.coeffs@ == written.coeffs@,
            read.same_shape(written),
    {
        assert forall|i: int| 0 <= i < read.coeffs@.len() implies read.coeffs@[i]
            == written.coeffs@[i] by {
            assert(limbs_of(self.coeffs@[i]) == read.coeffs@[i]@);
            read.coeffs@[i].lemma_view_injective(written.coeffs@[i]);
        }
        assert(read.coeffs@ =~= written.coeffs@);
        read.omega.lemma_view_injective(written.omega);
        read.omegainv.lemma_view_injective(written.omegainv);
        read.geninv.lemma_view_injective(written.geninv);
        read.minv.lemma_view_injective(written.minv);
    }
}

} // verus!
