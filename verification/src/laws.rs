//! What holds of the transforms taken together: each inverse transform
//! undoes its transform, the two ways of computing a transform agree, and
//! the vanishing polynomial of a domain vanishes on it.

use vstd::prelude::*;
use crate::convolution::{lemma_multiplication_via_evaluation, product};
use crate::dft::{
    dft,
    dft_at,
    inverse_dft,
    lemma_dft_at_bound,
    padded,
    pointwise_mul,
    reduced,
    scaled,
    with_powers,
};
use crate::domain::EvaluationDomain;
use crate::fft::lemma_values_reduced;
use crate::field::{generator_value, modulus, mul_mod, pow_mod, sub_mod, values, FieldElement};
use crate::orthogonality::{lemma_dft_of_inverse_dft, lemma_inverse_dft_of_dft};
use crate::ring::{
    lemma_mul_mod_assoc,
    lemma_mul_mod_bound,
    lemma_mul_mod_comm,
    lemma_mul_mod_one,
    lemma_pow_mod_bound,
    lemma_pow_mod_mul,
    lemma_pow_mod_of_mul,
    lemma_pow_mod_of_one,
    lemma_sub_mod_self,
};

verus! {

/// Multiplying entry `i` by `g^i` and then by `ginv^i` changes nothing.
pub proof fn lemma_with_powers_inverse(a: Seq<nat>, g: nat, ginv: nat)
    requires
        reduced(a),
        mul_mod(g, ginv) == 1,
    ensures
        with_powers(with_powers(a, g), ginv) == a,
        with_powers(with_powers(a, ginv), g) == a,
{
    lemma_mul_mod_comm(g, ginv);
    assert forall|i: int| 0 <= i < a.len() implies with_powers(with_powers(a, g), ginv)[i] == a[i]
        && with_powers(with_powers(a, ginv), g)[i] == a[i] by {
        let e = i as nat;
        lemma_pow_mod_of_mul(g, ginv, e);
        lemma_pow_mod_of_mul(ginv, g, e);
        lemma_pow_mod_of_one(e);
        lemma_mul_mod_assoc(a[i], pow_mod(g, e), pow_mod(ginv, e));
        lemma_mul_mod_assoc(a[i], pow_mod(ginv, e), pow_mod(g, e));
        lemma_mul_mod_one(a[i]);
    }
    assert(with_powers(with_powers(a, g), ginv) =~= a);
    assert(with_powers(with_powers(a, ginv), g) =~= a);
}

/// The entries of a sequence multiplied by powers are canonical.
pub proof fn lemma_with_powers_reduced(a: Seq<nat>, g: nat)
    ensures
        reduced(with_powers(a, g)),
        with_powers(a, g).len() == a.len(),
{
    assert forall|i: int| 0 <= i < a.len() implies #[trigger] with_powers(a, g)[i] < modulus() by {
        lemma_mul_mod_bound(a[i], pow_mod(g, i as nat));
    }
}

/// The entries of an inverse transform are canonical.
pub proof fn lemma_inverse_dft_reduced(a: Seq<nat>, winv: nat, ninv: nat)
    ensures
        reduced(inverse_dft(a, winv, ninv)),
        inverse_dft(a, winv, ninv).len() == a.len(),
{
    assert forall|i: int| 0 <= i < a.len() implies #[trigger] inverse_dft(a, winv, ninv)[i]
        < modulus() by {
        lemma_mul_mod_bound(dft_at(a, winv, i), ninv);
    }
}

/// Two buffers of well-formed elements with the same values are the same.
pub proof fn lemma_values_injective(s: Seq<FieldElement>, t: Seq<FieldElement>)
    requires
        values(s) == values(t),
    ensures
        s == t,
{
    assert(s.len() == values(s).len());
    assert(t.len() == values(t).len());
    assert forall|i: int| 0 <= i < s.len() implies s[i] == t[i] by {
        assert(values(s)[i] == s[i]@);
        assert(values(t)[i] == t[i]@);
        s[i].lemma_view_injective(t[i]);
    }
    assert(s =~= t);
}

impl EvaluationDomain {
    /// The transform round trip: in a consistent domain, `ifft` after `fft`
    /// and `fft` after `ifft` both give the buffer back.
    pub proof fn lemma_fft_round_trip(self)
        requires
            self.wf(),
        ensures
            inverse_dft(dft(self@, self.omega@), self.omegainv@, self.minv@) == self@,
            dft(inverse_dft(self@, self.omegainv@, self.minv@), self.omega@) == self@,
    {
        lemma_values_reduced(self.coeffs@);
        lemma_inverse_dft_of_dft(
            self@,
            self.omega@,
            self.omegainv@,
            self.minv@,
            self.exp as nat,
        );
        lemma_dft_of_inverse_dft(
            self@,
            self.omega@,
            self.omegainv@,
            self.minv@,
            self.exp as nat,
        );
    }

    /// The coset round trip: in a consistent domain, `icoset_fft` after
    /// `coset_fft` and `coset_fft` after `icoset_fft` both give the buffer
    /// back.
    pub proof fn lemma_coset_round_trip(self)
        requires
            self.wf(),
        ensures
            with_powers(
                inverse_dft(
                    dft(with_powers(self@, generator_value()), self.omega@),
                    self.omegainv@,
                    self.minv@,
                ),
                self.geninv@,
            ) == self@,
            dft(
                with_powers(
                    with_powers(
                        inverse_dft(self@, self.omegainv@, self.minv@),
                        self.geninv@,
                    ),
                    generator_value(),
                ),
                self.omega@,
            ) == self@,
    {
        let a = self@;
        let g = generator_value();
        let l = self.exp as nat;
        lemma_values_reduced(self.coeffs@);
        lemma_with_powers_reduced(a, g);
        lemma_inverse_dft_of_dft(with_powers(a, g), self.omega@, self.omegainv@, self.minv@, l);
        lemma_with_powers_inverse(a, g, self.geninv@);
        let b = inverse_dft(a, self.omegainv@, self.minv@);
        lemma_inverse_dft_reduced(a, self.omegainv@, self.minv@);
        lemma_with_powers_inverse(b, g, self.geninv@);
        lemma_dft_of_inverse_dft(a, self.omega@, self.omegainv@, self.minv@, l);
    }

    /// The vanishing polynomial of a consistent domain is zero at every
    /// power of its root of unity.
    pub proof fn lemma_z_vanishes(self, i: nat)
        requires
            self.wf(),
        ensures
            sub_mod(pow_mod(pow_mod(self.omega@, i), self.coeffs@.len()), 1) == 0,
    {
        let m = self.coeffs@.len();
        lemma_pow_mod_mul(self.omega@, i, m);
        lemma_pow_mod_mul(self.omega@, m, i);
        assert(i * m == m * i) by (nonlinear_arith);
        lemma_pow_mod_of_one(i);
        lemma_sub_mod_self(1);
    }

    /// On the coset of a consistent domain by the generator, the vanishing
    /// polynomial is constant: at `7 * omega^i` it has the value that it has
    /// at `7`.
    pub proof fn lemma_z_constant_on_coset(self, i: nat)
        requires
            self.wf(),
        ensures
            sub_mod(
                pow_mod(mul_mod(generator_value(), pow_mod(self.omega@, i)), self.coeffs@.len()),
                1,
            ) == sub_mod(pow_mod(generator_value(), self.coeffs@.len()), 1),
    {
        let m = self.coeffs@.len();
        let g = generator_value();
        lemma_pow_mod_of_mul(g, pow_mod(self.omega@, i), m);
        lemma_pow_mod_mul(self.omega@, i, m);
        lemma_pow_mod_mul(self.omega@, m, i);
        assert(i * m == m * i) by (nonlinear_arith);
        lemma_pow_mod_of_one(i);
        lemma_pow_mod_bound(g, m);
        lemma_mul_mod_one(pow_mod(g, m));
    }

    /// What `divide_by_z_on_coset` is for. Let the buffer of a consistent
    /// domain hold, at every point `7 * omega^i` of the coset, the value of
    /// a polynomial `h` times the value of the vanishing polynomial. Then
    /// multiplying every entry by `zinv`, the inverse of the vanishing
    /// polynomial's value at `7`, leaves the values of `h` on the coset.
    pub proof fn lemma_division_on_coset(self, h: Seq<nat>, zinv: nat)
        requires
            self.wf(),
            h.len() == self.coeffs@.len(),
            mul_mod(sub_mod(pow_mod(generator_value(), self.coeffs@.len()), 1), zinv) == 1,
            forall|i: int|
                0 <= i < self.coeffs@.len() ==> #[trigger] self@[i] == mul_mod(
                    dft(with_powers(h, generator_value()), self.omega@)[i],
                    sub_mod(
                        pow_mod(
                            mul_mod(generator_value(), pow_mod(self.omega@, i as nat)),
                            self.coeffs@.len(),
                        ),
                        1,
                    ),
                ),
        ensures
            scaled(self@, zinv) == dft(with_powers(h, generator_value()), self.omega@),
    {
        let m = self.coeffs@.len();
        let z = sub_mod(pow_mod(generator_value(), m), 1);
        let hv = dft(with_powers(h, generator_value()), self.omega@);
        assert forall|i: int| 0 <= i < m implies scaled(self@, zinv)[i] == hv[i] by {
            self.lemma_z_constant_on_coset(i as nat);
            assert(self@[i] == mul_mod(hv[i], z));
            lemma_mul_mod_assoc(hv[i], z, zinv);
            lemma_dft_at_bound(with_powers(h, generator_value()), self.omega@, i);
            lemma_mul_mod_one(hv[i]);
        }
        assert(scaled(self@, zinv) =~= hv);
    }

    /// Multiplication by way of evaluation, in a consistent domain. Let two
    /// buffers of the domain's size hold the coefficients of `a` and of `b`,
    /// padded with zeros, and let the domain be large enough for the
    /// product. Then `fft` on both, `mul_assign` and `ifft` leave the
    /// coefficients of the product, padded.
    pub proof fn lemma_product_via_evaluation(self, a: Seq<nat>, b: Seq<nat>)
        requires
            self.wf(),
            a.len() > 0,
            b.len() > 0,
            a.len() + b.len() - 1 <= self.d,
        ensures
            inverse_dft(
                pointwise_mul(
                    dft(padded(a, self.d as nat), self.omega@),
                    dft(padded(b, self.d as nat), self.omega@),
                ),
                self.omegainv@,
                self.minv@,
            ) == padded(product(a, b), self.d as nat),
    {
        lemma_multiplication_via_evaluation(
            a,
            b,
            self.omega@,
            self.omegainv@,
            self.minv@,
            self.exp as nat,
        );
    }
}

/// The serial transform and the decomposed one agree, whatever the number of
/// lanes: two buffers of which each holds the transform of the same input
/// are the same, element for element.
pub proof fn lemma_serial_parallel_agree(
    serial: Seq<FieldElement>,
    parallel: Seq<FieldElement>,
    input: Seq<FieldElement>,
    omega: FieldElement,
)
    requires
        values(serial) == dft(values(input), omega@),
        values(parallel) == dft(values(input), omega@),
    ensures
        serial == parallel,
{
    lemma_values_injective(serial, parallel);
}

} // verus!
