use evaluation_domain::bitrev::bitreverse;
use evaluation_domain::domain::{pow2_u64, EvaluationDomain};
use evaluation_domain::error::KZGError;
use evaluation_domain::fft::{log2, pow2_usize};
use evaluation_domain::field::FieldElement;

fn small(values: &[u64]) -> Vec<FieldElement> {
    values.iter().map(|v| FieldElement::from_u64(*v)).collect()
}

const MODULUS: [u64; 4] = [
    0xffff_ffff_0000_0001,
    0x53bd_a402_fffe_5bfe,
    0x3339_d808_09a1_d805,
    0x73ed_a753_299d_7d48,
];

#[test]
fn limbs_below_the_modulus_are_accepted() {
    let mut below = MODULUS;
    below[0] -= 1;
    let e = FieldElement::from_u64s_le(&below).unwrap();
    assert_eq!(e.to_u64s_le(), below);
    // modulus - 1 is -1
    assert_eq!(e.add(&FieldElement::one()), FieldElement::zero());
    assert_eq!(FieldElement::from_u64s_le(&[5, 0, 0, 0]), Some(FieldElement::from_u64(5)));
    assert_eq!(FieldElement::from_u64s_le(&[0, 0, 0, 0]), Some(FieldElement::zero()));
}

#[test]
fn limbs_from_the_modulus_up_are_refused() {
    assert_eq!(FieldElement::from_u64s_le(&MODULUS), None);
    let mut above = MODULUS;
    above[0] += 1;
    assert_eq!(FieldElement::from_u64s_le(&above), None);
    let mut high = MODULUS;
    high[0] = 0;
    high[3] += 1;
    assert_eq!(FieldElement::from_u64s_le(&high), None);
    assert_eq!(FieldElement::from_u64s_le(&[u64::MAX; 4]), None);
    let mut middle = MODULUS;
    middle[0] = 0;
    middle[1] += 1;
    assert_eq!(FieldElement::from_u64s_le(&middle), None);
}

#[test]
fn field_arithmetic_on_small_values() {
    let a = FieldElement::from_u64(12);
    let b = FieldElement::from_u64(5);
    assert_eq!(a.add(&b), FieldElement::from_u64(17));
    assert_eq!(a.sub(&b), FieldElement::from_u64(7));
    assert_eq!(a.mul(&b), FieldElement::from_u64(60));
    assert_eq!(FieldElement::from_u64(2).pow(10), FieldElement::from_u64(1024));
    assert_eq!(a.pow(0), FieldElement::one());
    assert_eq!(FieldElement::zero().pow(0), FieldElement::one());
    assert_eq!(a.pow(1), a);
    assert!(FieldElement::zero().is_zero());
    assert!(!FieldElement::one().is_zero());
}

#[test]
fn subtraction_wraps_round_the_modulus() {
    // 5 - 12 == modulus - 7
    let d = FieldElement::from_u64(5).sub(&FieldElement::from_u64(12));
    let mut expected = MODULUS;
    expected[0] -= 7;
    assert_eq!(d.to_u64s_le(), expected);
    assert_eq!(d.add(&FieldElement::from_u64(12)), FieldElement::from_u64(5));
}

#[test]
fn multiplication_reduces_modulo_the_prime() {
    // (modulus - 1)^2 == 1
    let mut limbs = MODULUS;
    limbs[0] -= 1;
    let minus_one = FieldElement::from_u64s_le(&limbs).unwrap();
    assert_eq!(minus_one.mul(&minus_one), FieldElement::one());
    // 2^64 * 2^64 == 2^128
    let x = FieldElement::from_u64s_le(&[0, 1, 0, 0]).unwrap();
    assert_eq!(x.mul(&x).to_u64s_le(), [0, 0, 1, 0]);
    // 2^255 mod modulus
    assert_eq!(
        FieldElement::from_u64(2).pow(255).to_u64s_le(),
        [
            0x0000_0000_ffff_ffff,
            0xac42_5bfd_0001_a401,
            0xccc6_27f7_f65e_27fa,
            0x0c12_58ac_d662_82b7,
        ]
    );
}

#[test]
fn inversion() {
    assert_eq!(FieldElement::zero().invert(), None);
    assert_eq!(FieldElement::one().invert(), Some(FieldElement::one()));
    let two = FieldElement::from_u64(2);
    let half = two.invert().unwrap();
    assert_eq!(half.mul(&two), FieldElement::one());
    // (modulus + 1) / 2
    assert_eq!(
        half.to_u64s_le(),
        [
            0x7fff_ffff_8000_0001,
            0xa9de_d201_7fff_2dff,
            0x199c_ec04_04d0_ec02,
            0x39f6_d3a9_94ce_bea4,
        ]
    );
}

#[test]
fn field_constants() {
    assert_eq!(FieldElement::two_adicity(), 32);
    assert_eq!(FieldElement::multiplicative_generator(), FieldElement::from_u64(7));
    let root = FieldElement::root_of_unity();
    assert_eq!(
        root.to_u64s_le(),
        [
            0x3829_971f_439f_0d2b,
            0xb636_8350_8c22_80b9,
            0xd09b_6819_22c8_13b4,
            0x16a2_a19e_dfe8_1f20,
        ]
    );
    assert_eq!(root.pow(1 << 32), FieldElement::one());
    let mut limbs = MODULUS;
    limbs[0] -= 1;
    assert_eq!(root.pow(1 << 31).to_u64s_le(), limbs);
}

#[test]
fn sizing_small_degrees() {
    let one = FieldElement::one();
    assert_eq!(EvaluationDomain::compute_omega(0), Ok((1, 0, one)));
    assert_eq!(EvaluationDomain::compute_omega(1), Ok((1, 0, one)));
    let (m, exp, omega) = EvaluationDomain::compute_omega(2).unwrap();
    assert_eq!((m, exp), (2, 1));
    assert_eq!(omega, FieldElement::zero().sub(&one));
    let cases = [
        (3usize, 4usize, 2u32),
        (4, 4, 2),
        (5, 8, 3),
        (8, 8, 3),
        (9, 16, 4),
        (1000, 1024, 10),
        (1025, 2048, 11),
    ];
    for (d, m, exp) in cases {
        let (got_m, got_exp, omega) = EvaluationDomain::compute_omega(d).unwrap();
        assert_eq!((got_m, got_exp), (m, exp));
        assert_eq!(omega, FieldElement::root_of_unity().pow(1 << (32 - exp)));
        assert_eq!(omega.pow(m as u64), one);
        assert_ne!(omega.pow((m / 2) as u64), one);
    }
}

#[test]
fn sizing_at_the_two_adicity() {
    let below = EvaluationDomain::compute_omega(1 << 31).unwrap();
    assert_eq!((below.0, below.1), (1 << 31, 31));
    assert_eq!(below.2, FieldElement::root_of_unity().pow(2));
    let at = EvaluationDomain::compute_omega(1 << 32).unwrap();
    assert_eq!((at.0, at.1), (1 << 32, 32));
    assert_eq!(at.2, FieldElement::root_of_unity());
    let just_below = EvaluationDomain::compute_omega((1 << 31) + 1).unwrap();
    assert_eq!((just_below.0, just_below.1), (1 << 32, 32));
    assert_eq!(
        EvaluationDomain::compute_omega((1 << 32) + 1),
        Err(KZGError::PolynomialDegreeTooLarge)
    );
    assert_eq!(
        EvaluationDomain::compute_omega(1 << 33),
        Err(KZGError::PolynomialDegreeTooLarge)
    );
    assert_eq!(
        EvaluationDomain::compute_omega(usize::MAX),
        Err(KZGError::PolynomialDegreeTooLarge)
    );
}

#[test]
fn from_coeffs_pads_with_zeros() {
    let d = EvaluationDomain::from_coeffs(small(&[1, 2, 3, 4, 5])).unwrap();
    assert_eq!(d.len(), 8);
    assert_eq!(d.d, 8);
    assert_eq!(d.exp, 3);
    assert_eq!(d.coeffs, small(&[1, 2, 3, 4, 5, 0, 0, 0]));
    assert_eq!(d.as_ref(), &small(&[1, 2, 3, 4, 5, 0, 0, 0]));
    assert_eq!(d.omega, FieldElement::root_of_unity().pow(1 << 29));
    assert_eq!(d.omega.mul(&d.omegainv), FieldElement::one());
    assert_eq!(d.geninv.mul(&FieldElement::from_u64(7)), FieldElement::one());
    assert_eq!(d.minv.mul(&FieldElement::from_u64(8)), FieldElement::one());
    assert_eq!(d.into_coeffs(), small(&[1, 2, 3, 4, 5, 0, 0, 0]));
    let empty = EvaluationDomain::from_coeffs(Vec::new()).unwrap();
    assert_eq!(empty.coeffs, small(&[0]));
    assert_eq!((empty.d, empty.exp), (1, 0));
    assert_eq!(empty.omega, FieldElement::one());
    let exact = EvaluationDomain::from_coeffs(small(&[6, 7])).unwrap();
    assert_eq!(exact.coeffs, small(&[6, 7]));
}

#[test]
fn new_computes_the_inverses() {
    let (m, exp, omega) = EvaluationDomain::compute_omega(4).unwrap();
    let d = EvaluationDomain::new(small(&[1, 2, 3, 4]), m, exp, omega);
    assert_eq!(d, EvaluationDomain::from_coeffs(small(&[1, 2, 3, 4])).unwrap());
    assert_eq!(d.omegainv, omega.invert().unwrap());
    assert_eq!(d.omegainv, omega.pow(3));
    assert_eq!(d.geninv, FieldElement::from_u64(7).invert().unwrap());
    assert_eq!(d.minv, FieldElement::from_u64(4).invert().unwrap());
}

#[test]
fn clone_with_different_coeffs_keeps_the_shape() {
    let d = EvaluationDomain::from_coeffs(small(&[1, 2, 3, 4])).unwrap();
    let e = d.clone_with_different_coeffs(small(&[9, 8, 7, 6]));
    assert_eq!(e.coeffs, small(&[9, 8, 7, 6]));
    assert_eq!((e.d, e.exp), (d.d, d.exp));
    assert_eq!((e.omega, e.omegainv, e.geninv, e.minv), (d.omega, d.omegainv, d.geninv, d.minv));
    assert_eq!(d.coeffs, small(&[1, 2, 3, 4]));
}

#[test]
fn distribute_powers_multiplies_by_rising_powers() {
    let mut d = EvaluationDomain::from_coeffs(small(&[1, 1, 1, 1])).unwrap();
    d.distribute_powers(FieldElement::from_u64(3));
    assert_eq!(d.coeffs, small(&[1, 3, 9, 27]));
    let mut d = EvaluationDomain::from_coeffs(small(&[2, 5, 0, 10])).unwrap();
    d.distribute_powers(FieldElement::from_u64(7));
    assert_eq!(d.coeffs, small(&[2, 35, 0, 3430]));
    let g = FieldElement::multiplicative_generator();
    d.distribute_powers(g.invert().unwrap());
    assert_eq!(d.coeffs, small(&[2, 5, 0, 10]));
}

#[test]
fn pointwise_product_and_difference() {
    let mut a = EvaluationDomain::from_coeffs(small(&[1, 2, 3, 4])).unwrap();
    let b = EvaluationDomain::from_coeffs(small(&[5, 6, 7, 8])).unwrap();
    a.mul_assign(&b);
    assert_eq!(a.coeffs, small(&[5, 12, 21, 32]));
    a.sub_assign(&b);
    assert_eq!(a.coeffs, small(&[0, 6, 14, 24]));
    let mut c = EvaluationDomain::from_coeffs(small(&[1, 0])).unwrap();
    let e = EvaluationDomain::from_coeffs(small(&[2, 0])).unwrap();
    c.sub_assign(&e);
    let minus_one = FieldElement::zero().sub(&FieldElement::one());
    assert_eq!(c.coeffs, vec![minus_one, FieldElement::zero()]);
}

#[test]
fn vanishing_polynomial() {
    let d = EvaluationDomain::from_coeffs(small(&[0, 0, 0, 0])).unwrap();
    // 2^4 - 1
    assert_eq!(d.z(&FieldElement::from_u64(2)), FieldElement::from_u64(15));
    // 0^4 - 1
    assert_eq!(d.z(&FieldElement::zero()), FieldElement::zero().sub(&FieldElement::one()));
    assert_eq!(d.z(&FieldElement::one()), FieldElement::zero());
    for i in 0..4u64 {
        assert_eq!(d.z(&d.omega.pow(i)), FieldElement::zero());
    }
    let big = EvaluationDomain::from_coeffs(small(&[0; 64])).unwrap();
    for i in [0u64, 1, 17, 63, 64, 100] {
        assert_eq!(big.z(&big.omega.pow(i)), FieldElement::zero());
    }
    assert_ne!(big.z(&FieldElement::multiplicative_generator()), FieldElement::zero());
}

#[test]
fn bit_reversal() {
    assert_eq!(bitreverse(0, 0), 0);
    assert_eq!(bitreverse(1, 1), 1);
    assert_eq!(bitreverse(1, 3), 4);
    assert_eq!(bitreverse(3, 3), 6);
    assert_eq!(bitreverse(6, 3), 3);
    assert_eq!(bitreverse(0b0001_0110, 8), 0b0110_1000);
    for k in 0..64usize {
        assert_eq!(bitreverse(bitreverse(k, 6), 6), k);
    }
}

#[test]
fn powers_and_logarithms_of_two() {
    assert_eq!(pow2_usize(0), 1);
    assert_eq!(pow2_usize(10), 1024);
    assert_eq!(pow2_u64(0), 1);
    assert_eq!(pow2_u64(32), 1 << 32);
    assert_eq!(pow2_u64(63), 1 << 63);
    assert_eq!(log2(0), 0);
    assert_eq!(log2(1), 0);
    assert_eq!(log2(2), 1);
    assert_eq!(log2(3), 1);
    assert_eq!(log2(4), 2);
    assert_eq!(log2(1023), 9);
    assert_eq!(log2(1024), 10);
    assert_eq!(log2(u64::MAX), 63);
}

#[test]
fn as_mut_changes_the_buffer_only() {
    let mut d = EvaluationDomain::from_coeffs(small(&[1, 2, 3, 4])).unwrap();
    let shape = (d.d, d.exp, d.omega, d.omegainv, d.geninv, d.minv);
    d.as_mut()[2] = FieldElement::from_u64(30);
    assert_eq!(d.coeffs, small(&[1, 2, 30, 4]));
    assert_eq!((d.d, d.exp, d.omega, d.omegainv, d.geninv, d.minv), shape);
}
