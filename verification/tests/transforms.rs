use blstrs::Scalar;
use evaluation_domain::domain::EvaluationDomain;
use evaluation_domain::fft::{best_fft, fft_lane, fft_with_lanes, parallel_fft, serial_fft};
use evaluation_domain::field::FieldElement;
use pairing::group::ff::Field;
use rand::rngs::SmallRng;
use rand::{Rng, RngCore, SeedableRng};

fn to_element(s: &Scalar) -> FieldElement {
    let bytes = s.to_bytes_le();
    let mut limbs = [0u64; 4];
    for i in 0..4 {
        let mut word = [0u8; 8];
        word.copy_from_slice(&bytes[8 * i..8 * i + 8]);
        limbs[i] = u64::from_le_bytes(word);
    }
    FieldElement::from_u64s_le(&limbs).unwrap()
}

fn to_scalar(e: &FieldElement) -> Scalar {
    Option::from(Scalar::from_u64s_le(&e.to_u64s_le())).unwrap()
}

fn random_elements<R: RngCore>(rng: &mut R, n: usize) -> Vec<FieldElement> {
    (0..n).map(|_| to_element(&Scalar::random(&mut *rng))).collect()
}

fn small(values: &[u64]) -> Vec<FieldElement> {
    values.iter().map(|v| FieldElement::from_u64(*v)).collect()
}

// The transform as the sum that defines it, with the arithmetic of blstrs.
fn naive_dft(a: &[FieldElement], omega: &FieldElement) -> Vec<FieldElement> {
    let w = to_scalar(omega);
    let n = a.len();
    let mut out = Vec::new();
    for i in 0..n {
        let mut sum = Scalar::zero();
        for j in 0..n {
            let exponent = (i * j) as u64;
            sum += to_scalar(&a[j]) * w.pow_vartime(&[exponent]);
        }
        out.push(to_element(&sum));
    }
    out
}

// Schoolbook multiplication of two coefficient lists.
fn naive_mul(a: &[FieldElement], b: &[FieldElement]) -> Vec<FieldElement> {
    let mut out = vec![Scalar::zero(); a.len() + b.len() - 1];
    for i in 0..a.len() {
        for j in 0..b.len() {
            out[i + j] += to_scalar(&a[i]) * to_scalar(&b[j]);
        }
    }
    out.iter().map(to_element).collect()
}

// Multiplication by way of evaluation: transform, multiply place by place,
// transform back.
fn fft_mul(a: &[FieldElement], b: &[FieldElement]) -> Vec<FieldElement> {
    let len = a.len() + b.len() - 1;
    let mut pa = a.to_vec();
    pa.resize(len, FieldElement::zero());
    let mut pb = b.to_vec();
    pb.resize(len, FieldElement::zero());
    let mut da = EvaluationDomain::from_coeffs(pa).unwrap();
    let mut db = EvaluationDomain::from_coeffs(pb).unwrap();
    da.fft();
    db.fft();
    da.mul_assign(&db);
    da.ifft();
    let mut out = da.into_coeffs();
    out.truncate(len);
    out
}

#[test]
fn polynomial_arith() {
    fn test_mul<R: Rng>(rng: &mut R) {
        for coeffs_a in vec![1, 5, 10, 50] {
            for coeffs_b in vec![1, 5, 10, 50] {
                let a = random_elements(rng, coeffs_a);
                let b = random_elements(rng, coeffs_b);

                // naive evaluation
                let naive = naive_mul(&a, &b);
                let fft = fft_mul(&a, &b);

                assert!(naive == fft);
            }
        }
    }

    let rng = &mut SmallRng::from_seed([42; 32]);

    test_mul(rng);
}

#[test]
fn fft_composition() {
    fn test_comp<R: RngCore>(rng: &mut R) {
        for coeffs in 0..10 {
            let coeffs = 1 << coeffs;

            let v = random_elements(rng, coeffs);

            let mut domain = EvaluationDomain::from_coeffs(v.clone()).unwrap();
            domain.ifft();
            domain.fft();
            assert!(v == domain.coeffs);
            domain.fft();
            domain.ifft();
            assert!(v == domain.coeffs);
            domain.icoset_fft();
            domain.coset_fft();
            assert!(v == domain.coeffs);
            domain.coset_fft();
            domain.icoset_fft();
            assert!(v == domain.coeffs);
        }
    }

    let rng = &mut rand::thread_rng();

    test_comp(rng);
}

#[test]
fn parallel_fft_consistency() {
    fn test_consistency<R: RngCore>(rng: &mut R) {
        for _ in 0..5 {
            for log_d in 0..10 {
                let d = 1 << log_d;

                let v1 = random_elements(rng, d);
                let mut v1 = EvaluationDomain::from_coeffs(v1).unwrap();
                let mut v2 = EvaluationDomain::from_coeffs(v1.coeffs.clone()).unwrap();

                let upper = if log_d + 1 < 3 { log_d + 1 } else { 3 };
                for log_cpus in log_d..upper {
                    let omega1 = v1.omega;
                    let omega2 = v2.omega;
                    parallel_fft(&mut v1.coeffs, &omega1, log_d, log_cpus);
                    serial_fft(&mut v2.coeffs, &omega2, log_d);

                    assert!(v1.coeffs == v2.coeffs);
                }
            }
        }
    }

    let rng = &mut rand::thread_rng();

    test_consistency(rng);
}

#[test]
fn parallel_matches_serial_for_every_lane_count() {
    let rng = &mut SmallRng::from_seed([7; 32]);
    for log_n in 0..8u32 {
        let v = random_elements(rng, 1 << log_n);
        let domain = EvaluationDomain::from_coeffs(v.clone()).unwrap();
        let mut serial = v.clone();
        serial_fft(&mut serial, &domain.omega, log_n);
        for log_cpus in 0..=log_n {
            let mut parallel = v.clone();
            parallel_fft(&mut parallel, &domain.omega, log_n, log_cpus);
            assert_eq!(parallel, serial);
            let mut dispatched = v.clone();
            fft_with_lanes(&mut dispatched, &domain.omega, log_n, log_cpus);
            assert_eq!(dispatched, serial);
        }
        let mut best = v.clone();
        best_fft(&mut best, &domain.omega, log_n);
        assert_eq!(best, serial);
    }
}

#[test]
fn serial_fft_is_the_defining_sum() {
    let rng = &mut SmallRng::from_seed([3; 32]);
    for log_n in 0..6u32 {
        let v = random_elements(rng, 1 << log_n);
        let domain = EvaluationDomain::from_coeffs(v.clone()).unwrap();
        let expected = naive_dft(&v, &domain.omega);
        let mut buf = v.clone();
        serial_fft(&mut buf, &domain.omega, log_n);
        assert_eq!(buf, expected);
    }
}

#[test]
fn fft_of_a_constant_and_of_x() {
    // The polynomial 5 has the value 5 everywhere.
    let mut d = EvaluationDomain::from_coeffs(small(&[5, 0, 0, 0])).unwrap();
    d.fft();
    assert_eq!(d.coeffs, small(&[5, 5, 5, 5]));
    // The polynomial x has the value omega^i at omega^i.
    let mut d = EvaluationDomain::from_coeffs(small(&[0, 1, 0, 0])).unwrap();
    let w = d.omega;
    d.fft();
    assert_eq!(d.coeffs, vec![FieldElement::one(), w, w.pow(2), w.pow(3)]);
    // Two entries: (a + b, a - b).
    let mut d = EvaluationDomain::from_coeffs(small(&[9, 4])).unwrap();
    d.fft();
    assert_eq!(d.coeffs, small(&[13, 5]));
}

#[test]
fn ifft_scales_by_the_inverse_of_the_size() {
    // The values (4, 0, 0, 0) are those of the constant polynomial 1.
    let mut d = EvaluationDomain::from_coeffs(small(&[4, 4, 4, 4])).unwrap();
    d.ifft();
    assert_eq!(d.coeffs, small(&[4, 0, 0, 0]));
    let mut d = EvaluationDomain::from_coeffs(small(&[13, 5])).unwrap();
    d.ifft();
    assert_eq!(d.coeffs, small(&[9, 4]));
}

#[test]
fn lane_holds_every_cpus_th_entry() {
    let rng = &mut SmallRng::from_seed([11; 32]);
    let log_n = 5u32;
    let log_cpus = 2u32;
    let v = random_elements(rng, 1 << log_n);
    let domain = EvaluationDomain::from_coeffs(v.clone()).unwrap();
    let mut full = v.clone();
    serial_fft(&mut full, &domain.omega, log_n);
    for j in 0..4usize {
        let lane = fft_lane(&v, &domain.omega, log_n, log_cpus, j);
        assert_eq!(lane.len(), 8);
        for k in 0..8usize {
            assert_eq!(lane[k], full[j + k * 4]);
        }
    }
}

#[test]
fn coset_fft_evaluates_on_the_coset() {
    // The polynomial x has the value 7 * omega^i at 7 * omega^i.
    let mut d = EvaluationDomain::from_coeffs(small(&[0, 1, 0, 0])).unwrap();
    let w = d.omega;
    let g = FieldElement::multiplicative_generator();
    d.coset_fft();
    assert_eq!(d.coeffs, vec![g, g.mul(&w), g.mul(&w.pow(2)), g.mul(&w.pow(3))]);
    d.icoset_fft();
    assert_eq!(d.coeffs, small(&[0, 1, 0, 0]));
}

#[test]
fn division_by_the_vanishing_polynomial() {
    // (x^4 - 1) * (3 + 2x), a polynomial of degree 5 that vanishes on the
    // roots of unity of order 4, in a domain of 8 entries.
    let minus = |v: u64| FieldElement::zero().sub(&FieldElement::from_u64(v));
    let product = vec![
        minus(3),
        minus(2),
        FieldElement::zero(),
        FieldElement::zero(),
        FieldElement::from_u64(3),
        FieldElement::from_u64(2),
        FieldElement::zero(),
        FieldElement::zero(),
    ];
    let mut d = EvaluationDomain::from_coeffs(product).unwrap();
    d.coset_fft();
    // On the coset of the domain of 8 entries, x^4 - 1 takes the two values
    // 7^4 - 1 and -7^4 - 1 in turn; divide by them place by place.
    let g4 = FieldElement::from_u64(2401);
    let even = g4.sub(&FieldElement::one()).invert().unwrap();
    let odd = FieldElement::zero().sub(&g4).sub(&FieldElement::one()).invert().unwrap();
    let mut quotient = Vec::new();
    for (i, v) in d.coeffs.iter().enumerate() {
        quotient.push(if i % 2 == 0 { v.mul(&even) } else { v.mul(&odd) });
    }
    let mut q = d.clone_with_different_coeffs(quotient);
    q.icoset_fft();
    assert_eq!(q.coeffs, small(&[3, 2, 0, 0, 0, 0, 0, 0]));
}

#[test]
fn divide_by_z_on_coset_multiplies_by_the_inverse() {
    let rng = &mut SmallRng::from_seed([5; 32]);
    let v = random_elements(rng, 8);
    let mut d = EvaluationDomain::from_coeffs(v.clone()).unwrap();
    let z = d.z(&FieldElement::multiplicative_generator());
    // 7^8 - 1
    assert_eq!(z, FieldElement::from_u64(5764800));
    d.divide_by_z_on_coset();
    for i in 0..8 {
        assert_eq!(d.coeffs[i].mul(&z), v[i]);
        assert_eq!(d.coeffs[i], v[i].mul(&z.invert().unwrap()));
    }
}

#[test]
fn quotient_by_the_vanishing_polynomial_through_the_coset() {
    // h = (a * b - c) / z with a * b - c divisible by z = x^4 - 1, where the
    // domain has 4 entries: a = b = x^2, c = 1, so a * b - c = x^4 - 1 and
    // the quotient is 1. In a domain of 4 entries x^4 wraps round to 1, so
    // the buffers hold a = b = x^2 and c = 1.
    let mut a = EvaluationDomain::from_coeffs(small(&[0, 0, 1, 0])).unwrap();
    let mut b = EvaluationDomain::from_coeffs(small(&[0, 0, 1, 0])).unwrap();
    let mut c = EvaluationDomain::from_coeffs(small(&[1, 0, 0, 0])).unwrap();
    a.coset_fft();
    b.coset_fft();
    c.coset_fft();
    a.mul_assign(&b);
    a.sub_assign(&c);
    a.divide_by_z_on_coset();
    a.icoset_fft();
    assert_eq!(a.coeffs, small(&[1, 0, 0, 0]));
}
