use evaluation_domain::domain::EvaluationDomain;
use evaluation_domain::field::FieldElement;
use evaluation_domain::serial::SerializableEvaluationDomain;

const MODULUS: [u64; 4] = [
    0xffff_ffff_0000_0001,
    0x53bd_a402_fffe_5bfe,
    0x3339_d808_09a1_d805,
    0x73ed_a753_299d_7d48,
];

fn sample() -> EvaluationDomain {
    let coeffs = (1..=8u64).map(FieldElement::from_u64).collect();
    let mut d = EvaluationDomain::from_coeffs(coeffs).unwrap();
    d.fft();
    d
}

#[test]
fn written_domain_holds_the_limbs() {
    let coeffs = vec![FieldElement::from_u64(9), FieldElement::from_u64(4)];
    let d = EvaluationDomain::from_coeffs(coeffs).unwrap();
    let s = SerializableEvaluationDomain::from_domain(&d);
    assert_eq!(s.coeffs, vec![[9, 0, 0, 0], [4, 0, 0, 0]]);
    assert_eq!(s.exp, 1);
    let mut minus_one = MODULUS;
    minus_one[0] -= 1;
    assert_eq!(s.omega, minus_one);
    assert_eq!(s.omegainv, minus_one);
    assert_eq!(s.geninv, FieldElement::from_u64(7).invert().unwrap().to_u64s_le());
    assert_eq!(s.minv, FieldElement::from_u64(2).invert().unwrap().to_u64s_le());
}

#[test]
fn written_domain_reads_back_the_same() {
    let d = sample();
    let s = SerializableEvaluationDomain::from_domain(&d);
    assert_eq!(s.to_domain(), Some(d));
    let single = EvaluationDomain::from_coeffs(vec![FieldElement::from_u64(3)]).unwrap();
    assert_eq!(SerializableEvaluationDomain::from_domain(&single).to_domain(), Some(single));
}

#[test]
fn records_that_hold_no_domain_are_refused() {
    let d = sample();
    let mut s = SerializableEvaluationDomain::from_domain(&d);
    s.exp = 33;
    assert_eq!(s.to_domain(), None);
    let mut s = SerializableEvaluationDomain::from_domain(&d);
    s.exp = 2;
    assert_eq!(s.to_domain(), None);
    let mut s = SerializableEvaluationDomain::from_domain(&d);
    s.coeffs.pop();
    assert_eq!(s.to_domain(), None);
    let mut s = SerializableEvaluationDomain::from_domain(&d);
    s.coeffs[5] = MODULUS;
    assert_eq!(s.to_domain(), None);
    let mut s = SerializableEvaluationDomain::from_domain(&d);
    s.omega = MODULUS;
    assert_eq!(s.to_domain(), None);
    let mut s = SerializableEvaluationDomain::from_domain(&d);
    s.omegainv = [u64::MAX; 4];
    assert_eq!(s.to_domain(), None);
    let mut s = SerializableEvaluationDomain::from_domain(&d);
    s.geninv = MODULUS;
    assert_eq!(s.to_domain(), None);
    let mut s = SerializableEvaluationDomain::from_domain(&d);
    s.minv = MODULUS;
    assert_eq!(s.to_domain(), None);
}
