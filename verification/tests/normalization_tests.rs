use squab::normalization::{calculate_fpkms, calculate_tpms, NormalizeError, NormalizedValue};

fn as_f64(v: &NormalizedValue) -> f64 {
    v.numerator as f64 / v.denominator as f64
}

#[test]
fn fpkm_scenario() {
    // Feature A: length 1000, count 10; feature B: length 2000, count 10;
    // total assigned 20. fpkm(A) = 10e9 / (1000 * 20) = 500000;
    // fpkm(B) = 10e9 / (2000 * 20) = 250000.
    let values = calculate_fpkms(&vec![10, 10], &vec![1000, 2000]).unwrap();
    assert_eq!(values.len(), 2);
    assert_eq!(values[0].numerator, 500000 * values[0].denominator);
    assert_eq!(values[1].numerator, 250000 * values[1].denominator);
    assert_eq!(as_f64(&values[0]), 500000.0);
    assert_eq!(as_f64(&values[1]), 250000.0);
}

#[test]
fn tpm_scenario() {
    // Same counts and lengths: r(A) = 10, r(B) = 5, sum 15;
    // tpm(A) = 10e6/15 ≈ 666666.67, tpm(B) = 5e6/15 ≈ 333333.33.
    let values = calculate_tpms(&vec![10, 10], &vec![1000, 2000]).unwrap();
    assert_eq!(values.len(), 2);
    let a = as_f64(&values[0]);
    let b = as_f64(&values[1]);
    assert!((a - 666666.67).abs() < 0.01, "tpm(A) = {a}");
    assert!((b - 333333.33).abs() < 0.01, "tpm(B) = {b}");
    assert!((a + b - 1000000.0).abs() < 0.01);
}

#[test]
fn zero_total_yields_zero_values() {
    // A run with zero assigned reads yields 0 everywhere, not NaN/Infinity.
    let fpkms = calculate_fpkms(&vec![0, 0], &vec![1000, 2000]).unwrap();
    let tpms = calculate_tpms(&vec![0, 0], &vec![1000, 2000]).unwrap();
    for v in fpkms.iter().chain(tpms.iter()) {
        assert_eq!(v.numerator, 0);
        assert_eq!(v.denominator, 1);
        assert_eq!(as_f64(v), 0.0);
    }
}

#[test]
fn zero_length_feature_fails_fpkm() {
    let r = calculate_fpkms(&vec![1, 1], &vec![0, 100]);
    assert_eq!(r, Err(NormalizeError::ZeroLengthFeature(0)));
}

#[test]
fn zero_length_feature_fails_tpm() {
    let r = calculate_tpms(&vec![1, 1], &vec![100, 0]);
    assert_eq!(r, Err(NormalizeError::ZeroLengthFeature(1)));
}

#[test]
fn fpkm_overflow_is_reported() {
    // Four maximal counts over maximal lengths push length * total past the
    // machine word.
    let counts = vec![u64::MAX; 4];
    let lengths = vec![u64::MAX; 4];
    assert_eq!(calculate_fpkms(&counts, &lengths), Err(NormalizeError::Overflow));
}

#[test]
fn fpkm_values_scale_with_counts() {
    // Doubling a count doubles its FPKM numerator against the same total
    // only through the formula; check an uneven case exactly:
    // counts 3 and 1, lengths 100 and 50, total 4.
    // fpkm(A) = 3e9 / (100 * 4) = 7.5e6; fpkm(B) = 1e9 / (50 * 4) = 5e6.
    let values = calculate_fpkms(&vec![3, 1], &vec![100, 50]).unwrap();
    assert_eq!(as_f64(&values[0]), 7500000.0);
    assert_eq!(as_f64(&values[1]), 5000000.0);
}

#[test]
fn tpm_of_single_feature_is_one_million() {
    let values = calculate_tpms(&vec![42], &vec![700]).unwrap();
    assert_eq!(as_f64(&values[0]), 1000000.0);
}
