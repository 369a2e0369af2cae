use millis_smoothing::decimal::fraction_zeros;

#[test]
fn zeros_for_each_precision() {
    assert_eq!(fraction_zeros(1, 7), Some(0));
    assert_eq!(fraction_zeros(2, 5), Some(1));
    assert_eq!(fraction_zeros(2, 50), Some(0));
    assert_eq!(fraction_zeros(3, 99), Some(1));
    assert_eq!(fraction_zeros(3, 5), Some(2));
    assert_eq!(fraction_zeros(3, 50), Some(1));
    assert_eq!(fraction_zeros(1, 0), Some(0));
    assert_eq!(fraction_zeros(5, 0), Some(4));
    assert_eq!(fraction_zeros(3, 100), Some(0));
    assert_eq!(fraction_zeros(4, 5), Some(3));
    assert_eq!(fraction_zeros(4, 50), Some(2));
    assert_eq!(fraction_zeros(4, 500), Some(1));
    assert_eq!(fraction_zeros(4, 5000), Some(0));
    assert_eq!(fraction_zeros(5, 5), Some(4));
    assert_eq!(fraction_zeros(5, 12345), Some(0));
}

#[test]
fn no_fraction_outside_precisions() {
    assert_eq!(fraction_zeros(0, 5), None);
    assert_eq!(fraction_zeros(6, 5), None);
}
