use chia_query::peer::peaks::reference_peak;

#[test]
fn the_reference_peak_is_the_lower_median_and_is_unknown_when_nobody_has_spoken() {
    assert_eq!(reference_peak(&[]), None);
    assert_eq!(reference_peak(&[7]), Some(7));
    assert_eq!(reference_peak(&[10, 20]), Some(10), "the lower of two middles");
    assert_eq!(reference_peak(&[30, 10, 20]), Some(20), "order does not matter");
}

#[test]
fn a_single_outlier_cannot_move_the_reference_peak() {
    assert_eq!(reference_peak(&[100, 100, 100, u32::MAX]), Some(100));
    assert_eq!(reference_peak(&[100, 100, 100, 1]), Some(100));
}

#[test]
fn raising_the_reference_takes_more_than_half() {
    let half = [100, 100, 100, 100, 900, 900, 900, 900];
    let more = [100, 100, 100, 900, 900, 900, 900, 900];
    assert_eq!(reference_peak(&half), Some(100));
    assert_eq!(reference_peak(&more), Some(900));
}
