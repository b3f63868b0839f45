use genomic_fx::error::FeatureError;
use genomic_fx::feature::coords_to_interval;
use genomic_fx::interval::Interval;

fn make_feature(start: u64, end: u64) -> Interval {
    Interval::new(start, end).unwrap()
}

#[test]
fn feature_default() {
    let fx = Interval::default();
    assert_eq!(fx.start(), 0);
    assert_eq!(fx.end(), 0);
    assert_eq!(fx.span(), 0);
}

#[test]
fn with_coords() {
    let fxm = Interval::new(1, 3);
    assert!(fxm.is_ok());
    let fx = fxm.unwrap();
    assert_eq!(fx.start(), 1);
    assert_eq!(fx.end(), 3);
}

#[test]
fn with_coords_err() {
    let fxm = Interval::new(3, 1);
    assert!(fxm.is_err());
    assert_eq!(fxm.unwrap_err(), FeatureError::IntervalError);
}

#[test]
fn span() {
    let fx = make_feature(0, 15);
    assert_eq!(fx.span(), 15);
}

#[test]
fn overlaps() {
    let fx1 = make_feature(100, 115);

    let fx2 = make_feature(110, 120);
    assert!(fx1.overlaps(&fx2));
    assert!(fx1.overlaps(&fx2));

    let fx3 = make_feature(115, 120);
    assert!(!fx1.overlaps(&fx3));
    assert!(!fx3.overlaps(&fx1));

    let fx4 = make_feature(90, 100);
    assert!(!fx1.overlaps(&fx4));
    assert!(!fx4.overlaps(&fx1));

    let fx5 = make_feature(200, 300);
    assert!(!fx1.overlaps(&fx5));
    assert!(!fx5.overlaps(&fx1));
}

#[test]
fn envelops() {
    let fx1 = make_feature(100, 120);

    let fx2 = make_feature(105, 115);
    assert!(fx1.envelops(&fx2));
    assert!(!fx2.envelops(&fx1));

    let fx3 = make_feature(100, 105);
    assert!(fx1.envelops(&fx3));
    assert!(!fx3.envelops(&fx1));

    let fx4 = make_feature(115, 120);
    assert!(fx1.envelops(&fx4));
    assert!(!fx4.envelops(&fx1));

    let fx5 = make_feature(90, 105);
    assert!(!fx1.envelops(&fx5));
    assert!(!fx5.envelops(&fx1));

    let fx6 = make_feature(115, 130);
    assert!(!fx1.envelops(&fx5));
    assert!(!fx6.envelops(&fx1));

    let fx7 = make_feature(80, 90);
    assert!(!fx1.envelops(&fx7));
    assert!(!fx7.envelops(&fx1));
}

#[test]
fn is_adjacent() {
    let fx1 = make_feature(100, 120);

    let fx2 = make_feature(90, 100);
    assert!(fx1.is_adjacent(&fx2));
    assert!(fx2.is_adjacent(&fx1));

    let fx3 = make_feature(120, 130);
    assert!(fx1.is_adjacent(&fx3));
    assert!(fx3.is_adjacent(&fx1));

    let fx4 = make_feature(90, 99);
    assert!(!fx1.is_adjacent(&fx4));
    assert!(!fx4.is_adjacent(&fx1));

    let fx5 = make_feature(119, 130);
    assert!(!fx1.is_adjacent(&fx5));
    assert!(!fx5.is_adjacent(&fx1));

    let fx6 = make_feature(100, 110);
    assert!(!fx1.is_adjacent(&fx6));
    assert!(!fx6.is_adjacent(&fx1));

    let fx7 = make_feature(110, 120);
    assert!(!fx1.is_adjacent(&fx7));
    assert!(!fx7.is_adjacent(&fx1));
}

#[test]
fn interval_of_equal_bounds_is_empty() {
    let fx = Interval::new(7, 7).unwrap();
    assert_eq!(fx.start(), 7);
    assert_eq!(fx.end(), 7);
    assert_eq!(fx.span(), 0);
}

#[test]
fn interval_keeps_its_bounds_at_the_limits() {
    let fx = Interval::new(0, u64::MAX).unwrap();
    assert_eq!(fx.start(), 0);
    assert_eq!(fx.end(), u64::MAX);
    assert_eq!(fx.span(), u64::MAX);
}

#[test]
fn coords_to_interval_checks_the_order() {
    let fx = coords_to_interval(20, 30).unwrap();
    assert_eq!((fx.start(), fx.end()), (20, 30));
    assert_eq!(coords_to_interval(20, 10).unwrap_err(), FeatureError::IntervalError);
}
