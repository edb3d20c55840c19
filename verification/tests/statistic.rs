use orion_dudect::statistic::{MAX_EXPONENT, MIN_EXPONENT, THRESHOLD};
use orion_dudect::TStatistic;

#[test]
fn the_bound_is_four_and_a_half() {
    assert_eq!(THRESHOLD, 450_000);
    assert_eq!(MIN_EXPONENT, -5);
    assert_eq!(MAX_EXPONENT, 1_000_000);
}

#[test]
fn from_hundred_thousandths_keeps_the_value() {
    assert_eq!(TStatistic::from_hundred_thousandths(123_456).parts(), (false, 123_456, -5));
    assert_eq!(TStatistic::from_hundred_thousandths(-123_456).parts(), (true, 123_456, -5));
    assert_eq!(TStatistic::from_hundred_thousandths(1).parts(), (false, 1, -5));
}

#[test]
fn trailing_zeros_move_into_the_exponent() {
    assert_eq!(TStatistic::from_hundred_thousandths(450_000).parts(), (false, 45, -1));
    assert_eq!(TStatistic::from_hundred_thousandths(100_000).parts(), (false, 1, 0));
    assert_eq!(TStatistic::from_hundred_thousandths(-7_000_000).parts(), (true, 7, 1));
    assert_eq!(TStatistic::from_parts(false, 1_230_000, -5).parts(), (false, 123, -1));
    assert_eq!(TStatistic::from_parts(true, 500, 3).parts(), (true, 5, 5));
}

#[test]
fn zero_is_stored_in_one_way() {
    assert_eq!(TStatistic::from_hundred_thousandths(0).parts(), (false, 0, 0));
    assert_eq!(TStatistic::from_parts(true, 0, -5).parts(), (false, 0, 0));
    assert_eq!(TStatistic::from_parts(false, 0, 77).parts(), (false, 0, 0));
    assert_eq!(TStatistic::from_parts(true, 0, 3), TStatistic::from_hundred_thousandths(0));
}

#[test]
fn equal_values_are_equal_statistics() {
    assert_eq!(TStatistic::from_parts(false, 15, -1), TStatistic::from_hundred_thousandths(150_000));
    assert_eq!(TStatistic::from_parts(false, 1500, -3), TStatistic::from_parts(false, 150, -2));
    assert_eq!(TStatistic::from_parts(true, 3, 0), TStatistic::from_hundred_thousandths(-300_000));
    assert_ne!(TStatistic::from_parts(true, 3, 0), TStatistic::from_parts(false, 3, 0));
    assert_ne!(TStatistic::from_parts(false, 3, 1), TStatistic::from_parts(false, 3, 0));
}

#[test]
fn from_hundred_thousandths_at_the_ends_of_the_range() {
    assert_eq!(
        TStatistic::from_hundred_thousandths(i64::MAX).parts(),
        (false, 9_223_372_036_854_775_807, -5)
    );
    assert_eq!(
        TStatistic::from_hundred_thousandths(i64::MIN).parts(),
        (true, 9_223_372_036_854_775_808, -5)
    );
    assert_eq!(
        TStatistic::from_parts(false, 10_000_000_000_000_000_000, 0).parts(),
        (false, 1, 19)
    );
}

#[test]
fn the_band_includes_its_ends() {
    assert!(TStatistic::from_hundred_thousandths(450_000).within_threshold());
    assert!(TStatistic::from_hundred_thousandths(-450_000).within_threshold());
    assert!(!TStatistic::from_hundred_thousandths(450_001).within_threshold());
    assert!(!TStatistic::from_hundred_thousandths(-450_001).within_threshold());
}

#[test]
fn the_band_holds_small_values() {
    assert!(TStatistic::from_hundred_thousandths(0).within_threshold());
    assert!(TStatistic::from_hundred_thousandths(1).within_threshold());
    assert!(TStatistic::from_hundred_thousandths(-1).within_threshold());
    assert!(TStatistic::from_hundred_thousandths(123_456).within_threshold());
    assert!(TStatistic::from_hundred_thousandths(400_000).within_threshold());
    assert!(TStatistic::from_hundred_thousandths(-449_999).within_threshold());
}

#[test]
fn the_band_excludes_large_values() {
    assert!(!TStatistic::from_hundred_thousandths(500_000).within_threshold());
    assert!(!TStatistic::from_hundred_thousandths(-500_000).within_threshold());
    assert!(!TStatistic::from_hundred_thousandths(610_000).within_threshold());
    assert!(!TStatistic::from_hundred_thousandths(1_000_000).within_threshold());
    assert!(!TStatistic::from_hundred_thousandths(i64::MAX).within_threshold());
    assert!(!TStatistic::from_hundred_thousandths(i64::MIN).within_threshold());
    assert!(!TStatistic::from_parts(false, 1, 99_999).within_threshold());
    assert!(!TStatistic::from_parts(true, 1, 1).within_threshold());
    assert!(!TStatistic::from_parts(false, u64::MAX, -5).within_threshold());
}

#[test]
fn the_band_agrees_with_the_comparison_of_integers() {
    let mut value: i64 = -460_000;
    while value <= 460_000 {
        let expected = -450_000 <= value && value <= 450_000;
        assert_eq!(TStatistic::from_hundred_thousandths(value).within_threshold(), expected);
        value += 1;
    }
}
