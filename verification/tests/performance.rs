use buy_low::model::{PerformanceRecord, PriceSample};
use buy_low::performance::{falls_below, percent_change, SCALE};

fn sample(symbol: &str, baseline_price: u64, current_price: u64) -> PriceSample {
    PriceSample { symbol: symbol.to_string(), baseline_price, current_price }
}

fn record(symbol: &str, baseline_price: u64, current_price: u64) -> PerformanceRecord {
    PerformanceRecord::from_sample(sample(symbol, baseline_price, current_price)).unwrap()
}

#[test]
fn scale_is_hundredths_of_a_percent() {
    assert_eq!(SCALE, 10_000);
    assert_eq!(percent_change(1, 2), SCALE as i128);
}

#[test]
fn percent_change_of_a_loss_of_ten_percent() {
    assert_eq!(percent_change(100, 90), -1000);
}

#[test]
fn percent_change_of_a_gain_of_ten_percent() {
    assert_eq!(percent_change(50, 55), 1000);
}

#[test]
fn percent_change_of_an_unchanged_price_is_zero() {
    assert_eq!(percent_change(12_345, 12_345), 0);
}

#[test]
fn percent_change_of_a_price_fallen_to_zero() {
    assert_eq!(percent_change(77, 0), -10_000);
}

#[test]
fn percent_change_rounds_gains_up() {
    // 1/3 = 33.3333...%, and the next higher hundredth is 33.34%
    assert_eq!(percent_change(3, 4), 3334);
    // 2/3 = 66.6666...%
    assert_eq!(percent_change(3, 5), 6667);
    // a gain that needs no rounding stays as it is
    assert_eq!(percent_change(4, 5), 2500);
}

#[test]
fn percent_change_rounds_losses_down() {
    // -1/3 = -33.3333...%, and the next lower hundredth is -33.34%
    assert_eq!(percent_change(3, 2), -3334);
    // -2/3 = -66.6666...%
    assert_eq!(percent_change(3, 1), -6667);
    // a loss that needs no rounding stays as it is
    assert_eq!(percent_change(4, 3), -2500);
}

#[test]
fn percent_change_of_the_smallest_moves_is_not_zero() {
    // a hundredth of a percent is 200 here; half of that still counts
    assert_eq!(percent_change(2_000_000, 2_000_100), 1);
    assert_eq!(percent_change(2_000_000, 1_999_900), -1);
    assert_eq!(percent_change(2_000_000, 2_000_001), 1);
    assert_eq!(percent_change(2_000_000, 1_999_999), -1);
    assert_eq!(percent_change(u64::MAX, u64::MAX - 1), -1);
    assert_eq!(percent_change(u64::MAX - 1, u64::MAX), 1);
    assert_eq!(percent_change(2_000_000, 2_000_200), 1);
    assert_eq!(percent_change(2_000_000, 2_000_201), 2);
}

#[test]
fn percent_change_has_the_sign_of_the_price_change() {
    let prices = [1u64, 2, 3, 7, 90, 100, 9_999, 10_000, 10_001, 2_000_000, u64::MAX - 1, u64::MAX];
    for baseline in prices {
        for current in prices {
            let change = percent_change(baseline, current);
            assert_eq!(change == 0, current == baseline);
            assert_eq!(change > 0, current > baseline);
            assert_eq!(change < 0, current < baseline);
            assert!(change >= -10_000);
        }
    }
}

#[test]
fn percent_change_of_equal_moves_up_and_down() {
    for (baseline, step) in [(3u64, 1u64), (100, 10), (2_000_000, 100), (7, 5), (1_000_000, 99_950)] {
        assert_eq!(
            percent_change(baseline, baseline + step),
            -percent_change(baseline, baseline - step)
        );
    }
}

#[test]
fn percent_change_of_the_largest_prices() {
    assert_eq!(percent_change(u64::MAX, u64::MAX), 0);
    assert_eq!(percent_change(u64::MAX, 0), -10_000);
    assert_eq!(percent_change(1, u64::MAX), (u64::MAX as i128 - 1) * 10_000);
    // (1 - MAX) * 10000 / MAX = -10000 + 10000 / MAX, rounded away from zero
    assert_eq!(percent_change(u64::MAX, 1), -10_000);
}

#[test]
fn falls_below_compares_the_changes() {
    // -10% is below +10%
    assert!(falls_below(100, 90, 50, 55));
    assert!(!falls_below(50, 55, 100, 90));
    // equal changes at different prices: neither is below the other
    assert!(!falls_below(100, 90, 10, 9));
    assert!(!falls_below(10, 9, 100, 90));
    // nothing is below itself
    assert!(!falls_below(7, 3, 7, 3));
}

#[test]
fn falls_below_sees_what_rounding_hides() {
    // -9.9950% and -9.9990% are both held as -10.00%
    assert_eq!(percent_change(1_000_000, 900_050), -1000);
    assert_eq!(percent_change(1_000_000, 900_010), -1000);
    assert!(falls_below(1_000_000, 900_010, 1_000_000, 900_050));
    assert!(!falls_below(1_000_000, 900_050, 1_000_000, 900_010));
}

#[test]
fn falls_below_on_the_largest_prices() {
    assert!(falls_below(u64::MAX, u64::MAX - 1, u64::MAX, u64::MAX));
    assert!(!falls_below(u64::MAX, u64::MAX, u64::MAX, u64::MAX - 1));
    assert!(falls_below(u64::MAX, 0, 1, u64::MAX));
}

#[test]
fn from_sample_measures_the_sample() {
    let r = PerformanceRecord::from_sample(sample("AAA", 100, 90)).unwrap();
    assert_eq!(r.symbol, "AAA");
    assert_eq!(r.baseline_price, 100);
    assert_eq!(r.current_price, 90);
    assert_eq!(r.percent_change, -1000);
    assert!(r.is_well_formed());
}

#[test]
fn from_sample_refuses_a_baseline_of_zero() {
    assert_eq!(PerformanceRecord::from_sample(sample("AAA", 0, 90)), None);
    assert_eq!(PerformanceRecord::from_sample(sample("AAA", 0, 0)), None);
}

#[test]
fn from_sample_accepts_a_current_price_of_zero() {
    let r = PerformanceRecord::from_sample(sample("AAA", 5, 0)).unwrap();
    assert_eq!(r.percent_change, -10_000);
}

#[test]
fn is_well_formed_tells_a_wrong_record() {
    let mut r = record("AAA", 100, 90);
    assert!(r.is_well_formed());
    r.percent_change = -999;
    assert!(!r.is_well_formed());
    r.percent_change = -1000;
    r.baseline_price = 0;
    assert!(!r.is_well_formed());
}

#[test]
fn is_below_goes_by_the_prices() {
    let a = record("AAA", 100, 90);
    let b = record("BBB", 50, 55);
    assert!(a.is_below(&b));
    assert!(!b.is_below(&a));
    assert!(!a.is_below(&a));
}

#[test]
fn duplicate_copies_every_field() {
    let a = record("AAA", 100, 90);
    let b = a.duplicate();
    assert_eq!(a, b);
    assert_eq!(b.symbol, "AAA");
    assert_eq!(b.percent_change, -1000);
}
