use quant_lessons::decimal::Dec;
use quant_lessons::sort::sort_values;
use quant_lessons::statistics::{
    basic_summary, dispersion_summary, mean, median, sample_variance, standard_deviation, sum,
    trimmed_mean,
};
use rust_decimal::Decimal;
use std::str::FromStr;

fn d(text: &str) -> Dec {
    Dec::parse(text).unwrap()
}

fn ds(texts: &[&str]) -> Vec<Dec> {
    texts.iter().map(|t| d(t)).collect()
}

fn same_value(a: Dec, b: Dec) -> bool {
    a.compare(&b) == 0
}

fn as_decimal(value: Dec) -> Decimal {
    Decimal::from_i128_with_scale(value.mantissa, value.scale)
}

#[test]
fn sums_left_to_right() {
    assert_eq!(sum(&ds(&["1.5", "2.25", "-0.75"])), Some(d("3.00")));
    assert_eq!(sum(&[]), Some(Dec::new(0, 0)));
}

#[test]
fn sum_overflow_is_none() {
    let max = Dec { mantissa: 79228162514264337593543950335, scale: 0 };
    assert_eq!(sum(&[max, Dec::new(1, 0)]), None);
}

#[test]
fn mean_of_integers() {
    assert_eq!(mean(&ds(&["1", "2", "3"])), Some(d("2")));
    assert!(same_value(mean(&ds(&["1", "2"])).unwrap(), d("1.5")));
}

#[test]
fn mean_rounds_to_twenty_eight_places() {
    let third = mean(&ds(&["1", "0", "0"])).unwrap();
    assert_eq!(as_decimal(third), Decimal::from_str("0.3333333333333333333333333333").unwrap());
}

#[test]
fn median_of_odd_and_even_samples() {
    assert_eq!(median(&ds(&["3", "1", "2"])), Some(d("2")));
    assert!(same_value(median(&ds(&["4", "1", "3", "2"])).unwrap(), d("2.5")));
    assert_eq!(median(&ds(&["7"])), Some(d("7")));
}

#[test]
fn trimmed_mean_cuts_both_ends() {
    let values: Vec<Dec> = (1..=20).rev().map(|i| Dec::new(i, 0)).collect();
    assert!(same_value(trimmed_mean(&values, 5).unwrap(), d("10.5")));
    let mut with_outliers: Vec<Dec> = (1..=18).map(|i| Dec::new(i, 0)).collect();
    with_outliers.push(Dec::new(-1000, 0));
    with_outliers.push(Dec::new(1000, 0));
    // 20 values, 10% from each end: the two outliers and 1 and 18 go.
    assert!(same_value(trimmed_mean(&with_outliers, 10).unwrap(), d("9.5")));
    // No trim below 20 values at 5%.
    assert!(same_value(trimmed_mean(&ds(&["1", "2", "9"]), 5).unwrap(), d("4")));
}

#[test]
fn sample_variance_uses_bessels_correction() {
    assert!(same_value(sample_variance(&ds(&["2", "4", "4", "4", "5", "5", "7", "9"])).unwrap(), as_dec("4.5714285714285714285714285714")));
    assert!(same_value(sample_variance(&ds(&["0", "2", "4"])).unwrap(), d("4")));
    assert!(same_value(sample_variance(&ds(&["3", "3"])).unwrap(), d("0")));
}

fn as_dec(text: &str) -> Dec {
    let decimal = Decimal::from_str(text).unwrap();
    Dec { mantissa: decimal.mantissa(), scale: decimal.scale() }
}

#[test]
fn sample_variance_is_never_negative() {
    let v = sample_variance(&ds(&["-3.5", "-1", "-2.25", "-7"])).unwrap();
    assert!(v.mantissa >= 0);
}

#[test]
fn standard_deviation_is_the_root_of_the_variance() {
    assert!(same_value(standard_deviation(&ds(&["0", "2", "4"])).unwrap(), d("2")));
    assert!(same_value(standard_deviation(&ds(&["5", "5", "5"])).unwrap(), d("0")));
    let root = standard_deviation(&ds(&["1", "3"])).unwrap();
    assert!(root.compare(&d("1.4142")) > 0 && root.compare(&d("1.4143")) < 0);
}

#[test]
fn basic_summary_collects_the_three() {
    let summary = basic_summary(&ds(&["0", "2", "4"])).unwrap();
    assert!(same_value(summary.mean, d("2")));
    assert!(same_value(summary.sample_variance, d("4")));
    assert!(same_value(summary.standard_deviation, d("2")));
}

#[test]
fn dispersion_summary_of_eight_values() {
    let summary = dispersion_summary(&ds(&["8", "3", "5", "1", "7", "2", "6", "4"])).unwrap();
    assert_eq!(summary.lower_quartile, d("2"));
    assert_eq!(summary.upper_quartile, d("6"));
    assert!(same_value(summary.median, d("4.5")));
    assert!(same_value(summary.interquartile_range, d("4")));
    assert!(same_value(summary.standard_deviation, as_dec("2.4494897427831780981972840747")) || summary.standard_deviation.compare(&d("2.449")) > 0);
}

#[test]
fn dispersion_quartiles_of_two_values() {
    let summary = dispersion_summary(&ds(&["9", "1"])).unwrap();
    assert_eq!(summary.lower_quartile, d("1"));
    assert_eq!(summary.upper_quartile, d("9"));
    assert!(same_value(summary.median, d("5")));
    assert_eq!(summary.interquartile_range, d("8"));
}

#[test]
fn sorts_by_value_and_keeps_equal_values_in_order() {
    let sorted = sort_values(&[d("2.0"), d("3"), d("2"), d("-1"), d("2.00")]);
    assert_eq!(sorted, vec![d("-1"), d("2.0"), d("2"), d("2.00"), d("3")]);
}

#[test]
fn a_sample_that_does_not_vary() {
    let values = ds(&["2.50", "2.50", "2.50"]);
    assert_eq!(mean(&values), Some(d("2.50")));
    assert_eq!(sample_variance(&values), Some(Dec::new(0, 0)));
    assert_eq!(standard_deviation(&values), Some(Dec::new(0, 0)));
    let summary = basic_summary(&values).unwrap();
    assert_eq!(summary.mean, d("2.50"));
    assert_eq!(summary.sample_variance, Dec::new(0, 0));
    assert_eq!(summary.standard_deviation, Dec::new(0, 0));
    let zeros = ds(&["0.00", "0.00"]);
    assert_eq!(mean(&zeros), Some(Dec::new(0, 0)));
    assert_eq!(standard_deviation(&zeros), Some(Dec::new(0, 0)));
}

#[test]
fn median_and_dispersion_of_a_sample_that_does_not_vary() {
    let values = ds(&["7.25", "7.25", "7.25", "7.25"]);
    assert_eq!(median(&values), Some(d("7.25")));
    let summary = dispersion_summary(&values).unwrap();
    assert_eq!(summary.lower_quartile, d("7.25"));
    assert_eq!(summary.upper_quartile, d("7.25"));
    assert!(same_value(summary.median, d("7.25")));
    assert_eq!(summary.interquartile_range.mantissa, 0);
    assert_eq!(summary.standard_deviation, Dec::new(0, 0));
}
