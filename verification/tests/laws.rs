use quant_lessons::decimal::{square_root, Dec};
use quant_lessons::statistics::{dispersion_ratios, dispersion_summary, median, sample_variance, DispersionSummary};
use quant_lessons::variance::variance;
use rust_decimal::{Decimal, MathematicalOps};
use std::str::FromStr;

fn d(text: &str) -> Dec {
    Dec::parse(text).unwrap()
}

fn ds(texts: &[&str]) -> Vec<Dec> {
    texts.iter().map(|t| d(t)).collect()
}

fn as_decimal(value: Dec) -> Decimal {
    Decimal::from_i128_with_scale(value.mantissa, value.scale)
}

#[test]
fn square_root_edge_cases() {
    assert_eq!(square_root(d("-1")), None);
    assert_eq!(square_root(d("0.000")), Some(Dec::new(0, 0)));
    assert_eq!(as_decimal(square_root(d("4")).unwrap()), Decimal::from(2));
    assert_eq!(as_decimal(square_root(d("6.25")).unwrap()), Decimal::from_str("2.5").unwrap());
}

#[test]
fn square_root_gives_what_rust_decimal_gives() {
    for text in [
        "2", "3", "10", "0.5", "0.0001", "123456.789", "0.0000000000000000000000000001",
        "79228162514264337593543950335", "1.3490", "16", "196", "0.000000000000041",
    ] {
        let value = d(text);
        let expected = Decimal::from_str(text).unwrap().sqrt().unwrap();
        let root = square_root(value).unwrap();
        assert_eq!(root.mantissa, expected.mantissa(), "{text}");
        assert_eq!(root.scale, expected.scale(), "{text}");
        assert!(root.mantissa >= 0);
    }
}

#[test]
fn standalone_variance_equals_statistics_variance_without_unit_deviations() {
    let values = ds(&["0.0228", "0.0212", "0.0233", "0.0579", "0.0122", "0.0189"]);
    assert_eq!(variance(&values), sample_variance(&values));
    let integers = ds(&["2", "4", "4", "4", "5", "5", "7", "9"]);
    assert_eq!(as_decimal(variance(&integers).unwrap()), as_decimal(sample_variance(&integers).unwrap()));
}

#[test]
fn median_lies_between_the_quartiles() {
    let values = ds(&["9", "1", "4", "7", "3", "8", "2", "6"]);
    let summary = dispersion_summary(&values).unwrap();
    assert!(summary.lower_quartile.compare(&summary.median) <= 0);
    assert!(summary.median.compare(&summary.upper_quartile) <= 0);
    assert_eq!(as_decimal(median(&values).unwrap()), Decimal::from_str("5").unwrap());
    assert!(summary.standard_deviation.mantissa >= 0);
}

#[test]
fn dispersion_ratios_of_a_summary() {
    let summary = DispersionSummary {
        lower_quartile: d("1"),
        median: d("2.5"),
        upper_quartile: d("4"),
        interquartile_range: d("3"),
        standard_deviation: d("2"),
    };
    let (ratio, lower_spread, upper_spread) = dispersion_ratios(&summary).unwrap();
    assert_eq!(as_decimal(ratio), Decimal::from_str("1.5").unwrap());
    assert_eq!(as_decimal(lower_spread), Decimal::from_str("1.5").unwrap());
    assert_eq!(as_decimal(upper_spread), Decimal::from_str("1.5").unwrap());
    let flat = DispersionSummary { standard_deviation: d("0"), ..summary };
    assert_eq!(dispersion_ratios(&flat), None);
}

#[test]
fn quartiles_do_not_depend_on_the_order_of_the_sample() {
    let a = dispersion_summary(&ds(&["5", "1", "4", "2", "3"])).unwrap();
    let b = dispersion_summary(&ds(&["3", "4", "1", "5", "2"])).unwrap();
    assert_eq!(a.lower_quartile.compare(&b.lower_quartile), 0);
    assert_eq!(a.upper_quartile.compare(&b.upper_quartile), 0);
    assert_eq!(a.median.compare(&b.median), 0);
    // Equal values in another order may come out in another representation.
    let c = dispersion_summary(&ds(&["1.0", "1", "2"])).unwrap();
    let e = dispersion_summary(&ds(&["1", "1.0", "2"])).unwrap();
    assert_ne!(c.lower_quartile, e.lower_quartile);
    assert_eq!(c.lower_quartile.compare(&e.lower_quartile), 0);
}
