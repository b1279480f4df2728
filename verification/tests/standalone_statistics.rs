use quant_lessons::decimal::Dec;
use quant_lessons::range::{
    get_interquartile_range, interquartile_get_lower_quartile, interquartile_get_upper_quartile,
};

fn d(text: &str) -> Dec {
    Dec::parse(text).unwrap()
}

fn ds(texts: &[&str]) -> Vec<Dec> {
    texts.iter().map(|t| d(t)).collect()
}

fn same_value(a: Dec, b: Dec) -> bool {
    a.compare(&b) == 0
}

#[test]
fn standalone_mean_fails_on_an_empty_sample() {
    assert_eq!(quant_lessons::mean::mean(&[]), None);
    assert_eq!(quant_lessons::mean::mean(&ds(&["1", "2", "3"])), Some(d("2")));
}

#[test]
fn standalone_trimmed_mean_always_cuts_five_percent() {
    let values: Vec<Dec> = (1..=20).map(|i| Dec::new(i, 0)).collect();
    let a = quant_lessons::mean::trimmed_mean(&values, 0).unwrap();
    let b = quant_lessons::mean::trimmed_mean(&values, 40).unwrap();
    assert!(same_value(a, d("10.5")));
    assert_eq!(a, b);
}

#[test]
fn standalone_median() {
    assert_eq!(quant_lessons::median::median(&ds(&["5", "1", "3"])), Some(d("3")));
    assert!(same_value(quant_lessons::median::median(&ds(&["5", "1", "3", "2"])).unwrap(), d("2.5")));
}

#[test]
fn standalone_variance_and_std_dev() {
    assert!(same_value(quant_lessons::variance::variance(&ds(&["0", "2", "4"])).unwrap(), d("4")));
    assert!(same_value(quant_lessons::std_dev::std_dev(&ds(&["0", "2", "4"])).unwrap(), d("2")));
    assert_eq!(quant_lessons::variance::variance(&ds(&["7"])), None);
    assert_eq!(quant_lessons::variance::variance(&[]), None);
    assert_eq!(quant_lessons::std_dev::std_dev(&ds(&["7"])), None);
}

#[test]
fn standalone_variance_squares_ones_and_zeros() {
    // Deviations of -1, 0 and 1 square to one, zero and one.
    assert!(same_value(quant_lessons::variance::variance(&ds(&["1", "2", "3"])).unwrap(), d("1")));
}

#[test]
fn quartiles_and_range() {
    let data = ds(&["10", "1", "7", "3", "9", "5", "2"]);
    // Sorted: 1 2 3 5 7 9 10; ceil(7/4) = 2, ceil(21/4) = 6.
    assert_eq!(interquartile_get_lower_quartile(&data), d("2"));
    assert_eq!(interquartile_get_upper_quartile(&data), d("9"));
    assert_eq!(get_interquartile_range(&data), Some(d("7")));
    assert_eq!(get_interquartile_range(&ds(&["4"])), Some(d("0")));
}

#[test]
fn standalone_statistics_of_a_sample_that_does_not_vary() {
    let values = ds(&["-1.5", "-1.5", "-1.5", "-1.5"]);
    assert_eq!(quant_lessons::mean::mean(&values), Some(d("-1.5")));
    assert_eq!(quant_lessons::variance::variance(&values), Some(Dec::new(0, 0)));
    assert_eq!(quant_lessons::std_dev::std_dev(&values), Some(Dec::new(0, 0)));
}
