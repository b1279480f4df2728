use quant_lessons::decimal::Dec;
use quant_lessons::lessons::mean_reversion::{
    calculate_price_difference, classify_entry_signal, evaluate_day, run, EntrySignal, MeanReversionError,
};

fn d(text: &str) -> Dec {
    Dec::parse(text).unwrap()
}

#[test]
fn classifies_mean_reversion_entries() {
    assert_eq!(classify_entry_signal(d("2.1")), EntrySignal::Short);
    assert_eq!(classify_entry_signal(d("-2.1")), EntrySignal::Long);
    assert_eq!(classify_entry_signal(d("2")), EntrySignal::NoEntry);
    assert_eq!(classify_entry_signal(d("-2")), EntrySignal::NoEntry);
}

#[test]
fn calculates_one_share_price_differences() {
    assert_eq!(
        calculate_price_difference(EntrySignal::Long, d("100"), d("98")),
        Some(Some(d("-2")))
    );
    assert_eq!(
        calculate_price_difference(EntrySignal::Short, d("100"), d("98")),
        Some(Some(d("2")))
    );
    assert_eq!(
        calculate_price_difference(EntrySignal::NoEntry, d("100"), d("98")),
        Some(None)
    );
}

#[test]
fn threshold_compares_by_value() {
    assert_eq!(classify_entry_signal(d("2.000")), EntrySignal::NoEntry);
    assert_eq!(classify_entry_signal(d("2.0001")), EntrySignal::Short);
    assert_eq!(classify_entry_signal(d("-2.0001")), EntrySignal::Long);
    assert_eq!(classify_entry_signal(d("0")), EntrySignal::NoEntry);
}

#[test]
fn labels_signals() {
    assert_eq!(EntrySignal::Long.label(), "LONG");
    assert_eq!(EntrySignal::Short.label(), "SHORT");
    assert_eq!(EntrySignal::NoEntry.label(), "-");
}

#[test]
fn long_and_short_results_are_opposite() {
    let long = calculate_price_difference(EntrySignal::Long, d("101.25"), d("99.5")).unwrap().unwrap();
    let short = calculate_price_difference(EntrySignal::Short, d("101.25"), d("99.5")).unwrap().unwrap();
    assert_eq!(long, d("-1.75"));
    assert_eq!(short, d("1.75"));
}

#[test]
fn needs_more_than_twenty_one_closes() {
    let closes: Vec<Dec> = (0..21).map(|i| Dec::new(100 + i, 0)).collect();
    assert!(matches!(run(&closes), Err(MeanReversionError::NotEnoughClosingPrices)));
}

fn alternating_series() -> Vec<Dec> {
    let mut closes: Vec<Dec> = (0..20).map(|i| Dec::new(if i % 2 == 0 { 100 } else { 102 }, 0)).collect();
    closes.push(Dec::new(110, 0));
    closes.push(Dec::new(108, 0));
    closes.push(Dec::new(109, 0));
    closes
}

#[test]
fn evaluates_days_with_a_full_window_before_and_a_day_after() {
    let closes = alternating_series();
    let report = run(&closes).unwrap();
    assert_eq!(report.rows.len(), 2);
    assert_eq!(report.rows[0].day, 21);
    assert_eq!(report.rows[1].day, 22);
    assert_eq!(report.rows[0].signal, EntrySignal::Short);
    assert_eq!(report.rows[1].signal, EntrySignal::Short);
    assert_eq!(report.rows[0].moving_average.compare(&d("101")), 0);
    assert_eq!(report.rows[1].moving_average.compare(&d("101.5")), 0);
    assert_eq!(report.rows[0].price_difference, Some(d("2")));
    assert_eq!(report.rows[1].price_difference, Some(d("-1")));
    let summary = report.summary;
    assert_eq!(summary.evaluated_days, 2);
    assert_eq!(summary.long_entries, 0);
    assert_eq!(summary.short_entries, 2);
    assert_eq!(summary.winning_trades, 1);
    assert_eq!(summary.losing_trades, 1);
    assert_eq!(summary.flat_trades, 0);
    assert_eq!(summary.total_price_difference.compare(&d("1")), 0);
}

#[test]
fn skips_days_whose_window_does_not_vary() {
    let closes: Vec<Dec> = (0..25).map(|_| Dec::new(50, 0)).collect();
    let report = run(&closes).unwrap();
    assert_eq!(report.rows.len(), 0);
    assert_eq!(report.summary.evaluated_days, 0);
    assert_eq!(report.summary.total_price_difference, Dec::new(0, 0));
}

#[test]
fn judges_a_day_from_its_window_statistics() {
    let row = evaluate_day(30, d("97"), d("99"), d("100"), d("1.25")).unwrap().unwrap();
    assert_eq!(row.day, 30);
    assert_eq!(row.z_score.compare(&d("-2.4")), 0);
    assert_eq!(row.signal, EntrySignal::Long);
    assert_eq!(row.price_difference, Some(d("2")));
    let calm = evaluate_day(31, d("100.5"), d("99"), d("100"), d("0.5")).unwrap().unwrap();
    assert_eq!(calm.signal, EntrySignal::NoEntry);
    assert_eq!(calm.price_difference, None);
    assert!(evaluate_day(32, d("100"), d("99"), d("100"), d("0")).unwrap().is_none());
}

#[test]
fn short_result_is_the_long_one_negated_even_when_rounded() {
    for (entry, next) in [
        ("79228162514264337593543950335", "0.5"),
        ("1.0000000000000000000000000001", "12345678901234567890.123"),
        ("100", "98.75"),
    ] {
        let long = calculate_price_difference(EntrySignal::Long, d(entry), d(next)).unwrap().unwrap();
        let short = calculate_price_difference(EntrySignal::Short, d(entry), d(next)).unwrap().unwrap();
        assert_eq!(short.mantissa, -long.mantissa);
        assert_eq!(short.scale, long.scale);
    }
    let max = d("79228162514264337593543950335");
    let min = d("-79228162514264337593543950335");
    assert_eq!(calculate_price_difference(EntrySignal::Long, min, max), None);
    assert_eq!(calculate_price_difference(EntrySignal::Short, min, max), None);
}

#[test]
fn zero_prices_give_the_zero_of_the_price_subtracted() {
    let long = calculate_price_difference(EntrySignal::Long, d("0"), d("0.0")).unwrap().unwrap();
    let short = calculate_price_difference(EntrySignal::Short, d("0"), d("0.0")).unwrap().unwrap();
    assert_eq!((long.mantissa, long.scale), (0, 0));
    assert_eq!((short.mantissa, short.scale), (0, 1));
}
