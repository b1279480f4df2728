use quant_lessons::decimal::Dec;
use quant_lessons::lessons::downside_tail_risk::{
    chebyshev_max_probability, chebyshev_max_probability_beyond_3_5_standard_deviations,
};
use quant_lessons::lessons::fat_tails::{absolute_changes, percent_returns, sample_blocks};
use quant_lessons::lessons::leverage::affine_transform;
use quant_lessons::statistics::{mean, sample_variance};
use quant_lessons::lessons::robust_averages::ClosingPrice;
use quant_lessons::lessons::volatility::{percent_change, DailyPrice};
use quant_lessons::lessons::{self, Lesson};

fn d(text: &str) -> Dec {
    Dec::parse(text).unwrap()
}

fn same_value(a: Dec, b: Dec) -> bool {
    a.compare(&b) == 0
}

#[test]
fn chooses_lessons_by_name() {
    assert_eq!(lessons::run("downside-tail-risk"), Ok(Lesson::DownsideTailRisk));
    assert_eq!(lessons::run("volatility"), Ok(Lesson::Volatility));
    assert_eq!(lessons::run("robust-averages"), Ok(Lesson::RobustAverages));
    assert_eq!(lessons::run("fat-tails"), Ok(Lesson::FatTails));
    assert_eq!(lessons::run("leverage"), Ok(Lesson::Leverage));
    assert_eq!(lessons::run("mean-reversion"), Ok(Lesson::MeanReversion));
}

#[test]
fn names_the_choices_for_an_unknown_lesson() {
    assert_eq!(
        lessons::run("momentum"),
        Err("unknown lesson 'momentum'. Choose: volatility, robust-averages, fat-tails, leverage, mean-reversion, or downside-tail-risk".to_string())
    );
    assert!(lessons::run("Leverage").is_err());
    assert!(lessons::run("").is_err());
}

#[test]
fn illustrative_chebyshev_bound_is_one_over_three_and_a_half_squared() {
    let percent = lessons::downside_tail_risk::run().unwrap();
    assert!(percent.compare(&d("8.16")) > 0);
    assert!(percent.compare(&d("8.17")) < 0);
    let bound = chebyshev_max_probability_beyond_3_5_standard_deviations(d("4"), d("25")).unwrap();
    let direct = chebyshev_max_probability(d("14.0"), d("16")).unwrap();
    assert_eq!(bound, direct);
}

#[test]
fn chebyshev_bound_does_not_depend_on_the_mean_for_exact_inputs() {
    let a = chebyshev_max_probability_beyond_3_5_standard_deviations(d("2"), d("0")).unwrap();
    let b = chebyshev_max_probability_beyond_3_5_standard_deviations(d("2"), d("-7.5")).unwrap();
    assert!(same_value(a, b));
}

#[test]
fn chebyshev_bound_of_variance_over_square() {
    assert!(same_value(chebyshev_max_probability(d("2"), d("1")).unwrap(), d("0.25")));
    assert_eq!(chebyshev_max_probability(d("0"), d("1")), None);
}

#[test]
fn three_up_ticks() {
    let (probability, percent) = lessons::order_flow_conditional_momentum::run();
    assert_eq!(probability, Dec::new(208896, 6));
    assert_eq!(percent, Dec::new(20889600, 6));
}

#[test]
fn affine_transform_scales_and_shifts() {
    let values = [d("0.0228"), d("-0.01")];
    let mapped = affine_transform(&values, d("2.5"), d("0.01")).unwrap();
    assert!(same_value(mapped[0], d("0.067")));
    assert!(same_value(mapped[1], d("-0.015")));
}

#[test]
fn leverage_scales_the_variance_by_the_square_of_the_multiplier() {
    let report = lessons::leverage::run().unwrap();
    assert_eq!(report.unleveraged.values.len(), 6);
    assert!(same_value(report.shifted.values[0], d("0.0328")));
    assert!(same_value(report.scaled.values[3], d("0.14475")));
    assert!(same_value(report.scaled_and_shifted.values[4], d("0.0405")));
    assert!(same_value(report.unleveraged.summary.mean, d("0.02605")));
    assert!(same_value(report.shifted.summary.mean, d("0.03605")));
    assert!(same_value(report.predicted_scaled_ratio, d("6.25")));
    assert!(same_value(report.scaled_and_shifted_ratio, d("6.25")));
    assert!(same_value(report.shifted_ratio, d("1")));
}

#[test]
fn percent_change_of_a_day() {
    assert!(same_value(percent_change(d("200"), d("201")).unwrap(), d("0.5")));
    assert!(same_value(percent_change(d("100"), d("90")).unwrap(), d("-10")));
    assert_eq!(percent_change(d("0"), d("1")), None);
}

#[test]
fn volatility_summarises_open_to_close_changes() {
    let days = vec![
        DailyPrice { date: "2026-08-03".to_string(), opening_price: d("100"), closing_price: d("101") },
        DailyPrice { date: "2026-08-04".to_string(), opening_price: d("100"), closing_price: d("99") },
        DailyPrice { date: "2026-08-05".to_string(), opening_price: d("50"), closing_price: d("51.5") },
    ];
    let report = lessons::volatility::run(&days).unwrap();
    assert_eq!(report.percentage_changes.len(), 3);
    assert!(same_value(report.percentage_changes[0], d("1")));
    assert!(same_value(report.percentage_changes[1], d("-1")));
    assert!(same_value(report.percentage_changes[2], d("3")));
    assert!(same_value(report.summary.mean, d("1")));
    assert!(same_value(report.summary.sample_variance, d("4")));
    assert!(same_value(report.summary.standard_deviation, d("2")));
}

#[test]
fn robust_averages_skip_the_first_day() {
    let days = vec![
        ClosingPrice { date: "2020-03-02".to_string(), close: d("100") },
        ClosingPrice { date: "2020-03-03".to_string(), close: d("98") },
        ClosingPrice { date: "2020-03-04".to_string(), close: d("101") },
    ];
    let report = lessons::robust_averages::run(&days).unwrap();
    assert_eq!(report.point_changes, vec![None, Some(d("-2")), Some(d("3"))]);
    assert!(same_value(report.mean, d("0.5")));
    assert!(same_value(report.trimmed_mean, d("0.5")));
    assert!(same_value(report.median, d("0.5")));
}

#[test]
fn fat_tails_turn_prices_into_returns_and_rates_into_changes() {
    let returns = percent_returns(&[d("100"), d("110"), d("99"), d("99")]).unwrap();
    assert_eq!(returns.len(), 3);
    assert!(same_value(returns[0], d("10")));
    assert!(same_value(returns[1], d("-10")));
    assert!(same_value(returns[2], d("0")));
    let changes = absolute_changes(&[d("1.5"), d("1.6"), d("1.4"), d("1.4")]).unwrap();
    assert_eq!(changes, vec![d("0.1"), d("-0.2"), d("0.0")]);
    assert_eq!(percent_returns(&[d("0"), d("1")]), None);
}

#[test]
fn sample_blocks_start_at_the_beginning_middle_and_end() {
    let blocks = sample_blocks(25, 7);
    assert_eq!(blocks.len(), 3);
    assert_eq!(blocks[0].title, "first 10");
    assert_eq!((blocks[0].bitcoin_start, blocks[0].treasury_start), (0, 0));
    assert_eq!(blocks[1].title, "mid 10");
    assert_eq!((blocks[1].bitcoin_start, blocks[1].treasury_start), (12, 3));
    assert_eq!(blocks[2].title, "last 10");
    assert_eq!((blocks[2].bitcoin_start, blocks[2].treasury_start), (15, 0));
}

#[test]
fn fat_tails_report_holds_both_dispersions() {
    let report = lessons::fat_tails::run(
        &[d("100"), d("110"), d("99"), d("99")],
        &[d("1.5"), d("1.6"), d("1.4"), d("1.4")],
    )
    .unwrap();
    assert!(same_value(report.bitcoin_dispersion.median, d("0")));
    assert!(same_value(report.bitcoin_dispersion.lower_quartile, d("-10")));
    assert!(same_value(report.bitcoin_dispersion.upper_quartile, d("10")));
    assert!(same_value(report.bitcoin_dispersion.interquartile_range, d("20")));
    assert!(same_value(report.bitcoin_dispersion.standard_deviation, d("10")));
    assert!(same_value(report.treasury_dispersion.lower_quartile, d("-0.2")));
}

#[test]
fn percent_change_follows_the_direction_of_the_move() {
    assert_eq!(percent_change(d("412.30"), d("412.3")), Some(Dec::new(0, 0)));
    assert!(percent_change(d("3"), d("3.01")).unwrap().mantissa > 0);
    assert!(percent_change(d("3"), d("2.99")).unwrap().mantissa < 0);
}

#[test]
fn affine_map_without_rounding_moves_the_mean_and_scales_the_variance() {
    let xs: Vec<Dec> = ["1", "2", "3"].iter().map(|t| d(t)).collect();
    let ys = affine_transform(&xs, d("2.5"), d("0.5")).unwrap();
    assert_eq!(ys, vec![d("3.0"), d("5.5"), d("8.0")]);
    // E[Y] = 2.5 * 2 + 0.5 and Var(Y) = 2.5^2 * 1.
    assert!(same_value(mean(&xs).unwrap(), d("2")));
    assert!(same_value(mean(&ys).unwrap(), d("5.5")));
    assert!(same_value(sample_variance(&xs).unwrap(), d("1")));
    assert!(same_value(sample_variance(&ys).unwrap(), d("6.25")));
}

#[test]
fn chebyshev_distance_is_three_and_a_half_deviations_for_any_exact_cutoff() {
    // A zero cutoff (mean 7 = 3.5 * 2) and a mean with more decimal places.
    let zero_cutoff = chebyshev_max_probability_beyond_3_5_standard_deviations(d("2"), d("7")).unwrap();
    let finer_mean = chebyshev_max_probability_beyond_3_5_standard_deviations(d("2"), d("0.125")).unwrap();
    let direct_zero = chebyshev_max_probability(d("7"), d("4")).unwrap();
    let direct_finer = chebyshev_max_probability(d("7.000"), d("4")).unwrap();
    assert_eq!(zero_cutoff, direct_zero);
    assert_eq!(finer_mean, direct_finer);
}
