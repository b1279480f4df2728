use quant_lessons::data_sources::{
    load_fred_daily_values, load_yahoo_daily_closes, parse_fred_fields, load_yahoo_daily_closes_with_dates, CloseValue,
    YahooError, YahooSeries,
};
use quant_lessons::decimal::Dec;

fn d(text: &str) -> Dec {
    Dec::parse(text).unwrap()
}

#[test]
fn yahoo_nulls_are_dropped_not_zeroed() {
    let results = vec![YahooSeries {
        timestamps: vec![0, 86_400, 172_800, 259_200],
        quote_closes: vec![vec![
            CloseValue::Price(d("100.5")),
            CloseValue::Missing,
            CloseValue::Price(d("101")),
            CloseValue::Missing,
        ]],
    }];
    let days = load_yahoo_daily_closes_with_dates(&results).unwrap();
    assert_eq!(days.len(), 2);
    assert_eq!(days[0].date, "1970-01-01");
    assert_eq!(days[0].closing_price, d("100.5"));
    assert_eq!(days[1].date, "1970-01-03");
    assert_eq!(days[1].closing_price, d("101"));
    assert_eq!(load_yahoo_daily_closes(&days), vec![d("100.5"), d("101")]);
}

#[test]
fn yahoo_zips_to_the_shorter_list() {
    let results = vec![YahooSeries {
        timestamps: vec![1_600_000_000],
        quote_closes: vec![vec![CloseValue::Price(d("3")), CloseValue::Price(d("4"))]],
    }];
    let days = load_yahoo_daily_closes_with_dates(&results).unwrap();
    assert_eq!(days.len(), 1);
    assert_eq!(days[0].date, "2020-09-13");
}

#[test]
fn yahoo_errors() {
    assert!(matches!(load_yahoo_daily_closes_with_dates(&[]), Err(YahooError::EmptyResult)));
    let no_quote = vec![YahooSeries { timestamps: vec![0], quote_closes: vec![] }];
    assert!(matches!(load_yahoo_daily_closes_with_dates(&no_quote), Err(YahooError::EmptyQuote)));
    let bad_time = vec![YahooSeries {
        timestamps: vec![i64::MAX],
        quote_closes: vec![vec![CloseValue::Price(d("1"))]],
    }];
    assert!(matches!(load_yahoo_daily_closes_with_dates(&bad_time), Err(YahooError::InvalidTimestamp)));
    let bad_time_but_null = vec![YahooSeries {
        timestamps: vec![i64::MAX],
        quote_closes: vec![vec![CloseValue::Missing]],
    }];
    assert_eq!(load_yahoo_daily_closes_with_dates(&bad_time_but_null).unwrap().len(), 0);
    let bad_price = vec![YahooSeries {
        timestamps: vec![0],
        quote_closes: vec![vec![CloseValue::Unrepresentable]],
    }];
    assert!(matches!(load_yahoo_daily_closes_with_dates(&bad_price), Err(YahooError::UnrepresentablePrice)));
}

#[test]
fn fred_dots_are_skipped_not_zeroed() {
    let fields = vec![
        Some("4.25".to_string()),
        Some(".".to_string()),
        None,
        Some("-0.10".to_string()),
        Some("abc".to_string()),
    ];
    assert_eq!(parse_fred_fields(&fields), vec![d("4.25"), d("-0.10")]);
    assert_eq!(parse_fred_fields(&[]), vec![]);
}

#[test]
fn fred_csv_text_gives_the_second_fields_that_parse() {
    let text = "DATE,DGS10\n2020-01-02,1.88\n2020-01-03,.\n2020-01-06,1.81\n";
    assert_eq!(load_fred_daily_values(text), Some(vec![d("1.88"), d("1.81")]));
    assert_eq!(load_fred_daily_values("DATE,DGS10\n"), Some(vec![]));
}

#[test]
fn fred_csv_with_an_unreadable_record_is_refused() {
    let text = "DATE,DGS10\n2020-01-02,1.88\n2020-01-03,1.90,extra\n";
    assert_eq!(load_fred_daily_values(text), None);
}
