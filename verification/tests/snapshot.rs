use market_snapshot::finance::decimal::Decimal;
use market_snapshot::finance::percent::Percent;
use market_snapshot::finance::series::{DailyData, TimeSeriesResponse};
use market_snapshot::finance::snapshot::{
    headlines, GlobalQuote, NewsItem, NewsResponse, OverviewResponse,
};
use market_snapshot::finance::upstream::{
    news_url, overview_url, quote_url, time_series_url, upstream_requests,
};
use market_snapshot::finance::{assemble_market_data, MarketData, MarketDataError};

fn date(day: usize) -> String {
    format!("20{:02}-{:02}-{:02}", 20 + day / 336, day % 336 / 28 + 1, day % 28 + 1)
}

/// `days` entries, oldest first, the close rising by a quarter a day from 100.
fn rising(days: usize) -> TimeSeriesResponse {
    TimeSeriesResponse {
        time_series: (0..days)
            .map(|day| {
                let cents = 10_000 + 25 * day;
                (date(day), DailyData { close: format!("{}.{:02}00", cents / 100, cents % 100) })
            })
            .collect(),
    }
}

fn quote(price: &str) -> Result<GlobalQuote, MarketDataError> {
    Ok(GlobalQuote { price: price.to_string(), change_percent: "0.5000%".to_string() })
}

fn overview(sector: Option<&str>, cap: Option<&str>) -> Result<OverviewResponse, MarketDataError> {
    Ok(OverviewResponse {
        sector: sector.map(|s| s.to_string()),
        market_cap: cap.map(|s| s.to_string()),
    })
}

fn news(count: usize) -> Result<Vec<String>, MarketDataError> {
    Ok((1..=count).map(|i| format!("Headline {}", i)).collect())
}

fn value(change: Percent) -> f64 {
    change.numerator as f64 / change.denominator as f64
}

fn full() -> MarketData {
    assemble_market_data(
        "AAPL",
        quote("163.0000"),
        overview(Some("TECHNOLOGY"), Some("2800000000000")),
        Ok(rising(253)),
        Ok(rising(61)),
        news(7),
    )
    .unwrap()
}

#[test]
fn snapshot_holds_what_was_fetched_and_derived() {
    let data = full();
    assert_eq!(data.ticker, "AAPL");
    assert_eq!(data.current_price, Decimal { units: 1_630_000 });
    assert_eq!(data.sector, "TECHNOLOGY");
    assert_eq!(data.market_cap, "2.80T");
    // Newest close 163.00; 20, 60 and 252 days back 158.00, 148.00 and 100.00.
    assert_eq!(data.change_1m, Percent { numerator: 100 * 50_000, denominator: 1_580_000 });
    assert_eq!(data.change_3m, Percent { numerator: 100 * 150_000, denominator: 1_480_000 });
    assert_eq!(data.change_1y, Percent { numerator: 100 * 630_000, denominator: 1_000_000 });
    // Benchmark: newest close 115.00; 20 and 60 days back 110.00 and 100.00.
    assert_eq!(data.sp500_1m, Percent { numerator: 100 * 50_000, denominator: 1_100_000 });
    assert_eq!(data.sp500_3m, Percent { numerator: 100 * 150_000, denominator: 1_000_000 });
    assert!((value(data.change_1y) - 63.0).abs() < 1e-9);
    assert!((value(data.sp500_3m) - 15.0).abs() < 1e-9);
}

#[test]
fn snapshot_keeps_the_first_five_headlines_in_order() {
    let data = full();
    assert_eq!(
        data.recent_news,
        vec!["Headline 1", "Headline 2", "Headline 3", "Headline 4", "Headline 5"]
    );
    let few = assemble_market_data(
        "AAPL",
        quote("163.0000"),
        overview(None, None),
        Ok(rising(253)),
        Ok(rising(61)),
        news(2),
    )
    .unwrap();
    assert_eq!(few.recent_news, vec!["Headline 1", "Headline 2"]);
}

#[test]
fn snapshot_falls_back_for_absent_overview_fields() {
    let data = assemble_market_data(
        "SPY",
        quote("163.0000"),
        overview(None, None),
        Ok(rising(253)),
        Ok(rising(61)),
        news(0),
    )
    .unwrap();
    assert_eq!(data.sector, "Unknown");
    assert_eq!(data.market_cap, "");
    assert!(data.recent_news.is_empty());
}

#[test]
fn snapshot_tolerates_failed_news() {
    let data = assemble_market_data(
        "AAPL",
        quote("163.0000"),
        overview(Some("TECHNOLOGY"), Some("2800000000000")),
        Ok(rising(253)),
        Ok(rising(61)),
        Err(MarketDataError::UpstreamTransport),
    )
    .unwrap();
    assert!(data.recent_news.is_empty());
    assert_eq!(data.change_1y, full().change_1y);
    assert_eq!(data.market_cap, "2.80T");
}

#[test]
fn snapshot_fails_when_the_overview_failed() {
    let outcome = assemble_market_data(
        "AAPL",
        quote("163.0000"),
        Err(MarketDataError::UpstreamShape),
        Ok(rising(253)),
        Ok(rising(61)),
        news(3),
    );
    assert_eq!(outcome.err(), Some(MarketDataError::UpstreamShape));
}

#[test]
fn snapshot_reports_the_first_failed_answer() {
    let outcome = assemble_market_data(
        "AAPL",
        Err(MarketDataError::UpstreamTransport),
        Err(MarketDataError::UpstreamShape),
        Err(MarketDataError::Parse),
        Err(MarketDataError::DivisionByZero),
        news(3),
    );
    assert_eq!(outcome.err(), Some(MarketDataError::UpstreamTransport));
    let outcome = assemble_market_data(
        "AAPL",
        quote("1"),
        overview(None, None),
        Err(MarketDataError::UpstreamShape),
        Err(MarketDataError::UpstreamTransport),
        news(3),
    );
    assert_eq!(outcome.err(), Some(MarketDataError::UpstreamShape));
    let outcome = assemble_market_data(
        "AAPL",
        quote("1"),
        overview(None, None),
        Ok(rising(253)),
        Err(MarketDataError::UpstreamTransport),
        news(3),
    );
    assert_eq!(outcome.err(), Some(MarketDataError::UpstreamTransport));
}

#[test]
fn snapshot_fails_on_a_price_that_is_no_number() {
    for price in ["", "n/a", "163,00", "1e2"] {
        let outcome = assemble_market_data(
            "AAPL",
            quote(price),
            overview(None, None),
            Ok(rising(10)),
            Ok(rising(10)),
            news(3),
        );
        assert_eq!(outcome.err(), Some(MarketDataError::Parse));
    }
}

#[test]
fn snapshot_is_all_or_nothing() {
    for (days, sp500_days) in [(0, 61), (20, 61), (21, 61), (61, 61), (252, 300), (253, 60)] {
        let outcome = assemble_market_data(
            "AAPL",
            quote("163.0000"),
            overview(None, None),
            Ok(rising(days)),
            Ok(rising(sp500_days)),
            news(3),
        );
        assert_eq!(outcome.err(), Some(MarketDataError::InsufficientHistory));
    }
    assert!(assemble_market_data(
        "AAPL",
        quote("163.0000"),
        overview(None, None),
        Ok(rising(253)),
        Ok(rising(61)),
        news(3),
    )
    .is_ok());
}

#[test]
fn snapshot_does_not_count_unreadable_entries_as_history() {
    let mut series = rising(253);
    series.time_series[100].1.close = "n/a".to_string();
    let outcome = assemble_market_data(
        "AAPL",
        quote("163.0000"),
        overview(None, None),
        Ok(series),
        Ok(rising(61)),
        news(3),
    );
    assert_eq!(outcome.err(), Some(MarketDataError::InsufficientHistory));
}

#[test]
fn snapshot_fails_on_a_zero_close_at_a_lookback() {
    let mut series = rising(253);
    // Newest first, index 60 is the entry 60 days before the last.
    series.time_series[252 - 60].1.close = "0.00".to_string();
    let outcome = assemble_market_data(
        "AAPL",
        quote("163.0000"),
        overview(None, None),
        Ok(series),
        Ok(rising(61)),
        news(3),
    );
    assert_eq!(outcome.err(), Some(MarketDataError::DivisionByZero));
}

#[test]
fn rising_prices_give_positive_and_growing_changes() {
    for days in [253, 254, 400] {
        let mut series = rising(days);
        // The order of the record does not matter.
        series.time_series.reverse();
        series.time_series.swap(3, 200);
        let data = assemble_market_data(
            "AAPL",
            quote("1"),
            overview(None, None),
            Ok(series),
            Ok(rising(61)),
            news(0),
        )
        .unwrap();
        let (month, quarter, year) = (data.change_1m, data.change_3m, data.change_1y);
        assert!(month.numerator > 0 && quarter.numerator > 0 && year.numerator > 0);
        assert!(
            month.numerator * (quarter.denominator as i128)
                < quarter.numerator * (month.denominator as i128)
        );
        assert!(
            quarter.numerator * (year.denominator as i128)
                < year.numerator * (quarter.denominator as i128)
        );
        assert!(value(month) < value(quarter) && value(quarter) < value(year));
    }
}

#[test]
fn headlines_are_the_titles_of_the_feed() {
    let feed = NewsResponse {
        feed: vec![
            NewsItem { title: "First".to_string() },
            NewsItem { title: "Second".to_string() },
            NewsItem { title: "Third".to_string() },
        ],
    };
    assert_eq!(headlines(feed), vec!["First", "Second", "Third"]);
    assert!(headlines(NewsResponse { feed: vec![] }).is_empty());
}

#[test]
fn requests_go_to_the_five_endpoints() {
    assert_eq!(
        quote_url("AAPL", "KEY"),
        "https://www.alphavantage.co/query?function=GLOBAL_QUOTE&symbol=AAPL&apikey=KEY"
    );
    assert_eq!(
        overview_url("AAPL", "KEY"),
        "https://www.alphavantage.co/query?function=OVERVIEW&symbol=AAPL&apikey=KEY"
    );
    assert_eq!(
        time_series_url("BRK.B", "KEY"),
        "https://www.alphavantage.co/query?function=TIME_SERIES_DAILY&symbol=BRK.B&outputsize=full&apikey=KEY"
    );
    assert_eq!(
        news_url("AAPL", "KEY"),
        "https://www.alphavantage.co/query?function=NEWS_SENTIMENT&tickers=AAPL&apikey=KEY"
    );
    let requests = upstream_requests("AAPL", "KEY");
    assert_eq!(requests.quote, quote_url("AAPL", "KEY"));
    assert_eq!(requests.overview, overview_url("AAPL", "KEY"));
    assert_eq!(requests.time_series, time_series_url("AAPL", "KEY"));
    assert_eq!(requests.sp500_series, time_series_url("SPY", "KEY"));
    assert_eq!(requests.news, news_url("AAPL", "KEY"));
}
