use market_snapshot::client::stock::{analysis_request, build_analysis_prompt, build_context};
use market_snapshot::client::strip_code_fences;
use market_snapshot::finance::decimal::Decimal;
use market_snapshot::finance::percent::Percent;
use market_snapshot::finance::MarketData;

fn data() -> MarketData {
    MarketData {
        ticker: "AAPL".to_string(),
        current_price: Decimal { units: 1_502_500 },
        change_1m: Percent { numerator: 100 * 50_000, denominator: 1_580_000 },
        change_3m: Percent { numerator: -100 * 150_000, denominator: 1_480_000 },
        change_1y: Percent { numerator: 100 * 630_000, denominator: 1_000_000 },
        sector: "TECHNOLOGY".to_string(),
        market_cap: "2.80T".to_string(),
        sp500_1m: Percent { numerator: -1, denominator: 1_000 },
        sp500_3m: Percent { numerator: 1, denominator: 8 },
        recent_news: vec!["Apple ships".to_string(), "Apple slips".to_string()],
    }
}

#[test]
fn context_lays_the_snapshot_out() {
    assert_eq!(
        build_context(&data()),
        "Stock: AAPL\n\
         Current Price: $150.25\n\
         1-month change: 3.164556962025316%\n\
         3-month change: -10.135135135135135%\n\
         1-year change: 63%\n\
         Sector: TECHNOLOGY\n\
         Market Cap: 2.80T\n\
         \n\
         S&P 500 performance (same period):\n\
         1-month: -0.001%\n\
         3-month: 0.125%\n\
         \n\
         Recent news headlines:\n\
         1. Apple ships\n\
         2. Apple slips\n"
    );
}

#[test]
fn context_without_headlines_ends_in_an_empty_line() {
    let mut data = data();
    data.recent_news.clear();
    let context = build_context(&data);
    assert!(context.ends_with("Recent news headlines:\n\n"));
}

#[test]
fn context_numbers_every_headline() {
    let mut data = data();
    data.recent_news = (0..12).map(|i| format!("News {}", i)).collect();
    let context = build_context(&data);
    assert!(context.ends_with("\n9. News 8\n10. News 9\n11. News 10\n12. News 11\n"));
}

#[test]
fn context_writes_numbers_at_the_ends_of_their_range() {
    let mut data = data();
    data.current_price = Decimal { units: i64::MIN };
    data.change_1m = Percent { numerator: i128::MIN, denominator: 1 };
    data.change_3m = Percent { numerator: i128::MAX, denominator: u64::MAX };
    data.change_1y = Percent { numerator: -1995, denominator: 1000 };
    data.sp500_1m = Percent { numerator: 9995, denominator: 1000 };
    data.sp500_3m = Percent { numerator: -5, denominator: 1000 };
    let context = build_context(&data);
    assert!(context.contains("Current Price: $-922337203685477.5808\n"));
    assert!(context.contains("1-month change: -170141183460469231731687303715884105728%\n"));
    assert!(context.contains("3-month change: 9223372036854775808.5%\n"));
    assert!(context.contains("1-year change: -1.995%\n"));
    assert!(context.contains("\n1-month: 9.995%\n"));
    assert!(context.contains("\n3-month: -0.005%\n"));
}

#[test]
fn prompt_names_the_ticker_and_holds_the_context() {
    let prompt = build_analysis_prompt("AAPL", "Stock: AAPL\n");
    assert!(prompt.starts_with(
        "You are an experienced financial analyst. A client asked you about AAPL.\n\n\
         Here's the data you have:\nStock: AAPL\n\n\n\
         Provide a professional analysis in JSON format with this EXACT structure:\n\n\
         {\n  \"executive_summary\": \"2-3 sentence big picture summary\",\n"
    ));
    assert!(prompt.ends_with(
        "- Key takeaway should be actionable (e.g., \"Watch for X in next earnings\")\n\n\
         Return ONLY the JSON, no additional text."
    ));
    assert!(prompt.contains(
        "    \"recent_pullback_reasons\": [\"Reason 1\", \"Reason 2\"] // optional, only if there was a pullback\n  },\n"
    ));
    assert_eq!(prompt.lines().count(), 39);
}

#[test]
fn prompt_takes_ticker_and_context_as_they_are() {
    let empty = build_analysis_prompt("", "");
    let filled = build_analysis_prompt("{ticker}", "{context}");
    assert_eq!(filled.len(), empty.len() + "{ticker}{context}".len());
    assert!(filled.contains("asked you about {ticker}.\n"));
    assert!(filled.contains("you have:\n{context}\n\nProvide"));
}

#[test]
fn fences_are_taken_off_an_answer() {
    assert_eq!(strip_code_fences("```json\n{\"a\": 1}\n```"), "{\"a\": 1}");
    assert_eq!(strip_code_fences("```{\"a\": 1}```"), "{\"a\": 1}");
    assert_eq!(strip_code_fences("{\"a\": 1}"), "{\"a\": 1}");
    assert_eq!(strip_code_fences(""), "");
    assert_eq!(strip_code_fences("```json\n```"), "");
    assert_eq!(strip_code_fences("Here:\n```json\n{\"é\": \"ü\"}\n```\nDone"), "Here:\n{\"é\": \"ü\"}\nDone");
}

#[test]
fn fences_are_taken_off_in_three_passes() {
    // The opening fence goes first, so a language tag without a line break stays.
    assert_eq!(strip_code_fences("```json{}```"), "json{}");
    // Each pass searches on behind what it found.
    assert_eq!(strip_code_fences("````"), "`");
    assert_eq!(strip_code_fences("``````"), "");
    // What a pass leaves may form a fence for the next.
    assert_eq!(strip_code_fences("`\n`````"), "");
    assert_eq!(strip_code_fences("`````json\n`x"), "x");
}

#[test]
fn request_holds_the_context_of_the_snapshot() {
    let data = data();
    assert_eq!(analysis_request(&data), build_analysis_prompt("AAPL", &build_context(&data)));
    assert!(analysis_request(&data).contains("you have:\nStock: AAPL\nCurrent Price: $150.25\n"));
}

#[test]
fn context_writes_the_price_as_short_as_it_can_be() {
    let mut data = data();
    for (units, text) in [
        (1_500_000, "150"),
        (1_502_500, "150.25"),
        (1_502_501, "150.2501"),
        (1_502_510, "150.251"),
        (5_000, "0.5"),
        (1, "0.0001"),
        (100, "0.01"),
        (0, "0"),
        (-5_000, "-0.5"),
        (-70_000, "-7"),
        (i64::MAX, "922337203685477.5807"),
    ] {
        data.current_price = Decimal { units };
        let context = build_context(&data);
        assert!(context.contains(&format!("Current Price: ${}\n", text)), "{}", text);
    }
}

#[test]
fn context_writes_percentages_as_short_as_they_can_be() {
    let data = MarketData {
        ticker: "AAPL".to_string(),
        current_price: Decimal { units: 1_500_000 },
        change_1m: Percent { numerator: 25, denominator: 10 },
        change_3m: Percent { numerator: -125, denominator: 100 },
        change_1y: Percent { numerator: 10, denominator: 1 },
        sector: "Technology".to_string(),
        market_cap: "2.80T".to_string(),
        sp500_1m: Percent { numerator: 1, denominator: 1 },
        sp500_3m: Percent { numerator: 7, denominator: 2 },
        recent_news: vec!["A".to_string(), "B".to_string()],
    };
    assert_eq!(
        build_context(&data),
        "Stock: AAPL\nCurrent Price: $150\n1-month change: 2.5%\n3-month change: -1.25%\n\
         1-year change: 10%\nSector: Technology\nMarket Cap: 2.80T\n\n\
         S&P 500 performance (same period):\n1-month: 1%\n3-month: 3.5%\n\n\
         Recent news headlines:\n1. A\n2. B\n"
    );
}

#[test]
fn context_rounds_percentages_that_do_not_end() {
    let mut data = data();
    for (numerator, denominator, text) in [
        (1, 3, "0.333333333333333"),
        (2, 3, "0.666666666666667"),
        (-2, 3, "-0.666666666666667"),
        (1, 8, "0.125"),
        (0, 7, "0"),
        (-7, 7, "-1"),
        (1, 1_000_000_000_000_000, "0.000000000000001"),
        (1, 2_000_000_000_000_000, "0"),
        (3, 2_000_000_000_000_000, "0.000000000000002"),
        (-1, 3_000_000_000_000_000, "0"),
        (19_999_999_999_999_999, 10_000_000_000_000_000, "2"),
        (250_000, 10_000, "25"),
        (100 * 50_000, 1_000_000, "5"),
    ] {
        data.change_1m = Percent { numerator, denominator };
        let context = build_context(&data);
        assert!(
            context.contains(&format!("\n1-month change: {}%\n", text)),
            "{} / {}",
            numerator,
            denominator
        );
    }
}
