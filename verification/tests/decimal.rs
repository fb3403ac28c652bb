use market_snapshot::finance::decimal::{parse_decimal, read_numeral, Decimal, MAGNITUDE_LIMIT};
use market_snapshot::finance::MarketDataError;

fn units(text: &str) -> Result<i64, MarketDataError> {
    parse_decimal(text).map(|d| d.units)
}

#[test]
fn parse_reads_whole_numbers() {
    assert_eq!(units("0"), Ok(0));
    assert_eq!(units("150"), Ok(1_500_000));
    assert_eq!(units("007"), Ok(70_000));
    assert_eq!(units("1500000000000"), Ok(15_000_000_000_000_000));
}

#[test]
fn parse_reads_fractions_exactly() {
    assert_eq!(units("150.2500"), Ok(1_502_500));
    assert_eq!(units("150.25"), Ok(1_502_500));
    assert_eq!(units("0.0001"), Ok(1));
    assert_eq!(units("12.3"), Ok(123_000));
    assert_eq!(units("5."), Ok(50_000));
    assert_eq!(units(".5"), Ok(5_000));
    assert_eq!(units("1.23450000"), Ok(12_345));
}

#[test]
fn parse_reads_signs() {
    assert_eq!(units("-0.5"), Ok(-5_000));
    assert_eq!(units("+3"), Ok(30_000));
    assert_eq!(units("-0"), Ok(0));
    assert_eq!(parse_decimal("-12.34"), Ok(Decimal { units: -123_400 }));
}

#[test]
fn parse_rejects_what_is_no_numeral() {
    for text in [
        "", ".", "+", "-", "+.", "abc", "1e5", " 1", "1 ", "1,000", "1.2.3", "--1", "+-1", "1-",
        "0x10", "1_000", "inf", "NaN", "١٢٣", "12a", "1.5f", "1.2345x", "1.23456x", "1.234567x",
        "1.23456.7",
    ] {
        assert_eq!(units(text), Err(MarketDataError::Parse), "{:?}", text);
    }
}

#[test]
fn parse_rounds_what_lies_behind_the_fourth_place() {
    assert_eq!(units("1.23456"), Ok(12_346));
    assert_eq!(units("1.23454"), Ok(12_345));
    assert_eq!(units("0.00001"), Ok(0));
    assert_eq!(units("0.00000"), Ok(0));
    assert_eq!(units("150.123449999999999999999999999999999999"), Ok(1_501_234));
    assert_eq!(units("150.123450000000000000000000000000000001"), Ok(1_501_235));
    assert_eq!(units("-0.99999"), Ok(-10_000));
    assert_eq!(units(".00009"), Ok(1));
}

#[test]
fn parse_rounds_a_tie_to_the_even_neighbour() {
    assert_eq!(units("0.00005"), Ok(0));
    assert_eq!(units("0.00015"), Ok(2));
    assert_eq!(units("0.00025"), Ok(2));
    assert_eq!(units("0.000250"), Ok(2));
    assert_eq!(units("0.0002500001"), Ok(3));
    assert_eq!(units("-1.23445"), Ok(-12_344));
    assert_eq!(units("-1.23455"), Ok(-12_346));
    assert_eq!(units("9.99995"), Ok(100_000));
}

#[test]
fn parse_holds_up_to_the_largest_magnitude() {
    assert_eq!(units("922337203685477.5807"), Ok(i64::MAX));
    assert_eq!(units("-922337203685477.5807"), Ok(-i64::MAX));
    assert_eq!(units("922337203685477.5808"), Err(MarketDataError::Parse));
    assert_eq!(units("922337203685478"), Err(MarketDataError::Parse));
    assert_eq!(units("922337203685477.58074"), Ok(i64::MAX));
    assert_eq!(units("922337203685477.58075"), Err(MarketDataError::Parse));
    assert_eq!(units("922337203685477.58065"), Ok(i64::MAX - 1));
    assert_eq!(units("99999999999999999999999999999999999999999999"), Err(MarketDataError::Parse));
    assert_eq!(units("000000000000000000000000000000000000000001"), Ok(10_000));
}

#[test]
fn numerals_are_read_up_to_a_limit() {
    assert_eq!(read_numeral("12.5", 125_000), Some((false, 125_000)));
    assert_eq!(read_numeral("12.5001", 125_000), None);
    assert_eq!(read_numeral("-12.5", 125_000), Some((true, 125_000)));
    assert_eq!(read_numeral("-0", 0), Some((true, 0)));
    assert_eq!(read_numeral("0.00005", 0), Some((false, 0)));
    assert_eq!(read_numeral("0.00015", 0), None);
    assert_eq!(read_numeral("x", MAGNITUDE_LIMIT), None);
    let largest = format!("1{}", "0".repeat(33));
    assert_eq!(read_numeral(&largest, MAGNITUDE_LIMIT), Some((false, MAGNITUDE_LIMIT)));
    assert_eq!(read_numeral(&format!("{}.00005", largest), MAGNITUDE_LIMIT), Some((false, MAGNITUDE_LIMIT)));
    assert_eq!(read_numeral(&format!("{}.00005001", largest), MAGNITUDE_LIMIT), None);
    assert_eq!(MAGNITUDE_LIMIT, 10u128.pow(37));
}
