use market_snapshot::finance::format_market_cap;

#[test]
fn test_format_market_cap() {
    assert_eq!(format_market_cap("1500000000000"), "1.50T");
    assert_eq!(format_market_cap("2800000000"), "2.80B");
    assert_eq!(format_market_cap("500000000"), "500.00M");
}

#[test]
fn market_cap_text_that_is_no_number_is_unchanged() {
    assert_eq!(format_market_cap("abc"), "abc");
    assert_eq!(format_market_cap(""), "");
    assert_eq!(format_market_cap("1e12"), "1e12");
    assert_eq!(format_market_cap("12 000"), "12 000");
    assert_eq!(format_market_cap("inf"), "inf");
    assert_eq!(format_market_cap("NaN"), "NaN");
}

#[test]
fn market_cap_below_a_million_is_unchanged() {
    assert_eq!(format_market_cap("999999"), "999999");
    assert_eq!(format_market_cap("999999.9999"), "999999.9999");
    assert_eq!(format_market_cap("0"), "0");
    assert_eq!(format_market_cap("-5000000"), "-5000000");
    assert_eq!(format_market_cap("+12.50"), "+12.50");
}

#[test]
fn market_cap_at_a_boundary_takes_the_larger_unit() {
    assert_eq!(format_market_cap("1000000"), "1.00M");
    assert_eq!(format_market_cap("1000000000"), "1.00B");
    assert_eq!(format_market_cap("1000000000000"), "1.00T");
    assert_eq!(format_market_cap("999999999"), "1000.00M");
    assert_eq!(format_market_cap("999999999999"), "1000.00B");
}

#[test]
fn market_cap_is_rounded_half_to_even() {
    assert_eq!(format_market_cap("1125000000000"), "1.12T");
    assert_eq!(format_market_cap("1135000000000"), "1.14T");
    assert_eq!(format_market_cap("1005000"), "1.00M");
    assert_eq!(format_market_cap("1015000"), "1.02M");
    assert_eq!(format_market_cap("1004999.9999"), "1.00M");
    assert_eq!(format_market_cap("1005000.0001"), "1.01M");
    assert_eq!(format_market_cap("9995000000"), "10.00B");
}

#[test]
fn market_cap_with_a_fraction_or_a_sign_is_scaled() {
    assert_eq!(format_market_cap("+2800000000"), "2.80B");
    assert_eq!(format_market_cap("3456789012.5"), "3.46B");
    assert_eq!(format_market_cap("1500000000.12345"), "1.50B");
    assert_eq!(format_market_cap("0001500000"), "1.50M");
}

#[test]
fn market_cap_beyond_what_a_price_can_hold() {
    assert_eq!(format_market_cap("922337203685477.5807"), "922.34T");
    assert_eq!(format_market_cap("922337203685477.5808"), "922.34T");
    assert_eq!(format_market_cap("1234567890123456789"), "1234567.89T");
}

#[test]
fn market_cap_at_the_largest_number_read() {
    let largest = format!("1{}", "0".repeat(33));
    assert_eq!(format_market_cap(&largest), format!("1{}.00T", "0".repeat(21)));
    let beyond = format!("1{}.0001", "0".repeat(33));
    assert_eq!(format_market_cap(&beyond), beyond);
    let rounded_down = format!("1{}.00005", "0".repeat(33));
    assert_eq!(format_market_cap(&rounded_down), format!("1{}.00T", "0".repeat(21)));
    let far_beyond = "9".repeat(60);
    assert_eq!(format_market_cap(&far_beyond), far_beyond);
}
