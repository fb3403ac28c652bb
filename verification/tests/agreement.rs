use market_snapshot::client::strip_code_fences;
use market_snapshot::finance::decimal::{parse_decimal, Decimal};
use market_snapshot::finance::format_market_cap;
use market_snapshot::finance::percent::{push_decimal, push_percent, push_ratio, Percent};
use market_snapshot::text::{chars_of, digit_of, push_number, push_padded, remove_all, same_text};

/// A small generator of numbers that look arbitrary.
fn next(seed: &mut u64) -> u64 {
    *seed = seed.wrapping_mul(6364136223846793005).wrapping_add(1442695040888963407);
    *seed >> 11
}

fn written(d: Decimal) -> String {
    let mut out = String::new();
    push_decimal(&mut out, &d);
    out
}

#[test]
fn written_decimals_read_back() {
    let mut seed = 7;
    for round in 0..2000 {
        let units = match round {
            0 => 0,
            1 => i64::MAX,
            2 => -i64::MAX,
            3 => 1,
            4 => -1,
            _ => (next(&mut seed) as i64).wrapping_mul(if round % 2 == 0 { 1 } else { -1 })
                >> (round % 50),
        };
        if units == i64::MIN {
            continue;
        }
        let d = Decimal { units };
        assert_eq!(parse_decimal(&written(d)), Ok(d), "{}", units);
    }
}

#[test]
fn written_decimals_agree_with_the_standard_formatter() {
    let mut seed = 11;
    for _ in 0..2000 {
        // Few enough digits for a binary fraction to hold the number apart from its neighbours.
        let units = (next(&mut seed) % 100_000_000_000) as i64 - 50_000_000_000;
        let expected = format!("{}", units as f64 / 10_000.0);
        assert_eq!(written(Decimal { units }), expected);
    }
}

#[test]
fn numerals_agree_with_the_standard_parser() {
    let mut seed = 13;
    for _ in 0..2000 {
        let whole = next(&mut seed) % 1_000_000;
        let places = (next(&mut seed) % 5) as usize;
        let fraction = next(&mut seed) % 10_000;
        let text = match places {
            0 => format!("{}", whole),
            _ => format!("{}.{:0width$}", whole, fraction % 10u64.pow(places as u32), width = places),
        };
        let read = parse_decimal(&text).unwrap();
        assert_eq!(read.units as f64 / 10_000.0, text.parse::<f64>().unwrap(), "{}", text);
    }
}

#[test]
fn market_caps_agree_with_the_standard_formatter_away_from_ties() {
    let mut seed = 17;
    let mut compared = 0;
    for round in 0..5000 {
        let cap = next(&mut seed) % 10u64.pow(7 + round % 9);
        let (unit, suffix) = if cap >= 1_000_000_000_000 {
            (1_000_000_000_000u64, "T")
        } else if cap >= 1_000_000_000 {
            (1_000_000_000, "B")
        } else if cap >= 1_000_000 {
            (1_000_000, "M")
        } else {
            assert_eq!(format_market_cap(&cap.to_string()), cap.to_string());
            continue;
        };
        if (cap % (unit / 100)) * 2 == unit / 100 {
            continue;
        }
        let expected = format!("{:.2}{}", cap as f64 / unit as f64, suffix);
        assert_eq!(format_market_cap(&cap.to_string()), expected, "{}", cap);
        compared += 1;
    }
    assert!(compared > 4000);
}

fn written_percent(numerator: i128, denominator: u64) -> String {
    let mut out = String::new();
    push_percent(&mut out, &Percent { numerator, denominator });
    out
}

#[test]
fn percentages_that_end_agree_with_the_standard_formatter() {
    // Denominators made of twos and fives give decimal forms that end, short
    // enough for a binary fraction to hold them apart from their neighbours.
    let denominators = [1u64, 2, 4, 5, 8, 10, 16, 20, 25, 40, 50, 64, 100, 125, 250, 1000, 10_000];
    let mut seed = 19;
    for _ in 0..5000 {
        let numerator = (next(&mut seed) % 2_000_000) as i128 - 1_000_000;
        let denominator = denominators[(next(&mut seed) % denominators.len() as u64) as usize];
        let expected = format!("{}", numerator as f64 / denominator as f64);
        assert_eq!(
            written_percent(numerator, denominator),
            expected,
            "{} / {}",
            numerator,
            denominator
        );
    }
}

#[test]
fn percentages_that_do_not_end_are_close_to_the_quotient() {
    let mut seed = 31;
    for _ in 0..5000 {
        let numerator = (next(&mut seed) % 2_000_000_000) as i128 - 1_000_000_000;
        let denominator = next(&mut seed) % 1_000_000 + 1;
        let text = written_percent(numerator, denominator);
        let exact = numerator as f64 / denominator as f64;
        let read: f64 = text.parse().unwrap();
        assert!((read - exact).abs() <= 1e-9 * exact.abs().max(1.0), "{}", text);
        assert!(!text.contains('.') || !text.ends_with('0'), "{}", text);
        assert!(!text.ends_with('.'), "{}", text);
        let places = text.split('.').nth(1).map_or(0, |fraction| fraction.len());
        assert!(places <= 15, "{}", text);
    }
}

#[test]
fn ratios_are_rounded_half_to_even() {
    for (n, d, text) in [
        (0u128, 1u64, "0.00"),
        (1, 8, "0.12"),
        (3, 8, "0.38"),
        (1, 200, "0.00"),
        (3, 200, "0.02"),
        (5, 200, "0.02"),
        (1, 3, "0.33"),
        (2, 3, "0.67"),
        (199, 200, "1.00"),
        (u128::MAX, 1, "340282366920938463463374607431768211455.00"),
        (u128::MAX, u64::MAX, "18446744073709551617.00"),
        (u64::MAX as u128 - 1, u64::MAX, "1.00"),
    ] {
        let mut out = String::from("x");
        push_ratio(&mut out, n, d);
        assert_eq!(out, format!("x{}", text), "{} / {}", n, d);
    }
}

#[test]
fn fences_agree_with_replacing_in_three_passes() {
    let pieces = ["```", "json", "\n", "`", "{\"a\": 1}", "``", " ", "é", "```json\n", "\n```"];
    let mut seed = 23;
    for _ in 0..3000 {
        let mut text = String::new();
        for _ in 0..next(&mut seed) % 8 {
            text.push_str(pieces[(next(&mut seed) % pieces.len() as u64) as usize]);
        }
        let expected = text.replace("```json\n", "").replace("\n```", "").replace("```", "");
        assert_eq!(strip_code_fences(&text), expected, "{:?}", text);
    }
}

#[test]
fn removal_agrees_with_replacing_by_nothing() {
    let pieces = ["a", "b", "ab", "aa", "aba", "é", ""];
    let mut seed = 29;
    for _ in 0..3000 {
        let mut text = String::new();
        for _ in 0..next(&mut seed) % 10 {
            text.push_str(pieces[(next(&mut seed) % pieces.len() as u64) as usize]);
        }
        let pattern = pieces[(next(&mut seed) % pieces.len() as u64) as usize];
        assert_eq!(remove_all(&text, pattern), text.replace(pattern, ""), "{:?} {:?}", text, pattern);
    }
}

#[test]
fn texts_are_taken_character_by_character() {
    assert_eq!(chars_of("aé1"), vec!['a', 'é', '1']);
    assert!(chars_of("").is_empty());
    assert!(same_text("née", "née"));
    assert!(!same_text("nee", "née"));
    assert!(!same_text("a", "ab"));
    assert!(same_text("", ""));
}

#[test]
fn digits_are_read_and_written() {
    assert_eq!(digit_of('0'), Some(0));
    assert_eq!(digit_of('9'), Some(9));
    for c in ['/', ':', 'a', ' ', '٣', '-'] {
        assert_eq!(digit_of(c), None);
    }
    let mut out = String::new();
    push_number(&mut out, 0);
    push_number(&mut out, 1234567890);
    push_number(&mut out, u128::MAX);
    assert_eq!(out, format!("01234567890{}", u128::MAX));
    let mut out = String::new();
    push_padded(&mut out, 7, 3);
    push_padded(&mut out, 12345, 3);
    push_padded(&mut out, 5, 0);
    push_padded(&mut out, 0, 2);
    assert_eq!(out, "00734500");
}
