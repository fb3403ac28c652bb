//! What holds of the engine as a whole: laws that relate writing and reading
//! of numbers, extraction, trailing changes and assembly.

use crate::finance::decimal::{
    fraction_digits, fraction_part, is_negative, is_numeral, is_signed, numeral_magnitude, parsed,
    unsigned_part, whole_part, Decimal,
};
use crate::finance::percent::{decimal_text, fraction_text, magnitude};
use crate::finance::series::{
    lemma_newest_first_is_ordered_rearrangement, lemma_text_before_total, newest_first,
    priced_entries, text_before, trailing_change, PricePoint, TimeSeriesResponse,
};
use crate::finance::snapshot::{
    assembled, GlobalQuote, OverviewResponse, LOOKBACK_1M, LOOKBACK_1Y, LOOKBACK_3M,
};
use crate::finance::MarketDataError;
use crate::text::{
    all_digits, decimal_digits, digits_value, is_digit, lemma_decimal_digits_spell,
    lemma_digits_value_concat, lemma_padded_digits_spell, lemma_point_index, padded_digits, pow10,
    round_half_even,
};
use vstd::prelude::*;

verus! {

/// The fractional digits of a decimal, written without the zeros at their
/// end, are digits that spell the fraction once the zeros are put back.
proof fn lemma_fraction_text_spells(frac: nat, width: nat)
    requires
        frac < pow10(width),
    ensures
        fraction_text(frac, width).len() <= width,
        all_digits(fraction_text(frac, width)),
        frac != 0 ==> fraction_text(frac, width).len() >= 1,
        digits_value(
            Seq::new(
                width,
                |i: int|
                    if i < fraction_text(frac, width).len() {
                        fraction_text(frac, width)[i]
                    } else {
                        '0'
                    },
            ),
        ) == frac,
    decreases width,
{
    let written = fraction_text(frac, width);
    let filled = Seq::new(
        width,
        |i: int|
            if i < written.len() {
                written[i]
            } else {
                '0'
            },
    );
    if width == 0 {
    } else if frac % 10 == 0 {
        let shorter = (width - 1) as nat;
        assert(frac / 10 < pow10(shorter));
        lemma_fraction_text_spells(frac / 10, shorter);
        let front = Seq::new(
            shorter,
            |i: int|
                if i < written.len() {
                    written[i]
                } else {
                    '0'
                },
        );
        assert(filled.drop_last() =~= front);
        assert(filled.last() == '0');
    } else {
        lemma_padded_digits_spell(frac, width);
        assert(filled =~= padded_digits(frac, width));
        vstd::arithmetic::div_mod::lemma_small_mod(frac, pow10(width));
    }
}

/// Rounding leaves a quotient that comes out even as it is: a percentage with
/// a decimal form of no more places than it is written with is written exactly.
pub proof fn lemma_even_quotient_is_not_rounded(n: nat, d: nat)
    requires
        d > 0,
        n % d == 0,
    ensures
        round_half_even(n, d) == n / d,
        round_half_even(n, d) * d == n,
{
    vstd::arithmetic::div_mod::lemma_fundamental_div_mod(n as int, d as int);
    assert((n / d) * d == d * (n / d)) by (nonlinear_arith);
}

/// What is written of a decimal reads back as that decimal.
pub proof fn lemma_written_decimal_reads_back(d: Decimal)
    requires
        d.units > i64::MIN,
    ensures
        parsed(decimal_text(d)) == Some(d),
{
    let m = magnitude(d.units as int);
    let whole = decimal_digits(m / 10000);
    let frac = m % 10000;
    let places = fraction_text(frac, 4);
    let body = if frac == 0 {
        whole
    } else {
        whole + seq!['.'] + places
    };
    let text = decimal_text(d);
    lemma_decimal_digits_spell(m / 10000);
    assert(pow10(4) == 10000) by {
        assert(pow10(0) == 1);
        assert(pow10(1) == 10);
        assert(pow10(2) == 100);
        assert(pow10(3) == 1000);
    }
    lemma_fraction_text_spells(frac, 4);
    assert(is_digit(whole[0]));
    assert(body[0] == whole[0]);
    if d.units < 0 {
        assert(text =~= seq!['-'] + body);
        assert(text[0] == '-');
        assert(text.drop_first() =~= body);
    } else {
        assert(text == body);
        assert(!is_signed(text));
    }
    assert(unsigned_part(text) == body);
    assert(is_negative(text) == (d.units < 0));
    assert forall|j: int| 0 <= j < whole.len() implies body[j] != '.' by {
        assert(body[j] == whole[j]);
        assert(is_digit(whole[j]));
    }
    if frac != 0 {
        assert(body[whole.len() as int] == '.');
    }
    lemma_point_index(body, whole.len() as int);
    assert(whole_part(body) =~= whole);
    let after = fraction_part(body);
    if frac == 0 {
        assert(after =~= Seq::<char>::empty());
    } else {
        assert(after =~= places);
    }
    assert(all_digits(after));
    assert(is_numeral(text));
    let filled = fraction_digits(after);
    assert(filled =~= Seq::new(
        4,
        |i: int|
            if i < places.len() {
                places[i]
            } else {
                '0'
            },
    )) by {
        if frac == 0 {
            assert(places.len() == 0) by {
                assert(fraction_text(0, 4) == fraction_text(0, 3));
                assert(fraction_text(0, 3) == fraction_text(0, 2));
                assert(fraction_text(0, 2) == fraction_text(0, 1));
                assert(fraction_text(0, 1) == fraction_text(0, 0));
            }
        }
    }
    lemma_digits_value_concat(whole, filled);
    assert(digits_value(whole + filled) == m) by {
        vstd::arithmetic::div_mod::lemma_fundamental_div_mod(m as int, 10000);
    }
    assert(numeral_magnitude(text) == m);
}

/// An entry whose closing price is no numeral is dropped without a trace: the
/// record without it gives the same points.
pub proof fn lemma_unreadable_entry_is_dropped(raw: Seq<(Seq<char>, Seq<char>)>, at: int)
    requires
        0 <= at < raw.len(),
        parsed(raw[at].1) is None,
    ensures
        priced_entries(raw) == priced_entries(raw.remove(at)),
    decreases raw.len(),
{
    if at == raw.len() - 1 {
        assert(raw.remove(at) =~= raw.drop_last());
    } else {
        lemma_unreadable_entry_is_dropped(raw.drop_last(), at);
        assert(raw.remove(at).drop_last() =~= raw.drop_last().remove(at));
        assert(raw.remove(at).last() == raw.last());
    }
}

/// Every entry whose closing price is a numeral gives a point of the series,
/// with its date and the price read, whatever else the record holds.
pub proof fn lemma_readable_entry_is_kept(raw: Seq<(Seq<char>, Seq<char>)>, at: int)
    requires
        0 <= at < raw.len(),
        parsed(raw[at].1) is Some,
    ensures
        priced_entries(raw).contains((raw[at].0, parsed(raw[at].1)->0)),
        newest_first(priced_entries(raw)).contains((raw[at].0, parsed(raw[at].1)->0)),
    decreases raw.len(),
{
    let point: PricePoint = (raw[at].0, parsed(raw[at].1)->0);
    let points = priced_entries(raw);
    if at == raw.len() - 1 {
        let earlier = priced_entries(raw.drop_last());
        assert(points == earlier.push(point));
        assert(points[earlier.len() as int] == point);
    } else {
        lemma_readable_entry_is_kept(raw.drop_last(), at);
        let earlier = priced_entries(raw.drop_last());
        let k = choose|k: int| 0 <= k < earlier.len() && earlier[k] == point;
        assert(points[k] == point);
    }
    lemma_newest_first_is_ordered_rearrangement(points);
    vstd::seq_lib::to_multiset_contains(points, point);
    vstd::seq_lib::to_multiset_contains(newest_first(points), point);
}

/// Where every closing price is a numeral, every entry gives a point, in the
/// order of the record.
proof fn lemma_all_entries_priced(raw: Seq<(Seq<char>, Seq<char>)>)
    requires
        forall|i: int| 0 <= i < raw.len() ==> parsed(#[trigger] raw[i].1) is Some,
    ensures
        priced_entries(raw).len() == raw.len(),
        forall|i: int|
            0 <= i < raw.len() ==> #[trigger] priced_entries(raw)[i] == (
                raw[i].0,
                parsed(raw[i].1)->0,
            ),
    decreases raw.len(),
{
    if raw.len() > 0 {
        let earlier = raw.drop_last();
        assert forall|i: int| 0 <= i < earlier.len() implies parsed(
            #[trigger] earlier[i].1,
        ) is Some by {
            assert(earlier[i] == raw[i]);
        }
        lemma_all_entries_priced(earlier);
        assert(parsed(raw[raw.len() - 1].1) is Some);
        assert forall|i: int| 0 <= i < raw.len() implies #[trigger] priced_entries(raw)[i] == (
            raw[i].0,
            parsed(raw[i].1)->0,
        ) by {
            if i < earlier.len() {
                assert(earlier[i] == raw[i]);
                assert(priced_entries(raw)[i] == priced_entries(earlier)[i]);
            }
        }
    }
}

/// Whether each date occurs once and a later date always has a higher close.
pub open spec fn rises_with_date(points: Seq<PricePoint>) -> bool {
    &&& forall|i: int, j: int|
        0 <= i < points.len() && 0 <= j < points.len() && i != j ==> (#[trigger] points[i]).0 != (
        #[trigger] points[j]).0
    &&& forall|i: int, j: int|
        0 <= i < points.len() && 0 <= j < points.len() && text_before(
            (#[trigger] points[i]).0,
            (#[trigger] points[j]).0,
        ) ==> points[i].1.units < points[j].1.units
}

/// Where each date occurs once and the close rises with the date, the closes
/// of the series ordered newest first fall from each point to the next.
pub proof fn lemma_rising_prices_fall_along_series(points: Seq<PricePoint>)
    requires
        rises_with_date(points),
    ensures
        newest_first(points).len() == points.len(),
        forall|i: int, j: int|
            0 <= i < j < points.len() ==> (#[trigger] newest_first(points)[i]).1.units > (
            #[trigger] newest_first(points)[j]).1.units,
        forall|i: int| 0 <= i < points.len() ==> points.contains(#[trigger] newest_first(points)[i]),
{
    let series = newest_first(points);
    lemma_newest_first_is_ordered_rearrangement(points);
    assert(points.no_duplicates());
    points.lemma_multiset_has_no_duplicates();
    series.lemma_multiset_has_no_duplicates_conv();
    assert forall|i: int| 0 <= i < series.len() implies points.contains(#[trigger] series[i]) by {
        assert(series.contains(series[i]));
        vstd::seq_lib::to_multiset_contains(series, series[i]);
        vstd::seq_lib::to_multiset_contains(points, series[i]);
    }
    assert forall|i: int, j: int| 0 <= i < j < series.len() implies (#[trigger] series[i]).1.units
        > (#[trigger] series[j]).1.units by {
        assert(points.contains(series[i]));
        assert(points.contains(series[j]));
        let a = choose|a: int| 0 <= a < points.len() && points[a] == series[i];
        let b = choose|b: int| 0 <= b < points.len() && points[b] == series[j];
        assert(series[i] != series[j]);
        assert(a != b);
        assert(points[a].0 != points[b].0);
        lemma_text_before_total(series[i].0, series[j].0);
        assert(!text_before(series[i].0, series[j].0));
        assert(text_before(points[b].0, points[a].0));
    }
}

/// Over a record that reaches back a year, with one entry per date, every close
/// a positive numeral, and the close rising with the date, all three trailing
/// changes exist and are positive, and a longer window gives a larger change.
pub proof fn lemma_rising_prices_give_growing_changes(raw: Seq<(Seq<char>, Seq<char>)>)
    requires
        raw.len() > LOOKBACK_1Y,
        forall|i: int|
            0 <= i < raw.len() ==> parsed(#[trigger] raw[i].1) is Some && parsed(raw[i].1)->0.units
                > 0,
        forall|i: int, j: int|
            0 <= i < raw.len() && 0 <= j < raw.len() && i != j ==> (#[trigger] raw[i]).0 != (
            #[trigger] raw[j]).0,
        forall|i: int, j: int|
            0 <= i < raw.len() && 0 <= j < raw.len() && text_before(
                (#[trigger] raw[i]).0,
                (#[trigger] raw[j]).0,
            ) ==> parsed(raw[i].1)->0.units < parsed(raw[j].1)->0.units,
    ensures
        ({
            let prices = newest_first(priced_entries(raw));
            &&& trailing_change(prices, LOOKBACK_1M as nat) matches Ok(month)
            &&& trailing_change(prices, LOOKBACK_3M as nat) matches Ok(quarter)
            &&& trailing_change(prices, LOOKBACK_1Y as nat) matches Ok(year)
            &&& month.is_positive()
            &&& month.less_than(quarter)
            &&& quarter.less_than(year)
        }),
{
    let points = priced_entries(raw);
    lemma_all_entries_priced(raw);
    assert(rises_with_date(points)) by {
        assert forall|i: int, j: int|
            0 <= i < points.len() && 0 <= j < points.len() && i != j implies (
        #[trigger] points[i]).0 != (#[trigger] points[j]).0 by {
            assert(points[i].0 == raw[i].0);
            assert(points[j].0 == raw[j].0);
        }
        assert forall|i: int, j: int|
            0 <= i < points.len() && 0 <= j < points.len() && text_before(
                (#[trigger] points[i]).0,
                (#[trigger] points[j]).0,
            ) implies points[i].1.units < points[j].1.units by {
            assert(points[i].0 == raw[i].0);
            assert(points[j].0 == raw[j].0);
        }
    }
    lemma_rising_prices_fall_along_series(points);
    let prices = newest_first(points);
    let now = prices[0].1.units as int;
    let month = prices[20].1.units as int;
    let quarter = prices[60].1.units as int;
    let year = prices[252].1.units as int;
    assert(now > month > quarter > year);
    assert(year > 0) by {
        assert(points.contains(prices[252]));
        let a = choose|a: int| 0 <= a < points.len() && points[a] == prices[252];
        assert(points[a].1 == parsed(raw[a].1)->0);
    }
    assert((100 * (now - month)) * quarter < (100 * (now - quarter)) * month) by (nonlinear_arith)
        requires
            now > month > quarter > 0,
    ;
    assert((100 * (now - quarter)) * year < (100 * (now - year)) * quarter) by (nonlinear_arith)
        requires
            now > quarter > year > 0,
    ;
}

/// A failed news call is no failure: the outcome is the one that an empty
/// feed gives, and a snapshot that comes of it has no headlines.
pub proof fn lemma_failed_news_is_an_empty_feed(
    ticker: Seq<char>,
    quote: Result<GlobalQuote, MarketDataError>,
    overview: Result<OverviewResponse, MarketDataError>,
    time_series: Result<TimeSeriesResponse, MarketDataError>,
    sp500_series: Result<TimeSeriesResponse, MarketDataError>,
    failure: MarketDataError,
    nothing: Vec<String>,
)
    requires
        nothing@.len() == 0,
    ensures
        assembled(ticker, quote, overview, time_series, sp500_series, Err(failure)) == assembled(
            ticker,
            quote,
            overview,
            time_series,
            sp500_series,
            Ok(nothing),
        ),
        assembled(ticker, quote, overview, time_series, sp500_series, Err(failure)) matches Ok(
            data,
        ) ==> data.recent_news.len() == 0,
{
    assert(nothing.deep_view() =~= Seq::<Seq<char>>::empty());
}

/// A failed overview call fails the whole: there is no snapshot, and the
/// failure reported is the overview's unless the quote failed first.
pub proof fn lemma_failed_overview_aborts(
    ticker: Seq<char>,
    quote: Result<GlobalQuote, MarketDataError>,
    failure: MarketDataError,
    time_series: Result<TimeSeriesResponse, MarketDataError>,
    sp500_series: Result<TimeSeriesResponse, MarketDataError>,
    news: Result<Vec<String>, MarketDataError>,
)
    ensures
        assembled(ticker, quote, Err(failure), time_series, sp500_series, news) is Err,
        quote is Ok ==> assembled(ticker, quote, Err(failure), time_series, sp500_series, news)
            == Err::<crate::finance::snapshot::MarketDataView, MarketDataError>(failure),
{
}

/// A snapshot is all or nothing: where there is one, all four required
/// answers arrived, the price was read, and each of its five changes is the
/// trailing change of its window, none left out or made up.
pub proof fn lemma_snapshot_is_complete(
    ticker: Seq<char>,
    quote: Result<GlobalQuote, MarketDataError>,
    overview: Result<OverviewResponse, MarketDataError>,
    time_series: Result<TimeSeriesResponse, MarketDataError>,
    sp500_series: Result<TimeSeriesResponse, MarketDataError>,
    news: Result<Vec<String>, MarketDataError>,
)
    requires
        assembled(ticker, quote, overview, time_series, sp500_series, news) is Ok,
    ensures
        quote is Ok && overview is Ok && time_series is Ok && sp500_series is Ok,
        ({
            let data = assembled(ticker, quote, overview, time_series, sp500_series, news)->Ok_0;
            let prices = newest_first(priced_entries(time_series->Ok_0.deep_view()));
            let sp500_prices = newest_first(priced_entries(sp500_series->Ok_0.deep_view()));
            &&& parsed(quote->Ok_0.price@) == Some(data.current_price)
            &&& prices.len() > LOOKBACK_1Y
            &&& sp500_prices.len() > LOOKBACK_3M
            &&& trailing_change(prices, LOOKBACK_1M as nat) == Ok::<_, MarketDataError>(
                data.change_1m,
            )
            &&& trailing_change(prices, LOOKBACK_3M as nat) == Ok::<_, MarketDataError>(
                data.change_3m,
            )
            &&& trailing_change(prices, LOOKBACK_1Y as nat) == Ok::<_, MarketDataError>(
                data.change_1y,
            )
            &&& trailing_change(sp500_prices, LOOKBACK_1M as nat) == Ok::<_, MarketDataError>(
                data.sp500_1m,
            )
            &&& trailing_change(sp500_prices, LOOKBACK_3M as nat) == Ok::<_, MarketDataError>(
                data.sp500_3m,
            )
        }),
{
}

} // verus!
