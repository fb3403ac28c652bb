//! The snapshot: what the five upstream answers are merged into, and the
//! policy by which a missing or failed piece is tolerated or aborts the whole.

use crate::finance::decimal::{parse_decimal, parsed, Decimal};
use crate::finance::market_cap::{format_market_cap, market_cap_text};
use crate::finance::percent::Percent;
use crate::finance::series::{
    calculate_change, extract_prices, newest_first, priced_entries, trailing_change,
    TimeSeriesResponse,
};
use crate::finance::MarketDataError;
use vstd::prelude::*;
use vstd::string::StringExecFns;

verus! {

/// Trading days in about one month.
pub const LOOKBACK_1M: usize = 20;

/// Trading days in about three months.
pub const LOOKBACK_3M: usize = 60;

/// Trading days in about one year.
pub const LOOKBACK_1Y: usize = 252;

/// How many headlines a snapshot keeps at most.
pub const MAX_HEADLINES: usize = 5;

/// The current quote of a ticker, as the provider spelled it.
#[derive(Debug)]
pub struct GlobalQuote {
    pub price: String,
    pub change_percent: String,
}

/// The company overview; either field may be absent, as for a fund.
#[derive(Debug)]
pub struct OverviewResponse {
    pub sector: Option<String>,
    pub market_cap: Option<String>,
}

/// One item of the news feed.
#[derive(Debug)]
pub struct NewsItem {
    pub title: String,
}

/// The news feed, most recent item first.
#[derive(Debug)]
pub struct NewsResponse {
    pub feed: Vec<NewsItem>,
}

impl DeepView for NewsItem {
    type V = Seq<char>;

    open spec fn deep_view(&self) -> Seq<char> {
        self.title@
    }
}

/// The normalized record for one ticker at one point in time.
#[derive(Debug, Clone)]
pub struct MarketData {
    pub ticker: String,
    pub current_price: Decimal,
    pub change_1m: Percent,
    pub change_3m: Percent,
    pub change_1y: Percent,
    pub sector: String,
    pub market_cap: String,
    pub sp500_1m: Percent,
    pub sp500_3m: Percent,
    pub recent_news: Vec<String>,
}

/// What a `MarketData` holds, as plain values.
pub struct MarketDataView {
    pub ticker: Seq<char>,
    pub current_price: Decimal,
    pub change_1m: Percent,
    pub change_3m: Percent,
    pub change_1y: Percent,
    pub sector: Seq<char>,
    pub market_cap: Seq<char>,
    pub sp500_1m: Percent,
    pub sp500_3m: Percent,
    pub recent_news: Seq<Seq<char>>,
}

impl DeepView for MarketData {
    type V = MarketDataView;

    open spec fn deep_view(&self) -> MarketDataView {
        MarketDataView {
            ticker: self.ticker@,
            current_price: self.current_price,
            change_1m: self.change_1m,
            change_3m: self.change_3m,
            change_1y: self.change_1y,
            sector: self.sector@,
            market_cap: self.market_cap@,
            sp500_1m: self.sp500_1m,
            sp500_3m: self.sp500_3m,
            recent_news: self.recent_news.deep_view(),
        }
    }
}

impl MarketData {
    /// Every percentage of a snapshot is a fraction with a denominator.
    pub open spec fn wf(&self) -> bool {
        &&& self.change_1m.wf()
        &&& self.change_3m.wf()
        &&& self.change_1y.wf()
        &&& self.sp500_1m.wf()
        &&& self.sp500_3m.wf()
    }
}

/// The text of an optional field, or `fallback` where the field is absent.
pub open spec fn text_or(field: Option<String>, fallback: Seq<char>) -> Seq<char> {
    match field {
        Some(text) => text@,
        None => fallback,
    }
}

/// The first five headlines, in the order of the feed.
pub open spec fn first_headlines(titles: Seq<Seq<char>>) -> Seq<Seq<char>> {
    if titles.len() <= MAX_HEADLINES {
        titles
    } else {
        titles.take(MAX_HEADLINES as int)
    }
}

/// The headlines that the news answer contributes: none where the call failed.
pub open spec fn tolerated_news(news: Result<Vec<String>, MarketDataError>) -> Seq<Seq<char>> {
    match news {
        Ok(titles) => titles.deep_view(),
        Err(_) => Seq::<Seq<char>>::empty(),
    }
}

/// The snapshot that four good answers and the headlines give, or the first
/// thing that stands in its way: a price that is no numeral, then a trailing
/// change that cannot be computed, the ticker's three before the benchmark's
/// two.
pub open spec fn snapshot(
    ticker: Seq<char>,
    quote: GlobalQuote,
    overview: OverviewResponse,
    time_series: Seq<(Seq<char>, Seq<char>)>,
    sp500_series: Seq<(Seq<char>, Seq<char>)>,
    titles: Seq<Seq<char>>,
) -> Result<MarketDataView, MarketDataError> {
    let prices = newest_first(priced_entries(time_series));
    let sp500_prices = newest_first(priced_entries(sp500_series));
    match parsed(quote.price@) {
        None => Err(MarketDataError::Parse),
        Some(current_price) => match trailing_change(prices, LOOKBACK_1M as nat) {
            Err(e) => Err(e),
            Ok(change_1m) => match trailing_change(prices, LOOKBACK_3M as nat) {
                Err(e) => Err(e),
                Ok(change_3m) => match trailing_change(prices, LOOKBACK_1Y as nat) {
                    Err(e) => Err(e),
                    Ok(change_1y) => match trailing_change(sp500_prices, LOOKBACK_1M as nat) {
                        Err(e) => Err(e),
                        Ok(sp500_1m) => match trailing_change(sp500_prices, LOOKBACK_3M as nat) {
                            Err(e) => Err(e),
                            Ok(sp500_3m) => Ok(
                                MarketDataView {
                                    ticker,
                                    current_price,
                                    change_1m,
                                    change_3m,
                                    change_1y,
                                    sector: text_or(overview.sector, "Unknown"@),
                                    market_cap: market_cap_text(
                                        text_or(overview.market_cap, Seq::<char>::empty()),
                                    ),
                                    sp500_1m,
                                    sp500_3m,
                                    recent_news: first_headlines(titles),
                                },
                            ),
                        },
                    },
                },
            },
        },
    }
}

/// What the five answers are merged into.
///
/// A failed quote, overview or time series aborts with that failure, the first
/// of them in this order; a failed news call counts as an empty feed.
pub open spec fn assembled(
    ticker: Seq<char>,
    quote: Result<GlobalQuote, MarketDataError>,
    overview: Result<OverviewResponse, MarketDataError>,
    time_series: Result<TimeSeriesResponse, MarketDataError>,
    sp500_series: Result<TimeSeriesResponse, MarketDataError>,
    news: Result<Vec<String>, MarketDataError>,
) -> Result<MarketDataView, MarketDataError> {
    match quote {
        Err(e) => Err(e),
        Ok(quote) => match overview {
            Err(e) => Err(e),
            Ok(overview) => match time_series {
                Err(e) => Err(e),
                Ok(time_series) => match sp500_series {
                    Err(e) => Err(e),
                    Ok(sp500_series) => snapshot(
                        ticker,
                        quote,
                        overview,
                        time_series.deep_view(),
                        sp500_series.deep_view(),
                        tolerated_news(news),
                    ),
                },
            },
        },
    }
}

/// An outcome of the assembly, as plain values.
pub open spec fn outcome_view(r: Result<MarketData, MarketDataError>) -> Result<
    MarketDataView,
    MarketDataError,
> {
    match r {
        Ok(data) => Ok(data.deep_view()),
        Err(e) => Err(e),
    }
}

/// The titles of a news feed, in its order.
pub fn headlines(news: NewsResponse) -> (titles: Vec<String>)
    ensures
        titles.deep_view() == news.feed.deep_view(),
{
    let ghost all = news.feed.deep_view();
    let mut titles: Vec<String> = Vec::new();
    for item in it: news.feed
        invariant
            it.seq() == news.feed@,
            all == news.feed.deep_view(),
            titles.len() == it.index(),
            forall|j: int| 0 <= j < titles.len() ==> (#[trigger] titles[j])@ == all[j],
    {
        titles.push(item.title);
    }
    assert(titles.deep_view() =~= all);
    titles
}

/// Merges the five upstream answers into one snapshot.
///
/// Succeeds only with everything that is required: the quote, the overview and
/// both time series must have arrived, the price must be a numeral, and all
/// five trailing changes must be computable. The result is then complete; no
/// partial snapshot is ever returned. A failed news call is no failure: the
/// snapshot then has no headlines.
pub fn assemble_market_data(
    ticker: &str,
    quote: Result<GlobalQuote, MarketDataError>,
    overview: Result<OverviewResponse, MarketDataError>,
    time_series: Result<TimeSeriesResponse, MarketDataError>,
    sp500_series: Result<TimeSeriesResponse, MarketDataError>,
    news: Result<Vec<String>, MarketDataError>,
) -> (r: Result<MarketData, MarketDataError>)
    ensures
        outcome_view(r) == assembled(ticker@, quote, overview, time_series, sp500_series, news),
        r matches Ok(data) ==> data.wf() && data.recent_news.len() <= MAX_HEADLINES,
        news is Err ==> (r matches Ok(data) ==> data.recent_news.len() == 0),
        overview is Err ==> r is Err,
{
    let quote = match quote {
        Ok(quote) => quote,
        Err(e) => {
            return Err(e);
        },
    };
    let overview = match overview {
        Ok(overview) => overview,
        Err(e) => {
            return Err(e);
        },
    };
    let time_series = match time_series {
        Ok(time_series) => time_series,
        Err(e) => {
            return Err(e);
        },
    };
    let sp500_series = match sp500_series {
        Ok(sp500_series) => sp500_series,
        Err(e) => {
            return Err(e);
        },
    };
    let recent_news = match news {
        Ok(titles) => titles,
        Err(_) => Vec::new(),
    };
    assert(recent_news.deep_view() =~= tolerated_news(news));
    merge(ticker, quote, overview, &time_series, &sp500_series, recent_news)
}

/// The sector and the market capitalisation of a snapshot: what the overview
/// gives, `Unknown` for an absent sector, and the capitalisation on a human
/// scale, an absent one counting as empty text.
fn overview_texts(overview: OverviewResponse) -> (r: (String, String))
    ensures
        r.0@ == text_or(overview.sector, "Unknown"@),
        r.1@ == market_cap_text(text_or(overview.market_cap, Seq::<char>::empty())),
{
    let sector = match overview.sector {
        Some(sector) => sector,
        None => String::from_str("Unknown"),
    };
    let market_cap = match overview.market_cap {
        Some(cap) => format_market_cap(cap.as_str()),
        None => {
            let empty = String::new();
            format_market_cap(empty.as_str())
        },
    };
    (sector, market_cap)
}

/// The five trailing changes of a snapshot, in the order in which they are
/// computed: the ticker's over one month, three months and one year, then the
/// benchmark's over one month and three months.
struct Changes {
    change_1m: Percent,
    change_3m: Percent,
    change_1y: Percent,
    sp500_1m: Percent,
    sp500_3m: Percent,
}

/// The five trailing changes, or the first that cannot be computed.
fn trailing_changes(prices: &[(String, Decimal)], sp500_prices: &[(String, Decimal)]) -> (r:
    Result<Changes, MarketDataError>)
    ensures
        ({
            let own = prices.deep_view();
            let benchmark = sp500_prices.deep_view();
            match r {
                Ok(c) => {
                    &&& trailing_change(own, LOOKBACK_1M as nat) == Ok::<_, MarketDataError>(
                        c.change_1m,
                    )
                    &&& trailing_change(own, LOOKBACK_3M as nat) == Ok::<_, MarketDataError>(
                        c.change_3m,
                    )
                    &&& trailing_change(own, LOOKBACK_1Y as nat) == Ok::<_, MarketDataError>(
                        c.change_1y,
                    )
                    &&& trailing_change(benchmark, LOOKBACK_1M as nat) == Ok::<_, MarketDataError>(
                        c.sp500_1m,
                    )
                    &&& trailing_change(benchmark, LOOKBACK_3M as nat) == Ok::<_, MarketDataError>(
                        c.sp500_3m,
                    )
                    &&& c.change_1m.wf() && c.change_3m.wf() && c.change_1y.wf()
                    &&& c.sp500_1m.wf() && c.sp500_3m.wf()
                },
                Err(e) => {
                    let first = trailing_change(own, LOOKBACK_1M as nat);
                    let second = trailing_change(own, LOOKBACK_3M as nat);
                    let third = trailing_change(own, LOOKBACK_1Y as nat);
                    let fourth = trailing_change(benchmark, LOOKBACK_1M as nat);
                    let fifth = trailing_change(benchmark, LOOKBACK_3M as nat);
                    if first is Err {
                        first == Err::<Percent, _>(e)
                    } else if second is Err {
                        second == Err::<Percent, _>(e)
                    } else if third is Err {
                        third == Err::<Percent, _>(e)
                    } else if fourth is Err {
                        fourth == Err::<Percent, _>(e)
                    } else {
                        fifth == Err::<Percent, _>(e)
                    }
                },
            }
        }),
{
    let change_1m = match calculate_change(prices, LOOKBACK_1M) {
        Ok(change) => change,
        Err(e) => {
            return Err(e);
        },
    };
    let change_3m = match calculate_change(prices, LOOKBACK_3M) {
        Ok(change) => change,
        Err(e) => {
            return Err(e);
        },
    };
    let change_1y = match calculate_change(prices, LOOKBACK_1Y) {
        Ok(change) => change,
        Err(e) => {
            return Err(e);
        },
    };
    let sp500_1m = match calculate_change(sp500_prices, LOOKBACK_1M) {
        Ok(change) => change,
        Err(e) => {
            return Err(e);
        },
    };
    let sp500_3m = match calculate_change(sp500_prices, LOOKBACK_3M) {
        Ok(change) => change,
        Err(e) => {
            return Err(e);
        },
    };
    Ok(Changes { change_1m, change_3m, change_1y, sp500_1m, sp500_3m })
}

/// Merges four good answers and the headlines into a snapshot: reads the
/// price, orders the two series, computes the five changes, fills in what the
/// overview lacks and keeps the first five headlines.
fn merge(
    ticker: &str,
    quote: GlobalQuote,
    overview: OverviewResponse,
    time_series: &TimeSeriesResponse,
    sp500_series: &TimeSeriesResponse,
    titles: Vec<String>,
) -> (r: Result<MarketData, MarketDataError>)
    ensures
        outcome_view(r) == snapshot(
            ticker@,
            quote,
            overview,
            time_series.deep_view(),
            sp500_series.deep_view(),
            titles.deep_view(),
        ),
        r matches Ok(data) ==> data.wf() && data.recent_news.len() <= MAX_HEADLINES
            && data.recent_news.len() <= titles.len(),
{
    let prices = extract_prices(time_series);
    let sp500_prices = extract_prices(sp500_series);
    let history = prices.as_slice();
    let sp500_history = sp500_prices.as_slice();
    assert(history.deep_view() =~= prices.deep_view());
    assert(sp500_history.deep_view() =~= sp500_prices.deep_view());

    let current_price = match parse_decimal(quote.price.as_str()) {
        Ok(price) => price,
        Err(e) => {
            return Err(e);
        },
    };
    let changes = match trailing_changes(history, sp500_history) {
        Ok(changes) => changes,
        Err(e) => {
            return Err(e);
        },
    };
    let (sector, market_cap) = overview_texts(overview);
    let ghost all = titles.deep_view();
    let mut recent_news = titles;
    recent_news.truncate(MAX_HEADLINES);
    assert(recent_news.deep_view() =~= first_headlines(all));
    Ok(
        MarketData {
            ticker: String::from_str(ticker),
            current_price,
            change_1m: changes.change_1m,
            change_3m: changes.change_3m,
            change_1y: changes.change_1y,
            sector,
            market_cap,
            sp500_1m: changes.sp500_1m,
            sp500_3m: changes.sp500_3m,
            recent_news,
        },
    )
}

} // verus!
