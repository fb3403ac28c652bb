//! The five requests that one snapshot takes, as addresses at the provider.

use vstd::prelude::*;
use vstd::string::StringExecFns;

verus! {

/// The provider's query endpoint.
pub const ALPHA_VANTAGE_BASE: &'static str = "https://www.alphavantage.co/query";

/// The symbol of the fund that stands for the benchmark index.
pub const SP500_TICKER: &'static str = "SPY";

/// The address of the current quote of `ticker`.
pub open spec fn quote_address(ticker: Seq<char>, api_key: Seq<char>) -> Seq<char> {
    ALPHA_VANTAGE_BASE@ + "?function=GLOBAL_QUOTE&symbol="@ + ticker + "&apikey="@ + api_key
}

/// The address of the company overview of `ticker`.
pub open spec fn overview_address(ticker: Seq<char>, api_key: Seq<char>) -> Seq<char> {
    ALPHA_VANTAGE_BASE@ + "?function=OVERVIEW&symbol="@ + ticker + "&apikey="@ + api_key
}

/// The address of the full daily time series of `ticker`.
pub open spec fn time_series_address(ticker: Seq<char>, api_key: Seq<char>) -> Seq<char> {
    ALPHA_VANTAGE_BASE@ + "?function=TIME_SERIES_DAILY&symbol="@ + ticker
        + "&outputsize=full&apikey="@ + api_key
}

/// The address of the news feed of `ticker`.
pub open spec fn news_address(ticker: Seq<char>, api_key: Seq<char>) -> Seq<char> {
    ALPHA_VANTAGE_BASE@ + "?function=NEWS_SENTIMENT&tickers="@ + ticker + "&apikey="@ + api_key
}

/// The addresses of the five requests of one snapshot. They do not depend on
/// one another and may be sent all at once.
#[derive(Debug)]
pub struct UpstreamRequests {
    pub quote: String,
    pub overview: String,
    pub time_series: String,
    pub sp500_series: String,
    pub news: String,
}

/// The endpoint followed by a query in three parts around the ticker and the key.
fn address(function: &str, ticker: &str, key_label: &str, api_key: &str) -> (r: String)
    ensures
        r@ == ALPHA_VANTAGE_BASE@ + function@ + ticker@ + key_label@ + api_key@,
{
    let mut out = String::from_str(ALPHA_VANTAGE_BASE);
    out.append(function);
    out.append(ticker);
    out.append(key_label);
    out.append(api_key);
    out
}

/// The address of the current quote of `ticker`.
pub fn quote_url(ticker: &str, api_key: &str) -> (r: String)
    ensures
        r@ == quote_address(ticker@, api_key@),
{
    address("?function=GLOBAL_QUOTE&symbol=", ticker, "&apikey=", api_key)
}

/// The address of the company overview of `ticker`.
pub fn overview_url(ticker: &str, api_key: &str) -> (r: String)
    ensures
        r@ == overview_address(ticker@, api_key@),
{
    address("?function=OVERVIEW&symbol=", ticker, "&apikey=", api_key)
}

/// The address of the full daily time series of `ticker`.
pub fn time_series_url(ticker: &str, api_key: &str) -> (r: String)
    ensures
        r@ == time_series_address(ticker@, api_key@),
{
    address("?function=TIME_SERIES_DAILY&symbol=", ticker, "&outputsize=full&apikey=", api_key)
}

/// The address of the news feed of `ticker`.
pub fn news_url(ticker: &str, api_key: &str) -> (r: String)
    ensures
        r@ == news_address(ticker@, api_key@),
{
    address("?function=NEWS_SENTIMENT&tickers=", ticker, "&apikey=", api_key)
}

/// The five requests of one snapshot: quote, overview and time series of the
/// ticker, the time series of the benchmark, and the ticker's news.
pub fn upstream_requests(ticker: &str, api_key: &str) -> (r: UpstreamRequests)
    ensures
        r.quote@ == quote_address(ticker@, api_key@),
        r.overview@ == overview_address(ticker@, api_key@),
        r.time_series@ == time_series_address(ticker@, api_key@),
        r.sp500_series@ == time_series_address(SP500_TICKER@, api_key@),
        r.news@ == news_address(ticker@, api_key@),
{
    UpstreamRequests {
        quote: quote_url(ticker, api_key),
        overview: overview_url(ticker, api_key),
        time_series: time_series_url(ticker, api_key),
        sp500_series: time_series_url(SP500_TICKER, api_key),
        news: news_url(ticker, api_key),
    }
}

} // verus!
