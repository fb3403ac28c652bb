//! The stock-analysis route: which inquiries are accepted, and how a failed
//! aggregation is answered.

use crate::finance::snapshot::MarketData;
use crate::finance::MarketDataError;
use crate::text::{chars_of, digit_of, is_digit, lemma_point_index, point_index};
use crate::web::util::{api_error, ApiError, ApiErrorView};
use vstd::prelude::*;
use vstd::string::StringExecFns;

verus! {

/// The status that an inquiry with an invalid ticker is answered with.
pub const BAD_REQUEST: u16 = 400;

/// The status that a failed aggregation is answered with.
pub const NOT_FOUND: u16 = 404;

/// An inquiry about one ticker.
#[derive(Debug)]
pub struct StockInquiryRequest {
    pub ticker: String,
}

/// Whether `c` is an upper-case letter of the basic alphabet.
pub open spec fn is_upper(c: char) -> bool {
    'A' <= c && c <= 'Z'
}

/// Whether `s` is a ticker symbol: one to seven upper-case letters or digits,
/// optionally followed by a point and a suffix of one to three upper-case
/// letters.
pub open spec fn is_ticker(s: Seq<char>) -> bool {
    let point = point_index(s);
    let symbol = s.take(point);
    let suffix = s.skip(point + 1);
    &&& 1 <= symbol.len() <= 7
    &&& forall|i: int| 0 <= i < symbol.len() ==> is_upper(#[trigger] symbol[i]) || is_digit(symbol[i])
    &&& point == s.len() || {
        &&& 1 <= suffix.len() <= 3
        &&& forall|i: int| 0 <= i < suffix.len() ==> is_upper(#[trigger] suffix[i])
    }
}

/// Whether `c` is an upper-case letter of the basic alphabet.
fn upper(c: char) -> (r: bool)
    ensures
        r == is_upper(c),
{
    'A' <= c && c <= 'Z'
}

/// Whether `text` is a ticker symbol.
pub fn is_valid_ticker(text: &str) -> (r: bool)
    ensures
        r == is_ticker(text@),
{
    let cs = chars_of(text);
    let n = cs.len();
    let ghost s = text@;
    let mut point: usize = 0;
    while point < n && cs[point] != '.'
        invariant
            point <= n,
            n == cs.len(),
            cs@ == s,
            forall|j: int| 0 <= j < point ==> s[j] != '.',
        decreases n - point,
    {
        point += 1;
    }
    proof {
        lemma_point_index(s, point as int);
    }
    if point < 1 || point > 7 {
        return false;
    }
    let ghost symbol = s.take(point as int);
    let mut i: usize = 0;
    while i < point
        invariant
            i <= point <= n,
            n == cs.len(),
            cs@ == s,
            s == text@,
            point == point_index(s),
            symbol == s.take(point as int),
            forall|j: int| 0 <= j < i ==> is_upper(#[trigger] symbol[j]) || is_digit(symbol[j]),
        decreases point - i,
    {
        let c = cs[i];
        assert(symbol[i as int] == c);
        if !(upper(c) || digit_of(c).is_some()) {
            return false;
        }
        i += 1;
    }
    if point == n {
        return true;
    }
    let suffix_len = n - point - 1;
    if suffix_len < 1 || suffix_len > 3 {
        return false;
    }
    let ghost suffix = s.skip(point + 1);
    let mut k: usize = 0;
    while k < suffix_len
        invariant
            k <= suffix_len,
            suffix_len == n - point - 1,
            point < n,
            n == cs.len(),
            cs@ == s,
            s == text@,
            point == point_index(s),
            suffix == s.skip(point + 1),
            forall|j: int| 0 <= j < k ==> is_upper(#[trigger] suffix[j]),
        decreases suffix_len - k,
    {
        let c = cs[point + 1 + k];
        assert(suffix[k as int] == c);
        if !upper(c) {
            return false;
        }
        k += 1;
    }
    true
}

impl StockInquiryRequest {
    /// Accepts the inquiry if its ticker is a ticker symbol, and otherwise
    /// gives the error body to answer it with.
    pub fn validate(&self) -> (r: Result<(), ApiError>)
        ensures
            r is Ok <==> is_ticker(self.ticker@),
            r matches Err(e) ==> e@ == (ApiErrorView {
                status: BAD_REQUEST,
                message: "ticker: not a ticker symbol"@,
            }),
    {
        if is_valid_ticker(self.ticker.as_str()) {
            Ok(())
        } else {
            Err(api_error(BAD_REQUEST, "ticker: not a ticker symbol"))
        }
    }
}

/// What an aggregation failure reads as in a message.
pub open spec fn failure_text(e: MarketDataError) -> Seq<char> {
    match e {
        MarketDataError::UpstreamTransport => "upstream request failed"@,
        MarketDataError::UpstreamShape => "upstream response has an unexpected shape"@,
        MarketDataError::Parse => "invalid decimal literal"@,
        MarketDataError::InsufficientHistory => "Not enough historical data"@,
        MarketDataError::DivisionByZero => "Historical price is zero"@,
    }
}

/// What an aggregation failure reads as in a message.
pub fn describe_failure(e: MarketDataError) -> (r: &'static str)
    ensures
        r@ == failure_text(e),
{
    match e {
        MarketDataError::UpstreamTransport => "upstream request failed",
        MarketDataError::UpstreamShape => "upstream response has an unexpected shape",
        MarketDataError::Parse => "invalid decimal literal",
        MarketDataError::InsufficientHistory => "Not enough historical data",
        MarketDataError::DivisionByZero => "Historical price is zero",
    }
}

/// The answer to an inquiry whose aggregation failed: status 404 and what went
/// wrong.
pub fn fetch_failure(e: MarketDataError) -> (r: ApiError)
    ensures
        r@ == (ApiErrorView {
            status: NOT_FOUND,
            message: "Failed to fetch market data: "@ + failure_text(e),
        }),
{
    let mut message = String::from_str("Failed to fetch market data: ");
    message.append(describe_failure(e));
    ApiError { status: NOT_FOUND, message }
}

/// What follows the aggregation: the analysis of the snapshot, or the answer
/// that ends the inquiry.
#[derive(Debug)]
pub enum InquiryStep {
    Analyze(MarketData),
    Refuse(ApiError),
}

/// Decides what follows the aggregation: a snapshot is analysed, a failure is
/// answered with status 404 and what went wrong.
pub fn after_fetch(outcome: Result<MarketData, MarketDataError>) -> (step: InquiryStep)
    ensures
        match outcome {
            Ok(data) => step == InquiryStep::Analyze(data),
            Err(e) => step matches InquiryStep::Refuse(error) && error@ == (ApiErrorView {
                status: NOT_FOUND,
                message: "Failed to fetch market data: "@ + failure_text(e),
            }),
        },
{
    match outcome {
        Ok(data) => InquiryStep::Analyze(data),
        Err(e) => InquiryStep::Refuse(fetch_failure(e)),
    }
}

} // verus!
