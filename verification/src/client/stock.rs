//! The stock report: the data laid out for the analyst, the request for an
//! analysis, and the analysis that comes back.

use crate::finance::percent::{decimal_text, percent_text, push_decimal, push_percent};
use crate::finance::snapshot::{MarketData, MarketDataView};
use crate::text::{decimal_digits, push_number};
use vstd::prelude::*;
use vstd::string::StringExecFns;

verus! {

/// The analysis of one stock.
#[derive(Debug)]
pub struct StockAnalysis {
    pub executive_summary: String,
    pub performance_analysis: PerformanceAnalysis,
    pub comparative_analysis: String,
    pub risk_factors: Vec<String>,
    pub opportunities: Vec<String>,
    pub key_takeaway: String,
}

/// How the stock performed, and why.
#[derive(Debug)]
pub struct PerformanceAnalysis {
    pub recent_performance: String,
    pub key_drivers: Vec<String>,
    pub recent_pullback_reasons: Option<Vec<String>>,
}

/// One headline as a numbered line: its number, a point, a blank, the title.
pub open spec fn headline_line(number: nat, title: Seq<char>) -> Seq<char> {
    decimal_digits(number) + ". "@ + title
}

/// The headlines as numbered lines, counted from one, with a line break
/// between two lines and none at the end.
pub open spec fn numbered_headlines(titles: Seq<Seq<char>>) -> Seq<char>
    decreases titles.len(),
{
    if titles.len() == 0 {
        Seq::<char>::empty()
    } else if titles.len() == 1 {
        headline_line(1, titles[0])
    } else {
        numbered_headlines(titles.drop_last()) + "\n"@ + headline_line(titles.len(), titles.last())
    }
}

/// The snapshot laid out as the text that the analyst reads.
pub open spec fn context_text(data: MarketDataView) -> Seq<char> {
    "Stock: "@ + data.ticker + "\nCurrent Price: $"@ + decimal_text(data.current_price)
        + "\n1-month change: "@ + percent_text(data.change_1m) + "%\n3-month change: "@
        + percent_text(data.change_3m) + "%\n1-year change: "@ + percent_text(data.change_1y)
        + "%\nSector: "@ + data.sector + "\nMarket Cap: "@ + data.market_cap
        + "\n\nS&P 500 performance (same period):\n1-month: "@ + percent_text(data.sp500_1m)
        + "%\n3-month: "@ + percent_text(data.sp500_3m) + "%\n\nRecent news headlines:\n"@
        + numbered_headlines(data.recent_news) + "\n"@
}

/// Appends the headlines as numbered lines.
fn push_headlines(out: &mut String, titles: &Vec<String>)
    ensures
        final(out)@ == old(out)@ + numbered_headlines(titles.deep_view()),
{
    let ghost all = titles.deep_view();
    let mut i: usize = 0;
    assert(all.take(0) =~= Seq::<Seq<char>>::empty());
    assert(out@ =~= old(out)@ + numbered_headlines(all.take(0)));
    while i < titles.len()
        invariant
            i <= titles.len(),
            all == titles.deep_view(),
            out@ == old(out)@ + numbered_headlines(all.take(i as int)),
        decreases titles.len() - i,
    {
        let ghost before = out@;
        if i > 0 {
            out.append("\n");
        }
        push_number(out, (i + 1) as u128);
        out.append(". ");
        out.append(titles[i].as_str());
        proof {
            let shown = all.take(i + 1);
            assert(shown.drop_last() =~= all.take(i as int));
            assert(shown.last() == titles[i as int]@);
            assert(shown[0] == all[0]);
            assert(out@ =~= old(out)@ + numbered_headlines(shown));
        }
        i += 1;
    }
    assert(all.take(i as int) =~= all);
}

/// Lays the snapshot out as the text that the analyst reads.
pub fn build_context(data: &MarketData) -> (r: String)
    requires
        data.wf(),
    ensures
        r@ == context_text(data.deep_view()),
{
    let mut out = String::from_str("Stock: ");
    out.append(data.ticker.as_str());
    out.append("\nCurrent Price: $");
    push_decimal(&mut out, &data.current_price);
    out.append("\n1-month change: ");
    push_percent(&mut out, &data.change_1m);
    out.append("%\n3-month change: ");
    push_percent(&mut out, &data.change_3m);
    out.append("%\n1-year change: ");
    push_percent(&mut out, &data.change_1y);
    out.append("%\nSector: ");
    out.append(data.sector.as_str());
    out.append("\nMarket Cap: ");
    out.append(data.market_cap.as_str());
    out.append("\n\nS&P 500 performance (same period):\n1-month: ");
    push_percent(&mut out, &data.sp500_1m);
    out.append("%\n3-month: ");
    push_percent(&mut out, &data.sp500_3m);
    out.append("%\n\nRecent news headlines:\n");
    push_headlines(&mut out, &data.recent_news);
    out.append("\n");
    assert(out@ =~= context_text(data.deep_view()));
    out
}

/// How the request for an analysis opens, up to the ticker.
pub const PROMPT_OPENING: &'static str =
    "You are an experienced financial analyst. A client asked you about ";

/// What stands between the ticker and the data.
pub const PROMPT_DATA_HEADING: &'static str = ".\n\nHere's the data you have:\n";

/// What follows the data: the shape of the answer and the rules for it.
pub const PROMPT_INSTRUCTIONS: &'static str = r#"

Provide a professional analysis in JSON format with this EXACT structure:

{
  "executive_summary": "2-3 sentence big picture summary",
  "performance_analysis": {
    "recent_performance": "Overview of recent performance",
    "key_drivers": ["Driver 1", "Driver 2", "Driver 3"],
    "recent_pullback_reasons": ["Reason 1", "Reason 2"] // optional, only if there was a pullback
  },
  "comparative_analysis": "Comparison to S&P 500 and sector, explaining WHY the divergence exists",
  "risk_factors": [
    "Specific risk 1 with concrete impact",
    "Specific risk 2 with concrete impact",
    "Specific risk 3 with concrete impact"
  ],
  "opportunities": [
    "Specific opportunity 1 with catalyst",
    "Specific opportunity 2 with catalyst",
    "Specific opportunity 3 with catalyst"
  ],
  "key_takeaway": "One actionable insight an investor should know - be specific about what to watch for"
}

CRITICAL RULES:
- Be insightful and specific, not generic
- Connect price movements to actual events (earnings, news, market trends)
- Explain WHY things happened, not just WHAT happened
- Avoid boilerplate disclaimers like "diversify your portfolio"
- Risk factors should be specific with concrete impacts, not vague warnings
- Opportunities should identify specific catalysts
- Key takeaway should be actionable (e.g., "Watch for X in next earnings")

Return ONLY the JSON, no additional text."#;

/// The request for an analysis of `ticker`, with the data in `context`.
pub open spec fn analysis_prompt(ticker: Seq<char>, context: Seq<char>) -> Seq<char> {
    PROMPT_OPENING@ + ticker + PROMPT_DATA_HEADING@ + context + PROMPT_INSTRUCTIONS@
}

/// Writes the request for an analysis of `ticker`, with the data in `context`.
pub fn build_analysis_prompt(ticker: &str, context: &str) -> (r: String)
    ensures
        r@ == analysis_prompt(ticker@, context@),
{
    let mut out = String::from_str(PROMPT_OPENING);
    out.append(ticker);
    out.append(PROMPT_DATA_HEADING);
    out.append(context);
    out.append(PROMPT_INSTRUCTIONS);
    out
}

/// Writes the request for an analysis of the stock of a snapshot: the data
/// laid out, inside the request that names the ticker.
pub fn analysis_request(data: &MarketData) -> (r: String)
    requires
        data.wf(),
    ensures
        r@ == analysis_prompt(data.ticker@, context_text(data.deep_view())),
{
    let context = build_context(data);
    build_analysis_prompt(data.ticker.as_str(), context.as_str())
}

} // verus!
