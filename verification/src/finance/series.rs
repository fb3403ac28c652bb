//! Price series: extraction from a raw date-keyed record, newest first, and
//! the percentage change over a trailing window.

use crate::finance::decimal::{parse_decimal, parsed, Decimal};
use crate::finance::percent::Percent;
use crate::finance::MarketDataError;
use crate::text::chars_of;
use vstd::prelude::*;

verus! {

/// One trading day of a raw time series: the closing price as the provider
/// spelled it.
#[derive(Debug)]
pub struct DailyData {
    pub close: String,
}

impl DeepView for DailyData {
    type V = Seq<char>;

    open spec fn deep_view(&self) -> Seq<char> {
        self.close@
    }
}

/// A raw daily time series: one entry per date, in no particular order.
#[derive(Debug)]
pub struct TimeSeriesResponse {
    pub time_series: Vec<(String, DailyData)>,
}

impl DeepView for TimeSeriesResponse {
    type V = Seq<(Seq<char>, Seq<char>)>;

    open spec fn deep_view(&self) -> Seq<(Seq<char>, Seq<char>)> {
        self.time_series.deep_view()
    }
}

/// A calendar date as text, and the closing price of that day.
pub type PricePoint = (Seq<char>, Decimal);

/// Whether `a` comes before `b` when texts are ordered character by
/// character. For dates written as `YYYY-MM-DD` this is the order of the
/// calendar.
pub open spec fn text_before(a: Seq<char>, b: Seq<char>) -> bool
    decreases a.len(),
{
    if b.len() == 0 {
        false
    } else if a.len() == 0 {
        true
    } else if a[0] != b[0] {
        a[0] < b[0]
    } else {
        text_before(a.drop_first(), b.drop_first())
    }
}

/// Whether the series runs from the newest date to the oldest: no point has a
/// date before that of a later point.
pub open spec fn is_newest_first(series: Seq<PricePoint>) -> bool {
    forall|i: int, j: int|
        0 <= i < j < series.len() ==> !text_before(#[trigger] series[i].0, #[trigger] series[j].0)
}

/// The entries whose closing price is a numeral, each with its price read, in
/// the order of the record. An entry whose price cannot be read is left out.
pub open spec fn priced_entries(raw: Seq<(Seq<char>, Seq<char>)>) -> Seq<PricePoint>
    decreases raw.len(),
{
    if raw.len() == 0 {
        Seq::<PricePoint>::empty()
    } else {
        let earlier = priced_entries(raw.drop_last());
        match parsed(raw.last().1) {
            Some(close) => earlier.push((raw.last().0, close)),
            None => earlier,
        }
    }
}

/// `series` with `point` put in before the first point of an older date.
pub open spec fn insert_by_date(series: Seq<PricePoint>, point: PricePoint) -> Seq<PricePoint>
    decreases series.len(),
{
    if series.len() == 0 {
        seq![point]
    } else if text_before(series[0].0, point.0) {
        seq![point] + series
    } else {
        seq![series[0]] + insert_by_date(series.drop_first(), point)
    }
}

/// The points ordered from the newest date to the oldest; points of one date
/// keep the order they came in.
pub open spec fn newest_first(points: Seq<PricePoint>) -> Seq<PricePoint>
    decreases points.len(),
{
    if points.len() == 0 {
        Seq::<PricePoint>::empty()
    } else {
        insert_by_date(newest_first(points.drop_last()), points.last())
    }
}

/// The change from `past` to `current` in percent of `past`, as an exact
/// fraction: `(current - past) / past * 100`.
pub open spec fn percent_change(current: Decimal, past: Decimal) -> Percent {
    if past.units > 0 {
        Percent {
            numerator: (100 * (current.units - past.units)) as i128,
            denominator: past.units as u64,
        }
    } else {
        Percent {
            numerator: (100 * (past.units - current.units)) as i128,
            denominator: (-past.units) as u64,
        }
    }
}

/// The percentage change between the newest close and the close `lookback`
/// points back.
pub open spec fn trailing_change(series: Seq<PricePoint>, lookback: nat) -> Result<
    Percent,
    MarketDataError,
> {
    if series.len() <= lookback {
        Err(MarketDataError::InsufficientHistory)
    } else if series[lookback as int].1.units == 0 {
        Err(MarketDataError::DivisionByZero)
    } else {
        Ok(percent_change(series[0].1, series[lookback as int].1))
    }
}

/// No text comes before itself or before a text that comes before it.
pub proof fn lemma_text_before_asymmetric(a: Seq<char>, b: Seq<char>)
    requires
        text_before(a, b),
    ensures
        !text_before(b, a),
    decreases a.len(),
{
    if a.len() > 0 && b.len() > 0 && a[0] == b[0] {
        lemma_text_before_asymmetric(a.drop_first(), b.drop_first());
    }
}

/// What comes before a text comes before every text that this one comes before.
pub proof fn lemma_text_before_transitive(a: Seq<char>, b: Seq<char>, c: Seq<char>)
    requires
        text_before(a, b),
        text_before(b, c),
    ensures
        text_before(a, c),
    decreases a.len(),
{
    if a.len() > 0 && b.len() > 0 && c.len() > 0 && a[0] == b[0] && b[0] == c[0] {
        lemma_text_before_transitive(a.drop_first(), b.drop_first(), c.drop_first());
    }
}

/// Of two different texts one comes before the other.
pub proof fn lemma_text_before_total(a: Seq<char>, b: Seq<char>)
    requires
        a != b,
    ensures
        text_before(a, b) || text_before(b, a),
    decreases a.len(),
{
    if a.len() > 0 && b.len() > 0 && a[0] == b[0] {
        if a.drop_first() == b.drop_first() {
            assert(a =~= seq![a[0]] + a.drop_first());
            assert(b =~= seq![b[0]] + b.drop_first());
        }
        lemma_text_before_total(a.drop_first(), b.drop_first());
    } else if a.len() == 0 && b.len() == 0 {
        assert(a =~= b);
    }
}

/// Where a point goes: behind every point that is not older than it, and in
/// front of the first one that is.
proof fn lemma_insert_by_date_at(series: Seq<PricePoint>, point: PricePoint, at: int)
    requires
        0 <= at <= series.len(),
        forall|j: int| 0 <= j < at ==> !text_before(#[trigger] series[j].0, point.0),
        at == series.len() || text_before(series[at].0, point.0),
    ensures
        insert_by_date(series, point) == series.insert(at, point),
    decreases series.len(),
{
    if series.len() == 0 {
        assert(seq![point] =~= series.insert(at, point));
    } else if at == 0 {
        assert(seq![point] + series =~= series.insert(at, point));
    } else {
        let rest = series.drop_first();
        assert(!text_before(series[0].0, point.0));
        assert forall|j: int| 0 <= j < at - 1 implies !text_before(
            #[trigger] rest[j].0,
            point.0,
        ) by {
            assert(rest[j] == series[j + 1]);
        }
        lemma_insert_by_date_at(rest, point, at - 1);
        assert(seq![series[0]] + rest.insert(at - 1, point) =~= series.insert(at, point));
    }
}

/// Putting a point in adds that point and nothing else.
pub proof fn lemma_insert_by_date_is_insertion(series: Seq<PricePoint>, point: PricePoint)
    ensures
        exists|at: int|
            0 <= at <= series.len() && #[trigger] series.insert(at, point) == insert_by_date(
                series,
                point,
            ) && (forall|j: int| 0 <= j < at ==> !text_before(#[trigger] series[j].0, point.0))
                && (at == series.len() || text_before(series[at].0, point.0)),
    decreases series.len(),
{
    if series.len() == 0 {
        assert(series.insert(0, point) =~= seq![point]);
    } else if text_before(series[0].0, point.0) {
        assert(series.insert(0, point) =~= seq![point] + series);
    } else {
        let rest = series.drop_first();
        lemma_insert_by_date_is_insertion(rest, point);
        let at = choose|at: int|
            0 <= at <= rest.len() && #[trigger] rest.insert(at, point) == insert_by_date(
                rest,
                point,
            ) && (forall|j: int| 0 <= j < at ==> !text_before(#[trigger] rest[j].0, point.0)) && (at
                == rest.len() || text_before(rest[at].0, point.0));
        assert(series.insert(at + 1, point) =~= seq![series[0]] + rest.insert(at, point));
        assert forall|j: int| 0 <= j < at + 1 implies !text_before(
            #[trigger] series[j].0,
            point.0,
        ) by {
            if j > 0 {
                assert(series[j] == rest[j - 1]);
            }
        }
        assert(at + 1 < series.len() ==> series[at + 1] == rest[at]);
    }
}

/// Putting a point into a series that runs newest first leaves it running
/// newest first.
pub proof fn lemma_insert_by_date_keeps_order(series: Seq<PricePoint>, point: PricePoint)
    requires
        is_newest_first(series),
    ensures
        is_newest_first(insert_by_date(series, point)),
        insert_by_date(series, point).to_multiset() == series.to_multiset().insert(point),
        insert_by_date(series, point).len() == series.len() + 1,
{
    lemma_insert_by_date_is_insertion(series, point);
    let at = choose|at: int|
        0 <= at <= series.len() && #[trigger] series.insert(at, point) == insert_by_date(
            series,
            point,
        ) && (forall|j: int| 0 <= j < at ==> !text_before(#[trigger] series[j].0, point.0)) && (at
            == series.len() || text_before(series[at].0, point.0));
    let out = series.insert(at, point);
    vstd::seq_lib::to_multiset_insert(series, at, point);
    assert forall|i: int, j: int| 0 <= i < j < out.len() implies !text_before(
        #[trigger] out[i].0,
        #[trigger] out[j].0,
    ) by {
        if i == at {
            let k = j - 1;
            assert(out[j] == series[k]);
            if text_before(point.0, series[k].0) {
                lemma_text_before_transitive(series[at].0, point.0, series[k].0);
                if k == at {
                    lemma_text_before_asymmetric(series[at].0, point.0);
                }
            }
        } else if j == at {
            assert(out[i] == series[i]);
        } else {
            let a = if i < at {
                i
            } else {
                i - 1
            };
            let b = if j < at {
                j
            } else {
                j - 1
            };
            assert(out[i] == series[a]);
            assert(out[j] == series[b]);
        }
    }
}

/// Ordering the points newest first gives a series that runs newest first and
/// holds the same points, each as often as before.
pub proof fn lemma_newest_first_is_ordered_rearrangement(points: Seq<PricePoint>)
    ensures
        is_newest_first(newest_first(points)),
        newest_first(points).to_multiset() == points.to_multiset(),
        newest_first(points).len() == points.len(),
    decreases points.len(),
{
    if points.len() == 0 {
        assert(points =~= Seq::<PricePoint>::empty());
    } else {
        let earlier = points.drop_last();
        lemma_newest_first_is_ordered_rearrangement(earlier);
        lemma_insert_by_date_keeps_order(newest_first(earlier), points.last());
        vstd::seq_lib::to_multiset_build(earlier, points.last());
        assert(earlier.push(points.last()) =~= points);
    }
}

/// Whether the characters of `a` come before those of `b`.
fn chars_before(a: &Vec<char>, b: &Vec<char>) -> (r: bool)
    ensures
        r == text_before(a@, b@),
{
    let mut i: usize = 0;
    assert(a@.skip(0) =~= a@);
    assert(b@.skip(0) =~= b@);
    while i < a.len() && i < b.len()
        invariant
            i <= a.len(),
            i <= b.len(),
            text_before(a@, b@) == text_before(a@.skip(i as int), b@.skip(i as int)),
        decreases a.len() - i,
    {
        let x = a[i];
        let y = b[i];
        assert(a@.skip(i as int).len() == a.len() - i);
        assert(b@.skip(i as int).len() == b.len() - i);
        assert(a@.skip(i as int)[0] == x);
        assert(b@.skip(i as int)[0] == y);
        if x != y {
            return x < y;
        }
        assert(a@.skip(i as int).drop_first() =~= a@.skip(i + 1));
        assert(b@.skip(i as int).drop_first() =~= b@.skip(i + 1));
        i += 1;
    }
    assert(a@.skip(i as int).len() == a.len() - i);
    assert(b@.skip(i as int).len() == b.len() - i);
    i < b.len()
}

/// What is not older than `b` is older than `p` only if `b` is.
proof fn lemma_text_before_spreads(a: Seq<char>, b: Seq<char>, p: Seq<char>)
    requires
        !text_before(a, b),
        text_before(a, p),
    ensures
        text_before(b, p),
{
    if a != b {
        lemma_text_before_total(a, b);
        lemma_text_before_transitive(b, a, p);
    }
}

/// The index of the first key that comes before `key`, in keys that run from
/// the last in order to the first; their number if there is none.
fn insertion_index(keys: &Vec<Vec<char>>, key: &Vec<char>) -> (at: usize)
    requires
        forall|i: int, j: int|
            0 <= i < j < keys.len() ==> !text_before((#[trigger] keys[i])@, (#[trigger] keys[j])@),
    ensures
        at <= keys.len(),
        forall|j: int| 0 <= j < at ==> !text_before((#[trigger] keys[j])@, key@),
        at == keys.len() || text_before(keys[at as int]@, key@),
{
    let mut low: usize = 0;
    let mut high: usize = keys.len();
    while low < high
        invariant
            low <= high <= keys.len(),
            forall|i: int, j: int|
                0 <= i < j < keys.len() ==> !text_before(
                    (#[trigger] keys[i])@,
                    (#[trigger] keys[j])@,
                ),
            forall|j: int| 0 <= j < low ==> !text_before((#[trigger] keys[j])@, key@),
            high == keys.len() || text_before(keys[high as int]@, key@),
        decreases high - low,
    {
        let middle = low + (high - low) / 2;
        if chars_before(&keys[middle], key) {
            high = middle;
        } else {
            proof {
                assert forall|j: int| 0 <= j < middle + 1 implies !text_before(
                    (#[trigger] keys[j])@,
                    key@,
                ) by {
                    if j < middle && text_before(keys[j]@, key@) {
                        lemma_text_before_spreads(keys[j]@, keys[middle as int]@, key@);
                    }
                }
            }
            low = middle + 1;
        }
    }
    low
}

/// Turns a raw time series into a price series that runs newest first.
///
/// An entry whose closing price is no numeral is left out; the others are
/// ordered by date text, descending, and entries of one date keep the order of
/// the record. Nothing makes the extraction fail as a whole.
pub fn extract_prices(time_series: &TimeSeriesResponse) -> (prices: Vec<(String, Decimal)>)
    ensures
        prices.deep_view() == newest_first(priced_entries(time_series.deep_view())),
        is_newest_first(prices.deep_view()),
        prices.deep_view().to_multiset() == priced_entries(time_series.deep_view()).to_multiset(),
{
    let entries = &time_series.time_series;
    let ghost raw = time_series.deep_view();
    let mut prices: Vec<(String, Decimal)> = Vec::new();
    let mut keys: Vec<Vec<char>> = Vec::new();
    let mut i: usize = 0;
    assert(raw.take(0) =~= Seq::<(Seq<char>, Seq<char>)>::empty());
    assert(prices.deep_view() =~= Seq::<PricePoint>::empty());
    while i < entries.len()
        invariant
            i <= entries.len(),
            raw == entries.deep_view(),
            raw.len() == entries.len(),
            keys.len() == prices.len(),
            forall|j: int| 0 <= j < keys.len() ==> (#[trigger] keys[j])@ == prices[j].0@,
            prices.deep_view() == newest_first(priced_entries(raw.take(i as int))),
        decreases entries.len() - i,
    {
        let entry = &entries[i];
        proof {
            lemma_newest_first_is_ordered_rearrangement(priced_entries(raw.take(i as int)));
            assert(raw.take(i + 1).drop_last() =~= raw.take(i as int));
            assert(raw.take(i + 1).last() == raw[i as int]);
            assert(raw[i as int] == (entry.0@, entry.1.close@));
        }
        match parse_decimal(entry.1.close.as_str()) {
            Ok(close) => {
                let key = chars_of(entry.0.as_str());
                let ghost point: PricePoint = (entry.0@, close);
                let ghost before = prices.deep_view();
                proof {
                    assert forall|a: int, b: int| 0 <= a < b < keys.len() implies !text_before(
                        (#[trigger] keys[a])@,
                        (#[trigger] keys[b])@,
                    ) by {
                        assert(before[a].0 == keys[a]@);
                        assert(before[b].0 == keys[b]@);
                    }
                }
                let at = insertion_index(&keys, &key);
                proof {
                    assert forall|j: int| 0 <= j < at implies !text_before(
                        #[trigger] before[j].0,
                        point.0,
                    ) by {
                        assert(before[j].0 == keys[j]@);
                    }
                    if at < keys.len() {
                        assert(before[at as int].0 == keys[at as int]@);
                    }
                    lemma_insert_by_date_at(before, point, at as int);
                }
                let ghost old_prices = prices@;
                let ghost old_keys = keys@;
                prices.insert(at, (entry.0.clone(), close));
                keys.insert(at, key);
                proof {
                    let kept = priced_entries(raw.take(i as int));
                    assert(priced_entries(raw.take(i + 1)) == kept.push(point));
                    assert(kept.push(point).drop_last() =~= kept);
                    assert(prices.deep_view() =~= before.insert(at as int, point));
                    assert forall|j: int| 0 <= j < keys.len() implies (#[trigger] keys[j])@
                        == prices[j].0@ by {
                        if j < at {
                            assert(keys[j] == old_keys[j]);
                            assert(prices[j] == old_prices[j]);
                        } else if j > at {
                            assert(keys[j] == old_keys[j - 1]);
                            assert(prices[j] == old_prices[j - 1]);
                        }
                    }
                }
            },
            Err(_) => {
                assert(priced_entries(raw.take(i + 1)) == priced_entries(raw.take(i as int)));
            },
        }
        i += 1;
    }
    proof {
        assert(raw.take(i as int) =~= raw);
        lemma_newest_first_is_ordered_rearrangement(priced_entries(raw));
    }
    prices
}

/// Percentage change between the most recent close and the close `days_ago`
/// points earlier in a series that runs newest first.
///
/// Fails for want of history exactly when the series has no point at index
/// `days_ago`, and for division by zero exactly when the close found there is
/// zero.
pub fn calculate_change(prices: &[(String, Decimal)], days_ago: usize) -> (r: Result<
    Percent,
    MarketDataError,
>)
    ensures
        r == trailing_change(prices.deep_view(), days_ago as nat),
        r == Err::<Percent, MarketDataError>(MarketDataError::InsufficientHistory)
            <==> prices.len() <= days_ago,
        r matches Ok(p) ==> p.wf(),
{
    if prices.len() <= days_ago {
        return Err(MarketDataError::InsufficientHistory);
    }
    let current = prices[0].1;
    let past = prices[days_ago].1;
    if past.units == 0 {
        return Err(MarketDataError::DivisionByZero);
    }
    let gain: i128 = current.units as i128 - past.units as i128;
    if past.units > 0 {
        Ok(Percent { numerator: 100 * gain, denominator: past.units as u64 })
    } else {
        let base: i128 = -(past.units as i128);
        Ok(Percent { numerator: -(100 * gain), denominator: base as u64 })
    }
}

} // verus!
