//! The quote-API acquirer: maps requested timeframe codes to provider
//! intervals, converts calendar dates to epoch seconds, reads the
//! provider's nested JSON response into parallel arrays, aligns them into
//! candles, synthesizes staged row content, and assembles and persists the
//! record. The caller performs the network requests; a failed or empty
//! timeframe is skipped, and the batch fails only when nothing succeeded.
use vstd::prelude::*;

use crate::assemble::assemble_symbol_record;
use crate::error::IngestError;
use crate::record::filter_rank;
use crate::record::sorted_by_rank;
use crate::record::sum_candle_counts;
use crate::record::symbol_data_wf;
use crate::record::TimeframeInfo;
use crate::store::SymbolStore;
use crate::text::dec_digits;
use crate::text::dec_int;
use crate::text::is_word;
use crate::text::is_word_char;
use crate::text::push_dec_i64;
use crate::text::push_dec_u64;
use crate::text::push_str;
use crate::text::to_upper;
use crate::text::upper_seq;
use crate::timeframe::map_timeframe_to_yfinance;
use crate::timeframe::tf_interval_seq;
use crate::timeframe::tf_label_seq;
use crate::timeframe::convert_timeframe_to_display;

verus! {

/// A quote-API acquisition request.
#[derive(Debug, Clone)]
pub struct YFinanceRequest {
    /// The provider's ticker to query.
    pub symbol: String,
    /// The name to persist the record under.
    pub save_as: String,
    /// First calendar day, `YYYY-MM-DD`.
    pub start_date: String,
    /// Last calendar day, `YYYY-MM-DD`.
    pub end_date: String,
    /// The requested canonical timeframe codes.
    pub timeframes: Vec<String>,
}

/// The outcome of a quote-API acquisition.
#[derive(Debug)]
pub struct YFinanceResult {
    pub success: bool,
    pub message: String,
    pub symbol: String,
    pub timeframes_downloaded: Vec<String>,
    pub total_candles: usize,
}

// --- calendar dates ---

/// What the calendar-date conversion returns for a given text: nothing for
/// an invalid day, else the epoch seconds of its UTC midnight.
pub uninterp spec fn date_epoch_seconds(s: Seq<char>) -> Option<i64>;

/// Relies on chrono's `NaiveDate::parse_from_str` with format `%Y-%m-%d`,
/// `and_hms_opt(0, 0, 0)`, `and_utc` and `timestamp`: whether the text is a
/// valid calendar day and, if so, its epoch seconds at UTC midnight — a
/// function of the text alone.
#[verifier::external_body]
fn date_epoch_of(s: &str) -> (r: Option<i64>)
    ensures
        r == date_epoch_seconds(s@),
{
    let d = chrono::NaiveDate::parse_from_str(s, "%Y-%m-%d").ok()?;
    let t = d.and_hms_opt(0, 0, 0)?;
    Some(t.and_utc().timestamp())
}

/// Converts a calendar date to epoch seconds at UTC midnight; fails with
/// `InvalidDate` exactly when the text is not a valid `YYYY-MM-DD` day.
pub fn convert_date_to_timestamp(date_str: &str) -> (r: Result<i64, IngestError>)
    ensures
        match r {
            Ok(t) => date_epoch_seconds(date_str@) == Some(t),
            Err(e) => date_epoch_seconds(date_str@) is None && e == IngestError::InvalidDate,
        },
{
    match date_epoch_of(date_str) {
        Some(t) => Ok(t),
        None => Err(IngestError::InvalidDate),
    }
}

/// The provider interval for a requested code; fails with
/// `UnsupportedTimeframe` exactly when the code has no mapping — the
/// caller skips that one timeframe and goes on.
pub fn interval_for(code: &str) -> (r: Result<String, IngestError>)
    ensures
        match r {
            Ok(x) => tf_interval_seq(code@) == Some(x@),
            Err(e) => tf_interval_seq(code@) is None && (
            e matches IngestError::UnsupportedTimeframe { timeframe } && timeframe@ == code@),
        },
{
    match map_timeframe_to_yfinance(code) {
        Some(x) => Ok(x),
        None => Err(IngestError::UnsupportedTimeframe { timeframe: code.to_owned() }),
    }
}

// --- the provider's JSON response ---

/// The provider's parallel arrays as the response text holds them, each
/// entry absent where the response held no usable value at that index.
pub struct QuoteSeries {
    pub timestamps: Vec<Option<i64>>,
    pub opens: Vec<Option<String>>,
    pub highs: Vec<Option<String>>,
    pub lows: Vec<Option<String>>,
    pub closes: Vec<Option<String>>,
    pub volumes: Vec<Option<i64>>,
}

/// One aligned observation.
#[derive(Debug, Clone)]
pub struct Candle {
    pub timestamp: i64,
    pub open: String,
    pub high: String,
    pub low: String,
    pub close: String,
    pub volume: i64,
}

/// What the integer-array reader yields for a given text: nothing when the
/// text is not JSON of the expected `chart.result[0]` shape, else its
/// `timestamp` and `volume` arrays read verbatim — a function of the text
/// alone.
pub uninterp spec fn quote_ints_of(s: Seq<char>) -> Option<
    (Vec<Option<i64>>, Vec<Option<i64>>),
>;

/// Relies on serde_json — `from_str`, `Value::get` (by key and by index),
/// `Value::as_array` and `Value::as_i64`: walks the response to
/// `chart.result[0]` and reads its `timestamp` array and the `volume`
/// array of `indicators.quote[0]`; non-integers stay absent.
#[verifier::external_body]
fn quote_ints_from(text: &str) -> (r: Option<(Vec<Option<i64>>, Vec<Option<i64>>)>)
    ensures
        r == quote_ints_of(text@),
{
    let root: serde_json::Value = serde_json::from_str(text).ok()?;
    let f = root.get("chart")?.get("result")?.get(0)?;
    let q = f.get("indicators")?.get("quote")?.get(0)?;
    let gi = |v: &serde_json::Value| Some(v.as_array()?.iter().map(|x| x.as_i64()).collect());
    Some((gi(f.get("timestamp")?)?, gi(q.get("volume")?)?))
}

/// What the price-array reader yields for a given text: nothing when the
/// text is not JSON of the expected `chart.result[0]` shape, else the
/// `open`, `high`, `low` and `close` arrays of `indicators.quote[0]`, each
/// number as its own text — a function of the text alone.
pub uninterp spec fn quote_prices_of(s: Seq<char>) -> Option<
    (Vec<Option<String>>, Vec<Option<String>>, Vec<Option<String>>, Vec<Option<String>>),
>;

/// Relies on serde_json — `from_str`, `Value::get` (by key and by index),
/// `Value::as_array`, `Value::as_number` and the `Display` rendering of a
/// JSON number: walks the response to `chart.result[0].indicators.quote[0]`
/// and reads its four price arrays; absent entries and non-numbers stay
/// absent.
#[verifier::external_body]
fn quote_prices_from(text: &str) -> (r: Option<
    (Vec<Option<String>>, Vec<Option<String>>, Vec<Option<String>>, Vec<Option<String>>),
>)
    ensures
        r == quote_prices_of(text@),
{
    let root: serde_json::Value = serde_json::from_str(text).ok()?;
    let q = root.get("chart")?.get("result")?.get(0)?.get("indicators")?.get("quote")?.get(0)?;
    let gn = |v: &serde_json::Value| Some(v.as_array()?.iter().map(|x| Some(x.as_number()?.to_string())).collect());
    Some((gn(q.get("open")?)?, gn(q.get("high")?)?, gn(q.get("low")?)?, gn(q.get("close")?)?))
}

/// The series the two readers describe together.
pub open spec fn spec_series(
    iv: (Vec<Option<i64>>, Vec<Option<i64>>),
    pv: (Vec<Option<String>>, Vec<Option<String>>, Vec<Option<String>>, Vec<Option<String>>),
) -> QuoteSeries {
    QuoteSeries {
        timestamps: iv.0,
        opens: pv.0,
        highs: pv.1,
        lows: pv.2,
        closes: pv.3,
        volumes: iv.1,
    }
}

// --- aligning the arrays into candles ---

/// The timestamps that are present, in their original order; the provider
/// sends the arrays in parallel, so position `i` of this compacted list is
/// paired with position `i` of each price array.
pub open spec fn compact_ts(ts: Seq<Option<i64>>) -> Seq<i64>
    decreases ts.len(),
{
    if ts.len() == 0 {
        Seq::empty()
    } else {
        match ts.last() {
            Some(t) => compact_ts(ts.drop_last()).push(t),
            None => compact_ts(ts.drop_last()),
        }
    }
}

/// All five fields are present at index `i` of the compacted timestamps.
pub open spec fn spec_present(q: QuoteSeries, i: int) -> bool {
    &&& 0 <= i < compact_ts(q.timestamps@).len()
    &&& i < q.opens@.len() && q.opens@[i] is Some
    &&& i < q.highs@.len() && q.highs@[i] is Some
    &&& i < q.lows@.len() && q.lows@[i] is Some
    &&& i < q.closes@.len() && q.closes@[i] is Some
    &&& i < q.volumes@.len() && q.volumes@[i] is Some
}

/// The candle at index `i`.
pub open spec fn candle_from(q: QuoteSeries, i: int, c: Candle) -> bool {
    &&& c.timestamp == compact_ts(q.timestamps@)[i]
    &&& Some(c.open) == q.opens@[i]
    &&& Some(c.high) == q.highs@[i]
    &&& Some(c.low) == q.lows@[i]
    &&& Some(c.close) == q.closes@[i]
    &&& Some(c.volume) == q.volumes@[i]
}

/// `out` is exactly the candles at the indices from `i` on where every
/// field is present.
pub open spec fn spec_align(q: QuoteSeries, i: int, out: Seq<Candle>) -> bool
    decreases compact_ts(q.timestamps@).len() - i,
{
    if i < 0 || i >= compact_ts(q.timestamps@).len() {
        out.len() == 0
    } else if spec_present(q, i) {
        out.len() > 0 && candle_from(q, i, out[0]) && spec_align(q, i + 1, out.drop_first())
    } else {
        spec_align(q, i + 1, out)
    }
}

fn compact_timestamps(ts: &Vec<Option<i64>>) -> (r: Vec<i64>)
    ensures
        r@ == compact_ts(ts@),
{
    let mut out: Vec<i64> = Vec::new();
    let mut i: usize = 0;
    proof {
        assert(ts@.take(0) =~= Seq::<Option<i64>>::empty());
    }
    while i < ts.len()
        invariant
            0 <= i <= ts@.len(),
            out@ == compact_ts(ts@.take(i as int)),
        decreases ts@.len() - i,
    {
        proof {
            assert(ts@.take(i + 1).drop_last() =~= ts@.take(i as int));
            assert(ts@.take(i + 1).last() == ts@[i as int]);
        }
        match ts[i] {
            Some(t) => out.push(t),
            None => {},
        }
        i = i + 1;
    }
    proof {
        assert(ts@.take(ts@.len() as int) =~= ts@);
    }
    out
}

fn clone_opt_string(o: &Option<String>) -> (r: Option<String>)
    ensures
        r == *o,
{
    match o {
        Some(s) => Some(s.clone()),
        None => None,
    }
}

/// Zips the compacted timestamps positionally against the five field
/// arrays, discarding every index where any field is absent.
pub fn align_candles(q: &QuoteSeries) -> (r: Vec<Candle>)
    ensures
        spec_align(*q, 0, r@),
{
    let ts = compact_timestamps(&q.timestamps);
    let n = ts.len();
    let mut out: Vec<Candle> = Vec::new();
    let mut i: usize = 0;
    while i < n
        invariant
            ts@ == compact_ts(q.timestamps@),
            n == ts@.len(),
            0 <= i <= n,
            forall|rest: Seq<Candle>|
                #[trigger] spec_align(*q, i as int, rest) ==> spec_align(*q, 0, out@ + rest),
        decreases n - i,
    {
        let mut candle: Option<Candle> = None;
        if i < q.opens.len() && i < q.highs.len() && i < q.lows.len() && i < q.closes.len()
            && i < q.volumes.len() {
            let open = clone_opt_string(&q.opens[i]);
            let high = clone_opt_string(&q.highs[i]);
            let low = clone_opt_string(&q.lows[i]);
            let close = clone_opt_string(&q.closes[i]);
            let volume = q.volumes[i];
            match (open, high, low, close, volume) {
                (Some(o), Some(h), Some(l), Some(c), Some(v)) => {
                    candle = Some(
                        Candle {
                            timestamp: ts[i],
                            open: o,
                            high: h,
                            low: l,
                            close: c,
                            volume: v,
                        },
                    );
                },
                _ => {},
            }
        }
        match candle {
            Some(c) => {
                proof {
                    assert(spec_present(*q, i as int));
                    assert(candle_from(*q, i as int, c));
                }
                let ghost out0 = out@;
                out.push(c);
                proof {
                    assert forall|rest: Seq<Candle>|
                        #[trigger] spec_align(*q, i + 1, rest) implies spec_align(
                        *q,
                        0,
                        out@ + rest,
                    ) by {
                        assert(spec_align(*q, i as int, seq![c] + rest)) by {
                            assert((seq![c] + rest)[0] == c);
                            assert((seq![c] + rest).drop_first() =~= rest);
                        }
                        assert(out0 + (seq![c] + rest) =~= out0.push(c) + rest);
                    }
                }
            },
            None => {
                proof {
                    assert(!spec_present(*q, i as int));
                    assert forall|rest: Seq<Candle>|
                        #[trigger] spec_align(*q, i + 1, rest) implies spec_align(
                        *q,
                        0,
                        out@ + rest,
                    ) by {
                        assert(spec_align(*q, i as int, rest));
                    }
                }
            },
        }
        i = i + 1;
    }
    proof {
        assert(spec_align(*q, n as int, Seq::<Candle>::empty()));
        assert(out@ + Seq::<Candle>::empty() =~= out@);
    }
    out
}

/// Reads one provider response into its aligned candles: `Network`
/// exactly when the text does not read as the expected shape, `NoCandles`
/// exactly when it does but no index has all five fields present, and
/// otherwise exactly the non-empty alignment of what the text holds.
pub fn parse_quote_response(text: &str) -> (r: Result<Vec<Candle>, IngestError>)
    ensures
        match r {
            Ok(v) => (quote_ints_of(text@) matches Some(iv) && quote_prices_of(text@)
                matches Some(pv) && spec_align(spec_series(iv, pv), 0, v@)) && v@.len() > 0,
            Err(e) => match e {
                IngestError::Network => quote_ints_of(text@) is None || quote_prices_of(
                    text@,
                ) is None,
                IngestError::NoCandles => (quote_ints_of(text@) matches Some(iv)
                    && quote_prices_of(text@) matches Some(pv) && spec_align(
                    spec_series(iv, pv),
                    0,
                    Seq::<Candle>::empty(),
                )),
                _ => false,
            },
        },
{
    let iv = match quote_ints_from(text) {
        Some(x) => x,
        None => {
            return Err(IngestError::Network);
        },
    };
    let pv = match quote_prices_from(text) {
        Some(x) => x,
        None => {
            return Err(IngestError::Network);
        },
    };
    let ghost giv = iv;
    let ghost gpv = pv;
    let (ts, vols) = iv;
    let (opens, highs, lows, closes) = pv;
    let series = QuoteSeries {
        timestamps: ts,
        opens,
        highs,
        lows,
        closes,
        volumes: vols,
    };
    proof {
        assert(series == spec_series(giv, gpv));
    }
    let candles = align_candles(&series);
    if candles.len() == 0 {
        proof {
            assert(candles@ =~= Seq::<Candle>::empty());
        }
        return Err(IngestError::NoCandles);
    }
    Ok(candles)
}

// --- staged row content ---

/// The text of one candle row.
pub open spec fn spec_candle_line(c: Candle) -> Seq<char> {
    dec_int(c.timestamp as int) + ","@ + c.open@ + ","@ + c.high@ + ","@ + c.low@ + ","@
        + c.close@ + ","@ + dec_int(c.volume as int) + "\n"@
}

/// The rows from index `i` on.
pub open spec fn spec_candle_rows(cs: Seq<Candle>, i: int) -> Seq<char>
    decreases cs.len() - i,
{
    if i < 0 || i >= cs.len() {
        Seq::empty()
    } else {
        spec_candle_line(cs[i]) + spec_candle_rows(cs, i + 1)
    }
}

/// A synthesized header line followed by one row per candle.
pub open spec fn spec_quote_csv(cs: Seq<Candle>) -> Seq<char> {
    "timestamp,open,high,low,close,volume\n"@ + spec_candle_rows(cs, 0)
}

fn candle_line(c: &Candle) -> (r: String)
    ensures
        r@ == spec_candle_line(*c),
{
    let mut s = String::new();
    push_dec_i64(&mut s, c.timestamp);
    proof {
        assert(Seq::<char>::empty() + dec_int(c.timestamp as int) =~= dec_int(
            c.timestamp as int,
        ));
    }
    push_str(&mut s, ",");
    push_str(&mut s, c.open.as_str());
    push_str(&mut s, ",");
    push_str(&mut s, c.high.as_str());
    push_str(&mut s, ",");
    push_str(&mut s, c.low.as_str());
    push_str(&mut s, ",");
    push_str(&mut s, c.close.as_str());
    push_str(&mut s, ",");
    push_dec_i64(&mut s, c.volume);
    push_str(&mut s, "\n");
    s
}

/// Renders the aligned candles as staged row content, a synthesized header
/// and one comma-separated row per candle.
pub fn save_candles_to_csv(candles: &Vec<Candle>) -> (r: String)
    ensures
        r@ == spec_quote_csv(candles@),
{
    let n = candles.len();
    let mut s = String::new();
    push_str(&mut s, "timestamp,open,high,low,close,volume\n");
    proof {
        assert(Seq::<char>::empty() + "timestamp,open,high,low,close,volume\n"@
            =~= "timestamp,open,high,low,close,volume\n"@);
    }
    let mut i: usize = 0;
    while i < n
        invariant
            n == candles@.len(),
            0 <= i <= n,
            s@ + spec_candle_rows(candles@, i as int) == spec_quote_csv(candles@),
        decreases n - i,
    {
        let ghost s0 = s@;
        let line = candle_line(&candles[i]);
        push_str(&mut s, line.as_str());
        proof {
            assert((s0 + spec_candle_line(candles@[i as int])) + spec_candle_rows(
                candles@,
                i + 1,
            ) =~= s0 + (spec_candle_line(candles@[i as int]) + spec_candle_rows(candles@, i + 1)));
        }
        i = i + 1;
    }
    proof {
        assert(spec_candle_rows(candles@, n as int) =~= Seq::<char>::empty());
        assert(s@ + Seq::<char>::empty() =~= s@);
    }
    s
}

// --- the fetch plan ---

/// A valid persisted name: non-empty, ASCII letters, digits and
/// underscores only. The class is deliberately ASCII — the name becomes
/// the store key and a staging file name — so accented or other non-ASCII
/// alphanumerics are rejected rather than admitted.
pub open spec fn spec_name_ok(s: Seq<char>) -> bool {
    s.len() > 0 && (forall|i: int| 0 <= i < s.len() ==> is_word_char(s[i]))
}

/// Checks the persisted name before any network activity; only ASCII
/// letters, digits and underscores are accepted.
pub fn validate_save_name(name: &str) -> (r: bool)
    ensures
        r == spec_name_ok(name@),
{
    let n = name.unicode_len();
    if n == 0 {
        return false;
    }
    let mut i: usize = 0;
    while i < n
        invariant
            n == name@.len(),
            0 <= i <= n,
            forall|k: int| 0 <= k < i ==> is_word_char(name@[k]),
        decreases n - i,
    {
        if !is_word(name.get_char(i)) {
            return false;
        }
        i = i + 1;
    }
    true
}

/// One requested code with its provider interval, absent when the code has
/// no mapping — such a code fails alone, not the batch.
#[derive(Debug, Clone)]
pub struct QuotePlanItem {
    pub code: String,
    pub interval: Option<String>,
}

/// Everything the caller needs before issuing requests.
#[derive(Debug)]
pub struct QuotePlan {
    /// The upper-cased name the record will be persisted under.
    pub symbol: String,
    /// Epoch seconds of the start day's UTC midnight.
    pub start_epoch: i64,
    /// Epoch seconds of the end day's UTC midnight.
    pub end_epoch: i64,
    /// One entry per requested code, in request order.
    pub items: Vec<QuotePlanItem>,
}

/// Validates the target name, checks it is not already persisted, converts
/// the calendar dates, and maps each requested code to its provider
/// interval — all before any network activity.
pub fn plan_quote_fetch(
    store: &SymbolStore,
    save_as: &str,
    start_date: &str,
    end_date: &str,
    timeframes: &Vec<String>,
) -> (r: Result<QuotePlan, IngestError>)
    ensures
        match r {
            Ok(p) => {
                let key = upper_seq(save_as@);
                &&& spec_name_ok(key)
                &&& !store.contains_key(key)
                &&& p.symbol@ == key
                &&& date_epoch_seconds(start_date@) == Some(p.start_epoch)
                &&& date_epoch_seconds(end_date@) == Some(p.end_epoch)
                &&& p.items@.len() == timeframes@.len()
                &&& (forall|i: int|
                    0 <= i < timeframes@.len() ==> #[trigger] p.items@[i].code@
                        == timeframes@[i]@)
                &&& (forall|i: int|
                    0 <= i < timeframes@.len() ==> match #[trigger] p.items@[i].interval {
                        Some(x) => tf_interval_seq(timeframes@[i]@) == Some(x@),
                        None => tf_interval_seq(timeframes@[i]@) is None,
                    })
            },
            Err(e) => {
                let key = upper_seq(save_as@);
                match e {
                    IngestError::InvalidSymbolName => !spec_name_ok(key),
                    IngestError::AlreadyExists { symbol: s } => spec_name_ok(key)
                        && store.contains_key(key) && s@ == key,
                    IngestError::InvalidDate => spec_name_ok(key) && !store.contains_key(key)
                        && (date_epoch_seconds(start_date@) is None || date_epoch_seconds(
                        end_date@,
                    ) is None),
                    _ => false,
                }
            },
        },
{
    let key = to_upper(save_as);
    if !validate_save_name(key.as_str()) {
        return Err(IngestError::InvalidSymbolName);
    }
    match crate::store::check_symbol_exists(store, key.as_str()) {
        Err(e) => {
            return Err(e);
        },
        Ok(_) => {},
    }
    let start_epoch = match convert_date_to_timestamp(start_date) {
        Ok(t) => t,
        Err(e) => {
            return Err(e);
        },
    };
    let end_epoch = match convert_date_to_timestamp(end_date) {
        Ok(t) => t,
        Err(e) => {
            return Err(e);
        },
    };
    let n = timeframes.len();
    let mut items: Vec<QuotePlanItem> = Vec::new();
    let mut i: usize = 0;
    while i < n
        invariant
            n == timeframes@.len(),
            0 <= i <= n,
            items@.len() == i,
            forall|k: int| 0 <= k < i ==> #[trigger] items@[k].code@ == timeframes@[k]@,
            forall|k: int|
                0 <= k < i ==> match #[trigger] items@[k].interval {
                    Some(x) => tf_interval_seq(timeframes@[k]@) == Some(x@),
                    None => tf_interval_seq(timeframes@[k]@) is None,
                },
        decreases n - i,
    {
        let code = timeframes[i].clone();
        let interval = map_timeframe_to_yfinance(code.as_str());
        items.push(QuotePlanItem { code, interval });
        i = i + 1;
    }
    Ok(QuotePlan { symbol: key, start_epoch, end_epoch, items })
}

/// `plan_quote_fetch` over a whole request.
pub fn plan_quote_request(store: &SymbolStore, req: &YFinanceRequest) -> (r: Result<
    QuotePlan,
    IngestError,
>)
    ensures
        match r {
            Ok(p) => {
                let key = upper_seq(req.save_as@);
                &&& spec_name_ok(key)
                &&& !store.contains_key(key)
                &&& p.symbol@ == key
                &&& date_epoch_seconds(req.start_date@) == Some(p.start_epoch)
                &&& date_epoch_seconds(req.end_date@) == Some(p.end_epoch)
                &&& p.items@.len() == req.timeframes@.len()
                &&& (forall|i: int|
                    0 <= i < req.timeframes@.len() ==> #[trigger] p.items@[i].code@
                        == req.timeframes@[i]@)
                &&& (forall|i: int|
                    0 <= i < req.timeframes@.len() ==> match #[trigger] p.items@[i].interval {
                        Some(x) => tf_interval_seq(req.timeframes@[i]@) == Some(x@),
                        None => tf_interval_seq(req.timeframes@[i]@) is None,
                    })
            },
            Err(e) => {
                let key = upper_seq(req.save_as@);
                match e {
                    IngestError::InvalidSymbolName => !spec_name_ok(key),
                    IngestError::AlreadyExists { symbol: s } => spec_name_ok(key)
                        && store.contains_key(key) && s@ == key,
                    IngestError::InvalidDate => spec_name_ok(key) && !store.contains_key(key)
                        && (date_epoch_seconds(req.start_date@) is None || date_epoch_seconds(
                        req.end_date@,
                    ) is None),
                    _ => false,
                }
            },
        },
{
    plan_quote_fetch(
        store,
        req.save_as.as_str(),
        req.start_date.as_str(),
        req.end_date.as_str(),
        &req.timeframes,
    )
}

// --- finishing an acquisition ---

/// One requested timeframe as the caller fetched it: the canonical code
/// and the aligned candles, or nothing when its mapping, request, or
/// alignment failed — such a timeframe is dropped, not fatal.
pub struct FetchedSeries {
    pub code: String,
    pub candles: Option<Vec<Candle>>,
}

/// The series came back usable: present and non-empty.
pub open spec fn spec_series_ok(f: FetchedSeries) -> bool {
    match f.candles {
        Some(cs) => cs@.len() > 0,
        None => false,
    }
}

/// The candles a series contributes.
pub open spec fn spec_series_count(f: FetchedSeries) -> nat {
    match f.candles {
        Some(cs) => cs@.len(),
        None => 0,
    }
}

/// The timeframe record one usable series yields.
pub open spec fn tf_from_series(t: TimeframeInfo, f: FetchedSeries, prefix: Seq<char>) -> bool {
    &&& spec_series_ok(f)
    &&& t.name@ == f.code@
    &&& t.display_name@ == tf_label_seq(f.code@)
    &&& t.candle_count as nat == spec_series_count(f)
    &&& t.file_path@ == prefix + f.code@ + ".csv"@
}

/// `out` is exactly the records of the usable series, in request order.
pub open spec fn spec_quote_collect(
    files: Seq<FetchedSeries>,
    out: Seq<TimeframeInfo>,
    prefix: Seq<char>,
) -> bool
    decreases files.len(),
{
    if files.len() == 0 {
        out.len() == 0
    } else if !spec_series_ok(files[0]) {
        spec_quote_collect(files.drop_first(), out, prefix)
    } else {
        &&& out.len() > 0
        &&& tf_from_series(out[0], files[0], prefix)
        &&& spec_quote_collect(files.drop_first(), out.drop_first(), prefix)
    }
}

/// The candle total over all series.
pub open spec fn spec_quote_total(files: Seq<FetchedSeries>) -> int
    decreases files.len(),
{
    if files.len() == 0 {
        0
    } else {
        spec_series_count(files[0]) + spec_quote_total(files.drop_first())
    }
}

/// At least one series is usable.
pub open spec fn spec_has_series(files: Seq<FetchedSeries>) -> bool {
    exists|i: int| 0 <= i < files.len() && spec_series_ok(files[i])
}

/// The codes of the usable series, in request order.
pub open spec fn spec_ok_codes(files: Seq<FetchedSeries>) -> Seq<Seq<char>>
    decreases files.len(),
{
    if files.len() == 0 {
        Seq::empty()
    } else {
        (if spec_series_ok(files[0]) {
            seq![files[0].code@]
        } else {
            Seq::<Seq<char>>::empty()
        }) + spec_ok_codes(files.drop_first())
    }
}

proof fn lemma_quote_collect_sum(files: Seq<FetchedSeries>, out: Seq<TimeframeInfo>, prefix: Seq<char>)
    requires
        spec_quote_collect(files, out, prefix),
    ensures
        sum_candle_counts(out) == spec_quote_total(files),
        out.len() == 0 <==> !spec_has_series(files),
    decreases files.len(),
{
    if files.len() == 0 {
    } else if !spec_series_ok(files[0]) {
        lemma_quote_collect_sum(files.drop_first(), out, prefix);
        if spec_has_series(files.drop_first()) {
            let i = choose|i: int|
                0 <= i < files.drop_first().len() && spec_series_ok(files.drop_first()[i]);
            assert(files[i + 1] == files.drop_first()[i]);
        }
        if spec_has_series(files) {
            let i = choose|i: int| 0 <= i < files.len() && spec_series_ok(files[i]);
            assert(i > 0);
            assert(files.drop_first()[i - 1] == files[i]);
        }
    } else {
        lemma_quote_collect_sum(files.drop_first(), out.drop_first(), prefix);
        crate::record::lemma_sum_front(out);
    }
}

/// The success message of a quote-API acquisition.
pub open spec fn spec_quote_message(n: int, total: int) -> Seq<char> {
    "Successfully downloaded "@ + dec_digits(n as nat) + (if n == 1 {
        " timeframe"@
    } else {
        " timeframes"@
    }) + " with "@ + dec_digits(total as nat) + " total candles"@
}

pub fn build_quote_message(n: usize, total: usize) -> (r: String)
    ensures
        r@ == spec_quote_message(n as int, total as int),
{
    let mut s = String::new();
    push_str(&mut s, "Successfully downloaded ");
    push_dec_u64(&mut s, n as u64);
    if n == 1 {
        push_str(&mut s, " timeframe");
    } else {
        push_str(&mut s, " timeframes");
    }
    push_str(&mut s, " with ");
    push_dec_u64(&mut s, total as u64);
    push_str(&mut s, " total candles");
    proof {
        assert(Seq::<char>::empty() + spec_quote_message(n as int, total as int)
            =~= spec_quote_message(n as int, total as int));
        assert(s@ =~= spec_quote_message(n as int, total as int));
    }
    s
}

/// Builds one timeframe record per usable series, with its staged path
/// under the given prefix.
fn collect_quote_timeframes(fetched: &Vec<FetchedSeries>, staging_prefix: &str) -> (r: (
    Vec<TimeframeInfo>,
    Vec<String>,
))
    ensures
        spec_quote_collect(fetched@, r.0@, staging_prefix@),
        crate::text::views_of(r.1@) == spec_ok_codes(fetched@),
{
    let n = fetched.len();
    let mut out: Vec<TimeframeInfo> = Vec::new();
    let mut codes: Vec<String> = Vec::new();
    let mut i: usize = 0;
    proof {
        assert(fetched@.skip(0) =~= fetched@);
        assert(crate::text::views_of(codes@) + spec_ok_codes(fetched@) =~= spec_ok_codes(
            fetched@,
        ));
    }
    while i < n
        invariant
            n == fetched@.len(),
            0 <= i <= n,
            forall|rest: Seq<TimeframeInfo>|
                #[trigger] spec_quote_collect(fetched@.skip(i as int), rest, staging_prefix@)
                    ==> spec_quote_collect(fetched@, out@ + rest, staging_prefix@),
            crate::text::views_of(codes@) + spec_ok_codes(fetched@.skip(i as int))
                == spec_ok_codes(fetched@),
        decreases n - i,
    {
        let ghost suf = fetched@.skip(i as int);
        proof {
            assert(suf[0] == fetched@[i as int]);
            assert(suf.drop_first() =~= fetched@.skip(i + 1));
        }
        let f = &fetched[i];
        let mut usable = false;
        let mut count: usize = 0;
        match &f.candles {
            Some(cs) => {
                if cs.len() > 0 {
                    usable = true;
                    count = cs.len();
                }
            },
            None => {},
        }
        if usable {
            proof {
                assert(spec_series_ok(fetched@[i as int]));
                assert(count as nat == spec_series_count(fetched@[i as int]));
            }
            let mut path = staging_prefix.to_owned();
            push_str(&mut path, f.code.as_str());
            push_str(&mut path, ".csv");
            let display = convert_timeframe_to_display(f.code.as_str());
            let info = TimeframeInfo {
                name: f.code.clone(),
                display_name: display,
                candle_count: count,
                file_path: path,
            };
            proof {
                assert(tf_from_series(info, fetched@[i as int], staging_prefix@));
            }
            let ghost out0 = out@;
            let ghost codes0 = codes@;
            out.push(info);
            codes.push(f.code.clone());
            proof {
                assert forall|rest: Seq<TimeframeInfo>|
                    #[trigger] spec_quote_collect(fetched@.skip(i + 1), rest, staging_prefix@)
                    implies spec_quote_collect(fetched@, out@ + rest, staging_prefix@) by {
                    assert(spec_quote_collect(suf, seq![info] + rest, staging_prefix@)) by {
                        assert((seq![info] + rest)[0] == info);
                        assert((seq![info] + rest).drop_first() =~= rest);
                    }
                    assert(out0 + (seq![info] + rest) =~= out0.push(info) + rest);
                }
                assert(spec_ok_codes(suf) =~= seq![fetched@[i as int].code@] + spec_ok_codes(
                    fetched@.skip(i + 1),
                ));
                assert(crate::text::views_of(codes@) =~~= crate::text::views_of(codes0).push(
                    fetched@[i as int].code@,
                ));
                assert(crate::text::views_of(codes0).push(fetched@[i as int].code@)
                    + spec_ok_codes(fetched@.skip(i + 1)) =~~= crate::text::views_of(codes0) + (
                seq![fetched@[i as int].code@] + spec_ok_codes(fetched@.skip(i + 1))));
            }
        } else {
            proof {
                assert(!spec_series_ok(fetched@[i as int]));
                assert forall|rest: Seq<TimeframeInfo>|
                    #[trigger] spec_quote_collect(fetched@.skip(i + 1), rest, staging_prefix@)
                    implies spec_quote_collect(fetched@, out@ + rest, staging_prefix@) by {
                    assert(spec_quote_collect(suf, rest, staging_prefix@));
                }
                assert(spec_ok_codes(suf) =~= Seq::<Seq<char>>::empty() + spec_ok_codes(
                    fetched@.skip(i + 1),
                ));
                assert(Seq::<Seq<char>>::empty() + spec_ok_codes(fetched@.skip(i + 1))
                    =~= spec_ok_codes(fetched@.skip(i + 1)));
            }
        }
        i = i + 1;
    }
    proof {
        assert(fetched@.skip(n as int) =~= Seq::<FetchedSeries>::empty());
        assert(spec_quote_collect(
            fetched@.skip(n as int),
            Seq::<TimeframeInfo>::empty(),
            staging_prefix@,
        ));
        assert(out@ + Seq::<TimeframeInfo>::empty() =~= out@);
        assert(spec_ok_codes(fetched@.skip(n as int)) =~= Seq::<Seq<char>>::empty());
        assert(crate::text::views_of(codes@) + Seq::<Seq<char>>::empty() =~= crate::text::views_of(
            codes@,
        ));
    }
    (out, codes)
}

/// Assembles and persists the record from the fetched series: checks the
/// target is still free, keeps every usable series and drops the rest, and
/// fails with `NoValidTimeframes` exactly when nothing was usable — the
/// batch succeeds as long as one timeframe did.
pub fn finish_quote_fetch(
    store: &mut SymbolStore,
    save_as: &str,
    staging_prefix: &str,
    fetched: &Vec<FetchedSeries>,
    uploaded_at: String,
) -> (r: Result<YFinanceResult, IngestError>)
    requires
        old(store).wf(),
        spec_quote_total(fetched@) <= usize::MAX,
    ensures
        final(store).wf(),
        match r {
            Ok(res) => {
                let key = upper_seq(save_as@);
                let d = final(store).lookup(key);
                &&& !old(store).contains_key(key)
                &&& spec_has_series(fetched@)
                &&& res.success == true
                &&& res.symbol@ == key
                &&& crate::text::views_of(res.timeframes_downloaded@) == spec_ok_codes(fetched@)
                &&& res.total_candles as int == spec_quote_total(fetched@)
                &&& res.message@ == spec_quote_message(
                    res.timeframes_downloaded@.len() as int,
                    res.total_candles as int,
                )
                &&& final(store).contains_key(key)
                &&& symbol_data_wf(d)
                &&& d.symbol@ == key
                &&& d.uploaded_at == uploaded_at
                &&& d.total_candles == res.total_candles
                &&& sorted_by_rank(d.timeframes@)
                &&& exists|cs: Seq<TimeframeInfo>|
                    spec_quote_collect(fetched@, cs, staging_prefix@) && (forall|k: int|
                        #![auto]
                        0 <= k <= 15 ==> filter_rank(d.timeframes@, k) == filter_rank(cs, k))
                &&& (forall|k: Seq<char>|
                    k != key ==> #[trigger] final(store).contains_key(k) == old(
                        store,
                    ).contains_key(k))
                &&& (forall|k: Seq<char>|
                    k != key && old(store).contains_key(k) ==> #[trigger] final(store).lookup(k)
                        == old(store).lookup(k))
            },
            Err(e) => *final(store) == *old(store) && match e {
                IngestError::AlreadyExists { symbol: s } => old(store).contains_key(
                    upper_seq(save_as@),
                ) && s@ == upper_seq(save_as@),
                IngestError::NoValidTimeframes => !old(store).contains_key(upper_seq(save_as@))
                    && !spec_has_series(fetched@),
                _ => false,
            },
        },
{
    let key = to_upper(save_as);
    match crate::store::check_symbol_exists(store, key.as_str()) {
        Err(e) => {
            return Err(e);
        },
        Ok(_) => {},
    }
    let (collected, codes) = collect_quote_timeframes(fetched, staging_prefix);
    proof {
        lemma_quote_collect_sum(fetched@, collected@, staging_prefix@);
    }
    if collected.len() == 0 {
        return Err(IngestError::NoValidTimeframes);
    }
    let record = match assemble_symbol_record(key, collected, uploaded_at) {
        Ok(d) => d,
        Err(_) => {
            proof {
                assert(false);
            }
            return Err(IngestError::NoValidTimeframes);
        },
    };
    let total = record.total_candles;
    let result_symbol = record.symbol.clone();
    let message = build_quote_message(codes.len(), total);
    proof {
        crate::timeframe::lemma_canonicalize_idempotent(save_as@);
    }
    store.put(record);
    proof {
        assert(crate::text::views_of(codes@).len() == codes@.len());
    }
    Ok(YFinanceResult {
        success: true,
        message,
        symbol: result_symbol,
        timeframes_downloaded: codes,
        total_candles: total,
    })
}

} // verus!
