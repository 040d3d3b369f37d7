//! The symbol assembler: turns the timeframe records one acquisition
//! collected into a finished instrument record — ordered, totalled and
//! stamped.
use vstd::prelude::*;

use crate::error::IngestError;
use crate::record::filter_rank;
use crate::record::sort_timeframes;
use crate::record::sum_candle_counts;
use crate::record::symbol_data_wf;
use crate::record::SymbolData;
use crate::record::TimeframeInfo;

verus! {

pub proof fn lemma_sum_take_le(s: Seq<TimeframeInfo>, j: int)
    requires
        0 <= j <= s.len(),
    ensures
        sum_candle_counts(s.take(j)) <= sum_candle_counts(s),
    decreases s.len() - j,
{
    if j == s.len() {
        assert(s.take(j) =~= s);
    } else {
        lemma_sum_take_le(s, j + 1);
        assert(s.take(j + 1).drop_last() =~= s.take(j));
        assert(s.take(j + 1).last() == s[j]);
    }
}

/// Builds the record of one instrument: orders the collected timeframes by
/// canonical rank (insertion order within a rank), sums the candle counts,
/// and stamps the record; fails with `NoValidTimeframes` exactly when
/// nothing was collected.
pub fn assemble_symbol_record(
    symbol: String,
    timeframes: Vec<TimeframeInfo>,
    uploaded_at: String,
) -> (r: Result<SymbolData, IngestError>)
    requires
        sum_candle_counts(timeframes@) <= usize::MAX,
    ensures
        match r {
            Ok(d) => timeframes@.len() > 0 && symbol_data_wf(d) && d.symbol == symbol
                && d.uploaded_at == uploaded_at && d.total_candles == sum_candle_counts(
                timeframes@,
            ) && d.timeframes@.len() == timeframes@.len() && (forall|k: int|
                #![auto]
                0 <= k <= 15 ==> filter_rank(d.timeframes@, k) == filter_rank(timeframes@, k)),
            Err(e) => timeframes@.len() == 0 && e == IngestError::NoValidTimeframes,
        },
{
    if timeframes.len() == 0 {
        return Err(IngestError::NoValidTimeframes);
    }
    let sorted = sort_timeframes(&timeframes);
    let ghost sv = sorted@;
    let mut total: usize = 0;
    let mut j: usize = 0;
    proof {
        assert(sv.take(0) =~= Seq::<TimeframeInfo>::empty());
    }
    while j < sorted.len()
        invariant
            0 <= j <= sorted@.len(),
            sv == sorted@,
            sum_candle_counts(sv) <= usize::MAX,
            total == sum_candle_counts(sv.take(j as int)),
        decreases sorted@.len() - j,
    {
        proof {
            lemma_sum_take_le(sv, j + 1);
            assert(sv.take(j + 1).drop_last() =~= sv.take(j as int));
            assert(sv.take(j + 1).last() == sv[j as int]);
            crate::record::lemma_rank_range(sv);
            lemma_sum_nonneg(sv.take(j as int));
        }
        total = total + sorted[j].candle_count;
        j = j + 1;
    }
    proof {
        assert(sv.take(sorted@.len() as int) =~= sv);
    }
    Ok(SymbolData { symbol, timeframes: sorted, total_candles: total, uploaded_at })
}

pub proof fn lemma_sum_nonneg(s: Seq<TimeframeInfo>)
    ensures
        sum_candle_counts(s) >= 0,
    decreases s.len(),
{
    if s.len() > 0 {
        lemma_sum_nonneg(s.drop_last());
    }
}

} // verus!
