//! The per-instrument data model: one record per timeframe and one record
//! per symbol, together with the order in which timeframe records are kept.
use vstd::prelude::*;

use crate::timeframe::tf_rank_seq;
use crate::timeframe::timeframe_rank;

verus! {

/// One validated timeframe of an instrument.
#[derive(Debug, Clone)]
pub struct TimeframeInfo {
    /// The canonical (or verbatim unknown) timeframe code.
    pub name: String,
    /// The human display label for the code.
    pub display_name: String,
    /// The number of validated candle rows.
    pub candle_count: usize,
    /// Where the raw rows were materialized.
    pub file_path: String,
}

/// The assembled record of one instrument.
#[derive(Debug, Clone)]
pub struct SymbolData {
    /// The upper-cased instrument identifier.
    pub symbol: String,
    /// The timeframe records, ordered by canonical rank, ties kept in
    /// insertion order.
    pub timeframes: Vec<TimeframeInfo>,
    /// The sum of all candle counts.
    pub total_candles: usize,
    /// The UTC instant of assembly, in RFC 3339 form.
    pub uploaded_at: String,
}

/// The rank a timeframe record sorts by.
pub open spec fn tf_info_rank(t: TimeframeInfo) -> int {
    tf_rank_seq(t.name@)
}

/// The sum of the candle counts of a sequence of timeframe records.
pub open spec fn sum_candle_counts(s: Seq<TimeframeInfo>) -> int
    decreases s.len(),
{
    if s.len() == 0 {
        0
    } else {
        sum_candle_counts(s.drop_last()) + s.last().candle_count
    }
}

/// Ranks never decrease along the sequence.
pub open spec fn sorted_by_rank(s: Seq<TimeframeInfo>) -> bool {
    forall|i: int, j: int| 0 <= i <= j < s.len() ==> tf_info_rank(s[i]) <= tf_info_rank(s[j])
}

/// The records of one instrument are well formed: at least one timeframe,
/// the total equals the sum of the parts, and the parts are in rank order.
pub open spec fn symbol_data_wf(d: SymbolData) -> bool {
    &&& d.timeframes@.len() > 0
    &&& d.total_candles as int == sum_candle_counts(d.timeframes@)
    &&& sorted_by_rank(d.timeframes@)
}

/// The sum decomposed at the front element.
pub proof fn lemma_sum_front(s: Seq<TimeframeInfo>)
    requires
        s.len() > 0,
    ensures
        sum_candle_counts(s) == s[0].candle_count + sum_candle_counts(s.drop_first()),
    decreases s.len(),
{
    if s.len() == 1 {
        assert(s.drop_last() =~= Seq::<TimeframeInfo>::empty());
        assert(s.drop_first() =~= Seq::<TimeframeInfo>::empty());
        assert(s[0] == s.last());
    } else {
        lemma_sum_front(s.drop_last());
        assert(s.drop_last().drop_first() =~= s.drop_first().drop_last());
        assert(s.drop_last()[0] == s[0]);
        assert(s.drop_first().last() == s.last());
    }
}

pub proof fn lemma_sum_concat(a: Seq<TimeframeInfo>, b: Seq<TimeframeInfo>)
    ensures
        sum_candle_counts(a + b) == sum_candle_counts(a) + sum_candle_counts(b),
    decreases b.len(),
{
    if b.len() == 0 {
        assert(a + b =~= a);
    } else {
        lemma_sum_concat(a, b.drop_last());
        assert((a + b).drop_last() =~= a + b.drop_last());
        assert((a + b).last() == b.last());
    }
}

// --- the subsequence of one rank ---

/// The records of rank `k`, in their original order.
pub open spec fn filter_rank(s: Seq<TimeframeInfo>, k: int) -> Seq<TimeframeInfo>
    decreases s.len(),
{
    if s.len() == 0 {
        Seq::empty()
    } else if tf_info_rank(s[0]) == k {
        seq![s[0]] + filter_rank(s.drop_first(), k)
    } else {
        filter_rank(s.drop_first(), k)
    }
}

/// Appending one record extends exactly the subsequence of its own rank.
pub proof fn lemma_filter_push(s: Seq<TimeframeInfo>, x: TimeframeInfo, k: int)
    ensures
        tf_info_rank(x) == k ==> filter_rank(s.push(x), k) == filter_rank(s, k).push(x),
        tf_info_rank(x) != k ==> filter_rank(s.push(x), k) == filter_rank(s, k),
    decreases s.len(),
{
    if s.len() == 0 {
        assert(s.push(x)[0] == x);
        assert(s.push(x).drop_first() =~= Seq::<TimeframeInfo>::empty());
        assert(filter_rank(Seq::<TimeframeInfo>::empty(), k) =~= Seq::<TimeframeInfo>::empty());
        if tf_info_rank(x) == k {
            assert(filter_rank(s.push(x), k) == seq![x] + Seq::<TimeframeInfo>::empty());
            assert(seq![x] + Seq::<TimeframeInfo>::empty() =~= filter_rank(s, k).push(x));
        } else {
            assert(filter_rank(s.push(x), k) == Seq::<TimeframeInfo>::empty());
        }
    } else {
        lemma_filter_push(s.drop_first(), x, k);
        assert(s.push(x)[0] == s[0]);
        assert(s.push(x).drop_first() =~= s.drop_first().push(x));
        assert(filter_rank(s.drop_first().push(x), k) == if tf_info_rank(x) == k {
            filter_rank(s.drop_first(), k).push(x)
        } else {
            filter_rank(s.drop_first(), k)
        });
        if tf_info_rank(s[0]) == k {
            assert(filter_rank(s.push(x), k) == seq![s[0]] + filter_rank(s.drop_first().push(x), k));
            assert(filter_rank(s, k) == seq![s[0]] + filter_rank(s.drop_first(), k));
            if tf_info_rank(x) == k {
                assert(seq![s[0]] + filter_rank(s.drop_first(), k).push(x) =~= (seq![s[0]]
                    + filter_rank(s.drop_first(), k)).push(x));
            }
        } else {
            assert(filter_rank(s.push(x), k) == filter_rank(s.drop_first().push(x), k));
            assert(filter_rank(s, k) == filter_rank(s.drop_first(), k));
        }
    }
}

/// Every record in the rank-`k` subsequence has rank `k`.
pub proof fn lemma_filter_members(s: Seq<TimeframeInfo>, k: int)
    ensures
        forall|i: int|
            0 <= i < filter_rank(s, k).len() ==> tf_info_rank(filter_rank(s, k)[i]) == k,
    decreases s.len(),
{
    if s.len() > 0 {
        lemma_filter_members(s.drop_first(), k);
        if tf_info_rank(s[0]) == k {
            assert(forall|i: int|
                1 <= i < filter_rank(s, k).len() ==> filter_rank(s, k)[i] == filter_rank(
                    s.drop_first(),
                    k,
                )[i - 1]);
        }
    }
}

/// A nonempty rank-`k` subsequence means some record of that rank is in `s`.
pub proof fn lemma_filter_nonempty_source(s: Seq<TimeframeInfo>, k: int)
    requires
        filter_rank(s, k).len() > 0,
    ensures
        exists|i: int| 0 <= i < s.len() && tf_info_rank(s[i]) == k,
    decreases s.len(),
{
    if tf_info_rank(s[0]) == k {
        assert(0 <= 0 < s.len() && tf_info_rank(s[0]) == k);
    } else {
        lemma_filter_nonempty_source(s.drop_first(), k);
        let i = choose|i: int|
            0 <= i < s.drop_first().len() && tf_info_rank(s.drop_first()[i]) == k;
        assert(s[i + 1] == s.drop_first()[i]);
    }
}

// --- the buckets a sort is built from ---

/// All records of rank below `r`, grouped by rank in ascending order.
pub open spec fn rank_buckets(s: Seq<TimeframeInfo>, r: int) -> Seq<TimeframeInfo>
    decreases r,
{
    if r <= 0 {
        Seq::empty()
    } else {
        rank_buckets(s, r - 1) + filter_rank(s, r - 1)
    }
}

proof fn lemma_buckets_push(s: Seq<TimeframeInfo>, x: TimeframeInfo, r: int)
    ensures
        tf_info_rank(x) < r ==> rank_buckets(s.push(x), r).len() == rank_buckets(s, r).len() + 1
            && sum_candle_counts(rank_buckets(s.push(x), r)) == sum_candle_counts(
            rank_buckets(s, r),
        ) + x.candle_count,
        tf_info_rank(x) >= r ==> rank_buckets(s.push(x), r) == rank_buckets(s, r),
    decreases r,
{
    if r > 0 {
        lemma_buckets_push(s, x, r - 1);
        lemma_filter_push(s, x, r - 1);
        lemma_sum_concat(rank_buckets(s.push(x), r - 1), filter_rank(s.push(x), r - 1));
        lemma_sum_concat(rank_buckets(s, r - 1), filter_rank(s, r - 1));
        lemma_sum_concat(filter_rank(s, r - 1), seq![x]);
        if tf_info_rank(x) == r - 1 {
            assert(filter_rank(s.push(x), r - 1) =~= filter_rank(s, r - 1) + seq![x]);
            assert(seq![x].drop_last() =~= Seq::<TimeframeInfo>::empty());
            assert(sum_candle_counts(Seq::<TimeframeInfo>::empty()) == 0);
            assert(sum_candle_counts(seq![x]) == x.candle_count);
        }
    }
}

/// Every record has a rank in 0..=15.
pub proof fn lemma_rank_range(s: Seq<TimeframeInfo>)
    ensures
        forall|i: int| 0 <= i < s.len() ==> 0 <= #[trigger] tf_info_rank(s[i]) <= 15,
{
}

/// Grouping by every rank keeps the length and the candle sum.
pub proof fn lemma_buckets_complete(s: Seq<TimeframeInfo>)
    ensures
        rank_buckets(s, 16).len() == s.len(),
        sum_candle_counts(rank_buckets(s, 16)) == sum_candle_counts(s),
    decreases s.len(),
{
    if s.len() == 0 {
        assert(rank_buckets(s, 16).len() == 0) by {
            lemma_empty_buckets(s, 16);
        }
        assert(sum_candle_counts(rank_buckets(s, 16)) == 0) by {
            lemma_empty_buckets(s, 16);
        }
    } else {
        let v = s.drop_last();
        let x = s.last();
        assert(s =~= v.push(x));
        lemma_buckets_complete(v);
        lemma_buckets_push(v, x, 16);
        assert(0 <= tf_info_rank(x) <= 15);
    }
}

proof fn lemma_empty_buckets(s: Seq<TimeframeInfo>, r: int)
    requires
        s.len() == 0,
    ensures
        rank_buckets(s, r).len() == 0,
        sum_candle_counts(rank_buckets(s, r)) == 0,
    decreases r,
{
    if r > 0 {
        lemma_empty_buckets(s, r - 1);
        lemma_sum_concat(rank_buckets(s, r - 1), filter_rank(s, r - 1));
        assert(rank_buckets(s, r).len() == 0);
    }
}

/// Every record in the grouped sequence has rank below `r`.
proof fn lemma_buckets_rank_bound(s: Seq<TimeframeInfo>, r: int)
    ensures
        forall|i: int|
            0 <= i < rank_buckets(s, r).len() ==> #[trigger] tf_info_rank(rank_buckets(s, r)[i])
                < r,
    decreases r,
{
    if r > 0 {
        lemma_buckets_rank_bound(s, r - 1);
        lemma_filter_members(s, r - 1);
        assert(forall|i: int|
            0 <= i < rank_buckets(s, r - 1).len() ==> rank_buckets(s, r)[i] == rank_buckets(
                s,
                r - 1,
            )[i]);
        assert(forall|i: int|
            rank_buckets(s, r - 1).len() <= i < rank_buckets(s, r).len() ==> rank_buckets(s, r)[i]
                == filter_rank(s, r - 1)[i - rank_buckets(s, r - 1).len()]);
    }
}

/// The grouped sequence is sorted by rank.
proof fn lemma_buckets_sorted(s: Seq<TimeframeInfo>, r: int)
    ensures
        sorted_by_rank(rank_buckets(s, r)),
    decreases r,
{
    if r > 0 {
        lemma_buckets_sorted(s, r - 1);
        lemma_buckets_rank_bound(s, r - 1);
        lemma_filter_members(s, r - 1);
        let pre = rank_buckets(s, r - 1);
        let cur = filter_rank(s, r - 1);
        assert forall|i: int, j: int|
            0 <= i <= j < rank_buckets(s, r).len() implies tf_info_rank(rank_buckets(s, r)[i])
            <= tf_info_rank(rank_buckets(s, r)[j]) by {
            if j < pre.len() {
                assert(rank_buckets(s, r)[i] == pre[i]);
                assert(rank_buckets(s, r)[j] == pre[j]);
            } else if i >= pre.len() {
                assert(rank_buckets(s, r)[i] == cur[i - pre.len()]);
                assert(rank_buckets(s, r)[j] == cur[j - pre.len()]);
            } else {
                assert(rank_buckets(s, r)[i] == pre[i]);
                assert(rank_buckets(s, r)[j] == cur[j - pre.len()]);
                assert(tf_info_rank(pre[i]) < r - 1);
                assert(tf_info_rank(cur[j - pre.len()]) == r - 1);
            }
        }
    }
}

/// And it keeps each rank's subsequence exactly.
proof fn lemma_filter_concat(a: Seq<TimeframeInfo>, b: Seq<TimeframeInfo>, k: int)
    ensures
        filter_rank(a + b, k) == filter_rank(a, k) + filter_rank(b, k),
    decreases b.len(),
{
    if b.len() == 0 {
        assert(a + b =~= a);
        assert(filter_rank(a, k) + filter_rank(b, k) =~= filter_rank(a, k));
    } else {
        lemma_filter_concat(a, b.drop_last(), k);
        lemma_filter_push(a + b.drop_last(), b.last(), k);
        lemma_filter_push(b.drop_last(), b.last(), k);
        assert((a + b.drop_last()).push(b.last()) =~= a + b);
        assert(b.drop_last().push(b.last()) =~= b);
        if tf_info_rank(b.last()) == k {
            assert(filter_rank(a, k) + filter_rank(b.drop_last(), k).push(b.last()) =~= (
            filter_rank(a, k) + filter_rank(b.drop_last(), k)).push(b.last()));
        }
    }
}

/// A sequence of records all of one rank is its own subsequence at that
/// rank, and empty at every other rank.
proof fn lemma_filter_homogeneous(s: Seq<TimeframeInfo>, k: int, m: int)
    requires
        forall|i: int| 0 <= i < s.len() ==> #[trigger] tf_info_rank(s[i]) == k,
    ensures
        k == m ==> filter_rank(s, m) == s,
        k != m ==> filter_rank(s, m) == Seq::<TimeframeInfo>::empty(),
    decreases s.len(),
{
    if s.len() > 0 {
        assert(forall|i: int|
            0 <= i < s.drop_first().len() ==> s.drop_first()[i] == s[i + 1]);
        lemma_filter_homogeneous(s.drop_first(), k, m);
        if k == m {
            assert(seq![s[0]] + s.drop_first() =~= s);
        }
    }
}

proof fn lemma_buckets_filter(s: Seq<TimeframeInfo>, r: int, k: int)
    requires
        0 <= k,
    ensures
        k < r ==> filter_rank(rank_buckets(s, r), k) == filter_rank(s, k),
        k >= r ==> filter_rank(rank_buckets(s, r), k) == Seq::<TimeframeInfo>::empty(),
    decreases r,
{
    if r > 0 {
        lemma_buckets_filter(s, r - 1, k);
        lemma_filter_concat(rank_buckets(s, r - 1), filter_rank(s, r - 1), k);
        lemma_filter_members(s, r - 1);
        lemma_filter_homogeneous(filter_rank(s, r - 1), r - 1, k);
        if k < r - 1 {
            assert(filter_rank(s, k) + Seq::<TimeframeInfo>::empty() =~= filter_rank(s, k));
        } else if k == r - 1 {
            assert(Seq::<TimeframeInfo>::empty() + filter_rank(s, r - 1) =~= filter_rank(
                s,
                r - 1,
            ));
        } else {
            assert(Seq::<TimeframeInfo>::empty() + Seq::<TimeframeInfo>::empty()
                =~= Seq::<TimeframeInfo>::empty());
        }
    }
}

// --- the sort itself ---

pub fn clone_timeframe_info(t: &TimeframeInfo) -> (r: TimeframeInfo)
    ensures
        r == *t,
{
    TimeframeInfo {
        name: t.name.clone(),
        display_name: t.display_name.clone(),
        candle_count: t.candle_count,
        file_path: t.file_path.clone(),
    }
}

/// Orders timeframe records by canonical rank; records of equal rank —
/// including all unknown codes — keep their original relative order, and
/// unknown codes come after every known code.
pub fn sort_timeframes(input: &Vec<TimeframeInfo>) -> (r: Vec<TimeframeInfo>)
    ensures
        r@.len() == input@.len(),
        sorted_by_rank(r@),
        sum_candle_counts(r@) == sum_candle_counts(input@),
        forall|k: int| #![auto] 0 <= k <= 15 ==> filter_rank(r@, k) == filter_rank(input@, k),
{
    let mut out: Vec<TimeframeInfo> = Vec::new();
    let mut r: usize = 0;
    proof {
        assert(out@ =~= rank_buckets(input@, 0));
    }
    while r < 16
        invariant
            0 <= r <= 16,
            out@ == rank_buckets(input@, r as int),
        decreases 16 - r,
    {
        let n = input.len();
        let mut j: usize = 0;
        proof {
            assert(input@.take(0) =~= Seq::<TimeframeInfo>::empty());
            assert(out@ + Seq::<TimeframeInfo>::empty() =~= out@);
        }
        let ghost base = out@;
        while j < n
            invariant
                0 <= j <= n,
                n == input@.len(),
                out@ == base + filter_rank(input@.take(j as int), r as int),
            decreases n - j,
        {
            let ghost pre = input@.take(j as int);
            proof {
                lemma_filter_push(pre, input@[j as int], r as int);
                assert(pre.push(input@[j as int]) =~= input@.take(j + 1));
            }
            if timeframe_rank(input[j].name.as_str()) == r {
                out.push(clone_timeframe_info(&input[j]));
                proof {
                    assert(base + filter_rank(pre, r as int).push(input@[j as int]) =~= (base
                        + filter_rank(pre, r as int)).push(input@[j as int]));
                }
            }
            j = j + 1;
        }
        proof {
            assert(input@.take(n as int) =~= input@);
        }
        r = r + 1;
    }
    proof {
        lemma_buckets_complete(input@);
        lemma_buckets_sorted(input@, 16);
        assert forall|k: int| #![auto] 0 <= k <= 15 implies filter_rank(out@, k) == filter_rank(
            input@,
            k,
        ) by {
            lemma_buckets_filter(input@, 16, k);
        }
    }
    out
}

// --- rank order is a total order with a unique sorted arrangement ---

/// Two rank-sorted sequences that agree on every rank's subsequence are the
/// same sequence: sorting is canonical, so sorting twice — or sorting an
/// already sorted sequence — changes nothing.
pub proof fn lemma_sorted_unique(a: Seq<TimeframeInfo>, b: Seq<TimeframeInfo>)
    requires
        sorted_by_rank(a),
        sorted_by_rank(b),
        forall|k: int| #![auto] 0 <= k <= 15 ==> filter_rank(a, k) == filter_rank(b, k),
    ensures
        a == b,
    decreases a.len(),
{
    lemma_rank_range(a);
    lemma_rank_range(b);
    if a.len() == 0 {
        if b.len() > 0 {
            let rb = tf_info_rank(b[0]);
            assert(filter_rank(b, rb).len() > 0);
            assert(filter_rank(a, rb).len() == 0);
        }
        assert(a =~= b);
    } else if b.len() == 0 {
        let ra = tf_info_rank(a[0]);
        assert(filter_rank(a, ra).len() > 0);
        assert(filter_rank(b, ra).len() == 0);
        assert(a =~= b);
    } else {
        let ra = tf_info_rank(a[0]);
        let rb = tf_info_rank(b[0]);
        if ra < rb {
            assert(filter_rank(a, ra).len() > 0);
            lemma_filter_nonempty_source(b, ra);
            let i = choose|i: int| 0 <= i < b.len() && tf_info_rank(b[i]) == ra;
            assert(tf_info_rank(b[0]) <= tf_info_rank(b[i]));
            assert(false);
        }
        if rb < ra {
            assert(filter_rank(b, rb).len() > 0);
            lemma_filter_nonempty_source(a, rb);
            let i = choose|i: int| 0 <= i < a.len() && tf_info_rank(a[i]) == rb;
            assert(tf_info_rank(a[0]) <= tf_info_rank(a[i]));
            assert(false);
        }
        assert(ra == rb);
        assert(filter_rank(a, ra)[0] == a[0]);
        assert(filter_rank(b, ra)[0] == b[0]);
        assert(a[0] == b[0]);
        let a1 = a.drop_first();
        let b1 = b.drop_first();
        assert forall|k: int| #![auto] 0 <= k <= 15 implies filter_rank(a1, k) == filter_rank(
            b1,
            k,
        ) by {
            if k == ra {
                assert(seq![a[0]] + filter_rank(a1, k) == seq![b[0]] + filter_rank(b1, k));
                assert(filter_rank(a1, k) =~= (seq![a[0]] + filter_rank(a1, k)).drop_first());
                assert(filter_rank(b1, k) =~= (seq![b[0]] + filter_rank(b1, k)).drop_first());
            } else {
                assert(filter_rank(a, k) == filter_rank(a1, k));
                assert(filter_rank(b, k) == filter_rank(b1, k));
            }
        }
        assert(sorted_by_rank(a1)) by {
            assert(forall|i: int| 0 <= i < a1.len() ==> a1[i] == a[i + 1]);
        }
        assert(sorted_by_rank(b1)) by {
            assert(forall|i: int| 0 <= i < b1.len() ==> b1[i] == b[i + 1]);
        }
        lemma_sorted_unique(a1, b1);
        assert(a =~= seq![a[0]] + a1);
        assert(b =~= seq![b[0]] + b1);
    }
}

/// Unknown codes sort after every known code: in a rank-sorted sequence no
/// known code follows an unknown one.
pub proof fn lemma_unknown_after_known(s: Seq<TimeframeInfo>, i: int, j: int)
    requires
        sorted_by_rank(s),
        0 <= i <= j < s.len(),
        tf_info_rank(s[i]) == 15,
    ensures
        tf_info_rank(s[j]) == 15,
{
    lemma_rank_range(s);
}

} // verus!
