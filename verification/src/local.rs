//! The local directory acquirer: the caller lists a chart folder and hands
//! over each entry's name parts and content; everything else — filtering to
//! `csv` files, deriving and canonicalizing the timeframe token, detection,
//! validation, assembly and persistence — happens here.
//!
//! The flow is fail-fast: the first file that fails validation aborts the
//! whole operation, named together with its error.
use vstd::prelude::*;

use crate::assemble::assemble_symbol_record;
use crate::clock::now_utc_rfc3339;
use crate::error::IngestError;
use crate::format::count_and_validate_csv;
use crate::format::spec_validate_content;
use crate::format::FormatError;
use crate::record::filter_rank;
use crate::record::sorted_by_rank;
use crate::record::sum_candle_counts;
use crate::record::symbol_data_wf;
use crate::record::TimeframeInfo;
use crate::store::SymbolStore;
use crate::text::dec_digits;
use crate::text::push_dec_u64;
use crate::text::push_str;
use crate::text::to_upper;
use crate::text::upper_seq;
use crate::timeframe::convert_timeframe_to_display;
use crate::timeframe::tf_label_seq;

verus! {

/// One directory entry as the caller read it: the file name split into stem
/// and extension, the path it came from, and its text content.
pub struct SourceFile {
    pub stem: String,
    pub extension: String,
    pub path: String,
    pub content: String,
}

/// The success summary of one local acquisition.
#[derive(Debug)]
pub struct ProcessResult {
    pub success: bool,
    pub message: String,
    pub symbol: Option<String>,
    pub timeframes_processed: Vec<String>,
    pub total_candles: usize,
}

/// The entry is a data file: its extension is exactly `csv`.
pub open spec fn spec_is_csv(f: SourceFile) -> bool {
    f.extension@ == "csv"@
}

/// The validated row count of a file, zero when validation fails.
pub open spec fn spec_validate_count(content: Seq<char>) -> nat {
    match spec_validate_content(content) {
        Ok(c) => c,
        Err(_) => 0,
    }
}

/// The timeframe record one data file yields.
pub open spec fn tf_from_file(t: TimeframeInfo, f: SourceFile) -> bool {
    &&& t.name@ == upper_seq(f.stem@)
    &&& t.display_name@ == tf_label_seq(upper_seq(f.stem@))
    &&& t.candle_count as nat == spec_validate_count(f.content@)
    &&& t.file_path@ == f.path@
}

/// The first data file that fails validation, with its canonical token.
pub open spec fn spec_local_first_error(files: Seq<SourceFile>) -> Option<(Seq<char>, FormatError)>
    decreases files.len(),
{
    if files.len() == 0 {
        None
    } else if spec_is_csv(files[0]) && spec_validate_content(files[0].content@) is Err {
        match spec_validate_content(files[0].content@) {
            Err(e) => Some((upper_seq(files[0].stem@), e)),
            Ok(_) => None,
        }
    } else {
        spec_local_first_error(files.drop_first())
    }
}

/// `out` is exactly the records of the data files of `files`, in file
/// order, each validated successfully.
pub open spec fn spec_local_collect(files: Seq<SourceFile>, out: Seq<TimeframeInfo>) -> bool
    decreases files.len(),
{
    if files.len() == 0 {
        out.len() == 0
    } else if !spec_is_csv(files[0]) {
        spec_local_collect(files.drop_first(), out)
    } else {
        &&& spec_validate_content(files[0].content@) is Ok
        &&& out.len() > 0
        &&& tf_from_file(out[0], files[0])
        &&& spec_local_collect(files.drop_first(), out.drop_first())
    }
}

/// The sum of the validated row counts of all data files.
pub open spec fn spec_local_total(files: Seq<SourceFile>) -> int
    decreases files.len(),
{
    if files.len() == 0 {
        0
    } else {
        (if spec_is_csv(files[0]) {
            spec_validate_count(files[0].content@) as int
        } else {
            0
        }) + spec_local_total(files.drop_first())
    }
}

/// At least one entry is a data file.
pub open spec fn spec_has_csv(files: Seq<SourceFile>) -> bool {
    exists|i: int| 0 <= i < files.len() && spec_is_csv(files[i])
}

/// A collected list's candle sum is the files' total.
proof fn lemma_collect_sum(files: Seq<SourceFile>, out: Seq<TimeframeInfo>)
    requires
        spec_local_collect(files, out),
    ensures
        sum_candle_counts(out) == spec_local_total(files),
        out.len() == 0 <==> !spec_has_csv(files),
    decreases files.len(),
{
    if files.len() == 0 {
    } else if !spec_is_csv(files[0]) {
        lemma_collect_sum(files.drop_first(), out);
        if spec_has_csv(files.drop_first()) {
            let i = choose|i: int|
                0 <= i < files.drop_first().len() && spec_is_csv(files.drop_first()[i]);
            assert(files[i + 1] == files.drop_first()[i]);
        }
        if spec_has_csv(files) {
            let i = choose|i: int| 0 <= i < files.len() && spec_is_csv(files[i]);
            assert(i > 0);
            assert(files.drop_first()[i - 1] == files[i]);
        }
    } else {
        lemma_collect_sum(files.drop_first(), out.drop_first());
        crate::record::lemma_sum_front(out);
    }
}

/// Collects one timeframe record per data file, fail-fast on the first
/// validation error.
pub fn collect_local_timeframes(files: &Vec<SourceFile>) -> (r: Result<
    Vec<TimeframeInfo>,
    IngestError,
>)
    ensures
        match r {
            Ok(v) => spec_local_collect(files@, v@) && spec_local_first_error(files@) is None,
            Err(e) => {
                &&& spec_local_first_error(files@) is Some
                &&& (e matches IngestError::Format { timeframe, error } && Some(
                    (timeframe@, error),
                ) == spec_local_first_error(files@))
            },
        },
{
    let n = files.len();
    let mut out: Vec<TimeframeInfo> = Vec::new();
    let mut i: usize = 0;
    proof {
        assert(files@.skip(0) =~= files@);
    }
    while i < n
        invariant
            n == files@.len(),
            0 <= i <= n,
            spec_local_first_error(files@) == spec_local_first_error(files@.skip(i as int)),
            forall|rest: Seq<TimeframeInfo>|
                #[trigger] spec_local_collect(files@.skip(i as int), rest) ==> spec_local_collect(
                    files@,
                    out@ + rest,
                ),
        decreases n - i,
    {
        let ghost suf = files@.skip(i as int);
        proof {
            assert(suf.len() > 0);
            assert(suf[0] == files@[i as int]);
            assert(suf.drop_first() =~= files@.skip(i + 1));
        }
        let f = &files[i];
        let is_csv = crate::text::str_eq(f.extension.as_str(), "csv");
        proof {
            if !is_csv {
                assert forall|rest: Seq<TimeframeInfo>|
                    #[trigger] spec_local_collect(files@.skip(i + 1), rest) implies
                    spec_local_collect(files@, out@ + rest) by {
                    assert(spec_local_collect(suf, rest));
                }
            }
        }
        if is_csv {
            let token = to_upper(f.stem.as_str());
            match count_and_validate_csv(f.content.as_str()) {
                Err(e) => {
                    proof {
                        assert(spec_local_first_error(suf) == Some(
                            (upper_seq(f.stem@), e),
                        ));
                    }
                    return Err(IngestError::Format { timeframe: token, error: e });
                },
                Ok(count) => {
                    let display = convert_timeframe_to_display(token.as_str());
                    let info = TimeframeInfo {
                        name: token,
                        display_name: display,
                        candle_count: count,
                        file_path: f.path.clone(),
                    };
                    proof {
                        assert(tf_from_file(info, files@[i as int]));
                    }
                    let ghost out0 = out@;
                    out.push(info);
                    proof {
                        assert forall|rest: Seq<TimeframeInfo>|
                            #[trigger] spec_local_collect(files@.skip(i + 1), rest) implies
                            spec_local_collect(files@, out@ + rest) by {
                            assert(spec_local_collect(suf, seq![info] + rest)) by {
                                assert((seq![info] + rest)[0] == info);
                                assert((seq![info] + rest).drop_first() =~= rest);
                            }
                            assert(out0 + (seq![info] + rest) =~= (out0.push(info)) + rest);
                        }
                    }
                },
            }
        }
        i = i + 1;
    }
    proof {
        assert(files@.skip(n as int) =~= Seq::<SourceFile>::empty());
        assert(spec_local_collect(files@.skip(n as int), Seq::<TimeframeInfo>::empty()));
        assert(out@ + Seq::<TimeframeInfo>::empty() =~= out@);
    }
    Ok(out)
}

/// The success message of a local acquisition.
pub open spec fn spec_process_message(n: int, total: int) -> Seq<char> {
    "Successfully processed "@ + dec_digits(n as nat) + (if n == 1 {
        " timeframe"@
    } else {
        " timeframes"@
    }) + " with "@ + dec_digits(total as nat) + " total candles"@
}

pub fn build_process_message(n: usize, total: usize) -> (r: String)
    ensures
        r@ == spec_process_message(n as int, total as int),
{
    let mut s = String::new();
    push_str(&mut s, "Successfully processed ");
    push_dec_u64(&mut s, n as u64);
    if n == 1 {
        push_str(&mut s, " timeframe");
    } else {
        push_str(&mut s, " timeframes");
    }
    push_str(&mut s, " with ");
    push_dec_u64(&mut s, total as u64);
    push_str(&mut s, " total candles");
    proof {
        assert(Seq::<char>::empty() + spec_process_message(n as int, total as int)
            =~= spec_process_message(n as int, total as int));
        assert(s@ =~= spec_process_message(n as int, total as int));
    }
    s
}

/// Processes one chart folder: validates every data file, assembles the
/// record under the folder's upper-cased name, stamps it, and persists it —
/// overwriting any record already under that name, as a re-upload replaces
/// the record wholesale.
pub fn process_chart_folder_at(
    store: &mut SymbolStore,
    folder_name: &str,
    files: &Vec<SourceFile>,
    uploaded_at: String,
) -> (r: Result<ProcessResult, IngestError>)
    requires
        old(store).wf(),
        spec_local_total(files@) <= usize::MAX,
    ensures
        final(store).wf(),
        match r {
            Ok(res) => {
                let key = upper_seq(folder_name@);
                let d = final(store).lookup(key);
                &&& spec_local_first_error(files@) is None
                &&& spec_has_csv(files@)
                &&& res.success == true
                &&& (res.symbol matches Some(s) && s@ == key)
                &&& res.total_candles as int == spec_local_total(files@)
                &&& res.message@ == spec_process_message(
                    res.timeframes_processed@.len() as int,
                    res.total_candles as int,
                )
                &&& final(store).contains_key(key)
                &&& symbol_data_wf(d)
                &&& d.symbol@ == key
                &&& d.total_candles == res.total_candles
                &&& d.uploaded_at == uploaded_at
                &&& sorted_by_rank(d.timeframes@)
                &&& exists|cs: Seq<TimeframeInfo>|
                    spec_local_collect(files@, cs) && (forall|k: int|
                        #![auto]
                        0 <= k <= 15 ==> filter_rank(d.timeframes@, k) == filter_rank(cs, k))
                &&& res.timeframes_processed@.len() == d.timeframes@.len()
                &&& (forall|j: int|
                    0 <= j < d.timeframes@.len() ==> #[trigger] res.timeframes_processed@[j]@
                        == d.timeframes@[j].name@)
                &&& (forall|k: Seq<char>|
                    k != key ==> #[trigger] final(store).contains_key(k) == old(
                        store,
                    ).contains_key(k))
                &&& (forall|k: Seq<char>|
                    k != key && old(store).contains_key(k) ==> #[trigger] final(store).lookup(k)
                        == old(store).lookup(k))
            },
            Err(e) => {
                &&& *final(store) == *old(store)
                &&& match e {
                    IngestError::Format { timeframe, error } => Some((timeframe@, error))
                        == spec_local_first_error(files@),
                    IngestError::NoData => spec_local_first_error(files@) is None
                        && !spec_has_csv(files@),
                    _ => false,
                }
            },
        },
{
    let symbol = to_upper(folder_name);
    let collected = match collect_local_timeframes(files) {
        Ok(v) => v,
        Err(e) => {
            return Err(e);
        },
    };
    proof {
        lemma_collect_sum(files@, collected@);
    }
    if collected.len() == 0 {
        return Err(IngestError::NoData);
    }
    // names in sorted order come from the assembled record below
    let record = match assemble_symbol_record(symbol, collected, uploaded_at) {
        Ok(d) => d,
        Err(_) => {
            proof {
                assert(false);
            }
            return Err(IngestError::NoData);
        },
    };
    let mut names: Vec<String> = Vec::new();
    let mut j: usize = 0;
    while j < record.timeframes.len()
        invariant
            0 <= j <= record.timeframes@.len(),
            names@.len() == j,
            forall|m: int|
                0 <= m < j ==> #[trigger] names@[m]@ == record.timeframes@[m].name@,
        decreases record.timeframes@.len() - j,
    {
        names.push(record.timeframes[j].name.clone());
        j = j + 1;
    }
    let total = record.total_candles;
    let count = names.len();
    let message = build_process_message(count, total);
    let result_symbol = record.symbol.clone();
    proof {
        crate::timeframe::lemma_canonicalize_idempotent(folder_name@);
    }
    store.put(record);
    Ok(ProcessResult {
        success: true,
        message,
        symbol: Some(result_symbol),
        timeframes_processed: names,
        total_candles: total,
    })
}

/// `process_chart_folder_at`, stamped with the current UTC instant.
pub fn process_chart_folder(
    store: &mut SymbolStore,
    folder_name: &str,
    files: &Vec<SourceFile>,
) -> (r: Result<ProcessResult, IngestError>)
    requires
        old(store).wf(),
        spec_local_total(files@) <= usize::MAX,
    ensures
        final(store).wf(),
        match r {
            Ok(res) => {
                let key = upper_seq(folder_name@);
                let d = final(store).lookup(key);
                &&& spec_local_first_error(files@) is None
                &&& spec_has_csv(files@)
                &&& res.success == true
                &&& (res.symbol matches Some(s) && s@ == key)
                &&& res.total_candles as int == spec_local_total(files@)
                &&& res.message@ == spec_process_message(
                    res.timeframes_processed@.len() as int,
                    res.total_candles as int,
                )
                &&& final(store).contains_key(key)
                &&& symbol_data_wf(d)
                &&& d.symbol@ == key
                &&& d.total_candles == res.total_candles
                &&& d.uploaded_at@.len() > 0
                &&& sorted_by_rank(d.timeframes@)
                &&& exists|cs: Seq<TimeframeInfo>|
                    spec_local_collect(files@, cs) && (forall|k: int|
                        #![auto]
                        0 <= k <= 15 ==> filter_rank(d.timeframes@, k) == filter_rank(cs, k))
                &&& res.timeframes_processed@.len() == d.timeframes@.len()
                &&& (forall|j: int|
                    0 <= j < d.timeframes@.len() ==> #[trigger] res.timeframes_processed@[j]@
                        == d.timeframes@[j].name@)
                &&& (forall|k: Seq<char>|
                    k != key ==> #[trigger] final(store).contains_key(k) == old(
                        store,
                    ).contains_key(k))
                &&& (forall|k: Seq<char>|
                    k != key && old(store).contains_key(k) ==> #[trigger] final(store).lookup(k)
                        == old(store).lookup(k))
            },
            Err(e) => {
                &&& *final(store) == *old(store)
                &&& match e {
                    IngestError::Format { timeframe, error } => Some((timeframe@, error))
                        == spec_local_first_error(files@),
                    IngestError::NoData => spec_local_first_error(files@) is None
                        && !spec_has_csv(files@),
                    _ => false,
                }
            },
        },
{
    let uploaded_at = now_utc_rfc3339();
    process_chart_folder_at(store, folder_name, files, uploaded_at)
}

} // verus!
