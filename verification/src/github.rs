//! The repository content acquirer: decides which listed entries to
//! download, counts candle rows of downloaded text, and assembles and
//! persists per-symbol records. The caller performs the network listing and
//! downloads and hands the results over; a failed download is a skipped
//! timeframe, never a fatal error.
use vstd::prelude::*;

use crate::assemble::assemble_symbol_record;
use crate::error::IngestError;
use crate::record::filter_rank;
use crate::record::sorted_by_rank;
use crate::record::sum_candle_counts;
use crate::record::symbol_data_wf;
use crate::record::TimeframeInfo;
use crate::store::check_symbol_exists;
use crate::store::SymbolStore;
use crate::text::dec_digits;
use crate::text::is_blank;
use crate::text::is_blank_seq;
use crate::text::line_seqs;
use crate::text::lines_of;
use crate::text::push_dec_u64;
use crate::text::push_str;
use crate::text::split_char_spec;
use crate::text::split_str;
use crate::text::str_eq;
use crate::text::to_upper;
use crate::text::upper_seq;
use crate::text::views_of;
use crate::timeframe::convert_timeframe_to_display;
use crate::timeframe::is_canonical_code;
use crate::timeframe::is_valid_timeframe;
use crate::timeframe::tf_label_seq;

verus! {

/// A repository acquisition request.
#[derive(Debug, Clone)]
pub struct GitHubRequest {
    pub repo_url: String,
    pub branch: String,
    /// `single` for data files at the repository root, `multi` for one
    /// subdirectory per symbol.
    pub structure_type: String,
    /// For `multi`: the one symbol to download, or none for all of them.
    pub symbol_name: Option<String>,
}

/// The batch outcome of a repository acquisition.
#[derive(Debug)]
pub struct GitHubResult {
    pub success: bool,
    pub message: String,
    pub symbols_processed: Vec<String>,
    pub total_timeframes: usize,
}

/// One entry of a remote directory listing.
#[derive(Debug, Clone)]
pub struct GitHubContent {
    pub name: String,
    pub path: String,
    pub content_type: String,
    pub download_url: Option<String>,
}

// --- the repository reference ---

/// The reference without trailing slashes.
pub open spec fn strip_trailing_slashes(s: Seq<char>) -> Seq<char>
    decreases s.len(),
{
    if s.len() > 0 && s.last() == '/' {
        strip_trailing_slashes(s.drop_last())
    } else {
        s
    }
}

/// Strips every leading repetition of `p`.
pub open spec fn strip_prefix_rep(s: Seq<char>, p: Seq<char>) -> Seq<char>
    decreases s.len(),
{
    if p.len() > 0 && s.len() >= p.len() && s.take(p.len() as int) == p {
        strip_prefix_rep(s.skip(p.len() as int), p)
    } else {
        s
    }
}

/// The owner and repository named by a reference: scheme and host dropped,
/// then the first two path segments.
pub open spec fn spec_parse_repo_url(url: Seq<char>) -> Option<(Seq<char>, Seq<char>)> {
    let t0 = strip_trailing_slashes(url);
    let t1 = strip_prefix_rep(t0, "https://"@);
    let t2 = strip_prefix_rep(t1, "http://"@);
    let t3 = strip_prefix_rep(t2, "github.com/"@);
    let parts = split_char_spec(t3, '/');
    if parts.len() >= 2 {
        Some((parts[0], parts[1]))
    } else {
        None
    }
}

fn matches_at(s: &str, from: usize, p: &str) -> (r: bool)
    requires
        from <= s@.len(),
    ensures
        r == (s@.len() - from >= p@.len() && s@.skip(from as int).take(p@.len() as int) == p@),
{
    let n = s.unicode_len();
    let m = p.unicode_len();
    if n - from < m {
        return false;
    }
    let mut k: usize = 0;
    while k < m
        invariant
            n == s@.len(),
            m == p@.len(),
            from + m <= n,
            0 <= k <= m,
            forall|t: int| 0 <= t < k ==> s@[from + t] == p@[t],
        decreases m - k,
    {
        if s.get_char(from + k) != p.get_char(k) {
            proof {
                assert(s@.skip(from as int).take(m as int)[k as int] == s@[from + k]);
            }
            return false;
        }
        k = k + 1;
    }
    proof {
        assert(s@.skip(from as int).take(m as int) =~= p@);
    }
    true
}

fn skip_prefix_rep(s: &str, from: usize, p: &str) -> (r: usize)
    requires
        from <= s@.len(),
        p@.len() > 0,
    ensures
        from <= r <= s@.len(),
        s@.skip(r as int) == strip_prefix_rep(s@.skip(from as int), p@),
    decreases s@.len() - from,
{
    let total = s.unicode_len();
    if matches_at(s, from, p) {
        let m = p.unicode_len();
        proof {
            assert(from + m <= total);
            assert(s@.skip(from as int).skip(m as int) =~= s@.skip(from + m));
        }
        skip_prefix_rep(s, from + m, p)
    } else {
        from
    }
}

/// Parses a repository reference into owner and repository name; fails with
/// `InvalidUrl` exactly when fewer than two path segments remain.
pub fn parse_github_url(url: &str) -> (r: Result<(String, String), IngestError>)
    ensures
        match r {
            Ok(p) => spec_parse_repo_url(url@) == Some((p.0@, p.1@)),
            Err(e) => spec_parse_repo_url(url@) is None && e == IngestError::InvalidUrl,
        },
{
    let n = s_len(url);
    let mut end: usize = n;
    proof {
        reveal_strlit("https://");
        reveal_strlit("http://");
        reveal_strlit("github.com/");
        assert(url@.take(n as int) =~= url@);
    }
    while end > 0 && url.get_char(end - 1) == '/'
        invariant
            n == url@.len(),
            0 <= end <= n,
            strip_trailing_slashes(url@) == strip_trailing_slashes(url@.take(end as int)),
        decreases end,
    {
        proof {
            assert(url@.take(end as int).drop_last() =~= url@.take(end - 1));
            assert(url@.take(end as int).last() == url@[end - 1]);
        }
        end = end - 1;
    }
    let trimmed = url.substring_char(0, end);
    proof {
        assert(url@.take(end as int) =~= trimmed@);
        if end > 0 {
            assert(url@.take(end as int).last() == url@[end - 1]);
        }
        assert(strip_trailing_slashes(trimmed@) == trimmed@);
    }
    proof {
        reveal_strlit("https://");
        reveal_strlit("http://");
        reveal_strlit("github.com/");
    }
    let a1 = skip_prefix_rep(trimmed, 0, "https://");
    let a2 = skip_prefix_rep(trimmed, a1, "http://");
    let a3 = skip_prefix_rep(trimmed, a2, "github.com/");
    let tail = trimmed.substring_char(a3, trimmed.unicode_len());
    proof {
        assert(trimmed@.skip(0) =~= trimmed@);
        assert(tail@ =~= trimmed@.skip(a3 as int));
    }
    let parts = split_str(tail, '/');
    if parts.len() >= 2 {
        let owner = parts[0].clone();
        let repo = parts[1].clone();
        proof {
            assert(views_of(parts@)[0] == parts@[0]@);
            assert(views_of(parts@)[1] == parts@[1]@);
        }
        Ok((owner, repo))
    } else {
        Err(IngestError::InvalidUrl)
    }
}

fn s_len(s: &str) -> (r: usize)
    ensures
        r == s@.len(),
{
    s.unicode_len()
}

/// The branch to list: `main` when the request leaves it empty.
pub fn effective_branch(branch: &str) -> (r: String)
    ensures
        branch@.len() == 0 ==> r@ == "main"@,
        branch@.len() > 0 ==> r@ == branch@,
{
    if s_len(branch) == 0 {
        String::from_str("main")
    } else {
        branch.to_owned()
    }
}

// --- entry selection ---

/// The upper-cased timeframe token of a data file name, when the name ends
/// in `.csv` in any letter case.
pub open spec fn spec_csv_token(name: Seq<char>) -> Option<Seq<char>> {
    let u = upper_seq(name);
    if u.len() >= 4 && u.skip(u.len() - 4) == ".CSV"@ {
        Some(u.take(u.len() - 4))
    } else {
        None
    }
}

/// The timeframe token of a file name, when it is a `.csv` name.
pub fn csv_timeframe_token(name: &str) -> (r: Option<String>)
    ensures
        match r {
            Some(t) => spec_csv_token(name@) == Some(t@),
            None => spec_csv_token(name@) is None,
        },
{
    let up = to_upper(name);
    let n = up.as_str().unicode_len();
    if n < 4 {
        return None;
    }
    let suffix = up.as_str().substring_char(n - 4, n);
    proof {
        assert(suffix@ =~= up@.skip(n - 4));
    }
    if str_eq(suffix, ".CSV") {
        let token = up.as_str().substring_char(0, n - 4).to_owned();
        proof {
            assert(token@ =~= up@.take(n - 4));
        }
        Some(token)
    } else {
        None
    }
}

/// The entry is a data file: a file whose name ends in `.csv`.
pub open spec fn spec_entry_csv_file(e: GitHubContent) -> bool {
    e.content_type@ == "file"@ && spec_csv_token(e.name@) is Some
}

/// The entry will be downloaded: a data file whose token is a canonical
/// timeframe code and that has a download address.
pub open spec fn spec_entry_planned(e: GitHubContent) -> bool {
    &&& spec_entry_csv_file(e)
    &&& (match spec_csv_token(e.name@) {
        Some(t) => is_canonical_code(t),
        None => false,
    })
    &&& e.download_url is Some
}

/// One download the plan asks the caller for.
#[derive(Debug, Clone)]
pub struct PlannedDownload {
    pub timeframe: String,
    pub url: String,
}

/// `out` is exactly the planned downloads of `entries`, in listing order.
pub open spec fn spec_plan(entries: Seq<GitHubContent>, out: Seq<PlannedDownload>) -> bool
    decreases entries.len(),
{
    if entries.len() == 0 {
        out.len() == 0
    } else if spec_entry_planned(entries[0]) {
        &&& out.len() > 0
        &&& Some(out[0].timeframe@) == spec_csv_token(entries[0].name@)
        &&& (match entries[0].download_url {
            Some(u) => out[0].url@ == u@,
            None => false,
        })
        &&& spec_plan(entries.drop_first(), out.drop_first())
    } else {
        spec_plan(entries.drop_first(), out)
    }
}

/// Some listed entry is a data file.
pub open spec fn spec_has_csv_entry(entries: Seq<GitHubContent>) -> bool {
    exists|i: int| 0 <= i < entries.len() && spec_entry_csv_file(entries[i])
}

/// Chooses the entries to download: data files with a canonical timeframe
/// token and a download address, in listing order. Fails with `NoData`
/// exactly when the listing holds no data file at all; tokens outside the
/// canonical set are skipped, not fatal.
pub fn plan_repo_downloads(entries: &Vec<GitHubContent>) -> (r: Result<
    Vec<PlannedDownload>,
    IngestError,
>)
    ensures
        match r {
            Ok(v) => spec_plan(entries@, v@) && spec_has_csv_entry(entries@),
            Err(e) => e == IngestError::NoData && !spec_has_csv_entry(entries@),
        },
{
    let n = entries.len();
    let mut out: Vec<PlannedDownload> = Vec::new();
    let mut saw_csv = false;
    let mut i: usize = 0;
    proof {
        assert(entries@.skip(0) =~= entries@);
    }
    while i < n
        invariant
            n == entries@.len(),
            0 <= i <= n,
            saw_csv == exists|k: int| 0 <= k < i && spec_entry_csv_file(entries@[k]),
            forall|rest: Seq<PlannedDownload>|
                #[trigger] spec_plan(entries@.skip(i as int), rest) ==> spec_plan(
                    entries@,
                    out@ + rest,
                ),
        decreases n - i,
    {
        let ghost suf = entries@.skip(i as int);
        proof {
            assert(suf[0] == entries@[i as int]);
            assert(suf.drop_first() =~= entries@.skip(i + 1));
        }
        let e = &entries[i];
        let is_file = str_eq(e.content_type.as_str(), "file");
        let token = csv_timeframe_token(e.name.as_str());
        let is_csv = is_file && token.is_some();
        if is_csv {
            saw_csv = true;
            proof {
                assert(spec_entry_csv_file(entries@[i as int]));
            }
        }
        let planned: Option<PlannedDownload> = if is_csv {
            let t = match token {
                Some(t) => t,
                None => {
                    proof {
                        assert(false);
                    }
                    return Err(IngestError::NoData);
                },
            };
            proof {
                // the token is already upper-case, so upper-casing it again
                // changes nothing and validity speaks of the token itself
                let u = upper_seq(e.name@);
                assert(t@ == u.take(u.len() - 4));
                assert forall|m: int| 0 <= m < t@.len() implies upper_seq(t@)[m] == t@[m] by {
                    let c = e.name@[m];
                    assert(t@[m] == crate::text::upper_char(c));
                    if 'a' <= c && c <= 'z' {
                        assert(!('a' <= crate::text::upper_char(c) && crate::text::upper_char(c)
                            <= 'z'));
                    }
                }
                assert(upper_seq(t@) =~= t@);
            }
            if is_valid_timeframe(t.as_str()) {
                match &e.download_url {
                    Some(u) => Some(PlannedDownload { timeframe: t, url: u.clone() }),
                    None => None,
                }
            } else {
                None
            }
        } else {
            None
        };
        proof {
            if !spec_entry_planned(entries@[i as int]) {
                assert forall|rest: Seq<PlannedDownload>|
                    #[trigger] spec_plan(entries@.skip(i + 1), rest) implies spec_plan(
                    entries@,
                    out@ + rest,
                ) by {
                    assert(spec_plan(suf, rest));
                }
            }
        }
        match planned {
            Some(p) => {
                let ghost out0 = out@;
                proof {
                    assert(spec_entry_planned(entries@[i as int]));
                }
                out.push(p);
                proof {
                    assert forall|rest: Seq<PlannedDownload>|
                        #[trigger] spec_plan(entries@.skip(i + 1), rest) implies spec_plan(
                        entries@,
                        out@ + rest,
                    ) by {
                        assert(spec_plan(suf, seq![p] + rest)) by {
                            assert((seq![p] + rest)[0] == p);
                            assert((seq![p] + rest).drop_first() =~= rest);
                        }
                        assert(out0 + (seq![p] + rest) =~= out0.push(p) + rest);
                    }
                }
            },
            None => {
                proof {
                    if spec_entry_planned(entries@[i as int]) {
                        assert(false);
                    }
                }
            },
        }
        i = i + 1;
    }
    proof {
        if saw_csv {
            let k = choose|k: int| 0 <= k < n && spec_entry_csv_file(entries@[k]);
            assert(spec_has_csv_entry(entries@));
        }
        assert(entries@.skip(n as int) =~= Seq::<GitHubContent>::empty());
        assert(spec_plan(entries@.skip(n as int), Seq::<PlannedDownload>::empty()));
        assert(out@ + Seq::<PlannedDownload>::empty() =~= out@);
    }
    if saw_csv {
        Ok(out)
    } else {
        Err(IngestError::NoData)
    }
}

// --- counting rows of downloaded text ---

/// How many of these lines hold anything outside whitespace.
pub open spec fn count_nonblank(ls: Seq<Seq<char>>) -> nat
    decreases ls.len(),
{
    if ls.len() == 0 {
        0
    } else {
        count_nonblank(ls.drop_last()) + (if is_blank_seq(ls.last()) {
            0nat
        } else {
            1nat
        })
    }
}

/// The candle rows of downloaded text: its non-blank lines less the header
/// line, and zero when nothing is left.
pub open spec fn spec_count_candle_rows(content: Seq<char>) -> nat {
    let c = count_nonblank(line_seqs(content));
    if c == 0 {
        0
    } else {
        (c - 1) as nat
    }
}

/// Counts candle rows as non-blank lines minus the header; row content is
/// trusted for the count only, without numeric validation.
pub fn count_csv_lines(content: &str) -> (r: usize)
    ensures
        r == spec_count_candle_rows(content@),
{
    let lines = lines_of(content);
    let ghost lv = line_seqs(content@);
    let n = lines.len();
    let mut c: usize = 0;
    let mut i: usize = 0;
    proof {
        assert(lv.take(0) =~= Seq::<Seq<char>>::empty());
    }
    while i < n
        invariant
            n == lines@.len(),
            lv == views_of(lines@),
            0 <= i <= n,
            c <= i,
            c == count_nonblank(lv.take(i as int)),
        decreases n - i,
    {
        proof {
            assert(lv.take(i + 1).drop_last() =~= lv.take(i as int));
            assert(lv.take(i + 1).last() == lv[i as int]);
            assert(lv[i as int] == lines@[i as int]@);
        }
        if !is_blank(lines[i].as_str()) {
            c = c + 1;
        }
        i = i + 1;
    }
    proof {
        assert(lv.take(n as int) =~= lv);
    }
    if c == 0 {
        0
    } else {
        c - 1
    }
}

// --- downloaded content, one file per timeframe ---

/// One planned download as the caller completed it: the timeframe token,
/// the staging path the caller wrote the text to, and the text itself, or
/// nothing when the download failed — a failed download only skips this
/// timeframe.
pub struct FetchedFile {
    pub timeframe: String,
    pub path: String,
    pub content: Option<String>,
}

/// The candle rows a fetched file contributes.
pub open spec fn spec_fetch_count(f: FetchedFile) -> nat {
    match f.content {
        Some(c) => spec_count_candle_rows(c@),
        None => 0,
    }
}

/// The timeframe record one fetched file yields.
pub open spec fn tf_from_fetch(t: TimeframeInfo, f: FetchedFile) -> bool {
    &&& f.content is Some
    &&& t.name@ == f.timeframe@
    &&& t.display_name@ == tf_label_seq(f.timeframe@)
    &&& t.candle_count as nat == spec_fetch_count(f)
    &&& t.file_path@ == f.path@
}

/// `out` is exactly the records of the successfully fetched files, in
/// order.
pub open spec fn spec_repo_collect(files: Seq<FetchedFile>, out: Seq<TimeframeInfo>) -> bool
    decreases files.len(),
{
    if files.len() == 0 {
        out.len() == 0
    } else if files[0].content is None {
        spec_repo_collect(files.drop_first(), out)
    } else {
        &&& out.len() > 0
        &&& tf_from_fetch(out[0], files[0])
        &&& spec_repo_collect(files.drop_first(), out.drop_first())
    }
}

/// The candle total over all fetched files.
pub open spec fn spec_repo_total(files: Seq<FetchedFile>) -> int
    decreases files.len(),
{
    if files.len() == 0 {
        0
    } else {
        spec_fetch_count(files[0]) + spec_repo_total(files.drop_first())
    }
}

/// At least one download succeeded.
pub open spec fn spec_has_fetch(files: Seq<FetchedFile>) -> bool {
    exists|i: int| 0 <= i < files.len() && files[i].content is Some
}

proof fn lemma_repo_collect_sum(files: Seq<FetchedFile>, out: Seq<TimeframeInfo>)
    requires
        spec_repo_collect(files, out),
    ensures
        sum_candle_counts(out) == spec_repo_total(files),
        out.len() == 0 <==> !spec_has_fetch(files),
        out.len() <= files.len(),
    decreases files.len(),
{
    if files.len() == 0 {
    } else if files[0].content is None {
        lemma_repo_collect_sum(files.drop_first(), out);
        if spec_has_fetch(files.drop_first()) {
            let i = choose|i: int|
                0 <= i < files.drop_first().len() && files.drop_first()[i].content is Some;
            assert(files[i + 1] == files.drop_first()[i]);
        }
        if spec_has_fetch(files) {
            let i = choose|i: int| 0 <= i < files.len() && files[i].content is Some;
            assert(i > 0);
            assert(files.drop_first()[i - 1] == files[i]);
        }
    } else {
        lemma_repo_collect_sum(files.drop_first(), out.drop_first());
        crate::record::lemma_sum_front(out);
    }
}

/// Builds one timeframe record per successful download, counting candle
/// rows; failed downloads are skipped.
pub fn collect_fetched_timeframes(files: &Vec<FetchedFile>) -> (r: Vec<TimeframeInfo>)
    ensures
        spec_repo_collect(files@, r@),
{
    let n = files.len();
    let mut out: Vec<TimeframeInfo> = Vec::new();
    let mut i: usize = 0;
    proof {
        assert(files@.skip(0) =~= files@);
    }
    while i < n
        invariant
            n == files@.len(),
            0 <= i <= n,
            forall|rest: Seq<TimeframeInfo>|
                #[trigger] spec_repo_collect(files@.skip(i as int), rest) ==> spec_repo_collect(
                    files@,
                    out@ + rest,
                ),
        decreases n - i,
    {
        let ghost suf = files@.skip(i as int);
        proof {
            assert(suf[0] == files@[i as int]);
            assert(suf.drop_first() =~= files@.skip(i + 1));
        }
        let f = &files[i];
        match &f.content {
            Some(content) => {
                let count = count_csv_lines(content.as_str());
                let display = convert_timeframe_to_display(f.timeframe.as_str());
                let info = TimeframeInfo {
                    name: f.timeframe.clone(),
                    display_name: display,
                    candle_count: count,
                    file_path: f.path.clone(),
                };
                proof {
                    assert(tf_from_fetch(info, files@[i as int]));
                }
                let ghost out0 = out@;
                out.push(info);
                proof {
                    assert forall|rest: Seq<TimeframeInfo>|
                        #[trigger] spec_repo_collect(files@.skip(i + 1), rest) implies
                        spec_repo_collect(files@, out@ + rest) by {
                        assert(spec_repo_collect(suf, seq![info] + rest)) by {
                            assert((seq![info] + rest)[0] == info);
                            assert((seq![info] + rest).drop_first() =~= rest);
                        }
                        assert(out0 + (seq![info] + rest) =~= out0.push(info) + rest);
                    }
                }
            },
            None => {
                proof {
                    assert forall|rest: Seq<TimeframeInfo>|
                        #[trigger] spec_repo_collect(files@.skip(i + 1), rest) implies
                        spec_repo_collect(files@, out@ + rest) by {
                        assert(spec_repo_collect(suf, rest));
                    }
                }
            },
        }
        i = i + 1;
    }
    proof {
        assert(files@.skip(n as int) =~= Seq::<FetchedFile>::empty());
        assert(spec_repo_collect(files@.skip(n as int), Seq::<TimeframeInfo>::empty()));
        assert(out@ + Seq::<TimeframeInfo>::empty() =~= out@);
    }
    out
}

/// Assembles and persists one symbol from its fetched files; the record is
/// keyed by the upper-cased symbol name and overwrites — callers check
/// existence first. Fails with `NoValidTimeframes` exactly when no
/// download succeeded.
pub fn process_symbol_folder(
    store: &mut SymbolStore,
    symbol_name: &str,
    files: &Vec<FetchedFile>,
    uploaded_at: String,
) -> (r: Result<(String, usize), IngestError>)
    requires
        old(store).wf(),
        spec_repo_total(files@) <= usize::MAX,
    ensures
        final(store).wf(),
        match r {
            Ok(p) => {
                let key = upper_seq(symbol_name@);
                let d = final(store).lookup(key);
                &&& spec_has_fetch(files@)
                &&& p.0@ == key
                &&& p.1 == d.timeframes@.len()
                &&& p.1 <= files@.len()
                &&& final(store).contains_key(key)
                &&& symbol_data_wf(d)
                &&& d.symbol@ == key
                &&& d.uploaded_at == uploaded_at
                &&& d.total_candles as int == spec_repo_total(files@)
                &&& sorted_by_rank(d.timeframes@)
                &&& exists|cs: Seq<TimeframeInfo>|
                    spec_repo_collect(files@, cs) && (forall|k: int|
                        #![auto]
                        0 <= k <= 15 ==> filter_rank(d.timeframes@, k) == filter_rank(cs, k))
                &&& (forall|k: Seq<char>|
                    k != key ==> #[trigger] final(store).contains_key(k) == old(
                        store,
                    ).contains_key(k))
                &&& (forall|k: Seq<char>|
                    k != key && old(store).contains_key(k) ==> #[trigger] final(store).lookup(k)
                        == old(store).lookup(k))
            },
            Err(e) => *final(store) == *old(store) && e == IngestError::NoValidTimeframes
                && !spec_has_fetch(files@),
        },
{
    let symbol = to_upper(symbol_name);
    let collected = collect_fetched_timeframes(files);
    proof {
        lemma_repo_collect_sum(files@, collected@);
    }
    if collected.len() == 0 {
        return Err(IngestError::NoValidTimeframes);
    }
    let record = match assemble_symbol_record(symbol, collected, uploaded_at) {
        Ok(d) => d,
        Err(_) => {
            proof {
                assert(false);
            }
            return Err(IngestError::NoValidTimeframes);
        },
    };
    let sym_out = record.symbol.clone();
    let ntf = record.timeframes.len();
    proof {
        crate::timeframe::lemma_canonicalize_idempotent(symbol_name@);
    }
    store.put(record);
    Ok((sym_out, ntf))
}

// --- the batch outcome ---

/// The success message of a repository acquisition.
pub open spec fn spec_repo_message(ns: int, ntf: int) -> Seq<char> {
    "Successfully downloaded "@ + dec_digits(ns as nat) + (if ns == 1 {
        " symbol"@
    } else {
        " symbols"@
    }) + " with "@ + dec_digits(ntf as nat) + (if ntf == 1 {
        " total timeframe"@
    } else {
        " total timeframes"@
    })
}

pub fn build_repo_message(ns: usize, ntf: usize) -> (r: String)
    ensures
        r@ == spec_repo_message(ns as int, ntf as int),
{
    let mut s = String::new();
    push_str(&mut s, "Successfully downloaded ");
    push_dec_u64(&mut s, ns as u64);
    if ns == 1 {
        push_str(&mut s, " symbol");
    } else {
        push_str(&mut s, " symbols");
    }
    push_str(&mut s, " with ");
    push_dec_u64(&mut s, ntf as u64);
    if ntf == 1 {
        push_str(&mut s, " total timeframe");
    } else {
        push_str(&mut s, " total timeframes");
    }
    proof {
        assert(Seq::<char>::empty() + spec_repo_message(ns as int, ntf as int)
            =~= spec_repo_message(ns as int, ntf as int));
        assert(s@ =~= spec_repo_message(ns as int, ntf as int));
    }
    s
}

/// How a repository request is to be walked.
#[derive(Debug, Clone, Copy, PartialEq, Eq, Structural)]
pub enum RepoMode {
    /// Data files at the repository root, one symbol.
    Single,
    /// One named symbol out of a multi-symbol repository.
    MultiOne,
    /// Every top-level subdirectory is a candidate symbol.
    MultiAll,
}

/// Reads the request's structure mode; `single` and `multi` are the only
/// modes, and `multi` downloads everything unless one symbol is named.
pub fn classify_repo_request(structure_type: &str, has_symbol: bool) -> (r: Result<
    RepoMode,
    IngestError,
>)
    ensures
        match r {
            Ok(m) => (structure_type@ == "single"@ && m == RepoMode::Single) || (structure_type@
                == "multi"@ && has_symbol && m == RepoMode::MultiOne) || (structure_type@
                == "multi"@ && !has_symbol && m == RepoMode::MultiAll),
            Err(e) => e == IngestError::InvalidStructureType && structure_type@ != "single"@
                && structure_type@ != "multi"@,
        },
{
    if str_eq(structure_type, "single") {
        Ok(RepoMode::Single)
    } else if str_eq(structure_type, "multi") {
        if has_symbol {
            Ok(RepoMode::MultiOne)
        } else {
            Ok(RepoMode::MultiAll)
        }
    } else {
        Err(IngestError::InvalidStructureType)
    }
}

/// Reads a whole repository request into its parts: owner and repository
/// from the reference, the branch to list (default `main`), and the walk
/// mode.
pub fn plan_github_request(req: &GitHubRequest) -> (r: Result<
    (String, String, String, RepoMode),
    IngestError,
>)
    ensures
        match r {
            Ok(p) => {
                &&& spec_parse_repo_url(req.repo_url@) == Some((p.0@, p.1@))
                &&& (req.branch@.len() == 0 ==> p.2@ == "main"@)
                &&& (req.branch@.len() > 0 ==> p.2@ == req.branch@)
                &&& ((req.structure_type@ == "single"@ && p.3 == RepoMode::Single) || (
                req.structure_type@ == "multi"@ && req.symbol_name is Some && p.3
                    == RepoMode::MultiOne) || (req.structure_type@ == "multi"@
                    && req.symbol_name is None && p.3 == RepoMode::MultiAll))
            },
            Err(e) => match e {
                IngestError::InvalidUrl => spec_parse_repo_url(req.repo_url@) is None,
                IngestError::InvalidStructureType => spec_parse_repo_url(req.repo_url@) is Some
                    && req.structure_type@ != "single"@ && req.structure_type@ != "multi"@,
                _ => false,
            },
        },
{
    let (owner, repo) = match parse_github_url(req.repo_url.as_str()) {
        Ok(p) => p,
        Err(e) => {
            return Err(e);
        },
    };
    let branch = effective_branch(req.branch.as_str());
    let has_symbol = match &req.symbol_name {
        Some(_) => true,
        None => false,
    };
    let mode = match classify_repo_request(req.structure_type.as_str(), has_symbol) {
        Ok(m) => m,
        Err(e) => {
            return Err(e);
        },
    };
    Ok((owner, repo, branch, mode))
}

/// The symbol a single-mode request targets: the explicit override when
/// one is named, else the repository's own name.
pub fn single_target(symbol_name: &Option<String>, repo: &str) -> (r: String)
    ensures
        symbol_name matches Some(s) ==> r@ == s@,
        symbol_name is None ==> r@ == repo@,
{
    match symbol_name {
        Some(s) => s.clone(),
        None => repo.to_owned(),
    }
}

/// Acquires one symbol — the `single` and `multi`-with-symbol paths: fails
/// fast with `AlreadyExists` before anything else when the target is
/// persisted, and otherwise assembles and persists the fetched files under
/// the upper-cased name.
pub fn fetch_github_single(
    store: &mut SymbolStore,
    symbol_name: &str,
    files: &Vec<FetchedFile>,
    uploaded_at: String,
) -> (r: Result<GitHubResult, IngestError>)
    requires
        old(store).wf(),
        spec_repo_total(files@) <= usize::MAX,
    ensures
        final(store).wf(),
        match r {
            Ok(res) => {
                let key = upper_seq(symbol_name@);
                let d = final(store).lookup(key);
                &&& !old(store).contains_key(key)
                &&& spec_has_fetch(files@)
                &&& res.success == true
                &&& res.symbols_processed@.len() == 1
                &&& res.symbols_processed@[0]@ == key
                &&& res.total_timeframes == d.timeframes@.len()
                &&& res.message@ == spec_repo_message(1, res.total_timeframes as int)
                &&& final(store).contains_key(key)
                &&& symbol_data_wf(d)
                &&& d.uploaded_at == uploaded_at
                &&& d.total_candles as int == spec_repo_total(files@)
                &&& (forall|k: Seq<char>|
                    k != key ==> #[trigger] final(store).contains_key(k) == old(
                        store,
                    ).contains_key(k))
            },
            Err(e) => *final(store) == *old(store) && match e {
                IngestError::AlreadyExists { symbol: s } => old(store).contains_key(
                    upper_seq(symbol_name@),
                ) && s@ == upper_seq(symbol_name@),
                IngestError::NoValidTimeframes => !old(store).contains_key(
                    upper_seq(symbol_name@),
                ) && !spec_has_fetch(files@),
                _ => false,
            },
        },
{
    let key = to_upper(symbol_name);
    match check_symbol_exists(store, key.as_str()) {
        Err(e) => {
            return Err(e);
        },
        Ok(_) => {},
    }
    let (sym, ntf) = match process_symbol_folder(store, symbol_name, files, uploaded_at) {
        Ok(p) => p,
        Err(e) => {
            return Err(e);
        },
    };
    let message = build_repo_message(1, ntf);
    let mut processed: Vec<String> = Vec::new();
    processed.push(sym);
    Ok(GitHubResult { success: true, message, symbols_processed: processed, total_timeframes: ntf })
}

// --- the multi-symbol batch ---

/// One candidate symbol of a multi-symbol repository, with its fetched
/// files.
pub struct SymbolFolder {
    pub name: String,
    pub files: Vec<FetchedFile>,
}

/// The number of fetched files over all folders.
pub open spec fn spec_folder_files_total(folders: Seq<SymbolFolder>) -> int
    decreases folders.len(),
{
    if folders.len() == 0 {
        0
    } else {
        folders[0].files@.len() + spec_folder_files_total(folders.drop_first())
    }
}

proof fn lemma_folder_total_take(folders: Seq<SymbolFolder>, j: int)
    requires
        0 <= j <= folders.len(),
    ensures
        spec_folder_files_total(folders.take(j)) <= spec_folder_files_total(folders),
        spec_folder_files_total(folders.take(j)) >= 0,
        j < folders.len() ==> spec_folder_files_total(folders.take(j + 1))
            == spec_folder_files_total(folders.take(j)) + folders[j].files@.len(),
    decreases folders.len() + folders.len() - j,
{
    lemma_folder_total_front(folders.take(j));
    if j < folders.len() {
        lemma_folder_total_concat(folders.take(j), folders[j]);
        assert(folders.take(j).push(folders[j]) =~= folders.take(j + 1));
        lemma_folder_total_take(folders, j + 1);
    } else {
        assert(folders.take(j) =~= folders);
    }
}

proof fn lemma_folder_total_front(folders: Seq<SymbolFolder>)
    ensures
        spec_folder_files_total(folders) >= 0,
    decreases folders.len(),
{
    if folders.len() > 0 {
        lemma_folder_total_front(folders.drop_first());
    }
}

proof fn lemma_folder_total_concat(folders: Seq<SymbolFolder>, x: SymbolFolder)
    ensures
        spec_folder_files_total(folders.push(x)) == spec_folder_files_total(folders)
            + x.files@.len(),
    decreases folders.len(),
{
    if folders.len() == 0 {
        assert(folders.push(x)[0] == x);
        assert(folders.push(x).drop_first() =~= Seq::<SymbolFolder>::empty());
        assert(spec_folder_files_total(Seq::<SymbolFolder>::empty()) == 0);
    } else {
        assert(folders.push(x)[0] == folders[0]);
        assert(folders.push(x).drop_first() =~= folders.drop_first().push(x));
        lemma_folder_total_concat(folders.drop_first(), x);
    }
}

/// Every key of the new store was already persisted or is one of the
/// processed names: a batch adds nothing else.
pub open spec fn spec_keys_bounded(
    old_s: SymbolStore,
    new_s: SymbolStore,
    names: Seq<String>,
) -> bool {
    forall|k: Seq<char>|
        #[trigger] new_s.contains_key(k) ==> old_s.contains_key(k) || exists|j: int|
            0 <= j < names.len() && names[j]@ == k
}

/// Every candidate folder is accounted for: processed under its upper-cased
/// name, skipped because that name was already persisted, or passed over
/// because none of its downloads was usable.
pub open spec fn spec_folders_covered(
    old_s: SymbolStore,
    folders: Seq<SymbolFolder>,
    names: Seq<String>,
) -> bool {
    forall|i: int|
        0 <= i < folders.len() ==> (exists|j: int|
            0 <= j < names.len() && names[j]@ == upper_seq(#[trigger] folders[i].name@))
            || old_s.contains_key(upper_seq(folders[i].name@)) || !spec_has_fetch(
            folders[i].files@,
        )
}

/// The timeframe counts of the records persisted under these names, summed.
pub open spec fn spec_processed_tf_total(store: SymbolStore, names: Seq<String>) -> int
    decreases names.len(),
{
    if names.len() == 0 {
        0
    } else {
        spec_processed_tf_total(store, names.drop_last()) + store.lookup(
            names.last()@,
        ).timeframes@.len()
    }
}

proof fn lemma_tf_total_congruence(s1: SymbolStore, s2: SymbolStore, names: Seq<String>)
    requires
        forall|j: int|
            0 <= j < names.len() ==> #[trigger] s1.lookup(names[j]@) == s2.lookup(names[j]@),
    ensures
        spec_processed_tf_total(s1, names) == spec_processed_tf_total(s2, names),
    decreases names.len(),
{
    if names.len() > 0 {
        assert(forall|j: int| 0 <= j < names.len() - 1 ==> names.drop_last()[j] == names[j]);
        lemma_tf_total_congruence(s1, s2, names.drop_last());
        assert(s1.lookup(names[names.len() - 1]@) == s2.lookup(names[names.len() - 1]@));
    }
}

/// Walks every candidate symbol of a multi-symbol repository: a symbol
/// already persisted is skipped with its record untouched, a symbol whose
/// downloads all failed is passed over, and each remaining one is
/// assembled and persisted; the batch fails with `NoData` only when no
/// symbol at all was processed, and then nothing was changed.
#[verifier::rlimit(60)]
pub fn fetch_github_multi_all(
    store: &mut SymbolStore,
    folders: &Vec<SymbolFolder>,
    uploaded_at: &str,
) -> (r: Result<GitHubResult, IngestError>)
    requires
        old(store).wf(),
        forall|i: int|
            0 <= i < folders@.len() ==> spec_repo_total(#[trigger] folders@[i].files@)
                <= usize::MAX,
        spec_folder_files_total(folders@) <= usize::MAX,
    ensures
        final(store).wf(),
        forall|k: Seq<char>|
            #[trigger] old(store).contains_key(k) ==> final(store).contains_key(k)
                && final(store).lookup(k) == old(store).lookup(k),
        r matches Ok(res) ==> res.success == true && res.symbols_processed@.len() > 0,
        r matches Ok(res) ==> (forall|j: int|
            0 <= j < res.symbols_processed@.len() ==> #[trigger] final(store).contains_key(
                res.symbols_processed@[j]@,
            )),
        r matches Ok(res) ==> (forall|j: int|
            0 <= j < res.symbols_processed@.len() ==> !old(store).contains_key(
                #[trigger] res.symbols_processed@[j]@,
            )),
        r matches Ok(res) ==> (forall|j: int|
            0 <= j < res.symbols_processed@.len() ==> exists|i: int|
                0 <= i < folders@.len() && #[trigger] res.symbols_processed@[j]@ == upper_seq(
                    folders@[i].name@,
                )),
        r matches Ok(res) ==> (forall|j1: int, j2: int|
            0 <= j1 < j2 < res.symbols_processed@.len() ==> #[trigger] res.symbols_processed@[j1]@
                != #[trigger] res.symbols_processed@[j2]@),
        r matches Ok(res) ==> spec_keys_bounded(
            *old(store),
            *final(store),
            res.symbols_processed@,
        ),
        r matches Ok(res) ==> spec_folders_covered(
            *old(store),
            folders@,
            res.symbols_processed@,
        ),
        r matches Ok(res) ==> res.total_timeframes as int == spec_processed_tf_total(
            *final(store),
            res.symbols_processed@,
        ),
        r matches Ok(res) ==> res.message@ == spec_repo_message(
            res.symbols_processed@.len() as int,
            res.total_timeframes as int,
        ),
        r matches Err(e) ==> e == IngestError::NoData && *final(store) == *old(store),
        r matches Err(e) ==> (forall|i: int|
            0 <= i < folders@.len() ==> old(store).contains_key(
                upper_seq(#[trigger] folders@[i].name@),
            ) || !spec_has_fetch(folders@[i].files@)),
{
    let n = folders.len();
    let mut processed: Vec<String> = Vec::new();
    let mut total_tf: usize = 0;
    let mut i: usize = 0;
    proof {
        assert(folders@.take(0) =~= Seq::<SymbolFolder>::empty());
        assert(spec_processed_tf_total(*store, Seq::<String>::empty()) == 0);
    }
    while i < n
        invariant
            n == folders@.len(),
            0 <= i <= n,
            store.wf(),
            forall|ii: int|
                0 <= ii < folders@.len() ==> spec_repo_total(#[trigger] folders@[ii].files@)
                    <= usize::MAX,
            spec_folder_files_total(folders@) <= usize::MAX,
            total_tf as int <= spec_folder_files_total(folders@.take(i as int)),
            total_tf as int == spec_processed_tf_total(*store, processed@),
            forall|k: Seq<char>|
                #[trigger] old(store).contains_key(k) ==> store.contains_key(k)
                    && store.lookup(k) == old(store).lookup(k),
            forall|k: Seq<char>|
                #[trigger] store.contains_key(k) ==> old(store).contains_key(k) || exists|j: int|
                    0 <= j < processed@.len() && processed@[j]@ == k,
            forall|j: int|
                0 <= j < processed@.len() ==> #[trigger] store.contains_key(processed@[j]@),
            forall|j: int|
                0 <= j < processed@.len() ==> !old(store).contains_key(
                    #[trigger] processed@[j]@,
                ),
            forall|j: int|
                0 <= j < processed@.len() ==> exists|ii: int|
                    0 <= ii < folders@.len() && #[trigger] processed@[j]@ == upper_seq(
                        folders@[ii].name@,
                    ),
            forall|j1: int, j2: int|
                0 <= j1 < j2 < processed@.len() ==> #[trigger] processed@[j1]@
                    != #[trigger] processed@[j2]@,
            forall|ii: int|
                0 <= ii < i ==> (exists|j: int|
                    0 <= j < processed@.len() && processed@[j]@ == upper_seq(
                        #[trigger] folders@[ii].name@,
                    )) || old(store).contains_key(upper_seq(folders@[ii].name@))
                    || !spec_has_fetch(folders@[ii].files@),
            processed@.len() == 0 ==> *store == *old(store),
        decreases n - i,
    {
        proof {
            lemma_folder_total_take(folders@, i as int);
        }
        let folder = &folders[i];
        let key = to_upper(folder.name.as_str());
        if store.has_symbol(key.as_str()) {
            i = i + 1;
            continue;
        }
        let ghost pre = *store;
        let ghost processed0 = processed@;
        match process_symbol_folder(store, folder.name.as_str(), &folder.files, uploaded_at.to_owned()) {
            Ok((sym, ntf)) => {
                proof {
                    assert(ntf <= folders@[i as int].files@.len());
                    lemma_folder_total_take(folders@, i + 1);
                    // every name processed so far keeps its record, so its
                    // timeframe total is unchanged by this put
                    assert forall|j: int| 0 <= j < processed0.len() implies #[trigger] store.lookup(
                        processed0[j]@,
                    ) == pre.lookup(processed0[j]@) by {
                        assert(pre.contains_key(processed0[j]@));
                    }
                    lemma_tf_total_congruence(*store, pre, processed0);
                }
                processed.push(sym);
                total_tf = total_tf + ntf;
                proof {
                    assert(processed@.drop_last() =~= processed0);
                    assert(processed@.last() == sym);
                    assert(store.lookup(sym@).timeframes@.len() == ntf);
                }
            },
            Err(_) => {},
        }
        i = i + 1;
    }
    proof {
        assert(folders@.take(n as int) =~= folders@);
    }
    if processed.len() == 0 {
        return Err(IngestError::NoData);
    }
    let message = build_repo_message(processed.len(), total_tf);
    let ghost ps = processed@;
    let result = GitHubResult {
        success: true,
        message,
        symbols_processed: processed,
        total_timeframes: total_tf,
    };
    proof {
        assert(result.symbols_processed@ == ps);
        assert(spec_keys_bounded(*old(store), *store, ps));
        assert(spec_folders_covered(*old(store), folders@, ps));
    }
    Ok(result)
}

} // verus!
