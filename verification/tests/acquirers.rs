//! The three acquisition flows end to end, on in-memory sources.
use candle_ingest::error::IngestError;
use candle_ingest::format::FormatError;
use candle_ingest::github::classify_repo_request;
use candle_ingest::github::count_csv_lines;
use candle_ingest::github::csv_timeframe_token;
use candle_ingest::github::effective_branch;
use candle_ingest::github::fetch_github_multi_all;
use candle_ingest::github::fetch_github_single;
use candle_ingest::github::parse_github_url;
use candle_ingest::github::plan_repo_downloads;
use candle_ingest::github::FetchedFile;
use candle_ingest::github::GitHubContent;
use candle_ingest::github::RepoMode;
use candle_ingest::github::SymbolFolder;
use candle_ingest::local::process_chart_folder;
use candle_ingest::local::process_chart_folder_at;
use candle_ingest::local::SourceFile;
use candle_ingest::quote::align_candles;
use candle_ingest::quote::convert_date_to_timestamp;
use candle_ingest::quote::finish_quote_fetch;
use candle_ingest::quote::interval_for;
use candle_ingest::quote::parse_quote_response;
use candle_ingest::quote::plan_quote_fetch;
use candle_ingest::quote::save_candles_to_csv;
use candle_ingest::quote::validate_save_name;
use candle_ingest::quote::Candle;
use candle_ingest::quote::FetchedSeries;
use candle_ingest::quote::QuoteSeries;
use candle_ingest::record::SymbolData;
use candle_ingest::record::TimeframeInfo;
use candle_ingest::store::SymbolStore;

const STAMP: &str = "2024-01-02T03:04:05+00:00";

fn csv_rows(header: &str, row: &str, rows: usize) -> String {
    let mut s = String::new();
    s.push_str(header);
    s.push('\n');
    for _ in 0..rows {
        s.push_str(row);
        s.push('\n');
    }
    s
}

fn existing_record(symbol: &str) -> SymbolData {
    SymbolData {
        symbol: symbol.to_string(),
        timeframes: vec![TimeframeInfo {
            name: "D1".to_string(),
            display_name: "1 day".to_string(),
            candle_count: 4,
            file_path: "old/D1.csv".to_string(),
        }],
        total_candles: 4,
        uploaded_at: "2020-01-01T00:00:00+00:00".to_string(),
    }
}

// --- the local folder flow ---

#[test]
fn local_folder_with_two_timeframes() {
    // M1.csv: tab-delimited, 6 columns, 100 data rows; H1.csv:
    // comma-delimited, 5 columns, 10 rows; result: 110 candles, M1 first
    let m1 = csv_rows(
        "Date\tOpen\tHigh\tLow\tClose\tVolume",
        "1700000000\t1.1\t1.2\t1.0\t1.15\t500",
        100,
    );
    let h1 = csv_rows("Date,Open,High,Low,Close", "2024.01.01,1.1,1.2,1.0,1.15", 10);
    let files = vec![
        SourceFile {
            stem: "h1".to_string(),
            extension: "csv".to_string(),
            path: "EURUSD/H1.csv".to_string(),
            content: h1,
        },
        SourceFile {
            stem: "m1".to_string(),
            extension: "csv".to_string(),
            path: "EURUSD/M1.csv".to_string(),
            content: m1,
        },
    ];
    let mut store = SymbolStore::new();
    let res = process_chart_folder_at(&mut store, "eurusd", &files, STAMP.to_string()).unwrap();
    assert!(res.success);
    assert_eq!(res.symbol, Some("EURUSD".to_string()));
    assert_eq!(res.total_candles, 110);
    assert_eq!(
        res.timeframes_processed,
        vec!["M1".to_string(), "H1".to_string()]
    );
    assert_eq!(
        res.message,
        "Successfully processed 2 timeframes with 110 total candles".to_string()
    );
    let d = store.get("EURUSD").unwrap();
    assert_eq!(d.total_candles, 110);
    assert_eq!(d.timeframes.len(), 2);
    assert_eq!(d.timeframes[0].name, "M1".to_string());
    assert_eq!(d.timeframes[0].candle_count, 100);
    assert_eq!(d.timeframes[1].name, "H1".to_string());
    assert_eq!(d.timeframes[1].candle_count, 10);
    assert_eq!(d.uploaded_at, STAMP.to_string());
}

#[test]
fn local_sort_is_stable_and_unknowns_go_last() {
    let row = "1700000000,1.0,1.2,0.9,1.1";
    let files = vec![
        SourceFile {
            stem: "odd".to_string(),
            extension: "csv".to_string(),
            path: "X/ODD.csv".to_string(),
            content: csv_rows("Date,Open,High,Low,Close", row, 1),
        },
        SourceFile {
            stem: "w1".to_string(),
            extension: "csv".to_string(),
            path: "X/W1.csv".to_string(),
            content: csv_rows("Date,Open,High,Low,Close", row, 2),
        },
        SourceFile {
            stem: "other".to_string(),
            extension: "csv".to_string(),
            path: "X/OTHER.csv".to_string(),
            content: csv_rows("Date,Open,High,Low,Close", row, 3),
        },
        SourceFile {
            stem: "m5".to_string(),
            extension: "csv".to_string(),
            path: "X/M5.csv".to_string(),
            content: csv_rows("Date,Open,High,Low,Close", row, 4),
        },
    ];
    let mut store = SymbolStore::new();
    let res = process_chart_folder_at(&mut store, "x", &files, STAMP.to_string()).unwrap();
    // known codes first by rank, unknown codes after them in input order
    assert_eq!(
        res.timeframes_processed,
        vec![
            "M5".to_string(),
            "W1".to_string(),
            "ODD".to_string(),
            "OTHER".to_string()
        ]
    );
    // sorting an already sorted record changes nothing: re-ingesting the
    // sorted order yields the same order
    let d = store.get("X").unwrap();
    let names: Vec<String> = d.timeframes.iter().map(|t| t.name.clone()).collect();
    assert_eq!(names, res.timeframes_processed);
}

#[test]
fn local_aborts_on_first_bad_file() {
    let good = csv_rows("Date,Open,High,Low,Close", "1700000000,1.0,1.2,0.9,1.1", 5);
    let bad = csv_rows("Date,Open,High,Low,Close", "1700000000,oops,1.2,0.9,1.1", 5);
    let files = vec![
        SourceFile {
            stem: "m1".to_string(),
            extension: "csv".to_string(),
            path: "A/M1.csv".to_string(),
            content: good,
        },
        SourceFile {
            stem: "h1".to_string(),
            extension: "csv".to_string(),
            path: "A/H1.csv".to_string(),
            content: bad,
        },
    ];
    let mut store = SymbolStore::new();
    match process_chart_folder_at(&mut store, "A", &files, STAMP.to_string()) {
        Err(IngestError::Format { timeframe, error }) => {
            assert_eq!(timeframe, "H1".to_string());
            assert_eq!(error, FormatError::InvalidPrice { row: 2, column: 2 });
        }
        other => panic!("expected a format error, got {:?}", other.map(|r| r.message)),
    }
    assert!(!store.has_symbol("A"));
}

#[test]
fn local_without_csv_files_is_no_data() {
    let files = vec![SourceFile {
        stem: "readme".to_string(),
        extension: "txt".to_string(),
        path: "A/readme.txt".to_string(),
        content: "hello".to_string(),
    }];
    let mut store = SymbolStore::new();
    match process_chart_folder_at(&mut store, "A", &files, STAMP.to_string()) {
        Err(IngestError::NoData) => {}
        other => panic!("expected NoData, got {:?}", other.map(|r| r.message)),
    }
}

#[test]
fn local_folder_is_stamped_with_the_current_instant() {
    let files = vec![SourceFile {
        stem: "m1".to_string(),
        extension: "csv".to_string(),
        path: "Y/M1.csv".to_string(),
        content: csv_rows("Date,Open,High,Low,Close", "1700000000,1.0,1.2,0.9,1.1", 1),
    }];
    let mut store = SymbolStore::new();
    let res = process_chart_folder(&mut store, "y", &files).unwrap();
    assert!(res.success);
    let d = store.get("Y").unwrap();
    assert!(!d.uploaded_at.is_empty());
}

// --- the repository flow ---

#[test]
fn repo_url_forms_are_accepted() {
    assert_eq!(
        parse_github_url("https://github.com/alice/charts").unwrap(),
        ("alice".to_string(), "charts".to_string())
    );
    assert_eq!(
        parse_github_url("github.com/alice/charts/").unwrap(),
        ("alice".to_string(), "charts".to_string())
    );
    assert_eq!(
        parse_github_url("http://github.com/alice/charts/tree/main").unwrap(),
        ("alice".to_string(), "charts".to_string())
    );
    match parse_github_url("https://github.com/alice") {
        Err(IngestError::InvalidUrl) => {}
        other => panic!("expected InvalidUrl, got {:?}", other),
    }
}

#[test]
fn branch_defaults_to_main() {
    assert_eq!(effective_branch(""), "main".to_string());
    assert_eq!(effective_branch("develop"), "develop".to_string());
}

#[test]
fn csv_tokens_come_from_file_names() {
    assert_eq!(csv_timeframe_token("m1.csv"), Some("M1".to_string()));
    assert_eq!(csv_timeframe_token("H4.CSV"), Some("H4".to_string()));
    assert_eq!(csv_timeframe_token("data.Csv"), Some("DATA".to_string()));
    assert_eq!(csv_timeframe_token("readme.md"), None);
    assert_eq!(csv_timeframe_token("csv"), None);
}

#[test]
fn plan_skips_non_files_unknown_codes_and_missing_urls() {
    let entries = vec![
        GitHubContent {
            name: "M1.csv".to_string(),
            path: "M1.csv".to_string(),
            content_type: "file".to_string(),
            download_url: Some("https://host/M1.csv".to_string()),
        },
        GitHubContent {
            name: "notes.csv".to_string(),
            path: "notes.csv".to_string(),
            content_type: "file".to_string(),
            download_url: Some("https://host/notes.csv".to_string()),
        },
        GitHubContent {
            name: "H1.csv".to_string(),
            path: "H1.csv".to_string(),
            content_type: "dir".to_string(),
            download_url: None,
        },
        GitHubContent {
            name: "W1.csv".to_string(),
            path: "W1.csv".to_string(),
            content_type: "file".to_string(),
            download_url: None,
        },
    ];
    let plan = plan_repo_downloads(&entries).unwrap();
    assert_eq!(plan.len(), 1);
    assert_eq!(plan[0].timeframe, "M1".to_string());
    assert_eq!(plan[0].url, "https://host/M1.csv".to_string());
}

#[test]
fn plan_without_any_csv_is_no_data() {
    let entries = vec![GitHubContent {
        name: "README.md".to_string(),
        path: "README.md".to_string(),
        content_type: "file".to_string(),
        download_url: None,
    }];
    match plan_repo_downloads(&entries) {
        Err(IngestError::NoData) => {}
        other => panic!("expected NoData, got {:?}", other),
    }
}

#[test]
fn line_counting_ignores_blanks_and_header() {
    assert_eq!(count_csv_lines("h\nr1\nr2\n"), 2);
    assert_eq!(count_csv_lines("h\n\nr1\n  \nr2"), 2);
    assert_eq!(count_csv_lines(""), 0);
    assert_eq!(count_csv_lines("only-header"), 0);
}

#[test]
fn structure_types_are_single_and_multi() {
    assert_eq!(classify_repo_request("single", false), Ok(RepoMode::Single));
    assert_eq!(classify_repo_request("multi", true), Ok(RepoMode::MultiOne));
    assert_eq!(classify_repo_request("multi", false), Ok(RepoMode::MultiAll));
    assert_eq!(
        classify_repo_request("flat", false),
        Err(IngestError::InvalidStructureType)
    );
}

#[test]
fn single_fetch_fails_fast_when_symbol_exists() {
    let mut store = SymbolStore::new();
    store.put(existing_record("AAA"));
    let before = store.get("AAA").unwrap().clone();
    let files = vec![FetchedFile {
        timeframe: "M1".to_string(),
        path: "tmp/AAA/M1.csv".to_string(),
        content: Some("h\nr\n".to_string()),
    }];
    match fetch_github_single(&mut store, "aaa", &files, STAMP.to_string()) {
        Err(IngestError::AlreadyExists { symbol }) => assert_eq!(symbol, "AAA".to_string()),
        other => panic!("expected AlreadyExists, got {:?}", other.map(|r| r.message)),
    }
    // the existing record is untouched
    let after = store.get("AAA").unwrap();
    assert_eq!(after.symbol, before.symbol);
    assert_eq!(after.total_candles, before.total_candles);
    assert_eq!(after.uploaded_at, before.uploaded_at);
    assert_eq!(after.timeframes.len(), before.timeframes.len());
    assert_eq!(after.timeframes[0].name, before.timeframes[0].name);
    assert_eq!(after.timeframes[0].file_path, before.timeframes[0].file_path);
}

#[test]
fn single_fetch_assembles_downloaded_files() {
    let mut store = SymbolStore::new();
    let files = vec![
        FetchedFile {
            timeframe: "H1".to_string(),
            path: "tmp/GBPUSD/H1.csv".to_string(),
            content: Some("h\nr1\nr2\nr3\n".to_string()),
        },
        FetchedFile {
            timeframe: "M1".to_string(),
            path: "tmp/GBPUSD/M1.csv".to_string(),
            content: None, // this download failed and is skipped
        },
    ];
    let res = fetch_github_single(&mut store, "gbpusd", &files, STAMP.to_string()).unwrap();
    assert!(res.success);
    assert_eq!(res.symbols_processed, vec!["GBPUSD".to_string()]);
    assert_eq!(res.total_timeframes, 1);
    assert_eq!(
        res.message,
        "Successfully downloaded 1 symbol with 1 total timeframe".to_string()
    );
    let d = store.get("GBPUSD").unwrap();
    assert_eq!(d.total_candles, 3);
    assert_eq!(d.timeframes[0].name, "H1".to_string());
    assert_eq!(d.timeframes[0].display_name, "1 hour".to_string());
}

#[test]
fn multi_fetch_skips_existing_symbols() {
    // AAA already exists, BBB does not: the batch succeeds with only BBB
    // processed, AAA skipped without an error
    let mut store = SymbolStore::new();
    store.put(existing_record("AAA"));
    let folders = vec![
        SymbolFolder {
            name: "AAA".to_string(),
            files: vec![FetchedFile {
                timeframe: "M1".to_string(),
                path: "tmp/AAA/M1.csv".to_string(),
                content: Some("h\nr\n".to_string()),
            }],
        },
        SymbolFolder {
            name: "BBB".to_string(),
            files: vec![FetchedFile {
                timeframe: "M1".to_string(),
                path: "tmp/BBB/M1.csv".to_string(),
                content: Some("h\nr1\nr2\n".to_string()),
            }],
        },
    ];
    let res = fetch_github_multi_all(&mut store, &folders, STAMP).unwrap();
    assert!(res.success);
    assert_eq!(res.symbols_processed, vec!["BBB".to_string()]);
    assert_eq!(res.total_timeframes, 1);
    // AAA keeps its old record
    assert_eq!(store.get("AAA").unwrap().total_candles, 4);
    assert_eq!(store.get("BBB").unwrap().total_candles, 2);
}

#[test]
fn multi_fetch_with_nothing_to_do_is_no_data() {
    let mut store = SymbolStore::new();
    store.put(existing_record("AAA"));
    let folders = vec![
        SymbolFolder {
            name: "AAA".to_string(),
            files: vec![],
        },
        SymbolFolder {
            name: "CCC".to_string(),
            files: vec![FetchedFile {
                timeframe: "M1".to_string(),
                path: "tmp/CCC/M1.csv".to_string(),
                content: None,
            }],
        },
    ];
    match fetch_github_multi_all(&mut store, &folders, STAMP) {
        Err(IngestError::NoData) => {}
        other => panic!("expected NoData, got {:?}", other.map(|r| r.message)),
    }
    assert!(!store.has_symbol("CCC"));
}

// --- the quote-API flow ---

#[test]
fn dates_become_epoch_seconds_at_utc_midnight() {
    assert_eq!(convert_date_to_timestamp("1970-01-01"), Ok(0));
    assert_eq!(convert_date_to_timestamp("2024-01-01"), Ok(1704067200));
    assert_eq!(
        convert_date_to_timestamp("2024-13-01"),
        Err(IngestError::InvalidDate)
    );
    assert_eq!(
        convert_date_to_timestamp("2023-02-29"),
        Err(IngestError::InvalidDate)
    );
    assert_eq!(
        convert_date_to_timestamp("01/02/2024"),
        Err(IngestError::InvalidDate)
    );
}

#[test]
fn save_names_are_word_characters_only() {
    assert!(validate_save_name("EURUSD_2024"));
    assert!(!validate_save_name(""));
    assert!(!validate_save_name("EUR-USD"));
    assert!(!validate_save_name("A B"));
}

#[test]
fn intervals_exist_only_for_mapped_codes() {
    assert_eq!(interval_for("M1"), Ok("1m".to_string()));
    match interval_for("M3") {
        Err(IngestError::UnsupportedTimeframe { timeframe }) => {
            assert_eq!(timeframe, "M3".to_string())
        }
        other => panic!("expected UnsupportedTimeframe, got {:?}", other),
    }
}

#[test]
fn quote_plan_validates_before_any_network_work() {
    let store = SymbolStore::new();
    let tfs = vec!["M1".to_string(), "W1".to_string(), "M3".to_string()];
    let plan = plan_quote_fetch(&store, "myfx", "2024-01-01", "2024-02-01", &tfs).unwrap();
    assert_eq!(plan.symbol, "MYFX".to_string());
    assert_eq!(plan.start_epoch, 1704067200);
    assert_eq!(plan.end_epoch, 1706745600);
    assert_eq!(plan.items.len(), 3);
    assert_eq!(plan.items[0].interval, Some("1m".to_string()));
    assert_eq!(plan.items[1].interval, Some("1wk".to_string()));
    assert_eq!(plan.items[2].interval, None);
}

#[test]
fn quote_plan_rejects_bad_names_taken_names_and_bad_dates() {
    let mut store = SymbolStore::new();
    let tfs = vec!["M1".to_string()];
    match plan_quote_fetch(&store, "bad name", "2024-01-01", "2024-02-01", &tfs) {
        Err(IngestError::InvalidSymbolName) => {}
        other => panic!("expected InvalidSymbolName, got {:?}", other.map(|p| p.symbol)),
    }
    store.put(existing_record("TAKEN"));
    match plan_quote_fetch(&store, "taken", "2024-01-01", "2024-02-01", &tfs) {
        Err(IngestError::AlreadyExists { symbol }) => assert_eq!(symbol, "TAKEN".to_string()),
        other => panic!("expected AlreadyExists, got {:?}", other.map(|p| p.symbol)),
    }
    match plan_quote_fetch(&store, "FRESH", "2024-99-01", "2024-02-01", &tfs) {
        Err(IngestError::InvalidDate) => {}
        other => panic!("expected InvalidDate, got {:?}", other.map(|p| p.symbol)),
    }
}

fn candle(ts: i64, px: &str, vol: i64) -> Candle {
    Candle {
        timestamp: ts,
        open: px.to_string(),
        high: px.to_string(),
        low: px.to_string(),
        close: px.to_string(),
        volume: vol,
    }
}

#[test]
fn alignment_discards_indices_with_absent_fields() {
    let q = QuoteSeries {
        timestamps: vec![Some(10), Some(20), Some(30)],
        opens: vec![Some("1.0".to_string()), None, Some("3.0".to_string())],
        highs: vec![Some("1.5".to_string()), Some("2.5".to_string()), Some("3.5".to_string())],
        lows: vec![Some("0.5".to_string()), Some("1.5".to_string()), Some("2.5".to_string())],
        closes: vec![Some("1.2".to_string()), Some("2.2".to_string()), Some("3.2".to_string())],
        volumes: vec![Some(100), Some(200), None],
    };
    let candles = align_candles(&q);
    assert_eq!(candles.len(), 1);
    assert_eq!(candles[0].timestamp, 10);
    assert_eq!(candles[0].open, "1.0".to_string());
    assert_eq!(candles[0].volume, 100);
}

#[test]
fn absent_timestamps_shift_the_pairing() {
    // a null timestamp is dropped before pairing, so the second present
    // timestamp pairs with the second position of each field array
    let q = QuoteSeries {
        timestamps: vec![Some(10), None, Some(30)],
        opens: vec![Some("1.0".to_string()), Some("2.0".to_string()), Some("3.0".to_string())],
        highs: vec![Some("1.5".to_string()), Some("2.5".to_string()), Some("3.5".to_string())],
        lows: vec![Some("0.5".to_string()), Some("1.5".to_string()), Some("2.5".to_string())],
        closes: vec![Some("1.2".to_string()), Some("2.2".to_string()), Some("3.2".to_string())],
        volumes: vec![Some(100), Some(200), Some(300)],
    };
    let candles = align_candles(&q);
    assert_eq!(candles.len(), 2);
    assert_eq!(candles[0].timestamp, 10);
    assert_eq!(candles[0].open, "1.0".to_string());
    assert_eq!(candles[1].timestamp, 30);
    assert_eq!(candles[1].open, "2.0".to_string());
}

#[test]
fn candles_render_with_a_synthesized_header() {
    let candles = vec![candle(10, "1.5", 100), candle(-20, "2.25", 0)];
    let text = save_candles_to_csv(&candles);
    assert_eq!(
        text,
        "timestamp,open,high,low,close,volume\n10,1.5,1.5,1.5,1.5,100\n-20,2.25,2.25,2.25,2.25,0\n"
            .to_string()
    );
}

#[test]
fn quote_response_parsing_reads_the_nested_arrays() {
    let text = r#"{"chart":{"result":[{"timestamp":[10,20],"indicators":{"quote":[{"open":[1.5,null],"high":[2.0,2.1],"low":[1.0,1.1],"close":[1.8,1.9],"volume":[100,200]}]}}]}}"#;
    let candles = parse_quote_response(text).unwrap();
    assert_eq!(candles.len(), 1);
    assert_eq!(candles[0].timestamp, 10);
    assert_eq!(candles[0].open, "1.5".to_string());
    assert_eq!(candles[0].high, "2.0".to_string());
    assert_eq!(candles[0].volume, 100);
}

#[test]
fn quote_response_without_aligned_candles_is_no_candles() {
    let text = r#"{"chart":{"result":[{"timestamp":[10],"indicators":{"quote":[{"open":[null],"high":[2.0],"low":[1.0],"close":[1.8],"volume":[100]}]}}]}}"#;
    match parse_quote_response(text) {
        Err(IngestError::NoCandles) => {}
        other => panic!("expected NoCandles, got {:?}", other.map(|v| v.len())),
    }
}

#[test]
fn malformed_quote_response_is_a_network_error() {
    match parse_quote_response("not json at all") {
        Err(IngestError::Network) => {}
        other => panic!("expected Network, got {:?}", other.map(|v| v.len())),
    }
    match parse_quote_response(r#"{"chart":{}}"#) {
        Err(IngestError::Network) => {}
        other => panic!("expected Network, got {:?}", other.map(|v| v.len())),
    }
}

#[test]
fn quote_fetch_keeps_the_successful_subset() {
    // M1 came back with candles, W1 aligned to nothing: the operation
    // succeeds reporting only M1
    let mut store = SymbolStore::new();
    let fetched = vec![
        FetchedSeries {
            code: "M1".to_string(),
            candles: Some(vec![candle(10, "1.0", 1), candle(20, "2.0", 2)]),
        },
        FetchedSeries {
            code: "W1".to_string(),
            candles: None,
        },
    ];
    let res =
        finish_quote_fetch(&mut store, "myfx", "tmp/MYFX/", &fetched, STAMP.to_string()).unwrap();
    assert!(res.success);
    assert_eq!(res.symbol, "MYFX".to_string());
    assert_eq!(res.timeframes_downloaded, vec!["M1".to_string()]);
    assert_eq!(res.total_candles, 2);
    assert_eq!(
        res.message,
        "Successfully downloaded 1 timeframe with 2 total candles".to_string()
    );
    let d = store.get("MYFX").unwrap();
    assert_eq!(d.timeframes.len(), 1);
    assert_eq!(d.timeframes[0].name, "M1".to_string());
    assert_eq!(d.timeframes[0].file_path, "tmp/MYFX/M1.csv".to_string());
}

#[test]
fn quote_fetch_with_no_usable_series_fails() {
    let mut store = SymbolStore::new();
    let fetched = vec![
        FetchedSeries {
            code: "M1".to_string(),
            candles: None,
        },
        FetchedSeries {
            code: "W1".to_string(),
            candles: Some(vec![]),
        },
    ];
    match finish_quote_fetch(&mut store, "myfx", "tmp/MYFX/", &fetched, STAMP.to_string()) {
        Err(IngestError::NoValidTimeframes) => {}
        other => panic!("expected NoValidTimeframes, got {:?}", other.map(|r| r.message)),
    }
    assert!(!store.has_symbol("MYFX"));
}
