//! The symbol store: put, get, list order, delete, rename, existence.
use candle_ingest::error::IngestError;
use candle_ingest::record::SymbolData;
use candle_ingest::record::TimeframeInfo;
use candle_ingest::record::sort_timeframes;
use candle_ingest::store::check_symbol_exists;
use candle_ingest::store::SymbolStore;

fn sample_record(symbol: &str, count: usize) -> SymbolData {
    SymbolData {
        symbol: symbol.to_string(),
        timeframes: vec![TimeframeInfo {
            name: "M1".to_string(),
            display_name: "1 min".to_string(),
            candle_count: count,
            file_path: format!("{}/M1.csv", symbol),
        }],
        total_candles: count,
        uploaded_at: "2024-01-01T00:00:00+00:00".to_string(),
    }
}

#[test]
fn put_then_get_round_trips() {
    let mut store = SymbolStore::new();
    store.put(sample_record("EURUSD", 10));
    let d = store.get("EURUSD").unwrap();
    assert_eq!(d.symbol, "EURUSD".to_string());
    assert_eq!(d.total_candles, 10);
    assert_eq!(d.timeframes.len(), 1);
    assert_eq!(d.timeframes[0].name, "M1".to_string());
}

#[test]
fn put_uppercases_the_key() {
    let mut store = SymbolStore::new();
    store.put(sample_record("eurusd", 3));
    assert!(store.has_symbol("EURUSD"));
    assert!(!store.has_symbol("eurusd"));
    assert_eq!(store.get("EURUSD").unwrap().symbol, "EURUSD".to_string());
}

#[test]
fn get_missing_symbol_is_not_found() {
    let store = SymbolStore::new();
    match store.get("GBPUSD") {
        Err(IngestError::NotFound { symbol }) => assert_eq!(symbol, "GBPUSD".to_string()),
        other => panic!("expected NotFound, got {:?}", other.map(|d| d.symbol.clone())),
    }
}

#[test]
fn put_overwrites_unconditionally() {
    let mut store = SymbolStore::new();
    store.put(sample_record("AAA", 1));
    store.put(sample_record("AAA", 7));
    assert_eq!(store.get("AAA").unwrap().total_candles, 7);
    assert_eq!(store.list().len(), 1);
}

#[test]
fn list_is_sorted_by_symbol_ascending() {
    let mut store = SymbolStore::new();
    store.put(sample_record("ZZZ", 1));
    store.put(sample_record("AAA", 2));
    store.put(sample_record("MMM", 3));
    let listed = store.list();
    let names: Vec<String> = listed.iter().map(|d| d.symbol.clone()).collect();
    assert_eq!(
        names,
        vec!["AAA".to_string(), "MMM".to_string(), "ZZZ".to_string()]
    );
}

#[test]
fn list_of_empty_store_is_empty() {
    let store = SymbolStore::new();
    assert!(store.list().is_empty());
}

#[test]
fn delete_removes_only_its_symbol() {
    let mut store = SymbolStore::new();
    store.put(sample_record("AAA", 1));
    store.put(sample_record("BBB", 2));
    assert!(store.delete("AAA").is_ok());
    assert!(!store.has_symbol("AAA"));
    assert!(store.has_symbol("BBB"));
    match store.delete("AAA") {
        Err(IngestError::NotFound { symbol }) => assert_eq!(symbol, "AAA".to_string()),
        other => panic!("expected NotFound, got {:?}", other),
    }
}

#[test]
fn rename_moves_the_record() {
    let mut store = SymbolStore::new();
    store.put(sample_record("OLD", 9));
    assert!(store.rename("OLD", "fresh").is_ok());
    assert!(!store.has_symbol("OLD"));
    let d = store.get("FRESH").unwrap();
    assert_eq!(d.symbol, "FRESH".to_string());
    assert_eq!(d.total_candles, 9);
}

#[test]
fn rename_missing_source_is_not_found() {
    let mut store = SymbolStore::new();
    match store.rename("NOPE", "NEW") {
        Err(IngestError::NotFound { symbol }) => assert_eq!(symbol, "NOPE".to_string()),
        other => panic!("expected NotFound, got {:?}", other),
    }
}

#[test]
fn rename_onto_taken_name_is_rejected() {
    let mut store = SymbolStore::new();
    store.put(sample_record("AAA", 1));
    store.put(sample_record("BBB", 2));
    match store.rename("AAA", "bbb") {
        Err(IngestError::AlreadyExists { symbol }) => assert_eq!(symbol, "BBB".to_string()),
        other => panic!("expected AlreadyExists, got {:?}", other),
    }
    // nothing was lost
    assert_eq!(store.get("AAA").unwrap().total_candles, 1);
    assert_eq!(store.get("BBB").unwrap().total_candles, 2);
}

#[test]
fn existence_check_rejects_taken_names() {
    let mut store = SymbolStore::new();
    store.put(sample_record("AAA", 1));
    assert!(check_symbol_exists(&store, "BBB").is_ok());
    match check_symbol_exists(&store, "AAA") {
        Err(IngestError::AlreadyExists { symbol }) => assert_eq!(symbol, "AAA".to_string()),
        other => panic!("expected AlreadyExists, got {:?}", other),
    }
}

#[test]
fn error_messages_name_the_offender() {
    let not_found = IngestError::NotFound { symbol: "XYZ".to_string() };
    assert_eq!(not_found.message(), "Symbol XYZ not found".to_string());
    let exists = IngestError::AlreadyExists { symbol: "XYZ".to_string() };
    assert_eq!(
        exists.message(),
        "Symbol 'XYZ' already exists. Please delete it first.".to_string()
    );
    let fmt = IngestError::Format {
        timeframe: "M1".to_string(),
        error: candle_ingest::format::FormatError::InvalidPrice { row: 4, column: 2 },
    };
    assert_eq!(
        fmt.message(),
        "Error in M1.csv: Row 4: invalid price in column 2".to_string()
    );
    assert_eq!(
        IngestError::Io.message(),
        "File operation failed".to_string()
    );
    assert_eq!(
        IngestError::Network.message(),
        "Network request failed".to_string()
    );
    assert_eq!(
        IngestError::NoData.message(),
        "No eligible data files found".to_string()
    );
    assert_eq!(
        IngestError::NoValidTimeframes.message(),
        "No valid timeframe data was acquired".to_string()
    );
    assert_eq!(
        IngestError::NoCandles.message(),
        "No valid candle data found".to_string()
    );
    assert_eq!(
        IngestError::InvalidDate.message(),
        "Invalid date format. Expected: YYYY-MM-DD".to_string()
    );
    assert_eq!(
        IngestError::InvalidStructureType.message(),
        "Invalid structure type. Use 'single' or 'multi'".to_string()
    );
    let unsupported = IngestError::UnsupportedTimeframe { timeframe: "M7".to_string() };
    assert_eq!(
        unsupported.message(),
        "Unsupported timeframe: M7".to_string()
    );
}

fn tf(name: &str, count: usize) -> TimeframeInfo {
    TimeframeInfo {
        name: name.to_string(),
        display_name: name.to_string(),
        candle_count: count,
        file_path: format!("{}.csv", name),
    }
}

#[test]
fn sorting_twice_yields_the_same_sequence() {
    let input = vec![tf("ODD", 1), tf("H1", 2), tf("M1", 3), tf("ZZZ", 4), tf("H1", 5)];
    let once = sort_timeframes(&input);
    let twice = sort_timeframes(&once);
    let names_once: Vec<String> = once.iter().map(|t| t.name.clone()).collect();
    let names_twice: Vec<String> = twice.iter().map(|t| t.name.clone()).collect();
    assert_eq!(names_once, names_twice);
    // known codes first, equal ranks and unknown codes keep input order
    assert_eq!(
        names_once,
        vec![
            "M1".to_string(),
            "H1".to_string(),
            "H1".to_string(),
            "ODD".to_string(),
            "ZZZ".to_string()
        ]
    );
    let counts: Vec<usize> = once.iter().map(|t| t.candle_count).collect();
    assert_eq!(counts, vec![3, 2, 5, 1, 4]);
}
