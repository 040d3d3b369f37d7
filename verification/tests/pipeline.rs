//! Detection, validation, numeric tokens and timeframe canonicalization.
use candle_ingest::format::count_and_validate_csv;
use candle_ingest::format::detect_delimiter;
use candle_ingest::format::is_valid_date_format;
use candle_ingest::format::FormatError;
use candle_ingest::numbers::is_float_token;
use candle_ingest::numbers::is_i64_token;
use candle_ingest::timeframe::canonicalize_timeframe;
use candle_ingest::timeframe::convert_timeframe_to_display;
use candle_ingest::timeframe::is_valid_timeframe;
use candle_ingest::timeframe::map_timeframe_to_yfinance;
use candle_ingest::timeframe::timeframe_rank;

#[test]
fn detect_prefers_tab_over_comma() {
    let line = "a\tb\tc\td\te,f,g,h,i";
    assert_eq!(detect_delimiter(line), Some('\t'));
}

#[test]
fn detect_comma_then_semicolon_then_space() {
    assert_eq!(detect_delimiter("a,b,c,d,e"), Some(','));
    assert_eq!(detect_delimiter("a;b;c;d;e"), Some(';'));
    assert_eq!(detect_delimiter("a b c d e f g h"), Some(' '));
}

#[test]
fn detect_needs_seven_spaces() {
    // six spaces are not enough, seven are
    assert_eq!(detect_delimiter("a b c d e f g"), None);
    assert_eq!(detect_delimiter("a b c d e f g "), Some(' '));
}

#[test]
fn detect_undetectable_on_sparse_line() {
    assert_eq!(detect_delimiter("a,b,c"), None);
    assert_eq!(detect_delimiter(""), None);
}

#[test]
fn detect_is_deterministic() {
    let line = "x\ty\tz\tw\tv";
    let first = detect_delimiter(line);
    let second = detect_delimiter(line);
    assert_eq!(first, second);
    assert_eq!(first, Some('\t'));
}

#[test]
fn two_column_header_file_is_rejected() {
    // no candidate delimiter can split a 2-column header into five fields,
    // so the file is rejected for its width
    let content = "Date,Open\n2024.01.01,1.0\n";
    assert_eq!(
        count_and_validate_csv(content),
        Err(FormatError::InsufficientColumns { row: 1, found: 2 })
    );
}

#[test]
fn wide_enough_header_below_threshold_is_undetectable() {
    // five spaces make six fields, so the width is fine, but a space
    // delimiter needs seven occurrences: the delimiter is the problem
    let content = "a b c d e f\nrow two\n";
    assert_eq!(
        count_and_validate_csv(content),
        Err(FormatError::DelimiterUndetectable)
    );
}

#[test]
fn header_of_five_fields_with_no_rows_is_empty() {
    let narrow = "Date;Open;;;\n";
    assert_eq!(count_and_validate_csv(narrow), Err(FormatError::EmptyFile));
}

#[test]
fn empty_file_is_rejected() {
    assert_eq!(count_and_validate_csv(""), Err(FormatError::EmptyFile));
    assert_eq!(count_and_validate_csv("  \n\t\n"), Err(FormatError::EmptyFile));
}

#[test]
fn counts_valid_epoch_rows() {
    let content = "Date,Open,High,Low,Close\n1700000000,1.0,2.0,0.5,1.5\n1700000060,1.5,2.5,1.0,2.0\n";
    assert_eq!(count_and_validate_csv(content), Ok(2));
}

#[test]
fn counts_valid_dotted_date_rows() {
    let content = "Date,Open,High,Low,Close\n2024.01.01,1.0,2.0,0.5,1.5\n";
    assert_eq!(count_and_validate_csv(content), Ok(1));
}

#[test]
fn carriage_returns_are_tolerated() {
    let content = "Date,Open,High,Low,Close\r\n1700000000,1.0,2.0,0.5,1.5\r\n";
    assert_eq!(count_and_validate_csv(content), Ok(1));
}

#[test]
fn blank_rows_are_skipped() {
    let content = "Date,Open,High,Low,Close\n\n1700000000,1.0,2.0,0.5,1.5\n   \n\n";
    assert_eq!(count_and_validate_csv(content), Ok(1));
}

#[test]
fn invalid_timestamp_names_the_row() {
    let content = "Date,Open,High,Low,Close\nnot-a-date,1.0,2.0,0.5,1.5\n";
    assert_eq!(
        count_and_validate_csv(content),
        Err(FormatError::InvalidTimestamp { row: 2 })
    );
}

#[test]
fn invalid_price_names_row_and_column() {
    let content = "Date,Open,High,Low,Close\n1700000000,1.0,bad,0.5,1.5\n";
    assert_eq!(
        count_and_validate_csv(content),
        Err(FormatError::InvalidPrice { row: 2, column: 3 })
    );
}

#[test]
fn wide_header_shifts_price_columns() {
    // eight header fields: prices sit in columns 3..=6 (1-based), so a bad
    // value in the second column is no price error
    let content = "Date,Time,Open,High,Low,Close,TickVol,Vol\n2024.01.01,xx:xx,1.0,2.0,0.5,1.5,9,9\n";
    assert_eq!(count_and_validate_csv(content), Ok(1));
    let bad = "Date,Time,Open,High,Low,Close,TickVol,Vol\n2024.01.01,00:00,bad,2.0,0.5,1.5,9,9\n";
    assert_eq!(
        count_and_validate_csv(bad),
        Err(FormatError::InvalidPrice { row: 2, column: 3 })
    );
}

#[test]
fn short_data_row_is_insufficient() {
    let content = "Date,Open,High,Low,Close\n1700000000,1.0,2.0,0.5,1.5\n1,2,3\n";
    assert_eq!(
        count_and_validate_csv(content),
        Err(FormatError::InsufficientColumns { row: 3, found: 3 })
    );
}

#[test]
fn only_first_data_row_is_price_checked() {
    // later rows only need five fields; their cells are not parsed
    let content = "Date,Open,High,Low,Close\n1700000000,1.0,2.0,0.5,1.5\nx,y,z,w,v\n";
    assert_eq!(count_and_validate_csv(content), Ok(2));
}

#[test]
fn date_format_needs_dot_and_length() {
    assert!(is_valid_date_format("2024.01.01"));
    assert!(is_valid_date_format("2024.01.01 00:00:00"));
    assert!(!is_valid_date_format("2024-01-01"));
    assert!(!is_valid_date_format("2024.1.1"));
}

#[test]
fn i64_tokens_accept_signs_and_bounds() {
    assert!(is_i64_token("0"));
    assert!(is_i64_token("+5"));
    assert!(is_i64_token("-5"));
    assert!(is_i64_token("9223372036854775807"));
    assert!(!is_i64_token("9223372036854775808"));
    assert!(is_i64_token("-9223372036854775808"));
    assert!(!is_i64_token("-9223372036854775809"));
    assert!(is_i64_token("00009223372036854775807"));
    assert!(!is_i64_token(""));
    assert!(!is_i64_token("+"));
    assert!(!is_i64_token("12a"));
    assert!(!is_i64_token("1.5"));
}

#[test]
fn float_tokens_follow_the_standard_grammar() {
    assert!(is_float_token("1.5"));
    assert!(is_float_token("5."));
    assert!(is_float_token(".5"));
    assert!(is_float_token("12"));
    assert!(is_float_token("-1.25"));
    assert!(is_float_token("+0.0"));
    assert!(is_float_token("1e5"));
    assert!(is_float_token("1.2E-3"));
    assert!(is_float_token("1.2e+3"));
    assert!(is_float_token("inf"));
    assert!(is_float_token("-Infinity"));
    assert!(is_float_token("NaN"));
    assert!(!is_float_token(""));
    assert!(!is_float_token("+"));
    assert!(!is_float_token("."));
    assert!(!is_float_token("5e"));
    assert!(!is_float_token("e5"));
    assert!(!is_float_token("1.2.3"));
    assert!(!is_float_token("1,5"));
    assert!(!is_float_token("abc"));
}

#[test]
fn canonicalization_is_idempotent_on_codes() {
    // canonicalizing an already-canonical code returns it unchanged
    let codes = [
        "M1", "M2", "M3", "M4", "M5", "M10", "M15", "M30", "H1", "H2", "H3", "H4", "D1", "W1",
        "MN1",
    ];
    for code in codes {
        let once = canonicalize_timeframe(code);
        let twice = canonicalize_timeframe(&once);
        assert_eq!(once, twice);
        assert_eq!(once, code.to_string());
    }
}

#[test]
fn canonicalization_uppercases_raw_tokens() {
    assert_eq!(canonicalize_timeframe("m1"), "M1".to_string());
    assert_eq!(canonicalize_timeframe("h4"), "H4".to_string());
    assert_eq!(canonicalize_timeframe("weird"), "WEIRD".to_string());
}

#[test]
fn ranks_follow_declaration_order() {
    assert_eq!(timeframe_rank("M1"), 0);
    assert_eq!(timeframe_rank("M30"), 7);
    assert_eq!(timeframe_rank("H1"), 8);
    assert_eq!(timeframe_rank("MN1"), 14);
    assert_eq!(timeframe_rank("XX"), 15);
    assert_eq!(timeframe_rank("m1"), 15);
}

#[test]
fn validity_checks_the_uppercased_token() {
    assert!(is_valid_timeframe("m1"));
    assert!(is_valid_timeframe("MN1"));
    assert!(!is_valid_timeframe("M7"));
    assert!(!is_valid_timeframe(""));
}

#[test]
fn display_labels_match_the_table() {
    assert_eq!(convert_timeframe_to_display("M1"), "1 min".to_string());
    assert_eq!(convert_timeframe_to_display("M10"), "10 min".to_string());
    assert_eq!(convert_timeframe_to_display("H1"), "1 hour".to_string());
    assert_eq!(convert_timeframe_to_display("H4"), "4 hours".to_string());
    assert_eq!(convert_timeframe_to_display("D1"), "1 day".to_string());
    assert_eq!(convert_timeframe_to_display("W1"), "1 week".to_string());
    assert_eq!(convert_timeframe_to_display("MN1"), "1 month".to_string());
    assert_eq!(convert_timeframe_to_display("ODD"), "ODD".to_string());
}

#[test]
fn provider_intervals_match_the_table() {
    assert_eq!(map_timeframe_to_yfinance("M1"), Some("1m".to_string()));
    assert_eq!(map_timeframe_to_yfinance("M15"), Some("15m".to_string()));
    assert_eq!(map_timeframe_to_yfinance("H1"), Some("1h".to_string()));
    assert_eq!(map_timeframe_to_yfinance("D1"), Some("1d".to_string()));
    assert_eq!(map_timeframe_to_yfinance("W1"), Some("1wk".to_string()));
    assert_eq!(map_timeframe_to_yfinance("MN1"), Some("1mo".to_string()));
    assert_eq!(map_timeframe_to_yfinance("M3"), None);
    assert_eq!(map_timeframe_to_yfinance("H2"), None);
}
