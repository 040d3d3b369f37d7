//! Format detection and row validation for delimited candle files.
//!
//! The detector chooses the field delimiter from the first line; the
//! validator walks the data rows, skips blank ones, checks the first data
//! row's timestamp and price cells, and counts the rows that remain.
use vstd::prelude::*;

use crate::numbers::is_float_str;
use crate::numbers::is_float_token;
use crate::numbers::is_i64_str;
use crate::numbers::is_i64_token;
use crate::text::count_char;
use crate::text::count_char_in;
use crate::text::find_char;
use crate::text::find_char_spec;
use crate::text::is_blank;
use crate::text::is_blank_seq;
use crate::text::line_seqs;
use crate::text::lines_of;
use crate::text::spec_fields;
use crate::text::fields_of;
use crate::text::views_of;

verus! {

/// What can be wrong with one delimited candle file.
///
/// Row numbers are 1-based over the file's lines, so the header is row 1 and
/// the first data row is row 2; column numbers are 1-based as well.
#[derive(Debug, Clone, Copy, PartialEq, Eq, Structural)]
pub enum FormatError {
    /// The file has no content outside whitespace.
    EmptyFile,
    /// No delimiter occurs often enough in the header line.
    DelimiterUndetectable,
    /// A row has fewer fields than the format requires.
    InsufficientColumns { row: usize, found: usize },
    /// The first cell of the first data row is neither a dotted date nor an
    /// epoch integer.
    InvalidTimestamp { row: usize },
    /// A price cell of the first data row is not a floating-point number.
    InvalidPrice { row: usize, column: usize },
}

// --- delimiter detection ---

/// The delimiter the header line implies: tab, comma or semicolon when one
/// of them occurs at least four times, in that priority; a space when it
/// occurs at least seven times; none otherwise.
pub open spec fn spec_detect_delimiter(first: Seq<char>) -> Option<char> {
    if count_char(first, '\t') >= 4 {
        Some('\t')
    } else if count_char(first, ',') >= 4 {
        Some(',')
    } else if count_char(first, ';') >= 4 {
        Some(';')
    } else if count_char(first, ' ') >= 7 {
        Some(' ')
    } else {
        None
    }
}

pub fn detect_delimiter(first_line: &str) -> (r: Option<char>)
    ensures
        r == spec_detect_delimiter(first_line@),
{
    if count_char_in(first_line, '\t') >= 4 {
        Some('\t')
    } else if count_char_in(first_line, ',') >= 4 {
        Some(',')
    } else if count_char_in(first_line, ';') >= 4 {
        Some(';')
    } else if count_char_in(first_line, ' ') >= 7 {
        Some(' ')
    } else {
        None
    }
}

/// Detection is a function of the first line alone: the same line always
/// yields the same delimiter.
pub proof fn lemma_detect_deterministic(a: Seq<char>, b: Seq<char>)
    requires
        a == b,
    ensures
        spec_detect_delimiter(a) == spec_detect_delimiter(b),
{
}

/// The most occurrences any candidate delimiter has in the header line;
/// one more than this is the widest header any candidate could split out.
pub open spec fn spec_best_split_count(first: Seq<char>) -> nat {
    let t = count_char(first, '\t');
    let c = count_char(first, ',');
    let s = count_char(first, ';');
    let sp = count_char(first, ' ');
    let m1 = if t >= c { t } else { c };
    let m2 = if m1 >= s { m1 } else { s };
    if m2 >= sp {
        m2
    } else {
        sp
    }
}

fn best_split_count(first_line: &str) -> (r: usize)
    ensures
        r == spec_best_split_count(first_line@),
{
    let t = count_char_in(first_line, '\t');
    let c = count_char_in(first_line, ',');
    let s = count_char_in(first_line, ';');
    let sp = count_char_in(first_line, ' ');
    let m1 = if t >= c {
        t
    } else {
        c
    };
    let m2 = if m1 >= s {
        m1
    } else {
        s
    };
    if m2 >= sp {
        m2
    } else {
        sp
    }
}

// --- timestamp and price cells ---

/// A dotted date: contains a `.` and is at least ten characters long.
pub open spec fn is_valid_date_seq(s: Seq<char>) -> bool {
    find_char_spec(s, '.') != -1 && s.len() >= 10
}

pub fn is_valid_date_format(s: &str) -> (r: bool)
    ensures
        r == is_valid_date_seq(s@),
{
    let has_dot = match find_char(s, '.') {
        Some(_) => true,
        None => false,
    };
    has_dot && s.unicode_len() >= 10
}

/// All fields of the row are empty after trimming.
pub open spec fn spec_is_blank_row(fields: Seq<Seq<char>>) -> bool {
    forall|i: int| 0 <= i < fields.len() ==> fields[i].len() == 0
}

/// The first price-column error in columns `col..=hi`, if any; columns past
/// the row's width are not checked.
pub open spec fn spec_price_scan(fields: Seq<Seq<char>>, col: int, hi: int, row: usize) -> Option<
    FormatError,
>
    decreases hi + 1 - col,
{
    if col > hi {
        None
    } else if col < fields.len() && !is_float_str(fields[col]) {
        Some(FormatError::InvalidPrice { row, column: (col + 1) as usize })
    } else {
        spec_price_scan(fields, col + 1, hi, row)
    }
}

/// The check applied to the first counted data row: its timestamp cell and
/// its price window, which sits at columns 2..=5 for wide headers and
/// 1..=4 otherwise.
pub open spec fn spec_first_row_error(
    fields: Seq<Seq<char>>,
    header_len: nat,
    row: usize,
) -> Option<FormatError> {
    if !(is_valid_date_seq(fields[0]) || is_i64_str(fields[0])) {
        Some(FormatError::InvalidTimestamp { row })
    } else if header_len >= 8 {
        spec_price_scan(fields, 2, 5, row)
    } else {
        spec_price_scan(fields, 1, 4, row)
    }
}

// --- the row scan ---

/// Walks the data rows from line `j`, carrying the number of rows counted so
/// far, and yields the final count or the first error.
pub open spec fn spec_scan_rows(
    lines: Seq<Seq<char>>,
    d: char,
    header_len: nat,
    j: int,
    count: nat,
) -> Result<nat, FormatError>
    decreases lines.len() - j,
{
    if j < 0 || j >= lines.len() {
        if count == 0 {
            Err(FormatError::EmptyFile)
        } else {
            Ok(count)
        }
    } else {
        let fields = spec_fields(lines[j], d);
        if spec_is_blank_row(fields) {
            spec_scan_rows(lines, d, header_len, j + 1, count)
        } else if fields.len() < 5 {
            Err(FormatError::InsufficientColumns { row: (j + 1) as usize, found: fields.len() as usize })
        } else if count == 0 && spec_first_row_error(fields, header_len, (j + 1) as usize).is_some() {
            Err(spec_first_row_error(fields, header_len, (j + 1) as usize).unwrap())
        } else {
            spec_scan_rows(lines, d, header_len, j + 1, count + 1)
        }
    }
}

/// The outcome of detection and validation on a whole file.
pub open spec fn spec_validate_content(content: Seq<char>) -> Result<nat, FormatError> {
    if is_blank_seq(content) {
        Err(FormatError::EmptyFile)
    } else {
        let lines = line_seqs(content);
        match spec_detect_delimiter(lines[0]) {
            None => {
                if spec_best_split_count(lines[0]) < 4 {
                    Err(
                        FormatError::InsufficientColumns {
                            row: 1,
                            found: (spec_best_split_count(lines[0]) + 1) as usize,
                        },
                    )
                } else {
                    Err(FormatError::DelimiterUndetectable)
                }
            },
            Some(d) => {
                let header = spec_fields(lines[0], d);
                if header.len() < 5 {
                    Err(FormatError::InsufficientColumns { row: 1, found: header.len() as usize })
                } else {
                    spec_scan_rows(lines, d, header.len(), 1, 0)
                }
            },
        }
    }
}

fn is_blank_row(fields: &Vec<String>) -> (r: bool)
    ensures
        r == spec_is_blank_row(views_of(fields@)),
{
    let mut k: usize = 0;
    while k < fields.len()
        invariant
            0 <= k <= fields@.len(),
            forall|m: int| 0 <= m < k ==> views_of(fields@)[m].len() == 0,
        decreases fields@.len() - k,
    {
        if fields[k].as_str().unicode_len() > 0 {
            proof {
                assert(views_of(fields@)[k as int].len() > 0);
            }
            return false;
        }
        k = k + 1;
    }
    true
}

fn first_row_check(fields: &Vec<String>, header_len: usize, row: usize) -> (r: Option<
    FormatError,
>)
    requires
        views_of(fields@).len() >= 1,
    ensures
        r == spec_first_row_error(views_of(fields@), header_len as nat, row),
{
    let ghost fv = views_of(fields@);
    proof {
        assert(fv[0] == fields@[0 as int]@);
    }
    let c0 = &fields[0];
    if !(is_valid_date_format(c0.as_str()) || is_i64_token(c0.as_str())) {
        return Some(FormatError::InvalidTimestamp { row });
    }
    let (lo, hi): (usize, usize) = if header_len >= 8 {
        (2, 5)
    } else {
        (1, 4)
    };
    let mut col: usize = lo;
    while col <= hi
        invariant
            lo <= col <= hi + 1,
            hi <= 5,
            fv == views_of(fields@),
            is_valid_date_seq(fv[0]) || is_i64_str(fv[0]),
            header_len >= 8 ==> lo == 2 && hi == 5,
            header_len < 8 ==> lo == 1 && hi == 4,
            spec_price_scan(fv, lo as int, hi as int, row) == spec_price_scan(
                fv,
                col as int,
                hi as int,
                row,
            ),
        decreases hi + 1 - col,
    {
        if col < fields.len() {
            proof {
                assert(fv[col as int] == fields@[col as int]@);
            }
            if !is_float_token(fields[col].as_str()) {
                proof {
                    assert(spec_price_scan(fv, col as int, hi as int, row) == Some(
                        FormatError::InvalidPrice { row, column: (col + 1) as usize },
                    ));
                }
                return Some(FormatError::InvalidPrice { row, column: col + 1 });
            }
        }
        col = col + 1;
    }
    None
}

/// Detects the delimiter from the first line, checks the header width, then
/// validates and counts the data rows, as `spec_validate_content` states.
/// A header too narrow to reach five fields under every candidate delimiter
/// is rejected as `InsufficientColumns`; one wide enough whose delimiter
/// merely stays below its threshold is `DelimiterUndetectable`.
pub fn count_and_validate_csv(content: &str) -> (r: Result<usize, FormatError>)
    ensures
        match r {
            Ok(c) => spec_validate_content(content@) == Ok::<nat, FormatError>(c as nat),
            Err(e) => spec_validate_content(content@) == Err::<nat, FormatError>(e),
        },
{
    if is_blank(content) {
        return Err(FormatError::EmptyFile);
    }
    let lines = lines_of(content);
    let ghost lv = line_seqs(content@);
    let d = match detect_delimiter(lines[0].as_str()) {
        Some(d) => d,
        None => {
            proof {
                assert(lv[0] == lines@[0 as int]@);
            }
            let m = best_split_count(lines[0].as_str());
            if m < 4 {
                return Err(FormatError::InsufficientColumns { row: 1, found: m + 1 });
            }
            return Err(FormatError::DelimiterUndetectable);
        },
    };
    let header = fields_of(lines[0].as_str(), d);
    let hlen = header.len();
    proof {
        assert(views_of(header@).len() == header@.len());
    }
    if hlen < 5 {
        return Err(FormatError::InsufficientColumns { row: 1, found: hlen });
    }
    let n = lines.len();
    let mut j: usize = 1;
    let mut count: usize = 0;
    while j < n
        invariant
            n == lines@.len(),
            1 <= j <= n,
            count < j,
            !is_blank_seq(content@),
            lv == line_seqs(content@),
            lv == views_of(lines@),
            lv.len() == n,
            spec_detect_delimiter(lv[0]) == Some(d),
            hlen >= 5,
            hlen as nat == spec_fields(lv[0], d).len(),
            spec_scan_rows(lv, d, hlen as nat, 1, 0) == spec_scan_rows(
                lv,
                d,
                hlen as nat,
                j as int,
                count as nat,
            ),
        decreases n - j,
    {
        let fields = fields_of(lines[j].as_str(), d);
        let ghost fv = spec_fields(lv[j as int], d);
        proof {
            assert(views_of(fields@) == fv);
        }
        if is_blank_row(&fields) {
            j = j + 1;
            continue;
        }
        if fields.len() < 5 {
            proof {
                assert(fv.len() == fields@.len());
                assert(spec_scan_rows(lv, d, hlen as nat, j as int, count as nat) == Err::<
                    nat,
                    FormatError,
                >(FormatError::InsufficientColumns { row: (j + 1) as usize, found: fields@.len() as usize }));
            }
            return Err(FormatError::InsufficientColumns { row: j + 1, found: fields.len() });
        }
        if count == 0 {
            match first_row_check(&fields, hlen, j + 1) {
                Some(e) => {
                    proof {
                        assert(spec_scan_rows(lv, d, hlen as nat, j as int, count as nat) == Err::<
                            nat,
                            FormatError,
                        >(e));
                    }
                    return Err(e);
                },
                None => {},
            }
        }
        count = count + 1;
        j = j + 1;
    }
    if count == 0 {
        return Err(FormatError::EmptyFile);
    }
    Ok(count)
}

} // verus!
