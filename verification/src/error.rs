//! The error taxonomy of the ingestion pipeline, with a rendered message
//! for each failure that names the offending symbol, file, row or column.
use vstd::prelude::*;

use crate::format::FormatError;
use crate::text::dec_digits;
use crate::text::push_dec_u64;
use crate::text::push_str;

verus! {

/// Everything that can make an acquisition, assembly or store operation
/// fail.
#[derive(Debug, Clone, PartialEq)]
pub enum IngestError {
    /// One file failed format detection or row validation.
    Format { timeframe: String, error: FormatError },
    /// A file could not be read or written.
    Io,
    /// A network request failed, returned a bad status, or returned a
    /// response that could not be understood.
    Network,
    /// The target symbol is already persisted.
    AlreadyExists { symbol: String },
    /// The requested symbol is not persisted, or a local path is missing.
    NotFound { symbol: String },
    /// No eligible files or symbols were found at the source.
    NoData,
    /// Every timeframe of an acquisition failed.
    NoValidTimeframes,
    /// A quote response held no index at which all fields are present.
    NoCandles,
    /// The repository reference does not name an owner and a repository.
    InvalidUrl,
    /// The target name is empty or holds a character outside letters,
    /// digits and underscores.
    InvalidSymbolName,
    /// A calendar date is not a valid `YYYY-MM-DD` day.
    InvalidDate,
    /// The repository structure mode is neither `single` nor `multi`.
    InvalidStructureType,
    /// A requested timeframe code has no provider interval.
    UnsupportedTimeframe { timeframe: String },
}

/// The rendered message of a format error.
pub open spec fn spec_format_message(e: FormatError) -> Seq<char> {
    match e {
        FormatError::EmptyFile => "File is empty"@,
        FormatError::DelimiterUndetectable => "Could not detect delimiter (expected tab, comma, semicolon or space)"@,
        FormatError::InsufficientColumns { row, found } => "Row "@ + dec_digits(row as nat)
            + ": expected at least 5 columns, found "@ + dec_digits(found as nat),
        FormatError::InvalidTimestamp { row } => "Row "@ + dec_digits(row as nat)
            + ": invalid date or timestamp"@,
        FormatError::InvalidPrice { row, column } => "Row "@ + dec_digits(row as nat)
            + ": invalid price in column "@ + dec_digits(column as nat),
    }
}

/// The rendered message of an ingestion error.
pub open spec fn spec_error_message(e: IngestError) -> Seq<char> {
    match e {
        IngestError::Format { timeframe, error } => "Error in "@ + timeframe@ + ".csv: "@
            + spec_format_message(error),
        IngestError::Io => "File operation failed"@,
        IngestError::Network => "Network request failed"@,
        IngestError::AlreadyExists { symbol } => "Symbol '"@ + symbol@
            + "' already exists. Please delete it first."@,
        IngestError::NotFound { symbol } => "Symbol "@ + symbol@ + " not found"@,
        IngestError::NoData => "No eligible data files found"@,
        IngestError::NoValidTimeframes => "No valid timeframe data was acquired"@,
        IngestError::NoCandles => "No valid candle data found"@,
        IngestError::InvalidUrl => "Invalid repository URL format. Expected: host/username/repo"@,
        IngestError::InvalidSymbolName => "Symbol name must be non-empty and use only letters, numbers, and underscores"@,
        IngestError::InvalidDate => "Invalid date format. Expected: YYYY-MM-DD"@,
        IngestError::InvalidStructureType => "Invalid structure type. Use 'single' or 'multi'"@,
        IngestError::UnsupportedTimeframe { timeframe } => "Unsupported timeframe: "@
            + timeframe@,
    }
}

pub fn format_error_message(e: &FormatError) -> (r: String)
    ensures
        r@ == spec_format_message(*e),
{
    let mut s = String::new();
    match e {
        FormatError::EmptyFile => {
            push_str(&mut s, "File is empty");
        },
        FormatError::DelimiterUndetectable => {
            push_str(&mut s, "Could not detect delimiter (expected tab, comma, semicolon or space)");
        },
        FormatError::InsufficientColumns { row, found } => {
            push_str(&mut s, "Row ");
            push_dec_u64(&mut s, *row as u64);
            push_str(&mut s, ": expected at least 5 columns, found ");
            push_dec_u64(&mut s, *found as u64);
        },
        FormatError::InvalidTimestamp { row } => {
            push_str(&mut s, "Row ");
            push_dec_u64(&mut s, *row as u64);
            push_str(&mut s, ": invalid date or timestamp");
        },
        FormatError::InvalidPrice { row, column } => {
            push_str(&mut s, "Row ");
            push_dec_u64(&mut s, *row as u64);
            push_str(&mut s, ": invalid price in column ");
            push_dec_u64(&mut s, *column as u64);
        },
    }
    proof {
        assert(Seq::<char>::empty() + spec_format_message(*e) =~= spec_format_message(*e));
        assert(s@ =~= spec_format_message(*e));
    }
    s
}

impl IngestError {
    /// The human-readable message of this error.
    pub fn message(&self) -> (r: String)
        ensures
            r@ == spec_error_message(*self),
    {
        let mut s = String::new();
        match self {
            IngestError::Format { timeframe, error } => {
                push_str(&mut s, "Error in ");
                push_str(&mut s, timeframe.as_str());
                push_str(&mut s, ".csv: ");
                let inner = format_error_message(error);
                push_str(&mut s, inner.as_str());
            },
            IngestError::Io => {
                push_str(&mut s, "File operation failed");
            },
            IngestError::Network => {
                push_str(&mut s, "Network request failed");
            },
            IngestError::AlreadyExists { symbol } => {
                push_str(&mut s, "Symbol '");
                push_str(&mut s, symbol.as_str());
                push_str(&mut s, "' already exists. Please delete it first.");
            },
            IngestError::NotFound { symbol } => {
                push_str(&mut s, "Symbol ");
                push_str(&mut s, symbol.as_str());
                push_str(&mut s, " not found");
            },
            IngestError::NoData => {
                push_str(&mut s, "No eligible data files found");
            },
            IngestError::NoValidTimeframes => {
                push_str(&mut s, "No valid timeframe data was acquired");
            },
            IngestError::NoCandles => {
                push_str(&mut s, "No valid candle data found");
            },
            IngestError::InvalidUrl => {
                push_str(&mut s, "Invalid repository URL format. Expected: host/username/repo");
            },
            IngestError::InvalidSymbolName => {
                push_str(
                    &mut s,
                    "Symbol name must be non-empty and use only letters, numbers, and underscores",
                );
            },
            IngestError::InvalidDate => {
                push_str(&mut s, "Invalid date format. Expected: YYYY-MM-DD");
            },
            IngestError::InvalidStructureType => {
                push_str(&mut s, "Invalid structure type. Use 'single' or 'multi'");
            },
            IngestError::UnsupportedTimeframe { timeframe } => {
                push_str(&mut s, "Unsupported timeframe: ");
                push_str(&mut s, timeframe.as_str());
            },
        }
        proof {
            assert(Seq::<char>::empty() + spec_error_message(*self) =~= spec_error_message(
                *self,
            ));
            assert(s@ =~= spec_error_message(*self));
        }
        s
    }
}

} // verus!
