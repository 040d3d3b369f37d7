//! The timeframe canonicalizer.
//!
//! A raw token is canonicalized by ASCII upper-casing; the canonical set is
//! the fifteen codes from one minute up to one month. Each code has a fixed
//! display label and a rank that orders records; unknown codes keep rank 15
//! and sort after all known codes.
use vstd::prelude::*;

use crate::text::str_eq;
use crate::text::to_upper;
use crate::text::upper_char;
use crate::text::upper_seq;

verus! {

/// The position of a code in the canonical order; 15 for unknown codes.
pub open spec fn tf_rank_seq(s: Seq<char>) -> int {
    if s == "M1"@ {
        0
    } else if s == "M2"@ {
        1
    } else if s == "M3"@ {
        2
    } else if s == "M4"@ {
        3
    } else if s == "M5"@ {
        4
    } else if s == "M10"@ {
        5
    } else if s == "M15"@ {
        6
    } else if s == "M30"@ {
        7
    } else if s == "H1"@ {
        8
    } else if s == "H2"@ {
        9
    } else if s == "H3"@ {
        10
    } else if s == "H4"@ {
        11
    } else if s == "D1"@ {
        12
    } else if s == "W1"@ {
        13
    } else if s == "MN1"@ {
        14
    } else {
        15
    }
}

/// A member of the canonical timeframe set.
pub open spec fn is_canonical_code(s: Seq<char>) -> bool {
    tf_rank_seq(s) < 15
}

pub fn timeframe_rank(code: &str) -> (r: usize)
    ensures
        r == tf_rank_seq(code@),
{
    if str_eq(code, "M1") {
        0
    } else if str_eq(code, "M2") {
        1
    } else if str_eq(code, "M3") {
        2
    } else if str_eq(code, "M4") {
        3
    } else if str_eq(code, "M5") {
        4
    } else if str_eq(code, "M10") {
        5
    } else if str_eq(code, "M15") {
        6
    } else if str_eq(code, "M30") {
        7
    } else if str_eq(code, "H1") {
        8
    } else if str_eq(code, "H2") {
        9
    } else if str_eq(code, "H3") {
        10
    } else if str_eq(code, "H4") {
        11
    } else if str_eq(code, "D1") {
        12
    } else if str_eq(code, "W1") {
        13
    } else if str_eq(code, "MN1") {
        14
    } else {
        15
    }
}

/// Canonicalization upper-cases the raw token and keeps unknown tokens
/// verbatim.
pub fn canonicalize_timeframe(token: &str) -> (r: String)
    ensures
        r@ == upper_seq(token@),
{
    to_upper(token)
}

/// The token, upper-cased, is in the canonical timeframe set.
pub fn is_valid_timeframe(name: &str) -> (r: bool)
    ensures
        r == is_canonical_code(upper_seq(name@)),
{
    let up = to_upper(name);
    timeframe_rank(up.as_str()) < 15
}

/// The fixed display label of each canonical code; unknown codes are their
/// own label.
pub open spec fn tf_label_seq(s: Seq<char>) -> Seq<char> {
    if s == "M1"@ {
        "1 min"@
    } else if s == "M2"@ {
        "2 min"@
    } else if s == "M3"@ {
        "3 min"@
    } else if s == "M4"@ {
        "4 min"@
    } else if s == "M5"@ {
        "5 min"@
    } else if s == "M10"@ {
        "10 min"@
    } else if s == "M15"@ {
        "15 min"@
    } else if s == "M30"@ {
        "30 min"@
    } else if s == "H1"@ {
        "1 hour"@
    } else if s == "H2"@ {
        "2 hour"@
    } else if s == "H3"@ {
        "3 hour"@
    } else if s == "H4"@ {
        "4 hours"@
    } else if s == "D1"@ {
        "1 day"@
    } else if s == "W1"@ {
        "1 week"@
    } else if s == "MN1"@ {
        "1 month"@
    } else {
        s
    }
}

pub fn convert_timeframe_to_display(timeframe: &str) -> (r: String)
    ensures
        r@ == tf_label_seq(timeframe@),
{
    if str_eq(timeframe, "M1") {
        String::from_str("1 min")
    } else if str_eq(timeframe, "M2") {
        String::from_str("2 min")
    } else if str_eq(timeframe, "M3") {
        String::from_str("3 min")
    } else if str_eq(timeframe, "M4") {
        String::from_str("4 min")
    } else if str_eq(timeframe, "M5") {
        String::from_str("5 min")
    } else if str_eq(timeframe, "M10") {
        String::from_str("10 min")
    } else if str_eq(timeframe, "M15") {
        String::from_str("15 min")
    } else if str_eq(timeframe, "M30") {
        String::from_str("30 min")
    } else if str_eq(timeframe, "H1") {
        String::from_str("1 hour")
    } else if str_eq(timeframe, "H2") {
        String::from_str("2 hour")
    } else if str_eq(timeframe, "H3") {
        String::from_str("3 hour")
    } else if str_eq(timeframe, "H4") {
        String::from_str("4 hours")
    } else if str_eq(timeframe, "D1") {
        String::from_str("1 day")
    } else if str_eq(timeframe, "W1") {
        String::from_str("1 week")
    } else if str_eq(timeframe, "MN1") {
        String::from_str("1 month")
    } else {
        timeframe.to_owned()
    }
}

/// The quote provider's interval string for each supported code; codes
/// outside the table have no mapping.
pub open spec fn tf_interval_seq(s: Seq<char>) -> Option<Seq<char>> {
    if s == "M1"@ {
        Some("1m"@)
    } else if s == "M2"@ {
        Some("2m"@)
    } else if s == "M5"@ {
        Some("5m"@)
    } else if s == "M15"@ {
        Some("15m"@)
    } else if s == "M30"@ {
        Some("30m"@)
    } else if s == "H1"@ {
        Some("1h"@)
    } else if s == "H4"@ {
        Some("4h"@)
    } else if s == "D1"@ {
        Some("1d"@)
    } else if s == "W1"@ {
        Some("1wk"@)
    } else if s == "MN1"@ {
        Some("1mo"@)
    } else {
        None
    }
}

pub fn map_timeframe_to_yfinance(tf: &str) -> (r: Option<String>)
    ensures
        match r {
            Some(x) => tf_interval_seq(tf@) == Some(x@),
            None => tf_interval_seq(tf@).is_none(),
        },
{
    if str_eq(tf, "M1") {
        Some(String::from_str("1m"))
    } else if str_eq(tf, "M2") {
        Some(String::from_str("2m"))
    } else if str_eq(tf, "M5") {
        Some(String::from_str("5m"))
    } else if str_eq(tf, "M15") {
        Some(String::from_str("15m"))
    } else if str_eq(tf, "M30") {
        Some(String::from_str("30m"))
    } else if str_eq(tf, "H1") {
        Some(String::from_str("1h"))
    } else if str_eq(tf, "H4") {
        Some(String::from_str("4h"))
    } else if str_eq(tf, "D1") {
        Some(String::from_str("1d"))
    } else if str_eq(tf, "W1") {
        Some(String::from_str("1wk"))
    } else if str_eq(tf, "MN1") {
        Some(String::from_str("1mo"))
    } else {
        None
    }
}

// --- canonicalization is idempotent ---

/// Upper-casing is idempotent, so canonicalizing a token twice gives the
/// same code as canonicalizing it once.
pub proof fn lemma_canonicalize_idempotent(s: Seq<char>)
    ensures
        upper_seq(upper_seq(s)) == upper_seq(s),
{
    assert forall|i: int| 0 <= i < s.len() implies upper_seq(upper_seq(s))[i] == upper_seq(s)[i] by {
        let c = s[i];
        assert(upper_seq(s)[i] == upper_char(c));
        assert(upper_seq(upper_seq(s))[i] == upper_char(upper_char(c)));
        if 'a' <= c && c <= 'z' {
            assert(!('a' <= upper_char(c) && upper_char(c) <= 'z'));
        }
    }
    assert(upper_seq(upper_seq(s)) =~= upper_seq(s));
}

/// A canonical code is already upper-case, so canonicalizing it returns it
/// unchanged.
pub proof fn lemma_canonical_code_fixed(s: Seq<char>)
    requires
        is_canonical_code(s),
    ensures
        upper_seq(s) == s,
{
    reveal_strlit("M1");
    reveal_strlit("M2");
    reveal_strlit("M3");
    reveal_strlit("M4");
    reveal_strlit("M5");
    reveal_strlit("M10");
    reveal_strlit("M15");
    reveal_strlit("M30");
    reveal_strlit("H1");
    reveal_strlit("H2");
    reveal_strlit("H3");
    reveal_strlit("H4");
    reveal_strlit("D1");
    reveal_strlit("W1");
    reveal_strlit("MN1");
    assert forall|i: int| 0 <= i < s.len() implies upper_seq(s)[i] == s[i] by {
        assert(!('a' <= s[i] && s[i] <= 'z'));
    }
    assert(upper_seq(s) =~= s);
}

} // verus!
