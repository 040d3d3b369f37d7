//! Syntax of the numeric tokens that appear in candle rows.
//!
//! A timestamp cell must be a signed decimal integer that fits in 64 bits; a
//! price cell must be a floating-point literal in the form the Rust standard
//! library accepts: an optional sign, then either `inf`, `infinity`, `nan`
//! (any letter case), or digits with an optional point and an optional
//! exponent.
use vstd::prelude::*;

use crate::text::find_char;
use crate::text::find_char_spec;
use crate::text::is_digit;
use crate::text::is_digit_char;
use crate::text::lemma_find_char_at;
use crate::text::lemma_find_char_absent;
use crate::text::str_eq;
use crate::text::to_upper;
use crate::text::upper_seq;

verus! {

// --- digit runs ---

pub open spec fn all_digits(s: Seq<char>) -> bool {
    forall|i: int| 0 <= i < s.len() ==> is_digit_char(s[i])
}

/// The value of a run of decimal digits.
pub open spec fn digits_val(s: Seq<char>) -> int
    decreases s.len(),
{
    if s.len() == 0 {
        0
    } else {
        digits_val(s.drop_last()) * 10 + ((s.last() as u32) - 48)
    }
}

pub proof fn lemma_digits_val_nonneg(s: Seq<char>)
    requires
        all_digits(s),
    ensures
        digits_val(s) >= 0,
    decreases s.len(),
{
    if s.len() > 0 {
        lemma_digits_val_nonneg(s.drop_last());
    }
}

// --- signed integer tokens ---

/// The token without its optional leading sign.
pub open spec fn signed_body(s: Seq<char>) -> Seq<char> {
    if s.len() > 0 && (s[0] == '+' || s[0] == '-') {
        s.drop_first()
    } else {
        s
    }
}

pub open spec fn is_neg_token(s: Seq<char>) -> bool {
    s.len() > 0 && s[0] == '-'
}

/// An optional sign followed by at least one digit.
pub open spec fn is_int_syntax(s: Seq<char>) -> bool {
    signed_body(s).len() > 0 && all_digits(signed_body(s))
}

/// The signed value of an integer token.
pub open spec fn int_token_val(s: Seq<char>) -> int {
    if is_neg_token(s) {
        -digits_val(signed_body(s))
    } else {
        digits_val(signed_body(s))
    }
}

/// The token parses as a 64-bit signed integer.
pub open spec fn is_i64_str(s: Seq<char>) -> bool {
    is_int_syntax(s) && i64::MIN <= int_token_val(s) <= i64::MAX
}

/// Checks whether `s` is a signed decimal integer in the 64-bit range,
/// the same acceptance rule the standard integer parser uses.
pub fn is_i64_token(s: &str) -> (r: bool)
    ensures
        r == is_i64_str(s@),
{
    let n = s.unicode_len();
    let mut i: usize = 0;
    let mut neg = false;
    if n > 0 {
        let c0 = s.get_char(0);
        if c0 == '+' || c0 == '-' {
            i = 1;
            neg = c0 == '-';
        }
    }
    let ghost body = signed_body(s@);
    proof {
        assert(body =~= s@.subrange(i as int, n as int));
    }
    if i == n {
        return false;
    }
    let bound: u64 = if neg {
        9223372036854775808
    } else {
        9223372036854775807
    };
    let mut val: u64 = 0;
    let mut too_big = false;
    let mut j: usize = i;
    while j < n
        invariant
            n == s@.len(),
            i <= j <= n,
            i < n,
            body == signed_body(s@),
            body == s@.subrange(i as int, n as int),
            neg ==> bound == 9223372036854775808,
            !neg ==> bound == 9223372036854775807,
            all_digits(body.take(j - i)),
            too_big ==> digits_val(body.take(j - i)) > bound,
            !too_big ==> val == digits_val(body.take(j - i)) && val <= bound,
        decreases n - j,
    {
        let c = s.get_char(j);
        if !is_digit(c) {
            proof {
                assert(body[j - i] == s@[j as int]);
                assert(!is_digit_char(body[j - i]));
                assert(!all_digits(body));
            }
            return false;
        }
        let d: u64 = ((c as u32) - 48) as u64;
        let ghost pre = body.take(j - i);
        proof {
            assert(body.take(j - i + 1).drop_last() =~= pre);
            assert(body.take(j - i + 1).last() == s@[j as int]);
            assert(digits_val(body.take(j - i + 1)) == digits_val(pre) * 10 + d);
            lemma_digits_val_nonneg(pre);
        }
        if too_big {
            proof {
                assert(digits_val(body.take(j - i + 1)) > bound);
            }
        } else {
            if val > bound / 10 || (val == bound / 10 && d > bound % 10) {
                too_big = true;
                proof {
                    assert(bound == (bound / 10) * 10 + bound % 10);
                    assert(digits_val(pre) * 10 + d > bound);
                }
            } else {
                proof {
                    assert(bound == (bound / 10) * 10 + bound % 10);
                    assert(val * 10 + d <= bound);
                }
                val = val * 10 + d;
            }
        }
        j = j + 1;
    }
    proof {
        assert(body.take(n - i) =~= body);
    }
    !too_big
}

// --- floating-point tokens ---

/// Digits with at most one decimal point and at least one digit.
pub open spec fn is_mantissa(s: Seq<char>) -> bool {
    let dot = find_char_spec(s, '.');
    if dot == -1 {
        s.len() >= 1 && all_digits(s)
    } else {
        s.len() >= 2 && all_digits(s.subrange(0, dot)) && all_digits(
            s.subrange(dot + 1, s.len() as int),
        )
    }
}

/// One of the special float words, in any letter case.
pub open spec fn is_special_float(s: Seq<char>) -> bool {
    upper_seq(s) == "INF"@ || upper_seq(s) == "INFINITY"@ || upper_seq(s) == "NAN"@
}

/// Index of the first exponent marker, or -1 when absent.
pub open spec fn find_exp_spec(s: Seq<char>) -> int {
    let le = find_char_spec(s, 'e');
    let ue = find_char_spec(s, 'E');
    if le == -1 {
        ue
    } else if ue == -1 {
        le
    } else if le < ue {
        le
    } else {
        ue
    }
}

/// A mantissa with an optional exponent part.
pub open spec fn is_float_number(s: Seq<char>) -> bool {
    let e = find_exp_spec(s);
    if e == -1 {
        is_mantissa(s)
    } else {
        is_mantissa(s.subrange(0, e)) && is_int_syntax(s.subrange(e + 1, s.len() as int))
    }
}

/// The token parses as a floating-point number: an optional sign followed by
/// a special word or a decimal number with optional exponent.
pub open spec fn is_float_str(s: Seq<char>) -> bool {
    is_special_float(signed_body(s)) || is_float_number(signed_body(s))
}

fn all_digits_in(s: &str, from: usize, to: usize) -> (r: bool)
    requires
        from <= to <= s@.len(),
    ensures
        r == all_digits(s@.subrange(from as int, to as int)),
{
    let mut k: usize = from;
    while k < to
        invariant
            from <= k <= to <= s@.len(),
            forall|m: int| from <= m < k ==> is_digit_char(s@[m]),
        decreases to - k,
    {
        if !is_digit(s.get_char(k)) {
            proof {
                assert(s@.subrange(from as int, to as int)[k - from] == s@[k as int]);
            }
            return false;
        }
        k = k + 1;
    }
    proof {
        assert forall|m: int| 0 <= m < to - from implies is_digit_char(
            s@.subrange(from as int, to as int)[m],
        ) by {
            assert(s@.subrange(from as int, to as int)[m] == s@[from + m]);
        }
    }
    true
}

/// Finds the first `e` or `E` in `s@` at or after nothing (whole string).
fn find_exp(s: &str) -> (r: Option<usize>)
    ensures
        match r {
            Some(k) => find_exp_spec(s@) == k && k < s@.len(),
            None => find_exp_spec(s@) == -1,
        },
{
    let n = s.unicode_len();
    let mut k: usize = 0;
    while k < n
        invariant
            n == s@.len(),
            0 <= k <= n,
            forall|m: int| 0 <= m < k ==> s@[m] != 'e' && s@[m] != 'E',
        decreases n - k,
    {
        let c = s.get_char(k);
        if c == 'e' || c == 'E' {
            proof {
                if c == 'e' {
                    lemma_find_char_at(s@, 'e', k as int);
                    crate::text::lemma_find_char_props(s@, 'E');
                } else {
                    lemma_find_char_at(s@, 'E', k as int);
                    crate::text::lemma_find_char_props(s@, 'e');
                }
            }
            return Some(k);
        }
        k = k + 1;
    }
    proof {
        lemma_find_char_absent(s@, 'e');
        lemma_find_char_absent(s@, 'E');
    }
    None
}

/// Checks the sign-stripped part of an integer token without materializing it.
fn is_int_syntax_in(s: &str, from: usize) -> (r: bool)
    requires
        from <= s@.len(),
    ensures
        r == is_int_syntax(s@.subrange(from as int, s@.len() as int)),
{
    let n = s.unicode_len();
    let ghost part = s@.subrange(from as int, n as int);
    let mut k: usize = from;
    if k < n {
        let c = s.get_char(k);
        if c == '+' || c == '-' {
            k = k + 1;
        }
    }
    proof {
        if k > from {
            assert(part[0] == s@[from as int]);
            assert(signed_body(part) =~= s@.subrange(from + 1, n as int));
        } else {
            assert(part.len() > 0 ==> part[0] == s@[from as int]);
            assert(signed_body(part) =~= part);
        }
    }
    if k == n {
        return false;
    }
    all_digits_in(s, k, n)
}

/// Checks whether `s` is a floating-point literal, the same acceptance rule
/// the standard float parser uses.
pub fn is_float_token(s: &str) -> (r: bool)
    ensures
        r == is_float_str(s@),
{
    let n = s.unicode_len();
    let mut i: usize = 0;
    if n > 0 {
        let c0 = s.get_char(0);
        if c0 == '+' || c0 == '-' {
            i = 1;
        }
    }
    let body = s.substring_char(i, n);
    proof {
        assert(signed_body(s@) =~= body@);
    }
    // special words, compared without regard to letter case
    let up = to_upper(body);
    if str_eq(up.as_str(), "INF") || str_eq(up.as_str(), "INFINITY") || str_eq(
        up.as_str(),
        "NAN",
    ) {
        return true;
    }
    // mantissa with optional exponent
    let nb = body.unicode_len();
    let (mant_to, has_exp): (usize, bool) = match find_exp(body) {
        Some(k) => (k, true),
        None => (nb, false),
    };
    let mant = body.substring_char(0, mant_to);
    proof {
        assert(mant@ =~= body@.subrange(0, mant_to as int));
    }
    let mant_ok = match find_char(mant, '.') {
        None => {
            let ml = mant.unicode_len();
            let ok = all_digits_in(mant, 0, ml);
            proof {
                assert(mant@.subrange(0, ml as int) =~= mant@);
            }
            ml >= 1 && ok
        },
        Some(dot) => {
            let ml = mant.unicode_len();
            let head_ok = all_digits_in(mant, 0, dot);
            let tail_ok = all_digits_in(mant, dot + 1, ml);
            ml >= 2 && head_ok && tail_ok
        },
    };
    proof {
        if !has_exp {
            assert(body@.subrange(0, nb as int) =~= body@);
        }
    }
    if !mant_ok {
        return false;
    }
    if !has_exp {
        return true;
    }
    is_int_syntax_in(body, mant_to + 1)
}

} // verus!
