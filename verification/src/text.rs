//! Character classes and string primitives used by the ingestion pipeline.
//!
//! All reasoning is done over `Seq<char>` views; the executable functions
//! carry contracts that tie them to the spec-level definitions.
use vstd::prelude::*;

verus! {

// --- character classes ---

/// ASCII decimal digit.
pub open spec fn is_digit_char(c: char) -> bool {
    '0' <= c && c <= '9'
}

/// ASCII whitespace: space, tab, line feed, form feed, carriage return.
pub open spec fn is_space_char(c: char) -> bool {
    c == ' ' || c == '\t' || c == '\n' || c == '\u{c}' || c == '\r'
}

/// ASCII letter, digit, or underscore.
pub open spec fn is_word_char(c: char) -> bool {
    is_digit_char(c) || ('A' <= c && c <= 'Z') || ('a' <= c && c <= 'z') || c == '_'
}

/// ASCII upper-casing of a single character.
pub open spec fn upper_char(c: char) -> char {
    if 'a' <= c && c <= 'z' {
        (((c as u8) - 32) as char)
    } else {
        c
    }
}

/// ASCII upper-casing of a whole sequence.
pub open spec fn upper_seq(s: Seq<char>) -> Seq<char> {
    s.map_values(|c: char| upper_char(c))
}

pub fn is_digit(c: char) -> (r: bool)
    ensures
        r == is_digit_char(c),
{
    '0' <= c && c <= '9'
}

pub fn is_space(c: char) -> (r: bool)
    ensures
        r == is_space_char(c),
{
    c == ' ' || c == '\t' || c == '\n' || c == '\u{c}' || c == '\r'
}

pub fn is_word(c: char) -> (r: bool)
    ensures
        r == is_word_char(c),
{
    is_digit(c) || ('A' <= c && c <= 'Z') || ('a' <= c && c <= 'z') || c == '_'
}

pub fn to_upper_char(c: char) -> (r: char)
    ensures
        r == upper_char(c),
{
    if 'a' <= c && c <= 'z' {
        ((c as u8) - 32) as char
    } else {
        c
    }
}

// --- trusted string building ---

/// Relies on `String::push` from std: appends one character at the end.
#[verifier::external_body]
pub(crate) fn push_char(s: &mut String, c: char)
    ensures
        final(s)@ == old(s)@.push(c),
{
    s.push(c);
}

// --- upper-casing a string ---

pub fn to_upper(s: &str) -> (r: String)
    ensures
        r@ == upper_seq(s@),
{
    let n = s.unicode_len();
    let mut r = String::new();
    let mut i: usize = 0;
    while i < n
        invariant
            n == s@.len(),
            0 <= i <= n,
            r@ == upper_seq(s@.subrange(0, i as int)),
        decreases n - i,
    {
        let c = to_upper_char(s.get_char(i));
        push_char(&mut r, c);
        proof {
            assert(s@.subrange(0, i + 1).drop_last() =~= s@.subrange(0, i as int));
            assert(upper_seq(s@.subrange(0, i + 1)) =~= upper_seq(s@.subrange(0, i as int)).push(
                upper_char(s@[i as int]),
            ));
        }
        i = i + 1;
    }
    proof {
        assert(s@.subrange(0, n as int) =~= s@);
    }
    r
}

// --- equality of string slices ---

pub fn str_eq(a: &str, b: &str) -> (r: bool)
    ensures
        r == (a@ == b@),
{
    let na = a.unicode_len();
    let nb = b.unicode_len();
    if na != nb {
        return false;
    }
    let mut i: usize = 0;
    while i < na
        invariant
            na == a@.len(),
            na == b@.len(),
            0 <= i <= na,
            forall|k: int| 0 <= k < i ==> a@[k] == b@[k],
        decreases na - i,
    {
        if a.get_char(i) != b.get_char(i) {
            return false;
        }
        i = i + 1;
    }
    proof {
        assert(a@ =~= b@);
    }
    true
}

// --- counting occurrences ---

pub open spec fn count_char(s: Seq<char>, c: char) -> nat
    decreases s.len(),
{
    if s.len() == 0 {
        0
    } else {
        count_char(s.drop_last(), c) + (if s.last() == c {
            1nat
        } else {
            0nat
        })
    }
}

pub fn count_char_in(s: &str, c: char) -> (r: usize)
    ensures
        r == count_char(s@, c),
{
    let n = s.unicode_len();
    let mut cnt: usize = 0;
    let mut i: usize = 0;
    while i < n
        invariant
            n == s@.len(),
            0 <= i <= n,
            cnt <= i,
            cnt == count_char(s@.subrange(0, i as int), c),
        decreases n - i,
    {
        proof {
            assert(s@.subrange(0, i + 1).drop_last() =~= s@.subrange(0, i as int));
            assert(s@.subrange(0, i + 1).last() == s@[i as int]);
        }
        if s.get_char(i) == c {
            cnt = cnt + 1;
        }
        i = i + 1;
    }
    proof {
        assert(s@.subrange(0, n as int) =~= s@);
    }
    cnt
}

// --- first occurrence of a character ---

/// Index of the first occurrence of `c` in `s`, or -1 when absent.
pub open spec fn find_char_spec(s: Seq<char>, c: char) -> int
    decreases s.len(),
{
    if s.len() == 0 {
        -1
    } else if s[0] == c {
        0
    } else {
        let r = find_char_spec(s.drop_first(), c);
        if r == -1 {
            -1
        } else {
            r + 1
        }
    }
}

pub proof fn lemma_find_char_at(s: Seq<char>, c: char, i: int)
    requires
        0 <= i < s.len(),
        s[i] == c,
        forall|k: int| 0 <= k < i ==> s[k] != c,
    ensures
        find_char_spec(s, c) == i,
    decreases s.len(),
{
    if i > 0 {
        lemma_find_char_at(s.drop_first(), c, i - 1);
    }
}

pub proof fn lemma_find_char_absent(s: Seq<char>, c: char)
    requires
        forall|k: int| 0 <= k < s.len() ==> s[k] != c,
    ensures
        find_char_spec(s, c) == -1,
    decreases s.len(),
{
    if s.len() > 0 {
        lemma_find_char_absent(s.drop_first(), c);
    }
}

pub proof fn lemma_find_char_props(s: Seq<char>, c: char)
    ensures
        find_char_spec(s, c) == -1 ==> (forall|k: int| 0 <= k < s.len() ==> s[k] != c),
        find_char_spec(s, c) != -1 ==> 0 <= find_char_spec(s, c) < s.len() && s[find_char_spec(
            s,
            c,
        )] == c && (forall|k: int| 0 <= k < find_char_spec(s, c) ==> s[k] != c),
    decreases s.len(),
{
    if s.len() > 0 && s[0] != c {
        lemma_find_char_props(s.drop_first(), c);
        let r = find_char_spec(s.drop_first(), c);
        if r == -1 {
            assert forall|k: int| 0 <= k < s.len() implies s[k] != c by {
                if k > 0 {
                    assert(s.drop_first()[k - 1] == s[k]);
                }
            }
        } else {
            assert(s[r + 1] == s.drop_first()[r]);
            assert forall|k: int| 0 <= k < r + 1 implies s[k] != c by {
                if k > 0 {
                    assert(s.drop_first()[k - 1] == s[k]);
                }
            }
        }
    }
}

pub fn find_char(s: &str, c: char) -> (r: Option<usize>)
    ensures
        match r {
            Some(i) => find_char_spec(s@, c) == i && i < s@.len() && s@[i as int] == c,
            None => find_char_spec(s@, c) == -1,
        },
{
    let n = s.unicode_len();
    let mut i: usize = 0;
    while i < n
        invariant
            n == s@.len(),
            0 <= i <= n,
            forall|k: int| 0 <= k < i ==> s@[k] != c,
        decreases n - i,
    {
        if s.get_char(i) == c {
            proof {
                lemma_find_char_at(s@, c, i as int);
            }
            return Some(i);
        }
        i = i + 1;
    }
    proof {
        lemma_find_char_absent(s@, c);
    }
    None
}

// --- blankness ---

/// Every character of the sequence is whitespace.
pub open spec fn is_blank_seq(s: Seq<char>) -> bool {
    forall|i: int| 0 <= i < s.len() ==> is_space_char(s[i])
}

pub fn is_blank(s: &str) -> (r: bool)
    ensures
        r == is_blank_seq(s@),
{
    let n = s.unicode_len();
    let mut i: usize = 0;
    while i < n
        invariant
            n == s@.len(),
            0 <= i <= n,
            forall|k: int| 0 <= k < i ==> is_space_char(s@[k]),
        decreases n - i,
    {
        if !is_space(s.get_char(i)) {
            return false;
        }
        i = i + 1;
    }
    true
}

// --- trimming ---

pub open spec fn trim_start_spec(s: Seq<char>) -> Seq<char>
    decreases s.len(),
{
    if s.len() > 0 && is_space_char(s[0]) {
        trim_start_spec(s.drop_first())
    } else {
        s
    }
}

pub open spec fn trim_end_spec(s: Seq<char>) -> Seq<char>
    decreases s.len(),
{
    if s.len() > 0 && is_space_char(s.last()) {
        trim_end_spec(s.drop_last())
    } else {
        s
    }
}

/// Whitespace removed from both ends.
pub open spec fn trim_spec(s: Seq<char>) -> Seq<char> {
    trim_end_spec(trim_start_spec(s))
}

pub proof fn lemma_trim_start_skip(s: Seq<char>, a: int)
    requires
        0 <= a <= s.len(),
        forall|k: int| 0 <= k < a ==> is_space_char(s[k]),
        a < s.len() ==> !is_space_char(s[a]),
    ensures
        trim_start_spec(s) == s.skip(a),
    decreases a,
{
    if a == 0 {
        assert(s.skip(0) =~= s);
    } else {
        assert(is_space_char(s[0]));
        lemma_trim_start_skip(s.drop_first(), a - 1);
        assert(s.drop_first().skip(a - 1) =~= s.skip(a));
    }
}

pub proof fn lemma_trim_end_take(s: Seq<char>, b: int)
    requires
        0 <= b <= s.len(),
        forall|k: int| b <= k < s.len() ==> is_space_char(s[k]),
        b > 0 ==> !is_space_char(s[b - 1]),
    ensures
        trim_end_spec(s) == s.take(b),
    decreases s.len(),
{
    if b == s.len() {
        if b > 0 {
            assert(!is_space_char(s.last()));
        }
        assert(s.take(b) =~= s);
    } else {
        assert(is_space_char(s.last()));
        lemma_trim_end_take(s.drop_last(), b);
        assert(s.drop_last().take(b) =~= s.take(b));
    }
}

pub fn trim_str<'a>(s: &'a str) -> (r: &'a str)
    ensures
        r@ == trim_spec(s@),
{
    let n = s.unicode_len();
    let mut a: usize = 0;
    while a < n && is_space(s.get_char(a))
        invariant
            n == s@.len(),
            0 <= a <= n,
            forall|k: int| 0 <= k < a ==> is_space_char(s@[k]),
        decreases n - a,
    {
        a = a + 1;
    }
    let mut b: usize = n;
    while b > a && is_space(s.get_char(b - 1))
        invariant
            n == s@.len(),
            a <= b <= n,
            forall|k: int| b <= k < n ==> is_space_char(s@[k]),
        decreases b,
    {
        b = b - 1;
    }
    proof {
        lemma_trim_start_skip(s@, a as int);
        let t = s@.skip(a as int);
        lemma_trim_end_take(t, b - a);
        assert(t.take(b - a) =~= s@.subrange(a as int, b as int));
    }
    s.substring_char(a, b)
}

// --- splitting on a delimiter ---

/// The pieces of `s` between occurrences of `d`; always at least one piece.
pub open spec fn split_char_spec(s: Seq<char>, d: char) -> Seq<Seq<char>>
    decreases s.len(),
{
    if s.len() == 0 {
        seq![Seq::<char>::empty()]
    } else if s[0] == d {
        seq![Seq::<char>::empty()] + split_char_spec(s.drop_first(), d)
    } else {
        let rest = split_char_spec(s.drop_first(), d);
        seq![seq![s[0]] + rest[0]] + rest.drop_first()
    }
}

pub proof fn lemma_split_nonempty(s: Seq<char>, d: char)
    ensures
        split_char_spec(s, d).len() >= 1,
    decreases s.len(),
{
    if s.len() > 0 {
        lemma_split_nonempty(s.drop_first(), d);
    }
}

/// The views of a vector of strings.
pub open spec fn views_of(v: Seq<String>) -> Seq<Seq<char>> {
    v.map_values(|x: String| x@)
}

/// The first piece extended at the front with `p`.
pub open spec fn prepend_first(p: Seq<char>, ss: Seq<Seq<char>>) -> Seq<Seq<char>> {
    seq![p + ss[0]] + ss.drop_first()
}

proof fn lemma_split_step(s: Seq<char>, d: char, i: int)
    requires
        0 <= i < s.len(),
    ensures
        s[i] == d ==> split_char_spec(s.skip(i), d) == seq![Seq::<char>::empty()]
            + split_char_spec(s.skip(i + 1), d),
        s[i] != d ==> split_char_spec(s.skip(i), d) == prepend_first(
            seq![s[i]],
            split_char_spec(s.skip(i + 1), d),
        ),
{
    assert(s.skip(i).len() > 0);
    assert(s.skip(i)[0] == s[i]);
    assert(s.skip(i).drop_first() =~= s.skip(i + 1));
}

pub fn split_str(s: &str, d: char) -> (r: Vec<String>)
    ensures
        views_of(r@) == split_char_spec(s@, d),
        r@.len() >= 1,
{
    let n = s.unicode_len();
    let mut out: Vec<String> = Vec::new();
    let mut start: usize = 0;
    let mut i: usize = 0;
    proof {
        lemma_split_nonempty(s@, d);
        let z0 = split_char_spec(s@, d);
        assert(s@.skip(0) =~= s@);
        assert(s@.subrange(0, 0) =~= Seq::<char>::empty());
        assert(Seq::<char>::empty() + z0[0] =~= z0[0]);
        assert(prepend_first(Seq::<char>::empty(), z0) =~~= z0);
        assert(views_of(out@) + prepend_first(Seq::<char>::empty(), z0) =~~= z0);
    }
    while i < n
        invariant
            n == s@.len(),
            0 <= start <= i <= n,
            split_char_spec(s@, d) == views_of(out@) + prepend_first(
                s@.subrange(start as int, i as int),
                split_char_spec(s@.skip(i as int), d),
            ),
        decreases n - i,
    {
        let ghost p = s@.subrange(start as int, i as int);
        let ghost z = split_char_spec(s@.skip(i + 1), d);
        proof {
            lemma_split_step(s@, d, i as int);
            lemma_split_nonempty(s@.skip(i + 1), d);
        }
        if s.get_char(i) == d {
            let piece = s.substring_char(start, i).to_owned();
            proof {
                assert(p + Seq::<char>::empty() =~= p);
                assert((seq![Seq::<char>::empty()] + z).drop_first() =~= z);
                assert(prepend_first(p, seq![Seq::<char>::empty()] + z) =~~= seq![p] + z);
                assert(views_of(out@.push(piece)) =~~= views_of(out@) + seq![p]);
                assert(Seq::<char>::empty() + z[0] =~= z[0]);
                assert(prepend_first(Seq::<char>::empty(), z) =~~= z);
                assert(s@.subrange(i + 1, i + 1) =~= Seq::<char>::empty());
            }
            out.push(piece);
            start = i + 1;
        } else {
            proof {
                let w = prepend_first(seq![s@[i as int]], z);
                assert(w.drop_first() =~~= z.drop_first());
                assert(p + (seq![s@[i as int]] + z[0]) =~= s@.subrange(start as int, i + 1)
                    + z[0]);
                assert(prepend_first(p, w) =~~= prepend_first(s@.subrange(start as int, i + 1), z));
            }
        }
        i = i + 1;
    }
    let piece = s.substring_char(start, n).to_owned();
    let ghost p = s@.subrange(start as int, n as int);
    proof {
        assert(s@.skip(n as int) =~= Seq::<char>::empty());
        assert(split_char_spec(Seq::<char>::empty(), d) =~~= seq![Seq::<char>::empty()]);
        assert(p + Seq::<char>::empty() =~= p);
        assert(prepend_first(p, seq![Seq::<char>::empty()]) =~~= seq![p]);
        assert(views_of(out@.push(piece)) =~~= views_of(out@) + seq![p]);
    }
    out.push(piece);
    proof {
        lemma_split_nonempty(s@, d);
        assert(views_of(out@).len() == out@.len());
    }
    out
}

// --- lexicographic order on character sequences ---

/// Strict lexicographic order by code point.
pub open spec fn lex_lt(a: Seq<char>, b: Seq<char>) -> bool
    decreases a.len(),
{
    if b.len() == 0 {
        false
    } else if a.len() == 0 {
        true
    } else if a[0] != b[0] {
        a[0] < b[0]
    } else {
        lex_lt(a.drop_first(), b.drop_first())
    }
}

pub proof fn lemma_lex_irrefl(a: Seq<char>)
    ensures
        !lex_lt(a, a),
    decreases a.len(),
{
    if a.len() > 0 {
        lemma_lex_irrefl(a.drop_first());
    }
}

pub proof fn lemma_lex_connected(a: Seq<char>, b: Seq<char>)
    requires
        a != b,
    ensures
        lex_lt(a, b) || lex_lt(b, a),
    decreases a.len(),
{
    if a.len() == 0 || b.len() == 0 {
        if a.len() == 0 && b.len() == 0 {
            assert(a =~= b);
        }
    } else if a[0] != b[0] {
    } else {
        assert(a =~= seq![a[0]] + a.drop_first());
        assert(b =~= seq![b[0]] + b.drop_first());
        if a.drop_first() == b.drop_first() {
            assert(seq![a[0]] + a.drop_first() == seq![b[0]] + b.drop_first());
            assert(false);
        }
        lemma_lex_connected(a.drop_first(), b.drop_first());
    }
}

pub proof fn lemma_lex_trans(a: Seq<char>, b: Seq<char>, c: Seq<char>)
    requires
        lex_lt(a, b),
        lex_lt(b, c),
    ensures
        lex_lt(a, c),
    decreases a.len(),
{
    if a.len() > 0 && b.len() > 0 && c.len() > 0 && a[0] == b[0] && b[0] == c[0] {
        lemma_lex_trans(a.drop_first(), b.drop_first(), c.drop_first());
    }
}

pub fn str_lt(a: &str, b: &str) -> (r: bool)
    ensures
        r == lex_lt(a@, b@),
{
    let na = a.unicode_len();
    let nb = b.unicode_len();
    let mut i: usize = 0;
    proof {
        assert(a@.skip(0) =~= a@);
        assert(b@.skip(0) =~= b@);
    }
    loop
        invariant
            na == a@.len(),
            nb == b@.len(),
            0 <= i <= na,
            0 <= i <= nb,
            forall|k: int| 0 <= k < i ==> a@[k] == b@[k],
            lex_lt(a@, b@) == lex_lt(a@.skip(i as int), b@.skip(i as int)),
        decreases na - i,
    {
        if i >= nb {
            return false;
        }
        if i >= na {
            return true;
        }
        let ca = a.get_char(i);
        let cb = b.get_char(i);
        if ca != cb {
            return (ca as u32) < (cb as u32);
        }
        proof {
            assert(a@.skip(i as int).drop_first() =~= a@.skip(i + 1));
            assert(b@.skip(i as int).drop_first() =~= b@.skip(i + 1));
        }
        i = i + 1;
    }
}

// --- decimal rendering ---

/// The character for one decimal digit value.
pub open spec fn digit_char(d: nat) -> char {
    ((48 + d) as u8) as char
}

/// The decimal form of a natural number, most significant digit first.
pub open spec fn dec_digits(n: nat) -> Seq<char>
    decreases n,
{
    if n < 10 {
        seq![digit_char(n)]
    } else {
        dec_digits(n / 10).push(digit_char(n % 10))
    }
}

/// The decimal form of a signed value, with a leading minus sign if negative.
pub open spec fn dec_int(v: int) -> Seq<char> {
    if v < 0 {
        seq!['-'] + dec_digits((-v) as nat)
    } else {
        dec_digits(v as nat)
    }
}

fn digit_of(d: u64) -> (r: char)
    requires
        d < 10,
    ensures
        r == digit_char(d as nat),
{
    (48u8 + (d as u8)) as char
}

pub fn push_dec_u64(s: &mut String, n: u64)
    ensures
        final(s)@ == old(s)@ + dec_digits(n as nat),
    decreases n,
{
    if n < 10 {
        push_char(s, digit_of(n));
        proof {
            assert(old(s)@.push(digit_char(n as nat)) =~= old(s)@ + dec_digits(n as nat));
        }
    } else {
        push_dec_u64(s, n / 10);
        push_char(s, digit_of(n % 10));
        proof {
            assert((old(s)@ + dec_digits((n / 10) as nat)).push(digit_char((n % 10) as nat)) =~= old(
                s,
            )@ + dec_digits(n as nat));
        }
    }
}

pub fn push_dec_i64(s: &mut String, v: i64)
    ensures
        final(s)@ == old(s)@ + dec_int(v as int),
{
    if v >= 0 {
        push_dec_u64(s, v as u64);
    } else {
        push_char(s, '-');
        let m: u64 = (-(v as i128)) as u64;
        push_dec_u64(s, m);
        proof {
            assert(old(s)@.push('-') + dec_digits(m as nat) =~= old(s)@ + dec_int(v as int));
        }
    }
}

pub fn u64_to_string(n: u64) -> (r: String)
    ensures
        r@ == dec_digits(n as nat),
{
    let mut s = String::new();
    push_dec_u64(&mut s, n);
    proof {
        assert(Seq::<char>::empty() + dec_digits(n as nat) =~= dec_digits(n as nat));
    }
    s
}

// --- lines and fields ---

/// A line with a trailing carriage return removed.
pub open spec fn strip_cr(l: Seq<char>) -> Seq<char> {
    if l.len() > 0 && l.last() == '\r' {
        l.drop_last()
    } else {
        l
    }
}

/// The lines of a text: pieces between line feeds, each without a trailing
/// carriage return.
pub open spec fn line_seqs(content: Seq<char>) -> Seq<Seq<char>> {
    split_char_spec(content, '\n').map_values(|l: Seq<char>| strip_cr(l))
}

fn strip_cr_of(s: &String) -> (r: String)
    ensures
        r@ == strip_cr(s@),
{
    let n = s.as_str().unicode_len();
    if n > 0 && s.as_str().get_char(n - 1) == '\r' {
        let r = s.as_str().substring_char(0, n - 1).to_owned();
        proof {
            assert(s@.subrange(0, n - 1) =~= s@.drop_last());
        }
        r
    } else {
        s.clone()
    }
}

pub fn lines_of(content: &str) -> (r: Vec<String>)
    ensures
        views_of(r@) == line_seqs(content@),
        r@.len() >= 1,
{
    let pieces = split_str(content, '\n');
    let ghost pv = split_char_spec(content@, '\n');
    let mut out: Vec<String> = Vec::new();
    let mut k: usize = 0;
    while k < pieces.len()
        invariant
            pv == views_of(pieces@),
            0 <= k <= pieces@.len(),
            views_of(out@) == pv.take(k as int).map_values(|l: Seq<char>| strip_cr(l)),
        decreases pieces@.len() - k,
    {
        let line = strip_cr_of(&pieces[k]);
        proof {
            assert(pv.take(k + 1).drop_last() =~= pv.take(k as int));
            assert(views_of(out@.push(line)) =~~= views_of(out@).push(strip_cr(pv[k as int])));
            assert(pv.take(k + 1).map_values(|l: Seq<char>| strip_cr(l)) =~~= pv.take(
                k as int,
            ).map_values(|l: Seq<char>| strip_cr(l)).push(strip_cr(pv[k as int])));
        }
        out.push(line);
        k = k + 1;
    }
    proof {
        assert(pv.take(pieces@.len() as int) =~= pv);
        assert(views_of(out@).len() == out@.len());
    }
    out
}

/// The trimmed fields of one line under delimiter `d`.
pub open spec fn spec_fields(line: Seq<char>, d: char) -> Seq<Seq<char>> {
    split_char_spec(line, d).map_values(|f: Seq<char>| trim_spec(f))
}

pub fn fields_of(line: &str, d: char) -> (r: Vec<String>)
    ensures
        views_of(r@) == spec_fields(line@, d),
        r@.len() >= 1,
{
    let pieces = split_str(line, d);
    let ghost pv = split_char_spec(line@, d);
    let mut out: Vec<String> = Vec::new();
    let mut k: usize = 0;
    while k < pieces.len()
        invariant
            pv == views_of(pieces@),
            0 <= k <= pieces@.len(),
            views_of(out@) == pv.take(k as int).map_values(|f: Seq<char>| trim_spec(f)),
        decreases pieces@.len() - k,
    {
        let f = trim_str(pieces[k].as_str()).to_owned();
        proof {
            assert(pv.take(k + 1).drop_last() =~= pv.take(k as int));
            assert(views_of(out@.push(f)) =~~= views_of(out@).push(trim_spec(pv[k as int])));
            assert(pv.take(k + 1).map_values(|f: Seq<char>| trim_spec(f)) =~~= pv.take(
                k as int,
            ).map_values(|f: Seq<char>| trim_spec(f)).push(trim_spec(pv[k as int])));
        }
        out.push(f);
        k = k + 1;
    }
    proof {
        assert(pv.take(pieces@.len() as int) =~= pv);
        assert(views_of(out@).len() == out@.len());
    }
    out
}

/// Appends the view of `t` to `s`.
pub fn push_str(s: &mut String, t: &str)
    ensures
        final(s)@ == old(s)@ + t@,
{
    s.append(t);
}

} // verus!
