//! Character and string helpers shared by every stage: classification of
//! characters, decimal rendering of integers, and comparison of string slices.

use vstd::prelude::*;

verus! {

/// What `char::is_alphabetic` answers for a character (the Unicode
/// `Alphabetic` property).
pub uninterp spec fn unicode_alphabetic(c: char) -> bool;

/// What `char::is_alphanumeric` answers for a character.
pub uninterp spec fn unicode_alphanumeric(c: char) -> bool;

/// What `char::is_uppercase` answers for a character (the Unicode
/// `Uppercase` property).
pub uninterp spec fn unicode_uppercase(c: char) -> bool;

/// The text that `<str as Debug>` renders for a string (`{:?}`): the string
/// between double quotes, with its special characters escaped.
pub uninterp spec fn debug_quoted(s: Seq<char>) -> Seq<char>;

pub open spec fn is_ascii_lower(c: char) -> bool {
    'a' <= c && c <= 'z'
}

pub open spec fn is_ascii_upper(c: char) -> bool {
    'A' <= c && c <= 'Z'
}

pub open spec fn is_ascii_letter(c: char) -> bool {
    is_ascii_lower(c) || is_ascii_upper(c)
}

pub open spec fn is_digit(c: char) -> bool {
    '0' <= c && c <= '9'
}

pub open spec fn is_ascii_alnum(c: char) -> bool {
    is_ascii_letter(c) || is_digit(c)
}

pub open spec fn is_ascii(c: char) -> bool {
    (c as u32) < 128
}

/// `char::is_alphabetic`. For an ASCII character it holds exactly of the
/// letters `a-z` and `A-Z`, as the standard library documents.
#[verifier::external_body]
pub(crate) fn char_is_alphabetic(c: char) -> (r: bool)
    ensures
        r == unicode_alphabetic(c),
        is_ascii(c) ==> (r <==> is_ascii_letter(c)),
{
    c.is_alphabetic()
}

/// `char::is_alphanumeric`. For an ASCII character it holds exactly of the
/// letters and the digits `0-9`; it holds of every alphabetic character.
#[verifier::external_body]
pub(crate) fn char_is_alphanumeric(c: char) -> (r: bool)
    ensures
        r == unicode_alphanumeric(c),
        is_ascii(c) ==> (r <==> is_ascii_alnum(c)),
        unicode_alphabetic(c) ==> r,
{
    c.is_alphanumeric()
}

/// `char::is_uppercase`. For an ASCII character it holds exactly of `A-Z`.
#[verifier::external_body]
pub(crate) fn char_is_uppercase(c: char) -> (r: bool)
    ensures
        r == unicode_uppercase(c),
        is_ascii(c) ==> (r <==> is_ascii_upper(c)),
{
    c.is_uppercase()
}

/// `char::is_ascii_digit`, which holds exactly of `0-9`.
pub fn char_is_digit(c: char) -> (r: bool)
    ensures
        r == is_digit(c),
{
    '0' <= c && c <= '9'
}

/// The characters of a string slice, in order (`str::chars` collected).
#[verifier::external_body]
pub(crate) fn chars_of(s: &str) -> (v: Vec<char>)
    ensures
        v@ == s@,
{
    s.chars().collect()
}

/// `String::push`: appends one character.
#[verifier::external_body]
pub(crate) fn push_char(s: &mut String, c: char)
    ensures
        final(s)@ == old(s)@.push(c),
{
    s.push(c)
}

/// `str` equality by characters.
pub fn str_eq(a: &str, b: &str) -> (r: bool)
    ensures
        r == (a@ == b@),
{
    let n = a.unicode_len();
    let m = b.unicode_len();
    if n != m {
        return false;
    }
    let mut i: usize = 0;
    while i < n
        invariant
            n == a@.len(),
            m == b@.len(),
            n == m,
            i <= n,
            forall|j: int| 0 <= j < i ==> a@[j] == b@[j],
        decreases n - i,
    {
        if a.get_char(i) != b.get_char(i) {
            return false;
        }
        i = i + 1;
    }
    assert(a@ =~= b@);
    true
}

/// A string holding the characters of `v[start..end]`.
pub fn string_of_range(v: &Vec<char>, start: usize, end: usize) -> (s: String)
    requires
        start <= end <= v@.len(),
    ensures
        s@ == v@.subrange(start as int, end as int),
{
    let mut s = String::new();
    let mut i = start;
    while i < end
        invariant
            start <= i <= end,
            end <= v@.len(),
            s@ == v@.subrange(start as int, i as int),
        decreases end - i,
    {
        push_char(&mut s, v[i]);
        assert(v@.subrange(start as int, i + 1) =~= v@.subrange(start as int, i as int).push(v@[i as int]));
        i = i + 1;
    }
    s
}

/// A string holding all of `v`.
pub fn string_of_chars(v: &Vec<char>) -> (s: String)
    ensures
        s@ == v@,
{
    let s = string_of_range(v, 0, v.len());
    assert(v@.subrange(0, v@.len() as int) =~= v@);
    s
}

/// The character of a decimal digit.
pub open spec fn digit_char(d: int) -> char {
    if d == 0 { '0' }
    else if d == 1 { '1' }
    else if d == 2 { '2' }
    else if d == 3 { '3' }
    else if d == 4 { '4' }
    else if d == 5 { '5' }
    else if d == 6 { '6' }
    else if d == 7 { '7' }
    else if d == 8 { '8' }
    else { '9' }
}

/// The decimal digits of a natural number, most significant first, without
/// leading zeros (`0` is the single digit `0`).
pub open spec fn decimal(n: nat) -> Seq<char>
    decreases n,
{
    if n < 10 {
        seq![digit_char(n as int)]
    } else {
        decimal(n / 10).push(digit_char((n % 10) as int))
    }
}

/// The decimal rendering of an integer, with a leading `-` when negative.
pub open spec fn decimal_int(n: int) -> Seq<char> {
    if n < 0 {
        seq!['-'] + decimal((-n) as nat)
    } else {
        decimal(n as nat)
    }
}

fn digit(d: u64) -> (c: char)
    requires
        d < 10,
    ensures
        c == digit_char(d as int),
{
    match d {
        0 => '0',
        1 => '1',
        2 => '2',
        3 => '3',
        4 => '4',
        5 => '5',
        6 => '6',
        7 => '7',
        8 => '8',
        _ => '9',
    }
}

/// Appends the decimal digits of `n`.
pub fn push_decimal(out: &mut String, n: u64)
    ensures
        final(out)@ == old(out)@ + decimal(n as nat),
    decreases n,
{
    if n >= 10 {
        push_decimal(out, n / 10);
        push_char(out, digit(n % 10));
    } else {
        push_char(out, digit(n));
    }
}

/// Appends the decimal rendering of `n`, as `i64::to_string` writes it.
pub fn push_decimal_i64(out: &mut String, n: i64)
    ensures
        final(out)@ == old(out)@ + decimal_int(n as int),
{
    if n < 0 {
        push_char(out, '-');
        let m: u64 = if n == i64::MIN { 9223372036854775808u64 } else { (-n) as u64 };
        push_decimal(out, m);
        assert(final(out)@ =~= old(out)@ + decimal_int(n as int));
    } else {
        push_decimal(out, n as u64);
    }
}

/// `n.to_string()` for a `usize`.
pub fn usize_to_string(n: usize) -> (s: String)
    ensures
        s@ == decimal(n as nat),
{
    let mut s = String::new();
    push_decimal(&mut s, n as u64);
    assert(s@ =~= decimal(n as nat));
    s
}

/// `n.to_string()` for an `i64`.
pub fn i64_to_string(n: i64) -> (s: String)
    ensures
        s@ == decimal_int(n as int),
{
    let mut s = String::new();
    push_decimal_i64(&mut s, n);
    assert(s@ =~= decimal_int(n as int));
    s
}

/// `format!("{:?}", s)`: the string quoted and escaped as Rust's `Debug`
/// writes it.
#[verifier::external_body]
pub(crate) fn debug_string(s: &str) -> (r: String)
    ensures
        r@ == debug_quoted(s@),
{
    format!("{:?}", s)
}

/// `needle` occurs in `hay` starting at `i`.
pub open spec fn occurs_at(hay: Seq<char>, needle: Seq<char>, i: int) -> bool {
    0 <= i && i + needle.len() <= hay.len() && hay.subrange(i, i + needle.len()) == needle
}

/// `str::contains` for a string pattern.
pub open spec fn contains_seq(hay: Seq<char>, needle: Seq<char>) -> bool {
    exists|i: int| occurs_at(hay, needle, i)
}

/// Whether `needle` occurs in `hay` at character position `i`.
pub fn occurs_at_exec(hay: &Vec<char>, needle: &Vec<char>, i: usize) -> (r: bool)
    ensures
        r == occurs_at(hay@, needle@, i as int),
{
    if i > hay.len() || needle.len() > hay.len() - i {
        return false;
    }
    let mut k: usize = 0;
    assert(hay@.len() == hay.len());
    while k < needle.len()
        invariant
            i + needle@.len() <= hay@.len(),
            hay@.len() <= usize::MAX,
            k <= needle@.len(),
            forall|j: int| 0 <= j < k ==> hay@[i + j] == needle@[j],
        decreases needle@.len() - k,
    {
        if hay[i + k] != needle[k] {
            assert(hay@.subrange(i as int, i + needle@.len())[k as int] != needle@[k as int]);
            return false;
        }
        k = k + 1;
    }
    assert(hay@.subrange(i as int, i + needle@.len()) =~= needle@);
    true
}

/// `hay.contains(needle)`.
pub fn contains_str(hay: &str, needle: &str) -> (r: bool)
    ensures
        r == contains_seq(hay@, needle@),
{
    let h = chars_of(hay);
    let n = chars_of(needle);
    let mut i: usize = 0;
    while i < h.len()
        invariant
            h@ == hay@,
            n@ == needle@,
            i <= h@.len(),
            forall|j: int| 0 <= j < i ==> !occurs_at(h@, n@, j),
        decreases h@.len() - i,
    {
        if occurs_at_exec(&h, &n, i) {
            return true;
        }
        i = i + 1;
    }
    if occurs_at_exec(&h, &n, h.len()) {
        return true;
    }
    assert forall|j: int| !occurs_at(h@, n@, j) by {
        if 0 <= j < h@.len() {
        }
    }
    false
}

/// `s.starts_with(prefix)`.
pub fn starts_with_str(s: &str, prefix: &str) -> (r: bool)
    ensures
        r == (prefix@.len() <= s@.len() && s@.subrange(0, prefix@.len() as int) == prefix@),
{
    let h = chars_of(s);
    let n = chars_of(prefix);
    occurs_at_exec(&h, &n, 0)
}

/// Appends `s` to `out`.
pub fn push_str(out: &mut String, s: &str)
    ensures
        final(out)@ == old(out)@ + s@,
{
    out.append(s);
}

/// The first `\n` at or after `i`, or the end.
pub open spec fn line_end(s: Seq<char>, i: int) -> int
    decreases s.len() - i,
{
    if i >= s.len() || i < 0 {
        s.len() as int
    } else if s[i] == '\n' {
        i
    } else {
        line_end(s, i + 1)
    }
}

pub proof fn lemma_line_end(s: Seq<char>, i: int)
    requires
        0 <= i <= s.len(),
    ensures
        i <= line_end(s, i) <= s.len(),
    decreases s.len() - i,
{
    if i < s.len() && s[i] != '\n' {
        lemma_line_end(s, i + 1);
    }
}

/// The lines of `s[i..]` as `str::lines` yields them: split at `\n`, with a
/// `\r` before a `\n` dropped, and no empty line after a final `\n`.
pub open spec fn lines_from(s: Seq<char>, i: int) -> Seq<Seq<char>>
    decreases s.len() - i,
{
    if i < 0 || i >= s.len() {
        Seq::empty()
    } else {
        let e = line_end(s, i);
        proof {
            lemma_line_end(s, i);
        }
        if e >= s.len() {
            seq![s.subrange(i, s.len() as int)]
        } else {
            let raw = s.subrange(i, e);
            let line = if raw.len() > 0 && raw.last() == '\r' {
                raw.drop_last()
            } else {
                raw
            };
            seq![line] + lines_from(s, e + 1)
        }
    }
}


/// The lines of a text as `str::lines` yields them.
pub fn lines_of(text: &str) -> (r: Vec<String>)
    ensures
        r@.map_values(|l: String| l@) == lines_from(text@, 0),
{
    let cs = chars_of(text);
    let ghost s = cs@;
    let mut out: Vec<String> = Vec::new();
    let mut i: usize = 0;
    assert(lines_from(s, 0) =~= out@.map_values(|l: String| l@) + lines_from(s, 0));
    while i < cs.len()
        invariant
            s == cs@,
            s == text@,
            i <= s.len(),
            lines_from(s, 0) == out@.map_values(|l: String| l@) + lines_from(s, i as int),
        decreases s.len() - i,
    {
        let start = i;
        while i < cs.len() && cs[i] != '\n'
            invariant
                s == cs@,
                start <= i <= s.len(),
                line_end(s, start as int) == line_end(s, i as int),
            decreases s.len() - i,
        {
            i = i + 1;
        }
        let e = i;
        let mut end = e;
        if e < cs.len() && e > start && cs[e - 1] == '\r' {
            end = e - 1;
        }
        let ghost line = s.subrange(start as int, end as int);
        let ghost next = if e < s.len() {
            e + 1
        } else {
            e as int
        };
        assert(lines_from(s, start as int) == seq![line] + lines_from(s, next)) by {
            if e < s.len() {
                if e > start && s[e - 1] == '\r' {
                    assert(s.subrange(start as int, e as int).drop_last() =~= s.subrange(
                        start as int,
                        e - 1,
                    ));
                }
            } else {
                assert(lines_from(s, next) =~= Seq::<Seq<char>>::empty());
                assert(seq![line] + lines_from(s, next) =~= seq![line]);
            }
        }
        let l = string_of_range(&cs, start, end);
        let ghost before = out@;
        out.push(l);
        assert(out@.map_values(|l: String| l@) =~= before.map_values(|l: String| l@).push(line));
        if e < cs.len() {
            i = e + 1;
        } else {
            i = e;
        }
    }
    assert(lines_from(s, i as int) =~= Seq::<Seq<char>>::empty());
    out
}

/// The Unicode `White_Space` property, which `char::is_whitespace` answers:
/// the controls U+0009 to U+000D, the space, U+0085, the no-break space, the
/// ogham space mark, the spaces U+2000 to U+200A, the line and paragraph
/// separators, U+202F, U+205F and the ideographic space.
pub open spec fn unicode_white_space(c: char) -> bool {
    ('\u{9}' <= c && c <= '\u{d}') || c == ' ' || c == '\u{85}' || c == '\u{a0}'
        || c == '\u{1680}' || ('\u{2000}' <= c && c <= '\u{200a}') || c == '\u{2028}'
        || c == '\u{2029}' || c == '\u{202f}' || c == '\u{205f}' || c == '\u{3000}'
}

/// `char::is_whitespace`.
#[verifier::external_body]
pub(crate) fn char_is_whitespace(c: char) -> (r: bool)
    ensures
        r == unicode_white_space(c),
{
    c.is_whitespace()
}

/// `s` without its leading characters that satisfy `p`.
pub open spec fn trim_start_by(s: Seq<char>, p: spec_fn(char) -> bool) -> Seq<char>
    decreases s.len(),
{
    if s.len() > 0 && p(s[0]) {
        trim_start_by(s.drop_first(), p)
    } else {
        s
    }
}

/// `s` without its trailing characters that satisfy `p`.
pub open spec fn trim_end_by(s: Seq<char>, p: spec_fn(char) -> bool) -> Seq<char>
    decreases s.len(),
{
    if s.len() > 0 && p(s.last()) {
        trim_end_by(s.drop_last(), p)
    } else {
        s
    }
}

pub open spec fn ws() -> spec_fn(char) -> bool {
    |c: char| unicode_white_space(c)
}

pub open spec fn is_char(c: char) -> spec_fn(char) -> bool {
    |x: char| x == c
}

/// `str::trim_start`.
pub open spec fn trim_start_spec(s: Seq<char>) -> Seq<char> {
    trim_start_by(s, ws())
}

/// `str::trim_end`.
pub open spec fn trim_end_spec(s: Seq<char>) -> Seq<char> {
    trim_end_by(s, ws())
}

/// `str::trim`.
pub open spec fn trim_spec(s: Seq<char>) -> Seq<char> {
    trim_end_by(trim_start_by(s, ws()), ws())
}

/// `str::trim_matches(c)` for one character.
pub open spec fn trim_char_spec(s: Seq<char>, c: char) -> Seq<char> {
    trim_end_by(trim_start_by(s, is_char(c)), is_char(c))
}

proof fn lemma_trim_start_step(s: Seq<char>, i: int, p: spec_fn(char) -> bool)
    requires
        0 <= i < s.len(),
        p(s[i]),
    ensures
        trim_start_by(s.subrange(i, s.len() as int), p) == trim_start_by(
            s.subrange(i + 1, s.len() as int),
            p,
        ),
{
    assert(s.subrange(i, s.len() as int).drop_first() =~= s.subrange(i + 1, s.len() as int));
}

proof fn lemma_trim_end_step(s: Seq<char>, lo: int, hi: int, p: spec_fn(char) -> bool)
    requires
        0 <= lo < hi <= s.len(),
        p(s[hi - 1]),
    ensures
        trim_end_by(s.subrange(lo, hi), p) == trim_end_by(s.subrange(lo, hi - 1), p),
{
    assert(s.subrange(lo, hi).drop_last() =~= s.subrange(lo, hi - 1));
}

fn trim_pred(ch: char, c: Option<char>) -> (r: bool)
    ensures
        r == (match c {
            Some(x) => is_char(x),
            None => ws(),
        })(ch),
{
    match c {
        Some(x) => ch == x,
        None => char_is_whitespace(ch),
    }
}

/// The bounds `[lo, hi)` of `v[start..end]` with the characters that satisfy
/// the predicate (whitespace, or `c` when given) removed from both ends, as
/// selected by `front` and `back`.
pub fn trim_bounds(v: &Vec<char>, start: usize, end: usize, c: Option<char>, front: bool, back: bool) -> (r: (usize, usize))
    requires
        start <= end <= v@.len(),
    ensures
        start <= r.0 <= r.1 <= end,
        !front ==> r.0 == start,
        !back ==> r.1 == end,
        v@.subrange(r.0 as int, r.1 as int) == ({
            let p = match c {
                Some(ch) => is_char(ch),
                None => ws(),
            };
            let s = v@.subrange(start as int, end as int);
            let t = if front {
                trim_start_by(s, p)
            } else {
                s
            };
            if back {
                trim_end_by(t, p)
            } else {
                t
            }
        }),
{
    let ghost p = match c {
        Some(ch) => is_char(ch),
        None => ws(),
    };
    let mut lo = start;
    if front {
        while lo < end && trim_pred(v[lo], c)
            invariant
                start <= lo <= end <= v@.len(),
                p == (match c {
                    Some(ch) => is_char(ch),
                    None => ws(),
                }),
                trim_start_by(v@.subrange(start as int, end as int), p) == trim_start_by(
                    v@.subrange(lo as int, end as int),
                    p,
                ),
            decreases end - lo,
        {
            proof {
                let s = v@.subrange(0, end as int);
                assert(v@.subrange(lo as int, end as int) =~= s.subrange(lo as int, end as int));
                assert(v@.subrange(lo + 1, end as int) =~= s.subrange(lo + 1, end as int));
                lemma_trim_start_step(s, lo as int, p);
            }
            lo = lo + 1;
        }
        assert(trim_start_by(v@.subrange(lo as int, end as int), p) == v@.subrange(
            lo as int,
            end as int,
        ));
    } else {
        assert(start == lo);
    }
    let ghost t = v@.subrange(lo as int, end as int);
    let mut hi = end;
    if back {
        while hi > lo && trim_pred(v[hi - 1], c)
            invariant
                start <= lo <= hi <= end <= v@.len(),
                t == v@.subrange(lo as int, end as int),
                p == (match c {
                    Some(ch) => is_char(ch),
                    None => ws(),
                }),
                trim_end_by(t, p) == trim_end_by(v@.subrange(lo as int, hi as int), p),
            decreases hi - lo,
        {
            proof {
                lemma_trim_end_step(v@, lo as int, hi as int, p);
            }
            hi = hi - 1;
        }
        assert(trim_end_by(v@.subrange(lo as int, hi as int), p) == v@.subrange(
            lo as int,
            hi as int,
        ));
    }
    (lo, hi)
}

/// `str::trim`.
pub fn trim_str(s: &str) -> (r: String)
    ensures
        r@ == trim_spec(s@),
{
    let v = chars_of(s);
    assert(v@.subrange(0, v@.len() as int) =~= v@);
    let (lo, hi) = trim_bounds(&v, 0, v.len(), None, true, true);
    string_of_range(&v, lo, hi)
}

/// `str::trim_end`.
pub fn trim_end_str(s: &str) -> (r: String)
    ensures
        r@ == trim_end_spec(s@),
{
    let v = chars_of(s);
    assert(v@.subrange(0, v@.len() as int) =~= v@);
    let (lo, hi) = trim_bounds(&v, 0, v.len(), None, false, true);
    string_of_range(&v, lo, hi)
}

/// `str::trim_matches(c)` for one character.
pub fn trim_char_str(s: &str, c: char) -> (r: String)
    ensures
        r@ == trim_char_spec(s@, c),
{
    let v = chars_of(s);
    assert(v@.subrange(0, v@.len() as int) =~= v@);
    let (lo, hi) = trim_bounds(&v, 0, v.len(), Some(c), true, true);
    string_of_range(&v, lo, hi)
}

} // verus!
