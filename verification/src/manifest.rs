//! Reading `tinys.toml`, the TinyS package manifest.
//!
//! `tinys.toml` mirrors `Cargo.toml`: a `[package]` table plus a `[dependencies]`
//! table whose entries are copied into the `Cargo.toml` that backs a build.
//!
//! ```toml
//! [package]
//! name = "example"
//! version = "0.1.0"
//! exclude = ["scratch", "*_wip.sn"]
//!
//! [dependencies]
//! serde = { version = "1", features = ["derive"] }
//! serde_json = "1"
//! ```
//!
//! Only the subset TinyS needs is understood: `[package]` keys are read as plain
//! strings (and `exclude` as an array of them), and dependency values are kept
//! as raw TOML text so Cargo — not this module — decides what they mean.
//! `[profile.*]` and `[patch.*]` sections are passed through verbatim; anything
//! else is reported through [`Manifest::ignored`].

use vstd::prelude::*;
use crate::text::{
    char_is_whitespace, chars_of, is_ascii, is_ascii_alnum, is_char, lines_from, lines_of, occurs_at,
    push_char, str_eq, string_of_range, trim_bounds, trim_char_spec, trim_char_str, trim_end_by,
    trim_end_spec, trim_end_str, trim_spec, starts_with_str, trim_start_by, trim_start_spec, trim_str, unicode_white_space, ws,
};

verus! {

broadcast use vstd::std_specs::control_flow::group_control_flow_axioms;

// ---- lexical helpers ---------------------------------------------------------------

/// The string-literal state after a prefix of a line: inside a string, the
/// quote that opened it, and whether the previous character was a backslash
/// escape. Only `"` strings have escapes.
pub open spec fn quote_step(st: (bool, char, bool), c: char) -> (bool, char, bool) {
    if st.0 {
        if st.2 {
            (true, st.1, false)
        } else if c == '\\' && st.1 == '"' {
            (true, st.1, true)
        } else if c == st.1 {
            (false, st.1, false)
        } else {
            st
        }
    } else if c == '"' || c == '\'' {
        (true, c, false)
    } else {
        st
    }
}

/// The string-literal state after the first `k` characters of `s`.
pub open spec fn quote_state(s: Seq<char>, k: int) -> (bool, char, bool)
    decreases k,
{
    if k <= 0 {
        (false, '"', false)
    } else {
        quote_step(quote_state(s, k - 1), s[k - 1])
    }
}

/// `s[k]` is `c` and stands outside any string literal.
pub open spec fn outside_at(s: Seq<char>, c: char, k: int) -> bool {
    0 <= k < s.len() && !quote_state(s, k).0 && s[k] == c
}

/// The position of the first `c` outside string literals.
#[verifier::opaque]
pub open spec fn first_outside(s: Seq<char>, c: char) -> Option<int> {
    if exists|k: int| outside_at(s, c, k) {
        Some(choose|k: int| outside_at(s, c, k) && forall|j: int| 0 <= j < k ==> !outside_at(s, c, j))
    } else {
        None
    }
}

proof fn lemma_first_outside(s: Seq<char>, c: char, k: int)
    requires
        outside_at(s, c, k),
        forall|j: int| 0 <= j < k ==> !outside_at(s, c, j),
    ensures
        first_outside(s, c) == Some(k),
{
    reveal(first_outside);
    let m = choose|m: int| outside_at(s, c, m) && forall|j: int| 0 <= j < m ==> !outside_at(s, c, j);
    if m < k {
        assert(!outside_at(s, c, m));
    }
    if k < m {
        assert(!outside_at(s, c, k));
    }
}

proof fn lemma_min_outside(s: Seq<char>, c: char, k: int)
    requires
        outside_at(s, c, k),
    ensures
        exists|m: int| outside_at(s, c, m) && forall|j: int| 0 <= j < m ==> !outside_at(s, c, j),
    decreases k,
{
    if exists|j: int| 0 <= j < k && outside_at(s, c, j) {
        let j = choose|j: int| 0 <= j < k && outside_at(s, c, j);
        lemma_min_outside(s, c, j);
    }
}

proof fn lemma_first_outside_props(s: Seq<char>, c: char)
    ensures
        first_outside(s, c) matches Some(k) ==> outside_at(s, c, k) && forall|j: int|
            0 <= j < k ==> !outside_at(s, c, j),
        first_outside(s, c) is None ==> forall|k: int| !outside_at(s, c, k),
{
    reveal(first_outside);
    if exists|k: int| outside_at(s, c, k) {
        let k = choose|k: int| outside_at(s, c, k);
        lemma_min_outside(s, c, k);
    }
}

/// The character position of the first `needle` outside string literals.
pub fn index_outside_string(line: &str, needle: char) -> (r: Option<usize>)
    ensures
        r matches Some(k) ==> first_outside(line@, needle) == Some(k as int),
        r is None ==> first_outside(line@, needle) is None,
{
    let cs = chars_of(line);
    let mut in_str = false;
    let mut quote = '"';
    let mut escaped = false;
    let mut i: usize = 0;
    while i < cs.len()
        invariant
            cs@ == line@,
            i <= cs@.len(),
            (in_str, quote, escaped) == quote_state(line@, i as int),
            forall|j: int| 0 <= j < i ==> !outside_at(line@, needle, j),
        decreases cs@.len() - i,
    {
        let c = cs[i];
        if in_str {
            if escaped {
                escaped = false;
            } else if c == '\\' && quote == '"' {
                escaped = true;
            } else if c == quote {
                in_str = false;
            }
        } else {
            if c == needle {
                proof {
                    lemma_first_outside(line@, needle, i as int);
                }
                return Some(i);
            }
            if c == '"' || c == '\'' {
                in_str = true;
                quote = c;
                escaped = false;
            }
        }
        i = i + 1;
    }
    assert(forall|k: int| !outside_at(line@, needle, k));
    proof {
        reveal(first_outside);
    }
    None
}

/// A line without its trailing `# comment`.
pub open spec fn strip_comment_spec(line: Seq<char>) -> Seq<char> {
    match first_outside(line, '#') {
        Some(k) => line.subrange(0, k),
        None => line,
    }
}

/// Drop a trailing `# comment`, ignoring `#` inside strings.
pub fn strip_comment(line: &str) -> (r: String)
    ensures
        r@ == strip_comment_spec(line@),
{
    match index_outside_string(line, '#') {
        Some(i) => {
            let cs = chars_of(line);
            proof {
                lemma_first_outside_props(line@, '#');
            }
            string_of_range(&cs, 0, i)
        },
        None => String::from_str(line),
    }
}

/// How a character changes the bracket depth outside string literals.
pub open spec fn depth_delta(s: Seq<char>, k: int) -> int {
    if quote_state(s, k).0 {
        0
    } else if s[k] == '{' || s[k] == '[' {
        1
    } else if s[k] == '}' || s[k] == ']' {
        -1
    } else {
        0
    }
}

/// The depth of unclosed `{` / `[` after the first `k` characters.
pub open spec fn bracket_depth(s: Seq<char>, k: int) -> int
    decreases k,
{
    if k <= 0 {
        0
    } else {
        bracket_depth(s, k - 1) + depth_delta(s, k - 1)
    }
}

pub open spec fn balanced_spec(s: Seq<char>) -> bool {
    bracket_depth(s, s.len() as int) <= 0
}

/// Are all `{`/`[` in `text` closed? Used to join wrapped inline tables.
pub fn balanced(text: &str) -> (r: bool)
    ensures
        r == balanced_spec(text@),
{
    let cs = chars_of(text);
    let mut opens: usize = 0;
    let mut closes: usize = 0;
    let mut in_str = false;
    let mut quote = '"';
    let mut escaped = false;
    let mut i: usize = 0;
    while i < cs.len()
        invariant
            cs@ == text@,
            i <= cs@.len(),
            (in_str, quote, escaped) == quote_state(text@, i as int),
            opens - closes == bracket_depth(text@, i as int),
            opens + closes <= i,
        decreases cs@.len() - i,
    {
        let c = cs[i];
        if in_str {
            if escaped {
                escaped = false;
            } else if c == '\\' && quote == '"' {
                escaped = true;
            } else if c == quote {
                in_str = false;
            }
        } else if c == '"' || c == '\'' {
            in_str = true;
            quote = c;
            escaped = false;
        } else if c == '{' || c == '[' {
            opens = opens + 1;
        } else if c == '}' || c == ']' {
            closes = closes + 1;
        }
        i = i + 1;
    }
    opens <= closes
}


/// The position of the last `c` in `s`.
pub open spec fn last_index(s: Seq<char>, c: char) -> Option<int>
    decreases s.len(),
{
    if s.len() == 0 {
        None
    } else if s.last() == c {
        Some(s.len() - 1)
    } else {
        last_index(s.drop_last(), c)
    }
}

proof fn lemma_last_index(s: Seq<char>, c: char)
    ensures
        last_index(s, c) matches Some(k) ==> 0 <= k < s.len() && s[k] == c,
    decreases s.len(),
{
    if s.len() > 0 && s.last() != c {
        lemma_last_index(s.drop_last(), c);
    }
}

/// `[section]` → `section`; `[[array]]` and plain values → `None`.
pub open spec fn table_header_spec(line: Seq<char>) -> Option<Seq<char>> {
    if line.len() == 0 || line[0] != '[' {
        None
    } else {
        let rest = line.drop_first();
        if rest.len() > 0 && rest[0] == '[' {
            None
        } else {
            match last_index(rest, ']') {
                Some(end) => Some(trim_spec(rest.subrange(0, end))),
                None => None,
            }
        }
    }
}

pub fn table_header(line: &str) -> (r: Option<String>)
    ensures
        r matches Some(h) ==> table_header_spec(line@) == Some(h@),
        r is None ==> table_header_spec(line@) is None,
{
    let cs = chars_of(line);
    if cs.len() == 0 || cs[0] != '[' {
        return None;
    }
    if cs.len() > 1 && cs[1] == '[' {
        return None;
    }
    let ghost rest = cs@.drop_first();
    let mut k = cs.len();
    assert(rest =~= cs@.subrange(1, k as int));
    while k > 1
        invariant
            1 <= k <= cs@.len(),
            cs@ == line@,
            cs@.len() > 0 && cs@[0] == '[',
            !(cs@.len() > 1 && cs@[1] == '['),
            rest == cs@.drop_first(),
            last_index(rest, ']') == last_index(cs@.subrange(1, k as int), ']'),
        decreases k,
    {
        assert(cs@.subrange(1, k as int).drop_last() =~= cs@.subrange(1, k - 1));
        if cs[k - 1] == ']' {
            proof {
                assert(last_index(cs@.subrange(1, k as int), ']') == Some(k - 2));
                assert(rest.subrange(0, k - 2) =~= cs@.subrange(1, k - 1));
            }
            let (lo, hi) = trim_bounds(&cs, 1, k - 1, None, true, true);
            assert(cs@.subrange(1, k - 1) =~= rest.subrange(0, k - 2));
            let h = string_of_range(&cs, lo, hi);
            assert(h@ == trim_spec(rest.subrange(0, k - 2)));
            assert(!(rest.len() > 0 && rest[0] == '['));
            assert(table_header_spec(line@) == Some(trim_spec(rest.subrange(0, k - 2))));
            return Some(h);
        }
        k = k - 1;
    }
    None
}

/// `key = value`, with the key's quotes dropped; both must be non-empty.
pub open spec fn split_key_value_spec(line: Seq<char>) -> Option<(Seq<char>, Seq<char>)> {
    match first_outside(line, '=') {
        Some(eq) => {
            let key = trim_char_spec(trim_spec(line.subrange(0, eq)), '"');
            let value = trim_spec(line.subrange(eq + 1, line.len() as int));
            if key.len() == 0 || value.len() == 0 {
                None
            } else {
                Some((key, value))
            }
        },
        None => None,
    }
}

pub fn split_key_value(line: &str) -> (r: Option<(String, String)>)
    ensures
        r matches Some((k, v)) ==> split_key_value_spec(line@) == Some((k@, v@)),
        r is None ==> split_key_value_spec(line@) is None,
{
    let eq = match index_outside_string(line, '=') {
        Some(eq) => eq,
        None => return None,
    };
    proof {
        lemma_first_outside_props(line@, '=');
    }
    let cs = chars_of(line);
    let (klo, khi) = trim_bounds(&cs, 0, eq, None, true, true);
    let (klo2, khi2) = trim_bounds(&cs, klo, khi, Some('"'), true, true);
    let (vlo, vhi) = trim_bounds(&cs, eq + 1, cs.len(), None, true, true);
    if klo2 == khi2 || vlo == vhi {
        return None;
    }
    Some((string_of_range(&cs, klo2, khi2), string_of_range(&cs, vlo, vhi)))
}

/// A plain string value: trimmed, then without surrounding `"` and `'`.
pub open spec fn unquote_spec(value: Seq<char>) -> Seq<char> {
    trim_char_spec(trim_char_spec(trim_spec(value), '"'), '\'')
}

/// A string value reads the same whether written between double or single
/// quotes: it is the text between the quotes, for a text that does not itself
/// begin or end with a quote.
pub proof fn law_single_and_double_quotes_read_alike(v: Seq<char>)
    requires
        v.len() > 0 ==> (v[0] != '"' && v[0] != '\'' && v.last() != '"' && v.last() != '\''),
    ensures
        unquote_spec(seq!['\''] + v + seq!['\'']) == v,
        unquote_spec(seq!['"'] + v + seq!['"']) == v,
{
    lemma_quoted_reads_as(v, '\'', '"');
    lemma_quoted_reads_as(v, '"', '\'');
}

proof fn lemma_quoted_reads_as(v: Seq<char>, q: char, other: char)
    requires
        (q == '"' && other == '\'') || (q == '\'' && other == '"'),
        v.len() > 0 ==> (v[0] != '"' && v[0] != '\'' && v.last() != '"' && v.last() != '\''),
    ensures
        unquote_spec(seq![q] + v + seq![q]) == v,
{
    let s = seq![q] + v + seq![q];
    assert(s[0] == q && s.last() == q);
    assert(!unicode_white_space(q));
    assert(trim_start_by(s, ws()) == s);
    assert(trim_end_by(s, ws()) == s);
    assert(trim_spec(s) == s);
    let inner = v + seq![q];
    assert(s.drop_first() =~= inner);
    assert(trim_start_by(s, is_char(q)) == trim_start_by(inner, is_char(q)));
    if v.len() > 0 {
        assert(inner[0] == v[0]);
        assert(trim_start_by(inner, is_char(q)) == inner);
    } else {
        assert(inner.drop_first() =~= Seq::<char>::empty());
        assert(trim_start_by(Seq::<char>::empty(), is_char(q)) == Seq::<char>::empty());
        assert(trim_start_by(inner, is_char(q)) == Seq::<char>::empty());
    }
    let started = trim_start_by(s, is_char(q));
    if v.len() > 0 {
        assert(started.drop_last() =~= v);
        assert(trim_end_by(started, is_char(q)) == trim_end_by(v, is_char(q)));
        assert(trim_end_by(v, is_char(q)) == v);
    } else {
        assert(trim_end_by(started, is_char(q)) == started);
    }
    let quoted_trimmed = trim_char_spec(s, q);
    assert(quoted_trimmed == v);
    // The other quote character is not at either end of `s`, nor of `v`.
    assert(trim_char_spec(s, other) == s) by {
        assert(trim_start_by(s, is_char(other)) == s);
        assert(trim_end_by(s, is_char(other)) == s);
    }
    assert(trim_char_spec(v, other) == v) by {
        if v.len() > 0 {
            assert(trim_start_by(v, is_char(other)) == v);
            assert(trim_end_by(v, is_char(other)) == v);
        } else {
            assert(trim_start_by(v, is_char(other)) == v);
            assert(trim_end_by(v, is_char(other)) == v);
        }
    }
}

pub fn unquote(value: &str) -> (r: String)
    ensures
        r@ == unquote_spec(value@),
{
    let cs = chars_of(value);
    assert(cs@.subrange(0, cs@.len() as int) =~= cs@);
    let (a, b) = trim_bounds(&cs, 0, cs.len(), None, true, true);
    let (c, d) = trim_bounds(&cs, a, b, Some('"'), true, true);
    let (e, f) = trim_bounds(&cs, c, d, Some('\''), true, true);
    string_of_range(&cs, e, f)
}

/// `s` split at each `c` outside string literals.
pub open spec fn split_outside(s: Seq<char>, c: char) -> Seq<Seq<char>>
    decreases s.len(),
{
    match first_outside(s, c) {
        Some(k) => if 0 <= k < s.len() {
            seq![s.subrange(0, k)] + split_outside(s.subrange(k + 1, s.len() as int), c)
        } else {
            seq![s]
        },
        None => seq![s],
    }
}

/// The non-empty unquoted items.
pub open spec fn array_items(parts: Seq<Seq<char>>) -> Seq<Seq<char>>
    decreases parts.len(),
{
    if parts.len() == 0 {
        Seq::empty()
    } else {
        let prev = array_items(parts.drop_last());
        let u = unquote_spec(parts.last());
        if u.len() == 0 {
            prev
        } else {
            prev.push(u)
        }
    }
}

/// A TOML array of strings, `["a", "b"]`, as its items; anything else holds none.
pub open spec fn string_array_spec(value: Seq<char>) -> Seq<Seq<char>> {
    let t = trim_spec(value);
    if t.len() >= 2 && t[0] == '[' && t.last() == ']' {
        array_items(split_outside(t.subrange(1, t.len() - 1), ','))
    } else {
        Seq::empty()
    }
}

pub open spec fn views(ss: Seq<String>) -> Seq<Seq<char>> {
    ss.map_values(|s: String| s@)
}

proof fn lemma_split_some(s: Seq<char>, c: char, k: int)
    requires
        first_outside(s, c) == Some(k),
        0 <= k < s.len(),
    ensures
        split_outside(s, c) == seq![s.subrange(0, k)] + split_outside(
            s.subrange(k + 1, s.len() as int),
            c,
        ),
{
}

proof fn lemma_array_items_push(d: Seq<Seq<char>>, p: Seq<char>)
    ensures
        array_items(d.push(p)) == if unquote_spec(p).len() == 0 {
            array_items(d)
        } else {
            array_items(d).push(unquote_spec(p))
        },
{
    assert(d.push(p).drop_last() =~= d);
}

/// The strings of a TOML array value such as `["scratch", "*_wip.sn"]`.
pub fn string_array(value: &str) -> (r: Vec<String>)
    ensures
        views(r@) == string_array_spec(value@),
{
    let t = trim_str(value);
    let cs = chars_of(t.as_str());
    let mut out: Vec<String> = Vec::new();
    if !(cs.len() >= 2 && cs[0] == '[' && cs[cs.len() - 1] == ']') {
        assert(views(out@) =~= Seq::<Seq<char>>::empty());
        return out;
    }
    let mut rest = string_of_range(&cs, 1, cs.len() - 1);
    let ghost whole = rest@;
    let ghost mut done: Seq<Seq<char>> = Seq::empty();
    assert(views(out@) =~= array_items(done));
    assert(split_outside(whole, ',') =~= done + split_outside(rest@, ','));
    assert(whole =~= trim_spec(value@).subrange(1, trim_spec(value@).len() - 1));
    loop
        invariant
            split_outside(whole, ',') == done + split_outside(rest@, ','),
            string_array_spec(value@) == array_items(split_outside(whole, ',')),
            views(out@) == array_items(done),
        decreases rest@.len(),
    {
        proof {
            lemma_first_outside_props(rest@, ',');
        }
        match index_outside_string(rest.as_str(), ',') {
            Some(k) => {
                let rc = chars_of(rest.as_str());
                assert(outside_at(rest@, ',', k as int));
                assert(k < rc.len());
                let part = string_of_range(&rc, 0, k);
                let u = unquote(part.as_str());
                let ghost before = out@;
                if u.as_str().unicode_len() > 0 {
                    out.push(u);
                    assert(views(out@) =~= views(before).push(u@));
                }
                proof {
                    lemma_array_items_push(done, part@);
                    lemma_split_some(rest@, ',', k as int);
                    assert(split_outside(whole, ',') =~= done.push(part@) + split_outside(
                        rest@.subrange(k + 1, rest@.len() as int),
                        ',',
                    ));
                    done = done.push(part@);
                }
                rest = string_of_range(&rc, k + 1, rc.len());
            },
            None => {
                let u = unquote(rest.as_str());
                let ghost before = out@;
                if u.as_str().unicode_len() > 0 {
                    out.push(u);
                    assert(views(out@) =~= views(before).push(u@));
                }
                proof {
                    lemma_array_items_push(done, rest@);
                    assert(split_outside(whole, ',') =~= done.push(rest@));
                }
                return out;
            },
        }
    }
}

/// A character of a Rust identifier.
pub open spec fn ident_char(c: char) -> bool {
    c == '_' || is_ascii_alnum(c)
}

/// A byte of a Rust identifier: `_` or an ASCII letter or digit.
pub fn is_ident_byte(b: u8) -> (r: bool)
    ensures
        r == (b == 95 || (48 <= b <= 57) || (65 <= b <= 90) || (97 <= b <= 122)),
{
    b == 95 || (48 <= b && b <= 57) || (65 <= b && b <= 90) || (97 <= b && b <= 122)
}

fn is_ident_char(c: char) -> (r: bool)
    ensures
        r == ident_char(c),
{
    c == '_' || ('0' <= c && c <= '9') || ('A' <= c && c <= 'Z') || ('a' <= c && c <= 'z')
}


// ---- the manifest ----------------------------------------------------------------

/// The `[package]` table.
#[derive(Debug, Clone)]
pub struct Package {
    pub name: Option<String>,
    pub version: Option<String>,
    /// Rust edition for the generated crate.
    pub edition: Option<String>,
}

impl Default for Package {
    fn default() -> (p: Self)
        ensures
            p.name is None,
            p.version is None,
            p.edition is None,
    {
        Package { name: None, version: None, edition: None }
    }
}

/// A dependency value, kept as the raw TOML the user wrote.
#[derive(Debug, Clone)]
pub enum DepBody {
    /// `serde_json = "1"` → `"1"`, or an inline table `{ version = "1" }`.
    Inline(String),
    /// A `[dependencies.<name>]` sub-table, as `key = value` lines.
    Table(Vec<String>),
}

/// One entry of `[dependencies]`.
#[derive(Debug, Clone)]
pub struct Dependency {
    /// The key as written; also the identifier the generated Rust refers to.
    pub name: String,
    pub body: DepBody,
}

/// A `[profile.*]` / `[patch.*]` section, forwarded to Cargo unchanged.
#[derive(Debug, Clone)]
pub struct Section {
    pub header: String,
    pub lines: Vec<String>,
}

/// A parsed `tinys.toml`.
#[derive(Debug, Clone)]
pub struct Manifest {
    /// The manifest file itself.
    pub path: String,
    /// Directory holding the manifest — the package root.
    pub dir: String,
    pub package: Package,
    pub dependencies: Vec<Dependency>,
    pub passthrough: Vec<Section>,
    /// Section headers TinyS does not understand yet.
    pub ignored: Vec<String>,
    /// `[package] exclude`: patterns of files kept out of the module tree.
    pub exclude: Vec<String>,
}

/// A dependency value by its text.
pub enum DepBodyView {
    Inline(Seq<char>),
    Table(Seq<Seq<char>>),
}

pub struct DependencyView {
    pub name: Seq<char>,
    pub body: DepBodyView,
}

pub struct SectionView {
    pub header: Seq<char>,
    pub lines: Seq<Seq<char>>,
}

/// A manifest by its text.
pub struct ManifestView {
    pub path: Seq<char>,
    pub dir: Seq<char>,
    pub name: Option<Seq<char>>,
    pub version: Option<Seq<char>>,
    pub edition: Option<Seq<char>>,
    pub dependencies: Seq<DependencyView>,
    pub passthrough: Seq<SectionView>,
    pub ignored: Seq<Seq<char>>,
    pub exclude: Seq<Seq<char>>,
}

pub open spec fn opt_view(o: Option<String>) -> Option<Seq<char>> {
    match o {
        Some(s) => Some(s@),
        None => None,
    }
}

impl View for DepBody {
    type V = DepBodyView;

    open spec fn view(&self) -> DepBodyView {
        match self {
            DepBody::Inline(v) => DepBodyView::Inline(v@),
            DepBody::Table(ls) => DepBodyView::Table(views(ls@)),
        }
    }
}

impl View for Dependency {
    type V = DependencyView;

    open spec fn view(&self) -> DependencyView {
        DependencyView { name: self.name@, body: self.body@ }
    }
}

impl View for Section {
    type V = SectionView;

    open spec fn view(&self) -> SectionView {
        SectionView { header: self.header@, lines: views(self.lines@) }
    }
}

impl View for Manifest {
    type V = ManifestView;

    open spec fn view(&self) -> ManifestView {
        ManifestView {
            path: self.path@,
            dir: self.dir@,
            name: opt_view(self.package.name),
            version: opt_view(self.package.version),
            edition: opt_view(self.package.edition),
            dependencies: self.dependencies@.map_values(|d: Dependency| d@),
            passthrough: self.passthrough@.map_values(|s: Section| s@),
            ignored: views(self.ignored@),
            exclude: views(self.exclude@),
        }
    }
}

pub open spec fn starts_with(s: Seq<char>, p: Seq<char>) -> bool {
    p.len() <= s.len() && s.subrange(0, p.len() as int) == p
}

/// A manifest with nothing read yet.
pub open spec fn empty_manifest(path: Seq<char>, dir: Seq<char>) -> ManifestView {
    ManifestView {
        path,
        dir,
        name: None,
        version: None,
        edition: None,
        dependencies: Seq::empty(),
        passthrough: Seq::empty(),
        ignored: Seq::empty(),
        exclude: Seq::empty(),
    }
}

/// The sections TinyS understands.
pub open spec fn known_section(h: Seq<char>) -> bool {
    h == "package"@ || h == "dependencies"@ || starts_with(h, "dependencies."@) || h == "profile"@
        || starts_with(h, "profile."@) || h == "patch"@ || starts_with(h, "patch."@)
}

/// A `[profile]` / `[profile.*]` / `[patch]` / `[patch.*]` section, which is
/// passed through to Cargo.
pub open spec fn is_passthrough_section(h: Seq<char>) -> bool {
    h == "profile"@ || starts_with(h, "profile."@) || h == "patch"@ || starts_with(h, "patch."@)
}

fn passthrough_section(h: &str) -> (r: bool)
    ensures
        r == is_passthrough_section(h@),
{
    str_eq(h, "profile") || starts_with_str(h, "profile.") || str_eq(h, "patch") || starts_with_str(h, "patch.")
}

/// What a `[header]` line records: an unknown section once in `ignored`; a
/// `profile` / `patch` section to pass through; a `[dependencies.<name>]`
/// table dependency.
pub open spec fn after_header(m: ManifestView, h: Seq<char>) -> ManifestView {
    let m1 = if !known_section(h) && !m.ignored.contains(h) {
        ManifestView { ignored: m.ignored.push(h), ..m }
    } else {
        m
    };
    let m2 = if is_passthrough_section(h) {
        ManifestView {
            passthrough: m1.passthrough.push(SectionView { header: h, lines: Seq::empty() }),
            ..m1
        }
    } else {
        m1
    };
    if starts_with(h, "dependencies."@) {
        ManifestView {
            dependencies: m2.dependencies.push(
                DependencyView {
                    name: trim_char_spec(h.subrange(13, h.len() as int), '"'),
                    body: DepBodyView::Table(Seq::empty()),
                },
            ),
            ..m2
        }
    } else {
        m2
    }
}

pub open spec fn entry_line(key: Seq<char>, value: Seq<char>) -> Seq<char> {
    key + " = "@ + value
}

/// What a `key = value` line records in the current section.
pub open spec fn after_entry(m: ManifestView, section: Seq<char>, key: Seq<char>, value: Seq<char>) -> ManifestView {
    if section == "package"@ {
        if key == "name"@ {
            ManifestView { name: Some(unquote_spec(value)), ..m }
        } else if key == "version"@ {
            ManifestView { version: Some(unquote_spec(value)), ..m }
        } else if key == "edition"@ {
            ManifestView { edition: Some(unquote_spec(value)), ..m }
        } else if key == "exclude"@ {
            ManifestView { exclude: string_array_spec(value), ..m }
        } else {
            m
        }
    } else if section == "dependencies"@ {
        ManifestView {
            dependencies: m.dependencies.push(
                DependencyView { name: key, body: DepBodyView::Inline(value) },
            ),
            ..m
        }
    } else if starts_with(section, "dependencies."@) {
        if m.dependencies.len() > 0 && m.dependencies.last().body is Table {
            let d = m.dependencies.last();
            let ls = d.body->Table_0;
            ManifestView {
                dependencies: m.dependencies.update(
                    m.dependencies.len() - 1,
                    DependencyView {
                        name: d.name,
                        body: DepBodyView::Table(ls.push(entry_line(key, value))),
                    },
                ),
                ..m
            }
        } else {
            m
        }
    } else if is_passthrough_section(section) {
        if m.passthrough.len() > 0 {
            let s = m.passthrough.last();
            ManifestView {
                passthrough: m.passthrough.update(
                    m.passthrough.len() - 1,
                    SectionView { header: s.header, lines: s.lines.push(entry_line(key, value)) },
                ),
                ..m
            }
        } else {
            m
        }
    } else {
        m
    }
}

/// A value whose brackets are not closed on its line continues on the next
/// lines (without their comments and trailing space) until they are.
pub open spec fn join_wrapped(lines: Seq<Seq<char>>, j: int, acc: Seq<char>) -> (Seq<char>, int)
    decreases lines.len() - j,
{
    if balanced_spec(acc) || j < 0 || j >= lines.len() {
        (acc, j)
    } else {
        join_wrapped(lines, j + 1, acc + seq!['\n'] + trim_end_spec(strip_comment_spec(lines[j])))
    }
}

proof fn lemma_join_wrapped(lines: Seq<Seq<char>>, j: int, acc: Seq<char>)
    requires
        0 <= j <= lines.len(),
    ensures
        j <= join_wrapped(lines, j, acc).1 <= lines.len(),
    decreases lines.len() - j,
{
    if !(balanced_spec(acc) || j < 0 || j >= lines.len()) {
        lemma_join_wrapped(lines, j + 1, acc + seq!['\n'] + trim_end_spec(strip_comment_spec(lines[j])));
    }
}

pub open spec fn parse_error_message(path: Seq<char>, line: Seq<char>) -> Seq<char> {
    path + ": cannot parse `"@ + line + "` (expected `key = value`)"@
}

/// Reading the manifest from line `i` on, in section `section`, with `m`
/// recorded so far: the manifest, or the message for a line that is neither
/// blank, a header, nor `key = value`.
pub open spec fn parse_lines(lines: Seq<Seq<char>>, i: int, m: ManifestView, section: Seq<char>) -> Result<ManifestView, Seq<char>>
    decreases lines.len() - i,
{
    if i < 0 || i >= lines.len() {
        Ok(m)
    } else {
        let line = trim_spec(strip_comment_spec(lines[i]));
        if line.len() == 0 {
            parse_lines(lines, i + 1, m, section)
        } else {
            match table_header_spec(line) {
                Some(h) => parse_lines(lines, i + 1, after_header(m, h), h),
                None => {
                    let (vt, j) = join_wrapped(lines, i + 1, line);
                    match split_key_value_spec(vt) {
                        Some((k, v)) => if i < j <= lines.len() {
                            parse_lines(lines, j, after_entry(m, section, k, v), section)
                        } else {
                            Ok(m)
                        },
                        None => Err(parse_error_message(m.path, line)),
                    }
                },
            }
        }
    }
}

/// The manifest a text holds, before dependency paths are made absolute.
pub open spec fn manifest_spec(text: Seq<char>, path: Seq<char>, dir: Seq<char>) -> Result<ManifestView, Seq<char>> {
    parse_lines(lines_from(text, 0), 0, empty_manifest(path, dir), Seq::empty())
}


fn has_string(v: &Vec<String>, s: &str) -> (r: bool)
    ensures
        r == views(v@).contains(s@),
{
    let mut i: usize = 0;
    while i < v.len()
        invariant
            i <= v@.len(),
            forall|j: int| 0 <= j < i ==> v@[j]@ != s@,
        decreases v@.len() - i,
    {
        if str_eq(v[i].as_str(), s) {
            assert(views(v@)[i as int] == s@);
            return true;
        }
        i = i + 1;
    }
    assert(!views(v@).contains(s@)) by {
        if views(v@).contains(s@) {
            let j = choose|j: int| 0 <= j < views(v@).len() && views(v@)[j] == s@;
            assert(v@[j]@ == s@);
        }
    }
    false
}

fn entry_string(key: &str, value: &str) -> (r: String)
    ensures
        r@ == entry_line(key@, value@),
{
    let mut out = String::from_str(key);
    out.append(" = ");
    out.append(value);
    out
}

impl Manifest {
    /// Records a `[header]` line.
    fn apply_header(&mut self, h: &str)
        ensures
            final(self)@ == after_header(old(self)@, h@),
    {
        let known = str_eq(h, "package") || str_eq(h, "dependencies") || starts_with_str(
            h,
            "dependencies.",
        ) || str_eq(h, "profile") || starts_with_str(h, "profile.") || str_eq(h, "patch")
            || starts_with_str(h, "patch.");
        let ghost m0 = self@;
        if !known && !has_string(&self.ignored, h) {
            self.ignored.push(String::from_str(h));
            assert(views(self.ignored@) =~= m0.ignored.push(h@));
        }
        let ghost m1 = self@;
        if passthrough_section(h) {
            let sec = Section { header: String::from_str(h), lines: Vec::new() };
            assert(views(sec.lines@) =~= Seq::<Seq<char>>::empty());
            self.passthrough.push(sec);
            assert(self.passthrough@.map_values(|s: Section| s@) =~= m1.passthrough.push(
                SectionView { header: h@, lines: Seq::empty() },
            ));
        }
        let ghost m2 = self@;
        if starts_with_str(h, "dependencies.") {
            proof {
                reveal_strlit("dependencies.");
            }
            let cs = chars_of(h);
            let (lo, hi) = trim_bounds(&cs, 13, cs.len(), Some('"'), true, true);
            let name = string_of_range(&cs, lo, hi);
            let body: Vec<String> = Vec::new();
            assert(views(body@) =~= Seq::<Seq<char>>::empty());
            let d = Dependency { name, body: DepBody::Table(body) };
            self.dependencies.push(d);
            assert(self.dependencies@.map_values(|d: Dependency| d@) =~= m2.dependencies.push(
                DependencyView {
                    name: trim_char_spec(h@.subrange(13, h@.len() as int), '"'),
                    body: DepBodyView::Table(Seq::empty()),
                },
            ));
        }
    }

    /// Records a `key = value` line of section `section`.
    fn apply_entry(&mut self, section: &str, key: String, value: String)
        ensures
            final(self)@ == after_entry(old(self)@, section@, key@, value@),
    {
        let ghost m0 = self@;
        if str_eq(section, "package") {
            if str_eq(key.as_str(), "name") {
                self.package.name = Some(unquote(value.as_str()));
            } else if str_eq(key.as_str(), "version") {
                self.package.version = Some(unquote(value.as_str()));
            } else if str_eq(key.as_str(), "edition") {
                self.package.edition = Some(unquote(value.as_str()));
            } else if str_eq(key.as_str(), "exclude") {
                self.exclude = string_array(value.as_str());
            }
        } else if str_eq(section, "dependencies") {
            let ghost dv = DependencyView { name: key@, body: DepBodyView::Inline(value@) };
            self.dependencies.push(Dependency { name: key, body: DepBody::Inline(value) });
            assert(self.dependencies@.map_values(|d: Dependency| d@) =~= m0.dependencies.push(dv));
        } else if starts_with_str(section, "dependencies.") {
            if self.dependencies.len() > 0 {
                let ghost before = self.dependencies@;
                let last = self.dependencies.pop().unwrap();
                let ghost lv = last@;
                let Dependency { name, body } = last;
                let nb = match body {
                    DepBody::Table(mut ls) => {
                        let ghost lsv = views(ls@);
                        let line = entry_string(key.as_str(), value.as_str());
                        ls.push(line);
                        assert(views(ls@) =~= lsv.push(entry_line(key@, value@)));
                        DepBody::Table(ls)
                    },
                    other => other,
                };
                self.dependencies.push(Dependency { name, body: nb });
                proof {
                    assert(before.map_values(|d: Dependency| d@).last() == lv);
                    assert(self.dependencies@.map_values(|d: Dependency| d@) =~= after_entry(
                        m0,
                        section@,
                        key@,
                        value@,
                    ).dependencies);
                }
            }
        } else if passthrough_section(section) {
            if self.passthrough.len() > 0 {
                let ghost before = self.passthrough@;
                let last = self.passthrough.pop().unwrap();
                let ghost lv = last@;
                let Section { header, mut lines } = last;
                let line = entry_string(key.as_str(), value.as_str());
                let ghost lsv = views(lines@);
                lines.push(line);
                assert(views(lines@) =~= lsv.push(entry_line(key@, value@)));
                self.passthrough.push(Section { header, lines });
                proof {
                    assert(before.map_values(|s: Section| s@).last() == lv);
                    assert(self.passthrough@.map_values(|s: Section| s@) =~= after_entry(
                        m0,
                        section@,
                        key@,
                        value@,
                    ).passthrough);
                }
            }
        }
    }

    /// Reads a manifest from its text. `path` names the file in error messages
    /// and `dir` is the directory relative dependency paths are resolved
    /// against.
    pub fn parse_raw(text: &str, path: &str, dir: &str) -> (r: Result<Manifest, String>)
        ensures
            match manifest_spec(text@, path@, dir@) {
                Ok(m) => r matches Ok(x) && x@ == m,
                Err(e) => r matches Err(x) && x@ == e,
            },
    {
        let mut manifest = Manifest {
            path: String::from_str(path),
            dir: String::from_str(dir),
            package: Package { name: None, version: None, edition: None },
            dependencies: Vec::new(),
            passthrough: Vec::new(),
            ignored: Vec::new(),
            exclude: Vec::new(),
        };
        assert(manifest@ =~= empty_manifest(path@, dir@)) by {
            assert(manifest.dependencies@.map_values(|d: Dependency| d@) =~= Seq::<DependencyView>::empty());
            assert(manifest.passthrough@.map_values(|s: Section| s@) =~= Seq::<SectionView>::empty());
            assert(views(manifest.ignored@) =~= Seq::<Seq<char>>::empty());
            assert(views(manifest.exclude@) =~= Seq::<Seq<char>>::empty());
        }
        let lines = lines_of(text);
        let ghost ls = lines_from(text@, 0);
        let mut section = String::new();
        let mut i: usize = 0;
        while i < lines.len()
            invariant
                lines@.map_values(|l: String| l@) == ls,
                i <= ls.len(),
                manifest@.path == path@,
                manifest_spec(text@, path@, dir@) == parse_lines(ls, i as int, manifest@, section@),
            decreases ls.len() - i,
        {
            assert(lines@[i as int]@ == ls[i as int]);
            let stripped = strip_comment(lines[i].as_str());
            let line = trim_str(stripped.as_str());
            if line.as_str().unicode_len() == 0 {
                i = i + 1;
                continue;
            }
            match table_header(line.as_str()) {
                Some(h) => {
                    manifest.apply_header(h.as_str());
                    section = h;
                    i = i + 1;
                    continue;
                },
                None => {},
            }
            let mut value_text = String::from_str(line.as_str());
            let mut j = i + 1;
            while !balanced(value_text.as_str()) && j < lines.len()
                invariant
                    lines@.map_values(|l: String| l@) == ls,
                    i < j <= ls.len(),
                    join_wrapped(ls, i + 1, line@) == join_wrapped(ls, j as int, value_text@),
                decreases ls.len() - j,
            {
                assert(lines@[j as int]@ == ls[j as int]);
                let s2 = strip_comment(lines[j].as_str());
                let next = trim_end_str(s2.as_str());
                let ghost acc = value_text@;
                push_char(&mut value_text, '\n');
                value_text.append(next.as_str());
                assert(value_text@ =~= acc + seq!['\n'] + trim_end_spec(strip_comment_spec(ls[j as int])));
                j = j + 1;
            }
            proof {
                lemma_join_wrapped(ls, i + 1, line@);
            }
            match split_key_value(value_text.as_str()) {
                Some((k, v)) => {
                    manifest.apply_entry(section.as_str(), k, v);
                    i = j;
                },
                None => {
                    let mut msg = String::from_str(path);
                    msg.append(": cannot parse `");
                    msg.append(line.as_str());
                    msg.append("` (expected `key = value`)");
                    return Err(msg);
                },
            }
        }
        Ok(manifest)
    }
}


// ---- searching for whole words ---------------------------------------------------------

/// The least `k >= 0` for which `p(k)` holds.
#[verifier::opaque]
pub open spec fn first_where(p: spec_fn(int) -> bool) -> Option<int> {
    if exists|k: int| 0 <= k && #[trigger] p(k) {
        Some(choose|k: int| 0 <= k && #[trigger] p(k) && forall|j: int| 0 <= j < k ==> !#[trigger] p(j))
    } else {
        None
    }
}

proof fn lemma_min_where(p: spec_fn(int) -> bool, k: int)
    requires
        0 <= k,
        p(k),
    ensures
        exists|m: int| 0 <= m && #[trigger] p(m) && forall|j: int| 0 <= j < m ==> !#[trigger] p(j),
    decreases k,
{
    if exists|j: int| 0 <= j < k && #[trigger] p(j) {
        let j = choose|j: int| 0 <= j < k && #[trigger] p(j);
        lemma_min_where(p, j);
    }
}

proof fn lemma_first_where(p: spec_fn(int) -> bool)
    ensures
        first_where(p) matches Some(k) ==> 0 <= k && p(k) && forall|j: int| 0 <= j < k ==> !#[trigger] p(j),
        first_where(p) is None ==> forall|k: int| 0 <= k ==> !#[trigger] p(k),
{
    reveal(first_where);
    if exists|k: int| 0 <= k && #[trigger] p(k) {
        let k = choose|k: int| 0 <= k && #[trigger] p(k);
        lemma_min_where(p, k);
    }
}

proof fn lemma_first_where_at(p: spec_fn(int) -> bool, k: int)
    requires
        0 <= k,
        p(k),
        forall|j: int| 0 <= j < k ==> !#[trigger] p(j),
    ensures
        first_where(p) == Some(k),
{
    lemma_first_where(p);
    let m = first_where(p)->0;
    if m < k {
        assert(!p(m));
    }
    if k < m {
        assert(!p(k));
    }
}

/// `word` occurs at `s` in `text`, not inside a longer identifier.
pub open spec fn whole_word_at(text: Seq<char>, word: Seq<char>, s: int) -> bool {
    &&& occurs_at(text, word, s)
    &&& (s == 0 || !ident_char(text[s - 1]))
    &&& (s + word.len() == text.len() || !ident_char(text[s + word.len()]))
}

/// The first whole-word occurrence of `word` in `text`.
pub open spec fn first_whole_word(text: Seq<char>, word: Seq<char>) -> Option<int> {
    first_where(|s: int| whole_word_at(text, word, s))
}

proof fn lemma_first_whole_word(text: Seq<char>, word: Seq<char>)
    ensures
        first_whole_word(text, word) matches Some(k) ==> 0 <= k && whole_word_at(text, word, k),
        first_whole_word(text, word) is None ==> forall|k: int|
            0 <= k ==> !#[trigger] whole_word_at(text, word, k),
{
    let p = |s: int| whole_word_at(text, word, s);
    lemma_first_where(p);
    if first_whole_word(text, word) is None {
        assert forall|k: int| 0 <= k implies !#[trigger] whole_word_at(text, word, k) by {
            assert(!p(k));
        }
    }
}

/// `word` stands somewhere in `text` as a whole word.
pub open spec fn has_whole_word(text: Seq<char>, word: Seq<char>) -> bool {
    exists|s: int| 0 <= s && #[trigger] whole_word_at(text, word, s)
}

/// The search finds `word` exactly when it stands somewhere as a whole word.
pub proof fn lemma_found_iff_whole_word(text: Seq<char>, word: Seq<char>)
    ensures
        first_whole_word(text, word) is Some <==> has_whole_word(text, word),
{
    lemma_first_whole_word(text, word);
    if first_whole_word(text, word) is Some {
        let k = first_whole_word(text, word)->Some_0;
        assert(whole_word_at(text, word, k));
    }
}

/// Across a separator that is no identifier character and does not occur in
/// `word`, a whole word stands in `a`, the separator, `b` exactly when it
/// stands in `a` or in `b`.
pub proof fn lemma_whole_word_split(a: Seq<char>, b: Seq<char>, sep: char, word: Seq<char>)
    requires
        !ident_char(sep),
        !word.contains(sep),
    ensures
        has_whole_word(a + seq![sep] + b, word) <==> (has_whole_word(a, word) || has_whole_word(b, word)),
{
    let t = a + seq![sep] + b;
    let wl = word.len() as int;
    let al = a.len() as int;
    assert(t.len() == al + 1 + b.len());
    assert(t[al] == sep);
    assert forall|i: int| 0 <= i < al implies t[i] == a[i] by {}
    assert forall|i: int| 0 <= i < b.len() implies t[al + 1 + i] == b[i] by {}
    if has_whole_word(t, word) {
        let s = choose|s: int| 0 <= s && #[trigger] whole_word_at(t, word, s);
        assert(t.subrange(s, s + wl) == word);
        if s + wl <= al {
            assert(a.subrange(s, s + wl) =~= t.subrange(s, s + wl));
            if s + wl < al {
                assert(t[s + wl] == a[s + wl]);
            }
            if s > 0 {
                assert(t[s - 1] == a[s - 1]);
            }
            assert(whole_word_at(a, word, s));
        } else if s >= al + 1 {
            let s2 = s - al - 1;
            assert(b.subrange(s2, s2 + wl) =~= t.subrange(s, s + wl));
            if s2 > 0 {
                assert(t[s - 1] == b[s2 - 1]);
            }
            if s2 + wl < b.len() {
                assert(t[s + wl] == b[s2 + wl]);
            }
            assert(whole_word_at(b, word, s2));
        } else {
            assert(word[al - s] == t.subrange(s, s + wl)[al - s]);
            assert(word[al - s] == sep);
            assert(word.contains(sep));
        }
    }
    if has_whole_word(a, word) {
        let s = choose|s: int| 0 <= s && #[trigger] whole_word_at(a, word, s);
        assert(t.subrange(s, s + wl) =~= a.subrange(s, s + wl));
        if s > 0 {
            assert(t[s - 1] == a[s - 1]);
        }
        if s + wl < al {
            assert(t[s + wl] == a[s + wl]);
        }
        assert(whole_word_at(t, word, s));
    }
    if has_whole_word(b, word) {
        let s2 = choose|s: int| 0 <= s && #[trigger] whole_word_at(b, word, s);
        let s = s2 + al + 1;
        assert(t.subrange(s, s + wl) =~= b.subrange(s2, s2 + wl));
        if s2 > 0 {
            assert(t[s - 1] == b[s2 - 1]);
        }
        if s2 + wl < b.len() {
            assert(t[s + wl] == b[s2 + wl]);
        }
        assert(whole_word_at(t, word, s));
    }
}

/// Searching byte by byte, the search would slice `text` inside a character:
/// the first occurrence of a word that starts with a multi-byte character is
/// not a whole word, or an empty word stands as a whole word nowhere.
pub open spec fn word_search_panics(text: Seq<char>, word: Seq<char>) -> bool {
    if word.len() == 0 {
        forall|s: int| 0 <= s <= text.len() ==> !whole_word_at(text, word, s)
    } else {
        &&& !is_ascii(word[0])
        &&& exists|s: int|
            occurs_at(text, word, s) && !whole_word_at(text, word, s) && forall|t: int|
                0 <= t < s ==> !occurs_at(text, word, t)
    }
}

fn whole_word_exec(text: &Vec<char>, word: &Vec<char>, s: usize) -> (r: bool)
    ensures
        r == whole_word_at(text@, word@, s as int),
{
    if !crate::text::occurs_at_exec(text, word, s) {
        return false;
    }
    let wl = word.len();
    let tl = text.len();
    assert(s + wl <= tl);
    let end = s + wl;
    let before_ok = s == 0 || !is_ident_char(text[s - 1]);
    let after_ok = end == text.len() || !is_ident_char(text[end]);
    before_ok && after_ok
}

fn first_whole_word_exec(text: &Vec<char>, word: &Vec<char>) -> (r: Option<usize>)
    ensures
        r matches Some(k) ==> first_whole_word(text@, word@) == Some(k as int),
        r is None ==> first_whole_word(text@, word@) is None,
{
    let ghost p = |s: int| whole_word_at(text@, word@, s);
    let mut s: usize = 0;
    loop
        invariant
            s <= text@.len(),
            p == (|s: int| whole_word_at(text@, word@, s)),
            forall|j: int| 0 <= j < s ==> !#[trigger] p(j),
        ensures
            forall|j: int| 0 <= j <= text@.len() ==> !#[trigger] p(j),
        decreases text@.len() - s,
    {
        if whole_word_exec(text, word, s) {
            proof {
                lemma_first_where_at(p, s as int);
            }
            return Some(s);
        }
        if s == text.len() {
            break;
        }
        s = s + 1;
    }
    proof {
        lemma_first_where(p);
        assert forall|k: int| 0 <= k implies !#[trigger] p(k) by {
            if k > text@.len() {
                assert(!occurs_at(text@, word@, k));
            }
        }
        reveal(first_where);
    }
    None
}

/// Find `key` used as a bare TOML key (not part of a longer identifier): its
/// character position.
pub fn find_key(text: &str, key: &str) -> (r: Option<usize>)
    requires
        !word_search_panics(text@, key@),
    ensures
        r matches Some(k) ==> first_whole_word(text@, key@) == Some(k as int),
        r is None ==> first_whole_word(text@, key@) is None,
{
    let t = chars_of(text);
    let k = chars_of(key);
    first_whole_word_exec(&t, &k)
}

/// A dependency's Rust identifier: its name with `-` spelled `_`.
pub open spec fn crate_ident(dep: Seq<char>) -> Seq<char> {
    dep.map_values(|c: char| if c == '-' { '_' } else { c })
}

/// Whether `rust` names the crate `dep` as a whole identifier.
pub open spec fn references_crate_spec(rust: Seq<char>, dep: Seq<char>) -> bool {
    crate_ident(dep).len() > 0 && first_whole_word(rust, crate_ident(dep)) is Some
}

/// Does the generated Rust refer to crate `dep`?
///
/// A TinyS program imports every crate it uses (`from rust.serde import ...`,
/// `import rust.serde_json as json`), so the crate identifier always appears in
/// the generated source. Dependencies that do not appear are left out of the
/// generated `Cargo.toml`, which keeps single-file builds fast — and offline —
/// even when the package declares crates this program never touches.
pub fn references_crate(rust: &str, dep: &str) -> (r: bool)
    requires
        crate_ident(dep@).len() > 0 ==> !word_search_panics(rust@, crate_ident(dep@)),
    ensures
        r == references_crate_spec(rust@, dep@),
{
    let ident = crate_ident_exec(dep);
    if ident.len() == 0 {
        return false;
    }
    let t = chars_of(rust);
    match first_whole_word_exec(&t, &ident) {
        Some(_) => true,
        None => false,
    }
}

/// The characters of `crate_ident(dep)`.
pub(crate) fn crate_ident_exec(dep: &str) -> (r: Vec<char>)
    ensures
        r@ == crate_ident(dep@),
{
    let d = chars_of(dep);
    let mut ident: Vec<char> = Vec::new();
    let mut i: usize = 0;
    while i < d.len()
        invariant
            i <= d@.len(),
            ident@ == d@.subrange(0, i as int).map_values(|c: char| if c == '-' { '_' } else { c }),
        decreases d@.len() - i,
    {
        let c = if d[i] == '-' {
            '_'
        } else {
            d[i]
        };
        ident.push(c);
        assert(d@.subrange(0, i + 1).map_values(|c: char| if c == '-' { '_' } else { c })
            =~= d@.subrange(0, i as int).map_values(|c: char| if c == '-' { '_' } else { c }).push(c));
        i = i + 1;
    }
    assert(d@.subrange(0, d@.len() as int) =~= d@);
    ident
}

/// The first position where `word` occurs in `text`.
fn first_occurrence(text: &Vec<char>, word: &Vec<char>) -> (r: Option<usize>)
    ensures
        r matches Some(s) ==> occurs_at(text@, word@, s as int) && forall|t: int|
            0 <= t < s ==> !#[trigger] occurs_at(text@, word@, t),
        r is None ==> forall|t: int| !#[trigger] occurs_at(text@, word@, t),
{
    let mut s: usize = 0;
    loop
        invariant
            s <= text@.len(),
            forall|t: int| 0 <= t < s ==> !#[trigger] occurs_at(text@, word@, t),
        ensures
            forall|t: int| 0 <= t <= text@.len() ==> !#[trigger] occurs_at(text@, word@, t),
        decreases text@.len() - s,
    {
        if crate::text::occurs_at_exec(text, word, s) {
            return Some(s);
        }
        if s == text.len() {
            break;
        }
        s = s + 1;
    }
    None
}

/// Whether searching `text` for the whole word `word` runs into the case that
/// `word_search_panics` describes.
pub fn search_panics(text: &str, word: &str) -> (r: bool)
    ensures
        r == word_search_panics(text@, word@),
{
    let t = chars_of(text);
    let w = chars_of(word);
    search_panics_chars(&t, &w)
}

pub(crate) fn search_panics_chars(t: &Vec<char>, w: &Vec<char>) -> (r: bool)
    ensures
        r == word_search_panics(t@, w@),
{
    if w.len() == 0 {
        let found = first_whole_word_exec(t, w);
        proof {
            lemma_first_whole_word(t@, w@);
        }
        return found.is_none();
    }
    if (w[0] as u32) < 128 {
        return false;
    }
    match first_occurrence(t, w) {
        Some(s) => {
            let r = !whole_word_exec(t, w, s);
            proof {
                if !r {
                    assert forall|u: int|
                        occurs_at(t@, w@, u) && !whole_word_at(t@, w@, u) implies exists|v: int|
                        0 <= v < u && occurs_at(t@, w@, v) by {
                        if u > s {
                            assert(occurs_at(t@, w@, s as int));
                        }
                    }
                }
            }
            r
        },
        None => false,
    }
}

// ---- dependency paths -----------------------------------------------------------------

/// `str::find(c)`: the position of the first `c`.
pub open spec fn first_index(s: Seq<char>, c: char) -> Option<int>
    decreases s.len(),
{
    if s.len() == 0 {
        None
    } else if s[0] == c {
        Some(0)
    } else {
        match first_index(s.drop_first(), c) {
            Some(k) => Some(k + 1),
            None => None,
        }
    }
}

proof fn lemma_first_index_step(v: Seq<char>, i: int, end: int, c: char)
    requires
        0 <= i < end <= v.len(),
        v[i] != c,
    ensures
        first_index(v.subrange(i, end), c) == match first_index(v.subrange(i + 1, end), c) {
            Some(k) => Some(k + 1),
            None => None::<int>,
        },
{
    assert(v.subrange(i, end).drop_first() =~= v.subrange(i + 1, end));
}

/// The first `c` in `v[start..end]`, as a position in `v`.
fn find_char(v: &Vec<char>, start: usize, end: usize, c: char) -> (r: Option<usize>)
    requires
        start <= end <= v@.len(),
    ensures
        r matches Some(p) ==> start <= p < end && first_index(
            v@.subrange(start as int, end as int),
            c,
        ) == Some(p - start),
        r is None ==> first_index(v@.subrange(start as int, end as int), c) is None,
{
    let mut i = start;
    while i < end
        invariant
            start <= i <= end <= v@.len(),
            first_index(v@.subrange(start as int, end as int), c) == match first_index(
                v@.subrange(i as int, end as int),
                c,
            ) {
                Some(k) => Some(k + (i - start)),
                None => None::<int>,
            },
        decreases end - i,
    {
        if v[i] == c {
            assert(first_index(v@.subrange(i as int, end as int), c) == Some(0int));
            return Some(i);
        }
        proof {
            lemma_first_index_step(v@, i as int, end as int, c);
        }
        i = i + 1;
    }
    assert(first_index(v@.subrange(i as int, end as int), c) is None);
    None
}

/// A path literal this library keeps as it is: one rooted at `/`. (Paths are
/// handled in their `/`-separated form throughout.)
pub open spec fn is_absolute_path(p: Seq<char>) -> bool {
    p.len() > 0 && p[0] == '/'
}

/// A relative path appended to `base` with one `/` separator; a path rooted at
/// `/` replaces `base`.
pub open spec fn join_path(base: Seq<char>, rel: Seq<char>) -> Seq<char> {
    if is_absolute_path(rel) {
        rel
    } else if base.len() == 0 {
        rel
    } else if base.last() == '/' {
        base + rel
    } else {
        base + "/"@ + rel
    }
}

pub fn join_path_str(base: &str, rel: &str) -> (r: String)
    ensures
        r@ == join_path(base@, rel@),
{
    if rel.unicode_len() > 0 && rel.get_char(0) == '/' {
        return String::from_str(rel);
    }
    let n = base.unicode_len();
    if n == 0 {
        return String::from_str(rel);
    }
    let mut out = String::from_str(base);
    if base.get_char(n - 1) != '/' {
        out.append("/");
    }
    out.append(rel);
    out
}

/// Each `\` doubled, as a TOML string needs it.
pub open spec fn escape_backslashes(s: Seq<char>) -> Seq<char>
    decreases s.len(),
{
    if s.len() == 0 {
        s
    } else {
        escape_backslashes(s.drop_last()) + if s.last() == '\\' {
            seq!['\\', '\\']
        } else {
            seq![s.last()]
        }
    }
}

fn escape_str(s: &str) -> (r: String)
    ensures
        r@ == escape_backslashes(s@),
{
    let v = chars_of(s);
    let mut out = String::new();
    let mut i: usize = 0;
    while i < v.len()
        invariant
            i <= v@.len(),
            out@ == escape_backslashes(v@.subrange(0, i as int)),
        decreases v@.len() - i,
    {
        let ghost before = out@;
        if v[i] == '\\' {
            push_char(&mut out, '\\');
            push_char(&mut out, '\\');
        } else {
            push_char(&mut out, v[i]);
        }
        assert(v@.subrange(0, i + 1).drop_last() =~= v@.subrange(0, i as int));
        assert(out@ =~= escape_backslashes(v@.subrange(0, i + 1)));
        i = i + 1;
    }
    assert(v@.subrange(0, v@.len() as int) =~= v@);
    out
}

/// How many bytes UTF-8 spends on a character.
pub open spec fn utf8_len(c: char) -> nat {
    if (c as u32) < 0x80 {
        1
    } else if (c as u32) < 0x800 {
        2
    } else if (c as u32) < 0x10000 {
        3
    } else {
        4
    }
}

pub open spec fn utf8_len_seq(s: Seq<char>) -> nat
    decreases s.len(),
{
    if s.len() == 0 {
        0
    } else {
        utf8_len_seq(s.drop_last()) + utf8_len(s.last())
    }
}

pub open spec fn spaces(n: nat) -> Seq<char> {
    Seq::new(n, |i: int| ' ')
}

/// What follows a `path` word, spaces aside, is `=`: the word is a key, not
/// part of a value such as a URL.
pub open spec fn key_then_eq(after_key: Seq<char>) -> bool {
    let t = trim_start_spec(after_key);
    t.len() > 0 && t.len() <= after_key.len() && t[0] == '='
}

/// Rewriting the `path = "…"` entries of `rest`: each relative path literal
/// in turn is replaced by the next of `res`, absolute ones are kept, the
/// space after `=` is kept as that many bytes of spaces. Also the relative
/// literals met, in order.
pub open spec fn rewrite_with(rest: Seq<char>, res: Seq<Seq<char>>) -> (Seq<char>, Seq<Seq<char>>)
    decreases rest.len(),
{
    let found = first_whole_word(rest, "path"@);
    if found is None || !(0 <= found->0 && found->0 + 4 <= rest.len()) {
        (rest, Seq::empty())
    } else {
        let at = found->0;
        let head = rest.subrange(0, at);
        let tail = rest.subrange(at, rest.len() as int);
        let after_key = tail.subrange(4, tail.len() as int);
        let eqo = first_index(after_key, '=');
        if !key_then_eq(after_key) {
            let (r2, l2) = rewrite_with(after_key, res);
            (head + tail.subrange(0, 4) + r2, l2)
        } else if eqo is None || !(0 <= eqo->0 < after_key.len()) {
            (head + tail, Seq::empty())
        } else {
            let eq = eqo->0;
            let keep = tail.subrange(0, 4 + eq + 1);
            let after_eq = after_key.subrange(eq + 1, after_key.len() as int);
            let trimmed = trim_start_spec(after_eq);
            if trimmed.len() == 0 || !(trimmed[0] == '"' || trimmed[0] == '\'') || trimmed.len()
                > after_eq.len() {
                let (r2, l2) = rewrite_with(after_eq, res);
                (head + keep + r2, l2)
            } else {
                let q = trimmed[0];
                let pad = spaces(utf8_len_seq(after_eq.subrange(0, after_eq.len() - trimmed.len())));
                let inner = trimmed.drop_first();
                let co = first_index(inner, q);
                if co is None || !(0 <= co->0 < inner.len()) {
                    (head + tail, Seq::empty())
                } else {
                    let close = co->0;
                    let literal = inner.subrange(0, close);
                    let after = inner.subrange(close + 1, inner.len() as int);
                    if is_absolute_path(literal) {
                        let (r2, l2) = rewrite_with(after, res);
                        (head + keep + pad + seq![q] + literal + seq![q] + r2, l2)
                    } else {
                        let (r2, l2) = rewrite_with(after, res.drop_first());
                        (head + keep + pad + seq![q] + res[0] + seq![q] + r2, seq![literal] + l2)
                    }
                }
            }
        }
    }
}

proof fn lemma_rewrite_literals(rest: Seq<char>, a: Seq<Seq<char>>, b: Seq<Seq<char>>)
    ensures
        rewrite_with(rest, a).1 == rewrite_with(rest, b).1,
    decreases rest.len(),
{
    let found = first_whole_word(rest, "path"@);
    if found is None || !(0 <= found->0 && found->0 + 4 <= rest.len()) {
    } else {
        let at = found->0;
        let tail = rest.subrange(at, rest.len() as int);
        let after_key = tail.subrange(4, tail.len() as int);
        let eqo = first_index(after_key, '=');
        if !key_then_eq(after_key) {
            lemma_rewrite_literals(after_key, a, b);
        } else if eqo is None || !(0 <= eqo->0 < after_key.len()) {
        } else {
            let eq = eqo->0;
            let after_eq = after_key.subrange(eq + 1, after_key.len() as int);
            let trimmed = trim_start_spec(after_eq);
            if trimmed.len() == 0 || !(trimmed[0] == '"' || trimmed[0] == '\'') || trimmed.len()
                > after_eq.len() {
                lemma_rewrite_literals(after_eq, a, b);
            } else {
                let q = trimmed[0];
                let inner = trimmed.drop_first();
                let co = first_index(inner, q);
                if co is None || !(0 <= co->0 < inner.len()) {
                } else {
                    let close = co->0;
                    let literal = inner.subrange(0, close);
                    let after = inner.subrange(close + 1, inner.len() as int);
                    if is_absolute_path(literal) {
                        lemma_rewrite_literals(after, a, b);
                    } else {
                        lemma_rewrite_literals(after, a.drop_first(), b.drop_first());
                    }
                }
            }
        }
    }
}

/// The relative path literals of `path = "…"` entries, in order.
pub open spec fn path_literals_spec(value: Seq<char>) -> Seq<Seq<char>> {
    rewrite_with(value, Seq::empty()).1
}


fn sub_chars(v: &Vec<char>, start: usize, end: usize) -> (r: Vec<char>)
    requires
        start <= end <= v@.len(),
    ensures
        r@ == v@.subrange(start as int, end as int),
{
    let mut out: Vec<char> = Vec::new();
    let mut i = start;
    while i < end
        invariant
            start <= i <= end <= v@.len(),
            out@ == v@.subrange(start as int, i as int),
        decreases end - i,
    {
        out.push(v[i]);
        assert(out@ =~= v@.subrange(start as int, i + 1));
        i = i + 1;
    }
    out
}

fn push_range(out: &mut String, v: &Vec<char>, start: usize, end: usize)
    requires
        start <= end <= v@.len(),
    ensures
        final(out)@ == old(out)@ + v@.subrange(start as int, end as int),
{
    let s = string_of_range(v, start, end);
    out.append(s.as_str());
}

/// Appends as many spaces as `v[start..end]` takes bytes in UTF-8.
fn push_utf8_spaces(out: &mut String, v: &Vec<char>, start: usize, end: usize)
    requires
        start <= end <= v@.len(),
    ensures
        final(out)@ == old(out)@ + spaces(utf8_len_seq(v@.subrange(start as int, end as int))),
{
    let mut i = start;
    while i < end
        invariant
            start <= i <= end <= v@.len(),
            out@ == old(out)@ + spaces(utf8_len_seq(v@.subrange(start as int, i as int))),
        decreases end - i,
    {
        let u = v[i] as u32;
        let n: usize = if u < 0x80 {
            1
        } else if u < 0x800 {
            2
        } else if u < 0x10000 {
            3
        } else {
            4
        };
        let ghost before = out@;
        let mut k: usize = 0;
        while k < n
            invariant
                k <= n <= 4,
                out@ == before + spaces(k as nat),
            decreases n - k,
        {
            push_char(out, ' ');
            assert(out@ =~= before + spaces((k + 1) as nat));
            k = k + 1;
        }
        proof {
            assert(v@.subrange(start as int, i + 1).drop_last() =~= v@.subrange(start as int, i as int));
            assert(n == utf8_len(v@[i as int]));
            let a = utf8_len_seq(v@.subrange(start as int, i as int));
            assert(spaces(a) + spaces(n as nat) =~= spaces(a + (n as nat)));
        }
        i = i + 1;
    }
}

/// One step of the walk over `path = "…"` entries.
pub enum PathStepView {
    /// No further entry: the rest of the text is emitted as is.
    Done(Seq<char>),
    /// An entry without a quoted value: `prefix` is emitted, the walk goes on at `next`.
    Skip(Seq<char>, Seq<char>),
    /// A quoted literal: `prefix`, then the literal between `q` quotes, then `next`.
    Lit(Seq<char>, char, Seq<char>, Seq<char>),
}

/// The step `rewrite_with` takes at `rest`.
pub open spec fn path_step(rest: Seq<char>) -> PathStepView {
    let found = first_whole_word(rest, "path"@);
    if found is None || !(0 <= found->0 && found->0 + 4 <= rest.len()) {
        PathStepView::Done(rest)
    } else {
        let at = found->0;
        let head = rest.subrange(0, at);
        let tail = rest.subrange(at, rest.len() as int);
        let after_key = tail.subrange(4, tail.len() as int);
        let eqo = first_index(after_key, '=');
        if !key_then_eq(after_key) {
            PathStepView::Skip(head + tail.subrange(0, 4), after_key)
        } else if eqo is None || !(0 <= eqo->0 < after_key.len()) {
            PathStepView::Done(head + tail)
        } else {
            let eq = eqo->0;
            let keep = tail.subrange(0, 4 + eq + 1);
            let after_eq = after_key.subrange(eq + 1, after_key.len() as int);
            let trimmed = trim_start_spec(after_eq);
            if trimmed.len() == 0 || !(trimmed[0] == '"' || trimmed[0] == '\'') || trimmed.len()
                > after_eq.len() {
                PathStepView::Skip(head + keep, after_eq)
            } else {
                let q = trimmed[0];
                let pad = spaces(utf8_len_seq(after_eq.subrange(0, after_eq.len() - trimmed.len())));
                let inner = trimmed.drop_first();
                let co = first_index(inner, q);
                if co is None || !(0 <= co->0 < inner.len()) {
                    PathStepView::Done(head + tail)
                } else {
                    let close = co->0;
                    PathStepView::Lit(
                        head + keep + pad,
                        q,
                        inner.subrange(0, close),
                        inner.subrange(close + 1, inner.len() as int),
                    )
                }
            }
        }
    }
}

proof fn lemma_rewrite_step(rest: Seq<char>, res: Seq<Seq<char>>)
    ensures
        rewrite_with(rest, res) == match path_step(rest) {
            PathStepView::Done(t) => (t, Seq::<Seq<char>>::empty()),
            PathStepView::Skip(p, n) => (p + rewrite_with(n, res).0, rewrite_with(n, res).1),
            PathStepView::Lit(p, q, lit, n) => if is_absolute_path(lit) {
                (p + seq![q] + lit + seq![q] + rewrite_with(n, res).0, rewrite_with(n, res).1)
            } else {
                (
                    p + seq![q] + res[0] + seq![q] + rewrite_with(n, res.drop_first()).0,
                    seq![lit] + rewrite_with(n, res.drop_first()).1,
                )
            },
        },
{
}

pub enum PathStep {
    Done(String),
    Skip(String, Vec<char>),
    Lit(String, char, Vec<char>, Vec<char>),
}

impl View for PathStep {
    type V = PathStepView;

    open spec fn view(&self) -> PathStepView {
        match self {
            PathStep::Done(t) => PathStepView::Done(t@),
            PathStep::Skip(p, n) => PathStepView::Skip(p@, n@),
            PathStep::Lit(p, q, l, n) => PathStepView::Lit(p@, *q, l@, n@),
        }
    }
}

fn path_step_exec(rest: &Vec<char>) -> (r: PathStep)
    ensures
        r@ == path_step(rest@),
        r matches PathStep::Skip(_, n) ==> n@.len() < rest@.len(),
        r matches PathStep::Lit(_, _, _, n) ==> n@.len() < rest@.len(),
{
    let ghost r0 = rest@;
    let key = chars_of("path");
    proof {
        reveal_strlit("path");
    }
    let found = first_whole_word_exec(rest, &key);
    proof {
        lemma_first_whole_word(r0, "path"@);
    }
    let at = match found {
        None => {
            let mut out = String::new();
            push_range(&mut out, rest, 0, rest.len());
            assert(r0.subrange(0, r0.len() as int) =~= r0);
            return PathStep::Done(out);
        },
        Some(at) => at,
    };
    let len = rest.len();
    assert(at + 4 <= len);
    let ghost tail = r0.subrange(at as int, len as int);
    let ghost after_key = tail.subrange(4, tail.len() as int);
    assert(after_key =~= r0.subrange(at + 4, len as int));
    let mut out = String::new();
    push_range(&mut out, rest, 0, at);
    let (lk, _hk) = trim_bounds(rest, at + 4, len, None, true, false);
    assert(r0.subrange(lk as int, len as int) == trim_start_spec(after_key));
    if lk == len || rest[lk] != '=' {
        push_range(&mut out, rest, at, at + 4);
        assert(tail.subrange(0, 4) =~= r0.subrange(at as int, at + 4));
        let next = sub_chars(rest, at + 4, len);
        return PathStep::Skip(out, next);
    }
    let eqpos = match find_char(rest, at + 4, len, '=') {
        None => {
            push_range(&mut out, rest, at, len);
            return PathStep::Done(out);
        },
        Some(p) => p,
    };
    let ghost eq = eqpos - (at + 4);
    let ae = eqpos + 1;
    assert(tail.subrange(0, 4 + eq + 1) =~= r0.subrange(at as int, ae as int));
    assert(after_key.subrange(eq + 1, after_key.len() as int) =~= r0.subrange(ae as int, len as int));
    let (lo, _hi) = trim_bounds(rest, ae, len, None, true, false);
    let ghost after_eq = r0.subrange(ae as int, len as int);
    let ghost trimmed = r0.subrange(lo as int, len as int);
    assert(trimmed == trim_start_spec(after_eq));
    if lo == len || !(rest[lo] == '"' || rest[lo] == '\'') {
        push_range(&mut out, rest, at, ae);
        let next = sub_chars(rest, ae, len);
        return PathStep::Skip(out, next);
    }
    let q = rest[lo];
    let ghost inner = trimmed.drop_first();
    assert(inner =~= r0.subrange(lo + 1, len as int));
    let cpos = match find_char(rest, lo + 1, len, q) {
        None => {
            push_range(&mut out, rest, at, len);
            return PathStep::Done(out);
        },
        Some(p) => p,
    };
    let ghost close = cpos - (lo + 1);
    let literal = sub_chars(rest, lo + 1, cpos);
    assert(literal@ =~= inner.subrange(0, close));
    assert(after_eq.subrange(0, after_eq.len() - trimmed.len()) =~= r0.subrange(
        ae as int,
        lo as int,
    ));
    push_range(&mut out, rest, at, ae);
    push_utf8_spaces(&mut out, rest, ae, lo);
    let next = sub_chars(rest, cpos + 1, len);
    assert(inner.subrange(close + 1, inner.len() as int) =~= next@);
    PathStep::Lit(out, q, literal, next)
}

/// Walks `value` as `rewrite_with` does, replacing the relative path literals
/// by `res` (or by themselves when only collecting them).
fn scan_paths(value: &str, res: &Vec<String>, collect_only: bool) -> (r: (String, Vec<String>))
    requires
        !collect_only ==> res@.len() >= rewrite_with(value@, views(res@)).1.len(),
    ensures
        views(r.1@) == rewrite_with(value@, views(res@)).1,
        !collect_only ==> r.0@ == rewrite_with(value@, views(res@)).0,
{
    let ghost rr = views(res@);
    let mut rest = chars_of(value);
    let mut out = String::new();
    let mut lits: Vec<String> = Vec::new();
    let ghost mut tr = rr;
    assert(views(lits@) =~= Seq::<Seq<char>>::empty());
    assert(rr.subrange(0, rr.len() as int) =~= rr);
    loop
        invariant
            rr == views(res@),
            rewrite_with(value@, rr).1 == views(lits@) + rewrite_with(rest@, tr).1,
            !collect_only ==> tr == rr.subrange(lits@.len() as int, rr.len() as int),
            !collect_only ==> rr.len() >= rewrite_with(value@, rr).1.len(),
            !collect_only ==> rewrite_with(value@, rr).0 == out@ + rewrite_with(rest@, tr).0,
        decreases rest@.len(),
    {
        let ghost r0 = rest@;
        let ghost o0 = out@;
        let ghost l0 = views(lits@);
        proof {
            lemma_rewrite_step(r0, tr);
        }
        match path_step_exec(&rest) {
            PathStep::Done(t) => {
                out.append(t.as_str());
                assert(views(lits@) + Seq::<Seq<char>>::empty() =~= views(lits@));
                return (out, lits);
            },
            PathStep::Skip(p, next) => {
                out.append(p.as_str());
                rest = next;
            },
            PathStep::Lit(p, q, literal, next) => {
                out.append(p.as_str());
                push_char(&mut out, q);
                let lit = string_of_range(&literal, 0, literal.len());
                assert(literal@.subrange(0, literal@.len() as int) =~= literal@);
                let absolute = literal.len() > 0 && literal[0] == '/';
                if absolute {
                    out.append(lit.as_str());
                } else {
                    if collect_only {
                        out.append(lit.as_str());
                    } else {
                        let k = lits.len();
                        out.append(res[k].as_str());
                    }
                    let ghost lb = views(lits@);
                    lits.push(lit);
                    assert(views(lits@) =~= lb.push(literal@));
                    proof {
                        tr = tr.drop_first();
                    }
                }
                push_char(&mut out, q);
                proof {
                    if !collect_only {
                        assert(tr =~= rr.subrange(lits@.len() as int, rr.len() as int));
                    }
                }
                rest = next;
            },
        }
    }
}


/// The relative path literals of the `path = "…"` entries of `value`.
pub fn path_literals(value: &str) -> (r: Vec<String>)
    ensures
        views(r@) == path_literals_spec(value@),
{
    let none: Vec<String> = Vec::new();
    assert(views(none@) =~= Seq::<Seq<char>>::empty());
    let (_, lits) = scan_paths(value, &none, true);
    lits
}

/// `value` with its relative path literals replaced, in order, by `resolved`.
pub fn rewrite_paths_with(value: &str, resolved: &Vec<String>) -> (r: String)
    requires
        resolved@.len() == path_literals_spec(value@).len(),
    ensures
        r@ == rewrite_with(value@, views(resolved@)).0,
{
    proof {
        lemma_rewrite_literals(value@, views(resolved@), Seq::empty());
    }
    let (out, _) = scan_paths(value, resolved, false);
    out
}

/// A path rooted at the top of a file system: `/` on Unix, a `\\` prefix
/// (`\\?\C:\..`, as `canonicalize` writes it) on Windows.
pub open spec fn rooted_path(c: Seq<char>) -> bool {
    c.len() > 0 && (c[0] == '/' || c[0] == '\\')
}

/// `Path::canonicalize` of `p`, displayed: `None` where it fails (the path
/// does not exist, say). What it returns rests on the file system; the
/// documentation promises an absolute path, which is rooted as
/// `rooted_path` says on Unix and on Windows. Which path is left unsaid.
#[verifier::external_body]
fn canonical_path(p: &str) -> (r: Option<String>)
    ensures
        r matches Some(c) ==> rooted_path(c@),
{
    match std::path::Path::new(p).canonicalize() {
        Ok(c) => Some(c.display().to_string()),
        Err(_) => None,
    }
}

/// `out` is `raw` with each relative path literal replaced, in order, by a
/// resolved path (the literal joined to `base`, or where the file system says
/// that leads) with backslashes escaped; every other character is kept.
pub open spec fn rewritten(raw: Seq<char>, base: Seq<char>, out: Seq<char>) -> bool {
    exists|res: Seq<Seq<char>>|
        {
            &&& res.len() == path_literals_spec(raw).len()
            &&& out == rewrite_with(raw, res).0
            &&& forall|k: int|
                0 <= k < res.len() ==> #[trigger] resolved_from(
                    res[k],
                    join_path(base, path_literals_spec(raw)[k]),
                )
        }
}

/// `r` is the escaped form of the path that `joined` resolves to: `joined`
/// itself where the file system cannot resolve it, else a rooted path
/// (which one rests on the file system and is not stated).
pub open spec fn resolved_from(r: Seq<char>, joined: Seq<char>) -> bool {
    r == escape_backslashes(joined) || exists|c: Seq<char>| rooted_path(c) && r == escape_backslashes(c)
}

/// Make every `path = "…"` in a dependency value absolute against `base`.
pub fn rewrite_paths(value: &str, base: &str) -> (r: String)
    ensures
        rewritten(value@, base@, r@),
{
    let lits = path_literals(value);
    let mut res: Vec<String> = Vec::new();
    let mut i: usize = 0;
    while i < lits.len()
        invariant
            i <= lits@.len(),
            res@.len() == i,
            views(lits@) == path_literals_spec(value@),
            forall|k: int|
                0 <= k < i ==> #[trigger] resolved_from(
                    res@[k]@,
                    join_path(base@, path_literals_spec(value@)[k]),
                ),
        decreases lits@.len() - i,
    {
        let joined = join_path_str(base, lits[i].as_str());
        let c = match canonical_path(joined.as_str()) {
            Some(c) => c,
            None => joined,
        };
        let e = escape_str(c.as_str());
        assert(resolved_from(e@, join_path(base@, path_literals_spec(value@)[i as int]))) by {
            assert(lits@[i as int]@ == path_literals_spec(value@)[i as int]);
        }
        res.push(e);
        i = i + 1;
    }
    let out = rewrite_paths_with(value, &res);
    assert(forall|k: int| 0 <= k < res@.len() ==> views(res@)[k] == res@[k]@);
    out
}

/// Dependency bodies alike but for their rewritten path literals.
pub open spec fn body_rewritten(raw: DepBodyView, out: DepBodyView, base: Seq<char>) -> bool {
    match (raw, out) {
        (DepBodyView::Inline(a), DepBodyView::Inline(b)) => rewritten(a, base, b),
        (DepBodyView::Table(a), DepBodyView::Table(b)) => a.len() == b.len() && forall|k: int|
            0 <= k < a.len() ==> #[trigger] rewritten(a[k], base, b[k]),
        _ => false,
    }
}

/// `out` is `raw` with the path literals of its dependency values and
/// pass-through lines made absolute against its directory.
pub open spec fn absolutized(raw: ManifestView, out: ManifestView) -> bool {
    &&& out.path == raw.path
    &&& out.dir == raw.dir
    &&& out.name == raw.name
    &&& out.version == raw.version
    &&& out.edition == raw.edition
    &&& out.ignored == raw.ignored
    &&& out.exclude == raw.exclude
    &&& out.dependencies.len() == raw.dependencies.len()
    &&& forall|i: int|
        0 <= i < raw.dependencies.len() ==> (#[trigger] out.dependencies[i]).name
            == raw.dependencies[i].name && body_rewritten(
            raw.dependencies[i].body,
            out.dependencies[i].body,
            raw.dir,
        )
    &&& out.passthrough.len() == raw.passthrough.len()
    &&& forall|i: int|
        0 <= i < raw.passthrough.len() ==> (#[trigger] out.passthrough[i]).header
            == raw.passthrough[i].header && out.passthrough[i].lines.len()
            == raw.passthrough[i].lines.len() && forall|k: int|
            0 <= k < raw.passthrough[i].lines.len() ==> #[trigger] rewritten(
                raw.passthrough[i].lines[k],
                raw.dir,
                out.passthrough[i].lines[k],
            )
}

fn rewrite_lines(lines: &Vec<String>, base: &str) -> (r: Vec<String>)
    ensures
        r@.len() == lines@.len(),
        forall|k: int| 0 <= k < lines@.len() ==> #[trigger] rewritten(lines@[k]@, base@, r@[k]@),
{
    let mut out: Vec<String> = Vec::new();
    let mut i: usize = 0;
    while i < lines.len()
        invariant
            i <= lines@.len(),
            out@.len() == i,
            forall|k: int| 0 <= k < i ==> #[trigger] rewritten(lines@[k]@, base@, out@[k]@),
        decreases lines@.len() - i,
    {
        let r = rewrite_paths(lines[i].as_str(), base);
        out.push(r);
        i = i + 1;
    }
    out
}

impl Manifest {
    /// Dependencies are declared relative to `tinys.toml`, but the generated
    /// `Cargo.toml` lives under `target/`, so `path = "..."` must be absolute.
    pub fn absolutize_paths(&mut self)
        ensures
            absolutized(old(self)@, final(self)@),
    {
        let ghost raw = self@;
        let mut deps: Vec<Dependency> = Vec::new();
        let mut i: usize = 0;
        while i < self.dependencies.len()
            invariant
                self@ == raw,
                i <= raw.dependencies.len(),
                deps@.len() == i,
                forall|j: int|
                    0 <= j < i ==> (#[trigger] deps@[j]@).name == raw.dependencies[j].name
                        && body_rewritten(raw.dependencies[j].body, deps@[j]@.body, raw.dir),
            decreases raw.dependencies.len() - i,
        {
            let d = &self.dependencies[i];
            assert(d@ == raw.dependencies[i as int]);
            let body = match &d.body {
                DepBody::Inline(v) => DepBody::Inline(rewrite_paths(v.as_str(), self.dir.as_str())),
                DepBody::Table(ls) => {
                    let nl = rewrite_lines(ls, self.dir.as_str());
                    DepBody::Table(nl)
                },
            };
            let nd = Dependency { name: d.name.clone(), body };
            proof {
                if d.body is Table {
                    let ls = d.body->Table_0;
                    assert forall|k: int| 0 <= k < views(ls@).len() implies #[trigger] rewritten(
                        views(ls@)[k],
                        raw.dir,
                        nd@.body->Table_0[k],
                    ) by {
                        assert(views(ls@)[k] == ls@[k]@);
                    }
                }
            }
            deps.push(nd);
            i = i + 1;
        }
        let mut pass: Vec<Section> = Vec::new();
        let mut i: usize = 0;
        while i < self.passthrough.len()
            invariant
                self@ == raw,
                i <= raw.passthrough.len(),
                pass@.len() == i,
                forall|j: int|
                    0 <= j < i ==> (#[trigger] pass@[j]@).header == raw.passthrough[j].header
                        && pass@[j]@.lines.len() == raw.passthrough[j].lines.len() && forall|k: int|
                        0 <= k < raw.passthrough[j].lines.len() ==> #[trigger] rewritten(
                            raw.passthrough[j].lines[k],
                            raw.dir,
                            pass@[j]@.lines[k],
                        ),
            decreases raw.passthrough.len() - i,
        {
            let sec = &self.passthrough[i];
            assert(sec@ == raw.passthrough[i as int]);
            let nl = rewrite_lines(&sec.lines, self.dir.as_str());
            let ns = Section { header: sec.header.clone(), lines: nl };
            assert forall|k: int| 0 <= k < raw.passthrough[i as int].lines.len() implies #[trigger] rewritten(
                raw.passthrough[i as int].lines[k],
                raw.dir,
                ns@.lines[k],
            ) by {
                assert(raw.passthrough[i as int].lines[k] == sec.lines@[k]@);
            }
            pass.push(ns);
            i = i + 1;
        }
        self.dependencies = deps;
        self.passthrough = pass;
    }

    /// Reads a manifest from its text: `path` names the file in error
    /// messages, and relative dependency paths are resolved against `dir`.
    pub fn parse(text: &str, path: &str, dir: &str) -> (r: Result<Manifest, String>)
        ensures
            match manifest_spec(text@, path@, dir@) {
                Ok(m) => r matches Ok(x) && absolutized(m, x@),
                Err(e) => r matches Err(x) && x@ == e,
            },
    {
        let mut m = Manifest::parse_raw(text, path, dir)?;
        m.absolutize_paths();
        Ok(m)
    }
}


// ---- finding the manifest -----------------------------------------------------------------

/// What `Path::parent` answers for a path: the path without its final
/// component, or nothing for a root or an empty path.
pub uninterp spec fn std_path_parent(p: Seq<char>) -> Option<Seq<char>>;

/// `Path::parent` of `p`, as text. The result is named by `std_path_parent`;
/// the standard library documents it as `p` without its final component, so
/// it is shorter than `p`. Nothing else about it is stated.
#[verifier::external_body]
fn path_parent(p: &str) -> (r: Option<String>)
    ensures
        opt_view(r) == std_path_parent(p@),
        r matches Some(q) ==> q@.len() < p@.len(),
{
    match std::path::Path::new(p).parent() {
        Some(q) => Some(q.display().to_string()),
        None => None,
    }
}

/// The directories from `d` upwards: `d`, its parent, its parent's parent
/// and so on, at most `fuel` of them (each step shortens the path, so one
/// more than the length of `d` reaches the top).
pub open spec fn ancestors(d: Seq<char>, fuel: nat) -> Seq<Seq<char>>
    decreases fuel,
{
    if fuel == 0 {
        Seq::empty()
    } else {
        seq![d] + match std_path_parent(d) {
            Some(q) => ancestors(q, (fuel - 1) as nat),
            None => Seq::empty(),
        }
    }
}

/// Where a directory's manifest would be.
pub open spec fn manifest_in(d: Seq<char>) -> Seq<char> {
    join_path(d, "tinys.toml"@)
}

/// `is_file` may answer `b` about `path`.
pub open spec fn file_answer<F: Fn(&str) -> bool>(is_file: F, path: Seq<char>, b: bool) -> bool {
    exists|s: &str| s@ == path && #[trigger] is_file.ensures((s,), b)
}

/// `read` may answer `r` about `path`.
pub open spec fn read_answer<R: Fn(&str) -> Result<String, String>>(read: R, path: Seq<char>, r: Result<String, String>) -> bool {
    exists|s: &str| s@ == path && #[trigger] read.ensures((s,), r)
}

/// The directory a manifest file's relative paths are resolved against.
pub open spec fn manifest_dir(path: Seq<char>) -> Seq<char> {
    match std_path_parent(path) {
        Some(d) => d,
        None => "."@,
    }
}

/// `r` is what parsing the manifest text `text` of the file `path` gives.
pub open spec fn parsed_from(text: Seq<char>, path: Seq<char>, r: Result<Manifest, String>) -> bool {
    match manifest_spec(text, path, manifest_dir(path)) {
        Ok(m) => r matches Ok(x) && absolutized(m, x@),
        Err(e) => r matches Err(x) && x@ == e,
    }
}

/// `r` is what reading the file `path` through `read` and parsing it gives:
/// the failure of the read, or the parse of the text read.
pub open spec fn read_and_parsed<R: Fn(&str) -> Result<String, String>>(read: R, path: Seq<char>, r: Result<Manifest, String>) -> bool {
    ||| (r matches Err(e) && read_answer(read, path, Err(e)))
    ||| exists|text: String| read_answer(read, path, Ok(text)) && parsed_from(text@, path, r)
}

impl Manifest {
    /// Reads the manifest file `path` through `read` and parses it, resolving
    /// relative dependency paths against the file's directory.
    pub fn parse_file<R: Fn(&str) -> Result<String, String>>(path: &str, read: R) -> (r: Result<Manifest, String>)
        requires
            forall|s: &str| read.requires((s,)),
        ensures
            read_and_parsed(read, path@, r),
    {
        let text = match read(path) {
            Ok(t) => t,
            Err(e) => {
                assert(read_answer(read, path@, Err(e)));
                return Err(e);
            },
        };
        assert(read_answer(read, path@, Ok(text)));
        let dir = match path_parent(path) {
            Some(d) => d,
            None => String::from_str("."),
        };
        proof {
            reveal_strlit(".");
        }
        let r = Manifest::parse(text.as_str(), path, dir.as_str());
        assert(parsed_from(text@, path@, r));
        r
    }

    /// Looks for the package manifest governing a source file by walking up
    /// from `start`, the file's directory, the way Cargo finds `Cargo.toml`:
    /// the first directory that holds a `tinys.toml` (as `is_file` tells)
    /// has it read and parsed; `None` when no directory up to the top does.
    pub fn discover<F: Fn(&str) -> bool, R: Fn(&str) -> Result<String, String>>(
        start: &str,
        is_file: F,
        read: R,
    ) -> (r: Result<Option<Manifest>, String>)
        requires
            forall|s: &str| is_file.requires((s,)),
            forall|s: &str| read.requires((s,)),
        ensures
            ({
                let dirs = ancestors(start@, (start@.len() + 1) as nat);
                match r {
                    Ok(None) => forall|k: int|
                        0 <= k < dirs.len() ==> #[trigger] file_answer(is_file, manifest_in(dirs[k]), false),
                    Ok(Some(m)) => exists|k: int|
                        0 <= k < dirs.len() && (forall|j: int|
                            0 <= j < k ==> #[trigger] file_answer(is_file, manifest_in(dirs[j]), false))
                            && file_answer(is_file, manifest_in(dirs[k]), true) && read_and_parsed(
                            read,
                            manifest_in(dirs[k]),
                            Ok(m),
                        ),
                    Err(e) => exists|k: int|
                        0 <= k < dirs.len() && (forall|j: int|
                            0 <= j < k ==> #[trigger] file_answer(is_file, manifest_in(dirs[j]), false))
                            && file_answer(is_file, manifest_in(dirs[k]), true) && read_and_parsed(
                            read,
                            manifest_in(dirs[k]),
                            Err(e),
                        ),
                }
            }),
    {
        let ghost all = ancestors(start@, (start@.len() + 1) as nat);
        let ghost mut seen: Seq<Seq<char>> = Seq::empty();
        let mut dir: Option<String> = Some(String::from_str(start));
        let ghost mut fuel: nat = (start@.len() + 1) as nat;
        proof {
            reveal_strlit("tinys.toml");
        }
        loop
            invariant
                forall|s: &str| is_file.requires((s,)),
                forall|s: &str| read.requires((s,)),
                all == ancestors(start@, (start@.len() + 1) as nat),
                all == seen + match dir {
                    Some(d) => ancestors(d@, fuel),
                    None => Seq::<Seq<char>>::empty(),
                },
                dir matches Some(d) ==> d@.len() < fuel,
                forall|j: int| 0 <= j < seen.len() ==> #[trigger] file_answer(is_file, manifest_in(seen[j]), false),
            ensures
                dir is None,
                all == seen,
            decreases fuel,
        {
            match dir {
                None => {
                    assert(all =~= seen);
                    break;
                },
                Some(d) => {
                    let candidate = join_path_str(d.as_str(), "tinys.toml");
                    let here = is_file(candidate.as_str());
                    assert(file_answer(is_file, manifest_in(d@), here));
                    assert(all[seen.len() as int] == d@);
                    if here {
                        let r = Manifest::parse_file(candidate.as_str(), read);
                        return match r {
                            Ok(m) => Ok(Some(m)),
                            Err(e) => Err(e),
                        };
                    }
                    let next = path_parent(d.as_str());
                    proof {
                        let rest = match std_path_parent(d@) {
                            Some(q) => ancestors(q, (fuel - 1) as nat),
                            None => Seq::<Seq<char>>::empty(),
                        };
                        assert(ancestors(d@, fuel) == seq![d@] + rest);
                        assert(all =~= seen.push(d@) + rest);
                        seen = seen.push(d@);
                        fuel = (fuel - 1) as nat;
                    }
                    dir = next;
                },
            }
        }
        Ok(None)
    }
}

// ---- rendering for Cargo ----------------------------------------------------------------

/// Each line followed by a newline.
pub open spec fn lines_block(ls: Seq<Seq<char>>) -> Seq<char>
    decreases ls.len(),
{
    if ls.len() == 0 {
        Seq::<char>::empty()
    } else {
        lines_block(ls.drop_last()) + ls.last() + "\n"@
    }
}

/// `name = value` lines of the first `n` dependencies that are kept and inline.
pub open spec fn inline_entries(ds: Seq<DependencyView>, keep: Seq<bool>, n: int) -> Seq<char>
    decreases n,
{
    if n <= 0 {
        Seq::<char>::empty()
    } else {
        inline_entries(ds, keep, n - 1) + if keep[n - 1] && ds[n - 1].body is Inline {
            ds[n - 1].name + " = "@ + ds[n - 1].body->Inline_0 + "\n"@
        } else {
            Seq::<char>::empty()
        }
    }
}

/// `[dependencies.<name>]` tables of the first `n` dependencies that are kept
/// and tables.
pub open spec fn table_blocks(ds: Seq<DependencyView>, keep: Seq<bool>, n: int) -> Seq<char>
    decreases n,
{
    if n <= 0 {
        Seq::<char>::empty()
    } else {
        table_blocks(ds, keep, n - 1) + if keep[n - 1] && ds[n - 1].body is Table {
            "\n[dependencies."@ + ds[n - 1].name + "]\n"@ + lines_block(ds[n - 1].body->Table_0)
        } else {
            Seq::<char>::empty()
        }
    }
}

pub open spec fn section_blocks(ps: Seq<SectionView>) -> Seq<char>
    decreases ps.len(),
{
    if ps.len() == 0 {
        Seq::<char>::empty()
    } else {
        section_blocks(ps.drop_last()) + "\n["@ + ps.last().header + "]\n"@ + lines_block(
            ps.last().lines,
        )
    }
}

/// The `Cargo.toml` tables for the dependencies `keep` marks and the
/// pass-through sections: inline dependencies under one `[dependencies]`,
/// then each table dependency, then each pass-through section.
pub open spec fn cargo_sections_spec(m: ManifestView, keep: Seq<bool>) -> Seq<char> {
    let n = m.dependencies.len() as int;
    (if exists|i: int| 0 <= i < n && keep[i] && m.dependencies[i].body is Inline {
        "\n[dependencies]\n"@ + inline_entries(m.dependencies, keep, n)
    } else {
        Seq::<char>::empty()
    }) + table_blocks(m.dependencies, keep, n) + section_blocks(m.passthrough)
}

fn push_lines(out: &mut String, ls: &Vec<String>)
    ensures
        final(out)@ == old(out)@ + lines_block(views(ls@)),
{
    let mut i: usize = 0;
    while i < ls.len()
        invariant
            i <= ls@.len(),
            out@ == old(out)@ + lines_block(views(ls@.subrange(0, i as int))),
        decreases ls@.len() - i,
    {
        out.append(ls[i].as_str());
        out.append("\n");
        assert(views(ls@.subrange(0, i + 1)).drop_last() =~= views(ls@.subrange(0, i as int)));
        i = i + 1;
    }
    assert(ls@.subrange(0, ls@.len() as int) =~= ls@);
}

/// `keep` may answer `b` when asked about a name spelled `name`.
pub open spec fn answered<F: Fn(&str) -> bool>(keep: F, name: Seq<char>, b: bool) -> bool {
    exists|s: &str| s@ == name && #[trigger] keep.ensures((s,), b)
}

impl Manifest {
    /// Render the dependency and passthrough tables for a generated
    /// `Cargo.toml`, keeping the dependencies whose flag in `keep` is set.
    pub fn cargo_sections_with(&self, keep: &Vec<bool>) -> (r: String)
        requires
            keep@.len() == self.dependencies@.len(),
        ensures
            r@ == cargo_sections_spec(self@, keep@),
    {
        let ghost ds = self@.dependencies;
        let n = self.dependencies.len();
        let mut any_inline = false;
        let mut entries = String::new();
        let mut i: usize = 0;
        while i < n
            invariant
                n == ds.len(),
                ds == self@.dependencies,
                keep@.len() == n,
                i <= n,
                entries@ == inline_entries(ds, keep@, i as int),
                any_inline == exists|j: int| 0 <= j < i && keep@[j] && ds[j].body is Inline,
            decreases n - i,
        {
            let d = &self.dependencies[i];
            assert(d@ == ds[i as int]);
            if keep[i] {
                match &d.body {
                    DepBody::Inline(value) => {
                        any_inline = true;
                        entries.append(d.name.as_str());
                        entries.append(" = ");
                        entries.append(value.as_str());
                        entries.append("\n");
                    },
                    _ => {},
                }
            }
            i = i + 1;
        }
        let mut out = String::new();
        if any_inline {
            out.append("\n[dependencies]\n");
            out.append(entries.as_str());
        }
        let ghost head = out@;
        let mut i: usize = 0;
        while i < n
            invariant
                n == ds.len(),
                ds == self@.dependencies,
                keep@.len() == n,
                i <= n,
                out@ == head + table_blocks(ds, keep@, i as int),
            decreases n - i,
        {
            let d = &self.dependencies[i];
            assert(d@ == ds[i as int]);
            if keep[i] {
                match &d.body {
                    DepBody::Table(lines) => {
                        out.append("\n[dependencies.");
                        out.append(d.name.as_str());
                        out.append("]\n");
                        push_lines(&mut out, lines);
                    },
                    _ => {},
                }
            }
            i = i + 1;
        }
        let ghost mid = out@;
        let mut i: usize = 0;
        while i < self.passthrough.len()
            invariant
                i <= self@.passthrough.len(),
                out@ == mid + section_blocks(self@.passthrough.subrange(0, i as int)),
            decreases self@.passthrough.len() - i,
        {
            let s = &self.passthrough[i];
            assert(s@ == self@.passthrough[i as int]);
            out.append("\n[");
            out.append(s.header.as_str());
            out.append("]\n");
            push_lines(&mut out, &s.lines);
            assert(self@.passthrough.subrange(0, i + 1).drop_last() =~= self@.passthrough.subrange(
                0,
                i as int,
            ));
            i = i + 1;
        }
        assert(self@.passthrough.subrange(0, self@.passthrough.len() as int) =~= self@.passthrough);
        out
    }

    /// Render the dependency and passthrough tables for a generated
    /// `Cargo.toml`, keeping only the dependencies `keep` accepts (asked once
    /// each, in order).
    pub fn cargo_sections(&self, keep: impl Fn(&str) -> bool) -> (r: String)
        requires
            forall|s: &str| keep.requires((s,)),
        ensures
            exists|flags: Seq<bool>|
                {
                    &&& flags.len() == self@.dependencies.len()
                    &&& forall|i: int|
                        0 <= i < flags.len() ==> #[trigger] answered(
                            keep,
                            self@.dependencies[i].name,
                            flags[i],
                        )
                    &&& r@ == cargo_sections_spec(self@, flags)
                },
    {
        let mut flags: Vec<bool> = Vec::new();
        let mut i: usize = 0;
        while i < self.dependencies.len()
            invariant
                i <= self.dependencies@.len(),
                flags@.len() == i,
                forall|s: &str| keep.requires((s,)),
                forall|j: int|
                    0 <= j < i ==> #[trigger] answered(keep, self@.dependencies[j].name, flags@[j]),
            decreases self.dependencies@.len() - i,
        {
            let name = self.dependencies[i].name.as_str();
            let b = keep(name);
            assert(self.dependencies@[i as int]@.name == name@);
            flags.push(b);
            i = i + 1;
        }
        self.cargo_sections_with(&flags)
    }
}

} // verus!
