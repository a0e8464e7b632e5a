//! Multi-file module discovery.
//!
//! TinyS has no `mod` keyword. A package's module tree is derived entirely from
//! the files under `src/`, and the compiler writes the `mod` declarations:
//!
//! ```text
//! src/app.sn              the file you build — the crate root
//! src/models.sn           → crate::models
//! src/models_test.sn      → crate::models_test, declared #[cfg(test)]
//! src/services/mod.sn     → crate::services
//! src/services/db.sn      → crate::services::db
//! ```
//!
//! Discovery is on only when the package has a `src/` directory *and* the file
//! being built lives inside it. Anything else is a single-file program, which is
//! how the flat `examples/` directory keeps working.
//!
//! Reading directories and files is the caller's part; this module decides
//! what a directory listing declares, where each generated file goes, and how
//! the result is rendered.

use vstd::prelude::*;
use crate::ast::program_wf;
use crate::ast::Program;
use crate::codegen::{generate_module, module_rust, ChildModule};
use crate::diagnostics::{Stage, TinysError};
use crate::lexer::{lex_spec, span_at, tokens_view, Lexer, Token, MAX_SOURCE_CHARS};
use crate::manifest::{crate_ident, first_index, join_path, join_path_str, lemma_found_iff_whole_word, lemma_whole_word_split, references_crate_spec, starts_with, utf8_len_seq, views};
use crate::parser::{compiled_from, program_at, Parser};
use crate::text::{occurs_at, is_char, trim_end_by, chars_of, is_ascii_alnum, is_digit, push_char, str_eq, string_of_range};

verus! {

broadcast use vstd::std_specs::control_flow::group_control_flow_axioms;

/// One module in the derived tree.
#[derive(Debug)]
pub struct Module {
    /// The Rust identifier this module is declared as.
    pub name: String,
    /// `<name>.sn`, or a directory's `mod.sn`. `None` for a directory that has
    /// no `mod.sn` — the module exists only to hold its children.
    pub source: Option<String>,
    /// Named `*_test.sn`, so the declaration is `#[cfg(test)]`.
    pub is_test: bool,
    pub children: Vec<Module>,
}

/// A generated Rust file, positioned relative to the scratch package's `src/`.
#[derive(Debug, Clone)]
pub struct GeneratedFile {
    /// e.g. `main.rs`, `models.rs`, `services/mod.rs`.
    pub path: String,
    /// The `.sn` file it came from, if any.
    pub source: Option<String>,
    pub rust: String,
}

/// Every Rust file backing one `tinys build`, crate root first.
#[derive(Debug, Clone)]
pub struct Sources {
    pub files: Vec<GeneratedFile>,
}

pub open spec fn rusts(fs: Seq<GeneratedFile>) -> Seq<Seq<char>> {
    fs.map_values(|f: GeneratedFile| f.rust@)
}

/// `s` joined by `sep`.
pub open spec fn join(parts: Seq<Seq<char>>, sep: Seq<char>) -> Seq<char>
    decreases parts.len(),
{
    if parts.len() == 0 {
        Seq::<char>::empty()
    } else if parts.len() == 1 {
        parts[0]
    } else {
        join(parts.drop_last(), sep) + sep + parts.last()
    }
}

/// Searching the texts `parts`, joined by newlines, for a crate finds it
/// exactly when one of them names it.
proof fn lemma_search_joined(parts: Seq<Seq<char>>, dep: Seq<char>)
    requires
        !crate_ident(dep).contains('\n'),
    ensures
        references_crate_spec(join(parts, "\n"@), dep) <==> exists|i: int|
            0 <= i < parts.len() && #[trigger] references_crate_spec(parts[i], dep),
    decreases parts.len(),
{
    let w = crate_ident(dep);
    lemma_found_iff_whole_word(join(parts, "\n"@), w);
    if parts.len() == 0 {
        assert(join(parts, "\n"@) =~= Seq::<char>::empty());
        lemma_found_iff_whole_word(Seq::<char>::empty(), w);
    } else if parts.len() == 1 {
        assert(join(parts, "\n"@) == parts[0]);
    } else {
        let init = parts.drop_last();
        lemma_search_joined(init, dep);
        reveal_strlit("\n");
        assert(join(parts, "\n"@) == join(init, "\n"@) + seq!['\n'] + parts.last());
        lemma_whole_word_split(join(init, "\n"@), parts.last(), '\n', w);
        lemma_found_iff_whole_word(join(init, "\n"@), w);
        lemma_found_iff_whole_word(parts.last(), w);
        if exists|i: int| 0 <= i < parts.len() && #[trigger] references_crate_spec(parts[i], dep) {
            let i = choose|i: int| 0 <= i < parts.len() && #[trigger] references_crate_spec(parts[i], dep);
            if i < parts.len() - 1 {
                assert(init[i] == parts[i]);
            }
        }
        if references_crate_spec(join(init, "\n"@), dep) {
            let i = choose|i: int| 0 <= i < init.len() && #[trigger] references_crate_spec(init[i], dep);
            assert(parts[i] == init[i]);
        }
        if references_crate_spec(parts.last(), dep) {
            assert(references_crate_spec(parts[parts.len() - 1], dep));
        }
    }
}

/// Searching the joined Rust of a package for a crate (as `cargo_toml` does)
/// finds it exactly when one of its files names it, for a crate name made of
/// ASCII letters, digits, `-` and `_`.
pub proof fn law_all_rust_search(files: Seq<GeneratedFile>, dep: Seq<char>)
    requires
        forall|i: int| 0 <= i < dep.len() ==> is_ascii_alnum(#[trigger] dep[i]) || dep[i] == '-' || dep[i] == '_',
    ensures
        references_crate_spec(join(rusts(files), "\n"@), dep) <==> exists|i: int|
            0 <= i < files.len() && #[trigger] references_crate_spec(files[i].rust@, dep),
{
    let w = crate_ident(dep);
    assert(!w.contains('\n')) by {
        if w.contains('\n') {
            let k = choose|k: int| 0 <= k < w.len() && w[k] == '\n';
            assert(is_ascii_alnum(dep[k]) || dep[k] == '-' || dep[k] == '_');
        }
    }
    lemma_search_joined(rusts(files), dep);
    if exists|i: int| 0 <= i < files.len() && #[trigger] references_crate_spec(files[i].rust@, dep) {
        let i = choose|i: int| 0 <= i < files.len() && #[trigger] references_crate_spec(files[i].rust@, dep);
        assert(rusts(files)[i] == files[i].rust@);
    }
    if references_crate_spec(join(rusts(files), "\n"@), dep) {
        let i = choose|i: int| 0 <= i < rusts(files).len() && #[trigger] references_crate_spec(rusts(files)[i], dep);
        assert(rusts(files)[i] == files[i].rust@);
    }
}

/// How `tinys emit-rust` shows one file of a package.
pub open spec fn file_block(f: GeneratedFile) -> Seq<char> {
    "// ---- "@ + f.path@ + " "@ + match f.source {
        Some(s) => "(from "@ + s@ + ") "@,
        None => Seq::<char>::empty(),
    } + "----\n\n"@ + f.rust@ + "\n"@
}

pub open spec fn file_blocks(fs: Seq<GeneratedFile>) -> Seq<char>
    decreases fs.len(),
{
    if fs.len() == 0 {
        Seq::<char>::empty()
    } else {
        file_blocks(fs.drop_last()) + file_block(fs.last())
    }
}

impl Sources {
    /// All generated Rust concatenated — used to decide which declared crates a
    /// program actually references.
    pub fn all_rust(&self) -> (r: String)
        ensures
            r@ == join(rusts(self.files@), "\n"@),
    {
        let mut out = String::new();
        let mut i: usize = 0;
        while i < self.files.len()
            invariant
                i <= self.files@.len(),
                out@ == join(rusts(self.files@.subrange(0, i as int)), "\n"@),
            decreases self.files@.len() - i,
        {
            if i > 0 {
                out.append("\n");
            }
            out.append(self.files[i].rust.as_str());
            proof {
                let p = self.files@.subrange(0, i + 1);
                assert(rusts(p).drop_last() =~= rusts(self.files@.subrange(0, i as int)));
                if i == 0 {
                    assert(rusts(p) =~= seq![self.files@[0].rust@]);
                }
            }
            i = i + 1;
        }
        assert(self.files@.subrange(0, self.files@.len() as int) =~= self.files@);
        out
    }

    /// Render for `tinys emit-rust`. A single-file program prints exactly its
    /// own Rust; a package labels each generated file.
    pub fn render(&self) -> (r: String)
        ensures
            r@ == if self.files@.len() == 1 {
                self.files@[0].rust@
            } else {
                file_blocks(self.files@)
            },
    {
        if self.files.len() == 1 {
            return self.files[0].rust.clone();
        }
        let mut out = String::new();
        let mut i: usize = 0;
        while i < self.files.len()
            invariant
                i <= self.files@.len(),
                out@ == file_blocks(self.files@.subrange(0, i as int)),
            decreases self.files@.len() - i,
        {
            let file = &self.files[i];
            let ghost before = out@;
            out.append("// ---- ");
            out.append(file.path.as_str());
            out.append(" ");
            match &file.source {
                Some(src) => {
                    out.append("(from ");
                    out.append(src.as_str());
                    out.append(") ");
                },
                None => {},
            }
            out.append("----\n\n");
            out.append(file.rust.as_str());
            out.append("\n");
            assert(self.files@.subrange(0, i + 1).drop_last() =~= self.files@.subrange(0, i as int));
            assert(out@ =~= before + file_block(self.files@[i as int]));
            i = i + 1;
        }
        assert(self.files@.subrange(0, self.files@.len() as int) =~= self.files@);
        out
    }
}

/// The declaration a module gets in its parent.
pub fn child_module(m: &Module) -> (c: ChildModule)
    ensures
        c.name@ == m.name@,
        c.cfg_test == m.is_test,
{
    ChildModule { name: m.name.clone(), cfg_test: m.is_test }
}

/// The declarations of `ms`, in order.
pub fn child_modules(ms: &Vec<Module>) -> (r: Vec<ChildModule>)
    ensures
        r@.len() == ms@.len(),
        forall|i: int|
            0 <= i < ms@.len() ==> (#[trigger] r@[i]).name@ == ms@[i].name@ && r@[i].cfg_test
                == ms@[i].is_test,
{
    let mut out: Vec<ChildModule> = Vec::new();
    let mut i: usize = 0;
    while i < ms.len()
        invariant
            i <= ms@.len(),
            out@.len() == i,
            forall|j: int|
                0 <= j < i ==> (#[trigger] out@[j]).name@ == ms@[j].name@ && out@[j].cfg_test
                    == ms@[j].is_test,
        decreases ms@.len() - i,
    {
        out.push(child_module(&ms[i]));
        i = i + 1;
    }
    out
}

// ---- names ------------------------------------------------------------------------

/// A file stem as a Rust identifier: each character that is not an ASCII
/// letter or digit becomes `_`, and a leading digit gets a `_` before it.
pub open spec fn module_name_spec(stem: Seq<char>) -> Seq<char> {
    let m = stem.map_values(|c: char| if is_ascii_alnum(c) { c } else { '_' });
    if m.len() > 0 && is_digit(m[0]) {
        seq!['_'] + m
    } else {
        m
    }
}

/// File stems become Rust identifiers.
pub fn module_name(stem: &str) -> (r: String)
    ensures
        r@ == module_name_spec(stem@),
{
    let cs = chars_of(stem);
    let ghost f = |c: char| if is_ascii_alnum(c) { c } else { '_' };
    let mut mapped: Vec<char> = Vec::new();
    let mut i: usize = 0;
    while i < cs.len()
        invariant
            i <= cs@.len(),
            f == (|c: char| if is_ascii_alnum(c) { c } else { '_' }),
            mapped@ == cs@.subrange(0, i as int).map_values(f),
        decreases cs@.len() - i,
    {
        let c = cs[i];
        let alnum = ('a' <= c && c <= 'z') || ('A' <= c && c <= 'Z') || ('0' <= c && c <= '9');
        mapped.push(if alnum { c } else { '_' });
        assert(cs@.subrange(0, i + 1).map_values(f) =~= cs@.subrange(0, i as int).map_values(f).push(
            f(cs@[i as int]),
        ));
        i = i + 1;
    }
    assert(cs@.subrange(0, cs@.len() as int) =~= cs@);
    let mut out = String::new();
    if mapped.len() > 0 && '0' <= mapped[0] && mapped[0] <= '9' {
        push_char(&mut out, '_');
    }
    let rest = string_of_range(&mapped, 0, mapped.len());
    assert(mapped@.subrange(0, mapped@.len() as int) =~= mapped@);
    out.append(rest.as_str());
    out
}


// ---- exclusion patterns --------------------------------------------------------------

/// Glob with a `*` wildcard that does not cross `/`: the text must start with
/// what precedes the first `*`, be at least as long in bytes as the rest of
/// the pattern, and some split after at most the next `/`-free stretch must
/// match the rest of the pattern.
pub open spec fn glob(pattern: Seq<char>, text: Seq<char>) -> bool
    decreases pattern.len(), 0int,
{
    match first_index(pattern, '*') {
        None => pattern == text,
        Some(k) => if !(0 <= k < pattern.len()) {
            false
        } else {
            let head = pattern.subrange(0, k);
            let tail = pattern.subrange(k + 1, pattern.len() as int);
            if !starts_with(text, head) || utf8_len_seq(text) < utf8_len_seq(head) + utf8_len_seq(
                tail,
            ) {
                false
            } else {
                let rest = text.subrange(head.len() as int, text.len() as int);
                glob_split(
                    tail,
                    rest,
                    0,
                    match first_index(rest, '/') {
                        Some(s) => s,
                        None => rest.len() as int,
                    },
                )
            }
        },
    }
}

/// `tail` matches `rest` from some position in `i..=stop`.
pub open spec fn glob_split(tail: Seq<char>, rest: Seq<char>, i: int, stop: int) -> bool
    decreases tail.len(), stop - i + 1,
{
    if i < 0 || i > stop || stop > rest.len() {
        false
    } else {
        glob(tail, rest.subrange(i, rest.len() as int)) || glob_split(tail, rest, i + 1, stop)
    }
}

/// What `glob` says, stated directly: with no `*` the pattern is the text;
/// else the text starts with what precedes the first `*`, is at least as
/// long in bytes as the pattern without that `*`, and after that head a
/// stretch without `/` is followed by text that the rest of the pattern
/// matches.
pub open spec fn glob_stated(pattern: Seq<char>, text: Seq<char>) -> bool {
    match first_index(pattern, '*') {
        None => pattern == text,
        Some(k) => {
            let head = pattern.subrange(0, k);
            let tail = pattern.subrange(k + 1, pattern.len() as int);
            let rest = text.subrange(head.len() as int, text.len() as int);
            &&& starts_with(text, head)
            &&& utf8_len_seq(text) >= utf8_len_seq(head) + utf8_len_seq(tail)
            &&& exists|j: int| 0 <= j <= rest.len() && !rest.subrange(0, j).contains('/')
                && #[trigger] glob(tail, rest.subrange(j, rest.len() as int))
        }
    }
}

proof fn lemma_glob_split_some(tail: Seq<char>, rest: Seq<char>, i: int, stop: int)
    requires
        0 <= i,
        stop <= rest.len(),
    ensures
        glob_split(tail, rest, i, stop) <==> exists|j: int| i <= j <= stop
            && #[trigger] glob(tail, rest.subrange(j, rest.len() as int)),
    decreases stop - i + 1,
{
    if i <= stop {
        lemma_glob_split_some(tail, rest, i + 1, stop);
        assert(glob_split(tail, rest, i, stop) == (glob(tail, rest.subrange(i, rest.len() as int))
            || glob_split(tail, rest, i + 1, stop)));
        if glob_split(tail, rest, i, stop) {
            if glob(tail, rest.subrange(i, rest.len() as int)) {
                assert(i <= i <= stop);
            } else {
                let j = choose|j: int| i + 1 <= j <= stop && #[trigger] glob(tail, rest.subrange(j, rest.len() as int));
                assert(i <= j <= stop);
            }
        }
        if exists|j: int| i <= j <= stop && #[trigger] glob(tail, rest.subrange(j, rest.len() as int)) {
            let j = choose|j: int| i <= j <= stop && #[trigger] glob(tail, rest.subrange(j, rest.len() as int));
            if j > i {
                assert(i + 1 <= j <= stop && glob(tail, rest.subrange(j, rest.len() as int)));
            }
        }
    }
}

/// `glob` is what `glob_stated` says.
pub proof fn lemma_glob_stated(pattern: Seq<char>, text: Seq<char>)
    ensures
        glob(pattern, text) == glob_stated(pattern, text),
{
    lemma_first_index(pattern, '*');
    if first_index(pattern, '*') is Some {
        let k = first_index(pattern, '*')->Some_0;
        let head = pattern.subrange(0, k);
        let tail = pattern.subrange(k + 1, pattern.len() as int);
        if starts_with(text, head) {
            let rest = text.subrange(head.len() as int, text.len() as int);
            let stop = match first_index(rest, '/') {
                Some(x) => x,
                None => rest.len() as int,
            };
            lemma_first_index(rest, '/');
            lemma_glob_split_some(tail, rest, 0, stop);
            assert forall|j: int| 0 <= j <= rest.len() implies (j <= stop <==> !rest.subrange(0, j).contains('/')) by {
                if j <= stop {
                    if rest.subrange(0, j).contains('/') {
                        let x = choose|x: int| 0 <= x < j && rest.subrange(0, j)[x] == '/';
                        assert(rest[x] == '/');
                    }
                } else {
                    assert(rest.subrange(0, j)[stop] == '/');
                }
            }
            if glob_split(tail, rest, 0, stop) {
                let j = choose|j: int| 0 <= j <= stop && #[trigger] glob(tail, rest.subrange(j, rest.len() as int));
                assert(0 <= j <= rest.len() && !rest.subrange(0, j).contains('/'));
            }
            if exists|j: int| 0 <= j <= rest.len() && !rest.subrange(0, j).contains('/')
                && #[trigger] glob(tail, rest.subrange(j, rest.len() as int)) {
                let j = choose|j: int| 0 <= j <= rest.len() && !rest.subrange(0, j).contains('/')
                    && #[trigger] glob(tail, rest.subrange(j, rest.len() as int));
                assert(0 <= j <= stop);
            }
        }
    }
}

fn find_in(v: &Vec<char>, start: usize, c: char) -> (r: Option<usize>)
    requires
        start <= v@.len(),
    ensures
        r matches Some(p) ==> start <= p < v@.len() && first_index(
            v@.subrange(start as int, v@.len() as int),
            c,
        ) == Some(p - start),
        r is None ==> first_index(v@.subrange(start as int, v@.len() as int), c) is None,
{
    let mut i = start;
    while i < v.len()
        invariant
            start <= i <= v@.len(),
            first_index(v@.subrange(start as int, v@.len() as int), c) == match first_index(
                v@.subrange(i as int, v@.len() as int),
                c,
            ) {
                Some(k) => Some(k + (i - start)),
                None => None::<int>,
            },
        decreases v@.len() - i,
    {
        if v[i] == c {
            assert(first_index(v@.subrange(i as int, v@.len() as int), c) == Some(0int));
            return Some(i);
        }
        assert(v@.subrange(i as int, v@.len() as int).drop_first() =~= v@.subrange(i + 1, v@.len() as int));
        i = i + 1;
    }
    assert(first_index(v@.subrange(i as int, v@.len() as int), c) is None);
    None
}

/// How many bytes `v[start..end]` takes in UTF-8.
fn utf8_bytes(v: &Vec<char>, start: usize, end: usize) -> (r: u128)
    requires
        start <= end <= v@.len(),
    ensures
        r == utf8_len_seq(v@.subrange(start as int, end as int)),
        r <= 4 * (end - start),
{
    let mut total: u128 = 0;
    let mut i = start;
    while i < end
        invariant
            start <= i <= end <= v@.len(),
            total == utf8_len_seq(v@.subrange(start as int, i as int)),
            total <= 4 * (i - start),
        decreases end - i,
    {
        let u = v[i] as u32;
        let n: u128 = if u < 0x80 {
            1
        } else if u < 0x800 {
            2
        } else if u < 0x10000 {
            3
        } else {
            4
        };
        assert(v@.subrange(start as int, i + 1).drop_last() =~= v@.subrange(start as int, i as int));
        total = total + n;
        i = i + 1;
    }
    total
}

proof fn lemma_utf8_len_append(a: Seq<char>, b: Seq<char>)
    ensures
        utf8_len_seq(a + b) == utf8_len_seq(a) + utf8_len_seq(b),
    decreases b.len(),
{
    if b.len() == 0 {
        assert(a + b =~= a);
    } else {
        lemma_utf8_len_append(a, b.drop_last());
        assert((a + b).drop_last() =~= a + b.drop_last());
    }
}

/// Glob with a single `*` wildcard that does not cross `/`.
pub fn glob_match(pattern: &str, text: &str) -> (r: bool)
    ensures
        r == glob(pattern@, text@),
    decreases pattern@.len(),
{
    let p = chars_of(pattern);
    let t = chars_of(text);
    assert(p@.subrange(0, p@.len() as int) =~= p@);
    let k = match find_in(&p, 0, '*') {
        None => return str_eq(pattern, text),
        Some(k) => k,
    };
    let pl = p.len();
    assert(k < pl);
    let head = string_of_range(&p, 0, k);
    let tail = string_of_range(&p, k + 1, pl);
    let hv = chars_of(head.as_str());
    let tv = chars_of(tail.as_str());
    if !(hv.len() <= t.len() && crate::text::occurs_at_exec(&t, &hv, 0)) {
        return false;
    }
    assert(t@.subrange(0, hv@.len() as int) == head@);
    let hl = hv.len();
    let text_bytes = utf8_bytes(&t, 0, t.len());
    let head_bytes = utf8_bytes(&hv, 0, hv.len());
    let tail_bytes = utf8_bytes(&tv, 0, tv.len());
    proof {
        assert(t@.subrange(0, t@.len() as int) =~= t@);
        assert(hv@.subrange(0, hv@.len() as int) =~= hv@);
        assert(tv@.subrange(0, tv@.len() as int) =~= tv@);
    }
    if text_bytes < head_bytes + tail_bytes {
        return false;
    }
    let rest = string_of_range(&t, hl, t.len());
    let rv = chars_of(rest.as_str());
    assert(rv@.subrange(0, rv@.len() as int) =~= rv@);
    let stop = match find_in(&rv, 0, '/') {
        Some(s) => s,
        None => rv.len(),
    };
    let ghost tl = tail@;
    let ghost restv = rv@;
    proof {
        assert(restv =~= text@.subrange(head@.len() as int, text@.len() as int));
        assert(first_index(pattern@, '*') == Some(k as int));
        assert(head@ == pattern@.subrange(0, k as int));
        assert(tail@ == pattern@.subrange(k + 1, pattern@.len() as int));
        assert(starts_with(text@, head@));
        assert(utf8_len_seq(text@) >= utf8_len_seq(head@) + utf8_len_seq(tail@));
        assert(stop == match first_index(restv, '/') {
            Some(s) => s,
            None => restv.len() as int,
        });
    }
    let mut i: usize = 0;
    loop
        invariant
            i <= stop,
            stop <= rv@.len(),
            tl == tail@,
            restv == rv@,
            tail@.len() < pattern@.len(),
            glob(pattern@, text@) == glob_split(tl, restv, i as int, stop as int),
        decreases stop - i,
    {
        let suffix = string_of_range(&rv, i, rv.len());
        if glob_match(tail.as_str(), suffix.as_str()) {
            return true;
        }
        if i == stop {
            assert(!glob_split(tl, restv, i + 1, stop as int));
            return false;
        }
        i = i + 1;
    }
}



/// `rel` with `\` separators spelled `/`.
pub open spec fn slash_path(rel: Seq<char>) -> Seq<char> {
    rel.map_values(|c: char| if c == '\\' { '/' } else { c })
}

/// `pattern` (without trailing `/`) matches `path` or names a directory above it.
pub open spec fn excluded_by(path: Seq<char>, pattern: Seq<char>) -> bool {
    let p = trim_end_by(pattern, is_char('/'));
    glob(p, path) || starts_with(path, p + "/"@)
}

pub open spec fn is_excluded_spec(rel: Seq<char>, exclude: Seq<Seq<char>>) -> bool {
    exists|i: int| 0 <= i < exclude.len() && #[trigger] excluded_by(slash_path(rel), exclude[i])
}

/// Match a path against `exclude` from `tinys.toml`. Patterns are relative to
/// `src/`; `*` matches within one path segment, and naming a directory excludes
/// everything under it.
pub fn is_excluded(rel: &str, exclude: &[String]) -> (r: bool)
    ensures
        r == is_excluded_spec(rel@, exclude@.map_values(|s: String| s@)),
{
    let rc = chars_of(rel);
    let mut path = String::new();
    let mut i: usize = 0;
    while i < rc.len()
        invariant
            i <= rc@.len(),
            path@ == slash_path(rc@.subrange(0, i as int)),
        decreases rc@.len() - i,
    {
        let c = if rc[i] == '\\' {
            '/'
        } else {
            rc[i]
        };
        push_char(&mut path, c);
        assert(slash_path(rc@.subrange(0, i + 1)) =~= slash_path(rc@.subrange(0, i as int)).push(c));
        i = i + 1;
    }
    assert(rc@.subrange(0, rc@.len() as int) =~= rc@);
    let ghost ex = exclude@.map_values(|s: String| s@);
    let mut k: usize = 0;
    while k < exclude.len()
        invariant
            k <= exclude@.len(),
            ex == exclude@.map_values(|s: String| s@),
            path@ == slash_path(rel@),
            forall|j: int| 0 <= j < k ==> !#[trigger] excluded_by(slash_path(rel@), ex[j]),
        decreases exclude@.len() - k,
    {
        let pc = chars_of(exclude[k].as_str());
        assert(pc@.subrange(0, pc@.len() as int) =~= pc@);
        let (lo, hi) = crate::text::trim_bounds(&pc, 0, pc.len(), Some('/'), false, true);
        let pattern = string_of_range(&pc, lo, hi);
        let mut dir = String::from_str(pattern.as_str());
        dir.append("/");
        let hit = glob_match(pattern.as_str(), path.as_str()) || crate::text::starts_with_str(
            path.as_str(),
            dir.as_str(),
        );
        assert(ex[k as int] == exclude@[k as int]@);
        if hit {
            assert(excluded_by(slash_path(rel@), ex[k as int]));
            return true;
        }
        k = k + 1;
    }
    false
}

// ---- what names and patterns promise --------------------------------------------------

/// A Rust identifier as module names use them: ASCII letters, digits and
/// `_`, not starting with a digit.
pub open spec fn is_identifier(s: Seq<char>) -> bool {
    &&& s.len() > 0
    &&& !is_digit(s[0])
    &&& forall|i: int| 0 <= i < s.len() ==> is_ascii_alnum(#[trigger] s[i]) || s[i] == '_'
}

/// Every file stem becomes a Rust identifier.
pub proof fn law_module_names_are_identifiers(stem: Seq<char>)
    requires
        stem.len() > 0,
    ensures
        is_identifier(module_name_spec(stem)),
{
    let m = stem.map_values(|c: char| if is_ascii_alnum(c) { c } else { '_' });
    assert(forall|i: int| 0 <= i < m.len() ==> is_ascii_alnum(#[trigger] m[i]) || m[i] == '_');
    if is_digit(m[0]) {
        let r = seq!['_'] + m;
        assert forall|i: int| 0 <= i < r.len() implies is_ascii_alnum(#[trigger] r[i]) || r[i] == '_' by {
            if i > 0 {
                assert(r[i] == m[i - 1]);
            }
        }
    }
}

/// A stem that already is an identifier keeps its name.
pub proof fn law_identifiers_keep_their_name(stem: Seq<char>)
    requires
        is_identifier(stem),
    ensures
        module_name_spec(stem) == stem,
{
    let m = stem.map_values(|c: char| if is_ascii_alnum(c) { c } else { '_' });
    assert(m =~= stem);
}

proof fn lemma_first_index(s: Seq<char>, c: char)
    ensures
        first_index(s, c) matches Some(k) ==> 0 <= k < s.len() && s[k] == c && forall|j: int|
            0 <= j < k ==> s[j] != c,
        first_index(s, c) is None ==> forall|j: int| 0 <= j < s.len() ==> s[j] != c,
    decreases s.len(),
{
    if s.len() > 0 && s[0] != c {
        let t = s.drop_first();
        lemma_first_index(t, c);
        assert forall|j: int| 1 <= j < s.len() implies s[j] == t[j - 1] by {}
    }
}

/// A `*` never reaches across a `/`: a pattern without `/` matches no path
/// that has one.
pub proof fn law_glob_stays_in_one_segment(pattern: Seq<char>, text: Seq<char>)
    requires
        !pattern.contains('/'),
        text.contains('/'),
    ensures
        !glob(pattern, text),
    decreases pattern.len(), 0int,
{
    lemma_first_index(pattern, '*');
    let j = choose|j: int| 0 <= j < text.len() && text[j] == '/';
    match first_index(pattern, '*') {
        None => {
            if pattern == text {
                assert(pattern[j] == '/');
            }
        },
        Some(k) => {
            if 0 <= k < pattern.len() {
                let head = pattern.subrange(0, k);
                let tail = pattern.subrange(k + 1, pattern.len() as int);
                if starts_with(text, head) {
                    if j < k {
                        assert(text.subrange(0, head.len() as int)[j] == head[j]);
                        assert(pattern[j] == '/');
                    }
                    let rest = text.subrange(head.len() as int, text.len() as int);
                    assert(rest[j - k] == '/');
                    lemma_first_index(rest, '/');
                    let stop = first_index(rest, '/')->0;
                    assert(!tail.contains('/')) by {
                        if tail.contains('/') {
                            let t = choose|t: int| 0 <= t < tail.len() && tail[t] == '/';
                            assert(pattern[k + 1 + t] == '/');
                        }
                    }
                    lemma_split_stays_in_one_segment(tail, rest, 0, stop);
                }
            }
        },
    }
}

proof fn lemma_split_stays_in_one_segment(tail: Seq<char>, rest: Seq<char>, i: int, stop: int)
    requires
        !tail.contains('/'),
        0 <= stop < rest.len(),
        rest[stop] == '/',
    ensures
        !glob_split(tail, rest, i, stop),
    decreases tail.len(), stop - i + 1,
{
    if 0 <= i <= stop {
        let r = rest.subrange(i, rest.len() as int);
        assert(r[stop - i] == '/');
        law_glob_stays_in_one_segment(tail, r);
        lemma_split_stays_in_one_segment(tail, rest, i + 1, stop);
    }
}

/// Adding patterns to `exclude` never brings back a path that it excluded.
pub proof fn law_more_patterns_exclude_more(rel: Seq<char>, exclude: Seq<Seq<char>>, more: Seq<Seq<char>>)
    requires
        is_excluded_spec(rel, exclude),
    ensures
        is_excluded_spec(rel, exclude + more),
{
    let i = choose|i: int| 0 <= i < exclude.len() && #[trigger] excluded_by(slash_path(rel), exclude[i]);
    assert((exclude + more)[i] == exclude[i]);
}

/// `pattern` excludes `path` in a way that reaches below it: it names `path`
/// literally (without a `*`), or a directory above it.
pub open spec fn excludes_below(path: Seq<char>, pattern: Seq<char>) -> bool {
    let p = trim_end_by(pattern, is_char('/'));
    (glob(p, path) && !p.contains('*')) || starts_with(path, p + "/"@)
}

/// Excluding a directory excludes everything under it: once an `exclude`
/// entry names a directory (literally, or a directory above it), every path
/// inside that directory is excluded too.
pub proof fn law_excluding_a_directory_excludes_its_contents(dir: Seq<char>, inner: Seq<char>, exclude: Seq<Seq<char>>)
    requires
        exists|i: int| 0 <= i < exclude.len() && #[trigger] excludes_below(slash_path(dir), exclude[i]),
    ensures
        is_excluded_spec(dir + "/"@ + inner, exclude),
{
    reveal_strlit("/");
    let i = choose|i: int| 0 <= i < exclude.len() && #[trigger] excludes_below(slash_path(dir), exclude[i]);
    let p = trim_end_by(exclude[i], is_char('/'));
    let d = slash_path(dir);
    let full = slash_path(dir + "/"@ + inner);
    assert(full =~= d + "/"@ + slash_path(inner)) by {
        let whole = dir + "/"@ + inner;
        assert forall|k: int| 0 <= k < full.len() implies full[k] == (d + "/"@ + slash_path(inner))[k] by {
            if k < dir.len() {
                assert(whole[k] == dir[k]);
            } else if k == dir.len() {
                assert(whole[k] == '/');
            } else {
                assert(whole[k] == inner[k - dir.len() - 1]);
            }
        }
    }
    if glob(p, d) && !p.contains('*') {
        lemma_first_index(p, '*');
        assert(first_index(p, '*') is None);
        assert(p == d);
        assert(full.subrange(0, (p + "/"@).len() as int) =~= p + "/"@);
    } else {
        let q = p + "/"@;
        assert(d.subrange(0, q.len() as int) == q);
        assert(full.subrange(0, q.len() as int) =~= d.subrange(0, q.len() as int));
    }
    assert(excluded_by(full, exclude[i]));
}

// ---- compiling one module ----------------------------------------------------------

/// Compile one `.sn` file as a module with child modules `children`; a lexing
/// or parsing error comes back rendered.
#[verifier::rlimit(100)]
#[verifier::spinoff_prover]
pub fn compile_one(source: &str, file: &str, children: &[ChildModule]) -> (r: Result<String, String>)
    requires
        source@.len() <= MAX_SOURCE_CHARS,
    ensures
        r matches Err(m) ==> exists|e: TinysError|
            m@ == e.spec_render() && e.file@ == file@ && (e.stage == Stage::Lex || e.stage
                == Stage::Parse),
        lex_spec(source@) matches Err((msg, at)) ==> r matches Err(m) && exists|e: TinysError|
            m@ == e.spec_render() && e.file@ == file@ && e.stage == Stage::Lex && e.message@ == msg
                && e.span == span_at(source@, at),
        r matches Ok(out) ==> exists|p: Program|
            program_wf(p) && out@ == module_rust(p, children@),
        lex_spec(source@) matches Ok(tv) ==> exists|ts: Seq<Token>, c: Result<String, TinysError>|
            tokens_view(ts) == tv && compiled_from(program_at(ts, 0, Seq::empty()), c, ts, file@, children@)
                && rendered(c, r),
        compile_gives(source@, file@, child_views(children@), text_of(r)),
{
    let tokens = match Lexer::new(source, file).tokenize() {
        Ok(t) => t,
        Err(e) => {
            let m = e.to_string();
            proof {
                assert(lex_error_text(source@, file@, m@, e));
                lemma_lex_error_gives(source@, file@, child_views(children@), m@, e);
            }
            return Err(m);
        },
    };
    let ghost ts = tokens@;
    let mut parser = Parser::new(tokens, file);
    let c: Result<String, TinysError> = match parser.parse_program() {
        Ok(program) => {
            let out = generate_module(&program, children);
            assert(program_wf(program) && out@ == module_rust(program, children@));
            Ok(out)
        },
        Err(e) => Err(e),
    };
    assert(compiled_from(program_at(ts, 0, Seq::empty()), c, ts, file@, children@));
    let r = match c {
        Ok(out) => Ok(out),
        Err(e) => Err(e.to_string()),
    };
    assert(rendered_text(c, text_of(r)));
    proof {
        lemma_program_gives(source@, file@, children@, ts, c, text_of(r));
    }
    r
}

proof fn lemma_lex_error_gives(source: Seq<char>, file: Seq<char>, children: Seq<(Seq<char>, bool)>, m: Seq<char>, e: TinysError)
    requires
        lex_error_text(source, file, m, e),
    ensures
        compile_gives(source, file, children, Err(m)),
{
    reveal(compile_gives);
    assert(lex_error_text(source, file, e.spec_render(), e));
}

proof fn lemma_program_gives(source: Seq<char>, file: Seq<char>, cs: Seq<ChildModule>, ts: Seq<Token>, c: Result<String, TinysError>, r: Result<Seq<char>, Seq<char>>)
    requires
        lex_spec(source) matches Ok(tv) && tokens_view(ts) == tv,
        compiled_from(program_at(ts, 0, Seq::empty()), c, ts, file, cs),
        rendered_text(c, r),
    ensures
        compile_gives(source, file, child_views(cs), r),
{
    reveal(compile_gives);
}

/// A result with its texts taken as character sequences.
pub open spec fn text_of(r: Result<String, String>) -> Result<Seq<char>, Seq<char>> {
    match r {
        Ok(s) => Ok(s@),
        Err(s) => Err(s@),
    }
}

/// `r` is `c` with an error rendered as its message text.
pub open spec fn rendered_text(c: Result<String, TinysError>, r: Result<Seq<char>, Seq<char>>) -> bool {
    match c {
        Ok(out) => r == Ok::<Seq<char>, Seq<char>>(out@),
        Err(e) => r == Err::<Seq<char>, Seq<char>>(e.spec_render()),
    }
}

/// `m` is `e` rendered, `e` being the lexing error that `source` (the file
/// named `file`) has.
pub open spec fn lex_error_text(source: Seq<char>, file: Seq<char>, m: Seq<char>, e: TinysError) -> bool {
    lex_spec(source) matches Err((msg, at)) && e.stage == Stage::Lex && e.file@ == file
        && e.message@ == msg && e.span == span_at(source, at) && m == e.spec_render()
}

/// Compiling `source` (the file named `file`, declaring the child modules
/// `children`) can give `r`, an error rendered as its text: the lexing error
/// where the source does not lex, else what the program its tokens hold
/// compiles to.
#[verifier::opaque]
pub open spec fn compile_gives(source: Seq<char>, file: Seq<char>, children: Seq<(Seq<char>, bool)>, r: Result<Seq<char>, Seq<char>>) -> bool {
    match lex_spec(source) {
        Err(_) => exists|e: TinysError| #[trigger] lex_error_text(source, file, e.spec_render(), e)
            && r == Err::<Seq<char>, Seq<char>>(e.spec_render()),
        Ok(tv) => exists|ts: Seq<Token>, cs: Seq<ChildModule>, c: Result<String, TinysError>|
            tokens_view(ts) == tv && child_views(cs) == children
                && #[trigger] compiled_from(program_at(ts, 0, Seq::empty()), c, ts, file, cs)
                && rendered_text(c, r),
    }
}

/// Compiling `source` cannot fail.
pub open spec fn compiles_cleanly(source: Seq<char>, file: Seq<char>, children: Seq<(Seq<char>, bool)>) -> bool {
    forall|m: Seq<char>| !#[trigger] compile_gives(source, file, children, Err(m))
}

/// `r` is `c` with an error rendered as its message text.
pub open spec fn rendered(c: Result<String, TinysError>, r: Result<String, String>) -> bool {
    match c {
        Ok(out) => r matches Ok(o) && o@ == out@,
        Err(e) => r matches Err(m) && m@ == e.spec_render(),
    }
}

// ---- where generated files go ------------------------------------------------------

/// One generated file to produce: where it goes, the `.sn` file it is read
/// from (none for a directory without `mod.sn`), the name errors use for it,
/// and the child modules it declares.
pub struct EmitJob {
    pub path: String,
    pub source: Option<String>,
    pub name_for_errors: String,
    pub children: Vec<ChildModule>,
}

pub open spec fn opt_str(o: Option<String>) -> Option<Seq<char>> {
    match o {
        Some(s) => Some(s@),
        None => None,
    }
}

/// The file a module is generated into: `<name>.rs`, or `<name>/mod.rs` for
/// a module with submodules (Rust looks for a directory then).
pub open spec fn module_file(rel_dir: Seq<char>, m: Module) -> Seq<char> {
    if m.children@.len() == 0 {
        join_path(rel_dir, m.name@ + ".rs"@)
    } else {
        join_path(join_path(rel_dir, m.name@), "mod.rs"@)
    }
}

/// The jobs of a module and, after it, of its submodules (depth first).
pub open spec fn module_jobs(rel_dir: Seq<char>, m: Module) -> Seq<(Seq<char>, Option<Seq<char>>, Seq<char>, Seq<(Seq<char>, bool)>)>
    decreases m, 1int,
{
    seq![(
        module_file(rel_dir, m),
        opt_str(m.source),
        match m.source {
            Some(s) => s@,
            None => join_path(rel_dir, m.name@),
        },
        m.children@.map_values(|c: Module| (c.name@, c.is_test)),
    )] + modules_jobs(join_path(rel_dir, m.name@), m.children@)
}

pub open spec fn modules_jobs(rel_dir: Seq<char>, ms: Seq<Module>) -> Seq<(Seq<char>, Option<Seq<char>>, Seq<char>, Seq<(Seq<char>, bool)>)>
    decreases ms, 0int,
{
    if ms.len() == 0 {
        Seq::empty()
    } else {
        modules_jobs(rel_dir, ms.subrange(0, ms.len() - 1)) + module_jobs(rel_dir, ms[ms.len() - 1])
    }
}

pub open spec fn job_view(j: EmitJob) -> (Seq<char>, Option<Seq<char>>, Seq<char>, Seq<(Seq<char>, bool)>) {
    (
        j.path@,
        opt_str(j.source),
        j.name_for_errors@,
        j.children@.map_values(|c: ChildModule| (c.name@, c.cfg_test)),
    )
}

fn clone_opt(o: &Option<String>) -> (r: Option<String>)
    ensures
        opt_str(r) == opt_str(*o),
{
    match o {
        Some(s) => Some(s.clone()),
        None => None,
    }
}

/// Appends the jobs of `m` (in directory `rel_dir`) to `out`.
fn push_module_jobs(rel_dir: &str, m: &Module, out: &mut Vec<EmitJob>)
    ensures
        final(out)@.map_values(|j: EmitJob| job_view(j)) == old(out)@.map_values(
            |j: EmitJob| job_view(j),
        ) + module_jobs(rel_dir@, *m),
    decreases m, 1int,
{
    let children = child_modules(&m.children);
    let path = if m.children.len() == 0 {
        let mut f = m.name.clone();
        f.append(".rs");
        join_path_str(rel_dir, f.as_str())
    } else {
        let d = join_path_str(rel_dir, m.name.as_str());
        join_path_str(d.as_str(), "mod.rs")
    };
    let name_for_errors = match &m.source {
        Some(s) => s.clone(),
        None => join_path_str(rel_dir, m.name.as_str()),
    };
    let job = EmitJob { path, source: clone_opt(&m.source), name_for_errors, children };
    proof {
        assert(job.children@.map_values(|c: ChildModule| (c.name@, c.cfg_test)) =~= m.children@.map_values(
            |c: Module| (c.name@, c.is_test),
        ));
    }
    let ghost before = out@.map_values(|j: EmitJob| job_view(j));
    out.push(job);
    assert(out@.map_values(|j: EmitJob| job_view(j)) =~= before.push(job_view(job)));
    let child_dir = join_path_str(rel_dir, m.name.as_str());
    push_modules_jobs(child_dir.as_str(), &m.children, out);
    assert(before.push(job_view(job)) + modules_jobs(child_dir@, m.children@) =~= before + module_jobs(
        rel_dir@,
        *m,
    ));
}

fn push_modules_jobs(rel_dir: &str, ms: &Vec<Module>, out: &mut Vec<EmitJob>)
    ensures
        final(out)@.map_values(|j: EmitJob| job_view(j)) == old(out)@.map_values(
            |j: EmitJob| job_view(j),
        ) + modules_jobs(rel_dir@, ms@),
    decreases ms, 0int,
{
    let ghost start = out@.map_values(|j: EmitJob| job_view(j));
    let mut i: usize = 0;
    assert(start + modules_jobs(rel_dir@, ms@.subrange(0, 0)) =~= start);
    while i < ms.len()
        invariant
            i <= ms@.len(),
            start == old(out)@.map_values(|j: EmitJob| job_view(j)),
            out@.map_values(|j: EmitJob| job_view(j)) == start + modules_jobs(
                rel_dir@,
                ms@.subrange(0, i as int),
            ),
        decreases ms@.len() - i,
    {
        push_module_jobs(rel_dir, &ms[i], out);
        proof {
            let p = ms@.subrange(0, i + 1);
            assert(p.subrange(0, i as int) =~= ms@.subrange(0, i as int));
            assert(p[i as int] == ms@[i as int]);
            assert(out@.map_values(|j: EmitJob| job_view(j)) =~= start + modules_jobs(rel_dir@, p));
        }
        i = i + 1;
    }
    assert(ms@.subrange(0, ms@.len() as int) =~= ms@);
}

/// The files a module tree is generated into, depth first: each module's
/// file, then its submodules' under a directory named after it.
pub fn emit_jobs(tree: &Vec<Module>) -> (r: Vec<EmitJob>)
    ensures
        r@.map_values(|j: EmitJob| job_view(j)) == modules_jobs(Seq::empty(), tree@),
{
    let mut out: Vec<EmitJob> = Vec::new();
    assert(out@.map_values(|j: EmitJob| job_view(j)) =~= Seq::<
        (Seq<char>, Option<Seq<char>>, Seq<char>, Seq<(Seq<char>, bool)>),
    >::empty());
    push_modules_jobs("", tree, &mut out);
    proof {
        reveal_strlit("");
        assert(""@ =~= Seq::<char>::empty());
        assert(Seq::<(Seq<char>, Option<Seq<char>>, Seq<char>, Seq<(Seq<char>, bool)>)>::empty() + modules_jobs(
            ""@,
            tree@,
        ) =~= modules_jobs(Seq::empty(), tree@));
    }
    out
}


// ---- compiling a package ------------------------------------------------------------

/// The declarations of a list of child modules, by name and test flag.
pub open spec fn child_views(cs: Seq<ChildModule>) -> Seq<(Seq<char>, bool)> {
    cs.map_values(|c: ChildModule| (c.name@, c.cfg_test))
}

/// The declarations the crate root makes for the top level of `tree`.
pub open spec fn top_children(tree: Seq<Module>) -> Seq<(Seq<char>, bool)> {
    tree.map_values(|m: Module| (m.name@, m.is_test))
}

/// `rust` is the Rust module generated for a well-formed program that
/// declares the child modules `children`.
pub open spec fn generated_module(rust: Seq<char>, children: Seq<(Seq<char>, bool)>) -> bool {
    exists|p: Program, cs: Seq<ChildModule>|
        program_wf(p) && child_views(cs) == children && rust == #[trigger] module_rust(p, cs)
}

/// `rust` is what compiling `source` (the file named `file`, declaring the
/// child modules `children`) gives: the source lexes, and the Rust is the
/// module generated for the program that its tokens hold.
pub open spec fn compiled_text(source: Seq<char>, file: Seq<char>, children: Seq<(Seq<char>, bool)>, rust: Seq<char>) -> bool {
    lex_spec(source) matches Ok(tv) && exists|ts: Seq<Token>, cs: Seq<ChildModule>, c: Result<String, TinysError>|
        tokens_view(ts) == tv && child_views(cs) == children && compiled_from(program_at(ts, 0, Seq::empty()), c, ts, file, cs)
            && (c matches Ok(o) && o@ == rust)
}

proof fn lemma_compiled_entry(source: Seq<char>, file: Seq<char>, cs: Seq<ChildModule>, children: Seq<(Seq<char>, bool)>, rust: Seq<char>)
    requires
        child_views(cs) == children,
        lex_spec(source) is Ok,
        exists|ts: Seq<Token>, c: Result<String, TinysError>|
            tokens_view(ts) == lex_spec(source)->Ok_0 && compiled_from(program_at(ts, 0, Seq::empty()), c, ts, file, cs)
                && (c matches Ok(o) && o@ == rust),
    ensures
        compiled_text(source, file, children, rust),
{
    let (ts, c) = choose|ts: Seq<Token>, c: Result<String, TinysError>|
        tokens_view(ts) == lex_spec(source)->Ok_0 && compiled_from(program_at(ts, 0, Seq::empty()), c, ts, file, cs)
            && (c matches Ok(o) && o@ == rust);
    assert(tokens_view(ts) == lex_spec(source)->Ok_0 && child_views(cs) == children && compiled_from(program_at(ts, 0, Seq::empty()), c, ts, file, cs)
        && (c matches Ok(o) && o@ == rust));
}

/// `m` is the rendered lexing or parsing error of the file named `file`.
pub open spec fn failed_compile(m: Seq<char>, file: Seq<char>) -> bool {
    exists|e: TinysError|
        m == #[trigger] e.spec_render() && e.file@ == file && (e.stage == Stage::Lex || e.stage
            == Stage::Parse)
}

/// `rust` is what compiling a module's text gives, the text being what
/// `read` answered for its file (or empty where the module has none).
pub open spec fn module_compiled<F: Fn(&str) -> Result<String, String>>(read: F, src: Option<Seq<char>>, name: Seq<char>, children: Seq<(Seq<char>, bool)>, rust: Seq<char>) -> bool {
    match src {
        Some(p) => exists|t: String| read_gives(read, p, Ok(t)) && #[trigger] compiled_text(t@, name, children, rust),
        None => compiled_text(Seq::empty(), name, children, rust),
    }
}

/// `read` may answer `r` when asked for the file at `path`.
pub open spec fn read_gives<F: Fn(&str) -> Result<String, String>>(read: F, path: Seq<char>, r: Result<String, String>) -> bool {
    exists|s: &str| s@ == path && #[trigger] read.ensures((s,), r)
}

/// Compiling the module of `job` can give `r`: its text is what `read`
/// answered for its file, or empty where it has none.
pub open spec fn job_compile_gives<F: Fn(&str) -> Result<String, String>>(read: F, job: (Seq<char>, Option<Seq<char>>, Seq<char>, Seq<(Seq<char>, bool)>), r: Result<Seq<char>, Seq<char>>) -> bool {
    match job.1 {
        Some(p) => exists|t: String| read_gives(read, p, Ok(t)) && #[trigger] compile_gives(t@, job.2, job.3, r),
        None => compile_gives(Seq::empty(), job.2, job.3, r),
    }
}

/// The module of `job` can fail with `m`: reading its file answers `m`, or
/// its text's compile fails with `m`.
pub open spec fn job_fails<F: Fn(&str) -> Result<String, String>>(read: F, job: (Seq<char>, Option<Seq<char>>, Seq<char>, Seq<(Seq<char>, bool)>), m: String) -> bool {
    (job.1 matches Some(p) && read_gives(read, p, Err(m))) || job_compile_gives(read, job, Err(m@))
}

/// Neither reading nor compiling the module of `job` can fail: a module
/// without a file whose empty text compiles, or one whose file `read` can
/// only answer with a text that compiles.
pub open spec fn job_cannot_fail<F: Fn(&str) -> Result<String, String>>(read: F, job: (Seq<char>, Option<Seq<char>>, Seq<char>, Seq<(Seq<char>, bool)>)) -> bool {
    forall|m: String| !#[trigger] job_fails(read, job, m)
}

/// The crate root `entry` compiles to `rusts[0]`, and the modules of `tree`
/// before the `rusts.len() - 1`-th, in the order of `emit_jobs`, are read and
/// compile to the texts that follow.
pub open spec fn compiled_as<F: Fn(&str) -> Result<String, String>>(read: F, entry: Seq<char>, entry_source: Seq<char>, tree: Seq<Module>, rusts: Seq<Seq<char>>) -> bool {
    &&& rusts.len() >= 1
    &&& compile_gives(entry_source, entry, top_children(tree), Ok(rusts[0]))
    &&& forall|k: int| 0 <= k < rusts.len() - 1 ==>
        #[trigger] job_compile_gives(read, modules_jobs(Seq::empty(), tree)[k], Ok(rusts[k + 1]))
}

/// The crate root `entry` and the first `n` modules of `tree`, in the order
/// of `emit_jobs`, can all be read and compiled.
pub open spec fn compiled_through<F: Fn(&str) -> Result<String, String>>(read: F, entry: Seq<char>, entry_source: Seq<char>, tree: Seq<Module>, n: int) -> bool {
    exists|rusts: Seq<Seq<char>>| rusts.len() == n + 1 && #[trigger] compiled_as(read, entry, entry_source, tree, rusts)
}

proof fn lemma_compiled_through<F: Fn(&str) -> Result<String, String>>(read: F, entry: Seq<char>, entry_source: Seq<char>, tree: Seq<Module>, files: Seq<GeneratedFile>, n: int)
    requires
        0 <= n,
        files.len() == n + 1,
        compile_gives(entry_source, entry, top_children(tree), Ok(files[0].rust@)),
        forall|k: int| 0 <= k < n ==> #[trigger] job_compile_gives(read, modules_jobs(Seq::empty(), tree)[k], Ok(files[k + 1].rust@)),
    ensures
        compiled_through(read, entry, entry_source, tree, n),
{
    let rusts = files.map_values(|f: GeneratedFile| f.rust@);
    assert forall|k: int| 0 <= k < rusts.len() - 1 implies
        #[trigger] job_compile_gives(read, modules_jobs(Seq::empty(), tree)[k], Ok(rusts[k + 1])) by {
        assert(rusts[k + 1] == files[k + 1].rust@);
        assert(job_compile_gives(read, modules_jobs(Seq::empty(), tree)[k], Ok(files[k + 1].rust@)));
    }
    assert(rusts[0] == files[0].rust@);
    assert(compiled_as(read, entry, entry_source, tree, rusts));
}

impl Sources {
    /// Compile the crate root `entry` (whose text is `entry_source`) and every
    /// module of `tree`, reading each module's `.sn` file through `read`.
    ///
    /// The crate root becomes `main.rs`; the modules follow in the order of
    /// `emit_jobs`. The first error, of reading or of compiling, ends the
    /// work and is returned.
    #[verifier::rlimit(100)]
    #[verifier::spinoff_prover]
    pub fn compile<F: Fn(&str) -> Result<String, String>>(
        entry: &str,
        entry_source: &str,
        tree: &Vec<Module>,
        read: F,
    ) -> (r: Result<Sources, String>)
        requires
            entry_source@.len() <= MAX_SOURCE_CHARS,
            forall|s: &str| read.requires((s,)),
            forall|s: &str, t: Result<String, String>|
                #[trigger] read.ensures((s,), t) ==> (t matches Ok(text) ==> text@.len()
                    <= MAX_SOURCE_CHARS),
        ensures
            r matches Ok(out) ==> {
                let jobs = modules_jobs(Seq::empty(), tree@);
                &&& out.files@.len() == jobs.len() + 1
                &&& out.files@[0].path@ == "main.rs"@
                &&& opt_str(out.files@[0].source) == Some(entry@)
                &&& generated_module(out.files@[0].rust@, top_children(tree@))
                &&& compiled_text(entry_source@, entry@, top_children(tree@), out.files@[0].rust@)
                &&& forall|i: int|
                    0 <= i < jobs.len() ==> {
                        &&& (#[trigger] out.files@[i + 1]).path@ == jobs[i].0
                        &&& opt_str(out.files@[i + 1].source) == jobs[i].1
                        &&& generated_module(out.files@[i + 1].rust@, jobs[i].3)
                        &&& module_compiled(read, jobs[i].1, jobs[i].2, jobs[i].3, out.files@[i + 1].rust@)
                    }
            },
            r matches Err(m) ==> failed_compile(m@, entry@) || exists|i: int|
                0 <= i < modules_jobs(Seq::empty(), tree@).len() && {
                    let job = #[trigger] modules_jobs(Seq::empty(), tree@)[i];
                    failed_compile(m@, job.2) || (job.1 matches Some(p) && read_gives(
                        read,
                        p,
                        Err(m),
                    ))
                },
            r matches Err(m) ==> compile_gives(entry_source@, entry@, top_children(tree@), Err(m@))
                || exists|i: int|
                0 <= i < modules_jobs(Seq::empty(), tree@).len() && compiled_through(read, entry@, entry_source@, tree@, i)
                    && job_fails(read, #[trigger] modules_jobs(Seq::empty(), tree@)[i], m),
            compiles_cleanly(entry_source@, entry@, top_children(tree@)) && (forall|i: int|
                0 <= i < modules_jobs(Seq::empty(), tree@).len() ==> job_cannot_fail(
                    read,
                    #[trigger] modules_jobs(Seq::empty(), tree@)[i],
                )) ==> r is Ok,
    {
        let children = child_modules(tree);
        assert(child_views(children@) =~= top_children(tree@));
        let rust = match compile_one(entry_source, entry, children.as_slice()) {
            Ok(out) => out,
            Err(e) => {
                assert(compile_gives(entry_source@, entry@, top_children(tree@), Err(e@)));
                return Err(e);
            },
        };
        assert(compile_gives(entry_source@, entry@, top_children(tree@), Ok(rust@)));
        proof {
            lemma_compiled_entry(entry_source@, entry@, children@, top_children(tree@), rust@);
        }
        let mut files: Vec<GeneratedFile> = Vec::new();
        files.push(
            GeneratedFile {
                path: String::from_str("main.rs"),
                source: Some(String::from_str(entry)),
                rust,
            },
        );
        proof {
            reveal_strlit("main.rs");
        }
        let jobs = emit_jobs(tree);
        let ghost jv = modules_jobs(Seq::empty(), tree@);
        assert(jobs@.len() == jv.len());
        let mut i: usize = 0;
        while i < jobs.len()
            invariant
                i <= jobs@.len(),
                jv == modules_jobs(Seq::empty(), tree@),
                jobs@.map_values(|j: EmitJob| job_view(j)) == jv,
                files@.len() == i + 1,
                files@[0].path@ == "main.rs"@,
                opt_str(files@[0].source) == Some(entry@),
                generated_module(files@[0].rust@, top_children(tree@)),
                compiled_text(entry_source@, entry@, top_children(tree@), files@[0].rust@),
                compile_gives(entry_source@, entry@, top_children(tree@), Ok(files@[0].rust@)),
                forall|k: int|
                    0 <= k < i ==> #[trigger] job_compile_gives(read, jv[k], Ok(files@[k + 1].rust@)),
                forall|k: int|
                    0 <= k < i ==> {
                        &&& (#[trigger] files@[k + 1]).path@ == jv[k].0
                        &&& opt_str(files@[k + 1].source) == jv[k].1
                        &&& generated_module(files@[k + 1].rust@, jv[k].3)
                        &&& module_compiled(read, jv[k].1, jv[k].2, jv[k].3, files@[k + 1].rust@)
                    },
                forall|s: &str| read.requires((s,)),
                forall|s: &str, t: Result<String, String>|
                    #[trigger] read.ensures((s,), t) ==> (t matches Ok(text) ==> text@.len()
                        <= MAX_SOURCE_CHARS),
            decreases jobs@.len() - i,
        {
            let job = &jobs[i];
            assert(job_view(*job) == jv[i as int]);
            let source = match &job.source {
                Some(p) => match read(p.as_str()) {
                    Ok(text) => {
                        assert(read_gives(read, p@, Ok(text)));
                        text
                    },
                    Err(e) => {
                        assert(read_gives(read, p@, Err(e)));
                        proof {
                            lemma_compiled_through(read, entry@, entry_source@, tree@, files@, i as int);
                            assert(job_fails(read, jv[i as int], e));
                        }
                        return Err(e);
                    },
                },
                None => String::new(),
            };
            let rust = match compile_one(source.as_str(), job.name_for_errors.as_str(), job.children.as_slice()) {
                Ok(out) => out,
                Err(e) => {
                    assert(failed_compile(e@, jv[i as int].2));
                    assert(child_views(job.children@) == jv[i as int].3);
                    assert(compile_gives(source@, jv[i as int].2, jv[i as int].3, Err(e@)));
                    proof {
                        lemma_compiled_through(read, entry@, entry_source@, tree@, files@, i as int);
                        match &job.source {
                            Some(p) => {
                                assert(read_gives(read, p@, Ok(source)));
                            },
                            None => {
                                assert(source@ =~= Seq::<char>::empty());
                                assert(compile_gives(Seq::empty(), jv[i as int].2, jv[i as int].3, Err(e@)));
                            },
                        }
                        assert(job_compile_gives(read, jv[i as int], Err(e@)));
                        assert(job_fails(read, jv[i as int], e));
                    }
                    return Err(e);
                },
            };
            assert(child_views(job.children@) == jv[i as int].3);
            assert(compile_gives(source@, jv[i as int].2, jv[i as int].3, Ok(rust@)));
            proof {
                lemma_compiled_entry(source@, job.name_for_errors@, job.children@, jv[i as int].3, rust@);
                match &job.source {
                    Some(p) => {
                        assert(read_gives(read, p@, Ok(source)));
                        assert(module_compiled(read, jv[i as int].1, jv[i as int].2, jv[i as int].3, rust@));
                    },
                    None => {
                        assert(source@ =~= Seq::<char>::empty());
                        assert(compile_gives(Seq::empty(), jv[i as int].2, jv[i as int].3, Ok(rust@)));
                    },
                }
                assert(job_compile_gives(read, jv[i as int], Ok(rust@)));
            }
            let ghost before = files@;
            files.push(GeneratedFile { path: job.path.clone(), source: clone_opt(&job.source), rust });
            assert(files@[i + 1].path@ == jv[i as int].0);
            assert forall|k: int| 0 <= k < i + 1 implies #[trigger] job_compile_gives(read, jv[k], Ok(files@[k + 1].rust@)) by {
                if k < i {
                    assert(files@[k + 1] == before[k + 1]);
                }
            }
            i = i + 1;
        }
        Ok(Sources { files })
    }
}

// ---- pruning stale files -------------------------------------------------------------

/// The paths, relative to the scratch package's `src/`, that a build writes.
pub open spec fn written_paths(fs: Seq<GeneratedFile>) -> Seq<Seq<char>> {
    fs.map_values(|f: GeneratedFile| f.path@)
}

/// A Rust file the build does not write.
pub open spec fn is_stale(p: Seq<char>, written: Seq<Seq<char>>) -> bool {
    ends_with(p, ".rs"@) && !written.contains(p)
}

/// The stale files among `existing`, in order.
pub open spec fn stale_among(existing: Seq<Seq<char>>, written: Seq<Seq<char>>) -> Seq<Seq<char>>
    decreases existing.len(),
{
    if existing.len() == 0 {
        Seq::empty()
    } else {
        let rest = stale_among(existing.drop_last(), written);
        if is_stale(existing.last(), written) {
            rest.push(existing.last())
        } else {
            rest
        }
    }
}

impl Sources {
    /// The Rust files among `existing` (paths relative to the scratch
    /// package's `src/`) that this build no longer writes: left behind by a
    /// renamed or deleted module, they are removed so that a stale `foo.rs`
    /// can never collide with a new `foo/mod.rs`.
    pub fn stale_files(&self, existing: &Vec<String>) -> (r: Vec<String>)
        ensures
            views(r@) == stale_among(views(existing@), written_paths(self.files@)),
    {
        let ghost written = written_paths(self.files@);
        let suffix = chars_of(".rs");
        proof {
            reveal_strlit(".rs");
            assert(suffix@.len() == 3);
        }
        let mut out: Vec<String> = Vec::new();
        let mut i: usize = 0;
        while i < existing.len()
            invariant
                i <= existing@.len(),
                written == written_paths(self.files@),
                suffix@ == ".rs"@,
                suffix@.len() == 3,
                views(out@) == stale_among(views(existing@).subrange(0, i as int), written),
            decreases existing@.len() - i,
        {
            let p = existing[i].as_str();
            let cs = chars_of(p);
            let rs = cs.len() >= 3 && crate::text::occurs_at_exec(&cs, &suffix, cs.len() - 3);
            let mut found = false;
            let mut k: usize = 0;
            while k < self.files.len()
                invariant
                    k <= self.files@.len(),
                    written == written_paths(self.files@),
                    found == exists|j: int| 0 <= j < k && written[j] == p@,
                decreases self.files@.len() - k,
            {
                assert(written[k as int] == self.files@[k as int].path@);
                if str_eq(self.files[k].path.as_str(), p) {
                    found = true;
                }
                assert(found == exists|j: int| 0 <= j < k + 1 && written[j] == p@) by {
                    if exists|j: int| 0 <= j < k + 1 && written[j] == p@ {
                        let j = choose|j: int| 0 <= j < k + 1 && written[j] == p@;
                        if j < k {
                            assert(0 <= j < k && written[j] == p@);
                        }
                    }
                }
                k = k + 1;
            }
            let ghost e = views(existing@).subrange(0, i + 1);
            assert(e.drop_last() =~= views(existing@).subrange(0, i as int));
            assert(e.last() == p@);
            assert(rs == ends_with(p@, ".rs"@)) by {
                if cs@.len() >= 3 {
                    assert(occurs_at(cs@, suffix@, cs@.len() - 3) == (cs@.subrange(
                        cs@.len() - 3,
                        cs@.len() as int,
                    ) == suffix@));
                }
            }
            assert(found == written.contains(p@)) by {
                if written.contains(p@) {
                    let j = choose|j: int| 0 <= j < written.len() && written[j] == p@;
                    assert(0 <= j < k);
                }
            }
            if rs && !found {
                out.push(existing[i].clone());
                assert(views(out@) =~= stale_among(views(existing@).subrange(0, i as int), written).push(p@));
            }
            i = i + 1;
        }
        assert(views(existing@).subrange(0, existing@.len() as int) =~= views(existing@));
        out
    }
}

// ---- the module tree of one directory ------------------------------------------------

/// A `.sn` file of a listed directory.
pub struct ListedFile {
    /// Its name, e.g. `models.sn`.
    pub file_name: String,
    /// Its path, as the generated file records it.
    pub path: String,
    /// It is the file being built (the crate root), which is never a module.
    pub is_entry: bool,
}

/// A subdirectory of a listed directory, already walked.
pub struct ListedDir {
    pub name: String,
    /// The modules found inside it.
    pub children: Vec<Module>,
    /// The path of its `mod.sn`, where that file exists.
    pub mod_sn: Option<String>,
    /// Its `mod.sn` is the file being built.
    pub mod_is_entry: bool,
}

/// A module by its parts: name, source, test flag, children.
pub type ModuleView = (Seq<char>, Option<Seq<char>>, bool, Seq<Module>);

pub open spec fn mview(m: Module) -> ModuleView {
    (m.name@, opt_str(m.source), m.is_test, m.children@)
}

pub open spec fn mviews(ms: Seq<Module>) -> Seq<ModuleView> {
    ms.map_values(|m: Module| mview(m))
}

pub open spec fn ends_with(s: Seq<char>, suffix: Seq<char>) -> bool {
    suffix.len() <= s.len() && s.subrange(s.len() - suffix.len(), s.len() as int) == suffix
}

/// `Path::file_stem` of a `.sn` file name.
pub open spec fn stem_of(file_name: Seq<char>) -> Seq<char> {
    if ends_with(file_name, ".sn"@) && file_name.len() > 3 {
        file_name.subrange(0, file_name.len() - 3)
    } else {
        file_name
    }
}

/// The module a `.sn` file declares, if any: not a directory's own `mod.sn`,
/// not excluded, not the crate root.
pub open spec fn file_candidate(rel: Seq<char>, f: ListedFile, ex: Seq<Seq<char>>) -> Option<ModuleView> {
    let stem = stem_of(f.file_name@);
    if stem == "mod"@ || is_excluded_spec(join_path(rel, f.file_name@), ex) || f.is_entry {
        None
    } else {
        Some((module_name_spec(stem), Some(f.path@), ends_with(stem, "_test"@), Seq::empty()))
    }
}

/// The module a subdirectory declares, if any: not excluded, and holding
/// modules or a usable `mod.sn`.
pub open spec fn dir_candidate(rel: Seq<char>, d: ListedDir, ex: Seq<Seq<char>>) -> Option<ModuleView> {
    let child_rel = join_path(rel, d.name@);
    if is_excluded_spec(child_rel, ex) {
        None
    } else {
        let source = match d.mod_sn {
            Some(p) => if !is_excluded_spec(join_path(child_rel, "mod.sn"@), ex) && !d.mod_is_entry {
                Some(p@)
            } else {
                None
            },
            None => None,
        };
        if d.children@.len() == 0 && source is None {
            None
        } else {
            Some((module_name_spec(d.name@), source, false, d.children@))
        }
    }
}

pub open spec fn somes(os: Seq<Option<ModuleView>>) -> Seq<ModuleView>
    decreases os.len(),
{
    if os.len() == 0 {
        Seq::empty()
    } else {
        let prev = somes(os.drop_last());
        match os.last() {
            Some(m) => prev.push(m),
            None => prev,
        }
    }
}

/// `a` sorts strictly before `b` (by characters, as `str` orders by bytes:
/// UTF-8 keeps the order of code points).
pub open spec fn str_lt(a: Seq<char>, b: Seq<char>) -> bool
    decreases a.len(),
{
    if b.len() == 0 {
        false
    } else if a.len() == 0 {
        true
    } else if a[0] < b[0] {
        true
    } else if a[0] == b[0] {
        str_lt(a.drop_first(), b.drop_first())
    } else {
        false
    }
}

/// Where a stable sort by name puts `x` among the sorted `s`: before the
/// first whose name sorts after its name.
pub open spec fn insert_pos(s: Seq<ModuleView>, name: Seq<char>) -> int
    decreases s.len(),
{
    if s.len() == 0 {
        0
    } else if str_lt(name, s[0].0) {
        0
    } else {
        1 + insert_pos(s.drop_first(), name)
    }
}

/// `ms` stably sorted by name.
pub open spec fn sort_by_name(ms: Seq<ModuleView>) -> Seq<ModuleView>
    decreases ms.len(),
{
    if ms.len() == 0 {
        Seq::empty()
    } else {
        let s = sort_by_name(ms.drop_last());
        s.insert(insert_pos(s, ms.last().0), ms.last())
    }
}

/// The name at `k` equals the next one.
pub open spec fn adj_dup(s: Seq<ModuleView>, k: int) -> bool {
    0 <= k < s.len() - 1 && s[k].0 == s[k + 1].0
}

/// The first position whose name equals the next one's.
pub open spec fn first_adjacent_dup(s: Seq<ModuleView>) -> Option<int> {
    if exists|k: int| #[trigger] adj_dup(s, k) {
        Some(choose|k: int| #[trigger] adj_dup(s, k) && forall|j: int| 0 <= j < k ==> !#[trigger] adj_dup(s, j))
    } else {
        None
    }
}

pub open spec fn duplicate_message(dir: Seq<char>, name: Seq<char>) -> Seq<char> {
    "error: `"@ + dir + "` declares the module `"@ + name + "` twice; rename one of the files"@
}

/// What a directory declares: its files' and subdirectories' modules sorted
/// by name, or an error naming the first module declared twice.
pub open spec fn level_result(dir: Seq<char>, rel: Seq<char>, files: Seq<ListedFile>, dirs: Seq<ListedDir>, ex: Seq<Seq<char>>) -> Result<Seq<ModuleView>, Seq<char>> {
    let cands = somes(files.map_values(|f: ListedFile| file_candidate(rel, f, ex))) + somes(
        dirs.map_values(|d: ListedDir| dir_candidate(rel, d, ex)),
    );
    let sorted = sort_by_name(cands);
    match first_adjacent_dup(sorted) {
        Some(k) => Err(duplicate_message(dir, sorted[k].0)),
        None => Ok(sorted),
    }
}


// ---- what a directory declares: laws ---------------------------------------------------

proof fn lemma_str_lt_irreflexive(a: Seq<char>)
    ensures
        !str_lt(a, a),
    decreases a.len(),
{
    if a.len() > 0 {
        lemma_str_lt_irreflexive(a.drop_first());
    }
}

proof fn lemma_str_lt_transitive(a: Seq<char>, b: Seq<char>, c: Seq<char>)
    requires
        str_lt(a, b),
        str_lt(b, c),
    ensures
        str_lt(a, c),
    decreases a.len(),
{
    if a.len() > 0 && b.len() > 0 && c.len() > 0 && a[0] == b[0] && b[0] == c[0] {
        lemma_str_lt_transitive(a.drop_first(), b.drop_first(), c.drop_first());
    }
}

proof fn lemma_str_lt_total(a: Seq<char>, b: Seq<char>)
    requires
        a != b,
    ensures
        str_lt(a, b) || str_lt(b, a),
    decreases a.len(),
{
    if b.len() == 0 {
        if a.len() == 0 {
            assert(a =~= b);
        }
    } else if a.len() == 0 {
    } else if a[0] < b[0] {
    } else if b[0] < a[0] {
    } else {
        assert(a[0] == b[0]);
        if a.drop_first() == b.drop_first() {
            assert(a =~= seq![a[0]] + a.drop_first());
            assert(b =~= seq![b[0]] + b.drop_first());
        }
        lemma_str_lt_total(a.drop_first(), b.drop_first());
    }
}

/// Names never decrease along `s`.
pub open spec fn sorted_by_name(s: Seq<ModuleView>) -> bool {
    forall|i: int, j: int| 0 <= i < j < s.len() ==> !str_lt(#[trigger] s[j].0, #[trigger] s[i].0)
}

proof fn lemma_insert_pos(s: Seq<ModuleView>, name: Seq<char>)
    ensures
        0 <= insert_pos(s, name) <= s.len(),
        forall|i: int| 0 <= i < insert_pos(s, name) ==> !str_lt(name, #[trigger] s[i].0),
        insert_pos(s, name) < s.len() ==> str_lt(name, s[insert_pos(s, name)].0),
    decreases s.len(),
{
    if s.len() > 0 && !str_lt(name, s[0].0) {
        let t = s.drop_first();
        lemma_insert_pos(t, name);
        assert forall|i: int| 1 <= i < s.len() implies s[i] == t[i - 1] by {}
    }
}

proof fn lemma_sort_sorted(ms: Seq<ModuleView>)
    ensures
        sorted_by_name(sort_by_name(ms)),
        sort_by_name(ms).len() == ms.len(),
        forall|x: ModuleView| sort_by_name(ms).contains(x) <==> ms.contains(x),
    decreases ms.len(),
{
    if ms.len() > 0 {
        let prev = ms.drop_last();
        let s = sort_by_name(prev);
        lemma_sort_sorted(prev);
        let x = ms.last();
        let p = insert_pos(s, x.0);
        lemma_insert_pos(s, x.0);
        let r = s.insert(p, x);
        assert forall|i: int, j: int| 0 <= i < j < r.len() implies !str_lt(#[trigger] r[j].0, #[trigger] r[i].0) by {
            if j < p {
                assert(r[i] == s[i] && r[j] == s[j]);
            } else if j == p {
                assert(r[i] == s[i] && r[j] == x);
            } else if i < p {
                assert(r[i] == s[i] && r[j] == s[j - 1]);
                if str_lt(r[j].0, r[i].0) {
                    // s[i] <= name < s[p] <= s[j - 1]
                    if p < j - 1 {
                        assert(!str_lt(s[j - 1].0, s[p].0));
                    }
                    if str_lt(s[j - 1].0, s[i].0) {
                        assert(!str_lt(x.0, s[i].0));
                        if x.0 != s[i].0 {
                            lemma_str_lt_total(x.0, s[i].0);
                            lemma_str_lt_transitive(s[i].0, x.0, s[p].0);
                        }
                        if s[j - 1].0 != s[p].0 {
                            lemma_str_lt_total(s[j - 1].0, s[p].0);
                            lemma_str_lt_transitive(s[i].0, s[p].0, s[j - 1].0);
                        } else {
                            if x.0 == s[i].0 {
                                lemma_str_lt_transitive(s[j - 1].0, s[i].0, s[p].0);
                                lemma_str_lt_irreflexive(s[p].0);
                            }
                        }
                        lemma_str_lt_transitive(s[j - 1].0, s[i].0, s[j - 1].0);
                        lemma_str_lt_irreflexive(s[j - 1].0);
                    }
                }
            } else if i == p {
                assert(r[i] == x && r[j] == s[j - 1]);
                if str_lt(s[j - 1].0, x.0) {
                    if j - 1 > p {
                        assert(!str_lt(s[j - 1].0, s[p].0));
                    }
                    lemma_str_lt_transitive(s[j - 1].0, x.0, s[p].0);
                    if j - 1 == p {
                        lemma_str_lt_irreflexive(s[p].0);
                    }
                }
            } else {
                assert(r[i] == s[i - 1] && r[j] == s[j - 1]);
            }
        }
        assert forall|y: ModuleView| r.contains(y) <==> ms.contains(y) by {
            if r.contains(y) {
                let k = choose|k: int| 0 <= k < r.len() && r[k] == y;
                if k < p {
                    assert(s[k] == y);
                    assert(prev.contains(y));
                    let m = choose|m: int| 0 <= m < prev.len() && prev[m] == y;
                    assert(ms[m] == y);
                } else if k == p {
                    assert(ms[ms.len() - 1] == y);
                } else {
                    assert(s[k - 1] == y);
                    assert(prev.contains(y));
                    let m = choose|m: int| 0 <= m < prev.len() && prev[m] == y;
                    assert(ms[m] == y);
                }
            }
            if ms.contains(y) {
                let m = choose|m: int| 0 <= m < ms.len() && ms[m] == y;
                if m == ms.len() - 1 {
                    assert(r[p] == y);
                } else {
                    assert(prev[m] == y);
                    assert(prev.contains(y));
                    assert(s.contains(y));
                    let k = choose|k: int| 0 <= k < s.len() && s[k] == y;
                    if k < p {
                        assert(r[k] == y);
                    } else {
                        assert(r[k + 1] == y);
                    }
                }
            }
        }
    }
}

proof fn lemma_somes(os: Seq<Option<ModuleView>>)
    ensures
        forall|x: ModuleView| somes(os).contains(x) <==> exists|i: int| 0 <= i < os.len() && os[i] == Some(x),
    decreases os.len(),
{
    if os.len() > 0 {
        let prev = os.drop_last();
        lemma_somes(prev);
        let sp = somes(prev);
        assert forall|x: ModuleView| somes(os).contains(x) implies exists|i: int|
            0 <= i < os.len() && os[i] == Some(x) by {
            let k = choose|k: int| 0 <= k < somes(os).len() && somes(os)[k] == x;
            match os.last() {
                Some(m) => {
                    assert(somes(os) == sp.push(m));
                    if k < sp.len() {
                        assert(sp[k] == x);
                        assert(sp.contains(x));
                        let i = choose|i: int| 0 <= i < prev.len() && prev[i] == Some(x);
                        assert(os[i] == Some(x));
                    } else {
                        assert(x == m);
                        assert(os[os.len() - 1] == Some(x));
                    }
                },
                None => {
                    assert(somes(os) == sp);
                    assert(sp[k] == x);
                    assert(sp.contains(x));
                    let i = choose|i: int| 0 <= i < prev.len() && prev[i] == Some(x);
                    assert(os[i] == Some(x));
                },
            }
        }
        assert forall|x: ModuleView| (exists|i: int| 0 <= i < os.len() && os[i] == Some(x)) implies somes(
            os,
        ).contains(x) by {
            let i = choose|i: int| 0 <= i < os.len() && os[i] == Some(x);
            if i < os.len() - 1 {
                assert(prev[i] == Some(x));
                assert(exists|i: int| 0 <= i < prev.len() && prev[i] == Some(x));
                assert(sp.contains(x));
                let k = choose|k: int| 0 <= k < sp.len() && sp[k] == x;
                match os.last() {
                    Some(m) => {
                        assert(somes(os) == sp.push(m));
                        assert(somes(os)[k] == x);
                    },
                    None => {
                        assert(somes(os) == sp);
                        assert(somes(os)[k] == x);
                    },
                }
            } else {
                match os.last() {
                    Some(m) => {
                        assert(somes(os) == sp.push(m));
                        assert(somes(os)[sp.len() as int] == x);
                    },
                    None => {},
                }
            }
        }
    }
}

/// A directory never declares one module name twice: the modules it
/// declares come sorted by name, each name strictly after the one before.
pub proof fn law_declared_names_are_distinct(
    dir: Seq<char>,
    rel: Seq<char>,
    files: Seq<ListedFile>,
    dirs: Seq<ListedDir>,
    ex: Seq<Seq<char>>,
)
    ensures
        level_result(dir, rel, files, dirs, ex) matches Ok(v) ==> forall|i: int, j: int|
            0 <= i < j < v.len() ==> str_lt(#[trigger] v[i].0, #[trigger] v[j].0),
{
    let cands = somes(files.map_values(|f: ListedFile| file_candidate(rel, f, ex))) + somes(
        dirs.map_values(|d: ListedDir| dir_candidate(rel, d, ex)),
    );
    let v = sort_by_name(cands);
    lemma_sort_sorted(cands);
    if first_adjacent_dup(v) is None {
        assert(forall|k: int| !#[trigger] adj_dup(v, k));
        assert forall|i: int, j: int| 0 <= i < j < v.len() implies str_lt(#[trigger] v[i].0, #[trigger] v[j].0) by {
            assert(!str_lt(v[j].0, v[i].0));
            if v[i].0 == v[j].0 {
                assert(!str_lt(v[i + 1].0, v[i].0));
                if i + 1 < j {
                    assert(!str_lt(v[j].0, v[i + 1].0));
                }
                if v[i + 1].0 != v[i].0 {
                    lemma_str_lt_total(v[i + 1].0, v[i].0);
                }
                assert(adj_dup(v, i));
            } else {
                lemma_str_lt_total(v[i].0, v[j].0);
            }
        }
    }
}

/// What a directory declares is exactly what its entries offer: each module
/// comes from a `.sn` file that is neither excluded, a directory's own
/// `mod.sn`, nor the file being built, or from a subdirectory that is not
/// excluded; and every such file or subdirectory is declared.
pub proof fn law_declared_modules_are_the_candidates(
    dir: Seq<char>,
    rel: Seq<char>,
    files: Seq<ListedFile>,
    dirs: Seq<ListedDir>,
    ex: Seq<Seq<char>>,
)
    ensures
        level_result(dir, rel, files, dirs, ex) matches Ok(v) ==> forall|m: ModuleView|
            v.contains(m) <==> (exists|i: int|
                0 <= i < files.len() && #[trigger] file_candidate(rel, files[i], ex) == Some(m)) || (
            exists|i: int| 0 <= i < dirs.len() && #[trigger] dir_candidate(rel, dirs[i], ex) == Some(m)),
{
    let fo = files.map_values(|f: ListedFile| file_candidate(rel, f, ex));
    let dop = dirs.map_values(|d: ListedDir| dir_candidate(rel, d, ex));
    let cands = somes(fo) + somes(dop);
    lemma_sort_sorted(cands);
    lemma_somes(fo);
    lemma_somes(dop);
    assert forall|m: ModuleView| cands.contains(m) <==> (exists|i: int|
        0 <= i < files.len() && #[trigger] file_candidate(rel, files[i], ex) == Some(m)) || (exists|i: int|
        0 <= i < dirs.len() && #[trigger] dir_candidate(rel, dirs[i], ex) == Some(m)) by {
        if cands.contains(m) {
            let k = choose|k: int| 0 <= k < cands.len() && cands[k] == m;
            if k < somes(fo).len() {
                assert(somes(fo).contains(m));
                let i = choose|i: int| 0 <= i < fo.len() && fo[i] == Some(m);
                assert(file_candidate(rel, files[i], ex) == Some(m));
            } else {
                assert(somes(dop)[k - somes(fo).len()] == m);
                assert(somes(dop).contains(m));
                let i = choose|i: int| 0 <= i < dop.len() && dop[i] == Some(m);
                assert(dir_candidate(rel, dirs[i], ex) == Some(m));
            }
        }
        if exists|i: int| 0 <= i < files.len() && #[trigger] file_candidate(rel, files[i], ex) == Some(m) {
            let i = choose|i: int| 0 <= i < files.len() && #[trigger] file_candidate(rel, files[i], ex) == Some(m);
            assert(fo[i] == Some(m));
            assert(somes(fo).contains(m));
            let k = choose|k: int| 0 <= k < somes(fo).len() && somes(fo)[k] == m;
            assert(cands[k] == m);
        }
        if exists|i: int| 0 <= i < dirs.len() && #[trigger] dir_candidate(rel, dirs[i], ex) == Some(m) {
            let i = choose|i: int| 0 <= i < dirs.len() && #[trigger] dir_candidate(rel, dirs[i], ex) == Some(m);
            assert(dop[i] == Some(m));
            assert(somes(dop).contains(m));
            let k = choose|k: int| 0 <= k < somes(dop).len() && somes(dop)[k] == m;
            assert(cands[somes(fo).len() + k] == m);
        }
    }
    if level_result(dir, rel, files, dirs, ex) is Ok {
        let v = level_result(dir, rel, files, dirs, ex)->Ok_0;
        assert(v == sort_by_name(cands));
        assert forall|m: ModuleView| v.contains(m) <==> (exists|i: int|
            0 <= i < files.len() && #[trigger] file_candidate(rel, files[i], ex) == Some(m)) || (
        exists|i: int| 0 <= i < dirs.len() && #[trigger] dir_candidate(rel, dirs[i], ex) == Some(m)) by {
            assert(sort_by_name(cands).contains(m) <==> cands.contains(m));
        }
    }
}

fn str_lt_exec(a: &str, b: &str) -> (r: bool)
    ensures
        r == str_lt(a@, b@),
{
    let av = chars_of(a);
    let bv = chars_of(b);
    let mut i: usize = 0;
    assert(av@.subrange(0, av@.len() as int) =~= av@);
    assert(bv@.subrange(0, bv@.len() as int) =~= bv@);
    loop
        invariant
            av@ == a@,
            bv@ == b@,
            i <= av@.len(),
            i <= bv@.len(),
            str_lt(a@, b@) == str_lt(av@.subrange(i as int, av@.len() as int), bv@.subrange(i as int, bv@.len() as int)),
        decreases av@.len() - i,
    {
        let ghost x = av@.subrange(i as int, av@.len() as int);
        let ghost y = bv@.subrange(i as int, bv@.len() as int);
        if i == bv.len() {
            return false;
        }
        if i == av.len() {
            return true;
        }
        if av[i] < bv[i] {
            return true;
        }
        if av[i] != bv[i] {
            return false;
        }
        assert(x.drop_first() =~= av@.subrange(i + 1, av@.len() as int));
        assert(y.drop_first() =~= bv@.subrange(i + 1, bv@.len() as int));
        i = i + 1;
    }
}

proof fn lemma_insert_pos_step(s: Seq<ModuleView>, i: int, n: Seq<char>)
    requires
        0 <= i < s.len(),
        !str_lt(n, s[i].0),
    ensures
        insert_pos(s.subrange(i, s.len() as int), n) == 1 + insert_pos(s.subrange(i + 1, s.len() as int), n),
{
    assert(s.subrange(i, s.len() as int).drop_first() =~= s.subrange(i + 1, s.len() as int));
}

/// Inserts `m` into the name-sorted `sorted` after every module whose name
/// does not sort after its own.
fn insert_sorted(sorted: &mut Vec<Module>, m: Module)
    ensures
        mviews(final(sorted)@) == mviews(old(sorted)@).insert(
            insert_pos(mviews(old(sorted)@), m.name@),
            mview(m),
        ),
{
    let ghost s = mviews(sorted@);
    let mut i: usize = 0;
    assert(s.subrange(0, s.len() as int) =~= s);
    while i < sorted.len() && !str_lt_exec(m.name.as_str(), sorted[i].name.as_str())
        invariant
            i <= sorted@.len(),
            s == mviews(sorted@),
            insert_pos(s, m.name@) == i + insert_pos(s.subrange(i as int, s.len() as int), m.name@),
        decreases sorted@.len() - i,
    {
        proof {
            lemma_insert_pos_step(s, i as int, m.name@);
        }
        i = i + 1;
    }
    assert(insert_pos(s.subrange(i as int, s.len() as int), m.name@) == 0);
    let ghost mv = mview(m);
    sorted.insert(i, m);
    assert(mviews(sorted@) =~= s.insert(i as int, mv));
}

fn clone_str_opt(o: &Option<String>) -> (r: Option<String>)
    ensures
        opt_str(r) == opt_str(*o),
{
    match o {
        Some(s) => Some(s.clone()),
        None => None,
    }
}

fn ends_with_str(s: &str, suffix: &str) -> (r: bool)
    ensures
        r == ends_with(s@, suffix@),
{
    let sv = chars_of(s);
    let fv = chars_of(suffix);
    if fv.len() > sv.len() {
        return false;
    }
    let r = crate::text::occurs_at_exec(&sv, &fv, sv.len() - fv.len());
    r
}

/// The module a `.sn` file declares, if any.
fn file_module(rel: &str, f: &ListedFile, exclude: &[String]) -> (r: Option<Module>)
    ensures
        match r {
            Some(m) => file_candidate(rel@, *f, exclude@.map_values(|s: String| s@)) == Some(mview(m)),
            None => file_candidate(rel@, *f, exclude@.map_values(|s: String| s@)) is None,
        },
{
    let fv = chars_of(f.file_name.as_str());
    proof {
        reveal_strlit(".sn");
    }
    let stem = if ends_with_str(f.file_name.as_str(), ".sn") && fv.len() > 3 {
        string_of_range(&fv, 0, fv.len() - 3)
    } else {
        f.file_name.clone()
    };
    assert(stem@ == stem_of(f.file_name@));
    let child_rel = join_path_str(rel, f.file_name.as_str());
    if str_eq(stem.as_str(), "mod") || is_excluded(child_rel.as_str(), exclude) || f.is_entry {
        return None;
    }
    let children: Vec<Module> = Vec::new();
    let m = Module {
        name: module_name(stem.as_str()),
        source: Some(f.path.clone()),
        is_test: ends_with_str(stem.as_str(), "_test"),
        children,
    };
    assert(m.children@ =~= Seq::<Module>::empty());
    Some(m)
}

/// The module a subdirectory declares, if any.
fn dir_module(rel: &str, d: ListedDir, exclude: &[String]) -> (r: Option<Module>)
    ensures
        match r {
            Some(m) => dir_candidate(rel@, d, exclude@.map_values(|s: String| s@)) == Some(mview(m)),
            None => dir_candidate(rel@, d, exclude@.map_values(|s: String| s@)) is None,
        },
{
    let ghost d0 = d;
    let child_rel = join_path_str(rel, d.name.as_str());
    if is_excluded(child_rel.as_str(), exclude) {
        return None;
    }
    let mod_rel = join_path_str(child_rel.as_str(), "mod.sn");
    let source = match &d.mod_sn {
        Some(p) => if !is_excluded(mod_rel.as_str(), exclude) && !d.mod_is_entry {
            Some(p.clone())
        } else {
            None
        },
        None => None,
    };
    let no_source = match &source {
        Some(_) => false,
        None => true,
    };
    if d.children.len() == 0 && no_source {
        return None;
    }
    let ListedDir { name, children, mod_sn: _, mod_is_entry: _ } = d;
    let m = Module { name: module_name(name.as_str()), source, is_test: false, children };
    Some(m)
}

proof fn lemma_somes_push(os: Seq<Option<ModuleView>>, o: Option<ModuleView>)
    ensures
        somes(os.push(o)) == match o {
            Some(m) => somes(os).push(m),
            None => somes(os),
        },
{
    assert(os.push(o).drop_last() =~= os);
}

proof fn lemma_first_adjacent_dup(s: Seq<ModuleView>, k: int)
    requires
        adj_dup(s, k),
        forall|j: int| 0 <= j < k ==> !#[trigger] adj_dup(s, j),
    ensures
        first_adjacent_dup(s) == Some(k),
{
    let m = choose|m: int| #[trigger] adj_dup(s, m) && forall|j: int| 0 <= j < m ==> !#[trigger] adj_dup(s, j);
    if m < k {
        assert(!adj_dup(s, m));
    }
    if k < m {
        assert(!adj_dup(s, k));
    }
}

fn add_file_modules(sorted: &mut Vec<Module>, rel: &str, files: &Vec<ListedFile>, exclude: &[String], Ghost(c0): Ghost<Seq<ModuleView>>)
    requires
        mviews(old(sorted)@) == sort_by_name(c0),
    ensures
        mviews(final(sorted)@) == sort_by_name(
            c0 + somes(files@.map_values(|f: ListedFile| file_candidate(rel@, f, exclude@.map_values(|s: String| s@)))),
        ),
{
    let ghost ex = exclude@.map_values(|s: String| s@);
    let ghost fc = files@.map_values(|f: ListedFile| file_candidate(rel@, f, ex));
    let ghost mut cands: Seq<ModuleView> = c0;
    let mut i: usize = 0;
    assert(fc.subrange(0, 0) =~= Seq::<Option<ModuleView>>::empty());
    assert(c0 + somes(fc.subrange(0, 0)) =~= c0);
    while i < files.len()
        invariant
            i <= files@.len(),
            ex == exclude@.map_values(|s: String| s@),
            fc == files@.map_values(|f: ListedFile| file_candidate(rel@, f, ex)),
            cands == c0 + somes(fc.subrange(0, i as int)),
            mviews(sorted@) == sort_by_name(cands),
        decreases files@.len() - i,
    {
        let o = file_module(rel, &files[i], exclude);
        proof {
            assert(fc.subrange(0, i + 1) =~= fc.subrange(0, i as int).push(fc[i as int]));
            lemma_somes_push(fc.subrange(0, i as int), fc[i as int]);
        }
        match o {
            Some(m) => {
                let ghost mv = mview(m);
                insert_sorted(sorted, m);
                proof {
                    assert(cands.push(mv).drop_last() =~= cands);
                    assert(c0 + somes(fc.subrange(0, i as int)).push(mv) =~= cands.push(mv));
                    cands = cands.push(mv);
                }
            },
            None => {},
        }
        i = i + 1;
    }
    assert(fc.subrange(0, files@.len() as int) =~= fc);
}

fn add_dir_modules(sorted: &mut Vec<Module>, rel: &str, dirs: Vec<ListedDir>, exclude: &[String], Ghost(c0): Ghost<Seq<ModuleView>>)
    requires
        mviews(old(sorted)@) == sort_by_name(c0),
    ensures
        mviews(final(sorted)@) == sort_by_name(
            c0 + somes(dirs@.map_values(|d: ListedDir| dir_candidate(rel@, d, exclude@.map_values(|s: String| s@)))),
        ),
{
    let ghost ex = exclude@.map_values(|s: String| s@);
    let ghost dc = dirs@.map_values(|d: ListedDir| dir_candidate(rel@, d, ex));
    let ghost mut cands: Seq<ModuleView> = c0;
    let mut rest = dirs;
    let ghost mut taken: Seq<Option<ModuleView>> = Seq::empty();
    assert(dc =~= taken + rest@.map_values(|d: ListedDir| dir_candidate(rel@, d, ex)));
    assert(c0 + somes(taken) =~= c0);
    while rest.len() > 0
        invariant
            ex == exclude@.map_values(|s: String| s@),
            dc == taken + rest@.map_values(|d: ListedDir| dir_candidate(rel@, d, ex)),
            cands == c0 + somes(taken),
            mviews(sorted@) == sort_by_name(cands),
        decreases rest@.len(),
    {
        let ghost r0 = rest@;
        let d = rest.remove(0);
        let ghost dv = dir_candidate(rel@, d, ex);
        let o = dir_module(rel, d, exclude);
        proof {
            lemma_somes_push(taken, dv);
            assert(r0.map_values(|d: ListedDir| dir_candidate(rel@, d, ex)) =~= seq![dv] + rest@.map_values(
                |d: ListedDir| dir_candidate(rel@, d, ex),
            ));
        }
        match o {
            Some(m) => {
                let ghost mv = mview(m);
                insert_sorted(sorted, m);
                proof {
                    assert(cands.push(mv).drop_last() =~= cands);
                    assert(c0 + somes(taken).push(mv) =~= cands.push(mv));
                    cands = cands.push(mv);
                }
            },
            None => {},
        }
        proof {
            assert(taken.push(dv) + rest@.map_values(|d: ListedDir| dir_candidate(rel@, d, ex)) =~= dc);
            taken = taken.push(dv);
        }
    }
    assert(taken =~= dc);
}

/// What one directory declares, given its `.sn` files and its walked
/// subdirectories: their modules sorted by name, or an error when two of
/// them would declare the same module (`foo.sn` beside `foo/`).
pub fn assemble_level(dir: &str, rel: &str, files: &Vec<ListedFile>, dirs: Vec<ListedDir>, exclude: &[String]) -> (r: Result<Vec<Module>, String>)
    ensures
        match level_result(dir@, rel@, files@, dirs@, exclude@.map_values(|s: String| s@)) {
            Ok(v) => r matches Ok(ms) && mviews(ms@) == v,
            Err(e) => r matches Err(m) && m@ == e,
        },
{
    let mut sorted: Vec<Module> = Vec::new();
    assert(mviews(sorted@) =~= sort_by_name(Seq::empty()));
    add_file_modules(&mut sorted, rel, files, exclude, Ghost(Seq::empty()));
    let ghost c1 = Seq::<ModuleView>::empty() + somes(
        files@.map_values(|f: ListedFile| file_candidate(rel@, f, exclude@.map_values(|s: String| s@))),
    );
    let ghost d0 = dirs@;
    add_dir_modules(&mut sorted, rel, dirs, exclude, Ghost(c1));
    assert(c1 + somes(d0.map_values(|d: ListedDir| dir_candidate(rel@, d, exclude@.map_values(|s: String| s@))))
        =~= somes(files@.map_values(|f: ListedFile| file_candidate(rel@, f, exclude@.map_values(|s: String| s@))))
        + somes(d0.map_values(|d: ListedDir| dir_candidate(rel@, d, exclude@.map_values(|s: String| s@)))));
    // `foo.sn` beside `foo/` would generate two modules with one name.
    match first_duplicate(&sorted) {
        Some(k) => {
            let mut msg = String::from_str("error: `");
            msg.append(dir);
            msg.append("` declares the module `");
            msg.append(sorted[k].name.as_str());
            msg.append("` twice; rename one of the files");
            Err(msg)
        },
        None => Ok(sorted),
    }
}

/// The first position whose module name equals the next one's.
fn first_duplicate(sorted: &Vec<Module>) -> (r: Option<usize>)
    ensures
        r matches Some(k) ==> k < sorted@.len() && first_adjacent_dup(mviews(sorted@)) == Some(k as int),
        r is None ==> first_adjacent_dup(mviews(sorted@)) is None,
{
    let ghost sv = mviews(sorted@);
    let n = sorted.len();
    if n == 0 {
        assert(forall|j: int| !#[trigger] adj_dup(sv, j));
        return None;
    }
    let mut k: usize = 0;
    while k < n - 1
        invariant
            n == sorted@.len(),
            n > 0,
            sv == mviews(sorted@),
            k <= n - 1,
            forall|j: int| 0 <= j < k ==> !#[trigger] adj_dup(sv, j),
        decreases n - k,
    {
        assert(sv[k as int].0 == sorted@[k as int].name@);
        assert(sv[k + 1].0 == sorted@[k + 1].name@);
        if str_eq(sorted[k].name.as_str(), sorted[k + 1].name.as_str()) {
            proof {
                assert(adj_dup(sv, k as int));
                lemma_first_adjacent_dup(sv, k as int);
            }
            return Some(k);
        }
        k = k + 1;
    }
    assert(forall|j: int| !#[trigger] adj_dup(sv, j));
    None
}

/// `path` is `dir` or lies under it (both canonical: absolute, without `.`
/// components or repeated separators).
pub open spec fn path_within(path: Seq<char>, dir: Seq<char>) -> bool {
    path == dir || (dir.len() > 0 && dir.last() == '/' && starts_with(path, dir)) || starts_with(
        path,
        dir + "/"@,
    )
}

/// Whether the file being built lives in the package's `src/` directory,
/// which is when discovery is on.
pub fn path_within_dir(path: &str, dir: &str) -> (r: bool)
    ensures
        r == path_within(path@, dir@),
{
    if str_eq(path, dir) {
        return true;
    }
    let n = dir.unicode_len();
    if n > 0 && dir.get_char(n - 1) == '/' && crate::text::starts_with_str(path, dir) {
        return true;
    }
    let mut d = String::from_str(dir);
    d.append("/");
    crate::text::starts_with_str(path, d.as_str())
}

} // verus!
