//! Rust source generator for TinyS.
//!
//! Walks the [`ast::Program`] and produces readable, deterministic Rust source.
//! A light pre-scan collects struct field types, function signatures, and import
//! aliases so a few surface conveniences (owned-string coercion, `::` vs `.`
//! member access, macro names) can be resolved without a full type checker.

use vstd::prelude::*;
use crate::ast::{
    items_wf, lemma_items_wf_at, program_wf, function_wf, functions_wf, lemma_functions_wf_at, args_wf, cond_arms_wf, expr_wf, exprs_wf, lemma_args_wf_at, lemma_cond_arms_wf_at,
    lemma_exprs_wf_at, lemma_match_arms_wf_at, lemma_pairs_wf_at, lemma_params_wf_at,
    lemma_stmts_wf_at, match_arms_wf, opt_type_wf, pairs_wf, params_wf, stmt_wf, stmts_wf,
    fields_wf, lemma_fields_wf_at, lemma_variants_wf_at, variants_wf, type_wf, types_wf, Arg,
    Variant, AssignOp, Attr, BinaryOp, Borrow, CondKind, Enum, Expr, Field, Function, GenericParam,
    IfExpr, Impl, Item, MatchArm, MatchExpr, Param, Pattern, Program, Stmt, Struct, Trait, Type,
    UnaryOp, Use, UseName,
};
use crate::text::{
    lines_from, line_end, lemma_line_end, char_is_uppercase, chars_of, contains_seq, contains_str, decimal_int, push_char,
    push_decimal_i64, push_str, str_eq, unicode_uppercase,
};

verus! {

/// A `mod` declaration synthesized from the file tree.
///
/// TinyS has no `mod` keyword: submodules are derived from the `.sn` files next
/// to their parent, and the compiler writes these declarations itself.
#[derive(Debug, Clone)]
pub struct ChildModule {
    pub name: String,
    /// Declared `#[cfg(test)]`, from a `_test.sn` file.
    pub cfg_test: bool,
}

// ---- text helpers -------------------------------------------------------------

/// `s` joined by `sep`.
pub open spec fn join(parts: Seq<Seq<char>>, sep: Seq<char>) -> Seq<char>
    decreases parts.len(),
{
    if parts.len() == 0 {
        Seq::<char>::empty()
    } else if parts.len() == 1 {
        parts[0]
    } else {
        join(parts.drop_last(), sep) + sep + parts.last()
    }
}

proof fn lemma_join_push(parts: Seq<Seq<char>>, sep: Seq<char>, p: Seq<char>)
    ensures
        join(parts.push(p), sep) == if parts.len() == 0 {
            p
        } else {
            join(parts, sep) + sep + p
        },
{
    assert(parts.push(p).drop_last() =~= parts);
}

/// `s.repeat(n)` for a four-space pad.
pub open spec fn pad(level: nat) -> Seq<char>
    decreases level,
{
    if level == 0 {
        Seq::<char>::empty()
    } else {
        pad((level - 1) as nat) + "    "@
    }
}

/// Each non-empty line of `s` prefixed by `level` pads, the lines joined by `\n`.
pub open spec fn indent_spec(s: Seq<char>, level: nat) -> Seq<char> {
    join(lines_from(s, 0).map_values(|l: Seq<char>| pad_line(level, l)), seq!['\n'])
}

fn push_pad(out: &mut String, level: usize)
    ensures
        final(out)@ == old(out)@ + pad(level as nat),
    decreases level,
{
    if level > 0 {
        push_pad(out, level - 1);
        out.append("    ");
        assert(final(out)@ =~= old(out)@ + pad(level as nat));
    }
}

pub open spec fn pad_line(level: nat, l: Seq<char>) -> Seq<char> {
    if l.len() == 0 {
        l
    } else {
        pad(level) + l
    }
}

/// Indents every non-empty line of `text` by `level` steps of four spaces,
/// as the generated Rust is laid out.
pub fn indent(text: &str, level: usize) -> (r: String)
    ensures
        r@ == indent_spec(text@, level as nat),
{
    let cs = chars_of(text);
    let ghost s = cs@;
    let ghost f = |l: Seq<char>| pad_line(level as nat, l);
    let mut out = String::new();
    let mut i: usize = 0;
    let mut first = true;
    let ghost mut done: Seq<Seq<char>> = Seq::empty();
    assert(lines_from(s, 0) =~= done + lines_from(s, 0));
    while i < cs.len()
        invariant
            s == cs@,
            s == text@,
            i <= s.len(),
            f == (|l: Seq<char>| pad_line(level as nat, l)),
            lines_from(s, 0) == done + lines_from(s, i as int),
            out@ == join(done.map_values(f), seq!['\n']),
            first == (done.len() == 0),
        decreases s.len() - i,
    {
        let start = i;
        while i < cs.len() && cs[i] != '\n'
            invariant
                s == cs@,
                start <= i <= s.len(),
                line_end(s, start as int) == line_end(s, i as int),
            decreases s.len() - i,
        {
            i = i + 1;
        }
        let e = i;
        let mut end = e;
        if e < cs.len() && e > start && cs[e - 1] == '\r' {
            end = e - 1;
        }
        let ghost line = s.subrange(start as int, end as int);
        let ghost next = if e < s.len() { e + 1 } else { e as int };
        assert(lines_from(s, start as int) == seq![line] + lines_from(s, next)) by {
            if e < s.len() {
                if e > start && s[e - 1] == '\r' {
                    assert(s.subrange(start as int, e as int).drop_last() =~= s.subrange(
                        start as int,
                        e - 1,
                    ));
                }
            } else {
                assert(lines_from(s, next) =~= Seq::<Seq<char>>::empty());
                assert(seq![line] + lines_from(s, next) =~= seq![line]);
            }
        }
        let ghost prev = out@;
        if !first {
            push_char(&mut out, '\n');
        }
        first = false;
        let ghost sep_added = out@;
        if end > start {
            push_pad(&mut out, level);
            let ghost b = out@;
            let mut k = start;
            while k < end
                invariant
                    s == cs@,
                    start <= k <= end,
                    end <= s.len(),
                    out@ == b + s.subrange(start as int, k as int),
                decreases end - k,
            {
                push_char(&mut out, cs[k]);
                k = k + 1;
                assert(out@ =~= b + s.subrange(start as int, k as int));
            }
            assert(out@ =~= sep_added + pad_line(level as nat, line));
        } else {
            assert(line.len() == 0);
            assert(out@ =~= sep_added + pad_line(level as nat, line));
        }
        proof {
            lemma_join_push(done.map_values(f), seq!['\n'], f(line));
            assert(done.push(line).map_values(f) =~= done.map_values(f).push(f(line)));
            assert(lines_from(s, 0) =~= done.push(line) + lines_from(s, next));
            done = done.push(line);
        }
        if e < cs.len() {
            i = e + 1;
        } else {
            i = e;
        }
    }
    assert(lines_from(s, i as int) =~= Seq::<Seq<char>>::empty());
    assert(done =~= lines_from(s, 0));
    assert(done.map_values(f) =~= lines_from(s, 0).map_values(
        |l: Seq<char>| pad_line(level as nat, l),
    ));
    out
}

// ---- names ----------------------------------------------------------------------

pub open spec fn starts_upper_spec(s: Seq<char>) -> bool {
    s.len() > 0 && unicode_uppercase(s[0])
}

/// Whether a name starts with an uppercase letter (a type or variant name).
pub fn starts_upper(s: &str) -> (r: bool)
    ensures
        r == starts_upper_spec(s@),
{
    if s.unicode_len() == 0 {
        false
    } else {
        char_is_uppercase(s.get_char(0))
    }
}

/// The Rust spelling of a one-segment TinyS type name.
pub open spec fn map_type_name_spec(n: Seq<char>) -> Seq<char> {
    if n == "str"@ {
        "String"@
    } else if n == "void"@ {
        "()"@
    } else if n == "list"@ {
        "Vec"@
    } else if n == "dict"@ {
        "HashMap"@
    } else if n == "set"@ {
        "HashSet"@
    } else {
        n
    }
}

/// A collection type is the same Rust type whether it is written by its
/// TinyS name or by its Rust name: `list` and `Vec` give `Vec`, `dict` and
/// `HashMap` give `HashMap`, `set` and `HashSet` give `HashSet`, and no other
/// name gives any of these; likewise `str` and `String` give `String`, and
/// `void` and `()` give `()`.
pub proof fn law_collection_names_map_to_their_rust_types(n: Seq<char>)
    ensures
        map_type_name_spec(n) == "Vec"@ <==> (n == "list"@ || n == "Vec"@),
        map_type_name_spec(n) == "HashMap"@ <==> (n == "dict"@ || n == "HashMap"@),
        map_type_name_spec(n) == "HashSet"@ <==> (n == "set"@ || n == "HashSet"@),
        map_type_name_spec(n) == "String"@ <==> (n == "str"@ || n == "String"@),
        map_type_name_spec(n) == "()"@ <==> (n == "void"@ || n == "()"@),
{
    reveal_strlit("str");
    reveal_strlit("void");
    reveal_strlit("list");
    reveal_strlit("dict");
    reveal_strlit("set");
    reveal_strlit("String");
    reveal_strlit("()");
    reveal_strlit("Vec");
    reveal_strlit("HashMap");
    reveal_strlit("HashSet");
    assert("str"@.len() == 3);
    assert("void"@.len() == 4);
    assert("list"@.len() == 4);
    assert("dict"@.len() == 4);
    assert("set"@.len() == 3);
    assert("String"@.len() == 6);
    assert("()"@.len() == 2);
    assert("Vec"@.len() == 3);
    assert("HashMap"@.len() == 7);
    assert("HashSet"@.len() == 7);
    assert("HashMap"@[4] != "HashSet"@[4]);
    assert("str"@[1] != "set"@[1]);
    assert("str"@[0] != "Vec"@[0]);
    assert("set"@[0] != "Vec"@[0]);
    assert("void"@[0] != "list"@[0]);
    assert("void"@[0] != "dict"@[0]);
    assert("list"@[0] != "dict"@[0]);
    let r = map_type_name_spec(n);
    if n == "str"@ {
        assert(r == "String"@);
    } else if n == "void"@ {
        assert(r == "()"@);
    } else if n == "list"@ {
        assert(r == "Vec"@);
    } else if n == "dict"@ {
        assert(r == "HashMap"@);
    } else if n == "set"@ {
        assert(r == "HashSet"@);
    } else {
        assert(r == n);
    }
}

pub fn map_type_name(name: &str) -> (r: String)
    ensures
        r@ == map_type_name_spec(name@),
{
    if str_eq(name, "str") {
        String::from_str("String")
    } else if str_eq(name, "void") {
        String::from_str("()")
    } else if str_eq(name, "list") {
        String::from_str("Vec")
    } else if str_eq(name, "dict") {
        String::from_str("HashMap")
    } else if str_eq(name, "set") {
        String::from_str("HashSet")
    } else {
        String::from_str(name)
    }
}

/// The binding strength of a binary operator; a higher number binds tighter.
pub open spec fn spec_binop_prec(op: BinaryOp) -> u8 {
    match op {
        BinaryOp::Or => 1,
        BinaryOp::And => 2,
        BinaryOp::Eq | BinaryOp::Ne | BinaryOp::Lt | BinaryOp::Gt | BinaryOp::Le
        | BinaryOp::Ge => 3,
        BinaryOp::Add | BinaryOp::Sub => 4,
        BinaryOp::Mul | BinaryOp::Div | BinaryOp::Rem => 5,
    }
}

pub fn binop_prec(op: BinaryOp) -> (r: u8)
    ensures
        r == spec_binop_prec(op),
{
    match op {
        BinaryOp::Or => 1,
        BinaryOp::And => 2,
        BinaryOp::Eq | BinaryOp::Ne | BinaryOp::Lt | BinaryOp::Gt | BinaryOp::Le
        | BinaryOp::Ge => 3,
        BinaryOp::Add | BinaryOp::Sub => 4,
        BinaryOp::Mul | BinaryOp::Div | BinaryOp::Rem => 5,
    }
}

/// A lookup table as the generator sees it: keys and values by their text.
pub type Pairs = Seq<(Seq<char>, Seq<char>)>;

pub open spec fn pair_views(m: Seq<(String, String)>) -> Pairs {
    m.map_values(|p: (String, String)| (p.0@, p.1@))
}

/// The value a table maps `k` to; a later entry overrides an earlier one.
pub open spec fn lookup<V>(m: Seq<(Seq<char>, V)>, k: Seq<char>) -> Option<V>
    decreases m.len(),
{
    if m.len() == 0 {
        None
    } else if m.last().0 == k {
        Some(m.last().1)
    } else {
        lookup(m.drop_last(), k)
    }
}

fn lookup_in(m: &Vec<(String, String)>, k: &str) -> (r: Option<String>)
    ensures
        r matches Some(v) ==> lookup(pair_views(m@), k@) == Some(v@),
        r is None ==> lookup(pair_views(m@), k@) is None,
{
    let mut i = m.len();
    assert(pair_views(m@.subrange(0, i as int)) =~= pair_views(m@));
    while i > 0
        invariant
            i <= m@.len(),
            lookup(pair_views(m@), k@) == lookup(pair_views(m@.subrange(0, i as int)), k@),
        decreases i,
    {
        assert(pair_views(m@.subrange(0, i as int)).drop_last() =~= pair_views(
            m@.subrange(0, i - 1),
        ));
        if str_eq(m[i - 1].0.as_str(), k) {
            return Some(m[i - 1].1.clone());
        }
        i = i - 1;
    }
    None
}

pub open spec fn contains_name(names: Seq<String>, k: Seq<char>) -> bool {
    exists|i: int| 0 <= i < names.len() && names[i]@ == k
}

fn has_name(names: &Vec<String>, k: &str) -> (r: bool)
    ensures
        r == contains_name(names@, k@),
{
    let mut i: usize = 0;
    while i < names.len()
        invariant
            i <= names@.len(),
            forall|j: int| 0 <= j < i ==> names@[j]@ != k@,
        decreases names@.len() - i,
    {
        if str_eq(names[i].as_str(), k) {
            return true;
        }
        i = i + 1;
    }
    false
}

// ---- types ----------------------------------------------------------------------

pub open spec fn views(ss: Seq<String>) -> Seq<Seq<char>> {
    ss.map_values(|s: String| s@)
}

/// The path segments of a type with the first replaced by what an import
/// alias names.
pub open spec fn aliased_segments(al: Pairs, segs: Seq<String>) -> Seq<Seq<char>> {
    match lookup(al, segs[0]@) {
        Some(target) => views(segs).update(0, target),
        None => views(segs),
    }
}

pub open spec fn is_single(segs: Seq<String>, name: Seq<char>) -> bool {
    segs.len() == 1 && segs[0]@ == name
}

/// The Rust text of a constant array length.
pub open spec fn const_rust(e: Expr) -> Seq<char> {
    match e {
        Expr::Int(n) => decimal_int(n as int),
        Expr::Ident(s) => s@,
        _ => "0"@,
    }
}

pub open spec fn lifetime_prefix(l: Option<String>) -> Seq<char> {
    match l {
        Some(l) => "'"@ + l@ + " "@,
        None => Seq::<char>::empty(),
    }
}

pub open spec fn mut_prefix(m: bool) -> Seq<char> {
    if m {
        "mut "@
    } else {
        Seq::<char>::empty()
    }
}

/// The Rust text of a type.
pub open spec fn type_rust(al: Pairs, t: Type) -> Seq<char>
    decreases t,
{
    match t {
        Type::Unit => "()"@,
        Type::Path { segments, args } => {
            if segments@.len() == 1 && segments@[0]@.len() > 0 && segments@[0]@[0] == '\'' {
                segments@[0]@
            } else {
                let base = if segments@.len() == 1 {
                    map_type_name_spec(segments@[0]@)
                } else {
                    join(aliased_segments(al, segments@), "::"@)
                };
                if args@.len() == 0 {
                    base
                } else {
                    base + "<"@ + types_rust(al, args@) + ">"@
                }
            }
        },
        Type::Ref { mutable, lifetime, inner } => "&"@ + lifetime_prefix(lifetime) + mut_prefix(
            mutable,
        ) + (match *inner {
            Type::Path { segments, args } => if args@.len() == 0 && is_single(segments@, "str"@) {
                "str"@
            } else {
                type_rust(al, *inner)
            },
            _ => type_rust(al, *inner),
        }),
        Type::Tuple(elems) => "("@ + types_rust(al, elems@) + ")"@,
        Type::Array { elem, len } => "["@ + type_rust(al, *elem) + "; "@ + const_rust(*len) + "]"@,
        Type::Slice(inner) => "["@ + type_rust(al, *inner) + "]"@,
    }
}

/// Types joined by `, `.
pub open spec fn types_rust(al: Pairs, ts: Seq<Type>) -> Seq<char>
    decreases ts,
{
    if ts.len() == 0 {
        Seq::<char>::empty()
    } else if ts.len() == 1 {
        type_rust(al, ts[0])
    } else {
        types_rust(al, ts.subrange(0, ts.len() - 1)) + ", "@ + type_rust(al, ts[ts.len() - 1])
    }
}

fn gen_expr_const(e: &Expr) -> (r: String)
    ensures
        r@ == const_rust(*e),
{
    match e {
        Expr::Int(n) => crate::text::i64_to_string(*n),
        Expr::Ident(s) => s.clone(),
        _ => String::from_str("0"),
    }
}

/// Appends the path segments joined by `::`, the first replaced by the real
/// path an import alias names.
fn push_aliased_path(out: &mut String, al: &Vec<(String, String)>, segments: &Vec<String>)
    requires
        segments@.len() > 0,
    ensures
        final(out)@ == old(out)@ + join(aliased_segments(pair_views(al@), segments@), "::"@),
{
    let first = match lookup_in(al, segments[0].as_str()) {
        Some(target) => target,
        None => segments[0].clone(),
    };
    let ghost parts = aliased_segments(pair_views(al@), segments@);
    let mut acc = first;
    let mut i: usize = 1;
    assert(parts.subrange(0, 1) =~= seq![parts[0]]);
    while i < segments.len()
        invariant
            1 <= i <= segments@.len(),
            parts == aliased_segments(pair_views(al@), segments@),
            parts.len() == segments@.len(),
            forall|j: int| 1 <= j < parts.len() ==> parts[j] == segments@[j]@,
            acc@ == join(parts.subrange(0, i as int), "::"@),
        decreases segments@.len() - i,
    {
        acc.append("::");
        acc.append(segments[i].as_str());
        proof {
            assert(parts.subrange(0, i + 1).drop_last() =~= parts.subrange(0, i as int));
        }
        i = i + 1;
    }
    assert(parts.subrange(0, segments@.len() as int) =~= parts);
    out.append(acc.as_str());
}

/// The Rust text of a type, given the import aliases in scope.
pub fn gen_type(al: &Vec<(String, String)>, ty: &Type) -> (r: String)
    requires
        type_wf(*ty),
    ensures
        r@ == type_rust(pair_views(al@), *ty),
    decreases ty,
{
    match ty {
        Type::Unit => String::from_str("()"),
        Type::Path { segments, args } => {
            if segments.len() == 1 && segments[0].unicode_len() > 0 && segments[0].as_str().get_char(0) == '\'' {
                return segments[0].clone();
            }
            let mut out = if segments.len() == 1 {
                map_type_name(segments[0].as_str())
            } else {
                let mut o = String::new();
                push_aliased_path(&mut o, al, segments);
                o
            };
            if args.len() > 0 {
                out.append("<");
                let a = gen_types(al, args);
                out.append(a.as_str());
                out.append(">");
            }
            out
        },
        Type::Ref { mutable, lifetime, inner } => {
            let mut out = String::from_str("&");
            match lifetime {
                Some(l) => {
                    out.append("'");
                    out.append(l.as_str());
                    out.append(" ");
                },
                None => {},
            }
            if *mutable {
                out.append("mut ");
            }
            let plain_str = match &**inner {
                Type::Path { segments, args } => args.len() == 0 && segments.len() == 1 && str_eq(
                    segments[0].as_str(),
                    "str",
                ),
                _ => false,
            };
            if plain_str {
                out.append("str");
            } else {
                let t = gen_type(al, inner);
                out.append(t.as_str());
            }
            out
        },
        Type::Tuple(elems) => {
            let mut out = String::from_str("(");
            let t = gen_types(al, elems);
            out.append(t.as_str());
            out.append(")");
            out
        },
        Type::Array { elem, len } => {
            let mut out = String::from_str("[");
            let t = gen_type(al, elem);
            out.append(t.as_str());
            out.append("; ");
            let l = gen_expr_const(len);
            out.append(l.as_str());
            out.append("]");
            out
        },
        Type::Slice(inner) => {
            let mut out = String::from_str("[");
            let t = gen_type(al, inner);
            out.append(t.as_str());
            out.append("]");
            out
        },
    }
}

proof fn lemma_types_wf_prefix(ts: Seq<Type>, i: int)
    requires
        types_wf(ts),
        0 <= i <= ts.len(),
    ensures
        types_wf(ts.subrange(0, i)),
        i < ts.len() ==> type_wf(ts[i]),
    decreases ts.len() - i,
{
    if i < ts.len() {
        lemma_types_wf_prefix(ts, i + 1);
        assert(ts.subrange(0, i + 1).subrange(0, i) =~= ts.subrange(0, i));
        assert(ts.subrange(0, i + 1)[i] == ts[i]);
    } else {
        assert(ts.subrange(0, i) =~= ts);
    }
}

/// Types joined by `, `.
pub fn gen_types(al: &Vec<(String, String)>, ts: &Vec<Type>) -> (r: String)
    requires
        types_wf(ts@),
    ensures
        r@ == types_rust(pair_views(al@), ts@),
    decreases ts,
{
    let mut out = String::new();
    let mut i: usize = 0;
    while i < ts.len()
        invariant
            i <= ts@.len(),
            types_wf(ts@),
            out@ == types_rust(pair_views(al@), ts@.subrange(0, i as int)),
        decreases ts@.len() - i,
    {
        proof {
            lemma_types_wf_prefix(ts@, i as int);
        }
        if i > 0 {
            out.append(", ");
        }
        let t = gen_type(al, &ts[i]);
        out.append(t.as_str());
        proof {
            let p = ts@.subrange(0, i + 1);
            assert(p.subrange(0, i as int) =~= ts@.subrange(0, i as int));
            assert(p[i as int] == ts@[i as int]);
            if i == 0 {
                assert(out@ =~= types_rust(pair_views(al@), p));
            } else {
                assert(out@ =~= types_rust(pair_views(al@), p));
            }
        }
        i = i + 1;
    }
    assert(ts@.subrange(0, ts@.len() as int) =~= ts@);
    out
}

/// Strings joined by `sep`.
pub fn join_strings(parts: &Vec<String>, sep: &str) -> (r: String)
    ensures
        r@ == join(views(parts@), sep@),
{
    let mut out = String::new();
    let mut i: usize = 0;
    while i < parts.len()
        invariant
            i <= parts@.len(),
            out@ == join(views(parts@.subrange(0, i as int)), sep@),
        decreases parts@.len() - i,
    {
        if i > 0 {
            out.append(sep);
        }
        out.append(parts[i].as_str());
        proof {
            let p = parts@.subrange(0, i + 1);
            assert(views(p).drop_last() =~= views(parts@.subrange(0, i as int)));
            assert(views(p).last() == parts@[i as int]@);
            if i == 0 {
                assert(views(p) =~= seq![parts@[0]@]);
            }
        }
        i = i + 1;
    }
    assert(parts@.subrange(0, parts@.len() as int) =~= parts@);
    out
}

// ---- generics, attributes, imports ----------------------------------------------

pub open spec fn lifetime_strs(ps: Seq<GenericParam>) -> Seq<Seq<char>>
    decreases ps.len(),
{
    if ps.len() == 0 {
        Seq::empty()
    } else {
        let r = lifetime_strs(ps.drop_last());
        match ps.last() {
            GenericParam::Lifetime(l) => r.push("'"@ + l@),
            _ => r,
        }
    }
}

pub open spec fn type_param_strs(ps: Seq<GenericParam>) -> Seq<Seq<char>>
    decreases ps.len(),
{
    if ps.len() == 0 {
        Seq::empty()
    } else {
        let r = type_param_strs(ps.drop_last());
        match ps.last() {
            GenericParam::Type { name, bounds } => r.push(
                if bounds@.len() == 0 {
                    name@
                } else {
                    name@ + ": "@ + join(views(bounds@), " + "@)
                },
            ),
            _ => r,
        }
    }
}

/// The `<...>` list of generic parameters: lifetimes first, then types with
/// their bounds. Empty when there are none.
pub open spec fn generics_rust(ps: Seq<GenericParam>) -> Seq<char> {
    if ps.len() == 0 {
        Seq::<char>::empty()
    } else {
        "<"@ + join(lifetime_strs(ps) + type_param_strs(ps), ", "@) + ">"@
    }
}

pub fn gen_generics(params: &Vec<GenericParam>) -> (r: String)
    ensures
        r@ == generics_rust(params@),
{
    if params.len() == 0 {
        return String::new();
    }
    let mut lifetimes: Vec<String> = Vec::new();
    let mut types: Vec<String> = Vec::new();
    let mut i: usize = 0;
    while i < params.len()
        invariant
            i <= params@.len(),
            views(lifetimes@) == lifetime_strs(params@.subrange(0, i as int)),
            views(types@) == type_param_strs(params@.subrange(0, i as int)),
        decreases params@.len() - i,
    {
        let ghost p = params@.subrange(0, i + 1);
        assert(p.drop_last() =~= params@.subrange(0, i as int));
        match &params[i] {
            GenericParam::Lifetime(l) => {
                let mut s = String::from_str("'");
                s.append(l.as_str());
                lifetimes.push(s);
                assert(views(lifetimes@) =~= lifetime_strs(p));
                assert(views(types@) =~= type_param_strs(p));
            },
            GenericParam::Type { name, bounds } => {
                if bounds.len() == 0 {
                    types.push(name.clone());
                } else {
                    let mut s = name.clone();
                    s.append(": ");
                    let b = join_strings(bounds, " + ");
                    s.append(b.as_str());
                    types.push(s);
                }
                assert(views(lifetimes@) =~= lifetime_strs(p));
                assert(views(types@) =~= type_param_strs(p));
            },
        }
        i = i + 1;
    }
    assert(params@.subrange(0, params@.len() as int) =~= params@);
    let mut all = lifetimes;
    let mut k: usize = 0;
    let ghost l0 = views(all@);
    while k < types.len()
        invariant
            k <= types@.len(),
            views(all@) == l0 + views(types@.subrange(0, k as int)),
        decreases types@.len() - k,
    {
        let ghost before = all@;
        let c = types[k].clone();
        all.push(c);
        assert(views(all@) =~= views(before).push(types@[k as int]@));
        assert(views(types@.subrange(0, k + 1)) =~= views(types@.subrange(0, k as int)).push(
            types@[k as int]@,
        ));
        assert(views(all@) =~= l0 + views(types@.subrange(0, k + 1)));
        k = k + 1;
    }
    assert(types@.subrange(0, types@.len() as int) =~= types@);
    let mut out = String::from_str("<");
    let j = join_strings(&all, ", ");
    out.append(j.as_str());
    out.append(">");
    out
}

/// Each attribute on a line of its own, `#[...]`.
pub open spec fn attrs_rust(attrs: Seq<String>) -> Seq<char>
    decreases attrs.len(),
{
    if attrs.len() == 0 {
        Seq::<char>::empty()
    } else {
        attrs_rust(attrs.drop_last()) + "#["@ + attrs.last()@ + "]\n"@
    }
}

pub fn gen_attrs(attrs: &Vec<Attr>) -> (r: String)
    ensures
        r@ == attrs_rust(attrs@),
{
    let mut out = String::new();
    let mut i: usize = 0;
    while i < attrs.len()
        invariant
            i <= attrs@.len(),
            out@ == attrs_rust(attrs@.subrange(0, i as int)),
        decreases attrs@.len() - i,
    {
        out.append("#[");
        out.append(attrs[i].as_str());
        out.append("]\n");
        assert(attrs@.subrange(0, i + 1).drop_last() =~= attrs@.subrange(0, i as int));
        i = i + 1;
    }
    assert(attrs@.subrange(0, attrs@.len() as int) =~= attrs@);
    out
}

pub open spec fn use_name_rust(n: UseName) -> Seq<char> {
    match n.alias {
        Some(a) => n.name@ + " as "@ + a@,
        None => n.name@,
    }
}

/// The `use` lines an import emits: none for a macro import; the crate-local
/// path under `crate::` unless it came through the `rust` root.
pub open spec fn use_rust(u: Use) -> Seq<Seq<char>> {
    if u.is_macro {
        Seq::empty()
    } else {
        let base = (if u.is_rust {
            Seq::<char>::empty()
        } else {
            "crate::"@
        }) + join(views(u.path@), "::"@);
        let items = u.names@.map_values(|n: UseName| use_name_rust(n));
        if u.names@.len() == 0 {
            seq!["use "@ + base + ";"@]
        } else if items.len() == 1 {
            seq!["use "@ + base + "::"@ + items[0] + ";"@]
        } else {
            seq!["use "@ + base + "::{"@ + join(items, ", "@) + "};"@]
        }
    }
}

pub fn gen_use(u: &Use) -> (r: Vec<String>)
    ensures
        views(r@) == use_rust(*u),
{
    let mut out: Vec<String> = Vec::new();
    if u.is_macro {
        assert(views(out@) =~= use_rust(*u));
        return out;
    }
    let mut base = if u.is_rust {
        String::new()
    } else {
        String::from_str("crate::")
    };
    let p = join_strings(&u.path, "::");
    base.append(p.as_str());
    if u.names.len() > 0 {
        let mut items: Vec<String> = Vec::new();
        let mut i: usize = 0;
        while i < u.names.len()
            invariant
                i <= u.names@.len(),
                views(items@) == u.names@.subrange(0, i as int).map_values(
                    |n: UseName| use_name_rust(n),
                ),
            decreases u.names@.len() - i,
        {
            let n = &u.names[i];
            let s = match &n.alias {
                Some(a) => {
                    let mut s = n.name.clone();
                    s.append(" as ");
                    s.append(a.as_str());
                    s
                },
                None => n.name.clone(),
            };
            assert(s@ == use_name_rust(u.names@[i as int]));
            let ghost before = items@;
            items.push(s);
            assert(views(items@) =~= views(before).push(use_name_rust(u.names@[i as int])));
            assert(views(items@) =~= u.names@.subrange(0, i + 1).map_values(
                |n: UseName| use_name_rust(n),
            ));
            i = i + 1;
        }
        assert(u.names@.subrange(0, u.names@.len() as int) =~= u.names@);
        let mut line = String::from_str("use ");
        line.append(base.as_str());
        if items.len() == 1 {
            line.append("::");
            line.append(items[0].as_str());
            line.append(";");
        } else {
            line.append("::{");
            let j = join_strings(&items, ", ");
            line.append(j.as_str());
            line.append("};");
        }
        out.push(line);
        assert(views(out@) =~= use_rust(*u));
        return out;
    }
    let mut line = String::from_str("use ");
    line.append(base.as_str());
    line.append(";");
    out.push(line);
    assert(views(out@) =~= use_rust(*u));
    out
}

/// The Rust receiver for a `self` parameter of type `ty`.
pub open spec fn receiver_rust(al: Pairs, ty: Type) -> Seq<char> {
    match ty {
        Type::Path { segments, .. } => if is_single(segments@, "Self"@) {
            "self"@
        } else {
            "self: "@ + type_rust(al, ty)
        },
        Type::Ref { mutable, lifetime, inner } => match *inner {
            Type::Path { segments, .. } => if is_single(segments@, "Self"@) {
                "&"@ + lifetime_prefix(lifetime) + mut_prefix(mutable) + "self"@
            } else {
                "self: "@ + type_rust(al, ty)
            },
            _ => "self: "@ + type_rust(al, ty),
        },
        _ => "self: "@ + type_rust(al, ty),
    }
}

fn is_self_path(t: &Type) -> (r: bool)
    ensures
        r == (t matches Type::Path { segments, .. } && is_single(segments@, "Self"@)),
{
    match t {
        Type::Path { segments, .. } => segments.len() == 1 && str_eq(segments[0].as_str(), "Self"),
        _ => false,
    }
}

pub fn gen_receiver(al: &Vec<(String, String)>, ty: &Type) -> (r: String)
    requires
        type_wf(*ty),
    ensures
        r@ == receiver_rust(pair_views(al@), *ty),
{
    if is_self_path(ty) {
        return String::from_str("self");
    }
    match ty {
        Type::Ref { mutable, lifetime, inner } => {
            if is_self_path(inner) {
                let mut out = String::from_str("&");
                match lifetime {
                    Some(l) => {
                        out.append("'");
                        out.append(l.as_str());
                        out.append(" ");
                    },
                    None => {},
                }
                if *mutable {
                    out.append("mut ");
                }
                out.append("self");
                return out;
            }
        },
        _ => {},
    }
    let mut out = String::from_str("self: ");
    let t = gen_type(al, ty);
    out.append(t.as_str());
    out
}

// ---- patterns ---------------------------------------------------------------------

pub open spec fn quoted(s: Seq<char>) -> Seq<char> {
    seq!['"'] + s + seq!['"']
}

pub open spec fn bool_rust(b: bool) -> Seq<char> {
    if b {
        "true"@
    } else {
        "false"@
    }
}

/// The Rust text of a literal-like expression; anything else is `()`.
pub open spec fn expr_pure_rust(e: Expr) -> Seq<char> {
    match e {
        Expr::Int(n) => decimal_int(n as int),
        Expr::Float(f) => f@,
        Expr::Str(s) => quoted(s@),
        Expr::RawStr(s) => s@,
        Expr::Bool(b) => bool_rust(b),
        Expr::Ident(n) => n@,
        Expr::NoneLit => "None"@,
        _ => "()"@,
    }
}

pub fn gen_expr_pure(e: &Expr) -> (r: String)
    ensures
        r@ == expr_pure_rust(*e),
{
    match e {
        Expr::Int(n) => crate::text::i64_to_string(*n),
        Expr::Float(f) => f.clone(),
        Expr::Str(s) => quote(s.as_str()),
        Expr::RawStr(s) => s.clone(),
        Expr::Bool(b) => bool_string(*b),
        Expr::Ident(n) => n.clone(),
        Expr::NoneLit => String::from_str("None"),
        _ => String::from_str("()"),
    }
}

fn quote(s: &str) -> (r: String)
    ensures
        r@ == quoted(s@),
{
    let mut out = String::new();
    push_char(&mut out, '"');
    out.append(s);
    push_char(&mut out, '"');
    assert(out@ =~= quoted(s@));
    out
}

fn bool_string(b: bool) -> (r: String)
    ensures
        r@ == bool_rust(b),
{
    if b {
        String::from_str("true")
    } else {
        String::from_str("false")
    }
}

/// The Rust text of a literal pattern.
pub open spec fn pattern_literal_rust(e: Expr) -> Seq<char>
    decreases e,
{
    match e {
        Expr::Int(n) => decimal_int(n as int),
        Expr::Bool(b) => bool_rust(b),
        Expr::Str(s) => quoted(s@),
        Expr::Unary { op: UnaryOp::Neg, expr } => "-"@ + pattern_literal_rust(*expr),
        _ => expr_pure_rust(e),
    }
}

pub fn gen_pattern_literal(e: &Expr) -> (r: String)
    ensures
        r@ == pattern_literal_rust(*e),
    decreases e,
{
    match e {
        Expr::Int(n) => crate::text::i64_to_string(*n),
        Expr::Bool(b) => bool_string(*b),
        Expr::Str(s) => quote(s.as_str()),
        Expr::Unary { op: UnaryOp::Neg, expr } => {
            let mut out = String::from_str("-");
            let inner = gen_pattern_literal(expr);
            out.append(inner.as_str());
            out
        },
        _ => gen_expr_pure(e),
    }
}

/// The Rust path of a pattern: `none` alone is `None`; segments join by `::`.
pub open spec fn pattern_path_rust(path: Seq<String>) -> Seq<char> {
    if path.len() == 1 {
        if path[0]@ == "none"@ {
            "None"@
        } else {
            path[0]@
        }
    } else {
        join(views(path), "::"@)
    }
}

pub fn gen_pattern_path(path: &Vec<String>) -> (r: String)
    ensures
        r@ == pattern_path_rust(path@),
{
    if path.len() == 1 {
        if str_eq(path[0].as_str(), "none") {
            return String::from_str("None");
        }
        return path[0].clone();
    }
    join_strings(path, "::")
}

/// The Rust text of a pattern.
pub open spec fn pattern_rust(p: Pattern) -> Seq<char>
    decreases p,
{
    match p {
        Pattern::Wildcard => "_"@,
        Pattern::Ident(n) => if n@ == "_"@ {
            "_"@
        } else if n@ == "none"@ {
            "None"@
        } else {
            n@
        },
        Pattern::Literal(e) => pattern_literal_rust(e),
        Pattern::Tuple(ps) => if ps@.len() == 1 {
            "("@ + pattern_rust(ps@[0]) + ",)"@
        } else {
            "("@ + patterns_rust(ps@, ", "@) + ")"@
        },
        Pattern::TupleStruct { path, elems } => pattern_path_rust(path@) + "("@ + patterns_rust(
            elems@,
            ", "@,
        ) + ")"@,
        Pattern::Path(path) => pattern_path_rust(path@),
        Pattern::Or(ps) => patterns_rust(ps@, " | "@),
        Pattern::Binding { pattern, name } => name@ + " @ "@ + pattern_rust(*pattern),
    }
}

/// Patterns joined by `sep`.
pub open spec fn patterns_rust(ps: Seq<Pattern>, sep: Seq<char>) -> Seq<char>
    decreases ps,
{
    if ps.len() == 0 {
        Seq::<char>::empty()
    } else if ps.len() == 1 {
        pattern_rust(ps[0])
    } else {
        patterns_rust(ps.subrange(0, ps.len() - 1), sep) + sep + pattern_rust(ps[ps.len() - 1])
    }
}

pub fn gen_pattern(p: &Pattern) -> (r: String)
    ensures
        r@ == pattern_rust(*p),
    decreases p,
{
    match p {
        Pattern::Wildcard => String::from_str("_"),
        Pattern::Ident(n) => {
            if str_eq(n.as_str(), "_") {
                String::from_str("_")
            } else if str_eq(n.as_str(), "none") {
                String::from_str("None")
            } else {
                n.clone()
            }
        },
        Pattern::Literal(e) => gen_pattern_literal(e),
        Pattern::Tuple(ps) => {
            let mut out = String::from_str("(");
            if ps.len() == 1 {
                let one = gen_pattern(&ps[0]);
                out.append(one.as_str());
                out.append(",)");
            } else {
                let all = gen_patterns(ps, ", ");
                out.append(all.as_str());
                out.append(")");
            }
            out
        },
        Pattern::TupleStruct { path, elems } => {
            let mut out = gen_pattern_path(path);
            out.append("(");
            let all = gen_patterns(elems, ", ");
            out.append(all.as_str());
            out.append(")");
            out
        },
        Pattern::Path(path) => gen_pattern_path(path),
        Pattern::Or(ps) => gen_patterns(ps, " | "),
        Pattern::Binding { pattern, name } => {
            let mut out = name.clone();
            out.append(" @ ");
            let inner = gen_pattern(pattern);
            out.append(inner.as_str());
            out
        },
    }
}

pub fn gen_patterns(ps: &Vec<Pattern>, sep: &str) -> (r: String)
    ensures
        r@ == patterns_rust(ps@, sep@),
    decreases ps,
{
    let mut out = String::new();
    let mut i: usize = 0;
    while i < ps.len()
        invariant
            i <= ps@.len(),
            out@ == patterns_rust(ps@.subrange(0, i as int), sep@),
        decreases ps@.len() - i,
    {
        if i > 0 {
            out.append(sep);
        }
        let t = gen_pattern(&ps[i]);
        out.append(t.as_str());
        proof {
            let p = ps@.subrange(0, i + 1);
            assert(p.subrange(0, i as int) =~= ps@.subrange(0, i as int));
            assert(p[i as int] == ps@[i as int]);
            assert(out@ =~= patterns_rust(p, sep@));
        }
        i = i + 1;
    }
    assert(ps@.subrange(0, ps@.len() as int) =~= ps@);
    out
}

// ---- items that need no generator state -------------------------------------------

pub open spec fn vis_rust(is_pub: bool) -> Seq<char> {
    if is_pub {
        "pub "@
    } else {
        Seq::<char>::empty()
    }
}

pub open spec fn field_line(al: Pairs, f: Field) -> Seq<char> {
    vis_rust(f.is_pub) + f.name@ + ": "@ + type_rust(al, f.ty) + ","@
}

pub open spec fn variant_line(al: Pairs, v: Variant) -> Seq<char> {
    if v.payload@.len() == 0 {
        v.name@ + ","@
    } else {
        v.name@ + "("@ + types_rust(al, v.payload@) + "),"@
    }
}

/// The Rust text of a struct declaration.
pub open spec fn struct_rust(al: Pairs, s: Struct) -> Seq<char> {
    let head = attrs_rust(s.attrs@) + vis_rust(s.is_pub) + "struct "@ + s.name@ + generics_rust(
        s.generics@,
    );
    if s.fields@.len() == 0 {
        head + ";"@
    } else {
        head + " {\n"@ + indent_spec(
            join(s.fields@.map_values(|f: Field| field_line(al, f)), "\n"@),
            1,
        ) + "\n}"@
    }
}

/// The Rust text of an enum declaration.
pub open spec fn enum_rust(al: Pairs, e: Enum) -> Seq<char> {
    attrs_rust(e.attrs@) + vis_rust(e.is_pub) + "enum "@ + e.name@ + generics_rust(e.generics@)
        + " {\n"@ + indent_spec(
        join(e.variants@.map_values(|v: Variant| variant_line(al, v)), "\n"@),
        1,
    ) + "\n}"@
}

pub fn gen_struct(al: &Vec<(String, String)>, s: &Struct) -> (r: String)
    requires
        fields_wf(s.fields@),
    ensures
        r@ == struct_rust(pair_views(al@), *s),
{
    let mut out = gen_attrs(&s.attrs);
    if s.is_pub {
        out.append("pub ");
    }
    out.append("struct ");
    out.append(s.name.as_str());
    let g = gen_generics(&s.generics);
    out.append(g.as_str());
    if s.fields.len() == 0 {
        out.append(";");
        return out;
    }
    let mut lines: Vec<String> = Vec::new();
    let mut i: usize = 0;
    while i < s.fields.len()
        invariant
            i <= s.fields@.len(),
            fields_wf(s.fields@),
            views(lines@) == s.fields@.subrange(0, i as int).map_values(
                |f: Field| field_line(pair_views(al@), f),
            ),
        decreases s.fields@.len() - i,
    {
        proof {
            lemma_fields_wf_at(s.fields@, i as int);
        }
        let f = &s.fields[i];
        let mut line = String::new();
        if f.is_pub {
            line.append("pub ");
        }
        line.append(f.name.as_str());
        line.append(": ");
        let t = gen_type(al, &f.ty);
        line.append(t.as_str());
        line.append(",");
        let ghost before = lines@;
        assert(line@ =~= field_line(pair_views(al@), s.fields@[i as int]));
        lines.push(line);
        assert(views(lines@) =~= views(before).push(field_line(pair_views(al@), s.fields@[i as int])));
        assert(views(lines@) =~= s.fields@.subrange(0, i + 1).map_values(
            |f: Field| field_line(pair_views(al@), f),
        ));
        i = i + 1;
    }
    assert(s.fields@.subrange(0, s.fields@.len() as int) =~= s.fields@);
    out.append(" {\n");
    let body = join_strings(&lines, "\n");
    let ind = indent(body.as_str(), 1);
    out.append(ind.as_str());
    out.append("\n}");
    out
}

pub fn gen_enum(al: &Vec<(String, String)>, e: &Enum) -> (r: String)
    requires
        variants_wf(e.variants@),
    ensures
        r@ == enum_rust(pair_views(al@), *e),
{
    let mut out = gen_attrs(&e.attrs);
    if e.is_pub {
        out.append("pub ");
    }
    out.append("enum ");
    out.append(e.name.as_str());
    let g = gen_generics(&e.generics);
    out.append(g.as_str());
    let mut lines: Vec<String> = Vec::new();
    let mut i: usize = 0;
    while i < e.variants.len()
        invariant
            i <= e.variants@.len(),
            variants_wf(e.variants@),
            views(lines@) == e.variants@.subrange(0, i as int).map_values(
                |v: Variant| variant_line(pair_views(al@), v),
            ),
        decreases e.variants@.len() - i,
    {
        proof {
            lemma_variants_wf_at(e.variants@, i as int);
        }
        let v = &e.variants[i];
        let mut line = v.name.clone();
        if v.payload.len() == 0 {
            line.append(",");
        } else {
            line.append("(");
            let t = gen_types(al, &v.payload);
            line.append(t.as_str());
            line.append("),");
        }
        let ghost before = lines@;
        assert(line@ =~= variant_line(pair_views(al@), e.variants@[i as int]));
        lines.push(line);
        assert(views(lines@) =~= views(before).push(variant_line(pair_views(al@), e.variants@[i as int])));
        assert(views(lines@) =~= e.variants@.subrange(0, i + 1).map_values(
            |v: Variant| variant_line(pair_views(al@), v),
        ));
        i = i + 1;
    }
    assert(e.variants@.subrange(0, e.variants@.len() as int) =~= e.variants@);
    out.append(" {\n");
    let body = join_strings(&lines, "\n");
    let ind = indent(body.as_str(), 1);
    out.append(ind.as_str());
    out.append("\n}");
    out
}

/// `ty` is `str` or `String`, which take an owned string.
pub open spec fn is_owned_string_spec(ty: Type) -> bool {
    ty matches Type::Path { segments, args } && args@.len() == 0 && (is_single(segments@, "str"@)
        || is_single(segments@, "String"@))
}

pub fn is_owned_string(ty: &Type) -> (r: bool)
    ensures
        r == is_owned_string_spec(*ty),
{
    match ty {
        Type::Path { segments, args } => args.len() == 0 && segments.len() == 1 && (str_eq(
            segments[0].as_str(),
            "str",
        ) || str_eq(segments[0].as_str(), "String")),
        _ => false,
    }
}

/// The key and value types of a `dict[K, V]` / `HashMap[K, V]` type.
pub open spec fn dict_kv_spec(ty: Type) -> Option<(Type, Type)> {
    match ty {
        Type::Path { segments, args } => if args@.len() == 2 && (is_single(segments@, "dict"@)
            || is_single(segments@, "HashMap"@)) {
            Some((args@[0], args@[1]))
        } else {
            None
        },
        _ => None,
    }
}

pub fn dict_kv(ty: &Type) -> (r: Option<(&Type, &Type)>)
    ensures
        r matches Some((k, v)) ==> dict_kv_spec(*ty) == Some((*k, *v)),
        r is None ==> dict_kv_spec(*ty) is None,
{
    match ty {
        Type::Path { segments, args } => {
            if args.len() == 2 && segments.len() == 1 && (str_eq(segments[0].as_str(), "dict")
                || str_eq(segments[0].as_str(), "HashMap")) {
                Some((&args[0], &args[1]))
            } else {
                None
            }
        },
        _ => None,
    }
}

/// The text after the last `::` of a path, or all of it.
pub open spec fn last_path_segment(s: Seq<char>) -> Seq<char> {
    if exists|i: int| occurs_at_sep(s, i) {
        let i = choose|i: int| occurs_at_sep(s, i) && forall|j: int| occurs_at_sep(s, j) ==> j <= i;
        s.subrange(i + 2, s.len() as int)
    } else {
        s
    }
}

pub open spec fn occurs_at_sep(s: Seq<char>, i: int) -> bool {
    0 <= i && i + 2 <= s.len() && s[i] == ':' && s[i + 1] == ':'
}

fn last_segment(s: &str) -> (r: String)
    ensures
        r@ == last_path_segment(s@),
{
    let cs = chars_of(s);
    let mut i = cs.len();
    while i >= 2
        invariant
            i <= cs@.len(),
            cs@ == s@,
            forall|j: int| i - 2 < j && occurs_at_sep(cs@, j) ==> false,
        decreases i,
    {
        if cs[i - 2] == ':' && cs[i - 1] == ':' {
            let ghost k = i - 2;
            assert(occurs_at_sep(cs@, k));
            assert(forall|j: int| occurs_at_sep(cs@, j) ==> j <= k);
            let r = crate::text::string_of_range(&cs, i, cs.len());
            return r;
        }
        i = i - 1;
    }
    assert(forall|j: int| !occurs_at_sep(cs@, j));
    String::from_str(s)
}


// ---- the generator's state ----------------------------------------------------------

/// What the generator reads while it walks a program: the tables the pre-scan
/// filled, and the declared return type of the function being generated.
pub struct Env {
    /// Import alias → the real path it names.
    pub aliases: Pairs,
    /// Names that denote a module or crate path (member access uses `::`).
    pub modules: Seq<Seq<char>>,
    /// TinyS macro-callable name → Rust macro name.
    pub macros: Pairs,
    /// Struct name → its fields.
    pub structs: Seq<(Seq<char>, Seq<Field>)>,
    /// Function name → its parameters.
    pub sigs: Seq<(Seq<char>, Seq<Param>)>,
    /// The return type of the enclosing function, `None` for `void`.
    pub ret: Option<Type>,
}

/// The lexical scopes of declared value bindings, innermost last.
pub type Scopes = Seq<Seq<Seq<char>>>;

pub open spec fn is_declared(sc: Scopes, n: Seq<char>) -> bool {
    exists|i: int, j: int| 0 <= i < sc.len() && 0 <= j < sc[i].len() && sc[i][j] == n
}

/// `n` declared in the innermost scope.
pub open spec fn declare(sc: Scopes, n: Seq<char>) -> Scopes {
    if sc.len() == 0 {
        sc
    } else {
        sc.update(sc.len() - 1, sc.last().push(n))
    }
}

pub open spec fn declare_names(sc: Scopes, ns: Seq<Seq<char>>) -> Scopes
    decreases ns.len(),
{
    if ns.len() == 0 {
        sc
    } else {
        declare(declare_names(sc, ns.drop_last()), ns.last())
    }
}

/// The names a pattern binds, declared in order.
pub open spec fn declare_pattern(sc: Scopes, p: Pattern) -> Scopes
    decreases p,
{
    match p {
        Pattern::Ident(n) => if n@ != "_"@ && n@ != "none"@ {
            declare(sc, n@)
        } else {
            sc
        },
        Pattern::Tuple(ps) => declare_patterns(sc, ps@),
        Pattern::TupleStruct { elems, .. } => declare_patterns(sc, elems@),
        Pattern::Or(ps) => declare_patterns(sc, ps@),
        Pattern::Binding { pattern, name } => declare_pattern(declare(sc, name@), *pattern),
        _ => sc,
    }
}

pub open spec fn declare_patterns(sc: Scopes, ps: Seq<Pattern>) -> Scopes
    decreases ps,
{
    if ps.len() == 0 {
        sc
    } else {
        declare_pattern(declare_patterns(sc, ps.subrange(0, ps.len() - 1)), ps[ps.len() - 1])
    }
}

// ---- the generated text, as a function of the tree and the state ----------------------

pub open spec fn paren(s: Seq<char>) -> Seq<char> {
    "("@ + s + ")"@
}

/// A block: `{}` when nothing is emitted, else its parts one per line, indented.
pub open spec fn block_text(parts: Seq<Seq<char>>) -> Seq<char> {
    if parts.len() == 0 {
        "{}"@
    } else {
        "{\n"@ + indent_spec(join(parts, "\n"@), 1) + "\n}"@
    }
}

pub open spec fn loop_text(label: Option<String>, b: Seq<char>) -> Seq<char> {
    match label {
        Some(l) => "'"@ + l@ + ": loop "@ + b,
        None => "loop "@ + b,
    }
}

pub open spec fn assign_op_rust(op: AssignOp) -> Seq<char> {
    match op {
        AssignOp::Eq => "="@,
        AssignOp::Add => "+="@,
        AssignOp::Sub => "-="@,
        AssignOp::Mul => "*="@,
        AssignOp::Div => "/="@,
        AssignOp::Rem => "%="@,
    }
}

pub open spec fn unary_rust(op: UnaryOp) -> Seq<char> {
    match op {
        UnaryOp::Neg => "-"@,
        UnaryOp::Not => "!"@,
    }
}

/// Expressions that bind looser than a postfix or prefix operator.
pub open spec fn is_low(e: Expr) -> bool {
    e is Binary || e is Range || e is If || e is Match || e is Loop || e is Closure
}

pub open spec fn owned_expected(expected: Option<Type>) -> bool {
    match expected {
        Some(t) => is_owned_string_spec(t),
        None => false,
    }
}

pub open spec fn dict_expected(expected: Option<Type>) -> Option<(Type, Type)> {
    match expected {
        Some(t) => dict_kv_spec(t),
        None => None,
    }
}

pub open spec fn is_string_literal(a: Arg) -> bool {
    match a {
        Arg::Positional(e) => e is Str || e is RawStr,
        Arg::Keyword(_, e) => e is Str || e is RawStr,
    }
}

pub open spec fn has_keyword(args: Seq<Arg>) -> bool {
    exists|i: int| 0 <= i < args.len() && args[i] is Keyword
}

/// The `{} {} ...` format string a print-like macro gets when its first
/// argument is not a string literal.
pub open spec fn placeholders(n: nat) -> Seq<char> {
    join(Seq::new(n, |i: int| "{}"@), " "@)
}

/// The type of the `i`th parameter, where the callee's signature is known.
pub open spec fn param_type_at(params: Option<Seq<Param>>, i: int) -> Option<Type> {
    match params {
        Some(ps) => if 0 <= i < ps.len() {
            Some(ps[i].ty)
        } else {
            None
        },
        None => None,
    }
}

/// The type of the first field named `name`.
pub open spec fn field_type(fs: Seq<Field>, name: Seq<char>) -> Option<Type>
    decreases fs.len(),
{
    if fs.len() == 0 {
        None
    } else if fs[0].name@ == name {
        Some(fs[0].ty)
    } else {
        field_type(fs.subrange(1, fs.len() as int), name)
    }
}

pub open spec fn struct_field_type(fields: Option<Seq<Field>>, name: Seq<char>) -> Option<Type> {
    match fields {
        Some(fs) => field_type(fs, name),
        None => None,
    }
}

pub open spec fn closure_param_text(al: Pairs, p: Param) -> Seq<char> {
    match p.ty {
        Type::Path { segments, args } => if args@.len() == 0 && is_single(segments@, "_"@) {
            p.name@
        } else {
            p.name@ + ": "@ + type_rust(al, p.ty)
        },
        _ => p.name@ + ": "@ + type_rust(al, p.ty),
    }
}

pub open spec fn ret_arrow(al: Pairs, ret: Option<Type>) -> Seq<char> {
    match ret {
        Some(t) => " -> "@ + type_rust(al, t),
        None => Seq::<char>::empty(),
    }
}

pub open spec fn param_names(ps: Seq<Param>) -> Seq<Seq<char>> {
    ps.map_values(|p: Param| p.name@)
}

/// The Rust text of a block of statements and the scopes after it. With
/// `as_value`, the last statement is the block's value and is coerced to `tail`.
pub open spec fn block_gen(env: Env, sc: Scopes, stmts: Seq<Stmt>, as_value: bool, tail: Option<Type>) -> (Seq<char>, Scopes)
    decreases stmts, 2int,
{
    let (parts, s1) = block_parts(env, sc, stmts, as_value, tail, stmts.len());
    (block_text(parts), s1)
}

/// The non-empty texts of the statements, where the statement at position
/// `n - 1` (counting from the start of the block) is the tail.
pub open spec fn block_parts(env: Env, sc: Scopes, stmts: Seq<Stmt>, as_value: bool, tail: Option<Type>, n: nat) -> (Seq<Seq<char>>, Scopes)
    decreases stmts, 1int,
{
    if stmts.len() == 0 {
        (Seq::empty(), sc)
    } else {
        let (ps, s1) = block_parts(env, sc, stmts.subrange(0, stmts.len() - 1), as_value, tail, n);
        let is_tail = as_value && stmts.len() == n;
        let (c, s2) = stmt_gen(
            env,
            s1,
            stmts[stmts.len() - 1],
            is_tail,
            if is_tail {
                tail
            } else {
                None
            },
        );
        (
            if c.len() == 0 {
                ps
            } else {
                ps.push(c)
            },
            s2,
        )
    }
}

/// The Rust text of a statement and the scopes after it.
pub open spec fn stmt_gen(env: Env, sc: Scopes, s: Stmt, is_tail: bool, tail: Option<Type>) -> (Seq<char>, Scopes)
    decreases s, 0int,
{
    match s {
        Stmt::Let { mutable, name, ty, value } => {
            let (val, s1) = coerced_gen(env, sc, value, ty);
            if mutable || ty is Some {
                let annot = match ty {
                    Some(t) => ": "@ + type_rust(env.aliases, t),
                    None => Seq::<char>::empty(),
                };
                (
                    "let "@ + mut_prefix(mutable) + name@ + annot + " = "@ + val + ";"@,
                    declare(s1, name@),
                )
            } else if is_declared(s1, name@) {
                (name@ + " = "@ + val + ";"@, s1)
            } else {
                ("let "@ + name@ + " = "@ + val + ";"@, declare(s1, name@))
            }
        },
        Stmt::LetTuple { names, value } => {
            let s1 = declare_names(sc, views(names@));
            let (v, s2) = expr_gen(env, s1, value);
            ("let ("@ + join(views(names@), ", "@) + ") = "@ + v + ";"@, s2)
        },
        Stmt::Assign { target, op, value } => {
            let (t, s1) = expr_gen(env, sc, target);
            let (v, s2) = expr_gen(env, s1, value);
            (t + " "@ + assign_op_rust(op) + " "@ + v + ";"@, s2)
        },
        Stmt::Expr(e) => if is_tail {
            coerced_gen(env, sc, e, tail)
        } else {
            let (c, s1) = expr_gen(env, sc, e);
            (c + ";"@, s1)
        },
        Stmt::Return(v) => match v {
            Some(e) => {
                let (c, s1) = coerced_gen(env, sc, e, env.ret);
                ("return "@ + c + ";"@, s1)
            },
            None => ("return;"@, sc),
        },
        Stmt::If(chain) => {
            let (a, s1) = if_arms_gen(env, sc, chain.arms@, is_tail, tail);
            match chain.else_body {
                Some(eb) => {
                    let (b, s2) = block_gen(env, s1, eb@, is_tail, tail);
                    (a + " else "@ + b, s2)
                },
                None => (a, s1),
            }
        },
        Stmt::While { cond, body } => {
            let (b, s1) = block_gen(env, sc, body@, false, None);
            let (c, s2) = expr_gen(env, s1, cond);
            ("while "@ + c + " "@ + b, s2)
        },
        Stmt::WhileCase { pattern, expr, body } => {
            let s1 = declare_pattern(sc, pattern);
            let (b, s2) = block_gen(env, s1, body@, false, None);
            let (c, s3) = expr_gen(env, s2, expr);
            ("while let "@ + pattern_rust(pattern) + " = "@ + c + " "@ + b, s3)
        },
        Stmt::For { pattern, iter, iter_borrow, body } => {
            let s1 = declare_pattern(sc, pattern);
            let (ic, s2) = match iter_borrow {
                Borrow::Owned => expr_gen(env, s1, iter),
                Borrow::Ref => {
                    let (a, s) = atom_gen(env, s1, iter);
                    ("&"@ + a, s)
                },
                Borrow::MutRef => {
                    let (a, s) = atom_gen(env, s1, iter);
                    ("&mut "@ + a, s)
                },
            };
            let (b, s3) = block_gen(env, s2, body@, false, None);
            ("for "@ + pattern_rust(pattern) + " in "@ + ic + " "@ + b, s3)
        },
        Stmt::Loop { label, body } => {
            let (b, s1) = block_gen(env, sc, body@, false, None);
            (loop_text(label, b), s1)
        },
        Stmt::Break { label, value } => {
            let l = match label {
                Some(l) => " '"@ + l@,
                None => Seq::<char>::empty(),
            };
            match value {
                Some(e) => {
                    let (c, s1) = expr_gen(env, sc, e);
                    ("break"@ + l + " "@ + c + ";"@, s1)
                },
                None => ("break"@ + l + ";"@, sc),
            }
        },
        Stmt::Continue => ("continue;"@, sc),
        Stmt::Match(m) => match_gen(env, sc, m, is_tail, tail),
        Stmt::Unsafe(body) => {
            let (b, s1) = block_gen(env, sc, body@, is_tail, tail);
            ("unsafe "@ + b, s1)
        },
        Stmt::Pass => (Seq::<char>::empty(), sc),
    }
}

/// A `let` statement keeps `let` when the binding is mutable, typed or not
/// yet declared, and otherwise becomes the assignment `name = value;`. Either
/// way the name is declared afterwards, and no scope is opened or closed
/// (for a value whose generation declares nothing itself).
pub proof fn law_let_declares_or_assigns(env: Env, sc: Scopes, mutable: bool, name: String, ty: Option<Type>, value: Expr, is_tail: bool, tail: Option<Type>)
    requires
        sc.len() > 0,
        coerced_gen(env, sc, value, ty).1 == sc,
    ensures
        ({
            let (out, after) = stmt_gen(env, sc, Stmt::Let { mutable, name, ty, value }, is_tail, tail);
            &&& (mutable || ty is Some || !is_declared(sc, name@)) ==> crate::manifest::starts_with(out, "let "@)
            &&& !(mutable || ty is Some || !is_declared(sc, name@)) ==> crate::manifest::starts_with(out, name@ + " = "@)
            &&& is_declared(after, name@)
            &&& after.len() == sc.len()
        }),
{
    reveal_strlit("let ");
    reveal_strlit(" = ");
    let (val, s1) = coerced_gen(env, sc, value, ty);
    let (out, after) = stmt_gen(env, sc, Stmt::Let { mutable, name, ty, value }, is_tail, tail);
    let n = name@;
    if mutable || ty is Some || !is_declared(s1, n) {
        let annot = match ty {
            Some(t) => ": "@ + type_rust(env.aliases, t),
            None => Seq::<char>::empty(),
        };
        if mutable || ty is Some {
            assert(out == "let "@ + mut_prefix(mutable) + n + annot + " = "@ + val + ";"@);
        } else {
            assert(out == "let "@ + n + " = "@ + val + ";"@);
        }
        assert(out.subrange(0, 4) =~= "let "@);
        assert(after == declare(s1, n));
        let i = after.len() - 1;
        assert(after[i] == s1.last().push(n));
        assert(after[i][after[i].len() - 1] == n);
    } else {
        assert(out == n + " = "@ + val + ";"@);
        assert(out.subrange(0, (n + " = "@).len() as int) =~= n + " = "@);
    }
}


/// The `if` / `else if` arms of a conditional, without its `else`.
pub open spec fn if_arms_gen(env: Env, sc: Scopes, arms: Seq<(CondKind, Vec<Stmt>)>, as_value: bool, tail: Option<Type>) -> (Seq<char>, Scopes)
    decreases arms, 0int,
{
    if arms.len() == 0 {
        (Seq::<char>::empty(), sc)
    } else {
        let (prev, s1) = if_arms_gen(env, sc, arms.subrange(0, arms.len() - 1), as_value, tail);
        let (head, s2) = match arms[arms.len() - 1].0 {
            CondKind::Bool(e) => {
                let (c, s) = expr_gen(env, s1, e);
                ("if "@ + c, s)
            },
            CondKind::Case { pattern, expr } => {
                let (c, s) = expr_gen(env, declare_pattern(s1, pattern), expr);
                ("if let "@ + pattern_rust(pattern) + " = "@ + c, s)
            },
        };
        let (b, s3) = block_gen(env, s2, arms[arms.len() - 1].1@, as_value, tail);
        (
            (if arms.len() == 1 {
                prev + head
            } else {
                prev + " else "@ + head
            }) + " "@ + b,
            s3,
        )
    }
}

/// The Rust text of a `match`.
pub open spec fn match_gen(env: Env, sc: Scopes, m: MatchExpr, as_value: bool, tail: Option<Type>) -> (Seq<char>, Scopes)
    decreases m, 1int,
{
    let (scrut, s1) = expr_gen(env, sc, *m.scrutinee);
    let (arms, s2) = match_arms_gen(env, s1, m.arms@, as_value, tail);
    ("match "@ + scrut + " {\n"@ + indent_spec(join(arms, "\n"@), 1) + "\n}"@, s2)
}

pub open spec fn match_arms_gen(env: Env, sc: Scopes, arms: Seq<MatchArm>, as_value: bool, tail: Option<Type>) -> (Seq<Seq<char>>, Scopes)
    decreases arms, 0int,
{
    if arms.len() == 0 {
        (Seq::empty(), sc)
    } else {
        let (prev, s1) = match_arms_gen(env, sc, arms.subrange(0, arms.len() - 1), as_value, tail);
        let s2 = declare_pattern(s1, arms[arms.len() - 1].pattern);
        let (g, s3) = match arms[arms.len() - 1].guard {
            Some(ge) => {
                let (c, s) = expr_gen(env, s2, ge);
                (" if "@ + c, s)
            },
            None => (Seq::<char>::empty(), s2),
        };
        let (b, s4) = block_gen(env, s3, arms[arms.len() - 1].body@, as_value, tail);
        (prev.push(pattern_rust(arms[arms.len() - 1].pattern) + g + " => "@ + b + ","@), s4)
    }
}

/// An expression where a value of type `expected` is wanted: string literals
/// (and `if` / `match` yielding them) become owned strings, and a dict literal
/// coerces its entries to the key and value types.
pub open spec fn coerced_gen(env: Env, sc: Scopes, e: Expr, expected: Option<Type>) -> (Seq<char>, Scopes)
    decreases e, 7int,
{
    if owned_expected(expected) && (e is Str || e is RawStr) {
        let (c, s1) = expr_gen(env, sc, e);
        (c + ".to_string()"@, s1)
    } else if owned_expected(expected) && e is If {
        match e {
            Expr::If(ie) => {
                let (a, s1) = if_arms_gen(env, sc, ie.arms@, true, expected);
                let (b, s2) = block_gen(env, s1, ie.else_body@, true, expected);
                (a + " else "@ + b, s2)
            },
            _ => (Seq::<char>::empty(), sc),
        }
    } else if owned_expected(expected) && e is Match {
        match e {
            Expr::Match(m) => match_gen(env, sc, *m, true, expected),
            _ => (Seq::<char>::empty(), sc),
        }
    } else if e is Dict && dict_expected(expected) is Some {
        match e {
            Expr::Dict(pairs) => {
                let (kt, vt) = dict_expected(expected)->0;
                let (es, s1) = dict_coerced_gen(env, sc, pairs@, kt, vt);
                ("HashMap::from(["@ + join(es, ", "@) + "])"@, s1)
            },
            _ => (Seq::<char>::empty(), sc),
        }
    } else {
        expr_gen(env, sc, e)
    }
}

pub open spec fn dict_coerced_gen(env: Env, sc: Scopes, pairs: Seq<(Expr, Expr)>, kt: Type, vt: Type) -> (Seq<Seq<char>>, Scopes)
    decreases pairs, 0int,
{
    if pairs.len() == 0 {
        (Seq::empty(), sc)
    } else {
        let (prev, s1) = dict_coerced_gen(env, sc, pairs.subrange(0, pairs.len() - 1), kt, vt);
        let (k, s2) = coerced_gen(env, s1, pairs[pairs.len() - 1].0, Some(kt));
        let (v, s3) = coerced_gen(env, s2, pairs[pairs.len() - 1].1, Some(vt));
        (prev.push("("@ + k + ", "@ + v + ")"@), s3)
    }
}

pub open spec fn dict_gen(env: Env, sc: Scopes, pairs: Seq<(Expr, Expr)>) -> (Seq<Seq<char>>, Scopes)
    decreases pairs, 0int,
{
    if pairs.len() == 0 {
        (Seq::empty(), sc)
    } else {
        let (prev, s1) = dict_gen(env, sc, pairs.subrange(0, pairs.len() - 1));
        let (k, s2) = expr_gen(env, s1, pairs[pairs.len() - 1].0);
        let (v, s3) = expr_gen(env, s2, pairs[pairs.len() - 1].1);
        (prev.push("("@ + k + ", "@ + v + ")"@), s3)
    }
}

/// The texts of expressions, generated left to right.
pub open spec fn exprs_gen(env: Env, sc: Scopes, es: Seq<Expr>) -> (Seq<Seq<char>>, Scopes)
    decreases es, 0int,
{
    if es.len() == 0 {
        (Seq::empty(), sc)
    } else {
        let (prev, s1) = exprs_gen(env, sc, es.subrange(0, es.len() - 1));
        let (c, s2) = expr_gen(env, s1, es[es.len() - 1]);
        (prev.push(c), s2)
    }
}

pub open spec fn expr_rank(e: Expr) -> int {
    if e is Field {
        2
    } else {
        5
    }
}

pub open spec fn place_rank(e: Expr) -> int {
    if e is Field {
        1
    } else {
        8
    }
}

/// The Rust text of an expression and the scopes after it.
pub open spec fn expr_gen(env: Env, sc: Scopes, e: Expr) -> (Seq<char>, Scopes)
    decreases e, expr_rank(e),
{
    match e {
        Expr::Int(n) => (decimal_int(n as int), sc),
        Expr::Float(f) => (f@, sc),
        Expr::Str(s) => (quoted(s@), sc),
        Expr::RawStr(s) => (s@, sc),
        Expr::Bool(b) => (bool_rust(b), sc),
        Expr::NoneLit => ("None"@, sc),
        Expr::Ident(name) => (
            match lookup(env.aliases, name@) {
                Some(target) => target,
                None => name@,
            },
            sc,
        ),
        Expr::Unary { op, expr } => {
            let (a, s1) = atom_gen(env, sc, *expr);
            (unary_rust(op) + a, s1)
        },
        Expr::Binary { op, lhs, rhs } => {
            let p = spec_binop_prec(op);
            let (l, s1) = operand_gen(env, sc, *lhs, p, true);
            let (r, s2) = operand_gen(env, s1, *rhs, p, false);
            (l + " "@ + op.spec_rust() + " "@ + r, s2)
        },
        Expr::Field { .. } => {
            let (t, _, s1) = place_gen(env, sc, e);
            (t, s1)
        },
        Expr::Index { recv, index } => {
            let (a, s1) = atom_gen(env, sc, *recv);
            let (i, s2) = expr_gen(env, s1, *index);
            (a + "["@ + i + "]"@, s2)
        },
        Expr::Call { .. } => call_gen(env, sc, e),
        Expr::Ref { mutable, expr } => {
            let (a, s1) = atom_gen(env, sc, *expr);
            ("&"@ + mut_prefix(mutable) + a, s1)
        },
        Expr::Deref(x) => {
            let (a, s1) = atom_gen(env, sc, *x);
            ("*"@ + a, s1)
        },
        Expr::CloneExpr(x) => {
            let (a, s1) = atom_gen(env, sc, *x);
            (a + ".clone()"@, s1)
        },
        Expr::Move(x) => expr_gen(env, sc, *x),
        Expr::Await(x) => {
            let (a, s1) = atom_gen(env, sc, *x);
            (a + ".await"@, s1)
        },
        Expr::Try(x) => {
            let (a, s1) = atom_gen(env, sc, *x);
            (a + "?"@, s1)
        },
        Expr::Range { start, end, inclusive } => {
            let (a, s1) = match start {
                Some(x) => expr_gen(env, sc, *x),
                None => (Seq::<char>::empty(), sc),
            };
            let (b, s2) = match end {
                Some(x) => expr_gen(env, s1, *x),
                None => (Seq::<char>::empty(), s1),
            };
            (
                a + (if inclusive {
                    "..="@
                } else {
                    ".."@
                }) + b,
                s2,
            )
        },
        Expr::Tuple(elems) => {
            let (cs, s1) = exprs_gen(env, sc, elems@);
            (
                if cs.len() == 0 {
                    "()"@
                } else if cs.len() == 1 {
                    "("@ + cs[0] + ",)"@
                } else {
                    paren(join(cs, ", "@))
                },
                s1,
            )
        },
        Expr::List(elems) => {
            let (cs, s1) = exprs_gen(env, sc, elems@);
            ("vec!["@ + join(cs, ", "@) + "]"@, s1)
        },
        Expr::Dict(pairs) => {
            let (es, s1) = dict_gen(env, sc, pairs@);
            ("HashMap::from(["@ + join(es, ", "@) + "])"@, s1)
        },
        Expr::If(ie) => {
            let (a, s1) = if_arms_gen(env, sc, ie.arms@, true, None);
            let (b, s2) = block_gen(env, s1, ie.else_body@, true, None);
            (a + " else "@ + b, s2)
        },
        Expr::Match(m) => match_gen(env, sc, *m, true, None),
        Expr::Loop { label, body } => {
            let (b, s1) = block_gen(env, sc, body@, false, None);
            (loop_text(label, b), s1)
        },
        Expr::Closure { is_move, params, ret, body } => {
            let s1 = declare_names(sc.push(Seq::empty()), param_names(params@));
            let (b, s2) = block_gen(env, s1, body@, true, ret);
            (
                (if is_move {
                    "move "@
                } else {
                    Seq::<char>::empty()
                }) + "|"@ + join(
                    params@.map_values(|p: Param| closure_param_text(env.aliases, p)),
                    ", "@,
                ) + "|"@ + ret_arrow(env.aliases, ret) + " "@ + b,
                s2.drop_last(),
            )
        },
    }
}

/// An operand of a binary operator, parenthesised where it binds looser than
/// its parent or, on the right, as loose.
pub open spec fn operand_gen(env: Env, sc: Scopes, e: Expr, parent: u8, is_left: bool) -> (Seq<char>, Scopes)
    decreases e, 7int,
{
    let (s, s1) = expr_gen(env, sc, e);
    match e {
        Expr::Binary { op, .. } => {
            let cp = spec_binop_prec(op);
            (
                if cp < parent || (cp == parent && !is_left) {
                    paren(s)
                } else {
                    s
                },
                s1,
            )
        },
        _ => (
            if is_low(e) {
                paren(s)
            } else {
                s
            },
            s1,
        ),
    }
}

/// An operand of a prefix or postfix operator.
pub open spec fn atom_gen(env: Env, sc: Scopes, e: Expr) -> (Seq<char>, Scopes)
    decreases e, 6int,
{
    let (s, s1) = expr_gen(env, sc, e);
    (
        if is_low(e) {
            paren(s)
        } else {
            s
        },
        s1,
    )
}

/// A member-access chain, and whether it names a type or module path
/// (members joined by `::`) rather than a value (joined by `.`).
pub open spec fn place_gen(env: Env, sc: Scopes, e: Expr) -> (Seq<char>, bool, Scopes)
    decreases e, place_rank(e),
{
    match e {
        Expr::Ident(name) => match lookup(env.aliases, name@) {
            Some(target) => (target, true, sc),
            None => (
                name@,
                starts_upper_spec(name@) || env.modules.contains(name@),
                sc,
            ),
        },
        Expr::Field { recv, name } => {
            let (rc, rp, s1) = place_gen(env, sc, *recv);
            let colon = rp || starts_upper_spec(name@);
            (
                rc + (if colon {
                    "::"@
                } else {
                    "."@
                }) + name@,
                colon,
                s1,
            )
        },
        _ => {
            let (a, s1) = atom_gen(env, sc, e);
            (a, false, s1)
        },
    }
}

/// A call: a macro invocation, `Ok()` / `Some()` with the unit value, a struct
/// literal when any argument is named, or a plain call.
pub open spec fn call_gen(env: Env, sc: Scopes, e: Expr) -> (Seq<char>, Scopes)
    decreases e, 4int,
{
    match e {
        Expr::Call { callee, type_args, args } => {
            let mac = match *callee {
                Expr::Ident(name) => lookup(env.macros, name@),
                _ => None,
            };
            let unit = match *callee {
                Expr::Ident(name) => (name@ == "Ok"@ || name@ == "Some"@) && args@.len() == 0,
                _ => false,
            };
            if mac is Some {
                macro_gen(env, sc, mac->0, args@)
            } else if unit {
                (
                    match *callee {
                        Expr::Ident(name) => name@,
                        _ => Seq::<char>::empty(),
                    } + "(())"@,
                    sc,
                )
            } else if has_keyword(args@) {
                struct_lit_gen(env, sc, e)
            } else {
                let (cc, _, s1) = place_gen(env, sc, *callee);
                let turbo = if type_args@.len() == 0 {
                    Seq::<char>::empty()
                } else {
                    "::<"@ + types_rust(env.aliases, type_args@) + ">"@
                };
                let params = match *callee {
                    Expr::Ident(n) => lookup(env.sigs, n@),
                    _ => None,
                };
                let (cs, s2) = call_args_gen(env, s1, args@, params);
                (cc + turbo + paren(join(cs, ", "@)), s2)
            }
        },
        _ => (Seq::<char>::empty(), sc),
    }
}

/// Positional arguments, each coerced to the callee's parameter type where known.
pub open spec fn call_args_gen(env: Env, sc: Scopes, args: Seq<Arg>, params: Option<Seq<Param>>) -> (Seq<Seq<char>>, Scopes)
    decreases args, 0int,
{
    if args.len() == 0 {
        (Seq::empty(), sc)
    } else {
        let (prev, s1) = call_args_gen(env, sc, args.subrange(0, args.len() - 1), params);
        let (c, s2) = match args[args.len() - 1] {
            Arg::Positional(x) => coerced_gen(
                env,
                s1,
                x,
                param_type_at(params, args.len() - 1),
            ),
            Arg::Keyword(_, x) => expr_gen(env, s1, x),
        };
        (prev.push(c), s2)
    }
}

/// A struct literal: each named argument coerced to its field's type.
pub open spec fn struct_lit_gen(env: Env, sc: Scopes, e: Expr) -> (Seq<char>, Scopes)
    decreases e, 3int,
{
    match e {
        Expr::Call { callee, args, .. } => {
            let (tc, _, s1) = place_gen(env, sc, *callee);
            let fields = lookup(env.structs, last_path_segment(tc));
            let (parts, s2) = field_args_gen(env, s1, args@, fields);
            (tc + " { "@ + join(parts, ", "@) + " }"@, s2)
        },
        _ => (Seq::<char>::empty(), sc),
    }
}

pub open spec fn field_args_gen(env: Env, sc: Scopes, args: Seq<Arg>, fields: Option<Seq<Field>>) -> (Seq<Seq<char>>, Scopes)
    decreases args, 0int,
{
    if args.len() == 0 {
        (Seq::empty(), sc)
    } else {
        let (prev, s1) = field_args_gen(env, sc, args.subrange(0, args.len() - 1), fields);
        match args[args.len() - 1] {
            Arg::Keyword(name, x) => {
                let (v, s2) = coerced_gen(env, s1, x, struct_field_type(fields, name@));
                (prev.push(name@ + ": "@ + v), s2)
            },
            Arg::Positional(_) => (prev, s1),
        }
    }
}

/// The argument's expression, positional or named.
pub open spec fn arg_gen(env: Env, sc: Scopes, a: Arg) -> (Seq<char>, Scopes)
    decreases a, 0int,
{
    match a {
        Arg::Positional(x) => expr_gen(env, sc, x),
        Arg::Keyword(_, x) => expr_gen(env, sc, x),
    }
}

pub open spec fn arg_exprs_gen(env: Env, sc: Scopes, args: Seq<Arg>) -> (Seq<Seq<char>>, Scopes)
    decreases args, 1int,
{
    if args.len() == 0 {
        (Seq::empty(), sc)
    } else {
        let (prev, s1) = arg_exprs_gen(env, sc, args.subrange(0, args.len() - 1));
        let (c, s2) = arg_gen(env, s1, args[args.len() - 1]);
        (prev.push(c), s2)
    }
}

/// A macro invocation `m!(...)`.
pub open spec fn macro_gen(env: Env, sc: Scopes, m: Seq<char>, args: Seq<Arg>) -> (Seq<char>, Scopes)
    decreases args, 3int,
{
    if m == "vec"@ {
        let (es, s1) = arg_exprs_gen(env, sc, args);
        ("vec!["@ + join(es, ", "@) + "]"@, s1)
    } else if m == "println"@ || m == "print"@ || m == "eprintln"@ || m == "format"@ {
        print_like_gen(env, sc, m, args)
    } else {
        let (es, s1) = arg_exprs_gen(env, sc, args);
        (m + "!"@ + paren(join(es, ", "@)), s1)
    }
}

/// A print-like macro: a leading string literal is the format string;
/// otherwise each argument gets a `{}` placeholder.
pub open spec fn print_like_gen(env: Env, sc: Scopes, m: Seq<char>, args: Seq<Arg>) -> (Seq<char>, Scopes)
    decreases args, 2int,
{
    if args.len() == 0 {
        (m + "!()"@, sc)
    } else if is_string_literal(args[0]) {
        let (f, s1) = arg_gen(env, sc, args[0]);
        if args.len() == 1 {
            (m + "!"@ + paren(f), s1)
        } else {
            let (rest, s2) = arg_exprs_gen(env, s1, args.subrange(1, args.len() as int));
            (m + "!"@ + paren(f + ", "@ + join(rest, ", "@)), s2)
        }
    } else {
        let (vals, s1) = arg_exprs_gen(env, sc, args);
        (m + "!"@ + paren(quoted(placeholders(args.len())) + ", "@ + join(vals, ", "@)), s1)
    }
}

// ---- functions, traits, impls and the module ------------------------------------

pub open spec fn param_rust(al: Pairs, p: Param) -> Seq<char> {
    if p.name@ == "self"@ {
        receiver_rust(al, p.ty)
    } else {
        p.name@ + ": "@ + type_rust(al, p.ty)
    }
}

pub open spec fn flag_word(b: bool, word: Seq<char>) -> Seq<char> {
    if b {
        word
    } else {
        Seq::<char>::empty()
    }
}

/// The tables with `ret` as the enclosing function's return type.
pub open spec fn with_ret(env: Env, ret: Option<Type>) -> Env {
    Env { ret: ret, ..env }
}

/// A function's return type as the generator tracks it: `None` for `void`.
pub open spec fn ret_of(t: Type) -> Option<Type> {
    match t {
        Type::Unit => None,
        _ => Some(t),
    }
}

/// The Rust signature of a function, up to its body.
pub open spec fn function_sig(al: Pairs, f: Function) -> Seq<char> {
    attrs_rust(f.attrs@) + vis_rust(f.is_pub) + flag_word(f.is_async, "async "@) + flag_word(
        f.is_unsafe,
        "unsafe "@,
    ) + "fn "@ + f.name@ + generics_rust(f.generics@) + paren(
        join(f.params@.map_values(|p: Param| param_rust(al, p)), ", "@),
    ) + ret_arrow(al, ret_of(f.ret))
}

/// A function: its signature, then `;` or its body, generated in a fresh
/// scope holding the parameters, with the function's return type as the
/// expected type of returned values and of the tail.
pub open spec fn function_gen(env: Env, sc: Scopes, f: Function) -> (Seq<char>, Scopes) {
    let sig = function_sig(env.aliases, f);
    match f.body {
        None => (sig + ";"@, sc),
        Some(body) => {
            let s1 = declare_names(sc.push(Seq::empty()), param_names(f.params@));
            let ret = ret_of(f.ret);
            let (b, s2) = block_gen(with_ret(env, ret), s1, body@, ret is Some, ret);
            (sig + " "@ + b, s2.drop_last())
        },
    }
}

pub open spec fn functions_gen(env: Env, sc: Scopes, fs: Seq<Function>) -> (Seq<Seq<char>>, Scopes)
    decreases fs.len(),
{
    if fs.len() == 0 {
        (Seq::empty(), sc)
    } else {
        let (prev, s1) = functions_gen(env, sc, fs.drop_last());
        let (t, s2) = function_gen(env, s1, fs.last());
        (prev.push(t), s2)
    }
}

pub open spec fn members_text(ms: Seq<Seq<char>>) -> Seq<char> {
    " {\n"@ + indent_spec(join(ms, "\n\n"@), 1) + "\n}"@
}

pub open spec fn trait_gen(env: Env, sc: Scopes, t: Trait) -> (Seq<char>, Scopes) {
    let (ms, s1) = functions_gen(env, sc, t.methods@);
    (
        attrs_rust(t.attrs@) + vis_rust(t.is_pub) + "trait "@ + t.name@ + generics_rust(t.generics@)
            + members_text(ms),
        s1,
    )
}

pub open spec fn impl_head(al: Pairs, i: Impl) -> Seq<char> {
    match i.trait_name {
        Some(tr) => "impl"@ + generics_rust(i.generics@) + " "@ + type_rust(al, tr) + " for "@
            + type_rust(al, i.ty),
        None => "impl"@ + generics_rust(i.generics@) + " "@ + type_rust(al, i.ty),
    }
}

pub open spec fn impl_gen(env: Env, sc: Scopes, i: Impl) -> (Seq<char>, Scopes) {
    let (ms, s1) = functions_gen(env, sc, i.methods@);
    (impl_head(env.aliases, i) + members_text(ms), s1)
}

/// The `use` lines and the item texts of a module, in source order.
pub open spec fn items_gen(env: Env, sc: Scopes, items: Seq<Item>) -> (Seq<Seq<char>>, Seq<Seq<char>>, Scopes)
    decreases items.len(),
{
    if items.len() == 0 {
        (Seq::empty(), Seq::empty(), sc)
    } else {
        let (us, bs, s1) = items_gen(env, sc, items.drop_last());
        match items.last() {
            Item::Use(u) => (us + use_rust(u), bs, s1),
            Item::Function(f) => {
                let (t, s2) = function_gen(env, s1, f);
                (us, bs.push(t), s2)
            },
            Item::Struct(s) => (us, bs.push(struct_rust(env.aliases, s)), s1),
            Item::Enum(e) => (us, bs.push(enum_rust(env.aliases, e)), s1),
            Item::Trait(t) => {
                let (x, s2) = trait_gen(env, s1, t);
                (us, bs.push(x), s2)
            },
            Item::Impl(i) => {
                let (x, s2) = impl_gen(env, s1, i);
                (us, bs.push(x), s2)
            },
        }
    }
}

/// The macro table before any import: TinyS spellings of Rust's macros.
pub open spec fn builtin_macros() -> Pairs {
    seq![
        ("print"@, "println"@),
        ("println"@, "println"@),
        ("eprint"@, "eprintln"@),
        ("format"@, "format"@),
        ("debug"@, "dbg"@),
        ("assert"@, "assert"@),
        ("assert_eq"@, "assert_eq"@),
        ("panic"@, "panic"@),
        ("vec"@, "vec"@),
    ]
}

pub open spec fn initial_env() -> Env {
    Env {
        aliases: Seq::empty(),
        modules: Seq::empty(),
        macros: builtin_macros(),
        structs: Seq::empty(),
        sigs: Seq::empty(),
        ret: None,
    }
}

/// The entries a macro import adds: each name, or its alias, maps to the
/// crate-qualified macro, or for a prelude or std macro to what the name
/// already maps to (or itself).
pub open spec fn macro_entries(m: Pairs, names: Seq<UseName>, base: Option<Seq<char>>) -> Pairs
    decreases names.len(),
{
    if names.len() == 0 {
        m
    } else {
        let m1 = macro_entries(m, names.drop_last(), base);
        let n = names.last();
        let callable = match n.alias {
            Some(a) => a@,
            None => n.name@,
        };
        let rust = match base {
            Some(b) => b + "::"@ + n.name@,
            None => match lookup(m1, n.name@) {
                Some(r) => r,
                None => n.name@,
            },
        };
        m1.push((callable, rust))
    }
}

/// The crate path of a macro import, `None` for the prelude and std.
pub open spec fn macro_base(u: Use) -> Option<Seq<char>> {
    if u.path@.len() == 0 || u.path@[0]@ == "std"@ {
        None
    } else {
        Some(join(views(u.path@), "::"@))
    }
}

/// What an import adds to the tables.
pub open spec fn scan_use(env: Env, u: Use) -> Env {
    if u.is_macro {
        Env { macros: macro_entries(env.macros, u.names@, macro_base(u)), ..env }
    } else {
        let full = flag_word(!u.is_rust, "crate::"@) + join(views(u.path@), "::"@);
        let e1 = match u.alias {
            Some(a) => Env { aliases: env.aliases.push((a@, full)), modules: env.modules.push(a@), ..env },
            None => env,
        };
        if u.alias is None && u.names@.len() == 0 && u.path@.len() > 0 {
            Env { modules: e1.modules.push(u.path@.last()@), ..e1 }
        } else {
            e1
        }
    }
}

/// The tables after the pre-scan of a module's items.
pub open spec fn prescan_env(items: Seq<Item>) -> Env
    decreases items.len(),
{
    if items.len() == 0 {
        initial_env()
    } else {
        let env = prescan_env(items.drop_last());
        match items.last() {
            Item::Struct(s) => Env { structs: env.structs.push((s.name@, s.fields@)), ..env },
            Item::Function(f) => Env { sigs: env.sigs.push((f.name@, f.params@)), ..env },
            Item::Use(u) => scan_use(env, u),
            _ => env,
        }
    }
}

pub open spec fn header_line() -> Seq<char> {
    "#![allow(dead_code, unused_variables, unused_imports, unused_mut, unused_parens, non_snake_case, clippy::all)]\n"@
}

/// `use std::collections::...;` for `HashMap` / `HashSet` when the body names
/// one that no `use` line does.
pub open spec fn auto_imports(body: Seq<char>, uses: Seq<char>) -> Seq<Seq<char>> {
    (if contains_seq(body, "HashMap"@) && !contains_seq(uses, "HashMap"@) {
        seq!["use std::collections::HashMap;"@]
    } else {
        Seq::empty()
    }) + (if contains_seq(body, "HashSet"@) && !contains_seq(uses, "HashSet"@) {
        seq!["use std::collections::HashSet;"@]
    } else {
        Seq::empty()
    })
}

/// Each line followed by a newline.
pub open spec fn lines_text(ls: Seq<Seq<char>>) -> Seq<char>
    decreases ls.len(),
{
    if ls.len() == 0 {
        Seq::<char>::empty()
    } else {
        lines_text(ls.drop_last()) + ls.last() + "\n"@
    }
}

/// The `mod` declarations of the child modules, test modules under `#[cfg(test)]`.
pub open spec fn child_decls(children: Seq<ChildModule>) -> Seq<char>
    decreases children.len(),
{
    if children.len() == 0 {
        Seq::<char>::empty()
    } else {
        child_decls(children.drop_last()) + flag_word(children.last().cfg_test, "#[cfg(test)]\n"@)
            + "pub mod "@ + children.last().name@ + ";\n"@
    }
}

/// The layout of a generated module: the lint header, the child modules, the
/// imports, then the items separated by blank lines.
pub open spec fn module_text(uses: Seq<Seq<char>>, bodies: Seq<Seq<char>>, children: Seq<ChildModule>) -> Seq<char> {
    let body = join(bodies, "\n\n"@);
    let auto = auto_imports(body, join(uses, "\n"@));
    header_line() + (if children.len() == 0 {
        Seq::<char>::empty()
    } else {
        "\n"@ + child_decls(children)
    }) + (if uses.len() == 0 && auto.len() == 0 {
        Seq::<char>::empty()
    } else {
        "\n"@ + lines_text(auto) + lines_text(uses)
    }) + "\n"@ + body + "\n"@
}

/// The Rust source generated for a module whose child modules are `children`.
pub open spec fn module_rust(p: Program, children: Seq<ChildModule>) -> Seq<char> {
    let (uses, bodies, _) = items_gen(prescan_env(p.items@), seq![Seq::empty()], p.items@);
    module_text(uses, bodies, children)
}

// ---- the generator ------------------------------------------------------------------

/// The generator: the tables the pre-scan filled, the scopes of declared
/// bindings, and the return type of the function being generated.
struct Codegen<'p> {
    struct_fields: Vec<(String, &'p Vec<Field>)>,
    fn_sigs: Vec<(String, &'p Vec<Param>)>,
    /// Import alias (e.g. `json`) → real path base (e.g. `serde_json`).
    module_alias: Vec<(String, String)>,
    /// Identifiers that name a module/crate path (used for `::` member access).
    modules: Vec<String>,
    /// TinyS macro-callable name → Rust macro name (without `!`).
    macro_names: Vec<(String, String)>,
    /// Lexical scope stack of declared value bindings (for `let` vs reassign).
    scopes: Vec<Vec<String>>,
    cur_ret: Option<&'p Type>,
}

pub open spec fn opt_type(t: Option<&Type>) -> Option<Type> {
    match t {
        Some(t) => Some(*t),
        None => None,
    }
}

pub open spec fn scopes_of(v: Seq<Vec<String>>) -> Scopes {
    v.map_values(|s: Vec<String>| views(s@))
}

impl<'p> Codegen<'p> {
    spec fn env(&self) -> Env {
        Env {
            aliases: pair_views(self.module_alias@),
            modules: views(self.modules@),
            macros: pair_views(self.macro_names@),
            structs: self.struct_fields@.map_values(|p: (String, &'p Vec<Field>)| (p.0@, p.1@)),
            sigs: self.fn_sigs@.map_values(|p: (String, &'p Vec<Param>)| (p.0@, p.1@)),
            ret: opt_type(self.cur_ret),
        }
    }

    spec fn sc(&self) -> Scopes {
        scopes_of(self.scopes@)
    }

    /// Generation left the tables as they were and kept the scope depth.
    spec fn kept(&self, old: &Self) -> bool {
        &&& self.env() == old.env()
        &&& self.scopes@.len() == old.scopes@.len()
    }

    fn push_scope(&mut self)
        ensures
            final(self).env() == old(self).env(),
            final(self).scopes@.len() == old(self).scopes@.len() + 1,
            final(self).sc() == old(self).sc().push(Seq::empty()),
    {
        let fresh: Vec<String> = Vec::new();
        assert(views(fresh@) =~= Seq::<Seq<char>>::empty());
        self.scopes.push(fresh);
        assert(scopes_of(self.scopes@) =~= scopes_of(old(self).scopes@).push(Seq::empty()));
    }

    fn pop_scope(&mut self)
        requires
            old(self).scopes@.len() > 0,
        ensures
            final(self).env() == old(self).env(),
            final(self).scopes@.len() == old(self).scopes@.len() - 1,
            final(self).sc() == old(self).sc().drop_last(),
    {
        let _ = self.scopes.pop();
        assert(scopes_of(self.scopes@) =~= scopes_of(old(self).scopes@).drop_last());
    }

    fn declare(&mut self, name: &str)
        requires
            old(self).scopes@.len() > 0,
        ensures
            final(self).kept(&*old(self)),
            final(self).sc() == declare(old(self).sc(), name@),
    {
        let mut last = self.scopes.pop().unwrap();
        last.push(String::from_str(name));
        self.scopes.push(last);
        proof {
            let o = old(self).sc();
            assert(views(last@) =~= o.last().push(name@));
            assert(scopes_of(self.scopes@) =~= o.update(o.len() - 1, o.last().push(name@)));
        }
    }

    fn declared(&self, name: &str) -> (r: bool)
        ensures
            r == is_declared(self.sc(), name@),
    {
        let ghost sc = self.sc();
        let mut i: usize = 0;
        while i < self.scopes.len()
            invariant
                i <= self.scopes@.len(),
                sc == self.sc(),
                forall|a: int, b: int| 0 <= a < i && 0 <= b < sc[a].len() ==> sc[a][b] != name@,
            decreases self.scopes@.len() - i,
        {
            let s = &self.scopes[i];
            let mut j: usize = 0;
            while j < s.len()
                invariant
                    i < self.scopes@.len(),
                    j <= s@.len(),
                    *s == self.scopes@[i as int],
                    sc == self.sc(),
                    sc[i as int] == views(s@),
                    forall|b: int| 0 <= b < j ==> sc[i as int][b] != name@,
                decreases s@.len() - j,
            {
                if str_eq(s[j].as_str(), name) {
                    assert(sc[i as int][j as int] == name@);
                    return true;
                }
                j = j + 1;
            }
            i = i + 1;
        }
        false
    }

    fn declare_pattern(&mut self, pat: &Pattern)
        requires
            old(self).scopes@.len() > 0,
        ensures
            final(self).kept(&*old(self)),
            final(self).sc() == declare_pattern(old(self).sc(), *pat),
        decreases pat,
    {
        match pat {
            Pattern::Ident(n) => {
                if !str_eq(n.as_str(), "_") && !str_eq(n.as_str(), "none") {
                    self.declare(n.as_str());
                }
            },
            Pattern::Tuple(ps) => self.declare_patterns(ps),
            Pattern::TupleStruct { elems, .. } => self.declare_patterns(elems),
            Pattern::Or(ps) => self.declare_patterns(ps),
            Pattern::Binding { pattern, name } => {
                self.declare(name.as_str());
                self.declare_pattern(pattern);
            },
            _ => {},
        }
    }

    fn declare_patterns(&mut self, ps: &Vec<Pattern>)
        requires
            old(self).scopes@.len() > 0,
        ensures
            final(self).kept(&*old(self)),
            final(self).sc() == declare_patterns(old(self).sc(), ps@),
        decreases ps,
    {
        let ghost sc0 = self.sc();
        let mut i: usize = 0;
        assert(ps@.subrange(0, 0) =~= Seq::<Pattern>::empty());
        while i < ps.len()
            invariant
                i <= ps@.len(),
                self.kept(&*old(self)),
                self.scopes@.len() > 0,
                sc0 == old(self).sc(),
                self.sc() == declare_patterns(sc0, ps@.subrange(0, i as int)),
            decreases ps@.len() - i,
        {
            self.declare_pattern(&ps[i]);
            assert(ps@.subrange(0, i + 1).subrange(0, i as int) =~= ps@.subrange(0, i as int));
            i = i + 1;
        }
        assert(ps@.subrange(0, ps@.len() as int) =~= ps@);
    }

    fn declare_all(&mut self, names: &Vec<String>)
        requires
            old(self).scopes@.len() > 0,
        ensures
            final(self).kept(&*old(self)),
            final(self).sc() == declare_names(old(self).sc(), views(names@)),
    {
        let ghost sc0 = self.sc();
        let mut i: usize = 0;
        assert(views(names@.subrange(0, 0)) =~= Seq::<Seq<char>>::empty());
        while i < names.len()
            invariant
                i <= names@.len(),
                self.kept(&*old(self)),
                self.scopes@.len() > 0,
                sc0 == old(self).sc(),
                self.sc() == declare_names(sc0, views(names@.subrange(0, i as int))),
            decreases names@.len() - i,
        {
            self.declare(names[i].as_str());
            assert(views(names@.subrange(0, i + 1)).drop_last() =~= views(
                names@.subrange(0, i as int),
            ));
            i = i + 1;
        }
        assert(names@.subrange(0, names@.len() as int) =~= names@);
    }
}

impl<'p> Codegen<'p> {
    // ---- statements & blocks --------------------------------------------------

    fn gen_block(&mut self, stmts: &Vec<Stmt>, as_value: bool, tail: Option<&Type>) -> (r: String)
        requires
            old(self).scopes@.len() > 0,
            stmts_wf(stmts@),
        ensures
            final(self).kept(&*old(self)),
            r@ == block_gen(old(self).env(), old(self).sc(), stmts@, as_value, opt_type(tail)).0,
            final(self).sc() == block_gen(old(self).env(), old(self).sc(), stmts@, as_value, opt_type(tail)).1,
        decreases stmts, 2int,
    {
        let ghost env = self.env();
        let ghost sc0 = self.sc();
        let n = stmts.len();
        let mut parts: Vec<String> = Vec::new();
        let mut i: usize = 0;
        assert(views(parts@) =~= Seq::<Seq<char>>::empty());
        assert(stmts@.subrange(0, 0) =~= Seq::<Stmt>::empty());
        while i < n
            invariant
                i <= n,
                n == stmts@.len(),
                stmts_wf(stmts@),
                self.kept(&*old(self)),
                self.scopes@.len() > 0,
                env == old(self).env(),
                sc0 == old(self).sc(),
                views(parts@) == block_parts(env, sc0, stmts@.subrange(0, i as int), as_value, opt_type(tail), n as nat).0,
                self.sc() == block_parts(env, sc0, stmts@.subrange(0, i as int), as_value, opt_type(tail), n as nat).1,
            decreases n - i,
        {
            proof {
                lemma_stmts_wf_at(stmts@, i as int);
            }
            let is_tail = as_value && i + 1 == n;
            let expected = if is_tail {
                tail
            } else {
                None
            };
            let code = self.gen_stmt(&stmts[i], is_tail, expected);
            let ghost before = parts@;
            if code.as_str().unicode_len() > 0 {
                parts.push(code);
            }
            proof {
                let p = stmts@.subrange(0, i + 1);
                assert(p.subrange(0, i as int) =~= stmts@.subrange(0, i as int));
                assert(p[i as int] == stmts@[i as int]);
                assert(views(parts@) =~= block_parts(env, sc0, p, as_value, opt_type(tail), n as nat).0);
            }
            i = i + 1;
        }
        assert(stmts@.subrange(0, n as int) =~= stmts@);
        if parts.len() == 0 {
            return String::from_str("{}");
        }
        let mut out = String::from_str("{\n");
        let joined = join_strings(&parts, "\n");
        let ind = indent(joined.as_str(), 1);
        out.append(ind.as_str());
        out.append("\n}");
        out
    }

    fn gen_stmt(&mut self, stmt: &Stmt, is_tail: bool, tail: Option<&Type>) -> (r: String)
        requires
            old(self).scopes@.len() > 0,
            stmt_wf(*stmt),
        ensures
            final(self).kept(&*old(self)),
            r@ == stmt_gen(old(self).env(), old(self).sc(), *stmt, is_tail, opt_type(tail)).0,
            final(self).sc() == stmt_gen(old(self).env(), old(self).sc(), *stmt, is_tail, opt_type(tail)).1,
        decreases stmt, 0int,
    {
        match stmt {
            Stmt::Let { mutable, name, ty, value } => {
                let expected: Option<&Type> = match ty {
                    Some(t) => Some(t),
                    None => None,
                };
                let val = self.gen_expr_coerced(value, expected);
                let has_ty = match ty {
                    Some(_) => true,
                    None => false,
                };
                if *mutable || has_ty {
                    self.declare(name.as_str());
                    let mut out = String::from_str("let ");
                    if *mutable {
                        out.append("mut ");
                    }
                    out.append(name.as_str());
                    match ty {
                        Some(t) => {
                            out.append(": ");
                            let tt = gen_type(&self.module_alias, t);
                            out.append(tt.as_str());
                        },
                        None => {},
                    }
                    out.append(" = ");
                    out.append(val.as_str());
                    out.append(";");
                    out
                } else if self.declared(name.as_str()) {
                    let mut out = name.clone();
                    out.append(" = ");
                    out.append(val.as_str());
                    out.append(";");
                    out
                } else {
                    self.declare(name.as_str());
                    let mut out = String::from_str("let ");
                    out.append(name.as_str());
                    out.append(" = ");
                    out.append(val.as_str());
                    out.append(";");
                    out
                }
            },
            Stmt::LetTuple { names, value } => {
                self.declare_all(names);
                let v = self.gen_expr(value);
                let mut out = String::from_str("let (");
                let j = join_strings(names, ", ");
                out.append(j.as_str());
                out.append(") = ");
                out.append(v.as_str());
                out.append(";");
                out
            },
            Stmt::Assign { target, op, value } => {
                let t = self.gen_expr(target);
                let v = self.gen_expr(value);
                let mut out = t;
                out.append(" ");
                out.append(assign_op_str(*op));
                out.append(" ");
                out.append(v.as_str());
                out.append(";");
                out
            },
            Stmt::Expr(e) => {
                if is_tail {
                    self.gen_expr_coerced(e, tail)
                } else {
                    let mut out = self.gen_expr(e);
                    out.append(";");
                    out
                }
            },
            Stmt::Return(v) => match v {
                Some(e) => {
                    let expected = self.cur_ret;
                    let c = self.gen_expr_coerced(e, expected);
                    let mut out = String::from_str("return ");
                    out.append(c.as_str());
                    out.append(";");
                    out
                },
                None => String::from_str("return;"),
            },
            Stmt::If(chain) => {
                let mut out = self.gen_if_arms(&chain.arms, is_tail, tail);
                match &chain.else_body {
                    Some(eb) => {
                        let b = self.gen_block(eb, is_tail, tail);
                        out.append(" else ");
                        out.append(b.as_str());
                    },
                    None => {},
                }
                out
            },
            Stmt::While { cond, body } => {
                let b = self.gen_block(body, false, None);
                let c = self.gen_expr(cond);
                let mut out = String::from_str("while ");
                out.append(c.as_str());
                out.append(" ");
                out.append(b.as_str());
                out
            },
            Stmt::WhileCase { pattern, expr, body } => {
                self.declare_pattern(pattern);
                let b = self.gen_block(body, false, None);
                let p = gen_pattern(pattern);
                let c = self.gen_expr(expr);
                let mut out = String::from_str("while let ");
                out.append(p.as_str());
                out.append(" = ");
                out.append(c.as_str());
                out.append(" ");
                out.append(b.as_str());
                out
            },
            Stmt::For { pattern, iter, iter_borrow, body } => {
                self.declare_pattern(pattern);
                let iter_code = match iter_borrow {
                    Borrow::Owned => self.gen_expr(iter),
                    Borrow::Ref => {
                        let mut s = String::from_str("&");
                        let a = self.gen_atom(iter);
                        s.append(a.as_str());
                        s
                    },
                    Borrow::MutRef => {
                        let mut s = String::from_str("&mut ");
                        let a = self.gen_atom(iter);
                        s.append(a.as_str());
                        s
                    },
                };
                let b = self.gen_block(body, false, None);
                let mut out = String::from_str("for ");
                let p = gen_pattern(pattern);
                out.append(p.as_str());
                out.append(" in ");
                out.append(iter_code.as_str());
                out.append(" ");
                out.append(b.as_str());
                out
            },
            Stmt::Loop { label, body } => {
                let b = self.gen_block(body, false, None);
                loop_string(label, b)
            },
            Stmt::Break { label, value } => {
                let mut out = String::from_str("break");
                match label {
                    Some(l) => {
                        out.append(" '");
                        out.append(l.as_str());
                    },
                    None => {},
                }
                match value {
                    Some(e) => {
                        let c = self.gen_expr(e);
                        out.append(" ");
                        out.append(c.as_str());
                    },
                    None => {},
                }
                out.append(";");
                out
            },
            Stmt::Continue => String::from_str("continue;"),
            Stmt::Match(m) => self.gen_match(m, is_tail, tail),
            Stmt::Unsafe(body) => {
                let b = self.gen_block(body, is_tail, tail);
                let mut out = String::from_str("unsafe ");
                out.append(b.as_str());
                out
            },
            Stmt::Pass => String::new(),
        }
    }

    fn gen_if_arms(&mut self, arms: &Vec<(CondKind, Vec<Stmt>)>, as_value: bool, tail: Option<&Type>) -> (r: String)
        requires
            old(self).scopes@.len() > 0,
            cond_arms_wf(arms@),
        ensures
            final(self).kept(&*old(self)),
            r@ == if_arms_gen(old(self).env(), old(self).sc(), arms@, as_value, opt_type(tail)).0,
            final(self).sc() == if_arms_gen(old(self).env(), old(self).sc(), arms@, as_value, opt_type(tail)).1,
        decreases arms, 0int,
    {
        let ghost env = self.env();
        let ghost sc0 = self.sc();
        let mut out = String::new();
        let mut i: usize = 0;
        assert(arms@.subrange(0, 0) =~= Seq::<(CondKind, Vec<Stmt>)>::empty());
        while i < arms.len()
            invariant
                i <= arms@.len(),
                cond_arms_wf(arms@),
                self.kept(&*old(self)),
                self.scopes@.len() > 0,
                env == old(self).env(),
                sc0 == old(self).sc(),
                out@ == if_arms_gen(env, sc0, arms@.subrange(0, i as int), as_value, opt_type(tail)).0,
                self.sc() == if_arms_gen(env, sc0, arms@.subrange(0, i as int), as_value, opt_type(tail)).1,
            decreases arms@.len() - i,
        {
            proof {
                lemma_cond_arms_wf_at(arms@, i as int);
            }
            let ghost prev = out@;
            let head = match &arms[i].0 {
                CondKind::Bool(e) => {
                    let mut h = String::from_str("if ");
                    let c = self.gen_expr(e);
                    h.append(c.as_str());
                    h
                },
                CondKind::Case { pattern, expr } => {
                    self.declare_pattern(pattern);
                    let c = self.gen_expr(expr);
                    let mut h = String::from_str("if let ");
                    let p = gen_pattern(pattern);
                    h.append(p.as_str());
                    h.append(" = ");
                    h.append(c.as_str());
                    h
                },
            };
            if i > 0 {
                out.append(" else ");
            }
            out.append(head.as_str());
            out.append(" ");
            let b = self.gen_block(&arms[i].1, as_value, tail);
            out.append(b.as_str());
            proof {
                let p = arms@.subrange(0, i + 1);
                assert(p.subrange(0, i as int) =~= arms@.subrange(0, i as int));
                assert(p[i as int] == arms@[i as int]);
                let (pv, s1) = if_arms_gen(env, sc0, arms@.subrange(0, i as int), as_value, opt_type(tail));
                assert(pv == prev);
                if i == 0 {
                    assert(out@ =~= prev + head@ + " "@ + b@);
                } else {
                    assert(out@ =~= prev + " else "@ + head@ + " "@ + b@);
                }
            }
            i = i + 1;
        }
        assert(arms@.subrange(0, arms@.len() as int) =~= arms@);
        out
    }

    fn gen_match(&mut self, m: &MatchExpr, as_value: bool, tail: Option<&Type>) -> (r: String)
        requires
            old(self).scopes@.len() > 0,
            expr_wf(*m.scrutinee),
            match_arms_wf(m.arms@),
        ensures
            final(self).kept(&*old(self)),
            r@ == match_gen(old(self).env(), old(self).sc(), *m, as_value, opt_type(tail)).0,
            final(self).sc() == match_gen(old(self).env(), old(self).sc(), *m, as_value, opt_type(tail)).1,
        decreases m, 1int,
    {
        let scrut = self.gen_expr(&m.scrutinee);
        let arms = self.gen_match_arms(&m.arms, as_value, tail);
        let mut out = String::from_str("match ");
        out.append(scrut.as_str());
        out.append(" {\n");
        let joined = join_strings(&arms, "\n");
        let ind = indent(joined.as_str(), 1);
        out.append(ind.as_str());
        out.append("\n}");
        out
    }

    fn gen_match_arms(&mut self, arms: &Vec<MatchArm>, as_value: bool, tail: Option<&Type>) -> (r: Vec<String>)
        requires
            old(self).scopes@.len() > 0,
            match_arms_wf(arms@),
        ensures
            final(self).kept(&*old(self)),
            views(r@) == match_arms_gen(old(self).env(), old(self).sc(), arms@, as_value, opt_type(tail)).0,
            final(self).sc() == match_arms_gen(old(self).env(), old(self).sc(), arms@, as_value, opt_type(tail)).1,
        decreases arms, 0int,
    {
        let ghost env = self.env();
        let ghost sc0 = self.sc();
        let mut out: Vec<String> = Vec::new();
        let mut i: usize = 0;
        assert(arms@.subrange(0, 0) =~= Seq::<MatchArm>::empty());
        assert(views(out@) =~= Seq::<Seq<char>>::empty());
        while i < arms.len()
            invariant
                i <= arms@.len(),
                match_arms_wf(arms@),
                self.kept(&*old(self)),
                self.scopes@.len() > 0,
                env == old(self).env(),
                sc0 == old(self).sc(),
                views(out@) == match_arms_gen(env, sc0, arms@.subrange(0, i as int), as_value, opt_type(tail)).0,
                self.sc() == match_arms_gen(env, sc0, arms@.subrange(0, i as int), as_value, opt_type(tail)).1,
            decreases arms@.len() - i,
        {
            proof {
                lemma_match_arms_wf_at(arms@, i as int);
            }
            let arm = &arms[i];
            self.declare_pattern(&arm.pattern);
            let guard = match &arm.guard {
                Some(g) => {
                    let c = self.gen_expr(g);
                    let mut s = String::from_str(" if ");
                    s.append(c.as_str());
                    s
                },
                None => String::new(),
            };
            let b = self.gen_block(&arm.body, as_value, tail);
            let mut line = gen_pattern(&arm.pattern);
            line.append(guard.as_str());
            line.append(" => ");
            line.append(b.as_str());
            line.append(",");
            let ghost before = out@;
            out.push(line);
            proof {
                let p = arms@.subrange(0, i + 1);
                assert(p.subrange(0, i as int) =~= arms@.subrange(0, i as int));
                assert(p[i as int] == arms@[i as int]);
                assert(views(out@) =~= views(before).push(line@));
            }
            i = i + 1;
        }
        assert(arms@.subrange(0, arms@.len() as int) =~= arms@);
        out
    }
}

fn assign_op_str(op: AssignOp) -> (r: &'static str)
    ensures
        r@ == assign_op_rust(op),
{
    match op {
        AssignOp::Eq => "=",
        AssignOp::Add => "+=",
        AssignOp::Sub => "-=",
        AssignOp::Mul => "*=",
        AssignOp::Div => "/=",
        AssignOp::Rem => "%=",
    }
}

fn loop_string(label: &Option<String>, b: String) -> (r: String)
    ensures
        r@ == loop_text(*label, b@),
{
    match label {
        Some(l) => {
            let mut out = String::from_str("'");
            out.append(l.as_str());
            out.append(": loop ");
            out.append(b.as_str());
            out
        },
        None => {
            let mut out = String::from_str("loop ");
            out.append(b.as_str());
            out
        },
    }
}

impl<'p> Codegen<'p> {
    // ---- expressions ----------------------------------------------------------

    /// Coerce string literals / collection literals / `if`/`match` tails to an
    /// expected owned type where TinyS implies a conversion Rust wouldn't infer.
    fn gen_expr_coerced(&mut self, e: &Expr, expected: Option<&Type>) -> (r: String)
        requires
            old(self).scopes@.len() > 0,
            expr_wf(*e),
        ensures
            final(self).kept(&*old(self)),
            r@ == coerced_gen(old(self).env(), old(self).sc(), *e, opt_type(expected)).0,
            final(self).sc() == coerced_gen(old(self).env(), old(self).sc(), *e, opt_type(expected)).1,
        decreases e, 7int,
    {
        let owned = match expected {
            Some(t) => is_owned_string(t),
            None => false,
        };
        if owned {
            match e {
                Expr::Str(_) | Expr::RawStr(_) => {
                    let mut out = self.gen_expr(e);
                    out.append(".to_string()");
                    return out;
                },
                Expr::If(ie) => {
                    let mut out = self.gen_if_arms(&ie.arms, true, expected);
                    let b = self.gen_block(&ie.else_body, true, expected);
                    out.append(" else ");
                    out.append(b.as_str());
                    return out;
                },
                Expr::Match(m) => {
                    return self.gen_match(m, true, expected);
                },
                _ => {},
            }
        }
        match e {
            Expr::Dict(pairs) => match expected {
                Some(t) => match dict_kv(t) {
                    Some((kt, vt)) => {
                        let entries = self.gen_dict_coerced(pairs, kt, vt);
                        let mut out = String::from_str("HashMap::from([");
                        let j = join_strings(&entries, ", ");
                        out.append(j.as_str());
                        out.append("])");
                        return out;
                    },
                    None => {},
                },
                None => {},
            },
            _ => {},
        }
        self.gen_expr(e)
    }

    fn gen_dict_coerced(&mut self, pairs: &Vec<(Expr, Expr)>, kt: &Type, vt: &Type) -> (r: Vec<String>)
        requires
            old(self).scopes@.len() > 0,
            pairs_wf(pairs@),
        ensures
            final(self).kept(&*old(self)),
            views(r@) == dict_coerced_gen(old(self).env(), old(self).sc(), pairs@, *kt, *vt).0,
            final(self).sc() == dict_coerced_gen(old(self).env(), old(self).sc(), pairs@, *kt, *vt).1,
        decreases pairs, 0int,
    {
        let ghost env = self.env();
        let ghost sc0 = self.sc();
        let mut out: Vec<String> = Vec::new();
        let mut i: usize = 0;
        assert(pairs@.subrange(0, 0) =~= Seq::<(Expr, Expr)>::empty());
        assert(views(out@) =~= Seq::<Seq<char>>::empty());
        while i < pairs.len()
            invariant
                i <= pairs@.len(),
                pairs_wf(pairs@),
                self.kept(&*old(self)),
                self.scopes@.len() > 0,
                env == old(self).env(),
                sc0 == old(self).sc(),
                views(out@) == dict_coerced_gen(env, sc0, pairs@.subrange(0, i as int), *kt, *vt).0,
                self.sc() == dict_coerced_gen(env, sc0, pairs@.subrange(0, i as int), *kt, *vt).1,
            decreases pairs@.len() - i,
        {
            proof {
                lemma_pairs_wf_at(pairs@, i as int);
            }
            let k = self.gen_expr_coerced(&pairs[i].0, Some(kt));
            let v = self.gen_expr_coerced(&pairs[i].1, Some(vt));
            let mut entry = String::from_str("(");
            entry.append(k.as_str());
            entry.append(", ");
            entry.append(v.as_str());
            entry.append(")");
            let ghost before = out@;
            out.push(entry);
            proof {
                let p = pairs@.subrange(0, i + 1);
                assert(p.subrange(0, i as int) =~= pairs@.subrange(0, i as int));
                assert(p[i as int] == pairs@[i as int]);
                assert(views(out@) =~= views(before).push(entry@));
            }
            i = i + 1;
        }
        assert(pairs@.subrange(0, pairs@.len() as int) =~= pairs@);
        out
    }

    fn gen_dict(&mut self, pairs: &Vec<(Expr, Expr)>) -> (r: Vec<String>)
        requires
            old(self).scopes@.len() > 0,
            pairs_wf(pairs@),
        ensures
            final(self).kept(&*old(self)),
            views(r@) == dict_gen(old(self).env(), old(self).sc(), pairs@).0,
            final(self).sc() == dict_gen(old(self).env(), old(self).sc(), pairs@).1,
        decreases pairs, 0int,
    {
        let ghost env = self.env();
        let ghost sc0 = self.sc();
        let mut out: Vec<String> = Vec::new();
        let mut i: usize = 0;
        assert(pairs@.subrange(0, 0) =~= Seq::<(Expr, Expr)>::empty());
        assert(views(out@) =~= Seq::<Seq<char>>::empty());
        while i < pairs.len()
            invariant
                i <= pairs@.len(),
                pairs_wf(pairs@),
                self.kept(&*old(self)),
                self.scopes@.len() > 0,
                env == old(self).env(),
                sc0 == old(self).sc(),
                views(out@) == dict_gen(env, sc0, pairs@.subrange(0, i as int)).0,
                self.sc() == dict_gen(env, sc0, pairs@.subrange(0, i as int)).1,
            decreases pairs@.len() - i,
        {
            proof {
                lemma_pairs_wf_at(pairs@, i as int);
            }
            let k = self.gen_expr(&pairs[i].0);
            let v = self.gen_expr(&pairs[i].1);
            let mut entry = String::from_str("(");
            entry.append(k.as_str());
            entry.append(", ");
            entry.append(v.as_str());
            entry.append(")");
            let ghost before = out@;
            out.push(entry);
            proof {
                let p = pairs@.subrange(0, i + 1);
                assert(p.subrange(0, i as int) =~= pairs@.subrange(0, i as int));
                assert(p[i as int] == pairs@[i as int]);
                assert(views(out@) =~= views(before).push(entry@));
            }
            i = i + 1;
        }
        assert(pairs@.subrange(0, pairs@.len() as int) =~= pairs@);
        out
    }

    fn gen_exprs(&mut self, es: &Vec<Expr>) -> (r: Vec<String>)
        requires
            old(self).scopes@.len() > 0,
            exprs_wf(es@),
        ensures
            final(self).kept(&*old(self)),
            views(r@) == exprs_gen(old(self).env(), old(self).sc(), es@).0,
            final(self).sc() == exprs_gen(old(self).env(), old(self).sc(), es@).1,
        decreases es, 0int,
    {
        let ghost env = self.env();
        let ghost sc0 = self.sc();
        let mut out: Vec<String> = Vec::new();
        let mut i: usize = 0;
        assert(es@.subrange(0, 0) =~= Seq::<Expr>::empty());
        assert(views(out@) =~= Seq::<Seq<char>>::empty());
        while i < es.len()
            invariant
                i <= es@.len(),
                exprs_wf(es@),
                self.kept(&*old(self)),
                self.scopes@.len() > 0,
                env == old(self).env(),
                sc0 == old(self).sc(),
                views(out@) == exprs_gen(env, sc0, es@.subrange(0, i as int)).0,
                self.sc() == exprs_gen(env, sc0, es@.subrange(0, i as int)).1,
            decreases es@.len() - i,
        {
            proof {
                lemma_exprs_wf_at(es@, i as int);
            }
            let c = self.gen_expr(&es[i]);
            let ghost before = out@;
            out.push(c);
            proof {
                let p = es@.subrange(0, i + 1);
                assert(p.subrange(0, i as int) =~= es@.subrange(0, i as int));
                assert(p[i as int] == es@[i as int]);
                assert(views(out@) =~= views(before).push(c@));
            }
            i = i + 1;
        }
        assert(es@.subrange(0, es@.len() as int) =~= es@);
        out
    }

    fn gen_expr(&mut self, e: &Expr) -> (r: String)
        requires
            old(self).scopes@.len() > 0,
            expr_wf(*e),
        ensures
            final(self).kept(&*old(self)),
            r@ == expr_gen(old(self).env(), old(self).sc(), *e).0,
            final(self).sc() == expr_gen(old(self).env(), old(self).sc(), *e).1,
        decreases e, expr_rank(*e),
    {
        match e {
            Expr::Int(n) => crate::text::i64_to_string(*n),
            Expr::Float(f) => f.clone(),
            Expr::Str(s) => quote(s.as_str()),
            Expr::RawStr(s) => s.clone(),
            Expr::Bool(b) => bool_string(*b),
            Expr::NoneLit => String::from_str("None"),
            Expr::Ident(name) => match lookup_in(&self.module_alias, name.as_str()) {
                Some(real_path) => real_path,
                None => name.clone(),
            },
            Expr::Unary { op, expr } => {
                let mut out = match op {
                    UnaryOp::Neg => String::from_str("-"),
                    UnaryOp::Not => String::from_str("!"),
                };
                let a = self.gen_atom(expr);
                out.append(a.as_str());
                out
            },
            Expr::Binary { op, lhs, rhs } => {
                let p = binop_prec(*op);
                let l = self.gen_operand(lhs, p, true);
                let r = self.gen_operand(rhs, p, false);
                let mut out = l;
                out.append(" ");
                out.append(op.rust());
                out.append(" ");
                out.append(r.as_str());
                out
            },
            Expr::Field { .. } => {
                let (t, _) = self.gen_place(e);
                t
            },
            Expr::Index { recv, index } => {
                let mut out = self.gen_atom(recv);
                let i = self.gen_expr(index);
                out.append("[");
                out.append(i.as_str());
                out.append("]");
                out
            },
            Expr::Call { .. } => self.gen_call(e),
            Expr::Ref { mutable, expr } => {
                let mut out = String::from_str("&");
                if *mutable {
                    out.append("mut ");
                }
                let a = self.gen_atom(expr);
                out.append(a.as_str());
                out
            },
            Expr::Deref(x) => {
                let mut out = String::from_str("*");
                let a = self.gen_atom(x);
                out.append(a.as_str());
                out
            },
            Expr::CloneExpr(x) => {
                let mut out = self.gen_atom(x);
                out.append(".clone()");
                out
            },
            Expr::Move(x) => self.gen_expr(x),
            Expr::Await(x) => {
                let mut out = self.gen_atom(x);
                out.append(".await");
                out
            },
            Expr::Try(x) => {
                let mut out = self.gen_atom(x);
                out.append("?");
                out
            },
            Expr::Range { start, end, inclusive } => {
                let mut out = match start {
                    Some(x) => self.gen_expr(x),
                    None => String::new(),
                };
                if *inclusive {
                    out.append("..=");
                } else {
                    out.append("..");
                }
                match end {
                    Some(x) => {
                        let b = self.gen_expr(x);
                        out.append(b.as_str());
                    },
                    None => {},
                }
                out
            },
            Expr::Tuple(elems) => {
                let cs = self.gen_exprs(elems);
                if cs.len() == 0 {
                    String::from_str("()")
                } else if cs.len() == 1 {
                    let mut out = String::from_str("(");
                    out.append(cs[0].as_str());
                    out.append(",)");
                    out
                } else {
                    let mut out = String::from_str("(");
                    let j = join_strings(&cs, ", ");
                    out.append(j.as_str());
                    out.append(")");
                    out
                }
            },
            Expr::List(elems) => {
                let cs = self.gen_exprs(elems);
                let mut out = String::from_str("vec![");
                let j = join_strings(&cs, ", ");
                out.append(j.as_str());
                out.append("]");
                out
            },
            Expr::Dict(pairs) => {
                let es = self.gen_dict(pairs);
                let mut out = String::from_str("HashMap::from([");
                let j = join_strings(&es, ", ");
                out.append(j.as_str());
                out.append("])");
                out
            },
            Expr::If(ie) => {
                let mut out = self.gen_if_arms(&ie.arms, true, None);
                let b = self.gen_block(&ie.else_body, true, None);
                out.append(" else ");
                out.append(b.as_str());
                out
            },
            Expr::Match(m) => self.gen_match(m, true, None),
            Expr::Loop { label, body } => {
                let b = self.gen_block(body, false, None);
                loop_string(label, b)
            },
            Expr::Closure { is_move, params, ret, body } => self.gen_closure(
                *is_move,
                params,
                ret,
                body,
            ),
        }
    }

    fn gen_closure(&mut self, is_move: bool, params: &Vec<Param>, ret: &Option<Type>, body: &Vec<Stmt>) -> (r: String)
        requires
            old(self).scopes@.len() > 0,
            params_wf(params@),
            opt_type_wf(*ret),
            stmts_wf(body@),
        ensures
            final(self).kept(&*old(self)),
            r@ == expr_gen(old(self).env(), old(self).sc(), Expr::Closure { is_move, params: *params, ret: *ret, body: *body }).0,
            final(self).sc() == expr_gen(old(self).env(), old(self).sc(), Expr::Closure { is_move, params: *params, ret: *ret, body: *body }).1,
        decreases body, 3int,
    {
        let ghost env = self.env();
        let ghost sc0 = self.sc();
        self.push_scope();
        let mut ps: Vec<String> = Vec::new();
        let mut i: usize = 0;
        let ghost f = |p: Param| closure_param_text(env.aliases, p);
        assert(param_names(params@.subrange(0, 0)) =~= Seq::<Seq<char>>::empty());
        assert(views(ps@) =~= Seq::<Seq<char>>::empty());
        assert(params@.subrange(0, 0).map_values(f) =~= Seq::<Seq<char>>::empty());
        while i < params.len()
            invariant
                i <= params@.len(),
                params_wf(params@),
                env == old(self).env(),
                self.env() == env,
                self.scopes@.len() == old(self).scopes@.len() + 1,
                sc0 == old(self).sc(),
                f == (|p: Param| closure_param_text(env.aliases, p)),
                self.sc() == declare_names(sc0.push(Seq::empty()), param_names(params@.subrange(0, i as int))),
                views(ps@) == params@.subrange(0, i as int).map_values(f),
            decreases params@.len() - i,
        {
            proof {
                lemma_params_wf_at(params@, i as int);
            }
            let p = &params[i];
            self.declare(p.name.as_str());
            let is_infer = match &p.ty {
                Type::Path { segments, args } => args.len() == 0 && segments.len() == 1 && str_eq(
                    segments[0].as_str(),
                    "_",
                ),
                _ => false,
            };
            let text = if is_infer {
                p.name.clone()
            } else {
                let mut s = p.name.clone();
                s.append(": ");
                let t = gen_type(&self.module_alias, &p.ty);
                s.append(t.as_str());
                s
            };
            let ghost before = ps@;
            ps.push(text);
            proof {
                let q = params@.subrange(0, i + 1);
                assert(param_names(q).drop_last() =~= param_names(params@.subrange(0, i as int)));
                assert(views(ps@) =~= views(before).push(text@));
                assert(q.map_values(f) =~= params@.subrange(0, i as int).map_values(f).push(f(params@[i as int])));
            }
            i = i + 1;
        }
        assert(params@.subrange(0, params@.len() as int) =~= params@);
        let rty: Option<&Type> = match ret {
            Some(t) => Some(t),
            None => None,
        };
        let b = self.gen_block(body, true, rty);
        self.pop_scope();
        let mut out = if is_move {
            String::from_str("move ")
        } else {
            String::new()
        };
        out.append("|");
        let j = join_strings(&ps, ", ");
        out.append(j.as_str());
        out.append("|");
        let arrow = match ret {
            Some(t) => {
                let mut a = String::from_str(" -> ");
                let tt = gen_type(&self.module_alias, t);
                a.append(tt.as_str());
                a
            },
            None => String::new(),
        };
        out.append(arrow.as_str());
        out.append(" ");
        out.append(b.as_str());
        out
    }

    fn gen_operand(&mut self, e: &Expr, parent: u8, is_left: bool) -> (r: String)
        requires
            old(self).scopes@.len() > 0,
            expr_wf(*e),
        ensures
            final(self).kept(&*old(self)),
            r@ == operand_gen(old(self).env(), old(self).sc(), *e, parent, is_left).0,
            final(self).sc() == operand_gen(old(self).env(), old(self).sc(), *e, parent, is_left).1,
        decreases e, 7int,
    {
        let s = self.gen_expr(e);
        let need = match e {
            Expr::Binary { op, .. } => {
                let cp = binop_prec(*op);
                cp < parent || (cp == parent && !is_left)
            },
            Expr::Range { .. } | Expr::If(_) | Expr::Match(_) | Expr::Loop { .. } | Expr::Closure {
                ..
            } => true,
            _ => false,
        };
        if need {
            parenthesize(s)
        } else {
            s
        }
    }

    /// Wrap an expression in parentheses if it binds looser than a postfix/unary
    /// operator would require.
    fn gen_atom(&mut self, e: &Expr) -> (r: String)
        requires
            old(self).scopes@.len() > 0,
            expr_wf(*e),
        ensures
            final(self).kept(&*old(self)),
            r@ == atom_gen(old(self).env(), old(self).sc(), *e).0,
            final(self).sc() == atom_gen(old(self).env(), old(self).sc(), *e).1,
        decreases e, 6int,
    {
        let low = match e {
            Expr::Binary { .. } | Expr::Range { .. } | Expr::If(_) | Expr::Match(_) | Expr::Loop {
                ..
            } | Expr::Closure { .. } => true,
            _ => false,
        };
        let s = self.gen_expr(e);
        if low {
            parenthesize(s)
        } else {
            s
        }
    }

    /// Generate a member-access chain, tracking whether the result is a type or
    /// module *path* (needing `::`) versus a value place (needing `.`).
    fn gen_place(&mut self, e: &Expr) -> (r: (String, bool))
        requires
            old(self).scopes@.len() > 0,
            expr_wf(*e),
        ensures
            final(self).kept(&*old(self)),
            r.0@ == place_gen(old(self).env(), old(self).sc(), *e).0,
            r.1 == place_gen(old(self).env(), old(self).sc(), *e).1,
            final(self).sc() == place_gen(old(self).env(), old(self).sc(), *e).2,
        decreases e, place_rank(*e),
    {
        match e {
            Expr::Ident(name) => match lookup_in(&self.module_alias, name.as_str()) {
                Some(real_path) => (real_path, true),
                None => {
                    let is_path = starts_upper(name.as_str()) || has_name(&self.modules, name.as_str());
                    proof {
                        assert(contains_name(self.modules@, name@) == views(self.modules@).contains(name@)) by {
                            if contains_name(self.modules@, name@) {
                                let k = choose|k: int| 0 <= k < self.modules@.len() && self.modules@[k]@ == name@;
                                assert(views(self.modules@)[k] == name@);
                            }
                        }
                    }
                    (name.clone(), is_path)
                },
            },
            Expr::Field { recv, name } => {
                let (rc, rp) = self.gen_place(recv);
                let use_colon = rp || starts_upper(name.as_str());
                let mut out = rc;
                if use_colon {
                    out.append("::");
                } else {
                    out.append(".");
                }
                out.append(name.as_str());
                (out, use_colon)
            },
            _ => {
                let a = self.gen_atom(e);
                (a, false)
            },
        }
    }
}

fn parenthesize(s: String) -> (r: String)
    ensures
        r@ == paren(s@),
{
    let mut out = String::from_str("(");
    out.append(s.as_str());
    out.append(")");
    out
}

impl<'p> Codegen<'p> {
    // ---- calls -----------------------------------------------------------------

    fn lookup_sig(&self, name: &str) -> (r: Option<&'p Vec<Param>>)
        ensures
            r matches Some(ps) ==> lookup(self.env().sigs, name@) == Some(ps@),
            r is None ==> lookup(self.env().sigs, name@) is None,
    {
        let ghost m = self.env().sigs;
        let mut i = self.fn_sigs.len();
        assert(m.subrange(0, i as int) =~= m);
        while i > 0
            invariant
                i <= self.fn_sigs@.len(),
                m == self.env().sigs,
                lookup(m, name@) == lookup(m.subrange(0, i as int), name@),
            decreases i,
        {
            assert(m.subrange(0, i as int).drop_last() =~= m.subrange(0, i - 1));
            if str_eq(self.fn_sigs[i - 1].0.as_str(), name) {
                return Some(self.fn_sigs[i - 1].1);
            }
            i = i - 1;
        }
        None
    }

    fn lookup_struct(&self, name: &str) -> (r: Option<&'p Vec<Field>>)
        ensures
            r matches Some(fs) ==> lookup(self.env().structs, name@) == Some(fs@),
            r is None ==> lookup(self.env().structs, name@) is None,
    {
        let ghost m = self.env().structs;
        let mut i = self.struct_fields.len();
        assert(m.subrange(0, i as int) =~= m);
        while i > 0
            invariant
                i <= self.struct_fields@.len(),
                m == self.env().structs,
                lookup(m, name@) == lookup(m.subrange(0, i as int), name@),
            decreases i,
        {
            assert(m.subrange(0, i as int).drop_last() =~= m.subrange(0, i - 1));
            if str_eq(self.struct_fields[i - 1].0.as_str(), name) {
                return Some(self.struct_fields[i - 1].1);
            }
            i = i - 1;
        }
        None
    }

    fn gen_call(&mut self, e: &Expr) -> (r: String)
        requires
            old(self).scopes@.len() > 0,
            expr_wf(*e),
        ensures
            final(self).kept(&*old(self)),
            r@ == call_gen(old(self).env(), old(self).sc(), *e).0,
            final(self).sc() == call_gen(old(self).env(), old(self).sc(), *e).1,
        decreases e, 4int,
    {
        match e {
            Expr::Call { callee, type_args, args } => {
                match &**callee {
                    Expr::Ident(name) => {
                        match lookup_in(&self.macro_names, name.as_str()) {
                            Some(rust_macro) => {
                                return self.gen_macro(rust_macro.as_str(), args);
                            },
                            None => {},
                        }
                        if (str_eq(name.as_str(), "Ok") || str_eq(name.as_str(), "Some")) && args.len()
                            == 0 {
                            let mut out = name.clone();
                            out.append("(())");
                            return out;
                        }
                    },
                    _ => {},
                }
                if any_keyword(args) {
                    return self.gen_struct_lit(e);
                }
                let (callee_code, _) = self.gen_place(callee);
                let mut out = callee_code;
                if type_args.len() > 0 {
                    out.append("::<");
                    let t = gen_types(&self.module_alias, type_args);
                    out.append(t.as_str());
                    out.append(">");
                }
                let sig_params: Option<&Vec<Param>> = match &**callee {
                    Expr::Ident(n) => self.lookup_sig(n.as_str()),
                    _ => None,
                };
                let cs = self.gen_call_args(args, sig_params);
                let j = join_strings(&cs, ", ");
                let pj = parenthesize(j);
                out.append(pj.as_str());
                out
            },
            _ => String::new(),
        }
    }

    fn gen_call_args(&mut self, args: &Vec<Arg>, params: Option<&Vec<Param>>) -> (r: Vec<String>)
        requires
            old(self).scopes@.len() > 0,
            args_wf(args@),
        ensures
            final(self).kept(&*old(self)),
            views(r@) == call_args_gen(old(self).env(), old(self).sc(), args@, opt_params(params)).0,
            final(self).sc() == call_args_gen(old(self).env(), old(self).sc(), args@, opt_params(params)).1,
        decreases args, 0int,
    {
        let ghost env = self.env();
        let ghost sc0 = self.sc();
        let mut out: Vec<String> = Vec::new();
        let mut i: usize = 0;
        assert(args@.subrange(0, 0) =~= Seq::<Arg>::empty());
        assert(views(out@) =~= Seq::<Seq<char>>::empty());
        while i < args.len()
            invariant
                i <= args@.len(),
                args_wf(args@),
                self.kept(&*old(self)),
                self.scopes@.len() > 0,
                env == old(self).env(),
                sc0 == old(self).sc(),
                views(out@) == call_args_gen(env, sc0, args@.subrange(0, i as int), opt_params(params)).0,
                self.sc() == call_args_gen(env, sc0, args@.subrange(0, i as int), opt_params(params)).1,
            decreases args@.len() - i,
        {
            proof {
                lemma_args_wf_at(args@, i as int);
            }
            let c = match &args[i] {
                Arg::Positional(x) => {
                    let expected: Option<&Type> = match params {
                        Some(ps) => if i < ps.len() {
                            Some(&ps[i].ty)
                        } else {
                            None
                        },
                        None => None,
                    };
                    self.gen_expr_coerced(x, expected)
                },
                Arg::Keyword(_, x) => self.gen_expr(x),
            };
            let ghost before = out@;
            out.push(c);
            proof {
                let p = args@.subrange(0, i + 1);
                assert(p.subrange(0, i as int) =~= args@.subrange(0, i as int));
                assert(p[i as int] == args@[i as int]);
                assert(views(out@) =~= views(before).push(c@));
            }
            i = i + 1;
        }
        assert(args@.subrange(0, args@.len() as int) =~= args@);
        out
    }

    fn gen_struct_lit(&mut self, e: &Expr) -> (r: String)
        requires
            old(self).scopes@.len() > 0,
            expr_wf(*e),
        ensures
            final(self).kept(&*old(self)),
            r@ == struct_lit_gen(old(self).env(), old(self).sc(), *e).0,
            final(self).sc() == struct_lit_gen(old(self).env(), old(self).sc(), *e).1,
        decreases e, 3int,
    {
        match e {
            Expr::Call { callee, args, .. } => {
                let (type_code, _) = self.gen_place(callee);
                let simple = last_segment(type_code.as_str());
                let fields = self.lookup_struct(simple.as_str());
                let parts = self.gen_field_args(args, fields);
                let mut out = type_code;
                out.append(" { ");
                let j = join_strings(&parts, ", ");
                out.append(j.as_str());
                out.append(" }");
                out
            },
            _ => String::new(),
        }
    }

    fn gen_field_args(&mut self, args: &Vec<Arg>, fields: Option<&Vec<Field>>) -> (r: Vec<String>)
        requires
            old(self).scopes@.len() > 0,
            args_wf(args@),
        ensures
            final(self).kept(&*old(self)),
            views(r@) == field_args_gen(old(self).env(), old(self).sc(), args@, opt_fields(fields)).0,
            final(self).sc() == field_args_gen(old(self).env(), old(self).sc(), args@, opt_fields(fields)).1,
        decreases args, 0int,
    {
        let ghost env = self.env();
        let ghost sc0 = self.sc();
        let mut out: Vec<String> = Vec::new();
        let mut i: usize = 0;
        assert(args@.subrange(0, 0) =~= Seq::<Arg>::empty());
        assert(views(out@) =~= Seq::<Seq<char>>::empty());
        while i < args.len()
            invariant
                i <= args@.len(),
                args_wf(args@),
                self.kept(&*old(self)),
                self.scopes@.len() > 0,
                env == old(self).env(),
                sc0 == old(self).sc(),
                views(out@) == field_args_gen(env, sc0, args@.subrange(0, i as int), opt_fields(fields)).0,
                self.sc() == field_args_gen(env, sc0, args@.subrange(0, i as int), opt_fields(fields)).1,
            decreases args@.len() - i,
        {
            proof {
                lemma_args_wf_at(args@, i as int);
            }
            let ghost before = out@;
            match &args[i] {
                Arg::Keyword(name, value) => {
                    let expected: Option<&Type> = match fields {
                        Some(fs) => find_field(fs, name.as_str()),
                        None => None,
                    };
                    let v = self.gen_expr_coerced(value, expected);
                    let mut part = name.clone();
                    part.append(": ");
                    part.append(v.as_str());
                    out.push(part);
                    assert(views(out@) =~= views(before).push(part@));
                },
                Arg::Positional(_) => {},
            }
            proof {
                let p = args@.subrange(0, i + 1);
                assert(p.subrange(0, i as int) =~= args@.subrange(0, i as int));
                assert(p[i as int] == args@[i as int]);
            }
            i = i + 1;
        }
        assert(args@.subrange(0, args@.len() as int) =~= args@);
        out
    }

    fn gen_arg(&mut self, a: &Arg) -> (r: String)
        requires
            old(self).scopes@.len() > 0,
            arg_wf(*a),
        ensures
            final(self).kept(&*old(self)),
            r@ == arg_gen(old(self).env(), old(self).sc(), *a).0,
            final(self).sc() == arg_gen(old(self).env(), old(self).sc(), *a).1,
        decreases a, 0int,
    {
        match a {
            Arg::Positional(x) => self.gen_expr(x),
            Arg::Keyword(_, x) => self.gen_expr(x),
        }
    }

    /// The argument expressions from position `start` on.
    fn gen_arg_exprs(&mut self, args: &Vec<Arg>, start: usize) -> (r: Vec<String>)
        requires
            old(self).scopes@.len() > 0,
            args_wf(args@),
            start <= args@.len(),
        ensures
            final(self).kept(&*old(self)),
            views(r@) == arg_exprs_gen(old(self).env(), old(self).sc(), args@.subrange(start as int, args@.len() as int)).0,
            final(self).sc() == arg_exprs_gen(old(self).env(), old(self).sc(), args@.subrange(start as int, args@.len() as int)).1,
        decreases args, 1int,
    {
        let ghost env = self.env();
        let ghost sc0 = self.sc();
        let ghost rest = args@.subrange(start as int, args@.len() as int);
        let mut out: Vec<String> = Vec::new();
        let mut i: usize = start;
        assert(rest.subrange(0, 0) =~= Seq::<Arg>::empty());
        assert(views(out@) =~= Seq::<Seq<char>>::empty());
        while i < args.len()
            invariant
                start <= i <= args@.len(),
                args_wf(args@),
                rest == args@.subrange(start as int, args@.len() as int),
                self.kept(&*old(self)),
                self.scopes@.len() > 0,
                env == old(self).env(),
                sc0 == old(self).sc(),
                views(out@) == arg_exprs_gen(env, sc0, rest.subrange(0, i - start)).0,
                self.sc() == arg_exprs_gen(env, sc0, rest.subrange(0, i - start)).1,
            decreases args@.len() - i,
        {
            proof {
                lemma_args_wf_at(args@, i as int);
            }
            let c = self.gen_arg(&args[i]);
            let ghost before = out@;
            out.push(c);
            proof {
                let p = rest.subrange(0, i + 1 - start);
                assert(p.subrange(0, i - start) =~= rest.subrange(0, i - start));
                assert(p[i - start] == args@[i as int]);
                assert(views(out@) =~= views(before).push(c@));
            }
            i = i + 1;
        }
        assert(rest.subrange(0, args@.len() - start) =~= rest);
        out
    }

    fn gen_macro(&mut self, rust_macro: &str, args: &Vec<Arg>) -> (r: String)
        requires
            old(self).scopes@.len() > 0,
            args_wf(args@),
        ensures
            final(self).kept(&*old(self)),
            r@ == macro_gen(old(self).env(), old(self).sc(), rust_macro@, args@).0,
            final(self).sc() == macro_gen(old(self).env(), old(self).sc(), rust_macro@, args@).1,
        decreases args, 3int,
    {
        assert(args@.subrange(0, args@.len() as int) =~= args@);
        if str_eq(rust_macro, "vec") {
            let es = self.gen_arg_exprs(args, 0);
            let mut out = String::from_str("vec![");
            let j = join_strings(&es, ", ");
            out.append(j.as_str());
            out.append("]");
            return out;
        }
        if str_eq(rust_macro, "println") || str_eq(rust_macro, "print") || str_eq(rust_macro, "eprintln")
            || str_eq(rust_macro, "format") {
            return self.gen_print_like(rust_macro, args);
        }
        let es = self.gen_arg_exprs(args, 0);
        let mut out = String::from_str(rust_macro);
        out.append("!");
        let j = join_strings(&es, ", ");
        let pj = parenthesize(j);
        out.append(pj.as_str());
        out
    }

    fn gen_print_like(&mut self, rust_macro: &str, args: &Vec<Arg>) -> (r: String)
        requires
            old(self).scopes@.len() > 0,
            args_wf(args@),
        ensures
            final(self).kept(&*old(self)),
            r@ == print_like_gen(old(self).env(), old(self).sc(), rust_macro@, args@).0,
            final(self).sc() == print_like_gen(old(self).env(), old(self).sc(), rust_macro@, args@).1,
        decreases args, 2int,
    {
        let mut out = String::from_str(rust_macro);
        if args.len() == 0 {
            out.append("!()");
            return out;
        }
        proof {
            lemma_args_wf_at(args@, 0);
        }
        let leading = match &args[0] {
            Arg::Positional(x) => matches!(x, Expr::Str(_) | Expr::RawStr(_)),
            Arg::Keyword(_, x) => matches!(x, Expr::Str(_) | Expr::RawStr(_)),
        };
        if leading {
            let fmt = self.gen_arg(&args[0]);
            out.append("!");
            if args.len() == 1 {
                let pf = parenthesize(fmt);
                out.append(pf.as_str());
                return out;
            }
            let rest = self.gen_arg_exprs(args, 1);
            let mut inner = fmt;
            inner.append(", ");
            let j = join_strings(&rest, ", ");
            inner.append(j.as_str());
            let pi = parenthesize(inner);
            out.append(pi.as_str());
            return out;
        }
        assert(args@.subrange(0, args@.len() as int) =~= args@);
        let vals = self.gen_arg_exprs(args, 0);
        let ph = placeholder_string(args.len());
        let mut inner = quote(ph.as_str());
        inner.append(", ");
        let j = join_strings(&vals, ", ");
        inner.append(j.as_str());
        let pi = parenthesize(inner);
        out.append("!");
        out.append(pi.as_str());
        out
    }
}

pub open spec fn opt_params(p: Option<&Vec<Param>>) -> Option<Seq<Param>> {
    match p {
        Some(ps) => Some(ps@),
        None => None,
    }
}

pub open spec fn opt_fields(f: Option<&Vec<Field>>) -> Option<Seq<Field>> {
    match f {
        Some(fs) => Some(fs@),
        None => None,
    }
}

pub open spec fn arg_wf(a: Arg) -> bool {
    match a {
        Arg::Positional(e) => expr_wf(e),
        Arg::Keyword(_, e) => expr_wf(e),
    }
}

fn any_keyword(args: &Vec<Arg>) -> (r: bool)
    ensures
        r == has_keyword(args@),
{
    let mut i: usize = 0;
    while i < args.len()
        invariant
            i <= args@.len(),
            forall|j: int| 0 <= j < i ==> !(args@[j] is Keyword),
        decreases args@.len() - i,
    {
        match &args[i] {
            Arg::Keyword(_, _) => {
                assert(args@[i as int] is Keyword);
                return true;
            },
            _ => {},
        }
        i = i + 1;
    }
    false
}

/// The type of the first field named `name`.
fn find_field<'a>(fs: &'a Vec<Field>, name: &str) -> (r: Option<&'a Type>)
    ensures
        opt_type(r) == field_type(fs@, name@),
{
    let mut i: usize = 0;
    assert(fs@.subrange(0, fs@.len() as int) =~= fs@);
    while i < fs.len()
        invariant
            i <= fs@.len(),
            field_type(fs@, name@) == field_type(fs@.subrange(i as int, fs@.len() as int), name@),
        decreases fs@.len() - i,
    {
        let ghost rest = fs@.subrange(i as int, fs@.len() as int);
        assert(rest.subrange(1, rest.len() as int) =~= fs@.subrange(i + 1, fs@.len() as int));
        if str_eq(fs[i].name.as_str(), name) {
            return Some(&fs[i].ty);
        }
        i = i + 1;
    }
    None
}

fn placeholder_string(n: usize) -> (r: String)
    ensures
        r@ == placeholders(n as nat),
{
    let mut out = String::new();
    let mut i: usize = 0;
    while i < n
        invariant
            i <= n,
            out@ == placeholders(i as nat),
        decreases n - i,
    {
        if i > 0 {
            out.append(" ");
        }
        out.append("{}");
        proof {
            let a = Seq::new((i + 1) as nat, |k: int| "{}"@);
            let b = Seq::new(i as nat, |k: int| "{}"@);
            assert(a.drop_last() =~= b);
            if i == 0 {
                assert(out@ =~= join(a, " "@));
            }
        }
        i = i + 1;
    }
    out
}

impl<'p> Codegen<'p> {
    fn new() -> (r: Self)
        ensures
            r.env() == initial_env(),
            r.sc() == seq![Seq::<Seq<char>>::empty()],
            r.scopes@.len() == 1,
    {
        let mut macro_names: Vec<(String, String)> = Vec::new();
        macro_names.push((String::from_str("print"), String::from_str("println")));
        macro_names.push((String::from_str("println"), String::from_str("println")));
        macro_names.push((String::from_str("eprint"), String::from_str("eprintln")));
        macro_names.push((String::from_str("format"), String::from_str("format")));
        macro_names.push((String::from_str("debug"), String::from_str("dbg")));
        macro_names.push((String::from_str("assert"), String::from_str("assert")));
        macro_names.push((String::from_str("assert_eq"), String::from_str("assert_eq")));
        macro_names.push((String::from_str("panic"), String::from_str("panic")));
        macro_names.push((String::from_str("vec"), String::from_str("vec")));
        let mut scopes: Vec<Vec<String>> = Vec::new();
        scopes.push(Vec::new());
        let cg = Codegen {
            struct_fields: Vec::new(),
            fn_sigs: Vec::new(),
            module_alias: Vec::new(),
            modules: Vec::new(),
            macro_names,
            scopes,
            cur_ret: None,
        };
        assert(pair_views(cg.macro_names@) =~= builtin_macros());
        assert(pair_views(cg.module_alias@) =~= Seq::<(Seq<char>, Seq<char>)>::empty());
        assert(views(cg.modules@) =~= Seq::<Seq<char>>::empty());
        assert(cg.struct_fields@.map_values(|p: (String, &'p Vec<Field>)| (p.0@, p.1@)) =~= Seq::<
            (Seq<char>, Seq<Field>),
        >::empty());
        assert(cg.fn_sigs@.map_values(|p: (String, &'p Vec<Param>)| (p.0@, p.1@)) =~= Seq::<
            (Seq<char>, Seq<Param>),
        >::empty());
        assert(views(cg.scopes@[0]@) =~= Seq::<Seq<char>>::empty());
        assert(cg.sc() =~= seq![Seq::<Seq<char>>::empty()]);
        cg
    }

    // ---- pre-scan -------------------------------------------------------------

    fn prescan(&mut self, program: &'p Program)
        requires
            old(self).env() == initial_env(),
        ensures
            final(self).env() == with_ret(prescan_env(program.items@), old(self).env().ret),
            final(self).scopes == old(self).scopes,
    {
        let mut i: usize = 0;
        assert(program.items@.subrange(0, 0) =~= Seq::<Item>::empty());
        while i < program.items.len()
            invariant
                i <= program.items@.len(),
                self.scopes == old(self).scopes,
                self.cur_ret == old(self).cur_ret,
                self.env() == with_ret(prescan_env(program.items@.subrange(0, i as int)), old(self).env().ret),
            decreases program.items@.len() - i,
        {
            let ghost before = self.env();
            let ghost p = program.items@.subrange(0, i + 1);
            assert(p.drop_last() =~= program.items@.subrange(0, i as int));
            match &program.items[i] {
                Item::Struct(s) => {
                    self.struct_fields.push((s.name.clone(), &s.fields));
                    assert(self.env().structs =~= before.structs.push((s.name@, s.fields@)));
                },
                Item::Function(f) => {
                    self.fn_sigs.push((f.name.clone(), &f.params));
                    assert(self.env().sigs =~= before.sigs.push((f.name@, f.params@)));
                },
                Item::Use(u) => self.scan_use(u),
                _ => {},
            }
            i = i + 1;
        }
        assert(program.items@.subrange(0, program.items@.len() as int) =~= program.items@);
    }

    fn scan_use(&mut self, u: &Use)
        ensures
            final(self).env() == scan_use(old(self).env(), *u),
            final(self).scopes == old(self).scopes,
            final(self).cur_ret == old(self).cur_ret,
    {
        if u.is_macro {
            // `from macro import ...` and `from macro.std import ...` name prelude
            // and std macros, which are callable unqualified. Any other root is a
            // crate namespace (`from macro.serde_json import json`), so the call
            // site is emitted path-qualified: `serde_json::json!(...)`.
            let crate_path: Option<String> = if u.path.len() == 0 || str_eq(u.path[0].as_str(), "std") {
                None
            } else {
                Some(join_strings(&u.path, "::"))
            };
            let ghost m0 = self.env().macros;
            let ghost base = macro_base(*u);
            let mut i: usize = 0;
            assert(u.names@.subrange(0, 0) =~= Seq::<UseName>::empty());
            while i < u.names.len()
                invariant
                    i <= u.names@.len(),
                    self.scopes == old(self).scopes,
                    self.cur_ret == old(self).cur_ret,
                    self.module_alias == old(self).module_alias,
                    self.modules == old(self).modules,
                    self.struct_fields == old(self).struct_fields,
                    self.fn_sigs == old(self).fn_sigs,
                    m0 == old(self).env().macros,
                    base == macro_base(*u),
                    match crate_path {
                        Some(c) => base == Some(c@),
                        None => base is None,
                    },
                    pair_views(self.macro_names@) == macro_entries(m0, u.names@.subrange(0, i as int), base),
                decreases u.names@.len() - i,
            {
                let n = &u.names[i];
                let callable = match &n.alias {
                    Some(a) => a.clone(),
                    None => n.name.clone(),
                };
                let rust = match &crate_path {
                    Some(b) => {
                        let mut r = b.clone();
                        r.append("::");
                        r.append(n.name.as_str());
                        r
                    },
                    None => match lookup_in(&self.macro_names, n.name.as_str()) {
                        Some(r) => r,
                        None => n.name.clone(),
                    },
                };
                let ghost before = self.macro_names@;
                self.macro_names.push((callable, rust));
                proof {
                    let p = u.names@.subrange(0, i + 1);
                    assert(p.drop_last() =~= u.names@.subrange(0, i as int));
                    assert(pair_views(self.macro_names@) =~= pair_views(before).push((callable@, rust@)));
                }
                i = i + 1;
            }
            assert(u.names@.subrange(0, u.names@.len() as int) =~= u.names@);
            return;
        }
        let mut full = if u.is_rust {
            String::new()
        } else {
            String::from_str("crate::")
        };
        let j = join_strings(&u.path, "::");
        full.append(j.as_str());
        let ghost e0 = self.env();
        match &u.alias {
            Some(alias) => {
                self.module_alias.push((alias.clone(), full));
                self.modules.push(alias.clone());
                assert(pair_views(self.module_alias@) =~= e0.aliases.push((alias@, full@)));
                assert(views(self.modules@) =~= e0.modules.push(alias@));
            },
            None => {},
        }
        // `import rust.serde_json` (no alias) → the last segment is a usable module.
        let no_alias = match &u.alias {
            Some(_) => false,
            None => true,
        };
        if no_alias && u.names.len() == 0 && u.path.len() > 0 {
            let ghost m1 = views(self.modules@);
            let last = u.path[u.path.len() - 1].clone();
            self.modules.push(last);
            assert(views(self.modules@) =~= m1.push(u.path@.last()@));
        }
    }

    // ---- items ----------------------------------------------------------------

    fn gen_function(&mut self, f: &'p Function) -> (r: String)
        requires
            old(self).scopes@.len() > 0,
            function_wf(*f),
        ensures
            final(self).kept(&*old(self)),
            r@ == function_gen(old(self).env(), old(self).sc(), *f).0,
            final(self).sc() == function_gen(old(self).env(), old(self).sc(), *f).1,
    {
        let ghost env = self.env();
        let ghost sc0 = self.sc();
        let mut sig = gen_attrs(&f.attrs);
        if f.is_pub {
            sig.append("pub ");
        }
        if f.is_async {
            sig.append("async ");
        }
        if f.is_unsafe {
            sig.append("unsafe ");
        }
        sig.append("fn ");
        sig.append(f.name.as_str());
        let g = gen_generics(&f.generics);
        sig.append(g.as_str());
        let mut params: Vec<String> = Vec::new();
        let mut i: usize = 0;
        let ghost pf = |p: Param| param_rust(env.aliases, p);
        assert(f.params@.subrange(0, 0).map_values(pf) =~= Seq::<Seq<char>>::empty());
        assert(views(params@) =~= Seq::<Seq<char>>::empty());
        while i < f.params.len()
            invariant
                i <= f.params@.len(),
                params_wf(f.params@),
                self == old(self),
                env == self.env(),
                pf == (|p: Param| param_rust(env.aliases, p)),
                views(params@) == f.params@.subrange(0, i as int).map_values(pf),
            decreases f.params@.len() - i,
        {
            proof {
                lemma_params_wf_at(f.params@, i as int);
            }
            let p = &f.params[i];
            let text = if str_eq(p.name.as_str(), "self") {
                gen_receiver(&self.module_alias, &p.ty)
            } else {
                let mut s = p.name.clone();
                s.append(": ");
                let t = gen_type(&self.module_alias, &p.ty);
                s.append(t.as_str());
                s
            };
            let ghost before = params@;
            params.push(text);
            proof {
                let q = f.params@.subrange(0, i + 1);
                assert(views(params@) =~= views(before).push(text@));
                assert(q.map_values(pf) =~= f.params@.subrange(0, i as int).map_values(pf).push(
                    pf(f.params@[i as int]),
                ));
            }
            i = i + 1;
        }
        assert(f.params@.subrange(0, f.params@.len() as int) =~= f.params@);
        let j = join_strings(&params, ", ");
        let pj = parenthesize(j);
        sig.append(pj.as_str());
        let arrow = match &f.ret {
            Type::Unit => String::new(),
            other => {
                let mut a = String::from_str(" -> ");
                let t = gen_type(&self.module_alias, other);
                a.append(t.as_str());
                a
            },
        };
        sig.append(arrow.as_str());
        assert(sig@ =~= function_sig(env.aliases, *f));
        match &f.body {
            None => {
                sig.append(";");
                sig
            },
            Some(body) => {
                self.push_scope();
                let mut k: usize = 0;
                assert(param_names(f.params@.subrange(0, 0)) =~= Seq::<Seq<char>>::empty());
                while k < f.params.len()
                    invariant
                        k <= f.params@.len(),
                        self.env() == env,
                        self.scopes@.len() == old(self).scopes@.len() + 1,
                        self.sc() == declare_names(sc0.push(Seq::empty()), param_names(f.params@.subrange(0, k as int))),
                    decreases f.params@.len() - k,
                {
                    self.declare(f.params[k].name.as_str());
                    assert(param_names(f.params@.subrange(0, k + 1)).drop_last() =~= param_names(
                        f.params@.subrange(0, k as int),
                    ));
                    k = k + 1;
                }
                let prev_ret = self.cur_ret;
                self.cur_ret = match &f.ret {
                    Type::Unit => None,
                    other => Some(other),
                };
                assert(self.env() == with_ret(env, ret_of(f.ret)));
                // Only a value-returning function treats its final expression as
                // an implicit return; a `void` function keeps every statement a
                // statement (so e.g. a trailing `dbg!(x)` yields `()`).
                let is_value = match self.cur_ret {
                    Some(_) => true,
                    None => false,
                };
                let tail = self.cur_ret;
                let block = self.gen_block(body, is_value, tail);
                self.cur_ret = prev_ret;
                self.pop_scope();
                sig.append(" ");
                sig.append(block.as_str());
                sig
            },
        }
    }

    fn gen_functions(&mut self, fs: &'p Vec<Function>) -> (r: Vec<String>)
        requires
            old(self).scopes@.len() > 0,
            functions_wf(fs@),
        ensures
            final(self).kept(&*old(self)),
            views(r@) == functions_gen(old(self).env(), old(self).sc(), fs@).0,
            final(self).sc() == functions_gen(old(self).env(), old(self).sc(), fs@).1,
    {
        let ghost env = self.env();
        let ghost sc0 = self.sc();
        let mut out: Vec<String> = Vec::new();
        let mut i: usize = 0;
        assert(fs@.subrange(0, 0) =~= Seq::<Function>::empty());
        assert(views(out@) =~= Seq::<Seq<char>>::empty());
        while i < fs.len()
            invariant
                i <= fs@.len(),
                functions_wf(fs@),
                self.kept(&*old(self)),
                self.scopes@.len() > 0,
                env == old(self).env(),
                sc0 == old(self).sc(),
                views(out@) == functions_gen(env, sc0, fs@.subrange(0, i as int)).0,
                self.sc() == functions_gen(env, sc0, fs@.subrange(0, i as int)).1,
            decreases fs@.len() - i,
        {
            proof {
                lemma_functions_wf_at(fs@, i as int);
            }
            let t = self.gen_function(&fs[i]);
            let ghost before = out@;
            out.push(t);
            proof {
                let p = fs@.subrange(0, i + 1);
                assert(p.drop_last() =~= fs@.subrange(0, i as int));
                assert(views(out@) =~= views(before).push(t@));
            }
            i = i + 1;
        }
        assert(fs@.subrange(0, fs@.len() as int) =~= fs@);
        out
    }

    fn gen_trait(&mut self, t: &'p Trait) -> (r: String)
        requires
            old(self).scopes@.len() > 0,
            functions_wf(t.methods@),
        ensures
            final(self).kept(&*old(self)),
            r@ == trait_gen(old(self).env(), old(self).sc(), *t).0,
            final(self).sc() == trait_gen(old(self).env(), old(self).sc(), *t).1,
    {
        let mut out = gen_attrs(&t.attrs);
        if t.is_pub {
            out.append("pub ");
        }
        out.append("trait ");
        out.append(t.name.as_str());
        let g = gen_generics(&t.generics);
        out.append(g.as_str());
        let methods = self.gen_functions(&t.methods);
        let m = members_string(&methods);
        out.append(m.as_str());
        out
    }

    fn gen_impl(&mut self, i: &'p Impl) -> (r: String)
        requires
            old(self).scopes@.len() > 0,
            opt_type_wf(i.trait_name),
            type_wf(i.ty),
            functions_wf(i.methods@),
        ensures
            final(self).kept(&*old(self)),
            r@ == impl_gen(old(self).env(), old(self).sc(), *i).0,
            final(self).sc() == impl_gen(old(self).env(), old(self).sc(), *i).1,
    {
        let g = gen_generics(&i.generics);
        let mut head = String::from_str("impl");
        head.append(g.as_str());
        head.append(" ");
        match &i.trait_name {
            Some(tr) => {
                let a = gen_type(&self.module_alias, tr);
                head.append(a.as_str());
                head.append(" for ");
                let b = gen_type(&self.module_alias, &i.ty);
                head.append(b.as_str());
            },
            None => {
                let b = gen_type(&self.module_alias, &i.ty);
                head.append(b.as_str());
            },
        }
        let methods = self.gen_functions(&i.methods);
        let m = members_string(&methods);
        head.append(m.as_str());
        head
    }
}

fn members_string(ms: &Vec<String>) -> (r: String)
    ensures
        r@ == members_text(views(ms@)),
{
    let mut out = String::from_str(" {\n");
    let j = join_strings(ms, "\n\n");
    let ind = indent(j.as_str(), 1);
    out.append(ind.as_str());
    out.append("\n}");
    out
}

proof fn lemma_prescan_ret(items: Seq<Item>)
    ensures
        prescan_env(items).ret is None,
    decreases items.len(),
{
    if items.len() > 0 {
        lemma_prescan_ret(items.drop_last());
    }
}

impl<'p> Codegen<'p> {
    // ---- program & items ------------------------------------------------------

    fn emit_program(&mut self, program: &'p Program, children: &[ChildModule]) -> (r: String)
        requires
            old(self).scopes@.len() > 0,
            program_wf(*program),
        ensures
            r@ == module_text(
                items_gen(old(self).env(), old(self).sc(), program.items@).0,
                items_gen(old(self).env(), old(self).sc(), program.items@).1,
                children@,
            ),
    {
        let (use_lines, bodies) = self.gen_items(program);
        module_string(&use_lines, &bodies, children)
    }

    #[verifier::spinoff_prover]
    fn gen_items(&mut self, program: &'p Program) -> (r: (Vec<String>, Vec<String>))
        requires
            old(self).scopes@.len() > 0,
            program_wf(*program),
        ensures
            views(r.0@) == items_gen(old(self).env(), old(self).sc(), program.items@).0,
            views(r.1@) == items_gen(old(self).env(), old(self).sc(), program.items@).1,
    {
        let ghost env = self.env();
        let ghost sc0 = self.sc();
        let mut use_lines: Vec<String> = Vec::new();
        let mut bodies: Vec<String> = Vec::new();
        let mut i: usize = 0;
        assert(program.items@.subrange(0, 0) =~= Seq::<Item>::empty());
        assert(views(use_lines@) =~= Seq::<Seq<char>>::empty());
        assert(views(bodies@) =~= Seq::<Seq<char>>::empty());
        while i < program.items.len()
            invariant
                i <= program.items@.len(),
                items_wf(program.items@),
                self.kept(&*old(self)),
                self.scopes@.len() > 0,
                env == old(self).env(),
                sc0 == old(self).sc(),
                views(use_lines@) == items_gen(env, sc0, program.items@.subrange(0, i as int)).0,
                views(bodies@) == items_gen(env, sc0, program.items@.subrange(0, i as int)).1,
                self.sc() == items_gen(env, sc0, program.items@.subrange(0, i as int)).2,
            decreases program.items@.len() - i,
        {
            proof {
                lemma_items_wf_at(program.items@, i as int);
                assert(program.items@.subrange(0, i + 1).drop_last() =~= program.items@.subrange(
                    0,
                    i as int,
                ));
            }
            let ghost ub = use_lines@;
            let ghost bb = bodies@;
            match &program.items[i] {
                Item::Use(u) => {
                    let mut ls = gen_use(u);
                    let ghost lv = ls@;
                    use_lines.append(&mut ls);
                    assert(views(use_lines@) =~= views(ub) + views(lv));
                },
                Item::Function(f) => {
                    let t = self.gen_function(f);
                    bodies.push(t);
                    assert(views(bodies@) =~= views(bb).push(t@));
                },
                Item::Struct(s) => {
                    let t = gen_struct(&self.module_alias, s);
                    bodies.push(t);
                    assert(views(bodies@) =~= views(bb).push(t@));
                },
                Item::Enum(e) => {
                    let t = gen_enum(&self.module_alias, e);
                    bodies.push(t);
                    assert(views(bodies@) =~= views(bb).push(t@));
                },
                Item::Trait(t) => {
                    let x = self.gen_trait(t);
                    bodies.push(x);
                    assert(views(bodies@) =~= views(bb).push(x@));
                },
                Item::Impl(im) => {
                    let x = self.gen_impl(im);
                    bodies.push(x);
                    assert(views(bodies@) =~= views(bb).push(x@));
                },
            }
            i = i + 1;
        }
        assert(program.items@.subrange(0, program.items@.len() as int) =~= program.items@);
        (use_lines, bodies)
    }
}

/// Lays out a generated module from its `use` lines and item texts.
fn module_string(use_lines: &Vec<String>, bodies: &Vec<String>, children: &[ChildModule]) -> (r: String)
    ensures
        r@ == module_text(views(use_lines@), views(bodies@), children@),
{
    let body = join_strings(bodies, "\n\n");
    // Auto-import standard collections when referenced but not imported.
    let mut auto: Vec<String> = Vec::new();
    let joined_uses = join_strings(use_lines, "\n");
    if contains_str(body.as_str(), "HashMap") && !contains_str(joined_uses.as_str(), "HashMap") {
        auto.push(String::from_str("use std::collections::HashMap;"));
    }
    if contains_str(body.as_str(), "HashSet") && !contains_str(joined_uses.as_str(), "HashSet") {
        auto.push(String::from_str("use std::collections::HashSet;"));
    }
    assert(views(auto@) =~= auto_imports(body@, joined_uses@));
    let mut out = String::from_str(
        "#![allow(dead_code, unused_variables, unused_imports, unused_mut, unused_parens, non_snake_case, clippy::all)]\n",
    );
    if children.len() > 0 {
        out.append("\n");
        let d = child_lines(children);
        out.append(d.as_str());
    }
    if use_lines.len() > 0 || auto.len() > 0 {
        out.append("\n");
        let a = lines_string(&auto);
        out.append(a.as_str());
        let u = lines_string(use_lines);
        out.append(u.as_str());
    }
    out.append("\n");
    out.append(body.as_str());
    out.append("\n");
    out
}

fn lines_string(ls: &Vec<String>) -> (r: String)
    ensures
        r@ == lines_text(views(ls@)),
{
    let mut out = String::new();
    let mut i: usize = 0;
    while i < ls.len()
        invariant
            i <= ls@.len(),
            out@ == lines_text(views(ls@.subrange(0, i as int))),
        decreases ls@.len() - i,
    {
        out.append(ls[i].as_str());
        out.append("\n");
        assert(views(ls@.subrange(0, i + 1)).drop_last() =~= views(ls@.subrange(0, i as int)));
        i = i + 1;
    }
    assert(ls@.subrange(0, ls@.len() as int) =~= ls@);
    out
}

fn child_lines(children: &[ChildModule]) -> (r: String)
    ensures
        r@ == child_decls(children@),
{
    let mut out = String::new();
    let mut i: usize = 0;
    while i < children.len()
        invariant
            i <= children@.len(),
            out@ == child_decls(children@.subrange(0, i as int)),
        decreases children@.len() - i,
    {
        let child = &children[i];
        if child.cfg_test {
            out.append("#[cfg(test)]\n");
        }
        out.append("pub mod ");
        out.append(child.name.as_str());
        out.append(";\n");
        assert(children@.subrange(0, i + 1).drop_last() =~= children@.subrange(0, i as int));
        i = i + 1;
    }
    assert(children@.subrange(0, children@.len() as int) =~= children@);
    out
}

/// The Rust source of a module with no child modules.
pub fn generate(program: &Program) -> (r: String)
    requires
        program_wf(*program),
    ensures
        r@ == module_rust(*program, Seq::empty()),
{
    let none: Vec<ChildModule> = Vec::new();
    generate_module(program, none.as_slice())
}

/// Generate a module that declares `children` as submodules.
pub fn generate_module(program: &Program, children: &[ChildModule]) -> (r: String)
    requires
        program_wf(*program),
    ensures
        r@ == module_rust(*program, children@),
{
    let mut cg = Codegen::new();
    cg.prescan(program);
    proof {
        lemma_prescan_ret(program.items@);
        assert(cg.env() == prescan_env(program.items@));
    }
    cg.emit_program(program, children)
}

} // verus!
