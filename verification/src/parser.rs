//! Recursive-descent parser for TinyS. Consumes the layout-aware token stream
//! from the lexer and produces an [`ast::Program`].

use vstd::prelude::*;
use crate::ast::{
    args_wf, cond_arms_wf, cond_wf, expr_wf, exprs_wf, function_wf, functions_wf, item_wf,
    items_wf, match_arms_wf, pairs_wf, params_wf, program_wf, stmt_wf, stmts_wf, type_wf, types_wf,
    fields_wf, variants_wf, Arg, AssignOp, Attr, BinaryOp, Borrow, CondKind, Enum, Expr, Field, Function, GenericParam,
    IfChain, IfExpr, Impl, Item, MatchArm, MatchExpr, Param, Pattern, Program, Stmt, Struct,
    Trait, Type, UnaryOp, Use, UseName, Variant,
};
use crate::diagnostics::{Span, Stage, TinysError};
use crate::lexer::{Tok, Token};
use crate::manifest::views;
use crate::text::{decimal_int, i64_to_string, str_eq};

verus! {

broadcast use {vstd::std_specs::control_flow::group_control_flow_axioms, crate::ast::group_wf_push};

pub type PResult<T> = Result<T, TinysError>;

/// A parse failure is reported as a `Parse` error against the file being parsed.
pub open spec fn parse_failure<T>(r: PResult<T>, file: Seq<char>) -> bool {
    r matches Err(e) ==> e.stage == Stage::Parse && e.file@ == file
}

/// A token stream the parser can walk: it is not empty and ends with `Eof`,
/// as every stream from the lexer does.
pub open spec fn parsable(ts: Seq<Token>) -> bool {
    ts.len() > 0 && ts.last().kind is Eof
}

/// What `parse_primary` does, as far as the token it starts at decides it:
/// a literal or a name comes back as it is written (`none` is the `none`
/// literal); `(`, `[` and `{` start a tuple or a parenthesized expression,
/// a list and a dict; any other token is refused.
pub open spec fn primary_by_token(cur: Tok, r: PResult<Expr>) -> bool {
    match cur {
        Tok::Int(n) => r == Ok::<Expr, TinysError>(Expr::Int(n)),
        Tok::Float(f) => r matches Ok(Expr::Float(g)) && g == f,
        Tok::Str(t) => r matches Ok(Expr::Str(g)) && g == t,
        Tok::RawStr(t) => r matches Ok(Expr::RawStr(g)) && g == t,
        Tok::True => r == Ok::<Expr, TinysError>(Expr::Bool(true)),
        Tok::False => r == Ok::<Expr, TinysError>(Expr::Bool(false)),
        Tok::Ident(x) => if x@ == "none"@ {
            r == Ok::<Expr, TinysError>(Expr::NoneLit)
        } else {
            r matches Ok(Expr::Ident(g)) && g == x
        },
        Tok::LParen => true,
        Tok::LBracket => r matches Ok(e) ==> e is List,
        Tok::LBrace => r matches Ok(e) ==> e is Dict,
        _ => r matches Err(e) && e.message@ == "expected expression, found "@ + cur.spec_debug(),
    }
}

/// What `parse_type` does, as far as the tokens it starts at decide it:
/// `mut ref` and `ref` start a reference type, `void` is the unit type, `(`
/// a tuple type (or the unit type), a name a named type (or an array or a
/// slice); any other token is refused.
pub open spec fn type_by_token(cur: Tok, next: Tok, r: PResult<Type>) -> bool {
    if cur is Mut && next is Ref {
        r matches Ok(t) ==> t matches Type::Ref { mutable, .. } && mutable
    } else if cur is Ref {
        r matches Ok(t) ==> t matches Type::Ref { mutable, .. } && !mutable
    } else if cur is Void {
        r == Ok::<Type, TinysError>(Type::Unit)
    } else if cur is LParen {
        r matches Ok(t) ==> t is Unit || t is Tuple
    } else {
        match cur {
            Tok::Ident(x) => r matches Ok(t) ==> (t matches Type::Path { segments, .. }
                && segments@.len() > 0 && segments@[0] == x) || t is Array || t is Slice,
            _ => r matches Err(e) && e.message@ == "expected identifier, found "@ + cur.spec_debug(),
        }
    }
}

/// What `parse_pattern_atom` does, as far as the tokens it starts at decide
/// it: a literal (an integer after `-` negated) is a literal pattern; `(`
/// starts a tuple pattern; a name is a binding, or starts a path or a
/// tuple-struct pattern; any other token is refused.
pub open spec fn pattern_by_token(cur: Tok, next: Tok, r: PResult<Pattern>) -> bool {
    match cur {
        Tok::Int(n) => r == Ok::<Pattern, TinysError>(Pattern::Literal(Expr::Int(n))),
        Tok::Minus => match next {
            Tok::Int(n) => r == Ok::<Pattern, TinysError>(
                Pattern::Literal(Expr::Int(if n == i64::MIN { n } else { (-n) as i64 })),
            ),
            _ => r matches Err(e) && e.message@ == "expected number after `-` in pattern"@,
        },
        Tok::Str(t) => r matches Ok(Pattern::Literal(Expr::Str(g))) && g == t,
        Tok::True => r == Ok::<Pattern, TinysError>(Pattern::Literal(Expr::Bool(true))),
        Tok::False => r == Ok::<Pattern, TinysError>(Pattern::Literal(Expr::Bool(false))),
        Tok::LParen => r matches Ok(p) ==> p is Tuple,
        Tok::Ident(x) => r matches Ok(p) ==> (p matches Pattern::Ident(g) && g == x) || (
        p matches Pattern::TupleStruct { path, .. } && path@.len() > 0 && path@[0] == x) || (
        p matches Pattern::Path(path) && path@.len() > 1 && path@[0] == x),
        _ => r matches Err(e) && e.message@ == "expected pattern, found "@ + cur.spec_debug(),
    }
}

/// What `parse_stmt` does, as far as the token it starts at decides it: a
/// statement keyword decides the kind of statement, and `mut` starts a
/// mutable binding; anything else is an expression statement or an
/// assignment.
pub open spec fn stmt_by_token(cur: Tok, r: PResult<Stmt>) -> bool {
    match cur {
        Tok::Return => r matches Ok(st) ==> st is Return,
        Tok::Pass => r == Ok::<Stmt, TinysError>(Stmt::Pass),
        Tok::Break => r matches Ok(st) ==> st is Break,
        Tok::Continue => r == Ok::<Stmt, TinysError>(Stmt::Continue),
        Tok::If => r matches Ok(st) ==> st is If,
        Tok::While => r matches Ok(st) ==> st is While || st is WhileCase,
        Tok::For => r matches Ok(st) ==> st is For,
        Tok::Loop => r matches Ok(st) ==> st is Loop,
        Tok::Match => r matches Ok(st) ==> st is Match,
        Tok::Unsafe => r matches Ok(st) ==> st is Unsafe,
        Tok::Mut => r matches Ok(st) ==> st matches Stmt::Let { mutable, .. } && mutable,
        _ => true,
    }
}

/// A token that is a whole primary expression by itself: a literal or a name.
pub open spec fn is_atom_token(t: Tok) -> bool {
    t is Int || t is Float || t is Str || t is RawStr || t is True || t is False || t is Ident
}

/// A token that continues an expression as a call, an index, a field or
/// method access, or `?`.
pub open spec fn continues_postfix(t: Tok) -> bool {
    t is LParen || t is LBracket || t is Dot || t is Question
}

/// What `parse_postfix` does, as far as the tokens it starts at decide it:
/// a literal or a name that nothing continues is the primary expression it
/// is; a token that cannot start a primary expression is refused.
pub open spec fn postfix_by_token(cur: Tok, next: Tok, r: PResult<Expr>) -> bool {
    if is_atom_token(cur) && !continues_postfix(next) {
        primary_by_token(cur, r)
    } else if !(is_atom_token(cur) || cur is LParen || cur is LBracket || cur is LBrace) {
        r matches Err(e) && e.message@ == "expected expression, found "@ + cur.spec_debug()
    } else {
        true
    }
}

/// Scanning the tokens from `i` with `depth` brackets open: whether the
/// `]` that closes the first bracket is followed by `(` (generic arguments
/// before a call) rather than anything else, an `Eof` coming first.
pub open spec fn turbofish_from(ts: Seq<Token>, i: int, depth: int) -> bool
    decreases ts.len() - i,
{
    if i < 0 || i >= ts.len() {
        false
    } else if ts[i].kind is LBracket {
        turbofish_from(ts, i + 1, depth + 1)
    } else if ts[i].kind is RBracket {
        if depth - 1 == 0 {
            i + 1 < ts.len() && ts[i + 1].kind is LParen
        } else {
            turbofish_from(ts, i + 1, depth - 1)
        }
    } else if ts[i].kind is Eof {
        false
    } else {
        turbofish_from(ts, i + 1, depth)
    }
}

/// The end of the line breaks at `i`.
pub open spec fn newlines_end(ts: Seq<Token>, i: int) -> int
    decreases ts.len() - i,
{
    if 0 <= i < ts.len() && ts[i].kind is Newline {
        newlines_end(ts, i + 1)
    } else {
        i
    }
}

/// The end of the line breaks at `i` that each come right before `kw`.
pub open spec fn newlines_before(ts: Seq<Token>, i: int, kw: Tok) -> int
    decreases ts.len() - i,
{
    if 0 <= i && i + 1 < ts.len() && ts[i].kind is Newline && ts[i + 1].kind.tag() == kw.tag() {
        newlines_before(ts, i + 1, kw)
    } else {
        i
    }
}

/// The lifetime in an optional `[.name]` at `i`.
pub open spec fn bracket_lifetime(ts: Seq<Token>, i: int) -> Option<String> {
    if 0 <= i && i + 1 < ts.len() && ts[i].kind is LBracket {
        match ts[i + 1].kind {
            Tok::Lifetime(name) => Some(name),
            _ => None,
        }
    } else {
        None
    }
}

pub proof fn lemma_newlines_end(ts: Seq<Token>, i: int)
    requires
        0 <= i <= ts.len(),
    ensures
        i <= newlines_end(ts, i) <= ts.len(),
    decreases ts.len() - i,
{
    if 0 <= i < ts.len() && ts[i].kind is Newline {
        lemma_newlines_end(ts, i + 1);
    }
}

/// The attributes at `i`: the body of each attribute token, the line breaks
/// after each skipped; and where they end.
pub open spec fn attrs_at(ts: Seq<Token>, i: int) -> (Seq<String>, int)
    decreases ts.len() - i,
{
    if 0 <= i < ts.len() {
        match ts[i].kind {
            Tok::Attribute(body) => if i < newlines_end(ts, i + 1) <= ts.len() {
                let (rest, e) = attrs_at(ts, newlines_end(ts, i + 1));
                (seq![body] + rest, e)
            } else {
                (seq![body], i + 1)
            },
            _ => (Seq::empty(), i),
        }
    } else {
        (Seq::empty(), i)
    }
}

/// A parse failure by its parts: the message, and the position of the
/// token it is reported at.
pub type ParseFailure = (Seq<char>, int);

/// The rest of a dotted trait bound whose text so far is `acc`: each
/// `.name` adds `::name`. The bound's text and where it ends.
pub open spec fn bound_rest(ts: Seq<Token>, i: int, acc: Seq<char>) -> Result<(Seq<char>, int), ParseFailure>
    decreases ts.len() - i,
{
    if 0 <= i && i + 1 < ts.len() && ts[i].kind is Dot {
        match ts[i + 1].kind {
            Tok::Ident(n) => bound_rest(ts, i + 2, acc + "::"@ + n@),
            k => Err(("expected identifier, found "@ + k.spec_debug(), i + 1)),
        }
    } else {
        Ok((acc, i))
    }
}

/// A trait bound at `i`, e.g. `Clone` or `iter.Iterator` (as `iter::Iterator`).
pub open spec fn bound_at(ts: Seq<Token>, i: int) -> Result<(Seq<char>, int), ParseFailure> {
    if 0 <= i < ts.len() {
        match ts[i].kind {
            Tok::Ident(n) => bound_rest(ts, i + 1, n@),
            k => Err(("expected identifier, found "@ + k.spec_debug(), i)),
        }
    } else {
        Err(("expected identifier, found "@ + Tok::Eof.spec_debug(), i))
    }
}

/// More `+ bound`s at `i`, after the bounds `acc`.
pub open spec fn bounds_more(ts: Seq<Token>, i: int, acc: Seq<Seq<char>>) -> Result<(Seq<Seq<char>>, int), ParseFailure>
    decreases ts.len() - i,
{
    if 0 <= i < ts.len() && ts[i].kind is Plus {
        match bound_at(ts, i + 1) {
            Ok((b, j)) => if i < j <= ts.len() {
                bounds_more(ts, j, acc.push(b))
            } else {
                Ok((acc.push(b), j))
            },
            Err(f) => Err(f),
        }
    } else {
        Ok((acc, i))
    }
}

/// A generic parameter by its parts: whether it is a lifetime, its name,
/// and its bounds.
pub type GenericView = (bool, Seq<char>, Seq<Seq<char>>);

pub open spec fn generic_view(g: GenericParam) -> GenericView {
    match g {
        GenericParam::Lifetime(n) => (true, n@, Seq::empty()),
        GenericParam::Type { name, bounds } => (false, name@, views(bounds@)),
    }
}

pub open spec fn generic_views(gs: Seq<GenericParam>) -> Seq<GenericView> {
    gs.map_values(|g: GenericParam| generic_view(g))
}

/// One generic parameter at `i`: a lifetime, or a name with optional
/// `: bound + bound ...`.
pub open spec fn generic_param_at(ts: Seq<Token>, i: int) -> Result<(GenericView, int), ParseFailure> {
    match ts[i].kind {
        Tok::Lifetime(n) => Ok(((true, n@, Seq::empty()), i + 1)),
        Tok::Ident(n) => if i + 1 < ts.len() && ts[i + 1].kind is Colon {
            match bound_at(ts, i + 2) {
                Ok((b, j)) => match bounds_more(ts, j, seq![b]) {
                    Ok((bs, k)) => Ok(((false, n@, bs), k)),
                    Err(f) => Err(f),
                },
                Err(f) => Err(f),
            }
        } else {
            Ok(((false, n@, Seq::empty()), i + 1))
        },
        k => Err(("expected generic parameter, found "@ + k.spec_debug(), i)),
    }
}

/// The closing `]` of generic parameters at `j`, after the parameters `acc`.
pub open spec fn generics_close(ts: Seq<Token>, j: int, acc: Seq<GenericView>) -> Result<(Seq<GenericView>, int), ParseFailure> {
    if ts[j].kind is RBracket {
        Ok((acc, j + 1))
    } else {
        Err(("expected "@ + Tok::RBracket.spec_debug() + ", found "@ + ts[j].kind.spec_debug(), j))
    }
}

/// The generic parameters from `i` on, inside `[`, after the parameters
/// `acc`: separated by commas (a trailing one allowed) up to `]`.
pub open spec fn generic_list(ts: Seq<Token>, i: int, acc: Seq<GenericView>) -> Result<(Seq<GenericView>, int), ParseFailure>
    decreases ts.len() - i,
{
    if !(0 <= i < ts.len()) || ts[i].kind is RBracket {
        generics_close(ts, i, acc)
    } else {
        match generic_param_at(ts, i) {
            Ok((g, j)) => if 0 <= j < ts.len() && ts[j].kind is Comma && i < j + 1 <= ts.len() {
                generic_list(ts, j + 1, acc.push(g))
            } else {
                generics_close(ts, j, acc.push(g))
            },
            Err(f) => Err(f),
        }
    }
}

/// The optional generic parameters `[...]` at `i`: their parts and where
/// they end; none at all without a `[`.
pub open spec fn generics_at(ts: Seq<Token>, i: int) -> Result<(Seq<GenericView>, int), ParseFailure> {
    if 0 <= i < ts.len() && ts[i].kind is LBracket {
        generic_list(ts, i + 1, Seq::empty())
    } else {
        Ok((Seq::empty(), i))
    }
}

pub proof fn lemma_bound_rest(ts: Seq<Token>, i: int, acc: Seq<char>)
    requires
        0 <= i <= ts.len(),
    ensures
        bound_rest(ts, i, acc) matches Ok((_, j)) ==> i <= j <= ts.len(),
    decreases ts.len() - i,
{
    if 0 <= i && i + 1 < ts.len() && ts[i].kind is Dot {
        match ts[i + 1].kind {
            Tok::Ident(n) => lemma_bound_rest(ts, i + 2, acc + "::"@ + n@),
            _ => {},
        }
    }
}

pub proof fn lemma_bounds_more(ts: Seq<Token>, i: int, acc: Seq<Seq<char>>)
    requires
        0 <= i <= ts.len(),
    ensures
        bounds_more(ts, i, acc) matches Ok((_, k)) ==> i <= k <= ts.len(),
    decreases ts.len() - i,
{
    if 0 <= i < ts.len() && ts[i].kind is Plus {
        if i + 1 < ts.len() {
            lemma_bound_rest(ts, i + 2, Seq::empty());
            match ts[i + 1].kind {
                Tok::Ident(n) => lemma_bound_rest(ts, i + 2, n@),
                _ => {},
            }
        }
        match bound_at(ts, i + 1) {
            Ok((b, j)) => if i < j <= ts.len() {
                lemma_bounds_more(ts, j, acc.push(b));
            },
            Err(_) => {},
        }
    }
}

pub proof fn lemma_generic_param_at(ts: Seq<Token>, i: int)
    requires
        0 <= i < ts.len(),
    ensures
        generic_param_at(ts, i) matches Ok((_, j)) ==> i < j <= ts.len(),
{
    match ts[i].kind {
        Tok::Ident(n) => if i + 1 < ts.len() && ts[i + 1].kind is Colon {
            if i + 2 < ts.len() {
                match ts[i + 2].kind {
                    Tok::Ident(m) => lemma_bound_rest(ts, i + 3, m@),
                    _ => {},
                }
            }
            match bound_at(ts, i + 2) {
                Ok((b, j)) => lemma_bounds_more(ts, j, seq![b]),
                Err(_) => {},
            }
        },
        _ => {},
    }
}

/// The kind of the token at `i`; past the end, `Eof`.
pub open spec fn tok_at(ts: Seq<Token>, i: int) -> Tok {
    if 0 <= i < ts.len() {
        ts[i].kind
    } else {
        Tok::Eof
    }
}

/// The failure `expect` reports when the token at `i` is not `want`.
pub open spec fn expected_at(ts: Seq<Token>, i: int, want: Tok) -> ParseFailure {
    ("expected "@ + want.spec_debug() + ", found "@ + tok_at(ts, i).spec_debug(), i)
}

/// A type by its parts: the path segments (a lifetime argument is the
/// segment `'name`), the reference flag and lifetime, the elements. The
/// length of an array type is not part of it.
pub enum TypeView {
    Unit,
    Path(Seq<Seq<char>>, Seq<TypeView>),
    Ref(bool, Option<Seq<char>>, Box<TypeView>),
    Tuple(Seq<TypeView>),
    Array(Box<TypeView>),
    Slice(Box<TypeView>),
}

pub open spec fn type_view(t: Type) -> TypeView
    decreases t,
{
    match t {
        Type::Unit => TypeView::Unit,
        Type::Path { segments, args } => TypeView::Path(views(segments@), type_views(args@)),
        Type::Ref { mutable, lifetime, inner } => TypeView::Ref(
            mutable,
            match lifetime {
                Some(l) => Some(l@),
                None => None,
            },
            Box::new(type_view(*inner)),
        ),
        Type::Tuple(elems) => TypeView::Tuple(type_views(elems@)),
        Type::Array { elem, .. } => TypeView::Array(Box::new(type_view(*elem))),
        Type::Slice(inner) => TypeView::Slice(Box::new(type_view(*inner))),
    }
}

pub open spec fn type_views(ts: Seq<Type>) -> Seq<TypeView>
    decreases ts,
{
    if ts.len() == 0 {
        Seq::empty()
    } else {
        type_views(ts.subrange(0, ts.len() - 1)).push(type_view(ts[ts.len() - 1]))
    }
}

/// Where an optional `[.name]` at `j` ends.
pub open spec fn lifetime_end(ts: Seq<Token>, j: int) -> int {
    match bracket_lifetime(ts, j) {
        None => j,
        Some(_) => j + 2 + if tok_at(ts, j + 2) is RBracket {
            1int
        } else {
            0int
        },
    }
}

/// The result of a type parse: `None` where the type holds an array type,
/// whose length is an expression; else the type and where it ends, or the
/// failure.
pub type TypeResult = Option<Result<(TypeView, int), ParseFailure>>;

/// The reference type at `i` whose `[.name]` would start at `j`.
pub open spec fn ref_type_at(ts: Seq<Token>, i: int, j: int, mutable: bool) -> TypeResult
    decreases ts.len() - i, 0int,
{
    let lt = match bracket_lifetime(ts, j) {
        Some(l) => Some(l@),
        None => None,
    };
    if i < lifetime_end(ts, j) <= ts.len() {
        match type_at(ts, lifetime_end(ts, j)) {
            Some(Ok((t, e))) => Some(Ok((TypeView::Ref(mutable, lt, Box::new(t)), e))),
            other => other,
        }
    } else {
        None
    }
}

/// The type at `i`: `mut ref` / `ref` with an optional `[.name]`, `void`, a
/// tuple `( .. )`, or a dotted name with optional arguments in `[ .. ]`
/// (`slice[T]`, `array[T, N]` taken apart).
pub open spec fn type_at(ts: Seq<Token>, i: int) -> TypeResult
    decreases ts.len() - i, 1int,
{
    if !(0 <= i < ts.len()) {
        None
    } else if tok_at(ts, i) is Mut && tok_at(ts, i + 1) is Ref {
        ref_type_at(ts, i, i + 2, true)
    } else if tok_at(ts, i) is Ref {
        ref_type_at(ts, i, i + 1, false)
    } else if tok_at(ts, i) is Void {
        Some(Ok((TypeView::Unit, i + 1)))
    } else if tok_at(ts, i) is LParen {
        match type_list(ts, i + 1, Seq::empty(), false) {
            Some(Ok((elems, e))) => Some(Ok((if elems.len() == 0 {
                TypeView::Unit
            } else {
                TypeView::Tuple(elems)
            }, e))),
            Some(Err(f)) => Some(Err(f)),
            None => None,
        }
    } else {
        match tok_at(ts, i) {
            Tok::Ident(n) => match seg_rest(ts, i + 1, seq![n@]) {
                Ok((segs, j)) => if i < j <= ts.len() {
                    type_after_path(ts, j, segs)
                } else {
                    None
                },
                Err(f) => Some(Err(f)),
            },
            k => Some(Err(("expected identifier, found "@ + k.spec_debug(), i))),
        }
    }
}

/// More `.name` segments of a path at `j`, after the segments `acc`.
pub open spec fn seg_rest(ts: Seq<Token>, j: int, acc: Seq<Seq<char>>) -> Result<(Seq<Seq<char>>, int), ParseFailure>
    decreases ts.len() - j,
{
    if 0 <= j < ts.len() && tok_at(ts, j) is Dot {
        match tok_at(ts, j + 1) {
            Tok::Ident(n) => seg_rest(ts, j + 2, acc.push(n@)),
            k => Err(("expected identifier, found "@ + k.spec_debug(), j + 1)),
        }
    } else {
        Ok((acc, j))
    }
}

/// What follows the path `segs` of a named type, at `j` (past the type's
/// first token).
pub open spec fn type_after_path(ts: Seq<Token>, j: int, segs: Seq<Seq<char>>) -> TypeResult
    decreases ts.len() - j, 2int,
{
    if tok_at(ts, j) is LBracket && 0 <= j < ts.len() {
        if segs.last() == "array"@ {
            None
        } else if segs.last() == "slice"@ {
            match type_at(ts, j + 1) {
                Some(Ok((t, k))) => if tok_at(ts, k) is RBracket {
                    Some(Ok((TypeView::Slice(Box::new(t)), k + 1)))
                } else {
                    Some(Err(expected_at(ts, k, Tok::RBracket)))
                },
                other => other,
            }
        } else {
            path_with_args(segs, type_list(ts, j + 1, Seq::empty(), true))
        }
    } else {
        Some(Ok((TypeView::Path(segs, Seq::empty()), j)))
    }
}

/// The named type `segs` with the arguments that `args` gives.
pub open spec fn path_with_args(segs: Seq<Seq<char>>, args: Option<Result<(Seq<TypeView>, int), ParseFailure>>) -> TypeResult {
    match args {
        Some(Ok((a, e))) => Some(Ok((TypeView::Path(segs, a), e))),
        Some(Err(f)) => Some(Err(f)),
        None => None,
    }
}

/// A list of types at `j` up to its closing `)` (or `]` for `args`, where a
/// lifetime is an argument too), separated by commas, a trailing one
/// allowed; after the elements `acc`.
pub open spec fn type_list(ts: Seq<Token>, j: int, acc: Seq<TypeView>, args: bool) -> Option<Result<(Seq<TypeView>, int), ParseFailure>>
    decreases ts.len() - j, 3int,
{
    let close = if args {
        Tok::RBracket
    } else {
        Tok::RParen
    };
    if !(0 <= j < ts.len()) {
        None
    } else if tok_at(ts, j).tag() == close.tag() {
        Some(Ok((acc, j + 1)))
    } else {
        let elem: TypeResult = match tok_at(ts, j) {
            Tok::Lifetime(name) => if args {
                Some(Ok((TypeView::Path(seq!["'"@ + name@], Seq::empty()), j + 1)))
            } else {
                type_at(ts, j)
            },
            _ => type_at(ts, j),
        };
        match elem {
            Some(Ok((t, k))) => if tok_at(ts, k) is Comma && j < k < ts.len() {
                type_list(ts, k + 1, acc.push(t), args)
            } else {
                type_list_close(ts, k, acc.push(t), args)
            },
            Some(Err(f)) => Some(Err(f)),
            None => None,
        }
    }
}

/// What closes a list of types at `k`, after the elements `acc`.
pub open spec fn type_list_close(ts: Seq<Token>, k: int, acc: Seq<TypeView>, args: bool) -> Option<Result<(Seq<TypeView>, int), ParseFailure>> {
    let close = if args {
        Tok::RBracket
    } else {
        Tok::RParen
    };
    if tok_at(ts, k).tag() == close.tag() {
        Some(Ok((acc, k + 1)))
    } else {
        Some(Err(expected_at(ts, k, close)))
    }
}

/// `r`, and `end` where the parse stopped, are what `res` says of a type:
/// the same type ending there, or a failure with the same message at the
/// same token.
pub open spec fn type_parsed(res: TypeResult, r: PResult<Type>, end: int, ts: Seq<Token>) -> bool {
    match res {
        None => true,
        Some(Ok((tv, e))) => r matches Ok(t) && type_view(t) == tv && end == e,
        Some(Err((m, at))) => r matches Err(x) && x.message@ == m && 0 <= at < ts.len() && x.span == ts[at].span,
    }
}

/// A pattern by its parts; a literal pattern by its value (the parser makes
/// integer, string and `true` / `false` literals only).
pub enum PatView {
    Wildcard,
    Ident(Seq<char>),
    Int(i64),
    Str(Seq<char>),
    Bool(bool),
    OtherLiteral,
    Tuple(Seq<PatView>),
    TupleStruct(Seq<Seq<char>>, Seq<PatView>),
    Path(Seq<Seq<char>>),
    Or(Seq<PatView>),
    Binding(Box<PatView>, Seq<char>),
}

pub open spec fn pat_view(p: Pattern) -> PatView
    decreases p,
{
    match p {
        Pattern::Wildcard => PatView::Wildcard,
        Pattern::Ident(n) => PatView::Ident(n@),
        Pattern::Literal(e) => match e {
            Expr::Int(n) => PatView::Int(n),
            Expr::Str(s) => PatView::Str(s@),
            Expr::Bool(b) => PatView::Bool(b),
            _ => PatView::OtherLiteral,
        },
        Pattern::Tuple(elems) => PatView::Tuple(pat_views(elems@)),
        Pattern::TupleStruct { path, elems } => PatView::TupleStruct(views(path@), pat_views(elems@)),
        Pattern::Path(path) => PatView::Path(views(path@)),
        Pattern::Or(alts) => PatView::Or(pat_views(alts@)),
        Pattern::Binding { pattern, name } => PatView::Binding(Box::new(pat_view(*pattern)), name@),
    }
}

pub open spec fn pat_views(ps: Seq<Pattern>) -> Seq<PatView>
    decreases ps,
{
    if ps.len() == 0 {
        Seq::empty()
    } else {
        pat_views(ps.subrange(0, ps.len() - 1)).push(pat_view(ps[ps.len() - 1]))
    }
}

pub type PatResult = Result<(PatView, int), ParseFailure>;

/// The pattern at `i`: alternatives separated by `|`, then an optional
/// `as name`.
pub open spec fn pattern_at(ts: Seq<Token>, i: int) -> PatResult
    decreases ts.len() - i, 6int,
{
    if !(0 <= i < ts.len()) {
        Err(expected_at(ts, i, Tok::RParen))
    } else {
        match pat_atom_at(ts, i) {
            Ok((a, j)) => if i < j <= ts.len() {
                match pat_alts(ts, j, seq![a]) {
                    Ok((alts, e)) => pattern_binding(
                        ts,
                        e,
                        if alts.len() == 1 {
                            alts[0]
                        } else {
                            PatView::Or(alts)
                        },
                    ),
                    Err(f) => Err(f),
                }
            } else {
                Err(expected_at(ts, i, Tok::RParen))
            },
            Err(f) => Err(f),
        }
    }
}

/// An optional `as name` at `e` after the pattern `p`.
pub open spec fn pattern_binding(ts: Seq<Token>, e: int, p: PatView) -> PatResult {
    if 0 <= e < ts.len() && tok_at(ts, e) is As {
        match tok_at(ts, e + 1) {
            Tok::Ident(n) => Ok((PatView::Binding(Box::new(p), n@), e + 2)),
            k => Err(("expected identifier, found "@ + k.spec_debug(), e + 1)),
        }
    } else {
        Ok((p, e))
    }
}

/// More `| atom` alternatives at `j`, after the alternatives `acc`.
pub open spec fn pat_alts(ts: Seq<Token>, j: int, acc: Seq<PatView>) -> Result<(Seq<PatView>, int), ParseFailure>
    decreases ts.len() - j, 7int,
{
    if 0 <= j < ts.len() && tok_at(ts, j) is Pipe {
        match pat_atom_at(ts, j + 1) {
            Ok((p, k)) => if j < k <= ts.len() {
                pat_alts(ts, k, acc.push(p))
            } else {
                Ok((acc.push(p), k))
            },
            Err(f) => Err(f),
        }
    } else {
        Ok((acc, j))
    }
}

/// One pattern alternative at `i`: a literal (an integer after `-`
/// negated), a tuple, a name, a dotted path, or a path with a tuple of
/// patterns.
pub open spec fn pat_atom_at(ts: Seq<Token>, i: int) -> PatResult
    decreases ts.len() - i, 5int,
{
    if !(0 <= i < ts.len()) {
        Err(expected_at(ts, i, Tok::RParen))
    } else {
        match tok_at(ts, i) {
            Tok::Int(n) => Ok((PatView::Int(n), i + 1)),
            Tok::Minus => match tok_at(ts, i + 1) {
                Tok::Int(n) => Ok((PatView::Int(if n == i64::MIN { n } else { (-n) as i64 }), i + 2)),
                _ => Err(("expected number after `-` in pattern"@, i + 1)),
            },
            Tok::Str(s) => Ok((PatView::Str(s@), i + 1)),
            Tok::True => Ok((PatView::Bool(true), i + 1)),
            Tok::False => Ok((PatView::Bool(false), i + 1)),
            Tok::LParen => tuple_pattern(pat_list(ts, i + 1, Seq::empty())),
            Tok::Ident(n) => match seg_rest(ts, i + 1, seq![n@]) {
                Ok((path, j)) => if tok_at(ts, j) is LParen && i < j < ts.len() {
                    tuple_struct_pattern(path, pat_list(ts, j + 1, Seq::empty()))
                } else if path.len() == 1 {
                    Ok((PatView::Ident(path[0]), j))
                } else {
                    Ok((PatView::Path(path), j))
                },
                Err(f) => Err(f),
            },
            k => Err(("expected pattern, found "@ + k.spec_debug(), i)),
        }
    }
}

/// The tuple pattern of the elements that `elems` gives.
pub open spec fn tuple_pattern(elems: Result<(Seq<PatView>, int), ParseFailure>) -> PatResult {
    match elems {
        Ok((es, e)) => Ok((PatView::Tuple(es), e)),
        Err(f) => Err(f),
    }
}

/// The tuple-struct pattern `path(..)` of the elements that `elems` gives.
pub open spec fn tuple_struct_pattern(path: Seq<Seq<char>>, elems: Result<(Seq<PatView>, int), ParseFailure>) -> PatResult {
    match elems {
        Ok((es, e)) => Ok((PatView::TupleStruct(path, es), e)),
        Err(f) => Err(f),
    }
}

pub proof fn lemma_pat_views(s: Seq<Pattern>)
    ensures
        pat_views(s).len() == s.len(),
        forall|k: int| 0 <= k < s.len() ==> #[trigger] pat_views(s)[k] == pat_view(s[k]),
    decreases s.len(),
{
    if s.len() > 0 {
        lemma_pat_views(s.subrange(0, s.len() - 1));
    }
}

/// Patterns at `j` up to the closing `)`, separated by commas, a trailing
/// one allowed; after the patterns `acc`.
pub open spec fn pat_list(ts: Seq<Token>, j: int, acc: Seq<PatView>) -> Result<(Seq<PatView>, int), ParseFailure>
    decreases ts.len() - j, 8int,
{
    if !(0 <= j < ts.len()) {
        Err(expected_at(ts, j, Tok::RParen))
    } else if tok_at(ts, j) is RParen {
        Ok((acc, j + 1))
    } else {
        match pattern_at(ts, j) {
            Ok((p, k)) => if tok_at(ts, k) is Comma && j < k < ts.len() {
                pat_list(ts, k + 1, acc.push(p))
            } else {
                pat_list_close(ts, k, acc.push(p))
            },
            Err(f) => Err(f),
        }
    }
}

/// The closing `)` of a list of patterns at `k`, after the patterns `acc`.
pub open spec fn pat_list_close(ts: Seq<Token>, k: int, acc: Seq<PatView>) -> Result<(Seq<PatView>, int), ParseFailure> {
    if tok_at(ts, k) is RParen {
        Ok((acc, k + 1))
    } else {
        Err(expected_at(ts, k, Tok::RParen))
    }
}

/// `r`, and `end` where the parse stopped, are what `res` says of a pattern.
pub open spec fn pattern_parsed(res: PatResult, r: PResult<Pattern>, end: int, ts: Seq<Token>) -> bool {
    match res {
        Ok((pv, e)) => r matches Ok(p) && pat_view(p) == pv && end == e,
        Err((m, at)) => r matches Err(x) && x.message@ == m && 0 <= at < ts.len() && x.span == ts[at].span,
    }
}

/// An expression by its parts. The length of an array type among call type
/// arguments is not part of it.
pub enum ExprView {
    Int(i64),
    Float(Seq<char>),
    Str(Seq<char>),
    RawStr(Seq<char>),
    Bool(bool),
    Ident(Seq<char>),
    NoneLit,
    Unary(UnaryOp, Box<ExprView>),
    Binary(BinaryOp, Box<ExprView>, Box<ExprView>),
    Field(Box<ExprView>, Seq<char>),
    Index(Box<ExprView>, Box<ExprView>),
    /// The callee, the type arguments, and each argument with its keyword.
    Call(Box<ExprView>, Seq<TypeView>, Seq<(Option<Seq<char>>, ExprView)>),
    Ref(bool, Box<ExprView>),
    Deref(Box<ExprView>),
    CloneOf(Box<ExprView>),
    Move(Box<ExprView>),
    Await(Box<ExprView>),
    Try(Box<ExprView>),
    Range(Option<Box<ExprView>>, Option<Box<ExprView>>, bool),
    Tuple(Seq<ExprView>),
    List(Seq<ExprView>),
    Dict(Seq<(ExprView, ExprView)>),
    /// The `if`/`elif` arms and the `else` body.
    If(Seq<(CondView, Seq<StmtView>)>, Seq<StmtView>),
    /// The scrutinee and the arms: pattern, guard, body.
    Match(Box<ExprView>, Seq<(PatView, Option<ExprView>, Seq<StmtView>)>),
    Loop(Option<Seq<char>>, Seq<StmtView>),
    /// Whether it moves, the parameters, the return type, the body.
    Closure(bool, Seq<(Seq<char>, TypeView)>, Option<TypeView>, Seq<StmtView>),
}

/// The condition of an `if`/`elif`/`while`: an expression, or `case P = e`.
pub enum CondView {
    Bool(ExprView),
    Case(PatView, ExprView),
}

/// A statement by its parts.
pub enum StmtView {
    Let(bool, Seq<char>, Option<TypeView>, ExprView),
    LetTuple(Seq<Seq<char>>, ExprView),
    Assign(ExprView, AssignOp, ExprView),
    Expr(ExprView),
    Return(Option<ExprView>),
    If(Seq<(CondView, Seq<StmtView>)>, Option<Seq<StmtView>>),
    While(ExprView, Seq<StmtView>),
    WhileCase(PatView, ExprView, Seq<StmtView>),
    For(PatView, ExprView, Borrow, Seq<StmtView>),
    Loop(Option<Seq<char>>, Seq<StmtView>),
    Break(Option<Seq<char>>, Option<ExprView>),
    Continue,
    Match(ExprView, Seq<(PatView, Option<ExprView>, Seq<StmtView>)>),
    Unsafe(Seq<StmtView>),
    Pass,
}

pub open spec fn opt_str_view(o: Option<String>) -> Option<Seq<char>> {
    match o {
        Some(s) => Some(s@),
        None => None,
    }
}

pub open spec fn expr_view(e: Expr) -> ExprView
    decreases e,
{
    match e {
        Expr::Int(n) => ExprView::Int(n),
        Expr::Float(f) => ExprView::Float(f@),
        Expr::Str(s) => ExprView::Str(s@),
        Expr::RawStr(s) => ExprView::RawStr(s@),
        Expr::Bool(b) => ExprView::Bool(b),
        Expr::Ident(n) => ExprView::Ident(n@),
        Expr::NoneLit => ExprView::NoneLit,
        Expr::Unary { op, expr } => ExprView::Unary(op, Box::new(expr_view(*expr))),
        Expr::Binary { op, lhs, rhs } => ExprView::Binary(op, Box::new(expr_view(*lhs)), Box::new(expr_view(*rhs))),
        Expr::Field { recv, name } => ExprView::Field(Box::new(expr_view(*recv)), name@),
        Expr::Index { recv, index } => ExprView::Index(Box::new(expr_view(*recv)), Box::new(expr_view(*index))),
        Expr::Call { callee, type_args, args } => ExprView::Call(
            Box::new(expr_view(*callee)),
            type_views(type_args@),
            arg_views(args@),
        ),
        Expr::Ref { mutable, expr } => ExprView::Ref(mutable, Box::new(expr_view(*expr))),
        Expr::Deref(x) => ExprView::Deref(Box::new(expr_view(*x))),
        Expr::CloneExpr(x) => ExprView::CloneOf(Box::new(expr_view(*x))),
        Expr::Move(x) => ExprView::Move(Box::new(expr_view(*x))),
        Expr::Await(x) => ExprView::Await(Box::new(expr_view(*x))),
        Expr::Try(x) => ExprView::Try(Box::new(expr_view(*x))),
        Expr::Range { start, end, inclusive } => ExprView::Range(
            match start {
                Some(x) => Some(Box::new(expr_view(*x))),
                None => None,
            },
            match end {
                Some(x) => Some(Box::new(expr_view(*x))),
                None => None,
            },
            inclusive,
        ),
        Expr::Tuple(xs) => ExprView::Tuple(expr_views(xs@)),
        Expr::List(xs) => ExprView::List(expr_views(xs@)),
        Expr::Dict(ps) => ExprView::Dict(pair_views(ps@)),
        Expr::If(ie) => ExprView::If(cond_arm_views(ie.arms@), stmt_views(ie.else_body@)),
        Expr::Match(m) => ExprView::Match(Box::new(expr_view(*m.scrutinee)), match_arm_views(m.arms@)),
        Expr::Loop { label, body } => ExprView::Loop(opt_str_view(label), stmt_views(body@)),
        Expr::Closure { is_move, params, ret, body } => ExprView::Closure(
            is_move,
            param_views(params@),
            opt_type_view(ret),
            stmt_views(body@),
        ),
    }
}

pub open spec fn expr_views(es: Seq<Expr>) -> Seq<ExprView>
    decreases es,
{
    if es.len() == 0 {
        Seq::empty()
    } else {
        expr_views(es.subrange(0, es.len() - 1)).push(expr_view(es[es.len() - 1]))
    }
}

pub open spec fn arg_views(args: Seq<Arg>) -> Seq<(Option<Seq<char>>, ExprView)>
    decreases args,
{
    if args.len() == 0 {
        Seq::empty()
    } else {
        arg_views(args.subrange(0, args.len() - 1)).push(
            match args[args.len() - 1] {
                Arg::Positional(e) => (None, expr_view(e)),
                Arg::Keyword(n, e) => (Some(n@), expr_view(e)),
            },
        )
    }
}

pub open spec fn pair_views(ps: Seq<(Expr, Expr)>) -> Seq<(ExprView, ExprView)>
    decreases ps,
{
    if ps.len() == 0 {
        Seq::empty()
    } else {
        pair_views(ps.subrange(0, ps.len() - 1)).push(
            (expr_view(ps[ps.len() - 1].0), expr_view(ps[ps.len() - 1].1)),
        )
    }
}

pub open spec fn cond_view(c: CondKind) -> CondView
    decreases c,
{
    match c {
        CondKind::Bool(e) => CondView::Bool(expr_view(e)),
        CondKind::Case { pattern, expr } => CondView::Case(pat_view(pattern), expr_view(expr)),
    }
}

pub open spec fn cond_arm_views(arms: Seq<(CondKind, Vec<Stmt>)>) -> Seq<(CondView, Seq<StmtView>)>
    decreases arms,
{
    if arms.len() == 0 {
        Seq::empty()
    } else {
        cond_arm_views(arms.subrange(0, arms.len() - 1)).push(
            (cond_view(arms[arms.len() - 1].0), stmt_views(arms[arms.len() - 1].1@)),
        )
    }
}

pub open spec fn match_arm_views(arms: Seq<MatchArm>) -> Seq<(PatView, Option<ExprView>, Seq<StmtView>)>
    decreases arms,
{
    if arms.len() == 0 {
        Seq::empty()
    } else {
        match_arm_views(arms.subrange(0, arms.len() - 1)).push(
            (
                pat_view(arms[arms.len() - 1].pattern),
                match arms[arms.len() - 1].guard {
                    Some(g) => Some(expr_view(g)),
                    None => None,
                },
                stmt_views(arms[arms.len() - 1].body@),
            ),
        )
    }
}

pub open spec fn stmt_view(s: Stmt) -> StmtView
    decreases s,
{
    match s {
        Stmt::Let { mutable, name, ty, value } => StmtView::Let(
            mutable,
            name@,
            match ty {
                Some(t) => Some(type_view(t)),
                None => None,
            },
            expr_view(value),
        ),
        Stmt::LetTuple { names, value } => StmtView::LetTuple(views(names@), expr_view(value)),
        Stmt::Assign { target, op, value } => StmtView::Assign(expr_view(target), op, expr_view(value)),
        Stmt::Expr(e) => StmtView::Expr(expr_view(e)),
        Stmt::Return(v) => StmtView::Return(
            match v {
                Some(e) => Some(expr_view(e)),
                None => None,
            },
        ),
        Stmt::If(chain) => StmtView::If(
            cond_arm_views(chain.arms@),
            match chain.else_body {
                Some(b) => Some(stmt_views(b@)),
                None => None,
            },
        ),
        Stmt::While { cond, body } => StmtView::While(expr_view(cond), stmt_views(body@)),
        Stmt::WhileCase { pattern, expr, body } => StmtView::WhileCase(pat_view(pattern), expr_view(expr), stmt_views(body@)),
        Stmt::For { pattern, iter, iter_borrow, body } => StmtView::For(
            pat_view(pattern),
            expr_view(iter),
            iter_borrow,
            stmt_views(body@),
        ),
        Stmt::Loop { label, body } => StmtView::Loop(opt_str_view(label), stmt_views(body@)),
        Stmt::Break { label, value } => StmtView::Break(
            opt_str_view(label),
            match value {
                Some(e) => Some(expr_view(e)),
                None => None,
            },
        ),
        Stmt::Continue => StmtView::Continue,
        Stmt::Match(m) => StmtView::Match(expr_view(*m.scrutinee), match_arm_views(m.arms@)),
        Stmt::Unsafe(b) => StmtView::Unsafe(stmt_views(b@)),
        Stmt::Pass => StmtView::Pass,
    }
}

pub open spec fn stmt_views(ss: Seq<Stmt>) -> Seq<StmtView>
    decreases ss,
{
    if ss.len() == 0 {
        Seq::empty()
    } else {
        stmt_views(ss.subrange(0, ss.len() - 1)).push(stmt_view(ss[ss.len() - 1]))
    }
}

/// The result of an expression parse: `None` where it meets an expression
/// that is not taken apart; else the expression and where it ends, or the
/// failure.
pub type ExprResult = Option<Result<(ExprView, int), ParseFailure>>;

/// `r`, and `end` where the parse stopped, are what `res` says of an
/// expression.
pub open spec fn expr_parsed(res: ExprResult, r: PResult<Expr>, end: int, ts: Seq<Token>) -> bool {
    match res {
        None => true,
        Some(Ok((ev, e))) => r matches Ok(x) && expr_view(x) == ev && end == e,
        Some(Err((m, at))) => r matches Err(x) && x.message@ == m && 0 <= at < ts.len() && x.span == ts[at].span,
    }
}

pub open spec fn range_end_follows_tok(t: Tok) -> bool {
    !(t is Newline || t is Dedent || t is Eof || t is Colon || t is RParen || t is RBracket)
}

pub open spec fn additive_op(t: Tok) -> Option<BinaryOp> {
    match t {
        Tok::Plus => Some(BinaryOp::Add),
        Tok::Minus => Some(BinaryOp::Sub),
        _ => None,
    }
}

pub open spec fn multiplicative_op(t: Tok) -> Option<BinaryOp> {
    match t {
        Tok::Star => Some(BinaryOp::Mul),
        Tok::Slash => Some(BinaryOp::Div),
        Tok::Percent => Some(BinaryOp::Rem),
        _ => None,
    }
}

/// A member name at `k` after `.`: a name, a tuple index, or `clone`.
pub open spec fn member_at(ts: Seq<Token>, k: int) -> Result<(Seq<char>, int), ParseFailure> {
    match tok_at(ts, k) {
        Tok::Ident(s) => Ok((s@, k + 1)),
        Tok::Int(n) => Ok((decimal_int(n as int), k + 1)),
        Tok::Clone => Ok(("clone"@, k + 1)),
        t => Err(("expected field or method name, found "@ + t.spec_debug(), k)),
    }
}

/// Type arguments at `j` up to the closing `]`, after the types `acc`.
pub open spec fn turbofish_types(ts: Seq<Token>, j: int, acc: Seq<TypeView>) -> Option<Result<(Seq<TypeView>, int), ParseFailure>>
    decreases ts.len() - j, 30int,
{
    if !(0 <= j < ts.len()) {
        None
    } else if tok_at(ts, j) is RBracket {
        Some(Ok((acc, j + 1)))
    } else {
        match type_at(ts, j) {
            Some(Ok((t, k))) => if tok_at(ts, k) is Comma && j < k < ts.len() {
                turbofish_types(ts, k + 1, acc.push(t))
            } else {
                type_list_close(ts, k, acc.push(t), true)
            },
            Some(Err(f)) => Some(Err(f)),
            None => None,
        }
    }
}

pub type ArgsResult = Option<Result<(Seq<(Option<Seq<char>>, ExprView)>, int), ParseFailure>>;

/// Where the grammar of expressions and statements is: a level of it, or a
/// list, with what has been read of it so far.
pub enum Nt {
    Expr,
    Range,
    Or,
    OrRest(ExprView),
    And,
    AndRest(ExprView),
    Not,
    Cmp,
    CmpRest(ExprView),
    Add,
    AddRest(ExprView),
    Mul,
    MulRest(ExprView),
    Unary,
    Postfix,
    PostfixRest(ExprView),
    Primary,
    CallArgs,
    ArgList(Seq<(Option<Seq<char>>, ExprView)>),
    ExprList(Seq<ExprView>, Tok, bool),
    DictList(Seq<(ExprView, ExprView)>),
    IfCommon,
    IfElifs(Seq<(CondView, Seq<StmtView>)>),
    Cond,
    While,
    For,
    LoopParts,
    Match,
    MatchArms(Seq<(PatView, Option<ExprView>, Seq<StmtView>)>),
    Closure(bool),
    ClosureParams(Seq<(Seq<char>, TypeView)>),
    Stmt,
    ExprStmt,
    NamesRest(Seq<Seq<char>>),
    Block,
    BlockStmts(Seq<StmtView>),
}

/// What a part of the grammar yields.
pub enum GVal {
    E(ExprView),
    Es(Seq<ExprView>, bool),
    Ps(Seq<(ExprView, ExprView)>),
    As(Seq<(Option<Seq<char>>, ExprView)>),
    S(StmtView),
    B(Seq<StmtView>),
    C(CondView),
    IfP(Seq<(CondView, Seq<StmtView>)>, Option<Seq<StmtView>>),
    LoopP(Option<Seq<char>>, Seq<StmtView>),
    M(ExprView, Seq<(PatView, Option<ExprView>, Seq<StmtView>)>),
    Arms(Seq<(PatView, Option<ExprView>, Seq<StmtView>)>),
    Params(Seq<(Seq<char>, TypeView)>),
}

pub type GResult = Option<Result<(GVal, int), ParseFailure>>;

pub open spec fn nt_rank(nt: Nt) -> int {
    match nt {
        Nt::Stmt => 20,
        Nt::ExprStmt => 19,
        Nt::Cond => 19,
        Nt::Expr => 18,
        Nt::IfCommon => 17,
        Nt::While => 17,
        Nt::For => 17,
        Nt::LoopParts => 17,
        Nt::Match => 17,
        Nt::Closure(_) => 17,
        Nt::Range => 16,
        Nt::Or => 15,
        Nt::OrRest(_) => 15,
        Nt::And => 14,
        Nt::AndRest(_) => 14,
        Nt::Not => 13,
        Nt::Cmp => 12,
        Nt::CmpRest(_) => 12,
        Nt::Add => 11,
        Nt::AddRest(_) => 11,
        Nt::Mul => 10,
        Nt::MulRest(_) => 10,
        Nt::Unary => 9,
        Nt::Postfix => 8,
        Nt::PostfixRest(_) => 8,
        Nt::Primary => 7,
        Nt::CallArgs => 7,
        Nt::Block => 7,
        _ => 30,
    }
}

/// An expression result, from a grammar result.
pub open spec fn ex(r: GResult) -> ExprResult {
    match r {
        Some(Ok((GVal::E(e), j))) => Some(Ok((e, j))),
        Some(Err(f)) => Some(Err(f)),
        _ => None,
    }
}

pub open spec fn e_ok(e: ExprView, j: int) -> GResult {
    Some(Ok((GVal::E(e), j)))
}

pub open spec fn if_value_message() -> Seq<char> {
    "`if` used as a value must have an `else` branch"@
}

pub open spec fn destructure_message() -> Seq<char> {
    "expected a name in destructuring assignment"@
}

/// The expression grammar at `i`, for the part `nt`.
pub open spec fn gram(ts: Seq<Token>, i: int, labels: Seq<Seq<char>>, nt: Nt) -> GResult
    decreases ts.len() - i, nt_rank(nt),
{
    if !(0 <= i <= ts.len()) {
        None
    } else {
        match nt {
            Nt::Expr => if i == ts.len() {
                None
            } else {
                match tok_at(ts, i) {
                    Tok::If => match gram(ts, i, labels, Nt::IfCommon) {
                        Some(Ok((GVal::IfP(arms, Some(eb)), k))) => e_ok(ExprView::If(arms, eb), k),
                        Some(Ok((GVal::IfP(_, None), k))) => Some(Err((if_value_message(), k))),
                        Some(Err(f)) => Some(Err(f)),
                        _ => None,
                    },
                    Tok::Match => match gram(ts, i, labels, Nt::Match) {
                        Some(Ok((GVal::M(s, arms), k))) => e_ok(ExprView::Match(Box::new(s), arms), k),
                        Some(Err(f)) => Some(Err(f)),
                        _ => None,
                    },
                    Tok::Fn => gram(ts, i, labels, Nt::Closure(false)),
                    Tok::Loop => match gram(ts, i, labels, Nt::LoopParts) {
                        Some(Ok((GVal::LoopP(l, b), k))) => e_ok(ExprView::Loop(l, b), k),
                        Some(Err(f)) => Some(Err(f)),
                        _ => None,
                    },
                    Tok::Move => if tok_at(ts, i + 1) is Fn {
                        gram(ts, i + 1, labels, Nt::Closure(true))
                    } else {
                        gram(ts, i, labels, Nt::Range)
                    },
                    _ => gram(ts, i, labels, Nt::Range),
                }
            },
            Nt::Range => match gram(ts, i, labels, Nt::Or) {
                Some(Ok((GVal::E(s), j))) => if (tok_at(ts, j) is DotDot || tok_at(ts, j) is DotDotEq) && i < j < ts.len() {
                    let inclusive = tok_at(ts, j) is DotDotEq;
                    if range_end_follows_tok(tok_at(ts, j + 1)) {
                        match gram(ts, j + 1, labels, Nt::Or) {
                            Some(Ok((GVal::E(e), k))) => e_ok(ExprView::Range(Some(Box::new(s)), Some(Box::new(e)), inclusive), k),
                            Some(Err(f)) => Some(Err(f)),
                            _ => None,
                        }
                    } else {
                        e_ok(ExprView::Range(Some(Box::new(s)), None, inclusive), j + 1)
                    }
                } else {
                    e_ok(s, j)
                },
                Some(Err(f)) => Some(Err(f)),
                _ => None,
            },
            Nt::Or => match gram(ts, i, labels, Nt::And) {
                Some(Ok((GVal::E(l), j))) => if i < j <= ts.len() { gram(ts, j, labels, Nt::OrRest(l)) } else { None },
                Some(Err(f)) => Some(Err(f)),
                _ => None,
            },
            Nt::OrRest(lhs) => if i < ts.len() && tok_at(ts, i) is Or {
                match gram(ts, i + 1, labels, Nt::And) {
                    Some(Ok((GVal::E(r), k))) => if i < k <= ts.len() {
                        gram(ts, k, labels, Nt::OrRest(ExprView::Binary(BinaryOp::Or, Box::new(lhs), Box::new(r))))
                    } else {
                        None
                    },
                    Some(Err(f)) => Some(Err(f)),
                    _ => None,
                }
            } else {
                e_ok(lhs, i)
            },
            Nt::And => match gram(ts, i, labels, Nt::Not) {
                Some(Ok((GVal::E(l), j))) => if i < j <= ts.len() { gram(ts, j, labels, Nt::AndRest(l)) } else { None },
                Some(Err(f)) => Some(Err(f)),
                _ => None,
            },
            Nt::AndRest(lhs) => if i < ts.len() && tok_at(ts, i) is And {
                match gram(ts, i + 1, labels, Nt::Not) {
                    Some(Ok((GVal::E(r), k))) => if i < k <= ts.len() {
                        gram(ts, k, labels, Nt::AndRest(ExprView::Binary(BinaryOp::And, Box::new(lhs), Box::new(r))))
                    } else {
                        None
                    },
                    Some(Err(f)) => Some(Err(f)),
                    _ => None,
                }
            } else {
                e_ok(lhs, i)
            },
            Nt::Not => if i < ts.len() && tok_at(ts, i) is Not {
                match gram(ts, i + 1, labels, Nt::Not) {
                    Some(Ok((GVal::E(e), j))) => e_ok(ExprView::Unary(UnaryOp::Not, Box::new(e)), j),
                    Some(Err(f)) => Some(Err(f)),
                    _ => None,
                }
            } else {
                gram(ts, i, labels, Nt::Cmp)
            },
            Nt::Cmp => match gram(ts, i, labels, Nt::Add) {
                Some(Ok((GVal::E(l), j))) => if i < j <= ts.len() { gram(ts, j, labels, Nt::CmpRest(l)) } else { None },
                Some(Err(f)) => Some(Err(f)),
                _ => None,
            },
            Nt::CmpRest(lhs) => match spec_comparison_op(tok_at(ts, i)) {
                Some(op) => if i < ts.len() {
                    match gram(ts, i + 1, labels, Nt::Add) {
                        Some(Ok((GVal::E(r), k))) => if i < k <= ts.len() {
                            gram(ts, k, labels, Nt::CmpRest(ExprView::Binary(op, Box::new(lhs), Box::new(r))))
                        } else {
                            None
                        },
                        Some(Err(f)) => Some(Err(f)),
                        _ => None,
                    }
                } else {
                    None
                },
                None => e_ok(lhs, i),
            },
            Nt::Add => match gram(ts, i, labels, Nt::Mul) {
                Some(Ok((GVal::E(l), j))) => if i < j <= ts.len() { gram(ts, j, labels, Nt::AddRest(l)) } else { None },
                Some(Err(f)) => Some(Err(f)),
                _ => None,
            },
            Nt::AddRest(lhs) => match additive_op(tok_at(ts, i)) {
                Some(op) => if i < ts.len() {
                    match gram(ts, i + 1, labels, Nt::Mul) {
                        Some(Ok((GVal::E(r), k))) => if i < k <= ts.len() {
                            gram(ts, k, labels, Nt::AddRest(ExprView::Binary(op, Box::new(lhs), Box::new(r))))
                        } else {
                            None
                        },
                        Some(Err(f)) => Some(Err(f)),
                        _ => None,
                    }
                } else {
                    None
                },
                None => e_ok(lhs, i),
            },
            Nt::Mul => match gram(ts, i, labels, Nt::Unary) {
                Some(Ok((GVal::E(l), j))) => if i < j <= ts.len() { gram(ts, j, labels, Nt::MulRest(l)) } else { None },
                Some(Err(f)) => Some(Err(f)),
                _ => None,
            },
            Nt::MulRest(lhs) => match multiplicative_op(tok_at(ts, i)) {
                Some(op) => if i < ts.len() {
                    match gram(ts, i + 1, labels, Nt::Unary) {
                        Some(Ok((GVal::E(r), k))) => if i < k <= ts.len() {
                            gram(ts, k, labels, Nt::MulRest(ExprView::Binary(op, Box::new(lhs), Box::new(r))))
                        } else {
                            None
                        },
                        Some(Err(f)) => Some(Err(f)),
                        _ => None,
                    }
                } else {
                    None
                },
                None => e_ok(lhs, i),
            },
            Nt::Unary => if i == ts.len() {
                None
            } else {
                match tok_at(ts, i) {
                    Tok::Minus => match gram(ts, i + 1, labels, Nt::Unary) {
                        Some(Ok((GVal::E(e), j))) => e_ok(ExprView::Unary(UnaryOp::Neg, Box::new(e)), j),
                        Some(Err(f)) => Some(Err(f)),
                        _ => None,
                    },
                    Tok::Ref => match gram(ts, i + 1, labels, Nt::Unary) {
                        Some(Ok((GVal::E(e), j))) => e_ok(ExprView::Ref(false, Box::new(e)), j),
                        Some(Err(f)) => Some(Err(f)),
                        _ => None,
                    },
                    Tok::Mut => if tok_at(ts, i + 1) is Ref && i + 2 <= ts.len() {
                        match gram(ts, i + 2, labels, Nt::Unary) {
                            Some(Ok((GVal::E(e), j))) => e_ok(ExprView::Ref(true, Box::new(e)), j),
                            Some(Err(f)) => Some(Err(f)),
                            _ => None,
                        }
                    } else {
                        gram(ts, i, labels, Nt::Postfix)
                    },
                    Tok::At => match gram(ts, i + 1, labels, Nt::Unary) {
                        Some(Ok((GVal::E(e), j))) => e_ok(ExprView::Deref(Box::new(e)), j),
                        Some(Err(f)) => Some(Err(f)),
                        _ => None,
                    },
                    Tok::Clone => match gram(ts, i + 1, labels, Nt::Unary) {
                        Some(Ok((GVal::E(e), j))) => e_ok(ExprView::CloneOf(Box::new(e)), j),
                        Some(Err(f)) => Some(Err(f)),
                        _ => None,
                    },
                    Tok::Move => match gram(ts, i + 1, labels, Nt::Unary) {
                        Some(Ok((GVal::E(e), j))) => e_ok(ExprView::Move(Box::new(e)), j),
                        Some(Err(f)) => Some(Err(f)),
                        _ => None,
                    },
                    _ => gram(ts, i, labels, Nt::Postfix),
                }
            },
            Nt::Postfix => match gram(ts, i, labels, Nt::Primary) {
                Some(Ok((GVal::E(e), j))) => if i < j <= ts.len() { gram(ts, j, labels, Nt::PostfixRest(e)) } else { None },
                Some(Err(f)) => Some(Err(f)),
                _ => None,
            },
            Nt::PostfixRest(e) => if i == ts.len() {
                None
            } else if tok_at(ts, i) is LParen {
                match gram(ts, i, labels, Nt::CallArgs) {
                    Some(Ok((GVal::As(args), k))) => if i < k <= ts.len() {
                        gram(ts, k, labels, Nt::PostfixRest(ExprView::Call(Box::new(e), Seq::empty(), args)))
                    } else {
                        None
                    },
                    Some(Err(f)) => Some(Err(f)),
                    _ => None,
                }
            } else if tok_at(ts, i) is LBracket {
                if turbofish_from(ts, i, 0) {
                    match turbofish_types(ts, i + 1, Seq::empty()) {
                        Some(Ok((tys, k))) => if i < k <= ts.len() {
                            match gram(ts, k, labels, Nt::CallArgs) {
                                Some(Ok((GVal::As(args), m))) => if k < m <= ts.len() {
                                    gram(ts, m, labels, Nt::PostfixRest(ExprView::Call(Box::new(e), tys, args)))
                                } else {
                                    None
                                },
                                Some(Err(f)) => Some(Err(f)),
                                _ => None,
                            }
                        } else {
                            None
                        },
                        Some(Err(f)) => Some(Err(f)),
                        None => None,
                    }
                } else {
                    match gram(ts, i + 1, labels, Nt::Expr) {
                        Some(Ok((GVal::E(ix), k))) => if tok_at(ts, k) is RBracket {
                            if i < k < ts.len() {
                                gram(ts, k + 1, labels, Nt::PostfixRest(ExprView::Index(Box::new(e), Box::new(ix))))
                            } else {
                                None
                            }
                        } else {
                            Some(Err(expected_at(ts, k, Tok::RBracket)))
                        },
                        Some(Err(f)) => Some(Err(f)),
                        _ => None,
                    }
                }
            } else if tok_at(ts, i) is Dot {
                if tok_at(ts, i + 1) is Await {
                    if i + 2 <= ts.len() {
                        gram(ts, i + 2, labels, Nt::PostfixRest(ExprView::Await(Box::new(e))))
                    } else {
                        None
                    }
                } else {
                    match member_at(ts, i + 1) {
                        Ok((n, k)) => if k == i + 2 && k <= ts.len() {
                            gram(ts, k, labels, Nt::PostfixRest(ExprView::Field(Box::new(e), n)))
                        } else {
                            None
                        },
                        Err(f) => Some(Err(f)),
                    }
                }
            } else if tok_at(ts, i) is Question {
                gram(ts, i + 1, labels, Nt::PostfixRest(ExprView::Try(Box::new(e))))
            } else {
                e_ok(e, i)
            },
            Nt::Primary => if i == ts.len() {
                None
            } else {
                match tok_at(ts, i) {
                    Tok::Int(n) => e_ok(ExprView::Int(n), i + 1),
                    Tok::Float(f) => e_ok(ExprView::Float(f@), i + 1),
                    Tok::Str(s) => e_ok(ExprView::Str(s@), i + 1),
                    Tok::RawStr(s) => e_ok(ExprView::RawStr(s@), i + 1),
                    Tok::True => e_ok(ExprView::Bool(true), i + 1),
                    Tok::False => e_ok(ExprView::Bool(false), i + 1),
                    Tok::Ident(n) => e_ok(if n@ == "none"@ {
                        ExprView::NoneLit
                    } else {
                        ExprView::Ident(n@)
                    }, i + 1),
                    Tok::LParen => match gram(ts, i + 1, labels, Nt::ExprList(Seq::empty(), Tok::RParen, false)) {
                        Some(Ok((GVal::Es(es, trailing), e))) => e_ok(if es.len() == 1 && !trailing {
                            es[0]
                        } else {
                            ExprView::Tuple(es)
                        }, e),
                        Some(Err(f)) => Some(Err(f)),
                        _ => None,
                    },
                    Tok::LBracket => match gram(ts, i + 1, labels, Nt::ExprList(Seq::empty(), Tok::RBracket, false)) {
                        Some(Ok((GVal::Es(es, _), e))) => e_ok(ExprView::List(es), e),
                        Some(Err(f)) => Some(Err(f)),
                        _ => None,
                    },
                    Tok::LBrace => match gram(ts, i + 1, labels, Nt::DictList(Seq::empty())) {
                        Some(Ok((GVal::Ps(ps), e))) => e_ok(ExprView::Dict(ps), e),
                        Some(Err(f)) => Some(Err(f)),
                        _ => None,
                    },
                    t => Some(Err(("expected expression, found "@ + t.spec_debug(), i))),
                }
            },
            Nt::CallArgs => if i < ts.len() && tok_at(ts, i) is LParen {
                gram(ts, i + 1, labels, Nt::ArgList(Seq::empty()))
            } else {
                Some(Err(expected_at(ts, i, Tok::LParen)))
            },
            Nt::ArgList(acc) => if i == ts.len() {
                None
            } else if tok_at(ts, i) is RParen {
                Some(Ok((GVal::As(acc), i + 1)))
            } else {
                let kw: Option<Seq<char>> = match tok_at(ts, i) {
                    Tok::Ident(n) => if tok_at(ts, i + 1) is Assign {
                        Some(n@)
                    } else {
                        None
                    },
                    _ => None,
                };
                let start = if kw is Some {
                    i + 2
                } else {
                    i
                };
                if start > ts.len() {
                    None
                } else {
                    match gram(ts, start, labels, Nt::Expr) {
                        Some(Ok((GVal::E(v), k))) => if tok_at(ts, k) is Comma && i < k < ts.len() {
                            gram(ts, k + 1, labels, Nt::ArgList(acc.push((kw, v))))
                        } else if tok_at(ts, k) is RParen {
                            Some(Ok((GVal::As(acc.push((kw, v))), k + 1)))
                        } else {
                            Some(Err(expected_at(ts, k, Tok::RParen)))
                        },
                        Some(Err(f)) => Some(Err(f)),
                        _ => None,
                    }
                }
            },
            Nt::ExprList(acc, close, trailing) => if i == ts.len() {
                None
            } else if tok_at(ts, i).tag() == close.tag() {
                Some(Ok((GVal::Es(acc, trailing), i + 1)))
            } else {
                match gram(ts, i, labels, Nt::Expr) {
                    Some(Ok((GVal::E(e), k))) => if tok_at(ts, k) is Comma && i < k < ts.len() {
                        gram(ts, k + 1, labels, Nt::ExprList(acc.push(e), close, true))
                    } else if tok_at(ts, k).tag() == close.tag() {
                        Some(Ok((GVal::Es(acc.push(e), false), k + 1)))
                    } else {
                        Some(Err(expected_at(ts, k, close)))
                    },
                    Some(Err(f)) => Some(Err(f)),
                    _ => None,
                }
            },
            Nt::DictList(acc) => if i == ts.len() {
                None
            } else if tok_at(ts, i) is RBrace {
                Some(Ok((GVal::Ps(acc), i + 1)))
            } else {
                match gram(ts, i, labels, Nt::Expr) {
                    Some(Ok((GVal::E(key), k))) => if !(tok_at(ts, k) is Colon) {
                        Some(Err(expected_at(ts, k, Tok::Colon)))
                    } else if i < k < ts.len() {
                        match gram(ts, k + 1, labels, Nt::Expr) {
                            Some(Ok((GVal::E(v), m))) => if tok_at(ts, m) is Comma && i < m < ts.len() {
                                gram(ts, m + 1, labels, Nt::DictList(acc.push((key, v))))
                            } else if tok_at(ts, m) is RBrace {
                                Some(Ok((GVal::Ps(acc.push((key, v))), m + 1)))
                            } else {
                                Some(Err(expected_at(ts, m, Tok::RBrace)))
                            },
                            Some(Err(f)) => Some(Err(f)),
                            _ => None,
                        }
                    } else {
                        None
                    },
                    Some(Err(f)) => Some(Err(f)),
                    _ => None,
                }
            },
            Nt::IfCommon => if !(i < ts.len() && tok_at(ts, i) is If) {
                Some(Err(expected_at(ts, i, Tok::If)))
            } else {
                match gram(ts, i + 1, labels, Nt::Cond) {
                    Some(Ok((GVal::C(c), j))) => if i < j <= ts.len() {
                        match gram(ts, j, labels, Nt::Block) {
                            Some(Ok((GVal::B(b), k))) => if j < k <= ts.len() {
                                gram(ts, k, labels, Nt::IfElifs(seq![(c, b)]))
                            } else {
                                None
                            },
                            Some(Err(f)) => Some(Err(f)),
                            _ => None,
                        }
                    } else {
                        None
                    },
                    Some(Err(f)) => Some(Err(f)),
                    _ => None,
                }
            },
            Nt::IfElifs(acc) => {
                let m = newlines_before(ts, i, Tok::Elif);
                if i <= m < ts.len() && tok_at(ts, m) is Elif {
                    match gram(ts, m + 1, labels, Nt::Cond) {
                        Some(Ok((GVal::C(c), j))) => if m < j <= ts.len() {
                            match gram(ts, j, labels, Nt::Block) {
                                Some(Ok((GVal::B(b), k))) => if j < k <= ts.len() {
                                    gram(ts, k, labels, Nt::IfElifs(acc.push((c, b))))
                                } else {
                                    None
                                },
                                Some(Err(f)) => Some(Err(f)),
                                _ => None,
                            }
                        } else {
                            None
                        },
                        Some(Err(f)) => Some(Err(f)),
                        _ => None,
                    }
                } else if i <= m <= ts.len() {
                    let n = newlines_before(ts, m, Tok::Else);
                    if m <= n < ts.len() && tok_at(ts, n) is Else {
                        match gram(ts, n + 1, labels, Nt::Block) {
                            Some(Ok((GVal::B(eb), k))) => Some(Ok((GVal::IfP(acc, Some(eb)), k))),
                            Some(Err(f)) => Some(Err(f)),
                            _ => None,
                        }
                    } else {
                        Some(Ok((GVal::IfP(acc, None), n)))
                    }
                } else {
                    None
                }
            },
            Nt::Cond => if i < ts.len() && tok_at(ts, i) is Case {
                match pattern_at(ts, i + 1) {
                    Ok((p, j)) => if tok_at(ts, j) is Assign {
                        if i < j < ts.len() {
                            match gram(ts, j + 1, labels, Nt::Expr) {
                                Some(Ok((GVal::E(e), k))) => Some(Ok((GVal::C(CondView::Case(p, e)), k))),
                                Some(Err(f)) => Some(Err(f)),
                                _ => None,
                            }
                        } else {
                            None
                        }
                    } else {
                        Some(Err(expected_at(ts, j, Tok::Assign)))
                    },
                    Err(f) => Some(Err(f)),
                }
            } else {
                match gram(ts, i, labels, Nt::Expr) {
                    Some(Ok((GVal::E(e), k))) => Some(Ok((GVal::C(CondView::Bool(e)), k))),
                    Some(Err(f)) => Some(Err(f)),
                    _ => None,
                }
            },
            Nt::While => if !(i < ts.len() && tok_at(ts, i) is While) {
                Some(Err(expected_at(ts, i, Tok::While)))
            } else if tok_at(ts, i + 1) is Case {
                match pattern_at(ts, i + 2) {
                    Ok((p, j)) => if tok_at(ts, j) is Assign {
                        if i < j < ts.len() {
                            match gram(ts, j + 1, labels, Nt::Expr) {
                                Some(Ok((GVal::E(e), k))) => if j < k <= ts.len() {
                                    match gram(ts, k, labels, Nt::Block) {
                                        Some(Ok((GVal::B(b), m))) => Some(Ok((GVal::S(StmtView::WhileCase(p, e, b)), m))),
                                        Some(Err(f)) => Some(Err(f)),
                                        _ => None,
                                    }
                                } else {
                                    None
                                },
                                Some(Err(f)) => Some(Err(f)),
                                _ => None,
                            }
                        } else {
                            None
                        }
                    } else {
                        Some(Err(expected_at(ts, j, Tok::Assign)))
                    },
                    Err(f) => Some(Err(f)),
                }
            } else {
                match gram(ts, i + 1, labels, Nt::Expr) {
                    Some(Ok((GVal::E(c), k))) => if i < k <= ts.len() {
                        match gram(ts, k, labels, Nt::Block) {
                            Some(Ok((GVal::B(b), m))) => Some(Ok((GVal::S(StmtView::While(c, b)), m))),
                            Some(Err(f)) => Some(Err(f)),
                            _ => None,
                        }
                    } else {
                        None
                    },
                    Some(Err(f)) => Some(Err(f)),
                    _ => None,
                }
            },
            Nt::For => if !(i < ts.len() && tok_at(ts, i) is For) {
                Some(Err(expected_at(ts, i, Tok::For)))
            } else {
                match pattern_at(ts, i + 1) {
                    Ok((p, j)) => if !(tok_at(ts, j) is In) {
                        Some(Err(expected_at(ts, j, Tok::In)))
                    } else {
                        let borrow = if tok_at(ts, j + 1) is Mut && tok_at(ts, j + 2) is Ref {
                            Borrow::MutRef
                        } else if tok_at(ts, j + 1) is Ref {
                            Borrow::Ref
                        } else {
                            Borrow::Owned
                        };
                        let k = j + 1 + match borrow {
                            Borrow::MutRef => 2int,
                            Borrow::Ref => 1int,
                            Borrow::Owned => 0int,
                        };
                        if i < k <= ts.len() {
                            match gram(ts, k, labels, Nt::Expr) {
                                Some(Ok((GVal::E(e), m))) => if k < m <= ts.len() {
                                    match gram(ts, m, labels, Nt::Block) {
                                        Some(Ok((GVal::B(b), n))) => Some(Ok((GVal::S(StmtView::For(p, e, borrow, b)), n))),
                                        Some(Err(f)) => Some(Err(f)),
                                        _ => None,
                                    }
                                } else {
                                    None
                                },
                                Some(Err(f)) => Some(Err(f)),
                                _ => None,
                            }
                        } else {
                            None
                        }
                    },
                    Err(f) => Some(Err(f)),
                }
            },
            Nt::LoopParts => if !(i < ts.len() && tok_at(ts, i) is Loop) {
                Some(Err(expected_at(ts, i, Tok::Loop)))
            } else if tok_at(ts, i + 1) is As {
                match tok_at(ts, i + 2) {
                    Tok::Ident(l) => if i + 3 <= ts.len() {
                        match gram(ts, i + 3, labels.push(l@), Nt::Block) {
                            Some(Ok((GVal::B(b), k))) => Some(Ok((GVal::LoopP(Some(l@), b), k))),
                            Some(Err(f)) => Some(Err(f)),
                            _ => None,
                        }
                    } else {
                        None
                    },
                    t => Some(Err(("expected identifier, found "@ + t.spec_debug(), i + 2))),
                }
            } else {
                match gram(ts, i + 1, labels, Nt::Block) {
                    Some(Ok((GVal::B(b), k))) => Some(Ok((GVal::LoopP(None, b), k))),
                    Some(Err(f)) => Some(Err(f)),
                    _ => None,
                }
            },
            Nt::Match => if !(i < ts.len() && tok_at(ts, i) is Match) {
                Some(Err(expected_at(ts, i, Tok::Match)))
            } else {
                match gram(ts, i + 1, labels, Nt::Expr) {
                    Some(Ok((GVal::E(s), j))) => if !(tok_at(ts, j) is Colon) {
                        Some(Err(expected_at(ts, j, Tok::Colon)))
                    } else if !(tok_at(ts, j + 1) is Newline) {
                        Some(Err(expected_at(ts, j + 1, Tok::Newline)))
                    } else if !(tok_at(ts, j + 2) is Indent) {
                        Some(Err(expected_at(ts, j + 2, Tok::Indent)))
                    } else if i < j + 3 <= ts.len() {
                        match gram(ts, j + 3, labels, Nt::MatchArms(Seq::empty())) {
                            Some(Ok((GVal::Arms(arms), e))) => Some(Ok((GVal::M(s, arms), e))),
                            Some(Err(f)) => Some(Err(f)),
                            _ => None,
                        }
                    } else {
                        None
                    },
                    Some(Err(f)) => Some(Err(f)),
                    _ => None,
                }
            },
            Nt::MatchArms(acc) => if i == ts.len() {
                None
            } else if tok_at(ts, i) is Dedent {
                Some(Ok((GVal::Arms(acc), i + 1)))
            } else if tok_at(ts, i) is Eof {
                Some(Err(expected_at(ts, i, Tok::Dedent)))
            } else if tok_at(ts, i) is Newline {
                gram(ts, i + 1, labels, Nt::MatchArms(acc))
            } else if !(tok_at(ts, i) is Case) {
                Some(Err(expected_at(ts, i, Tok::Case)))
            } else {
                match pattern_at(ts, i + 1) {
                    Ok((p, m)) => {
                        let guard: Option<Result<(Option<ExprView>, int), ParseFailure>> = if tok_at(ts, m) is If {
                            if i < m < ts.len() {
                                match gram(ts, m + 1, labels, Nt::Expr) {
                                    Some(Ok((GVal::E(g), n))) => Some(Ok((Some(g), n))),
                                    Some(Err(f)) => Some(Err(f)),
                                    _ => None,
                                }
                            } else {
                                None
                            }
                        } else {
                            Some(Ok((None, m)))
                        };
                        match guard {
                            Some(Ok((g, n))) => if i < n <= ts.len() {
                                match gram(ts, n, labels, Nt::Block) {
                                    Some(Ok((GVal::B(b), e))) => if i < e <= ts.len() {
                                        gram(ts, e, labels, Nt::MatchArms(acc.push((p, g, b))))
                                    } else {
                                        None
                                    },
                                    Some(Err(f)) => Some(Err(f)),
                                    _ => None,
                                }
                            } else {
                                None
                            },
                            Some(Err(f)) => Some(Err(f)),
                            None => None,
                        }
                    },
                    Err(f) => Some(Err(f)),
                }
            },
            Nt::Closure(is_move) => if !(i < ts.len() && tok_at(ts, i) is Fn) {
                Some(Err(expected_at(ts, i, Tok::Fn)))
            } else if !(tok_at(ts, i + 1) is LParen) {
                Some(Err(expected_at(ts, i + 1, Tok::LParen)))
            } else if i + 2 <= ts.len() {
                match gram(ts, i + 2, labels, Nt::ClosureParams(Seq::empty())) {
                    Some(Ok((GVal::Params(ps), k))) => {
                        let ret: Option<Result<(Option<TypeView>, int), ParseFailure>> = if tok_at(ts, k) is Arrow {
                            match type_at(ts, k + 1) {
                                Some(Ok((t, m))) => Some(Ok((Some(t), m))),
                                Some(Err(f)) => Some(Err(f)),
                                None => None,
                            }
                        } else {
                            Some(Ok((None, k)))
                        };
                        match ret {
                            Some(Ok((rt, m))) => if i < m <= ts.len() {
                                match gram(ts, m, labels, Nt::Block) {
                                    Some(Ok((GVal::B(b), e))) => e_ok(ExprView::Closure(is_move, ps, rt, b), e),
                                    Some(Err(f)) => Some(Err(f)),
                                    _ => None,
                                }
                            } else {
                                None
                            },
                            Some(Err(f)) => Some(Err(f)),
                            None => None,
                        }
                    },
                    Some(Err(f)) => Some(Err(f)),
                    _ => None,
                }
            } else {
                None
            },
            Nt::ClosureParams(acc) => if i == ts.len() {
                None
            } else if tok_at(ts, i) is RParen {
                Some(Ok((GVal::Params(acc), i + 1)))
            } else {
                match tok_at(ts, i) {
                    Tok::Ident(n) => {
                        let ty: TypeResult = if tok_at(ts, i + 1) is Colon {
                            type_at(ts, i + 2)
                        } else {
                            Some(Ok((TypeView::Path(seq!["_"@], Seq::empty()), i + 1)))
                        };
                        match ty {
                            Some(Ok((t, k))) => if tok_at(ts, k) is Comma && i < k < ts.len() {
                                gram(ts, k + 1, labels, Nt::ClosureParams(acc.push((n@, t))))
                            } else if tok_at(ts, k) is RParen {
                                Some(Ok((GVal::Params(acc.push((n@, t))), k + 1)))
                            } else {
                                Some(Err(expected_at(ts, k, Tok::RParen)))
                            },
                            Some(Err(f)) => Some(Err(f)),
                            None => None,
                        }
                    },
                    t => Some(Err(("expected identifier, found "@ + t.spec_debug(), i))),
                }
            },
            Nt::Stmt => if i == ts.len() {
                None
            } else {
                match tok_at(ts, i) {
                    Tok::Return => {
                        let v: Option<Result<(Option<ExprView>, int), ParseFailure>> = if ends_statement(tok_at(ts, i + 1)) {
                            Some(Ok((None, i + 1)))
                        } else {
                            match gram(ts, i + 1, labels, Nt::Expr) {
                                Some(Ok((GVal::E(e), k))) => Some(Ok((Some(e), k))),
                                Some(Err(f)) => Some(Err(f)),
                                _ => None,
                            }
                        };
                        match v {
                            Some(Ok((v, k))) => Some(Ok((GVal::S(StmtView::Return(v)), after_newline(ts, k)))),
                            Some(Err(f)) => Some(Err(f)),
                            None => None,
                        }
                    },
                    Tok::Pass => Some(Ok((GVal::S(StmtView::Pass), after_newline(ts, i + 1)))),
                    Tok::Continue => Some(Ok((GVal::S(StmtView::Continue), after_newline(ts, i + 1)))),
                    Tok::Break => {
                        let label: Option<Seq<char>> = match tok_at(ts, i + 1) {
                            Tok::Ident(s) => if labels.contains(s@) {
                                Some(s@)
                            } else {
                                None
                            },
                            _ => None,
                        };
                        let j = if label is Some {
                            i + 2
                        } else {
                            i + 1
                        };
                        let v: Option<Result<(Option<ExprView>, int), ParseFailure>> = if tok_at(ts, j) is With {
                            if j < ts.len() {
                                match gram(ts, j + 1, labels, Nt::Expr) {
                                    Some(Ok((GVal::E(e), k))) => Some(Ok((Some(e), k))),
                                    Some(Err(f)) => Some(Err(f)),
                                    _ => None,
                                }
                            } else {
                                None
                            }
                        } else if ends_statement(tok_at(ts, j)) {
                            Some(Ok((None, j)))
                        } else if j <= ts.len() {
                            match gram(ts, j, labels, Nt::Expr) {
                                Some(Ok((GVal::E(e), k))) => Some(Ok((Some(e), k))),
                                Some(Err(f)) => Some(Err(f)),
                                _ => None,
                            }
                        } else {
                            None
                        };
                        match v {
                            Some(Ok((v, k))) => Some(Ok((GVal::S(StmtView::Break(label, v)), after_newline(ts, k)))),
                            Some(Err(f)) => Some(Err(f)),
                            None => None,
                        }
                    },
                    Tok::Mut => match tok_at(ts, i + 1) {
                        Tok::Ident(n) => {
                            let ty: Option<Result<(Option<TypeView>, int), ParseFailure>> = if tok_at(ts, i + 2) is Colon {
                                match type_at(ts, i + 3) {
                                    Some(Ok((t, k))) => Some(Ok((Some(t), k))),
                                    Some(Err(f)) => Some(Err(f)),
                                    None => None,
                                }
                            } else {
                                Some(Ok((None, i + 2)))
                            };
                            match ty {
                                Some(Ok((t, k))) => if !(tok_at(ts, k) is Assign) {
                                    Some(Err(expected_at(ts, k, Tok::Assign)))
                                } else if i < k < ts.len() {
                                    match gram(ts, k + 1, labels, Nt::Expr) {
                                        Some(Ok((GVal::E(v), m))) => Some(Ok((GVal::S(StmtView::Let(true, n@, t, v)), after_newline(ts, m)))),
                                        Some(Err(f)) => Some(Err(f)),
                                        _ => None,
                                    }
                                } else {
                                    None
                                },
                                Some(Err(f)) => Some(Err(f)),
                                None => None,
                            }
                        },
                        t => Some(Err(("expected identifier, found "@ + t.spec_debug(), i + 1))),
                    },
                    Tok::If => match gram(ts, i, labels, Nt::IfCommon) {
                        Some(Ok((GVal::IfP(arms, eb), k))) => Some(Ok((GVal::S(StmtView::If(arms, eb)), k))),
                        Some(Err(f)) => Some(Err(f)),
                        _ => None,
                    },
                    Tok::While => gram(ts, i, labels, Nt::While),
                    Tok::For => gram(ts, i, labels, Nt::For),
                    Tok::Loop => match gram(ts, i, labels, Nt::LoopParts) {
                        Some(Ok((GVal::LoopP(l, b), k))) => Some(Ok((GVal::S(StmtView::Loop(l, b)), k))),
                        Some(Err(f)) => Some(Err(f)),
                        _ => None,
                    },
                    Tok::Match => match gram(ts, i, labels, Nt::Match) {
                        Some(Ok((GVal::M(s, arms), k))) => Some(Ok((GVal::S(StmtView::Match(s, arms)), k))),
                        Some(Err(f)) => Some(Err(f)),
                        _ => None,
                    },
                    Tok::Unsafe => match gram(ts, i + 1, labels, Nt::Block) {
                        Some(Ok((GVal::B(b), k))) => Some(Ok((GVal::S(StmtView::Unsafe(b)), k))),
                        Some(Err(f)) => Some(Err(f)),
                        _ => None,
                    },
                    _ => gram(ts, i, labels, Nt::ExprStmt),
                }
            },
            Nt::ExprStmt => match gram(ts, i, labels, Nt::Expr) {
                Some(Ok((GVal::E(first), j))) => if !(i < j <= ts.len()) {
                    None
                } else if tok_at(ts, j) is Comma {
                    match first {
                        ExprView::Ident(n0) => gram(ts, j, labels, Nt::NamesRest(seq![n0])),
                        _ => Some(Err((destructure_message(), j))),
                    }
                } else if tok_at(ts, j) is Colon && first is Ident {
                    match type_at(ts, j + 1) {
                        Some(Ok((t, k))) => if !(tok_at(ts, k) is Assign) {
                            Some(Err(expected_at(ts, k, Tok::Assign)))
                        } else if j < k < ts.len() {
                            match gram(ts, k + 1, labels, Nt::Expr) {
                                Some(Ok((GVal::E(v), m))) => Some(Ok((GVal::S(StmtView::Let(false, first->Ident_0, Some(t), v)), after_newline(ts, m)))),
                                Some(Err(f)) => Some(Err(f)),
                                _ => None,
                            }
                        } else {
                            None
                        },
                        Some(Err(f)) => Some(Err(f)),
                        None => None,
                    }
                } else if tok_at(ts, j) is Assign && j < ts.len() {
                    match gram(ts, j + 1, labels, Nt::Expr) {
                        Some(Ok((GVal::E(v), m))) => Some(Ok((GVal::S(match first {
                            ExprView::Ident(n) => StmtView::Let(false, n, None, v),
                            target => StmtView::Assign(target, AssignOp::Eq, v),
                        }), after_newline(ts, m)))),
                        Some(Err(f)) => Some(Err(f)),
                        _ => None,
                    }
                } else {
                    match compound_assign_op(tok_at(ts, j)) {
                        Some(op) => if j < ts.len() {
                            match gram(ts, j + 1, labels, Nt::Expr) {
                                Some(Ok((GVal::E(v), m))) => Some(Ok((GVal::S(StmtView::Assign(first, op, v)), after_newline(ts, m)))),
                                Some(Err(f)) => Some(Err(f)),
                                _ => None,
                            }
                        } else {
                            None
                        },
                        None => Some(Ok((GVal::S(StmtView::Expr(first)), after_newline(ts, j)))),
                    }
                },
                Some(Err(f)) => Some(Err(f)),
                _ => None,
            },
            Nt::NamesRest(acc) => if i < ts.len() && tok_at(ts, i) is Comma {
                match gram(ts, i + 1, labels, Nt::Expr) {
                    Some(Ok((GVal::E(e), k))) => match e {
                        ExprView::Ident(n) => if i < k <= ts.len() {
                            gram(ts, k, labels, Nt::NamesRest(acc.push(n)))
                        } else {
                            None
                        },
                        _ => Some(Err((destructure_message(), k))),
                    },
                    Some(Err(f)) => Some(Err(f)),
                    _ => None,
                }
            } else if !(tok_at(ts, i) is Assign) {
                Some(Err(expected_at(ts, i, Tok::Assign)))
            } else if i < ts.len() {
                match gram(ts, i + 1, labels, Nt::Expr) {
                    Some(Ok((GVal::E(v), m))) => Some(Ok((GVal::S(StmtView::LetTuple(acc, v)), after_newline(ts, m)))),
                    Some(Err(f)) => Some(Err(f)),
                    _ => None,
                }
            } else {
                None
            },
            Nt::Block => if !(tok_at(ts, i) is Colon) {
                Some(Err(expected_at(ts, i, Tok::Colon)))
            } else if tok_at(ts, i + 1) is Newline {
                if !(tok_at(ts, i + 2) is Indent) {
                    Some(Err(expected_at(ts, i + 2, Tok::Indent)))
                } else if i + 3 <= ts.len() {
                    gram(ts, i + 3, labels, Nt::BlockStmts(Seq::empty()))
                } else {
                    None
                }
            } else if i + 1 <= ts.len() {
                match gram(ts, i + 1, labels, Nt::Stmt) {
                    Some(Ok((GVal::S(s), e))) => Some(Ok((GVal::B(seq![s]), e))),
                    Some(Err(f)) => Some(Err(f)),
                    _ => None,
                }
            } else {
                None
            },
            Nt::BlockStmts(acc) => if i == ts.len() {
                None
            } else if tok_at(ts, i) is Dedent {
                Some(Ok((GVal::B(acc), i + 1)))
            } else if tok_at(ts, i) is Eof {
                Some(Err(expected_at(ts, i, Tok::Dedent)))
            } else if tok_at(ts, i) is Newline {
                gram(ts, i + 1, labels, Nt::BlockStmts(acc))
            } else {
                match gram(ts, i, labels, Nt::Stmt) {
                    Some(Ok((GVal::S(s), k))) => if i < k <= ts.len() {
                        gram(ts, k, labels, Nt::BlockStmts(acc.push(s)))
                    } else {
                        None
                    },
                    Some(Err(f)) => Some(Err(f)),
                    _ => None,
                }
            },
        }
    }
}


/// The expression at `i`, the loop labels in scope being `labels` (they
/// tell `break label` from `break value` inside closures).
pub open spec fn expr_at(ts: Seq<Token>, i: int, labels: Seq<Seq<char>>) -> ExprResult {
    ex(gram(ts, i, labels, Nt::Expr))
}

pub open spec fn range_at(ts: Seq<Token>, i: int, labels: Seq<Seq<char>>) -> ExprResult {
    ex(gram(ts, i, labels, Nt::Range))
}

pub open spec fn or_at(ts: Seq<Token>, i: int, labels: Seq<Seq<char>>) -> ExprResult {
    ex(gram(ts, i, labels, Nt::Or))
}

pub open spec fn and_at(ts: Seq<Token>, i: int, labels: Seq<Seq<char>>) -> ExprResult {
    ex(gram(ts, i, labels, Nt::And))
}

pub open spec fn not_at(ts: Seq<Token>, i: int, labels: Seq<Seq<char>>) -> ExprResult {
    ex(gram(ts, i, labels, Nt::Not))
}

pub open spec fn comparison_at(ts: Seq<Token>, i: int, labels: Seq<Seq<char>>) -> ExprResult {
    ex(gram(ts, i, labels, Nt::Cmp))
}

pub open spec fn additive_at(ts: Seq<Token>, i: int, labels: Seq<Seq<char>>) -> ExprResult {
    ex(gram(ts, i, labels, Nt::Add))
}

pub open spec fn multiplicative_at(ts: Seq<Token>, i: int, labels: Seq<Seq<char>>) -> ExprResult {
    ex(gram(ts, i, labels, Nt::Mul))
}

pub open spec fn unary_at(ts: Seq<Token>, i: int, labels: Seq<Seq<char>>) -> ExprResult {
    ex(gram(ts, i, labels, Nt::Unary))
}

pub open spec fn postfix_at(ts: Seq<Token>, i: int, labels: Seq<Seq<char>>) -> ExprResult {
    ex(gram(ts, i, labels, Nt::Postfix))
}

pub open spec fn primary_at(ts: Seq<Token>, i: int, labels: Seq<Seq<char>>) -> ExprResult {
    ex(gram(ts, i, labels, Nt::Primary))
}

pub open spec fn or_rest(ts: Seq<Token>, j: int, lhs: ExprView, labels: Seq<Seq<char>>) -> ExprResult {
    ex(gram(ts, j, labels, Nt::OrRest(lhs)))
}

pub open spec fn and_rest(ts: Seq<Token>, j: int, lhs: ExprView, labels: Seq<Seq<char>>) -> ExprResult {
    ex(gram(ts, j, labels, Nt::AndRest(lhs)))
}

pub open spec fn comparison_rest(ts: Seq<Token>, j: int, lhs: ExprView, labels: Seq<Seq<char>>) -> ExprResult {
    ex(gram(ts, j, labels, Nt::CmpRest(lhs)))
}

pub open spec fn additive_rest(ts: Seq<Token>, j: int, lhs: ExprView, labels: Seq<Seq<char>>) -> ExprResult {
    ex(gram(ts, j, labels, Nt::AddRest(lhs)))
}

pub open spec fn multiplicative_rest(ts: Seq<Token>, j: int, lhs: ExprView, labels: Seq<Seq<char>>) -> ExprResult {
    ex(gram(ts, j, labels, Nt::MulRest(lhs)))
}

pub open spec fn postfix_rest(ts: Seq<Token>, j: int, e: ExprView, labels: Seq<Seq<char>>) -> ExprResult {
    ex(gram(ts, j, labels, Nt::PostfixRest(e)))
}

pub open spec fn as_args(r: GResult) -> ArgsResult {
    match r {
        Some(Ok((GVal::As(a), j))) => Some(Ok((a, j))),
        Some(Err(f)) => Some(Err(f)),
        _ => None,
    }
}

pub open spec fn as_list(r: GResult) -> Option<Result<(Seq<ExprView>, bool, int), ParseFailure>> {
    match r {
        Some(Ok((GVal::Es(es, trailing), j))) => Some(Ok((es, trailing, j))),
        Some(Err(f)) => Some(Err(f)),
        _ => None,
    }
}

pub open spec fn as_pairs(r: GResult) -> Option<Result<(Seq<(ExprView, ExprView)>, int), ParseFailure>> {
    match r {
        Some(Ok((GVal::Ps(ps), j))) => Some(Ok((ps, j))),
        Some(Err(f)) => Some(Err(f)),
        _ => None,
    }
}

/// Call arguments `( .. )` at `j`.
pub open spec fn call_args_at(ts: Seq<Token>, j: int, labels: Seq<Seq<char>>) -> ArgsResult {
    as_args(gram(ts, j, labels, Nt::CallArgs))
}

/// Arguments at `j` up to the closing `)`, each `value` or `name=value`,
/// separated by commas, a trailing one allowed; after the arguments `acc`.
pub open spec fn arg_list(ts: Seq<Token>, j: int, acc: Seq<(Option<Seq<char>>, ExprView)>, labels: Seq<Seq<char>>) -> ArgsResult {
    as_args(gram(ts, j, labels, Nt::ArgList(acc)))
}

/// Expressions at `j` up to `close`, after the expressions `acc`; also
/// whether the last one was followed by a comma.
pub open spec fn expr_list(ts: Seq<Token>, j: int, acc: Seq<ExprView>, close: Tok, trailing: bool, labels: Seq<Seq<char>>) -> Option<Result<(Seq<ExprView>, bool, int), ParseFailure>> {
    as_list(gram(ts, j, labels, Nt::ExprList(acc, close, trailing)))
}

/// `key: value` entries at `j` up to the closing `}`, after the entries `acc`.
pub open spec fn dict_list(ts: Seq<Token>, j: int, acc: Seq<(ExprView, ExprView)>, labels: Seq<Seq<char>>) -> Option<Result<(Seq<(ExprView, ExprView)>, int), ParseFailure>> {
    as_pairs(gram(ts, j, labels, Nt::DictList(acc)))
}

pub open spec fn as_stmt(r: GResult) -> StmtResult {
    match r {
        Some(Ok((GVal::S(s), j))) => Some(Ok((s, j))),
        Some(Err(f)) => Some(Err(f)),
        _ => None,
    }
}

pub open spec fn as_block(r: GResult) -> BlockResult {
    match r {
        Some(Ok((GVal::B(b), j))) => Some(Ok((b, j))),
        Some(Err(f)) => Some(Err(f)),
        _ => None,
    }
}

pub type IfResult = Option<Result<(Seq<(CondView, Seq<StmtView>)>, Option<Seq<StmtView>>, int), ParseFailure>>;

pub open spec fn as_if(r: GResult) -> IfResult {
    match r {
        Some(Ok((GVal::IfP(arms, eb), j))) => Some(Ok((arms, eb, j))),
        Some(Err(f)) => Some(Err(f)),
        _ => None,
    }
}

/// An `if` at `i` with its `elif` arms and optional `else`.
pub open spec fn if_common_at(ts: Seq<Token>, i: int, labels: Seq<Seq<char>>) -> IfResult {
    as_if(gram(ts, i, labels, Nt::IfCommon))
}

/// More `elif` arms at `k` (each on a line of its own or not), then an
/// optional `else`, after the arms `acc`.
pub open spec fn if_elifs(ts: Seq<Token>, k: int, labels: Seq<Seq<char>>, acc: Seq<(CondView, Seq<StmtView>)>) -> IfResult {
    as_if(gram(ts, k, labels, Nt::IfElifs(acc)))
}

/// A condition at `i`: `case P = e`, or an expression.
pub open spec fn cond_at(ts: Seq<Token>, i: int, labels: Seq<Seq<char>>) -> Option<Result<(CondView, int), ParseFailure>> {
    match gram(ts, i, labels, Nt::Cond) {
        Some(Ok((GVal::C(c), j))) => Some(Ok((c, j))),
        Some(Err(f)) => Some(Err(f)),
        _ => None,
    }
}

/// A `while` loop at `i`.
pub open spec fn while_at(ts: Seq<Token>, i: int, labels: Seq<Seq<char>>) -> StmtResult {
    as_stmt(gram(ts, i, labels, Nt::While))
}

/// A `for` loop at `i`.
pub open spec fn for_at(ts: Seq<Token>, i: int, labels: Seq<Seq<char>>) -> StmtResult {
    as_stmt(gram(ts, i, labels, Nt::For))
}

/// A `loop`, with an optional label `as name`, at `i`: the label and the body.
pub open spec fn loop_parts_at(ts: Seq<Token>, i: int, labels: Seq<Seq<char>>) -> Option<Result<(Option<Seq<char>>, Seq<StmtView>, int), ParseFailure>> {
    match gram(ts, i, labels, Nt::LoopParts) {
        Some(Ok((GVal::LoopP(l, b), j))) => Some(Ok((l, b, j))),
        Some(Err(f)) => Some(Err(f)),
        _ => None,
    }
}

pub type MatchResult = Option<Result<(ExprView, Seq<(PatView, Option<ExprView>, Seq<StmtView>)>, int), ParseFailure>>;

/// A `match` at `i`: the scrutinee and the arms.
pub open spec fn match_at(ts: Seq<Token>, i: int, labels: Seq<Seq<char>>) -> MatchResult {
    match gram(ts, i, labels, Nt::Match) {
        Some(Ok((GVal::M(s, arms), j))) => Some(Ok((s, arms, j))),
        Some(Err(f)) => Some(Err(f)),
        _ => None,
    }
}

pub type ArmsResult = Option<Result<(Seq<(PatView, Option<ExprView>, Seq<StmtView>)>, int), ParseFailure>>;

/// The arms of a `match` at `k` up to the `Dedent`, after the arms `acc`.
pub open spec fn match_arms(ts: Seq<Token>, k: int, labels: Seq<Seq<char>>, acc: Seq<(PatView, Option<ExprView>, Seq<StmtView>)>) -> ArmsResult {
    match gram(ts, k, labels, Nt::MatchArms(acc)) {
        Some(Ok((GVal::Arms(a), j))) => Some(Ok((a, j))),
        Some(Err(f)) => Some(Err(f)),
        _ => None,
    }
}

pub open spec fn arms_close(ts: Seq<Token>, k: int, acc: Seq<(PatView, Option<ExprView>, Seq<StmtView>)>) -> ArmsResult {
    if tok_at(ts, k) is Dedent {
        Some(Ok((acc, k + 1)))
    } else {
        Some(Err(expected_at(ts, k, Tok::Dedent)))
    }
}

/// A closure `fn(..) -> T: ..` at `i`.
pub open spec fn closure_at(ts: Seq<Token>, i: int, labels: Seq<Seq<char>>, is_move: bool) -> ExprResult {
    ex(gram(ts, i, labels, Nt::Closure(is_move)))
}

pub type ClosureParamsResult = Option<Result<(Seq<(Seq<char>, TypeView)>, int), ParseFailure>>;

/// Closure parameters at `j` up to the closing `)`, after the parameters
/// `acc`; a parameter without a type gets the type `_`.
pub open spec fn closure_params(ts: Seq<Token>, j: int, labels: Seq<Seq<char>>, acc: Seq<(Seq<char>, TypeView)>) -> ClosureParamsResult {
    match gram(ts, j, labels, Nt::ClosureParams(acc)) {
        Some(Ok((GVal::Params(ps), k))) => Some(Ok((ps, k))),
        Some(Err(f)) => Some(Err(f)),
        _ => None,
    }
}

pub open spec fn closure_params_close(ts: Seq<Token>, k: int, acc: Seq<(Seq<char>, TypeView)>) -> ClosureParamsResult {
    if tok_at(ts, k) is RParen {
        Some(Ok((acc, k + 1)))
    } else {
        Some(Err(expected_at(ts, k, Tok::RParen)))
    }
}

/// The statement at `i`, the loop labels in scope being `labels`.
pub open spec fn stmt_at(ts: Seq<Token>, i: int, labels: Seq<Seq<char>>) -> StmtResult {
    as_stmt(gram(ts, i, labels, Nt::Stmt))
}

/// A statement that starts with an expression at `i`: a destructuring
/// assignment `a, b = e`, a typed binding `x: T = e`, a binding or an
/// assignment `target = e`, a compound assignment, or the expression.
pub open spec fn expr_stmt_at(ts: Seq<Token>, i: int, labels: Seq<Seq<char>>) -> StmtResult {
    as_stmt(gram(ts, i, labels, Nt::ExprStmt))
}

/// More `, name` targets at `j` of a destructuring assignment, after the
/// names `acc`, then `= value`.
pub open spec fn names_rest(ts: Seq<Token>, j: int, acc: Seq<Seq<char>>, labels: Seq<Seq<char>>) -> StmtResult {
    as_stmt(gram(ts, j, labels, Nt::NamesRest(acc)))
}

/// The statements of an indented block at `j` up to its `Dedent` (blank
/// lines skipped), after the statements `acc`.
pub open spec fn block_stmts(ts: Seq<Token>, j: int, labels: Seq<Seq<char>>, acc: Seq<StmtView>) -> BlockResult {
    as_block(gram(ts, j, labels, Nt::BlockStmts(acc)))
}

/// The block at `i`: `:` then either an indented block of statements on
/// the following lines, or one statement on the same line.
pub open spec fn block_at(ts: Seq<Token>, i: int, labels: Seq<Seq<char>>) -> BlockResult {
    as_block(gram(ts, i, labels, Nt::Block))
}

pub type BlockResult = Option<Result<(Seq<StmtView>, int), ParseFailure>>;

pub open spec fn args_close(ts: Seq<Token>, k: int, acc: Seq<(Option<Seq<char>>, ExprView)>) -> ArgsResult {
    if tok_at(ts, k) is RParen {
        Some(Ok((acc, k + 1)))
    } else {
        Some(Err(expected_at(ts, k, Tok::RParen)))
    }
}

pub open spec fn list_close(ts: Seq<Token>, k: int, acc: Seq<ExprView>, close: Tok, trailing: bool) -> Option<Result<(Seq<ExprView>, bool, int), ParseFailure>> {
    if tok_at(ts, k).tag() == close.tag() {
        Some(Ok((acc, trailing, k + 1)))
    } else {
        Some(Err(expected_at(ts, k, close)))
    }
}

pub open spec fn dict_close(ts: Seq<Token>, k: int, acc: Seq<(ExprView, ExprView)>) -> Option<Result<(Seq<(ExprView, ExprView)>, int), ParseFailure>> {
    if tok_at(ts, k) is RBrace {
        Some(Ok((acc, k + 1)))
    } else {
        Some(Err(expected_at(ts, k, Tok::RBrace)))
    }
}

/// `r`, and `end` where the parse stopped, are what `res` says of call
/// arguments.
pub open spec fn args_parsed(res: ArgsResult, r: PResult<Vec<Arg>>, end: int, ts: Seq<Token>) -> bool {
    match res {
        None => true,
        Some(Ok((a, e))) => r matches Ok(v) && arg_views(v@) == a && end == e,
        Some(Err((m, at))) => r matches Err(x) && x.message@ == m && 0 <= at < ts.len() && x.span == ts[at].span,
    }
}

pub proof fn lemma_expr_views(s: Seq<Expr>)
    ensures
        expr_views(s).len() == s.len(),
        forall|k: int| 0 <= k < s.len() ==> #[trigger] expr_views(s)[k] == expr_view(s[k]),
    decreases s.len(),
{
    if s.len() > 0 {
        lemma_expr_views(s.subrange(0, s.len() - 1));
    }
}

pub type StmtResult = Option<Result<(StmtView, int), ParseFailure>>;

/// `r`, and `end` where the parse stopped, are what `res` says of a
/// statement.
pub open spec fn stmt_parsed(res: StmtResult, r: PResult<Stmt>, end: int, ts: Seq<Token>) -> bool {
    match res {
        None => true,
        Some(Ok((sv, e))) => r matches Ok(s) && stmt_view(s) == sv && end == e,
        Some(Err((m, at))) => r matches Err(x) && x.message@ == m && 0 <= at < ts.len() && x.span == ts[at].span,
    }
}

/// Past an optional line break at `k`.
pub open spec fn after_newline(ts: Seq<Token>, k: int) -> int {
    if tok_at(ts, k) is Newline {
        k + 1
    } else {
        k
    }
}

pub open spec fn ends_statement(t: Tok) -> bool {
    t is Newline || t is Dedent || t is Eof
}

/// `r`, and `end` where the parse stopped, are what `res` says of a block.
pub open spec fn block_parsed(res: BlockResult, r: PResult<Vec<Stmt>>, end: int, ts: Seq<Token>) -> bool {
    match res {
        None => true,
        Some(Ok((svs, e))) => r matches Ok(v) && stmt_views(v@) == svs && end == e,
        Some(Err((m, at))) => r matches Err(x) && x.message@ == m && 0 <= at < ts.len() && x.span == ts[at].span,
    }
}


pub open spec fn opt_expr_view(o: Option<Expr>) -> Option<ExprView> {
    match o {
        Some(e) => Some(expr_view(e)),
        None => None,
    }
}

pub open spec fn opt_stmts_view(b: Option<Vec<Stmt>>) -> Option<Seq<StmtView>> {
    match b {
        Some(v) => Some(stmt_views(v@)),
        None => None,
    }
}

/// The `if` statement that an `if` chain gives.
pub open spec fn stmt_from_if(res: IfResult) -> StmtResult {
    match res {
        Some(Ok((arms, eb, k))) => Some(Ok((StmtView::If(arms, eb), k))),
        Some(Err(f)) => Some(Err(f)),
        None => None,
    }
}

/// The `loop` statement that a label and a body give.
pub open spec fn stmt_from_loop(res: Option<Result<(Option<Seq<char>>, Seq<StmtView>, int), ParseFailure>>) -> StmtResult {
    match res {
        Some(Ok((l, b, k))) => Some(Ok((StmtView::Loop(l, b), k))),
        Some(Err(f)) => Some(Err(f)),
        None => None,
    }
}

/// The `match` statement that a scrutinee and arms give.
pub open spec fn stmt_from_match(res: MatchResult) -> StmtResult {
    match res {
        Some(Ok((s, arms, k))) => Some(Ok((StmtView::Match(s, arms), k))),
        Some(Err(f)) => Some(Err(f)),
        None => None,
    }
}

/// The `match` with the scrutinee `s` and the arms that `arms` gives.
pub open spec fn with_scrutinee(s: ExprView, arms: ArmsResult) -> MatchResult {
    match arms {
        Some(Ok((a, e))) => Some(Ok((s, a, e))),
        Some(Err(f)) => Some(Err(f)),
        None => None,
    }
}

/// The `else` part of an `if` chain at `m` (past the `elif` arms `acc`):
/// an optional `else` block, on a line of its own or not.
pub open spec fn if_else_tail(ts: Seq<Token>, m: int, labels: Seq<Seq<char>>, acc: Seq<(CondView, Seq<StmtView>)>) -> IfResult {
    let n = newlines_before(ts, m, Tok::Else);
    if m <= n < ts.len() && tok_at(ts, n) is Else {
        match block_at(ts, n + 1, labels) {
            Some(Ok((eb, k))) => Some(Ok((acc, Some(eb), k))),
            Some(Err(f)) => Some(Err(f)),
            None => None,
        }
    } else {
        Some(Ok((acc, None, n)))
    }
}

/// What follows the parameters of a closure at `k`: `-> T` or not, then
/// its body.
pub open spec fn closure_tail(ts: Seq<Token>, i: int, labels: Seq<Seq<char>>, is_move: bool, params: ClosureParamsResult) -> ExprResult {
    match params {
        Some(Ok((ps, k))) => {
            let ret: Option<Result<(Option<TypeView>, int), ParseFailure>> = if tok_at(ts, k) is Arrow {
                match type_at(ts, k + 1) {
                    Some(Ok((t, m))) => Some(Ok((Some(t), m))),
                    Some(Err(f)) => Some(Err(f)),
                    None => None,
                }
            } else {
                Some(Ok((None, k)))
            };
            match ret {
                Some(Ok((rt, m))) => if i < m <= ts.len() {
                    match block_at(ts, m, labels) {
                        Some(Ok((b, e))) => Some(Ok((ExprView::Closure(is_move, ps, rt, b), e))),
                        Some(Err(f)) => Some(Err(f)),
                        None => None,
                    }
                } else {
                    None
                },
                Some(Err(f)) => Some(Err(f)),
                None => None,
            }
        },
        Some(Err(f)) => Some(Err(f)),
        None => None,
    }
}

/// `r`, and `end` where the parse stopped, are what `res` says of an `if`
/// chain.
pub open spec fn if_parsed(res: IfResult, r: PResult<(Vec<(CondKind, Vec<Stmt>)>, Option<Vec<Stmt>>)>, end: int, ts: Seq<Token>) -> bool {
    match res {
        None => true,
        Some(Ok((arms, eb, e))) => r matches Ok((a, b)) && cond_arm_views(a@) == arms && opt_stmts_view(b) == eb && end == e,
        Some(Err((m, at))) => r matches Err(x) && x.message@ == m && 0 <= at < ts.len() && x.span == ts[at].span,
    }
}

pub open spec fn cond_parsed(res: Option<Result<(CondView, int), ParseFailure>>, r: PResult<CondKind>, end: int, ts: Seq<Token>) -> bool {
    match res {
        None => true,
        Some(Ok((c, e))) => r matches Ok(x) && cond_view(x) == c && end == e,
        Some(Err((m, at))) => r matches Err(x) && x.message@ == m && 0 <= at < ts.len() && x.span == ts[at].span,
    }
}

pub open spec fn loop_parsed(res: Option<Result<(Option<Seq<char>>, Seq<StmtView>, int), ParseFailure>>, r: PResult<(Option<String>, Vec<Stmt>)>, end: int, ts: Seq<Token>) -> bool {
    match res {
        None => true,
        Some(Ok((l, b, e))) => r matches Ok((lab, body)) && opt_str_view(lab) == l && stmt_views(body@) == b && end == e,
        Some(Err((m, at))) => r matches Err(x) && x.message@ == m && 0 <= at < ts.len() && x.span == ts[at].span,
    }
}

pub open spec fn match_parsed(res: MatchResult, r: PResult<MatchExpr>, end: int, ts: Seq<Token>) -> bool {
    match res {
        None => true,
        Some(Ok((s, arms, e))) => r matches Ok(x) && expr_view(*x.scrutinee) == s && match_arm_views(x.arms@) == arms && end == e,
        Some(Err((m, at))) => r matches Err(x) && x.message@ == m && 0 <= at < ts.len() && x.span == ts[at].span,
    }
}

/// A function by its parts.
pub struct FnView {
    pub attrs: Seq<Seq<char>>,
    pub is_pub: bool,
    pub is_async: bool,
    pub is_unsafe: bool,
    pub name: Seq<char>,
    pub generics: Seq<GenericView>,
    pub params: Seq<(Seq<char>, TypeView)>,
    pub ret: TypeView,
    pub body: Option<Seq<StmtView>>,
}

pub open spec fn param_views(ps: Seq<Param>) -> Seq<(Seq<char>, TypeView)> {
    ps.map_values(|p: Param| (p.name@, type_view(p.ty)))
}

pub open spec fn fn_view(f: Function) -> FnView {
    FnView {
        attrs: views(f.attrs@),
        is_pub: f.is_pub,
        is_async: f.is_async,
        is_unsafe: f.is_unsafe,
        name: f.name@,
        generics: generic_views(f.generics@),
        params: param_views(f.params@),
        ret: type_view(f.ret),
        body: match f.body {
            Some(b) => Some(stmt_views(b@)),
            None => None,
        },
    }
}

pub type ParamsResult = Option<Result<(Seq<(Seq<char>, TypeView)>, int), ParseFailure>>;

pub open spec fn params_close(ts: Seq<Token>, k: int, acc: Seq<(Seq<char>, TypeView)>) -> ParamsResult {
    if tok_at(ts, k) is RParen {
        Some(Ok((acc, k + 1)))
    } else {
        Some(Err(expected_at(ts, k, Tok::RParen)))
    }
}

/// Parameters `name: T` at `j` up to the closing `)`, separated by commas,
/// a trailing one allowed; after the parameters `acc`.
pub open spec fn params_list(ts: Seq<Token>, j: int, acc: Seq<(Seq<char>, TypeView)>) -> ParamsResult
    decreases ts.len() - j,
{
    if !(0 <= j < ts.len()) {
        None
    } else if tok_at(ts, j) is RParen {
        Some(Ok((acc, j + 1)))
    } else {
        match tok_at(ts, j) {
            Tok::Ident(s) => if tok_at(ts, j + 1) is Colon {
                match type_at(ts, j + 2) {
                    Some(Ok((t, k))) => if tok_at(ts, k) is Comma && j < k < ts.len() {
                        params_list(ts, k + 1, acc.push((s@, t)))
                    } else {
                        params_close(ts, k, acc.push((s@, t)))
                    },
                    Some(Err(f)) => Some(Err(f)),
                    None => None,
                }
            } else {
                Some(Err(expected_at(ts, j + 1, Tok::Colon)))
            },
            _ => Some(Err(("expected parameter name"@, j))),
        }
    }
}

pub type FnResult = Option<Result<(FnView, int), ParseFailure>>;

/// What follows the parameters of a function at `k`: `-> T` (else the unit
/// type), then a block or the end of the line.
pub open spec fn fn_tail(ts: Seq<Token>, k: int, labels: Seq<Seq<char>>, head: FnView) -> FnResult {
    let ret: TypeResult = if tok_at(ts, k) is Arrow {
        type_at(ts, k + 1)
    } else {
        Some(Ok((TypeView::Unit, k)))
    };
    match ret {
        Some(Ok((rt, m))) => if tok_at(ts, m) is Colon {
            match block_at(ts, m, labels) {
                Some(Ok((b, e))) => Some(Ok((FnView { ret: rt, body: Some(b), ..head }, e))),
                Some(Err(f)) => Some(Err(f)),
                None => None,
            }
        } else {
            Some(Ok((FnView { ret: rt, body: None, ..head }, after_newline(ts, m))))
        },
        Some(Err(f)) => Some(Err(f)),
        None => None,
    }
}

/// The function `def name[..](..) -> T: ..` at `i`, with the attributes and
/// qualifiers read before it.
pub open spec fn function_at(ts: Seq<Token>, i: int, labels: Seq<Seq<char>>, attrs: Seq<Seq<char>>, is_pub: bool, is_async: bool, is_unsafe: bool) -> FnResult {
    if !(tok_at(ts, i) is Def) {
        Some(Err(expected_at(ts, i, Tok::Def)))
    } else {
        match tok_at(ts, i + 1) {
            Tok::Ident(name) => match generics_at(ts, i + 2) {
                Ok((gs, j)) => if tok_at(ts, j) is LParen {
                    match params_list(ts, j + 1, Seq::empty()) {
                        Some(Ok((ps, k))) => fn_tail(ts, k, labels, FnView {
                            attrs, is_pub, is_async, is_unsafe, name: name@, generics: gs, params: ps,
                            ret: TypeView::Unit, body: None,
                        }),
                        Some(Err(f)) => Some(Err(f)),
                        None => None,
                    }
                } else {
                    Some(Err(expected_at(ts, j, Tok::LParen)))
                },
                Err(f) => Some(Err(f)),
            },
            t => Some(Err(("expected identifier, found "@ + t.spec_debug(), i + 1))),
        }
    }
}

/// `r`, and `end` where the parse stopped, are what `res` says of a function.
pub open spec fn fn_parsed(res: FnResult, r: PResult<Function>, end: int, ts: Seq<Token>) -> bool {
    match res {
        None => true,
        Some(Ok((fv, e))) => r matches Ok(f) && fn_view(f) == fv && end == e,
        Some(Err((m, at))) => r matches Err(x) && x.message@ == m && x.span == ts[at].span,
    }
}

/// A struct by its parts; each field is whether it is public, its name and
/// its type.
pub struct StructView {
    pub attrs: Seq<Seq<char>>,
    pub is_pub: bool,
    pub name: Seq<char>,
    pub generics: Seq<GenericView>,
    pub fields: Seq<(bool, Seq<char>, TypeView)>,
}

pub open spec fn field_views(fs: Seq<Field>) -> Seq<(bool, Seq<char>, TypeView)> {
    fs.map_values(|f: Field| (f.is_pub, f.name@, type_view(f.ty)))
}

pub type FieldsResult = Option<Result<(Seq<(bool, Seq<char>, TypeView)>, int), ParseFailure>>;

/// The fields of a struct at `k`, one `[pub] name: T` a line, up to the
/// `Dedent` (blank lines and `pass` skipped), after the fields `acc`.
pub open spec fn struct_fields(ts: Seq<Token>, k: int, acc: Seq<(bool, Seq<char>, TypeView)>) -> FieldsResult
    decreases ts.len() - k,
{
    if !(0 <= k < ts.len()) {
        None
    } else if tok_at(ts, k) is Dedent {
        Some(Ok((acc, k + 1)))
    } else if tok_at(ts, k) is Eof {
        Some(Err(expected_at(ts, k, Tok::Dedent)))
    } else if tok_at(ts, k) is Newline {
        struct_fields(ts, k + 1, acc)
    } else if tok_at(ts, k) is Pass {
        if after_newline(ts, k + 1) <= ts.len() {
            struct_fields(ts, after_newline(ts, k + 1), acc)
        } else {
            None
        }
    } else {
        let fpub = tok_at(ts, k) is Pub;
        let k1 = if fpub {
            k + 1
        } else {
            k
        };
        match tok_at(ts, k1) {
            Tok::Ident(n) => if tok_at(ts, k1 + 1) is Colon {
                match type_at(ts, k1 + 2) {
                    Some(Ok((t, m))) => if k < after_newline(ts, m) <= ts.len() {
                        struct_fields(ts, after_newline(ts, m), acc.push((fpub, n@, t)))
                    } else {
                        None
                    },
                    Some(Err(f)) => Some(Err(f)),
                    None => None,
                }
            } else {
                Some(Err(expected_at(ts, k1 + 1, Tok::Colon)))
            },
            t => Some(Err(("expected identifier, found "@ + t.spec_debug(), k1))),
        }
    }
}

/// The struct `struct Name[..]:` with its indented fields at `i`.
#[verifier::opaque]
pub open spec fn struct_at(ts: Seq<Token>, i: int, attrs: Seq<Seq<char>>, is_pub: bool) -> Option<Result<(StructView, int), ParseFailure>> {
    if !(tok_at(ts, i) is Struct) {
        Some(Err(expected_at(ts, i, Tok::Struct)))
    } else {
        match tok_at(ts, i + 1) {
            Tok::Ident(name) => match generics_at(ts, i + 2) {
                Ok((gs, j)) => if !(tok_at(ts, j) is Colon) {
                    Some(Err(expected_at(ts, j, Tok::Colon)))
                } else if !(tok_at(ts, j + 1) is Newline) {
                    Some(Err(expected_at(ts, j + 1, Tok::Newline)))
                } else if !(tok_at(ts, j + 2) is Indent) {
                    Some(Err(expected_at(ts, j + 2, Tok::Indent)))
                } else {
                    match struct_fields(ts, j + 3, Seq::empty()) {
                        Some(Ok((fs, e))) => Some(Ok((StructView { attrs, is_pub, name: name@, generics: gs, fields: fs }, e))),
                        Some(Err(f)) => Some(Err(f)),
                        None => None,
                    }
                },
                Err(f) => Some(Err(f)),
            },
            t => Some(Err(("expected identifier, found "@ + t.spec_debug(), i + 1))),
        }
    }
}

/// An `impl` block by its parts.
pub struct ImplView {
    pub generics: Seq<GenericView>,
    pub trait_name: Option<TypeView>,
    pub ty: TypeView,
    pub methods: Seq<FnView>,
}

pub open spec fn opt_type_view(t: Option<Type>) -> Option<TypeView> {
    match t {
        Some(t) => Some(type_view(t)),
        None => None,
    }
}

pub open spec fn fn_views(fs: Seq<Function>) -> Seq<FnView> {
    fs.map_values(|f: Function| fn_view(f))
}

pub type MethodsResult = Option<Result<(Seq<FnView>, int), ParseFailure>>;

/// The qualifiers of a method at `a` (after its attributes `attrs`):
/// `pub`, `async`, `unsafe`, then the function.
pub open spec fn method_at(ts: Seq<Token>, a: int, labels: Seq<Seq<char>>, attrs: Seq<Seq<char>>) -> FnResult {
    let p = tok_at(ts, a) is Pub;
    let a1 = if p { a + 1 } else { a };
    let s = tok_at(ts, a1) is Async;
    let a2 = if s { a1 + 1 } else { a1 };
    let u = tok_at(ts, a2) is Unsafe;
    let a3 = if u { a2 + 1 } else { a2 };
    function_at(ts, a3, labels, attrs, p, s, u)
}

/// The methods of an `impl` block at `k` up to the `Dedent` (blank lines
/// skipped), after the methods `acc`.
pub open spec fn impl_methods(ts: Seq<Token>, k: int, labels: Seq<Seq<char>>, acc: Seq<FnView>) -> MethodsResult
    decreases ts.len() - k,
{
    if !(0 <= k < ts.len()) {
        None
    } else if tok_at(ts, k) is Dedent {
        Some(Ok((acc, k + 1)))
    } else if tok_at(ts, k) is Eof {
        Some(Err(expected_at(ts, k, Tok::Dedent)))
    } else if tok_at(ts, k) is Newline {
        impl_methods(ts, k + 1, labels, acc)
    } else {
        let (attrs, a) = attrs_at(ts, k);
        match method_at(ts, a, labels, views(attrs)) {
            Some(Ok((f, e))) => if k < e <= ts.len() {
                impl_methods(ts, e, labels, acc.push(f))
            } else {
                None
            },
            Some(Err(f)) => Some(Err(f)),
            None => None,
        }
    }
}

/// The body of an `impl` block at `m`: `:`, a line break, and the methods
/// indented.
pub open spec fn impl_body(ts: Seq<Token>, m: int, labels: Seq<Seq<char>>, head: ImplView) -> Option<Result<(ImplView, int), ParseFailure>> {
    if !(tok_at(ts, m) is Colon) {
        Some(Err(expected_at(ts, m, Tok::Colon)))
    } else if !(tok_at(ts, m + 1) is Newline) {
        Some(Err(expected_at(ts, m + 1, Tok::Newline)))
    } else if !(tok_at(ts, m + 2) is Indent) {
        Some(Err(expected_at(ts, m + 2, Tok::Indent)))
    } else {
        match impl_methods(ts, m + 3, labels, Seq::empty()) {
            Some(Ok((ms, e))) => Some(Ok((ImplView { methods: ms, ..head }, e))),
            Some(Err(f)) => Some(Err(f)),
            None => None,
        }
    }
}

/// The `impl[..] T:` or `impl[..] Trait for T:` block at `i`.
#[verifier::opaque]
pub open spec fn impl_at(ts: Seq<Token>, i: int, labels: Seq<Seq<char>>) -> Option<Result<(ImplView, int), ParseFailure>> {
    if !(tok_at(ts, i) is Impl) {
        Some(Err(expected_at(ts, i, Tok::Impl)))
    } else {
        match generics_at(ts, i + 1) {
            Ok((gs, j)) => match type_at(ts, j) {
                Some(Ok((first, k))) => if tok_at(ts, k) is For {
                    match type_at(ts, k + 1) {
                        Some(Ok((t, m))) => impl_body(ts, m, labels, ImplView { generics: gs, trait_name: Some(first), ty: t, methods: Seq::empty() }),
                        Some(Err(f)) => Some(Err(f)),
                        None => None,
                    }
                } else {
                    impl_body(ts, k, labels, ImplView { generics: gs, trait_name: None, ty: first, methods: Seq::empty() })
                },
                Some(Err(f)) => Some(Err(f)),
                None => None,
            },
            Err(f) => Some(Err(f)),
        }
    }
}

/// An import by its parts: the path (without a `rust`/`macro` root), the
/// names brought in by `from .. import`, the alias, and the root kind.
pub struct UseView {
    pub path: Seq<Seq<char>>,
    pub names: Seq<(Seq<char>, Option<Seq<char>>)>,
    pub alias: Option<Seq<char>>,
    pub is_macro: bool,
    pub is_rust: bool,
}

pub open spec fn use_name_views(ns: Seq<UseName>) -> Seq<(Seq<char>, Option<Seq<char>>)> {
    ns.map_values(|n: UseName| (n.name@, opt_str_view(n.alias)))
}

pub open spec fn use_view(u: Use) -> UseView {
    UseView {
        path: views(u.path@),
        names: use_name_views(u.names@),
        alias: opt_str_view(u.alias),
        is_macro: u.is_macro,
        is_rust: u.is_rust,
    }
}

/// A name at `k` in an import.
pub open spec fn path_seg_at(ts: Seq<Token>, k: int) -> Result<(Seq<char>, int), ParseFailure> {
    match tok_at(ts, k) {
        Tok::Ident(s) => Ok((s@, k + 1)),
        _ => Err(("expected a name"@, k)),
    }
}

/// More `.name` segments of an import path at `k`, after the segments `acc`.
pub open spec fn use_path_rest(ts: Seq<Token>, k: int, acc: Seq<Seq<char>>) -> Result<(Seq<Seq<char>>, int), ParseFailure>
    decreases ts.len() - k,
{
    if 0 <= k < ts.len() && tok_at(ts, k) is Dot {
        match path_seg_at(ts, k + 1) {
            Ok((s, m)) => use_path_rest(ts, m, acc.push(s)),
            Err(f) => Err(f),
        }
    } else {
        Ok((acc, k))
    }
}

/// The names `name [as alias], ..` of a `from .. import` at `k`, after the
/// names `acc`.
pub open spec fn use_names(ts: Seq<Token>, k: int, acc: Seq<(Seq<char>, Option<Seq<char>>)>) -> Result<(Seq<(Seq<char>, Option<Seq<char>>)>, int), ParseFailure>
    decreases ts.len() - k,
{
    match path_seg_at(ts, k) {
        Ok((n, m)) => {
            let al: Result<(Option<Seq<char>>, int), ParseFailure> = if tok_at(ts, m) is As {
                match path_seg_at(ts, m + 1) {
                    Ok((a, q)) => Ok((Some(a), q)),
                    Err(f) => Err(f),
                }
            } else {
                Ok((None, m))
            };
            match al {
                Ok((a, q)) => if tok_at(ts, q) is Comma && k < q < ts.len() {
                    use_names(ts, q + 1, acc.push((n, a)))
                } else {
                    Ok((acc.push((n, a)), q))
                },
                Err(f) => Err(f),
            }
        },
        Err(f) => Err(f),
    }
}

/// The import built from the parts read: the routing root `rust`/`macro`
/// taken off the path.
pub open spec fn use_of(path: Seq<Seq<char>>, names: Seq<(Seq<char>, Option<Seq<char>>)>, alias: Option<Seq<char>>) -> UseView {
    let is_macro = path[0] == "macro"@;
    let is_rust = path[0] == "rust"@;
    UseView {
        path: if is_macro || is_rust {
            path.drop_first()
        } else {
            path
        },
        names,
        alias,
        is_macro,
        is_rust,
    }
}

/// The import built from the path and the names that `names` gives.
pub open spec fn use_with_names(ts: Seq<Token>, path: Seq<Seq<char>>, names: Result<(Seq<(Seq<char>, Option<Seq<char>>)>, int), ParseFailure>) -> Result<(UseView, int), ParseFailure> {
    match names {
        Ok((ns, e)) => Ok((use_of(path, ns, None), after_newline(ts, e))),
        Err(f) => Err(f),
    }
}

/// What follows the path that `rest` gives: `import` and names after
/// `from`, else an optional `as alias`.
pub open spec fn use_after_path(ts: Seq<Token>, is_from: bool, rest: Result<(Seq<Seq<char>>, int), ParseFailure>) -> Result<(UseView, int), ParseFailure> {
    match rest {
        Ok((path, k)) => if is_from {
            if !(tok_at(ts, k) is Import) {
                Err(expected_at(ts, k, Tok::Import))
            } else {
                use_with_names(ts, path, use_names(ts, k + 1, Seq::empty()))
            }
        } else if tok_at(ts, k) is As {
            match path_seg_at(ts, k + 1) {
                Ok((a, e)) => Ok((use_of(path, Seq::empty(), Some(a)), after_newline(ts, e))),
                Err(f) => Err(f),
            }
        } else {
            Ok((use_of(path, Seq::empty(), None), after_newline(ts, k)))
        },
        Err(f) => Err(f),
    }
}

/// The import `import a.b [as c]` or `from a.b import x [as y], ..` at `i`.
pub open spec fn use_at(ts: Seq<Token>, i: int) -> Result<(UseView, int), ParseFailure> {
    let is_from = tok_at(ts, i) is From;
    if !is_from && !(tok_at(ts, i) is Import) {
        Err(expected_at(ts, i, Tok::Import))
    } else {
        match path_seg_at(ts, i + 1) {
            Ok((first, j)) => use_after_path(ts, is_from, use_path_rest(ts, j, seq![first])),
            Err(f) => Err(f),
        }
    }
}

/// An enum by its parts; each variant is its name and payload types.
pub struct EnumView {
    pub attrs: Seq<Seq<char>>,
    pub is_pub: bool,
    pub name: Seq<char>,
    pub generics: Seq<GenericView>,
    pub variants: Seq<(Seq<char>, Seq<TypeView>)>,
}

pub open spec fn variant_views(vs: Seq<Variant>) -> Seq<(Seq<char>, Seq<TypeView>)> {
    vs.map_values(|v: Variant| (v.name@, type_views(v.payload@)))
}

pub type VariantsResult = Option<Result<(Seq<(Seq<char>, Seq<TypeView>)>, int), ParseFailure>>;

/// The variants of an enum at `k`, one `Name[(T, ..)]` a line, up to the
/// `Dedent` (blank lines and `pass` skipped), after the variants `acc`.
pub open spec fn enum_variants(ts: Seq<Token>, k: int, acc: Seq<(Seq<char>, Seq<TypeView>)>) -> VariantsResult
    decreases ts.len() - k,
{
    if !(0 <= k < ts.len()) {
        None
    } else if tok_at(ts, k) is Dedent {
        Some(Ok((acc, k + 1)))
    } else if tok_at(ts, k) is Eof {
        Some(Err(expected_at(ts, k, Tok::Dedent)))
    } else if tok_at(ts, k) is Newline {
        enum_variants(ts, k + 1, acc)
    } else if tok_at(ts, k) is Pass {
        if after_newline(ts, k + 1) <= ts.len() {
            enum_variants(ts, after_newline(ts, k + 1), acc)
        } else {
            None
        }
    } else {
        match tok_at(ts, k) {
            Tok::Ident(n) => {
                let payload: Option<Result<(Seq<TypeView>, int), ParseFailure>> = if tok_at(ts, k + 1) is LParen {
                    type_list(ts, k + 2, Seq::empty(), false)
                } else {
                    Some(Ok((Seq::empty(), k + 1)))
                };
                match payload {
                    Some(Ok((p, m))) => if k < after_newline(ts, m) <= ts.len() {
                        enum_variants(ts, after_newline(ts, m), acc.push((n@, p)))
                    } else {
                        None
                    },
                    Some(Err(f)) => Some(Err(f)),
                    None => None,
                }
            },
            t => Some(Err(("expected identifier, found "@ + t.spec_debug(), k))),
        }
    }
}

/// The header `kw Name[..]:` of a struct-like item at `i`, and the line break
/// and indentation that open its body: the name, the generics and where the
/// body starts.
pub open spec fn item_head(ts: Seq<Token>, i: int, kw: Tok) -> Result<(Seq<char>, Seq<GenericView>, int), ParseFailure> {
    if !(tok_at(ts, i).tag() == kw.tag()) {
        Err(expected_at(ts, i, kw))
    } else {
        match tok_at(ts, i + 1) {
            Tok::Ident(name) => match generics_at(ts, i + 2) {
                Ok((gs, j)) => if !(tok_at(ts, j) is Colon) {
                    Err(expected_at(ts, j, Tok::Colon))
                } else if !(tok_at(ts, j + 1) is Newline) {
                    Err(expected_at(ts, j + 1, Tok::Newline))
                } else if !(tok_at(ts, j + 2) is Indent) {
                    Err(expected_at(ts, j + 2, Tok::Indent))
                } else {
                    Ok((name@, gs, j + 3))
                },
                Err(f) => Err(f),
            },
            t => Err(("expected identifier, found "@ + t.spec_debug(), i + 1)),
        }
    }
}

/// The enum `enum Name[..]:` with its indented variants at `i`.
#[verifier::opaque]
pub open spec fn enum_at(ts: Seq<Token>, i: int, attrs: Seq<Seq<char>>, is_pub: bool) -> Option<Result<(EnumView, int), ParseFailure>> {
    match item_head(ts, i, Tok::Enum) {
        Ok((name, gs, k)) => match enum_variants(ts, k, Seq::empty()) {
            Some(Ok((vs, e))) => Some(Ok((EnumView { attrs, is_pub, name, generics: gs, variants: vs }, e))),
            Some(Err(f)) => Some(Err(f)),
            None => None,
        },
        Err(f) => Some(Err(f)),
    }
}

/// A trait by its parts.
pub struct TraitView {
    pub attrs: Seq<Seq<char>>,
    pub is_pub: bool,
    pub name: Seq<char>,
    pub generics: Seq<GenericView>,
    pub methods: Seq<FnView>,
}

/// The methods of a trait at `k` up to the `Dedent` (blank lines and `pass`
/// skipped), each with its attributes and an optional `async`, after the
/// methods `acc`.
pub open spec fn trait_methods(ts: Seq<Token>, k: int, labels: Seq<Seq<char>>, acc: Seq<FnView>) -> MethodsResult
    decreases ts.len() - k,
{
    if !(0 <= k < ts.len()) {
        None
    } else if tok_at(ts, k) is Dedent {
        Some(Ok((acc, k + 1)))
    } else if tok_at(ts, k) is Eof {
        Some(Err(expected_at(ts, k, Tok::Dedent)))
    } else if tok_at(ts, k) is Newline {
        trait_methods(ts, k + 1, labels, acc)
    } else if tok_at(ts, k) is Pass {
        if after_newline(ts, k + 1) <= ts.len() {
            trait_methods(ts, after_newline(ts, k + 1), labels, acc)
        } else {
            None
        }
    } else {
        let (attrs, a) = attrs_at(ts, k);
        let is_async = tok_at(ts, a) is Async;
        let a1 = if is_async { a + 1 } else { a };
        match function_at(ts, a1, labels, views(attrs), false, is_async, false) {
            Some(Ok((f, e))) => if k < e <= ts.len() {
                trait_methods(ts, e, labels, acc.push(f))
            } else {
                None
            },
            Some(Err(f)) => Some(Err(f)),
            None => None,
        }
    }
}

/// The trait `trait Name[..]:` with its indented methods at `i`.
#[verifier::opaque]
pub open spec fn trait_at(ts: Seq<Token>, i: int, labels: Seq<Seq<char>>, attrs: Seq<Seq<char>>, is_pub: bool) -> Option<Result<(TraitView, int), ParseFailure>> {
    match item_head(ts, i, Tok::Trait) {
        Ok((name, gs, k)) => match trait_methods(ts, k, labels, Seq::empty()) {
            Some(Ok((ms, e))) => Some(Ok((TraitView { attrs, is_pub, name, generics: gs, methods: ms }, e))),
            Some(Err(f)) => Some(Err(f)),
            None => None,
        },
        Err(f) => Some(Err(f)),
    }
}

/// An item by its parts.
pub enum ItemView {
    Function(FnView),
    Struct(StructView),
    Impl(ImplView),
    Enum(EnumView),
    Trait(TraitView),
    Use(UseView),
}

pub open spec fn item_view(it: Item) -> ItemView {
    match it {
        Item::Function(f) => ItemView::Function(fn_view(f)),
        Item::Struct(s) => ItemView::Struct(
            StructView {
                attrs: views(s.attrs@),
                is_pub: s.is_pub,
                name: s.name@,
                generics: generic_views(s.generics@),
                fields: field_views(s.fields@),
            },
        ),
        Item::Impl(b) => ItemView::Impl(
            ImplView {
                generics: generic_views(b.generics@),
                trait_name: opt_type_view(b.trait_name),
                ty: type_view(b.ty),
                methods: fn_views(b.methods@),
            },
        ),
        Item::Enum(e) => ItemView::Enum(
            EnumView {
                attrs: views(e.attrs@),
                is_pub: e.is_pub,
                name: e.name@,
                generics: generic_views(e.generics@),
                variants: variant_views(e.variants@),
            },
        ),
        Item::Trait(tr) => ItemView::Trait(
            TraitView {
                attrs: views(tr.attrs@),
                is_pub: tr.is_pub,
                name: tr.name@,
                generics: generic_views(tr.generics@),
                methods: fn_views(tr.methods@),
            },
        ),
        Item::Use(u) => ItemView::Use(use_view(u)),
    }
}

pub open spec fn item_views(its: Seq<Item>) -> Seq<ItemView> {
    its.map_values(|it: Item| item_view(it))
}

/// The first `]` (or the end) from `k` on.
pub open spec fn skip_to_rbracket(ts: Seq<Token>, k: int) -> int
    decreases ts.len() - k,
{
    if 0 <= k < ts.len() && !(tok_at(ts, k) is RBracket || tok_at(ts, k) is Eof) {
        skip_to_rbracket(ts, k + 1)
    } else {
        k
    }
}

/// Where the qualifiers of an item at `j` end, after `pub[..]` is read:
/// the `]` closing the restriction expected.
pub open spec fn after_restriction(ts: Seq<Token>, j: int) -> Result<int, ParseFailure> {
    let r = skip_to_rbracket(ts, j);
    if tok_at(ts, r) is RBracket {
        Ok(r + 1)
    } else {
        Err(expected_at(ts, r, Tok::RBracket))
    }
}

pub type ItemResult = Option<Result<(ItemView, int), ParseFailure>>;

/// What follows `pub` (when `is_pub`), at `j`: `async`, `unsafe`, then the
/// item itself.
pub open spec fn item_rest(ts: Seq<Token>, j: int, labels: Seq<Seq<char>>, attrs: Seq<Seq<char>>, is_pub: bool) -> ItemResult {
    let is_async = tok_at(ts, j) is Async;
    let j1 = if is_async { j + 1 } else { j };
    let is_unsafe = tok_at(ts, j1) is Unsafe;
    let j2 = if is_unsafe { j1 + 1 } else { j1 };
    match tok_at(ts, j2) {
        Tok::Def => match function_at(ts, j2, labels, attrs, is_pub, is_async, is_unsafe) {
            Some(Ok((f, e))) => Some(Ok((ItemView::Function(f), e))),
            Some(Err(f)) => Some(Err(f)),
            None => None,
        },
        Tok::Struct => match struct_at(ts, j2, attrs, is_pub) {
            Some(Ok((s, e))) => Some(Ok((ItemView::Struct(s), e))),
            Some(Err(f)) => Some(Err(f)),
            None => None,
        },
        Tok::Enum => match enum_at(ts, j2, attrs, is_pub) {
            Some(Ok((en, e))) => Some(Ok((ItemView::Enum(en), e))),
            Some(Err(f)) => Some(Err(f)),
            None => None,
        },
        Tok::Impl => match impl_at(ts, j2, labels) {
            Some(Ok((b, e))) => Some(Ok((ItemView::Impl(b), e))),
            Some(Err(f)) => Some(Err(f)),
            None => None,
        },
        Tok::Trait => match trait_at(ts, j2, labels, attrs, is_pub) {
            Some(Ok((tr, e))) => Some(Ok((ItemView::Trait(tr), e))),
            Some(Err(f)) => Some(Err(f)),
            None => None,
        },
        t => Some(Err(("expected item, found "@ + t.spec_debug(), j2))),
    }
}

/// The item at `i`: attributes, then `from`/`import` (not taken apart), or
/// optional `pub` (with an optional `[..]` restriction that is dropped),
/// `async`, `unsafe`, and the item.
pub open spec fn item_at(ts: Seq<Token>, i: int, labels: Seq<Seq<char>>) -> ItemResult {
    let (attrs, j) = attrs_at(ts, i);
    if tok_at(ts, j) is From || tok_at(ts, j) is Import {
        match use_at(ts, j) {
            Ok((u, e)) => Some(Ok((ItemView::Use(u), e))),
            Err(f) => Some(Err(f)),
        }
    } else if tok_at(ts, j) is Pub {
        if tok_at(ts, j + 1) is LBracket {
            match after_restriction(ts, j + 2) {
                Ok(k) => item_rest(ts, k, labels, views(attrs), true),
                Err(f) => Some(Err(f)),
            }
        } else {
            item_rest(ts, j + 1, labels, views(attrs), true)
        }
    } else {
        item_rest(ts, j, labels, views(attrs), false)
    }
}

/// The items at `j` up to the end of the tokens (blank lines skipped), after
/// the items `acc`.
pub open spec fn program_items(ts: Seq<Token>, j: int, labels: Seq<Seq<char>>, acc: Seq<ItemView>) -> Option<Result<(Seq<ItemView>, int), ParseFailure>>
    decreases ts.len() - j,
{
    if !(0 <= j < ts.len()) {
        None
    } else if tok_at(ts, j) is Eof {
        Some(Ok((acc, j)))
    } else {
        match item_at(ts, j, labels) {
            Some(Ok((it, k))) => if j < newlines_end(ts, k) <= ts.len() {
                program_items(ts, newlines_end(ts, k), labels, acc.push(it))
            } else {
                None
            },
            Some(Err(f)) => Some(Err(f)),
            None => None,
        }
    }
}

/// The program at `i`: its items, leading blank lines skipped. `None` where
/// it holds a part that is not taken apart.
pub open spec fn program_at(ts: Seq<Token>, i: int, labels: Seq<Seq<char>>) -> Option<Result<(Seq<ItemView>, int), ParseFailure>> {
    program_items(ts, newlines_end(ts, i), labels, Seq::empty())
}

/// `r` is what `res` says of a program: its items, or a failure with the
/// same message at the same token.
pub open spec fn program_parsed(res: Option<Result<(Seq<ItemView>, int), ParseFailure>>, r: PResult<Program>, ts: Seq<Token>) -> bool {
    match res {
        None => true,
        Some(Ok((ivs, _))) => r matches Ok(p) && item_views(p.items@) == ivs,
        Some(Err((m, at))) => r matches Err(x) && x.message@ == m && x.span == ts[at].span,
    }
}

/// The output `r` of compiling the tokens `ts` is what `res` says of the
/// program they hold: the Rust module the generator writes for a program
/// with those items, or the parse failure, reported against `file`.
pub open spec fn compiled_from(res: Option<Result<(Seq<ItemView>, int), ParseFailure>>, r: Result<String, TinysError>, ts: Seq<Token>, file: Seq<char>, children: Seq<crate::codegen::ChildModule>) -> bool {
    match res {
        None => true,
        Some(Ok((ivs, _))) => r matches Ok(out) && exists|p: Program|
            program_wf(p) && item_views(p.items@) == ivs && out@ == crate::codegen::module_rust(p, children),
        Some(Err((m, at))) => r matches Err(e) && e.stage == Stage::Parse && e.file@ == file && e.message@ == m
            && e.span == ts[at].span,
    }
}

pub struct Parser<'a> {
    tokens: Vec<Token>,
    pos: usize,
    file: &'a str,
    /// Loop labels currently in scope, used to tell `break <label>` from
    /// `break <value>`.
    labels: Vec<String>,
}

impl<'a> Parser<'a> {
    /// The tokens being parsed.
    pub closed spec fn token_seq(&self) -> Seq<Token> {
        self.tokens@
    }

    /// The file name used in diagnostics.
    pub closed spec fn file_name(&self) -> Seq<char> {
        self.file@
    }

    /// The parser stands on a token of a parsable stream.
    pub closed spec fn wf(&self) -> bool {
        &&& parsable(self.tokens@)
        &&& self.pos < self.tokens@.len()
    }

    /// Same tokens and file, still well formed, not moved backwards.
    closed spec fn moved(&self, prev: &Self) -> bool {
        &&& self.wf()
        &&& self.tokens@ == prev.tokens@
        &&& self.file@ == prev.file@
        &&& self.pos >= prev.pos
    }

    /// What the program at the parser's position is, as far as it is taken
    /// apart (see `program_at`).
    pub closed spec fn program_spec(&self) -> Option<Result<(Seq<ItemView>, int), ParseFailure>> {
        program_at(self.tokens@, self.pos as int, views(self.labels@))
    }

    /// The parser stands on an `Eof` token.
    pub closed spec fn at_end(&self) -> bool {
        self.tokens@[self.pos as int].kind is Eof
    }

    closed spec fn cur(&self) -> Tok {
        self.tokens@[self.pos as int].kind
    }

    closed spec fn next_kind(&self) -> Tok {
        if self.pos + 1 < self.tokens@.len() {
            self.tokens@[self.pos + 1].kind
        } else {
            Tok::Eof
        }
    }

    pub fn new(tokens: Vec<Token>, file: &'a str) -> (p: Self)
        ensures
            p.token_seq() == tokens@,
            p.file_name() == file@,
            parsable(tokens@) ==> p.wf(),
            p.program_spec() == program_at(tokens@, 0, Seq::empty()),
    {
        let p = Parser { tokens, pos: 0, file, labels: Vec::new() };
        assert(views(p.labels@) =~= Seq::<Seq<char>>::empty());
        p
    }

    // ---- token cursor helpers -------------------------------------------------

    fn peek(&self) -> (r: &Tok)
        requires
            self.wf(),
        ensures
            *r == self.cur(),
    {
        &self.tokens[self.pos].kind
    }

    fn span(&self) -> (s: Span)
        requires
            self.wf(),
        ensures
            s == self.tokens@[self.pos as int].span,
    {
        self.tokens[self.pos].span
    }

    fn is(&self, want: &Tok) -> (r: bool)
        requires
            self.wf(),
        ensures
            r == (self.cur().tag() == want.tag()),
    {
        self.peek().kind_tag() == want.kind_tag()
    }

    fn is2(&self, want: &Tok) -> (r: bool)
        requires
            self.wf(),
        ensures
            r == (self.next_kind().tag() == want.tag()),
    {
        if self.pos < self.tokens.len() - 1 {
            self.tokens[self.pos + 1].kind.kind_tag() == want.kind_tag()
        } else {
            Tok::Eof.kind_tag() == want.kind_tag()
        }
    }

    fn bump(&mut self)
        requires
            old(self).wf(),
        ensures
            final(self).moved(old(self)),
            final(self).labels@ == old(self).labels@,
            !(old(self).cur() is Eof) ==> final(self).pos == old(self).pos + 1,
            old(self).cur() is Eof ==> final(self).pos == old(self).pos || final(self).pos
                == old(self).pos + 1,
    {
        if self.pos < self.tokens.len() - 1 {
            self.pos = self.pos + 1;
        }
    }

    fn eat(&mut self, want: &Tok) -> (r: bool)
        requires
            old(self).wf(),
            !(*want is Eof),
        ensures
            final(self).moved(old(self)),
            final(self).labels@ == old(self).labels@,
            r == (old(self).cur().tag() == want.tag()),
            r ==> final(self).pos == old(self).pos + 1,
            !r ==> final(self).pos == old(self).pos,
    {
        if self.is(want) {
            self.bump();
            true
        } else {
            false
        }
    }

    fn error(&self, msg: String) -> (e: TinysError)
        requires
            self.wf(),
        ensures
            e.stage == Stage::Parse,
            e.file@ == self.file@,
            e.message@ == msg@,
            e.span == self.tokens@[self.pos as int].span,
    {
        TinysError::new(Stage::Parse, msg, self.file, self.span())
    }

    fn expect(&mut self, want: &Tok) -> (r: PResult<()>)
        requires
            old(self).wf(),
            !(*want is Eof),
        ensures
            final(self).moved(old(self)),
            final(self).labels@ == old(self).labels@,
            r is Ok <==> old(self).cur().tag() == want.tag(),
            r is Ok ==> final(self).pos == old(self).pos + 1,
            r matches Err(e) ==> e.stage == Stage::Parse && e.file@ == old(self).file@
                && e.message@ == "expected "@ + want.spec_debug() + ", found "@ + old(
                self,
            ).cur().spec_debug(),
            r matches Err(e) ==> final(self).pos == old(self).pos && e.span == old(
                self,
            ).tokens@[old(self).pos as int].span,
    {
        if self.is(want) {
            self.bump();
            Ok(())
        } else {
            let mut msg = String::from_str("expected ");
            msg.append(want.debug().as_str());
            msg.append(", found ");
            msg.append(self.peek().debug().as_str());
            proof {
                assert(msg@ =~= "expected "@ + want.spec_debug() + ", found "@ + self.cur().spec_debug());
            }
            Err(self.error(msg))
        }
    }

    fn expect_ident(&mut self) -> (r: PResult<String>)
        requires
            old(self).wf(),
        ensures
            final(self).moved(old(self)),
            final(self).labels@ == old(self).labels@,
            r is Ok <==> old(self).cur() is Ident,
            r matches Ok(s) ==> final(self).pos == old(self).pos + 1 && old(self).cur() == Tok::Ident(s),
            parse_failure(r, old(self).file@),
            r matches Err(e) ==> e.message@ == "expected identifier, found "@ + old(self).cur().spec_debug(),
            r matches Err(e) ==> e.span == old(self).tokens@[old(self).pos as int].span,
    {
        match self.peek() {
            Tok::Ident(s) => {
                let s = s.clone();
                self.bump();
                Ok(s)
            },
            other => {
                let mut msg = String::from_str("expected identifier, found ");
                msg.append(other.debug().as_str());
                proof {
                    reveal_strlit("expected identifier, found ");
                }
                Err(self.error(msg))
            },
        }
    }

    fn skip_newlines(&mut self)
        requires
            old(self).wf(),
        ensures
            final(self).moved(old(self)),
            final(self).labels@ == old(self).labels@,
            !(final(self).cur() is Newline),
            final(self).pos == newlines_end(old(self).tokens@, old(self).pos as int),
    {
        while self.is(&Tok::Newline)
            invariant
                self.moved(old(self)),
                self.labels@ == old(self).labels@,
                newlines_end(self.tokens@, self.pos as int) == newlines_end(
                    old(self).tokens@,
                    old(self).pos as int,
                ),
            decreases self.tokens@.len() - self.pos,
        {
            self.bump();
        }
    }

    // ---- program & items ------------------------------------------------------

    /// Parses a whole token stream into a program: items until `Eof`.
    pub fn parse_program(&mut self) -> (r: PResult<Program>)
        requires
            old(self).wf(),
        ensures
            final(self).wf(),
            final(self).token_seq() == old(self).token_seq(),
            parse_failure(r, old(self).file_name()),
            r is Ok ==> final(self).at_end(),
            r matches Ok(p) ==> program_wf(p),
            program_parsed(old(self).program_spec(), r, old(self).token_seq()),
    {
        let ghost ts = self.tokens@;
        let ghost i = self.pos as int;
        let ghost labels = views(self.labels@);
        let mut items: Vec<Item> = Vec::new();
        self.skip_newlines();
        let ghost start = self.pos as int;
        assert(item_views(items@) =~= Seq::<ItemView>::empty());
        while !self.is(&Tok::Eof)
            invariant
                items_wf(items@),
                self.moved(old(self)),
                ts == self.tokens@,
                self.labels@ == old(self).labels@,
                labels == views(old(self).labels@),
                start == newlines_end(ts, i),
                i == old(self).pos,
                program_items(ts, start, labels, Seq::empty()) is None || program_items(ts, start, labels, Seq::empty())
                    == program_items(ts, self.pos as int, labels, item_views(items@)),
            decreases self.tokens@.len() - self.pos,
        {
            let ghost acc = item_views(items@);
            let item = self.parse_item()?;
            let ghost k = self.pos as int;
            items.push(item);
            assert(item_views(items@) =~= acc.push(item_view(item)));
            self.skip_newlines();
            proof {
                lemma_newlines_end(ts, k);
            }
        }
        Ok(Program { items })
    }

    fn parse_attrs(&mut self) -> (attrs: Vec<Attr>)
        requires
            old(self).wf(),
        ensures
            final(self).moved(old(self)),
            final(self).labels@ == old(self).labels@,
            attrs@ == attrs_at(old(self).tokens@, old(self).pos as int).0,
            final(self).pos == attrs_at(old(self).tokens@, old(self).pos as int).1,
    {
        let mut attrs: Vec<Attr> = Vec::new();
        loop
            invariant
                self.moved(old(self)),
                self.labels@ == old(self).labels@,
                attrs_at(old(self).tokens@, old(self).pos as int) == (
                    attrs@ + attrs_at(self.tokens@, self.pos as int).0,
                    attrs_at(self.tokens@, self.pos as int).1,
                ),
            ensures
                attrs_at(self.tokens@, self.pos as int) == (Seq::<String>::empty(), self.pos as int),
            decreases self.tokens@.len() - self.pos,
        {
            let ghost before = attrs@;
            let ghost p = self.pos as int;
            match self.peek() {
                Tok::Attribute(body) => {
                    let body = body.clone();
                    attrs.push(body);
                    self.bump();
                    self.skip_newlines();
                    proof {
                        let ts = self.tokens@;
                        lemma_newlines_end(ts, p + 1);
                        assert(attrs_at(ts, p).0 == seq![body] + attrs_at(ts, self.pos as int).0);
                        assert(attrs@ + attrs_at(ts, self.pos as int).0 =~= before + attrs_at(ts, p).0);
                    }
                },
                _ => {
                    assert(attrs_at(self.tokens@, self.pos as int) == (Seq::<String>::empty(), self.pos as int));
                    break;
                },
            }
        }
        assert(attrs@ + Seq::<String>::empty() =~= attrs@);
        attrs
    }

    #[verifier::rlimit(100)]
    #[verifier::spinoff_prover]
    fn parse_item(&mut self) -> (r: PResult<Item>)
        requires
            old(self).wf(),
        ensures
            final(self).moved(old(self)),
            r is Ok ==> final(self).labels@ == old(self).labels@,
            r is Ok ==> final(self).pos > old(self).pos,
            parse_failure(r, old(self).file@),
            r matches Ok(it) ==> item_wf(it),
            match item_at(old(self).tokens@, old(self).pos as int, views(old(self).labels@)) {
                None => true,
                Some(Ok((iv, e))) => r matches Ok(it) && item_view(it) == iv && final(self).pos == e,
                Some(Err((m, at))) => r matches Err(x) && x.message@ == m && x.span == old(self).tokens@[at].span,
            },
    {
        let ghost ts = self.tokens@;
        let ghost i = self.pos as int;
        let ghost labels = views(self.labels@);
        let attrs = self.parse_attrs();
        let ghost j = self.pos as int;
        if self.is(&Tok::From) || self.is(&Tok::Import) {
            let u = self.parse_use()?;
            return Ok(Item::Use(u));
        }
        let is_pub = self.eat(&Tok::Pub);
        let ghost j1 = self.pos as int;
        // `pub[crate]` restricted visibility: the restriction is not kept.
        if is_pub && self.is(&Tok::LBracket) {
            self.bump();
            let ghost s = self.pos as int;
            while !self.is(&Tok::RBracket) && !self.is(&Tok::Eof)
                invariant
                    self.moved(old(self)),
                    self.labels@ == old(self).labels@,
                    self.pos > old(self).pos,
                    ts == self.tokens@,
                    skip_to_rbracket(ts, self.pos as int) == skip_to_rbracket(ts, s),
                decreases self.tokens@.len() - self.pos,
            {
                self.bump();
            }
            self.expect(&Tok::RBracket)?;
        }
        let ghost j2 = self.pos as int;
        assert(item_at(ts, i, labels) == item_rest(ts, j2, labels, views(attrs@), is_pub));
        let is_async = self.eat(&Tok::Async);
        let is_unsafe = self.eat(&Tok::Unsafe);
        proof {
            reveal_strlit("expected item, found ");
        }
        match self.peek() {
            Tok::Def => {
                let f = self.parse_function(attrs, is_pub, is_async, is_unsafe)?;
                Ok(Item::Function(f))
            },
            Tok::Struct => {
                assert(item_rest(ts, j2, labels, views(attrs@), is_pub) == match struct_at(ts, self.pos as int, views(attrs@), is_pub) {
                    Some(Ok((s, e))) => Some(Ok((ItemView::Struct(s), e))),
                    Some(Err(f)) => Some(Err(f)),
                    None => None,
                });
                self.parse_struct(attrs, is_pub)
            },
            Tok::Enum => {
                assert(item_rest(ts, j2, labels, views(attrs@), is_pub) == match enum_at(ts, self.pos as int, views(attrs@), is_pub) {
                    Some(Ok((en, e))) => Some(Ok((ItemView::Enum(en), e))),
                    Some(Err(f)) => Some(Err(f)),
                    None => None,
                });
                self.parse_enum(attrs, is_pub)
            },
            Tok::Impl => {
                assert(item_rest(ts, j2, labels, views(attrs@), is_pub) == match impl_at(ts, self.pos as int, labels) {
                    Some(Ok((b, e))) => Some(Ok((ItemView::Impl(b), e))),
                    Some(Err(f)) => Some(Err(f)),
                    None => None,
                });
                self.parse_impl()
            },
            Tok::Trait => {
                assert(item_rest(ts, j2, labels, views(attrs@), is_pub) == match trait_at(ts, self.pos as int, labels, views(attrs@), is_pub) {
                    Some(Ok((tr, e))) => Some(Ok((ItemView::Trait(tr), e))),
                    Some(Err(f)) => Some(Err(f)),
                    None => None,
                });
                self.parse_trait(attrs, is_pub)
            },
            other => {
                let mut msg = String::from_str("expected item, found ");
                msg.append(other.debug().as_str());
                Err(self.error(msg))
            },
        }
    }

    #[verifier::rlimit(100)]
    #[verifier::spinoff_prover]
    fn parse_use(&mut self) -> (r: PResult<Use>)
        requires
            old(self).wf(),
        ensures
            final(self).moved(old(self)),
            r is Ok ==> final(self).labels@ == old(self).labels@,
            r is Ok ==> final(self).pos > old(self).pos,
            parse_failure(r, old(self).file@),
            match use_at(old(self).tokens@, old(self).pos as int) {
                Ok((uv, e)) => r matches Ok(u) && use_view(u) == uv && final(self).pos == e,
                Err((m, at)) => r matches Err(x) && x.message@ == m && x.span == old(self).tokens@[at].span,
            },
    {
        let ghost ts = self.tokens@;
        let ghost i = self.pos as int;
        proof {
            reveal_strlit("macro");
            reveal_strlit("rust");
        }
        let is_from = self.eat(&Tok::From);
        if !is_from {
            self.expect(&Tok::Import)?;
        }
        let first = self.parse_path_seg()?;
        let ghost j = self.pos as int;
        let mut path: Vec<String> = Vec::new();
        path.push(first);
        assert(views(path@) =~= seq![first@]);
        assert(use_at(ts, i) == use_after_path(ts, is_from, use_path_rest(ts, j, seq![first@])));
        while self.eat(&Tok::Dot)
            invariant
                self.moved(old(self)),
                self.labels@ == old(self).labels@,
                self.pos > old(self).pos,
                path@.len() > 0,
                ts == self.tokens@,
                use_path_rest(ts, j, seq![first@]) == use_path_rest(ts, self.pos as int, views(path@)),
                use_at(ts, i) == use_after_path(ts, is_from, use_path_rest(ts, j, seq![first@])),
                i == old(self).pos,
            decreases self.tokens@.len() - self.pos,
        {
            let ghost acc = views(path@);
            let seg = self.parse_path_seg()?;
            path.push(seg);
            assert(views(path@) =~= acc.push(seg@));
        }
        let ghost pv = views(path@);
        assert(use_path_rest(ts, j, seq![first@]) == Ok::<(Seq<Seq<char>>, int), ParseFailure>((pv, self.pos as int)));
        let mut names: Vec<UseName> = Vec::new();
        let mut alias: Option<String> = None;
        if is_from {
            self.expect(&Tok::Import)?;
            let ghost ns = self.pos as int;
            assert(use_name_views(names@) =~= Seq::<(Seq<char>, Option<Seq<char>>)>::empty());
            assert(use_at(ts, i) == use_with_names(ts, pv, use_names(ts, ns, Seq::empty())));
            loop
                invariant_except_break
                    use_names(ts, ns, Seq::empty()) == use_names(ts, self.pos as int, use_name_views(names@)),
                invariant
                    self.moved(old(self)),
                    self.labels@ == old(self).labels@,
                    self.pos > old(self).pos,
                    path@.len() > 0,
                    ts == self.tokens@,
                    pv == views(path@),
                    alias is None,
                    i == old(self).pos,
                    use_at(ts, i) == use_with_names(ts, pv, use_names(ts, ns, Seq::empty())),
                ensures
                    use_names(ts, ns, Seq::empty()) == Ok::<(Seq<(Seq<char>, Option<Seq<char>>)>, int), ParseFailure>((use_name_views(names@), self.pos as int)),
                decreases self.tokens@.len() - self.pos,
            {
                let ghost acc = use_name_views(names@);
                let name = self.parse_path_seg()?;
                let a = if self.eat(&Tok::As) {
                    Some(self.parse_path_seg()?)
                } else {
                    None
                };
                let ghost entry = (name@, opt_str_view(a));
                names.push(UseName { name, alias: a });
                assert(use_name_views(names@) =~= acc.push(entry));
                if !self.eat(&Tok::Comma) {
                    break;
                }
            }
        } else if self.eat(&Tok::As) {
            alias = Some(self.parse_path_seg()?);
        }
        let ghost kend = self.pos as int;
        assert(use_at(ts, i) == Ok::<(UseView, int), ParseFailure>((use_of(pv, use_name_views(names@), opt_str_view(alias)), after_newline(ts, kend)))) by {
            assert(use_name_views(Seq::<UseName>::empty()) =~= Seq::<(Seq<char>, Option<Seq<char>>)>::empty());
        }
        let is_macro = str_eq(path[0].as_str(), "macro");
        let is_rust = str_eq(path[0].as_str(), "rust");
        assert(pv[0] == path@[0]@);
        // Strip the routing root.
        if is_rust || is_macro {
            path.remove(0);
            assert(views(path@) =~= pv.drop_first());
        }
        self.eat(&Tok::Newline);
        Ok(Use { path, names, alias, is_macro, is_rust })
    }

    /// A path segment: an identifier.
    fn parse_path_seg(&mut self) -> (r: PResult<String>)
        requires
            old(self).wf(),
        ensures
            final(self).moved(old(self)),
            final(self).labels@ == old(self).labels@,
            r is Ok <==> old(self).cur() is Ident,
            r matches Ok(s) ==> final(self).pos == old(self).pos + 1 && old(self).cur() == Tok::Ident(s),
            parse_failure(r, old(self).file@),
            match path_seg_at(old(self).tokens@, old(self).pos as int) {
                Ok((s, k)) => r matches Ok(x) && x@ == s && final(self).pos == k,
                Err((m, at)) => r matches Err(x) && x.message@ == m && at == old(self).pos && x.span == old(self).tokens@[at].span,
            },
    {
        proof {
            reveal_strlit("expected a name");
        }
        match self.peek() {
            Tok::Ident(s) => {
                let s = s.clone();
                self.bump();
                Ok(s)
            },
            _ => Err(self.error(String::from_str("expected a name"))),
        }
    }

    #[verifier::rlimit(100)]
    #[verifier::spinoff_prover]
    fn parse_function(
        &mut self,
        attrs: Vec<Attr>,
        is_pub: bool,
        is_async: bool,
        is_unsafe: bool,
    ) -> (r: PResult<Function>)
        requires
            old(self).wf(),
        ensures
            final(self).moved(old(self)),
            r is Ok ==> final(self).labels@ == old(self).labels@,
            r is Ok ==> final(self).pos > old(self).pos,
            parse_failure(r, old(self).file@),
            r matches Ok(f) ==> function_wf(f),
            fn_parsed(
                function_at(old(self).tokens@, old(self).pos as int, views(old(self).labels@), views(attrs@), is_pub, is_async, is_unsafe),
                r,
                final(self).pos as int,
                old(self).tokens@,
            ),
    {
        let ghost ts = self.tokens@;
        let ghost i = self.pos as int;
        let ghost labels = views(self.labels@);
        proof {
            reveal_strlit("expected parameter name");
        }
        self.expect(&Tok::Def)?;
        let name = self.expect_ident()?;
        let generics = self.parse_generics()?;
        let ghost j = self.pos as int;
        self.expect(&Tok::LParen)?;
        let ghost start = self.pos as int;
        let ghost head = FnView {
            attrs: views(attrs@), is_pub, is_async, is_unsafe, name: name@, generics: generic_views(generics@),
            params: Seq::empty(), ret: TypeView::Unit, body: None,
        };
        assert(function_at(ts, i, labels, views(attrs@), is_pub, is_async, is_unsafe) == match params_list(ts, start, Seq::empty()) {
            Some(Ok((ps, k))) => fn_tail(ts, k, labels, FnView { params: ps, ..head }),
            Some(Err(f)) => Some(Err(f)),
            None => None,
        });
        let mut params: Vec<Param> = Vec::new();
        assert(param_views(params@) =~= Seq::<(Seq<char>, TypeView)>::empty());
        while !self.is(&Tok::RParen)
            invariant_except_break
                params_list(ts, start, Seq::empty()) is None || params_list(ts, start, Seq::empty())
                    == params_list(ts, self.pos as int, param_views(params@)),
            invariant
                params_wf(params@),
                self.moved(old(self)),
                self.labels@ == old(self).labels@,
                self.pos > old(self).pos,
                ts == self.tokens@,
                i == old(self).pos,
                labels == views(old(self).labels@),
                function_at(ts, i, labels, views(attrs@), is_pub, is_async, is_unsafe) == match params_list(ts, start, Seq::empty()) {
                    Some(Ok((ps, k))) => fn_tail(ts, k, labels, FnView { params: ps, ..head }),
                    Some(Err(f)) => Some(Err(f)),
                    None => None,
                },
            ensures
                params_list(ts, start, Seq::empty()) is None || params_list(ts, start, Seq::empty())
                    == params_close(ts, self.pos as int, param_views(params@)),
            decreases self.tokens@.len() - self.pos,
        {
            let ghost acc = param_views(params@);
            let pname = match self.peek() {
                Tok::Ident(s) => {
                    let s = s.clone();
                    self.bump();
                    s
                },
                _ => {
                    return Err(self.error(String::from_str("expected parameter name")));
                },
            };
            self.expect(&Tok::Colon)?;
            let ty = self.parse_type()?;
            let ghost p0 = params@;
            params.push(Param { name: pname, ty });
            proof {
                assert(param_views(params@) =~= acc.push((pname@, type_view(ty))));
            }
            if !self.eat(&Tok::Comma) {
                break;
            }
        }
        self.expect(&Tok::RParen)?;
        let ghost k = self.pos as int;
        let ret = if self.eat(&Tok::Arrow) {
            self.parse_type()?
        } else {
            Type::Unit
        };
        let body = if self.is(&Tok::Colon) {
            Some(self.parse_block()?)
        } else {
            self.eat(&Tok::Newline);
            None
        };
        Ok(Function { attrs, is_pub, is_async, is_unsafe, name, generics, params, ret, body })
    }

    #[verifier::rlimit(100)]
    #[verifier::spinoff_prover]
    fn parse_struct(&mut self, attrs: Vec<Attr>, is_pub: bool) -> (r: PResult<Item>)
        requires
            old(self).wf(),
        ensures
            final(self).moved(old(self)),
            r is Ok ==> final(self).labels@ == old(self).labels@,
            r is Ok ==> final(self).pos > old(self).pos,
            parse_failure(r, old(self).file@),
            r matches Ok(it) ==> item_wf(it),
            match struct_at(old(self).tokens@, old(self).pos as int, views(attrs@), is_pub) {
                None => true,
                Some(Ok((sv, e))) => r matches Ok(it) && item_view(it) == ItemView::Struct(sv) && final(self).pos == e,
                Some(Err((m, at))) => r matches Err(x) && x.message@ == m && x.span == old(self).tokens@[at].span,
            },
    {
        let ghost ts = self.tokens@;
        let ghost i = self.pos as int;
        proof {
            reveal(struct_at);
        }
        self.expect(&Tok::Struct)?;
        let name = self.expect_ident()?;
        let generics = self.parse_generics()?;
        self.expect(&Tok::Colon)?;
        self.expect(&Tok::Newline)?;
        self.expect(&Tok::Indent)?;
        let ghost start = self.pos as int;
        let ghost head = StructView {
            attrs: views(attrs@), is_pub, name: name@, generics: generic_views(generics@), fields: Seq::empty(),
        };
        let mut fields: Vec<Field> = Vec::new();
        assert(field_views(fields@) =~= Seq::<(bool, Seq<char>, TypeView)>::empty());
        assert(struct_at(ts, i, views(attrs@), is_pub) == match struct_fields(ts, start, Seq::empty()) {
            Some(Ok((fs, e))) => Some(Ok((StructView { fields: fs, ..head }, e))),
            Some(Err(f)) => Some(Err(f)),
            None => None,
        });
        while !self.is(&Tok::Dedent) && !self.is(&Tok::Eof)
            invariant
                fields_wf(fields@),
                self.moved(old(self)),
                self.labels@ == old(self).labels@,
                self.pos > old(self).pos,
                ts == self.tokens@,
                i == old(self).pos,
                struct_at(ts, i, views(attrs@), is_pub) == match struct_fields(ts, start, Seq::empty()) {
                    Some(Ok((fs, e))) => Some(Ok((StructView { fields: fs, ..head }, e))),
                    Some(Err(f)) => Some(Err(f)),
                    None => None,
                },
                struct_fields(ts, start, Seq::empty()) is None || struct_fields(ts, start, Seq::empty())
                    == struct_fields(ts, self.pos as int, field_views(fields@)),
            decreases self.tokens@.len() - self.pos,
        {
            if self.eat(&Tok::Newline) {
                continue;
            }
            if self.eat(&Tok::Pass) {
                self.eat(&Tok::Newline);
                continue;
            }
            let ghost acc = field_views(fields@);
            let fpub = self.eat(&Tok::Pub);
            let fname = self.expect_ident()?;
            self.expect(&Tok::Colon)?;
            let ty = self.parse_type()?;
            fields.push(Field { is_pub: fpub, name: fname, ty });
            assert(field_views(fields@) =~= acc.push((fpub, fname@, type_view(ty))));
            self.eat(&Tok::Newline);
        }
        self.expect(&Tok::Dedent)?;
        Ok(Item::Struct(Struct { attrs, is_pub, name, generics, fields }))
    }

    #[verifier::rlimit(100)]
    #[verifier::spinoff_prover]
    fn parse_enum(&mut self, attrs: Vec<Attr>, is_pub: bool) -> (r: PResult<Item>)
        requires
            old(self).wf(),
        ensures
            final(self).moved(old(self)),
            r is Ok ==> final(self).labels@ == old(self).labels@,
            r is Ok ==> final(self).pos > old(self).pos,
            parse_failure(r, old(self).file@),
            r matches Ok(it) ==> item_wf(it),
            match enum_at(old(self).tokens@, old(self).pos as int, views(attrs@), is_pub) {
                None => true,
                Some(Ok((ev, e))) => r matches Ok(it) && item_view(it) == ItemView::Enum(ev) && final(self).pos == e,
                Some(Err((m, at))) => r matches Err(x) && x.message@ == m && x.span == old(self).tokens@[at].span,
            },
    {
        let ghost ts = self.tokens@;
        let ghost i = self.pos as int;
        proof {
            reveal(enum_at);
        }
        self.expect(&Tok::Enum)?;
        let name = self.expect_ident()?;
        let generics = self.parse_generics()?;
        self.expect(&Tok::Colon)?;
        self.expect(&Tok::Newline)?;
        self.expect(&Tok::Indent)?;
        let ghost start = self.pos as int;
        let ghost head = EnumView {
            attrs: views(attrs@), is_pub, name: name@, generics: generic_views(generics@), variants: Seq::empty(),
        };
        assert(item_head(ts, i, Tok::Enum) == Ok::<(Seq<char>, Seq<GenericView>, int), ParseFailure>((name@, generic_views(generics@), start)));
        let mut variants: Vec<Variant> = Vec::new();
        assert(variant_views(variants@) =~= Seq::<(Seq<char>, Seq<TypeView>)>::empty());
        while !self.is(&Tok::Dedent) && !self.is(&Tok::Eof)
            invariant
                variants_wf(variants@),
                self.moved(old(self)),
                self.labels@ == old(self).labels@,
                self.pos > old(self).pos,
                ts == self.tokens@,
                i == old(self).pos,
                enum_at(ts, i, views(attrs@), is_pub) == match enum_variants(ts, start, Seq::empty()) {
                    Some(Ok((vs, e))) => Some(Ok((EnumView { variants: vs, ..head }, e))),
                    Some(Err(f)) => Some(Err(f)),
                    None => None,
                },
                enum_variants(ts, start, Seq::empty()) is None || enum_variants(ts, start, Seq::empty())
                    == enum_variants(ts, self.pos as int, variant_views(variants@)),
            decreases self.tokens@.len() - self.pos,
        {
            let ghost iter_start = self.pos;
            if self.eat(&Tok::Newline) {
                continue;
            }
            if self.eat(&Tok::Pass) {
                self.eat(&Tok::Newline);
                continue;
            }
            let ghost acc = variant_views(variants@);
            let ghost vk = self.pos as int;
            let vname = self.expect_ident()?;
            let mut payload: Vec<Type> = Vec::new();
            if self.eat(&Tok::LParen) {
                let ghost ps = self.pos as int;
                while !self.is(&Tok::RParen)
                    invariant_except_break
                        type_list(ts, ps, Seq::empty(), false) is None || type_list(ts, ps, Seq::empty(), false)
                            == type_list(ts, self.pos as int, type_views(payload@), false),
                    invariant
                        types_wf(payload@),
                        variants_wf(variants@),
                        self.pos > iter_start,
                        self.moved(old(self)),
                        self.labels@ == old(self).labels@,
                        self.pos > old(self).pos,
                        ts == self.tokens@,
                        i == old(self).pos,
                        ps == vk + 2,
                        tok_at(ts, vk) == Tok::Ident(vname),
                        tok_at(ts, vk + 1) is LParen,
                        0 <= vk < ts.len(),
                        enum_at(ts, i, views(attrs@), is_pub) == match enum_variants(ts, start, Seq::empty()) {
                            Some(Ok((vs, e))) => Some(Ok((EnumView { variants: vs, ..head }, e))),
                            Some(Err(f)) => Some(Err(f)),
                            None => None,
                        },
                        enum_variants(ts, start, Seq::empty()) is None || enum_variants(ts, start, Seq::empty())
                            == enum_variants(ts, vk, acc),
                    ensures
                        type_list(ts, ps, Seq::empty(), false) is None || type_list(ts, ps, Seq::empty(), false)
                            == type_list_close(ts, self.pos as int, type_views(payload@), false),
                    decreases self.tokens@.len() - self.pos,
                {
                    let ghost pacc = type_views(payload@);
                    let ghost p0 = payload@;
                    let t = self.parse_type()?;
                    payload.push(t);
                    assert(payload@.subrange(0, payload@.len() - 1) =~= p0);
                    assert(type_views(payload@) == pacc.push(type_view(t)));
                    if !self.eat(&Tok::Comma) {
                        break;
                    }
                }
                self.expect(&Tok::RParen)?;
            } else {
                assert(type_views(payload@) =~= Seq::<TypeView>::empty());
            }
            let ghost entry = (vname@, type_views(payload@));
            variants.push(Variant { name: vname, payload });
            assert(variant_views(variants@) =~= acc.push(entry));
            self.eat(&Tok::Newline);
        }
        self.expect(&Tok::Dedent)?;
        Ok(Item::Enum(Enum { attrs, is_pub, name, generics, variants }))
    }

    #[verifier::rlimit(100)]
    #[verifier::spinoff_prover]
    fn parse_impl(&mut self) -> (r: PResult<Item>)
        requires
            old(self).wf(),
        ensures
            final(self).moved(old(self)),
            r is Ok ==> final(self).labels@ == old(self).labels@,
            r is Ok ==> final(self).pos > old(self).pos,
            parse_failure(r, old(self).file@),
            r matches Ok(it) ==> item_wf(it),
            match impl_at(old(self).tokens@, old(self).pos as int, views(old(self).labels@)) {
                None => true,
                Some(Ok((bv, e))) => r matches Ok(it) && item_view(it) == ItemView::Impl(bv) && final(self).pos == e,
                Some(Err((m, at))) => r matches Err(x) && x.message@ == m && x.span == old(self).tokens@[at].span,
            },
    {
        let ghost ts = self.tokens@;
        let ghost i = self.pos as int;
        let ghost labels = views(self.labels@);
        proof {
            reveal(impl_at);
        }
        self.expect(&Tok::Impl)?;
        let generics = self.parse_generics()?;
        let first = self.parse_type()?;
        let (trait_name, ty) = if self.eat(&Tok::For) {
            let t = self.parse_type()?;
            (Some(first), t)
        } else {
            (None, first)
        };
        let ghost m0 = self.pos as int;
        let ghost head = ImplView {
            generics: generic_views(generics@),
            trait_name: opt_type_view(trait_name),
            ty: type_view(ty),
            methods: Seq::empty(),
        };
        assert(impl_at(ts, i, labels) is None || impl_at(ts, i, labels) == impl_body(ts, m0, labels, head));
        self.expect(&Tok::Colon)?;
        self.expect(&Tok::Newline)?;
        self.expect(&Tok::Indent)?;
        let ghost start = self.pos as int;
        let mut methods: Vec<Function> = Vec::new();
        assert(fn_views(methods@) =~= Seq::<FnView>::empty());
        while !self.is(&Tok::Dedent) && !self.is(&Tok::Eof)
            invariant
                functions_wf(methods@),
                self.moved(old(self)),
                self.labels@ == old(self).labels@,
                self.pos > old(self).pos,
                ts == self.tokens@,
                i == old(self).pos,
                labels == views(old(self).labels@),
                start == m0 + 3,
                impl_at(ts, i, labels) is None || impl_at(ts, i, labels) == impl_body(ts, m0, labels, head),
                impl_body(ts, m0, labels, head) == match impl_methods(ts, start, labels, Seq::empty()) {
                    Some(Ok((ms, e))) => Some(Ok((ImplView { methods: ms, ..head }, e))),
                    Some(Err(f)) => Some(Err(f)),
                    None => None,
                },
                impl_methods(ts, start, labels, Seq::empty()) is None || impl_methods(ts, start, labels, Seq::empty())
                    == impl_methods(ts, self.pos as int, labels, fn_views(methods@)),
            decreases self.tokens@.len() - self.pos,
        {
            if self.eat(&Tok::Newline) {
                continue;
            }
            let ghost k = self.pos as int;
            let ghost acc = fn_views(methods@);
            let attrs = self.parse_attrs();
            let ghost a = self.pos as int;
            let mpub = self.eat(&Tok::Pub);
            let masync = self.eat(&Tok::Async);
            let munsafe = self.eat(&Tok::Unsafe);
            assert(method_at(ts, a, labels, views(attrs@)) == function_at(ts, self.pos as int, labels, views(attrs@), mpub, masync, munsafe));
            let m = self.parse_function(attrs, mpub, masync, munsafe)?;
            methods.push(m);
            assert(fn_views(methods@) =~= acc.push(fn_view(m)));
        }
        self.expect(&Tok::Dedent)?;
        Ok(Item::Impl(Impl { generics, trait_name, ty, methods }))
    }

    #[verifier::rlimit(100)]
    #[verifier::spinoff_prover]
    fn parse_trait(&mut self, attrs: Vec<Attr>, is_pub: bool) -> (r: PResult<Item>)
        requires
            old(self).wf(),
        ensures
            final(self).moved(old(self)),
            r is Ok ==> final(self).labels@ == old(self).labels@,
            r is Ok ==> final(self).pos > old(self).pos,
            parse_failure(r, old(self).file@),
            r matches Ok(it) ==> item_wf(it),
            match trait_at(old(self).tokens@, old(self).pos as int, views(old(self).labels@), views(attrs@), is_pub) {
                None => true,
                Some(Ok((tv, e))) => r matches Ok(it) && item_view(it) == ItemView::Trait(tv) && final(self).pos == e,
                Some(Err((m, at))) => r matches Err(x) && x.message@ == m && x.span == old(self).tokens@[at].span,
            },
    {
        let ghost ts = self.tokens@;
        let ghost i = self.pos as int;
        let ghost labels = views(self.labels@);
        proof {
            reveal(trait_at);
        }
        self.expect(&Tok::Trait)?;
        let name = self.expect_ident()?;
        let generics = self.parse_generics()?;
        self.expect(&Tok::Colon)?;
        self.expect(&Tok::Newline)?;
        self.expect(&Tok::Indent)?;
        let ghost start = self.pos as int;
        let ghost head = TraitView {
            attrs: views(attrs@), is_pub, name: name@, generics: generic_views(generics@), methods: Seq::empty(),
        };
        assert(item_head(ts, i, Tok::Trait) == Ok::<(Seq<char>, Seq<GenericView>, int), ParseFailure>((name@, generic_views(generics@), start)));
        let mut methods: Vec<Function> = Vec::new();
        assert(fn_views(methods@) =~= Seq::<FnView>::empty());
        while !self.is(&Tok::Dedent) && !self.is(&Tok::Eof)
            invariant
                functions_wf(methods@),
                self.moved(old(self)),
                self.labels@ == old(self).labels@,
                self.pos > old(self).pos,
                ts == self.tokens@,
                i == old(self).pos,
                labels == views(old(self).labels@),
                trait_at(ts, i, labels, views(attrs@), is_pub) == match trait_methods(ts, start, labels, Seq::empty()) {
                    Some(Ok((ms, e))) => Some(Ok((TraitView { methods: ms, ..head }, e))),
                    Some(Err(f)) => Some(Err(f)),
                    None => None,
                },
                trait_methods(ts, start, labels, Seq::empty()) is None || trait_methods(ts, start, labels, Seq::empty())
                    == trait_methods(ts, self.pos as int, labels, fn_views(methods@)),
            decreases self.tokens@.len() - self.pos,
        {
            if self.eat(&Tok::Newline) {
                continue;
            }
            if self.eat(&Tok::Pass) {
                self.eat(&Tok::Newline);
                continue;
            }
            let ghost acc = fn_views(methods@);
            let mattrs = self.parse_attrs();
            let masync = self.eat(&Tok::Async);
            let m = self.parse_function(mattrs, false, masync, false)?;
            methods.push(m);
            assert(fn_views(methods@) =~= acc.push(fn_view(m)));
        }
        self.expect(&Tok::Dedent)?;
        Ok(Item::Trait(Trait { attrs, is_pub, name, generics, methods }))
    }

    // ---- generics & types -----------------------------------------------------

    fn parse_generics(&mut self) -> (r: PResult<Vec<GenericParam>>)
        requires
            old(self).wf(),
        ensures
            final(self).moved(old(self)),
            r is Ok ==> final(self).labels@ == old(self).labels@,
            parse_failure(r, old(self).file@),
            match generics_at(old(self).tokens@, old(self).pos as int) {
                Ok((v, e)) => r matches Ok(ps) && generic_views(ps@) == v && final(self).pos == e,
                Err((m, at)) => r matches Err(x) && x.message@ == m && x.span == old(
                    self,
                ).tokens@[at].span,
            },
    {
        let ghost ts = self.tokens@;
        let ghost goal = generics_at(ts, self.pos as int);
        let mut params: Vec<GenericParam> = Vec::new();
        assert(generic_views(params@) =~= Seq::<GenericView>::empty());
        if !self.is(&Tok::LBracket) {
            return Ok(params);
        }
        self.bump();
        proof {
            reveal_strlit("expected generic parameter, found ");
        }
        while !self.is(&Tok::RBracket)
            invariant_except_break
                goal == generic_list(ts, self.pos as int, generic_views(params@)),
            invariant
                ts == self.tokens@,
                ts == old(self).tokens@,
                goal == generics_at(old(self).tokens@, old(self).pos as int),
                self.moved(old(self)),
                self.labels@ == old(self).labels@,
                self.pos > old(self).pos,
            ensures
                goal == generics_close(ts, self.pos as int, generic_views(params@)),
            decreases self.tokens@.len() - self.pos,
        {
            let ghost iter_start = self.pos;
            let ghost i = self.pos as int;
            let ghost acc = generic_views(params@);
            proof {
                lemma_generic_param_at(ts, i);
            }
            match self.peek() {
                Tok::Lifetime(name) => {
                    let name = name.clone();
                    self.bump();
                    params.push(GenericParam::Lifetime(name));
                },
                Tok::Ident(name) => {
                    let name = name.clone();
                    let ghost name_v = name@;
                    self.bump();
                    let mut bounds: Vec<String> = Vec::new();
                    assert(views(bounds@) =~= Seq::<Seq<char>>::empty());
                    if self.eat(&Tok::Colon) {
                        let b = self.parse_bound()?;
                        bounds.push(b);
                        assert(views(bounds@) =~= seq![b@]);
                        while self.eat(&Tok::Plus)
                            invariant
                                self.pos > iter_start,
                                self.moved(old(self)),
                                self.labels@ == old(self).labels@,
                                self.pos > old(self).pos,
                                ts == self.tokens@,
                                goal == generic_list(ts, i, acc),
                                goal == generics_at(old(self).tokens@, old(self).pos as int),
                                ts == old(self).tokens@,
                                0 <= i < ts.len(),
                                !(ts[i].kind is RBracket),
                                generic_param_at(ts, i) == match bounds_more(
                                    ts,
                                    self.pos as int,
                                    views(bounds@),
                                ) {
                                    Ok((bs, k)) => Ok::<(GenericView, int), ParseFailure>(((false, name_v, bs), k)),
                                    Err(f) => Err(f),
                                },
                            decreases self.tokens@.len() - self.pos,
                        {
                            let ghost q = self.pos - 1;
                            let ghost bv = views(bounds@);
                            proof {
                                if q + 1 < ts.len() {
                                    match ts[q + 1].kind {
                                        Tok::Ident(m) => lemma_bound_rest(ts, q + 2, m@),
                                        _ => {},
                                    }
                                }
                            }
                            let b = self.parse_bound()?;
                            bounds.push(b);
                            assert(views(bounds@) =~= bv.push(b@));
                        }
                    }
                    params.push(GenericParam::Type { name, bounds });
                },
                other => {
                    let mut msg = String::from_str("expected generic parameter, found ");
                    msg.append(other.debug().as_str());
                    return Err(self.error(msg));
                },
            }
            assert(generic_views(params@) =~= acc.push(generic_view(params@.last())));
            assert(generic_param_at(ts, i) == Ok::<(GenericView, int), ParseFailure>(
                (generic_view(params@.last()), self.pos as int),
            ));
            if !self.eat(&Tok::Comma) {
                break;
            }
        }
        self.expect(&Tok::RBracket)?;
        Ok(params)
    }

    /// A trait bound, e.g. `Clone` or `iter.Iterator` (dotted segments are
    /// joined with `::`).
    fn parse_bound(&mut self) -> (r: PResult<String>)
        requires
            old(self).wf(),
        ensures
            final(self).moved(old(self)),
            r is Ok ==> final(self).labels@ == old(self).labels@,
            r is Ok ==> final(self).pos > old(self).pos,
            parse_failure(r, old(self).file@),
            match bound_at(old(self).tokens@, old(self).pos as int) {
                Ok((text, e)) => r matches Ok(b) && b@ == text && final(self).pos == e,
                Err((m, at)) => r matches Err(x) && x.message@ == m && x.span == old(
                    self,
                ).tokens@[at].span,
            },
    {
        let first = self.expect_ident()?;
        let mut out = first;
        proof {
            reveal_strlit("::");
        }
        while self.eat(&Tok::Dot)
            invariant
                self.moved(old(self)),
                self.labels@ == old(self).labels@,
                self.pos > old(self).pos,
                bound_at(old(self).tokens@, old(self).pos as int) == bound_rest(
                    self.tokens@,
                    self.pos as int,
                    out@,
                ),
            decreases self.tokens@.len() - self.pos,
        {
            let seg = self.expect_ident()?;
            out.append("::");
            out.append(seg.as_str());
        }
        Ok(out)
    }

    #[verifier::rlimit(100)]
    #[verifier::spinoff_prover]
    fn parse_type(&mut self) -> (r: PResult<Type>)
        requires
            old(self).wf(),
        ensures
            final(self).moved(old(self)),
            r is Ok ==> final(self).labels@ == old(self).labels@,
            r is Ok ==> final(self).pos > old(self).pos,
            parse_failure(r, old(self).file@),
            r matches Ok(t) ==> type_wf(t),
            type_by_token(old(self).cur(), old(self).next_kind(), r),
            type_parsed(type_at(old(self).tokens@, old(self).pos as int), r, final(self).pos as int, old(self).tokens@),
        decreases old(self).tokens@.len() - old(self).pos, 4int,
    {
        let ghost ts = self.tokens@;
        let ghost i = self.pos as int;
        // References: `ref T` / `mut ref T`, with optional `[.lifetime]`.
        if self.is(&Tok::Mut) && self.is2(&Tok::Ref) {
            self.bump();
            self.bump();
            proof {
                self.lemma_lifetime_end();
            }
            let lifetime = self.parse_opt_lifetime_bracket();
            let inner = self.parse_type()?;
            return Ok(Type::Ref { mutable: true, lifetime, inner: Box::new(inner) });
        }
        if self.eat(&Tok::Ref) {
            proof {
                self.lemma_lifetime_end();
            }
            let lifetime = self.parse_opt_lifetime_bracket();
            let inner = self.parse_type()?;
            return Ok(Type::Ref { mutable: false, lifetime, inner: Box::new(inner) });
        }
        if self.eat(&Tok::Void) {
            return Ok(Type::Unit);
        }
        // Tuple type `(A, B)` or unit `()`.
        if self.is(&Tok::LParen) {
            self.bump();
            let ghost start = self.pos as int;
            let mut elems: Vec<Type> = Vec::new();
            while !self.is(&Tok::RParen)
                invariant_except_break
                    type_list(ts, start, Seq::empty(), false) is None || type_list(ts, start, Seq::empty(), false)
                        == type_list(ts, self.pos as int, type_views(elems@), false),
                invariant
                    old(self).cur() is LParen,
                    types_wf(elems@),
                    self.moved(old(self)),
                    self.labels@ == old(self).labels@,
                    self.pos > old(self).pos,
                    ts == self.tokens@,
                    i == old(self).pos,
                    start == i + 1,
                ensures
                    type_list(ts, start, Seq::empty(), false) is None || type_list(ts, start, Seq::empty(), false)
                        == type_list_close(ts, self.pos as int, type_views(elems@), false),
                decreases self.tokens@.len() - self.pos,
            {
                let ghost acc = type_views(elems@);
                let ghost e0 = elems@;
                let t = self.parse_type()?;
                elems.push(t);
                assert(elems@.subrange(0, elems@.len() - 1) =~= e0);
                assert(type_views(elems@) == acc.push(type_view(t)));
                if !self.eat(&Tok::Comma) {
                    break;
                }
            }
            self.expect(&Tok::RParen)?;
            if elems.len() == 0 {
                return Ok(Type::Unit);
            }
            return Ok(Type::Tuple(elems));
        }
        // Named / generic type path.
        let first = self.expect_ident()?;
        let ghost first_name = first;
        let mut segments: Vec<String> = Vec::new();
        segments.push(first);
        assert(views(segments@) =~= seq![first_name@]);
        while self.eat(&Tok::Dot)
            invariant
                self.moved(old(self)),
                self.labels@ == old(self).labels@,
                self.pos > old(self).pos,
                segments@.len() > 0,
                old(self).cur() == Tok::Ident(first_name),
                segments@[0] == first_name,
                ts == self.tokens@,
                i == old(self).pos,
                seg_rest(ts, i + 1, seq![first_name@]) == seg_rest(ts, self.pos as int, views(segments@)),
            decreases self.tokens@.len() - self.pos,
        {
            let ghost acc = views(segments@);
            let seg = self.expect_ident()?;
            segments.push(seg);
            assert(views(segments@) =~= acc.push(seg@));
        }
        assert(seg_rest(ts, i + 1, seq![first_name@]) == Ok::<(Seq<Seq<char>>, int), ParseFailure>((views(segments@), self.pos as int)));
        assert(views(segments@).last() == segments@.last()@);
        if self.is(&Tok::LBracket) {
            let is_array = str_eq(segments[segments.len() - 1].as_str(), "array");
            let is_slice = str_eq(segments[segments.len() - 1].as_str(), "slice");
            proof {
                reveal_strlit("array");
                reveal_strlit("slice");
            }
            self.bump();
            // array[T, N] and slice[T] are special.
            if is_array {
                let elem = self.parse_type()?;
                self.expect(&Tok::Comma)?;
                let len = self.parse_expr()?;
                self.expect(&Tok::RBracket)?;
                return Ok(Type::Array { elem: Box::new(elem), len: Box::new(len) });
            }
            if is_slice {
                let elem = self.parse_type()?;
                self.expect(&Tok::RBracket)?;
                return Ok(Type::Slice(Box::new(elem)));
            }
            let ghost start = self.pos as int;
            assert(type_at(ts, i) == type_after_path(ts, start - 1, views(segments@)));
            assert(type_at(ts, i) == path_with_args(views(segments@), type_list(ts, start, Seq::empty(), true)));
            let mut args: Vec<Type> = Vec::new();
            while !self.is(&Tok::RBracket)
                invariant_except_break
                    type_list(ts, start, Seq::empty(), true) is None || type_list(ts, start, Seq::empty(), true)
                        == type_list(ts, self.pos as int, type_views(args@), true),
                invariant
                    old(self).cur() == Tok::Ident(first_name),
                    segments@.len() > 0,
                    segments@[0] == first_name,
                    types_wf(args@),
                    self.moved(old(self)),
                    self.labels@ == old(self).labels@,
                    self.pos > old(self).pos,
                    ts == self.tokens@,
                    type_at(ts, i) == path_with_args(views(segments@), type_list(ts, start, Seq::empty(), true)),
                    i == old(self).pos,
                ensures
                    type_list(ts, start, Seq::empty(), true) is None || type_list(ts, start, Seq::empty(), true)
                        == type_list_close(ts, self.pos as int, type_views(args@), true),
                decreases self.tokens@.len() - self.pos,
            {
                let ghost acc = type_views(args@);
                let ghost a0 = args@;
                let lt = match self.peek() {
                    Tok::Lifetime(name) => Some(name.clone()),
                    _ => None,
                };
                match lt {
                    Some(name) => {
                        self.bump();
                        let mut seg = String::from_str("'");
                        seg.append(name.as_str());
                        let mut segs: Vec<String> = Vec::new();
                        segs.push(seg);
                        let no_args: Vec<Type> = Vec::new();
                        assert(types_wf(no_args@));
                        let t = Type::Path { segments: segs, args: no_args };
                        assert(type_wf(t));
                        proof {
                            reveal_strlit("'");
                            assert(views(segs@) =~= seq!["'"@ + name@]);
                            assert(type_views(no_args@) =~= Seq::<TypeView>::empty());
                        }
                        args.push(t);
                        assert(args@.subrange(0, args@.len() - 1) =~= a0);
                        assert(type_views(args@) == acc.push(type_view(t)));
                    },
                    None => {
                        let t = self.parse_type()?;
                        args.push(t);
                        assert(args@.subrange(0, args@.len() - 1) =~= a0);
                        assert(type_views(args@) == acc.push(type_view(t)));
                    },
                }
                if !self.eat(&Tok::Comma) {
                    break;
                }
            }
            self.expect(&Tok::RBracket)?;
            return Ok(Type::Path { segments, args });
        }
        let no_args: Vec<Type> = Vec::new();
        assert(types_wf(no_args@));
        assert(type_views(no_args@) =~= Seq::<TypeView>::empty());
        Ok(Type::Path { segments, args: no_args })
    }

    /// An optional `[.name]` at the current token ends where `lifetime_end`
    /// says, as `parse_opt_lifetime_bracket` reports it.
    proof fn lemma_lifetime_end(&self)
        requires
            self.wf(),
        ensures
            bracket_lifetime(self.tokens@, self.pos as int) is Some ==> self.pos + 2 < self.tokens@.len()
                && tok_at(self.tokens@, self.pos + 2) == self.tokens@[self.pos + 2].kind,
    {
        let ts = self.tokens@;
        let j = self.pos as int;
        if bracket_lifetime(ts, j) is Some {
            assert(ts[j + 1].kind is Lifetime);
            assert(j + 1 != ts.len() - 1);
        }
    }

    fn parse_opt_lifetime_bracket(&mut self) -> (r: Option<String>)
        requires
            old(self).wf(),
        ensures
            final(self).moved(old(self)),
            final(self).labels@ == old(self).labels@,
            r == bracket_lifetime(old(self).tokens@, old(self).pos as int),
            r is None ==> final(self).pos == old(self).pos,
            r is Some ==> final(self).pos == old(self).pos + 2 + (if old(self).tokens@[old(self).pos
                + 2].kind is RBracket {
                1int
            } else {
                0int
            }),
    {
        if self.is(&Tok::LBracket) && self.pos < self.tokens.len() - 1 {
            let name = match &self.tokens[self.pos + 1].kind {
                Tok::Lifetime(name) => Some(name.clone()),
                _ => None,
            };
            match name {
                Some(name) => {
                    self.bump();
                    self.bump();
                    let _ = self.expect(&Tok::RBracket);
                    return Some(name);
                },
                None => {},
            }
        }
        None
    }

    // ---- blocks & statements --------------------------------------------------

    #[verifier::rlimit(100)]
    #[verifier::spinoff_prover]
    fn parse_block(&mut self) -> (r: PResult<Vec<Stmt>>)
        requires
            old(self).wf(),
        ensures
            final(self).moved(old(self)),
            r is Ok ==> final(self).labels@ == old(self).labels@,
            r is Ok ==> final(self).pos > old(self).pos,
            parse_failure(r, old(self).file@),
            r matches Ok(b) ==> stmts_wf(b@),
            block_parsed(block_at(old(self).tokens@, old(self).pos as int, views(old(self).labels@)), r, final(self).pos as int, old(self).tokens@),
        decreases old(self).tokens@.len() - old(self).pos, 7int,
    {
        let ghost ts = self.tokens@;
        let ghost i = self.pos as int;
        let ghost labels = views(self.labels@);
        self.expect(&Tok::Colon)?;
        if self.eat(&Tok::Newline) {
            self.expect(&Tok::Indent)?;
            let ghost start = self.pos as int;
            let mut stmts: Vec<Stmt> = Vec::new();
            assert(stmt_views(stmts@) =~= Seq::<StmtView>::empty());
            while !self.is(&Tok::Dedent) && !self.is(&Tok::Eof)
                invariant
                    stmts_wf(stmts@),
                    self.moved(old(self)),
                    self.labels@ == old(self).labels@,
                    self.pos > old(self).pos,
                    ts == self.tokens@,
                    i == old(self).pos,
                    labels == views(old(self).labels@),
                    start == i + 3,
                    block_at(ts, i, labels) == block_stmts(ts, start, labels, Seq::empty()),
                    block_stmts(ts, start, labels, Seq::empty()) is None || block_stmts(ts, start, labels, Seq::empty())
                        == block_stmts(ts, self.pos as int, labels, stmt_views(stmts@)),
                decreases self.tokens@.len() - self.pos,
            {
                if self.eat(&Tok::Newline) {
                    continue;
                }
                let ghost acc = stmt_views(stmts@);
                let ghost s0 = stmts@;
                let s = self.parse_stmt()?;
                stmts.push(s);
                proof {
                    assert(stmts@.subrange(0, stmts@.len() - 1) =~= s0);
                    assert(stmt_views(stmts@) == acc.push(stmt_view(s)));
                }
            }
            self.expect(&Tok::Dedent)?;
            Ok(stmts)
        } else {
            // Inline single statement, e.g. `case _: pass`.
            let s = self.parse_stmt()?;
            let mut stmts: Vec<Stmt> = Vec::new();
            stmts.push(s);
            assert(stmts@.subrange(0, 0) =~= Seq::<Stmt>::empty());
            assert(stmt_views(Seq::<Stmt>::empty()) =~= Seq::<StmtView>::empty());
            assert(stmt_views(stmts@) =~= stmt_views(stmts@.subrange(0, 0)).push(stmt_view(s)));
            assert(stmt_views(stmts@) =~= seq![stmt_view(s)]);
            Ok(stmts)
        }
    }

    fn has_label(&self, name: &String) -> (r: bool)
        ensures
            r == exists|i: int| 0 <= i < self.labels@.len() && self.labels@[i]@ == name@,
    {
        let mut i: usize = 0;
        while i < self.labels.len()
            invariant
                i <= self.labels@.len(),
                forall|j: int| 0 <= j < i ==> self.labels@[j]@ != name@,
            decreases self.labels@.len() - i,
        {
            if str_eq(self.labels[i].as_str(), name.as_str()) {
                return true;
            }
            i = i + 1;
        }
        false
    }

    #[verifier::rlimit(100)]
    #[verifier::spinoff_prover]
    fn parse_stmt(&mut self) -> (r: PResult<Stmt>)
        requires
            old(self).wf(),
        ensures
            final(self).moved(old(self)),
            r is Ok ==> final(self).labels@ == old(self).labels@,
            r is Ok ==> final(self).pos > old(self).pos,
            parse_failure(r, old(self).file@),
            r matches Ok(st) ==> stmt_wf(st),
            stmt_by_token(old(self).cur(), r),
            stmt_parsed(stmt_at(old(self).tokens@, old(self).pos as int, views(old(self).labels@)), r, final(self).pos as int, old(self).tokens@),
        decreases old(self).tokens@.len() - old(self).pos, 21int,
    {
        let ghost ts = self.tokens@;
        let ghost i = self.pos as int;
        match self.peek() {
            Tok::Return | Tok::Pass | Tok::Break | Tok::Continue => self.parse_jump_stmt(),
            Tok::If | Tok::While | Tok::For | Tok::Loop | Tok::Match | Tok::Unsafe => self.parse_compound_stmt(),
            Tok::Mut => {
                self.bump();
                let name = self.expect_ident()?;
                let ty = if self.eat(&Tok::Colon) {
                    Some(self.parse_type()?)
                } else {
                    None
                };
                self.expect(&Tok::Assign)?;
                let value = self.parse_expr()?;
                self.eat(&Tok::Newline);
                Ok(Stmt::Let { mutable: true, name, ty, value })
            },
            _ => self.parse_expr_stmt(),
        }
    }

    /// A statement with a body: `if`, `while`, `for`, `loop`, `match`,
    /// `unsafe`.
    #[verifier::rlimit(100)]
    #[verifier::spinoff_prover]
    /// `return`, `pass`, `break` and `continue`.
    #[verifier::rlimit(100)]
    #[verifier::spinoff_prover]
    fn parse_jump_stmt(&mut self) -> (r: PResult<Stmt>)
        requires
            old(self).wf(),
            old(self).cur() is Return || old(self).cur() is Pass || old(self).cur() is Break || old(self).cur() is Continue,
        ensures
            final(self).moved(old(self)),
            r is Ok ==> final(self).labels@ == old(self).labels@,
            r is Ok ==> final(self).pos > old(self).pos,
            parse_failure(r, old(self).file@),
            r matches Ok(st) ==> stmt_wf(st),
            stmt_by_token(old(self).cur(), r),
            stmt_parsed(stmt_at(old(self).tokens@, old(self).pos as int, views(old(self).labels@)), r, final(self).pos as int, old(self).tokens@),
        decreases old(self).tokens@.len() - old(self).pos, 20int,
    {
        let ghost ts = self.tokens@;
        let ghost i = self.pos as int;
        match self.peek() {
            Tok::Return => {
                self.bump();
                let value = if self.stmt_terminated() {
                    None
                } else {
                    Some(self.parse_expr()?)
                };
                self.eat(&Tok::Newline);
                Ok(Stmt::Return(value))
            },
            Tok::Pass => {
                self.bump();
                self.eat(&Tok::Newline);
                Ok(Stmt::Pass)
            },
            Tok::Break => {
                self.bump();
                let label = match self.peek() {
                    Tok::Ident(s) => {
                        let s = s.clone();
                        if self.has_label(&s) {
                            proof {
                                let k = choose|k: int| 0 <= k < self.labels@.len() && self.labels@[k]@ == s@;
                                assert(views(self.labels@)[k] == s@);
                            }
                            Some(s)
                        } else {
                            proof {
                                if views(self.labels@).contains(s@) {
                                    let k = choose|k: int| 0 <= k < views(self.labels@).len() && views(self.labels@)[k] == s@;
                                    assert(self.labels@[k]@ == s@);
                                }
                            }
                            None
                        }
                    },
                    _ => None,
                };
                if label.is_some() {
                    self.bump();
                }
                let value = if self.eat(&Tok::With) {
                    Some(self.parse_expr()?)
                } else if self.stmt_terminated() {
                    None
                } else {
                    Some(self.parse_expr()?)
                };
                self.eat(&Tok::Newline);
                Ok(Stmt::Break { label, value })
            },
            _ => {
                self.bump();
                self.eat(&Tok::Newline);
                Ok(Stmt::Continue)
            },
        }
    }

    fn parse_compound_stmt(&mut self) -> (r: PResult<Stmt>)
        requires
            old(self).wf(),
            old(self).cur() is If || old(self).cur() is While || old(self).cur() is For || old(self).cur() is Loop
                || old(self).cur() is Match || old(self).cur() is Unsafe,
        ensures
            final(self).moved(old(self)),
            r is Ok ==> final(self).labels@ == old(self).labels@,
            r is Ok ==> final(self).pos > old(self).pos,
            parse_failure(r, old(self).file@),
            r matches Ok(st) ==> stmt_wf(st),
            stmt_by_token(old(self).cur(), r),
            stmt_parsed(stmt_at(old(self).tokens@, old(self).pos as int, views(old(self).labels@)), r, final(self).pos as int, old(self).tokens@),
        decreases old(self).tokens@.len() - old(self).pos, 20int,
    {
        match self.peek() {
            Tok::If => self.parse_if_stmt(),
            Tok::While => self.parse_while(),
            Tok::For => self.parse_for(),
            Tok::Loop => self.parse_loop(),
            Tok::Match => {
                let m = self.parse_match()?;
                Ok(Stmt::Match(m))
            },
            _ => {
                self.bump();
                let body = self.parse_block()?;
                Ok(Stmt::Unsafe(body))
            },
        }
    }

    fn stmt_terminated(&self) -> (r: bool)
        requires
            self.wf(),
        ensures
            r == (self.cur() is Newline || self.cur() is Dedent || self.cur() is Eof),
    {
        match self.peek() {
            Tok::Newline | Tok::Dedent | Tok::Eof => true,
            _ => false,
        }
    }

    #[verifier::rlimit(100)]
    #[verifier::spinoff_prover]
    fn parse_expr_stmt(&mut self) -> (r: PResult<Stmt>)
        requires
            old(self).wf(),
        ensures
            final(self).moved(old(self)),
            r is Ok ==> final(self).labels@ == old(self).labels@,
            r is Ok ==> final(self).pos > old(self).pos,
            parse_failure(r, old(self).file@),
            r matches Ok(st) ==> stmt_wf(st),
            stmt_parsed(expr_stmt_at(old(self).tokens@, old(self).pos as int, views(old(self).labels@)), r, final(self).pos as int, old(self).tokens@),
        decreases old(self).tokens@.len() - old(self).pos, 19int,
    {
        let ghost ts = self.tokens@;
        let ghost i = self.pos as int;
        proof {
            reveal_strlit("expected a name in destructuring assignment");
        }
        let first = self.parse_expr()?;
        // Tuple destructuring: `a, b = e`.
        if self.is(&Tok::Comma) {
            let ghost j = self.pos as int;
            let n0 = self.expr_as_name(&first)?;
            let mut names: Vec<String> = Vec::new();
            names.push(n0);
            assert(views(names@) =~= seq![n0@]);
            let ghost L = views(old(self).labels@);
            assert(expr_at(ts, i, L) is None || expr_stmt_at(ts, i, L) == names_rest(ts, j, seq![n0@], L));
            while self.eat(&Tok::Comma)
                invariant
                    self.moved(old(self)),
                    self.labels@ == old(self).labels@,
                    self.pos > old(self).pos,
                    ts == self.tokens@,
                    i == old(self).pos,
                    L == views(old(self).labels@),
                    names_rest(ts, j, seq![n0@], L) is None || names_rest(ts, j, seq![n0@], L)
                        == names_rest(ts, self.pos as int, views(names@), L),
                    expr_at(ts, i, L) is None || expr_stmt_at(ts, i, L) == names_rest(ts, j, seq![n0@], L),
                decreases self.tokens@.len() - self.pos,
            {
                let ghost acc = views(names@);
                let e = self.parse_expr()?;
                let n = self.expr_as_name(&e)?;
                names.push(n);
                assert(views(names@) =~= acc.push(n@));
            }
            self.expect(&Tok::Assign)?;
            let value = self.parse_expr()?;
            self.eat(&Tok::Newline);
            return Ok(Stmt::LetTuple { names, value });
        }
        // Typed binding: `name: T = e`.
        if self.is(&Tok::Colon) {
            match &first {
                Expr::Ident(name) => {
                    let name = name.clone();
                    self.bump();
                    let ty = self.parse_type()?;
                    self.expect(&Tok::Assign)?;
                    let value = self.parse_expr()?;
                    self.eat(&Tok::Newline);
                    return Ok(Stmt::Let { mutable: false, name, ty: Some(ty), value });
                },
                _ => {},
            }
        }
        // Plain `=` binding/assignment.
        if self.eat(&Tok::Assign) {
            let value = self.parse_expr()?;
            self.eat(&Tok::Newline);
            return Ok(
                match first {
                    Expr::Ident(name) => Stmt::Let { mutable: false, name, ty: None, value },
                    target => Stmt::Assign { target, op: AssignOp::Eq, value },
                },
            );
        }
        // Compound assignment.
        match self.compound_op() {
            Some(op) => {
                self.bump();
                let value = self.parse_expr()?;
                self.eat(&Tok::Newline);
                return Ok(Stmt::Assign { target: first, op, value });
            },
            None => {},
        }
        self.eat(&Tok::Newline);
        Ok(Stmt::Expr(first))
    }

    fn expr_as_name(&self, e: &Expr) -> (r: PResult<String>)
        requires
            self.wf(),
        ensures
            r is Ok <==> *e is Ident,
            r matches Ok(s) ==> *e == Expr::Ident(s),
            parse_failure(r, self.file@),
            r matches Err(x) ==> x.message@ == destructure_message() && x.span == self.tokens@[self.pos as int].span,
    {
        proof {
            reveal_strlit("expected a name in destructuring assignment");
        }
        match e {
            Expr::Ident(s) => Ok(s.clone()),
            _ => Err(self.error(String::from_str("expected a name in destructuring assignment"))),
        }
    }

    fn compound_op(&self) -> (r: Option<AssignOp>)
        requires
            self.wf(),
        ensures
            r == compound_assign_op(self.cur()),
    {
        match self.peek() {
            Tok::PlusEq => Some(AssignOp::Add),
            Tok::MinusEq => Some(AssignOp::Sub),
            Tok::StarEq => Some(AssignOp::Mul),
            Tok::SlashEq => Some(AssignOp::Div),
            Tok::PercentEq => Some(AssignOp::Rem),
            _ => None,
        }
    }

    fn parse_if_stmt(&mut self) -> (r: PResult<Stmt>)
        requires
            old(self).wf(),
        ensures
            final(self).moved(old(self)),
            r is Ok ==> final(self).labels@ == old(self).labels@,
            r is Ok ==> final(self).pos > old(self).pos,
            parse_failure(r, old(self).file@),
            r matches Ok(st) ==> stmt_wf(st),
            r matches Ok(st) ==> st is If,
            stmt_parsed(stmt_from_if(if_common_at(old(self).tokens@, old(self).pos as int, views(old(self).labels@))), r, final(self).pos as int, old(self).tokens@),
        decreases old(self).tokens@.len() - old(self).pos, 19int,
    {
        let (arms, else_body) = self.parse_if_common()?;
        Ok(Stmt::If(IfChain { arms, else_body }))
    }

    /// Shared parsing for `if`/`elif`/`else` used by both statement and
    /// expression positions.
    #[verifier::rlimit(100)]
    #[verifier::spinoff_prover]
    fn parse_if_common(&mut self) -> (r: PResult<(Vec<(CondKind, Vec<Stmt>)>, Option<Vec<Stmt>>)>)
        requires
            old(self).wf(),
        ensures
            final(self).moved(old(self)),
            r is Ok ==> final(self).labels@ == old(self).labels@,
            r is Ok ==> final(self).pos > old(self).pos,
            parse_failure(r, old(self).file@),
            r matches Ok((arms, eb)) ==> cond_arms_wf(arms@) && match eb { Some(b) => stmts_wf(b@), None => true },
            r matches Ok((arms, _)) ==> arms@.len() > 0,
            if_parsed(if_common_at(old(self).tokens@, old(self).pos as int, views(old(self).labels@)), r, final(self).pos as int, old(self).tokens@),
        decreases old(self).tokens@.len() - old(self).pos, 17int,
    {
        let ghost ts = self.tokens@;
        let ghost i = self.pos as int;
        let ghost L = views(self.labels@);
        let mut arms: Vec<(CondKind, Vec<Stmt>)> = Vec::new();
        self.expect(&Tok::If)?;
        let cond = self.parse_cond()?;
        let body = self.parse_block()?;
        arms.push((cond, body));
        proof {
            assert(arms@.subrange(0, 0) =~= Seq::<(CondKind, Vec<Stmt>)>::empty());
            assert(cond_arm_views(Seq::<(CondKind, Vec<Stmt>)>::empty()) =~= Seq::<(CondView, Seq<StmtView>)>::empty());
            assert(cond_arm_views(arms@) =~= cond_arm_views(arms@.subrange(0, 0)).push((cond_view(cond), stmt_views(body@))));
            assert(cond_arm_views(arms@) =~= seq![(cond_view(cond), stmt_views(body@))]);
        }
        loop
            invariant
                cond_arms_wf(arms@),
                self.moved(old(self)),
                self.labels@ == old(self).labels@,
                self.pos > old(self).pos,
                arms@.len() > 0,
                ts == self.tokens@,
                i == old(self).pos,
                L == views(old(self).labels@),
                if_common_at(ts, i, L) is None || if_common_at(ts, i, L) == if_elifs(ts, self.pos as int, L, cond_arm_views(arms@)),
            ensures
                if_common_at(ts, i, L) is None || if_common_at(ts, i, L) == if_else_tail(ts, self.pos as int, L, cond_arm_views(arms@)),
            decreases self.tokens@.len() - self.pos,
        {
            let ghost acc = cond_arm_views(arms@);
            let ghost a0 = arms@;
            self.skip_newlines_before_keyword(&Tok::Elif);
            if self.eat(&Tok::Elif) {
                let cond = self.parse_cond()?;
                let body = self.parse_block()?;
                arms.push((cond, body));
                proof {
                    assert(arms@.subrange(0, arms@.len() - 1) =~= a0);
                    assert(cond_arm_views(arms@) == acc.push((cond_view(cond), stmt_views(body@))));
                }
            } else {
                break;
            }
        }
        self.skip_newlines_before_keyword(&Tok::Else);
        let else_body = if self.eat(&Tok::Else) {
            Some(self.parse_block()?)
        } else {
            None
        };
        Ok((arms, else_body))
    }

    /// After a block's `Dedent`, an `elif`/`else` may follow on the next line;
    /// an intervening `Newline` is skipped.
    fn skip_newlines_before_keyword(&mut self, kw: &Tok)
        requires
            old(self).wf(),
        ensures
            final(self).moved(old(self)),
            final(self).labels@ == old(self).labels@,
            final(self).pos == newlines_before(old(self).tokens@, old(self).pos as int, *kw),
    {
        while self.is(&Tok::Newline) && self.is2(kw)
            invariant
                self.moved(old(self)),
                self.labels@ == old(self).labels@,
                newlines_before(self.tokens@, self.pos as int, *kw) == newlines_before(
                    old(self).tokens@,
                    old(self).pos as int,
                    *kw,
                ),
            decreases self.tokens@.len() - self.pos,
        {
            self.bump();
        }
    }

    fn parse_cond(&mut self) -> (r: PResult<CondKind>)
        requires
            old(self).wf(),
        ensures
            final(self).moved(old(self)),
            r is Ok ==> final(self).labels@ == old(self).labels@,
            r is Ok ==> final(self).pos > old(self).pos,
            parse_failure(r, old(self).file@),
            r matches Ok(c) ==> cond_wf(c),
            cond_parsed(cond_at(old(self).tokens@, old(self).pos as int, views(old(self).labels@)), r, final(self).pos as int, old(self).tokens@),
        decreases old(self).tokens@.len() - old(self).pos, 19int,
    {
        if self.eat(&Tok::Case) {
            let pattern = self.parse_pattern()?;
            self.expect(&Tok::Assign)?;
            let expr = self.parse_expr()?;
            Ok(CondKind::Case { pattern, expr })
        } else {
            let e = self.parse_expr()?;
            Ok(CondKind::Bool(e))
        }
    }

    #[verifier::rlimit(100)]
    #[verifier::spinoff_prover]
    fn parse_while(&mut self) -> (r: PResult<Stmt>)
        requires
            old(self).wf(),
        ensures
            final(self).moved(old(self)),
            r is Ok ==> final(self).labels@ == old(self).labels@,
            r is Ok ==> final(self).pos > old(self).pos,
            parse_failure(r, old(self).file@),
            r matches Ok(st) ==> stmt_wf(st),
            r matches Ok(st) ==> st is While || st is WhileCase,
            stmt_parsed(while_at(old(self).tokens@, old(self).pos as int, views(old(self).labels@)), r, final(self).pos as int, old(self).tokens@),
        decreases old(self).tokens@.len() - old(self).pos, 17int,
    {
        self.expect(&Tok::While)?;
        if self.eat(&Tok::Case) {
            let pattern = self.parse_pattern()?;
            self.expect(&Tok::Assign)?;
            let expr = self.parse_expr()?;
            let body = self.parse_block()?;
            return Ok(Stmt::WhileCase { pattern, expr, body });
        }
        let cond = self.parse_expr()?;
        let body = self.parse_block()?;
        Ok(Stmt::While { cond, body })
    }

    #[verifier::rlimit(100)]
    #[verifier::spinoff_prover]
    fn parse_for(&mut self) -> (r: PResult<Stmt>)
        requires
            old(self).wf(),
        ensures
            final(self).moved(old(self)),
            r is Ok ==> final(self).labels@ == old(self).labels@,
            r is Ok ==> final(self).pos > old(self).pos,
            parse_failure(r, old(self).file@),
            r matches Ok(st) ==> stmt_wf(st),
            r matches Ok(st) ==> st is For,
            stmt_parsed(for_at(old(self).tokens@, old(self).pos as int, views(old(self).labels@)), r, final(self).pos as int, old(self).tokens@),
        decreases old(self).tokens@.len() - old(self).pos, 17int,
    {
        self.expect(&Tok::For)?;
        let pattern = self.parse_pattern()?;
        self.expect(&Tok::In)?;
        let iter_borrow = if self.is(&Tok::Mut) && self.is2(&Tok::Ref) {
            self.bump();
            self.bump();
            Borrow::MutRef
        } else if self.eat(&Tok::Ref) {
            Borrow::Ref
        } else {
            Borrow::Owned
        };
        let iter = self.parse_expr()?;
        let body = self.parse_block()?;
        Ok(Stmt::For { pattern, iter, iter_borrow, body })
    }

    fn parse_loop(&mut self) -> (r: PResult<Stmt>)
        requires
            old(self).wf(),
        ensures
            final(self).moved(old(self)),
            r is Ok ==> final(self).labels@ == old(self).labels@,
            r is Ok ==> final(self).pos > old(self).pos,
            parse_failure(r, old(self).file@),
            r matches Ok(st) ==> stmt_wf(st),
            r matches Ok(st) ==> st is Loop,
            stmt_parsed(stmt_from_loop(loop_parts_at(old(self).tokens@, old(self).pos as int, views(old(self).labels@))), r, final(self).pos as int, old(self).tokens@),
        decreases old(self).tokens@.len() - old(self).pos, 19int,
    {
        let (label, body) = self.parse_loop_parts()?;
        Ok(Stmt::Loop { label, body })
    }

    fn parse_loop_parts(&mut self) -> (r: PResult<(Option<String>, Vec<Stmt>)>)
        requires
            old(self).wf(),
        ensures
            final(self).moved(old(self)),
            r is Ok ==> final(self).labels@ == old(self).labels@,
            r is Ok ==> final(self).pos > old(self).pos,
            parse_failure(r, old(self).file@),
            r matches Ok((_, b)) ==> stmts_wf(b@),
            loop_parsed(loop_parts_at(old(self).tokens@, old(self).pos as int, views(old(self).labels@)), r, final(self).pos as int, old(self).tokens@),
        decreases old(self).tokens@.len() - old(self).pos, 17int,
    {
        self.expect(&Tok::Loop)?;
        let label = if self.eat(&Tok::As) {
            Some(self.expect_ident()?)
        } else {
            None
        };
        match &label {
            Some(l) => {
                let ghost before = self.labels@;
                self.labels.push(l.clone());
                assert(views(self.labels@) =~= views(before).push(l@));
            },
            None => {},
        }
        let ghost pushed = self.labels@;
        let body = self.parse_block()?;
        if label.is_some() {
            self.labels.pop();
            assert(self.labels@ =~= old(self).labels@);
        }
        Ok((label, body))
    }

    // ---- patterns -------------------------------------------------------------

    fn parse_pattern(&mut self) -> (r: PResult<Pattern>)
        requires
            old(self).wf(),
        ensures
            final(self).moved(old(self)),
            r is Ok ==> final(self).labels@ == old(self).labels@,
            r is Ok ==> final(self).pos > old(self).pos,
            parse_failure(r, old(self).file@),
            pattern_parsed(pattern_at(old(self).tokens@, old(self).pos as int), r, final(self).pos as int, old(self).tokens@),
        decreases old(self).tokens@.len() - old(self).pos, 6int,
    {
        let ghost ts = self.tokens@;
        let ghost i = self.pos as int;
        let first = self.parse_pattern_atom()?;
        let ghost j = self.pos as int;
        let ghost a = pat_view(first);
        let mut pats: Vec<Pattern> = Vec::new();
        pats.push(first);
        proof {
            lemma_pat_views(pats@);
            assert(pat_views(pats@) =~= seq![a]);
        }
        while self.eat(&Tok::Pipe)
            invariant
                self.moved(old(self)),
                self.labels@ == old(self).labels@,
                self.pos > old(self).pos,
                pats@.len() > 0,
                ts == self.tokens@,
                i == old(self).pos,
                i < j <= ts.len(),
                pattern_at(ts, i) == match pat_alts(ts, j, seq![a]) {
                    Ok((alts, e)) => pattern_binding(
                        ts,
                        e,
                        if alts.len() == 1 {
                            alts[0]
                        } else {
                            PatView::Or(alts)
                        },
                    ),
                    Err(f) => Err(f),
                },
                pat_alts(ts, j, seq![a]) == pat_alts(ts, self.pos as int, pat_views(pats@)),
            decreases self.tokens@.len() - self.pos,
        {
            let ghost acc = pat_views(pats@);
            let ghost p0 = pats@;
            let p = self.parse_pattern_atom()?;
            pats.push(p);
            proof {
                assert(pats@.subrange(0, pats@.len() - 1) =~= p0);
                assert(pat_views(pats@) == acc.push(pat_view(p)));
            }
        }
        let ghost alts = pat_views(pats@);
        let ghost e = self.pos as int;
        assert(pat_alts(ts, j, seq![a]) == Ok::<(Seq<PatView>, int), ParseFailure>((alts, e)));
        proof {
            lemma_pat_views(pats@);
        }
        let mut p = if pats.len() == 1 {
            match pats.pop() {
                Some(p) => p,
                None => Pattern::Wildcard,
            }
        } else {
            Pattern::Or(pats)
        };
        assert(pat_view(p) == if alts.len() == 1 {
            alts[0]
        } else {
            PatView::Or(alts)
        });
        if self.eat(&Tok::As) {
            let name = self.expect_ident()?;
            p = Pattern::Binding { pattern: Box::new(p), name };
        }
        Ok(p)
    }

    fn parse_pattern_atom(&mut self) -> (r: PResult<Pattern>)
        requires
            old(self).wf(),
        ensures
            final(self).moved(old(self)),
            r is Ok ==> final(self).labels@ == old(self).labels@,
            r is Ok ==> final(self).pos > old(self).pos,
            parse_failure(r, old(self).file@),
            pattern_by_token(old(self).cur(), old(self).next_kind(), r),
            pattern_parsed(pat_atom_at(old(self).tokens@, old(self).pos as int), r, final(self).pos as int, old(self).tokens@),
        decreases old(self).tokens@.len() - old(self).pos, 5int,
    {
        let ghost ts = self.tokens@;
        let ghost i = self.pos as int;
        match self.peek() {
            Tok::Int(n) => {
                let n = *n;
                self.bump();
                Ok(Pattern::Literal(Expr::Int(n)))
            },
            Tok::Minus => {
                self.bump();
                match self.peek() {
                    Tok::Int(n) => {
                        let n = *n;
                        self.bump();
                        // A literal from the lexer is never negative.
                        let neg = if n == i64::MIN { n } else { -n };
                        Ok(Pattern::Literal(Expr::Int(neg)))
                    },
                    _ => {
                        proof {
                            reveal_strlit("expected number after `-` in pattern");
                        }
                        Err(self.error(String::from_str("expected number after `-` in pattern")))
                    },
                }
            },
            Tok::Str(s) => {
                let s = s.clone();
                self.bump();
                Ok(Pattern::Literal(Expr::Str(s)))
            },
            Tok::True => {
                self.bump();
                Ok(Pattern::Literal(Expr::Bool(true)))
            },
            Tok::False => {
                self.bump();
                Ok(Pattern::Literal(Expr::Bool(false)))
            },
            Tok::LParen => {
                self.bump();
                let ghost start = self.pos as int;
                let mut elems: Vec<Pattern> = Vec::new();
                assert(pat_atom_at(ts, i) == tuple_pattern(pat_list(ts, start, Seq::empty())));
                while !self.is(&Tok::RParen)
                    invariant_except_break
                        pat_list(ts, start, Seq::empty()) == pat_list(ts, self.pos as int, pat_views(elems@)),
                    invariant
                        old(self).cur() is LParen,
                        self.moved(old(self)),
                        self.labels@ == old(self).labels@,
                        self.pos > old(self).pos,
                        ts == self.tokens@,
                        i == old(self).pos,
                        pat_atom_at(ts, i) == tuple_pattern(pat_list(ts, start, Seq::empty())),
                    ensures
                        pat_list(ts, start, Seq::empty()) == pat_list_close(ts, self.pos as int, pat_views(elems@)),
                    decreases self.tokens@.len() - self.pos,
                {
                    let ghost acc = pat_views(elems@);
                    let ghost e0 = elems@;
                    let p = self.parse_pattern()?;
                    elems.push(p);
                    proof {
                        assert(elems@.subrange(0, elems@.len() - 1) =~= e0);
                        assert(pat_views(elems@) == acc.push(pat_view(p)));
                    }
                    if !self.eat(&Tok::Comma) {
                        break;
                    }
                }
                self.expect(&Tok::RParen)?;
                Ok(Pattern::Tuple(elems))
            },
            Tok::Ident(first) => {
                let first = first.clone();
                let ghost first_name = first;
                self.bump();
                let mut path: Vec<String> = Vec::new();
                path.push(first);
                assert(views(path@) =~= seq![first_name@]);
                while self.eat(&Tok::Dot)
                    invariant
                        self.moved(old(self)),
                        self.labels@ == old(self).labels@,
                        self.pos > old(self).pos,
                        path@.len() > 0,
                        old(self).cur() == Tok::Ident(first_name),
                        path@[0] == first_name,
                        ts == self.tokens@,
                        i == old(self).pos,
                        seg_rest(ts, i + 1, seq![first_name@]) == seg_rest(ts, self.pos as int, views(path@)),
                    decreases self.tokens@.len() - self.pos,
                {
                    let ghost acc = views(path@);
                    let seg = self.expect_ident()?;
                    path.push(seg);
                    assert(views(path@) =~= acc.push(seg@));
                }
                let ghost pv = views(path@);
                assert(seg_rest(ts, i + 1, seq![first_name@]) == Ok::<(Seq<Seq<char>>, int), ParseFailure>((pv, self.pos as int)));
                if self.eat(&Tok::LParen) {
                    let ghost start = self.pos as int;
                    assert(pat_atom_at(ts, i) == tuple_struct_pattern(pv, pat_list(ts, start, Seq::empty())));
                    let mut elems: Vec<Pattern> = Vec::new();
                    while !self.is(&Tok::RParen)
                        invariant_except_break
                            pat_list(ts, start, Seq::empty()) == pat_list(ts, self.pos as int, pat_views(elems@)),
                        invariant
                            old(self).cur() == Tok::Ident(first_name),
                            path@.len() > 0,
                            path@[0] == first_name,
                            self.moved(old(self)),
                            self.labels@ == old(self).labels@,
                            self.pos > old(self).pos,
                            ts == self.tokens@,
                            i == old(self).pos,
                            pv == views(path@),
                            pat_atom_at(ts, i) == tuple_struct_pattern(pv, pat_list(ts, start, Seq::empty())),
                        ensures
                            pat_list(ts, start, Seq::empty()) == pat_list_close(ts, self.pos as int, pat_views(elems@)),
                        decreases self.tokens@.len() - self.pos,
                    {
                        let ghost acc = pat_views(elems@);
                        let ghost e0 = elems@;
                        let p = self.parse_pattern()?;
                        elems.push(p);
                        proof {
                            assert(elems@.subrange(0, elems@.len() - 1) =~= e0);
                            assert(pat_views(elems@) == acc.push(pat_view(p)));
                        }
                        if !self.eat(&Tok::Comma) {
                            break;
                        }
                    }
                    self.expect(&Tok::RParen)?;
                    Ok(Pattern::TupleStruct { path, elems })
                } else if path.len() == 1 {
                    match path.pop() {
                        Some(name) => Ok(Pattern::Ident(name)),
                        None => Ok(Pattern::Wildcard),
                    }
                } else {
                    Ok(Pattern::Path(path))
                }
            },
            other => {
                let mut msg = String::from_str("expected pattern, found ");
                msg.append(other.debug().as_str());
                proof {
                    reveal_strlit("expected pattern, found ");
                }
                Err(self.error(msg))
            },
        }
    }

    // ---- expressions ----------------------------------------------------------

    fn parse_expr(&mut self) -> (r: PResult<Expr>)
        requires
            old(self).wf(),
        ensures
            final(self).moved(old(self)),
            r is Ok ==> final(self).labels@ == old(self).labels@,
            r is Ok ==> final(self).pos > old(self).pos,
            parse_failure(r, old(self).file@),
            r matches Ok(e) ==> expr_wf(e),
            expr_parsed(expr_at(old(self).tokens@, old(self).pos as int, views(old(self).labels@)), r, final(self).pos as int, old(self).tokens@),
        decreases old(self).tokens@.len() - old(self).pos, 18int,
    {
        proof {
            reveal_strlit("`if` used as a value must have an `else` branch");
        }
        match self.peek() {
            Tok::If => {
                let (arms, else_body) = self.parse_if_common()?;
                match else_body {
                    Some(else_body) => Ok(Expr::If(Box::new(IfExpr { arms, else_body }))),
                    None => Err(
                        self.error(
                            String::from_str("`if` used as a value must have an `else` branch"),
                        ),
                    ),
                }
            },
            Tok::Match => {
                let m = self.parse_match()?;
                Ok(Expr::Match(Box::new(m)))
            },
            Tok::Fn => self.parse_closure(false),
            Tok::Move => {
                if self.is2(&Tok::Fn) {
                    self.bump();
                    self.parse_closure(true)
                } else {
                    self.parse_range()
                }
            },
            Tok::Loop => {
                let (label, body) = self.parse_loop_parts()?;
                Ok(Expr::Loop { label, body })
            },
            _ => self.parse_range(),
        }
    }

    #[verifier::rlimit(100)]
    #[verifier::spinoff_prover]
    fn parse_closure(&mut self, is_move: bool) -> (r: PResult<Expr>)
        requires
            old(self).wf(),
        ensures
            final(self).moved(old(self)),
            r is Ok ==> final(self).labels@ == old(self).labels@,
            r is Ok ==> final(self).pos > old(self).pos,
            parse_failure(r, old(self).file@),
            r matches Ok(e) ==> expr_wf(e),
            expr_parsed(closure_at(old(self).tokens@, old(self).pos as int, views(old(self).labels@), is_move), r, final(self).pos as int, old(self).tokens@),
        decreases old(self).tokens@.len() - old(self).pos, 17int,
    {
        let ghost ts = self.tokens@;
        let ghost i = self.pos as int;
        let ghost L = views(self.labels@);
        proof {
            reveal_strlit("_");
        }
        self.expect(&Tok::Fn)?;
        self.expect(&Tok::LParen)?;
        let ghost start = self.pos as int;
        assert(closure_at(ts, i, L, is_move) == closure_tail(ts, i, L, is_move, closure_params(ts, start, L, Seq::empty())));
        let mut params: Vec<Param> = Vec::new();
        assert(param_views(params@) =~= Seq::<(Seq<char>, TypeView)>::empty());
        while !self.is(&Tok::RParen)
            invariant_except_break
                closure_params(ts, start, L, Seq::empty()) is None || closure_params(ts, start, L, Seq::empty())
                    == closure_params(ts, self.pos as int, L, param_views(params@)),
            invariant
                params_wf(params@),
                self.moved(old(self)),
                self.labels@ == old(self).labels@,
                self.pos > old(self).pos,
                ts == self.tokens@,
                i == old(self).pos,
                L == views(old(self).labels@),
                closure_at(ts, i, L, is_move) == closure_tail(ts, i, L, is_move, closure_params(ts, start, L, Seq::empty())),
            ensures
                closure_params(ts, start, L, Seq::empty()) is None || closure_params(ts, start, L, Seq::empty())
                    == closure_params_close(ts, self.pos as int, param_views(params@)),
            decreases self.tokens@.len() - self.pos,
        {
            let ghost acc = param_views(params@);
            let name = self.expect_ident()?;
            let ty = if self.eat(&Tok::Colon) {
                self.parse_type()?
            } else {
                let mut segs: Vec<String> = Vec::new();
                segs.push(String::from_str("_"));
                let no_args: Vec<Type> = Vec::new();
                assert(types_wf(no_args@));
                let t = Type::Path { segments: segs, args: no_args };
                assert(type_wf(t));
                assert(views(segs@) =~= seq!["_"@]);
                assert(type_views(no_args@) =~= Seq::<TypeView>::empty());
                t
            };
            params.push(Param { name, ty });
            assert(param_views(params@) =~= acc.push((name@, type_view(ty))));
            if !self.eat(&Tok::Comma) {
                break;
            }
        }
        self.expect(&Tok::RParen)?;
        let ret = if self.eat(&Tok::Arrow) {
            Some(self.parse_type()?)
        } else {
            None
        };
        let body = self.parse_block()?;
        Ok(Expr::Closure { is_move, params, ret, body })
    }

    fn parse_range(&mut self) -> (r: PResult<Expr>)
        requires
            old(self).wf(),
        ensures
            final(self).moved(old(self)),
            r is Ok ==> final(self).labels@ == old(self).labels@,
            r is Ok ==> final(self).pos > old(self).pos,
            parse_failure(r, old(self).file@),
            r matches Ok(e) ==> expr_wf(e),
            expr_parsed(range_at(old(self).tokens@, old(self).pos as int, views(old(self).labels@)), r, final(self).pos as int, old(self).tokens@),
        decreases old(self).tokens@.len() - old(self).pos, 16int,
    {
        let ghost ts = self.tokens@;
        let ghost i = self.pos as int;
        let start = self.parse_or()?;
        if self.is(&Tok::DotDot) || self.is(&Tok::DotDotEq) {
            let inclusive = self.is(&Tok::DotDotEq);
            self.bump();
            let end = if self.range_end_follows() {
                Some(Box::new(self.parse_or()?))
            } else {
                None
            };
            return Ok(Expr::Range { start: Some(Box::new(start)), end, inclusive });
        }
        Ok(start)
    }

    fn range_end_follows(&self) -> (r: bool)
        requires
            self.wf(),
        ensures
            r == !(self.cur() is Newline || self.cur() is Dedent || self.cur() is Eof
                || self.cur() is Colon || self.cur() is RParen || self.cur() is RBracket),
    {
        match self.peek() {
            Tok::Newline | Tok::Dedent | Tok::Eof | Tok::Colon | Tok::RParen | Tok::RBracket => false,
            _ => true,
        }
    }

    fn parse_or(&mut self) -> (r: PResult<Expr>)
        requires
            old(self).wf(),
        ensures
            final(self).moved(old(self)),
            r is Ok ==> final(self).labels@ == old(self).labels@,
            r is Ok ==> final(self).pos > old(self).pos,
            parse_failure(r, old(self).file@),
            r matches Ok(e) ==> expr_wf(e),
            expr_parsed(or_at(old(self).tokens@, old(self).pos as int, views(old(self).labels@)), r, final(self).pos as int, old(self).tokens@),
        decreases old(self).tokens@.len() - old(self).pos, 15int,
    {
        let ghost ts = self.tokens@;
        let ghost i = self.pos as int;
        let mut lhs = self.parse_and()?;
        while self.eat(&Tok::Or)
            invariant
                expr_wf(lhs),
                self.moved(old(self)),
                self.labels@ == old(self).labels@,
                self.pos > old(self).pos,
                ts == self.tokens@,
                i == old(self).pos,
                or_at(ts, i, views(old(self).labels@)) is None || or_at(ts, i, views(old(self).labels@)) == or_rest(ts, self.pos as int, expr_view(lhs), views(old(self).labels@)),
            decreases self.tokens@.len() - self.pos,
        {
            let rhs = self.parse_and()?;
            lhs = Expr::Binary { op: BinaryOp::Or, lhs: Box::new(lhs), rhs: Box::new(rhs) };
        }
        Ok(lhs)
    }

    fn parse_and(&mut self) -> (r: PResult<Expr>)
        requires
            old(self).wf(),
        ensures
            final(self).moved(old(self)),
            r is Ok ==> final(self).labels@ == old(self).labels@,
            r is Ok ==> final(self).pos > old(self).pos,
            parse_failure(r, old(self).file@),
            r matches Ok(e) ==> expr_wf(e),
            expr_parsed(and_at(old(self).tokens@, old(self).pos as int, views(old(self).labels@)), r, final(self).pos as int, old(self).tokens@),
        decreases old(self).tokens@.len() - old(self).pos, 14int,
    {
        let ghost ts = self.tokens@;
        let ghost i = self.pos as int;
        let mut lhs = self.parse_not()?;
        while self.eat(&Tok::And)
            invariant
                expr_wf(lhs),
                self.moved(old(self)),
                self.labels@ == old(self).labels@,
                self.pos > old(self).pos,
                ts == self.tokens@,
                i == old(self).pos,
                and_at(ts, i, views(old(self).labels@)) is None || and_at(ts, i, views(old(self).labels@)) == and_rest(ts, self.pos as int, expr_view(lhs), views(old(self).labels@)),
            decreases self.tokens@.len() - self.pos,
        {
            let rhs = self.parse_not()?;
            lhs = Expr::Binary { op: BinaryOp::And, lhs: Box::new(lhs), rhs: Box::new(rhs) };
        }
        Ok(lhs)
    }

    fn parse_not(&mut self) -> (r: PResult<Expr>)
        requires
            old(self).wf(),
        ensures
            final(self).moved(old(self)),
            r is Ok ==> final(self).labels@ == old(self).labels@,
            r is Ok ==> final(self).pos > old(self).pos,
            parse_failure(r, old(self).file@),
            r matches Ok(e) ==> expr_wf(e),
            expr_parsed(not_at(old(self).tokens@, old(self).pos as int, views(old(self).labels@)), r, final(self).pos as int, old(self).tokens@),
        decreases old(self).tokens@.len() - old(self).pos, 13int,
    {
        if self.eat(&Tok::Not) {
            let expr = self.parse_not()?;
            return Ok(Expr::Unary { op: UnaryOp::Not, expr: Box::new(expr) });
        }
        self.parse_comparison()
    }

    fn parse_comparison(&mut self) -> (r: PResult<Expr>)
        requires
            old(self).wf(),
        ensures
            final(self).moved(old(self)),
            r is Ok ==> final(self).labels@ == old(self).labels@,
            r is Ok ==> final(self).pos > old(self).pos,
            parse_failure(r, old(self).file@),
            r matches Ok(e) ==> expr_wf(e),
            expr_parsed(comparison_at(old(self).tokens@, old(self).pos as int, views(old(self).labels@)), r, final(self).pos as int, old(self).tokens@),
        decreases old(self).tokens@.len() - old(self).pos, 12int,
    {
        let ghost ts = self.tokens@;
        let ghost i = self.pos as int;
        let mut lhs = self.parse_additive()?;
        loop
            invariant
                expr_wf(lhs),
                self.moved(old(self)),
                self.labels@ == old(self).labels@,
                self.pos > old(self).pos,
                ts == self.tokens@,
                i == old(self).pos,
                comparison_at(ts, i, views(old(self).labels@)) is None || comparison_at(ts, i, views(old(self).labels@)) == comparison_rest(ts, self.pos as int, expr_view(lhs), views(old(self).labels@)),
            ensures
                spec_comparison_op(tok_at(ts, self.pos as int)) is None,
            decreases self.tokens@.len() - self.pos,
        {
            let op = match comparison_op(self.peek()) {
                Some(op) => op,
                None => break,
            };
            self.bump();
            let rhs = self.parse_additive()?;
            lhs = Expr::Binary { op, lhs: Box::new(lhs), rhs: Box::new(rhs) };
        }
        Ok(lhs)
    }

    fn parse_additive(&mut self) -> (r: PResult<Expr>)
        requires
            old(self).wf(),
        ensures
            final(self).moved(old(self)),
            r is Ok ==> final(self).labels@ == old(self).labels@,
            r is Ok ==> final(self).pos > old(self).pos,
            parse_failure(r, old(self).file@),
            r matches Ok(e) ==> expr_wf(e),
            expr_parsed(additive_at(old(self).tokens@, old(self).pos as int, views(old(self).labels@)), r, final(self).pos as int, old(self).tokens@),
        decreases old(self).tokens@.len() - old(self).pos, 11int,
    {
        let ghost ts = self.tokens@;
        let ghost i = self.pos as int;
        let mut lhs = self.parse_multiplicative()?;
        loop
            invariant
                expr_wf(lhs),
                self.moved(old(self)),
                self.labels@ == old(self).labels@,
                self.pos > old(self).pos,
                ts == self.tokens@,
                i == old(self).pos,
                additive_at(ts, i, views(old(self).labels@)) is None || additive_at(ts, i, views(old(self).labels@)) == additive_rest(ts, self.pos as int, expr_view(lhs), views(old(self).labels@)),
            ensures
                additive_op(tok_at(ts, self.pos as int)) is None,
            decreases self.tokens@.len() - self.pos,
        {
            let op = match self.peek() {
                Tok::Plus => BinaryOp::Add,
                Tok::Minus => BinaryOp::Sub,
                _ => break,
            };
            self.bump();
            let rhs = self.parse_multiplicative()?;
            lhs = Expr::Binary { op, lhs: Box::new(lhs), rhs: Box::new(rhs) };
        }
        Ok(lhs)
    }

    fn parse_multiplicative(&mut self) -> (r: PResult<Expr>)
        requires
            old(self).wf(),
        ensures
            final(self).moved(old(self)),
            r is Ok ==> final(self).labels@ == old(self).labels@,
            r is Ok ==> final(self).pos > old(self).pos,
            parse_failure(r, old(self).file@),
            r matches Ok(e) ==> expr_wf(e),
            expr_parsed(multiplicative_at(old(self).tokens@, old(self).pos as int, views(old(self).labels@)), r, final(self).pos as int, old(self).tokens@),
        decreases old(self).tokens@.len() - old(self).pos, 10int,
    {
        let ghost ts = self.tokens@;
        let ghost i = self.pos as int;
        let mut lhs = self.parse_unary()?;
        loop
            invariant
                expr_wf(lhs),
                self.moved(old(self)),
                self.labels@ == old(self).labels@,
                self.pos > old(self).pos,
                ts == self.tokens@,
                i == old(self).pos,
                multiplicative_at(ts, i, views(old(self).labels@)) is None || multiplicative_at(ts, i, views(old(self).labels@)) == multiplicative_rest(ts, self.pos as int, expr_view(lhs), views(old(self).labels@)),
            ensures
                multiplicative_op(tok_at(ts, self.pos as int)) is None,
            decreases self.tokens@.len() - self.pos,
        {
            let op = match self.peek() {
                Tok::Star => BinaryOp::Mul,
                Tok::Slash => BinaryOp::Div,
                Tok::Percent => BinaryOp::Rem,
                _ => break,
            };
            self.bump();
            let rhs = self.parse_unary()?;
            lhs = Expr::Binary { op, lhs: Box::new(lhs), rhs: Box::new(rhs) };
        }
        Ok(lhs)
    }

    #[verifier::rlimit(100)]
    #[verifier::spinoff_prover]
    fn parse_unary(&mut self) -> (r: PResult<Expr>)
        requires
            old(self).wf(),
        ensures
            final(self).moved(old(self)),
            r is Ok ==> final(self).labels@ == old(self).labels@,
            r is Ok ==> final(self).pos > old(self).pos,
            parse_failure(r, old(self).file@),
            r matches Ok(e) ==> expr_wf(e),
            expr_parsed(unary_at(old(self).tokens@, old(self).pos as int, views(old(self).labels@)), r, final(self).pos as int, old(self).tokens@),
        decreases old(self).tokens@.len() - old(self).pos, 9int,
    {
        match self.peek() {
            Tok::Minus => {
                self.bump();
                let e = self.parse_unary()?;
                Ok(Expr::Unary { op: UnaryOp::Neg, expr: Box::new(e) })
            },
            Tok::Ref => {
                self.bump();
                let e = self.parse_unary()?;
                Ok(Expr::Ref { mutable: false, expr: Box::new(e) })
            },
            Tok::Mut => {
                if self.is2(&Tok::Ref) {
                    self.bump();
                    self.bump();
                    let e = self.parse_unary()?;
                    Ok(Expr::Ref { mutable: true, expr: Box::new(e) })
                } else {
                    self.parse_postfix()
                }
            },
            Tok::At | Tok::Clone | Tok::Move => self.parse_unary_word(),
            _ => self.parse_postfix(),
        }
    }

    /// `@e`, `clone e` and `move e`.
    #[verifier::rlimit(100)]
    #[verifier::spinoff_prover]
    fn parse_unary_word(&mut self) -> (r: PResult<Expr>)
        requires
            old(self).wf(),
            old(self).cur() is At || old(self).cur() is Clone || old(self).cur() is Move,
        ensures
            final(self).moved(old(self)),
            r is Ok ==> final(self).labels@ == old(self).labels@,
            r is Ok ==> final(self).pos > old(self).pos,
            parse_failure(r, old(self).file@),
            r matches Ok(e) ==> expr_wf(e),
            expr_parsed(unary_at(old(self).tokens@, old(self).pos as int, views(old(self).labels@)), r, final(self).pos as int, old(self).tokens@),
        decreases old(self).tokens@.len() - old(self).pos, 8int,
    {
        match self.peek() {
            Tok::At => {
                self.bump();
                let e = self.parse_unary()?;
                Ok(Expr::Deref(Box::new(e)))
            },
            Tok::Clone => {
                self.bump();
                let e = self.parse_unary()?;
                Ok(Expr::CloneExpr(Box::new(e)))
            },
            _ => {
                self.bump();
                let e = self.parse_unary()?;
                Ok(Expr::Move(Box::new(e)))
            },
        }
    }

    #[verifier::rlimit(100)]
    #[verifier::spinoff_prover]
    fn parse_postfix(&mut self) -> (r: PResult<Expr>)
        requires
            old(self).wf(),
        ensures
            final(self).moved(old(self)),
            r is Ok ==> final(self).labels@ == old(self).labels@,
            r is Ok ==> final(self).pos > old(self).pos,
            parse_failure(r, old(self).file@),
            r matches Ok(e) ==> expr_wf(e),
            postfix_by_token(old(self).cur(), old(self).next_kind(), r),
            expr_parsed(postfix_at(old(self).tokens@, old(self).pos as int, views(old(self).labels@)), r, final(self).pos as int, old(self).tokens@),
        decreases old(self).tokens@.len() - old(self).pos, 8int,
    {
        let ghost ts = self.tokens@;
        let ghost i = self.pos as int;
        let mut e = self.parse_primary()?;
        let ghost first = e;
        let ghost settled = is_atom_token(old(self).cur()) && !continues_postfix(old(self).next_kind());
        assert(primary_by_token(old(self).cur(), Ok::<Expr, TinysError>(first)));
        loop
            invariant
                settled == (is_atom_token(old(self).cur()) && !continues_postfix(old(self).next_kind())),
                settled ==> self.pos == old(self).pos + 1 && e == first,
                primary_by_token(old(self).cur(), Ok::<Expr, TinysError>(first)),
                expr_wf(e),
                self.moved(old(self)),
                self.labels@ == old(self).labels@,
                self.pos > old(self).pos,
                ts == self.tokens@,
                i == old(self).pos,
                postfix_at(ts, i, views(old(self).labels@)) is None || postfix_at(ts, i, views(old(self).labels@)) == postfix_rest(ts, self.pos as int, expr_view(e), views(old(self).labels@)),
            ensures
                !(tok_at(ts, self.pos as int) is LParen || tok_at(ts, self.pos as int) is LBracket
                    || tok_at(ts, self.pos as int) is Dot || tok_at(ts, self.pos as int) is Question),
            decreases self.tokens@.len() - self.pos,
        {
            let ghost iter_start = self.pos;
            let ghost ev = expr_view(e);
            proof {
                if settled {
                    assert(self.tokens@ == old(self).tokens@);
                    assert(self.cur() == old(self).next_kind());
                }
            }
            if self.is(&Tok::LParen) {
                let args = self.parse_call_args()?;
                e = Expr::Call { callee: Box::new(e), type_args: Vec::new(), args };
                proof {
                    assert(type_views(Seq::<Type>::empty()) =~= Seq::<TypeView>::empty());
                }
            } else if self.is(&Tok::LBracket) {
                if self.is_turbofish() {
                    self.bump();
                    let ghost tstart = self.pos as int;
                    let mut type_args: Vec<Type> = Vec::new();
                    while !self.is(&Tok::RBracket)
                        invariant_except_break
                            turbofish_types(ts, tstart, Seq::empty()) is None || turbofish_types(ts, tstart, Seq::empty())
                                == turbofish_types(ts, self.pos as int, type_views(type_args@)),
                        invariant
                            !settled,
                            settled == (is_atom_token(old(self).cur()) && !continues_postfix(
                                old(self).next_kind(),
                            )),
                            primary_by_token(old(self).cur(), Ok::<Expr, TinysError>(first)),
                            types_wf(type_args@),
                            expr_wf(e),
                            self.pos > iter_start,
                            self.moved(old(self)),
                            self.labels@ == old(self).labels@,
                            self.pos > old(self).pos,
                            ts == self.tokens@,
                            i == old(self).pos,
                            tstart == iter_start + 1,
                            ev == expr_view(e),
                            tok_at(ts, iter_start as int) is LBracket,
                            turbofish_from(ts, iter_start as int, 0),
                            postfix_at(ts, i, views(old(self).labels@)) is None || postfix_at(ts, i, views(old(self).labels@)) == postfix_rest(ts, iter_start as int, ev, views(old(self).labels@)),
                        ensures
                            turbofish_types(ts, tstart, Seq::empty()) is None || turbofish_types(ts, tstart, Seq::empty())
                                == type_list_close(ts, self.pos as int, type_views(type_args@), true),
                        decreases self.tokens@.len() - self.pos,
                    {
                        let ghost acc = type_views(type_args@);
                        let ghost a0 = type_args@;
                        let t = self.parse_type()?;
                        type_args.push(t);
                        proof {
                            assert(type_args@.subrange(0, type_args@.len() - 1) =~= a0);
                            assert(type_views(type_args@) == acc.push(type_view(t)));
                        }
                        if !self.eat(&Tok::Comma) {
                            break;
                        }
                    }
                    self.expect(&Tok::RBracket)?;
                    let args = self.parse_call_args()?;
                    e = Expr::Call { callee: Box::new(e), type_args, args };
                } else {
                    self.bump();
                    let index = self.parse_expr()?;
                    self.expect(&Tok::RBracket)?;
                    e = Expr::Index { recv: Box::new(e), index: Box::new(index) };
                }
            } else if self.is(&Tok::Dot) {
                self.bump();
                if self.eat(&Tok::Await) {
                    e = Expr::Await(Box::new(e));
                } else {
                    let name = self.parse_member_name()?;
                    e = Expr::Field { recv: Box::new(e), name };
                }
            } else if self.is(&Tok::Question) {
                self.bump();
                e = Expr::Try(Box::new(e));
            } else {
                break;
            }
        }
        Ok(e)
    }

    /// A member name after `.`: an identifier, a tuple index, or the keyword
    /// `clone` naming a method.
    fn parse_member_name(&mut self) -> (r: PResult<String>)
        requires
            old(self).wf(),
        ensures
            final(self).moved(old(self)),
            r is Ok ==> final(self).labels@ == old(self).labels@,
            r is Ok ==> final(self).pos > old(self).pos,
            parse_failure(r, old(self).file@),
            match member_at(old(self).tokens@, old(self).pos as int) {
                Ok((n, k)) => r matches Ok(s) && s@ == n && final(self).pos == k,
                Err((m, at)) => r matches Err(x) && x.message@ == m && 0 <= at < old(self).tokens@.len()
                    && x.span == old(self).tokens@[at].span,
            },
    {
        match self.peek() {
            Tok::Ident(s) => {
                let s = s.clone();
                self.bump();
                Ok(s)
            },
            Tok::Int(n) => {
                let s = i64_to_string(*n);
                self.bump();
                Ok(s)
            },
            Tok::Clone => {
                self.bump();
                proof {
                    reveal_strlit("clone");
                }
                Ok(String::from_str("clone"))
            },
            other => {
                let mut msg = String::from_str("expected field or method name, found ");
                msg.append(other.debug().as_str());
                proof {
                    reveal_strlit("expected field or method name, found ");
                }
                Err(self.error(msg))
            },
        }
    }

    /// Tells `f[T](...)` (generic arguments) from `xs[i]` (an index) by
    /// scanning to the matching `]` and checking whether a `(` follows.
    fn is_turbofish(&self) -> (r: bool)
        requires
            self.wf(),
            self.cur() is LBracket,
        ensures
            r == turbofish_from(self.tokens@, self.pos as int, 0),
    {
        let mut depth: usize = 0;
        let mut i = self.pos;
        loop
            invariant
                self.wf(),
                self.pos <= i,
                self.cur() is LBracket,
                depth <= i - self.pos,
                i > self.pos ==> depth >= 1,
                turbofish_from(self.tokens@, i as int, depth as int) == turbofish_from(
                    self.tokens@,
                    self.pos as int,
                    0,
                ),
            decreases self.tokens@.len() - i,
        {
            if i >= self.tokens.len() {
                return false;
            }
            match &self.tokens[i].kind {
                Tok::LBracket => {
                    depth = depth + 1;
                },
                Tok::RBracket => {
                    depth = depth - 1;
                    if depth == 0 {
                        return i + 1 < self.tokens.len() && match &self.tokens[i + 1].kind {
                            Tok::LParen => true,
                            _ => false,
                        };
                    }
                },
                Tok::Eof => {
                    return false;
                },
                _ => {},
            }
            i = i + 1;
        }
    }

    #[verifier::rlimit(100)]
    #[verifier::spinoff_prover]
    fn parse_call_args(&mut self) -> (r: PResult<Vec<Arg>>)
        requires
            old(self).wf(),
        ensures
            final(self).moved(old(self)),
            r is Ok ==> final(self).labels@ == old(self).labels@,
            r is Ok ==> final(self).pos > old(self).pos,
            parse_failure(r, old(self).file@),
            r matches Ok(a) ==> args_wf(a@),
            args_parsed(call_args_at(old(self).tokens@, old(self).pos as int, views(old(self).labels@)), r, final(self).pos as int, old(self).tokens@),
        decreases old(self).tokens@.len() - old(self).pos, 7int,
    {
        let ghost ts = self.tokens@;
        let ghost i = self.pos as int;
        self.expect(&Tok::LParen)?;
        let ghost start = self.pos as int;
        let mut args: Vec<Arg> = Vec::new();
        assert(call_args_at(ts, i, views(old(self).labels@)) == arg_list(ts, start, Seq::empty(), views(old(self).labels@)));
        while !self.is(&Tok::RParen)
            invariant_except_break
                arg_list(ts, start, Seq::empty(), views(old(self).labels@)) is None || arg_list(ts, start, Seq::empty(), views(old(self).labels@))
                    == arg_list(ts, self.pos as int, arg_views(args@), views(old(self).labels@)),
            invariant
                args_wf(args@),
                self.moved(old(self)),
                self.labels@ == old(self).labels@,
                self.pos > old(self).pos,
                ts == self.tokens@,
                i == old(self).pos,
                start == i + 1,
                call_args_at(ts, i, views(old(self).labels@)) == arg_list(ts, start, Seq::empty(), views(old(self).labels@)),
            ensures
                arg_list(ts, start, Seq::empty(), views(old(self).labels@)) is None || arg_list(ts, start, Seq::empty(), views(old(self).labels@))
                    == args_close(ts, self.pos as int, arg_views(args@)),
            decreases self.tokens@.len() - self.pos,
        {
            let ghost acc = arg_views(args@);
            let ghost a0 = args@;
            // Keyword argument `name=value`, a struct-literal field.
            let kw = match self.peek() {
                Tok::Ident(name) => {
                    if self.is2(&Tok::Assign) {
                        Some(name.clone())
                    } else {
                        None
                    }
                },
                _ => None,
            };
            match kw {
                Some(name) => {
                    self.bump();
                    self.bump();
                    let value = self.parse_expr()?;
                    args.push(Arg::Keyword(name, value));
                    proof {
                        assert(args@.subrange(0, args@.len() - 1) =~= a0);
                        assert(arg_views(args@) == acc.push((Some(name@), expr_view(value))));
                    }
                    if !self.eat(&Tok::Comma) {
                        break;
                    }
                    continue;
                },
                None => {},
            }
            let e = self.parse_expr()?;
            args.push(Arg::Positional(e));
            proof {
                assert(args@.subrange(0, args@.len() - 1) =~= a0);
                assert(arg_views(args@) == acc.push((None, expr_view(e))));
            }
            if !self.eat(&Tok::Comma) {
                break;
            }
        }
        self.expect(&Tok::RParen)?;
        Ok(args)
    }

    fn parse_primary(&mut self) -> (r: PResult<Expr>)
        requires
            old(self).wf(),
        ensures
            final(self).moved(old(self)),
            r is Ok ==> final(self).labels@ == old(self).labels@,
            r is Ok ==> final(self).pos > old(self).pos,
            parse_failure(r, old(self).file@),
            r matches Ok(e) ==> expr_wf(e),
            primary_by_token(old(self).cur(), r),
            is_atom_token(old(self).cur()) ==> r is Ok && final(self).pos == old(self).pos + 1,
            expr_parsed(primary_at(old(self).tokens@, old(self).pos as int, views(old(self).labels@)), r, final(self).pos as int, old(self).tokens@),
        decreases old(self).tokens@.len() - old(self).pos, 7int,
    {
        let ghost ts = self.tokens@;
        let ghost i = self.pos as int;
        match self.peek() {
            Tok::Int(n) => {
                let n = *n;
                self.bump();
                Ok(Expr::Int(n))
            },
            Tok::Float(f) => {
                let f = f.clone();
                self.bump();
                Ok(Expr::Float(f))
            },
            Tok::Str(s) => {
                let s = s.clone();
                self.bump();
                Ok(Expr::Str(s))
            },
            Tok::RawStr(s) => {
                let s = s.clone();
                self.bump();
                Ok(Expr::RawStr(s))
            },
            Tok::True => {
                self.bump();
                Ok(Expr::Bool(true))
            },
            Tok::False => {
                self.bump();
                Ok(Expr::Bool(false))
            },
            Tok::Ident(name) => {
                let name = name.clone();
                self.bump();
                if str_eq(name.as_str(), "none") {
                    Ok(Expr::NoneLit)
                } else {
                    Ok(Expr::Ident(name))
                }
            },
            Tok::LParen => {
                self.bump();
                let ghost start = self.pos as int;
                let mut elems: Vec<Expr> = Vec::new();
                let mut trailing_comma = false;
                while !self.is(&Tok::RParen)
                    invariant_except_break
                        expr_list(ts, start, Seq::empty(), Tok::RParen, false, views(old(self).labels@)) is None || expr_list(ts, start, Seq::empty(), Tok::RParen, false, views(old(self).labels@))
                            == expr_list(ts, self.pos as int, expr_views(elems@), Tok::RParen, trailing_comma, views(old(self).labels@)),
                    invariant
                        old(self).cur() is LParen,
                        exprs_wf(elems@),
                        self.moved(old(self)),
                        self.labels@ == old(self).labels@,
                        self.pos > old(self).pos,
                        ts == self.tokens@,
                        i == old(self).pos,
                        start == i + 1,
                    ensures
                        expr_list(ts, start, Seq::empty(), Tok::RParen, false, views(old(self).labels@)) is None || expr_list(ts, start, Seq::empty(), Tok::RParen, false, views(old(self).labels@))
                            == list_close(ts, self.pos as int, expr_views(elems@), Tok::RParen, trailing_comma),
                    decreases self.tokens@.len() - self.pos,
                {
                    let ghost acc = expr_views(elems@);
                    let ghost e0 = elems@;
                    let e = self.parse_expr()?;
                    elems.push(e);
                    proof {
                        assert(elems@.subrange(0, elems@.len() - 1) =~= e0);
                        assert(expr_views(elems@) == acc.push(expr_view(e)));
                    }
                    if self.eat(&Tok::Comma) {
                        trailing_comma = true;
                    } else {
                        trailing_comma = false;
                        break;
                    }
                }
                self.expect(&Tok::RParen)?;
                proof {
                    lemma_expr_views(elems@);
                }
                if elems.len() == 1 && !trailing_comma {
                    match elems.pop() {
                        Some(e) => Ok(e),
                        None => Ok(Expr::Tuple(elems)),
                    }
                } else {
                    Ok(Expr::Tuple(elems))
                }
            },
            Tok::LBracket => {
                self.bump();
                let ghost start = self.pos as int;
                let mut elems: Vec<Expr> = Vec::new();
                let ghost trailing = false;
                while !self.is(&Tok::RBracket)
                    invariant_except_break
                        expr_list(ts, start, Seq::empty(), Tok::RBracket, false, views(old(self).labels@)) is None || expr_list(ts, start, Seq::empty(), Tok::RBracket, false, views(old(self).labels@))
                            == expr_list(ts, self.pos as int, expr_views(elems@), Tok::RBracket, trailing, views(old(self).labels@)),
                    invariant
                        old(self).cur() is LBracket,
                        exprs_wf(elems@),
                        self.moved(old(self)),
                        self.labels@ == old(self).labels@,
                        self.pos > old(self).pos,
                        ts == self.tokens@,
                        i == old(self).pos,
                        start == i + 1,
                    ensures
                        expr_list(ts, start, Seq::empty(), Tok::RBracket, false, views(old(self).labels@)) is None || expr_list(ts, start, Seq::empty(), Tok::RBracket, false, views(old(self).labels@))
                            == list_close(ts, self.pos as int, expr_views(elems@), Tok::RBracket, trailing),
                    decreases self.tokens@.len() - self.pos,
                {
                    let ghost acc = expr_views(elems@);
                    let ghost e0 = elems@;
                    let e = self.parse_expr()?;
                    elems.push(e);
                    proof {
                        assert(elems@.subrange(0, elems@.len() - 1) =~= e0);
                        assert(expr_views(elems@) == acc.push(expr_view(e)));
                    }
                    if !self.eat(&Tok::Comma) {
                        proof {
                            trailing = false;
                        }
                        break;
                    }
                    proof {
                        trailing = true;
                    }
                }
                self.expect(&Tok::RBracket)?;
                Ok(Expr::List(elems))
            },
            Tok::LBrace => {
                self.bump();
                let pairs = self.parse_dict_items()?;
                Ok(Expr::Dict(pairs))
            },
            other => {
                let mut msg = String::from_str("expected expression, found ");
                msg.append(other.debug().as_str());
                proof {
                    reveal_strlit("expected expression, found ");
                }
                Err(self.error(msg))
            },
        }
    }

    #[verifier::rlimit(100)]
    #[verifier::spinoff_prover]
    /// The `key: value` entries of a dict up to the closing `}`.
    #[verifier::rlimit(100)]
    #[verifier::spinoff_prover]
    fn parse_dict_items(&mut self) -> (r: PResult<Vec<(Expr, Expr)>>)
        requires
            old(self).wf(),
        ensures
            final(self).moved(old(self)),
            r is Ok ==> final(self).labels@ == old(self).labels@,
            r is Ok ==> final(self).pos > old(self).pos,
            parse_failure(r, old(self).file@),
            r matches Ok(ps) ==> pairs_wf(ps@),
            match dict_list(old(self).tokens@, old(self).pos as int, Seq::empty(), views(old(self).labels@)) {
                None => true,
                Some(Ok((ps, e))) => r matches Ok(v) && pair_views(v@) == ps && final(self).pos == e,
                Some(Err((m, at))) => r matches Err(x) && x.message@ == m && 0 <= at < old(self).tokens@.len()
                    && x.span == old(self).tokens@[at].span,
            },
        decreases old(self).tokens@.len() - old(self).pos, 30int,
    {
        let ghost ts = self.tokens@;
        let ghost start = self.pos as int;
        let ghost L = views(self.labels@);
        let mut pairs: Vec<(Expr, Expr)> = Vec::new();
        assert(pair_views(pairs@) =~= Seq::<(ExprView, ExprView)>::empty());
        while !self.is(&Tok::RBrace)
            invariant_except_break
                dict_list(ts, start, Seq::empty(), L) is None || dict_list(ts, start, Seq::empty(), L)
                    == dict_list(ts, self.pos as int, pair_views(pairs@), L),
            invariant
                pairs_wf(pairs@),
                self.moved(old(self)),
                self.labels@ == old(self).labels@,
                ts == self.tokens@,
                start == old(self).pos,
                L == views(old(self).labels@),
            ensures
                dict_list(ts, start, Seq::empty(), L) is None || dict_list(ts, start, Seq::empty(), L)
                    == dict_close(ts, self.pos as int, pair_views(pairs@)),
            decreases self.tokens@.len() - self.pos,
        {
            let ghost acc = pair_views(pairs@);
            let ghost p0 = pairs@;
            let key = self.parse_expr()?;
            self.expect(&Tok::Colon)?;
            let value = self.parse_expr()?;
            pairs.push((key, value));
            proof {
                assert(pairs@.subrange(0, pairs@.len() - 1) =~= p0);
                assert(pair_views(pairs@) == acc.push((expr_view(key), expr_view(value))));
            }
            if !self.eat(&Tok::Comma) {
                break;
            }
        }
        self.expect(&Tok::RBrace)?;
        Ok(pairs)
    }

    #[verifier::rlimit(100)]
    #[verifier::spinoff_prover]
    fn parse_match(&mut self) -> (r: PResult<MatchExpr>)
        requires
            old(self).wf(),
        ensures
            final(self).moved(old(self)),
            r is Ok ==> final(self).labels@ == old(self).labels@,
            r is Ok ==> final(self).pos > old(self).pos,
            parse_failure(r, old(self).file@),
            r matches Ok(m) ==> expr_wf(*m.scrutinee) && match_arms_wf(m.arms@),
            match_parsed(match_at(old(self).tokens@, old(self).pos as int, views(old(self).labels@)), r, final(self).pos as int, old(self).tokens@),
        decreases old(self).tokens@.len() - old(self).pos, 17int,
    {
        self.expect(&Tok::Match)?;
        let scrutinee = self.parse_expr()?;
        self.expect(&Tok::Colon)?;
        self.expect(&Tok::Newline)?;
        self.expect(&Tok::Indent)?;
        let arms = self.parse_match_arms()?;
        Ok(MatchExpr { scrutinee: Box::new(scrutinee), arms })
    }

    /// The arms of a `match`, one `case P [if g]: body` after another, up to
    /// the `Dedent`.
    #[verifier::rlimit(100)]
    #[verifier::spinoff_prover]
    fn parse_match_arms(&mut self) -> (r: PResult<Vec<MatchArm>>)
        requires
            old(self).wf(),
        ensures
            final(self).moved(old(self)),
            r is Ok ==> final(self).labels@ == old(self).labels@,
            r is Ok ==> final(self).pos > old(self).pos,
            parse_failure(r, old(self).file@),
            r matches Ok(arms) ==> match_arms_wf(arms@),
            match match_arms(old(self).tokens@, old(self).pos as int, views(old(self).labels@), Seq::empty()) {
                None => true,
                Some(Ok((a, e))) => r matches Ok(arms) && match_arm_views(arms@) == a && final(self).pos == e,
                Some(Err((m, at))) => r matches Err(x) && x.message@ == m && 0 <= at < old(self).tokens@.len()
                    && x.span == old(self).tokens@[at].span,
            },
        decreases old(self).tokens@.len() - old(self).pos, 30int,
    {
        let ghost ts = self.tokens@;
        let ghost start = self.pos as int;
        let ghost L = views(self.labels@);
        let mut arms: Vec<MatchArm> = Vec::new();
        assert(match_arm_views(arms@) =~= Seq::<(PatView, Option<ExprView>, Seq<StmtView>)>::empty());
        while !self.is(&Tok::Dedent) && !self.is(&Tok::Eof)
            invariant
                match_arms_wf(arms@),
                self.moved(old(self)),
                self.labels@ == old(self).labels@,
                ts == self.tokens@,
                start == old(self).pos,
                L == views(old(self).labels@),
                match_arms(ts, start, L, Seq::empty()) is None || match_arms(ts, start, L, Seq::empty())
                    == match_arms(ts, self.pos as int, L, match_arm_views(arms@)),
            decreases self.tokens@.len() - self.pos,
        {
            if self.eat(&Tok::Newline) {
                continue;
            }
            let ghost acc = match_arm_views(arms@);
            let ghost a0 = arms@;
            self.expect(&Tok::Case)?;
            let pattern = self.parse_pattern()?;
            let guard = if self.eat(&Tok::If) {
                Some(self.parse_expr()?)
            } else {
                None
            };
            let body = self.parse_block()?;
            let ghost arm = (pat_view(pattern), opt_expr_view(guard), stmt_views(body@));
            arms.push(MatchArm { pattern, guard, body });
            proof {
                assert(arms@.subrange(0, arms@.len() - 1) =~= a0);
                assert(match_arm_views(arms@) == acc.push(arm));
            }
        }
        self.expect(&Tok::Dedent)?;
        Ok(arms)
    }
}

/// The compound assignment a token stands for.
pub open spec fn compound_assign_op(t: Tok) -> Option<AssignOp> {
    match t {
        Tok::PlusEq => Some(AssignOp::Add),
        Tok::MinusEq => Some(AssignOp::Sub),
        Tok::StarEq => Some(AssignOp::Mul),
        Tok::SlashEq => Some(AssignOp::Div),
        Tok::PercentEq => Some(AssignOp::Rem),
        _ => None,
    }
}

/// The comparison operator a token stands for.
pub open spec fn spec_comparison_op(t: Tok) -> Option<BinaryOp> {
    match t {
        Tok::EqEq => Some(BinaryOp::Eq),
        Tok::NotEq => Some(BinaryOp::Ne),
        Tok::Lt => Some(BinaryOp::Lt),
        Tok::Gt => Some(BinaryOp::Gt),
        Tok::Le => Some(BinaryOp::Le),
        Tok::Ge => Some(BinaryOp::Ge),
        _ => None,
    }
}

fn comparison_op(t: &Tok) -> (r: Option<BinaryOp>)
    ensures
        r == spec_comparison_op(*t),
{
    match t {
        Tok::EqEq => Some(BinaryOp::Eq),
        Tok::NotEq => Some(BinaryOp::Ne),
        Tok::Lt => Some(BinaryOp::Lt),
        Tok::Gt => Some(BinaryOp::Gt),
        Tok::Le => Some(BinaryOp::Le),
        Tok::Ge => Some(BinaryOp::Ge),
        _ => None,
    }
}

} // verus!
