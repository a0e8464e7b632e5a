//! Abstract syntax tree for TinyS.

use vstd::prelude::*;

verus! {

/// A parsed `.sn` file: its items in source order.
#[derive(Debug)]
pub struct Program {
    pub items: Vec<Item>,
}

#[derive(Debug)]
pub enum Item {
    Function(Function),
    Struct(Struct),
    Enum(Enum),
    Impl(Impl),
    Trait(Trait),
    Use(Use),
}

/// The raw text inside an attribute `#[...]`.
pub type Attr = String;

#[derive(Debug, Clone)]
pub enum GenericParam {
    Type { name: String, bounds: Vec<String> },
    Lifetime(String),
}

#[derive(Debug)]
pub struct Function {
    pub attrs: Vec<Attr>,
    pub is_pub: bool,
    pub is_async: bool,
    pub is_unsafe: bool,
    pub name: String,
    pub generics: Vec<GenericParam>,
    pub params: Vec<Param>,
    pub ret: Type,
    /// `None` for trait method signatures without a default body.
    pub body: Option<Vec<Stmt>>,
}

#[derive(Debug)]
pub struct Param {
    pub name: String,
    pub ty: Type,
}

#[derive(Debug)]
pub struct Struct {
    pub attrs: Vec<Attr>,
    pub is_pub: bool,
    pub name: String,
    pub generics: Vec<GenericParam>,
    pub fields: Vec<Field>,
}

#[derive(Debug)]
pub struct Field {
    pub is_pub: bool,
    pub name: String,
    pub ty: Type,
}

#[derive(Debug)]
pub struct Enum {
    pub attrs: Vec<Attr>,
    pub is_pub: bool,
    pub name: String,
    pub generics: Vec<GenericParam>,
    pub variants: Vec<Variant>,
}

#[derive(Debug)]
pub struct Variant {
    pub name: String,
    pub payload: Vec<Type>,
}

#[derive(Debug)]
pub struct Impl {
    pub generics: Vec<GenericParam>,
    /// `Some(trait)` for `impl Trait for Type`.
    pub trait_name: Option<Type>,
    pub ty: Type,
    pub methods: Vec<Function>,
}

#[derive(Debug)]
pub struct Trait {
    pub attrs: Vec<Attr>,
    pub is_pub: bool,
    pub name: String,
    pub generics: Vec<GenericParam>,
    pub methods: Vec<Function>,
}

#[derive(Debug, Clone)]
pub struct Use {
    /// Path segments after removing the `rust`/`macro` routing root, e.g. `["serde"]`.
    pub path: Vec<String>,
    /// Imported names for `from X import a, b`; empty for `import X`.
    pub names: Vec<UseName>,
    /// Alias for `import X as Y`.
    pub alias: Option<String>,
    /// True when this came from the `macro`/`macro.*` root (no `use` emitted).
    pub is_macro: bool,
    /// True when routed through the explicit `rust` root (external crate/std).
    pub is_rust: bool,
}

#[derive(Debug, Clone)]
pub struct UseName {
    pub name: String,
    pub alias: Option<String>,
}

/// A type expression.
#[derive(Debug)]
pub enum Type {
    /// The unit type (`void`).
    Unit,
    /// A (possibly qualified) named type with generic arguments, e.g.
    /// `Option[T]` is path `["Option"]` with args `[T]`.
    Path { segments: Vec<String>, args: Vec<Type> },
    /// `ref T` / `mut ref T`, with an optional lifetime.
    Ref { mutable: bool, lifetime: Option<String>, inner: Box<Type> },
    Tuple(Vec<Type>),
    /// `array[T, N]`, which becomes `[T; N]`.
    Array { elem: Box<Type>, len: Box<Expr> },
    /// `slice[T]`, which becomes `[T]`.
    Slice(Box<Type>),
}

#[derive(Debug)]
pub enum Stmt {
    /// `x = e`, `mut x = e`, `x: T = e`.
    Let { mutable: bool, name: String, ty: Option<Type>, value: Expr },
    /// Destructuring bind `a, b = e`.
    LetTuple { names: Vec<String>, value: Expr },
    /// `target op= value`, or plain `target = value` where target is not a name.
    Assign { target: Expr, op: AssignOp, value: Expr },
    Expr(Expr),
    Return(Option<Expr>),
    If(IfChain),
    While { cond: Expr, body: Vec<Stmt> },
    /// `while case PAT = EXPR:`
    WhileCase { pattern: Pattern, expr: Expr, body: Vec<Stmt> },
    For {
        pattern: Pattern,
        iter: Expr,
        /// `for x in ref xs` / `for x in mut ref xs`.
        iter_borrow: Borrow,
        body: Vec<Stmt>,
    },
    Loop { label: Option<String>, body: Vec<Stmt> },
    Break { label: Option<String>, value: Option<Expr> },
    Continue,
    Match(MatchExpr),
    /// `unsafe:` block.
    Unsafe(Vec<Stmt>),
    Pass,
}

#[derive(Debug, Clone, Copy, PartialEq, Eq, Structural)]
pub enum Borrow {
    Owned,
    Ref,
    MutRef,
}

#[derive(Debug, Clone, Copy, PartialEq, Eq, Structural)]
pub enum AssignOp {
    Eq,
    Add,
    Sub,
    Mul,
    Div,
    Rem,
}

#[derive(Debug)]
pub struct IfChain {
    /// `(condition, body)` pairs: the `if` and each `elif`.
    pub arms: Vec<(CondKind, Vec<Stmt>)>,
    pub else_body: Option<Vec<Stmt>>,
}

#[derive(Debug)]
pub enum CondKind {
    Bool(Expr),
    /// `if case PAT = EXPR`.
    Case { pattern: Pattern, expr: Expr },
}

#[derive(Debug)]
pub struct IfExpr {
    pub arms: Vec<(CondKind, Vec<Stmt>)>,
    pub else_body: Vec<Stmt>,
}

#[derive(Debug)]
pub struct MatchExpr {
    pub scrutinee: Box<Expr>,
    pub arms: Vec<MatchArm>,
}

#[derive(Debug)]
pub struct MatchArm {
    pub pattern: Pattern,
    pub guard: Option<Expr>,
    pub body: Vec<Stmt>,
}

#[derive(Debug)]
pub enum Pattern {
    Wildcard,
    /// A binding like `value`, or `none`.
    Ident(String),
    Literal(Expr),
    Tuple(Vec<Pattern>),
    /// `Token.Number(value)` / `Some(x)`.
    TupleStruct { path: Vec<String>, elems: Vec<Pattern> },
    /// A path with no payload: `Token.Plus`.
    Path(Vec<String>),
    Or(Vec<Pattern>),
    /// `PAT as name`.
    Binding { pattern: Box<Pattern>, name: String },
}

#[derive(Debug)]
pub enum Expr {
    Int(i64),
    /// A decimal literal with a fractional part, as its digits and `.` (the
    /// `_` separators removed).
    Float(String),
    /// Inner text of a normal string literal.
    Str(String),
    RawStr(String),
    Bool(bool),
    Ident(String),
    /// The `none` literal.
    NoneLit,
    Unary { op: UnaryOp, expr: Box<Expr> },
    Binary { op: BinaryOp, lhs: Box<Expr>, rhs: Box<Expr> },
    /// Field access or path segment: `recv.name`. Codegen decides `.` vs `::`.
    Field { recv: Box<Expr>, name: String },
    Index { recv: Box<Expr>, index: Box<Expr> },
    Call {
        callee: Box<Expr>,
        /// Turbofish generic args from `f[T](...)`.
        type_args: Vec<Type>,
        args: Vec<Arg>,
    },
    /// `ref x` / `mut ref x`.
    Ref { mutable: bool, expr: Box<Expr> },
    /// `at x`, a dereference.
    Deref(Box<Expr>),
    /// `clone x`.
    CloneExpr(Box<Expr>),
    /// `move x`.
    Move(Box<Expr>),
    /// `x.await`.
    Await(Box<Expr>),
    /// `x?`.
    Try(Box<Expr>),
    Range { start: Option<Box<Expr>>, end: Option<Box<Expr>>, inclusive: bool },
    Tuple(Vec<Expr>),
    /// `[a, b, c]`.
    List(Vec<Expr>),
    /// `{k: v, ...}`.
    Dict(Vec<(Expr, Expr)>),
    If(Box<IfExpr>),
    Match(Box<MatchExpr>),
    /// A `loop` used in value position; its value comes from `break <value>`.
    Loop { label: Option<String>, body: Vec<Stmt> },
    Closure { is_move: bool, params: Vec<Param>, ret: Option<Type>, body: Vec<Stmt> },
}

#[derive(Debug)]
pub enum Arg {
    Positional(Expr),
    /// `name=value`, a struct-literal field.
    Keyword(String, Expr),
}

#[derive(Debug, Clone, Copy, PartialEq, Eq, Structural)]
pub enum UnaryOp {
    Neg,
    Not,
}

#[derive(Debug, Clone, Copy, PartialEq, Eq, Structural)]
pub enum BinaryOp {
    Add,
    Sub,
    Mul,
    Div,
    Rem,
    Eq,
    Ne,
    Lt,
    Gt,
    Le,
    Ge,
    And,
    Or,
}

impl BinaryOp {
    /// The Rust spelling of the operator.
    pub open spec fn spec_rust(self) -> Seq<char> {
        match self {
            BinaryOp::Add => "+"@,
            BinaryOp::Sub => "-"@,
            BinaryOp::Mul => "*"@,
            BinaryOp::Div => "/"@,
            BinaryOp::Rem => "%"@,
            BinaryOp::Eq => "=="@,
            BinaryOp::Ne => "!="@,
            BinaryOp::Lt => "<"@,
            BinaryOp::Gt => ">"@,
            BinaryOp::Le => "<="@,
            BinaryOp::Ge => ">="@,
            BinaryOp::And => "&&"@,
            BinaryOp::Or => "||"@,
        }
    }

    pub fn rust(self) -> (r: &'static str)
        ensures
            r@ == self.spec_rust(),
    {
        match self {
            BinaryOp::Add => "+",
            BinaryOp::Sub => "-",
            BinaryOp::Mul => "*",
            BinaryOp::Div => "/",
            BinaryOp::Rem => "%",
            BinaryOp::Eq => "==",
            BinaryOp::Ne => "!=",
            BinaryOp::Lt => "<",
            BinaryOp::Gt => ">",
            BinaryOp::Le => "<=",
            BinaryOp::Ge => ">=",
            BinaryOp::And => "&&",
            BinaryOp::Or => "||",
        }
    }
}

// ---- well-formedness ----------------------------------------------------------
//
// A tree is well formed when every named type in it has at least one path
// segment. The parser only builds such trees, and the generator relies on it.

pub open spec fn type_wf(t: Type) -> bool
    decreases t,
{
    match t {
        Type::Unit => true,
        Type::Path { segments, args } => segments@.len() > 0 && types_wf(args@),
        Type::Ref { inner, .. } => type_wf(*inner),
        Type::Tuple(elems) => types_wf(elems@),
        Type::Array { elem, .. } => type_wf(*elem),
        Type::Slice(inner) => type_wf(*inner),
    }
}

pub open spec fn types_wf(ts: Seq<Type>) -> bool
    decreases ts,
{
    if ts.len() == 0 {
        true
    } else {
        types_wf(ts.subrange(0, ts.len() - 1)) && type_wf(ts[ts.len() - 1])
    }
}

pub open spec fn opt_type_wf(t: Option<Type>) -> bool {
    match t {
        Some(t) => type_wf(t),
        None => true,
    }
}

pub open spec fn params_wf(ps: Seq<Param>) -> bool
    decreases ps,
{
    if ps.len() == 0 {
        true
    } else {
        params_wf(ps.subrange(0, ps.len() - 1)) && type_wf(ps[ps.len() - 1].ty)
    }
}

pub open spec fn expr_wf(e: Expr) -> bool
    decreases e,
{
    match e {
        Expr::Unary { expr, .. } => expr_wf(*expr),
        Expr::Binary { lhs, rhs, .. } => expr_wf(*lhs) && expr_wf(*rhs),
        Expr::Field { recv, .. } => expr_wf(*recv),
        Expr::Index { recv, index } => expr_wf(*recv) && expr_wf(*index),
        Expr::Call { callee, type_args, args } => expr_wf(*callee) && types_wf(type_args@)
            && args_wf(args@),
        Expr::Ref { expr, .. } => expr_wf(*expr),
        Expr::Deref(x) => expr_wf(*x),
        Expr::CloneExpr(x) => expr_wf(*x),
        Expr::Move(x) => expr_wf(*x),
        Expr::Await(x) => expr_wf(*x),
        Expr::Try(x) => expr_wf(*x),
        Expr::Range { start, end, .. } => (match start {
            Some(x) => expr_wf(*x),
            None => true,
        }) && (match end {
            Some(x) => expr_wf(*x),
            None => true,
        }),
        Expr::Tuple(xs) => exprs_wf(xs@),
        Expr::List(xs) => exprs_wf(xs@),
        Expr::Dict(ps) => pairs_wf(ps@),
        Expr::If(ie) => cond_arms_wf(ie.arms@) && stmts_wf(ie.else_body@),
        Expr::Match(m) => expr_wf(*m.scrutinee) && match_arms_wf(m.arms@),
        Expr::Loop { body, .. } => stmts_wf(body@),
        Expr::Closure { params, ret, body, .. } => params_wf(params@) && opt_type_wf(ret)
            && stmts_wf(body@),
        _ => true,
    }
}

pub open spec fn exprs_wf(es: Seq<Expr>) -> bool
    decreases es,
{
    if es.len() == 0 {
        true
    } else {
        exprs_wf(es.subrange(0, es.len() - 1)) && expr_wf(es[es.len() - 1])
    }
}

pub open spec fn args_wf(args: Seq<Arg>) -> bool
    decreases args,
{
    if args.len() == 0 {
        true
    } else {
        args_wf(args.subrange(0, args.len() - 1)) && match args[args.len() - 1] {
            Arg::Positional(e) => expr_wf(e),
            Arg::Keyword(_, e) => expr_wf(e),
        }
    }
}

pub open spec fn pairs_wf(ps: Seq<(Expr, Expr)>) -> bool
    decreases ps,
{
    if ps.len() == 0 {
        true
    } else {
        pairs_wf(ps.subrange(0, ps.len() - 1)) && expr_wf(ps[ps.len() - 1].0) && expr_wf(
            ps[ps.len() - 1].1,
        )
    }
}

pub open spec fn cond_wf(c: CondKind) -> bool
    decreases c,
{
    match c {
        CondKind::Bool(e) => expr_wf(e),
        CondKind::Case { expr, .. } => expr_wf(expr),
    }
}

pub open spec fn cond_arms_wf(arms: Seq<(CondKind, Vec<Stmt>)>) -> bool
    decreases arms,
{
    if arms.len() == 0 {
        true
    } else {
        cond_arms_wf(arms.subrange(0, arms.len() - 1)) && cond_wf(arms[arms.len() - 1].0)
            && stmts_wf(arms[arms.len() - 1].1@)
    }
}

pub open spec fn match_arms_wf(arms: Seq<MatchArm>) -> bool
    decreases arms,
{
    if arms.len() == 0 {
        true
    } else {
        match_arms_wf(arms.subrange(0, arms.len() - 1)) && (match arms[arms.len() - 1].guard {
            Some(g) => expr_wf(g),
            None => true,
        }) && stmts_wf(arms[arms.len() - 1].body@)
    }
}

pub open spec fn stmt_wf(s: Stmt) -> bool
    decreases s,
{
    match s {
        Stmt::Let { ty, value, .. } => (match ty {
            Some(t) => type_wf(t),
            None => true,
        }) && expr_wf(value),
        Stmt::LetTuple { value, .. } => expr_wf(value),
        Stmt::Assign { target, value, .. } => expr_wf(target) && expr_wf(value),
        Stmt::Expr(e) => expr_wf(e),
        Stmt::Return(v) => match v {
            Some(e) => expr_wf(e),
            None => true,
        },
        Stmt::If(chain) => cond_arms_wf(chain.arms@) && match chain.else_body {
            Some(b) => stmts_wf(b@),
            None => true,
        },
        Stmt::While { cond, body } => expr_wf(cond) && stmts_wf(body@),
        Stmt::WhileCase { expr, body, .. } => expr_wf(expr) && stmts_wf(body@),
        Stmt::For { iter, body, .. } => expr_wf(iter) && stmts_wf(body@),
        Stmt::Loop { body, .. } => stmts_wf(body@),
        Stmt::Break { value, .. } => match value {
            Some(e) => expr_wf(e),
            None => true,
        },
        Stmt::Match(m) => expr_wf(*m.scrutinee) && match_arms_wf(m.arms@),
        Stmt::Unsafe(body) => stmts_wf(body@),
        _ => true,
    }
}

pub open spec fn stmts_wf(ss: Seq<Stmt>) -> bool
    decreases ss,
{
    if ss.len() == 0 {
        true
    } else {
        stmts_wf(ss.subrange(0, ss.len() - 1)) && stmt_wf(ss[ss.len() - 1])
    }
}

pub open spec fn function_wf(f: Function) -> bool {
    &&& params_wf(f.params@)
    &&& type_wf(f.ret)
    &&& match f.body {
        Some(b) => stmts_wf(b@),
        None => true,
    }
}

pub open spec fn functions_wf(fs: Seq<Function>) -> bool
    decreases fs.len(),
{
    if fs.len() == 0 {
        true
    } else {
        functions_wf(fs.drop_last()) && function_wf(fs.last())
    }
}

pub open spec fn fields_wf(fs: Seq<Field>) -> bool
    decreases fs.len(),
{
    if fs.len() == 0 {
        true
    } else {
        fields_wf(fs.drop_last()) && type_wf(fs.last().ty)
    }
}

pub open spec fn variants_wf(vs: Seq<Variant>) -> bool
    decreases vs.len(),
{
    if vs.len() == 0 {
        true
    } else {
        variants_wf(vs.drop_last()) && types_wf(vs.last().payload@)
    }
}

pub open spec fn item_wf(i: Item) -> bool {
    match i {
        Item::Function(f) => function_wf(f),
        Item::Struct(s) => fields_wf(s.fields@),
        Item::Enum(e) => variants_wf(e.variants@),
        Item::Impl(im) => opt_type_wf(im.trait_name) && type_wf(im.ty) && functions_wf(
            im.methods@,
        ),
        Item::Trait(t) => functions_wf(t.methods@),
        Item::Use(_) => true,
    }
}

pub open spec fn items_wf(is: Seq<Item>) -> bool
    decreases is.len(),
{
    if is.len() == 0 {
        true
    } else {
        items_wf(is.drop_last()) && item_wf(is.last())
    }
}

/// Every named type in the program has at least one path segment.
pub open spec fn program_wf(p: Program) -> bool {
    items_wf(p.items@)
}

pub proof fn lemma_types_wf_at(ts: Seq<Type>, i: int)
    requires
        types_wf(ts),
        0 <= i < ts.len(),
    ensures
        type_wf(ts[i]),
    decreases ts.len(),
{
    if i < ts.len() - 1 {
        let p = ts.subrange(0, ts.len() - 1);
        assert(p[i] == ts[i]);
        lemma_types_wf_at(p, i);
    }
}

pub broadcast proof fn lemma_types_wf_push(ts: Seq<Type>, t: Type)
    ensures
        #[trigger] types_wf(ts.push(t)) == (types_wf(ts) && type_wf(t)),
{
    assert(ts.push(t).subrange(0, ts.len() as int) =~= ts);
}

pub proof fn lemma_params_wf_at(ts: Seq<Param>, i: int)
    requires
        params_wf(ts),
        0 <= i < ts.len(),
    ensures
        type_wf(ts[i].ty),
    decreases ts.len(),
{
    if i < ts.len() - 1 {
        let p = ts.subrange(0, ts.len() - 1);
        assert(p[i] == ts[i]);
        lemma_params_wf_at(p, i);
    }
}

pub broadcast proof fn lemma_params_wf_push(ts: Seq<Param>, t: Param)
    ensures
        #[trigger] params_wf(ts.push(t)) == (params_wf(ts) && type_wf(t.ty)),
{
    assert(ts.push(t).subrange(0, ts.len() as int) =~= ts);
}

pub proof fn lemma_exprs_wf_at(ts: Seq<Expr>, i: int)
    requires
        exprs_wf(ts),
        0 <= i < ts.len(),
    ensures
        expr_wf(ts[i]),
    decreases ts.len(),
{
    if i < ts.len() - 1 {
        let p = ts.subrange(0, ts.len() - 1);
        assert(p[i] == ts[i]);
        lemma_exprs_wf_at(p, i);
    }
}

pub broadcast proof fn lemma_exprs_wf_push(ts: Seq<Expr>, t: Expr)
    ensures
        #[trigger] exprs_wf(ts.push(t)) == (exprs_wf(ts) && expr_wf(t)),
{
    assert(ts.push(t).subrange(0, ts.len() as int) =~= ts);
}

pub proof fn lemma_args_wf_at(ts: Seq<Arg>, i: int)
    requires
        args_wf(ts),
        0 <= i < ts.len(),
    ensures
        (match ts[i] { Arg::Positional(e) => expr_wf(e), Arg::Keyword(_, e) => expr_wf(e) }),
    decreases ts.len(),
{
    if i < ts.len() - 1 {
        let p = ts.subrange(0, ts.len() - 1);
        assert(p[i] == ts[i]);
        lemma_args_wf_at(p, i);
    }
}

pub broadcast proof fn lemma_args_wf_push(ts: Seq<Arg>, t: Arg)
    ensures
        #[trigger] args_wf(ts.push(t)) == (args_wf(ts) && (match t { Arg::Positional(e) => expr_wf(e), Arg::Keyword(_, e) => expr_wf(e) })),
{
    assert(ts.push(t).subrange(0, ts.len() as int) =~= ts);
}

pub proof fn lemma_pairs_wf_at(ts: Seq<(Expr, Expr)>, i: int)
    requires
        pairs_wf(ts),
        0 <= i < ts.len(),
    ensures
        expr_wf(ts[i].0) && expr_wf(ts[i].1),
    decreases ts.len(),
{
    if i < ts.len() - 1 {
        let p = ts.subrange(0, ts.len() - 1);
        assert(p[i] == ts[i]);
        lemma_pairs_wf_at(p, i);
    }
}

pub broadcast proof fn lemma_pairs_wf_push(ts: Seq<(Expr, Expr)>, t: (Expr, Expr))
    ensures
        #[trigger] pairs_wf(ts.push(t)) == (pairs_wf(ts) && expr_wf(t.0) && expr_wf(t.1)),
{
    assert(ts.push(t).subrange(0, ts.len() as int) =~= ts);
}

pub proof fn lemma_cond_arms_wf_at(ts: Seq<(CondKind, Vec<Stmt>)>, i: int)
    requires
        cond_arms_wf(ts),
        0 <= i < ts.len(),
    ensures
        cond_wf(ts[i].0) && stmts_wf(ts[i].1@),
    decreases ts.len(),
{
    if i < ts.len() - 1 {
        let p = ts.subrange(0, ts.len() - 1);
        assert(p[i] == ts[i]);
        lemma_cond_arms_wf_at(p, i);
    }
}

pub broadcast proof fn lemma_cond_arms_wf_push(ts: Seq<(CondKind, Vec<Stmt>)>, t: (CondKind, Vec<Stmt>))
    ensures
        #[trigger] cond_arms_wf(ts.push(t)) == (cond_arms_wf(ts) && cond_wf(t.0) && stmts_wf(t.1@)),
{
    assert(ts.push(t).subrange(0, ts.len() as int) =~= ts);
}

pub proof fn lemma_match_arms_wf_at(ts: Seq<MatchArm>, i: int)
    requires
        match_arms_wf(ts),
        0 <= i < ts.len(),
    ensures
        (match ts[i].guard { Some(g) => expr_wf(g), None => true }) && stmts_wf(ts[i].body@),
    decreases ts.len(),
{
    if i < ts.len() - 1 {
        let p = ts.subrange(0, ts.len() - 1);
        assert(p[i] == ts[i]);
        lemma_match_arms_wf_at(p, i);
    }
}

pub broadcast proof fn lemma_match_arms_wf_push(ts: Seq<MatchArm>, t: MatchArm)
    ensures
        #[trigger] match_arms_wf(ts.push(t)) == (match_arms_wf(ts) && (match t.guard { Some(g) => expr_wf(g), None => true }) && stmts_wf(t.body@)),
{
    assert(ts.push(t).subrange(0, ts.len() as int) =~= ts);
}

pub proof fn lemma_stmts_wf_at(ts: Seq<Stmt>, i: int)
    requires
        stmts_wf(ts),
        0 <= i < ts.len(),
    ensures
        stmt_wf(ts[i]),
    decreases ts.len(),
{
    if i < ts.len() - 1 {
        let p = ts.subrange(0, ts.len() - 1);
        assert(p[i] == ts[i]);
        lemma_stmts_wf_at(p, i);
    }
}

pub broadcast proof fn lemma_stmts_wf_push(ts: Seq<Stmt>, t: Stmt)
    ensures
        #[trigger] stmts_wf(ts.push(t)) == (stmts_wf(ts) && stmt_wf(t)),
{
    assert(ts.push(t).subrange(0, ts.len() as int) =~= ts);
}

pub proof fn lemma_functions_wf_at(ts: Seq<Function>, i: int)
    requires
        functions_wf(ts),
        0 <= i < ts.len(),
    ensures
        function_wf(ts[i]),
    decreases ts.len(),
{
    if i < ts.len() - 1 {
        let p = ts.drop_last();
        assert(p[i] == ts[i]);
        lemma_functions_wf_at(p, i);
    }
}

pub broadcast proof fn lemma_functions_wf_push(ts: Seq<Function>, t: Function)
    ensures
        #[trigger] functions_wf(ts.push(t)) == (functions_wf(ts) && function_wf(t)),
{
    assert(ts.push(t).drop_last() =~= ts);
}

pub proof fn lemma_fields_wf_at(ts: Seq<Field>, i: int)
    requires
        fields_wf(ts),
        0 <= i < ts.len(),
    ensures
        type_wf(ts[i].ty),
    decreases ts.len(),
{
    if i < ts.len() - 1 {
        let p = ts.drop_last();
        assert(p[i] == ts[i]);
        lemma_fields_wf_at(p, i);
    }
}

pub broadcast proof fn lemma_fields_wf_push(ts: Seq<Field>, t: Field)
    ensures
        #[trigger] fields_wf(ts.push(t)) == (fields_wf(ts) && type_wf(t.ty)),
{
    assert(ts.push(t).drop_last() =~= ts);
}

pub proof fn lemma_variants_wf_at(ts: Seq<Variant>, i: int)
    requires
        variants_wf(ts),
        0 <= i < ts.len(),
    ensures
        types_wf(ts[i].payload@),
    decreases ts.len(),
{
    if i < ts.len() - 1 {
        let p = ts.drop_last();
        assert(p[i] == ts[i]);
        lemma_variants_wf_at(p, i);
    }
}

pub broadcast proof fn lemma_variants_wf_push(ts: Seq<Variant>, t: Variant)
    ensures
        #[trigger] variants_wf(ts.push(t)) == (variants_wf(ts) && types_wf(t.payload@)),
{
    assert(ts.push(t).drop_last() =~= ts);
}

pub proof fn lemma_items_wf_at(ts: Seq<Item>, i: int)
    requires
        items_wf(ts),
        0 <= i < ts.len(),
    ensures
        item_wf(ts[i]),
    decreases ts.len(),
{
    if i < ts.len() - 1 {
        let p = ts.drop_last();
        assert(p[i] == ts[i]);
        lemma_items_wf_at(p, i);
    }
}

pub broadcast proof fn lemma_items_wf_push(ts: Seq<Item>, t: Item)
    ensures
        #[trigger] items_wf(ts.push(t)) == (items_wf(ts) && item_wf(t)),
{
    assert(ts.push(t).drop_last() =~= ts);
}

pub broadcast group group_wf_push {
    lemma_types_wf_push,
    lemma_params_wf_push,
    lemma_exprs_wf_push,
    lemma_args_wf_push,
    lemma_pairs_wf_push,
    lemma_cond_arms_wf_push,
    lemma_match_arms_wf_push,
    lemma_stmts_wf_push,
    lemma_functions_wf_push,
    lemma_fields_wf_push,
    lemma_variants_wf_push,
    lemma_items_wf_push,
}

} // verus!
