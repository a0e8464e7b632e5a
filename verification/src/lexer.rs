//! Indentation-aware lexer for TinyS.
//!
//! Produces a flat token stream that includes synthetic `Newline`, `Indent`,
//! and `Dedent` tokens so the parser can treat blocks structurally, the way a
//! Python-style layout language requires. Newlines and indentation are
//! suppressed while inside `()`/`[]`/`{}` so expressions may span lines.
//!
//! `lex_spec` states the stream (or the first error, with its message and
//! position) for every source text; `Lexer::tokenize` produces exactly that.

use vstd::prelude::*;
use crate::diagnostics::{Span, Stage, TinysError};
use crate::text::{
    debug_quoted, debug_string, decimal_int, push_decimal_i64, char_is_alphabetic, char_is_alphanumeric, char_is_digit, decimal, is_digit, push_char,
    push_decimal, str_eq, unicode_alphabetic, unicode_alphanumeric,
};

verus! {

broadcast use vstd::std_specs::control_flow::group_control_flow_axioms;

/// The longest source, in characters, that the lexer accepts: the widest
/// indentation, four columns for each tab, then still fits a `usize` on a
/// 32-bit target, and the bracket depth fits its `i32`.
pub const MAX_SOURCE_CHARS: usize = 0x3fff_ffff;

#[derive(Debug, Clone, PartialEq)]
pub enum Tok {
    // Literals
    Int(i64),
    /// A decimal literal with a fractional part, as written but with the `_`
    /// separators removed.
    Float(String),
    /// Inner text of a normal string literal, exactly as written (escapes kept).
    Str(String),
    /// A raw string literal captured verbatim, including the `r"..."`/`r#"..."#`.
    RawStr(String),
    Ident(String),
    /// A lifetime written as `.name` in type/generic position.
    Lifetime(String),
    /// The raw contents of an attribute `#[...]` (without the `#[` `]`).
    Attribute(String),
    // Keywords
    Def,
    Return,
    If,
    Elif,
    Else,
    While,
    For,
    In,
    Loop,
    Break,
    Continue,
    Match,
    Case,
    Struct,
    Enum,
    Impl,
    Trait,
    Mut,
    Ref,
    At,
    Move,
    Clone,
    Pub,
    And,
    Or,
    Not,
    Pass,
    As,
    With,
    Unsafe,
    Async,
    Await,
    From,
    Import,
    Void,
    True,
    False,
    Fn,
    // Punctuation / operators
    LParen,
    RParen,
    LBracket,
    RBracket,
    LBrace,
    RBrace,
    Colon,
    Comma,
    Dot,
    Arrow,
    Plus,
    Minus,
    Star,
    Slash,
    Percent,
    Assign,
    EqEq,
    NotEq,
    Lt,
    Gt,
    Le,
    Ge,
    PlusEq,
    MinusEq,
    StarEq,
    SlashEq,
    PercentEq,
    DotDot,
    DotDotEq,
    Question,
    Pipe,
    // Layout
    Newline,
    Indent,
    Dedent,
    Eof,
}

impl Tok {
    /// Which variant a token is, by number, payloads aside.
    pub open spec fn tag(self) -> int {
        match self {
            Tok::Int(..) => 0,
            Tok::Float(..) => 1,
            Tok::Str(..) => 2,
            Tok::RawStr(..) => 3,
            Tok::Ident(..) => 4,
            Tok::Lifetime(..) => 5,
            Tok::Attribute(..) => 6,
            Tok::Def => 7,
            Tok::Return => 8,
            Tok::If => 9,
            Tok::Elif => 10,
            Tok::Else => 11,
            Tok::While => 12,
            Tok::For => 13,
            Tok::In => 14,
            Tok::Loop => 15,
            Tok::Break => 16,
            Tok::Continue => 17,
            Tok::Match => 18,
            Tok::Case => 19,
            Tok::Struct => 20,
            Tok::Enum => 21,
            Tok::Impl => 22,
            Tok::Trait => 23,
            Tok::Mut => 24,
            Tok::Ref => 25,
            Tok::At => 26,
            Tok::Move => 27,
            Tok::Clone => 28,
            Tok::Pub => 29,
            Tok::And => 30,
            Tok::Or => 31,
            Tok::Not => 32,
            Tok::Pass => 33,
            Tok::As => 34,
            Tok::With => 35,
            Tok::Unsafe => 36,
            Tok::Async => 37,
            Tok::Await => 38,
            Tok::From => 39,
            Tok::Import => 40,
            Tok::Void => 41,
            Tok::True => 42,
            Tok::False => 43,
            Tok::Fn => 44,
            Tok::LParen => 45,
            Tok::RParen => 46,
            Tok::LBracket => 47,
            Tok::RBracket => 48,
            Tok::LBrace => 49,
            Tok::RBrace => 50,
            Tok::Colon => 51,
            Tok::Comma => 52,
            Tok::Dot => 53,
            Tok::Arrow => 54,
            Tok::Plus => 55,
            Tok::Minus => 56,
            Tok::Star => 57,
            Tok::Slash => 58,
            Tok::Percent => 59,
            Tok::Assign => 60,
            Tok::EqEq => 61,
            Tok::NotEq => 62,
            Tok::Lt => 63,
            Tok::Gt => 64,
            Tok::Le => 65,
            Tok::Ge => 66,
            Tok::PlusEq => 67,
            Tok::MinusEq => 68,
            Tok::StarEq => 69,
            Tok::SlashEq => 70,
            Tok::PercentEq => 71,
            Tok::DotDot => 72,
            Tok::DotDotEq => 73,
            Tok::Question => 74,
            Tok::Pipe => 75,
            Tok::Newline => 76,
            Tok::Indent => 77,
            Tok::Dedent => 78,
            Tok::Eof => 79,
        }
    }

    /// The number of the token's variant.
    pub fn kind_tag(&self) -> (r: u8)
        ensures
            r as int == self.tag(),
    {
        match self {
            Tok::Int(..) => 0,
            Tok::Float(..) => 1,
            Tok::Str(..) => 2,
            Tok::RawStr(..) => 3,
            Tok::Ident(..) => 4,
            Tok::Lifetime(..) => 5,
            Tok::Attribute(..) => 6,
            Tok::Def => 7,
            Tok::Return => 8,
            Tok::If => 9,
            Tok::Elif => 10,
            Tok::Else => 11,
            Tok::While => 12,
            Tok::For => 13,
            Tok::In => 14,
            Tok::Loop => 15,
            Tok::Break => 16,
            Tok::Continue => 17,
            Tok::Match => 18,
            Tok::Case => 19,
            Tok::Struct => 20,
            Tok::Enum => 21,
            Tok::Impl => 22,
            Tok::Trait => 23,
            Tok::Mut => 24,
            Tok::Ref => 25,
            Tok::At => 26,
            Tok::Move => 27,
            Tok::Clone => 28,
            Tok::Pub => 29,
            Tok::And => 30,
            Tok::Or => 31,
            Tok::Not => 32,
            Tok::Pass => 33,
            Tok::As => 34,
            Tok::With => 35,
            Tok::Unsafe => 36,
            Tok::Async => 37,
            Tok::Await => 38,
            Tok::From => 39,
            Tok::Import => 40,
            Tok::Void => 41,
            Tok::True => 42,
            Tok::False => 43,
            Tok::Fn => 44,
            Tok::LParen => 45,
            Tok::RParen => 46,
            Tok::LBracket => 47,
            Tok::RBracket => 48,
            Tok::LBrace => 49,
            Tok::RBrace => 50,
            Tok::Colon => 51,
            Tok::Comma => 52,
            Tok::Dot => 53,
            Tok::Arrow => 54,
            Tok::Plus => 55,
            Tok::Minus => 56,
            Tok::Star => 57,
            Tok::Slash => 58,
            Tok::Percent => 59,
            Tok::Assign => 60,
            Tok::EqEq => 61,
            Tok::NotEq => 62,
            Tok::Lt => 63,
            Tok::Gt => 64,
            Tok::Le => 65,
            Tok::Ge => 66,
            Tok::PlusEq => 67,
            Tok::MinusEq => 68,
            Tok::StarEq => 69,
            Tok::SlashEq => 70,
            Tok::PercentEq => 71,
            Tok::DotDot => 72,
            Tok::DotDotEq => 73,
            Tok::Question => 74,
            Tok::Pipe => 75,
            Tok::Newline => 76,
            Tok::Indent => 77,
            Tok::Dedent => 78,
            Tok::Eof => 79,
        }
    }

    /// What `{:?}` writes for the token.
    pub open spec fn spec_debug(&self) -> Seq<char> {
        match self {
            Tok::Int(v) => "Int("@ + decimal_int(*v as int) + ")"@,
            Tok::Float(t) => "Float("@ + t@ + ")"@,
            Tok::Str(t) => "Str("@ + debug_quoted(t@) + ")"@,
            Tok::RawStr(t) => "RawStr("@ + debug_quoted(t@) + ")"@,
            Tok::Ident(t) => "Ident("@ + debug_quoted(t@) + ")"@,
            Tok::Lifetime(t) => "Lifetime("@ + debug_quoted(t@) + ")"@,
            Tok::Attribute(t) => "Attribute("@ + debug_quoted(t@) + ")"@,
            Tok::Def => "Def"@,
            Tok::Return => "Return"@,
            Tok::If => "If"@,
            Tok::Elif => "Elif"@,
            Tok::Else => "Else"@,
            Tok::While => "While"@,
            Tok::For => "For"@,
            Tok::In => "In"@,
            Tok::Loop => "Loop"@,
            Tok::Break => "Break"@,
            Tok::Continue => "Continue"@,
            Tok::Match => "Match"@,
            Tok::Case => "Case"@,
            Tok::Struct => "Struct"@,
            Tok::Enum => "Enum"@,
            Tok::Impl => "Impl"@,
            Tok::Trait => "Trait"@,
            Tok::Mut => "Mut"@,
            Tok::Ref => "Ref"@,
            Tok::At => "At"@,
            Tok::Move => "Move"@,
            Tok::Clone => "Clone"@,
            Tok::Pub => "Pub"@,
            Tok::And => "And"@,
            Tok::Or => "Or"@,
            Tok::Not => "Not"@,
            Tok::Pass => "Pass"@,
            Tok::As => "As"@,
            Tok::With => "With"@,
            Tok::Unsafe => "Unsafe"@,
            Tok::Async => "Async"@,
            Tok::Await => "Await"@,
            Tok::From => "From"@,
            Tok::Import => "Import"@,
            Tok::Void => "Void"@,
            Tok::True => "True"@,
            Tok::False => "False"@,
            Tok::Fn => "Fn"@,
            Tok::LParen => "LParen"@,
            Tok::RParen => "RParen"@,
            Tok::LBracket => "LBracket"@,
            Tok::RBracket => "RBracket"@,
            Tok::LBrace => "LBrace"@,
            Tok::RBrace => "RBrace"@,
            Tok::Colon => "Colon"@,
            Tok::Comma => "Comma"@,
            Tok::Dot => "Dot"@,
            Tok::Arrow => "Arrow"@,
            Tok::Plus => "Plus"@,
            Tok::Minus => "Minus"@,
            Tok::Star => "Star"@,
            Tok::Slash => "Slash"@,
            Tok::Percent => "Percent"@,
            Tok::Assign => "Assign"@,
            Tok::EqEq => "EqEq"@,
            Tok::NotEq => "NotEq"@,
            Tok::Lt => "Lt"@,
            Tok::Gt => "Gt"@,
            Tok::Le => "Le"@,
            Tok::Ge => "Ge"@,
            Tok::PlusEq => "PlusEq"@,
            Tok::MinusEq => "MinusEq"@,
            Tok::StarEq => "StarEq"@,
            Tok::SlashEq => "SlashEq"@,
            Tok::PercentEq => "PercentEq"@,
            Tok::DotDot => "DotDot"@,
            Tok::DotDotEq => "DotDotEq"@,
            Tok::Question => "Question"@,
            Tok::Pipe => "Pipe"@,
            Tok::Newline => "Newline"@,
            Tok::Indent => "Indent"@,
            Tok::Dedent => "Dedent"@,
            Tok::Eof => "Eof"@,
        }
    }

    /// The token as `{:?}` writes it (a float as its literal text).
    pub fn debug(&self) -> (r: String)
        ensures
            r@ == self.spec_debug(),
    {
        match self {
            Tok::Int(v) => {
                let mut out = String::from_str("Int(");
                push_decimal_i64(&mut out, *v);
                out.append(")");
                proof { assert(out@ =~= self.spec_debug()); }
                out
            },
            Tok::Float(t) => {
                let mut out = String::from_str("Float(");
                out.append(t.as_str());
                out.append(")");
                proof { assert(out@ =~= self.spec_debug()); }
                out
            },
            Tok::Str(t) => {
                let mut out = String::from_str("Str(");
                out.append(debug_string(t.as_str()).as_str());
                out.append(")");
                proof { assert(out@ =~= self.spec_debug()); }
                out
            },
            Tok::RawStr(t) => {
                let mut out = String::from_str("RawStr(");
                out.append(debug_string(t.as_str()).as_str());
                out.append(")");
                proof { assert(out@ =~= self.spec_debug()); }
                out
            },
            Tok::Ident(t) => {
                let mut out = String::from_str("Ident(");
                out.append(debug_string(t.as_str()).as_str());
                out.append(")");
                proof { assert(out@ =~= self.spec_debug()); }
                out
            },
            Tok::Lifetime(t) => {
                let mut out = String::from_str("Lifetime(");
                out.append(debug_string(t.as_str()).as_str());
                out.append(")");
                proof { assert(out@ =~= self.spec_debug()); }
                out
            },
            Tok::Attribute(t) => {
                let mut out = String::from_str("Attribute(");
                out.append(debug_string(t.as_str()).as_str());
                out.append(")");
                proof { assert(out@ =~= self.spec_debug()); }
                out
            },
            Tok::Def => String::from_str("Def"),
            Tok::Return => String::from_str("Return"),
            Tok::If => String::from_str("If"),
            Tok::Elif => String::from_str("Elif"),
            Tok::Else => String::from_str("Else"),
            Tok::While => String::from_str("While"),
            Tok::For => String::from_str("For"),
            Tok::In => String::from_str("In"),
            Tok::Loop => String::from_str("Loop"),
            Tok::Break => String::from_str("Break"),
            Tok::Continue => String::from_str("Continue"),
            Tok::Match => String::from_str("Match"),
            Tok::Case => String::from_str("Case"),
            Tok::Struct => String::from_str("Struct"),
            Tok::Enum => String::from_str("Enum"),
            Tok::Impl => String::from_str("Impl"),
            Tok::Trait => String::from_str("Trait"),
            Tok::Mut => String::from_str("Mut"),
            Tok::Ref => String::from_str("Ref"),
            Tok::At => String::from_str("At"),
            Tok::Move => String::from_str("Move"),
            Tok::Clone => String::from_str("Clone"),
            Tok::Pub => String::from_str("Pub"),
            Tok::And => String::from_str("And"),
            Tok::Or => String::from_str("Or"),
            Tok::Not => String::from_str("Not"),
            Tok::Pass => String::from_str("Pass"),
            Tok::As => String::from_str("As"),
            Tok::With => String::from_str("With"),
            Tok::Unsafe => String::from_str("Unsafe"),
            Tok::Async => String::from_str("Async"),
            Tok::Await => String::from_str("Await"),
            Tok::From => String::from_str("From"),
            Tok::Import => String::from_str("Import"),
            Tok::Void => String::from_str("Void"),
            Tok::True => String::from_str("True"),
            Tok::False => String::from_str("False"),
            Tok::Fn => String::from_str("Fn"),
            Tok::LParen => String::from_str("LParen"),
            Tok::RParen => String::from_str("RParen"),
            Tok::LBracket => String::from_str("LBracket"),
            Tok::RBracket => String::from_str("RBracket"),
            Tok::LBrace => String::from_str("LBrace"),
            Tok::RBrace => String::from_str("RBrace"),
            Tok::Colon => String::from_str("Colon"),
            Tok::Comma => String::from_str("Comma"),
            Tok::Dot => String::from_str("Dot"),
            Tok::Arrow => String::from_str("Arrow"),
            Tok::Plus => String::from_str("Plus"),
            Tok::Minus => String::from_str("Minus"),
            Tok::Star => String::from_str("Star"),
            Tok::Slash => String::from_str("Slash"),
            Tok::Percent => String::from_str("Percent"),
            Tok::Assign => String::from_str("Assign"),
            Tok::EqEq => String::from_str("EqEq"),
            Tok::NotEq => String::from_str("NotEq"),
            Tok::Lt => String::from_str("Lt"),
            Tok::Gt => String::from_str("Gt"),
            Tok::Le => String::from_str("Le"),
            Tok::Ge => String::from_str("Ge"),
            Tok::PlusEq => String::from_str("PlusEq"),
            Tok::MinusEq => String::from_str("MinusEq"),
            Tok::StarEq => String::from_str("StarEq"),
            Tok::SlashEq => String::from_str("SlashEq"),
            Tok::PercentEq => String::from_str("PercentEq"),
            Tok::DotDot => String::from_str("DotDot"),
            Tok::DotDotEq => String::from_str("DotDotEq"),
            Tok::Question => String::from_str("Question"),
            Tok::Pipe => String::from_str("Pipe"),
            Tok::Newline => String::from_str("Newline"),
            Tok::Indent => String::from_str("Indent"),
            Tok::Dedent => String::from_str("Dedent"),
            Tok::Eof => String::from_str("Eof"),
        }
    }
    /// Synthetic layout tokens, as opposed to tokens written in the source.
    pub open spec fn is_layout(self) -> bool {
        self is Newline || self is Indent || self is Dedent
    }
}

#[derive(Debug, Clone)]
pub struct Token {
    pub kind: Tok,
    pub span: Span,
}

/// The keyword a word spells, if any.
pub open spec fn keyword(s: Seq<char>) -> Option<Tok> {
    if s == "def"@ { Some(Tok::Def) }
    else if s == "return"@ { Some(Tok::Return) }
    else if s == "if"@ { Some(Tok::If) }
    else if s == "elif"@ { Some(Tok::Elif) }
    else if s == "else"@ { Some(Tok::Else) }
    else if s == "while"@ { Some(Tok::While) }
    else if s == "for"@ { Some(Tok::For) }
    else if s == "in"@ { Some(Tok::In) }
    else if s == "loop"@ { Some(Tok::Loop) }
    else if s == "break"@ { Some(Tok::Break) }
    else if s == "continue"@ { Some(Tok::Continue) }
    else if s == "match"@ { Some(Tok::Match) }
    else if s == "case"@ { Some(Tok::Case) }
    else if s == "struct"@ { Some(Tok::Struct) }
    else if s == "enum"@ { Some(Tok::Enum) }
    else if s == "impl"@ { Some(Tok::Impl) }
    else if s == "trait"@ { Some(Tok::Trait) }
    else if s == "mut"@ { Some(Tok::Mut) }
    else if s == "ref"@ { Some(Tok::Ref) }
    else if s == "at"@ { Some(Tok::At) }
    else if s == "move"@ { Some(Tok::Move) }
    else if s == "clone"@ { Some(Tok::Clone) }
    else if s == "pub"@ { Some(Tok::Pub) }
    else if s == "and"@ { Some(Tok::And) }
    else if s == "or"@ { Some(Tok::Or) }
    else if s == "not"@ { Some(Tok::Not) }
    else if s == "pass"@ { Some(Tok::Pass) }
    else if s == "as"@ { Some(Tok::As) }
    else if s == "with"@ { Some(Tok::With) }
    else if s == "unsafe"@ { Some(Tok::Unsafe) }
    else if s == "async"@ { Some(Tok::Async) }
    else if s == "await"@ { Some(Tok::Await) }
    else if s == "from"@ { Some(Tok::From) }
    else if s == "import"@ { Some(Tok::Import) }
    else if s == "void"@ { Some(Tok::Void) }
    else if s == "true"@ { Some(Tok::True) }
    else if s == "false"@ { Some(Tok::False) }
    else if s == "fn"@ { Some(Tok::Fn) }
    else { None }
}

/// The net number of open indentation blocks in a token sequence.
pub open spec fn layout_depth(ts: Seq<Token>) -> int
    decreases ts.len(),
{
    if ts.len() == 0 {
        0
    } else {
        layout_depth(ts.drop_last()) + (if ts.last().kind is Indent {
            1int
        } else if ts.last().kind is Dedent {
            -1int
        } else {
            0int
        })
    }
}

/// No prefix of the stream closes more blocks than it opened.
pub open spec fn well_nested(ts: Seq<Token>) -> bool {
    forall|k: int| 0 <= k <= ts.len() ==> layout_depth(#[trigger] ts.take(k)) >= 0
}

/// A `Newline` only ever ends a line that produced content.
pub open spec fn newlines_follow_content(ts: Seq<Token>) -> bool {
    forall|i: int|
        0 <= i < ts.len() && (#[trigger] ts[i]).kind is Newline ==> i > 0 && !ts[i - 1].kind.is_layout()
}

pub open spec fn eof_free(ts: Seq<Token>) -> bool {
    forall|i: int| 0 <= i < ts.len() ==> !((#[trigger] ts[i]).kind is Eof)
}

/// The shape of every stream the lexer produces: one `Eof`, at the end;
/// `Indent`s and `Dedent`s balanced and well nested; a `Newline` only after
/// content.
pub open spec fn well_formed_stream(ts: Seq<Token>) -> bool {
    &&& ts.len() > 0
    &&& ts.last().kind is Eof
    &&& eof_free(ts.drop_last())
    &&& layout_depth(ts) == 0
    &&& well_nested(ts)
    &&& newlines_follow_content(ts)
}

/// The indentation stack starts at 0 and strictly increases.
#[verifier::opaque]
pub open spec fn stack_ok(st: Seq<usize>) -> bool {
    &&& st.len() >= 1
    &&& st[0] == 0
    &&& forall|i: int, j: int| 0 <= i < j < st.len() ==> st[i] < st[j]
}

/// What the tokens emitted so far satisfy while `depth` blocks are open.
#[verifier::opaque]
pub open spec fn stream_inv(ts: Seq<Token>, depth: int) -> bool {
    &&& layout_depth(ts) == depth
    &&& well_nested(ts)
    &&& newlines_follow_content(ts)
    &&& eof_free(ts)
}

proof fn lemma_push_token(ts: Seq<Token>, t: Token)
    ensures
        layout_depth(ts.push(t)) == layout_depth(ts) + (if t.kind is Indent {
            1int
        } else if t.kind is Dedent {
            -1int
        } else {
            0int
        }),
        well_nested(ts) && layout_depth(ts.push(t)) >= 0 ==> well_nested(ts.push(t)),
        newlines_follow_content(ts) && (t.kind is Newline ==> ts.len() > 0
            && !ts.last().kind.is_layout()) ==> newlines_follow_content(ts.push(t)),
        eof_free(ts) && !(t.kind is Eof) ==> eof_free(ts.push(t)),
        ts.push(t).drop_last() == ts,
{
    assert(ts.push(t).drop_last() =~= ts);
    if well_nested(ts) && layout_depth(ts.push(t)) >= 0 {
        assert forall|k: int| 0 <= k <= ts.push(t).len() implies layout_depth(
            #[trigger] ts.push(t).take(k),
        ) >= 0 by {
            if k <= ts.len() {
                assert(ts.push(t).take(k) =~= ts.take(k));
            } else {
                assert(ts.push(t).take(k) =~= ts.push(t));
            }
        }
    }
    if newlines_follow_content(ts) && (t.kind is Newline ==> ts.len() > 0
        && !ts.last().kind.is_layout()) {
        assert forall|i: int|
            0 <= i < ts.push(t).len() && (#[trigger] ts.push(t)[i]).kind is Newline implies i > 0
                && !ts.push(t)[i - 1].kind.is_layout() by {
            if i < ts.len() {
                assert(ts.push(t)[i] == ts[i]);
                assert(ts.push(t)[i - 1] == ts[i - 1]);
            }
        }
    }
}

/// Tokens after which a `.name` is read as a lifetime.
pub open spec fn lifetime_context(k: Tok) -> bool {
    k is LBracket || k is Comma || k is LParen || k is Colon || k is Arrow || k is Lt || k is Ref
}

pub open spec fn is_num_char(c: char) -> bool {
    is_digit(c) || c == '_'
}

pub open spec fn is_ident_start(c: char) -> bool {
    unicode_alphabetic(c) || c == '_'
}

pub open spec fn is_ident_char(c: char) -> bool {
    unicode_alphanumeric(c) || c == '_'
}

/// The end of the run of digits and `_` that starts at `i`.
pub open spec fn num_run_end(s: Seq<char>, i: int) -> int
    decreases s.len() - i,
{
    if 0 <= i < s.len() && is_num_char(s[i]) {
        num_run_end(s, i + 1)
    } else {
        i
    }
}

/// The end of the run of identifier characters that starts at `i`.
pub open spec fn ident_run_end(s: Seq<char>, i: int) -> int
    decreases s.len() - i,
{
    if 0 <= i < s.len() && is_ident_char(s[i]) {
        ident_run_end(s, i + 1)
    } else {
        i
    }
}

/// `s` with every `_` removed.
pub open spec fn strip_underscores(s: Seq<char>) -> Seq<char>
    decreases s.len(),
{
    if s.len() == 0 {
        s
    } else if s.last() == '_' {
        strip_underscores(s.drop_last())
    } else {
        strip_underscores(s.drop_last()).push(s.last())
    }
}

/// The value of a sequence of decimal digits.
pub open spec fn digits_value(s: Seq<char>) -> nat
    decreases s.len(),
{
    if s.len() == 0 {
        0
    } else {
        (digits_value(s.drop_last()) * 10 + ((s.last() as u32) as int - 48)) as nat
    }
}

/// The body of a normal string literal whose opening quote precedes `i`: the
/// position after its closing quote and the text between, escapes kept as
/// written. `None` when the literal is not closed on its line.
pub open spec fn string_body(s: Seq<char>, i: int) -> Option<(int, Seq<char>)>
    decreases s.len() - i,
{
    if i < 0 || i >= s.len() {
        None
    } else if s[i] == '"' {
        Some((i + 1, Seq::<char>::empty()))
    } else if s[i] == '\n' {
        None
    } else if s[i] == '\\' {
        if i + 1 < s.len() {
            prepend_body(seq!['\\', s[i + 1]], string_body(s, i + 2))
        } else {
            None
        }
    } else {
        prepend_body(seq![s[i]], string_body(s, i + 1))
    }
}

pub open spec fn prepend_body(t: Seq<char>, o: Option<(int, Seq<char>)>) -> Option<(int, Seq<char>)> {
    match o {
        Some((e, b)) => Some((e, t + b)),
        None => None,
    }
}

/// The token a word lexes to: its keyword, else an identifier holding it.
pub open spec fn word_token(kind: Tok, text: Seq<char>) -> bool {
    match keyword(text) {
        Some(k) => kind == k,
        None => kind matches Tok::Ident(s) && s@ == text,
    }
}

/// What lexing a number literal that starts at `p0` does: a run of digits
/// and `_`, then a fractional part when a `.` is followed by a digit. An
/// integer literal fails when its value exceeds `i64::MAX`.
pub open spec fn number_lexed(
    src: Seq<char>,
    p0: int,
    start: Span,
    before: Seq<Token>,
    after: Seq<Token>,
    end: int,
    ok: bool,
) -> bool {
    let e1 = num_run_end(src, p0);
    let int_text = strip_underscores(src.subrange(p0, e1));
    if e1 + 1 < src.len() && src[e1] == '.' && is_digit(src[e1 + 1]) {
        let e2 = num_run_end(src, e1 + 1);
        &&& ok
        &&& end == e2
        &&& after.len() == before.len() + 1
        &&& after.drop_last() == before
        &&& after.last().span == start
        &&& after.last().kind matches Tok::Float(t) && t@ == int_text + seq!['.']
            + strip_underscores(src.subrange(e1 + 1, e2))
    } else {
        &&& end == e1
        &&& ok <==> digits_value(int_text) <= i64::MAX
        &&& ok ==> after == before.push(
            Token { kind: Tok::Int(digits_value(int_text) as i64), span: start },
        )
    }
}

proof fn lemma_num_run(s: Seq<char>, i: int)
    requires
        0 <= i <= s.len(),
    ensures
        i <= num_run_end(s, i) <= s.len(),
        forall|k: int| i <= k < num_run_end(s, i) ==> is_num_char(#[trigger] s[k]),
        num_run_end(s, i) == s.len() || !is_num_char(s[num_run_end(s, i)]),
    decreases s.len() - i,
{
    if i < s.len() && is_num_char(s[i]) {
        lemma_num_run(s, i + 1);
    }
}

proof fn lemma_ident_run(s: Seq<char>, i: int)
    requires
        0 <= i <= s.len(),
    ensures
        i <= ident_run_end(s, i) <= s.len(),
        forall|k: int| i <= k < ident_run_end(s, i) ==> is_ident_char(#[trigger] s[k]),
        ident_run_end(s, i) == s.len() || !is_ident_char(s[ident_run_end(s, i)]),
    decreases s.len() - i,
{
    if i < s.len() && is_ident_char(s[i]) {
        lemma_ident_run(s, i + 1);
    }
}

proof fn lemma_strip_digits(s: Seq<char>)
    requires
        forall|k: int| 0 <= k < s.len() ==> is_num_char(#[trigger] s[k]),
    ensures
        forall|k: int| 0 <= k < strip_underscores(s).len() ==> is_digit(
            #[trigger] strip_underscores(s)[k],
        ),
    decreases s.len(),
{
    if s.len() > 0 {
        let d = s.drop_last();
        assert forall|k: int| 0 <= k < d.len() implies is_num_char(#[trigger] d[k]) by {
            assert(d[k] == s[k]);
        }
        lemma_strip_digits(d);
        let r = strip_underscores(d);
        assert(is_num_char(s[s.len() - 1]));
        if s.last() != '_' {
            assert forall|k: int| 0 <= k < strip_underscores(s).len() implies is_digit(
                #[trigger] strip_underscores(s)[k],
            ) by {
                assert(strip_underscores(s) == r.push(s.last()));
                if k < r.len() {
                    assert(strip_underscores(s)[k] == r[k]);
                }
            }
        }
    }
}

proof fn lemma_prepend_assoc(t: Seq<char>, u: Seq<char>, o: Option<(int, Seq<char>)>)
    ensures
        prepend_body(t, prepend_body(u, o)) == prepend_body(t + u, o),
{
    match o {
        Some((e, b)) => {
            assert((t + u) + b =~= t + (u + b));
        },
        None => {},
    }
}

proof fn lemma_digits_value_push(s: Seq<char>, c: char)
    ensures
        digits_value(s.push(c)) == (digits_value(s) * 10 + ((c as u32) as int - 48)) as nat,
{
    assert(s.push(c).drop_last() =~= s);
}

/// The token a punctuation character lexes to, with the number of characters
/// it takes, given the character after it. `.` is handled on its own; `None`
/// is a lex error.
pub open spec fn fixed_symbol(c: char, next: Option<char>) -> Option<(Tok, int)> {
    if c == '(' { Some((Tok::LParen, 1)) }
    else if c == ')' { Some((Tok::RParen, 1)) }
    else if c == '[' { Some((Tok::LBracket, 1)) }
    else if c == ']' { Some((Tok::RBracket, 1)) }
    else if c == '{' { Some((Tok::LBrace, 1)) }
    else if c == '}' { Some((Tok::RBrace, 1)) }
    else if c == ':' { Some((Tok::Colon, 1)) }
    else if c == ',' { Some((Tok::Comma, 1)) }
    else if c == '-' {
        if next == Some('>') { Some((Tok::Arrow, 2)) }
        else if next == Some('=') { Some((Tok::MinusEq, 2)) }
        else { Some((Tok::Minus, 1)) }
    }
    else if c == '+' { if next == Some('=') { Some((Tok::PlusEq, 2)) } else { Some((Tok::Plus, 1)) } }
    else if c == '*' { if next == Some('=') { Some((Tok::StarEq, 2)) } else { Some((Tok::Star, 1)) } }
    else if c == '/' { if next == Some('=') { Some((Tok::SlashEq, 2)) } else { Some((Tok::Slash, 1)) } }
    else if c == '%' { if next == Some('=') { Some((Tok::PercentEq, 2)) } else { Some((Tok::Percent, 1)) } }
    else if c == '=' { if next == Some('=') { Some((Tok::EqEq, 2)) } else { Some((Tok::Assign, 1)) } }
    else if c == '!' { if next == Some('=') { Some((Tok::NotEq, 2)) } else { None } }
    else if c == '<' { if next == Some('=') { Some((Tok::Le, 2)) } else { Some((Tok::Lt, 1)) } }
    else if c == '>' { if next == Some('=') { Some((Tok::Ge, 2)) } else { Some((Tok::Gt, 1)) } }
    else if c == '?' { Some((Tok::Question, 1)) }
    else if c == '|' { Some((Tok::Pipe, 1)) }
    else { None }
}

/// What lexing the punctuation at `p` (other than `.`) does.
pub open spec fn symbol_lexed(
    src: Seq<char>,
    p: int,
    start: Span,
    before: Seq<Token>,
    after: Seq<Token>,
    end: int,
    ok: bool,
) -> bool {
    let next = if p + 1 < src.len() { Some(src[p + 1]) } else { None };
    match fixed_symbol(src[p], next) {
        Some((t, n)) => ok && end == p + n && after == before.push(Token { kind: t, span: start }),
        None => !ok,
    }
}

/// The `n` characters after position `q` exist and are all `#`.
pub open spec fn hashes_follow(s: Seq<char>, q: int, n: int) -> bool {
    q + n < s.len() && forall|j: int| q < j <= q + n ==> s[j] == '#'
}

/// The tokens a `.` starts.
pub open spec fn dot_token(k: Tok) -> bool {
    k is Dot || k is DotDot || k is DotDotEq || k is Lifetime
}

// ---- what the lexer produces ---------------------------------------------------------
//
// `lex_spec` states the whole token stream (or the error) a source text lexes
// to, by the same steps the lexer takes: line starts measure indentation,
// then tokens, line breaks and comments follow one another to the end.

/// The line of position `p` (from 1): one more than the line breaks before it.
pub open spec fn line_at(s: Seq<char>, p: int) -> int
    decreases p,
{
    if p <= 0 {
        1
    } else if s[p - 1] == '\n' {
        line_at(s, p - 1) + 1
    } else {
        line_at(s, p - 1)
    }
}

/// The column of position `p` (from 1): one more than the characters since
/// the last line break.
pub open spec fn col_at(s: Seq<char>, p: int) -> int
    decreases p,
{
    if p <= 0 {
        1
    } else if s[p - 1] == '\n' {
        1
    } else {
        col_at(s, p - 1) + 1
    }
}

/// Where position `p` is, as a span.
pub open spec fn span_at(s: Seq<char>, p: int) -> Span {
    Span { line: line_at(s, p) as usize, col: col_at(s, p) as usize }
}

/// A token kind by its parts: the number of its variant, the text it
/// carries and the integer it carries.
pub type TokView = (int, Seq<char>, int);

pub open spec fn tok_view(k: Tok) -> TokView {
    match k {
        Tok::Int(v) => (0, Seq::empty(), v as int),
        Tok::Float(t) => (1, t@, 0),
        Tok::Str(t) => (2, t@, 0),
        Tok::RawStr(t) => (3, t@, 0),
        Tok::Ident(t) => (4, t@, 0),
        Tok::Lifetime(t) => (5, t@, 0),
        Tok::Attribute(t) => (6, t@, 0),
        _ => (k.tag(), Seq::empty(), 0),
    }
}

/// A token by its parts: its kind and where it starts.
pub type TokenView = (TokView, Span);

pub open spec fn tokens_view(ts: Seq<Token>) -> Seq<TokenView> {
    ts.map_values(|t: Token| (tok_view(t.kind), t.span))
}

/// A token kind without a payload, by its parts.
pub open spec fn plain(k: Tok) -> TokView {
    (k.tag(), Seq::empty(), 0)
}

/// A lexing error by its parts: its message and the position it is reported at.
pub type LexFailure = (Seq<char>, int);

/// The kind of a word: its keyword, else an identifier holding it.
pub open spec fn word_view(text: Seq<char>) -> TokView {
    match keyword(text) {
        Some(k) => tok_view(k),
        None => (4, text, 0),
    }
}

/// A number literal at `p`: where it ends and its token.
pub open spec fn number_step(s: Seq<char>, p: int) -> Result<(int, TokView), LexFailure> {
    let e1 = num_run_end(s, p);
    let int_text = strip_underscores(s.subrange(p, e1));
    if e1 + 1 < s.len() && s[e1] == '.' && is_digit(s[e1 + 1]) {
        let e2 = num_run_end(s, e1 + 1);
        Ok((e2, (1, int_text + seq!['.'] + strip_underscores(s.subrange(e1 + 1, e2)), 0)))
    } else if digits_value(int_text) <= i64::MAX {
        Ok((e1, (0, Seq::empty(), digits_value(int_text) as int)))
    } else {
        Err(("invalid integer literal `"@ + s.subrange(p, e1) + "`"@, e1))
    }
}

/// Where scanning a normal string literal from `i` stops when it is not
/// closed: at a line break, or at the end of the text.
pub open spec fn string_stop(s: Seq<char>, i: int) -> int
    decreases s.len() - i,
{
    if i < 0 || i >= s.len() || s[i] == '\n' || s[i] == '"' {
        if 0 <= i < s.len() {
            i
        } else {
            s.len() as int
        }
    } else if s[i] == '\\' {
        if i + 1 < s.len() {
            string_stop(s, i + 2)
        } else {
            s.len() as int
        }
    } else {
        string_stop(s, i + 1)
    }
}

/// A normal string literal whose quote is at `p`.
pub open spec fn string_step(s: Seq<char>, p: int) -> Result<(int, TokView), LexFailure> {
    match string_body(s, p + 1) {
        Some((e, body)) => Ok((e, (2, body, 0))),
        None => Err(("unterminated string literal"@, string_stop(s, p + 1))),
    }
}

/// The end of the run of `#` that starts at `i`.
pub open spec fn hash_run_end(s: Seq<char>, i: int) -> int
    decreases s.len() - i,
{
    if 0 <= i < s.len() && s[i] == '#' {
        hash_run_end(s, i + 1)
    } else {
        i
    }
}

/// Where a raw string literal with `n` hashes, scanned from `i`, ends: after
/// the first `"` followed by `n` hashes.
pub open spec fn raw_close(s: Seq<char>, i: int, n: int) -> Option<int>
    decreases s.len() - i,
{
    if i < 0 || i >= s.len() {
        None
    } else if s[i] == '"' && hashes_follow(s, i, n) {
        Some(i + 1 + n)
    } else {
        raw_close(s, i + 1, n)
    }
}

/// A raw string literal whose `r` is at `p`; its token holds it verbatim.
pub open spec fn raw_string_step(s: Seq<char>, p: int) -> Result<(int, TokView), LexFailure> {
    let q = hash_run_end(s, p + 1);
    if q >= s.len() || s[q] != '"' {
        Err(("malformed raw string literal"@, q))
    } else {
        match raw_close(s, q + 1, q - p - 1) {
            Some(e) => Ok((e, (3, s.subrange(p, e), 0))),
            None => Err(("unterminated raw string literal"@, s.len() as int)),
        }
    }
}

/// Where an attribute body scanned from `i`, `d` brackets deep, ends: after
/// the `]` that closes the outermost bracket.
pub open spec fn attr_close(s: Seq<char>, i: int, d: int) -> Option<int>
    decreases s.len() - i,
{
    if i < 0 || i >= s.len() {
        None
    } else if s[i] == '[' {
        attr_close(s, i + 1, d + 1)
    } else if s[i] == ']' {
        if d <= 1 {
            Some(i + 1)
        } else {
            attr_close(s, i + 1, d - 1)
        }
    } else {
        attr_close(s, i + 1, d)
    }
}

/// An attribute whose `#` is at `p`; its token holds the body between the
/// brackets, with the `!` of an inner attribute before it.
pub open spec fn attribute_step(s: Seq<char>, p: int) -> Result<(int, TokView), LexFailure> {
    let bang = p + 1 < s.len() && s[p + 1] == '!';
    let b = if bang { p + 2 } else { p + 1 };
    if !(b < s.len() && s[b] == '[') {
        Err(("expected `[` after `#` in attribute"@, b))
    } else {
        match attr_close(s, b + 1, 1) {
            Some(e) => Ok((e, (6, (if bang { seq!['!'] } else { Seq::<char>::empty() }) + s.subrange(b + 1, e - 1), 0))),
            None => Err(("unterminated attribute"@, s.len() as int)),
        }
    }
}

/// How a bracket token changes the bracket depth.
pub open spec fn bracket_delta(t: Tok) -> int {
    if t is LParen || t is LBracket || t is LBrace {
        1
    } else if t is RParen || t is RBracket || t is RBrace {
        -1
    } else {
        0
    }
}

/// Variants after which a `.name` is a lifetime.
pub open spec fn lifetime_tag(t: int) -> bool {
    t == Tok::LBracket.tag() || t == Tok::Comma.tag() || t == Tok::LParen.tag() || t == Tok::Colon.tag()
        || t == Tok::Arrow.tag() || t == Tok::Lt.tag() || t == Tok::Ref.tag()
}

/// Punctuation at `p`: where it ends, the bracket depth after it, and its token.
pub open spec fn symbol_step(s: Seq<char>, p: int, depth: int, toks: Seq<TokenView>) -> Result<(int, int, TokView), LexFailure> {
    let c = s[p];
    let next = if p + 1 < s.len() { Some(s[p + 1]) } else { None };
    if c == '.' {
        if next == Some('.') {
            if p + 2 < s.len() && s[p + 2] == '=' {
                Ok((p + 3, depth, plain(Tok::DotDotEq)))
            } else {
                Ok((p + 2, depth, plain(Tok::DotDot)))
            }
        } else if p + 1 < s.len() && is_ident_start(s[p + 1]) && toks.len() > 0 && lifetime_tag(
            toks.last().0.0,
        ) {
            let e = ident_run_end(s, p + 2);
            Ok((e, depth, (5, s.subrange(p + 1, e), 0)))
        } else {
            Ok((p + 1, depth, plain(Tok::Dot)))
        }
    } else if c == '!' && next != Some('=') {
        Err(("unexpected `!` (use `not` for negation)"@, p + 1))
    } else {
        match fixed_symbol(c, next) {
            Some((t, n)) => Ok((p + n, depth + bracket_delta(t), tok_view(t))),
            None => Err(("unexpected character `"@ + seq![c] + "`"@, p)),
        }
    }
}

/// One token at `p`, after the tokens `toks`, with `depth` brackets open:
/// where lexing goes on, the bracket depth then, and the token.
pub open spec fn token_step(s: Seq<char>, p: int, depth: int, toks: Seq<TokenView>) -> Result<(int, int, TokenView), LexFailure> {
    let c = s[p];
    let start = span_at(s, p);
    let one = if c == 'r' && p + 1 < s.len() && (s[p + 1] == '"' || s[p + 1] == '#') {
        raw_string_step(s, p)
    } else if is_digit(c) {
        number_step(s, p)
    } else if is_ident_start(c) {
        let e = ident_run_end(s, p + 1);
        Ok((e, word_view(s.subrange(p, e))))
    } else if c == '"' {
        string_step(s, p)
    } else if c == '#' {
        attribute_step(s, p)
    } else {
        match symbol_step(s, p, depth, toks) {
            Ok((e, _, t)) => Ok((e, t)),
            Err(f) => Err(f),
        }
    };
    match one {
        Ok((e, t)) => Ok((e, if c == 'r' && p + 1 < s.len() && (s[p + 1] == '"' || s[p + 1] == '#') || is_digit(c)
            || is_ident_start(c) || c == '"' || c == '#' {
            depth
        } else {
            symbol_step(s, p, depth, toks)->Ok_0.1
        }, (t, start))),
        Err(f) => Err(f),
    }
}

/// Skipping the spaces (one column each) and tabs (four) at `p`: where they
/// end, and the indentation they make.
pub open spec fn indent_run(s: Seq<char>, p: int) -> (int, int)
    decreases s.len() - p,
{
    if 0 <= p < s.len() && (s[p] == ' ' || s[p] == '\t') {
        let (e, n) = indent_run(s, p + 1);
        (e, n + if s[p] == ' ' { 1int } else { 4int })
    } else {
        (p, 0)
    }
}

/// The end of a `//` comment that starts at `p`: the next line break, or
/// the end of the text.
pub open spec fn comment_end(s: Seq<char>, p: int) -> int
    decreases s.len() - p,
{
    if 0 <= p < s.len() && s[p] != '\n' {
        comment_end(s, p + 1)
    } else {
        p
    }
}

/// The end of the spaces, tabs and carriage returns at `p`.
pub open spec fn ws_end(s: Seq<char>, p: int) -> int
    decreases s.len() - p,
{
    if 0 <= p < s.len() && (s[p] == ' ' || s[p] == '\t' || s[p] == '\r') {
        ws_end(s, p + 1)
    } else {
        p
    }
}

pub proof fn lemma_indent_run(s: Seq<char>, p: int)
    requires
        0 <= p <= s.len(),
    ensures
        p <= indent_run(s, p).0 <= s.len(),
        0 <= indent_run(s, p).1 <= 4 * (indent_run(s, p).0 - p),
        indent_run(s, p).0 == s.len() || (s[indent_run(s, p).0] != ' ' && s[indent_run(s, p).0] != '\t'),
    decreases s.len() - p,
{
    if p < s.len() && (s[p] == ' ' || s[p] == '\t') {
        lemma_indent_run(s, p + 1);
    }
}

pub proof fn lemma_comment_end(s: Seq<char>, p: int)
    requires
        0 <= p <= s.len(),
    ensures
        p <= comment_end(s, p) <= s.len(),
        comment_end(s, p) == s.len() || s[comment_end(s, p)] == '\n',
    decreases s.len() - p,
{
    if p < s.len() && s[p] != '\n' {
        lemma_comment_end(s, p + 1);
    }
}

pub proof fn lemma_ws_end(s: Seq<char>, p: int)
    requires
        0 <= p <= s.len(),
    ensures
        p <= ws_end(s, p) <= s.len(),
        ws_end(s, p) == s.len() || (s[ws_end(s, p)] != ' ' && s[ws_end(s, p)] != '\t' && s[ws_end(s, p)] != '\r'),
    decreases s.len() - p,
{
    if p < s.len() && (s[p] == ' ' || s[p] == '\t' || s[p] == '\r') {
        lemma_ws_end(s, p + 1);
    }
}

/// Closing the blocks deeper than indentation `ind`, each with a `Dedent`.
pub open spec fn close_blocks(stack: Seq<usize>, toks: Seq<TokenView>, ind: int, sp: Span) -> (Seq<usize>, Seq<TokenView>)
    decreases stack.len(),
{
    if stack.len() > 0 && ind < stack.last() {
        close_blocks(stack.drop_last(), toks.push((plain(Tok::Dedent), sp)), ind, sp)
    } else {
        (stack, toks)
    }
}

/// The start of a line at `p`, with indentation stack `stack`: blank and
/// comment-only lines are skipped; the first line with content opens a block,
/// closes blocks, or stays, by its indentation. Where lexing goes on, the
/// stack, and the tokens.
pub open spec fn line_start(s: Seq<char>, p: int, stack: Seq<usize>, toks: Seq<TokenView>) -> Result<(int, Seq<usize>, Seq<TokenView>), LexFailure>
    decreases s.len() - p,
{
    if p < 0 || p > s.len() {
        Ok((p, stack, toks))
    } else {
        proof {
            lemma_indent_run(s, p);
        }
        let (e, ind) = indent_run(s, p);
        if e >= s.len() {
            Ok((e, stack, toks))
        } else if s[e] == '\n' || s[e] == '\r' {
            line_start(s, e + 1, stack, toks)
        } else if s[e] == '/' && e + 1 < s.len() && s[e + 1] == '/' {
            proof {
                lemma_comment_end(s, e + 1);
            }
            line_start(s, comment_end(s, e + 1), stack, toks)
        } else {
            let sp = span_at(s, e);
            let top = stack.last();
            if ind > top {
                Ok((e, stack.push(ind as usize), toks.push((plain(Tok::Indent), sp))))
            } else if ind < top {
                let (st2, t2) = close_blocks(stack, toks, ind, sp);
                if st2.len() > 0 && ind == st2.last() {
                    Ok((e, st2, t2))
                } else {
                    Err(("inconsistent indentation (found "@ + decimal(ind as nat) + " spaces)"@, e))
                }
            } else {
                Ok((e, stack, toks))
            }
        }
    }
}

pub proof fn lemma_line_start_moves(s: Seq<char>, p: int, stack: Seq<usize>, toks: Seq<TokenView>)
    requires
        0 <= p <= s.len(),
    ensures
        line_start(s, p, stack, toks) matches Ok((q, _, _)) ==> p <= q <= s.len(),
    decreases s.len() - p,
{
    lemma_indent_run(s, p);
    let (e, ind) = indent_run(s, p);
    if e < s.len() {
        if s[e] == '\n' || s[e] == '\r' {
            lemma_line_start_moves(s, e + 1, stack, toks);
        } else if s[e] == '/' && e + 1 < s.len() && s[e + 1] == '/' {
            lemma_comment_end(s, e + 1);
            lemma_line_start_moves(s, comment_end(s, e + 1), stack, toks);
        }
    }
}

/// Variants that are layout rather than content.
pub open spec fn layout_tag(t: int) -> bool {
    t == Tok::Newline.tag() || t == Tok::Indent.tag() || t == Tok::Dedent.tag()
}

/// The last token is content, so a line break after it ends a line.
pub open spec fn ends_with_content(toks: Seq<TokenView>) -> bool {
    toks.len() > 0 && !layout_tag(toks.last().0.0)
}

/// A `Newline` at `sp` when the line produced content.
pub open spec fn end_line(toks: Seq<TokenView>, sp: Span) -> Seq<TokenView> {
    if ends_with_content(toks) {
        toks.push((plain(Tok::Newline), sp))
    } else {
        toks
    }
}

/// `n` `Dedent` tokens at `sp`.
pub open spec fn dedents(n: nat, sp: Span) -> Seq<TokenView> {
    Seq::new(n, |i: int| (plain(Tok::Dedent), sp))
}

/// The end of the text: the last line ends, every open block closes, and
/// `Eof` follows, all at the end position.
pub open spec fn finish(s: Seq<char>, stack: Seq<usize>, toks: Seq<TokenView>) -> Seq<TokenView> {
    let sp = span_at(s, s.len() as int);
    (end_line(toks, sp) + dedents((stack.len() - 1) as nat, sp)).push((plain(Tok::Eof), sp))
}

proof fn lemma_string_body_ends(s: Seq<char>, i: int)
    requires
        0 <= i,
    ensures
        string_body(s, i) matches Some((e, _)) ==> i < e <= s.len(),
    decreases s.len() - i,
{
    if 0 <= i < s.len() && s[i] != '"' && s[i] != '\n' {
        if s[i] == '\\' {
            if i + 1 < s.len() {
                lemma_string_body_ends(s, i + 2);
            }
        } else {
            lemma_string_body_ends(s, i + 1);
        }
    }
}

proof fn lemma_raw_close_ends(s: Seq<char>, i: int, n: int)
    requires
        0 <= i,
        0 <= n,
    ensures
        raw_close(s, i, n) matches Some(e) ==> i < e <= s.len(),
    decreases s.len() - i,
{
    if 0 <= i < s.len() && !(s[i] == '"' && hashes_follow(s, i, n)) {
        lemma_raw_close_ends(s, i + 1, n);
    }
}

proof fn lemma_attr_close_ends(s: Seq<char>, i: int, d: int)
    requires
        0 <= i,
    ensures
        attr_close(s, i, d) matches Some(e) ==> i < e <= s.len(),
    decreases s.len() - i,
{
    if 0 <= i < s.len() {
        if s[i] == '[' {
            lemma_attr_close_ends(s, i + 1, d + 1);
        } else if s[i] == ']' {
            if d > 1 {
                lemma_attr_close_ends(s, i + 1, d - 1);
            }
        } else {
            lemma_attr_close_ends(s, i + 1, d);
        }
    }
}

proof fn lemma_hash_run(s: Seq<char>, i: int)
    requires
        0 <= i <= s.len(),
    ensures
        i <= hash_run_end(s, i) <= s.len(),
        forall|k: int| i <= k < hash_run_end(s, i) ==> s[k] == '#',
    decreases s.len() - i,
{
    if i < s.len() && s[i] == '#' {
        lemma_hash_run(s, i + 1);
    }
}

pub proof fn lemma_token_step_moves(s: Seq<char>, p: int, depth: int, toks: Seq<TokenView>)
    requires
        0 <= p < s.len(),
    ensures
        token_step(s, p, depth, toks) matches Ok((e, _, _)) ==> p < e <= s.len(),
{
    let c = s[p];
    if c == 'r' && p + 1 < s.len() && (s[p + 1] == '"' || s[p + 1] == '#') {
        lemma_hash_run(s, p + 1);
        let q = hash_run_end(s, p + 1);
        if q < s.len() && s[q] == '"' {
            lemma_raw_close_ends(s, q + 1, q - p - 1);
        }
    } else if is_digit(c) {
        lemma_num_run(s, p);
        let e1 = num_run_end(s, p);
        if e1 + 1 < s.len() && s[e1] == '.' && is_digit(s[e1 + 1]) {
            lemma_num_run(s, e1 + 1);
        }
    } else if is_ident_start(c) {
        lemma_ident_run(s, p + 1);
    } else if c == '"' {
        lemma_string_body_ends(s, p + 1);
    } else if c == '#' {
        let bang = p + 1 < s.len() && s[p + 1] == '!';
        let b = if bang { p + 2 } else { p + 1 };
        lemma_attr_close_ends(s, b + 1, 1);
    } else if c == '.' && p + 1 < s.len() && s[p + 1] != '.' && is_ident_start(s[p + 1]) {
        lemma_ident_run(s, p + 2);
    }
}

/// Lexing on from `p` with `depth` brackets open, indentation stack `stack`
/// and the tokens `toks` so far.
pub open spec fn run(s: Seq<char>, p: int, depth: int, stack: Seq<usize>, toks: Seq<TokenView>) -> Result<Seq<TokenView>, LexFailure>
    decreases s.len() - p,
{
    if p < 0 || p > s.len() {
        Ok(finish(s, stack, toks))
    } else {
        proof {
            lemma_ws_end(s, p);
        }
        let q = ws_end(s, p);
        if q >= s.len() {
            Ok(finish(s, stack, toks))
        } else if s[q] == '\n' {
            if depth == 0 {
                proof {
                    lemma_line_start_moves(s, q + 1, stack, end_line(toks, span_at(s, q + 1)));
                }
                match line_start(s, q + 1, stack, end_line(toks, span_at(s, q + 1))) {
                    Ok((p2, st2, t2)) => run(s, p2, depth, st2, t2),
                    Err(f) => Err(f),
                }
            } else {
                run(s, q + 1, depth, stack, toks)
            }
        } else if s[q] == '/' && q + 1 < s.len() && s[q + 1] == '/' {
            proof {
                lemma_comment_end(s, q + 1);
            }
            run(s, comment_end(s, q + 1), depth, stack, toks)
        } else {
            proof {
                lemma_token_step_moves(s, q, depth, toks);
            }
            match token_step(s, q, depth, toks) {
                Ok((e, d2, t)) => run(s, e, d2, stack, toks.push(t)),
                Err(f) => Err(f),
            }
        }
    }
}

/// The tokens a source text lexes to, or the first error.
pub open spec fn lex_spec(s: Seq<char>) -> Result<Seq<TokenView>, LexFailure> {
    match line_start(s, 0, seq![0usize], Seq::empty()) {
        Ok((p, st, ts)) => run(s, p, 0, st, ts),
        Err(f) => Err(f),
    }
}

proof fn lemma_view_push(ts: Seq<Token>, t: Token)
    ensures
        tokens_view(ts.push(t)) == tokens_view(ts).push((tok_view(t.kind), t.span)),
{
    assert(tokens_view(ts.push(t)) =~= tokens_view(ts).push((tok_view(t.kind), t.span)));
}

proof fn lemma_tok_view_tag(k: Tok)
    ensures
        tok_view(k).0 == k.tag(),
        k.is_layout() <==> layout_tag(k.tag()),
        lifetime_context(k) <==> lifetime_tag(k.tag()),
{
}

/// The keyword token a word spells, or an identifier holding the word.
fn keyword_or_ident(text: String) -> (k: Tok)
    ensures
        word_token(k, text@),
{
    let t = text.as_str();
    if str_eq(t, "def") { Tok::Def }
    else if str_eq(t, "return") { Tok::Return }
    else if str_eq(t, "if") { Tok::If }
    else if str_eq(t, "elif") { Tok::Elif }
    else if str_eq(t, "else") { Tok::Else }
    else if str_eq(t, "while") { Tok::While }
    else if str_eq(t, "for") { Tok::For }
    else if str_eq(t, "in") { Tok::In }
    else if str_eq(t, "loop") { Tok::Loop }
    else if str_eq(t, "break") { Tok::Break }
    else if str_eq(t, "continue") { Tok::Continue }
    else if str_eq(t, "match") { Tok::Match }
    else if str_eq(t, "case") { Tok::Case }
    else if str_eq(t, "struct") { Tok::Struct }
    else if str_eq(t, "enum") { Tok::Enum }
    else if str_eq(t, "impl") { Tok::Impl }
    else if str_eq(t, "trait") { Tok::Trait }
    else if str_eq(t, "mut") { Tok::Mut }
    else if str_eq(t, "ref") { Tok::Ref }
    else if str_eq(t, "at") { Tok::At }
    else if str_eq(t, "move") { Tok::Move }
    else if str_eq(t, "clone") { Tok::Clone }
    else if str_eq(t, "pub") { Tok::Pub }
    else if str_eq(t, "and") { Tok::And }
    else if str_eq(t, "or") { Tok::Or }
    else if str_eq(t, "not") { Tok::Not }
    else if str_eq(t, "pass") { Tok::Pass }
    else if str_eq(t, "as") { Tok::As }
    else if str_eq(t, "with") { Tok::With }
    else if str_eq(t, "unsafe") { Tok::Unsafe }
    else if str_eq(t, "async") { Tok::Async }
    else if str_eq(t, "await") { Tok::Await }
    else if str_eq(t, "from") { Tok::From }
    else if str_eq(t, "import") { Tok::Import }
    else if str_eq(t, "void") { Tok::Void }
    else if str_eq(t, "true") { Tok::True }
    else if str_eq(t, "false") { Tok::False }
    else if str_eq(t, "fn") { Tok::Fn }
    else { Tok::Ident(text) }
}

pub struct Lexer<'a> {
    chars: Vec<char>,
    pos: usize,
    line: usize,
    col: usize,
    file: &'a str,
    tokens: Vec<Token>,
    indent_stack: Vec<usize>,
    paren_depth: i32,
}

impl<'a> Lexer<'a> {
    /// The source being lexed.
    pub closed spec fn source(&self) -> Seq<char> {
        self.chars@
    }

    /// The file name used in diagnostics.
    pub closed spec fn file_name(&self) -> Seq<char> {
        self.file@
    }

    /// The lexer's state is consistent: the indentation stack starts at 0 and
    /// strictly increases, the tokens emitted so far open exactly as many
    /// blocks as the stack holds above its base, and positions stay in range.
    pub closed spec fn inv(&self) -> bool {
        &&& self.chars@.len() <= MAX_SOURCE_CHARS
        &&& self.pos <= self.chars@.len()
        &&& 1 <= self.line <= self.pos + 1
        &&& 1 <= self.col <= self.pos + 1
        &&& self.line == line_at(self.chars@, self.pos as int)
        &&& self.col == col_at(self.chars@, self.pos as int)
        &&& self.indent_stack@.len() >= 1
        &&& stack_ok(self.indent_stack@)
        &&& -(self.pos as int) <= self.paren_depth <= self.pos
        &&& stream_inv(self.tokens@, self.indent_stack@.len() - 1)
    }

    /// Same input, same file, not moved backwards.
    closed spec fn follows(&self, prev: &Self) -> bool {
        &&& self.chars@ == prev.chars@
        &&& self.file@ == prev.file@
        &&& self.pos >= prev.pos
    }

    /// Nothing lexed yet: at the first character, no tokens, no blocks or
    /// brackets open.
    pub closed spec fn at_start(&self) -> bool {
        &&& self.pos == 0
        &&& self.tokens@.len() == 0
        &&& self.indent_stack@ == seq![0usize]
        &&& self.paren_depth == 0
    }

    pub fn new(source: &'a str, file: &'a str) -> (l: Self)
        ensures
            l.source() == source@,
            l.file_name() == file@,
            source@.len() <= MAX_SOURCE_CHARS ==> l.inv(),
            l.at_start(),
    {
        let mut indent_stack: Vec<usize> = Vec::new();
        indent_stack.push(0);
        let l = Lexer {
            chars: crate::text::chars_of(source),
            pos: 0,
            line: 1,
            col: 1,
            file,
            tokens: Vec::new(),
            indent_stack,
            paren_depth: 0,
        };
        proof {
            reveal(stream_inv);
            reveal(stack_ok);
            assert(l.tokens@.take(0) =~= l.tokens@);
        }
        l
    }

    fn span(&self) -> (s: Span)
        requires
            self.inv(),
        ensures
            s.line == self.line,
            s.col == self.col,
            s == span_at(self.chars@, self.pos as int),
    {
        Span::new(self.line, self.col)
    }

    fn err(&self, msg: String) -> (e: TinysError)
        requires
            self.inv(),
        ensures
            e.stage == Stage::Lex,
            e.file@ == self.file@,
            e.message@ == msg@,
            e.span == span_at(self.chars@, self.pos as int),
    {
        TinysError::new(Stage::Lex, msg, self.file, self.span())
    }

    fn peek(&self) -> (r: Option<char>)
        ensures
            r == (if self.pos < self.chars@.len() {
                Some(self.chars@[self.pos as int])
            } else {
                None
            }),
    {
        if self.pos < self.chars.len() {
            Some(self.chars[self.pos])
        } else {
            None
        }
    }

    fn peek2(&self) -> (r: Option<char>)
        requires
            self.inv(),
        ensures
            r == (if self.pos + 1 < self.chars@.len() {
                Some(self.chars@[self.pos + 1])
            } else {
                None
            }),
    {
        if self.pos + 1 < self.chars.len() {
            Some(self.chars[self.pos + 1])
        } else {
            None
        }
    }

    fn peek_at(&self, i: usize) -> (r: Option<char>)
        ensures
            r == (if i < self.chars@.len() {
                Some(self.chars@[i as int])
            } else {
                None
            }),
    {
        if i < self.chars.len() {
            Some(self.chars[i])
        } else {
            None
        }
    }

    /// Whether the character at `i` exists and is `c`.
    fn at_is(&self, i: usize, c: char) -> (r: bool)
        ensures
            r == (i < self.chars@.len() && self.chars@[i as int] == c),
    {
        i < self.chars.len() && self.chars[i] == c
    }

    fn advance(&mut self) -> (r: Option<char>)
        requires
            old(self).inv(),
        ensures
            final(self).inv(),
            final(self).follows(old(self)),
            final(self).tokens@ == old(self).tokens@,
            final(self).indent_stack@ == old(self).indent_stack@,
            final(self).paren_depth == old(self).paren_depth,
            old(self).pos < old(self).chars@.len() ==> final(self).pos == old(self).pos + 1 && r
                == Some(old(self).chars@[old(self).pos as int]),
            old(self).pos >= old(self).chars@.len() ==> final(self).pos == old(self).pos && r
                is None,
    {
        if self.pos < self.chars.len() {
            let ch = self.chars[self.pos];
            self.pos = self.pos + 1;
            if ch == '\n' {
                self.line = self.line + 1;
                self.col = 1;
            } else {
                self.col = self.col + 1;
            }
            Some(ch)
        } else {
            None
        }
    }

    /// Emits a token written in the source.
    fn push_content(&mut self, kind: Tok, span: Span)
        requires
            old(self).inv(),
            !kind.is_layout(),
            !(kind is Eof),
        ensures
            final(self).inv(),
            final(self).follows(old(self)),
            final(self).pos == old(self).pos,
            final(self).tokens@ == old(self).tokens@.push(Token { kind, span }),
            tokens_view(final(self).tokens@) == tokens_view(old(self).tokens@).push((tok_view(kind), span)),
            final(self).indent_stack@ == old(self).indent_stack@,
            final(self).paren_depth == old(self).paren_depth,
    {
        proof {
            reveal(stream_inv);
            reveal(stack_ok);
            lemma_push_token(self.tokens@, Token { kind, span });
            lemma_view_push(self.tokens@, Token { kind, span });
        }
        self.tokens.push(Token { kind, span });
    }

    fn push_newline(&mut self)
        requires
            old(self).inv(),
            old(self).tokens@.len() > 0,
            !old(self).tokens@.last().kind.is_layout(),
        ensures
            final(self).inv(),
            final(self).follows(old(self)),
            final(self).pos == old(self).pos,
            final(self).tokens@ == old(self).tokens@.push(
                Token { kind: Tok::Newline, span: Span { line: old(self).line, col: old(self).col } },
            ),
            tokens_view(final(self).tokens@) == tokens_view(old(self).tokens@).push(
                (plain(Tok::Newline), span_at(old(self).chars@, old(self).pos as int)),
            ),
            final(self).indent_stack@ == old(self).indent_stack@,
            final(self).paren_depth == old(self).paren_depth,
    {
        let span = self.span();
        proof {
            reveal(stream_inv);
            reveal(stack_ok);
            lemma_push_token(self.tokens@, Token { kind: Tok::Newline, span });
            lemma_view_push(self.tokens@, Token { kind: Tok::Newline, span });
        }
        self.tokens.push(Token { kind: Tok::Newline, span });
    }

    /// Opens a block at indentation `indent`.
    fn push_indent(&mut self, indent: usize)
        requires
            old(self).inv(),
            indent > old(self).indent_stack@.last(),
        ensures
            final(self).inv(),
            final(self).follows(old(self)),
            final(self).pos == old(self).pos,
            final(self).indent_stack@ == old(self).indent_stack@.push(indent),
            final(self).tokens@ == old(self).tokens@.push(
                Token { kind: Tok::Indent, span: Span { line: old(self).line, col: old(self).col } },
            ),
            tokens_view(final(self).tokens@) == tokens_view(old(self).tokens@).push(
                (plain(Tok::Indent), span_at(old(self).chars@, old(self).pos as int)),
            ),
            final(self).paren_depth == old(self).paren_depth,
    {
        let span = self.span();
        proof {
            reveal(stream_inv);
            reveal(stack_ok);
            lemma_push_token(self.tokens@, Token { kind: Tok::Indent, span });
            lemma_view_push(self.tokens@, Token { kind: Tok::Indent, span });
        }
        self.indent_stack.push(indent);
        self.tokens.push(Token { kind: Tok::Indent, span });
    }

    /// Closes the innermost block.
    fn pop_dedent(&mut self)
        requires
            old(self).inv(),
            old(self).indent_stack@.len() > 1,
        ensures
            final(self).inv(),
            final(self).follows(old(self)),
            final(self).pos == old(self).pos,
            final(self).indent_stack@ == old(self).indent_stack@.drop_last(),
            final(self).tokens@ == old(self).tokens@.push(
                Token { kind: Tok::Dedent, span: Span { line: old(self).line, col: old(self).col } },
            ),
            tokens_view(final(self).tokens@) == tokens_view(old(self).tokens@).push(
                (plain(Tok::Dedent), span_at(old(self).chars@, old(self).pos as int)),
            ),
            final(self).paren_depth == old(self).paren_depth,
    {
        let span = self.span();
        proof {
            reveal(stream_inv);
            reveal(stack_ok);
            lemma_push_token(self.tokens@, Token { kind: Tok::Dedent, span });
            lemma_view_push(self.tokens@, Token { kind: Tok::Dedent, span });
        }
        self.indent_stack.pop();
        self.tokens.push(Token { kind: Tok::Dedent, span });
    }

    /// True when the most recent token is real content (not layout), so a
    /// `Newline` would end a line that produced something.
    fn last_significant_is_content(&self) -> (r: bool)
        ensures
            r == (self.tokens@.len() > 0 && !self.tokens@.last().kind.is_layout()),
    {
        let n = self.tokens.len();
        if n == 0 {
            return false;
        }
        match &self.tokens[n - 1].kind {
            Tok::Newline | Tok::Indent | Tok::Dedent => false,
            _ => true,
        }
    }

    /// Lexes the whole source.
    pub fn tokenize(self) -> (r: Result<Vec<Token>, TinysError>)
        requires
            self.inv(),
            self.at_start(),
        ensures
            r matches Ok(ts) ==> well_formed_stream(ts@),
            r matches Err(e) ==> e.stage == Stage::Lex && e.file@ == self.file_name(),
            match lex_spec(self.source()) {
                Ok(tv) => r matches Ok(ts) && tokens_view(ts@) == tv,
                Err((m, ep)) => r matches Err(e) && e.message@ == m && e.span == span_at(
                    self.source(),
                    ep,
                ),
            },
    {
        let mut lx = self;
        let ghost file = lx.file@;
        let ghost src = lx.chars@;
        let ghost goal = lex_spec(src);
        assert(tokens_view(lx.tokens@) =~= Seq::<TokenView>::empty());
        lx.handle_line_start()?;
        loop
            invariant
                lx.inv(),
                lx.file@ == file,
                file == self.file@,
                src == lx.chars@,
                src == self.chars@,
                goal == lex_spec(src),
                goal == run(
                    src,
                    lx.pos as int,
                    lx.paren_depth as int,
                    lx.indent_stack@,
                    tokens_view(lx.tokens@),
                ),
            ensures
                lx.pos == lx.chars@.len(),
            decreases lx.chars@.len() - lx.pos,
        {
            let ghost p = lx.pos as int;
            lx.skip_inline_ws();
            proof {
                let q = lx.pos as int;
                lemma_ws_end(src, q);
                assert(ws_end(src, q) == q);
                assert(run(src, p, lx.paren_depth as int, lx.indent_stack@, tokens_view(lx.tokens@))
                    == run(src, q, lx.paren_depth as int, lx.indent_stack@, tokens_view(lx.tokens@)));
            }
            match lx.peek() {
                None => break,
                Some('\n') => {
                    lx.advance();
                    if lx.paren_depth == 0 {
                        proof {
                            if lx.tokens@.len() > 0 {
                                lemma_tok_view_tag(lx.tokens@.last().kind);
                            }
                        }
                        if lx.last_significant_is_content() {
                            lx.push_newline();
                        }
                        lx.handle_line_start()?;
                    }
                },
                Some(c) => {
                    if c == '/' && lx.at_is(lx.pos + 1, '/') {
                        lx.skip_comment();
                    } else {
                        lx.lex_token(c)?;
                    }
                },
            }
        }
        let ghost tv0 = tokens_view(lx.tokens@);
        let ghost st0 = lx.indent_stack@;
        let ghost sp = span_at(src, src.len() as int);
        proof {
            if lx.tokens@.len() > 0 {
                lemma_tok_view_tag(lx.tokens@.last().kind);
            }
        }
        if lx.last_significant_is_content() {
            lx.push_newline();
        }
        assert(tokens_view(lx.tokens@) == end_line(tv0, sp));
        assert(end_line(tv0, sp) + dedents(0, sp) =~= end_line(tv0, sp));
        while lx.indent_stack.len() > 1
            invariant
                lx.inv(),
                lx.file@ == file,
                src == lx.chars@,
                lx.pos == src.len(),
                sp == span_at(src, src.len() as int),
                1 <= lx.indent_stack@.len() <= st0.len(),
                tokens_view(lx.tokens@) == end_line(tv0, sp) + dedents(
                    (st0.len() - lx.indent_stack@.len()) as nat,
                    sp,
                ),
            decreases lx.indent_stack@.len(),
        {
            let ghost before = tokens_view(lx.tokens@);
            lx.pop_dedent();
            assert(end_line(tv0, sp) + dedents((st0.len() - lx.indent_stack@.len()) as nat, sp)
                =~= before.push((plain(Tok::Dedent), sp)));
        }
        let span = lx.span();
        proof {
            reveal(stream_inv);
            reveal(stack_ok);
            lemma_push_token(lx.tokens@, Token { kind: Tok::Eof, span });
            lemma_view_push(lx.tokens@, Token { kind: Tok::Eof, span });
        }
        lx.tokens.push(Token { kind: Tok::Eof, span });
        Ok(lx.tokens)
    }

    /// Skips a `//` comment up to (not including) the end of the line.
    fn skip_comment(&mut self)
        requires
            old(self).inv(),
            old(self).pos < old(self).chars@.len(),
            old(self).chars@[old(self).pos as int] == '/',
        ensures
            final(self).inv(),
            final(self).follows(old(self)),
            final(self).pos > old(self).pos,
            final(self).tokens@ == old(self).tokens@,
            final(self).indent_stack@ == old(self).indent_stack@,
            final(self).paren_depth == old(self).paren_depth,
            final(self).pos == final(self).chars@.len() || final(self).chars@[final(self).pos as int]
                == '\n',
            forall|k: int|
                old(self).pos <= k < final(self).pos ==> final(self).chars@[k] != '\n',
            final(self).pos == comment_end(old(self).chars@, old(self).pos + 1),
    {
        let ghost start = self.pos;
        self.advance();
        loop
            invariant
                self.inv(),
                self.follows(old(self)),
                self.pos > start,
                start == old(self).pos,
                comment_end(self.chars@, self.pos as int) == comment_end(self.chars@, start + 1),
                self.tokens@ == old(self).tokens@,
                self.indent_stack@ == old(self).indent_stack@,
                self.paren_depth == old(self).paren_depth,
                forall|k: int| start <= k < self.pos ==> self.chars@[k] != '\n',
            ensures
                self.pos == self.chars@.len() || self.chars@[self.pos as int] == '\n',
            decreases self.chars@.len() - self.pos,
        {
            match self.peek() {
                None => break,
                Some(c) => {
                    if c == '\n' {
                        break;
                    }
                    self.advance();
                },
            }
        }
    }

    fn skip_inline_ws(&mut self)
        requires
            old(self).inv(),
        ensures
            final(self).inv(),
            final(self).follows(old(self)),
            final(self).tokens@ == old(self).tokens@,
            final(self).indent_stack@ == old(self).indent_stack@,
            final(self).paren_depth == old(self).paren_depth,
            final(self).pos == final(self).chars@.len() || (final(self).chars@[final(self).pos as int]
                != ' ' && final(self).chars@[final(self).pos as int] != '\t'
                && final(self).chars@[final(self).pos as int] != '\r'),
            final(self).pos == ws_end(old(self).chars@, old(self).pos as int),
    {
        loop
            invariant
                self.inv(),
                self.follows(old(self)),
                ws_end(self.chars@, self.pos as int) == ws_end(old(self).chars@, old(self).pos as int),
                self.tokens@ == old(self).tokens@,
                self.indent_stack@ == old(self).indent_stack@,
                self.paren_depth == old(self).paren_depth,
            ensures
                self.pos == self.chars@.len() || (self.chars@[self.pos as int] != ' '
                    && self.chars@[self.pos as int] != '\t' && self.chars@[self.pos as int] != '\r'),
            decreases self.chars@.len() - self.pos,
        {
            match self.peek() {
                Some(c) => {
                    if c == ' ' || c == '\t' || c == '\r' {
                        self.advance();
                    } else {
                        break;
                    }
                },
                None => break,
            }
        }
    }

    /// Measures indentation at the start of a logical line and emits
    /// `Indent`/`Dedent` tokens. Blank lines and comment-only lines carry no
    /// indentation meaning.
    fn handle_line_start(&mut self) -> (r: Result<(), TinysError>)
        requires
            old(self).inv(),
        ensures
            final(self).inv(),
            final(self).follows(old(self)),
            final(self).paren_depth == old(self).paren_depth,
            r matches Err(e) ==> e.stage == Stage::Lex && e.file@ == old(self).file@,
            match line_start(
                old(self).chars@,
                old(self).pos as int,
                old(self).indent_stack@,
                tokens_view(old(self).tokens@),
            ) {
                Ok((q, st, ts)) => r is Ok && final(self).pos == q && final(self).indent_stack@ == st
                    && tokens_view(final(self).tokens@) == ts,
                Err((m, ep)) => r matches Err(e) && e.message@ == m && e.span == span_at(
                    old(self).chars@,
                    ep,
                ),
            },
    {
        let ghost goal = line_start(
            self.chars@,
            self.pos as int,
            self.indent_stack@,
            tokens_view(self.tokens@),
        );
        loop
            invariant
                self.inv(),
                self.follows(old(self)),
                self.paren_depth == old(self).paren_depth,
                goal == line_start(
                    old(self).chars@,
                    old(self).pos as int,
                    old(self).indent_stack@,
                    tokens_view(old(self).tokens@),
                ),
                goal == line_start(
                    self.chars@,
                    self.pos as int,
                    self.indent_stack@,
                    tokens_view(self.tokens@),
                ),
            decreases self.chars@.len() - self.pos,
        {
            let mut indent: usize = 0;
            let ghost line_start_pos = self.pos as int;
            let ghost st0 = self.indent_stack@;
            let ghost tv0 = tokens_view(self.tokens@);
            proof {
                lemma_indent_run(self.chars@, line_start_pos);
            }
            loop
                invariant
                    self.inv(),
                    self.follows(old(self)),
                    self.paren_depth == old(self).paren_depth,
                    self.pos >= line_start_pos,
                    0 <= line_start_pos <= self.chars@.len(),
                    indent <= 4 * (self.pos - line_start_pos),
                    self.indent_stack@ == st0,
                    tokens_view(self.tokens@) == tv0,
                    indent_run(self.chars@, line_start_pos) == (
                        indent_run(self.chars@, self.pos as int).0,
                        indent + indent_run(self.chars@, self.pos as int).1,
                    ),
                ensures
                    self.pos == self.chars@.len() || (self.chars@[self.pos as int] != ' '
                        && self.chars@[self.pos as int] != '\t'),
                decreases self.chars@.len() - self.pos,
            {
                match self.peek() {
                    Some(' ') => {
                        indent = indent + 1;
                        self.advance();
                    },
                    Some('\t') => {
                        indent = indent + 4;
                        self.advance();
                    },
                    _ => break,
                }
            }
            let ghost e = self.pos as int;
            assert(indent_run(self.chars@, e) == (e, 0int));
            assert(indent_run(self.chars@, line_start_pos) == (e, indent as int));
            match self.peek() {
                None => return Ok(()),
                Some('\n') => {
                    self.advance();
                    continue ;
                },
                Some('\r') => {
                    self.advance();
                    continue ;
                },
                Some(c) => {
                    if c == '/' && self.at_is(self.pos + 1, '/') {
                        self.skip_comment();
                        continue ;
                    }
                    let top = self.indent_stack[self.indent_stack.len() - 1];
                    if indent > top {
                        self.push_indent(indent);
                    } else if indent < top {
                        let ghost sp = span_at(self.chars@, e);
                        while indent < self.indent_stack[self.indent_stack.len() - 1]
                            invariant
                                self.inv(),
                                self.follows(old(self)),
                                self.paren_depth == old(self).paren_depth,
                                self.pos == e,
                                sp == span_at(self.chars@, e),
                                close_blocks(st0, tv0, indent as int, sp) == close_blocks(
                                    self.indent_stack@,
                                    tokens_view(self.tokens@),
                                    indent as int,
                                    sp,
                                ),
                            decreases self.indent_stack@.len(),
                        {
                            proof {
                                reveal(stack_ok);
                            }
                            self.pop_dedent();
                        }
                        if indent != self.indent_stack[self.indent_stack.len() - 1] {
                            let mut msg = String::new();
                            msg.append("inconsistent indentation (found ");
                            push_decimal(&mut msg, indent as u64);
                            msg.append(" spaces)");
                            return Err(self.err(msg));
                        }
                    }
                    return Ok(());
                },
            }
        }
    }

    fn lex_token(&mut self, c: char) -> (r: Result<(), TinysError>)
        requires
            old(self).inv(),
            old(self).pos < old(self).chars@.len(),
            old(self).chars@[old(self).pos as int] == c,
        ensures
            final(self).inv(),
            final(self).follows(old(self)),
            r is Ok ==> final(self).pos > old(self).pos,
            r matches Err(e) ==> e.stage == Stage::Lex && e.file@ == old(self).file@,
            final(self).indent_stack@ == old(self).indent_stack@,
            match token_step(
                old(self).chars@,
                old(self).pos as int,
                old(self).paren_depth as int,
                tokens_view(old(self).tokens@),
            ) {
                Ok((e, d, t)) => r is Ok && final(self).pos == e && final(self).paren_depth == d
                    && tokens_view(final(self).tokens@) == tokens_view(old(self).tokens@).push(t),
                Err((m, ep)) => r matches Err(x) && x.message@ == m && x.span == span_at(
                    old(self).chars@,
                    ep,
                ),
            },
    {
        let start = self.span();
        if c == 'r' {
            if self.at_is(self.pos + 1, '"') || self.at_is(self.pos + 1, '#') {
                return self.lex_raw_string(start);
            }
        }
        if char_is_digit(c) {
            return self.lex_number(start);
        }
        if char_is_alphabetic(c) || c == '_' {
            return self.lex_ident(start);
        }
        if c == '"' {
            return self.lex_string(start);
        }
        if c == '#' {
            return self.lex_attribute(start);
        }
        self.lex_symbol(c, start)
    }

    /// A `.name` is a lifetime only where a type could appear: right after
    /// `[`, `,`, `(`, `:`, `->`, `<`, or `ref`. Everywhere else a dot is field
    /// access. This keeps `user.name` distinct from `ref[.a] str`.
    fn lifetime_position(&self) -> (r: bool)
        ensures
            r == (self.tokens@.len() > 0 && lifetime_context(self.tokens@.last().kind)),
    {
        let n = self.tokens.len();
        if n == 0 {
            return false;
        }
        match &self.tokens[n - 1].kind {
            Tok::LBracket | Tok::Comma | Tok::LParen | Tok::Colon | Tok::Arrow | Tok::Lt
            | Tok::Ref => true,
            _ => false,
        }
    }

    fn lex_number(&mut self, start: Span) -> (r: Result<(), TinysError>)
        requires
            old(self).inv(),
            old(self).pos < old(self).chars@.len(),
            is_digit(old(self).chars@[old(self).pos as int]),
        ensures
            final(self).inv(),
            final(self).follows(old(self)),
            final(self).pos > old(self).pos,
            number_lexed(old(self).chars@, old(self).pos as int, start, old(self).tokens@,
                final(self).tokens@, final(self).pos as int, (r is Ok)),
            r matches Err(e) ==> e.stage == Stage::Lex && e.file@ == old(self).file@,
            final(self).indent_stack@ == old(self).indent_stack@,
            final(self).paren_depth == old(self).paren_depth,
            match number_step(old(self).chars@, old(self).pos as int) {
                Ok((e, t)) => r is Ok && final(self).pos == e && tokens_view(final(self).tokens@)
                    == tokens_view(old(self).tokens@).push((t, start)),
                Err((m, ep)) => r matches Err(x) && x.message@ == m && x.span == span_at(
                    old(self).chars@,
                    ep,
                ),
            },
    {
        let ghost src = self.chars@;
        let ghost p0 = self.pos as int;
        let mut text = String::new();
        let mut cleaned = String::new();
        self.scan_number_run(&mut text, &mut cleaned);
        let ghost e1 = self.pos as int;
        let mut is_float = false;
        if self.at_is(self.pos, '.') {
            match self.peek2() {
                Some(d) => {
                    is_float = char_is_digit(d);
                },
                None => {},
            }
        }
        assert(cleaned@ =~= strip_underscores(src.subrange(p0, e1)));
        if is_float {
            let ghost int_text = cleaned@;
            push_char(&mut text, '.');
            push_char(&mut cleaned, '.');
            self.advance();
            let ghost before = cleaned@;
            self.scan_number_run(&mut text, &mut cleaned);
            assert(cleaned@ =~= int_text + seq!['.'] + strip_underscores(
                src.subrange(e1 + 1, self.pos as int),
            ));
            self.push_content(Tok::Float(cleaned), start);
            assert(self.tokens@.drop_last() =~= old(self).tokens@);
            Ok(())
        } else {
            proof {
                lemma_num_run(src, p0);
                let sub = src.subrange(p0, e1);
                assert forall|k: int| 0 <= k < sub.len() implies is_num_char(#[trigger] sub[k]) by {
                    assert(sub[k] == src[p0 + k]);
                }
                lemma_strip_digits(sub);
                assert(cleaned@ =~= strip_underscores(sub));
            }
            let mut value: i64 = 0;
            let mut overflow = false;
            let mut i: usize = 0;
            let n = cleaned.unicode_len();
            while i < n
                invariant
                    n == cleaned@.len(),
                    i <= n,
                    forall|k: int| 0 <= k < n ==> is_digit(#[trigger] cleaned@[k]),
                    overflow <==> digits_value(cleaned@.take(i as int)) > i64::MAX,
                    !overflow ==> value == digits_value(cleaned@.take(i as int)),
                decreases n - i,
            {
                let c = cleaned.as_str().get_char(i);
                let d: i64 = (c as u32 - '0' as u32) as i64;
                proof {
                    assert(cleaned@.take(i + 1).drop_last() =~= cleaned@.take(i as int));
                    lemma_digits_value_push(cleaned@.take(i as int), c);
                }
                if !overflow {
                    if value > (i64::MAX - d) / 10 {
                        overflow = true;
                        assert(value * 10 + d > i64::MAX) by (nonlinear_arith)
                            requires
                                value > (i64::MAX - d) / 10,
                                0 <= d < 10,
                        ;
                    } else {
                        assert(value * 10 + d <= i64::MAX) by (nonlinear_arith)
                            requires
                                value <= (i64::MAX - d) / 10,
                                0 <= d < 10,
                                value >= 0,
                        ;
                        value = value * 10 + d;
                    }
                }
                i = i + 1;
            }
            assert(cleaned@.take(n as int) =~= cleaned@);
            if overflow {
                let mut msg = String::new();
                msg.append("invalid integer literal `");
                msg.append(text.as_str());
                msg.append("`");
                proof {
                    reveal_strlit("invalid integer literal `");
                    reveal_strlit("`");
                }
                return Err(self.err(msg));
            }
            self.push_content(Tok::Int(value), start);
            Ok(())
        }
    }

    /// Consumes a run of digits and `_`, appending it to `text` and, without
    /// the `_`, to `cleaned`.
    fn scan_number_run(&mut self, text: &mut String, cleaned: &mut String)
        requires
            old(self).inv(),
        ensures
            final(self).inv(),
            final(self).follows(old(self)),
            final(self).tokens@ == old(self).tokens@,
            final(self).indent_stack@ == old(self).indent_stack@,
            final(self).paren_depth == old(self).paren_depth,
            final(self).pos == num_run_end(old(self).chars@, old(self).pos as int),
            final(text)@ == old(text)@ + old(self).chars@.subrange(old(self).pos as int, final(self).pos as int),
            final(cleaned)@ == old(cleaned)@ + strip_underscores(
                old(self).chars@.subrange(old(self).pos as int, final(self).pos as int),
            ),
    {
        let ghost p0 = self.pos as int;
        let ghost t0 = text@;
        let ghost c0 = cleaned@;
        loop
            invariant
                self.inv(),
                self.follows(old(self)),
                self.tokens@ == old(self).tokens@,
                self.indent_stack@ == old(self).indent_stack@,
                self.paren_depth == old(self).paren_depth,
                p0 == old(self).pos,
                p0 <= self.pos,
                num_run_end(self.chars@, self.pos as int) == num_run_end(self.chars@, p0),
                text@ == t0 + self.chars@.subrange(p0, self.pos as int),
                cleaned@ == c0 + strip_underscores(self.chars@.subrange(p0, self.pos as int)),
            ensures
                self.pos == self.chars@.len() || !is_num_char(self.chars@[self.pos as int]),
            decreases self.chars@.len() - self.pos,
        {
            match self.peek() {
                Some(c) => {
                    if char_is_digit(c) || c == '_' {
                        let ghost sub = self.chars@.subrange(p0, self.pos as int);
                        push_char(text, c);
                        if c != '_' {
                            push_char(cleaned, c);
                        }
                        self.advance();
                        proof {
                            assert(self.chars@.subrange(p0, self.pos as int) =~= sub.push(c));
                            assert(sub.push(c).drop_last() =~= sub);
                        }
                    } else {
                        break;
                    }
                },
                None => break,
            }
        }
    }

    fn lex_ident(&mut self, start: Span) -> (r: Result<(), TinysError>)
        requires
            old(self).inv(),
            old(self).pos < old(self).chars@.len(),
            is_ident_start(old(self).chars@[old(self).pos as int]),
        ensures
            final(self).inv(),
            final(self).follows(old(self)),
            r is Ok,
            final(self).pos == ident_run_end(old(self).chars@, old(self).pos as int),
            final(self).pos > old(self).pos,
            final(self).tokens@.len() == old(self).tokens@.len() + 1,
            final(self).tokens@.drop_last() == old(self).tokens@,
            final(self).tokens@.last().span == start,
            word_token(
                final(self).tokens@.last().kind,
                old(self).chars@.subrange(old(self).pos as int, final(self).pos as int),
            ),
            final(self).pos == ident_run_end(old(self).chars@, old(self).pos + 1),
            final(self).indent_stack@ == old(self).indent_stack@,
            final(self).paren_depth == old(self).paren_depth,
            tokens_view(final(self).tokens@) == tokens_view(old(self).tokens@).push(
                (word_view(old(self).chars@.subrange(old(self).pos as int, final(self).pos as int)), start),
            ),
    {
        let mut text = String::new();
        let ghost p0 = self.pos as int;
        let _ = char_is_alphanumeric(self.chars[self.pos]);
        loop
            invariant
                self.inv(),
                self.follows(old(self)),
                self.tokens@ == old(self).tokens@,
                self.indent_stack@ == old(self).indent_stack@,
                self.paren_depth == old(self).paren_depth,
                p0 == old(self).pos,
                p0 <= self.pos,
                ident_run_end(self.chars@, self.pos as int) == ident_run_end(self.chars@, p0),
                text@ == self.chars@.subrange(p0, self.pos as int),
                is_ident_char(self.chars@[p0]),
            ensures
                self.pos == self.chars@.len() || !is_ident_char(self.chars@[self.pos as int]),
            decreases self.chars@.len() - self.pos,
        {
            match self.peek() {
                Some(c) => {
                    if char_is_alphanumeric(c) || c == '_' {
                        push_char(&mut text, c);
                        self.advance();
                        assert(text@ =~= self.chars@.subrange(p0, self.pos as int));
                    } else {
                        break;
                    }
                },
                None => break,
            }
        }
        let kind = keyword_or_ident(text);
        assert(tok_view(kind) == word_view(self.chars@.subrange(p0, self.pos as int)));
        self.push_content(kind, start);
        Ok(())
    }

    fn lex_string(&mut self, start: Span) -> (r: Result<(), TinysError>)
        requires
            old(self).inv(),
            old(self).pos < old(self).chars@.len(),
            old(self).chars@[old(self).pos as int] == '"',
        ensures
            final(self).inv(),
            final(self).follows(old(self)),
            r is Ok ==> final(self).pos > old(self).pos,
            r is Ok <==> string_body(old(self).chars@, old(self).pos + 1) is Some,
            r is Ok ==> {
                let (end, body) = string_body(old(self).chars@, old(self).pos + 1)->0;
                &&& final(self).pos == end
                &&& final(self).tokens@.len() == old(self).tokens@.len() + 1
                &&& final(self).tokens@.drop_last() == old(self).tokens@
                &&& final(self).tokens@.last().span == start
                &&& final(self).tokens@.last().kind matches Tok::Str(t) && t@ == body
            },
            r matches Err(e) ==> e.stage == Stage::Lex && e.file@ == old(self).file@,
            final(self).indent_stack@ == old(self).indent_stack@,
            final(self).paren_depth == old(self).paren_depth,
            match string_step(old(self).chars@, old(self).pos as int) {
                Ok((e, t)) => r is Ok && final(self).pos == e && tokens_view(final(self).tokens@)
                    == tokens_view(old(self).tokens@).push((t, start)),
                Err((m, ep)) => r matches Err(x) && x.message@ == m && x.span == span_at(
                    old(self).chars@,
                    ep,
                ),
            },
    {
        let ghost src = self.chars@;
        let ghost p1 = self.pos + 1;
        self.advance();
        let mut text = String::new();
        proof {
            lemma_prepend_assoc(Seq::<char>::empty(), Seq::<char>::empty(), string_body(src, p1));
            match string_body(src, p1) {
                Some((e, b)) => {
                    assert(Seq::<char>::empty() + b =~= b);
                },
                None => {},
            }
        }
        loop
            invariant_except_break
                string_body(src, p1) == prepend_body(text@, string_body(src, self.pos as int)),
                string_stop(src, p1) == string_stop(src, self.pos as int),
            invariant
                self.inv(),
                self.follows(old(self)),
                self.tokens@ == old(self).tokens@,
                self.indent_stack@ == old(self).indent_stack@,
                self.paren_depth == old(self).paren_depth,
                src == self.chars@,
                src == old(self).chars@,
                p1 == old(self).pos + 1,
                p1 <= self.pos,
            ensures
                string_body(src, p1) == Some((self.pos as int, text@)),
                self.pos > p1,
            decreases self.chars@.len() - self.pos,
        {
            let ghost t0 = text@;
            let ghost p = self.pos as int;
            match self.peek() {
                None => {
                    proof {
                        reveal_strlit("unterminated string literal");
                    }
                    return Err(self.err(String::from_str("unterminated string literal")));
                },
                Some(c) => {
                    if c == '"' {
                        self.advance();
                        assert(t0 + Seq::<char>::empty() =~= t0);
                        break;
                    } else if c == '\\' {
                        push_char(&mut text, '\\');
                        self.advance();
                        match self.peek() {
                            Some(escaped) => {
                                push_char(&mut text, escaped);
                                self.advance();
                                proof {
                                    lemma_prepend_assoc(t0, seq!['\\', escaped], string_body(src, p + 2));
                                    assert(text@ =~= t0 + seq!['\\', escaped]);
                                }
                            },
                            None => {},
                        }
                    } else if c == '\n' {
                        proof {
                            reveal_strlit("unterminated string literal");
                        }
                        return Err(self.err(String::from_str("unterminated string literal")));
                    } else {
                        push_char(&mut text, c);
                        self.advance();
                        proof {
                            lemma_prepend_assoc(t0, seq![c], string_body(src, p + 1));
                            assert(text@ =~= t0 + seq![c]);
                        }
                    }
                },
            }
        }
        self.push_content(Tok::Str(text), start);
        Ok(())
    }

    /// Whether the `hashes` characters after position `q` are all `#`.
    fn closing_hashes(&self, q: usize, hashes: usize) -> (m: bool)
        requires
            q < self.chars@.len(),
            hashes <= self.chars@.len(),
            self.chars@.len() <= MAX_SOURCE_CHARS,
        ensures
            m == hashes_follow(self.chars@, q as int, hashes as int),
    {
        let mut k: usize = 0;
        while k < hashes
            invariant
                k <= hashes,
                q < self.chars@.len(),
                hashes <= self.chars@.len(),
                self.chars@.len() <= MAX_SOURCE_CHARS,
                hashes_follow(self.chars@, q as int, k as int),
            decreases hashes - k,
        {
            if !self.at_is(q + k + 1, '#') {
                proof {
                    let j = q + k + 1;
                    if hashes_follow(self.chars@, q as int, hashes as int) {
                        assert(q < j <= q + hashes);
                        assert(self.chars@[j as int] == '#');
                    }
                }
                return false;
            }
            proof {
                assert forall|j: int| q < j <= q + k + 1 implies self.chars@[j] == '#' by {
                    if j < q + k + 1 {
                        assert(q < j <= q + k);
                    }
                }
            }
            k = k + 1;
        }
        true
    }

    fn lex_raw_string(&mut self, start: Span) -> (r: Result<(), TinysError>)
        requires
            old(self).inv(),
            old(self).pos < old(self).chars@.len(),
            old(self).chars@[old(self).pos as int] == 'r',
        ensures
            final(self).inv(),
            final(self).follows(old(self)),
            r is Ok ==> {
                &&& final(self).pos > old(self).pos
                &&& final(self).tokens@.len() == old(self).tokens@.len() + 1
                &&& final(self).tokens@.drop_last() == old(self).tokens@
                &&& final(self).tokens@.last().span == start
                &&& final(self).tokens@.last().kind matches Tok::RawStr(t) && t@
                    == old(self).chars@.subrange(old(self).pos as int, final(self).pos as int)
            },
            r matches Err(e) ==> e.stage == Stage::Lex && e.file@ == old(self).file@,
            final(self).indent_stack@ == old(self).indent_stack@,
            final(self).paren_depth == old(self).paren_depth,
            match raw_string_step(old(self).chars@, old(self).pos as int) {
                Ok((e, t)) => r is Ok && final(self).pos == e && tokens_view(final(self).tokens@)
                    == tokens_view(old(self).tokens@).push((t, start)),
                Err((m, ep)) => r matches Err(x) && x.message@ == m && x.span == span_at(
                    old(self).chars@,
                    ep,
                ),
            },
    {
        let ghost p0 = self.pos as int;
        let mut literal = String::new();
        push_char(&mut literal, 'r');
        self.advance();
        let mut hashes: usize = 0;
        while self.at_is(self.pos, '#')
            invariant
                self.inv(),
                self.follows(old(self)),
                self.tokens@ == old(self).tokens@,
                self.indent_stack@ == old(self).indent_stack@,
                self.paren_depth == old(self).paren_depth,
                p0 == old(self).pos,
                p0 < self.pos,
                hashes == self.pos - p0 - 1,
                literal@ == self.chars@.subrange(p0, self.pos as int),
                hash_run_end(self.chars@, p0 + 1) == hash_run_end(self.chars@, self.pos as int),
            decreases self.chars@.len() - self.pos,
        {
            hashes = hashes + 1;
            push_char(&mut literal, '#');
            self.advance();
            assert(literal@ =~= self.chars@.subrange(p0, self.pos as int));
        }
        let ghost oq = self.pos as int;
        assert(hash_run_end(self.chars@, oq) == oq);
        if !self.at_is(self.pos, '"') {
            proof {
                reveal_strlit("malformed raw string literal");
            }
            return Err(self.err(String::from_str("malformed raw string literal")));
        }
        push_char(&mut literal, '"');
        self.advance();
        assert(literal@ =~= self.chars@.subrange(p0, self.pos as int));
        loop
            invariant_except_break
                raw_close(self.chars@, oq + 1, hashes as int) == raw_close(
                    self.chars@,
                    self.pos as int,
                    hashes as int,
                ),
            invariant
                self.inv(),
                self.follows(old(self)),
                self.tokens@ == old(self).tokens@,
                self.indent_stack@ == old(self).indent_stack@,
                self.paren_depth == old(self).paren_depth,
                p0 == old(self).pos,
                p0 < self.pos,
                hashes <= self.chars@.len(),
                hashes == oq - p0 - 1,
                oq + 1 <= self.pos,
                oq == hash_run_end(self.chars@, p0 + 1),
                oq < self.chars@.len() && self.chars@[oq] == '"',
                literal@ == self.chars@.subrange(p0, self.pos as int),
            ensures
                raw_close(self.chars@, oq + 1, hashes as int) == Some(self.pos as int),
            decreases self.chars@.len() - self.pos,
        {
            match self.peek() {
                None => {
                    proof {
                        reveal_strlit("unterminated raw string literal");
                    }
                    return Err(self.err(String::from_str("unterminated raw string literal")));
                },
                Some(c) => {
                    if c == '"' {
                        let matched = self.closing_hashes(self.pos, hashes);
                        if matched {
                            let ghost q = self.pos as int;
                            push_char(&mut literal, '"');
                            self.advance();
                            assert(literal@ =~= self.chars@.subrange(p0, self.pos as int));
                            let mut m: usize = 0;
                            while m < hashes
                                invariant
                                    self.inv(),
                                    self.follows(old(self)),
                                    self.tokens@ == old(self).tokens@,
                                    self.indent_stack@ == old(self).indent_stack@,
                                    self.paren_depth == old(self).paren_depth,
                                    p0 == old(self).pos,
                                    p0 < self.pos,
                                    m <= hashes,
                                    self.pos == q + 1 + m,
                                    hashes_follow(self.chars@, q, hashes as int),
                                    literal@ == self.chars@.subrange(p0, self.pos as int),
                                decreases hashes - m,
                            {
                                assert(q < self.pos <= q + hashes);
                                assert(self.chars@[self.pos as int] == '#');
                                push_char(&mut literal, '#');
                                self.advance();
                                assert(literal@ =~= self.chars@.subrange(p0, self.pos as int));
                                m = m + 1;
                            }
                            break;
                        } else {
                            push_char(&mut literal, '"');
                            self.advance();
                            assert(literal@ =~= self.chars@.subrange(p0, self.pos as int));
                        }
                    } else {
                        push_char(&mut literal, c);
                        self.advance();
                        assert(literal@ =~= self.chars@.subrange(p0, self.pos as int));
                    }
                },
            }
        }
        self.push_content(Tok::RawStr(literal), start);
        Ok(())
    }

    fn lex_attribute(&mut self, start: Span) -> (r: Result<(), TinysError>)
        requires
            old(self).inv(),
            old(self).pos < old(self).chars@.len(),
            old(self).chars@[old(self).pos as int] == '#',
        ensures
            final(self).inv(),
            final(self).follows(old(self)),
            r is Ok ==> {
                let p0 = old(self).pos as int;
                let src = old(self).chars@;
                let bang = p0 + 1 < src.len() && src[p0 + 1] == '!';
                let body_start = if bang { p0 + 3 } else { p0 + 2 };
                &&& final(self).pos > old(self).pos
                &&& body_start <= final(self).pos
                &&& src[final(self).pos - 1] == ']'
                &&& final(self).tokens@.len() == old(self).tokens@.len() + 1
                &&& final(self).tokens@.drop_last() == old(self).tokens@
                &&& final(self).tokens@.last().span == start
                &&& final(self).tokens@.last().kind matches Tok::Attribute(t) && t@ == (if bang {
                    seq!['!']
                } else {
                    Seq::<char>::empty()
                }) + src.subrange(body_start, final(self).pos - 1)
            },
            r matches Err(e) ==> e.stage == Stage::Lex && e.file@ == old(self).file@,
            final(self).indent_stack@ == old(self).indent_stack@,
            final(self).paren_depth == old(self).paren_depth,
            match attribute_step(old(self).chars@, old(self).pos as int) {
                Ok((e, t)) => r is Ok && final(self).pos == e && tokens_view(final(self).tokens@)
                    == tokens_view(old(self).tokens@).push((t, start)),
                Err((m, ep)) => r matches Err(x) && x.message@ == m && x.span == span_at(
                    old(self).chars@,
                    ep,
                ),
            },
    {
        let ghost p0 = self.pos as int;
        let ghost src = self.chars@;
        self.advance();
        let inner_bang = self.at_is(self.pos, '!');
        if inner_bang {
            self.advance();
        }
        if !self.at_is(self.pos, '[') {
            proof {
                reveal_strlit("expected `[` after `#` in attribute");
            }
            return Err(self.err(String::from_str("expected `[` after `#` in attribute")));
        }
        self.advance();
        let ghost body_start = self.pos as int;
        let ghost prefix = if inner_bang { seq!['!'] } else { Seq::<char>::empty() };
        let mut depth: usize = 1;
        let mut body = String::new();
        if inner_bang {
            push_char(&mut body, '!');
        }
        assert(body@ =~= prefix + src.subrange(body_start, self.pos as int));
        while depth > 0
            invariant
                self.inv(),
                self.follows(old(self)),
                self.tokens@ == old(self).tokens@,
                self.indent_stack@ == old(self).indent_stack@,
                self.paren_depth == old(self).paren_depth,
                src == self.chars@,
                p0 == old(self).pos,
                body_start == (if inner_bang { p0 + 3 } else { p0 + 2 }),
                inner_bang == (p0 + 1 < src.len() && src[p0 + 1] == '!'),
                prefix == (if inner_bang { seq!['!'] } else { Seq::<char>::empty() }),
                body_start <= self.pos,
                depth <= self.pos - body_start + 1,
                depth > 0 ==> body@ == prefix + src.subrange(body_start, self.pos as int),
                depth == 0 ==> body_start < self.pos && src[self.pos - 1] == ']' && body@ == prefix
                    + src.subrange(body_start, self.pos - 1),
                src[body_start - 1] == '[',
                depth > 0 ==> attr_close(src, body_start, 1) == attr_close(src, self.pos as int, depth as int),
                depth == 0 ==> attr_close(src, body_start, 1) == Some(self.pos as int),
            decreases self.chars@.len() - self.pos, depth,
        {
            match self.peek() {
                None => {
                    proof {
                        reveal_strlit("unterminated attribute");
                    }
                    return Err(self.err(String::from_str("unterminated attribute")));
                },
                Some(c) => {
                    if c == '[' {
                        depth = depth + 1;
                        push_char(&mut body, '[');
                    } else if c == ']' {
                        depth = depth - 1;
                        if depth > 0 {
                            push_char(&mut body, ']');
                        }
                    } else {
                        push_char(&mut body, c);
                    }
                    self.advance();
                    assert(src.subrange(body_start, self.pos as int) =~= src.subrange(
                        body_start,
                        self.pos - 1,
                    ).push(c));
                    assert(body@ =~= prefix + src.subrange(body_start, self.pos as int) || depth
                        == 0);
                },
            }
        }
        self.push_content(Tok::Attribute(body), start);
        Ok(())
    }

    /// Pushes `single`, or `double` when the next character is `second`
    /// (consuming it too).
    fn two(&mut self, second: char, double: Tok, single: Tok, start: Span)
        requires
            old(self).inv(),
            old(self).pos < old(self).chars@.len(),
            !double.is_layout(),
            !(double is Eof),
            !single.is_layout(),
            !(single is Eof),
        ensures
            final(self).inv(),
            final(self).follows(old(self)),
            final(self).paren_depth == old(self).paren_depth,
            old(self).pos + 1 < old(self).chars@.len() && old(self).chars@[old(self).pos + 1]
                == second ==> final(self).pos == old(self).pos + 2 && final(self).tokens@ == old(
                self,
            ).tokens@.push(Token { kind: double, span: start }),
            !(old(self).pos + 1 < old(self).chars@.len() && old(self).chars@[old(self).pos + 1]
                == second) ==> final(self).pos == old(self).pos + 1 && final(self).tokens@ == old(
                self,
            ).tokens@.push(Token { kind: single, span: start }),
            final(self).indent_stack@ == old(self).indent_stack@,
            tokens_view(final(self).tokens@) == tokens_view(old(self).tokens@).push(
                (tok_view(final(self).tokens@.last().kind), start),
            ),
    {
        self.advance();
        if self.peek() == Some(second) {
            self.advance();
            self.push_content(double, start);
        } else {
            self.push_content(single, start);
        }
    }

    fn open_bracket(&mut self, kind: Tok, start: Span)
        requires
            old(self).inv(),
            old(self).pos < old(self).chars@.len(),
            !kind.is_layout(),
            !(kind is Eof),
        ensures
            final(self).inv(),
            final(self).follows(old(self)),
            final(self).pos == old(self).pos + 1,
            final(self).paren_depth == old(self).paren_depth + 1,
            final(self).tokens@ == old(self).tokens@.push(Token { kind, span: start }),
            final(self).indent_stack@ == old(self).indent_stack@,
            tokens_view(final(self).tokens@) == tokens_view(old(self).tokens@).push((tok_view(kind), start)),
    {
        self.advance();
        self.paren_depth = self.paren_depth + 1;
        self.push_content(kind, start);
    }

    fn close_bracket(&mut self, kind: Tok, start: Span)
        requires
            old(self).inv(),
            old(self).pos < old(self).chars@.len(),
            !kind.is_layout(),
            !(kind is Eof),
        ensures
            final(self).inv(),
            final(self).follows(old(self)),
            final(self).pos == old(self).pos + 1,
            final(self).paren_depth == old(self).paren_depth - 1,
            final(self).tokens@ == old(self).tokens@.push(Token { kind, span: start }),
            final(self).indent_stack@ == old(self).indent_stack@,
            tokens_view(final(self).tokens@) == tokens_view(old(self).tokens@).push((tok_view(kind), start)),
    {
        self.advance();
        self.paren_depth = self.paren_depth - 1;
        self.push_content(kind, start);
    }

    fn single(&mut self, kind: Tok, start: Span)
        requires
            old(self).inv(),
            old(self).pos < old(self).chars@.len(),
            !kind.is_layout(),
            !(kind is Eof),
        ensures
            final(self).inv(),
            final(self).follows(old(self)),
            final(self).pos == old(self).pos + 1,
            final(self).paren_depth == old(self).paren_depth,
            final(self).tokens@ == old(self).tokens@.push(Token { kind, span: start }),
            final(self).indent_stack@ == old(self).indent_stack@,
            tokens_view(final(self).tokens@) == tokens_view(old(self).tokens@).push((tok_view(kind), start)),
    {
        self.advance();
        self.push_content(kind, start);
    }

    fn lex_symbol(&mut self, c: char, start: Span) -> (r: Result<(), TinysError>)
        requires
            old(self).inv(),
            old(self).pos < old(self).chars@.len(),
            old(self).chars@[old(self).pos as int] == c,
        ensures
            final(self).inv(),
            final(self).follows(old(self)),
            r is Ok ==> final(self).pos > old(self).pos,
            c != '.' ==> symbol_lexed(
                old(self).chars@,
                old(self).pos as int,
                start,
                old(self).tokens@,
                final(self).tokens@,
                final(self).pos as int,
                (r is Ok),
            ),
            c == '.' ==> r is Ok && final(self).tokens@.len() == old(self).tokens@.len() + 1
                && final(self).tokens@.drop_last() == old(self).tokens@ && dot_token(
                final(self).tokens@.last().kind,
            ),
            r matches Err(e) ==> e.stage == Stage::Lex && e.file@ == old(self).file@,
            final(self).indent_stack@ == old(self).indent_stack@,
            match symbol_step(
                old(self).chars@,
                old(self).pos as int,
                old(self).paren_depth as int,
                tokens_view(old(self).tokens@),
            ) {
                Ok((e, d, t)) => r is Ok && final(self).pos == e && final(self).paren_depth == d
                    && tokens_view(final(self).tokens@) == tokens_view(old(self).tokens@).push(
                    (t, start),
                ),
                Err((m, ep)) => r matches Err(x) && x.message@ == m && x.span == span_at(
                    old(self).chars@,
                    ep,
                ),
            },
    {
        let ghost src = self.chars@;
        let ghost p0 = self.pos as int;
        proof {
            if self.tokens@.len() > 0 {
                lemma_tok_view_tag(self.tokens@.last().kind);
                assert(tokens_view(self.tokens@).last().0 == tok_view(self.tokens@.last().kind));
            }
        }
        if c == '(' {
            self.open_bracket(Tok::LParen, start);
        } else if c == ')' {
            self.close_bracket(Tok::RParen, start);
        } else if c == '[' {
            self.open_bracket(Tok::LBracket, start);
        } else if c == ']' {
            self.close_bracket(Tok::RBracket, start);
        } else if c == '{' {
            self.open_bracket(Tok::LBrace, start);
        } else if c == '}' {
            self.close_bracket(Tok::RBrace, start);
        } else if c == ':' {
            self.single(Tok::Colon, start);
        } else if c == ',' {
            self.single(Tok::Comma, start);
        } else if c == '.' {
            let n = self.peek2();
            if self.at_is(self.pos + 1, '.') {
                self.advance();
                self.advance();
                if self.at_is(self.pos, '=') {
                    self.advance();
                    self.push_content(Tok::DotDotEq, start);
                } else {
                    self.push_content(Tok::DotDot, start);
                }
            } else {
                let mut starts_name = false;
                match n {
                    Some(d) => {
                        starts_name = char_is_alphabetic(d) || d == '_';
                    },
                    None => {},
                }
                if starts_name && self.lifetime_position() {
                    let first = self.chars[self.pos + 1];
                    let _ = char_is_alphanumeric(first);
                    self.advance();
                    let mut name = String::new();
                    loop
                        invariant
                            self.inv(),
                            self.follows(old(self)),
                            self.tokens@ == old(self).tokens@,
                            self.indent_stack@ == old(self).indent_stack@,
                            self.paren_depth == old(self).paren_depth,
                            self.pos > old(self).pos,
                            src == self.chars@,
                            p0 == old(self).pos,
                            p0 + 1 <= self.pos,
                            p0 + 1 < src.len(),
                            is_ident_char(src[p0 + 1]),
                            name@ == src.subrange(p0 + 1, self.pos as int),
                            ident_run_end(src, self.pos as int) == ident_run_end(src, p0 + 1),
                        ensures
                            self.pos == self.chars@.len() || !is_ident_char(self.chars@[self.pos as int]),
                        decreases self.chars@.len() - self.pos,
                    {
                        match self.peek() {
                            Some(ch) => {
                                if char_is_alphanumeric(ch) || ch == '_' {
                                    push_char(&mut name, ch);
                                    self.advance();
                                    assert(name@ =~= src.subrange(p0 + 1, self.pos as int));
                                } else {
                                    break;
                                }
                            },
                            None => break,
                        }
                    }
                    self.push_content(Tok::Lifetime(name), start);
                } else {
                    self.single(Tok::Dot, start);
                }
            }
        } else if c == '-' {
            if self.at_is(self.pos + 1, '>') {
                self.advance();
                self.advance();
                self.push_content(Tok::Arrow, start);
            } else {
                self.two('=', Tok::MinusEq, Tok::Minus, start);
            }
        } else if c == '+' {
            self.two('=', Tok::PlusEq, Tok::Plus, start);
        } else if c == '*' {
            self.two('=', Tok::StarEq, Tok::Star, start);
        } else if c == '/' {
            self.two('=', Tok::SlashEq, Tok::Slash, start);
        } else if c == '%' {
            self.two('=', Tok::PercentEq, Tok::Percent, start);
        } else if c == '=' {
            self.two('=', Tok::EqEq, Tok::Assign, start);
        } else if c == '!' {
            self.advance();
            if self.at_is(self.pos, '=') {
                self.advance();
                self.push_content(Tok::NotEq, start);
            } else {
                proof {
                    reveal_strlit("unexpected `!` (use `not` for negation)");
                }
                return Err(self.err(String::from_str("unexpected `!` (use `not` for negation)")));
            }
        } else if c == '<' {
            self.two('=', Tok::Le, Tok::Lt, start);
        } else if c == '>' {
            self.two('=', Tok::Ge, Tok::Gt, start);
        } else if c == '?' {
            self.single(Tok::Question, start);
        } else if c == '|' {
            self.single(Tok::Pipe, start);
        } else {
            let mut msg = String::new();
            msg.append("unexpected character `");
            push_char(&mut msg, c);
            msg.append("`");
            proof {
                reveal_strlit("unexpected character `");
                reveal_strlit("`");
            }
            return Err(self.err(msg));
        }
        Ok(())
    }
}

} // verus!
