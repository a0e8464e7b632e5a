//! Errors that point back at `.sn` source locations, so that a user never has
//! to read generated Rust to find a mistake.

use vstd::prelude::*;
use crate::text::{decimal, push_decimal};

verus! {

/// A location in a `.sn` source file (1-based line and column).
#[derive(Debug, Clone, Copy, PartialEq, Eq, Structural)]
pub struct Span {
    pub line: usize,
    pub col: usize,
}

impl Span {
    pub fn new(line: usize, col: usize) -> (s: Self)
        ensures
            s.line == line,
            s.col == col,
    {
        Span { line, col }
    }
}

/// The compiler stage an error comes from.
#[derive(Debug, Clone, Copy, PartialEq, Eq, Structural)]
pub enum Stage {
    Lex,
    Parse,
}

impl Stage {
    pub open spec fn spec_label(self) -> Seq<char> {
        match self {
            Stage::Lex => "lex error"@,
            Stage::Parse => "parse error"@,
        }
    }

    pub fn label(self) -> (r: &'static str)
        ensures
            r@ == self.spec_label(),
    {
        match self {
            Stage::Lex => "lex error",
            Stage::Parse => "parse error",
        }
    }
}

/// A compiler error carrying enough context to point back at TinyS source.
#[derive(Debug, Clone)]
pub struct TinysError {
    pub stage: Stage,
    pub message: String,
    pub file: String,
    pub span: Span,
}

impl TinysError {
    pub fn new(stage: Stage, message: String, file: &str, span: Span) -> (e: Self)
        ensures
            e.stage == stage,
            e.message@ == message@,
            e.file@ == file@,
            e.span == span,
    {
        TinysError { stage, message, file: String::from_str(file), span }
    }

    /// The rendered text of the error, `error: <stage>: <message>` followed by
    /// a `--> file:line:col` pointer.
    pub open spec fn spec_render(&self) -> Seq<char> {
        "error: "@ + self.stage.spec_label() + ": "@ + self.message@ + "\n  --> "@ + self.file@
            + ":"@ + decimal(self.span.line as nat) + ":"@ + decimal(self.span.col as nat)
    }

    /// Renders the error as the `tinys` CLI prints it.
    pub fn to_string(&self) -> (r: String)
        ensures
            r@ == self.spec_render(),
    {
        let mut out = String::new();
        out.append("error: ");
        out.append(self.stage.label());
        out.append(": ");
        out.append(self.message.as_str());
        out.append("\n  --> ");
        out.append(self.file.as_str());
        out.append(":");
        push_decimal(&mut out, self.span.line as u64);
        out.append(":");
        push_decimal(&mut out, self.span.col as u64);
        assert(out@ =~= self.spec_render());
        out
    }
}

} // verus!
