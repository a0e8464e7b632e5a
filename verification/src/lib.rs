//! TinyS: a small statically typed language with Python-shaped syntax and
//! Rust-oriented semantics, and its verified compiler pipeline.
//!
//! ```text
//! .sn source → lexer → parser → AST → Rust code generator → generated .rs
//! ```

pub mod ast;
pub mod cli;
pub mod codegen;
pub mod diagnostics;
pub mod lexer;
pub mod manifest;
pub mod modules;
pub mod parser;
pub mod text;

pub use diagnostics::TinysError;

use vstd::prelude::*;
use crate::ast::{program_wf, Program};
use crate::codegen::module_rust;
use crate::diagnostics::Stage;
use crate::lexer::{lex_spec, span_at, tokens_view, Token, MAX_SOURCE_CHARS};
use crate::ast::{AssignOp, BinaryOp, Expr};
use crate::codegen::{assign_op_rust, expr_gen, Env, Scopes};
use crate::diagnostics::Span;
use crate::lexer::{fixed_symbol, keyword, Tok};
use crate::parser::{additive_op, compiled_from, compound_assign_op, e_ok, gram, multiplicative_op, program_at, spec_comparison_op, ExprView, Nt};

verus! {

broadcast use vstd::std_specs::control_flow::group_control_flow_axioms;

/// Compile TinyS source text into generated Rust source text.
///
/// `filename` is only used for diagnostics. A lexing or parsing error is
/// returned as it was found; otherwise the result is the Rust module the
/// generator writes for the parsed program.
pub fn compile_to_rust(source: &str, filename: &str) -> (r: Result<String, TinysError>)
    requires
        source@.len() <= MAX_SOURCE_CHARS,
    ensures
        r matches Err(e) ==> (e.stage == Stage::Lex || e.stage == Stage::Parse) && e.file@
            == filename@,
        match lex_spec(source@) {
            Err((m, at)) => r matches Err(e) && e.stage == Stage::Lex && e.message@ == m && e.span
                == span_at(source@, at),
            Ok(_) => r matches Err(e) ==> e.stage == Stage::Parse,
        },
        r matches Ok(out) ==> exists|p: Program|
            program_wf(p) && out@ == module_rust(p, Seq::empty()),
        lex_spec(source@) matches Ok(tv) ==> exists|ts: Seq<Token>|
            tokens_view(ts) == tv && compiled_from(program_at(ts, 0, Seq::empty()), r, ts, filename@, Seq::empty()),
{
    let tokens = lexer::Lexer::new(source, filename).tokenize()?;
    let ghost ts = tokens@;
    let mut parser = parser::Parser::new(tokens, filename);
    let r: Result<String, TinysError> = match parser.parse_program() {
        Ok(program) => {
            let out = codegen::generate(&program);
            assert(program_wf(program) && out@ == module_rust(program, Seq::empty()));
            Ok(out)
        },
        Err(e) => Err(e),
    };
    assert(compiled_from(program_at(ts, 0, Seq::empty()), r, ts, filename@, Seq::empty()));
    r
}

/// Every binary operator but `and` and `or` is written in the generated Rust
/// as it is written in TinyS: its Rust spelling, read back as TinyS, lexes as
/// one token, taking the whole spelling, that the parser reads as the same
/// operator.
pub proof fn law_operators_keep_their_spelling(op: BinaryOp)
    requires
        !(op is And || op is Or),
    ensures
        ({
            let s = op.spec_rust();
            let next = if s.len() > 1 { Some(s[1]) } else { None };
            &&& s.len() > 0
            &&& fixed_symbol(s[0], next) matches Some((t, n))
            &&& n == s.len()
            &&& (additive_op(t) == Some(op) || multiplicative_op(t) == Some(op) || spec_comparison_op(t) == Some(op))
        }),
{
    reveal_strlit("+");
    reveal_strlit("-");
    reveal_strlit("*");
    reveal_strlit("/");
    reveal_strlit("%");
    reveal_strlit("==");
    reveal_strlit("!=");
    reveal_strlit("<");
    reveal_strlit(">");
    reveal_strlit("<=");
    reveal_strlit(">=");
}

/// Every assignment is written in the generated Rust as in TinyS: its Rust
/// spelling, read back as TinyS, lexes as one token, taking the whole
/// spelling: `Assign` for a plain `=`, else the token that the parser reads
/// as the same compound assignment.
pub proof fn law_assignments_keep_their_spelling(op: AssignOp)
    ensures
        ({
            let s = assign_op_rust(op);
            let next = if s.len() > 1 { Some(s[1]) } else { None };
            &&& s.len() > 0
            &&& fixed_symbol(s[0], next) matches Some((t, n))
            &&& n == s.len()
            &&& (op is Eq ==> t is Assign)
            &&& (!(op is Eq) ==> compound_assign_op(t) == Some(op))
        }),
{
    reveal_strlit("=");
    reveal_strlit("+=");
    reveal_strlit("-=");
    reveal_strlit("*=");
    reveal_strlit("/=");
    reveal_strlit("%=");
}

proof fn lemma_keyword_true()
    ensures
        keyword("true"@) == Some(Tok::True),
{
    reveal_strlit("def");
    reveal_strlit("return");
    reveal_strlit("if");
    reveal_strlit("elif");
    reveal_strlit("else");
    reveal_strlit("while");
    reveal_strlit("for");
    reveal_strlit("in");
    reveal_strlit("loop");
    reveal_strlit("break");
    reveal_strlit("continue");
    reveal_strlit("match");
    reveal_strlit("case");
    reveal_strlit("struct");
    reveal_strlit("enum");
    reveal_strlit("impl");
    reveal_strlit("trait");
    reveal_strlit("mut");
    reveal_strlit("ref");
    reveal_strlit("at");
    reveal_strlit("move");
    reveal_strlit("clone");
    reveal_strlit("pub");
    reveal_strlit("and");
    reveal_strlit("or");
    reveal_strlit("not");
    reveal_strlit("pass");
    reveal_strlit("as");
    reveal_strlit("with");
    reveal_strlit("unsafe");
    reveal_strlit("async");
    reveal_strlit("await");
    reveal_strlit("from");
    reveal_strlit("import");
    reveal_strlit("void");
    reveal_strlit("true");
    assert("def"@.len() == 3);
    assert("return"@.len() == 6);
    assert("if"@.len() == 2);
    assert("elif"@.len() == 4);
    assert("else"@.len() == 4);
    assert("while"@.len() == 5);
    assert("for"@.len() == 3);
    assert("in"@.len() == 2);
    assert("loop"@.len() == 4);
    assert("break"@.len() == 5);
    assert("continue"@.len() == 8);
    assert("match"@.len() == 5);
    assert("case"@.len() == 4);
    assert("struct"@.len() == 6);
    assert("enum"@.len() == 4);
    assert("impl"@.len() == 4);
    assert("trait"@.len() == 5);
    assert("mut"@.len() == 3);
    assert("ref"@.len() == 3);
    assert("at"@.len() == 2);
    assert("move"@.len() == 4);
    assert("clone"@.len() == 5);
    assert("pub"@.len() == 3);
    assert("and"@.len() == 3);
    assert("or"@.len() == 2);
    assert("not"@.len() == 3);
    assert("pass"@.len() == 4);
    assert("as"@.len() == 2);
    assert("with"@.len() == 4);
    assert("unsafe"@.len() == 6);
    assert("async"@.len() == 5);
    assert("await"@.len() == 5);
    assert("from"@.len() == 4);
    assert("import"@.len() == 6);
    assert("void"@.len() == 4);
    assert("true"@.len() == 4);
    assert("def"@ != "true"@);
    assert("return"@ != "true"@);
    assert("if"@ != "true"@);
    assert("elif"@ != "true"@) by {
        assert("elif"@[0] != "true"@[0]);
    }
    assert("else"@ != "true"@) by {
        assert("else"@[0] != "true"@[0]);
    }
    assert("while"@ != "true"@);
    assert("for"@ != "true"@);
    assert("in"@ != "true"@);
    assert("loop"@ != "true"@) by {
        assert("loop"@[0] != "true"@[0]);
    }
    assert("break"@ != "true"@);
    assert("continue"@ != "true"@);
    assert("match"@ != "true"@);
    assert("case"@ != "true"@) by {
        assert("case"@[0] != "true"@[0]);
    }
    assert("struct"@ != "true"@);
    assert("enum"@ != "true"@) by {
        assert("enum"@[0] != "true"@[0]);
    }
    assert("impl"@ != "true"@) by {
        assert("impl"@[0] != "true"@[0]);
    }
    assert("trait"@ != "true"@);
    assert("mut"@ != "true"@);
    assert("ref"@ != "true"@);
    assert("at"@ != "true"@);
    assert("move"@ != "true"@) by {
        assert("move"@[0] != "true"@[0]);
    }
    assert("clone"@ != "true"@);
    assert("pub"@ != "true"@);
    assert("and"@ != "true"@);
    assert("or"@ != "true"@);
    assert("not"@ != "true"@);
    assert("pass"@ != "true"@) by {
        assert("pass"@[0] != "true"@[0]);
    }
    assert("as"@ != "true"@);
    assert("with"@ != "true"@) by {
        assert("with"@[0] != "true"@[0]);
    }
    assert("unsafe"@ != "true"@);
    assert("async"@ != "true"@);
    assert("await"@ != "true"@);
    assert("from"@ != "true"@) by {
        assert("from"@[0] != "true"@[0]);
    }
    assert("import"@ != "true"@);
    assert("void"@ != "true"@) by {
        assert("void"@[0] != "true"@[0]);
    }
}

proof fn lemma_keyword_false()
    ensures
        keyword("false"@) == Some(Tok::False),
{
    reveal_strlit("def");
    reveal_strlit("return");
    reveal_strlit("if");
    reveal_strlit("elif");
    reveal_strlit("else");
    reveal_strlit("while");
    reveal_strlit("for");
    reveal_strlit("in");
    reveal_strlit("loop");
    reveal_strlit("break");
    reveal_strlit("continue");
    reveal_strlit("match");
    reveal_strlit("case");
    reveal_strlit("struct");
    reveal_strlit("enum");
    reveal_strlit("impl");
    reveal_strlit("trait");
    reveal_strlit("mut");
    reveal_strlit("ref");
    reveal_strlit("at");
    reveal_strlit("move");
    reveal_strlit("clone");
    reveal_strlit("pub");
    reveal_strlit("and");
    reveal_strlit("or");
    reveal_strlit("not");
    reveal_strlit("pass");
    reveal_strlit("as");
    reveal_strlit("with");
    reveal_strlit("unsafe");
    reveal_strlit("async");
    reveal_strlit("await");
    reveal_strlit("from");
    reveal_strlit("import");
    reveal_strlit("void");
    reveal_strlit("true");
    reveal_strlit("false");
    assert("def"@.len() == 3);
    assert("return"@.len() == 6);
    assert("if"@.len() == 2);
    assert("elif"@.len() == 4);
    assert("else"@.len() == 4);
    assert("while"@.len() == 5);
    assert("for"@.len() == 3);
    assert("in"@.len() == 2);
    assert("loop"@.len() == 4);
    assert("break"@.len() == 5);
    assert("continue"@.len() == 8);
    assert("match"@.len() == 5);
    assert("case"@.len() == 4);
    assert("struct"@.len() == 6);
    assert("enum"@.len() == 4);
    assert("impl"@.len() == 4);
    assert("trait"@.len() == 5);
    assert("mut"@.len() == 3);
    assert("ref"@.len() == 3);
    assert("at"@.len() == 2);
    assert("move"@.len() == 4);
    assert("clone"@.len() == 5);
    assert("pub"@.len() == 3);
    assert("and"@.len() == 3);
    assert("or"@.len() == 2);
    assert("not"@.len() == 3);
    assert("pass"@.len() == 4);
    assert("as"@.len() == 2);
    assert("with"@.len() == 4);
    assert("unsafe"@.len() == 6);
    assert("async"@.len() == 5);
    assert("await"@.len() == 5);
    assert("from"@.len() == 4);
    assert("import"@.len() == 6);
    assert("void"@.len() == 4);
    assert("true"@.len() == 4);
    assert("false"@.len() == 5);
    assert("def"@ != "false"@);
    assert("return"@ != "false"@);
    assert("if"@ != "false"@);
    assert("elif"@ != "false"@);
    assert("else"@ != "false"@);
    assert("while"@ != "false"@) by {
        assert("while"@[0] != "false"@[0]);
    }
    assert("for"@ != "false"@);
    assert("in"@ != "false"@);
    assert("loop"@ != "false"@);
    assert("break"@ != "false"@) by {
        assert("break"@[0] != "false"@[0]);
    }
    assert("continue"@ != "false"@);
    assert("match"@ != "false"@) by {
        assert("match"@[0] != "false"@[0]);
    }
    assert("case"@ != "false"@);
    assert("struct"@ != "false"@);
    assert("enum"@ != "false"@);
    assert("impl"@ != "false"@);
    assert("trait"@ != "false"@) by {
        assert("trait"@[0] != "false"@[0]);
    }
    assert("mut"@ != "false"@);
    assert("ref"@ != "false"@);
    assert("at"@ != "false"@);
    assert("move"@ != "false"@);
    assert("clone"@ != "false"@) by {
        assert("clone"@[0] != "false"@[0]);
    }
    assert("pub"@ != "false"@);
    assert("and"@ != "false"@);
    assert("or"@ != "false"@);
    assert("not"@ != "false"@);
    assert("pass"@ != "false"@);
    assert("as"@ != "false"@);
    assert("with"@ != "false"@);
    assert("unsafe"@ != "false"@);
    assert("async"@ != "false"@) by {
        assert("async"@[0] != "false"@[0]);
    }
    assert("await"@ != "false"@) by {
        assert("await"@[0] != "false"@[0]);
    }
    assert("from"@ != "false"@);
    assert("import"@ != "false"@);
    assert("void"@ != "false"@);
    assert("true"@ != "false"@);
}

/// A boolean literal survives the trip through Rust: the word generated for
/// it, read back as TinyS, is a keyword whose token the parser reads as the
/// same literal.
pub proof fn law_boolean_literals_round_trip(env: Env, sc: Scopes, b: bool, span: Span, labels: Seq<Seq<char>>)
    ensures
        ({
            let w = expr_gen(env, sc, Expr::Bool(b)).0;
            &&& keyword(w) matches Some(t)
            &&& gram(seq![crate::lexer::Token { kind: t, span }], 0, labels, Nt::Primary) == e_ok(ExprView::Bool(b), 1)
        }),
{
    let w = expr_gen(env, sc, Expr::Bool(b)).0;
    if b {
        assert(w == "true"@);
        lemma_keyword_true();
    } else {
        assert(w == "false"@);
        lemma_keyword_false();
    }
}

} // verus!
