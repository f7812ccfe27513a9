//! A verified interpreter pipeline for a small keyword-heavy scripting
//! language: source text is lexed into tokens, parsed by recursive descent
//! into a syntax tree, and evaluated by walking the tree against a flat
//! mutable variable environment.

pub mod ast;
pub mod interpreter;
pub mod lexer;
pub mod parser;
pub mod token;
pub mod value;

use vstd::prelude::*;
use crate::token::{Token, TokenModel};
use crate::lexer::{Lexer, spec_tokenize, spec_lex_diags, spec_unterminated, lemma_next_token_in_range};
use crate::parser::{Parser, spec_program, spec_program_diags};
use crate::interpreter::{Interpreter, EvalError, ErrModel, spec_eval_seq};
use crate::value::ValueModel;

verus! {

broadcast use {
    vstd::prelude::Seq::add_empty_left,
    vstd::prelude::Seq::add_empty_right,
    vstd::prelude::Seq::lemma_push_map_commute,
    crate::value::lemma_out_assoc,
};

/// What one run of a source text produced: the lines printed, the lexer
/// and parser diagnostics, and the evaluation failure that stopped the
/// run, if one did.
pub struct RunOutcome {
    pub output: Vec<String>,
    pub diagnostics: Vec<String>,
    pub error: Option<EvalError>,
}

/// Runs a source string front to back: lexes it into tokens, parses the
/// tokens into a program, and evaluates the program against a fresh, empty
/// environment within the given step budget.  The lines printed are
/// returned in order; lexer and parser diagnostics are collected apart
/// from the output; an evaluation failure ends the run and is returned.
pub fn run_source(source: String, fuel: u64) -> (r: RunOutcome)
    requires
        source@.len() < usize::MAX,
    ensures
        ({
            let toks = spec_tokenize(source@, 0);
            let prog = spec_program(toks, 0);
            let (res, env2, out) = spec_eval_seq(
                prog,
                Map::empty(),
                ValueModel::Null,
                fuel as nat,
            );
            &&& r.output@.map_values(|s: String| s@) == out
            &&& r.diagnostics@.map_values(|s: String| s@) == spec_lex_diags(source@, 0)
                + spec_program_diags(toks, 0)
            &&& (match r.error {
                None => res is Ok,
                Some(e) => res == Err::<ValueModel, ErrModel>(e@),
            })
        }),
{
    let ghost src0 = source@;
    let mut lexer = Lexer::new(source);
    let mut tokens: Vec<Token> = Vec::new();
    proof {
        assert(tokens@.map_values(|t: Token| t@) =~= Seq::<TokenModel>::empty());
        assert(lexer.diags() + spec_lex_diags(src0, 0) =~= spec_lex_diags(src0, 0));
    }
    loop
        invariant_except_break
            spec_tokenize(src0, 0) == tokens@.map_values(|t: Token| t@) + spec_tokenize(
                src0,
                lexer.pos(),
            ),
            spec_lex_diags(src0, 0) == lexer.diags() + spec_lex_diags(src0, lexer.pos()),
        invariant
            lexer.wf(),
            lexer.src() == src0,
            0 <= lexer.pos() <= src0.len(),
        ensures
            spec_tokenize(src0, 0) == tokens@.map_values(|t: Token| t@),
            spec_lex_diags(src0, 0) == lexer.diags(),
        decreases src0.len() - lexer.pos(),
    {
        let ghost pos0 = lexer.pos();
        let ghost diags_pre = lexer.diags();
        proof {
            lemma_next_token_in_range(src0, pos0);
        }
        let t = lexer.next_token();
        proof {
            if spec_unterminated(src0, pos0) {
                assert(lexer.diags() =~= diags_pre + seq![
                    "Error: Unterminated string literal"@,
                ]);
            }
        }
        match t {
            Token::EOF => {
                break ;
            },
            other => {
                tokens.push(other);
            },
        }
    }
    let lex_diagnostics = lexer.into_diagnostics();

    let mut parser = Parser::new(tokens);
    let ast = parser.parse();
    let parse_diagnostics = parser.into_diagnostics();

    let mut diagnostics = lex_diagnostics;
    let mut parse_diagnostics = parse_diagnostics;
    let ghost lexd = diagnostics@.map_values(|s: String| s@);
    let ghost parsed = parse_diagnostics@.map_values(|s: String| s@);
    diagnostics.append(&mut parse_diagnostics);
    proof {
        assert(diagnostics@.map_values(|s: String| s@) =~= lexd + parsed);
    }

    let mut interp = Interpreter::new();
    let result = interp.interpret(ast, fuel);
    let error = match result {
        Ok(_) => None,
        Err(e) => Some(e),
    };
    RunOutcome { output: interp.output, diagnostics, error }
}

} // verus!
