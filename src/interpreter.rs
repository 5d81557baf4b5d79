//! The whole pipeline: scan, parse, run.
use vstd::prelude::*;

use crate::ast::{Ast, StmtV};
use crate::grammar::{parse_tokens, ParseError};
use crate::lexer::{lex, Lexer};
use crate::parser::Parser;
use crate::runtime::{outcome_of, Executor, Outcome};
use crate::token::{tokens_view, Token};
use crate::value::NumberSystem;

verus! {

/// Scans a source buffer into tokens.
pub fn tokenize(source: Vec<u8>) -> (r: Vec<Token>)
    ensures
        tokens_view(r@) == lex(source@),
{
    let mut lexer = Lexer::new(source);
    lexer.tokenize()
}

/// Scans and parses a source buffer.
pub fn parse_source(source: Vec<u8>) -> (r: Result<Ast, ParseError>)
    ensures
        match r {
            Ok(ast) => parse_tokens(lex(source@)) == Ok::<Seq<StmtV>, ParseError>(ast@),
            Err(e) => parse_tokens(lex(source@)) == Err::<Seq<StmtV>, ParseError>(e),
        },
{
    let tokens = tokenize(source);
    let mut parser = Parser::new(tokens);
    parser.parse()
}

/// Scans, parses and runs a program, with calls nested at most `max_depth`
/// deep. A parse fault stops it before anything runs.
pub fn run_program<N: NumberSystem>(source: Vec<u8>, nums: &N, max_depth: usize) -> (r: Result<
    Outcome,
    ParseError,
>)
    ensures
        match r {
            Ok(o) => exists|ast: Ast|
                parse_tokens(lex(source@)) == Ok::<Seq<StmtV>, ParseError>(#[trigger] ast@)
                    && outcome_of(ast.statements@, max_depth as nat, o),
            Err(e) => parse_tokens(lex(source@)) == Err::<Seq<StmtV>, ParseError>(e),
        },
{
    match parse_source(source) {
        Ok(ast) => {
            let executor = Executor::new(ast);
            let o = executor.exec(nums, max_depth);
            assert(parse_tokens(lex(source@)) == Ok::<Seq<StmtV>, ParseError>(executor.ast@));
            Ok(o)
        },
        Err(e) => Err(e),
    }
}

} // verus!
