//! A tiny prefix-notation calculator language.
//!
//! A program is a sequence of statements, each an identifier (such as
//! `print`) applied to one arithmetic expression written in Lisp-like
//! prefix form, for example `print (+ 10 (+ 30 7))`.  The pipeline runs
//! strictly left to right: source text is split into tokens, each token is
//! classified, a recursive-descent parser builds statement and expression
//! trees, and an evaluator reduces every `print` argument to a 32-bit
//! integer.  Each stage is specified by a mathematical model and verified
//! against it.

use vstd::prelude::*;

pub mod ast;
pub mod eval;
pub mod lexer;
pub mod numbers;
pub mod parser;
pub mod props;
pub mod render;
pub mod tokenizer;

use crate::lexer::{classify, classify_all, lex_models, wf_lexemes};

verus! {

/// The single error of the pipeline: malformed input anywhere aborts
/// parsing of the whole program, with no partial results.
#[derive(Debug, PartialEq, Eq)]
pub struct ParseFailure;

/// What the pipeline produces for a source text: `None` when the token
/// stream does not parse, otherwise the integers printed in order.
pub open spec fn run_model(src: Seq<char>) -> Option<Seq<int>> {
    match parser::parse_prog_spec(classify_all(tokenizer::tokens_of(src))) {
        Some(ss) => Some(eval::prog_outputs(ss)),
        None => None,
    }
}

/// Run the full pipeline on a source string: tokenize, classify, parse,
/// then evaluate the argument of every `print` statement, returning one
/// integer per `print` in source order, or `ParseFailure` when the input
/// is malformed.
pub fn run(source: &str) -> (r: Result<Vec<i32>, ParseFailure>)
    ensures
        match run_model(source@) {
            Some(outs) => r is Ok && r.unwrap()@.map_values(|x: i32| x as int) == outs,
            None => r is Err,
        },
{
    let tokens = tokenizer::tokenize_split(source);
    let mut lexs = lexer::lex(tokens);
    let ghost toks = classify_all(tokenizer::tokens_of(source@));
    proof {
        assert(lex_models(lexs@) == toks);
        assert forall|i: int| 0 <= i < toks.len() implies #[trigger] toks[i].kind == classify(
            toks[i].text,
        ) by {
            assert(toks[i] == classify_all(tokenizer::tokens_of(source@))[i]);
        }
        assert(wf_lexemes(lex_models(lexs@)));
    }
    match parser::parse(&mut lexs) {
        Some(stmts) => Ok(eval::exec_outputs(stmts)),
        None => Err(ParseFailure),
    }
}

} // verus!
