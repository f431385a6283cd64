use vstd::prelude::*;

pub mod analyzer;
pub mod ast;
pub mod error;
pub mod laws;
pub mod lexer;
pub mod parser;
pub mod position;
pub mod strutil;
pub mod symbol_table;
pub mod token;
pub mod token_span;
pub mod types;

use crate::analyzer::{spec_analyze_program, Analyzer};
use crate::ast::{Block, SpecBlock};
use crate::error::{Error, SpecErr};
use crate::lexer::{spec_lex, Lexer};
use crate::parser::{spec_parse_program, Parser};
use crate::types::Type;

verus! {

/// The whole front end on one source text: lexing, parsing and semantic
/// analysis in turn, stopping at the first error.
pub open spec fn spec_compile(src: Seq<char>) -> Result<(SpecBlock, Type), SpecErr> {
    match spec_lex(src) {
        Err(e) => Err(e),
        Ok(toks) => match spec_parse_program(toks, 0) {
            Err(e) => Err(e),
            Ok(b) => match spec_analyze_program(toks, b) {
                Err(e) => Err(e),
                Ok(t) => Ok((b, t)),
            },
        },
    }
}

/// Run the full pipeline on a source text: the typed syntax tree of a valid
/// program together with its type, or the first error any stage found.
pub fn compile(source: &str) -> (r: Result<(Block, Type), Error>)
    ensures
        match (r, spec_compile(source@)) {
            (Ok((block, t)), Ok((sb, st))) => block@ == sb && t == st,
            (Err(e), Err(se)) => e@ == se,
            _ => false,
        },
{
    let lx = Lexer::new(source);
    let tokens = match lx.lex() {
        Ok(tokens) => tokens,
        Err(e) => {
            return Err(e);
        },
    };
    proof {
        crate::lexer::lemma_spec_lex_wf(source@);
        crate::token::lemma_token_vec_deep_view(&tokens);
    }
    let ps = Parser::new(&tokens);
    let block = match ps.parse() {
        Ok(block) => block,
        Err(e) => {
            return Err(e);
        },
    };
    proof {
        crate::parser::lemma_parse_block_wf(tokens.deep_view(), 0);
    }
    let mut an = Analyzer::new(&tokens);
    match an.analyze(&block) {
        Ok(t) => Ok((block, t)),
        Err(e) => Err(e),
    }
}

} // verus!
