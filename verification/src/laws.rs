use vstd::prelude::*;

use crate::analyzer::spec_analyze_program;
use crate::ast::SpecBlock;
use crate::error::SpecErr;
use crate::lexer::{lemma_spec_lex_wf, spec_lex};
use crate::parser::{lemma_parse_term_wf, spec_parse_term};
use crate::position::SpecSpan;
use crate::token::{SpecToken, SpecTokenKind};
use crate::token_span::spec_as_source_span;
use crate::types::Type;

verus! {

/// For every term of a valid parse, the term's span runs exactly over the
/// tokens from its first leaf to its last leaf, and the source range that
/// span denotes has precisely the length of the character distance from the
/// first character of the first leaf token to the last character of the last
/// leaf token, inclusive.
pub proof fn lemma_term_span_covers_leaves(toks: Seq<SpecToken>, i: int)
    requires
        0 <= i,
    ensures
        match spec_parse_term(toks, i) {
            Ok((t, j)) => {
                &&& t.pos().start == t.first_leaf()
                &&& t.pos().start + t.pos().len == t.last_leaf() + 1
                &&& 0 <= t.first_leaf() <= t.last_leaf() < toks.len()
                &&& spec_as_source_span(t.pos(), toks) == (SpecSpan {
                    start: toks[t.first_leaf()].span.start,
                    len: toks[t.last_leaf()].span.start.index + toks[t.last_leaf()].span.len
                        - toks[t.first_leaf()].span.start.index,
                })
            },
            Err(_) => true,
        },
{
    lemma_parse_term_wf(toks, i);
}

/// Slicing the source text by an identifier or float literal token's span
/// reproduces the token's text exactly, for every token of a successful
/// scan.
pub proof fn lemma_token_text_round_trip(src: Seq<char>, k: int)
    requires
        src.len() <= usize::MAX,
        spec_lex(src) is Ok,
        0 <= k < spec_lex(src)->Ok_0.len(),
    ensures
        (spec_lex(src)->Ok_0[k].kind matches SpecTokenKind::Identifier(s) ==> s == src.subrange(
            spec_lex(src)->Ok_0[k].span.start.index,
            spec_lex(src)->Ok_0[k].span.start.index + spec_lex(src)->Ok_0[k].span.len,
        )),
        (spec_lex(src)->Ok_0[k].kind matches SpecTokenKind::FloatLiteral(s) ==> s == src.subrange(
            spec_lex(src)->Ok_0[k].span.start.index,
            spec_lex(src)->Ok_0[k].span.start.index + spec_lex(src)->Ok_0[k].span.len,
        )),
{
    lemma_spec_lex_wf(src);
}

/// Analysis is a pure function of the token sequence and the tree: two runs
/// over the same valid program, each starting from a fresh scope chain,
/// yield one and the same result. `Analyzer::analyze` ensures that each
/// executable run returns exactly this value.
pub proof fn lemma_analysis_repeatable(
    toks: Seq<SpecToken>,
    program: SpecBlock,
    r1: Result<Type, SpecErr>,
    r2: Result<Type, SpecErr>,
)
    requires
        r1 == spec_analyze_program(toks, program),
        r2 == spec_analyze_program(toks, program),
    ensures
        r1 == r2,
{
}

} // verus!
