use vstd::prelude::*;

use crate::position::{SourceSpan, SpecSpan};
use crate::token::{wf_tokens, SpecToken, Token};

verus! {

/// A contiguous range of token indices: `len` tokens starting at index
/// `start` of the token sequence.
#[derive(Copy, Clone, PartialEq, Eq, Structural, Debug)]
pub struct TokenSpan {
    pub start: usize,
    pub len: usize,
}

/// Mathematical model of a token span.
pub struct SpecTokenSpan {
    pub start: int,
    pub len: int,
}

impl View for TokenSpan {
    type V = SpecTokenSpan;

    open spec fn view(&self) -> SpecTokenSpan {
        SpecTokenSpan { start: self.start as int, len: self.len as int }
    }
}

/// Whether span `a` comes first when spans are ordered by start index and
/// then by length.
pub open spec fn ts_le(a: SpecTokenSpan, b: SpecTokenSpan) -> bool {
    a.start < b.start || (a.start == b.start && a.len <= b.len)
}

/// The union of two token spans: everything from the earlier start through
/// the end of the later span.
pub open spec fn ts_union(a: SpecTokenSpan, b: SpecTokenSpan) -> SpecTokenSpan {
    let lo = if ts_le(a, b) {
        a
    } else {
        b
    };
    let hi = if ts_le(a, b) {
        b
    } else {
        a
    };
    SpecTokenSpan { start: lo.start, len: hi.start + hi.len - lo.start }
}

/// The token the parser pretends to see past the end of the stream: a
/// synthetic end-of-file token with an empty span at the origin.
pub open spec fn eof_token() -> SpecToken {
    SpecToken {
        kind: crate::token::SpecTokenKind::Eof,
        span: SpecSpan { start: crate::position::origin(), len: 0 },
    }
}

/// The token at index `i`, or the synthetic end-of-file token when `i` is
/// out of range.
pub open spec fn tok_at(toks: Seq<SpecToken>, i: int) -> SpecToken {
    if 0 <= i < toks.len() {
        toks[i]
    } else {
        eof_token()
    }
}

/// The source range a token span covers: from the start of its first token
/// through the end of its last token.
pub open spec fn spec_as_source_span(ts: SpecTokenSpan, toks: Seq<SpecToken>) -> SpecSpan {
    let first = toks[ts.start];
    let last = toks[ts.start + ts.len - 1];
    SpecSpan {
        start: first.span.start,
        len: last.span.start.index + last.span.len - first.span.start.index,
    }
}

impl TokenSpan {
    pub fn new(start: usize, len: usize) -> (r: Self)
        ensures
            r@ == (SpecTokenSpan { start: start as int, len: len as int }),
    {
        TokenSpan { start, len }
    }

    /// The union of two token spans.
    pub fn merge(self, other: Self) -> (r: Self)
        requires
            self@.start + self@.len <= usize::MAX,
            other@.start + other@.len <= usize::MAX,
        ensures
            r@ == ts_union(self@, other@),
    {
        let first_is_self = self.start < other.start || (self.start == other.start && self.len
            <= other.len);
        let lo = if first_is_self {
            self
        } else {
            other
        };
        let hi = if first_is_self {
            other
        } else {
            self
        };
        TokenSpan { start: lo.start, len: hi.start + hi.len - lo.start }
    }

    /// Convert a token span to the source range it covers, looking the
    /// boundary tokens up in the full token sequence.
    pub fn as_source_span(&self, all_tokens: &Vec<Token>) -> (r: SourceSpan)
        requires
            1 <= self@.len,
            self@.start + self@.len <= all_tokens@.len(),
            wf_tokens(all_tokens.deep_view()),
        ensures
            r@ == spec_as_source_span(self@, all_tokens.deep_view()),
    {
        let n: usize = all_tokens.len();
        proof {
            let dv = all_tokens.deep_view();
            assert(dv.len() == all_tokens@.len());
            assert(forall|k: int|
                0 <= k < dv.len() ==> dv[k] == #[trigger] all_tokens@[k].deep_view());
            assert(dv[self@.start] == all_tokens@[self@.start].deep_view());
            assert(dv[self@.start + self@.len - 1] == all_tokens@[self@.start + self@.len
                - 1].deep_view());
        }
        let first_tok = &all_tokens[self.start];
        let last_tok = &all_tokens[self.start + self.len - 1];
        SourceSpan::new(
            first_tok.pos.start_pos,
            last_tok.pos.start_pos.index + last_tok.pos.source_len - first_tok.pos.start_pos.index,
        )
    }
}

} // verus!
