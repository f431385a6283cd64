use vstd::prelude::*;

use crate::position::{SourceSpan, SpecSpan};

verus! {

/// What a token is: its payload-carrying kinds keep the literal text they were
/// scanned from.
#[derive(Debug, PartialEq, Clone)]
pub enum TokenKind {
    Identifier(String),
    FloatLiteral(String),
    // Arithmetic operators
    Add,
    Subtract,
    Multiply,
    Divide,
    Modulo,
    // Assignment operator
    Assignment,
    Eol,
    LParen,
    RParen,
    RBracket,
    LBracket,
    Colon,
    // Keywords
    Let,
    /// Synthetic kind the parser substitutes when it reads past the end of the
    /// token stream; the lexer never produces it.
    Eof,
}

/// One token: a kind plus the source range it was scanned from.
#[derive(Debug, PartialEq, Clone)]
pub struct Token {
    pub kind: TokenKind,
    pub pos: SourceSpan,
}

/// Mathematical model of a token kind.
pub enum SpecTokenKind {
    Identifier(Seq<char>),
    FloatLiteral(Seq<char>),
    Add,
    Subtract,
    Multiply,
    Divide,
    Modulo,
    Assignment,
    Eol,
    LParen,
    RParen,
    RBracket,
    LBracket,
    Colon,
    Let,
    Eof,
}

/// Mathematical model of a token.
pub struct SpecToken {
    pub kind: SpecTokenKind,
    pub span: SpecSpan,
}

impl View for TokenKind {
    type V = SpecTokenKind;

    open spec fn view(&self) -> SpecTokenKind {
        match self {
            TokenKind::Identifier(s) => SpecTokenKind::Identifier(s@),
            TokenKind::FloatLiteral(s) => SpecTokenKind::FloatLiteral(s@),
            TokenKind::Add => SpecTokenKind::Add,
            TokenKind::Subtract => SpecTokenKind::Subtract,
            TokenKind::Multiply => SpecTokenKind::Multiply,
            TokenKind::Divide => SpecTokenKind::Divide,
            TokenKind::Modulo => SpecTokenKind::Modulo,
            TokenKind::Assignment => SpecTokenKind::Assignment,
            TokenKind::Eol => SpecTokenKind::Eol,
            TokenKind::LParen => SpecTokenKind::LParen,
            TokenKind::RParen => SpecTokenKind::RParen,
            TokenKind::RBracket => SpecTokenKind::RBracket,
            TokenKind::LBracket => SpecTokenKind::LBracket,
            TokenKind::Colon => SpecTokenKind::Colon,
            TokenKind::Let => SpecTokenKind::Let,
            TokenKind::Eof => SpecTokenKind::Eof,
        }
    }
}

impl DeepView for TokenKind {
    type V = SpecTokenKind;

    open spec fn deep_view(&self) -> SpecTokenKind {
        self.view()
    }
}

impl View for Token {
    type V = SpecToken;

    open spec fn view(&self) -> SpecToken {
        SpecToken { kind: self.kind@, span: self.pos@ }
    }
}

impl DeepView for Token {
    type V = SpecToken;

    open spec fn deep_view(&self) -> SpecToken {
        self.view()
    }
}

/// The deep view of a token vector is its element-wise view.
pub proof fn lemma_token_vec_deep_view(v: &Vec<Token>)
    ensures
        v.deep_view().len() == v@.len(),
        forall|k: int| 0 <= k < v@.len() ==> v.deep_view()[k] == (#[trigger] v@[k])@,
{
    assert(forall|k: int| 0 <= k < v@.len() ==> v.deep_view()[k] == #[trigger] v@[k].deep_view());
}

/// Spans of a token sequence are ordered and fit into the machine's index
/// range, so that span arithmetic on them cannot overflow.
pub open spec fn wf_tokens(toks: Seq<SpecToken>) -> bool {
    &&& forall|k: int|
        0 <= k < toks.len() ==> {
            &&& 0 <= (#[trigger] toks[k]).span.start.index
            &&& 0 <= toks[k].span.len
            &&& toks[k].span.start.index + toks[k].span.len <= usize::MAX
        }
    &&& forall|k1: int, k2: int|
        0 <= k1 <= k2 < toks.len() ==> (#[trigger] toks[k1]).span.start.index <= (
        #[trigger] toks[k2]).span.start.index
}

} // verus!
