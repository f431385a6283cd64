use vstd::prelude::*;

use crate::error::{Error, ErrorKind, SpecErr};
use crate::position::{origin, pos_of, SourcePosition, SourceSpan, SpecSpan};
use crate::strutil::str_eq;
use crate::token::{SpecToken, SpecTokenKind, Token, TokenKind};

verus! {

// === Character classes ===
pub open spec fn spec_is_ident_start(c: char) -> bool {
    (97 <= c as u32 <= 122) || (65 <= c as u32 <= 90) || c == '_'
}

pub open spec fn spec_is_digit(c: char) -> bool {
    48 <= c as u32 <= 57
}

pub open spec fn spec_is_ident_body(c: char) -> bool {
    spec_is_ident_start(c) || spec_is_digit(c)
}

pub open spec fn spec_is_float_literal_body(c: char) -> bool {
    spec_is_digit(c) || c == '_' || c == '.'
}

/// A character that can start an identifier: an ASCII letter or underscore.
pub fn is_ident_start(c: char) -> (r: bool)
    ensures
        r == spec_is_ident_start(c),
{
    let u: u32 = c as u32;
    (97 <= u && u <= 122) || (65 <= u && u <= 90) || c == '_'
}

/// A character that can continue an identifier: a letter, digit or underscore.
pub fn is_ident_body(c: char) -> (r: bool)
    ensures
        r == spec_is_ident_body(c),
{
    let u: u32 = c as u32;
    is_ident_start(c) || (48 <= u && u <= 57)
}

fn is_digit(c: char) -> (r: bool)
    ensures
        r == spec_is_digit(c),
{
    let u: u32 = c as u32;
    48 <= u && u <= 57
}

/// A character that can continue a float literal: a digit, underscore or
/// period.
pub fn is_float_literal_body(c: char) -> (r: bool)
    ensures
        r == spec_is_float_literal_body(c),
{
    let u: u32 = c as u32;
    (48 <= u && u <= 57) || c == '_' || c == '.'
}

/// The character at index `i`, or the null character past the end.
pub open spec fn char_at(src: Seq<char>, i: int) -> char {
    if 0 <= i < src.len() {
        src[i]
    } else {
        '\0'
    }
}

/// How many characters of `src` are left from index `i` on.
pub open spec fn remaining(src: Seq<char>, i: int) -> int {
    if i <= src.len() {
        src.len() - i
    } else {
        0
    }
}

// === Scanning ===
/// How many identifier-body characters follow from index `j` on.
pub open spec fn ident_scan_len(src: Seq<char>, j: int) -> nat
    decreases remaining(src, j),
{
    if j < 0 || j >= src.len() {
        0
    } else if spec_is_ident_body(src[j]) {
        1 + ident_scan_len(src, j + 1)
    } else {
        0
    }
}

/// How many float-literal characters follow from index `j` on; a second
/// period ends the scan without being part of it.
pub open spec fn float_scan_len(src: Seq<char>, j: int, seen_period: bool) -> nat
    decreases remaining(src, j),
{
    if j < 0 || j >= src.len() {
        0
    } else if !spec_is_float_literal_body(src[j]) {
        0
    } else if src[j] == '.' && seen_period {
        0
    } else {
        1 + float_scan_len(src, j + 1, seen_period || src[j] == '.')
    }
}

pub proof fn lemma_ident_scan(src: Seq<char>, j: int)
    requires
        0 <= j <= src.len(),
    ensures
        j + ident_scan_len(src, j) <= src.len(),
        forall|k: int| j <= k < j + ident_scan_len(src, j) ==> spec_is_ident_body(#[trigger] src[k]),
    decreases remaining(src, j),
{
    if j < src.len() && spec_is_ident_body(src[j]) {
        lemma_ident_scan(src, j + 1);
    }
}

pub proof fn lemma_float_scan(src: Seq<char>, j: int, seen: bool)
    requires
        0 <= j <= src.len(),
    ensures
        j + float_scan_len(src, j, seen) <= src.len(),
        forall|k: int|
            j <= k < j + float_scan_len(src, j, seen) ==> spec_is_float_literal_body(
                #[trigger] src[k],
            ),
    decreases remaining(src, j),
{
    if j < src.len() && spec_is_float_literal_body(src[j]) && !(src[j] == '.' && seen) {
        lemma_float_scan(src, j + 1, seen || src[j] == '.');
    }
}

// === Single-character tokens ===
pub open spec fn single_char_kind(c: char) -> Option<SpecTokenKind> {
    if c == '\n' {
        Some(SpecTokenKind::Eol)
    } else if c == '+' {
        Some(SpecTokenKind::Add)
    } else if c == '-' {
        Some(SpecTokenKind::Subtract)
    } else if c == '*' {
        Some(SpecTokenKind::Multiply)
    } else if c == '/' {
        Some(SpecTokenKind::Divide)
    } else if c == '%' {
        Some(SpecTokenKind::Modulo)
    } else if c == '(' {
        Some(SpecTokenKind::LParen)
    } else if c == ')' {
        Some(SpecTokenKind::RParen)
    } else if c == '{' {
        Some(SpecTokenKind::LBracket)
    } else if c == '}' {
        Some(SpecTokenKind::RBracket)
    } else if c == '=' {
        Some(SpecTokenKind::Assignment)
    } else if c == ':' {
        Some(SpecTokenKind::Colon)
    } else {
        None
    }
}

// === The lexer, as a function ===
/// The tokens scanned from `src` starting at index `i`, or the first lexical
/// error. Space and tab are skipped; identifiers, float literals and
/// single-character tokens each carry the span they were scanned from.
pub open spec fn spec_lex_from(src: Seq<char>, i: int) -> Result<Seq<SpecToken>, SpecErr>
    decreases remaining(src, i),
{
    if !(0 <= i < src.len()) {
        Ok(Seq::empty())
    } else {
        let c = src[i];
        if c == ' ' || c == '\t' {
            spec_lex_from(src, i + 1)
        } else if spec_is_ident_start(c) {
            let e: int = i + 1 + ident_scan_len(src, i + 1);
            let text = src.subrange(i, e);
            let kind = if text == "let"@ {
                SpecTokenKind::Let
            } else {
                SpecTokenKind::Identifier(text)
            };
            let tok = SpecToken { kind, span: SpecSpan { start: pos_of(src, i), len: e - i } };
            match spec_lex_from(src, e) {
                Ok(rest) => Ok(seq![tok] + rest),
                Err(er) => Err(er),
            }
        } else if spec_is_digit(c) {
            let e: int = i + 1 + float_scan_len(src, i + 1, false);
            let text = src.subrange(i, e);
            let tok = SpecToken {
                kind: SpecTokenKind::FloatLiteral(text),
                span: SpecSpan { start: pos_of(src, i), len: e - i },
            };
            match spec_lex_from(src, e) {
                Ok(rest) => Ok(seq![tok] + rest),
                Err(er) => Err(er),
            }
        } else {
            match single_char_kind(c) {
                Some(kind) => {
                    let tok = SpecToken {
                        kind,
                        span: SpecSpan { start: pos_of(src, i), len: 1 },
                    };
                    match spec_lex_from(src, i + 1) {
                        Ok(rest) => Ok(seq![tok] + rest),
                        Err(er) => Err(er),
                    }
                },
                None => Err(
                    SpecErr {
                        kind: ErrorKind::UnexpectedChar,
                        msg: "Unexpected character '"@ + seq![c] + "'"@,
                        span: SpecSpan { start: pos_of(src, i), len: 1 },
                    },
                ),
            }
        }
    }
}

/// The synthetic open bracket that precedes every token stream.
pub open spec fn opening_token() -> SpecToken {
    SpecToken { kind: SpecTokenKind::LBracket, span: SpecSpan { start: origin(), len: 0 } }
}

/// The synthetic close bracket that ends the token stream of `src`.
pub open spec fn closing_token(src: Seq<char>) -> SpecToken {
    SpecToken {
        kind: SpecTokenKind::RBracket,
        span: SpecSpan { start: pos_of(src, src.len() as int), len: 0 },
    }
}

/// The full token stream of a source text: the scanned tokens wrapped in a
/// synthetic bracket pair, so the whole program parses as one block.
pub open spec fn spec_lex(src: Seq<char>) -> Result<Seq<SpecToken>, SpecErr> {
    match spec_lex_from(src, 0) {
        Ok(toks) => Ok(seq![opening_token()] + toks + seq![closing_token(src)]),
        Err(e) => Err(e),
    }
}

// === What holds of every token the lexer produces ===
/// The facts the scan guarantees for one token: its span lies at or after
/// `i` and inside the source, its position coordinates agree with the
/// source, and an identifier or float literal carries exactly the text its
/// span slices out of the source.
pub open spec fn scanned_token_ok(src: Seq<char>, i: int, t: SpecToken) -> bool {
    &&& i <= t.span.start.index
    &&& 1 <= t.span.len
    &&& t.span.start.index + t.span.len <= src.len()
    &&& t.span.start == pos_of(src, t.span.start.index)
    &&& (t.kind matches SpecTokenKind::Identifier(s) ==> s == src.subrange(
        t.span.start.index,
        t.span.start.index + t.span.len,
    ))
    &&& (t.kind matches SpecTokenKind::FloatLiteral(s) ==> s == src.subrange(
        t.span.start.index,
        t.span.start.index + t.span.len,
    ))
}

pub proof fn lemma_spec_lex_from_wf(src: Seq<char>, i: int)
    requires
        0 <= i <= src.len(),
    ensures
        match spec_lex_from(src, i) {
            Ok(toks) => {
                &&& forall|k: int| 0 <= k < toks.len() ==> scanned_token_ok(src, i, #[trigger] toks[k])
                &&& forall|k1: int, k2: int|
                    0 <= k1 <= k2 < toks.len() ==> (#[trigger] toks[k1]).span.start.index <= (
                    #[trigger] toks[k2]).span.start.index
            },
            Err(_) => true,
        },
    decreases remaining(src, i),
{
    if 0 <= i < src.len() {
        let c = src[i];
        crate::position::lemma_pos_of_bounds(src, i);
        if c == ' ' || c == '\t' {
            lemma_spec_lex_from_wf(src, i + 1);
            match spec_lex_from(src, i + 1) {
                Ok(toks) => {
                    assert(forall|k: int|
                        0 <= k < toks.len() && scanned_token_ok(src, i + 1, #[trigger] toks[k])
                            ==> scanned_token_ok(src, i, toks[k]));
                },
                Err(_) => {},
            }
        } else {
            let e: int = if spec_is_ident_start(c) {
                lemma_ident_scan(src, i + 1);
                i + 1 + ident_scan_len(src, i + 1)
            } else if spec_is_digit(c) {
                lemma_float_scan(src, i + 1, false);
                i + 1 + float_scan_len(src, i + 1, false)
            } else {
                i + 1
            };
            if spec_is_ident_start(c) || spec_is_digit(c) || single_char_kind(c) is Some {
                lemma_spec_lex_from_wf(src, e);
                match spec_lex_from(src, e) {
                    Ok(rest) => {
                        match spec_lex_from(src, i) {
                            Ok(toks) => {
                                assert(toks[0].span.start.index == i);
                                assert(scanned_token_ok(src, i, toks[0]));
                                assert(forall|k: int|
                                    1 <= k < toks.len() ==> #[trigger] toks[k] == rest[k - 1]);
                                assert(forall|k: int|
                                    1 <= k < toks.len() && scanned_token_ok(
                                        src,
                                        e,
                                        #[trigger] toks[k],
                                    ) ==> scanned_token_ok(src, i, toks[k]));
                            },
                            Err(_) => {},
                        }
                    },
                    Err(_) => {},
                }
            }
        }
    }
}

/// Every token stream the lexer accepts is well formed, and slicing the
/// source by an identifier or float token's span reproduces its text.
pub proof fn lemma_spec_lex_wf(src: Seq<char>)
    requires
        src.len() <= usize::MAX,
    ensures
        match spec_lex(src) {
            Ok(toks) => {
                &&& crate::token::wf_tokens(toks)
                &&& forall|k: int|
                    0 <= k < toks.len() ==> scanned_token_ok(src, 0, #[trigger] toks[k])
                        || toks[k].span.len == 0
                &&& forall|k: int|
                    0 <= k < toks.len() ==> ((#[trigger] toks[k]).kind matches
                        SpecTokenKind::Identifier(s) ==> s == src.subrange(
                        toks[k].span.start.index,
                        toks[k].span.start.index + toks[k].span.len,
                    ))
                &&& forall|k: int|
                    0 <= k < toks.len() ==> ((#[trigger] toks[k]).kind matches
                        SpecTokenKind::FloatLiteral(s) ==> s == src.subrange(
                        toks[k].span.start.index,
                        toks[k].span.start.index + toks[k].span.len,
                    ))
            },
            Err(_) => true,
        },
{
    lemma_spec_lex_from_wf(src, 0);
    crate::position::lemma_pos_of_bounds(src, src.len() as int);
    match spec_lex_from(src, 0) {
        Ok(mid) => {
            let toks = spec_lex(src)->Ok_0;
            assert(toks[0] == opening_token());
            assert(toks[toks.len() - 1] == closing_token(src));
            assert(forall|k: int| 1 <= k < toks.len() - 1 ==> #[trigger] toks[k] == mid[k - 1]);
        },
        Err(_) => {},
    }
}

// === The lexer, executable ===
pub struct Lexer {
    pub input: String,
    pub pos: SourcePosition,
    pub tokens: Vec<Token>,
}

impl Lexer {
    pub fn new(input: &str) -> (r: Self)
        ensures
            r.input@ == input@,
            r.pos@ == origin(),
            r.tokens@.len() == 0,
    {
        Lexer { input: input.to_owned(), pos: SourcePosition::start(), tokens: Vec::new() }
    }

    /// The character under the cursor, or the null character past the end.
    fn get(&self) -> (c: char)
        ensures
            c == char_at(self.input@, self.pos@.index),
    {
        let n: usize = self.input.as_str().unicode_len();
        if self.pos.index < n {
            self.input.as_str().get_char(self.pos.index)
        } else {
            '\0'
        }
    }

    /// Consume the character under the cursor, advancing the position.
    fn eat(&mut self) -> (c: char)
        requires
            old(self).input@.len() <= usize::MAX,
            old(self).pos@ == pos_of(old(self).input@, old(self).pos@.index),
            0 <= old(self).pos@.index < old(self).input@.len(),
        ensures
            c == old(self).input@[old(self).pos@.index],
            final(self).pos@ == pos_of(old(self).input@, old(self).pos@.index + 1),
            final(self).input == old(self).input,
            final(self).tokens == old(self).tokens,
    {
        proof {
            crate::position::lemma_pos_of_bounds(self.input@, self.pos@.index);
        }
        let c = self.get();
        if c == '\n' {
            self.pos.advance_ln();
        } else {
            self.pos.advance_col();
        }
        c
    }

    /// Append a token whose span runs from `start_pos` to the cursor.
    fn add_token(&mut self, kind: TokenKind, start_pos: SourcePosition)
        requires
            start_pos@.index <= old(self).pos@.index,
        ensures
            final(self).input == old(self).input,
            final(self).pos == old(self).pos,
            final(self).tokens@ == old(self).tokens@.push(
                Token {
                    kind,
                    pos: SourceSpan {
                        start_pos,
                        source_len: (old(self).pos@.index - start_pos@.index) as usize,
                    },
                },
            ),
    {
        let span = SourceSpan::new(start_pos, self.pos.index - start_pos.index);
        self.tokens.push(Token { kind, pos: span });
    }

    /// Scan an identifier starting at the cursor; the text `let` becomes the
    /// keyword token, anything else an identifier token.
    #[verifier::loop_isolation(false)]
    fn parse_identifier_or_keyword(&mut self) -> (kind: TokenKind)
        requires
            old(self).input@.len() <= usize::MAX,
            old(self).pos@ == pos_of(old(self).input@, old(self).pos@.index),
            0 <= old(self).pos@.index < old(self).input@.len(),
            spec_is_ident_start(old(self).input@[old(self).pos@.index]),
        ensures
            final(self).input == old(self).input,
            final(self).tokens == old(self).tokens,
            ({
                let src = old(self).input@;
                let i = old(self).pos@.index;
                let e: int = i + 1 + ident_scan_len(src, i + 1);
                &&& final(self).pos@ == pos_of(src, e)
                &&& kind@ == (if src.subrange(i, e) == "let"@ {
                    SpecTokenKind::Let
                } else {
                    SpecTokenKind::Identifier(src.subrange(i, e))
                })
            }),
    {
        let ghost src = self.input@;
        let ghost i: int = self.pos@.index;
        let start: usize = self.pos.index;
        self.eat();
        proof {
            lemma_ident_scan(src, i + 1);
        }
        while is_ident_body(self.get())
            invariant
                self.input == old(self).input,
                i + 1 <= self.pos@.index <= src.len(),
                self.pos@ == pos_of(src, self.pos@.index),
                self.tokens == old(self).tokens,
                start as int == i,
                ident_scan_len(src, i + 1) == (self.pos@.index - (i + 1)) + ident_scan_len(
                    src,
                    self.pos@.index,
                ),
            decreases src.len() - self.pos@.index,
        {
            self.eat();
        }
        proof {
            assert(ident_scan_len(src, self.pos@.index) == 0);
        }
        let text: String = self.input.as_str().substring_char(start, self.pos.index).to_owned();
        if str_eq(text.as_str(), "let") {
            TokenKind::Let
        } else {
            TokenKind::Identifier(text)
        }
    }

    /// Scan a float literal starting at the cursor. A second period ends the
    /// literal immediately and is not consumed.
    #[verifier::loop_isolation(false)]
    fn parse_float_literal(&mut self) -> (kind: TokenKind)
        requires
            old(self).input@.len() <= usize::MAX,
            old(self).pos@ == pos_of(old(self).input@, old(self).pos@.index),
            0 <= old(self).pos@.index < old(self).input@.len(),
            spec_is_digit(old(self).input@[old(self).pos@.index]),
        ensures
            final(self).input == old(self).input,
            final(self).tokens == old(self).tokens,
            ({
                let src = old(self).input@;
                let i = old(self).pos@.index;
                let e: int = i + 1 + float_scan_len(src, i + 1, false);
                &&& final(self).pos@ == pos_of(src, e)
                &&& kind@ == SpecTokenKind::FloatLiteral(src.subrange(i, e))
            }),
    {
        let ghost src = self.input@;
        let ghost i: int = self.pos@.index;
        let start: usize = self.pos.index;
        self.eat();
        proof {
            lemma_float_scan(src, i + 1, false);
        }
        let mut seen_period = false;
        while is_float_literal_body(self.get()) && !(self.get() == '.' && seen_period)
            invariant
                self.input == old(self).input,
                i + 1 <= self.pos@.index <= src.len(),
                self.pos@ == pos_of(src, self.pos@.index),
                self.tokens == old(self).tokens,
                start as int == i,
                float_scan_len(src, i + 1, false) == (self.pos@.index - (i + 1)) + float_scan_len(
                    src,
                    self.pos@.index,
                    seen_period,
                ),
            decreases src.len() - self.pos@.index,
        {
            let c = self.eat();
            if c == '.' {
                seen_period = true;
            }
        }
        proof {
            assert(float_scan_len(src, self.pos@.index, seen_period) == 0);
        }
        let text: String = self.input.as_str().substring_char(start, self.pos.index).to_owned();
        TokenKind::FloatLiteral(text)
    }

    /// Scan the whole input into a token stream, wrapped in a synthetic
    /// bracket pair, or report the first lexical error.
    #[verifier::loop_isolation(false)]
    pub fn lex(self) -> (r: Result<Vec<Token>, Error>)
        requires
            self.pos@ == origin(),
            self.tokens@.len() == 0,
        ensures
            self.input@.len() <= usize::MAX,
            ({
                match (r, spec_lex(self.input@)) {
                    (Ok(toks), Ok(stoks)) => toks.deep_view() == stoks,
                    (Err(e), Err(se)) => e@ == se,
                    _ => false,
                }
            }),
    {
        let mut this = self;
        let ghost src = this.input@;
        let n: usize = this.input.as_str().unicode_len();
        let first_pos = this.pos;
        this.add_token(TokenKind::LBracket, first_pos);
        proof {
            assert(this.tokens.deep_view() =~= seq![opening_token()]);
        }
        while this.pos.index < n
            invariant
                this.input@ == src,
                n as int == src.len(),
                this.pos@ == pos_of(src, this.pos@.index),
                0 <= this.pos@.index <= src.len(),
                this.tokens@.len() >= 1,
                this.tokens.deep_view()[0] == opening_token(),
                match spec_lex_from(src, this.pos@.index) {
                    Ok(rest) => spec_lex_from(src, 0) == Ok::<_, SpecErr>(
                        this.tokens.deep_view().skip(1) + rest,
                    ),
                    Err(e) => spec_lex_from(src, 0) == Err::<Seq<SpecToken>, _>(e),
                },
            decreases src.len() - this.pos@.index,
        {
            let ghost i: int = this.pos@.index;
            let ghost toks_before = this.tokens.deep_view();
            let start_pos = this.pos;
            let c = this.get();
            if c == ' ' || c == '\t' {
                this.eat();
            } else if is_ident_start(c) {
                let kind = this.parse_identifier_or_keyword();
                let ghost kv = kind@;
                proof {
                    lemma_ident_scan(src, i + 1);
                    crate::position::lemma_pos_of_bounds(src, i + 1 + ident_scan_len(src, i + 1));
                }
                this.add_token(kind, start_pos);
                proof {
                    let e: int = i + 1 + ident_scan_len(src, i + 1);
                    let stok = SpecToken {
                        kind: kv,
                        span: SpecSpan { start: pos_of(src, i), len: e - i },
                    };
                    assert(this.tokens.deep_view() =~= toks_before.push(stok));
                    assert(toks_before.push(stok).skip(1) =~= toks_before.skip(1) + seq![stok]);
                    assert forall|rest: Seq<SpecToken>|
                        toks_before.skip(1) + (seq![stok] + rest) =~= (toks_before.skip(1)
                            + seq![stok]) + rest by {}
                }
            } else if is_digit(c) {
                let kind = this.parse_float_literal();
                let ghost kv = kind@;
                proof {
                    lemma_float_scan(src, i + 1, false);
                    crate::position::lemma_pos_of_bounds(
                        src,
                        i + 1 + float_scan_len(src, i + 1, false),
                    );
                }
                this.add_token(kind, start_pos);
                proof {
                    let e: int = i + 1 + float_scan_len(src, i + 1, false);
                    let stok = SpecToken {
                        kind: kv,
                        span: SpecSpan { start: pos_of(src, i), len: e - i },
                    };
                    assert(this.tokens.deep_view() =~= toks_before.push(stok));
                    assert(toks_before.push(stok).skip(1) =~= toks_before.skip(1) + seq![stok]);
                    assert forall|rest: Seq<SpecToken>|
                        toks_before.skip(1) + (seq![stok] + rest) =~= (toks_before.skip(1)
                            + seq![stok]) + rest by {}
                }
            } else {
                let c2 = this.eat();
                let kind = match c2 {
                    '\n' => TokenKind::Eol,
                    '+' => TokenKind::Add,
                    '-' => TokenKind::Subtract,
                    '*' => TokenKind::Multiply,
                    '/' => TokenKind::Divide,
                    '%' => TokenKind::Modulo,
                    '(' => TokenKind::LParen,
                    ')' => TokenKind::RParen,
                    '{' => TokenKind::LBracket,
                    '}' => TokenKind::RBracket,
                    '=' => TokenKind::Assignment,
                    ':' => TokenKind::Colon,
                    _ => {
                        let mut msg: String = ("Unexpected character '").to_owned();
                        let snippet = this.input.as_str().substring_char(start_pos.index, start_pos.index + 1);
                        msg.append(snippet);
                        msg.append("'");
                        proof {
                            assert(src.subrange(i, i + 1) =~= seq![src[i]]);
                            assert(msg@ == "Unexpected character '"@ + seq![src[i]] + "'"@);
                        }
                        return Err(
                            Error::new(ErrorKind::UnexpectedChar, msg.as_str(), SourceSpan::new(start_pos, 1)),
                        );
                    },
                };
                let ghost kv = kind@;
                this.add_token(kind, start_pos);
                proof {
                    let stok = SpecToken {
                        kind: kv,
                        span: SpecSpan { start: pos_of(src, i), len: 1 },
                    };
                    assert(this.tokens.deep_view() =~= toks_before.push(stok));
                    assert(toks_before.push(stok).skip(1) =~= toks_before.skip(1) + seq![stok]);
                    assert forall|rest: Seq<SpecToken>|
                        toks_before.skip(1) + (seq![stok] + rest) =~= (toks_before.skip(1)
                            + seq![stok]) + rest by {}
                }
            }
        }
        let last_pos = this.pos;
        this.add_token(TokenKind::RBracket, last_pos);
        proof {
            assert(spec_lex_from(src, src.len() as int) == Ok::<_, SpecErr>(Seq::<SpecToken>::empty()));
            let middle = spec_lex_from(src, 0)->Ok_0;
            assert(this.tokens.deep_view() =~= seq![opening_token()] + middle + seq![
                closing_token(src),
            ]);
        }
        Ok(this.tokens)
    }
}

} // verus!
