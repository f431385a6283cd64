use vstd::prelude::*;

use crate::ast::{
    view_exprs, Assignment, Block, Expression, Factor, FactorOp, Leaf, SpecAssignment, SpecBlock,
    SpecExpr, SpecFactor, SpecLeaf, SpecTerm, Term, TermOp,
};
use crate::error::{Error, ErrorKind, SpecErr};
use crate::token::{lemma_token_vec_deep_view, SpecToken, SpecTokenKind, Token, TokenKind};
use crate::token_span::tok_at;

verus! {

// === Helpers over the token sequence ===
/// How many tokens are left from index `i` on.
pub open spec fn trem(toks: Seq<SpecToken>, i: int) -> int {
    if i <= toks.len() {
        toks.len() - i
    } else {
        0
    }
}

/// The index after consuming the token at `i`; past the end it stays put.
pub open spec fn step(toks: Seq<SpecToken>, i: int) -> int {
    if 0 <= i < toks.len() {
        i + 1
    } else {
        i
    }
}

/// A syntax error: the span is the unexpected token's span.
pub open spec fn unexpected(toks: Seq<SpecToken>, i: int, msg: Seq<char>) -> SpecErr {
    SpecErr { kind: ErrorKind::UnexpectedToken, msg, span: tok_at(toks, i).span }
}

/// The additive operator a token stands for, if any.
pub open spec fn term_op_of(k: SpecTokenKind) -> Option<TermOp> {
    match k {
        SpecTokenKind::Add => Some(TermOp::Add),
        SpecTokenKind::Subtract => Some(TermOp::Subtract),
        _ => None,
    }
}

/// The multiplicative operator a token stands for, if any.
pub open spec fn factor_op_of(k: SpecTokenKind) -> Option<FactorOp> {
    match k {
        SpecTokenKind::Multiply => Some(FactorOp::Multiply),
        SpecTokenKind::Divide => Some(FactorOp::Divide),
        SpecTokenKind::Modulo => Some(FactorOp::Modulo),
        _ => None,
    }
}

// === The grammar, as functions from a token index to a node and the index
// === after it. Every sub-parser consumes at least one token on success, so
// === the guarded branches below that report an error are never reached; the
// === executable parser's contracts show the guards always hold.
/// leaf := IDENT | FLOAT | '(' term ')'
pub open spec fn spec_parse_leaf(toks: Seq<SpecToken>, i: int) -> Result<(SpecLeaf, int), SpecErr>
    decreases trem(toks, i), 0int,
{
    match tok_at(toks, i).kind {
        SpecTokenKind::Identifier(name) => Ok((SpecLeaf::Identifier(name, i), step(toks, i))),
        SpecTokenKind::FloatLiteral(text) => Ok((SpecLeaf::FloatLiteral(text, i), step(toks, i))),
        SpecTokenKind::LParen => match spec_parse_term(toks, step(toks, i)) {
            Ok((t, j)) => if tok_at(toks, j).kind is RParen {
                Ok((SpecLeaf::Term(Box::new(t)), step(toks, j)))
            } else {
                Err(unexpected(toks, j, "expected ')'"@))
            },
            Err(e) => Err(e),
        },
        _ => Err(unexpected(toks, i, "unexpected token"@)),
    }
}

/// factor := leaf ( ('*' | '/' | '%') leaf )*
pub open spec fn spec_parse_factor(toks: Seq<SpecToken>, i: int) -> Result<
    (SpecFactor, int),
    SpecErr,
>
    decreases trem(toks, i), 1int,
{
    match spec_parse_leaf(toks, i) {
        Ok((l, j)) => if i < j && j <= toks.len() {
            spec_parse_factor_rest(toks, SpecFactor::Leaf(l), j)
        } else {
            Err(unexpected(toks, i, "unexpected token"@))
        },
        Err(e) => Err(e),
    }
}

/// The left-associative tail of a factor: fold further `* / %` operations
/// onto `cur`.
pub open spec fn spec_parse_factor_rest(toks: Seq<SpecToken>, cur: SpecFactor, i: int) -> Result<
    (SpecFactor, int),
    SpecErr,
>
    decreases trem(toks, i), 1int,
{
    match factor_op_of(tok_at(toks, i).kind) {
        None => Ok((cur, i)),
        Some(op) => match spec_parse_leaf(toks, i + 1) {
            Ok((r, j)) => if i < j && j <= toks.len() {
                spec_parse_factor_rest(toks, SpecFactor::Operation(Box::new(cur), op, r), j)
            } else {
                Err(unexpected(toks, i, "unexpected token"@))
            },
            Err(e) => Err(e),
        },
    }
}

/// term := factor ( ('+' | '-') factor )*
pub open spec fn spec_parse_term(toks: Seq<SpecToken>, i: int) -> Result<(SpecTerm, int), SpecErr>
    decreases trem(toks, i), 2int,
{
    match spec_parse_factor(toks, i) {
        Ok((f, j)) => if i < j && j <= toks.len() {
            spec_parse_term_rest(toks, SpecTerm::Factor(f), j)
        } else {
            Err(unexpected(toks, i, "unexpected token"@))
        },
        Err(e) => Err(e),
    }
}

/// The left-associative tail of a term: fold further `+ -` operations onto
/// `cur`.
pub open spec fn spec_parse_term_rest(toks: Seq<SpecToken>, cur: SpecTerm, i: int) -> Result<
    (SpecTerm, int),
    SpecErr,
>
    decreases trem(toks, i), 2int,
{
    match term_op_of(tok_at(toks, i).kind) {
        None => Ok((cur, i)),
        Some(op) => match spec_parse_factor(toks, i + 1) {
            Ok((r, j)) => if i < j && j <= toks.len() {
                spec_parse_term_rest(toks, SpecTerm::Operation(Box::new(cur), op, r), j)
            } else {
                Err(unexpected(toks, i, "unexpected token"@))
            },
            Err(e) => Err(e),
        },
    }
}

/// assignment := 'let' IDENT ':' IDENT ( '=' expression )?   (initialization)
///             | IDENT '=' expression                        (reassignment)
pub open spec fn spec_parse_assignment(toks: Seq<SpecToken>, i: int) -> Result<
    (SpecAssignment, int),
    SpecErr,
>
    decreases trem(toks, i), 3int,
{
    match tok_at(toks, i).kind {
        SpecTokenKind::Let => match tok_at(toks, i + 1).kind {
            SpecTokenKind::Identifier(name) => if !(tok_at(toks, i + 2).kind is Colon) {
                Err(unexpected(toks, i + 2, "expected ':'"@))
            } else {
                match tok_at(toks, i + 3).kind {
                    SpecTokenKind::Identifier(tyname) => if !(tok_at(toks, i + 4).kind
                        is Assignment) {
                        Ok((SpecAssignment::Initialization(name, tyname, None, i), i + 4))
                    } else {
                        match spec_parse_expression(toks, i + 5) {
                            Ok((v, j)) => Ok(
                                (
                                    SpecAssignment::Initialization(
                                        name,
                                        tyname,
                                        Some(Box::new(v)),
                                        i,
                                    ),
                                    j,
                                ),
                            ),
                            Err(e) => Err(e),
                        }
                    },
                    _ => Err(unexpected(toks, i + 3, "expected identifier"@)),
                }
            },
            _ => Err(unexpected(toks, i + 1, "expected identifier"@)),
        },
        SpecTokenKind::Identifier(name) => if !(tok_at(toks, i + 1).kind is Assignment) {
            Err(unexpected(toks, i + 1, "expected '='"@))
        } else {
            match spec_parse_expression(toks, i + 2) {
                Ok((v, j)) => Ok((SpecAssignment::Reassignment(name, Box::new(v)), j)),
                Err(e) => Err(e),
            }
        },
        _ => Err(unexpected(toks, i, "unexpected token"@)),
    }
}

/// expression := block | assignment | term. An expression that begins with an
/// identifier is a reassignment exactly when the next token is `=`.
pub open spec fn spec_parse_expression(toks: Seq<SpecToken>, i: int) -> Result<
    (SpecExpr, int),
    SpecErr,
>
    decreases trem(toks, i), 4int,
{
    match tok_at(toks, i).kind {
        SpecTokenKind::LBracket => match spec_parse_block(toks, i) {
            Ok((b, j)) => Ok((SpecExpr::Block(b), j)),
            Err(e) => Err(e),
        },
        SpecTokenKind::Let => match spec_parse_assignment(toks, i) {
            Ok((a, j)) => Ok((SpecExpr::Assignment(a), j)),
            Err(e) => Err(e),
        },
        SpecTokenKind::Identifier(_) => if tok_at(toks, i + 1).kind is Assignment {
            match spec_parse_assignment(toks, i) {
                Ok((a, j)) => Ok((SpecExpr::Assignment(a), j)),
                Err(e) => Err(e),
            }
        } else {
            match spec_parse_term(toks, i) {
                Ok((t, j)) => Ok((SpecExpr::Term(t), j)),
                Err(e) => Err(e),
            }
        },
        _ => match spec_parse_term(toks, i) {
            Ok((t, j)) => Ok((SpecExpr::Term(t), j)),
            Err(e) => Err(e),
        },
    }
}

/// block := '{' ( expression? EOL | expression '}' )* '}'. Blank lines are
/// skipped; the final statement needs no trailing end-of-line.
pub open spec fn spec_parse_block(toks: Seq<SpecToken>, i: int) -> Result<(SpecBlock, int), SpecErr>
    decreases trem(toks, i), 3int,
{
    if !(tok_at(toks, i).kind is LBracket) {
        Err(unexpected(toks, i, "expected '{'"@))
    } else {
        match spec_parse_block_items(toks, i + 1, Seq::empty()) {
            Ok((exprs, j)) => Ok((SpecBlock { exprs, start_index: i }, j)),
            Err(e) => Err(e),
        }
    }
}

/// The statements of a block after its opening bracket, accumulated in
/// `acc`; consumes the closing bracket.
pub open spec fn spec_parse_block_items(toks: Seq<SpecToken>, i: int, acc: Seq<SpecExpr>) -> Result<
    (Seq<SpecExpr>, int),
    SpecErr,
>
    decreases trem(toks, i), 5int,
{
    match tok_at(toks, i).kind {
        SpecTokenKind::RBracket => Ok((acc, step(toks, i))),
        SpecTokenKind::Eol => spec_parse_block_items(toks, i + 1, acc),
        _ => match spec_parse_expression(toks, i) {
            Ok((e, j)) => if i < j && j <= toks.len() {
                match tok_at(toks, j).kind {
                    SpecTokenKind::Eol => spec_parse_block_items(toks, j + 1, acc.push(e)),
                    SpecTokenKind::RBracket => Ok((acc.push(e), step(toks, j))),
                    _ => Err(unexpected(toks, j, "unexpected token"@)),
                }
            } else {
                Err(unexpected(toks, i, "unexpected token"@))
            },
            Err(e) => Err(e),
        },
    }
}

/// The whole program: one block, parsed from index `i`; tokens after the
/// block's closing bracket are ignored.
pub open spec fn spec_parse_program(toks: Seq<SpecToken>, i: int) -> Result<SpecBlock, SpecErr> {
    match spec_parse_block(toks, i) {
        Ok((b, _)) => Ok(b),
        Err(e) => Err(e),
    }
}

// === Executable parser ===
/// Build the syntax error for the token at `i`.
fn unexpected_err(toks: &Vec<Token>, i: usize, msg: &str) -> (e: Error)
    ensures
        e@ == unexpected(toks.deep_view(), i as int, msg@),
{
    proof {
        lemma_token_vec_deep_view(toks);
    }
    let span = if i < toks.len() {
        toks[i].pos
    } else {
        crate::position::SourceSpan::new(crate::position::SourcePosition::start(), 0)
    };
    Error::new(ErrorKind::UnexpectedToken, msg, span)
}

/// The additive operator at token index `i`, if any.
fn term_op_at(toks: &Vec<Token>, i: usize) -> (op: Option<TermOp>)
    ensures
        op == term_op_of(tok_at(toks.deep_view(), i as int).kind),
{
    proof {
        lemma_token_vec_deep_view(toks);
    }
    if i < toks.len() {
        match &toks[i].kind {
            TokenKind::Add => Some(TermOp::Add),
            TokenKind::Subtract => Some(TermOp::Subtract),
            _ => None,
        }
    } else {
        None
    }
}

/// The multiplicative operator at token index `i`, if any.
fn factor_op_at(toks: &Vec<Token>, i: usize) -> (op: Option<FactorOp>)
    ensures
        op == factor_op_of(tok_at(toks.deep_view(), i as int).kind),
{
    proof {
        lemma_token_vec_deep_view(toks);
    }
    if i < toks.len() {
        match &toks[i].kind {
            TokenKind::Multiply => Some(FactorOp::Multiply),
            TokenKind::Divide => Some(FactorOp::Divide),
            TokenKind::Modulo => Some(FactorOp::Modulo),
            _ => None,
        }
    } else {
        None
    }
}

fn parse_leaf(toks: &Vec<Token>, i: usize) -> (r: Result<(Leaf, usize), Error>)
    ensures
        match (r, spec_parse_leaf(toks.deep_view(), i as int)) {
            (Ok((node, j)), Ok((snode, sj))) => node@ == snode && j as int == sj && i < j <= toks@.len(),
            (Err(e), Err(se)) => e@ == se,
            _ => false,
        },
    decreases trem(toks.deep_view(), i as int), 0int,
{
    proof {
        lemma_token_vec_deep_view(toks);
    }
    if i < toks.len() {
        match &toks[i].kind {
            TokenKind::Identifier(name) => Ok((Leaf::Identifier(name.clone(), i), i + 1)),
            TokenKind::FloatLiteral(text) => Ok((Leaf::FloatLiteral(text.clone(), i), i + 1)),
            TokenKind::LParen => match parse_term(toks, i + 1) {
                Ok((t, j)) => {
                    let closed = j < toks.len() && matches!(&toks[j].kind, TokenKind::RParen);
                    if closed {
                        Ok((Leaf::Term(Box::new(t)), j + 1))
                    } else {
                        Err(unexpected_err(toks, j, "expected ')'"))
                    }
                },
                Err(e) => Err(e),
            },
            _ => Err(unexpected_err(toks, i, "unexpected token")),
        }
    } else {
        Err(unexpected_err(toks, i, "unexpected token"))
    }
}

fn parse_factor(toks: &Vec<Token>, i: usize) -> (r: Result<(Factor, usize), Error>)
    ensures
        match (r, spec_parse_factor(toks.deep_view(), i as int)) {
            (Ok((node, j)), Ok((snode, sj))) => node@ == snode && j as int == sj && i < j <= toks@.len(),
            (Err(e), Err(se)) => e@ == se,
            _ => false,
        },
    decreases trem(toks.deep_view(), i as int), 1int,
{
    proof {
        lemma_token_vec_deep_view(toks);
    }
    match parse_leaf(toks, i) {
        Ok((l, j)) => parse_factor_rest(toks, Factor::Leaf(l), Ghost(i), j),
        Err(e) => Err(e),
    }
}

fn parse_factor_rest(toks: &Vec<Token>, cur: Factor, lo: Ghost<usize>, i: usize) -> (r: Result<
    (Factor, usize),
    Error,
>)
    requires
        lo@ < i <= toks@.len(),
    ensures
        match (r, spec_parse_factor_rest(toks.deep_view(), cur@, i as int)) {
            (Ok((node, j)), Ok((snode, sj))) => node@ == snode && j as int == sj && lo@ < j
                <= toks@.len(),
            (Err(e), Err(se)) => e@ == se,
            _ => false,
        },
    decreases trem(toks.deep_view(), i as int), 1int,
{
    proof {
        lemma_token_vec_deep_view(toks);
    }
    match factor_op_at(toks, i) {
        None => Ok((cur, i)),
        Some(op) => {
            let n: usize = toks.len();
            proof {
                assert(i < n);
            }
            match parse_leaf(toks, i + 1) {
                Ok((r2, j)) => parse_factor_rest(
                    toks,
                    Factor::Operation(Box::new(cur), op, r2),
                    Ghost(i),
                    j,
                ),
                Err(e) => Err(e),
            }
        },
    }
}

fn parse_term(toks: &Vec<Token>, i: usize) -> (r: Result<(Term, usize), Error>)
    ensures
        match (r, spec_parse_term(toks.deep_view(), i as int)) {
            (Ok((node, j)), Ok((snode, sj))) => node@ == snode && j as int == sj && i < j <= toks@.len(),
            (Err(e), Err(se)) => e@ == se,
            _ => false,
        },
    decreases trem(toks.deep_view(), i as int), 2int,
{
    proof {
        lemma_token_vec_deep_view(toks);
    }
    match parse_factor(toks, i) {
        Ok((f, j)) => parse_term_rest(toks, Term::Factor(f), Ghost(i), j),
        Err(e) => Err(e),
    }
}

fn parse_term_rest(toks: &Vec<Token>, cur: Term, lo: Ghost<usize>, i: usize) -> (r: Result<
    (Term, usize),
    Error,
>)
    requires
        lo@ < i <= toks@.len(),
    ensures
        match (r, spec_parse_term_rest(toks.deep_view(), cur@, i as int)) {
            (Ok((node, j)), Ok((snode, sj))) => node@ == snode && j as int == sj && lo@ < j
                <= toks@.len(),
            (Err(e), Err(se)) => e@ == se,
            _ => false,
        },
    decreases trem(toks.deep_view(), i as int), 2int,
{
    proof {
        lemma_token_vec_deep_view(toks);
    }
    match term_op_at(toks, i) {
        None => Ok((cur, i)),
        Some(op) => {
            let n: usize = toks.len();
            proof {
                assert(i < n);
            }
            match parse_factor(toks, i + 1) {
                Ok((r2, j)) => parse_term_rest(
                    toks,
                    Term::Operation(Box::new(cur), op, r2),
                    Ghost(i),
                    j,
                ),
                Err(e) => Err(e),
            }
        },
    }
}

fn parse_assignment(toks: &Vec<Token>, i: usize) -> (r: Result<(Assignment, usize), Error>)
    ensures
        match (r, spec_parse_assignment(toks.deep_view(), i as int)) {
            (Ok((node, j)), Ok((snode, sj))) => node@ == snode && j as int == sj && i < j <= toks@.len(),
            (Err(e), Err(se)) => e@ == se,
            _ => false,
        },
    decreases trem(toks.deep_view(), i as int), 3int,
{
    proof {
        lemma_token_vec_deep_view(toks);
    }
    if i >= toks.len() {
        return Err(unexpected_err(toks, i, "unexpected token"));
    }
    match &toks[i].kind {
        TokenKind::Let => {
            let name: String;
            if i + 1 < toks.len() {
                match &toks[i + 1].kind {
                    TokenKind::Identifier(s) => {
                        name = s.clone();
                    },
                    _ => {
                        return Err(unexpected_err(toks, i + 1, "expected identifier"));
                    },
                }
            } else {
                return Err(unexpected_err(toks, i + 1, "expected identifier"));
            }
            let colon_ok = i + 2 < toks.len() && matches!(&toks[i + 2].kind, TokenKind::Colon);
            if !colon_ok {
                return Err(unexpected_err(toks, i + 2, "expected ':'"));
            }
            let ty_name: String;
            if i + 3 < toks.len() {
                match &toks[i + 3].kind {
                    TokenKind::Identifier(s) => {
                        ty_name = s.clone();
                    },
                    _ => {
                        return Err(unexpected_err(toks, i + 3, "expected identifier"));
                    },
                }
            } else {
                return Err(unexpected_err(toks, i + 3, "expected identifier"));
            }
            let has_init = i + 4 < toks.len() && matches!(
                &toks[i + 4].kind,
                TokenKind::Assignment,
            );
            if !has_init {
                return Ok((Assignment::Initialization(name, ty_name, None, i), i + 4));
            }
            match parse_expression(toks, i + 5) {
                Ok((v, j)) => Ok(
                    (Assignment::Initialization(name, ty_name, Some(Box::new(v)), i), j),
                ),
                Err(e) => Err(e),
            }
        },
        TokenKind::Identifier(s) => {
            let name: String = s.clone();
            let eq_ok = i + 1 < toks.len() && matches!(&toks[i + 1].kind, TokenKind::Assignment);
            if !eq_ok {
                return Err(unexpected_err(toks, i + 1, "expected '='"));
            }
            match parse_expression(toks, i + 2) {
                Ok((v, j)) => Ok((Assignment::Reassignment(name, Box::new(v)), j)),
                Err(e) => Err(e),
            }
        },
        _ => Err(unexpected_err(toks, i, "unexpected token")),
    }
}

fn parse_expression(toks: &Vec<Token>, i: usize) -> (r: Result<(Expression, usize), Error>)
    ensures
        match (r, spec_parse_expression(toks.deep_view(), i as int)) {
            (Ok((node, j)), Ok((snode, sj))) => node@ == snode && j as int == sj && i < j <= toks@.len(),
            (Err(e), Err(se)) => e@ == se,
            _ => false,
        },
    decreases trem(toks.deep_view(), i as int), 4int,
{
    proof {
        lemma_token_vec_deep_view(toks);
    }
    if i < toks.len() {
        match &toks[i].kind {
            TokenKind::LBracket => match parse_block(toks, i) {
                Ok((b, j)) => Ok((Expression::Block(b), j)),
                Err(e) => Err(e),
            },
            TokenKind::Let => match parse_assignment(toks, i) {
                Ok((a, j)) => Ok((Expression::Assignment(a), j)),
                Err(e) => Err(e),
            },
            TokenKind::Identifier(_) => {
                let reassign = i + 1 < toks.len() && matches!(
                    &toks[i + 1].kind,
                    TokenKind::Assignment,
                );
                if reassign {
                    match parse_assignment(toks, i) {
                        Ok((a, j)) => Ok((Expression::Assignment(a), j)),
                        Err(e) => Err(e),
                    }
                } else {
                    match parse_term(toks, i) {
                        Ok((t, j)) => Ok((Expression::Term(t), j)),
                        Err(e) => Err(e),
                    }
                }
            },
            _ => match parse_term(toks, i) {
                Ok((t, j)) => Ok((Expression::Term(t), j)),
                Err(e) => Err(e),
            },
        }
    } else {
        match parse_term(toks, i) {
            Ok((t, j)) => Ok((Expression::Term(t), j)),
            Err(e) => Err(e),
        }
    }
}

fn parse_block(toks: &Vec<Token>, i: usize) -> (r: Result<(Block, usize), Error>)
    ensures
        match (r, spec_parse_block(toks.deep_view(), i as int)) {
            (Ok((node, j)), Ok((snode, sj))) => node@ == snode && j as int == sj && i < j <= toks@.len(),
            (Err(e), Err(se)) => e@ == se,
            _ => false,
        },
    decreases trem(toks.deep_view(), i as int), 3int,
{
    proof {
        lemma_token_vec_deep_view(toks);
    }
    let opened = i < toks.len() && matches!(&toks[i].kind, TokenKind::LBracket);
    if !opened {
        return Err(unexpected_err(toks, i, "expected '{'"));
    }
    match parse_block_items(toks, i + 1, Vec::new()) {
        Ok((exprs, j)) => Ok((Block { expressions: exprs, start_index: i }, j)),
        Err(e) => Err(e),
    }
}

fn parse_block_items(toks: &Vec<Token>, i: usize, acc: Vec<Expression>) -> (r: Result<
    (Vec<Expression>, usize),
    Error,
>)
    requires
        i <= toks@.len(),
    ensures
        match (r, spec_parse_block_items(toks.deep_view(), i as int, view_exprs(acc@))) {
            (Ok((exprs, j)), Ok((sexprs, sj))) => view_exprs(exprs@) == sexprs && j as int == sj
                && i <= j <= toks@.len(),
            (Err(e), Err(se)) => e@ == se,
            _ => false,
        },
    decreases trem(toks.deep_view(), i as int), 5int,
{
    proof {
        lemma_token_vec_deep_view(toks);
    }
    if i >= toks.len() {
        return Err(unexpected_err(toks, i, "unexpected token"));
    }
    match &toks[i].kind {
        TokenKind::RBracket => Ok((acc, i + 1)),
        TokenKind::Eol => parse_block_items(toks, i + 1, acc),
        _ => match parse_expression(toks, i) {
            Ok((e, j)) => {
                let mut acc2 = acc;
                let ghost acc2_before = acc2@;
                acc2.push(e);
                proof {
                    crate::ast::lemma_view_exprs(acc2_before);
                    assert(acc2@.drop_last() =~= acc2_before);
                    assert(view_exprs(acc2@) == view_exprs(acc2_before).push(acc2@.last()@));
                }
                if j < toks.len() {
                    match &toks[j].kind {
                        TokenKind::Eol => parse_block_items(toks, j + 1, acc2),
                        TokenKind::RBracket => Ok((acc2, j + 1)),
                        _ => Err(unexpected_err(toks, j, "unexpected token")),
                    }
                } else {
                    Err(unexpected_err(toks, j, "unexpected token"))
                }
            },
            Err(e) => Err(e),
        },
    }
}

// === What holds of every node a successful parse returns: it consumed at
// === least one token, it is well formed for the token sequence, its span
// === lies inside the tokens it was parsed from, and for the expression
// === tiers the span runs exactly from its first leaf to its last leaf.
/// The span facts shared by the leaf, factor and term tiers.
pub open spec fn tier_span_exact(pos: crate::token_span::SpecTokenSpan, first: int, last: int) -> bool {
    &&& 1 <= pos.len
    &&& 0 <= pos.start
    &&& pos.start == first
    &&& pos.start + pos.len == last + 1
}

pub proof fn lemma_parse_leaf_wf(toks: Seq<SpecToken>, i: int)
    requires
        0 <= i,
    ensures
        match spec_parse_leaf(toks, i) {
            Ok((l, j)) => {
                &&& i < j <= toks.len()
                &&& l.wf(toks.len() as int)
                &&& i <= l.pos().start
                &&& l.pos().start + l.pos().len <= j
                &&& tier_span_exact(l.pos(), l.first_leaf(), l.last_leaf())
            },
            Err(_) => true,
        },
    decreases trem(toks, i), 0int,
{
    match tok_at(toks, i).kind {
        SpecTokenKind::LParen => {
            lemma_parse_term_wf(toks, i + 1);
        },
        _ => {},
    }
}

pub proof fn lemma_parse_factor_rest_wf(toks: Seq<SpecToken>, cur: SpecFactor, i: int)
    requires
        0 <= i <= toks.len(),
        cur.wf(toks.len() as int),
        cur.pos().start + cur.pos().len <= i,
        tier_span_exact(cur.pos(), cur.first_leaf(), cur.last_leaf()),
    ensures
        match spec_parse_factor_rest(toks, cur, i) {
            Ok((f, j)) => {
                &&& i <= j <= toks.len()
                &&& f.wf(toks.len() as int)
                &&& f.pos().start == cur.pos().start
                &&& f.pos().start + f.pos().len <= j
                &&& tier_span_exact(f.pos(), f.first_leaf(), f.last_leaf())
            },
            Err(_) => true,
        },
    decreases trem(toks, i), 1int,
{
    match factor_op_of(tok_at(toks, i).kind) {
        None => {},
        Some(op) => {
            lemma_parse_leaf_wf(toks, i + 1);
            match spec_parse_leaf(toks, i + 1) {
                Ok((r, j)) => {
                    if i < j && j <= toks.len() {
                        let cur2 = SpecFactor::Operation(Box::new(cur), op, r);
                        assert(crate::token_span::ts_le(cur.pos(), r.pos()));
                        lemma_parse_factor_rest_wf(toks, cur2, j);
                    }
                },
                Err(_) => {},
            }
        },
    }
}

pub proof fn lemma_parse_factor_wf(toks: Seq<SpecToken>, i: int)
    requires
        0 <= i,
    ensures
        match spec_parse_factor(toks, i) {
            Ok((f, j)) => {
                &&& i < j <= toks.len()
                &&& f.wf(toks.len() as int)
                &&& i <= f.pos().start
                &&& f.pos().start + f.pos().len <= j
                &&& tier_span_exact(f.pos(), f.first_leaf(), f.last_leaf())
            },
            Err(_) => true,
        },
    decreases trem(toks, i), 1int,
{
    lemma_parse_leaf_wf(toks, i);
    match spec_parse_leaf(toks, i) {
        Ok((l, j)) => {
            if i < j && j <= toks.len() {
                lemma_parse_factor_rest_wf(toks, SpecFactor::Leaf(l), j);
            }
        },
        Err(_) => {},
    }
}

pub proof fn lemma_parse_term_rest_wf(toks: Seq<SpecToken>, cur: SpecTerm, i: int)
    requires
        0 <= i <= toks.len(),
        cur.wf(toks.len() as int),
        cur.pos().start + cur.pos().len <= i,
        tier_span_exact(cur.pos(), cur.first_leaf(), cur.last_leaf()),
    ensures
        match spec_parse_term_rest(toks, cur, i) {
            Ok((t, j)) => {
                &&& i <= j <= toks.len()
                &&& t.wf(toks.len() as int)
                &&& t.pos().start == cur.pos().start
                &&& t.pos().start + t.pos().len <= j
                &&& tier_span_exact(t.pos(), t.first_leaf(), t.last_leaf())
            },
            Err(_) => true,
        },
    decreases trem(toks, i), 2int,
{
    match term_op_of(tok_at(toks, i).kind) {
        None => {},
        Some(op) => {
            lemma_parse_factor_wf(toks, i + 1);
            match spec_parse_factor(toks, i + 1) {
                Ok((r, j)) => {
                    if i < j && j <= toks.len() {
                        let cur2 = SpecTerm::Operation(Box::new(cur), op, r);
                        assert(crate::token_span::ts_le(cur.pos(), r.pos()));
                        lemma_parse_term_rest_wf(toks, cur2, j);
                    }
                },
                Err(_) => {},
            }
        },
    }
}

pub proof fn lemma_parse_term_wf(toks: Seq<SpecToken>, i: int)
    requires
        0 <= i,
    ensures
        match spec_parse_term(toks, i) {
            Ok((t, j)) => {
                &&& i < j <= toks.len()
                &&& t.wf(toks.len() as int)
                &&& i <= t.pos().start
                &&& t.pos().start + t.pos().len <= j
                &&& tier_span_exact(t.pos(), t.first_leaf(), t.last_leaf())
            },
            Err(_) => true,
        },
    decreases trem(toks, i), 2int,
{
    lemma_parse_factor_wf(toks, i);
    match spec_parse_factor(toks, i) {
        Ok((f, j)) => {
            if i < j && j <= toks.len() {
                lemma_parse_term_rest_wf(toks, SpecTerm::Factor(f), j);
            }
        },
        Err(_) => {},
    }
}

pub proof fn lemma_parse_assignment_wf(toks: Seq<SpecToken>, i: int)
    requires
        0 <= i,
    ensures
        match spec_parse_assignment(toks, i) {
            Ok((a, j)) => {
                &&& i < j <= toks.len()
                &&& a.wf(toks.len() as int)
                &&& i <= a.pos().start
                &&& a.pos().start + a.pos().len <= j
                &&& 1 <= a.pos().len
            },
            Err(_) => true,
        },
    decreases trem(toks, i), 3int,
{
    match tok_at(toks, i).kind {
        SpecTokenKind::Let => {
            if (tok_at(toks, i + 1).kind matches SpecTokenKind::Identifier(_)) && (tok_at(
                toks,
                i + 2,
            ).kind is Colon) && (tok_at(toks, i + 3).kind matches SpecTokenKind::Identifier(_))
                && (tok_at(toks, i + 4).kind is Assignment) {
                lemma_parse_expression_wf(toks, i + 5);
            }
        },
        SpecTokenKind::Identifier(_) => {
            if tok_at(toks, i + 1).kind is Assignment {
                lemma_parse_expression_wf(toks, i + 2);
            }
        },
        _ => {},
    }
}

pub proof fn lemma_parse_expression_wf(toks: Seq<SpecToken>, i: int)
    requires
        0 <= i,
    ensures
        match spec_parse_expression(toks, i) {
            Ok((e, j)) => {
                &&& i < j <= toks.len()
                &&& e.wf(toks.len() as int)
                &&& i <= e.pos().start
                &&& e.pos().start + e.pos().len <= j
                &&& 1 <= e.pos().len
            },
            Err(_) => true,
        },
    decreases trem(toks, i), 4int,
{
    match tok_at(toks, i).kind {
        SpecTokenKind::LBracket => {
            lemma_parse_block_wf(toks, i);
        },
        SpecTokenKind::Let => {
            lemma_parse_assignment_wf(toks, i);
        },
        SpecTokenKind::Identifier(_) => {
            if tok_at(toks, i + 1).kind is Assignment {
                lemma_parse_assignment_wf(toks, i);
            } else {
                lemma_parse_term_wf(toks, i);
            }
        },
        _ => {
            lemma_parse_term_wf(toks, i);
        },
    }
}

pub proof fn lemma_parse_block_wf(toks: Seq<SpecToken>, i: int)
    requires
        0 <= i,
    ensures
        match spec_parse_block(toks, i) {
            Ok((b, j)) => {
                &&& i < j <= toks.len()
                &&& b.wf(toks.len() as int)
                &&& i <= b.pos().start
                &&& b.pos().start + b.pos().len <= j
                &&& 1 <= b.pos().len
            },
            Err(_) => true,
        },
    decreases trem(toks, i), 3int,
{
    if tok_at(toks, i).kind is LBracket {
        lemma_parse_block_items_wf(toks, i + 1, Seq::empty(), i + 1);
    }
}

pub proof fn lemma_parse_block_items_wf(toks: Seq<SpecToken>, i: int, acc: Seq<SpecExpr>, lo: int)
    requires
        0 <= lo <= i,
        forall|k: int|
            0 <= k < acc.len() ==> {
                &&& (#[trigger] acc[k]).wf(toks.len() as int)
                &&& lo <= acc[k].pos().start
                &&& acc[k].pos().start + acc[k].pos().len <= i
                &&& 1 <= acc[k].pos().len
            },
    ensures
        match spec_parse_block_items(toks, i, acc) {
            Ok((exprs, j)) => {
                &&& i < j <= toks.len()
                &&& forall|k: int|
                    0 <= k < exprs.len() ==> {
                        &&& (#[trigger] exprs[k]).wf(toks.len() as int)
                        &&& lo <= exprs[k].pos().start
                        &&& exprs[k].pos().start + exprs[k].pos().len <= j - 1
                        &&& 1 <= exprs[k].pos().len
                    }
            },
            Err(_) => true,
        },
    decreases trem(toks, i), 5int,
{
    match tok_at(toks, i).kind {
        SpecTokenKind::RBracket => {},
        SpecTokenKind::Eol => {
            lemma_parse_block_items_wf(toks, i + 1, acc, lo);
        },
        _ => {
            lemma_parse_expression_wf(toks, i);
            match spec_parse_expression(toks, i) {
                Ok((e, j)) => {
                    if i < j && j <= toks.len() {
                        match tok_at(toks, j).kind {
                            SpecTokenKind::Eol => {
                                lemma_parse_block_items_wf(toks, j + 1, acc.push(e), lo);
                            },
                            _ => {},
                        }
                    }
                },
                Err(_) => {},
            }
        },
    }
}

/// The recursive-descent parser over one token sequence.
pub struct Parser<'a> {
    pub tokens: &'a Vec<Token>,
    pub index: usize,
}

impl<'a> Parser<'a> {
    pub fn new(tokens: &'a Vec<Token>) -> (r: Parser<'a>)
        ensures
            r.tokens == tokens,
            r.index == 0,
    {
        Parser { tokens, index: 0 }
    }

    /// Parse the whole token sequence as one block.
    pub fn parse(self) -> (r: Result<Block, Error>)
        ensures
            match (r, spec_parse_program(self.tokens.deep_view(), self.index as int)) {
                (Ok(b), Ok(sb)) => b@ == sb,
                (Err(e), Err(se)) => e@ == se,
                _ => false,
            },
    {
        match parse_block(self.tokens, self.index) {
            Ok((b, _)) => Ok(b),
            Err(e) => Err(e),
        }
    }
}

} // verus!
