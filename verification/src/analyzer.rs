use vstd::prelude::*;

use crate::ast::{
    lemma_assignment_pos_in_range, lemma_assignment_wf_mono, lemma_leaf_pos_in_range,
    lemma_leaf_wf_mono, lemma_term_pos_in_range, lemma_term_wf_mono, lemma_view_exprs,
    Assignment, Block, Expression, Factor, Leaf, SpecAssignment, SpecBlock, SpecExpr,
    SpecFactor, SpecLeaf, SpecTerm, Term,
};
use crate::error::{Error, ErrorKind, SpecErr};
use crate::symbol_table::{chain_lookup, frame_lookup, SymbolTable};
use crate::token::{lemma_token_vec_deep_view, wf_tokens, SpecToken, Token};
use crate::token_span::spec_as_source_span;
use crate::types::Type;

verus! {

/// The model of a scope chain: a stack of frames, innermost last.
pub type Scopes = Seq<Seq<(Seq<char>, Type)>>;

/// Bind a name in the innermost scope.
pub open spec fn bind(scopes: Scopes, name: Seq<char>, t: Type) -> Scopes {
    scopes.update(scopes.len() - 1, scopes.last().push((name, t)))
}

pub open spec fn undeclared_msg(name: Seq<char>) -> Seq<char> {
    "use of undeclared variable \""@ + name + "\""@
}

pub open spec fn redeclaration_msg(name: Seq<char>) -> Seq<char> {
    "declaration of previously declared variable \""@ + name + "\""@
}

// === The analysis, as functions. Terms, factors and leaves only read the
// === scope chain; assignments and blocks may extend it, so they return the
// === chain that analysis of the following statements continues with.
/// A float literal has type Float; an identifier resolves through the scope
/// chain or fails; a parenthesized term recurses.
pub open spec fn spec_analyze_leaf(toks: Seq<SpecToken>, scopes: Scopes, l: SpecLeaf) -> Result<
    Type,
    SpecErr,
>
    decreases l,
{
    match l {
        SpecLeaf::FloatLiteral(_, _) => Ok(Type::Float),
        SpecLeaf::Identifier(name, _) => match chain_lookup(scopes, name) {
            Some(t) => Ok(t),
            None => Err(
                SpecErr {
                    kind: ErrorKind::UndeclaredVariable,
                    msg: undeclared_msg(name),
                    span: spec_as_source_span(l.pos(), toks),
                },
            ),
        },
        SpecLeaf::Term(t) => spec_analyze_term(toks, scopes, *t),
    }
}

/// Both operands of a binary operation must have one and the same type,
/// which is the operation's type.
pub open spec fn spec_analyze_factor(toks: Seq<SpecToken>, scopes: Scopes, f: SpecFactor) -> Result<
    Type,
    SpecErr,
>
    decreases f,
{
    match f {
        SpecFactor::Leaf(l) => spec_analyze_leaf(toks, scopes, l),
        SpecFactor::Operation(l, _, r) => match spec_analyze_factor(toks, scopes, *l) {
            Ok(lt) => match spec_analyze_leaf(toks, scopes, r) {
                Ok(rt) => if lt != rt {
                    Err(
                        SpecErr {
                            kind: ErrorKind::TypeMismatch,
                            msg: "type mismatch"@,
                            span: spec_as_source_span(f.pos(), toks),
                        },
                    )
                } else {
                    Ok(lt)
                },
                Err(e) => Err(e),
            },
            Err(e) => Err(e),
        },
    }
}

/// Both operands of a binary operation must have one and the same type,
/// which is the operation's type.
pub open spec fn spec_analyze_term(toks: Seq<SpecToken>, scopes: Scopes, t: SpecTerm) -> Result<
    Type,
    SpecErr,
>
    decreases t,
{
    match t {
        SpecTerm::Factor(f) => spec_analyze_factor(toks, scopes, f),
        SpecTerm::Operation(l, _, r) => match spec_analyze_term(toks, scopes, *l) {
            Ok(lt) => match spec_analyze_factor(toks, scopes, r) {
                Ok(rt) => if lt != rt {
                    Err(
                        SpecErr {
                            kind: ErrorKind::TypeMismatch,
                            msg: "type mismatch"@,
                            span: spec_as_source_span(t.pos(), toks),
                        },
                    )
                } else {
                    Ok(lt)
                },
                Err(e) => Err(e),
            },
            Err(e) => Err(e),
        },
    }
}

/// An initialization fails on a name already bound in the current scope, on
/// an unknown type name, and on an initializer whose type differs from the
/// declared one; on success it binds the name. A reassignment fails on an
/// undeclared name and on a value whose type differs from the binding's;
/// it never changes the binding.
pub open spec fn spec_analyze_assignment(
    toks: Seq<SpecToken>,
    scopes: Scopes,
    a: SpecAssignment,
) -> Result<(Type, Scopes), SpecErr>
    decreases a,
{
    match a {
        SpecAssignment::Initialization(name, ty_name, value, _) => {
            if frame_lookup(scopes.last(), name).is_some() {
                Err(
                    SpecErr {
                        kind: ErrorKind::Redeclaration,
                        msg: redeclaration_msg(name),
                        span: spec_as_source_span(a.pos(), toks),
                    },
                )
            } else {
                match Type::spec_from_name(ty_name) {
                    None => Err(
                        SpecErr {
                            kind: ErrorKind::TypeMismatch,
                            msg: "unexpected type"@,
                            span: spec_as_source_span(a.pos(), toks),
                        },
                    ),
                    Some(ty) => match value {
                        None => Ok((ty, bind(scopes, name, ty))),
                        Some(v) => match spec_analyze_expression(toks, scopes, *v) {
                            Ok((vt, s2)) => if vt != ty {
                                Err(
                                    SpecErr {
                                        kind: ErrorKind::TypeMismatch,
                                        msg: "type mismatch"@,
                                        span: spec_as_source_span(a.pos(), toks),
                                    },
                                )
                            } else {
                                Ok((ty, bind(s2, name, ty)))
                            },
                            Err(e) => Err(e),
                        },
                    },
                }
            }
        },
        SpecAssignment::Reassignment(name, v) => match spec_analyze_expression(
            toks,
            scopes,
            *v,
        ) {
            Ok((vt, s2)) => match chain_lookup(s2, name) {
                None => Err(
                    SpecErr {
                        kind: ErrorKind::UndeclaredVariable,
                        msg: undeclared_msg(name),
                        span: spec_as_source_span(a.pos(), toks),
                    },
                ),
                Some(cur) => if cur != vt {
                    Err(
                        SpecErr {
                            kind: ErrorKind::TypeMismatch,
                            msg: "type mismatch"@,
                            span: spec_as_source_span(a.pos(), toks),
                        },
                    )
                } else {
                    Ok((vt, s2))
                },
            },
            Err(e) => Err(e),
        },
    }
}

pub open spec fn spec_analyze_expression(toks: Seq<SpecToken>, scopes: Scopes, e: SpecExpr) -> Result<
    (Type, Scopes),
    SpecErr,
>
    decreases e,
{
    match e {
        SpecExpr::Assignment(a) => spec_analyze_assignment(toks, scopes, a),
        SpecExpr::Block(b) => spec_analyze_block(toks, scopes, b),
        SpecExpr::Term(t) => match spec_analyze_term(toks, scopes, t) {
            Ok(ty) => Ok((ty, scopes)),
            Err(e2) => Err(e2),
        },
    }
}

/// A block is analyzed in a fresh scope, which is discarded afterwards; its
/// type is its last statement's type, or Void when it is empty.
pub open spec fn spec_analyze_block(toks: Seq<SpecToken>, scopes: Scopes, b: SpecBlock) -> Result<
    (Type, Scopes),
    SpecErr,
>
    decreases b,
{
    match spec_analyze_stmts(toks, scopes.push(Seq::empty()), b.exprs) {
        Ok((ty, s2)) => Ok((ty, s2.drop_last())),
        Err(e) => Err(e),
    }
}

/// Statements are analyzed in order, each in the chain its predecessor left
/// behind; every statement is analyzed, and the last one's type is the
/// result.
pub open spec fn spec_analyze_stmts(toks: Seq<SpecToken>, scopes: Scopes, exprs: Seq<SpecExpr>) -> Result<
    (Type, Scopes),
    SpecErr,
>
    decreases exprs,
{
    if exprs.len() == 0 {
        Ok((Type::Void, scopes))
    } else {
        match spec_analyze_expression(toks, scopes, exprs[0]) {
            Ok((t, s2)) => if exprs.len() == 1 {
                Ok((t, s2))
            } else {
                spec_analyze_stmts(toks, s2, exprs.drop_first())
            },
            Err(e) => Err(e),
        }
    }
}

/// A whole program: its block analyzed against a fresh scope chain.
pub open spec fn spec_analyze_program(toks: Seq<SpecToken>, b: SpecBlock) -> Result<Type, SpecErr> {
    match spec_analyze_block(toks, seq![Seq::empty()], b) {
        Ok((t, _)) => Ok(t),
        Err(e) => Err(e),
    }
}

// === Analysis preserves the depth of the scope chain ===
pub proof fn lemma_assignment_scopes_len(toks: Seq<SpecToken>, scopes: Scopes, a: SpecAssignment)
    requires
        scopes.len() >= 1,
    ensures
        match spec_analyze_assignment(toks, scopes, a) {
            Ok((_, s2)) => s2.len() == scopes.len(),
            Err(_) => true,
        },
    decreases a,
{
    match a {
        SpecAssignment::Initialization(_, _, value, _) => match value {
            Some(v) => lemma_expr_scopes_len(toks, scopes, *v),
            None => {},
        },
        SpecAssignment::Reassignment(_, v) => lemma_expr_scopes_len(toks, scopes, *v),
    }
}

pub proof fn lemma_expr_scopes_len(toks: Seq<SpecToken>, scopes: Scopes, e: SpecExpr)
    requires
        scopes.len() >= 1,
    ensures
        match spec_analyze_expression(toks, scopes, e) {
            Ok((_, s2)) => s2.len() == scopes.len(),
            Err(_) => true,
        },
    decreases e,
{
    match e {
        SpecExpr::Assignment(a) => lemma_assignment_scopes_len(toks, scopes, a),
        SpecExpr::Block(b) => lemma_block_scopes_len(toks, scopes, b),
        SpecExpr::Term(_) => {},
    }
}

pub proof fn lemma_block_scopes_len(toks: Seq<SpecToken>, scopes: Scopes, b: SpecBlock)
    ensures
        match spec_analyze_block(toks, scopes, b) {
            Ok((_, s2)) => s2.len() == scopes.len(),
            Err(_) => true,
        },
    decreases b,
{
    lemma_stmts_scopes_len(toks, scopes.push(Seq::empty()), b.exprs);
}

pub proof fn lemma_stmts_scopes_len(toks: Seq<SpecToken>, scopes: Scopes, exprs: Seq<SpecExpr>)
    requires
        scopes.len() >= 1,
    ensures
        match spec_analyze_stmts(toks, scopes, exprs) {
            Ok((_, s2)) => s2.len() == scopes.len(),
            Err(_) => true,
        },
    decreases exprs,
{
    if exprs.len() > 0 {
        lemma_expr_scopes_len(toks, scopes, exprs[0]);
        match spec_analyze_expression(toks, scopes, exprs[0]) {
            Ok((_, s2)) => {
                if exprs.len() > 1 {
                    lemma_stmts_scopes_len(toks, s2, exprs.drop_first());
                }
            },
            Err(_) => {},
        }
    }
}

// === Executable analyzer ===
/// The single semantic pass: owns the scope chain it builds and reads the
/// token sequence to turn node spans into source spans for diagnostics.
pub struct Analyzer<'a> {
    pub symbol_table: SymbolTable,
    pub tokens: &'a Vec<Token>,
}

impl<'a> Analyzer<'a> {
    pub fn new(tokens: &'a Vec<Token>) -> (r: Analyzer<'a>)
        ensures
            r.tokens == tokens,
            r.symbol_table@ == seq![Seq::<(Seq<char>, Type)>::empty()],
    {
        Analyzer { symbol_table: SymbolTable::new(), tokens }
    }

    /// Analyze a whole program against the analyzer's current scope chain.
    pub fn analyze(&mut self, program: &Block) -> (r: Result<Type, Error>)
        requires
            wf_tokens(old(self).tokens.deep_view()),
            program@.wf(old(self).tokens@.len() as int),
        ensures
            final(self).tokens == old(self).tokens,
            match (
                r,
                spec_analyze_block(
                    old(self).tokens.deep_view(),
                    old(self).symbol_table@,
                    program@,
                ),
            ) {
                (Ok(t), Ok((st, ss))) => t == st && final(self).symbol_table@ == ss,
                (Err(e), Err(se)) => e@ == se,
                _ => false,
            },
    {
        self.analyze_block(program)
    }

    fn analyze_expression(&mut self, expr: &Expression) -> (r: Result<Type, Error>)
        requires
            wf_tokens(old(self).tokens.deep_view()),
            expr@.wf(old(self).tokens@.len() as int),
            old(self).symbol_table@.len() >= 1,
        ensures
            final(self).tokens == old(self).tokens,
            match (
                r,
                spec_analyze_expression(
                    old(self).tokens.deep_view(),
                    old(self).symbol_table@,
                    expr@,
                ),
            ) {
                (Ok(t), Ok((st, ss))) => t == st && final(self).symbol_table@ == ss,
                (Err(e), Err(se)) => e@ == se,
                _ => false,
            },
        decreases expr,
    {
        match expr {
            Expression::Assignment(a) => self.analyze_assignment(a),
            Expression::Block(b) => self.analyze_block(b),
            Expression::Term(t) => match self.analyze_term(t) {
                Ok(ty) => Ok(ty),
                Err(e) => Err(e),
            },
        }
    }

    fn analyze_block(&mut self, block: &Block) -> (r: Result<Type, Error>)
        requires
            wf_tokens(old(self).tokens.deep_view()),
            block@.wf(old(self).tokens@.len() as int),
        ensures
            final(self).tokens == old(self).tokens,
            match (
                r,
                spec_analyze_block(old(self).tokens.deep_view(), old(self).symbol_table@, block@),
            ) {
                (Ok(t), Ok((st, ss))) => t == st && final(self).symbol_table@ == ss,
                (Err(e), Err(se)) => e@ == se,
                _ => false,
            },
        decreases block,
    {
        let ghost toks = self.tokens.deep_view();
        let ghost sexprs = block@.exprs;
        proof {
            lemma_view_exprs(block.expressions@);
        }
        self.symbol_table.enter_scope();
        let ghost scopes0 = self.symbol_table@;
        let n: usize = block.expressions.len();
        if n == 0 {
            proof {
                assert(scopes0.drop_last() =~= old(self).symbol_table@);
            }
            self.symbol_table.exit_scope();
            return Ok(Type::Void);
        }
        let mut k: usize = 0;
        proof {
            assert(sexprs.skip(0) =~= sexprs);
        }
        loop
            invariant
                0 <= k < n,
                n == block.expressions@.len(),
                self.tokens == old(self).tokens,
                wf_tokens(toks),
                toks == self.tokens.deep_view(),
                sexprs == block@.exprs,
                sexprs.len() == n,
                block@.wf(self.tokens@.len() as int),
                forall|m: int| 0 <= m < n ==> sexprs[m] == (#[trigger] block.expressions@[m])@,
                self.symbol_table@.len() >= 1,
                scopes0 == old(self).symbol_table@.push(Seq::<(Seq<char>, Type)>::empty()),
                spec_analyze_stmts(toks, scopes0, sexprs) == spec_analyze_stmts(
                    toks,
                    self.symbol_table@,
                    sexprs.skip(k as int),
                ),
            decreases n - k,
        {
            let ghost scopes_here = self.symbol_table@;
            proof {
                assert(sexprs.skip(k as int)[0] == sexprs[k as int]);
                assert(sexprs.skip(k as int).len() == n - k);
                lemma_expr_scopes_len(toks, scopes_here, sexprs[k as int]);
            }
            match self.analyze_expression(&block.expressions[k]) {
                Err(e) => {
                    return Err(e);
                },
                Ok(t) => {
                    if k == n - 1 {
                        proof {
                            assert(self.symbol_table@.len() == scopes_here.len());
                            assert(self.symbol_table@.drop_last().len() == scopes_here.len()
                                - 1);
                        }
                        self.symbol_table.exit_scope();
                        return Ok(t);
                    }
                    proof {
                        assert(sexprs.skip(k as int).drop_first() =~= sexprs.skip(k as int + 1));
                    }
                    k = k + 1;
                },
            }
        }
    }

    fn analyze_assignment(&mut self, assig: &Assignment) -> (r: Result<Type, Error>)
        requires
            wf_tokens(old(self).tokens.deep_view()),
            assig@.wf(old(self).tokens@.len() as int),
            old(self).symbol_table@.len() >= 1,
        ensures
            final(self).tokens == old(self).tokens,
            match (
                r,
                spec_analyze_assignment(
                    old(self).tokens.deep_view(),
                    old(self).symbol_table@,
                    assig@,
                ),
            ) {
                (Ok(t), Ok((st, ss))) => t == st && final(self).symbol_table@ == ss,
                (Err(e), Err(se)) => e@ == se,
                _ => false,
            },
        decreases assig,
    {
        let ghost toks = self.tokens.deep_view();
        let ntok: usize = self.tokens.len();
        proof {
            lemma_token_vec_deep_view(self.tokens);
            lemma_assignment_wf_mono(assig@, ntok as int, usize::MAX as int);
            lemma_assignment_pos_in_range(assig@, ntok as int);
        }
        match assig {
            Assignment::Initialization(name, ty_name, value, _) => {
                if self.symbol_table.has_in_current(name.as_str()) {
                    let mut msg: String = ("declaration of previously declared variable \"")
                        .to_owned();
                    msg.append(name.as_str());
                    msg.append("\"");
                    let span = assig.pos().as_source_span(self.tokens);
                    return Err(Error::new(ErrorKind::Redeclaration, msg.as_str(), span));
                }
                match Type::from_name(ty_name.as_str()) {
                    None => {
                        let span = assig.pos().as_source_span(self.tokens);
                        Err(Error::new(ErrorKind::TypeMismatch, "unexpected type", span))
                    },
                    Some(ty) => match value {
                        None => {
                            self.symbol_table.set(name.as_str(), ty);
                            Ok(ty)
                        },
                        Some(v) => match self.analyze_expression(&**v) {
                            Err(e) => Err(e),
                            Ok(vt) => {
                                if vt != ty {
                                    let span = assig.pos().as_source_span(self.tokens);
                                    Err(
                                        Error::new(
                                            ErrorKind::TypeMismatch,
                                            "type mismatch",
                                            span,
                                        ),
                                    )
                                } else {
                                    proof {
                                        lemma_expr_scopes_len(
                                            toks,
                                            old(self).symbol_table@,
                                            v@,
                                        );
                                    }
                                    self.symbol_table.set(name.as_str(), ty);
                                    Ok(ty)
                                }
                            },
                        },
                    },
                }
            },
            Assignment::Reassignment(name, v) => match self.analyze_expression(&**v) {
                Err(e) => Err(e),
                Ok(vt) => match self.symbol_table.get(name.as_str()) {
                    None => {
                        let mut msg: String = ("use of undeclared variable \"").to_owned();
                        msg.append(name.as_str());
                        msg.append("\"");
                        let span = assig.pos().as_source_span(self.tokens);
                        Err(Error::new(ErrorKind::UndeclaredVariable, msg.as_str(), span))
                    },
                    Some(cur) => {
                        if cur != vt {
                            let span = assig.pos().as_source_span(self.tokens);
                            Err(Error::new(ErrorKind::TypeMismatch, "type mismatch", span))
                        } else {
                            Ok(vt)
                        }
                    },
                },
            },
        }
    }

    fn analyze_term(&self, term: &Term) -> (r: Result<Type, Error>)
        requires
            wf_tokens(self.tokens.deep_view()),
            term@.wf(self.tokens@.len() as int),
        ensures
            match (
                r,
                spec_analyze_term(self.tokens.deep_view(), self.symbol_table@, term@),
            ) {
                (Ok(t), Ok(st)) => t == st,
                (Err(e), Err(se)) => e@ == se,
                _ => false,
            },
        decreases term,
    {
        match term {
            Term::Factor(f) => self.analyze_factor(f),
            Term::Operation(l, _, rf) => match self.analyze_term(&**l) {
                Err(e) => Err(e),
                Ok(lt) => match self.analyze_factor(rf) {
                    Err(e) => Err(e),
                    Ok(rt) => {
                        if lt != rt {
                            let ntok: usize = self.tokens.len();
                            proof {
                                lemma_token_vec_deep_view(self.tokens);
                                lemma_term_wf_mono(term@, ntok as int, usize::MAX as int);
                                lemma_term_pos_in_range(term@, ntok as int);
                            }
                            let span = term.pos().as_source_span(self.tokens);
                            Err(Error::new(ErrorKind::TypeMismatch, "type mismatch", span))
                        } else {
                            Ok(lt)
                        }
                    },
                },
            },
        }
    }

    fn analyze_factor(&self, factor: &Factor) -> (r: Result<Type, Error>)
        requires
            wf_tokens(self.tokens.deep_view()),
            factor@.wf(self.tokens@.len() as int),
        ensures
            match (
                r,
                spec_analyze_factor(self.tokens.deep_view(), self.symbol_table@, factor@),
            ) {
                (Ok(t), Ok(st)) => t == st,
                (Err(e), Err(se)) => e@ == se,
                _ => false,
            },
        decreases factor,
    {
        match factor {
            Factor::Leaf(l) => self.analyze_leaf(l),
            Factor::Operation(l, _, rl) => match self.analyze_factor(&**l) {
                Err(e) => Err(e),
                Ok(lt) => match self.analyze_leaf(rl) {
                    Err(e) => Err(e),
                    Ok(rt) => {
                        if lt != rt {
                            let ntok: usize = self.tokens.len();
                            proof {
                                lemma_token_vec_deep_view(self.tokens);
                                crate::ast::lemma_factor_wf_mono(
                                    factor@,
                                    ntok as int,
                                    usize::MAX as int,
                                );
                                crate::ast::lemma_factor_pos_in_range(factor@, ntok as int);
                            }
                            let span = factor.pos().as_source_span(self.tokens);
                            Err(Error::new(ErrorKind::TypeMismatch, "type mismatch", span))
                        } else {
                            Ok(lt)
                        }
                    },
                },
            },
        }
    }

    fn analyze_leaf(&self, leaf: &Leaf) -> (r: Result<Type, Error>)
        requires
            wf_tokens(self.tokens.deep_view()),
            leaf@.wf(self.tokens@.len() as int),
        ensures
            match (
                r,
                spec_analyze_leaf(self.tokens.deep_view(), self.symbol_table@, leaf@),
            ) {
                (Ok(t), Ok(st)) => t == st,
                (Err(e), Err(se)) => e@ == se,
                _ => false,
            },
        decreases leaf,
    {
        match leaf {
            Leaf::FloatLiteral(_, _) => Ok(Type::Float),
            Leaf::Identifier(name, _) => match self.symbol_table.get(name.as_str()) {
                Some(t) => Ok(t),
                None => {
                    let mut msg: String = ("use of undeclared variable \"").to_owned();
                    msg.append(name.as_str());
                    msg.append("\"");
                    let ntok: usize = self.tokens.len();
                    proof {
                        lemma_token_vec_deep_view(self.tokens);
                        lemma_leaf_wf_mono(leaf@, ntok as int, usize::MAX as int);
                        lemma_leaf_pos_in_range(leaf@, ntok as int);
                    }
                    let span = leaf.pos().as_source_span(self.tokens);
                    Err(Error::new(ErrorKind::UndeclaredVariable, msg.as_str(), span))
                },
            },
            Leaf::Term(t) => self.analyze_term(&**t),
        }
    }
}

} // verus!
