use vstd::prelude::*;

use crate::token_span::{ts_union, SpecTokenSpan, TokenSpan};

verus! {

// === The abstract syntax tree ===
/// A statement or value: grammar category `expression`.
#[derive(Debug, PartialEq)]
pub enum Expression {
    Assignment(Assignment),
    Block(Block),
    Term(Term),
}

/// An ordered sequence of expressions; the last one is the block's value.
/// `start_index` is the token index of the opening bracket.
#[derive(Debug, PartialEq)]
pub struct Block {
    pub expressions: Vec<Expression>,
    pub start_index: usize,
}

/// A declaration (`let name: type = value`) or a reassignment
/// (`name = value`). The trailing index of an initialization is the token
/// index of its `let`.
#[derive(Debug, PartialEq)]
pub enum Assignment {
    Initialization(String, String, Option<Box<Expression>>, usize),
    Reassignment(String, Box<Expression>),
}

#[derive(Copy, Clone, PartialEq, Eq, Structural, Debug)]
pub enum TermOp {
    Add,
    Subtract,
}

/// The additive precedence tier; operations nest to the left.
#[derive(Debug, PartialEq)]
pub enum Term {
    Factor(Factor),
    Operation(Box<Term>, TermOp, Factor),
}

#[derive(Copy, Clone, PartialEq, Eq, Structural, Debug)]
pub enum FactorOp {
    Multiply,
    Divide,
    Modulo,
}

/// The multiplicative precedence tier; operations nest to the left.
#[derive(Debug, PartialEq)]
pub enum Factor {
    Leaf(Leaf),
    Operation(Box<Factor>, FactorOp, Leaf),
}

/// A terminal production: an identifier reference, a float literal, or a
/// parenthesized term. Identifiers and literals carry their token index.
#[derive(Debug, PartialEq)]
pub enum Leaf {
    Identifier(String, usize),
    FloatLiteral(String, usize),
    Term(Box<Term>),
}

// === Mathematical model of the tree ===
pub enum SpecExpr {
    Assignment(SpecAssignment),
    Block(SpecBlock),
    Term(SpecTerm),
}

pub struct SpecBlock {
    pub exprs: Seq<SpecExpr>,
    pub start_index: int,
}

pub enum SpecAssignment {
    Initialization(Seq<char>, Seq<char>, Option<Box<SpecExpr>>, int),
    Reassignment(Seq<char>, Box<SpecExpr>),
}

pub enum SpecTerm {
    Factor(SpecFactor),
    Operation(Box<SpecTerm>, TermOp, SpecFactor),
}

pub enum SpecFactor {
    Leaf(SpecLeaf),
    Operation(Box<SpecFactor>, FactorOp, SpecLeaf),
}

pub enum SpecLeaf {
    Identifier(Seq<char>, int),
    FloatLiteral(Seq<char>, int),
    Term(Box<SpecTerm>),
}

// === Views from the executable tree to its model ===
impl View for Expression {
    type V = SpecExpr;

    open spec fn view(&self) -> SpecExpr
        decreases self,
    {
        match self {
            Expression::Assignment(a) => SpecExpr::Assignment(a.view()),
            Expression::Block(b) => SpecExpr::Block(b.view()),
            Expression::Term(t) => SpecExpr::Term(t.view()),
        }
    }
}

/// The views of a sequence of expressions, in order.
pub open spec fn view_exprs(s: Seq<Expression>) -> Seq<SpecExpr>
    decreases s,
{
    if s.len() == 0 {
        Seq::empty()
    } else {
        view_exprs(s.drop_last()).push(s.last().view())
    }
}

/// `view_exprs` maps the sequence element by element.
pub proof fn lemma_view_exprs(s: Seq<Expression>)
    ensures
        view_exprs(s).len() == s.len(),
        forall|k: int| 0 <= k < s.len() ==> view_exprs(s)[k] == (#[trigger] s[k])@,
    decreases s.len(),
{
    if s.len() > 0 {
        lemma_view_exprs(s.drop_last());
        assert(view_exprs(s) == view_exprs(s.drop_last()).push(s.last().view()));
        assert forall|k: int| 0 <= k < s.len() implies view_exprs(s)[k] == (#[trigger] s[k])@ by {
            if k < s.len() - 1 {
                assert(view_exprs(s)[k] == view_exprs(s.drop_last())[k]);
                assert(s.drop_last()[k] == s[k]);
            } else {
                assert(s.last() == s[k]);
            }
        }
    }
}

impl View for Block {
    type V = SpecBlock;

    open spec fn view(&self) -> SpecBlock
        decreases self,
    {
        SpecBlock { exprs: view_exprs(self.expressions@), start_index: self.start_index as int }
    }
}

impl View for Assignment {
    type V = SpecAssignment;

    open spec fn view(&self) -> SpecAssignment
        decreases self,
    {
        match self {
            Assignment::Initialization(name, ty, value, start) => SpecAssignment::Initialization(
                name@,
                ty@,
                match value {
                    Some(v) => Some(Box::new((**v).view())),
                    None => None,
                },
                *start as int,
            ),
            Assignment::Reassignment(name, v) => SpecAssignment::Reassignment(
                name@,
                Box::new((**v).view()),
            ),
        }
    }
}

impl View for Term {
    type V = SpecTerm;

    open spec fn view(&self) -> SpecTerm
        decreases self,
    {
        match self {
            Term::Factor(f) => SpecTerm::Factor(f.view()),
            Term::Operation(l, op, r) => SpecTerm::Operation(Box::new((**l).view()), *op, r.view()),
        }
    }
}

impl View for Factor {
    type V = SpecFactor;

    open spec fn view(&self) -> SpecFactor
        decreases self,
    {
        match self {
            Factor::Leaf(l) => SpecFactor::Leaf(l.view()),
            Factor::Operation(l, op, r) => SpecFactor::Operation(
                Box::new((**l).view()),
                *op,
                r.view(),
            ),
        }
    }
}

impl View for Leaf {
    type V = SpecLeaf;

    open spec fn view(&self) -> SpecLeaf
        decreases self,
    {
        match self {
            Leaf::Identifier(name, i) => SpecLeaf::Identifier(name@, *i as int),
            Leaf::FloatLiteral(text, i) => SpecLeaf::FloatLiteral(text@, *i as int),
            Leaf::Term(t) => SpecLeaf::Term(Box::new((**t).view())),
        }
    }
}

// === Token spans of tree nodes ===
impl SpecLeaf {
    /// The token range a leaf covers.
    pub open spec fn pos(&self) -> SpecTokenSpan
        decreases self,
    {
        match self {
            SpecLeaf::Identifier(_, i) => SpecTokenSpan { start: *i, len: 1 },
            SpecLeaf::FloatLiteral(_, i) => SpecTokenSpan { start: *i, len: 1 },
            SpecLeaf::Term(t) => t.pos(),
        }
    }
}

impl SpecTerm {
    /// The token range a term covers: the union of its children's ranges.
    pub open spec fn pos(&self) -> SpecTokenSpan
        decreases self,
    {
        match self {
            SpecTerm::Factor(f) => f.pos(),
            SpecTerm::Operation(l, _, r) => ts_union(l.pos(), r.pos()),
        }
    }
}

impl SpecFactor {
    /// The token range a factor covers: the union of its children's ranges.
    pub open spec fn pos(&self) -> SpecTokenSpan
        decreases self,
    {
        match self {
            SpecFactor::Leaf(l) => l.pos(),
            SpecFactor::Operation(l, _, r) => ts_union(l.pos(), r.pos()),
        }
    }
}

impl SpecAssignment {
    /// The token range an assignment covers, starting at its `let` keyword
    /// or at the reassigned name.
    pub open spec fn pos(&self) -> SpecTokenSpan
        decreases self,
    {
        match self {
            SpecAssignment::Initialization(_, _, value, start) => match value {
                Some(v) => SpecTokenSpan { start: *start, len: 5 + v.pos().len },
                None => SpecTokenSpan { start: *start, len: 4 },
            },
            SpecAssignment::Reassignment(_, v) => SpecTokenSpan {
                start: v.pos().start - 2,
                len: v.pos().len + 2,
            },
        }
    }
}

impl SpecExpr {
    pub open spec fn pos(&self) -> SpecTokenSpan
        decreases self,
    {
        match self {
            SpecExpr::Assignment(a) => a.pos(),
            SpecExpr::Block(b) => b.pos(),
            SpecExpr::Term(t) => t.pos(),
        }
    }
}

impl SpecBlock {
    /// The token range a block covers: its bracket pair when it is empty,
    /// else the union of its first and last statement's ranges.
    pub open spec fn pos(&self) -> SpecTokenSpan
        decreases self,
    {
        if self.exprs.len() == 0 {
            SpecTokenSpan { start: self.start_index, len: 2 }
        } else {
            ts_union(self.exprs[0].pos(), self.exprs[self.exprs.len() - 1].pos())
        }
    }
}

// === The outermost leaves of the expression tiers ===
impl SpecLeaf {
    /// The token index of the leftmost identifier or literal under this node.
    pub open spec fn first_leaf(&self) -> int
        decreases self,
    {
        match self {
            SpecLeaf::Identifier(_, k) => *k,
            SpecLeaf::FloatLiteral(_, k) => *k,
            SpecLeaf::Term(t) => t.first_leaf(),
        }
    }

    /// The token index of the rightmost identifier or literal under this node.
    pub open spec fn last_leaf(&self) -> int
        decreases self,
    {
        match self {
            SpecLeaf::Identifier(_, k) => *k,
            SpecLeaf::FloatLiteral(_, k) => *k,
            SpecLeaf::Term(t) => t.last_leaf(),
        }
    }
}

impl SpecFactor {
    /// The token index of the leftmost identifier or literal under this node.
    pub open spec fn first_leaf(&self) -> int
        decreases self,
    {
        match self {
            SpecFactor::Leaf(l) => l.first_leaf(),
            SpecFactor::Operation(l, _, _) => l.first_leaf(),
        }
    }

    /// The token index of the rightmost identifier or literal under this node.
    pub open spec fn last_leaf(&self) -> int
        decreases self,
    {
        match self {
            SpecFactor::Leaf(l) => l.last_leaf(),
            SpecFactor::Operation(_, _, r) => r.last_leaf(),
        }
    }
}

impl SpecTerm {
    /// The token index of the leftmost identifier or literal under this node.
    pub open spec fn first_leaf(&self) -> int
        decreases self,
    {
        match self {
            SpecTerm::Factor(f) => f.first_leaf(),
            SpecTerm::Operation(l, _, _) => l.first_leaf(),
        }
    }

    /// The token index of the rightmost identifier or literal under this node.
    pub open spec fn last_leaf(&self) -> int
        decreases self,
    {
        match self {
            SpecTerm::Factor(f) => f.last_leaf(),
            SpecTerm::Operation(_, _, r) => r.last_leaf(),
        }
    }
}

// === Well-formedness with respect to a token sequence of `ntok` tokens ===
impl SpecLeaf {
    pub open spec fn wf(&self, ntok: int) -> bool
        decreases self,
    {
        match self {
            SpecLeaf::Identifier(_, i) => 0 <= *i && *i + 1 <= ntok,
            SpecLeaf::FloatLiteral(_, i) => 0 <= *i && *i + 1 <= ntok,
            SpecLeaf::Term(t) => t.wf(ntok),
        }
    }
}

impl SpecTerm {
    pub open spec fn wf(&self, ntok: int) -> bool
        decreases self,
    {
        match self {
            SpecTerm::Factor(f) => f.wf(ntok),
            SpecTerm::Operation(l, _, r) => l.wf(ntok) && r.wf(ntok),
        }
    }
}

impl SpecFactor {
    pub open spec fn wf(&self, ntok: int) -> bool
        decreases self,
    {
        match self {
            SpecFactor::Leaf(l) => l.wf(ntok),
            SpecFactor::Operation(l, _, r) => l.wf(ntok) && r.wf(ntok),
        }
    }
}

impl SpecAssignment {
    pub open spec fn wf(&self, ntok: int) -> bool
        decreases self,
    {
        match self {
            SpecAssignment::Initialization(_, _, value, start) => match value {
                Some(v) => 0 <= *start && v.wf(ntok) && *start + 5 + v.pos().len <= ntok,
                None => 0 <= *start && *start + 4 <= ntok,
            },
            SpecAssignment::Reassignment(_, v) => v.wf(ntok) && v.pos().start >= 2,
        }
    }
}

impl SpecExpr {
    pub open spec fn wf(&self, ntok: int) -> bool
        decreases self,
    {
        match self {
            SpecExpr::Assignment(a) => a.wf(ntok),
            SpecExpr::Block(b) => b.wf(ntok),
            SpecExpr::Term(t) => t.wf(ntok),
        }
    }
}

impl SpecBlock {
    pub open spec fn wf(&self, ntok: int) -> bool
        decreases self,
    {
        if self.exprs.len() == 0 {
            0 <= self.start_index && self.start_index + 2 <= ntok
        } else {
            forall|k: int| 0 <= k < self.exprs.len() ==> (#[trigger] self.exprs[k]).wf(ntok)
        }
    }
}

// === The span of a well-formed node is a valid token range ===
pub proof fn lemma_leaf_pos_in_range(l: SpecLeaf, ntok: int)
    requires
        l.wf(ntok),
    ensures
        0 <= l.pos().start,
        1 <= l.pos().len,
        l.pos().start + l.pos().len <= ntok,
    decreases l,
{
    match l {
        SpecLeaf::Term(t) => lemma_term_pos_in_range(*t, ntok),
        _ => {},
    }
}

pub proof fn lemma_term_pos_in_range(t: SpecTerm, ntok: int)
    requires
        t.wf(ntok),
    ensures
        0 <= t.pos().start,
        1 <= t.pos().len,
        t.pos().start + t.pos().len <= ntok,
    decreases t,
{
    match t {
        SpecTerm::Factor(f) => lemma_factor_pos_in_range(f, ntok),
        SpecTerm::Operation(l, _, r) => {
            lemma_term_pos_in_range(*l, ntok);
            lemma_factor_pos_in_range(r, ntok);
        },
    }
}

pub proof fn lemma_factor_pos_in_range(f: SpecFactor, ntok: int)
    requires
        f.wf(ntok),
    ensures
        0 <= f.pos().start,
        1 <= f.pos().len,
        f.pos().start + f.pos().len <= ntok,
    decreases f,
{
    match f {
        SpecFactor::Leaf(l) => lemma_leaf_pos_in_range(l, ntok),
        SpecFactor::Operation(l, _, r) => {
            lemma_factor_pos_in_range(*l, ntok);
            lemma_leaf_pos_in_range(r, ntok);
        },
    }
}

pub proof fn lemma_assignment_pos_in_range(a: SpecAssignment, ntok: int)
    requires
        a.wf(ntok),
    ensures
        0 <= a.pos().start,
        1 <= a.pos().len,
        a.pos().start + a.pos().len <= ntok,
    decreases a,
{
    match a {
        SpecAssignment::Initialization(_, _, value, _) => match value {
            Some(v) => lemma_expr_pos_in_range(*v, ntok),
            None => {},
        },
        SpecAssignment::Reassignment(_, v) => lemma_expr_pos_in_range(*v, ntok),
    }
}

pub proof fn lemma_expr_pos_in_range(e: SpecExpr, ntok: int)
    requires
        e.wf(ntok),
    ensures
        0 <= e.pos().start,
        1 <= e.pos().len,
        e.pos().start + e.pos().len <= ntok,
    decreases e,
{
    match e {
        SpecExpr::Assignment(a) => lemma_assignment_pos_in_range(a, ntok),
        SpecExpr::Block(b) => lemma_block_pos_in_range(b, ntok),
        SpecExpr::Term(t) => lemma_term_pos_in_range(t, ntok),
    }
}

pub proof fn lemma_block_pos_in_range(b: SpecBlock, ntok: int)
    requires
        b.wf(ntok),
    ensures
        0 <= b.pos().start,
        1 <= b.pos().len,
        b.pos().start + b.pos().len <= ntok,
    decreases b,
{
    if b.exprs.len() > 0 {
        lemma_expr_pos_in_range(b.exprs[0], ntok);
        lemma_expr_pos_in_range(b.exprs[b.exprs.len() - 1], ntok);
    }
}

// === Well-formedness only gets easier with more tokens ===
pub proof fn lemma_leaf_wf_mono(l: SpecLeaf, n1: int, n2: int)
    requires
        l.wf(n1),
        n1 <= n2,
    ensures
        l.wf(n2),
    decreases l,
{
    match l {
        SpecLeaf::Term(t) => lemma_term_wf_mono(*t, n1, n2),
        _ => {},
    }
}

pub proof fn lemma_term_wf_mono(t: SpecTerm, n1: int, n2: int)
    requires
        t.wf(n1),
        n1 <= n2,
    ensures
        t.wf(n2),
    decreases t,
{
    match t {
        SpecTerm::Factor(f) => lemma_factor_wf_mono(f, n1, n2),
        SpecTerm::Operation(l, _, r) => {
            lemma_term_wf_mono(*l, n1, n2);
            lemma_factor_wf_mono(r, n1, n2);
        },
    }
}

pub proof fn lemma_factor_wf_mono(f: SpecFactor, n1: int, n2: int)
    requires
        f.wf(n1),
        n1 <= n2,
    ensures
        f.wf(n2),
    decreases f,
{
    match f {
        SpecFactor::Leaf(l) => lemma_leaf_wf_mono(l, n1, n2),
        SpecFactor::Operation(l, _, r) => {
            lemma_factor_wf_mono(*l, n1, n2);
            lemma_leaf_wf_mono(r, n1, n2);
        },
    }
}

pub proof fn lemma_assignment_wf_mono(a: SpecAssignment, n1: int, n2: int)
    requires
        a.wf(n1),
        n1 <= n2,
    ensures
        a.wf(n2),
    decreases a,
{
    match a {
        SpecAssignment::Initialization(_, _, value, _) => match value {
            Some(v) => lemma_expr_wf_mono(*v, n1, n2),
            None => {},
        },
        SpecAssignment::Reassignment(_, v) => lemma_expr_wf_mono(*v, n1, n2),
    }
}

pub proof fn lemma_expr_wf_mono(e: SpecExpr, n1: int, n2: int)
    requires
        e.wf(n1),
        n1 <= n2,
    ensures
        e.wf(n2),
    decreases e,
{
    match e {
        SpecExpr::Assignment(a) => lemma_assignment_wf_mono(a, n1, n2),
        SpecExpr::Block(b) => lemma_block_wf_mono(b, n1, n2),
        SpecExpr::Term(t) => lemma_term_wf_mono(t, n1, n2),
    }
}

pub proof fn lemma_block_wf_mono(b: SpecBlock, n1: int, n2: int)
    requires
        b.wf(n1),
        n1 <= n2,
    ensures
        b.wf(n2),
    decreases b,
{
    if b.exprs.len() > 0 {
        assert forall|k: int| 0 <= k < b.exprs.len() implies (#[trigger] b.exprs[k]).wf(n2) by {
            lemma_expr_wf_mono(b.exprs[k], n1, n2);
        }
    }
}

// === Token spans of tree nodes, executable ===
impl Leaf {
    pub fn pos(&self) -> (r: TokenSpan)
        requires
            self@.wf(usize::MAX as int),
        ensures
            r@ == self@.pos(),
        decreases self,
    {
        match self {
            Leaf::Identifier(_, i) => TokenSpan::new(*i, 1),
            Leaf::FloatLiteral(_, i) => TokenSpan::new(*i, 1),
            Leaf::Term(t) => t.pos(),
        }
    }
}

impl Term {
    pub fn pos(&self) -> (r: TokenSpan)
        requires
            self@.wf(usize::MAX as int),
        ensures
            r@ == self@.pos(),
        decreases self,
    {
        match self {
            Term::Factor(f) => f.pos(),
            Term::Operation(l, _, r) => {
                proof {
                    lemma_term_pos_in_range(l@, usize::MAX as int);
                    lemma_factor_pos_in_range(r@, usize::MAX as int);
                }
                let lp = l.pos();
                let rp = r.pos();
                lp.merge(rp)
            },
        }
    }
}

impl Factor {
    pub fn pos(&self) -> (r: TokenSpan)
        requires
            self@.wf(usize::MAX as int),
        ensures
            r@ == self@.pos(),
        decreases self,
    {
        match self {
            Factor::Leaf(l) => l.pos(),
            Factor::Operation(l, _, r) => {
                proof {
                    lemma_factor_pos_in_range(l@, usize::MAX as int);
                    lemma_leaf_pos_in_range(r@, usize::MAX as int);
                }
                let lp = l.pos();
                let rp = r.pos();
                lp.merge(rp)
            },
        }
    }
}

impl Assignment {
    pub fn pos(&self) -> (r: TokenSpan)
        requires
            self@.wf(usize::MAX as int),
        ensures
            r@ == self@.pos(),
        decreases self,
    {
        match self {
            Assignment::Initialization(_, _, value, start) => match value {
                Some(v) => {
                    proof {
                        lemma_expr_pos_in_range(v@, usize::MAX as int);
                    }
                    let vp = v.pos();
                    TokenSpan::new(*start, 5 + vp.len)
                },
                None => TokenSpan::new(*start, 4),
            },
            Assignment::Reassignment(_, v) => {
                proof {
                    lemma_expr_pos_in_range(v@, usize::MAX as int);
                }
                let vp = v.pos();
                TokenSpan::new(vp.start - 2, vp.len + 2)
            },
        }
    }
}

impl Expression {
    pub fn pos(&self) -> (r: TokenSpan)
        requires
            self@.wf(usize::MAX as int),
        ensures
            r@ == self@.pos(),
        decreases self,
    {
        match self {
            Expression::Assignment(a) => a.pos(),
            Expression::Block(b) => b.pos(),
            Expression::Term(t) => t.pos(),
        }
    }
}

impl Block {
    pub fn pos(&self) -> (r: TokenSpan)
        requires
            self@.wf(usize::MAX as int),
        ensures
            r@ == self@.pos(),
        decreases self,
    {
        let n: usize = self.expressions.len();
        if n == 0 {
            TokenSpan::new(self.start_index, 2)
        } else {
            proof {
                lemma_view_exprs(self.expressions@);
                assert(self@.exprs[0] == self.expressions@[0]@);
                assert(self@.exprs[n - 1] == self.expressions@[n - 1]@);
                lemma_expr_pos_in_range(self@.exprs[0], usize::MAX as int);
                lemma_expr_pos_in_range(self@.exprs[n - 1], usize::MAX as int);
            }
            let first = self.expressions[0].pos();
            let last = self.expressions[n - 1].pos();
            first.merge(last)
        }
    }
}

} // verus!
