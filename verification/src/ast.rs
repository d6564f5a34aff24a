//! The abstract syntax tree: what the parser builds and the interpreter walks.

use vstd::prelude::*;
use crate::token::{Token, TokenView};

verus! {

/// A node of the tree. Every node owns its children.
#[derive(Debug, PartialEq, Eq)]
pub enum AST {
    BINOP(BinOp),
    NUM(Num),
    UNARYOP(UnaryOp),
    COMPOUND(Compound),
    NOOP(NoOp),
    VAR(Var),
    ASSIGN(Assign),
}

/// An operator between two operands.
#[derive(Debug, PartialEq, Eq)]
pub struct BinOp {
    pub left: Box<AST>,
    pub op: Token,
    pub right: Box<AST>,
}

/// An integer literal.
#[derive(Debug, PartialEq, Eq)]
pub struct Num {
    pub token: Token,
}

/// An operator in front of one operand.
#[derive(Debug, PartialEq, Eq)]
pub struct UnaryOp {
    pub op: Token,
    pub expr: Box<AST>,
}

/// A block: statements in the order in which they run.
#[derive(Debug, PartialEq, Eq)]
pub struct Compound {
    pub children: Vec<AST>,
}

/// An assignment of the value of `right` to the variable `left`.
#[derive(Debug, PartialEq, Eq)]
pub struct Assign {
    pub left: Box<AST>,
    pub op: Token,
    pub right: Box<AST>,
}

/// A variable, named by its token.
#[derive(Debug, PartialEq, Eq)]
pub struct Var {
    pub token: Token,
}

/// The empty statement.
#[derive(Debug, PartialEq, Eq)]
pub struct NoOp {}

/// The mathematical content of a tree: the same shape, with text as
/// sequences of characters and blocks as sequences of nodes.
pub enum Node {
    BinOp { left: Box<Node>, op: TokenView, right: Box<Node> },
    Num { token: TokenView },
    UnaryOp { op: TokenView, expr: Box<Node> },
    Compound { children: Seq<Node> },
    NoOp,
    Var { token: TokenView },
    Assign { left: Box<Node>, op: TokenView, right: Box<Node> },
}

impl AST {
    /// The content of the tree rooted here.
    pub open spec fn node(&self) -> Node
        decreases self,
    {
        match self {
            AST::BINOP(b) => Node::BinOp {
                left: Box::new(b.left.node()),
                op: b.op@,
                right: Box::new(b.right.node()),
            },
            AST::NUM(n) => Node::Num { token: n.token@ },
            AST::UNARYOP(u) => Node::UnaryOp { op: u.op@, expr: Box::new(u.expr.node()) },
            AST::COMPOUND(c) => Node::Compound { children: nodes(c.children@) },
            AST::NOOP(_) => Node::NoOp,
            AST::VAR(v) => Node::Var { token: v.token@ },
            AST::ASSIGN(a) => Node::Assign {
                left: Box::new(a.left.node()),
                op: a.op@,
                right: Box::new(a.right.node()),
            },
        }
    }
}

/// The contents of a sequence of trees, in order.
pub open spec fn nodes(trees: Seq<AST>) -> Seq<Node>
    decreases trees,
{
    Seq::new(
        trees.len(),
        |i: int|
            if 0 <= i < trees.len() {
                trees[i].node()
            } else {
                Node::NoOp
            },
    )
}

impl View for AST {
    type V = Node;

    open spec fn view(&self) -> Node {
        self.node()
    }
}

impl BinOp {
    /// The node that applies `op` to `left` and `right`.
    pub fn new(left: AST, op: Token, right: AST) -> (node: BinOp)
        ensures
            *node.left == left,
            node.op == op,
            *node.right == right,
    {
        BinOp { left: Box::new(left), op, right: Box::new(right) }
    }
}

impl Num {
    /// The literal that `token` carries.
    pub fn new(token: Token) -> (node: Num)
        ensures
            node.token == token,
    {
        Num { token }
    }
}

impl UnaryOp {
    /// The node that applies `op` to `expr`.
    pub fn new(op: Token, expr: AST) -> (node: UnaryOp)
        ensures
            node.op == op,
            *node.expr == expr,
    {
        UnaryOp { op, expr: Box::new(expr) }
    }
}

impl Compound {
    /// A block without statements.
    pub fn new() -> (node: Compound)
        ensures
            node.children@ == Seq::<AST>::empty(),
    {
        Compound { children: Vec::new() }
    }
}

impl Assign {
    /// The assignment of `right` to `left`; `op` is the `:=` between them.
    pub fn new(left: AST, op: Token, right: AST) -> (node: Assign)
        ensures
            *node.left == left,
            node.op == op,
            *node.right == right,
    {
        Assign { left: Box::new(left), op, right: Box::new(right) }
    }
}

impl Var {
    /// The variable that `token` names.
    pub fn new(token: Token) -> (node: Var)
        ensures
            node.token == token,
    {
        Var { token }
    }
}

impl NoOp {
    /// The empty statement.
    pub fn new() -> (node: NoOp)
        ensures
            AST::NOOP(node)@ == Node::NoOp,
    {
        NoOp {  }
    }
}

/// Adding a tree at the end of a sequence adds its content at the end of the
/// sequence's contents.
pub proof fn lemma_nodes_push(trees: Seq<AST>, tree: AST)
    ensures
        nodes(trees.push(tree)) == nodes(trees).push(tree@),
{
    assert(nodes(trees.push(tree)) =~= nodes(trees).push(tree@));
}

} // verus!
