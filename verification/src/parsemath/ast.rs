//! The abstract syntax tree the parser builds, and the exact integer
//! operations evaluation of the bitwise nodes comes down to.
//!
//! A `Number` leaf carries the literal's text as the tokenizer collected it;
//! every other node owns its children outright, so a tree is closed: nothing
//! is shared, nothing is missing. Reducing a tree to a machine number is
//! numeric work on floating-point values and lives with the caller; the
//! bitwise steps of that reduction are exact and stand here, verified.
use vstd::prelude::*;

verus! {

/// A node of the abstract syntax tree: a numeric literal, a unary negation,
/// or one of the seven binary operators applied to two subtrees.
#[derive(Debug, PartialEq)]
pub enum Node {
    And(Box<Node>, Box<Node>),
    Or(Box<Node>, Box<Node>),
    Add(Box<Node>, Box<Node>),
    Subtract(Box<Node>, Box<Node>),
    Multiply(Box<Node>, Box<Node>),
    Divide(Box<Node>, Box<Node>),
    Caret(Box<Node>, Box<Node>),
    Negative(Box<Node>),
    Number(Vec<char>),
}

/// The mathematical shape of a tree: as `Node`, with each literal abstracted
/// to its sequence of characters.
pub enum NodeView {
    And(Box<NodeView>, Box<NodeView>),
    Or(Box<NodeView>, Box<NodeView>),
    Add(Box<NodeView>, Box<NodeView>),
    Subtract(Box<NodeView>, Box<NodeView>),
    Multiply(Box<NodeView>, Box<NodeView>),
    Divide(Box<NodeView>, Box<NodeView>),
    Caret(Box<NodeView>, Box<NodeView>),
    Negative(Box<NodeView>),
    Number(Seq<char>),
}

impl View for Node {
    type V = NodeView;

    open spec fn view(&self) -> NodeView
        decreases self,
    {
        match self {
            Node::And(a, b) => NodeView::And(Box::new((**a)@), Box::new((**b)@)),
            Node::Or(a, b) => NodeView::Or(Box::new((**a)@), Box::new((**b)@)),
            Node::Add(a, b) => NodeView::Add(Box::new((**a)@), Box::new((**b)@)),
            Node::Subtract(a, b) => NodeView::Subtract(Box::new((**a)@), Box::new((**b)@)),
            Node::Multiply(a, b) => NodeView::Multiply(Box::new((**a)@), Box::new((**b)@)),
            Node::Divide(a, b) => NodeView::Divide(Box::new((**a)@), Box::new((**b)@)),
            Node::Caret(a, b) => NodeView::Caret(Box::new((**a)@), Box::new((**b)@)),
            Node::Negative(a) => NodeView::Negative(Box::new((**a)@)),
            Node::Number(lit) => NodeView::Number(lit@),
        }
    }
}

/// The bitwise conjunction an `And` node is evaluated with, once both
/// operands are known to be exact integers in range.
pub fn bitwise_and(a: i64, b: i64) -> (r: i64)
    ensures
        r == a & b,
{
    a & b
}

/// The bitwise disjunction an `Or` node is evaluated with, once both
/// operands are known to be exact integers in range.
pub fn bitwise_or(a: i64, b: i64) -> (r: i64)
    ensures
        r == a | b,
{
    a | b
}

} // verus!
