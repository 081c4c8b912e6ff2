//! Lexical tokens of the expression language and their binding strength.
//!
//! A numeric literal is carried as its text: the digits and the optional
//! decimal point that the tokenizer collected, in order. Everything the
//! grammar decides is decided on that plain representation; turning the text
//! into a machine number is left to callers of the library.
use vstd::prelude::*;

verus! {

/// One lexical unit: a numeric literal, one of the eight single-character
/// operators and parentheses, or the end-of-input marker.
#[derive(Debug, Clone, PartialEq)]
pub enum Token {
    And,
    Or,
    Add,
    Subtract,
    Multiply,
    Divide,
    Caret,
    LeftParen,
    RightParen,
    Num(Vec<char>),
    EOF,
}

/// The mathematical shape of a token: as `Token`, with the literal text
/// abstracted to a sequence of characters.
pub enum TokenView {
    And,
    Or,
    Add,
    Subtract,
    Multiply,
    Divide,
    Caret,
    LeftParen,
    RightParen,
    Num(Seq<char>),
    EOF,
}

impl View for Token {
    type V = TokenView;

    open spec fn view(&self) -> TokenView {
        match self {
            Token::And => TokenView::And,
            Token::Or => TokenView::Or,
            Token::Add => TokenView::Add,
            Token::Subtract => TokenView::Subtract,
            Token::Multiply => TokenView::Multiply,
            Token::Divide => TokenView::Divide,
            Token::Caret => TokenView::Caret,
            Token::LeftParen => TokenView::LeftParen,
            Token::RightParen => TokenView::RightParen,
            Token::Num(lit) => TokenView::Num(lit@),
            Token::EOF => TokenView::EOF,
        }
    }
}

/// How strongly an operator binds; the parser stops extending the current
/// expression when the next token binds no more strongly than the level it
/// was asked to respect.
#[derive(Debug, Clone, Copy, PartialEq, Eq, Structural)]
pub enum OperPrec {
    DefaultZero,
    AndOr,
    AddSub,
    MulDiv,
    Power,
    Negative,
}

/// The rank of a precedence level in the order
/// `DefaultZero < AndOr < AddSub < MulDiv < Power < Negative`: unary
/// negation binds tighter than any binary operator, the exponent operator
/// included, so `-4^0.5` is `(-4)^0.5`, never `-(4^0.5)`.
pub open spec fn spec_level(p: OperPrec) -> int {
    match p {
        OperPrec::DefaultZero => 0,
        OperPrec::AndOr => 1,
        OperPrec::AddSub => 2,
        OperPrec::MulDiv => 3,
        OperPrec::Power => 4,
        OperPrec::Negative => 5,
    }
}

/// The precedence level of a token: each binary operator has its own level,
/// and every other token has the lowest one.
pub open spec fn spec_oper_prec(t: TokenView) -> OperPrec {
    match t {
        TokenView::And | TokenView::Or => OperPrec::AndOr,
        TokenView::Add | TokenView::Subtract => OperPrec::AddSub,
        TokenView::Multiply | TokenView::Divide => OperPrec::MulDiv,
        TokenView::Caret => OperPrec::Power,
        _ => OperPrec::DefaultZero,
    }
}

/// The rank of a token's precedence level.
pub open spec fn prec_of(t: TokenView) -> int {
    spec_level(spec_oper_prec(t))
}

impl Token {
    /// The precedence level this token binds at.
    pub fn get_oper_prec(&self) -> (p: OperPrec)
        ensures
            p == spec_oper_prec(self@),
    {
        match self {
            Token::And | Token::Or => OperPrec::AndOr,
            Token::Add | Token::Subtract => OperPrec::AddSub,
            Token::Multiply | Token::Divide => OperPrec::MulDiv,
            Token::Caret => OperPrec::Power,
            _ => OperPrec::DefaultZero,
        }
    }
}

impl OperPrec {
    /// The numeric rank of this level, for comparing binding strength.
    pub fn level(&self) -> (n: u8)
        ensures
            n as int == spec_level(*self),
    {
        match self {
            OperPrec::DefaultZero => 0,
            OperPrec::AndOr => 1,
            OperPrec::AddSub => 2,
            OperPrec::MulDiv => 3,
            OperPrec::Power => 4,
            OperPrec::Negative => 5,
        }
    }
}

} // verus!
