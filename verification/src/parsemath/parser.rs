//! Reads tokens from the tokenizer and builds an abstract syntax tree by
//! precedence climbing.
//!
//! The grammar, with its two quirks, is stated by the spec functions in this
//! module and proved of the executable parser: adjacency is multiplication
//! (`3(4)`, `(1+2)(3/4)`), except that a `-` right after a closing
//! parenthesis is subtraction; and a run of same-precedence operators binds
//! left to right, the exponent operator included. A successful parse
//! consumes the whole input: a token left over after the top-level climb —
//! a stray closing parenthesis among them — is a parse error.
use vstd::prelude::*;
use vstd::string::StringExecFns;

use crate::parsemath::ast::{Node, NodeView};
use crate::parsemath::token::{prec_of, spec_level, spec_oper_prec, OperPrec, Token, TokenView};
use crate::parsemath::tokenizer::{lemma_token_at_advances, spec_token_at, Tokenizer};

verus! {

/// What the parser knows between two steps: how much of the input the
/// tokenizer has consumed, and the one token of lookahead.
pub struct PState {
    pub pos: int,
    pub cur: TokenView,
}

/// How much work can still be ahead of a parse state: the characters not yet
/// consumed, plus one for a lookahead token that is not yet the end marker.
/// Every step of the parser takes it down; every recursion is measured by it.
pub open spec fn weight(s: Seq<char>, st: PState) -> int {
    (if 0 <= st.pos <= s.len() {
        s.len() - st.pos
    } else {
        0int
    }) + (if st.cur is EOF {
        0int
    } else {
        1int
    })
}

/// The mathematical shape of a parse error: as `ParseError`, with the
/// message abstracted to its sequence of characters.
pub enum ParseErrorView {
    UnableToParse(Seq<char>),
    InvalidOperator(Seq<char>),
}

/// The message a parse error carries.
pub open spec fn err_msg(e: ParseErrorView) -> Seq<char> {
    match e {
        ParseErrorView::UnableToParse(m) => m,
        ParseErrorView::InvalidOperator(m) => m,
    }
}

/// The name a token is reported under in error messages.
pub open spec fn spec_token_name(t: TokenView) -> Seq<char> {
    match t {
        TokenView::And => "And"@,
        TokenView::Or => "Or"@,
        TokenView::Add => "Add"@,
        TokenView::Subtract => "Subtract"@,
        TokenView::Multiply => "Multiply"@,
        TokenView::Divide => "Divide"@,
        TokenView::Caret => "Caret"@,
        TokenView::LeftParen => "LeftParen"@,
        TokenView::RightParen => "RightParen"@,
        TokenView::Num(_) => "Num"@,
        TokenView::EOF => "EOF"@,
    }
}

/// The message reported when the token found is not the one the grammar
/// demands: the missing closing parenthesis, or a leftover token where the
/// input should have ended.
pub open spec fn token_mismatch_msg(expected: TokenView, got: TokenView) -> Seq<char> {
    "Expected "@ + spec_token_name(expected) + ", got "@ + spec_token_name(got)
}

/// The message reported when the parser asks an operator of a token that is
/// none.
pub open spec fn bad_operator_msg(got: TokenView) -> Seq<char> {
    "Please enter valid operator "@ + spec_token_name(got)
}

/// Pulling the next token: on success the lookahead and the position move
/// forward; where no token can be made, the state does not change and the
/// lexical failure is reported as an error.
pub open spec fn p_next(s: Seq<char>, st: PState) -> (Result<(), ParseErrorView>, PState) {
    match spec_token_at(s, st.pos) {
        None => (Err(ParseErrorView::InvalidOperator("Invalid character"@)), st),
        Some(tp) => (Ok(()), PState { pos: tp.1, cur: tp.0 }),
    }
}

/// `st` where it weighs strictly less than `base`, else the exhausted state.
/// Pulling a token from a state whose lookahead is not the end marker does
/// weigh strictly less, so the fallback never describes a real step; it is
/// there so the recursion below is measured by `weight` alone.
pub open spec fn clamp_lt(s: Seq<char>, base: PState, st: PState) -> PState {
    if weight(s, st) < weight(s, base) {
        st
    } else {
        PState { pos: s.len() as int, cur: TokenView::EOF }
    }
}

/// `st` where it weighs no more than `base`, else `base` itself. No parser
/// step gains weight, so the fallback never describes a real step either.
pub open spec fn clamp_le(s: Seq<char>, base: PState, st: PState) -> PState {
    if weight(s, st) <= weight(s, base) {
        st
    } else {
        base
    }
}

/// The primary-expression step. On the lookahead: a `-` consumes itself and
/// parses at the `Negative` level, wrapping the result; a literal becomes a
/// `Number`, or the left factor of a `Multiply` when an opening parenthesis
/// follows it; an opening parenthesis parses a full expression, demands its
/// closing mate, and then — unless a `-` follows — tries one more primary to
/// multiply with, forgetting that attempt if it fails; anything else is a
/// parse error. Returns the result and the state left behind.
pub open spec fn s_parse_number(s: Seq<char>, st: PState) -> (Result<
    NodeView,
    ParseErrorView,
>, PState)
    decreases weight(s, st), 1int,
{
    match st.cur {
        TokenView::Subtract => {
            let (r1, st1r) = p_next(s, st);
            if r1 is Err {
                (Err(r1->Err_0), st1r)
            } else {
                let st1 = clamp_lt(s, st, st1r);
                let (r2, st2) = s_generate_ast(s, st1, spec_level(OperPrec::Negative));
                match r2 {
                    Err(e) => (Err(e), st2),
                    Ok(n) => (Ok(NodeView::Negative(Box::new(n))), st2),
                }
            }
        },
        TokenView::Num(lit) => {
            let (r1, st1r) = p_next(s, st);
            if r1 is Err {
                (Err(r1->Err_0), st1r)
            } else {
                let st1 = clamp_lt(s, st, st1r);
                if st1.cur is LeftParen {
                    let (r2, st2) = s_parse_number(s, st1);
                    match r2 {
                        Err(e) => (Err(e), st2),
                        Ok(rhs) => (
                            Ok(
                                NodeView::Multiply(
                                    Box::new(NodeView::Number(lit)),
                                    Box::new(rhs),
                                ),
                            ),
                            st2,
                        ),
                    }
                } else {
                    (Ok(NodeView::Number(lit)), st1)
                }
            }
        },
        TokenView::LeftParen => {
            let (r1, st1r) = p_next(s, st);
            if r1 is Err {
                (Err(r1->Err_0), st1r)
            } else {
                let st1 = clamp_lt(s, st, st1r);
                let (r2, st2r) = s_generate_ast(s, st1, spec_level(OperPrec::DefaultZero));
                match r2 {
                    Err(e) => (Err(e), st2r),
                    Ok(expr) => {
                        let st2 = clamp_le(s, st1, st2r);
                        let (r3, st3r) = s_check_paren(s, st2, TokenView::RightParen);
                        if r3 is Err {
                            (Err(r3->Err_0), st3r)
                        } else {
                            let st3 = clamp_lt(s, st2, st3r);
                            if st3.cur is Subtract {
                                (Ok(expr), st3)
                            } else {
                                let (r4, st4) = s_parse_number(s, st3);
                                match r4 {
                                    Err(_) => (Ok(expr), st4),
                                    Ok(rhs) => (
                                        Ok(
                                            NodeView::Multiply(Box::new(expr), Box::new(rhs)),
                                        ),
                                        st4,
                                    ),
                                }
                            }
                        }
                    },
                }
            }
        },
        _ => (Err(ParseErrorView::UnableToParse("Unable to parse"@)), st),
    }
}

/// The parenthesis check: when the lookahead is the expected token it is
/// consumed, otherwise an error names the expected and the found token and
/// nothing moves.
pub open spec fn s_check_paren(s: Seq<char>, st: PState, expected: TokenView) -> (Result<
    (),
    ParseErrorView,
>, PState) {
    if st.cur == expected {
        p_next(s, st)
    } else {
        (Err(ParseErrorView::InvalidOperator(token_mismatch_msg(expected, st.cur))), st)
    }
}

/// The operator step: consumes the operator in the lookahead, parses the
/// right operand at that operator's own level, and joins it with `left`
/// under the matching node. A lookahead that is no operator is an error and
/// nothing moves; the parser only takes this step on operators.
pub open spec fn s_convert(s: Seq<char>, st: PState, left: NodeView) -> (Result<
    NodeView,
    ParseErrorView,
>, PState)
    decreases weight(s, st), 0int,
{
    match st.cur {
        TokenView::Add | TokenView::Subtract | TokenView::Multiply | TokenView::Divide
            | TokenView::Caret | TokenView::And | TokenView::Or => {
            let op = st.cur;
            let (r1, st1r) = p_next(s, st);
            if r1 is Err {
                (Err(r1->Err_0), st1r)
            } else {
                let st1 = clamp_lt(s, st, st1r);
                let (r2, st2) = s_generate_ast(s, st1, spec_level(spec_oper_prec(op)));
                match r2 {
                    Err(e) => (Err(e), st2),
                    Ok(right) => (Ok(join_nodes(op, left, right)), st2),
                }
            }
        },
        _ => (Err(ParseErrorView::InvalidOperator(bad_operator_msg(st.cur))), st),
    }
}

/// The node an operator token joins its two operands under.
pub open spec fn join_nodes(op: TokenView, left: NodeView, right: NodeView) -> NodeView {
    match op {
        TokenView::Add => NodeView::Add(Box::new(left), Box::new(right)),
        TokenView::Subtract => NodeView::Subtract(Box::new(left), Box::new(right)),
        TokenView::Multiply => NodeView::Multiply(Box::new(left), Box::new(right)),
        TokenView::Divide => NodeView::Divide(Box::new(left), Box::new(right)),
        TokenView::Caret => NodeView::Caret(Box::new(left), Box::new(right)),
        TokenView::And => NodeView::And(Box::new(left), Box::new(right)),
        TokenView::Or => NodeView::Or(Box::new(left), Box::new(right)),
        _ => NodeView::Number(Seq::empty()),
    }
}

/// The climbing loop: as long as the lookahead binds more strongly than
/// `min` and is not the end marker, take one operator step and fold its
/// result into the left operand.
pub open spec fn s_bin_loop(s: Seq<char>, st: PState, left: NodeView, min: int) -> (Result<
    NodeView,
    ParseErrorView,
>, PState)
    decreases weight(s, st), 2int,
{
    if min < prec_of(st.cur) && !(st.cur is EOF) {
        let (r2, st2) = s_convert(s, st, left);
        match r2 {
            Err(e) => (Err(e), st2),
            Ok(newleft) => s_bin_loop(s, clamp_lt(s, st, st2), newleft, min),
        }
    } else {
        (Ok(left), st)
    }
}

/// One full expression at level `min`: a primary, then the climbing loop.
pub open spec fn s_generate_ast(s: Seq<char>, st: PState, min: int) -> (Result<
    NodeView,
    ParseErrorView,
>, PState)
    decreases weight(s, st), 3int,
{
    let (r1, st1) = s_parse_number(s, st);
    match r1 {
        Err(e) => (Err(e), st1),
        Ok(left) => s_bin_loop(s, clamp_le(s, st, st1), left, min),
    }
}

/// Construction of a parser: the first token is pulled at once; an input
/// whose very first token cannot be made is rejected here.
pub open spec fn s_new(s: Seq<char>) -> Result<PState, ParseErrorView> {
    match spec_token_at(s, 0) {
        None => Err(ParseErrorView::InvalidOperator("Invalid character"@)),
        Some(tp) => Ok(PState { pos: tp.1, cur: tp.0 }),
    }
}

/// The whole parse from a state: one full expression at the lowest level,
/// and then the demand that nothing but the end-of-input marker is left — a
/// leftover token, a stray closing parenthesis among them, is an error, so
/// a successful parse consumes the entire input.
pub open spec fn s_parse_full(s: Seq<char>, st: PState) -> (Result<NodeView, ParseErrorView>, PState) {
    let (r, st1) = s_generate_ast(s, st, spec_level(OperPrec::DefaultZero));
    match r {
        Err(e) => (Err(e), st1),
        Ok(n) => if st1.cur is EOF {
            (Ok(n), st1)
        } else {
            (Err(ParseErrorView::InvalidOperator(token_mismatch_msg(TokenView::EOF, st1.cur))), st1)
        },
    }
}

/// What parsing a whole input text returns: construction, then the whole
/// parse down to the end of input. This is the contract `Parser::new`
/// followed by `Parser::parse` fulfils.
pub open spec fn spec_parse(s: Seq<char>) -> Result<NodeView, ParseErrorView> {
    match s_new(s) {
        Err(e) => Err(e),
        Ok(st) => s_parse_full(s, st).0,
    }
}

/// From `pos`, the input tokenizes to `m` closing parentheses and then the
/// end of input.
pub open spec fn closes_then_end(s: Seq<char>, pos: int, m: nat) -> bool
    decreases m,
{
    if m == 0 {
        spec_token_at(s, pos) matches Some(tp) && tp.0 is EOF
    } else {
        spec_token_at(s, pos) matches Some(tp) && tp.0 is RightParen && closes_then_end(
            s,
            tp.1,
            (m - 1) as nat,
        )
    }
}

/// From the state `st`, the tokens are `k` opening parentheses, the literal
/// `lit`, and then `k + m` closing parentheses and the end of input: a
/// number wrapped in `k` parenthesis pairs, inside `m` outer pairs whose
/// openers are already consumed.
pub open spec fn wrapped_number_from(s: Seq<char>, st: PState, k: nat, m: nat, lit: Seq<char>) -> bool
    decreases k,
{
    if k == 0 {
        st.cur == TokenView::Num(lit) && closes_then_end(s, st.pos, m)
    } else {
        &&& st.cur is LeftParen
        &&& spec_token_at(s, st.pos) matches Some(tp) && wrapped_number_from(
            s,
            PState { pos: tp.1, cur: tp.0 },
            (k - 1) as nat,
            m + 1,
            lit,
        )
    }
}

/// A number in any nest of parentheses is parsed to itself: from a state
/// whose tokens are `k` opening parentheses, the literal `lit`, `k + m`
/// closing parentheses and the end of input, one full expression at the
/// lowest level returns exactly the `Number` node of `lit`, stopping right
/// after the group's own closing parentheses.
pub proof fn lemma_ga_wrapped_number(s: Seq<char>, st: PState, k: nat, m: nat, lit: Seq<char>)
    requires
        0 <= st.pos <= s.len(),
        wrapped_number_from(s, st, k, m, lit),
    ensures
        ({
            let (r, st_out) = s_generate_ast(s, st, 0);
            &&& r == Ok::<NodeView, ParseErrorView>(NodeView::Number(lit))
            &&& 0 <= st_out.pos <= s.len()
            &&& weight(s, st_out) < weight(s, st)
            &&& (m == 0 ==> st_out.cur is EOF)
            &&& (m > 0 ==> st_out.cur is RightParen && closes_then_end(
                s,
                st_out.pos,
                (m - 1) as nat,
            ))
        }),
    decreases k,
{
    if k == 0 {
        // The literal is the lookahead; pulling once lands on the first
        // closing parenthesis, or on the end of input when none remain.
        lemma_token_at_advances(s, st.pos);
        let st1 = p_next(s, st).1;
        assert(clamp_lt(s, st, st1) == st1);
        assert(s_parse_number(s, st) == (Ok::<NodeView, ParseErrorView>(NodeView::Number(lit)), st1));
        assert(clamp_le(s, st, st1) == st1);
        assert(prec_of(st1.cur) == 0);
        assert(s_bin_loop(s, st1, NodeView::Number(lit), 0) == (Ok::<NodeView, ParseErrorView>(
            NodeView::Number(lit),
        ), st1));
    } else {
        // Consume the opening parenthesis, parse the inner wrap by the
        // induction hypothesis, consume the closing mate, and see the
        // trailing attempt at another primary fail without moving.
        lemma_token_at_advances(s, st.pos);
        let st1 = p_next(s, st).1;
        assert(clamp_lt(s, st, st1) == st1);
        lemma_ga_wrapped_number(s, st1, (k - 1) as nat, m + 1, lit);
        let (r2, st2) = s_generate_ast(s, st1, 0);
        assert(clamp_le(s, st1, st2) == st2);
        assert(st2.cur == TokenView::RightParen);
        lemma_token_at_advances(s, st2.pos);
        let st3 = p_next(s, st2).1;
        assert(s_check_paren(s, st2, TokenView::RightParen) == (Ok::<(), ParseErrorView>(()), st3));
        assert(clamp_lt(s, st2, st3) == st3);
        if m == 0 {
            assert(st3.cur is EOF);
        } else {
            assert(st3.cur is RightParen);
        }
        assert(s_parse_number(s, st3) == (Err::<NodeView, ParseErrorView>(
            ParseErrorView::UnableToParse("Unable to parse"@),
        ), st3));
        assert(s_parse_number(s, st) == (Ok::<NodeView, ParseErrorView>(NodeView::Number(lit)), st3));
        assert(clamp_le(s, st, st3) == st3);
        assert(prec_of(st3.cur) == 0);
        assert(s_bin_loop(s, st3, NodeView::Number(lit), 0) == (Ok::<NodeView, ParseErrorView>(
            NodeView::Number(lit),
        ), st3));
    }
}

/// A number wrapped in any number of parenthesis pairs, with nothing else
/// in the input, is the identity of parsing: the whole input parses to
/// exactly the `Number` node of the literal.
pub proof fn lemma_parse_wrapped_literal(s: Seq<char>, k: nat, lit: Seq<char>)
    requires
        spec_token_at(s, 0) matches Some(tp) && wrapped_number_from(
            s,
            PState { pos: tp.1, cur: tp.0 },
            k,
            0,
            lit,
        ),
    ensures
        spec_parse(s) == Ok::<NodeView, ParseErrorView>(NodeView::Number(lit)),
{
    lemma_token_at_advances(s, 0);
    let tp = spec_token_at(s, 0)->Some_0;
    let st0 = PState { pos: tp.1, cur: tp.0 };
    assert(s_new(s) == Ok::<PState, ParseErrorView>(st0));
    lemma_ga_wrapped_number(s, st0, k, 0, lit);
}

/// An input whose very first token cannot be made — an unrecognized
/// character, or a second decimal point inside the first literal — is
/// rejected at construction, before any tree is built.
pub proof fn lemma_lexical_failure_rejected(s: Seq<char>)
    requires
        spec_token_at(s, 0) is None,
    ensures
        spec_parse(s) == Err::<NodeView, ParseErrorView>(
            ParseErrorView::InvalidOperator("Invalid character"@),
        ),
{
}

/// An input whose first token can open no expression — an operator, a
/// closing parenthesis, or already the end of input — is rejected by the
/// primary-expression step, and parsing returns an error, never a partial
/// tree.
pub proof fn lemma_bad_opening_token_rejected(s: Seq<char>)
    requires
        spec_token_at(s, 0) matches Some(tp) && !(tp.0 is Num) && !(tp.0 is Subtract) && !(tp.0
            is LeftParen),
    ensures
        spec_parse(s) == Err::<NodeView, ParseErrorView>(
            ParseErrorView::UnableToParse("Unable to parse"@),
        ),
{
    let tp = spec_token_at(s, 0)->Some_0;
    let st0 = PState { pos: tp.1, cur: tp.0 };
    assert(s_new(s) == Ok::<PState, ParseErrorView>(st0));
    assert(s_parse_number(s, st0) == (Err::<NodeView, ParseErrorView>(
        ParseErrorView::UnableToParse("Unable to parse"@),
    ), st0));
}

/// Unary negation binds tighter than any binary operator, the exponent
/// operator included: an input whose tokens are a minus, a literal, a
/// caret, a literal and the end of input — `-a^b` for any two literals —
/// parses to the caret applied to the negated first literal, `(-a)^b`,
/// never to the negation of the caret. The minus operand is parsed at the
/// `Negative` level, above `Power`, so the climbing loop cannot absorb the
/// caret into it.
pub proof fn lemma_negation_binds_tighter_than_caret(
    s: Seq<char>,
    a: Seq<char>,
    b: Seq<char>,
    p1: int,
    p2: int,
    p3: int,
    p4: int,
)
    requires
        spec_token_at(s, 0) == Some::<(TokenView, int)>((TokenView::Subtract, p1)),
        spec_token_at(s, p1) == Some::<(TokenView, int)>((TokenView::Num(a), p2)),
        spec_token_at(s, p2) == Some::<(TokenView, int)>((TokenView::Caret, p3)),
        spec_token_at(s, p3) == Some::<(TokenView, int)>((TokenView::Num(b), p4)),
        spec_token_at(s, p4) matches Some(tp) && tp.0 is EOF,
    ensures
        spec_parse(s) == Ok::<NodeView, ParseErrorView>(
            NodeView::Caret(
                Box::new(NodeView::Negative(Box::new(NodeView::Number(a)))),
                Box::new(NodeView::Number(b)),
            ),
        ),
{
    lemma_token_at_advances(s, 0);
    lemma_token_at_advances(s, p1);
    lemma_token_at_advances(s, p2);
    lemma_token_at_advances(s, p3);
    lemma_token_at_advances(s, p4);
    let st0 = PState { pos: p1, cur: TokenView::Subtract };
    assert(s_new(s) == Ok::<PState, ParseErrorView>(st0));
    let st1 = PState { pos: p2, cur: TokenView::Num(a) };
    let st2 = PState { pos: p3, cur: TokenView::Caret };
    let st3 = PState { pos: p4, cur: TokenView::Num(b) };
    let st4 = p_next(s, st3).1;
    let na = NodeView::Number(a);
    let nb = NodeView::Number(b);
    // the minus operand stops before the caret: Power does not exceed Negative
    assert(clamp_lt(s, st0, st1) == st1);
    assert(clamp_lt(s, st1, st2) == st2);
    assert(s_parse_number(s, st1) == (Ok::<NodeView, ParseErrorView>(na), st2));
    assert(clamp_le(s, st1, st2) == st2);
    assert(prec_of(st2.cur) == spec_level(OperPrec::Power));
    assert(s_bin_loop(s, st2, na, spec_level(OperPrec::Negative)) == (Ok::<
        NodeView,
        ParseErrorView,
    >(na), st2));
    assert(s_generate_ast(s, st1, spec_level(OperPrec::Negative)) == (Ok::<
        NodeView,
        ParseErrorView,
    >(na), st2));
    let nneg = NodeView::Negative(Box::new(na));
    assert(s_parse_number(s, st0) == (Ok::<NodeView, ParseErrorView>(nneg), st2));
    assert(clamp_le(s, st0, st2) == st2);
    // the caret then takes the negated literal as its left operand
    assert(clamp_lt(s, st2, st3) == st3);
    assert(st4.cur is EOF);
    assert(clamp_lt(s, st3, st4) == st4);
    assert(s_parse_number(s, st3) == (Ok::<NodeView, ParseErrorView>(nb), st4));
    assert(clamp_le(s, st3, st4) == st4);
    assert(s_bin_loop(s, st4, nb, spec_level(OperPrec::Power)) == (Ok::<
        NodeView,
        ParseErrorView,
    >(nb), st4));
    assert(s_generate_ast(s, st3, spec_level(OperPrec::Power)) == (Ok::<
        NodeView,
        ParseErrorView,
    >(nb), st4));
    let nres = NodeView::Caret(Box::new(nneg), Box::new(nb));
    assert(s_convert(s, st2, nneg) == (Ok::<NodeView, ParseErrorView>(nres), st4));
    assert(clamp_lt(s, st2, st4) == st4);
    assert(s_bin_loop(s, st4, nres, 0) == (Ok::<NodeView, ParseErrorView>(nres), st4));
    assert(s_bin_loop(s, st2, nneg, 0) == (Ok::<NodeView, ParseErrorView>(nres), st4));
    assert(s_generate_ast(s, st0, 0) == (Ok::<NodeView, ParseErrorView>(nres), st4));
}

/// The exponent operator binds left to right, like every run of operators
/// of one precedence level: an input whose tokens are a literal, a caret, a
/// literal, a caret, a literal and the end of input parses to the caret of
/// the first caret — `a^b^c` is `(a^b)^c`, not `a^(b^c)` — because the
/// climbing loop folds a same-precedence operator in rather than recursing
/// into it.
pub proof fn lemma_caret_left_associative(
    s: Seq<char>,
    a: Seq<char>,
    b: Seq<char>,
    c: Seq<char>,
    p1: int,
    p2: int,
    p3: int,
    p4: int,
    p5: int,
)
    requires
        spec_token_at(s, 0) == Some::<(TokenView, int)>((TokenView::Num(a), p1)),
        spec_token_at(s, p1) == Some::<(TokenView, int)>((TokenView::Caret, p2)),
        spec_token_at(s, p2) == Some::<(TokenView, int)>((TokenView::Num(b), p3)),
        spec_token_at(s, p3) == Some::<(TokenView, int)>((TokenView::Caret, p4)),
        spec_token_at(s, p4) == Some::<(TokenView, int)>((TokenView::Num(c), p5)),
        spec_token_at(s, p5) matches Some(tp) && tp.0 is EOF,
    ensures
        spec_parse(s) == Ok::<NodeView, ParseErrorView>(
            NodeView::Caret(
                Box::new(
                    NodeView::Caret(
                        Box::new(NodeView::Number(a)),
                        Box::new(NodeView::Number(b)),
                    ),
                ),
                Box::new(NodeView::Number(c)),
            ),
        ),
{
    lemma_token_at_advances(s, 0);
    lemma_token_at_advances(s, p1);
    lemma_token_at_advances(s, p2);
    lemma_token_at_advances(s, p3);
    lemma_token_at_advances(s, p4);
    lemma_token_at_advances(s, p5);
    let st0 = PState { pos: p1, cur: TokenView::Num(a) };
    assert(s_new(s) == Ok::<PState, ParseErrorView>(st0));
    let st1 = PState { pos: p2, cur: TokenView::Caret };
    let st2 = PState { pos: p3, cur: TokenView::Num(b) };
    let st3 = PState { pos: p4, cur: TokenView::Caret };
    let st4 = PState { pos: p5, cur: TokenView::Num(c) };
    let st5 = p_next(s, st4).1;
    let na = NodeView::Number(a);
    let nb = NodeView::Number(b);
    let nc = NodeView::Number(c);
    // the first literal
    assert(clamp_lt(s, st0, st1) == st1);
    assert(s_parse_number(s, st0) == (Ok::<NodeView, ParseErrorView>(na), st1));
    assert(clamp_le(s, st0, st1) == st1);
    // the first caret folds the second literal in at the caret's own level
    assert(clamp_lt(s, st1, st2) == st2);
    assert(clamp_lt(s, st2, st3) == st3);
    assert(s_parse_number(s, st2) == (Ok::<NodeView, ParseErrorView>(nb), st3));
    assert(clamp_le(s, st2, st3) == st3);
    assert(s_bin_loop(s, st3, nb, spec_level(OperPrec::Power)) == (Ok::<
        NodeView,
        ParseErrorView,
    >(nb), st3));
    assert(s_generate_ast(s, st2, spec_level(OperPrec::Power)) == (Ok::<
        NodeView,
        ParseErrorView,
    >(nb), st3));
    let nab = NodeView::Caret(Box::new(na), Box::new(nb));
    assert(s_convert(s, st1, na) == (Ok::<NodeView, ParseErrorView>(nab), st3));
    assert(clamp_lt(s, st1, st3) == st3);
    // the second caret folds the third literal into the combined left operand
    assert(clamp_lt(s, st3, st4) == st4);
    assert(st5.cur is EOF);
    assert(clamp_lt(s, st4, st5) == st5);
    assert(s_parse_number(s, st4) == (Ok::<NodeView, ParseErrorView>(nc), st5));
    assert(clamp_le(s, st4, st5) == st5);
    assert(s_bin_loop(s, st5, nc, spec_level(OperPrec::Power)) == (Ok::<
        NodeView,
        ParseErrorView,
    >(nc), st5));
    assert(s_generate_ast(s, st4, spec_level(OperPrec::Power)) == (Ok::<
        NodeView,
        ParseErrorView,
    >(nc), st5));
    let nabc = NodeView::Caret(Box::new(nab), Box::new(nc));
    assert(s_convert(s, st3, nab) == (Ok::<NodeView, ParseErrorView>(nabc), st5));
    assert(clamp_lt(s, st3, st5) == st5);
    // the loop at the lowest level stops at the end of input
    assert(s_bin_loop(s, st5, nabc, 0) == (Ok::<NodeView, ParseErrorView>(nabc), st5));
    assert(s_bin_loop(s, st3, nab, 0) == (Ok::<NodeView, ParseErrorView>(nabc), st5));
    assert(s_bin_loop(s, st1, na, 0) == (Ok::<NodeView, ParseErrorView>(nabc), st5));
    assert(s_generate_ast(s, st0, 0) == (Ok::<NodeView, ParseErrorView>(nabc), st5));
}

/// Adjacency is multiplication: an input whose tokens are a literal, an
/// opening parenthesis, a literal, a closing parenthesis and the end of
/// input — `a(b)` for any two literals — parses to exactly the product of
/// the two `Number` nodes, with no `*` written.
pub proof fn lemma_adjacent_literal_multiplies(
    s: Seq<char>,
    a: Seq<char>,
    b: Seq<char>,
    p1: int,
    p2: int,
    p3: int,
    p4: int,
)
    requires
        spec_token_at(s, 0) == Some::<(TokenView, int)>((TokenView::Num(a), p1)),
        spec_token_at(s, p1) == Some::<(TokenView, int)>((TokenView::LeftParen, p2)),
        spec_token_at(s, p2) == Some::<(TokenView, int)>((TokenView::Num(b), p3)),
        spec_token_at(s, p3) == Some::<(TokenView, int)>((TokenView::RightParen, p4)),
        spec_token_at(s, p4) matches Some(tp) && tp.0 is EOF,
    ensures
        spec_parse(s) == Ok::<NodeView, ParseErrorView>(
            NodeView::Multiply(Box::new(NodeView::Number(a)), Box::new(NodeView::Number(b))),
        ),
{
    lemma_token_at_advances(s, 0);
    lemma_token_at_advances(s, p1);
    lemma_token_at_advances(s, p2);
    lemma_token_at_advances(s, p3);
    lemma_token_at_advances(s, p4);
    let st0 = PState { pos: p1, cur: TokenView::Num(a) };
    assert(s_new(s) == Ok::<PState, ParseErrorView>(st0));
    let st1 = PState { pos: p2, cur: TokenView::LeftParen };
    let st2 = PState { pos: p3, cur: TokenView::Num(b) };
    let st3 = PState { pos: p4, cur: TokenView::RightParen };
    let st4 = p_next(s, st3).1;
    let na = NodeView::Number(a);
    let nb = NodeView::Number(b);
    // the literal, with an opening parenthesis right after it
    assert(clamp_lt(s, st0, st1) == st1);
    // the parenthesised group reduces to the second literal
    assert(clamp_lt(s, st1, st2) == st2);
    assert(clamp_lt(s, st2, st3) == st3);
    assert(s_parse_number(s, st2) == (Ok::<NodeView, ParseErrorView>(nb), st3));
    assert(clamp_le(s, st2, st3) == st3);
    assert(s_bin_loop(s, st3, nb, 0) == (Ok::<NodeView, ParseErrorView>(nb), st3));
    assert(s_generate_ast(s, st2, 0) == (Ok::<NodeView, ParseErrorView>(nb), st3));
    assert(s_check_paren(s, st3, TokenView::RightParen) == (Ok::<(), ParseErrorView>(()), st4));
    assert(st4.cur is EOF);
    assert(clamp_lt(s, st3, st4) == st4);
    assert(s_parse_number(s, st4) == (Err::<NodeView, ParseErrorView>(
        ParseErrorView::UnableToParse("Unable to parse"@),
    ), st4));
    assert(s_parse_number(s, st1) == (Ok::<NodeView, ParseErrorView>(nb), st4));
    // adjacency turns the pair into a product
    let nab = NodeView::Multiply(Box::new(na), Box::new(nb));
    assert(s_parse_number(s, st0) == (Ok::<NodeView, ParseErrorView>(nab), st4));
    assert(clamp_le(s, st0, st4) == st4);
    assert(s_bin_loop(s, st4, nab, 0) == (Ok::<NodeView, ParseErrorView>(nab), st4));
    assert(s_generate_ast(s, st0, 0) == (Ok::<NodeView, ParseErrorView>(nab), st4));
}

/// A parse error: the input could not be read as an expression, or a token
/// stood where the grammar does not allow it. The payload is a descriptive
/// message.
#[derive(Debug)]
pub enum ParseError {
    UnableToParse(String),
    InvalidOperator(String),
}

impl View for ParseError {
    type V = ParseErrorView;

    open spec fn view(&self) -> ParseErrorView {
        match self {
            ParseError::UnableToParse(m) => ParseErrorView::UnableToParse(m@),
            ParseError::InvalidOperator(m) => ParseErrorView::InvalidOperator(m@),
        }
    }
}

impl ParseError {
    /// The message this error carries.
    pub fn message(&self) -> (m: &str)
        ensures
            m@ == err_msg(self@),
    {
        match self {
            ParseError::UnableToParse(s) => s.as_str(),
            ParseError::InvalidOperator(s) => s.as_str(),
        }
    }
}

/// `Result` of the executable parser, seen mathematically.
pub open spec fn res_node_view(r: Result<Node, ParseError>) -> Result<NodeView, ParseErrorView> {
    match r {
        Ok(n) => Ok(n@),
        Err(e) => Err(e@),
    }
}

/// `Result` of a consuming step, seen mathematically.
pub open spec fn res_unit_view(r: Result<(), ParseError>) -> Result<(), ParseErrorView> {
    match r {
        Ok(u) => Ok(u),
        Err(e) => Err(e@),
    }
}

/// The name a token is reported under in error messages.
fn token_name(t: &Token) -> (r: &'static str)
    ensures
        r@ == spec_token_name(t@),
{
    match t {
        Token::And => "And",
        Token::Or => "Or",
        Token::Add => "Add",
        Token::Subtract => "Subtract",
        Token::Multiply => "Multiply",
        Token::Divide => "Divide",
        Token::Caret => "Caret",
        Token::LeftParen => "LeftParen",
        Token::RightParen => "RightParen",
        Token::Num(_) => "Num",
        Token::EOF => "EOF",
    }
}

/// A copy of a literal's characters.
fn copy_chars(v: &Vec<char>) -> (r: Vec<char>)
    ensures
        r@ == v@,
{
    let mut out: Vec<char> = Vec::new();
    let mut i: usize = 0;
    while i < v.len()
        invariant
            i <= v.len(),
            out@.len() == i,
            forall|j: int| 0 <= j < i ==> out@[j] == v@[j],
        decreases v.len() - i,
    {
        out.push(v[i]);
        i = i + 1;
    }
    proof {
        assert(out@ =~= v@);
    }
    out
}

/// Whether two literals hold the same characters.
fn chars_eq(a: &Vec<char>, b: &Vec<char>) -> (r: bool)
    ensures
        r == (a@ == b@),
{
    if a.len() != b.len() {
        return false;
    }
    let mut i: usize = 0;
    while i < a.len()
        invariant
            i <= a.len(),
            a@.len() == b@.len(),
            forall|j: int| 0 <= j < i ==> a@[j] == b@[j],
        decreases a.len() - i,
    {
        if a[i] != b[i] {
            return false;
        }
        i = i + 1;
    }
    proof {
        assert(a@ =~= b@);
    }
    true
}

/// Whether two tokens are the same token, literals compared by their text.
fn token_eq(a: &Token, b: &Token) -> (r: bool)
    ensures
        r == (a@ == b@),
{
    match (a, b) {
        (Token::And, Token::And) => true,
        (Token::Or, Token::Or) => true,
        (Token::Add, Token::Add) => true,
        (Token::Subtract, Token::Subtract) => true,
        (Token::Multiply, Token::Multiply) => true,
        (Token::Divide, Token::Divide) => true,
        (Token::Caret, Token::Caret) => true,
        (Token::LeftParen, Token::LeftParen) => true,
        (Token::RightParen, Token::RightParen) => true,
        (Token::Num(x), Token::Num(y)) => chars_eq(x, y),
        (Token::EOF, Token::EOF) => true,
        _ => false,
    }
}

/// The text of a literal token.
fn num_payload(t: &Token) -> (r: Vec<char>)
    requires
        t@ is Num,
    ensures
        r@ == t@->Num_0,
{
    match t {
        Token::Num(v) => copy_chars(v),
        _ => {
            proof {
                assert(false);
            }
            Vec::new()
        },
    }
}

/// Builds an abstract syntax tree from the text of an arithmetic
/// expression, holding one token of lookahead.
pub struct Parser<'a> {
    tokenizer: Tokenizer<'a>,
    current_token: Token,
}

impl<'a> Parser<'a> {
    /// The text being parsed.
    pub closed spec fn input(&self) -> Seq<char> {
        self.tokenizer.input()
    }

    /// The parse state: the tokenizer's position and the lookahead token.
    pub closed spec fn state(&self) -> PState {
        PState { pos: self.tokenizer.position(), cur: self.current_token@ }
    }

    /// The parser's invariant: the tokenizer is within its input, and once
    /// it is finished, either the end marker is the lookahead or no token
    /// can be made at the current position — so pulling again reports the
    /// lexical failure, as `p_next` says.
    pub closed spec fn wf(&self) -> bool {
        &&& self.tokenizer.wf()
        &&& self.tokenizer.finished() ==> (self.current_token@ is EOF || spec_token_at(
            self.input(),
            self.tokenizer.position(),
        ) is None)
    }

    /// A parser over `expr`, with the first token already pulled;
    /// construction fails as `s_new` says, when no first token can be made.
    pub fn new(expr: &'a str) -> (r: Result<Parser<'a>, ParseError>)
        ensures
            match r {
                Ok(p) => {
                    &&& p.wf()
                    &&& p.input() == expr@
                    &&& s_new(expr@) == Ok::<PState, ParseErrorView>(p.state())
                },
                Err(e) => s_new(expr@) == Err::<PState, ParseErrorView>(e@),
            },
    {
        let mut lexer = Tokenizer::new(expr);
        let cur_token = match lexer.next() {
            Some(token) => token,
            None => return Err(ParseError::InvalidOperator(String::from_str("Invalid character"))),
        };
        Ok(Parser { tokenizer: lexer, current_token: cur_token })
    }

    /// The whole expression down to the end of input, exactly as
    /// `s_parse_full` says: the tree of the input, or an error when the
    /// input is malformed, ends early, or goes on past a complete
    /// expression — nothing is ever silently dropped. On a fresh parser
    /// this is `spec_parse` of the input.
    pub fn parse(&mut self) -> (r: Result<Node, ParseError>)
        requires
            old(self).wf(),
        ensures
            final(self).wf(),
            final(self).input() == old(self).input(),
            ({
                let (sr, sst) = s_parse_full(old(self).input(), old(self).state());
                res_node_view(r) == sr && final(self).state() == sst
            }),
    {
        let ast = self.generate_ast(OperPrec::DefaultZero);
        match ast {
            Ok(res) => {
                if matches!(self.current_token, Token::EOF) {
                    Ok(res)
                } else {
                    let mut m = String::from_str("Expected ");
                    m.append("EOF");
                    m.append(", got ");
                    m.append(token_name(&self.current_token));
                    Err(ParseError::InvalidOperator(m))
                }
            },
            Err(error) => Err(error),
        }
    }

    /// Pulls the next token into the lookahead, as `p_next` says.
    fn get_next_token(&mut self) -> (r: Result<(), ParseError>)
        requires
            old(self).wf(),
            !(old(self).state().cur is EOF),
        ensures
            final(self).wf(),
            final(self).input() == old(self).input(),
            ({
                let (sr, sst) = p_next(old(self).input(), old(self).state());
                res_unit_view(r) == sr && final(self).state() == sst
            }),
            weight(final(self).input(), final(self).state()) <= weight(
                old(self).input(),
                old(self).state(),
            ),
            r is Ok ==> weight(final(self).input(), final(self).state()) < weight(
                old(self).input(),
                old(self).state(),
            ),
    {
        let ghost s = self.input();
        let ghost st0 = self.state();
        let next_token = match self.tokenizer.next() {
            Some(token) => token,
            None => {
                return Err(ParseError::InvalidOperator(String::from_str("Invalid character")));
            },
        };
        self.current_token = next_token;
        proof {
            lemma_token_at_advances(s, st0.pos);
        }
        Ok(())
    }

    /// Consumes the expected closing token or reports the mismatch, as
    /// `s_check_paren` says.
    fn check_paren(&mut self, expected: Token) -> (r: Result<(), ParseError>)
        requires
            old(self).wf(),
            !(expected@ is EOF),
        ensures
            final(self).wf(),
            final(self).input() == old(self).input(),
            ({
                let (sr, sst) = s_check_paren(old(self).input(), old(self).state(), expected@);
                res_unit_view(r) == sr && final(self).state() == sst
            }),
            weight(final(self).input(), final(self).state()) <= weight(
                old(self).input(),
                old(self).state(),
            ),
            r is Ok ==> weight(final(self).input(), final(self).state()) < weight(
                old(self).input(),
                old(self).state(),
            ),
    {
        if token_eq(&expected, &self.current_token) {
            match self.get_next_token() {
                Err(e) => Err(e),
                Ok(()) => Ok(()),
            }
        } else {
            let mut m = String::from_str("Expected ");
            m.append(token_name(&expected));
            m.append(", got ");
            m.append(token_name(&self.current_token));
            Err(ParseError::InvalidOperator(m))
        }
    }

    /// Whether the climbing loop has another operator to take: the lookahead
    /// binds more strongly than `min_level` and is not the end marker.
    fn wants_more(&self, min_level: u8) -> (b: bool)
        ensures
            b == (min_level < prec_of(self.state().cur) && !(self.state().cur is EOF)),
    {
        let p = self.current_token.get_oper_prec();
        let lv = p.level();
        min_level < lv && !matches!(self.current_token, Token::EOF)
    }

    /// The primary-expression step, as `s_parse_number` says.
    fn parse_number(&mut self) -> (r: Result<Node, ParseError>)
        requires
            old(self).wf(),
        ensures
            final(self).wf(),
            final(self).input() == old(self).input(),
            ({
                let (sr, sst) = s_parse_number(old(self).input(), old(self).state());
                res_node_view(r) == sr && final(self).state() == sst
            }),
            weight(final(self).input(), final(self).state()) <= weight(
                old(self).input(),
                old(self).state(),
            ),
            r is Ok ==> weight(final(self).input(), final(self).state()) < weight(
                old(self).input(),
                old(self).state(),
            ),
        decreases weight(self.input(), self.state()), 1int,
    {
        let ghost s = self.input();
        let ghost st0 = self.state();
        if matches!(self.current_token, Token::Subtract) {
            match self.get_next_token() {
                Err(e) => return Err(e),
                Ok(()) => {},
            }
            proof {
                assert(clamp_lt(s, st0, self.state()) == self.state());
            }
            let expr = match self.generate_ast(OperPrec::Negative) {
                Err(e) => return Err(e),
                Ok(n) => n,
            };
            Ok(Node::Negative(Box::new(expr)))
        } else if matches!(self.current_token, Token::Num(_)) {
            let lit = num_payload(&self.current_token);
            match self.get_next_token() {
                Err(e) => return Err(e),
                Ok(()) => {},
            }
            proof {
                assert(clamp_lt(s, st0, self.state()) == self.state());
            }
            if matches!(self.current_token, Token::LeftParen) {
                let right_expr = match self.parse_number() {
                    Err(e) => return Err(e),
                    Ok(n) => n,
                };
                proof {
                    assert((Node::Number(lit))@ == NodeView::Number(lit@));
                }
                Ok(Node::Multiply(Box::new(Node::Number(lit)), Box::new(right_expr)))
            } else {
                Ok(Node::Number(lit))
            }
        } else if matches!(self.current_token, Token::LeftParen) {
            match self.get_next_token() {
                Err(e) => return Err(e),
                Ok(()) => {},
            }
            proof {
                assert(clamp_lt(s, st0, self.state()) == self.state());
            }
            let ghost st1 = self.state();
            let expr = match self.generate_ast(OperPrec::DefaultZero) {
                Err(e) => return Err(e),
                Ok(n) => n,
            };
            proof {
                assert(clamp_le(s, st1, self.state()) == self.state());
            }
            let ghost st2 = self.state();
            match self.check_paren(Token::RightParen) {
                Err(e) => return Err(e),
                Ok(()) => {},
            }
            proof {
                assert(clamp_lt(s, st2, self.state()) == self.state());
            }
            if matches!(self.current_token, Token::Subtract) {
                return Ok(expr);
            }
            match self.parse_number() {
                Ok(right_expr) => Ok(Node::Multiply(Box::new(expr), Box::new(right_expr))),
                Err(_) => Ok(expr),
            }
        } else {
            Err(ParseError::UnableToParse(String::from_str("Unable to parse")))
        }
    }

    /// The operator step, as `s_convert` says.
    fn convert_token_to_node(&mut self, left_expr: Node) -> (r: Result<Node, ParseError>)
        requires
            old(self).wf(),
        ensures
            final(self).wf(),
            final(self).input() == old(self).input(),
            ({
                let (sr, sst) = s_convert(old(self).input(), old(self).state(), left_expr@);
                res_node_view(r) == sr && final(self).state() == sst
            }),
            weight(final(self).input(), final(self).state()) <= weight(
                old(self).input(),
                old(self).state(),
            ),
            r is Ok ==> weight(final(self).input(), final(self).state()) < weight(
                old(self).input(),
                old(self).state(),
            ),
        decreases weight(self.input(), self.state()), 0int,
    {
        let ghost s = self.input();
        let ghost st0 = self.state();
        if matches!(self.current_token, Token::Add) {
            match self.get_next_token() {
                Err(e) => return Err(e),
                Ok(()) => {},
            }
            proof {
                assert(clamp_lt(s, st0, self.state()) == self.state());
            }
            let right_expr = match self.generate_ast(OperPrec::AddSub) {
                Err(e) => return Err(e),
                Ok(n) => n,
            };
            Ok(Node::Add(Box::new(left_expr), Box::new(right_expr)))
        } else if matches!(self.current_token, Token::Subtract) {
            match self.get_next_token() {
                Err(e) => return Err(e),
                Ok(()) => {},
            }
            proof {
                assert(clamp_lt(s, st0, self.state()) == self.state());
            }
            let right_expr = match self.generate_ast(OperPrec::AddSub) {
                Err(e) => return Err(e),
                Ok(n) => n,
            };
            Ok(Node::Subtract(Box::new(left_expr), Box::new(right_expr)))
        } else if matches!(self.current_token, Token::Multiply) {
            match self.get_next_token() {
                Err(e) => return Err(e),
                Ok(()) => {},
            }
            proof {
                assert(clamp_lt(s, st0, self.state()) == self.state());
            }
            let right_expr = match self.generate_ast(OperPrec::MulDiv) {
                Err(e) => return Err(e),
                Ok(n) => n,
            };
            Ok(Node::Multiply(Box::new(left_expr), Box::new(right_expr)))
        } else if matches!(self.current_token, Token::Divide) {
            match self.get_next_token() {
                Err(e) => return Err(e),
                Ok(()) => {},
            }
            proof {
                assert(clamp_lt(s, st0, self.state()) == self.state());
            }
            let right_expr = match self.generate_ast(OperPrec::MulDiv) {
                Err(e) => return Err(e),
                Ok(n) => n,
            };
            Ok(Node::Divide(Box::new(left_expr), Box::new(right_expr)))
        } else if matches!(self.current_token, Token::Caret) {
            match self.get_next_token() {
                Err(e) => return Err(e),
                Ok(()) => {},
            }
            proof {
                assert(clamp_lt(s, st0, self.state()) == self.state());
            }
            let right_expr = match self.generate_ast(OperPrec::Power) {
                Err(e) => return Err(e),
                Ok(n) => n,
            };
            Ok(Node::Caret(Box::new(left_expr), Box::new(right_expr)))
        } else if matches!(self.current_token, Token::And) {
            match self.get_next_token() {
                Err(e) => return Err(e),
                Ok(()) => {},
            }
            proof {
                assert(clamp_lt(s, st0, self.state()) == self.state());
            }
            let right_expr = match self.generate_ast(OperPrec::AndOr) {
                Err(e) => return Err(e),
                Ok(n) => n,
            };
            Ok(Node::And(Box::new(left_expr), Box::new(right_expr)))
        } else if matches!(self.current_token, Token::Or) {
            match self.get_next_token() {
                Err(e) => return Err(e),
                Ok(()) => {},
            }
            proof {
                assert(clamp_lt(s, st0, self.state()) == self.state());
            }
            let right_expr = match self.generate_ast(OperPrec::AndOr) {
                Err(e) => return Err(e),
                Ok(n) => n,
            };
            Ok(Node::Or(Box::new(left_expr), Box::new(right_expr)))
        } else {
            let mut m = String::from_str("Please enter valid operator ");
            m.append(token_name(&self.current_token));
            Err(ParseError::InvalidOperator(m))
        }
    }

    /// One full expression at the level of `oper_prec`: a primary, then the
    /// climbing loop, as `s_generate_ast` says.
    #[verifier::loop_isolation(false)]
    fn generate_ast(&mut self, oper_prec: OperPrec) -> (r: Result<Node, ParseError>)
        requires
            old(self).wf(),
        ensures
            final(self).wf(),
            final(self).input() == old(self).input(),
            ({
                let (sr, sst) = s_generate_ast(
                    old(self).input(),
                    old(self).state(),
                    spec_level(oper_prec),
                );
                res_node_view(r) == sr && final(self).state() == sst
            }),
            weight(final(self).input(), final(self).state()) <= weight(
                old(self).input(),
                old(self).state(),
            ),
            r is Ok ==> weight(final(self).input(), final(self).state()) < weight(
                old(self).input(),
                old(self).state(),
            ),
        decreases weight(self.input(), self.state()), 3int,
    {
        let ghost s = self.input();
        let ghost st0 = self.state();
        let ghost min = spec_level(oper_prec);
        let mut left_expr = match self.parse_number() {
            Err(e) => return Err(e),
            Ok(n) => n,
        };
        proof {
            assert(clamp_le(s, st0, self.state()) == self.state());
        }
        let ghost w_pn = weight(s, self.state());
        let ghost target = s_bin_loop(s, self.state(), left_expr@, min);
        let min_level = oper_prec.level();
        while self.wants_more(min_level)
            invariant
                self.wf(),
                self.input() == s,
                weight(s, self.state()) <= w_pn,
                s_bin_loop(s, self.state(), left_expr@, min) == target,
            decreases weight(s, self.state()),
        {
            let ghost stb = self.state();
            let res = self.convert_token_to_node(left_expr);
            left_expr = match res {
                Err(e) => return Err(e),
                Ok(n) => n,
            };
            proof {
                assert(clamp_lt(s, stb, self.state()) == self.state());
            }
        }
        Ok(left_expr)
    }
}

} // verus!
