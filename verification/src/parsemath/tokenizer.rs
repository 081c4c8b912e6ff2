//! Reads the characters of an arithmetic expression and hands out tokens one
//! at a time, on demand.
//!
//! Whitespace is skipped everywhere, even between the digits of one numeric
//! literal; a second decimal point inside a literal, or any character the
//! language does not know, ends the token sequence with no token at all.
//! Exhausted input yields exactly one end-of-input token and nothing after
//! it. The function `spec_token_at` is the exact statement of these rules.
use vstd::prelude::*;
use vstd::string::StrSliceExecFns;

use crate::parsemath::token::{Token, TokenView};

verus! {

/// ASCII whitespace as the tokenizer skips it.
pub open spec fn is_ws(c: char) -> bool {
    c == ' ' || c == '\t' || c == '\n' || c == '\r'
}

/// An ASCII decimal digit.
pub open spec fn is_digit(c: char) -> bool {
    '0' <= c && c <= '9'
}

/// The first position at or after `pos` that does not hold whitespace.
pub open spec fn skip_ws(s: Seq<char>, pos: int) -> int
    decreases s.len() - pos,
{
    if pos < s.len() && is_ws(s[pos]) {
        skip_ws(s, pos + 1)
    } else {
        pos
    }
}

/// Continues a numeric literal from `pos`: collects digits and at most one
/// decimal point (`has_dec` says whether one was already seen), skipping
/// whitespace, until a foreign character or the end of input. Returns the
/// collected text and the position of what ended it, or `None` when a second
/// decimal point makes the literal malformed.
pub open spec fn scan_num(s: Seq<char>, pos: int, has_dec: bool) -> Option<(Seq<char>, int)>
    decreases s.len() - pos,
{
    if pos >= s.len() {
        Some((Seq::empty(), pos))
    } else if is_digit(s[pos]) {
        match scan_num(s, pos + 1, has_dec) {
            Some(r) => Some((seq![s[pos]] + r.0, r.1)),
            None => None,
        }
    } else if s[pos] == '.' {
        if has_dec {
            None
        } else {
            match scan_num(s, pos + 1, true) {
                Some(r) => Some((seq!['.'] + r.0, r.1)),
                None => None,
            }
        }
    } else if is_ws(s[pos]) {
        scan_num(s, pos + 1, has_dec)
    } else {
        Some((Seq::empty(), pos))
    }
}

/// The token found at `pos`, with the position right after it: whitespace is
/// skipped, a digit opens a numeric literal, each operator or parenthesis is
/// one token, the end of input is the end-of-input token, and anything else
/// is no token at all.
pub open spec fn spec_token_at(s: Seq<char>, pos: int) -> Option<(TokenView, int)> {
    let p = skip_ws(s, pos);
    if p >= s.len() {
        Some((TokenView::EOF, p))
    } else if is_digit(s[p]) {
        match scan_num(s, p + 1, false) {
            Some(r) => Some((TokenView::Num(seq![s[p]] + r.0), r.1)),
            None => None,
        }
    } else if s[p] == '&' {
        Some((TokenView::And, p + 1))
    } else if s[p] == '|' {
        Some((TokenView::Or, p + 1))
    } else if s[p] == '+' {
        Some((TokenView::Add, p + 1))
    } else if s[p] == '-' {
        Some((TokenView::Subtract, p + 1))
    } else if s[p] == '*' {
        Some((TokenView::Multiply, p + 1))
    } else if s[p] == '/' {
        Some((TokenView::Divide, p + 1))
    } else if s[p] == '^' {
        Some((TokenView::Caret, p + 1))
    } else if s[p] == '(' {
        Some((TokenView::LeftParen, p + 1))
    } else if s[p] == ')' {
        Some((TokenView::RightParen, p + 1))
    } else {
        None
    }
}

/// Bounds of `skip_ws`: it never moves backwards and never passes the end.
pub proof fn lemma_skip_ws_bounds(s: Seq<char>, pos: int)
    requires
        0 <= pos <= s.len(),
    ensures
        pos <= skip_ws(s, pos) <= s.len(),
    decreases s.len() - pos,
{
    if pos < s.len() && is_ws(s[pos]) {
        lemma_skip_ws_bounds(s, pos + 1);
    }
}

/// Bounds of `scan_num`: the end of a literal lies between where the scan
/// started and the end of input.
pub proof fn lemma_scan_num_bounds(s: Seq<char>, pos: int, has_dec: bool)
    requires
        0 <= pos <= s.len(),
    ensures
        scan_num(s, pos, has_dec) matches Some(r) ==> pos <= r.1 <= s.len(),
    decreases s.len() - pos,
{
    if pos < s.len() {
        if is_digit(s[pos]) {
            lemma_scan_num_bounds(s, pos + 1, has_dec);
        } else if s[pos] == '.' {
            if !has_dec {
                lemma_scan_num_bounds(s, pos + 1, true);
            }
        } else if is_ws(s[pos]) {
            lemma_scan_num_bounds(s, pos + 1, has_dec);
        }
    }
}

/// Every token ends within the input, and every token but the end-of-input
/// marker takes at least one character.
pub proof fn lemma_token_at_advances(s: Seq<char>, pos: int)
    requires
        0 <= pos <= s.len(),
        spec_token_at(s, pos) is Some,
    ensures
        pos <= spec_token_at(s, pos)->Some_0.1 <= s.len(),
        !(spec_token_at(s, pos)->Some_0.0 is EOF) ==> pos + 1 <= spec_token_at(s, pos)->Some_0.1,
        spec_token_at(s, pos)->Some_0.0 is EOF ==> spec_token_at(s, pos)->Some_0.1 == s.len(),
{
    lemma_skip_ws_bounds(s, pos);
    let p = skip_ws(s, pos);
    if p < s.len() && is_digit(s[p]) {
        lemma_scan_num_bounds(s, p + 1, false);
    }
}

/// Pulls tokens out of the text of an arithmetic expression, one per call,
/// front to back.
pub struct Tokenizer<'a> {
    expr: &'a str,
    pos: usize,
    done: bool,
}

impl<'a> Tokenizer<'a> {
    /// The text being tokenized.
    pub closed spec fn input(&self) -> Seq<char> {
        self.expr@
    }

    /// How many characters have been consumed so far.
    pub closed spec fn position(&self) -> int {
        self.pos as int
    }

    /// Whether the sequence of tokens is exhausted: a lexical failure was
    /// reported, or the end-of-input token was already handed out.
    pub closed spec fn finished(&self) -> bool {
        self.done
    }

    /// The position never passes the end of the input.
    pub open spec fn wf(&self) -> bool {
        0 <= self.position() <= self.input().len()
    }

    /// A fresh tokenizer at the front of `new_expr`.
    pub fn new(new_expr: &'a str) -> (t: Tokenizer<'a>)
        ensures
            t.input() == new_expr@,
            t.position() == 0,
            !t.finished(),
            t.wf(),
    {
        Tokenizer { expr: new_expr, pos: 0, done: false }
    }

    /// The next token of the expression, or `None` when the input is
    /// malformed or the sequence is exhausted, exactly as `spec_token_at`
    /// says of the current position.
    #[verifier::loop_isolation(false)]
    pub fn next(&mut self) -> (r: Option<Token>)
        requires
            old(self).wf(),
        ensures
            final(self).wf(),
            final(self).input() == old(self).input(),
            old(self).finished() ==> r is None && final(self).finished() && final(self).position()
                == old(self).position(),
            !old(self).finished() ==> match spec_token_at(
                old(self).input(),
                old(self).position(),
            ) {
                Some(tp) => {
                    &&& r matches Some(tok) && tok@ == tp.0
                    &&& final(self).position() == tp.1
                    &&& final(self).finished() <==> tp.0 is EOF
                },
                None => {
                    &&& r is None
                    &&& final(self).finished()
                    &&& final(self).position() == old(self).position()
                },
            },
    {
        if self.done {
            return None;
        }
        let ghost s = self.expr@;
        let ghost p0 = self.pos as int;
        let start = self.pos;
        let len = self.expr.unicode_len();
        while self.pos < len && ws_char(self.expr.get_char(self.pos))
            invariant
                self.expr@ == s,
                !self.done,
                p0 <= self.pos <= s.len(),
                len == s.len(),
                skip_ws(s, p0) == skip_ws(s, self.pos as int),
            decreases s.len() - self.pos,
        {
            self.pos = self.pos + 1;
        }
        assert(skip_ws(s, p0) == self.pos as int);
        if self.pos >= len {
            self.done = true;
            return Some(Token::EOF);
        }
        let c = self.expr.get_char(self.pos);
        if digit_char(c) {
            self.pos = self.pos + 1;
            let ghost q0 = self.pos as int;
            let mut buffer: Vec<char> = Vec::new();
            buffer.push(c);
            let mut has_dec = false;
            proof {
                assert(buffer@.skip(1) =~= Seq::<char>::empty());
                if let Some(r) = scan_num(s, q0, false) {
                    assert(buffer@.skip(1) + r.0 =~= r.0);
                }
            }
            while self.pos < len && num_char(self.expr.get_char(self.pos))
                invariant
                    self.expr@ == s,
                    !self.done,
                    q0 <= self.pos <= s.len(),
                    len == s.len(),
                    buffer@.len() >= 1 && buffer@[0] == c,
                    match scan_num(s, self.pos as int, has_dec) {
                        Some(r) => scan_num(s, q0, false) == Some::<(Seq<char>, int)>(
                            (buffer@.skip(1) + r.0, r.1),
                        ),
                        None => scan_num(s, q0, false) is None,
                    },
                decreases s.len() - self.pos,
            {
                let ch = self.expr.get_char(self.pos);
                let ghost pc = self.pos as int;
                let ghost b0 = buffer@;
                if digit_char(ch) {
                    self.pos = self.pos + 1;
                    buffer.push(ch);
                    proof {
                        assert(buffer@.skip(1) =~= b0.skip(1) + seq![ch]);
                        if let Some(r) = scan_num(s, pc + 1, has_dec) {
                            assert(buffer@.skip(1) + r.0 =~= b0.skip(1) + (seq![ch] + r.0));
                        }
                    }
                } else if ch == '.' {
                    if has_dec {
                        self.pos = start;
                        self.done = true;
                        return None;
                    } else {
                        has_dec = true;
                        self.pos = self.pos + 1;
                        buffer.push(ch);
                        proof {
                            assert(buffer@.skip(1) =~= b0.skip(1) + seq![ch]);
                            if let Some(r) = scan_num(s, pc + 1, true) {
                                assert(buffer@.skip(1) + r.0 =~= b0.skip(1) + (seq![ch] + r.0));
                            }
                        }
                    }
                } else {
                    self.pos = self.pos + 1;
                }
            }
            proof {
                assert(scan_num(s, self.pos as int, has_dec) == Some::<(Seq<char>, int)>(
                    (Seq::empty(), self.pos as int),
                ));
                assert(buffer@.skip(1) + Seq::<char>::empty() =~= buffer@.skip(1));
                assert(seq![c] + buffer@.skip(1) =~= buffer@);
            }
            return Some(Token::Num(buffer));
        }
        match c {
            '&' => {
                self.pos = self.pos + 1;
                Some(Token::And)
            },
            '|' => {
                self.pos = self.pos + 1;
                Some(Token::Or)
            },
            '+' => {
                self.pos = self.pos + 1;
                Some(Token::Add)
            },
            '-' => {
                self.pos = self.pos + 1;
                Some(Token::Subtract)
            },
            '*' => {
                self.pos = self.pos + 1;
                Some(Token::Multiply)
            },
            '/' => {
                self.pos = self.pos + 1;
                Some(Token::Divide)
            },
            '^' => {
                self.pos = self.pos + 1;
                Some(Token::Caret)
            },
            '(' => {
                self.pos = self.pos + 1;
                Some(Token::LeftParen)
            },
            ')' => {
                self.pos = self.pos + 1;
                Some(Token::RightParen)
            },
            _ => {
                self.pos = start;
                self.done = true;
                None
            },
        }
    }
}

/// Whether `c` is skipped as whitespace.
fn ws_char(c: char) -> (b: bool)
    ensures
        b == is_ws(c),
{
    c == ' ' || c == '\t' || c == '\n' || c == '\r'
}

/// Whether `c` is an ASCII decimal digit.
fn digit_char(c: char) -> (b: bool)
    ensures
        b == is_digit(c),
{
    '0' <= c && c <= '9'
}

/// Whether `c` keeps a numeric literal going: a digit, a decimal point, or
/// whitespace.
fn num_char(c: char) -> (b: bool)
    ensures
        b == (is_digit(c) || c == '.' || is_ws(c)),
{
    digit_char(c) || c == '.' || ws_char(c)
}

} // verus!
