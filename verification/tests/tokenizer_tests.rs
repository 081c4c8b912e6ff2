use expression_eval::parsemath::token::Token;
use expression_eval::parsemath::tokenizer::Tokenizer;

fn chars(s: &str) -> Vec<char> {
    s.chars().collect()
}

#[test]
fn test_positive_integer() {
    let mut tokenizer = Tokenizer::new("34");
    assert_eq!(tokenizer.next().unwrap(), Token::Num(chars("34")))
}

#[test]
fn test_decimal_number() {
    let mut tokenizer = Tokenizer::new("34.5");
    assert_eq!(tokenizer.next().unwrap(), Token::Num(chars("34.5")))
}

#[test]
fn test_invalid_char() {
    let mut tokenizer = Tokenizer::new("#$%");
    assert_eq!(tokenizer.next(), None);
}

#[test]
fn test_incorrect_decimal() {
    let mut tokenizer = Tokenizer::new("12.3.4");
    assert_eq!(tokenizer.next(), None);
}

#[test]
fn test_space_in_number() {
    let mut tokenizer = Tokenizer::new("1 2 . 3 4");
    assert_eq!(tokenizer.next().unwrap(), Token::Num(chars("12.34")))
}

#[test]
fn test_other_whitespaces() {
    let mut tokenizer = Tokenizer::new("1\t.\n2\r\n3");
    assert_eq!(tokenizer.next().unwrap(), Token::Num(chars("1.23")))
}

#[test]
fn test_end_of_file() {
    let mut tokenizer = Tokenizer::new("");
    assert_eq!(tokenizer.next().unwrap(), Token::EOF)
}

#[test]
fn test_leading_whitespace() {
    let mut tokenizer = Tokenizer::new("  \n\r\t  34.56");
    assert_eq!(tokenizer.next().unwrap(), Token::Num(chars("34.56")))
}

#[test]
fn test_other_sign() {
    let mut tokenizer = Tokenizer::new("&|+-*/^()");
    assert_eq!(tokenizer.next().unwrap(), Token::And);
    assert_eq!(tokenizer.next().unwrap(), Token::Or);
    assert_eq!(tokenizer.next().unwrap(), Token::Add);
    assert_eq!(tokenizer.next().unwrap(), Token::Subtract);
    assert_eq!(tokenizer.next().unwrap(), Token::Multiply);
    assert_eq!(tokenizer.next().unwrap(), Token::Divide);
    assert_eq!(tokenizer.next().unwrap(), Token::Caret);
    assert_eq!(tokenizer.next().unwrap(), Token::LeftParen);
    assert_eq!(tokenizer.next().unwrap(), Token::RightParen);
}

#[test]
fn test_exhausted_after_end() {
    let mut tokenizer = Tokenizer::new(" 7 ");
    assert_eq!(tokenizer.next().unwrap(), Token::Num(chars("7")));
    assert_eq!(tokenizer.next().unwrap(), Token::EOF);
    assert_eq!(tokenizer.next(), None);
    assert_eq!(tokenizer.next(), None);
}

#[test]
fn test_exhausted_after_failure() {
    let mut tokenizer = Tokenizer::new("12.3.4 + 5");
    assert_eq!(tokenizer.next(), None);
    assert_eq!(tokenizer.next(), None);
}
