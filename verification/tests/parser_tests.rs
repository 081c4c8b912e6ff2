use expression_eval::parsemath::ast::Node;
use expression_eval::parsemath::parser::Parser;

fn chars(s: &str) -> Vec<char> {
    s.chars().collect()
}

fn num(s: &str) -> Box<Node> {
    Box::new(Node::Number(chars(s)))
}

#[test]
fn parser_test_addition() {
    let mut parser = Parser::new("1+2").unwrap();
    let expected = Node::Add(num("1"), num("2"));
    assert_eq!(parser.parse().unwrap(), expected);
}

#[test]
fn test_bitwise_or() {
    let mut parser = Parser::new("6|2").unwrap();
    let expected = Node::Or(num("6"), num("2"));
    assert_eq!(parser.parse().unwrap(), expected);
}

#[test]
fn test_parenthesis_ast() {
    let mut parser = Parser::new("(1 + 2) (3 / 4)").unwrap();
    let expected = Node::Multiply(
        Box::new(Node::Add(num("1"), num("2"))),
        Box::new(Node::Divide(num("3"), num("4"))),
    );
    assert_eq!(parser.parse().unwrap(), expected);
}

#[test]
fn test_parenthesis_multiplication() {
    let mut parser = Parser::new("(-5)4").unwrap();
    let mut expected = Node::Multiply(Box::new(Node::Negative(num("5"))), num("4"));
    assert_eq!(parser.parse().unwrap(), expected);

    parser = Parser::new("-5(4)").unwrap();
    expected = Node::Negative(Box::new(Node::Multiply(num("5"), num("4"))));
    assert_eq!(parser.parse().unwrap(), expected);
}

#[test]
fn test_bitwise_parsing() {
    let mut parser = Parser::new("6 & 3 | 1").unwrap();
    let expected = Node::Or(Box::new(Node::And(num("6"), num("3"))), num("1"));
    assert_eq!(parser.parse().unwrap(), expected);
}

#[test]
fn test_unary_negative() {
    let mut parser = Parser::new("-3 + 5").unwrap();
    let expected = Node::Add(Box::new(Node::Negative(num("3"))), num("5"));
    assert_eq!(parser.parse().unwrap(), expected);
}

#[test]
fn test_errors() {
    let mut parser = Parser::new("(1+2").unwrap();
    assert!(parser.parse().is_err());

    parser = Parser::new("8 @ 6").unwrap();
    assert!(parser.parse().is_err());
}

#[test]
fn test_bare_number_identity() {
    let mut parser = Parser::new("34.5").unwrap();
    assert_eq!(parser.parse().unwrap(), Node::Number(chars("34.5")));

    parser = Parser::new(" 1 2 . 3 4 ").unwrap();
    assert_eq!(parser.parse().unwrap(), Node::Number(chars("12.34")));
}

#[test]
fn test_parenthesized_number_identity() {
    let mut parser = Parser::new("(3.5)").unwrap();
    assert_eq!(parser.parse().unwrap(), Node::Number(chars("3.5")));

    parser = Parser::new("((42))").unwrap();
    assert_eq!(parser.parse().unwrap(), Node::Number(chars("42")));
}

#[test]
fn test_precedence_chain() {
    let mut parser = Parser::new("3+2-1*5/4").unwrap();
    let expected = Node::Subtract(
        Box::new(Node::Add(num("3"), num("2"))),
        Box::new(Node::Divide(Box::new(Node::Multiply(num("1"), num("5"))), num("4"))),
    );
    assert_eq!(parser.parse().unwrap(), expected);
}

#[test]
fn test_chained_negation() {
    let mut parser = Parser::new("--3").unwrap();
    let expected = Node::Negative(Box::new(Node::Negative(num("3"))));
    assert_eq!(parser.parse().unwrap(), expected);

    parser = Parser::new("-5--10").unwrap();
    let expected2 = Node::Subtract(
        Box::new(Node::Negative(num("5"))),
        Box::new(Node::Negative(num("10"))),
    );
    assert_eq!(parser.parse().unwrap(), expected2);
}

#[test]
fn test_adjacency_multiplication() {
    let mut parser = Parser::new("3(4)").unwrap();
    let expected = Node::Multiply(num("3"), num("4"));
    assert_eq!(parser.parse().unwrap(), expected);
}

#[test]
fn test_negation_binds_tighter_than_caret() {
    let mut parser = Parser::new("-4^0.5").unwrap();
    let expected = Node::Caret(Box::new(Node::Negative(num("4"))), num("0.5"));
    assert_eq!(parser.parse().unwrap(), expected);

    parser = Parser::new("-2^2").unwrap();
    let expected2 = Node::Caret(Box::new(Node::Negative(num("2"))), num("2"));
    assert_eq!(parser.parse().unwrap(), expected2);
}

#[test]
fn test_trailing_token_rejected() {
    let err = Parser::new("1+2)").unwrap().parse().unwrap_err();
    assert_eq!(err.message(), "Expected EOF, got RightParen");

    let err = Parser::new("(1+2))").unwrap().parse().unwrap_err();
    assert_eq!(err.message(), "Expected EOF, got RightParen");
}

#[test]
fn test_caret_left_associative() {
    let mut parser = Parser::new("2^3^2").unwrap();
    let expected = Node::Caret(Box::new(Node::Caret(num("2"), num("3"))), num("2"));
    assert_eq!(parser.parse().unwrap(), expected);
}

#[test]
fn test_composed_expression_structure() {
    let mut parser = Parser::new("(3.5 + 4.5) * 2 ^ ((7 & 3) | 1)").unwrap();
    let expected = Node::Multiply(
        Box::new(Node::Add(num("3.5"), num("4.5"))),
        Box::new(Node::Caret(
            num("2"),
            Box::new(Node::Or(Box::new(Node::And(num("7"), num("3"))), num("1"))),
        )),
    );
    assert_eq!(parser.parse().unwrap(), expected);
}

#[test]
fn test_error_messages() {
    let err = match Parser::new("@") {
        Ok(_) => panic!("construction should fail on an invalid character"),
        Err(e) => e,
    };
    assert_eq!(err.message(), "Invalid character");

    let err = Parser::new(")").unwrap().parse().unwrap_err();
    assert_eq!(err.message(), "Unable to parse");

    let err = Parser::new("(1+2").unwrap().parse().unwrap_err();
    assert_eq!(err.message(), "Expected RightParen, got EOF");

    let err = Parser::new("8 @ 6").unwrap().parse().unwrap_err();
    assert_eq!(err.message(), "Invalid character");

    let err = Parser::new("").unwrap().parse().unwrap_err();
    assert_eq!(err.message(), "Unable to parse");
}

#[test]
fn test_expr7() {
    let mut parser = Parser::new("((4 + 1) * ((2 / (3 - 3))").unwrap();
    assert!(parser.parse().is_err());
}

#[test]
fn test_expr8() {
    let mut parser = Parser::new("(6 + 8) $% 45 #* 90").unwrap();
    assert!(parser.parse().is_err());
}
