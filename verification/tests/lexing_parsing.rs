use clcalc::ast::{Node, Operator};
use clcalc::errors::CalcError;
use clcalc::lexer::Lexer;
use clcalc::parser::Parser;
use clcalc::token::{Token, TokenType};

#[test]
fn tokens_of_a_simple_expression() {
    let mut lexer = Lexer::new(String::from("3 + foo"));
    let toks = lexer.get_all_tokens().expect("lexes");
    let kinds: Vec<TokenType> = toks.iter().map(|t| t.token).collect();
    assert_eq!(
        kinds,
        vec![TokenType::Number, TokenType::Add, TokenType::Ident, TokenType::EOI]
    );
    assert_eq!(toks[0].value, "3");
    assert_eq!(toks[0].start, 0);
    assert_eq!(toks[1].value, "+");
    assert_eq!(toks[1].start, 2);
    assert_eq!(toks[2].value, "foo");
    assert_eq!(toks[2].start, 4);
    assert_eq!(toks[3].value, "");
    assert_eq!(toks[3].start, 6);
}

#[test]
fn numbers_keep_their_decimal_point() {
    let mut lexer = Lexer::new(String::from("12.5"));
    let tok = lexer.get_next_token().expect("lexes");
    assert_eq!(tok.token, TokenType::Number);
    assert_eq!(tok.value, "12.5");
    assert_eq!(tok.start, 0);
}

#[test]
fn minus_is_always_an_operator_token() {
    let mut lexer = Lexer::new(String::from("3-2"));
    let toks = lexer.get_all_tokens().expect("lexes");
    let kinds: Vec<TokenType> = toks.iter().map(|t| t.token).collect();
    assert_eq!(
        kinds,
        vec![TokenType::Number, TokenType::Sub, TokenType::Number, TokenType::EOI]
    );
}

#[test]
fn every_operator_token() {
    let mut lexer = Lexer::new(String::from("+-*/^()="));
    let toks = lexer.get_all_tokens().expect("lexes");
    let kinds: Vec<TokenType> = toks.iter().map(|t| t.token).collect();
    assert_eq!(
        kinds,
        vec![
            TokenType::Add,
            TokenType::Sub,
            TokenType::Mult,
            TokenType::Div,
            TokenType::Exp,
            TokenType::LParen,
            TokenType::RParen,
            TokenType::Assign,
            TokenType::EOI,
        ]
    );
}

#[test]
fn lexer_rejects_an_unrecognized_character() {
    let mut lexer = Lexer::new(String::from("1 # 2"));
    let err = lexer.get_all_tokens().unwrap_err();
    assert_eq!(err, CalcError::InvalidCharacter { offset: 2, found: '#' });
}

#[test]
fn empty_text_yields_end_of_input_at_zero() {
    let mut lexer = Lexer::new(String::new());
    let toks = lexer.get_all_tokens().expect("lexes");
    assert_eq!(toks.len(), 1);
    assert_eq!(toks[0].token, TokenType::EOI);
    assert_eq!(toks[0].start, 0);
}

#[test]
fn token_new_builds_the_record() {
    let t = Token::new(String::from("42"), TokenType::Number, 7);
    assert_eq!(t.value, "42");
    assert_eq!(t.token, TokenType::Number);
    assert_eq!(t.start, 7);
}

#[test]
fn parser_builds_a_left_leaning_sum() {
    let mut parser = Parser::new(String::from("1 + 2 + 3")).expect("lexes");
    let node = parser.calc().expect("parses");
    let expected = Node::Expr(
        Box::new(Node::Expr(
            Box::new(Node::Number(String::from("1"))),
            Operator::Plus,
            Box::new(Node::Number(String::from("2"))),
        )),
        Operator::Plus,
        Box::new(Node::Number(String::from("3"))),
    );
    assert_eq!(node, expected);
}

#[test]
fn parser_gives_power_the_highest_precedence() {
    let mut parser = Parser::new(String::from("2 * 3 ^ 2")).expect("lexes");
    let node = parser.calc().expect("parses");
    let expected = Node::Expr(
        Box::new(Node::Number(String::from("2"))),
        Operator::Mult,
        Box::new(Node::Expr(
            Box::new(Node::Number(String::from("3"))),
            Operator::Pow,
            Box::new(Node::Number(String::from("2"))),
        )),
    );
    assert_eq!(node, expected);
}

#[test]
fn parser_folds_power_to_the_left() {
    let mut parser = Parser::new(String::from("2^3^2")).expect("lexes");
    let node = parser.calc().expect("parses");
    let expected = Node::Expr(
        Box::new(Node::Expr(
            Box::new(Node::Number(String::from("2"))),
            Operator::Pow,
            Box::new(Node::Number(String::from("3"))),
        )),
        Operator::Pow,
        Box::new(Node::Number(String::from("2"))),
    );
    assert_eq!(node, expected);
}

#[test]
fn parser_distinguishes_assignment_forms() {
    let mut p1 = Parser::new(String::from("x = 1")).expect("lexes");
    assert_eq!(
        p1.calc().expect("parses"),
        Node::AssignConst(String::from("x"), Box::new(Node::Number(String::from("1"))))
    );
    let mut p2 = Parser::new(String::from("f(x) = x")).expect("lexes");
    assert_eq!(
        p2.calc().expect("parses"),
        Node::AssignFunc(
            String::from("f"),
            String::from("x"),
            Box::new(Node::Const(String::from("x")))
        )
    );
    let mut p3 = Parser::new(String::from("f(x)")).expect("lexes");
    assert_eq!(
        p3.calc().expect("parses"),
        Node::Function(String::from("f"), Box::new(Node::Const(String::from("x"))))
    );
}

#[test]
fn parser_reports_the_unbalanced_parenthesis() {
    let mut parser = Parser::new(String::from("(1 + 2")).expect("lexes");
    let err = parser.calc().unwrap_err();
    assert_eq!(err, CalcError::Syntax { offset: 5, expected: TokenType::RParen });
}

#[test]
fn trailing_tokens_are_a_syntax_error() {
    let mut parser = Parser::new(String::from("1 2")).expect("lexes");
    let err = parser.calc().unwrap_err();
    assert_eq!(err, CalcError::Syntax { offset: 2, expected: TokenType::EOI });
}
