//! Tests of the individual pipeline stages: lexer, parser, evaluator and
//! value rendering.

use touch_grass::ast::Node;
use touch_grass::interpreter::{EvalError, Interpreter};
use touch_grass::lexer::Lexer;
use touch_grass::parser::Parser;
use touch_grass::token::Token;
use touch_grass::value::Value;

fn lex_all(source: &str) -> Vec<Token> {
    let mut lexer = Lexer::new(source.to_string());
    let mut tokens = Vec::new();
    loop {
        let t = lexer.next_token();
        if t == Token::EOF {
            break;
        }
        tokens.push(t);
    }
    tokens
}

#[test]
fn declaration_lexes_to_five_tokens() {
    let tokens = lex_all("touch grass number x as 5");
    assert_eq!(
        tokens,
        vec![
            Token::TouchGrass,
            Token::NumberType,
            Token::Identifier("x".to_string()),
            Token::As,
            Token::Number(5),
        ]
    );
}

#[test]
fn failed_compound_falls_back_to_identifier() {
    // The second word fails the compound match and is consumed silently.
    assert_eq!(lex_all("touch x"), vec![Token::Identifier("touch".to_string())]);
    assert_eq!(lex_all("fr x"), vec![Token::Identifier("fr".to_string())]);
}

#[test]
fn keywords_and_operators_lex_individually() {
    assert_eq!(
        lex_all("go outside if then instead while set to print as cap no_cap bugatti"),
        vec![
            Token::Go,
            Token::Outside,
            Token::If,
            Token::Then,
            Token::Instead,
            Token::While,
            Token::Assign,
            Token::To,
            Token::Print,
            Token::As,
            Token::Cap,
            Token::NoCap,
            Token::Bugatti,
        ]
    );
    assert_eq!(
        lex_all("> < = + -"),
        vec![
            Token::GreaterThan,
            Token::LessThan,
            Token::Equals,
            Token::Plus,
            Token::Minus,
        ]
    );
    assert_eq!(lex_all("fr fr"), vec![Token::FrFr]);
}

#[test]
fn illegal_character_is_consumed_as_a_token() {
    assert_eq!(lex_all("? 1"), vec![Token::Illegal('?'), Token::Number(1)]);
}

#[test]
fn eof_is_stable_past_the_end() {
    let mut lexer = Lexer::new("x".to_string());
    assert_eq!(lexer.next_token(), Token::Identifier("x".to_string()));
    assert_eq!(lexer.next_token(), Token::EOF);
    assert_eq!(lexer.next_token(), Token::EOF);
}

#[test]
fn parser_skips_an_unexpected_token_and_keeps_the_print() {
    let tokens = vec![
        Token::Illegal('?'),
        Token::Print,
        Token::String("ok".to_string()),
    ];
    let mut parser = Parser::new(tokens);
    let ast = parser.parse();
    match ast {
        Node::Program(stmts) => {
            assert_eq!(stmts.len(), 1);
            assert!(matches!(stmts[0], Node::Print(_)));
        }
        _ => panic!("expected a program node"),
    }
}

#[test]
fn parser_builds_a_left_leaning_subtraction_tree() {
    let tokens = vec![
        Token::Print,
        Token::Number(10),
        Token::Minus,
        Token::Number(3),
        Token::Minus,
        Token::Number(2),
    ];
    let mut parser = Parser::new(tokens);
    let ast = parser.parse();
    let stmts = match ast {
        Node::Program(stmts) => stmts,
        _ => panic!("expected a program node"),
    };
    assert_eq!(stmts.len(), 1);
    let expr = match &stmts[0] {
        Node::Print(e) => e,
        _ => panic!("expected a print node"),
    };
    // ((10 - 3) - 2): the right child of the outer operator is the literal 2.
    match &**expr {
        Node::BinaryOp { left, right, .. } => {
            assert!(matches!(&**right, Node::NumberLiteral(2)));
            assert!(matches!(&**left, Node::BinaryOp { .. }));
        }
        _ => panic!("expected a binary operator node"),
    }
}

#[test]
fn interpret_prints_through_a_hand_built_tree() {
    let mut interp = Interpreter::new();
    let node = Node::Print(Box::new(Node::NumberLiteral(7)));
    assert!(interp.interpret(node, 100).is_ok());
    assert_eq!(interp.output, vec!["7".to_string()]);
}

#[test]
fn interpret_keeps_bindings_made_before_a_failure() {
    let mut interp = Interpreter::new();
    let program = Node::Program(vec![
        Node::VarDeclaration {
            name: "x".to_string(),
            var_type: "number".to_string(),
            value: Box::new(Node::NumberLiteral(1)),
        },
        Node::Print(Box::new(Node::Identifier("y".to_string()))),
    ]);
    let result = interp.interpret(program, 100);
    assert_eq!(result, Err(EvalError::UnboundIdentifier("y".to_string())));
    assert_eq!(interp.env.len(), 1);
    assert_eq!(interp.env[0].0, "x".to_string());
    assert_eq!(interp.env[0].1, Value::Number(1));
}

#[test]
fn values_render_through_the_fixed_mapping() {
    assert_eq!(Value::Number(0).render(), "0".to_string());
    assert_eq!(Value::Number(-42).render(), "-42".to_string());
    assert_eq!(Value::Number(i64::MIN).render(), "-9223372036854775808".to_string());
    assert_eq!(Value::Number(i64::MAX).render(), "9223372036854775807".to_string());
    assert_eq!(Value::String("raw".to_string()).render(), "raw".to_string());
    assert_eq!(Value::Boolean(true).render(), "no cap".to_string());
    assert_eq!(Value::Boolean(false).render(), "cap".to_string());
    assert_eq!(Value::Null.render(), "bugatti".to_string());
}
