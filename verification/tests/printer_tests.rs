use lox_lexer::expr::{Expr, LiteralValue};
use lox_lexer::token::{Token, TokenType};

fn operator(kind: TokenType, lexeme: &str) -> Token {
    Token { token_type: kind, lexeme: lexeme.to_string(), literal: None, line: 1 }
}

fn number(x: f32) -> Expr {
    Expr::Literal { value: LiteralValue::Number(x.to_string()) }
}

#[test]
fn printer_renders_example_tree() {
    let tree = Expr::Binary {
        left: Box::new(Expr::Unary {
            operator: operator(TokenType::MINUS, "-"),
            right: Box::new(number(123.0)),
        }),
        operator: operator(TokenType::STAR, "*"),
        right: Box::new(Expr::Grouping { expression: Box::new(number(45.67)) }),
    };
    assert_eq!(tree.to_string(), "(* (- 123) (group 45.67))");
}

#[test]
fn literal_keywords_render_canonically() {
    assert_eq!(LiteralValue::True.to_string(), "true");
    assert_eq!(LiteralValue::False.to_string(), "false");
    assert_eq!(LiteralValue::Nil.to_string(), "nil");
}

#[test]
fn string_literal_renders_unquoted() {
    assert_eq!(LiteralValue::StringValue("hi there".to_string()).to_string(), "hi there");
    assert_eq!(LiteralValue::StringValue(String::new()).to_string(), "");
}

#[test]
fn number_literal_renders_its_text() {
    assert_eq!(LiteralValue::Number("7".to_string()).to_string(), "7");
    assert_eq!(number(2.5).to_string(), "2.5");
}

#[test]
fn grouping_wraps_with_group_word() {
    let tree = Expr::Grouping {
        expression: Box::new(Expr::Literal { value: LiteralValue::Nil }),
    };
    assert_eq!(tree.to_string(), "(group nil)");
}

#[test]
fn unary_prints_operator_lexeme_then_operand() {
    let tree = Expr::Unary {
        operator: operator(TokenType::BANG, "!"),
        right: Box::new(Expr::Literal { value: LiteralValue::True }),
    };
    assert_eq!(tree.to_string(), "(! true)");
}

#[test]
fn binary_prints_prefix_form() {
    let tree = Expr::Binary {
        left: Box::new(number(1.0)),
        operator: operator(TokenType::PLUS, "+"),
        right: Box::new(number(2.0)),
    };
    assert_eq!(tree.to_string(), "(+ 1 2)");
}

#[test]
fn nested_trees_render_depth_first() {
    let inner = Expr::Binary {
        left: Box::new(number(1.0)),
        operator: operator(TokenType::PLUS, "+"),
        right: Box::new(number(2.0)),
    };
    let tree = Expr::Unary {
        operator: operator(TokenType::MINUS, "-"),
        right: Box::new(Expr::Grouping { expression: Box::new(inner) }),
    };
    assert_eq!(tree.to_string(), "(- (group (+ 1 2)))");
}
