use monkey::ast::Node;
use monkey::tokens::{Token, TokenType};

#[test]
fn test_string() {
    let program = Node::Program {
        statements: vec![Node::LetStatement {
            name: Box::new(Node::Identifier {
                value: Token::new(TokenType::Ident, "my_var".to_string()),
            }),
            value: Some(Box::new(Node::Identifier {
                value: Token::new(TokenType::Ident, "another_var".to_string()),
            })),
        }],
    };

    assert_eq!(program.as_string(), "let my_var = another_var;".to_owned());
}

#[test]
fn test_integer_rendering() {
    assert_eq!(Node::IntegerLiteral { value: 1234 }.as_string(), "1234");
    assert_eq!(Node::IntegerLiteral { value: 0 }.as_string(), "0");
    assert_eq!(Node::IntegerLiteral { value: -7 }.as_string(), "-7");
    assert_eq!(
        Node::IntegerLiteral { value: i64::MIN }.as_string(),
        "-9223372036854775808"
    );
}

#[test]
fn test_token_literals() {
    assert_eq!(Node::Boolean { value: true }.token_literal(), "true");
    assert_eq!(
        Node::Program { statements: vec![] }.token_literal(),
        "program"
    );
    assert_eq!(
        Node::BlockStatement { statements: vec![] }.token_literal(),
        "{"
    );
    assert_eq!(
        Node::ReturnStatement { value: None }.token_literal(),
        "return"
    );
}
