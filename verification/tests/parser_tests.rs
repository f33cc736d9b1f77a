use monkey::ast::Node;
use monkey::lexer::Lexer;
use monkey::parser::{Parser, ParserError};
use monkey::tokens::{Token, TokenType};

fn parse(input: &str) -> (Vec<Node>, Node) {
    let lexer = Lexer::new(input);
    let mut parser = Parser::new(lexer);
    let program = parser.parse_program();
    assert!(!did_parser_fail(parser.errors));
    let statements = match &program {
        Node::Program { statements } => statements.clone(),
        _ => panic!("expected a program node"),
    };
    (statements, program)
}

#[test]
fn parser_test_let_statements() {
    let input = "
            let x = 5;
            let y = 10;
            let z = 838383;";

    let (statements, _) = parse(input);

    assert_eq!(3, statements.len());

    let expected = vec![("x", 5), ("y", 10), ("z", 838383)];
    let mut iter = statements.iter();
    for (name_text, int_value) in expected {
        let statement = iter.next().expect("should contain a statement");
        assert_eq!(String::from("let"), statement.token_literal());
        if let Node::LetStatement { name, value } = statement {
            assert_eq!(String::from(name_text), name.token_literal());
            assert_eq!(
                **value.as_ref().expect("let statement should carry its value"),
                Node::IntegerLiteral { value: int_value }
            );
        } else {
            panic!("expected let statement");
        }
    }
}

#[test]
fn parser_test_return_statements() {
    let input = "
            return 5;
            return 10;
            return 987235;";

    let (statements, _) = parse(input);

    assert_eq!(3, statements.len());

    let first_statement = &statements[0];
    assert_eq!(String::from("return"), first_statement.token_literal());
    if let Node::ReturnStatement { value } = first_statement {
        assert_eq!(
            **value.as_ref().expect("return statement should carry its value"),
            Node::IntegerLiteral { value: 5 }
        );
    } else {
        panic!("expected return statement");
    }
}

#[test]
fn test_identifier_expression() {
    let input = "foobar;";

    let (statements, _) = parse(input);
    assert_eq!(1, statements.len());

    let stmt = statements[0].clone();
    let ident = Node::ExpressionStatement {
        expression: Some(Box::new(Node::Identifier {
            value: Token::new(TokenType::Ident, "foobar".to_string()),
        })),
    };
    assert_eq!(stmt, ident);
    assert_eq!(stmt.token_literal(), "foobar".to_string());
}

#[test]
fn test_integer_literal_expression() {
    let input = "5;";

    let (statements, _) = parse(input);
    assert_eq!(1, statements.len());

    let stmt = statements[0].clone();
    let ident = Node::ExpressionStatement {
        expression: Some(Box::new(Node::IntegerLiteral { value: 5 })),
    };
    assert_eq!(stmt, ident);
    assert_eq!(stmt.token_literal(), "5".to_string());
}

#[test]
fn test_prefix_expression() {
    let input = "
                !5;
                -15;
                !true;
                !false;";

    let (statements, _) = parse(input);
    assert_eq!(4, statements.len());

    let mut iter = statements.into_iter();
    let stmt = iter.next().unwrap();
    let ident = Node::ExpressionStatement {
        expression: Some(Box::new(Node::PrefixExpression {
            operator: "!".to_string(),
            right: Box::new(Node::IntegerLiteral { value: 5 }),
        })),
    };
    assert_eq!(stmt, ident);
    assert_eq!(stmt.token_literal(), "!".to_string());

    let stmt = iter.next().unwrap();
    let ident = Node::ExpressionStatement {
        expression: Some(Box::new(Node::PrefixExpression {
            operator: "-".to_string(),
            right: Box::new(Node::IntegerLiteral { value: 15 }),
        })),
    };
    assert_eq!(stmt, ident);
    assert_eq!(stmt.token_literal(), "-".to_string());

    let stmt = iter.next().unwrap();
    let ident = Node::ExpressionStatement {
        expression: Some(Box::new(Node::PrefixExpression {
            operator: "!".to_string(),
            right: Box::new(Node::Boolean { value: true }),
        })),
    };
    assert_eq!(stmt, ident);
    assert_eq!(stmt.token_literal(), "!".to_string());

    let stmt = iter.next().unwrap();
    let ident = Node::ExpressionStatement {
        expression: Some(Box::new(Node::PrefixExpression {
            operator: "!".to_string(),
            right: Box::new(Node::Boolean { value: false }),
        })),
    };
    assert_eq!(stmt, ident);
    assert_eq!(stmt.token_literal(), "!".to_string());
}

#[test]
fn test_infix_expression() {
    let input = "
                5 + 5;
                5 - 5;
                5 * 5;
                5 / 5;
                5 > 5;
                5 < 5;
                5 == 5;
                5 != 5;
                true == true;
                true != false;
                false == false;";

    let (statements, _) = parse(input);
    assert_eq!(11, statements.len());

    let int_cases = vec!["+", "-", "*", "/", ">", "<", "==", "!="];
    let mut iter = statements.into_iter();
    for op in int_cases {
        let stmt = iter.next().unwrap();
        let ident = Node::ExpressionStatement {
            expression: Some(Box::new(Node::InfixExpression {
                left: Box::new(Node::IntegerLiteral { value: 5 }),
                operator: op.to_string(),
                right: Box::new(Node::IntegerLiteral { value: 5 }),
            })),
        };
        assert_eq!(stmt, ident);
        assert_eq!(stmt.token_literal(), op.to_string());
    }

    let bool_cases = vec![(true, "==", true), (true, "!=", false), (false, "==", false)];
    for (l, op, r) in bool_cases {
        let stmt = iter.next().unwrap();
        let ident = Node::ExpressionStatement {
            expression: Some(Box::new(Node::InfixExpression {
                left: Box::new(Node::Boolean { value: l }),
                operator: op.to_string(),
                right: Box::new(Node::Boolean { value: r }),
            })),
        };
        assert_eq!(stmt, ident);
        assert_eq!(stmt.token_literal(), op.to_string());
    }
}

#[test]
fn test_boolean_expression() {
    let input = "true;
            false;";

    let (statements, _) = parse(input);
    assert_eq!(2, statements.len());

    let mut iter = statements.iter();
    let stmt = iter.next().unwrap();
    let ident = Node::ExpressionStatement {
        expression: Some(Box::new(Node::Boolean { value: true })),
    };
    assert_eq!(*stmt, ident);
    assert_eq!(stmt.token_literal(), "true".to_string());

    let stmt = iter.next().unwrap();
    let ident = Node::ExpressionStatement {
        expression: Some(Box::new(Node::Boolean { value: false })),
    };
    assert_eq!(*stmt, ident);
    assert_eq!(stmt.token_literal(), "false".to_string());
}

#[test]
fn test_if_expression() {
    let input = "if x < y { x };";

    let (statements, _) = parse(input);
    assert_eq!(1, statements.len());

    let stmt = statements[0].clone();
    let ident = Node::ExpressionStatement {
        expression: Some(Box::new(Node::IfExpression {
            condition: Box::new(Node::InfixExpression {
                left: Box::new(Node::Identifier {
                    value: Token::new(TokenType::Ident, "x".to_string()),
                }),
                operator: "<".to_string(),
                right: Box::new(Node::Identifier {
                    value: Token::new(TokenType::Ident, "y".to_string()),
                }),
            }),
            consequence: Box::new(Node::BlockStatement {
                statements: vec![Node::ExpressionStatement {
                    expression: Some(Box::new(Node::Identifier {
                        value: Token::new(TokenType::Ident, "x".to_string()),
                    })),
                }],
            }),
            alternative: None,
        })),
    };
    assert_eq!(stmt, ident);
    assert_eq!(stmt.token_literal(), "if".to_string());
}

#[test]
fn test_if_else_expression() {
    let input = "if x < y { x } else { y };";

    let (statements, _) = parse(input);
    assert_eq!(1, statements.len());

    let stmt = statements[0].clone();
    let ident = Node::ExpressionStatement {
        expression: Some(Box::new(Node::IfExpression {
            condition: Box::new(Node::InfixExpression {
                left: Box::new(Node::Identifier {
                    value: Token::new(TokenType::Ident, "x".to_string()),
                }),
                operator: "<".to_string(),
                right: Box::new(Node::Identifier {
                    value: Token::new(TokenType::Ident, "y".to_string()),
                }),
            }),
            consequence: Box::new(Node::BlockStatement {
                statements: vec![Node::ExpressionStatement {
                    expression: Some(Box::new(Node::Identifier {
                        value: Token::new(TokenType::Ident, "x".to_string()),
                    })),
                }],
            }),
            alternative: Some(Box::new(Node::BlockStatement {
                statements: vec![Node::ExpressionStatement {
                    expression: Some(Box::new(Node::Identifier {
                        value: Token::new(TokenType::Ident, "y".to_string()),
                    })),
                }],
            })),
        })),
    };
    assert_eq!(stmt, ident);
    assert_eq!(stmt.token_literal(), "if".to_string());
}

#[test]
fn test_function_literal_parsing() {
    let input = "fn(x, y) { x + y; };";

    let (statements, _) = parse(input);
    assert_eq!(1, statements.len());

    let stmt = statements[0].clone();
    let ident = Node::ExpressionStatement {
        expression: Some(Box::new(Node::FunctionLiteral {
            parameters: vec![
                Node::Identifier {
                    value: Token::new(TokenType::Ident, "x".to_string()),
                },
                Node::Identifier {
                    value: Token::new(TokenType::Ident, "y".to_string()),
                },
            ],
            body: Box::new(Node::BlockStatement {
                statements: vec![Node::ExpressionStatement {
                    expression: Some(Box::new(Node::InfixExpression {
                        left: Box::new(Node::Identifier {
                            value: Token::new(TokenType::Ident, "x".to_string()),
                        }),
                        operator: "+".to_string(),
                        right: Box::new(Node::Identifier {
                            value: Token::new(TokenType::Ident, "y".to_string()),
                        }),
                    })),
                }],
            }),
        })),
    };
    assert_eq!(stmt, ident);
    assert_eq!(stmt.token_literal(), "fn".to_string());
}

#[test]
fn test_function_parameter_parsing() {
    let table = vec![
        ("fn() {};", vec![]),
        ("fn(x) {};", vec!["x"]),
        ("fn(x, y) {};", vec!["x", "y"]),
    ];

    table.iter().for_each(|(input, output)| {
        let (statements, _) = parse(input);

        match &statements[0] {
            Node::ExpressionStatement { expression } => {
                match *expression
                    .clone()
                    .expect("found empty expression statement")
                {
                    Node::FunctionLiteral { parameters, .. } => {
                        assert_eq!(parameters.len(), output.len());
                        parameters.iter().zip(output.iter()).for_each(|(p, o)| {
                            assert_eq!(&p.token_literal(), *o);
                        });
                    }
                    _ => panic!("Unexpected node type"),
                }
            }
            _ => panic!("Unexpected node type"),
        }
    });
}

#[test]
fn test_operator_precedence_parsing() {
    let table = vec![
        ("-a * b;", "((-a) * b);"),
        ("!-a;", "(!(-a));"),
        ("a + b + c;", "((a + b) + c);"),
        ("a + b - c;", "((a + b) - c);"),
        ("a * b * c;", "((a * b) * c);"),
        ("a * b / c;", "((a * b) / c);"),
        ("a + b / c;", "(a + (b / c));"),
        ("a + b * c + d / e - f;", "(((a + (b * c)) + (d / e)) - f);"),
        ("3 + 4; -5 * 5;", "(3 + 4);((-5) * 5);"),
        ("5 > 4 == 3 < 4;", "((5 > 4) == (3 < 4));"),
        ("5 < 4 != 3 > 4;", "((5 < 4) != (3 > 4));"),
        (
            "3 + 4 * 5 == 3 * 1 + 4 * 5;",
            "((3 + (4 * 5)) == ((3 * 1) + (4 * 5)));",
        ),
        (
            "3 + 4 * 5 == 3 * 1 + 4 * 5;",
            "((3 + (4 * 5)) == ((3 * 1) + (4 * 5)));",
        ),
        ("true;", "true;"),
        ("false;", "false;"),
        ("3 > 5 == false;", "((3 > 5) == false);"),
        ("3 < 5 == true;", "((3 < 5) == true);"),
        ("1 + (2 + 3) + 4;", "((1 + (2 + 3)) + 4);"),
        ("(5 + 5) * 2;", "((5 + 5) * 2);"),
        ("2 / (5 + 5);", "(2 / (5 + 5));"),
        ("-(5 + 5);", "(-(5 + 5));"),
        ("!(true == true);", "(!(true == true));"),
    ];

    table.iter().for_each(|(input, output)| {
        let (_, program) = parse(input);
        assert_eq!(&program.as_string(), *output);
    });
}

#[test]
fn test_parse_string() {
    let input = "
            !5 * 5 + 5 * 5;";

    let lexer = Lexer::new(input);
    let mut parser = Parser::new(lexer);

    let program = parser.parse_program();
    assert!(!did_parser_fail(parser.errors));

    println!("{}", program.as_string());
}

#[test]
fn test_parser_errors() {
    let table = vec![
        ("let = 5;", ParserError::IdentExpected),
        ("let x 5;", ParserError::AssignExpected),
        ("(5;", ParserError::GroupExpressionParsingFailed),
        ("if (x) 5;", ParserError::IncorrectIfStatement),
        ("fn x;", ParserError::IncorrectFunctionDeclaration),
        (";", ParserError::TokenUnrecognized),
        ("99999999999999999999;", ParserError::IntegerParsingFailed),
    ];

    table.iter().for_each(|(input, expected)| {
        let lexer = Lexer::new(input);
        let mut parser = Parser::new(lexer);
        let _ = parser.parse_program();
        assert_eq!(parser.errors.first(), Some(expected));
    });
}

#[test]
fn test_error_recovery_continues() {
    let input = "let = 1; let a = 2; a;";
    let lexer = Lexer::new(input);
    let mut parser = Parser::new(lexer);
    let program = parser.parse_program();
    assert_eq!(parser.errors, vec![ParserError::IdentExpected]);
    if let Node::Program { statements } = program {
        assert_eq!(statements.len(), 2);
    } else {
        panic!("expected a program node");
    }
}

fn did_parser_fail(errors: Vec<ParserError>) -> bool {
    if errors.len() == 0 {
        false
    } else {
        errors.iter().for_each(|e| {
            println!("{:?}", e);
        });

        true
    }
}
