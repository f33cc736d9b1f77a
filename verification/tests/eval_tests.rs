use monkey::eval::eval;
use monkey::lexer::Lexer;
use monkey::object::{Environment, Object};
use monkey::parser::Parser;

fn test_eval(input: String) -> Object {
    let l = Lexer::new(&input);
    let mut p = Parser::new(l);
    let mut environment = Environment::new();
    eval(p.parse_program(), &mut environment)
}

#[test]
fn test_eval_integer_expression() {
    let table = vec![
        ("5;".to_string(), 5),
        ("10;".to_string(), 10),
        ("-5;".to_string(), -5),
        ("-10;".to_string(), -10),
        ("5 + 5 + 5 + 5 - 10;".to_string(), 10),
        ("2 * 2 * 2 * 2 * 2;".to_string(), 32),
        ("-50 + 100 + -50;".to_string(), 0),
        ("5 * 2 + 10;".to_string(), 20),
        ("5 + 2 * 10;".to_string(), 25),
        ("20 + 2 * -10;".to_string(), 0),
        ("50 / 2 * 2 + 10;".to_string(), 60),
        ("2 * (5 + 10);".to_string(), 30),
        ("3 * 3 * 3 + 10;".to_string(), 37),
        ("3 * (3 * 3) + 10;".to_string(), 37),
        ("(5 + 10 * 2 + 15 / 3) * 2 + -10;".to_string(), 50),
    ];

    table.iter().for_each(|(input, output)| {
        let object = test_eval(input.to_string());
        match object {
            Object::Integer { value } => assert_eq!(value, *output),
            _ => panic!("Unexpected object"),
        }
    });
}

#[test]
fn test_eval_boolean_expression() {
    let table = vec![
        ("true;".to_string(), true),
        ("false;".to_string(), false),
        ("1 < 2;".to_string(), true),
        ("1 > 2;".to_string(), false),
        ("1 < 1;".to_string(), false),
        ("1 > 1;".to_string(), false),
        ("1 == 1;".to_string(), true),
        ("1 != 1;".to_string(), false),
        ("1 == 2;".to_string(), false),
        ("1 != 2;".to_string(), true),
        ("true == true;".to_string(), true),
        ("false == false;".to_string(), true),
        ("true == false;".to_string(), false),
        ("true != false;".to_string(), true),
        ("false != true;".to_string(), true),
        ("(1 < 2) == true;".to_string(), true),
        ("(1 < 2) == false;".to_string(), false),
        ("(1 > 2) == true;".to_string(), false),
        ("(1 > 2) == false;".to_string(), true),
    ];

    table.iter().for_each(|(input, output)| {
        let object = test_eval(input.to_string());
        match object {
            Object::Boolean { value } => assert_eq!(value, *output),
            _ => panic!("Unexpected object, {:?}", object),
        }
    });
}

#[test]
fn test_bang_operator() {
    let table = vec![
        ("!true;".to_string(), false),
        ("!false;".to_string(), true),
        ("!5;".to_string(), false),
        ("!!true;".to_string(), true),
        ("!!false;".to_string(), false),
        ("!!5;".to_string(), true),
    ];

    table.iter().for_each(|(input, output)| {
        let object = test_eval(input.to_string());
        match object {
            Object::Boolean { value } => assert_eq!(value, *output),
            _ => panic!("Unexpected object"),
        }
    });
}

#[test]
fn test_if_else_expressions() {
    let table = vec![
        (
            "if (true) { 10 };".to_string(),
            Object::Integer { value: 10 },
        ),
        ("if (false) { 10 };".to_string(), Object::Null),
        ("if (1) { 10 };".to_string(), Object::Integer { value: 10 }),
        (
            "if (1 < 2) { 10 };".to_string(),
            Object::Integer { value: 10 },
        ),
        ("if (1 > 2) { 10 };".to_string(), Object::Null),
        (
            "if (1 > 2) { 10 } else { 20 };".to_string(),
            Object::Integer { value: 20 },
        ),
        (
            "if (1 < 2) { 10 } else { 20 };".to_string(),
            Object::Integer { value: 10 },
        ),
    ];

    table.iter().for_each(|(input, output)| {
        let object = test_eval(input.to_string());
        assert_eq!(object, *output);
    });
}

#[test]
fn eval_test_return_statements() {
    let table = vec![
        ("return 10;".to_string(), 10),
        ("return 10; 9;".to_string(), 10),
        ("return 2 * 5; 9;".to_string(), 10),
        ("9; return 2 * 5; 9;".to_string(), 10),
        (
            "if (10 > 1) { if (10 > 1) { return 10; } return 1; };".to_string(),
            10,
        ),
    ];

    table.iter().for_each(|(input, output)| {
        let object = test_eval(input.to_string());
        match object {
            Object::Integer { value } => assert_eq!(value, *output),
            _ => panic!("Unexpected object"),
        }
    });
}

#[test]
fn test_error_handling() {
    let table = vec![
        ("5 + true;".to_string(), "type mismatch: INTEGER + BOOLEAN"),
        (
            "5 + true; 5;".to_string(),
            "type mismatch: INTEGER + BOOLEAN",
        ),
        ("-true;".to_string(), "unknown operator: -BOOLEAN"),
        (
            "true + false;".to_string(),
            "unknown operator: BOOLEAN + BOOLEAN",
        ),
        (
            "5; true + false; 5;".to_string(),
            "unknown operator: BOOLEAN + BOOLEAN",
        ),
        (
            "if (10 > 1) { true + false; };".to_string(),
            "unknown operator: BOOLEAN + BOOLEAN",
        ),
        (
            "if (10 > 1) { if (10 > 1) { return true + false; } return 1; };".to_string(),
            "unknown operator: BOOLEAN + BOOLEAN",
        ),
        ("foobar;".to_string(), "identifier not found: foobar"),
    ];

    table.iter().for_each(|(input, output)| {
        let object = test_eval(input.to_string());
        match object {
            Object::Error { value } => assert_eq!(value, *output),
            _ => panic!("Unexpected object"),
        }
    });
}

#[test]
fn eval_test_let_statements() {
    let table = vec![
        ("let a = 5; a;".to_string(), 5),
        ("let a = 5 * 5; a;".to_string(), 25),
        ("let a = 5; let b = a; b;".to_string(), 5),
        (
            "let a = 5; let b = a; let c = a + b + 5; c;".to_string(),
            15,
        ),
    ];

    table.iter().for_each(|(input, output)| {
        let object = test_eval(input.to_string());
        match object {
            Object::Integer { value } => assert_eq!(value, *output),
            _ => panic!("Unexpected object"),
        }
    });
}

#[test]
fn test_function_object() {
    let input = String::from("fn(x) { x + 2; };");

    let evaluated = test_eval(input);
    match evaluated {
        Object::Function {
            parameters, body, ..
        } => {
            assert_eq!(1, parameters.len());
            assert_eq!("x", parameters[0].as_string());
            assert_eq!("(x + 2);", body.as_string());
        }
        _ => {
            println!("{:?}", evaluated);
            panic!("Unexpected object");
        }
    };
}

#[test]
fn test_function_application() {
    let table = vec![
        ("let identity = fn(x) { x; }; identity(5);".to_string(), 5),
        (
            "let identity = fn(x) { return x; }; identity(5);".to_string(),
            5,
        ),
        ("let double = fn(x) { x * 2; }; double(5);".to_string(), 10),
        ("let add = fn(x, y) { x + y; }; add(5, 5);".to_string(), 10),
        (
            "let add = fn(x, y) { x + y; }; add(5 + 5, add(5, 5));".to_string(),
            20,
        ),
        ("fn(x) { x; }(5)".to_string(), 5),
    ];

    table.iter().for_each(|(input, output)| {
        let object = test_eval(input.to_string());
        match object {
            Object::Integer { value } => assert_eq!(value, *output),
            _ => panic!("Unexpected object"),
        }
    });
}
