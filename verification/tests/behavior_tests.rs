use monkey::ast::Node;
use monkey::eval::eval;
use monkey::lexer::Lexer;
use monkey::object::{Environment, Object};
use monkey::parser::Parser;

fn parse_program(input: &str) -> Node {
    let lexer = Lexer::new(input);
    let mut parser = Parser::new(lexer);
    let program = parser.parse_program();
    assert!(parser.errors.is_empty(), "parse errors: {:?}", parser.errors);
    program
}

fn run(input: &str) -> Object {
    let mut environment = Environment::new();
    eval(parse_program(input), &mut environment)
}

#[test]
fn test_closures() {
    let input = "let makeAdder = fn(x){ fn(y){ x + y }; }; let addTwo = makeAdder(2); addTwo(3);";
    assert_eq!(run(input), Object::Integer { value: 5 });
}

#[test]
fn test_closure_sees_later_binding() {
    // Capture is by scope reference, not by value snapshot: the
    // function sees a binding made in its defining scope after the
    // capture, which is what lets a recursive function call itself.
    let input = "let f = fn(n) { if (n < 1) { 0 } else { n + f(n - 1) } }; f(3);";
    assert_eq!(run(input), Object::Integer { value: 6 });
}

#[test]
fn test_division_by_zero_is_an_error() {
    // The division-by-zero gap is settled by promoting it to an
    // ordinary Error value in the evaluation error taxonomy.
    assert_eq!(
        run("5 / 0;"),
        Object::Error {
            value: "division by zero".to_string()
        }
    );
}

#[test]
fn test_arity_mismatch_zips_silently() {
    // Extra arguments are dropped; a missing argument leaves the
    // parameter unbound, which surfaces as an ordinary lookup error.
    assert_eq!(
        run("let f = fn(x, y) { x; }; f(1, 2, 3);"),
        Object::Integer { value: 1 }
    );
    assert_eq!(
        run("let f = fn(x, y) { y; }; f(1);"),
        Object::Error {
            value: "identifier not found: y".to_string()
        }
    );
}

#[test]
fn test_not_a_function_error() {
    assert_eq!(
        run("let x = 5; x(1);"),
        Object::Error {
            value: "not a function: INTEGER".to_string()
        }
    );
}

#[test]
fn test_shadowing_and_rebinding() {
    assert_eq!(run("let a = 1; let a = a + 1; a;"), Object::Integer { value: 2 });
    assert_eq!(
        run("let a = 1; let f = fn(a) { a; }; f(9);"),
        Object::Integer { value: 9 }
    );
    assert_eq!(
        run("let a = 1; let f = fn(a) { a; }; f(9); a;"),
        Object::Integer { value: 1 }
    );
}

#[test]
fn test_inspect_renderings() {
    assert_eq!(run("5;").inspect(), "5");
    assert_eq!(run("-7;").inspect(), "-7");
    assert_eq!(run("true;").inspect(), "true");
    assert_eq!(run("if (false) { 1 };").inspect(), "null");
    assert_eq!(run("foo;").inspect(), "ERROR: identifier not found: foo");
    assert_eq!(run("fn(x) { x; };").inspect(), "fn(x) {\nx;\n}");
    assert_eq!(run("5;").name(), "INTEGER");
    assert_eq!(run("true;").name(), "BOOLEAN");
    assert_eq!(run("if (false) { 1 };").name(), "NULL");
    assert_eq!(run("foo;").name(), "ERROR");
    assert_eq!(run("fn(x) { x; };").name(), "FUNCTION");
}

#[test]
fn test_round_trip_reparses_equal() {
    // Printing a parsed program and re-parsing the printed text gives
    // back a structurally equal tree, for the grammar forms whose
    // reconstruction carries all their structure.
    let inputs = vec![
        "foobar;",
        "5;",
        "true;",
        "false;",
        "(-a);",
        "((a + (b * c)) + (d / e));",
        "((5 > 4) == (3 < 4));",
        "(!(true == true));",
        "let x = (1 + 2);",
        "return (x + y);",
        "add(a, (b + c));",
        "f(a)(b);",
    ];
    for input in inputs {
        let first = parse_program(input);
        let printed = first.as_string();
        let second = parse_program(&printed);
        assert_eq!(first, second, "round trip changed the tree for {:?}", input);
        assert_eq!(printed, second.as_string());
    }
}

#[test]
fn test_environment_scoping() {
    let mut environment = Environment::new();
    assert_eq!(environment.get(0, "a"), None);
    environment.set(0, "a".to_string(), Object::Integer { value: 1 });
    assert_eq!(environment.get(0, "a"), Some(Object::Integer { value: 1 }));

    let inner = environment.new_enclosed(0);
    assert_eq!(environment.get(inner, "a"), Some(Object::Integer { value: 1 }));

    let replaced = environment.set(inner, "a".to_string(), Object::Integer { value: 2 });
    assert_eq!(replaced, None);
    assert_eq!(environment.get(inner, "a"), Some(Object::Integer { value: 2 }));
    assert_eq!(environment.get(0, "a"), Some(Object::Integer { value: 1 }));

    let prev = environment.set(0, "a".to_string(), Object::Integer { value: 3 });
    assert_eq!(prev, Some(Object::Integer { value: 1 }));
    assert_eq!(environment.get(0, "a"), Some(Object::Integer { value: 3 }));
}

#[test]
fn test_repl_style_session_keeps_bindings() {
    let mut environment = Environment::new();
    let first = eval(parse_program("let five = 5;"), &mut environment);
    assert_eq!(first, Object::Null);
    let second = eval(parse_program("five * 2;"), &mut environment);
    assert_eq!(second, Object::Integer { value: 10 });
}

#[test]
fn test_wrapping_arithmetic() {
    assert_eq!(
        run("9223372036854775807 + 1;"),
        Object::Integer {
            value: i64::MIN
        }
    );
}

#[test]
fn test_deep_nesting_evaluates() {
    assert_eq!(
        run("((((((1 + 2))))));"),
        Object::Integer { value: 3 }
    );
}
