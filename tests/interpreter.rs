use std::collections::HashMap;
use tinylang::error::ErrorKind;
use tinylang::interpreter::Interpreter;
use tinylang::parser::Parser;
use tinylang::scanner::Scanner;
use tinylang::tokens::Value;

fn run_with(text: &str, input: Vec<&str>) -> (Result<Value, ErrorKind>, Interpreter) {
    let scanner = Scanner::new(text.to_string());
    let parser = Parser::new(scanner).unwrap();
    let lines = input.into_iter().map(|s| s.to_string()).collect();
    let mut interpreter = Interpreter::with_input(parser, lines);
    let r = interpreter.interpret();
    (r, interpreter)
}

fn run(text: &str) -> (Result<Value, ErrorKind>, Interpreter) {
    run_with(text, vec![])
}

fn num(interpreter: &Interpreter, name: &str) -> i32 {
    match interpreter.variable(name) {
        Some(Value::Number(n)) => n,
        other => panic!("{} is {:?}", name, other),
    }
}

#[test]
fn variables_and_arithmetic() {
    let text = "
        var a : int := 2;
        var b : int := 10 * a + 10;
        var c : int := a - - b;";

    let scanner = Scanner::new(text.to_string());
    let parser = Parser::new(scanner).unwrap();
    let mut interpreter = Interpreter::new(parser);
    interpreter.interpret().unwrap();

    let mut expected: HashMap<String, Value> = HashMap::new();
    expected.insert(String::from("a"), Value::Number(2));
    expected.insert(String::from("b"), Value::Number(30));
    expected.insert(String::from("c"), Value::Number(32));

    assert_eq!(interpreter.variable_count(), expected.len());
    for (name, value) in expected.iter() {
        assert_eq!(interpreter.variable(name), Some(value.clone()));
    }
}

#[test]
fn multiplication_binds_tighter_than_addition() {
    for (a, b) in [(3, 7), (0, 0), (9, 123), (5, 0)] {
        let text = format!("var x : int := {}; var y : int := {} * 10 + {};", a, b, a);
        let (r, it) = run(&text);
        assert_eq!(r, Ok(Value::Empty));
        assert_eq!(num(&it, "x"), a);
        assert_eq!(num(&it, "y"), b * 10 + a);
    }
}

#[test]
fn double_negation() {
    let (r, it) = run("var a : int := 2; var c : int := a - - a;");
    assert!(r.is_ok());
    assert_eq!(num(&it, "c"), 4);
}

#[test]
fn parentheses_and_division() {
    let (_, it) = run("var a : int := (1 + 2) * 3; var b : int := 0 - 7 / 2; var c : int := 20 / 3 / 2;");
    assert_eq!(num(&it, "a"), 9);
    assert_eq!(num(&it, "b"), -3);
    assert_eq!(num(&it, "c"), 3);
}

#[test]
fn string_concatenation() {
    let (r, it) = run("var s : string := \"ab\"; var t : string := \"cd\"; var u : string := s + t + s;");
    assert!(r.is_ok());
    assert_eq!(it.variable("u"), Some(Value::String("abcdab".to_string())));
}

#[test]
fn string_plus_integer_is_a_type_error() {
    let (r, _) = run("var s : string := \"ab\"; var n : int := 1; var u : string := s + n;");
    assert_eq!(r, Err(ErrorKind::RuntimeType));
    let (r, _) = run("var s : string := \"ab\"; var u : string := s - s;");
    assert_eq!(r, Err(ErrorKind::RuntimeType));
}

#[test]
fn for_loop_is_half_open() {
    let (r, it) = run("var s : int := 0; var i : int; for i in 0 .. 3 do s := s + i * 10; print i end for");
    assert!(r.is_ok());
    assert_eq!(num(&it, "s"), 30);
    assert_eq!(num(&it, "i"), 2);
    assert_eq!(it.output, vec!["0".to_string(), "1".to_string(), "2".to_string()]);
}

#[test]
fn empty_range_keeps_loop_variable() {
    let (r, it) = run("var i : int := 7; for i in 3 .. 3 do print i end for");
    assert!(r.is_ok());
    assert_eq!(num(&it, "i"), 7);
    assert!(it.output.is_empty());
}

#[test]
fn for_loop_variable_may_be_unbound() {
    let (r, it) = run("for k in 1 .. 3 do print k end for");
    assert!(r.is_ok());
    assert_eq!(num(&it, "k"), 2);
}

#[test]
fn for_loop_variable_must_not_be_a_string() {
    let (r, _) = run("var i : string; for i in 0 .. 2 do print i end for");
    assert_eq!(r, Err(ErrorKind::RuntimeType));
}

#[test]
fn if_else_runs_one_branch() {
    let (r, it) = run("var a : int := 0; var b : int := 0; if 2 < 1 do a := 1 else b := 1 end if");
    assert!(r.is_ok());
    assert_eq!(num(&it, "a"), 0);
    assert_eq!(num(&it, "b"), 1);
    let (_, it) = run("var a : int := 0; var b : int := 0; if 1 = 1 do a := 1 else b := 1 end if");
    assert_eq!(num(&it, "a"), 1);
    assert_eq!(num(&it, "b"), 0);
}

#[test]
fn boolean_operators() {
    let (r, it) = run(
        "var t : bool := 1 < 2; var f : bool := !t; var both : bool := t & f; var same : bool := t; var e : bool := 3 = 3",
    );
    assert!(r.is_ok());
    assert_eq!(it.variable("t"), Some(Value::Boolean(true)));
    assert_eq!(it.variable("f"), Some(Value::Boolean(false)));
    assert_eq!(it.variable("both"), Some(Value::Boolean(false)));
    assert_eq!(it.variable("same"), Some(Value::Boolean(true)));
    assert_eq!(it.variable("e"), Some(Value::Boolean(true)));
}

#[test]
fn non_boolean_condition_is_a_type_error() {
    let (r, _) = run("var a : int := 1; if a do print a end if");
    assert_eq!(r, Err(ErrorKind::RuntimeType));
}

#[test]
fn names_are_case_insensitive() {
    let (r, it) = run("var Count : int := 1; count := 5; COUNT := count + 1");
    assert!(r.is_ok());
    assert_eq!(it.variable_count(), 1);
    assert_eq!(num(&it, "count"), 6);
    assert_eq!(num(&it, "Count"), 6);
}

#[test]
fn undeclared_variable_is_an_error() {
    assert_eq!(run("print x").0, Err(ErrorKind::UndeclaredVariable));
    assert_eq!(run("x := 1").0, Err(ErrorKind::UndeclaredVariable));
    assert_eq!(run("var y : int := x + 1").0, Err(ErrorKind::UndeclaredVariable));
    assert_eq!(run_with("read x", vec!["1"]).0, Err(ErrorKind::UndeclaredVariable));
}

#[test]
fn declarations_without_initializer() {
    let (r, it) = run("var b : bool; var n : int; var s : string;");
    assert!(r.is_ok());
    assert_eq!(it.variable("b"), Some(Value::Boolean(true)));
    assert_eq!(it.variable("n"), Some(Value::Number(0)));
    assert_eq!(it.variable("s"), Some(Value::String(String::new())));
}

#[test]
fn prints_and_table_end_to_end() {
    let (r, it) = run("var a : int := 2; var b : int := 10 * a + 10; var c : int := a - - b; print b;");
    assert_eq!(r, Ok(Value::Empty));
    assert_eq!(it.output, vec!["30".to_string()]);
    assert_eq!(it.variable_count(), 3);
    assert_eq!(num(&it, "a"), 2);
    assert_eq!(num(&it, "b"), 30);
    assert_eq!(num(&it, "c"), 32);
}

#[test]
fn empty_for_body_is_no_op() {
    let (r, it) = run("for i in 0 .. 5 do end for");
    assert_eq!(r, Ok(Value::Empty));
    assert_eq!(it.variable("i"), None);
    assert_eq!(it.variable_count(), 0);
    assert!(it.output.is_empty());
}

#[test]
fn print_forms() {
    let (r, it) = run("var b : bool; var n : int := 0 - 45; print \"hi there\"; print b; print n");
    assert!(r.is_ok());
    assert_eq!(it.output, vec!["hi there".to_string(), "true".to_string(), "-45".to_string()]);
}

#[test]
fn read_statements() {
    let (r, it) = run_with(
        "var s : string; var n : int; read s; read n",
        vec!["hello\n", "-12\n"],
    );
    assert!(r.is_ok());
    assert_eq!(it.variable("s"), Some(Value::String("hello".to_string())));
    assert_eq!(it.variable("n"), Some(Value::String("-12".to_string())));
    let (r, _) = run_with("var n : int; read n", vec!["12a"]);
    assert_eq!(r, Err(ErrorKind::InputFormat));
    let (r, _) = run_with("var n : int; read n", vec!["2147483648"]);
    assert_eq!(r, Err(ErrorKind::InputFormat));
    let (r, _) = run_with("var n : int; read n", vec![]);
    assert_eq!(r, Err(ErrorKind::InputFormat));
    let (r, _) = run_with("var b : bool; read b", vec!["true"]);
    assert_eq!(r, Err(ErrorKind::RuntimeType));
}

#[test]
fn assignment_type_mismatch() {
    let (r, _) = run("var n : int; n := \"x\"");
    assert!(r.is_err());
    let (r, _) = run("var s : string; var n : int := 1; s := n");
    assert_eq!(r, Err(ErrorKind::RuntimeType));
}

#[test]
fn arithmetic_errors() {
    assert_eq!(run("var a : int := 1 / 0").0, Err(ErrorKind::Arithmetic));
    assert_eq!(run("var a : int := 2147483647 + 1").0, Err(ErrorKind::Arithmetic));
    assert_eq!(run("var a : int := 65536 * 65536").0, Err(ErrorKind::Arithmetic));
}

#[test]
fn comments_are_skipped() {
    let (r, it) = run("// first\nvar a : int := 1; /* block\n comment */ a := a + 1 // tail");
    assert!(r.is_ok());
    assert_eq!(num(&it, "a"), 2);
}

#[test]
fn syntax_errors() {
    assert_eq!(run("var a : int := 1 )").0, Err(ErrorKind::Syntax));
    assert_eq!(run("if 1 < 2 do print \"x\"").0, Err(ErrorKind::Syntax));
    assert_eq!(run("var a : real").0, Err(ErrorKind::Syntax));
    assert_eq!(run("print 1").0, Err(ErrorKind::Syntax));
    assert_eq!(run("var a : int := 1 var b : int").0, Err(ErrorKind::Syntax));
}

#[test]
fn lexical_errors() {
    assert_eq!(run("var a : int := 1 # 2").0, Err(ErrorKind::Lexical));
    assert_eq!(run("print \"open").0, Err(ErrorKind::Lexical));
    assert_eq!(run("var a : int := 1 . 2").0, Err(ErrorKind::Lexical));
    assert_eq!(run("var a : int := 99999999999").0, Err(ErrorKind::Lexical));
}

#[test]
fn declaration_without_initializer_needs_no_semicolon() {
    let (r, it) = run("var x : int");
    assert_eq!(r, Ok(Value::Empty));
    assert_eq!(it.variable("x"), Some(Value::Number(0)));
    let (r, it) = run("if 1 < 2 do var t : bool else var f : string end if");
    assert_eq!(r, Ok(Value::Empty));
    assert_eq!(it.variable("t"), Some(Value::Boolean(true)));
    assert_eq!(it.variable("f"), None);
}

#[test]
fn failure_keeps_what_was_done_before() {
    let (r, it) = run("var a : int := 1; print \"before\"; print a; var y : int := x + 1; print \"after\"");
    assert_eq!(r, Err(ErrorKind::UndeclaredVariable));
    assert_eq!(it.output, vec!["before".to_string(), "1".to_string()]);
    assert_eq!(it.variable_count(), 1);
    assert_eq!(it.variable("y"), None);
    let (r, it) = run("var a : int := 5; a := a / 0");
    assert_eq!(r, Err(ErrorKind::Arithmetic));
    assert_eq!(num(&it, "a"), 5);
    let (r, it) = run("var s : string := \"ab\"; var n : int := 1; s := s + n");
    assert_eq!(r, Err(ErrorKind::RuntimeType));
    assert_eq!(it.variable("s"), Some(Value::String("ab".to_string())));
    let (r, it) = run("var a : int := 0; if a do a := 1 else a := 2 end if");
    assert_eq!(r, Err(ErrorKind::RuntimeType));
    assert_eq!(num(&it, "a"), 0);
}
