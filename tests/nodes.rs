use tinylang::error::ErrorKind;
use tinylang::interpreter::Interpreter;
use tinylang::nodes::{
    Assign, BinOp, BoolExpr, DeclAssign, ForLoop, IfStatement, Node, Num, PrintStr, PrintVar,
    Program, Read, Str, Type, UnaryOp, Var, VarDecl,
};
use tinylang::parser::Parser;
use tinylang::scanner::Scanner;
use tinylang::tokens::{Token, TokenType, Value};

fn fresh(input: Vec<&str>) -> Interpreter {
    let parser = Parser::new(Scanner::new(String::new())).unwrap();
    Interpreter::with_input(parser, input.into_iter().map(|s| s.to_string()).collect())
}

fn name(n: &str) -> Var {
    Var::new(Token::new(TokenType::ID, Value::String(n.to_string())))
}

fn ty(t: TokenType, text: &str) -> Type {
    Type::new(Token::new(t, Value::String(text.to_string())))
}

fn num(n: i32) -> Node {
    Node::Num(Num::new(Token::new(TokenType::Integer, Value::Number(n))))
}

fn op(t: TokenType, c: char) -> Token {
    Token::new(t, Value::Char(c))
}

fn assign_token() -> Token {
    Token::new(TokenType::Assign, Value::String(":=".to_string()))
}

#[test]
fn constructors_keep_their_parts() {
    let v = name("Total");
    assert_eq!(v.value, Value::String("Total".to_string()));
    let b = BinOp::new(num(1), op(TokenType::Plus, '+'), num(2));
    assert_eq!(b.token.type_, TokenType::Plus);
    assert_eq!(b.op.value, Value::Char('+'));
    let u = UnaryOp::new(op(TokenType::Minus, '-'), num(3));
    assert_eq!(u.token.type_, TokenType::Minus);
    let p = Program::new();
    assert!(p.children.is_empty());
    let s = Str::new(Token::new(TokenType::StringLiteral, Value::String("hi".to_string())));
    assert_eq!(s.value, Value::String("hi".to_string()));
}

#[test]
fn hand_built_program_runs() {
    let decl = Node::VarDecl(Box::new(VarDecl::new(name("X"), ty(TokenType::Integer, "int"))));
    let product = Node::BinOp(Box::new(BinOp::new(num(7), op(TokenType::Mul, '*'), num(10))));
    let sum = Node::BinOp(Box::new(BinOp::new(product, op(TokenType::Plus, '+'), num(3))));
    let set = Node::Assign(Box::new(Assign::new(name("x"), assign_token(), sum)));
    let neg = Node::UnaryOp(Box::new(UnaryOp::new(op(TokenType::Minus, '-'), Node::Var(name("x")))));
    let init = Node::DeclAssign(Box::new(DeclAssign::new(
        name("y"),
        ty(TokenType::Integer, "int"),
        assign_token(),
        neg,
    )));
    let mut program = Program::new();
    program.children = vec![decl, set, init, Node::PrintVar(Box::new(PrintVar::new(name("Y"))))];
    let mut it = fresh(vec![]);
    assert_eq!(it.visit(&Node::Program(program)), Ok(Value::Empty));
    assert_eq!(it.variable("x"), Some(Value::Number(73)));
    assert_eq!(it.variable("y"), Some(Value::Number(-73)));
    assert_eq!(it.output, vec!["-73".to_string()]);
}

#[test]
fn hand_built_loop_with_empty_body_still_binds() {
    let lp = ForLoop::new(name("i"), num(0), num(2), vec![Node::NoOp]);
    let mut it = fresh(vec![]);
    assert_eq!(it.visit(&Node::ForLoop(Box::new(lp))), Ok(Value::Empty));
    assert_eq!(it.variable("i"), Some(Value::Number(1)));
}

#[test]
fn hand_built_conditional_and_read() {
    let cond = Node::BoolExpr(Box::new(BoolExpr::new(num(1), op(TokenType::LessThan, '<'), num(2))));
    let then_branch = vec![Node::Read(Box::new(Read::new(name("s"))))];
    let else_branch = vec![Node::PrintStr(Box::new(PrintStr::new(Value::String("no".to_string()))))];
    let decl = Node::VarDecl(Box::new(VarDecl::new(name("s"), ty(TokenType::Str, "string"))));
    let iff = Node::IfStatement(Box::new(IfStatement::new(cond, then_branch, else_branch)));
    let mut it = fresh(vec!["typed line\n"]);
    assert_eq!(it.visit(&decl), Ok(Value::Empty));
    assert_eq!(it.visit(&iff), Ok(Value::Empty));
    assert_eq!(it.variable("s"), Some(Value::String("typed line".to_string())));
    assert!(it.output.is_empty());
}

#[test]
fn malformed_trees_are_type_errors() {
    let bad_decl = Node::VarDecl(Box::new(VarDecl::new(name("z"), ty(TokenType::Plus, "+"))));
    let mut it = fresh(vec![]);
    assert_eq!(it.visit(&bad_decl), Err(ErrorKind::RuntimeType));
    let bad_print = Node::PrintStr(Box::new(PrintStr::new(Value::Number(1))));
    assert_eq!(it.visit(&bad_print), Err(ErrorKind::RuntimeType));
    let bad_op = Node::BinOp(Box::new(BinOp::new(num(1), op(TokenType::LessThan, '<'), num(2))));
    assert_eq!(it.visit(&bad_op), Err(ErrorKind::RuntimeType));
    let neg_min = Node::UnaryOp(Box::new(UnaryOp::new(
        op(TokenType::Minus, '-'),
        Node::BinOp(Box::new(BinOp::new(num(0 - 2147483647), op(TokenType::Minus, '-'), num(1)))),
    )));
    assert_eq!(it.visit(&neg_min), Err(ErrorKind::Arithmetic));
}
