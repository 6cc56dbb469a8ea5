use vstd::prelude::*;
use crate::tokens::{Token, Value};

verus! {

/// A node of the syntax tree; each node owns its children.
#[derive(Debug)]
pub enum Node {
    IfStatement(Box<IfStatement>),
    ForLoop(Box<ForLoop>),
    BinOp(Box<BinOp>),
    Num(Num),
    Str(Str),
    UnaryOp(Box<UnaryOp>),
    Program(Program),
    Assign(Box<Assign>),
    VarDecl(Box<VarDecl>),
    BoolExpr(Box<BoolExpr>),
    DeclAssign(Box<DeclAssign>),
    Var(Var),
    PrintVar(Box<PrintVar>),
    PrintStr(Box<PrintStr>),
    Read(Box<Read>),
    NoOp,
}

/// A reference to a variable by name; `value` holds the name as written.
#[derive(Debug)]
pub struct Var {
    pub token: Token,
    pub value: Value,
}

impl Var {
    pub fn new(token: Token) -> (r: Var)
        ensures
            r.token == token,
            r.value@ == token.value@,
    {
        Var { value: token.value.duplicate(), token }
    }
}

/// The declared type of a variable: the `int`, `string` or `bool` keyword token.
#[derive(Debug)]
pub struct Type {
    pub token: Token,
    pub value: Value,
}

impl Type {
    pub fn new(token: Token) -> (r: Type)
        ensures
            r.token == token,
            r.value@ == token.value@,
    {
        Type { value: token.value.duplicate(), token }
    }
}

/// A declaration without initializer.
#[derive(Debug)]
pub struct VarDecl {
    pub var_node: Var,
    pub type_node: Type,
}

impl VarDecl {
    pub fn new(var_node: Var, type_node: Type) -> (r: VarDecl)
        ensures
            r.var_node == var_node,
            r.type_node == type_node,
    {
        VarDecl { var_node, type_node }
    }
}

/// Reads one line of input into a variable.
#[derive(Debug)]
pub struct Read {
    pub var_node: Var,
}

impl Read {
    pub fn new(var_node: Var) -> (r: Read)
        ensures
            r.var_node == var_node,
    {
        Read { var_node }
    }
}

/// Prints a string literal.
#[derive(Debug)]
pub struct PrintStr {
    pub value: Value,
}

impl PrintStr {
    pub fn new(value: Value) -> (r: PrintStr)
        ensures
            r.value == value,
    {
        PrintStr { value }
    }
}

/// Prints the current value of a variable.
#[derive(Debug)]
pub struct PrintVar {
    pub var_node: Var,
}

impl PrintVar {
    pub fn new(var_node: Var) -> (r: PrintVar)
        ensures
            r.var_node == var_node,
    {
        PrintVar { var_node }
    }
}

/// A boolean expression: `op` is `<`, `=`, `&`, `!` (with `left` a `NoOp`), or `;` for a bare expression that must already be boolean.
#[derive(Debug)]
pub struct BoolExpr {
    pub left: Node,
    pub op: Token,
    pub right: Node,
}

impl BoolExpr {
    pub fn new(left: Node, op: Token, right: Node) -> (r: BoolExpr)
        ensures
            r.left == left,
            r.op == op,
            r.right == right,
    {
        BoolExpr { left, op, right }
    }
}

/// An assignment to a declared variable.
#[derive(Debug)]
pub struct Assign {
    pub left: Var,
    pub token: Token,
    pub op: Token,
    pub right: Node,
}

impl Assign {
    pub fn new(left: Var, op: Token, right: Node) -> (r: Assign)
        ensures
            r.left == left,
            r.op == op,
            r.token.type_ == op.type_,
            r.token.value@ == op.value@,
            r.right == right,
    {
        Assign { left, token: op.duplicate(), op, right }
    }
}

/// A declaration with an initializer.
#[derive(Debug)]
pub struct DeclAssign {
    pub left: Var,
    pub token: Token,
    pub type_node: Type,
    pub op: Token,
    pub right: Node,
}

impl DeclAssign {
    pub fn new(left: Var, type_node: Type, op: Token, right: Node) -> (r: DeclAssign)
        ensures
            r.left == left,
            r.type_node == type_node,
            r.op == op,
            r.token.type_ == op.type_,
            r.token.value@ == op.value@,
            r.right == right,
    {
        DeclAssign { left, type_node, token: op.duplicate(), op, right }
    }
}

/// The root: the statements of the program in order.
#[derive(Debug)]
pub struct Program {
    pub children: Vec<Node>,
}

impl Program {
    pub fn new() -> (r: Program)
        ensures
            r.children@.len() == 0,
    {
        Program { children: Vec::new() }
    }
}

/// A conditional with its two statement lists.
#[derive(Debug)]
pub struct IfStatement {
    pub bool_expr: Node,
    pub statements: Vec<Node>,
    pub else_statements: Vec<Node>,
}

impl IfStatement {
    pub fn new(bool_expr: Node, statements: Vec<Node>, else_statements: Vec<Node>) -> (r: IfStatement)
        ensures
            r.bool_expr == bool_expr,
            r.statements == statements,
            r.else_statements == else_statements,
    {
        IfStatement { bool_expr, statements, else_statements }
    }
}

/// A counting loop over the half-open range from `start` to `end`.
#[derive(Debug)]
pub struct ForLoop {
    pub var_node: Var,
    pub start: Node,
    pub end: Node,
    pub statements: Vec<Node>,
}

impl ForLoop {
    pub fn new(var_node: Var, start: Node, end: Node, statements: Vec<Node>) -> (r: ForLoop)
        ensures
            r.var_node == var_node,
            r.start == start,
            r.end == end,
            r.statements == statements,
    {
        ForLoop { var_node, start, end, statements }
    }
}

/// A binary arithmetic or concatenation expression.
#[derive(Debug)]
pub struct BinOp {
    pub left: Node,
    pub token: Token,
    pub op: Token,
    pub right: Node,
}

impl BinOp {
    pub fn new(left: Node, op: Token, right: Node) -> (r: BinOp)
        ensures
            r.left == left,
            r.op == op,
            r.token.type_ == op.type_,
            r.token.value@ == op.value@,
            r.right == right,
    {
        BinOp { left, token: op.duplicate(), op, right }
    }
}

/// A string literal.
#[derive(Debug)]
pub struct Str {
    pub token: Token,
    pub value: Value,
}

impl Str {
    pub fn new(token: Token) -> (r: Str)
        ensures
            r.token == token,
            r.value@ == token.value@,
    {
        Str { value: token.value.duplicate(), token }
    }
}

/// An integer literal.
#[derive(Debug)]
pub struct Num {
    pub token: Token,
    pub value: Value,
}

impl Num {
    pub fn new(token: Token) -> (r: Num)
        ensures
            r.token == token,
            r.value@ == token.value@,
    {
        Num { value: token.value.duplicate(), token }
    }
}

/// A sign applied to an operand.
#[derive(Debug)]
pub struct UnaryOp {
    pub token: Token,
    pub op: Token,
    pub expr: Node,
}

impl UnaryOp {
    pub fn new(op: Token, expr: Node) -> (r: UnaryOp)
        ensures
            r.op == op,
            r.token.type_ == op.type_,
            r.token.value@ == op.value@,
            r.expr == expr,
    {
        UnaryOp { token: op.duplicate(), op, expr }
    }
}

} // verus!
