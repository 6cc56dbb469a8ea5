use vstd::prelude::*;
use vstd::hash_map::StringHashMap;
use vstd::string::StringExecFns;
use crate::error::ErrorKind;
use crate::nodes::{
    Assign, BinOp, BoolExpr, DeclAssign, ForLoop, IfStatement, Node, Num, PrintStr, PrintVar,
    Program, Read, Str, UnaryOp, Var, VarDecl,
};
use crate::grammar::{lemma_nodes_view_index, node_view, nodes_view, parse_program, SNode};
use crate::parser::Parser;
use crate::scanner::{digits_value, is_digit, lemma_digits_value_nonneg};
use crate::text::{chars_of, push_char, string_of};
use crate::tokens::{TokenType, Val, Value};

verus! {

/// What a run can observe and change: the variable table, the input lines not yet read,
/// and the lines printed so far.
pub struct RunState {
    pub env: Map<Seq<char>, Val>,
    pub input: Seq<Seq<char>>,
    pub output: Seq<Seq<char>>,
}

impl RunState {
    pub open spec fn set(self, key: Seq<char>, v: Val) -> RunState {
        RunState { env: self.env.insert(key, v), ..self }
    }

    pub open spec fn emit(self, line: Seq<char>) -> RunState {
        RunState { output: self.output.push(line), ..self }
    }

    /// The next input line; an exhausted input reads as an empty line.
    pub open spec fn next_line(self) -> Seq<char> {
        if self.input.len() > 0 {
            self.input[0]
        } else {
            Seq::empty()
        }
    }

    pub open spec fn take_line(self) -> RunState {
        RunState {
            input: if self.input.len() > 0 {
                self.input.drop_first()
            } else {
                self.input
            },
            ..self
        }
    }
}

pub open spec fn lower_char(c: char) -> char {
    if 'A' <= c && c <= 'Z' {
        ((c as u32) + 32) as char
    } else {
        c
    }
}

/// Names are case-insensitive: the table holds each name with its letters in lower case.
pub open spec fn fold_case(s: Seq<char>) -> Seq<char> {
    s.map_values(|c: char| lower_char(c))
}

/// The table key of a variable name.
pub open spec fn var_key(name: Val) -> Result<Seq<char>, ErrorKind> {
    match name {
        Val::Text(n) => Ok(fold_case(n)),
        _ => Err(ErrorKind::RuntimeType),
    }
}

/// The current value of a variable.
pub open spec fn lookup(name: Val, st: RunState) -> Result<Val, ErrorKind> {
    match var_key(name) {
        Err(e) => Err(e),
        Ok(k) => if st.env.contains_key(k) {
            Ok(st.env[k])
        } else {
            Err(ErrorKind::UndeclaredVariable)
        },
    }
}

pub open spec fn digit_char(d: int) -> char {
    seq!['0', '1', '2', '3', '4', '5', '6', '7', '8', '9'][d]
}

/// The decimal digits of a natural number.
pub open spec fn nat_text(n: nat) -> Seq<char>
    decreases n,
{
    if n < 10 {
        seq![digit_char(n as int)]
    } else {
        nat_text(n / 10).push(digit_char((n % 10) as int))
    }
}

/// An integer in decimal, with a leading `-` when negative.
pub open spec fn decimal(n: int) -> Seq<char> {
    if n < 0 {
        seq!['-'] + nat_text((-n) as nat)
    } else {
        nat_text(n as nat)
    }
}

/// The printed form of a value.
pub open spec fn display(v: Val) -> Seq<char> {
    match v {
        Val::Boolean(b) => if b {
            seq!['t', 'r', 'u', 'e']
        } else {
            seq!['f', 'a', 'l', 's', 'e']
        },
        Val::Number(n) => decimal(n as int),
        Val::Char(c) => seq![c],
        Val::Text(t) => t,
        Val::Nothing => Seq::empty(),
    }
}

/// The line without one trailing newline.
pub open spec fn strip_newline(t: Seq<char>) -> Seq<char> {
    if t.len() > 0 && t.last() == '\n' {
        t.drop_last()
    } else {
        t
    }
}

pub open spec fn int_body(t: Seq<char>) -> Seq<char> {
    if t.len() > 0 && (t[0] == '+' || t[0] == '-') {
        t.drop_first()
    } else {
        t
    }
}

/// Whether the text is a 32-bit signed integer: an optional sign, then decimal digits
/// whose value is in range.
pub open spec fn is_int_text(t: Seq<char>) -> bool {
    let b = int_body(t);
    &&& b.len() > 0
    &&& forall|k: int| 0 <= k < b.len() ==> is_digit(#[trigger] b[k])
    &&& digits_value(b) <= (if t[0] == '-' {
        2147483648int
    } else {
        2147483647int
    })
}

/// Whether an assignment may replace `old` by `new`: both integers, both strings or both booleans.
pub open spec fn same_kind(old: Val, new: Val) -> bool {
    ||| old is Number && new is Number
    ||| old is Text && new is Text
    ||| old is Boolean && new is Boolean
}

/// The value of a binary operation on evaluated operands.
pub open spec fn binop_value(op: TokenType, l: Val, r: Val) -> Result<Val, ErrorKind> {
    match (l, r) {
        (Val::Number(n), Val::Number(m)) => {
            let v = match op {
                TokenType::Plus => n.checked_add(m),
                TokenType::Minus => n.checked_sub(m),
                TokenType::Mul => n.checked_mul(m),
                TokenType::Div => n.checked_div(m),
                _ => None,
            };
            if !(op == TokenType::Plus || op == TokenType::Minus || op == TokenType::Mul || op
                == TokenType::Div) {
                Err(ErrorKind::RuntimeType)
            } else {
                match v {
                    Some(x) => Ok(Val::Number(x)),
                    None => Err(ErrorKind::Arithmetic),
                }
            }
        },
        (Val::Text(s), Val::Text(t)) => if op == TokenType::Plus {
            Ok(Val::Text(s + t))
        } else {
            Err(ErrorKind::RuntimeType)
        },
        _ => Err(ErrorKind::RuntimeType),
    }
}

/// The value of a sign applied to an evaluated operand.
pub open spec fn unary_value(op: TokenType, v: Val) -> Result<i32, ErrorKind> {
    match v {
        Val::Number(n) => if op == TokenType::Plus {
            Ok(n)
        } else if op == TokenType::Minus {
            match 0i32.checked_sub(n) {
                Some(x) => Ok(x),
                None => Err(ErrorKind::Arithmetic),
            }
        } else {
            Err(ErrorKind::RuntimeType)
        },
        _ => Err(ErrorKind::RuntimeType),
    }
}

/// How evaluation fails: the kind of error, and the state at that point, with everything
/// done before the error (declarations, assignments, input read, lines printed) kept.
pub type Failure = (ErrorKind, RunState);

/// Evaluates a node: its value and the state after it, or the failure that ends the run.
pub open spec fn eval(node: SNode, st: RunState) -> Result<(Val, RunState), Failure>
    decreases node, 1int, 0int,
{
    match node {
        SNode::NoOp => Ok((Val::Nothing, st)),
        SNode::Num(v) => match v {
            Val::Number(x) => Ok((Val::Number(x), st)),
            _ => Err((ErrorKind::RuntimeType, st)),
        },
        SNode::Str(v) => match v {
            Val::Text(t) => Ok((Val::Text(t), st)),
            _ => Err((ErrorKind::RuntimeType, st)),
        },
        SNode::Var(name) => match lookup(name, st) {
            Ok(x) => Ok((x, st)),
            Err(e) => Err((e, st)),
        },
        SNode::UnaryOp(_, _) => match eval_unary_op(node, st) {
            Ok((n, st1)) => Ok((Val::Number(n), st1)),
            Err(f) => Err(f),
        },
        SNode::BinOp(_, _, _) => eval_bin_op(node, st),
        SNode::BoolExpr(_, _, _) => match eval_bool_expr(node, st) {
            Ok((x, st1)) => Ok((Val::Boolean(x), st1)),
            Err(f) => Err(f),
        },
        SNode::Assign(_, _) => nothing(eval_assign(node, st)),
        SNode::VarDecl(name, t) => nothing(eval_var_decl(name, t, st)),
        SNode::DeclAssign(_, _, _) => nothing(eval_decl_assign(node, st)),
        SNode::PrintStr(v) => nothing(eval_print_str(v, st)),
        SNode::PrintVar(name) => nothing(eval_print_var(name, st)),
        SNode::Read(name) => nothing(eval_read(name, st)),
        SNode::ForLoop(_, _, _, _) => nothing(eval_for_loop(node, st)),
        SNode::IfStatement(_, _, _) => nothing(eval_if_statement(node, st)),
        SNode::Program(stmts) => nothing(eval_list(stmts, 0, st)),
    }
}

/// A statement has no value of its own.
pub open spec fn nothing(r: Result<RunState, Failure>) -> Result<(Val, RunState), Failure> {
    match r {
        Ok(st) => Ok((Val::Nothing, st)),
        Err(f) => Err(f),
    }
}

/// Runs the statements from index `i` on, in order, up to the first failure.
pub open spec fn eval_list(stmts: Seq<SNode>, i: int, st: RunState) -> Result<RunState, Failure>
    decreases stmts, 0int, stmts.len() - i,
{
    if 0 <= i < stmts.len() {
        match eval(stmts[i], st) {
            Ok((_, st1)) => eval_list(stmts, i + 1, st1),
            Err(f) => Err(f),
        }
    } else {
        Ok(st)
    }
}

/// Both operands, left first, then the operation on their values.
pub open spec fn eval_bin_op(node: SNode, st: RunState) -> Result<(Val, RunState), Failure>
    decreases node, 0int, 0int,
{
    match node {
        SNode::BinOp(left, op, right) => match eval(*left, st) {
            Err(f) => Err(f),
            Ok((l, st1)) => match eval(*right, st1) {
                Err(f) => Err(f),
                Ok((r, st2)) => match binop_value(op, l, r) {
                    Ok(v) => Ok((v, st2)),
                    Err(e) => Err((e, st2)),
                },
            },
        },
        _ => Err((ErrorKind::RuntimeType, st)),
    }
}

pub open spec fn eval_unary_op(node: SNode, st: RunState) -> Result<(i32, RunState), Failure>
    decreases node, 0int, 0int,
{
    match node {
        SNode::UnaryOp(op, operand) => match eval(*operand, st) {
            Err(f) => Err(f),
            Ok((v, st1)) => match unary_value(op, v) {
                Ok(n) => Ok((n, st1)),
                Err(e) => Err((e, st1)),
            },
        },
        _ => Err((ErrorKind::RuntimeType, st)),
    }
}

/// Boolean operators: `&` evaluates both sides, which must be booleans; `;` passes a
/// boolean left side through; `!` negates a boolean right side; `=` and `<` compare integers.
pub open spec fn eval_bool_expr(node: SNode, st: RunState) -> Result<(bool, RunState), Failure>
    decreases node, 0int, 0int,
{
    match node {
        SNode::BoolExpr(left, op, right) => if op == TokenType::And {
            match eval(*left, st) {
                Err(f) => Err(f),
                Ok((Val::Boolean(x), st1)) => match eval(*right, st1) {
                    Err(f) => Err(f),
                    Ok((Val::Boolean(y), st2)) => Ok((x && y, st2)),
                    Ok((_, st2)) => Err((ErrorKind::RuntimeType, st2)),
                },
                Ok((_, st1)) => Err((ErrorKind::RuntimeType, st1)),
            }
        } else if op == TokenType::Semi {
            match eval(*left, st) {
                Err(f) => Err(f),
                Ok((Val::Boolean(x), st1)) => Ok((x, st1)),
                Ok((_, st1)) => Err((ErrorKind::RuntimeType, st1)),
            }
        } else if op == TokenType::Not {
            match eval(*right, st) {
                Err(f) => Err(f),
                Ok((Val::Boolean(x), st1)) => Ok((!x, st1)),
                Ok((_, st1)) => Err((ErrorKind::RuntimeType, st1)),
            }
        } else {
            match eval(*left, st) {
                Err(f) => Err(f),
                Ok((Val::Number(x), st1)) => match eval(*right, st1) {
                    Err(f) => Err(f),
                    Ok((Val::Number(y), st2)) => if op == TokenType::Equal {
                        Ok((x == y, st2))
                    } else if op == TokenType::LessThan {
                        Ok((x < y, st2))
                    } else {
                        Err((ErrorKind::RuntimeType, st2))
                    },
                    Ok((_, st2)) => Err((ErrorKind::RuntimeType, st2)),
                },
                Ok((_, st1)) => Err((ErrorKind::RuntimeType, st1)),
            }
        },
        _ => Err((ErrorKind::RuntimeType, st)),
    }
}

/// The loop variable may be unbound or bound to an integer; the bounds must be integers.
pub open spec fn eval_for_loop(node: SNode, st: RunState) -> Result<RunState, Failure>
    decreases node, 0int, 0int,
{
    match node {
        SNode::ForLoop(name, start, end, body) => match var_key(name) {
            Err(e) => Err((e, st)),
            Ok(k) => if st.env.contains_key(k) && !(st.env[k] is Number) {
                Err((ErrorKind::RuntimeType, st))
            } else {
                match eval(*start, st) {
                    Err(f) => Err(f),
                    Ok((Val::Number(a), st1)) => match eval(*end, st1) {
                        Err(f) => Err(f),
                        Ok((Val::Number(z), st2)) => eval_loop(k, body, a as int, z as int, st2),
                        Ok((_, st2)) => Err((ErrorKind::RuntimeType, st2)),
                    },
                    Ok((_, st1)) => Err((ErrorKind::RuntimeType, st1)),
                }
            },
        },
        _ => Err((ErrorKind::RuntimeType, st)),
    }
}

/// The iterations from `i` up to, not including, `end`: each binds the loop variable to
/// `i` and runs the whole body.
pub open spec fn eval_loop(k: Seq<char>, body: Seq<SNode>, i: int, end: int, st: RunState) -> Result<
    RunState,
    Failure,
>
    decreases body, 1int, end - i,
{
    if i < end {
        match eval_list(body, 0, st.set(k, Val::Number(i as i32))) {
            Err(f) => Err(f),
            Ok(st1) => eval_loop(k, body, i + 1, end, st1),
        }
    } else {
        Ok(st)
    }
}

pub open spec fn eval_if_statement(node: SNode, st: RunState) -> Result<RunState, Failure>
    decreases node, 0int, 0int,
{
    match node {
        SNode::IfStatement(cond, then_branch, else_branch) => match eval(*cond, st) {
            Err(f) => Err(f),
            Ok((Val::Boolean(true), st1)) => eval_list(then_branch, 0, st1),
            Ok((Val::Boolean(false), st1)) => eval_list(else_branch, 0, st1),
            Ok((_, st1)) => Err((ErrorKind::RuntimeType, st1)),
        },
        _ => Err((ErrorKind::RuntimeType, st)),
    }
}

/// The variable must exist, and the new value must be of the kind of the current one.
pub open spec fn eval_assign(node: SNode, st: RunState) -> Result<RunState, Failure>
    decreases node, 0int, 0int,
{
    match node {
        SNode::Assign(name, value) => match lookup(name, st) {
            Err(e) => Err((e, st)),
            Ok(cur) => match eval(*value, st) {
                Err(f) => Err(f),
                Ok((v, st1)) => if same_kind(cur, v) {
                    Ok(st1.set(var_key(name)->Ok_0, v))
                } else {
                    Err((ErrorKind::RuntimeType, st1))
                },
            },
        },
        _ => Err((ErrorKind::RuntimeType, st)),
    }
}

/// A declaration without initializer: `0`, the empty string, or `true`.
pub open spec fn eval_var_decl(name: Val, t: TokenType, st: RunState) -> Result<RunState, Failure> {
    match var_key(name) {
        Err(e) => Err((e, st)),
        Ok(k) => if t == TokenType::Str {
            Ok(st.set(k, Val::Text(Seq::empty())))
        } else if t == TokenType::Integer {
            Ok(st.set(k, Val::Number(0)))
        } else if t == TokenType::Bool {
            Ok(st.set(k, Val::Boolean(true)))
        } else {
            Err((ErrorKind::RuntimeType, st))
        },
    }
}

/// A declaration with an initializer stores its value whatever the declared type.
pub open spec fn eval_decl_assign(node: SNode, st: RunState) -> Result<RunState, Failure>
    decreases node, 0int, 0int,
{
    match node {
        SNode::DeclAssign(name, _, value) => match var_key(name) {
            Err(e) => Err((e, st)),
            Ok(k) => match eval(*value, st) {
                Err(f) => Err(f),
                Ok((v, st1)) => Ok(st1.set(k, v)),
            },
        },
        _ => Err((ErrorKind::RuntimeType, st)),
    }
}

pub open spec fn eval_print_str(v: Val, st: RunState) -> Result<RunState, Failure> {
    match v {
        Val::Text(t) => Ok(st.emit(t)),
        _ => Err((ErrorKind::RuntimeType, st)),
    }
}

pub open spec fn eval_print_var(name: Val, st: RunState) -> Result<RunState, Failure> {
    match lookup(name, st) {
        Err(e) => Err((e, st)),
        Ok(v) => Ok(st.emit(display(v))),
    }
}

/// Reads one line: into a string variable as it is; into an integer variable only when it
/// is an integer, and then still stored as text. The line is consumed even when the read fails.
pub open spec fn eval_read(name: Val, st: RunState) -> Result<RunState, Failure> {
    match var_key(name) {
        Err(e) => Err((e, st)),
        Ok(k) => {
            let line = strip_newline(st.next_line());
            let st1 = st.take_line();
            if !st1.env.contains_key(k) {
                Err((ErrorKind::UndeclaredVariable, st1))
            } else {
                match st1.env[k] {
                    Val::Text(_) => Ok(st1.set(k, Val::Text(line))),
                    Val::Number(_) => if is_int_text(line) {
                        Ok(st1.set(k, Val::Text(line)))
                    } else {
                        Err((ErrorKind::InputFormat, st1))
                    },
                    _ => Err((ErrorKind::RuntimeType, st1)),
                }
            }
        },
    }
}

/// The model of a run's result: on an error, the state in which it stopped.
pub open spec fn value_outcome(r: Result<Value, ErrorKind>, st: RunState) -> Result<
    (Val, RunState),
    Failure,
> {
    match r {
        Ok(v) => Ok((v@, st)),
        Err(e) => Err((e, st)),
    }
}

pub open spec fn unit_outcome(r: Result<(), ErrorKind>, st: RunState) -> Result<RunState, Failure> {
    match r {
        Ok(_) => Ok(st),
        Err(e) => Err((e, st)),
    }
}

/// Runs a parsed program on a table of variables, with the input lines it may read.
pub struct Interpreter {
    pub parser: Parser,
    pub global_scope: StringHashMap<Value>,
    pub input: Vec<String>,
    pub input_pos: usize,
    pub output: Vec<String>,
}

impl Interpreter {
    pub open spec fn wf(&self) -> bool {
        self.input_pos <= self.input@.len()
    }

    /// The model of what a run observes and changes.
    pub open spec fn state(&self) -> RunState {
        RunState {
            env: self.global_scope@.map_values(|v: Value| v@),
            input: self.input@.subrange(self.input_pos as int, self.input@.len() as int).map_values(
                |s: String| s@,
            ),
            output: self.output@.map_values(|s: String| s@),
        }
    }

    /// An interpreter with an empty table and no input.
    pub fn new(parser: Parser) -> (r: Interpreter)
        ensures
            r.parser == parser,
            r.wf(),
            r.state().env == Map::<Seq<char>, Val>::empty(),
            r.state().input.len() == 0,
            r.state().output.len() == 0,
    {
        let r = Interpreter {
            parser,
            global_scope: StringHashMap::new(),
            input: Vec::new(),
            input_pos: 0,
            output: Vec::new(),
        };
        assert(r.state().env =~= Map::<Seq<char>, Val>::empty());
        r
    }

    /// An interpreter with an empty table that reads the given lines, in order.
    pub fn with_input(parser: Parser, input: Vec<String>) -> (r: Interpreter)
        ensures
            r.parser == parser,
            r.wf(),
            r.state().env == Map::<Seq<char>, Val>::empty(),
            r.state().input == input@.map_values(|s: String| s@),
            r.state().output.len() == 0,
    {
        let r = Interpreter {
            parser,
            global_scope: StringHashMap::new(),
            input,
            input_pos: 0,
            output: Vec::new(),
        };
        assert(r.state().env =~= Map::<Seq<char>, Val>::empty());
        assert(r.input@.subrange(0, r.input@.len() as int) =~= r.input@);
        r
    }

    /// Parses the whole program, then runs it: the outcome is the evaluation of the tree
    /// that the rest of the source text parses to, or the error that parsing ends with.
    #[verifier::rlimit(40)]
    pub fn interpret(&mut self) -> (r: Result<Value, ErrorKind>)
        requires
            old(self).wf(),
        ensures
            final(self).wf(),
            match parse_program(old(self).parser.scanner.text@, old(self).parser.pstate()) {
                Ok((tree, _)) => eval(tree, old(self).state()) == value_outcome(
                    r,
                    final(self).state(),
                ),
                Err(e) => r == Err::<Value, ErrorKind>(e) && final(self).state() == old(self).state(),
            },
            r is Ok ==> r->Ok_0@ == Val::Nothing,
    {
        let tree = self.parser.parse()?;
        self.visit(&tree)
    }

    /// The current value of a variable, by its name in any case.
    pub fn variable(&self, name: &str) -> (r: Option<Value>)
        ensures
            match r {
                Some(v) => self.state().env.contains_key(fold_case(name@)) && v@ == self.state().env[fold_case(name@)],
                None => !self.state().env.contains_key(fold_case(name@)),
            },
    {
        let key = folded(name);
        match self.global_scope.get(key.as_str()) {
            Some(v) => Some(v.duplicate()),
            None => None,
        }
    }

    /// The number of variables declared so far.
    pub fn variable_count(&self) -> (r: usize)
        ensures
            r == self.global_scope@.len(),
    {
        self.global_scope.len()
    }

    fn set_var(&mut self, key: String, v: Value)
        requires
            old(self).wf(),
        ensures
            final(self).wf(),
            final(self).state() == old(self).state().set(key@, v@),
    {
        let ghost vv = v@;
        self.global_scope.insert(key, v);
        assert(self.state().env =~= old(self).state().env.insert(key@, vv));
    }

    fn get_var(&self, key: &String) -> (r: Option<Value>)
        ensures
            match r {
                Some(v) => self.state().env.contains_key(key@) && v@ == self.state().env[key@],
                None => !self.state().env.contains_key(key@),
            },
    {
        match self.global_scope.get(key.as_str()) {
            Some(v) => Some(v.duplicate()),
            None => None,
        }
    }

    fn emit(&mut self, line: String)
        requires
            old(self).wf(),
        ensures
            final(self).wf(),
            final(self).state() == old(self).state().emit(line@),
    {
        self.output.push(line);
        assert(self.state().output =~= old(self).state().output.push(line@));
        assert(self.state().env =~= old(self).state().env);
        assert(self.state().input =~= old(self).state().input);
    }

    fn take_line(&mut self) -> (r: String)
        requires
            old(self).wf(),
        ensures
            final(self).wf(),
            r@ == old(self).state().next_line(),
            final(self).state() == old(self).state().take_line(),
    {
        if self.input_pos < self.input.len() {
            let line = self.input[self.input_pos].clone();
            self.input_pos = self.input_pos + 1;
            assert(self.state().input =~= old(self).state().input.drop_first());
            line
        } else {
            assert(self.state().input =~= old(self).state().input);
            String::new()
        }
    }

    /// The table key of a variable reference.
    fn var_key(&self, var: &Var) -> (r: Result<String, ErrorKind>)
        ensures
            match r {
                Ok(k) => var_key(var.value@) == Ok::<Seq<char>, ErrorKind>(k@),
                Err(e) => var_key(var.value@) == Err::<Seq<char>, ErrorKind>(e),
            },
    {
        match &var.value {
            Value::String(s) => Ok(folded(s.as_str())),
            _ => Err(ErrorKind::RuntimeType),
        }
    }

    /// Evaluates a node against the table, the input and the output.
    #[verifier::rlimit(40)]
    pub fn visit(&mut self, node: &Node) -> (r: Result<Value, ErrorKind>)
        requires
            old(self).wf(),
        ensures
            final(self).wf(),
            eval(node_view(*node), old(self).state()) == value_outcome(r, final(self).state()),
        decreases node,
    {
        match node {
            Node::BinOp(n) => self.visit_bin_op(n),
            Node::UnaryOp(n) => Ok(Value::Number(self.visit_unary_op(n)?)),
            Node::Num(n) => Ok(Value::Number(self.visit_num(n)?)),
            Node::Str(n) => Ok(Value::String(self.visit_str(n)?)),
            Node::NoOp => Ok(Value::Empty),
            Node::BoolExpr(n) => Ok(Value::Boolean(self.visit_bool_expr(n)?)),
            Node::ForLoop(n) => {
                self.visit_for_loop(n)?;
                Ok(Value::Empty)
            },
            Node::IfStatement(n) => {
                self.visit_if_statement(n)?;
                Ok(Value::Empty)
            },
            Node::Assign(n) => {
                self.visit_assign(n)?;
                Ok(Value::Empty)
            },
            Node::Var(n) => self.visit_var(n),
            Node::Program(n) => {
                self.visit_program(n)?;
                Ok(Value::Empty)
            },
            Node::VarDecl(n) => {
                self.visit_var_decl(n)?;
                Ok(Value::Empty)
            },
            Node::DeclAssign(n) => {
                self.visit_decl_assign(n)?;
                Ok(Value::Empty)
            },
            Node::PrintStr(n) => {
                self.visit_print_str(n)?;
                Ok(Value::Empty)
            },
            Node::PrintVar(n) => {
                self.visit_print_var(n)?;
                Ok(Value::Empty)
            },
            Node::Read(n) => {
                self.visit_read(n)?;
                Ok(Value::Empty)
            },
        }
    }

    fn visit_statements(&mut self, stmts: &Vec<Node>) -> (r: Result<(), ErrorKind>)
        requires
            old(self).wf(),
        ensures
            final(self).wf(),
            eval_list(nodes_view(*stmts, 0), 0, old(self).state()) == unit_outcome(r, final(self).state()),
        decreases stmts,
    {
        proof {
            lemma_nodes_view_index(*stmts, 0);
        }
        let mut i: usize = 0;
        while i < stmts.len()
            invariant
                self.wf(),
                nodes_view(*stmts, 0).len() == stmts.len(),
                forall|k: int| 0 <= k < stmts.len() ==> #[trigger] nodes_view(*stmts, 0)[k] == node_view(stmts[0 + k]),
                i <= stmts.len(),
                eval_list(nodes_view(*stmts, 0), i as int, self.state()) == eval_list(
                    nodes_view(*stmts, 0),
                    0,
                    old(self).state(),
                ),
            decreases stmts.len() - i,
        {
            self.visit(&stmts[i])?;
            i = i + 1;
        }
        Ok(())
    }

    fn visit_program(&mut self, program: &Program) -> (r: Result<(), ErrorKind>)
        requires
            old(self).wf(),
        ensures
            final(self).wf(),
            eval_list(nodes_view(program.children, 0), 0, old(self).state()) == unit_outcome(r, final(self).state()),
        decreases program,
    {
        self.visit_statements(&program.children)
    }

    #[verifier::rlimit(40)]
    fn visit_for_loop(&mut self, for_loop: &ForLoop) -> (r: Result<(), ErrorKind>)
        requires
            old(self).wf(),
        ensures
            final(self).wf(),
            eval_for_loop(node_view(Node::ForLoop(Box::new(*for_loop))), old(self).state()) == unit_outcome(r, final(self).state()),
        decreases for_loop,
    {
        let key = self.var_key(&for_loop.var_node)?;
        match self.get_var(&key) {
            Some(Value::Number(_)) | None => {},
            Some(_) => {
                return Err(ErrorKind::RuntimeType);
            },
        }
        let start = match self.visit(&for_loop.start)? {
            Value::Number(n) => n,
            _ => {
                return Err(ErrorKind::RuntimeType);
            },
        };
        let end = match self.visit(&for_loop.end)? {
            Value::Number(n) => n,
            _ => {
                return Err(ErrorKind::RuntimeType);
            },
        };
        let ghost st2 = self.state();
        let mut i = start;
        while i < end
            invariant
                self.wf(),
                start <= i <= end || (i == start && start >= end),
                eval_loop(key@, nodes_view(for_loop.statements, 0), i as int, end as int, self.state()) == eval_loop(
                    key@,
                    nodes_view(for_loop.statements, 0),
                    start as int,
                    end as int,
                    st2,
                ),
                eval_for_loop(node_view(Node::ForLoop(Box::new(*for_loop))), old(self).state()) == eval_loop(
                    key@,
                    nodes_view(for_loop.statements, 0),
                    start as int,
                    end as int,
                    st2,
                ),
            decreases end - i,
        {
            let ghost before = self.state();
            self.set_var(key.clone(), Value::Number(i));
            match self.visit_statements(&for_loop.statements) {
                Ok(()) => {},
                Err(e) => {
                    assert(eval_loop(key@, nodes_view(for_loop.statements, 0), i as int, end as int, before) == Err::<
                        RunState,
                        Failure,
                    >((e, self.state())));
                    return Err(e);
                },
            }
            i = i + 1;
        }
        Ok(())
    }

    #[verifier::rlimit(40)]
    fn visit_bool_expr(&mut self, bool_expr: &BoolExpr) -> (r: Result<bool, ErrorKind>)
        requires
            old(self).wf(),
        ensures
            final(self).wf(),
            eval_bool_expr(node_view(Node::BoolExpr(Box::new(*bool_expr))), old(self).state()) == match r {
                Ok(x) => Ok::<(bool, RunState), Failure>((x, final(self).state())),
                Err(e) => Err((e, final(self).state())),
            },
        decreases bool_expr,
    {
        let op = bool_expr.op.type_;
        if op == TokenType::And {
            let left = match self.visit(&bool_expr.left)? {
                Value::Boolean(b) => b,
                _ => {
                    return Err(ErrorKind::RuntimeType);
                },
            };
            let right = match self.visit(&bool_expr.right)? {
                Value::Boolean(b) => b,
                _ => {
                    return Err(ErrorKind::RuntimeType);
                },
            };
            return Ok(left && right);
        }
        if op == TokenType::Semi {
            return match self.visit(&bool_expr.left)? {
                Value::Boolean(b) => Ok(b),
                _ => Err(ErrorKind::RuntimeType),
            };
        }
        if op == TokenType::Not {
            return match self.visit(&bool_expr.right)? {
                Value::Boolean(b) => Ok(!b),
                _ => Err(ErrorKind::RuntimeType),
            };
        }
        let left = match self.visit(&bool_expr.left)? {
            Value::Number(n) => n,
            _ => {
                return Err(ErrorKind::RuntimeType);
            },
        };
        let right = match self.visit(&bool_expr.right)? {
            Value::Number(n) => n,
            _ => {
                return Err(ErrorKind::RuntimeType);
            },
        };
        if op == TokenType::Equal {
            Ok(left == right)
        } else if op == TokenType::LessThan {
            Ok(left < right)
        } else {
            Err(ErrorKind::RuntimeType)
        }
    }

    fn visit_if_statement(&mut self, if_statement: &IfStatement) -> (r: Result<(), ErrorKind>)
        requires
            old(self).wf(),
        ensures
            final(self).wf(),
            eval_if_statement(node_view(Node::IfStatement(Box::new(*if_statement))), old(self).state()) == unit_outcome(
                r,
                final(self).state(),
            ),
        decreases if_statement,
    {
        let condition = match self.visit(&if_statement.bool_expr)? {
            Value::Boolean(b) => b,
            _ => {
                return Err(ErrorKind::RuntimeType);
            },
        };
        if condition {
            self.visit_statements(&if_statement.statements)
        } else {
            self.visit_statements(&if_statement.else_statements)
        }
    }

    fn visit_print_var(&mut self, print_var: &PrintVar) -> (r: Result<(), ErrorKind>)
        requires
            old(self).wf(),
        ensures
            final(self).wf(),
            eval_print_var(print_var.var_node.value@, old(self).state()) == unit_outcome(r, final(self).state()),
    {
        let value = self.visit_var(&print_var.var_node)?;
        let line = display_text(&value);
        self.emit(line);
        Ok(())
    }

    fn visit_print_str(&mut self, print_str: &PrintStr) -> (r: Result<(), ErrorKind>)
        requires
            old(self).wf(),
        ensures
            final(self).wf(),
            eval_print_str(print_str.value@, old(self).state()) == unit_outcome(r, final(self).state()),
    {
        match &print_str.value {
            Value::String(s) => {
                self.emit(s.clone());
                Ok(())
            },
            _ => Err(ErrorKind::RuntimeType),
        }
    }

    #[verifier::rlimit(40)]
    fn visit_read(&mut self, read: &Read) -> (r: Result<(), ErrorKind>)
        requires
            old(self).wf(),
        ensures
            final(self).wf(),
            eval_read(read.var_node.value@, old(self).state()) == unit_outcome(r, final(self).state()),
    {
        let key = self.var_key(&read.var_node)?;
        let raw = self.take_line();
        let input = without_newline(&raw);
        match self.get_var(&key) {
            None => Err(ErrorKind::UndeclaredVariable),
            Some(Value::String(_)) => {
                self.set_var(key, Value::String(input));
                Ok(())
            },
            Some(Value::Number(_)) => {
                if is_int_text_exec(&chars_of(input.as_str())) {
                    self.set_var(key, Value::String(input));
                    Ok(())
                } else {
                    Err(ErrorKind::InputFormat)
                }
            },
            Some(_) => Err(ErrorKind::RuntimeType),
        }
    }

    fn visit_num(&self, num: &Num) -> (r: Result<i32, ErrorKind>)
        ensures
            match num.value@ {
                Val::Number(x) => r == Ok::<i32, ErrorKind>(x),
                _ => r == Err::<i32, ErrorKind>(ErrorKind::RuntimeType),
            },
    {
        match num.value {
            Value::Number(n) => Ok(n),
            _ => Err(ErrorKind::RuntimeType),
        }
    }

    fn visit_str(&self, str_node: &Str) -> (r: Result<String, ErrorKind>)
        ensures
            match str_node.value@ {
                Val::Text(t) => r is Ok && r->Ok_0@ == t,
                _ => r == Err::<String, ErrorKind>(ErrorKind::RuntimeType),
            },
    {
        match &str_node.value {
            Value::String(s) => Ok(s.clone()),
            _ => Err(ErrorKind::RuntimeType),
        }
    }

    fn visit_bin_op(&mut self, bin_op: &BinOp) -> (r: Result<Value, ErrorKind>)
        requires
            old(self).wf(),
        ensures
            final(self).wf(),
            eval_bin_op(node_view(Node::BinOp(Box::new(*bin_op))), old(self).state()) == value_outcome(r, final(self).state()),
        decreases bin_op,
    {
        let left = self.visit(&bin_op.left)?;
        let right = self.visit(&bin_op.right)?;
        let op = bin_op.op.type_;
        match (left, right) {
            (Value::Number(n), Value::Number(m)) => {
                let v = if op == TokenType::Plus {
                    n.checked_add(m)
                } else if op == TokenType::Minus {
                    n.checked_sub(m)
                } else if op == TokenType::Mul {
                    n.checked_mul(m)
                } else if op == TokenType::Div {
                    n.checked_div(m)
                } else {
                    return Err(ErrorKind::RuntimeType);
                };
                match v {
                    Some(x) => Ok(Value::Number(x)),
                    None => Err(ErrorKind::Arithmetic),
                }
            },
            (Value::String(s), Value::String(t)) => {
                if op == TokenType::Plus {
                    let mut result = s.clone();
                    result.append(t.as_str());
                    Ok(Value::String(result))
                } else {
                    Err(ErrorKind::RuntimeType)
                }
            },
            _ => Err(ErrorKind::RuntimeType),
        }
    }

    fn visit_unary_op(&mut self, unary_op: &UnaryOp) -> (r: Result<i32, ErrorKind>)
        requires
            old(self).wf(),
        ensures
            final(self).wf(),
            eval_unary_op(node_view(Node::UnaryOp(Box::new(*unary_op))), old(self).state()) == match r {
                Ok(n) => Ok::<(i32, RunState), Failure>((n, final(self).state())),
                Err(e) => Err((e, final(self).state())),
            },
        decreases unary_op,
    {
        let n = match self.visit(&unary_op.expr)? {
            Value::Number(n) => n,
            _ => {
                return Err(ErrorKind::RuntimeType);
            },
        };
        let op = unary_op.op.type_;
        if op == TokenType::Plus {
            Ok(n)
        } else if op == TokenType::Minus {
            match 0i32.checked_sub(n) {
                Some(x) => Ok(x),
                None => Err(ErrorKind::Arithmetic),
            }
        } else {
            Err(ErrorKind::RuntimeType)
        }
    }

    fn visit_assign(&mut self, assign: &Assign) -> (r: Result<(), ErrorKind>)
        requires
            old(self).wf(),
        ensures
            final(self).wf(),
            eval_assign(node_view(Node::Assign(Box::new(*assign))), old(self).state()) == unit_outcome(r, final(self).state()),
        decreases assign,
    {
        let left = self.visit_var(&assign.left)?;
        let right = self.visit(&assign.right)?;
        let compatible = match (&left, &right) {
            (Value::Number(_), Value::Number(_)) => true,
            (Value::String(_), Value::String(_)) => true,
            (Value::Boolean(_), Value::Boolean(_)) => true,
            _ => false,
        };
        if !compatible {
            return Err(ErrorKind::RuntimeType);
        }
        let key = self.var_key(&assign.left)?;
        self.set_var(key, right);
        Ok(())
    }

    fn visit_var(&self, var: &Var) -> (r: Result<Value, ErrorKind>)
        ensures
            match r {
                Ok(v) => lookup(var.value@, self.state()) == Ok::<Val, ErrorKind>(v@),
                Err(e) => lookup(var.value@, self.state()) == Err::<Val, ErrorKind>(e),
            },
    {
        let key = self.var_key(var)?;
        match self.get_var(&key) {
            Some(v) => Ok(v),
            None => Err(ErrorKind::UndeclaredVariable),
        }
    }

    fn visit_decl_assign(&mut self, decl_assign: &DeclAssign) -> (r: Result<(), ErrorKind>)
        requires
            old(self).wf(),
        ensures
            final(self).wf(),
            eval_decl_assign(node_view(Node::DeclAssign(Box::new(*decl_assign))), old(self).state()) == unit_outcome(
                r,
                final(self).state(),
            ),
        decreases decl_assign,
    {
        let key = self.var_key(&decl_assign.left)?;
        let value = self.visit(&decl_assign.right)?;
        self.set_var(key, value);
        Ok(())
    }

    fn visit_var_decl(&mut self, var_decl: &VarDecl) -> (r: Result<(), ErrorKind>)
        requires
            old(self).wf(),
        ensures
            final(self).wf(),
            eval_var_decl(var_decl.var_node.value@, var_decl.type_node.token.type_, old(self).state()) == unit_outcome(r, final(self).state()),
    {
        let key = self.var_key(&var_decl.var_node)?;
        let t = var_decl.type_node.token.type_;
        if t == TokenType::Str {
            self.set_var(key, Value::String(String::new()));
        } else if t == TokenType::Integer {
            self.set_var(key, Value::Number(0));
        } else if t == TokenType::Bool {
            self.set_var(key, Value::Boolean(true));
        } else {
            return Err(ErrorKind::RuntimeType);
        }
        Ok(())
    }
}

fn lower_char_exec(c: char) -> (r: char)
    ensures
        r == lower_char(c),
{
    if 'A' <= c && c <= 'Z' {
        ((c as u8) + 32) as char
    } else {
        c
    }
}

/// The name with its ASCII letters in lower case: the key under which it is stored.
pub fn folded(name: &str) -> (r: String)
    ensures
        r@ == fold_case(name@),
{
    let cs = chars_of(name);
    let mut out: Vec<char> = Vec::new();
    let mut i: usize = 0;
    while i < cs.len()
        invariant
            i <= cs.len(),
            out@ == fold_case(cs@.subrange(0, i as int)),
        decreases cs.len() - i,
    {
        out.push(lower_char_exec(cs[i]));
        i = i + 1;
        assert(out@ =~= fold_case(cs@.subrange(0, i as int)));
    }
    assert(cs@.subrange(0, cs@.len() as int) =~= cs@);
    string_of(&out)
}

fn digit_char_exec(d: u32) -> (r: char)
    requires
        d < 10,
    ensures
        r == digit_char(d as int),
{
    let digits = vec!['0', '1', '2', '3', '4', '5', '6', '7', '8', '9'];
    digits[d as usize]
}

fn push_nat(out: &mut String, n: u32)
    ensures
        final(out)@ == old(out)@ + nat_text(n as nat),
    decreases n,
{
    if n >= 10 {
        push_nat(out, n / 10);
    }
    push_char(out, digit_char_exec(n % 10));
    assert(final(out)@ =~= old(out)@ + nat_text(n as nat));
}

/// An integer in decimal.
pub fn decimal_text(n: i32) -> (r: String)
    ensures
        r@ == decimal(n as int),
{
    let mut out = String::new();
    if n < 0 {
        push_char(&mut out, '-');
        let m = (-(n as i64)) as u32;
        push_nat(&mut out, m);
        assert(out@ =~= decimal(n as int));
    } else {
        push_nat(&mut out, n as u32);
        assert(out@ =~= decimal(n as int));
    }
    out
}

/// The printed form of a value.
pub fn display_text(v: &Value) -> (r: String)
    ensures
        r@ == display(v@),
{
    match v {
        Value::Boolean(b) => if *b {
            string_of(&vec!['t', 'r', 'u', 'e'])
        } else {
            string_of(&vec!['f', 'a', 'l', 's', 'e'])
        },
        Value::Number(n) => decimal_text(*n),
        Value::Char(c) => {
            let mut s = String::new();
            push_char(&mut s, *c);
            assert(s@ =~= seq![*c]);
            s
        },
        Value::String(s) => s.clone(),
        Value::Empty => String::new(),
    }
}

/// The line without one trailing newline.
pub fn without_newline(line: &String) -> (r: String)
    ensures
        r@ == strip_newline(line@),
{
    let cs = chars_of(line.as_str());
    if cs.len() > 0 && cs[cs.len() - 1] == '\n' {
        let mut out: Vec<char> = Vec::new();
        let mut i: usize = 0;
        while i + 1 < cs.len()
            invariant
                cs@ == line@,
                cs.len() > 0,
                i + 1 <= cs.len(),
                out@ == cs@.subrange(0, i as int),
            decreases cs.len() - i,
        {
            out.push(cs[i]);
            i = i + 1;
            assert(out@ =~= cs@.subrange(0, i as int));
        }
        assert(out@ =~= cs@.drop_last());
        string_of(&out)
    } else {
        line.clone()
    }
}

pub proof fn lemma_digits_prefix(b: Seq<char>, k: int)
    requires
        0 <= k <= b.len(),
        forall|j: int| 0 <= j < b.len() ==> is_digit(#[trigger] b[j]),
    ensures
        digits_value(b) >= digits_value(b.subrange(0, k)),
    decreases b.len(),
{
    if k < b.len() {
        let p = b.drop_last();
        assert forall|j: int| 0 <= j < p.len() implies is_digit(#[trigger] p[j]) by {
            assert(p[j] == b[j]);
        }
        lemma_digits_prefix(p, k);
        lemma_digits_value_nonneg(p);
        assert(p.subrange(0, k) =~= b.subrange(0, k));
    } else {
        assert(b.subrange(0, k) =~= b);
    }
}

/// Whether the text is a 32-bit signed integer.
pub fn is_int_text_exec(t: &Vec<char>) -> (r: bool)
    ensures
        r == is_int_text(t@),
{
    let n = t.len();
    let mut i: usize = 0;
    let mut limit: i64 = 2147483647;
    if n > 0 && (t[0] == '+' || t[0] == '-') {
        if t[0] == '-' {
            limit = 2147483648;
        }
        i = 1;
    }
    let ghost b = int_body(t@);
    assert(b =~= t@.subrange(i as int, n as int));
    if i >= n {
        return false;
    }
    let start = i;
    let mut acc: i64 = 0;
    while i < n
        invariant
            b == int_body(t@),
            b == t@.subrange(start as int, n as int),
            n == t@.len(),
            start <= i <= n,
            start < n,
            limit == (if t@[0] == '-' { 2147483648int } else { 2147483647int }),
            forall|k: int| 0 <= k < i - start ==> is_digit(#[trigger] b[k]),
            acc == digits_value(b.subrange(0, i - start)),
            0 <= acc <= limit,
        decreases n - i,
    {
        let c = t[i];
        if !('0' <= c && c <= '9') {
            assert(b[i - start] == t@[i as int]);
            assert(!is_digit(b[i - start]));
            return false;
        }
        let ghost before = b.subrange(0, i - start);
        let d = (c as u32 - '0' as u32) as i64;
        acc = acc * 10 + d;
        i = i + 1;
        assert(b.subrange(0, i - start).drop_last() =~= before);
        assert(b.subrange(0, i - start).last() == c);
        assert(acc == digits_value(b.subrange(0, i - start)));
        if acc > limit {
            proof {
                if forall|k: int| 0 <= k < b.len() ==> is_digit(#[trigger] b[k]) {
                    lemma_digits_prefix(b, i - start);
                }
            }
            return false;
        }
    }
    assert(b.subrange(0, n - start) =~= b);
    true
}

} // verus!
