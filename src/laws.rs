use vstd::prelude::*;
use crate::error::ErrorKind;
use crate::grammar::{
    advance, lemma_eat_progress, parse_expr, parse_expr_tail, parse_factor,
    parse_term, parse_term_tail, PState, SNode,
};
use crate::interpreter::{
    decimal, eval, eval_loop, fold_case, lookup, nothing, var_key, Failure, RunState,
};
use crate::tokens::{TokenType, Val};

verus! {

/// Adding two strings gives their concatenation, whatever the strings.
pub proof fn law_concatenation(
    left: SNode,
    right: SNode,
    st: RunState,
    st1: RunState,
    st2: RunState,
    s: Seq<char>,
    t: Seq<char>,
)
    requires
        eval(left, st) == Ok::<(Val, RunState), Failure>((Val::Text(s), st1)),
        eval(right, st1) == Ok::<(Val, RunState), Failure>((Val::Text(t), st2)),
    ensures
        eval(SNode::BinOp(Box::new(left), TokenType::Plus, Box::new(right)), st) == Ok::<
            (Val, RunState),
            Failure,
        >((Val::Text(s + t), st2)),
{
}

/// Adding a string and an integer, in either order, is a type error, which stops the run
/// in the state the two operands left: the addition itself changes nothing.
pub proof fn law_string_plus_integer(
    left: SNode,
    right: SNode,
    st: RunState,
    st1: RunState,
    st2: RunState,
    s: Seq<char>,
    n: i32,
)
    requires
        (eval(left, st) == Ok::<(Val, RunState), Failure>((Val::Text(s), st1)) && eval(right, st1)
            == Ok::<(Val, RunState), Failure>((Val::Number(n), st2))) || (eval(left, st) == Ok::<
            (Val, RunState),
            Failure,
        >((Val::Number(n), st1)) && eval(right, st1) == Ok::<(Val, RunState), Failure>(
            (Val::Text(s), st2),
        )),
    ensures
        eval(SNode::BinOp(Box::new(left), TokenType::Plus, Box::new(right)), st) == Err::<
            (Val, RunState),
            Failure,
        >((ErrorKind::RuntimeType, st2)),
{
}

/// The decimal lines of the integers from `a` up to, not including, `z`.
pub open spec fn counted_lines(a: int, z: int) -> Seq<Seq<char>> {
    Seq::new(
        if a < z {
            (z - a) as nat
        } else {
            0
        },
        |j: int| decimal(a + j),
    )
}

/// A loop whose body prints its own variable runs the body once for each integer of the
/// half-open range from `a` to `z`, in increasing order, and never for `z`; afterwards the
/// variable holds `z - 1`, or is left as it was when the range is empty.
#[verifier::rlimit(40)]
pub proof fn law_loop_half_open(name: Val, k: Seq<char>, a: i32, z: i32, st: RunState)
    requires
        var_key(name) == Ok::<Seq<char>, ErrorKind>(k),
    ensures
        eval_loop(k, seq![SNode::PrintVar(name)], a as int, z as int, st) == Ok::<
            RunState,
            Failure,
        >(
            RunState {
                env: if a < z {
                    st.env.insert(k, Val::Number((z - 1) as i32))
                } else {
                    st.env
                },
                output: st.output + counted_lines(a as int, z as int),
                ..st
            },
        ),
    decreases z - a,
{
    let body = seq![SNode::PrintVar(name)];
    let out = st.output + counted_lines(a as int, z as int);
    if a < z {
        let st1 = st.set(k, Val::Number(a));
        assert(lookup(name, st1) == Ok::<Val, ErrorKind>(Val::Number(a)));
        let st2 = st1.emit(decimal(a as int));
        assert(eval(body[0], st1) == Ok::<(Val, RunState), Failure>((Val::Nothing, st2)));
        assert(crate::interpreter::eval_list(body, 1, st2) == Ok::<RunState, Failure>(st2));
        assert(crate::interpreter::eval_list(body, 0, st1) == Ok::<RunState, Failure>(st2));
        law_loop_half_open(name, k, (a + 1) as i32, z, st2);
        assert(st2.output + counted_lines(a + 1, z as int) =~= out);
        if a + 1 < z {
            assert(st2.env.insert(k, Val::Number((z - 1) as i32)) =~= st.env.insert(
                k,
                Val::Number((z - 1) as i32),
            ));
        }
    } else {
        assert(out =~= st.output);
    }
}

/// A condition that evaluates to `false` runs the else-branch alone, one that evaluates to
/// `true` the then-branch alone.
pub proof fn law_if_one_branch(
    cond: SNode,
    then_branch: Seq<SNode>,
    else_branch: Seq<SNode>,
    st: RunState,
    st1: RunState,
    c: bool,
)
    requires
        eval(cond, st) == Ok::<(Val, RunState), Failure>((Val::Boolean(c), st1)),
    ensures
        eval(SNode::IfStatement(Box::new(cond), then_branch, else_branch), st) == nothing(
            if c {
                crate::interpreter::eval_list(then_branch, 0, st1)
            } else {
                crate::interpreter::eval_list(else_branch, 0, st1)
            },
        ),
{
}

/// Names that differ only in the case of their letters name one slot of the table: after
/// declaring an integer under one, assigning an integer under the other changes the value
/// read under the first.
pub proof fn law_names_case_insensitive(n1: Seq<char>, n2: Seq<char>, st: RunState, v: i32)
    requires
        fold_case(n1) == fold_case(n2),
    ensures
        ({
            let decl = SNode::VarDecl(Val::Text(n1), TokenType::Integer);
            let assign = SNode::Assign(Val::Text(n2), Box::new(SNode::Num(Val::Number(v))));
            let st1 = eval(decl, st)->Ok_0.1;
            &&& eval(decl, st) is Ok
            &&& eval(assign, st1) == Ok::<(Val, RunState), Failure>(
                (Val::Nothing, st1.set(fold_case(n1), Val::Number(v))),
            )
            &&& lookup(Val::Text(n1), eval(assign, st1)->Ok_0.1) == Ok::<Val, ErrorKind>(
                Val::Number(v),
            )
        }),
{
    let decl = SNode::VarDecl(Val::Text(n1), TokenType::Integer);
    let num = SNode::Num(Val::Number(v));
    let assign = SNode::Assign(Val::Text(n2), Box::new(num));
    let st1 = st.set(fold_case(n1), Val::Number(0));
    assert(eval(decl, st) == Ok::<(Val, RunState), Failure>((Val::Nothing, st1)));
    assert(lookup(Val::Text(n2), st1) == Ok::<Val, ErrorKind>(Val::Number(0)));
    assert(eval(num, st1) == Ok::<(Val, RunState), Failure>((Val::Number(v), st1)));
    assert(eval(assign, st1) == Ok::<(Val, RunState), Failure>(
        (Val::Nothing, st1.set(fold_case(n1), Val::Number(v))),
    ));
}

/// A name with no entry in the table fails with an undeclared-variable error wherever it is
/// used: in an expression, printed, assigned or read. Nothing is declared, assigned or
/// printed; a read has consumed its input line.
pub proof fn law_undeclared(name: Val, k: Seq<char>, value: SNode, st: RunState)
    requires
        var_key(name) == Ok::<Seq<char>, ErrorKind>(k),
        !st.env.contains_key(k),
    ensures
        eval(SNode::Var(name), st) == Err::<(Val, RunState), Failure>(
            (ErrorKind::UndeclaredVariable, st),
        ),
        eval(SNode::PrintVar(name), st) == Err::<(Val, RunState), Failure>(
            (ErrorKind::UndeclaredVariable, st),
        ),
        eval(SNode::Assign(name, Box::new(value)), st) == Err::<(Val, RunState), Failure>(
            (ErrorKind::UndeclaredVariable, st),
        ),
        eval(SNode::Read(name), st) == Err::<(Val, RunState), Failure>(
            (ErrorKind::UndeclaredVariable, st.take_line()),
        ),
        eval(SNode::DeclAssign(Val::Text(seq!['y']), TokenType::Integer, Box::new(SNode::Var(name))), st)
            == Err::<(Val, RunState), Failure>((ErrorKind::UndeclaredVariable, st)),
{
}

/// A boolean declared without initializer holds `true`.
pub proof fn law_bool_default_true(name: Val, k: Seq<char>, st: RunState)
    requires
        var_key(name) == Ok::<Seq<char>, ErrorKind>(k),
    ensures
        eval(SNode::VarDecl(name, TokenType::Bool), st) == Ok::<(Val, RunState), Failure>(
            (Val::Nothing, st.set(k, Val::Boolean(true))),
        ),
{
}

/// `b * 10 + a`, with the product grouped first, is `b * 10 + a` in integers whenever that
/// is a 32-bit integer.
pub proof fn law_product_then_sum(a: i32, b: i32, st: RunState)
    requires
        i32::MIN <= b * 10 <= i32::MAX,
        i32::MIN <= b * 10 + a <= i32::MAX,
    ensures
        eval(
            SNode::BinOp(
                Box::new(
                    SNode::BinOp(
                        Box::new(SNode::Num(Val::Number(b))),
                        TokenType::Mul,
                        Box::new(SNode::Num(Val::Number(10))),
                    ),
                ),
                TokenType::Plus,
                Box::new(SNode::Num(Val::Number(a))),
            ),
            st,
        ) == Ok::<(Val, RunState), Failure>((Val::Number((b * 10 + a) as i32), st)),
{
    let nb = SNode::Num(Val::Number(b));
    let ten = SNode::Num(Val::Number(10));
    let na = SNode::Num(Val::Number(a));
    let prod = SNode::BinOp(Box::new(nb), TokenType::Mul, Box::new(ten));
    assert(eval(nb, st) == Ok::<(Val, RunState), Failure>((Val::Number(b), st)));
    assert(eval(ten, st) == Ok::<(Val, RunState), Failure>((Val::Number(10), st)));
    assert(eval(na, st) == Ok::<(Val, RunState), Failure>((Val::Number(a), st)));
    assert(eval(prod, st) == Ok::<(Val, RunState), Failure>((Val::Number((b * 10) as i32), st)));
}

/// The tree of `b * 10 + a`: the product grouped first.
pub open spec fn scaled_sum_tree(a: i32, b: i32) -> SNode {
    SNode::BinOp(
        Box::new(
            SNode::BinOp(
                Box::new(SNode::Num(Val::Number(b))),
                TokenType::Mul,
                Box::new(SNode::Num(Val::Number(10))),
            ),
        ),
        TokenType::Plus,
        Box::new(SNode::Num(Val::Number(a))),
    )
}

/// Wherever the next tokens are the integer literals and operators of `b * 10 + a`, followed
/// by a token that is no arithmetic operator, the expression parses with the product grouped
/// first: `*` binds tighter than `+`.
#[verifier::rlimit(40)]
pub proof fn law_precedence(
    s: Seq<char>,
    st: PState,
    st1: PState,
    st2: PState,
    st3: PState,
    st4: PState,
    st5: PState,
    a: i32,
    b: i32,
)
    requires
        0 <= st.pos,
        st.tok == TokenType::Integer && st.val == Val::Number(b),
        advance(s, st) == Ok::<PState, ErrorKind>(st1) && st1.tok == TokenType::Mul,
        advance(s, st1) == Ok::<PState, ErrorKind>(st2) && st2.tok == TokenType::Integer
            && st2.val == Val::Number(10),
        advance(s, st2) == Ok::<PState, ErrorKind>(st3) && st3.tok == TokenType::Plus,
        advance(s, st3) == Ok::<PState, ErrorKind>(st4) && st4.tok == TokenType::Integer
            && st4.val == Val::Number(a),
        advance(s, st4) == Ok::<PState, ErrorKind>(st5),
        st5.tok != TokenType::Plus && st5.tok != TokenType::Minus && st5.tok != TokenType::Mul
            && st5.tok != TokenType::Div,
    ensures
        parse_expr(s, st) == Ok::<(SNode, PState), ErrorKind>((scaled_sum_tree(a, b), st5)),
{
    lemma_eat_progress(s, st, TokenType::Integer);
    lemma_eat_progress(s, st1, TokenType::Mul);
    lemma_eat_progress(s, st2, TokenType::Integer);
    lemma_eat_progress(s, st3, TokenType::Plus);
    lemma_eat_progress(s, st4, TokenType::Integer);
    let nb = SNode::Num(Val::Number(b));
    let prod = SNode::BinOp(Box::new(nb), TokenType::Mul, Box::new(SNode::Num(Val::Number(10))));
    assert(parse_factor(s, st) == Ok::<(SNode, PState), ErrorKind>((nb, st1)));
    assert(parse_factor(s, st2) == Ok::<(SNode, PState), ErrorKind>(
        (SNode::Num(Val::Number(10)), st3),
    ));
    assert(parse_term_tail(s, st3, prod) == Ok::<(SNode, PState), ErrorKind>((prod, st3)));
    assert(parse_term_tail(s, st1, nb) == Ok::<(SNode, PState), ErrorKind>((prod, st3)));
    assert(parse_term(s, st) == Ok::<(SNode, PState), ErrorKind>((prod, st3)));
    let na = SNode::Num(Val::Number(a));
    assert(parse_factor(s, st4) == Ok::<(SNode, PState), ErrorKind>((na, st5)));
    assert(parse_term_tail(s, st5, na) == Ok::<(SNode, PState), ErrorKind>((na, st5)));
    assert(parse_term(s, st4) == Ok::<(SNode, PState), ErrorKind>((na, st5)));
    assert(parse_expr_tail(s, st5, scaled_sum_tree(a, b)) == Ok::<(SNode, PState), ErrorKind>(
        (scaled_sum_tree(a, b), st5),
    ));
    assert(parse_expr_tail(s, st3, prod) == Ok::<(SNode, PState), ErrorKind>(
        (scaled_sum_tree(a, b), st5),
    ));
}

/// The tree of `a - b - c`: grouped to the left.
pub open spec fn left_grouped_tree(a: i32, b: i32, c: i32) -> SNode {
    SNode::BinOp(
        Box::new(
            SNode::BinOp(
                Box::new(SNode::Num(Val::Number(a))),
                TokenType::Minus,
                Box::new(SNode::Num(Val::Number(b))),
            ),
        ),
        TokenType::Minus,
        Box::new(SNode::Num(Val::Number(c))),
    )
}

/// Wherever the next tokens are the integer literals and operators of `a - b - c`, followed
/// by a token that is no arithmetic operator, the expression groups to the left.
#[verifier::rlimit(40)]
pub proof fn law_left_associative(
    s: Seq<char>,
    st: PState,
    st1: PState,
    st2: PState,
    st3: PState,
    st4: PState,
    st5: PState,
    a: i32,
    b: i32,
    c: i32,
)
    requires
        0 <= st.pos,
        st.tok == TokenType::Integer && st.val == Val::Number(a),
        advance(s, st) == Ok::<PState, ErrorKind>(st1) && st1.tok == TokenType::Minus,
        advance(s, st1) == Ok::<PState, ErrorKind>(st2) && st2.tok == TokenType::Integer
            && st2.val == Val::Number(b),
        advance(s, st2) == Ok::<PState, ErrorKind>(st3) && st3.tok == TokenType::Minus,
        advance(s, st3) == Ok::<PState, ErrorKind>(st4) && st4.tok == TokenType::Integer
            && st4.val == Val::Number(c),
        advance(s, st4) == Ok::<PState, ErrorKind>(st5),
        st5.tok != TokenType::Plus && st5.tok != TokenType::Minus && st5.tok != TokenType::Mul
            && st5.tok != TokenType::Div,
    ensures
        parse_expr(s, st) == Ok::<(SNode, PState), ErrorKind>((left_grouped_tree(a, b, c), st5)),
{
    lemma_eat_progress(s, st, TokenType::Integer);
    lemma_eat_progress(s, st1, TokenType::Minus);
    lemma_eat_progress(s, st2, TokenType::Integer);
    lemma_eat_progress(s, st3, TokenType::Minus);
    lemma_eat_progress(s, st4, TokenType::Integer);
    let na = SNode::Num(Val::Number(a));
    let nb = SNode::Num(Val::Number(b));
    let nc = SNode::Num(Val::Number(c));
    let diff = SNode::BinOp(Box::new(na), TokenType::Minus, Box::new(nb));
    assert(parse_factor(s, st) == Ok::<(SNode, PState), ErrorKind>((na, st1)));
    assert(parse_term_tail(s, st1, na) == Ok::<(SNode, PState), ErrorKind>((na, st1)));
    assert(parse_term(s, st) == Ok::<(SNode, PState), ErrorKind>((na, st1)));
    assert(parse_factor(s, st2) == Ok::<(SNode, PState), ErrorKind>((nb, st3)));
    assert(parse_term_tail(s, st3, nb) == Ok::<(SNode, PState), ErrorKind>((nb, st3)));
    assert(parse_term(s, st2) == Ok::<(SNode, PState), ErrorKind>((nb, st3)));
    assert(parse_factor(s, st4) == Ok::<(SNode, PState), ErrorKind>((nc, st5)));
    assert(parse_term_tail(s, st5, nc) == Ok::<(SNode, PState), ErrorKind>((nc, st5)));
    assert(parse_term(s, st4) == Ok::<(SNode, PState), ErrorKind>((nc, st5)));
    assert(parse_expr_tail(s, st5, left_grouped_tree(a, b, c)) == Ok::<(SNode, PState), ErrorKind>(
        (left_grouped_tree(a, b, c), st5),
    ));
    assert(parse_expr_tail(s, st3, diff) == Ok::<(SNode, PState), ErrorKind>(
        (left_grouped_tree(a, b, c), st5),
    ));
    assert(parse_expr_tail(s, st1, na) == Ok::<(SNode, PState), ErrorKind>(
        (left_grouped_tree(a, b, c), st5),
    ));
}

} // verus!
