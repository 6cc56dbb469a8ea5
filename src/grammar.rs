use vstd::prelude::*;
use crate::error::ErrorKind;
use crate::nodes::Node;
use crate::scanner::{lemma_next_token_progress, next_token};
use crate::tokens::{TokenType, Val};

verus! {

/// The model of a syntax tree: what evaluation reads of each node.
pub enum SNode {
    NoOp,
    Num(Val),
    Str(Val),
    Var(Val),
    UnaryOp(TokenType, Box<SNode>),
    BinOp(Box<SNode>, TokenType, Box<SNode>),
    BoolExpr(Box<SNode>, TokenType, Box<SNode>),
    Assign(Val, Box<SNode>),
    VarDecl(Val, TokenType),
    DeclAssign(Val, TokenType, Box<SNode>),
    PrintStr(Val),
    PrintVar(Val),
    Read(Val),
    ForLoop(Val, Box<SNode>, Box<SNode>, Seq<SNode>),
    IfStatement(Box<SNode>, Seq<SNode>, Seq<SNode>),
    Program(Seq<SNode>),
}

/// The model of a node.
pub open spec fn node_view(n: Node) -> SNode
    decreases n, 0int,
{
    match n {
        Node::NoOp => SNode::NoOp,
        Node::Num(x) => SNode::Num(x.value@),
        Node::Str(x) => SNode::Str(x.value@),
        Node::Var(v) => SNode::Var(v.value@),
        Node::UnaryOp(u) => SNode::UnaryOp(u.op.type_, Box::new(node_view(u.expr))),
        Node::BinOp(b) => SNode::BinOp(
            Box::new(node_view(b.left)),
            b.op.type_,
            Box::new(node_view(b.right)),
        ),
        Node::BoolExpr(b) => SNode::BoolExpr(
            Box::new(node_view(b.left)),
            b.op.type_,
            Box::new(node_view(b.right)),
        ),
        Node::Assign(a) => SNode::Assign(a.left.value@, Box::new(node_view(a.right))),
        Node::VarDecl(d) => SNode::VarDecl(d.var_node.value@, d.type_node.token.type_),
        Node::DeclAssign(d) => SNode::DeclAssign(
            d.left.value@,
            d.type_node.token.type_,
            Box::new(node_view(d.right)),
        ),
        Node::PrintStr(p) => SNode::PrintStr(p.value@),
        Node::PrintVar(p) => SNode::PrintVar(p.var_node.value@),
        Node::Read(r) => SNode::Read(r.var_node.value@),
        Node::ForLoop(f) => SNode::ForLoop(
            f.var_node.value@,
            Box::new(node_view(f.start)),
            Box::new(node_view(f.end)),
            nodes_view(f.statements, 0),
        ),
        Node::IfStatement(i) => SNode::IfStatement(
            Box::new(node_view(i.bool_expr)),
            nodes_view(i.statements, 0),
            nodes_view(i.else_statements, 0),
        ),
        Node::Program(p) => SNode::Program(nodes_view(p.children, 0)),
    }
}

/// The models of the nodes from index `i` on.
pub open spec fn nodes_view(v: Vec<Node>, i: int) -> Seq<SNode>
    decreases v, v.len() - i,
{
    if 0 <= i < v.len() {
        seq![node_view(v[i])] + nodes_view(v, i + 1)
    } else {
        Seq::empty()
    }
}

/// Where parsing stands: the current token's category and payload, and the scanning
/// position after it, which is never negative.
pub struct PState {
    pub tok: TokenType,
    pub val: Val,
    pub pos: int,
}

/// What is left to parse of `s`.
pub open spec fn measure(s: Seq<char>, st: PState) -> int {
    (if 0 <= st.pos <= s.len() {
        s.len() - st.pos
    } else {
        0int
    }) + (if st.tok == TokenType::EOF {
        0int
    } else {
        1int
    })
}

/// Moves to the next token.
pub open spec fn advance(s: Seq<char>, st: PState) -> Result<PState, ErrorKind> {
    match next_token(s, st.pos) {
        Ok((t, v, q)) => Ok(PState { tok: t, val: v, pos: q }),
        Err(e) => Err(e),
    }
}

/// Moves past the current token, which must be of category `tt`.
pub open spec fn consume(s: Seq<char>, st: PState, tt: TokenType) -> Result<PState, ErrorKind> {
    if st.tok == tt {
        advance(s, st)
    } else {
        Err(ErrorKind::Syntax)
    }
}

pub proof fn lemma_eat_progress(s: Seq<char>, st: PState, tt: TokenType)
    requires
        0 <= st.pos,
        tt != TokenType::EOF,
    ensures
        consume(s, st, tt) is Ok ==> measure(s, consume(s, st, tt)->Ok_0) < measure(s, st) && 0
            <= consume(s, st, tt)->Ok_0.pos,
{
    lemma_next_token_progress(s, st.pos);
}

/// Whether parsing from `st` to `st1` did not move back. Parsing never does; the grammar
/// below checks it after each nested parse so that its recursion visibly ends, and the
/// `lemma_*_kept` proofs show that the check always passes.
pub open spec fn kept(s: Seq<char>, st: PState, st1: PState) -> bool {
    0 <= st1.pos && measure(s, st1) <= measure(s, st)
}

/// `+ factor`, `- factor`, an integer literal, `( expr )`, or a variable.
pub open spec fn parse_factor(s: Seq<char>, st: PState) -> Result<(SNode, PState), ErrorKind>
    decreases measure(s, st), 1int,
{
    if st.pos < 0 {
        Err(ErrorKind::Syntax)
    } else if st.tok == TokenType::Plus || st.tok == TokenType::Minus {
        match consume(s, st, st.tok) {
            Err(e) => Err(e),
            Ok(st1) => {
                proof {
                    lemma_eat_progress(s, st, st.tok);
                }
                match parse_factor(s, st1) {
                    Err(e) => Err(e),
                    Ok((n, st2)) => Ok((SNode::UnaryOp(st.tok, Box::new(n)), st2)),
                }
            },
        }
    } else if st.tok == TokenType::Integer {
        match consume(s, st, TokenType::Integer) {
            Err(e) => Err(e),
            Ok(st1) => Ok((SNode::Num(st.val), st1)),
        }
    } else if st.tok == TokenType::LeftParen {
        match consume(s, st, TokenType::LeftParen) {
            Err(e) => Err(e),
            Ok(st1) => {
                proof {
                    lemma_eat_progress(s, st, TokenType::LeftParen);
                }
                match parse_expr(s, st1) {
                    Err(e) => Err(e),
                    Ok((n, st2)) => match consume(s, st2, TokenType::RightParen) {
                        Err(e) => Err(e),
                        Ok(st3) => Ok((n, st3)),
                    },
                }
            },
        }
    } else {
        match consume(s, st, TokenType::ID) {
            Err(e) => Err(e),
            Ok(st1) => Ok((SNode::Var(st.val), st1)),
        }
    }
}

/// Factors joined by `*` and `/`, grouped to the left.
pub open spec fn parse_term(s: Seq<char>, st: PState) -> Result<(SNode, PState), ErrorKind>
    decreases measure(s, st), 3int,
{
    match parse_factor(s, st) {
        Err(e) => Err(e),
        Ok((n, st1)) => if kept(s, st, st1) {
            parse_term_tail(s, st1, n)
        } else {
            Err(ErrorKind::Syntax)
        },
    }
}

/// The `* factor` and `/ factor` that follow `left`.
pub open spec fn parse_term_tail(s: Seq<char>, st: PState, left: SNode) -> Result<
    (SNode, PState),
    ErrorKind,
>
    decreases measure(s, st), 2int,
{
    if st.pos >= 0 && (st.tok == TokenType::Mul || st.tok == TokenType::Div) {
        match consume(s, st, st.tok) {
            Err(e) => Err(e),
            Ok(st1) => {
                proof {
                    lemma_eat_progress(s, st, st.tok);
                }
                match parse_factor(s, st1) {
                    Err(e) => Err(e),
                    Ok((r, st2)) => if kept(s, st1, st2) {
                        parse_term_tail(s, st2, SNode::BinOp(Box::new(left), st.tok, Box::new(r)))
                    } else {
                        Err(ErrorKind::Syntax)
                    },
                }
            },
        }
    } else {
        Ok((left, st))
    }
}

/// Terms joined by `+` and `-`, grouped to the left.
pub open spec fn parse_expr(s: Seq<char>, st: PState) -> Result<(SNode, PState), ErrorKind>
    decreases measure(s, st), 5int,
{
    match parse_term(s, st) {
        Err(e) => Err(e),
        Ok((n, st1)) => if kept(s, st, st1) {
            parse_expr_tail(s, st1, n)
        } else {
            Err(ErrorKind::Syntax)
        },
    }
}

/// The `+ term` and `- term` that follow `left`.
pub open spec fn parse_expr_tail(s: Seq<char>, st: PState, left: SNode) -> Result<
    (SNode, PState),
    ErrorKind,
>
    decreases measure(s, st), 4int,
{
    if st.pos >= 0 && (st.tok == TokenType::Plus || st.tok == TokenType::Minus) {
        match consume(s, st, st.tok) {
            Err(e) => Err(e),
            Ok(st1) => {
                proof {
                    lemma_eat_progress(s, st, st.tok);
                }
                match parse_term(s, st1) {
                    Err(e) => Err(e),
                    Ok((r, st2)) => if kept(s, st1, st2) {
                        parse_expr_tail(s, st2, SNode::BinOp(Box::new(left), st.tok, Box::new(r)))
                    } else {
                        Err(ErrorKind::Syntax)
                    },
                }
            },
        }
    } else {
        Ok((left, st))
    }
}

/// `! expr`; or an expression, optionally followed by `<`, `=` or `&` and a second one;
/// a lone expression is kept under the `;` operator, with an empty right side.
pub open spec fn parse_bool_expr(s: Seq<char>, st: PState) -> Result<(SNode, PState), ErrorKind> {
    if st.tok == TokenType::Not {
        match consume(s, st, TokenType::Not) {
            Err(e) => Err(e),
            Ok(st1) => match parse_expr(s, st1) {
                Err(e) => Err(e),
                Ok((r, st2)) => Ok((SNode::BoolExpr(Box::new(SNode::NoOp), st.tok, Box::new(r)), st2)),
            },
        }
    } else {
        match parse_expr(s, st) {
            Err(e) => Err(e),
            Ok((l, st1)) => {
                let op = st1.tok;
                if op == TokenType::LessThan || op == TokenType::Equal || op == TokenType::And {
                    match consume(s, st1, op) {
                        Err(e) => Err(e),
                        Ok(st2) => match parse_expr(s, st2) {
                            Err(e) => Err(e),
                            Ok((r, st3)) => Ok((SNode::BoolExpr(Box::new(l), op, Box::new(r)), st3)),
                        },
                    }
                } else {
                    Ok(
                        (
                            SNode::BoolExpr(Box::new(l), TokenType::Semi, Box::new(SNode::NoOp)),
                            st1,
                        ),
                    )
                }
            },
        }
    }
}

/// A successful parse from `st` ends at a state that did not move back.
pub open spec fn parse_kept(s: Seq<char>, st: PState, r: Result<(SNode, PState), ErrorKind>) -> bool {
    r is Ok ==> kept(s, st, r->Ok_0.1)
}

pub proof fn lemma_factor_kept(s: Seq<char>, st: PState)
    requires
        0 <= st.pos,
    ensures
        parse_kept(s, st, parse_factor(s, st)),
    decreases measure(s, st), 1int,
{
    lemma_eat_progress(s, st, TokenType::ID);
    lemma_eat_progress(s, st, TokenType::Integer);
    if st.tok == TokenType::Plus || st.tok == TokenType::Minus {
        lemma_eat_progress(s, st, st.tok);
        if let Ok(st1) = consume(s, st, st.tok) {
            lemma_factor_kept(s, st1);
        }
    } else if st.tok == TokenType::LeftParen {
        lemma_eat_progress(s, st, TokenType::LeftParen);
        if let Ok(st1) = consume(s, st, TokenType::LeftParen) {
            lemma_expr_kept(s, st1);
            if let Ok((_, st2)) = parse_expr(s, st1) {
                lemma_eat_progress(s, st2, TokenType::RightParen);
            }
        }
    }
}

pub proof fn lemma_term_kept(s: Seq<char>, st: PState)
    requires
        0 <= st.pos,
    ensures
        parse_kept(s, st, parse_term(s, st)),
    decreases measure(s, st), 3int,
{
    lemma_factor_kept(s, st);
    if let Ok((n, st1)) = parse_factor(s, st) {
        if kept(s, st, st1) {
            lemma_term_tail_kept(s, st1, n);
        }
    }
}

pub proof fn lemma_term_tail_kept(s: Seq<char>, st: PState, left: SNode)
    requires
        0 <= st.pos,
    ensures
        parse_kept(s, st, parse_term_tail(s, st, left)),
    decreases measure(s, st), 2int,
{
    if st.tok == TokenType::Mul || st.tok == TokenType::Div {
        lemma_eat_progress(s, st, st.tok);
        if let Ok(st1) = consume(s, st, st.tok) {
            lemma_factor_kept(s, st1);
            if let Ok((r, st2)) = parse_factor(s, st1) {
                if kept(s, st1, st2) {
                    lemma_term_tail_kept(s, st2, SNode::BinOp(Box::new(left), st.tok, Box::new(r)));
                }
            }
        }
    }
}

pub proof fn lemma_expr_kept(s: Seq<char>, st: PState)
    requires
        0 <= st.pos,
    ensures
        parse_kept(s, st, parse_expr(s, st)),
    decreases measure(s, st), 5int,
{
    lemma_term_kept(s, st);
    if let Ok((n, st1)) = parse_term(s, st) {
        if kept(s, st, st1) {
            lemma_expr_tail_kept(s, st1, n);
        }
    }
}

pub proof fn lemma_expr_tail_kept(s: Seq<char>, st: PState, left: SNode)
    requires
        0 <= st.pos,
    ensures
        parse_kept(s, st, parse_expr_tail(s, st, left)),
    decreases measure(s, st), 4int,
{
    if st.tok == TokenType::Plus || st.tok == TokenType::Minus {
        lemma_eat_progress(s, st, st.tok);
        if let Ok(st1) = consume(s, st, st.tok) {
            lemma_term_kept(s, st1);
            if let Ok((r, st2)) = parse_term(s, st1) {
                if kept(s, st1, st2) {
                    lemma_expr_tail_kept(s, st2, SNode::BinOp(Box::new(left), st.tok, Box::new(r)));
                }
            }
        }
    }
}

pub proof fn lemma_bool_expr_kept(s: Seq<char>, st: PState)
    requires
        0 <= st.pos,
    ensures
        parse_kept(s, st, parse_bool_expr(s, st)),
{
    lemma_eat_progress(s, st, TokenType::Not);
    if st.tok == TokenType::Not {
        if let Ok(st1) = consume(s, st, TokenType::Not) {
            lemma_expr_kept(s, st1);
        }
    } else {
        lemma_expr_kept(s, st);
        if let Ok((_, st1)) = parse_expr(s, st) {
            if st1.tok == TokenType::LessThan || st1.tok == TokenType::Equal || st1.tok
                == TokenType::And {
                lemma_eat_progress(s, st1, st1.tok);
                if let Ok(st2) = consume(s, st1, st1.tok) {
                    lemma_expr_kept(s, st2);
                }
            }
        }
    }
}

/// The number of models is the number of nodes from `i` on, and each is its node's model.
pub proof fn lemma_nodes_view_index(v: Vec<Node>, i: int)
    requires
        0 <= i <= v.len(),
    ensures
        nodes_view(v, i).len() == v.len() - i,
        forall|k: int| 0 <= k < v.len() - i ==> #[trigger] nodes_view(v, i)[k] == node_view(v[i + k]),
    decreases v.len() - i,
{
    if i < v.len() {
        lemma_nodes_view_index(v, i + 1);
        assert forall|k: int| 0 <= k < v.len() - i implies #[trigger] nodes_view(v, i)[k] == node_view(
            v[i + k],
        ) by {
            if k > 0 {
                assert(nodes_view(v, i)[k] == nodes_view(v, i + 1)[k - 1]);
            }
        }
    }
}

/// Pushing a node pushes its model.
pub proof fn lemma_nodes_view_push(v: Vec<Node>, w: Vec<Node>, x: Node)
    requires
        w@ == v@.push(x),
    ensures
        nodes_view(w, 0) == nodes_view(v, 0).push(node_view(x)),
{
    lemma_nodes_view_index(v, 0);
    lemma_nodes_view_index(w, 0);
    assert(nodes_view(w, 0) =~= nodes_view(v, 0).push(node_view(x))) by {
        assert forall|k: int| 0 <= k < w.len() implies nodes_view(w, 0)[k] == nodes_view(v, 0).push(
            node_view(x),
        )[k] by {
            assert(w[0 + k] == w@[k]);
            if k < v.len() {
                assert(v[0 + k] == v@[k]);
            }
        }
    }
}

/// Only the empty statement has the empty statement as its model.
pub proof fn lemma_no_op_view(n: Node)
    ensures
        (node_view(n) is NoOp) == (n is NoOp),
{
}

/// Whether every statement of the list is the empty statement.
pub open spec fn only_no_ops(stmts: Seq<SNode>) -> bool {
    forall|k: int| 0 <= k < stmts.len() ==> (#[trigger] stmts[k]) is NoOp
}

/// `print` followed by a variable or a string literal.
pub open spec fn parse_print(s: Seq<char>, st: PState) -> Result<(SNode, PState), ErrorKind> {
    match consume(s, st, TokenType::Print) {
        Err(e) => Err(e),
        Ok(st1) => if st1.tok == TokenType::ID {
            match consume(s, st1, TokenType::ID) {
                Err(e) => Err(e),
                Ok(st2) => Ok((SNode::PrintVar(st1.val), st2)),
            }
        } else if st1.tok == TokenType::StringLiteral {
            match consume(s, st1, TokenType::StringLiteral) {
                Err(e) => Err(e),
                Ok(st2) => Ok((SNode::PrintStr(st1.val), st2)),
            }
        } else {
            Err(ErrorKind::Syntax)
        },
    }
}

/// `read` followed by a variable.
pub open spec fn parse_read(s: Seq<char>, st: PState) -> Result<(SNode, PState), ErrorKind> {
    match consume(s, st, TokenType::Read) {
        Err(e) => Err(e),
        Ok(st1) => if st1.tok == TokenType::ID {
            match consume(s, st1, TokenType::ID) {
                Err(e) => Err(e),
                Ok(st2) => Ok((SNode::Read(st1.val), st2)),
            }
        } else {
            Err(ErrorKind::Syntax)
        },
    }
}

/// `<name> := <expr>`.
pub open spec fn parse_assignment(s: Seq<char>, st: PState) -> Result<(SNode, PState), ErrorKind> {
    match consume(s, st, TokenType::ID) {
        Err(e) => Err(e),
        Ok(st1) => match consume(s, st1, TokenType::Assign) {
            Err(e) => Err(e),
            Ok(st2) => match parse_expr(s, st2) {
                Err(e) => Err(e),
                Ok((r, st3)) => Ok((SNode::Assign(st.val, Box::new(r)), st3)),
            },
        },
    }
}

/// The initializer of a declaration of type `t`: an expression for `int`, a string literal
/// or an expression for `string`, a boolean expression for `bool`.
pub open spec fn parse_initializer(s: Seq<char>, st: PState, t: TokenType) -> Result<
    (SNode, PState),
    ErrorKind,
> {
    if t == TokenType::Integer {
        parse_expr(s, st)
    } else if t == TokenType::Str {
        if st.tok == TokenType::StringLiteral {
            match consume(s, st, TokenType::StringLiteral) {
                Err(e) => Err(e),
                Ok(st1) => Ok((SNode::Str(st.val), st1)),
            }
        } else {
            parse_expr(s, st)
        }
    } else {
        parse_bool_expr(s, st)
    }
}

/// `var <name> : <type>`, optionally followed by `:=` and an initializer; whatever follows
/// a declaration without initializer is left to the statement list.
pub open spec fn parse_declaration(s: Seq<char>, st: PState) -> Result<(SNode, PState), ErrorKind> {
    match consume(s, st, TokenType::Var) {
        Err(e) => Err(e),
        Ok(st1) => match consume(s, st1, TokenType::ID) {
            Err(e) => Err(e),
            Ok(st2) => match consume(s, st2, TokenType::Colon) {
                Err(e) => Err(e),
                Ok(st3) => {
                    let t = st3.tok;
                    if !(t == TokenType::Integer || t == TokenType::Str || t == TokenType::Bool) {
                        Err(ErrorKind::Syntax)
                    } else {
                        match consume(s, st3, t) {
                            Err(e) => Err(e),
                            Ok(st4) => if st4.tok == TokenType::Assign {
                                match consume(s, st4, TokenType::Assign) {
                                    Err(e) => Err(e),
                                    Ok(st5) => match parse_initializer(s, st5, t) {
                                        Err(e) => Err(e),
                                        Ok((r, st6)) => Ok(
                                            (SNode::DeclAssign(st1.val, t, Box::new(r)), st6),
                                        ),
                                    },
                                }
                            } else {
                                Ok((SNode::VarDecl(st1.val, t), st4))
                            },
                        }
                    }
                },
            },
        },
    }
}

/// One statement, chosen by its first token; any other token starts the empty statement.
pub open spec fn parse_statement(s: Seq<char>, st: PState) -> Result<(SNode, PState), ErrorKind>
    decreases measure(s, st), 9int,
{
    if st.tok == TokenType::ID {
        parse_assignment(s, st)
    } else if st.tok == TokenType::Var {
        parse_declaration(s, st)
    } else if st.tok == TokenType::Print {
        parse_print(s, st)
    } else if st.tok == TokenType::Read {
        parse_read(s, st)
    } else if st.tok == TokenType::For {
        parse_for(s, st)
    } else if st.tok == TokenType::If {
        parse_if(s, st)
    } else {
        Ok((SNode::NoOp, st))
    }
}

/// Statements separated by `;`; an identifier right after the list is an error.
pub open spec fn parse_list(s: Seq<char>, st: PState) -> Result<(Seq<SNode>, PState), ErrorKind>
    decreases measure(s, st), 10int,
{
    match parse_statement(s, st) {
        Err(e) => Err(e),
        Ok((n, st1)) => if kept(s, st, st1) {
            parse_list_tail(s, st1, seq![n])
        } else {
            Err(ErrorKind::Syntax)
        },
    }
}

/// The `; statement` that follow the statements `acc`.
pub open spec fn parse_list_tail(s: Seq<char>, st: PState, acc: Seq<SNode>) -> Result<
    (Seq<SNode>, PState),
    ErrorKind,
>
    decreases measure(s, st), 7int,
{
    if st.pos >= 0 && st.tok == TokenType::Semi {
        match consume(s, st, TokenType::Semi) {
            Err(e) => Err(e),
            Ok(st1) => {
                proof {
                    lemma_eat_progress(s, st, TokenType::Semi);
                }
                match parse_statement(s, st1) {
                    Err(e) => Err(e),
                    Ok((n, st2)) => if kept(s, st1, st2) {
                        parse_list_tail(s, st2, acc.push(n))
                    } else {
                        Err(ErrorKind::Syntax)
                    },
                }
            },
        }
    } else if st.tok == TokenType::ID {
        Err(ErrorKind::Syntax)
    } else {
        Ok((acc, st))
    }
}

/// `if <bool_expr> do <statements> [else <statements>] end if`; without `else`, the second
/// list is parsed at `end`, where it is a single empty statement.
pub open spec fn parse_if(s: Seq<char>, st: PState) -> Result<(SNode, PState), ErrorKind>
    decreases measure(s, st), 8int,
{
    if st.pos < 0 {
        Err(ErrorKind::Syntax)
    } else {
        match consume(s, st, TokenType::If) {
            Err(e) => Err(e),
            Ok(st1) => match parse_bool_expr(s, st1) {
                Err(e) => Err(e),
                Ok((c, st2)) => if !kept(s, st1, st2) {
                    Err(ErrorKind::Syntax)
                } else {
                    match consume(s, st2, TokenType::Do) {
                        Err(e) => Err(e),
                        Ok(st3) => {
                            proof {
                                lemma_eat_progress(s, st, TokenType::If);
                                lemma_eat_progress(s, st2, TokenType::Do);
                            }
                            match parse_list(s, st3) {
                                Err(e) => Err(e),
                                Ok((a, st4)) => if !kept(s, st3, st4) {
                                    Err(ErrorKind::Syntax)
                                } else {
                                    let st5 = if st4.tok == TokenType::Else {
                                        consume(s, st4, TokenType::Else)
                                    } else {
                                        Ok(st4)
                                    };
                                    match st5 {
                                        Err(e) => Err(e),
                                        Ok(st5) => {
                                            proof {
                                                lemma_eat_progress(s, st4, TokenType::Else);
                                            }
                                            match parse_list(s, st5) {
                                                Err(e) => Err(e),
                                                Ok((b, st6)) => match consume(s, st6, TokenType::End) {
                                                    Err(e) => Err(e),
                                                    Ok(st7) => match consume(s, st7, TokenType::If) {
                                                        Err(e) => Err(e),
                                                        Ok(st8) => Ok(
                                                            (
                                                                SNode::IfStatement(Box::new(c), a, b),
                                                                st8,
                                                            ),
                                                        ),
                                                    },
                                                },
                                            }
                                        },
                                    }
                                },
                            }
                        },
                    }
                },
            },
        }
    }
}

/// `for <var> in <expr> .. <expr> do <statements> end for`; a body of empty statements
/// makes the whole loop the empty statement.
pub open spec fn parse_for(s: Seq<char>, st: PState) -> Result<(SNode, PState), ErrorKind>
    decreases measure(s, st), 8int,
{
    if st.pos < 0 {
        Err(ErrorKind::Syntax)
    } else {
        match consume(s, st, TokenType::For) {
            Err(e) => Err(e),
            Ok(st1) => match consume(s, st1, TokenType::ID) {
                Err(e) => Err(e),
                Ok(st2) => match consume(s, st2, TokenType::In) {
                    Err(e) => Err(e),
                    Ok(st3) => match parse_expr(s, st3) {
                        Err(e) => Err(e),
                        Ok((a, st4)) => match consume(s, st4, TokenType::To) {
                            Err(e) => Err(e),
                            Ok(st5) => match parse_expr(s, st5) {
                                Err(e) => Err(e),
                                Ok((z, st6)) => match consume(s, st6, TokenType::Do) {
                                    Err(e) => Err(e),
                                    Ok(st7) => if !(kept(s, st, st1) && kept(s, st1, st2) && kept(
                                        s,
                                        st2,
                                        st3,
                                    ) && kept(s, st3, st4) && kept(s, st4, st5) && kept(s, st5, st6)) {
                                        Err(ErrorKind::Syntax)
                                    } else {
                                        proof {
                                            lemma_eat_progress(s, st6, TokenType::Do);
                                        }
                                        match parse_list(s, st7) {
                                            Err(e) => Err(e),
                                            Ok((body, st8)) => {
                                                let n = if only_no_ops(body) {
                                                    SNode::NoOp
                                                } else {
                                                    SNode::ForLoop(
                                                        st1.val,
                                                        Box::new(a),
                                                        Box::new(z),
                                                        body,
                                                    )
                                                };
                                                match consume(s, st8, TokenType::End) {
                                                    Err(e) => Err(e),
                                                    Ok(st9) => match consume(s, st9, TokenType::For) {
                                                        Err(e) => Err(e),
                                                        Ok(st10) => Ok((n, st10)),
                                                    },
                                                }
                                            },
                                        }
                                    },
                                },
                            },
                        },
                    },
                },
            },
        }
    }
}

pub open spec fn list_kept(s: Seq<char>, st: PState, r: Result<(Seq<SNode>, PState), ErrorKind>) -> bool {
    r is Ok ==> kept(s, st, r->Ok_0.1)
}

pub proof fn lemma_print_kept(s: Seq<char>, st: PState)
    requires
        0 <= st.pos,
    ensures
        parse_kept(s, st, parse_print(s, st)),
{
    lemma_eat_progress(s, st, TokenType::Print);
    if let Ok(st1) = consume(s, st, TokenType::Print) {
        lemma_eat_progress(s, st1, TokenType::ID);
        lemma_eat_progress(s, st1, TokenType::StringLiteral);
    }
}

pub proof fn lemma_read_kept(s: Seq<char>, st: PState)
    requires
        0 <= st.pos,
    ensures
        parse_kept(s, st, parse_read(s, st)),
{
    lemma_eat_progress(s, st, TokenType::Read);
    if let Ok(st1) = consume(s, st, TokenType::Read) {
        lemma_eat_progress(s, st1, TokenType::ID);
    }
}

pub proof fn lemma_assignment_kept(s: Seq<char>, st: PState)
    requires
        0 <= st.pos,
    ensures
        parse_kept(s, st, parse_assignment(s, st)),
{
    lemma_eat_progress(s, st, TokenType::ID);
    if let Ok(st1) = consume(s, st, TokenType::ID) {
        lemma_eat_progress(s, st1, TokenType::Assign);
        if let Ok(st2) = consume(s, st1, TokenType::Assign) {
            lemma_expr_kept(s, st2);
        }
    }
}

pub proof fn lemma_initializer_kept(s: Seq<char>, st: PState, t: TokenType)
    requires
        0 <= st.pos,
    ensures
        parse_kept(s, st, parse_initializer(s, st, t)),
{
    lemma_expr_kept(s, st);
    lemma_bool_expr_kept(s, st);
    lemma_eat_progress(s, st, TokenType::StringLiteral);
}

pub proof fn lemma_declaration_kept(s: Seq<char>, st: PState)
    requires
        0 <= st.pos,
    ensures
        parse_kept(s, st, parse_declaration(s, st)),
{
    lemma_eat_progress(s, st, TokenType::Var);
    if let Ok(st1) = consume(s, st, TokenType::Var) {
        lemma_eat_progress(s, st1, TokenType::ID);
        if let Ok(st2) = consume(s, st1, TokenType::ID) {
            lemma_eat_progress(s, st2, TokenType::Colon);
            if let Ok(st3) = consume(s, st2, TokenType::Colon) {
                let t = st3.tok;
                if t == TokenType::Integer || t == TokenType::Str || t == TokenType::Bool {
                    lemma_eat_progress(s, st3, t);
                    if let Ok(st4) = consume(s, st3, t) {
                        lemma_eat_progress(s, st4, TokenType::Assign);
                        if let Ok(st5) = consume(s, st4, TokenType::Assign) {
                            lemma_initializer_kept(s, st5, t);
                        }
                    }
                }
            }
        }
    }
}

pub proof fn lemma_statement_kept(s: Seq<char>, st: PState)
    requires
        0 <= st.pos,
    ensures
        parse_kept(s, st, parse_statement(s, st)),
    decreases measure(s, st), 9int,
{
    if st.tok == TokenType::ID {
        lemma_assignment_kept(s, st);
    } else if st.tok == TokenType::Var {
        lemma_declaration_kept(s, st);
    } else if st.tok == TokenType::Print {
        lemma_print_kept(s, st);
    } else if st.tok == TokenType::Read {
        lemma_read_kept(s, st);
    } else if st.tok == TokenType::For {
        lemma_for_kept(s, st);
    } else if st.tok == TokenType::If {
        lemma_if_kept(s, st);
    }
}

pub proof fn lemma_list_kept(s: Seq<char>, st: PState)
    requires
        0 <= st.pos,
    ensures
        list_kept(s, st, parse_list(s, st)),
    decreases measure(s, st), 10int,
{
    lemma_statement_kept(s, st);
    if let Ok((n, st1)) = parse_statement(s, st) {
        if kept(s, st, st1) {
            lemma_list_tail_kept(s, st1, seq![n]);
        }
    }
}

pub proof fn lemma_list_tail_kept(s: Seq<char>, st: PState, acc: Seq<SNode>)
    requires
        0 <= st.pos,
    ensures
        list_kept(s, st, parse_list_tail(s, st, acc)),
    decreases measure(s, st), 7int,
{
    if st.tok == TokenType::Semi {
        lemma_eat_progress(s, st, TokenType::Semi);
        if let Ok(st1) = consume(s, st, TokenType::Semi) {
            lemma_statement_kept(s, st1);
            if let Ok((n, st2)) = parse_statement(s, st1) {
                if kept(s, st1, st2) {
                    lemma_list_tail_kept(s, st2, acc.push(n));
                }
            }
        }
    }
}

pub proof fn lemma_if_kept(s: Seq<char>, st: PState)
    requires
        0 <= st.pos,
    ensures
        parse_kept(s, st, parse_if(s, st)),
    decreases measure(s, st), 8int,
{
    lemma_eat_progress(s, st, TokenType::If);
    if let Ok(st1) = consume(s, st, TokenType::If) {
        if let Ok((c, st2)) = parse_bool_expr(s, st1) {
            if kept(s, st1, st2) {
                lemma_eat_progress(s, st2, TokenType::Do);
                if let Ok(st3) = consume(s, st2, TokenType::Do) {
                    lemma_list_kept(s, st3);
                    if let Ok((a, st4)) = parse_list(s, st3) {
                        if kept(s, st3, st4) {
                            lemma_eat_progress(s, st4, TokenType::Else);
                            let st5 = if st4.tok == TokenType::Else {
                                consume(s, st4, TokenType::Else)
                            } else {
                                Ok(st4)
                            };
                            if let Ok(st5) = st5 {
                                lemma_list_kept(s, st5);
                                if let Ok((b, st6)) = parse_list(s, st5) {
                                    lemma_eat_progress(s, st6, TokenType::End);
                                    if let Ok(st7) = consume(s, st6, TokenType::End) {
                                        lemma_eat_progress(s, st7, TokenType::If);
                                    }
                                }
                            }
                        }
                    }
                }
            }
        }
    }
}

pub proof fn lemma_for_kept(s: Seq<char>, st: PState)
    requires
        0 <= st.pos,
    ensures
        parse_kept(s, st, parse_for(s, st)),
    decreases measure(s, st), 8int,
{
    lemma_eat_progress(s, st, TokenType::For);
    if let Ok(st1) = consume(s, st, TokenType::For) {
        lemma_eat_progress(s, st1, TokenType::ID);
        if let Ok(st2) = consume(s, st1, TokenType::ID) {
            lemma_eat_progress(s, st2, TokenType::In);
            if let Ok(st3) = consume(s, st2, TokenType::In) {
                lemma_expr_kept(s, st3);
                if let Ok((a, st4)) = parse_expr(s, st3) {
                    lemma_eat_progress(s, st4, TokenType::To);
                    if let Ok(st5) = consume(s, st4, TokenType::To) {
                        lemma_expr_kept(s, st5);
                        if let Ok((z, st6)) = parse_expr(s, st5) {
                            lemma_eat_progress(s, st6, TokenType::Do);
                            if let Ok(st7) = consume(s, st6, TokenType::Do) {
                                lemma_list_kept(s, st7);
                                if let Ok((body, st8)) = parse_list(s, st7) {
                                    lemma_eat_progress(s, st8, TokenType::End);
                                    if let Ok(st9) = consume(s, st8, TokenType::End) {
                                        lemma_eat_progress(s, st9, TokenType::For);
                                    }
                                }
                            }
                        }
                    }
                }
            }
        }
    }
}

/// A whole program: a statement list that the end of the input follows.
pub open spec fn parse_program(s: Seq<char>, st: PState) -> Result<(SNode, PState), ErrorKind> {
    match parse_list(s, st) {
        Err(e) => Err(e),
        Ok((stmts, st1)) => if st1.tok == TokenType::EOF {
            Ok((SNode::Program(stmts), st1))
        } else {
            Err(ErrorKind::Syntax)
        },
    }
}

} // verus!
