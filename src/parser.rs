use vstd::prelude::*;
use crate::error::ErrorKind;
use crate::nodes::{
    Assign, BinOp, BoolExpr, DeclAssign, ForLoop, IfStatement, Node, Num, PrintStr, PrintVar,
    Program, Read, Str, Type, UnaryOp, Var, VarDecl,
};
use crate::grammar::{
    consume, lemma_no_op_view, lemma_nodes_view_index, lemma_nodes_view_push, measure,
    node_view, nodes_view, only_no_ops, parse_assignment, parse_bool_expr, parse_declaration,
    parse_expr, parse_expr_tail, parse_factor, parse_for, parse_if, parse_initializer, parse_list, parse_list_tail,
    parse_print, parse_program, parse_read, parse_statement, parse_term, parse_term_tail, PState,
    SNode,
};
use crate::scanner::{lemma_next_token_progress, next_token, Scanner};
use crate::tokens::{Token, TokenType, Val, Value};

verus! {

/// Whether every statement of the list is the empty statement.
pub open spec fn all_empty(stmts: Seq<Node>) -> bool {
    forall|k: int| 0 <= k < stmts.len() ==> stmts[k] is NoOp
}

/// The outcome of a parsing step, as a model.
pub open spec fn parsed(r: Result<Node, ErrorKind>, st: PState) -> Result<(SNode, PState), ErrorKind> {
    match r {
        Ok(n) => Ok((node_view(n), st)),
        Err(e) => Err(e),
    }
}

/// The outcome of parsing a statement list, as a model.
pub open spec fn parsed_list(r: Result<Vec<Node>, ErrorKind>, st: PState) -> Result<
    (Seq<SNode>, PState),
    ErrorKind,
> {
    match r {
        Ok(v) => Ok((nodes_view(v, 0), st)),
        Err(e) => Err(e),
    }
}

/// A list holds only empty statements exactly when its model does.
pub proof fn lemma_only_no_ops(v: Vec<Node>)
    ensures
        all_empty(v@) == only_no_ops(nodes_view(v, 0)),
{
    lemma_nodes_view_index(v, 0);
    assert forall|k: int| 0 <= k < v.len() implies (v@[k] is NoOp) == (nodes_view(v, 0)[k] is NoOp) by {
        assert(v[0 + k] == v@[k]);
        lemma_no_op_view(v@[k]);
    }
}

/// Builds the syntax tree of a program, pulling one token at a time from its scanner.
pub struct Parser {
    pub scanner: Scanner,
    pub current_token: Token,
}

impl Parser {
    /// Where parsing stands: the current token and the scanning position after it.
    pub open spec fn pstate(&self) -> PState {
        PState {
            tok: self.current_token.type_,
            val: self.current_token.value@,
            pos: self.scanner.pos as int,
        }
    }

    /// What is left to parse: the characters not yet scanned, and the current token
    /// unless it is the end of the input.
    pub open spec fn remaining(&self) -> int {
        measure(self.scanner.text@, self.pstate())
    }

    /// Whether `self` goes on parsing the same text as `other`, without moving back.
    pub open spec fn follows(&self, other: &Parser) -> bool {
        &&& self.scanner.text@ == other.scanner.text@
        &&& self.remaining() <= other.remaining()
    }

    /// A parser on the scanner's text, with its first token read.
    pub fn new(scanner: Scanner) -> (r: Result<Parser, ErrorKind>)
        ensures
            match r {
                Ok(p) => p.scanner.text@ == scanner.text@ && next_token(
                    scanner.text@,
                    scanner.pos as int,
                ) == Ok::<(TokenType, Val, int), ErrorKind>(
                    (p.current_token.type_, p.current_token.value@, p.scanner.pos as int),
                ),
                Err(e) => next_token(scanner.text@, scanner.pos as int) == Err::<
                    (TokenType, Val, int),
                    ErrorKind,
                >(e),
            },
    {
        let mut scanner = scanner;
        let current_token = scanner.get_next_token()?;
        Ok(Parser { scanner, current_token })
    }

    /// The whole program; fails unless the input ends after its last statement.
    pub fn parse(&mut self) -> (r: Result<Node, ErrorKind>)
        ensures
            parse_program(old(self).scanner.text@, old(self).pstate()) == parsed(r, final(self).pstate()),
            final(self).follows(old(self)),
            r is Ok ==> r->Ok_0 is Program && final(self).current_token.type_ == TokenType::EOF,
    {
        let node = self.program()?;
        if self.current_token.type_ == TokenType::EOF {
            Ok(node)
        } else {
            Err(ErrorKind::Syntax)
        }
    }

    fn program(&mut self) -> (r: Result<Node, ErrorKind>)
        ensures
            match r {
                Ok(n) => n is Program && parse_list(old(self).scanner.text@, old(self).pstate())
                    == Ok::<(Seq<SNode>, PState), ErrorKind>(
                    (nodes_view(n->Program_0.children, 0), final(self).pstate()),
                ),
                Err(e) => parse_list(old(self).scanner.text@, old(self).pstate()) == Err::<
                    (Seq<SNode>, PState),
                    ErrorKind,
                >(e),
            },
            final(self).follows(old(self)),
            r is Ok ==> r->Ok_0 is Program,
    {
        let nodes = self.statement_list()?;
        let mut root = Program::new();
        root.children = nodes;
        assert(root.children == nodes);
        Ok(Node::Program(root))
    }

    /// Statements separated by `;`.
    #[verifier::rlimit(40)]
    fn statement_list(&mut self) -> (r: Result<Vec<Node>, ErrorKind>)
        ensures
            parse_list(old(self).scanner.text@, old(self).pstate()) == parsed_list(r, final(self).pstate()),
            final(self).follows(old(self)),
            r is Ok ==> r->Ok_0@.len() >= 1 && final(self).current_token.type_ != TokenType::Semi
                && final(self).current_token.type_ != TokenType::ID,
        decreases old(self).remaining(), 10int,
    {
        let node = self.statement()?;
        let mut results: Vec<Node> = Vec::new();
        proof {
            lemma_nodes_view_index(results, 0);
        }
        let ghost before = results;
        results.push(node);
        proof {
            lemma_nodes_view_push(before, results, node);
            assert(nodes_view(results, 0) =~= seq![node_view(node)]);
        }
        while self.current_token.type_ == TokenType::Semi
            invariant
                self.follows(old(self)),
                results@.len() >= 1,
                parse_list(old(self).scanner.text@, old(self).pstate()) == parse_list_tail(
                    self.scanner.text@,
                    self.pstate(),
                    nodes_view(results, 0),
                ),
            decreases self.remaining(),
        {
            self.eat(TokenType::Semi)?;
            let next = self.statement()?;
            let ghost before = results;
            results.push(next);
            proof {
                lemma_nodes_view_push(before, results, next);
            }
        }
        if self.current_token.type_ == TokenType::ID {
            return Err(ErrorKind::Syntax);
        }
        Ok(results)
    }

    fn statement(&mut self) -> (r: Result<Node, ErrorKind>)
        ensures
            parse_statement(old(self).scanner.text@, old(self).pstate()) == parsed(r, final(self).pstate()),
            final(self).follows(old(self)),
        decreases old(self).remaining(), 9int,
    {
        match self.current_token.type_ {
            TokenType::ID => self.assignment_statement(),
            TokenType::Var => self.declaration_statement(),
            TokenType::Print => self.print_statement(),
            TokenType::Read => self.read_statement(),
            TokenType::For => self.for_loop(),
            TokenType::If => self.if_statement(),
            _ => Ok(self.empty()),
        }
    }

    fn empty(&self) -> (r: Node)
        ensures
            r is NoOp,
    {
        Node::NoOp
    }

    /// A variable reference: the current token, which must be an identifier.
    fn variable(&mut self) -> (r: Result<Var, ErrorKind>)
        ensures
            final(self).follows(old(self)),
            match r {
                Ok(v) => consume(old(self).scanner.text@, old(self).pstate(), TokenType::ID) == Ok::<
                    PState,
                    ErrorKind,
                >(final(self).pstate()) && v.token.type_ == TokenType::ID && v.value@ == old(
                    self,
                ).current_token.value@,
                Err(e) => consume(old(self).scanner.text@, old(self).pstate(), TokenType::ID)
                    == Err::<PState, ErrorKind>(e),
            },
    {
        let node = Var::new(self.current_token.duplicate());
        self.eat(TokenType::ID)?;
        Ok(node)
    }

    fn print_statement(&mut self) -> (r: Result<Node, ErrorKind>)
        requires
            old(self).current_token.type_ == TokenType::Print,
        ensures
            parse_print(old(self).scanner.text@, old(self).pstate()) == parsed(r, final(self).pstate()),
            final(self).follows(old(self)),
            r is Ok ==> r->Ok_0 is PrintVar || r->Ok_0 is PrintStr,
    {
        self.eat(TokenType::Print)?;
        match self.current_token.type_ {
            TokenType::ID => {
                let var_node = self.variable()?;
                Ok(Node::PrintVar(Box::new(PrintVar::new(var_node))))
            },
            TokenType::StringLiteral => {
                let string_token = self.current_token.duplicate();
                self.eat(TokenType::StringLiteral)?;
                Ok(Node::PrintStr(Box::new(PrintStr::new(string_token.value))))
            },
            _ => Err(ErrorKind::Syntax),
        }
    }

    fn read_statement(&mut self) -> (r: Result<Node, ErrorKind>)
        requires
            old(self).current_token.type_ == TokenType::Read,
        ensures
            parse_read(old(self).scanner.text@, old(self).pstate()) == parsed(r, final(self).pstate()),
            final(self).follows(old(self)),
            r is Ok ==> r->Ok_0 is Read,
    {
        self.eat(TokenType::Read)?;
        match self.current_token.type_ {
            TokenType::ID => {
                let var_node = self.variable()?;
                Ok(Node::Read(Box::new(Read::new(var_node))))
            },
            _ => Err(ErrorKind::Syntax),
        }
    }

    fn assignment_statement(&mut self) -> (r: Result<Node, ErrorKind>)
        requires
            old(self).current_token.type_ == TokenType::ID,
        ensures
            parse_assignment(old(self).scanner.text@, old(self).pstate()) == parsed(r, final(self).pstate()),
            final(self).follows(old(self)),
            r is Ok ==> r->Ok_0 is Assign,
    {
        let left = self.variable()?;
        let token = self.current_token.duplicate();
        self.eat(TokenType::Assign)?;
        let right = self.expr()?;
        Ok(Node::Assign(Box::new(Assign::new(left, token, right))))
    }

    /// `var <name> : <type>`, optionally followed by `:=` and an initializer: an expression
    /// for `int`, a string literal or an expression for `string`, a boolean expression for `bool`.
    #[verifier::rlimit(40)]
    fn declaration_statement(&mut self) -> (r: Result<Node, ErrorKind>)
        requires
            old(self).current_token.type_ == TokenType::Var,
        ensures
            parse_declaration(old(self).scanner.text@, old(self).pstate()) == parsed(r, final(self).pstate()),
            final(self).follows(old(self)),
            r is Ok ==> r->Ok_0 is VarDecl || r->Ok_0 is DeclAssign,
    {
        let ghost s = self.scanner.text@;
        self.eat(TokenType::Var)?;
        let ghost st1 = self.pstate();
        let var_node = self.variable()?;
        self.eat(TokenType::Colon)?;
        let ghost st3 = self.pstate();
        let type_kind = self.current_token.type_;
        if type_kind != TokenType::Integer && type_kind != TokenType::Str && type_kind
            != TokenType::Bool {
            return Err(ErrorKind::Syntax);
        }
        let type_node = Type::new(self.current_token.duplicate());
        self.eat(type_kind)?;
        let ghost st4 = self.pstate();
        assert(consume(s, st3, type_kind) == Ok::<PState, ErrorKind>(st4));
        if self.current_token.type_ == TokenType::Assign {
            let token = self.current_token.duplicate();
            self.eat(TokenType::Assign)?;
            let right = self.initializer(type_kind)?;
            let n = DeclAssign::new(var_node, type_node, token, right);
            assert(node_view(Node::DeclAssign(Box::new(n))) == SNode::DeclAssign(
                st1.val,
                type_kind,
                Box::new(node_view(right)),
            ));
            Ok(Node::DeclAssign(Box::new(n)))
        } else {
            let n = VarDecl::new(var_node, type_node);
            assert(node_view(Node::VarDecl(Box::new(n))) == SNode::VarDecl(st1.val, type_kind));
            Ok(Node::VarDecl(Box::new(n)))
        }
    }

    /// The initializer of a declaration of the given type.
    fn initializer(&mut self, type_kind: TokenType) -> (r: Result<Node, ErrorKind>)
        ensures
            final(self).follows(old(self)),
            parse_initializer(old(self).scanner.text@, old(self).pstate(), type_kind) == parsed(
                r,
                final(self).pstate(),
            ),
    {
        if type_kind == TokenType::Integer {
            self.expr()
        } else if type_kind == TokenType::Str {
            if self.current_token.type_ == TokenType::StringLiteral {
                let string_token = self.current_token.duplicate();
                self.eat(TokenType::StringLiteral)?;
                Ok(Node::Str(Str::new(string_token)))
            } else {
                self.expr()
            }
        } else {
            self.bool_expr()
        }
    }

    /// `if <bool_expr> do <statements> [else <statements>] end if`.
    #[verifier::rlimit(40)]
    fn if_statement(&mut self) -> (r: Result<Node, ErrorKind>)
        requires
            old(self).current_token.type_ == TokenType::If,
        ensures
            parse_if(old(self).scanner.text@, old(self).pstate()) == parsed(r, final(self).pstate()),
            final(self).follows(old(self)),
            r is Ok ==> r->Ok_0 is IfStatement,
        decreases old(self).remaining(), 8int,
    {
        let ghost s = self.scanner.text@;
        let ghost st0 = self.pstate();
        self.eat(TokenType::If)?;
        let ghost st1 = self.pstate();
        let bool_expr = self.bool_expr()?;
        let ghost st2 = self.pstate();
        assert(parse_bool_expr(s, st1) == Ok::<(SNode, PState), ErrorKind>(
            (node_view(bool_expr), st2),
        ));
        self.eat(TokenType::Do)?;
        let ghost st3 = self.pstate();
        let statements = self.statement_list()?;
        let ghost st4 = self.pstate();
        assert(parse_list(s, st3) == Ok::<(Seq<SNode>, PState), ErrorKind>(
            (nodes_view(statements, 0), st4),
        ));
        if self.current_token.type_ == TokenType::Else {
            self.eat(TokenType::Else)?;
        }
        let ghost st5 = self.pstate();
        let else_statements = self.statement_list()?;
        let ghost st6 = self.pstate();
        assert(parse_list(s, st5) == Ok::<(Seq<SNode>, PState), ErrorKind>(
            (nodes_view(else_statements, 0), st6),
        ));
        let node = Node::IfStatement(
            Box::new(IfStatement::new(bool_expr, statements, else_statements)),
        );
        assert(node_view(node) == SNode::IfStatement(
            Box::new(node_view(bool_expr)),
            nodes_view(statements, 0),
            nodes_view(else_statements, 0),
        ));
        self.eat(TokenType::End)?;
        self.eat(TokenType::If)?;
        Ok(node)
    }

    /// `for <var> in <expr> .. <expr> do <statements> end for`; a loop whose body holds
    /// only empty statements is the empty statement.
    #[verifier::rlimit(40)]
    fn for_loop(&mut self) -> (r: Result<Node, ErrorKind>)
        requires
            old(self).current_token.type_ == TokenType::For,
        ensures
            parse_for(old(self).scanner.text@, old(self).pstate()) == parsed(r, final(self).pstate()),
            final(self).follows(old(self)),
            r is Ok ==> (r->Ok_0 is NoOp || (r->Ok_0 is ForLoop && !all_empty(
                r->Ok_0->ForLoop_0.statements@,
            ))),
        decreases old(self).remaining(), 8int,
    {
        self.eat(TokenType::For)?;
        let var = self.variable()?;
        self.eat(TokenType::In)?;
        let start = self.expr()?;
        self.eat(TokenType::To)?;
        let end = self.expr()?;
        self.eat(TokenType::Do)?;
        let statements = self.statement_list()?;
        proof {
            lemma_only_no_ops(statements);
        }
        let node = if only_empty(&statements) {
            Node::NoOp
        } else {
            Node::ForLoop(Box::new(ForLoop::new(var, start, end, statements)))
        };
        self.eat(TokenType::End)?;
        self.eat(TokenType::For)?;
        Ok(node)
    }

    /// `+ factor`, `- factor`, an integer literal, `( expr )`, or a variable.
    #[verifier::rlimit(40)]
    fn factor(&mut self) -> (r: Result<Node, ErrorKind>)
        ensures
            final(self).follows(old(self)),
            parse_factor(old(self).scanner.text@, old(self).pstate()) == parsed(r, final(self).pstate()),
        decreases old(self).remaining(), 1int,
    {
        let token = self.current_token.duplicate();
        match token.type_ {
            TokenType::Plus => {
                self.eat(TokenType::Plus)?;
                let operand = self.factor()?;
                Ok(Node::UnaryOp(Box::new(UnaryOp::new(token, operand))))
            },
            TokenType::Minus => {
                self.eat(TokenType::Minus)?;
                let operand = self.factor()?;
                Ok(Node::UnaryOp(Box::new(UnaryOp::new(token, operand))))
            },
            TokenType::Integer => {
                self.eat(TokenType::Integer)?;
                Ok(Node::Num(Num::new(token)))
            },
            TokenType::LeftParen => {
                self.eat(TokenType::LeftParen)?;
                let node = self.expr()?;
                self.eat(TokenType::RightParen)?;
                Ok(node)
            },
            _ => Ok(Node::Var(self.variable()?)),
        }
    }

    /// Factors joined by `*` and `/`, grouped to the left.
    #[verifier::rlimit(40)]
    fn term(&mut self) -> (r: Result<Node, ErrorKind>)
        ensures
            final(self).follows(old(self)),
            parse_term(old(self).scanner.text@, old(self).pstate()) == parsed(r, final(self).pstate()),
        decreases old(self).remaining(), 2int,
    {
        let mut node = self.factor()?;
        while self.current_token.type_ == TokenType::Mul || self.current_token.type_
            == TokenType::Div
            invariant
                self.follows(old(self)),
                parse_term(old(self).scanner.text@, old(self).pstate()) == parse_term_tail(
                    self.scanner.text@,
                    self.pstate(),
                    node_view(node),
                ),
            decreases self.remaining(),
        {
            let token = self.current_token.duplicate();
            self.eat(token.type_)?;
            let right = self.factor()?;
            node = Node::BinOp(Box::new(BinOp::new(node, token, right)));
        }
        Ok(node)
    }

    /// `! expr`, or an expression optionally compared with `<`, `=` or joined with `&`.
    #[verifier::rlimit(40)]
    fn bool_expr(&mut self) -> (r: Result<Node, ErrorKind>)
        ensures
            final(self).follows(old(self)),
            parse_bool_expr(old(self).scanner.text@, old(self).pstate()) == parsed(r, final(self).pstate()),
            r is Ok ==> r->Ok_0 is BoolExpr && ({
                let op = r->Ok_0->BoolExpr_0.op.type_;
                op == TokenType::Not || op == TokenType::LessThan || op == TokenType::Equal
                    || op == TokenType::And || op == TokenType::Semi
            }),
    {
        let ghost s = self.scanner.text@;
        let ghost st0 = self.pstate();
        let token = self.current_token.duplicate();
        if token.type_ == TokenType::Not {
            self.eat(TokenType::Not)?;
            let right = self.expr()?;
            let n = BoolExpr::new(Node::NoOp, token, right);
            assert(node_view(Node::BoolExpr(Box::new(n))) == SNode::BoolExpr(
                Box::new(SNode::NoOp),
                TokenType::Not,
                Box::new(node_view(right)),
            ));
            return Ok(Node::BoolExpr(Box::new(n)));
        }
        let left = self.expr()?;
        let ghost st1 = self.pstate();
        assert(parse_expr(s, st0) == Ok::<(SNode, PState), ErrorKind>((node_view(left), st1)));
        let op = self.current_token.duplicate();
        if op.type_ == TokenType::LessThan || op.type_ == TokenType::Equal || op.type_
            == TokenType::And {
            self.eat(op.type_)?;
            let right = self.expr()?;
            let n = BoolExpr::new(left, op, right);
            assert(node_view(Node::BoolExpr(Box::new(n))) == SNode::BoolExpr(
                Box::new(node_view(left)),
                op.type_,
                Box::new(node_view(right)),
            ));
            Ok(Node::BoolExpr(Box::new(n)))
        } else {
            let n = BoolExpr::new(left, Token::new(TokenType::Semi, Value::Empty), Node::NoOp);
            assert(node_view(Node::NoOp) == SNode::NoOp);
            assert(node_view(Node::BoolExpr(Box::new(n))) == SNode::BoolExpr(
                Box::new(node_view(left)),
                TokenType::Semi,
                Box::new(SNode::NoOp),
            ));
            Ok(Node::BoolExpr(Box::new(n)))
        }
    }

    /// Terms joined by `+` and `-`, grouped to the left.
    #[verifier::rlimit(40)]
    fn expr(&mut self) -> (r: Result<Node, ErrorKind>)
        ensures
            final(self).follows(old(self)),
            parse_expr(old(self).scanner.text@, old(self).pstate()) == parsed(r, final(self).pstate()),
        decreases old(self).remaining(), 3int,
    {
        let mut node = self.term()?;
        while self.current_token.type_ == TokenType::Plus || self.current_token.type_
            == TokenType::Minus
            invariant
                self.follows(old(self)),
                parse_expr(old(self).scanner.text@, old(self).pstate()) == parse_expr_tail(
                    self.scanner.text@,
                    self.pstate(),
                    node_view(node),
                ),
            decreases self.remaining(),
        {
            let token = self.current_token.duplicate();
            self.eat(token.type_)?;
            let right = self.term()?;
            node = Node::BinOp(Box::new(BinOp::new(node, token, right)));
        }
        Ok(node)
    }

    /// Moves past the current token, which must be of the given category.
    fn eat(&mut self, token_type: TokenType) -> (r: Result<(), ErrorKind>)
        requires
            token_type != TokenType::EOF,
        ensures
            final(self).follows(old(self)),
            r is Ok ==> final(self).remaining() < old(self).remaining(),
            old(self).current_token.type_ != token_type ==> r == Err::<(), ErrorKind>(
                ErrorKind::Syntax,
            ),
            match r {
                Ok(_) => consume(old(self).scanner.text@, old(self).pstate(), token_type) == Ok::<
                    PState,
                    ErrorKind,
                >(final(self).pstate()),
                Err(e) => consume(old(self).scanner.text@, old(self).pstate(), token_type) == Err::<
                    PState,
                    ErrorKind,
                >(e),
            },
    {
        if self.current_token.type_ == token_type {
            proof {
                lemma_next_token_progress(self.scanner.text@, self.scanner.pos as int);
            }
            let saved = self.scanner.pos;
            match self.scanner.get_next_token() {
                Ok(t) => {
                    self.current_token = t;
                    Ok(())
                },
                Err(e) => {
                    self.scanner.pos = saved;
                    Err(e)
                },
            }
        } else {
            Err(ErrorKind::Syntax)
        }
    }
}

/// Whether every statement of the list is the empty statement.
fn only_empty(stmts: &Vec<Node>) -> (r: bool)
    ensures
        r == all_empty(stmts@),
{
    let mut i: usize = 0;
    while i < stmts.len()
        invariant
            i <= stmts.len(),
            all_empty(stmts@.subrange(0, i as int)),
        decreases stmts.len() - i,
    {
        if !matches!(stmts[i], Node::NoOp) {
            assert(!(stmts@[i as int] is NoOp));
            return false;
        }
        i = i + 1;
        assert(all_empty(stmts@.subrange(0, i as int))) by {
            assert forall|k: int| 0 <= k < i implies stmts@.subrange(0, i as int)[k] is NoOp by {
                if k < i - 1 {
                    assert(stmts@.subrange(0, i as int)[k] == stmts@.subrange(0, i - 1)[k]);
                }
            }
        }
    }
    assert(stmts@.subrange(0, stmts@.len() as int) =~= stmts@);
    true
}

} // verus!
