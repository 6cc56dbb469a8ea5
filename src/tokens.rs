use vstd::prelude::*;

verus! {

/// Lexical categories of the language.
#[derive(Clone, Copy, PartialEq, Eq, Debug, Structural)]
pub enum TokenType {
    Str,
    Bool,
    Var,
    Integer,
    Plus,
    Minus,
    Mul,
    Div,
    RightParen,
    LeftParen,
    ID,
    Assign,
    Semi,
    Colon,
    EOF,
    Print,
    Read,
    StringLiteral,
    For,
    End,
    If,
    Else,
    Do,
    In,
    To,
    Equal,
    LessThan,
    And,
    Not,
}

/// A runtime value, also used as the literal payload of a token.
#[derive(Clone, Debug)]
pub enum Value {
    Boolean(bool),
    Number(i32),
    Char(char),
    String(String),
    Empty,
}

/// The mathematical model of a `Value`: strings are seen as character sequences.
pub enum Val {
    Boolean(bool),
    Number(i32),
    Char(char),
    Text(Seq<char>),
    Nothing,
}

impl View for Value {
    type V = Val;

    open spec fn view(&self) -> Val {
        match self {
            Value::Boolean(b) => Val::Boolean(*b),
            Value::Number(n) => Val::Number(*n),
            Value::Char(c) => Val::Char(*c),
            Value::String(s) => Val::Text(s@),
            Value::Empty => Val::Nothing,
        }
    }
}

impl PartialEq for Value {
    fn eq(&self, o: &Value) -> (r: bool) {
        match (self, o) {
            (Value::Boolean(a), Value::Boolean(b)) => *a == *b,
            (Value::Number(a), Value::Number(b)) => *a == *b,
            (Value::Char(a), Value::Char(b)) => *a == *b,
            (Value::String(a), Value::String(b)) => *a == *b,
            (Value::Empty, Value::Empty) => true,
            _ => false,
        }
    }
}

impl vstd::std_specs::cmp::PartialEqSpecImpl for Value {
    open spec fn obeys_eq_spec() -> bool {
        true
    }

    open spec fn eq_spec(&self, o: &Value) -> bool {
        self@ == o@
    }
}

impl Value {
    /// A copy of the value with the same model.
    pub fn duplicate(&self) -> (r: Value)
        ensures
            r@ == self@,
    {
        match self {
            Value::Boolean(b) => Value::Boolean(*b),
            Value::Number(n) => Value::Number(*n),
            Value::Char(c) => Value::Char(*c),
            Value::String(s) => Value::String(s.clone()),
            Value::Empty => Value::Empty,
        }
    }
}

/// A token: its category and its literal payload.
#[derive(Clone, Debug)]
pub struct Token {
    pub type_: TokenType,
    pub value: Value,
}

impl Token {
    pub fn new(type_: TokenType, value: Value) -> (r: Token)
        ensures
            r.type_ == type_,
            r.value == value,
    {
        Token { type_, value }
    }

    /// A copy of the token with the same category and the same model of its payload.
    pub fn duplicate(&self) -> (r: Token)
        ensures
            r.type_ == self.type_,
            r.value@ == self.value@,
    {
        Token { type_: self.type_, value: self.value.duplicate() }
    }
}

} // verus!
