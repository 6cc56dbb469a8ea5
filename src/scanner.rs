use vstd::prelude::*;
use crate::error::ErrorKind;
use crate::text::{push_char, same_chars};
use crate::tokens::{Token, TokenType, Val, Value};

verus! {

pub open spec fn is_space(c: char) -> bool {
    c == ' ' || c == '\t' || c == '\n' || c == '\r' || c == '\x0B' || c == '\x0C'
}

pub open spec fn is_digit(c: char) -> bool {
    '0' <= c && c <= '9'
}

/// Letters, digits and `_`: the characters of an identifier or keyword.
pub open spec fn is_word_char(c: char) -> bool {
    ('a' <= c && c <= 'z') || ('A' <= c && c <= 'Z') || is_digit(c) || c == '_'
}

/// The first position at or after `p` that holds a newline, or the end of the input.
pub open spec fn line_end(s: Seq<char>, p: int) -> int
    decreases s.len() - p,
{
    if 0 <= p < s.len() && s[p] != '\n' {
        line_end(s, p + 1)
    } else {
        p
    }
}

/// The end of the run of digits that starts at `p`.
pub open spec fn digit_end(s: Seq<char>, p: int) -> int
    decreases s.len() - p,
{
    if 0 <= p < s.len() && is_digit(s[p]) {
        digit_end(s, p + 1)
    } else {
        p
    }
}

/// The end of the run of word characters that starts at `p`.
pub open spec fn word_end(s: Seq<char>, p: int) -> int
    decreases s.len() - p,
{
    if 0 <= p < s.len() && is_word_char(s[p]) {
        word_end(s, p + 1)
    } else {
        p
    }
}

/// The position just after the `*/` that closes a block comment whose text starts at `p`,
/// or the end of the input when none does.
pub open spec fn block_end(s: Seq<char>, p: int) -> int
    decreases s.len() - p,
{
    if p >= s.len() {
        s.len() as int
    } else if s[p] == '*' && p + 1 < s.len() && s[p + 1] == '/' {
        p + 2
    } else {
        block_end(s, p + 1)
    }
}

pub proof fn lemma_line_end_bounds(s: Seq<char>, p: int)
    requires
        0 <= p <= s.len(),
    ensures
        p <= line_end(s, p) <= s.len(),
    decreases s.len() - p,
{
    if p < s.len() && s[p] != '\n' {
        lemma_line_end_bounds(s, p + 1);
    }
}

pub proof fn lemma_digit_end_bounds(s: Seq<char>, p: int)
    requires
        0 <= p <= s.len(),
    ensures
        p <= digit_end(s, p) <= s.len(),
        forall|k: int| p <= k < digit_end(s, p) ==> is_digit(#[trigger] s[k]),
    decreases s.len() - p,
{
    if p < s.len() && is_digit(s[p]) {
        lemma_digit_end_bounds(s, p + 1);
    }
}

pub proof fn lemma_word_end_bounds(s: Seq<char>, p: int)
    requires
        0 <= p <= s.len(),
    ensures
        p <= word_end(s, p) <= s.len(),
    decreases s.len() - p,
{
    if p < s.len() && is_word_char(s[p]) {
        lemma_word_end_bounds(s, p + 1);
    }
}

pub proof fn lemma_block_end_bounds(s: Seq<char>, p: int)
    requires
        0 <= p <= s.len(),
    ensures
        p <= block_end(s, p) <= s.len(),
    decreases s.len() - p,
{
    if p < s.len() && !(s[p] == '*' && p + 1 < s.len() && s[p + 1] == '/') {
        lemma_block_end_bounds(s, p + 1);
    }
}

/// The position of the first character at or after `p` that is neither whitespace
/// nor part of a `//` line comment or a `/* */` block comment.
pub open spec fn trivia_end(s: Seq<char>, p: int) -> int
    decreases s.len() - p,
    via trivia_end_decreases
{
    if p < 0 || p >= s.len() {
        p
    } else if is_space(s[p]) {
        trivia_end(s, p + 1)
    } else if s[p] == '/' && p + 1 < s.len() && s[p + 1] == '/' {
        trivia_end(s, line_end(s, p + 2))
    } else if s[p] == '/' && p + 1 < s.len() && s[p + 1] == '*' {
        trivia_end(s, block_end(s, p + 2))
    } else {
        p
    }
}

#[via_fn]
proof fn trivia_end_decreases(s: Seq<char>, p: int) {
    if p < 0 || p >= s.len() {
    } else if is_space(s[p]) {
    } else if s[p] == '/' && p + 1 < s.len() && s[p + 1] == '/' {
        lemma_line_end_bounds(s, p + 2);
    } else if s[p] == '/' && p + 1 < s.len() && s[p + 1] == '*' {
        lemma_block_end_bounds(s, p + 2);
    }
}

pub proof fn lemma_trivia_end_bounds(s: Seq<char>, p: int)
    requires
        0 <= p,
    ensures
        p <= trivia_end(s, p),
        p <= s.len() ==> trivia_end(s, p) <= s.len(),
        trivia_end(s, p) < s.len() ==> !is_space(s[trivia_end(s, p)]),
    decreases s.len() - p,
{
    if p >= s.len() {
    } else if is_space(s[p]) {
        lemma_trivia_end_bounds(s, p + 1);
    } else if s[p] == '/' && p + 1 < s.len() && s[p + 1] == '/' {
        lemma_line_end_bounds(s, p + 2);
        lemma_trivia_end_bounds(s, line_end(s, p + 2));
    } else if s[p] == '/' && p + 1 < s.len() && s[p + 1] == '*' {
        lemma_block_end_bounds(s, p + 2);
        lemma_trivia_end_bounds(s, block_end(s, p + 2));
    }
}

pub open spec fn digit_value(c: char) -> int {
    (c as u32) as int - ('0' as u32) as int
}

/// The number that a sequence of decimal digits denotes.
pub open spec fn digits_value(d: Seq<char>) -> int
    decreases d.len(),
{
    if d.len() == 0 {
        0
    } else {
        digits_value(d.drop_last()) * 10 + digit_value(d.last())
    }
}

/// The token category of a word: a reserved keyword, or an identifier.
pub open spec fn keyword_type(w: Seq<char>) -> TokenType {
    if w == seq!['b', 'o', 'o', 'l'] {
        TokenType::Bool
    } else if w == seq!['v', 'a', 'r'] {
        TokenType::Var
    } else if w == seq!['i', 'n', 't'] {
        TokenType::Integer
    } else if w == seq!['s', 't', 'r', 'i', 'n', 'g'] {
        TokenType::Str
    } else if w == seq!['p', 'r', 'i', 'n', 't'] {
        TokenType::Print
    } else if w == seq!['r', 'e', 'a', 'd'] {
        TokenType::Read
    } else if w == seq!['i', 'f'] {
        TokenType::If
    } else if w == seq!['e', 'l', 's', 'e'] {
        TokenType::Else
    } else if w == seq!['d', 'o'] {
        TokenType::Do
    } else if w == seq!['f', 'o', 'r'] {
        TokenType::For
    } else if w == seq!['e', 'n', 'd'] {
        TokenType::End
    } else if w == seq!['i', 'n'] {
        TokenType::In
    } else {
        TokenType::ID
    }
}

/// The body of a string literal from `p` on, with `acc` already collected: the
/// characters of the literal and the position after its closing quote.
pub open spec fn string_body(s: Seq<char>, p: int, acc: Seq<char>) -> Result<
    (Seq<char>, int),
    ErrorKind,
>
    decreases s.len() - p,
{
    if p < 0 || p >= s.len() {
        Err(ErrorKind::Lexical)
    } else if s[p] == '\n' || s[p] == ';' {
        Err(ErrorKind::Lexical)
    } else if s[p] == '\\' {
        if p + 1 < s.len() {
            string_body(s, p + 2, acc.push(s[p + 1]))
        } else {
            Err(ErrorKind::Lexical)
        }
    } else if s[p] == '"' {
        Ok((acc, p + 1))
    } else {
        string_body(s, p + 1, acc.push(s[p]))
    }
}

/// A token with no payload but its own character.
pub open spec fn single(t: TokenType, c: char, p: int) -> Result<(TokenType, Val, int), ErrorKind> {
    Ok((t, Val::Char(c), p + 1))
}

/// The token that starts at `p`, which is not whitespace or a comment: its category,
/// the model of its payload and the position after it.
pub open spec fn lex_at(s: Seq<char>, p: int) -> Result<(TokenType, Val, int), ErrorKind> {
    if p < 0 || p >= s.len() {
        Ok((TokenType::EOF, Val::Nothing, p))
    } else {
        let c = s[p];
        if is_digit(c) {
            let q = digit_end(s, p);
            let v = digits_value(s.subrange(p, q));
            if v <= i32::MAX {
                Ok((TokenType::Integer, Val::Number(v as i32), q))
            } else {
                Err(ErrorKind::Lexical)
            }
        } else if c == '!' {
            single(TokenType::Not, c, p)
        } else if c == '&' {
            single(TokenType::And, c, p)
        } else if c == '=' {
            single(TokenType::Equal, c, p)
        } else if c == '<' {
            single(TokenType::LessThan, c, p)
        } else if c == '+' {
            single(TokenType::Plus, c, p)
        } else if c == '-' {
            single(TokenType::Minus, c, p)
        } else if c == '*' {
            single(TokenType::Mul, c, p)
        } else if c == '/' {
            single(TokenType::Div, c, p)
        } else if c == '(' {
            single(TokenType::LeftParen, c, p)
        } else if c == ')' {
            single(TokenType::RightParen, c, p)
        } else if c == ';' {
            single(TokenType::Semi, c, p)
        } else if c == ':' {
            if p + 1 < s.len() && s[p + 1] == '=' {
                Ok((TokenType::Assign, Val::Text(seq![':', '=']), p + 2))
            } else {
                single(TokenType::Colon, c, p)
            }
        } else if c == '.' {
            if p + 1 < s.len() && s[p + 1] == '.' {
                Ok((TokenType::To, Val::Text(seq!['.', '.']), p + 2))
            } else {
                Err(ErrorKind::Lexical)
            }
        } else if c == '"' {
            match string_body(s, p + 1, seq![]) {
                Ok((body, q)) => Ok((TokenType::StringLiteral, Val::Text(body), q)),
                Err(e) => Err(e),
            }
        } else if is_word_char(c) {
            let q = word_end(s, p);
            let w = s.subrange(p, q);
            Ok((keyword_type(w), Val::Text(w), q))
        } else {
            Err(ErrorKind::Lexical)
        }
    }
}

pub proof fn lemma_string_body_bounds(s: Seq<char>, p: int, acc: Seq<char>)
    requires
        0 <= p,
    ensures
        string_body(s, p, acc) is Ok ==> p < string_body(s, p, acc)->Ok_0.1 <= s.len(),
    decreases s.len() - p,
{
    if p < 0 || p >= s.len() {
    } else if s[p] == '\n' || s[p] == ';' {
    } else if s[p] == '\\' {
        if p + 1 < s.len() {
            lemma_string_body_bounds(s, p + 2, acc.push(s[p + 1]));
        }
    } else if s[p] == '"' {
    } else {
        lemma_string_body_bounds(s, p + 1, acc.push(s[p]));
    }
}

/// A string literal fails only with a lexical error.
pub proof fn lemma_string_body_error(s: Seq<char>, p: int, acc: Seq<char>)
    ensures
        string_body(s, p, acc) is Err ==> string_body(s, p, acc)->Err_0 == ErrorKind::Lexical,
    decreases s.len() - p,
{
    if p < 0 || p >= s.len() {
    } else if s[p] == '\n' || s[p] == ';' {
    } else if s[p] == '\\' {
        if p + 1 < s.len() {
            lemma_string_body_error(s, p + 2, acc.push(s[p + 1]));
        }
    } else if s[p] == '"' {
    } else {
        lemma_string_body_error(s, p + 1, acc.push(s[p]));
    }
}

/// Scanning never moves back; a token other than `EOF` takes at least one character of
/// the input, and `EOF` is only found at its end.
pub proof fn lemma_next_token_progress(s: Seq<char>, p: int)
    requires
        0 <= p,
    ensures
        next_token(s, p) is Ok ==> ({
            let (t, v, q) = next_token(s, p)->Ok_0;
            &&& p <= q
            &&& t != TokenType::EOF ==> p < q <= s.len()
            &&& t == TokenType::EOF ==> q >= s.len()
        }),
{
    let a = trivia_end(s, p);
    lemma_trivia_end_bounds(s, p);
    if 0 <= a < s.len() {
        lemma_digit_end_bounds(s, a + 1);
        lemma_word_end_bounds(s, a + 1);
        lemma_string_body_bounds(s, a + 1, seq![]);
    }
}

/// The next token of `s` when scanning resumes at `p`.
pub open spec fn next_token(s: Seq<char>, p: int) -> Result<(TokenType, Val, int), ErrorKind> {
    lex_at(s, trivia_end(s, p))
}

/// Splits source text into tokens, one at a time.
pub struct Scanner {
    pub text: Vec<char>,
    pub pos: usize,
}

impl Scanner {
    pub fn new(text: String) -> (r: Scanner)
        ensures
            r.text@ == text@,
            r.pos == 0,
    {
        Scanner { text: crate::text::chars_of(text.as_str()), pos: 0 }
    }

    /// The next token, scanning from the current position: whitespace and comments are
    /// skipped, the end of the input gives an `EOF` token.
    #[verifier::rlimit(40)]
    pub fn get_next_token(&mut self) -> (r: Result<Token, ErrorKind>)
        ensures
            final(self).text@ == old(self).text@,
            r is Err ==> r->Err_0 == ErrorKind::Lexical,
            match r {
                Ok(t) => next_token(old(self).text@, old(self).pos as int) == Ok::<
                    (TokenType, Val, int),
                    ErrorKind,
                >((t.type_, t.value@, final(self).pos as int)),
                Err(e) => next_token(old(self).text@, old(self).pos as int) == Err::<
                    (TokenType, Val, int),
                    ErrorKind,
                >(e),
            },
    {
        let ghost s = self.text@;
        let ghost start = self.pos as int;
        proof {
            lemma_trivia_end_bounds(s, start);
        }
        loop
            invariant
                s == old(self).text@,
                start == old(self).pos,
                self.text@ == s,
                self.pos <= self.text.len() || self.pos == start,
                trivia_end(s, self.pos as int) == trivia_end(s, start),
                self.pos <= trivia_end(s, start),
            ensures
                self.text@ == s,
                self.pos < self.text.len(),
                self.pos == trivia_end(s, start),
            decreases (if self.pos <= self.text.len() { self.text.len() - self.pos } else { 0 }),
        {
            if self.pos >= self.text.len() {
                return Ok(Token::new(TokenType::EOF, Value::Empty));
            }
            let c = self.text[self.pos];
            if is_space_char(c) {
                self.skip_whitespace();
                proof {
                    lemma_trivia_end_bounds(s, self.pos as int);
                }
                continue;
            }
            if c == '/' {
                match self.peek() {
                    Some('/') => {
                        self.skip_comment();
                        proof {
                            lemma_trivia_end_bounds(s, self.pos as int);
                        }
                        continue;
                    },
                    Some('*') => {
                        self.skip_comment();
                        proof {
                            lemma_trivia_end_bounds(s, self.pos as int);
                        }
                        continue;
                    },
                    _ => {},
                }
            }
            break;
        }
        let c = self.text[self.pos];
        if is_digit_char(c) {
            return match self.integer() {
                Some(n) => Ok(Token::new(TokenType::Integer, Value::Number(n))),
                None => Err(ErrorKind::Lexical),
            };
        }
        let single_type = if c == '!' {
            Some(TokenType::Not)
        } else if c == '&' {
            Some(TokenType::And)
        } else if c == '=' {
            Some(TokenType::Equal)
        } else if c == '<' {
            Some(TokenType::LessThan)
        } else if c == '+' {
            Some(TokenType::Plus)
        } else if c == '-' {
            Some(TokenType::Minus)
        } else if c == '*' {
            Some(TokenType::Mul)
        } else if c == '/' {
            Some(TokenType::Div)
        } else if c == '(' {
            Some(TokenType::LeftParen)
        } else if c == ')' {
            Some(TokenType::RightParen)
        } else if c == ';' {
            Some(TokenType::Semi)
        } else {
            None
        };
        if let Some(t) = single_type {
            self.advance();
            return Ok(Token::new(t, Value::Char(c)));
        }
        if c == ':' {
            if let Some('=') = self.peek() {
                self.advance();
                self.advance();
                let mut v = String::new();
                push_char(&mut v, ':');
                push_char(&mut v, '=');
                assert(v@ =~= seq![':', '=']);
                return Ok(Token::new(TokenType::Assign, Value::String(v)));
            } else {
                self.advance();
                return Ok(Token::new(TokenType::Colon, Value::Char(c)));
            }
        }
        if c == '.' {
            if let Some('.') = self.peek() {
                self.advance();
                self.advance();
                let mut v = String::new();
                push_char(&mut v, '.');
                push_char(&mut v, '.');
                assert(v@ =~= seq!['.', '.']);
                return Ok(Token::new(TokenType::To, Value::String(v)));
            } else {
                return Err(ErrorKind::Lexical);
            }
        }
        if c == '"' {
            proof {
                lemma_string_body_error(self.text@, self.pos + 1, seq![]);
            }
            return self.string_literal();
        }
        if is_word_char_exec(c) {
            return Ok(self.id());
        }
        Err(ErrorKind::Lexical)
    }

    fn advance(&mut self)
        requires
            old(self).pos < old(self).text.len(),
        ensures
            final(self).text@ == old(self).text@,
            final(self).pos == old(self).pos + 1,
    {
        self.pos = self.pos + 1;
    }

    /// The character after the current one, if any.
    fn peek(&self) -> (r: Option<char>)
        ensures
            r == (if self.pos + 1 < self.text.len() {
                Some(self.text@[self.pos + 1])
            } else {
                None::<char>
            }),
    {
        if self.pos < self.text.len() && self.pos + 1 < self.text.len() {
            Some(self.text[self.pos + 1])
        } else {
            None
        }
    }

    fn skip_whitespace(&mut self)
        requires
            old(self).pos < old(self).text.len(),
            is_space(old(self).text@[old(self).pos as int]),
        ensures
            final(self).text@ == old(self).text@,
            final(self).pos > old(self).pos,
            final(self).pos <= final(self).text.len(),
            trivia_end(final(self).text@, final(self).pos as int) == trivia_end(
                old(self).text@,
                old(self).pos as int,
            ),
    {
        let ghost s = self.text@;
        let ghost start = self.pos as int;
        while self.pos < self.text.len() && is_space_char(self.text[self.pos])
            invariant
                s == old(self).text@,
                start == old(self).pos,
                self.text@ == s,
                self.pos <= self.text.len(),
                self.pos >= start,
                trivia_end(s, self.pos as int) == trivia_end(s, start),
                start < s.len() && is_space(s[start]),
                self.pos == start ==> self.pos < self.text.len() && is_space(s[start]),
            decreases self.text.len() - self.pos,
        {
            self.advance();
        }
    }

    fn skip_comment(&mut self)
        requires
            old(self).pos + 1 < old(self).text.len(),
            old(self).text@[old(self).pos as int] == '/',
            old(self).text@[old(self).pos + 1] == '/' || old(self).text@[old(self).pos + 1] == '*',
        ensures
            final(self).text@ == old(self).text@,
            final(self).pos > old(self).pos,
            final(self).pos <= final(self).text.len(),
            trivia_end(final(self).text@, final(self).pos as int) == trivia_end(
                old(self).text@,
                old(self).pos as int,
            ),
    {
        let ghost s = self.text@;
        let ghost start = self.pos as int;
        self.advance();
        if self.text[self.pos] == '/' {
            self.advance();
            while self.pos < self.text.len() && self.text[self.pos] != '\n'
                invariant
                    self.text@ == s,
                    start + 2 <= self.pos <= self.text.len(),
                    line_end(s, self.pos as int) == line_end(s, start + 2),
                decreases self.text.len() - self.pos,
            {
                self.advance();
            }
        } else {
            self.advance();
            let mut done = false;
            while !done
                invariant
                    self.text@ == s,
                    start + 2 <= self.pos <= self.text.len(),
                    !done ==> block_end(s, self.pos as int) == block_end(s, start + 2),
                    done ==> self.pos == block_end(s, start + 2),
                decreases self.text.len() - self.pos, (if done { 0int } else { 1int }),
            {
                if self.pos >= self.text.len() {
                    done = true;
                } else if self.text[self.pos] == '*' && self.peek() == Some('/') {
                    self.advance();
                    self.advance();
                    done = true;
                } else {
                    self.advance();
                }
            }
        }
    }

    /// Reads the run of digits at the current position; `None` when its value exceeds `i32::MAX`.
    fn integer(&mut self) -> (r: Option<i32>)
        requires
            old(self).pos < old(self).text.len(),
        ensures
            final(self).text@ == old(self).text@,
            final(self).pos == digit_end(old(self).text@, old(self).pos as int),
            ({
                let v = digits_value(
                    old(self).text@.subrange(old(self).pos as int, final(self).pos as int),
                );
                match r {
                    Some(n) => v <= i32::MAX && n == v,
                    None => v > i32::MAX,
                }
            }),
    {
        let ghost s = self.text@;
        let ghost start = self.pos as int;
        let mut acc: i64 = 0;
        let mut big = false;
        while self.pos < self.text.len() && is_digit_char(self.text[self.pos])
            invariant
                s == old(self).text@,
                start == old(self).pos,
                self.text@ == s,
                start <= self.pos <= self.text.len(),
                digit_end(s, self.pos as int) == digit_end(s, start),
                forall|k: int| start <= k < self.pos ==> is_digit(#[trigger] s[k]),
                !big ==> 0 <= acc <= i32::MAX && acc == digits_value(s.subrange(start, self.pos as int)),
                big ==> digits_value(s.subrange(start, self.pos as int)) > i32::MAX,
            decreases self.text.len() - self.pos,
        {
            let c = self.text[self.pos];
            let ghost before = s.subrange(start, self.pos as int);
            proof {
                lemma_digits_value_nonneg(before);
            }
            self.advance();
            assert(s.subrange(start, self.pos as int).drop_last() =~= before);
            if !big {
                let d = (c as u32 - '0' as u32) as i64;
                acc = acc * 10 + d;
                if acc > i32::MAX as i64 {
                    big = true;
                }
            }
        }
        if big {
            None
        } else {
            Some(acc as i32)
        }
    }

    fn string_literal(&mut self) -> (r: Result<Token, ErrorKind>)
        requires
            old(self).pos < old(self).text.len(),
            old(self).text@[old(self).pos as int] == '"',
        ensures
            final(self).text@ == old(self).text@,
            match r {
                Ok(t) => t.type_ == TokenType::StringLiteral && string_body(
                    old(self).text@,
                    old(self).pos + 1,
                    seq![],
                ) == Ok::<(Seq<char>, int), ErrorKind>((t.value@->Text_0, final(self).pos as int))
                    && t.value@ is Text,
                Err(e) => string_body(old(self).text@, old(self).pos + 1, seq![]) == Err::<
                    (Seq<char>, int),
                    ErrorKind,
                >(e),
            },
    {
        let ghost s = self.text@;
        let ghost start = self.pos as int;
        self.advance();
        let mut result = String::new();
        loop
            invariant
                s == old(self).text@,
                start == old(self).pos,
                self.text@ == s,
                start + 1 <= self.pos <= self.text.len(),
                string_body(s, self.pos as int, result@) == string_body(s, start + 1, seq![]),
            decreases self.text.len() - self.pos,
        {
            if self.pos >= self.text.len() {
                return Err(ErrorKind::Lexical);
            }
            let c = self.text[self.pos];
            if c == '\n' || c == ';' {
                return Err(ErrorKind::Lexical);
            } else if c == '\\' {
                match self.peek() {
                    Some(ch) => {
                        push_char(&mut result, ch);
                        self.advance();
                        self.advance();
                    },
                    None => {
                        return Err(ErrorKind::Lexical);
                    },
                }
            } else if c == '"' {
                self.advance();
                return Ok(Token::new(TokenType::StringLiteral, Value::String(result)));
            } else {
                push_char(&mut result, c);
                self.advance();
            }
        }
    }

    fn id(&mut self) -> (r: Token)
        requires
            old(self).pos < old(self).text.len(),
        ensures
            final(self).text@ == old(self).text@,
            final(self).pos == word_end(old(self).text@, old(self).pos as int),
            r.type_ == keyword_type(
                old(self).text@.subrange(old(self).pos as int, final(self).pos as int),
            ),
            r.value@ == Val::Text(
                old(self).text@.subrange(old(self).pos as int, final(self).pos as int),
            ),
    {
        let ghost s = self.text@;
        let ghost start = self.pos as int;
        let mut result = String::new();
        let mut chars: Vec<char> = Vec::new();
        while self.pos < self.text.len() && is_word_char_exec(self.text[self.pos])
            invariant
                s == old(self).text@,
                start == old(self).pos,
                self.text@ == s,
                start <= self.pos <= self.text.len(),
                word_end(s, self.pos as int) == word_end(s, start),
                result@ == s.subrange(start, self.pos as int),
                chars@ == s.subrange(start, self.pos as int),
            decreases self.text.len() - self.pos,
        {
            let c = self.text[self.pos];
            push_char(&mut result, c);
            chars.push(c);
            self.advance();
            assert(result@ =~= s.subrange(start, self.pos as int));
            assert(chars@ =~= s.subrange(start, self.pos as int));
        }
        Token::new(reserved_keyword(&chars), Value::String(result))
    }
}

pub proof fn lemma_digits_value_nonneg(d: Seq<char>)
    requires
        forall|k: int| 0 <= k < d.len() ==> is_digit(#[trigger] d[k]),
    ensures
        digits_value(d) >= 0,
    decreases d.len(),
{
    if d.len() > 0 {
        lemma_digits_value_nonneg(d.drop_last());
    }
}

fn is_space_char(c: char) -> (r: bool)
    ensures
        r == is_space(c),
{
    c == ' ' || c == '\t' || c == '\n' || c == '\r' || c == '\x0B' || c == '\x0C'
}

fn is_digit_char(c: char) -> (r: bool)
    ensures
        r == is_digit(c),
{
    '0' <= c && c <= '9'
}

fn is_word_char_exec(c: char) -> (r: bool)
    ensures
        r == is_word_char(c),
{
    ('a' <= c && c <= 'z') || ('A' <= c && c <= 'Z') || ('0' <= c && c <= '9') || c == '_'
}

/// The category of a word: the keyword it spells, or `ID`.
pub fn reserved_keyword(w: &Vec<char>) -> (r: TokenType)
    ensures
        r == keyword_type(w@),
{
    if same_chars(w, &vec!['b', 'o', 'o', 'l']) {
        TokenType::Bool
    } else if same_chars(w, &vec!['v', 'a', 'r']) {
        TokenType::Var
    } else if same_chars(w, &vec!['i', 'n', 't']) {
        TokenType::Integer
    } else if same_chars(w, &vec!['s', 't', 'r', 'i', 'n', 'g']) {
        TokenType::Str
    } else if same_chars(w, &vec!['p', 'r', 'i', 'n', 't']) {
        TokenType::Print
    } else if same_chars(w, &vec!['r', 'e', 'a', 'd']) {
        TokenType::Read
    } else if same_chars(w, &vec!['i', 'f']) {
        TokenType::If
    } else if same_chars(w, &vec!['e', 'l', 's', 'e']) {
        TokenType::Else
    } else if same_chars(w, &vec!['d', 'o']) {
        TokenType::Do
    } else if same_chars(w, &vec!['f', 'o', 'r']) {
        TokenType::For
    } else if same_chars(w, &vec!['e', 'n', 'd']) {
        TokenType::End
    } else if same_chars(w, &vec!['i', 'n']) {
        TokenType::In
    } else {
        TokenType::ID
    }
}

} // verus!
