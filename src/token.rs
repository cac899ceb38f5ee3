use vstd::prelude::*;

verus! {

/// The lexical category of a token.
#[derive(Clone, Copy, Debug, PartialEq, Eq, Structural)]
pub enum TokenType {
    LeftParen,
    RightParen,
    LeftBrace,
    RightBrace,
    Comma,
    Dot,
    Minus,
    Plus,
    Semicolon,
    Slash,
    Star,
    Bang,
    BangEqual,
    Equal,
    EqualEqual,
    Greater,
    GreaterEqual,
    Less,
    LessEqual,
    Identifier,
    Str,
    Number,
    And,
    Class,
    Else,
    False,
    Fun,
    For,
    If,
    Nil,
    Or,
    Print,
    Return,
    Super,
    This,
    True,
    Var,
    While,
    Eof,
}

/// An exact rational number `num / den`; well formed when `den > 0` and
/// `num > i64::MIN`, so that every number has a negation.
///
/// Numbers are kept exact: a literal such as `45.67` is `4567 / 100`.
#[derive(Clone, Copy, Debug, PartialEq, Eq, Structural)]
pub struct Number {
    pub num: i64,
    pub den: i64,
}

impl Number {
    pub open spec fn wf(self) -> bool {
        self.den > 0 && self.num > i64::MIN
    }

    /// The whole number `n`.
    pub fn from_int(n: i64) -> (r: Number)
        requires
            n > i64::MIN,
        ensures
            r.wf(),
            r.num == n,
            r.den == 1,
    {
        Number { num: n, den: 1 }
    }
}

/// The mathematical form of a literal or runtime value.
pub enum Value {
    Number(Number),
    Str(Seq<char>),
    Bool(bool),
    Nil,
}

/// A literal payload of a token, and the result of evaluation.
#[derive(Clone, Debug, PartialEq)]
pub enum TokenLiteral {
    Number(Number),
    Str(String),
    Bool(bool),
    Nil,
}

impl View for TokenLiteral {
    type V = Value;

    open spec fn view(&self) -> Value {
        match self {
            TokenLiteral::Number(n) => Value::Number(*n),
            TokenLiteral::Str(s) => Value::Str(s@),
            TokenLiteral::Bool(b) => Value::Bool(*b),
            TokenLiteral::Nil => Value::Nil,
        }
    }
}

impl TokenLiteral {
    pub open spec fn wf(&self) -> bool {
        match self {
            TokenLiteral::Number(n) => n.wf(),
            _ => true,
        }
    }

    /// A copy equal to `self`.
    pub fn duplicate(&self) -> (r: TokenLiteral)
        ensures
            r == *self,
    {
        match self {
            TokenLiteral::Number(n) => TokenLiteral::Number(*n),
            TokenLiteral::Str(s) => TokenLiteral::Str(s.clone()),
            TokenLiteral::Bool(b) => TokenLiteral::Bool(*b),
            TokenLiteral::Nil => TokenLiteral::Nil,
        }
    }
}

/// The mathematical form of a token.
pub struct TokenView {
    pub token_type: TokenType,
    pub lexeme: Seq<char>,
    pub literal: Value,
    pub line: int,
}

/// A classified, positioned unit of source text.
#[derive(Clone, Debug)]
pub struct Token {
    pub token_type: TokenType,
    pub lexeme: String,
    pub literal: TokenLiteral,
    pub line: usize,
}

impl View for Token {
    type V = TokenView;

    open spec fn view(&self) -> TokenView {
        TokenView {
            token_type: self.token_type,
            lexeme: self.lexeme@,
            literal: self.literal@,
            line: self.line as int,
        }
    }
}

/// The views of a token sequence.
pub open spec fn token_views(ts: Seq<Token>) -> Seq<TokenView> {
    ts.map_values(|t: Token| t@)
}

impl Token {
    pub fn new(token_type: TokenType, lexeme: &str, literal: TokenLiteral, line: usize) -> (r: Token)
        ensures
            r.token_type == token_type,
            r.lexeme@ == lexeme@,
            r.literal == literal,
            r.line == line,
    {
        Token { token_type, lexeme: String::from_str(lexeme), literal, line }
    }

    /// A copy equal to `self`.
    pub fn duplicate(&self) -> (r: Token)
        ensures
            r == *self,
    {
        Token {
            token_type: self.token_type,
            lexeme: self.lexeme.clone(),
            literal: self.literal.duplicate(),
            line: self.line,
        }
    }
}

} // verus!
