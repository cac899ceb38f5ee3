use vstd::prelude::*;
use crate::token::{Token, TokenLiteral, TokenType};
use crate::expr::{expr_wf, Binary, Expr, Grouping, Literal, Unary};
use crate::scanner::{body_tokens, scanned_tokens};

verus! {

#[derive(Clone, Copy, Debug, PartialEq, Eq, Structural)]
pub enum ParseErrorKind {
    ExpectedExpression,
    ExpectedRightParen,
}

/// The text of a syntax error.
pub open spec fn parse_message(k: ParseErrorKind) -> Seq<char> {
    match k {
        ParseErrorKind::ExpectedExpression => "Expected expression."@,
        ParseErrorKind::ExpectedRightParen => "Expect ')' after expression."@,
    }
}

/// Token types that can begin a primary expression.
pub open spec fn starts_primary(t: TokenType) -> bool {
    t == TokenType::False || t == TokenType::True || t == TokenType::Nil || t == TokenType::Number
        || t == TokenType::Str || t == TokenType::LeftParen
}

impl ParseErrorKind {
    pub fn message(&self) -> (r: &'static str)
        ensures
            r@ == parse_message(*self),
    {
        match self {
            ParseErrorKind::ExpectedExpression => "Expected expression.",
            ParseErrorKind::ExpectedRightParen => "Expect ')' after expression.",
        }
    }
}

/// The first syntax error, with the token at which it was found.
#[derive(Clone, Debug)]
pub struct ParseError {
    pub token: Token,
    pub kind: ParseErrorKind,
}

/// Recursive-descent parser over a scanned token sequence.
pub struct Parser {
    tokens: Vec<Token>,
    current: usize,
}

/// The operators of binary level `k`: 4 equality, 3 comparison,
/// 2 addition, 1 multiplication.
pub open spec fn level_op(k: nat, t: TokenType) -> bool {
    if k == 4 {
        t == TokenType::BangEqual || t == TokenType::EqualEqual
    } else if k == 3 {
        t == TokenType::Greater || t == TokenType::GreaterEqual || t == TokenType::Less
            || t == TokenType::LessEqual
    } else if k == 2 {
        t == TokenType::Minus || t == TokenType::Plus
    } else {
        t == TokenType::Slash || t == TokenType::Star
    }
}

/// A parse of `ts` from position `p`: the tree and the position after it.
pub type Parsed = Result<(Expr, int), ParseError>;

pub open spec fn past_end(ts: Seq<Token>) -> ParseError {
    ParseError { token: ts.last(), kind: ParseErrorKind::ExpectedExpression }
}

/// expression := equality
pub open spec fn spec_expression(ts: Seq<Token>, p: int) -> Parsed
    decreases ts.len() - p, 7int,
{
    spec_binary(ts, 4, p)
}

/// Level `k` (`1..=4`): an operand of the next level up, then any number of
/// `op operand` pairs of this level, folded to the left.
pub open spec fn spec_binary(ts: Seq<Token>, k: nat, p: int) -> Parsed
    decreases ts.len() - p, k + 2,
{
    let first = if k <= 1 { spec_unary(ts, p) } else { spec_binary(ts, (k - 1) as nat, p) };
    match first {
        Err(e) => Err(e),
        Ok((l, q)) => if p <= q <= ts.len() { spec_rest(ts, k, l, q) } else { Ok((l, q)) },
    }
}

/// The `op operand` pairs of level `k` from position `q`, with `left`
/// parsed before them.
pub open spec fn spec_rest(ts: Seq<Token>, k: nat, left: Expr, q: int) -> Parsed
    decreases ts.len() - q, k + 1,
{
    if 0 <= q < ts.len() && level_op(k, ts[q].token_type) {
        let right = if k <= 1 { spec_unary(ts, q + 1) } else { spec_binary(ts, (k - 1) as nat, q + 1) };
        match right {
            Err(e) => Err(e),
            Ok((r, q2)) => {
                let e = Expr::Binary(Binary { left: Box::new(left), operator: ts[q], right: Box::new(r) });
                if q < q2 <= ts.len() { spec_rest(ts, k, e, q2) } else { Ok((e, q2)) }
            },
        }
    } else {
        Ok((left, q))
    }
}

/// unary := ( `!` | `-` ) unary | primary
pub open spec fn spec_unary(ts: Seq<Token>, p: int) -> Parsed
    decreases ts.len() - p, 1int,
{
    if 0 <= p < ts.len() && (ts[p].token_type == TokenType::Bang || ts[p].token_type == TokenType::Minus) {
        match spec_unary(ts, p + 1) {
            Err(e) => Err(e),
            Ok((r, q)) => Ok((Expr::Unary(Unary { operator: ts[p], right: Box::new(r) }), q)),
        }
    } else {
        spec_primary(ts, p)
    }
}

/// primary := `false` | `true` | `nil` | number | string | `(` expression `)`
pub open spec fn spec_primary(ts: Seq<Token>, p: int) -> Parsed
    decreases ts.len() - p, 0int,
{
    if p < 0 || p >= ts.len() {
        Err(past_end(ts))
    } else {
        let t = ts[p];
        match t.token_type {
            TokenType::False => Ok((Expr::Literal(Literal { value: TokenLiteral::Bool(false) }), p + 1)),
            TokenType::True => Ok((Expr::Literal(Literal { value: TokenLiteral::Bool(true) }), p + 1)),
            TokenType::Nil => Ok((Expr::Literal(Literal { value: TokenLiteral::Nil }), p + 1)),
            TokenType::Number => Ok((Expr::Literal(Literal { value: t.literal }), p + 1)),
            TokenType::Str => Ok((Expr::Literal(Literal { value: t.literal }), p + 1)),
            TokenType::LeftParen => match spec_expression(ts, p + 1) {
                Err(e) => Err(e),
                Ok((e, q)) => if 0 <= q < ts.len() && ts[q].token_type == TokenType::RightParen {
                    Ok((Expr::Grouping(Grouping { expression: Box::new(e) }), q + 1))
                } else {
                    Err(ParseError { token: ts[q], kind: ParseErrorKind::ExpectedRightParen })
                },
            },
            _ => Err(ParseError { token: t, kind: ParseErrorKind::ExpectedExpression }),
        }
    }
}

/// An executable parse result and final position agree with a spec parse.
pub open spec fn agrees(r: Result<Expr, ParseError>, pos: int, s: Parsed) -> bool {
    match (r, s) {
        (Ok(e), Ok((se, sq))) => e == se && pos == sq,
        (Err(x), Err(y)) => x == y,
        _ => false,
    }
}

/// The tree, or the error, of a spec parse.
pub open spec fn tree_of(s: Parsed) -> Result<Expr, ParseError> {
    match s {
        Ok((e, _)) => Ok(e),
        Err(x) => Err(x),
    }
}

/// A successful parse yields a tree with well-formed literals; a failed one
/// names a token of the input.
pub open spec fn parse_outcome(r: Result<Expr, ParseError>, ts: Seq<Token>) -> bool {
    match r {
        Ok(e) => expr_wf(e),
        Err(x) => exists|i: int| 0 <= i < ts.len() && ts[i] == x.token,
    }
}

/// What the parser needs of its tokens: an end marker last, and
/// well-formed literals.
pub open spec fn parsable(ts: Seq<Token>) -> bool {
    &&& ts.len() >= 1
    &&& ts.last().token_type == TokenType::Eof
    &&& forall|i: int| 0 <= i < ts.len() ==> (#[trigger] ts[i]).literal.wf()
}

/// The scanner's output can always be parsed.
pub proof fn lemma_scanned_is_parsable(ts: Seq<Token>)
    requires
        scanned_tokens(ts),
    ensures
        parsable(ts),
{
    assert forall|i: int| 0 <= i < ts.len() implies (#[trigger] ts[i]).literal.wf() by {
        if i < ts.len() - 1 {
            assert(ts.drop_last()[i] == ts[i]);
            assert(body_tokens(ts.drop_last()));
        }
    }
}

/// Parses a token sequence into one expression.
pub fn parse(tokens: Vec<Token>) -> (r: Result<Expr, ParseError>)
    requires
        parsable(tokens@),
    ensures
        parse_outcome(r, tokens@),
        r == tree_of(spec_expression(tokens@, 0)),
{
    let mut parser = Parser::new(tokens);
    parser.parse()
}

impl Parser {
    pub closed spec fn wf(&self) -> bool {
        parsable(self.tokens@) && self.current < self.tokens@.len()
    }

    pub closed spec fn tokens(&self) -> Seq<Token> {
        self.tokens@
    }

    /// The index of the next token to read.
    pub closed spec fn position(&self) -> int {
        self.current as int
    }

    pub fn new(tokens: Vec<Token>) -> (r: Parser)
        requires
            parsable(tokens@),
        ensures
            r.wf(),
            r.tokens() == tokens@,
            r.position() == 0,
    {
        Parser { tokens, current: 0 }
    }

    /// Parses one expression, stopping at the first syntax error.
    pub fn parse(&mut self) -> (r: Result<Expr, ParseError>)
        requires
            old(self).wf(),
        ensures
            final(self).wf(),
            final(self).tokens() == old(self).tokens(),
            parse_outcome(r, old(self).tokens()),
            agrees(r, final(self).position(), spec_expression(old(self).tokens(), old(self).position())),
    {
        self.expression()
    }

    fn expression(&mut self) -> (r: Result<Expr, ParseError>)
        requires
            old(self).wf(),
        ensures
            final(self).wf(),
            final(self).tokens == old(self).tokens,
            final(self).current >= old(self).current,
            parse_outcome(r, old(self).tokens@),
            agrees(r, final(self).current as int, spec_expression(old(self).tokens@, old(self).current as int)),
        decreases old(self).tokens@.len() - old(self).current, 7nat,
    {
        self.equality()
    }

    fn equality(&mut self) -> (r: Result<Expr, ParseError>)
        requires
            old(self).wf(),
        ensures
            final(self).wf(),
            final(self).tokens == old(self).tokens,
            final(self).current >= old(self).current,
            parse_outcome(r, old(self).tokens@),
            agrees(r, final(self).current as int, spec_binary(old(self).tokens@, 4, old(self).current as int)),
        decreases old(self).tokens@.len() - old(self).current, 6nat,
    {
        let mut expr = self.comparison()?;
        while self.mtch2(TokenType::BangEqual, TokenType::EqualEqual)
            invariant
                self.wf(),
                self.tokens == old(self).tokens,
                self.current >= old(self).current,
                expr_wf(expr),
                spec_rest(self.tokens@, 4, expr, self.current as int)
                    == spec_binary(self.tokens@, 4, old(self).current as int),
            decreases self.tokens@.len() - self.current,
        {
            let operator = self.previous();
            let right = self.comparison()?;
            expr = Binary::new(expr, operator, right);
        }
        Ok(expr)
    }

    fn comparison(&mut self) -> (r: Result<Expr, ParseError>)
        requires
            old(self).wf(),
        ensures
            final(self).wf(),
            final(self).tokens == old(self).tokens,
            final(self).current >= old(self).current,
            parse_outcome(r, old(self).tokens@),
            agrees(r, final(self).current as int, spec_binary(old(self).tokens@, 3, old(self).current as int)),
        decreases old(self).tokens@.len() - old(self).current, 5nat,
    {
        let mut expr = self.addition()?;
        while self.mtch2(TokenType::Greater, TokenType::GreaterEqual) || self.mtch2(TokenType::Less, TokenType::LessEqual)
            invariant
                self.wf(),
                self.tokens == old(self).tokens,
                self.current >= old(self).current,
                expr_wf(expr),
                spec_rest(self.tokens@, 3, expr, self.current as int)
                    == spec_binary(self.tokens@, 3, old(self).current as int),
            decreases self.tokens@.len() - self.current,
        {
            let operator = self.previous();
            let right = self.addition()?;
            expr = Binary::new(expr, operator, right);
        }
        Ok(expr)
    }

    fn addition(&mut self) -> (r: Result<Expr, ParseError>)
        requires
            old(self).wf(),
        ensures
            final(self).wf(),
            final(self).tokens == old(self).tokens,
            final(self).current >= old(self).current,
            parse_outcome(r, old(self).tokens@),
            agrees(r, final(self).current as int, spec_binary(old(self).tokens@, 2, old(self).current as int)),
        decreases old(self).tokens@.len() - old(self).current, 4nat,
    {
        let mut expr = self.multiplication()?;
        while self.mtch2(TokenType::Minus, TokenType::Plus)
            invariant
                self.wf(),
                self.tokens == old(self).tokens,
                self.current >= old(self).current,
                expr_wf(expr),
                spec_rest(self.tokens@, 2, expr, self.current as int)
                    == spec_binary(self.tokens@, 2, old(self).current as int),
            decreases self.tokens@.len() - self.current,
        {
            let operator = self.previous();
            let right = self.multiplication()?;
            expr = Binary::new(expr, operator, right);
        }
        Ok(expr)
    }

    fn multiplication(&mut self) -> (r: Result<Expr, ParseError>)
        requires
            old(self).wf(),
        ensures
            final(self).wf(),
            final(self).tokens == old(self).tokens,
            final(self).current >= old(self).current,
            parse_outcome(r, old(self).tokens@),
            agrees(r, final(self).current as int, spec_binary(old(self).tokens@, 1, old(self).current as int)),
        decreases old(self).tokens@.len() - old(self).current, 3nat,
    {
        let mut expr = self.unary()?;
        while self.mtch2(TokenType::Slash, TokenType::Star)
            invariant
                self.wf(),
                self.tokens == old(self).tokens,
                self.current >= old(self).current,
                expr_wf(expr),
                spec_rest(self.tokens@, 1, expr, self.current as int)
                    == spec_binary(self.tokens@, 1, old(self).current as int),
            decreases self.tokens@.len() - self.current,
        {
            let operator = self.previous();
            let right = self.unary()?;
            expr = Binary::new(expr, operator, right);
        }
        Ok(expr)
    }

    fn unary(&mut self) -> (r: Result<Expr, ParseError>)
        requires
            old(self).wf(),
        ensures
            final(self).wf(),
            final(self).tokens == old(self).tokens,
            final(self).current >= old(self).current,
            parse_outcome(r, old(self).tokens@),
            agrees(r, final(self).current as int, spec_unary(old(self).tokens@, old(self).current as int)),
        decreases old(self).tokens@.len() - old(self).current, 1nat,
    {
        if self.mtch2(TokenType::Bang, TokenType::Minus) {
            let operator = self.previous();
            let right = self.unary()?;
            return Ok(Unary::new(operator, right));
        }
        self.primary()
    }

    fn primary(&mut self) -> (r: Result<Expr, ParseError>)
        requires
            old(self).wf(),
        ensures
            final(self).wf(),
            final(self).tokens == old(self).tokens,
            final(self).current >= old(self).current,
            parse_outcome(r, old(self).tokens@),
            agrees(r, final(self).current as int, spec_primary(old(self).tokens@, old(self).current as int)),
            !starts_primary(old(self).tokens@[old(self).current as int].token_type) ==> {
                &&& final(self).current == old(self).current
                &&& r matches Err(x)
                &&& x.token == old(self).tokens@[old(self).current as int]
                &&& x.kind == ParseErrorKind::ExpectedExpression
            },
        decreases old(self).tokens@.len() - old(self).current, 0nat,
    {
        if self.mtch(TokenType::False) {
            return Ok(Literal::new(TokenLiteral::Bool(false)));
        }
        if self.mtch(TokenType::True) {
            return Ok(Literal::new(TokenLiteral::Bool(true)));
        }
        if self.mtch(TokenType::Nil) {
            return Ok(Literal::new(TokenLiteral::Nil));
        }
        if self.mtch2(TokenType::Number, TokenType::Str) {
            let t = self.previous();
            return Ok(Literal::new(t.literal));
        }
        if self.mtch(TokenType::LeftParen) {
            let expr = self.expression()?;
            if self.check(TokenType::RightParen) {
                self.advance();
                return Ok(Grouping::new(expr));
            }
            return Err(ParseError { token: self.peek(), kind: ParseErrorKind::ExpectedRightParen });
        }
        Err(ParseError { token: self.peek(), kind: ParseErrorKind::ExpectedExpression })
    }

    /// Consumes the current token when it has type `t`.
    fn mtch(&mut self, t: TokenType) -> (r: bool)
        requires
            old(self).wf(),
        ensures
            final(self).wf(),
            final(self).tokens == old(self).tokens,
            final(self).current == old(self).current + if r { 1int } else { 0int },
            r == (old(self).tokens@[old(self).current as int].token_type != TokenType::Eof
                && old(self).tokens@[old(self).current as int].token_type == t),
    {
        if self.check(t) {
            self.advance();
            return true;
        }
        false
    }

    fn mtch2(&mut self, a: TokenType, b: TokenType) -> (r: bool)
        requires
            old(self).wf(),
        ensures
            final(self).wf(),
            final(self).tokens == old(self).tokens,
            final(self).current == old(self).current + if r { 1int } else { 0int },
            r == (old(self).tokens@[old(self).current as int].token_type != TokenType::Eof
                && (old(self).tokens@[old(self).current as int].token_type == a
                || old(self).tokens@[old(self).current as int].token_type == b)),
    {
        self.mtch(a) || self.mtch(b)
    }

    fn check(&self, t: TokenType) -> (r: bool)
        requires
            self.wf(),
        ensures
            r == (self.tokens@[self.current as int].token_type != TokenType::Eof
                && self.tokens@[self.current as int].token_type == t),
    {
        if self.is_at_end() {
            return false;
        }
        self.tokens[self.current].token_type == t
    }

    fn advance(&mut self)
        requires
            old(self).wf(),
            old(self).tokens@[old(self).current as int].token_type != TokenType::Eof,
        ensures
            final(self).wf(),
            final(self).tokens == old(self).tokens,
            final(self).current == old(self).current + 1,
    {
        let len = self.tokens.len();
        proof {
            if self.current == len - 1 {
                assert(self.tokens@[self.current as int] == self.tokens@.last());
            }
        }
        self.current = self.current + 1;
    }

    fn is_at_end(&self) -> (r: bool)
        requires
            self.wf(),
        ensures
            r == (self.tokens@[self.current as int].token_type == TokenType::Eof),
    {
        self.tokens[self.current].token_type == TokenType::Eof
    }

    fn peek(&self) -> (r: Token)
        requires
            self.wf(),
        ensures
            r == self.tokens@[self.current as int],
    {
        self.tokens[self.current].duplicate()
    }

    fn previous(&self) -> (r: Token)
        requires
            self.wf(),
            self.current > 0,
        ensures
            r == self.tokens@[self.current - 1],
            r.literal.wf(),
    {
        self.tokens[self.current - 1].duplicate()
    }
}

} // verus!
