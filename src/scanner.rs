use vstd::prelude::*;
use crate::ast_printer::push_char;
use crate::token::{token_views, Number, Token, TokenLiteral, TokenType, TokenView, Value};

verus! {

#[derive(Clone, Copy, Debug, PartialEq, Eq, Structural)]
pub enum LexErrorKind {
    UnexpectedCharacter,
    UnterminatedString,
    /// A number literal whose whole part does not fit in 64 bits; its
    /// token carries the largest number.
    NumberOutOfRange,
}

/// The text of a lexical error.
pub open spec fn lex_message(k: LexErrorKind) -> Seq<char> {
    match k {
        LexErrorKind::UnexpectedCharacter => "Unexpected character."@,
        LexErrorKind::UnterminatedString => "Unterminated string."@,
        LexErrorKind::NumberOutOfRange => "Number literal out of range."@,
    }
}

impl LexErrorKind {
    pub fn message(&self) -> (r: &'static str)
        ensures
            r@ == lex_message(*self),
    {
        match self {
            LexErrorKind::UnexpectedCharacter => "Unexpected character.",
            LexErrorKind::UnterminatedString => "Unterminated string.",
            LexErrorKind::NumberOutOfRange => "Number literal out of range.",
        }
    }
}

/// A lexical error and the line it was found on.
#[derive(Clone, Copy, Debug, PartialEq, Eq, Structural)]
pub struct LexError {
    pub line: usize,
    pub kind: LexErrorKind,
}

/// The characters of `s` in order.
fn chars_of(s: &str) -> (r: Vec<char>)
    ensures
        r@ == s@,
{
    proof {
        broadcast use vstd::string::axiom_spec_iter;
    }
    let mut r: Vec<char> = Vec::new();
    for c in it: s.chars()
        invariant
            it.seq() == s@,
            r@ == it.seq().subrange(0, it.index() as int),
    {
        assert(it.seq().subrange(0, it.index() + 1) =~= r@.push(c));
        r.push(c);
    }
    assert(r@ =~= s@);
    r
}

/// The text of `cs[from..to]`.
fn text_of(cs: &Vec<char>, from: usize, to: usize) -> (r: String)
    requires
        from <= to <= cs@.len(),
    ensures
        r@ == cs@.subrange(from as int, to as int),
{
    let mut s = String::new();
    let mut i = from;
    while i < to
        invariant
            from <= i <= to <= cs@.len(),
            s@ == cs@.subrange(from as int, i as int),
        decreases to - i,
    {
        push_char(&mut s, cs[i]);
        assert(cs@.subrange(from as int, i + 1) =~= cs@.subrange(from as int, i as int).push(cs@[i as int]));
        i = i + 1;
    }
    s
}

pub open spec fn spec_is_digit(c: char) -> bool {
    '0' <= c <= '9'
}

pub open spec fn spec_is_alpha(c: char) -> bool {
    ('a' <= c <= 'z') || ('A' <= c <= 'Z') || c == '_'
}

fn is_digit(c: char) -> (r: bool)
    ensures
        r == spec_is_digit(c),
{
    '0' <= c && c <= '9'
}

fn is_alpha(c: char) -> (r: bool)
    ensures
        r == spec_is_alpha(c),
{
    ('a' <= c && c <= 'z') || ('A' <= c && c <= 'Z') || c == '_'
}

fn is_alpha_numeric(c: char) -> (r: bool)
    ensures
        r == (spec_is_alpha(c) || spec_is_digit(c)),
{
    is_alpha(c) || is_digit(c)
}

pub open spec fn digits_or_dots(s: Seq<char>) -> bool {
    forall|k: int| 0 <= k < s.len() ==> (spec_is_digit(#[trigger] s[k]) || s[k] == '.')
}

/// Where reading a number literal stands: the value so far `num / den`,
/// whether the dot was passed, whether further fractional digits are
/// dropped because they no longer fit, and whether the whole part
/// overflowed.
pub struct LiteralRead {
    pub num: int,
    pub den: int,
    pub frac: bool,
    pub truncated: bool,
    pub overflow: bool,
}

/// Reads one more character of a literal.
pub open spec fn literal_step(st: LiteralRead, c: char) -> LiteralRead {
    if c == '.' {
        LiteralRead { frac: true, ..st }
    } else {
        let n = st.num * 10 + (c as int - '0' as int);
        if st.frac {
            if st.truncated || n > i64::MAX || st.den * 10 > i64::MAX {
                LiteralRead { truncated: true, ..st }
            } else {
                LiteralRead { num: n, den: st.den * 10, ..st }
            }
        } else if st.overflow || n > i64::MAX {
            LiteralRead { num: i64::MAX as int, overflow: true, ..st }
        } else {
            LiteralRead { num: n, ..st }
        }
    }
}

/// Reads a number literal such as `45.67` from left to right: its value is
/// `4567 / 100`. Fractional digits past 64 bits of precision are dropped;
/// a whole part past 64 bits reads as the largest number and is flagged.
pub open spec fn read_literal(s: Seq<char>) -> LiteralRead
    decreases s.len(),
{
    if s.len() == 0 {
        LiteralRead { num: 0, den: 1, frac: false, truncated: false, overflow: false }
    } else {
        literal_step(read_literal(s.drop_last()), s.last())
    }
}

/// Reads the number literal `cs[from..to]`, made of digits and dots: the
/// number, and whether its whole part overflowed.
fn decimal_value(cs: &Vec<char>, from: usize, to: usize) -> (r: (Number, bool))
    requires
        from <= to <= cs@.len(),
        digits_or_dots(cs@.subrange(from as int, to as int)),
    ensures
        ({
            let st = read_literal(cs@.subrange(from as int, to as int));
            r.0.num == st.num && r.0.den == st.den && r.1 == st.overflow
        }),
        r.0.wf(),
        r.0.num >= 0,
{
    let ghost s = cs@.subrange(from as int, to as int);
    let mut num: i64 = 0;
    let mut den: i64 = 1;
    let mut frac = false;
    let mut truncated = false;
    let mut overflow = false;
    let mut i = from;
    while i < to
        invariant
            from <= i <= to <= cs@.len(),
            s == cs@.subrange(from as int, to as int),
            digits_or_dots(s),
            num >= 0,
            den >= 1,
            read_literal(s.subrange(0, i - from)) == (LiteralRead {
                num: num as int, den: den as int, frac, truncated, overflow,
            }),
        decreases to - i,
    {
        let c = cs[i];
        proof {
            let next = s.subrange(0, i - from + 1);
            assert(next.drop_last() =~= s.subrange(0, i - from));
            assert(next.last() == c);
        }
        if c == '.' {
            frac = true;
        } else {
            assert(spec_is_digit(s[i - from]));
            let d = (c as u32 - '0' as u32) as i128;
            let t: i128 = num as i128 * 10 + d;
            if frac {
                let u: i128 = den as i128 * 10;
                if truncated || t > i64::MAX as i128 || u > i64::MAX as i128 {
                    truncated = true;
                } else {
                    num = t as i64;
                    den = u as i64;
                }
            } else if overflow || t > i64::MAX as i128 {
                num = i64::MAX;
                overflow = true;
            } else {
                num = t as i64;
            }
        }
        i = i + 1;
    }
    proof {
        assert(s.subrange(0, i - from) =~= s);
    }
    (Number { num, den }, overflow)
}

fn same_text(t: &String, word: &str) -> (r: bool)
    ensures
        r == (t@ == word@),
{
    let a = t.as_str();
    let n = a.unicode_len();
    if n != word.unicode_len() {
        return false;
    }
    let mut i: usize = 0;
    while i < n
        invariant
            a@ == t@,
            n == t@.len(),
            n == word@.len(),
            i <= n,
            t@.subrange(0, i as int) == word@.subrange(0, i as int),
        decreases n - i,
    {
        let c = a.get_char(i);
        if c != word.get_char(i) {
            return false;
        }
        assert(t@.subrange(0, i + 1) =~= t@.subrange(0, i as int).push(c));
        assert(word@.subrange(0, i + 1) =~= word@.subrange(0, i as int).push(c));
        i = i + 1;
    }
    assert(t@ =~= t@.subrange(0, n as int));
    assert(word@ =~= word@.subrange(0, n as int));
    true
}

/// The reserved word that `t` spells, or `Identifier`.
pub open spec fn keyword_of(t: Seq<char>) -> TokenType {
    if t == "and"@ {
        TokenType::And
    } else if t == "class"@ {
        TokenType::Class
    } else if t == "else"@ {
        TokenType::Else
    } else if t == "false"@ {
        TokenType::False
    } else if t == "for"@ {
        TokenType::For
    } else if t == "fun"@ {
        TokenType::Fun
    } else if t == "if"@ {
        TokenType::If
    } else if t == "nil"@ {
        TokenType::Nil
    } else if t == "or"@ {
        TokenType::Or
    } else if t == "print"@ {
        TokenType::Print
    } else if t == "return"@ {
        TokenType::Return
    } else if t == "super"@ {
        TokenType::Super
    } else if t == "this"@ {
        TokenType::This
    } else if t == "true"@ {
        TokenType::True
    } else if t == "var"@ {
        TokenType::Var
    } else if t == "while"@ {
        TokenType::While
    } else {
        TokenType::Identifier
    }
}

/// The keyword that `t` spells, or `Identifier`.
fn keyword_type(t: &String) -> (r: TokenType)
    ensures
        r == keyword_of(t@),
        r != TokenType::Eof,
{
    if same_text(t, "and") { TokenType::And }
    else if same_text(t, "class") { TokenType::Class }
    else if same_text(t, "else") { TokenType::Else }
    else if same_text(t, "false") { TokenType::False }
    else if same_text(t, "for") { TokenType::For }
    else if same_text(t, "fun") { TokenType::Fun }
    else if same_text(t, "if") { TokenType::If }
    else if same_text(t, "nil") { TokenType::Nil }
    else if same_text(t, "or") { TokenType::Or }
    else if same_text(t, "print") { TokenType::Print }
    else if same_text(t, "return") { TokenType::Return }
    else if same_text(t, "super") { TokenType::Super }
    else if same_text(t, "this") { TokenType::This }
    else if same_text(t, "true") { TokenType::True }
    else if same_text(t, "var") { TokenType::Var }
    else if same_text(t, "while") { TokenType::While }
    else { TokenType::Identifier }
}

/// Index of the end of a line comment whose text starts at `j`.
pub open spec fn comment_end(cs: Seq<char>, j: int) -> int
    decreases cs.len() - j,
{
    if j < 0 || j >= cs.len() || cs[j] == '\n' { j } else { comment_end(cs, j + 1) }
}

/// Index of the closing quote of a string whose text starts at `j`, or the
/// length when there is none.
pub open spec fn string_end(cs: Seq<char>, j: int) -> int
    decreases cs.len() - j,
{
    if j < 0 || j >= cs.len() || cs[j] == '"' { j } else { string_end(cs, j + 1) }
}

/// Newlines from `j` up to `string_end(cs, j)`.
pub open spec fn string_lines(cs: Seq<char>, j: int) -> int
    decreases cs.len() - j,
{
    if j < 0 || j >= cs.len() || cs[j] == '"' {
        0
    } else {
        (if cs[j] == '\n' { 1int } else { 0int }) + string_lines(cs, j + 1)
    }
}

/// End of the run of digits starting at `j`.
pub open spec fn digits_end(cs: Seq<char>, j: int) -> int
    decreases cs.len() - j,
{
    if 0 <= j < cs.len() && spec_is_digit(cs[j]) { digits_end(cs, j + 1) } else { j }
}

/// End of the run of letters, digits and underscores starting at `j`.
pub open spec fn word_end(cs: Seq<char>, j: int) -> int
    decreases cs.len() - j,
{
    if 0 <= j < cs.len() && (spec_is_alpha(cs[j]) || spec_is_digit(cs[j])) { word_end(cs, j + 1) } else { j }
}

/// End of a number literal whose first digit is at `i`: digits, then a dot
/// and digits only when a digit follows the dot.
pub open spec fn number_end(cs: Seq<char>, i: int) -> int {
    let d = digits_end(cs, i + 1);
    if d + 1 < cs.len() && cs[d] == '.' && spec_is_digit(cs[d + 1]) { digits_end(cs, d + 1) } else { d }
}

/// One lexical step: where it ends, the line after it, and the token or
/// error it yields.
pub struct Lexed {
    pub end: int,
    pub line: int,
    pub token: Option<(TokenType, Value)>,
    pub error: Option<LexErrorKind>,
}

pub open spec fn emit(end: int, line: int, t: TokenType) -> Lexed {
    Lexed { end, line, token: Some((t, Value::Nil)), error: None }
}

pub open spec fn either(cs: Seq<char>, i: int, line: int, two: TokenType, one: TokenType) -> Lexed {
    if i + 1 < cs.len() && cs[i + 1] == '=' { emit(i + 2, line, two) } else { emit(i + 1, line, one) }
}

/// The lexeme starting at `i`, on line `line`.
pub open spec fn lex_step(cs: Seq<char>, i: int, line: int) -> Lexed {
    let c = cs[i];
    if c == '(' { emit(i + 1, line, TokenType::LeftParen) }
    else if c == ')' { emit(i + 1, line, TokenType::RightParen) }
    else if c == '{' { emit(i + 1, line, TokenType::LeftBrace) }
    else if c == '}' { emit(i + 1, line, TokenType::RightBrace) }
    else if c == ',' { emit(i + 1, line, TokenType::Comma) }
    else if c == '.' { emit(i + 1, line, TokenType::Dot) }
    else if c == '-' { emit(i + 1, line, TokenType::Minus) }
    else if c == '+' { emit(i + 1, line, TokenType::Plus) }
    else if c == ';' { emit(i + 1, line, TokenType::Semicolon) }
    else if c == '*' { emit(i + 1, line, TokenType::Star) }
    else if c == '!' { either(cs, i, line, TokenType::BangEqual, TokenType::Bang) }
    else if c == '=' { either(cs, i, line, TokenType::EqualEqual, TokenType::Equal) }
    else if c == '<' { either(cs, i, line, TokenType::LessEqual, TokenType::Less) }
    else if c == '>' { either(cs, i, line, TokenType::GreaterEqual, TokenType::Greater) }
    else if c == '/' {
        if i + 1 < cs.len() && cs[i + 1] == '/' {
            Lexed { end: comment_end(cs, i + 2), line, token: None, error: None }
        } else {
            emit(i + 1, line, TokenType::Slash)
        }
    } else if c == '"' {
        let e = string_end(cs, i + 1);
        let l = line + string_lines(cs, i + 1);
        if e >= cs.len() {
            Lexed { end: e, line: l, token: None, error: Some(LexErrorKind::UnterminatedString) }
        } else {
            Lexed { end: e + 1, line: l, token: Some((TokenType::Str, Value::Str(cs.subrange(i + 1, e)))), error: None }
        }
    } else if c == '\n' {
        Lexed { end: i + 1, line: line + 1, token: None, error: None }
    } else if c == ' ' || c == '\r' || c == '\t' {
        Lexed { end: i + 1, line, token: None, error: None }
    } else if spec_is_digit(c) {
        let e = number_end(cs, i);
        let st = read_literal(cs.subrange(i, e));
        Lexed {
            end: e,
            line,
            token: Some((TokenType::Number, Value::Number(Number { num: st.num as i64, den: st.den as i64 }))),
            error: if st.overflow { Some(LexErrorKind::NumberOutOfRange) } else { None },
        }
    } else if spec_is_alpha(c) {
        let e = word_end(cs, i + 1);
        let k = keyword_of(cs.subrange(i, e));
        if k == TokenType::Identifier {
            Lexed { end: e, line, token: Some((TokenType::Identifier, Value::Nil)), error: None }
        } else {
            Lexed { end: e, line, token: Some((k, Value::Str(cs.subrange(i, e)))), error: None }
        }
    } else {
        Lexed { end: i + 1, line, token: None, error: Some(LexErrorKind::UnexpectedCharacter) }
    }
}

/// The token a step yields, as a sequence of zero or one.
pub open spec fn step_tokens(cs: Seq<char>, i: int, st: Lexed) -> Seq<TokenView> {
    match st.token {
        Some((t, v)) => seq![TokenView { token_type: t, lexeme: cs.subrange(i, st.end), literal: v, line: st.line }],
        None => Seq::empty(),
    }
}

/// The error a step yields, as a sequence of zero or one.
pub open spec fn step_errors(st: Lexed) -> Seq<LexError> {
    match st.error {
        Some(k) => seq![LexError { line: st.line as usize, kind: k }],
        None => Seq::empty(),
    }
}

/// The tokens and errors of scanning `cs` from `i` on line `line`.
pub open spec fn spec_scan(cs: Seq<char>, i: int, line: int) -> (Seq<TokenView>, Seq<LexError>)
    decreases cs.len() - i,
{
    if i < 0 || i >= cs.len() {
        (seq![TokenView { token_type: TokenType::Eof, lexeme: Seq::empty(), literal: Value::Nil, line }], Seq::empty())
    } else {
        let st = lex_step(cs, i, line);
        if i < st.end <= cs.len() {
            let rest = spec_scan(cs, st.end, st.line);
            (step_tokens(cs, i, st) + rest.0, step_errors(st) + rest.1)
        } else {
            (Seq::empty(), Seq::empty())
        }
    }
}

/// Scans `source`: its tokens, always ending in exactly one end marker,
/// and every lexical error, in order.
pub fn scan(source: &str) -> (r: (Vec<Token>, Vec<LexError>))
    requires
        source@.len() < usize::MAX,
    ensures
        scanned_tokens(r.0@),
        token_views(r.0@) == spec_scan(source@, 0, 1).0,
        r.1@ == spec_scan(source@, 0, 1).1,
        forall|i: int| 0 <= i < r.1@.len() ==> r.1@[i].line >= 1,
{
    let mut scanner = Scanner::new(source);
    let tokens = scanner.scan_tokens();
    (tokens, scanner.into_errors())
}

/// Tokens that may stand before the end marker.
pub open spec fn body_tokens(ts: Seq<Token>) -> bool {
    forall|i: int| 0 <= i < ts.len() ==> ts[i].token_type != TokenType::Eof && ts[i].literal.wf() && ts[i].line >= 1
}

/// A token sequence as the scanner leaves it: ordinary tokens, then exactly
/// one end marker.
pub open spec fn scanned_tokens(ts: Seq<Token>) -> bool {
    ts.len() >= 1 && body_tokens(ts.drop_last()) && ts.last().token_type == TokenType::Eof
        && ts.last().literal == TokenLiteral::Nil && ts.last().line >= 1
}

/// Turns source text into tokens, collecting lexical errors on the way.
pub struct Scanner {
    chars: Vec<char>,
    tokens: Vec<Token>,
    errors: Vec<LexError>,
    start: usize,
    current: usize,
    line: usize,
}

/// One call of `scan_token` took the step that `lex_step` describes.
spec fn stepped(o: Scanner, n: Scanner) -> bool {
    let st = lex_step(o.chars@, o.start as int, o.line as int);
    &&& n.chars == o.chars
    &&& n.start == o.start
    &&& n.current as int == st.end
    &&& n.line as int == st.line
    &&& token_views(n.tokens@) == token_views(o.tokens@) + step_tokens(o.chars@, o.start as int, st)
    &&& n.errors@ == o.errors@ + step_errors(st)
}

/// Only the position moved.
spec fn moved(o: Scanner, n: Scanner) -> bool {
    &&& n.chars == o.chars
    &&& n.start == o.start
    &&& n.line == o.line
    &&& n.tokens == o.tokens
    &&& n.errors == o.errors
}

impl Scanner {
    pub closed spec fn wf(&self) -> bool {
        &&& self.chars@.len() < usize::MAX
        &&& self.start <= self.current <= self.chars@.len()
        &&& 1 <= self.line <= self.current + 1
        &&& body_tokens(self.tokens@)
        &&& forall|i: int| 0 <= i < self.errors@.len() ==> self.errors@[i].line >= 1
    }

    /// The text to scan, as characters.
    pub closed spec fn source(&self) -> Seq<char> {
        self.chars@
    }

    /// Nothing scanned yet.
    pub closed spec fn fresh(&self) -> bool {
        self.current == 0 && self.start == 0 && self.line == 1 && self.tokens@.len() == 0
            && self.errors@.len() == 0
    }

    /// The lexical errors found so far.
    pub closed spec fn errors_found(&self) -> Seq<LexError> {
        self.errors@
    }

    pub fn new(source: &str) -> (r: Scanner)
        requires
            source@.len() < usize::MAX,
        ensures
            r.wf(),
            r.fresh(),
            r.source() == source@,
    {
        Scanner {
            chars: chars_of(source),
            tokens: Vec::new(),
            errors: Vec::new(),
            start: 0,
            current: 0,
            line: 1,
        }
    }

    /// The lexical errors found so far, in the order they were found.
    pub fn errors(&self) -> (r: &Vec<LexError>)
        requires
            self.wf(),
        ensures
            r@ == self.errors_found(),
            forall|i: int| 0 <= i < r@.len() ==> r@[i].line >= 1,
    {
        &self.errors
    }

    /// Hands over the lexical errors found, in the order they were found.
    pub fn into_errors(self) -> (r: Vec<LexError>)
        requires
            self.wf(),
        ensures
            r@ == self.errors_found(),
            forall|i: int| 0 <= i < r@.len() ==> r@[i].line >= 1,
    {
        self.errors
    }

    /// Scans the whole source. The result always ends with exactly one end
    /// marker, on the last line, even for an empty source; on a fresh
    /// scanner, tokens and errors are those of `spec_scan`.
    pub fn scan_tokens(&mut self) -> (r: Vec<Token>)
        requires
            old(self).wf(),
        ensures
            final(self).wf(),
            scanned_tokens(r@),
            old(self).fresh() ==> token_views(r@) == spec_scan(old(self).source(), 0, 1).0,
            old(self).fresh() ==> final(self).errors_found() == spec_scan(old(self).source(), 0, 1).1,
    {
        let ghost cs = self.chars@;
        while !self.is_at_end()
            invariant
                self.wf(),
                self.chars@ == cs,
                token_views(self.tokens@) + spec_scan(cs, self.current as int, self.line as int).0
                    == token_views(old(self).tokens@) + spec_scan(cs, old(self).current as int, old(self).line as int).0,
                self.errors@ + spec_scan(cs, self.current as int, self.line as int).1
                    == old(self).errors@ + spec_scan(cs, old(self).current as int, old(self).line as int).1,
            decreases self.chars@.len() - self.current,
        {
            self.start = self.current;
            let ghost before = *self;
            self.scan_token();
            proof {
                let st = lex_step(cs, before.current as int, before.line as int);
                let rest = spec_scan(cs, self.current as int, self.line as int);
                assert(spec_scan(cs, before.current as int, before.line as int)
                    == (step_tokens(cs, before.current as int, st) + rest.0, step_errors(st) + rest.1));
                assert(token_views(before.tokens@) + (step_tokens(cs, before.current as int, st) + rest.0)
                    =~= token_views(self.tokens@) + rest.0);
                assert(before.errors@ + (step_errors(st) + rest.1) =~= self.errors@ + rest.1);
            }
        }
        let eof = Token::new(TokenType::Eof, "", TokenLiteral::Nil, self.line);
        let ghost body = self.tokens@;
        let mut out: Vec<Token> = Vec::new();
        std::mem::swap(&mut out, &mut self.tokens);
        out.push(eof);
        proof {
            reveal_strlit("");
            assert(out@ =~= body.push(eof));
            assert(out@.drop_last() =~= body);
            assert(eof.lexeme@ =~= Seq::<char>::empty());
            assert(eof@ == TokenView { token_type: TokenType::Eof, lexeme: Seq::empty(), literal: Value::Nil, line: self.line as int });
            assert(token_views(out@) =~= token_views(body) + spec_scan(cs, self.current as int, self.line as int).0);
            if old(self).fresh() {
                assert(token_views(old(self).tokens@) =~= Seq::<TokenView>::empty());
                assert(old(self).errors@ =~= Seq::<LexError>::empty());
                assert(token_views(out@) =~= spec_scan(cs, 0, 1).0);
                assert(self.errors@ =~= spec_scan(cs, 0, 1).1);
            }
        }
        out
    }

    fn add_token(&mut self, token_type: TokenType, literal: TokenLiteral)
        requires
            old(self).wf(),
            old(self).start < old(self).current,
            token_type != TokenType::Eof,
            literal.wf(),
        ensures
            final(self).wf(),
            final(self).current == old(self).current,
            final(self).start == old(self).start,
            final(self).chars == old(self).chars,
            final(self).line == old(self).line,
            final(self).errors == old(self).errors,
            token_views(final(self).tokens@) == token_views(old(self).tokens@) + seq![TokenView {
                token_type,
                lexeme: old(self).chars@.subrange(old(self).start as int, old(self).current as int),
                literal: literal@,
                line: old(self).line as int,
            }],
    {
        let lexeme = text_of(&self.chars, self.start, self.current);
        let t = Token { token_type, lexeme, literal, line: self.line };
        self.tokens.push(t);
        assert(token_views(self.tokens@) =~= token_views(old(self).tokens@) + seq![t@]);
    }

    fn error(&mut self, kind: LexErrorKind)
        requires
            old(self).wf(),
        ensures
            final(self).wf(),
            final(self).current == old(self).current,
            final(self).start == old(self).start,
            final(self).chars == old(self).chars,
            final(self).line == old(self).line,
            final(self).tokens == old(self).tokens,
            final(self).errors@ == old(self).errors@ + seq![LexError { line: old(self).line, kind }],
    {
        self.errors.push(LexError { line: self.line, kind });
        assert(self.errors@ =~= old(self).errors@ + seq![LexError { line: old(self).line, kind }]);
    }

    fn advance(&mut self) -> (c: char)
        requires
            old(self).wf(),
            old(self).current < old(self).chars@.len(),
        ensures
            final(self).wf(),
            moved(*old(self), *final(self)),
            final(self).current == old(self).current + 1,
            c == old(self).chars@[old(self).current as int],
    {
        let c = self.chars[self.current];
        self.current = self.current + 1;
        c
    }

    fn mtch(&mut self, expected: char) -> (r: bool)
        requires
            old(self).wf(),
        ensures
            final(self).wf(),
            moved(*old(self), *final(self)),
            r == (old(self).current < old(self).chars@.len() && old(self).chars@[old(self).current as int] == expected),
            final(self).current == old(self).current + if r { 1int } else { 0int },
    {
        if self.is_at_end() {
            return false;
        }
        if self.chars[self.current] != expected {
            return false;
        }
        self.current = self.current + 1;
        true
    }

    fn peek(&self) -> (c: char)
        requires
            self.wf(),
        ensures
            self.current < self.chars@.len() ==> c == self.chars@[self.current as int],
            self.current >= self.chars@.len() ==> c == '\0',
    {
        if self.is_at_end() {
            return '\0';
        }
        self.chars[self.current]
    }

    fn peek_next(&self) -> (c: char)
        requires
            self.wf(),
        ensures
            self.current + 1 < self.chars@.len() ==> c == self.chars@[self.current + 1],
            self.current + 1 >= self.chars@.len() ==> c == '\0',
    {
        if self.current + 1 >= self.chars.len() {
            return '\0';
        }
        self.chars[self.current + 1]
    }

    fn newline(&mut self)
        requires
            old(self).wf(),
            old(self).line <= old(self).current,
        ensures
            final(self).wf(),
            final(self).current == old(self).current,
            final(self).start == old(self).start,
            final(self).chars == old(self).chars,
            final(self).tokens == old(self).tokens,
            final(self).errors == old(self).errors,
            final(self).line == old(self).line + 1,
    {
        self.line = self.line + 1;
    }

    fn string(&mut self)
        requires
            old(self).wf(),
            old(self).current == old(self).start + 1,
            old(self).chars@[old(self).start as int] == '"',
        ensures
            final(self).wf(),
            final(self).current > old(self).start,
            stepped(*old(self), *final(self)),
    {
        let ghost cs = self.chars@;
        proof {
            assert(token_views(self.tokens@) + Seq::<TokenView>::empty() =~= token_views(self.tokens@));
            assert(self.errors@ + Seq::<LexError>::empty() =~= self.errors@);
        }
        let ghost j = self.current as int;
        while self.peek() != '"' && !self.is_at_end()
            invariant
                self.wf(),
                self.start < self.current,
                self.start == old(self).start,
                self.chars == old(self).chars,
                self.tokens == old(self).tokens,
                self.errors == old(self).errors,
                cs == self.chars@,
                string_end(cs, self.current as int) == string_end(cs, j),
                self.line + string_lines(cs, self.current as int) == old(self).line + string_lines(cs, j),
            decreases self.chars@.len() - self.current,
        {
            let c = self.advance();
            if c == '\n' {
                self.newline();
            }
        }
        if self.is_at_end() {
            self.error(LexErrorKind::UnterminatedString);
            return;
        }
        self.advance();
        let text = text_of(&self.chars, self.start + 1, self.current - 1);
        self.add_token(TokenType::Str, TokenLiteral::Str(text));
    }

    fn number(&mut self)
        requires
            old(self).wf(),
            old(self).current == old(self).start + 1,
            spec_is_digit(old(self).chars@[old(self).start as int]),
        ensures
            final(self).wf(),
            final(self).current > old(self).start,
            stepped(*old(self), *final(self)),
    {
        let ghost cs = self.chars@;
        proof {
            assert(token_views(self.tokens@) + Seq::<TokenView>::empty() =~= token_views(self.tokens@));
            assert(self.errors@ + Seq::<LexError>::empty() =~= self.errors@);
        }
        proof {
            assert(digits_or_dots(self.chars@.subrange(self.start as int, self.current as int)));
        }
        while is_digit(self.peek())
            invariant
                self.wf(),
                self.start < self.current,
                moved(*old(self), *self),
                cs == self.chars@,
                digits_end(cs, self.current as int) == digits_end(cs, old(self).current as int),
                digits_or_dots(self.chars@.subrange(self.start as int, self.current as int)),
            decreases self.chars@.len() - self.current,
        {
            self.extend_literal();
        }
        if self.peek() == '.' && is_digit(self.peek_next()) {
            let ghost d = self.current as int;
            self.extend_literal();
            while is_digit(self.peek())
                invariant
                    self.wf(),
                    self.start < self.current,
                    moved(*old(self), *self),
                    cs == self.chars@,
                    digits_end(cs, self.current as int) == digits_end(cs, d + 1),
                    digits_or_dots(self.chars@.subrange(self.start as int, self.current as int)),
                decreases self.chars@.len() - self.current,
            {
                self.extend_literal();
            }
        }
        assert(self.current as int == number_end(cs, self.start as int));
        let (n, overflow) = decimal_value(&self.chars, self.start, self.current);
        self.add_token(TokenType::Number, TokenLiteral::Number(n));
        if overflow {
            self.error(LexErrorKind::NumberOutOfRange);
        }
    }

    /// Consumes a digit or a dot of a number literal.
    fn extend_literal(&mut self)
        requires
            old(self).wf(),
            old(self).start < old(self).current < old(self).chars@.len(),
            spec_is_digit(old(self).chars@[old(self).current as int]) || old(self).chars@[old(self).current as int] == '.',
            digits_or_dots(old(self).chars@.subrange(old(self).start as int, old(self).current as int)),
        ensures
            final(self).wf(),
            moved(*old(self), *final(self)),
            final(self).current == old(self).current + 1,
            digits_or_dots(final(self).chars@.subrange(final(self).start as int, final(self).current as int)),
    {
        let c = self.advance();
        proof {
            let t = self.chars@.subrange(self.start as int, self.current as int);
            assert(t =~= old(self).chars@.subrange(self.start as int, old(self).current as int).push(c));
            assert forall|k: int| 0 <= k < t.len() implies (spec_is_digit(#[trigger] t[k]) || t[k] == '.') by {
                if k < t.len() - 1 {
                    assert(t[k] == old(self).chars@.subrange(self.start as int, old(self).current as int)[k]);
                }
            }
        }
    }

    fn identifier(&mut self)
        requires
            old(self).wf(),
            old(self).current == old(self).start + 1,
            spec_is_alpha(old(self).chars@[old(self).start as int]),
        ensures
            final(self).wf(),
            final(self).current > old(self).start,
            stepped(*old(self), *final(self)),
    {
        let ghost cs = self.chars@;
        proof {
            assert(token_views(self.tokens@) + Seq::<TokenView>::empty() =~= token_views(self.tokens@));
            assert(self.errors@ + Seq::<LexError>::empty() =~= self.errors@);
        }
        while is_alpha_numeric(self.peek())
            invariant
                self.wf(),
                self.start < self.current,
                moved(*old(self), *self),
                cs == self.chars@,
                word_end(cs, self.current as int) == word_end(cs, old(self).current as int),
            decreases self.chars@.len() - self.current,
        {
            self.advance();
        }
        let text = text_of(&self.chars, self.start, self.current);
        let kind = keyword_type(&text);
        if kind == TokenType::Identifier {
            self.add_token(TokenType::Identifier, TokenLiteral::Nil);
        } else {
            self.add_token(kind, TokenLiteral::Str(text));
        }
    }

    /// Scans one lexeme, starting at `start`, which equals `current`.
    fn scan_token(&mut self)
        requires
            old(self).wf(),
            old(self).start == old(self).current,
            old(self).current < old(self).chars@.len(),
        ensures
            final(self).wf(),
            final(self).current > old(self).current,
            stepped(*old(self), *final(self)),
    {
        let ghost cs = self.chars@;
        proof {
            assert(token_views(self.tokens@) + Seq::<TokenView>::empty() =~= token_views(self.tokens@));
            assert(self.errors@ + Seq::<LexError>::empty() =~= self.errors@);
        }
        let c = self.advance();
        match c {
            '(' => self.add_token(TokenType::LeftParen, TokenLiteral::Nil),
            ')' => self.add_token(TokenType::RightParen, TokenLiteral::Nil),
            '{' => self.add_token(TokenType::LeftBrace, TokenLiteral::Nil),
            '}' => self.add_token(TokenType::RightBrace, TokenLiteral::Nil),
            ',' => self.add_token(TokenType::Comma, TokenLiteral::Nil),
            '.' => self.add_token(TokenType::Dot, TokenLiteral::Nil),
            '-' => self.add_token(TokenType::Minus, TokenLiteral::Nil),
            '+' => self.add_token(TokenType::Plus, TokenLiteral::Nil),
            ';' => self.add_token(TokenType::Semicolon, TokenLiteral::Nil),
            '*' => self.add_token(TokenType::Star, TokenLiteral::Nil),
            '!' => {
                let m = if self.mtch('=') { TokenType::BangEqual } else { TokenType::Bang };
                self.add_token(m, TokenLiteral::Nil);
            },
            '=' => {
                let m = if self.mtch('=') { TokenType::EqualEqual } else { TokenType::Equal };
                self.add_token(m, TokenLiteral::Nil);
            },
            '<' => {
                let m = if self.mtch('=') { TokenType::LessEqual } else { TokenType::Less };
                self.add_token(m, TokenLiteral::Nil);
            },
            '>' => {
                let m = if self.mtch('=') { TokenType::GreaterEqual } else { TokenType::Greater };
                self.add_token(m, TokenLiteral::Nil);
            },
            '/' => {
                if self.mtch('/') {
                    let ghost j = self.current as int;
                    while self.peek() != '\n' && !self.is_at_end()
                        invariant
                            self.wf(),
                            self.current >= j,
                            moved(*old(self), *self),
                            cs == self.chars@,
                            comment_end(cs, self.current as int) == comment_end(cs, j),
                        decreases self.chars@.len() - self.current,
                    {
                        self.advance();
                    }
                } else {
                    self.add_token(TokenType::Slash, TokenLiteral::Nil);
                }
            },
            '"' => self.string(),
            '\n' => self.newline(),
            ' ' | '\r' | '\t' => {},
            _ => {
                if is_digit(c) {
                    self.number();
                } else if is_alpha(c) {
                    self.identifier();
                } else {
                    self.error(LexErrorKind::UnexpectedCharacter);
                }
            },
        }
    }

    fn is_at_end(&self) -> (r: bool)
        requires
            self.wf(),
        ensures
            r == (self.current >= self.chars@.len()),
    {
        self.current >= self.chars.len()
    }
}

} // verus!
