use vstd::prelude::*;
use crate::token::{Number, Token, TokenLiteral, TokenType, Value};
use crate::expr::{expr_wf, Expr};
use crate::ast_printer::{abs_int, gcd, value_text, AstPrinter};

verus! {

/// Why evaluation stopped.
#[derive(Clone, Copy, Debug, PartialEq, Eq, Structural)]
pub enum RuntimeErrorKind {
    /// Two numbers under an operator that numbers do not have.
    InvalidNumberOperator,
    /// Two strings under an operator that strings do not have.
    InvalidStringOperator,
    /// Two booleans under an operator other than `==` and `!=`.
    InvalidBooleanOperator,
    /// Operands of kinds that no binary operator combines.
    InvalidExpression,
    /// Unary `-` on something other than a number.
    OperandMustBeNumber,
    /// Division by a number equal to zero.
    DivisionByZero,
    /// A numeric result whose numerator or denominator leaves 64 bits.
    NumberOutOfRange,
}

/// The text of a runtime error.
pub open spec fn runtime_message(k: RuntimeErrorKind) -> Seq<char> {
    match k {
        RuntimeErrorKind::InvalidNumberOperator => "Invalid operator for number type."@,
        RuntimeErrorKind::InvalidStringOperator => "Invalid operator for string type."@,
        RuntimeErrorKind::InvalidBooleanOperator => "Invalid operator for boolean type."@,
        RuntimeErrorKind::InvalidExpression => "Invalid expression."@,
        RuntimeErrorKind::OperandMustBeNumber => "Operand must be a number."@,
        RuntimeErrorKind::DivisionByZero => "Division by zero."@,
        RuntimeErrorKind::NumberOutOfRange => "Number out of range."@,
    }
}

impl RuntimeErrorKind {
    pub fn message(&self) -> (r: &'static str)
        ensures
            r@ == runtime_message(*self),
    {
        match self {
            RuntimeErrorKind::InvalidNumberOperator => "Invalid operator for number type.",
            RuntimeErrorKind::InvalidStringOperator => "Invalid operator for string type.",
            RuntimeErrorKind::InvalidBooleanOperator => "Invalid operator for boolean type.",
            RuntimeErrorKind::InvalidExpression => "Invalid expression.",
            RuntimeErrorKind::OperandMustBeNumber => "Operand must be a number.",
            RuntimeErrorKind::DivisionByZero => "Division by zero.",
            RuntimeErrorKind::NumberOutOfRange => "Number out of range.",
        }
    }
}

/// A runtime error, attributed to the operator token where it arose.
#[derive(Clone, Debug)]
pub struct RuntimeError {
    pub token: Token,
    pub kind: RuntimeErrorKind,
}

/// Tree-walking evaluator.
pub struct Interpreter;

/// Nil is false, a boolean is itself, everything else is true.
pub open spec fn truthy(v: Value) -> bool {
    match v {
        Value::Nil => false,
        Value::Bool(b) => b,
        _ => true,
    }
}

pub open spec fn fits_i64(x: int) -> bool {
    i64::MIN <= x <= i64::MAX
}

/// `n / d` in lowest terms, for `d > 0`.
pub open spec fn lowest_terms(n: int, d: int) -> (int, int) {
    let g = gcd(abs_int(n), abs_int(d)) as int;
    if g == 0 {
        (n, d)
    } else {
        let m = abs_int(n) as int / g;
        (if n < 0 { -m } else { m }, d / g)
    }
}

/// The number `n / d` in lowest terms when both parts fit, else a range
/// error at `op`.
pub open spec fn make_number(op: Token, n: int, d: int) -> Result<Value, RuntimeError> {
    let (rn, rd) = lowest_terms(n, d);
    if i64::MIN < rn <= i64::MAX && fits_i64(rd) {
        Ok(Value::Number(Number { num: rn as i64, den: rd as i64 }))
    } else {
        Err(RuntimeError { token: op, kind: RuntimeErrorKind::NumberOutOfRange })
    }
}

/// `a < b` for well-formed numbers.
pub open spec fn num_less(a: Number, b: Number) -> bool {
    a.num * b.den < b.num * a.den
}

/// `a == b` for well-formed numbers, by value.
pub open spec fn num_equal(a: Number, b: Number) -> bool {
    a.num * b.den == b.num * a.den
}

/// Arithmetic and comparison on two numbers.
pub open spec fn number_binary(op: Token, a: Number, b: Number) -> Result<Value, RuntimeError> {
    match op.token_type {
        TokenType::Minus => make_number(op, a.num * b.den - b.num * a.den, a.den * b.den),
        TokenType::Plus => make_number(op, a.num * b.den + b.num * a.den, a.den * b.den),
        TokenType::Slash => if b.num == 0 {
            Err(RuntimeError { token: op, kind: RuntimeErrorKind::DivisionByZero })
        } else if b.num > 0 {
            make_number(op, a.num * b.den, a.den * b.num)
        } else {
            make_number(op, -(a.num * b.den), -(a.den * b.num))
        },
        TokenType::Star => make_number(op, a.num * b.num, a.den * b.den),
        TokenType::Greater => Ok(Value::Bool(num_less(b, a))),
        TokenType::GreaterEqual => Ok(Value::Bool(!num_less(a, b))),
        TokenType::Less => Ok(Value::Bool(num_less(a, b))),
        TokenType::LessEqual => Ok(Value::Bool(!num_less(b, a))),
        TokenType::EqualEqual => Ok(Value::Bool(num_equal(a, b))),
        TokenType::BangEqual => Ok(Value::Bool(!num_equal(a, b))),
        _ => Err(RuntimeError { token: op, kind: RuntimeErrorKind::InvalidNumberOperator }),
    }
}

/// Lexicographic order by character code from position `i` on:
/// negative, zero or positive as `a` sorts before, equal to or after `b`.
pub open spec fn lex_cmp_from(a: Seq<char>, b: Seq<char>, i: int) -> int
    decreases a.len() - i,
{
    if i >= a.len() {
        if i >= b.len() { 0 } else { -1 }
    } else if i >= b.len() {
        1
    } else if (a[i] as u32) < (b[i] as u32) {
        -1
    } else if (a[i] as u32) > (b[i] as u32) {
        1
    } else {
        lex_cmp_from(a, b, i + 1)
    }
}

pub open spec fn lex_cmp(a: Seq<char>, b: Seq<char>) -> int {
    lex_cmp_from(a, b, 0)
}

/// Concatenation and comparison on two strings.
pub open spec fn string_binary(op: Token, a: Seq<char>, b: Seq<char>) -> Result<Value, RuntimeError> {
    match op.token_type {
        TokenType::Plus => Ok(Value::Str(a + b)),
        TokenType::Greater => Ok(Value::Bool(lex_cmp(a, b) > 0)),
        TokenType::GreaterEqual => Ok(Value::Bool(lex_cmp(a, b) >= 0)),
        TokenType::Less => Ok(Value::Bool(lex_cmp(a, b) < 0)),
        TokenType::LessEqual => Ok(Value::Bool(lex_cmp(a, b) <= 0)),
        TokenType::EqualEqual => Ok(Value::Bool(a == b)),
        TokenType::BangEqual => Ok(Value::Bool(a != b)),
        _ => Err(RuntimeError { token: op, kind: RuntimeErrorKind::InvalidStringOperator }),
    }
}

/// What a binary operator gives on two evaluated operands.
pub open spec fn binary_value(op: Token, l: Value, r: Value) -> Result<Value, RuntimeError> {
    match (l, r) {
        (Value::Number(a), Value::Number(b)) => number_binary(op, a, b),
        (Value::Str(a), Value::Str(b)) => string_binary(op, a, b),
        (Value::Bool(a), Value::Bool(b)) => match op.token_type {
            TokenType::EqualEqual => Ok(Value::Bool(a == b)),
            TokenType::BangEqual => Ok(Value::Bool(a != b)),
            _ => Err(RuntimeError { token: op, kind: RuntimeErrorKind::InvalidBooleanOperator }),
        },
        _ => Err(RuntimeError { token: op, kind: RuntimeErrorKind::InvalidExpression }),
    }
}

/// What a unary operator gives on an evaluated operand.
pub open spec fn unary_value(op: Token, v: Value) -> Result<Value, RuntimeError> {
    match op.token_type {
        TokenType::Bang => Ok(Value::Bool(!truthy(v))),
        TokenType::Minus => match v {
            Value::Number(n) => Ok(Value::Number(Number { num: (-n.num) as i64, den: n.den })),
            _ => Err(RuntimeError { token: op, kind: RuntimeErrorKind::OperandMustBeNumber }),
        },
        _ => Ok(Value::Nil),
    }
}

/// The value of an expression tree: children first, the right operand of a
/// binary node before its left, stopping at the first error.
pub open spec fn eval(e: Expr) -> Result<Value, RuntimeError>
    decreases e,
{
    match e {
        Expr::Literal(l) => Ok(l.value@),
        Expr::Grouping(g) => eval(*g.expression),
        Expr::Unary(u) => match eval(*u.right) {
            Ok(v) => unary_value(u.operator, v),
            Err(x) => Err(x),
        },
        Expr::Binary(b) => match eval(*b.right) {
            Ok(r) => match eval(*b.left) {
                Ok(l) => binary_value(b.operator, l, r),
                Err(x) => Err(x),
            },
            Err(x) => Err(x),
        },
    }
}

/// A rendered outcome agrees with its mathematical description: the
/// value's text, or the same error.
pub open spec fn shown(r: Result<String, RuntimeError>, s: Result<Value, RuntimeError>) -> bool {
    match (r, s) {
        (Ok(t), Ok(v)) => t@ == value_text(v),
        (Err(x), Err(y)) => x == y,
        _ => false,
    }
}

/// A computed result agrees with its mathematical description.
pub open spec fn same_outcome(r: Result<TokenLiteral, RuntimeError>, s: Result<Value, RuntimeError>) -> bool {
    match (r, s) {
        (Ok(v), Ok(w)) => v@ == w && v.wf(),
        (Err(x), Err(y)) => x == y,
        _ => false,
    }
}

fn wide_mul(x: i64, y: i64) -> (r: i128)
    ensures
        r == x as int * y as int,
        -0x4000_0000_0000_0000_0000_0000_0000_0000 <= r <= 0x4000_0000_0000_0000_0000_0000_0000_0000,
        y > 0 ==> -0x3fff_ffff_ffff_ffff_8000_0000_0000_0000 <= r <= 0x3fff_ffff_ffff_ffff_8000_0000_0000_0000,
{
    proof {
        if y > 0 {
            assert(-0x3fff_ffff_ffff_ffff_8000_0000_0000_0000 <= x as int * y as int
                <= 0x3fff_ffff_ffff_ffff_8000_0000_0000_0000) by (nonlinear_arith)
                requires
                    i64::MIN <= x <= i64::MAX,
                    0 < y <= i64::MAX,
            ;
        }
        assert(-0x4000_0000_0000_0000_0000_0000_0000_0000 <= x as int * y as int
            <= 0x4000_0000_0000_0000_0000_0000_0000_0000) by (nonlinear_arith)
            requires
                i64::MIN <= x <= i64::MAX,
                i64::MIN <= y <= i64::MAX,
        ;
    }
    (x as i128) * (y as i128)
}

proof fn lemma_gcd_divides(a: nat, b: nat)
    requires
        b > 0,
    ensures
        gcd(a, b) > 0,
        a % gcd(a, b) == 0,
        b % gcd(a, b) == 0,
    decreases b,
{
    let r = a % b;
    if r == 0 {
        assert(gcd(b, 0) == b);
        vstd::arithmetic::div_mod::lemma_mod_self_0(b as int);
    } else {
        lemma_gcd_divides(b, r);
        let g = gcd(b, r) as int;
        vstd::arithmetic::div_mod::lemma_fundamental_div_mod(a as int, b as int);
        vstd::arithmetic::div_mod::lemma_fundamental_div_mod(b as int, g);
        vstd::arithmetic::div_mod::lemma_fundamental_div_mod(r as int, g);
        let k = (b as int / g) * (a as int / b as int) + r as int / g;
        assert(a as int == k * g) by (nonlinear_arith)
            requires
                a as int == (b as int) * (a as int / b as int) + r as int,
                b as int == g * (b as int / g),
                r as int == g * (r as int / g),
                k == (b as int / g) * (a as int / b as int) + r as int / g,
        ;
        vstd::arithmetic::div_mod::lemma_mod_multiples_basic(k, g);
    }
}

/// Reducing to lowest terms keeps the value: if `n / d` equals `en / ed`,
/// so does its reduced form, whose denominator stays positive.
proof fn lemma_lowest_terms_keep_value(n: int, d: int, en: int, ed: int)
    requires
        d > 0,
        n * ed == en * d,
    ensures
        lowest_terms(n, d).1 > 0,
        lowest_terms(n, d).0 * ed == en * lowest_terms(n, d).1,
{
    lemma_gcd_divides(abs_int(n), abs_int(d));
    let g = gcd(abs_int(n), abs_int(d)) as int;
    let m = abs_int(n) as int / g;
    let rd = d / g;
    vstd::arithmetic::div_mod::lemma_fundamental_div_mod(abs_int(n) as int, g);
    vstd::arithmetic::div_mod::lemma_fundamental_div_mod(d, g);
    let rn = lowest_terms(n, d).0;
    assert(n == g * rn) by {
        if n < 0 {
            assert(-n == g * m);
            assert(n == g * (-m)) by (nonlinear_arith)
                requires -n == g * m;
        } else {
            assert(n == g * m);
        }
    }
    assert(rd > 0) by (nonlinear_arith)
        requires d == g * rd, d > 0, g > 0;
    assert(rn * ed == en * rd) by (nonlinear_arith)
        requires n == g * rn, d == g * rd, n * ed == en * d, g > 0;
}

fn gcd_wide(a: u128, b: u128) -> (r: u128)
    ensures
        r as nat == gcd(a as nat, b as nat),
{
    let mut x = a;
    let mut y = b;
    while y != 0
        invariant
            gcd(x as nat, y as nat) == gcd(a as nat, b as nat),
        decreases y,
    {
        let t = x % y;
        x = y;
        y = t;
    }
    x
}

fn number_from_wide(op: &Token, n: i128, d: i128) -> (r: Result<TokenLiteral, RuntimeError>)
    requires
        d > 0,
        n > i128::MIN,
    ensures
        same_outcome(r, make_number(*op, n as int, d as int)),
{
    let mag: u128 = if n < 0 { (-n) as u128 } else { n as u128 };
    let g = gcd_wide(mag, d as u128);
    proof {
        lemma_gcd_divides(mag as nat, d as nat);
        lemma_lowest_terms_keep_value(n as int, d as int, n as int, d as int);
    }
    let m = mag / g;
    let rd = d as u128 / g;
    if m <= i64::MAX as u128 && rd <= i64::MAX as u128 {
        let num: i64 = if n < 0 { -(m as i64) } else { m as i64 };
        Ok(TokenLiteral::Number(Number { num, den: rd as i64 }))
    } else {
        Err(RuntimeError { token: op.duplicate(), kind: RuntimeErrorKind::NumberOutOfRange })
    }
}

fn number_binary_exec(op: &Token, a: Number, b: Number) -> (r: Result<TokenLiteral, RuntimeError>)
    requires
        a.wf(),
        b.wf(),
    ensures
        same_outcome(r, number_binary(*op, a, b)),
{
    let ad_bn = wide_mul(a.num, b.den);
    let bn_ad = wide_mul(b.num, a.den);
    proof {
        assert(a.den as int * b.den as int > 0) by (nonlinear_arith)
            requires a.den > 0, b.den > 0;
    }
    match op.token_type {
        TokenType::Minus => number_from_wide(op, ad_bn - bn_ad, wide_mul(a.den, b.den)),
        TokenType::Plus => number_from_wide(op, ad_bn + bn_ad, wide_mul(a.den, b.den)),
        TokenType::Slash => {
            if b.num == 0 {
                Err(RuntimeError { token: op.duplicate(), kind: RuntimeErrorKind::DivisionByZero })
            } else if b.num > 0 {
                let d = wide_mul(a.den, b.num);
                proof {
                    assert(a.den as int * b.num as int > 0) by (nonlinear_arith)
                        requires a.den > 0, b.num > 0;
                }
                number_from_wide(op, ad_bn, d)
            } else {
                let d = wide_mul(a.den, b.num);
                proof {
                    assert((a.den as int * b.num as int) < 0) by (nonlinear_arith)
                        requires a.den > 0, b.num < 0;
                }
                number_from_wide(op, -ad_bn, -d)
            }
        },
        TokenType::Star => {
            let n = wide_mul(a.num, b.num);
            number_from_wide(op, n, wide_mul(a.den, b.den))
        },
        TokenType::Greater => Ok(TokenLiteral::Bool(bn_ad < ad_bn)),
        TokenType::GreaterEqual => Ok(TokenLiteral::Bool(!(ad_bn < bn_ad))),
        TokenType::Less => Ok(TokenLiteral::Bool(ad_bn < bn_ad)),
        TokenType::LessEqual => Ok(TokenLiteral::Bool(!(bn_ad < ad_bn))),
        TokenType::EqualEqual => Ok(TokenLiteral::Bool(ad_bn == bn_ad)),
        TokenType::BangEqual => Ok(TokenLiteral::Bool(ad_bn != bn_ad)),
        _ => Err(RuntimeError { token: op.duplicate(), kind: RuntimeErrorKind::InvalidNumberOperator }),
    }
}

/// Lexicographic comparison of two strings by character code.
pub fn compare_strings(a: &String, b: &String) -> (r: i8)
    ensures
        r as int == (if lex_cmp(a@, b@) < 0 { -1int } else if lex_cmp(a@, b@) > 0 { 1int } else { 0int }),
        lex_cmp(a@, b@) == 0 <==> a@ == b@,
{
    let sa = a.as_str();
    let sb = b.as_str();
    let la = sa.unicode_len();
    let lb = sb.unicode_len();
    let mut i: usize = 0;
    while i < la && i < lb
        invariant
            la == a@.len(),
            lb == b@.len(),
            sa@ == a@,
            sb@ == b@,
            i <= la,
            i <= lb,
            lex_cmp_from(a@, b@, 0) == lex_cmp_from(a@, b@, i as int),
            a@.subrange(0, i as int) == b@.subrange(0, i as int),
        decreases la - i,
    {
        let ca = sa.get_char(i);
        let cb = sb.get_char(i);
        if (ca as u32) < (cb as u32) {
            return -1;
        }
        if (ca as u32) > (cb as u32) {
            return 1;
        }
        proof {
            assert(ca == cb);
            assert(a@.subrange(0, i + 1) =~= a@.subrange(0, i as int).push(ca));
            assert(b@.subrange(0, i + 1) =~= b@.subrange(0, i as int).push(cb));
        }
        i = i + 1;
    }
    proof {
        if la == lb {
            assert(a@ =~= a@.subrange(0, i as int));
            assert(b@ =~= b@.subrange(0, i as int));
        } else {
            assert(a@.len() != b@.len());
        }
    }
    if i < la {
        1
    } else if i < lb {
        -1
    } else {
        0
    }
}

fn string_binary_exec(op: &Token, a: String, b: &String) -> (r: Result<TokenLiteral, RuntimeError>)
    ensures
        same_outcome(r, string_binary(*op, a@, b@)),
{
    match op.token_type {
        TokenType::Plus => Ok(TokenLiteral::Str(a.concat(b.as_str()))),
        TokenType::Greater => Ok(TokenLiteral::Bool(compare_strings(&a, b) > 0)),
        TokenType::GreaterEqual => Ok(TokenLiteral::Bool(compare_strings(&a, b) >= 0)),
        TokenType::Less => Ok(TokenLiteral::Bool(compare_strings(&a, b) < 0)),
        TokenType::LessEqual => Ok(TokenLiteral::Bool(compare_strings(&a, b) <= 0)),
        TokenType::EqualEqual => Ok(TokenLiteral::Bool(a == *b)),
        TokenType::BangEqual => Ok(TokenLiteral::Bool(a != *b)),
        _ => Err(RuntimeError { token: op.duplicate(), kind: RuntimeErrorKind::InvalidStringOperator }),
    }
}

/// `q` and the pair `(n, d)` denote the same fraction.
pub open spec fn same_fraction(q: Number, v: (int, int)) -> bool {
    v.1 != 0 && q.den > 0 && q.num * v.1 == v.0 * q.den
}

/// A tree built only from number literals, grouping and `+ - * /`.
pub open spec fn arithmetic_tree(e: Expr) -> bool
    decreases e,
{
    match e {
        Expr::Literal(l) => l.value is Number,
        Expr::Grouping(g) => arithmetic_tree(*g.expression),
        Expr::Binary(b) => {
            &&& (b.operator.token_type == TokenType::Plus || b.operator.token_type == TokenType::Minus
                || b.operator.token_type == TokenType::Star || b.operator.token_type == TokenType::Slash)
            &&& arithmetic_tree(*b.left)
            &&& arithmetic_tree(*b.right)
        },
        Expr::Unary(_) => false,
    }
}

/// The exact rational value of an arithmetic tree as a pair `(n, d)`
/// standing for `n / d`, each operator applied to its two operands by the
/// usual rules on fractions; `d` is zero after a division by zero.
pub open spec fn exact_value(e: Expr) -> (int, int)
    decreases e,
{
    match e {
        Expr::Literal(l) => match l.value {
            TokenLiteral::Number(n) => (n.num as int, n.den as int),
            _ => (0, 1),
        },
        Expr::Grouping(g) => exact_value(*g.expression),
        Expr::Binary(b) => {
            let (a, c) = exact_value(*b.left);
            let (x, y) = exact_value(*b.right);
            match b.operator.token_type {
                TokenType::Plus => (a * y + x * c, c * y),
                TokenType::Minus => (a * y - x * c, c * y),
                TokenType::Star => (a * x, c * y),
                _ => (a * y, c * x),
            }
        },
        Expr::Unary(_) => (0, 1),
    }
}

proof fn lemma_cross(p: int, pd: int, a: int, c: int, m: int, k: int)
    requires
        p * c == a * pd,
    ensures
        (p * m) * (c * k) == (a * k) * (pd * m),
{
    assert((p * m) * (c * k) == (p * c) * (m * k)) by (nonlinear_arith);
    assert((a * pd) * (m * k) == (a * k) * (pd * m)) by (nonlinear_arith);
}

proof fn lemma_comm4(p: int, q: int, r: int, s: int, t: int, u: int)
    ensures
        (p * q) * (r * s) == (p * q) * (s * r),
        (t * s) * (u * q) == (t * s) * (q * u),
{
    assert(r * s == s * r) by (nonlinear_arith);
    assert(u * q == q * u) by (nonlinear_arith);
}

proof fn lemma_distrib(u: int, v: int, w: int)
    ensures
        (u + v) * w == u * w + v * w,
        (u - v) * w == u * w - v * w,
{
    assert((u + v) * w == u * w + v * w) by (nonlinear_arith);
    assert((u - v) * w == u * w - v * w) by (nonlinear_arith);
}

proof fn lemma_product(ln: int, ld: int, a: int, c: int, rn: int, rd: int, x: int, y: int)
    requires
        ln * c == a * ld,
        rn * y == x * rd,
    ensures
        (ln * rn) * (c * y) == (a * x) * (ld * rd),
{
    assert((ln * rn) * (c * y) == (ln * c) * (rn * y)) by (nonlinear_arith);
    assert((a * ld) * (x * rd) == (a * x) * (ld * rd)) by (nonlinear_arith);
}

proof fn lemma_quotient(ln: int, ld: int, a: int, c: int, rn: int, rd: int, x: int, y: int)
    requires
        ln * c == a * ld,
        rn * y == x * rd,
    ensures
        (ln * rd) * (c * x) == (a * y) * (ld * rn),
{
    assert((ln * rd) * (c * x) == (ln * c) * (x * rd)) by (nonlinear_arith);
    assert((a * ld) * (rn * y) == (a * y) * (ld * rn)) by (nonlinear_arith);
}

proof fn lemma_sum(qn: int, qd: int, u: int, v: int, r1: int, r2: int, m: int)
    requires
        qn == u + v,
        u * m == r1 * qd,
        v * m == r2 * qd,
    ensures
        qn * m == (r1 + r2) * qd,
{
    assert(qn * m == (r1 + r2) * qd) by (nonlinear_arith)
        requires qn == u + v, u * m == r1 * qd, v * m == r2 * qd;
}

proof fn lemma_negate(p: int, q: int, r: int, s: int)
    requires
        p * q == r * s,
    ensures
        (-p) * q == r * (-s),
{
    assert((-p) * q == -(p * q)) by (nonlinear_arith);
    assert(r * (-s) == -(r * s)) by (nonlinear_arith);
}

/// Evaluating an arithmetic tree agrees with exact arithmetic on fractions:
/// whenever evaluation succeeds, its result is a number equal to the exact
/// value of the tree, which has a nonzero denominator.
pub proof fn lemma_arithmetic_is_exact(e: Expr)
    requires
        expr_wf(e),
        arithmetic_tree(e),
        eval(e) is Ok,
    ensures
        eval(e)->Ok_0 is Number,
        same_fraction(eval(e)->Ok_0->Number_0, exact_value(e)),
    decreases e,
{
    match e {
        Expr::Literal(l) => {
            let q = l.value->Number_0;
            assert(eval(e) == Ok::<Value, RuntimeError>(Value::Number(q)));
            assert(l.value.wf());
            assert(q.den > 0);
            assert(exact_value(e) == (q.num as int, q.den as int));
            assert(eval(e)->Ok_0->Number_0 == q);
        },
        Expr::Grouping(g) => {
            lemma_arithmetic_is_exact(*g.expression);
        },
        Expr::Binary(b) => {
            lemma_arithmetic_is_exact(*b.right);
            lemma_arithmetic_is_exact(*b.left);
            let l = eval(*b.left)->Ok_0->Number_0;
            let r = eval(*b.right)->Ok_0->Number_0;
            let (a, c) = exact_value(*b.left);
            let (x, y) = exact_value(*b.right);
            let (ln, ld, rn, rd) = (l.num as int, l.den as int, r.num as int, r.den as int);
            assert(c * y != 0) by (nonlinear_arith)
                requires c != 0, y != 0;
            lemma_cross(ln, ld, a, c, rd, y);
            lemma_cross(rn, rd, x, y, ld, c);
            lemma_comm4(rn, ld, y, c, x, rd);
            lemma_distrib(ln * rd, rn * ld, c * y);
            lemma_distrib(a * y, x * c, ld * rd);
            assert(ld * rd > 0) by (nonlinear_arith)
                requires ld > 0, rd > 0;
            let q = eval(e)->Ok_0->Number_0;
            assert(eval(e) == number_binary(b.operator, l, r));
            assert(ln * c == a * ld);
            assert(rn * y == x * rd);
            match b.operator.token_type {
                TokenType::Plus => {
                    let (n0, d0) = (ln * rd + rn * ld, ld * rd);
                    lemma_sum(n0, d0, ln * rd, rn * ld, a * y, x * c, c * y);
                    lemma_lowest_terms_keep_value(n0, d0, a * y + x * c, c * y);
                },
                TokenType::Minus => {
                    let (n0, d0) = (ln * rd - rn * ld, ld * rd);
                    assert((-(rn * ld)) * (c * y) == (-(x * c)) * (ld * rd)) by (nonlinear_arith)
                        requires (rn * ld) * (c * y) == (x * c) * (ld * rd);
                    lemma_sum(n0, d0, ln * rd, -(rn * ld), a * y, -(x * c), c * y);
                    lemma_lowest_terms_keep_value(n0, d0, a * y - x * c, c * y);
                },
                TokenType::Star => {
                    lemma_product(ln, ld, a, c, rn, rd, x, y);
                    lemma_lowest_terms_keep_value(ln * rn, ld * rd, a * x, c * y);
                },
                _ => {
                    assert(rn != 0);
                    assert(x != 0) by (nonlinear_arith)
                        requires rn * y == x * rd, rn != 0, y != 0, rd > 0;
                    assert(c * x != 0) by (nonlinear_arith)
                        requires c != 0, x != 0;
                    lemma_quotient(ln, ld, a, c, rn, rd, x, y);
                    lemma_negate(ln * rd, c * x, a * y, ld * rn);
                    assert(exact_value(e) == (a * y, c * x));
                    if rn > 0 {
                        assert(ld * rn > 0) by (nonlinear_arith)
                            requires ld > 0, rn > 0;
                        lemma_lowest_terms_keep_value(ln * rd, ld * rn, a * y, c * x);
                    } else {
                        assert(ld * rn < 0) by (nonlinear_arith)
                            requires ld > 0, rn < 0;
                        lemma_lowest_terms_keep_value(-(ln * rd), -(ld * rn), a * y, c * x);
                    }
                },
            }
        },
        Expr::Unary(_) => {},
    }
}

impl Interpreter {
    /// Truthiness of a value.
    pub fn is_truthy(&self, literal: &TokenLiteral) -> (r: bool)
        ensures
            r == truthy(literal@),
    {
        match literal {
            TokenLiteral::Nil => false,
            TokenLiteral::Bool(b) => *b,
            _ => true,
        }
    }

    /// Combines two evaluated operands under a binary operator.
    pub fn binary(&self, op: &Token, left: TokenLiteral, right: TokenLiteral) -> (r: Result<TokenLiteral, RuntimeError>)
        requires
            left.wf(),
            right.wf(),
        ensures
            same_outcome(r, binary_value(*op, left@, right@)),
    {
        match (left, right) {
            (TokenLiteral::Number(a), TokenLiteral::Number(b)) => number_binary_exec(op, a, b),
            (TokenLiteral::Str(a), TokenLiteral::Str(b)) => string_binary_exec(op, a, &b),
            (TokenLiteral::Bool(a), TokenLiteral::Bool(b)) => match op.token_type {
                TokenType::EqualEqual => Ok(TokenLiteral::Bool(a == b)),
                TokenType::BangEqual => Ok(TokenLiteral::Bool(a != b)),
                _ => Err(RuntimeError { token: op.duplicate(), kind: RuntimeErrorKind::InvalidBooleanOperator }),
            },
            _ => Err(RuntimeError { token: op.duplicate(), kind: RuntimeErrorKind::InvalidExpression }),
        }
    }

    /// Applies a unary operator to an evaluated operand.
    pub fn unary(&self, op: &Token, right: TokenLiteral) -> (r: Result<TokenLiteral, RuntimeError>)
        requires
            right.wf(),
        ensures
            same_outcome(r, unary_value(*op, right@)),
    {
        match op.token_type {
            TokenType::Bang => Ok(TokenLiteral::Bool(!self.is_truthy(&right))),
            TokenType::Minus => match right {
                TokenLiteral::Number(n) => Ok(TokenLiteral::Number(Number { num: -n.num, den: n.den })),
                _ => Err(RuntimeError { token: op.duplicate(), kind: RuntimeErrorKind::OperandMustBeNumber }),
            },
            _ => Ok(TokenLiteral::Nil),
        }
    }

    /// Evaluates a tree and renders the outcome for display: the value's
    /// text, or the first runtime error.
    pub fn interpret(&self, expr: &Expr) -> (r: Result<String, RuntimeError>)
        requires
            expr_wf(*expr),
        ensures
            shown(r, eval(*expr)),
    {
        match self.evaluate(expr) {
            Ok(v) => Ok(AstPrinter.literal_text(&v)),
            Err(e) => Err(e),
        }
    }

    /// Evaluates a tree to one value, or to the first runtime error.
    pub fn evaluate(&self, expr: &Expr) -> (r: Result<TokenLiteral, RuntimeError>)
        requires
            expr_wf(*expr),
        ensures
            same_outcome(r, eval(*expr)),
        decreases *expr,
    {
        match expr {
            Expr::Literal(l) => Ok(l.value.duplicate()),
            Expr::Grouping(g) => self.evaluate(&g.expression),
            Expr::Unary(u) => {
                let right = self.evaluate(&u.right)?;
                self.unary(&u.operator, right)
            },
            Expr::Binary(b) => {
                let right = self.evaluate(&b.right)?;
                let left = self.evaluate(&b.left)?;
                self.binary(&b.operator, left, right)
            },
        }
    }
}

} // verus!
