use vstd::prelude::*;
use crate::token::{Number, TokenLiteral, Value};
use crate::expr::{expr_wf, Expr};

verus! {

/// Prints expression trees in a canonical parenthesized form.
pub struct AstPrinter;

pub open spec fn char_from_digit(d: nat) -> char {
    if d == 0 { '0' } else if d == 1 { '1' } else if d == 2 { '2' } else if d == 3 { '3' }
    else if d == 4 { '4' } else if d == 5 { '5' } else if d == 6 { '6' } else if d == 7 { '7' }
    else if d == 8 { '8' } else { '9' }
}

/// Decimal digits of `v`, without leading zeros.
pub open spec fn nat_text(v: nat) -> Seq<char>
    decreases v,
{
    if v < 10 {
        seq![char_from_digit(v)]
    } else {
        nat_text(v / 10).push(char_from_digit(v % 10))
    }
}

/// Greatest common divisor, by Euclid's algorithm.
pub open spec fn gcd(a: nat, b: nat) -> nat
    decreases b,
{
    if b == 0 { a } else { gcd(b, a % b) }
}

/// The digits of `r / b` after the decimal point, by long division, when
/// at most `fuel` of them end it; `None` when more would be needed.
pub open spec fn fraction_digits(r: nat, b: nat, fuel: nat) -> Option<Seq<char>>
    decreases fuel,
{
    if r == 0 {
        Some(Seq::empty())
    } else if fuel == 0 || b == 0 {
        None
    } else {
        match fraction_digits((r * 10) % b, b, (fuel - 1) as nat) {
            Some(t) => Some(seq![char_from_digit((r * 10) / b)] + t),
            None => None,
        }
    }
}

/// The most fractional digits printed; every denominator below `2^63` whose
/// only prime factors are 2 and 5 needs fewer.
pub const MAX_FRACTION_DIGITS: u64 = 64;

/// Text of a magnitude `m / b` in lowest terms: a whole number, an exact
/// decimal when one exists within `MAX_FRACTION_DIGITS` digits, and `m/b`
/// otherwise.
pub open spec fn magnitude_text(m: nat, b: nat) -> Seq<char> {
    let g = gcd(m, b);
    let m2 = if g == 0 { m } else { m / g };
    let b2 = if g == 0 { b } else { b / g };
    if b2 == 1 {
        nat_text(m2)
    } else if b2 == 0 {
        nat_text(m2) + seq!['/'] + nat_text(b2)
    } else {
        match fraction_digits(m2 % b2, b2, MAX_FRACTION_DIGITS as nat) {
            Some(f) => nat_text(m2 / b2) + seq!['.'] + f,
            None => nat_text(m2) + seq!['/'] + nat_text(b2),
        }
    }
}

pub open spec fn abs_int(x: int) -> nat {
    if x < 0 { (-x) as nat } else { x as nat }
}

/// Text of a number: `123`, `45.67`, `-0.5`, or `1/3` when no finite
/// decimal denotes it.
pub open spec fn number_text(n: Number) -> Seq<char> {
    let t = magnitude_text(abs_int(n.num as int), n.den as nat);
    if n.num < 0 { seq!['-'] + t } else { t }
}

pub open spec fn value_text(v: Value) -> Seq<char> {
    match v {
        Value::Number(n) => number_text(n),
        Value::Str(s) => s,
        Value::Bool(b) => if b { seq!['t', 'r', 'u', 'e'] } else { seq!['f', 'a', 'l', 's', 'e'] },
        Value::Nil => seq!['n', 'i', 'l'],
    }
}

/// Each part preceded by one space.
pub open spec fn spaced(parts: Seq<Seq<char>>) -> Seq<char>
    decreases parts.len(),
{
    if parts.len() == 0 {
        Seq::empty()
    } else {
        spaced(parts.drop_last()) + seq![' '] + parts.last()
    }
}

/// `(name part1 part2 ...)`.
pub open spec fn paren_text(name: Seq<char>, parts: Seq<Seq<char>>) -> Seq<char> {
    seq!['('] + name + spaced(parts) + seq![')']
}

/// The canonical text of a tree.
pub open spec fn print_text(e: Expr) -> Seq<char>
    decreases e,
{
    match e {
        Expr::Binary(b) => paren_text(b.operator.lexeme@, seq![print_text(*b.left), print_text(*b.right)]),
        Expr::Grouping(g) => paren_text(seq!['g', 'r', 'o', 'u', 'p'], seq![print_text(*g.expression)]),
        Expr::Literal(l) => value_text(l.value@),
        Expr::Unary(u) => paren_text(u.operator.lexeme@, seq![print_text(*u.right)]),
    }
}

/// Relies on `String::push`: appends one character.
#[verifier::external_body]
pub(crate) fn push_char(s: &mut String, c: char)
    ensures
        final(s)@ == old(s)@.push(c),
{
    s.push(c)
}

fn digit_exec(d: u64) -> (c: char)
    requires
        d < 10,
    ensures
        c == char_from_digit(d as nat),
{
    if d == 0 { '0' } else if d == 1 { '1' } else if d == 2 { '2' } else if d == 3 { '3' }
    else if d == 4 { '4' } else if d == 5 { '5' } else if d == 6 { '6' } else if d == 7 { '7' }
    else if d == 8 { '8' } else { '9' }
}

/// Appends the decimal digits of `v`.
pub(crate) fn append_nat(s: &mut String, v: u64)
    ensures
        final(s)@ == old(s)@ + nat_text(v as nat),
    decreases v,
{
    if v >= 10 {
        append_nat(s, v / 10);
    }
    push_char(s, digit_exec(v % 10));
    proof {
        if v < 10 {
            assert(old(s)@.push(char_from_digit(v as nat)) =~= old(s)@ + nat_text(v as nat));
        } else {
            assert(old(s)@ + nat_text(v as nat / 10) + seq![char_from_digit(v as nat % 10)]
                =~= old(s)@ + nat_text(v as nat));
        }
    }
}

/// Appends a string character by character.
pub(crate) fn append_str(s: &mut String, t: &str)
    ensures
        final(s)@ == old(s)@ + t@,
{
    s.append(t);
}

fn gcd_exec(a: u64, b: u64) -> (r: u64)
    ensures
        r as nat == gcd(a as nat, b as nat),
{
    let mut x = a;
    let mut y = b;
    while y != 0
        invariant
            gcd(x as nat, y as nat) == gcd(a as nat, b as nat),
        decreases y,
    {
        let t = x % y;
        x = y;
        y = t;
    }
    x
}

/// Appends the text of a magnitude `m / b`.
fn append_magnitude(s: &mut String, m: u64, b: u64)
    requires
        b >= 1,
    ensures
        final(s)@ == old(s)@ + magnitude_text(m as nat, b as nat),
{
    let g = gcd_exec(m, b);
    let m2 = if g == 0 { m } else { m / g };
    let b2 = if g == 0 { b } else { b / g };
    if b2 == 1 {
        append_nat(s, m2);
        return;
    }
    if b2 == 0 {
        append_nat(s, m2);
        push_char(s, '/');
        append_nat(s, b2);
        proof {
            assert(s@ =~= old(s)@ + magnitude_text(m as nat, b as nat));
        }
        return;
    }
    let r0 = m2 % b2;
    let mut digits = String::new();
    let mut r: u64 = r0;
    let mut fuel: u64 = MAX_FRACTION_DIGITS;
    while r != 0 && fuel != 0
        invariant
            b2 > 1,
            r < b2,
            fraction_digits(r0 as nat, b2 as nat, MAX_FRACTION_DIGITS as nat) == match fraction_digits(r as nat, b2 as nat, fuel as nat) {
                Some(t) => Some(digits@ + t),
                None => None,
            },
        decreases fuel,
    {
        let wide: u128 = r as u128 * 10;
        proof {
            let w = wide as int;
            let q = w / (b2 as int);
            vstd::arithmetic::div_mod::lemma_fundamental_div_mod(w, b2 as int);
            assert(0 <= w % (b2 as int) < b2 as int);
            assert(q < 10) by (nonlinear_arith)
                requires
                    w == (b2 as int) * q + w % (b2 as int),
                    w % (b2 as int) >= 0,
                    w == (r as int) * 10,
                    r < b2,
                    b2 > 0,
            ;
        }
        let d = (wide / b2 as u128) as u64;
        let next = (wide % b2 as u128) as u64;
        push_char(&mut digits, digit_exec(d));
        proof {
            let ghost before = fraction_digits(r as nat, b2 as nat, fuel as nat);
            assert(before == match fraction_digits(next as nat, b2 as nat, (fuel - 1) as nat) {
                Some(t) => Some(seq![char_from_digit(d as nat)] + t),
                None => None,
            });
            match fraction_digits(next as nat, b2 as nat, (fuel - 1) as nat) {
                Some(t) => {
                    assert(digits@ + t =~= (digits@.drop_last() + (seq![char_from_digit(d as nat)] + t)));
                },
                None => {},
            }
        }
        r = next;
        fuel = fuel - 1;
    }
    if r == 0 {
        append_nat(s, m2 / b2);
        push_char(s, '.');
        append_str(s, digits.as_str());
        proof {
            assert(digits@ + Seq::<char>::empty() =~= digits@);
        }
    } else {
        append_nat(s, m2);
        push_char(s, '/');
        append_nat(s, b2);
    }
    proof {
        assert(s@ =~= old(s)@ + magnitude_text(m as nat, b as nat));
    }
}

/// Appends the text of a number.
fn append_number(s: &mut String, n: Number)
    requires
        n.wf(),
    ensures
        final(s)@ == old(s)@ + number_text(n),
{
    let ghost start = s@;
    let mag: u64 = if n.num < 0 { (-(n.num as i128)) as u64 } else { n.num as u64 };
    if n.num < 0 {
        push_char(s, '-');
    }
    append_magnitude(s, mag, n.den as u64);
    proof {
        assert(s@ =~= start + number_text(n));
    }
}

impl AstPrinter {
    /// The canonical text of a tree.
    pub fn print(&self, expr: &Expr) -> (r: String)
        requires
            expr_wf(*expr),
        ensures
            r@ == print_text(*expr),
        decreases *expr,
    {
        match expr {
            Expr::Binary(b) => {
                let parts = vec![self.print(&b.left), self.print(&b.right)];
                let r = self.parenthesize(b.operator.lexeme.as_str(), &parts);
                proof {
                    assert(parts@.map_values(|p: String| p@) =~= seq![print_text(*b.left), print_text(*b.right)]);
                }
                r
            },
            Expr::Grouping(g) => {
                let parts = vec![self.print(&g.expression)];
                let r = self.parenthesize("group", &parts);
                proof {
                    reveal_strlit("group");
                    assert(parts@.map_values(|p: String| p@) =~= seq![print_text(*g.expression)]);
                    assert("group"@ =~= seq!['g', 'r', 'o', 'u', 'p']);
                }
                r
            },
            Expr::Literal(l) => self.literal_text(&l.value),
            Expr::Unary(u) => {
                let parts = vec![self.print(&u.right)];
                let r = self.parenthesize(u.operator.lexeme.as_str(), &parts);
                proof {
                    assert(parts@.map_values(|p: String| p@) =~= seq![print_text(*u.right)]);
                }
                r
            },
        }
    }

    /// `(name part1 part2 ...)`.
    pub fn parenthesize(&self, name: &str, parts: &Vec<String>) -> (r: String)
        ensures
            r@ == paren_text(name@, parts@.map_values(|p: String| p@)),
    {
        let mut s = String::new();
        push_char(&mut s, '(');
        append_str(&mut s, name);
        let ghost head = s@;
        let mut i: usize = 0;
        while i < parts.len()
            invariant
                i <= parts@.len(),
                head == seq!['('] + name@,
                s@ == head + spaced(parts@.map_values(|p: String| p@).subrange(0, i as int)),
            decreases parts@.len() - i,
        {
            push_char(&mut s, ' ');
            append_str(&mut s, parts[i].as_str());
            proof {
                let ps = parts@.map_values(|p: String| p@);
                assert(ps.subrange(0, i + 1).drop_last() =~= ps.subrange(0, i as int));
                assert(s@ =~= head + spaced(ps.subrange(0, i + 1)));
            }
            i = i + 1;
        }
        push_char(&mut s, ')');
        proof {
            let ps = parts@.map_values(|p: String| p@);
            assert(ps.subrange(0, parts@.len() as int) =~= ps);
            assert(s@ =~= paren_text(name@, ps));
        }
        s
    }

    /// The text of a literal value.
    pub fn literal_text(&self, value: &TokenLiteral) -> (r: String)
        requires
            value.wf(),
        ensures
            r@ == value_text(value@),
    {
        match value {
            TokenLiteral::Str(s) => s.clone(),
            TokenLiteral::Number(n) => {
                let mut s = String::new();
                append_number(&mut s, *n);
                proof {
                    assert(s@ =~= value_text(value@));
                }
                s
            },
            TokenLiteral::Bool(b) => {
                let mut s = String::new();
                if *b {
                    append_str(&mut s, "true");
                    proof {
                        reveal_strlit("true");
                        assert(s@ =~= value_text(value@));
                    }
                } else {
                    append_str(&mut s, "false");
                    proof {
                        reveal_strlit("false");
                        assert(s@ =~= value_text(value@));
                    }
                }
                s
            },
            TokenLiteral::Nil => {
                let mut s = String::new();
                append_str(&mut s, "nil");
                proof {
                    reveal_strlit("nil");
                    assert(s@ =~= value_text(value@));
                }
                s
            },
        }
    }
}

} // verus!
