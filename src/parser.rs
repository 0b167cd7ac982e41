//! The expression language: infix arithmetic over decimal literals with the
//! usual precedence (`+ -` below `* /` below right-associative `^` below
//! unary `-`), parentheses, and `ident = expr` declarations. Whitespace may
//! stand between any two tokens.
use vstd::prelude::*;
use vstd::string::StringSliceAdditionalSpecFns;

use crate::compiler::{Ast, Expr};
use crate::scan::{digits_end, digits_value, is_digit, scan_number, skip_spaces, spaces_end};

verus! {

/// Parsing failed at byte offset `offset`.
#[derive(Clone, Copy, Debug, PartialEq, Eq, Structural)]
pub struct ParseError {
    pub offset: usize,
}

/// What a parse from some offset gives: the expression with the offset past
/// it, or the offset at which it failed.
pub type Parsed = Result<(Expr, int), int>;

/// The expression that the operator byte `op` makes of `a` and `b`.
pub open spec fn binary(op: u8, a: Expr, b: Expr) -> Expr {
    if op == ('+' as u8) {
        Expr::Add(Box::new(a), Box::new(b))
    } else if op == ('-' as u8) {
        Expr::Sub(Box::new(a), Box::new(b))
    } else if op == ('*' as u8) {
        Expr::Mul(Box::new(a), Box::new(b))
    } else if op == ('/' as u8) {
        Expr::Div(Box::new(a), Box::new(b))
    } else {
        Expr::Pow(Box::new(a), Box::new(b))
    }
}

/// A literal or a parenthesized expression at `i`.
pub open spec fn atom(s: Seq<u8>, i: int) -> Parsed
    decreases s.len() - i, 0int,
{
    let j = spaces_end(s, i);
    if !(0 <= i <= j < s.len()) {
        Err(j)
    } else if s[j] == ('(' as u8) {
        match sum(s, j + 1) {
            Ok((e, k)) => {
                let m = spaces_end(s, k);
                if 0 <= m < s.len() && s[m] == (')' as u8) {
                    Ok((e, m + 1))
                } else {
                    Err(m)
                }
            },
            Err(p) => Err(p),
        }
    } else if is_digit(s[j]) {
        let e = digits_end(s, j);
        if digits_value(s, j, e) <= i16::MAX {
            Ok((Expr::Int(digits_value(s, j, e) as i16), e))
        } else {
            Err(j)
        }
    } else {
        Err(j)
    }
}

/// Any number of unary minus signs, then an atom.
pub open spec fn unary(s: Seq<u8>, i: int) -> Parsed
    decreases s.len() - i, 1int,
{
    let j = spaces_end(s, i);
    if 0 <= i <= j < s.len() && s[j] == ('-' as u8) {
        match unary(s, j + 1) {
            Ok((e, k)) => Ok((Expr::Negate(Box::new(e)), k)),
            Err(p) => Err(p),
        }
    } else {
        atom(s, i)
    }
}

/// A unary expression, then optionally `^` and a power: `^` groups to the
/// right.
pub open spec fn power(s: Seq<u8>, i: int) -> Parsed
    decreases s.len() - i, 2int,
{
    match unary(s, i) {
        Ok((b, j)) => {
            let k = spaces_end(s, j);
            if 0 <= i < j <= k < s.len() && s[k] == ('^' as u8) {
                match power(s, k + 1) {
                    Ok((e, m)) => Ok((binary(s[k], b, e), m)),
                    Err(p) => Err(p),
                }
            } else {
                Ok((b, j))
            }
        },
        Err(p) => Err(p),
    }
}

/// After `acc`, ending at `i`: any number of `*` or `/` and a power, grouped
/// to the left.
pub open spec fn product_rest(s: Seq<u8>, acc: Expr, i: int) -> Parsed
    decreases s.len() - i, 3int,
{
    let k = spaces_end(s, i);
    if 0 <= i <= k < s.len() && (s[k] == ('*' as u8) || s[k] == ('/' as u8)) {
        match power(s, k + 1) {
            Ok((e, m)) => if k < m <= s.len() {
                product_rest(s, binary(s[k], acc, e), m)
            } else {
                Err(k)
            },
            Err(p) => Err(p),
        }
    } else {
        Ok((acc, i))
    }
}

/// A power, then any number of `*` or `/` and a power.
pub open spec fn product(s: Seq<u8>, i: int) -> Parsed
    decreases s.len() - i, 4int,
{
    match power(s, i) {
        Ok((e, j)) => if 0 <= i < j <= s.len() {
            product_rest(s, e, j)
        } else {
            Err(i)
        },
        Err(p) => Err(p),
    }
}

/// After `acc`, ending at `i`: any number of `+` or `-` and a product,
/// grouped to the left.
pub open spec fn sum_rest(s: Seq<u8>, acc: Expr, i: int) -> Parsed
    decreases s.len() - i, 5int,
{
    let k = spaces_end(s, i);
    if 0 <= i <= k < s.len() && (s[k] == ('+' as u8) || s[k] == ('-' as u8)) {
        match product(s, k + 1) {
            Ok((e, m)) => if k < m <= s.len() {
                sum_rest(s, binary(s[k], acc, e), m)
            } else {
                Err(k)
            },
            Err(p) => Err(p),
        }
    } else {
        Ok((acc, i))
    }
}

/// An expression at `i`.
pub open spec fn sum(s: Seq<u8>, i: int) -> Parsed
    decreases s.len() - i, 6int,
{
    match product(s, i) {
        Ok((e, j)) => if 0 <= i < j <= s.len() {
            sum_rest(s, e, j)
        } else {
            Err(i)
        },
        Err(p) => Err(p),
    }
}

/// The expression that the whole text `s` writes, or the offset at which
/// reading it failed.
pub open spec fn expression(s: Seq<u8>) -> Result<Expr, int> {
    match sum(s, 0) {
        Ok((e, j)) => if spaces_end(s, j) == s.len() {
            Ok(e)
        } else {
            Err(spaces_end(s, j))
        },
        Err(p) => Err(p),
    }
}

/// The expressions written from `i` on, after those in `done`.
pub open spec fn expressions_from(s: Seq<u8>, i: int, done: Seq<Expr>) -> Result<Seq<Expr>, int>
    decreases s.len() - i,
{
    let j = spaces_end(s, i);
    if !(0 <= i <= j <= s.len()) || j == s.len() {
        Ok(done)
    } else {
        match sum(s, j) {
            Ok((e, k)) => if j < k <= s.len() {
                expressions_from(s, k, done.push(e))
            } else {
                Err(j)
            },
            Err(p) => Err(p),
        }
    }
}

/// The whitespace-separated expressions that the text `s` writes.
pub open spec fn expressions(s: Seq<u8>) -> Result<Seq<Expr>, int> {
    expressions_from(s, 0, seq![])
}

/// A byte that can start an identifier: a letter or `_`.
pub open spec fn is_ident_start(b: u8) -> bool {
    ('a' as u8) <= b <= ('z' as u8) || ('A' as u8) <= b <= ('Z' as u8) || b == ('_' as u8)
}

/// A byte that can continue an identifier: a letter, a digit or `_`.
pub open spec fn is_ident_char(b: u8) -> bool {
    is_ident_start(b) || is_digit(b)
}

/// The end of the run of identifier characters that starts at `i`.
pub open spec fn ident_end(s: Seq<u8>, i: int) -> int
    decreases s.len() - i,
{
    if 0 <= i < s.len() && is_ident_char(s[i]) {
        ident_end(s, i + 1)
    } else {
        i
    }
}

/// The declaration `ident = expr` that the whole text `s` writes, as the
/// identifier's bytes and the expression.
pub open spec fn declaration(s: Seq<u8>) -> Result<(Seq<u8>, Expr), int> {
    let a = spaces_end(s, 0);
    let b = ident_end(s, a);
    let m = spaces_end(s, b);
    if !(0 <= a < s.len() && is_ident_start(s[a])) {
        Err(a)
    } else if !(0 <= m < s.len() && s[m] == ('=' as u8)) {
        Err(m)
    } else {
        match sum(s, m + 1) {
            Ok((e, j)) => if spaces_end(s, j) == s.len() {
                Ok((s.subrange(a, b), e))
            } else {
                Err(spaces_end(s, j))
            },
            Err(p) => Err(p),
        }
    }
}

spec fn lifted(r: Result<(Expr, usize), usize>) -> Parsed {
    match r {
        Ok((e, j)) => Ok((e, j as int)),
        Err(p) => Err(p as int),
    }
}

spec fn ends_within(r: Result<(Expr, usize), usize>, len: int) -> bool {
    r matches Ok((_, j)) ==> j <= len
}

fn combine(op: u8, a: Expr, b: Expr) -> (r: Expr)
    ensures
        r == binary(op, a, b),
{
    if op == ('+' as u8) {
        Expr::Add(Box::new(a), Box::new(b))
    } else if op == ('-' as u8) {
        Expr::Sub(Box::new(a), Box::new(b))
    } else if op == ('*' as u8) {
        Expr::Mul(Box::new(a), Box::new(b))
    } else if op == ('/' as u8) {
        Expr::Div(Box::new(a), Box::new(b))
    } else {
        Expr::Pow(Box::new(a), Box::new(b))
    }
}

fn parse_atom(s: &[u8], i: usize) -> (r: Result<(Expr, usize), usize>)
    requires
        i <= s.len(),
    ensures
        lifted(r) == atom(s@, i as int),
        ends_within(r, s.len() as int),
    decreases s@.len() - i, 0int,
{
    let j = skip_spaces(s, i);
    if j >= s.len() {
        Err(j)
    } else if s[j] == ('(' as u8) {
        match parse_sum(s, j + 1) {
            Ok((e, k)) => {
                let m = skip_spaces(s, k);
                if m < s.len() && s[m] == (')' as u8) {
                    Ok((e, m + 1))
                } else {
                    Err(m)
                }
            },
            Err(p) => Err(p),
        }
    } else if ('0' as u8) <= s[j] && s[j] <= ('9' as u8) {
        let (e, v) = scan_number(s, j);
        if v <= 32767 {
            Ok((Expr::Int(v as i16), e))
        } else {
            Err(j)
        }
    } else {
        Err(j)
    }
}

fn parse_unary(s: &[u8], i: usize) -> (r: Result<(Expr, usize), usize>)
    requires
        i <= s.len(),
    ensures
        lifted(r) == unary(s@, i as int),
        ends_within(r, s.len() as int),
    decreases s@.len() - i, 1int,
{
    let j = skip_spaces(s, i);
    if j < s.len() && s[j] == ('-' as u8) {
        match parse_unary(s, j + 1) {
            Ok((e, k)) => Ok((Expr::Negate(Box::new(e)), k)),
            Err(p) => Err(p),
        }
    } else {
        parse_atom(s, i)
    }
}

fn parse_power(s: &[u8], i: usize) -> (r: Result<(Expr, usize), usize>)
    requires
        i <= s.len(),
    ensures
        lifted(r) == power(s@, i as int),
        ends_within(r, s.len() as int),
    decreases s@.len() - i, 2int,
{
    match parse_unary(s, i) {
        Ok((b, j)) => {
            let k = skip_spaces(s, j);
            if i < j && k < s.len() && s[k] == ('^' as u8) {
                match parse_power(s, k + 1) {
                    Ok((e, m)) => Ok((combine(s[k], b, e), m)),
                    Err(p) => Err(p),
                }
            } else {
                Ok((b, j))
            }
        },
        Err(p) => Err(p),
    }
}

fn parse_product_rest(s: &[u8], acc: Expr, i: usize) -> (r: Result<(Expr, usize), usize>)
    requires
        i <= s.len(),
    ensures
        lifted(r) == product_rest(s@, acc, i as int),
        ends_within(r, s.len() as int),
    decreases s@.len() - i, 3int,
{
    let k = skip_spaces(s, i);
    if k < s.len() && (s[k] == ('*' as u8) || s[k] == ('/' as u8)) {
        match parse_power(s, k + 1) {
            Ok((e, m)) => {
                if k < m {
                    parse_product_rest(s, combine(s[k], acc, e), m)
                } else {
                    Err(k)
                }
            },
            Err(p) => Err(p),
        }
    } else {
        Ok((acc, i))
    }
}

fn parse_product(s: &[u8], i: usize) -> (r: Result<(Expr, usize), usize>)
    requires
        i <= s.len(),
    ensures
        lifted(r) == product(s@, i as int),
        ends_within(r, s.len() as int),
    decreases s@.len() - i, 4int,
{
    match parse_power(s, i) {
        Ok((e, j)) => {
            if i < j {
                parse_product_rest(s, e, j)
            } else {
                Err(i)
            }
        },
        Err(p) => Err(p),
    }
}

fn parse_sum_rest(s: &[u8], acc: Expr, i: usize) -> (r: Result<(Expr, usize), usize>)
    requires
        i <= s.len(),
    ensures
        lifted(r) == sum_rest(s@, acc, i as int),
        ends_within(r, s.len() as int),
    decreases s@.len() - i, 5int,
{
    let k = skip_spaces(s, i);
    if k < s.len() && (s[k] == ('+' as u8) || s[k] == ('-' as u8)) {
        match parse_product(s, k + 1) {
            Ok((e, m)) => {
                if k < m {
                    parse_sum_rest(s, combine(s[k], acc, e), m)
                } else {
                    Err(k)
                }
            },
            Err(p) => Err(p),
        }
    } else {
        Ok((acc, i))
    }
}

fn parse_sum(s: &[u8], i: usize) -> (r: Result<(Expr, usize), usize>)
    requires
        i <= s.len(),
    ensures
        lifted(r) == sum(s@, i as int),
        ends_within(r, s.len() as int),
    decreases s@.len() - i, 6int,
{
    match parse_product(s, i) {
        Ok((e, j)) => {
            if i < j {
                parse_sum_rest(s, e, j)
            } else {
                Err(i)
            }
        },
        Err(p) => Err(p),
    }
}

/// Parses the whole text `text` as one expression; fails with the offset at
/// which reading it failed.
pub fn expr(text: &str) -> (r: Result<Expr, ParseError>)
    ensures
        expression(text.spec_bytes()) == match r {
            Ok(e) => Ok(e),
            Err(err) => Err(err.offset as int),
        },
{
    let s = text.as_bytes();
    match parse_sum(s, 0) {
        Ok((e, j)) => {
            let k = skip_spaces(s, j);
            if k == s.len() {
                Ok(e)
            } else {
                Err(ParseError { offset: k })
            }
        },
        Err(p) => Err(ParseError { offset: p }),
    }
}

/// Parses the text `text` as a sequence of whitespace-separated
/// expressions.
pub fn multiple_exprs(text: &str) -> (r: Result<Vec<Expr>, ParseError>)
    ensures
        expressions(text.spec_bytes()) == match r {
            Ok(v) => Ok(v@),
            Err(err) => Err(err.offset as int),
        },
{
    let s = text.as_bytes();
    let mut out: Vec<Expr> = Vec::new();
    let mut i: usize = 0;
    loop
        invariant
            i <= s.len(),
            s@ == text.spec_bytes(),
            expressions(s@) == expressions_from(s@, i as int, out@),
        decreases s.len() - i,
    {
        let j = skip_spaces(s, i);
        if j == s.len() {
            return Ok(out);
        }
        match parse_sum(s, j) {
            Ok((e, k)) => {
                if j < k {
                    out.push(e);
                    i = k;
                } else {
                    return Err(ParseError { offset: j });
                }
            },
            Err(p) => {
                return Err(ParseError { offset: p });
            },
        }
    }
}

/// Appends `c` to `s`.
///
/// Relies on `String::push`, which appends the character to the end of the
/// string.
#[verifier::external_body]
fn push_char(s: &mut String, c: char)
    ensures
        final(s)@ == old(s)@.push(c),
{
    s.push(c)
}

/// The end of the run of identifier characters that starts at `i`.
fn skip_ident(s: &[u8], i: usize) -> (r: usize)
    requires
        i <= s.len(),
    ensures
        r == ident_end(s@, i as int),
        i <= r <= s.len(),
{
    let mut k = i;
    while k < s.len() && (('a' as u8) <= s[k] && s[k] <= ('z' as u8) || ('A' as u8) <= s[k] && s[k]
        <= ('Z' as u8) || s[k] == ('_' as u8) || ('0' as u8) <= s[k] && s[k] <= ('9' as u8))
        invariant
            i <= k <= s.len(),
            ident_end(s@, i as int) == ident_end(s@, k as int),
        decreases s.len() - k,
    {
        k = k + 1;
    }
    k
}

/// The characters of the ASCII bytes `s[a..b]`.
fn ascii_string(s: &[u8], a: usize, b: usize) -> (r: String)
    requires
        a <= b <= s.len(),
    ensures
        r@ == s@.subrange(a as int, b as int).map_values(|c: u8| c as char),
{
    let mut r = String::new();
    let mut k = a;
    while k < b
        invariant
            a <= k <= b <= s.len(),
            r@ == s@.subrange(a as int, k as int).map_values(|c: u8| c as char),
        decreases b - k,
    {
        push_char(&mut r, s[k] as char);
        assert(s@.subrange(a as int, k + 1).map_values(|c: u8| c as char) =~= s@.subrange(
            a as int,
            k as int,
        ).map_values(|c: u8| c as char).push(s@[k as int] as char));
        k = k + 1;
    }
    r
}

/// Parses the whole text `text` as a declaration `ident = expr`.
pub fn parse_decl(text: &str) -> (r: Result<Ast, ParseError>)
    ensures
        match (declaration(text.spec_bytes()), r) {
            (Ok((name, e)), Ok(Ast::Let { ident, value })) => ident@ == name.map_values(
                |c: u8| c as char,
            ) && value == e,
            (Err(p), Err(err)) => p == err.offset,
            _ => false,
        },
{
    let s = text.as_bytes();
    let a = skip_spaces(s, 0);
    if !(a < s.len() && (('a' as u8) <= s[a] && s[a] <= ('z' as u8) || ('A' as u8) <= s[a] && s[a]
        <= ('Z' as u8) || s[a] == ('_' as u8))) {
        return Err(ParseError { offset: a });
    }
    let b = skip_ident(s, a);
    let m = skip_spaces(s, b);
    if !(m < s.len() && s[m] == ('=' as u8)) {
        return Err(ParseError { offset: m });
    }
    match parse_sum(s, m + 1) {
        Ok((e, j)) => {
            let k = skip_spaces(s, j);
            if k == s.len() {
                Ok(Ast::Let { ident: ascii_string(s, a, b), value: e })
            } else {
                Err(ParseError { offset: k })
            }
        },
        Err(p) => Err(ParseError { offset: p }),
    }
}

} // verus!
