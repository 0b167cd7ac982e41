//! Expression trees and their lowering to register-machine instructions.
use vstd::prelude::*;

use vstd::arithmetic::power::pow;

use crate::instr::Instr;
use crate::vm::{in_i32, trunc_div, Machine, Status};

verus! {

/// An arithmetic expression over signed 16-bit literals.
#[derive(Debug, PartialEq, Eq)]
pub enum Expr {
    Int(i16),
    Negate(Box<Expr>),
    Add(Box<Expr>, Box<Expr>),
    Sub(Box<Expr>, Box<Expr>),
    Mul(Box<Expr>, Box<Expr>),
    Div(Box<Expr>, Box<Expr>),
    Pow(Box<Expr>, Box<Expr>),
}

/// A top-level statement: a named expression.
#[derive(Debug, PartialEq, Eq)]
pub enum Ast {
    Let { ident: String, value: Expr },
}

/// Whether lowering `e` with base register `r` names only registers up to
/// 255: each operator's right operand and each negation take the register
/// above their base.
pub open spec fn fits(e: Expr, r: int) -> bool
    decreases e,
{
    match e {
        Expr::Int(_) => 0 <= r <= 255,
        Expr::Negate(x) => r < 255 && fits(*x, r),
        Expr::Add(a, b) | Expr::Sub(a, b) | Expr::Mul(a, b) | Expr::Div(a, b) | Expr::Pow(a, b) =>
            r < 255 && fits(*a, r) && fits(*b, r + 1),
    }
}

/// The instructions that leave the value of `e` in register `r`: a literal
/// is loaded into `r`; a negation is lowered into `r`, then multiplied by
/// -1 loaded into `r + 1`; an operator lowers its left operand into `r`, its
/// right operand into `r + 1`, then combines them into `r`.
pub open spec fn lower(e: Expr, r: int) -> Seq<Instr>
    decreases e,
{
    let (lo, hi) = (r as u8, (r + 1) as u8);
    match e {
        Expr::Int(v) => seq![Instr::Load(lo, v)],
        Expr::Negate(x) => lower(*x, r) + seq![Instr::Load(hi, -1i16), Instr::Multiply(lo, hi, lo)],
        Expr::Add(a, b) => lower(*a, r) + lower(*b, r + 1) + seq![Instr::Add(lo, hi, lo)],
        Expr::Sub(a, b) => lower(*a, r) + lower(*b, r + 1) + seq![Instr::Subtract(lo, hi, lo)],
        Expr::Mul(a, b) => lower(*a, r) + lower(*b, r + 1) + seq![Instr::Multiply(lo, hi, lo)],
        Expr::Div(a, b) => lower(*a, r) + lower(*b, r + 1) + seq![Instr::Divide(lo, hi, lo)],
        Expr::Pow(a, b) => lower(*a, r) + lower(*b, r + 1) + seq![Instr::Power(lo, hi, lo)],
    }
}

/// The register an instruction writes, if any.
pub open spec fn written(i: Instr) -> Option<u8> {
    match i {
        Instr::Load(d, _) | Instr::Add(_, _, d) | Instr::Subtract(_, _, d)
        | Instr::Multiply(_, _, d) | Instr::Divide(_, _, d) | Instr::Power(_, _, d) => Some(d),
        _ => None,
    }
}

/// Lowering never writes a register below its base: the registers that
/// enclosing operators still hold stay intact.
pub proof fn lemma_lower_keeps_lower_registers(e: Expr, r: int)
    requires
        fits(e, r),
    ensures
        forall|k: int|
            0 <= k < lower(e, r).len() ==> match written(#[trigger] lower(e, r)[k]) {
                Some(d) => r <= d,
                None => true,
            },
    decreases e,
{
    match e {
        Expr::Int(_) => {},
        Expr::Negate(x) => {
            lemma_lower_keeps_lower_registers(*x, r);
            let s = lower(*x, r);
            assert forall|k: int| 0 <= k < lower(e, r).len() implies match written(
                #[trigger] lower(e, r)[k],
            ) {
                Some(d) => r <= d,
                None => true,
            } by {
                if k < s.len() {
                    assert(lower(e, r)[k] == s[k]);
                }
            }
        },
        Expr::Add(a, b) | Expr::Sub(a, b) | Expr::Mul(a, b) | Expr::Div(a, b) | Expr::Pow(a, b) => {
            lemma_lower_keeps_lower_registers(*a, r);
            lemma_lower_keeps_lower_registers(*b, r + 1);
            let (s, t) = (lower(*a, r), lower(*b, r + 1));
            assert forall|k: int| 0 <= k < lower(e, r).len() implies match written(
                #[trigger] lower(e, r)[k],
            ) {
                Some(d) => r <= d,
                None => true,
            } by {
                if k < s.len() {
                    assert(lower(e, r)[k] == s[k]);
                } else if k < s.len() + t.len() {
                    assert(lower(e, r)[k] == t[k - s.len()]);
                }
            }
        },
    }
}

/// `v`, when it fits in 32 bits.
pub open spec fn in_range(v: int) -> Option<int> {
    if in_i32(v) {
        Some(v)
    } else {
        None
    }
}

/// The value of an expression as the machine computes it; `None` when some
/// step of that would fault (a result that does not fit in 32 bits, a
/// division by zero, a negative exponent).
pub open spec fn eval(e: Expr) -> Option<int>
    decreases e,
{
    match e {
        Expr::Int(v) => Some(v as int),
        Expr::Negate(x) => match eval(*x) {
            Some(a) => in_range(a * -1),
            None => None,
        },
        Expr::Add(a, b) => match (eval(*a), eval(*b)) {
            (Some(x), Some(y)) => in_range(x + y),
            _ => None,
        },
        Expr::Sub(a, b) => match (eval(*a), eval(*b)) {
            (Some(x), Some(y)) => in_range(x - y),
            _ => None,
        },
        Expr::Mul(a, b) => match (eval(*a), eval(*b)) {
            (Some(x), Some(y)) => in_range(x * y),
            _ => None,
        },
        Expr::Div(a, b) => match (eval(*a), eval(*b)) {
            (Some(x), Some(y)) => if y == 0 {
                None
            } else {
                in_range(trunc_div(x, y))
            },
            _ => None,
        },
        Expr::Pow(a, b) => match (eval(*a), eval(*b)) {
            (Some(x), Some(y)) => if y < 0 {
                None
            } else {
                in_range(pow(x, y as nat))
            },
            _ => None,
        },
    }
}

/// Executes straight-line `code` in order, stopping at the first
/// instruction that does not end `Running`.
pub open spec fn run_code(m: Machine, code: Seq<Instr>) -> (Machine, Status)
    decreases code.len(),
{
    if code.len() == 0 {
        (m, Status::Running)
    } else {
        let (m1, s) = m.execute(code[0], m.pc);
        if s == Status::Running {
            run_code(m1, code.drop_first())
        } else {
            (m1, s)
        }
    }
}

proof fn lemma_run_code_append(m: Machine, a: Seq<Instr>, b: Seq<Instr>)
    ensures
        run_code(m, a + b) == if run_code(m, a).1 == Status::Running {
            run_code(run_code(m, a).0, b)
        } else {
            run_code(m, a)
        },
    decreases a.len(),
{
    if a.len() > 0 {
        assert((a + b).drop_first() =~= a.drop_first() + b);
        let (m1, s) = m.execute(a[0], m.pc);
        if s == Status::Running {
            lemma_run_code_append(m1, a.drop_first(), b);
        }
    } else {
        assert(a + b =~= b);
    }
}

proof fn lemma_fits_bounds(e: Expr, r: int)
    requires
        fits(e, r),
    ensures
        0 <= r <= 255,
    decreases e,
{
    match e {
        Expr::Int(_) => {},
        Expr::Negate(x) => lemma_fits_bounds(*x, r),
        Expr::Add(a, _) | Expr::Sub(a, _) | Expr::Mul(a, _) | Expr::Div(a, _) | Expr::Pow(a, _) =>
            lemma_fits_bounds(*a, r),
    }
}

/// Two registers hold the same values at every index below `r`.
pub open spec fn same_below(x: Seq<i32>, y: Seq<i32>, r: int) -> bool {
    forall|k: int| 0 <= k < r ==> #[trigger] x[k] == y[k]
}

/// Executing the lowered code of `e` from `m` ends `Running` with the value
/// of `e` in register `r`, every register below `r`, the flag, the program
/// and `pc` as they were.
pub open spec fn computes(e: Expr, r: int, m: Machine) -> bool {
    let (m2, s) = run_code(m, lower(e, r));
    &&& s == Status::Running
    &&& m2.registers.len() == 256
    &&& m2.registers[r] as int == eval(e)->0
    &&& same_below(m2.registers, m.registers, r)
    &&& m2.cmp == m.cmp
    &&& m2.program == m.program
    &&& m2.pc == m.pc
}

proof fn lemma_single(m: Machine, op: Instr)
    ensures
        run_code(m, seq![op]) == m.execute(op, m.pc),
{
    assert(seq![op].drop_first() =~= Seq::<Instr>::empty());
    reveal_with_fuel(run_code, 2);
}

/// Running the code of two operands, lowered into `r` and `r + 1`, then
/// `op`, is running `op` on a machine that holds their values there.
proof fn lemma_operands(a: Expr, b: Expr, r: int, m: Machine, op: Instr) -> (m2: Machine)
    requires
        0 <= r < 255,
        m.registers.len() == 256,
        computes(a, r, m),
        computes(b, r + 1, run_code(m, lower(a, r)).0),
    ensures
        run_code(m, lower(a, r) + lower(b, r + 1) + seq![op]) == m2.execute(op, m2.pc),
        m2.registers.len() == 256,
        m2.registers[r] as int == eval(a)->0,
        m2.registers[r + 1] as int == eval(b)->0,
        same_below(m2.registers, m.registers, r),
        m2.cmp == m.cmp,
        m2.program == m.program,
        m2.pc == m.pc,
{
    let m1 = run_code(m, lower(a, r)).0;
    let m2 = run_code(m1, lower(b, r + 1)).0;
    assert(lower(a, r) + lower(b, r + 1) + seq![op] =~= lower(a, r) + (lower(b, r + 1) + seq![op]));
    lemma_run_code_append(m, lower(a, r), lower(b, r + 1) + seq![op]);
    lemma_run_code_append(m1, lower(b, r + 1), seq![op]);
    lemma_single(m2, op);
    assert(m2.registers[r] == m1.registers[r]);
    m2
}

/// Executing the lowered code of an expression whose evaluation does not
/// fault leaves its value in the base register `r` and keeps every register
/// below `r`, the flag and the program.
pub proof fn lemma_lowering_computes(e: Expr, r: int, m: Machine)
    requires
        fits(e, r),
        eval(e) is Some,
        m.registers.len() == 256,
    ensures
        computes(e, r, m),
    decreases e,
{
    lemma_fits_bounds(e, r);
    let (lo, hi) = (r as u8, (r + 1) as u8);
    match e {
        Expr::Int(v) => {
            lemma_single(m, Instr::Load(lo, v));
        },
        Expr::Negate(x) => {
            lemma_lowering_computes(*x, r, m);
            let m1 = run_code(m, lower(*x, r)).0;
            let (load, mul) = (Instr::Load(hi, -1i16), Instr::Multiply(lo, hi, lo));
            lemma_run_code_append(m, lower(*x, r), seq![load, mul]);
            let m2 = m1.execute(load, m1.pc).0;
            assert(seq![load, mul].drop_first() =~= seq![mul]);
            lemma_single(m2, mul);
            assert(m2.registers[r] == m1.registers[r]);
        },
        Expr::Add(a, b) => {
            lemma_lowering_computes(*a, r, m);
            lemma_lowering_computes(*b, r + 1, run_code(m, lower(*a, r)).0);
            lemma_operands(*a, *b, r, m, Instr::Add(lo, hi, lo));
        },
        Expr::Sub(a, b) => {
            lemma_lowering_computes(*a, r, m);
            lemma_lowering_computes(*b, r + 1, run_code(m, lower(*a, r)).0);
            lemma_operands(*a, *b, r, m, Instr::Subtract(lo, hi, lo));
        },
        Expr::Mul(a, b) => {
            lemma_lowering_computes(*a, r, m);
            lemma_lowering_computes(*b, r + 1, run_code(m, lower(*a, r)).0);
            lemma_operands(*a, *b, r, m, Instr::Multiply(lo, hi, lo));
        },
        Expr::Div(a, b) => {
            lemma_lowering_computes(*a, r, m);
            lemma_lowering_computes(*b, r + 1, run_code(m, lower(*a, r)).0);
            lemma_operands(*a, *b, r, m, Instr::Divide(lo, hi, lo));
        },
        Expr::Pow(a, b) => {
            lemma_lowering_computes(*a, r, m);
            lemma_lowering_computes(*b, r + 1, run_code(m, lower(*a, r)).0);
            lemma_operands(*a, *b, r, m, Instr::Power(lo, hi, lo));
        },
    }
}

impl Expr {
    /// Whether lowering with base register `next_register` stays within the
    /// 256 registers that an operand byte can name.
    pub fn fits_registers(&self, next_register: u8) -> (r: bool)
        ensures
            r == fits(*self, next_register as int),
        decreases self,
    {
        match self {
            Expr::Int(_) => true,
            Expr::Negate(x) => next_register < 255 && x.fits_registers(next_register),
            Expr::Add(a, b) | Expr::Sub(a, b) | Expr::Mul(a, b) | Expr::Div(a, b) | Expr::Pow(
                a,
                b,
            ) => next_register < 255 && a.fits_registers(next_register) && b.fits_registers(
                next_register + 1,
            ),
        }
    }
}

/// Lowers `expr` to instructions that leave its value in `next_register`,
/// using the registers above it for intermediate values.
pub fn compile_expr(expr: Expr, next_register: u8) -> (r: Vec<Instr>)
    requires
        fits(expr, next_register as int),
    ensures
        r@ == lower(expr, next_register as int),
    decreases expr,
{
    let lo = next_register;
    let (a, b, op) = match expr {
        Expr::Int(x) => {
            return vec![Instr::Load(lo, x)];
        },
        Expr::Negate(x) => {
            let mut out = compile_expr(*x, lo);
            out.push(Instr::Load(lo + 1, -1));
            out.push(Instr::Multiply(lo, lo + 1, lo));
            return out;
        },
        Expr::Add(a, b) => (a, b, Instr::Add(lo, lo + 1, lo)),
        Expr::Sub(a, b) => (a, b, Instr::Subtract(lo, lo + 1, lo)),
        Expr::Mul(a, b) => (a, b, Instr::Multiply(lo, lo + 1, lo)),
        Expr::Div(a, b) => (a, b, Instr::Divide(lo, lo + 1, lo)),
        Expr::Pow(a, b) => (a, b, Instr::Power(lo, lo + 1, lo)),
    };
    let mut out = compile_expr(*a, lo);
    let mut rhs = compile_expr(*b, lo + 1);
    out.append(&mut rhs);
    out.push(op);
    out
}

} // verus!
