//! The execution engine: register file, program counter, comparison flag and
//! the fetch-decode-execute loop.
use vstd::arithmetic::power::pow;
use vstd::math::abs;
use vstd::prelude::*;

use crate::instr::{decode, decode_at, lemma_round_trip, value_from_bytes, value_of, Instr};

verus! {

/// Number of slots in a freshly built register file.
pub const REGISTER_COUNT: usize = 256;

/// Why execution stopped abnormally. A faulting step leaves the machine as
/// it was before the step.
#[derive(Clone, Copy, Debug, PartialEq, Eq, Structural)]
pub enum Fault {
    /// The opcode byte at `pc` encodes no operation.
    IllegalOpcode,
    /// The program ends in the middle of an instruction's operands.
    Truncated,
    /// An operand names a register past the end of the register file.
    BadRegister,
    /// `Divide` by a register holding zero.
    DivideByZero,
    /// `Power` with a negative exponent.
    NegativeExponent,
    /// The result of an arithmetic instruction does not fit in 32 bits.
    Overflow,
    /// A jump target is negative or past the addressable range.
    BadJump,
}

/// What one step (or a run of steps) ended in.
#[derive(Clone, Copy, Debug, PartialEq, Eq, Structural)]
pub enum Status {
    /// The machine can go on.
    Running,
    /// `Halt` executed, or `pc` is at or past the end of the program.
    Halted,
    /// A fatal condition; see [`Fault`].
    Faulted(Fault),
}

/// The abstract state of a machine.
pub struct Machine {
    pub registers: Seq<i32>,
    pub pc: int,
    pub program: Seq<u8>,
    pub remainder: i32,
    pub cmp: bool,
}

/// Quotient of `x` by `d`, rounded toward zero.
pub open spec fn trunc_div(x: int, d: int) -> int {
    let q = (abs(x) / abs(d)) as int;
    if (x < 0) == (d < 0) {
        q
    } else {
        -q
    }
}

/// Remainder of `x` by `d` when the quotient is rounded toward zero: it has
/// the sign of `x`.
pub open spec fn trunc_rem(x: int, d: int) -> int {
    if x < 0 {
        -((abs(x) % abs(d)) as int)
    } else {
        (abs(x) % abs(d)) as int
    }
}

/// `v` fits in a register.
pub open spec fn in_i32(v: int) -> bool {
    i32::MIN <= v <= i32::MAX
}

impl Machine {
    /// A zeroed machine, with `REGISTER_COUNT` registers, about to run
    /// `program` from its start.
    pub open spec fn fresh(program: Seq<u8>) -> Machine {
        Machine {
            registers: Seq::new(REGISTER_COUNT as nat, |i: int| 0i32),
            pc: 0,
            program,
            remainder: 0,
            cmp: false,
        }
    }

    /// Register `r` exists.
    pub open spec fn has_reg(self, r: u8) -> bool {
        (r as int) < self.registers.len()
    }

    /// The value held in register `r`.
    pub open spec fn reg(self, r: u8) -> int {
        self.registers[r as int] as int
    }

    /// Every register operand of `i` names a slot of the register file.
    pub open spec fn has_regs_of(self, i: Instr) -> bool {
        match i {
            Instr::Load(r, _) | Instr::Jump(r) | Instr::JumpForward(r) | Instr::JumpBack(r)
            | Instr::JumpIf(r) => self.has_reg(r),
            Instr::Add(a, b, d) | Instr::Subtract(a, b, d) | Instr::Multiply(a, b, d)
            | Instr::Divide(a, b, d) | Instr::Power(a, b, d) => self.has_reg(a) && self.has_reg(b)
                && self.has_reg(d),
            Instr::Equal(a, b) | Instr::GreaterThan(a, b) | Instr::GreaterThanEqual(a, b) =>
                self.has_reg(a) && self.has_reg(b),
            Instr::Halt | Instr::Not | Instr::Illegal => true,
        }
    }

    /// Writes `v` into register `d` and moves on to `next`; an overflow
    /// fault when `v` does not fit in 32 bits.
    pub open spec fn store(self, d: u8, v: int, next: int) -> (Machine, Status) {
        if in_i32(v) {
            (
                Machine { registers: self.registers.update(d as int, v as i32), pc: next, ..self },
                Status::Running,
            )
        } else {
            (self, Status::Faulted(Fault::Overflow))
        }
    }

    /// Moves `pc` to `target`, when it is a valid offset.
    pub open spec fn jump_to(self, target: int) -> (Machine, Status) {
        if 0 <= target <= usize::MAX {
            (Machine { pc: target, ..self }, Status::Running)
        } else {
            (self, Status::Faulted(Fault::BadJump))
        }
    }

    /// Sets the comparison flag and moves on to `next`.
    pub open spec fn compare(self, flag: bool, next: int) -> (Machine, Status) {
        (Machine { cmp: flag, pc: next, ..self }, Status::Running)
    }

    /// Executes `i`, which starts at `pc` and ends just before `next`.
    pub open spec fn execute(self, i: Instr, next: int) -> (Machine, Status) {
        if !self.has_regs_of(i) {
            (self, Status::Faulted(Fault::BadRegister))
        } else {
            match i {
                Instr::Halt => (Machine { pc: next, ..self }, Status::Halted),
                Instr::Load(r, v) => self.store(r, v as int, next),
                Instr::Add(a, b, d) => self.store(d, self.reg(a) + self.reg(b), next),
                Instr::Subtract(a, b, d) => self.store(d, self.reg(a) - self.reg(b), next),
                Instr::Multiply(a, b, d) => self.store(d, self.reg(a) * self.reg(b), next),
                Instr::Divide(a, b, d) => {
                    let (x, y) = (self.reg(a), self.reg(b));
                    if y == 0 {
                        (self, Status::Faulted(Fault::DivideByZero))
                    } else if !in_i32(trunc_div(x, y)) {
                        (self, Status::Faulted(Fault::Overflow))
                    } else {
                        (
                            Machine {
                                registers: self.registers.update(d as int, trunc_div(x, y) as i32),
                                remainder: trunc_rem(x, y) as i32,
                                pc: next,
                                ..self
                            },
                            Status::Running,
                        )
                    }
                },
                Instr::Power(a, b, d) => {
                    if self.reg(b) < 0 {
                        (self, Status::Faulted(Fault::NegativeExponent))
                    } else {
                        self.store(d, pow(self.reg(a), self.reg(b) as nat), next)
                    }
                },
                Instr::Jump(r) => self.jump_to(self.reg(r)),
                Instr::JumpForward(r) => self.jump_to(self.pc + self.reg(r)),
                Instr::JumpBack(r) => self.jump_to(self.pc - self.reg(r)),
                Instr::JumpIf(r) => if self.cmp {
                    self.jump_to(self.reg(r))
                } else {
                    (Machine { pc: next, ..self }, Status::Running)
                },
                Instr::Equal(a, b) => self.compare(self.reg(a) == self.reg(b), next),
                Instr::Not => self.compare(!self.cmp, next),
                Instr::GreaterThan(a, b) => self.compare(self.reg(a) > self.reg(b), next),
                Instr::GreaterThanEqual(a, b) => self.compare(self.reg(a) >= self.reg(b), next),
                Instr::Illegal => (self, Status::Faulted(Fault::IllegalOpcode)),
            }
        }
    }

    /// One fetch-decode-execute step.
    pub open spec fn step(self) -> (Machine, Status) {
        if self.pc >= self.program.len() {
            (self, Status::Halted)
        } else {
            match decode_at(self.program, self.pc) {
                None => (self, Status::Faulted(Fault::Truncated)),
                Some((i, next)) => self.execute(i, next),
            }
        }
    }

    /// Steps until a step does not end `Running`, or `fuel` steps are done.
    pub open spec fn run(self, fuel: nat) -> (Machine, Status)
        decreases fuel,
    {
        if fuel == 0 {
            (self, Status::Running)
        } else {
            let (m, s) = self.step();
            if s == Status::Running {
                m.run((fuel - 1) as nat)
            } else {
                (m, s)
            }
        }
    }
}

/// A virtual machine: a register file, a program buffer, the program counter
/// (a byte offset into the program), the remainder of the latest division and
/// the comparison flag.
#[derive(Debug)]
pub struct VM {
    pub registers: Vec<i32>,
    pub pc: usize,
    pub program: Vec<u8>,
    pub remainder: i32,
    pub cmp: bool,
}

impl View for VM {
    type V = Machine;

    open spec fn view(&self) -> Machine {
        Machine {
            registers: self.registers@,
            pc: self.pc as int,
            program: self.program@,
            remainder: self.remainder,
            cmp: self.cmp,
        }
    }
}

impl Default for VM {
    fn default() -> (r: VM)
        ensures
            r@ == Machine::fresh(Seq::empty()),
    {
        VM::with_program(Vec::new())
    }
}

/// The checked power of `base` to `exp`.
///
/// Relies on `i32::checked_pow`: `base` to the power `exp`, or `None` when
/// that overflows `i32`.
#[verifier::external_body]
fn checked_pow(base: i32, exp: u32) -> (r: Option<i32>)
    ensures
        r == (if in_i32(pow(base as int, exp as nat)) {
            Some(pow(base as int, exp as nat) as i32)
        } else {
            None
        }),
{
    base.checked_pow(exp)
}

/// Quotient and remainder of `x` by `y`, the quotient rounded toward zero.
fn divide(x: i32, y: i32) -> (r: (i64, i32))
    requires
        y != 0,
    ensures
        r.0 == trunc_div(x as int, y as int),
        r.1 == trunc_rem(x as int, y as int),
{
    let a: u64 = if x < 0 {
        (-(x as i64)) as u64
    } else {
        x as u64
    };
    let b: u64 = if y < 0 {
        (-(y as i64)) as u64
    } else {
        y as u64
    };
    let qa = a / b;
    let ra = a % b;
    assert(qa <= a && ra < b) by (nonlinear_arith)
        requires
            b > 0,
            qa == a / b,
            ra == a % b,
    ;
    let q: i64 = if (x < 0) == (y < 0) {
        qa as i64
    } else {
        -(qa as i64)
    };
    let m: i32 = if x < 0 {
        -(ra as i32)
    } else {
        ra as i32
    };
    (q, m)
}

impl VM {
    /// A zeroed machine about to run `program` from its start.
    pub fn with_program(program: Vec<u8>) -> (r: VM)
        ensures
            r@ == Machine::fresh(program@),
    {
        let mut registers: Vec<i32> = Vec::new();
        while registers.len() < REGISTER_COUNT
            invariant
                registers.len() <= REGISTER_COUNT,
                forall|k: int| 0 <= k < registers.len() ==> registers@[k] == 0,
            decreases REGISTER_COUNT - registers.len(),
        {
            registers.push(0);
        }
        assert(registers@ =~= Seq::new(REGISTER_COUNT as nat, |i: int| 0i32));
        VM { registers, pc: 0, program, remainder: 0, cmp: false }
    }

    /// Reads the byte at `pc` and moves past it.
    pub fn next_byte(&mut self) -> (r: u8)
        requires
            old(self).pc < old(self).program.len(),
        ensures
            r == old(self).program@[old(self).pc as int],
            final(self)@ == (Machine { pc: old(self).pc + 1, ..old(self)@ }),
    {
        let b = self.program[self.pc];
        self.pc = self.pc + 1;
        b
    }

    /// Reads the 16-bit immediate at `pc`, high byte first, sign-extended,
    /// and moves past it.
    pub fn next_value(&mut self) -> (r: i32)
        requires
            old(self).pc + 2 <= old(self).program.len(),
        ensures
            r == value_of(
                old(self).program@[old(self).pc as int],
                old(self).program@[old(self).pc + 1],
            ) as i32,
            final(self)@ == (Machine { pc: old(self).pc + 2, ..old(self)@ }),
    {
        let hi = self.next_byte();
        let lo = self.next_byte();
        value_from_bytes(hi, lo) as i32
    }

    /// Writes `v` into register `d` and moves on to `next`.
    fn store(&mut self, d: u8, v: Option<i32>, next: usize) -> (r: Status)
        requires
            (d as int) < old(self).registers.len(),
        ensures
            (final(self)@, r) == (match v {
                Some(x) => old(self)@.store(d, x as int, next as int),
                None => (old(self)@, Status::Faulted(Fault::Overflow)),
            }),
    {
        match v {
            Some(x) => {
                self.registers.set(d as usize, x);
                self.pc = next;
                Status::Running
            },
            None => Status::Faulted(Fault::Overflow),
        }
    }

    /// Moves `pc` to `target`, when it is a valid offset.
    fn jump_to(&mut self, target: i128) -> (r: Status)
        ensures
            (final(self)@, r) == old(self)@.jump_to(target as int),
    {
        if target < 0 || target > usize::MAX as i128 {
            Status::Faulted(Fault::BadJump)
        } else {
            self.pc = target as usize;
            Status::Running
        }
    }

    fn compare(&mut self, flag: bool, next: usize) -> (r: Status)
        ensures
            (final(self)@, r) == old(self)@.compare(flag, next as int),
    {
        self.cmp = flag;
        self.pc = next;
        Status::Running
    }

    /// Whether every register operand of `i` names a slot of the file.
    fn has_regs_of(&self, i: Instr) -> (r: bool)
        ensures
            r == self@.has_regs_of(i),
    {
        let n = self.registers.len();
        match i {
            Instr::Load(r, _) | Instr::Jump(r) | Instr::JumpForward(r) | Instr::JumpBack(r)
            | Instr::JumpIf(r) => (r as usize) < n,
            Instr::Add(a, b, d) | Instr::Subtract(a, b, d) | Instr::Multiply(a, b, d)
            | Instr::Divide(a, b, d) | Instr::Power(a, b, d) => (a as usize) < n && (b as usize)
                < n && (d as usize) < n,
            Instr::Equal(a, b) | Instr::GreaterThan(a, b) | Instr::GreaterThanEqual(a, b) => (a
                as usize) < n && (b as usize) < n,
            Instr::Halt | Instr::Not | Instr::Illegal => true,
        }
    }

    /// Executes `i`, which starts at `pc` and ends just before `next`.
    fn execute(&mut self, i: Instr, next: usize) -> (r: Status)
        ensures
            (final(self)@, r) == old(self)@.execute(i, next as int),
    {
        if !self.has_regs_of(i) {
            return Status::Faulted(Fault::BadRegister);
        }
        match i {
            Instr::Halt => {
                self.pc = next;
                Status::Halted
            },
            Instr::Load(r, v) => self.store(r, Some(v as i32), next),
            Instr::Add(a, b, d) => {
                let v = self.registers[a as usize].checked_add(self.registers[b as usize]);
                self.store(d, v, next)
            },
            Instr::Subtract(a, b, d) => {
                let v = self.registers[a as usize].checked_sub(self.registers[b as usize]);
                self.store(d, v, next)
            },
            Instr::Multiply(a, b, d) => {
                let v = self.registers[a as usize].checked_mul(self.registers[b as usize]);
                self.store(d, v, next)
            },
            Instr::Divide(a, b, d) => {
                let x = self.registers[a as usize];
                let y = self.registers[b as usize];
                if y == 0 {
                    return Status::Faulted(Fault::DivideByZero);
                }
                let (q, m) = divide(x, y);
                if q < i32::MIN as i64 || q > i32::MAX as i64 {
                    return Status::Faulted(Fault::Overflow);
                }
                self.registers.set(d as usize, q as i32);
                self.remainder = m;
                self.pc = next;
                Status::Running
            },
            Instr::Power(a, b, d) => {
                let x = self.registers[a as usize];
                let y = self.registers[b as usize];
                if y < 0 {
                    return Status::Faulted(Fault::NegativeExponent);
                }
                let v = checked_pow(x, y as u32);
                self.store(d, v, next)
            },
            Instr::Jump(r) => {
                let t = self.registers[r as usize] as i128;
                self.jump_to(t)
            },
            Instr::JumpForward(r) => {
                let t = self.pc as i128 + self.registers[r as usize] as i128;
                self.jump_to(t)
            },
            Instr::JumpBack(r) => {
                let t = self.pc as i128 - self.registers[r as usize] as i128;
                self.jump_to(t)
            },
            Instr::JumpIf(r) => {
                if self.cmp {
                    let t = self.registers[r as usize] as i128;
                    self.jump_to(t)
                } else {
                    self.pc = next;
                    Status::Running
                }
            },
            Instr::Equal(a, b) => {
                let flag = self.registers[a as usize] == self.registers[b as usize];
                self.compare(flag, next)
            },
            Instr::Not => {
                let flag = !self.cmp;
                self.compare(flag, next)
            },
            Instr::GreaterThan(a, b) => {
                let flag = self.registers[a as usize] > self.registers[b as usize];
                self.compare(flag, next)
            },
            Instr::GreaterThanEqual(a, b) => {
                let flag = self.registers[a as usize] >= self.registers[b as usize];
                self.compare(flag, next)
            },
            Instr::Illegal => Status::Faulted(Fault::IllegalOpcode),
        }
    }

    /// Executes the instruction at `pc`. Returns `Halted` when `pc` is at or
    /// past the end of the program or a `Halt` executed, `Running` after any
    /// other instruction, and a fault, with the machine unchanged, when the
    /// instruction cannot execute.
    pub fn step(&mut self) -> (r: Status)
        ensures
            (final(self)@, r) == old(self)@.step(),
    {
        if self.pc >= self.program.len() {
            return Status::Halted;
        }
        match decode(self.program.as_slice(), self.pc) {
            None => Status::Faulted(Fault::Truncated),
            Some((i, next)) => self.execute(i, next),
        }
    }

    /// Steps until the machine halts or faults, or `limit` steps have run;
    /// returns the status of the last step (`Running` when the limit was
    /// reached).
    pub fn run_for(&mut self, limit: u64) -> (r: Status)
        ensures
            (final(self)@, r) == old(self)@.run(limit as nat),
    {
        let mut left = limit;
        while left > 0
            invariant
                old(self)@.run(limit as nat) == self@.run(left as nat),
            decreases left,
        {
            let s = self.step();
            match s {
                Status::Running => {},
                _ => {
                    return s;
                },
            }
            left = left - 1;
        }
        Status::Running
    }

    /// Steps until the machine halts or faults (or `u64::MAX` steps have
    /// run, which no program reaches in practice).
    pub fn run(&mut self) -> (r: Status)
        ensures
            (final(self)@, r) == old(self)@.run(u64::MAX as nat),
    {
        self.run_for(u64::MAX)
    }
}

/// A step executes the instruction whose encoding starts at `pc`.
pub proof fn lemma_step_encoded(m: Machine, i: Instr, before: Seq<u8>, after: Seq<u8>)
    requires
        m.program == before + i.encoding() + after,
        m.pc == before.len(),
    ensures
        m.step() == m.execute(i, m.pc + i.encoding().len()),
{
    lemma_round_trip(i, before, after);
}

/// Machines built from the same program end any number of steps with the
/// same registers, flag and remainder, and the same status.
pub proof fn lemma_runs_agree(a: Machine, b: Machine, fuel: nat)
    requires
        a == Machine::fresh(a.program),
        b == Machine::fresh(b.program),
        a.program == b.program,
    ensures
        a.run(fuel).0.registers == b.run(fuel).0.registers,
        a.run(fuel).0.cmp == b.run(fuel).0.cmp,
        a.run(fuel).0.remainder == b.run(fuel).0.remainder,
        a.run(fuel).1 == b.run(fuel).1,
{
}

/// `Load r #9; Load r+1 #3; Add r r+1 r` run on a fresh machine halts with
/// 12 in register `r`.
pub proof fn lemma_load_load_add(r: u8)
    requires
        r < 255,
    ensures
        ({
            let p = Instr::Load(r, 9).encoding() + Instr::Load((r + 1) as u8, 3).encoding()
                + Instr::Add(r, (r + 1) as u8, r).encoding();
            let (m, s) = Machine::fresh(p).run(4);
            s == Status::Halted && m.registers[r as int] == 12
        }),
{
    let (i1, i2, i3) = (Instr::Load(r, 9), Instr::Load((r + 1) as u8, 3), Instr::Add(r, (r + 1) as u8, r));
    let (e1, e2, e3) = (i1.encoding(), i2.encoding(), i3.encoding());
    let p = e1 + e2 + e3;
    let m0 = Machine::fresh(p);
    assert(p =~= seq![] + e1 + (e2 + e3));
    lemma_step_encoded(m0, i1, seq![], e2 + e3);
    let m1 = m0.step().0;
    assert(p =~= e1 + e2 + e3);
    lemma_step_encoded(m1, i2, e1, e3);
    let m2 = m1.step().0;
    assert(p =~= (e1 + e2) + e3 + seq![]);
    lemma_step_encoded(m2, i3, e1 + e2, seq![]);
    let m3 = m2.step().0;
    assert(m3.registers[r as int] == 12);
    assert(m3.step() == (m3, Status::Halted));
    reveal_with_fuel(Machine::run, 5);
}

/// `Divide a b d` with 7 in `a` and 2 in `b` leaves 3 in `d` and 1 as the
/// remainder; with 0 in `b` it faults and changes nothing.
pub proof fn lemma_divide(m: Machine, a: u8, b: u8, d: u8, next: int)
    requires
        m.pc < m.program.len(),
        decode_at(m.program, m.pc) == Some((Instr::Divide(a, b, d), next)),
        m.has_reg(a) && m.has_reg(b) && m.has_reg(d),
    ensures
        m.reg(a) == 7 && m.reg(b) == 2 ==> m.step().1 == Status::Running && m.step().0.reg(d) == 3
            && m.step().0.remainder == 1,
        m.reg(b) == 0 ==> m.step() == (m, Status::Faulted(Fault::DivideByZero)),
{
    if m.reg(a) == 7 && m.reg(b) == 2 {
        assert(abs(7) == 7 && abs(2) == 2);
        assert(7nat / 2nat == 3 && 7nat % 2nat == 1) by (nonlinear_arith);
    }
}

/// `Equal a b` on equal registers sets the flag.
pub proof fn lemma_equal_sets_flag(m: Machine, a: u8, b: u8, next: int)
    requires
        m.pc < m.program.len(),
        decode_at(m.program, m.pc) == Some((Instr::Equal(a, b), next)),
        m.has_reg(a) && m.has_reg(b),
        m.registers[a as int] == m.registers[b as int],
    ensures
        m.step().1 == Status::Running,
        m.step().0.cmp,
{
}

/// `Not` flips the flag.
pub proof fn lemma_not_flips_flag(m: Machine, next: int)
    requires
        m.pc < m.program.len(),
        decode_at(m.program, m.pc) == Some((Instr::Not, next)),
    ensures
        m.step().1 == Status::Running,
        m.step().0.cmp == !m.cmp,
        m.step().0.pc == next,
{
}

/// `JumpForward r` moves `pc` forward from the jump's own offset by the
/// value in `r`; `JumpBack r` moves it back by that value.
pub proof fn lemma_relative_jumps(m: Machine, r: u8, next: int)
    requires
        m.pc < m.program.len(),
        m.has_reg(r),
        decode_at(m.program, m.pc) == Some((Instr::JumpForward(r), next)) || decode_at(
            m.program,
            m.pc,
        ) == Some((Instr::JumpBack(r), next)),
    ensures
        decode_at(m.program, m.pc) == Some((Instr::JumpForward(r), next)) && 0 <= m.pc + m.reg(r)
            <= usize::MAX ==> m.step() == (Machine { pc: m.pc + m.reg(r), ..m }, Status::Running),
        decode_at(m.program, m.pc) == Some((Instr::JumpBack(r), next)) && 0 <= m.pc - m.reg(r)
            <= usize::MAX ==> m.step() == (Machine { pc: m.pc - m.reg(r), ..m }, Status::Running),
{
}

/// `Jump r` sets `pc` to the value in `r`; `JumpIf r` does so when the flag
/// is set, and otherwise goes on with the next instruction.
pub proof fn lemma_absolute_jumps(m: Machine, r: u8, next: int)
    requires
        m.pc < m.program.len(),
        m.has_reg(r),
        0 <= m.reg(r),
    ensures
        decode_at(m.program, m.pc) == Some((Instr::Jump(r), next)) ==> m.step() == (Machine {
            pc: m.reg(r),
            ..m
        }, Status::Running),
        decode_at(m.program, m.pc) == Some((Instr::JumpIf(r), next)) && m.cmp ==> m.step() == (
        Machine { pc: m.reg(r), ..m }, Status::Running),
        decode_at(m.program, m.pc) == Some((Instr::JumpIf(r), next)) && !m.cmp ==> m.step() == (
        Machine { pc: next, ..m }, Status::Running),
{
}

/// A machine whose `pc` is at the end of its program halts exactly as it
/// would if a `Halt` followed: same status, registers, flag and remainder;
/// and it stays halted, unchanged, however long it runs.
pub proof fn lemma_end_halts_like_halt(m: Machine, fuel: nat)
    requires
        m.pc == m.program.len(),
    ensures
        ({
            let h = Machine { program: m.program + Instr::Halt.encoding(), ..m };
            &&& m.step().1 == Status::Halted
            &&& h.step().1 == Status::Halted
            &&& m.step().0.registers == h.step().0.registers
            &&& m.step().0.cmp == h.step().0.cmp
            &&& m.step().0.remainder == h.step().0.remainder
        }),
        fuel > 0 ==> m.run(fuel) == (m, Status::Halted),
{
    let h = Machine { program: m.program + Instr::Halt.encoding(), ..m };
    assert(h.program =~= m.program + Instr::Halt.encoding() + seq![]);
    lemma_step_encoded(h, Instr::Halt, m.program, seq![]);
}

} // verus!
