//! The textual assembler: one mnemonic and its operands per instruction.
//!
//! An instruction is a mnemonic in capitals followed by its operands, each
//! written after one space: a register as `$` and decimal digits, the
//! immediate of `LOAD` as `#`, an optional `-` and decimal digits.
//! Instructions are separated by whitespace (usually a newline); whitespace
//! before the first and after the last is ignored.
use vstd::prelude::*;
use vstd::string::StringSliceAdditionalSpecFns;

use crate::instr::{assemble_parts, operand_count, operand_len, Instr};
use crate::opcode::Opcode;
use crate::scan::{
    digits_end, digits_value, is_space, is_space_byte, scan_number, skip_spaces, spaces_end,
};

verus! {

/// Assembly failed: `offset` is the byte offset at which the first
/// instruction that cannot be read starts.
#[derive(Clone, Copy, Debug, PartialEq, Eq, Structural)]
pub struct AsmError {
    pub offset: usize,
}

/// A capital ASCII letter.
pub open spec fn is_upper(b: u8) -> bool {
    ('A' as u8) <= b <= ('Z' as u8)
}

/// The end of the run of capital letters that starts at `i`.
pub open spec fn letters_end(s: Seq<u8>, i: int) -> int
    decreases s.len() - i,
{
    if 0 <= i < s.len() && is_upper(s[i]) {
        letters_end(s, i + 1)
    } else {
        i
    }
}

/// The mnemonic of each opcode that has one.
pub open spec fn name(op: Opcode) -> Seq<u8> {
    match op {
        Opcode::HLT => seq![('H' as u8), ('L' as u8), ('T' as u8)],
        Opcode::LOAD => seq![('L' as u8), ('O' as u8), ('A' as u8), ('D' as u8)],
        Opcode::ADD => seq![('A' as u8), ('D' as u8), ('D' as u8)],
        Opcode::SUB => seq![('S' as u8), ('U' as u8), ('B' as u8)],
        Opcode::MUL => seq![('M' as u8), ('U' as u8), ('L' as u8)],
        Opcode::DIV => seq![('D' as u8), ('I' as u8), ('V' as u8)],
        Opcode::POW => seq![('P' as u8), ('O' as u8), ('W' as u8)],
        Opcode::JMP => seq![('J' as u8), ('M' as u8), ('P' as u8)],
        Opcode::JMPF => seq![('J' as u8), ('M' as u8), ('P' as u8), ('F' as u8)],
        Opcode::JMPB => seq![('J' as u8), ('M' as u8), ('P' as u8), ('B' as u8)],
        Opcode::JMPIF => seq![('J' as u8), ('M' as u8), ('P' as u8), ('I' as u8), ('F' as u8)],
        Opcode::EQ => seq![('E' as u8), ('Q' as u8)],
        Opcode::NOT => seq![('N' as u8), ('O' as u8), ('T' as u8)],
        Opcode::GT => seq![('G' as u8), ('T' as u8)],
        Opcode::GTQ => seq![('G' as u8), ('T' as u8), ('Q' as u8)],
        Opcode::IGL => seq![],
    }
}

/// The opcode whose mnemonic is `w`.
pub open spec fn mnemonic_of(w: Seq<u8>) -> Option<Opcode> {
    if w == name(Opcode::HLT) {
        Some(Opcode::HLT)
    } else if w == name(Opcode::LOAD) {
        Some(Opcode::LOAD)
    } else if w == name(Opcode::ADD) {
        Some(Opcode::ADD)
    } else if w == name(Opcode::SUB) {
        Some(Opcode::SUB)
    } else if w == name(Opcode::MUL) {
        Some(Opcode::MUL)
    } else if w == name(Opcode::DIV) {
        Some(Opcode::DIV)
    } else if w == name(Opcode::POW) {
        Some(Opcode::POW)
    } else if w == name(Opcode::JMP) {
        Some(Opcode::JMP)
    } else if w == name(Opcode::JMPF) {
        Some(Opcode::JMPF)
    } else if w == name(Opcode::JMPB) {
        Some(Opcode::JMPB)
    } else if w == name(Opcode::JMPIF) {
        Some(Opcode::JMPIF)
    } else if w == name(Opcode::EQ) {
        Some(Opcode::EQ)
    } else if w == name(Opcode::NOT) {
        Some(Opcode::NOT)
    } else if w == name(Opcode::GT) {
        Some(Opcode::GT)
    } else if w == name(Opcode::GTQ) {
        Some(Opcode::GTQ)
    } else {
        None
    }
}

/// A register operand at `i`: a space, `$` and digits writing at most 255;
/// with the offset past it.
pub open spec fn register_at(s: Seq<u8>, i: int) -> Option<(u8, int)> {
    let e = digits_end(s, i + 2);
    if 0 <= i && i + 2 < s.len() && s[i] == (' ' as u8) && s[i + 1] == ('$' as u8) && e > i + 2
        && digits_value(s, i + 2, e) <= 255 {
        Some((digits_value(s, i + 2, e) as u8, e))
    } else {
        None
    }
}

/// `n` register operands in a row from `i`, with the offset past them.
pub open spec fn registers_at(s: Seq<u8>, i: int, n: nat) -> Option<(Seq<u8>, int)>
    decreases n,
{
    if n == 0 {
        Some((seq![], i))
    } else {
        match registers_at(s, i, (n - 1) as nat) {
            Some((rs, j)) => match register_at(s, j) {
                Some((r, k)) => Some((rs.push(r), k)),
                None => None,
            },
            None => None,
        }
    }
}

/// An immediate operand at `i`: a space, `#`, an optional `-` and digits
/// writing a value of 16 bits; with the offset past it.
pub open spec fn immediate_at(s: Seq<u8>, i: int) -> Option<(i16, int)> {
    let neg = i + 2 < s.len() && s[i + 2] == ('-' as u8);
    let d = if neg { i + 3 } else { i + 2 };
    let e = digits_end(s, d);
    let v = if neg { -digits_value(s, d, e) } else { digits_value(s, d, e) as int };
    if 0 <= i && i + 1 < s.len() && s[i] == (' ' as u8) && s[i + 1] == ('#' as u8) && e > d && i16::MIN <= v
        <= i16::MAX {
        Some((v as i16, e))
    } else {
        None
    }
}

/// The instruction written at `i`, with the offset past it.
pub open spec fn instruction_at(s: Seq<u8>, i: int) -> Option<(Instr, int)> {
    let j = letters_end(s, i);
    match mnemonic_of(s.subrange(i, j)) {
        None => None,
        Some(op) => if op == Opcode::LOAD {
            match register_at(s, j) {
                Some((r, k)) => match immediate_at(s, k) {
                    Some((v, e)) => Some((Instr::Load(r, v), e)),
                    None => None,
                },
                None => None,
            }
        } else {
            match registers_at(s, j, operand_count(op)) {
                Some((rs, e)) => Some((assemble_parts(op, rs), e)),
                None => None,
            }
        },
    }
}

/// The instructions written from `i` on, after the ones in `done`; or the
/// offset of the first one that cannot be read. An instruction must be
/// followed by whitespace or the end of the text.
pub open spec fn assembled_from(s: Seq<u8>, i: int, done: Seq<Instr>) -> Result<Seq<Instr>, int>
    decreases s.len() - i,
{
    let j = spaces_end(s, i);
    if !(0 <= i <= j <= s.len()) || j == s.len() {
        Ok(done)
    } else {
        match instruction_at(s, j) {
            Some((ins, k)) => if j < k <= s.len() && (k == s.len() || is_space(s[k])) {
                assembled_from(s, k, done.push(ins))
            } else {
                Err(j)
            },
            None => Err(j),
        }
    }
}

/// The instructions that the text `s` writes, or the offset of the first
/// one that cannot be read.
pub open spec fn assembled(s: Seq<u8>) -> Result<Seq<Instr>, int> {
    assembled_from(s, 0, seq![])
}

fn op_name(op: Opcode) -> (r: Vec<u8>)
    ensures
        r@ == name(op),
{
    let r = match op {
        Opcode::HLT => vec![('H' as u8), ('L' as u8), ('T' as u8)],
        Opcode::LOAD => vec![('L' as u8), ('O' as u8), ('A' as u8), ('D' as u8)],
        Opcode::ADD => vec![('A' as u8), ('D' as u8), ('D' as u8)],
        Opcode::SUB => vec![('S' as u8), ('U' as u8), ('B' as u8)],
        Opcode::MUL => vec![('M' as u8), ('U' as u8), ('L' as u8)],
        Opcode::DIV => vec![('D' as u8), ('I' as u8), ('V' as u8)],
        Opcode::POW => vec![('P' as u8), ('O' as u8), ('W' as u8)],
        Opcode::JMP => vec![('J' as u8), ('M' as u8), ('P' as u8)],
        Opcode::JMPF => vec![('J' as u8), ('M' as u8), ('P' as u8), ('F' as u8)],
        Opcode::JMPB => vec![('J' as u8), ('M' as u8), ('P' as u8), ('B' as u8)],
        Opcode::JMPIF => vec![('J' as u8), ('M' as u8), ('P' as u8), ('I' as u8), ('F' as u8)],
        Opcode::EQ => vec![('E' as u8), ('Q' as u8)],
        Opcode::NOT => vec![('N' as u8), ('O' as u8), ('T' as u8)],
        Opcode::GT => vec![('G' as u8), ('T' as u8)],
        Opcode::GTQ => vec![('G' as u8), ('T' as u8), ('Q' as u8)],
        Opcode::IGL => vec![],
    };
    assert(r@ =~= name(op));
    r
}

/// Whether `s[i..j]` is `w`.
fn same_word(s: &[u8], i: usize, j: usize, w: &Vec<u8>) -> (r: bool)
    requires
        i <= j <= s.len(),
    ensures
        r == (s@.subrange(i as int, j as int) == w@),
{
    if j - i != w.len() {
        return false;
    }
    let mut k: usize = 0;
    while k < w.len()
        invariant
            j - i == w.len(),
            i <= j <= s.len(),
            k <= w.len(),
            forall|m: int| 0 <= m < k ==> s@[i + m] == w@[m],
        decreases w.len() - k,
    {
        if s[i + k] != w[k] {
            assert(s@.subrange(i as int, j as int)[k as int] != w@[k as int]);
            return false;
        }
        k = k + 1;
    }
    assert(s@.subrange(i as int, j as int) =~= w@);
    true
}

/// The opcode whose mnemonic is `s[i..j]`.
fn mnemonic(s: &[u8], i: usize, j: usize) -> (r: Option<Opcode>)
    requires
        i <= j <= s.len(),
    ensures
        r == mnemonic_of(s@.subrange(i as int, j as int)),
{
    let ghost w = s@.subrange(i as int, j as int);
    if same_word(s, i, j, &op_name(Opcode::HLT)) {
        Some(Opcode::HLT)
    } else if same_word(s, i, j, &op_name(Opcode::LOAD)) {
        Some(Opcode::LOAD)
    } else if same_word(s, i, j, &op_name(Opcode::ADD)) {
        Some(Opcode::ADD)
    } else if same_word(s, i, j, &op_name(Opcode::SUB)) {
        Some(Opcode::SUB)
    } else if same_word(s, i, j, &op_name(Opcode::MUL)) {
        Some(Opcode::MUL)
    } else if same_word(s, i, j, &op_name(Opcode::DIV)) {
        Some(Opcode::DIV)
    } else if same_word(s, i, j, &op_name(Opcode::POW)) {
        Some(Opcode::POW)
    } else if same_word(s, i, j, &op_name(Opcode::JMP)) {
        Some(Opcode::JMP)
    } else if same_word(s, i, j, &op_name(Opcode::JMPF)) {
        Some(Opcode::JMPF)
    } else if same_word(s, i, j, &op_name(Opcode::JMPB)) {
        Some(Opcode::JMPB)
    } else if same_word(s, i, j, &op_name(Opcode::JMPIF)) {
        Some(Opcode::JMPIF)
    } else if same_word(s, i, j, &op_name(Opcode::EQ)) {
        Some(Opcode::EQ)
    } else if same_word(s, i, j, &op_name(Opcode::NOT)) {
        Some(Opcode::NOT)
    } else if same_word(s, i, j, &op_name(Opcode::GT)) {
        Some(Opcode::GT)
    } else if same_word(s, i, j, &op_name(Opcode::GTQ)) {
        Some(Opcode::GTQ)
    } else {
        None
    }
}

/// The end of the run of capital letters that starts at `i`.
fn skip_letters(s: &[u8], i: usize) -> (r: usize)
    requires
        i <= s.len(),
    ensures
        r == letters_end(s@, i as int),
        i <= r <= s.len(),
{
    let mut k = i;
    while k < s.len() && ('A' as u8) <= s[k] && s[k] <= ('Z' as u8)
        invariant
            i <= k <= s.len(),
            letters_end(s@, i as int) == letters_end(s@, k as int),
        decreases s.len() - k,
    {
        k = k + 1;
    }
    k
}

/// A register operand at `i`.
fn register(s: &[u8], i: usize) -> (r: Option<(u8, usize)>)
    requires
        i <= s.len(),
    ensures
        register_at(s@, i as int) == match r {
            Some((v, e)) => Some((v, e as int)),
            None => None,
        },
        r matches Some((_, e)) ==> e <= s.len(),
{
    if s.len() - i > 2 && s[i] == (' ' as u8) && s[i + 1] == ('$' as u8) {
        let (e, v) = scan_number(s, i + 2);
        if e > i + 2 && v <= 255 {
            return Some((v as u8, e));
        }
    }
    None
}

/// An immediate operand at `i`.
fn immediate(s: &[u8], i: usize) -> (r: Option<(i16, usize)>)
    requires
        i <= s.len(),
    ensures
        immediate_at(s@, i as int) == match r {
            Some((v, e)) => Some((v, e as int)),
            None => None,
        },
        r matches Some((_, e)) ==> e <= s.len(),
{
    if s.len() - i > 1 && s[i] == (' ' as u8) && s[i + 1] == ('#' as u8) {
        let neg = s.len() - i > 2 && s[i + 2] == ('-' as u8);
        let d = if neg {
            i + 3
        } else {
            i + 2
        };
        let (e, v) = scan_number(s, d);
        if e > d {
            if neg && v <= 32768 {
                return Some(((-(v as i32)) as i16, e));
            } else if !neg && v <= 32767 {
                return Some((v as i16, e));
            }
        }
    }
    None
}

/// Once a row of register operands cannot be read, no longer row can.
proof fn lemma_registers_stay_none(s: Seq<u8>, i: int, a: nat, b: nat)
    requires
        a <= b,
        registers_at(s, i, a) is None,
    ensures
        registers_at(s, i, b) is None,
    decreases b - a,
{
    if a < b {
        lemma_registers_stay_none(s, i, (a + 1) as nat, b);
    }
}

/// `n` register operands in a row from `i`.
fn registers(s: &[u8], i: usize, n: usize) -> (r: Option<(Vec<u8>, usize)>)
    requires
        i <= s.len(),
    ensures
        registers_at(s@, i as int, n as nat) == match r {
            Some((rs, e)) => Some((rs@, e as int)),
            None => None,
        },
        r matches Some((rs, e)) ==> e <= s.len() && rs.len() == n,
{
    let mut rs: Vec<u8> = Vec::new();
    let mut j = i;
    let mut c: usize = 0;
    while c < n
        invariant
            c <= n,
            j <= s.len(),
            rs.len() == c,
            registers_at(s@, i as int, c as nat) == Some((rs@, j as int)),
        decreases n - c,
    {
        match register(s, j) {
            Some((r, k)) => {
                rs.push(r);
                j = k;
            },
            None => {
                proof {
                    lemma_registers_stay_none(s@, i as int, (c + 1) as nat, n as nat);
                }
                return None;
            },
        }
        c = c + 1;
    }
    Some((rs, j))
}

/// The instruction that `op` and its register operands `rs` stand for;
/// `op` is not `LOAD`.
fn from_registers(op: Opcode, rs: &Vec<u8>) -> (r: Instr)
    requires
        rs.len() == operand_count(op),
        op != Opcode::LOAD,
    ensures
        r == assemble_parts(op, rs@),
{
    match op {
        Opcode::HLT => Instr::Halt,
        Opcode::ADD => Instr::Add(rs[0], rs[1], rs[2]),
        Opcode::SUB => Instr::Subtract(rs[0], rs[1], rs[2]),
        Opcode::MUL => Instr::Multiply(rs[0], rs[1], rs[2]),
        Opcode::DIV => Instr::Divide(rs[0], rs[1], rs[2]),
        Opcode::POW => Instr::Power(rs[0], rs[1], rs[2]),
        Opcode::JMP => Instr::Jump(rs[0]),
        Opcode::JMPF => Instr::JumpForward(rs[0]),
        Opcode::JMPB => Instr::JumpBack(rs[0]),
        Opcode::JMPIF => Instr::JumpIf(rs[0]),
        Opcode::EQ => Instr::Equal(rs[0], rs[1]),
        Opcode::NOT => Instr::Not,
        Opcode::GT => Instr::GreaterThan(rs[0], rs[1]),
        Opcode::GTQ => Instr::GreaterThanEqual(rs[0], rs[1]),
        _ => Instr::Illegal,
    }
}

/// The instruction written at `i`.
fn instruction(s: &[u8], i: usize) -> (r: Option<(Instr, usize)>)
    requires
        i <= s.len(),
    ensures
        instruction_at(s@, i as int) == match r {
            Some((ins, e)) => Some((ins, e as int)),
            None => None,
        },
{
    let j = skip_letters(s, i);
    match mnemonic(s, i, j) {
        None => None,
        Some(op) => {
            if op == Opcode::LOAD {
                match register(s, j) {
                    Some((r, k)) => match immediate(s, k) {
                        Some((v, e)) => Some((Instr::Load(r, v), e)),
                        None => None,
                    },
                    None => None,
                }
            } else {
                match registers(s, j, operand_len(op)) {
                    Some((rs, e)) => Some((from_registers(op, &rs), e)),
                    None => None,
                }
            }
        },
    }
}

/// Assembles the text `s`, given as bytes; fails, with the offset of the
/// first instruction that cannot be read, when any cannot.
pub fn assemble_bytes(s: &[u8]) -> (r: Result<Vec<Instr>, AsmError>)
    ensures
        assembled(s@) == match r {
            Ok(v) => Ok(v@),
            Err(e) => Err(e.offset as int),
        },
{
    let mut out: Vec<Instr> = Vec::new();
    let mut i: usize = 0;
    loop
        invariant
            i <= s.len(),
            assembled(s@) == assembled_from(s@, i as int, out@),
        decreases s.len() - i,
    {
        let j = skip_spaces(s, i);
        if j == s.len() {
            return Ok(out);
        }
        match instruction(s, j) {
            Some((ins, k)) => {
                if j < k && k <= s.len() && (k == s.len() || is_space_byte(s[k])) {
                    out.push(ins);
                    i = k;
                } else {
                    return Err(AsmError { offset: j });
                }
            },
            None => {
                return Err(AsmError { offset: j });
            },
        }
    }
}

/// Assembles `text`: one instruction per line (or, generally, instructions
/// separated by whitespace). Fails, with the byte offset of the first
/// instruction that cannot be read, when any cannot; nothing is returned
/// of the instructions before it.
pub fn assemble(text: &str) -> (r: Result<Vec<Instr>, AsmError>)
    ensures
        assembled(text.spec_bytes()) == match r {
            Ok(v) => Ok(v@),
            Err(e) => Err(e.offset as int),
        },
{
    assemble_bytes(text.as_bytes())
}

} // verus!
