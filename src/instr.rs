//! Structured instructions, their byte encoding and their decoding.
use vstd::prelude::*;

use crate::opcode::{byte_of, lemma_opcode_round_trip, opcode_of, Opcode};

verus! {

/// One decoded operation. Register operands are indices into the register
/// file; the immediate of `Load` is a signed 16-bit value.
#[derive(Clone, Copy, Debug, PartialEq, Eq, Structural)]
pub enum Instr {
    Halt,
    Load(u8, i16),
    Add(u8, u8, u8),
    Subtract(u8, u8, u8),
    Multiply(u8, u8, u8),
    Divide(u8, u8, u8),
    Power(u8, u8, u8),
    Jump(u8),
    JumpForward(u8),
    JumpBack(u8),
    JumpIf(u8),
    Equal(u8, u8),
    Not,
    GreaterThan(u8, u8),
    GreaterThanEqual(u8, u8),
    Illegal,
}

/// High byte of the 16-bit two's-complement form of `v`.
pub open spec fn hi_byte(v: i16) -> u8 {
    ((v as u16) >> 8u16) as u8
}

/// Low byte of the 16-bit two's-complement form of `v`.
pub open spec fn lo_byte(v: i16) -> u8 {
    (v as u16) as u8
}

/// The signed 16-bit value whose big-endian two's-complement bytes are
/// `hi`, `lo`.
pub open spec fn value_of(hi: u8, lo: u8) -> i16 {
    (((hi as u16) << 8u16) | (lo as u16)) as i16
}

/// Splitting a value into bytes and joining them gives the value back.
pub proof fn lemma_value_bytes(v: i16)
    ensures
        value_of(hi_byte(v), lo_byte(v)) == v,
{
    assert(((((((v as u16) >> 8u16) as u8) as u16) << 8u16) | (((v as u16) as u8) as u16)) as i16
        == v) by (bit_vector);
}

/// Number of operand bytes that follow an opcode.
pub open spec fn operand_count(op: Opcode) -> nat {
    match op {
        Opcode::LOAD | Opcode::ADD | Opcode::SUB | Opcode::MUL | Opcode::DIV | Opcode::POW => 3,
        Opcode::EQ | Opcode::GT | Opcode::GTQ => 2,
        Opcode::JMP | Opcode::JMPF | Opcode::JMPB | Opcode::JMPIF => 1,
        Opcode::HLT | Opcode::NOT | Opcode::IGL => 0,
    }
}

/// The instruction that an opcode and its operand bytes `b` stand for.
pub open spec fn assemble_parts(op: Opcode, b: Seq<u8>) -> Instr {
    match op {
        Opcode::HLT => Instr::Halt,
        Opcode::LOAD => Instr::Load(b[0], value_of(b[1], b[2])),
        Opcode::ADD => Instr::Add(b[0], b[1], b[2]),
        Opcode::SUB => Instr::Subtract(b[0], b[1], b[2]),
        Opcode::MUL => Instr::Multiply(b[0], b[1], b[2]),
        Opcode::DIV => Instr::Divide(b[0], b[1], b[2]),
        Opcode::POW => Instr::Power(b[0], b[1], b[2]),
        Opcode::JMP => Instr::Jump(b[0]),
        Opcode::JMPF => Instr::JumpForward(b[0]),
        Opcode::JMPB => Instr::JumpBack(b[0]),
        Opcode::JMPIF => Instr::JumpIf(b[0]),
        Opcode::EQ => Instr::Equal(b[0], b[1]),
        Opcode::NOT => Instr::Not,
        Opcode::GT => Instr::GreaterThan(b[0], b[1]),
        Opcode::GTQ => Instr::GreaterThanEqual(b[0], b[1]),
        Opcode::IGL => Instr::Illegal,
    }
}

/// The instruction encoded at byte offset `at` of `bytes`, with the offset
/// just past it; `None` when `at` is outside `bytes` or the operands run past
/// its end. A byte that encodes no operation decodes as `Illegal`.
pub open spec fn decode_at(bytes: Seq<u8>, at: int) -> Option<(Instr, int)> {
    if at < 0 || at >= bytes.len() {
        None
    } else {
        let op = opcode_of(bytes[at]);
        let end = at + 1 + operand_count(op);
        if end > bytes.len() {
            None
        } else {
            Some((assemble_parts(op, bytes.subrange(at + 1, end)), end))
        }
    }
}

impl Instr {
    /// The opcode that starts the encoding.
    pub open spec fn opcode(self) -> Opcode {
        match self {
            Instr::Halt => Opcode::HLT,
            Instr::Load(..) => Opcode::LOAD,
            Instr::Add(..) => Opcode::ADD,
            Instr::Subtract(..) => Opcode::SUB,
            Instr::Multiply(..) => Opcode::MUL,
            Instr::Divide(..) => Opcode::DIV,
            Instr::Power(..) => Opcode::POW,
            Instr::Jump(..) => Opcode::JMP,
            Instr::JumpForward(..) => Opcode::JMPF,
            Instr::JumpBack(..) => Opcode::JMPB,
            Instr::JumpIf(..) => Opcode::JMPIF,
            Instr::Equal(..) => Opcode::EQ,
            Instr::Not => Opcode::NOT,
            Instr::GreaterThan(..) => Opcode::GT,
            Instr::GreaterThanEqual(..) => Opcode::GTQ,
            Instr::Illegal => Opcode::IGL,
        }
    }

    /// The bytes after the opcode, in the order of the operands; the
    /// immediate of `Load` is written high byte first.
    pub open spec fn operands(self) -> Seq<u8> {
        match self {
            Instr::Load(r, v) => seq![r, hi_byte(v), lo_byte(v)],
            Instr::Add(a, b, d) | Instr::Subtract(a, b, d) | Instr::Multiply(a, b, d)
            | Instr::Divide(a, b, d) | Instr::Power(a, b, d) => seq![a, b, d],
            Instr::Equal(a, b) | Instr::GreaterThan(a, b) | Instr::GreaterThanEqual(a, b) => seq![
                a,
                b,
            ],
            Instr::Jump(r) | Instr::JumpForward(r) | Instr::JumpBack(r) | Instr::JumpIf(r) => seq![
                r,
            ],
            Instr::Halt | Instr::Not | Instr::Illegal => seq![],
        }
    }

    /// The full byte encoding: the opcode's byte, then the operands.
    pub open spec fn encoding(self) -> Seq<u8> {
        seq![byte_of(self.opcode())] + self.operands()
    }

    /// Encodes the instruction.
    pub fn to_bytes(self) -> (r: Vec<u8>)
        ensures
            r@ == self.encoding(),
    {
        let r = match self {
            Instr::Halt => vec![Opcode::HLT.to_byte()],
            Instr::Load(r, v) => {
                let (hi, lo) = to_le_bytes(v);
                vec![Opcode::LOAD.to_byte(), r, hi, lo]
            },
            Instr::Add(a, b, d) => vec![Opcode::ADD.to_byte(), a, b, d],
            Instr::Subtract(a, b, d) => vec![Opcode::SUB.to_byte(), a, b, d],
            Instr::Multiply(a, b, d) => vec![Opcode::MUL.to_byte(), a, b, d],
            Instr::Divide(a, b, d) => vec![Opcode::DIV.to_byte(), a, b, d],
            Instr::Power(a, b, d) => vec![Opcode::POW.to_byte(), a, b, d],
            Instr::Jump(r) => vec![Opcode::JMP.to_byte(), r],
            Instr::JumpForward(r) => vec![Opcode::JMPF.to_byte(), r],
            Instr::JumpBack(r) => vec![Opcode::JMPB.to_byte(), r],
            Instr::JumpIf(r) => vec![Opcode::JMPIF.to_byte(), r],
            Instr::Equal(a, b) => vec![Opcode::EQ.to_byte(), a, b],
            Instr::Not => vec![Opcode::NOT.to_byte()],
            Instr::GreaterThan(a, b) => vec![Opcode::GT.to_byte(), a, b],
            Instr::GreaterThanEqual(a, b) => vec![Opcode::GTQ.to_byte(), a, b],
            Instr::Illegal => vec![Opcode::IGL.to_byte()],
        };
        assert(r@ =~= self.encoding());
        r
    }
}

/// Splits a 16-bit immediate into its two's-complement bytes, high byte
/// first.
pub fn to_le_bytes(v: i16) -> (r: (u8, u8))
    ensures
        r.0 == hi_byte(v),
        r.1 == lo_byte(v),
        value_of(r.0, r.1) == v,
{
    proof {
        lemma_value_bytes(v);
    }
    let w: u16 = #[verifier::truncate] (v as u16);
    let hi: u8 = #[verifier::truncate] ((w >> 8u16) as u8);
    let lo: u8 = #[verifier::truncate] ((w & 0xFFu16) as u8);
    assert(lo == lo_byte(v)) by (bit_vector)
        requires
            w == v as u16,
            lo == (w & 0xFFu16) as u8,
    ;
    (hi, lo)
}

/// Joins two's-complement bytes, high byte first, into a 16-bit value.
pub fn value_from_bytes(hi: u8, lo: u8) -> (r: i16)
    ensures
        r == value_of(hi, lo),
{
    #[verifier::truncate]
    ((((hi as u16) << 8u16) | (lo as u16)) as i16)
}

/// Number of operand bytes that follow an opcode.
pub(crate) fn operand_len(op: Opcode) -> (r: usize)
    ensures
        r == operand_count(op),
{
    match op {
        Opcode::LOAD | Opcode::ADD | Opcode::SUB | Opcode::MUL | Opcode::DIV | Opcode::POW => 3,
        Opcode::EQ | Opcode::GT | Opcode::GTQ => 2,
        Opcode::JMP | Opcode::JMPF | Opcode::JMPB | Opcode::JMPIF => 1,
        Opcode::HLT | Opcode::NOT | Opcode::IGL => 0,
    }
}

/// Decodes the instruction at byte offset `at`, giving it with the offset
/// just past it; `None` when `at` is past the end or the operands are cut
/// off.
pub fn decode(bytes: &[u8], at: usize) -> (r: Option<(Instr, usize)>)
    ensures
        decode_at(bytes@, at as int) == match r {
            Some((i, end)) => Some((i, end as int)),
            None => None,
        },
{
    if at >= bytes.len() {
        return None;
    }
    let op = Opcode::from_byte(bytes[at]);
    let n = operand_len(op);
    if n > bytes.len() - at - 1 {
        return None;
    }
    let b = at + 1;
    let ghost parts = bytes@.subrange(b as int, b + n);
    let i = match op {
        Opcode::HLT => Instr::Halt,
        Opcode::LOAD => Instr::Load(bytes[b], value_from_bytes(bytes[b + 1], bytes[b + 2])),
        Opcode::ADD => Instr::Add(bytes[b], bytes[b + 1], bytes[b + 2]),
        Opcode::SUB => Instr::Subtract(bytes[b], bytes[b + 1], bytes[b + 2]),
        Opcode::MUL => Instr::Multiply(bytes[b], bytes[b + 1], bytes[b + 2]),
        Opcode::DIV => Instr::Divide(bytes[b], bytes[b + 1], bytes[b + 2]),
        Opcode::POW => Instr::Power(bytes[b], bytes[b + 1], bytes[b + 2]),
        Opcode::JMP => Instr::Jump(bytes[b]),
        Opcode::JMPF => Instr::JumpForward(bytes[b]),
        Opcode::JMPB => Instr::JumpBack(bytes[b]),
        Opcode::JMPIF => Instr::JumpIf(bytes[b]),
        Opcode::EQ => Instr::Equal(bytes[b], bytes[b + 1]),
        Opcode::NOT => Instr::Not,
        Opcode::GT => Instr::GreaterThan(bytes[b], bytes[b + 1]),
        Opcode::GTQ => Instr::GreaterThanEqual(bytes[b], bytes[b + 1]),
        Opcode::IGL => Instr::Illegal,
    };
    assert(i == assemble_parts(op, parts));
    Some((i, b + n))
}

/// Decoding the encoding of an instruction, wherever it stands in a byte
/// sequence, gives back that instruction and the offset just past it.
pub proof fn lemma_round_trip(i: Instr, before: Seq<u8>, after: Seq<u8>)
    ensures
        decode_at(before + i.encoding() + after, before.len() as int) == Some(
            (i, (before.len() + i.encoding().len()) as int),
        ),
{
    let s = before + i.encoding() + after;
    let at = before.len() as int;
    lemma_opcode_round_trip(i.opcode());
    assert(s[at] == byte_of(i.opcode()));
    assert(operand_count(i.opcode()) == i.operands().len());
    assert(s.subrange(at + 1, at + 1 + i.operands().len()) =~= i.operands());
    if let Instr::Load(_, v) = i {
        lemma_value_bytes(v);
    }
}

} // verus!
