//! Operation tags and their one-byte encoding.
use vstd::prelude::*;

verus! {

/// The one-byte tag that starts every encoded instruction.
#[allow(clippy::upper_case_acronyms)]
#[derive(Clone, Copy, Debug, PartialEq, Eq, Structural)]
pub enum Opcode {
    HLT,
    LOAD,
    ADD,
    SUB,
    MUL,
    DIV,
    POW,
    JMP,
    JMPF,
    JMPB,
    EQ,
    NOT,
    GT,
    GTQ,
    JMPIF,
    IGL,
}

/// The byte that encodes an opcode.
pub open spec fn byte_of(op: Opcode) -> u8 {
    match op {
        Opcode::HLT => 0,
        Opcode::LOAD => 1,
        Opcode::ADD => 2,
        Opcode::SUB => 3,
        Opcode::MUL => 4,
        Opcode::DIV => 5,
        Opcode::POW => 6,
        Opcode::JMP => 7,
        Opcode::JMPF => 8,
        Opcode::JMPB => 9,
        Opcode::EQ => 10,
        Opcode::NOT => 11,
        Opcode::GT => 12,
        Opcode::GTQ => 13,
        Opcode::JMPIF => 14,
        Opcode::IGL => 255,
    }
}

/// The opcode a byte decodes to: every byte that encodes no defined
/// operation is `IGL`.
pub open spec fn opcode_of(b: u8) -> Opcode {
    if exists|op: Opcode| op != Opcode::IGL && byte_of(op) == b {
        choose|op: Opcode| op != Opcode::IGL && byte_of(op) == b
    } else {
        Opcode::IGL
    }
}

/// Every opcode decodes back from its own byte.
pub proof fn lemma_opcode_round_trip(op: Opcode)
    ensures
        opcode_of(byte_of(op)) == op,
{
    if op != Opcode::IGL {
        let other = choose|o: Opcode| o != Opcode::IGL && byte_of(o) == byte_of(op);
        assert(other == op);
    } else {
        assert forall|o: Opcode| o != Opcode::IGL implies byte_of(o) != 255u8 by {}
    }
}

impl Opcode {
    /// Decodes one byte.
    pub fn from_byte(b: u8) -> (r: Opcode)
        ensures
            r == opcode_of(b),
            r != Opcode::IGL ==> byte_of(r) == b,
    {
        let r = match b {
            0 => Opcode::HLT,
            1 => Opcode::LOAD,
            2 => Opcode::ADD,
            3 => Opcode::SUB,
            4 => Opcode::MUL,
            5 => Opcode::DIV,
            6 => Opcode::POW,
            7 => Opcode::JMP,
            8 => Opcode::JMPF,
            9 => Opcode::JMPB,
            10 => Opcode::EQ,
            11 => Opcode::NOT,
            12 => Opcode::GT,
            13 => Opcode::GTQ,
            14 => Opcode::JMPIF,
            _ => Opcode::IGL,
        };
        proof {
            if r != Opcode::IGL {
                lemma_opcode_round_trip(r);
            } else {
                assert forall|o: Opcode| o != Opcode::IGL implies byte_of(o) != b by {}
            }
        }
        r
    }

    /// Encodes the opcode as its byte.
    pub fn to_byte(self) -> (r: u8)
        ensures
            r == byte_of(self),
    {
        match self {
            Opcode::HLT => 0,
            Opcode::LOAD => 1,
            Opcode::ADD => 2,
            Opcode::SUB => 3,
            Opcode::MUL => 4,
            Opcode::DIV => 5,
            Opcode::POW => 6,
            Opcode::JMP => 7,
            Opcode::JMPF => 8,
            Opcode::JMPB => 9,
            Opcode::EQ => 10,
            Opcode::NOT => 11,
            Opcode::GT => 12,
            Opcode::GTQ => 13,
            Opcode::JMPIF => 14,
            Opcode::IGL => 255,
        }
    }
}

impl From<u8> for Opcode {
    fn from(b: u8) -> (r: Opcode) {
        Opcode::from_byte(b)
    }
}

impl vstd::std_specs::convert::FromSpecImpl<u8> for Opcode {
    open spec fn obeys_from_spec() -> bool {
        true
    }

    open spec fn from_spec(b: u8) -> Opcode {
        opcode_of(b)
    }
}

impl From<Opcode> for u8 {
    fn from(op: Opcode) -> (r: u8) {
        op.to_byte()
    }
}

impl vstd::std_specs::convert::FromSpecImpl<Opcode> for u8 {
    open spec fn obeys_from_spec() -> bool {
        true
    }

    open spec fn from_spec(op: Opcode) -> u8 {
        byte_of(op)
    }
}

} // verus!
