//! Turning a line of user input into program bytes: raw hexadecimal bytes,
//! assembly text, or an expression to compile.
use vstd::prelude::*;
use vstd::string::StringSliceAdditionalSpecFns;

use crate::assembler::{assemble, assembled};
use crate::compiler::{compile_expr, fits, lower};
use crate::instr::Instr;
use crate::parser::{expr, expression};

verus! {

/// Why a line of input gave no program.
#[derive(Clone, Copy, Debug, PartialEq, Eq, Structural)]
pub enum InputError {
    /// A hexadecimal byte could not be read; the byte offset where it
    /// starts.
    BadHex(usize),
    /// An assembly instruction could not be read; its byte offset.
    BadAssembly(usize),
    /// The expression could not be read; the byte offset of the failure.
    BadExpression(usize),
    /// The expression needs more registers than there are.
    TooDeep,
}

/// The bytes of a sequence of instructions, one encoding after another.
pub open spec fn encode_all(s: Seq<Instr>) -> Seq<u8>
    decreases s.len(),
{
    if s.len() == 0 {
        seq![]
    } else {
        encode_all(s.drop_last()) + s.last().encoding()
    }
}

/// Encodes a sequence of instructions as one program.
pub fn encode_program(instrs: &[Instr]) -> (r: Vec<u8>)
    ensures
        r@ == encode_all(instrs@),
{
    let mut out: Vec<u8> = Vec::new();
    let mut k: usize = 0;
    while k < instrs.len()
        invariant
            k <= instrs.len(),
            out@ == encode_all(instrs@.subrange(0, k as int)),
        decreases instrs.len() - k,
    {
        let mut bytes = instrs[k].to_bytes();
        out.append(&mut bytes);
        assert(instrs@.subrange(0, k + 1).drop_last() =~= instrs@.subrange(0, k as int));
        k = k + 1;
    }
    assert(instrs@.subrange(0, instrs.len() as int) =~= instrs@);
    out
}

/// The value of a hexadecimal digit, if `b` is one.
pub open spec fn hex_value(b: u8) -> Option<nat> {
    if ('0' as u8) <= b <= ('9' as u8) {
        Some((b - ('0' as u8)) as nat)
    } else if ('a' as u8) <= b <= ('f' as u8) {
        Some((b - ('a' as u8) + 10) as nat)
    } else if ('A' as u8) <= b <= ('F' as u8) {
        Some((b - ('A' as u8) + 10) as nat)
    } else {
        None
    }
}

/// The end of the run of hexadecimal digits that starts at `i`.
pub open spec fn hex_end(s: Seq<u8>, i: int) -> int
    decreases s.len() - i,
{
    if 0 <= i < s.len() && hex_value(s[i]) is Some {
        hex_end(s, i + 1)
    } else {
        i
    }
}

/// The number that the hexadecimal digits `s[i..j]` write.
pub open spec fn hex_number(s: Seq<u8>, i: int, j: int) -> nat
    decreases j - i,
{
    if j <= i {
        0
    } else {
        hex_number(s, i, j - 1) * 16 + hex_value(s[j - 1]).unwrap_or(0)
    }
}

/// The bytes written from `i` on, after those in `done`: each an optional
/// `+` and hexadecimal digits writing at most 255, separated by single
/// spaces. Fails with the offset of the first that cannot be read.
pub open spec fn hex_bytes_from(s: Seq<u8>, i: int, done: Seq<u8>) -> Result<Seq<u8>, int>
    decreases s.len() - i,
{
    let d = if 0 <= i < s.len() && s[i] == ('+' as u8) {
        i + 1
    } else {
        i
    };
    let e = hex_end(s, d);
    if !(0 <= i <= d < e <= s.len()) || hex_number(s, d, e) > 255 {
        Err(i)
    } else if e == s.len() {
        Ok(done.push(hex_number(s, d, e) as u8))
    } else if s[e] == (' ' as u8) {
        hex_bytes_from(s, e + 1, done.push(hex_number(s, d, e) as u8))
    } else {
        Err(i)
    }
}

/// The bytes that the text `s` writes in hexadecimal.
pub open spec fn hex_bytes(s: Seq<u8>) -> Result<Seq<u8>, int> {
    hex_bytes_from(s, 0, seq![])
}

fn hex_digit(b: u8) -> (r: Option<u32>)
    ensures
        match (r, hex_value(b)) {
            (Some(x), Some(y)) => x == y,
            (None, None) => true,
            _ => false,
        },
{
    if ('0' as u8) <= b && b <= ('9' as u8) {
        Some((b - ('0' as u8)) as u32)
    } else if ('a' as u8) <= b && b <= ('f' as u8) {
        Some((b - ('a' as u8) + 10) as u32)
    } else if ('A' as u8) <= b && b <= ('F' as u8) {
        Some((b - ('A' as u8) + 10) as u32)
    } else {
        None
    }
}

/// The end of the run of hexadecimal digits that starts at `i`, with the
/// number it writes, or 256 when that is larger.
fn scan_hex(s: &[u8], i: usize) -> (r: (usize, u32))
    requires
        i <= s.len(),
    ensures
        r.0 == hex_end(s@, i as int),
        i <= r.0 <= s.len(),
        r.1 == if hex_number(s@, i as int, r.0 as int) < 256 {
            hex_number(s@, i as int, r.0 as int)
        } else {
            256
        },
{
    let mut k = i;
    let mut v: u32 = 0;
    loop
        invariant
            i <= k <= s.len(),
            hex_end(s@, i as int) == hex_end(s@, k as int),
            v == if hex_number(s@, i as int, k as int) < 256 {
                hex_number(s@, i as int, k as int)
            } else {
                256
            },
        decreases s.len() - k,
    {
        if k >= s.len() {
            return (k, v);
        }
        match hex_digit(s[k]) {
            None => {
                return (k, v);
            },
            Some(d) => {
                assert(hex_number(s@, i as int, k + 1) == hex_number(s@, i as int, k as int) * 16
                    + d);
                if v < 256 {
                    v = v * 16 + d;
                    if v > 256 {
                        v = 256;
                    }
                }
                k = k + 1;
            },
        }
    }
}

/// Reads bytes written in hexadecimal, separated by single spaces
/// (`"0A ff 3"`); fails with the offset of the first that cannot be read.
pub fn parse_hex(input: &str) -> (r: Result<Vec<u8>, InputError>)
    ensures
        match (hex_bytes(input.spec_bytes()), r) {
            (Ok(b), Ok(v)) => v@ == b,
            (Err(p), Err(InputError::BadHex(q))) => p == q,
            _ => false,
        },
{
    let s = input.as_bytes();
    let mut out: Vec<u8> = Vec::new();
    let mut i: usize = 0;
    loop
        invariant
            i <= s.len(),
            s@ == input.spec_bytes(),
            hex_bytes(s@) == hex_bytes_from(s@, i as int, out@),
        decreases s.len() - i,
    {
        let d = if i < s.len() && s[i] == ('+' as u8) {
            i + 1
        } else {
            i
        };
        let (e, v) = scan_hex(s, d);
        if !(d < e) || v > 255 {
            return Err(InputError::BadHex(i));
        }
        out.push(v as u8);
        if e == s.len() {
            return Ok(out);
        } else if s[e] == (' ' as u8) {
            i = e + 1;
        } else {
            return Err(InputError::BadHex(i));
        }
    }
}

/// Turns a line of input into program bytes: bytes in hexadecimal when
/// `raw_hex` is set, else assembly text.
pub fn parse_input_to_bytes(input: &str, raw_hex: bool) -> (r: Result<Vec<u8>, InputError>)
    ensures
        raw_hex ==> match (hex_bytes(input.spec_bytes()), r) {
            (Ok(b), Ok(v)) => v@ == b,
            (Err(p), Err(InputError::BadHex(q))) => p == q,
            _ => false,
        },
        !raw_hex ==> match (assembled(input.spec_bytes()), r) {
            (Ok(instrs), Ok(v)) => v@ == encode_all(instrs),
            (Err(p), Err(InputError::BadAssembly(q))) => p == q,
            _ => false,
        },
{
    if raw_hex {
        parse_hex(input)
    } else {
        match assemble(input) {
            Ok(instrs) => Ok(encode_program(instrs.as_slice())),
            Err(e) => Err(InputError::BadAssembly(e.offset)),
        }
    }
}

/// Compiles an expression into program bytes that leave its value in
/// register 0.
pub fn compile_input(input: &str) -> (r: Result<Vec<u8>, InputError>)
    ensures
        match (expression(input.spec_bytes()), r) {
            (Ok(e), Ok(v)) => fits(e, 0) && v@ == encode_all(lower(e, 0)),
            (Ok(e), Err(InputError::TooDeep)) => !fits(e, 0),
            (Err(p), Err(InputError::BadExpression(q))) => p == q,
            _ => false,
        },
{
    match expr(input) {
        Ok(e) => {
            if e.fits_registers(0) {
                let code = compile_expr(e, 0);
                Ok(encode_program(code.as_slice()))
            } else {
                Err(InputError::TooDeep)
            }
        },
        Err(err) => Err(InputError::BadExpression(err.offset)),
    }
}

} // verus!
