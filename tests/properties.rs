use halide::assembler::{assemble, assemble_bytes, AsmError};
use halide::compiler::{compile_expr, Expr};
use halide::input::{compile_input, encode_program, parse_hex, parse_input_to_bytes, InputError};
use halide::instr::{decode, value_from_bytes, Instr};
use halide::opcode::Opcode;
use halide::parser::{expr, multiple_exprs, ParseError};
use halide::vm::{Fault, Status, VM};

fn program(instrs: &[Instr]) -> Vec<u8> {
    let mut bytes = vec![];
    for i in instrs {
        bytes.extend(i.to_bytes());
    }
    bytes
}

#[test]
fn every_instruction_decodes_from_its_encoding() {
    let all = [
        Instr::Halt,
        Instr::Load(7, -1),
        Instr::Load(255, i16::MIN),
        Instr::Load(3, i16::MAX),
        Instr::Add(1, 2, 3),
        Instr::Subtract(4, 5, 6),
        Instr::Multiply(7, 8, 9),
        Instr::Divide(10, 11, 12),
        Instr::Power(13, 14, 15),
        Instr::Jump(16),
        Instr::JumpForward(17),
        Instr::JumpBack(18),
        Instr::JumpIf(19),
        Instr::Equal(20, 21),
        Instr::Not,
        Instr::GreaterThan(22, 23),
        Instr::GreaterThanEqual(24, 25),
        Instr::Illegal,
    ];
    for i in all {
        let mut bytes = vec![9, 9];
        bytes.extend(i.to_bytes());
        bytes.push(42);
        let end = bytes.len() - 1;
        assert_eq!(decode(&bytes, 2), Some((i, end)));
    }
}

#[test]
fn immediate_is_big_endian_twos_complement() {
    assert_eq!(Instr::Load(0, -1).to_bytes(), vec![1, 0, 255, 255]);
    assert_eq!(Instr::Load(0, 258).to_bytes(), vec![1, 0, 1, 2]);
    assert_eq!(value_from_bytes(0x80, 0x00), i16::MIN);
    assert_eq!(value_from_bytes(0x01, 0x02), 258);
}

#[test]
fn unknown_bytes_decode_as_illegal() {
    assert_eq!(Opcode::from(200u8), Opcode::IGL);
    assert_eq!(Opcode::from(14u8), Opcode::JMPIF);
    assert_eq!(u8::from(Opcode::POW), 6);
    assert_eq!(decode(&[77], 0), Some((Instr::Illegal, 1)));
}

#[test]
fn decode_reports_cut_off_operands() {
    assert_eq!(decode(&[1, 0, 0], 0), None);
    assert_eq!(decode(&[0], 1), None);
}

#[test]
fn runs_from_the_same_program_agree() {
    let p = program(&[
        Instr::Load(0, 7),
        Instr::Load(1, 2),
        Instr::Divide(0, 1, 2),
        Instr::GreaterThan(0, 1),
        Instr::Not,
    ]);
    let mut a = VM::with_program(p.clone());
    let mut b = VM::with_program(p);
    assert_eq!(a.run(), Status::Halted);
    assert_eq!(b.run(), Status::Halted);
    assert_eq!(a.registers, b.registers);
    assert_eq!(a.cmp, b.cmp);
    assert_eq!(a.remainder, b.remainder);
}

#[test]
fn load_load_add_leaves_twelve() {
    for r in [0u8, 5, 254] {
        let mut vm = VM::with_program(program(&[
            Instr::Load(r, 9),
            Instr::Load(r + 1, 3),
            Instr::Add(r, r + 1, r),
        ]));
        assert_eq!(vm.run(), Status::Halted);
        assert_eq!(vm.registers[r as usize], 12);
    }
}

#[test]
fn divide_gives_quotient_and_remainder() {
    let mut vm = VM::with_program(program(&[
        Instr::Load(0, 7),
        Instr::Load(1, 2),
        Instr::Divide(0, 1, 2),
    ]));
    assert_eq!(vm.run(), Status::Halted);
    assert_eq!(vm.registers[2], 3);
    assert_eq!(vm.remainder, 1);
}

#[test]
fn divide_rounds_toward_zero() {
    let mut vm = VM::with_program(program(&[
        Instr::Load(0, -7),
        Instr::Load(1, 2),
        Instr::Divide(0, 1, 2),
    ]));
    assert_eq!(vm.run(), Status::Halted);
    assert_eq!(vm.registers[2], -3);
    assert_eq!(vm.remainder, -1);
}

#[test]
fn divide_by_zero_faults_and_keeps_state() {
    let mut vm = VM::with_program(program(&[Instr::Load(0, 7), Instr::Divide(0, 1, 2)]));
    assert_eq!(vm.step(), Status::Running);
    assert_eq!(vm.step(), Status::Faulted(Fault::DivideByZero));
    assert_eq!(vm.pc, 4);
    assert_eq!(vm.registers[2], 0);
    assert_eq!(vm.run(), Status::Faulted(Fault::DivideByZero));
}

#[test]
fn destination_may_alias_a_source() {
    let mut vm = VM::with_program(program(&[
        Instr::Load(0, 5),
        Instr::Load(1, 6),
        Instr::Add(0, 1, 0),
    ]));
    vm.run();
    assert_eq!(vm.registers[0], 11);
}

#[test]
fn power_raises_and_faults() {
    let mut vm = VM::with_program(program(&[
        Instr::Load(0, 2),
        Instr::Load(1, 10),
        Instr::Power(0, 1, 2),
    ]));
    assert_eq!(vm.run(), Status::Halted);
    assert_eq!(vm.registers[2], 1024);

    let mut vm = VM::with_program(program(&[
        Instr::Load(0, 2),
        Instr::Load(1, -1),
        Instr::Power(0, 1, 2),
    ]));
    assert_eq!(vm.run(), Status::Faulted(Fault::NegativeExponent));

    let mut vm = VM::with_program(program(&[
        Instr::Load(0, 2),
        Instr::Load(1, 31),
        Instr::Power(0, 1, 2),
    ]));
    assert_eq!(vm.run(), Status::Faulted(Fault::Overflow));
}

#[test]
fn multiply_overflow_faults() {
    let mut vm = VM::with_program(program(&[
        Instr::Load(0, 32767),
        Instr::Multiply(0, 0, 1),
        Instr::Multiply(1, 1, 1),
    ]));
    assert_eq!(vm.run(), Status::Faulted(Fault::Overflow));
    assert_eq!(vm.registers[1], 32767 * 32767);
}

#[test]
fn equal_sets_flag_and_not_clears_it() {
    let mut vm = VM::with_program(program(&[
        Instr::Load(3, 8),
        Instr::Load(4, 8),
        Instr::Equal(3, 4),
        Instr::Not,
    ]));
    vm.step();
    vm.step();
    vm.step();
    assert!(vm.cmp);
    vm.step();
    assert!(!vm.cmp);
}

#[test]
fn relative_jumps_count_from_the_jump() {
    let mut vm = VM::with_program(program(&[Instr::Load(0, 4), Instr::JumpForward(0)]));
    vm.step();
    assert_eq!(vm.pc, 4);
    assert_eq!(vm.step(), Status::Running);
    assert_eq!(vm.pc, 8);

    let mut vm = VM::with_program(program(&[Instr::Load(0, 4), Instr::JumpBack(0)]));
    vm.step();
    vm.step();
    assert_eq!(vm.pc, 0);

    let mut vm = VM::with_program(program(&[Instr::Load(0, 9), Instr::JumpBack(0)]));
    vm.step();
    assert_eq!(vm.step(), Status::Faulted(Fault::BadJump));
    assert_eq!(vm.pc, 4);
}

#[test]
fn jump_if_falls_through_when_flag_is_clear() {
    let mut vm = VM::with_program(program(&[Instr::Load(0, 0), Instr::JumpIf(0), Instr::Not]));
    vm.step();
    assert_eq!(vm.step(), Status::Running);
    assert_eq!(vm.pc, 6);
    vm.step();
    assert!(vm.cmp);
}

#[test]
fn jump_sets_pc_absolutely() {
    let mut vm = VM::with_program(program(&[Instr::Load(5, 1), Instr::Jump(5)]));
    vm.step();
    vm.step();
    assert_eq!(vm.pc, 1);
}

#[test]
fn exhausted_program_halts_like_halt() {
    let mut ended = VM::with_program(program(&[Instr::Load(0, 3), Instr::Not]));
    let mut halted = VM::with_program(program(&[Instr::Load(0, 3), Instr::Not, Instr::Halt]));
    assert_eq!(ended.run(), Status::Halted);
    assert_eq!(halted.run(), Status::Halted);
    assert_eq!(ended.registers, halted.registers);
    assert_eq!(ended.cmp, halted.cmp);
    assert_eq!(ended.remainder, halted.remainder);
    let pc = ended.pc;
    assert_eq!(ended.step(), Status::Halted);
    assert_eq!(ended.pc, pc);
}

#[test]
fn empty_program_halts_at_once() {
    let mut vm = VM::default();
    assert_eq!(vm.step(), Status::Halted);
    assert_eq!(vm.pc, 0);
}

#[test]
fn illegal_and_truncated_code_fault() {
    let mut vm = VM::with_program(vec![200]);
    assert_eq!(vm.step(), Status::Faulted(Fault::IllegalOpcode));
    assert_eq!(vm.pc, 0);

    let mut vm = VM::with_program(vec![Opcode::ADD.into(), 0, 1]);
    assert_eq!(vm.step(), Status::Faulted(Fault::Truncated));
}

#[test]
fn short_register_file_faults() {
    let mut vm = VM::with_program(program(&[Instr::Load(9, 1)]));
    vm.registers.truncate(4);
    assert_eq!(vm.step(), Status::Faulted(Fault::BadRegister));
}

#[test]
fn run_for_stops_after_the_limit() {
    let mut vm = VM::with_program(program(&[Instr::Load(0, 0), Instr::Jump(0)]));
    assert_eq!(vm.run_for(5), Status::Running);
    assert_eq!(vm.pc, 4);
}

#[test]
fn assembler_reads_single_instructions() {
    assert_eq!(assemble("ADD $0 $1 $2").unwrap(), vec![Instr::Add(0, 1, 2)]);
    assert_eq!(assemble("LOAD $2 #-1").unwrap(), vec![Instr::Load(2, -1)]);
    assert_eq!(assemble("POW $0 $1 $2").unwrap(), vec![Instr::Power(0, 1, 2)]);
    assert_eq!(assemble("LOAD $0 #-32768").unwrap(), vec![Instr::Load(0, i16::MIN)]);
    assert_eq!(assemble("  \n ").unwrap(), vec![]);
}

#[test]
fn assembler_rejects_unknown_mnemonic_without_partial_result() {
    assert_eq!(assemble("HLT\nFOO $1\nNOT"), Err(AsmError { offset: 4 }));
    assert_eq!(assemble("JMPX $1"), Err(AsmError { offset: 0 }));
}

#[test]
fn assembler_rejects_bad_operands() {
    assert_eq!(assemble("LOAD $0 #32768"), Err(AsmError { offset: 0 }));
    assert_eq!(assemble("JMP $256"), Err(AsmError { offset: 0 }));
    assert_eq!(assemble("ADD $0 $1"), Err(AsmError { offset: 0 }));
    assert_eq!(assemble("HLT $0"), Err(AsmError { offset: 4 }));
    assert_eq!(assemble("NOT\nADD  $0 $1 $2"), Err(AsmError { offset: 4 }));
    assert_eq!(assemble_bytes(&[0xC3, 0xA9]), Err(AsmError { offset: 0 }));
}

#[test]
fn lowering_two_minus_product() {
    assert_eq!(
        compile_expr(expr("2 - (3 * 2)").unwrap(), 0),
        vec![
            Instr::Load(0, 2),
            Instr::Load(1, 3),
            Instr::Load(2, 2),
            Instr::Multiply(1, 2, 1),
            Instr::Subtract(0, 1, 0),
        ]
    );
}

#[test]
fn lowered_code_computes_the_value() {
    let code = compile_expr(expr("-(2 + 3) * 4 - 2 ^ 3 ^ 2 / 8").unwrap(), 0);
    let mut vm = VM::with_program(program(&code));
    assert_eq!(vm.run(), Status::Halted);
    assert_eq!(vm.registers[0], -20 - 512 / 8);
}

#[test]
fn lowering_respects_register_limit() {
    let e = Expr::Add(Box::new(Expr::Int(1)), Box::new(Expr::Int(2)));
    assert!(e.fits_registers(254));
    assert!(!e.fits_registers(255));
    assert_eq!(compile_expr(e, 254), vec![
        Instr::Load(254, 1),
        Instr::Load(255, 2),
        Instr::Add(254, 255, 254),
    ]);
}

#[test]
fn power_groups_to_the_right() {
    assert_eq!(
        expr("2 ^ 3 ^ 2").unwrap(),
        Expr::Pow(
            Box::new(Expr::Int(2)),
            Box::new(Expr::Pow(Box::new(Expr::Int(3)), Box::new(Expr::Int(2))))
        )
    );
    assert_eq!(
        expr("-2 ^ 2").unwrap(),
        Expr::Pow(Box::new(Expr::Negate(Box::new(Expr::Int(2)))), Box::new(Expr::Int(2)))
    );
}

#[test]
fn expression_errors_carry_offsets() {
    assert_eq!(expr("1 +"), Err(ParseError { offset: 3 }));
    assert_eq!(expr("(1 + 2"), Err(ParseError { offset: 6 }));
    assert_eq!(expr("40000"), Err(ParseError { offset: 0 }));
    assert_eq!(expr("1 2"), Err(ParseError { offset: 2 }));
    assert_eq!(multiple_exprs("1 )"), Err(ParseError { offset: 2 }));
    assert!(halide::parser::parse_decl("= 2").is_err());
    assert_eq!(halide::parser::parse_decl("x 2"), Err(ParseError { offset: 2 }));
}

#[test]
fn hex_input_reads_bytes() {
    assert_eq!(parse_hex("0A ff 3 +1F"), Ok(vec![10, 255, 3, 31]));
    assert_eq!(parse_hex("100"), Err(InputError::BadHex(0)));
    assert_eq!(parse_hex("1  2"), Err(InputError::BadHex(2)));
    assert_eq!(parse_hex(""), Err(InputError::BadHex(0)));
    assert_eq!(parse_hex("0g"), Err(InputError::BadHex(0)));
}

#[test]
fn assembly_input_becomes_program_bytes() {
    assert_eq!(parse_input_to_bytes("LOAD $0 #1\nHLT", false), Ok(vec![1, 0, 0, 1, 0]));
    assert_eq!(parse_input_to_bytes("01 02", true), Ok(vec![1, 2]));
    assert_eq!(parse_input_to_bytes("LOAD $0", false), Err(InputError::BadAssembly(0)));
    assert_eq!(encode_program(&[Instr::Not, Instr::Jump(3)]), vec![11, 7, 3]);
}

#[test]
fn expression_input_compiles_to_program_bytes() {
    assert_eq!(compile_input("1 + 2"), Ok(vec![1, 0, 0, 1, 1, 1, 0, 2, 2, 0, 1, 0]));
    assert_eq!(compile_input("1 +"), Err(InputError::BadExpression(3)));
    let mut deep = String::new();
    for _ in 0..256 {
        deep.push_str("1 + (");
    }
    deep.push('1');
    for _ in 0..256 {
        deep.push(')');
    }
    assert_eq!(compile_input(&deep), Err(InputError::TooDeep));
}
