use halide::assembler::assemble;
use halide::instr::Instr;

#[test]
fn lib_parse_no_args() {
    let result = assemble("HLT").unwrap();
    assert_eq!(result, vec![Instr::Halt]);
    let result = assemble("NOT").unwrap();
    assert_eq!(result, vec![Instr::Not]);
}

#[test]
fn lib_parse_zero_vec() {
    let result = assemble("HLT NOT").unwrap();
    assert_eq!(result, vec![Instr::Halt, Instr::Not]);
}

#[test]
fn lib_parse_one_arg() {
    let result = assemble("JMP $0").unwrap();
    assert_eq!(result, vec![Instr::Jump(0)]);
    let result = assemble("JMPF $1").unwrap();
    assert_eq!(result, vec![Instr::JumpForward(1)]);
    let result = assemble("JMPB $2").unwrap();
    assert_eq!(result, vec![Instr::JumpBack(2)]);
}

#[test]
fn lib_parse_one_vec() {
    assert_eq!(
        assemble(
            r#"JMPB $2
                   JMPF $1
                   JMP $0"#,
        )
        .unwrap(),
        vec![Instr::JumpBack(2), Instr::JumpForward(1), Instr::Jump(0)]
    );
}

#[test]
fn lib_parse_two_args() {
    let result = assemble("EQ $0 $1").unwrap();
    assert_eq!(result, vec![Instr::Equal(0, 1)]);
    let result = assemble("GT $1 $3").unwrap();
    assert_eq!(result, vec![Instr::GreaterThan(1, 3)]);
    let result = assemble("GTQ $2 $0").unwrap();
    assert_eq!(result, vec![Instr::GreaterThanEqual(2, 0)]);
    let result = assemble("LOAD $2 #1").unwrap();
    assert_eq!(result, vec![Instr::Load(2, 1)]);
}

#[test]
fn lib_parse_two_vec() {
    assert_eq!(
        assemble(
            r#"EQ $0 $1
                   GT $1 $3
                   GTQ $2 $0
                   LOAD $2 #1"#,
        )
        .unwrap(),
        vec![
            Instr::Equal(0, 1),
            Instr::GreaterThan(1, 3),
            Instr::GreaterThanEqual(2, 0),
            Instr::Load(2, 1),
        ]
    );
}

#[test]
fn lib_parse_three_args() {
    let result = assemble("ADD $0 $1 $2").unwrap();
    assert_eq!(result, vec![Instr::Add(0, 1, 2)]);
    let result = assemble("SUB $1 $0 $3").unwrap();
    assert_eq!(result, vec![Instr::Subtract(1, 0, 3)]);
    let result = assemble("DIV $2 $0 $1").unwrap();
    assert_eq!(result, vec![Instr::Divide(2, 0, 1)]);
    let result = assemble("MUL $2 $1 $3").unwrap();
    assert_eq!(result, vec![Instr::Multiply(2, 1, 3)]);
}

#[test]
fn lib_parse_three_vec() {
    assert_eq!(
        assemble(
            r#" ADD $0 $1 $2
                        SUB $1 $0 $3
                        DIV $2 $0 $1
                        MUL $2 $1 $3"#,
        )
        .unwrap(),
        vec![
            Instr::Add(0, 1, 2),
            Instr::Subtract(1, 0, 3),
            Instr::Divide(2, 0, 1),
            Instr::Multiply(2, 1, 3)
        ]
    )
}

#[test]
fn parsing_parse_no_args() {
    let result = assemble("HLT").unwrap();
    assert_eq!(result, vec![Instr::Halt]);
    let result = assemble("NOT").unwrap();
    assert_eq!(result, vec![Instr::Not]);
}

#[test]
fn parsing_parse_zero_vec() {
    let result = assemble("HLT NOT").unwrap();
    assert_eq!(result, vec![Instr::Halt, Instr::Not]);
}

#[test]
fn parsing_parse_one_arg() {
    let result = assemble("JMP $0").unwrap();
    assert_eq!(result, vec![Instr::Jump(0)]);
    let result = assemble("JMPIF $1").unwrap();
    assert_eq!(result, vec![Instr::JumpIf(1)]);
}

#[test]
fn parsing_parse_one_vec() {
    assert_eq!(
        assemble(
            r#"
                   JMP $2
                   JMPIF $1
                   "#,
        )
        .unwrap(),
        vec![Instr::Jump(2), Instr::JumpIf(1)]
    );
}

#[test]
fn parsing_parse_two_args() {
    let result = assemble("EQ $0 $1").unwrap();
    assert_eq!(result, vec![Instr::Equal(0, 1)]);
    let result = assemble("GT $1 $3").unwrap();
    assert_eq!(result, vec![Instr::GreaterThan(1, 3)]);
    let result = assemble("GTQ $2 $0").unwrap();
    assert_eq!(result, vec![Instr::GreaterThanEqual(2, 0)]);
    let result = assemble("LOAD $2 #1").unwrap();
    assert_eq!(result, vec![Instr::Load(2, 1)]);
}

#[test]
fn parsing_parse_two_vec() {
    assert_eq!(
        assemble(
            r#"
                   EQ $0 $1
                   GT $1 $3
                   GTQ $2 $0
                   LOAD $2 #1"#,
        )
        .unwrap(),
        vec![
            Instr::Equal(0, 1),
            Instr::GreaterThan(1, 3),
            Instr::GreaterThanEqual(2, 0),
            Instr::Load(2, 1),
        ]
    );
}

#[test]
fn load_multiple_bytes() {
    assert_eq!(
        assemble(
            "LOAD $0 #9
                     LOAD $1 #10
                     LOAD $2 #100
                     LOAD $3 #-2"
        )
        .unwrap(),
        vec![
            Instr::Load(0, 9),
            Instr::Load(1, 10),
            Instr::Load(2, 100),
            Instr::Load(3, -2)
        ]
    );
}

#[test]
fn parsing_parse_three_args() {
    let result = assemble("ADD $0 $1 $2").unwrap();
    assert_eq!(result, vec![Instr::Add(0, 1, 2)]);
    let result = assemble("SUB $1 $0 $3").unwrap();
    assert_eq!(result, vec![Instr::Subtract(1, 0, 3)]);
    let result = assemble("DIV $2 $0 $1").unwrap();
    assert_eq!(result, vec![Instr::Divide(2, 0, 1)]);
    let result = assemble("MUL $2 $1 $3").unwrap();
    assert_eq!(result, vec![Instr::Multiply(2, 1, 3)]);
}

#[test]
fn parsing_parse_three_vec() {
    assert_eq!(
        assemble(
            r#" ADD $0 $1 $2
                        SUB $1 $0 $3
                        DIV $2 $0 $1
                        MUL $2 $1 $3"#,
        )
        .unwrap(),
        vec![
            Instr::Add(0, 1, 2),
            Instr::Subtract(1, 0, 3),
            Instr::Divide(2, 0, 1),
            Instr::Multiply(2, 1, 3)
        ]
    )
}
