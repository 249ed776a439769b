use hack_assembler::{parse, Instruction};

#[test]
fn parses_a_instruction_with_symbol() {
    assert_eq!(parse(b"@R0").unwrap(), vec![Instruction::A(b"R0".to_vec())]);
}

#[test]
fn parses_a_instruction_with_decimal() {
    assert_eq!(parse(b"@2").unwrap(), vec![Instruction::A(b"2".to_vec())]);
}

#[test]
fn parses_a_instruction_with_comments() {
    assert_eq!(
        parse(b"@R0   // A = RAM[0]").unwrap(),
        vec![Instruction::A(b"R0".to_vec())]
    );
}

#[test]
fn parses_c_instruction() {
    assert_eq!(
        parse(b"D-M").unwrap(),
        vec![Instruction::C {
            dest: None,
            comp: b"D-M".to_vec(),
            jump: None,
        }]
    )
}

#[test]
fn parses_c_instruction_with_dest() {
    assert_eq!(
        parse(b"A=D-M").unwrap(),
        vec![Instruction::C {
            dest: Some(b"A".to_vec()),
            comp: b"D-M".to_vec(),
            jump: None,
        }]
    )
}

#[test]
fn parses_c_instruction_with_jump() {
    assert_eq!(
        parse(b"D-M;JGT").unwrap(),
        vec![Instruction::C {
            dest: None,
            comp: b"D-M".to_vec(),
            jump: Some(b"JGT".to_vec()),
        }]
    )
}

#[test]
fn parses_c_instruction_with_all() {
    assert_eq!(
        parse(b"A=D-M;JGT").unwrap(),
        vec![Instruction::C {
            dest: Some(b"A".to_vec()),
            comp: b"D-M".to_vec(),
            jump: Some(b"JGT".to_vec()),
        }]
    )
}

#[test]
fn parses_c_instruction_with_comments() {
    assert_eq!(
        parse(b"A=D-M;JGT   // if D - M > 0 goto A").unwrap(),
        vec![Instruction::C {
            dest: Some(b"A".to_vec()),
            comp: b"D-M".to_vec(),
            jump: Some(b"JGT".to_vec()),
        }]
    )
}

#[test]
fn parses_l_instruction() {
    assert_eq!(parse(b"(LOOP)").unwrap(), vec![Instruction::L(b"LOOP".to_vec())])
}

#[test]
fn parses_l_instruction_with_comments() {
    assert_eq!(
        parse(b"(LOOP)   // declare the label LOOP").unwrap(),
        vec![Instruction::L(b"LOOP".to_vec())]
    )
}
