use hack_assembler::{
    add_entry_for, translate_a_instruction, translate_c_instruction, Instruction, Labels,
    Variables,
};

#[test]
fn adds_entry_for_labels() {
    let label = b"LOOP";
    let instructions = vec![
        Instruction::A(b"@i".to_vec()),
        Instruction::C {
            dest: Some(b"M".to_vec()),
            comp: b"1".to_vec(),
            jump: None,
        },
        Instruction::A(b"@sum".to_vec()),
        Instruction::C {
            dest: Some(b"M".to_vec()),
            comp: b"0".to_vec(),
            jump: None,
        },
        Instruction::L(label.to_vec()),
        Instruction::A(b"@i".to_vec()),
    ];
    let mut labels = Labels::new();
    add_entry_for(&mut labels, &instructions).unwrap();
    assert_eq!(labels.get(label), Some(4_u16));
}

#[test]
fn translates_a_instruction_with_number() {
    assert_eq!(
        translate_a_instruction(b"1", &Labels::new(), &mut Variables::new()).unwrap(),
        0x0001
    );
}

#[test]
fn translates_a_instruction_with_predefined() {
    assert_eq!(
        translate_a_instruction(b"SCREEN", &Labels::new(), &mut Variables::new()).unwrap(),
        0x4000
    );
}

#[test]
fn translates_a_instruction_with_label() {
    let mut labels = Labels::new();
    labels.insert(b"LOOP".to_vec(), 4);
    assert_eq!(
        translate_a_instruction(b"LOOP", &labels, &mut Variables::new()).unwrap(),
        0x0004
    );
}

#[test]
fn translates_a_instruction_with_new_variable() {
    let i = b"i";
    let mut variables = Variables::new();
    assert_eq!(
        translate_a_instruction(i, &Labels::new(), &mut variables).unwrap(),
        0x0010
    );
    assert_eq!(variables.get(i), Some(0x0010));
}

#[test]
fn translates_a_instruction_with_existing_variable() {
    let i = b"i";
    let mut variables = Variables::new();
    variables.insert(i.to_vec(), 16);
    assert_eq!(
        translate_a_instruction(i, &Labels::new(), &mut variables).unwrap(),
        0x0010
    );
}

#[test]
fn translates_c_instruction() {
    assert_eq!(
        translate_c_instruction(None, b"D-M", None).unwrap(),
        0b1111_0100_1100_0000
    );
}

#[test]
fn translates_c_instruction_with_dest() {
    assert_eq!(
        translate_c_instruction(Some(b"A".as_slice()), b"D-M", None).unwrap(),
        0b1111_0100_1110_0000
    );
}

#[test]
fn translates_c_instruction_with_jump() {
    assert_eq!(
        translate_c_instruction(None, b"D-M", Some(b"JGT".as_slice())).unwrap(),
        0b1111_0100_1100_0001
    );
}

#[test]
fn translates_c_instruction_with_all() {
    assert_eq!(
        translate_c_instruction(Some(b"A".as_slice()), b"D-M", Some(b"JGT".as_slice())).unwrap(),
        0b1111_0100_1110_0001
    );
}
