use hack_assembler::{
    add_entry_for, needs_parsing, parse, remove_trailing_comments, render_word, translate,
    translate_a_instruction, translate_c_instruction, AsmError, Instruction, Labels, Variables,
};

fn rendered(words: &[u16]) -> Vec<String> {
    words
        .iter()
        .map(|w| String::from_utf8(render_word(*w)).unwrap())
        .collect()
}

#[test]
fn translates_add_program() {
    let source = b"@2\nD=A\n@3\nD=D+A\n@0\nM=D\n";
    let words = translate(parse(source).unwrap()).unwrap();
    assert_eq!(
        rendered(&words),
        vec![
            "0000000000000010",
            "1110110000010000",
            "0000000000000011",
            "1110000010010000",
            "0000000000000000",
            "1110001100001000",
        ]
    );
}

#[test]
fn translates_loop_program() {
    let source = b"(LOOP)\n@i\nM=M-1\n@LOOP\n0;JMP\n";
    let instructions = parse(source).unwrap();
    let mut labels = Labels::new();
    add_entry_for(&mut labels, &instructions).unwrap();
    assert_eq!(labels.get(b"LOOP"), Some(0));
    let words = translate(instructions).unwrap();
    assert_eq!(words.len(), 4);
    assert_eq!(words[0], 16, "variable i gets the first free address");
    assert_eq!(words[2], 0, "the jump target resolves to the label");
}

#[test]
fn emits_one_word_per_address_or_compute_instruction() {
    let source = b"(START)\n@1\n(MID)\nD=A\n(END)\n// comment only\n\n@END\n";
    let instructions = parse(source).unwrap();
    assert_eq!(instructions.len(), 6);
    let words = translate(instructions).unwrap();
    assert_eq!(words.len(), 3);
}

#[test]
fn assigns_variable_addresses_in_first_appearance_order() {
    let labels = Labels::new();
    let mut variables = Variables::new();
    assert_eq!(
        translate_a_instruction(b"first", &labels, &mut variables).unwrap(),
        16
    );
    assert_eq!(
        translate_a_instruction(b"second", &labels, &mut variables).unwrap(),
        17
    );
    assert_eq!(
        translate_a_instruction(b"first", &labels, &mut variables).unwrap(),
        16
    );
    assert_eq!(
        translate_a_instruction(b"second", &labels, &mut variables).unwrap(),
        17
    );
}

#[test]
fn resolves_predefined_symbols_to_fixed_values() {
    let expected: Vec<(&[u8], u16)> = vec![
        (b"R0", 0),
        (b"R1", 1),
        (b"R2", 2),
        (b"R3", 3),
        (b"R4", 4),
        (b"R5", 5),
        (b"R6", 6),
        (b"R7", 7),
        (b"R8", 8),
        (b"R9", 9),
        (b"R10", 10),
        (b"R11", 11),
        (b"R12", 12),
        (b"R13", 13),
        (b"R14", 14),
        (b"R15", 15),
        (b"SP", 0),
        (b"LCL", 1),
        (b"ARG", 2),
        (b"THIS", 3),
        (b"THAT", 4),
        (b"SCREEN", 0x4000),
        (b"KBD", 0x6000),
    ];
    for (name, value) in expected {
        let mut variables = Variables::new();
        assert_eq!(
            translate_a_instruction(name, &Labels::new(), &mut variables).unwrap(),
            value
        );
        assert_eq!(variables.get(name), None, "predefined names never become variables");
    }
}

#[test]
fn matches_longest_mnemonic_first() {
    assert_eq!(
        parse(b"D+1").unwrap(),
        vec![Instruction::C {
            dest: None,
            comp: b"D+1".to_vec(),
            jump: None,
        }]
    );
    assert_eq!(
        parse(b"D=D+1;JEQ").unwrap(),
        vec![Instruction::C {
            dest: Some(b"D".to_vec()),
            comp: b"D+1".to_vec(),
            jump: Some(b"JEQ".to_vec()),
        }]
    );
}

#[test]
fn decoding_a_compute_word_recovers_its_fields() {
    let word =
        translate_c_instruction(Some(b"MD".as_slice()), b"D|A", Some(b"JNE".as_slice())).unwrap();
    assert_eq!(word >> 13, 0b111);
    assert_eq!((word >> 6) & 0x7f, 0b0010101);
    assert_eq!((word >> 3) & 0x7, 0b011);
    assert_eq!(word & 0x7, 0b101);
}

#[test]
fn renders_words_as_sixteen_binary_digits() {
    assert_eq!(String::from_utf8(render_word(0)).unwrap(), "0000000000000000");
    assert_eq!(String::from_utf8(render_word(0xffff)).unwrap(), "1111111111111111");
    assert_eq!(String::from_utf8(render_word(0x4001)).unwrap(), "0100000000000001");
}

#[test]
fn skips_blank_and_comment_lines() {
    assert!(!needs_parsing(b"   "));
    assert!(!needs_parsing(b""));
    assert!(!needs_parsing(b"  // just a comment"));
    assert!(needs_parsing(b" @1 "));
    assert_eq!(parse(b"\n\n// nothing here\n   \n").unwrap(), vec![]);
}

#[test]
fn strips_trailing_comments_and_whitespace() {
    assert_eq!(remove_trailing_comments(b"  A=D-M  // store"), b"A=D-M".to_vec());
    assert_eq!(remove_trailing_comments(b"@7"), b"@7".to_vec());
}

#[test]
fn reports_syntax_error_with_offending_line() {
    assert_eq!(
        parse(b"@1\nwhat is this\n@2\n"),
        Err(AsmError::Syntax(b"what is this".to_vec()))
    );
    assert_eq!(
        parse(b"(OPEN\n").unwrap_err(),
        AsmError::Syntax(b"(OPEN".to_vec())
    );
    assert_eq!(
        parse(b"(L) trailing\n").unwrap_err(),
        AsmError::Syntax(b"(L) trailing".to_vec())
    );
}

#[test]
fn reports_unknown_mnemonics() {
    assert_eq!(
        translate_c_instruction(None, b"X", None).unwrap_err(),
        AsmError::UnknownComp(b"X".to_vec())
    );
    assert_eq!(
        translate_c_instruction(Some(b"MA".as_slice()), b"0", None).unwrap_err(),
        AsmError::UnknownDest(b"MA".to_vec())
    );
    assert_eq!(
        translate_c_instruction(None, b"0", Some(b"JXX".as_slice())).unwrap_err(),
        AsmError::UnknownJump(b"JXX".to_vec())
    );
}

#[test]
fn reports_a_program_too_large_for_the_program_counter() {
    let inst = Instruction::C {
        dest: None,
        comp: b"0".to_vec(),
        jump: None,
    };
    let instructions = vec![inst; 65536];
    assert_eq!(translate(instructions), Err(AsmError::ProgramTooLarge));
}

#[test]
fn reports_exhaustion_of_the_variable_address_space() {
    let mut variables = Variables::new();
    for _ in 0..65520 {
        variables.insert(b"taken".to_vec(), 0);
    }
    assert_eq!(
        translate_a_instruction(b"fresh", &Labels::new(), &mut variables).unwrap_err(),
        AsmError::TooManyVariables
    );
}

#[test]
fn keeps_the_last_binding_of_a_duplicate_label() {
    let source = b"(X)\n@1\n(X)\n@X\n";
    let instructions = parse(source).unwrap();
    let mut labels = Labels::new();
    add_entry_for(&mut labels, &instructions).unwrap();
    assert_eq!(labels.get(b"X"), Some(1));
    let words = translate(instructions).unwrap();
    assert_eq!(words, vec![1, 1]);
}

#[test]
fn resolves_out_of_range_literals_as_variables() {
    let mut variables = Variables::new();
    assert_eq!(
        translate_a_instruction(b"65535", &Labels::new(), &mut variables).unwrap(),
        65535
    );
    assert_eq!(
        translate_a_instruction(b"65536", &Labels::new(), &mut variables).unwrap(),
        16
    );
    assert_eq!(
        translate_a_instruction(b"+12", &Labels::new(), &mut variables).unwrap(),
        12
    );
}

#[test]
fn accepts_carriage_return_line_endings() {
    let words = translate(parse(b"@2\r\nD=A\r\n").unwrap()).unwrap();
    assert_eq!(rendered(&words), vec!["0000000000000010", "1110110000010000"]);
}
