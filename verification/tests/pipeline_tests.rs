use hack_assembler::assembler::Instruction;
use hack_assembler::parser::Parser;
use hack_assembler::parser::SyntaxError;
use hack_assembler::symbols::SymbolTable;
use hack_assembler::translate::assemble;
use hack_assembler::translate::generate_code;
use hack_assembler::translate::join_lines;
use hack_assembler::translate::parse_program;
use hack_assembler::translate::resolve_labels;

fn chars(s: &str) -> Vec<char> {
    s.chars().collect()
}

fn text(v: &Vec<char>) -> String {
    v.iter().collect()
}

fn lines(v: &Vec<Vec<char>>) -> Vec<String> {
    v.iter().map(|l| l.iter().collect()).collect()
}

#[test]
fn parser_dispatches_on_the_first_token() {
    let mut p = Parser::new(chars("@5\nAMD=D+1;JGT\n(END)"));
    match p.next_instruction().unwrap().unwrap() {
        Instruction::A(_) => {}
        other => panic!("expected an address instruction, got {:?}", other),
    }
    match p.next_instruction().unwrap().unwrap() {
        Instruction::C(c) => {
            assert_eq!(text(&c.dest), "AMD");
            assert_eq!(text(&c.comp), "D+1");
            assert_eq!(text(&c.jmp), "JGT");
        }
        other => panic!("expected a compute instruction, got {:?}", other),
    }
    match p.next_instruction().unwrap().unwrap() {
        Instruction::Pseudo(l) => assert_eq!(text(&l.label), "END"),
        other => panic!("expected a label, got {:?}", other),
    }
    assert!(p.next_instruction().unwrap().is_none());
}

#[test]
fn parser_reads_comp_and_jump_without_dest() {
    let mut p = Parser::new(chars("0;JMP"));
    match p.next_instruction().unwrap().unwrap() {
        Instruction::C(c) => {
            assert_eq!(text(&c.dest), "");
            assert_eq!(text(&c.comp), "0");
            assert_eq!(text(&c.jmp), "JMP");
        }
        other => panic!("expected a compute instruction, got {:?}", other),
    }
}

#[test]
fn parser_accumulates_multi_token_comp() {
    let mut p = Parser::new(chars("D=D+1\nM=M-1;JEQ"));
    match p.next_instruction().unwrap().unwrap() {
        Instruction::C(c) => {
            assert_eq!(text(&c.dest), "D");
            assert_eq!(text(&c.comp), "D+1");
            assert_eq!(text(&c.jmp), "");
        }
        other => panic!("expected a compute instruction, got {:?}", other),
    }
    match p.next_instruction().unwrap().unwrap() {
        Instruction::C(c) => {
            assert_eq!(text(&c.dest), "M");
            assert_eq!(text(&c.comp), "M-1");
            assert_eq!(text(&c.jmp), "JEQ");
        }
        other => panic!("expected a compute instruction, got {:?}", other),
    }
}

#[test]
fn comp_stops_at_a_line_comment() {
    let mut p = Parser::new(chars("D=A+1 // increment\n@3"));
    match p.next_instruction().unwrap().unwrap() {
        Instruction::C(c) => {
            assert_eq!(text(&c.comp), "A+1");
            assert_eq!(text(&c.jmp), "");
        }
        other => panic!("expected a compute instruction, got {:?}", other),
    }
    match p.next_instruction().unwrap().unwrap() {
        Instruction::A(_) => {}
        other => panic!("expected an address instruction, got {:?}", other),
    }
}

#[test]
fn missing_operand_after_at_is_an_error() {
    let mut p = Parser::new(chars("@"));
    match p.next_instruction() {
        Err(SyntaxError::MissingOperand) => {}
        other => panic!("expected a missing-operand error, got {:?}", other),
    }
}

#[test]
fn unclosed_label_is_an_error() {
    let mut p = Parser::new(chars("(LOOP"));
    match p.next_instruction() {
        Err(SyntaxError::UnclosedLabel { name }) => assert_eq!(text(&name), "LOOP"),
        other => panic!("expected an unclosed-label error, got {:?}", other),
    }
}

#[test]
fn bare_token_without_second_token_is_an_error() {
    let mut p = Parser::new(chars("D"));
    match p.next_instruction() {
        Err(SyntaxError::MissingExpression { first }) => assert_eq!(text(&first), "D"),
        other => panic!("expected a missing-expression error, got {:?}", other),
    }
}

#[test]
fn syntax_error_aborts_with_no_output() {
    let source = "@1\nD=A\n(LOOP";
    match assemble(chars(source)) {
        Err(SyntaxError::UnclosedLabel { name }) => assert_eq!(text(&name), "LOOP"),
        other => panic!("expected the run to abort, got {:?}", other),
    }
}

#[test]
fn empty_source_assembles_to_nothing() {
    let out = assemble(chars("// only a comment\n\n")).unwrap();
    assert_eq!(lines(&out), Vec::<String>::new());
}

#[test]
fn round_trip_two_instructions() {
    let out = assemble(chars("@0\nAMD=D+1;JGT")).unwrap();
    assert_eq!(lines(&out), vec!["0000000000000000", "1110011111111001"]);
}

#[test]
fn joined_output_has_single_newlines() {
    let out = assemble(chars("@0\nAMD=D+1;JGT")).unwrap();
    assert_eq!(text(&join_lines(&out)), "0000000000000000\n1110011111111001");
}

#[test]
fn variables_allocate_from_sixteen_in_first_reference_order() {
    let out = assemble(chars("@first\n@second\n@first")).unwrap();
    assert_eq!(
        lines(&out),
        vec![
            "0000000000010000",
            "0000000000010001",
            "0000000000010000"
        ]
    );
}

#[test]
fn label_binds_to_the_next_real_instruction() {
    let source = "@0\n(LOOP)\nD=M\nM=D\nD=D+1\n@LOOP";
    let out = assemble(chars(source)).unwrap();
    assert_eq!(out.len(), 5);
    assert_eq!(text(&out[0]), "0000000000000000");
    assert_eq!(text(&out[4]), "0000000000000001");
}

#[test]
fn later_label_declaration_overwrites_the_earlier_one() {
    let source = "(L)\n@L\n(L)\nD=A\n@L";
    let out = assemble(chars(source)).unwrap();
    assert_eq!(
        lines(&out),
        vec![
            "0000000000000001",
            "1110110000010000",
            "0000000000000001"
        ]
    );
}

#[test]
fn screen_encodes_its_fixed_address_after_any_allocations() {
    let out = assemble(chars("@a\n@b\n@c\n@SCREEN")).unwrap();
    assert_eq!(
        lines(&out),
        vec![
            "0000000000010000",
            "0000000000010001",
            "0000000000010010",
            "0100000000000000"
        ]
    );
}

#[test]
fn comments_and_blank_lines_do_not_count_as_instructions() {
    let source = "// init\n\n@2 // two\n   \nD=A\n(HERE)\n@HERE";
    let out = assemble(chars(source)).unwrap();
    assert_eq!(
        lines(&out),
        vec![
            "0000000000000010",
            "1110110000010000",
            "0000000000000010"
        ]
    );
}

#[test]
fn passes_compose_like_the_whole_pipeline() {
    let source = "(START)\n@START\n0;JMP";
    let instrs = parse_program(chars(source)).unwrap();
    assert_eq!(instrs.len(), 3);
    let mut table = SymbolTable::new();
    resolve_labels(&instrs, &mut table);
    assert_eq!(table.get(&chars("START")), Some(0));
    let (out, cursor) = generate_code(instrs, &mut table, 16);
    assert_eq!(cursor, 16);
    assert_eq!(lines(&out), vec!["0000000000000000", "1110101010000111"]);
}

#[test]
fn max_literal_in_sixteen_bits_encodes_directly() {
    let out = assemble(chars("@65535\n@32767")).unwrap();
    assert_eq!(lines(&out), vec!["1111111111111111", "0111111111111111"]);
}
