use hack_assembler::assembler::AInstruction;
use hack_assembler::assembler::CInstruction;
use hack_assembler::assembler::to_bin16;
use hack_assembler::symbols::SymbolTable;

fn chars(s: &str) -> Vec<char> {
    s.chars().collect()
}

fn text(v: &Vec<char>) -> String {
    v.iter().collect()
}

fn c_word(dest: &str, comp: &str, jmp: &str) -> String {
    let instr = CInstruction {
        dest: chars(dest),
        comp: chars(comp),
        jmp: chars(jmp),
    };
    text(&instr.machine_code())
}

#[test]
fn bin16_of_known_values() {
    assert_eq!(text(&to_bin16(0)), "0000000000000000");
    assert_eq!(text(&to_bin16(1)), "0000000000000001");
    assert_eq!(text(&to_bin16(5)), "0000000000000101");
    assert_eq!(text(&to_bin16(16384)), "0100000000000000");
    assert_eq!(text(&to_bin16(32767)), "0111111111111111");
    assert_eq!(text(&to_bin16(65535)), "1111111111111111");
}

#[test]
fn literal_operand_encodes_itself_without_table_change() {
    let mut table = SymbolTable::new();
    let (code, cursor) = AInstruction::new(chars("21")).machine_code(&mut table, 16);
    assert_eq!(text(&code), "0000000000010101");
    assert_eq!(cursor, 16);
    assert_eq!(table.get(&chars("21")), None);
}

#[test]
fn predefined_symbols_resolve_to_their_addresses() {
    let mut table = SymbolTable::new();
    let (code, cursor) = AInstruction::new(chars("SCREEN")).machine_code(&mut table, 16);
    assert_eq!(text(&code), "0100000000000000");
    assert_eq!(cursor, 16);
    let (code, cursor) = AInstruction::new(chars("KBD")).machine_code(&mut table, 16);
    assert_eq!(text(&code), "0110000000000000");
    assert_eq!(cursor, 16);
    let (code, _) = AInstruction::new(chars("THAT")).machine_code(&mut table, 16);
    assert_eq!(text(&code), "0000000000000100");
    let (code, _) = AInstruction::new(chars("R13")).machine_code(&mut table, 16);
    assert_eq!(text(&code), "0000000000001101");
}

#[test]
fn fresh_symbols_allocate_from_the_cursor() {
    let mut table = SymbolTable::new();
    let (code, cursor) = AInstruction::new(chars("counter")).machine_code(&mut table, 16);
    assert_eq!(text(&code), "0000000000010000");
    assert_eq!(cursor, 17);
    let (code, cursor) = AInstruction::new(chars("other")).machine_code(&mut table, cursor);
    assert_eq!(text(&code), "0000000000010001");
    assert_eq!(cursor, 18);
    let (code, cursor) = AInstruction::new(chars("counter")).machine_code(&mut table, cursor);
    assert_eq!(text(&code), "0000000000010000");
    assert_eq!(cursor, 18);
}

#[test]
fn oversized_literal_becomes_a_variable() {
    let mut table = SymbolTable::new();
    let (code, cursor) = AInstruction::new(chars("70000")).machine_code(&mut table, 16);
    assert_eq!(text(&code), "0000000000010000");
    assert_eq!(cursor, 17);
    assert_eq!(table.get(&chars("70000")), Some(16));
}

#[test]
fn comp_codes_without_indirection() {
    assert_eq!(c_word("", "0", ""), "1110101010000000");
    assert_eq!(c_word("", "1", ""), "1110111111000000");
    assert_eq!(c_word("", "-1", ""), "1110111010000000");
    assert_eq!(c_word("", "D", ""), "1110001100000000");
    assert_eq!(c_word("", "A", ""), "1110110000000000");
    assert_eq!(c_word("", "!D", ""), "1110001101000000");
    assert_eq!(c_word("", "!A", ""), "1110110001000000");
    assert_eq!(c_word("", "-D", ""), "1110001111000000");
    assert_eq!(c_word("", "-A", ""), "1110110011000000");
    assert_eq!(c_word("", "D+1", ""), "1110011111000000");
    assert_eq!(c_word("", "A+1", ""), "1110110111000000");
    assert_eq!(c_word("", "D-1", ""), "1110001110000000");
    assert_eq!(c_word("", "A-1", ""), "1110110010000000");
    assert_eq!(c_word("", "D+A", ""), "1110000010000000");
    assert_eq!(c_word("", "A+D", ""), "1110000010000000");
    assert_eq!(c_word("", "D-A", ""), "1110010011000000");
    assert_eq!(c_word("", "A-D", ""), "1110000111000000");
    assert_eq!(c_word("", "D&A", ""), "1110000000000000");
    assert_eq!(c_word("", "D|A", ""), "1110010101000000");
}

#[test]
fn comp_codes_with_indirection_set_the_a_bit() {
    assert_eq!(c_word("", "M", ""), "1111110000000000");
    assert_eq!(c_word("", "!M", ""), "1111110001000000");
    assert_eq!(c_word("", "-M", ""), "1111110011000000");
    assert_eq!(c_word("", "M+1", ""), "1111110111000000");
    assert_eq!(c_word("", "M-1", ""), "1111110010000000");
    assert_eq!(c_word("", "D+M", ""), "1111000010000000");
    assert_eq!(c_word("", "M+D", ""), "1111000010000000");
    assert_eq!(c_word("", "D-M", ""), "1111010011000000");
    assert_eq!(c_word("", "M-D", ""), "1111000111000000");
    assert_eq!(c_word("", "D&M", ""), "1111000000000000");
    assert_eq!(c_word("", "M|D", ""), "1111010101000000");
}

#[test]
fn and_operand_order_is_irrelevant() {
    assert_eq!(c_word("D", "D&M", "JNE"), c_word("D", "M&D", "JNE"));
    assert_eq!(c_word("", "D&A", ""), c_word("", "A&D", ""));
    assert_eq!(c_word("MD", " D & M ", ""), c_word("MD", "M&D", ""));
}

#[test]
fn dest_bits() {
    assert_eq!(c_word("M", "0", ""), "1110101010001000");
    assert_eq!(c_word("D", "0", ""), "1110101010010000");
    assert_eq!(c_word("A", "0", ""), "1110101010100000");
    assert_eq!(c_word("MD", "0", ""), "1110101010011000");
    assert_eq!(c_word("AM", "0", ""), "1110101010101000");
    assert_eq!(c_word("AD", "0", ""), "1110101010110000");
    assert_eq!(c_word("AMD", "0", ""), "1110101010111000");
}

#[test]
fn jump_codes() {
    assert_eq!(c_word("", "0", "JGT"), "1110101010000001");
    assert_eq!(c_word("", "0", "JEQ"), "1110101010000010");
    assert_eq!(c_word("", "0", "JGE"), "1110101010000011");
    assert_eq!(c_word("", "0", "JLT"), "1110101010000100");
    assert_eq!(c_word("", "0", "JNE"), "1110101010000101");
    assert_eq!(c_word("", "0", "JLE"), "1110101010000110");
    assert_eq!(c_word("", "0", "JMP"), "1110101010000111");
}

#[test]
fn unknown_comp_falls_back_to_the_zero_code() {
    assert_eq!(c_word("", "Q", ""), "1110000000000000");
    assert_eq!(c_word("D", "D*A", "JMP"), "1110000000010111");
}

#[test]
fn unknown_jump_falls_back_to_no_jump() {
    assert_eq!(c_word("", "0", "XYZ"), "1110101010000000");
}

#[test]
fn whitespace_in_comp_is_stripped_for_the_code() {
    assert_eq!(c_word("D", " D + 1 ", ""), c_word("D", "D+1", ""));
}

#[test]
fn new_compute_instruction_is_empty() {
    let instr = CInstruction::new();
    assert_eq!(text(&instr.dest), "");
    assert_eq!(text(&instr.comp), "");
    assert_eq!(text(&instr.jmp), "");
}
