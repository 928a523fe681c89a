//! End-to-end tests for the two-pass assembler.

use hack_assembler::{assemble, first_pass, second_pass, ErrorKind, SymbolTable};

fn run(src: &str) -> Result<String, (ErrorKind, usize, String)> {
    match assemble(src.as_bytes()) {
        Ok(out) => Ok(String::from_utf8(out).unwrap()),
        Err(e) => Err((e.kind, e.line_num, String::from_utf8(e.line).unwrap())),
    }
}

#[test]
fn assembles_a_small_program() {
    let src = "@2\nD=A\n@3\nD=D+A\n@0\nM=D\n";
    let expected = "0000000000000010\n1110110000010000\n0000000000000011\n1110000010010000\n0000000000000000\n1110001100001000\n";
    assert_eq!(run(src).unwrap(), expected);
}

#[test]
fn ignores_comments_blanks_and_whitespace() {
    let src = "\n// a comment\n   @2   \n\t\tD=A\r\n\n// another\n";
    assert_eq!(run(src).unwrap(), "0000000000000010\n1110110000010000\n");
}

#[test]
fn empty_source_gives_empty_output() {
    assert_eq!(run("").unwrap(), "");
    assert_eq!(run("// only a comment\n").unwrap(), "");
}

#[test]
fn allocates_variables_from_sixteen_in_order() {
    let src = "@first\n@second\n@first\n@third\n";
    let expected =
        "0000000000010000\n0000000000010001\n0000000000010000\n0000000000010010\n";
    assert_eq!(run(src).unwrap(), expected);
}

#[test]
fn binds_labels_to_the_instruction_they_precede() {
    let src = "@1\n(LOOP)\n@2\nD=A\n(END)\n@LOOP\n@END\n";
    let expected = "0000000000000001\n0000000000000010\n1110110000010000\n0000000000000001\n0000000000000011\n";
    assert_eq!(run(src).unwrap(), expected);
}

#[test]
fn a_label_shadows_variable_allocation() {
    // `x` is a label, so `@x` resolves to its instruction address, and only
    // `y` is allocated a data-memory slot.
    let src = "(x)\n@x\n@y\n";
    assert_eq!(run(src).unwrap(), "0000000000000000\n0000000000010000\n");
}

#[test]
fn a_duplicate_label_keeps_the_first_address() {
    let src = "(L)\n@1\n(L)\n@L\n";
    assert_eq!(run(src).unwrap(), "0000000000000001\n0000000000000000\n");
}

#[test]
fn an_undefined_symbol_is_allocated_not_rejected() {
    let src = "@foo\n0;JMP\n";
    assert_eq!(run(src).unwrap(), "0000000000010000\n1110101010000111\n");
}

#[test]
fn assembling_twice_gives_identical_bytes() {
    let src = "@start\n(start)\nD=M;JEQ\n@R5\nM=!D\n";
    let first = assemble(src.as_bytes()).unwrap();
    let second = assemble(src.as_bytes()).unwrap();
    assert_eq!(first, second);
}

#[test]
fn every_output_line_is_sixteen_binary_characters() {
    let src = "@2\nD=A\n(HERE)\n@HERE\n@var\nADM=D|M;JMP\n@SCREEN\n0\n";
    let out = run(src).unwrap();
    let lines: Vec<&str> = out.lines().collect();
    assert_eq!(lines.len(), 7);
    for line in lines {
        assert_eq!(line.len(), 16);
        assert!(line.chars().all(|c| c == '0' || c == '1'));
    }
}

#[test]
fn resolves_the_predefined_symbols() {
    let src = "@R0\n@R15\n@SCREEN\n@KBD\n@SP\n@LCL\n@ARG\n@THIS\n@THAT\n";
    let expected = "0000000000000000\n0000000000001111\n0100000000000000\n0110000000000000\n0000000000000000\n0000000000000001\n0000000000000010\n0000000000000011\n0000000000000100\n";
    assert_eq!(run(src).unwrap(), expected);
}

#[test]
fn predefined_symbols_survive_any_program() {
    // A program may declare labels and variables at will; the predefined
    // bindings never move.
    let mut table = SymbolTable::new();
    let mut line_num: usize = 0;
    first_pass(b"(CUSTOM)", &mut line_num, &mut table).unwrap();
    first_pass(b"@R3", &mut line_num, &mut table).unwrap();
    let mut mem_num: usize = 15;
    second_pass(b"@fresh", &mut mem_num, &mut table).unwrap();
    assert_eq!(table.lookup(b"R3"), Some(3));
    assert_eq!(table.lookup(b"SCREEN"), Some(16384));
    assert_eq!(table.lookup(b"KBD"), Some(24576));
    assert_eq!(table.lookup(b"THAT"), Some(4));
    assert_eq!(table.lookup(b"CUSTOM"), Some(0));
    assert_eq!(table.lookup(b"fresh"), Some(16));
}

#[test]
fn defining_never_overwrites() {
    let mut table = SymbolTable::new();
    assert!(!table.define_if_absent(b"R0", 99));
    assert_eq!(table.lookup(b"R0"), Some(0));
    assert!(table.define_if_absent(b"temp", 42));
    assert_eq!(table.lookup(b"temp"), Some(42));
    assert!(!table.define_if_absent(b"temp", 7));
    assert_eq!(table.lookup(b"temp"), Some(42));
    assert_eq!(table.lookup(b"unknown"), None);
}

#[test]
fn the_label_pass_counts_instruction_slots() {
    let mut table = SymbolTable::new();
    let mut line_num: usize = 0;
    first_pass(b"@2", &mut line_num, &mut table).unwrap();
    assert_eq!(line_num, 1);
    first_pass(b"D=A", &mut line_num, &mut table).unwrap();
    assert_eq!(line_num, 2);
    first_pass(b"(MARK)", &mut line_num, &mut table).unwrap();
    assert_eq!(line_num, 2);
    assert_eq!(table.lookup(b"MARK"), Some(2));
}

#[test]
fn rejects_a_malformed_label_line() {
    let src = "\n// note\n(bad\n";
    let (kind, line_num, line) = run(src).unwrap_err();
    assert_eq!(kind, ErrorKind::Classification);
    assert_eq!(line_num, 3);
    assert_eq!(line, "(bad");
}

#[test]
fn rejects_a_malformed_address_operand() {
    let (kind, line_num, line) = run("@2\n@3x\n").unwrap_err();
    assert_eq!(kind, ErrorKind::Classification);
    assert_eq!(line_num, 2);
    assert_eq!(line, "@3x");
}

#[test]
fn rejects_an_empty_address_operand() {
    let (kind, _, line) = run("@\n").unwrap_err();
    assert_eq!(kind, ErrorKind::Classification);
    assert_eq!(line, "@");
}

#[test]
fn rejects_an_unknown_mnemonic() {
    let (kind, line_num, line) = run("@1\nFOO\n").unwrap_err();
    assert_eq!(kind, ErrorKind::Classification);
    assert_eq!(line_num, 2);
    assert_eq!(line, "FOO");
}

#[test]
fn rejects_an_out_of_range_address() {
    let (kind, line_num, line) = run("@32768\n").unwrap_err();
    assert_eq!(kind, ErrorKind::Range);
    assert_eq!(line_num, 1);
    assert_eq!(line, "@32768");
    assert_eq!(run("@32767\n").unwrap(), "0111111111111111\n");
}

#[test]
fn a_rejected_line_aborts_the_whole_run() {
    assert!(run("@2\nD=A\n(oops\nD=A\n").is_err());
}
