//! Tests for line classification and instruction encoding.

use hack_assembler::{
    parse_c_command, parse_label, parse_number, translate_c_command, translate_comp,
    translate_dest, translate_jump, translate_line, Comp, Dest, ErrorKind, Jump, SymbolTable,
};

fn translated(line: &str) -> String {
    let table = SymbolTable::empty();
    let word = translate_line(line.as_bytes(), &table).unwrap();
    String::from_utf8(word).unwrap()
}

#[test]
fn test_translate_line() {
    let lines = vec![("M=D&M", "1111000000001000")];
    for line in lines {
        assert_eq!(translated(line.0), line.1.to_string());
    }
}

#[test]
fn translates_the_concrete_cases() {
    assert_eq!(translated("@2"), "0000000000000010");
    assert_eq!(translated("@3"), "0000000000000011");
    assert_eq!(translated("D=A"), "1110110000010000");
    assert_eq!(translated("D=D+A"), "1110000010010000");
    assert_eq!(translated("D;JGT"), "1110001100000001");
    assert_eq!(translated("0;JMP"), "1110101010000111");
    assert_eq!(translated("M=D&M"), "1111000000001000");
}

#[test]
fn translates_field_patterns() {
    assert_eq!(translate_dest(Dest::Null), b"000".to_vec());
    assert_eq!(translate_dest(Dest::M), b"001".to_vec());
    assert_eq!(translate_dest(Dest::ADM), b"111".to_vec());
    assert_eq!(translate_jump(Jump::Null), b"000".to_vec());
    assert_eq!(translate_jump(Jump::JNE), b"101".to_vec());
    assert_eq!(translate_jump(Jump::JMP), b"111".to_vec());
    assert_eq!(translate_comp(Comp::Zero), b"0101010".to_vec());
    assert_eq!(translate_comp(Comp::DplusA), b"0000010".to_vec());
    assert_eq!(translate_comp(Comp::DorM), b"1010101".to_vec());
}

#[test]
fn translates_a_full_compute_instruction() {
    let c = hack_assembler::C_Command::new(Dest::AM, Comp::Mplus1, Jump::Null);
    assert_eq!(translate_c_command(c), b"1111110111101000".to_vec());
}

#[test]
fn classifies_compute_instructions() {
    let c = parse_c_command(b"AD=A-1;JLE").unwrap();
    assert!(matches!(c.dest, Dest::AD));
    assert!(matches!(c.comp, Comp::Aminus1));
    assert!(matches!(c.jump, Jump::JLE));

    let bare = parse_c_command(b"D").unwrap();
    assert!(matches!(bare.dest, Dest::Null));
    assert!(matches!(bare.comp, Comp::D));
    assert!(matches!(bare.jump, Jump::Null));

    assert!(parse_c_command(b"D=X").is_none());
    assert!(parse_c_command(b"Q=A").is_none());
    assert!(parse_c_command(b"D;JXX").is_none());
    assert!(parse_c_command(b"").is_none());
}

#[test]
fn classifies_labels() {
    assert_eq!(parse_label(b"(LOOP)").unwrap(), b"LOOP".to_vec());
    assert_eq!(parse_label(b"(a_b.c$d9)").unwrap(), b"a_b.c$d9".to_vec());
    assert!(parse_label(b"(LOOP").is_none());
    assert!(parse_label(b"()").is_none());
    assert!(parse_label(b"(9X)").is_none());
    assert!(parse_label(b"(A B)").is_none());
    assert!(parse_label(b"LOOP)").is_none());
}

#[test]
fn parses_address_literals() {
    assert_eq!(parse_number(b"0"), Some(0));
    assert_eq!(parse_number(b"21"), Some(21));
    assert_eq!(parse_number(b"32767"), Some(32767));
    assert_eq!(parse_number(b"32768"), None);
    assert_eq!(parse_number(b"999999999999"), None);
    assert_eq!(parse_number(b""), None);
    assert_eq!(parse_number(b"12x"), None);
}

#[test]
fn reports_an_unresolved_symbol_defensively() {
    let table = SymbolTable::empty();
    let r = translate_line(b"@nowhere", &table);
    assert_eq!(r.unwrap_err(), ErrorKind::Resolution);
}

#[test]
fn reports_an_out_of_range_literal() {
    let table = SymbolTable::empty();
    assert_eq!(
        translate_line(b"@32767", &table).unwrap(),
        b"0111111111111111".to_vec()
    );
    assert_eq!(
        translate_line(b"@32768", &table).unwrap_err(),
        ErrorKind::Range
    );
}
