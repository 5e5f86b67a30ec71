//! Code generation and the symbol-table passes, exercised piecewise.

use hack_assembler::first_pass;
use hack_assembler::parse_each_line;
use hack_assembler::parse_line;
use hack_assembler::populate_symbol_table;
use hack_assembler::translate;
use hack_assembler::AsmError;
use hack_assembler::SymbolTable;

fn b(s: &str) -> Vec<u8> {
    s.as_bytes().to_vec()
}

fn word(line: &str, table: &SymbolTable) -> Result<String, AsmError> {
    let inst = parse_line(&b(line), 0).unwrap();
    translate(&inst, table).map(|v| String::from_utf8(v).unwrap())
}

#[test]
fn compute_words() {
    let t = SymbolTable::new();
    assert_eq!(word("D=A", &t).unwrap(), "1110110000010000");
    assert_eq!(word("M=D", &t).unwrap(), "1110001100001000");
    assert_eq!(word("D=D+A", &t).unwrap(), "1110000010010000");
    assert_eq!(word("M=M+1", &t).unwrap(), "1111110111001000");
    assert_eq!(word("D=D&M", &t).unwrap(), "1111000000010000");
    assert_eq!(word("AMD=D|M", &t).unwrap(), "1111010101111000");
    assert_eq!(word("0;JMP", &t).unwrap(), "1110101010000111");
    assert_eq!(word("D;JGT", &t).unwrap(), "1110001100000001");
    assert_eq!(word("D=-1", &t).unwrap(), "1110111010010000");
    assert_eq!(word("D=!M", &t).unwrap(), "1111110001010000");
}

#[test]
fn every_jump_mnemonic() {
    let t = SymbolTable::new();
    assert_eq!(&word("0;JGT", &t).unwrap()[13..], "001");
    assert_eq!(&word("0;JEQ", &t).unwrap()[13..], "010");
    assert_eq!(&word("0;JGE", &t).unwrap()[13..], "011");
    assert_eq!(&word("0;JLT", &t).unwrap()[13..], "100");
    assert_eq!(&word("0;JNE", &t).unwrap()[13..], "101");
    assert_eq!(&word("0;JLE", &t).unwrap()[13..], "110");
    assert_eq!(&word("0;JMP", &t).unwrap()[13..], "111");
}

#[test]
fn every_destination_mnemonic() {
    let t = SymbolTable::new();
    assert_eq!(&word("M=1", &t).unwrap()[10..13], "001");
    assert_eq!(&word("D=1", &t).unwrap()[10..13], "010");
    assert_eq!(&word("MD=1", &t).unwrap()[10..13], "011");
    assert_eq!(&word("A=1", &t).unwrap()[10..13], "100");
    assert_eq!(&word("AM=1", &t).unwrap()[10..13], "101");
    assert_eq!(&word("AD=1", &t).unwrap()[10..13], "110");
    assert_eq!(&word("AMD=1", &t).unwrap()[10..13], "111");
}

#[test]
fn numeric_address_words() {
    let t = SymbolTable::new();
    assert_eq!(word("@0", &t).unwrap(), "0000000000000000");
    assert_eq!(word("@2", &t).unwrap(), "0000000000000010");
    assert_eq!(word("@32767", &t).unwrap(), "0111111111111111");
    assert_eq!(word("@016", &t).unwrap(), "0000000000010000");
}

#[test]
fn unknown_mnemonics_are_fatal() {
    let t = SymbolTable::new();
    assert_eq!(word("X=D", &t), Err(AsmError::UnknownDestination));
    assert_eq!(word("D=Q", &t), Err(AsmError::UnknownComputation));
    assert_eq!(word("0;JMX", &t), Err(AsmError::UnknownJump));
    assert_eq!(word("0;JM", &t), Err(AsmError::UnknownJump));
}

#[test]
fn undefined_symbol_is_fatal() {
    let t = SymbolTable::empty();
    assert_eq!(word("@dog", &t), Err(AsmError::UndefinedSymbol));
}

#[test]
fn predefined_table_entries() {
    let t = SymbolTable::new();
    assert_eq!(t.get(&b("SP")), Some(0));
    assert_eq!(t.get(&b("LCL")), Some(1));
    assert_eq!(t.get(&b("ARG")), Some(2));
    assert_eq!(t.get(&b("THIS")), Some(3));
    assert_eq!(t.get(&b("THAT")), Some(4));
    assert_eq!(t.get(&b("R0")), Some(0));
    assert_eq!(t.get(&b("R1")), Some(1));
    assert_eq!(t.get(&b("R9")), Some(9));
    assert_eq!(t.get(&b("R10")), Some(10));
    assert_eq!(t.get(&b("R15")), Some(15));
    assert_eq!(t.get(&b("SCREEN")), Some(16384));
    assert_eq!(t.get(&b("KBD")), Some(24576));
    assert_eq!(t.get(&b("LOOP")), None);
    assert!(t.contains(&b("R7")));
    assert!(!t.contains(&b("R16")));
}

#[test]
fn populate_binds_label_to_address_index() {
    let label = parse_line(&b("(LOOP)"), 4).unwrap();
    let (t, last) = populate_symbol_table(&label, SymbolTable::empty(), 15);
    assert_eq!(t.get(&b("LOOP")), Some(4));
    assert_eq!(last, 15);
}

#[test]
fn populate_binds_variable_to_next_address() {
    let var = parse_line(&b("@counter"), 0).unwrap();
    let (t, last) = populate_symbol_table(&var, SymbolTable::empty(), 15);
    assert_eq!(t.get(&b("counter")), Some(16));
    assert_eq!(last, 16);
}

#[test]
fn populate_keeps_first_binding() {
    let var = parse_line(&b("@counter"), 0).unwrap();
    let (t, last) = populate_symbol_table(&var, SymbolTable::empty(), 15);
    let (t, last) = populate_symbol_table(&var, t, last);
    assert_eq!(t.get(&b("counter")), Some(16));
    assert_eq!(last, 16);
}

#[test]
fn first_pass_resolves_labels_before_variables() {
    let insts = parse_each_line(&b("(LOOP)\n@i\nM=M+1\n@LOOP\n0;JMP\n")).unwrap();
    let table = first_pass(&insts, SymbolTable::new());
    assert_eq!(table.get(&b("LOOP")), Some(0));
    assert_eq!(table.get(&b("i")), Some(16));
}

#[test]
fn first_pass_allocates_in_first_seen_order() {
    let insts = parse_each_line(&b("@x\n@y\n@x\n@z\n")).unwrap();
    let table = first_pass(&insts, SymbolTable::new());
    assert_eq!(table.get(&b("x")), Some(16));
    assert_eq!(table.get(&b("y")), Some(17));
    assert_eq!(table.get(&b("z")), Some(18));
}

#[test]
fn address_indices_skip_labels() {
    let insts = parse_each_line(&b("@1\n(A)\n(B)\n@2\n(C)\n@3\n")).unwrap();
    let kinds_and_indices: Vec<usize> = insts.iter().map(|i| i.address_index).collect();
    // @1 at 0; labels A and B carry the index of @2, which is 1; C carries
    // the index of @3, which is 2.
    assert_eq!(kinds_and_indices, vec![0, 1, 1, 1, 2, 2]);
}
