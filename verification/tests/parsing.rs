//! Line preprocessing and field-level instruction parsing.

use hack_assembler::parse_line;
use hack_assembler::preprocess_line;
use hack_assembler::AsmError;
use hack_assembler::InstructionKind;

fn b(s: &str) -> Vec<u8> {
    s.as_bytes().to_vec()
}

fn pre(s: &str) -> Option<String> {
    preprocess_line(&b(s)).map(|v| String::from_utf8(v).unwrap())
}

fn field(o: &Option<Vec<u8>>) -> Option<String> {
    o.as_ref().map(|v| String::from_utf8(v.clone()).unwrap())
}

#[test]
fn preprocess_strips_whitespace() {
    assert_eq!(pre("  D = M + 1  "), Some("D=M+1".to_string()));
    assert_eq!(pre("M = D + A"), Some("M=D+A".to_string()));
    assert_eq!(pre("@300"), Some("@300".to_string()));
}

#[test]
fn preprocess_drops_blank_and_comment_lines() {
    assert_eq!(pre(""), None);
    assert_eq!(pre("   \t "), None);
    assert_eq!(pre("// a comment"), None);
    assert_eq!(pre("   // indented comment"), None);
}

#[test]
fn preprocess_truncates_mid_line_comments() {
    assert_eq!(pre("@2 // load"), Some("@2".to_string()));
    assert_eq!(pre("@2//no space"), Some("@2".to_string()));
    assert_eq!(pre("D=M // read"), Some("D=M".to_string()));
}

#[test]
fn preprocess_is_idempotent_on_output() {
    for line in ["  @300 ", "D = M + 1 // sum", "(LOOP)", "// gone", "   "] {
        if let Some(once) = pre(line) {
            assert_eq!(pre(&once), Some(once.clone()));
        }
    }
}

#[test]
fn preprocess_can_form_a_marker() {
    // Removing whitespace may push two slashes together; the marker then
    // exists only in the output, which is why idempotence asks for a
    // marker-free result.
    assert_eq!(pre("/ /"), Some("//".to_string()));
    assert_eq!(pre("//"), None);
}

#[test]
fn parse_address_literal_line() {
    let inst = parse_line(&b("@100"), 0).unwrap();
    assert_eq!(inst.kind, InstructionKind::Address);
    assert_eq!(field(&inst.symbol), Some("100".to_string()));
    assert_eq!(inst.destination, None);
    assert_eq!(inst.computation, None);
    assert_eq!(inst.jump, None);
}

#[test]
fn parse_address_symbol_line() {
    let inst = parse_line(&b("@dog"), 7).unwrap();
    assert_eq!(inst.kind, InstructionKind::Address);
    assert_eq!(field(&inst.symbol), Some("dog".to_string()));
    assert_eq!(inst.address_index, 7);
}

#[test]
fn parse_label_line() {
    let inst = parse_line(&b("(ORANGE)"), 3).unwrap();
    assert_eq!(inst.kind, InstructionKind::Label);
    assert_eq!(field(&inst.symbol), Some("ORANGE".to_string()));
    assert_eq!(inst.address_index, 3);
}

#[test]
fn parse_assignment() {
    let inst = parse_line(&b("D=A"), 0).unwrap();
    assert_eq!(inst.kind, InstructionKind::Compute);
    assert_eq!(field(&inst.destination), Some("D".to_string()));
    assert_eq!(field(&inst.computation), Some("A".to_string()));
    assert_eq!(inst.jump, None);
}

#[test]
fn parse_binary_operators() {
    let inst = parse_line(&b("M=M+1"), 0).unwrap();
    assert_eq!(field(&inst.destination), Some("M".to_string()));
    assert_eq!(field(&inst.computation), Some("M+1".to_string()));

    let inst = parse_line(&b("D=D-M"), 0).unwrap();
    assert_eq!(field(&inst.computation), Some("D-M".to_string()));

    let inst = parse_line(&b("AMD=D&A"), 0).unwrap();
    assert_eq!(field(&inst.destination), Some("AMD".to_string()));
    assert_eq!(field(&inst.computation), Some("D&A".to_string()));

    let inst = parse_line(&b("D=D|M"), 0).unwrap();
    assert_eq!(field(&inst.computation), Some("D|M".to_string()));
}

#[test]
fn parse_unary_operators() {
    let inst = parse_line(&b("D=-1"), 0).unwrap();
    assert_eq!(field(&inst.computation), Some("-1".to_string()));

    let inst = parse_line(&b("D=!M"), 0).unwrap();
    assert_eq!(field(&inst.computation), Some("!M".to_string()));

    let inst = parse_line(&b("!D;JMP"), 0).unwrap();
    assert_eq!(field(&inst.computation), Some("!D".to_string()));
    assert_eq!(field(&inst.jump), Some("JMP".to_string()));
    assert_eq!(inst.destination, None);
}

#[test]
fn parse_jumps() {
    let inst = parse_line(&b("0;JMP"), 0).unwrap();
    assert_eq!(inst.destination, None);
    assert_eq!(field(&inst.computation), Some("0".to_string()));
    assert_eq!(field(&inst.jump), Some("JMP".to_string()));

    let inst = parse_line(&b("D;JGT"), 0).unwrap();
    assert_eq!(field(&inst.computation), Some("D".to_string()));
    assert_eq!(field(&inst.jump), Some("JGT".to_string()));

    let inst = parse_line(&b("D=M;JEQ"), 0).unwrap();
    assert_eq!(field(&inst.destination), Some("D".to_string()));
    assert_eq!(field(&inst.computation), Some("M".to_string()));
    assert_eq!(field(&inst.jump), Some("JEQ".to_string()));

    let inst = parse_line(&b("D-1;JLE"), 0).unwrap();
    assert_eq!(inst.destination, None);
    assert_eq!(field(&inst.computation), Some("D-1".to_string()));
    assert_eq!(field(&inst.jump), Some("JLE".to_string()));
}

#[test]
fn parse_empty_address() {
    assert_eq!(parse_line(&b("@"), 0).unwrap_err(), AsmError::EmptyAddressSymbol);
}

#[test]
fn parse_unmatched_label() {
    assert_eq!(parse_line(&b("(LOOP"), 0).unwrap_err(), AsmError::UnmatchedLabel);
}

#[test]
fn parse_operator_without_operand() {
    assert_eq!(parse_line(&b("+1"), 0).unwrap_err(), AsmError::MalformedCompute);
    assert_eq!(parse_line(&b("D="), 0).unwrap_err(), AsmError::MalformedCompute);
    assert_eq!(parse_line(&b("D+"), 0).unwrap_err(), AsmError::MalformedCompute);
}

#[test]
fn parse_bare_computation() {
    assert_eq!(parse_line(&b("D+1"), 0).unwrap_err(), AsmError::MalformedCompute);
    assert_eq!(parse_line(&b("D"), 0).unwrap_err(), AsmError::MalformedCompute);
}
