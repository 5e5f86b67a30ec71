//! End-to-end runs of the assembler over whole source texts.

use hack_assembler::assemble;
use hack_assembler::AsmError;

fn b(s: &str) -> Vec<u8> {
    s.as_bytes().to_vec()
}

fn assemble_str(source: &str) -> Result<String, AsmError> {
    assemble(&b(source)).map(|out| String::from_utf8(out).unwrap())
}

#[test]
fn add_program() {
    let source = "// comment\n@2\nD=A\n@3\nD=D+A\n@0\nM=D\n";
    let expected = "0000000000000010\n\
                    1110110000010000\n\
                    0000000000000011\n\
                    1110000010010000\n\
                    0000000000000000\n\
                    1110001100001000\n";
    assert_eq!(assemble_str(source).unwrap(), expected);
}

#[test]
fn label_and_variable() {
    let source = "(LOOP)\n@i\nM=M+1\n@LOOP\n0;JMP\n";
    let expected = "0000000000010000\n\
                    1111110111001000\n\
                    0000000000000000\n\
                    1110101010000111\n";
    assert_eq!(assemble_str(source).unwrap(), expected);
}

#[test]
fn forward_label_reference() {
    // A label used before its definition resolves to the index of the
    // instruction that follows the definition.
    let source = "@END\n0;JMP\n(END)\n@0\n";
    let expected = "0000000000000010\n\
                    1110101010000111\n\
                    0000000000000000\n";
    assert_eq!(assemble_str(source).unwrap(), expected);
}

#[test]
fn backward_label_reference() {
    let source = "@0\n(HERE)\n@HERE\n";
    let expected = "0000000000000000\n\
                    0000000000000001\n";
    assert_eq!(assemble_str(source).unwrap(), expected);
}

#[test]
fn variable_allocation_order() {
    // First-seen order, starting at 16, no gaps, no reuse.
    let source = "@x\n@y\n@x\n@z\n";
    let expected = "0000000000010000\n\
                    0000000000010001\n\
                    0000000000010000\n\
                    0000000000010010\n";
    assert_eq!(assemble_str(source).unwrap(), expected);
}

#[test]
fn empty_source() {
    assert_eq!(assemble_str("").unwrap(), "");
}

#[test]
fn comments_and_blanks_only() {
    assert_eq!(assemble_str("// a\n\n   \n// b\n").unwrap(), "");
}

#[test]
fn whitespace_inside_instructions() {
    let source = "  @300 \nD = M\n@100\nM = D + A\n";
    let expected = "0000000100101100\n\
                    1111110000010000\n\
                    0000000001100100\n\
                    1110000010001000\n";
    assert_eq!(assemble_str(source).unwrap(), expected);
}

#[test]
fn mid_line_comments() {
    let source = "@2 // load two\nD=A// no space before marker\n";
    let expected = "0000000000000010\n\
                    1110110000010000\n";
    assert_eq!(assemble_str(source).unwrap(), expected);
}

#[test]
fn predefined_symbols() {
    let source = "@R5\n@SP\n@SCREEN\n@KBD\n";
    let expected = "0000000000000101\n\
                    0000000000000000\n\
                    0100000000000000\n\
                    0110000000000000\n";
    assert_eq!(assemble_str(source).unwrap(), expected);
}

#[test]
fn max_address_literal() {
    assert_eq!(assemble_str("@32767\n").unwrap(), "0111111111111111\n");
}

#[test]
fn address_literal_out_of_range() {
    assert_eq!(assemble_str("@32768\n"), Err(AsmError::AddressOutOfRange));
    assert_eq!(assemble_str("@99999\n"), Err(AsmError::AddressOutOfRange));
}

#[test]
fn malformed_address_literal() {
    assert_eq!(assemble_str("@1x2\n"), Err(AsmError::InvalidAddressLiteral));
}

#[test]
fn bare_computation_rejected() {
    // A computation with neither destination nor jump has no effect and
    // is not a valid instruction.
    assert_eq!(assemble_str("D+1\n"), Err(AsmError::MalformedCompute));
}

#[test]
fn empty_address_rejected() {
    assert_eq!(assemble_str("@\n"), Err(AsmError::EmptyAddressSymbol));
}

#[test]
fn unmatched_label_rejected() {
    assert_eq!(assemble_str("(LOOP\n"), Err(AsmError::UnmatchedLabel));
}

#[test]
fn output_is_newline_terminated() {
    let out = assemble(&b("@2\n")).unwrap();
    assert_eq!(out.len(), 17);
    assert_eq!(out[16], b'\n');
}

#[test]
fn source_without_trailing_newline() {
    assert_eq!(assemble_str("@2").unwrap(), "0000000000000010\n");
}

#[test]
fn label_never_allocated_as_variable() {
    // The label reference must not take a RAM slot: the variable after it
    // still gets 16.
    let source = "@LOOP\n0;JMP\n(LOOP)\n@var\nM=D\n";
    let expected = "0000000000000010\n\
                    1110101010000111\n\
                    0000000000010000\n\
                    1110001100001000\n";
    assert_eq!(assemble_str(source).unwrap(), expected);
}
