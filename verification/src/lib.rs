//! A two-pass assembler for the Hack computer's symbolic machine language.
//!
//! Source text is split into lines; each line is stripped of comments and
//! whitespace, parsed into an instruction, resolved against a symbol table
//! built in two passes (labels first, then variables), and encoded as a
//! 16-character binary word.

use vstd::prelude::*;

pub mod bytes;
pub mod codegen;
pub mod instruction;
pub mod parser;
pub mod preprocess;
pub mod symbols;

pub use codegen::second_pass;
pub use codegen::translate;
pub use instruction::AsmError;
pub use instruction::Instruction;
pub use instruction::InstructionKind;
pub use parser::parse_each_line;
pub use parser::parse_line;
pub use preprocess::preprocess_line;
pub use symbols::first_pass;
pub use symbols::populate_symbol_table;
pub use symbols::SymbolTable;

verus! {

/// What the whole run produces from the source text: the lines parsed,
/// the symbol table built from the 23 pre-set entries by the two passes,
/// and the binary words emitted, one per line; or the first error met.
pub open spec fn assemble_spec(source: Seq<u8>) -> Result<Seq<u8>, instruction::AsmError> {
    match parser::parse_lines_spec(bytes::split_lines_spec(source)) {
        Err(e) => Err(e),
        Ok(ivs) => codegen::emit_spec(
            ivs,
            symbols::pass2(ivs, symbols::pass1(ivs, symbols::predefined_map()), 15).0,
        ),
    }
}

/// Assemble a whole source text into the output file's bytes.
pub fn assemble(source: &Vec<u8>) -> (r: Result<Vec<u8>, instruction::AsmError>)
    requires
        source@.len() + 16 <= usize::MAX,
    ensures
        match r {
            Ok(v) => assemble_spec(source@) == Ok::<_, instruction::AsmError>(v@),
            Err(e) => assemble_spec(source@) == Err::<Seq<u8>, _>(e),
        },
{
    let insts = match parser::parse_each_line(source) {
        Ok(insts) => insts,
        Err(e) => {
            return Err(e);
        },
    };
    let table = symbols::SymbolTable::new();
    let table = symbols::first_pass(&insts, table);
    codegen::second_pass(&insts, &table)
}

} // verus!
