//! The parsed representation of one source line, and the error kinds on
//! which an assembly run aborts.

use vstd::prelude::*;

verus! {

/// The kind of a parsed source line: an A-instruction, a C-instruction,
/// a label pseudo-instruction, or a line that carries no instruction.
#[derive(Clone, Copy, Debug, PartialEq, Eq, Structural)]
pub enum InstructionKind {
    Address,
    Compute,
    Label,
    Invalid,
}

/// Why an assembly run fails; every error aborts the whole run.
#[derive(Clone, Copy, Debug, PartialEq, Eq, Structural)]
pub enum AsmError {
    /// `@` with nothing following it.
    EmptyAddressSymbol,
    /// `(` with no closing `)`.
    UnmatchedLabel,
    /// A compute instruction whose fields cannot be captured: an operator
    /// with no operand in reach, no computation at all, or a computation
    /// with neither destination nor jump.
    MalformedCompute,
    /// An address symbol that starts with a digit but is not a plain
    /// decimal numeral.
    InvalidAddressLiteral,
    /// A numeric address or a resolved symbol above the 15-bit range.
    AddressOutOfRange,
    /// A non-numeric address symbol absent from the symbol table.
    UndefinedSymbol,
    /// A destination mnemonic outside the fixed table.
    UnknownDestination,
    /// A computation mnemonic outside the fixed table.
    UnknownComputation,
    /// A jump mnemonic outside the fixed table.
    UnknownJump,
}

/// One parsed source line. For `Address` and `Label` only `symbol` is
/// populated; for `Compute` only `destination`, `computation` and `jump`;
/// for `Invalid` nothing. `address_index` is the zero-based slot this
/// instruction occupies in instruction memory, labels excluded; a label
/// carries the index of the next real instruction.
#[derive(Debug)]
pub struct Instruction {
    pub kind: InstructionKind,
    pub symbol: Option<Vec<u8>>,
    pub destination: Option<Vec<u8>>,
    pub computation: Option<Vec<u8>>,
    pub jump: Option<Vec<u8>>,
    pub address_index: usize,
}

/// The mathematical shadow of `Instruction`: text fields as byte sequences.
pub struct InstructionView {
    pub kind: InstructionKind,
    pub symbol: Option<Seq<u8>>,
    pub destination: Option<Seq<u8>>,
    pub computation: Option<Seq<u8>>,
    pub jump: Option<Seq<u8>>,
    pub address_index: int,
}

pub open spec fn opt_bytes_view(o: Option<Vec<u8>>) -> Option<Seq<u8>> {
    match o {
        Some(v) => Some(v@),
        None => None,
    }
}

impl View for Instruction {
    type V = InstructionView;

    open spec fn view(&self) -> InstructionView {
        InstructionView {
            kind: self.kind,
            symbol: opt_bytes_view(self.symbol),
            destination: opt_bytes_view(self.destination),
            computation: opt_bytes_view(self.computation),
            jump: opt_bytes_view(self.jump),
            address_index: self.address_index as int,
        }
    }
}

impl InstructionView {
    /// The population invariant: exactly the fields that belong to the kind
    /// are set, a compute instruction has a computation and at least one of
    /// destination and jump, and the instruction-memory slot is a machine
    /// index.
    pub open spec fn wf(self) -> bool {
        &&& 0 <= self.address_index <= usize::MAX
        &&& match self.kind {
            InstructionKind::Address => {
                &&& self.symbol matches Some(sym) && sym.len() > 0
                &&& self.destination is None
                &&& self.computation is None
                &&& self.jump is None
            },
            InstructionKind::Label => {
                &&& self.symbol is Some
                &&& self.destination is None
                &&& self.computation is None
                &&& self.jump is None
            },
            InstructionKind::Compute => {
                &&& self.symbol is None
                &&& self.computation matches Some(c) && c.len() > 0
                &&& self.destination is Some || self.jump is Some
            },
            InstructionKind::Invalid => {
                &&& self.symbol is None
                &&& self.destination is None
                &&& self.computation is None
                &&& self.jump is None
            },
        }
    }
}

pub open spec fn address_iv(sym: Seq<u8>, idx: int) -> InstructionView {
    InstructionView {
        kind: InstructionKind::Address,
        symbol: Some(sym),
        destination: None,
        computation: None,
        jump: None,
        address_index: idx,
    }
}

pub open spec fn label_iv(sym: Seq<u8>, idx: int) -> InstructionView {
    InstructionView {
        kind: InstructionKind::Label,
        symbol: Some(sym),
        destination: None,
        computation: None,
        jump: None,
        address_index: idx,
    }
}

pub open spec fn compute_iv(
    dest: Option<Seq<u8>>,
    comp: Seq<u8>,
    jump: Option<Seq<u8>>,
    idx: int,
) -> InstructionView {
    InstructionView {
        kind: InstructionKind::Compute,
        symbol: None,
        destination: dest,
        computation: Some(comp),
        jump: jump,
        address_index: idx,
    }
}

pub open spec fn invalid_iv() -> InstructionView {
    InstructionView {
        kind: InstructionKind::Invalid,
        symbol: None,
        destination: None,
        computation: None,
        jump: None,
        address_index: 0,
    }
}

/// The views of a sequence of instructions.
pub open spec fn seq_view(v: Seq<Instruction>) -> Seq<InstructionView> {
    Seq::new(v.len(), |i: int| v[i]@)
}

/// The `Invalid` placeholder for a line that carries no instruction.
pub fn invalid_instruction() -> (r: Instruction)
    ensures
        r@ == invalid_iv(),
        r@.wf(),
{
    Instruction {
        kind: InstructionKind::Invalid,
        symbol: None,
        destination: None,
        computation: None,
        jump: None,
        address_index: 0,
    }
}

} // verus!
