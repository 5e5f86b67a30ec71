//! Bit-pattern code generation: each resolved instruction becomes a
//! 16-character string of `0`/`1`. An A-instruction carries its 15-bit
//! address after a leading `0`; a C-instruction is `111` followed by the
//! computation (7 bits), destination (3 bits) and jump (3 bits) groups,
//! each read off a fixed mnemonic table.

use vstd::prelude::*;

use crate::bytes::byte_is_digit;
use crate::bytes::is1;
use crate::bytes::is2;
use crate::bytes::is3;
use crate::bytes::is_digit;
use crate::bytes::AMP;
use crate::bytes::BANG;
use crate::bytes::MINUS;
use crate::bytes::NEWLINE;
use crate::bytes::ONE;
use crate::bytes::PIPE;
use crate::bytes::PLUS;
use crate::bytes::ZERO;
use crate::instruction::opt_bytes_view;
use crate::instruction::seq_view;
use crate::instruction::AsmError;
use crate::instruction::Instruction;
use crate::instruction::InstructionKind;
use crate::instruction::InstructionView;
use crate::symbols::SymbolTable;

verus! {

// The mnemonic letters.
pub const CH_A: u8 = 65;  // 'A'
pub const CH_D: u8 = 68;  // 'D'
pub const CH_M: u8 = 77;  // 'M'
pub const CH_J: u8 = 74;  // 'J'
pub const CH_G: u8 = 71;  // 'G'
pub const CH_T: u8 = 84;  // 'T'
pub const CH_E: u8 = 69;  // 'E'
pub const CH_Q: u8 = 81;  // 'Q'
pub const CH_L: u8 = 76;  // 'L'
pub const CH_N: u8 = 78;  // 'N'
pub const CH_P: u8 = 80;  // 'P'

/// The value of a decimal numeral.
pub open spec fn dec_value(s: Seq<u8>) -> int
    decreases s.len(),
{
    if s.len() == 0 {
        0int
    } else {
        dec_value(s.drop_last()) * 10 + (s.last() - ZERO)
    }
}

/// Every byte of `s` is a decimal digit.
pub open spec fn all_digits(s: Seq<u8>) -> bool {
    forall|i: int| 0 <= i < s.len() ==> is_digit(s[i])
}

/// The `width` low bits of `val` as `0`/`1` characters, most significant
/// first.
pub open spec fn bits_of(val: u8, width: int) -> Seq<u8> {
    Seq::new(
        width as nat,
        |i: int|
            if (val >> ((width - 1 - i) as u8)) & 1 == 1 {
                ONE
            } else {
                ZERO
            },
    )
}

/// The 16 low bits of `n` as `0`/`1` characters, most significant first.
pub open spec fn bin16(n: int) -> Seq<u8> {
    Seq::new(
        16,
        |i: int|
            if ((n as u16) >> ((15 - i) as u16)) & 1 == 1 {
                ONE
            } else {
                ZERO
            },
    )
}

/// The destination table: the 8 legal combinations of the three writable
/// targets; absent means "discard result".
pub open spec fn dest_bits(d: Option<Seq<u8>>) -> Option<u8> {
    match d {
        None => Some(0b000u8),
        Some(s) => if s == seq![CH_M] {
            Some(0b001u8)
        } else if s == seq![CH_D] {
            Some(0b010u8)
        } else if s == seq![CH_M, CH_D] {
            Some(0b011u8)
        } else if s == seq![CH_A] {
            Some(0b100u8)
        } else if s == seq![CH_A, CH_M] {
            Some(0b101u8)
        } else if s == seq![CH_A, CH_D] {
            Some(0b110u8)
        } else if s == seq![CH_A, CH_M, CH_D] {
            Some(0b111u8)
        } else {
            None
        },
    }
}

/// The jump table: the 7 legal jump mnemonics; absent means "no jump".
pub open spec fn jump_bits(j: Option<Seq<u8>>) -> Option<u8> {
    match j {
        None => Some(0b000u8),
        Some(s) => if s == seq![CH_J, CH_G, CH_T] {
            Some(0b001u8)
        } else if s == seq![CH_J, CH_E, CH_Q] {
            Some(0b010u8)
        } else if s == seq![CH_J, CH_G, CH_E] {
            Some(0b011u8)
        } else if s == seq![CH_J, CH_L, CH_T] {
            Some(0b100u8)
        } else if s == seq![CH_J, CH_N, CH_E] {
            Some(0b101u8)
        } else if s == seq![CH_J, CH_L, CH_E] {
            Some(0b110u8)
        } else if s == seq![CH_J, CH_M, CH_P] {
            Some(0b111u8)
        } else {
            None
        },
    }
}

/// The computation table: the 28 legal mnemonic expressions. The leading
/// bit of the 7-bit group distinguishes the `M` forms from the `A` forms.
pub open spec fn comp_bits(c: Seq<u8>) -> Option<u8> {
    if c == seq![ZERO] {
        Some(0b0101010u8)
    } else if c == seq![ONE] {
        Some(0b0111111u8)
    } else if c == seq![MINUS, ONE] {
        Some(0b0111010u8)
    } else if c == seq![CH_D] {
        Some(0b0001100u8)
    } else if c == seq![CH_A] {
        Some(0b0110000u8)
    } else if c == seq![CH_M] {
        Some(0b1110000u8)
    } else if c == seq![BANG, CH_D] {
        Some(0b0001101u8)
    } else if c == seq![BANG, CH_A] {
        Some(0b0110001u8)
    } else if c == seq![BANG, CH_M] {
        Some(0b1110001u8)
    } else if c == seq![MINUS, CH_D] {
        Some(0b0001111u8)
    } else if c == seq![MINUS, CH_A] {
        Some(0b0110011u8)
    } else if c == seq![MINUS, CH_M] {
        Some(0b1110011u8)
    } else if c == seq![CH_D, PLUS, ONE] {
        Some(0b0011111u8)
    } else if c == seq![CH_A, PLUS, ONE] {
        Some(0b0110111u8)
    } else if c == seq![CH_M, PLUS, ONE] {
        Some(0b1110111u8)
    } else if c == seq![CH_D, MINUS, ONE] {
        Some(0b0001110u8)
    } else if c == seq![CH_A, MINUS, ONE] {
        Some(0b0110010u8)
    } else if c == seq![CH_M, MINUS, ONE] {
        Some(0b1110010u8)
    } else if c == seq![CH_D, PLUS, CH_A] {
        Some(0b0000010u8)
    } else if c == seq![CH_D, PLUS, CH_M] {
        Some(0b1000010u8)
    } else if c == seq![CH_D, MINUS, CH_A] {
        Some(0b0010011u8)
    } else if c == seq![CH_D, MINUS, CH_M] {
        Some(0b1010011u8)
    } else if c == seq![CH_A, MINUS, CH_D] {
        Some(0b0000111u8)
    } else if c == seq![CH_M, MINUS, CH_D] {
        Some(0b1000111u8)
    } else if c == seq![CH_D, AMP, CH_A] {
        Some(0b0000000u8)
    } else if c == seq![CH_D, AMP, CH_M] {
        Some(0b1000000u8)
    } else if c == seq![CH_D, PIPE, CH_A] {
        Some(0b0010101u8)
    } else if c == seq![CH_D, PIPE, CH_M] {
        Some(0b1010101u8)
    } else {
        None
    }
}

/// What code generation makes of one resolved instruction.
pub open spec fn translate_spec(iv: InstructionView, t: Map<Seq<u8>, int>) -> Result<
    Seq<u8>,
    AsmError,
>
    recommends
        iv.wf(),
        iv.kind == InstructionKind::Address || iv.kind == InstructionKind::Compute,
{
    if iv.kind == InstructionKind::Address {
        let sym = iv.symbol->Some_0;
        if is_digit(sym[0]) {
            if !all_digits(sym) {
                Err(AsmError::InvalidAddressLiteral)
            } else if dec_value(sym) > 32767 {
                Err(AsmError::AddressOutOfRange)
            } else {
                Ok(bin16(dec_value(sym)))
            }
        } else {
            if !t.contains_key(sym) {
                Err(AsmError::UndefinedSymbol)
            } else if !(0 <= t[sym] <= 32767) {
                Err(AsmError::AddressOutOfRange)
            } else {
                Ok(bin16(t[sym]))
            }
        }
    } else {
        match comp_bits(iv.computation->Some_0) {
            None => Err(AsmError::UnknownComputation),
            Some(c) => match dest_bits(iv.destination) {
                None => Err(AsmError::UnknownDestination),
                Some(d) => match jump_bits(iv.jump) {
                    None => Err(AsmError::UnknownJump),
                    Some(j) => Ok(
                        seq![ONE, ONE, ONE] + bits_of(c, 7) + bits_of(d, 3) + bits_of(j, 3),
                    ),
                },
            },
        }
    }
}

fn dest_code(d: &Option<Vec<u8>>) -> (r: Option<u8>)
    ensures
        r == dest_bits(opt_bytes_view(*d)),
{
    match d {
        None => Some(0b000),
        Some(s) => {
            if is1(s, CH_M) {
                Some(0b001)
            } else if is1(s, CH_D) {
                Some(0b010)
            } else if is2(s, CH_M, CH_D) {
                Some(0b011)
            } else if is1(s, CH_A) {
                Some(0b100)
            } else if is2(s, CH_A, CH_M) {
                Some(0b101)
            } else if is2(s, CH_A, CH_D) {
                Some(0b110)
            } else if is3(s, CH_A, CH_M, CH_D) {
                Some(0b111)
            } else {
                None
            }
        },
    }
}

fn jump_code(j: &Option<Vec<u8>>) -> (r: Option<u8>)
    ensures
        r == jump_bits(opt_bytes_view(*j)),
{
    match j {
        None => Some(0b000),
        Some(s) => {
            if is3(s, CH_J, CH_G, CH_T) {
                Some(0b001)
            } else if is3(s, CH_J, CH_E, CH_Q) {
                Some(0b010)
            } else if is3(s, CH_J, CH_G, CH_E) {
                Some(0b011)
            } else if is3(s, CH_J, CH_L, CH_T) {
                Some(0b100)
            } else if is3(s, CH_J, CH_N, CH_E) {
                Some(0b101)
            } else if is3(s, CH_J, CH_L, CH_E) {
                Some(0b110)
            } else if is3(s, CH_J, CH_M, CH_P) {
                Some(0b111)
            } else {
                None
            }
        },
    }
}

#[verifier::rlimit(30)]
fn comp_code(c: &Vec<u8>) -> (r: Option<u8>)
    ensures
        r == comp_bits(c@),
{
    if is1(c, ZERO) {
        Some(0b0101010)
    } else if is1(c, ONE) {
        Some(0b0111111)
    } else if is2(c, MINUS, ONE) {
        Some(0b0111010)
    } else if is1(c, CH_D) {
        Some(0b0001100)
    } else if is1(c, CH_A) {
        Some(0b0110000)
    } else if is1(c, CH_M) {
        Some(0b1110000)
    } else if is2(c, BANG, CH_D) {
        Some(0b0001101)
    } else if is2(c, BANG, CH_A) {
        Some(0b0110001)
    } else if is2(c, BANG, CH_M) {
        Some(0b1110001)
    } else if is2(c, MINUS, CH_D) {
        Some(0b0001111)
    } else if is2(c, MINUS, CH_A) {
        Some(0b0110011)
    } else if is2(c, MINUS, CH_M) {
        Some(0b1110011)
    } else if is3(c, CH_D, PLUS, ONE) {
        Some(0b0011111)
    } else if is3(c, CH_A, PLUS, ONE) {
        Some(0b0110111)
    } else if is3(c, CH_M, PLUS, ONE) {
        Some(0b1110111)
    } else if is3(c, CH_D, MINUS, ONE) {
        Some(0b0001110)
    } else if is3(c, CH_A, MINUS, ONE) {
        Some(0b0110010)
    } else if is3(c, CH_M, MINUS, ONE) {
        Some(0b1110010)
    } else if is3(c, CH_D, PLUS, CH_A) {
        Some(0b0000010)
    } else if is3(c, CH_D, PLUS, CH_M) {
        Some(0b1000010)
    } else if is3(c, CH_D, MINUS, CH_A) {
        Some(0b0010011)
    } else if is3(c, CH_D, MINUS, CH_M) {
        Some(0b1010011)
    } else if is3(c, CH_A, MINUS, CH_D) {
        Some(0b0000111)
    } else if is3(c, CH_M, MINUS, CH_D) {
        Some(0b1000111)
    } else if is3(c, CH_D, AMP, CH_A) {
        Some(0b0000000)
    } else if is3(c, CH_D, AMP, CH_M) {
        Some(0b1000000)
    } else if is3(c, CH_D, PIPE, CH_A) {
        Some(0b0010101)
    } else if is3(c, CH_D, PIPE, CH_M) {
        Some(0b1010101)
    } else {
        None
    }
}

/// Append the `width` low bits of `val`, as characters, to `out`.
fn push_bits(out: &mut Vec<u8>, val: u8, width: usize)
    requires
        width <= 8,
    ensures
        final(out)@ == old(out)@ + bits_of(val, width as int),
{
    proof {
        assert(out@ =~= out@ + bits_of(val, width as int).subrange(0, 0));
    }
    let mut i: usize = 0;
    while i < width
        invariant
            i <= width <= 8,
            out@ == old(out)@ + bits_of(val, width as int).subrange(0, i as int),
        decreases width - i,
    {
        let shift: u8 = (width - 1 - i) as u8;
        let bit = (val >> shift) & 1;
        out.push(if bit == 1 {
            ONE
        } else {
            ZERO
        });
        proof {
            assert(out@ =~= old(out)@ + bits_of(val, width as int).subrange(0, i + 1));
        }
        i = i + 1;
    }
    proof {
        assert(bits_of(val, width as int).subrange(0, width as int) =~= bits_of(
            val,
            width as int,
        ));
    }
}

/// The 16-character binary word for `n`.
fn to_bin16(n: u16) -> (r: Vec<u8>)
    ensures
        r@ == bin16(n as int),
{
    let mut r: Vec<u8> = Vec::new();
    let mut i: usize = 0;
    while i < 16
        invariant
            i <= 16,
            r@.len() == i,
            forall|k: int| 0 <= k < i ==> r@[k] == bin16(n as int)[k],
        decreases 16 - i,
    {
        let shift: u16 = (15 - i) as u16;
        let bit = (n >> shift) & 1;
        r.push(if bit == 1 {
            ONE
        } else {
            ZERO
        });
        i = i + 1;
    }
    proof {
        assert(r@ =~= bin16(n as int));
    }
    r
}

/// Read a decimal address literal: accepted exactly when every character
/// is a digit and the value fits the 15-bit address range.
fn parse_address_literal(s: &Vec<u8>) -> (r: Result<u16, AsmError>)
    requires
        s@.len() > 0,
    ensures
        match r {
            Ok(n) => all_digits(s@) && dec_value(s@) == n as int && n <= 32767,
            Err(e) => {
                ||| e == AsmError::InvalidAddressLiteral && !all_digits(s@)
                ||| e == AsmError::AddressOutOfRange && all_digits(s@) && dec_value(s@) > 32767
            },
        },
{
    let n = s.len();
    let mut i: usize = 0;
    while i < n
        invariant
            i <= n,
            n == s@.len(),
            forall|k: int| 0 <= k < i ==> is_digit(s@[k]),
        decreases n - i,
    {
        if !byte_is_digit(s[i]) {
            return Err(AsmError::InvalidAddressLiteral);
        }
        i = i + 1;
    }
    let mut acc: u32 = 0;
    let mut i: usize = 0;
    proof {
        assert(s@.subrange(0, 0) =~= Seq::<u8>::empty());
    }
    while i < n
        invariant
            i <= n,
            n == s@.len(),
            all_digits(s@),
            acc <= 32767,
            acc as int == dec_value(s@.subrange(0, i as int)),
        decreases n - i,
    {
        proof {
            assert(s@.subrange(0, i + 1).drop_last() =~= s@.subrange(0, i as int));
            assert(is_digit(s@[i as int]));
        }
        acc = acc * 10 + ((s[i] - ZERO) as u32);
        if acc > 32767 {
            proof {
                lemma_dec_value_prefix_le(s@, i + 1);
            }
            return Err(AsmError::AddressOutOfRange);
        }
        i = i + 1;
    }
    proof {
        assert(s@.subrange(0, n as int) =~= s@);
    }
    Ok(acc as u16)
}

/// A numeral is at least the value of any of its prefixes.
proof fn lemma_dec_value_prefix_le(s: Seq<u8>, i: int)
    requires
        all_digits(s),
        0 <= i <= s.len(),
    ensures
        dec_value(s.subrange(0, i)) <= dec_value(s),
    decreases s.len() - i,
{
    lemma_dec_value_nonneg(s.subrange(0, i));
    if i < s.len() {
        assert(s.subrange(0, i + 1).drop_last() =~= s.subrange(0, i));
        assert(is_digit(s[i]));
        lemma_dec_value_prefix_le(s, i + 1);
    } else {
        assert(s.subrange(0, i) =~= s);
    }
}

/// A numeral's value is non-negative.
proof fn lemma_dec_value_nonneg(s: Seq<u8>)
    requires
        all_digits(s),
    ensures
        dec_value(s) >= 0,
    decreases s.len(),
{
    if s.len() > 0 {
        assert(forall|k: int| 0 <= k < s.len() - 1 ==> is_digit(s.drop_last()[k]));
        lemma_dec_value_nonneg(s.drop_last());
        assert(is_digit(s.last()));
    }
}

/// Translate one resolved instruction into its 16-character binary word.
/// Labels and invalid lines are never handed to code generation.
pub fn translate(instruction: &Instruction, symbol_table: &SymbolTable) -> (r: Result<
    Vec<u8>,
    AsmError,
>)
    requires
        instruction@.wf(),
        instruction@.kind == InstructionKind::Address || instruction@.kind
            == InstructionKind::Compute,
        symbol_table.wf(),
    ensures
        match r {
            Ok(v) => translate_spec(instruction@, symbol_table@) == Ok::<_, AsmError>(v@)
                && v@.len() == 16,
            Err(e) => translate_spec(instruction@, symbol_table@) == Err::<Seq<u8>, _>(e),
        },
{
    if instruction.kind == InstructionKind::Address {
        match &instruction.symbol {
            None => {
                proof {
                    assert(false);
                }
                Err(AsmError::UndefinedSymbol)
            },
            Some(s) => {
                if byte_is_digit(s[0]) {
                    match parse_address_literal(s) {
                        Ok(n) => Ok(to_bin16(n)),
                        Err(e) => Err(e),
                    }
                } else {
                    match symbol_table.get(s) {
                        None => Err(AsmError::UndefinedSymbol),
                        Some(a) => {
                            if a > 32767 {
                                Err(AsmError::AddressOutOfRange)
                            } else {
                                Ok(to_bin16(a as u16))
                            }
                        },
                    }
                }
            },
        }
    } else {
        let comp_ref = match &instruction.computation {
            Some(c) => c,
            None => {
                proof {
                    assert(false);
                }
                return Err(AsmError::UnknownComputation);
            },
        };
        match comp_code(comp_ref) {
            None => Err(AsmError::UnknownComputation),
            Some(c) => match dest_code(&instruction.destination) {
                None => Err(AsmError::UnknownDestination),
                Some(d) => match jump_code(&instruction.jump) {
                    None => Err(AsmError::UnknownJump),
                    Some(jb) => {
                        let mut out: Vec<u8> = Vec::new();
                        out.push(ONE);
                        out.push(ONE);
                        out.push(ONE);
                        push_bits(&mut out, c, 7);
                        push_bits(&mut out, d, 3);
                        push_bits(&mut out, jb, 3);
                        proof {
                            assert(out@ =~= seq![ONE, ONE, ONE] + bits_of(c, 7) + bits_of(d, 3)
                                + bits_of(jb, 3));
                        }
                        Ok(out)
                    },
                },
            },
        }
    }
}


/// What the emitter produces: the binary words of every address and
/// compute instruction, in source order, each followed by a line feed;
/// labels and invalid lines contribute nothing. The first code-generation
/// failure aborts the run.
pub open spec fn emit_spec(lines: Seq<InstructionView>, t: Map<Seq<u8>, int>) -> Result<
    Seq<u8>,
    AsmError,
>
    decreases lines.len(),
{
    if lines.len() == 0 {
        Ok(Seq::empty())
    } else {
        match emit_spec(lines.drop_last(), t) {
            Err(er) => Err(er),
            Ok(acc) => {
                let l = lines.last();
                if l.kind == InstructionKind::Address || l.kind == InstructionKind::Compute {
                    match translate_spec(l, t) {
                        Err(er) => Err(er),
                        Ok(w) => Ok(acc + w + seq![NEWLINE]),
                    }
                } else {
                    Ok(acc)
                }
            },
        }
    }
}

/// A code-generation failure on a prefix of the instructions is the
/// failure of the whole emission.
proof fn lemma_emit_error_prefix(lines: Seq<InstructionView>, t: Map<Seq<u8>, int>, upto: int, e: AsmError)
    requires
        0 <= upto <= lines.len(),
        emit_spec(lines.subrange(0, upto), t) == Err::<Seq<u8>, _>(e),
    ensures
        emit_spec(lines, t) == Err::<Seq<u8>, _>(e),
    decreases lines.len() - upto,
{
    if upto < lines.len() {
        assert(lines.subrange(0, upto + 1).drop_last() =~= lines.subrange(0, upto));
        lemma_emit_error_prefix(lines, t, upto + 1, e);
    } else {
        assert(lines.subrange(0, upto) =~= lines);
    }
}

/// Emit the binary words for the whole instruction list against the
/// completed symbol table: one 16-character word per real instruction,
/// in source order, one per line.
pub fn second_pass(parsed_lines: &Vec<Instruction>, symbol_table: &SymbolTable) -> (r: Result<
    Vec<u8>,
    AsmError,
>)
    requires
        symbol_table.wf(),
        forall|k: int| 0 <= k < parsed_lines@.len() ==> (#[trigger] parsed_lines@[k]@).wf(),
    ensures
        match r {
            Ok(v) => emit_spec(seq_view(parsed_lines@), symbol_table@) == Ok::<_, AsmError>(v@),
            Err(e) => emit_spec(seq_view(parsed_lines@), symbol_table@) == Err::<Seq<u8>, _>(e),
        },
{
    let ghost ivs = seq_view(parsed_lines@);
    let n = parsed_lines.len();
    let mut out: Vec<u8> = Vec::new();
    let mut i: usize = 0;
    proof {
        assert(ivs.subrange(0, 0) =~= Seq::<InstructionView>::empty());
    }
    while i < n
        invariant
            i <= n,
            n == parsed_lines@.len(),
            ivs == seq_view(parsed_lines@),
            symbol_table.wf(),
            forall|k: int| 0 <= k < parsed_lines@.len() ==> (#[trigger] parsed_lines@[k]@).wf(),
            emit_spec(ivs.subrange(0, i as int), symbol_table@) == Ok::<_, AsmError>(out@),
        decreases n - i,
    {
        proof {
            assert(ivs.subrange(0, i + 1).drop_last() =~= ivs.subrange(0, i as int));
            assert(ivs.subrange(0, i + 1).last() == ivs[i as int]);
        }
        let inst = &parsed_lines[i];
        if inst.kind == InstructionKind::Address || inst.kind == InstructionKind::Compute {
            match translate(inst, symbol_table) {
                Ok(mut w) => {
                    let ghost prev = out@;
                    let ghost wv = w@;
                    out.append(&mut w);
                    out.push(NEWLINE);
                    proof {
                        assert(out@ =~= prev + wv + seq![NEWLINE]);
                    }
                },
                Err(e) => {
                    proof {
                        lemma_emit_error_prefix(ivs, symbol_table@, i + 1, e);
                    }
                    return Err(e);
                },
            }
        }
        i = i + 1;
    }
    proof {
        assert(ivs.subrange(0, n as int) =~= ivs);
    }
    Ok(out)
}


/// A 15-bit value has a zero leading bit in its 16-character word.
proof fn lemma_bin16_leading_zero(n: int)
    requires
        0 <= n <= 32767,
    ensures
        bin16(n)[0] == ZERO,
{
    let m = n as u16;
    assert((m >> 15u16) & 1 == 0) by (bit_vector)
        requires
            m <= 32767,
    ;
}

/// For every well-formed A-instruction whose symbol is the numeral of a
/// value `n` with 0 ≤ n ≤ 32767, code generation returns `n`'s 16-bit
/// binary representation, whose leading character is `0`, whatever the
/// symbol table holds.
pub proof fn lemma_numeric_address_encoding(iv: InstructionView, t: Map<Seq<u8>, int>, n: int)
    requires
        iv.wf(),
        iv.kind == InstructionKind::Address,
        all_digits(iv.symbol->Some_0),
        dec_value(iv.symbol->Some_0) == n,
        0 <= n <= 32767,
    ensures
        translate_spec(iv, t) == Ok::<_, AsmError>(bin16(n)),
        bin16(n).len() == 16,
        bin16(n)[0] == ZERO,
{
    let sym = iv.symbol->Some_0;
    assert(is_digit(sym[0]));
    lemma_bin16_leading_zero(n);
}


/// The emitter writes one 17-byte line — 16 word characters and a line
/// feed — for each real instruction, and nothing else.
pub proof fn lemma_emit_line_count(lines: Seq<InstructionView>, t: Map<Seq<u8>, int>)
    requires
        emit_spec(lines, t) is Ok,
    ensures
        emit_spec(lines, t)->Ok_0.len() == 17 * crate::parser::count_real(lines),
    decreases lines.len(),
{
    if lines.len() > 0 {
        lemma_emit_line_count(lines.drop_last(), t);
    }
}

} // verus!
