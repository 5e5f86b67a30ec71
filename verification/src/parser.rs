//! Field-level instruction parsing. A compact line (no whitespace,
//! non-empty) is classified by its leading character: `@` starts an
//! A-instruction, `(` a label pseudo-instruction, anything else a
//! C-instruction built from the `destination = computation ; jump`
//! template, where `destination=` and `;jump` are each optional.

use vstd::prelude::*;

use crate::bytes::find_byte;
use crate::bytes::{AT, LPAREN, RPAREN, EQUALS, PLUS, AMP, PIPE, MINUS, BANG, SEMI};
use crate::bytes::find_byte2;
use crate::bytes::find_byte3;
use crate::bytes::find_byte2_at;
use crate::bytes::find_byte3_at;
use crate::bytes::find_byte_at;
use crate::bytes::push_range;
use crate::bytes::sub_bytes;
use crate::bytes::split_lines;
use crate::bytes::split_lines_spec;
use crate::bytes::lines_view;
use crate::instruction::invalid_instruction;
use crate::instruction::seq_view;
use crate::preprocess::preprocess_line;
use crate::instruction::address_iv;
use crate::instruction::compute_iv;
use crate::instruction::label_iv;
use crate::instruction::opt_bytes_view;
use crate::instruction::AsmError;
use crate::instruction::Instruction;
use crate::instruction::InstructionKind;
use crate::instruction::InstructionView;

verus! {

/// The destination field and the opening of the computation capture.
/// With an `=` present, everything before it is the destination and the
/// computation capture begins with the single character after the `=`;
/// an `=` as the last character leaves the capture without an operand.
pub open spec fn split_destination(s: Seq<u8>) -> Result<(Option<Seq<u8>>, Seq<u8>), AsmError> {
    match find_byte(s, EQUALS, 0) {
        None => Ok((None, Seq::empty())),
        Some(e) => if e + 1 < s.len() {
            Ok((Some(s.subrange(0, e)), seq![s[e + 1]]))
        } else {
            Err(AsmError::MalformedCompute)
        },
    }
}

/// The always-binary operators `+`, `&`, `|`: three characters in all.
/// After a destination the capture already holds the left operand, so the
/// operator and right operand are appended; without one, all three
/// characters are taken, starting one position left of the operator.
pub open spec fn capture_binary_op(s: Seq<u8>, has_eq: bool, comp: Seq<u8>) -> Result<
    Seq<u8>,
    AsmError,
> {
    match find_byte3(s, PLUS, AMP, PIPE, 0) {
        None => Ok(comp),
        Some(p) => if has_eq {
            if p + 2 <= s.len() {
                Ok(comp + s.subrange(p, p + 2))
            } else {
                Err(AsmError::MalformedCompute)
            }
        } else {
            if 1 <= p && p + 2 <= s.len() {
                Ok(comp + s.subrange(p - 1, p + 2))
            } else {
                Err(AsmError::MalformedCompute)
            }
        },
    }
}

/// The operators `-` and `!`, unary or binary. At the first position they
/// are unary and the two-character token is the computation; immediately
/// after an `=` they are unary negation on the already-begun capture;
/// anywhere else they are binary, captured like `+`, `&`, `|`.
pub open spec fn capture_minus_bang(s: Seq<u8>, has_eq: bool, comp: Seq<u8>) -> Result<
    Seq<u8>,
    AsmError,
> {
    match find_byte2(s, MINUS, BANG, 0) {
        None => Ok(comp),
        Some(p) => if p == 0 {
            if s.len() >= 2 {
                Ok(comp + s.subrange(0, 2))
            } else {
                Err(AsmError::MalformedCompute)
            }
        } else if s[p - 1] == EQUALS {
            if p + 1 < s.len() {
                Ok(comp.push(s[p + 1]))
            } else {
                Err(AsmError::MalformedCompute)
            }
        } else {
            if p + 2 <= s.len() {
                if has_eq {
                    Ok(comp + s.subrange(p, p + 2))
                } else {
                    Ok(comp + s.subrange(p - 1, p + 2))
                }
            } else {
                Err(AsmError::MalformedCompute)
            }
        },
    }
}

/// The jump field: the three characters after `;` (fewer when the line
/// ends first). When no `=` and no operator preceded the `;`, the
/// computation is a bare register reference, the single character
/// immediately before the `;`.
pub open spec fn capture_jump(s: Seq<u8>, has_op: bool, comp: Seq<u8>) -> Result<
    (Seq<u8>, Option<Seq<u8>>),
    AsmError,
> {
    match find_byte(s, SEMI, 0) {
        None => Ok((comp, None)),
        Some(p) => {
            let hi = if p + 4 <= s.len() {
                p + 4
            } else {
                s.len() as int
            };
            let jump = s.subrange(p + 1, hi);
            if has_op {
                Ok((comp, Some(jump)))
            } else if p >= 1 {
                Ok((comp.push(s[p - 1]), Some(jump)))
            } else {
                Err(AsmError::MalformedCompute)
            }
        },
    }
}

/// A compute instruction parsed from the compact line `s`: the four
/// captures in order, then the demand that a computation was captured and
/// that the instruction has an effect (a destination or a jump).
pub open spec fn parse_compute_spec(s: Seq<u8>, idx: int) -> Result<InstructionView, AsmError> {
    let has_eq = find_byte(s, EQUALS, 0) is Some;
    let has_op = has_eq || find_byte3(s, PLUS, AMP, PIPE, 0) is Some || find_byte2(
        s,
        MINUS,
        BANG,
        0,
    ) is Some;
    match split_destination(s) {
        Err(er) => Err(er),
        Ok((dest, c0)) => match capture_binary_op(s, has_eq, c0) {
            Err(er) => Err(er),
            Ok(c1) => match capture_minus_bang(s, has_eq, c1) {
                Err(er) => Err(er),
                Ok(c2) => match capture_jump(s, has_op, c2) {
                    Err(er) => Err(er),
                    Ok((c3, jump)) => if c3.len() == 0 {
                        Err(AsmError::MalformedCompute)
                    } else if dest is None && jump is None {
                        Err(AsmError::MalformedCompute)
                    } else {
                        Ok(compute_iv(dest, c3, jump, idx))
                    },
                },
            },
        },
    }
}

/// One compact line parsed into an instruction, by leading character.
pub open spec fn parse_line_spec(s: Seq<u8>, idx: int) -> Result<InstructionView, AsmError>
    recommends
        s.len() > 0,
{
    if s[0] == AT {
        if s.len() == 1 {
            Err(AsmError::EmptyAddressSymbol)
        } else {
            Ok(address_iv(s.subrange(1, s.len() as int), idx))
        }
    } else if s[0] == LPAREN {
        match find_byte(s, RPAREN, 0) {
            None => Err(AsmError::UnmatchedLabel),
            Some(p) => Ok(label_iv(s.subrange(1, p), idx)),
        }
    } else {
        parse_compute_spec(s, idx)
    }
}

fn parse_compute(line: &Vec<u8>, address_index: usize) -> (r: Result<Instruction, AsmError>)
    requires
        line@.len() > 0,
        line@[0] != AT,
        line@[0] != LPAREN,
    ensures
        match r {
            Ok(inst) => parse_compute_spec(line@, address_index as int) == Ok::<InstructionView, AsmError>(inst@),
            Err(e) => parse_compute_spec(line@, address_index as int) == Err::<InstructionView, AsmError>(e),
        },
{
    let n = line.len();
    let e = find_byte_at(line, EQUALS, 0);
    let p1 = find_byte3_at(line, PLUS, AMP, PIPE, 0);
    let p2 = find_byte2_at(line, MINUS, BANG, 0);
    let j = find_byte_at(line, SEMI, 0);
    let ghost has_eq = find_byte(line@, EQUALS, 0) is Some;
    let ghost has_op = has_eq || find_byte3(line@, PLUS, AMP, PIPE, 0) is Some || find_byte2(
        line@,
        MINUS,
        BANG,
        0,
    ) is Some;

    let mut comp: Vec<u8> = Vec::new();
    let mut dest: Option<Vec<u8>> = None;
    match e {
        None => {},
        Some(epos) => {
            if epos == n - 1 {
                return Err(AsmError::MalformedCompute);
            }
            dest = Some(sub_bytes(line, 0, epos));
            comp.push(line[epos + 1]);
        },
    }
    proof {
        assert(split_destination(line@) == Ok::<_, AsmError>((opt_bytes_view(dest), comp@)));
    }
    let ghost c0 = comp@;

    match p1 {
        None => {},
        Some(p) => {
            if e.is_some() {
                if p == n - 1 {
                    return Err(AsmError::MalformedCompute);
                }
                push_range(&mut comp, line, p, p + 2);
            } else {
                if p == 0 || p == n - 1 {
                    return Err(AsmError::MalformedCompute);
                }
                push_range(&mut comp, line, p - 1, p + 2);
            }
        },
    }
    proof {
        assert(capture_binary_op(line@, has_eq, c0) == Ok::<_, AsmError>(comp@));
    }
    let ghost c1 = comp@;

    match p2 {
        None => {},
        Some(p) => {
            if p == 0 {
                if n < 2 {
                    return Err(AsmError::MalformedCompute);
                }
                push_range(&mut comp, line, 0, 2);
            } else if line[p - 1] == EQUALS {
                if p == n - 1 {
                    return Err(AsmError::MalformedCompute);
                }
                comp.push(line[p + 1]);
            } else {
                if p == n - 1 {
                    return Err(AsmError::MalformedCompute);
                }
                if e.is_some() {
                    push_range(&mut comp, line, p, p + 2);
                } else {
                    push_range(&mut comp, line, p - 1, p + 2);
                }
            }
        },
    }
    proof {
        assert(capture_minus_bang(line@, has_eq, c1) == Ok::<_, AsmError>(comp@));
    }
    let ghost c2 = comp@;

    let mut jump: Option<Vec<u8>> = None;
    match j {
        None => {},
        Some(p) => {
            let rem = n - p - 1;
            let hi = if rem >= 3 {
                p + 4
            } else {
                n
            };
            jump = Some(sub_bytes(line, p + 1, hi));
            if !(e.is_some() || p1.is_some() || p2.is_some()) {
                if p == 0 {
                    return Err(AsmError::MalformedCompute);
                }
                comp.push(line[p - 1]);
            }
        },
    }
    proof {
        assert(capture_jump(line@, has_op, c2) == Ok::<_, AsmError>((comp@, opt_bytes_view(jump))));
    }

    if comp.len() == 0 {
        return Err(AsmError::MalformedCompute);
    }
    if dest.is_none() && jump.is_none() {
        return Err(AsmError::MalformedCompute);
    }
    Ok(
        Instruction {
            kind: InstructionKind::Compute,
            symbol: None,
            destination: dest,
            computation: Some(comp),
            jump,
            address_index,
        },
    )
}

/// Parse one compact instruction line. The line must be non-empty; parse
/// failures report exactly the structural assumption that was violated.
pub fn parse_line(line: &Vec<u8>, address_index: usize) -> (r: Result<Instruction, AsmError>)
    requires
        line@.len() > 0,
    ensures
        match r {
            Ok(inst) => parse_line_spec(line@, address_index as int) == Ok::<InstructionView, AsmError>(inst@) && inst@.wf(),
            Err(e) => parse_line_spec(line@, address_index as int) == Err::<InstructionView, AsmError>(e),
        },
{
    let n = line.len();
    if line[0] == AT {
        if n == 1 {
            Err(AsmError::EmptyAddressSymbol)
        } else {
            Ok(
                Instruction {
                    kind: InstructionKind::Address,
                    symbol: Some(sub_bytes(line, 1, n)),
                    destination: None,
                    computation: None,
                    jump: None,
                    address_index,
                },
            )
        }
    } else if line[0] == LPAREN {
        match find_byte_at(line, RPAREN, 0) {
            None => Err(AsmError::UnmatchedLabel),
            Some(p) => Ok({
                proof {
                    crate::bytes::lemma_find_byte_some(line@, RPAREN, 0);
                }
                Instruction {
                    kind: InstructionKind::Label,
                    symbol: Some(sub_bytes(line, 1, p)),
                    destination: None,
                    computation: None,
                    jump: None,
                    address_index,
                }
            }),
        }
    } else {
        let r = parse_compute(line, address_index);
        proof {
            lemma_parse_compute_wf(line@, address_index as int);
        }
        r
    }
}

/// The number of instructions that occupy a slot of instruction memory:
/// address and compute instructions, labels and invalid lines excluded.
pub open spec fn count_real(ivs: Seq<InstructionView>) -> int
    decreases ivs.len(),
{
    if ivs.len() == 0 {
        0int
    } else {
        count_real(ivs.drop_last()) + if ivs.last().kind == InstructionKind::Address
            || ivs.last().kind == InstructionKind::Compute {
            1int
        } else {
            0int
        }
    }
}

/// What parsing makes of the source lines, in order: each line is
/// preprocessed, a blank or comment line becomes the `Invalid`
/// placeholder, and each compact line is parsed with the next free
/// instruction-memory slot as its address index (a label receives the
/// index of the next real instruction without occupying it). The first
/// parse failure aborts the run.
pub open spec fn parse_lines_spec(lines: Seq<Seq<u8>>) -> Result<Seq<InstructionView>, AsmError>
    decreases lines.len(),
{
    if lines.len() == 0 {
        Ok(Seq::empty())
    } else {
        match parse_lines_spec(lines.drop_last()) {
            Err(er) => Err(er),
            Ok(ivs) => match crate::preprocess::preprocess_spec(lines.last()) {
                None => Ok(ivs.push(crate::instruction::invalid_iv())),
                Some(u) => match parse_line_spec(u, count_real(ivs)) {
                    Ok(iv) => Ok(ivs.push(iv)),
                    Err(er) => Err(er),
                },
            },
        }
    }
}

/// Split the source text into lines and parse each one, keeping the
/// per-line results in source order; invalid lines stay as placeholders
/// so that the symbol-table passes can skip them.
pub fn parse_each_line(contents: &Vec<u8>) -> (r: Result<Vec<Instruction>, AsmError>)
    ensures
        match r {
            Ok(v) => {
                &&& parse_lines_spec(split_lines_spec(contents@)) == Ok::<_, AsmError>(
                    seq_view(v@),
                )
                &&& forall|k: int| 0 <= k < v@.len() ==> (#[trigger] v@[k]@).wf()
                &&& v@.len() <= contents@.len()
            },
            Err(e) => parse_lines_spec(split_lines_spec(contents@)) == Err::<
                Seq<InstructionView>,
                _,
            >(e),
        },
{
    let lines = split_lines(contents);
    let ghost lv = lines_view(lines@);
    let mut out: Vec<Instruction> = Vec::new();
    let mut next_idx: usize = 0;
    let mut i: usize = 0;
    proof {
        assert(lv.subrange(0, 0) =~= Seq::<Seq<u8>>::empty());
        assert(seq_view(out@) =~= Seq::<InstructionView>::empty());
    }
    while i < lines.len()
        invariant
            i <= lines@.len(),
            lv == lines_view(lines@),
            lv == split_lines_spec(contents@),
            lv.len() == lines@.len(),
            lines@.len() <= contents@.len(),
            next_idx <= i,
            parse_lines_spec(lv.subrange(0, i as int)) == Ok::<_, AsmError>(seq_view(out@)),
            next_idx == count_real(seq_view(out@)),
            out@.len() == i,
            forall|k: int| 0 <= k < out@.len() ==> (#[trigger] out@[k]@).wf(),
        decreases lines@.len() - i,
    {
        let ghost prev = seq_view(out@);
        let line_ref = &lines[i];
        let inst = match preprocess_line(line_ref) {
            None => invalid_instruction(),
            Some(u) => {
                proof {
                    crate::preprocess::lemma_preprocess_output(line_ref@);
                }
                match parse_line(&u, next_idx) {
                    Ok(inst) => inst,
                    Err(e) => {
                        proof {
                            assert(lv.subrange(0, i + 1).drop_last() =~= lv.subrange(0, i as int));
                            assert(lv.subrange(0, i + 1).last() == lv[i as int]);
                            assert(line_ref@ == lv[i as int]);
                            assert(parse_lines_spec(lv.subrange(0, i + 1)) == Err::<
                                Seq<InstructionView>,
                                _,
                            >(e));
                            assert(lv.subrange(0, lv.len() as int) =~= lv);
                            lemma_parse_lines_error_prefix(lv, i + 1, e);
                        }
                        return Err(e);
                    },
                }
            },
        };
        let is_real = inst.kind == InstructionKind::Address || inst.kind
            == InstructionKind::Compute;
        out.push(inst);
        if is_real {
            next_idx = next_idx + 1;
        }
        proof {
            assert(seq_view(out@) =~= prev.push(inst@));
            assert(seq_view(out@).drop_last() =~= prev);
            assert(lv.subrange(0, i + 1).drop_last() =~= lv.subrange(0, i as int));
            assert(lv.subrange(0, i + 1).last() == lv[i as int]);
        }
        i = i + 1;
    }
    proof {
        assert(lv.subrange(0, lv.len() as int) =~= lv);
    }
    Ok(out)
}

/// A parse failure on some prefix of the lines is the failure of the
/// whole run: the lines after it are never reached.
proof fn lemma_parse_lines_error_prefix(lines: Seq<Seq<u8>>, upto: int, e: AsmError)
    requires
        0 <= upto <= lines.len(),
        parse_lines_spec(lines.subrange(0, upto)) == Err::<Seq<InstructionView>, _>(e),
    ensures
        parse_lines_spec(lines) == Err::<Seq<InstructionView>, _>(e),
    decreases lines.len() - upto,
{
    if upto < lines.len() {
        assert(lines.subrange(0, upto + 1).drop_last() =~= lines.subrange(0, upto));
        lemma_parse_lines_error_prefix(lines, upto + 1, e);
    } else {
        assert(lines.subrange(0, upto) =~= lines);
    }
}


/// An accepted parse keeps the index it was given.
proof fn lemma_parse_line_index(s: Seq<u8>, idx: int)
    ensures
        parse_line_spec(s, idx) matches Ok(iv) ==> iv.address_index == idx,
{
}

/// In a parsed program, every instruction except the `Invalid`
/// placeholders carries the number of real instructions before it: a real
/// instruction's slot in instruction memory, and for a label the slot of
/// the next real instruction.
pub proof fn lemma_parse_lines_indices(lines: Seq<Seq<u8>>)
    requires
        parse_lines_spec(lines) is Ok,
    ensures
        ({
            let ivs = parse_lines_spec(lines)->Ok_0;
            forall|i: int|
                0 <= i < ivs.len() && (#[trigger] ivs[i]).kind != InstructionKind::Invalid
                    ==> ivs[i].address_index == count_real(ivs.subrange(0, i))
        }),
    decreases lines.len(),
{
    let ivs = parse_lines_spec(lines)->Ok_0;
    if lines.len() > 0 {
        lemma_parse_lines_indices(lines.drop_last());
        let pivs = parse_lines_spec(lines.drop_last())->Ok_0;
        assert(ivs.subrange(0, pivs.len() as int) =~= pivs);
        assert(forall|i: int|
            0 <= i <= pivs.len() ==> ivs.subrange(0, i) =~= pivs.subrange(0, i));
        match crate::preprocess::preprocess_spec(lines.last()) {
            None => {},
            Some(u) => {
                lemma_parse_line_index(u, count_real(pivs));
            },
        }
    }
}

/// Real instructions between `i` and `j` being absent, both positions
/// count the same occupied slots.
proof fn lemma_count_real_extend(ivs: Seq<InstructionView>, i: int, j: int)
    requires
        0 <= i <= j <= ivs.len(),
        forall|m: int|
            i <= m < j ==> ((#[trigger] ivs[m]).kind == InstructionKind::Label || ivs[m].kind
                == InstructionKind::Invalid),
    ensures
        count_real(ivs.subrange(0, j)) == count_real(ivs.subrange(0, i)),
    decreases j - i,
{
    if j > i {
        assert(ivs.subrange(0, j).drop_last() =~= ivs.subrange(0, j - 1));
        assert(ivs.subrange(0, j).last() == ivs[j - 1]);
        lemma_count_real_extend(ivs, i, j - 1);
    }
}

/// A label occupies no slot: it carries the address index of the first
/// real instruction that follows it, however many labels and blank lines
/// stand between.
pub proof fn lemma_label_shares_next_slot(lines: Seq<Seq<u8>>, i: int, j: int)
    requires
        parse_lines_spec(lines) is Ok,
        ({
            let ivs = parse_lines_spec(lines)->Ok_0;
            &&& 0 <= i < j < ivs.len()
            &&& ivs[i].kind == InstructionKind::Label
            &&& ivs[j].kind == InstructionKind::Address || ivs[j].kind
                == InstructionKind::Compute
            &&& forall|m: int|
                i < m < j ==> ((#[trigger] ivs[m]).kind == InstructionKind::Label || ivs[m].kind
                    == InstructionKind::Invalid)
        }),
    ensures
        ({
            let ivs = parse_lines_spec(lines)->Ok_0;
            ivs[j].address_index == ivs[i].address_index
        }),
{
    let ivs = parse_lines_spec(lines)->Ok_0;
    lemma_parse_lines_indices(lines);
    lemma_count_real_extend(ivs, i, j);
}

/// Whatever the parser accepts satisfies the population invariant: in
/// particular a compute instruction always carries a computation and at
/// least one of destination and jump.
pub proof fn lemma_parse_compute_wf(s: Seq<u8>, idx: int)
    requires
        0 <= idx <= usize::MAX,
    ensures
        parse_compute_spec(s, idx) matches Ok(iv) ==> iv.wf(),
{
}

/// Every instruction the parser hands out is well formed; a compute
/// instruction with neither destination nor jump is rejected as malformed.
pub proof fn lemma_parse_line_wf(s: Seq<u8>, idx: int)
    requires
        s.len() > 0,
        0 <= idx <= usize::MAX,
    ensures
        parse_line_spec(s, idx) matches Ok(iv) ==> iv.wf(),
{
    lemma_parse_compute_wf(s, idx);
}

/// A standalone computation is not an instruction: a compute line with
/// no `=` and no `;` — so with neither destination nor jump — is
/// rejected as malformed, never encoded as a no-op.
pub proof fn lemma_bare_compute_rejected(s: Seq<u8>, idx: int)
    requires
        s.len() > 0,
        s[0] != AT,
        s[0] != LPAREN,
        find_byte(s, EQUALS, 0) is None,
        find_byte(s, SEMI, 0) is None,
    ensures
        parse_line_spec(s, idx) is Err,
{
}

} // verus!
