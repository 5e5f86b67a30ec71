//! The symbol table and the two resolution passes. Pass 1 binds every
//! label name to the instruction-memory index of the next real
//! instruction; pass 2 binds every still-unbound non-numeric address
//! symbol to the next free RAM address, starting at 16. The order is
//! load-bearing: labels must all be bound before any variable address is
//! allocated, else a forward-referenced label would be misallocated as a
//! variable. A name already bound is never rebound: first binding wins.

use vstd::prelude::*;

use crate::bytes::bytes_eq;
use crate::bytes::is_digit;
use crate::instruction::seq_view;
use crate::instruction::Instruction;
use crate::instruction::InstructionKind;
use crate::instruction::InstructionView;

verus! {

/// A name → address mapping with unique keys, held as an association list.
pub struct SymbolTable {
    entries: Vec<(Vec<u8>, usize)>,
}

/// The mapping an association list denotes.
spec fn entries_map(s: Seq<(Vec<u8>, usize)>) -> Map<Seq<u8>, int>
    decreases s.len(),
{
    if s.len() == 0 {
        Map::empty()
    } else {
        entries_map(s.drop_last()).insert(s.last().0@, s.last().1 as int)
    }
}

impl View for SymbolTable {
    type V = Map<Seq<u8>, int>;

    closed spec fn view(&self) -> Map<Seq<u8>, int> {
        entries_map(self.entries@)
    }
}

/// A key is in the denoted mapping exactly when some entry carries it.
proof fn lemma_entries_map_contains(s: Seq<(Vec<u8>, usize)>, k: Seq<u8>)
    ensures
        entries_map(s).contains_key(k) <==> exists|i: int| 0 <= i < s.len() && s[i].0@ == k,
    decreases s.len(),
{
    if s.len() > 0 {
        lemma_entries_map_contains(s.drop_last(), k);
        if entries_map(s).contains_key(k) {
            if s.last().0@ == k {
                assert(s[s.len() - 1].0@ == k);
            } else {
                let i = choose|i: int| 0 <= i < s.len() - 1 && s.drop_last()[i].0@ == k;
                assert(s[i].0@ == k);
            }
        }
        if exists|i: int| 0 <= i < s.len() && s[i].0@ == k {
            let i = choose|i: int| 0 <= i < s.len() && s[i].0@ == k;
            if i < s.len() - 1 {
                assert(s.drop_last()[i].0@ == k);
            }
        }
    }
}

/// With unique keys, the entry that carries a key gives its value.
proof fn lemma_entries_map_value(s: Seq<(Vec<u8>, usize)>, i: int)
    requires
        forall|a: int, b: int| 0 <= a < b < s.len() ==> s[a].0@ != s[b].0@,
        0 <= i < s.len(),
    ensures
        entries_map(s).contains_key(s[i].0@),
        entries_map(s)[s[i].0@] == s[i].1 as int,
    decreases s.len(),
{
    if i == s.len() - 1 {
    } else {
        assert(forall|a: int, b: int|
            0 <= a < b < s.len() - 1 ==> s.drop_last()[a].0@ != s.drop_last()[b].0@);
        lemma_entries_map_value(s.drop_last(), i);
        assert(s.last().0@ != s[i].0@);
    }
}

impl SymbolTable {
    /// No two entries carry the same name.
    pub closed spec fn wf(self) -> bool {
        forall|a: int, b: int|
            0 <= a < b < self.entries@.len() ==> self.entries@[a].0@ != self.entries@[b].0@
    }

    /// An empty table, before any name is bound.
    pub fn empty() -> (r: SymbolTable)
        ensures
            r.wf(),
            r@ == Map::<Seq<u8>, int>::empty(),
    {
        SymbolTable { entries: Vec::new() }
    }

    /// Whether `name` is bound.
    pub fn contains(&self, name: &Vec<u8>) -> (r: bool)
        ensures
            r == self@.contains_key(name@),
    {
        let n = self.entries.len();
        let mut i: usize = 0;
        while i < n
            invariant
                i <= n,
                n == self.entries@.len(),
                forall|j: int| 0 <= j < i ==> self.entries@[j].0@ != name@,
            decreases n - i,
        {
            if bytes_eq(&self.entries[i].0, name) {
                proof {
                    lemma_entries_map_contains(self.entries@, name@);
                }
                return true;
            }
            i = i + 1;
        }
        proof {
            lemma_entries_map_contains(self.entries@, name@);
        }
        false
    }

    /// The address bound to `name`, if any.
    pub fn get(&self, name: &Vec<u8>) -> (r: Option<usize>)
        requires
            self.wf(),
        ensures
            match r {
                Some(a) => self@.contains_key(name@) && self@[name@] == a as int,
                None => !self@.contains_key(name@),
            },
    {
        let n = self.entries.len();
        let mut i: usize = 0;
        while i < n
            invariant
                i <= n,
                n == self.entries@.len(),
                self.wf(),
                forall|j: int| 0 <= j < i ==> self.entries@[j].0@ != name@,
            decreases n - i,
        {
            if bytes_eq(&self.entries[i].0, name) {
                proof {
                    lemma_entries_map_value(self.entries@, i as int);
                }
                return Some(self.entries[i].1);
            }
            i = i + 1;
        }
        proof {
            lemma_entries_map_contains(self.entries@, name@);
        }
        None
    }

    /// The 23 fixed entries every assembly run starts from: the registers
    /// `R0`–`R15`, the aliases `SP`, `LCL`, `ARG`, `THIS`, `THAT`, and the
    /// device addresses `SCREEN` and `KBD`.
    #[verifier::rlimit(100)]
    pub fn new() -> (r: SymbolTable)
        ensures
            r.wf(),
            r@ == predefined_map(),
    {
        let mut t = SymbolTable::empty();
        t.insert(key2(83, 80), 0);  // SP
        t.insert(key2(82, 48), 0);  // R0
        t.insert(key3(76, 67, 76), 1);  // LCL
        t.insert(key2(82, 49), 1);  // R1
        t.insert(key3(65, 82, 71), 2);  // ARG
        t.insert(key2(82, 50), 2);  // R2
        t.insert(key4(84, 72, 73, 83), 3);  // THIS
        t.insert(key2(82, 51), 3);  // R3
        t.insert(key4(84, 72, 65, 84), 4);  // THAT
        t.insert(key2(82, 52), 4);  // R4
        t.insert(key2(82, 53), 5);  // R5
        t.insert(key2(82, 54), 6);  // R6
        t.insert(key2(82, 55), 7);  // R7
        t.insert(key2(82, 56), 8);  // R8
        t.insert(key2(82, 57), 9);  // R9
        proof {
            // `R1` is a prefix of `R10`…`R15`: the length tells them apart.
            assert(seq![82u8, 49u8].len() == 2);
            assert(seq![82u8, 49u8, 48u8].len() == 3);
            assert(seq![82u8, 49u8, 49u8].len() == 3);
            assert(seq![82u8, 49u8, 50u8].len() == 3);
            assert(seq![82u8, 49u8, 51u8].len() == 3);
            assert(seq![82u8, 49u8, 52u8].len() == 3);
            assert(seq![82u8, 49u8, 53u8].len() == 3);
        }
        t.insert(key3(82, 49, 48), 10);  // R10
        t.insert(key3(82, 49, 49), 11);  // R11
        t.insert(key3(82, 49, 50), 12);  // R12
        t.insert(key3(82, 49, 51), 13);  // R13
        t.insert(key3(82, 49, 52), 14);  // R14
        t.insert(key3(82, 49, 53), 15);  // R15
        t.insert(key6(83, 67, 82, 69, 69, 78), 16384);  // SCREEN
        t.insert(key3(75, 66, 68), 24576);  // KBD
        t
    }

    /// Bind a fresh name.
    fn insert(&mut self, name: Vec<u8>, addr: usize)
        requires
            old(self).wf(),
            !old(self)@.contains_key(name@),
        ensures
            final(self).wf(),
            final(self)@ == old(self)@.insert(name@, addr as int),
    {
        proof {
            lemma_entries_map_contains(self.entries@, name@);
        }
        let ghost prev = self.entries@;
        self.entries.push((name, addr));
        proof {
            assert(self.entries@.drop_last() =~= prev);
        }
    }
}

fn key2(a: u8, b: u8) -> (r: Vec<u8>)
    ensures
        r@ == seq![a, b],
{
    let mut v: Vec<u8> = Vec::new();
    v.push(a);
    v.push(b);
    proof {
        assert(v@ =~= seq![a, b]);
    }
    v
}

fn key3(a: u8, b: u8, c: u8) -> (r: Vec<u8>)
    ensures
        r@ == seq![a, b, c],
{
    let mut v: Vec<u8> = Vec::new();
    v.push(a);
    v.push(b);
    v.push(c);
    proof {
        assert(v@ =~= seq![a, b, c]);
    }
    v
}

fn key4(a: u8, b: u8, c: u8, d: u8) -> (r: Vec<u8>)
    ensures
        r@ == seq![a, b, c, d],
{
    let mut v: Vec<u8> = Vec::new();
    v.push(a);
    v.push(b);
    v.push(c);
    v.push(d);
    proof {
        assert(v@ =~= seq![a, b, c, d]);
    }
    v
}

fn key6(a: u8, b: u8, c: u8, d: u8, e: u8, f: u8) -> (r: Vec<u8>)
    ensures
        r@ == seq![a, b, c, d, e, f],
{
    let mut v: Vec<u8> = Vec::new();
    v.push(a);
    v.push(b);
    v.push(c);
    v.push(d);
    v.push(e);
    v.push(f);
    proof {
        assert(v@ =~= seq![a, b, c, d, e, f]);
    }
    v
}

/// What one binding step does to the table and the free-RAM cursor. A
/// name already bound stays as it is; an unbound label name is bound to
/// the label's address index; any other unbound name is a variable and
/// takes the next free RAM address, advancing the cursor.
pub open spec fn st_step(iv: InstructionView, t: Map<Seq<u8>, int>, last: int) -> (
    Map<Seq<u8>, int>,
    int,
) {
    let sym = iv.symbol->Some_0;
    if t.contains_key(sym) {
        (t, last)
    } else if iv.kind == InstructionKind::Label {
        (t.insert(sym, iv.address_index), last)
    } else {
        (t.insert(sym, last + 1), last + 1)
    }
}

/// An address instruction whose symbol names a label or variable rather
/// than a literal address.
pub open spec fn is_variable_ref(iv: InstructionView) -> bool {
    &&& iv.kind == InstructionKind::Address
    &&& iv.symbol matches Some(s) && s.len() > 0 && !is_digit(s[0])
}

/// Pass 1 over the instruction list: bind every label name, in order,
/// first binding winning.
pub open spec fn pass1(lines: Seq<InstructionView>, t: Map<Seq<u8>, int>) -> Map<Seq<u8>, int>
    decreases lines.len(),
{
    if lines.len() == 0 {
        t
    } else {
        let prev = pass1(lines.drop_last(), t);
        let l = lines.last();
        if l.kind == InstructionKind::Label {
            st_step(l, prev, 0).0
        } else {
            prev
        }
    }
}

/// Pass 2 over the instruction list: bind every still-unbound variable
/// symbol, in order, to the next free RAM address after `last`.
pub open spec fn pass2(lines: Seq<InstructionView>, t: Map<Seq<u8>, int>, last: int) -> (
    Map<Seq<u8>, int>,
    int,
)
    decreases lines.len(),
{
    if lines.len() == 0 {
        (t, last)
    } else {
        let prev = pass2(lines.drop_last(), t, last);
        let l = lines.last();
        if is_variable_ref(l) {
            st_step(l, prev.0, prev.1)
        } else {
            prev
        }
    }
}

/// One binding step of the symbol-table builder: a no-op when the
/// instruction's symbol is already bound, otherwise a fresh binding as
/// `st_step` says — a label to its address index, a variable to
/// `last_address + 1`, which becomes the new cursor value.
pub fn populate_symbol_table(inst: &Instruction, table: SymbolTable, last_address: usize) -> (r: (
    SymbolTable,
    usize,
))
    requires
        table.wf(),
        inst@.wf(),
        inst@.symbol is Some,
        last_address < usize::MAX,
    ensures
        r.0.wf(),
        (r.0@, r.1 as int) == st_step(inst@, table@, last_address as int),
{
    match &inst.symbol {
        None => {
            proof {
                assert(false);
            }
            (table, last_address)
        },
        Some(s) => {
            if table.contains(s) {
                (table, last_address)
            } else if inst.kind == InstructionKind::Label {
                let mut t = table;
                t.insert(crate::bytes::clone_bytes(s), inst.address_index);
                (t, last_address)
            } else {
                let addr = last_address + 1;
                let mut t = table;
                t.insert(crate::bytes::clone_bytes(s), addr);
                (t, addr)
            }
        },
    }
}

/// Both resolution passes, in their mandatory order: all labels first,
/// then all variables, the free-RAM cursor starting so that the first
/// variable is bound to address 16.
pub fn first_pass(parsed_lines: &Vec<Instruction>, symbol_table: SymbolTable) -> (r: SymbolTable)
    requires
        symbol_table.wf(),
        forall|k: int| 0 <= k < parsed_lines@.len() ==> (#[trigger] parsed_lines@[k]@).wf(),
        parsed_lines@.len() + 16 <= usize::MAX,
    ensures
        r.wf(),
        r@ == pass2(
            seq_view(parsed_lines@),
            pass1(seq_view(parsed_lines@), symbol_table@),
            15,
        ).0,
{
    let ghost ivs = seq_view(parsed_lines@);
    let ghost t0 = symbol_table@;
    let mut table = symbol_table;
    let n = parsed_lines.len();

    let mut i: usize = 0;
    proof {
        assert(ivs.subrange(0, 0) =~= Seq::<InstructionView>::empty());
    }
    while i < n
        invariant
            i <= n,
            n == parsed_lines@.len(),
            ivs == seq_view(parsed_lines@),
            forall|k: int| 0 <= k < parsed_lines@.len() ==> (#[trigger] parsed_lines@[k]@).wf(),
            table.wf(),
            table@ == pass1(ivs.subrange(0, i as int), t0),
        decreases n - i,
    {
        proof {
            assert(ivs.subrange(0, i + 1).drop_last() =~= ivs.subrange(0, i as int));
            assert(ivs.subrange(0, i + 1).last() == ivs[i as int]);
        }
        let inst = &parsed_lines[i];
        if inst.kind == InstructionKind::Label {
            let (t2, _) = populate_symbol_table(inst, table, 15);
            table = t2;
        }
        i = i + 1;
    }
    proof {
        assert(ivs.subrange(0, n as int) =~= ivs);
    }

    let ghost t1 = table@;
    let mut last_ram_address: usize = 15;
    let mut i: usize = 0;
    proof {
        assert(ivs.subrange(0, 0) =~= Seq::<InstructionView>::empty());
    }
    while i < n
        invariant
            i <= n,
            n == parsed_lines@.len(),
            n + 16 <= usize::MAX,
            ivs == seq_view(parsed_lines@),
            forall|k: int| 0 <= k < parsed_lines@.len() ==> (#[trigger] parsed_lines@[k]@).wf(),
            table.wf(),
            15 <= last_ram_address,
            last_ram_address <= 15 + i,
            (table@, last_ram_address as int) == pass2(ivs.subrange(0, i as int), t1, 15),
        decreases n - i,
    {
        proof {
            assert(ivs.subrange(0, i + 1).drop_last() =~= ivs.subrange(0, i as int));
            assert(ivs.subrange(0, i + 1).last() == ivs[i as int]);
        }
        let inst = &parsed_lines[i];
        let mut variable = false;
        if inst.kind == InstructionKind::Address {
            match &inst.symbol {
                Some(s) => {
                    if !crate::bytes::byte_is_digit(s[0]) {
                        variable = true;
                    }
                },
                None => {
                    proof {
                        assert(false);
                    }
                },
            }
        }
        if variable {
            let (t2, l2) = populate_symbol_table(inst, table, last_ram_address);
            table = t2;
            last_ram_address = l2;
        }
        i = i + 1;
    }
    proof {
        assert(ivs.subrange(0, n as int) =~= ivs);
    }
    table
}


/// Pass 1 binds no name that no label in the list carries.
proof fn lemma_pass1_fresh(lines: Seq<InstructionView>, t: Map<Seq<u8>, int>, name: Seq<u8>)
    requires
        forall|i: int| 0 <= i < lines.len() ==> (#[trigger] lines[i]).wf(),
        !t.contains_key(name),
        forall|i: int|
            0 <= i < lines.len() ==> !((#[trigger] lines[i]).kind == InstructionKind::Label
                && lines[i].symbol == Some(name)),
    ensures
        !pass1(lines, t).contains_key(name),
    decreases lines.len(),
{
    if lines.len() > 0 {
        assert(forall|i: int| 0 <= i < lines.len() - 1 ==> lines.drop_last()[i] == lines[i]);
        lemma_pass1_fresh(lines.drop_last(), t, name);
        let l = lines.last();
        assert(l == lines[lines.len() - 1]);
        if l.kind == InstructionKind::Label {
            assert(l.symbol->Some_0 != name);
        }
    }
}

/// Pass 1 keeps every existing binding: first binding wins.
proof fn lemma_pass1_preserves(lines: Seq<InstructionView>, t: Map<Seq<u8>, int>, name: Seq<u8>)
    requires
        t.contains_key(name),
    ensures
        pass1(lines, t).contains_key(name),
        pass1(lines, t)[name] == t[name],
    decreases lines.len(),
{
    if lines.len() > 0 {
        lemma_pass1_preserves(lines.drop_last(), t, name);
    }
}

/// Pass 2 keeps every existing binding: first binding wins.
proof fn lemma_pass2_preserves(
    lines: Seq<InstructionView>,
    t: Map<Seq<u8>, int>,
    last: int,
    name: Seq<u8>,
)
    requires
        t.contains_key(name),
    ensures
        pass2(lines, t, last).0.contains_key(name),
        pass2(lines, t, last).0[name] == t[name],
    decreases lines.len(),
{
    if lines.len() > 0 {
        lemma_pass2_preserves(lines.drop_last(), t, last, name);
    }
}

/// Pass 1 binds the name of the one label that carries it to that
/// label's address index.
proof fn lemma_pass1_binds_label(lines: Seq<InstructionView>, t0: Map<Seq<u8>, int>, k: int)
    requires
        forall|i: int| 0 <= i < lines.len() ==> (#[trigger] lines[i]).wf(),
        0 <= k < lines.len(),
        lines[k].kind == InstructionKind::Label,
        forall|i: int|
            0 <= i < lines.len() && i != k ==> !((#[trigger] lines[i]).kind
                == InstructionKind::Label && lines[i].symbol == lines[k].symbol),
        !t0.contains_key(lines[k].symbol->Some_0),
    ensures
        pass1(lines, t0).contains_key(lines[k].symbol->Some_0),
        pass1(lines, t0)[lines[k].symbol->Some_0] == lines[k].address_index,
    decreases lines.len(),
{
    let name = lines[k].symbol->Some_0;
    let l = lines.last();
    let prev = pass1(lines.drop_last(), t0);
    assert(forall|i: int| 0 <= i < lines.len() - 1 ==> lines.drop_last()[i] == lines[i]);
    if k == lines.len() - 1 {
        assert(lines[k].symbol == Some(name));
        lemma_pass1_fresh(lines.drop_last(), t0, name);
        assert(!prev.contains_key(name));
    } else {
        lemma_pass1_binds_label(lines.drop_last(), t0, k);
        if l.kind == InstructionKind::Label {
            assert(l == lines[lines.len() - 1]);
            assert(l.symbol != lines[k].symbol);
            assert(l.symbol->Some_0 != name);
        }
    }
}

/// For a label name that occurs exactly once as a label and is not a
/// pre-set symbol, the completed table binds it to that label's address
/// index — the instruction-memory slot of the next real instruction —
/// whether the references to it stand before or after the label.
pub proof fn lemma_label_resolution(
    lines: Seq<InstructionView>,
    t0: Map<Seq<u8>, int>,
    last: int,
    k: int,
)
    requires
        forall|i: int| 0 <= i < lines.len() ==> (#[trigger] lines[i]).wf(),
        0 <= k < lines.len(),
        lines[k].kind == InstructionKind::Label,
        forall|i: int|
            0 <= i < lines.len() && i != k ==> !((#[trigger] lines[i]).kind
                == InstructionKind::Label && lines[i].symbol == lines[k].symbol),
        !t0.contains_key(lines[k].symbol->Some_0),
    ensures
        ({
            let t2 = pass2(lines, pass1(lines, t0), last).0;
            let name = lines[k].symbol->Some_0;
            t2.contains_key(name) && t2[name] == lines[k].address_index
        }),
{
    lemma_pass1_binds_label(lines, t0, k);
    lemma_pass2_preserves(lines, pass1(lines, t0), last, lines[k].symbol->Some_0);
}

/// The variable symbols of the list in first-seen order: the symbols of
/// address instructions that are not numerals, are not in `bound`, and
/// have not occurred before.
pub open spec fn new_vars(lines: Seq<InstructionView>, bound: Set<Seq<u8>>) -> Seq<Seq<u8>>
    decreases lines.len(),
{
    if lines.len() == 0 {
        Seq::empty()
    } else {
        let prev = new_vars(lines.drop_last(), bound);
        let l = lines.last();
        if is_variable_ref(l) && !bound.contains(l.symbol->Some_0) && !prev.contains(
            l.symbol->Some_0,
        ) {
            prev.push(l.symbol->Some_0)
        } else {
            prev
        }
    }
}

/// First-seen order determines variable addresses: pass 2 binds the
/// `k`-th distinct new variable symbol to `last + 1 + k`, advancing the
/// cursor once per variable — with the cursor entering at 15, addresses
/// 16, 17, … with no gaps and no reuse. Every binding already present is
/// kept unchanged, and nothing else is bound.
pub proof fn lemma_variable_allocation(
    lines: Seq<InstructionView>,
    t: Map<Seq<u8>, int>,
    last: int,
)
    ensures
        ({
            let vars = new_vars(lines, t.dom());
            let r = pass2(lines, t, last);
            &&& r.1 == last + vars.len()
            &&& forall|k: int|
                0 <= k < vars.len() ==> r.0.contains_key(#[trigger] vars[k]) && r.0[vars[k]]
                    == last + 1 + k
            &&& forall|x: Seq<u8>|
                #[trigger] r.0.contains_key(x) <==> t.contains_key(x) || vars.contains(x)
            &&& forall|x: Seq<u8>| #[trigger] t.contains_key(x) ==> r.0[x] == t[x]
        }),
    decreases lines.len(),
{
    let vars = new_vars(lines, t.dom());
    let r = pass2(lines, t, last);
    if lines.len() == 0 {
        assert(forall|x: Seq<u8>| !vars.contains(x));
    } else {
        lemma_variable_allocation(lines.drop_last(), t, last);
        let pvars = new_vars(lines.drop_last(), t.dom());
        let pr = pass2(lines.drop_last(), t, last);
        let l = lines.last();
        if is_variable_ref(l) {
            let sym = l.symbol->Some_0;
            if !t.dom().contains(sym) && !pvars.contains(sym) {
                assert(vars == pvars.push(sym));
                assert(!t.contains_key(sym));
                assert(!pr.0.contains_key(sym));
                assert(r.0 == pr.0.insert(sym, pr.1 + 1));
                assert(r.1 == pr.1 + 1);
                assert(forall|i: int| 0 <= i < pvars.len() ==> pvars[i] != sym);
                assert(forall|k: int| 0 <= k < pvars.len() ==> vars[k] == pvars[k]);
                assert(vars[vars.len() - 1] == sym);
                assert(forall|x: Seq<u8>|
                    vars.contains(x) <==> pvars.contains(x) || x == sym) by {
                    assert(forall|x: Seq<u8>| #[trigger] pvars.contains(x) ==> vars.contains(x))
                        by {
                        assert(forall|i: int|
                            0 <= i < pvars.len() ==> vars[i] == #[trigger] pvars[i]);
                    };
                    assert(vars.contains(sym));
                    assert(forall|x: Seq<u8>|
                        #[trigger] vars.contains(x) ==> pvars.contains(x) || x == sym) by {
                        assert(forall|i: int|
                            0 <= i < vars.len() && #[trigger] vars[i] != sym ==> pvars.contains(
                                vars[i],
                            ));
                    };
                };
            } else {
                assert(vars == pvars);
                assert(t.contains_key(sym) || pvars.contains(sym));
                assert(pr.0.contains_key(sym));
                assert(r == pr);
            }
        } else {
            assert(vars == pvars);
            assert(r == pr);
        }
    }
}

/// The first-seen variable symbols are pairwise distinct and outside the
/// already-bound names: no address is ever reused.
pub proof fn lemma_new_vars_distinct(lines: Seq<InstructionView>, bound: Set<Seq<u8>>)
    ensures
        ({
            let vars = new_vars(lines, bound);
            &&& forall|k1: int, k2: int|
                0 <= k1 < k2 < vars.len() ==> #[trigger] vars[k1] != #[trigger] vars[k2]
            &&& forall|k: int| 0 <= k < vars.len() ==> !bound.contains(#[trigger] vars[k])
        }),
    decreases lines.len(),
{
    if lines.len() > 0 {
        lemma_new_vars_distinct(lines.drop_last(), bound);
        let pvars = new_vars(lines.drop_last(), bound);
        let vars = new_vars(lines, bound);
        let l = lines.last();
        if is_variable_ref(l) && !bound.contains(l.symbol->Some_0) && !pvars.contains(
            l.symbol->Some_0,
        ) {
            assert(forall|i: int| 0 <= i < pvars.len() ==> pvars[i] != l.symbol->Some_0);
            assert(forall|k: int| 0 <= k < pvars.len() ==> vars[k] == pvars[k]);
        }
    }
}

/// The mapping of the 23 pre-set symbols: registers, register aliases,
/// and the screen and keyboard device addresses.
pub open spec fn predefined_map() -> Map<Seq<u8>, int> {
    Map::<Seq<u8>, int>::empty().insert(seq![83u8, 80u8], 0)  // SP
    .insert(seq![82u8, 48u8], 0)  // R0
    .insert(seq![76u8, 67u8, 76u8], 1)  // LCL
    .insert(seq![82u8, 49u8], 1)  // R1
    .insert(seq![65u8, 82u8, 71u8], 2)  // ARG
    .insert(seq![82u8, 50u8], 2)  // R2
    .insert(seq![84u8, 72u8, 73u8, 83u8], 3)  // THIS
    .insert(seq![82u8, 51u8], 3)  // R3
    .insert(seq![84u8, 72u8, 65u8, 84u8], 4)  // THAT
    .insert(seq![82u8, 52u8], 4)  // R4
    .insert(seq![82u8, 53u8], 5)  // R5
    .insert(seq![82u8, 54u8], 6)  // R6
    .insert(seq![82u8, 55u8], 7)  // R7
    .insert(seq![82u8, 56u8], 8)  // R8
    .insert(seq![82u8, 57u8], 9)  // R9
    .insert(seq![82u8, 49u8, 48u8], 10)  // R10
    .insert(seq![82u8, 49u8, 49u8], 11)  // R11
    .insert(seq![82u8, 49u8, 50u8], 12)  // R12
    .insert(seq![82u8, 49u8, 51u8], 13)  // R13
    .insert(seq![82u8, 49u8, 52u8], 14)  // R14
    .insert(seq![82u8, 49u8, 53u8], 15)  // R15
    .insert(seq![83u8, 67u8, 82u8, 69u8, 69u8, 78u8], 16384)  // SCREEN
    .insert(seq![75u8, 66u8, 68u8], 24576)  // KBD
}

} // verus!
