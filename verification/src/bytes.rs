//! Byte-level helpers shared by the preprocessor, the parser and the
//! code generator: character classes and first-occurrence searches.

use vstd::prelude::*;

verus! {

// The ASCII bytes the grammar is built from.
pub const AT: u8 = 64;  // '@'
pub const LPAREN: u8 = 40;  // '('
pub const RPAREN: u8 = 41;  // ')'
pub const EQUALS: u8 = 61;  // '='
pub const PLUS: u8 = 43;  // '+'
pub const AMP: u8 = 38;  // '&'
pub const PIPE: u8 = 124;  // '|'
pub const MINUS: u8 = 45;  // '-'
pub const BANG: u8 = 33;  // '!'
pub const SEMI: u8 = 59;  // ';'
pub const SLASH: u8 = 47;  // '/'
pub const NEWLINE: u8 = 10;  // '\n'
pub const ZERO: u8 = 48;  // '0'
pub const ONE: u8 = 49;  // '1'

/// ASCII whitespace: space, tab, line feed, vertical tab, form feed,
/// carriage return.
pub open spec fn is_ws(c: u8) -> bool {
    c == 32 || c == 9 || c == 10 || c == 11 || c == 12 || c == 13
}

/// ASCII decimal digit.
pub open spec fn is_digit(c: u8) -> bool {
    48 <= c <= 57
}

/// First index at or after `from` where `s` holds the byte `c`.
pub open spec fn find_byte(s: Seq<u8>, c: u8, from: int) -> Option<int>
    decreases s.len() - from,
{
    if from < 0 || from >= s.len() {
        None
    } else if s[from] == c {
        Some(from)
    } else {
        find_byte(s, c, from + 1)
    }
}

/// First index at or after `from` where `s` holds one of the bytes `a`, `b`.
pub open spec fn find_byte2(s: Seq<u8>, a: u8, b: u8, from: int) -> Option<int>
    decreases s.len() - from,
{
    if from < 0 || from >= s.len() {
        None
    } else if s[from] == a || s[from] == b {
        Some(from)
    } else {
        find_byte2(s, a, b, from + 1)
    }
}

/// First index at or after `from` where `s` holds one of the bytes `a`, `b`, `c`.
pub open spec fn find_byte3(s: Seq<u8>, a: u8, b: u8, c: u8, from: int) -> Option<int>
    decreases s.len() - from,
{
    if from < 0 || from >= s.len() {
        None
    } else if s[from] == a || s[from] == b || s[from] == c {
        Some(from)
    } else {
        find_byte3(s, a, b, c, from + 1)
    }
}

/// A found index lies in range and points at the byte searched for.
pub proof fn lemma_find_byte_some(s: Seq<u8>, c: u8, from: int)
    ensures
        find_byte(s, c, from) matches Some(i) ==> from <= i < s.len() && s[i] == c,
    decreases s.len() - from,
{
    if from < 0 || from >= s.len() {
    } else if s[from] == c {
    } else {
        lemma_find_byte_some(s, c, from + 1);
    }
}

/// A byte that the scan passed over is not the byte searched for.
pub proof fn lemma_find_byte_first(s: Seq<u8>, c: u8, from: int, k: int)
    requires
        0 <= from <= k < s.len(),
        s[k] == c,
        forall|j: int| from <= j < k ==> s[j] != c,
    ensures
        find_byte(s, c, from) == Some(k),
    decreases k - from,
{
    if from < k {
        lemma_find_byte_first(s, c, from + 1, k);
    }
}

/// When the byte occurs nowhere at or after `from`, the search fails.
pub proof fn lemma_find_byte_none(s: Seq<u8>, c: u8, from: int)
    requires
        0 <= from,
        forall|j: int| from <= j < s.len() ==> s[j] != c,
    ensures
        find_byte(s, c, from) is None,
    decreases s.len() - from,
{
    if from < s.len() {
        lemma_find_byte_none(s, c, from + 1);
    }
}

/// The byte sequences a vector of byte vectors holds.
pub open spec fn lines_view(v: Seq<Vec<u8>>) -> Seq<Seq<u8>> {
    Seq::new(v.len(), |i: int| v[i]@)
}

/// The source text split at line feeds, as `str::lines` splits it: one
/// segment per line, a trailing empty segment dropped.
pub open spec fn split_lines_spec(s: Seq<u8>) -> Seq<Seq<u8>>
    decreases s.len(),
{
    if s.len() == 0 {
        Seq::empty()
    } else {
        match find_byte(s, NEWLINE, 0) {
            None => seq![s],
            Some(p) => if 0 <= p < s.len() {
                seq![s.subrange(0, p)] + split_lines_spec(s.subrange(p + 1, s.len() as int))
            } else {
                seq![s]
            },
        }
    }
}

/// Split the source text into its lines.
pub fn split_lines(v: &Vec<u8>) -> (r: Vec<Vec<u8>>)
    ensures
        lines_view(r@) == split_lines_spec(v@),
        r@.len() <= v@.len(),
{
    let mut out: Vec<Vec<u8>> = Vec::new();
    let mut seg_start: usize = 0;
    let mut i: usize = 0;
    proof {
        assert(v@.subrange(0, v@.len() as int) =~= v@);
        assert(split_lines_spec(v@) =~= lines_view(out@) + split_lines_spec(
            v@.subrange(0, v@.len() as int),
        ));
    }
    while i < v.len()
        invariant
            seg_start <= i <= v@.len(),
            forall|j: int| seg_start <= j < i ==> v@[j] != NEWLINE,
            split_lines_spec(v@) == lines_view(out@) + split_lines_spec(
                v@.subrange(seg_start as int, v@.len() as int),
            ),
            out@.len() <= seg_start,
        decreases v@.len() - i,
    {
        if v[i] == NEWLINE {
            let seg = sub_bytes(v, seg_start, i);
            proof {
                let ghost prev = out@;
                let rem = v@.subrange(seg_start as int, v@.len() as int);
                let k = i - seg_start;
                assert(forall|j: int| 0 <= j < k ==> rem[j] != NEWLINE);
                lemma_find_byte_first(rem, NEWLINE, 0, k);
                assert(rem.subrange(0, k) =~= seg@);
                assert(rem.subrange(k + 1, rem.len() as int) =~= v@.subrange(
                    i + 1,
                    v@.len() as int,
                ));
            }
            out.push(seg);
            proof {
                assert(lines_view(out@) =~= lines_view(out@.drop_last()).push(seg@));
                assert(split_lines_spec(v@) =~= lines_view(out@) + split_lines_spec(
                    v@.subrange(i + 1, v@.len() as int),
                ));
            }
            seg_start = i + 1;
        }
        i = i + 1;
    }
    let n = v.len();
    if seg_start < n {
        let seg = sub_bytes(v, seg_start, n);
        proof {
            let rem = v@.subrange(seg_start as int, v@.len() as int);
            lemma_find_byte_none(rem, NEWLINE, 0);
            assert(rem =~= seg@);
        }
        out.push(seg);
        proof {
            assert(lines_view(out@) =~= lines_view(out@.drop_last()).push(seg@));
            assert(split_lines_spec(v@) =~= lines_view(out@));
        }
    } else {
        proof {
            assert(v@.subrange(seg_start as int, v@.len() as int) =~= Seq::<u8>::empty());
            assert(split_lines_spec(v@) =~= lines_view(out@));
        }
    }
    out
}

pub fn byte_is_ws(c: u8) -> (r: bool)
    ensures
        r == is_ws(c),
{
    c == 32 || c == 9 || c == 10 || c == 11 || c == 12 || c == 13
}

pub fn byte_is_digit(c: u8) -> (r: bool)
    ensures
        r == is_digit(c),
{
    48 <= c && c <= 57
}

pub fn find_byte_at(v: &Vec<u8>, c: u8, from: usize) -> (r: Option<usize>)
    ensures
        match r {
            Some(i) => from <= i < v@.len() && find_byte(v@, c, from as int) == Some(i as int),
            None => find_byte(v@, c, from as int) is None,
        },
{
    let mut i = from;
    while i < v.len()
        invariant
            from <= i,
            find_byte(v@, c, from as int) == find_byte(v@, c, i as int),
        decreases v@.len() - i,
    {
        if v[i] == c {
            return Some(i);
        }
        i = i + 1;
    }
    None
}

pub fn find_byte2_at(v: &Vec<u8>, a: u8, b: u8, from: usize) -> (r: Option<usize>)
    ensures
        match r {
            Some(i) => from <= i < v@.len() && find_byte2(v@, a, b, from as int) == Some(i as int),
            None => find_byte2(v@, a, b, from as int) is None,
        },
{
    let mut i = from;
    while i < v.len()
        invariant
            from <= i,
            find_byte2(v@, a, b, from as int) == find_byte2(v@, a, b, i as int),
        decreases v@.len() - i,
    {
        if v[i] == a || v[i] == b {
            return Some(i);
        }
        i = i + 1;
    }
    None
}

pub fn find_byte3_at(v: &Vec<u8>, a: u8, b: u8, c: u8, from: usize) -> (r: Option<usize>)
    ensures
        match r {
            Some(i) => from <= i < v@.len() && find_byte3(v@, a, b, c, from as int) == Some(
                i as int,
            ),
            None => find_byte3(v@, a, b, c, from as int) is None,
        },
{
    let mut i = from;
    while i < v.len()
        invariant
            from <= i,
            find_byte3(v@, a, b, c, from as int) == find_byte3(v@, a, b, c, i as int),
        decreases v@.len() - i,
    {
        if v[i] == a || v[i] == b || v[i] == c {
            return Some(i);
        }
        i = i + 1;
    }
    None
}

/// Copy the byte range `[from, to)` of `v` into a fresh vector.
pub fn sub_bytes(v: &Vec<u8>, from: usize, to: usize) -> (r: Vec<u8>)
    requires
        from <= to <= v@.len(),
    ensures
        r@ == v@.subrange(from as int, to as int),
{
    let mut r: Vec<u8> = Vec::new();
    let mut i = from;
    while i < to
        invariant
            from <= i <= to <= v@.len(),
            r@ == v@.subrange(from as int, i as int),
        decreases to - i,
    {
        r.push(v[i]);
        proof {
            assert(r@ =~= v@.subrange(from as int, i + 1));
        }
        i = i + 1;
    }
    r
}

/// Append the byte range `[from, to)` of `v` to `out`.
pub fn push_range(out: &mut Vec<u8>, v: &Vec<u8>, from: usize, to: usize)
    requires
        from <= to <= v@.len(),
    ensures
        final(out)@ == old(out)@ + v@.subrange(from as int, to as int),
{
    proof {
        assert(out@ =~= out@ + v@.subrange(from as int, from as int));
    }
    let mut i = from;
    while i < to
        invariant
            from <= i <= to <= v@.len(),
            out@ == old(out)@ + v@.subrange(from as int, i as int),
        decreases to - i,
    {
        out.push(v[i]);
        proof {
            assert(out@ =~= old(out)@ + v@.subrange(from as int, i + 1));
        }
        i = i + 1;
    }
}

/// Whether `v` holds exactly the one byte `a`.
pub fn is1(v: &Vec<u8>, a: u8) -> (r: bool)
    ensures
        r == (v@ == seq![a]),
{
    if v.len() == 1 && v[0] == a {
        proof {
            assert(v@ =~= seq![a]);
        }
        true
    } else {
        proof {
            assert(seq![a].len() == 1);
            if v@.len() == 1 {
                assert(v@[0] != a);
            }
        }
        false
    }
}

/// Whether `v` holds exactly the two bytes `a`, `b`.
pub fn is2(v: &Vec<u8>, a: u8, b: u8) -> (r: bool)
    ensures
        r == (v@ == seq![a, b]),
{
    if v.len() == 2 && v[0] == a && v[1] == b {
        proof {
            assert(v@ =~= seq![a, b]);
        }
        true
    } else {
        proof {
            assert(seq![a, b].len() == 2);
            if v@.len() == 2 {
                assert(v@[0] != a || v@[1] != b);
            }
        }
        false
    }
}

/// Whether `v` holds exactly the three bytes `a`, `b`, `c`.
pub fn is3(v: &Vec<u8>, a: u8, b: u8, c: u8) -> (r: bool)
    ensures
        r == (v@ == seq![a, b, c]),
{
    if v.len() == 3 && v[0] == a && v[1] == b && v[2] == c {
        proof {
            assert(v@ =~= seq![a, b, c]);
        }
        true
    } else {
        proof {
            assert(seq![a, b, c].len() == 3);
            if v@.len() == 3 {
                assert(v@[0] != a || v@[1] != b || v@[2] != c);
            }
        }
        false
    }
}

/// A fresh copy of a byte vector.
pub fn clone_bytes(v: &Vec<u8>) -> (r: Vec<u8>)
    ensures
        r@ == v@,
{
    let r = sub_bytes(v, 0, v.len());
    proof {
        assert(v@.subrange(0, v@.len() as int) =~= v@);
    }
    r
}

/// Byte-for-byte equality of two vectors.
pub fn bytes_eq(v: &Vec<u8>, w: &Vec<u8>) -> (r: bool)
    ensures
        r == (v@ == w@),
{
    if v.len() != w.len() {
        proof {
            assert(v@.len() != w@.len());
        }
        return false;
    }
    let mut i: usize = 0;
    while i < v.len()
        invariant
            i <= v@.len(),
            v@.len() == w@.len(),
            forall|j: int| 0 <= j < i ==> v@[j] == w@[j],
        decreases v@.len() - i,
    {
        if v[i] != w[i] {
            return false;
        }
        i = i + 1;
    }
    proof {
        assert(v@ =~= w@);
    }
    true
}

} // verus!
