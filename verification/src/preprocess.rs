//! Line preprocessing: trims surrounding whitespace, drops comments
//! (everything from the first `//` onward) and removes internal whitespace,
//! so that a source line becomes either nothing or a compact instruction.

use vstd::prelude::*;

use crate::bytes::byte_is_ws;
use crate::bytes::is_ws;
use crate::bytes::sub_bytes;
use crate::bytes::SLASH;

verus! {

/// `s` holds no whitespace byte.
pub open spec fn ws_free(s: Seq<u8>) -> bool {
    forall|i: int| 0 <= i < s.len() ==> !is_ws(s[i])
}

/// `s` without its leading whitespace.
pub open spec fn trim_front(s: Seq<u8>) -> Seq<u8>
    decreases s.len(),
{
    if s.len() == 0 {
        s
    } else if is_ws(s[0]) {
        trim_front(s.drop_first())
    } else {
        s
    }
}

/// `s` without its trailing whitespace.
pub open spec fn trim_back(s: Seq<u8>) -> Seq<u8>
    decreases s.len(),
{
    if s.len() == 0 {
        s
    } else if is_ws(s.last()) {
        trim_back(s.drop_last())
    } else {
        s
    }
}

/// `s` without leading and trailing whitespace.
pub open spec fn trim_spec(s: Seq<u8>) -> Seq<u8> {
    trim_back(trim_front(s))
}

/// `s` with every whitespace byte removed.
pub open spec fn strip_ws(s: Seq<u8>) -> Seq<u8>
    decreases s.len(),
{
    if s.len() == 0 {
        Seq::empty()
    } else if is_ws(s.last()) {
        strip_ws(s.drop_last())
    } else {
        strip_ws(s.drop_last()).push(s.last())
    }
}

/// First index at or after `from` where the two-byte comment marker `//` starts.
pub open spec fn find_comment(s: Seq<u8>, from: int) -> Option<int>
    decreases s.len() - from,
{
    if from < 0 || from + 1 >= s.len() {
        None
    } else if s[from] == SLASH && s[from + 1] == SLASH {
        Some(from)
    } else {
        find_comment(s, from + 1)
    }
}

/// What preprocessing makes of one raw source line: `None` for a blank or
/// comment-only line, otherwise the compact instruction text.
pub open spec fn preprocess_spec(line: Seq<u8>) -> Option<Seq<u8>> {
    let t = trim_spec(line);
    let u = match find_comment(t, 0) {
        Some(i) => strip_ws(t.subrange(0, i)),
        None => strip_ws(t),
    };
    if find_comment(t, 0) matches Some(i) && i == 0 {
        None
    } else if u.len() == 0 {
        None
    } else {
        Some(u)
    }
}

pub proof fn lemma_strip_ws_ws_free(s: Seq<u8>)
    ensures
        ws_free(strip_ws(s)),
    decreases s.len(),
{
    if s.len() > 0 {
        lemma_strip_ws_ws_free(s.drop_last());
    }
}

pub proof fn lemma_strip_ws_id(s: Seq<u8>)
    requires
        ws_free(s),
    ensures
        strip_ws(s) == s,
    decreases s.len(),
{
    if s.len() > 0 {
        assert(forall|i: int| 0 <= i < s.len() - 1 ==> s.drop_last()[i] == s[i]);
        lemma_strip_ws_id(s.drop_last());
        assert(strip_ws(s) =~= s);
    } else {
        assert(strip_ws(s) =~= s);
    }
}

pub fn trim_bytes(v: &Vec<u8>) -> (r: Vec<u8>)
    ensures
        r@ == trim_spec(v@),
{
    let mut start: usize = 0;
    proof {
        assert(v@.subrange(0, v@.len() as int) =~= v@);
    }
    while start < v.len() && byte_is_ws(v[start])
        invariant
            start <= v@.len(),
            trim_front(v@) == trim_front(v@.subrange(start as int, v@.len() as int)),
        decreases v@.len() - start,
    {
        proof {
            let tail = v@.subrange(start as int, v@.len() as int);
            assert(tail.drop_first() =~= v@.subrange(start + 1, v@.len() as int));
        }
        start = start + 1;
    }
    proof {
        let tail = v@.subrange(start as int, v@.len() as int);
        if start < v@.len() {
            assert(trim_front(tail) == tail);
        } else {
            assert(tail =~= Seq::<u8>::empty());
        }
    }
    // here trim_front(v@) == v@.subrange(start, len)
    let mut end: usize = v.len();
    while end > start && byte_is_ws(v[end - 1])
        invariant
            start <= end <= v@.len(),
            trim_front(v@) == v@.subrange(start as int, v@.len() as int),
            trim_back(v@.subrange(start as int, v@.len() as int)) == trim_back(
                v@.subrange(start as int, end as int),
            ),
        decreases end,
    {
        proof {
            let cur = v@.subrange(start as int, end as int);
            assert(cur.drop_last() =~= v@.subrange(start as int, end - 1));
        }
        end = end - 1;
    }
    proof {
        let cur = v@.subrange(start as int, end as int);
        if end > start {
            assert(trim_back(cur) == cur);
        } else {
            assert(cur =~= Seq::<u8>::empty());
            assert(trim_back(cur) == cur);
        }
    }
    sub_bytes(v, start, end)
}

pub fn strip_ws_bytes(v: &Vec<u8>) -> (r: Vec<u8>)
    ensures
        r@ == strip_ws(v@),
{
    let mut r: Vec<u8> = Vec::new();
    let mut i: usize = 0;
    while i < v.len()
        invariant
            i <= v@.len(),
            r@ == strip_ws(v@.subrange(0, i as int)),
        decreases v@.len() - i,
    {
        proof {
            assert(v@.subrange(0, i + 1).drop_last() =~= v@.subrange(0, i as int));
        }
        if !byte_is_ws(v[i]) {
            r.push(v[i]);
        }
        i = i + 1;
    }
    proof {
        assert(v@.subrange(0, v@.len() as int) =~= v@);
    }
    r
}

pub fn find_comment_at(v: &Vec<u8>, from: usize) -> (r: Option<usize>)
    ensures
        match r {
            Some(i) => from <= i && i + 1 < v@.len() && find_comment(v@, from as int) == Some(
                i as int,
            ),
            None => find_comment(v@, from as int) is None,
        },
{
    if v.len() == 0 {
        return None;
    }
    let mut i = from;
    while i < v.len() - 1
        invariant
            from <= i,
            v@.len() > 0,
            find_comment(v@, from as int) == find_comment(v@, i as int),
        decreases v@.len() - i,
    {
        if v[i] == SLASH && v[i + 1] == SLASH {
            return Some(i);
        }
        i = i + 1;
    }
    None
}

/// Turn one raw source line into its compact instruction text, or `None`
/// for a line that carries no instruction.
pub fn preprocess_line(line: &Vec<u8>) -> (r: Option<Vec<u8>>)
    ensures
        match r {
            Some(u) => preprocess_spec(line@) == Some(u@),
            None => preprocess_spec(line@) is None,
        },
{
    let t = trim_bytes(line);
    match find_comment_at(&t, 0) {
        Some(i) => {
            if i == 0 {
                None
            } else {
                let head = sub_bytes(&t, 0, i);
                let u = strip_ws_bytes(&head);
                if u.len() == 0 {
                    None
                } else {
                    Some(u)
                }
            }
        },
        None => {
            let u = strip_ws_bytes(&t);
            if u.len() == 0 {
                None
            } else {
                Some(u)
            }
        },
    }
}

/// A compact line that preprocessing hands out is non-empty and holds no
/// whitespace.
pub proof fn lemma_preprocess_output(line: Seq<u8>)
    requires
        preprocess_spec(line) is Some,
    ensures
        preprocess_spec(line)->Some_0.len() > 0,
        ws_free(preprocess_spec(line)->Some_0),
{
    let t = trim_spec(line);
    match find_comment(t, 0) {
        Some(i) => {
            lemma_strip_ws_ws_free(t.subrange(0, i));
        },
        None => {
            lemma_strip_ws_ws_free(t);
        },
    }
}

/// Preprocessing is idempotent on its own output, as long as removing the
/// whitespace has not formed a new `//` marker: a compact line that holds
/// no comment marker passes through preprocessing unchanged.
pub proof fn lemma_preprocess_idempotent(line: Seq<u8>)
    requires
        preprocess_spec(line) is Some,
        find_comment(preprocess_spec(line)->Some_0, 0) is None,
    ensures
        preprocess_spec(preprocess_spec(line)->Some_0) == preprocess_spec(line),
{
    let u = preprocess_spec(line)->Some_0;
    lemma_preprocess_output(line);
    assert(trim_front(u) == u);
    assert(trim_back(u) == u);
    lemma_strip_ws_id(u);
}

} // verus!
