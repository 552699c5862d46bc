//! Removal of trailing line terminators from captured output.

use vstd::prelude::*;
use crate::bytes::copy_prefix;

verus! {

/// Line feed.
pub const LF: u8 = 10;

/// Carriage return.
pub const CR: u8 = 13;

/// A byte is a line terminator when it is a line feed or a carriage return.
pub open spec fn is_terminator(b: u8) -> bool {
    b == LF || b == CR
}

/// Length of `s` once its trailing line terminators are removed.
pub open spec fn stripped_len(s: Seq<u8>) -> nat
    decreases s.len(),
{
    if s.len() > 0 && is_terminator(s.last()) {
        stripped_len(s.drop_last())
    } else {
        s.len()
    }
}

/// `s` without its trailing line terminators. No other byte is touched.
pub open spec fn normalized(s: Seq<u8>) -> Seq<u8> {
    s.take(stripped_len(s) as int)
}

/// `n` cuts `s` just behind its last byte that is no line terminator.
pub open spec fn is_cut(s: Seq<u8>, n: int) -> bool {
    &&& 0 <= n <= s.len()
    &&& n > 0 ==> !is_terminator(s[n - 1])
    &&& forall|i: int| n <= i < s.len() ==> is_terminator(#[trigger] s[i])
}

/// The stripped length is a cut of the sequence.
pub proof fn lemma_stripped_len_is_cut(s: Seq<u8>)
    ensures
        is_cut(s, stripped_len(s) as int),
    decreases s.len(),
{
    if s.len() > 0 && is_terminator(s.last()) {
        let t = s.drop_last();
        lemma_stripped_len_is_cut(t);
        let n = stripped_len(t) as int;
        assert forall|i: int| n <= i < s.len() implies is_terminator(#[trigger] s[i]) by {
            if i < t.len() {
                assert(s[i] == t[i]);
            }
        }
        if n > 0 {
            assert(s[n - 1] == t[n - 1]);
        }
    }
}

/// A sequence has exactly one cut, and that is its stripped length.
pub proof fn lemma_cut_is_stripped_len(s: Seq<u8>, n: int)
    requires
        is_cut(s, n),
    ensures
        n == stripped_len(s),
    decreases s.len(),
{
    if s.len() > 0 && is_terminator(s.last()) {
        let t = s.drop_last();
        assert(n < s.len()) by {
            if n == s.len() {
                assert(s[n - 1] == s.last());
            }
        }
        assert forall|i: int| n <= i < t.len() implies is_terminator(#[trigger] t[i]) by {
            assert(t[i] == s[i]);
        }
        if n > 0 {
            assert(t[n - 1] == s[n - 1]);
        }
        lemma_cut_is_stripped_len(t, n);
    } else if s.len() > 0 {
        if n < s.len() {
            assert(is_terminator(s[s.len() - 1]));
        }
    }
}

/// Stripping is idempotent.
pub proof fn lemma_normalized_idempotent(s: Seq<u8>)
    ensures
        normalized(normalized(s)) == normalized(s),
{
    lemma_stripped_len_is_cut(s);
    let n = stripped_len(s) as int;
    let t = normalized(s);
    assert(is_cut(t, n)) by {
        if n > 0 {
            assert(t[n - 1] == s[n - 1]);
        }
    }
    lemma_cut_is_stripped_len(t, n);
    assert(t.take(n) =~= t);
}

/// A sequence that does not end in a line terminator is left as it is.
pub proof fn lemma_normalized_fixed(s: Seq<u8>)
    requires
        s.len() == 0 || !is_terminator(s.last()),
    ensures
        normalized(s) == s,
{
    assert(s.take(s.len() as int) =~= s);
}

/// Line terminators appended to a sequence are stripped again.
pub proof fn lemma_normalized_absorbs_terminators(s: Seq<u8>, tail: Seq<u8>)
    requires
        forall|i: int| 0 <= i < tail.len() ==> is_terminator(#[trigger] tail[i]),
    ensures
        normalized(s + tail) == normalized(s),
{
    lemma_stripped_len_is_cut(s);
    let n = stripped_len(s) as int;
    let u = s + tail;
    assert(is_cut(u, n)) by {
        if n > 0 {
            assert(u[n - 1] == s[n - 1]);
        }
        assert forall|i: int| n <= i < u.len() implies is_terminator(#[trigger] u[i]) by {
            if i < s.len() {
                assert(u[i] == s[i]);
            } else {
                assert(u[i] == tail[i - s.len()]);
            }
        }
    }
    lemma_cut_is_stripped_len(u, n);
    assert(u.take(n) =~= s.take(n));
}

/// Tells whether a byte is a line terminator.
pub fn terminator(b: u8) -> (r: bool)
    ensures
        r == is_terminator(b),
{
    b == LF || b == CR
}

/// Length of `bytes` without its trailing line terminators.
pub fn trimmed_len(bytes: &[u8]) -> (n: usize)
    ensures
        n == stripped_len(bytes@),
        is_cut(bytes@, n as int),
{
    let mut n: usize = bytes.len();
    while n > 0 && terminator(bytes[n - 1])
        invariant
            n <= bytes.len(),
            forall|i: int| n <= i < bytes.len() ==> is_terminator(#[trigger] bytes@[i]),
        decreases n,
    {
        n = n - 1;
    }
    proof {
        lemma_cut_is_stripped_len(bytes@, n as int);
    }
    n
}

/// Copy of `bytes` without its trailing line terminators.
pub fn strip_trailing_terminators(bytes: &[u8]) -> (out: Vec<u8>)
    ensures
        out@ == normalized(bytes@),
{
    let n: usize = trimmed_len(bytes);
    copy_prefix(bytes, n)
}

} // verus!
