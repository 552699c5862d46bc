//! Names of the files that a run writes: the input of a failed case, and the
//! input and output files of generated cases.

use vstd::prelude::*;
use crate::bytes::append_bytes;

verus! {

/// The byte `.` that separates a stem from its extension.
pub const DOT: u8 = 46;

/// The byte `0`, the first of the ten decimal digits.
pub const ZERO: u8 = 48;

/// The decimal digits of `n`, most significant first, without leading zeros.
pub open spec fn decimal(n: nat) -> Seq<u8>
    decreases n,
{
    if n < 10 {
        seq![(ZERO + n) as u8]
    } else {
        decimal(n / 10).push((ZERO + n % 10) as u8)
    }
}

/// The prefix `fail_` of the name under which a failed case is kept.
pub open spec fn artifact_prefix() -> Seq<u8> {
    seq![102u8, 97u8, 105u8, 108u8, 95u8]
}

/// The suffix `.in` of the name under which a failed case is kept.
pub open spec fn artifact_suffix() -> Seq<u8> {
    seq![DOT, 105u8, 110u8]
}

/// Name of the file that keeps the input of the failed case `index`:
/// `fail_`, the index in decimal, `.in`.
pub open spec fn artifact_name(index: u64) -> Seq<u8> {
    artifact_prefix() + decimal(index as nat) + artifact_suffix()
}

/// A stem and an extension, joined by a dot.
pub open spec fn with_extension(stem: Seq<u8>, ext: Seq<u8>) -> Seq<u8> {
    stem + seq![DOT] + ext
}

/// Name of the file of the generated case `index` with extension `ext`: the
/// index in decimal, a dot, the extension.
pub open spec fn case_name(index: u64, ext: Seq<u8>) -> Seq<u8> {
    with_extension(decimal(index as nat), ext)
}

/// A number has at least one decimal digit, and each is a digit.
pub proof fn lemma_decimal_digits(n: nat)
    ensures
        decimal(n).len() >= 1,
        n >= 10 ==> decimal(n).len() >= 2,
        forall|i: int| 0 <= i < decimal(n).len() ==> ZERO <= #[trigger] decimal(n)[i] <= ZERO + 9,
    decreases n,
{
    if n >= 10 {
        lemma_decimal_digits(n / 10);
    }
}

/// Different numbers have different decimal digits.
pub proof fn lemma_decimal_injective(a: nat, b: nat)
    requires
        decimal(a) == decimal(b),
    ensures
        a == b,
    decreases a,
{
    lemma_decimal_digits(a);
    lemma_decimal_digits(b);
    if a < 10 && b < 10 {
        assert(decimal(a)[0] == (ZERO + a) as u8);
        assert(decimal(b)[0] == (ZERO + b) as u8);
    } else if a < 10 || b < 10 {
        assert(decimal(a).len() != decimal(b).len());
    } else {
        let x = decimal(a / 10);
        let y = decimal(b / 10);
        let da = (ZERO + a % 10) as u8;
        let db = (ZERO + b % 10) as u8;
        assert(x.push(da).last() == y.push(db).last());
        assert(x.push(da).drop_last() =~= x);
        assert(y.push(db).drop_last() =~= y);
        assert(x == y);
        assert(da == db);
        lemma_decimal_injective(a / 10, b / 10);
        assert(a % 10 == b % 10);
        assert(a == 10 * (a / 10) + a % 10);
        assert(b == 10 * (b / 10) + b % 10);
    }
}

/// Different cases are kept under different names.
pub proof fn lemma_artifact_names_differ(first: u64, second: u64)
    requires
        first != second,
    ensures
        artifact_name(first) != artifact_name(second),
{
    if artifact_name(first) == artifact_name(second) {
        let a = decimal(first as nat);
        let b = decimal(second as nat);
        let p = artifact_prefix();
        let s = artifact_suffix();
        assert((p + a + s).len() == (p + b + s).len());
        assert(a =~= b) by {
            assert forall|i: int| 0 <= i < a.len() implies a[i] == b[i] by {
                assert((p + a + s)[p.len() + i] == a[i]);
                assert((p + b + s)[p.len() + i] == b[i]);
            }
        }
        lemma_decimal_injective(first as nat, second as nat);
    }
}

/// The decimal digits of `n`.
pub fn decimal_digits(n: u64) -> (out: Vec<u8>)
    ensures
        out@ == decimal(n as nat),
{
    let mut low_first: Vec<u8> = Vec::new();
    let mut rest: u64 = n;
    while rest >= 10
        invariant
            decimal(n as nat) == decimal(rest as nat) + low_first@.reverse(),
        decreases rest,
    {
        let digit: u8 = ZERO + (rest % 10) as u8;
        proof {
            let tail = low_first@.reverse();
            let grown = low_first@.push(digit).reverse();
            assert(grown =~= seq![digit] + tail);
            assert(decimal(rest as nat) == decimal((rest / 10) as nat).push(digit));
            assert(decimal((rest / 10) as nat).push(digit) + tail =~= decimal((rest / 10) as nat)
                + grown);
        }
        low_first.push(digit);
        rest = rest / 10;
    }
    let leading: u8 = ZERO + rest as u8;
    let mut out: Vec<u8> = Vec::new();
    out.push(leading);
    let mut left: usize = low_first.len();
    while left > 0
        invariant
            left <= low_first.len(),
            out@ == seq![leading] + low_first@.reverse().take(low_first.len() - left),
        decreases left,
    {
        left = left - 1;
        out.push(low_first[left]);
        proof {
            let r = low_first@.reverse();
            let k = low_first.len() - left - 1;
            assert(r[k] == low_first@[left as int]);
            assert(r.take(k + 1) =~= r.take(k).push(r[k]));
            assert(seq![leading] + r.take(k + 1) =~= (seq![leading] + r.take(k)).push(r[k]));
        }
    }
    proof {
        let r = low_first@.reverse();
        assert(r.take(low_first.len() as int) =~= r);
        assert(decimal(rest as nat) =~= seq![leading]);
    }
    out
}

/// Name of the file that keeps the input of the failed case `index`.
pub fn failure_artifact_name(index: u64) -> (name: Vec<u8>)
    ensures
        name@ == artifact_name(index),
{
    let mut name: Vec<u8> = Vec::new();
    name.push(102u8);
    name.push(97u8);
    name.push(105u8);
    name.push(108u8);
    name.push(95u8);
    assert(name@ =~= artifact_prefix());
    let digits = decimal_digits(index);
    append_bytes(&mut name, digits.as_slice());
    name.push(DOT);
    name.push(105u8);
    name.push(110u8);
    assert(name@ =~= artifact_name(index));
    name
}

/// Name of the file of the generated case `index` with extension `ext`.
pub fn case_file_name(index: u64, ext: &[u8]) -> (name: Vec<u8>)
    ensures
        name@ == case_name(index, ext@),
{
    let mut name = decimal_digits(index);
    name.push(DOT);
    append_bytes(&mut name, ext);
    assert(name@ =~= case_name(index, ext@));
    name
}

} // verus!
