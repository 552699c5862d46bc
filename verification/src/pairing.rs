//! Cases kept in directories: which files of a listing are inputs, in which
//! order they are enumerated, and which expected output belongs to each.

use vstd::prelude::*;
use vstd::seq_lib::lemma_sorted_unique;
use crate::bytes::{append_bytes, copy_bytes, copy_prefix, same_bytes};
use crate::naming::{with_extension, DOT};
use crate::order::{ascending, lemma_lex_total, lemma_lex_transitive, lemma_name_order_total, lex_le, name_order, precedes};

verus! {

/// `name` is a non-empty stem, a dot, and the extension `ext`.
pub open spec fn has_extension(name: Seq<u8>, ext: Seq<u8>) -> bool {
    &&& name.len() > ext.len() + 1
    &&& name[name.len() - ext.len() - 1] == DOT
    &&& name.skip(name.len() - ext.len()) == ext
}

/// What stands before the dot and the extension `ext` in `name`.
pub open spec fn stem_of(name: Seq<u8>, ext: Seq<u8>) -> Seq<u8> {
    name.take(name.len() - ext.len() - 1)
}

/// Name of the expected output that belongs to the input `name`: the same
/// stem with the output extension in place of the input extension.
pub open spec fn paired_name(name: Seq<u8>, in_ext: Seq<u8>, out_ext: Seq<u8>) -> Seq<u8> {
    with_extension(stem_of(name, in_ext), out_ext)
}

/// The byte strings that a vector of names holds.
pub open spec fn names(listing: Seq<Vec<u8>>) -> Seq<Seq<u8>> {
    Seq::new(listing.len(), |i: int| listing[i]@)
}

/// The names of a listing that have the extension `ext`, in listing order.
pub open spec fn selected(listing: Seq<Seq<u8>>, ext: Seq<u8>) -> Seq<Seq<u8>> {
    listing.filter(|name: Seq<u8>| has_extension(name, ext))
}

/// The inputs of a listing in the order of enumeration: the names with the
/// extension `ext`, in ascending lexicographic order.
pub open spec fn enumeration(listing: Seq<Seq<u8>>, ext: Seq<u8>) -> Seq<Seq<u8>> {
    selected(listing, ext).sort_by(name_order())
}

/// The expected output of input `k` is not among `outputs`, and those of all
/// inputs before it are.
pub open spec fn is_first_missing(
    inputs: Seq<Seq<u8>>,
    outputs: Seq<Seq<u8>>,
    in_ext: Seq<u8>,
    out_ext: Seq<u8>,
    k: int,
) -> bool {
    &&& 0 <= k < inputs.len()
    &&& !outputs.contains(paired_name(inputs[k], in_ext, out_ext))
    &&& forall|j: int|
        0 <= j < k ==> outputs.contains(paired_name(#[trigger] inputs[j], in_ext, out_ext))
}

/// The expected output of every input is among `outputs`.
pub open spec fn all_paired(
    inputs: Seq<Seq<u8>>,
    outputs: Seq<Seq<u8>>,
    in_ext: Seq<u8>,
    out_ext: Seq<u8>,
) -> bool {
    forall|j: int|
        0 <= j < inputs.len() ==> outputs.contains(
            paired_name(#[trigger] inputs[j], in_ext, out_ext),
        )
}

/// Mathematical model of a [`CasePair`].
pub struct PairView {
    /// Name of the input file.
    pub input: Seq<u8>,
    /// Name of the file with the expected output.
    pub expected: Seq<u8>,
}

/// An input file and the file that holds its expected output, by name.
#[derive(Debug)]
pub struct CasePair {
    /// Name of the input file.
    pub input: Vec<u8>,
    /// Name of the file with the expected output.
    pub expected: Vec<u8>,
}

impl View for CasePair {
    type V = PairView;

    open spec fn view(&self) -> PairView {
        PairView { input: self.input@, expected: self.expected@ }
    }
}

/// Why the cases of two directories could not be paired.
#[derive(Debug)]
pub enum PairingError {
    /// An input has no expected output: no file of this name is in the
    /// output directory.
    MissingExpected(Vec<u8>),
}

/// The pairs that the directories hold, in the order of enumeration, or the
/// name of the first expected output that is missing.
pub open spec fn pairing(
    inputs: Seq<Seq<u8>>,
    outputs: Seq<Seq<u8>>,
    in_ext: Seq<u8>,
    out_ext: Seq<u8>,
) -> Result<Seq<PairView>, Seq<u8>> {
    let cases = enumeration(inputs, in_ext);
    if all_paired(cases, outputs, in_ext, out_ext) {
        Ok(
            Seq::new(
                cases.len(),
                |i: int|
                    PairView {
                        input: cases[i],
                        expected: paired_name(cases[i], in_ext, out_ext),
                    },
            ),
        )
    } else {
        let k = choose|k: int| is_first_missing(cases, outputs, in_ext, out_ext, k);
        Err(paired_name(cases[k], in_ext, out_ext))
    }
}

/// The outcome of pairing as a value of the model.
pub open spec fn pairing_view(r: Result<Vec<CasePair>, PairingError>) -> Result<
    Seq<PairView>,
    Seq<u8>,
> {
    match r {
        Ok(pairs) => Ok(Seq::new(pairs@.len(), |i: int| pairs@[i]@)),
        Err(PairingError::MissingExpected(name)) => Err(name@),
    }
}

/// Tells whether `name` is a non-empty stem, a dot, and the extension `ext`.
pub fn matches_extension(name: &[u8], ext: &[u8]) -> (r: bool)
    ensures
        r == has_extension(name@, ext@),
{
    if name.len() <= ext.len() || name.len() - ext.len() <= 1 {
        return false;
    }
    let start: usize = name.len() - ext.len();
    if name[start - 1] != DOT {
        return false;
    }
    let mut i: usize = 0;
    while i < ext.len()
        invariant
            i <= ext.len(),
            start + ext.len() == name.len(),
            forall|k: int| 0 <= k < i ==> name@[start + k] == ext@[k],
        decreases ext.len() - i,
    {
        if name[start + i] != ext[i] {
            assert(name@.skip(start as int)[i as int] != ext@[i as int]);
            return false;
        }
        i = i + 1;
    }
    assert(name@.skip(start as int) =~= ext@);
    true
}

/// Name of the expected output that belongs to the input `name`, or `None`
/// where `name` does not have the input extension.
pub fn expected_name(name: &[u8], in_ext: &[u8], out_ext: &[u8]) -> (r: Option<Vec<u8>>)
    ensures
        r is Some <==> has_extension(name@, in_ext@),
        r matches Some(paired) ==> paired@ == paired_name(name@, in_ext@, out_ext@),
{
    if matches_extension(name, in_ext) {
        Some(replace_extension(name, in_ext, out_ext))
    } else {
        None
    }
}

/// The stem of `name` with the extension `out_ext`.
fn replace_extension(name: &[u8], in_ext: &[u8], out_ext: &[u8]) -> (paired: Vec<u8>)
    requires
        has_extension(name@, in_ext@),
    ensures
        paired@ == paired_name(name@, in_ext@, out_ext@),
{
    let mut paired = copy_prefix(name, name.len() - in_ext.len() - 1);
    paired.push(DOT);
    append_bytes(&mut paired, out_ext);
    assert(paired@ =~= paired_name(name@, in_ext@, out_ext@));
    paired
}

/// Tells whether `name` is one of the names of `listing`.
pub fn contains_name(listing: &Vec<Vec<u8>>, name: &[u8]) -> (r: bool)
    ensures
        r == names(listing@).contains(name@),
{
    let mut i: usize = 0;
    while i < listing.len()
        invariant
            i <= listing.len(),
            forall|k: int| 0 <= k < i ==> names(listing@)[k] != name@,
        decreases listing.len() - i,
    {
        if same_bytes(listing[i].as_slice(), name) {
            assert(names(listing@)[i as int] == name@);
            return true;
        }
        i = i + 1;
    }
    false
}

/// Puts `name` into a vector of names in ascending order, behind the names
/// that come before it or equal it.
fn insert_in_order(sorted: &mut Vec<Vec<u8>>, name: Vec<u8>)
    requires
        ascending(names(old(sorted)@)),
    ensures
        ascending(names(final(sorted)@)),
        names(final(sorted)@).to_multiset() == names(old(sorted)@).to_multiset().insert(name@),
{
    let ghost before = names(sorted@);
    let mut at: usize = 0;
    while at < sorted.len() && precedes(sorted[at].as_slice(), name.as_slice())
        invariant
            at <= sorted.len(),
            names(sorted@) == before,
            forall|k: int| 0 <= k < at ==> lex_le(#[trigger] before[k], name@),
        decreases sorted.len() - at,
    {
        at = at + 1;
    }
    sorted.insert(at, name);
    proof {
        let after = names(sorted@);
        assert(after =~= before.insert(at as int, name@));
        vstd::seq_lib::to_multiset_insert(before, at as int, name@);
        assert forall|i: int, j: int| 0 <= i < j < after.len() implies #[trigger] name_order()(
            after[i],
            after[j],
        ) by {
            if j < at {
                assert(name_order()(before[i], before[j]));
            } else if j == at {
                assert(lex_le(before[i], name@));
            } else if i == at {
                assert(!lex_le(before[at as int], name@));
                lemma_lex_total(before[at as int], name@);
                if j - 1 > at {
                    assert(name_order()(before[at as int], before[j - 1]));
                    lemma_lex_transitive(name@, before[at as int], before[j - 1]);
                }
            } else if i > at {
                assert(name_order()(before[i - 1], before[j - 1]));
            } else {
                assert(name_order()(before[i], before[j - 1]));
            }
        }
    }
}

/// The inputs of a listing in the order of enumeration: the names with the
/// extension `ext`, in ascending lexicographic order. The order of the
/// listing plays no part.
pub fn enumerate_inputs(listing: &Vec<Vec<u8>>, ext: &[u8]) -> (cases: Vec<Vec<u8>>)
    ensures
        names(cases@) == enumeration(names(listing@), ext@),
{
    let ghost all = names(listing@);
    let ghost wanted = |name: Seq<u8>| has_extension(name, ext@);
    let mut cases: Vec<Vec<u8>> = Vec::new();
    let mut i: usize = 0;
    proof {
        assert(all.take(0) =~= Seq::empty());
        assert(names(cases@) =~= Seq::empty());
        assert(selected(all.take(0), ext@) =~= Seq::empty()) by {
            all.take(0).lemma_filter_len(wanted);
        }
    }
    while i < listing.len()
        invariant
            i <= listing.len(),
            all == names(listing@),
            ascending(names(cases@)),
            names(cases@).to_multiset() == selected(all.take(i as int), ext@).to_multiset(),
        decreases listing.len() - i,
    {
        proof {
            assert(all.take(i + 1) =~= all.take(i as int).push(all[i as int]));
            all.take(i as int).lemma_filter_push(
                all[i as int],
                |name: Seq<u8>| has_extension(name, ext@),
            );
            vstd::seq_lib::to_multiset_build(selected(all.take(i as int), ext@), all[i as int]);
        }
        if matches_extension(listing[i].as_slice(), ext) {
            let name = copy_bytes(listing[i].as_slice());
            insert_in_order(&mut cases, name);
        }
        i = i + 1;
    }
    proof {
        assert(all.take(listing.len() as int) =~= all);
        lemma_name_order_total();
        selected(all, ext@).lemma_sort_by_ensures(name_order());
        lemma_sorted_unique(names(cases@), enumeration(all, ext@), name_order());
    }
    cases
}

/// Pairs the inputs of one directory with the expected outputs of another.
///
/// `inputs` and `outputs` are the file names that the two directories hold,
/// in any order. The cases are the inputs with the extension `in_ext`, in
/// ascending lexicographic order; the expected output of a case has the same
/// stem and the extension `out_ext`. Where the expected output of a case is
/// missing, the first such name is returned as the error.
pub fn pair_cases(
    inputs: &Vec<Vec<u8>>,
    outputs: &Vec<Vec<u8>>,
    in_ext: &[u8],
    out_ext: &[u8],
) -> (r: Result<Vec<CasePair>, PairingError>)
    ensures
        pairing_view(r) == pairing(names(inputs@), names(outputs@), in_ext@, out_ext@),
{
    let cases = enumerate_inputs(inputs, in_ext);
    let ghost order = names(cases@);
    let ghost present = names(outputs@);
    let mut pairs: Vec<CasePair> = Vec::new();
    let mut i: usize = 0;
    while i < cases.len()
        invariant
            i <= cases.len(),
            order == names(cases@),
            order == enumeration(names(inputs@), in_ext@),
            present == names(outputs@),
            pairs@.len() == i,
            forall|j: int|
                0 <= j < i ==> present.contains(paired_name(#[trigger] order[j], in_ext@, out_ext@)),
            forall|j: int|
                0 <= j < i ==> (#[trigger] pairs@[j])@ == (PairView {
                    input: order[j],
                    expected: paired_name(order[j], in_ext@, out_ext@),
                }),
        decreases cases.len() - i,
    {
        proof {
            lemma_enumeration_has_extension(names(inputs@), in_ext@, i as int);
            assert(order[i as int] == cases@[i as int]@);
        }
        let expected = replace_extension(cases[i].as_slice(), in_ext, out_ext);
        if !contains_name(outputs, expected.as_slice()) {
            proof {
                assert(is_first_missing(order, present, in_ext@, out_ext@, i as int));
                lemma_first_missing_unique(
                    order,
                    present,
                    in_ext@,
                    out_ext@,
                    i as int,
                    choose|k: int| is_first_missing(order, present, in_ext@, out_ext@, k),
                );
            }
            return Err(PairingError::MissingExpected(expected));
        }
        let input = copy_bytes(cases[i].as_slice());
        pairs.push(CasePair { input, expected });
        i = i + 1;
    }
    proof {
        assert(all_paired(order, present, in_ext@, out_ext@));
        let got = Seq::new(pairs@.len(), |i: int| pairs@[i]@);
        let owed = Seq::new(
            order.len(),
            |i: int| PairView { input: order[i], expected: paired_name(order[i], in_ext@, out_ext@) },
        );
        assert(got =~= owed);
    }
    Ok(pairs)
}

/// Every enumerated input has the input extension.
pub proof fn lemma_enumeration_has_extension(listing: Seq<Seq<u8>>, ext: Seq<u8>, i: int)
    requires
        0 <= i < enumeration(listing, ext).len(),
    ensures
        has_extension(enumeration(listing, ext)[i], ext),
        listing.contains(enumeration(listing, ext)[i]),
{
    let wanted = |name: Seq<u8>| has_extension(name, ext);
    let chosen = selected(listing, ext);
    let cases = enumeration(listing, ext);
    lemma_name_order_total();
    chosen.lemma_sort_by_ensures(name_order());
    broadcast use vstd::seq_lib::group_to_multiset_ensures;

    assert(cases.contains(cases[i]));
    assert(cases.to_multiset().count(cases[i]) > 0);
    assert(chosen.contains(cases[i]));
    let k = choose|k: int| 0 <= k < chosen.len() && chosen[k] == cases[i];
    listing.lemma_filter_pred(wanted, k);
    listing.lemma_filter_contains_rev(wanted, cases[i]);
}

/// At most one input is the first whose expected output is missing.
pub proof fn lemma_first_missing_unique(
    inputs: Seq<Seq<u8>>,
    outputs: Seq<Seq<u8>>,
    in_ext: Seq<u8>,
    out_ext: Seq<u8>,
    k: int,
    l: int,
)
    requires
        is_first_missing(inputs, outputs, in_ext, out_ext, k),
        is_first_missing(inputs, outputs, in_ext, out_ext, l),
    ensures
        k == l,
{
    if k < l {
        assert(outputs.contains(paired_name(inputs[k], in_ext, out_ext)));
    }
    if l < k {
        assert(outputs.contains(paired_name(inputs[l], in_ext, out_ext)));
    }
}

/// A name occurs among the selected names as often as in the listing, if it
/// has the extension, and not at all otherwise.
pub proof fn lemma_selected_count(listing: Seq<Seq<u8>>, ext: Seq<u8>, name: Seq<u8>)
    ensures
        selected(listing, ext).to_multiset().count(name) == if has_extension(name, ext) {
            listing.to_multiset().count(name)
        } else {
            0
        },
    decreases listing.len(),
{
    broadcast use vstd::multiset::group_multiset_axioms;

    let wanted = |n: Seq<u8>| has_extension(n, ext);
    if listing.len() == 0 {
        listing.lemma_filter_len(wanted);
        assert(selected(listing, ext) =~= Seq::empty());
        assert(listing =~= Seq::empty());
        assert(Seq::<Seq<u8>>::empty().to_multiset().count(name) == 0) by {
            vstd::seq_lib::to_multiset_len(Seq::<Seq<u8>>::empty());
        }
    } else {
        let head = listing.drop_last();
        let last = listing.last();
        assert(listing =~= head.push(last));
        lemma_selected_count(head, ext, name);
        head.lemma_filter_push(last, wanted);
        vstd::seq_lib::to_multiset_build(head, last);
        vstd::seq_lib::to_multiset_build(selected(head, ext), last);
    }
}

/// The enumeration of a listing depends on the names it holds and not on the
/// order in which it holds them.
pub proof fn lemma_enumeration_ignores_listing_order(
    first: Seq<Seq<u8>>,
    second: Seq<Seq<u8>>,
    ext: Seq<u8>,
)
    requires
        first.to_multiset() == second.to_multiset(),
    ensures
        enumeration(first, ext) == enumeration(second, ext),
{
    let a = selected(first, ext);
    let b = selected(second, ext);
    assert(a.to_multiset() =~= b.to_multiset()) by {
        assert forall|name: Seq<u8>| a.to_multiset().count(name) == b.to_multiset().count(
            name,
        ) by {
            lemma_selected_count(first, ext, name);
            lemma_selected_count(second, ext, name);
        }
    }
    lemma_name_order_total();
    a.lemma_sort_by_ensures(name_order());
    b.lemma_sort_by_ensures(name_order());
    lemma_sorted_unique(a.sort_by(name_order()), b.sort_by(name_order()), name_order());
}

/// Pairing depends on the names that the two directories hold and not on the
/// order in which their listings give them.
pub proof fn lemma_pairing_ignores_listing_order(
    first_inputs: Seq<Seq<u8>>,
    first_outputs: Seq<Seq<u8>>,
    second_inputs: Seq<Seq<u8>>,
    second_outputs: Seq<Seq<u8>>,
    in_ext: Seq<u8>,
    out_ext: Seq<u8>,
)
    requires
        first_inputs.to_multiset() == second_inputs.to_multiset(),
        first_outputs.to_multiset() == second_outputs.to_multiset(),
    ensures
        pairing(first_inputs, first_outputs, in_ext, out_ext) == pairing(
            second_inputs,
            second_outputs,
            in_ext,
            out_ext,
        ),
{
    lemma_enumeration_ignores_listing_order(first_inputs, second_inputs, in_ext);
    let cases = enumeration(first_inputs, in_ext);
    assert forall|name: Seq<u8>| first_outputs.contains(name) == second_outputs.contains(
        name,
    ) by {
        vstd::seq_lib::to_multiset_contains(first_outputs, name);
        vstd::seq_lib::to_multiset_contains(second_outputs, name);
    }
    assert(all_paired(cases, first_outputs, in_ext, out_ext) == all_paired(
        cases,
        second_outputs,
        in_ext,
        out_ext,
    ));
    if !all_paired(cases, first_outputs, in_ext, out_ext) {
        lemma_first_missing_exists(cases, first_outputs, in_ext, out_ext, cases.len() as int);
        let k = choose|k: int| is_first_missing(cases, first_outputs, in_ext, out_ext, k);
        assert(is_first_missing(cases, second_outputs, in_ext, out_ext, k));
        let l = choose|l: int| is_first_missing(cases, second_outputs, in_ext, out_ext, l);
        lemma_first_missing_unique(cases, second_outputs, in_ext, out_ext, k, l);
    }
}

/// Where the expected output of some input before `bound` is missing, one of
/// these inputs is the first of which it is missing.
pub proof fn lemma_first_missing_exists(
    inputs: Seq<Seq<u8>>,
    outputs: Seq<Seq<u8>>,
    in_ext: Seq<u8>,
    out_ext: Seq<u8>,
    bound: int,
)
    requires
        0 <= bound <= inputs.len(),
        exists|j: int|
            0 <= j < bound && !outputs.contains(
                paired_name(#[trigger] inputs[j], in_ext, out_ext),
            ),
    ensures
        exists|k: int| 0 <= k < bound && is_first_missing(inputs, outputs, in_ext, out_ext, k),
    decreases bound,
{
    let j = choose|j: int|
        0 <= j < bound && !outputs.contains(paired_name(#[trigger] inputs[j], in_ext, out_ext));
    if exists|i: int|
        0 <= i < j && !outputs.contains(paired_name(#[trigger] inputs[i], in_ext, out_ext)) {
        lemma_first_missing_exists(inputs, outputs, in_ext, out_ext, j);
    } else {
        assert(is_first_missing(inputs, outputs, in_ext, out_ext, j));
    }
}

} // verus!
