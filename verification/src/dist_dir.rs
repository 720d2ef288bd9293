//! Naming the output directory of a batch.
//!
//! A batch writes into a directory of its own, created under a parent that
//! the caller chooses. The directory is called `opt`, or `opt_1`, `opt_2`
//! and so on: the first of these names, in this order, that is not taken.

use vstd::prelude::*;
use vstd::set_lib::lemma_len_subset;
use crate::outcome::about;
use crate::outcome::describe;
use crate::outcome::failure_with_cause;
use crate::outcome::Failure;
use crate::path::model_of;
use crate::path::ParsedPath;
use crate::path::PathModel;
use crate::text::chars_eq;
use crate::text::chars_of;
use crate::text::push_str;
use crate::text::string_of;
use crate::text::string_texts;

verus! {

/// The character for a digit from 0 to 9.
pub open spec fn digit(d: int) -> char {
    (48 + d) as u8 as char
}

/// The digits of a number in base ten, without leading zeros.
pub open spec fn decimal(n: nat) -> Seq<char>
    decreases n,
{
    if n < 10 {
        seq![digit(n as int)]
    } else {
        decimal(n / 10).push(digit((n % 10) as int))
    }
}

/// The number that a text of digits stands for.
pub open spec fn decimal_value(digits: Seq<char>) -> int
    decreases digits.len(),
{
    if digits.len() == 0 {
        0
    } else {
        decimal_value(digits.drop_last()) * 10 + (digits.last() as int - 48)
    }
}

/// The name of the candidate with the given index: `opt` for index 0,
/// `opt_` followed by the index for every other.
pub open spec fn dist_dir_name_of(index: nat) -> Seq<char> {
    if index == 0 {
        "opt"@
    } else {
        "opt_"@ + decimal(index)
    }
}

/// The path of the candidate with the given index under `parent`.
pub open spec fn dist_dir_path_of(parent: Seq<char>, index: nat) -> Seq<char> {
    model_of(parent).join(
        PathModel { rooted: false, parts: seq![dist_dir_name_of(index)] },
    ).render()
}

/// Whether `index` is the first candidate that is not taken: its name is
/// not among `taken`, and the name of every candidate before it is.
pub open spec fn is_first_free(taken: Seq<Seq<char>>, index: nat) -> bool {
    &&& !taken.contains(dist_dir_name_of(index))
    &&& forall|j: nat| j < index ==> taken.contains(#[trigger] dist_dir_name_of(j))
}

/// The index of the first candidate that is not taken.
pub open spec fn first_free(taken: Seq<Seq<char>>) -> nat {
    choose|index: nat| is_first_free(taken, index)
}

/// The names of the first `count` candidates.
pub open spec fn first_names(count: nat) -> Set<Seq<char>>
    decreases count,
{
    if count == 0 {
        Set::empty()
    } else {
        first_names((count - 1) as nat).insert(dist_dir_name_of((count - 1) as nat))
    }
}

/// Reading the digits of a number gives the number back.
pub proof fn lemma_decimal_value(n: nat)
    ensures
        decimal_value(decimal(n)) == n,
    decreases n,
{
    if n < 10 {
        assert(decimal(n).drop_last() =~= Seq::<char>::empty());
        assert(decimal_value(decimal(n).drop_last()) == 0);
    } else {
        lemma_decimal_value(n / 10);
        assert(decimal(n).drop_last() =~= decimal(n / 10));
    }
}

/// Candidates with different indices have different names.
pub proof fn lemma_names_differ(i: nat, j: nat)
    requires
        i != j,
    ensures
        dist_dir_name_of(i) != dist_dir_name_of(j),
{
    reveal_strlit("opt");
    reveal_strlit("opt_");
    if i != 0 && j != 0 {
        lemma_decimal_value(i);
        lemma_decimal_value(j);
        assert(dist_dir_name_of(i).skip(4) =~= decimal(i));
        assert(dist_dir_name_of(j).skip(4) =~= decimal(j));
    } else if i == 0 {
        assert(dist_dir_name_of(j).len() > 3);
    } else {
        assert(dist_dir_name_of(i).len() > 3);
    }
}

/// The first `count` candidates have `count` names between them.
pub proof fn lemma_first_names(count: nat)
    ensures
        first_names(count).finite(),
        first_names(count).len() == count,
        forall|name: Seq<char>|
            first_names(count).contains(name) <==> exists|j: nat|
                j < count && name == #[trigger] dist_dir_name_of(j),
    decreases count,
{
    if count > 0 {
        let before = (count - 1) as nat;
        lemma_first_names(before);
        let last = dist_dir_name_of(before);
        assert(!first_names(before).contains(last)) by {
            if first_names(before).contains(last) {
                let j = choose|j: nat| j < before && last == #[trigger] dist_dir_name_of(j);
                lemma_names_differ(j, before);
            }
        }
        assert forall|name: Seq<char>|
            first_names(count).contains(name) <==> exists|j: nat|
                j < count && name == #[trigger] dist_dir_name_of(j) by {
            if first_names(count).contains(name) {
                if name == last {
                    assert(before < count && name == dist_dir_name_of(before));
                } else {
                    let j = choose|j: nat| j < before && name == #[trigger] dist_dir_name_of(j);
                    assert(j < count && name == dist_dir_name_of(j));
                }
            }
            if exists|j: nat| j < count && name == #[trigger] dist_dir_name_of(j) {
                let j = choose|j: nat| j < count && name == #[trigger] dist_dir_name_of(j);
                if j < before {
                    assert(first_names(before).contains(name));
                }
            }
        }
    }
}

/// Where the first `count` candidates are all taken, there are at least
/// `count` taken names. So among the first `taken.len() + 1` candidates one
/// is free.
pub proof fn lemma_taken_names_are_counted(taken: Seq<Seq<char>>, count: nat)
    requires
        forall|j: nat| j < count ==> taken.contains(#[trigger] dist_dir_name_of(j)),
    ensures
        count <= taken.len(),
{
    lemma_first_names(count);
    vstd::seq_lib::seq_to_set_is_finite(taken);
    assert(first_names(count).subset_of(taken.to_set())) by {
        assert forall|name: Seq<char>| first_names(count).contains(name) implies taken.to_set().contains(
            name,
        ) by {
            let j = choose|j: nat| j < count && name == #[trigger] dist_dir_name_of(j);
            assert(taken.contains(dist_dir_name_of(j)));
        }
    }
    lemma_len_subset(first_names(count), taken.to_set());
    taken.lemma_cardinality_of_set();
}

/// Only one candidate is the first free one.
pub proof fn lemma_first_free_is_unique(taken: Seq<Seq<char>>, index: nat)
    requires
        is_first_free(taken, index),
    ensures
        first_free(taken) == index,
{
    let other = first_free(taken);
    assert(is_first_free(taken, other));
    if other < index {
        assert(taken.contains(dist_dir_name_of(other)));
    } else if index < other {
        assert(taken.contains(dist_dir_name_of(index)));
    }
}

/// Appends the digits of `n` to `out`.
pub fn push_decimal(out: &mut Vec<char>, n: u64)
    ensures
        final(out)@ == old(out)@ + decimal(n as nat),
    decreases n,
{
    if n >= 10 {
        push_decimal(out, n / 10);
    }
    let d: u8 = (n % 10) as u8;
    out.push((48u8 + d) as char);
    assert(out@ =~= old(out)@ + decimal(n as nat));
}

/// The characters of the name of the candidate with the given index.
pub fn dist_dir_name_chars(index: u64) -> (name: Vec<char>)
    ensures
        name@ == dist_dir_name_of(index as nat),
{
    let mut out: Vec<char> = Vec::new();
    if index == 0 {
        push_str(&mut out, "opt");
        assert(out@ =~= "opt"@);
    } else {
        push_str(&mut out, "opt_");
        push_decimal(&mut out, index);
    }
    out
}

/// The name of the candidate with the given index.
pub fn dist_dir_name(index: u64) -> (name: String)
    ensures
        name@ == dist_dir_name_of(index as nat),
{
    string_of(&dist_dir_name_chars(index))
}

/// Whether `name` is among `existing`.
pub fn name_is_taken(existing: &Vec<String>, name: &Vec<char>) -> (taken: bool)
    ensures
        taken == string_texts(existing@).contains(name@),
{
    let mut i: usize = 0;
    while i < existing.len()
        invariant
            i <= existing.len(),
            forall|j: int| 0 <= j < i ==> string_texts(existing@)[j] != name@,
        decreases existing.len() - i,
    {
        if chars_eq(&chars_of(existing[i].as_str()), name) {
            assert(string_texts(existing@)[i as int] == name@);
            return true;
        }
        i += 1;
    }
    false
}

/// The search for a free name, one probe at a time. Whoever drives the
/// search asks whether the candidate exists and, if it does, turns to the
/// next one.
#[derive(Clone, Copy, Debug, PartialEq, Eq)]
pub struct DistDirSearch {
    /// The index of the candidate to probe next. Every candidate before it
    /// was found to exist.
    pub index: u64,
}

impl DistDirSearch {
    /// A search that starts with the candidate `opt`.
    pub fn new() -> (search: DistDirSearch)
        ensures
            search.index == 0,
    {
        DistDirSearch { index: 0 }
    }

    /// The name to probe.
    pub fn candidate(&self) -> (name: String)
        ensures
            name@ == dist_dir_name_of(self.index as nat),
    {
        dist_dir_name(self.index)
    }

    /// The path to probe under `parent`.
    pub fn candidate_path(&self, parent: &str) -> (path: String)
        ensures
            path@ == dist_dir_path_of(parent@, self.index as nat),
    {
        let mut parts: Vec<Vec<char>> = Vec::new();
        let name = dist_dir_name_chars(self.index);
        parts.push(name);
        let relative = ParsedPath { rooted: false, parts };
        assert(relative@.parts =~= seq![name@]);
        ParsedPath::parse(parent).join(&relative).render()
    }

    /// The search after the candidate was found to exist: it turns to the
    /// next one.
    pub fn skip(self) -> (search: DistDirSearch)
        requires
            self.index < u64::MAX,
        ensures
            search.index == self.index + 1,
    {
        DistDirSearch { index: self.index + 1 }
    }
}

/// Why a batch cannot start: its output directory could not be created.
/// This is the one failure that ends a whole batch, and it does so before
/// any image has been touched.
pub fn allocation_failure(path: &str, cause: Vec<String>) -> (failure: Failure)
    ensures
        failure@ == seq![about("Failed to create "@, path@)] + string_texts(cause@),
{
    failure_with_cause(describe("Failed to create ", path), cause)
}

/// Picks the name of a new output directory beside the `existing` names:
/// the first candidate whose name is not among them. The search never runs
/// out of candidates, since `existing` can hold only so many of them.
pub fn create_dist_dir(existing: &Vec<String>) -> (name: String)
    ensures
        name@ == dist_dir_name_of(first_free(string_texts(existing@))),
        is_first_free(string_texts(existing@), first_free(string_texts(existing@))),
{
    let ghost taken = string_texts(existing@);
    let mut search = DistDirSearch::new();
    loop
        invariant
            taken == string_texts(existing@),
            forall|j: nat| j < search.index ==> taken.contains(#[trigger] dist_dir_name_of(j)),
        decreases existing.len() - search.index,
    {
        proof {
            lemma_taken_names_are_counted(taken, search.index as nat);
        }
        let candidate = chars_of(search.candidate().as_str());
        if !name_is_taken(existing, &candidate) {
            proof {
                lemma_first_free_is_unique(taken, search.index as nat);
            }
            return string_of(&candidate);
        }
        proof {
            assert forall|j: nat| j < search.index + 1 implies taken.contains(
                #[trigger] dist_dir_name_of(j),
            ) by {}
            lemma_taken_names_are_counted(taken, (search.index + 1) as nat);
        }
        search = search.skip();
    }
}

} // verus!
