//! Stable, case-insensitive sorting of records by path.
//!
//! Records are ordered by the lowercase form of their path. Records whose
//! keys are equal keep the order in which they arrived. These two demands
//! leave exactly one result for a given arrival order, which the laws at the
//! end of this module state.

use vstd::prelude::*;
use crate::text::chars_le;
use crate::text::chars_of;
use crate::text::lemma_lex_le_antisymmetric;
use crate::text::lemma_lex_le_reflexive;
use crate::text::lemma_lex_le_total;
use crate::text::lemma_lex_le_transitive;
use crate::text::lex_le;
use crate::text::lowercase;
use crate::text::to_lowercase;

verus! {

/// A record that is listed under a path.
pub trait Pathed {
    /// The path that the record is listed under.
    spec fn path_text(&self) -> Seq<char>;

    /// The path that the record is listed under.
    fn path_str(&self) -> (path: &str)
        ensures
            path@ == self.path_text(),
    ;
}

/// The key that a record is ordered by: its path in lowercase.
pub open spec fn key_of<T: Pathed>(x: T) -> Seq<char> {
    lowercase(x.path_text())
}

/// `key_of` as a function value.
pub open spec fn path_key<T: Pathed>() -> spec_fn(T) -> Seq<char> {
    |x: T| key_of(x)
}

/// Whether the keys of a sequence never descend.
pub open spec fn ordered<A>(s: Seq<A>, key: spec_fn(A) -> Seq<char>) -> bool {
    forall|i: int, j: int| 0 <= i < j < s.len() ==> lex_le(key(#[trigger] s[i]), key(#[trigger] s[j]))
}

/// The predicate "has key `k`".
pub open spec fn has_key<A>(key: spec_fn(A) -> Seq<char>, k: Seq<char>) -> spec_fn(A) -> bool {
    |x: A| key(x) == k
}

/// The records of `s` whose key is `k`, in the order in which `s` has them.
pub open spec fn with_key<A>(s: Seq<A>, key: spec_fn(A) -> Seq<char>, k: Seq<char>) -> Seq<A> {
    s.filter(has_key(key, k))
}

/// Whether `a` and `b` hold, under every key, the same records in the same
/// order.
pub open spec fn same_under_every_key<A>(a: Seq<A>, b: Seq<A>, key: spec_fn(A) -> Seq<char>) -> bool {
    forall|k: Seq<char>| #[trigger] with_key(a, key, k) == with_key(b, key, k)
}

/// Whether `out` is `input` sorted by key with ties left in arrival order.
pub open spec fn is_stable_sort_of<A>(out: Seq<A>, input: Seq<A>, key: spec_fn(A) -> Seq<char>) -> bool {
    &&& ordered(out, key)
    &&& same_under_every_key(out, input, key)
}

/// The key of a record, computed.
pub fn sort_key<T: Pathed>(x: &T) -> (key: Vec<char>)
    ensures
        key@ == path_key::<T>()(*x),
{
    let lowered = to_lowercase(x.path_str());
    chars_of(lowered.as_str())
}

/// Whether the texts of a sequence never descend.
pub open spec fn keys_ascend(keys: Seq<Vec<char>>) -> bool {
    forall|i: int, j: int| 0 <= i < j < keys.len() ==> lex_le(#[trigger] keys[i]@, #[trigger] keys[j]@)
}

/// The first index of the ascending `keys` whose key is not before `key`,
/// or the length of `keys` where every key is before it. The index is found
/// by halving the range in which it can lie.
pub fn insertion_point(keys: &Vec<Vec<char>>, key: &Vec<char>) -> (at: usize)
    requires
        keys_ascend(keys@),
    ensures
        at <= keys.len(),
        forall|i: int| 0 <= i < at ==> !lex_le(key@, #[trigger] keys@[i]@),
        forall|i: int| at <= i < keys.len() ==> lex_le(key@, #[trigger] keys@[i]@),
{
    let mut low: usize = 0;
    let mut high: usize = keys.len();
    while low < high
        invariant
            low <= high <= keys.len(),
            keys_ascend(keys@),
            forall|i: int| 0 <= i < low ==> !lex_le(key@, #[trigger] keys@[i]@),
            forall|i: int| high <= i < keys.len() ==> lex_le(key@, #[trigger] keys@[i]@),
        decreases high - low,
    {
        let middle = low + (high - low) / 2;
        if chars_le(key, &keys[middle]) {
            proof {
                assert forall|i: int| middle <= i < keys.len() implies lex_le(
                    key@,
                    #[trigger] keys@[i]@,
                ) by {
                    if middle < i {
                        lemma_lex_le_transitive(key@, keys@[middle as int]@, keys@[i]@);
                    }
                }
            }
            high = middle;
        } else {
            proof {
                assert forall|i: int| 0 <= i < middle + 1 implies !lex_le(
                    key@,
                    #[trigger] keys@[i]@,
                ) by {
                    if i < middle && lex_le(key@, keys@[i]@) {
                        lemma_lex_le_transitive(key@, keys@[i]@, keys@[middle as int]@);
                    }
                }
            }
            low = middle + 1;
        }
    }
    low
}

/// Placing `x` at index `at` of an ordered sequence, after the records whose
/// key is before its key and before the others, leaves the sequence ordered
/// and puts `x` first among the records of its key.
pub proof fn lemma_insert_keeps_order<A>(out: Seq<A>, at: int, x: A, key: spec_fn(A) -> Seq<char>)
    requires
        ordered(out, key),
        0 <= at <= out.len(),
        forall|i: int| 0 <= i < at ==> !lex_le(key(x), key(#[trigger] out[i])),
        at < out.len() ==> lex_le(key(x), key(out[at])),
    ensures
        ordered(out.insert(at, x), key),
        same_under_every_key(out.insert(at, x), seq![x] + out, key),
{
    let after = out.insert(at, x);
    assert forall|i: int, j: int| 0 <= i < j < after.len() implies lex_le(
        key(#[trigger] after[i]),
        key(#[trigger] after[j]),
    ) by {
        if j < at {
            assert(after[i] == out[i] && after[j] == out[j]);
        } else if j == at {
            assert(after[i] == out[i]);
            lemma_lex_le_total(key(x), key(out[i]));
        } else if i < at {
            assert(after[i] == out[i] && after[j] == out[j - 1]);
        } else if i == at {
            assert(after[j] == out[j - 1]);
            if j - 1 > at {
                assert(lex_le(key(out[at]), key(out[j - 1])));
                lemma_lex_le_transitive(key(x), key(out[at]), key(out[j - 1]));
            }
        } else {
            assert(after[i] == out[i - 1] && after[j] == out[j - 1]);
        }
    }
    assert forall|k: Seq<char>| #[trigger]
        with_key(after, key, k) == with_key(seq![x] + out, key, k) by {
        let p = has_key(key, k);
        let head = out.take(at);
        let tail = out.skip(at);
        assert(out =~= head + tail);
        assert(after =~= head + (seq![x] + tail));
        Seq::filter_distributes_over_add(head, tail, p);
        Seq::filter_distributes_over_add(head, seq![x] + tail, p);
        tail.lemma_filter_prepend(x, p);
        out.lemma_filter_prepend(x, p);
        if p(x) {
            assert forall|i: int| 0 <= i < head.len() implies !p(#[trigger] head[i]) by {
                assert(head[i] == out[i]);
                lemma_lex_le_reflexive(key(x));
            }
            assert(head.all(|y: A| !p(y)));
            head.lemma_all_neg_filter_empty(p);
            assert(head.filter(p) =~= Seq::<A>::empty());
            assert(with_key(after, key, k) =~= seq![x] + tail.filter(p));
            assert(with_key(seq![x] + out, key, k) =~= seq![x] + (head.filter(p) + tail.filter(p)));
        } else {
            assert(with_key(after, key, k) =~= head.filter(p) + tail.filter(p));
            assert(with_key(seq![x] + out, key, k) =~= head.filter(p) + tail.filter(p));
        }
    }
}

/// Sorts records by the lowercase form of their paths. Records with equal
/// keys stay in the order in which they were given.
pub fn sort_by_path<T: Pathed>(items: Vec<T>) -> (out: Vec<T>)
    ensures
        is_stable_sort_of(out@, items@, path_key::<T>()),
        out@.to_multiset() == items@.to_multiset(),
        out@.len() == items@.len(),
{
    let ghost key = path_key::<T>();
    let mut rest = items;
    let mut out: Vec<T> = Vec::new();
    let mut keys: Vec<Vec<char>> = Vec::new();
    assert(items@.skip(items@.len() as int) =~= out@);
    while rest.len() > 0
        invariant
            key == path_key::<T>(),
            rest@ == items@.take(rest@.len() as int),
            rest@.len() <= items@.len(),
            keys@.len() == out@.len(),
            forall|i: int| 0 <= i < out@.len() ==> #[trigger] keys@[i]@ == key(out@[i]),
            ordered(out@, key),
            same_under_every_key(out@, items@.skip(rest@.len() as int), key),
        decreases rest.len(),
    {
        let ghost n = rest@.len() as int;
        let ghost done = items@.skip(n);
        let x = rest.pop().unwrap();
        let x_key = sort_key(&x);
        proof {
            assert forall|i: int, j: int| 0 <= i < j < keys@.len() implies lex_le(
                #[trigger] keys@[i]@,
                #[trigger] keys@[j]@,
            ) by {
                assert(lex_le(key(out@[i]), key(out@[j])));
            }
        }
        let at = insertion_point(&keys, &x_key);
        proof {
            assert(x == items@[n - 1]);
            assert(rest@ =~= items@.take(n - 1));
            assert(items@.skip(n - 1) =~= seq![x] + done);
            assert forall|i: int| 0 <= i < at implies !lex_le(key(x), key(#[trigger] out@[i])) by {
                assert(keys@[i]@ == key(out@[i]));
            }
            if at < out@.len() {
                assert(lex_le(x_key@, keys@[at as int]@));
            }
            lemma_insert_keeps_order(out@, at as int, x, key);
            assert forall|k: Seq<char>| #[trigger]
                with_key(out@.insert(at as int, x), key, k) == with_key(
                    items@.skip(n - 1),
                    key,
                    k,
                ) by {
                let p = has_key(key, k);
                assert(with_key(out@.insert(at as int, x), key, k) == with_key(
                    seq![x] + out@,
                    key,
                    k,
                ));
                assert(with_key(out@, key, k) == with_key(done, key, k));
                out@.lemma_filter_prepend(x, p);
                done.lemma_filter_prepend(x, p);
            }
        }
        out.insert(at, x);
        keys.insert(at, x_key);
    }
    assert(items@.skip(0) =~= items@);
    proof {
        lemma_stable_sort_permutes(out@, items@, key);
    }
    out
}

/// A record of `s` with key `k` shows in `with_key(s, key, k)`, and where
/// that is not empty, `s` has a record with key `k`.
pub proof fn lemma_with_key_members<A>(s: Seq<A>, key: spec_fn(A) -> Seq<char>, k: Seq<char>)
    ensures
        forall|i: int|
            0 <= i < s.len() && key(#[trigger] s[i]) == k ==> with_key(s, key, k).len() > 0,
        with_key(s, key, k).len() > 0 ==> exists|i: int|
            0 <= i < s.len() && key(#[trigger] s[i]) == k,
    decreases s.len(),
{
    reveal(Seq::filter);
    let p = has_key(key, k);
    if s.len() > 0 {
        let front = s.drop_last();
        lemma_with_key_members(front, key, k);
        if p(s.last()) {
            assert(key(s[s.len() - 1]) == k);
        } else {
            assert(with_key(s, key, k) == with_key(front, key, k));
            assert forall|i: int| 0 <= i < s.len() && key(#[trigger] s[i]) == k implies with_key(
                s,
                key,
                k,
            ).len() > 0 by {
                assert(s[i] == front[i]);
            }
            if with_key(s, key, k).len() > 0 {
                let i = choose|i: int| 0 <= i < front.len() && key(#[trigger] front[i]) == k;
                assert(s[i] == front[i]);
            }
        }
    }
}

/// Two ordered sequences that hold the same records in the same order under
/// every key are the same sequence.
pub proof fn lemma_stable_sort_unique<A>(a: Seq<A>, b: Seq<A>, key: spec_fn(A) -> Seq<char>)
    requires
        ordered(a, key),
        ordered(b, key),
        same_under_every_key(a, b, key),
    ensures
        a == b,
    decreases a.len(),
{
    reveal(Seq::filter);
    if a.len() == 0 {
        if b.len() > 0 {
            let k = key(b.last());
            lemma_with_key_members(b, key, k);
            assert(with_key(a, key, k) == with_key(b, key, k));
        }
        assert(a =~= b);
    } else {
        let x = a.last();
        let k = key(x);
        assert(with_key(a, key, k) == with_key(b, key, k));
        lemma_with_key_members(a, key, k);
        lemma_with_key_members(b, key, k);
        assert(b.len() > 0);
        let y = b.last();
        let m = key(y);
        assert(with_key(a, key, m) == with_key(b, key, m));
        lemma_with_key_members(a, key, m);
        lemma_with_key_members(b, key, m);
        let j = choose|j: int| 0 <= j < b.len() && key(#[trigger] b[j]) == k;
        let i = choose|i: int| 0 <= i < a.len() && key(#[trigger] a[i]) == m;
        if j < b.len() - 1 {
            assert(lex_le(key(b[j]), key(b[b.len() - 1])));
        } else {
            lemma_lex_le_reflexive(k);
        }
        if i < a.len() - 1 {
            assert(lex_le(key(a[i]), key(a[a.len() - 1])));
        } else {
            lemma_lex_le_reflexive(m);
        }
        lemma_lex_le_antisymmetric(k, m);
        assert(with_key(a, key, k).last() == x);
        assert(with_key(b, key, k).last() == y);
        let a0 = a.drop_last();
        let b0 = b.drop_last();
        assert forall|i: int, j: int| 0 <= i < j < a0.len() implies lex_le(
            key(#[trigger] a0[i]),
            key(#[trigger] a0[j]),
        ) by {
            assert(a0[i] == a[i] && a0[j] == a[j]);
        }
        assert forall|i: int, j: int| 0 <= i < j < b0.len() implies lex_le(
            key(#[trigger] b0[i]),
            key(#[trigger] b0[j]),
        ) by {
            assert(b0[i] == b[i] && b0[j] == b[j]);
        }
        assert forall|q: Seq<char>| #[trigger]
            with_key(a0, key, q) == with_key(b0, key, q) by {
            assert(with_key(a, key, q) == with_key(b, key, q));
            if q == k {
                assert(with_key(a0, key, q) =~= with_key(a, key, q).drop_last());
                assert(with_key(b0, key, q) =~= with_key(b, key, q).drop_last());
            }
        }
        lemma_stable_sort_unique(a0, b0, key);
        assert(a =~= a0.push(x));
        assert(b =~= b0.push(y));
    }
}

/// The sorted list does not depend on the order in which records of
/// different keys arrived: two arrival orders that agree, under every key,
/// on the records and their order give the same sorted list.
pub proof fn lemma_arrival_order_is_forgotten<A>(
    first: Seq<A>,
    second: Seq<A>,
    first_sorted: Seq<A>,
    second_sorted: Seq<A>,
    key: spec_fn(A) -> Seq<char>,
)
    requires
        same_under_every_key(first, second, key),
        is_stable_sort_of(first_sorted, first, key),
        is_stable_sort_of(second_sorted, second, key),
    ensures
        first_sorted == second_sorted,
{
    assert forall|k: Seq<char>| #[trigger]
        with_key(first_sorted, key, k) == with_key(second_sorted, key, k) by {
        assert(with_key(first_sorted, key, k) == with_key(first, key, k));
        assert(with_key(first, key, k) == with_key(second, key, k));
        assert(with_key(second_sorted, key, k) == with_key(second, key, k));
    }
    lemma_stable_sort_unique(first_sorted, second_sorted, key);
}

/// Sorting is idempotent: sorting a list that is already ordered gives the
/// list back unchanged.
pub proof fn lemma_sorting_again_changes_nothing<A>(
    sorted: Seq<A>,
    again: Seq<A>,
    key: spec_fn(A) -> Seq<char>,
)
    requires
        ordered(sorted, key),
        is_stable_sort_of(again, sorted, key),
    ensures
        again == sorted,
{
    lemma_stable_sort_unique(again, sorted, key);
}

/// A record occurs in a sequence as often as among the records of its key.
pub proof fn lemma_count_under_key<A>(s: Seq<A>, key: spec_fn(A) -> Seq<char>, x: A)
    ensures
        s.to_multiset().count(x) == with_key(s, key, key(x)).to_multiset().count(x),
    decreases s.len(),
{
    reveal(Seq::filter);
    broadcast use vstd::seq_lib::to_multiset_build;

    let p = has_key(key, key(x));
    if s.len() == 0 {
        assert(with_key(s, key, key(x)) =~= s);
    } else {
        let front = s.drop_last();
        lemma_count_under_key(front, key, x);
        assert(s =~= front.push(s.last()));
        if p(s.last()) {
            assert(with_key(s, key, key(x)) == with_key(front, key, key(x)).push(s.last()));
        }
    }
}

/// Sorting loses and invents nothing: the sorted list holds every record
/// as often as the list that was sorted, and is as long.
pub proof fn lemma_stable_sort_permutes<A>(out: Seq<A>, input: Seq<A>, key: spec_fn(A) -> Seq<char>)
    requires
        same_under_every_key(out, input, key),
    ensures
        out.to_multiset() == input.to_multiset(),
        out.len() == input.len(),
{
    assert forall|x: A| out.to_multiset().count(x) == input.to_multiset().count(x) by {
        lemma_count_under_key(out, key, x);
        lemma_count_under_key(input, key, x);
        assert(with_key(out, key, key(x)) == with_key(input, key, key(x)));
    }
    assert(out.to_multiset() =~= input.to_multiset());
    vstd::seq_lib::to_multiset_len(out);
    vstd::seq_lib::to_multiset_len(input);
}

/// The records of `s.map_values(f)` under a key are the images of the
/// records of `s` under that key, where `f` keeps the key.
pub proof fn lemma_with_key_of_images<A, B>(
    s: Seq<A>,
    f: spec_fn(A) -> B,
    key: spec_fn(A) -> Seq<char>,
    image_key: spec_fn(B) -> Seq<char>,
    k: Seq<char>,
)
    requires
        forall|x: A| #[trigger] image_key(f(x)) == key(x),
    ensures
        with_key(s.map_values(f), image_key, k) == with_key(s, key, k).map_values(f),
    decreases s.len(),
{
    reveal(Seq::filter);
    if s.len() == 0 {
        assert(with_key(s.map_values(f), image_key, k) =~= with_key(s, key, k).map_values(f));
    } else {
        let front = s.drop_last();
        lemma_with_key_of_images(front, f, key, image_key, k);
        assert(s.map_values(f).drop_last() =~= front.map_values(f));
        assert(s.map_values(f).last() == f(s.last()));
        assert(image_key(f(s.last())) == key(s.last()));
        assert(with_key(s.map_values(f), image_key, k) =~= with_key(s, key, k).map_values(f));
    }
}

/// Sorting carries over to what the records hold: where `out` is `input`
/// sorted, the images of `out` under a map that keeps the key are the images
/// of `input` sorted.
pub proof fn lemma_sort_of_images<A, B>(
    out: Seq<A>,
    input: Seq<A>,
    f: spec_fn(A) -> B,
    key: spec_fn(A) -> Seq<char>,
    image_key: spec_fn(B) -> Seq<char>,
)
    requires
        is_stable_sort_of(out, input, key),
        forall|x: A| #[trigger] image_key(f(x)) == key(x),
    ensures
        is_stable_sort_of(out.map_values(f), input.map_values(f), image_key),
{
    let out_images = out.map_values(f);
    assert forall|i: int, j: int| 0 <= i < j < out_images.len() implies lex_le(
        image_key(#[trigger] out_images[i]),
        image_key(#[trigger] out_images[j]),
    ) by {
        assert(image_key(f(out[i])) == key(out[i]));
        assert(image_key(f(out[j])) == key(out[j]));
    }
    assert forall|k: Seq<char>| #[trigger]
        with_key(out_images, image_key, k) == with_key(input.map_values(f), image_key, k) by {
        lemma_with_key_of_images(out, f, key, image_key, k);
        lemma_with_key_of_images(input, f, key, image_key, k);
        assert(with_key(out, key, k) == with_key(input, key, k));
    }
}

} // verus!
