//! Laws of the batch: the report does not depend on which image finished
//! first.

use vstd::prelude::*;
use crate::batch::batch_records;
use crate::batch::record_key;
use crate::batch::records_of;
use crate::batch::EntryView;
use crate::outcome::RecordView;
use crate::sorting::has_key;
use crate::sorting::is_stable_sort_of;
use crate::sorting::lemma_arrival_order_is_forgotten;
use crate::sorting::same_under_every_key;
use crate::sorting::with_key;

verus! {

/// The records that one image contributes.
pub open spec fn outcome_records(entry: EntryView) -> Seq<RecordView> {
    records_of(entry.input, entry.outcome)
}

/// Whether an image contributes a record with key `k`.
pub open spec fn speaks_of(entry: EntryView, k: Seq<char>) -> bool {
    with_key(outcome_records(entry), record_key(), k).len() > 0
}

/// Whether no key is shared between two images of the batch.
pub open spec fn keys_do_not_clash(outcomes: Seq<EntryView>) -> bool {
    forall|i: int, j: int, k: Seq<char>|
        0 <= i < outcomes.len() && 0 <= j < outcomes.len() && i != j && #[trigger] speaks_of(
            outcomes[i],
            k,
        ) ==> !#[trigger] speaks_of(outcomes[j], k)
}

/// A key that no image speaks of has no record in the batch.
pub proof fn lemma_unspoken_key_has_no_record(outcomes: Seq<EntryView>, k: Seq<char>)
    requires
        forall|i: int| 0 <= i < outcomes.len() ==> !speaks_of(#[trigger] outcomes[i], k),
    ensures
        with_key(batch_records(outcomes), record_key(), k) == Seq::<RecordView>::empty(),
    decreases outcomes.len(),
{
    let p = has_key(record_key(), k);
    if outcomes.len() == 0 {
        assert(batch_records(outcomes).filter(p) =~= Seq::<RecordView>::empty()) by {
            reveal(Seq::filter);
        }
    } else {
        let front = outcomes.drop_last();
        assert forall|i: int| 0 <= i < front.len() implies !speaks_of(#[trigger] front[i], k) by {
            assert(front[i] == outcomes[i]);
        }
        lemma_unspoken_key_has_no_record(front, k);
        let last = outcome_records(outcomes.last());
        assert(!speaks_of(outcomes[outcomes.len() - 1], k));
        Seq::filter_distributes_over_add(batch_records(front), last, p);
        assert(last.filter(p) =~= Seq::<RecordView>::empty());
        assert(batch_records(outcomes).filter(p) =~= Seq::<RecordView>::empty());
    }
}

/// A key that only one image speaks of has the records of that image and no
/// others.
pub proof fn lemma_key_of_one_image(outcomes: Seq<EntryView>, at: int, k: Seq<char>)
    requires
        0 <= at < outcomes.len(),
        forall|i: int| 0 <= i < outcomes.len() && i != at ==> !speaks_of(#[trigger] outcomes[i], k),
    ensures
        with_key(batch_records(outcomes), record_key(), k) == with_key(
            outcome_records(outcomes[at]),
            record_key(),
            k,
        ),
    decreases outcomes.len(),
{
    let p = has_key(record_key(), k);
    let front = outcomes.drop_last();
    let last = outcome_records(outcomes.last());
    Seq::filter_distributes_over_add(batch_records(front), last, p);
    if at == outcomes.len() - 1 {
        assert forall|i: int| 0 <= i < front.len() implies !speaks_of(#[trigger] front[i], k) by {
            assert(front[i] == outcomes[i]);
        }
        lemma_unspoken_key_has_no_record(front, k);
        assert(batch_records(outcomes).filter(p) =~= last.filter(p));
    } else {
        assert forall|i: int| 0 <= i < front.len() && i != at implies !speaks_of(
            #[trigger] front[i],
            k,
        ) by {
            assert(front[i] == outcomes[i]);
        }
        lemma_key_of_one_image(front, at, k);
        assert(front[at] == outcomes[at]);
        assert(!speaks_of(outcomes[outcomes.len() - 1], k));
        assert(last.filter(p) =~= Seq::<RecordView>::empty());
        assert(batch_records(outcomes).filter(p) =~= batch_records(front).filter(p));
    }
}

/// Two arrival orders of the same outcomes hold, under every key, the same
/// records in the same order, where no key is shared between two images.
pub proof fn lemma_orders_agree_under_every_key(first: Seq<EntryView>, second: Seq<EntryView>)
    requires
        first.to_multiset() == second.to_multiset(),
        keys_do_not_clash(first),
        keys_do_not_clash(second),
    ensures
        same_under_every_key(batch_records(first), batch_records(second), record_key()),
{
    broadcast use vstd::seq_lib::to_multiset_contains;

    assert forall|k: Seq<char>| #[trigger]
        with_key(batch_records(first), record_key(), k) == with_key(
            batch_records(second),
            record_key(),
            k,
        ) by {
        if exists|i: int| 0 <= i < first.len() && speaks_of(#[trigger] first[i], k) {
            let i = choose|i: int| 0 <= i < first.len() && speaks_of(#[trigger] first[i], k);
            let entry = first[i];
            assert(first.contains(entry));
            assert(first.to_multiset().count(entry) > 0);
            assert(second.to_multiset().count(entry) > 0);
            assert(second.contains(entry));
            let j = choose|j: int| 0 <= j < second.len() && second[j] == entry;
            assert(speaks_of(second[j], k));
            lemma_key_of_one_image(first, i, k);
            lemma_key_of_one_image(second, j, k);
        } else {
            assert forall|j: int| 0 <= j < second.len() implies !speaks_of(
                #[trigger] second[j],
                k,
            ) by {
                if speaks_of(second[j], k) {
                    let entry = second[j];
                    assert(second.contains(entry));
                    assert(second.to_multiset().count(entry) > 0);
                    assert(first.to_multiset().count(entry) > 0);
                    assert(first.contains(entry));
                    let i = choose|i: int| 0 <= i < first.len() && first[i] == entry;
                    assert(speaks_of(first[i], k));
                }
            }
            lemma_unspoken_key_has_no_record(first, k);
            lemma_unspoken_key_has_no_record(second, k);
        }
    }
}

/// The report of a batch does not depend on the order in which the images
/// finished: two arrival orders of the same outcomes give the same report,
/// where no key is shared between two images.
pub proof fn lemma_report_forgets_the_arrival_order(
    first: Seq<EntryView>,
    second: Seq<EntryView>,
    first_report: Seq<RecordView>,
    second_report: Seq<RecordView>,
)
    requires
        first.to_multiset() == second.to_multiset(),
        keys_do_not_clash(first),
        keys_do_not_clash(second),
        is_stable_sort_of(first_report, batch_records(first), record_key()),
        is_stable_sort_of(second_report, batch_records(second), record_key()),
    ensures
        first_report == second_report,
{
    lemma_orders_agree_under_every_key(first, second);
    lemma_arrival_order_is_forgotten(
        batch_records(first),
        batch_records(second),
        first_report,
        second_report,
        record_key(),
    );
}

} // verus!
