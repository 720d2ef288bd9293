//! The batch as a whole: what each image contributes to the report, the
//! progress notice it triggers, and the order of the final report.
//!
//! Images are processed independently and in no particular order. A failure
//! of one image becomes one error record and touches no other image. The
//! report is sorted once, at the end, so that it does not depend on which
//! image finished first.

use vstd::prelude::*;
use crate::outcome::join_frames;
use crate::outcome::Failure;
use crate::outcome::OptimizeError;
use crate::outcome::OptimizeErrorView;
use crate::outcome::OptimizeResult;
use crate::outcome::OptimizeResultOrError;
use crate::outcome::OptimizeResultView;
use crate::outcome::ProgressEventPayload;
use crate::outcome::RecordView;
use crate::path::source_relative;
use crate::path::source_relative_path;
use crate::pipeline::outcome_view;
use crate::pipeline::results_view;
use crate::pipeline::Input;
use crate::pipeline::InputView;
use crate::sorting::is_stable_sort_of;
use crate::sorting::lemma_sort_of_images;
use crate::sorting::path_key;
use crate::sorting::sort_by_path;
use crate::sorting::Pathed;
use crate::text::lowercase;
use crate::text::to_lowercase;

verus! {

/// The view of a record, as a function value.
pub open spec fn record_view() -> spec_fn(OptimizeResultOrError) -> RecordView {
    |record: OptimizeResultOrError| record@
}

/// What a sequence of records holds.
pub open spec fn records_view(records: Seq<OptimizeResultOrError>) -> Seq<RecordView> {
    records.map_values(record_view())
}

/// The path that a record is listed under: for a result the path of its
/// original image, for an error the path of the image that failed.
pub open spec fn record_path(record: RecordView) -> Seq<char> {
    match record {
        RecordView::Result(result) => result.original_path,
        RecordView::Error(error) => error.path,
    }
}

/// The key that records are sorted by: the path in lowercase.
pub open spec fn record_key() -> spec_fn(RecordView) -> Seq<char> {
    |record: RecordView| lowercase(record_path(record))
}

/// A result as a record.
pub open spec fn as_result_record() -> spec_fn(OptimizeResultView) -> RecordView {
    |result: OptimizeResultView| RecordView::Result(result)
}

/// What one image contributes to the report: its results if its pipeline
/// succeeded, and otherwise a single error that names the image and tells
/// the whole chain of causes.
pub open spec fn records_of(
    input: InputView,
    outcome: Result<Seq<OptimizeResultView>, Seq<Seq<char>>>,
) -> Seq<RecordView> {
    match outcome {
        Ok(results) => results.map_values(as_result_record()),
        Err(frames) => seq![
            RecordView::Error(
                OptimizeErrorView {
                    path: source_relative(input.entry, input.input_root),
                    error: join_frames(frames),
                },
            ),
        ],
    }
}

/// The key under which a record is sorted.
pub fn get_path_from_result(result: &OptimizeResultOrError) -> (key: String)
    ensures
        key@ == record_key()(result@),
{
    to_lowercase(result.path_str())
}

/// Turns the outcome of one image's pipeline into its records.
pub fn entry_records(input: &Input, outcome: Result<Vec<OptimizeResult>, Failure>) -> (records: Vec<
    OptimizeResultOrError,
>)
    ensures
        records_view(records@) == records_of(input@, outcome_view(outcome)),
{
    let mut records: Vec<OptimizeResultOrError> = Vec::new();
    match outcome {
        Ok(results) => {
            let ghost all = results@;
            assert(all.take(0) =~= Seq::<OptimizeResult>::empty());
            assert(records_view(records@) =~= results_view(all.take(0)).map_values(
                as_result_record(),
            ));
            for result in it: results
                invariant
                    it.seq() == all,
                    records_view(records@) == results_view(all.take(it.index())).map_values(
                        as_result_record(),
                    ),
            {
                let ghost before = records_view(records@);
                records.push(OptimizeResultOrError::Result(result));
                assert(records_view(records@) =~= before.push(RecordView::Result(result@)));
                assert(results_view(all.take(it.index() + 1)) =~= results_view(
                    all.take(it.index()),
                ).push(result@));
                assert(records_view(records@) =~= results_view(
                    all.take(it.index() + 1),
                ).map_values(as_result_record()));
            }
            assert(all.take(all.len() as int) =~= all);
        },
        Err(failure) => {
            let error = OptimizeError {
                path: source_relative_path(input.entry.as_str(), input.input_root.as_str()),
                error: failure.message(),
            };
            records.push(OptimizeResultOrError::Error(error));
            assert(records_view(records@) =~= seq![RecordView::Error(error@)]);
        },
    }
    records
}

/// The notice that an image has been dealt with. It names the image the
/// same way as an error record would.
pub fn progress_payload(input: &Input) -> (payload: ProgressEventPayload)
    ensures
        payload.path@ == source_relative(input.entry@, input.input_root@),
{
    ProgressEventPayload {
        path: source_relative_path(input.entry.as_str(), input.input_root.as_str()),
    }
}

/// An image with the outcome of its pipeline.
#[derive(Debug, PartialEq, Eq)]
pub struct EntryOutcome {
    pub input: Input,
    pub outcome: Result<Vec<OptimizeResult>, Failure>,
}

/// What an `EntryOutcome` holds.
pub struct EntryView {
    pub input: InputView,
    pub outcome: Result<Seq<OptimizeResultView>, Seq<Seq<char>>>,
}

impl View for EntryOutcome {
    type V = EntryView;

    open spec fn view(&self) -> EntryView {
        EntryView { input: self.input@, outcome: outcome_view(self.outcome) }
    }
}

/// The view of an outcome, as a function value.
pub open spec fn entry_view() -> spec_fn(EntryOutcome) -> EntryView {
    |entry: EntryOutcome| entry@
}

/// What a sequence of outcomes holds.
pub open spec fn entries_view(outcomes: Seq<EntryOutcome>) -> Seq<EntryView> {
    outcomes.map_values(entry_view())
}

/// The records of all images one after the other, in the order in which
/// the outcomes arrived.
pub open spec fn batch_records(entries: Seq<EntryView>) -> Seq<RecordView>
    decreases entries.len(),
{
    if entries.len() == 0 {
        Seq::empty()
    } else {
        batch_records(entries.drop_last()) + records_of(
            entries.last().input,
            entries.last().outcome,
        )
    }
}

/// Makes the report of a batch from the outcomes of its images: every
/// image's records, sorted by the path of the original image without regard
/// to case. Records with the same key stay in the order of arrival. A
/// failed image is an error record among the others; it does not make the
/// batch fail.
pub fn optimize(outcomes: Vec<EntryOutcome>) -> (report: Vec<OptimizeResultOrError>)
    ensures
        is_stable_sort_of(
            records_view(report@),
            batch_records(entries_view(outcomes@)),
            record_key(),
        ),
        report@.len() == batch_records(entries_view(outcomes@)).len(),
{
    let ghost all = outcomes@;
    let mut gathered: Vec<OptimizeResultOrError> = Vec::new();
    assert(entries_view(all.take(0)) =~= Seq::<EntryView>::empty());
    assert(records_view(gathered@) =~= batch_records(entries_view(all.take(0))));
    for entry in it: outcomes
        invariant
            it.seq() == all,
            records_view(gathered@) == batch_records(entries_view(all.take(it.index()))),
    {
        let ghost before = records_view(gathered@);
        let ghost held = entry@;
        let EntryOutcome { input, outcome } = entry;
        let mut records = entry_records(&input, outcome);
        let ghost added = records_view(records@);
        gathered.append(&mut records);
        proof {
            let next = entries_view(all.take(it.index() + 1));
            assert(records_view(gathered@) =~= before + added);
            assert(next.drop_last() =~= entries_view(all.take(it.index())));
            assert(next.last() == held);
        }
    }
    assert(all.take(all.len() as int) =~= all);
    let ghost unsorted = gathered@;
    let report = sort_by_path(gathered);
    proof {
        assert forall|x: OptimizeResultOrError| #[trigger]
            record_key()(record_view()(x)) == path_key::<OptimizeResultOrError>()(x) by {}
        lemma_sort_of_images(
            report@,
            unsorted,
            record_view(),
            path_key::<OptimizeResultOrError>(),
            record_key(),
        );
    }
    report
}

/// Every image contributes exactly one group of records: the results of
/// its pipeline and no error, or one error and no result.
pub proof fn lemma_one_group_per_image(
    input: InputView,
    outcome: Result<Seq<OptimizeResultView>, Seq<Seq<char>>>,
)
    ensures
        match outcome {
            Ok(results) => {
                &&& records_of(input, outcome).len() == results.len()
                &&& forall|i: int|
                    0 <= i < results.len() ==> #[trigger] records_of(input, outcome)[i]
                        == RecordView::Result(results[i])
            },
            Err(frames) => {
                &&& records_of(input, outcome).len() == 1
                &&& records_of(input, outcome)[0] is Error
                &&& records_of(input, outcome)[0]->Error_0.path == source_relative(
                    input.entry,
                    input.input_root,
                )
            },
        },
{
}

/// The progress notice of an image and the error record of that image, if
/// it fails, name the image by the same path.
pub proof fn lemma_progress_names_the_image(input: InputView, frames: Seq<Seq<char>>)
    ensures
        records_of(input, Err(frames))[0]->Error_0.path == source_relative(
            input.entry,
            input.input_root,
        ),
{
}

/// The records of a batch are those of its images, image after image: the
/// records before and after those of an image are the same whatever became
/// of that image.
pub proof fn lemma_images_do_not_touch_each_other(before: Seq<EntryView>, after: Seq<EntryView>)
    ensures
        batch_records(before + after) == batch_records(before) + batch_records(after),
    decreases after.len(),
{
    if after.len() == 0 {
        assert(before + after =~= before);
        assert(batch_records(before) + batch_records(after) =~= batch_records(before));
    } else {
        lemma_images_do_not_touch_each_other(before, after.drop_last());
        assert((before + after).drop_last() =~= before + after.drop_last());
        assert((before + after).last() == after.last());
        let last = records_of(after.last().input, after.last().outcome);
        assert((batch_records(before) + batch_records(after.drop_last())) + last
            =~= batch_records(before) + (batch_records(after.drop_last()) + last));
    }
}

} // verus!
