//! Laws of the per-image pipeline: what a plan can hold, what a job keeps
//! true from its start to its end, and what that means for its outcome.

use vstd::prelude::*;
use crate::options::Codec;
use crate::options::Options;
use crate::outcome::OptimizeResultView;
use crate::path::model_of;
use crate::path::PathModel;
use crate::path_laws::lemma_join_then_strip;
use crate::pipeline::action_of;
use crate::pipeline::advance_of;
use crate::pipeline::job_is_sound;
use crate::pipeline::lemma_advance_is_sound;
use crate::pipeline::locate;
use crate::pipeline::plan_of;
use crate::pipeline::primary_steps;
use crate::pipeline::secondary_steps;
use crate::pipeline::start_of;
use crate::pipeline::step_is_sound;
use crate::pipeline::InputView;
use crate::pipeline::JobView;
use crate::pipeline::PlanView;
use crate::pipeline::Stage;
use crate::pipeline::StepView;

verus! {

/// The answers that a driver gives to a job, one per action.
pub type Answers = Seq<Result<u64, Seq<Seq<char>>>>;

/// Where a step gets to when the given answers are handed to it one after
/// the other. Answers that come after the end of the job are not read.
pub open spec fn run(step: StepView, answers: Answers) -> StepView
    decreases answers.len(),
{
    if answers.len() == 0 {
        step
    } else {
        match step {
            StepView::Done(_) => step,
            StepView::Next(job, _) => run(advance_of(job, answers.first()), answers.drop_first()),
        }
    }
}

/// A plan has at most two transforms: the primary one if it was asked for
/// and can run, then the secondary one if it was asked for.
pub proof fn lemma_plan_has_at_most_two_steps(
    input: InputView,
    dist_dir: Seq<char>,
    options: Options,
)
    requires
        plan_of(input, dist_dir, options) is Ok,
    ensures
        plan_of(input, dist_dir, options)->Ok_0.steps.len() <= 2,
        !options.optimize_images && !options.generate_webp ==> plan_of(
            input,
            dist_dir,
            options,
        )->Ok_0.steps.len() == 0,
        !options.optimize_images ==> plan_of(input, dist_dir, options)->Ok_0.blocked.is_none(),
{
}

/// A failure at any stage ends the job with a failure. Whatever earlier
/// transforms of the same image produced is not reported.
pub proof fn lemma_failure_ends_the_job(job: JobView, cause: Seq<Seq<char>>)
    requires
        job_is_sound(job),
    ensures
        advance_of(job, Err(cause)) matches StepView::Done(Err(_)),
{
}

/// The size that a result reports is the size that was measured: when a
/// job that waits for the size of a written file is given that size, the
/// result that it adds carries it.
pub proof fn lemma_measured_size_is_reported(job: JobView, index: usize, size: u64)
    requires
        job_is_sound(job),
        job.stage == Stage::Measuring(index),
    ensures
        match advance_of(job, Ok(size)) {
            StepView::Next(next, _) => next.results == job.results.push(
                OptimizeResultView {
                    path: job.plan.steps[index as int].path,
                    original_path: job.plan.original_path,
                    original_size: job.original_size,
                    final_size: size,
                },
            ),
            StepView::Done(Ok(results)) => results == job.results.push(
                OptimizeResultView {
                    path: job.plan.steps[index as int].path,
                    original_path: job.plan.original_path,
                    original_size: job.original_size,
                    final_size: size,
                },
            ),
            StepView::Done(Err(_)) => false,
        },
{
}

/// Whatever the answers, a job that was sound stays sound to its end. So a
/// job that ends well always reports one result for each transform of its
/// plan, in the plan's order, and never more than two.
pub proof fn lemma_run_is_sound(step: StepView, plan: PlanView, answers: Answers)
    requires
        step_is_sound(step, plan),
    ensures
        step_is_sound(run(step, answers), plan),
    decreases answers.len(),
{
    if answers.len() > 0 {
        if let StepView::Next(job, _) = step {
            lemma_advance_is_sound(job, answers.first());
            lemma_run_is_sound(advance_of(job, answers.first()), plan, answers.drop_first());
        }
    }
}

/// The number of answers that a job still takes at most before it ends.
pub open spec fn answers_left(step: StepView) -> int {
    match step {
        StepView::Done(_) => 0,
        StepView::Next(job, _) => {
            let steps = job.plan.steps.len() as int;
            match job.stage {
                Stage::CreatingDir => 2 + 2 * steps,
                Stage::MeasuringEntry => 1 + 2 * steps,
                Stage::Encoding(i) => 2 * (steps - i),
                Stage::Measuring(i) => 2 * (steps - i) - 1,
            }
        },
    }
}

/// Every answer brings a sound job closer to its end.
pub proof fn lemma_advance_uses_an_answer(job: JobView, answer: Result<u64, Seq<Seq<char>>>)
    requires
        job_is_sound(job),
    ensures
        answers_left(advance_of(job, answer)) < answers_left(StepView::Next(job, action_of(job))),
{
}

/// A job cannot be kept going: after six answers at the latest it has
/// ended, with its results or with a failure.
pub proof fn lemma_job_ends(step: StepView, plan: PlanView, answers: Answers)
    requires
        step_is_sound(step, plan),
        answers.len() >= answers_left(step),
    ensures
        run(step, answers) is Done,
        answers_left(step) <= 6,
    decreases answers.len(),
{
    if let StepView::Next(job, _) = step {
        lemma_advance_is_sound(job, answers.first());
        lemma_advance_uses_an_answer(job, answers.first());
        lemma_job_ends(advance_of(job, answers.first()), plan, answers.drop_first());
    }
}

/// With neither transform asked for, the pipeline is a no-op and not a
/// failure: once the output directory exists and the original has been
/// measured, the job ends well with no result. No encoder runs.
pub proof fn lemma_nothing_asked_nothing_done(
    input: InputView,
    dist_dir: Seq<char>,
    options: Options,
    created: u64,
    size: u64,
)
    requires
        !options.optimize_images,
        !options.generate_webp,
        plan_of(input, dist_dir, options) is Ok,
    ensures
        run(start_of(input, dist_dir, options), seq![Ok(created), Ok(size)]) == StepView::Done(
            Ok(Seq::<OptimizeResultView>::empty()),
        ),
{
    let plan = plan_of(input, dist_dir, options)->Ok_0;
    let answers: Answers = seq![Ok(created), Ok(size)];
    let start = start_of(input, dist_dir, options);
    let job0 = start->Next_0;
    let second = advance_of(job0, Ok(created));
    let job1 = second->Next_0;
    let third = advance_of(job1, Ok(size));
    assert(plan.steps.len() == 0);
    assert(third == StepView::Done(Ok(Seq::<OptimizeResultView>::empty())));
    assert(answers.first() == Ok::<u64, Seq<Seq<char>>>(created));
    assert(answers.drop_first() =~= seq![Ok(size)]);
    assert(answers.drop_first().first() == Ok::<u64, Seq<Seq<char>>>(size));
    assert(answers.drop_first().drop_first() =~= Seq::empty());
    reveal_with_fuel(run, 3);
}

/// With both transforms asked for and the WebP version to be made from the
/// optimised image, the secondary transform reads the very file that the
/// primary transform writes, and not the original.
pub proof fn lemma_webp_reads_the_primary_output(
    input: InputView,
    dist_dir: Seq<char>,
    options: Options,
)
    requires
        options.optimize_images,
        options.generate_webp,
        options.webp_from_optimized,
        plan_of(input, dist_dir, options) is Ok,
        plan_of(input, dist_dir, options)->Ok_0.blocked.is_none(),
    ensures
        ({
            let plan = plan_of(input, dist_dir, options)->Ok_0;
            &&& plan.steps.len() == 2
            &&& plan.steps[0].input == input.entry
            &&& plan.steps[1].codec == (Codec::Webp { quality: options.webp_quality })
            &&& plan.steps[1].input == plan.steps[0].output
        }),
{
}

/// Where the WebP version is not to be made from an optimised image, the
/// secondary transform reads the original.
pub proof fn lemma_webp_reads_the_original(input: InputView, dist_dir: Seq<char>, options: Options)
    requires
        options.generate_webp,
        !(options.webp_from_optimized && options.optimize_images),
        plan_of(input, dist_dir, options) is Ok,
    ensures
        ({
            let plan = plan_of(input, dist_dir, options)->Ok_0;
            &&& plan.steps.len() >= 1
            &&& plan.steps.last().codec == (Codec::Webp { quality: options.webp_quality })
            &&& plan.steps.last().input == input.entry
        }),
{
}

/// A root that is a single file contributes its file name and nothing else.
pub proof fn lemma_file_root_keeps_its_name(input: InputView)
    requires
        input.root_is_file,
        model_of(input.input_root).file_name().is_some(),
    ensures
        locate(input) == Ok::<PathModel, Seq<Seq<char>>>(
            PathModel {
                rooted: false,
                parts: seq![model_of(input.input_root).file_name().unwrap()],
            },
        ),
{
}

/// Under a root that is a directory, the located path of an image begins
/// with the directory's own name and goes on with the image's path below
/// the directory.
pub proof fn lemma_directory_root_keeps_its_name(input: InputView)
    requires
        !input.root_is_file,
        model_of(input.input_root).parts.len() > 0,
        model_of(input.entry).starts_with(model_of(input.input_root)),
    ensures
        ({
            let root = model_of(input.input_root);
            let entry = model_of(input.entry);
            let below = entry.parts.skip(root.parts.len() as int);
            locate(input) == Ok::<PathModel, Seq<Seq<char>>>(
                PathModel { rooted: false, parts: seq![root.parts.last()] + below },
            )
        }),
{
    let root = model_of(input.input_root);
    let entry = model_of(input.entry);
    let parent = root.parent().unwrap();
    let n = root.parts.len() as int;
    assert(entry.parts.take(n - 1) =~= entry.parts.take(n).take(n - 1));
    assert(entry.parts.take(n - 1) =~= parent.parts);
    assert(entry.parts.take(n)[n - 1] == root.parts[n - 1]);
    assert(entry.parts.skip(n - 1) =~= seq![root.parts.last()] + entry.parts.skip(n));
}

/// Whether an image is one that a walk of its root can find: the root is a
/// single file with a file name, or a directory with a name of its own
/// under which the image lies.
pub open spec fn is_found_under_its_root(input: InputView) -> bool {
    if input.root_is_file {
        model_of(input.input_root).file_name().is_some()
    } else {
        &&& model_of(input.input_root).parts.len() > 0
        &&& model_of(input.entry).starts_with(model_of(input.input_root))
    }
}

/// Every image that a walk of its root can find can be placed, whatever the
/// output directory and the options: planning it does not fail.
pub proof fn lemma_found_images_can_be_planned(
    input: InputView,
    dist_dir: Seq<char>,
    options: Options,
)
    requires
        is_found_under_its_root(input),
    ensures
        locate(input) is Ok,
        locate(input)->Ok_0.parts.len() > 0,
        plan_of(input, dist_dir, options) is Ok,
{
    if input.root_is_file {
        lemma_file_root_keeps_its_name(input);
    } else {
        lemma_directory_root_keeps_its_name(input);
    }
}

/// The result of the primary transform is reported under the same path as
/// the original: the output tree mirrors the selection.
pub proof fn lemma_primary_result_mirrors_the_original(
    input: InputView,
    dist_dir: Seq<char>,
    options: Options,
)
    requires
        plan_of(input, dist_dir, options) is Ok,
        primary_steps(
            input.entry,
            model_of(dist_dir),
            model_of(dist_dir).join(locate(input)->Ok_0),
            options,
        ).len() > 0,
    ensures
        ({
            let plan = plan_of(input, dist_dir, options)->Ok_0;
            &&& plan.steps.len() > 0
            &&& plan.steps[0].path == plan.original_path
            &&& plan.steps[0].output == model_of(dist_dir).join(locate(input)->Ok_0).render()
        }),
{
    let relative = locate(input)->Ok_0;
    let dist = model_of(dist_dir);
    lemma_output_starts_with_dist(input, dist);
    let output = dist.join(relative);
    let first = primary_steps(input.entry, dist, output, options);
    let second = secondary_steps(input.entry, dist, output, options);
    assert((first + second)[0] == first[0]);
}

/// A located path is never rooted. So the output of an image starts with
/// the output directory, and taken relative to that directory it is the
/// located path again.
pub proof fn lemma_output_starts_with_dist(input: InputView, dist: PathModel)
    requires
        locate(input) is Ok,
    ensures
        !locate(input)->Ok_0.rooted,
        dist.join(locate(input)->Ok_0).starts_with(dist),
        dist.join(locate(input)->Ok_0).strip_prefix(dist) == Some(locate(input)->Ok_0),
{
    let relative = locate(input)->Ok_0;
    lemma_join_then_strip(dist, relative);
}

} // verus!
