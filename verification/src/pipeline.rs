//! The per-image pipeline: where an image's outputs go, which transforms run
//! on it and in what order, and what it reports.
//!
//! The pipeline itself touches no file. It is a job that names the next
//! action to perform (create a directory, measure a file, run an encoder),
//! takes the answer, and either names the following action or ends with the
//! image's outcome. Whoever drives the job performs the actions.

use vstd::prelude::*;
use crate::options::Codec;
use crate::options::Options;
use crate::outcome::about;
use crate::outcome::describe;
use crate::outcome::failure_of;
use crate::outcome::failure_with_cause;
use crate::outcome::quoted;
use crate::outcome::Failure;
use crate::outcome::OptimizeResult;
use crate::outcome::OptimizeResultView;
use crate::path::model_of;
use crate::path::ParsedPath;
use crate::path::PathModel;
use crate::text::chars_eq;
use crate::text::chars_of;
use crate::text::lowercase;
use crate::text::push_str;
use crate::text::string_of;
use crate::text::string_texts;
use crate::text::to_lowercase;

verus! {

/// One image to process: the root that was selected, whether that root is a
/// single file, and the image found under it.
#[derive(Debug, PartialEq, Eq)]
pub struct Input {
    pub input_root: String,
    pub root_is_file: bool,
    pub entry: String,
}

/// What an `Input` holds.
pub struct InputView {
    pub input_root: Seq<char>,
    pub root_is_file: bool,
    pub entry: Seq<char>,
}

impl View for Input {
    type V = InputView;

    open spec fn view(&self) -> InputView {
        InputView {
            input_root: self.input_root@,
            root_is_file: self.root_is_file,
            entry: self.entry@,
        }
    }
}

/// The description of a prefix that could not be stripped.
pub open spec fn about_strip(parent: Seq<char>, entry: Seq<char>) -> Seq<char> {
    "Failed to strip prefix of "@ + quoted(parent) + " from "@ + quoted(entry)
}

/// The path of an image relative to the root of the output tree. A root
/// that is a single file contributes its file name. A root that is a
/// directory contributes the image's path without the directory's parent,
/// so the directory's own name is the first part.
pub open spec fn locate(input: InputView) -> Result<PathModel, Seq<Seq<char>>> {
    let root = model_of(input.input_root);
    if input.root_is_file {
        match root.file_name() {
            Some(name) => Ok(PathModel { rooted: false, parts: seq![name] }),
            None => Err(seq![about("Failed to get file name of "@, input.input_root)]),
        }
    } else {
        match root.parent() {
            Some(parent) => match model_of(input.entry).strip_prefix(parent) {
                Some(rest) => Ok(rest),
                None => Err(
                    seq![about_strip(parent.render(), input.entry), "prefix not found"@],
                ),
            },
            None => Err(seq![about("Failed to get parent of "@, input.input_root)]),
        }
    }
}

/// The encoder for an image whose lowercase extension is `ext`, if the
/// extension is one that the pipeline knows.
pub open spec fn primary_codec(ext: Seq<char>, options: Options) -> Option<Codec> {
    if ext == "jpg"@ || ext == "jpeg"@ {
        Some(Codec::Jpeg { quality: options.jpg_quality })
    } else if ext == "png"@ {
        if options.use_png8 {
            Some(Codec::Png8 { palette_quality: options.png8_quality })
        } else {
            Some(Codec::Png)
        }
    } else {
        None
    }
}

/// The text of `path` relative to `base`, or all of `path` where it does not
/// start with `base`.
pub open spec fn relative_or_whole(path: PathModel, base: PathModel) -> Seq<char> {
    match path.strip_prefix(base) {
        Some(rest) => rest.render(),
        None => path.render(),
    }
}

/// One transform of the pipeline: the encoder, the file it reads, the file
/// it writes, and the path under which the written file is reported.
#[derive(Debug, PartialEq, Eq)]
pub struct Transform {
    pub codec: Codec,
    pub input: String,
    pub output: String,
    pub path: String,
}

/// What a `Transform` holds.
pub struct TransformView {
    pub codec: Codec,
    pub input: Seq<char>,
    pub output: Seq<char>,
    pub path: Seq<char>,
}

impl View for Transform {
    type V = TransformView;

    open spec fn view(&self) -> TransformView {
        TransformView {
            codec: self.codec,
            input: self.input@,
            output: self.output@,
            path: self.path@,
        }
    }
}

/// What the pipeline will do for one image.
#[derive(Debug, PartialEq, Eq)]
pub struct Plan {
    /// The image, as it was given.
    pub entry: String,
    /// The image relative to the root of the output tree.
    pub original_path: String,
    /// The directory that must exist before anything is written.
    pub output_parent: String,
    /// Why the primary transform cannot run, if it was asked for and cannot.
    pub blocked: Option<Failure>,
    /// The transforms to run, in order.
    pub steps: Vec<Transform>,
}

/// What a `Plan` holds.
pub struct PlanView {
    pub entry: Seq<char>,
    pub original_path: Seq<char>,
    pub output_parent: Seq<char>,
    pub blocked: Option<Seq<Seq<char>>>,
    pub steps: Seq<TransformView>,
}

/// What a sequence of transforms holds.
pub open spec fn steps_view(steps: Seq<Transform>) -> Seq<TransformView> {
    Seq::new(steps.len(), |i: int| steps[i]@)
}

/// What an optional failure holds.
pub open spec fn failure_opt(o: Option<Failure>) -> Option<Seq<Seq<char>>> {
    match o {
        Some(f) => Some(f@),
        None => None,
    }
}

impl View for Plan {
    type V = PlanView;

    open spec fn view(&self) -> PlanView {
        PlanView {
            entry: self.entry@,
            original_path: self.original_path@,
            output_parent: self.output_parent@,
            blocked: failure_opt(self.blocked),
            steps: steps_view(self.steps@),
        }
    }
}

/// Why the primary transform cannot run on `entry`: it was asked for, and
/// the image has no extension or one that no encoder takes.
pub open spec fn blocked_by(entry: Seq<char>, options: Options) -> Option<Seq<Seq<char>>> {
    if !options.optimize_images {
        None
    } else {
        match model_of(entry).extension() {
            None => Some(seq![about("Failed to get extension of "@, entry)]),
            Some(ext) => match primary_codec(lowercase(ext), options) {
                Some(_) => None,
                None => Some(seq![about("Unsupported extension: "@, lowercase(ext))]),
            },
        }
    }
}

/// The primary transform, where it was asked for and can run: the image is
/// re-encoded in its own format into `output`.
pub open spec fn primary_steps(
    entry: Seq<char>,
    dist: PathModel,
    output: PathModel,
    options: Options,
) -> Seq<TransformView> {
    if !options.optimize_images {
        Seq::empty()
    } else {
        match model_of(entry).extension() {
            None => Seq::empty(),
            Some(ext) => match primary_codec(lowercase(ext), options) {
                Some(codec) => seq![
                    TransformView {
                        codec,
                        input: entry,
                        output: output.render(),
                        path: relative_or_whole(output, dist),
                    },
                ],
                None => Seq::empty(),
            },
        }
    }
}

/// The secondary transform, where it was asked for: a WebP version is
/// written beside `output`, encoded from `output` if the primary transform
/// runs and the options say so, and from the original image otherwise.
pub open spec fn secondary_steps(
    entry: Seq<char>,
    dist: PathModel,
    output: PathModel,
    options: Options,
) -> Seq<TransformView> {
    if !options.generate_webp {
        Seq::empty()
    } else {
        let webp = output.with_extension("webp"@);
        seq![
            TransformView {
                codec: Codec::Webp { quality: options.webp_quality },
                input: if options.webp_from_optimized && options.optimize_images {
                    output.render()
                } else {
                    entry
                },
                output: webp.render(),
                path: relative_or_whole(webp, dist),
            },
        ]
    }
}

/// The plan for one image, or the reason why its output cannot be placed.
pub open spec fn plan_of(input: InputView, dist_dir: Seq<char>, options: Options) -> Result<
    PlanView,
    Seq<Seq<char>>,
> {
    match locate(input) {
        Err(frames) => Err(frames),
        Ok(relative) => {
            let dist = model_of(dist_dir);
            let output = dist.join(relative);
            match output.parent() {
                None => Err(seq![about("Failed to get parent of "@, output.render())]),
                Some(parent) => Ok(
                    PlanView {
                        entry: input.entry,
                        original_path: relative.render(),
                        output_parent: parent.render(),
                        blocked: blocked_by(input.entry, options),
                        steps: primary_steps(input.entry, dist, output, options)
                            + secondary_steps(input.entry, dist, output, options),
                    },
                ),
            }
        },
    }
}

/// What the result of planning holds.
pub open spec fn plan_result_view(r: Result<Plan, Failure>) -> Result<PlanView, Seq<Seq<char>>> {
    match r {
        Ok(plan) => Ok(plan@),
        Err(failure) => Err(failure@),
    }
}

/// Writes the description of a prefix that could not be stripped.
pub fn describe_strip(parent: &str, entry: &str) -> (line: String)
    ensures
        line@ == about_strip(parent@, entry@),
{
    let mut out: Vec<char> = Vec::new();
    push_str(&mut out, "Failed to strip prefix of ");
    out.push('"');
    push_str(&mut out, parent);
    out.push('"');
    push_str(&mut out, " from ");
    out.push('"');
    push_str(&mut out, entry);
    out.push('"');
    assert(out@ =~= about_strip(parent@, entry@));
    string_of(&out)
}

/// The encoder for an image whose lowercase extension is `ext`.
pub fn select_codec(ext: &str, options: &Options) -> (codec: Option<Codec>)
    ensures
        codec == primary_codec(ext@, *options),
{
    let chars = chars_of(ext);
    if chars_eq(&chars, &chars_of("jpg")) || chars_eq(&chars, &chars_of("jpeg")) {
        Some(Codec::Jpeg { quality: options.jpg_quality })
    } else if chars_eq(&chars, &chars_of("png")) {
        if options.use_png8 {
            Some(Codec::Png8 { palette_quality: options.png8_quality })
        } else {
            Some(Codec::Png)
        }
    } else {
        None
    }
}

/// What an optional located path holds.
pub open spec fn located_view(r: Result<ParsedPath, Failure>) -> Result<PathModel, Seq<Seq<char>>> {
    match r {
        Ok(path) => Ok(path@),
        Err(failure) => Err(failure@),
    }
}

/// Finds the path of an image relative to the root of the output tree.
pub fn locate_image(input: &Input) -> (located: Result<ParsedPath, Failure>)
    ensures
        located_view(located) == locate(input@),
{
    let root = ParsedPath::parse(input.input_root.as_str());
    if input.root_is_file {
        match root.file_name() {
            Some(name) => {
                let mut parts: Vec<Vec<char>> = Vec::new();
                parts.push(name);
                let path = ParsedPath { rooted: false, parts };
                assert(path@.parts =~= seq![name@]);
                Ok(path)
            },
            None => Err(
                failure_of(describe("Failed to get file name of ", input.input_root.as_str())),
            ),
        }
    } else {
        match root.parent() {
            Some(parent) => {
                let entry = ParsedPath::parse(input.entry.as_str());
                match entry.strip_prefix(&parent) {
                    Some(rest) => Ok(rest),
                    None => {
                        let line = describe_strip(parent.render().as_str(), input.entry.as_str());
                        let mut cause: Vec<String> = Vec::new();
                        cause.push("prefix not found".to_owned());
                        assert(string_texts(cause@) =~= seq!["prefix not found"@]);
                        let failure = failure_with_cause(line, cause);
                        assert(failure@ =~= seq![
                            about_strip(parent@.render(), input.entry@),
                            "prefix not found"@,
                        ]);
                        Err(failure)
                    },
                }
            },
            None => Err(failure_of(describe("Failed to get parent of ", input.input_root.as_str()))),
        }
    }
}

/// Writes `path` relative to `base`, or all of it where it does not start
/// with `base`.
pub fn render_relative(path: &ParsedPath, base: &ParsedPath) -> (text: String)
    ensures
        text@ == relative_or_whole(path@, base@),
{
    match path.strip_prefix(base) {
        Some(rest) => rest.render(),
        None => path.render(),
    }
}

/// Plans the pipeline for one image: where its outputs go under `dist_dir`
/// and which transforms the options ask for.
pub fn plan_image(input: &Input, dist_dir: &str, options: &Options) -> (planned: Result<
    Plan,
    Failure,
>)
    ensures
        plan_result_view(planned) == plan_of(input@, dist_dir@, *options),
{
    let relative = match locate_image(input) {
        Ok(relative) => relative,
        Err(failure) => {
            return Err(failure);
        },
    };
    let dist = ParsedPath::parse(dist_dir);
    let output = dist.join(&relative);
    let parent = match output.parent() {
        Some(parent) => parent,
        None => {
            return Err(failure_of(describe("Failed to get parent of ", output.render().as_str())));
        },
    };
    let mut blocked: Option<Failure> = None;
    let mut steps: Vec<Transform> = Vec::new();
    if options.optimize_images {
        let entry = ParsedPath::parse(input.entry.as_str());
        match entry.extension() {
            None => {
                let line = describe("Failed to get extension of ", input.entry.as_str());
                blocked = Some(failure_of(line));
            },
            Some(ext) => {
                let lowered = to_lowercase(string_of(&ext).as_str());
                match select_codec(lowered.as_str(), options) {
                    Some(codec) => {
                        steps.push(
                            Transform {
                                codec,
                                input: input.entry.clone(),
                                output: output.render(),
                                path: render_relative(&output, &dist),
                            },
                        );
                    },
                    None => {
                        let line = describe("Unsupported extension: ", lowered.as_str());
                        blocked = Some(failure_of(line));
                    },
                }
            },
        }
    }
    assert(steps_view(steps@) =~= primary_steps(input@.entry, dist@, output@, *options));
    if options.generate_webp {
        let webp = output.with_extension(&chars_of("webp"));
        let source = if options.webp_from_optimized && options.optimize_images {
            output.render()
        } else {
            input.entry.clone()
        };
        steps.push(
            Transform {
                codec: Codec::Webp { quality: options.webp_quality },
                input: source,
                output: webp.render(),
                path: render_relative(&webp, &dist),
            },
        );
    }
    assert(steps_view(steps@) =~= primary_steps(input@.entry, dist@, output@, *options)
        + secondary_steps(input@.entry, dist@, output@, *options));
    Ok(
        Plan {
            entry: input.entry.clone(),
            original_path: relative.render(),
            output_parent: parent.render(),
            blocked,
            steps,
        },
    )
}

/// Where a job stands: which answer it is waiting for.
#[derive(Clone, Copy, Debug, PartialEq, Eq)]
pub enum Stage {
    /// Waiting for the output directory to exist.
    CreatingDir,
    /// Waiting for the size of the original image.
    MeasuringEntry,
    /// Waiting for the transform with the given index to run.
    Encoding(usize),
    /// Waiting for the size of the file that the transform with the given
    /// index wrote.
    Measuring(usize),
}

/// What the driver of a job is asked to do next.
#[derive(Debug, PartialEq, Eq)]
pub enum Action {
    /// Make sure that the directory exists, with all its ancestors. A
    /// directory that is already there is a success.
    CreateDir { path: String },
    /// Report the size in bytes of the file.
    Measure { path: String },
    /// Run the encoder on `input` and write the result to `output`.
    Encode { codec: Codec, input: String, output: String },
}

/// What an `Action` holds.
pub enum ActionView {
    CreateDir { path: Seq<char> },
    Measure { path: Seq<char> },
    Encode { codec: Codec, input: Seq<char>, output: Seq<char> },
}

impl View for Action {
    type V = ActionView;

    open spec fn view(&self) -> ActionView {
        match self {
            Action::CreateDir { path } => ActionView::CreateDir { path: path@ },
            Action::Measure { path } => ActionView::Measure { path: path@ },
            Action::Encode { codec, input, output } => ActionView::Encode {
                codec: *codec,
                input: input@,
                output: output@,
            },
        }
    }
}

/// The pipeline of one image, part of the way through.
#[derive(Debug, PartialEq, Eq)]
pub struct ImageJob {
    pub plan: Plan,
    pub stage: Stage,
    /// Size of the original image, once it has been measured.
    pub original_size: u64,
    /// The results gathered so far.
    pub results: Vec<OptimizeResult>,
}

/// What an `ImageJob` holds.
pub struct JobView {
    pub plan: PlanView,
    pub stage: Stage,
    pub original_size: u64,
    pub results: Seq<OptimizeResultView>,
}

/// What a sequence of results holds.
pub open spec fn results_view(results: Seq<OptimizeResult>) -> Seq<OptimizeResultView> {
    Seq::new(results.len(), |i: int| results[i]@)
}

impl View for ImageJob {
    type V = JobView;

    open spec fn view(&self) -> JobView {
        JobView {
            plan: self.plan@,
            stage: self.stage,
            original_size: self.original_size,
            results: results_view(self.results@),
        }
    }
}

/// What the pipeline of one image ends with: the files it wrote, or the
/// reason why it failed. A pipeline that fails reports no file, not even
/// one that an earlier transform wrote.
pub open spec fn outcome_view(outcome: Result<Vec<OptimizeResult>, Failure>) -> Result<
    Seq<OptimizeResultView>,
    Seq<Seq<char>>,
> {
    match outcome {
        Ok(results) => Ok(results_view(results@)),
        Err(failure) => Err(failure@),
    }
}

/// A job after a move: either it goes on and asks for an action, or it is
/// over.
#[derive(Debug, PartialEq, Eq)]
pub enum Step {
    Next(ImageJob, Action),
    Done(Result<Vec<OptimizeResult>, Failure>),
}

/// What a `Step` holds.
pub enum StepView {
    Next(JobView, ActionView),
    Done(Result<Seq<OptimizeResultView>, Seq<Seq<char>>>),
}

impl View for Step {
    type V = StepView;

    open spec fn view(&self) -> StepView {
        match self {
            Step::Next(job, action) => StepView::Next(job@, action@),
            Step::Done(outcome) => StepView::Done(outcome_view(*outcome)),
        }
    }
}

/// What an answer holds: the size that was measured, or the chain of causes
/// of a failure, outermost first. After `CreateDir` and `Encode` the size is
/// not read.
pub open spec fn answer_view(answer: Result<u64, Vec<String>>) -> Result<u64, Seq<Seq<char>>> {
    match answer {
        Ok(size) => Ok(size),
        Err(cause) => Err(string_texts(cause@)),
    }
}

/// The job goes on with the transform at `index`, or is over with its
/// results where the plan has no such transform.
pub open spec fn enter(job: JobView, index: int) -> StepView {
    if 0 <= index < job.plan.steps.len() {
        StepView::Next(
            JobView { stage: Stage::Encoding(index as usize), ..job },
            ActionView::Encode {
                codec: job.plan.steps[index].codec,
                input: job.plan.steps[index].input,
                output: job.plan.steps[index].output,
            },
        )
    } else {
        StepView::Done(Ok(job.results))
    }
}

/// How the pipeline of an image begins: with the creation of the directory
/// that its outputs go to, unless the outputs cannot be placed.
pub open spec fn start_of(input: InputView, dist_dir: Seq<char>, options: Options) -> StepView {
    match plan_of(input, dist_dir, options) {
        Err(frames) => StepView::Done(Err(frames)),
        Ok(plan) => StepView::Next(
            JobView {
                plan,
                stage: Stage::CreatingDir,
                original_size: 0,
                results: Seq::empty(),
            },
            ActionView::CreateDir { path: plan.output_parent },
        ),
    }
}

/// How a job moves on an answer.
///
/// The directory is created, then the original is measured. Then each
/// transform of the plan runs and the file it wrote is measured, which adds
/// one result. The first failure ends the job with that failure alone.
pub open spec fn advance_of(job: JobView, answer: Result<u64, Seq<Seq<char>>>) -> StepView {
    let steps = job.plan.steps;
    match job.stage {
        Stage::CreatingDir => match answer {
            Ok(_) => StepView::Next(
                JobView { stage: Stage::MeasuringEntry, ..job },
                ActionView::Measure { path: job.plan.entry },
            ),
            Err(cause) => StepView::Done(
                Err(seq![about("Failed to create directory "@, job.plan.output_parent)] + cause),
            ),
        },
        Stage::MeasuringEntry => match answer {
            Ok(size) => match job.plan.blocked {
                Some(frames) => StepView::Done(Err(frames)),
                None => enter(JobView { original_size: size, ..job }, 0),
            },
            Err(cause) => StepView::Done(
                Err(seq![about("Failed to get metadata of "@, job.plan.entry)] + cause),
            ),
        },
        Stage::Encoding(i) => if i < steps.len() {
            match answer {
                Ok(_) => StepView::Next(
                    JobView { stage: Stage::Measuring(i), ..job },
                    ActionView::Measure { path: steps[i as int].output },
                ),
                Err(cause) => StepView::Done(Err(cause)),
            }
        } else {
            StepView::Done(Ok(job.results))
        },
        Stage::Measuring(i) => if i < steps.len() {
            match answer {
                Ok(size) => enter(
                    JobView {
                        results: job.results.push(
                            OptimizeResultView {
                                path: steps[i as int].path,
                                original_path: job.plan.original_path,
                                original_size: job.original_size,
                                final_size: size,
                            },
                        ),
                        ..job
                    },
                    i + 1,
                ),
                Err(cause) => StepView::Done(
                    Err(seq![about("Failed to get metadata of "@, steps[i as int].output)] + cause),
                ),
            }
        } else {
            StepView::Done(Ok(job.results))
        },
    }
}

/// What holds of every job that was started and moved by answers: its plan
/// has at most two transforms, it has gathered one result per transform
/// that ran, each under the path that the plan gives it, and it waits for a
/// transform only where the plan has one and nothing blocks it.
pub open spec fn job_is_sound(job: JobView) -> bool {
    &&& job.plan.steps.len() <= 2
    &&& match job.stage {
        Stage::CreatingDir => job.results.len() == 0,
        Stage::MeasuringEntry => job.results.len() == 0,
        Stage::Encoding(i) => i < job.plan.steps.len() && job.results.len() == i
            && job.plan.blocked.is_none(),
        Stage::Measuring(i) => i < job.plan.steps.len() && job.results.len() == i
            && job.plan.blocked.is_none(),
    }
    &&& forall|j: int|
        0 <= j < job.results.len() ==> {
            &&& j < job.plan.steps.len()
            &&& (#[trigger] job.results[j]).path == job.plan.steps[j].path
            &&& job.results[j].original_path == job.plan.original_path
            &&& job.results[j].original_size == job.original_size
        }
}

/// Whether a step is sound: a job that goes on is sound and asks for the
/// action of its stage; a job that ended well reports every transform of
/// its plan.
pub open spec fn step_is_sound(step: StepView, plan: PlanView) -> bool {
    match step {
        StepView::Next(job, action) => job.plan == plan && job_is_sound(job) && action
            == action_of(job),
        StepView::Done(Ok(results)) => {
            &&& plan.blocked.is_none()
            &&& results.len() == plan.steps.len()
            &&& forall|j: int|
                0 <= j < results.len() ==> {
                    &&& (#[trigger] results[j]).path == plan.steps[j].path
                    &&& results[j].original_path == plan.original_path
                }
        },
        StepView::Done(Err(_)) => true,
    }
}

/// The action that a sound job waits for.
pub open spec fn action_of(job: JobView) -> ActionView {
    match job.stage {
        Stage::CreatingDir => ActionView::CreateDir { path: job.plan.output_parent },
        Stage::MeasuringEntry => ActionView::Measure { path: job.plan.entry },
        Stage::Encoding(i) => ActionView::Encode {
            codec: job.plan.steps[i as int].codec,
            input: job.plan.steps[i as int].input,
            output: job.plan.steps[i as int].output,
        },
        Stage::Measuring(i) => ActionView::Measure { path: job.plan.steps[i as int].output },
    }
}

/// A job that starts is sound.
pub proof fn lemma_start_is_sound(input: InputView, dist_dir: Seq<char>, options: Options)
    requires
        plan_of(input, dist_dir, options) is Ok,
    ensures
        step_is_sound(
            start_of(input, dist_dir, options),
            plan_of(input, dist_dir, options)->Ok_0,
        ),
{
}

/// A sound job stays sound on every answer, and ends soundly.
pub proof fn lemma_advance_is_sound(job: JobView, answer: Result<u64, Seq<Seq<char>>>)
    requires
        job_is_sound(job),
    ensures
        step_is_sound(advance_of(job, answer), job.plan),
{
    let steps = job.plan.steps;
    match job.stage {
        Stage::CreatingDir => {},
        Stage::MeasuringEntry => {
            if let Ok(size) = answer {
                if job.plan.blocked.is_none() {
                    let measured = JobView { original_size: size, ..job };
                    assert(step_is_sound(enter(measured, 0), job.plan));
                }
            }
        },
        Stage::Encoding(i) => {},
        Stage::Measuring(i) => {
            if let Ok(size) = answer {
                let result = OptimizeResultView {
                    path: steps[i as int].path,
                    original_path: job.plan.original_path,
                    original_size: job.original_size,
                    final_size: size,
                };
                let grown = JobView { results: job.results.push(result), ..job };
                assert forall|j: int| 0 <= j < grown.results.len() implies {
                    &&& j < grown.plan.steps.len()
                    &&& (#[trigger] grown.results[j]).path == grown.plan.steps[j].path
                    &&& grown.results[j].original_path == grown.plan.original_path
                    &&& grown.results[j].original_size == grown.original_size
                } by {
                    if j < job.results.len() {
                        assert(grown.results[j] == job.results[j]);
                    }
                }
                assert(step_is_sound(enter(grown, i + 1), job.plan));
            }
        },
    }
}

impl ImageJob {
    /// Goes on with the transform at `index`, or ends the job.
    fn enter(self, index: usize) -> (step: Step)
        ensures
            step@ == enter(self@, index as int),
    {
        if index < self.plan.steps.len() {
            let action = Action::Encode {
                codec: self.plan.steps[index].codec,
                input: self.plan.steps[index].input.clone(),
                output: self.plan.steps[index].output.clone(),
            };
            Step::Next(
                ImageJob {
                    plan: self.plan,
                    stage: Stage::Encoding(index),
                    original_size: self.original_size,
                    results: self.results,
                },
                action,
            )
        } else {
            Step::Done(Ok(self.results))
        }
    }

    /// Begins the pipeline of one image whose outputs go under `dist_dir`.
    pub fn start(input: &Input, dist_dir: &str, options: &Options) -> (step: Step)
        ensures
            step@ == start_of(input@, dist_dir@, *options),
            step matches Step::Next(job, _) ==> job_is_sound(job@),
    {
        proof {
            if plan_of(input@, dist_dir@, *options) is Ok {
                lemma_start_is_sound(input@, dist_dir@, *options);
            }
        }
        match plan_image(input, dist_dir, options) {
            Err(failure) => Step::Done(Err(failure)),
            Ok(plan) => {
                let action = Action::CreateDir { path: plan.output_parent.clone() };
                let results: Vec<OptimizeResult> = Vec::new();
                assert(results_view(results@) =~= Seq::<OptimizeResultView>::empty());
                Step::Next(
                    ImageJob { plan, stage: Stage::CreatingDir, original_size: 0, results },
                    action,
                )
            },
        }
    }

    /// Takes the answer to the action that the job asked for and moves on.
    pub fn advance(self, answer: Result<u64, Vec<String>>) -> (step: Step)
        ensures
            step@ == advance_of(self@, answer_view(answer)),
            job_is_sound(self@) ==> step_is_sound(step@, self@.plan),
    {
        proof {
            if job_is_sound(self@) {
                lemma_advance_is_sound(self@, answer_view(answer));
            }
        }
        match self.stage {
            Stage::CreatingDir => match answer {
                Ok(_) => {
                    let action = Action::Measure { path: self.plan.entry.clone() };
                    Step::Next(
                        ImageJob {
                            plan: self.plan,
                            stage: Stage::MeasuringEntry,
                            original_size: self.original_size,
                            results: self.results,
                        },
                        action,
                    )
                },
                Err(cause) => Step::Done(
                    Err(
                        failure_with_cause(
                            describe("Failed to create directory ", self.plan.output_parent.as_str()),
                            cause,
                        ),
                    ),
                ),
            },
            Stage::MeasuringEntry => match answer {
                Ok(size) => {
                    let ImageJob { plan, stage, original_size, results } = self;
                    let Plan { entry, original_path, output_parent, blocked, steps } = plan;
                    match blocked {
                        Some(failure) => Step::Done(Err(failure)),
                        None => {
                            let job = ImageJob {
                                plan: Plan {
                                    entry,
                                    original_path,
                                    output_parent,
                                    blocked: None,
                                    steps,
                                },
                                stage,
                                original_size: size,
                                results,
                            };
                            job.enter(0)
                        },
                    }
                },
                Err(cause) => Step::Done(
                    Err(
                        failure_with_cause(
                            describe("Failed to get metadata of ", self.plan.entry.as_str()),
                            cause,
                        ),
                    ),
                ),
            },
            Stage::Encoding(i) => {
                if i < self.plan.steps.len() {
                    match answer {
                        Ok(_) => {
                            let action = Action::Measure {
                                path: self.plan.steps[i].output.clone(),
                            };
                            Step::Next(
                                ImageJob {
                                    plan: self.plan,
                                    stage: Stage::Measuring(i),
                                    original_size: self.original_size,
                                    results: self.results,
                                },
                                action,
                            )
                        },
                        Err(cause) => Step::Done(Err(Failure { frames: cause })),
                    }
                } else {
                    Step::Done(Ok(self.results))
                }
            },
            Stage::Measuring(i) => {
                if i < self.plan.steps.len() {
                    match answer {
                        Ok(size) => {
                            let result = OptimizeResult {
                                path: self.plan.steps[i].path.clone(),
                                original_path: self.plan.original_path.clone(),
                                original_size: self.original_size,
                                final_size: size,
                            };
                            let mut results = self.results;
                            let ghost before = results_view(results@);
                            results.push(result);
                            assert(results_view(results@) =~= before.push(result@));
                            let job = ImageJob {
                                plan: self.plan,
                                stage: self.stage,
                                original_size: self.original_size,
                                results,
                            };
                            job.enter(i + 1)
                        },
                        Err(cause) => Step::Done(
                            Err(
                                failure_with_cause(
                                    describe(
                                        "Failed to get metadata of ",
                                        self.plan.steps[i].output.as_str(),
                                    ),
                                    cause,
                                ),
                            ),
                        ),
                    }
                } else {
                    Step::Done(Ok(self.results))
                }
            },
        }
    }
}

} // verus!
