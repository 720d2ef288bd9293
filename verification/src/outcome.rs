//! What a batch reports: one result per file written, one error per image
//! that failed, and a progress notice per image.

use vstd::prelude::*;
use crate::sorting::Pathed;
use crate::text::push_str;
use crate::text::string_texts;
use crate::text::string_of;

verus! {

/// One file that the batch wrote.
#[derive(Debug, PartialEq, Eq)]
pub struct OptimizeResult {
    /// Where the file was written, relative to the output directory.
    pub path: String,
    /// Where the image came from, relative to the parent of the selected
    /// root.
    pub original_path: String,
    /// Size of the original image in bytes.
    pub original_size: u64,
    /// Size of the written file in bytes.
    pub final_size: u64,
}

/// What an `OptimizeResult` holds.
pub struct OptimizeResultView {
    pub path: Seq<char>,
    pub original_path: Seq<char>,
    pub original_size: u64,
    pub final_size: u64,
}

impl View for OptimizeResult {
    type V = OptimizeResultView;

    open spec fn view(&self) -> OptimizeResultView {
        OptimizeResultView {
            path: self.path@,
            original_path: self.original_path@,
            original_size: self.original_size,
            final_size: self.final_size,
        }
    }
}

/// One image that could not be processed.
#[derive(Debug, PartialEq, Eq)]
pub struct OptimizeError {
    /// The image, relative to the parent of the selected root.
    pub path: String,
    /// What went wrong, outermost context first.
    pub error: String,
}

/// What an `OptimizeError` holds.
pub struct OptimizeErrorView {
    pub path: Seq<char>,
    pub error: Seq<char>,
}

impl View for OptimizeError {
    type V = OptimizeErrorView;

    open spec fn view(&self) -> OptimizeErrorView {
        OptimizeErrorView { path: self.path@, error: self.error@ }
    }
}

/// One record of a batch's report.
#[derive(Debug, PartialEq, Eq)]
pub enum OptimizeResultOrError {
    Result(OptimizeResult),
    Error(OptimizeError),
}

/// What an `OptimizeResultOrError` holds.
pub enum RecordView {
    Result(OptimizeResultView),
    Error(OptimizeErrorView),
}

impl View for OptimizeResultOrError {
    type V = RecordView;

    open spec fn view(&self) -> RecordView {
        match self {
            OptimizeResultOrError::Result(r) => RecordView::Result(r@),
            OptimizeResultOrError::Error(e) => RecordView::Error(e@),
        }
    }
}

impl Pathed for OptimizeResultOrError {
    /// A result is listed under the path of its original image, an error
    /// under the path of the image that failed.
    open spec fn path_text(&self) -> Seq<char> {
        match self {
            OptimizeResultOrError::Result(r) => r.original_path@,
            OptimizeResultOrError::Error(e) => e.path@,
        }
    }

    fn path_str(&self) -> (path: &str) {
        match self {
            OptimizeResultOrError::Result(r) => r.original_path.as_str(),
            OptimizeResultOrError::Error(e) => e.path.as_str(),
        }
    }
}

/// The notice sent when an image has been dealt with, whatever the outcome.
#[derive(Debug, PartialEq, Eq)]
pub struct ProgressEventPayload {
    /// The image, relative to the parent of the selected root.
    pub path: String,
}

/// The frames written one after the other with `": "` between neighbours.
pub open spec fn join_frames(frames: Seq<Seq<char>>) -> Seq<char>
    decreases frames.len(),
{
    if frames.len() == 0 {
        Seq::<char>::empty()
    } else if frames.len() == 1 {
        frames[0]
    } else {
        join_frames(frames.drop_last()) + seq![':', ' '] + frames.last()
    }
}

/// Why an image could not be processed: a chain of descriptions, from the
/// operation that failed down to its innermost cause.
#[derive(Debug, PartialEq, Eq)]
pub struct Failure {
    /// The descriptions, outermost first.
    pub frames: Vec<String>,
}

impl View for Failure {
    type V = Seq<Seq<char>>;

    open spec fn view(&self) -> Seq<Seq<char>> {
        string_texts(self.frames@)
    }
}

impl Failure {
    /// The whole chain as one line, outermost description first.
    pub fn message(&self) -> (line: String)
        ensures
            line@ == join_frames(self@),
    {
        let mut out: Vec<char> = Vec::new();
        let n = self.frames.len();
        let mut i: usize = 0;
        assert(self@.take(0) =~= Seq::<Seq<char>>::empty());
        while i < n
            invariant
                i <= n,
                n == self.frames.len(),
                out@ == join_frames(self@.take(i as int)),
            decreases n - i,
        {
            proof {
                let next = self@.take(i + 1);
                assert(next.drop_last() =~= self@.take(i as int));
                assert(next.last() == self.frames@[i as int]@);
            }
            if i > 0 {
                out.push(':');
                out.push(' ');
            }
            push_str(&mut out, self.frames[i].as_str());
            assert(out@ =~= join_frames(self@.take(i + 1)));
            i += 1;
        }
        assert(self@.take(n as int) =~= self@);
        string_of(&out)
    }
}

/// A text between double quotes.
pub open spec fn quoted(s: Seq<char>) -> Seq<char> {
    seq!['"'] + s + seq!['"']
}

/// A description made of a fixed opening and the quoted subject.
pub open spec fn about(what: Seq<char>, subject: Seq<char>) -> Seq<char> {
    what + quoted(subject)
}

/// Writes a description: the opening, then the subject between quotes.
pub fn describe(what: &str, subject: &str) -> (line: String)
    ensures
        line@ == about(what@, subject@),
{
    let mut out: Vec<char> = Vec::new();
    push_str(&mut out, what);
    out.push('"');
    push_str(&mut out, subject);
    out.push('"');
    assert(out@ =~= about(what@, subject@));
    string_of(&out)
}

/// A failure with a single description.
pub fn failure_of(line: String) -> (failure: Failure)
    ensures
        failure@ == seq![line@],
{
    let mut frames: Vec<String> = Vec::new();
    frames.push(line);
    assert(string_texts(frames@) =~= seq![line@]);
    Failure { frames }
}

/// A failure made of a description and the chain of causes below it.
pub fn failure_with_cause(line: String, cause: Vec<String>) -> (failure: Failure)
    ensures
        failure@ == seq![line@] + string_texts(cause@),
{
    let mut frames = cause;
    frames.insert(0, line);
    assert(string_texts(frames@) =~= seq![line@] + string_texts(cause@));
    Failure { frames }
}

} // verus!
