//! The errors of a run, and the text that each is reported with.

use crate::input::Source;
use crate::replacer::validate::InvalidReplaceCapture;
use vstd::prelude::*;
use vstd::string::StringExecFns;

verus! {

/// What can go wrong in a run.
#[derive(Debug)]
pub enum Error {
    /// The pattern is refused by the regex engine; the engine's diagnostic.
    Regex(String),
    /// Reading, opening or writing a file failed; the system's message.
    File(String),
    /// The new contents could not be moved over the file; the message of the
    /// failed step.
    TempfilePersist(String),
    /// A file does not exist, or a path has no directory above it.
    InvalidPath(String),
    /// The replacement template holds an ambiguous capture reference.
    InvalidReplaceCapture(InvalidReplaceCapture),
    /// Some of the inputs could not be processed.
    FailedJobs(FailedJobs),
}

/// The inputs that failed, each source with its error, in the order of the
/// inputs.
#[derive(Debug)]
pub struct FailedJobs(pub Vec<(Source, Error)>);

/// How a failed source is named: a file by its path, standard input as
/// `STDIN`.
pub open spec fn failed_name(source: Source) -> Seq<char> {
    match source {
        Source::Stdin => "STDIN"@,
        Source::File(path) => path@,
    }
}

/// One line for each failed input: four spaces, the name of the source, a
/// colon and the error.
pub open spec fn failed_lines(jobs: Seq<(Source, Error)>) -> Seq<char>
    decreases jobs,
{
    if jobs.len() == 0 {
        Seq::empty()
    } else {
        failed_lines(jobs.drop_last()) + "    "@ + failed_name(jobs.last().0) + ": "@
            + jobs.last().1.message_text() + "\n"@
    }
}

/// Every error among `jobs` is well formed.
pub open spec fn all_wf(jobs: Seq<(Source, Error)>) -> bool
    decreases jobs,
{
    jobs.len() > 0 ==> all_wf(jobs.drop_last()) && jobs.last().1.wf()
}

impl Error {
    /// Every report of an ambiguous capture reference in the error is well
    /// formed.
    pub open spec fn wf(&self) -> bool
        decreases self,
    {
        match self {
            Error::InvalidReplaceCapture(e) => e.wf(),
            Error::FailedJobs(jobs) => all_wf(jobs.0@),
            _ => true,
        }
    }

    /// The text that the error is reported with.
    pub open spec fn message_text(&self) -> Seq<char>
        decreases self,
    {
        match self {
            Error::Regex(diagnostic) => "invalid regex "@ + diagnostic@,
            Error::File(message) => message@,
            Error::TempfilePersist(message) => "failed to move file: "@ + message@,
            Error::InvalidPath(path) => "invalid path: "@ + path@,
            Error::InvalidReplaceCapture(e) => e.message_text(),
            Error::FailedJobs(jobs) => "Failed processing some inputs\n"@ + failed_lines(jobs.0@),
        }
    }

    /// The text that the error is reported with.
    pub fn message(&self) -> (out: String)
        requires
            self.wf(),
        ensures
            out@ == self.message_text(),
        decreases self,
    {
        match self {
            Error::Regex(diagnostic) => {
                let mut out = String::from_str("invalid regex ");
                out.append(diagnostic.as_str());
                out
            },
            Error::File(message) => message.clone(),
            Error::TempfilePersist(message) => {
                let mut out = String::from_str("failed to move file: ");
                out.append(message.as_str());
                out
            },
            Error::InvalidPath(path) => {
                let mut out = String::from_str("invalid path: ");
                out.append(path.as_str());
                out
            },
            Error::InvalidReplaceCapture(e) => e.message(),
            Error::FailedJobs(jobs) => jobs.message(),
        }
    }
}

impl FailedJobs {
    /// Every error among the failures is well formed.
    pub open spec fn wf(&self) -> bool {
        all_wf(self.0@)
    }

    /// The heading and one line for each failed input.
    pub open spec fn message_text(&self) -> Seq<char> {
        "Failed processing some inputs\n"@ + failed_lines(self.0@)
    }

    /// The text that the failures are reported with.
    pub fn message(&self) -> (out: String)
        requires
            self.wf(),
        ensures
            out@ == self.message_text(),
        decreases self,
    {
        let mut out = String::from_str("Failed processing some inputs\n");
        let mut i: usize = 0;
        while i < self.0.len()
            invariant
                i <= self.0.len(),
                all_wf(self.0@),
                out@ == "Failed processing some inputs\n"@ + failed_lines(self.0@.take(i as int)),
            decreases self.0.len() - i,
        {
            proof {
                lemma_all_wf(self.0@, i as int);
                assert(self.0@.take(i + 1).drop_last() =~= self.0@.take(i as int));
            }
            let entry = &self.0[i];
            out.append("    ");
            match &entry.0 {
                Source::Stdin => {
                    out.append("STDIN");
                },
                Source::File(path) => {
                    out.append(path.as_str());
                },
            }
            out.append(": ");
            let text = entry.1.message();
            out.append(text.as_str());
            out.append("\n");
            i += 1;
        }
        assert(self.0@.take(self.0.len() as int) =~= self.0@);
        out
    }
}

/// Each error among well-formed `jobs` is well formed.
pub proof fn lemma_all_wf(jobs: Seq<(Source, Error)>, i: int)
    requires
        all_wf(jobs),
        0 <= i < jobs.len(),
    ensures
        jobs[i].1.wf(),
    decreases jobs.len(),
{
    if i < jobs.len() - 1 {
        lemma_all_wf(jobs.drop_last(), i);
    }
}

} // verus!
