//! The jobs of a run: one for each source, worked on independently, then
//! written out or committed in the order of the sources.

use crate::error::{all_wf, Error, FailedJobs};
use crate::input::{label, Source};
use crate::replacer::{append_bytes, Replacer};
use std::borrow::Cow;
use vstd::prelude::*;
use vstd::string::{StrSliceExecFns, StringExecFns};

verus! {

/// What has come of a job so far.
#[derive(Debug)]
pub enum Outcome {
    /// No worker has taken the job yet.
    Pending,
    /// The bytes that are to be written out for the source.
    Success(Vec<u8>),
    /// Why nothing is written out for the source.
    Failure(Error),
}

/// One source with what has come of it.
#[derive(Debug)]
pub struct Job {
    pub source: Source,
    pub outcome: Outcome,
}

/// Where the results of a run go.
#[derive(Debug, Clone, Copy, PartialEq, Eq, Structural)]
pub enum Sink {
    /// To standard output, in the order of the sources.
    Stdout,
    /// Back into the files that the sources name.
    Files,
}

/// The results go to standard output in preview mode, and where standard
/// input is the only source.
pub open spec fn to_stdout(sources: Seq<Source>, preview: bool) -> bool {
    preview || (sources.len() == 1 && sources[0] is Stdin)
}

/// The line that goes before the output of a source where there are several
/// sources.
pub open spec fn separator_text(source: Source) -> Seq<char> {
    "----- "@ + label(source) + " -----\n"@
}

/// What is written to standard output for one job: nothing for a job that
/// failed, is pending, or has nothing to show; else its bytes, behind the
/// separator line where there are several sources.
pub open spec fn block(job: Job, several: bool) -> Seq<u8> {
    match job.outcome {
        Outcome::Success(bytes) => if bytes@.len() == 0 {
            Seq::empty()
        } else if several {
            vstd::utf8::encode_utf8(separator_text(job.source)) + bytes@
        } else {
            bytes@
        },
        _ => Seq::empty(),
    }
}

/// What is written to standard output for the jobs, in their order.
pub open spec fn stdout_bytes(jobs: Seq<Job>, several: bool) -> Seq<u8>
    decreases jobs.len(),
{
    if jobs.len() == 0 {
        Seq::empty()
    } else {
        stdout_bytes(jobs.drop_last(), several) + block(jobs.last(), several)
    }
}

/// The jobs that failed, each source with its error, in the order of the
/// jobs.
pub open spec fn failures(jobs: Seq<Job>) -> Seq<(Source, Error)>
    decreases jobs.len(),
{
    if jobs.len() == 0 {
        Seq::empty()
    } else {
        match jobs.last().outcome {
            Outcome::Failure(e) => failures(jobs.drop_last()).push((jobs.last().source, e)),
            _ => failures(jobs.drop_last()),
        }
    }
}

/// The items of `v` in the opposite order.
fn reversed<T>(v: Vec<T>) -> (r: Vec<T>)
    ensures
        r@.len() == v@.len(),
        forall|i: int| 0 <= i < r@.len() ==> r@[i] == v@[v@.len() - 1 - i],
{
    let mut v = v;
    let ghost given = v@;
    let mut r: Vec<T> = Vec::new();
    while v.len() > 0
        invariant
            v@.len() + r@.len() == given.len(),
            forall|i: int| 0 <= i < v@.len() ==> v@[i] == given[i],
            forall|i: int| 0 <= i < r@.len() ==> r@[i] == given[given.len() - 1 - i],
        decreases v@.len(),
    {
        let item = v.pop().unwrap();
        r.push(item);
    }
    r
}

/// Where the results of a run go.
pub fn choose_sink(sources: &Vec<Source>, preview: bool) -> (sink: Sink)
    ensures
        sink == (if to_stdout(sources@, preview) {
            Sink::Stdout
        } else {
            Sink::Files
        }),
{
    if preview || (sources.len() == 1 && sources[0].is_stdin()) {
        Sink::Stdout
    } else {
        Sink::Files
    }
}

impl Job {
    /// A job that no worker has taken yet.
    pub fn new(source: Source) -> (job: Job)
        ensures
            job.source == source,
            job.outcome is Pending,
    {
        Job { source, outcome: Outcome::Pending }
    }

    /// The work on one source, given what reading it gave: the bytes are run
    /// through the replacer, as a preview or as the replacement itself; an
    /// error of the reading is the job's failure.
    pub fn run(&mut self, replacer: &Replacer, input: Result<Vec<u8>, Error>, preview: bool)
        ensures
            final(self).source == old(self).source,
            worked(*final(self), *replacer, input, preview),
    {
        match input {
            Ok(bytes) => {
                let shown = if preview {
                    replacer.replace_preview(bytes.as_slice())
                } else {
                    replacer.replace(bytes.as_slice())
                };
                let out = match shown {
                    Cow::Borrowed(same) => {
                        let mut copy: Vec<u8> = Vec::new();
                        append_bytes(&mut copy, same);
                        copy
                    },
                    Cow::Owned(new) => new,
                };
                self.outcome = Outcome::Success(out);
            },
            Err(e) => {
                self.outcome = Outcome::Failure(e);
            },
        }
    }

    /// Records that the bytes of the job could not be committed to its file.
    pub fn fail(&mut self, error: Error)
        ensures
            final(self).source == old(self).source,
            final(self).outcome == Outcome::Failure(error),
    {
        self.outcome = Outcome::Failure(error);
    }

    /// The path and the bytes that are to be committed for the job: those of
    /// a job that succeeded on a file.
    pub fn to_commit(&self) -> (task: Option<(&String, &Vec<u8>)>)
        ensures
            match (self.source, self.outcome) {
                (Source::File(path), Outcome::Success(bytes)) => task == Some((&path, &bytes)),
                _ => task is None,
            },
    {
        match (&self.source, &self.outcome) {
            (Source::File(path), Outcome::Success(bytes)) => Some((path, bytes)),
            _ => None,
        }
    }
}

/// What a job comes to for what reading its source gave: the bytes run
/// through the replacer, as a preview or as the replacement itself, or the
/// error of the reading.
pub open spec fn worked(job: Job, replacer: Replacer, input: Result<Vec<u8>, Error>, preview: bool) -> bool {
    match input {
        Ok(bytes) => {
            &&& job.outcome matches Outcome::Success(out)
            &&& out@ == (if preview {
                replacer.previewed(bytes@)
            } else {
                replacer.replaced(bytes@)
            })
        },
        Err(e) => job.outcome == Outcome::Failure(e),
    }
}

/// Works on every source, given what reading each of them gave: one job for
/// each source, in the order of the sources, each worked on by itself.
pub fn process_sources(
    replacer: &Replacer,
    read: Vec<(Source, Result<Vec<u8>, Error>)>,
    preview: bool,
) -> (jobs: Vec<Job>)
    ensures
        jobs@.len() == read@.len(),
        forall|i: int|
            0 <= i < jobs@.len() ==> (#[trigger] jobs@[i]).source == read@[i].0 && worked(
                jobs@[i],
                *replacer,
                read@[i].1,
                preview,
            ),
{
    let ghost given = read@;
    let count = read.len();
    let mut rest = reversed(read);
    let mut jobs: Vec<Job> = Vec::new();
    while rest.len() > 0
        invariant
            jobs@.len() + rest@.len() == given.len(),
            count == given.len(),
            forall|k: int| 0 <= k < rest@.len() ==> rest@[k] == given[given.len() - 1 - k],
            forall|i: int|
                0 <= i < jobs@.len() ==> (#[trigger] jobs@[i]).source == given[i].0 && worked(
                    jobs@[i],
                    *replacer,
                    given[i].1,
                    preview,
                ),
        decreases rest@.len(),
    {
        let (source, input) = rest.pop().unwrap();
        let mut job = Job::new(source);
        job.run(replacer, input, preview);
        jobs.push(job);
    }
    jobs
}

/// The line that goes before the output of a source where there are several
/// sources.
pub fn separator(source: &Source) -> (line: Vec<u8>)
    ensures
        line@ == vstd::utf8::encode_utf8(separator_text(*source)),
{
    let mut text = String::from_str("----- ");
    let name = source.display();
    text.append(name.as_str());
    text.append(" -----\n");
    text.as_str().as_bytes_vec()
}

/// What is written to standard output for the jobs: the bytes of each job
/// that succeeded and has something to show, in the order of the jobs, each
/// behind its separator line where there are several jobs.
pub fn render_stdout(jobs: &Vec<Job>) -> (out: Vec<u8>)
    ensures
        out@ == stdout_bytes(jobs@, jobs@.len() > 1),
{
    let several = jobs.len() > 1;
    let mut out: Vec<u8> = Vec::new();
    let mut i: usize = 0;
    while i < jobs.len()
        invariant
            i <= jobs.len(),
            several == (jobs@.len() > 1),
            out@ == stdout_bytes(jobs@.take(i as int), several),
        decreases jobs.len() - i,
    {
        proof {
            assert(jobs@.take(i + 1).drop_last() =~= jobs@.take(i as int));
            assert(jobs@.take(i + 1).last() == jobs@[i as int]);
        }
        let job = &jobs[i];
        match &job.outcome {
            Outcome::Success(bytes) => {
                if bytes.len() > 0 {
                    if several {
                        let line = separator(&job.source);
                        append_bytes(&mut out, line.as_slice());
                    }
                    append_bytes(&mut out, bytes.as_slice());
                }
            },
            _ => {},
        }
        assert(out@ =~= stdout_bytes(jobs@.take(i as int), several) + block(jobs@[i as int], several));
        i += 1;
    }
    assert(jobs@.take(jobs.len() as int) =~= jobs@);
    out
}

/// The end of a run: success where no job failed, else all the failures
/// together, in the order of the jobs.
pub fn finish(jobs: Vec<Job>) -> (done: Result<(), Error>)
    ensures
        failures(jobs@).len() == 0 ==> done is Ok,
        failures(jobs@).len() > 0 ==> ({
            &&& done matches Err(Error::FailedJobs(failed))
            &&& failed.0@ == failures(jobs@)
        }),
        all_wf(failures(jobs@)) ==> (done matches Err(e) ==> e.wf()),
{
    let ghost given = jobs@;
    let count = jobs.len();
    let mut rest = reversed(jobs);
    let mut failed: Vec<(Source, Error)> = Vec::new();
    let mut i: usize = 0;
    while rest.len() > 0
        invariant
            i + rest@.len() == given.len(),
            count == given.len(),
            forall|k: int| 0 <= k < rest@.len() ==> rest@[k] == given[given.len() - 1 - k],
            failed@ == failures(given.take(i as int)),
        decreases rest@.len(),
    {
        let job = rest.pop().unwrap();
        proof {
            assert(job == given[i as int]);
            assert(given.take(i + 1).drop_last() =~= given.take(i as int));
            assert(given.take(i + 1).last() == given[i as int]);
        }
        match job.outcome {
            Outcome::Failure(e) => {
                failed.push((job.source, e));
            },
            _ => {},
        }
        i += 1;
    }
    assert(given.take(i as int) =~= given);
    if failed.len() == 0 {
        Ok(())
    } else {
        Err(Error::FailedJobs(FailedJobs(failed)))
    }
}

/// What is written for jobs that stand one group after another is what is
/// written for the first group, then what is written for the second: the
/// output keeps the order of the jobs, and no job changes what is written
/// for another.
pub proof fn law_output_keeps_the_order(first: Seq<Job>, second: Seq<Job>, several: bool)
    ensures
        stdout_bytes(first + second, several) == stdout_bytes(first, several) + stdout_bytes(
            second,
            several,
        ),
    decreases second.len(),
{
    if second.len() == 0 {
        assert(first + second =~= first);
        assert(stdout_bytes(first, several) + Seq::<u8>::empty() =~= stdout_bytes(first, several));
    } else {
        law_output_keeps_the_order(first, second.drop_last(), several);
        assert((first + second).drop_last() =~= first + second.drop_last());
        assert((first + second).last() == second.last());
        assert(stdout_bytes(first + second, several) =~= stdout_bytes(first, several)
            + stdout_bytes(second, several));
    }
}

/// The failures of jobs that stand one group after another are those of the
/// first group, then those of the second: the failures keep the order of the
/// jobs, and no job changes whether another has failed.
pub proof fn law_failures_keep_the_order(first: Seq<Job>, second: Seq<Job>)
    ensures
        failures(first + second) == failures(first) + failures(second),
    decreases second.len(),
{
    if second.len() == 0 {
        assert(first + second =~= first);
        assert(failures(first) + Seq::<(Source, Error)>::empty() =~= failures(first));
    } else {
        law_failures_keep_the_order(first, second.drop_last());
        assert((first + second).drop_last() =~= first + second.drop_last());
        assert((first + second).last() == second.last());
        assert(failures(first + second) =~= failures(first) + failures(second));
    }
}

/// A run in which no job failed has no failure to report.
pub proof fn law_success_has_no_failure(jobs: Seq<Job>)
    requires
        forall|i: int| 0 <= i < jobs.len() ==> !(#[trigger] jobs[i].outcome is Failure),
    ensures
        failures(jobs).len() == 0,
    decreases jobs.len(),
{
    if jobs.len() > 0 {
        law_success_has_no_failure(jobs.drop_last());
    }
}

/// A run in which a job failed reports a failure.
pub proof fn law_failure_is_reported(jobs: Seq<Job>, i: int)
    requires
        0 <= i < jobs.len(),
        jobs[i].outcome is Failure,
    ensures
        failures(jobs).len() > 0,
    decreases jobs.len(),
{
    if i < jobs.len() - 1 {
        law_failure_is_reported(jobs.drop_last(), i);
    }
}

} // verus!
