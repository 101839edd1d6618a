//! The commit of new contents to a file: which step comes next, and how a
//! step that failed ends the commit. The steps themselves are the caller's.

use crate::error::Error;
use vstd::prelude::*;

verus! {

/// The steps of a commit.
#[derive(Debug, Clone, Copy, PartialEq, Eq, Structural)]
pub enum Step {
    /// Resolve the path to the file it stands for, and find the directory
    /// above it.
    Resolve,
    /// Create a temporary file in that directory.
    CreateTemp,
    /// Give the temporary file the length of the new contents.
    Resize,
    /// Read the permissions and the owner of the file.
    ReadMetadata,
    /// Give the temporary file the permissions of the file.
    CopyPermissions,
    /// Give the temporary file the owner of the file.
    CopyOwner,
    /// Write the new contents into the temporary file.
    Write,
    /// Have the contents that were written reach the disk.
    Flush,
    /// Move the temporary file over the file.
    Rename,
    /// Write the new contents into the file itself.
    Overwrite,
}

/// How a step went.
#[derive(Debug)]
pub enum Report {
    Done,
    /// The step failed; the system's message.
    Failed(String),
    /// The path was resolved, and it has no directory above it.
    NoParent,
}

/// What comes after a step.
#[derive(Debug)]
pub enum Move {
    /// The next step.
    Go(Step),
    /// The commit is over.
    End(Result<(), Error>),
}

/// The place of a step in the order of a commit.
pub open spec fn rank(step: Step) -> int {
    match step {
        Step::Resolve => 0,
        Step::CreateTemp => 1,
        Step::Resize => 2,
        Step::ReadMetadata => 3,
        Step::CopyPermissions => 4,
        Step::CopyOwner => 5,
        Step::Write => 6,
        Step::Flush => 7,
        Step::Rename => 8,
        Step::Overwrite => 9,
    }
}

/// The step that puts the contents into the temporary file: the write where
/// there is something to write, else the move over the file.
pub open spec fn fill(len: int) -> Step {
    if len > 0 {
        Step::Write
    } else {
        Step::Rename
    }
}

/// What comes after a step that was done. After the path is resolved, an
/// atomic commit goes on with the temporary file, and one that is not writes
/// into the file itself. Empty contents are not written.
pub open spec fn after_done(step: Step, len: int, atomic: bool) -> Move {
    match step {
        Step::Resolve => if atomic {
            Move::Go(Step::CreateTemp)
        } else {
            Move::Go(Step::Overwrite)
        },
        Step::CreateTemp => Move::Go(Step::Resize),
        Step::Resize => Move::Go(Step::ReadMetadata),
        Step::ReadMetadata => Move::Go(Step::CopyPermissions),
        Step::CopyPermissions => Move::Go(Step::CopyOwner),
        Step::CopyOwner => Move::Go(fill(len)),
        Step::Write => Move::Go(Step::Flush),
        Step::Flush => Move::Go(Step::Rename),
        Step::Rename => Move::End(Ok(())),
        Step::Overwrite => Move::End(Ok(())),
    }
}

/// What comes after a step that failed. Metadata that cannot be read, and
/// permissions that cannot be copied, do not end the commit. A temporary
/// file that cannot be created, an owner that cannot be set and a move that
/// fails are failures of the commit; the others are failures of the file
/// system.
pub open spec fn after_failed(step: Step, message: String, len: int) -> Move {
    match step {
        Step::ReadMetadata => Move::Go(fill(len)),
        Step::CopyPermissions => Move::Go(Step::CopyOwner),
        Step::CreateTemp | Step::CopyOwner | Step::Rename => Move::End(
            Err(Error::TempfilePersist(message)),
        ),
        _ => Move::End(Err(Error::File(message))),
    }
}

/// What comes after `step`, given how it went, in the commit of `len` bytes
/// to `path`. A path without a directory above it is an invalid path.
pub open spec fn decided(step: Step, report: Report, path: String, len: int, atomic: bool) -> Move {
    match report {
        Report::Done => after_done(step, len, atomic),
        Report::Failed(message) => after_failed(step, message, len),
        Report::NoParent => Move::End(Err(Error::InvalidPath(path))),
    }
}

/// The step that a commit starts with.
pub fn first_step() -> (step: Step)
    ensures
        step == Step::Resolve,
{
    Step::Resolve
}

/// What comes after `step`, given how it went, in the commit of `len` bytes
/// to `path`; `atomic` says whether the commit goes by way of a temporary
/// file.
pub fn next_move(step: Step, report: Report, path: String, len: usize, atomic: bool) -> (next: Move)
    ensures
        next == decided(step, report, path, len as int, atomic),
{
    let fill = if len > 0 {
        Step::Write
    } else {
        Step::Rename
    };
    match report {
        Report::Done => match step {
            Step::Resolve => if atomic {
                Move::Go(Step::CreateTemp)
            } else {
                Move::Go(Step::Overwrite)
            },
            Step::CreateTemp => Move::Go(Step::Resize),
            Step::Resize => Move::Go(Step::ReadMetadata),
            Step::ReadMetadata => Move::Go(Step::CopyPermissions),
            Step::CopyPermissions => Move::Go(Step::CopyOwner),
            Step::CopyOwner => Move::Go(fill),
            Step::Write => Move::Go(Step::Flush),
            Step::Flush => Move::Go(Step::Rename),
            Step::Rename => Move::End(Ok(())),
            Step::Overwrite => Move::End(Ok(())),
        },
        Report::Failed(message) => match step {
            Step::ReadMetadata => Move::Go(fill),
            Step::CopyPermissions => Move::Go(Step::CopyOwner),
            Step::CreateTemp => Move::End(Err(Error::TempfilePersist(message))),
            Step::CopyOwner => Move::End(Err(Error::TempfilePersist(message))),
            Step::Rename => Move::End(Err(Error::TempfilePersist(message))),
            _ => Move::End(Err(Error::File(message))),
        },
        Report::NoParent => Move::End(Err(Error::InvalidPath(path))),
    }
}

/// A commit never goes back: each step that follows another comes later in
/// the order of the steps, so a commit is over after ten moves at most.
pub proof fn law_commit_goes_on(step: Step, report: Report, path: String, len: int, atomic: bool)
    ensures
        decided(step, report, path, len, atomic) matches Move::Go(next) ==> rank(step) < rank(next),
{
}

/// A commit succeeds only with the step that puts the new contents in the
/// place of the old: the move over the file, or the write into the file
/// itself; and only where that step was done.
pub proof fn law_commit_ends_with_the_file(
    step: Step,
    report: Report,
    path: String,
    len: int,
    atomic: bool,
)
    requires
        decided(step, report, path, len, atomic) == Move::End(Ok(())),
    ensures
        report is Done,
        step == Step::Rename || step == Step::Overwrite,
{
}

/// The file itself is touched by the last step only: while a commit by way
/// of a temporary file goes on, no step writes into the file, and contents
/// that are not empty have been written and flushed before the move.
pub proof fn law_write_comes_before_the_move(
    step: Step,
    report: Report,
    path: String,
    len: int,
)
    requires
        len > 0,
        decided(step, report, path, len, true) == Move::Go(Step::Rename),
    ensures
        step == Step::Flush,
        report is Done,
{
}

} // verus!
