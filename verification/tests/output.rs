use sd::output::{first_step, next_move, Move, Report, Step};
use sd::Error;

fn run(atomic: bool, len: usize, fails: &[Step], no_parent: bool) -> (Vec<Step>, Result<(), Error>) {
    let mut taken = Vec::new();
    let mut step = first_step();
    loop {
        taken.push(step);
        let report = if step == Step::Resolve && no_parent {
            Report::NoParent
        } else if fails.contains(&step) {
            Report::Failed(format!("{:?} failed", step))
        } else {
            Report::Done
        };
        match next_move(step, report, "/p".to_owned(), len, atomic) {
            Move::Go(next) => step = next,
            Move::End(result) => return (taken, result),
        }
    }
}

#[test]
fn the_steps_of_a_commit() {
    let (steps, result) = run(true, 3, &[], false);
    assert_eq!(
        steps,
        [
            Step::Resolve,
            Step::CreateTemp,
            Step::Resize,
            Step::ReadMetadata,
            Step::CopyPermissions,
            Step::CopyOwner,
            Step::Write,
            Step::Flush,
            Step::Rename
        ]
    );
    assert!(result.is_ok());
}

#[test]
fn empty_contents_are_not_written() {
    let (steps, result) = run(true, 0, &[], false);
    assert_eq!(
        steps,
        [
            Step::Resolve,
            Step::CreateTemp,
            Step::Resize,
            Step::ReadMetadata,
            Step::CopyPermissions,
            Step::CopyOwner,
            Step::Rename
        ]
    );
    assert!(result.is_ok());
}

#[test]
fn without_the_swap_the_file_is_written_directly() {
    let (steps, result) = run(false, 3, &[], false);
    assert_eq!(steps, [Step::Resolve, Step::Overwrite]);
    assert!(result.is_ok());
    let (steps, result) = run(false, 3, &[Step::Overwrite], false);
    assert_eq!(steps, [Step::Resolve, Step::Overwrite]);
    assert!(matches!(result, Err(Error::File(m)) if m == "Overwrite failed"));
    let (steps, result) = run(false, 3, &[], true);
    assert_eq!(steps, [Step::Resolve]);
    assert!(matches!(result, Err(Error::InvalidPath(p)) if p == "/p"));
}

#[test]
fn a_path_without_a_directory_is_invalid() {
    let (steps, result) = run(true, 3, &[], true);
    assert_eq!(steps, [Step::Resolve]);
    assert!(matches!(result, Err(Error::InvalidPath(p)) if p == "/p"));
}

#[test]
fn metadata_that_cannot_be_copied_does_not_end_the_commit() {
    let (steps, result) = run(true, 3, &[Step::ReadMetadata], false);
    assert_eq!(
        steps,
        [
            Step::Resolve,
            Step::CreateTemp,
            Step::Resize,
            Step::ReadMetadata,
            Step::Write,
            Step::Flush,
            Step::Rename
        ]
    );
    assert!(result.is_ok());
    let (steps, result) = run(true, 0, &[Step::ReadMetadata], false);
    assert_eq!(steps.last(), Some(&Step::Rename));
    assert_eq!(steps.len(), 5);
    assert!(result.is_ok());
    let (steps, result) = run(true, 3, &[Step::CopyPermissions], false);
    assert_eq!(steps.len(), 9);
    assert!(result.is_ok());
}

#[test]
fn each_failure_that_ends_the_commit() {
    for (step, at) in [(Step::Resolve, 1), (Step::Resize, 3), (Step::Write, 7), (Step::Flush, 8)] {
        let (steps, result) = run(true, 3, &[step], false);
        assert_eq!(steps.len(), at);
        assert_eq!(steps.last(), Some(&step));
        assert!(matches!(result, Err(Error::File(m)) if m == format!("{:?} failed", step)));
    }
    for (step, at) in [(Step::CreateTemp, 2), (Step::CopyOwner, 6), (Step::Rename, 9)] {
        let (steps, result) = run(true, 3, &[step], false);
        assert_eq!(steps.len(), at);
        assert_eq!(steps.last(), Some(&step));
        assert!(
            matches!(result, Err(Error::TempfilePersist(m)) if m == format!("{:?} failed", step))
        );
    }
}
