//! The sources of a run: standard input, or files.

use crate::error::Error;
use vstd::prelude::*;
use vstd::string::StringExecFns;

verus! {

/// Where the bytes of one input come from.
#[derive(Debug, Clone, PartialEq, Eq)]
pub enum Source {
    Stdin,
    File(String),
}

/// A path with what a look at the file system said of it.
#[derive(Debug, Clone)]
pub struct PathProbe {
    pub path: String,
    pub exists: bool,
}

/// The index of the first of `paths`, from `from` on, that does not exist;
/// `paths.len()` where all exist.
pub open spec fn first_missing(paths: Seq<PathProbe>, from: int) -> int
    decreases paths.len() - from,
{
    if from < 0 || from >= paths.len() {
        paths.len() as int
    } else if !paths[from].exists {
        from
    } else {
        first_missing(paths, from + 1)
    }
}

/// The label of a source: `STDIN`, or `FILE` and the path.
pub open spec fn label(source: Source) -> Seq<char> {
    match source {
        Source::Stdin => "STDIN"@,
        Source::File(path) => "FILE "@ + path@,
    }
}

impl Source {
    /// One file source for each path, in the order of the paths, where all
    /// of them exist; else the first path that does not, as an invalid path.
    pub fn from_paths(paths: Vec<PathProbe>) -> (sources: Result<Vec<Source>, Error>)
        ensures
            first_missing(paths@, 0) == paths@.len() ==> {
                &&& sources matches Ok(list)
                &&& list@.len() == paths@.len()
                &&& forall|i: int|
                    0 <= i < list@.len() ==> #[trigger] list@[i] == Source::File(paths@[i].path)
            },
            first_missing(paths@, 0) < paths@.len() ==> {
                &&& sources matches Err(Error::InvalidPath(path))
                &&& path == paths@[first_missing(paths@, 0)].path
            },
    {
        let mut list: Vec<Source> = Vec::new();
        let mut i: usize = 0;
        while i < paths.len()
            invariant
                i <= paths.len(),
                list@.len() == i,
                first_missing(paths@, 0) == first_missing(paths@, i as int),
                forall|k: int| 0 <= k < i ==> #[trigger] list@[k] == Source::File(paths@[k].path),
            decreases paths.len() - i,
        {
            let path = paths[i].path.clone();
            if !paths[i].exists {
                return Err(Error::InvalidPath(path));
            }
            list.push(Source::File(path));
            i += 1;
        }
        Ok(list)
    }

    /// The sources of a run: standard input where no path is given, else one
    /// file source for each path, in the order of the paths. Whether a file
    /// exists is found out when its source is read.
    pub fn for_run(paths: Vec<String>) -> (sources: Vec<Source>)
        ensures
            paths@.len() == 0 ==> sources@ == seq![Source::Stdin],
            paths@.len() > 0 ==> sources@.len() == paths@.len(),
            paths@.len() > 0 ==> forall|i: int|
                0 <= i < sources@.len() ==> #[trigger] sources@[i] == Source::File(paths@[i]),
    {
        if paths.len() == 0 {
            return Source::from_stdin();
        }
        let mut sources: Vec<Source> = Vec::new();
        let mut i: usize = 0;
        while i < paths.len()
            invariant
                i <= paths.len(),
                sources@.len() == i,
                forall|k: int| 0 <= k < i ==> #[trigger] sources@[k] == Source::File(paths@[k]),
            decreases paths.len() - i,
        {
            sources.push(Source::File(paths[i].clone()));
            i += 1;
        }
        sources
    }

    /// The one source of a run that names no file.
    pub fn from_stdin() -> (sources: Vec<Source>)
        ensures
            sources@ == seq![Source::Stdin],
    {
        let mut sources = Vec::new();
        sources.push(Source::Stdin);
        sources
    }

    /// The label that the source has in the output.
    pub fn display(&self) -> (text: String)
        ensures
            text@ == label(*self),
    {
        match self {
            Source::Stdin => String::from_str("STDIN"),
            Source::File(path) => {
                let mut text = String::from_str("FILE ");
                text.append(path.as_str());
                text
            },
        }
    }

    /// Whether the source is standard input.
    pub fn is_stdin(&self) -> (b: bool)
        ensures
            b == (*self is Stdin),
    {
        match self {
            Source::Stdin => true,
            Source::File(_) => false,
        }
    }
}

} // verus!
