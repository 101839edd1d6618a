//! A find-and-replace engine over byte buffers.
//!
//! A pattern, literal or regex, and a replacement template are compiled into
//! a [`Replacer`]; the template is validated before anything is matched. The
//! replacer turns the bytes of an input into the bytes with the matches
//! replaced, or into a preview of the changes. The jobs of a run, one for
//! each source, are worked on independently; their results are written out
//! in the order of the sources, or committed to the files step by step.
//!
//! Reading and writing are left to the caller: the library takes and gives
//! plain values.

pub mod conf;
pub mod error;
pub mod filters;
pub mod input;
pub mod jobs;
pub mod output;
pub mod replacer;
pub mod text;
pub mod unescape;

pub use conf::{replace, ReplaceConf, ReplaceConfBuilder};
pub use error::{Error, FailedJobs};
pub use input::Source;
pub use replacer::Replacer;
