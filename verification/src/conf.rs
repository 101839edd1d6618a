//! The settings of a run, and the replacement of one input under them.

use crate::error::Error;
use crate::input::Source;
use crate::replacer::preview::{previewed, PREVIEW_CONTEXT};
use crate::replacer::engine::refusal;
use crate::replacer::validate::first_ambiguous;
use crate::replacer::{
    all_changes, append_bytes, flags_view, limited, pattern_syntax, spliced, template_bytes, Replacer,
};
use crate::text::byte_offset;
use std::borrow::Cow;
use vstd::prelude::*;

verus! {

/// How a replacement is to be made.
pub struct ReplaceConf {
    /// Where the input comes from.
    pub source: Source,
    /// Show the changes instead of making them.
    pub preview: bool,
    /// Write into a file directly, not by way of a temporary file.
    pub no_swap: bool,
    /// Look for the find string as it is, not as a pattern.
    pub literal_mode: bool,
    /// The flag characters of the pattern.
    pub flags: Option<String>,
    /// The most replacements in one input; none and 0 for no limit.
    pub replacements: Option<usize>,
}

/// Sets up a `ReplaceConf` step by step.
pub struct ReplaceConfBuilder {
    pub inner: ReplaceConf,
}

/// The settings that are not asked for: standard input, no preview, by way
/// of a temporary file, regex mode, no flags, no limit.
pub open spec fn is_default(conf: ReplaceConf) -> bool {
    &&& conf.source is Stdin
    &&& !conf.preview
    &&& !conf.no_swap
    &&& !conf.literal_mode
    &&& conf.flags is None
    &&& conf.replacements is None
}

impl Default for ReplaceConf {
    fn default() -> (conf: ReplaceConf)
        ensures
            is_default(conf),
    {
        ReplaceConf {
            source: Source::Stdin,
            preview: false,
            no_swap: false,
            literal_mode: false,
            flags: None,
            replacements: None,
        }
    }
}

impl ReplaceConf {
    /// A builder that starts from the default settings.
    pub fn builder() -> (builder: ReplaceConfBuilder)
        ensures
            is_default(builder.inner),
    {
        ReplaceConfBuilder { inner: ReplaceConf::default() }
    }

    /// The limit as a number: 0 where there is none.
    pub open spec fn limit(&self) -> int {
        match self.replacements {
            Some(n) => n as int,
            None => 0,
        }
    }

    /// What a replacement under these settings makes of `content`, for a
    /// find string and a replacement that are taken: the preview of the
    /// changes in preview mode, else the content with the changes made.
    pub open spec fn outcome(
        &self,
        find: Seq<char>,
        replace_with: Seq<char>,
        content: Seq<u8>,
    ) -> Seq<u8> {
        let changes = limited(
            all_changes(
                pattern_syntax(find, self.literal_mode, flags_view(self.flags)),
                template_bytes(replace_with, self.literal_mode),
                self.literal_mode,
                content,
            ),
            self.limit(),
        );
        if self.preview {
            previewed(content, changes, PREVIEW_CONTEXT as int)
        } else {
            spliced(content, changes)
        }
    }
}

impl ReplaceConfBuilder {
    /// The same settings with another source.
    pub fn set_source(self, source: Source) -> (builder: ReplaceConfBuilder)
        ensures
            builder.inner == (ReplaceConf { source, ..self.inner }),
    {
        let mut builder = self;
        builder.inner.source = source;
        builder
    }

    /// The settings that were set up.
    pub fn build(self) -> (conf: ReplaceConf)
        ensures
            conf == self.inner,
    {
        self.inner
    }
}

/// What a run is asked for on the command line.
#[derive(Debug)]
pub struct Options {
    /// Show the changes on standard output and leave the files as they are.
    pub preview: bool,
    /// Take the find string and the replacement as they are.
    pub literal_mode: bool,
    /// The most replacements in one input; 0 for no limit.
    pub replacements: usize,
    /// The flag characters of the pattern.
    pub flags: Option<String>,
    /// Write into a file directly, not by way of a temporary file.
    pub no_swap: bool,
    /// What is looked for.
    pub find: String,
    /// What each match is replaced by.
    pub replace_with: String,
    /// The files that are worked on; standard input where there is none.
    pub files: Vec<String>,
}

impl Options {
    /// The settings that the options come to for one source.
    pub fn conf(&self, source: Source) -> (conf: ReplaceConf)
        ensures
            conf.source == source,
            conf.preview == self.preview,
            conf.no_swap == self.no_swap,
            conf.literal_mode == self.literal_mode,
            conf.flags == self.flags,
            conf.replacements == Some(self.replacements),
    {
        ReplaceConf {
            source,
            preview: self.preview,
            no_swap: self.no_swap,
            literal_mode: self.literal_mode,
            flags: match &self.flags {
                Some(f) => Some(f.clone()),
                None => None,
            },
            replacements: Some(self.replacements),
        }
    }

    /// The replacer that the options ask for: see `Replacer::new`.
    pub fn replacer(&self) -> (made: Result<Replacer, Error>)
        ensures
            !self.literal_mode && first_ambiguous(self.replace_with@, 0) is Some ==> {
                &&& made matches Err(Error::InvalidReplaceCapture(e))
                &&& e.wf()
                &&& e.original() == self.replace_with@
            },
            self.literal_mode || first_ambiguous(self.replace_with@, 0) is None ==> match refusal(
                pattern_syntax(self.find@, self.literal_mode, flags_view(self.flags)),
            ) {
                None => {
                    &&& made matches Ok(replacer)
                    &&& replacer.syntax() == pattern_syntax(
                        self.find@,
                        self.literal_mode,
                        flags_view(self.flags),
                    )
                    &&& replacer.template() == template_bytes(self.replace_with@, self.literal_mode)
                    &&& replacer.literal() == self.literal_mode
                    &&& replacer.limit() == self.replacements
                },
                Some(text) => made matches Err(Error::Regex(diagnostic)) && diagnostic@ == text,
            },
            made matches Err(e) ==> e.wf(),
    {
        let flags = match &self.flags {
            Some(f) => Some(f.clone()),
            None => None,
        };
        Replacer::new(
            self.find.clone(),
            self.replace_with.clone(),
            self.literal_mode,
            flags,
            self.replacements,
        )
    }
}

/// Replaces what matches `find` in `content` by `replace_with`, under the
/// settings of `replace_conf`.
///
/// An ambiguous capture reference in the replacement is the error in regex
/// mode, whatever the pattern. Else what comes back is the outcome of the
/// settings where the regex engine takes the pattern, and the text of its
/// refusal where it does not.
pub fn replace(find: String, replace_with: String, replace_conf: &ReplaceConf, content: &[u8]) -> (out:
    Result<Vec<u8>, Error>)
    ensures
        !replace_conf.literal_mode && first_ambiguous(replace_with@, 0) is Some ==> {
            &&& out matches Err(Error::InvalidReplaceCapture(e))
            &&& e.wf()
            &&& e.original() == replace_with@
            &&& e.span().start == byte_offset(
                replace_with@,
                first_ambiguous(replace_with@, 0)->0.start - 1,
            )
            &&& e.span().end == byte_offset(replace_with@, first_ambiguous(replace_with@, 0)->0.end)
            &&& e.digits() == first_ambiguous(replace_with@, 0)->0.digits
        },
        replace_conf.literal_mode || first_ambiguous(replace_with@, 0) is None ==> match refusal(
            pattern_syntax(find@, replace_conf.literal_mode, flags_view(replace_conf.flags)),
        ) {
            None => out matches Ok(bytes) && bytes@ == replace_conf.outcome(
                find@,
                replace_with@,
                content@,
            ),
            Some(text) => out matches Err(Error::Regex(diagnostic)) && diagnostic@ == text,
        },
        out matches Err(e) ==> e.wf(),
{
    let limit = match replace_conf.replacements {
        Some(n) => n,
        None => 0,
    };
    let flags = match &replace_conf.flags {
        Some(f) => Some(f.clone()),
        None => None,
    };
    let replacer = match Replacer::new(find, replace_with, replace_conf.literal_mode, flags, limit) {
        Ok(replacer) => replacer,
        Err(e) => {
            return Err(e);
        },
    };
    let shown = if replace_conf.preview {
        replacer.replace_preview(content)
    } else {
        replacer.replace(content)
    };
    match shown {
        Cow::Borrowed(same) => {
            let mut copy: Vec<u8> = Vec::new();
            append_bytes(&mut copy, same);
            Ok(copy)
        },
        Cow::Owned(new) => Ok(new),
    }
}

} // verus!
