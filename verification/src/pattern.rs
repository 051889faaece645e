//! Search patterns: what they match, and how they are handed to the CUDA
//! matcher.

use std::sync::Arc;
use vstd::prelude::*;
use vstd::string::*;
use vstd::utf8::encode_utf8;

use crate::glob::{glob_matches, glob_occurs};
use crate::regex_dfa::{is_compiled, GpuRegexDfa, GpuRegexError};
use crate::regex_engine::{
    build_regex, built_regex, display_regex_error, regex_error_text, regex_is_match, regex_matches,
};
use crate::text::{normalize, normalized};

verus! {

/// Pattern syntax used by a key search.
#[derive(Clone, Copy, Debug, Eq, PartialEq, Structural)]
pub enum PatternKind {
    /// Match a literal string.
    Literal,
    /// Match a glob with `*` (zero or more characters) and `?` (one character).
    Glob,
    /// Match a regular expression using the Rust `regex` engine.
    Regex,
}

/// A compiled search pattern shared by the CPU and CUDA frontends.
#[derive(Clone, Debug)]
pub struct SearchPattern {
    kind: PatternKind,
    source: String,
    bytes: Vec<u8>,
    regex: Option<regex::bytes::Regex>,
    case_sensitive: bool,
}

/// The model of a [`SearchPattern`].
#[verifier::ext_equal]
pub struct Pattern {
    /// The selected syntax.
    pub kind: PatternKind,
    /// The text as it was given.
    pub source: Seq<char>,
    /// The bytes of the text, as they are compared.
    pub bytes: Seq<u8>,
    /// The compiled expression, for a regular expression.
    pub regex: Option<regex::bytes::Regex>,
    /// Whether ASCII letter case must be preserved.
    pub case_sensitive: bool,
}

impl View for SearchPattern {
    type V = Pattern;

    closed spec fn view(&self) -> Pattern {
        Pattern {
            kind: self.kind,
            source: self.source@,
            bytes: self.bytes@,
            regex: self.regex,
            case_sensitive: self.case_sensitive,
        }
    }
}

impl Pattern {
    /// What every constructed pattern satisfies: its bytes are those of its
    /// text, and it holds a compiled expression exactly if it is a regular
    /// expression, the one that the engine builds from its text.
    pub open spec fn wf(self) -> bool {
        &&& self.bytes == normalized(encode_utf8(self.source), self.case_sensitive)
        &&& match self.regex {
            Some(regex) => self.kind is Regex && built_regex(self.source, !self.case_sensitive)
                == Ok::<regex::bytes::Regex, regex::Error>(regex),
            None => self.kind !is Regex,
        }
    }

    /// Whether the pattern matches within `encoded[start..end]`. A range that
    /// is not within `encoded` matches nothing.
    pub open spec fn matches(self, encoded: Seq<u8>, start: int, end: int) -> bool {
        &&& start <= end <= encoded.len()
        &&& self.matches_within(encoded.subrange(start, end))
    }

    /// Whether the pattern matches some part of `haystack`.
    pub open spec fn matches_within(self, haystack: Seq<u8>) -> bool {
        match self.kind {
            PatternKind::Literal => occurs(normalized(haystack, self.case_sensitive), self.bytes),
            PatternKind::Glob => glob_occurs(normalized(haystack, self.case_sensitive), self.bytes),
            PatternKind::Regex => self.regex matches Some(regex) && regex_matches(regex, haystack),
        }
    }
}

/// Whether `needle` is a part of `haystack`.
pub open spec fn occurs(haystack: Seq<u8>, needle: Seq<u8>) -> bool {
    exists|i: int|
        0 <= i && i + needle.len() <= haystack.len() && #[trigger] haystack.subrange(
            i,
            i + needle.len(),
        ) == needle
}

/// The text of the error for an expression that the engine rejects.
pub open spec fn rejection_text(error: Seq<char>) -> Seq<char> {
    "invalid regular expression: "@ + error
}

/// A pattern prepared for the CUDA matcher.
#[derive(Clone, Debug)]
pub enum GpuPattern {
    /// Literal matching data.
    Literal {
        /// Pattern bytes, normalized when case-insensitive matching is enabled.
        bytes: Vec<u8>,
        /// Whether ASCII letter case must be preserved.
        case_sensitive: bool,
    },
    /// Basic glob matching data.
    Glob {
        /// Pattern bytes, normalized when case-insensitive matching is enabled.
        bytes: Vec<u8>,
        /// Whether ASCII letter case must be preserved.
        case_sensitive: bool,
    },
    /// A compact regex DFA shared by GPU workers.
    Regex(Arc<GpuRegexDfa>),
}

/// Whether `result` is what preparing a pattern for the CUDA matcher has to
/// give.
pub open spec fn is_prepared(pattern: Pattern, result: Result<GpuPattern, GpuRegexError>) -> bool {
    match pattern.kind {
        PatternKind::Literal => {
            &&& result matches Ok(GpuPattern::Literal { bytes, case_sensitive })
            &&& bytes@ == pattern.bytes
            &&& case_sensitive == pattern.case_sensitive
        },
        PatternKind::Glob => {
            &&& result matches Ok(GpuPattern::Glob { bytes, case_sensitive })
            &&& bytes@ == pattern.bytes
            &&& case_sensitive == pattern.case_sensitive
        },
        PatternKind::Regex => match result {
            Ok(GpuPattern::Regex(table)) => is_compiled(
                pattern.source,
                pattern.case_sensitive,
                Ok(*table),
            ),
            Ok(_) => false,
            Err(error) => is_compiled(pattern.source, pattern.case_sensitive, Err(error)),
        },
    }
}

/// Describes an expression that the engine rejected with `error`.
pub fn describe_rejection(error: &str) -> (text: String)
    ensures
        text@ == rejection_text(error@),
        text@ == "invalid regular expression: "@ + error@,
{
    let mut text = String::new();
    text.append("invalid regular expression: ");
    text.append(error);
    assert(text@ =~= rejection_text(error@));
    text
}

/// Tests whether `needle` stands in `haystack` at `at`.
fn stands_at(haystack: &[u8], needle: &[u8], at: usize) -> (result: bool)
    requires
        at + needle@.len() <= haystack@.len(),
    ensures
        result == (haystack@.subrange(at as int, at + needle@.len()) == needle@),
{
    let mut i: usize = 0;
    while i < needle.len()
        invariant
            i <= needle@.len(),
            at + needle@.len() <= haystack@.len(),
            forall|j: int| 0 <= j < i ==> #[trigger] needle@[j] == haystack@[at + j],
        decreases needle@.len() - i,
    {
        assert(haystack@.len() == haystack.len());
        if haystack[at + i] != needle[i] {
            assert(haystack@.subrange(at as int, at + needle@.len())[i as int] != needle@[i as int]);
            return false;
        }
        i += 1;
    }
    assert(haystack@.subrange(at as int, at + needle@.len()) =~= needle@);
    true
}

/// Tests whether `needle` is a part of `haystack`.
pub fn contains(haystack: &[u8], needle: &[u8]) -> (result: bool)
    ensures
        result == occurs(haystack@, needle@),
{
    if needle.len() > haystack.len() {
        return false;
    }
    let last: usize = haystack.len() - needle.len();
    let mut start: usize = 0;
    loop
        invariant
            start <= last,
            last + needle@.len() == haystack@.len(),
            forall|i: int|
                0 <= i < start ==> #[trigger] haystack@.subrange(i, i + needle@.len()) != needle@,
        decreases last - start,
    {
        if stands_at(haystack, needle, start) {
            return true;
        }
        if start == last {
            return false;
        }
        start += 1;
    }
}

impl SearchPattern {
    /// Compiles `text` with the requested syntax and case behavior.
    ///
    /// Fails for a regular expression that the engine rejects, and for nothing
    /// else.
    pub fn new(text: &str, kind: PatternKind, case_sensitive: bool) -> (result: Result<
        Self,
        String,
    >)
        ensures
            result matches Ok(pattern) ==> {
                &&& pattern@.wf()
                &&& pattern@.kind == kind
                &&& pattern@.source == text@
                &&& pattern@.case_sensitive == case_sensitive
                &&& pattern@.bytes == normalized(encode_utf8(text@), case_sensitive)
                &&& kind is Regex ==> pattern@.regex == Some(
                    built_regex(text@, !case_sensitive)->Ok_0,
                )
                &&& kind !is Regex ==> pattern@.regex is None
            },
            result is Err <==> kind is Regex && built_regex(text@, !case_sensitive) is Err,
            result matches Err(message) ==> message@ == rejection_text(
                regex_error_text(built_regex(text@, !case_sensitive)->Err_0),
            ),
            result matches Err(message) ==> message@ == "invalid regular expression: "@
                + regex_error_text(built_regex(text@, !case_sensitive)->Err_0),
    {
        let bytes = normalize(text.as_bytes(), case_sensitive);
        let regex = if kind == PatternKind::Regex {
            match build_regex(text, !case_sensitive) {
                Ok(regex) => Some(regex),
                Err(error) => {
                    return Err(describe_rejection(display_regex_error(&error).as_str()));
                },
            }
        } else {
            None
        };
        Ok(SearchPattern { kind, source: text.to_string(), bytes, regex, case_sensitive })
    }

    /// Returns the selected pattern syntax.
    pub fn kind(&self) -> (kind: PatternKind)
        ensures
            kind == self@.kind,
    {
        self.kind
    }

    /// Returns the original matching text length in bytes.
    pub fn len(&self) -> (len: usize)
        ensures
            len == self@.bytes.len(),
    {
        self.bytes.len()
    }

    /// Returns whether the pattern text is empty.
    pub fn is_empty(&self) -> (empty: bool)
        ensures
            empty == (self@.bytes.len() == 0),
    {
        self.bytes.len() == 0
    }

    /// Compiles this pattern into the representation used by the CUDA matcher.
    pub fn gpu_pattern(&self) -> (result: Result<GpuPattern, GpuRegexError>)
        ensures
            is_prepared(self@, result),
            self@.kind is Literal ==> (result matches Ok(
                GpuPattern::Literal { bytes, case_sensitive },
            ) && bytes@ == self@.bytes && case_sensitive == self@.case_sensitive),
            self@.kind is Glob ==> (result matches Ok(GpuPattern::Glob { bytes, case_sensitive })
                && bytes@ == self@.bytes && case_sensitive == self@.case_sensitive),
            self@.kind is Regex ==> match result {
                Ok(GpuPattern::Regex(table)) => is_compiled(
                    self@.source,
                    self@.case_sensitive,
                    Ok(*table),
                ),
                Ok(_) => false,
                Err(error) => is_compiled(self@.source, self@.case_sensitive, Err(error)),
            },
    {
        match self.kind {
            PatternKind::Literal => {
                let bytes = self.bytes.clone();
                assert(bytes@ =~= self.bytes@);
                Ok(GpuPattern::Literal { bytes, case_sensitive: self.case_sensitive })
            },
            PatternKind::Glob => {
                let bytes = self.bytes.clone();
                assert(bytes@ =~= self.bytes@);
                Ok(GpuPattern::Glob { bytes, case_sensitive: self.case_sensitive })
            },
            PatternKind::Regex => match GpuRegexDfa::compile(
                self.source.as_str(),
                self.case_sensitive,
            ) {
                Ok(table) => Ok(GpuPattern::Regex(Arc::new(table))),
                Err(error) => Err(error),
            },
        }
    }

    /// Tests the pattern against any substring within `start..end`.
    ///
    /// An empty literal matches in every valid range.
    pub fn is_match(&self, encoded: &[u8], start: usize, end: usize) -> (result: bool)
        ensures
            result == self@.matches(encoded@, start as int, end as int),
    {
        if start > end || end > encoded.len() {
            return false;
        }
        let haystack = vstd::slice::slice_subrange(encoded, start, end);
        match self.kind {
            PatternKind::Literal => {
                let folded = normalize(haystack, self.case_sensitive);
                contains(folded.as_slice(), self.bytes.as_slice())
            },
            PatternKind::Glob => {
                let folded = normalize(haystack, self.case_sensitive);
                glob_matches(folded.as_slice(), self.bytes.as_slice())
            },
            PatternKind::Regex => match &self.regex {
                Some(regex) => regex_is_match(regex, haystack),
                None => false,
            },
        }
    }
}

} // verus!
