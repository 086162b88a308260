//! The regular expression of a configuration, and what it captures in a line.

use crate::error::ConfigError;
use vstd::pervasive::unreached;
use vstd::prelude::*;

verus! {

/// Whether `regex::Regex::new` accepts the pattern.
pub uninterp spec fn pattern_compiles(pattern: Seq<char>) -> bool;

/// What `regex::Regex::captures_len` says of a pattern that compiles: the
/// number of its capture groups, the whole match counted as one.
pub uninterp spec fn regex_group_count(pattern: Seq<char>) -> nat;

/// What `regex::Regex::captures` finds in the line for a pattern that
/// compiles: nothing where the pattern matches nowhere, else for the
/// leftmost match one entry per capture group, the whole match first, each
/// the text the group captured or nothing where it took no part.
pub uninterp spec fn regex_captures(pattern: Seq<char>, line: Seq<char>) -> Option<
    Seq<Option<Seq<char>>>,
>;

/// The characters of each captured text.
pub open spec fn group_texts(groups: Seq<Option<String>>) -> Seq<Option<Seq<char>>> {
    groups.map_values(
        |group: Option<String>|
            match group {
                Some(text) => Some(text@),
                None => None,
            },
    )
}

/// Compiles the pattern with `regex::Regex::new` and calls
/// `regex::Regex::captures_len` on the result. Gives nothing where the
/// pattern does not compile, else the number of its capture groups.
#[verifier::external_body]
fn count_groups(pattern: &str) -> (counted: Option<usize>)
    ensures
        counted is Some <==> pattern_compiles(pattern@),
        counted matches Some(groups) ==> groups == regex_group_count(pattern@),
{
    regex::Regex::new(pattern).ok().map(|compiled| compiled.captures_len())
}

/// Compiles the pattern with `regex::Regex::new` and calls
/// `regex::Regex::captures` on the line. Gives nothing where the pattern
/// does not compile, else the capture groups of the leftmost match, if any,
/// each as an owned string.
#[verifier::external_body]
fn find_captures(pattern: &str, line: &str) -> (found: Option<Option<Vec<Option<String>>>>)
    ensures
        found is Some <==> pattern_compiles(pattern@),
        found matches Some(Some(groups)) ==> regex_captures(pattern@, line@) == Some(
            group_texts(groups@),
        ),
        found matches Some(None) ==> regex_captures(pattern@, line@) is None,
{
    let compiled = regex::Regex::new(pattern).ok()?;
    Some(
        compiled.captures(line).map(
            |groups| groups.iter().map(|group| group.map(|m| m.as_str().to_string())).collect(),
        ),
    )
}

/// What one match captured: the text of each group, the whole match at 0,
/// and nothing for a group that took no part in the match.
#[derive(Debug, Clone, PartialEq, Eq)]
pub struct CaptureResult {
    pub groups: Vec<Option<String>>,
}

impl View for CaptureResult {
    type V = Seq<Option<Seq<char>>>;

    open spec fn view(&self) -> Seq<Option<Seq<char>>> {
        group_texts(self.groups@)
    }
}

/// The text that group `index` captured: empty where the match has no such
/// group, or the group took no part in it.
pub open spec fn group_text(groups: Seq<Option<Seq<char>>>, index: int) -> Seq<char> {
    if 0 <= index < groups.len() {
        match groups[index] {
            Some(text) => text,
            None => Seq::empty(),
        }
    } else {
        Seq::empty()
    }
}

impl CaptureResult {
    /// The text of group `index`, empty if it captured nothing.
    pub fn text(&self, index: usize) -> (text: &str)
        ensures
            text@ == group_text(self@, index as int),
    {
        proof {
            reveal_strlit("");
        }
        if index < self.groups.len() {
            match &self.groups[index] {
                Some(text) => text.as_str(),
                None => "",
            }
        } else {
            ""
        }
    }
}

/// A pattern that is known to compile, with the number of its groups.
///
/// The pattern is held as text and compiled again by each call of
/// `captures`. A compiled `regex::Regex` is opaque to the verifier: nothing
/// could be stated of what it matches but by what it was compiled from.
pub struct Pattern {
    source: String,
    groups: usize,
}

impl View for Pattern {
    type V = Seq<char>;

    closed spec fn view(&self) -> Seq<char> {
        self.source@
    }
}

impl Pattern {
    #[verifier::type_invariant]
    spec fn valid(&self) -> bool {
        pattern_compiles(self.source@) && self.groups == regex_group_count(self.source@)
    }

    /// Takes the pattern if it is a regular expression.
    pub fn new(source: &str) -> (made: Result<Pattern, ConfigError>)
        ensures
            match made {
                Ok(pattern) => pattern_compiles(source@) && pattern@ == source@,
                Err(error) => !pattern_compiles(source@) && error@
                    == (crate::error::ConfigErrorView::InvalidPattern { pattern: source@ }),
            },
    {
        match count_groups(source) {
            Some(groups) => Ok(Pattern { source: source.to_owned(), groups }),
            None => Err(ConfigError::InvalidPattern { pattern: source.to_owned() }),
        }
    }

    /// The number of capture groups, the whole match counted as group 0.
    pub fn group_count(&self) -> (groups: usize)
        ensures
            groups == regex_group_count(self@),
    {
        proof {
            use_type_invariant(self);
        }
        self.groups
    }

    /// The pattern as it was written.
    pub fn source(&self) -> (source: &str)
        ensures
            source@ == self@,
    {
        self.source.as_str()
    }

    /// The capture groups of the leftmost match of the pattern in the line,
    /// or nothing where it matches nowhere.
    pub fn captures(&self, line: &str) -> (found: Option<CaptureResult>)
        ensures
            match found {
                Some(result) => regex_captures(self@, line@) == Some(result@),
                None => regex_captures(self@, line@) is None,
            },
    {
        proof {
            use_type_invariant(self);
        }
        match find_captures(self.source.as_str(), line) {
            Some(Some(groups)) => Some(CaptureResult { groups }),
            Some(None) => None,
            None => unreached(),
        }
    }
}

} // verus!
