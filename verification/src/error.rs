//! What can go wrong: with the configuration, before any line is read, and
//! with a single line.

use crate::text::decimal_digits;
use crate::text::decimal_text;
use vstd::prelude::*;
use vstd::string::StringExecFns;

verus! {

/// A fault in the configuration. It is found once, before the first line.
#[derive(Debug, Clone, PartialEq, Eq)]
pub enum ConfigError {
    /// The pattern is not a regular expression.
    InvalidPattern { pattern: String },
    /// A group reference is not a decimal number that fits the machine.
    BadGroupRef { text: String },
    /// A rule names group `group`, but the pattern has only `groups` groups,
    /// the whole match counted as group 0.
    UnknownGroup { group: usize, groups: usize },
    /// The requested output format is neither the whole record nor one of
    /// the configured names, which `valid` lists in ascending order.
    UnknownFormat { requested: String, valid: Vec<String> },
}

/// Why a fragment could not be merged into a record.
#[derive(Debug, Clone, Copy, PartialEq, Eq, Structural)]
pub enum FragmentError {
    /// The text is not JSON.
    Malformed,
    /// The text is JSON, but not an object.
    NotAnObject,
}

/// A fault with one line.
#[derive(Debug, Clone, PartialEq, Eq)]
pub enum LineError {
    /// The line could not be read.
    Unreadable,
    /// The pattern does not match the line.
    NoMatch,
    /// The captured fragment is not a JSON object.
    Fragment(FragmentError),
    /// The record of the line lacks the requested field.
    MissingField { name: String },
}

/// A `ConfigError` with its texts as sequences of characters.
pub enum ConfigErrorView {
    InvalidPattern { pattern: Seq<char> },
    BadGroupRef { text: Seq<char> },
    UnknownGroup { group: int, groups: int },
    UnknownFormat { requested: Seq<char>, valid: Seq<Seq<char>> },
}

/// A `LineError` with its texts as sequences of characters.
pub enum LineErrorView {
    Unreadable,
    NoMatch,
    Fragment(FragmentError),
    MissingField { name: Seq<char> },
}

/// The characters of each string of a list.
pub open spec fn texts(strings: Seq<String>) -> Seq<Seq<char>> {
    strings.map_values(|s: String| s@)
}

impl View for ConfigError {
    type V = ConfigErrorView;

    open spec fn view(&self) -> ConfigErrorView {
        match *self {
            ConfigError::InvalidPattern { pattern } => ConfigErrorView::InvalidPattern {
                pattern: pattern@,
            },
            ConfigError::BadGroupRef { text } => ConfigErrorView::BadGroupRef { text: text@ },
            ConfigError::UnknownGroup { group, groups } => ConfigErrorView::UnknownGroup {
                group: group as int,
                groups: groups as int,
            },
            ConfigError::UnknownFormat { requested, valid } => ConfigErrorView::UnknownFormat {
                requested: requested@,
                valid: texts(valid@),
            },
        }
    }
}

impl View for LineError {
    type V = LineErrorView;

    open spec fn view(&self) -> LineErrorView {
        match *self {
            LineError::Unreadable => LineErrorView::Unreadable,
            LineError::NoMatch => LineErrorView::NoMatch,
            LineError::Fragment(e) => LineErrorView::Fragment(e),
            LineError::MissingField { name } => LineErrorView::MissingField { name: name@ },
        }
    }
}

/// The parts with the separator between each two neighbours.
pub open spec fn joined(parts: Seq<Seq<char>>, separator: Seq<char>) -> Seq<char>
    decreases parts.len(),
{
    if parts.len() == 0 {
        Seq::empty()
    } else if parts.len() == 1 {
        parts[0]
    } else {
        joined(parts.drop_last(), separator) + separator + parts.last()
    }
}

/// Calls `itertools::join` on the strings. It writes the first string, then
/// for each further one the separator and the string.
#[verifier::external_body]
fn join_texts(parts: &Vec<String>, separator: &str) -> (text: String)
    ensures
        text@ == joined(texts(parts@), separator@),
{
    itertools::join(parts, separator)
}

/// What `ConfigError::message` says.
pub open spec fn config_message(error: ConfigErrorView) -> Seq<char> {
    match error {
        ConfigErrorView::InvalidPattern { pattern } => "invalid pattern '"@ + pattern + "'"@,
        ConfigErrorView::BadGroupRef { text } => "invalid group reference '"@ + text + "'"@,
        ConfigErrorView::UnknownGroup { group, groups } => "group "@ + decimal_digits(group as nat)
            + " is not among the "@ + decimal_digits(groups as nat) + " groups of the pattern"@,
        ConfigErrorView::UnknownFormat { requested, valid } => "format '"@ + requested
            + "' does not exist, allowed values are "@ + joined(valid, ", "@),
    }
}

/// What `LineError::message` says.
pub open spec fn line_message(error: LineErrorView) -> Seq<char> {
    match error {
        LineErrorView::Unreadable => "failed to read line"@,
        LineErrorView::NoMatch => "pattern does not match"@,
        LineErrorView::Fragment(FragmentError::Malformed) => "fragment is not valid JSON"@,
        LineErrorView::Fragment(FragmentError::NotAnObject) => "fragment is not a JSON object"@,
        LineErrorView::MissingField { name } => "record has no field '"@ + name + "'"@,
    }
}

impl ConfigError {
    /// The fault in words, for the error channel.
    pub fn message(&self) -> (text: String)
        ensures
            text@ == config_message(self@),
    {
        match self {
            ConfigError::InvalidPattern { pattern } => {
                String::from_str("invalid pattern '").concat(pattern.as_str()).concat("'")
            },
            ConfigError::BadGroupRef { text } => {
                String::from_str("invalid group reference '").concat(text.as_str()).concat("'")
            },
            ConfigError::UnknownGroup { group, groups } => {
                String::from_str("group ").concat(decimal_text(*group).as_str()).concat(
                    " is not among the ",
                ).concat(decimal_text(*groups).as_str()).concat(" groups of the pattern")
            },
            ConfigError::UnknownFormat { requested, valid } => {
                let names = join_texts(valid, ", ");
                String::from_str("format '").concat(requested.as_str()).concat(
                    "' does not exist, allowed values are ",
                ).concat(names.as_str())
            },
        }
    }
}

impl LineError {
    /// The fault in words, for the error channel.
    pub fn message(&self) -> (text: String)
        ensures
            text@ == line_message(self@),
    {
        match self {
            LineError::Unreadable => String::from_str("failed to read line"),
            LineError::NoMatch => String::from_str("pattern does not match"),
            LineError::Fragment(FragmentError::Malformed) => String::from_str(
                "fragment is not valid JSON",
            ),
            LineError::Fragment(FragmentError::NotAnObject) => String::from_str(
                "fragment is not a JSON object",
            ),
            LineError::MissingField { name } => {
                String::from_str("record has no field '").concat(name.as_str()).concat("'")
            },
        }
    }
}

} // verus!
