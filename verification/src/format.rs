//! The output format: which one a run may ask for, and what it makes of a
//! record.

use crate::error::texts;
use crate::error::ConfigError;
use crate::error::ConfigErrorView;
use crate::error::LineError;
use crate::error::LineErrorView;
use crate::mapping::sentinel;
use crate::mapping::SENTINEL;
use crate::names::ascending;
use crate::names::lemma_ascending_unique;
use crate::names::sort_names;
use crate::record::record_json;
use crate::record::Record;
use crate::text::same_text;
use vstd::prelude::*;

verus! {

/// What is written for a line: the whole record as JSON, or the value of
/// one field.
#[derive(Debug, Clone, PartialEq, Eq)]
pub enum OutputFormat {
    Json,
    Field(String),
}

/// An `OutputFormat` with its field name as a sequence of characters.
pub enum FormatView {
    Json,
    Field(Seq<char>),
}

impl View for OutputFormat {
    type V = FormatView;

    open spec fn view(&self) -> FormatView {
        match *self {
            OutputFormat::Json => FormatView::Json,
            OutputFormat::Field(name) => FormatView::Field(name@),
        }
    }
}

/// Whether a run may ask for the format: the reserved name always, any
/// other only if it is one of the configured names.
pub open spec fn format_allowed(requested: Seq<char>, configured: Seq<Seq<char>>) -> bool {
    requested == sentinel() || configured.contains(requested)
}

/// The format that an allowed request stands for.
pub open spec fn requested_format(requested: Seq<char>) -> FormatView {
    if requested == sentinel() {
        FormatView::Json
    } else {
        FormatView::Field(requested)
    }
}

/// Whether the error is the refusal of this request against these names:
/// it repeats the request and lists the configured names, each once, in
/// ascending order.
pub open spec fn is_refusal(
    error: ConfigErrorView,
    requested: Seq<char>,
    configured: Seq<Seq<char>>,
) -> bool {
    error matches ConfigErrorView::UnknownFormat { requested: asked, valid } && asked == requested
        && ascending(valid) && valid.to_set() == configured.to_set()
}

/// Checks a requested format against the configured names.
pub fn validate_format(requested: &str, configured: &Vec<String>) -> (checked: Result<
    OutputFormat,
    ConfigError,
>)
    ensures
        match checked {
            Ok(format) => format_allowed(requested@, texts(configured@)) && format@
                == requested_format(requested@),
            Err(error) => !format_allowed(requested@, texts(configured@)) && is_refusal(
                error@,
                requested@,
                texts(configured@),
            ),
        },
{
    if same_text(requested, SENTINEL) {
        return Ok(OutputFormat::Json);
    }
    let mut i: usize = 0;
    while i < configured.len()
        invariant
            i <= configured.len(),
            requested@ != sentinel(),
            forall|j: int| 0 <= j < i ==> texts(configured@)[j] != requested@,
        decreases configured.len() - i,
    {
        if same_text(configured[i].as_str(), requested) {
            assert(texts(configured@)[i as int] == requested@);
            assert(texts(configured@).contains(requested@));
            return Ok(OutputFormat::Field(requested.to_owned()));
        }
        i += 1;
    }
    Err(ConfigError::UnknownFormat { requested: requested.to_owned(), valid: sort_names(configured) })
}

/// A refusal depends on the request and on the set of configured names
/// alone: checking the same request against the same names, in whatever
/// order and however often they are listed, gives the same error.
pub proof fn lemma_refusal_is_unique(
    first: ConfigErrorView,
    second: ConfigErrorView,
    requested: Seq<char>,
    names: Seq<Seq<char>>,
    reordered: Seq<Seq<char>>,
)
    requires
        names.to_set() == reordered.to_set(),
        is_refusal(first, requested, names),
        is_refusal(second, requested, reordered),
    ensures
        first == second,
{
    lemma_ascending_unique(first->valid, second->valid);
}

/// Whether a request is allowed depends on the set of configured names
/// alone.
pub proof fn lemma_allowed_ignores_order(
    requested: Seq<char>,
    names: Seq<Seq<char>>,
    reordered: Seq<Seq<char>>,
)
    requires
        names.to_set() == reordered.to_set(),
    ensures
        format_allowed(requested, names) == format_allowed(requested, reordered),
{
    assert(names.contains(requested) == names.to_set().contains(requested));
    assert(reordered.contains(requested) == reordered.to_set().contains(requested));
}

/// What a record is written as: the whole record as one JSON object, or
/// the value of the asked field, which the record must have.
pub open spec fn rendered(fields: Map<Seq<char>, Seq<char>>, format: FormatView) -> Result<
    Seq<char>,
    LineErrorView,
> {
    match format {
        FormatView::Json => Ok(record_json(fields)),
        FormatView::Field(name) => if fields.contains_key(name) {
            Ok(fields[name])
        } else {
            Err(LineErrorView::MissingField { name })
        },
    }
}

/// Writes the record in the format.
pub fn render(record: &Record, format: &OutputFormat) -> (written: Result<String, LineError>)
    ensures
        match written {
            Ok(text) => rendered(record@, format@) == Ok::<Seq<char>, LineErrorView>(text@),
            Err(error) => rendered(record@, format@) == Err::<Seq<char>, LineErrorView>(error@),
        },
{
    match format {
        OutputFormat::Json => Ok(record.to_json()),
        OutputFormat::Field(name) => match record.get(name.as_str()) {
            Some(value) => Ok(value.clone()),
            None => Err(LineError::MissingField { name: name.clone() }),
        },
    }
}

} // verus!
