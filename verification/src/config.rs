//! A checked configuration, and what it makes of each line.

use crate::error::ConfigError;
use crate::error::ConfigErrorView;
use crate::error::LineError;
use crate::error::LineErrorView;
use crate::format::format_allowed;
use crate::format::is_refusal;
use crate::format::render;
use crate::format::rendered;
use crate::format::requested_format;
use crate::format::validate_format;
use crate::format::FormatView;
use crate::format::OutputFormat;
use crate::fragment::json_members;
use crate::fragment::lemma_merge_has_fragment_keys;
use crate::fragment::lemma_merge_keeps_names;
use crate::fragment::lemma_merge_takes_fragment_values;
use crate::fragment::member_value;
use crate::fragment::merge_fragment;
use crate::fragment::merge_outcome;
use crate::fragment::merged_record;
use crate::fragment::Member;
use crate::mapping::first_unknown_group;
use crate::mapping::fragment_candidate;
use crate::mapping::groups_known;
use crate::mapping::is_mapped_name;
use crate::mapping::lemma_mapped_names;
use crate::mapping::mapped_record;
use crate::mapping::sentinel;
use crate::mapping::FieldMapping;
use crate::mapping::RuleView;
use crate::pattern::pattern_compiles;
use crate::pattern::regex_captures;
use crate::pattern::regex_group_count;
use crate::pattern::Pattern;
use crate::record::Record;
use vstd::prelude::*;

verus! {

/// The field names of the rules, in their order.
pub open spec fn rule_names(rules: Seq<RuleView>) -> Seq<Seq<char>> {
    rules.map_values(|rule: RuleView| rule.name)
}

/// The record of a line, from what the pattern captured in it: the mapped
/// fields with the fragment merged in. A line that the pattern does not
/// match has none.
pub open spec fn extracted(found: Option<Seq<Option<Seq<char>>>>, rules: Seq<RuleView>) -> Result<
    Map<Seq<char>, Seq<char>>,
    LineErrorView,
> {
    match found {
        None => Err(LineErrorView::NoMatch),
        Some(groups) => match merge_outcome(
            mapped_record(groups, rules),
            fragment_candidate(groups, rules),
        ) {
            Ok(fields) => Ok(fields),
            Err(error) => Err(LineErrorView::Fragment(error)),
        },
    }
}

/// What is written for a line, from what the pattern captured in it.
pub open spec fn line_output(
    found: Option<Seq<Option<Seq<char>>>>,
    rules: Seq<RuleView>,
    format: FormatView,
) -> Result<Seq<char>, LineErrorView> {
    match extracted(found, rules) {
        Ok(fields) => rendered(fields, format),
        Err(error) => Err(error),
    }
}

/// What the caller is to do about a line.
#[derive(Debug, Clone, PartialEq, Eq)]
pub enum LineAction {
    /// Write the text as one line of output.
    Emit(String),
    /// Write nothing and go on.
    Skip,
    /// Write nothing, report the fault and go on.
    Report(LineError),
    /// Report the fault and end the run with a failure.
    Abort(LineError),
}

/// A `LineAction` with its texts as sequences of characters.
pub enum ActionView {
    Emit(Seq<char>),
    Skip,
    Report(LineErrorView),
    Abort(LineErrorView),
}

impl View for LineAction {
    type V = ActionView;

    open spec fn view(&self) -> ActionView {
        match *self {
            LineAction::Emit(text) => ActionView::Emit(text@),
            LineAction::Skip => ActionView::Skip,
            LineAction::Report(error) => ActionView::Report(error@),
            LineAction::Abort(error) => ActionView::Abort(error@),
        }
    }
}

/// The action for the outcome of a line. Output is written. A line that
/// could not be read ends the run. Any other fault ends the run in strict
/// mode; otherwise the line is skipped, silently if the pattern did not
/// match it, with a report if its fragment or its record is at fault.
pub open spec fn action_for(outcome: Result<Seq<char>, LineErrorView>, strict: bool) -> ActionView {
    match outcome {
        Ok(text) => ActionView::Emit(text),
        Err(error) => if strict || error is Unreadable {
            ActionView::Abort(error)
        } else if error is NoMatch {
            ActionView::Skip
        } else {
            ActionView::Report(error)
        },
    }
}

/// Decides what to do about a line from its outcome.
pub fn decide(outcome: Result<String, LineError>, strict: bool) -> (action: LineAction)
    ensures
        action@ == action_for(
            match outcome {
                Ok(text) => Ok(text@),
                Err(error) => Err(error@),
            },
            strict,
        ),
{
    match outcome {
        Ok(text) => LineAction::Emit(text),
        Err(error) => {
            if strict {
                LineAction::Abort(error)
            } else {
                match error {
                    LineError::Unreadable => LineAction::Abort(error),
                    LineError::NoMatch => LineAction::Skip,
                    _ => LineAction::Report(error),
                }
            }
        },
    }
}

/// A format that was allowed for the names of a mapping finds its field in
/// the record of every line that has one: its output is never refused for
/// a missing field.
pub proof fn lemma_allowed_format_has_its_field(
    requested: Seq<char>,
    found: Option<Seq<Option<Seq<char>>>>,
    rules: Seq<RuleView>,
)
    requires
        format_allowed(requested, rule_names(rules)),
        extracted(found, rules) is Ok,
    ensures
        line_output(found, rules, requested_format(requested)) is Ok,
{
    if requested != sentinel() {
        let names = rule_names(rules);
        let i = choose|i: int| 0 <= i < names.len() && names[i] == requested;
        assert(rules[i].name == requested);
        let groups = found->0;
        lemma_mapped_names(groups, rules, requested);
        lemma_merge_keeps_names(
            mapped_record(groups, rules),
            fragment_candidate(groups, rules),
            requested,
        );
    }
}

/// A line without a fragment, or with an empty one, gives the mapped
/// fields: its record has the names of the mapping but the reserved one,
/// and no other.
pub proof fn lemma_record_without_fragment(
    groups: Seq<Option<Seq<char>>>,
    rules: Seq<RuleView>,
    name: Seq<char>,
)
    requires
        fragment_candidate(groups, rules) is None || fragment_candidate(groups, rules)
            == Some(Seq::<char>::empty()),
    ensures
        extracted(Some(groups), rules) == Ok::<Map<Seq<char>, Seq<char>>, LineErrorView>(
            mapped_record(groups, rules),
        ),
        extracted(Some(groups), rules)->Ok_0.contains_key(name) <==> is_mapped_name(rules, name),
{
    lemma_mapped_names(groups, rules, name);
}

/// A line whose fragment is a JSON object has a record, in which every key
/// of the object is a field. The field has the value of the last member
/// with that key, also where a rule of the mapping put a field of that
/// name.
pub proof fn lemma_record_with_fragment(
    groups: Seq<Option<Seq<char>>>,
    rules: Seq<RuleView>,
    text: Seq<char>,
    members: Seq<Member>,
    i: int,
)
    requires
        fragment_candidate(groups, rules) == Some(text),
        text.len() > 0,
        json_members(text) == Some(Some(members)),
        0 <= i < members.len(),
    ensures
        extracted(Some(groups), rules) == Ok::<Map<Seq<char>, Seq<char>>, LineErrorView>(
            merged_record(mapped_record(groups, rules), members),
        ),
        extracted(Some(groups), rules)->Ok_0.contains_key(members[i].0),
        (forall|j: int| i < j < members.len() ==> #[trigger] members[j].0 != members[i].0)
            ==> extracted(Some(groups), rules)->Ok_0[members[i].0] == member_value(members[i]),
{
    let mapped = mapped_record(groups, rules);
    lemma_merge_has_fragment_keys(mapped, members, i);
    if forall|j: int| i < j < members.len() ==> #[trigger] members[j].0 != members[i].0 {
        lemma_merge_takes_fragment_values(mapped, members, i);
    }
}

/// The configuration of a run: checked once, then applied to each line.
pub struct Config {
    pattern: Pattern,
    mapping: FieldMapping,
    format: OutputFormat,
    strict: bool,
}

impl Config {
    #[verifier::type_invariant]
    spec fn checked(&self) -> bool {
        &&& groups_known(self.mapping@, regex_group_count(self.pattern@) as int)
        &&& self.format@ matches FormatView::Field(name) ==> format_allowed(
            name,
            rule_names(self.mapping@),
        ) && name != sentinel()
    }

    /// The regular expression.
    pub closed spec fn pattern(&self) -> Seq<char> {
        self.pattern@
    }

    /// The rules from capture groups to field names.
    pub closed spec fn rules(&self) -> Seq<RuleView> {
        self.mapping@
    }

    /// The output format.
    pub closed spec fn format(&self) -> FormatView {
        self.format@
    }

    /// Whether a fault with a line ends the run.
    pub closed spec fn strict(&self) -> bool {
        self.strict
    }

    /// Checks the pattern, then the groups of the rules against the groups
    /// of the pattern, then the requested format against the names of the
    /// rules. The first fault found is the error.
    pub fn new(pattern: &str, mapping: FieldMapping, requested: &str, strict: bool) -> (made:
        Result<Config, ConfigError>)
        ensures
            match made {
                Ok(config) => {
                    &&& pattern_compiles(pattern@)
                    &&& groups_known(mapping@, regex_group_count(pattern@) as int)
                    &&& format_allowed(requested@, rule_names(mapping@))
                    &&& config.pattern() == pattern@
                    &&& config.rules() == mapping@
                    &&& config.format() == requested_format(requested@)
                    &&& config.strict() == strict
                },
                Err(error) => if !pattern_compiles(pattern@) {
                    error@ == (ConfigErrorView::InvalidPattern { pattern: pattern@ })
                } else if !groups_known(mapping@, regex_group_count(pattern@) as int) {
                    exists|i: int|
                        first_unknown_group(mapping@, regex_group_count(pattern@) as int, i)
                            && error@ == (ConfigErrorView::UnknownGroup {
                            group: (#[trigger] mapping@[i]).group,
                            groups: regex_group_count(pattern@) as int,
                        })
                } else {
                    !format_allowed(requested@, rule_names(mapping@)) && is_refusal(
                        error@,
                        requested@,
                        rule_names(mapping@),
                    )
                },
            },
    {
        let pattern = match Pattern::new(pattern) {
            Ok(pattern) => pattern,
            Err(error) => {
                return Err(error);
            },
        };
        match mapping.check_groups(pattern.group_count()) {
            Ok(_) => {},
            Err(error) => {
                return Err(error);
            },
        }
        let names = mapping.names();
        assert(crate::error::texts(names@) =~= rule_names(mapping@));
        let format = match validate_format(requested, &names) {
            Ok(format) => format,
            Err(error) => {
                return Err(error);
            },
        };
        Ok(Config { pattern, mapping, format, strict })
    }

    /// The record of a line.
    pub fn extract(&self, line: &str) -> (record: Result<Record, LineError>)
        ensures
            match record {
                Ok(fields) => extracted(regex_captures(self.pattern(), line@), self.rules())
                    == Ok::<Map<Seq<char>, Seq<char>>, LineErrorView>(fields@),
                Err(error) => extracted(regex_captures(self.pattern(), line@), self.rules())
                    == Err::<Map<Seq<char>, Seq<char>>, LineErrorView>(error@),
            },
    {
        let captures = match self.pattern.captures(line) {
            Some(captures) => captures,
            None => {
                return Err(LineError::NoMatch);
            },
        };
        let (record, fragment) = self.mapping.map_fields(&captures);
        let fragment_text = match &fragment {
            Some(text) => Some(text.as_str()),
            None => None,
        };
        match merge_fragment(record, fragment_text) {
            Ok(merged) => Ok(merged),
            Err(error) => Err(LineError::Fragment(error)),
        }
    }

    /// What is written for a line. The format was checked against the
    /// mapping, so no line is refused for a missing field.
    pub fn process(&self, line: &str) -> (output: Result<String, LineError>)
        ensures
            !(output matches Err(LineError::MissingField { .. })),
            match output {
                Ok(text) => line_output(
                    regex_captures(self.pattern(), line@),
                    self.rules(),
                    self.format(),
                ) == Ok::<Seq<char>, LineErrorView>(text@),
                Err(error) => line_output(
                    regex_captures(self.pattern(), line@),
                    self.rules(),
                    self.format(),
                ) == Err::<Seq<char>, LineErrorView>(error@),
            },
    {
        proof {
            use_type_invariant(self);
            if self.format@ is Field {
                let found = regex_captures(self.pattern(), line@);
                if extracted(found, self.rules()) is Ok {
                    lemma_allowed_format_has_its_field(self.format@->Field_0, found, self.rules());
                }
            }
        }
        match self.extract(line) {
            Ok(record) => render(&record, &self.format),
            Err(error) => Err(error),
        }
    }

    /// The regular expression as it was written.
    pub fn pattern_source(&self) -> (source: &str)
        ensures
            source@ == self.pattern(),
    {
        self.pattern.source()
    }

    /// The rules from capture groups to field names.
    pub fn mapping(&self) -> (mapping: &FieldMapping)
        ensures
            mapping@ == self.rules(),
    {
        &self.mapping
    }

    /// The output format.
    pub fn output_format(&self) -> (format: &OutputFormat)
        ensures
            format@ == self.format(),
    {
        &self.format
    }

    /// Whether a fault with a line ends the run.
    pub fn is_strict(&self) -> (strict: bool)
        ensures
            strict == self.strict(),
    {
        self.strict
    }

    /// What to do about a line that was read, or about one that could not
    /// be read, for which `line` is `None`.
    pub fn handle_line(&self, line: Option<&str>) -> (action: LineAction)
        ensures
            action@ == action_for(
                match line {
                    Some(text) => line_output(
                        regex_captures(self.pattern(), text@),
                        self.rules(),
                        self.format(),
                    ),
                    None => Err(LineErrorView::Unreadable),
                },
                self.strict(),
            ),
    {
        let outcome = match line {
            Some(text) => self.process(text),
            None => Err(LineError::Unreadable),
        };
        decide(outcome, self.strict)
    }
}

} // verus!
