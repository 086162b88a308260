//! The mapping from capture groups to field names, and the record that it
//! makes of one match.

use crate::error::ConfigError;
use crate::error::ConfigErrorView;
use crate::pattern::group_text;
use crate::pattern::CaptureResult;
use crate::record::Record;
use crate::text::same_text;
use vstd::prelude::*;
use vstd::string::StrSliceExecFns;

verus! {

/// The reserved name. As a field name it marks the group whose text is a
/// JSON object to merge; as an output format it asks for the whole record.
pub const SENTINEL: &'static str = "json";

/// The characters of the reserved name.
pub open spec fn sentinel() -> Seq<char> {
    SENTINEL@
}

/// One rule of the mapping: the text of capture group `group` becomes the
/// field `name`.
#[derive(Debug, Clone, PartialEq, Eq)]
pub struct FieldRule {
    pub group: usize,
    pub name: String,
}

/// A `FieldRule` with its name as a sequence of characters.
pub struct RuleView {
    pub group: int,
    pub name: Seq<char>,
}

impl View for FieldRule {
    type V = RuleView;

    open spec fn view(&self) -> RuleView {
        RuleView { group: self.group as int, name: self.name@ }
    }
}

/// The rules in the order in which they apply.
#[derive(Debug, Clone, PartialEq, Eq)]
pub struct FieldMapping {
    pub rules: Vec<FieldRule>,
}

impl View for FieldMapping {
    type V = Seq<RuleView>;

    open spec fn view(&self) -> Seq<RuleView> {
        self.rules@.map_values(|rule: FieldRule| rule@)
    }
}

/// Whether the character is one of the ten decimal digits.
pub open spec fn is_digit(c: char) -> bool {
    '0' <= c <= '9'
}

/// Whether every character is a decimal digit.
pub open spec fn all_digits(text: Seq<char>) -> bool {
    forall|i: int| 0 <= i < text.len() ==> is_digit(#[trigger] text[i])
}

/// The number that decimal digits write.
pub open spec fn decimal_value(digits: Seq<char>) -> nat
    decreases digits.len(),
{
    if digits.len() == 0 {
        0
    } else {
        decimal_value(digits.drop_last()) * 10 + (digits.last() as nat - '0' as nat) as nat
    }
}

/// The digits of a group reference: the text after its plus sign, if it
/// starts with one.
pub open spec fn ref_digits(text: Seq<char>) -> Seq<char> {
    if text.len() > 0 && text[0] == '+' {
        text.drop_first()
    } else {
        text
    }
}

/// The group that a reference names: decimal digits, after an optional
/// plus sign, whose number fits the machine's index type.
pub open spec fn group_ref(text: Seq<char>) -> Option<int> {
    let digits = ref_digits(text);
    if digits.len() > 0 && all_digits(digits) && decimal_value(digits) <= usize::MAX {
        Some(decimal_value(digits) as int)
    } else {
        None
    }
}

proof fn lemma_decimal_value_grows(digits: Seq<char>, n: int)
    requires
        0 <= n <= digits.len(),
    ensures
        decimal_value(digits.take(n)) <= decimal_value(digits),
    decreases digits.len(),
{
    if n < digits.len() {
        lemma_decimal_value_grows(digits.drop_last(), n);
        assert(digits.drop_last().take(n) =~= digits.take(n));
    } else {
        assert(digits.take(n) =~= digits);
    }
}

/// Reads a group reference.
pub fn parse_group_ref(text: &str) -> (group: Option<usize>)
    ensures
        match group {
            Some(index) => group_ref(text@) == Some(index as int),
            None => group_ref(text@) is None,
        },
{
    let n = text.unicode_len();
    if n == 0 {
        return None;
    }
    let start: usize = if text.get_char(0) == '+' {
        1
    } else {
        0
    };
    let ghost digits = ref_digits(text@);
    proof {
        assert(digits =~= text@.skip(start as int));
        assert(digits.take(0) =~= Seq::<char>::empty());
    }
    let mut value: usize = 0;
    let mut i: usize = start;
    while i < n
        invariant
            start <= i <= n,
            n == text@.len(),
            digits == ref_digits(text@),
            digits == text@.skip(start as int),
            all_digits(digits.take(i - start)),
            value == decimal_value(digits.take(i - start)),
        decreases n - i,
    {
        let c = text.get_char(i);
        let ghost read = digits.take(i - start + 1);
        proof {
            assert(read.drop_last() =~= digits.take(i - start));
            assert(read.last() == c);
            assert(digits[i - start] == c);
            lemma_decimal_value_grows(digits, i - start + 1);
        }
        if c < '0' || c > '9' {
            assert(!is_digit(digits[i - start]));
            return None;
        }
        let digit: usize = (c as u32 - '0' as u32) as usize;
        assert(decimal_value(read) == value * 10 + digit);
        let tens = match value.checked_mul(10) {
            Some(tens) => tens,
            None => {
                return None;
            },
        };
        value = match tens.checked_add(digit) {
            Some(sum) => sum,
            None => {
                return None;
            },
        };
        i += 1;
        assert(all_digits(read)) by {
            assert forall|j: int| 0 <= j < read.len() implies is_digit(#[trigger] read[j]) by {
                if j < read.len() - 1 {
                    assert(digits.take(i - 1 - start)[j] == read[j]);
                }
            }
        }
    }
    proof {
        assert(digits.take(i - start) =~= digits);
    }
    if i == start {
        None
    } else {
        Some(value)
    }
}

/// The record that the rules make of a match. Each rule in turn puts the
/// text of its group under its name, a later rule replacing what an earlier
/// one put there; a rule named by the reserved name puts nothing.
pub open spec fn mapped_record(groups: Seq<Option<Seq<char>>>, rules: Seq<RuleView>) -> Map<
    Seq<char>,
    Seq<char>,
>
    decreases rules.len(),
{
    if rules.len() == 0 {
        Map::empty()
    } else {
        let before = mapped_record(groups, rules.drop_last());
        let rule = rules.last();
        if rule.name == sentinel() {
            before
        } else {
            before.insert(rule.name, group_text(groups, rule.group))
        }
    }
}

/// The text to merge as a JSON object: what the group of the last rule
/// named by the reserved name captured, or nothing if there is no such rule.
pub open spec fn fragment_candidate(groups: Seq<Option<Seq<char>>>, rules: Seq<RuleView>) -> Option<
    Seq<char>,
>
    decreases rules.len(),
{
    if rules.len() == 0 {
        None
    } else if rules.last().name == sentinel() {
        Some(group_text(groups, rules.last().group))
    } else {
        fragment_candidate(groups, rules.drop_last())
    }
}

/// Whether some rule puts a field of this name.
pub open spec fn is_mapped_name(rules: Seq<RuleView>, name: Seq<char>) -> bool {
    name != sentinel() && exists|i: int| 0 <= i < rules.len() && #[trigger] rules[i].name == name
}

/// The mapped record has a field for each name of the mapping but the
/// reserved one, and no other field.
pub proof fn lemma_mapped_names(
    groups: Seq<Option<Seq<char>>>,
    rules: Seq<RuleView>,
    name: Seq<char>,
)
    ensures
        mapped_record(groups, rules).contains_key(name) <==> is_mapped_name(rules, name),
    decreases rules.len(),
{
    if rules.len() > 0 {
        let front = rules.drop_last();
        lemma_mapped_names(groups, front, name);
        if is_mapped_name(front, name) {
            let i = choose|i: int| 0 <= i < front.len() && #[trigger] front[i].name == name;
            assert(rules[i].name == name);
        }
        if is_mapped_name(rules, name) {
            let i = choose|i: int| 0 <= i < rules.len() && #[trigger] rules[i].name == name;
            if i < front.len() {
                assert(front[i].name == name);
            }
        }
    }
}

/// Where several rules share a name, the last of them gives the value.
pub proof fn lemma_mapped_value(groups: Seq<Option<Seq<char>>>, rules: Seq<RuleView>, i: int)
    requires
        0 <= i < rules.len(),
        rules[i].name != sentinel(),
        forall|j: int| i < j < rules.len() ==> #[trigger] rules[j].name != rules[i].name,
    ensures
        mapped_record(groups, rules).contains_key(rules[i].name),
        mapped_record(groups, rules)[rules[i].name] == group_text(groups, rules[i].group),
    decreases rules.len(),
{
    if i < rules.len() - 1 {
        let front = rules.drop_last();
        assert(front[i] == rules[i]);
        assert forall|j: int| i < j < front.len() implies #[trigger] front[j].name
            != front[i].name by {
            assert(rules[j].name != rules[i].name);
        }
        lemma_mapped_value(groups, front, i);
        assert(rules[rules.len() - 1].name != rules[i].name);
    }
}

/// Whether every rule names a group below `groups`.
pub open spec fn groups_known(rules: Seq<RuleView>, groups: int) -> bool {
    forall|i: int| 0 <= i < rules.len() ==> (#[trigger] rules[i]).group < groups
}

/// Whether rule `i` is the first that names no group below `groups`.
pub open spec fn first_unknown_group(rules: Seq<RuleView>, groups: int, i: int) -> bool {
    &&& 0 <= i < rules.len()
    &&& rules[i].group >= groups
    &&& forall|j: int| 0 <= j < i ==> (#[trigger] rules[j]).group < groups
}

impl FieldMapping {
    /// Checks that every rule names one of the first `groups` groups. The
    /// first rule that does not is refused.
    pub fn check_groups(&self, groups: usize) -> (checked: Result<(), ConfigError>)
        ensures
            match checked {
                Ok(_) => groups_known(self@, groups as int),
                Err(error) => exists|i: int|
                    first_unknown_group(self@, groups as int, i) && error@
                        == (ConfigErrorView::UnknownGroup {
                        group: (#[trigger] self@[i]).group,
                        groups: groups as int,
                    }),
            },
    {
        let mut i: usize = 0;
        while i < self.rules.len()
            invariant
                i <= self.rules.len(),
                forall|j: int| 0 <= j < i ==> (#[trigger] self@[j]).group < groups,
            decreases self.rules.len() - i,
        {
            if self.rules[i].group >= groups {
                assert(first_unknown_group(self@, groups as int, i as int));
                return Err(ConfigError::UnknownGroup { group: self.rules[i].group, groups });
            }
            i += 1;
        }
        Ok(())
    }

    /// Reads the rules from pairs of a group reference and a field name.
    /// The first reference that names no group is refused.
    pub fn from_pairs(pairs: &Vec<(String, String)>) -> (made: Result<FieldMapping, ConfigError>)
        ensures
            match made {
                Ok(mapping) => {
                    &&& mapping@.len() == pairs.len()
                    &&& forall|i: int|
                        0 <= i < pairs.len() ==> group_ref(#[trigger] pairs[i].0@) == Some(
                            mapping@[i].group,
                        ) && mapping@[i].name == pairs[i].1@
                },
                Err(error) => exists|i: int|
                    {
                        &&& 0 <= i < pairs.len()
                        &&& group_ref(#[trigger] pairs[i].0@) is None
                        &&& forall|j: int| 0 <= j < i ==> group_ref(#[trigger] pairs[j].0@) is Some
                        &&& error@ == (ConfigErrorView::BadGroupRef { text: pairs[i].0@ })
                    },
            },
    {
        let mut rules: Vec<FieldRule> = Vec::new();
        let mut i: usize = 0;
        while i < pairs.len()
            invariant
                i <= pairs.len(),
                rules.len() == i,
                forall|j: int|
                    0 <= j < i ==> group_ref(#[trigger] pairs[j].0@) == Some(rules[j]@.group)
                        && rules[j]@.name == pairs[j].1@,
            decreases pairs.len() - i,
        {
            match parse_group_ref(pairs[i].0.as_str()) {
                Some(group) => {
                    rules.push(FieldRule { group, name: pairs[i].1.clone() });
                },
                None => {
                    return Err(ConfigError::BadGroupRef { text: pairs[i].0.clone() });
                },
            }
            i += 1;
        }
        Ok(FieldMapping { rules })
    }

    /// The field names of all rules, in their order, the reserved name
    /// among them where a rule carries it.
    pub fn names(&self) -> (names: Vec<String>)
        ensures
            names.len() == self@.len(),
            forall|i: int| 0 <= i < names.len() ==> #[trigger] names[i]@ == self@[i].name,
    {
        let mut names: Vec<String> = Vec::new();
        let mut i: usize = 0;
        while i < self.rules.len()
            invariant
                i <= self.rules.len(),
                names.len() == i,
                forall|j: int| 0 <= j < i ==> #[trigger] names[j]@ == self@[j].name,
            decreases self.rules.len() - i,
        {
            names.push(self.rules[i].name.clone());
            i += 1;
        }
        names
    }

    /// Makes the record of a match, and picks the text to merge as a
    /// fragment.
    pub fn map_fields(&self, captures: &CaptureResult) -> (mapped: (Record, Option<String>))
        ensures
            mapped.0@ == mapped_record(captures@, self@),
            match mapped.1 {
                Some(text) => fragment_candidate(captures@, self@) == Some(text@),
                None => fragment_candidate(captures@, self@) is None,
            },
    {
        let mut record = Record::new();
        let mut fragment: Option<String> = None;
        let mut i: usize = 0;
        proof {
            assert(self@.take(0) =~= Seq::<RuleView>::empty());
        }
        while i < self.rules.len()
            invariant
                i <= self.rules.len(),
                record@ == mapped_record(captures@, self@.take(i as int)),
                match fragment {
                    Some(text) => fragment_candidate(captures@, self@.take(i as int)) == Some(
                        text@,
                    ),
                    None => fragment_candidate(captures@, self@.take(i as int)) is None,
                },
            decreases self.rules.len() - i,
        {
            let rule = &self.rules[i];
            let text = captures.text(rule.group);
            proof {
                assert(self@.take(i + 1).drop_last() =~= self@.take(i as int));
                assert(self@.take(i + 1).last() == rule@);
            }
            if same_text(rule.name.as_str(), SENTINEL) {
                fragment = Some(text.to_owned());
            } else {
                record.insert(rule.name.clone(), text.to_owned());
            }
            i += 1;
        }
        proof {
            assert(self@.take(i as int) =~= self@);
        }
        (record, fragment)
    }
}

} // verus!
