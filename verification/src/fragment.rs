//! Merging a captured JSON object into a record.

use crate::error::FragmentError;
use crate::record::Record;
use vstd::prelude::*;
use vstd::string::StrSliceExecFns;

verus! {

/// A member of a JSON object as the merge reads it: its key, the content of
/// its value where that is a JSON string, and the compact JSON text of its
/// value.
pub type Member = (Seq<char>, Option<Seq<char>>, Seq<char>);

/// What `serde_json::from_str` reads from the text as a `serde_json::Value`:
/// nothing where the text is not JSON; else, where the value is an object,
/// its members in the order in which the object hands them out, each with
/// its key, with the content of its value where that is a string, and with
/// the compact text that the value displays as; else no members.
pub uninterp spec fn json_members(text: Seq<char>) -> Option<
    Option<Seq<(Seq<char>, Option<Seq<char>>, Seq<char>)>>,
>;

/// One member of a parsed JSON object.
#[derive(Debug, Clone, PartialEq, Eq)]
pub struct JsonMember {
    pub key: String,
    /// The characters that the value holds, if it is a JSON string.
    pub content: Option<String>,
    /// The value as compact JSON text.
    pub text: String,
}

impl View for JsonMember {
    type V = Member;

    open spec fn view(&self) -> Member {
        (
            self.key@,
            match self.content {
                Some(content) => Some(content@),
                None => None,
            },
            self.text@,
        )
    }
}

/// The members as the merge reads them.
pub open spec fn member_views(members: Seq<JsonMember>) -> Seq<Member> {
    members.map_values(|member: JsonMember| member@)
}

/// Parses the text with `serde_json::from_str` as a `serde_json::Value`.
/// Gives nothing where that fails, no members where the value is not an
/// object, else each member of the object with its key, with what
/// `Value::as_str` gives for its value and with the text that the value
/// displays as.
#[verifier::external_body]
fn parse_members(text: &str) -> (parsed: Option<Option<Vec<JsonMember>>>)
    ensures
        parsed matches Some(Some(members)) ==> json_members(text@) == Some(
            Some(member_views(members@)),
        ),
        parsed matches Some(None) ==> json_members(text@) == Some(
            None::<Seq<(Seq<char>, Option<Seq<char>>, Seq<char>)>>,
        ),
        parsed is None ==> json_members(text@) is None,
{
    let value: serde_json::Value = serde_json::from_str(text).ok()?;
    let read = |(key, item): (&String, &serde_json::Value)| JsonMember {
        key: key.clone(),
        content: item.as_str().map(|content| content.to_string()),
        text: item.to_string(),
    };
    Some(value.as_object().map(|object| object.iter().map(read).collect()))
}

/// The field value that a member gives: the content of a string, and the
/// compact JSON text of any other value.
pub open spec fn member_value(member: Member) -> Seq<char> {
    match member.1 {
        Some(content) => content,
        None => member.2,
    }
}

/// The record after each member in turn was put under its key, replacing
/// what was there.
pub open spec fn merged_record(record: Map<Seq<char>, Seq<char>>, members: Seq<Member>) -> Map<
    Seq<char>,
    Seq<char>,
>
    decreases members.len(),
{
    if members.len() == 0 {
        record
    } else {
        merged_record(record, members.drop_last()).insert(
            members.last().0,
            member_value(members.last()),
        )
    }
}

/// What merging a fragment into a record gives. No fragment, or an empty
/// one, leaves the record as it is. Any other must be a JSON object, whose
/// members are merged.
pub open spec fn merge_outcome(
    record: Map<Seq<char>, Seq<char>>,
    fragment: Option<Seq<char>>,
) -> Result<Map<Seq<char>, Seq<char>>, FragmentError> {
    match fragment {
        None => Ok(record),
        Some(text) => if text.len() == 0 {
            Ok(record)
        } else {
            match json_members(text) {
                None => Err(FragmentError::Malformed),
                Some(None) => Err(FragmentError::NotAnObject),
                Some(Some(members)) => Ok(merged_record(record, members)),
            }
        },
    }
}

impl JsonMember {
    /// The field value that the member gives.
    pub fn value(&self) -> (value: String)
        ensures
            value@ == member_value(self@),
    {
        match &self.content {
            Some(content) => content.clone(),
            None => self.text.clone(),
        }
    }
}

/// Puts each member into the record under its key.
pub fn merge_members(record: Record, members: &Vec<JsonMember>) -> (merged: Record)
    ensures
        merged@ == merged_record(record@, member_views(members@)),
{
    let mut merged = record;
    let mut i: usize = 0;
    let ghost views = member_views(members@);
    proof {
        assert(views.take(0) =~= Seq::<Member>::empty());
    }
    while i < members.len()
        invariant
            i <= members.len(),
            views == member_views(members@),
            merged@ == merged_record(record@, views.take(i as int)),
        decreases members.len() - i,
    {
        proof {
            assert(views.take(i + 1).drop_last() =~= views.take(i as int));
            assert(views.take(i + 1).last() == members[i as int]@);
        }
        merged.insert(members[i].key.clone(), members[i].value());
        i += 1;
    }
    proof {
        assert(views.take(i as int) =~= views);
    }
    merged
}

/// Merges the fragment, if there is one and it is not empty, into the
/// record; the record is returned as it came otherwise.
pub fn merge_fragment(record: Record, fragment: Option<&str>) -> (merged: Result<
    Record,
    FragmentError,
>)
    ensures
        match merged {
            Ok(after) => merge_outcome(record@, option_text(fragment)) == Ok::<
                Map<Seq<char>, Seq<char>>,
                FragmentError,
            >(after@),
            Err(error) => merge_outcome(record@, option_text(fragment)) == Err::<
                Map<Seq<char>, Seq<char>>,
                FragmentError,
            >(error),
        },
{
    match fragment {
        None => Ok(record),
        Some(text) => {
            if text.unicode_len() == 0 {
                Ok(record)
            } else {
                match parse_members(text) {
                    None => Err(FragmentError::Malformed),
                    Some(None) => Err(FragmentError::NotAnObject),
                    Some(Some(members)) => Ok(merge_members(record, &members)),
                }
            }
        },
    }
}

/// The characters of a text that may be absent.
pub open spec fn option_text(text: Option<&str>) -> Option<Seq<char>> {
    match text {
        Some(text) => Some(text@),
        None => None,
    }
}

/// Whether some member has the key.
pub open spec fn has_key(members: Seq<Member>, key: Seq<char>) -> bool {
    exists|i: int| 0 <= i < members.len() && #[trigger] members[i].0 == key
}

/// A merge keeps every field whose name is no member's key.
pub proof fn lemma_merge_keeps_other_fields(
    record: Map<Seq<char>, Seq<char>>,
    members: Seq<Member>,
    name: Seq<char>,
)
    requires
        !has_key(members, name),
    ensures
        merged_record(record, members).contains_key(name) == record.contains_key(name),
        record.contains_key(name) ==> merged_record(record, members)[name] == record[name],
    decreases members.len(),
{
    if members.len() > 0 {
        let front = members.drop_last();
        assert(members[members.len() - 1].0 != name);
        assert(!has_key(front, name)) by {
            if has_key(front, name) {
                let i = choose|i: int| 0 <= i < front.len() && #[trigger] front[i].0 == name;
                assert(members[i].0 == name);
            }
        }
        lemma_merge_keeps_other_fields(record, front, name);
    }
}

/// Every key of the fragment is a field of the merged record, and its
/// value there is the one of the last member with that key, whatever the
/// record held under it before.
pub proof fn lemma_merge_takes_fragment_values(
    record: Map<Seq<char>, Seq<char>>,
    members: Seq<Member>,
    i: int,
)
    requires
        0 <= i < members.len(),
        forall|j: int| i < j < members.len() ==> #[trigger] members[j].0 != members[i].0,
    ensures
        merged_record(record, members).contains_key(members[i].0),
        merged_record(record, members)[members[i].0] == member_value(members[i]),
    decreases members.len(),
{
    if i < members.len() - 1 {
        let front = members.drop_last();
        assert(front[i] == members[i]);
        assert forall|j: int| i < j < front.len() implies #[trigger] front[j].0
            != front[i].0 by {
            assert(members[j].0 != members[i].0);
        }
        lemma_merge_takes_fragment_values(record, front, i);
        assert(members[members.len() - 1].0 != members[i].0);
    }
}

/// Every key of the fragment is a field of the merged record.
pub proof fn lemma_merge_has_fragment_keys(
    record: Map<Seq<char>, Seq<char>>,
    members: Seq<Member>,
    i: int,
)
    requires
        0 <= i < members.len(),
    ensures
        merged_record(record, members).contains_key(members[i].0),
    decreases members.len(),
{
    if i < members.len() - 1 {
        let front = members.drop_last();
        assert(front[i] == members[i]);
        lemma_merge_has_fragment_keys(record, front, i);
    }
}

/// A merge leaves every field of the record in place, whatever it does to
/// the values.
pub proof fn lemma_merge_keeps_names(
    record: Map<Seq<char>, Seq<char>>,
    fragment: Option<Seq<char>>,
    name: Seq<char>,
)
    requires
        record.contains_key(name),
        merge_outcome(record, fragment) is Ok,
    ensures
        merge_outcome(record, fragment)->Ok_0.contains_key(name),
{
    if fragment is Some && fragment->0.len() != 0 {
        let members = json_members(fragment->0)->0->0;
        if has_key(members, name) {
            let i = choose|i: int| 0 <= i < members.len() && #[trigger] members[i].0 == name;
            lemma_merge_has_fragment_keys(record, members, i);
        } else {
            lemma_merge_keeps_other_fields(record, members, name);
        }
    }
}

/// Whether the members spell out the fields: every member is a string,
/// no key occurs twice, and the members' keys and contents are the names
/// and values of the fields.
pub open spec fn members_spell(members: Seq<Member>, fields: Map<Seq<char>, Seq<char>>) -> bool {
    &&& forall|i: int, j: int| 0 <= i < j < members.len() ==> members[i].0 != members[j].0
    &&& forall|i: int|
        0 <= i < members.len() ==> fields.contains_key((#[trigger] members[i]).0) && members[i].1
            == Some(fields[members[i].0])
    &&& forall|name: Seq<char>| fields.contains_key(name) ==> has_key(members, name)
}

proof fn lemma_merge_restores_field(
    fields: Map<Seq<char>, Seq<char>>,
    members: Seq<Member>,
    name: Seq<char>,
)
    requires
        members_spell(members, fields),
    ensures
        merged_record(Map::empty(), members).contains_key(name) == fields.contains_key(name),
        fields.contains_key(name) ==> merged_record(Map::empty(), members)[name] == fields[name],
{
    let empty = Map::<Seq<char>, Seq<char>>::empty();
    if has_key(members, name) {
        let i = choose|i: int| 0 <= i < members.len() && #[trigger] members[i].0 == name;
        assert(fields.contains_key(members[i].0) && members[i].1 == Some(fields[members[i].0]));
        assert forall|j: int| i < j < members.len() implies #[trigger] members[j].0
            != members[i].0 by {
            assert(members[i].0 != members[j].0);
        }
        lemma_merge_takes_fragment_values(empty, members, i);
    } else {
        lemma_merge_keeps_other_fields(empty, members, name);
    }
}

/// Merging members that spell out the fields of a record into an empty
/// record gives those fields. So a text that reads back as the fields of a
/// record, each once and as a string, merges back to that record.
pub proof fn lemma_merge_restores_fields(
    fields: Map<Seq<char>, Seq<char>>,
    text: Seq<char>,
    members: Seq<Member>,
)
    requires
        text.len() > 0,
        json_members(text) == Some(Some(members)),
        members_spell(members, fields),
    ensures
        merged_record(Map::empty(), members) == fields,
        merge_outcome(Map::empty(), Some(text)) == Ok::<Map<Seq<char>, Seq<char>>, FragmentError>(
            fields,
        ),
{
    let merged = merged_record(Map::empty(), members);
    assert forall|name: Seq<char>| merged.dom().contains(name) == fields.dom().contains(name) by {
        lemma_merge_restores_field(fields, members, name);
    }
    assert forall|name: Seq<char>| merged.dom().contains(name) implies #[trigger] merged[name]
        == fields[name] by {
        lemma_merge_restores_field(fields, members, name);
    }
    assert(merged =~= fields);
}

/// An empty fragment gives the record that no fragment gives: the record
/// as it came.
pub proof fn lemma_empty_fragment_is_no_fragment(record: Map<Seq<char>, Seq<char>>)
    ensures
        merge_outcome(record, Some(Seq::<char>::empty())) == merge_outcome(record, None),
        merge_outcome(record, None) == Ok::<Map<Seq<char>, Seq<char>>, FragmentError>(record),
{
}

} // verus!
