//! The flat record that one line yields: field names mapped to field values.

use crate::text::same_text;
use vstd::pervasive::unreached;
use vstd::prelude::*;

verus! {

/// A pair of a field name and a field value, as sequences of characters.
pub type Pair = (Seq<char>, Seq<char>);

/// The map that a list of pairs stands for when each pair is inserted in
/// turn, so that a later pair replaces an earlier one with the same name.
pub open spec fn assoc_map(pairs: Seq<Pair>) -> Map<Seq<char>, Seq<char>>
    decreases pairs.len(),
{
    if pairs.len() == 0 {
        Map::empty()
    } else {
        assoc_map(pairs.drop_last()).insert(pairs.last().0, pairs.last().1)
    }
}

/// No name occurs twice among the pairs.
pub open spec fn distinct_names(pairs: Seq<Pair>) -> bool {
    forall|i: int, j: int| 0 <= i < j < pairs.len() ==> pairs[i].0 != pairs[j].0
}

/// Whether some pair carries the name.
pub open spec fn has_name(pairs: Seq<Pair>, name: Seq<char>) -> bool {
    exists|i: int| 0 <= i < pairs.len() && #[trigger] pairs[i].0 == name
}

/// The names in the map are those of the pairs.
pub proof fn lemma_assoc_map_names(pairs: Seq<Pair>, name: Seq<char>)
    ensures
        assoc_map(pairs).contains_key(name) <==> has_name(pairs, name),
        assoc_map(pairs).dom().finite(),
    decreases pairs.len(),
{
    if pairs.len() > 0 {
        let front = pairs.drop_last();
        lemma_assoc_map_names(front, name);
        if has_name(front, name) {
            let i = choose|i: int| 0 <= i < front.len() && #[trigger] front[i].0 == name;
            assert(pairs[i].0 == name);
        }
        if has_name(pairs, name) {
            let i = choose|i: int| 0 <= i < pairs.len() && #[trigger] pairs[i].0 == name;
            if i < front.len() {
                assert(front[i].0 == name);
            }
        }
    }
}

/// Pairs with distinct names stay so without the last pair.
pub proof fn lemma_distinct_front(pairs: Seq<Pair>)
    requires
        distinct_names(pairs),
        pairs.len() > 0,
    ensures
        distinct_names(pairs.drop_last()),
{
    let front = pairs.drop_last();
    assert forall|a: int, b: int| 0 <= a < b < front.len() implies front[a].0 != front[b].0 by {
        assert(pairs[a].0 != pairs[b].0);
    }
}

/// With distinct names each pair's value is the one the map holds.
pub proof fn lemma_assoc_map_value(pairs: Seq<Pair>, i: int)
    requires
        distinct_names(pairs),
        0 <= i < pairs.len(),
    ensures
        assoc_map(pairs).contains_key(pairs[i].0),
        assoc_map(pairs)[pairs[i].0] == pairs[i].1,
    decreases pairs.len(),
{
    let front = pairs.drop_last();
    if i < pairs.len() - 1 {
        lemma_distinct_front(pairs);
        lemma_assoc_map_value(front, i);
        assert(front[i] == pairs[i]);
    }
}

/// With distinct names the map has one entry for each pair.
pub proof fn lemma_assoc_map_len(pairs: Seq<Pair>)
    requires
        distinct_names(pairs),
    ensures
        assoc_map(pairs).dom().finite(),
        assoc_map(pairs).len() == pairs.len(),
    decreases pairs.len(),
{
    if pairs.len() > 0 {
        let front = pairs.drop_last();
        lemma_distinct_front(pairs);
        lemma_assoc_map_len(front);
        lemma_assoc_map_names(front, pairs.last().0);
        if has_name(front, pairs.last().0) {
            let i = choose|i: int| 0 <= i < front.len() && #[trigger] front[i].0 == pairs.last().0;
            assert(pairs[i].0 != pairs[pairs.len() - 1].0);
        }
    }
}

/// Replacing the value of the pair at `i` is an insertion under its name.
pub proof fn lemma_assoc_map_update(pairs: Seq<Pair>, i: int, value: Seq<char>)
    requires
        distinct_names(pairs),
        0 <= i < pairs.len(),
    ensures
        assoc_map(pairs.update(i, (pairs[i].0, value))) == assoc_map(pairs).insert(
            pairs[i].0,
            value,
        ),
    decreases pairs.len(),
{
    let name = pairs[i].0;
    let after = pairs.update(i, (name, value));
    let front = pairs.drop_last();
    if i == pairs.len() - 1 {
        assert(after.drop_last() =~= front);
        assert(assoc_map(after) =~= assoc_map(pairs).insert(name, value));
    } else {
        lemma_distinct_front(pairs);
        lemma_assoc_map_update(front, i, value);
        assert(after.drop_last() =~= front.update(i, (name, value)));
        assert(front[i] == pairs[i]);
        assert(pairs[i].0 != pairs[pairs.len() - 1].0);
        assert(assoc_map(after) =~= assoc_map(pairs).insert(name, value));
    }
}

/// The JSON text that `serde_json::to_string` writes for a map from strings
/// to strings with these entries: one compact object, the names in
/// ascending order, every name and value a JSON string.
pub uninterp spec fn record_json(fields: Map<Seq<char>, Seq<char>>) -> Seq<char>;

/// The characters of each name and value.
pub open spec fn pair_views(entries: Seq<(String, String)>) -> Seq<Pair> {
    entries.map_values(|entry: (String, String)| (entry.0@, entry.1@))
}

/// Collects the entries, whose names are distinct, into a `BTreeMap` and
/// calls `serde_json::to_string` on it. With strings for keys and values
/// that call does not fail.
#[verifier::external_body]
fn object_text(entries: &Vec<(String, String)>) -> (text: Option<String>)
    requires
        distinct_names(pair_views(entries@)),
    ensures
        text is Some,
        text matches Some(json) ==> json@ == record_json(assoc_map(pair_views(entries@))),
{
    let fields: std::collections::BTreeMap<&String, &String> = entries.iter().map(
        |(name, value)| (name, value),
    ).collect();
    serde_json::to_string(&fields).ok()
}

/// The fields of one line. No name occurs twice; inserting under a name
/// that is present replaces its value.
///
/// The fields are kept as a list. The tree map of the standard library is
/// specified only for keys whose order is known to obey its laws, which is
/// not known of strings, so nothing could be proved of an insertion.
#[derive(Debug)]
pub struct Record {
    entries: Vec<(String, String)>,
}

impl View for Record {
    type V = Map<Seq<char>, Seq<char>>;

    closed spec fn view(&self) -> Map<Seq<char>, Seq<char>> {
        assoc_map(self.pairs())
    }
}

impl Record {
    /// The entries in the order in which their names first came in.
    pub closed spec fn pairs(&self) -> Seq<Pair> {
        pair_views(self.entries@)
    }

    #[verifier::type_invariant]
    spec fn distinct(&self) -> bool {
        distinct_names(self.pairs())
    }

    /// A record without fields.
    pub fn new() -> (record: Record)
        ensures
            record@ == Map::<Seq<char>, Seq<char>>::empty(),
    {
        Record { entries: Vec::new() }
    }

    /// The number of fields.
    pub fn len(&self) -> (n: usize)
        ensures
            self@.dom().finite(),
            n == self@.len(),
    {
        proof {
            use_type_invariant(self);
            lemma_assoc_map_len(self.pairs());
        }
        self.entries.len()
    }

    /// Where the entry with this name stands, if there is one.
    fn position(&self, name: &str) -> (at: Option<usize>)
        ensures
            match at {
                Some(i) => i < self.pairs().len() && self.pairs()[i as int].0 == name@,
                None => !has_name(self.pairs(), name@),
            },
    {
        let mut i: usize = 0;
        while i < self.entries.len()
            invariant
                i <= self.entries.len(),
                forall|j: int| 0 <= j < i ==> self.pairs()[j].0 != name@,
            decreases self.entries.len() - i,
        {
            if same_text(self.entries[i].0.as_str(), name) {
                return Some(i);
            }
            i += 1;
        }
        None
    }

    /// Whether the record has a field of this name.
    pub fn contains_key(&self, name: &str) -> (found: bool)
        ensures
            found == self@.contains_key(name@),
    {
        proof {
            lemma_assoc_map_names(self.pairs(), name@);
        }
        self.position(name).is_some()
    }

    /// The value of the field of this name.
    pub fn get(&self, name: &str) -> (value: Option<&String>)
        ensures
            match value {
                Some(v) => self@.contains_key(name@) && self@[name@] == v@,
                None => !self@.contains_key(name@),
            },
    {
        proof {
            use_type_invariant(self);
            lemma_assoc_map_names(self.pairs(), name@);
        }
        match self.position(name) {
            Some(i) => {
                proof {
                    lemma_assoc_map_value(self.pairs(), i as int);
                }
                Some(&self.entries[i].1)
            },
            None => None,
        }
    }

    /// The fields as pairs of name and value, in the order in which the
    /// names first came in.
    pub fn to_pairs(&self) -> (pairs: Vec<(String, String)>)
        ensures
            pair_views(pairs@) == self.pairs(),
            assoc_map(pair_views(pairs@)) == self@,
            distinct_names(pair_views(pairs@)),
            pairs.len() == self@.len(),
    {
        proof {
            use_type_invariant(self);
            lemma_assoc_map_len(self.pairs());
        }
        let mut pairs: Vec<(String, String)> = Vec::new();
        let mut i: usize = 0;
        while i < self.entries.len()
            invariant
                i <= self.entries.len(),
                pair_views(pairs@) == self.pairs().take(i as int),
            decreases self.entries.len() - i,
        {
            let ghost before = pair_views(pairs@);
            let name = self.entries[i].0.clone();
            let value = self.entries[i].1.clone();
            pairs.push((name, value));
            proof {
                assert(pair_views(pairs@) =~= before.push((name@, value@)));
                assert(self.pairs()[i as int] == (name@, value@));
                assert(self.pairs().take(i + 1) =~= self.pairs().take(i as int).push(
                    self.pairs()[i as int],
                ));
            }
            i += 1;
        }
        assert(self.pairs().take(i as int) =~= self.pairs());
        pairs
    }

    /// The record as one JSON object, written by `serde_json`.
    pub fn to_json(&self) -> (json: String)
        ensures
            json@ == record_json(self@),
    {
        proof {
            use_type_invariant(self);
        }
        match object_text(&self.entries) {
            Some(json) => json,
            None => unreached(),
        }
    }

    /// Sets the field `name` to `value`, replacing the value it had.
    pub fn insert(&mut self, name: String, value: String)
        ensures
            final(self)@ == old(self)@.insert(name@, value@),
    {
        proof {
            use_type_invariant(&*self);
        }
        let ghost before = self.pairs();
        let found = self.position(name.as_str());
        let mut entries: Vec<(String, String)> = Vec::new();
        core::mem::swap(&mut self.entries, &mut entries);
        match found {
            Some(i) => {
                proof {
                    lemma_assoc_map_update(before, i as int, value@);
                }
                entries.set(i, (name, value));
                proof {
                    let after = pair_views(entries@);
                    assert(after =~= before.update(i as int, (before[i as int].0, value@)));
                    assert forall|a: int, b: int| 0 <= a < b < after.len() implies after[a].0
                        != after[b].0 by {
                        assert(before[a].0 != before[b].0);
                    }
                }
                self.entries = entries;
            },
            None => {
                entries.push((name, value));
                proof {
                    let after = pair_views(entries@);
                    assert(after =~= before.push((name@, value@)));
                    assert(after.drop_last() =~= before);
                    assert forall|a: int, b: int| 0 <= a < b < after.len() implies after[a].0
                        != after[b].0 by {
                        if b < before.len() {
                            assert(before[a].0 != before[b].0);
                        } else {
                            assert(before[a].0 != name@);
                        }
                    }
                }
                self.entries = entries;
            },
        }
    }
}

} // verus!
