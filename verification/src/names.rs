//! Lists of names in ascending order, each name once.

use crate::error::texts;
use crate::text::lemma_name_less_strict_total;
use crate::text::name_less;
use crate::text::same_text;
use crate::text::text_less;
use vstd::prelude::*;

verus! {

/// Each name comes before all that follow it, so none occurs twice.
pub open spec fn ascending(names: Seq<Seq<char>>) -> bool {
    forall|i: int, j: int| 0 <= i < j < names.len() ==> name_less(names[i], names[j])
}

/// There is one ascending list of a given set of names: two ascending lists
/// that hold the same names are the same list.
pub proof fn lemma_ascending_unique(first: Seq<Seq<char>>, second: Seq<Seq<char>>)
    requires
        ascending(first),
        ascending(second),
        first.to_set() == second.to_set(),
    ensures
        first == second,
    decreases first.len(),
{
    if first.len() == 0 {
        if second.len() > 0 {
            assert(second.contains(second[0]));
            assert(second.to_set().contains(second[0]));
            assert(first.contains(second[0]));
        }
        assert(first =~= second);
    } else {
        let a = first.last();
        assert(first.contains(a));
        assert(first.to_set().contains(a));
        assert(second.contains(a));
        let ja = choose|j: int| 0 <= j < second.len() && second[j] == a;
        let b = second.last();
        assert(second.contains(b));
        assert(second.to_set().contains(b));
        assert(first.contains(b));
        let ib = choose|i: int| 0 <= i < first.len() && first[i] == b;
        lemma_name_less_strict_total(a, b, a);
        assert(a == b) by {
            if a != b {
                assert(ib < first.len() - 1);
                assert(name_less(first[ib], first[first.len() - 1]));
                assert(ja < second.len() - 1);
                assert(name_less(second[ja], second[second.len() - 1]));
            }
        }
        let first_front = first.drop_last();
        let second_front = second.drop_last();
        assert forall|x: Seq<char>| first_front.to_set().contains(x) implies second_front.to_set().contains(
            x,
        ) by {
            let i = choose|i: int| 0 <= i < first_front.len() && first_front[i] == x;
            assert(name_less(first[i], first[first.len() - 1]));
            lemma_name_less_strict_total(x, a, x);
            assert(first.contains(x));
            assert(first.to_set().contains(x));
            assert(second.contains(x));
            let j = choose|j: int| 0 <= j < second.len() && second[j] == x;
            assert(second_front[j] == x);
            assert(second_front.contains(x));
        }
        assert forall|x: Seq<char>| second_front.to_set().contains(x) implies first_front.to_set().contains(
            x,
        ) by {
            let j = choose|j: int| 0 <= j < second_front.len() && second_front[j] == x;
            assert(name_less(second[j], second[second.len() - 1]));
            lemma_name_less_strict_total(x, b, x);
            assert(second.contains(x));
            assert(second.to_set().contains(x));
            assert(first.contains(x));
            let i = choose|i: int| 0 <= i < first.len() && first[i] == x;
            assert(first_front[i] == x);
            assert(first_front.contains(x));
        }
        assert(first_front.to_set() =~= second_front.to_set());
        assert(ascending(first_front)) by {
            assert forall|i: int, j: int| 0 <= i < j < first_front.len() implies name_less(
                first_front[i],
                first_front[j],
            ) by {
                assert(name_less(first[i], first[j]));
            }
        }
        assert(ascending(second_front)) by {
            assert forall|i: int, j: int| 0 <= i < j < second_front.len() implies name_less(
                second_front[i],
                second_front[j],
            ) by {
                assert(name_less(second[i], second[j]));
            }
        }
        lemma_ascending_unique(first_front, second_front);
        assert(first =~= first_front.push(a));
        assert(second =~= second_front.push(b));
    }
}

/// Putting a name into an ascending list at the place of the first name
/// that does not come before it keeps the list ascending.
proof fn lemma_insert_keeps_ascending(names: Seq<Seq<char>>, at: int, name: Seq<char>)
    requires
        ascending(names),
        0 <= at <= names.len(),
        forall|j: int| 0 <= j < at ==> name_less(#[trigger] names[j], name),
        at < names.len() ==> !name_less(names[at], name) && names[at] != name,
    ensures
        ascending(names.insert(at, name)),
        names.insert(at, name).to_set() == names.to_set().insert(name),
{
    let after = names.insert(at, name);
    names.insert_ensures(at, name);
    assert forall|i: int, j: int| 0 <= i < j < after.len() implies name_less(
        after[i],
        after[j],
    ) by {
        if j < at {
            assert(name_less(names[i], names[j]));
        } else if j == at {
            assert(after[i] == names[i]);
        } else {
            assert(after[j] == names[j - 1]);
            lemma_name_less_strict_total(name, names[at], names[j - 1]);
            if i < at {
                assert(name_less(names[i], names[j - 1]));
            } else if i == at {
                if j - 1 > at {
                    assert(name_less(names[at], names[j - 1]));
                }
            } else {
                assert(name_less(names[i - 1], names[j - 1]));
            }
        }
    }
    assert forall|x: Seq<char>| after.to_set().contains(x) <==> names.to_set().insert(
        name,
    ).contains(x) by {
        if after.contains(x) {
            let i = choose|i: int| 0 <= i < after.len() && after[i] == x;
            if i < at {
                assert(names[i] == x);
                assert(names.contains(x));
            } else if i > at {
                assert(names[i - 1] == x);
                assert(names.contains(x));
            }
        }
        if names.contains(x) {
            let i = choose|i: int| 0 <= i < names.len() && names[i] == x;
            if i < at {
                assert(after[i] == x);
            } else {
                assert(after[i + 1] == x);
            }
            assert(after.contains(x));
        }
        if x == name {
            assert(after[at] == x);
            assert(after.contains(x));
        }
    }
    assert(after.to_set() =~= names.to_set().insert(name));
}

/// The names in ascending order, each once.
pub fn sort_names(names: &Vec<String>) -> (sorted: Vec<String>)
    ensures
        ascending(texts(sorted@)),
        texts(sorted@).to_set() == texts(names@).to_set(),
{
    let mut sorted: Vec<String> = Vec::new();
    let mut i: usize = 0;
    proof {
        assert(texts(names@).take(0).to_set() =~= texts(sorted@).to_set());
    }
    while i < names.len()
        invariant
            i <= names.len(),
            ascending(texts(sorted@)),
            texts(sorted@).to_set() == texts(names@).take(i as int).to_set(),
        decreases names.len() - i,
    {
        let name = &names[i];
        let ghost before = texts(sorted@);
        let mut at: usize = 0;
        while at < sorted.len() && text_less(sorted[at].as_str(), name.as_str())
            invariant
                at <= sorted.len(),
                before == texts(sorted@),
                forall|j: int| 0 <= j < at ==> name_less(#[trigger] before[j], name@),
            decreases sorted.len() - at,
        {
            at += 1;
        }
        proof {
            let seen = texts(names@).take(i as int);
            let next = texts(names@).take(i + 1);
            assert(next =~= seen.push(name@));
            seen.lemma_push_to_set_commute(name@);
        }
        if at < sorted.len() && same_text(sorted[at].as_str(), name.as_str()) {
            proof {
                assert(before[at as int] == name@);
                assert(before.contains(name@));
                assert(before.to_set().insert(name@) =~= before.to_set());
            }
        } else {
            proof {
                lemma_insert_keeps_ascending(before, at as int, name@);
            }
            sorted.insert(at, name.clone());
            assert(texts(sorted@) =~= before.insert(at as int, name@));
        }
        i += 1;
    }
    proof {
        assert(texts(names@).take(i as int) =~= texts(names@));
    }
    sorted
}

} // verus!
