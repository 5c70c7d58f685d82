//! The named values of a node or an edge in a GraphML recording.
//!
//! A recording declares keys: each gives a name, such as `url`, to an
//! identifier, such as `d3`. The values of a node or an edge come under
//! those identifiers. Reading a kind of node or edge takes the values that
//! the kind has out of what was recorded; nothing may be left over.

use crate::text::same_text;
use vstd::prelude::*;

verus! {

/// Pairs of a name and a value, as texts.
pub type Pairs = Seq<(Seq<char>, Seq<char>)>;

/// The pairs as texts.
pub open spec fn pairs_of(list: Seq<(String, String)>) -> Pairs {
    Seq::new(list.len(), |i: int| (list[i].0@, list[i].1@))
}

/// The place of the first pair named `name` from `from` on.
pub open spec fn position_from(list: Pairs, name: Seq<char>, from: int) -> Option<int>
    decreases list.len() - from,
{
    if from < 0 || from >= list.len() {
        None
    } else if list[from].0 == name {
        Some(from)
    } else {
        position_from(list, name, from + 1)
    }
}

/// The value of the first pair named `name`.
pub open spec fn value_of(list: Pairs, name: Seq<char>) -> Option<Seq<char>> {
    match position_from(list, name, 0) {
        Some(i) => Some(list[i].1),
        None => None,
    }
}

/// The pairs with `value` under `name`: in place of the first pair of that
/// name, or at the end.
pub open spec fn with_value(list: Pairs, name: Seq<char>, value: Seq<char>) -> Pairs {
    match position_from(list, name, 0) {
        Some(i) => list.update(i, (name, value)),
        None => list.push((name, value)),
    }
}

/// The pairs without the first pair named `name`.
pub open spec fn without_value(list: Pairs, name: Seq<char>) -> Pairs {
    match position_from(list, name, 0) {
        Some(i) => list.remove(i),
        None => list,
    }
}

/// Takes the values named `names` out of `data`, one after the other. Each
/// name must be declared in `keys`; the value is looked for under the
/// identifier that `keys` gives the name. Gives the values, nothing for one
/// that is not there, and what is left of `data`.
pub open spec fn drained(data: Pairs, keys: Pairs, names: Seq<Seq<char>>) -> Option<
    (Seq<Option<Seq<char>>>, Pairs),
>
    decreases names.len(),
{
    if names.len() == 0 {
        Some((Seq::empty(), data))
    } else {
        match drained(data, keys, names.drop_last()) {
            Some((values, rest)) => match value_of(keys, names.last()) {
                Some(id) => Some((values.push(value_of(rest, id)), without_value(rest, id))),
                None => None,
            },
            None => None,
        }
    }
}

/// The texts of the optional strings.
pub open spec fn texts_of(values: Seq<Option<String>>) -> Seq<Option<Seq<char>>> {
    Seq::new(
        values.len(),
        |i: int|
            match values[i] {
                Some(s) => Some(s@),
                None => None,
            },
    )
}

/// The texts of the string slices.
pub open spec fn names_of(names: Seq<&str>) -> Seq<Seq<char>> {
    Seq::new(names.len(), |i: int| names[i]@)
}

/// The place of the first pair named `name`.
pub fn find_pair(list: &Vec<(String, String)>, name: &str) -> (place: Option<usize>)
    ensures
        match place {
            Some(i) => position_from(pairs_of(list@), name@, 0) == Some(i as int) && i
                < list@.len(),
            None => position_from(pairs_of(list@), name@, 0) is None,
        },
{
    let ghost pairs = pairs_of(list@);
    let mut i: usize = 0;
    while i < list.len()
        invariant
            i <= list@.len(),
            pairs == pairs_of(list@),
            position_from(pairs, name@, 0) == position_from(pairs, name@, i as int),
        decreases list@.len() - i,
    {
        assert(pairs[i as int].0 == list@[i as int].0@);
        if same_text(list[i].0.as_str(), name) {
            return Some(i);
        }
        i = i + 1;
    }
    None
}

/// The value of the first pair named `name`.
pub fn get_value<'a>(list: &'a Vec<(String, String)>, name: &str) -> (value: Option<&'a str>)
    ensures
        match value {
            Some(v) => value_of(pairs_of(list@), name@) == Some(v@),
            None => value_of(pairs_of(list@), name@) is None,
        },
{
    match find_pair(list, name) {
        Some(i) => {
            assert(pairs_of(list@)[i as int].1 == list@[i as int].1@);
            Some(list[i].1.as_str())
        },
        None => None,
    }
}

/// Puts `value` under `name`: in place of the first pair of that name, or at
/// the end.
pub fn put_value(list: &mut Vec<(String, String)>, name: String, value: String)
    ensures
        pairs_of(final(list)@) == with_value(pairs_of(old(list)@), name@, value@),
{
    let ghost before = pairs_of(list@);
    let ghost n = name@;
    let ghost v = value@;
    match find_pair(list, name.as_str()) {
        Some(i) => {
            list.remove(i);
            list.insert(i, (name, value));
            assert(pairs_of(list@) =~= before.update(i as int, (n, v)));
        },
        None => {
            list.push((name, value));
            assert(pairs_of(list@) =~= before.push((n, v)));
        },
    }
}

/// Takes the first pair named `name` out and gives its value.
pub fn take_value(list: &mut Vec<(String, String)>, name: &str) -> (value: Option<String>)
    ensures
        match value {
            Some(v) => value_of(pairs_of(old(list)@), name@) == Some(v@),
            None => value_of(pairs_of(old(list)@), name@) is None,
        },
        pairs_of(final(list)@) == without_value(pairs_of(old(list)@), name@),
{
    let ghost before = pairs_of(list@);
    match find_pair(list, name) {
        Some(i) => {
            assert(before[i as int].1 == list@[i as int].1@);
            let pair = list.remove(i);
            assert(pairs_of(list@) =~= before.remove(i as int));
            Some(pair.1)
        },
        None => None,
    }
}

/// Takes the values named `names` out of `data`, one after the other, if
/// `keys` declares each name.
pub fn drain_values(
    data: &mut Vec<(String, String)>,
    keys: &Vec<(String, String)>,
    names: &Vec<&str>,
) -> (values: Option<Vec<Option<String>>>)
    ensures
        match values {
            Some(found) => drained(pairs_of(old(data)@), pairs_of(keys@), names_of(names@))
                == Some((texts_of(found@), pairs_of(final(data)@))),
            None => drained(pairs_of(old(data)@), pairs_of(keys@), names_of(names@)) is None,
        },
{
    let ghost start = pairs_of(data@);
    let ghost key_pairs = pairs_of(keys@);
    let ghost all = names_of(names@);
    let mut found: Vec<Option<String>> = Vec::new();
    let mut i: usize = 0;
    assert(texts_of(found@) =~= Seq::<Option<Seq<char>>>::empty());
    while i < names.len()
        invariant
            i <= names@.len(),
            start == pairs_of(old(data)@),
            key_pairs == pairs_of(keys@),
            all == names_of(names@),
            drained(start, key_pairs, all.take(i as int)) == Some(
                (texts_of(found@), pairs_of(data@)),
            ),
        decreases names@.len() - i,
    {
        proof {
            assert(all.take(i + 1).drop_last() =~= all.take(i as int));
            assert(all.take(i + 1).last() == names@[i as int]@);
        }
        match get_value(keys, names[i]) {
            Some(id) => {
                let value = take_value(data, id);
                let ghost before = texts_of(found@);
                let ghost held = value;
                found.push(value);
                assert(texts_of(found@) =~= before.push(
                    match held {
                        Some(s) => Some(s@),
                        None => None,
                    },
                ));
            },
            None => {
                proof {
                    lemma_drained_fails(start, key_pairs, all, i + 1);
                }
                return None;
            },
        }
        i = i + 1;
    }
    assert(all.take(i as int) =~= all);
    Some(found)
}

/// Where the first names cannot be taken, none of them can.
pub proof fn lemma_drained_fails(data: Pairs, keys: Pairs, names: Seq<Seq<char>>, upto: int)
    requires
        0 <= upto <= names.len(),
        drained(data, keys, names.take(upto)) is None,
    ensures
        drained(data, keys, names) is None,
    decreases names.len() - upto,
{
    if upto == names.len() {
        assert(names.take(upto) =~= names);
    } else {
        assert(names.take(upto + 1).drop_last() =~= names.take(upto));
        lemma_drained_fails(data, keys, names, upto + 1);
    }
}

/// As many values are taken as there are names.
pub proof fn lemma_drained_len(data: Pairs, keys: Pairs, names: Seq<Seq<char>>)
    ensures
        drained(data, keys, names) is Some ==> drained(data, keys, names).unwrap().0.len()
            == names.len(),
    decreases names.len(),
{
    if names.len() > 0 {
        lemma_drained_len(data, keys, names.drop_last());
    }
}

/// Whether `name` is one of `allowed`.
pub fn is_one_of(name: &str, allowed: &Vec<&str>) -> (is: bool)
    ensures
        is == names_of(allowed@).contains(name@),
{
    let ghost all = names_of(allowed@);
    let mut i: usize = 0;
    while i < allowed.len()
        invariant
            i <= allowed@.len(),
            all == names_of(allowed@),
            forall|j: int| 0 <= j < i ==> all[j] != name@,
        decreases allowed@.len() - i,
    {
        assert(all[i as int] == allowed@[i as int]@);
        if same_text(allowed[i], name) {
            return true;
        }
        i = i + 1;
    }
    false
}

} // verus!
