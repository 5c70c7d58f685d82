//! Where the items of a table stand, by their numbers: for each number, the
//! places of the items that have it.

use std::collections::HashMap;
use vstd::prelude::*;

verus! {

broadcast use vstd::std_specs::hash::group_hash_axioms;

/// Whether the index knows the table: under each number stand only places
/// of items with that number, and each place of the table stands under the
/// number of its item.
pub open spec fn indexed(places: Map<usize, Vec<usize>>, numbers: Seq<usize>) -> bool {
    &&& forall|k: usize, j: int|
        #![trigger places[k]@[j]]
        places.contains_key(k) && 0 <= j < places[k]@.len() ==> places[k]@[j] < numbers.len()
            && numbers[places[k]@[j] as int] == k
    &&& forall|i: int|
        0 <= i < numbers.len() ==> places.contains_key(#[trigger] numbers[i])
            && places[numbers[i]]@.contains(i as usize)
}

/// The places that stand under the number `number`.
pub fn places_of(places: &HashMap<usize, Vec<usize>>, number: usize) -> (found: Option<
    &Vec<usize>,
>)
    ensures
        match found {
            Some(list) => places@.contains_key(number) && *list == places@[number],
            None => !places@.contains_key(number),
        },
{
    places.get(&number)
}

/// Notes that the next place of the table holds an item with the number
/// `number`.
pub(crate) fn note_place(
    places: &mut HashMap<usize, Vec<usize>>,
    number: usize,
    place: usize,
    Ghost(numbers): Ghost<Seq<usize>>,
)
    requires
        indexed(old(places)@, numbers),
        place == numbers.len(),
    ensures
        indexed(final(places)@, numbers.push(number)),
{
    let ghost before = places@;
    let mut list = match places.remove(&number) {
        Some(list) => list,
        None => Vec::new(),
    };
    let ghost held = list@;
    list.push(place);
    places.insert(number, list);
    proof {
        let after = places@;
        let grown = numbers.push(number);
        assert forall|k: usize, j: int|
            #![trigger after[k]@[j]]
            after.contains_key(k) && 0 <= j < after[k]@.len() implies after[k]@[j] < grown.len()
            && grown[after[k]@[j] as int] == k by {
            if k == number {
                if j < held.len() {
                    assert(before[k]@[j] == held[j]);
                }
            } else {
                assert(after[k] == before[k]);
                assert(before[k]@[j] < numbers.len());
            }
        }
        assert forall|i: int| 0 <= i < grown.len() implies after.contains_key(
            #[trigger] grown[i],
        ) && after[grown[i]]@.contains(i as usize) by {
            if i < numbers.len() {
                assert(before.contains_key(numbers[i]) && before[numbers[i]]@.contains(i as usize));
                if numbers[i] == number {
                    let j = choose|j: int| 0 <= j < held.len() && held[j] == i as usize;
                    assert(after[number]@[j] == i as usize);
                } else {
                    assert(after[numbers[i]] == before[numbers[i]]);
                }
            } else {
                assert(after[number]@[held.len() as int] == place);
            }
        }
    }
}

/// An index of a table without items.
pub fn no_places() -> (places: HashMap<usize, Vec<usize>>)
    ensures
        indexed(places@, Seq::empty()),
{
    HashMap::new()
}

} // verus!
