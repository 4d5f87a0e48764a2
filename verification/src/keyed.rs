//! Lists of named items in which no name occurs twice, read as maps from
//! the names to the items.

use crate::text::same_text;
use vstd::prelude::*;

verus! {

#[derive(Debug)]
pub struct Named<T> {
    pub name: String,
    pub item: T,
}

/// Whether some item of the list goes by the name.
pub open spec fn holds<T>(items: Seq<Named<T>>, name: Seq<char>) -> bool {
    exists|i: int| 0 <= i < items.len() && #[trigger] items[i].name@ == name
}

/// A position at which the list has the name, if it has it.
pub open spec fn position<T>(items: Seq<Named<T>>, name: Seq<char>) -> int {
    choose|i: int| 0 <= i < items.len() && #[trigger] items[i].name@ == name
}

/// No two items of the list go by the same name.
pub open spec fn distinct<T>(items: Seq<Named<T>>) -> bool {
    forall|i: int, j: int|
        0 <= i < j < items.len() ==> #[trigger] items[i].name@ != #[trigger] items[j].name@
}

/// The list as a map from names to items.
pub open spec fn named_map<T>(items: Seq<Named<T>>) -> Map<Seq<char>, T> {
    Map::new(|name: Seq<char>| holds(items, name), |name: Seq<char>| items[position(items, name)].item)
}

/// In a list without repeated names, the map gives for the name of each
/// item that very item.
pub proof fn lemma_named_in_map<T>(items: Seq<Named<T>>, i: int)
    requires
        distinct(items),
        0 <= i < items.len(),
    ensures
        holds(items, items[i].name@),
        position(items, items[i].name@) == i,
        named_map(items)[items[i].name@] == items[i].item,
{
    // the position that was chosen for the name can only be `i`
    let chosen = position(items, items[i].name@);
}

/// Putting an item in the place of one of the same name is an insertion
/// into the map.
pub proof fn lemma_replaced<T>(items: Seq<Named<T>>, i: int, named: Named<T>)
    requires
        distinct(items),
        0 <= i < items.len(),
        named.name@ == items[i].name@,
    ensures
        distinct(items.update(i, named)),
        named_map(items.update(i, named)) == named_map(items).insert(named.name@, named.item),
{
    let after = items.update(i, named);
    let wanted = named_map(items).insert(named.name@, named.item);
    assert forall|name: Seq<char>| #[trigger]
        named_map(after).contains_key(name) == wanted.contains_key(name) by {
        if holds(after, name) {
            assert(items[position(after, name)].name@ == name);
        }
        if holds(items, name) {
            assert(after[position(items, name)].name@ == name);
        }
    }
    assert forall|name: Seq<char>| #[trigger] named_map(after).contains_key(name) implies named_map(
        after,
    )[name] == wanted[name] by {
        let j = position(after, name);
        lemma_named_in_map(after, j);
        lemma_named_in_map(items, j);
    }
}

/// Appending an item under a name that the list does not have is an
/// insertion into the map.
pub proof fn lemma_added<T>(items: Seq<Named<T>>, named: Named<T>)
    requires
        distinct(items),
        !holds(items, named.name@),
    ensures
        distinct(items.push(named)),
        named_map(items.push(named)) == named_map(items).insert(named.name@, named.item),
{
    let after = items.push(named);
    let last = items.len() as int;
    let wanted = named_map(items).insert(named.name@, named.item);
    assert forall|name: Seq<char>| #[trigger]
        named_map(after).contains_key(name) == wanted.contains_key(name) by {
        if holds(after, name) && position(after, name) < last {
            assert(items[position(after, name)].name@ == name);
        }
        if holds(items, name) {
            assert(after[position(items, name)].name@ == name);
        }
        assert(after[last].name@ == named.name@);
    }
    assert forall|name: Seq<char>| #[trigger] named_map(after).contains_key(name) implies named_map(
        after,
    )[name] == wanted[name] by {
        let j = position(after, name);
        lemma_named_in_map(after, j);
        if j < last {
            lemma_named_in_map(items, j);
        }
    }
}

/// Where the list has the name.
pub fn find_named<T>(items: &Vec<Named<T>>, name: &str) -> (r: Option<usize>)
    ensures
        match r {
            Some(i) => i < items@.len() && items@[i as int].name@ == name@,
            None => !holds(items@, name@),
        },
{
    let mut i: usize = 0;
    while i < items.len()
        invariant
            i <= items.len(),
            forall|k: int| 0 <= k < i ==> (#[trigger] items@[k]).name@ != name@,
        decreases items.len() - i,
    {
        if same_text(items[i].name.as_str(), name) {
            return Some(i);
        }
        i = i + 1;
    }
    None
}

} // verus!
