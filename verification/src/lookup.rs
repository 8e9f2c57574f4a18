//! Finding the first entry of a keyed list whose key is a given text.

use vstd::prelude::*;

verus! {

/// `i` is the first position whose key is `name`.
pub open spec fn is_first_of(keys: Seq<Seq<char>>, name: Seq<char>, i: int) -> bool {
    &&& 0 <= i < keys.len()
    &&& keys[i] == name
    &&& forall|j: int| 0 <= j < i ==> keys[j] != name
}

/// The first position whose key is `name`, if there is one.
pub open spec fn first_index(keys: Seq<Seq<char>>, name: Seq<char>) -> Option<int> {
    if exists|i: int| is_first_of(keys, name, i) {
        Some(choose|i: int| is_first_of(keys, name, i))
    } else {
        None
    }
}

/// No two keys of the list are equal.
pub open spec fn keys_distinct(keys: Seq<Seq<char>>) -> bool {
    forall|i: int, j: int| 0 <= i < keys.len() && 0 <= j < keys.len() && i != j ==> keys[i] != keys[j]
}

/// A position that holds `name` after positions that do not is the first.
pub proof fn lemma_first_index_found(keys: Seq<Seq<char>>, name: Seq<char>, i: int)
    requires
        is_first_of(keys, name, i),
    ensures
        first_index(keys, name) == Some(i),
{
    let k = choose|k: int| is_first_of(keys, name, k);
    if k < i {
        assert(keys[k] != name);
    } else if k > i {
        assert(keys[i] != name);
    }
}

/// When some key is `name`, there is a first such position.
pub proof fn lemma_first_index_exists(keys: Seq<Seq<char>>, name: Seq<char>, j: int)
    requires
        0 <= j < keys.len(),
        keys[j] == name,
    ensures
        first_index(keys, name) matches Some(i) && 0 <= i <= j && keys[i] == name,
    decreases j,
{
    if forall|k: int| 0 <= k < j ==> keys[k] != name {
        lemma_first_index_found(keys, name, j);
    } else {
        let k = choose|k: int| 0 <= k < j && keys[k] == name;
        lemma_first_index_exists(keys, name, k);
    }
}

/// There is no first position of `name` exactly when no key is `name`.
pub proof fn lemma_first_index_none(keys: Seq<Seq<char>>, name: Seq<char>)
    ensures
        first_index(keys, name) is None <==> forall|j: int| 0 <= j < keys.len() ==> keys[j] != name,
{
    if first_index(keys, name) is None {
        assert forall|j: int| 0 <= j < keys.len() implies keys[j] != name by {
            if keys[j] == name {
                lemma_first_index_exists(keys, name, j);
            }
        }
    }
}

/// The first position of `name` is a position holding `name`.
pub proof fn lemma_first_index_some(keys: Seq<Seq<char>>, name: Seq<char>)
    ensures
        first_index(keys, name) matches Some(i) ==> is_first_of(keys, name, i),
{
}

/// Two key lists that agree on which positions hold `name` agree on its first position.
pub proof fn lemma_first_index_same(a: Seq<Seq<char>>, b: Seq<Seq<char>>, name: Seq<char>)
    requires
        a.len() <= b.len(),
        forall|j: int| 0 <= j < a.len() ==> (a[j] == name <==> b[j] == name),
        forall|j: int| a.len() <= j < b.len() ==> b[j] != name,
    ensures
        first_index(a, name) == first_index(b, name),
{
    lemma_first_index_none(a, name);
    lemma_first_index_none(b, name);
    if let Some(i) = first_index(a, name) {
        lemma_first_index_found(b, name, i);
    } else if let Some(i) = first_index(b, name) {
        assert(b[i] == name);
        assert(a[i] == name);
    }
}

} // verus!
