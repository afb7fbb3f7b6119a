//! Lists of named entries used as maps from names to values: the first entry
//! with a name is the one that counts, and setting a name replaces its value
//! in place or adds the entry at the end.
use vstd::prelude::*;
use crate::text::str_eq;

verus! {

/// The entries with their names as character sequences.
pub open spec fn names_view<V>(list: Seq<(String, V)>) -> Seq<(Seq<char>, V)> {
    list.map_values(|e: (String, V)| (e.0@, e.1))
}

/// Index of the first entry named `key`.
pub open spec fn find_key<V>(list: Seq<(Seq<char>, V)>, key: Seq<char>) -> Option<int>
    decreases list.len(),
{
    if list.len() == 0 {
        None
    } else if list[0].0 == key {
        Some(0)
    } else {
        match find_key(list.drop_first(), key) {
            Some(i) => Some(i + 1),
            None => None,
        }
    }
}

/// The value of the first entry named `key`.
pub open spec fn lookup<V>(list: Seq<(Seq<char>, V)>, key: Seq<char>) -> Option<V> {
    match find_key(list, key) {
        Some(i) => Some(list[i].1),
        None => None,
    }
}

/// The list with `key` set to `value`.
pub open spec fn insert_key<V>(list: Seq<(Seq<char>, V)>, key: Seq<char>, value: V) -> Seq<(Seq<char>, V)> {
    match find_key(list, key) {
        Some(i) => list.update(i, (list[i].0, value)),
        None => list.push((key, value)),
    }
}

/// The first entry named `key` is at `i`, or there is none when `i` is the length.
pub proof fn lemma_find_key<V>(list: Seq<(Seq<char>, V)>, key: Seq<char>, i: int)
    requires
        0 <= i <= list.len(),
        forall|j: int| 0 <= j < i ==> (#[trigger] list[j]).0 != key,
        i < list.len() ==> list[i].0 == key,
    ensures
        find_key(list, key) == if i < list.len() { Some(i) } else { None::<int> },
    decreases list.len(),
{
    if list.len() > 0 && i > 0 {
        assert(list[0].0 != key);
        let rest = list.drop_first();
        assert forall|j: int| 0 <= j < i - 1 implies (#[trigger] rest[j]).0 != key by {
            assert(rest[j] == list[j + 1]);
        }
        if i < list.len() {
            assert(rest[i - 1] == list[i]);
        }
        lemma_find_key(rest, key, i - 1);
    }
}

/// A found index is in range and names the key.
pub proof fn lemma_find_key_found<V>(list: Seq<(Seq<char>, V)>, key: Seq<char>)
    ensures
        match find_key(list, key) {
            Some(i) => 0 <= i < list.len() && list[i].0 == key && forall|j: int|
                0 <= j < i ==> (#[trigger] list[j]).0 != key,
            None => forall|j: int| 0 <= j < list.len() ==> (#[trigger] list[j]).0 != key,
        },
    decreases list.len(),
{
    if list.len() > 0 {
        let rest = list.drop_first();
        lemma_find_key_found(rest, key);
        assert forall|j: int| 1 <= j < list.len() implies list[j] == rest[j - 1] by {}
        if list[0].0 != key {
            match find_key(rest, key) {
                Some(i) => {
                    assert forall|j: int| 0 <= j < i + 1 implies (#[trigger] list[j]).0 != key by {
                        if j > 0 {
                            assert(list[j] == rest[j - 1]);
                        }
                    }
                },
                None => {
                    assert forall|j: int| 0 <= j < list.len() implies (#[trigger] list[j]).0 != key by {
                        if j > 0 {
                            assert(list[j] == rest[j - 1]);
                        }
                    }
                },
            }
        }
    }
}

/// Finds the index of the first entry named `key`.
pub fn find_entry<V>(list: &Vec<(String, V)>, key: &str) -> (r: Option<usize>)
    ensures
        match r {
            Some(i) => find_key(names_view(list@), key@) == Some(i as int),
            None => find_key(names_view(list@), key@) is None,
        },
{
    let mut i: usize = 0;
    while i < list.len()
        invariant
            0 <= i <= list@.len(),
            forall|j: int| 0 <= j < i ==> (#[trigger] names_view(list@)[j]).0 != key@,
        decreases list@.len() - i,
    {
        if str_eq(list[i].0.as_str(), key) {
            proof {
                lemma_find_key(names_view(list@), key@, i as int);
            }
            return Some(i);
        }
        i = i + 1;
    }
    proof {
        lemma_find_key(names_view(list@), key@, i as int);
    }
    None
}

/// Sets `key` to `value`: the first entry named `key` takes the value, or a
/// new entry is added at the end.
pub fn insert_entry<V>(list: &mut Vec<(String, V)>, key: String, value: V)
    ensures
        names_view(final(list)@) == insert_key(names_view(old(list)@), key@, value),
{
    match find_entry(list, key.as_str()) {
        Some(i) => {
            proof {
                lemma_find_key_found(names_view(list@), key@);
            }
            let name = list[i].0.clone();
            list.set(i, (name, value));
            assert(names_view(list@) =~= insert_key(names_view(old(list)@), key@, value));
        },
        None => {
            list.push((key, value));
            assert(names_view(list@) =~= insert_key(names_view(old(list)@), key@, value));
        },
    }
}

/// Setting a name and then looking it up gives the value that was set, and
/// leaves every other name as it was.
pub proof fn lemma_lookup_insert<V>(list: Seq<(Seq<char>, V)>, key: Seq<char>, value: V, other: Seq<char>)
    ensures
        lookup(insert_key(list, key, value), key) == Some(value),
        other != key ==> lookup(insert_key(list, key, value), other) == lookup(list, other),
{
    lemma_find_key_found(list, key);
    lemma_find_key_found(list, other);
    let after = insert_key(list, key, value);
    match find_key(list, key) {
        Some(i) => {
            assert forall|j: int| 0 <= j < after.len() && j != i implies #[trigger] after[j] == list[j] by {}
            assert forall|j: int| 0 <= j < i implies (#[trigger] after[j]).0 != key by {
                assert(after[j] == list[j]);
            }
            lemma_find_key(after, key, i);
            if other != key {
                match find_key(list, other) {
                    Some(k) => {
                        assert(k != i);
                        assert forall|j: int| 0 <= j < k implies (#[trigger] after[j]).0 != other by {
                            if j != i {
                                assert(after[j] == list[j]);
                            }
                        }
                        assert(after[k] == list[k]);
                        lemma_find_key(after, other, k);
                    },
                    None => {
                        assert forall|j: int| 0 <= j < after.len() implies (#[trigger] after[j]).0 != other by {
                            if j != i {
                                assert(after[j] == list[j]);
                            }
                        }
                        lemma_find_key(after, other, after.len() as int);
                    },
                }
            }
        },
        None => {
            assert forall|j: int| 0 <= j < list.len() implies #[trigger] after[j] == list[j] by {}
            assert forall|j: int| 0 <= j < list.len() implies (#[trigger] after[j]).0 != key by {
                assert(after[j] == list[j]);
            }
            lemma_find_key(after, key, list.len() as int);
            if other != key {
                match find_key(list, other) {
                    Some(k) => {
                        assert forall|j: int| 0 <= j < k implies (#[trigger] after[j]).0 != other by {
                            assert(after[j] == list[j]);
                        }
                        assert(after[k] == list[k]);
                        lemma_find_key(after, other, k);
                    },
                    None => {
                        assert forall|j: int| 0 <= j < after.len() implies (#[trigger] after[j]).0 != other by {
                            if j < list.len() {
                                assert(after[j] == list[j]);
                            }
                        }
                        lemma_find_key(after, other, after.len() as int);
                    },
                }
            }
        },
    }
}

} // verus!
