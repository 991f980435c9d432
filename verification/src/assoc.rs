//! Small string-keyed association lists (the library's stand-in for
//! `HashMap<String, V>`): the first entry under a key is the one that counts.
use vstd::prelude::*;
use crate::text::str_eq;

verus! {

/// The index of the first entry under `key`.
pub open spec fn assoc_index<V>(es: Seq<(String, V)>, key: Seq<char>) -> Option<int>
    decreases es.len(),
{
    if es.len() == 0 {
        None
    } else if es[0].0@ == key {
        Some(0)
    } else {
        match assoc_index(es.drop_first(), key) {
            Some(i) => Some(i + 1),
            None => None,
        }
    }
}

/// The value of the first entry under `key`.
pub open spec fn assoc_get<V>(es: Seq<(String, V)>, key: Seq<char>) -> Option<V> {
    match assoc_index(es, key) {
        Some(i) => Some(es[i].1),
        None => None,
    }
}

pub proof fn lemma_assoc_index<V>(es: Seq<(String, V)>, key: Seq<char>)
    ensures
        match assoc_index(es, key) {
            Some(i) => 0 <= i < es.len() && es[i].0@ == key && forall|k: int|
                0 <= k < i ==> es[k].0@ != key,
            None => forall|k: int| 0 <= k < es.len() ==> es[k].0@ != key,
        },
    decreases es.len(),
{
    if es.len() > 0 && es[0].0@ != key {
        lemma_assoc_index(es.drop_first(), key);
        match assoc_index(es.drop_first(), key) {
            Some(i) => {
                assert forall|k: int| 0 <= k < i + 1 implies es[k].0@ != key by {
                    if k > 0 {
                        assert(es[k] == es.drop_first()[k - 1]);
                    }
                }
            },
            None => {
                assert forall|k: int| 0 <= k < es.len() implies es[k].0@ != key by {
                    if k > 0 {
                        assert(es[k] == es.drop_first()[k - 1]);
                    }
                }
            },
        }
    }
}

/// The index of the first entry under `key`.
pub fn find_key<V>(es: &Vec<(String, V)>, key: &str) -> (r: Option<usize>)
    ensures
        match assoc_index(es@, key@) {
            Some(i) => 0 <= i < es@.len() && (r matches Some(x) && x as int == i),
            None => r is None,
        },
        r matches Some(i) ==> i < es@.len() && es@[i as int].0@ == key@,
{
    proof {
        lemma_assoc_index(es@, key@);
    }
    let mut i: usize = 0;
    while i < es.len()
        invariant
            i <= es.len(),
            forall|k: int| 0 <= k < i ==> es@[k].0@ != key@,
            match assoc_index(es@, key@) {
                Some(j) => 0 <= j < es@.len() && es@[j].0@ == key@ && forall|k: int|
                    0 <= k < j ==> es@[k].0@ != key@,
                None => forall|k: int| 0 <= k < es@.len() ==> es@[k].0@ != key@,
            },
        decreases es.len() - i,
    {
        if str_eq(es[i].0.as_str(), key) {
            return Some(i);
        }
        i = i + 1;
    }
    None
}

/// Whether some string of `items` equals `s`.
pub open spec fn contains_str(items: Seq<String>, s: Seq<char>) -> bool {
    exists|i: int| 0 <= i < items.len() && items[i]@ == s
}

/// Whether some string of `items` equals `s`.
pub fn has_str(items: &Vec<String>, s: &str) -> (r: bool)
    ensures
        r == contains_str(items@, s@),
{
    let mut i: usize = 0;
    while i < items.len()
        invariant
            i <= items.len(),
            forall|k: int| 0 <= k < i ==> items@[k]@ != s@,
        decreases items.len() - i,
    {
        if str_eq(items[i].as_str(), s) {
            return true;
        }
        i = i + 1;
    }
    false
}

/// `after` is `before` with `val` put under `key`: the entry under `key`
/// takes `val`, or a new entry for it is added at the end.
pub open spec fn assoc_put_spec<V>(
    before: Seq<(String, V)>,
    after: Seq<(String, V)>,
    key: Seq<char>,
    val: V,
) -> bool {
    match assoc_index(before, key) {
        Some(i) => after.len() == before.len() && after[i].0@ == key && after[i].1 == val
            && forall|k: int| 0 <= k < before.len() && k != i ==> after[k] == before[k],
        None => after.len() == before.len() + 1 && after.last().0@ == key && after.last().1
            == val && forall|k: int| 0 <= k < before.len() ==> after[k] == before[k],
    }
}

/// A value put under a key is found again, and other keys are unaffected.
pub proof fn lemma_assoc_put<V>(
    before: Seq<(String, V)>,
    after: Seq<(String, V)>,
    key: Seq<char>,
    val: V,
    other: Seq<char>,
)
    requires
        assoc_put_spec(before, after, key, val),
        other != key,
    ensures
        assoc_get(after, key) == Some(val),
        assoc_get(after, other) == assoc_get(before, other),
{
    lemma_assoc_index(before, key);
    lemma_assoc_index(after, key);
    lemma_assoc_index(before, other);
    lemma_assoc_index(after, other);
    match assoc_index(before, key) {
        Some(i) => {
            assert(after.len() == before.len());
            assert forall|k: int| 0 <= k < i implies after[k].0@ != key by {
                assert(after[k] == before[k]);
            }
            match assoc_index(after, key) {
                Some(j) => {
                    if j < i {
                        assert(after[j] == before[j]);
                    }
                },
                None => {},
            }
            match (assoc_index(after, other), assoc_index(before, other)) {
                (Some(a), Some(b)) => {
                    if a < b {
                        if a != i {
                            assert(after[a] == before[a]);
                        }
                    } else if b < a {
                        assert(after[b] == before[b]);
                    }
                    if a != i {
                        assert(after[a] == before[a]);
                    }
                },
                (Some(a), None) => {
                    if a != i {
                        assert(after[a] == before[a]);
                    }
                },
                (None, Some(b)) => {
                    assert(after[b] == before[b]);
                },
                (None, None) => {},
            }
        },
        None => {
            assert forall|k: int| 0 <= k < before.len() implies after[k].0@ != key by {
                assert(after[k] == before[k]);
            }
            match assoc_index(after, key) {
                Some(j) => {
                    if j < before.len() {
                        assert(after[j] == before[j]);
                    }
                },
                None => {},
            }
            match (assoc_index(after, other), assoc_index(before, other)) {
                (Some(a), Some(b)) => {
                    if a < b {
                        assert(after[a] == before[a]);
                    } else if b < a {
                        assert(after[b] == before[b]);
                    }
                    assert(after[a] == before[a]);
                },
                (Some(a), None) => {
                    if a < before.len() {
                        assert(after[a] == before[a]);
                    }
                },
                (None, Some(b)) => {
                    assert(after[b] == before[b]);
                },
                (None, None) => {},
            }
        },
    }
}

/// No key occurs twice: the table is a map, and a lookup does not depend on
/// which of two entries comes first.
pub open spec fn assoc_keys_distinct<V>(es: Seq<(String, V)>) -> bool {
    forall|i: int, j: int| 0 <= i < j < es.len() ==> #[trigger] es[i].0@ != #[trigger] es[j].0@
}

/// Putting a value under a key keeps the keys distinct.
pub proof fn lemma_assoc_put_distinct<V>(
    before: Seq<(String, V)>,
    after: Seq<(String, V)>,
    key: Seq<char>,
    val: V,
)
    requires
        assoc_put_spec(before, after, key, val),
        assoc_keys_distinct(before),
    ensures
        assoc_keys_distinct(after),
{
    lemma_assoc_index(before, key);
    match assoc_index(before, key) {
        Some(i) => {
            assert forall|a: int, b: int| 0 <= a < b < after.len() implies #[trigger] after[a].0@
                != #[trigger] after[b].0@ by {
                assert(after[a].0@ == before[a].0@);
                assert(after[b].0@ == before[b].0@);
            }
        },
        None => {
            assert forall|a: int, b: int| 0 <= a < b < after.len() implies #[trigger] after[a].0@
                != #[trigger] after[b].0@ by {
                assert(after[a] == before[a]);
                if b < before.len() {
                    assert(after[b] == before[b]);
                }
            }
        },
    }
}

/// With distinct keys, the lookup of an entry's key finds that entry.
pub proof fn lemma_assoc_get_distinct<V>(es: Seq<(String, V)>, i: int)
    requires
        assoc_keys_distinct(es),
        0 <= i < es.len(),
    ensures
        assoc_get(es, es[i].0@) == Some(es[i].1),
{
    lemma_assoc_index(es, es[i].0@);
    let j = assoc_index(es, es[i].0@)->Some_0;
    if j < i {
        assert(es[j].0@ != es[i].0@);
    }
}

/// Puts `val` under `key`: the first entry under `key` takes it, or a new
/// entry is added at the end.
pub fn assoc_put<V>(es: &mut Vec<(String, V)>, key: &str, val: V)
    ensures
        assoc_put_spec(old(es)@, final(es)@, key@, val),
{
    match find_key(es, key) {
        Some(i) => {
            let k = es[i].0.clone();
            es.set(i, (k, val));
        },
        None => {
            es.push((key.to_owned(), val));
        },
    }
}

} // verus!
