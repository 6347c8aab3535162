//! Null stripping: an object member whose value is null counts as absent.

use vstd::prelude::*;
use crate::value::{
    entry_keys, find_key, first_index, lemma_first_index_is, lemma_first_index_range,
    lemma_item_smaller, lemma_member_smaller, lemma_record_push, list_of, record_of,
    ResponseValue, Tree,
};
use crate::wildcard::{is_marker, substitute};

verus! {

/// The tree without its null-valued object members, at every depth. Arrays
/// keep all their items, null ones too.
pub open spec fn strip(t: Tree) -> Tree
    decreases t,
{
    match t {
        Tree::List(items) => Tree::List(
            Seq::new(
                items.len(),
                |i: int|
                    if 0 <= i < items.len() {
                        strip(items[i])
                    } else {
                        Tree::Null
                    },
            ),
        ),
        Tree::Record(m) => Tree::Record(
            Map::new(
                |k: Seq<char>| m.contains_key(k) && !(m[k] is Null),
                |k: Seq<char>|
                    if m.contains_key(k) {
                        strip(m[k])
                    } else {
                        Tree::Null
                    },
            ),
        ),
        _ => t,
    }
}

/// Marker substitution and null stripping in one pass: a node under a marker
/// becomes the marker, and everywhere else null-valued members are dropped.
pub open spec fn substitute_and_strip(actual: Tree, expected: Tree) -> Tree
    decreases expected,
{
    if is_marker(expected) {
        expected
    } else {
        match expected {
            Tree::Record(em) => match actual {
                Tree::Record(am) => Tree::Record(
                    Map::new(
                        |k: Seq<char>|
                            am.contains_key(k) && ((em.contains_key(k) && is_marker(em[k]))
                                || !(am[k] is Null)),
                        |k: Seq<char>|
                            if am.contains_key(k) && em.contains_key(k) {
                                substitute_and_strip(am[k], em[k])
                            } else {
                                strip(am[k])
                            },
                    ),
                ),
                _ => strip(actual),
            },
            Tree::List(es) => match actual {
                Tree::List(items) => Tree::List(
                    Seq::new(
                        items.len(),
                        |i: int|
                            if 0 <= i < items.len() && i < es.len() {
                                substitute_and_strip(items[i], es[i])
                            } else {
                                strip(items[i])
                            },
                    ),
                ),
                _ => strip(actual),
            },
            _ => strip(actual),
        }
    }
}

/// Null stripping is idempotent: a stripped tree has nothing left to strip.
pub proof fn lemma_strip_idempotent(t: Tree)
    ensures
        strip(strip(t)) == strip(t),
    decreases t,
{
    match t {
        Tree::List(items) => {
            assert forall|i: int| 0 <= i < items.len() implies strip(strip(items[i])) == strip(
                items[i],
            ) by {
                lemma_strip_idempotent(items[i]);
            }
            assert(strip(strip(t))->List_0 =~= strip(t)->List_0);
        },
        Tree::Record(m) => {
            assert forall|k: Seq<char>| m.contains_key(k) implies strip(strip(m[k])) == strip(
                m[k],
            ) by {
                lemma_strip_idempotent(m[k]);
            }
            assert(strip(strip(t))->Record_0 =~= strip(t)->Record_0);
        },
        _ => {},
    }
}

/// Substituting the markers and then stripping nulls gives what the one
/// pass gives that strips nulls where no marker stands and puts the marker
/// where one does.
pub proof fn lemma_strip_after_substitute(actual: Tree, expected: Tree)
    ensures
        strip(substitute(actual, expected)) == substitute_and_strip(actual, expected),
    decreases expected,
{
    if !is_marker(expected) {
        match (expected, actual) {
            (Tree::Record(em), Tree::Record(am)) => {
                assert forall|k: Seq<char>| am.contains_key(k) && em.contains_key(k) implies strip(
                    substitute(am[k], em[k]),
                ) == substitute_and_strip(am[k], em[k]) by {
                    lemma_strip_after_substitute(am[k], em[k]);
                }
                assert(strip(substitute(actual, expected))->Record_0 =~= substitute_and_strip(
                    actual,
                    expected,
                )->Record_0);
            },
            (Tree::List(es), Tree::List(items)) => {
                assert forall|i: int| 0 <= i < items.len() && i < es.len() implies strip(
                    substitute(items[i], es[i]),
                ) == substitute_and_strip(items[i], es[i]) by {
                    lemma_strip_after_substitute(items[i], es[i]);
                }
                assert(strip(substitute(actual, expected))->List_0 =~= substitute_and_strip(
                    actual,
                    expected,
                )->List_0);
            },
            _ => {},
        }
    }
}

/// A copy of the tree without its null-valued object members.
pub fn stripped(value: &ResponseValue) -> (out: ResponseValue)
    ensures
        out@ == strip(value@),
    decreases value,
{
    match value {
        ResponseValue::Array(items) => {
            let mut out: Vec<ResponseValue> = Vec::new();
            let mut i: usize = 0;
            while i < items.len()
                invariant
                    0 <= i <= items@.len(),
                    value == ResponseValue::Array(*items),
                    out@.len() == i,
                    forall|j: int| 0 <= j < i ==> out@[j]@ == strip(items@[j]@),
                decreases items@.len() - i,
            {
                proof {
                    lemma_item_smaller(value, i as int);
                }
                out.push(stripped(&items[i]));
                i += 1;
            }
            assert(list_of(out@) =~= strip(value@)->List_0);
            ResponseValue::Array(out)
        },
        ResponseValue::Object(entries) => {
            let ghost keys = entry_keys(entries@);
            let mut out: Vec<(String, ResponseValue)> = Vec::new();
            let mut i: usize = 0;
            proof {
                assert(record_of(out@) =~= Map::<Seq<char>, Tree>::empty()) by {
                    assert forall|k: Seq<char>| !record_of(out@).contains_key(k) by {
                        lemma_first_index_range(entry_keys(out@), k);
                    }
                }
            }
            while i < entries.len()
                invariant
                    0 <= i <= entries@.len(),
                    value == ResponseValue::Object(*entries),
                    keys == entry_keys(entries@),
                    record_of(out@) =~= Map::new(
                        |k: Seq<char>|
                            first_index(keys, k) < i && !(entries@[first_index(keys, k)].1@ is Null),
                        |k: Seq<char>| strip(entries@[first_index(keys, k)].1@),
                    ),
                decreases entries@.len() - i,
            {
                let first = find_key(entries, entries[i].0.as_str());
                let ghost before = out@;
                let ghost key = keys[i as int];
                if first == Some(i) && !entries[i].1.is_null() {
                    proof {
                        lemma_member_smaller(value, i as int);
                        lemma_first_index_is(keys, key, i as int);
                    }
                    let member = stripped(&entries[i].1);
                    let entry = (entries[i].0.clone(), member);
                    proof {
                        lemma_record_push(before, entry);
                    }
                    out.push(entry);
                    proof {
                        assert forall|k: Seq<char>| first_index(keys, k) == i implies k == key by {
                            lemma_first_index_range(keys, k);
                        }
                    }
                } else {
                    proof {
                        assert forall|k: Seq<char>| first_index(keys, k) == i implies first
                            == Some(i) && k == key by {
                            lemma_first_index_range(keys, k);
                        }
                    }
                }
                i += 1;
            }
            proof {
                assert forall|k: Seq<char>|
                    first_index(keys, k) < entries@.len() implies record_of(entries@)[k]
                    == entries@[first_index(keys, k)].1@ by {
                    lemma_first_index_range(keys, k);
                }
                assert forall|k: Seq<char>| 0 <= first_index(keys, k) by {
                    lemma_first_index_range(keys, k);
                }
                assert(record_of(out@) =~= strip(value@)->Record_0);
            }
            ResponseValue::Object(out)
        },
        _ => value.clone(),
    }
}

/// Removes the null-valued members of every object of the tree, at every
/// depth. Arrays are walked and keep all their items.
pub fn remove_nulls(value: &mut ResponseValue)
    ensures
        final(value)@ == strip(old(value)@),
{
    let out = stripped(value);
    *value = out;
}

} // verus!
