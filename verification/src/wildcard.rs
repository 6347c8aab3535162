//! Wildcard markers: an expected tree may hold the marker text at any node,
//! and the node of the actual tree at the same path is then accepted
//! whatever it holds.

use vstd::prelude::*;
use crate::path::Step;
use crate::tree::{is_prefix, lemma_prefix_shorter, lookup, replace_at};
use crate::value::Tree;

verus! {

/// The marker node: the text `ignore`.
pub open spec fn marker() -> Tree {
    Tree::Text("ignore"@)
}

/// Whether a node is the marker.
pub open spec fn is_marker(t: Tree) -> bool {
    t == marker()
}

/// The actual tree after marker substitution. Where the expected tree holds
/// the marker, the actual node becomes the marker. Where both are objects,
/// each member of the actual object that the expected object has too is
/// substituted against it; likewise the items of two arrays, index by index.
/// Everything else of the actual tree stays.
pub open spec fn substitute(actual: Tree, expected: Tree) -> Tree
    decreases expected,
{
    if is_marker(expected) {
        expected
    } else {
        match expected {
            Tree::Record(em) => match actual {
                Tree::Record(am) => Tree::Record(
                    Map::new(
                        |k: Seq<char>| am.contains_key(k),
                        |k: Seq<char>|
                            if am.contains_key(k) && em.contains_key(k) {
                                substitute(am[k], em[k])
                            } else {
                                am[k]
                            },
                    ),
                ),
                _ => actual,
            },
            Tree::List(es) => match actual {
                Tree::List(items) => Tree::List(
                    Seq::new(
                        items.len(),
                        |i: int|
                            if 0 <= i < items.len() && i < es.len() {
                                substitute(items[i], es[i])
                            } else {
                                items[i]
                            },
                    ),
                ),
                _ => actual,
            },
            _ => actual,
        }
    }
}

/// Marker substitution that leaves out the subtrees at the pending paths:
/// `prefix` is the path of the two nodes, and a node whose path is pending
/// stays as it is, with all below it.
pub open spec fn partial(actual: Tree, expected: Tree, prefix: Seq<Step>, pending: Set<Seq<Step>>)
    -> Tree
    decreases expected,
{
    if pending.contains(prefix) {
        actual
    } else if is_marker(expected) {
        expected
    } else {
        match expected {
            Tree::Record(em) => match actual {
                Tree::Record(am) => Tree::Record(
                    Map::new(
                        |k: Seq<char>| am.contains_key(k),
                        |k: Seq<char>|
                            if am.contains_key(k) && em.contains_key(k) {
                                partial(am[k], em[k], prefix.push(Step::Key(k)), pending)
                            } else {
                                am[k]
                            },
                    ),
                ),
                _ => actual,
            },
            Tree::List(es) => match actual {
                Tree::List(items) => Tree::List(
                    Seq::new(
                        items.len(),
                        |i: int|
                            if 0 <= i < items.len() && i < es.len() {
                                partial(items[i], es[i], prefix.push(Step::Index(i)), pending)
                            } else {
                                items[i]
                            },
                    ),
                ),
                _ => actual,
            },
            _ => actual,
        }
    }
}

/// With nothing pending, the partial substitution is the whole one.
pub proof fn lemma_partial_done(actual: Tree, expected: Tree, prefix: Seq<Step>)
    ensures
        partial(actual, expected, prefix, Set::empty()) == substitute(actual, expected),
    decreases expected,
{
    let none = Set::<Seq<Step>>::empty();
    if !is_marker(expected) {
        match (expected, actual) {
            (Tree::Record(em), Tree::Record(am)) => {
                assert forall|k: Seq<char>| am.contains_key(k) && em.contains_key(k) implies partial(
                    am[k],
                    em[k],
                    prefix.push(Step::Key(k)),
                    none,
                ) == substitute(am[k], em[k]) by {
                    lemma_partial_done(am[k], em[k], prefix.push(Step::Key(k)));
                }
                assert(partial(actual, expected, prefix, none)->Record_0 =~= substitute(
                    actual,
                    expected,
                )->Record_0);
            },
            (Tree::List(es), Tree::List(items)) => {
                assert forall|i: int| 0 <= i < items.len() && i < es.len() implies partial(
                    items[i],
                    es[i],
                    prefix.push(Step::Index(i)),
                    none,
                ) == substitute(items[i], es[i]) by {
                    lemma_partial_done(items[i], es[i], prefix.push(Step::Index(i)));
                }
                assert(partial(actual, expected, prefix, none)->List_0 =~= substitute(
                    actual,
                    expected,
                )->List_0);
            },
            _ => {},
        }
    }
}

/// The partial substitution at a node depends only on which paths at or
/// below that node are pending.
pub proof fn lemma_partial_local(
    actual: Tree,
    expected: Tree,
    prefix: Seq<Step>,
    pa: Set<Seq<Step>>,
    pb: Set<Seq<Step>>,
)
    requires
        forall|s: Seq<Step>| is_prefix(prefix, s) ==> (pa.contains(s) == pb.contains(s)),
    ensures
        partial(actual, expected, prefix, pa) == partial(actual, expected, prefix, pb),
    decreases expected,
{
    assert(prefix.subrange(0, prefix.len() as int) =~= prefix);
    assert(is_prefix(prefix, prefix));
    if !pa.contains(prefix) && !is_marker(expected) {
        match (expected, actual) {
            (Tree::Record(em), Tree::Record(am)) => {
                assert forall|k: Seq<char>| am.contains_key(k) && em.contains_key(k) implies partial(
                    am[k],
                    em[k],
                    prefix.push(Step::Key(k)),
                    pa,
                ) == partial(am[k], em[k], prefix.push(Step::Key(k)), pb) by {
                    let below = prefix.push(Step::Key(k));
                    assert forall|s: Seq<Step>| is_prefix(below, s) implies pa.contains(s)
                        == pb.contains(s) by {
                        lemma_prefix_shorter(prefix, Step::Key(k), s);
                    }
                    lemma_partial_local(am[k], em[k], below, pa, pb);
                }
                assert(partial(actual, expected, prefix, pa)->Record_0 =~= partial(
                    actual,
                    expected,
                    prefix,
                    pb,
                )->Record_0);
            },
            (Tree::List(es), Tree::List(items)) => {
                assert forall|i: int| 0 <= i < items.len() && i < es.len() implies partial(
                    items[i],
                    es[i],
                    prefix.push(Step::Index(i)),
                    pa,
                ) == partial(items[i], es[i], prefix.push(Step::Index(i)), pb) by {
                    let below = prefix.push(Step::Index(i));
                    assert forall|s: Seq<Step>| is_prefix(below, s) implies pa.contains(s)
                        == pb.contains(s) by {
                        lemma_prefix_shorter(prefix, Step::Index(i), s);
                    }
                    lemma_partial_local(items[i], es[i], below, pa, pb);
                }
                assert(partial(actual, expected, prefix, pa)->List_0 =~= partial(
                    actual,
                    expected,
                    prefix,
                    pb,
                )->List_0);
            },
            _ => {},
        }
    }
}

/// Two sets of pending paths that differ only at or below one path, which
/// the first holds and neither holds a path above it: the second partial
/// substitution is the first with the node at that path replaced by its own
/// partial substitution.
pub proof fn lemma_partial_focus(
    actual: Tree,
    expected: Tree,
    prefix: Seq<Step>,
    rest: Seq<Step>,
    pa: Set<Seq<Step>>,
    pb: Set<Seq<Step>>,
)
    requires
        lookup(expected, rest) is Some,
        forall|j: int|
            0 <= j < rest.len() ==> !pa.contains(prefix + rest.subrange(0, j)) && !pb.contains(
                prefix + rest.subrange(0, j),
            ),
        forall|s: Seq<Step>| !is_prefix(prefix + rest, s) ==> (pa.contains(s) == pb.contains(s)),
        pa.contains(prefix + rest),
    ensures
        lookup(partial(actual, expected, prefix, pa), rest) == lookup(actual, rest),
        partial(actual, expected, prefix, pb) == match lookup(actual, rest) {
            Some(n) => replace_at(
                partial(actual, expected, prefix, pa),
                rest,
                partial(n, lookup(expected, rest)->0, prefix + rest, pb),
            ),
            None => partial(actual, expected, prefix, pa),
        },
    decreases rest.len(),
{
    if rest.len() == 0 {
        assert(prefix + rest =~= prefix);
    } else {
        let step = rest[0];
        let rest1 = rest.drop_first();
        let prefix1 = prefix.push(step);
        assert(prefix + rest.subrange(0, 0) =~= prefix);
        assert(prefix1 + rest1 =~= prefix + rest);
        assert((prefix + rest)[prefix.len() as int] == step);
        assert forall|j: int| 0 <= j < rest1.len() implies !pa.contains(
            prefix1 + rest1.subrange(0, j),
        ) && !pb.contains(prefix1 + rest1.subrange(0, j)) by {
            assert(prefix1 + rest1.subrange(0, j) =~= prefix + rest.subrange(0, j + 1));
        }
        let v1 = partial(actual, expected, prefix, pa);
        let v2 = partial(actual, expected, prefix, pb);
        match (expected, step) {
            (Tree::Record(em), Step::Key(k)) => {
                match actual {
                    Tree::Record(am) => {
                        assert forall|k2: Seq<char>|
                            am.contains_key(k2) && em.contains_key(k2) && k2 != k implies partial(
                            am[k2],
                            em[k2],
                            prefix.push(Step::Key(k2)),
                            pa,
                        ) == partial(am[k2], em[k2], prefix.push(Step::Key(k2)), pb) by {
                            let side = prefix.push(Step::Key(k2));
                            assert forall|s: Seq<Step>| is_prefix(side, s) implies pa.contains(s)
                                == pb.contains(s) by {
                                lemma_prefix_shorter(prefix, Step::Key(k2), s);
                                if is_prefix(prefix + rest, s) {
                                    assert(s.subrange(0, (prefix + rest).len() as int)[prefix.len() as int]
                                        == step);
                                }
                            }
                            lemma_partial_local(am[k2], em[k2], side, pa, pb);
                        }
                        if am.contains_key(k) {
                            lemma_partial_focus(am[k], em[k], prefix1, rest1, pa, pb);
                            match lookup(am[k], rest1) {
                                Some(n) => {
                                    assert(v1->Record_0.insert(k, v2->Record_0[k]) =~= v2->Record_0);
                                },
                                None => {
                                    assert(v1->Record_0 =~= v2->Record_0);
                                },
                            }
                        } else {
                            assert(v1->Record_0 =~= v2->Record_0);
                        }
                    },
                    _ => {},
                }
            },
            (Tree::List(es), Step::Index(i)) => {
                match actual {
                    Tree::List(items) => {
                        assert forall|i2: int|
                            0 <= i2 < items.len() && i2 < es.len() && i2 != i implies partial(
                            items[i2],
                            es[i2],
                            prefix.push(Step::Index(i2)),
                            pa,
                        ) == partial(items[i2], es[i2], prefix.push(Step::Index(i2)), pb) by {
                            let side = prefix.push(Step::Index(i2));
                            assert forall|s: Seq<Step>| is_prefix(side, s) implies pa.contains(s)
                                == pb.contains(s) by {
                                lemma_prefix_shorter(prefix, Step::Index(i2), s);
                                if is_prefix(prefix + rest, s) {
                                    assert(s.subrange(0, (prefix + rest).len() as int)[prefix.len() as int]
                                        == step);
                                }
                            }
                            lemma_partial_local(items[i2], es[i2], side, pa, pb);
                        }
                        if 0 <= i < items.len() {
                            lemma_partial_focus(items[i], es[i], prefix1, rest1, pa, pb);
                            match lookup(items[i], rest1) {
                                Some(n) => {
                                    assert(v1->List_0.update(i, v2->List_0[i]) =~= v2->List_0);
                                },
                                None => {
                                    assert(v1->List_0 =~= v2->List_0);
                                },
                            }
                        } else {
                            assert(v1->List_0 =~= v2->List_0);
                        }
                    },
                    _ => {},
                }
            },
            _ => {},
        }
    }
}

/// No node of the tree is the marker.
pub open spec fn marker_free(t: Tree) -> bool {
    forall|path: Seq<Step>| lookup(t, path) != Some(marker())
}

/// A marker accepts whatever stands at its place: two actual trees that
/// differ only in the node at a path where the expected tree holds the
/// marker are the same after substitution.
pub proof fn lemma_marker_accepts_any(actual: Tree, expected: Tree, path: Seq<Step>, x: Tree)
    requires
        lookup(expected, path) == Some(marker()),
    ensures
        substitute(replace_at(actual, path, x), expected) == substitute(actual, expected),
    decreases path.len(),
{
    if path.len() > 0 {
        let step = path[0];
        let rest = path.drop_first();
        let changed = replace_at(actual, path, x);
        match (expected, step) {
            (Tree::Record(em), Step::Key(k)) => {
                match actual {
                    Tree::Record(am) => {
                        if am.contains_key(k) {
                            lemma_marker_accepts_any(am[k], em[k], rest, x);
                            assert(substitute(changed, expected)->Record_0 =~= substitute(
                                actual,
                                expected,
                            )->Record_0);
                        }
                    },
                    _ => {},
                }
            },
            (Tree::List(es), Step::Index(i)) => {
                match actual {
                    Tree::List(items) => {
                        if 0 <= i < items.len() {
                            lemma_marker_accepts_any(items[i], es[i], rest, x);
                            assert(substitute(changed, expected)->List_0 =~= substitute(
                                actual,
                                expected,
                            )->List_0);
                        }
                    },
                    _ => {},
                }
            },
            _ => {},
        }
    }
}

/// Where the expected tree holds no marker, substitution changes nothing:
/// every node of the actual tree is left to be compared by value.
pub proof fn lemma_marker_free_untouched(actual: Tree, expected: Tree)
    requires
        marker_free(expected),
    ensures
        substitute(actual, expected) == actual,
    decreases expected,
{
    assert(lookup(expected, Seq::<Step>::empty()) == Some(expected));
    match (expected, actual) {
        (Tree::Record(em), Tree::Record(am)) => {
            assert forall|k: Seq<char>| am.contains_key(k) && em.contains_key(k) implies substitute(
                am[k],
                em[k],
            ) == am[k] by {
                assert forall|path: Seq<Step>| lookup(em[k], path) != Some(marker()) by {
                    let longer = seq![Step::Key(k)] + path;
                    assert(longer.drop_first() =~= path);
                    assert(lookup(expected, longer) == lookup(em[k], path));
                }
                lemma_marker_free_untouched(am[k], em[k]);
            }
            assert(substitute(actual, expected)->Record_0 =~= am);
        },
        (Tree::List(es), Tree::List(items)) => {
            assert forall|i: int| 0 <= i < items.len() && i < es.len() implies substitute(
                items[i],
                es[i],
            ) == items[i] by {
                assert forall|path: Seq<Step>| lookup(es[i], path) != Some(marker()) by {
                    let longer = seq![Step::Index(i)] + path;
                    assert(longer.drop_first() =~= path);
                    assert(lookup(expected, longer) == lookup(es[i], path));
                }
                lemma_marker_free_untouched(items[i], es[i]);
            }
            assert(substitute(actual, expected)->List_0 =~= items);
        },
        _ => {},
    }
}

} // verus!
