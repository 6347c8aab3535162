//! Reading and replacing the node of a value tree that a path leads to.

use vstd::prelude::*;
use crate::path::{path_view, PathSegment, Step};
use crate::tree::{
    child, lemma_put_back, lemma_replace_plugged, lookup, plugged, replace_at, with_child,
};
use crate::value::{
    entry_keys, find_key, first_index, is_first, lemma_first_index_is, lemma_first_index_range,
    list_of, record_of, ResponseValue, Tree,
};

verus! {

/// The child value that one step leads to: the first member with the key,
/// or the item at the index.
pub open spec fn item_at(v: ResponseValue, step: Step) -> Option<ResponseValue> {
    match (v, step) {
        (ResponseValue::Object(entries), Step::Key(k)) => {
            let i = first_index(entry_keys(entries@), k);
            if 0 <= i < entries@.len() {
                Some(entries@[i].1)
            } else {
                None
            }
        },
        (ResponseValue::Array(items), Step::Index(i)) => if 0 <= i < items@.len() {
            Some(items@[i])
        } else {
            None
        },
        _ => None,
    }
}

/// The value that a path leads to, from the root down.
pub open spec fn node_at(v: ResponseValue, path: Seq<Step>) -> Option<ResponseValue>
    decreases path.len(),
{
    if path.len() == 0 {
        Some(v)
    } else {
        match item_at(v, path[0]) {
            Some(c) => node_at(c, path.drop_first()),
            None => None,
        }
    }
}

/// The model of the child value is the child of the model.
pub proof fn lemma_item_model(v: ResponseValue, step: Step)
    ensures
        child(v@, step) == match item_at(v, step) {
            Some(c) => Some(c@),
            None => None,
        },
{
    match (v, step) {
        (ResponseValue::Object(entries), Step::Key(k)) => {
            lemma_first_index_range(entry_keys(entries@), k);
        },
        (ResponseValue::Array(items), Step::Index(i)) => {},
        _ => {},
    }
}

/// The model of the value at a path is the node of the model at that path.
pub proof fn lemma_node_model(v: ResponseValue, path: Seq<Step>)
    ensures
        lookup(v@, path) == match node_at(v, path) {
            Some(n) => Some(n@),
            None => None,
        },
    decreases path.len(),
{
    if path.len() > 0 {
        lemma_item_model(v, path[0]);
        match item_at(v, path[0]) {
            Some(c) => {
                lemma_node_model(c, path.drop_first());
            },
            None => {},
        }
    }
}

/// A path with one more step leads to the child of the value that the path
/// leads to.
pub proof fn lemma_node_push(v: ResponseValue, path: Seq<Step>, step: Step)
    ensures
        node_at(v, path.push(step)) == match node_at(v, path) {
            Some(n) => item_at(n, step),
            None => None,
        },
    decreases path.len(),
{
    let longer = path.push(step);
    if path.len() == 0 {
        assert(longer.drop_first() =~= Seq::<Step>::empty());
        assert(longer[0] == step);
        match item_at(v, step) {
            Some(c) => {
                assert(node_at(c, longer.drop_first()) == Some(c));
            },
            None => {},
        }
    } else {
        assert(longer[0] == path[0]);
        assert(longer.drop_first() =~= path.drop_first().push(step));
        match item_at(v, path[0]) {
            Some(c) => {
                lemma_node_push(c, path.drop_first(), step);
            },
            None => {},
        }
    }
}

impl ResponseValue {
    /// The child that one step leads to.
    pub fn step_into(&self, segment: &PathSegment) -> (found: Option<&ResponseValue>)
        ensures
            item_at(*self, segment@) == match found {
                Some(c) => Some(*c),
                None => None,
            },
    {
        match self {
            ResponseValue::Object(entries) => {
                match segment {
                    PathSegment::Key(k) => {
                        match find_key(entries, k.as_str()) {
                            Some(i) => Some(&entries[i].1),
                            None => None,
                        }
                    },
                    PathSegment::Index(_) => None,
                }
            },
            ResponseValue::Array(items) => {
                match segment {
                    PathSegment::Index(i) => {
                        if *i < items.len() {
                            Some(&items[*i])
                        } else {
                            None
                        }
                    },
                    PathSegment::Key(_) => None,
                }
            },
            _ => None,
        }
    }

    /// The node that a path leads to, if it leads anywhere.
    pub fn at(&self, path: &[PathSegment]) -> (found: Option<&ResponseValue>)
        ensures
            node_at(*self, path_view(path@)) == match found {
                Some(n) => Some(*n),
                None => None,
            },
            lookup(self@, path_view(path@)) == match found {
                Some(n) => Some(n@),
                None => None,
            },
    {
        let ghost steps = path_view(path@);
        let mut node: &ResponseValue = self;
        let mut i: usize = 0;
        proof {
            assert(steps.skip(0) =~= steps);
        }
        while i < path.len()
            invariant
                0 <= i <= path@.len(),
                steps == path_view(path@),
                node_at(*self, steps) == node_at(*node, steps.skip(i as int)),
            decreases path@.len() - i,
        {
            proof {
                assert(steps.skip(i as int)[0] == path@[i as int]@);
                assert(steps.skip(i as int).drop_first() =~= steps.skip(i + 1));
            }
            match node.step_into(&path[i]) {
                Some(c) => {
                    node = c;
                },
                None => {
                    proof {
                        lemma_node_model(*self, steps);
                    }
                    return None;
                },
            }
            i += 1;
        }
        proof {
            lemma_node_model(*self, steps);
        }
        Some(node)
    }

    /// Puts `other` in the place of the child that one step leads to and
    /// hands the child out in `other`; where the step leads nowhere, both
    /// stay as they are.
    fn swap_child(&mut self, segment: &PathSegment, other: &mut ResponseValue) -> (found: bool)
        ensures
            match child(old(self)@, segment@) {
                Some(c) => found && final(other)@ == c && final(self)@ == with_child(
                    old(self)@,
                    segment@,
                    old(other)@,
                ),
                None => !found && final(self)@ == old(self)@ && final(other)@ == old(other)@,
            },
    {
        proof {
            lemma_item_model(*self, segment@);
        }
        match self {
            ResponseValue::Object(entries) => {
                match segment {
                    PathSegment::Key(k) => {
                        match find_key(entries, k.as_str()) {
                            Some(i) => {
                                let ghost before = entries@;
                                std::mem::swap(other, &mut entries[i].1);
                                proof {
                                    lemma_member_replaced(before, entries@, k@, i as int);
                                }
                                true
                            },
                            None => false,
                        }
                    },
                    PathSegment::Index(_) => false,
                }
            },
            ResponseValue::Array(items) => {
                match segment {
                    PathSegment::Index(i) => {
                        if *i < items.len() {
                            let ghost before = items@;
                            std::mem::swap(other, &mut items[*i]);
                            assert(list_of(items@) =~= list_of(before).update(
                                *i as int,
                                items@[*i as int]@,
                            ));
                            true
                        } else {
                            false
                        }
                    },
                    PathSegment::Key(_) => false,
                }
            },
            _ => false,
        }
    }

    /// Replaces the node that the path leads to by `value`; where the path
    /// leads nowhere the tree stays as it is. The way down and the way back
    /// up are two loops over the path: the nodes above the place are taken
    /// out one from the other, kept on a list, and put back.
    pub fn put_at(&mut self, path: &[PathSegment], value: ResponseValue)
        ensures
            final(self)@ == replace_at(old(self)@, path_view(path@), value@),
    {
        let ghost steps = path_view(path@);
        let ghost start = self@;
        let ghost target = replace_at(start, steps, value@);
        let mut node = ResponseValue::Null;
        std::mem::swap(&mut node, self);
        let mut above: Vec<ResponseValue> = Vec::new();
        let mut leads = true;
        proof {
            assert(steps.subrange(0, 0) =~= Seq::<Step>::empty());
        }
        while leads && above.len() < path.len()
            invariant
                above@.len() <= path@.len(),
                steps == path_view(path@),
                start == plugged(list_of(above@), steps.subrange(0, above@.len() as int), node@),
                forall|k: int|
                    0 <= k < above@.len() ==> child(#[trigger] list_of(above@)[k], steps[k]) is Some,
                !leads ==> above@.len() < path@.len() && child(node@, steps[above@.len() as int])
                    is None,
            decreases path@.len() - above@.len() + if leads { 1nat } else { 0nat },
        {
            let depth = above.len();
            let ghost chain = list_of(above@);
            let ghost whole = node@;
            let ghost step = steps[depth as int];
            assert(step == path@[depth as int]@);
            let mut below = ResponseValue::Null;
            if node.swap_child(&path[depth], &mut below) {
                proof {
                    lemma_put_back(whole, step, Tree::Null);
                }
                above.push(node);
                node = below;
                proof {
                    let longer = list_of(above@);
                    let taken = steps.subrange(0, depth + 1);
                    assert(longer =~= chain.push(with_child(whole, step, Tree::Null)));
                    assert(longer.drop_last() =~= chain);
                    assert(taken.drop_last() =~= steps.subrange(0, depth as int));
                    assert(taken.last() == step);
                }
            } else {
                leads = false;
            }
        }
        let ghost depth = above@.len() as int;
        proof {
            let chain = list_of(above@);
            let taken = steps.subrange(0, depth);
            let rest = steps.subrange(depth, steps.len() as int);
            assert(taken + rest =~= steps);
            assert forall|k: int| 0 <= k < chain.len() implies child(chain[k], taken[k]) is Some by {
                assert(taken[k] == steps[k]);
            }
            lemma_replace_plugged(chain, taken, node@, rest, value@);
            if !leads {
                assert(rest[0] == steps[depth]);
            }
        }
        if leads {
            node = value;
        }
        while above.len() > 0
            invariant
                above@.len() <= path@.len(),
                steps == path_view(path@),
                target == plugged(list_of(above@), steps.subrange(0, above@.len() as int), node@),
                forall|k: int|
                    0 <= k < above@.len() ==> child(#[trigger] list_of(above@)[k], steps[k]) is Some,
            decreases above@.len(),
        {
            let ghost chain = list_of(above@);
            let ghost taken = steps.subrange(0, above@.len() as int);
            let mut parent = above.pop().unwrap();
            let level = above.len();
            proof {
                assert(chain.last() == parent@);
                assert(chain.drop_last() =~= list_of(above@));
                assert(taken.last() == steps[level as int]);
                assert(taken.drop_last() =~= steps.subrange(0, level as int));
                assert(steps[level as int] == path@[level as int]@);
                assert(child(chain[level as int], steps[level as int]) is Some);
                assert forall|k: int| 0 <= k < above@.len() implies child(
                    #[trigger] list_of(above@)[k],
                    steps[k],
                ) is Some by {
                    assert(list_of(above@)[k] == chain[k]);
                }
            }
            parent.swap_child(&path[level], &mut node);
            node = parent;
        }
        *self = node;
    }
}

/// A member list in which the value of the first member with a key was
/// replaced stands for the same object with that key's value replaced.
pub proof fn lemma_member_replaced(
    before: Seq<(String, ResponseValue)>,
    after: Seq<(String, ResponseValue)>,
    key: Seq<char>,
    i: int,
)
    requires
        is_first(entry_keys(before), key, i),
        after.len() == before.len(),
        forall|j: int| 0 <= j < before.len() ==> after[j].0@ == before[j].0@,
        forall|j: int| 0 <= j < before.len() && j != i ==> after[j].1@ == before[j].1@,
    ensures
        record_of(after) == record_of(before).insert(key, after[i].1@),
{
    assert(entry_keys(after) =~= entry_keys(before));
    lemma_first_index_is(entry_keys(before), key, i);
    assert forall|k: Seq<char>| record_of(after).contains_key(k) implies record_of(after)[k]
        == record_of(before).insert(key, after[i].1@)[k] by {
        lemma_first_index_range(entry_keys(before), k);
    }
    assert(record_of(after) =~= record_of(before).insert(key, after[i].1@));
}

} // verus!
