//! Addressing inside the model of a value tree: the node that a path leads
//! to, and the tree with that node replaced.

use vstd::prelude::*;
use crate::path::Step;
use crate::value::Tree;

verus! {

/// The child that one step leads to: a key leads into an object, an index
/// into an array, and nothing else leads anywhere.
pub open spec fn child(t: Tree, step: Step) -> Option<Tree> {
    match (t, step) {
        (Tree::Record(m), Step::Key(k)) => if m.contains_key(k) {
            Some(m[k])
        } else {
            None
        },
        (Tree::List(items), Step::Index(i)) => if 0 <= i < items.len() {
            Some(items[i])
        } else {
            None
        },
        _ => None,
    }
}

/// The tree with the child at `step` replaced by `x`; the tree itself where
/// the step leads nowhere.
pub open spec fn with_child(t: Tree, step: Step, x: Tree) -> Tree {
    match (t, step) {
        (Tree::Record(m), Step::Key(k)) => if m.contains_key(k) {
            Tree::Record(m.insert(k, x))
        } else {
            t
        },
        (Tree::List(items), Step::Index(i)) => if 0 <= i < items.len() {
            Tree::List(items.update(i, x))
        } else {
            t
        },
        _ => t,
    }
}

/// The node that a path leads to, from the root down.
pub open spec fn lookup(t: Tree, path: Seq<Step>) -> Option<Tree>
    decreases path.len(),
{
    if path.len() == 0 {
        Some(t)
    } else {
        match child(t, path[0]) {
            Some(c) => lookup(c, path.drop_first()),
            None => None,
        }
    }
}

/// The tree with the node at `path` replaced by `x`; the tree itself where
/// the path leads nowhere.
pub open spec fn replace_at(t: Tree, path: Seq<Step>, x: Tree) -> Tree
    decreases path.len(),
{
    if path.len() == 0 {
        x
    } else {
        match child(t, path[0]) {
            Some(c) => with_child(t, path[0], replace_at(c, path.drop_first(), x)),
            None => t,
        }
    }
}

/// `p` is a prefix of `s`, or `s` itself.
pub open spec fn is_prefix(p: Seq<Step>, s: Seq<Step>) -> bool {
    p.len() <= s.len() && s.subrange(0, p.len() as int) == p
}

/// Writing back the child that already stands at a step changes nothing.
pub proof fn lemma_with_child_same(t: Tree, step: Step, c: Tree)
    requires
        child(t, step) == Some(c),
    ensures
        with_child(t, step, c) == t,
{
    match (t, step) {
        (Tree::Record(m), Step::Key(k)) => {
            assert(m.insert(k, c) =~= m);
        },
        (Tree::List(items), Step::Index(i)) => {
            assert(items.update(i, c) =~= items);
        },
        _ => {},
    }
}

/// Writing back the node that already stands at a path changes nothing.
pub proof fn lemma_replace_same(t: Tree, path: Seq<Step>, x: Tree)
    requires
        lookup(t, path) == Some(x),
    ensures
        replace_at(t, path, x) == t,
    decreases path.len(),
{
    if path.len() > 0 {
        let c = child(t, path[0])->0;
        lemma_replace_same(c, path.drop_first(), x);
        lemma_with_child_same(t, path[0], c);
    }
}

/// A path that leads nowhere leaves the tree as it is.
pub proof fn lemma_replace_nowhere(t: Tree, path: Seq<Step>, x: Tree)
    requires
        lookup(t, path) is None,
    ensures
        replace_at(t, path, x) == t,
    decreases path.len(),
{
    if path.len() > 0 {
        match child(t, path[0]) {
            Some(c) => {
                lemma_replace_nowhere(c, path.drop_first(), x);
                lemma_with_child_same(t, path[0], c);
            },
            None => {},
        }
    }
}

/// What a prefix with one more step is a prefix of, the prefix is too.
pub proof fn lemma_prefix_shorter(p: Seq<Step>, step: Step, s: Seq<Step>)
    requires
        is_prefix(p.push(step), s),
    ensures
        is_prefix(p, s),
        s.len() > p.len(),
        s[p.len() as int] == step,
{
    let longer = p.push(step);
    assert(s.subrange(0, longer.len() as int)[p.len() as int] == step);
    assert(s.subrange(0, p.len() as int) =~= longer.subrange(0, p.len() as int));
    assert(longer.subrange(0, p.len() as int) =~= p);
}

/// The tree that a chain of nodes stands for, each of which is put at its
/// step into the one before it, with `inner` put into the last.
pub open spec fn plugged(above: Seq<Tree>, steps: Seq<Step>, inner: Tree) -> Tree
    decreases above.len(),
{
    if above.len() == 0 || steps.len() != above.len() {
        inner
    } else {
        plugged(above.drop_last(), steps.drop_last(), with_child(above.last(), steps.last(), inner))
    }
}

/// Replacing below a child that was just put in place is putting the
/// replaced child in place.
pub proof fn lemma_replace_through(t: Tree, step: Step, inner: Tree, rest: Seq<Step>, x: Tree)
    requires
        child(t, step) is Some,
    ensures
        replace_at(with_child(t, step, inner), seq![step] + rest, x) == with_child(
            t,
            step,
            replace_at(inner, rest, x),
        ),
{
    let path = seq![step] + rest;
    assert(path[0] == step);
    assert(path.drop_first() =~= rest);
    match (t, step) {
        (Tree::Record(m), Step::Key(k)) => {
            assert(m.insert(k, inner).insert(k, replace_at(inner, rest, x)) =~= m.insert(
                k,
                replace_at(inner, rest, x),
            ));
        },
        (Tree::List(items), Step::Index(i)) => {
            assert(items.update(i, inner).update(i, replace_at(inner, rest, x)) =~= items.update(
                i,
                replace_at(inner, rest, x),
            ));
        },
        _ => {},
    }
}

/// Replacing a node below the end of a chain is replacing it in what the
/// chain holds at its end.
pub proof fn lemma_replace_plugged(
    above: Seq<Tree>,
    steps: Seq<Step>,
    inner: Tree,
    rest: Seq<Step>,
    x: Tree,
)
    requires
        above.len() == steps.len(),
        forall|k: int| 0 <= k < above.len() ==> child(above[k], steps[k]) is Some,
    ensures
        replace_at(plugged(above, steps, inner), steps + rest, x) == plugged(
            above,
            steps,
            replace_at(inner, rest, x),
        ),
    decreases above.len(),
{
    if above.len() == 0 {
        assert(steps + rest =~= rest);
    } else {
        let p = above.last();
        let s = steps.last();
        let longer = seq![s] + rest;
        assert(steps.drop_last() + longer =~= steps + rest);
        lemma_replace_plugged(above.drop_last(), steps.drop_last(), with_child(p, s, inner), longer, x);
        lemma_replace_through(p, s, inner, rest, x);
    }
}

/// Taking a child out and putting it back leaves the node as it was.
pub proof fn lemma_put_back(t: Tree, step: Step, hole: Tree)
    requires
        child(t, step) is Some,
    ensures
        child(with_child(t, step, hole), step) == Some(hole),
        with_child(with_child(t, step, hole), step, child(t, step)->0) == t,
{
    let c = child(t, step)->0;
    match (t, step) {
        (Tree::Record(m), Step::Key(k)) => {
            assert(m.insert(k, hole).insert(k, c) =~= m);
        },
        (Tree::List(items), Step::Index(i)) => {
            assert(items.update(i, hole).update(i, c) =~= items);
        },
        _ => {},
    }
}

} // verus!
