//! Marker substitution by an explicit work list of paths, so that the depth
//! of a tree costs no call stack.

use vstd::prelude::*;
use vstd::string::StringExecFns;
use crate::access::{item_at, lemma_item_model, lemma_node_model, lemma_node_push, node_at};
use crate::path::{path_view, PathSegment, Step};
use crate::text::same_text;
use crate::tree::{
    child, is_prefix, lemma_prefix_shorter, lemma_replace_nowhere, lemma_replace_same, lookup,
    replace_at,
};
use crate::value::{
    entry_keys, find_key, first_index, is_first, lemma_first_index_is, lemma_first_index_range,
    ResponseValue, Tree,
};
use crate::wildcard::{
    is_marker, lemma_partial_done, lemma_partial_focus, marker, partial, substitute,
};

verus! {

/// The number of nodes of a value tree.
pub open spec fn count(v: ResponseValue) -> nat
    decreases v, 0nat,
{
    match v {
        ResponseValue::Array(items) => 1 + count_items(items@, items@.len()),
        ResponseValue::Object(entries) => 1 + count_members(entries@, entries@.len()),
        _ => 1,
    }
}

/// The number of nodes of the first `n` items.
pub open spec fn count_items(items: Seq<ResponseValue>, n: nat) -> nat
    decreases items, n,
{
    if n == 0 || n > items.len() {
        0
    } else {
        count_items(items, (n - 1) as nat) + count(items[n - 1])
    }
}

/// The number of nodes of the first `n` members.
pub open spec fn count_members(entries: Seq<(String, ResponseValue)>, n: nat) -> nat
    decreases entries, n,
{
    if n == 0 || n > entries.len() {
        0
    } else {
        count_members(entries, (n - 1) as nat) + count(entries[n - 1].1)
    }
}

/// The models of the paths on a work list.
pub open spec fn stack_view(stack: Seq<Vec<PathSegment>>) -> Seq<Seq<Step>> {
    Seq::new(stack.len(), |i: int| path_view(stack[i]@))
}

/// The paths of a work list, as a set.
pub open spec fn pending(paths: Seq<Seq<Step>>) -> Set<Seq<Step>> {
    Set::new(|s: Seq<Step>| exists|i: int| 0 <= i < paths.len() && paths[i] == s)
}

/// No path of the list is a prefix of another, nor stands in it twice.
pub open spec fn antichain(paths: Seq<Seq<Step>>) -> bool {
    forall|i: int, j: int|
        0 <= i < paths.len() && 0 <= j < paths.len() && i != j ==> !is_prefix(paths[i], paths[j])
}

/// The number of nodes below and at a path of the expected tree.
pub open spec fn weight(expected: ResponseValue, path: Seq<Step>) -> nat {
    match node_at(expected, path) {
        Some(n) => count(n),
        None => 0,
    }
}

/// The work that a list of paths still stands for.
pub open spec fn total(expected: ResponseValue, paths: Seq<Seq<Step>>) -> nat
    decreases paths.len(),
{
    if paths.len() == 0 {
        0
    } else {
        total(expected, paths.drop_last()) + weight(expected, paths.last())
    }
}

/// A node whose children are all pending and which is neither pending nor
/// the marker is left as it is.
pub proof fn lemma_children_pending(
    actual: Tree,
    expected: Tree,
    prefix: Seq<Step>,
    pend: Set<Seq<Step>>,
)
    requires
        !is_marker(expected),
        forall|step: Step| child(expected, step) is Some ==> pend.contains(prefix.push(step)),
    ensures
        partial(actual, expected, prefix, pend) == actual,
{
    if !pend.contains(prefix) {
        match (expected, actual) {
            (Tree::Record(em), Tree::Record(am)) => {
                assert forall|k: Seq<char>| am.contains_key(k) && em.contains_key(k) implies partial(
                    am[k],
                    em[k],
                    prefix.push(Step::Key(k)),
                    pend,
                ) == am[k] by {
                    assert(child(expected, Step::Key(k)) is Some);
                }
                assert(partial(actual, expected, prefix, pend)->Record_0 =~= am);
            },
            (Tree::List(es), Tree::List(items)) => {
                assert forall|i: int| 0 <= i < items.len() && i < es.len() implies partial(
                    items[i],
                    es[i],
                    prefix.push(Step::Index(i)),
                    pend,
                ) == items[i] by {
                    assert(child(expected, Step::Index(i)) is Some);
                }
                assert(partial(actual, expected, prefix, pend)->List_0 =~= items);
            },
            _ => {},
        }
    }
}

/// One turn of the work list: the last path leaves it and paths below that
/// one may join it. The partial substitution then changes at that path only.
pub proof fn lemma_worklist_step(
    actual: Tree,
    expected: Tree,
    p: Seq<Step>,
    before: Seq<Seq<Step>>,
    after: Seq<Seq<Step>>,
)
    requires
        antichain(before),
        before.len() > 0,
        before.last() == p,
        lookup(expected, p) is Some,
        after.len() >= before.len() - 1,
        after.subrange(0, before.len() - 1) == before.drop_last(),
        forall|j: int|
            before.len() - 1 <= j < after.len() ==> is_prefix(p, #[trigger] after[j])
                && after[j].len() > p.len(),
    ensures
        !pending(after).contains(p),
        lookup(partial(actual, expected, Seq::empty(), pending(before)), p) == lookup(actual, p),
        partial(actual, expected, Seq::empty(), pending(after)) == match lookup(actual, p) {
            Some(n) => replace_at(
                partial(actual, expected, Seq::empty(), pending(before)),
                p,
                partial(n, lookup(expected, p)->0, p, pending(after)),
            ),
            None => partial(actual, expected, Seq::empty(), pending(before)),
        },
{
    let root = Seq::<Step>::empty();
    let last = before.len() - 1;
    assert(root + p =~= p);
    assert(p.subrange(0, p.len() as int) =~= p);
    assert(pending(before).contains(p)) by {
        assert(before[last] == p);
    }
    assert forall|j: int| 0 <= j < after.len() implies #[trigger] after[j] != p by {
        if j < last {
            assert(after[j] == after.subrange(0, last)[j]);
            assert(after[j] == before[j]);
            if before[j] == p {
                assert(is_prefix(before[j], before[last]));
            }
        }
    }
    assert forall|j: int| 0 <= j < p.len() implies !pending(before).contains(
        root + p.subrange(0, j),
    ) && !pending(after).contains(root + p.subrange(0, j)) by {
        let short = p.subrange(0, j);
        assert(root + short =~= short);
        assert(is_prefix(short, p));
        if pending(before).contains(short) {
            let i = choose|i: int| 0 <= i < before.len() && before[i] == short;
            assert(is_prefix(before[i], before[last]));
        }
        if pending(after).contains(short) {
            let i = choose|i: int| 0 <= i < after.len() && after[i] == short;
            if i < last {
                assert(after[i] == after.subrange(0, last)[i]);
                assert(is_prefix(before[i], before[last]));
            }
        }
    }
    assert forall|s: Seq<Step>| !is_prefix(root + p, s) implies (pending(before).contains(s)
        == pending(after).contains(s)) by {
        if pending(before).contains(s) {
            let i = choose|i: int| 0 <= i < before.len() && before[i] == s;
            assert(i != last);
            assert(after[i] == after.subrange(0, last)[i]);
        }
        if pending(after).contains(s) {
            let i = choose|i: int| 0 <= i < after.len() && after[i] == s;
            assert(i < last);
            assert(after[i] == after.subrange(0, last)[i]);
            assert(before[i] == s);
        }
    }
    lemma_partial_focus(actual, expected, root, p, pending(before), pending(after));
}

/// Adding a path to a list adds its weight.
pub proof fn lemma_total_push(expected: ResponseValue, paths: Seq<Seq<Step>>, p: Seq<Step>)
    ensures
        total(expected, paths.push(p)) == total(expected, paths) + weight(expected, p),
{
    assert(paths.push(p).drop_last() =~= paths);
}

/// Whether an expected node is the marker.
pub fn is_ignore(expected: &ResponseValue) -> (ignore: bool)
    ensures
        ignore == is_marker(expected@),
{
    match expected {
        ResponseValue::Text(s) => same_text(s.as_str(), "ignore"),
        _ => false,
    }
}

/// A copy of a path.
fn copy_path(path: &Vec<PathSegment>) -> (out: Vec<PathSegment>)
    ensures
        path_view(out@) == path_view(path@),
{
    let mut out: Vec<PathSegment> = Vec::new();
    let mut i: usize = 0;
    while i < path.len()
        invariant
            0 <= i <= path@.len(),
            out@.len() == i,
            forall|j: int| 0 <= j < i ==> out@[j]@ == path@[j]@,
        decreases path@.len() - i,
    {
        out.push(path[i].clone());
        i += 1;
    }
    assert(path_view(out@) =~= path_view(path@));
    out
}

/// A child path of `p` beside a list that forms an antichain with `p`: the
/// list with the child added is an antichain too, if no other child in it
/// has the same last step.
proof fn lemma_antichain_child(base: Seq<Seq<Step>>, now: Seq<Seq<Step>>, p: Seq<Step>, step: Step)
    requires
        antichain(base.push(p)),
        antichain(now),
        now.len() >= base.len(),
        now.subrange(0, base.len() as int) == base,
        forall|j: int|
            base.len() <= j < now.len() ==> exists|other: Step|
                #[trigger] now[j] == p.push(other) && other != step,
    ensures
        antichain(now.push(p.push(step))),
{
    let c = p.push(step);
    let next = now.push(c);
    let with_p = base.push(p);
    assert forall|i: int, j: int|
        0 <= i < next.len() && 0 <= j < next.len() && i != j implies !is_prefix(
        next[i],
        next[j],
    ) by {
        if i < now.len() && j < now.len() {
        } else {
            let t = if i < now.len() {
                next[i]
            } else {
                next[j]
            };
            let ti = if i < now.len() {
                i
            } else {
                j
            };
            if ti < base.len() {
                assert(now[ti] == now.subrange(0, base.len() as int)[ti]);
                assert(with_p[ti] == t);
                assert(with_p[base.len() as int] == p);
                assert(!is_prefix(t, p));
                assert(!is_prefix(p, t));
                if is_prefix(c, t) {
                    lemma_prefix_shorter(p, step, t);
                }
                if is_prefix(t, c) {
                    if t.len() <= p.len() {
                        assert(t =~= p.subrange(0, t.len() as int)) by {
                            assert(c.subrange(0, t.len() as int) =~= p.subrange(0, t.len() as int));
                        }
                    } else {
                        assert(c.subrange(0, t.len() as int) =~= c);
                        assert(t.subrange(0, p.len() as int) =~= p);
                    }
                }
            } else {
                let other = choose|other: Step| now[ti] == p.push(other) && other != step;
                assert(t == p.push(other));
                if is_prefix(c, t) {
                    assert(t.subrange(0, c.len() as int) =~= t);
                    assert(t[p.len() as int] == other);
                    assert(c[p.len() as int] == step);
                }
                if is_prefix(t, c) {
                    assert(c.subrange(0, t.len() as int) =~= c);
                    assert(t[p.len() as int] == other);
                    assert(c[p.len() as int] == step);
                }
            }
        }
    }
}

/// Puts the paths of the children of `node`, which stands at `path` in the
/// expected tree, on the work list.
fn push_children(
    stack: &mut Vec<Vec<PathSegment>>,
    path: &Vec<PathSegment>,
    node: &ResponseValue,
    Ghost(expected): Ghost<ResponseValue>,
)
    requires
        node_at(expected, path_view(path@)) == Some(*node),
        antichain(stack_view(old(stack)@).push(path_view(path@))),
        forall|i: int|
            0 <= i < old(stack)@.len() ==> node_at(
                expected,
                #[trigger] stack_view(old(stack)@)[i],
            ) is Some,
    ensures
        final(stack)@.len() >= old(stack)@.len(),
        stack_view(final(stack)@).subrange(0, old(stack)@.len() as int) == stack_view(
            old(stack)@,
        ),
        forall|j: int|
            old(stack)@.len() <= j < final(stack)@.len() ==> is_prefix(
                path_view(path@),
                #[trigger] stack_view(final(stack)@)[j],
            ) && stack_view(final(stack)@)[j].len() > path@.len(),
        forall|step: Step|
            item_at(*node, step) is Some ==> pending(stack_view(final(stack)@)).contains(
                #[trigger] path_view(path@).push(step),
            ),
        antichain(stack_view(final(stack)@)),
        forall|i: int|
            0 <= i < final(stack)@.len() ==> node_at(
                expected,
                #[trigger] stack_view(final(stack)@)[i],
            ) is Some,
        total(expected, stack_view(final(stack)@)) + 1 <= total(expected, stack_view(old(stack)@))
            + count(*node),
{
    let ghost p = path_view(path@);
    let ghost base = stack_view(stack@);
    proof {
        assert(base.subrange(0, base.len() as int) =~= base);
        assert(antichain(base)) by {
            let with_p = base.push(p);
            assert forall|i: int, j: int|
                0 <= i < base.len() && 0 <= j < base.len() && i != j implies !is_prefix(
                base[i],
                base[j],
            ) by {
                assert(with_p[i] == base[i] && with_p[j] == base[j]);
            }
        }
    }
    match node {
        ResponseValue::Object(entries) => {
            let ghost keys = entry_keys(entries@);
            let mut i: usize = 0;
            while i < entries.len()
                invariant
                    0 <= i <= entries@.len(),
                    *node == ResponseValue::Object(*entries),
                    keys == entry_keys(entries@),
                    p == path_view(path@),
                    base == stack_view(old(stack)@),
                    node_at(expected, p) == Some(*node),
                    antichain(base.push(p)),
                    stack@.len() >= base.len(),
                    stack_view(stack@).subrange(0, base.len() as int) == base,
                    forall|j: int|
                        base.len() <= j < stack@.len() ==> exists|f: int|
                            0 <= f < i && is_first(keys, keys[f], f) && #[trigger] stack_view(
                                stack@,
                            )[j] == p.push(Step::Key(keys[f])),
                    forall|f: int|
                        0 <= f < i && is_first(keys, keys[f], f) ==> pending(
                            stack_view(stack@),
                        ).contains(#[trigger] p.push(Step::Key(keys[f]))),
                    antichain(stack_view(stack@)),
                    forall|j: int|
                        0 <= j < stack@.len() ==> node_at(
                            expected,
                            #[trigger] stack_view(stack@)[j],
                        ) is Some,
                    total(expected, stack_view(stack@)) <= total(expected, base) + count_members(
                        entries@,
                        i as nat,
                    ),
                decreases entries@.len() - i,
            {
                let first = find_key(entries, entries[i].0.as_str());
                if first == Some(i) {
                    let mut below = copy_path(path);
                    below.push(PathSegment::Key(entries[i].0.clone()));
                    let ghost now = stack_view(stack@);
                    let ghost step = Step::Key(keys[i as int]);
                    proof {
                        assert(path_view(below@) =~= p.push(step));
                        lemma_node_push(expected, p, step);
                        lemma_first_index_is(keys, keys[i as int], i as int);
                        lemma_total_push(expected, now, p.push(step));
                        assert forall|j: int| base.len() <= j < now.len() implies exists|
                            other: Step,
                        |
                            #[trigger] now[j] == p.push(other) && other != step by {
                            let f = choose|f: int|
                                0 <= f < i && is_first(keys, keys[f], f) && now[j] == p.push(
                                    Step::Key(keys[f]),
                                );
                            assert(now[j] == p.push(Step::Key(keys[f])) && Step::Key(keys[f])
                                != step);
                        }
                        lemma_antichain_child(base, now, p, step);
                    }
                    stack.push(below);
                    proof {
                        let next = stack_view(stack@);
                        assert(next =~= now.push(p.push(step)));
                        assert(next.subrange(0, base.len() as int) =~= now.subrange(
                            0,
                            base.len() as int,
                        ));
                        assert forall|j: int| base.len() <= j < stack@.len() implies exists|f: int|
                            0 <= f < i + 1 && is_first(keys, keys[f], f) && #[trigger] next[j]
                                == p.push(Step::Key(keys[f])) by {
                            if j < now.len() {
                                let f = choose|f: int|
                                    0 <= f < i && is_first(keys, keys[f], f) && now[j] == p.push(
                                        Step::Key(keys[f]),
                                    );
                                assert(is_first(keys, keys[f], f) && next[j] == p.push(
                                    Step::Key(keys[f]),
                                ));
                            } else {
                                assert(is_first(keys, keys[i as int], i as int) && next[j]
                                    == p.push(Step::Key(keys[i as int])));
                            }
                        }
                        assert forall|f: int|
                            0 <= f < i + 1 && is_first(keys, keys[f], f) implies pending(
                            next,
                        ).contains(#[trigger] p.push(Step::Key(keys[f]))) by {
                            if f < i {
                                assert(pending(now).contains(p.push(Step::Key(keys[f]))));
                                let w = choose|w: int|
                                    0 <= w < now.len() && now[w] == p.push(Step::Key(keys[f]));
                                assert(next[w] == p.push(Step::Key(keys[f])));
                            } else {
                                assert(next[now.len() as int] == p.push(Step::Key(keys[f])));
                            }
                        }
                        assert forall|j: int| 0 <= j < stack@.len() implies node_at(
                            expected,
                            #[trigger] next[j],
                        ) is Some by {
                            if j < now.len() {
                                assert(next[j] == now[j]);
                            }
                        }
                    }
                }
                i += 1;
            }
            proof {
                let last = stack_view(stack@);
                assert forall|j: int| base.len() <= j < stack@.len() implies is_prefix(
                    p,
                    #[trigger] last[j],
                ) && last[j].len() > path@.len() by {
                    let f = choose|f: int|
                        0 <= f < i && is_first(keys, keys[f], f) && last[j] == p.push(
                            Step::Key(keys[f]),
                        );
                    assert(last[j].subrange(0, p.len() as int) =~= p);
                }
                assert forall|step: Step| item_at(*node, step) is Some implies pending(
                    last,
                ).contains(#[trigger] p.push(step)) by {
                    match step {
                        Step::Key(k) => {
                            lemma_first_index_range(keys, k);
                            let f = first_index(keys, k);
                            assert(is_first(keys, keys[f], f));
                        },
                        Step::Index(_) => {},
                    }
                }
            }
        },
        ResponseValue::Array(items) => {
            let mut i: usize = 0;
            while i < items.len()
                invariant
                    0 <= i <= items@.len(),
                    *node == ResponseValue::Array(*items),
                    p == path_view(path@),
                    base == stack_view(old(stack)@),
                    node_at(expected, p) == Some(*node),
                    antichain(base.push(p)),
                    stack@.len() == base.len() + i,
                    stack_view(stack@).subrange(0, base.len() as int) == base,
                    forall|j: int|
                        base.len() <= j < stack@.len() ==> #[trigger] stack_view(stack@)[j]
                            == p.push(Step::Index(j - base.len())),
                    antichain(stack_view(stack@)),
                    forall|j: int|
                        0 <= j < stack@.len() ==> node_at(
                            expected,
                            #[trigger] stack_view(stack@)[j],
                        ) is Some,
                    total(expected, stack_view(stack@)) <= total(expected, base) + count_items(
                        items@,
                        i as nat,
                    ),
                decreases items@.len() - i,
            {
                let mut below = copy_path(path);
                below.push(PathSegment::Index(i));
                let ghost now = stack_view(stack@);
                let ghost step = Step::Index(i as int);
                proof {
                    assert(path_view(below@) =~= p.push(step));
                    lemma_node_push(expected, p, step);
                    lemma_total_push(expected, now, p.push(step));
                    assert forall|j: int| base.len() <= j < now.len() implies exists|other: Step|
                        #[trigger] now[j] == p.push(other) && other != step by {
                        let other = Step::Index(j - base.len());
                        assert(now[j] == p.push(other) && other != step);
                    }
                    lemma_antichain_child(base, now, p, step);
                }
                stack.push(below);
                proof {
                    let next = stack_view(stack@);
                    assert(next =~= now.push(p.push(step)));
                    assert(next.subrange(0, base.len() as int) =~= now.subrange(
                        0,
                        base.len() as int,
                    ));
                    assert forall|j: int| 0 <= j < stack@.len() implies node_at(
                        expected,
                        #[trigger] next[j],
                    ) is Some by {
                        if j < now.len() {
                            assert(next[j] == now[j]);
                        }
                    }
                    assert forall|j: int| base.len() <= j < stack@.len() implies #[trigger] next[j]
                        == p.push(Step::Index(j - base.len())) by {
                        if j < now.len() {
                            assert(next[j] == now[j]);
                        }
                    }
                }
                i += 1;
            }
            proof {
                let last = stack_view(stack@);
                assert forall|j: int| base.len() <= j < stack@.len() implies is_prefix(
                    p,
                    #[trigger] last[j],
                ) && last[j].len() > path@.len() by {
                    assert(last[j].subrange(0, p.len() as int) =~= p);
                }
                assert forall|step: Step| item_at(*node, step) is Some implies pending(
                    last,
                ).contains(#[trigger] p.push(step)) by {
                    match step {
                        Step::Index(n) => {
                            assert(last[base.len() + n] == p.push(step));
                        },
                        Step::Key(_) => {},
                    }
                }
            }
        },
        _ => {
            proof {
                assert(stack_view(stack@).subrange(0, base.len() as int) =~= base);
            }
        },
    }
}

/// Resolves the markers of `expected` in `resp`: every node of `resp` whose
/// path leads to a marker in `expected` becomes the marker itself, and the
/// rest of `resp` stays. The walk keeps the paths still to visit on a work
/// list; reading the node at a path and replacing it are loops over the
/// path, so the depth of the trees costs no call stack. `expected` is only
/// read.
pub fn sanitize_resp_by_expected(resp: &mut ResponseValue, expected: &mut ResponseValue)
    ensures
        final(resp)@ == substitute(old(resp)@, old(expected)@),
        *final(expected) == *old(expected),
{
    let ghost start = resp@;
    let ghost root = Seq::<Step>::empty();
    let mut stack: Vec<Vec<PathSegment>> = Vec::new();
    stack.push(Vec::new());
    proof {
        let paths = stack_view(stack@);
        assert(path_view(stack@[0]@) =~= root);
        assert(paths[0] == root);
        assert(pending(paths).contains(root));
    }
    while stack.len() > 0
        invariant
            *expected == *old(expected),
            start == old(resp)@,
            antichain(stack_view(stack@)),
            forall|i: int|
                0 <= i < stack@.len() ==> node_at(
                    *expected,
                    #[trigger] stack_view(stack@)[i],
                ) is Some,
            resp@ == partial(start, expected@, Seq::empty(), pending(stack_view(stack@))),
        decreases total(*expected, stack_view(stack@)),
    {
        let ghost before = stack_view(stack@);
        let ghost current = resp@;
        let path = stack.pop().unwrap();
        let ghost p = path_view(path@);
        let ghost rest = stack_view(stack@);
        proof {
            assert(before.last() == p);
            assert(rest =~= before.drop_last());
            assert(before =~= rest.push(p));
            assert(node_at(*expected, before[before.len() - 1]) is Some);
            lemma_node_model(*expected, p);
            lemma_total_push(*expected, rest, p);
            assert forall|i: int| 0 <= i < rest.len() implies node_at(
                *expected,
                #[trigger] rest[i],
            ) is Some by {
                assert(rest[i] == before[i]);
            }
        }
        match expected.at(path.as_slice()) {
            Some(node) => {
                if is_ignore(node) {
                    resp.put_at(path.as_slice(), ResponseValue::Text(String::from_str("ignore")));
                    proof {
                        assert(rest.subrange(0, before.len() - 1) =~= before.drop_last());
                        lemma_worklist_step(start, expected@, p, before, rest);
                        if lookup(start, p) is None {
                            lemma_replace_nowhere(current, p, marker());
                        }
                        assert(antichain(rest)) by {
                            assert forall|i: int, j: int|
                                0 <= i < rest.len() && 0 <= j < rest.len() && i != j implies !is_prefix(
                                rest[i],
                                rest[j],
                            ) by {
                                assert(rest[i] == before[i] && rest[j] == before[j]);
                            }
                        }
                    }
                } else {
                    push_children(&mut stack, &path, node, Ghost(*expected));
                    proof {
                        let after = stack_view(stack@);
                        assert(after.subrange(0, before.len() - 1) =~= before.drop_last());
                        lemma_worklist_step(start, expected@, p, before, after);
                        assert forall|step: Step| child(node@, step) is Some implies pending(
                            after,
                        ).contains(p.push(step)) by {
                            lemma_item_model(*node, step);
                            assert(item_at(*node, step) is Some);
                        }
                        match lookup(start, p) {
                            Some(n) => {
                                lemma_children_pending(n, node@, p, pending(after));
                                lemma_replace_same(current, p, n);
                            },
                            None => {},
                        }
                    }
                }
            },
            None => {},
        }
    }
    proof {
        assert(pending(stack_view(stack@)) =~= Set::<Seq<Step>>::empty());
        lemma_partial_done(start, expected@, root);
    }
}

} // verus!
