//! The value tree that responses and expectations are made of, and its
//! mathematical model.

use vstd::prelude::*;
use crate::number::{number_text, number_to_text};
use vstd::string::StringExecFns;
use crate::text::same_text;

verus! {

/// The model of a value tree. An object is a map from keys to trees, so two
/// objects with the same members are the same whatever their order; a
/// number is the text that is written for it.
pub enum Tree {
    Null,
    Bool(bool),
    Number(Seq<char>),
    Text(Seq<char>),
    List(Seq<Tree>),
    Record(Map<Seq<char>, Tree>),
}

/// A generic value tree: null, scalar, array or object. The members of an
/// object are kept in the order they were given; where a key occurs more
/// than once, its first member counts and the later ones are never read.
#[derive(Debug)]
pub enum ResponseValue {
    Null,
    Bool(bool),
    Number(serde_json::Number),
    Text(String),
    Array(Vec<ResponseValue>),
    Object(Vec<(String, ResponseValue)>),
}

/// The keys of a member list, in order.
pub open spec fn entry_keys(entries: Seq<(String, ResponseValue)>) -> Seq<Seq<char>> {
    Seq::new(entries.len(), |i: int| entries[i].0@)
}

/// `i` is the first place at which `key` stands in `keys`.
pub open spec fn is_first(keys: Seq<Seq<char>>, key: Seq<char>, i: int) -> bool {
    &&& 0 <= i < keys.len()
    &&& keys[i] == key
    &&& forall|j: int| 0 <= j < i ==> keys[j] != key
}

/// The first place at which `key` stands in `keys`, or the length of `keys`
/// where it stands nowhere.
pub open spec fn first_index(keys: Seq<Seq<char>>, key: Seq<char>) -> int {
    if exists|i: int| is_first(keys, key, i) {
        choose|i: int| is_first(keys, key, i)
    } else {
        keys.len() as int
    }
}

/// A place that passes `is_first` is the first index.
pub proof fn lemma_first_index_is(keys: Seq<Seq<char>>, key: Seq<char>, i: int)
    requires
        is_first(keys, key, i),
    ensures
        first_index(keys, key) == i,
{
    let c = choose|c: int| is_first(keys, key, c);
    assert(is_first(keys, key, c));
    if c < i {
        assert(keys[c] != key);
    }
    if i < c {
        assert(keys[i] != key);
    }
}

/// A key that stands nowhere has the length as its first index.
pub proof fn lemma_first_index_absent(keys: Seq<Seq<char>>, key: Seq<char>)
    requires
        forall|j: int| 0 <= j < keys.len() ==> keys[j] != key,
    ensures
        first_index(keys, key) == keys.len(),
{
}

/// The first index is a place of the key, or the length.
pub proof fn lemma_first_index_range(keys: Seq<Seq<char>>, key: Seq<char>)
    ensures
        0 <= first_index(keys, key) <= keys.len(),
        first_index(keys, key) < keys.len() ==> is_first(keys, key, first_index(keys, key)),
        first_index(keys, key) == keys.len() ==> forall|j: int|
            0 <= j < keys.len() ==> keys[j] != key,
{
    if first_index(keys, key) == keys.len() {
        assert forall|j: int| 0 <= j < keys.len() implies keys[j] != key by {
            if keys[j] == key {
                lemma_occurrence_has_first(keys, key, j);
            }
        }
    }
}

/// A key that stands at `j` has a first place at or before `j`.
pub proof fn lemma_occurrence_has_first(keys: Seq<Seq<char>>, key: Seq<char>, j: int)
    requires
        0 <= j < keys.len(),
        keys[j] == key,
    ensures
        is_first(keys, key, first_index(keys, key)),
        first_index(keys, key) <= j,
    decreases j,
{
    if forall|l: int| 0 <= l < j ==> keys[l] != key {
        assert(is_first(keys, key, j));
        lemma_first_index_is(keys, key, j);
    } else {
        let l = choose|l: int| 0 <= l < j && keys[l] == key;
        lemma_occurrence_has_first(keys, key, l);
    }
}

/// The models of a list of values, in order.
pub open spec fn list_of(items: Seq<ResponseValue>) -> Seq<Tree>
    decreases items,
{
    Seq::new(
        items.len(),
        |i: int|
            if 0 <= i < items.len() {
                items[i]@
            } else {
                Tree::Null
            },
    )
}

/// The map that a member list stands for: each key with its first member.
pub open spec fn record_of(entries: Seq<(String, ResponseValue)>) -> Map<Seq<char>, Tree>
    decreases entries,
{
    Map::new(
        |k: Seq<char>| first_index(entry_keys(entries), k) < entries.len(),
        |k: Seq<char>|
            {
                let i = first_index(entry_keys(entries), k);
                if 0 <= i < entries.len() {
                    entries[i].1@
                } else {
                    Tree::Null
                }
            },
    )
}

impl View for ResponseValue {
    type V = Tree;

    open spec fn view(&self) -> Tree
        decreases self,
    {
        match self {
            ResponseValue::Null => Tree::Null,
            ResponseValue::Bool(b) => Tree::Bool(*b),
            ResponseValue::Number(n) => Tree::Number(number_text(*n)),
            ResponseValue::Text(s) => Tree::Text(s@),
            ResponseValue::Array(items) => Tree::List(list_of(items@)),
            ResponseValue::Object(entries) => Tree::Record(record_of(entries@)),
        }
    }
}

/// The first member with the given key.
pub fn find_key(entries: &Vec<(String, ResponseValue)>, key: &str) -> (found: Option<usize>)
    ensures
        match found {
            Some(i) => is_first(entry_keys(entries@), key@, i as int),
            None => first_index(entry_keys(entries@), key@) == entries@.len(),
        },
        found is Some ==> first_index(entry_keys(entries@), key@) == found->0,
{
    let mut i: usize = 0;
    while i < entries.len()
        invariant
            0 <= i <= entries@.len(),
            forall|j: int| 0 <= j < i ==> entry_keys(entries@)[j] != key@,
        decreases entries@.len() - i,
    {
        if same_text(entries[i].0.as_str(), key) {
            proof {
                assert(is_first(entry_keys(entries@), key@, i as int));
                lemma_first_index_is(entry_keys(entries@), key@, i as int);
            }
            return Some(i);
        }
        i += 1;
    }
    proof {
        lemma_first_index_absent(entry_keys(entries@), key@);
    }
    None
}

/// What the model of an object says of one of its members.
pub proof fn lemma_record_member(entries: Seq<(String, ResponseValue)>, key: Seq<char>, i: int)
    requires
        is_first(entry_keys(entries), key, i),
    ensures
        record_of(entries).contains_key(key),
        record_of(entries)[key] == entries[i].1@,
{
    lemma_first_index_is(entry_keys(entries), key, i);
}

/// A member added at the end counts where no earlier member has its key.
pub proof fn lemma_record_push(entries: Seq<(String, ResponseValue)>, entry: (String, ResponseValue))
    ensures
        record_of(entries.push(entry)) == if record_of(entries).contains_key(entry.0@) {
            record_of(entries)
        } else {
            record_of(entries).insert(entry.0@, entry.1@)
        },
{
    let longer = entries.push(entry);
    let keys = entry_keys(entries);
    let more = entry_keys(longer);
    assert(more =~= keys.push(entry.0@));
    assert forall|k: Seq<char>|
        first_index(more, k) == if first_index(keys, k) < keys.len() {
            first_index(keys, k)
        } else if k == entry.0@ {
            keys.len() as int
        } else {
            more.len() as int
        } by {
        lemma_first_index_range(keys, k);
        let f = first_index(keys, k);
        if f < keys.len() {
            assert(is_first(more, k, f));
            lemma_first_index_is(more, k, f);
        } else if k == entry.0@ {
            assert(is_first(more, k, keys.len() as int));
            lemma_first_index_is(more, k, keys.len() as int);
        } else {
            lemma_first_index_absent(more, k);
        }
    }
    let target = if record_of(entries).contains_key(entry.0@) {
        record_of(entries)
    } else {
        record_of(entries).insert(entry.0@, entry.1@)
    };
    assert(record_of(longer) =~= target);
}

/// What the model of an object says of a key that no member has.
pub proof fn lemma_record_absent(entries: Seq<(String, ResponseValue)>, key: Seq<char>)
    requires
        first_index(entry_keys(entries), key) == entries.len(),
    ensures
        !record_of(entries).contains_key(key),
{
}

/// An item of an array is a smaller tree than the array.
pub proof fn lemma_item_smaller(v: &ResponseValue, i: int)
    requires
        v is Array,
        0 <= i < v->Array_0@.len(),
    ensures
        decreases_to!(v => v->Array_0@[i]),
{
    assert(decreases_to!(v => v->Array_0));
    assert(decreases_to!(v->Array_0 => v->Array_0@));
    assert(decreases_to!(v->Array_0@ => v->Array_0@[i]));
}

/// A member of an object is a smaller tree than the object.
pub proof fn lemma_member_smaller(v: &ResponseValue, i: int)
    requires
        v is Object,
        0 <= i < v->Object_0@.len(),
    ensures
        decreases_to!(v => v->Object_0@[i].1),
{
    assert(decreases_to!(v => v->Object_0));
    assert(decreases_to!(v->Object_0 => v->Object_0@));
    assert(decreases_to!(v->Object_0@ => v->Object_0@[i]));
    assert(decreases_to!(v->Object_0@[i] => v->Object_0@[i].1));
}

/// An object with one more member, where it has none with that key;
/// anything else as it is.
pub open spec fn with_new_member(t: Tree, key: Seq<char>, value: Tree) -> Tree {
    match t {
        Tree::Record(m) => if m.contains_key(key) {
            t
        } else {
            Tree::Record(m.insert(key, value))
        },
        _ => t,
    }
}

impl ResponseValue {
    /// The object without members.
    pub fn object() -> (out: ResponseValue)
        ensures
            out@ == Tree::Record(Map::empty()),
    {
        let out = ResponseValue::Object(Vec::new());
        assert(out@->Record_0 =~= Map::<Seq<char>, Tree>::empty()) by {
            assert forall|k: Seq<char>| !out@->Record_0.contains_key(k) by {
                lemma_first_index_range(entry_keys(Seq::empty()), k);
            }
        }
        out
    }

    /// The object with one more member at its end, where it has none with
    /// that key; the value itself where it has one or is no object.
    pub fn with_member(self, key: &str, value: ResponseValue) -> (out: ResponseValue)
        ensures
            out@ == with_new_member(self@, key@, value@),
    {
        match self {
            ResponseValue::Object(entries) => {
                let mut entries = entries;
                match find_key(&entries, key) {
                    Some(i) => {
                        proof {
                            lemma_record_member(entries@, key@, i as int);
                        }
                    },
                    None => {
                        let entry = (String::from_str(key), value);
                        proof {
                            lemma_record_absent(entries@, key@);
                            lemma_record_push(entries@, entry);
                        }
                        entries.push(entry);
                    },
                }
                ResponseValue::Object(entries)
            },
            other => other,
        }
    }

    /// Whether this is the null value.
    pub fn is_null(&self) -> (null: bool)
        ensures
            null == (self@ is Null),
    {
        match self {
            ResponseValue::Null => true,
            _ => false,
        }
    }

    /// The member of an object that has the given key.
    pub fn get(&self, key: &str) -> (member: Option<&ResponseValue>)
        ensures
            match member {
                Some(v) => self@ is Record && self@->Record_0.contains_key(key@)
                    && self@->Record_0[key@] == v@,
                None => !(self@ is Record) || !self@->Record_0.contains_key(key@),
            },
    {
        match self {
            ResponseValue::Object(entries) => {
                match find_key(entries, key) {
                    Some(i) => {
                        proof {
                            lemma_record_member(entries@, key@, i as int);
                        }
                        Some(&entries[i].1)
                    },
                    None => {
                        proof {
                            lemma_record_absent(entries@, key@);
                        }
                        None
                    },
                }
            },
            _ => None,
        }
    }

    /// Deep equality: whether two trees have the same model. Two numbers are
    /// the same when the same text is written for them.
    pub fn equal(&self, other: &ResponseValue) -> (same: bool)
        ensures
            same == (self@ == other@),
        decreases self,
    {
        match (self, other) {
            (ResponseValue::Null, ResponseValue::Null) => true,
            (ResponseValue::Bool(a), ResponseValue::Bool(b)) => *a == *b,
            (ResponseValue::Number(a), ResponseValue::Number(b)) => {
                let ta = number_to_text(a);
                let tb = number_to_text(b);
                ta == tb
            },
            (ResponseValue::Text(a), ResponseValue::Text(b)) => same_text(a.as_str(), b.as_str()),
            (ResponseValue::Array(a), ResponseValue::Array(b)) => {
                if a.len() != b.len() {
                    assert(self@->List_0.len() != other@->List_0.len());
                    return false;
                }
                let mut i: usize = 0;
                while i < a.len()
                    invariant
                        0 <= i <= a@.len(),
                        a@.len() == b@.len(),
                        self == ResponseValue::Array(*a),
                        other == ResponseValue::Array(*b),
                        forall|j: int| 0 <= j < i ==> a@[j]@ == b@[j]@,
                    decreases a@.len() - i,
                {
                    proof {
                        lemma_item_smaller(self, i as int);
                    }
                    if !a[i].equal(&b[i]) {
                        assert(self@->List_0[i as int] != other@->List_0[i as int]);
                        return false;
                    }
                    i += 1;
                }
                assert(self@->List_0 =~= other@->List_0);
                true
            },
            (ResponseValue::Object(a), ResponseValue::Object(b)) => {
                let mut i: usize = 0;
                while i < a.len()
                    invariant
                        0 <= i <= a@.len(),
                        self == ResponseValue::Object(*a),
                        other == ResponseValue::Object(*b),
                        forall|j: int|
                            0 <= j < i && is_first(entry_keys(a@), a@[j].0@, j) ==> {
                                &&& record_of(b@).contains_key(a@[j].0@)
                                &&& record_of(b@)[a@[j].0@] == a@[j].1@
                            },
                    decreases a@.len() - i,
                {
                    let first = find_key(a, a[i].0.as_str());
                    if first == Some(i) {
                        proof {
                            lemma_record_member(a@, a@[i as int].0@, i as int);
                        }
                        match find_key(b, a[i].0.as_str()) {
                            Some(j) => {
                                proof {
                                    lemma_record_member(b@, a@[i as int].0@, j as int);
                                }
                                proof {
                                    lemma_member_smaller(self, i as int);
                                }
                                if !a[i].1.equal(&b[j].1) {
                                    assert(record_of(a@)[a@[i as int].0@] != record_of(b@)[a@[i as int].0@]);
                                    return false;
                                }
                            },
                            None => {
                                assert(!record_of(b@).contains_key(a@[i as int].0@));
                                return false;
                            },
                        }
                    } else {
                        proof {
                            if is_first(entry_keys(a@), a@[i as int].0@, i as int) {
                                lemma_first_index_is(entry_keys(a@), a@[i as int].0@, i as int);
                            }
                        }
                    }
                    i += 1;
                }
                let mut j: usize = 0;
                while j < b.len()
                    invariant
                        0 <= j <= b@.len(),
                        self == ResponseValue::Object(*a),
                        other == ResponseValue::Object(*b),
                        forall|l: int|
                            0 <= l < j ==> record_of(a@).contains_key(#[trigger] b@[l].0@),
                    decreases b@.len() - j,
                {
                    if find_key(a, b[j].0.as_str()).is_none() {
                        proof {
                            lemma_record_absent(a@, b@[j as int].0@);
                            lemma_first_index_range(entry_keys(b@), b@[j as int].0@);
                            lemma_occurrence_has_first(entry_keys(b@), b@[j as int].0@, j as int);
                            assert(record_of(b@).contains_key(b@[j as int].0@));
                            assert(!record_of(a@).contains_key(b@[j as int].0@));
                        }
                        return false;
                    }
                    j += 1;
                }
                proof {
                    let ma = record_of(a@);
                    let mb = record_of(b@);
                    assert forall|k: Seq<char>| ma.contains_key(k) implies mb.contains_key(k)
                        && ma[k] == mb[k] by {
                        lemma_first_index_range(entry_keys(a@), k);
                        let f = first_index(entry_keys(a@), k);
                        assert(is_first(entry_keys(a@), a@[f].0@, f));
                    }
                    assert forall|k: Seq<char>| mb.contains_key(k) implies ma.contains_key(k) by {
                        lemma_first_index_range(entry_keys(b@), k);
                        let f = first_index(entry_keys(b@), k);
                        assert(b@[f].0@ == k);
                    }
                    assert(ma =~= mb);
                }
                true
            },
            _ => false,
        }
    }
}

impl PartialEq for ResponseValue {
    /// `==` is deep equality.
    fn eq(&self, other: &ResponseValue) -> (same: bool) {
        self.equal(other)
    }
}

impl vstd::std_specs::cmp::PartialEqSpecImpl for ResponseValue {
    open spec fn obeys_eq_spec() -> bool {
        true
    }

    open spec fn eq_spec(&self, other: &ResponseValue) -> bool {
        self@ == other@
    }
}

impl Clone for ResponseValue {
    /// A deep copy: a tree with the same model.
    fn clone(&self) -> (out: ResponseValue)
        ensures
            out@ == self@,
        decreases self,
    {
        match self {
            ResponseValue::Null => ResponseValue::Null,
            ResponseValue::Bool(b) => ResponseValue::Bool(*b),
            ResponseValue::Number(n) => ResponseValue::Number(n.clone()),
            ResponseValue::Text(s) => ResponseValue::Text(s.clone()),
            ResponseValue::Array(items) => {
                let mut out: Vec<ResponseValue> = Vec::new();
                let mut i: usize = 0;
                while i < items.len()
                    invariant
                        0 <= i <= items@.len(),
                        self == ResponseValue::Array(*items),
                        out@.len() == i,
                        forall|j: int| 0 <= j < i ==> out@[j]@ == items@[j]@,
                    decreases items@.len() - i,
                {
                    proof {
                        lemma_item_smaller(self, i as int);
                    }
                    out.push(items[i].clone());
                    i += 1;
                }
                assert(ResponseValue::Array(out)@->List_0 =~= self@->List_0);
                ResponseValue::Array(out)
            },
            ResponseValue::Object(entries) => {
                let mut out: Vec<(String, ResponseValue)> = Vec::new();
                let mut i: usize = 0;
                while i < entries.len()
                    invariant
                        0 <= i <= entries@.len(),
                        self == ResponseValue::Object(*entries),
                        out@.len() == i,
                        forall|j: int|
                            0 <= j < i ==> out@[j].0@ == entries@[j].0@ && out@[j].1@
                                == entries@[j].1@,
                    decreases entries@.len() - i,
                {
                    proof {
                        lemma_member_smaller(self, i as int);
                    }
                    out.push((entries[i].0.clone(), entries[i].1.clone()));
                    i += 1;
                }
                proof {
                    lemma_same_members(out@, entries@);
                }
                ResponseValue::Object(out)
            },
        }
    }
}

/// Two member lists with the same keys and the same member models, place by
/// place, are the same object.
pub proof fn lemma_same_members(a: Seq<(String, ResponseValue)>, b: Seq<(String, ResponseValue)>)
    requires
        a.len() == b.len(),
        forall|j: int| 0 <= j < a.len() ==> a[j].0@ == b[j].0@ && a[j].1@ == b[j].1@,
    ensures
        record_of(a) == record_of(b),
{
    assert(entry_keys(a) =~= entry_keys(b));
    assert(record_of(a) =~= record_of(b));
}

} // verus!
