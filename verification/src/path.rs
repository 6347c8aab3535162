//! Paths into a value tree, and their text form.

use vstd::prelude::*;
use crate::text::{decimal, decimal_text};

verus! {

/// One step of a path in the model: a member's key or an item's index.
pub enum Step {
    Key(Seq<char>),
    Index(int),
}

/// One step of a path: the key of an object's member, or the index of an
/// array's item.
#[derive(Debug)]
pub enum PathSegment {
    Key(String),
    Index(usize),
}

impl View for PathSegment {
    type V = Step;

    open spec fn view(&self) -> Step {
        match self {
            PathSegment::Key(k) => Step::Key(k@),
            PathSegment::Index(i) => Step::Index(*i as int),
        }
    }
}

impl Clone for PathSegment {
    fn clone(&self) -> (out: PathSegment)
        ensures
            out@ == self@,
    {
        match self {
            PathSegment::Key(k) => PathSegment::Key(k.clone()),
            PathSegment::Index(i) => PathSegment::Index(*i),
        }
    }
}

/// The model of a path: the model of each of its steps.
pub open spec fn path_view(path: Seq<PathSegment>) -> Seq<Step> {
    Seq::new(path.len(), |i: int| path[i]@)
}

/// How one character of a key is written in a pointer: the two reserved
/// characters are escaped, every other stands for itself.
pub open spec fn escape_char(c: char) -> Seq<char> {
    if c == '~' {
        seq!['~', '0']
    } else if c == '/' {
        seq!['~', '1']
    } else {
        seq![c]
    }
}

/// A key with `~` written as `~0` and `/` as `~1`.
pub open spec fn escape(key: Seq<char>) -> Seq<char>
    decreases key.len(),
{
    if key.len() == 0 {
        Seq::empty()
    } else {
        escape(key.drop_last()) + escape_char(key.last())
    }
}

/// The text of one step: the escaped key, or the index in decimal.
pub open spec fn token(step: Step) -> Seq<char> {
    match step {
        Step::Key(k) => escape(k),
        Step::Index(i) => decimal(i as nat),
    }
}

/// The pointer text of a path: for each step a `/` and the step's token.
pub open spec fn pointer_of(path: Seq<Step>) -> Seq<char>
    decreases path.len(),
{
    if path.len() == 0 {
        Seq::empty()
    } else {
        pointer_of(path.drop_last()) + seq!['/'] + token(path.last())
    }
}

/// Appends the escaped form of `key` to `out`.
fn push_escaped(out: &mut String, key: &str)
    ensures
        final(out)@ == old(out)@ + escape(key@),
{
    let n = key.unicode_len();
    let mut i: usize = 0;
    proof {
        assert(key@.subrange(0, 0) =~= Seq::<char>::empty());
        assert(out@ =~= old(out)@ + escape(key@.subrange(0, 0)));
    }
    while i < n
        invariant
            0 <= i <= n,
            n == key@.len(),
            out@ == old(out)@ + escape(key@.subrange(0, i as int)),
        decreases n - i,
    {
        let c = key.get_char(i);
        proof {
            let next = key@.subrange(0, i + 1);
            assert(next.drop_last() =~= key@.subrange(0, i as int));
            assert(next.last() == c);
        }
        let ghost before = out@;
        if c == '~' {
            out.push('~');
            out.push('0');
        } else if c == '/' {
            out.push('~');
            out.push('1');
        } else {
            out.push(c);
        }
        assert(out@ =~= before + escape_char(c));
        assert(out@ =~= old(out)@ + escape(key@.subrange(0, i + 1)));
        i += 1;
    }
    assert(key@.subrange(0, n as int) =~= key@);
}

/// Writes a path as a pointer: each step is a `/` followed by the key, with
/// `~` escaped as `~0` and `/` as `~1`, or by the index in decimal. The
/// empty path is the empty text.
pub fn path_to_pointer(path: &[PathSegment]) -> (pointer: String)
    ensures
        pointer@ == pointer_of(path_view(path@)),
{
    let mut pointer = String::new();
    let mut i: usize = 0;
    proof {
        assert(path_view(path@.subrange(0, 0)) =~= Seq::<Step>::empty());
    }
    while i < path.len()
        invariant
            0 <= i <= path@.len(),
            pointer@ == pointer_of(path_view(path@.subrange(0, i as int))),
        decreases path@.len() - i,
    {
        proof {
            let next = path_view(path@.subrange(0, i + 1));
            assert(next.drop_last() =~= path_view(path@.subrange(0, i as int)));
            assert(next.last() == path@[i as int]@);
        }
        let ghost before = pointer@;
        pointer.push('/');
        match &path[i] {
            PathSegment::Key(k) => {
                push_escaped(&mut pointer, k.as_str());
            },
            PathSegment::Index(n) => {
                let digits = decimal_text(*n);
                pointer.append(digits.as_str());
            },
        }
        assert(pointer@ =~= before + seq!['/'] + token(path@[i as int]@));
        i += 1;
    }
    assert(path@.subrange(0, path@.len() as int) =~= path@);
    pointer
}

} // verus!
