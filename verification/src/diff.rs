//! The line diff of two texts and its rendering.

use vstd::prelude::*;
use vstd::string::{StrSliceExecFns, StringExecFns};
use vstd::utf8::encode_utf8;

verus! {

/// One run of lines of a line diff, as the `difference` crate gives it.
#[derive(Debug)]
pub enum DiffChunk {
    /// Lines that both texts have.
    Same(String),
    /// Lines that only the second text has.
    Add(String),
    /// Lines that only the first text has.
    Rem(String),
}

/// The model of a run of lines.
pub enum Change {
    Same(Seq<char>),
    Add(Seq<char>),
    Rem(Seq<char>),
}

impl View for DiffChunk {
    type V = Change;

    open spec fn view(&self) -> Change {
        match self {
            DiffChunk::Same(x) => Change::Same(x@),
            DiffChunk::Add(x) => Change::Add(x@),
            DiffChunk::Rem(x) => Change::Rem(x@),
        }
    }
}

/// The models of a list of runs.
pub open spec fn chunks_view(chunks: Seq<DiffChunk>) -> Seq<Change> {
    Seq::new(chunks.len(), |i: int| chunks[i]@)
}

/// How a piece of a rendered diff is to be shown.
#[derive(Clone, Copy, PartialEq, Eq, Structural, Debug)]
pub enum Tone {
    /// Line breaks between the runs.
    Plain,
    /// Lines that both texts have.
    Unchanged,
    /// Lines that only the received text has, and their `+` sign.
    Added,
    /// Lines that only the expected text has, and their `-` sign.
    Removed,
}

/// One piece of a rendered diff: a text and how to show it.
#[derive(Debug)]
pub struct DiffSpan {
    pub tone: Tone,
    pub text: String,
}

impl View for DiffSpan {
    type V = (Tone, Seq<char>);

    open spec fn view(&self) -> (Tone, Seq<char>) {
        (self.tone, self.text@)
    }
}

/// The models of a list of pieces.
pub open spec fn spans_view(spans: Seq<DiffSpan>) -> Seq<(Tone, Seq<char>)> {
    Seq::new(spans.len(), |i: int| spans[i]@)
}

/// Whether a character has the Unicode property `White_Space`: the
/// controls from tab to carriage return, the space, next line, the
/// no-break space, the ogham space mark, the spaces from en quad to hair
/// space, the line and the paragraph separator, the narrow no-break space,
/// the medium mathematical space and the ideographic space.
pub open spec fn whitespace(c: char) -> bool {
    ||| '\u{9}' <= c <= '\u{d}'
    ||| c == ' '
    ||| c == '\u{85}'
    ||| c == '\u{a0}'
    ||| c == '\u{1680}'
    ||| '\u{2000}' <= c <= '\u{200a}'
    ||| c == '\u{2028}'
    ||| c == '\u{2029}'
    ||| c == '\u{202f}'
    ||| c == '\u{205f}'
    ||| c == '\u{3000}'
}

/// `char::is_whitespace`: whether the character has the Unicode property
/// `White_Space`.
pub assume_specification[ char::is_whitespace ](c: char) -> (white: bool)
    ensures
        white == whitespace(c),
;

/// The runs of lines that `difference::Changeset::new` finds between two
/// texts split at line breaks.
pub uninterp spec fn line_changes(expected: Seq<char>, received: Seq<char>) -> Seq<Change>;

/// The number of line breaks among the bytes of a text.
pub open spec fn breaks(bytes: Seq<u8>) -> nat
    decreases bytes.len(),
{
    if bytes.len() == 0 {
        0
    } else if bytes.last() == 10u8 {
        breaks(bytes.drop_last()) + 1
    } else {
        breaks(bytes.drop_last())
    }
}

/// The number of lines of a text: one more than it has line breaks.
pub open spec fn line_count(text: Seq<char>) -> nat {
    breaks(encode_utf8(text)) + 1
}

/// Whether two texts have few enough lines for the line diff, which keeps
/// a table of one cell for every pair of lines.
pub open spec fn diffable(expected: Seq<char>, received: Seq<char>) -> bool {
    line_count(received) <= ((usize::MAX as int) / 16) / (line_count(expected) as int)
}

/// `difference::Changeset::new` with the line break as the split, and its
/// `diffs` moved into the library's own chunks, variant by variant. The two
/// texts must have few enough lines for the table of the longest common
/// subsequence to be allocated. The contract gives the runs their name.
#[verifier::external_body]
fn changeset(expected: &str, received: &str) -> (chunks: Vec<DiffChunk>)
    requires
        diffable(expected@, received@),
    ensures
        chunks_view(chunks@) == line_changes(expected@, received@),
{
    let changes = difference::Changeset::new(expected, received, "\n");
    changes.diffs.into_iter().map(
        |d|
            match d {
                difference::Difference::Same(x) => DiffChunk::Same(x),
                difference::Difference::Add(x) => DiffChunk::Add(x),
                difference::Difference::Rem(x) => DiffChunk::Rem(x),
            },
    ).collect()
}

/// A text without its first character, if that is whitespace.
pub open spec fn strip_one(s: Seq<char>) -> Seq<char> {
    if s.len() > 0 && whitespace(s[0]) {
        s.drop_first()
    } else {
        s
    }
}

/// The pieces that one run is rendered as. Unchanged lines stand as they
/// are. Added lines follow a line break and a `+`, lose one leading
/// whitespace character to make room for the sign, and end in a line break.
/// Removed lines follow a line break and a `-` in the same way, without a
/// line break at their end.
pub open spec fn change_spans(c: Change) -> Seq<(Tone, Seq<char>)> {
    match c {
        Change::Same(x) => seq![(Tone::Unchanged, x)],
        Change::Add(x) => seq![
            (Tone::Plain, seq!['\n']),
            (Tone::Added, seq!['+']),
            (Tone::Added, strip_one(x)),
            (Tone::Plain, seq!['\n']),
        ],
        Change::Rem(x) => seq![
            (Tone::Plain, seq!['\n']),
            (Tone::Removed, seq!['-']),
            (Tone::Removed, strip_one(x)),
        ],
    }
}

/// Whether the run at `i` is unchanged lines that follow a removed run
/// directly: a line break then parts the two.
pub open spec fn follows_removed(changes: Seq<Change>, i: int) -> bool {
    0 < i < changes.len() && changes[i - 1] is Rem && changes[i] is Same
}

/// The pieces of the run at `i` in its place: the pieces of the run, after
/// a line break where unchanged lines follow a removed run.
pub open spec fn placed_spans(changes: Seq<Change>, i: int) -> Seq<(Tone, Seq<char>)> {
    if follows_removed(changes, i) {
        seq![(Tone::Plain, seq!['\n'])] + change_spans(changes[i])
    } else {
        change_spans(changes[i])
    }
}

/// The pieces that a list of runs is rendered as.
pub open spec fn all_spans(changes: Seq<Change>) -> Seq<(Tone, Seq<char>)>
    decreases changes.len(),
{
    if changes.len() == 0 {
        Seq::empty()
    } else {
        all_spans(changes.drop_last()) + placed_spans(changes, changes.len() - 1)
    }
}

/// The text of one rendered run.
pub open spec fn change_text(c: Change) -> Seq<char> {
    match c {
        Change::Same(x) => x,
        Change::Add(x) => seq!['\n', '+'] + strip_one(x) + seq!['\n'],
        Change::Rem(x) => seq!['\n', '-'] + strip_one(x),
    }
}

/// The text of the run at `i` in its place.
pub open spec fn placed_text(changes: Seq<Change>, i: int) -> Seq<char> {
    if follows_removed(changes, i) {
        seq!['\n'] + change_text(changes[i])
    } else {
        change_text(changes[i])
    }
}

/// The text of a rendered list of runs: every line of the diff on a line
/// of its own.
pub open spec fn render(changes: Seq<Change>) -> Seq<char>
    decreases changes.len(),
{
    if changes.len() == 0 {
        Seq::empty()
    } else {
        render(changes.drop_last()) + placed_text(changes, changes.len() - 1)
    }
}

/// The texts of a list of pieces, one after the other.
pub open spec fn spans_text(spans: Seq<(Tone, Seq<char>)>) -> Seq<char>
    decreases spans.len(),
{
    if spans.len() == 0 {
        Seq::empty()
    } else {
        spans_text(spans.drop_last()) + spans.last().1
    }
}

/// The text of two lists of pieces is the text of the first and then that
/// of the second.
pub proof fn lemma_spans_text_concat(a: Seq<(Tone, Seq<char>)>, b: Seq<(Tone, Seq<char>)>)
    ensures
        spans_text(a + b) == spans_text(a) + spans_text(b),
    decreases b.len(),
{
    if b.len() == 0 {
        assert(a + b =~= a);
        assert(spans_text(a) + spans_text(b) =~= spans_text(a));
    } else {
        assert((a + b).drop_last() =~= a + b.drop_last());
        lemma_spans_text_concat(a, b.drop_last());
        assert(spans_text(a + b) =~= spans_text(a) + spans_text(b));
    }
}

/// The pieces of one run, read one after the other, are its text.
pub proof fn lemma_change_spans_text(c: Change)
    ensures
        spans_text(change_spans(c)) == change_text(c),
{
    reveal_with_fuel(spans_text, 5);
    let s = change_spans(c);
    match c {
        Change::Same(x) => {
            assert(s.drop_last() =~= Seq::empty());
        },
        Change::Add(x) => {
            let s3 = s.drop_last();
            let s2 = s3.drop_last();
            let s1 = s2.drop_last();
            assert(s1.drop_last() =~= Seq::empty());
            assert(spans_text(s1) =~= seq!['\n']);
            assert(spans_text(s2) =~= seq!['\n', '+']);
        },
        Change::Rem(x) => {
            let s2 = s.drop_last();
            let s1 = s2.drop_last();
            assert(s1.drop_last() =~= Seq::empty());
            assert(spans_text(s1) =~= seq!['\n']);
            assert(spans_text(s2) =~= seq!['\n', '-']);
        },
    }
    assert(spans_text(s) =~= change_text(c));
}

/// The pieces of a rendered diff, read one after the other, are its text.
pub proof fn lemma_spans_are_the_text(changes: Seq<Change>)
    ensures
        spans_text(all_spans(changes)) == render(changes),
    decreases changes.len(),
{
    if changes.len() > 0 {
        let i = changes.len() - 1;
        lemma_spans_are_the_text(changes.drop_last());
        lemma_spans_text_concat(all_spans(changes.drop_last()), placed_spans(changes, i));
        lemma_change_spans_text(changes[i]);
        if follows_removed(changes, i) {
            let gap = seq![(Tone::Plain, seq!['\n'])];
            lemma_spans_text_concat(gap, change_spans(changes[i]));
            assert(spans_text(gap) =~= seq!['\n']) by {
                reveal_with_fuel(spans_text, 2);
                assert(gap.drop_last() =~= Seq::empty());
            }
        }
    }
}

/// The text without its first character, if that is whitespace; the text
/// itself otherwise.
pub fn remove_one_leading_whitespace(s: &str) -> (out: String)
    ensures
        out@ == strip_one(s@),
{
    let n = s.unicode_len();
    if n > 0 && s.get_char(0).is_whitespace() {
        let rest = s.substring_char(1, n);
        assert(rest@ =~= s@.drop_first());
        String::from_str(rest)
    } else {
        String::from_str(s)
    }
}

/// The number of line breaks of a text.
pub fn count_breaks(text: &str) -> (n: usize)
    ensures
        n + 1 == line_count(text@),
{
    let bytes = text.as_bytes();
    let mut n: usize = 0;
    let mut i: usize = 0;
    proof {
        assert(bytes@.subrange(0, 0) =~= Seq::<u8>::empty());
    }
    while i < bytes.len()
        invariant
            0 <= i <= bytes@.len(),
            n <= i,
            n == breaks(bytes@.subrange(0, i as int)),
        decreases bytes@.len() - i,
    {
        proof {
            let next = bytes@.subrange(0, i + 1);
            assert(next.drop_last() =~= bytes@.subrange(0, i as int));
            assert(next.last() == bytes@[i as int]);
        }
        if bytes[i] == 10u8 {
            n += 1;
        }
        i += 1;
    }
    assert(bytes@.subrange(0, bytes@.len() as int) =~= bytes@);
    n
}

/// Whether two texts have few enough lines for the line diff.
pub fn can_diff(expected: &str, received: &str) -> (fits: bool)
    ensures
        fits == diffable(expected@, received@),
{
    let a = count_breaks(expected);
    let b = count_breaks(received);
    if a == usize::MAX || b == usize::MAX {
        proof {
            let cap = (usize::MAX as int) / 16;
            let lines = (a + 1) as int;
            assert(cap / lines <= cap) by (nonlinear_arith)
                requires
                    cap >= 0,
                    lines >= 1,
            ;
            assert(a == usize::MAX ==> cap / lines == 0) by (nonlinear_arith)
                requires
                    0 <= cap < lines || a != usize::MAX,
            ;
        }
        false
    } else {
        b + 1 <= (usize::MAX / 16) / (a + 1)
    }
}

/// Whether a run is of removed lines.
fn is_removed(chunk: &DiffChunk) -> (removed: bool)
    ensures
        removed == (chunk@ is Rem),
{
    match chunk {
        DiffChunk::Rem(_) => true,
        _ => false,
    }
}

/// Whether a run is of unchanged lines.
fn is_unchanged(chunk: &DiffChunk) -> (same: bool)
    ensures
        same == (chunk@ is Same),
{
    match chunk {
        DiffChunk::Same(_) => true,
        _ => false,
    }
}

/// The pieces of the rendered line diff of two texts, each with the tone it
/// is to be shown in.
pub fn diff_spans(expected: &str, received: &str) -> (spans: Vec<DiffSpan>)
    requires
        diffable(expected@, received@),
    ensures
        spans_view(spans@) == all_spans(line_changes(expected@, received@)),
{
    let chunks = changeset(expected, received);
    let ghost changes = chunks_view(chunks@);
    let mut spans: Vec<DiffSpan> = Vec::new();
    let mut i: usize = 0;
    proof {
        assert(changes.subrange(0, 0) =~= Seq::<Change>::empty());
        assert(spans_view(spans@) =~= all_spans(changes.subrange(0, 0)));
    }
    while i < chunks.len()
        invariant
            0 <= i <= chunks@.len(),
            changes == chunks_view(chunks@),
            spans_view(spans@) == all_spans(changes.subrange(0, i as int)),
        decreases chunks@.len() - i,
    {
        let ghost before = spans_view(spans@);
        let ghost next = changes.subrange(0, i + 1);
        proof {
            assert(next.drop_last() =~= changes.subrange(0, i as int));
            assert(next[i as int] == chunks@[i as int]@);
            if i > 0 {
                assert(next[i - 1] == chunks@[i - 1]@);
            }
        }
        if i > 0 && is_removed(&chunks[i - 1]) && is_unchanged(&chunks[i]) {
            spans.push(DiffSpan { tone: Tone::Plain, text: line_break() });
        }
        match &chunks[i] {
            DiffChunk::Same(x) => {
                spans.push(DiffSpan { tone: Tone::Unchanged, text: x.clone() });
            },
            DiffChunk::Add(x) => {
                spans.push(DiffSpan { tone: Tone::Plain, text: line_break() });
                spans.push(DiffSpan { tone: Tone::Added, text: sign('+') });
                spans.push(
                    DiffSpan { tone: Tone::Added, text: remove_one_leading_whitespace(x.as_str()) },
                );
                spans.push(DiffSpan { tone: Tone::Plain, text: line_break() });
            },
            DiffChunk::Rem(x) => {
                spans.push(DiffSpan { tone: Tone::Plain, text: line_break() });
                spans.push(DiffSpan { tone: Tone::Removed, text: sign('-') });
                spans.push(
                    DiffSpan {
                        tone: Tone::Removed,
                        text: remove_one_leading_whitespace(x.as_str()),
                    },
                );
            },
        }
        assert(spans_view(spans@) =~= before + placed_spans(next, i as int));
        i += 1;
    }
    assert(changes.subrange(0, chunks@.len() as int) =~= changes);
    spans
}

/// A text of one line break.
fn line_break() -> (out: String)
    ensures
        out@ == seq!['\n'],
{
    sign('\n')
}

/// A text of one character.
fn sign(c: char) -> (out: String)
    ensures
        out@ == seq![c],
{
    let mut out = String::new();
    out.push(c);
    assert(out@ =~= seq![c]);
    out
}

/// Renders the line diff of two texts, every line of it on a line of its
/// own. Lines that both have stand as they are; a run of lines that only
/// `received` has follows a line break and a `+` and ends in a line break;
/// a run that only `expected` has follows a line break and a `-`, and a
/// line break parts it from unchanged lines that follow it. The first line
/// of a run with a sign loses one leading whitespace character, which makes
/// room for the sign.
pub fn pretty_print_diff(expected: &str, received: &str) -> (ret: String)
    requires
        diffable(expected@, received@),
    ensures
        ret@ == render(line_changes(expected@, received@)),
{
    let chunks = changeset(expected, received);
    let ghost changes = chunks_view(chunks@);
    let mut ret = String::new();
    let mut i: usize = 0;
    proof {
        assert(changes.subrange(0, 0) =~= Seq::<Change>::empty());
    }
    while i < chunks.len()
        invariant
            0 <= i <= chunks@.len(),
            changes == chunks_view(chunks@),
            ret@ == render(changes.subrange(0, i as int)),
        decreases chunks@.len() - i,
    {
        let ghost before = ret@;
        let ghost next = changes.subrange(0, i + 1);
        proof {
            assert(next.drop_last() =~= changes.subrange(0, i as int));
            assert(next[i as int] == chunks@[i as int]@);
            if i > 0 {
                assert(next[i - 1] == chunks@[i - 1]@);
            }
        }
        if i > 0 && is_removed(&chunks[i - 1]) && is_unchanged(&chunks[i]) {
            ret.push('\n');
        }
        match &chunks[i] {
            DiffChunk::Same(x) => {
                ret.append(x.as_str());
            },
            DiffChunk::Add(x) => {
                ret.push('\n');
                ret.push('+');
                let line = remove_one_leading_whitespace(x.as_str());
                ret.append(line.as_str());
                ret.push('\n');
            },
            DiffChunk::Rem(x) => {
                ret.push('\n');
                ret.push('-');
                let line = remove_one_leading_whitespace(x.as_str());
                ret.append(line.as_str());
            },
        }
        assert(ret@ =~= before + placed_text(next, i as int));
        i += 1;
    }
    assert(changes.subrange(0, chunks@.len() as int) =~= changes);
    ret
}

} // verus!
