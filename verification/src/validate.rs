//! The validator: whether an actual response meets an expectation that may
//! hold wildcard markers, and the report of a mismatch.

use vstd::prelude::*;
use vstd::string::StringExecFns;
use crate::diff::{
    all_spans, can_diff, diff_spans, diffable, line_changes, pretty_print_diff, render,
    spans_view, DiffSpan, Tone,
};
use crate::json::{compact_text, pretty_text};
use crate::nulls::{remove_nulls, strip};
use crate::sanitize::sanitize_resp_by_expected;
use crate::value::{ResponseValue, Tree};
use crate::path::Step;
use crate::tree::{lookup, replace_at};
use crate::wildcard::{lemma_marker_accepts_any, marker, substitute};

verus! {

/// Why a response does not meet its expectation.
#[derive(Debug)]
pub enum MismatchReport {
    /// Nothing was expected, and a value came: its text on one line.
    ExpectedNull { received: String },
    /// The normalized trees differ: the rendered line diff of their indented
    /// texts, the same diff in pieces with their tones, and the legend.
    Different { diff: String, spans: Vec<DiffSpan>, legend: String },
    /// The normalized trees differ and their indented texts have too many
    /// lines for the line diff: the two texts.
    TooLong { expected: String, received: String },
}

/// The model of a report.
pub enum ReportModel {
    ExpectedNull { received: Seq<char> },
    Different { diff: Seq<char>, spans: Seq<(Tone, Seq<char>)>, legend: Seq<char> },
    TooLong { expected: Seq<char>, received: Seq<char> },
}

impl View for MismatchReport {
    type V = ReportModel;

    open spec fn view(&self) -> ReportModel {
        match self {
            MismatchReport::ExpectedNull { received } => ReportModel::ExpectedNull {
                received: received@,
            },
            MismatchReport::Different { diff, spans, legend } => ReportModel::Different {
                diff: diff@,
                spans: spans_view(spans@),
                legend: legend@,
            },
            MismatchReport::TooLong { expected, received } => ReportModel::TooLong {
                expected: expected@,
                received: received@,
            },
        }
    }
}

/// The legend of a rendered diff: what the two signs mean.
pub open spec fn legend_text() -> Seq<char> {
    "- expected\n+ received"@
}

/// The words before the received value where nothing was expected.
pub open spec fn null_words() -> Seq<char> {
    "expected null, received "@
}

/// The words before the diff of a mismatch.
pub open spec fn mismatch_words() -> Seq<char> {
    "response does not match the expectation\n"@
}

/// The message of a report.
pub open spec fn message_text(r: ReportModel) -> Seq<char> {
    match r {
        ReportModel::ExpectedNull { received } => null_words() + received,
        ReportModel::Different { diff, spans, legend } => mismatch_words() + diff + seq!['\n']
            + legend,
        ReportModel::TooLong { expected, received } => mismatch_words() + seq!['-'] + expected
            + seq!['\n', '+'] + received,
    }
}

/// The report of two normalized trees that differ.
pub open spec fn difference_report(actual: Tree, expected: Tree) -> ReportModel {
    let wanted = pretty_text(expected);
    let got = pretty_text(actual);
    if diffable(wanted, got) {
        ReportModel::Different {
            diff: render(line_changes(wanted, got)),
            spans: all_spans(line_changes(wanted, got)),
            legend: legend_text(),
        }
    } else {
        ReportModel::TooLong { expected: wanted, received: got }
    }
}

/// What validation says of an actual tree and an expectation. Without an
/// expectation only null passes. With one, the markers are resolved in the
/// actual tree, null-valued members are stripped on both sides, and the
/// two trees must then be the same.
pub open spec fn verdict(actual: Tree, expected: Option<Tree>) -> Result<(), ReportModel> {
    match expected {
        None => if actual is Null {
            Ok(())
        } else {
            Err(ReportModel::ExpectedNull { received: compact_text(actual) })
        },
        Some(e) => {
            let got = strip(substitute(actual, e));
            let wanted = strip(e);
            if got == wanted {
                Ok(())
            } else {
                Err(difference_report(got, wanted))
            }
        },
    }
}

/// Validation does not look at what stands where the expectation holds a
/// marker: two responses that differ only in the node at such a path get
/// the same verdict.
pub proof fn lemma_verdict_ignores_marked_node(
    actual: Tree,
    expected: Tree,
    path: Seq<Step>,
    x: Tree,
)
    requires
        lookup(expected, path) == Some(marker()),
    ensures
        verdict(replace_at(actual, path, x), Some(expected)) == verdict(actual, Some(expected)),
{
    lemma_marker_accepts_any(actual, expected, path, x);
}

/// An expectation that is the marker alone accepts every response.
pub proof fn lemma_lone_marker_accepts_all(actual: Tree)
    ensures
        verdict(actual, Some(marker())) is Ok,
{
}

impl MismatchReport {
    /// The report in words: what was expected and what came.
    pub fn message(&self) -> (text: String)
        ensures
            text@ == message_text(self@),
    {
        match self {
            MismatchReport::ExpectedNull { received } => {
                let mut text = String::from_str("expected null, received ");
                text.append(received.as_str());
                text
            },
            MismatchReport::Different { diff, spans, legend } => {
                let mut text = String::from_str("response does not match the expectation\n");
                text.append(diff.as_str());
                text.push('\n');
                text.append(legend.as_str());
                text
            },
            MismatchReport::TooLong { expected, received } => {
                let mut text = String::from_str("response does not match the expectation\n");
                text.push('-');
                text.append(expected.as_str());
                text.push('\n');
                text.push('+');
                text.append(received.as_str());
                assert(text@ =~= message_text(self@));
                text
            },
        }
    }
}

/// The report of two normalized trees that were found to differ.
pub fn report_difference(actual: &ResponseValue, expected: &ResponseValue) -> (report:
    MismatchReport)
    ensures
        report@ == difference_report(actual@, expected@),
{
    let wanted = expected.to_pretty_text();
    let got = actual.to_pretty_text();
    if can_diff(wanted.as_str(), got.as_str()) {
        let diff = pretty_print_diff(wanted.as_str(), got.as_str());
        let spans = diff_spans(wanted.as_str(), got.as_str());
        MismatchReport::Different { diff, spans, legend: String::from_str("- expected\n+ received") }
    } else {
        MismatchReport::TooLong { expected: wanted, received: got }
    }
}

/// Validates an actual response against an expectation. Without one, only
/// a null response passes. With one, every node of the response at a path
/// where the expectation holds the marker is accepted as it is, null-valued
/// members count as absent on both sides, and what is left must be the same
/// tree on both sides. The error tells how the two differ.
pub fn validate(actual: ResponseValue, expected: Option<ResponseValue>) -> (res: Result<
    (),
    MismatchReport,
>)
    ensures
        match res {
            Ok(_) => verdict(
                actual@,
                match expected {
                    Some(e) => Some(e@),
                    None => None,
                },
            ) is Ok,
            Err(report) => verdict(
                actual@,
                match expected {
                    Some(e) => Some(e@),
                    None => None,
                },
            ) == Err::<(), ReportModel>(report@),
        },
{
    match expected {
        None => {
            if actual.is_null() {
                Ok(())
            } else {
                Err(MismatchReport::ExpectedNull { received: actual.to_compact_text() })
            }
        },
        Some(e) => {
            let mut got = actual;
            let mut wanted = e;
            sanitize_resp_by_expected(&mut got, &mut wanted);
            remove_nulls(&mut got);
            remove_nulls(&mut wanted);
            if got.equal(&wanted) {
                Ok(())
            } else {
                Err(report_difference(&got, &wanted))
            }
        },
    }
}

} // verus!
