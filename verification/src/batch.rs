//! Directory mode: the trace files of a directory run one after the other,
//! and the first one that fails ends the whole run.

use vstd::prelude::*;
use crate::text::same_text;

verus! {

/// Whether a file extension marks a trace file in a directory: one of
/// `json`, `jsonc`, `yaml` and `yml`, in small letters.
pub open spec fn trace_extension(extension: Option<Seq<char>>) -> bool {
    match extension {
        Some(e) => e == "json"@ || e == "jsonc"@ || e == "yaml"@ || e == "yml"@,
        None => false,
    }
}

/// Whether a file with this extension is run as a trace in directory mode.
pub fn is_trace_file(extension: Option<&str>) -> (runs: bool)
    ensures
        runs == trace_extension(
            match extension {
                Some(e) => Some(e@),
                None => None,
            },
        ),
{
    match extension {
        Some(e) => same_text(e, "json") || same_text(e, "jsonc") || same_text(e, "yaml")
            || same_text(e, "yml"),
        None => false,
    }
}

/// What is due in a run over several trace files.
#[derive(Clone, Copy, PartialEq, Eq, Structural, Debug)]
pub enum Due {
    /// The file at this place is to be run next.
    Run(usize),
    /// Every file passed.
    AllPassed,
    /// The file at this place failed; no file after it is run.
    Failed(usize),
}

/// The model of a run over several files: how many there are, how many
/// have passed, and whether the one after those failed.
pub struct BatchModel {
    pub total: nat,
    pub passed: nat,
    pub failed: bool,
}

/// What is due in the run.
pub open spec fn due_of(batch: BatchModel) -> Due {
    if batch.failed {
        Due::Failed(batch.passed as usize)
    } else if batch.passed < batch.total {
        Due::Run(batch.passed as usize)
    } else {
        Due::AllPassed
    }
}

/// The run after the file that was due has passed or failed. Where no file
/// is due, nothing changes.
pub open spec fn recorded(batch: BatchModel, passed: bool) -> BatchModel {
    if batch.failed || batch.passed >= batch.total {
        batch
    } else if passed {
        BatchModel { passed: batch.passed + 1, ..batch }
    } else {
        BatchModel { failed: true, ..batch }
    }
}

/// After a failure no further file is run: the run stays failed at the same
/// file whatever is recorded.
pub proof fn lemma_failure_ends_the_run(batch: BatchModel, passed: bool)
    requires
        batch.failed,
    ensures
        recorded(batch, passed) == batch,
        due_of(recorded(batch, passed)) == Due::Failed(batch.passed as usize),
{
}

/// The file that fails is the one that was due, and the files before it are
/// exactly those that passed.
pub proof fn lemma_failure_names_the_file(batch: BatchModel, i: usize)
    requires
        due_of(batch) == Due::Run(i),
        batch.total <= usize::MAX,
    ensures
        due_of(recorded(batch, false)) == Due::Failed(i),
        due_of(recorded(batch, true)) == if i + 1 < batch.total {
            Due::Run((i + 1) as usize)
        } else {
            Due::AllPassed
        },
{
}

/// A run over several trace files, in the order in which they were found.
#[derive(Debug)]
pub struct Batch {
    total: usize,
    passed: usize,
    failed: bool,
}

impl View for Batch {
    type V = BatchModel;

    closed spec fn view(&self) -> BatchModel {
        BatchModel { total: self.total as nat, passed: self.passed as nat, failed: self.failed }
    }
}

impl Batch {
    #[verifier::type_invariant]
    spec fn inv(self) -> bool {
        self.passed <= self.total && (self.failed ==> self.passed < self.total)
    }

    /// A run over `total` files, none of which has run.
    pub fn new(total: usize) -> (batch: Batch)
        ensures
            batch@ == (BatchModel { total: total as nat, passed: 0, failed: false }),
    {
        Batch { total, passed: 0, failed: false }
    }

    /// What is due: the next file, or the end of the run.
    pub fn due(&self) -> (due: Due)
        ensures
            due == due_of(self@),
    {
        if self.failed {
            Due::Failed(self.passed)
        } else if self.passed < self.total {
            Due::Run(self.passed)
        } else {
            Due::AllPassed
        }
    }

    /// Records whether the file that was due passed.
    pub fn record(&mut self, passed: bool)
        ensures
            final(self)@ == recorded(old(self)@, passed),
    {
        proof {
            use_type_invariant(&*self);
        }
        if self.failed || self.passed >= self.total {
        } else if passed {
            self.passed = self.passed + 1;
        } else {
            self.failed = true;
        }
    }
}

} // verus!
