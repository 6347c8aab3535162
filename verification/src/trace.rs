//! The trace: the ordered steps of a test and the pool of mock responses.

use vstd::prelude::*;
use crate::command::{CommandDescriptor, CommandModel};
use crate::mock::{pool_view, MockResponseRecord, RecordModel};
use crate::value::{ResponseValue, Tree};

verus! {

/// One command to send to the host, what its response is expected to be,
/// and whether an operator supplies what it carries before it is sent.
#[derive(Debug)]
pub struct InvocationStep {
    pub command: CommandDescriptor,
    pub expected: Option<ResponseValue>,
    pub interactive: bool,
}

/// The model of a step.
pub struct StepModel {
    pub command: CommandModel,
    pub expected: Option<Tree>,
    pub interactive: bool,
}

/// The model of an optional tree.
pub open spec fn option_view(v: Option<ResponseValue>) -> Option<Tree> {
    match v {
        Some(t) => Some(t@),
        None => None,
    }
}

impl View for InvocationStep {
    type V = StepModel;

    open spec fn view(&self) -> StepModel {
        StepModel {
            command: self.command@,
            expected: option_view(self.expected),
            interactive: self.interactive,
        }
    }
}

/// The models of a list of steps, in order.
pub open spec fn steps_view(steps: Seq<InvocationStep>) -> Seq<StepModel> {
    Seq::new(steps.len(), |i: int| steps[i]@)
}

/// One parsed test document: the steps, which run strictly in order, and
/// the pool of mock responses, which is only searched.
#[derive(Debug)]
pub struct TraceDefinition {
    pub steps: Vec<InvocationStep>,
    pub mock_responses: Vec<MockResponseRecord>,
}

/// The model of a trace.
pub struct TraceModel {
    pub steps: Seq<StepModel>,
    pub mock_responses: Seq<RecordModel>,
}

impl View for TraceDefinition {
    type V = TraceModel;

    open spec fn view(&self) -> TraceModel {
        TraceModel {
            steps: steps_view(self.steps@),
            mock_responses: pool_view(self.mock_responses@),
        }
    }
}

} // verus!
