//! The sequencer: the state machine that drives one trace to its end or to
//! its first failure. It decides; its caller talks to the host and to the
//! operator, and hands back what they said.

use vstd::prelude::*;
use vstd::string::StringExecFns;
use crate::command::{category_of, CommandDescriptor, CommandModel};
use crate::loader::{decode_payload, payload_of};
use crate::mock::{describe_query, pool_view, query_description, RecordModel};
use crate::text::{decimal, decimal_text};
use crate::trace::{steps_view, StepModel, TraceDefinition, TraceModel};
use crate::validate::{message_text, validate, verdict, MismatchReport, ReportModel};
use crate::value::{ResponseValue, Tree};

verus! {

/// What the host says of one installed extension.
#[derive(Debug)]
pub struct ExtensionStatus {
    pub package_name: String,
    pub active: bool,
}

/// Where a run stands.
#[derive(Clone, Copy, PartialEq, Eq, Structural, Debug)]
pub enum Phase {
    /// Waiting for the host to have its extensions active.
    AwaitingHostReady,
    /// Waiting for the operator to supply what the step at this index
    /// carries.
    AwaitingPayload(usize),
    /// Waiting for the host's response to the step at this index.
    AwaitingResponse(usize),
    /// Every step was validated.
    Completed,
    /// The step at this index failed; the run is over.
    Failed(usize),
}

/// What happened outside.
#[derive(Debug)]
pub enum Event {
    /// The host listed its extensions.
    Extensions(Vec<ExtensionStatus>),
    /// The operator supplied the data of the step that waits for it.
    Payload(ResponseValue),
    /// The host answered the command that was sent.
    Response(ResponseValue),
}

/// The model of what the host says of one extension.
pub struct ExtensionModel {
    pub package_name: Seq<char>,
    pub active: bool,
}

impl View for ExtensionStatus {
    type V = ExtensionModel;

    open spec fn view(&self) -> ExtensionModel {
        ExtensionModel { package_name: self.package_name@, active: self.active }
    }
}

/// The model of an event.
pub enum EventModel {
    Extensions(Seq<ExtensionModel>),
    Payload(Tree),
    Response(Tree),
}

/// The models of the listed extensions, in order.
pub open spec fn listed(exts: Seq<ExtensionStatus>) -> Seq<ExtensionModel> {
    Seq::new(exts.len(), |i: int| exts[i]@)
}

impl View for Event {
    type V = EventModel;

    open spec fn view(&self) -> EventModel {
        match self {
            Event::Extensions(exts) => EventModel::Extensions(listed(exts@)),
            Event::Payload(v) => EventModel::Payload(v@),
            Event::Response(v) => EventModel::Response(v@),
        }
    }
}

/// What the caller is to do next.
#[derive(Debug)]
pub enum Action {
    /// Wait a while, then list the host's extensions again.
    Wait,
    /// Ask the operator for the data of the step at this index.
    AskPayload(usize),
    /// Send the command of the step at this index to the host.
    Send(usize, CommandDescriptor),
    /// The run is over: every step was validated.
    Done,
    /// The run is over: the step at this index failed.
    Stop(usize),
    /// The event was not awaited; nothing changes.
    Ignore,
}

/// The model of an action.
pub enum ActionModel {
    Wait,
    AskPayload(int),
    Send(int, CommandModel),
    Done,
    Stop(int),
    Ignore,
}

impl View for Action {
    type V = ActionModel;

    open spec fn view(&self) -> ActionModel {
        match self {
            Action::Wait => ActionModel::Wait,
            Action::AskPayload(i) => ActionModel::AskPayload(*i as int),
            Action::Send(i, c) => ActionModel::Send(*i as int, c@),
            Action::Done => ActionModel::Done,
            Action::Stop(i) => ActionModel::Stop(*i as int),
            Action::Ignore => ActionModel::Ignore,
        }
    }
}

/// The model of a run: the steps as they now are, the pool of mock
/// responses, where the run stands, and the report of the failure if it
/// failed.
pub struct RunModel {
    pub steps: Seq<StepModel>,
    pub mock_responses: Seq<RecordModel>,
    pub phase: Phase,
    pub report: Option<ReportModel>,
}

/// The host is ready when it lists at least one extension and every listed
/// extension is active.
pub open spec fn host_ready(exts: Seq<ExtensionModel>) -> bool {
    exts.len() > 0 && forall|i: int| 0 <= i < exts.len() ==> exts[i].active
}

/// Where a run stands when it comes to the step at `i`: at its end behind
/// the last step, else waiting for the operator if the step is interactive,
/// else for the host.
pub open spec fn entering(steps: Seq<StepModel>, i: int) -> Phase {
    if i >= steps.len() {
        Phase::Completed
    } else if steps[i].interactive {
        Phase::AwaitingPayload(i as usize)
    } else {
        Phase::AwaitingResponse(i as usize)
    }
}

/// What is to be done when a run comes to the step at `i`.
pub open spec fn entering_action(steps: Seq<StepModel>, i: int) -> ActionModel {
    if i >= steps.len() {
        ActionModel::Done
    } else if steps[i].interactive {
        ActionModel::AskPayload(i)
    } else {
        ActionModel::Send(i, steps[i].command)
    }
}

/// The step with what it carries replaced.
pub open spec fn with_payload(step: StepModel, payload: crate::command::PayloadModel) -> StepModel {
    StepModel {
        command: CommandModel { kind: step.command.kind, payload },
        expected: step.expected,
        interactive: step.interactive,
    }
}

/// The run after an event. An event that the run does not wait for changes
/// nothing, and a run that is over stays as it is. The pool of mock
/// responses never changes.
pub open spec fn next_state(run: RunModel, event: EventModel) -> RunModel {
    match (run.phase, event) {
        (Phase::AwaitingHostReady, EventModel::Extensions(active)) => if host_ready(active) {
            RunModel { phase: entering(run.steps, 0), ..run }
        } else {
            run
        },
        (Phase::AwaitingPayload(i), EventModel::Payload(data)) => match payload_of(
            category_of(run.steps[i as int].command.kind),
            Some(data),
        ) {
            Some(payload) => RunModel {
                steps: run.steps.update(i as int, with_payload(run.steps[i as int], payload)),
                phase: Phase::AwaitingResponse(i),
                ..run
            },
            None => run,
        },
        (Phase::AwaitingResponse(i), EventModel::Response(actual)) => match verdict(
            actual,
            run.steps[i as int].expected,
        ) {
            Ok(_) => RunModel { phase: entering(run.steps, i + 1), ..run },
            Err(report) => RunModel { phase: Phase::Failed(i), report: Some(report), ..run },
        },
        _ => run,
    }
}

/// What the caller is to do after an event.
pub open spec fn next_action(run: RunModel, event: EventModel) -> ActionModel {
    match (run.phase, event) {
        (Phase::AwaitingHostReady, EventModel::Extensions(active)) => if host_ready(active) {
            entering_action(run.steps, 0)
        } else {
            ActionModel::Wait
        },
        (Phase::AwaitingPayload(i), EventModel::Payload(data)) => match payload_of(
            category_of(run.steps[i as int].command.kind),
            Some(data),
        ) {
            Some(payload) => ActionModel::Send(
                i as int,
                with_payload(run.steps[i as int], payload).command,
            ),
            None => ActionModel::AskPayload(i as int),
        },
        (Phase::AwaitingResponse(i), EventModel::Response(actual)) => match verdict(
            actual,
            run.steps[i as int].expected,
        ) {
            Ok(_) => entering_action(run.steps, i + 1),
            Err(_) => ActionModel::Stop(i as int),
        },
        _ => ActionModel::Ignore,
    }
}

/// A run is sound when the step it stands at exists and it holds a report
/// if it has failed.
pub open spec fn sound(run: RunModel) -> bool {
    match run.phase {
        Phase::AwaitingPayload(i) => i < run.steps.len(),
        Phase::AwaitingResponse(i) => i < run.steps.len(),
        Phase::Failed(i) => i < run.steps.len() && run.report is Some,
        _ => true,
    }
}

/// A sound run stays sound, and its steps stay as many.
pub proof fn lemma_sound_stays(run: RunModel, event: EventModel)
    requires
        sound(run),
        run.steps.len() <= usize::MAX,
    ensures
        sound(next_state(run, event)),
        next_state(run, event).steps.len() == run.steps.len(),
{
}

/// A run that is over stays as it is whatever comes, and asks for nothing:
/// after the first failure no further step runs.
pub proof fn lemma_over_is_over(run: RunModel, event: EventModel)
    requires
        run.phase is Failed || run.phase is Completed,
    ensures
        next_state(run, event) == run,
        next_action(run, event) == ActionModel::Ignore,
{
}

/// The steps run strictly in order: a validated response to the step at `i`
/// brings the run to the step at `i + 1`, or to its end behind the last.
pub proof fn lemma_steps_in_order(run: RunModel, actual: Tree, i: usize)
    requires
        sound(run),
        run.phase == Phase::AwaitingResponse(i),
        verdict(actual, run.steps[i as int].expected) is Ok,
    ensures
        next_state(run, EventModel::Response(actual)).phase == entering(run.steps, i + 1),
        next_state(run, EventModel::Response(actual)).phase is Completed <==> i + 1
            == run.steps.len(),
{
}

/// Whether the host is ready: it lists at least one extension and every
/// listed extension is active.
pub fn is_host_ready(exts: &[ExtensionStatus]) -> (ready: bool)
    ensures
        ready == host_ready(listed(exts@)),
{
    if exts.len() == 0 {
        return false;
    }
    let mut i: usize = 0;
    while i < exts.len()
        invariant
            0 <= i <= exts@.len(),
            forall|j: int| 0 <= j < i ==> listed(exts@)[j].active,
        decreases exts@.len() - i,
    {
        if !exts[i].active {
            assert(!listed(exts@)[i as int].active);
            return false;
        }
        i += 1;
    }
    true
}

/// One run of one trace.
#[derive(Debug)]
pub struct Sequencer {
    trace: TraceDefinition,
    phase: Phase,
    report: Option<MismatchReport>,
}

/// The model of an optional report.
pub open spec fn report_view(report: Option<MismatchReport>) -> Option<ReportModel> {
    match report {
        Some(r) => Some(r@),
        None => None,
    }
}

impl View for Sequencer {
    type V = RunModel;

    closed spec fn view(&self) -> RunModel {
        RunModel {
            steps: steps_view(self.trace.steps@),
            mock_responses: pool_view(self.trace.mock_responses@),
            phase: self.phase,
            report: report_view(self.report),
        }
    }
}

/// The line that announces a step: its number, counted from one, the number
/// of steps, and the description of its command.
pub open spec fn step_line(steps: Seq<StepModel>, i: int) -> Seq<char> {
    "Command ["@ + decimal((i + 1) as nat) + "/"@ + decimal(steps.len()) + "]: "@
        + query_description(steps[i].command)
}

/// What is reported of a failed run: the line of the step that failed and
/// the message of the report.
pub open spec fn failure_text(run: RunModel) -> Option<Seq<char>> {
    match (run.phase, run.report) {
        (Phase::Failed(i), Some(report)) => Some(
            step_line(run.steps, i as int) + seq!['\n'] + message_text(report),
        ),
        _ => None,
    }
}

impl Sequencer {
    #[verifier::type_invariant]
    spec fn inv(self) -> bool {
        sound(self@)
    }

    /// A run of the trace that has not begun: it waits for the host.
    pub fn new(trace: TraceDefinition) -> (run: Sequencer)
        ensures
            run@ == (RunModel {
                steps: trace@.steps,
                mock_responses: trace@.mock_responses,
                phase: Phase::AwaitingHostReady,
                report: None,
            }),
    {
        Sequencer { trace, phase: Phase::AwaitingHostReady, report: None }
    }

    /// Where the run stands.
    pub fn phase(&self) -> (phase: Phase)
        ensures
            phase == self@.phase,
            sound(self@),
    {
        proof {
            use_type_invariant(self);
        }
        self.phase
    }

    /// The number of steps of the trace.
    pub fn total(&self) -> (n: usize)
        ensures
            n == self@.steps.len(),
    {
        self.trace.steps.len()
    }

    /// The report of the failure, if the run has failed.
    pub fn report(&self) -> (report: Option<&MismatchReport>)
        ensures
            match report {
                Some(r) => self@.report == Some(r@),
                None => self@.report is None,
            },
    {
        self.report.as_ref()
    }

    /// The trace of the run: its steps with what the operator has supplied
    /// so far, and its pool of mock responses, which the run only holds.
    pub fn trace(&self) -> (trace: &TraceDefinition)
        ensures
            trace@ == (TraceModel { steps: self@.steps, mock_responses: self@.mock_responses }),
    {
        &self.trace
    }

    /// The line that announces the step at `i`.
    pub fn describe_step(&self, i: usize) -> (line: String)
        requires
            i < self@.steps.len(),
        ensures
            line@ == step_line(self@.steps, i as int),
    {
        let mut line = String::from_str("Command [");
        let n = self.trace.steps.len();
        assert(i < n);
        let number = decimal_text(i + 1);
        line.append(number.as_str());
        line.append("/");
        let total = decimal_text(n);
        line.append(total.as_str());
        line.append("]: ");
        let description = describe_query(&self.trace.steps[i].command);
        line.append(description.as_str());
        line
    }

    /// What is reported of the run if it has failed: which step failed, of
    /// how many, what its command was, and how the response differs.
    pub fn failure_message(&self) -> (text: Option<String>)
        ensures
            match text {
                Some(t) => failure_text(self@) == Some(t@),
                None => failure_text(self@) is None,
            },
    {
        proof {
            use_type_invariant(self);
        }
        match (self.phase, &self.report) {
            (Phase::Failed(i), Some(report)) => {
                let mut text = self.describe_step(i);
                text.push('\n');
                let message = report.message();
                text.append(message.as_str());
                Some(text)
            },
            _ => None,
        }
    }

    /// Brings the run to the step at `i`, or to its end behind the last.
    fn enter(&mut self, i: usize) -> (action: Action)
        requires
            i <= old(self)@.steps.len(),
            !(old(self)@.phase is Failed),
        ensures
            final(self)@ == (RunModel { phase: entering(old(self)@.steps, i as int), ..old(self)@ }),
            action@ == entering_action(old(self)@.steps, i as int),
    {
        if i >= self.trace.steps.len() {
            self.phase = Phase::Completed;
            Action::Done
        } else if self.trace.steps[i].interactive {
            self.phase = Phase::AwaitingPayload(i);
            Action::AskPayload(i)
        } else {
            self.phase = Phase::AwaitingResponse(i);
            Action::Send(i, self.trace.steps[i].command.clone())
        }
    }

    /// Takes an event and says what to do next. While the host is not ready
    /// the run waits. Then the steps run in order: an interactive step first
    /// asks the operator for its data, as often as the data does not fit
    /// the step's kind; the command is sent; the response is validated. A
    /// response that passes brings the next step, one that fails ends the
    /// run with its report. An event that is not awaited changes nothing.
    pub fn advance(&mut self, event: Event) -> (action: Action)
        ensures
            final(self)@ == next_state(old(self)@, event@),
            action@ == next_action(old(self)@, event@),
    {
        proof {
            use_type_invariant(&*self);
        }
        match (self.phase, event) {
            (Phase::AwaitingHostReady, Event::Extensions(exts)) => {
                if is_host_ready(exts.as_slice()) {
                    self.enter(0)
                } else {
                    Action::Wait
                }
            },
            (Phase::AwaitingPayload(i), Event::Payload(data)) => {
                let category = self.trace.steps[i].command.kind.category();
                match decode_payload(category, Some(&data)) {
                    Some(payload) => {
                        let ghost before = self.trace.steps@;
                        self.trace.steps[i].command.payload = payload;
                        self.phase = Phase::AwaitingResponse(i);
                        proof {
                            assert(steps_view(self.trace.steps@) =~= steps_view(before).update(
                                i as int,
                                with_payload(before[i as int]@, payload@),
                            ));
                        }
                        Action::Send(i, self.trace.steps[i].command.clone())
                    },
                    None => Action::AskPayload(i),
                }
            },
            (Phase::AwaitingResponse(i), Event::Response(actual)) => {
                let expected = match &self.trace.steps[i].expected {
                    Some(e) => Some(e.clone()),
                    None => None,
                };
                let n = self.trace.steps.len();
                assert(i < n);
                match validate(actual, expected) {
                    Ok(_) => self.enter(i + 1),
                    Err(report) => {
                        self.report = Some(report);
                        self.phase = Phase::Failed(i);
                        Action::Stop(i)
                    },
                }
            },
            _ => Action::Ignore,
        }
    }
}

} // verus!
