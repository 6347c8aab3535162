use trace_harness::batch::{is_trace_file, Batch, Due};
use trace_harness::command::{CommandDescriptor, CommandKind, Payload};
use trace_harness::mock::MockResponseRecord;
use trace_harness::sequencer::{is_host_ready, Action, Event, ExtensionStatus, Phase, Sequencer};
use trace_harness::trace::{InvocationStep, TraceDefinition};
use trace_harness::validate::MismatchReport;
use trace_harness::value::ResponseValue;

fn text(s: &str) -> ResponseValue {
    ResponseValue::Text(s.to_string())
}

fn num(n: u64) -> ResponseValue {
    ResponseValue::Number(serde_json::Number::from(n))
}

fn object(members: Vec<(&str, ResponseValue)>) -> ResponseValue {
    ResponseValue::Object(members.into_iter().map(|(k, v)| (k.to_string(), v)).collect())
}

fn ext(name: &str, active: bool) -> ExtensionStatus {
    ExtensionStatus { package_name: name.to_string(), active }
}

fn step(kind: CommandKind, payload: Payload, expected: Option<ResponseValue>, interactive: bool) -> InvocationStep {
    InvocationStep { command: CommandDescriptor { kind, payload }, expected, interactive }
}

fn ready() -> Event {
    Event::Extensions(vec![ext("pkg.foo", true)])
}

#[test]
fn host_is_ready_with_one_extension_and_all_active() {
    assert!(!is_host_ready(&[]));
    assert!(is_host_ready(&[ext("a", true)]));
    assert!(!is_host_ready(&[ext("a", true), ext("b", false)]));
    assert!(is_host_ready(&[ext("a", true), ext("b", true)]));
}

#[test]
fn parameterless_command_without_expectation_fails_on_a_value() {
    let trace = TraceDefinition {
        steps: vec![step(CommandKind::GetVolume, Payload::Empty, None, false)],
        mock_responses: vec![],
    };
    let mut run = Sequencer::new(trace);
    assert_eq!(run.phase(), Phase::AwaitingHostReady);
    assert!(matches!(run.advance(Event::Extensions(vec![])), Action::Wait));
    assert!(matches!(run.advance(Event::Extensions(vec![ext("a", false)])), Action::Wait));
    match run.advance(ready()) {
        Action::Send(0, command) => assert_eq!(command.kind, CommandKind::GetVolume),
        _ => panic!("the first command is due"),
    }
    assert_eq!(run.phase(), Phase::AwaitingResponse(0));
    assert!(matches!(run.advance(Event::Response(num(5))), Action::Stop(0)));
    assert_eq!(run.phase(), Phase::Failed(0));
    match run.report() {
        Some(MismatchReport::ExpectedNull { received }) => assert_eq!(received, "5"),
        _ => panic!("a value where none was expected"),
    }
    assert_eq!(
        run.failure_message().unwrap(),
        "Command [1/1]: GetVolume\nexpected null, received 5"
    );
    assert!(matches!(run.advance(Event::Response(ResponseValue::Null)), Action::Ignore));
    assert_eq!(run.phase(), Phase::Failed(0));
}

#[test]
fn steps_run_in_order_to_completion() {
    let expected = object(vec![("value", text("ignore")), ("id", num(42))]);
    let trace = TraceDefinition {
        steps: vec![
            step(CommandKind::GetVolume, Payload::Empty, None, false),
            step(CommandKind::GetSong, Payload::Data(text("q")), Some(expected), false),
        ],
        mock_responses: vec![],
    };
    let mut run = Sequencer::new(trace);
    assert_eq!(run.total(), 2);
    assert!(run.failure_message().is_none());
    assert!(matches!(run.advance(Event::Response(ResponseValue::Null)), Action::Ignore));
    assert!(matches!(run.advance(ready()), Action::Send(0, _)));
    assert!(matches!(run.advance(ready()), Action::Ignore));
    assert!(matches!(run.advance(Event::Response(ResponseValue::Null)), Action::Send(1, _)));
    assert_eq!(run.describe_step(1), "Command [2/2]: GetSong(\"q\")");
    let actual = object(vec![("value", object(vec![("nested", text("x"))])), ("id", num(42))]);
    assert!(matches!(run.advance(Event::Response(actual)), Action::Done));
    assert_eq!(run.phase(), Phase::Completed);
    assert!(run.report().is_none());
    assert!(matches!(run.advance(ready()), Action::Ignore));
}

#[test]
fn an_empty_trace_completes_at_once() {
    let mut run = Sequencer::new(TraceDefinition { steps: vec![], mock_responses: vec![] });
    assert!(matches!(run.advance(ready()), Action::Done));
    assert_eq!(run.phase(), Phase::Completed);
}

#[test]
fn interactive_step_asks_until_the_data_fits() {
    let trace = TraceDefinition {
        steps: vec![step(
            CommandKind::GetPreference,
            Payload::Selector { extension: String::new(), key: "old".to_string() },
            Some(text("ignore")),
            true,
        )],
        mock_responses: vec![],
    };
    let mut run = Sequencer::new(trace);
    assert!(matches!(run.advance(ready()), Action::AskPayload(0)));
    assert_eq!(run.phase(), Phase::AwaitingPayload(0));
    assert!(matches!(run.advance(Event::Payload(num(1))), Action::AskPayload(0)));
    assert!(matches!(run.advance(Event::Response(num(1))), Action::Ignore));
    let data = object(vec![("key", text("theme")), ("packageName", text("pkg.foo"))]);
    match run.advance(Event::Payload(data)) {
        Action::Send(0, command) => match command.payload {
            Payload::Selector { extension, key } => {
                assert_eq!(extension, "pkg.foo");
                assert_eq!(key, "theme");
            }
            _ => panic!("the kind stays a selector"),
        },
        _ => panic!("the command is due once its data fits"),
    }
    match &run.trace().steps[0].command.payload {
        Payload::Selector { key, .. } => assert_eq!(key, "theme"),
        _ => panic!("the step holds what the operator gave"),
    }
    assert!(matches!(run.advance(Event::Response(ResponseValue::Null)), Action::Done));
}

#[test]
fn second_of_three_files_fails_and_the_third_never_runs() {
    let mut batch = Batch::new(3);
    assert_eq!(batch.due(), Due::Run(0));
    batch.record(true);
    assert_eq!(batch.due(), Due::Run(1));
    batch.record(false);
    assert_eq!(batch.due(), Due::Failed(1));
    batch.record(true);
    assert_eq!(batch.due(), Due::Failed(1));
}

#[test]
fn a_batch_ends_when_every_file_passed() {
    let mut batch = Batch::new(2);
    batch.record(true);
    batch.record(true);
    assert_eq!(batch.due(), Due::AllPassed);
    batch.record(false);
    assert_eq!(batch.due(), Due::AllPassed);
    assert_eq!(Batch::new(0).due(), Due::AllPassed);
}

#[test]
fn trace_files_are_told_by_their_extension() {
    assert!(is_trace_file(Some("json")));
    assert!(is_trace_file(Some("jsonc")));
    assert!(is_trace_file(Some("yaml")));
    assert!(is_trace_file(Some("yml")));
    assert!(!is_trace_file(Some("JSON")));
    assert!(!is_trace_file(Some("txt")));
    assert!(!is_trace_file(None));
}

#[test]
fn the_run_holds_the_pool_unchanged() {
    let trace = TraceDefinition {
        steps: vec![step(CommandKind::GetVolume, Payload::Empty, None, false)],
        mock_responses: vec![MockResponseRecord { kind: CommandKind::GetVolume, data: num(3) }],
    };
    let mut run = Sequencer::new(trace);
    assert_eq!(run.trace().mock_responses.len(), 1);
    run.advance(ready());
    run.advance(Event::Response(ResponseValue::Null));
    assert_eq!(run.phase(), Phase::Completed);
    assert_eq!(run.trace().mock_responses.len(), 1);
    assert_eq!(run.trace().mock_responses[0].kind, CommandKind::GetVolume);
    assert_eq!(run.trace().mock_responses[0].data, num(3));
}
