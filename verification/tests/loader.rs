use trace_harness::command::{CommandKind, Payload};
use trace_harness::command::CommandDescriptor;
use trace_harness::loader::{
    decode_payload, decode_record, decode_step, decode_trace, encode_command, encode_response,
    fits_shape, format_of, lowered, parse_test_case, read_document, EntryError, LoadError,
    TraceFormat,
};
use trace_harness::command::{Category, Shape};
use trace_harness::value::ResponseValue;

fn text(s: &str) -> ResponseValue {
    ResponseValue::Text(s.to_string())
}

fn num(n: u64) -> ResponseValue {
    ResponseValue::Number(serde_json::Number::from(n))
}

fn object(members: Vec<(&str, ResponseValue)>) -> ResponseValue {
    ResponseValue::Object(members.into_iter().map(|(k, v)| (k.to_string(), v)).collect())
}

const JSON_TRACE: &str = r#"{
  // the steps
  "commands": [
    { "type": "getVolume" },
    { "type": "getPreference", "data": { "key": "theme", "packageName": "pkg.foo" },
      "expected": { "value": "ignore", "id": 42 }, "interactive": true },
    { "type": "addPlaylist", "data": "mine", "expected": null }
  ],
  /* the pool */
  "requests": [
    { "type": "getPreference", "data": { "key": "pkg.foo.theme", "value": "dark" } },
    { "type": "getSong", "data": [] }
  ]
}"#;

const YAML_TRACE: &str = "
commands:
  - type: getVolume
  - type: addPlaylist
    data: mine
    expected: 7
requests:
  - type: getVolume
    data: 3
";

#[test]
fn extension_decides_the_format() {
    assert!(matches!(format_of(Some("json")), Ok(TraceFormat::Json)));
    assert!(matches!(format_of(Some("JSONC")), Ok(TraceFormat::Json)));
    assert!(matches!(format_of(Some("Yaml")), Ok(TraceFormat::Yaml)));
    assert!(matches!(format_of(Some("yml")), Ok(TraceFormat::Yaml)));
    assert!(matches!(format_of(Some("toml")), Err(LoadError::UnsupportedExtension)));
    assert!(matches!(format_of(Some("")), Err(LoadError::UnsupportedExtension)));
    assert!(matches!(format_of(None), Err(LoadError::MissingExtension)));
    assert_eq!(lowered("JsOn-Z@[`{"), "json-z@[`{");
}

#[test]
fn json_with_comments_loads() {
    let trace = match parse_test_case(Some("jsonc"), JSON_TRACE.as_bytes()) {
        Ok(t) => t,
        Err(_) => panic!("the document is a trace"),
    };
    assert_eq!(trace.steps.len(), 3);
    assert_eq!(trace.mock_responses.len(), 2);
    assert_eq!(trace.steps[0].command.kind, CommandKind::GetVolume);
    assert!(matches!(trace.steps[0].command.payload, Payload::Empty));
    assert!(trace.steps[0].expected.is_none());
    assert!(!trace.steps[0].interactive);
    assert!(trace.steps[1].interactive);
    match &trace.steps[1].command.payload {
        Payload::Selector { extension, key } => {
            assert_eq!(extension, "pkg.foo");
            assert_eq!(key, "theme");
        }
        _ => panic!("a selector kind carries a key"),
    }
    let expected = object(vec![("value", text("ignore")), ("id", num(42))]);
    assert!(trace.steps[1].expected.as_ref().unwrap().equal(&expected));
    assert!(trace.steps[2].expected.is_none());
    match &trace.steps[2].command.payload {
        Payload::Data(d) => assert!(d.equal(&text("mine"))),
        _ => panic!("a parameterized kind carries data"),
    }
    assert_eq!(trace.mock_responses[0].kind, CommandKind::GetPreference);
    assert!(trace.mock_responses[1].data.equal(&ResponseValue::Array(vec![])));
}

#[test]
fn yaml_loads() {
    let trace = match parse_test_case(Some("yml"), YAML_TRACE.as_bytes()) {
        Ok(t) => t,
        Err(_) => panic!("the document is a trace"),
    };
    assert_eq!(trace.steps.len(), 2);
    assert!(trace.steps[1].expected.as_ref().unwrap().equal(&num(7)));
    assert_eq!(trace.mock_responses.len(), 1);
    assert!(trace.mock_responses[0].data.equal(&num(3)));
}

#[test]
fn comments_are_blanked_before_parsing() {
    let doc = match read_document(TraceFormat::Json, b"{\"a\": /* one */ 1, # two\n \"b\": \"// no comment\"}") {
        Ok(d) => d,
        Err(_) => panic!("the document is well-formed"),
    };
    assert!(doc.equal(&object(vec![("a", num(1)), ("b", text("// no comment"))])));
}

#[test]
fn each_load_error_has_its_input() {
    assert!(matches!(parse_test_case(None, b"{}"), Err(LoadError::MissingExtension)));
    assert!(matches!(parse_test_case(Some("txt"), b"{}"), Err(LoadError::UnsupportedExtension)));
    assert!(matches!(parse_test_case(Some("json"), b"{ /* open"), Err(LoadError::BadComment)));
    assert!(matches!(parse_test_case(Some("json"), b"{ \"commands\": ["), Err(LoadError::Malformed(_))));
    assert!(matches!(parse_test_case(Some("yaml"), b"a: [1, 2"), Err(LoadError::Malformed(_))));
    assert!(matches!(parse_test_case(Some("json"), b"[]"), Err(LoadError::NotAnObject)));
    assert!(matches!(parse_test_case(Some("json"), b"{\"requests\": []}"), Err(LoadError::MissingCommands)));
    assert!(matches!(parse_test_case(Some("json"), b"{\"commands\": 1, \"requests\": []}"), Err(LoadError::MissingCommands)));
    assert!(matches!(parse_test_case(Some("json"), b"{\"commands\": []}"), Err(LoadError::MissingRequests)));
    assert!(matches!(
        parse_test_case(Some("json"), b"{\"commands\": [{\"type\": \"getVolume\"}, {\"type\": \"nothing\"}], \"requests\": [3]}"),
        Err(LoadError::BadCommand { index: 1, reason: EntryError::UnknownType })
    ));
    assert!(matches!(
        parse_test_case(Some("json"), b"{\"commands\": [], \"requests\": [{\"type\": \"getVolume\", \"data\": 1}, {\"type\": \"getVolume\", \"data\": \"loud\"}]}"),
        Err(LoadError::BadRequest { index: 1, reason: EntryError::BadData })
    ));
}

#[test]
fn each_entry_error_has_its_input() {
    assert!(matches!(decode_step(&num(1)), Err(EntryError::NotAnObject)));
    assert!(matches!(decode_step(&object(vec![("data", num(1))])), Err(EntryError::MissingType)));
    assert!(matches!(decode_step(&object(vec![("type", num(1))])), Err(EntryError::MissingType)));
    assert!(matches!(decode_step(&object(vec![("type", text("sing"))])), Err(EntryError::UnknownType)));
    assert!(matches!(
        decode_step(&object(vec![("type", text("getVolume")), ("data", num(1))])),
        Err(EntryError::BadData)
    ));
    assert!(matches!(decode_step(&object(vec![("type", text("getSong"))])), Err(EntryError::BadData)));
    assert!(matches!(
        decode_step(&object(vec![("type", text("getSecure")), ("data", object(vec![("key", num(1))]))])),
        Err(EntryError::BadData)
    ));
    assert!(matches!(
        decode_step(&object(vec![("type", text("getVolume")), ("interactive", text("yes"))])),
        Err(EntryError::BadInteractive)
    ));
    assert!(matches!(
        decode_step(&object(vec![("type", text("getVolume")), ("interactive", ResponseValue::Null)])),
        Err(EntryError::BadInteractive)
    ));
    assert!(matches!(decode_record(&text("x")), Err(EntryError::NotAnObject)));
    assert!(matches!(
        decode_record(&object(vec![("type", text("setPreference")), ("data", num(1))])),
        Err(EntryError::BadData)
    ));
    assert!(decode_record(&object(vec![("type", text("getEntity"))])).is_ok());
    assert!(decode_record(&object(vec![("type", text("getCurrentSong"))])).is_ok());
}

#[test]
fn payloads_follow_the_category() {
    assert!(matches!(decode_payload(Category::Parameterless, None), Some(Payload::Empty)));
    assert!(matches!(decode_payload(Category::Parameterless, Some(&ResponseValue::Null)), Some(Payload::Empty)));
    assert!(decode_payload(Category::Parameterless, Some(&num(1))).is_none());
    assert!(decode_payload(Category::Parameterized, None).is_none());
    assert!(matches!(decode_payload(Category::Parameterized, Some(&ResponseValue::Null)), Some(Payload::Data(_))));
    assert!(decode_payload(Category::Selector, None).is_none());
    assert!(decode_payload(Category::Selector, Some(&object(vec![("key", text("k")), ("packageName", num(1))]))).is_none());
    match decode_payload(Category::Selector, Some(&object(vec![("key", text("k"))]))) {
        Some(Payload::Selector { extension, key }) => {
            assert_eq!(extension, "");
            assert_eq!(key, "k");
        }
        _ => panic!("a key alone is a selector payload"),
    }
}

#[test]
fn shapes_are_checked() {
    assert!(fits_shape(Shape::Any, &num(1)));
    assert!(fits_shape(Shape::Optional, &ResponseValue::Null));
    assert!(fits_shape(Shape::Optional, &object(vec![])));
    assert!(!fits_shape(Shape::Optional, &num(1)));
    assert!(fits_shape(Shape::List, &ResponseValue::Array(vec![])));
    assert!(!fits_shape(Shape::List, &object(vec![])));
    assert!(fits_shape(Shape::Flag, &ResponseValue::Bool(true)));
    assert!(!fits_shape(Shape::Flag, &ResponseValue::Null));
    assert!(fits_shape(Shape::Number, &num(1)));
    assert!(!fits_shape(Shape::Number, &text("1")));
    assert!(fits_shape(Shape::Text, &text("1")));
    assert!(!fits_shape(Shape::Text, &num(1)));
    assert!(fits_shape(Shape::Record, &object(vec![])));
    assert!(!fits_shape(Shape::Record, &ResponseValue::Array(vec![])));
    assert!(fits_shape(Shape::Keyed, &object(vec![("key", text("k"))])));
    assert!(!fits_shape(Shape::Keyed, &object(vec![("key", num(1))])));
    assert!(!fits_shape(Shape::Keyed, &object(vec![])));
}

#[test]
fn a_tree_is_read_as_a_trace() {
    let doc = object(vec![
        ("requests", ResponseValue::Array(vec![])),
        ("commands", ResponseValue::Array(vec![object(vec![("type", text("getQueue"))])])),
        ("more", num(1)),
    ]);
    let trace = match decode_trace(&doc) {
        Ok(t) => t,
        Err(_) => panic!("the tree is a trace"),
    };
    assert_eq!(trace.steps.len(), 1);
    assert_eq!(trace.steps[0].command.kind, CommandKind::GetQueue);
    assert!(trace.mock_responses.is_empty());
}

#[test]
fn load_errors_are_put_in_words() {
    assert_eq!(LoadError::MissingExtension.message(), "Missing or invalid file extension");
    assert_eq!(LoadError::UnsupportedExtension.message(), "Unsupported file extension");
    assert_eq!(LoadError::Malformed("line 3".to_string()).message(), "line 3");
    assert_eq!(
        LoadError::BadCommand { index: 12, reason: EntryError::UnknownType }.message(),
        "The command at index 12 names an unknown type"
    );
    assert_eq!(
        LoadError::BadRequest { index: 0, reason: EntryError::BadData }.message(),
        "The request at index 0 carries data that does not fit its type"
    );
    assert_eq!(EntryError::BadInteractive.words(), "has an `interactive` that is not a boolean");
}

#[test]
fn a_malformed_document_fails_with_the_parsers_words() {
    let json = b"{ \"commands\": [";
    let want = serde_json::from_slice::<serde_json::Value>(json).unwrap_err().to_string();
    match parse_test_case(Some("json"), json) {
        Err(LoadError::Malformed(words)) => {
            assert!(!words.is_empty());
            assert_eq!(words, want);
        }
        _ => panic!("the document is malformed"),
    }
    let yaml = b"a: [1, 2";
    let want = serde_yaml::from_slice::<serde_json::Value>(yaml).unwrap_err().to_string();
    match parse_test_case(Some("yaml"), yaml) {
        Err(e) => {
            assert!(!want.is_empty());
            assert_eq!(e.message(), want);
        }
        Ok(_) => panic!("the document is malformed"),
    }
}

#[test]
fn a_written_command_reads_back() {
    let commands = vec![
        CommandDescriptor { kind: CommandKind::GetVolume, payload: Payload::Empty },
        CommandDescriptor {
            kind: CommandKind::GetPreference,
            payload: Payload::Selector { extension: "pkg.foo".to_string(), key: "theme".to_string() },
        },
        CommandDescriptor {
            kind: CommandKind::GetSecure,
            payload: Payload::Selector { extension: String::new(), key: "k".to_string() },
        },
        CommandDescriptor { kind: CommandKind::AddPlaylist, payload: Payload::Data(text("mine")) },
        CommandDescriptor { kind: CommandKind::GetSong, payload: Payload::Data(ResponseValue::Null) },
    ];
    for command in commands {
        let entry = encode_command(&command);
        let step = match decode_step(&entry) {
            Ok(s) => s,
            Err(_) => panic!("a written command is an entry"),
        };
        assert_eq!(step.command.kind, command.kind);
        assert!(step.expected.is_none());
        assert!(!step.interactive);
        match (&step.command.payload, &command.payload) {
            (Payload::Empty, Payload::Empty) => {}
            (Payload::Data(a), Payload::Data(b)) => assert_eq!(a, b),
            (
                Payload::Selector { extension: e1, key: k1 },
                Payload::Selector { extension: e2, key: k2 },
            ) => {
                assert_eq!(e1, e2);
                assert_eq!(k1, k2);
            }
            _ => panic!("the payload keeps its form"),
        }
    }
    let entry = encode_command(&CommandDescriptor {
        kind: CommandKind::GetPreference,
        payload: Payload::Selector { extension: "pkg.foo".to_string(), key: "theme".to_string() },
    });
    assert_eq!(
        entry.to_compact_text(),
        "{\"data\":{\"key\":\"theme\",\"packageName\":\"pkg.foo\"},\"type\":\"getPreference\"}"
    );
}

#[test]
fn a_written_response_reads_back() {
    let entry = encode_response(CommandKind::GetVolume, &num(3));
    assert_eq!(entry.to_compact_text(), "{\"data\":3,\"type\":\"getVolume\"}");
    match decode_record(&entry) {
        Ok(record) => {
            assert_eq!(record.kind, CommandKind::GetVolume);
            assert_eq!(record.data, num(3));
            let copy = record.clone();
            assert_eq!(copy.kind, record.kind);
            assert_eq!(copy.data, record.data);
        }
        Err(_) => panic!("a written response is an entry"),
    }
    assert!(matches!(
        decode_record(&encode_response(CommandKind::GetVolume, &text("loud"))),
        Err(EntryError::BadData)
    ));
}
