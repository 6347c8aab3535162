use trace_harness::command::{Category, CommandDescriptor, CommandKind, Payload, Shape};
use trace_harness::mock::{
    answer_query, create_default_response, create_response_from_request, describe_query,
    describe_response, find_matching_preference, find_matching_request, query_key, synthesize,
    MockResponseRecord,
};
use trace_harness::value::ResponseValue;

fn text(s: &str) -> ResponseValue {
    ResponseValue::Text(s.to_string())
}

fn num(n: u64) -> ResponseValue {
    ResponseValue::Number(serde_json::Number::from(n))
}

fn object(members: Vec<(&str, ResponseValue)>) -> ResponseValue {
    ResponseValue::Object(members.into_iter().map(|(k, v)| (k.to_string(), v)).collect())
}

fn preference(key: &str, value: ResponseValue) -> ResponseValue {
    object(vec![("key", text(key)), ("value", value)])
}

fn selector(kind: CommandKind, extension: &str, key: &str) -> CommandDescriptor {
    CommandDescriptor {
        kind,
        payload: Payload::Selector { extension: extension.to_string(), key: key.to_string() },
    }
}

fn every_kind() -> Vec<CommandKind> {
    vec![
        CommandKind::GetSong,
        CommandKind::GetEntity,
        CommandKind::GetCurrentSong,
        CommandKind::GetPlayerState,
        CommandKind::GetVolume,
        CommandKind::GetTime,
        CommandKind::GetQueue,
        CommandKind::GetPreference,
        CommandKind::SetPreference,
        CommandKind::GetSecure,
        CommandKind::SetSecure,
        CommandKind::AddSongs,
        CommandKind::RemoveSong,
        CommandKind::UpdateSong,
        CommandKind::AddPlaylist,
        CommandKind::AddToPlaylist,
        CommandKind::RegisterOAuth,
        CommandKind::OpenExternalUrl,
        CommandKind::UpdateAccounts,
        CommandKind::ExtensionsUpdated,
    ]
}

#[test]
fn selector_query_gets_the_record_under_its_qualified_key() {
    let pool = vec![
        MockResponseRecord { kind: CommandKind::GetPreference, data: preference("pkg.foo.other", text("no")) },
        MockResponseRecord { kind: CommandKind::GetPreference, data: preference("pkg.foo.theme", text("dark")) },
    ];
    let query = selector(CommandKind::GetPreference, "pkg.foo", "theme");
    let response = synthesize(&query, &pool);
    assert!(response.equal(&preference("pkg.foo.theme", text("dark"))));
    assert_eq!(find_matching_request(&query, &pool), Some(1));
}

#[test]
fn selector_query_never_gets_a_record_under_another_key() {
    let pool = vec![
        MockResponseRecord { kind: CommandKind::GetPreference, data: preference("pkg.foo.other", text("no")) },
        MockResponseRecord { kind: CommandKind::GetSecure, data: preference("pkg.foo.theme", text("secret")) },
    ];
    let query = selector(CommandKind::GetPreference, "pkg.foo", "theme");
    assert_eq!(find_matching_request(&query, &pool), None);
    let response = synthesize(&query, &pool);
    assert!(response.equal(&preference("", ResponseValue::Null)));
}

#[test]
fn the_first_of_two_records_wins() {
    let pool = vec![
        MockResponseRecord { kind: CommandKind::GetVolume, data: num(3) },
        MockResponseRecord { kind: CommandKind::GetPreference, data: preference("k", num(1)) },
        MockResponseRecord { kind: CommandKind::GetVolume, data: num(9) },
        MockResponseRecord { kind: CommandKind::GetPreference, data: preference("k", num(2)) },
    ];
    let volume = CommandDescriptor { kind: CommandKind::GetVolume, payload: Payload::Empty };
    assert!(synthesize(&volume, &pool).equal(&num(3)));
    let pref = selector(CommandKind::GetPreference, "", "k");
    assert!(synthesize(&pref, &pool).equal(&preference("k", num(1))));
    assert_eq!(find_matching_preference("k", &pool, CommandKind::GetPreference), Some(1));
    assert_eq!(find_matching_preference("k", &pool, CommandKind::GetVolume), None);
}

#[test]
fn an_empty_pool_gives_each_kind_its_default() {
    for kind in every_kind() {
        let payload = match kind.category() {
            Category::Parameterless => Payload::Empty,
            Category::Selector => Payload::Selector { extension: String::new(), key: "k".to_string() },
            Category::Parameterized => Payload::Data(ResponseValue::Null),
        };
        let query = CommandDescriptor { kind, payload };
        assert!(query.is_well_formed());
        let want = match kind.shape() {
            Shape::Any | Shape::Optional => ResponseValue::Null,
            Shape::List => ResponseValue::Array(vec![]),
            Shape::Flag => ResponseValue::Bool(false),
            Shape::Number => num(0),
            Shape::Text => text(""),
            Shape::Record => object(vec![]),
            Shape::Keyed => preference("", ResponseValue::Null),
        };
        assert!(synthesize(&query, &[]).equal(&want));
        assert!(create_default_response(&query).equal(&want));
    }
}

#[test]
fn the_default_number_is_written_as_zero() {
    let query = CommandDescriptor { kind: CommandKind::GetTime, payload: Payload::Empty };
    assert_eq!(create_default_response(&query).to_compact_text(), "0");
}

#[test]
fn a_record_gives_its_data_as_recorded() {
    let record = MockResponseRecord {
        kind: CommandKind::GetSong,
        data: ResponseValue::Array(vec![object(vec![("title", text("a"))])]),
    };
    let response = create_response_from_request(&record);
    assert!(response.equal(&record.data));
}

#[test]
fn the_key_is_qualified_by_the_extension() {
    assert_eq!(query_key("pkg.foo", "theme"), "pkg.foo.theme");
    assert_eq!(query_key("", "theme"), "theme");
}

#[test]
fn names_and_kinds_go_both_ways() {
    for kind in every_kind() {
        assert_eq!(CommandKind::from_name(kind.name()), Some(kind));
        let info = kind.info();
        assert_eq!(info.category, kind.category());
        assert_eq!(info.shape, kind.shape());
    }
    assert_eq!(CommandKind::from_name("GetSong"), None);
    assert_eq!(CommandKind::GetSong.name(), "getSong");
    assert_eq!(CommandKind::RegisterOAuth.name(), "registerOAuth");
    assert_eq!(CommandKind::RegisterOAuth.label(), "RegisterOAuth");
}

#[test]
fn categories_are_as_declared() {
    assert_eq!(CommandKind::GetPreference.category(), Category::Selector);
    assert_eq!(CommandKind::GetSecure.category(), Category::Selector);
    assert_eq!(CommandKind::GetCurrentSong.category(), Category::Parameterless);
    assert_eq!(CommandKind::ExtensionsUpdated.category(), Category::Parameterless);
    assert_eq!(CommandKind::GetSong.category(), Category::Parameterized);
    assert_eq!(CommandKind::SetPreference.category(), Category::Parameterized);
}

#[test]
fn a_payload_of_the_wrong_form_breaks_the_invariant() {
    let bad = CommandDescriptor { kind: CommandKind::GetVolume, payload: Payload::Data(num(1)) };
    assert!(!bad.is_well_formed());
    let selector_without_key = CommandDescriptor { kind: CommandKind::GetSecure, payload: Payload::Empty };
    assert!(!selector_without_key.is_well_formed());
    assert_eq!(find_matching_request(&selector_without_key, &[
        MockResponseRecord { kind: CommandKind::GetSecure, data: preference("k", num(1)) },
    ]), None);
}

#[test]
fn queries_and_answers_are_described() {
    let pool = vec![
        MockResponseRecord { kind: CommandKind::GetPreference, data: preference("pkg.foo.theme", text("dark")) },
    ];
    let query = selector(CommandKind::GetPreference, "pkg.foo", "theme");
    let answer = answer_query(&query, &pool);
    assert_eq!(answer.request_description, "GetPreference with key 'pkg.foo.theme'");
    assert_eq!(answer.response_description, "data for key 'pkg.foo.theme': '\"dark\"'");
    assert!(answer.response.equal(&preference("pkg.foo.theme", text("dark"))));

    let song = CommandDescriptor {
        kind: CommandKind::GetSong,
        payload: Payload::Data(object(vec![("title", text("a"))])),
    };
    assert_eq!(describe_query(&song), "GetSong({\"title\":\"a\"})");
    let volume = CommandDescriptor { kind: CommandKind::GetVolume, payload: Payload::Empty };
    assert_eq!(describe_query(&volume), "GetVolume");
    assert_eq!(describe_response(CommandKind::GetVolume, &num(3)), "GetVolume(3)");
    assert_eq!(describe_response(CommandKind::GetSecure, &ResponseValue::Null), "data for key '': 'null'");
}
