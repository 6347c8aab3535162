use trace_harness::diff::{pretty_print_diff, remove_one_leading_whitespace};
use trace_harness::nulls::remove_nulls;
use trace_harness::path::{path_to_pointer, PathSegment};
use trace_harness::sanitize::sanitize_resp_by_expected;
use trace_harness::validate::{validate, MismatchReport};
use trace_harness::value::ResponseValue;

fn text(s: &str) -> ResponseValue {
    ResponseValue::Text(s.to_string())
}

fn num(n: u64) -> ResponseValue {
    ResponseValue::Number(serde_json::Number::from(n))
}

fn object(members: Vec<(&str, ResponseValue)>) -> ResponseValue {
    ResponseValue::Object(members.into_iter().map(|(k, v)| (k.to_string(), v)).collect())
}

#[test]
fn marker_member_accepts_a_nested_value() {
    let expected = object(vec![("value", text("ignore")), ("id", num(42))]);
    let actual = object(vec![("value", object(vec![("nested", text("x"))])), ("id", num(42))]);
    assert!(validate(actual, Some(expected)).is_ok());
}

#[test]
fn differing_id_fails_and_the_diff_marks_the_id_line_only() {
    let expected = object(vec![("value", text("ignore")), ("id", num(42))]);
    let actual = object(vec![("value", object(vec![("nested", text("x"))])), ("id", num(43))]);
    match validate(actual, Some(expected)) {
        Err(MismatchReport::Different { diff, spans, legend }) => {
            assert_eq!(diff, "{\n- \"id\": 42,\n+ \"id\": 43,\n  \"value\": \"ignore\"\n}");
            assert_eq!(legend, "- expected\n+ received");
            let whole: String = spans.iter().map(|s| s.text.clone()).collect();
            assert_eq!(whole, diff);
        }
        _ => panic!("a report with a diff was expected"),
    }
}

#[test]
fn no_expectation_and_a_value_fails_with_expected_null() {
    let actual = object(vec![("a", num(1))]);
    match validate(actual, None) {
        Err(report) => {
            assert_eq!(report.message(), "expected null, received {\"a\":1}");
        }
        Ok(()) => panic!("a value where none was expected must fail"),
    }
}

#[test]
fn no_expectation_and_null_passes() {
    assert!(validate(ResponseValue::Null, None).is_ok());
}

#[test]
fn pointer_escapes_reserved_characters() {
    let path = vec![
        PathSegment::Key("a/b".to_string()),
        PathSegment::Index(10),
        PathSegment::Key("m~n".to_string()),
    ];
    assert_eq!(path_to_pointer(&path), "/a~1b/10/m~0n");
    assert_eq!(path_to_pointer(&[]), "");
}

#[test]
fn one_leading_whitespace_goes() {
    assert_eq!(remove_one_leading_whitespace("  x"), " x");
    assert_eq!(remove_one_leading_whitespace("x "), "x ");
    assert_eq!(remove_one_leading_whitespace(""), "");
    assert_eq!(remove_one_leading_whitespace("\tx"), "x");
}

#[test]
fn diff_of_equal_texts_is_the_text() {
    assert_eq!(pretty_print_diff("a\nb", "a\nb"), "a\nb");
    assert_eq!(pretty_print_diff("a\nb", "a\nc"), "a\n-b\n+c\n");
}

#[test]
fn null_members_are_stripped_at_every_depth() {
    let mut v = object(vec![
        ("a", ResponseValue::Null),
        ("b", ResponseValue::Array(vec![ResponseValue::Null, object(vec![("c", ResponseValue::Null)])])),
    ]);
    remove_nulls(&mut v);
    let want = object(vec![("b", ResponseValue::Array(vec![ResponseValue::Null, object(vec![])]))]);
    assert!(v.equal(&want));
}

#[test]
fn markers_are_substituted_in_place() {
    let mut resp = object(vec![("t", num(7)), ("list", ResponseValue::Array(vec![num(1), num(2)]))]);
    let mut expected = object(vec![
        ("t", text("ignore")),
        ("list", ResponseValue::Array(vec![num(1), text("ignore")])),
        ("absent", text("ignore")),
    ]);
    sanitize_resp_by_expected(&mut resp, &mut expected);
    let want = object(vec![("t", text("ignore")), ("list", ResponseValue::Array(vec![num(1), text("ignore")]))]);
    assert!(resp.equal(&want));
}
