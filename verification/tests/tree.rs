use trace_harness::diff::{
    can_diff, count_breaks, diff_spans, pretty_print_diff, remove_one_leading_whitespace, DiffSpan,
    Tone,
};
use trace_harness::nulls::{remove_nulls, stripped};
use trace_harness::path::{path_to_pointer, PathSegment};
use trace_harness::sanitize::{is_ignore, sanitize_resp_by_expected};
use trace_harness::text::{decimal_text, same_text};
use trace_harness::validate::{report_difference, validate, MismatchReport};
use trace_harness::value::{find_key, ResponseValue};

fn text(s: &str) -> ResponseValue {
    ResponseValue::Text(s.to_string())
}

fn num(n: u64) -> ResponseValue {
    ResponseValue::Number(serde_json::Number::from(n))
}

fn list(items: Vec<ResponseValue>) -> ResponseValue {
    ResponseValue::Array(items)
}

fn object(members: Vec<(&str, ResponseValue)>) -> ResponseValue {
    ResponseValue::Object(members.into_iter().map(|(k, v)| (k.to_string(), v)).collect())
}

fn key(k: &str) -> PathSegment {
    PathSegment::Key(k.to_string())
}

fn sample() -> ResponseValue {
    object(vec![
        ("a", list(vec![num(1), object(vec![("b", ResponseValue::Null), ("c", text("x"))])])),
        ("d", ResponseValue::Null),
        ("e", ResponseValue::Bool(true)),
    ])
}

#[test]
fn equality_ignores_the_order_of_members() {
    let one = object(vec![("a", num(1)), ("b", num(2))]);
    let two = object(vec![("b", num(2)), ("a", num(1))]);
    assert!(one.equal(&two));
    assert!(!one.equal(&object(vec![("a", num(1))])));
    assert!(!one.equal(&object(vec![("a", num(1)), ("b", num(3))])));
    assert!(!one.equal(&object(vec![("a", num(1)), ("c", num(2))])));
    assert!(!list(vec![num(1), num(2)]).equal(&list(vec![num(2), num(1)])));
    assert!(!list(vec![num(1)]).equal(&list(vec![num(1), num(1)])));
    assert!(!num(1).equal(&text("1")));
    assert!(!ResponseValue::Bool(true).equal(&ResponseValue::Bool(false)));
    assert!(ResponseValue::Null.equal(&ResponseValue::Null));
}

#[test]
fn numbers_are_the_same_when_written_the_same() {
    assert!(num(7).equal(&num(7)));
    assert!(!num(7).equal(&num(8)));
    let half: serde_json::Number = "0.5".parse().unwrap();
    let one: serde_json::Number = "1.0".parse().unwrap();
    assert!(ResponseValue::Number(half.clone()).equal(&ResponseValue::Number(half)));
    assert!(!ResponseValue::Number(one).equal(&num(1)));
}

#[test]
fn of_two_members_with_one_key_the_first_counts() {
    let twice = object(vec![("a", num(1)), ("a", num(2))]);
    assert!(twice.equal(&object(vec![("a", num(1))])));
    assert!(twice.get("a").unwrap().equal(&num(1)));
    assert_eq!(twice.to_compact_text(), "{\"a\":1}");
    assert!(stripped(&object(vec![("a", ResponseValue::Null), ("a", num(2))])).equal(&object(vec![])));
    match &twice {
        ResponseValue::Object(members) => {
            assert_eq!(find_key(members, "a"), Some(0));
            assert_eq!(find_key(members, "b"), None);
        }
        _ => panic!("an object was built"),
    }
}

#[test]
fn a_copy_is_the_same_tree() {
    let v = sample();
    assert!(v.clone().equal(&v));
}

#[test]
fn texts_are_written_with_sorted_members() {
    let v = object(vec![("b", num(1)), ("a", list(vec![text("x"), ResponseValue::Null]))]);
    assert_eq!(v.to_compact_text(), "{\"a\":[\"x\",null],\"b\":1}");
    assert_eq!(v.to_pretty_text(), "{\n  \"a\": [\n    \"x\",\n    null\n  ],\n  \"b\": 1\n}");
}

#[test]
fn a_path_leads_to_its_node() {
    let v = sample();
    assert!(v.at(&[]).unwrap().equal(&v));
    assert!(v.at(&[key("a"), PathSegment::Index(1), key("c")]).unwrap().equal(&text("x")));
    assert!(v.at(&[key("a"), PathSegment::Index(2)]).is_none());
    assert!(v.at(&[key("a"), key("0")]).is_none());
    assert!(v.at(&[PathSegment::Index(0)]).is_none());
    assert!(v.at(&[key("e"), key("f")]).is_none());
    assert!(v.step_into(&key("e")).unwrap().equal(&ResponseValue::Bool(true)));
    assert!(v.get("zz").is_none());
    assert!(num(1).get("a").is_none());
}

#[test]
fn a_node_is_replaced_where_the_path_leads() {
    let mut v = sample();
    v.put_at(&[key("a"), PathSegment::Index(1), key("c")], num(9));
    let want = object(vec![
        ("a", list(vec![num(1), object(vec![("b", ResponseValue::Null), ("c", num(9))])])),
        ("d", ResponseValue::Null),
        ("e", ResponseValue::Bool(true)),
    ]);
    assert!(v.equal(&want));
    v.put_at(&[key("nowhere"), key("x")], num(1));
    assert!(v.equal(&want));
    v.put_at(&[key("a"), PathSegment::Index(5)], num(1));
    assert!(v.equal(&want));
    v.put_at(&[], num(3));
    assert!(v.equal(&num(3)));
}

#[test]
fn a_marker_accepts_whatever_stands_at_its_place() {
    let expected = object(vec![("t", text("ignore")), ("n", num(1))]);
    for at_marker in [num(5), ResponseValue::Null, list(vec![text("deep")]), text("ignore")] {
        let actual = object(vec![("t", at_marker), ("n", num(1))]);
        assert!(validate(actual, Some(expected.clone())).is_ok());
    }
    assert!(validate(num(3), Some(text("ignore"))).is_ok());
    assert!(validate(ResponseValue::Null, Some(text("ignore"))).is_ok());
}

#[test]
fn a_sibling_of_a_marker_is_still_compared() {
    let expected = object(vec![("t", text("ignore")), ("n", num(1))]);
    let actual = object(vec![("t", num(5)), ("n", text("ignore"))]);
    assert!(validate(actual, Some(expected)).is_err());
}

#[test]
fn a_marker_without_a_node_to_accept_fails() {
    let expected = object(vec![("t", text("ignore"))]);
    assert!(validate(object(vec![]), Some(expected)).is_err());
}

#[test]
fn explicit_null_and_absent_member_are_the_same() {
    let expected = object(vec![("a", num(1)), ("b", ResponseValue::Null)]);
    let actual = object(vec![("a", num(1)), ("c", ResponseValue::Null)]);
    assert!(validate(actual, Some(expected)).is_ok());
    let in_lists = validate(list(vec![ResponseValue::Null]), Some(list(vec![])));
    assert!(in_lists.is_err());
}

#[test]
fn stripping_twice_is_stripping_once() {
    let once = stripped(&sample());
    let twice = stripped(&once);
    assert!(once.equal(&twice));
    let want = object(vec![
        ("a", list(vec![num(1), object(vec![("c", text("x"))])])),
        ("e", ResponseValue::Bool(true)),
    ]);
    assert!(once.equal(&want));
}

#[test]
fn substituting_then_stripping_keeps_a_marker_over_null() {
    let mut actual = object(vec![
        ("gone", ResponseValue::Null),
        ("kept", ResponseValue::Null),
        ("deep", object(vec![("x", ResponseValue::Null), ("y", num(1))])),
    ]);
    let mut expected = object(vec![("kept", text("ignore")), ("deep", object(vec![("y", text("ignore"))]))]);
    sanitize_resp_by_expected(&mut actual, &mut expected);
    remove_nulls(&mut actual);
    let want = object(vec![("kept", text("ignore")), ("deep", object(vec![("y", text("ignore"))]))]);
    assert!(actual.equal(&want));
    assert!(expected.equal(&want));
}

#[test]
fn substitution_walks_deep_trees_without_recursion() {
    let mut expected = text("ignore");
    let mut actual = num(1);
    for _ in 0..200 {
        expected = list(vec![num(0), expected]);
        actual = list(vec![num(0), actual]);
    }
    let mut resp = actual;
    sanitize_resp_by_expected(&mut resp, &mut expected);
    assert!(resp.equal(&expected));
}

#[test]
fn only_the_marker_text_is_a_marker() {
    assert!(is_ignore(&text("ignore")));
    assert!(!is_ignore(&text("Ignore")));
    assert!(!is_ignore(&text("ignore ")));
    assert!(!is_ignore(&ResponseValue::Null));
    assert!(!is_ignore(&list(vec![text("ignore")])));
}

#[test]
fn indices_are_written_in_decimal() {
    assert_eq!(decimal_text(0), "0");
    assert_eq!(decimal_text(9), "9");
    assert_eq!(decimal_text(10), "10");
    assert_eq!(decimal_text(4096), "4096");
    assert_eq!(decimal_text(usize::MAX), usize::MAX.to_string());
    assert_eq!(path_to_pointer(&[PathSegment::Index(0), key(""), key("~/")]), "/0//~0~1");
    assert!(same_text("a", "a"));
    assert!(!same_text("a", "b"));
}

#[test]
fn the_pieces_of_a_diff_carry_their_tones() {
    assert!(can_diff("a\n b", "a\n c"));
    let spans = diff_spans("a\n b", "a\n c");
    let seen: Vec<(Tone, &str)> = spans.iter().map(|s: &DiffSpan| (s.tone, s.text.as_str())).collect();
    assert_eq!(
        seen,
        vec![
            (Tone::Unchanged, "a"),
            (Tone::Plain, "\n"),
            (Tone::Removed, "-"),
            (Tone::Removed, "b"),
            (Tone::Plain, "\n"),
            (Tone::Added, "+"),
            (Tone::Added, "c"),
            (Tone::Plain, "\n"),
        ]
    );
}

#[test]
fn reports_are_put_in_words() {
    let report = report_difference(&num(2), &num(1));
    match &report {
        MismatchReport::Different { diff, legend, .. } => {
            assert_eq!(diff, "\n-1\n+2\n");
            assert_eq!(legend, "- expected\n+ received");
        }
        _ => panic!("two short texts have a diff"),
    }
    assert_eq!(
        report.message(),
        "response does not match the expectation\n\n-1\n+2\n\n- expected\n+ received"
    );
    let long = MismatchReport::TooLong { expected: "1".to_string(), received: "2".to_string() };
    assert_eq!(long.message(), "response does not match the expectation\n-1\n+2");
}

#[test]
fn the_equality_operator_is_deep_equality() {
    assert_eq!(object(vec![("a", num(1)), ("b", num(2))]), object(vec![("b", num(2)), ("a", num(1))]));
    assert_ne!(list(vec![num(1)]), list(vec![num(2)]));
    assert_eq!(sample().clone(), sample());
}

#[test]
fn a_removed_run_before_common_lines_keeps_a_line_of_its_own() {
    assert_eq!(pretty_print_diff("a\nb\nc", "a\nc"), "a\n-b\nc");
    let spans = diff_spans("a\nb\nc", "a\nc");
    let whole: String = spans.iter().map(|s| s.text.clone()).collect();
    assert_eq!(whole, "a\n-b\nc");
    assert_eq!(spans[3].tone, Tone::Removed);
    assert_eq!(spans[4].tone, Tone::Plain);
    assert_eq!(spans[5].tone, Tone::Unchanged);
    assert_eq!(pretty_print_diff("a\nc", "a\nb\nc"), "a\n+b\nc");
    assert_eq!(pretty_print_diff("a\nb", "a"), "a\n-b");
}

#[test]
fn whitespace_is_the_unicode_property() {
    assert_eq!(remove_one_leading_whitespace("\u{3000}x"), "x");
    assert_eq!(remove_one_leading_whitespace("\u{a0}x"), "x");
    assert_eq!(remove_one_leading_whitespace("\u{2028}x"), "x");
    assert_eq!(remove_one_leading_whitespace("\u{85}\u{85}"), "\u{85}");
    assert_eq!(remove_one_leading_whitespace("\nx"), "x");
    assert_eq!(remove_one_leading_whitespace("\u{200b}x"), "\u{200b}x");
    assert_eq!(remove_one_leading_whitespace("\u{180e}x"), "\u{180e}x");
    assert_eq!(remove_one_leading_whitespace("_x"), "_x");
    for code in 0u32..0x3100 {
        if let Some(c) = char::from_u32(code) {
            let text = format!("{}x", c);
            let want = if c.is_whitespace() { "x".to_string() } else { text.clone() };
            assert_eq!(remove_one_leading_whitespace(&text), want);
        }
    }
}

#[test]
fn lines_are_counted_by_their_breaks() {
    assert_eq!(count_breaks(""), 0);
    assert_eq!(count_breaks("a"), 0);
    assert_eq!(count_breaks("a\n\u{3000}b\n"), 2);
    assert!(can_diff(&"x".repeat(40000), &"y".repeat(40000)));
}

#[test]
fn members_are_added_where_the_key_is_new() {
    let v = ResponseValue::object().with_member("a", num(1)).with_member("b", num(2));
    assert_eq!(v, object(vec![("a", num(1)), ("b", num(2))]));
    assert_eq!(v.clone().with_member("a", num(9)), v);
    assert_eq!(num(3).with_member("a", num(1)), num(3));
    assert_eq!(ResponseValue::object(), object(vec![]));
}
