//! What changed between two payloads.

use zenmon::diff::{changed_paths, render, DiffTag};
use zenmon::json::{Json, Number};

/// A document from its text.
fn json(text: &str) -> Json {
    to_json(&serde_json::from_str(text).unwrap())
}

fn to_json(v: &serde_json::Value) -> Json {
    match v {
        serde_json::Value::Null => Json::Null,
        serde_json::Value::Bool(b) => Json::Bool(*b),
        serde_json::Value::Number(n) => Json::Number(if let Some(u) = n.as_u64() {
            Number::PosInt(u)
        } else if let Some(i) = n.as_i64() {
            Number::NegInt(i)
        } else {
            Number::Float { bits: n.as_f64().unwrap().to_bits(), text: n.to_string() }
        }),
        serde_json::Value::String(s) => Json::Text(s.clone()),
        serde_json::Value::Array(items) => Json::Array(items.iter().map(to_json).collect()),
        serde_json::Value::Object(map) => {
            Json::Object(map.iter().map(|(k, v)| (k.clone(), to_json(v))).collect())
        }
    }
}

fn tags(cur: &Json, prev: Option<&Json>) -> Vec<(String, DiffTag)> {
    render(cur, prev).into_iter().map(|l| (l.text, l.tag)).collect()
}

fn tag_of(cur: &Json, prev: Option<&Json>, needle: &str) -> DiffTag {
    tags(cur, prev)
        .into_iter()
        .find(|(t, _)| t.starts_with(needle))
        .unwrap_or_else(|| panic!("no line starting with {needle}"))
        .1
}

#[test]
fn only_the_field_that_moved_is_marked() {
    // The point of the whole module: one field of twenty changes and the
    // other nineteen must not compete for attention.
    let prev = json(r#"{"mode": "idle", "speed": 0, "load": 0}"#);
    let cur = json(r#"{"mode": "idle", "speed": 3, "load": 0}"#);
    assert_eq!(tag_of(&cur, Some(&prev), "speed"), DiffTag::Changed);
    assert_eq!(tag_of(&cur, Some(&prev), "mode"), DiffTag::Same);
    assert_eq!(tag_of(&cur, Some(&prev), "load"), DiffTag::Same);
}

#[test]
fn a_first_message_is_not_a_wall_of_additions() {
    let cur = json(r#"{"a": 1, "b": 2}"#);
    for (_, tag) in tags(&cur, None) {
        assert_eq!(tag, DiffTag::Same);
    }
}

#[test]
fn a_new_field_reads_as_changed_against_an_existing_baseline() {
    let prev = json(r#"{"a": 1}"#);
    let cur = json(r#"{"a": 1, "b": 2}"#);
    // `b` had no previous value, so its line is marked; `a` is untouched.
    assert_eq!(tag_of(&cur, Some(&prev), "a"), DiffTag::Same);
    assert_eq!(changed_paths(&cur, &prev).get("/b"), Some(&DiffTag::Added));
}

#[test]
fn a_dropped_field_gets_a_line_of_its_own() {
    let prev = json(r#"{"a": 1, "error": "stalled"}"#);
    let cur = json(r#"{"a": 1}"#);
    let lines = tags(&cur, Some(&prev));
    let removed: Vec<_> = lines
        .iter()
        .filter(|(_, t)| *t == DiffTag::Removed)
        .collect();
    assert_eq!(removed.len(), 1, "{lines:?}");
    assert!(removed[0].0.starts_with("error"), "{:?}", removed[0]);
}

#[test]
fn containers_are_never_themselves_marked() {
    // Otherwise a single deep change lights up every enclosing brace.
    let prev = json(r#"{"pose": {"x": 1, "y": 2}}"#);
    let cur = json(r#"{"pose": {"x": 9, "y": 2}}"#);
    let lines = render(&cur, Some(&prev));
    for l in &lines {
        if l.text.ends_with('{') || l.text == "}" {
            assert_eq!(l.tag, DiffTag::Same, "{l:?}");
        }
    }
    assert_eq!(tag_of(&cur, Some(&prev), "x"), DiffTag::Changed);
}

#[test]
fn nesting_shows_up_as_indent() {
    let cur = json(r#"{"pose": {"x": 1}}"#);
    let lines = render(&cur, None);
    let x = lines.iter().find(|l| l.text.starts_with("x")).unwrap();
    assert_eq!(x.indent, 2);
}

#[test]
fn array_elements_compare_by_position() {
    let prev = json(r#"{"xs": [1, 2, 3]}"#);
    let cur = json(r#"{"xs": [1, 9, 3]}"#);
    let paths = changed_paths(&cur, &prev);
    assert_eq!(paths.get("/xs/1"), Some(&DiffTag::Changed));
    assert!(!paths.contains_key("/xs/0"));
}

#[test]
fn a_shortened_array_reports_the_missing_tail() {
    let prev = json(r#"{"xs": [1, 2, 3]}"#);
    let cur = json(r#"{"xs": [1, 2]}"#);
    assert_eq!(
        changed_paths(&cur, &prev).get("/xs/2"),
        Some(&DiffTag::Removed)
    );
}

#[test]
fn a_type_change_counts_as_a_change() {
    let prev = json(r#"{"v": 1}"#);
    let cur = json(r#"{"v": "1"}"#);
    assert_eq!(tag_of(&cur, Some(&prev), "v"), DiffTag::Changed);
}

#[test]
fn identical_documents_report_nothing() {
    let v = json(r#"{"a": {"b": [1, 2]}, "c": null}"#);
    assert!(changed_paths(&v, &v.duplicate()).is_empty());
    for (_, tag) in tags(&v, Some(&v.duplicate())) {
        assert_eq!(tag, DiffTag::Same);
    }
}

#[test]
fn a_bare_scalar_payload_still_diffs() {
    // Not every payload is an object — plain numbers and strings are common.
    assert_eq!(tag_of(&json("2"), Some(&json("1")), "2"), DiffTag::Changed);
    assert_eq!(tag_of(&json("1"), Some(&json("1")), "1"), DiffTag::Same);
}

#[test]
fn null_is_a_value_not_an_absence() {
    // `{"error": null}` -> `{"error": "stalled"}` is the transition being
    // hunted; treating null as missing would hide it.
    let prev = json(r#"{"error": null}"#);
    let cur = json(r#"{"error": "stalled"}"#);
    assert_eq!(tag_of(&cur, Some(&prev), "error"), DiffTag::Changed);
    assert_eq!(
        changed_paths(&cur, &prev).get("/error"),
        Some(&DiffTag::Changed)
    );
}

#[test]
fn texts_are_shown_as_they_are_and_written_escaped() {
    let cur = json(r#"{"name": "a\"b"}"#);
    assert_eq!(tags(&cur, None)[1].0, r#"name: "a"b""#);
    assert_eq!(cur.compact_text(), r#"{"name":"a\"b"}"#);
    assert_eq!(json("[1,{\"k\":null},\"x\"]").compact_text(), "[1,{\"k\":null},\"x\"]");
}

#[test]
fn a_value_that_gives_way_to_a_container_is_reported() {
    for cur in [r#"{"a": {}}"#, r#"{"a": []}"#] {
        let (cur, prev) = (json(cur), json(r#"{"a": 1}"#));
        let paths = changed_paths(&cur, &prev);
        assert_eq!(paths.len(), 1);
        assert_eq!(paths.get("/a"), Some(&DiffTag::Removed));
        let lines = tags(&cur, Some(&prev));
        assert_eq!(lines[1], ("a: 1".to_string(), DiffTag::Removed));
        assert_eq!(lines[2].1, DiffTag::Same);
    }
    let paths = changed_paths(&json(r#"{"a": {}}"#), &json(r#"{"a": [1, 2]}"#));
    assert_eq!(paths.get("/a"), Some(&DiffTag::Removed));
    let paths = changed_paths(&json(r#"{"a": {"x": 2}}"#), &json(r#"{"a": 1}"#));
    assert_eq!(paths.get("/a"), Some(&DiffTag::Removed));
    assert_eq!(paths.get("/a/x"), Some(&DiffTag::Added));
    assert!(changed_paths(&json("{}"), &json("{}")).is_empty());
}

#[test]
fn without_the_removed_lines_a_document_reads_as_it_does_alone() {
    let prev = json(r#"{"a": 1, "b": [1, 2, 3], "gone": null}"#);
    let cur = json(r#"{"a": {"x": 1}, "b": [1, 5]}"#);
    let present: Vec<String> = tags(&cur, Some(&prev))
        .into_iter()
        .filter(|(_, t)| *t != DiffTag::Removed)
        .map(|(text, _)| text)
        .collect();
    let alone: Vec<String> = tags(&cur, None).into_iter().map(|(text, _)| text).collect();
    assert_eq!(present, alone);
}

#[test]
fn a_container_without_leaves_displaces_nothing() {
    for (cur, prev) in [
        ("[]", "{}"),
        ("{}", "[]"),
        ("{\"a\": []}", "{\"a\": {}}"),
        ("{\"a\": {}}", "{\"a\": [[], {\"b\": {}}]}"),
    ] {
        let (cur, prev) = (json(cur), json(prev));
        assert!(changed_paths(&cur, &prev).is_empty());
        assert!(tags(&cur, Some(&prev)).iter().all(|(_, tag)| *tag == DiffTag::Same));
        assert_eq!(tags(&cur, Some(&prev)), tags(&cur, None));
    }
    let (cur, prev) = (json("{\"a\": []}"), json("{\"a\": {\"b\": {\"c\": 1}}}"));
    assert_eq!(changed_paths(&cur, &prev).get("/a"), Some(&DiffTag::Removed));
    assert_eq!(tag_of(&cur, Some(&prev), "a: {\"b\":{\"c\":1}}"), DiffTag::Removed);
}

#[test]
fn quotes_backslashes_and_control_characters_are_escaped() {
    let text = |s: &str| Json::Text(s.to_string()).compact_text();
    assert_eq!(text("a\"b\\c/d"), "\"a\\\"b\\\\c/d\"");
    assert_eq!(text("\u{8}\t\n\u{c}\r"), "\"\\b\\t\\n\\f\\r\"");
    assert_eq!(text("\u{0}\u{1b}\u{7f}\u{e9}"), "\"\\u0000\\u001b\u{7f}\u{e9}\"");
}

#[test]
fn a_copy_holds_the_same_document() {
    let v = json("{\"a\": [1, -2, 1.5, null, true], \"b\": {\"c\": \"x\"}}");
    assert_eq!(v.clone().compact_text(), v.compact_text());
    let lines = render(&v, None);
    assert_eq!(lines.clone(), lines);
}
