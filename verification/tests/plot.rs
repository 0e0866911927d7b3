//! Which fields can be plotted, and what a plot is drawn from.

use zenmon::history::History;
use zenmon::json::{Json, Number};
use zenmon::message::{MessagePayload, ZenohMessage};
use zenmon::plot::{follow, numeric_pointers, pointer_label, series_for};

/// A field's recent values with the range they spanned.
struct Series {
    values: Vec<f64>,
    min: f64,
    max: f64,
}

impl Series {
    fn last(&self) -> Option<f64> {
        self.values.last().copied()
    }
}

/// A document from its text.
fn json(text: &str) -> Json {
    to_json(&serde_json::from_str(text).unwrap())
}

fn to_json(v: &serde_json::Value) -> Json {
    match v {
        serde_json::Value::Null => Json::Null,
        serde_json::Value::Bool(b) => Json::Bool(*b),
        serde_json::Value::Number(n) => Json::Number(if let Some(u) = n.as_u64() {
            Number::PosInt(u)
        } else if let Some(i) = n.as_i64() {
            Number::NegInt(i)
        } else {
            Number::Float { bits: n.as_f64().unwrap().to_bits(), text: n.to_string() }
        }),
        serde_json::Value::String(s) => Json::Text(s.clone()),
        serde_json::Value::Array(items) => Json::Array(items.iter().map(to_json).collect()),
        serde_json::Value::Object(map) => {
            Json::Object(map.iter().map(|(k, v)| (k.clone(), to_json(v))).collect())
        }
    }
}

fn history_of(key: &str, payloads: &[Json]) -> History {
    let mut h = History::new();
    for p in payloads {
        let text = p.compact_text();
        h.record(
            &ZenohMessage {
                key_expr: key.into(),
                payload_bytes: text.len(),
                payload: MessagePayload {
                    len: text.len(),
                    view: p.duplicate(),
                    pretty: text.clone(),
                    text,
                },
                encoding: "application/json".into(),
                timestamp: None,
                kind: "put".into(),
                attachment: None,
                attachment_bytes: None,
            },
            0,
        );
    }
    h
}

fn value(n: &Number) -> f64 {
    match n {
        Number::PosInt(u) => *u as f64,
        Number::NegInt(i) => *i as f64,
        Number::Float { bits, .. } => f64::from_bits(*bits),
    }
}

fn series(key: &str, payloads: &[Json], pointer: &str) -> Option<Series> {
    let h = history_of(key, payloads);
    let values: Vec<f64> =
        series_for(h.get(key).unwrap(), pointer).into_iter().map(value).collect();
    if values.is_empty() {
        return None;
    }
    let min = values.iter().copied().fold(f64::INFINITY, f64::min);
    let max = values.iter().copied().fold(f64::NEG_INFINITY, f64::max);
    Some(Series { values, min, max })
}

#[test]
fn numbers_are_found_at_any_depth() {
    let v = json(r#"{"speed": 1.5, "pose": {"x": 1, "y": 2}, "mode": "idle"}"#);
    assert_eq!(
        numeric_pointers(&v, 16),
        vec!["/pose/x", "/pose/y", "/speed"]
    );
}

#[test]
fn array_elements_are_not_offered() {
    // Index 2 of one message is not the same quantity as index 2 of the
    // next, so a line through them would be meaningless.
    let v = json(r#"{"landmarks": [1, 2, 3], "count": 3}"#);
    assert_eq!(numeric_pointers(&v, 16), vec!["/count"]);
}

#[test]
fn booleans_and_strings_are_not_offered() {
    let v = json(r#"{"is_valid": true, "id": "abc", "n": 1}"#);
    assert_eq!(numeric_pointers(&v, 16), vec!["/n"]);
}

#[test]
fn the_pointer_list_is_capped() {
    let v = json(r#"{"a": 1, "b": 2, "c": 3, "d": 4}"#);
    assert_eq!(numeric_pointers(&v, 2).len(), 2);
}

#[test]
fn a_series_reads_oldest_to_newest() {
    // History is newest-first; a sparkline has to run the other way or it
    // shows time flowing backwards.
    let s = series(
        "k",
        &[json(r#"{"n": 1}"#), json(r#"{"n": 2}"#), json(r#"{"n": 3}"#)],
        "/n",
    )
    .unwrap();
    assert_eq!(s.values, vec![1.0, 2.0, 3.0]);
    assert_eq!(s.last(), Some(3.0));
    assert_eq!((s.min, s.max), (1.0, 3.0));
}

#[test]
fn missing_values_are_skipped_not_zero_filled() {
    // Zero-filling would draw a cliff to the axis that never happened.
    let s = series(
        "k",
        &[json(r#"{"n": 5}"#), json(r#"{"other": 1}"#), json(r#"{"n": 7}"#)],
        "/n",
    )
    .unwrap();
    assert_eq!(s.values, vec![5.0, 7.0]);
    assert_eq!(s.min, 5.0);
}

#[test]
fn a_field_that_changes_type_contributes_only_its_numbers() {
    let s = series(
        "k",
        &[json(r#"{"n": 1}"#), json(r#"{"n": "two"}"#), json(r#"{"n": 3}"#)],
        "/n",
    )
    .unwrap();
    assert_eq!(s.values, vec![1.0, 3.0]);
}

#[test]
fn a_pointer_that_never_appears_has_no_series() {
    assert!(series("k", &[json(r#"{"n": 1}"#)], "/missing").is_none());
}

#[test]
fn a_label_is_the_last_segment() {
    assert_eq!(pointer_label("/pose/x"), "x");
    assert_eq!(pointer_label("/speed"), "speed");
}

#[test]
fn a_pointer_undoes_its_escapes() {
    let v = json(r#"{"a/b": 1, "m~n": 2, "~1": 3}"#);
    assert!(follow(&v, "/a~1b").unwrap().equals(&json("1")));
    assert!(follow(&v, "/m~0n").unwrap().equals(&json("2")));
    assert!(follow(&v, "/~01").unwrap().equals(&json("3")));
}

#[test]
fn a_pointer_names_array_positions_in_plain_decimal() {
    let v = json(r#"[10, [20, 30], 40, 0, 0, 0, 0, 0, 0, 0, 50]"#);
    assert!(follow(&v, "/0").unwrap().equals(&json("10")));
    assert!(follow(&v, "/1/1").unwrap().equals(&json("30")));
    assert!(follow(&v, "/10").unwrap().equals(&json("50")));
    assert!(follow(&v, "/11").is_none());
    assert!(follow(&v, "/00").is_none());
    assert!(follow(&v, "/+1").is_none());
    assert!(follow(&v, "/").is_none());
    assert!(follow(&v, "/99999999999999999999999999").is_none());
}

#[test]
fn the_empty_pointer_is_the_document() {
    let v = json("7");
    assert!(follow(&v, "").unwrap().equals(&v));
    assert!(follow(&v, "x").is_none());
    assert!(follow(&v, "/x").is_none());
}

#[test]
fn a_newer_message_goes_to_the_end_of_the_series() {
    let shorter = series("k", &[json(r#"{"n": -1}"#), json(r#"{"n": 0.5}"#)], "/n").unwrap();
    let longer =
        series("k", &[json(r#"{"n": -1}"#), json(r#"{"n": 0.5}"#), json(r#"{"n": 4}"#)], "/n")
            .unwrap();
    assert_eq!(shorter.values, vec![-1.0, 0.5]);
    assert_eq!(longer.values, vec![-1.0, 0.5, 4.0]);
}

#[test]
fn an_offered_field_leads_to_a_number() {
    let v = json(r#"{"speed": 1.5, "pose": {"x": 1, "deep": {"y": -2}}, "mode": "idle"}"#);
    for p in numeric_pointers(&v, 16) {
        assert!(matches!(follow(&v, &p), Some(Json::Number(_))));
    }
    // A slash or a tilde in a name is escaped.
    let v = json(r#"{"a/b": 1, "c~d": {"~1": 2}}"#);
    let fields = numeric_pointers(&v, 16);
    assert_eq!(fields, vec!["/a~1b", "/c~0d/~01"]);
    for p in &fields {
        assert!(matches!(follow(&v, p), Some(Json::Number(_))));
    }
    assert!(follow(&v, "/a/b").is_none());
    assert_eq!(pointer_label("/c~0d/a~1b"), "a/b");
}
