//! The per-key history and its memory budget.

use zenmon::history::{History, KeyHistory, BUDGET_BYTES, HISTORY_CAP, PAYLOAD_CAP_BYTES};
use zenmon::json::{find_member, Json, Number};
use zenmon::message::{MessagePayload, ZenohMessage};

/// The share of the budget that eviction goes down to.
const EVICT_TO_FRACTION: f64 = 0.9;

/// A document from its text.
fn json(text: &str) -> Json {
    to_json(&serde_json::from_str(text).unwrap())
}

fn to_json(v: &serde_json::Value) -> Json {
    match v {
        serde_json::Value::Null => Json::Null,
        serde_json::Value::Bool(b) => Json::Bool(*b),
        serde_json::Value::Number(n) => Json::Number(if let Some(u) = n.as_u64() {
            Number::PosInt(u)
        } else if let Some(i) = n.as_i64() {
            Number::NegInt(i)
        } else {
            Number::Float { bits: n.as_f64().unwrap().to_bits(), text: n.to_string() }
        }),
        serde_json::Value::String(s) => Json::Text(s.clone()),
        serde_json::Value::Array(items) => Json::Array(items.iter().map(to_json).collect()),
        serde_json::Value::Object(map) => {
            Json::Object(map.iter().map(|(k, v)| (k.clone(), to_json(v))).collect())
        }
    }
}

fn msg(key: &str, payload: Json) -> ZenohMessage {
    let text = payload.compact_text();
    ZenohMessage {
        key_expr: key.into(),
        payload_bytes: text.len(),
        payload: MessagePayload { len: text.len(), view: payload, pretty: text.clone(), text },
        encoding: "application/json".into(),
        timestamp: None,
        kind: "put".into(),
        attachment: None,
        attachment_bytes: None,
    }
}

/// A payload of raw bytes; past the cap its view is a preview that says so.
fn big_msg(key: &str, bytes: usize) -> ZenohMessage {
    let view = if bytes > PAYLOAD_CAP_BYTES {
        json(&format!("{{\"original_bytes\": {bytes}, \"truncated\": true}}"))
    } else {
        Json::Text("x".repeat(bytes))
    };
    ZenohMessage {
        key_expr: key.into(),
        payload_bytes: bytes,
        payload: MessagePayload { len: bytes, view, pretty: String::new(), text: String::new() },
        encoding: "application/octet-stream".into(),
        timestamp: None,
        kind: "put".into(),
        attachment: None,
        attachment_bytes: None,
    }
}

fn field<'a>(v: &'a Json, name: &str) -> &'a Json {
    match v {
        Json::Object(members) => find_member(members, name).unwrap(),
        _ => panic!("not an object"),
    }
}

/// A message whose declared wire length is `wire` but whose payload is tiny.
fn wire_sized_msg(key: &str, wire: usize) -> ZenohMessage {
    let mut m = msg(key, json(r#"{"small": true}"#));
    m.payload_bytes = wire;
    m
}

/// Fill past the budget with hogs, plus one quiet key.
fn over_budget() -> History {
    let mut h = History::new();
    let per_key_max = HISTORY_CAP * PAYLOAD_CAP_BYTES;
    let hogs = BUDGET_BYTES / per_key_max + 2;
    for k in 0..hogs {
        for _ in 0..HISTORY_CAP {
            h.record(&wire_sized_msg(&format!("hog/{k}"), PAYLOAD_CAP_BYTES), 0);
        }
    }
    for i in 0..5 {
        h.record(&msg("quiet", json(&format!("{{\"n\": {i}}}"))), 0);
    }
    h
}

#[test]
fn a_keys_history_is_independent_of_its_neighbours_rate() {
    // A busy key must not push a quiet one's past out.
    let mut h = History::new();
    h.record(&msg("slow/key", json(r#"{"n": 1}"#)), 0);
    for i in 0..1000 {
        h.record(&msg("fast/key", json(&format!("{{\"n\": {}}}", i))), 0);
    }
    assert_eq!(h.get("slow/key").unwrap().len(), 1);
}

#[test]
fn newest_first_with_a_previous_for_the_diff() {
    let mut h = History::new();
    h.record(&msg("k", json(r#"{"n": 1}"#)), 0);
    h.record(&msg("k", json(r#"{"n": 2}"#)), 0);
    let k = h.get("k").unwrap();
    assert!(k.latest().unwrap().view.equals(&json(r#"{"n": 2}"#)));
    assert!(k.previous().unwrap().view.equals(&json(r#"{"n": 1}"#)));
}

#[test]
fn a_first_message_has_no_baseline_to_diff_against() {
    let mut h = History::new();
    h.record(&msg("k", json(r#"{"n": 1}"#)), 0);
    assert!(h.get("k").unwrap().previous().is_none());
}

#[test]
fn the_per_key_cap_drops_the_oldest() {
    let mut h = History::new();
    for i in 0..(HISTORY_CAP + 10) {
        h.record(&msg("k", json(&format!("{{\"n\": {}}}", i))), 0);
    }
    let k = h.get("k").unwrap();
    assert_eq!(k.len(), HISTORY_CAP);
    assert!(k.latest().unwrap().view.equals(&json(&format!("{{\"n\": {}}}", HISTORY_CAP + 9))));
    // The oldest survivor is entry #10, not #0.
    assert!(k.entry(k.len() - 1).unwrap().view.equals(&json(r#"{"n": 10}"#)));
}

#[test]
fn an_oversized_payload_is_stored_as_a_flagged_preview() {
    let mut h = History::new();
    h.record(&big_msg("k", PAYLOAD_CAP_BYTES * 2), 0);
    let e = h.get("k").unwrap().latest().unwrap();
    assert!(e.truncated);
    // The wire length is reported honestly even though the view is a preview.
    assert_eq!(e.raw_len, PAYLOAD_CAP_BYTES * 2);
    assert!(field(&e.view, "truncated").equals(&json("true")));
    assert!(field(&e.view, "original_bytes").equals(&json(&(PAYLOAD_CAP_BYTES * 2).to_string())));
}

#[test]
fn a_payload_at_the_cap_is_kept_whole() {
    let mut h = History::new();
    h.record(&big_msg("k", PAYLOAD_CAP_BYTES), 0);
    assert!(!h.get("k").unwrap().latest().unwrap().truncated);
}

#[test]
fn the_budget_evicts_from_the_biggest_holder_first() {
    let h = over_budget();
    assert!(h.total_bytes() <= BUDGET_BYTES, "budget must hold");
    assert!(h.evicted > 0, "something had to give");
    // The quiet key kept everything: a few keys carrying large payloads are
    // what put the total over, and taking one entry from every key would
    // punish the ones that were not the reason.
    assert_eq!(h.get("quiet").unwrap().len(), 5);
}

#[test]
fn eviction_clears_below_the_ceiling_not_just_to_it() {
    // The steady state sits somewhere between the target and the ceiling,
    // so the property is about the moment eviction fires, not about the
    // total at rest: it has to shed real slack, or a history parked at the
    // budget re-runs the O(keys) scan on every single message.
    let mut h = History::new();
    let target = (BUDGET_BYTES as f64 * EVICT_TO_FRACTION) as usize;
    let per_key_max = HISTORY_CAP * PAYLOAD_CAP_BYTES;
    let hogs = BUDGET_BYTES / per_key_max + 2;

    let mut fired = 0;
    let mut prev = 0usize;
    for k in 0..hogs {
        for _ in 0..HISTORY_CAP {
            h.record(&wire_sized_msg(&format!("hog/{k}"), PAYLOAD_CAP_BYTES), 0);
            if h.total_bytes() < prev {
                assert!(
                    h.total_bytes() <= target,
                    "eviction left {}, above the {} target",
                    h.total_bytes(),
                    target
                );
                fired += 1;
            }
            prev = h.total_bytes();
        }
    }
    assert!(fired > 0, "the budget was never reached");
}

#[test]
fn removing_a_key_reclaims_its_bytes() {
    let mut h = History::new();
    h.record(&msg("a", json(r#"{"n": 1}"#)), 0);
    h.record(&msg("b", json(r#"{"n": 1}"#)), 0);
    let before = h.total_bytes();
    h.remove("a");
    assert!(h.get("a").is_none());
    assert!(h.total_bytes() < before);
    assert_eq!(h.keys_held(), 1);
}

#[test]
fn clear_resets_everything_including_the_evicted_count() {
    let mut h = History::new();
    h.record(&msg("a", json(r#"{"n": 1}"#)), 0);
    h.clear();
    assert_eq!(h.total_bytes(), 0);
    assert_eq!(h.keys_held(), 0);
    assert_eq!(h.evicted, 0);
}

#[test]
fn within_the_budget_one_ring_changes() {
    let mut h = History::new();
    h.record(&msg("a", json(r#"{"n": 1}"#)), 0);
    let before = h.total_bytes();
    h.record(&msg("b", json(r#"{"n": 2}"#)), 0);
    assert!(h.total_bytes() > before);
    assert_eq!(h.get("a").unwrap().len(), 1);
    assert_eq!(h.get("b").unwrap().len(), 1);
    assert_eq!(h.evicted, 0);
}

#[test]
fn a_copied_history_goes_its_own_way() {
    let mut h = History::new();
    h.record(&msg("a", json("1")), 1);
    h.record(&msg("a", json("2")), 2);
    h.record(&msg("b", json("{\"x\": 3}")), 3);
    let copy = h.clone();
    h.clear();
    assert_eq!(copy.keys_held(), 2);
    assert_eq!(copy.total_bytes(), 1 + 1 + 7);
    let ring = copy.get("a").unwrap().clone();
    assert_eq!(ring.len(), 2);
    assert_eq!(ring.latest().unwrap().clone().view.compact_text(), "2");
    assert_eq!(ring.previous().unwrap().received, 1);
    assert!(KeyHistory::default().is_empty());
}
