//! Behaviour of the dashboard: each test drives keys, clicks or messages through it.

use zenmon::app::doctor::{Check, CheckStatus, DoctorReport};
use zenmon::app::feed::{KeyFreshness, Latest, IDLE_DIM_SECS, MAX_KEYS};
use zenmon::app::ingest::AppEvent;
use zenmon::app::keys::Effect;
use zenmon::app::mouse::{list_hit, space_tab_hit};
use zenmon::app::network_pane::{LivelinessToken, NetworkRow, NodeInfo};
use zenmon::app::palette::{palette_commands, PaletteAction};
use zenmon::app::rate::{format_bytes_per_sec, Rate, RateWindow};
use zenmon::app::scout_port::{domain_port_label, PortScoutResult};
use zenmon::app::state::{App, CopyOutcome};
use zenmon::app::sweep::evict_excess_keys;
use zenmon::app::types::{
    apply_detail_scroll, detail_scroll_action, is_narrow, ConnectMode, ConnectionState, DetailMode,
    DetailScroll, EmptyReason, KeyCode, KeyEvent, MouseEvent, Overlay, PaneFocus, Rect, Space,
};
use zenmon::json::{Json, Number};
use zenmon::message::{MessagePayload, ZenohMessage};
use zenmon::tree::RowKind;
use zenmon::view::fmt::format_idle;

/// The share of the cap that eviction goes down to.
const EVICT_TO_FRACTION: f64 = 0.9;

/// A moment far enough from the start of the clock to look back from.
const NOW: u64 = 1_000_000_000_000_000;

fn key(code: KeyCode) -> KeyEvent {
    KeyEvent::plain(code)
}

fn rect(x: u16, y: u16, width: u16, height: u16) -> Rect {
    Rect { x, y, width, height }
}

fn per_second(rate: Rate) -> f64 {
    rate.messages as f64 / (rate.nanos as f64 / 1e9)
}

fn to_json(v: &serde_json::Value) -> Json {
    match v {
        serde_json::Value::Null => Json::Null,
        serde_json::Value::Bool(b) => Json::Bool(*b),
        serde_json::Value::Number(n) => Json::Number(if let Some(u) = n.as_u64() {
            Number::PosInt(u)
        } else if let Some(i) = n.as_i64() {
            Number::NegInt(i)
        } else {
            Number::Float { bits: n.as_f64().unwrap().to_bits(), text: n.to_string() }
        }),
        serde_json::Value::String(s) => Json::Text(s.clone()),
        serde_json::Value::Array(items) => Json::Array(items.iter().map(to_json).collect()),
        serde_json::Value::Object(map) => {
            Json::Object(map.iter().map(|(k, v)| (k.clone(), to_json(v))).collect())
        }
    }
}

/// A message with a JSON payload.
fn message(key: &str, payload: &str, encoding: &str, bytes: usize, kind: &str) -> ZenohMessage {
    let v: serde_json::Value = serde_json::from_str(payload).unwrap();
    let text = v.to_string();
    ZenohMessage {
        key_expr: key.to_string(),
        payload: MessagePayload {
            len: text.len(),
            view: to_json(&v),
            pretty: serde_json::to_string_pretty(&v).unwrap(),
            text,
        },
        encoding: encoding.to_string(),
        payload_bytes: bytes,
        timestamp: None,
        kind: kind.to_string(),
        attachment: None,
        attachment_bytes: None,
    }
}

fn bare_node(zid: &str, kind: &str) -> NodeInfo {
    NodeInfo {
        zid: zid.to_string(),
        kind: kind.to_string(),
        locators: vec![],
        admin_last_seen: None,
        scout_last_seen: None,
    }
}

fn make_node(zid: &str, kind: &str) -> NodeInfo {
    NodeInfo { locators: vec!["tcp/127.0.0.1:7447".to_string()], ..bare_node(zid, kind) }
}

fn make_token(key_expr: &str, alive: bool) -> LivelinessToken {
    LivelinessToken {
        key_expr: key_expr.to_string(),
        source_zid: None,
        alive,
        node_name: key_expr.rsplit('/').next().map(|s| s.to_string()),
        group: Some("fleet/r1".to_string()),
    }
}

fn check(
    name: &str,
    status: CheckStatus,
    latency_ms: u64,
    message: Option<&str>,
    hint: Option<&str>,
) -> Check {
    Check {
        name: name.to_string(),
        status,
        latency_ms,
        message: message.map(|s| s.to_string()),
        hint: hint.map(|s| s.to_string()),
    }
}

fn report_of(checks: Vec<Check>) -> DoctorReport {
    let status = if checks.iter().any(|c| c.status == CheckStatus::Fail) {
        CheckStatus::Fail
    } else if checks.iter().any(|c| c.status == CheckStatus::Warn) {
        CheckStatus::Warn
    } else {
        CheckStatus::Pass
    };
    DoctorReport { status, checks }
}

/// Seed the key tree and bring the row cache up to date, as a burst of
/// messages would. Single-segment keys give one leaf row each, so tests about
/// cursor movement keep indexing rows directly.
fn seed_topics(app: &mut App, keys: &[&str]) {
    for k in keys {
        app.pane.key_tree.insert(k);
    }
    app.pane.auto_expand();
    app.pane.refresh_tree_rows();
}

/// Seed enough keys that the automatic expansion does *not* open everything,
/// so expand/collapse can be exercised against a genuinely closed tree.
fn seed_fleet(app: &mut App, vehicles: usize) {
    for i in 0..vehicles {
        app.pane.key_tree.insert(&format!("agv/f{i:03}/pose"));
    }
    app.pane.auto_expand();
    app.pane.refresh_tree_rows();
}

/// Record `key` as last seen `secs` ago.
fn seen_ago(app: &mut App, key: &str, secs: u64) {
    app.pane.key_tree.insert(key);
    app.feed.latest.insert(
        key.to_string(),
        Latest { message: message(key, "null", "", 0, "put"), at: NOW - secs * 1_000_000_000 },
    );
}

#[test]
fn app_uppercase_j_k_map_to_detail_scroll_without_shift() {
    // Uppercase J/K scroll regardless of whether Shift is reported.
    assert_eq!(
        detail_scroll_action(key(KeyCode::Char('J'))),
        Some(DetailScroll::Down)
    );
    assert_eq!(
        detail_scroll_action(key(KeyCode::Char('K'))),
        Some(DetailScroll::Up)
    );
    assert_eq!(
        detail_scroll_action(KeyEvent { code: KeyCode::Char('J'), ctrl: false, shift: true }),
        Some(DetailScroll::Down)
    );
}

#[test]
fn app_lowercase_j_k_are_not_detail_scroll() {
    assert_eq!(detail_scroll_action(key(KeyCode::Char('j'))), None);
    assert_eq!(detail_scroll_action(key(KeyCode::Char('k'))), None);
}

#[test]
fn app_rate_window_evicts_beyond_cap_and_detects_idle() {
    let mut w = RateWindow::new(3);
    w.push(10);
    w.push(20);
    w.push(30);
    w.push(40); // evicts the 10
    assert_eq!(w.series(), vec![20, 30, 40]);
    assert_eq!(w.latest(), 40);
    assert!(!w.is_all_zero());
    let mut idle = RateWindow::new(2);
    idle.push(0);
    idle.push(0);
    assert!(idle.is_all_zero());
}

#[test]
fn app_format_bytes_per_sec_scales_units() {
    assert_eq!(format_bytes_per_sec(500), "500 B/s");
    assert_eq!(format_bytes_per_sec(2048), "2.0 KB/s");
    assert_eq!(format_bytes_per_sec(3_145_728), "3.0 MB/s");
}

#[test]
fn app_narrow_below_threshold() {
    assert!(is_narrow(89));
    assert!(!is_narrow(90));
    assert!(!is_narrow(200));
}

#[test]
fn app_empty_reason_reflects_connection_state() {
    let mut app = App::new("test".into(), 0);
    app.connection_state = ConnectionState::Connecting;
    assert_eq!(app.stream_empty_reason(), EmptyReason::Connecting);
    app.connection_state = ConnectionState::Disconnected("x".into());
    assert_eq!(app.nodes_empty_reason(), EmptyReason::Disconnected);
}

#[test]
fn app_empty_reason_distinguishes_filter_from_no_data() {
    let mut app = App::new("test".into(), 0);
    app.connection_state = ConnectionState::Connected("zid".into());
    // No data at all → NoDataYet.
    assert_eq!(app.topics_empty_reason(), EmptyReason::NoDataYet);
    // Data exists but the filter hides it → FilteredOut.
    app.pane.key_tree.insert("a/b");
    app.pane.auto_expand();
    app.pane.filter = "zzz".into();
    assert_eq!(app.topics_empty_reason(), EmptyReason::FilteredOut);
}

#[test]
fn app_question_mark_toggles_help_overlay() {
    let mut app = App::new("test".into(), 0);
    assert_eq!(app.overlay, Overlay::Closed);
    app.handle_key(key(KeyCode::Char('?')), 0);
    assert_eq!(app.overlay, Overlay::Help);
    // q closes the overlay (does not quit)
    app.handle_key(key(KeyCode::Char('q')), 0);
    assert_eq!(app.overlay, Overlay::Closed);
    assert!(!app.should_quit);
}

#[test]
fn app_help_scrolls_and_esc_closes() {
    let mut app = App::new("test".into(), 0);
    app.handle_key(key(KeyCode::Char('?')), 0);
    app.handle_key(key(KeyCode::Char('j')), 0);
    assert_eq!(app.help_scroll, 1);
    app.handle_key(key(KeyCode::Char('k')), 0);
    assert_eq!(app.help_scroll, 0);
    app.handle_key(key(KeyCode::Esc), 0);
    assert_eq!(app.overlay, Overlay::Closed);
}

#[test]
fn app_tab_and_number_keys_switch_space() {
    let mut app = App::new("test".into(), 0);
    assert_eq!(app.space, Space::Traffic);
    app.handle_key(key(KeyCode::Tab), 0);
    assert_eq!(app.space, Space::Network);
    app.handle_key(key(KeyCode::Char('1')), 0);
    assert_eq!(app.space, Space::Traffic);
    app.handle_key(key(KeyCode::Char('2')), 0);
    assert_eq!(app.space, Space::Network);
}

#[test]
fn app_enter_and_esc_move_pane_focus() {
    let mut app = App::new("test".into(), 0);
    assert_eq!(app.pane_focus, PaneFocus::Master);
    app.handle_key(key(KeyCode::Enter), 0);
    assert_eq!(app.pane_focus, PaneFocus::Detail);
    app.handle_key(key(KeyCode::Esc), 0);
    assert_eq!(app.pane_focus, PaneFocus::Master);
}

#[test]
fn app_switching_space_resets_pane_focus_to_master() {
    let mut app = App::new("test".into(), 0);
    app.pane_focus = PaneFocus::Detail;
    app.handle_key(key(KeyCode::Char('2')), 0);
    assert_eq!(app.space, Space::Network);
    assert_eq!(app.pane_focus, PaneFocus::Master);
}

#[test]
fn app_domain_port_label_maps_domain_range() {
    assert_eq!(domain_port_label(7446), "domain 0 (port 7446)");
    assert_eq!(domain_port_label(7450), "domain 4 (port 7450)");
    assert_eq!(domain_port_label(7546), "domain 100 (port 7546)");
}

#[test]
fn app_domain_port_label_treats_out_of_range_as_custom_port() {
    // Below 7446 must not be misreported as "domain 0".
    assert_eq!(domain_port_label(7000), "port 7000 (custom)");
    assert_eq!(domain_port_label(8000), "port 8000 (custom)");
}

#[test]
fn app_apply_detail_scroll_saturates_at_zero() {
    assert_eq!(apply_detail_scroll(0, DetailScroll::Up), 0);
    assert_eq!(apply_detail_scroll(0, DetailScroll::Down), 3);
    assert_eq!(apply_detail_scroll(5, DetailScroll::Up), 2);
}

#[test]
fn app_space_tab_hit_inside_rect_returns_index() {
    let rects = [Some(rect(1, 0, 9, 1)), Some(rect(12, 0, 9, 1))];
    assert_eq!(space_tab_hit(&rects, 2, 0), Some(0));
    assert_eq!(space_tab_hit(&rects, 14, 0), Some(1));
}

#[test]
fn app_space_tab_hit_outside_returns_none() {
    let rects = [Some(rect(1, 0, 9, 1)), None];
    assert_eq!(space_tab_hit(&rects, 50, 0), None);
    assert_eq!(space_tab_hit(&rects, 2, 5), None);
}

#[test]
fn app_list_hit_converts_row_to_index() {
    let rect = rect(0, 5, 20, 10);
    assert_eq!(list_hit(rect, 6, 0, 8, 6), Some(0));
    assert_eq!(list_hit(rect, 8, 0, 8, 6), Some(2));
    assert_eq!(list_hit(rect, 5, 0, 8, 6), None);
    assert_eq!(list_hit(rect, 15, 0, 8, 6), None);
    assert_eq!(list_hit(rect, 20, 0, 8, 6), None);
    assert_eq!(list_hit(rect, 14, 0, 8, 6), None);
}

#[test]
fn app_list_hit_respects_scroll_offset() {
    let rect = rect(0, 5, 20, 10);
    assert_eq!(list_hit(rect, 6, 4, 20, 6), Some(4));
    assert_eq!(list_hit(rect, 9, 4, 20, 6), Some(7));
}

#[test]
fn app_sub_selected_zero_stays_on_new_message() {
    let mut app = App::new("test".into(), 0);
    app.stream.sub_selected = 0;
    let msg = message("a", "null", "", 0, "put");
    app.handle_zenoh_message(msg, 0);
    assert_eq!(app.stream.sub_selected, 0);
}

#[test]
fn app_sub_selected_nonzero_follows_message_through_shift() {
    let mut app = App::new("test".into(), 0);
    let make = |k: &str| message(k, "null", "", 0, "put");
    app.handle_zenoh_message(make("a"), 0);
    app.handle_zenoh_message(make("b"), 0);
    app.handle_zenoh_message(make("c"), 0);
    app.stream.pin_stream_at(1);
    app.handle_zenoh_message(make("d"), 0);
    assert!(!app.stream.stream_follow);
    assert_eq!(app.stream.sub_selected, 2);
}

#[test]
fn app_filtered_sub_messages_match_key_and_payload() {
    let mut app = App::new("test".into(), 0);
    app.handle_zenoh_message(message("robot/pose", r#"{"x": 1}"#, "", 0, "put"), 0);
    app.handle_zenoh_message(message("robot/status", r#""idle""#, "", 0, "put"), 0);

    app.stream.stream_filter = "pose".into();
    assert_eq!(app.filtered_sub_messages().len(), 1);
    assert_eq!(app.filtered_sub_messages()[0].key_expr, "robot/pose");

    app.stream.stream_filter = "idle".into();
    assert_eq!(app.filtered_sub_messages().len(), 1);
    assert_eq!(app.filtered_sub_messages()[0].key_expr, "robot/status");
}

#[test]
fn app_sub_selected_only_shifts_for_matching_filtered_message() {
    let mut app = App::new("test".into(), 0);
    let make = |k: &str| message(k, "null", "", 0, "put");
    app.handle_zenoh_message(make("alpha/1"), 0);
    app.handle_zenoh_message(make("beta/1"), 0);
    app.handle_zenoh_message(make("alpha/2"), 0);

    app.stream.stream_filter = "alpha".into();
    app.stream.pin_stream_at(1);

    app.handle_zenoh_message(make("beta/2"), 0);
    assert_eq!(app.stream.sub_selected, 1);

    app.handle_zenoh_message(make("alpha/3"), 0);
    assert_eq!(app.stream.sub_selected, 2);
}

#[test]
fn app_follow_stream_resets_selection_to_latest() {
    let mut app = App::new("test".into(), 0);
    app.stream.stream_follow = false;
    app.stream.sub_selected = 3;
    app.stream.follow_stream();
    assert!(app.stream.stream_follow);
    assert_eq!(app.stream.sub_selected, 0);
}

#[test]
fn app_pin_stream_disables_follow() {
    let mut app = App::new("test".into(), 0);
    app.stream.pin_stream_at(2);
    assert!(!app.stream.stream_follow);
    assert_eq!(app.stream.sub_selected, 0);
}

#[test]
fn app_clear_network_state_clears_topics_messages_and_nodes() {
    let mut app = App::new("test".into(), 0);
    let make = |k: &str| message(k, "null", "", 0, "put");
    app.handle_zenoh_message(make("a"), 0);
    app.handle_zenoh_message(make("b"), 0);
    app.feed.total_msg_count = 7;
    app.feed.total_hz = Rate { messages: 7, nanos: 2_000_000_000 };
    assert_eq!(per_second(app.feed.total_hz), 3.5);
    app.pane.selected = 1;
    app.pane.detail_scroll = 4;
    app.list_scroll_offset = 5;
    app.stream.sub_selected = 1;
    app.network.admin_nodes.push(bare_node("z1", "router"));
    app.network.scout_nodes.push(bare_node("z2", "peer"));
    app.network.nodes = vec![bare_node("z1", "router"), bare_node("z2", "peer")];
    app.network.node_selected = 1;
    app.network.node_detail_scroll = 2;

    app.clear_network_state();

    assert!(app.pane.key_tree.is_empty());
    assert!(app.feed.latest.is_empty());
    assert!(app.feed.msg_counts.is_empty());
    assert!(app.feed.hz.is_empty());
    assert_eq!(app.feed.total_msg_count, 0);
    assert_eq!(per_second(app.feed.total_hz), 0.0);
    assert_eq!(app.pane.selected, 0);
    assert_eq!(app.pane.detail_scroll, 0);
    assert_eq!(app.list_scroll_offset, 0);

    assert!(app.stream.sub_messages.is_empty());
    assert!(app.stream.recent_messages.is_empty());
    assert_eq!(app.stream.sub_selected, 0);

    assert!(app.network.admin_nodes.is_empty());
    assert!(app.network.scout_nodes.is_empty());
    assert!(app.network.nodes.is_empty());
    assert_eq!(app.network.node_selected, 0);
    assert_eq!(app.network.node_detail_scroll, 0);
}

#[test]
fn app_clear_network_state_preserves_query_history_and_filters() {
    let mut app = App::new("test".into(), 0);
    app.query.query_input = "demo/**".into();
    app.query.query_history.push("demo/**".into());
    app.query.query_results.push(message("demo/x", "1", "", 0, "get"));
    app.pane.filter = "abc".into();
    app.stream.stream_filter = "xyz".into();
    app.stream.stream_follow = false;
    app.stream.sub_paused = true;

    app.clear_network_state();

    assert_eq!(app.query.query_input, "demo/**");
    assert_eq!(app.query.query_history, vec!["demo/**".to_string()]);
    assert_eq!(app.query.query_results.len(), 1);
    assert_eq!(app.pane.filter, "abc");
    assert_eq!(app.stream.stream_filter, "xyz");
    assert!(!app.stream.stream_follow);
    assert!(app.stream.sub_paused);
}

#[test]
fn app_traffic_q_runs_query_on_selected_key() {
    let mut app = App::new("test".into(), 0);
    app.space = Space::Traffic;
    seed_topics(&mut app, &["demo/a", "demo/b"]);
    app.pane.selected = 2; // demo/b, below the shared branch
    app.handle_key(key(KeyCode::Char('Q')), 0);
    assert_eq!(app.detail_mode, DetailMode::Query);
    assert_eq!(app.query.pending_query, Some("demo/b".to_string()));
    assert_eq!(app.query.query_history, vec!["demo/b".to_string()]);
}

#[test]
fn app_traffic_l_sets_live_mode() {
    let mut app = App::new("test".into(), 0);
    app.space = Space::Traffic;
    app.detail_mode = DetailMode::Query;
    app.handle_key(key(KeyCode::Char('L')), 0);
    assert_eq!(app.detail_mode, DetailMode::Live);
}

#[test]
fn app_traffic_jk_move_and_clamp_selection() {
    let mut app = App::new("test".into(), 0);
    app.space = Space::Traffic;
    seed_topics(&mut app, &["a", "b", "c"]);
    assert_eq!(app.pane.selected, 0);
    app.handle_key(key(KeyCode::Char('j')), 0);
    assert_eq!(app.pane.selected, 1);
    app.handle_key(key(KeyCode::Char('j')), 0);
    assert_eq!(app.pane.selected, 2);
    // Clamp at the bottom.
    app.handle_key(key(KeyCode::Char('j')), 0);
    assert_eq!(app.pane.selected, 2);
    app.handle_key(key(KeyCode::Char('k')), 0);
    app.handle_key(key(KeyCode::Char('k')), 0);
    assert_eq!(app.pane.selected, 0);
    // Clamp at the top.
    app.handle_key(key(KeyCode::Char('k')), 0);
    assert_eq!(app.pane.selected, 0);
}

#[test]
fn app_traffic_move_resets_detail_scroll() {
    let mut app = App::new("test".into(), 0);
    app.space = Space::Traffic;
    seed_topics(&mut app, &["a", "b"]);
    app.pane.detail_scroll = 9;
    app.handle_key(key(KeyCode::Char('j')), 0);
    assert_eq!(app.pane.selected, 1);
    assert_eq!(app.pane.detail_scroll, 0);
}

#[test]
fn app_network_jk_move_and_clamp_selection() {
    let mut app = App::new("test".into(), 0);
    app.space = Space::Network;
    app.network.nodes.push(make_node("z1", "router"));
    app.network.nodes.push(make_node("z2", "peer"));
    app.network.liveliness_tokens
        .push(make_token("fleet/r1/node/a", true));
    // 2 sessions + 1 service = 3 selectable rows.
    assert_eq!(app.network.network_rows().len(), 3);
    assert_eq!(app.network.network_selected, 0);
    app.handle_key(key(KeyCode::Char('j')), 0);
    assert_eq!(app.network.network_selected, 1);
    app.handle_key(key(KeyCode::Char('j')), 0);
    assert_eq!(app.network.network_selected, 2);
    // Clamp at the bottom.
    app.handle_key(key(KeyCode::Char('j')), 0);
    assert_eq!(app.network.network_selected, 2);
    app.handle_key(key(KeyCode::Char('k')), 0);
    app.handle_key(key(KeyCode::Char('k')), 0);
    assert_eq!(app.network.network_selected, 0);
    // Clamp at the top.
    app.handle_key(key(KeyCode::Char('k')), 0);
    assert_eq!(app.network.network_selected, 0);
}

#[test]
fn app_network_move_resets_detail_scroll() {
    let mut app = App::new("test".into(), 0);
    app.space = Space::Network;
    app.network.nodes.push(make_node("z1", "router"));
    app.network.nodes.push(make_node("z2", "peer"));
    app.network.node_detail_scroll = 9;
    app.handle_key(key(KeyCode::Char('j')), 0);
    assert_eq!(app.network.network_selected, 1);
    assert_eq!(app.network.node_detail_scroll, 0);
}

#[test]
fn app_network_selection_resolves_session_then_service() {
    let mut app = App::new("test".into(), 0);
    app.network.nodes.push(make_node("z1", "router"));
    app.network.nodes.push(make_node("z2", "peer"));
    app.network.liveliness_tokens
        .push(make_token("fleet/r1/node/a", true));
    assert_eq!(app.network.selected_network_row(), Some(NetworkRow::Session(0)));
    app.network.network_selected = 1;
    assert_eq!(app.network.selected_network_row(), Some(NetworkRow::Session(1)));
    app.network.network_selected = 2;
    assert_eq!(app.network.selected_network_row(), Some(NetworkRow::Service(0)));
}

#[test]
fn app_network_s_requests_scout_refresh() {
    let mut app = App::new("test".into(), 0);
    app.space = Space::Network;
    assert!(!app.network.pending_scout_request);
    app.handle_key(key(KeyCode::Char('s')), 0);
    assert!(app.network.pending_scout_request);
}

#[test]
fn app_network_s_does_not_request_while_scout_in_progress() {
    let mut app = App::new("test".into(), 0);
    app.space = Space::Network;
    app.network.scout_in_progress = true;
    app.handle_key(key(KeyCode::Char('s')), 0);
    assert!(!app.network.pending_scout_request);
}

#[test]
fn tests_uppercase_j_k_map_to_detail_scroll_without_shift() {
    // Uppercase J/K scroll regardless of whether Shift is reported.
    assert_eq!(
        detail_scroll_action(key(KeyCode::Char('J'))),
        Some(DetailScroll::Down)
    );
    assert_eq!(
        detail_scroll_action(key(KeyCode::Char('K'))),
        Some(DetailScroll::Up)
    );
    assert_eq!(
        detail_scroll_action(KeyEvent { code: KeyCode::Char('J'), ctrl: false, shift: true }),
        Some(DetailScroll::Down)
    );
}

#[test]
fn tests_lowercase_j_k_are_not_detail_scroll() {
    assert_eq!(detail_scroll_action(key(KeyCode::Char('j'))), None);
    assert_eq!(detail_scroll_action(key(KeyCode::Char('k'))), None);
}

#[test]
fn tests_rate_window_evicts_beyond_cap_and_detects_idle() {
    let mut w = RateWindow::new(3);
    w.push(10);
    w.push(20);
    w.push(30);
    w.push(40); // evicts the 10
    assert_eq!(w.series(), vec![20, 30, 40]);
    assert_eq!(w.latest(), 40);
    assert!(!w.is_all_zero());
    let mut idle = RateWindow::new(2);
    idle.push(0);
    idle.push(0);
    assert!(idle.is_all_zero());
}

#[test]
fn tests_format_bytes_per_sec_scales_units() {
    assert_eq!(format_bytes_per_sec(500), "500 B/s");
    assert_eq!(format_bytes_per_sec(2048), "2.0 KB/s");
    assert_eq!(format_bytes_per_sec(3_145_728), "3.0 MB/s");
}

#[test]
fn tests_narrow_below_threshold() {
    assert!(is_narrow(89));
    assert!(!is_narrow(90));
    assert!(!is_narrow(200));
}

#[test]
fn tests_empty_reason_reflects_connection_state() {
    let mut app = App::new("test".into(), 0);
    app.connection_state = ConnectionState::Connecting;
    assert_eq!(app.topics_empty_reason(), EmptyReason::Connecting);
    app.connection_state = ConnectionState::Disconnected("x".into());
    assert_eq!(app.nodes_empty_reason(), EmptyReason::Disconnected);
}

#[test]
fn tests_empty_reason_distinguishes_filter_from_no_data() {
    let mut app = App::new("test".into(), 0);
    app.connection_state = ConnectionState::Connected("zid".into());
    // No data at all → NoDataYet.
    assert_eq!(app.topics_empty_reason(), EmptyReason::NoDataYet);
    // Data exists but the filter hides it → FilteredOut.
    app.pane.key_tree.insert("a/b");
    app.pane.filter = "zzz".into();
    assert_eq!(app.topics_empty_reason(), EmptyReason::FilteredOut);
}

#[test]
fn tests_question_mark_toggles_help_overlay() {
    let mut app = App::new("test".into(), 0);
    assert_eq!(app.overlay, Overlay::Closed);
    app.handle_key(key(KeyCode::Char('?')), 0);
    assert_eq!(app.overlay, Overlay::Help);
    // q closes the overlay (does not quit)
    app.handle_key(key(KeyCode::Char('q')), 0);
    assert_eq!(app.overlay, Overlay::Closed);
    assert!(!app.should_quit);
}

#[test]
fn tests_help_scrolls_and_esc_closes() {
    let mut app = App::new("test".into(), 0);
    app.handle_key(key(KeyCode::Char('?')), 0);
    app.handle_key(key(KeyCode::Char('j')), 0);
    assert_eq!(app.help_scroll, 1);
    app.handle_key(key(KeyCode::Char('k')), 0);
    assert_eq!(app.help_scroll, 0);
    app.handle_key(key(KeyCode::Esc), 0);
    assert_eq!(app.overlay, Overlay::Closed);
}

#[test]
fn tests_tab_and_number_keys_switch_space() {
    let mut app = App::new("test".into(), 0);
    assert_eq!(app.space, Space::Traffic);
    app.handle_key(key(KeyCode::Tab), 0);
    assert_eq!(app.space, Space::Network);
    app.handle_key(key(KeyCode::Char('1')), 0);
    assert_eq!(app.space, Space::Traffic);
    app.handle_key(key(KeyCode::Char('2')), 0);
    assert_eq!(app.space, Space::Network);
}

#[test]
fn tests_enter_and_esc_move_pane_focus() {
    let mut app = App::new("test".into(), 0);
    assert_eq!(app.pane_focus, PaneFocus::Master);
    app.handle_key(key(KeyCode::Enter), 0);
    assert_eq!(app.pane_focus, PaneFocus::Detail);
    app.handle_key(key(KeyCode::Esc), 0);
    assert_eq!(app.pane_focus, PaneFocus::Master);
}

#[test]
fn tests_switching_space_resets_pane_focus_to_master() {
    let mut app = App::new("test".into(), 0);
    app.pane_focus = PaneFocus::Detail;
    app.handle_key(key(KeyCode::Char('2')), 0);
    assert_eq!(app.space, Space::Network);
    assert_eq!(app.pane_focus, PaneFocus::Master);
}

#[test]
fn tests_domain_port_label_maps_domain_range() {
    assert_eq!(domain_port_label(7446), "domain 0 (port 7446)");
    assert_eq!(domain_port_label(7450), "domain 4 (port 7450)");
    assert_eq!(domain_port_label(7546), "domain 100 (port 7546)");
}

#[test]
fn tests_domain_port_label_treats_out_of_range_as_custom_port() {
    // Below 7446 must not be misreported as "domain 0".
    assert_eq!(domain_port_label(7000), "port 7000 (custom)");
    assert_eq!(domain_port_label(8000), "port 8000 (custom)");
}

#[test]
fn tests_apply_detail_scroll_saturates_at_zero() {
    assert_eq!(apply_detail_scroll(0, DetailScroll::Up), 0);
    assert_eq!(apply_detail_scroll(0, DetailScroll::Down), 3);
    assert_eq!(apply_detail_scroll(5, DetailScroll::Up), 2);
}

#[test]
fn tests_space_tab_hit_inside_rect_returns_index() {
    let rects = [Some(rect(1, 0, 9, 1)), Some(rect(12, 0, 9, 1))];
    assert_eq!(space_tab_hit(&rects, 2, 0), Some(0));
    assert_eq!(space_tab_hit(&rects, 14, 0), Some(1));
}

#[test]
fn tests_space_tab_hit_outside_returns_none() {
    let rects = [Some(rect(1, 0, 9, 1)), None];
    assert_eq!(space_tab_hit(&rects, 50, 0), None);
    assert_eq!(space_tab_hit(&rects, 2, 5), None);
}

#[test]
fn tests_list_hit_converts_row_to_index() {
    let rect = rect(0, 5, 20, 10);
    assert_eq!(list_hit(rect, 6, 0, 8, 6), Some(0));
    assert_eq!(list_hit(rect, 8, 0, 8, 6), Some(2));
    assert_eq!(list_hit(rect, 5, 0, 8, 6), None);
    assert_eq!(list_hit(rect, 15, 0, 8, 6), None);
    assert_eq!(list_hit(rect, 20, 0, 8, 6), None);
    assert_eq!(list_hit(rect, 14, 0, 8, 6), None);
}

#[test]
fn tests_list_hit_respects_scroll_offset() {
    let rect = rect(0, 5, 20, 10);
    assert_eq!(list_hit(rect, 6, 4, 20, 6), Some(4));
    assert_eq!(list_hit(rect, 9, 4, 20, 6), Some(7));
}

#[test]
fn tests_sub_selected_zero_stays_on_new_message() {
    let mut app = App::new("test".into(), 0);
    app.stream.sub_selected = 0;
    let msg = message("a", "null", "", 0, "put");
    app.handle_zenoh_message(msg, 0);
    assert_eq!(app.stream.sub_selected, 0);
}

#[test]
fn tests_sub_selected_nonzero_follows_message_through_shift() {
    let mut app = App::new("test".into(), 0);
    let make = |k: &str| message(k, "null", "", 0, "put");
    app.handle_zenoh_message(make("a"), 0);
    app.handle_zenoh_message(make("b"), 0);
    app.handle_zenoh_message(make("c"), 0);
    app.stream.pin_stream_at(1);
    app.handle_zenoh_message(make("d"), 0);
    assert!(!app.stream.stream_follow);
    assert_eq!(app.stream.sub_selected, 2);
}

#[test]
fn tests_filtered_sub_messages_match_key_and_payload() {
    let mut app = App::new("test".into(), 0);
    app.handle_zenoh_message(message("robot/pose", r#"{"x": 1}"#, "", 0, "put"), 0);
    app.handle_zenoh_message(message("robot/status", r#""idle""#, "", 0, "put"), 0);

    app.stream.stream_filter = "pose".into();
    assert_eq!(app.filtered_sub_messages().len(), 1);
    assert_eq!(app.filtered_sub_messages()[0].key_expr, "robot/pose");

    app.stream.stream_filter = "idle".into();
    assert_eq!(app.filtered_sub_messages().len(), 1);
    assert_eq!(app.filtered_sub_messages()[0].key_expr, "robot/status");
}

#[test]
fn tests_sub_selected_only_shifts_for_matching_filtered_message() {
    let mut app = App::new("test".into(), 0);
    let make = |k: &str| message(k, "null", "", 0, "put");
    app.handle_zenoh_message(make("alpha/1"), 0);
    app.handle_zenoh_message(make("beta/1"), 0);
    app.handle_zenoh_message(make("alpha/2"), 0);

    app.stream.stream_filter = "alpha".into();
    app.stream.pin_stream_at(1);

    app.handle_zenoh_message(make("beta/2"), 0);
    assert_eq!(app.stream.sub_selected, 1);

    app.handle_zenoh_message(make("alpha/3"), 0);
    assert_eq!(app.stream.sub_selected, 2);
}

#[test]
fn tests_follow_stream_resets_selection_to_latest() {
    let mut app = App::new("test".into(), 0);
    app.stream.stream_follow = false;
    app.stream.sub_selected = 3;
    app.stream.follow_stream();
    assert!(app.stream.stream_follow);
    assert_eq!(app.stream.sub_selected, 0);
}

#[test]
fn tests_pin_stream_disables_follow() {
    let mut app = App::new("test".into(), 0);
    app.stream.pin_stream_at(2);
    assert!(!app.stream.stream_follow);
    assert_eq!(app.stream.sub_selected, 0);
}

#[test]
fn tests_clear_network_state_clears_topics_messages_and_nodes() {
    let mut app = App::new("test".into(), 0);
    let make = |k: &str| message(k, "null", "", 0, "put");
    app.handle_zenoh_message(make("a"), 0);
    app.handle_zenoh_message(make("b"), 0);
    app.feed.total_msg_count = 7;
    app.feed.total_hz = Rate { messages: 7, nanos: 2_000_000_000 };
    assert_eq!(per_second(app.feed.total_hz), 3.5);
    app.pane.selected = 1;
    app.pane.detail_scroll = 4;
    app.list_scroll_offset = 5;
    app.stream.sub_selected = 1;
    app.network.admin_nodes.push(bare_node("z1", "router"));
    app.network.scout_nodes.push(bare_node("z2", "peer"));
    app.network.nodes = vec![bare_node("z1", "router"), bare_node("z2", "peer")];
    app.network.node_selected = 1;
    app.network.node_detail_scroll = 2;

    app.clear_network_state();

    assert!(app.pane.key_tree.is_empty());
    assert!(app.feed.latest.is_empty());
    assert!(app.feed.msg_counts.is_empty());
    assert!(app.feed.hz.is_empty());
    assert_eq!(app.feed.total_msg_count, 0);
    assert_eq!(per_second(app.feed.total_hz), 0.0);
    assert_eq!(app.pane.selected, 0);
    assert_eq!(app.pane.detail_scroll, 0);
    assert_eq!(app.list_scroll_offset, 0);

    assert!(app.stream.sub_messages.is_empty());
    assert!(app.stream.recent_messages.is_empty());
    assert_eq!(app.stream.sub_selected, 0);

    assert!(app.network.admin_nodes.is_empty());
    assert!(app.network.scout_nodes.is_empty());
    assert!(app.network.nodes.is_empty());
    assert_eq!(app.network.node_selected, 0);
    assert_eq!(app.network.node_detail_scroll, 0);
}

#[test]
fn tests_clear_network_state_preserves_query_history_and_filters() {
    let mut app = App::new("test".into(), 0);
    app.query.query_input = "demo/**".into();
    app.query.query_history.push("demo/**".into());
    app.query.query_results.push(message("demo/x", "1", "", 0, "get"));
    app.pane.filter = "abc".into();
    app.stream.stream_filter = "xyz".into();
    app.stream.stream_follow = false;
    app.stream.sub_paused = true;

    app.clear_network_state();

    assert_eq!(app.query.query_input, "demo/**");
    assert_eq!(app.query.query_history, vec!["demo/**".to_string()]);
    assert_eq!(app.query.query_results.len(), 1);
    assert_eq!(app.pane.filter, "abc");
    assert_eq!(app.stream.stream_filter, "xyz");
    assert!(!app.stream.stream_follow);
    assert!(app.stream.sub_paused);
}

#[test]
fn tests_traffic_q_runs_query_on_selected_key() {
    let mut app = App::new("test".into(), 0);
    app.space = Space::Traffic;
    seed_topics(&mut app, &["demo/a", "demo/b"]);
    // Rows are [demo/, demo/a, demo/b] — the shared branch takes row 0.
    app.pane.selected = 2; // demo/b
    app.handle_key(key(KeyCode::Char('Q')), 0);
    assert_eq!(app.detail_mode, DetailMode::Query);
    assert_eq!(app.query.pending_query, Some("demo/b".to_string()));
    assert_eq!(app.query.query_history, vec!["demo/b".to_string()]);
}

#[test]
fn tests_traffic_l_sets_live_mode() {
    let mut app = App::new("test".into(), 0);
    app.space = Space::Traffic;
    app.detail_mode = DetailMode::Query;
    app.handle_key(key(KeyCode::Char('L')), 0);
    assert_eq!(app.detail_mode, DetailMode::Live);
}

#[test]
fn tests_traffic_jk_move_and_clamp_selection() {
    let mut app = App::new("test".into(), 0);
    app.space = Space::Traffic;
    seed_topics(&mut app, &["a", "b", "c"]);
    assert_eq!(app.pane.selected, 0);
    app.handle_key(key(KeyCode::Char('j')), 0);
    assert_eq!(app.pane.selected, 1);
    app.handle_key(key(KeyCode::Char('j')), 0);
    assert_eq!(app.pane.selected, 2);
    // Clamp at the bottom.
    app.handle_key(key(KeyCode::Char('j')), 0);
    assert_eq!(app.pane.selected, 2);
    app.handle_key(key(KeyCode::Char('k')), 0);
    app.handle_key(key(KeyCode::Char('k')), 0);
    assert_eq!(app.pane.selected, 0);
    // Clamp at the top.
    app.handle_key(key(KeyCode::Char('k')), 0);
    assert_eq!(app.pane.selected, 0);
}

#[test]
fn tests_traffic_move_resets_detail_scroll() {
    let mut app = App::new("test".into(), 0);
    app.space = Space::Traffic;
    seed_topics(&mut app, &["a", "b"]);
    app.pane.detail_scroll = 9;
    app.handle_key(key(KeyCode::Char('j')), 0);
    assert_eq!(app.pane.selected, 1);
    assert_eq!(app.pane.detail_scroll, 0);
}

#[test]
fn l_opens_a_branch_and_h_closes_it() {
    let mut app = App::new("test".into(), 0);
    app.space = Space::Traffic;
    seed_fleet(&mut app, 30);
    // `agv` is the only root child, so the automatic opening walked into it and
    // stopped where the vehicles fan out.
    assert_eq!(app.pane.tree_rows()[0].path, "agv");

    app.handle_key(key(KeyCode::Char('h')), 0);
    assert_eq!(app.pane.tree_rows().len(), 1, "closing agv leaves only its row");

    app.handle_key(key(KeyCode::Char('l')), 0);
    // 30 children is over the fold threshold, so opening shows a summary row.
    assert_eq!(app.pane.tree_rows().len(), 2);
    assert!(matches!(
        app.pane.tree_rows()[1].kind,
        RowKind::FoldSummary { hidden: 30 }
    ));
}

#[test]
fn l_on_a_fold_summary_lists_the_children() {
    let mut app = App::new("test".into(), 0);
    app.space = Space::Traffic;
    seed_fleet(&mut app, 30);
    app.handle_key(key(KeyCode::Char('j')), 0); // onto the summary row
    assert!(matches!(
        app.pane.selected_row().map(|r| r.kind),
        Some(RowKind::FoldSummary { .. })
    ));
    app.handle_key(key(KeyCode::Char('l')), 0);
    assert_eq!(app.pane.tree_rows().len(), 31, "agv plus its 30 vehicles");
}

#[test]
fn collapsing_a_branch_also_refolds_it() {
    // Otherwise reopening a 200-vehicle branch dumps every child back on screen
    // because it was unfolded once, minutes ago.
    let mut app = App::new("test".into(), 0);
    app.space = Space::Traffic;
    seed_fleet(&mut app, 30);
    app.handle_key(key(KeyCode::Char('j')), 0);
    app.handle_key(key(KeyCode::Char('l')), 0); // unfold
    assert_eq!(app.pane.tree_rows().len(), 31);

    app.pane.selected = 0;
    app.handle_key(key(KeyCode::Char('h')), 0); // collapse agv
    app.handle_key(key(KeyCode::Char('l')), 0); // and reopen it
    assert_eq!(app.pane.tree_rows().len(), 2, "back to the summary row");
}

#[test]
fn h_on_a_closed_branch_climbs_to_the_parent() {
    let mut app = App::new("test".into(), 0);
    app.space = Space::Traffic;
    seed_topics(&mut app, &["agv/f1/pose", "agv/f2/pose"]);
    // Rows: agv/, agv/f1/, agv/f1/pose, agv/f2/, agv/f2/pose
    app.pane.selected = 2; // the pose key under f1
    app.handle_key(key(KeyCode::Char('h')), 0);
    assert_eq!(app.pane.selected_row().unwrap().path, "agv/f1");
    app.handle_key(key(KeyCode::Char('h')), 0); // f1 is open, so this closes it
    app.handle_key(key(KeyCode::Char('h')), 0); // now it climbs
    assert_eq!(app.pane.selected_row().unwrap().path, "agv");
}

#[test]
fn expand_all_and_collapse_all() {
    let mut app = App::new("test".into(), 0);
    app.space = Space::Traffic;
    seed_fleet(&mut app, 30);
    app.handle_key(key(KeyCode::Char('C')), 0);
    assert_eq!(app.pane.tree_rows().len(), 1);
    app.handle_key(key(KeyCode::Char('E')), 0);
    // Every branch open: agv, 30 vehicles, and a pose key under each.
    assert_eq!(app.pane.tree_rows().len(), 61);
}

#[test]
fn a_small_namespace_opens_completely() {
    // Under the fold threshold the tree should look like the flat list it
    // effectively is, not make the user expand to reach anything.
    let mut app = App::new("test".into(), 0);
    seed_topics(&mut app, &["a/b/c", "a/b/d"]);
    assert_eq!(
        app.pane.tree_rows()
            .iter()
            .map(|r| r.path.as_str())
            .collect::<Vec<_>>(),
        vec!["a", "a/b", "a/b/c", "a/b/d"]
    );
}

#[test]
fn a_new_key_never_reopens_what_the_user_closed() {
    let mut app = App::new("test".into(), 0);
    app.space = Space::Traffic;
    seed_topics(&mut app, &["agv/f1/pose"]);
    app.pane.selected = 0;
    app.handle_key(key(KeyCode::Char('C')), 0);
    assert_eq!(app.pane.tree_rows().len(), 1);

    // A message on a brand-new key arrives while the tree is closed.
    app.handle_zenoh_message(message("agv/f2/pose", "null", "", 0, "put"), 0);
    app.pane.refresh_tree_rows();
    assert_eq!(app.pane.tree_rows().len(), 1, "the tree stayed closed");
}

#[test]
fn a_branch_row_is_not_a_queryable_key() {
    let mut app = App::new("test".into(), 0);
    app.space = Space::Traffic;
    seed_topics(&mut app, &["agv/f1/pose"]);
    app.pane.selected = 0; // the `agv/` branch
    assert_eq!(app.pane.selected_topic_key(), None);
    app.handle_key(key(KeyCode::Char('Q')), 0);
    assert_eq!(app.query.pending_query, None, "a prefix is not a key to query");
}

#[test]
fn filtering_reaches_inside_a_folded_group() {
    let mut app = App::new("test".into(), 0);
    app.space = Space::Traffic;
    seed_fleet(&mut app, 30);
    app.pane.filter = "f017".into();
    app.pane.refresh_tree_rows();
    assert_eq!(
        app.pane.tree_rows()
            .iter()
            .map(|r| r.path.as_str())
            .collect::<Vec<_>>(),
        vec!["agv", "agv/f017", "agv/f017/pose"]
    );
}

#[test]
fn freshness_turns_over_at_the_dim_threshold() {
    let mut app = App::new("test".into(), 0);
    seen_ago(&mut app, "a/fresh", 0);
    seen_ago(&mut app, "a/stale", IDLE_DIM_SECS + 1);
    assert_eq!(app.feed.key_freshness("a/fresh", NOW), KeyFreshness::Live);
    assert_eq!(app.feed.key_freshness("a/stale", NOW), KeyFreshness::Idle);
    // In the tree but never carrying a payload.
    app.pane.key_tree.insert("a/unseen");
    assert_eq!(app.feed.key_freshness("a/unseen", NOW), KeyFreshness::NoData);
}

#[test]
fn format_idle_is_coarse_by_design() {
    assert_eq!(format_idle(0), "0m");
    assert_eq!(format_idle(59), "0m");
    assert_eq!(format_idle(305), "5m");
    assert_eq!(format_idle(3600), "1h0m");
    assert_eq!(format_idle(7_845), "2h10m");
}

#[test]
fn keys_under_the_cap_are_never_evicted() {
    // Going quiet is a finding, not a reason to be forgotten.
    let mut app = App::new("test".into(), 0);
    seen_ago(&mut app, "a/ancient", 86_400);
    evict_excess_keys(&mut app.feed, &mut app.pane);
    assert_eq!(app.pane.key_tree.len(), 1);
    assert_eq!(app.feed.keys_aged_out, 0);
}

#[test]
fn exceeding_the_cap_evicts_the_longest_idle_first() {
    let mut app = App::new("test".into(), 0);
    // One key per second of age, oldest first, just past the cap.
    for i in 0..=MAX_KEYS {
        seen_ago(&mut app, &format!("k/{i:05}"), (MAX_KEYS - i) as u64);
    }
    assert_eq!(app.pane.key_tree.len(), MAX_KEYS + 1);

    evict_excess_keys(&mut app.feed, &mut app.pane);

    let target = (MAX_KEYS as f64 * EVICT_TO_FRACTION) as usize;
    assert_eq!(app.pane.key_tree.len(), target, "evicts past the cap, not to it");
    assert_eq!(app.feed.keys_aged_out, MAX_KEYS + 1 - target);
    // The oldest went; the newest stayed.
    assert!(!app.pane.key_tree.contains("k/00000"));
    assert!(app.pane.key_tree.contains(&format!("k/{MAX_KEYS:05}")));
    // And every map is dropped together, so nothing is left keyed by a key
    // the tree no longer knows.
    assert!(!app.feed.latest.contains_key("k/00000"));
    assert_eq!(app.feed.latest.len(), target);
}

#[test]
fn eviction_prunes_expansion_state_for_vanished_branches() {
    // Otherwise the expansion sets grow without bound alongside the keys they
    // outlive — the same leak, one level up.
    let mut app = App::new("test".into(), 0);
    for i in 0..=MAX_KEYS {
        seen_ago(&mut app, &format!("k{i:05}/leaf"), (MAX_KEYS - i) as u64);
    }
    app.pane.expanded.insert("k00000".into());
    app.pane.unfolded.insert("k00000".into());

    evict_excess_keys(&mut app.feed, &mut app.pane);

    assert!(!app.pane.key_tree.contains("k00000/leaf"));
    assert!(!app.pane.expanded.contains("k00000"));
    assert!(!app.pane.unfolded.contains("k00000"));
}

#[test]
fn a_quiet_keys_history_survives_a_noisy_neighbour() {
    // What a history per key is for: a busy neighbour cannot push this one's
    // past out.
    let mut app = App::new("test".into(), 0);
    let msg = |k: &str, n: i64| message(k, &format!("{{\"n\": {n}}}"), "application/json", 12, "put");
    app.handle_zenoh_message(msg("agv/quiet/pose", 1), 0);
    app.handle_zenoh_message(msg("agv/quiet/pose", 2), 0);
    for i in 0..5_000 {
        app.handle_zenoh_message(msg("agv/loud/pose", i), 0);
    }
    assert_eq!(app.feed.history.get("agv/quiet/pose").unwrap().len(), 2);
    assert!(app
        .feed.history
        .get("agv/quiet/pose")
        .unwrap()
        .previous()
        .is_some());
}

#[test]
fn tests_network_jk_move_and_clamp_selection() {
    let mut app = App::new("test".into(), 0);
    app.space = Space::Network;
    app.network.nodes.push(make_node("z1", "router"));
    app.network.nodes.push(make_node("z2", "peer"));
    app.network.liveliness_tokens
        .push(make_token("fleet/r1/node/a", true));
    // 2 sessions + 1 service = 3 selectable rows.
    assert_eq!(app.network.network_rows().len(), 3);
    assert_eq!(app.network.network_selected, 0);
    app.handle_key(key(KeyCode::Char('j')), 0);
    assert_eq!(app.network.network_selected, 1);
    app.handle_key(key(KeyCode::Char('j')), 0);
    assert_eq!(app.network.network_selected, 2);
    // Clamp at the bottom.
    app.handle_key(key(KeyCode::Char('j')), 0);
    assert_eq!(app.network.network_selected, 2);
    app.handle_key(key(KeyCode::Char('k')), 0);
    app.handle_key(key(KeyCode::Char('k')), 0);
    assert_eq!(app.network.network_selected, 0);
    // Clamp at the top.
    app.handle_key(key(KeyCode::Char('k')), 0);
    assert_eq!(app.network.network_selected, 0);
}

#[test]
fn tests_network_move_resets_detail_scroll() {
    let mut app = App::new("test".into(), 0);
    app.space = Space::Network;
    app.network.nodes.push(make_node("z1", "router"));
    app.network.nodes.push(make_node("z2", "peer"));
    app.network.node_detail_scroll = 9;
    app.handle_key(key(KeyCode::Char('j')), 0);
    assert_eq!(app.network.network_selected, 1);
    assert_eq!(app.network.node_detail_scroll, 0);
}

#[test]
fn tests_network_selection_resolves_session_then_service() {
    let mut app = App::new("test".into(), 0);
    app.network.nodes.push(make_node("z1", "router"));
    app.network.nodes.push(make_node("z2", "peer"));
    app.network.liveliness_tokens
        .push(make_token("fleet/r1/node/a", true));
    assert_eq!(app.network.selected_network_row(), Some(NetworkRow::Session(0)));
    app.network.network_selected = 1;
    assert_eq!(app.network.selected_network_row(), Some(NetworkRow::Session(1)));
    app.network.network_selected = 2;
    assert_eq!(app.network.selected_network_row(), Some(NetworkRow::Service(0)));
}

#[test]
fn tests_network_s_requests_scout_refresh() {
    let mut app = App::new("test".into(), 0);
    app.space = Space::Network;
    assert!(!app.network.pending_scout_request);
    app.handle_key(key(KeyCode::Char('s')), 0);
    assert!(app.network.pending_scout_request);
}

#[test]
fn tests_network_s_does_not_request_while_scout_in_progress() {
    let mut app = App::new("test".into(), 0);
    app.space = Space::Network;
    app.network.scout_in_progress = true;
    app.handle_key(key(KeyCode::Char('s')), 0);
    assert!(!app.network.pending_scout_request);
}

#[test]
fn d_opens_doctor_overlay_and_requests_run() {
    let mut app = App::new("test".into(), 0);
    assert_eq!(app.overlay, Overlay::Closed);
    assert!(!app.doctor.pending_doctor_request);
    app.handle_key(key(KeyCode::Char('d')), 0);
    assert_eq!(app.overlay, Overlay::Doctor);
    assert!(app.doctor.pending_doctor_request);
    assert_eq!(app.doctor.doctor_scroll, 0);
}

#[test]
fn doctor_overlay_r_reruns_and_esc_closes() {
    let mut app = App::new("test".into(), 0);
    app.handle_key(key(KeyCode::Char('d')), 0);
    app.doctor.pending_doctor_request = false;
    // r re-runs
    app.handle_key(key(KeyCode::Char('r')), 0);
    assert!(app.doctor.pending_doctor_request);
    // j/k scroll
    app.handle_key(key(KeyCode::Char('j')), 0);
    assert_eq!(app.doctor.doctor_scroll, 1);
    app.handle_key(key(KeyCode::Char('k')), 0);
    assert_eq!(app.doctor.doctor_scroll, 0);
    // Esc closes
    app.handle_key(key(KeyCode::Esc), 0);
    assert_eq!(app.overlay, Overlay::Closed);
}

#[test]
fn doctor_events_toggle_running_and_store_report() {
    let mut app = App::new("test".into(), 0);
    app.handle_event(AppEvent::DoctorStarted, 0);
    assert!(app.doctor.doctor_running);
    assert!(app.doctor.doctor_report.is_none());

    let report = report_of(vec![check("config", CheckStatus::Pass, 1, None, None)]);
    app.handle_event(AppEvent::DoctorReport(report), 0);
    assert!(!app.doctor.doctor_running);
    assert!(app.doctor.doctor_report.is_some());
}

#[test]
fn colon_opens_command_palette() {
    let mut app = App::new("test".into(), 0);
    assert_eq!(app.overlay, Overlay::Closed);
    app.handle_key(key(KeyCode::Char(':')), 0);
    assert_eq!(app.overlay, Overlay::Palette);
    assert!(app.palette.palette_input.is_empty());
    assert_eq!(app.palette.palette_selected, 0);
}

#[test]
fn palette_filtering_shrinks_and_matches() {
    let mut app = App::new("test".into(), 0);
    app.handle_key(key(KeyCode::Char(':')), 0);
    let all = app.palette.filtered_palette_commands().len();
    assert_eq!(all, palette_commands().len());

    // Type "peer" (case-insensitive) → only the peer-mode command matches.
    for c in "peer".chars() {
        app.handle_key(key(KeyCode::Char(c)), 0);
    }
    let filtered = app.palette.filtered_palette_commands();
    assert!(filtered.len() < all);
    assert_eq!(filtered.len(), 1);
    assert!(matches!(
        palette_commands()[filtered[0]].action,
        PaletteAction::SetMode(ConnectMode::Peer)
    ));
}

#[test]
fn palette_enter_runs_peer_mode_command() {
    let mut app = App::new("test".into(), 0);
    app.current_mode = ConnectMode::Client;
    app.handle_key(key(KeyCode::Char(':')), 0);
    for c in "peer".chars() {
        app.handle_key(key(KeyCode::Char(c)), 0);
    }
    app.handle_key(key(KeyCode::Enter), 0);
    assert_eq!(app.pending_reconnect_mode, Some(ConnectMode::Peer));
    // Palette closed after running.
    assert_eq!(app.overlay, Overlay::Closed);
}

#[test]
fn palette_set_mode_same_mode_does_not_reconnect() {
    let mut app = App::new("test".into(), 0);
    app.current_mode = ConnectMode::Client;
    app.run_palette_action(PaletteAction::SetMode(ConnectMode::Client), 0);
    assert_eq!(app.pending_reconnect_mode, None);
    assert_eq!(app.overlay, Overlay::Closed);
}

#[test]
fn palette_esc_closes_without_action() {
    let mut app = App::new("test".into(), 0);
    app.handle_key(key(KeyCode::Char(':')), 0);
    app.handle_key(key(KeyCode::Esc), 0);
    assert_eq!(app.overlay, Overlay::Closed);
    assert_eq!(app.pending_reconnect_mode, None);
}

#[test]
fn palette_arrow_navigation_clamps() {
    let mut app = App::new("test".into(), 0);
    app.handle_key(key(KeyCode::Char(':')), 0);
    app.handle_key(key(KeyCode::Up), 0);
    assert_eq!(app.palette.palette_selected, 0);
    let count = app.palette.filtered_palette_commands().len();
    for _ in 0..(count + 3) {
        app.handle_key(key(KeyCode::Down), 0);
    }
    assert_eq!(app.palette.palette_selected, count - 1);
}

#[test]
fn scout_port_action_opens_modal_and_reconnects() {
    let mut app = App::new("test".into(), 0);
    app.run_palette_action(PaletteAction::OpenScoutPort, 0);
    assert_eq!(app.overlay, Overlay::ScoutPort);
    // Type a port and confirm.
    app.handle_key(key(KeyCode::Char('7')), 0);
    app.handle_key(key(KeyCode::Char('4')), 0);
    app.handle_key(key(KeyCode::Char('5')), 0);
    app.handle_key(key(KeyCode::Char('0')), 0);
    app.handle_key(key(KeyCode::Enter), 0);
    assert_eq!(app.scout.pending_reconnect_port, Some(7450));
    assert_eq!(app.scout.scout_port_current, Some(7450));
    assert_eq!(app.overlay, Overlay::Closed);
}

#[test]
fn scout_port_modal_esc_closes() {
    let mut app = App::new("test".into(), 0);
    app.run_palette_action(PaletteAction::OpenScoutPort, 0);
    app.handle_key(key(KeyCode::Char('7')), 0);
    app.handle_key(key(KeyCode::Esc), 0);
    assert_eq!(app.overlay, Overlay::Closed);
    assert!(app.scout.scout_port_input.is_empty());
    assert_eq!(app.scout.pending_reconnect_port, None);
}

#[test]
fn scout_port_modal_s_requests_scan() {
    let mut app = App::new("test".into(), 0);
    app.run_palette_action(PaletteAction::OpenScoutPort, 0);
    app.handle_key(key(KeyCode::Char('s')), 0);
    assert!(app.scout.pending_port_scan_request);
}

#[test]
fn scout_port_enter_uses_selected_scan_result() {
    let mut app = App::new("test".into(), 0);
    app.run_palette_action(PaletteAction::OpenScoutPort, 0);
    app.scout.port_scan_results = vec![
        PortScoutResult {
            port: 7446,
            nodes: vec![],
        },
        PortScoutResult {
            port: 7448,
            nodes: vec![bare_node("z1", "peer")],
        },
    ];
    app.scout.port_scan_selected = 0; // first non-empty result → port 7448
    app.handle_key(key(KeyCode::Enter), 0);
    assert_eq!(app.scout.pending_reconnect_port, Some(7448));
}

#[test]
fn traffic_click_selects_row_and_drills() {
    let mut app = App::new("test".into(), 0);
    app.space = Space::Traffic;
    seed_topics(&mut app, &["a", "b", "c"]);
    app.list_rect = Some(rect(0, 2, 40, 10));
    app.list_first_item_row = 3;
    app.list_scroll_offset = 0;
    // Row 5 == first_item_row(3) + 2 → index 2.
    app.handle_click(5, 5);
    assert_eq!(app.pane.selected, 2);
    assert_eq!(app.pane.detail_scroll, 0);
    assert_eq!(app.pane_focus, PaneFocus::Detail);
}

#[test]
fn traffic_click_outside_list_is_ignored() {
    let mut app = App::new("test".into(), 0);
    app.space = Space::Traffic;
    seed_topics(&mut app, &["a", "b", "c"]);
    app.pane.selected = 1;
    app.list_rect = Some(rect(0, 2, 40, 10));
    app.list_first_item_row = 3;
    // Row 1 is above the list rect (y == 2) → no change.
    app.handle_click(5, 1);
    assert_eq!(app.pane.selected, 1);
}

#[test]
fn wheel_moves_traffic_selection_and_clamps() {
    let mut app = App::new("test".into(), 0);
    app.space = Space::Traffic;
    seed_topics(&mut app, &["a", "b", "c"]);
    app.handle_mouse(MouseEvent::ScrollDown);
    assert_eq!(app.pane.selected, 1);
    // Clamp at the bottom.
    app.wheel(true);
    app.wheel(true);
    assert_eq!(app.pane.selected, 2);
    // Scroll back up and clamp at the top.
    app.handle_mouse(MouseEvent::ScrollUp);
    app.wheel(false);
    app.wheel(false);
    assert_eq!(app.pane.selected, 0);
}

#[test]
fn wheel_moves_network_selection_and_clamps() {
    let mut app = App::new("test".into(), 0);
    app.space = Space::Network;
    app.network.nodes.push(make_node("z1", "router"));
    app.network.nodes.push(make_node("z2", "peer"));
    // 2 selectable rows.
    app.wheel(true);
    assert_eq!(app.network.network_selected, 1);
    app.wheel(true); // clamp
    assert_eq!(app.network.network_selected, 1);
    app.wheel(false);
    assert_eq!(app.network.network_selected, 0);
}

#[test]
fn wheel_ignored_while_overlay_open() {
    let mut app = App::new("test".into(), 0);
    app.space = Space::Traffic;
    seed_topics(&mut app, &["a", "b", "c"]);
    app.overlay = Overlay::Help;
    app.handle_mouse(MouseEvent::ScrollDown);
    assert_eq!(app.pane.selected, 0);
}

#[test]
fn without_permission_the_editor_does_not_open() {
    let mut app = App::new("test".into(), 0);
    app.run_palette_action(PaletteAction::OpenPublish, 0);
    assert_eq!(app.overlay, Overlay::Closed);
    assert!(app.toast.as_ref().unwrap().is_error);
    app.publish.arm_publish();
    assert_eq!(app.publish.publish_result, Some(Err("publishing is not enabled".into())));
    assert_eq!(app.publish.pending_publish, None);
}

#[test]
fn only_the_send_key_hands_a_message_over() {
    let mut app = App::new("test".into(), 0);
    app.publish.allow_publish = true;
    app.run_palette_action(PaletteAction::OpenPublish, 0);
    assert_eq!(app.overlay, Overlay::Publish);
    for c in "a/b".chars() {
        app.handle_key(key(KeyCode::Char(c)), 0);
    }
    app.handle_key(key(KeyCode::Tab), 0);
    for c in "42".chars() {
        app.handle_key(key(KeyCode::Char(c)), 0);
    }
    app.handle_key(key(KeyCode::Enter), 0);
    assert_eq!(app.publish.pending_publish, None);
    app.handle_key(KeyEvent { code: KeyCode::Enter, ctrl: true, shift: false }, 0);
    assert_eq!(app.publish.pending_publish, Some(("a/b".into(), "42".into())));
}

#[test]
fn a_wildcard_is_no_key_to_send_to() {
    let mut app = App::new("test".into(), 0);
    app.publish.allow_publish = true;
    app.publish.publish_key = "a/**".into();
    app.publish.arm_publish();
    assert_eq!(app.publish.pending_publish, None);
    assert!(matches!(app.publish.publish_result, Some(Err(_))));
}

#[test]
fn typing_a_filter_takes_the_keys_that_are_bound() {
    let mut app = App::new("test".into(), 0);
    app.handle_zenoh_message(message("quick/a", "1", "", 1, "put"), 0);
    app.handle_zenoh_message(message("slow/b", "1", "", 1, "put"), 0);
    app.handle_key(key(KeyCode::Char('/')), 0);
    assert!(app.is_text_input_active());
    for c in "quick".chars() {
        app.handle_key(key(KeyCode::Char(c)), 0);
    }
    assert!(!app.should_quit);
    assert_eq!(app.pane.filter, "quick");
    assert_eq!(app.filtered_topics(), vec!["quick/a".to_string()]);
    app.handle_key(key(KeyCode::Enter), 0);
    assert!(!app.is_text_input_active());
}

#[test]
fn a_saved_view_comes_back() {
    let mut app = App::new("test".into(), 0);
    seed_topics(&mut app, &["agv/f1/pose", "agv/f2/pose"]);
    app.pane.filter = "f1".into();
    app.diff_enabled = false;
    app.plot_field.insert("agv/f1/pose".into(), "/x".into());
    let saved = app.snapshot_profile("mine");
    assert_eq!(saved.name, "mine");
    assert_eq!(saved.expanded, vec!["agv", "agv/f1", "agv/f2"]);

    let mut other = App::new("test".into(), 0);
    other.apply_profile(&saved);
    assert_eq!(other.pane.filter, "f1");
    assert!(!other.diff_enabled);
    assert!(other.pane.expanded.contains("agv/f1"));
    assert_eq!(other.plot_field.get("agv/f1/pose"), Some(&"/x".to_string()));
}

#[test]
fn saving_a_view_asks_for_a_name() {
    let mut app = App::new("test".into(), 0);
    app.run_palette_action(PaletteAction::SaveProfile, 0);
    assert_eq!(app.overlay, Overlay::ProfileSave);
    let e = app.handle_key(key(KeyCode::Enter), 0);
    assert!(matches!(e, Effect::Nothing));
    assert!(app.toast.as_ref().unwrap().is_error);
    for c in "mine".chars() {
        app.handle_key(key(KeyCode::Char(c)), 0);
    }
    match app.handle_key(key(KeyCode::Enter), 0) {
        Effect::SaveProfile(p) => assert_eq!(p.name, "mine"),
        _ => panic!("a view was to be saved"),
    }
    assert_eq!(app.overlay, Overlay::Closed);
}

#[test]
fn copying_hands_over_what_is_selected() {
    let mut app = App::new("test".into(), 0);
    app.handle_zenoh_message(message("k", r#"{"x": 1}"#, "application/json", 7, "put"), 0);
    app.pane.refresh_tree_rows();
    match app.handle_key(key(KeyCode::Char('y')), 0) {
        Effect::Copy { text, label } => {
            assert_eq!(text, "{\n  \"x\": 1\n}");
            assert_eq!(label, "payload");
        }
        _ => panic!("the payload was to be copied"),
    }
    match app.handle_key(key(KeyCode::Char('Y')), 0) {
        Effect::Copy { text, label } => {
            assert_eq!(text, "k");
            assert_eq!(label, "key");
        }
        _ => panic!("the key was to be copied"),
    }
    app.finish_copy("key", 1, CopyOutcome::Copied, 0);
    assert!(!app.toast.as_ref().unwrap().is_error);
    app.finish_copy("key", 1, CopyOutcome::Failed("busy".into()), 0);
    assert!(app.toast.as_ref().unwrap().is_error);
}

#[test]
fn a_plot_needs_a_numeric_field() {
    let mut app = App::new("test".into(), 0);
    app.handle_zenoh_message(message("k", r#"{"mode": "idle"}"#, "application/json", 7, "put"), 0);
    app.pane.refresh_tree_rows();
    app.handle_key(key(KeyCode::Char('p')), 0);
    assert_eq!(app.overlay, Overlay::Closed);
    assert_eq!(app.toast.as_ref().unwrap().text, "No numeric fields in k");

    app.handle_zenoh_message(message("k", r#"{"a": 1, "b": 2}"#, "application/json", 7, "put"), 0);
    app.handle_key(key(KeyCode::Char('p')), 0);
    assert_eq!(app.overlay, Overlay::PlotPicker);
    app.handle_key(key(KeyCode::Char('j')), 0);
    app.handle_key(key(KeyCode::Enter), 0);
    assert_eq!(app.plot_field.get("k"), Some(&"/b".to_string()));
}

#[test]
fn pausing_freezes_what_is_read_and_not_the_counters() {
    let mut app = App::new("test".into(), 0);
    app.handle_zenoh_message(message("k", "1", "", 1, "put"), 0);
    app.handle_key(key(KeyCode::Char(' ')), 0);
    assert!(app.feed.history_paused);
    app.handle_zenoh_message(message("k", "2", "", 1, "put"), 0);
    assert_eq!(app.feed.latest.get("k").unwrap().message.payload.text, "1");
    assert_eq!(app.feed.history.get("k").unwrap().len(), 1);
    assert_eq!(app.feed.total_msg_count, 2);
}

#[test]
fn a_second_closes_into_rates_and_windows() {
    let mut app = App::new("test".into(), 0);
    for _ in 0..3 {
        app.handle_zenoh_message(message("k", "1", "", 100, "put"), 0);
    }
    app.update_hz(999_999_999);
    assert!(app.feed.hz.is_empty());
    app.update_hz(1_500_000_000);
    assert_eq!(per_second(*app.feed.hz.get("k").unwrap()), 2.0);
    assert_eq!(app.feed.topic_bytes_per_sec("k"), 300);
    assert_eq!(app.feed.total_bytes_per_sec(), 300);
    app.update_hz(2_500_000_000);
    assert_eq!(per_second(*app.feed.hz.get("k").unwrap()), 0.0);
    assert_eq!(app.feed.topic_rate_series("k"), vec![300, 0]);
}

#[test]
fn a_key_idle_for_a_whole_window_loses_its_rate() {
    let mut app = App::new("test".into(), 0);
    app.handle_zenoh_message(message("k", "1", "", 100, "put"), 0);
    for i in 1..=31u64 {
        app.update_hz(i * 1_000_000_000);
    }
    assert!(app.feed.hz.is_empty());
    assert!(app.feed.rates.is_empty());
    assert!(app.pane.key_tree.contains("k"));
}

#[test]
fn tokens_stand_dead_first_and_keep_their_row() {
    let mut app = App::new("test".into(), 0);
    for k in ["b", "a", "c"] {
        app.handle_event(AppEvent::Liveliness { token: make_token(k, true), is_join: true }, 0);
    }
    app.handle_event(AppEvent::Liveliness { token: make_token("c", true), is_join: false }, 0);
    let keys: Vec<String> = app
        .network
        .network_rows()
        .iter()
        .map(|r| match r {
            NetworkRow::Service(i) => app.network.liveliness_tokens[*i].key_expr.clone(),
            NetworkRow::Session(_) => panic!("no sessions"),
        })
        .collect();
    assert_eq!(keys, vec!["c", "a", "b"]);
    assert_eq!(app.network.liveliness_tokens.len(), 3);
    assert_eq!(app.network.liveliness_events.len(), 4);
    assert!(!app.network.liveliness_events[0].is_join);
}

#[test]
fn the_liveliness_log_is_capped() {
    let mut app = App::new("test".into(), 0);
    for i in 0..250 {
        app.handle_event(
            AppEvent::Liveliness { token: make_token(&format!("t{i}"), true), is_join: true },
            0,
        );
    }
    assert_eq!(app.network.liveliness_events.len(), 200);
    assert_eq!(app.network.liveliness_tokens.len(), 250);
}

#[test]
fn the_stream_keeps_its_newest_messages() {
    let mut app = App::new("test".into(), 0);
    for i in 0..600 {
        app.handle_zenoh_message(message(&format!("k{i}"), "1", "", 1, "put"), 0);
    }
    assert_eq!(app.stream.sub_messages.len(), 500);
    assert_eq!(app.stream.recent_messages.len(), 100);
    assert_eq!(app.stream.sub_messages[0].key_expr, "k599");
}

#[test]
fn esc_closes_every_overlay() {
    for overlay in [
        Overlay::Help,
        Overlay::Doctor,
        Overlay::Palette,
        Overlay::ScoutPort,
        Overlay::PlotPicker,
        Overlay::Publish,
        Overlay::ProfileSave,
        Overlay::ProfileLoad,
    ] {
        let mut app = App::new("test".into(), 0);
        app.overlay = overlay;
        app.handle_key(key(KeyCode::Esc), 0);
        assert_eq!(app.overlay, Overlay::Closed);
        assert!(!app.should_quit);
    }
}

#[test]
fn q_quits_where_nothing_is_in_front() {
    let mut app = App::new("test".into(), 0);
    app.handle_key(key(KeyCode::Char('q')), 0);
    assert!(app.should_quit);
}

#[test]
fn the_largest_window_rate_formats() {
    assert_eq!(format_bytes_per_sec(0), "0 B/s");
    assert_eq!(format_bytes_per_sec(1023), "1023 B/s");
    assert_eq!(format_bytes_per_sec(1024), "1.0 KB/s");
    assert_eq!(format_bytes_per_sec(1536), "1.5 KB/s");
    assert_eq!(format_bytes_per_sec(1_048_576), "1.0 MB/s");
}

#[test]
fn the_cap_holds_for_keys_that_were_never_heard() {
    let mut app = App::new("test".into(), 0);
    app.feed.history_paused = true;
    for i in 0..=MAX_KEYS {
        let m = message(&format!("k/{i:05}"), "null", "", 0, "put");
        app.handle_zenoh_message(m, 0);
    }
    assert_eq!(app.pane.key_tree.len(), MAX_KEYS + 1);
    assert!(app.feed.latest.is_empty());
    evict_excess_keys(&mut app.feed, &mut app.pane);
    let target = (MAX_KEYS as f64 * EVICT_TO_FRACTION) as usize;
    assert_eq!(app.pane.key_tree.len(), target);
    assert_eq!(app.feed.msg_counts.len(), target);
    assert_eq!(app.feed.keys_aged_out, MAX_KEYS + 1 - target);
}

#[test]
fn keys_that_were_never_heard_go_before_the_longest_idle() {
    let mut app = App::new("test".into(), 0);
    seen_ago(&mut app, "old/key", 86_400);
    for i in 0..MAX_KEYS {
        app.pane.key_tree.insert(&format!("k/{i:05}"));
    }
    evict_excess_keys(&mut app.feed, &mut app.pane);
    assert!(app.pane.key_tree.contains("old/key"));
    assert!(app.feed.latest.contains_key("old/key"));
    let target = (MAX_KEYS as f64 * EVICT_TO_FRACTION) as usize;
    assert_eq!(app.pane.key_tree.len(), target);
}

#[test]
fn a_new_dashboard_has_observed_nothing() {
    let app = App::new("test".into(), 7);
    assert!(app.feed.rates.is_empty());
    assert!(app.feed.byte_counts.is_empty());
    assert!(app.feed.hz.is_empty());
    assert_eq!(app.feed.total_byte_count, 0);
    assert_eq!(app.feed.total_bytes_per_sec(), 0);
    assert_eq!(app.feed.last_hz_update, 7);
    assert!(app.pane.cache.rows.is_empty());
    assert_eq!(app.pane.key_tree.version(), 0);
}

#[test]
fn nothing_of_the_last_session_is_left() {
    let mut app = App::new("test".into(), 0);
    app.handle_zenoh_message(message("a", "null", "", 5, "put"), 0);
    app.update_hz(2_000_000_000);
    app.handle_zenoh_message(message("a", "null", "", 5, "put"), 2_000_000_000);
    assert!(!app.feed.rates.is_empty());
    assert!(!app.feed.byte_counts.is_empty());
    app.clear_network_state();
    assert!(app.feed.rates.is_empty());
    assert!(app.feed.byte_counts.is_empty());
    assert_eq!(app.feed.total_byte_count, 0);
    assert!(app.feed.total_rate.series().is_empty());
    assert_eq!(app.feed.history.keys_held(), 0);
}

#[test]
fn every_command_closes_the_palette() {
    for action in [PaletteAction::OpenPublish, PaletteAction::LoadProfile, PaletteAction::Quit] {
        let mut app = App::new("test".into(), 0);
        app.overlay = Overlay::Palette;
        let quits = action == PaletteAction::Quit;
        app.run_palette_action(action, 0);
        assert_eq!(app.overlay, Overlay::Closed);
        assert_eq!(app.should_quit, quits);
        assert_eq!(app.toast.is_some_and(|t| t.is_error), !quits);
    }
    for command in palette_commands() {
        let mut app = App::new("test".into(), 0);
        app.overlay = Overlay::Palette;
        app.run_palette_action(command.action, 0);
        assert_ne!(app.overlay, Overlay::Palette);
    }
}
