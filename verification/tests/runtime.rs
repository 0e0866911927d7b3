//! The frame gate, and what the loop is asked to do.

use zenmon::app::ingest::AppEvent;
use zenmon::app::runtime::{is_key, should_draw, LoopState, Request, REDRAW_INTERVAL_NANOS};
use zenmon::app::state::App;
use zenmon::app::types::{ConnectMode, ConnectionState, KeyCode, KeyEvent};
use zenmon::app::query::QueryStatus;

const PERIOD: u64 = REDRAW_INTERVAL_NANOS;

const SECOND: u64 = 1_000_000_000;

#[test]
fn nothing_to_paint_never_draws() {
    // Even a long-idle loop stays dark when no state changed.
    assert!(!should_draw(false, false, 10 * SECOND, false));
    // …and an "immediate" request cannot conjure a frame out of nothing.
    assert!(!should_draw(false, false, 10 * SECOND, true));
}

#[test]
fn pending_repaint_waits_out_the_frame_interval() {
    assert!(!should_draw(true, false, PERIOD / 2, false));
    assert!(should_draw(true, false, PERIOD, false));
    assert!(should_draw(true, false, PERIOD * 2, false));
}

#[test]
fn keypress_bypasses_the_frame_interval() {
    // Typing must not wait on the frame budget, however recent the last
    // frame was — this is what keeps the UI feeling attached to the keyboard.
    assert!(should_draw(true, false, 0, true));
}

#[test]
fn a_visible_toast_keeps_the_frame_gate() {
    // A toast redraws on its own so it can expire, but at the frame rate,
    // not once per loop iteration.
    assert!(!should_draw(false, true, PERIOD / 2, false));
    assert!(should_draw(false, true, PERIOD, false));
}

#[test]
fn the_first_frame_is_painted_and_then_the_gate_holds() {
    let mut l = LoopState::new();
    assert!(l.frame(false, 5));
    assert!(!l.frame(false, 5 + PERIOD));
    l.batch_done(false);
    assert!(!l.frame(false, 5 + PERIOD - 1));
    assert!(l.frame(false, 5 + PERIOD));
    l.batch_done(true);
    assert!(l.frame(false, 6 + PERIOD));
    assert_eq!(l.last_draw, Some(6 + PERIOD));
}

#[test]
fn only_key_presses_pass_the_gate() {
    assert!(is_key(&AppEvent::Key(KeyEvent::plain(KeyCode::Enter))));
    assert!(!is_key(&AppEvent::Tick));
}

#[test]
fn requests_come_out_once_and_in_order() {
    let mut app = App::new("test".into(), 0);
    let mut l = LoopState::new();
    app.query.ask("a/b".into());
    app.network.pending_scout_request = true;
    app.doctor.pending_doctor_request = true;
    app.scout.pending_reconnect_port = Some(7450);
    let v = app.take_requests(&mut l, true);
    assert_eq!(v.len(), 4);
    assert!(matches!(&v[0], Request::Query(q) if q == "a/b"));
    assert!(matches!(v[1], Request::Scout));
    assert!(matches!(v[2], Request::Doctor));
    assert!(matches!(v[3], Request::ReconnectPort(7450)));
    assert_eq!(app.query.query_status, QueryStatus::Running);
    assert_eq!(app.connection_state, ConnectionState::Connecting);
    assert!(l.reconnect_pending);
    assert!(app.take_requests(&mut l, true).is_empty());
}

#[test]
fn a_mode_switch_starts_from_an_empty_network() {
    let mut app = App::new("test".into(), 0);
    let mut l = LoopState::new();
    app.pane.key_tree.insert("a/b");
    app.pending_reconnect_mode = Some(ConnectMode::Peer);
    let v = app.take_requests(&mut l, true);
    assert!(matches!(v[0], Request::ReconnectMode(ConnectMode::Peer)));
    assert_eq!(app.current_mode, ConnectMode::Peer);
    assert!(app.pane.key_tree.is_empty());
}

#[test]
fn nothing_goes_out_without_a_session() {
    let mut app = App::new("test".into(), 0);
    let mut l = LoopState::new();
    app.query.ask("a/b".into());
    app.publish.pending_publish = Some(("k".into(), "v".into()));
    assert!(app.take_requests(&mut l, false).is_empty());
    assert_eq!(app.query.query_status, QueryStatus::Error("Not connected".into()));
    assert_eq!(app.publish.publish_result, Some(Err("not connected".into())));
}

#[test]
fn a_put_is_reported() {
    let mut app = App::new("test".into(), 0);
    app.published(Ok("a/b".into()));
    assert_eq!(app.publish.publish_result, Some(Ok("a/b".into())));
    app.published(Err("closed".into()));
    assert_eq!(app.publish.publish_result, Some(Err("closed".into())));
}

#[test]
fn a_session_comes_up_with_a_doctor_run() {
    let mut app = App::new("test".into(), 0);
    let mut l = LoopState::new();
    app.connected(&mut l, "zid1".into());
    assert_eq!(app.connection_state, ConnectionState::Connected("zid1".into()));
    assert!(app.doctor.pending_doctor_request);
    assert!(!l.reconnect_pending);
    assert!(!app.retry_due(&mut l));
}

#[test]
fn a_failed_connection_keeps_the_start_of_the_reason_and_is_retried() {
    let mut app = App::new("test".into(), 0);
    let mut l = LoopState::new();
    assert!(!app.retry_due(&mut l));
    app.connect_failed(&mut l, &"r".repeat(100));
    assert_eq!(app.connection_state, ConnectionState::Disconnected("r".repeat(60)));
    assert!(app.retry_due(&mut l));
    assert_eq!(app.connection_state, ConnectionState::Connecting);
    assert!(!app.retry_due(&mut l));
}

#[test]
fn a_query_that_came_back_shows_its_count_or_its_error() {
    let mut app = App::new("test".into(), 0);
    let mut l = LoopState::new();
    app.query_done(&mut l, Ok(vec![]));
    assert_eq!(app.query.query_status, QueryStatus::Done(0));
    app.query_done(&mut l, Err("timeout".into()));
    assert_eq!(app.query.query_status, QueryStatus::Error("timeout".into()));
}
