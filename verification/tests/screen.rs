//! Whole frames, painted on a terminal in memory and read back.

use ratatui::backend::TestBackend;
use ratatui::buffer::Buffer;
use ratatui::layout::Rect as Cells;
use ratatui::style::Modifier;
use ratatui::widgets::{Block, Borders, Clear, List, ListItem, ListState, Paragraph, Wrap};
use ratatui::Frame;
use ratatui::Terminal;
use zenmon::app::doctor::{Check, CheckStatus, DoctorReport};
use zenmon::app::feed::Latest;
use zenmon::app::network_pane::{LivelinessToken, NodeInfo};
use zenmon::app::rate::Rate;
use zenmon::app::state::App;
use zenmon::app::types::{ConnectionState, KeyCode, KeyEvent, Overlay, PaneFocus, Rect, Space};
use zenmon::json::{Json, Number};
use zenmon::keyed::KeyMap;
use zenmon::message::{MessagePayload, ZenohMessage};
use zenmon::view::detail::{DetailTexts, PlotView};
use zenmon::view::frame::FrameTexts;
use zenmon::view::style::{Color, Line, Paint, Style, Wrapping};
use zenmon::view::traffic::Rates;

/// A moment on the clock.
const NOW: u64 = 1_000_000_000_000_000;

fn cells(r: &Rect) -> Cells {
    Cells::new(r.x, r.y, r.width, r.height)
}

fn color(c: Color) -> ratatui::style::Color {
    match c {
        Color::Black => ratatui::style::Color::Black,
        Color::Red => ratatui::style::Color::Red,
        Color::Green => ratatui::style::Color::Green,
        Color::Yellow => ratatui::style::Color::Yellow,
        Color::Blue => ratatui::style::Color::Blue,
        Color::Magenta => ratatui::style::Color::Magenta,
        Color::Cyan => ratatui::style::Color::Cyan,
        Color::Gray => ratatui::style::Color::Gray,
        Color::DarkGray => ratatui::style::Color::DarkGray,
        Color::White => ratatui::style::Color::White,
    }
}

fn look(s: &Style) -> ratatui::style::Style {
    let mut r = ratatui::style::Style::default();
    if let Some(c) = s.fg {
        r = r.fg(color(c));
    }
    if let Some(c) = s.bg {
        r = r.bg(color(c));
    }
    if s.bold {
        r = r.add_modifier(Modifier::BOLD);
    }
    if s.dim {
        r = r.add_modifier(Modifier::DIM);
    }
    r
}

fn line(l: &Line) -> ratatui::text::Line<'static> {
    ratatui::text::Line::from(
        l.spans
            .iter()
            .map(|s| ratatui::text::Span::styled(s.text.clone(), look(&s.style)))
            .collect::<Vec<_>>(),
    )
}

fn paint(frame: &mut Frame, p: &Paint) {
    match p {
        Paint::Clear { area } => frame.render_widget(Clear, cells(area)),
        Paint::Block { area, title, border, style } => frame.render_widget(
            Block::default()
                .borders(Borders::ALL)
                .title(title.clone())
                .border_style(look(border))
                .style(look(style)),
            cells(area),
        ),
        Paint::Text { area, lines, style, wrapping, scroll } => {
            let mut words = Paragraph::new(lines.iter().map(line).collect::<Vec<_>>())
                .style(look(style))
                .scroll((*scroll, 0));
            match wrapping {
                Wrapping::Cut => {}
                Wrapping::Keep => words = words.wrap(Wrap { trim: false }),
                Wrapping::Trim => words = words.wrap(Wrap { trim: true }),
            }
            frame.render_widget(words, cells(area));
        }
        Paint::List { area, title, items, selected } => {
            let list = List::new(items.iter().map(|l| ListItem::new(line(l))).collect::<Vec<_>>())
                .block(Block::default().borders(Borders::ALL).title(title.clone()))
                .highlight_style(look(&Style::selected()));
            let mut state = ListState::default();
            state.select(*selected);
            frame.render_stateful_widget(list, cells(area), &mut state);
        }
    }
}

fn per_second(rate: &Rate) -> f64 {
    rate.messages as f64 / (rate.nanos as f64 / 1e9)
}

fn hertz(n: f64) -> Rate {
    Rate { messages: n as u32, nanos: 1_000_000_000 }
}

/// The rates of a dashboard in words.
fn texts(app: &App) -> FrameTexts {
    let mut hz: KeyMap<String> = KeyMap::new();
    let mut sum: f64 = 0.0;
    for k in app.feed.hz.keys() {
        let n = per_second(app.feed.hz.get(&k).unwrap());
        sum += n;
        hz.insert(k, format!("{n:.1}"));
    }
    FrameTexts {
        total_rate: format!("{:.0}", per_second(&app.feed.total_hz)),
        detail: DetailTexts {
            rates: Rates { hz, sparks: KeyMap::new() },
            subtree_hz: format!("{sum:.1}"),
            plot: None,
            contract: None,
        },
        links: vec![],
        field_values: vec![],
    }
}

fn draw(app: &mut App, w: u16, h: u16) -> Buffer {
    let t = texts(app);
    let paints = app.render(Rect { x: 0, y: 0, width: w, height: h }, &t, NOW);
    let mut terminal = Terminal::new(TestBackend::new(w, h)).unwrap();
    terminal
        .draw(|f| {
            for p in &paints {
                paint(f, p);
            }
        })
        .unwrap();
    terminal.backend().buffer().clone()
}

fn render_at(width: u16, height: u16, space: Space) -> Buffer {
    let mut app = App::new("tcp/127.0.0.1:7447".into(), 0);
    app.space = space;
    draw(&mut app, width, height)
}

fn buffer_text(buf: &Buffer) -> String {
    buf.content().iter().map(|c| c.symbol()).collect()
}

/// Foreground colour of the first cell of `needle`.
fn row_fg(buf: &Buffer, needle: &str) -> ratatui::style::Color {
    let area = buf.area();
    for y in 0..area.height {
        let row: String = (0..area.width)
            .map(|x| buf[(area.x + x, area.y + y)].symbol())
            .collect();
        if let Some(at) = row.find(needle) {
            let col = row[..at].chars().count() as u16;
            return buf[(area.x + col, area.y + y)].fg;
        }
    }
    panic!("no row containing {needle:?}");
}

/// A pair of messages on one key differing in `mode`, `speed` and `error`.
fn seed_state_change(app: &mut App) {
    let state = |mode: &str, speed: &str, err: &str| {
        message(
            "agv/f001/state",
            &format!(
                "{{\"mode\": \"{mode}\", \"speed\": {speed}, \"load\": 0, \"battery\": 87, \"error\": {err}}}"
            ),
            "application/json",
            96,
            "put",
        )
    };
    app.handle_zenoh_message(state("moving", "1.2", "null"), NOW);
    app.handle_zenoh_message(state("stalled", "0.0", "\"obstacle\""), NOW);
    app.pane.auto_expand();
    app.pane.refresh_tree_rows();
    app.pane.selected = app.pane.tree_rows().len() - 1;
}

fn key(code: KeyCode) -> KeyEvent {
    KeyEvent::plain(code)
}

fn to_json(v: &serde_json::Value) -> Json {
    match v {
        serde_json::Value::Null => Json::Null,
        serde_json::Value::Bool(b) => Json::Bool(*b),
        serde_json::Value::Number(n) => Json::Number(if let Some(u) = n.as_u64() {
            Number::PosInt(u)
        } else if let Some(i) = n.as_i64() {
            Number::NegInt(i)
        } else {
            Number::Float { bits: n.as_f64().unwrap().to_bits(), text: n.to_string() }
        }),
        serde_json::Value::String(s) => Json::Text(s.clone()),
        serde_json::Value::Array(items) => Json::Array(items.iter().map(to_json).collect()),
        serde_json::Value::Object(map) => {
            Json::Object(map.iter().map(|(k, v)| (k.clone(), to_json(v))).collect())
        }
    }
}

/// A message with a JSON payload.
fn message(key: &str, payload: &str, encoding: &str, bytes: usize, kind: &str) -> ZenohMessage {
    let v: serde_json::Value = serde_json::from_str(payload).unwrap();
    let text = v.to_string();
    ZenohMessage {
        key_expr: key.to_string(),
        payload: MessagePayload {
            len: text.len(),
            view: to_json(&v),
            pretty: serde_json::to_string_pretty(&v).unwrap(),
            text,
        },
        encoding: encoding.to_string(),
        payload_bytes: bytes,
        timestamp: None,
        kind: kind.to_string(),
        attachment: None,
        attachment_bytes: None,
    }
}

fn bare_node(zid: &str, kind: &str) -> NodeInfo {
    NodeInfo {
        zid: zid.to_string(),
        kind: kind.to_string(),
        locators: vec![],
        admin_last_seen: None,
        scout_last_seen: None,
    }
}

fn make_node(zid: &str, kind: &str) -> NodeInfo {
    NodeInfo { locators: vec!["tcp/127.0.0.1:7447".to_string()], ..bare_node(zid, kind) }
}

fn make_token(key_expr: &str, alive: bool) -> LivelinessToken {
    LivelinessToken {
        key_expr: key_expr.to_string(),
        source_zid: None,
        alive,
        node_name: key_expr.rsplit('/').next().map(|s| s.to_string()),
        group: Some("fleet/r1".to_string()),
    }
}

fn check(
    name: &str,
    status: CheckStatus,
    latency_ms: u64,
    message: Option<&str>,
    hint: Option<&str>,
) -> Check {
    Check {
        name: name.to_string(),
        status,
        latency_ms,
        message: message.map(|s| s.to_string()),
        hint: hint.map(|s| s.to_string()),
    }
}

fn report_of(checks: Vec<Check>) -> DoctorReport {
    let status = if checks.iter().any(|c| c.status == CheckStatus::Fail) {
        CheckStatus::Fail
    } else if checks.iter().any(|c| c.status == CheckStatus::Warn) {
        CheckStatus::Warn
    } else {
        CheckStatus::Pass
    };
    DoctorReport { status, checks }
}

#[test]
fn app_render_traffic_narrow_detail_pane_does_not_panic() {
    let mut app = App::new("tcp/127.0.0.1:7447".into(), 0);
    app.space = Space::Traffic;
    app.pane_focus = PaneFocus::Detail;
    app.connection_state = ConnectionState::Connected("zid".into());
    app.pane.key_tree.insert("demo/robot/pose");
    app.pane.auto_expand();
    let msg = message("demo/robot/pose", r#"{"x": 1}"#, "application/json", 8, "put");
    app.feed.latest.insert("demo/robot/pose".into(), Latest { message: msg.duplicate(), at: NOW });
    app.stream.sub_messages.push_front(msg);

    // Rows 0 and 1 are the branches above the key.
    app.pane.refresh_tree_rows();
    app.pane.selected = 2;

    let buf = draw(&mut app, 60, 20);
    let text = buffer_text(&buf);
    assert!(text.contains("demo/robot/pose"), "detail key missing");
}

#[test]
fn app_render_wide_paints_two_pane_traffic() {
    let buf = render_at(120, 30, Space::Traffic);
    let text = buffer_text(&buf);
    assert!(text.contains("Traffic"), "space tab / master title missing");
    assert!(
        text.contains("Detail"),
        "detail pane missing in wide layout"
    );
}

#[test]
fn app_render_narrow_single_pane_does_not_panic() {
    // Below TWO_PANE_MIN_WIDTH: single pane, compact 1-line header.
    let buf = render_at(60, 20, Space::Network);
    let text = buffer_text(&buf);
    assert!(text.contains("Network"), "network master title missing");
}

#[test]
fn app_render_network_with_data_wide_and_narrow_shows_participant() {
    for (w, h) in [(120u16, 30u16), (60u16, 20u16)] {
        let mut app = App::new("tcp/127.0.0.1:7447".into(), 0);
        app.space = Space::Network;
        app.connection_state = ConnectionState::Connected("zidrouter0000000".into());
        app.network.nodes.push(make_node("zidrouter0000000", "router"));
        app.network.liveliness_tokens
            .push(make_token("fleet/r1/node/action_executor_ec98a701", true));

        let buf = draw(&mut app, w, h);
        let text = buffer_text(&buf);
        // Master (wide → both panes; narrow default focus is Master) shows the
        // session zid and the service name.
        assert!(
            text.contains("zidrouter"),
            "session zid missing at {}x{}: {}",
            w,
            h,
            text
        );
        assert!(
            text.contains("action_executor"),
            "service name missing at {}x{}: {}",
            w,
            h,
            text
        );
    }
}

#[test]
fn app_render_help_overlay_paints() {
    let mut app = App::new("tcp/127.0.0.1:7447".into(), 0);
    app.overlay = Overlay::Help;
    let buf = draw(&mut app, 120, 30);
    // Overlay drew on top without panicking; buffer is non-empty.
    assert!(!buffer_text(&buf).trim().is_empty());
}

#[test]
fn tests_render_traffic_with_data_wide_and_narrow_shows_key() {
    for (w, h) in [(120u16, 30u16), (60u16, 20u16)] {
        let mut app = App::new("tcp/127.0.0.1:7447".into(), 0);
        app.space = Space::Traffic;
        app.connection_state = ConnectionState::Connected("zid".into());
        app.pane.key_tree.insert("demo/robot/pose");
        app.pane.auto_expand();
        let msg = message("demo/robot/pose", r#"{"x": 1}"#, "application/json", 8, "put");
        app.feed.latest.insert("demo/robot/pose".into(), Latest { message: msg.duplicate(), at: NOW });
        app.stream.sub_messages.push_front(msg);
        app.feed.hz.insert("demo/robot/pose".into(), hertz(12.0));

        // Wide → master; narrow default focus is Master → master shows the tree.
        let buf = draw(&mut app, w, h);
        let text = buffer_text(&buf);
        // The master draws one segment per row, not the whole key expression —
        // the hierarchy is what carries the context now.
        for segment in ["demo/", "robot/", "pose"] {
            assert!(
                text.contains(segment),
                "segment {} missing at {}x{}: {}",
                segment,
                w,
                h,
                text
            );
        }
        // A single key is under the fold threshold, so it opens all the way
        // down rather than showing one collapsed row.
        assert!(text.contains("▾"), "expected an open branch at {}x{}", w, h);
    }
}

#[test]
fn tests_render_traffic_narrow_detail_pane_does_not_panic() {
    let mut app = App::new("tcp/127.0.0.1:7447".into(), 0);
    app.space = Space::Traffic;
    app.pane_focus = PaneFocus::Detail;
    app.connection_state = ConnectionState::Connected("zid".into());
    app.pane.key_tree.insert("demo/robot/pose");
    app.pane.auto_expand();
    let msg = message("demo/robot/pose", r#"{"x": 1}"#, "application/json", 8, "put");
    app.feed.latest.insert("demo/robot/pose".into(), Latest { message: msg.duplicate(), at: NOW });
    app.stream.sub_messages.push_front(msg);

    // Put the cursor on the key itself; rows 0 and 1 are the `demo/` and
    // `robot/` branches, which get a subtree summary rather than a payload.
    app.pane.refresh_tree_rows();
    app.pane.selected = 2;

    let buf = draw(&mut app, 60, 20);
    let text = buffer_text(&buf);
    assert!(text.contains("demo/robot/pose"), "detail key missing");
}

#[test]
fn a_branch_selection_shows_a_subtree_summary_not_a_payload() {
    let mut app = App::new("tcp/127.0.0.1:7447".into(), 0);
    app.space = Space::Traffic;
    app.pane_focus = PaneFocus::Detail;
    app.connection_state = ConnectionState::Connected("zid".into());
    app.pane.key_tree.insert("agv/f1/pose");
    app.pane.key_tree.insert("agv/f2/pose");
    app.pane.auto_expand();
    app.feed.hz.insert("agv/f1/pose".into(), hertz(10.0));
    app.feed.hz.insert("agv/f2/pose".into(), hertz(5.0));

    app.pane.refresh_tree_rows();
    app.pane.selected = 0; // the `agv/` branch

    let buf = draw(&mut app, 80, 20);
    let text = buffer_text(&buf);
    // The aggregate is the thing a flat list could never answer.
    assert!(text.contains("15.0 Hz"), "subtree rate missing: {}", text);
    assert!(text.contains("busiest"), "busiest list missing: {}", text);
}

#[test]
fn the_detail_pane_highlights_only_the_fields_that_moved() {
    let mut app = App::new("test".into(), 0);
    app.space = Space::Traffic;
    app.pane_focus = PaneFocus::Detail;
    app.connection_state = ConnectionState::Connected("zid".into());
    seed_state_change(&mut app);

    let buf = draw(&mut app, 88, 22);
    // Three fields moved; two did not. The unchanged ones must recede.
    assert_eq!(row_fg(&buf, "mode:"), ratatui::style::Color::Yellow);
    assert_eq!(row_fg(&buf, "speed:"), ratatui::style::Color::Yellow);
    assert_eq!(row_fg(&buf, "error:"), ratatui::style::Color::Yellow);
    assert_eq!(row_fg(&buf, "battery:"), ratatui::style::Color::Gray);
    assert_eq!(row_fg(&buf, "load:"), ratatui::style::Color::Gray);
}

#[test]
fn d_turns_the_diff_off_and_everything_goes_quiet_again() {
    let mut app = App::new("test".into(), 0);
    app.space = Space::Traffic;
    app.pane_focus = PaneFocus::Detail;
    app.connection_state = ConnectionState::Connected("zid".into());
    seed_state_change(&mut app);

    app.handle_key(key(KeyCode::Char('D')), 0);
    assert!(!app.diff_enabled);
    let buf = draw(&mut app, 88, 22);
    assert_eq!(row_fg(&buf, "mode:"), ratatui::style::Color::Gray);
    assert!(
        buffer_text(&buf).contains("D to diff"),
        "the way back is shown"
    );
}

#[test]
fn a_key_seen_once_says_there_is_no_baseline_rather_than_marking_everything() {
    let mut app = App::new("test".into(), 0);
    app.space = Space::Traffic;
    app.pane_focus = PaneFocus::Detail;
    app.connection_state = ConnectionState::Connected("zid".into());
    app.handle_zenoh_message(message("agv/f001/state", r#"{"mode": "idle"}"#, "application/json", 16, "put"), 0);
    app.pane.auto_expand();
    app.pane.refresh_tree_rows();
    app.pane.selected = app.pane.tree_rows().len() - 1;

    let buf = draw(&mut app, 88, 22);
    assert!(buffer_text(&buf).contains("no previous message yet"));
    assert_eq!(row_fg(&buf, "mode:"), ratatui::style::Color::Gray);
}

#[test]
fn tests_render_wide_paints_two_pane_traffic() {
    let buf = render_at(120, 30, Space::Traffic);
    let text = buffer_text(&buf);
    assert!(text.contains("Traffic"), "space tab / master title missing");
    assert!(
        text.contains("Detail"),
        "detail pane missing in wide layout"
    );
}

#[test]
fn tests_render_narrow_single_pane_does_not_panic() {
    // Below TWO_PANE_MIN_WIDTH: single pane, compact 1-line header.
    let buf = render_at(60, 20, Space::Network);
    let text = buffer_text(&buf);
    assert!(text.contains("Network"), "network master title missing");
}

#[test]
fn tests_render_network_with_data_wide_and_narrow_shows_participant() {
    for (w, h) in [(120u16, 30u16), (60u16, 20u16)] {
        let mut app = App::new("tcp/127.0.0.1:7447".into(), 0);
        app.space = Space::Network;
        app.connection_state = ConnectionState::Connected("zidrouter0000000".into());
        app.network.nodes.push(make_node("zidrouter0000000", "router"));
        app.network.liveliness_tokens
            .push(make_token("fleet/r1/node/action_executor_ec98a701", true));

        let buf = draw(&mut app, w, h);
        let text = buffer_text(&buf);
        // Master (wide → both panes; narrow default focus is Master) shows the
        // session zid and the service name.
        assert!(
            text.contains("zidrouter"),
            "session zid missing at {}x{}: {}",
            w,
            h,
            text
        );
        assert!(
            text.contains("action_executor"),
            "service name missing at {}x{}: {}",
            w,
            h,
            text
        );
    }
}

#[test]
fn tests_render_help_overlay_paints() {
    let mut app = App::new("tcp/127.0.0.1:7447".into(), 0);
    app.overlay = Overlay::Help;
    let buf = draw(&mut app, 120, 30);
    // Overlay drew on top without panicking; buffer is non-empty.
    assert!(!buffer_text(&buf).trim().is_empty());
}

#[test]
fn render_doctor_overlay_shows_checks_and_hints() {
    let mut app = App::new("tcp/127.0.0.1:7447".into(), 0);
    app.doctor.doctor_report = Some(report_of(vec![
        check("config", CheckStatus::Pass, 2, None, None),
        check("connection", CheckStatus::Fail, 5, Some("no router connected in client mode"), Some("start a router (zenohd) and check --endpoint")),
    ]));
    app.overlay = Overlay::Doctor;
    let buf = draw(&mut app, 120, 30);
    let text = buffer_text(&buf);
    assert!(text.contains("✖"), "fail glyph missing: {}", text);
    assert!(text.contains("connection"), "check name missing: {}", text);
    assert!(
        text.contains("start a router"),
        "hint text missing: {}",
        text
    );
}

#[test]
fn header_dot_reflects_failing_doctor_report() {
    let mut app = App::new("tcp/127.0.0.1:7447".into(), 0);
    app.connection_state = ConnectionState::Connected("zid".into());
    app.doctor.doctor_report = Some(report_of(vec![check("connection", CheckStatus::Fail, 5, Some("no router connected in client mode"), Some("start a router"))]));
    // Renders without panic and paints the fail glyph in the header.
    let buf = draw(&mut app, 120, 30);
    let text = buffer_text(&buf);
    assert!(text.contains("✖"), "header fail glyph missing: {}", text);
}

#[test]
fn render_palette_overlay_paints_labels() {
    let mut app = App::new("tcp/127.0.0.1:7447".into(), 0);
    app.overlay = Overlay::Palette;
    let buf = draw(&mut app, 120, 30);
    let text = buffer_text(&buf);
    assert!(text.contains("Commands"), "palette title missing: {}", text);
    assert!(text.contains("doctor"), "doctor command missing: {}", text);
    assert!(
        text.contains("Network"),
        "network command missing: {}",
        text
    );
}

#[test]
fn network_click_map_marks_headers_and_rows() {
    let mut app = App::new("test".into(), 0);
    app.space = Space::Network;
    app.connection_state = ConnectionState::Connected("z1".into());
    app.network.nodes.push(make_node("z1", "router"));
    app.network.nodes.push(make_node("z2", "peer"));
    app.network.liveliness_tokens
        .push(make_token("fleet/r1/node/a", true));

    let buf = draw(&mut app, 120, 30);

    // Display rows: Sessions header, z1, z2, Services header, group header,
    // token. Headers → None; participants → their `network_rows()` index.
    assert_eq!(
        app.network_click_map,
        vec![None, Some(0), Some(1), None, None, Some(2)]
    );

    // Clicking the z2 display row (index 2) selects network_rows() index 1.
    let rect = app.list_rect.unwrap();
    let row = app.list_first_item_row + 2 - app.list_scroll_offset as u16;
    app.handle_click(rect.x + 1, row);
    assert_eq!(app.network.network_selected, 1);
    assert_eq!(app.pane_focus, PaneFocus::Detail);

    // Clicking a header row (display index 0) leaves the selection alone.
    let hdr_row = app.list_first_item_row - app.list_scroll_offset as u16;
    app.handle_click(rect.x + 1, hdr_row);
    assert_eq!(app.network.network_selected, 1);
}

/// A connected dashboard with the cursor on the only key.
fn on_a_key(payloads: &[&str]) -> App {
    let mut app = App::new("test".into(), 0);
    app.pane_focus = PaneFocus::Detail;
    app.connection_state = ConnectionState::Connected("zid".into());
    for p in payloads {
        app.handle_zenoh_message(message("agv/state", p, "application/json", 12, "put"), NOW);
    }
    app.pane.auto_expand();
    app.pane.refresh_tree_rows();
    app.pane.selected = app.pane.tree_rows().len() - 1;
    app
}

#[test]
fn a_plotted_field_stands_above_the_payload() {
    let mut app = on_a_key(&["{\"n\": 1}", "{\"n\": 3}"]);
    app.plot_field.insert("agv/state".into(), "/n".into());
    let mut t = texts(&app);
    t.detail.plot = Some(PlotView {
        value: "3".into(),
        min: "1".into(),
        max: "3".into(),
        spark: "▁█".into(),
    });
    let lines = app.live_body("agv/state", 80, &t.detail.plot);
    assert_eq!(lines[0].spans[0].text, "─ n ─");
    assert_eq!(lines[1].spans[1].text, "▁█");
    assert_eq!(lines[1].spans[4].text, "   min 1  max 3  n 2");
    assert!(lines[3].spans[0].text.contains("changes vs previous"));

    app.plot_field.insert("agv/state".into(), "/gone".into());
    let lines = app.live_body("agv/state", 80, &t.detail.plot);
    assert_eq!(lines[0].spans[0].text, "─ gone — not present in the history held ─");
}

#[test]
fn an_attachment_is_shown_in_magenta() {
    let mut app = on_a_key(&[]);
    let mut m = message("agv/state", "1", "application/json", 1, "put");
    m.attachment = Some(message("x", "{\"id\": 7}", "", 1, "put").payload);
    app.handle_zenoh_message(m, NOW);
    app.pane.auto_expand();
    app.pane.refresh_tree_rows();
    app.pane.selected = app.pane.tree_rows().len() - 1;
    let buf = draw(&mut app, 80, 30);
    assert_eq!(row_fg(&buf, "attachment:"), ratatui::style::Color::Magenta);
    assert_eq!(row_fg(&buf, "\"id\": 7"), ratatui::style::Color::Magenta);
}

#[test]
fn the_header_says_who_may_write() {
    let mut app = on_a_key(&["1"]);
    assert!(!buffer_text(&draw(&mut app, 120, 30)).contains(" WRITE "));
    app.publish.allow_publish = true;
    assert!(buffer_text(&draw(&mut app, 120, 30)).contains(" WRITE "));
}

#[test]
fn a_toast_lasts_two_seconds() {
    let mut app = on_a_key(&["1"]);
    app.set_toast("Copied".into(), NOW);
    draw(&mut app, 120, 30);
    assert_eq!(app.toast.as_ref().unwrap().text, "Copied");
    app.expire_toast(NOW + 1_999_999_999);
    assert!(app.toast.is_some());
    app.expire_toast(NOW + 2_000_000_000);
    assert!(app.toast.is_none());
}

#[test]
fn every_overlay_paints_on_every_size() {
    for (w, h) in [(120u16, 40u16), (60, 20), (30, 8), (5, 3)] {
        for overlay in [
            Overlay::Help,
            Overlay::Doctor,
            Overlay::Palette,
            Overlay::ScoutPort,
            Overlay::PlotPicker,
            Overlay::Publish,
            Overlay::ProfileSave,
            Overlay::ProfileLoad,
        ] {
            for space in [Space::Traffic, Space::Network] {
                let mut app = on_a_key(&["{\"n\": 1}"]);
                app.space = space;
                app.overlay = overlay;
                draw(&mut app, w, h);
            }
        }
    }
}

#[test]
fn the_space_tabs_are_noted_where_they_are_drawn() {
    let mut app = on_a_key(&["1"]);
    draw(&mut app, 120, 30);
    let rect = app.space_tab_rects[1].unwrap();
    app.handle_click(rect.x, rect.y);
    assert_eq!(app.space, Space::Network);
    assert_eq!(app.pane_focus, PaneFocus::Master);
}

#[test]
fn a_node_that_only_a_scout_found_goes_stale() {
    let mut node = bare_node("0123456789abcdef", "peer");
    node.scout_last_seen = Some(0);
    assert!(!node.is_scout_stale(30_000_000_000));
    assert!(node.is_scout_stale(30_000_000_001));
    node.admin_last_seen = Some(0);
    assert!(!node.is_scout_stale(u64::MAX));
}
