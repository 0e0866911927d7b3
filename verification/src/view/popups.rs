//! The popups over the active space: help, diagnostics, commands, the port switcher,
//! the field picker, the publish editor and the saved views.
use vstd::prelude::*;

use crate::app::doctor::{Check, CheckModel, CheckStatus, DoctorModel};
use crate::app::network_pane::NodeModel;
use crate::app::palette::{command_models, commands, palette_commands, CommandModel, PaletteModel};
use crate::app::profiles::{ProfileModel, TuiProfile};
use crate::app::publish::{PublishField, PublishModel};
use crate::app::scout_port::{domain_port_label, port_label, PortModel, ScoutModel};
use crate::app::state::{App, AppModel};
use crate::app::types::{ConnectMode, ConnectionModel, ConnectionState, Rect};
use crate::text::{
    cat, cat3, cat4, decimal, decimal_text, left_aligned, pad_left, pad_right, repeated,
    right_aligned, same, spread, texts, trim, trimmed,
};
use crate::view::layout::{popup, popup_rect};
use crate::view::style::{
    blank, block, chosen, inked, label, lines_of, no_lines, nothing, one, over, paint, paints_of,
    plain, put, scrolling, span, strong, text, Color, Line, Paint, PaintModel, Span, SpanModel,
    Style,
};

verus! {

/// White on black, the ground of every popup.
pub open spec fn ground() -> Style {
    over(Color::White, Color::Black)
}

/// A cleared popup with a border and a title.
pub open spec fn popup_frame(area: Rect, title: Seq<char>, style: Style) -> Seq<PaintModel> {
    seq![PaintModel::Clear { area }, block(area, title, style)]
}

/// A cleared popup with a border and a title.
fn frame_popup(area: Rect, title: &str, style: Style) -> (v: Vec<Paint>)
    ensures
        paints_of(v@) == popup_frame(area, title@, style),
{
    let mut v = nothing();
    paint(&mut v, Paint::Clear { area });
    paint(&mut v, Paint::block(area, title, style));
    assert(paints_of(v@) =~= popup_frame(area, title@, style));
    v
}

/// A number of lines, as far as a scroll offset can count.
pub open spec fn countable(n: nat) -> u16 {
    if n > u16::MAX {
        u16::MAX
    } else {
        n as u16
    }
}

/// A scroll offset kept within a text.
pub open spec fn scroll_within(scroll: u16, lines: nat, height: u16) -> u16 {
    let max = if countable(lines) > height {
        (countable(lines) - height) as u16
    } else {
        0
    };
    if scroll < max {
        scroll
    } else {
        max
    }
}

/// A number of lines, as far as a scroll offset can count.
fn count_lines(n: usize) -> (r: u16)
    ensures
        r == countable(n as nat),
{
    if n > 65535 {
        65535
    } else {
        n as u16
    }
}

/// A scroll offset kept within a text.
fn keep_within(scroll: u16, lines: usize, height: u16) -> (r: u16)
    ensures
        r == scroll_within(scroll, lines as nat, height),
{
    let max: u16 = count_lines(lines).saturating_sub(height);
    if scroll < max {
        scroll
    } else {
        max
    }
}

// ---- help ----

/// A line of the help: a key and what it does.
pub open spec fn help_line(keys: Seq<char>, what: Seq<char>) -> Seq<SpanModel> {
    seq![
        span("  "@ + left_aligned(keys, 6), inked(Color::Yellow)),
        span(what, inked(Color::White)),
    ]
}

/// The keys of the tree, which act on the cursor and have no palette entry.
pub open spec fn tree_keys() -> Seq<(Seq<char>, Seq<char>)> {
    seq![
        ("h/←"@, "collapse, or go to the parent"@),
        ("l/→"@, "expand, descend, or open a folded group"@),
        ("z"@, "toggle the branch under the cursor"@),
        ("/"@, "filter (searches inside folded groups)"@),
        ("E/C"@, "expand / collapse everything"@),
        ("D"@, "highlight what changed since the previous message"@),
        ("p/P"@, "plot a numeric field / clear the plot"@),
        ("space"@, "freeze the payload and history being read"@),
    ]
}

/// The lines of the help: every command, then the tree keys.
pub open spec fn help_lines() -> Seq<Seq<SpanModel>> {
    commands().map_values(|c: CommandModel| help_line(c.key_hint, c.label)) + seq![
        blank(),
        one("  Traffic tree"@, inked(Color::Cyan)),
    ] + tree_keys().map_values(|k: (Seq<char>, Seq<char>)| help_line(k.0, k.1)) + seq![
        blank(),
        one(
            "`:` opens the command palette · j/k or ↑↓ to scroll · Esc/q/? to close"@,
            inked(Color::DarkGray),
        ),
    ]
}

fn help_row(keys: &str, what: &str) -> (l: Line)
    ensures
        l@ == help_line(keys@, what@),
{
    let padded = pad_right(keys, 6);
    let head = cat("  ", padded.as_str());
    Line::two(
        Span::owned(head, Style::fg(Color::Yellow)),
        Span::of(what, Style::fg(Color::White)),
    )
}

fn help_text() -> (v: Vec<Line>)
    ensures
        lines_of(v@) == help_lines(),
{
    let table = palette_commands();
    let ghost by_command = commands().map_values(
        |c: CommandModel| help_line(c.key_hint, c.label),
    );
    let mut v = no_lines();
    let mut i: usize = 0;
    assert(by_command.take(0) =~= Seq::empty());
    while i < table.len()
        invariant
            i <= table.len(),
            table.len() == 12,
            command_models(table@) == commands(),
            by_command == commands().map_values(
                |c: CommandModel| help_line(c.key_hint, c.label),
            ),
            lines_of(v@) == by_command.take(i as int),
        decreases table.len() - i,
    {
        assert(commands()[i as int] == table@[i as int]@);
        put(&mut v, help_row(table[i].key_hint, table[i].label));
        assert(lines_of(v@) =~= by_command.take(i + 1));
        i = i + 1;
    }
    assert(by_command.take(12) =~= by_command);
    put(&mut v, Line::empty());
    put(&mut v, Line::one("  Traffic tree", Style::fg(Color::Cyan)));
    put(&mut v, help_row("h/←", "collapse, or go to the parent"));
    put(&mut v, help_row("l/→", "expand, descend, or open a folded group"));
    put(&mut v, help_row("z", "toggle the branch under the cursor"));
    put(&mut v, help_row("/", "filter (searches inside folded groups)"));
    put(&mut v, help_row("E/C", "expand / collapse everything"));
    put(&mut v, help_row("D", "highlight what changed since the previous message"));
    put(&mut v, help_row("p/P", "plot a numeric field / clear the plot"));
    put(&mut v, help_row("space", "freeze the payload and history being read"));
    put(&mut v, Line::empty());
    put(
        &mut v,
        Line::one(
            "`:` opens the command palette · j/k or ↑↓ to scroll · Esc/q/? to close",
            Style::fg(Color::DarkGray),
        ),
    );
    assert(lines_of(v@) =~= help_lines());
    v
}

/// The help overlay.
pub open spec fn help_paints(scroll: u16, area: Rect) -> Seq<PaintModel> {
    match popup(area, 60, 16, 24, 6) {
        None => Seq::empty(),
        Some(p) => popup_frame(p, " Keybindings "@, ground()).push(
            scrolling(
                p.inside(),
                help_lines(),
                scroll_within(scroll, help_lines().len(), p.inside().height),
            ),
        ),
    }
}

/// The help overlay: the command table that the palette lists too, and the keys of
/// the tree.
pub fn render_help_overlay(scroll: u16, area: Rect) -> (v: Vec<Paint>)
    ensures
        paints_of(v@) == help_paints(scroll, area),
{
    match popup_rect(area, 60, 16, 24, 6) {
        None => nothing(),
        Some(p) => {
            let mut v = frame_popup(p, " Keybindings ", Style::on(Color::White, Color::Black));
            let inner = p.inner();
            let lines = help_text();
            assert(lines_of(lines@).len() == lines@.len());
            let at: u16 = keep_within(scroll, lines.len(), inner.height);
            paint(&mut v, Paint::scrolling(inner, lines, at));
            v
        },
    }
}

// ---- diagnostics ----

/// The mark of a check and its colour.
pub open spec fn check_mark(status: CheckStatus) -> (Seq<char>, Color) {
    match status {
        CheckStatus::Pass => ("✓"@, Color::Green),
        CheckStatus::Warn => ("⚠"@, Color::Yellow),
        CheckStatus::Fail => ("✖"@, Color::Red),
    }
}

/// The line of a check.
pub open spec fn check_line(c: CheckModel) -> Seq<SpanModel> {
    let head = seq![
        span(check_mark(c.status).0 + " "@, inked(check_mark(c.status).1)),
        span(left_aligned(c.name, 12), inked(Color::White)),
        span(right_aligned(decimal(c.latency_ms as nat), 6) + "ms  "@, inked(Color::DarkGray)),
    ];
    match c.message {
        Some(m) => head.push(span(m, inked(Color::Gray))),
        None => head,
    }
}

/// The lines of a check: the check, and a hint where it did not pass.
pub open spec fn check_lines(c: CheckModel) -> Seq<Seq<SpanModel>> {
    if c.status != CheckStatus::Pass && c.hint is Some {
        seq![
            check_line(c),
            one("      hint: "@ + c.hint->0, inked(Color::DarkGray)),
        ]
    } else {
        seq![check_line(c)]
    }
}

/// The lines of the first `n` checks.
pub open spec fn checks_lines(checks: Seq<CheckModel>, n: nat) -> Seq<Seq<SpanModel>>
    decreases n,
{
    if n == 0 {
        Seq::empty()
    } else {
        checks_lines(checks, (n - 1) as nat) + check_lines(checks[n - 1])
    }
}

/// The lines of the diagnostics.
pub open spec fn doctor_lines(m: DoctorModel) -> Seq<Seq<SpanModel>> {
    (match m.doctor_report {
        None => if m.doctor_running {
            seq![one("Running diagnostics…"@, inked(Color::Yellow))]
        } else {
            seq![one("No diagnostics yet."@, inked(Color::DarkGray))]
        },
        Some(report) => (if m.doctor_running {
            seq![one("Re-running diagnostics…"@, inked(Color::DarkGray))]
        } else {
            Seq::empty()
        }) + checks_lines(report.checks, report.checks.len()),
    }) + seq![
        blank(),
        one("[r] re-run   [j/k] scroll   [Esc] close"@, inked(Color::DarkGray)),
    ]
}

/// The diagnostics overlay.
pub open spec fn doctor_paints(m: DoctorModel, area: Rect) -> Seq<PaintModel> {
    match popup(area, 72, 20, 24, 6) {
        None => Seq::empty(),
        Some(p) => popup_frame(p, " Doctor "@, ground()).push(
            scrolling(
                p.inside(),
                doctor_lines(m),
                scroll_within(m.doctor_scroll, doctor_lines(m).len(), p.inside().height),
            ),
        ),
    }
}

fn put_check(v: &mut Vec<Line>, c: &Check)
    ensures
        lines_of(final(v)@) == lines_of(old(v)@) + check_lines(c@),
{
    let ghost before = lines_of(v@);
    let (mark, color) = match c.status {
        CheckStatus::Pass => ("✓", Color::Green),
        CheckStatus::Warn => ("⚠", Color::Yellow),
        CheckStatus::Fail => ("✖", Color::Red),
    };
    let head = cat(mark, " ");
    let name = pad_right(c.name.as_str(), 12);
    let ms = decimal_text(c.latency_ms);
    let ms_wide = pad_left(ms.as_str(), 6);
    let latency = cat(ms_wide.as_str(), "ms  ");
    let mut line = Line::three(
        Span::owned(head, Style::fg(color)),
        Span::owned(name, Style::fg(Color::White)),
        Span::owned(latency, Style::fg(Color::DarkGray)),
    );
    if let Some(m) = &c.message {
        line.add(Span::of(m.as_str(), Style::fg(Color::Gray)));
    }
    assert(line@ =~= check_line(c@));
    put(v, line);
    if c.status != CheckStatus::Pass {
        if let Some(hint) = &c.hint {
            let words = cat("      hint: ", hint.as_str());
            put(v, Line::one(words.as_str(), Style::fg(Color::DarkGray)));
        }
    }
    assert(lines_of(v@) =~= before + check_lines(c@));
}

impl App {
    fn doctor_text(&self) -> (v: Vec<Line>)
        ensures
            lines_of(v@) == doctor_lines(self@.doctor),
    {
        let mut v = no_lines();
        match &self.doctor.doctor_report {
            None => {
                if self.doctor.doctor_running {
                    put(&mut v, Line::one("Running diagnostics…", Style::fg(Color::Yellow)));
                } else {
                    put(&mut v, Line::one("No diagnostics yet.", Style::fg(Color::DarkGray)));
                }
            },
            Some(report) => {
                if self.doctor.doctor_running {
                    put(&mut v, Line::one("Re-running diagnostics…", Style::fg(Color::DarkGray)));
                }
                let ghost head = lines_of(v@);
                let ghost checks = report@.checks;
                let mut i: usize = 0;
                assert(head + checks_lines(checks, 0) =~= head);
                while i < report.checks.len()
                    invariant
                        i <= report.checks.len(),
                        checks == report@.checks,
                        lines_of(v@) == head + checks_lines(checks, i as nat),
                    decreases report.checks.len() - i,
                {
                    assert(checks[i as int] == report.checks@[i as int]@);
                    put_check(&mut v, &report.checks[i]);
                    assert(lines_of(v@) =~= head + checks_lines(checks, (i + 1) as nat));
                    i = i + 1;
                }
            },
        }
        put(&mut v, Line::empty());
        put(&mut v, Line::one("[r] re-run   [j/k] scroll   [Esc] close", Style::fg(Color::DarkGray)));
        assert(lines_of(v@) =~= doctor_lines(self@.doctor));
        v
    }

    /// The diagnostics overlay.
    pub fn render_doctor_overlay(&self, area: Rect) -> (v: Vec<Paint>)
        ensures
            paints_of(v@) == doctor_paints(self@.doctor, area),
    {
        match popup_rect(area, 72, 20, 24, 6) {
            None => nothing(),
            Some(p) => {
                let mut v = frame_popup(p, " Doctor ", Style::on(Color::White, Color::Black));
                let inner = p.inner();
                let lines = self.doctor_text();
                assert(lines_of(lines@).len() == lines@.len());
                let at: u16 = keep_within(self.doctor.doctor_scroll, lines.len(), inner.height);
                paint(&mut v, Paint::scrolling(inner, lines, at));
                v
            },
        }
    }
}

// ---- commands ----

/// What is left of a width, never less than nothing.
pub open spec fn left_over(width: nat, used: nat) -> nat {
    if width > used {
        (width - used) as nat
    } else {
        0
    }
}

/// The line of a command: its label, and its key at the right edge.
pub open spec fn command_line(c: CommandModel, selected: bool, width: u16) -> Seq<SpanModel> {
    let pad = left_over(
        left_over(left_over(left_over(width as nat, 2), 2), c.label.len()),
        c.key_hint.len(),
    );
    seq![
        span(
            (if selected {
                "> "@
            } else {
                "  "@
            }) + c.label,
            if selected {
                chosen()
            } else {
                inked(Color::White)
            },
        ),
        span(spread(' ', pad as int), plain()),
        span(c.key_hint, inked(Color::DarkGray)),
    ]
}

/// The lines of the listed commands.
pub open spec fn palette_lines(m: PaletteModel, width: u16) -> Seq<Seq<SpanModel>> {
    Seq::new(
        m.filtered().len(),
        |row: int|
            command_line(
                commands()[m.filtered()[row] as int],
                row == m.palette_selected,
                width,
            ),
    )
}

/// The palette, with the rows that its inside was cut into: the input, the list and
/// the hint.
pub open spec fn palette_paints(m: PaletteModel, area: Rect, rows: Seq<Rect>) -> Seq<PaintModel> {
    match popup(area, 54, 16, 24, 6) {
        None => Seq::empty(),
        Some(p) => popup_frame(p, " Commands "@, ground()) + seq![
            label(rows[0], "> "@ + m.palette_input + "▏"@, inked(Color::Cyan)),
            text(rows[1], palette_lines(m, rows[1].width)),
            label(rows[2], "[Enter] run   [Esc] close"@, inked(Color::DarkGray)),
        ],
    }
}

/// The line of a command.
fn command_row(label: &str, key_hint: &str, selected: bool, width: u16) -> (l: Line)
    ensures
        forall|c: CommandModel|
            c.label == label@ && c.key_hint == key_hint@ ==> l@ == #[trigger] command_line(
                c,
                selected,
                width,
            ),
{
    let label_w: usize = label.unicode_len();
    let hint_w: usize = key_hint.unicode_len();
    let pad: usize = (width as usize).saturating_sub(2).saturating_sub(2).saturating_sub(
        label_w,
    ).saturating_sub(hint_w);
    let head = cat(
        if selected {
            "> "
        } else {
            "  "
        },
        label,
    );
    Line::three(
        Span::owned(
            head,
            if selected {
                Style::selected()
            } else {
                Style::fg(Color::White)
            },
        ),
        Span::owned(repeated(' ', pad), Style::plain()),
        Span::of(key_hint, Style::fg(Color::DarkGray)),
    )
}

impl App {
    fn palette_text(&self, width: u16) -> (v: Vec<Line>)
        ensures
            lines_of(v@) == palette_lines(self@.palette, width),
    {
        let table = palette_commands();
        let filtered = self.palette.filtered_palette_commands();
        let ghost all = palette_lines(self@.palette, width);
        let mut v = no_lines();
        let mut row: usize = 0;
        assert(all.take(0) =~= Seq::empty());
        while row < filtered.len()
            invariant
                row <= filtered.len(),
                table.len() == 12,
                command_models(table@) == commands(),
                filtered@ == self@.palette.filtered(),
                forall|k: int| 0 <= k < filtered@.len() ==> #[trigger] filtered@[k] < 12,
                all == palette_lines(self@.palette, width),
                lines_of(v@) == all.take(row as int),
            decreases filtered.len() - row,
        {
            let at: usize = filtered[row];
            assert(filtered@[row as int] < 12);
            assert(commands()[at as int] == table@[at as int]@);
            let selected = row == self.palette.palette_selected;
            let line = command_row(table[at].label, table[at].key_hint, selected, width);
            assert(line@ == command_line(commands()[at as int], selected, width));
            put(&mut v, line);
            assert(lines_of(v@) =~= all.take(row + 1));
            row = row + 1;
        }
        assert(all.take(all.len() as int) =~= all);
        v
    }

    /// The palette, with the rows that its inside was cut into.
    pub fn render_palette_overlay(&self, area: Rect, rows: &Vec<Rect>) -> (v: Vec<Paint>)
        requires
            rows.len() == 3,
        ensures
            paints_of(v@) == palette_paints(self@.palette, area, rows@),
    {
        match popup_rect(area, 54, 16, 24, 6) {
            None => nothing(),
            Some(p) => {
                let mut v = frame_popup(p, " Commands ", Style::on(Color::White, Color::Black));
                let input = cat3("> ", self.palette.palette_input.as_str(), "▏");
                paint(&mut v, Paint::label(rows[0], input.as_str(), Style::fg(Color::Cyan)));
                paint(&mut v, Paint::text(rows[1], self.palette_text(rows[1].width)));
                paint(
                    &mut v,
                    Paint::label(rows[2], "[Enter] run   [Esc] close", Style::fg(Color::DarkGray)),
                );
                assert(paints_of(v@) =~= palette_paints(self@.palette, area, rows@));
                v
            },
        }
    }
}

// ---- the port switcher ----

/// Whether a session is among the nodes that answered.
pub open spec fn answered_by(nodes: Seq<NodeModel>, zid: Seq<char>, n: nat) -> bool
    decreases n,
{
    n > 0 && (nodes[n - 1].zid == zid || answered_by(nodes, zid, (n - 1) as nat))
}

/// Whether this session is among the nodes that answered on a port.
pub open spec fn is_own_port(c: ConnectionModel, r: PortModel) -> bool {
    match c {
        ConnectionModel::Connected(zid) => answered_by(r.nodes, zid, r.nodes.len()),
        _ => false,
    }
}

/// The line of a port where somebody answered.
pub open spec fn port_line(r: PortModel, selected: bool, own: bool) -> Seq<SpanModel> {
    let head = seq![
        span(
            (if selected {
                "> "@
            } else {
                "  "@
            }) + port_label(r.port) + "  "@ + decimal(r.nodes.len()) + " node(s)"@,
            if selected {
                chosen()
            } else {
                inked(Color::White)
            },
        ),
    ];
    if own {
        head.push(span("  (self)"@, strong(Color::Green)))
    } else {
        head
    }
}

/// The lines of the ports where somebody answered.
pub open spec fn port_lines(m: ScoutModel, c: ConnectionModel) -> Seq<Seq<SpanModel>> {
    Seq::new(
        m.found().len(),
        |i: int|
            port_line(
                m.port_scan_results[m.found()[i]],
                i == m.port_scan_selected,
                is_own_port(c, m.port_scan_results[m.found()[i]]),
            ),
    )
}

/// What stands in the list of the port switcher.
pub open spec fn scan_paint(m: ScoutModel, c: ConnectionModel, area: Rect) -> PaintModel {
    if m.port_scan_in_progress {
        label(area, "Scanning domains 0-100 (ports 7446-7546) ..."@, inked(Color::Yellow))
    } else if m.port_scan_results.len() == 0 {
        label(area, "Press 's' to scan domains 0-100 for nodes"@, inked(Color::DarkGray))
    } else if m.found().len() == 0 {
        label(area, "No nodes found in domains 0-100"@, inked(Color::Red))
    } else {
        text(area, port_lines(m, c))
    }
}

/// The port that is set.
pub open spec fn current_words(m: ScoutModel) -> Seq<char> {
    match m.scout_port_current {
        Some(p) => "Current: "@ + port_label(p),
        None => "Current: domain 0 (port 7446, default)"@,
    }
}

/// The port switcher, with the rows that its inside was cut into: the port that is
/// set, the input, a gap, the list and the hint.
pub open spec fn scout_paints(
    m: ScoutModel,
    c: ConnectionModel,
    area: Rect,
    rows: Seq<Rect>,
) -> Seq<PaintModel> {
    match popup(area, 58, 16, 20, 8) {
        None => Seq::empty(),
        Some(p) => popup_frame(p, " Domain Scan & Switch "@, Style { bold: true, ..ground() })
            + seq![
            label(rows[0], current_words(m), inked(Color::Gray)),
            label(rows[1], "Custom port: "@ + m.scout_port_input + "_"@, inked(Color::Cyan)),
            scan_paint(m, c, rows[3]),
            label(
                rows[4],
                " s:scan domains  Enter:switch  jk/↑↓:select  Esc:close "@,
                inked(Color::DarkGray),
            ),
        ],
    }
}

impl App {
    /// Whether this session is among the nodes that answered on a port.
    fn own_port(&self, at: usize) -> (r: bool)
        requires
            at < self.scout.port_scan_results.len(),
        ensures
            r == is_own_port(self@.connection, self@.scout.port_scan_results[at as int]),
    {
        let result = &self.scout.port_scan_results[at];
        assert(self@.scout.port_scan_results[at as int] == result@);
        match &self.connection_state {
            ConnectionState::Connected(zid) => {
                let ghost nodes = result@.nodes;
                let mut i: usize = 0;
                let mut found = false;
                while i < result.nodes.len()
                    invariant
                        i <= result.nodes.len(),
                        nodes == result@.nodes,
                        found == answered_by(nodes, zid@, i as nat),
                    decreases result.nodes.len() - i,
                {
                    assert(nodes[i as int] == result.nodes@[i as int]@);
                    found = same(result.nodes[i].zid.as_str(), zid.as_str()) || found;
                    i = i + 1;
                }
                found
            },
            _ => false,
        }
    }

    fn port_text(&self) -> (v: Vec<Line>)
        ensures
            lines_of(v@) == port_lines(self@.scout, self@.connection),
    {
        let found = self.scout.found_ports();
        let ghost m = self@.scout;
        let ghost all = port_lines(m, self@.connection);
        let mut v = no_lines();
        let mut i: usize = 0;
        assert(all.take(0) =~= Seq::empty());
        while i < found.len()
            invariant
                i <= found.len(),
                m == self@.scout,
                found@.map_values(|i: usize| i as int) == m.found(),
                found@.len() == m.found().len(),
                forall|k: int|
                    0 <= k < found@.len() ==> #[trigger] found@[k]
                        < self.scout.port_scan_results.len(),
                all == port_lines(m, self@.connection),
                lines_of(v@) == all.take(i as int),
            decreases found.len() - i,
        {
            let at: usize = found[i];
            assert(m.found()[i as int] == at as int);
            let result = &self.scout.port_scan_results[at];
            assert(m.port_scan_results[at as int] == result@);
            let selected = i == self.scout.port_scan_selected;
            let name = domain_port_label(result.port);
            let count = decimal_text(result.nodes.len() as u64);
            let head = cat3(
                if selected {
                    "> "
                } else {
                    "  "
                },
                name.as_str(),
                "  ",
            );
            let words = cat3(head.as_str(), count.as_str(), " node(s)");
            let mut line = Line::empty();
            let style = if selected {
                Style::selected()
            } else {
                Style::fg(Color::White)
            };
            let ghost expected = (if selected {
                "> "@
            } else {
                "  "@
            }) + port_label(result@.port) + "  "@ + decimal(result@.nodes.len()) + " node(s)"@;
            assert(words@ =~= expected);
            line.add(Span::owned(words, style));
            let own = self.own_port(at);
            if own {
                line.add(Span::of("  (self)", Style::bold(Color::Green)));
            }
            assert(line@ =~= port_line(result@, selected, own));
            put(&mut v, line);
            assert(lines_of(v@) =~= all.take(i + 1));
            i = i + 1;
        }
        assert(all.take(all.len() as int) =~= all);
        v
    }

    fn scan_list(&self, area: Rect) -> (p: Paint)
        ensures
            p@ == scan_paint(self@.scout, self@.connection, area),
    {
        assert(self@.scout.port_scan_results.len() == self.scout.port_scan_results@.len());
        if self.scout.port_scan_in_progress {
            return Paint::label(
                area,
                "Scanning domains 0-100 (ports 7446-7546) ...",
                Style::fg(Color::Yellow),
            );
        }
        if self.scout.port_scan_results.len() == 0 {
            return Paint::label(
                area,
                "Press 's' to scan domains 0-100 for nodes",
                Style::fg(Color::DarkGray),
            );
        }
        let found = self.scout.found_ports();
        if found.len() == 0 {
            return Paint::label(area, "No nodes found in domains 0-100", Style::fg(Color::Red));
        }
        Paint::text(area, self.port_text())
    }

    /// The port switcher, with the rows that its inside was cut into.
    pub fn render_scout_port_modal(&self, area: Rect, rows: &Vec<Rect>) -> (v: Vec<Paint>)
        requires
            rows.len() == 5,
        ensures
            paints_of(v@) == scout_paints(self@.scout, self@.connection, area, rows@),
    {
        match popup_rect(area, 58, 16, 20, 8) {
            None => nothing(),
            Some(p) => {
                let mut style = Style::on(Color::White, Color::Black);
                style.bold = true;
                let mut v = frame_popup(p, " Domain Scan & Switch ", style);
                let current = match self.scout.scout_port_current {
                    Some(port) => {
                        let name = domain_port_label(port);
                        cat("Current: ", name.as_str())
                    },
                    None => "Current: domain 0 (port 7446, default)".to_owned(),
                };
                let input = cat3("Custom port: ", self.scout.scout_port_input.as_str(), "_");
                paint(&mut v, Paint::label(rows[0], current.as_str(), Style::fg(Color::Gray)));
                paint(&mut v, Paint::label(rows[1], input.as_str(), Style::fg(Color::Cyan)));
                paint(&mut v, self.scan_list(rows[3]));
                paint(
                    &mut v,
                    Paint::label(
                        rows[4],
                        " s:scan domains  Enter:switch  jk/↑↓:select  Esc:close ",
                        Style::fg(Color::DarkGray),
                    ),
                );
                assert(paints_of(v@) =~= scout_paints(
                    self@.scout,
                    self@.connection,
                    area,
                    rows@,
                ));
                v
            },
        }
    }
}

// ---- the mode chooser ----

/// The mode chooser, with the rows that its inside was cut into.
pub open spec fn mode_paints(
    selection: ConnectMode,
    current: ConnectMode,
    area: Rect,
    rows: Seq<Rect>,
) -> Seq<PaintModel> {
    match popup(area, 36, 9, 24, 7) {
        None => Seq::empty(),
        Some(p) => popup_frame(p, " Mode "@, Style { bold: true, ..ground() }) + seq![
            label(
                rows[1],
                if selection == ConnectMode::Peer {
                    "> [*] Peer"@
                } else {
                    "  [ ] Peer"@
                },
                inked(Color::Cyan),
            ),
            label(
                rows[2],
                if selection == ConnectMode::Client {
                    "> [*] Client"@
                } else {
                    "  [ ] Client"@
                },
                inked(Color::Cyan),
            ),
            label(rows[4], "current: "@ + current.word(), inked(Color::Gray)),
            label(rows[5], " jk/UpDn:select  Enter:apply  Esc:close "@, inked(Color::DarkGray)),
        ],
    }
}

/// The mode chooser, with the rows that its inside was cut into.
pub fn render_mode_modal(
    selection: ConnectMode,
    current: ConnectMode,
    area: Rect,
    rows: &Vec<Rect>,
) -> (v: Vec<Paint>)
    requires
        rows.len() == 6,
    ensures
        paints_of(v@) == mode_paints(selection, current, area, rows@),
{
    match popup_rect(area, 36, 9, 24, 7) {
        None => nothing(),
        Some(p) => {
            let mut style = Style::on(Color::White, Color::Black);
            style.bold = true;
            let mut v = frame_popup(p, " Mode ", style);
            let peer = selection == ConnectMode::Peer;
            paint(
                &mut v,
                Paint::label(
                    rows[1],
                    if peer {
                        "> [*] Peer"
                    } else {
                        "  [ ] Peer"
                    },
                    Style::fg(Color::Cyan),
                ),
            );
            paint(
                &mut v,
                Paint::label(
                    rows[2],
                    if peer {
                        "  [ ] Client"
                    } else {
                        "> [*] Client"
                    },
                    Style::fg(Color::Cyan),
                ),
            );
            let words = cat("current: ", current.name());
            paint(&mut v, Paint::label(rows[4], words.as_str(), Style::fg(Color::Gray)));
            paint(
                &mut v,
                Paint::label(
                    rows[5],
                    " jk/UpDn:select  Enter:apply  Esc:close ",
                    Style::fg(Color::DarkGray),
                ),
            );
            assert(paints_of(v@) =~= mode_paints(selection, current, area, rows@));
            v
        },
    }
}

// ---- the field picker ----

/// A text without the slashes at its start.
pub open spec fn unslashed(s: Seq<char>) -> Seq<char>
    decreases s.len(),
{
    if s.len() > 0 && s[0] == '/' {
        unslashed(s.skip(1))
    } else {
        s
    }
}

/// The text at a place, or none.
pub open spec fn text_at(v: Seq<Seq<char>>, i: int) -> Seq<char> {
    if 0 <= i < v.len() {
        v[i]
    } else {
        Seq::empty()
    }
}

/// The line of a field, with its current value.
pub open spec fn field_line(field: Seq<char>, value: Seq<char>, selected: bool) -> Seq<SpanModel> {
    one(
        " "@ + left_aligned(unslashed(field), 24) + " "@ + right_aligned(value, 14) + " "@,
        if selected {
            chosen()
        } else {
            inked(Color::White)
        },
    )
}

/// The lines of the field picker.
pub open spec fn picker_lines(
    fields: Seq<Seq<char>>,
    values: Seq<Seq<char>>,
    selected: usize,
) -> Seq<Seq<SpanModel>> {
    Seq::new(
        fields.len(),
        |i: int| field_line(fields[i], text_at(values, i), i == selected),
    ) + seq![
        blank(),
        one("[Enter] plot   [Esc] cancel   [P] clear"@, inked(Color::DarkGray)),
    ]
}

/// A list and four lines around it, as far as a height can count.
pub open spec fn plus_four(n: nat) -> u16 {
    if n + 4 > u16::MAX {
        u16::MAX
    } else {
        (n + 4) as u16
    }
}

/// The field picker, with the current value of each field in words.
pub open spec fn picker_paints(m: AppModel, values: Seq<Seq<char>>, area: Rect) -> Seq<PaintModel> {
    match popup(area, 46, plus_four(m.fields().len()), 20, 5) {
        None => Seq::empty(),
        Some(p) => popup_frame(p, " Plot field "@, ground()).push(
            text(p.inside(), picker_lines(m.fields(), values, m.plot_picker_selected)),
        ),
    }
}

/// A text without the slashes at its start.
fn without_slashes(s: &str) -> (r: String)
    ensures
        r@ == unslashed(s@),
{
    let n: usize = s.unicode_len();
    let mut i: usize = 0;
    assert(s@.skip(0) =~= s@);
    while i < n && s.get_char(i) == '/'
        invariant
            i <= n,
            n == s@.len(),
            unslashed(s@) == unslashed(s@.skip(i as int)),
        decreases n - i,
    {
        assert(s@.skip(i as int)[0] == s@[i as int]);
        assert(s@.skip(i as int).skip(1) =~= s@.skip(i + 1));
        i = i + 1;
    }
    proof {
        if i < n {
            assert(s@.skip(i as int)[0] == s@[i as int]);
        }
    }
    let r = s.substring_char(i, n).to_owned();
    assert(r@ =~= s@.skip(i as int));
    r
}

fn plus_four_lines(n: usize) -> (r: u16)
    ensures
        r == plus_four(n as nat),
{
    if n > 65531 {
        65535
    } else {
        n as u16 + 4
    }
}

impl App {
    /// The field picker: every numeric field of the selected key's latest payload, with
    /// its current value in words, so that the choice is informed.
    pub fn render_plot_picker(&self, values: &Vec<String>, area: Rect) -> (v: Vec<Paint>)
        ensures
            paints_of(v@) == picker_paints(self@, texts(values@), area),
    {
        let fields = self.plottable_fields();
        let ghost all = self@.fields();
        assert(all.len() == fields@.len());
        let p = match popup_rect(area, 46, plus_four_lines(fields.len()), 20, 5) {
            None => {
                return nothing();
            },
            Some(p) => p,
        };
        let mut v = frame_popup(p, " Plot field ", Style::on(Color::White, Color::Black));
        let ghost shown = Seq::new(
            all.len(),
            |i: int|
                field_line(all[i], text_at(texts(values@), i), i == self.plot_picker_selected),
        );
        let mut lines = no_lines();
        let mut i: usize = 0;
        assert(shown.take(0) =~= Seq::empty());
        while i < fields.len()
            invariant
                i <= fields.len(),
                all == texts(fields@),
                all.len() == fields@.len(),
                shown == Seq::new(
                    all.len(),
                    |i: int|
                        field_line(
                            all[i],
                            text_at(texts(values@), i),
                            i == self.plot_picker_selected,
                        ),
                ),
                lines_of(lines@) == shown.take(i as int),
            decreases fields.len() - i,
        {
            assert(all[i as int] == fields@[i as int]@);
            let name = without_slashes(fields[i].as_str());
            let wide = pad_right(name.as_str(), 24);
            let value = if i < values.len() {
                pad_left(values[i].as_str(), 14)
            } else {
                pad_left("", 14)
            };
            proof {
                reveal_strlit("");
                assert(""@ =~= Seq::<char>::empty());
            }
            let head = cat3(" ", wide.as_str(), " ");
            let words = cat3(head.as_str(), value.as_str(), " ");
            let style = if i == self.plot_picker_selected {
                Style::selected()
            } else {
                Style::fg(Color::White)
            };
            assert(words@ =~= " "@ + left_aligned(unslashed(all[i as int]), 24) + " "@
                + right_aligned(text_at(texts(values@), i as int), 14) + " "@);
            put(&mut lines, Line::one(words.as_str(), style));
            assert(lines_of(lines@) =~= shown.take(i + 1));
            i = i + 1;
        }
        assert(shown.take(shown.len() as int) =~= shown);
        put(&mut lines, Line::empty());
        put(
            &mut lines,
            Line::one("[Enter] plot   [Esc] cancel   [P] clear", Style::fg(Color::DarkGray)),
        );
        assert(lines_of(lines@) =~= picker_lines(all, texts(values@), self.plot_picker_selected));
        paint(&mut v, Paint::text(p.inner(), lines));
        v
    }
}

// ---- the publish editor ----

/// The line of a field of the editor.
pub open spec fn editor_line(name: Seq<char>, value: Seq<char>, active: bool) -> Seq<SpanModel> {
    seq![
        span(
            (if active {
                "▸ "@
            } else {
                "  "@
            }) + left_aligned(name, 9),
            inked(Color::DarkGray),
        ),
        span(
            value + (if active {
                "_"@
            } else {
                ""@
            }),
            if active {
                strong(Color::White)
            } else {
                inked(Color::Gray)
            },
        ),
    ]
}

/// What is said right above the send key: how the last message went, or where the
/// next one will go, so that committing is never a blind action on what was filled in.
pub open spec fn editor_notice(m: PublishModel) -> Seq<SpanModel> {
    match m.publish_result {
        Some(Ok(key)) => one("  sent to "@ + key, inked(Color::Green)),
        Some(Err(why)) => one("  "@ + why, inked(Color::Red)),
        None => seq![
            span("  will write to  "@, inked(Color::DarkGray)),
            span(
                if trimmed(m.publish_key).len() == 0 {
                    "(no key)"@
                } else {
                    trimmed(m.publish_key)
                },
                strong(Color::Yellow),
            ),
        ],
    }
}

/// The lines of the editor.
pub open spec fn editor_lines(m: PublishModel) -> Seq<Seq<SpanModel>> {
    seq![
        editor_line("key"@, m.publish_key, m.publish_field == PublishField::Key),
        editor_line("payload"@, m.publish_payload, m.publish_field == PublishField::Payload),
        blank(),
        editor_notice(m),
        blank(),
        one("  [Ctrl+Enter] send   [Tab] field   [Esc] cancel"@, inked(Color::DarkGray)),
    ]
}

/// The publish editor.
pub open spec fn editor_paints(m: PublishModel, area: Rect) -> Seq<PaintModel> {
    match popup(area, 72, 12, 32, 8) {
        None => Seq::empty(),
        Some(p) => seq![
            PaintModel::Clear { area: p },
            PaintModel::Block {
                area: p,
                title: " Publish "@,
                border: inked(Color::Yellow),
                style: ground(),
            },
            scrolling(p.inside(), editor_lines(m), 0),
        ],
    }
}

fn editor_row(name: &str, value: &str, active: bool) -> (l: Line)
    ensures
        l@ == editor_line(name@, value@, active),
{
    let padded = pad_right(name, 9);
    let head = cat(
        if active {
            "▸ "
        } else {
            "  "
        },
        padded.as_str(),
    );
    let tail = cat(
        value,
        if active {
            "_"
        } else {
            ""
        },
    );
    Line::two(
        Span::owned(head, Style::fg(Color::DarkGray)),
        Span::owned(
            tail,
            if active {
                Style::bold(Color::White)
            } else {
                Style::fg(Color::Gray)
            },
        ),
    )
}

impl App {
    fn editor_notice(&self) -> (l: Line)
        ensures
            l@ == editor_notice(self@.publish),
    {
        match &self.publish.publish_result {
            Some(Ok(key)) => {
                let words = cat("  sent to ", key.as_str());
                Line::one(words.as_str(), Style::fg(Color::Green))
            },
            Some(Err(why)) => {
                let words = cat("  ", why.as_str());
                Line::one(words.as_str(), Style::fg(Color::Red))
            },
            None => {
                let key = trim(self.publish.publish_key.as_str());
                let target = if key.as_str().is_empty() {
                    "(no key)".to_owned()
                } else {
                    key
                };
                Line::two(
                    Span::of("  will write to  ", Style::fg(Color::DarkGray)),
                    Span::owned(target, Style::bold(Color::Yellow)),
                )
            },
        }
    }

    /// The publish editor.
    pub fn render_publish_editor(&self, area: Rect) -> (v: Vec<Paint>)
        ensures
            paints_of(v@) == editor_paints(self@.publish, area),
    {
        let p = match popup_rect(area, 72, 12, 32, 8) {
            None => {
                return nothing();
            },
            Some(p) => p,
        };
        let mut v = nothing();
        paint(&mut v, Paint::Clear { area: p });
        paint(
            &mut v,
            Paint::Block {
                area: p,
                title: " Publish ".to_owned(),
                border: Style::fg(Color::Yellow),
                style: Style::on(Color::White, Color::Black),
            },
        );
        let on_key = self.publish.publish_field == PublishField::Key;
        let mut lines = no_lines();
        put(&mut lines, editor_row("key", self.publish.publish_key.as_str(), on_key));
        put(&mut lines, editor_row("payload", self.publish.publish_payload.as_str(), !on_key));
        put(&mut lines, Line::empty());
        put(&mut lines, self.editor_notice());
        put(&mut lines, Line::empty());
        put(
            &mut lines,
            Line::one(
                "  [Ctrl+Enter] send   [Tab] field   [Esc] cancel",
                Style::fg(Color::DarkGray),
            ),
        );
        assert(lines_of(lines@) =~= editor_lines(self@.publish));
        paint(&mut v, Paint::scrolling(p.inner(), lines, 0));
        assert(paints_of(v@) =~= editor_paints(self@.publish, area));
        v
    }
}

// ---- saved views ----

/// What is about to be saved, so that "view" is not a word to guess the meaning of.
pub open spec fn save_summary(m: AppModel) -> Seq<char> {
    "  filter "@ + (if m.pane.filter.len() == 0 {
        "(none)"@
    } else {
        "'"@ + m.pane.filter + "'"@
    }) + "  ·  "@ + decimal(m.pane.expanded.len()) + " open  ·  "@ + decimal(
        m.plot_field.dom().len(),
    ) + " plotted"@
}

/// The save dialog.
pub open spec fn save_paints(m: AppModel, area: Rect) -> Seq<PaintModel> {
    match popup(area, 60, 7, 28, 5) {
        None => Seq::empty(),
        Some(p) => popup_frame(p, " Save this view "@, ground()).push(
            text(
                p.inside(),
                seq![
                    seq![
                        span("  name  "@, inked(Color::DarkGray)),
                        span(m.views.profile_name_input + "_"@, strong(Color::White)),
                    ],
                    blank(),
                    one(save_summary(m), inked(Color::DarkGray)),
                    blank(),
                    one("  [Enter] save   [Esc] cancel"@, inked(Color::DarkGray)),
                ],
            ),
        ),
    }
}

/// What a saved view holds, in words.
pub open spec fn view_words(p: ProfileModel) -> Seq<char> {
    decimal(p.expanded.len()) + " open, "@ + decimal(p.plot_fields.dom().len()) + " plotted"@ + (
    if p.filter.len() == 0 {
        ""@
    } else {
        ", /"@ + p.filter
    })
}

/// The line of a saved view.
pub open spec fn view_line(p: ProfileModel, selected: bool) -> Seq<SpanModel> {
    one(
        " "@ + left_aligned(p.name, 20) + " "@ + right_aligned(view_words(p), 30) + " "@,
        if selected {
            chosen()
        } else {
            inked(Color::White)
        },
    )
}

/// The lines of the view picker.
pub open spec fn view_lines(profiles: Seq<ProfileModel>, selected: usize) -> Seq<Seq<SpanModel>> {
    Seq::new(profiles.len(), |i: int| view_line(profiles[i], i == selected)) + seq![
        blank(),
        one(" [Enter] load   [Esc] cancel"@, inked(Color::DarkGray)),
    ]
}

/// The view picker.
pub open spec fn load_paints(m: AppModel, area: Rect) -> Seq<PaintModel> {
    match popup(area, 60, plus_four(m.views.profiles.len()), 28, 5) {
        None => Seq::empty(),
        Some(p) => popup_frame(p, " Load a saved view "@, ground()).push(
            text(p.inside(), view_lines(m.views.profiles, m.views.profile_selected)),
        ),
    }
}

fn view_row(p: &TuiProfile, selected: bool) -> (l: Line)
    ensures
        l@ == view_line(p@, selected),
{
    let open = decimal_text(p.expanded.len() as u64);
    let count: usize = p.plot_fields.len();
    let plotted = decimal_text(count as u64);
    proof {
        assert(p@.plot_fields.dom() =~= p.plot_fields@.dom());
        assert(p@.expanded.len() == p.expanded@.len());
    }
    let head = cat4(open.as_str(), " open, ", plotted.as_str(), " plotted");
    let words = if p.filter.as_str().is_empty() {
        cat(head.as_str(), "")
    } else {
        cat3(head.as_str(), ", /", p.filter.as_str())
    };
    assert(words@ =~= view_words(p@));
    let name = pad_right(p.name.as_str(), 20);
    let wide = pad_left(words.as_str(), 30);
    let left = cat3(" ", name.as_str(), " ");
    let all = cat3(left.as_str(), wide.as_str(), " ");
    assert(all@ =~= " "@ + left_aligned(p@.name, 20) + " "@ + right_aligned(view_words(p@), 30)
        + " "@);
    Line::one(
        all.as_str(),
        if selected {
            Style::selected()
        } else {
            Style::fg(Color::White)
        },
    )
}

impl App {
    fn save_summary(&self) -> (s: String)
        ensures
            s@ == save_summary(self@),
    {
        let filter = if self.pane.filter.as_str().is_empty() {
            "(none)".to_owned()
        } else {
            cat3("'", self.pane.filter.as_str(), "'")
        };
        let open_n: usize = self.pane.expanded.len();
        let plotted_n: usize = self.plot_field.len();
        proof {
            assert(self@.plot_field.dom() =~= self.plot_field@.dom());
        }
        let open = decimal_text(open_n as u64);
        let plotted = decimal_text(plotted_n as u64);
        let head = cat4("  filter ", filter.as_str(), "  ·  ", open.as_str());
        let s = cat4(head.as_str(), " open  ·  ", plotted.as_str(), " plotted");
        assert(s@ =~= save_summary(self@));
        s
    }

    /// The save dialog.
    pub fn render_profile_save(&self, area: Rect) -> (v: Vec<Paint>)
        ensures
            paints_of(v@) == save_paints(self@, area),
    {
        let p = match popup_rect(area, 60, 7, 28, 5) {
            None => {
                return nothing();
            },
            Some(p) => p,
        };
        let mut v = frame_popup(p, " Save this view ", Style::on(Color::White, Color::Black));
        let name = cat(self.views.profile_name_input.as_str(), "_");
        let summary = self.save_summary();
        let mut lines = no_lines();
        put(
            &mut lines,
            Line::two(
                Span::of("  name  ", Style::fg(Color::DarkGray)),
                Span::owned(name, Style::bold(Color::White)),
            ),
        );
        put(&mut lines, Line::empty());
        put(&mut lines, Line::one(summary.as_str(), Style::fg(Color::DarkGray)));
        put(&mut lines, Line::empty());
        put(&mut lines, Line::one("  [Enter] save   [Esc] cancel", Style::fg(Color::DarkGray)));
        let ghost expected = seq![
            seq![
                span("  name  "@, inked(Color::DarkGray)),
                span(self@.views.profile_name_input + "_"@, strong(Color::White)),
            ],
            blank(),
            one(save_summary(self@), inked(Color::DarkGray)),
            blank(),
            one("  [Enter] save   [Esc] cancel"@, inked(Color::DarkGray)),
        ];
        assert(lines_of(lines@) =~= expected);
        paint(&mut v, Paint::text(p.inner(), lines));
        v
    }

    /// The view picker.
    pub fn render_profile_load(&self, area: Rect) -> (v: Vec<Paint>)
        ensures
            paints_of(v@) == load_paints(self@, area),
    {
        let ghost all = self@.views.profiles;
        assert(all.len() == self.views.profiles@.len());
        let p = match popup_rect(area, 60, plus_four_lines(self.views.profiles.len()), 28, 5) {
            None => {
                return nothing();
            },
            Some(p) => p,
        };
        let mut v = frame_popup(p, " Load a saved view ", Style::on(Color::White, Color::Black));
        let ghost selected = self.views.profile_selected;
        let ghost shown = Seq::new(all.len(), |i: int| view_line(all[i], i == selected));
        let mut lines = no_lines();
        let mut i: usize = 0;
        assert(shown.take(0) =~= Seq::empty());
        while i < self.views.profiles.len()
            invariant
                i <= self.views.profiles.len(),
                all == self@.views.profiles,
                all.len() == self.views.profiles@.len(),
                selected == self.views.profile_selected,
                shown == Seq::new(all.len(), |i: int| view_line(all[i], i == selected)),
                lines_of(lines@) == shown.take(i as int),
            decreases self.views.profiles.len() - i,
        {
            assert(all[i as int] == self.views.profiles@[i as int]@);
            put(
                &mut lines,
                view_row(&self.views.profiles[i], i == self.views.profile_selected),
            );
            assert(lines_of(lines@) =~= shown.take(i + 1));
            i = i + 1;
        }
        assert(shown.take(shown.len() as int) =~= shown);
        put(&mut lines, Line::empty());
        put(&mut lines, Line::one(" [Enter] load   [Esc] cancel", Style::fg(Color::DarkGray)));
        assert(lines_of(lines@) =~= view_lines(all, selected));
        paint(&mut v, Paint::text(p.inner(), lines));
        v
    }
}

} // verus!
