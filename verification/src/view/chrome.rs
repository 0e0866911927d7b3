//! What is painted around the active space: the header, the hint bar and empty
//! states.
use vstd::prelude::*;

use crate::app::doctor::{counted, CheckStatus, ReportModel};
use crate::app::rate::{bandwidth, format_bytes_per_sec};
use crate::app::state::{App, AppModel, TOAST_SECS};
use crate::app::feed::{elapsed, since, NANOS_PER_SEC};
use crate::app::types::{
    empty_action, empty_state_text, empty_why, ConnectionModel, ConnectionState, EmptyReason, Rect,
    Space,
};
use crate::text::{cat, cat3, cat4, decimal, decimal_text, head_bytes, head_bytes_of};
use crate::view::style::{
    append, blank, inked, lines_of, no_lines, nothing, one, over, paint, paints_of, plain, put,
    span, strong, text, Color, Line, Paint, PaintModel, Span, SpanModel, Style, Wrapping,
};

verus! {

// ---- empty states ----

/// Why nothing is shown, and what to do about it.
pub open spec fn empty_lines(reason: EmptyReason) -> Seq<Seq<SpanModel>> {
    seq![
        blank(),
        one(empty_why(reason), strong(Color::Yellow)),
        one(empty_action(reason), inked(Color::Gray)),
    ]
}

/// An empty state in an area.
pub open spec fn empty_paint(area: Rect, reason: EmptyReason) -> PaintModel {
    PaintModel::Text {
        area,
        lines: empty_lines(reason),
        style: plain(),
        wrapping: Wrapping::Trim,
        scroll: 0,
    }
}

/// Why nothing is shown and the next action, in place of an ambiguous blank panel.
pub fn render_empty_state(area: Rect, reason: EmptyReason) -> (p: Paint)
    ensures
        p@ == empty_paint(area, reason),
{
    let (why, action) = empty_state_text(reason);
    let mut lines = no_lines();
    put(&mut lines, Line::empty());
    put(&mut lines, Line::one(why, Style::bold(Color::Yellow)));
    put(&mut lines, Line::one(action, Style::fg(Color::Gray)));
    assert(lines_of(lines@) =~= empty_lines(reason));
    Paint::Text { area, lines, style: Style::plain(), wrapping: Wrapping::Trim, scroll: 0 }
}

// ---- toasts ----

impl AppModel {
    /// With a toast that was shown long enough taken down.
    pub open spec fn toast_expired(self, now: u64) -> AppModel {
        AppModel {
            toast: match self.toast {
                Some(t) => if since(t.at, now) / NANOS_PER_SEC >= TOAST_SECS {
                    None
                } else {
                    Some(t)
                },
                None => None,
            },
            ..self
        }
    }
}

impl App {
    /// Take down a toast that was shown long enough.
    pub fn expire_toast(&mut self, now: u64)
        ensures
            final(self)@ == old(self)@.toast_expired(now),
    {
        let expired = match &self.toast {
            Some(t) => elapsed(t.at, now) / NANOS_PER_SEC >= TOAST_SECS,
            None => true,
        };
        if expired {
            self.toast = None;
        }
    }
}

// ---- the header ----

/// The connection, in words.
pub open spec fn connection_words(c: ConnectionModel) -> Seq<char> {
    match c {
        ConnectionModel::Connected(zid) => "Connected zid:"@ + head_bytes_of(zid, 16),
        ConnectionModel::Connecting => "Connecting..."@,
        ConnectionModel::Disconnected(reason) => "Disconnected: "@ + reason,
    }
}

/// The health dot: its glyph, its colour and its label. It shows how the last
/// diagnostics went, and before there are any, the state of the connection.
pub open spec fn health(report: Option<ReportModel>, c: ConnectionModel) -> (
    Seq<char>,
    Color,
    Seq<char>,
) {
    match report {
        Some(r) => match r.status {
            CheckStatus::Pass => ("●"@, Color::Green, "OK"@),
            CheckStatus::Warn => (
                "⚠"@,
                Color::Yellow,
                decimal(counted(r.checks, true, r.checks.len())) + " warn"@,
            ),
            CheckStatus::Fail => (
                "✖"@,
                Color::Red,
                decimal(counted(r.checks, false, r.checks.len())) + " fail"@,
            ),
        },
        None => match c {
            ConnectionModel::Connected(_) => ("●"@, Color::Green, "OK"@),
            ConnectionModel::Connecting => ("●"@, Color::Yellow, "connecting"@),
            ConnectionModel::Disconnected(_) => ("●"@, Color::Red, "offline"@),
        },
    }
}

/// The runs of the first header line, up to the tabs. A session that can write says
/// so on every frame.
pub open spec fn header_spans(m: AppModel) -> Seq<SpanModel> {
    let (glyph, color, words) = health(m.doctor.doctor_report, m.connection);
    seq![span(glyph + " "@, inked(color)), span(words + "  "@, inked(color))] + (
    if m.doctor.doctor_running {
        seq![span("checking…  "@, inked(Color::DarkGray))]
    } else {
        Seq::empty()
    }) + seq![
        span(connection_words(m.connection), inked(Color::Gray)),
        span("  "@, plain()),
    ] + (if m.publish.allow_publish {
        seq![
            span(" WRITE "@, Style { bold: true, ..over(Color::Black, Color::Yellow) }),
            span("  "@, plain()),
        ]
    } else {
        Seq::empty()
    })
}

/// Characters in some runs.
pub open spec fn width_of(spans: Seq<SpanModel>) -> nat
    decreases spans.len(),
{
    if spans.len() == 0 {
        0
    } else {
        width_of(spans.drop_last()) + spans.last().text.len()
    }
}

/// The tab of a space at a column, where it fits the line.
pub open spec fn tab(line: Rect, x: nat, name: Seq<char>) -> Option<Rect> {
    let width = name.len() + 2;
    if x + width > line.x + line.width || x > u16::MAX {
        None
    } else {
        Some(Rect { x: x as u16, y: line.y, width: width as u16, height: 1 })
    }
}

/// Where the two tabs stand, behind the other runs. One that does not fit takes no
/// room.
pub open spec fn tabs(m: AppModel, line: Rect) -> (Option<Rect>, Option<Rect>) {
    let x = (line.x + width_of(header_spans(m))) as nat;
    let first = tab(line, x, Space::Traffic.name());
    let x2 = match first {
        Some(r) => (x + r.width + 1) as nat,
        None => x,
    };
    (first, tab(line, x2, Space::Network.name()))
}

/// The label of a tab. The active space is marked.
pub open spec fn tab_paint(area: Option<Rect>, space: Space, active: bool) -> Seq<PaintModel> {
    match area {
        None => Seq::empty(),
        Some(area) => seq![
            text(
                area,
                seq![
                    one(
                        "["@ + space.name() + "]"@,
                        if active {
                            Style { underlined: true, ..strong(Color::Cyan) }
                        } else {
                            inked(Color::White)
                        },
                    ),
                ],
            ),
        ],
    }
}

/// The counts in the second header line. A session that has forgotten keys says so.
pub open spec fn counts_words(m: AppModel, rate: Seq<char>) -> Seq<char> {
    decimal(m.network.nodes.len()) + " sessions · "@ + decimal(m.network.liveliness_tokens.len())
        + " services · "@ + decimal(m.pane.tree.keys().len()) + " keys · "@ + rate + " msg/s · "@
        + bandwidth(m.feed.total_rate.latest()) + (if m.feed.keys_aged_out > 0 {
        " · "@ + decimal(m.feed.keys_aged_out as nat) + " aged out"@
    } else {
        ""@
    })
}

/// The header, with its two lines; `rate` is the total message rate in words.
pub open spec fn header_paints(
    m: AppModel,
    line0: Rect,
    line1: Rect,
    compact: bool,
    rate: Seq<char>,
) -> Seq<PaintModel> {
    seq![text(line0, seq![header_spans(m)])] + tab_paint(
        tabs(m, line0).0,
        Space::Traffic,
        m.space == Space::Traffic,
    ) + tab_paint(tabs(m, line0).1, Space::Network, m.space == Space::Network) + (if compact {
        Seq::empty()
    } else {
        seq![text(line1, seq![one(counts_words(m, rate), inked(Color::DarkGray))])]
    })
}

/// The column behind a line, as far as columns go.
fn column_behind(line: &Line, start: u16) -> (r: u32)
    ensures
        start + width_of(line@) <= u16::MAX ==> r == start + width_of(line@),
        start + width_of(line@) > u16::MAX ==> r > u16::MAX,
        r <= 65536 + 65536,
{
    let ghost all = line@;
    let mut at: u32 = start as u32;
    let mut i: usize = 0;
    assert(all.take(0) =~= Seq::empty());
    while i < line.spans.len()
        invariant
            i <= line.spans.len(),
            all == line@,
            start + width_of(all.take(i as int)) <= u16::MAX ==> at == start + width_of(
                all.take(i as int),
            ),
            start + width_of(all.take(i as int)) > u16::MAX ==> at > u16::MAX,
            at <= 65536 + 65536,
        decreases line.spans.len() - i,
    {
        proof {
            assert(all[i as int] == line.spans@[i as int]@);
            assert(all.take(i + 1).drop_last() =~= all.take(i as int));
        }
        let w: usize = line.spans[i].text.as_str().unicode_len();
        if at <= 65535 {
            if w > 65536 {
                at = 65536;
            } else {
                at = at + w as u32;
            }
        }
        i = i + 1;
    }
    assert(all.take(all.len() as int) =~= all);
    at
}

/// The tab of a space at a column, where it fits the line.
fn place_tab(line: Rect, x: u32, space: Space) -> (r: Option<Rect>)
    requires
        x <= 65536 + 65536 + 65536,
    ensures
        r == tab(line, x as nat, space.name()),
        forall|y: nat| x > u16::MAX && y > u16::MAX ==> #[trigger] tab(line, y, space.name()) == r,
        r matches Some(t) ==> t.width <= 65535 && t.x == x,
{
    let name = space.title();
    proof {
        reveal_strlit("Traffic");
        reveal_strlit("Network");
    }
    let width: u32 = name.unicode_len() as u32 + 2;
    let right: u32 = line.x as u32 + line.width as u32;
    if x + width > right || x > 65535 {
        None
    } else {
        Some(Rect { x: x as u16, y: line.y, width: width as u16, height: 1 })
    }
}

impl App {
    fn health(&self) -> (r: (&'static str, Color, String))
        ensures
            ({
                let h = health(self@.doctor.doctor_report, self@.connection);
                r.0@ == h.0 && r.1 == h.1 && r.2@ == h.2
            }),
    {
        match &self.doctor.doctor_report {
            Some(report) => match report.status {
                CheckStatus::Pass => ("●", Color::Green, "OK".to_owned()),
                CheckStatus::Warn => {
                    let n = decimal_text(report.count_bad(true) as u64);
                    ("⚠", Color::Yellow, cat(n.as_str(), " warn"))
                },
                CheckStatus::Fail => {
                    let n = decimal_text(report.count_bad(false) as u64);
                    ("✖", Color::Red, cat(n.as_str(), " fail"))
                },
            },
            None => match &self.connection_state {
                ConnectionState::Connected(_) => ("●", Color::Green, "OK".to_owned()),
                ConnectionState::Connecting => ("●", Color::Yellow, "connecting".to_owned()),
                ConnectionState::Disconnected(_) => ("●", Color::Red, "offline".to_owned()),
            },
        }
    }

    fn connection_words(&self) -> (s: String)
        ensures
            s@ == connection_words(self@.connection),
    {
        match &self.connection_state {
            ConnectionState::Connected(zid) => {
                let short = head_bytes(zid.as_str(), 16);
                cat("Connected zid:", short.as_str())
            },
            ConnectionState::Connecting => "Connecting...".to_owned(),
            ConnectionState::Disconnected(reason) => cat("Disconnected: ", reason.as_str()),
        }
    }

    fn header_line(&self) -> (l: Line)
        ensures
            l@ == header_spans(self@),
    {
        let (glyph, color, words) = self.health();
        let dot = cat(glyph, " ");
        let state = cat(words.as_str(), "  ");
        let mut l = Line::two(
            Span::owned(dot, Style::fg(color)),
            Span::owned(state, Style::fg(color)),
        );
        if self.doctor.doctor_running {
            l.add(Span::of("checking…  ", Style::fg(Color::DarkGray)));
        }
        l.add(Span::owned(self.connection_words(), Style::fg(Color::Gray)));
        l.add(Span::of("  ", Style::plain()));
        if self.publish.allow_publish {
            let mut style = Style::on(Color::Black, Color::Yellow);
            style.bold = true;
            l.add(Span::of(" WRITE ", style));
            l.add(Span::of("  ", Style::plain()));
        }
        assert(l@ =~= header_spans(self@));
        l
    }

    fn counts_words(&self, rate: &str) -> (s: String)
        ensures
            s@ == counts_words(self@, rate@),
    {
        let sessions = decimal_text(self.network.nodes.len() as u64);
        let services = decimal_text(self.network.liveliness_tokens.len() as u64);
        let keys_n: usize = self.pane.key_tree.len();
        let keys = decimal_text(keys_n as u64);
        let bytes = format_bytes_per_sec(self.feed.total_bytes_per_sec());
        let a = cat4(sessions.as_str(), " sessions · ", services.as_str(), " services · ");
        let b = cat4(a.as_str(), keys.as_str(), " keys · ", rate);
        let c = cat3(b.as_str(), " msg/s · ", bytes.as_str());
        proof {
            assert(self@.network.nodes.len() == self.network.nodes@.len());
            assert(self@.network.liveliness_tokens.len() == self.network.liveliness_tokens@.len());
        }
        let s = if self.feed.keys_aged_out > 0 {
            let n = decimal_text(self.feed.keys_aged_out as u64);
            cat4(c.as_str(), " · ", n.as_str(), " aged out")
        } else {
            cat(c.as_str(), "")
        };
        assert(s@ =~= counts_words(self@, rate@));
        s
    }

    /// The header, with its two lines; `rate` is the total message rate in words.
    /// Where the tabs were drawn is noted for the pointer.
    pub fn render_header(&mut self, line0: Rect, line1: Rect, compact: bool, rate: &str) -> (v: Vec<
        Paint,
    >)
        ensures
            paints_of(v@) == header_paints(old(self)@, line0, line1, compact, rate@),
            final(self)@ == (AppModel {
                space_tab_rects: seq![tabs(old(self)@, line0).0, tabs(old(self)@, line0).1],
                ..old(self)@
            }),
    {
        let ghost before = self@;
        let line = self.header_line();
        let x: u32 = column_behind(&line, line0.x);
        let first = place_tab(line0, x, Space::Traffic);
        let x2: u32 = match first {
            Some(r) => x + r.width as u32 + 1,
            None => x,
        };
        let second = place_tab(line0, x2, Space::Network);
        proof {
            let exact = (line0.x + width_of(header_spans(before))) as nat;
            if exact > u16::MAX {
                assert(tab(line0, exact, Space::Traffic.name()) == first);
                assert(tab(line0, exact, Space::Network.name()) == second);
            }
            assert(tabs(before, line0) == (first, second));
        }
        let mut v = nothing();
        let mut head_lines = no_lines();
        put(&mut head_lines, line);
        assert(lines_of(head_lines@) =~= seq![header_spans(before)]);
        paint(&mut v, Paint::text(line0, head_lines));
        append(&mut v, label_tab(first, Space::Traffic, self.space == Space::Traffic));
        append(&mut v, label_tab(second, Space::Network, self.space == Space::Network));
        if !compact {
            let words = self.counts_words(rate);
            let mut lines = no_lines();
            put(&mut lines, Line::one(words.as_str(), Style::fg(Color::DarkGray)));
            assert(lines_of(lines@) =~= seq![
                one(counts_words(before, rate@), inked(Color::DarkGray)),
            ]);
            paint(&mut v, Paint::text(line1, lines));
        }
        assert(paints_of(v@) =~= header_paints(before, line0, line1, compact, rate@));
        self.space_tab_rects = [first, second];
        assert(self@.space_tab_rects =~= seq![first, second]);
        v
    }
}

fn label_tab(area: Option<Rect>, space: Space, active: bool) -> (v: Vec<Paint>)
    ensures
        paints_of(v@) == tab_paint(area, space, active),
{
    let mut v = nothing();
    if let Some(area) = area {
        let words = cat3("[", space.title(), "]");
        let style = if active {
            let mut s = Style::bold(Color::Cyan);
            s.underlined = true;
            s
        } else {
            Style::fg(Color::White)
        };
        let mut lines = no_lines();
        put(&mut lines, Line::one(words.as_str(), style));
        assert(lines_of(lines@) =~= seq![one("["@ + space.name() + "]"@, style)]);
        paint(&mut v, Paint::text(area, lines));
        assert(paints_of(v@) =~= tab_paint(Some(area), space, active));
    }
    v
}

// ---- the hint bar ----

/// The keys of a space, in one line.
pub open spec fn hint_words(space: Space) -> Seq<char> {
    match space {
        Space::Traffic =>
            "Tab space  j/k move  h/l fold  / filter  D diff  p plot  L live  Q query  y copy  : cmds  ? help  q quit"@,
        Space::Network =>
            "Tab space  j/k move  Enter drill  s scout  y copy  : cmds  d doctor  ? help  q quit"@,
    }
}

/// The hint bar.
pub open spec fn hint_paint(space: Space, area: Rect) -> PaintModel {
    text(area, seq![one(hint_words(space), inked(Color::DarkGray))])
}

/// The hint bar: the keys of the active space.
pub fn render_hint_bar(space: Space, area: Rect) -> (p: Paint)
    ensures
        p@ == hint_paint(space, area),
{
    let hint = match space {
        Space::Traffic =>
            "Tab space  j/k move  h/l fold  / filter  D diff  p plot  L live  Q query  y copy  : cmds  ? help  q quit",
        Space::Network =>
            "Tab space  j/k move  Enter drill  s scout  y copy  : cmds  d doctor  ? help  q quit",
    };
    let mut lines = no_lines();
    put(&mut lines, Line::one(hint, Style::fg(Color::DarkGray)));
    assert(lines_of(lines@) =~= seq![one(hint_words(space), inked(Color::DarkGray))]);
    Paint::text(area, lines)
}

/// A session that may write shows it in the header, and one that may not never does.
pub proof fn law_the_header_says_who_may_write(m: AppModel)
    ensures
        m.publish.allow_publish <==> exists|i: int|
            0 <= i < header_spans(m).len() && #[trigger] header_spans(m)[i] == span(
                " WRITE "@,
                Style { bold: true, ..over(Color::Black, Color::Yellow) },
            ),
{
    let mark = span(" WRITE "@, Style { bold: true, ..over(Color::Black, Color::Yellow) });
    let spans = header_spans(m);
    if m.publish.allow_publish {
        assert(spans[spans.len() - 2] == mark);
    } else {
        assert forall|i: int| 0 <= i < spans.len() implies #[trigger] spans[i] != mark by {
            assert(!spans[i].style.bold);
        }
    }
}

} // verus!
