//! The detail pane of the Traffic space for a key: its latest payload and history, or
//! the answers to a query.
use vstd::prelude::*;

use crate::app::feed::{FeedModel, KeyFreshness};
use crate::app::query::{QueryModel, QueryStatus, StatusModel};
use crate::app::rate::{bandwidth, format_bytes_per_sec};
use crate::app::state::{App, AppModel};
use crate::app::types::{DetailMode, Rect};
use crate::diff::{
    changed_paths, changes, doc_lines, line_models, render, DiffTag, LineModel, TaggedLine,
};
use crate::history::{EntryModel, HistoryEntry, KeyHistory, PAYLOAD_CAP_BYTES};
use crate::json::{compact, Json, JsonModel};
use crate::message::{string_view, MessageModel, ZenohMessage};
use crate::plot::{number_models, pointer_label, series, series_for, step_name};
use crate::text::{
    cat, cat3, cat4, decimal, decimal_text, head, head_of, join_spaced, pieces, spaced,
    split_lines, split_words, spread, texts, words,
};
use crate::tree::RowKind;
use crate::view::chrome::{empty_paint, render_empty_state};
use crate::view::fmt::{format_idle, format_stream_timestamp, idle_words, shown_timestamp};
use crate::view::network::section_line;
use crate::view::popups::left_over;
use crate::view::style::{
    blank, block, chosen, inked, lines_of, no_lines, nothing, one, paint, paints_of, plain, put,
    scrolling, span, strong, text, Color, Line, Paint, PaintModel, Span, SpanModel, Style,
};
use crate::view::traffic::{subtree_paints, words_at, words_for, Rates, RatesModel};

verus! {

// ---- plots ----

/// A plotted field, in words: the newest value, the range, and the values as a line of
/// bars.
#[derive(Debug)]
pub struct PlotView {
    pub value: String,
    pub min: String,
    pub max: String,
    pub spark: String,
}

/// A plotted field, as a mathematical value.
pub struct PlotModel {
    pub value: Seq<char>,
    pub min: Seq<char>,
    pub max: Seq<char>,
    pub spark: Seq<char>,
}

impl View for PlotView {
    type V = PlotModel;

    open spec fn view(&self) -> PlotModel {
        PlotModel {
            value: self.value@,
            min: self.min@,
            max: self.max@,
            spark: self.spark@,
        }
    }
}

/// The view of an optional plot.
pub open spec fn plot_view(p: Option<PlotView>) -> Option<PlotModel> {
    match p {
        Some(p) => Some(p@),
        None => None,
    }
}

/// How many bars fit a pane beside a value and a range, and whether the range needs a
/// line of its own.
pub open spec fn plot_room(width: u16, value: nat, range: nat) -> (nat, bool) {
    let avail = left_over(width as nat, 2);
    let inline = value + range + 5;
    if avail > inline + 8 {
        (
            if avail - inline < 64 {
                (avail - inline) as nat
            } else {
                64
            },
            false,
        )
    } else {
        let rest = left_over(avail, value + 4);
        (
            if rest < 8 {
                8
            } else if rest > 64 {
                64
            } else {
                rest
            },
            true,
        )
    }
}

/// Lay out a line of bars for a pane of a width: how many fit, and whether the range
/// needs its own line.
///
/// Measured from the texts that will be drawn: a two-digit percentage and a timestamp
/// need very different room.
pub fn plot_layout(width: u16, value: &str, range: &str) -> (r: (usize, bool))
    ensures
        (r.0 as nat, r.1) == plot_room(width, value@.len(), range@.len()),
{
    let avail: usize = (width as usize).saturating_sub(2);
    let v: usize = value.unicode_len();
    let inline: usize = v.saturating_add(range.unicode_len()).saturating_add(5);
    if inline < avail && avail - inline > 8 {
        let room: usize = avail - inline;
        (
            if room < 64 {
                room
            } else {
                64
            },
            false,
        )
    } else {
        let rest: usize = avail.saturating_sub(v.saturating_add(4));
        (
            if rest < 8 {
                8
            } else if rest > 64 {
                64
            } else {
                rest
            },
            true,
        )
    }
}

/// The range of a plot, in words. It is what makes the shape readable: the bars are
/// scaled to it.
pub open spec fn range_words(min: Seq<char>, max: Seq<char>, count: nat) -> Seq<char> {
    "min "@ + min + "  max "@ + max + "  n "@ + decimal(count)
}

/// The range of a plot, in words.
pub fn plot_range(min: &str, max: &str, count: usize) -> (s: String)
    ensures
        s@ == range_words(min@, max@, count as nat),
{
    let n = decimal_text(count as u64);
    let left = cat4("min ", min, "  max ", max);
    let s = cat3(left.as_str(), "  n ", n.as_str());
    assert(s@ =~= range_words(min@, max@, count as nat));
    s
}

/// The lines of a plot of so many values.
pub open spec fn series_lines(p: PlotModel, count: nat, name: Seq<char>, width: u16) -> Seq<
    Seq<SpanModel>,
> {
    let range = range_words(p.min, p.max, count);
    let bars = seq![
        span("  "@, plain()),
        span(p.spark, inked(Color::Cyan)),
        span("  "@, plain()),
        span(p.value, strong(Color::White)),
    ];
    let heading = section_line("─ "@ + name + " ─"@);
    if plot_room(width, p.value.len(), range.len()).1 {
        seq![heading, bars, one("  "@ + range, inked(Color::DarkGray)), blank()]
    } else {
        seq![heading, bars.push(span("   "@ + range, inked(Color::DarkGray))), blank()]
    }
}

/// The lines of the plotted field of a key, above its payload: it is the reason the
/// pane is open when someone watches a value move.
pub open spec fn plot_lines(m: AppModel, key: Seq<char>, width: u16, plot: Option<PlotModel>) -> Seq<
    Seq<SpanModel>,
> {
    if m.plot_field.dom().contains(key) && m.feed.history.rings.dom().contains(key) {
        let name = step_name(pieces(m.plot_field[key], '/').last());
        let count = series(m.feed.history.rings[key], m.plot_field[key]).len();
        if plot is Some && count > 0 {
            series_lines(plot->0, count, name, width)
        } else {
            seq![
                section_line("─ "@ + name + " — not present in the history held ─"@),
                blank(),
            ]
        }
    } else {
        Seq::empty()
    }
}

fn put_series(v: &mut Vec<Line>, p: &PlotView, count: usize, name: &str, width: u16)
    ensures
        lines_of(final(v)@) == lines_of(old(v)@) + series_lines(p@, count as nat, name@, width),
{
    let ghost start = lines_of(v@);
    let range = plot_range(p.min.as_str(), p.max.as_str(), count);
    let (_, range_below) = plot_layout(width, p.value.as_str(), range.as_str());
    let heading = cat3("─ ", name, " ─");
    put(v, Line::one(heading.as_str(), Style::dim(Color::Gray)));
    let mut bars = Line::three(
        Span::of("  ", Style::plain()),
        Span::of(p.spark.as_str(), Style::fg(Color::Cyan)),
        Span::of("  ", Style::plain()),
    );
    bars.add(Span::of(p.value.as_str(), Style::bold(Color::White)));
    let ghost plain_bars = seq![
        span("  "@, plain()),
        span(p@.spark, inked(Color::Cyan)),
        span("  "@, plain()),
        span(p@.value, strong(Color::White)),
    ];
    assert(bars@ =~= plain_bars);
    if range_below {
        put(v, bars);
        let words = cat("  ", range.as_str());
        put(v, Line::one(words.as_str(), Style::fg(Color::DarkGray)));
    } else {
        let words = cat("   ", range.as_str());
        bars.add(Span::owned(words, Style::fg(Color::DarkGray)));
        put(v, bars);
    }
    put(v, Line::empty());
    assert(lines_of(v@) =~= start + series_lines(p@, count as nat, name@, width));
}

impl App {
    fn put_plot(&self, v: &mut Vec<Line>, key: &str, width: u16, plot: &Option<PlotView>)
        ensures
            lines_of(final(v)@) == lines_of(old(v)@) + plot_lines(
                self@,
                key@,
                width,
                plot_view(*plot),
            ),
    {
        let ghost start = lines_of(v@);
        assert(start + Seq::<Seq<SpanModel>>::empty() =~= start);
        let history = match self.feed.history.get(key) {
            Some(h) => h,
            None => {
                return;
            },
        };
        if let Some(pointer) = self.plot_field.get(key) {
            assert(self@.plot_field[key@] == pointer@);
            let name = pointer_label(pointer.as_str());
            let found = series_for(history, pointer.as_str());
            assert(number_models(found@).len() == found@.len());
            if let Some(p) = plot {
                if found.len() > 0 {
                    put_series(v, p, found.len(), name.as_str(), width);
                    return;
                }
            }
            let words = cat3("─ ", name.as_str(), " — not present in the history held ─");
            put(v, Line::one(words.as_str(), Style::dim(Color::Gray)));
            put(v, Line::empty());
            assert(lines_of(v@) =~= start + plot_lines(self@, key@, width, plot_view(*plot)));
        }
    }
}

// ---- the latest payload ----

/// The style of a line that changed, or did not. What stayed is dimmed rather than
/// what changed brightened: on twenty fields of which one moves, pushing the others
/// back is what makes the one readable.
pub open spec fn style_of(tag: DiffTag) -> Style {
    match tag {
        DiffTag::Changed => strong(Color::Yellow),
        DiffTag::Added => inked(Color::Green),
        DiffTag::Removed => inked(Color::Red),
        DiffTag::Same => inked(Color::Gray),
    }
}

/// The style of a line that changed, or did not.
pub fn diff_style(tag: DiffTag) -> (s: Style)
    ensures
        s == style_of(tag),
{
    match tag {
        DiffTag::Changed => Style::bold(Color::Yellow),
        DiffTag::Added => Style::fg(Color::Green),
        DiffTag::Removed => Style::fg(Color::Red),
        DiffTag::Same => Style::fg(Color::Gray),
    }
}

/// A line of a document, indented and styled.
pub open spec fn document_line(l: LineModel) -> Seq<SpanModel> {
    one("  "@ + spread(' ', 2 * l.indent) + l.text, style_of(l.tag))
}

/// What a payload is compared with: the message before, where comparing is on.
pub open spec fn baseline(m: AppModel, key: Seq<char>) -> Option<JsonModel> {
    if m.diff_enabled && m.feed.history.rings.dom().contains(key)
        && m.feed.history.rings[key].len() > 1 {
        Some(m.feed.history.rings[key][1].view)
    } else {
        None
    }
}

/// The heading of the latest payload.
pub open spec fn latest_heading(diff_enabled: bool, has_previous: bool) -> Seq<char> {
    if !diff_enabled {
        "─ latest (D to diff) ─"@
    } else if has_previous {
        "─ latest · changes vs previous ─"@
    } else {
        "─ latest (no previous message yet) ─"@
    }
}

/// The lines of an entry, marked against an older document.
pub open spec fn entry_lines(e: EntryModel, prev: Option<JsonModel>) -> Seq<Seq<SpanModel>> {
    (if e.truncated {
        seq![
            one(
                "  (showing first "@ + decimal(PAYLOAD_CAP_BYTES as nat) + " of "@ + decimal(
                    e.raw_len as nat,
                ) + " bytes)"@,
                inked(Color::DarkGray),
            ),
        ]
    } else {
        Seq::empty()
    }) + doc_lines(e.view, prev, prev is Some, 0, None).map_values(
        |l: LineModel| document_line(l),
    )
}

/// The lines of the latest payload of a key.
pub open spec fn latest_lines(m: AppModel, key: Seq<char>) -> Seq<Seq<SpanModel>> {
    let rings = m.feed.history.rings;
    seq![section_line(latest_heading(m.diff_enabled, baseline(m, key) is Some))] + (
    if rings.dom().contains(key) && rings[key].len() > 0 {
        entry_lines(rings[key][0], baseline(m, key))
    } else {
        seq![one("  (no payload received yet)"@, inked(Color::DarkGray))]
    })
}

fn put_document(v: &mut Vec<Line>, doc: &Vec<TaggedLine>)
    ensures
        lines_of(final(v)@) == lines_of(old(v)@) + line_models(doc@).map_values(
            |l: LineModel| document_line(l),
        ),
{
    let ghost start = lines_of(v@);
    let ghost all = line_models(doc@).map_values(|l: LineModel| document_line(l));
    let mut i: usize = 0;
    assert(start + all.take(0) =~= start);
    while i < doc.len()
        invariant
            i <= doc.len(),
            all == line_models(doc@).map_values(|l: LineModel| document_line(l)),
            lines_of(v@) == start + all.take(i as int),
        decreases doc.len() - i,
    {
        let tl = &doc[i];
        assert(line_models(doc@)[i as int] == tl@);
        let indent: usize = tl.indent as usize * 2;
        let spaces = crate::text::repeated(' ', indent);
        let words = cat3("  ", spaces.as_str(), tl.text.as_str());
        assert(words@ =~= "  "@ + spread(' ', 2 * tl@.indent) + tl@.text);
        put(v, Line::one(words.as_str(), diff_style(tl.tag)));
        assert(lines_of(v@) =~= start + all.take(i + 1));
        i = i + 1;
    }
    assert(all.take(all.len() as int) =~= all);
}

fn put_entry(v: &mut Vec<Line>, e: &HistoryEntry, prev: Option<&Json>)
    ensures
        lines_of(final(v)@) == lines_of(old(v)@) + entry_lines(e@, crate::diff::json_view(prev)),
{
    let ghost start = lines_of(v@);
    if e.truncated {
        let cap = decimal_text(PAYLOAD_CAP_BYTES as u64);
        let all = decimal_text(e.raw_len as u64);
        let left = cat4("  (showing first ", cap.as_str(), " of ", all.as_str());
        let words = cat(left.as_str(), " bytes)");
        assert(words@ =~= "  (showing first "@ + decimal(PAYLOAD_CAP_BYTES as nat) + " of "@
            + decimal(e@.raw_len as nat) + " bytes)"@);
        put(v, Line::one(words.as_str(), Style::fg(Color::DarkGray)));
    }
    let doc = render(&e.view, prev);
    put_document(v, &doc);
    assert(lines_of(v@) =~= start + entry_lines(e@, crate::diff::json_view(prev)));
}

impl App {
    fn put_latest(&self, v: &mut Vec<Line>, key: &str)
        ensures
            lines_of(final(v)@) == lines_of(old(v)@) + latest_lines(self@, key@),
    {
        let ghost start = lines_of(v@);
        let history = self.feed.history.get(key);
        let previous: Option<&Json> = if self.diff_enabled {
            match history {
                Some(h) => match h.previous() {
                    Some(e) => Some(&e.view),
                    None => None,
                },
                None => None,
            }
        } else {
            None
        };
        assert(crate::diff::json_view(previous) == baseline(self@, key@));
        let heading = if !self.diff_enabled {
            "─ latest (D to diff) ─"
        } else if previous.is_some() {
            "─ latest · changes vs previous ─"
        } else {
            "─ latest (no previous message yet) ─"
        };
        put(v, Line::one(heading, Style::dim(Color::Gray)));
        let latest = match history {
            Some(h) => h.latest(),
            None => None,
        };
        match latest {
            Some(entry) => put_entry(v, entry, previous),
            None => put(
                v,
                Line::one("  (no payload received yet)", Style::fg(Color::DarkGray)),
            ),
        }
        assert(lines_of(v@) =~= start + latest_lines(self@, key@));
    }
}

// ---- the attachment and the history ----

/// The lines of the attachment of the latest message. It is not compared: it carries
/// ids that change on every message by design.
pub open spec fn attachment_lines(m: AppModel, key: Seq<char>) -> Seq<Seq<SpanModel>> {
    if m.feed.latest.dom().contains(key) && m.feed.latest[key].message.attachment is Some {
        let words = crate::text::lines_of((m.feed.latest[key].message.attachment->0).pretty);
        seq![one("  attachment:"@, inked(Color::Magenta))] + words.map_values(
            |l: Seq<char>| one("    "@ + l, inked(Color::Magenta)),
        )
    } else {
        Seq::empty()
    }
}

/// A payload on one line, cut to a length.
pub open spec fn snippet_of(s: Seq<char>, max: nat) -> Seq<char> {
    let line = spaced(words(s));
    if line.len() > max {
        head_of(line, left_over(max, 1)) + "…"@
    } else {
        line
    }
}

/// A payload on one line, cut to a length.
pub fn snippet(s: &str, max: usize) -> (r: String)
    ensures
        r@ == snippet_of(s@, max as nat),
{
    let parts = split_words(s);
    let line = join_spaced(&parts);
    if line.as_str().unicode_len() > max {
        let cut = head(line.as_str(), max.saturating_sub(1));
        cat(cut.as_str(), "…")
    } else {
        line
    }
}

/// The time of something that may have none.
pub open spec fn time_words(t: Option<Seq<char>>) -> Seq<char> {
    shown_timestamp(
        match t {
            Some(t) => t,
            None => Seq::empty(),
        },
    )
}

/// The line of an entry of the history.
pub open spec fn history_line(e: EntryModel) -> Seq<SpanModel> {
    seq![
        span(time_words(e.timestamp) + "  "@, inked(Color::DarkGray)),
        span(snippet_of(compact(e.view), 60), inked(Color::White)),
    ]
}

/// The heading of the history.
pub open spec fn history_heading(held: nat, paused: bool) -> Seq<char> {
    "─ history · "@ + decimal(held) + (if paused {
        " held · PAUSED (space=resume) ─"@
    } else {
        " held (space=pause) ─"@
    })
}

/// How many messages are held of a key.
pub open spec fn held_of(feed: FeedModel, key: Seq<char>) -> nat {
    if feed.history.rings.dom().contains(key) {
        feed.history.rings[key].len()
    } else {
        0
    }
}

/// The lines of the history of a key.
pub open spec fn history_lines(m: AppModel, key: Seq<char>) -> Seq<Seq<SpanModel>> {
    seq![
        blank(),
        section_line(history_heading(held_of(m.feed, key), m.feed.history_paused)),
    ] + (if m.feed.history.rings.dom().contains(key) {
        m.feed.history.rings[key].map_values(|e: EntryModel| history_line(e))
    } else {
        seq![one("  (no messages buffered for this key)"@, inked(Color::DarkGray))]
    })
}

/// The time of something that may have none.
fn format_time(t: &Option<String>) -> (s: String)
    ensures
        s@ == time_words(string_view(*t)),
{
    proof {
        reveal_strlit("");
        assert(""@ =~= Seq::<char>::empty());
    }
    match t {
        Some(t) => format_stream_timestamp(t.as_str()),
        None => format_stream_timestamp(""),
    }
}

fn put_history(v: &mut Vec<Line>, h: &KeyHistory)
    ensures
        lines_of(final(v)@) == lines_of(old(v)@) + h@.map_values(
            |e: EntryModel| history_line(e),
        ),
{
    let ghost start = lines_of(v@);
    let ghost all = h@.map_values(|e: EntryModel| history_line(e));
    let n: usize = h.len();
    let mut i: usize = 0;
    assert(start + all.take(0) =~= start);
    while i < n
        invariant
            i <= n,
            n == h@.len(),
            all == h@.map_values(|e: EntryModel| history_line(e)),
            lines_of(v@) == start + all.take(i as int),
        decreases n - i,
    {
        if let Some(e) = h.entry(i) {
            let ts = format_time(&e.timestamp);
            let time = cat(ts.as_str(), "  ");
            let flat = e.view.compact_text();
            put(
                v,
                Line::two(
                    Span::owned(time, Style::fg(Color::DarkGray)),
                    Span::owned(snippet(flat.as_str(), 60), Style::fg(Color::White)),
                ),
            );
        }
        assert(lines_of(v@) =~= start + all.take(i + 1));
        i = i + 1;
    }
    assert(all.take(all.len() as int) =~= all);
}

fn put_indented(v: &mut Vec<Line>, rows: &Vec<String>)
    ensures
        lines_of(final(v)@) == lines_of(old(v)@) + texts(rows@).map_values(
            |l: Seq<char>| one("    "@ + l, inked(Color::Magenta)),
        ),
{
    let ghost start = lines_of(v@);
    let ghost all = texts(rows@).map_values(
        |l: Seq<char>| one("    "@ + l, inked(Color::Magenta)),
    );
    let mut i: usize = 0;
    assert(start + all.take(0) =~= start);
    while i < rows.len()
        invariant
            i <= rows.len(),
            all == texts(rows@).map_values(
                |l: Seq<char>| one("    "@ + l, inked(Color::Magenta)),
            ),
            lines_of(v@) == start + all.take(i as int),
        decreases rows.len() - i,
    {
        assert(texts(rows@)[i as int] == rows@[i as int]@);
        let words = cat("    ", rows[i].as_str());
        put(v, Line::one(words.as_str(), Style::fg(Color::Magenta)));
        assert(lines_of(v@) =~= start + all.take(i + 1));
        i = i + 1;
    }
    assert(all.take(all.len() as int) =~= all);
}

impl App {
    fn put_attachment(&self, v: &mut Vec<Line>, key: &str)
        ensures
            lines_of(final(v)@) == lines_of(old(v)@) + attachment_lines(self@, key@),
    {
        let ghost start = lines_of(v@);
        assert(start + Seq::<Seq<SpanModel>>::empty() =~= start);
        if let Some(l) = self.feed.latest.get(key) {
            assert(l@ == self@.feed.latest[key@]);
            if let Some(att) = &l.message.attachment {
                assert(l@.message.attachment == Some(att@));
                put(v, Line::one("  attachment:", Style::fg(Color::Magenta)));
                let rows = split_lines(att.pretty.as_str());
                put_indented(v, &rows);
                assert(lines_of(v@) =~= start + attachment_lines(self@, key@));
            }
        }
    }

    fn put_past(&self, v: &mut Vec<Line>, key: &str)
        ensures
            lines_of(final(v)@) == lines_of(old(v)@) + history_lines(self@, key@),
    {
        let ghost start = lines_of(v@);
        let history = self.feed.history.get(key);
        let held: usize = match history {
            Some(h) => h.len(),
            None => 0,
        };
        let n = decimal_text(held as u64);
        let heading = cat3(
            "─ history · ",
            n.as_str(),
            if self.feed.history_paused {
                " held · PAUSED (space=resume) ─"
            } else {
                " held (space=pause) ─"
            },
        );
        put(v, Line::empty());
        put(v, Line::one(heading.as_str(), Style::dim(Color::Gray)));
        match history {
            Some(h) => put_history(v, h),
            None => put(
                v,
                Line::one("  (no messages buffered for this key)", Style::fg(Color::DarkGray)),
            ),
        }
        assert(lines_of(v@) =~= start + history_lines(self@, key@));
    }

    /// The body of a key in live mode: its plot, its latest payload and its history.
    pub fn live_body(&self, key: &str, width: u16, plot: &Option<PlotView>) -> (v: Vec<Line>)
        ensures
            lines_of(v@) == live_lines(self@, key@, width, plot_view(*plot)),
    {
        let mut v = no_lines();
        self.put_plot(&mut v, key, width, plot);
        self.put_latest(&mut v, key);
        self.put_attachment(&mut v, key);
        self.put_past(&mut v, key);
        assert(lines_of(v@) =~= live_lines(self@, key@, width, plot_view(*plot)));
        v
    }
}

/// The body of a key in live mode.
pub open spec fn live_lines(m: AppModel, key: Seq<char>, width: u16, plot: Option<PlotModel>) -> Seq<
    Seq<SpanModel>,
> {
    plot_lines(m, key, width, plot) + latest_lines(m, key) + attachment_lines(m, key)
        + history_lines(m, key)
}

// ---- queries ----

/// Where a query stands, in words.
pub open spec fn status_line(s: StatusModel) -> Seq<SpanModel> {
    match s {
        StatusModel::Idle => one(
            "Idle — press Q to run a get on this key"@,
            inked(Color::DarkGray),
        ),
        StatusModel::Running => one("Running…"@, inked(Color::Yellow)),
        StatusModel::Done(n) => one(
            "Done — "@ + decimal(n) + " result(s)"@,
            inked(Color::Green),
        ),
        StatusModel::Error(e) => one("Error: "@ + e, inked(Color::Red)),
    }
}

/// The line of an answer.
pub open spec fn answer_line(msg: MessageModel) -> Seq<SpanModel> {
    let time = time_words(msg.timestamp);
    seq![
        span(msg.key_expr, strong(Color::Cyan)),
        span("  "@, plain()),
        span(snippet_of(msg.payload.text, 60), inked(Color::White)),
    ] + (if time.len() > 0 {
        seq![span("  "@ + time, inked(Color::DarkGray))]
    } else {
        Seq::empty()
    })
}

/// The body of a key in query mode.
pub open spec fn query_lines(q: QueryModel) -> Seq<Seq<SpanModel>> {
    seq![status_line(q.query_status), blank(), section_line("─ results ─"@)] + (
    if q.query_results.len() == 0 {
        seq![one("  (no results)"@, inked(Color::DarkGray))]
    } else {
        q.query_results.map_values(|m: MessageModel| answer_line(m))
    })
}

fn answer_row(msg: &ZenohMessage) -> (l: Line)
    ensures
        l@ == answer_line(msg@),
{
    let ts = format_time(&msg.timestamp);
    let mut l = Line::three(
        Span::of(msg.key_expr.as_str(), Style::bold(Color::Cyan)),
        Span::of("  ", Style::plain()),
        Span::owned(snippet(msg.payload.text.as_str(), 60), Style::fg(Color::White)),
    );
    if !ts.as_str().is_empty() {
        let time = cat("  ", ts.as_str());
        l.add(Span::owned(time, Style::fg(Color::DarkGray)));
    }
    assert(l@ =~= answer_line(msg@));
    l
}

impl App {
    fn status_row(&self) -> (l: Line)
        ensures
            l@ == status_line(self@.query.query_status),
    {
        match &self.query.query_status {
            QueryStatus::Idle => Line::one(
                "Idle — press Q to run a get on this key",
                Style::fg(Color::DarkGray),
            ),
            QueryStatus::Running => Line::one("Running…", Style::fg(Color::Yellow)),
            QueryStatus::Done(n) => {
                let d = decimal_text(*n as u64);
                let words = cat3("Done — ", d.as_str(), " result(s)");
                Line::one(words.as_str(), Style::fg(Color::Green))
            },
            QueryStatus::Error(e) => {
                let words = cat("Error: ", e.as_str());
                Line::one(words.as_str(), Style::fg(Color::Red))
            },
        }
    }

    /// The body of a key in query mode: where the query stands, and its answers.
    pub fn query_body(&self) -> (v: Vec<Line>)
        ensures
            lines_of(v@) == query_lines(self@.query),
    {
        let mut v = no_lines();
        put(&mut v, self.status_row());
        put(&mut v, Line::empty());
        put(&mut v, Line::one("─ results ─", Style::dim(Color::Gray)));
        let ghost head = lines_of(v@);
        let ghost results = self@.query.query_results;
        assert(results.len() == self.query.query_results@.len());
        if self.query.query_results.len() == 0 {
            put(&mut v, Line::one("  (no results)", Style::fg(Color::DarkGray)));
        } else {
            let ghost all = results.map_values(|m: MessageModel| answer_line(m));
            let mut i: usize = 0;
            assert(head + all.take(0) =~= head);
            while i < self.query.query_results.len()
                invariant
                    i <= self.query.query_results.len(),
                    results == self@.query.query_results,
                    all == results.map_values(|m: MessageModel| answer_line(m)),
                    lines_of(v@) == head + all.take(i as int),
                decreases self.query.query_results.len() - i,
            {
                assert(results[i as int] == self.query.query_results@[i as int]@);
                put(&mut v, answer_row(&self.query.query_results[i]));
                assert(lines_of(v@) =~= head + all.take(i + 1));
                i = i + 1;
            }
            assert(all.take(all.len() as int) =~= all);
        }
        assert(lines_of(v@) =~= query_lines(self@.query));
        v
    }
}

// ---- the header of a key ----

/// What a loaded contract says of a key.
#[derive(Debug)]
pub struct Enrichment {
    pub declared: bool,
    pub encoding_matches: Option<bool>,
    pub encoding_expected: Option<String>,
    pub description: Option<String>,
}

/// What a contract says of a key, as a mathematical value.
pub struct EnrichmentModel {
    pub declared: bool,
    pub encoding_matches: Option<bool>,
    pub encoding_expected: Option<Seq<char>>,
    pub description: Option<Seq<char>>,
}

impl View for Enrichment {
    type V = EnrichmentModel;

    open spec fn view(&self) -> EnrichmentModel {
        EnrichmentModel {
            declared: self.declared,
            encoding_matches: self.encoding_matches,
            encoding_expected: string_view(self.encoding_expected),
            description: string_view(self.description),
        }
    }
}

/// The view of what an optional contract says.
pub open spec fn enrichment_view(e: Option<Enrichment>) -> Option<EnrichmentModel> {
    match e {
        Some(e) => Some(e@),
        None => None,
    }
}

/// The badge of a key: whether a contract declares it. An encoding that the contract
/// does not expect is called out.
pub open spec fn contract_line(e: EnrichmentModel, encoding: Seq<char>) -> Seq<SpanModel> {
    if !e.declared {
        one("undeclared"@, inked(Color::DarkGray))
    } else {
        seq![span("contract ✓"@, inked(Color::Green))] + (if e.encoding_matches == Some(false) {
            seq![
                span(
                    "  encoding: expected "@ + (match e.encoding_expected {
                        Some(x) => x,
                        None => "?"@,
                    }) + ", got "@ + (if encoding.len() == 0 {
                        "none"@
                    } else {
                        encoding
                    }),
                    inked(Color::Yellow),
                ),
            ]
        } else {
            Seq::empty()
        }) + (match e.description {
            Some(d) => seq![span("  "@ + d, inked(Color::DarkGray))],
            None => Seq::empty(),
        })
    }
}

/// The encoding of the latest message of a key, nothing where there is none.
pub open spec fn encoding_of(feed: FeedModel, key: Seq<char>) -> Seq<char> {
    if feed.latest.dom().contains(key) {
        feed.latest[key].message.encoding
    } else {
        Seq::empty()
    }
}

/// How many fields moved since the message before, in words.
pub open spec fn moved_words(m: AppModel, key: Seq<char>) -> Seq<char> {
    let rings = m.feed.history.rings;
    if m.diff_enabled && rings.dom().contains(key) && rings[key].len() > 1 {
        let n = changes(
            rings[key][0].view,
            Some(rings[key][1].view),
            Seq::empty(),
            Map::empty(),
        ).dom().len();
        if n == 0 {
            " · unchanged"@
        } else if n == 1 {
            " · 1 field changed"@
        } else {
            " · "@ + decimal(n) + " fields changed"@
        }
    } else {
        ""@
    }
}

/// For how long a key has been quiet, in words: a stopped publisher is usually what
/// is being looked for.
pub open spec fn silent_words(feed: FeedModel, key: Seq<char>, now: u64) -> Seq<char> {
    if feed.freshness(key, now) == KeyFreshness::Idle {
        match feed.idle(key, now) {
            Some(secs) => " · silent "@ + idle_words(secs),
            None => ""@,
        }
    } else {
        ""@
    }
}

/// The first line of the detail of a key; `hz` is its rate in words.
pub open spec fn stats_words(m: AppModel, key: Seq<char>, hz: Seq<char>, now: u64) -> Seq<char> {
    hz + " Hz · "@ + bandwidth(crate::app::feed::window_at(m.feed.rates, key).latest()) + (
    if encoding_of(m.feed, key).len() > 0 {
        " · "@ + encoding_of(m.feed, key)
    } else {
        ""@
    }) + " · "@ + decimal(held_of(m.feed, key)) + " held"@ + moved_words(m, key) + silent_words(
        m.feed,
        key,
        now,
    )
}

/// Which mode the detail is in.
pub open spec fn mode_line(mode: DetailMode) -> Seq<SpanModel> {
    seq![
        span(
            "[L]ive"@,
            if mode == DetailMode::Live {
                chosen()
            } else {
                inked(Color::DarkGray)
            },
        ),
        span("  "@, plain()),
        span(
            "[Q]uery"@,
            if mode == DetailMode::Query {
                chosen()
            } else {
                inked(Color::DarkGray)
            },
        ),
    ]
}

/// The fixed lines above the body of a key.
pub open spec fn heading_lines(
    m: AppModel,
    key: Seq<char>,
    hz: Seq<char>,
    contract: Option<EnrichmentModel>,
    now: u64,
) -> Seq<Seq<SpanModel>> {
    seq![one(stats_words(m, key, hz, now), inked(Color::Gray))] + (match contract {
        Some(e) => seq![contract_line(e, encoding_of(m.feed, key))],
        None => Seq::empty(),
    }) + seq![mode_line(m.detail_mode)]
}

impl App {
    /// The encoding of the latest message of a key.
    fn encoding(&self, key: &str) -> (s: String)
        ensures
            s@ == encoding_of(self@.feed, key@),
    {
        match self.feed.latest.get(key) {
            Some(l) => {
                assert(l@ == self@.feed.latest[key@]);
                l.message.encoding.clone()
            },
            None => String::new(),
        }
    }

    fn moved_words(&self, key: &str) -> (s: String)
        ensures
            s@ == moved_words(self@, key@),
    {
        if self.diff_enabled {
            if let Some(h) = self.feed.history.get(key) {
                if let (Some(cur), Some(prev)) = (h.latest(), h.previous()) {
                    let changed = changed_paths(&cur.view, &prev.view);
                    let n: usize = changed.len();
                    if n == 0 {
                        return " · unchanged".to_owned();
                    }
                    if n == 1 {
                        return " · 1 field changed".to_owned();
                    }
                    let d = decimal_text(n as u64);
                    return cat3(" · ", d.as_str(), " fields changed");
                }
            }
        }
        "".to_owned()
    }

    fn silent_words(&self, key: &str, now: u64) -> (s: String)
        ensures
            s@ == silent_words(self@.feed, key@, now),
    {
        if self.feed.key_freshness(key, now) == KeyFreshness::Idle {
            if let Some(secs) = self.feed.idle_secs(key, now) {
                let words = format_idle(secs);
                return cat(" · silent ", words.as_str());
            }
        }
        "".to_owned()
    }

    fn stats_words(&self, key: &str, hz: &str, now: u64) -> (s: String)
        ensures
            s@ == stats_words(self@, key@, hz@, now),
    {
        let bytes = format_bytes_per_sec(self.feed.topic_bytes_per_sec(key));
        let encoding = self.encoding(key);
        let left = cat3(hz, " Hz · ", bytes.as_str());
        let with_encoding = if encoding.as_str().is_empty() {
            cat(left.as_str(), "")
        } else {
            cat3(left.as_str(), " · ", encoding.as_str())
        };
        let held_n: usize = match self.feed.history.get(key) {
            Some(h) => h.len(),
            None => 0,
        };
        let held = decimal_text(held_n as u64);
        let moved = self.moved_words(key);
        let silent = self.silent_words(key, now);
        let a = cat4(with_encoding.as_str(), " · ", held.as_str(), " held");
        let s = cat3(a.as_str(), moved.as_str(), silent.as_str());
        assert(s@ =~= stats_words(self@, key@, hz@, now));
        s
    }

    fn contract_badge(&self, e: &Enrichment, key: &str) -> (l: Line)
        ensures
            l@ == contract_line(e@, encoding_of(self@.feed, key@)),
    {
        if !e.declared {
            return Line::one("undeclared", Style::fg(Color::DarkGray));
        }
        let mut l = Line::one("contract ✓", Style::fg(Color::Green));
        let mismatch = match e.encoding_matches {
            Some(m) => !m,
            None => false,
        };
        if mismatch {
            let encoding = self.encoding(key);
            let expected = match &e.encoding_expected {
                Some(x) => x.clone(),
                None => "?".to_owned(),
            };
            let words = cat4(
                "  encoding: expected ",
                expected.as_str(),
                ", got ",
                if encoding.as_str().is_empty() {
                    "none"
                } else {
                    encoding.as_str()
                },
            );
            l.add(Span::owned(words, Style::fg(Color::Yellow)));
        }
        if let Some(d) = &e.description {
            let words = cat("  ", d.as_str());
            l.add(Span::owned(words, Style::fg(Color::DarkGray)));
        }
        assert(l@ =~= contract_line(e@, encoding_of(self@.feed, key@)));
        l
    }

    fn heading_text(&self, key: &str, hz: &str, contract: &Option<Enrichment>, now: u64) -> (v: Vec<
        Line,
    >)
        ensures
            lines_of(v@) == heading_lines(self@, key@, hz@, enrichment_view(*contract), now),
    {
        let mut v = no_lines();
        let stats = self.stats_words(key, hz, now);
        put(&mut v, Line::one(stats.as_str(), Style::fg(Color::Gray)));
        if let Some(e) = contract {
            put(&mut v, self.contract_badge(e, key));
        }
        let live = self.detail_mode == DetailMode::Live;
        put(
            &mut v,
            Line::three(
                Span::of(
                    "[L]ive",
                    if live {
                        Style::selected()
                    } else {
                        Style::fg(Color::DarkGray)
                    },
                ),
                Span::of("  ", Style::plain()),
                Span::of(
                    "[Q]uery",
                    if live {
                        Style::fg(Color::DarkGray)
                    } else {
                        Style::selected()
                    },
                ),
            ),
        );
        assert(lines_of(v@) =~= heading_lines(
            self@,
            key@,
            hz@,
            enrichment_view(*contract),
            now,
        ));
        v
    }
}

// ---- the pane ----

/// What the detail shows that is worked out elsewhere: rates, a plot and a contract in
/// words.
pub struct DetailTexts {
    pub rates: Rates,
    /// The total rate of the selected branch.
    pub subtree_hz: String,
    pub plot: Option<PlotView>,
    pub contract: Option<Enrichment>,
}

/// What is worked out elsewhere, as a mathematical value.
pub struct DetailModel {
    pub rates: RatesModel,
    pub subtree_hz: Seq<char>,
    pub plot: Option<PlotModel>,
    pub contract: Option<EnrichmentModel>,
}

impl View for DetailTexts {
    type V = DetailModel;

    open spec fn view(&self) -> DetailModel {
        DetailModel {
            rates: self.rates@,
            subtree_hz: self.subtree_hz@,
            plot: plot_view(self.plot),
            contract: enrichment_view(self.contract),
        }
    }
}

impl AppModel {
    /// The body of the detail of a key.
    pub open spec fn body_lines(self, key: Seq<char>, width: u16, plot: Option<PlotModel>) -> Seq<
        Seq<SpanModel>,
    > {
        match self.detail_mode {
            DetailMode::Live => live_lines(self, key, width, plot),
            DetailMode::Query => query_lines(self.query),
        }
    }

    /// The detail of a key, with the areas of its heading and its body.
    pub open spec fn key_detail(
        self,
        key: Seq<char>,
        area: Rect,
        heading: Rect,
        body: Rect,
        t: DetailModel,
        now: u64,
    ) -> Seq<PaintModel> {
        let frame = block(area, " "@ + key + " "@, plain());
        if area.inside().height < 3 {
            seq![frame]
        } else {
            seq![
                frame,
                text(
                    heading,
                    heading_lines(
                        self,
                        key,
                        words_at(t.rates.hz, key, "0.0"@),
                        t.contract,
                        now,
                    ),
                ),
                scrolling(
                    body,
                    self.body_lines(key, body.width, t.plot),
                    self.pane.detail_scroll,
                ),
            ]
        }
    }

    /// The detail pane of the Traffic space, with the areas of the heading and the body
    /// of a key. A branch names a prefix, not a key, and gets a summary.
    pub open spec fn traffic_detail(
        self,
        area: Rect,
        heading: Rect,
        body: Rect,
        t: DetailModel,
        now: u64,
    ) -> Seq<PaintModel> {
        match self.pane.selected_row() {
            None => seq![
                block(area, " Detail "@, plain()),
                empty_paint(area.inside(), self.topics_reason()),
            ],
            Some(row) => if row.kind == RowKind::Leaf {
                self.key_detail(row.path, area, heading, body, t, now)
            } else {
                subtree_paints(self, row, t.rates, t.subtree_hz, area)
            },
        }
    }
}

impl App {
    fn render_key_detail(
        &self,
        key: &str,
        area: Rect,
        heading: Rect,
        body: Rect,
        t: &DetailTexts,
        now: u64,
    ) -> (v: Vec<Paint>)
        ensures
            paints_of(v@) == self@.key_detail(key@, area, heading, body, t@, now),
    {
        let mut v = nothing();
        let title = cat3(" ", key, " ");
        paint(&mut v, Paint::block(area, title.as_str(), Style::plain()));
        if area.inner().height < 3 {
            assert(paints_of(v@) =~= self@.key_detail(key@, area, heading, body, t@, now));
            return v;
        }
        let hz = words_for(&t.rates.hz, key, "0.0");
        paint(
            &mut v,
            Paint::text(heading, self.heading_text(key, hz.as_str(), &t.contract, now)),
        );
        let lines = match self.detail_mode {
            DetailMode::Live => self.live_body(key, body.width, &t.plot),
            DetailMode::Query => self.query_body(),
        };
        paint(&mut v, Paint::scrolling(body, lines, self.pane.detail_scroll));
        assert(paints_of(v@) =~= self@.key_detail(key@, area, heading, body, t@, now));
        v
    }

    /// The detail pane of the Traffic space, with the areas of the heading and the body
    /// of a key.
    pub fn render_traffic_detail(
        &self,
        area: Rect,
        heading: Rect,
        body: Rect,
        t: &DetailTexts,
        now: u64,
    ) -> (v: Vec<Paint>)
        ensures
            paints_of(v@) == self@.traffic_detail(area, heading, body, t@, now),
    {
        match self.pane.selected_row() {
            None => {
                let mut v = nothing();
                paint(&mut v, Paint::block(area, " Detail ", Style::plain()));
                paint(&mut v, render_empty_state(area.inner(), self.topics_empty_reason()));
                assert(paints_of(v@) =~= self@.traffic_detail(area, heading, body, t@, now));
                v
            },
            Some(row) => {
                if row.kind == RowKind::Leaf {
                    self.render_key_detail(row.path.as_str(), area, heading, body, t, now)
                } else {
                    self.render_subtree_summary(row, &t.rates, t.subtree_hz.as_str(), area)
                }
            },
        }
    }
}

/// A snippet is never longer than asked for, where anything is asked for.
pub proof fn law_a_snippet_keeps_to_its_length(s: Seq<char>, max: nat)
    requires
        max > 0,
    ensures
        snippet_of(s, max).len() <= max,
{
    reveal_strlit("…");
}

/// The bars of a plot never take less than a handful of cells nor more than a screen
/// can use, and where the range stands beside them all of it fits the width.
pub proof fn law_a_plot_fits_its_pane(width: u16, value: nat, range: nat)
    ensures
        8 <= plot_room(width, value, range).0 <= 64,
        !plot_room(width, value, range).1 ==> plot_room(width, value, range).0 + value + range + 5
            + 2 <= width,
{
}

} // verus!
