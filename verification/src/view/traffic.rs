//! The master pane of the Traffic space, and what stands beside it for a branch.
use vstd::prelude::*;

use crate::app::feed::{Feed, FeedModel, KeyFreshness};
use crate::app::rate::{bandwidth, faster, format_bytes_per_sec, Rate};
use crate::app::state::{App, AppModel};
use crate::app::tree_pane::PaneModel;
use crate::app::types::{less_two, Rect};
use crate::keyed::{ascending, lemma_ordered, ordered, KeyMap};
use crate::app::profiles::text_map;
use crate::text::{
    cat, cat3, cat4, decimal, decimal_text, pad_left, repeated, right_aligned, spread, text_lt,
    texts, to_chars,
};
use crate::tree::{row_models, RowKind, RowModel, TreeRow};
use crate::view::chrome::{empty_paint, render_empty_state};
use crate::view::fmt::{format_idle, idle_words};
use crate::view::layout::{scroll_offset, scrolled_past};
use crate::view::network::below;
use crate::view::popups::left_over;
use crate::view::style::{
    blank, block, inked, lines_of, no_lines, nothing, one, paint, paints_of, plain, put, scrolling,
    span, strong, Color, Line, Paint, PaintModel, Span, SpanModel, Style,
};

verus! {

/// A number of keys, in words.
pub open spec fn keys_words(n: nat) -> Seq<char> {
    if n == 1 {
        "1 key"@
    } else {
        decimal(n) + " keys"@
    }
}

/// A number of keys, in words.
pub fn plural_keys(n: usize) -> (s: String)
    ensures
        s@ == keys_words(n as nat),
{
    if n == 1 {
        "1 key".to_owned()
    } else {
        let d = decimal_text(n as u64);
        cat(d.as_str(), " keys")
    }
}

/// The glyph in front of a row.
pub open spec fn expander(kind: RowKind) -> Seq<char> {
    match kind {
        RowKind::Branch { expanded } => if expanded {
            "▾ "@
        } else {
            "▸ "@
        },
        _ => "  "@,
    }
}

/// The indent of a row and its glyph. The glyph column is always there, so that keys
/// and branches at one depth line up.
pub open spec fn prefix_of(row: RowModel) -> Seq<char> {
    spread(' ', 2 * row.depth as int) + expander(row.kind)
}

/// The indent of a row and its glyph.
pub fn row_prefix(row: &TreeRow) -> (s: String)
    ensures
        s@ == prefix_of(row@),
{
    let mut s = String::new();
    let mut i: usize = 0;
    assert(s@ =~= spread(' ', 0));
    while i < row.depth
        invariant
            i <= row.depth,
            s@ == spread(' ', 2 * i as int),
        decreases row.depth - i,
    {
        s.push(' ');
        s.push(' ');
        assert(s@ =~= spread(' ', 2 * (i + 1) as int));
        i = i + 1;
    }
    let glyph = match row.kind {
        RowKind::Branch { expanded } => if expanded {
            "▾ "
        } else {
            "▸ "
        },
        _ => "  ",
    };
    cat(s.as_str(), glyph)
}

/// What is said of a key where there is nothing about it.
pub open spec fn words_at(m: Map<Seq<char>, Seq<char>>, key: Seq<char>, none: Seq<char>) -> Seq<char> {
    if m.dom().contains(key) {
        m[key]
    } else {
        none
    }
}

/// What is said of a key where there is nothing about it.
pub fn words_for(m: &KeyMap<String>, key: &str, none: &str) -> (s: String)
    ensures
        s@ == words_at(text_map(m@), key@, none@),
{
    match m.get(key) {
        Some(t) => t.clone(),
        None => none.to_owned(),
    }
}

/// Whether messages arrive on a key.
pub open spec fn is_active(feed: FeedModel, key: Seq<char>) -> bool {
    feed.hz.dom().contains(key) && feed.hz[key].messages > 0
}

/// The rate column of a key, and its colour. A quiet key shows for how long it has
/// been quiet: "stopped" and "stopped an hour ago" are different findings.
pub open spec fn rate_column(feed: FeedModel, key: Seq<char>, hz: Seq<char>, now: u64) -> (
    Seq<char>,
    Color,
) {
    if is_active(feed, key) {
        (right_aligned(hz, 6) + " Hz"@, Color::Green)
    } else if feed.freshness(key, now) == KeyFreshness::Idle {
        (
            right_aligned(
                idle_words(
                    match feed.idle(key, now) {
                        Some(s) => s,
                        None => 0,
                    },
                ),
                6,
            ) + " "@,
            Color::DarkGray,
        )
    } else {
        ("      — "@, Color::DarkGray)
    }
}

/// What is shown of the rates, in words: the rate of each key, and its bandwidth as a
/// bar.
pub struct Rates {
    pub hz: KeyMap<String>,
    pub sparks: KeyMap<String>,
}

/// The rates in words, as a mathematical value.
pub struct RatesModel {
    pub hz: Map<Seq<char>, Seq<char>>,
    pub sparks: Map<Seq<char>, Seq<char>>,
}

impl View for Rates {
    type V = RatesModel;

    open spec fn view(&self) -> RatesModel {
        RatesModel { hz: text_map(self.hz@), sparks: text_map(self.sparks@) }
    }
}

/// Characters that the label of a row takes.
pub open spec fn label_len(row: RowModel) -> nat {
    prefix_of(row).len() + row.segment.len()
}

/// The longest label of the first `n` rows.
pub open spec fn longest(rows: Seq<RowModel>, n: nat) -> nat
    decreases n,
{
    if n == 0 {
        0
    } else {
        let before = longest(rows, (n - 1) as nat);
        if label_len(rows[n - 1]) > before {
            label_len(rows[n - 1])
        } else {
            before
        }
    }
}

/// How wide the label column is: as wide as the longest label, but never so wide that
/// the rates leave the pane.
pub open spec fn label_width(rows: Seq<RowModel>, width: u16) -> nat {
    let room = left_over(width as nat, 20);
    if longest(rows, rows.len()) < room {
        longest(rows, rows.len())
    } else {
        room
    }
}

/// The line of a row.
pub open spec fn row_line(
    row: RowModel,
    feed: FeedModel,
    rates: RatesModel,
    label_width: nat,
    now: u64,
) -> Seq<SpanModel> {
    let pad = left_over(label_width, label_len(row));
    match row.kind {
        RowKind::FoldSummary { hidden } => seq![
            span(prefix_of(row), plain()),
            span(
                "… "@ + decimal(hidden as nat) + " more — l to list, / to search"@,
                Style { italic: true, ..inked(Color::DarkGray) },
            ),
        ],
        RowKind::Branch { expanded } => seq![
            span(prefix_of(row), plain()),
            span(row.segment + "/"@, strong(Color::Cyan)),
            span(spread(' ', pad as int + 1), plain()),
            span(keys_words(row.key_count), inked(Color::DarkGray)),
        ],
        RowKind::Leaf => {
            let (words, color) = rate_column(
                feed,
                row.path,
                words_at(rates.hz, row.path, "0.0"@),
                now,
            );
            seq![
                span(prefix_of(row), plain()),
                span(
                    row.segment,
                    if feed.freshness(row.path, now) == KeyFreshness::Live {
                        inked(Color::White)
                    } else {
                        inked(Color::DarkGray)
                    },
                ),
                span(spread(' ', pad as int + 2), plain()),
                span(words, inked(color)),
                span(" "@, plain()),
                span(words_at(rates.sparks, row.path, ""@), inked(Color::Cyan)),
            ]
        },
    }
}

/// The lines of the visible rows.
pub open spec fn row_lines(pane: PaneModel, feed: FeedModel, rates: RatesModel, width: u16, now: u64) -> Seq<
    Seq<SpanModel>,
> {
    Seq::new(
        pane.rows.len(),
        |i: int| row_line(pane.rows[i], feed, rates, label_width(pane.rows, width), now),
    )
}

/// The title of the master pane: how many keys, and the filter.
pub open spec fn master_title(pane: PaneModel) -> Seq<char> {
    let keys = keys_words(pane.tree.keys().len());
    if pane.filtering {
        " Traffic — "@ + keys + " · /"@ + pane.filter + "_ "@
    } else if pane.filter.len() > 0 {
        " Traffic — "@ + keys + " · /"@ + pane.filter + " "@
    } else {
        " Traffic — "@ + keys + " "@
    }
}

/// Where an empty state stands inside the list.
pub open spec fn inset(area: Rect) -> Rect {
    Rect {
        x: if area.x + 2 > u16::MAX {
            u16::MAX
        } else {
            (area.x + 2) as u16
        },
        y: below(area.y),
        width: left_over(area.width as nat, 4) as u16,
        height: less_two(area.height),
    }
}

impl AppModel {
    /// The master pane of the Traffic space whose rows are up to date.
    pub open spec fn traffic_master(self, area: Rect, rates: RatesModel, now: u64) -> Seq<PaintModel> {
        let list = PaintModel::List {
            area,
            title: master_title(self.pane),
            items: row_lines(self.pane, self.feed, rates, area.width, now),
            selected: if self.pane.rows.len() == 0 {
                None
            } else {
                Some(crate::app::tree_pane::clamped(self.pane.selected, self.pane.rows.len()))
            },
        };
        if self.pane.rows.len() == 0 {
            seq![list, empty_paint(inset(area), self.topics_reason())]
        } else {
            seq![list]
        }
    }

    /// With the rows brought up to date, and the place of the list noted for the
    /// pointer.
    pub open spec fn traffic_drawn(self, area: Rect) -> AppModel {
        AppModel {
            pane: self.pane.refreshed(),
            list_rect: Some(area),
            list_first_item_row: below(area.y),
            list_scroll_offset: scrolled_past(
                self.pane.refreshed().selected as nat,
                less_two(area.height) as nat,
            ) as usize,
            ..self
        }
    }
}

/// Characters that the label of a row takes, as far as a number goes.
fn label_chars(prefix: &str, segment: &str) -> (n: usize)
    ensures
        n == prefix@.len() + segment@.len() || (n == usize::MAX && prefix@.len() + segment@.len()
            > usize::MAX),
{
    prefix.unicode_len().saturating_add(segment.unicode_len())
}

/// How wide the label column is.
fn measure_labels(rows: &Vec<TreeRow>, width: u16) -> (n: usize)
    ensures
        n == label_width(row_models(rows@), width),
        n <= u16::MAX,
{
    let room: usize = width.saturating_sub(20) as usize;
    let ghost all = row_models(rows@);
    let mut max: usize = 0;
    let mut i: usize = 0;
    while i < rows.len()
        invariant
            i <= rows.len(),
            all == row_models(rows@),
            max == longest(all, i as nat) || (max == usize::MAX && longest(all, i as nat)
                > usize::MAX),
        decreases rows.len() - i,
    {
        assert(all[i as int] == rows@[i as int]@);
        let prefix = row_prefix(&rows[i]);
        let n: usize = label_chars(prefix.as_str(), rows[i].segment.as_str());
        if n > max {
            max = n;
        }
        i = i + 1;
    }
    if max < room {
        max
    } else {
        room
    }
}

impl App {
    fn rate_column(&self, key: &str, hz: &str, now: u64) -> (r: (String, Color))
        ensures
            (r.0@, r.1) == rate_column(self@.feed, key@, hz@, now),
    {
        let active = match self.feed.hz.get(key) {
            Some(rate) => rate.messages > 0,
            None => false,
        };
        if active {
            let wide = pad_left(hz, 6);
            return (cat(wide.as_str(), " Hz"), Color::Green);
        }
        if self.feed.key_freshness(key, now) == KeyFreshness::Idle {
            let secs: u64 = match self.feed.idle_secs(key, now) {
                Some(s) => s,
                None => 0,
            };
            let words = format_idle(secs);
            let wide = pad_left(words.as_str(), 6);
            // Not a rate, so not the rate colour: a quiet key should not read as if it
            // were still publishing.
            return (cat(wide.as_str(), " "), Color::DarkGray);
        }
        ("      — ".to_owned(), Color::DarkGray)
    }

    fn leaf_row(&self, row: &TreeRow, rates: &Rates, label_width: usize, now: u64) -> (l: Line)
        requires
            row.kind == RowKind::Leaf,
            label_width <= u16::MAX,
        ensures
            l@ == row_line(row@, self@.feed, rates@, label_width as nat, now),
    {
        let path = row.path.as_str();
        let prefix = row_prefix(row);
        let used: usize = label_chars(prefix.as_str(), row.segment.as_str());
        let pad: usize = label_width.saturating_sub(used);
        let hz = words_for(&rates.hz, path, "0.0");
        let (words, color) = self.rate_column(path, hz.as_str(), now);
        let style = if self.feed.key_freshness(path, now) == KeyFreshness::Live {
            Style::fg(Color::White)
        } else {
            Style::fg(Color::DarkGray)
        };
        let spark = words_for(&rates.sparks, path, "");
        let mut l = Line::three(
            Span::owned(prefix, Style::plain()),
            Span::of(row.segment.as_str(), style),
            Span::owned(repeated(' ', pad + 2), Style::plain()),
        );
        l.add(Span::owned(words, Style::fg(color)));
        l.add(Span::of(" ", Style::plain()));
        l.add(Span::owned(spark, Style::fg(Color::Cyan)));
        assert(l@ =~= row_line(row@, self@.feed, rates@, label_width as nat, now));
        l
    }

    fn tree_row(&self, row: &TreeRow, rates: &Rates, label_width: usize, now: u64) -> (l: Line)
        requires
            label_width <= u16::MAX,
        ensures
            l@ == row_line(row@, self@.feed, rates@, label_width as nat, now),
    {
        match row.kind {
            RowKind::FoldSummary { hidden } => {
                let n = decimal_text(hidden as u64);
                let words = cat3("… ", n.as_str(), " more — l to list, / to search");
                let mut style = Style::fg(Color::DarkGray);
                style.italic = true;
                Line::two(
                    Span::owned(row_prefix(row), Style::plain()),
                    Span::owned(words, style),
                )
            },
            RowKind::Branch { expanded } => {
                let prefix = row_prefix(row);
                let used: usize = label_chars(prefix.as_str(), row.segment.as_str());
                let pad: usize = label_width.saturating_sub(used);
                let name = cat(row.segment.as_str(), "/");
                let mut l = Line::three(
                    Span::owned(prefix, Style::plain()),
                    Span::owned(name, Style::bold(Color::Cyan)),
                    // One less than for a key: the trailing slash took a column.
                    Span::owned(repeated(' ', pad + 1), Style::plain()),
                );
                l.add(Span::owned(plural_keys(row.key_count), Style::fg(Color::DarkGray)));
                assert(l@ =~= row_line(row@, self@.feed, rates@, label_width as nat, now));
                l
            },
            RowKind::Leaf => self.leaf_row(row, rates, label_width, now),
        }
    }

    fn tree_text(&self, rates: &Rates, width: u16, now: u64) -> (v: Vec<Line>)
        ensures
            lines_of(v@) == row_lines(self@.pane, self@.feed, rates@, width, now),
    {
        let rows = self.pane.tree_rows();
        let wide: usize = measure_labels(rows, width);
        let ghost all = row_lines(self@.pane, self@.feed, rates@, width, now);
        let mut v = no_lines();
        let mut i: usize = 0;
        assert(all.take(0) =~= Seq::empty());
        while i < rows.len()
            invariant
                i <= rows.len(),
                row_models(rows@) == self@.pane.rows,
                wide == label_width(self@.pane.rows, width),
                wide <= u16::MAX,
                all == row_lines(self@.pane, self@.feed, rates@, width, now),
                lines_of(v@) == all.take(i as int),
            decreases rows.len() - i,
        {
            assert(self@.pane.rows[i as int] == rows@[i as int]@);
            put(&mut v, self.tree_row(&rows[i], rates, wide, now));
            assert(lines_of(v@) =~= all.take(i + 1));
            i = i + 1;
        }
        assert(all.take(all.len() as int) =~= all);
        v
    }

    fn master_title(&self) -> (s: String)
        ensures
            s@ == master_title(self@.pane),
    {
        let n: usize = self.pane.key_tree.len();
        let keys = plural_keys(n);
        let filter = self.pane.filter.as_str();
        let s = if self.pane.filtering {
            let head = cat4(" Traffic — ", keys.as_str(), " · /", filter);
            cat(head.as_str(), "_ ")
        } else if !filter.is_empty() {
            let head = cat4(" Traffic — ", keys.as_str(), " · /", filter);
            cat(head.as_str(), " ")
        } else {
            cat3(" Traffic — ", keys.as_str(), " ")
        };
        assert(s@ =~= master_title(self@.pane));
        s
    }

    /// The master pane of the Traffic space: the key tree, with the rates on the keys
    /// and the counts on the branches. Where it was drawn is noted for the pointer.
    pub fn render_traffic_master(&mut self, area: Rect, rates: &Rates, now: u64) -> (v: Vec<Paint>)
        ensures
            final(self)@ == old(self)@.traffic_drawn(area),
            paints_of(v@) == final(self)@.traffic_master(area, rates@, now),
    {
        self.pane.refresh_tree_rows();
        let n: usize = self.pane.tree_rows().len();
        assert(n == self@.pane.rows.len());
        let items = self.tree_text(rates, area.width, now);
        let title = self.master_title();
        self.list_rect = Some(area);
        self.list_first_item_row = area.y.saturating_add(1);
        self.list_scroll_offset = scroll_offset(self.pane.selected, area.height);
        let selected = if n == 0 {
            None
        } else {
            Some(crate::app::tree_pane::clamp_selection(self.pane.selected, n))
        };
        let mut v = nothing();
        paint(&mut v, Paint::List { area, title, items, selected });
        if n == 0 {
            let inset = Rect {
                x: area.x.saturating_add(2),
                y: area.y.saturating_add(1),
                width: area.width.saturating_sub(4),
                height: area.height.saturating_sub(2),
            };
            paint(&mut v, render_empty_state(inset, self.topics_empty_reason()));
        }
        assert(paints_of(v@) =~= self@.traffic_master(area, rates@, now));
        v
    }
}

// ---- a branch ----

/// Whether a text starts with another.
pub open spec fn starts(s: Seq<char>, p: Seq<char>) -> bool {
    s.len() >= p.len() && s.take(p.len() as int) == p
}

/// A text with a prefix taken off as often as it stands at the front.
pub open spec fn unprefixed(s: Seq<char>, p: Seq<char>) -> Seq<char>
    decreases s.len(),
{
    if p.len() > 0 && starts(s, p) {
        unprefixed(s.skip(p.len() as int), p)
    } else {
        s
    }
}

/// Whether a text starts with another, from a position on.
fn starts_at(s: &Vec<char>, at: usize, p: &Vec<char>) -> (r: bool)
    requires
        at <= s.len(),
    ensures
        r == starts(s@.skip(at as int), p@),
{
    if s.len() - at < p.len() {
        return false;
    }
    let ghost rest = s@.skip(at as int);
    let mut i: usize = 0;
    while i < p.len()
        invariant
            at <= s.len(),
            p.len() <= s.len() - at,
            i <= p.len(),
            rest == s@.skip(at as int),
            forall|k: int| 0 <= k < i ==> #[trigger] rest[k] == p@[k],
        decreases p.len() - i,
    {
        assert(rest[i as int] == s@[at + i]);
        if s[at + i] != p[i] {
            assert(rest.take(p@.len() as int)[i as int] != p@[i as int]);
            return false;
        }
        i = i + 1;
    }
    assert(rest.take(p@.len() as int) =~= p@);
    true
}

/// Whether a text starts with another.
fn starts_with(s: &str, p: &str) -> (r: bool)
    ensures
        r == starts(s@, p@),
{
    let a = to_chars(s);
    let b = to_chars(p);
    assert(a@.skip(0) =~= s@);
    starts_at(&a, 0, &b)
}

/// A text with a prefix taken off as often as it stands at the front.
fn without_prefix(s: &str, p: &str) -> (r: String)
    ensures
        r@ == unprefixed(s@, p@),
{
    let a = to_chars(s);
    let b = to_chars(p);
    let mut at: usize = 0;
    assert(a@.skip(0) =~= s@);
    if b.len() > 0 {
        while starts_at(&a, at, &b)
            invariant
                at <= a.len(),
                a@ == s@,
                b@ == p@,
                b.len() > 0,
                unprefixed(s@, p@) == unprefixed(a@.skip(at as int), p@),
            decreases a.len() - at,
        {
            assert(a@.skip(at as int).skip(b@.len() as int) =~= a@.skip(at + b@.len()));
            at = at + b.len();
        }
    }
    let r = s.substring_char(at, a.len()).to_owned();
    assert(r@ =~= s@.skip(at as int));
    r
}

/// Whether a key is a path or stands below it.
pub open spec fn at_or_below(key: Seq<char>, path: Seq<char>) -> bool {
    key == path || starts(key, path + "/"@)
}

/// Bandwidth of the first `n` keys that are at or below a path.
pub open spec fn bytes_below(feed: FeedModel, keys: Seq<Seq<char>>, path: Seq<char>, n: nat) -> nat
    decreases n,
{
    if n == 0 {
        0
    } else {
        let before = bytes_below(feed, keys, path, (n - 1) as nat);
        if at_or_below(keys[n - 1], path) {
            before + crate::app::feed::window_at(feed.rates, keys[n - 1]).latest() as nat
        } else {
            before
        }
    }
}

/// A number as far as it goes.
pub open spec fn upto_max(n: nat) -> u64 {
    if n > u64::MAX {
        u64::MAX
    } else {
        n as u64
    }
}

/// Bandwidth of every key with a rate that is at or below a path.
pub open spec fn subtree_bytes(feed: FeedModel, path: Seq<char>) -> u64 {
    let keys = ordered(feed.hz.dom());
    upto_max(bytes_below(feed, keys, path, keys.len()))
}

/// A list of keys by rate with one more put at its place, behind those that are not
/// slower.
pub open spec fn ranked(hz: Map<Seq<char>, Rate>, order: Seq<Seq<char>>, key: Seq<char>) -> Seq<
    Seq<char>,
>
    decreases order.len(),
{
    if order.len() > 0 && faster(hz[key], hz[order.last()]) {
        ranked(hz, order.drop_last(), key).push(order.last())
    } else {
        order.push(key)
    }
}

/// The active ones of the first `n` keys that stand below a prefix, by rate.
pub open spec fn busy(
    hz: Map<Seq<char>, Rate>,
    keys: Seq<Seq<char>>,
    prefix: Seq<char>,
    n: nat,
) -> Seq<Seq<char>>
    decreases n,
{
    if n == 0 {
        Seq::empty()
    } else {
        let before = busy(hz, keys, prefix, (n - 1) as nat);
        if starts(keys[n - 1], prefix) && hz[keys[n - 1]].messages > 0 {
            ranked(hz, before, keys[n - 1])
        } else {
            before
        }
    }
}

/// The active keys below a path, the fastest first and equally fast ones by name.
pub open spec fn busiest(feed: FeedModel, path: Seq<char>) -> Seq<Seq<char>> {
    let keys = ordered(feed.hz.dom());
    busy(feed.hz, keys, path + "/"@, keys.len())
}

/// How many of the busiest keys are shown.
pub const BUSIEST_SHOWN: usize = 8;

/// The line of one of the busiest keys.
pub open spec fn busy_line(key: Seq<char>, path: Seq<char>, rates: RatesModel) -> Seq<SpanModel> {
    seq![
        span(
            "  "@ + right_aligned(words_at(rates.hz, key, "0.0"@), 6) + " Hz  "@,
            inked(Color::Green),
        ),
        span(unprefixed(key, path + "/"@), inked(Color::White)),
    ]
}

/// The lines of the busiest keys below a path, so that a hot key inside a large
/// collapsed subtree is findable without opening all of it.
pub open spec fn busy_lines(feed: FeedModel, path: Seq<char>, rates: RatesModel) -> Seq<
    Seq<SpanModel>,
> {
    let all = busiest(feed, path);
    let n = if all.len() < BUSIEST_SHOWN {
        all.len()
    } else {
        BUSIEST_SHOWN as nat
    };
    if all.len() == 0 {
        seq![one("(nothing active below)"@, inked(Color::DarkGray))]
    } else {
        seq![one("busiest"@, inked(Color::DarkGray))] + Seq::new(
            n,
            |i: int| busy_line(all[i], path, rates),
        )
    }
}

/// The lines of the summary of a branch; `hz` is its total rate in words.
pub open spec fn subtree_lines(row: RowModel, feed: FeedModel, rates: RatesModel, hz: Seq<char>) -> Seq<
    Seq<SpanModel>,
> {
    seq![
        seq![
            span("keys        "@, inked(Color::DarkGray)),
            span(decimal(row.key_count), inked(Color::White)),
        ],
        seq![
            span("rate        "@, inked(Color::DarkGray)),
            span(hz + " Hz"@, strong(Color::Green)),
        ],
        seq![
            span("bandwidth   "@, inked(Color::DarkGray)),
            span(bandwidth(subtree_bytes(feed, row.path)), inked(Color::White)),
        ],
        blank(),
    ] + busy_lines(feed, row.path, rates)
}

/// The detail pane of a branch: what the whole subtree below it is doing.
pub open spec fn subtree_paints(
    m: AppModel,
    row: RowModel,
    rates: RatesModel,
    hz: Seq<char>,
    area: Rect,
) -> Seq<PaintModel> {
    let frame = block(area, " "@ + row.path + "/ "@, plain());
    if area.inside().height < 2 {
        seq![frame]
    } else {
        seq![
            frame,
            scrolling(
                area.inside(),
                subtree_lines(row, m.feed, rates, hz),
                m.pane.detail_scroll,
            ),
        ]
    }
}

impl Feed {
    /// Bandwidth of every key with a rate that is at or below a path.
    pub fn subtree_bytes(&self, path: &str) -> (n: u64)
        ensures
            n == subtree_bytes(self@, path@),
    {
        let keys = self.hz.keys();
        let ghost all = texts(keys@);
        proof {
            lemma_ordered(all, self@.hz.dom());
        }
        let below = cat(path, "/");
        let mut sum: u64 = 0;
        let mut i: usize = 0;
        while i < keys.len()
            invariant
                i <= keys.len(),
                all == texts(keys@),
                below@ == path@ + "/"@,
                sum == upto_max(bytes_below(self@, all, path@, i as nat)),
            decreases keys.len() - i,
        {
            let key = keys[i].as_str();
            assert(all[i as int] == key@);
            if crate::text::same(key, path) || starts_with(key, below.as_str()) {
                sum = sum.saturating_add(self.topic_bytes_per_sec(key));
            }
            i = i + 1;
        }
        assert(all.len() == keys@.len());
        sum
    }

    /// Put a key at its place in a list by rate.
    fn rank(&self, order: &mut Vec<String>, key: &str)
        requires
            self@.hz.dom().contains(key@),
            forall|k: int|
                0 <= k < old(order).len() ==> self@.hz.dom().contains((#[trigger] old(order)@[k])@),
        ensures
            texts(final(order)@) == ranked(self@.hz, texts(old(order)@), key@),
            forall|k: int|
                0 <= k < final(order).len() ==> self@.hz.dom().contains(
                    (#[trigger] final(order)@[k])@,
                ),
    {
        let ghost all = order@;
        let ghost hz = self@.hz;
        let ghost x = key@;
        let mut at: usize = order.len();
        assert(texts(all).take(all.len() as int) =~= texts(all));
        assert(texts(all).skip(all.len() as int) =~= Seq::empty());
        assert(ranked(hz, texts(all), x) + Seq::<Seq<char>>::empty() =~= ranked(hz, texts(all), x));
        while at > 0 && self.outruns(key, order[at - 1].as_str())
            invariant
                at <= all.len(),
                order@ == all,
                hz == self@.hz,
                x == key@,
                hz.dom().contains(x),
                forall|k: int| 0 <= k < all.len() ==> hz.dom().contains((#[trigger] all[k])@),
                ranked(hz, texts(all), x) == ranked(hz, texts(all).take(at as int), x) + texts(
                    all,
                ).skip(at as int),
            decreases at,
        {
            proof {
                let front = texts(all).take(at as int);
                assert(front.last() == all[at - 1]@);
                assert(front.drop_last() =~= texts(all).take(at - 1));
                let p = ranked(hz, front.drop_last(), x);
                assert(texts(all).skip(at - 1) =~= seq![all[at - 1]@] + texts(all).skip(
                    at as int,
                ));
                assert(p.push(front.last()) + texts(all).skip(at as int) =~= p + texts(all).skip(
                    at - 1,
                ));
            }
            at = at - 1;
        }
        proof {
            let front = texts(all).take(at as int);
            if at > 0 {
                assert(front.last() == all[at - 1]@);
            }
            assert(ranked(hz, front, x) == front.push(x));
        }
        let owned = key.to_owned();
        order.insert(at, owned);
        assert(order@ =~= all.insert(at as int, owned));
        assert(texts(order@) =~= texts(all).take(at as int).push(x) + texts(all).skip(at as int));
        assert forall|k: int| 0 <= k < order.len() implies self@.hz.dom().contains(
            (#[trigger] order@[k])@,
        ) by {
            if k < at {
                assert(order@[k] == all[k]);
            } else if k > at {
                assert(order@[k] == all[k - 1]);
            }
        }
    }

    /// Whether messages arrive faster on one key than on another.
    fn outruns(&self, a: &str, b: &str) -> (r: bool)
        requires
            self@.hz.dom().contains(a@),
            self@.hz.dom().contains(b@),
        ensures
            r == faster(self@.hz[a@], self@.hz[b@]),
    {
        match (self.hz.get(a), self.hz.get(b)) {
            (Some(x), Some(y)) => x.is_faster(y),
            _ => false,
        }
    }

    /// The active keys below a path, the fastest first and equally fast ones by name.
    pub fn busiest(&self, path: &str) -> (v: Vec<String>)
        ensures
            texts(v@) == busiest(self@, path@),
    {
        let keys = self.hz.keys();
        let ghost all = texts(keys@);
        proof {
            lemma_ordered(all, self@.hz.dom());
        }
        let prefix = cat(path, "/");
        let mut v: Vec<String> = Vec::new();
        let mut i: usize = 0;
        assert(texts(v@) =~= Seq::empty());
        while i < keys.len()
            invariant
                i <= keys.len(),
                all == texts(keys@),
                prefix@ == path@ + "/"@,
                forall|k: Seq<char>| self.hz@.dom().contains(k) <==> all.contains(k),
                texts(v@) == busy(self@.hz, all, prefix@, i as nat),
                forall|k: int| 0 <= k < v.len() ==> self@.hz.dom().contains((#[trigger] v@[k])@),
            decreases keys.len() - i,
        {
            let key = keys[i].as_str();
            assert(all[i as int] == key@);
            assert(all.contains(key@));
            let active = match self.hz.get(key) {
                Some(rate) => rate.messages > 0,
                None => false,
            };
            if active && starts_with(key, prefix.as_str()) {
                self.rank(&mut v, key);
            }
            i = i + 1;
        }
        assert(all.len() == keys@.len());
        v
    }
}

impl App {
    fn put_busiest(&self, v: &mut Vec<Line>, path: &str, rates: &Rates)
        ensures
            lines_of(final(v)@) == lines_of(old(v)@) + busy_lines(self@.feed, path@, rates@),
    {
        let ghost start = lines_of(v@);
        let all = self.feed.busiest(path);
        let ghost keys = busiest(self@.feed, path@);
        assert(keys.len() == all@.len());
        if all.len() == 0 {
            put(v, Line::one("(nothing active below)", Style::fg(Color::DarkGray)));
            assert(lines_of(v@) =~= start + busy_lines(self@.feed, path@, rates@));
            return;
        }
        put(v, Line::one("busiest", Style::fg(Color::DarkGray)));
        let prefix = cat(path, "/");
        let n: usize = if all.len() < BUSIEST_SHOWN {
            all.len()
        } else {
            BUSIEST_SHOWN
        };
        let ghost shown = Seq::new(n as nat, |i: int| busy_line(keys[i], path@, rates@));
        let ghost headed = lines_of(v@);
        let mut i: usize = 0;
        assert(headed + shown.take(0) =~= headed);
        while i < n
            invariant
                i <= n <= all.len(),
                keys == texts(all@),
                prefix@ == path@ + "/"@,
                shown == Seq::new(n as nat, |i: int| busy_line(keys[i], path@, rates@)),
                lines_of(v@) == headed + shown.take(i as int),
            decreases n - i,
        {
            let key = all[i].as_str();
            assert(keys[i as int] == key@);
            let hz = words_for(&rates.hz, key, "0.0");
            let wide = pad_left(hz.as_str(), 6);
            let words = cat3("  ", wide.as_str(), " Hz  ");
            put(
                v,
                Line::two(
                    Span::owned(words, Style::fg(Color::Green)),
                    Span::owned(without_prefix(key, prefix.as_str()), Style::fg(Color::White)),
                ),
            );
            assert(lines_of(v@) =~= headed + shown.take(i + 1));
            i = i + 1;
        }
        assert(shown.take(n as int) =~= shown);
        assert(lines_of(v@) =~= start + busy_lines(self@.feed, path@, rates@));
    }

    /// The detail pane of a branch: what the whole subtree below it is doing. `hz` is
    /// its total rate in words.
    pub fn render_subtree_summary(&self, row: &TreeRow, rates: &Rates, hz: &str, area: Rect) -> (v:
        Vec<Paint>)
        ensures
            paints_of(v@) == subtree_paints(self@, row@, rates@, hz@, area),
    {
        let mut v = nothing();
        let title = cat3(" ", row.path.as_str(), "/ ");
        paint(&mut v, Paint::block(area, title.as_str(), Style::plain()));
        let inner = area.inner();
        if inner.height < 2 {
            assert(paints_of(v@) =~= subtree_paints(self@, row@, rates@, hz@, area));
            return v;
        }
        let keys = decimal_text(row.key_count as u64);
        let rate = cat(hz, " Hz");
        let bytes = format_bytes_per_sec(self.feed.subtree_bytes(row.path.as_str()));
        let mut lines = no_lines();
        put(
            &mut lines,
            Line::two(
                Span::of("keys        ", Style::fg(Color::DarkGray)),
                Span::owned(keys, Style::fg(Color::White)),
            ),
        );
        put(
            &mut lines,
            Line::two(
                Span::of("rate        ", Style::fg(Color::DarkGray)),
                Span::owned(rate, Style::bold(Color::Green)),
            ),
        );
        put(
            &mut lines,
            Line::two(
                Span::of("bandwidth   ", Style::fg(Color::DarkGray)),
                Span::owned(bytes, Style::fg(Color::White)),
            ),
        );
        put(&mut lines, Line::empty());
        self.put_busiest(&mut lines, row.path.as_str(), rates);
        assert(lines_of(lines@) =~= subtree_lines(row@, self@.feed, rates@, hz@));
        paint(&mut v, Paint::scrolling(inner, lines, self.pane.detail_scroll));
        assert(paints_of(v@) =~= subtree_paints(self@, row@, rates@, hz@, area));
        v
    }
}

proof fn lemma_faster_passes_on(x: Rate, o: Rate, l: Rate)
    requires
        faster(x, o),
        !faster(l, o),
        x.nanos > 0,
        o.nanos > 0,
        l.nanos > 0,
    ensures
        faster(x, l),
        !faster(o, x),
{
    let (xm, xn) = (x.messages as int, x.nanos as int);
    let (om, on) = (o.messages as int, o.nanos as int);
    let (lm, ln) = (l.messages as int, l.nanos as int);
    assert(xm * ln > lm * xn) by (nonlinear_arith)
        requires
            xm * on > om * xn,
            lm * on <= om * ln,
            xn > 0,
            on > 0,
            ln > 0,
    {
        assert((xm * on) * ln > (om * xn) * ln);
        assert((lm * on) * xn <= (om * ln) * xn);
        assert((xm * ln) * on == (xm * on) * ln);
        assert((lm * xn) * on == (lm * on) * xn);
        assert((om * xn) * ln == (om * ln) * xn);
        assert((xm * ln) * on > (lm * xn) * on);
    }
}

/// Whether one key stands rightly before another: it is faster, or as fast and first
/// by name.
pub open spec fn outranks(hz: Map<Seq<char>, Rate>, a: Seq<char>, b: Seq<char>) -> bool {
    &&& !faster(hz[b], hz[a])
    &&& faster(hz[a], hz[b]) || text_lt(a, b)
}

/// Whether every key stands rightly before those behind it.
pub open spec fn by_rank(hz: Map<Seq<char>, Rate>, order: Seq<Seq<char>>) -> bool {
    forall|i: int, j: int|
        0 <= i < j < order.len() ==> outranks(hz, #[trigger] order[i], #[trigger] order[j])
}

proof fn lemma_ranked(hz: Map<Seq<char>, Rate>, order: Seq<Seq<char>>, key: Seq<char>)
    requires
        by_rank(hz, order),
        hz[key].nanos > 0,
        forall|i: int| 0 <= i < order.len() ==> hz[#[trigger] order[i]].nanos > 0,
        forall|i: int| 0 <= i < order.len() ==> text_lt(#[trigger] order[i], key),
    ensures
        by_rank(hz, ranked(hz, order, key)),
        forall|k: Seq<char>| #[trigger]
            ranked(hz, order, key).contains(k) <==> k == key || order.contains(k),
    decreases order.len(),
{
    let r = ranked(hz, order, key);
    if order.len() > 0 && faster(hz[key], hz[order.last()]) {
        let front = order.drop_last();
        let l = order.last();
        assert forall|i: int, j: int| 0 <= i < j < front.len() implies outranks(
            hz,
            #[trigger] front[i],
            #[trigger] front[j],
        ) by {
            assert(front[i] == order[i] && front[j] == order[j]);
        }
        assert forall|i: int| 0 <= i < front.len() implies hz[#[trigger] front[i]].nanos > 0
            && text_lt(front[i], key) by {
            assert(front[i] == order[i]);
        }
        lemma_ranked(hz, front, key);
        let q = ranked(hz, front, key);
        assert(r == q.push(l));
        assert forall|i: int, j: int| 0 <= i < j < r.len() implies outranks(
            hz,
            #[trigger] r[i],
            #[trigger] r[j],
        ) by {
            if j < q.len() {
                assert(r[i] == q[i] && r[j] == q[j]);
            } else {
                assert(q.contains(q[i]));
                if q[i] == key {
                    lemma_faster_passes_on(hz[key], hz[l], hz[l]);
                } else {
                    assert(front.contains(q[i]));
                    let k = choose|k: int| 0 <= k < front.len() && front[k] == q[i];
                    assert(order[k] == q[i]);
                    assert(order[order.len() - 1] == l);
                }
            }
        }
        assert forall|k: Seq<char>| #[trigger] r.contains(k) <==> k == key || order.contains(k) by {
            if r.contains(k) {
                let i = choose|i: int| 0 <= i < r.len() && r[i] == k;
                if i < q.len() {
                    assert(q.contains(k)) by {
                        assert(q[i] == k);
                    }
                    if k != key {
                        let j = choose|j: int| 0 <= j < front.len() && front[j] == k;
                        assert(order[j] == k);
                    }
                } else {
                    assert(order[order.len() - 1] == k);
                }
            }
            if k == key || order.contains(k) {
                if k == l {
                    assert(r[q.len() as int] == k);
                } else {
                    if k != key {
                        let j = choose|j: int| 0 <= j < order.len() && order[j] == k;
                        assert(front[j] == k);
                    }
                    assert(q.contains(k));
                    let i = choose|i: int| 0 <= i < q.len() && q[i] == k;
                    assert(r[i] == k);
                }
            }
        }
    } else {
        assert forall|i: int, j: int| 0 <= i < j < r.len() implies outranks(
            hz,
            #[trigger] r[i],
            #[trigger] r[j],
        ) by {
            if j < order.len() {
                assert(r[i] == order[i] && r[j] == order[j]);
            } else {
                assert(r[i] == order[i] && r[j] == key);
                if faster(hz[key], hz[order[i]]) {
                    let l = order.last();
                    if i < order.len() - 1 {
                        assert(outranks(hz, order[i], order[order.len() - 1]));
                        lemma_faster_passes_on(hz[key], hz[order[i]], hz[l]);
                    }
                }
            }
        }
        assert forall|k: Seq<char>| #[trigger] r.contains(k) <==> k == key || order.contains(k) by {
            assert(r[order.len() as int] == key);
            if order.contains(k) {
                let i = choose|i: int| 0 <= i < order.len() && order[i] == k;
                assert(r[i] == k);
            }
            if r.contains(k) {
                let i = choose|i: int| 0 <= i < r.len() && r[i] == k;
                if i < order.len() {
                    assert(order[i] == k);
                }
            }
        }
    }
}

/// The busiest keys are exactly the active ones below the path, the fastest first;
/// equally fast ones stand by name, so that they do not reshuffle from one second to
/// the next.
pub proof fn law_the_busiest_keys_stand_by_rate_then_name(
    hz: Map<Seq<char>, Rate>,
    keys: Seq<Seq<char>>,
    prefix: Seq<char>,
    n: nat,
)
    requires
        n <= keys.len(),
        ascending(keys),
        forall|i: int| 0 <= i < keys.len() ==> hz[#[trigger] keys[i]].nanos > 0,
    ensures
        by_rank(hz, busy(hz, keys, prefix, n)),
        forall|k: Seq<char>| #[trigger]
            busy(hz, keys, prefix, n).contains(k) <==> keys.take(n as int).contains(k) && starts(
                k,
                prefix,
            ) && hz[k].messages > 0,
    decreases n,
{
    if n > 0 {
        law_the_busiest_keys_stand_by_rate_then_name(hz, keys, prefix, (n - 1) as nat);
        let before = busy(hz, keys, prefix, (n - 1) as nat);
        let key = keys[n - 1];
        let short = keys.take(n - 1);
        let long = keys.take(n as int);
        assert(long =~= short.push(key));
        assert forall|k: Seq<char>| #[trigger] long.contains(k) <==> k == key || short.contains(k) by {
            if short.contains(k) {
                let i = choose|i: int| 0 <= i < short.len() && short[i] == k;
                assert(long[i] == k);
            }
            assert(long[n - 1] == key);
            if long.contains(k) && k != key {
                let i = choose|i: int| 0 <= i < long.len() && long[i] == k;
                assert(short[i] == k);
            }
        }
        if starts(key, prefix) && hz[key].messages > 0 {
            assert forall|i: int| 0 <= i < before.len() implies hz[#[trigger] before[i]].nanos > 0
                && text_lt(before[i], key) by {
                assert(before.contains(before[i]));
                assert(short.contains(before[i]));
                let j = choose|j: int| 0 <= j < short.len() && short[j] == before[i];
                assert(keys[j] == before[i]);
            }
            lemma_ranked(hz, before, key);
            let r = busy(hz, keys, prefix, n);
            assert(r == ranked(hz, before, key));
            assert forall|k: Seq<char>| #[trigger] r.contains(k) <==> long.contains(k) && starts(
                k,
                prefix,
            ) && hz[k].messages > 0 by {
                assert(r.contains(k) <==> k == key || before.contains(k));
            }
        } else {
            assert forall|k: Seq<char>| #[trigger]
                before.contains(k) <==> long.contains(k) && starts(k, prefix) && hz[k].messages
                    > 0 by {
                assert(long.contains(k) <==> k == key || short.contains(k));
            }
        }
    } else {
        assert(keys.take(0) =~= Seq::empty());
    }
}

} // verus!
