//! The Network space: one list with two sections, sessions and services, and the
//! detail of the selected participant.
use vstd::prelude::*;

use crate::app::feed::{elapsed, since, NANOS_PER_SEC};
use crate::app::network_pane::{
    LivelinessEventRecord, LivelinessToken, NetworkModel, NetworkRow, NodeInfo, NodeModel,
    RecordModel, TokenModel,
};
use crate::app::state::{App, AppModel};
use crate::app::types::Rect;
use crate::message::string_view;
use crate::text::{
    cat, cat3, cat4, decimal, decimal_text, head_bytes, head_bytes_of, pad_left, right_aligned, same, texts,
    zero_padded,
};
use crate::view::chrome::{empty_paint, render_empty_state};
use crate::view::layout::{scroll_offset, scrolled_past};
use crate::view::style::{
    blank, block, faint, inked, lines_of, no_lines, nothing, one, paint, paints_of, plain, put,
    scrolling, span, strong, Color, Line, Paint, PaintModel, Span, SpanModel, Style,
};

verus! {

/// A link between two sessions, as the observed topology has it.
#[derive(Debug, Clone, PartialEq, Eq)]
pub struct Link {
    pub from_zid: String,
    pub to_zid: String,
    pub link_dst: Option<String>,
}

/// A link, as a mathematical value.
pub struct LinkModel {
    pub from_zid: Seq<char>,
    pub to_zid: Seq<char>,
    pub link_dst: Option<Seq<char>>,
}

impl View for Link {
    type V = LinkModel;

    open spec fn view(&self) -> LinkModel {
        LinkModel {
            from_zid: self.from_zid@,
            to_zid: self.to_zid@,
            link_dst: string_view(self.link_dst),
        }
    }
}

/// The models of a list of links.
pub open spec fn link_models(v: Seq<Link>) -> Seq<LinkModel> {
    v.map_values(|l: Link| l@)
}

/// The colour of a kind of session.
pub open spec fn color_of(kind: Seq<char>) -> Color {
    if kind == "router"@ {
        Color::Green
    } else if kind == "peer"@ {
        Color::Blue
    } else if kind == "client"@ {
        Color::Gray
    } else {
        Color::White
    }
}

/// The colour of a kind of session.
pub fn kind_color(kind: &str) -> (c: Color)
    ensures
        c == color_of(kind@),
{
    if same(kind, "router") {
        Color::Green
    } else if same(kind, "peer") {
        Color::Blue
    } else if same(kind, "client") {
        Color::Gray
    } else {
        Color::White
    }
}

/// The start of an id, as much of it as is shown.
pub fn zid_short(zid: &str) -> (s: String)
    ensures
        s@ == head_bytes_of(zid@, 16),
{
    head_bytes(zid, 16)
}

/// A line that heads a section.
pub open spec fn header_line(words: Seq<char>) -> Seq<SpanModel> {
    one(words, faint(Color::DarkGray))
}

/// A line that heads a part of a detail.
pub open spec fn section_line(words: Seq<char>) -> Seq<SpanModel> {
    one(words, faint(Color::Gray))
}

/// The line of a session.
pub open spec fn node_line(n: NodeModel, own: Option<Seq<char>>, now: u64) -> Seq<SpanModel> {
    seq![
        if n.stale(now) {
            span("○ "@, inked(Color::DarkGray))
        } else {
            span("● "@, inked(Color::Green))
        },
        span(n.kind + " "@, inked(color_of(n.kind))),
        span(head_bytes_of(n.zid, 16), inked(Color::Yellow)),
    ] + (if n.locators.len() > 0 {
        seq![span("  "@ + n.locators[0], inked(Color::DarkGray))]
    } else {
        Seq::empty()
    }) + (if own == Some(n.zid) {
        seq![span("  (self)"@, inked(Color::Cyan))]
    } else {
        Seq::empty()
    })
}

/// The line of a token.
pub open spec fn token_line(t: TokenModel) -> Seq<SpanModel> {
    seq![
        if t.alive {
            span("● "@, inked(Color::Green))
        } else {
            span("○ "@, inked(Color::Red))
        },
        span(t.shown_name(), inked(Color::White)),
    ] + (match t.group {
        Some(g) => if g.len() > 0 {
            seq![span("  "@ + g, inked(Color::DarkGray))]
        } else {
            Seq::empty()
        },
        None => Seq::empty(),
    })
}

/// The group that a token is listed under.
pub open spec fn group_of(t: TokenModel) -> Seq<char> {
    match t.group {
        Some(g) => g,
        None => "(ungrouped)"@,
    }
}

/// Of the first `n` tokens, those of a group, or of all groups: how many, and how many
/// of them are alive.
pub open spec fn tally(tokens: Seq<TokenModel>, group: Option<Seq<char>>, n: nat) -> (nat, nat)
    decreases n,
{
    if n == 0 {
        (0, 0)
    } else {
        let (alive, total) = tally(tokens, group, (n - 1) as nat);
        let t = tokens[n - 1];
        if group is None || group == Some(group_of(t)) {
            (
                if t.alive {
                    alive + 1
                } else {
                    alive
                },
                total + 1,
            )
        } else {
            (alive, total)
        }
    }
}

/// The heading of some tokens: what they are, and how many are alive.
pub open spec fn tally_words(name: Seq<char>, counts: (nat, nat)) -> Seq<char> {
    "── "@ + name + " ("@ + decimal(counts.0) + "/"@ + decimal(counts.1) + ") ──"@
}

/// The list as it is drawn so far: its lines, the row that each one selects, and the
/// section and the group that it is in.
pub struct ListModel {
    pub items: Seq<Seq<SpanModel>>,
    pub clicks: Seq<Option<usize>>,
    pub section: Option<bool>,
    pub group: Option<Seq<char>>,
}

/// Whether the list is in the section of the sessions.
pub open spec fn in_sessions(l: ListModel) -> bool {
    l.section == Some(false)
}

impl ListModel {
    /// With a heading, which selects nothing.
    pub open spec fn headed(self, words: Seq<char>) -> ListModel {
        ListModel {
            items: self.items.push(header_line(words)),
            clicks: self.clicks.push(None),
            ..self
        }
    }

    /// With a row.
    pub open spec fn listed(self, line: Seq<SpanModel>, row: usize) -> ListModel {
        ListModel { items: self.items.push(line), clicks: self.clicks.push(Some(row)), ..self }
    }
}

/// The list with one more row, and the headings that stand before it.
pub open spec fn with_row(
    l: ListModel,
    m: NetworkModel,
    row: NetworkRow,
    at: usize,
    now: u64,
) -> ListModel {
    match row {
        NetworkRow::Session(i) => {
            let headed = if in_sessions(l) {
                l
            } else {
                ListModel {
                    section: Some(false),
                    ..l.headed("── Sessions ("@ + decimal(m.nodes.len()) + ") ──"@)
                }
            };
            headed.listed(node_line(m.nodes[i as int], m.self_zid, now), at)
        },
        NetworkRow::Service(i) => {
            let t = m.liveliness_tokens[i as int];
            let all = m.liveliness_tokens.len();
            let headed = if l.section == Some(true) {
                l
            } else {
                ListModel {
                    section: Some(true),
                    group: None,
                    ..l.headed(tally_words("Services"@, tally(m.liveliness_tokens, None, all)))
                }
            };
            let grouped = if headed.group == Some(group_of(t)) {
                headed
            } else {
                ListModel {
                    group: Some(group_of(t)),
                    ..headed.headed(
                        tally_words(
                            group_of(t),
                            tally(m.liveliness_tokens, Some(group_of(t)), all),
                        ),
                    )
                }
            };
            grouped.listed(token_line(t), at)
        },
    }
}

/// The list of the first `n` rows.
pub open spec fn listing(m: NetworkModel, n: nat, now: u64) -> ListModel
    decreases n,
{
    if n == 0 {
        ListModel { items: Seq::empty(), clicks: Seq::empty(), section: None, group: None }
    } else {
        with_row(
            listing(m, (n - 1) as nat, now),
            m,
            m.rows()[n - 1],
            (n - 1) as usize,
            now,
        )
    }
}

/// The whole list.
pub open spec fn full_listing(m: NetworkModel, now: u64) -> ListModel {
    listing(m, m.rows().len(), now)
}

/// Where the selected row was drawn: right before the rows that follow it, behind all
/// the headings in front of it.
pub open spec fn drawn_at(m: NetworkModel, now: u64) -> Option<nat> {
    if m.network_selected < m.rows().len() {
        Some((listing(m, (m.network_selected + 1) as nat, now).items.len() - 1) as nat)
    } else {
        None
    }
}

/// The list under construction.
struct Listing {
    items: Vec<Line>,
    clicks: Vec<Option<usize>>,
    section: Option<bool>,
    group: Option<String>,
}

impl View for Listing {
    type V = ListModel;

    closed spec fn view(&self) -> ListModel {
        ListModel {
            items: lines_of(self.items@),
            clicks: self.clicks@,
            section: self.section,
            group: string_view(self.group),
        }
    }
}

impl Listing {
    fn head(&mut self, words: &str)
        ensures
            final(self)@ == old(self)@.headed(words@),
    {
        put(&mut self.items, Line::one(words, Style::dim(Color::DarkGray)));
        self.clicks.push(None);
    }

    fn list(&mut self, line: Line, row: usize)
        ensures
            final(self)@ == old(self)@.listed(line@, row),
    {
        put(&mut self.items, line);
        self.clicks.push(Some(row));
    }
}

/// The line of a session.
pub fn node_item(node: &NodeInfo, own: &Option<String>, now: u64) -> (l: Line)
    ensures
        l@ == node_line(node@, string_view(*own), now),
{
    let kind = cat(node.kind.as_str(), " ");
    let mut l = Line::three(
        if node.is_scout_stale(now) {
            Span::of("○ ", Style::fg(Color::DarkGray))
        } else {
            Span::of("● ", Style::fg(Color::Green))
        },
        Span::owned(kind, Style::fg(kind_color(node.kind.as_str()))),
        Span::owned(zid_short(node.zid.as_str()), Style::fg(Color::Yellow)),
    );
    assert(node@.locators.len() == node.locators@.len());
    if node.locators.len() > 0 {
        assert(node@.locators[0] == node.locators@[0]@);
        let words = cat("  ", node.locators[0].as_str());
        l.add(Span::owned(words, Style::fg(Color::DarkGray)));
    }
    if is_own(node, own) {
        l.add(Span::of("  (self)", Style::fg(Color::Cyan)));
    }
    assert(l@ =~= node_line(node@, string_view(*own), now));
    l
}

/// Whether a session is this one.
fn is_own(node: &NodeInfo, own: &Option<String>) -> (r: bool)
    ensures
        r == (string_view(*own) == Some(node@.zid)),
{
    match own {
        Some(z) => same(z.as_str(), node.zid.as_str()),
        None => false,
    }
}

/// The line of a token.
pub fn token_item(token: &LivelinessToken) -> (l: Line)
    ensures
        l@ == token_line(token@),
{
    let mut l = Line::two(
        if token.alive {
            Span::of("● ", Style::fg(Color::Green))
        } else {
            Span::of("○ ", Style::fg(Color::Red))
        },
        Span::owned(token.display_name(), Style::fg(Color::White)),
    );
    if let Some(g) = &token.group {
        if !g.as_str().is_empty() {
            let words = cat("  ", g.as_str());
            l.add(Span::owned(words, Style::fg(Color::DarkGray)));
        }
    }
    assert(l@ =~= token_line(token@));
    l
}

/// The group that a token is listed under.
fn listed_group(token: &LivelinessToken) -> (s: String)
    ensures
        s@ == group_of(token@),
{
    match &token.group {
        Some(g) => g.clone(),
        None => "(ungrouped)".to_owned(),
    }
}

fn tally_heading(name: &str, alive: usize, total: usize) -> (s: String)
    ensures
        s@ == tally_words(name@, (alive as nat, total as nat)),
{
    let a = decimal_text(alive as u64);
    let t = decimal_text(total as u64);
    let left = cat4("── ", name, " (", a.as_str());
    let s = cat4(left.as_str(), "/", t.as_str(), ") ──");
    assert(s@ =~= tally_words(name@, (alive as nat, total as nat)));
    s
}

impl App {
    /// How many tokens of a group, or of all, are alive, and how many there are.
    fn tally_tokens(&self, group: Option<&str>) -> (r: (usize, usize))
        ensures
            (r.0 as nat, r.1 as nat) == tally(
                self@.network.liveliness_tokens,
                crate::diff::text_view(group),
                self@.network.liveliness_tokens.len(),
            ),
    {
        let ghost tokens = self@.network.liveliness_tokens;
        let ghost g = crate::diff::text_view(group);
        let mut alive: usize = 0;
        let mut total: usize = 0;
        let mut i: usize = 0;
        while i < self.network.liveliness_tokens.len()
            invariant
                i <= self.network.liveliness_tokens.len(),
                tokens == self@.network.liveliness_tokens,
                g == crate::diff::text_view(group),
                (alive as nat, total as nat) == tally(tokens, g, i as nat),
                alive <= i,
                total <= i,
            decreases self.network.liveliness_tokens.len() - i,
        {
            let t = &self.network.liveliness_tokens[i];
            assert(tokens[i as int] == t@);
            let counts = match group {
                None => true,
                Some(name) => {
                    let own = listed_group(t);
                    same(name, own.as_str())
                },
            };
            if counts {
                if t.alive {
                    alive = alive + 1;
                }
                total = total + 1;
            }
            i = i + 1;
        }
        assert(tokens.len() == self.network.liveliness_tokens@.len());
        (alive, total)
    }

    fn list_session(&self, l: &mut Listing, i: usize, at: usize, now: u64)
        requires
            i < self.network.nodes.len(),
        ensures
            final(l)@ == with_row(old(l)@, self@.network, NetworkRow::Session(i), at, now),
    {
        assert(self@.network.nodes[i as int] == self.network.nodes@[i as int]@);
        assert(self@.network.nodes.len() == self.network.nodes@.len());
        let inside = match l.section {
            Some(services) => !services,
            None => false,
        };
        if !inside {
            let n = decimal_text(self.network.nodes.len() as u64);
            let words = cat3("── Sessions (", n.as_str(), ") ──");
            l.head(words.as_str());
            l.section = Some(false);
        }
        l.list(node_item(&self.network.nodes[i], &self.network.self_zid, now), at);
    }

    fn list_service(&self, l: &mut Listing, i: usize, at: usize)
        requires
            i < self.network.liveliness_tokens.len(),
        ensures
            forall|now: u64|
                final(l)@ == #[trigger] with_row(
                    old(l)@,
                    self@.network,
                    NetworkRow::Service(i),
                    at,
                    now,
                ),
    {
        let token = &self.network.liveliness_tokens[i];
        assert(self@.network.liveliness_tokens[i as int] == token@);
        let inside = match l.section {
            Some(services) => services,
            None => false,
        };
        if !inside {
            let (alive, total) = self.tally_tokens(None);
            let words = tally_heading("Services", alive, total);
            l.head(words.as_str());
            l.section = Some(true);
            l.group = None;
        }
        let group = listed_group(token);
        let same_group = match &l.group {
            Some(g) => same(g.as_str(), group.as_str()),
            None => false,
        };
        if !same_group {
            let (alive, total) = self.tally_tokens(Some(group.as_str()));
            let words = tally_heading(group.as_str(), alive, total);
            l.head(words.as_str());
            l.group = Some(group);
        }
        l.list(token_item(token), at);
    }
}

/// The participant list, where there is anybody.
pub open spec fn participants_paint(m: NetworkModel, area: Rect, now: u64) -> PaintModel {
    PaintModel::List {
        area,
        title: " Network — participants "@,
        items: full_listing(m, now).items,
        selected: match drawn_at(m, now) {
            Some(n) => Some(n as usize),
            None => None,
        },
    }
}

/// The row that the list keeps in sight.
pub open spec fn kept_in_sight(m: NetworkModel, now: u64) -> nat {
    match drawn_at(m, now) {
        Some(n) => n,
        None => 0,
    }
}

/// The row below a border, where the first item stands.
pub open spec fn below(y: u16) -> u16 {
    if y < u16::MAX {
        (y + 1) as u16
    } else {
        y
    }
}

impl AppModel {
    /// Whether nobody was seen at all.
    pub open spec fn nobody(self) -> bool {
        self.network.nodes.len() == 0 && self.network.liveliness_tokens.len() == 0
    }

    /// The master pane of the Network space. With nobody in either section it says why.
    pub open spec fn network_master(self, area: Rect, now: u64) -> Seq<PaintModel> {
        if self.nobody() {
            seq![
                block(area, " Network — participants "@, plain()),
                empty_paint(area.inside(), self.nodes_reason()),
            ]
        } else {
            seq![participants_paint(self.network, area, now)]
        }
    }

    /// With the place of the list noted for the pointer.
    pub open spec fn network_drawn(self, area: Rect, now: u64) -> AppModel {
        AppModel {
            list_rect: Some(area),
            list_first_item_row: below(area.y),
            list_scroll_offset: if self.nobody() {
                0
            } else {
                scrolled_past(
                    kept_in_sight(self.network, now),
                    crate::app::types::less_two(area.height) as nat,
                ) as usize
            },
            network_click_map: if self.nobody() {
                Seq::empty()
            } else {
                full_listing(self.network, now).clicks
            },
            ..self
        }
    }
}

proof fn lemma_listing_in_step(m: NetworkModel, n: nat, now: u64)
    ensures
        listing(m, n, now).items.len() == listing(m, n, now).clicks.len(),
        n > 0 ==> listing(m, n, now).items.len() > 0,
    decreases n,
{
    if n > 0 {
        lemma_listing_in_step(m, (n - 1) as nat, now);
    }
}

impl App {
    /// The list, and where the selected row stands in it.
    fn listing(&self, now: u64) -> (r: (Listing, Option<usize>))
        ensures
            r.0@ == full_listing(self@.network, now),
            match r.1 {
                Some(n) => drawn_at(self@.network, now) == Some(n as nat),
                None => drawn_at(self@.network, now) is None,
            },
    {
        let rows = self.network.network_rows();
        let ghost m = self@.network;
        let mut l = Listing {
            items: no_lines(),
            clicks: Vec::new(),
            section: None,
            group: None,
        };
        assert(l@.clicks =~= Seq::empty());
        let mut drawn: Option<usize> = None;
        let mut i: usize = 0;
        while i < rows.len()
            invariant
                i <= rows.len(),
                m == self@.network,
                rows@ == m.rows(),
                forall|k: int| 0 <= k < rows@.len() ==> m.row_exists(#[trigger] rows@[k]),
                l@ == listing(m, i as nat, now),
                i > m.network_selected ==> (drawn matches Some(n) && n as nat == listing(
                    m,
                    (m.network_selected + 1) as nat,
                    now,
                ).items.len() - 1),
                i <= m.network_selected ==> drawn is None,
            decreases rows.len() - i,
        {
            assert(m.row_exists(rows@[i as int]));
            match rows[i] {
                NetworkRow::Session(k) => self.list_session(&mut l, k, i, now),
                NetworkRow::Service(k) => self.list_service(&mut l, k, i),
            }
            proof {
                lemma_listing_in_step(m, (i + 1) as nat, now);
                assert(l@ == listing(m, (i + 1) as nat, now));
                assert(lines_of(l.items@).len() == l.items@.len());
            }
            if i == self.network.network_selected {
                drawn = Some(l.items.len() - 1);
            }
            i = i + 1;
        }
        (l, drawn)
    }

    /// The master pane of the Network space. Where it was drawn is noted for the
    /// pointer.
    pub fn render_network_master(&mut self, area: Rect, now: u64) -> (v: Vec<Paint>)
        ensures
            paints_of(v@) == old(self)@.network_master(area, now),
            final(self)@ == old(self)@.network_drawn(area, now),
    {
        let ghost before = self@;
        proof {
            assert(before.network.nodes.len() == self.network.nodes@.len());
            assert(before.network.liveliness_tokens.len()
                == self.network.liveliness_tokens@.len());
        }
        let mut v = nothing();
        let first_row: u16 = area.y.saturating_add(1);
        if self.network.nodes.len() == 0 && self.network.liveliness_tokens.len() == 0 {
            paint(&mut v, Paint::block(area, " Network — participants ", Style::plain()));
            paint(&mut v, render_empty_state(area.inner(), self.nodes_empty_reason()));
            assert(paints_of(v@) =~= before.network_master(area, now));
            self.list_scroll_offset = 0;
            self.network_click_map = Vec::new();
        } else {
            let (l, selected) = self.listing(now);
            let kept: usize = match selected {
                Some(n) => n,
                None => 0,
            };
            let past: usize = scroll_offset(kept, area.height);
            paint(
                &mut v,
                Paint::List {
                    area,
                    title: " Network — participants ".to_owned(),
                    items: l.items,
                    selected,
                },
            );
            assert(paints_of(v@) =~= before.network_master(area, now));
            self.list_scroll_offset = past;
            self.network_click_map = l.clicks;
        }
        self.list_rect = Some(area);
        self.list_first_item_row = first_row;
        assert(self@ == before.network_drawn(area, now));
        v
    }
}

// ---- the detail ----

/// The lines of the locators of a session.
pub open spec fn locator_lines(locators: Seq<Seq<char>>) -> Seq<Seq<SpanModel>> {
    if locators.len() == 0 {
        seq![one("  (none)"@, inked(Color::DarkGray))]
    } else {
        locators.map_values(|l: Seq<char>| one("  "@ + l, inked(Color::White)))
    }
}

/// The line of a link, seen from a session.
pub open spec fn link_line(e: LinkModel, zid: Seq<char>) -> Seq<SpanModel> {
    seq![
        span(
            if e.from_zid == zid {
                "  → "@
            } else {
                "  ← "@
            },
            inked(Color::DarkGray),
        ),
        span(
            head_bytes_of(
                if e.from_zid == zid {
                    e.to_zid
                } else {
                    e.from_zid
                },
                16,
            ),
            inked(Color::White),
        ),
    ] + (match e.link_dst {
        Some(d) => seq![span("  "@ + d, inked(Color::DarkGray))],
        None => Seq::empty(),
    })
}

/// The lines of those among the first `n` links that touch a session.
pub open spec fn touching(links: Seq<LinkModel>, zid: Seq<char>, n: nat) -> Seq<Seq<SpanModel>>
    decreases n,
{
    if n == 0 {
        Seq::empty()
    } else {
        let before = touching(links, zid, (n - 1) as nat);
        let e = links[n - 1];
        if e.from_zid == zid || e.to_zid == zid {
            before.push(link_line(e, zid))
        } else {
            before
        }
    }
}

/// The lines of the links of a session.
pub open spec fn link_lines(links: Seq<LinkModel>, zid: Seq<char>) -> Seq<Seq<SpanModel>> {
    let found = touching(links, zid, links.len());
    if found.len() == 0 {
        seq![one("  (no links observed)"@, inked(Color::DarkGray))]
    } else {
        found
    }
}

/// The lines of the detail of a session.
pub open spec fn session_lines(n: NodeModel, own: Option<Seq<char>>, links: Seq<LinkModel>) -> Seq<
    Seq<SpanModel>,
> {
    seq![
        seq![
            span("kind: "@, inked(Color::Gray)),
            span(n.kind, inked(color_of(n.kind))),
        ] + (if own == Some(n.zid) {
            seq![span("  (self)"@, strong(Color::Cyan))]
        } else {
            Seq::empty()
        }),
        seq![span("zid: "@, inked(Color::Gray)), span(n.zid, inked(Color::Yellow))],
        blank(),
        section_line("─ locators ─"@),
    ] + locator_lines(n.locators) + seq![blank(), section_line("─ links ─"@)] + link_lines(
        links,
        n.zid,
    )
}

/// How long ago something happened, in words.
pub open spec fn ago_words(secs: u64) -> Seq<char> {
    if secs < 60 {
        right_aligned(decimal(secs as nat), 3) + "s ago"@
    } else {
        right_aligned(decimal((secs / 60) as nat), 2) + "m "@ + zero_padded(
            (secs % 60) as nat,
            2,
        ) + "s"@
    }
}

/// The line of a join or a leave.
pub open spec fn event_line(e: RecordModel, now: u64) -> Seq<SpanModel> {
    seq![
        span(
            "  "@ + ago_words(since(e.timestamp, now) / NANOS_PER_SEC) + " "@,
            inked(Color::DarkGray),
        ),
        if e.is_join {
            span("JOIN "@, inked(Color::Green))
        } else {
            span("LEAVE"@, inked(Color::Red))
        },
    ]
}

/// The lines of those among the first `n` log entries that are of a key.
pub open spec fn events_of(log: Seq<RecordModel>, key: Seq<char>, now: u64, n: nat) -> Seq<
    Seq<SpanModel>,
>
    decreases n,
{
    if n == 0 {
        Seq::empty()
    } else {
        let before = events_of(log, key, now, (n - 1) as nat);
        if log[n - 1].key_expr == key {
            before.push(event_line(log[n - 1], now))
        } else {
            before
        }
    }
}

/// The lines of the joins and leaves of a key, newest first.
pub open spec fn event_lines(log: Seq<RecordModel>, key: Seq<char>, now: u64) -> Seq<
    Seq<SpanModel>,
> {
    let found = events_of(log, key, now, log.len());
    if found.len() == 0 {
        seq![one("  (no events recorded)"@, inked(Color::DarkGray))]
    } else {
        found
    }
}

/// The group of a token, in words.
pub open spec fn shown_group(t: TokenModel) -> Seq<char> {
    match t.group {
        Some(g) => if g.len() > 0 {
            g
        } else {
            "(ungrouped)"@
        },
        None => "(ungrouped)"@,
    }
}

/// The first lines of the detail of a token.
pub open spec fn service_heading(t: TokenModel) -> Seq<Seq<SpanModel>> {
    seq![
        seq![
            span("status: "@, inked(Color::Gray)),
            if t.alive {
                span("● alive"@, inked(Color::Green))
            } else {
                span("○ dead"@, inked(Color::Red))
            },
        ],
        seq![span("key: "@, inked(Color::Gray)), span(t.key_expr, inked(Color::White))],
        seq![
            span("group: "@, inked(Color::Gray)),
            span(shown_group(t), inked(Color::White)),
        ],
        blank(),
        section_line("─ join/leave history ─"@),
    ]
}

/// The lines of the detail of a token.
pub open spec fn service_lines(t: TokenModel, log: Seq<RecordModel>, now: u64) -> Seq<
    Seq<SpanModel>,
> {
    service_heading(t) + event_lines(log, t.key_expr, now)
}

impl AppModel {
    /// The detail pane of the Network space; `links` is the observed topology.
    pub open spec fn network_detail(self, area: Rect, links: Seq<LinkModel>, now: u64) -> Seq<
        PaintModel,
    > {
        match self.network.selected_row() {
            Some(NetworkRow::Session(i)) => {
                let n = self.network.nodes[i as int];
                seq![
                    block(area, " "@ + n.kind + " "@ + head_bytes_of(n.zid, 16) + " "@, plain()),
                    scrolling(
                        area.inside(),
                        session_lines(n, self.network.self_zid, links),
                        self.network.node_detail_scroll,
                    ),
                ]
            },
            Some(NetworkRow::Service(i)) => {
                let t = self.network.liveliness_tokens[i as int];
                seq![
                    block(area, " "@ + t.shown_name() + " "@, plain()),
                    scrolling(
                        area.inside(),
                        service_lines(t, self.network.liveliness_events, now),
                        self.network.node_detail_scroll,
                    ),
                ]
            },
            None => seq![
                block(area, " Detail "@, plain()),
                empty_paint(area.inside(), self.nodes_reason()),
            ],
        }
    }
}

fn link_row(e: &Link, zid: &str) -> (l: Line)
    ensures
        l@ == link_line(e@, zid@),
{
    let outward = same(e.from_zid.as_str(), zid);
    let other = if outward {
        zid_short(e.to_zid.as_str())
    } else {
        zid_short(e.from_zid.as_str())
    };
    let mut l = Line::two(
        Span::of(
            if outward {
                "  → "
            } else {
                "  ← "
            },
            Style::fg(Color::DarkGray),
        ),
        Span::owned(other, Style::fg(Color::White)),
    );
    if let Some(d) = &e.link_dst {
        let words = cat("  ", d.as_str());
        l.add(Span::owned(words, Style::fg(Color::DarkGray)));
    }
    assert(l@ =~= link_line(e@, zid@));
    l
}

fn put_links(v: &mut Vec<Line>, links: &Vec<Link>, zid: &str)
    ensures
        lines_of(final(v)@) == lines_of(old(v)@) + link_lines(link_models(links@), zid@),
{
    let ghost start = lines_of(v@);
    let ghost all = link_models(links@);
    let mut any = false;
    let mut i: usize = 0;
    assert(start + touching(all, zid@, 0) =~= start);
    while i < links.len()
        invariant
            i <= links.len(),
            all == link_models(links@),
            lines_of(v@) == start + touching(all, zid@, i as nat),
            any == (touching(all, zid@, i as nat).len() > 0),
        decreases links.len() - i,
    {
        assert(all[i as int] == links@[i as int]@);
        if same(links[i].from_zid.as_str(), zid) || same(links[i].to_zid.as_str(), zid) {
            put(v, link_row(&links[i], zid));
            any = true;
        }
        assert(lines_of(v@) =~= start + touching(all, zid@, (i + 1) as nat));
        i = i + 1;
    }
    if !any {
        put(v, Line::one("  (no links observed)", Style::fg(Color::DarkGray)));
    }
    assert(lines_of(v@) =~= start + link_lines(all, zid@));
}

fn put_locators(v: &mut Vec<Line>, locators: &Vec<String>)
    ensures
        lines_of(final(v)@) == lines_of(old(v)@) + locator_lines(texts(locators@)),
{
    let ghost start = lines_of(v@);
    let ghost all = texts(locators@);
    if locators.len() == 0 {
        put(v, Line::one("  (none)", Style::fg(Color::DarkGray)));
        assert(lines_of(v@) =~= start + locator_lines(all));
        return;
    }
    let ghost shown = locator_lines(all);
    let mut i: usize = 0;
    assert(start + shown.take(0) =~= start);
    while i < locators.len()
        invariant
            i <= locators.len(),
            locators.len() > 0,
            all == texts(locators@),
            shown == locator_lines(all),
            lines_of(v@) == start + shown.take(i as int),
        decreases locators.len() - i,
    {
        assert(all[i as int] == locators@[i as int]@);
        let words = cat("  ", locators[i].as_str());
        put(v, Line::one(words.as_str(), Style::fg(Color::White)));
        assert(lines_of(v@) =~= start + shown.take(i + 1));
        i = i + 1;
    }
    assert(shown.take(shown.len() as int) =~= shown);
}

/// How long ago something happened, in words.
fn format_ago(secs: u64) -> (s: String)
    ensures
        s@ == ago_words(secs),
{
    if secs < 60 {
        let n = decimal_text(secs);
        let wide = pad_left(n.as_str(), 3);
        cat(wide.as_str(), "s ago")
    } else {
        let m = decimal_text(secs / 60);
        let wide = pad_left(m.as_str(), 2);
        let rest = crate::text::zero_pad(secs % 60, 2);
        let s = cat4(wide.as_str(), "m ", rest.as_str(), "s");
        assert(s@ =~= ago_words(secs));
        s
    }
}

fn event_row(e: &LivelinessEventRecord, now: u64) -> (l: Line)
    ensures
        l@ == event_line(e@, now),
{
    let ago = format_ago(elapsed(e.timestamp, now) / NANOS_PER_SEC);
    let words = cat3("  ", ago.as_str(), " ");
    let l = Line::two(
        Span::owned(words, Style::fg(Color::DarkGray)),
        if e.is_join {
            Span::of("JOIN ", Style::fg(Color::Green))
        } else {
            Span::of("LEAVE", Style::fg(Color::Red))
        },
    );
    assert(l@ =~= event_line(e@, now));
    l
}

impl App {
    fn put_events(&self, v: &mut Vec<Line>, key: &str, now: u64)
        ensures
            lines_of(final(v)@) == lines_of(old(v)@) + event_lines(
                self@.network.liveliness_events,
                key@,
                now,
            ),
    {
        let ghost start = lines_of(v@);
        let ghost log = self@.network.liveliness_events;
        let mut any = false;
        let mut i: usize = 0;
        assert(start + events_of(log, key@, now, 0) =~= start);
        while i < self.network.liveliness_events.len()
            invariant
                i <= self.network.liveliness_events@.len(),
                log == self@.network.liveliness_events,
                lines_of(v@) == start + events_of(log, key@, now, i as nat),
                any == (events_of(log, key@, now, i as nat).len() > 0),
            decreases self.network.liveliness_events@.len() - i,
        {
            let e = &self.network.liveliness_events[i];
            assert(log[i as int] == e@);
            if same(e.key_expr.as_str(), key) {
                put(v, event_row(e, now));
                any = true;
            }
            assert(lines_of(v@) =~= start + events_of(log, key@, now, (i + 1) as nat));
            i = i + 1;
        }
        if !any {
            put(v, Line::one("  (no events recorded)", Style::fg(Color::DarkGray)));
        }
        assert(log.len() == self.network.liveliness_events@.len());
        assert(lines_of(v@) =~= start + event_lines(log, key@, now));
    }

    /// The lines of the detail of a session.
    fn session_text(&self, node: &NodeInfo, links: &Vec<Link>) -> (v: Vec<Line>)
        ensures
            lines_of(v@) == session_lines(node@, self@.network.self_zid, link_models(links@)),
    {
        let mut v = no_lines();
        let mut kind = Line::two(
            Span::of("kind: ", Style::fg(Color::Gray)),
            Span::of(node.kind.as_str(), Style::fg(kind_color(node.kind.as_str()))),
        );
        if is_own(node, &self.network.self_zid) {
            kind.add(Span::of("  (self)", Style::bold(Color::Cyan)));
        }
        let ghost kind_line = seq![
            span("kind: "@, inked(Color::Gray)),
            span(node@.kind, inked(color_of(node@.kind))),
        ] + (if self@.network.self_zid == Some(node@.zid) {
            seq![span("  (self)"@, strong(Color::Cyan))]
        } else {
            Seq::empty()
        });
        assert(kind@ =~= kind_line);
        put(&mut v, kind);
        put(
            &mut v,
            Line::two(
                Span::of("zid: ", Style::fg(Color::Gray)),
                Span::of(node.zid.as_str(), Style::fg(Color::Yellow)),
            ),
        );
        put(&mut v, Line::empty());
        put(&mut v, Line::one("─ locators ─", Style::dim(Color::Gray)));
        put_locators(&mut v, &node.locators);
        put(&mut v, Line::empty());
        put(&mut v, Line::one("─ links ─", Style::dim(Color::Gray)));
        put_links(&mut v, links, node.zid.as_str());
        assert(lines_of(v@) =~= session_lines(
            node@,
            self@.network.self_zid,
            link_models(links@),
        ));
        v
    }

    /// The lines of the detail of a token.
    fn service_text(&self, token: &LivelinessToken, now: u64) -> (v: Vec<Line>)
        ensures
            lines_of(v@) == service_lines(token@, self@.network.liveliness_events, now),
    {
        let mut v = no_lines();
        put(
            &mut v,
            Line::two(
                Span::of("status: ", Style::fg(Color::Gray)),
                if token.alive {
                    Span::of("● alive", Style::fg(Color::Green))
                } else {
                    Span::of("○ dead", Style::fg(Color::Red))
                },
            ),
        );
        put(
            &mut v,
            Line::two(
                Span::of("key: ", Style::fg(Color::Gray)),
                Span::of(token.key_expr.as_str(), Style::fg(Color::White)),
            ),
        );
        let group = match &token.group {
            Some(g) => if !g.as_str().is_empty() {
                g.clone()
            } else {
                "(ungrouped)".to_owned()
            },
            None => "(ungrouped)".to_owned(),
        };
        assert(group@ == shown_group(token@));
        put(
            &mut v,
            Line::two(
                Span::of("group: ", Style::fg(Color::Gray)),
                Span::owned(group, Style::fg(Color::White)),
            ),
        );
        put(&mut v, Line::empty());
        put(&mut v, Line::one("─ join/leave history ─", Style::dim(Color::Gray)));
        let ghost heading = service_heading(token@);
        assert(lines_of(v@) =~= heading);
        self.put_events(&mut v, token.key_expr.as_str(), now);
        assert(lines_of(v@) =~= service_lines(token@, self@.network.liveliness_events, now));
        v
    }

    /// The detail pane of the Network space: the selected session or token. `links` is
    /// the observed topology.
    pub fn render_network_detail(&self, area: Rect, links: &Vec<Link>, now: u64) -> (v: Vec<Paint>)
        ensures
            paints_of(v@) == self@.network_detail(area, link_models(links@), now),
    {
        let mut v = nothing();
        let scroll: u16 = self.network.node_detail_scroll;
        match self.network.selected_network_row() {
            Some(NetworkRow::Session(i)) => {
                let node = &self.network.nodes[i];
                assert(self@.network.nodes[i as int] == node@);
                let short = zid_short(node.zid.as_str());
                let left = cat3(" ", node.kind.as_str(), " ");
                let title = cat3(left.as_str(), short.as_str(), " ");
                assert(title@ =~= " "@ + node@.kind + " "@ + head_bytes_of(node@.zid, 16) + " "@);
                paint(&mut v, Paint::block(area, title.as_str(), Style::plain()));
                let lines = self.session_text(node, links);
                paint(&mut v, Paint::scrolling(area.inner(), lines, scroll));
            },
            Some(NetworkRow::Service(i)) => {
                let token = &self.network.liveliness_tokens[i];
                assert(self@.network.liveliness_tokens[i as int] == token@);
                let name = token.display_name();
                let title = cat3(" ", name.as_str(), " ");
                paint(&mut v, Paint::block(area, title.as_str(), Style::plain()));
                let lines = self.service_text(token, now);
                paint(&mut v, Paint::scrolling(area.inner(), lines, scroll));
            },
            None => {
                paint(&mut v, Paint::block(area, " Detail ", Style::plain()));
                paint(&mut v, render_empty_state(area.inner(), self.nodes_empty_reason()));
            },
        }
        assert(paints_of(v@) =~= self@.network_detail(area, link_models(links@), now));
        v
    }
}

/// The list and its click map stay in step: one entry for each drawn line, and the
/// entries that select something count through the rows in order.
pub proof fn law_the_click_map_covers_every_row(m: NetworkModel, n: nat, now: u64)
    requires
        n <= m.rows().len() <= usize::MAX,
    ensures
        listing(m, n, now).items.len() == listing(m, n, now).clicks.len(),
        forall|k: usize| k < n ==> #[trigger] listing(m, n, now).clicks.contains(Some(k)),
        forall|i: int|
            0 <= i < listing(m, n, now).clicks.len() ==> (#[trigger] listing(m, n, now).clicks[i] matches Some(
                k,
            ) ==> k < n),
    decreases n,
{
    if n > 0 {
        law_the_click_map_covers_every_row(m, (n - 1) as nat, now);
        let before = listing(m, (n - 1) as nat, now).clicks;
        let after = listing(m, n, now).clicks;
        assert(before.len() < after.len());
        assert(forall|i: int| 0 <= i < before.len() ==> after[i] == before[i]);
        assert(after.last() == Some((n - 1) as usize));
        assert forall|k: usize| k < n implies #[trigger] after.contains(Some(k)) by {
            if k < n - 1 {
                assert(before.contains(Some(k)));
                let i = choose|i: int| 0 <= i < before.len() && before[i] == Some(k);
                assert(after[i] == Some(k));
            } else {
                assert(after[after.len() - 1] == Some(k));
            }
        }
        assert forall|i: int| 0 <= i < after.len() implies (#[trigger] after[i] matches Some(k)
            ==> k < n) by {
            if i < before.len() {
                assert(after[i] == before[i]);
            }
        }
    }
}

} // verus!
