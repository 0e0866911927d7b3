//! What the lists and the details tell of keys and participants.
use vstd::prelude::*;

use crate::app::feed::FeedModel;
use crate::app::network_pane::{NetworkModel, NodeModel, RecordModel, TokenModel};
use crate::app::query::{QueryModel, StatusModel};
use crate::app::state::AppModel;
use crate::app::tree_pane::PaneModel;
use crate::app::types::DetailMode;
use crate::diff::changes;
use crate::text::{decimal, head_bytes_of, zero_padded};
use crate::text_laws::part_of;
use crate::tree::RowKind;
use crate::view::detail::{
    answer_line, contract_line, history_lines, latest_lines, mode_line, moved_words, plot_lines,
    query_lines, range_words, series_lines, stats_words, status_line, EnrichmentModel, PlotModel,
};
use crate::view::network::{
    ago_words, drawn_at, event_line, full_listing, link_line, listing, locator_lines, node_line,
    service_lines, session_lines, LinkModel,
};
use crate::view::popup_laws::{lemma_onward, lemma_part, tells_of};
use crate::view::style::{chosen, Color};
use crate::view::traffic::{
    busiest, busy_line, busy_lines, is_active, label_width, master_title, row_line,
    row_lines, starts, unprefixed, RatesModel,
};

verus! {

// ---------------------------------------------------------------------------
// The key tree
// ---------------------------------------------------------------------------

/// Every row shows what it stands for: a key its name and the rate of that very key, a
/// branch its name and how many keys are below it, a fold how many it hides.
pub proof fn law_a_row_shows_what_it_stands_for(
    pane: PaneModel,
    feed: FeedModel,
    rates: RatesModel,
    width: u16,
    now: u64,
    i: int,
)
    requires
        0 <= i < pane.rows.len(),
    ensures
        row_lines(pane, feed, rates, width, now).len() == pane.rows.len(),
        ({
            let row = pane.rows[i];
            let line = row_lines(pane, feed, rates, width, now)[i];
            match row.kind {
                RowKind::FoldSummary { hidden } => tells_of(line, decimal(hidden as nat)),
                RowKind::Branch { .. } => part_of(row.segment, line[1].text) && tells_of(
                    line,
                    decimal(row.key_count),
                ),
                RowKind::Leaf => {
                    let sent = feed.hz.dom().contains(row.path) && feed.hz[row.path].messages > 0;
                    &&& line[1].text == row.segment
                    &&& line[3].style.fg == Some(Color::Green) <==> sent
                    &&& sent && rates.hz.dom().contains(row.path) ==> part_of(
                        rates.hz[row.path],
                        line[3].text,
                    )
                    &&& rates.sparks.dom().contains(row.path) ==> line[5].text
                        == rates.sparks[row.path]
                },
            }
        }),
{
    let row = pane.rows[i];
    let line = row_line(row, feed, rates, label_width(pane.rows, width), now);
    let none = Seq::<char>::empty();
    match row.kind {
        RowKind::FoldSummary { hidden } => {
            let n = decimal(hidden as nat);
            lemma_part("… "@, n, " more — l to list, / to search"@);
            assert(part_of(n, line[1].text));
        },
        RowKind::Branch { .. } => {
            assert(line[1].text =~= none + row.segment + "/"@);
            lemma_part(none, row.segment, "/"@);
            let n = decimal(row.key_count);
            let rest = if row.key_count == 1 {
                " key"@
            } else {
                " keys"@
            };
            if row.key_count == 1 {
                reveal_strlit("1 key");
                reveal_strlit(" key");
                assert(decimal(1) =~= seq!['1']);
            }
            assert(line[3].text =~= none + n + rest);
            lemma_part(none, n, rest);
            assert(part_of(n, line[3].text));
        },
        RowKind::Leaf => {
            if is_active(feed, row.path) && rates.hz.dom().contains(row.path) {
                let hz = rates.hz[row.path];
                let pad = crate::text::spread(' ', 6 - hz.len());
                assert(line[3].text =~= pad + hz + " Hz"@);
                lemma_part(pad, hz, " Hz"@);
            }
        },
    }
}

/// The title of the tree shows the filter while there is one.
pub proof fn law_the_title_shows_the_filter(pane: PaneModel)
    ensures
        pane.filtering || pane.filter.len() > 0 ==> part_of(pane.filter, master_title(pane)),
{
    let front = " Traffic — "@ + crate::view::traffic::keys_words(pane.tree.keys().len())
        + " · /"@;
    if pane.filtering {
        lemma_part(front, pane.filter, "_ "@);
    } else if pane.filter.len() > 0 {
        lemma_part(front, pane.filter, " "@);
    }
}

/// Below a branch the first eight of its busiest keys are shown, each without the path
/// of the branch and with its own rate; where nothing is active there is one line.
pub proof fn law_a_branch_shows_its_busiest_keys(
    feed: FeedModel,
    path: Seq<char>,
    rates: RatesModel,
    i: int,
)
    requires
        0 <= i < busiest(feed, path).len(),
        i < 8,
    ensures
        busy_lines(feed, path, rates).len() == 1 + (if busiest(feed, path).len() < 8 {
            busiest(feed, path).len() as int
        } else {
            8
        }),
        ({
            let key = busiest(feed, path)[i];
            let line = busy_lines(feed, path, rates)[i + 1];
            let lead = path + "/"@;
            &&& rates.hz.dom().contains(key) ==> part_of(rates.hz[key], line[0].text)
            &&& starts(key, lead) && !starts(key.skip(lead.len() as int), lead) ==> line[1].text
                == key.skip(lead.len() as int)
            &&& !starts(line[1].text, lead)
        }),
{
    let key = busiest(feed, path)[i];
    let lead = path + "/"@;
    let line = busy_line(key, path, rates);
    assert(busy_lines(feed, path, rates)[i + 1] == line);
    reveal_strlit("/");
    lemma_unprefixed(key, lead);
    if rates.hz.dom().contains(key) {
        let hz = rates.hz[key];
        let pad = crate::text::spread(' ', 6 - hz.len());
        let none = Seq::<char>::empty();
        assert(pad + hz =~= pad + hz + none);
        lemma_part(pad, hz, none);
        lemma_onward(hz, "  "@, pad + hz, "  "@);
        lemma_onward(hz, "  "@, "  "@ + (pad + hz), " Hz  "@);
    }
    if starts(key, lead) && !starts(key.skip(lead.len() as int), lead) {
        reveal_with_fuel(unprefixed, 2);
    }
}

proof fn lemma_unprefixed(s: Seq<char>, p: Seq<char>)
    requires
        p.len() > 0,
    ensures
        !starts(unprefixed(s, p), p),
    decreases s.len(),
{
    if starts(s, p) {
        lemma_unprefixed(s.skip(p.len() as int), p);
    }
}

// ---------------------------------------------------------------------------
// The participants
// ---------------------------------------------------------------------------

/// A session shows its kind and the beginning of its identity, is grey when it is stale
/// and green otherwise, and is marked exactly when it is our own.
pub proof fn law_a_session_shows_who_it_is(n: NodeModel, own: Option<Seq<char>>, now: u64)
    ensures
        n.stale(now) ==> node_line(n, own, now)[0].style.fg == Some(Color::DarkGray),
        !n.stale(now) ==> node_line(n, own, now)[0].style.fg == Some(Color::Green),
        part_of(n.kind, node_line(n, own, now)[1].text),
        node_line(n, own, now)[2].text == head_bytes_of(n.zid, 16),
        node_line(n, own, now).len() == 3 + (if n.locators.len() > 0 {
            1int
        } else {
            0
        }) + (if own == Some(n.zid) {
            1int
        } else {
            0
        }),
        n.locators.len() > 0 ==> part_of(n.locators[0], node_line(n, own, now)[3].text),
        own == Some(n.zid) ==> node_line(n, own, now).last().text == "  (self)"@,
{
    let none = Seq::<char>::empty();
    assert(n.kind + " "@ =~= none + n.kind + " "@);
    lemma_part(none, n.kind, " "@);
    if n.locators.len() > 0 {
        assert("  "@ + n.locators[0] =~= "  "@ + n.locators[0] + none);
        lemma_part("  "@, n.locators[0], none);
    }
}

/// The detail of a session shows its kind, its whole identity, every locator in its
/// order, and then its links.
pub proof fn law_the_detail_of_a_session_is_whole(
    n: NodeModel,
    own: Option<Seq<char>>,
    links: Seq<LinkModel>,
    i: int,
)
    requires
        0 <= i < n.locators.len(),
    ensures
        session_lines(n, own, links)[0][1].text == n.kind,
        session_lines(n, own, links)[0].len() == 3 <==> own == Some(n.zid),
        session_lines(n, own, links)[1][1].text == n.zid,
        tells_of(session_lines(n, own, links)[4 + i], n.locators[i]),
        session_lines(n, own, links).skip(6 + n.locators.len() as int)
            == crate::view::network::link_lines(links, n.zid),
{
    let none = Seq::<char>::empty();
    let l = n.locators[i];
    let line = locator_lines(n.locators)[i];
    assert(session_lines(n, own, links)[4 + i] == line);
    assert(line[0].text =~= "  "@ + l + none);
    lemma_part("  "@, l, none);
    assert(session_lines(n, own, links).skip(6 + n.locators.len() as int)
        =~= crate::view::network::link_lines(links, n.zid));
}

/// A link shows its other end, and whether it was made from here or from there.
pub proof fn law_a_link_shows_its_other_end(e: LinkModel, zid: Seq<char>)
    ensures
        e.from_zid == zid ==> link_line(e, zid)[0].text == "  → "@ && link_line(e, zid)[1].text
            == head_bytes_of(e.to_zid, 16),
        e.from_zid != zid ==> link_line(e, zid)[0].text == "  ← "@ && link_line(e, zid)[1].text
            == head_bytes_of(e.from_zid, 16),
        e.link_dst matches Some(d) ==> tells_of(link_line(e, zid), d),
{
    let none = Seq::<char>::empty();
    if let Some(d) = e.link_dst {
        assert(link_line(e, zid)[2].text =~= "  "@ + d + none);
        lemma_part("  "@, d, none);
    }
}

/// The detail of a service shows whether it is alive, and its key.
pub proof fn law_the_detail_of_a_service_tells_its_state(
    t: TokenModel,
    log: Seq<RecordModel>,
    now: u64,
)
    ensures
        service_lines(t, log, now)[0][1].text == (if t.alive {
            "● alive"@
        } else {
            "○ dead"@
        }),
        service_lines(t, log, now)[0][1].style.fg == Some(
            if t.alive {
                Color::Green
            } else {
                Color::Red
            },
        ),
        service_lines(t, log, now)[1][1].text == t.key_expr,
        t.group matches Some(g) ==> g.len() > 0 ==> service_lines(t, log, now)[2][1].text == g,
        t.group is None ==> service_lines(t, log, now)[2][1].text == "(ungrouped)"@,
        service_lines(t, log, now).skip(5) == crate::view::network::event_lines(
            log,
            t.key_expr,
            now,
        ),
{
    assert(service_lines(t, log, now).skip(5) =~= crate::view::network::event_lines(
        log,
        t.key_expr,
        now,
    ));
}

/// A join looks different from a leave, and both say how long ago they were: the seconds
/// below a minute, the minutes and seconds that add up to them from there on.
pub proof fn law_an_event_says_when_it_was(e: RecordModel, now: u64, secs: u64)
    ensures
        e.is_join ==> event_line(e, now)[1].text == "JOIN "@ && event_line(e, now)[1].style.fg
            == Some(Color::Green),
        !e.is_join ==> event_line(e, now)[1].text == "LEAVE"@ && event_line(e, now)[1].style.fg
            == Some(Color::Red),
        now >= e.timestamp ==> tells_of(
            event_line(e, now),
            ago_words(((now - e.timestamp) / 1_000_000_000) as u64),
        ),
        secs < 60 ==> part_of(decimal(secs as nat) + "s ago"@, ago_words(secs)),
        secs >= 60 ==> exists|m: nat, s: nat|
            {
                &&& part_of(
                    #[trigger] (decimal(m) + "m "@ + zero_padded(s, 2)) + "s"@,
                    ago_words(secs),
                )
                &&& s < 60
                &&& 60 * m + s == secs
            },
{
    let none = Seq::<char>::empty();
    if now >= e.timestamp {
        let ago = ago_words(((now - e.timestamp) / 1_000_000_000) as u64);
        assert(event_line(e, now)[0].text == "  "@ + ago + " "@);
        lemma_part("  "@, ago, " "@);
    }
    if secs < 60 {
        let n = decimal(secs as nat);
        let pad = crate::text::spread(' ', 3 - n.len());
        assert(ago_words(secs) =~= pad + (n + "s ago"@) + none);
        lemma_part(pad, n + "s ago"@, none);
    } else {
        let m = (secs / 60) as nat;
        let s = (secs % 60) as nat;
        let n = decimal(m);
        let pad = crate::text::spread(' ', 2 - n.len());
        let words = (n + "m "@ + zero_padded(s, 2)) + "s"@;
        assert(ago_words(secs) =~= pad + words + none);
        lemma_part(pad, words, none);
        assert(60 * m + s == secs);
    }
}

/// The line that is drawn as selected is the one that a click on it selects, and it is
/// that of the participant under the cursor.
pub proof fn law_the_selected_participant_is_drawn_selected(m: NetworkModel, now: u64)
    requires
        m.network_selected < m.rows().len() <= usize::MAX,
    ensures
        drawn_at(m, now) is Some,
        (drawn_at(m, now)->0) < full_listing(m, now).clicks.len(),
        full_listing(m, now).clicks[drawn_at(m, now)->0 as int] == Some(m.network_selected),
{
    let n = (m.network_selected + 1) as nat;
    crate::view::network::law_the_click_map_covers_every_row(m, n, now);
    assert(listing(m, n, now).clicks.last() == Some(m.network_selected));
    lemma_listing_grows(m, n, m.rows().len(), now);
}

proof fn lemma_listing_grows(m: NetworkModel, a: nat, b: nat, now: u64)
    requires
        a <= b,
    ensures
        listing(m, a, now).clicks.is_prefix_of(listing(m, b, now).clicks),
    decreases b,
{
    if a < b {
        lemma_listing_grows(m, a, (b - 1) as nat, now);
        assert(listing(m, (b - 1) as nat, now).clicks.is_prefix_of(listing(m, b, now).clicks));
    }
}

// ---------------------------------------------------------------------------
// Queries, plots and contracts
// ---------------------------------------------------------------------------

/// Every answer of a query is shown in its order, with its key; the state says how many
/// there are, or what went wrong.
pub proof fn law_a_query_shows_its_answers(q: QueryModel, i: int)
    ensures
        0 <= i < q.query_results.len() ==> query_lines(q)[3 + i] == answer_line(
            q.query_results[i],
        ) && answer_line(q.query_results[i])[0].text == q.query_results[i].key_expr,
        q.query_status matches StatusModel::Done(n) ==> tells_of(query_lines(q)[0], decimal(n))
            && query_lines(q)[0][0].style.fg == Some(Color::Green),
        q.query_status matches StatusModel::Error(e) ==> tells_of(query_lines(q)[0], e)
            && query_lines(q)[0][0].style.fg == Some(Color::Red),
        q.query_results.len() > 0 ==> query_lines(q).len() == 3 + q.query_results.len(),
{
    let none = Seq::<char>::empty();
    match q.query_status {
        StatusModel::Done(n) => {
            assert(status_line(q.query_status)[0].text == "Done — "@ + decimal(n)
                + " result(s)"@);
            lemma_part("Done — "@, decimal(n), " result(s)"@);
        },
        StatusModel::Error(e) => {
            assert(status_line(q.query_status)[0].text =~= "Error: "@ + e + none);
            lemma_part("Error: "@, e, none);
        },
        _ => {},
    }
}

/// A plot shows the newest value, the least and the greatest in this order, and how many
/// values there are.
pub proof fn law_a_plot_shows_its_range(p: PlotModel, count: nat, name: Seq<char>, width: u16)
    ensures
        series_lines(p, count, name, width)[1][1].text == p.spark,
        series_lines(p, count, name, width)[1][3].text == p.value,
        tells_of(series_lines(p, count, name, width)[0], name),
        range_words(p.min, p.max, count) == "min "@ + p.min + "  max "@ + p.max + "  n "@
            + decimal(count),
        tells_of(series_lines(p, count, name, width)[1], range_words(p.min, p.max, count))
            || tells_of(series_lines(p, count, name, width)[2], range_words(p.min, p.max, count)),
{
    let none = Seq::<char>::empty();
    let r = range_words(p.min, p.max, count);
    let lines = series_lines(p, count, name, width);
    assert(lines[0][0].text == "─ "@ + name + " ─"@);
    lemma_part("─ "@, name, " ─"@);
    if crate::view::detail::plot_room(width, p.value.len(), r.len()).1 {
        assert(lines[2][0].text =~= "  "@ + r + none);
        lemma_part("  "@, r, none);
    } else {
        assert(lines[1][4].text =~= "   "@ + r + none);
        lemma_part("   "@, r, none);
    }
}

/// A key that nothing declares is called undeclared. One that is declared says so, and
/// where its messages are encoded otherwise what was expected and what came.
pub proof fn law_a_contract_tells_what_does_not_match(e: EnrichmentModel, encoding: Seq<char>)
    ensures
        !e.declared ==> contract_line(e, encoding).len() == 1 && contract_line(e, encoding)[0].text
            == "undeclared"@,
        e.declared ==> contract_line(e, encoding)[0].text == "contract ✓"@,
        e.declared && e.encoding_matches == Some(false) && e.encoding_expected is Some
            && encoding.len() > 0 ==> contract_line(e, encoding)[1].text == "  encoding: expected "@
            + e.encoding_expected->0 + ", got "@ + encoding,
        e.declared && e.encoding_matches != Some(false) && e.description is None ==> contract_line(
            e,
            encoding,
        ).len() == 1,
        e.declared && e.description is Some ==> part_of(
            e.description->0,
            contract_line(e, encoding).last().text,
        ),
{
    let none = Seq::<char>::empty();
    if let Some(d) = e.description {
        assert("  "@ + d =~= "  "@ + d + none);
        lemma_part("  "@, d, none);
    }
}

// ---------------------------------------------------------------------------
// The heading of a key
// ---------------------------------------------------------------------------

/// The heading of a key marks the way of looking at it that is on, and what is below
/// follows it: the answers of the query, or what comes in.
pub proof fn law_the_detail_follows_the_mode(
    m: AppModel,
    key: Seq<char>,
    width: u16,
    plot: Option<PlotModel>,
)
    ensures
        mode_line(m.detail_mode)[0].style == chosen() <==> m.detail_mode == DetailMode::Live,
        mode_line(m.detail_mode)[2].style == chosen() <==> m.detail_mode == DetailMode::Query,
        m.detail_mode == DetailMode::Query ==> m.body_lines(key, width, plot) == query_lines(
            m.query,
        ),
        m.detail_mode == DetailMode::Live ==> {
            let lines = m.body_lines(key, width, plot);
            let above = plot_lines(m, key, width, plot);
            let newest = latest_lines(m, key);
            let history = history_lines(m, key);
            &&& above.is_prefix_of(lines)
            &&& lines.subrange(above.len() as int, above.len() + newest.len() as int) == newest
            &&& lines.len() >= above.len() + newest.len() + history.len()
            &&& lines.skip(lines.len() - history.len()) == history
        },
{
    let lines = m.body_lines(key, width, plot);
    let above = plot_lines(m, key, width, plot);
    let newest = latest_lines(m, key);
    let history = history_lines(m, key);
    if m.detail_mode == DetailMode::Live {
        assert(lines.subrange(above.len() as int, above.len() + newest.len() as int) =~= newest);
        assert(lines.skip(lines.len() - history.len()) =~= history);
    }
}

/// While comparing is off, or there is nothing to compare with, nothing is said of
/// changes. A document that is as it was is called unchanged.
pub proof fn law_what_moved_is_counted(m: AppModel, key: Seq<char>)
    ensures
        ({
            let rings = m.feed.history.rings;
            let compares = m.diff_enabled && rings.dom().contains(key) && rings[key].len() > 1;
            let moved = changes(
                rings[key][0].view,
                Some(rings[key][1].view),
                Seq::empty(),
                Map::empty(),
            ).dom().len();
            &&& !compares ==> moved_words(m, key).len() == 0
            &&& compares && moved == 0 ==> moved_words(m, key) == " · unchanged"@
            &&& compares && moved > 1 ==> part_of(decimal(moved), moved_words(m, key))
        }),
{
    reveal_strlit("");
    let rings = m.feed.history.rings;
    let moved = changes(
        rings[key][0].view,
        Some(rings[key][1].view),
        Seq::empty(),
        Map::empty(),
    ).dom().len();
    lemma_part(" · "@, decimal(moved), " fields changed"@);
}

/// The heading shows the rate and how many messages are held of this very key.
pub proof fn law_the_heading_counts_what_is_held(
    m: AppModel,
    key: Seq<char>,
    hz: Seq<char>,
    now: u64,
)
    requires
        m.feed.history.rings.dom().contains(key),
    ensures
        part_of(hz + " Hz"@, stats_words(m, key, hz, now)),
        part_of(
            decimal(m.feed.history.rings[key].len()) + " held"@,
            stats_words(m, key, hz, now),
        ),
{
    let none = Seq::<char>::empty();
    let t = stats_words(m, key, hz, now);
    reveal_strlit(" Hz · ");
    reveal_strlit(" Hz");
    let speed = hz + " Hz"@;
    let long = " Hz · "@;
    assert(hz + long =~= none + speed + long.skip(3));
    lemma_part(none, speed, long.skip(3));
    let flow = crate::app::rate::bandwidth(
        crate::app::feed::window_at(m.feed.rates, key).latest(),
    );
    let encoding = if crate::view::detail::encoding_of(m.feed, key).len() > 0 {
        " · "@ + crate::view::detail::encoding_of(m.feed, key)
    } else {
        ""@
    };
    let n = decimal(m.feed.history.rings[key].len());
    let a = hz + long + flow + encoding;
    let moved = moved_words(m, key);
    let silent = crate::view::detail::silent_words(m.feed, key, now);
    lemma_onward(speed, none, hz + long, flow);
    lemma_onward(speed, none, hz + long + flow, encoding);
    lemma_onward(speed, none, a, " · "@);
    lemma_onward(speed, none, a + " · "@, n);
    let b = a + " · "@ + n + " held"@;
    lemma_onward(speed, none, a + " · "@ + n, " held"@);
    lemma_onward(speed, none, b, moved);
    lemma_onward(speed, none, b + moved, silent);
    let held = n + " held"@;
    assert(b =~= (a + " · "@) + held + none);
    lemma_part(a + " · "@, held, none);
    lemma_onward(held, none, b, moved);
    lemma_onward(held, none, b + moved, silent);
}

} // verus!
