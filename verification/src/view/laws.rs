//! What is shown, in terms of what is known.
use vstd::prelude::*;

use crate::app::feed::FeedModel;
use crate::app::network_pane::{RecordModel, TokenModel};
use crate::app::rate::{bandwidth, faster, round_half_even, Rate};
use crate::app::state::AppModel;
use crate::app::types::{Overlay, PaneFocus, Space};
use crate::diff::{doc_lines, DiffTag, LineModel};
use crate::text::{decimal, digit, head_bytes_of, lemma_head_bytes_fits, utf8_width};
use crate::tree::{RowKind, RowModel};
use crate::view::detail::{
    baseline, document_line, entry_lines, held_of, history_line, history_lines, latest_lines,
    style_of,
};
use crate::view::fmt::{capped, first_of, idle_words, lemma_first_of, spaced_date, zeros_trimmed};
use crate::view::frame::{FrameAreas, FrameModel};
use crate::view::layout::{scrolled_past, BodyLayout};
use crate::view::network::{
    events_of, event_line, group_of, link_line, tally, token_line, touching, LinkModel,
};
use crate::view::style::Color;
use crate::view::traffic::{
    at_or_below, bytes_below, expander, keys_words, label_len, longest, prefix_of, starts,
};

verus! {

// ---------------------------------------------------------------------------
// The detail
// ---------------------------------------------------------------------------

/// Lines that changed, were added or were removed each look different from each other
/// and from lines that did not.
pub proof fn law_verdicts_look_different(a: DiffTag, b: DiffTag)
    ensures
        style_of(a) == style_of(b) <==> a == b,
        style_of(DiffTag::Changed).fg == Some(Color::Yellow) && style_of(DiffTag::Changed).bold,
        style_of(DiffTag::Added).fg == Some(Color::Green),
        style_of(DiffTag::Removed).fg == Some(Color::Red),
{
}

/// A line of a document is its text, two columns further in for each level, in the look
/// of its verdict.
pub proof fn law_a_document_line_is_its_text(l: LineModel)
    ensures
        document_line(l).len() == 1,
        document_line(l)[0].text.len() == 2 + 2 * l.indent + l.text.len(),
        document_line(l)[0].text.skip(2 + 2 * l.indent) == l.text,
        forall|i: int| 0 <= i < 2 + 2 * l.indent ==> #[trigger] document_line(l)[0].text[i] == ' ',
        document_line(l)[0].style == style_of(l.tag),
{
    reveal_strlit("  ");
    assert(document_line(l)[0].text.skip(2 + 2 * l.indent) =~= l.text);
}

/// The detail of a key shows its newest message, compared with the one right before it
/// while comparing is on and there is one, and with nothing otherwise.
pub proof fn law_the_newest_is_compared_with_the_one_before(m: AppModel, key: Seq<char>)
    requires
        m.feed.history.rings.dom().contains(key),
        m.feed.history.rings[key].len() > 0,
        !m.feed.history.rings[key][0].truncated,
    ensures
        ({
            let ring = m.feed.history.rings[key];
            let doc = if m.diff_enabled && ring.len() > 1 {
                doc_lines(ring[0].view, Some(ring[1].view), true, 0, None)
            } else {
                doc_lines(ring[0].view, None, false, 0, None)
            };
            &&& latest_lines(m, key).len() == doc.len() + 1
            &&& forall|i: int|
                0 <= i < doc.len() ==> #[trigger] latest_lines(m, key)[i + 1] == document_line(
                    doc[i],
                )
        }),
{
    let ring = m.feed.history.rings[key];
    let prev = baseline(m, key);
    let doc = doc_lines(ring[0].view, prev, prev is Some, 0, None);
    let lines = latest_lines(m, key);
    assert(entry_lines(ring[0], prev) =~= doc.map_values(|l: LineModel| document_line(l)));
    assert forall|i: int| 0 <= i < doc.len() implies #[trigger] lines[i + 1] == document_line(
        doc[i],
    ) by {}
}

/// The history lists every message that is held of the key, the newest first.
pub proof fn law_the_history_lists_what_is_held(m: AppModel, key: Seq<char>, i: int)
    requires
        m.feed.history.rings.dom().contains(key),
        0 <= i < m.feed.history.rings[key].len(),
    ensures
        held_of(m.feed, key) == m.feed.history.rings[key].len(),
        history_lines(m, key).len() == m.feed.history.rings[key].len() + 2,
        history_lines(m, key)[i + 2] == history_line(m.feed.history.rings[key][i]),
{
}

// ---------------------------------------------------------------------------
// The participants
// ---------------------------------------------------------------------------

/// The counts of a heading are the tokens of the group, and those of them that are alive.
pub proof fn law_a_heading_counts_who_is_alive(
    tokens: Seq<TokenModel>,
    group: Option<Seq<char>>,
)
    ensures
        tally(tokens, group, tokens.len()).1 == tokens.filter(
            |t: TokenModel| group is None || group_of(t) == group->0,
        ).len(),
        tally(tokens, group, tokens.len()).0 == tokens.filter(
            |t: TokenModel| (group is None || group_of(t) == group->0) && t.alive,
        ).len(),
    decreases tokens.len(),
{
    reveal(Seq::filter);
    if tokens.len() > 0 {
        law_a_heading_counts_who_is_alive(tokens.drop_last(), group);
        lemma_tally_start(tokens, group, (tokens.len() - 1) as nat);
    }
}

proof fn lemma_tally_start(tokens: Seq<TokenModel>, group: Option<Seq<char>>, n: nat)
    requires
        n < tokens.len(),
    ensures
        tally(tokens, group, n) == tally(tokens.drop_last(), group, n),
    decreases n,
{
    if n > 0 {
        lemma_tally_start(tokens, group, (n - 1) as nat);
        assert(tokens.drop_last()[n - 1] == tokens[n - 1]);
    }
}

/// A token that is alive looks different from one that is not, and both show their name.
pub proof fn law_the_dead_look_different(t: TokenModel)
    ensures
        token_line(t).len() >= 2,
        t.alive ==> token_line(t)[0].style.fg == Some(Color::Green),
        !t.alive ==> token_line(t)[0].style.fg == Some(Color::Red),
        t.node_name is Some ==> token_line(t)[1].text == t.node_name->0,
        t.node_name is None ==> token_line(t)[1].text == t.key_expr,
{
}

/// The links of a session are those that start or end at it, in order.
pub proof fn law_the_links_of_a_session_touch_it(links: Seq<LinkModel>, zid: Seq<char>)
    ensures
        touching(links, zid, links.len()) == links.filter(
            |e: LinkModel| e.from_zid == zid || e.to_zid == zid,
        ).map_values(|e: LinkModel| link_line(e, zid)),
    decreases links.len(),
{
    reveal(Seq::filter);
    let p = |e: LinkModel| e.from_zid == zid || e.to_zid == zid;
    let f = |e: LinkModel| link_line(e, zid);
    if links.len() > 0 {
        let first = links.drop_last();
        law_the_links_of_a_session_touch_it(first, zid);
        lemma_touching_start(links, zid, (links.len() - 1) as nat);
        if p(links.last()) {
            assert(first.filter(p).push(links.last()).map_values(f) =~= first.filter(p).map_values(
                f,
            ).push(f(links.last())));
        }
    } else {
        assert(touching(links, zid, 0) =~= links.filter(p).map_values(f));
    }
}

proof fn lemma_touching_start(links: Seq<LinkModel>, zid: Seq<char>, n: nat)
    requires
        n < links.len(),
    ensures
        touching(links, zid, n) == touching(links.drop_last(), zid, n),
    decreases n,
{
    if n > 0 {
        lemma_touching_start(links, zid, (n - 1) as nat);
        assert(links.drop_last()[n - 1] == links[n - 1]);
    }
}

/// The log of a token are the joins and leaves of its key, in order.
pub proof fn law_the_log_of_a_token_is_its_own(log: Seq<RecordModel>, key: Seq<char>, now: u64)
    ensures
        events_of(log, key, now, log.len()) == log.filter(
            |e: RecordModel| e.key_expr == key,
        ).map_values(|e: RecordModel| event_line(e, now)),
    decreases log.len(),
{
    reveal(Seq::filter);
    let p = |e: RecordModel| e.key_expr == key;
    let f = |e: RecordModel| event_line(e, now);
    if log.len() > 0 {
        let first = log.drop_last();
        law_the_log_of_a_token_is_its_own(first, key, now);
        lemma_events_start(log, key, now, (log.len() - 1) as nat);
        if p(log.last()) {
            assert(first.filter(p).push(log.last()).map_values(f) =~= first.filter(p).map_values(
                f,
            ).push(f(log.last())));
        }
    } else {
        assert(events_of(log, key, now, 0) =~= log.filter(p).map_values(f));
    }
}

proof fn lemma_events_start(log: Seq<RecordModel>, key: Seq<char>, now: u64, n: nat)
    requires
        n < log.len(),
    ensures
        events_of(log, key, now, n) == events_of(log.drop_last(), key, now, n),
    decreases n,
{
    if n > 0 {
        lemma_events_start(log, key, now, (n - 1) as nat);
        assert(log.drop_last()[n - 1] == log[n - 1]);
    }
}

// ---------------------------------------------------------------------------
// The key tree
// ---------------------------------------------------------------------------

/// A row is moved in by two columns for each level, and the glyph tells an open branch
/// from a closed one and both from a key.
pub proof fn law_a_row_is_moved_in_by_its_depth(a: RowModel, b: RowModel)
    ensures
        prefix_of(a).len() == 2 * a.depth + 2,
        expander(RowKind::Branch { expanded: true }) != expander(
            RowKind::Branch { expanded: false },
        ),
        expander(RowKind::Leaf) != expander(RowKind::Branch { expanded: true }),
        expander(RowKind::Leaf) != expander(RowKind::Branch { expanded: false }),
{
    reveal_strlit("▾ ");
    reveal_strlit("▸ ");
    reveal_strlit("  ");
    assert("▾ "@[0] != "▸ "@[0]);
    assert("  "@[0] != "▸ "@[0]);
    assert("  "@[0] != "▾ "@[0]);
}

/// The label column has room for every label, and is no wider than the widest.
pub proof fn law_the_longest_label_bounds_the_others(rows: Seq<RowModel>, n: nat, i: int)
    requires
        n <= rows.len(),
        0 <= i < n,
    ensures
        label_len(rows[i]) <= longest(rows, n),
        exists|k: int| 0 <= k < n && label_len(#[trigger] rows[k]) == longest(rows, n)
            || longest(rows, n) == 0,
    decreases n,
{
    if i < n - 1 {
        law_the_longest_label_bounds_the_others(rows, (n - 1) as nat, i);
    }
    lemma_longest_is_one(rows, n);
}

proof fn lemma_longest_is_one(rows: Seq<RowModel>, n: nat)
    requires
        n <= rows.len(),
    ensures
        longest(rows, n) == 0 || exists|k: int|
            0 <= k < n && label_len(#[trigger] rows[k]) == longest(rows, n),
    decreases n,
{
    if n > 0 {
        lemma_longest_is_one(rows, (n - 1) as nat);
        if label_len(rows[n - 1]) <= longest(rows, (n - 1) as nat) && longest(rows, (n - 1) as nat)
            != 0 {
            let k = choose|k: int|
                0 <= k < n - 1 && label_len(#[trigger] rows[k]) == longest(rows, (n - 1) as nat);
            assert(label_len(rows[k]) == longest(rows, n));
        } else if n > 0 && longest(rows, n) != 0 {
            assert(label_len(rows[n - 1]) == longest(rows, n));
        }
    }
}

/// Rates over the same time compare by their messages, and a rate over twice the time
/// needs twice the messages.
pub proof fn law_more_messages_are_a_higher_rate(a: Rate, b: Rate)
    requires
        a.nanos == b.nanos,
        a.nanos > 0,
    ensures
        faster(a, b) <==> a.messages > b.messages,
        !(faster(a, b) && faster(b, a)),
{
    let n = a.nanos as int;
    let x = a.messages as int;
    let y = b.messages as int;
    assert(x > y ==> x * n > y * n) by (nonlinear_arith)
        requires
            n > 0,
    ;
    assert(x <= y ==> x * n <= y * n) by (nonlinear_arith)
        requires
            n > 0,
    ;
}

// ---------------------------------------------------------------------------
// Numbers and times
// ---------------------------------------------------------------------------

/// How long ago is said in hours and minutes that add up to the whole minutes gone by.
pub proof fn law_idle_words_add_up(secs: u64)
    ensures
        secs < 3600 ==> idle_words(secs) == decimal((secs / 60) as nat) + seq!['m'],
        secs >= 3600 ==> exists|h: nat, m: nat|
            {
                &&& idle_words(secs) == #[trigger] (decimal(h) + seq!['h'] + decimal(m)) + seq!['m']
                &&& m < 60
                &&& 60 * h + m == secs / 60
            },
{
    reveal_strlit("m");
    reveal_strlit("h");
    assert("m"@ =~= seq!['m']);
    assert("h"@ =~= seq!['h']);
    if secs >= 3600 {
        let h = (secs / 3600) as nat;
        let m = ((secs % 3600) / 60) as nat;
        assert(60 * h + m == secs / 60);
        assert(idle_words(secs) == (decimal(h) + seq!['h'] + decimal(m)) + seq!['m']);
    }
}

/// Below a kibibyte the bytes are shown as they are; from there on the unit is the
/// largest one that fits, with the nearest tenth of it.
pub proof fn law_bandwidth_is_shown_to_the_nearest_tenth(bytes: u64)
    requires
        bytes < 0x20_0000_0000_0000,
    ensures
        bytes < 1024 ==> bandwidth(bytes) == decimal(bytes as nat) + " B/s"@,
        1024 <= bytes < 1_048_576 ==> exists|t: nat|
            {
                &&& bandwidth(bytes) == #[trigger] tenths_text(t) + " KB/s"@
                &&& -1024 <= 2 * (t * 1024 - bytes * 10) <= 1024
            },
        bytes >= 1_048_576 ==> exists|t: nat|
            {
                &&& bandwidth(bytes) == #[trigger] tenths_text(t) + " MB/s"@
                &&& -1_048_576 <= 2 * (t * 1_048_576 - bytes * 10) <= 1_048_576
            },
{
    let n = (bytes * 10) as nat;
    if 1024 <= bytes < 1_048_576 {
        let t = round_half_even(n, 1024);
        assert(bandwidth(bytes) == tenths_text(t) + " KB/s"@);
        assert(-1024 <= 2 * (t * 1024 - bytes * 10) <= 1024);
    }
    if bytes >= 1_048_576 {
        let t = round_half_even(n, 1_048_576);
        assert(bandwidth(bytes) == tenths_text(t) + " MB/s"@);
        assert(-1_048_576 <= 2 * (t * 1_048_576 - bytes * 10) <= 1_048_576);
    }
}

/// A number of tenths, with one decimal.
pub open spec fn tenths_text(t: nat) -> Seq<char> {
    decimal(t / 10) + "."@ + seq![digit(t)]
}

/// One key is singular.
pub proof fn law_one_key_is_singular(n: nat)
    ensures
        n != 1 ==> keys_words(n) == decimal(n) + " keys"@,
        keys_words(1) == "1 key"@,
{
}

/// A date loses its zone letter and has a space for every `T`, and nothing else changes.
pub proof fn law_a_date_is_only_spaced(s: Seq<char>, i: int)
    requires
        0 <= i < spaced_date(s).len(),
    ensures
        spaced_date(s).len() == s.len() || s.last() == 'Z' && spaced_date(s).len() == s.len() - 1,
        s.len() > 0 && s.last() == 'Z' ==> spaced_date(s).len() == s.len() - 1,
        s[i] == 'T' ==> spaced_date(s)[i] == ' ',
        s[i] != 'T' ==> spaced_date(s)[i] == s[i],
{
}

/// Cutting a fraction keeps the text up to the first dot and a beginning of what is behind
/// it; a text without a dot is left alone.
pub proof fn law_cutting_a_fraction_keeps_the_beginning(s: Seq<char>, max: nat)
    ensures
        capped(s, max).is_prefix_of(s),
        !s.contains('.') ==> capped(s, max) == s,
        forall|dot: int|
            0 <= dot < s.len() && #[trigger] s[dot] == '.' && !s.take(dot).contains('.')
                ==> capped(s, max).len() > dot && capped(s, max).len() <= dot + 1 + max,
{
    lemma_first_of(s, '.');
    match first_of(s, '.') {
        Some(dot) => {
            let rest = s.skip(dot + 1);
            lemma_head_bytes_fits(rest, max);
            lemma_head_bytes_prefix(rest, max);
            assert(s.take(dot + 1) + rest =~= s);
            assert(s[dot] == '.');
            assert forall|k: int|
                0 <= k < s.len() && #[trigger] s[k] == '.' && !s.take(k).contains('.') implies k
                == dot by {
                if k > dot {
                    assert(s.take(k)[dot] == '.');
                }
            }
        },
        None => {
            assert(s.is_prefix_of(s));
            assert(!s.contains('.'));
        },
    }
}

/// Trimming a fraction cuts zeros off the end, and the dot where nothing is left behind it.
pub proof fn law_trimming_cuts_zeros_off_the_fraction(s: Seq<char>)
    ensures
        zeros_trimmed(s).is_prefix_of(s),
        forall|k: int|
            zeros_trimmed(s).len() <= k < s.len() ==> #[trigger] s[k] == '0' || s[k] == '.',
        !s.contains('.') ==> zeros_trimmed(s) == s,
{
    lemma_first_of(s, '.');
    match first_of(s, '.') {
        Some(dot) => {
            let rest = s.skip(dot + 1);
            let p = |c: char| c == '0';
            let kept = crate::text::stripped_end(rest, p);
            lemma_stripped_prefix(rest, p);
            assert(s.take(dot + 1) + rest =~= s);
            assert(s[dot] == '.');
            assert forall|k: int| zeros_trimmed(s).len() <= k < s.len() implies #[trigger] s[k]
                == '0' || s[k] == '.' by {
                if k > dot {
                    assert(rest[k - dot - 1] == s[k]);
                    assert(p(rest[k - dot - 1]));
                }
            }
            if kept.len() == 0 {
                assert(s.take(dot).is_prefix_of(s));
            } else {
                assert((s.take(dot + 1) + kept) =~= s.take((dot + 1 + kept.len()) as int));
            }
        },
        None => {
            assert(!s.contains('.'));
        },
    }
}

proof fn lemma_stripped_prefix(s: Seq<char>, p: spec_fn(char) -> bool)
    ensures
        crate::text::stripped_end(s, p).is_prefix_of(s),
        forall|k: int|
            crate::text::stripped_end(s, p).len() <= k < s.len() ==> p(#[trigger] s[k]),
    decreases s.len(),
{
    if s.len() > 0 && p(s.last()) {
        let first = s.drop_last();
        lemma_stripped_prefix(first, p);
        assert forall|k: int| crate::text::stripped_end(s, p).len() <= k < s.len() implies p(
            #[trigger] s[k],
        ) by {
            if k < first.len() {
                assert(first[k] == s[k]);
            }
        }
    }
}

proof fn lemma_head_bytes_prefix(s: Seq<char>, max: nat)
    ensures
        head_bytes_of(s, max).is_prefix_of(s),
    decreases s.len(),
{
    if s.len() > 0 && utf8_width(s[0]) <= max {
        let rest = head_bytes_of(s.skip(1), (max - utf8_width(s[0])) as nat);
        lemma_head_bytes_prefix(s.skip(1), (max - utf8_width(s[0])) as nat);
        assert(seq![s[0]] + rest =~= s.take((1 + rest.len()) as int));
    }
}

// ---------------------------------------------------------------------------
// Lists
// ---------------------------------------------------------------------------

/// A list scrolls so that the selected item is in sight, and no further than it has to.
pub proof fn law_the_selected_item_is_in_sight(selected: nat, visible: nat)
    requires
        visible > 0,
    ensures
        scrolled_past(selected, visible) <= selected < scrolled_past(selected, visible) + visible,
        selected < visible ==> scrolled_past(selected, visible) == 0,
        scrolled_past(selected, visible) > 0 ==> selected == scrolled_past(selected, visible)
            + visible - 1,
{
}

/// A message that was put up comes down two seconds later, and not before.
pub proof fn law_a_toast_stays_for_two_seconds(m: AppModel, now: u64)
    requires
        m.toast is Some,
    ensures
        now < m.toast->0.at + 2_000_000_000 ==> m.toast_expired(now) == m,
        now >= m.toast->0.at + 2_000_000_000 ==> m.toast_expired(now).toast is None,
{
}

/// What is below a path is what starts with it and a slash. The bandwidth below a path is
/// that of the keys there together.
pub proof fn law_the_bandwidth_of_a_branch_is_that_of_its_keys(
    feed: FeedModel,
    keys: Seq<Seq<char>>,
    path: Seq<char>,
    key: Seq<char>,
)
    ensures
        at_or_below(key, path) <==> key == path || exists|rest: Seq<char>|
            key == #[trigger] (path + seq!['/'] + rest),
        bytes_below(feed, keys.push(key), path, keys.len() + 1) == bytes_below(
            feed,
            keys,
            path,
            keys.len(),
        ) + (if at_or_below(key, path) && feed.rates.dom().contains(key)
            && feed.rates[key].samples.len() > 0 {
            feed.rates[key].samples.last() as nat
        } else {
            0
        }),
{
    reveal_strlit("/");
    let lead = path + "/"@;
    assert(lead =~= path + seq!['/']);
    if starts(key, lead) {
        let rest = key.skip(lead.len() as int);
        assert(key =~= path + seq!['/'] + rest);
    }
    if exists|rest: Seq<char>| key == #[trigger] (path + seq!['/'] + rest) {
        let rest = choose|rest: Seq<char>| key == #[trigger] (path + seq!['/'] + rest);
        assert(key.take(lead.len() as int) =~= lead);
    }
    let more = keys.push(key);
    assert(more[keys.len() as int] == key);
    lemma_bytes_start(feed, keys, key, path, keys.len());
}

proof fn lemma_bytes_start(
    feed: FeedModel,
    keys: Seq<Seq<char>>,
    key: Seq<char>,
    path: Seq<char>,
    n: nat,
)
    requires
        n <= keys.len(),
    ensures
        bytes_below(feed, keys.push(key), path, n) == bytes_below(feed, keys, path, n),
    decreases n,
{
    if n > 0 {
        lemma_bytes_start(feed, keys, key, path, (n - 1) as nat);
        assert(keys.push(key)[n - 1] == keys[n - 1]);
    }
}

/// A wide frame shows the list and the detail of the active space side by side, a narrow
/// one the one that has the focus. What is in front comes last.
pub proof fn law_a_frame_shows_the_active_space(
    m: AppModel,
    a: FrameAreas,
    t: FrameModel,
    now: u64,
)
    ensures
        m.space == Space::Traffic ==> m.master_paints(a.body, t, now) == m.traffic_master(
            a.body,
            t.detail.rates,
            now,
        ),
        m.space == Space::Network ==> m.master_paints(a.body, t, now) == m.network_master(
            a.body,
            now,
        ),
        a.panes matches BodyLayout::Split { master, detail } ==> m.space_paints(a, t, now)
            == m.master_paints(master, t, now) + m.detail_paints(
            detail,
            a.heading,
            a.detail_body,
            t,
            now,
        ),
        a.panes matches BodyLayout::Single { pane, focus } ==> m.space_paints(a, t, now) == (
        if focus == PaneFocus::Master {
            m.master_paints(pane, t, now)
        } else {
            m.detail_paints(pane, a.heading, a.detail_body, t, now)
        }),
        m.overlay == Overlay::Closed ==> m.overlay_paints(a, t).len() == 0,
{
}

} // verus!
