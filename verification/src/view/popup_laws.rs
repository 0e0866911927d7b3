//! What the popups and the header tell of what is in front of the user.
use vstd::prelude::*;

use crate::app::doctor::{CheckModel, CheckStatus, DoctorModel};
use crate::app::palette::{commands, PaletteModel};
use crate::app::profiles::ProfileModel;
use crate::app::publish::{PublishField, PublishModel};
use crate::app::runtime::{paints, LoopState};
use crate::app::scout_port::{port_label, PortModel, ScoutModel};
use crate::app::state::AppModel;
use crate::app::types::{ConnectMode, ConnectionModel, Rect, Space};
use crate::text::{decimal, left_aligned, right_aligned};
use crate::text_laws::part_of;
use crate::view::chrome::{counts_words, tab_paint, tabs};
use crate::view::layout::popup;
use crate::view::popups::{
    answered_by, check_line, check_lines, checks_lines, command_line, current_words,
    doctor_lines, editor_lines, editor_notice, field_line, is_own_port, mode_paints, palette_lines,
    picker_lines, port_line, port_lines, save_summary, scroll_within, unslashed, view_line,
    view_lines,
};
use crate::view::style::{chosen, Color, PaintModel, SpanModel};

verus! {

/// What a span says, wherever it stands in the line.
pub open spec fn tells_of(line: Seq<SpanModel>, words: Seq<char>) -> bool {
    exists|i: int| 0 <= i < line.len() && part_of(words, (#[trigger] line[i]).text)
}

/// A text is a part of what it stands between.
pub(crate) proof fn lemma_part(before: Seq<char>, words: Seq<char>, after: Seq<char>)
    ensures
        part_of(words, before + words + after),
{
}

/// What is part of a text is part of a longer one.
pub(crate) proof fn lemma_onward(words: Seq<char>, before: Seq<char>, t: Seq<char>, after: Seq<char>)
    requires
        part_of(words, t),
    ensures
        part_of(words, t + after),
        part_of(words, before + t),
{
    let (x, y) = choose|x: Seq<char>, y: Seq<char>| t == #[trigger] (x + words + y);
    assert(t + after =~= x + words + (y + after));
    assert(before + t =~= (before + x) + words + y);
}

/// A number and the word behind it are found where more follows that word.
proof fn lemma_counted_thing(before: Seq<char>, n: Seq<char>, word: Seq<char>, long: Seq<char>)
    requires
        word.len() <= long.len(),
        long.take(word.len() as int) == word,
    ensures
        part_of(n + word, before + n + long),
{
    let rest = long.skip(word.len() as int);
    assert(long =~= long.take(word.len() as int) + rest);
    assert(before + n + long =~= before + (n + word) + rest);
    lemma_part(before, n + word, rest);
}

/// Padding keeps the text, brings it up to the width with spaces on one side, and cuts
/// nothing off.
pub proof fn law_padding_only_adds_spaces(s: Seq<char>, width: nat)
    ensures
        left_aligned(s, width).len() >= width,
        left_aligned(s, width).len() >= s.len(),
        s.len() >= width ==> left_aligned(s, width) == s && right_aligned(s, width) == s,
        s.len() < width ==> left_aligned(s, width).len() == width,
        left_aligned(s, width).take(s.len() as int) == s,
        forall|i: int|
            s.len() <= i < left_aligned(s, width).len() ==> left_aligned(s, width)[i] == ' ',
        right_aligned(s, width).len() == left_aligned(s, width).len(),
        right_aligned(s, width).skip(right_aligned(s, width).len() - s.len()) == s,
        forall|i: int|
            0 <= i < right_aligned(s, width).len() - s.len() ==> right_aligned(s, width)[i] == ' ',
{
    assert(left_aligned(s, width).take(s.len() as int) =~= s);
    assert(right_aligned(s, width).skip(right_aligned(s, width).len() - s.len()) =~= s);
    if s.len() >= width {
        assert(left_aligned(s, width) =~= s);
        assert(right_aligned(s, width) =~= s);
    }
}

// ---------------------------------------------------------------------------
// The editor
// ---------------------------------------------------------------------------

/// The editor shows the key and the payload as they were typed, with the caret behind
/// the one that is being edited, and says where it would write: to the key without the
/// white space around it. What came of a message is told in its place.
pub proof fn law_the_editor_shows_what_was_typed(m: PublishModel)
    ensures
        editor_lines(m).len() == 6,
        editor_lines(m)[0].last().text == (if m.publish_field == PublishField::Key {
            m.publish_key.push('_')
        } else {
            m.publish_key
        }),
        editor_lines(m)[1].last().text == (if m.publish_field == PublishField::Payload {
            m.publish_payload.push('_')
        } else {
            m.publish_payload
        }),
        m.publish_field == PublishField::Key <==> editor_lines(m)[0].last().style.bold,
        m.publish_field == PublishField::Payload <==> editor_lines(m)[1].last().style.bold,
        m.publish_result matches Some(Ok(key)) ==> tells_of(editor_lines(m)[3], key)
            && editor_lines(m)[3][0].style.fg == Some(Color::Green),
        m.publish_result matches Some(Err(why)) ==> tells_of(editor_lines(m)[3], why)
            && editor_lines(m)[3][0].style.fg == Some(Color::Red),
        m.publish_result is None && crate::text::trimmed(m.publish_key).len() > 0
            ==> editor_lines(m)[3].last().text == crate::text::trimmed(m.publish_key),
{
    reveal_strlit("_");
    reveal_strlit("");
    let none = Seq::<char>::empty();
    let first = editor_lines(m)[0].last().text;
    let second = editor_lines(m)[1].last().text;
    assert(first =~= (if m.publish_field == PublishField::Key {
        m.publish_key.push('_')
    } else {
        m.publish_key
    }));
    assert(second =~= (if m.publish_field == PublishField::Payload {
        m.publish_payload.push('_')
    } else {
        m.publish_payload
    }));
    match m.publish_result {
        Some(Ok(key)) => {
            lemma_part("  sent to "@, key, none);
            assert(editor_notice(m)[0].text =~= "  sent to "@ + key + none);
        },
        Some(Err(why)) => {
            lemma_part("  "@, why, none);
            assert(editor_notice(m)[0].text =~= "  "@ + why + none);
        },
        None => {},
    }
}

// ---------------------------------------------------------------------------
// Lists with a cursor
// ---------------------------------------------------------------------------

/// The palette shows each command that is left, with its key, and marks the one under
/// the cursor and no other.
pub proof fn law_the_palette_marks_the_cursor(m: PaletteModel, width: u16, row: int)
    requires
        0 <= row < m.filtered().len(),
    ensures
        palette_lines(m, width).len() == m.filtered().len(),
        ({
            let line = palette_lines(m, width)[row];
            let c = commands()[m.filtered()[row] as int];
            &&& part_of(c.label, line[0].text)
            &&& line.last().text == c.key_hint
            &&& line[0].style == chosen() <==> row == m.palette_selected
        }),
{
    let c = commands()[m.filtered()[row] as int];
    let none = Seq::<char>::empty();
    let mark = if row == m.palette_selected {
        "> "@
    } else {
        "  "@
    };
    lemma_part(mark, c.label, none);
    assert(command_line(c, row == m.palette_selected, width)[0].text =~= mark + c.label + none);
}

/// The switcher shows each port where somebody answered with how many did, marks the one
/// under the cursor and no other, and says which one the session itself is on: one where
/// it was itself among those who answered.
pub proof fn law_the_switcher_marks_the_cursor(m: ScoutModel, c: ConnectionModel, i: int)
    requires
        0 <= i < m.found().len(),
    ensures
        port_lines(m, c).len() == m.found().len(),
        ({
            let line = port_lines(m, c)[i];
            let r = m.port_scan_results[m.found()[i]];
            let own = exists|k: int|
                0 <= k < r.nodes.len() && c == ConnectionModel::Connected(
                    (#[trigger] r.nodes[k]).zid,
                );
            &&& part_of(decimal(r.port as nat), line[0].text)
            &&& part_of(decimal(r.nodes.len()), line[0].text)
            &&& line[0].style == chosen() <==> i == m.port_scan_selected
            &&& line.len() == 2 <==> own
            &&& line.len() == 1 <==> !own
        }),
{
    let r = m.port_scan_results[m.found()[i]];
    let selected = i == m.port_scan_selected;
    let mark = if selected {
        "> "@
    } else {
        "  "@
    };
    let t = port_line(r, selected, is_own_port(c, r))[0].text;
    let n = decimal(r.nodes.len());
    assert(t =~= (mark + port_label(r.port) + "  "@) + n + " node(s)"@);
    lemma_part(mark + port_label(r.port) + "  "@, n, " node(s)"@);
    let p = decimal(r.port as nat);
    let rest = "  "@ + n + " node(s)"@;
    if 7446 <= r.port <= 7546 {
        let d = "domain "@ + decimal((r.port - 7446) as nat) + " (port "@;
        assert(t =~= (mark + d) + p + (")"@ + rest));
        lemma_part(mark + d, p, ")"@ + rest);
    } else {
        assert(t =~= (mark + "port "@) + p + (" (custom)"@ + rest));
        lemma_part(mark + "port "@, p, " (custom)"@ + rest);
    }
    if let ConnectionModel::Connected(zid) = c {
        lemma_answered(r, zid, r.nodes.len());
    }
}

proof fn lemma_answered(r: PortModel, zid: Seq<char>, n: nat)
    requires
        n <= r.nodes.len(),
    ensures
        answered_by(r.nodes, zid, n) <==> exists|k: int|
            0 <= k < n && (#[trigger] r.nodes[k]).zid == zid,
    decreases n,
{
    if n > 0 {
        lemma_answered(r, zid, (n - 1) as nat);
        if answered_by(r.nodes, zid, n) {
            if r.nodes[n - 1].zid != zid {
                let k = choose|k: int| 0 <= k < n - 1 && (#[trigger] r.nodes[k]).zid == zid;
                assert(0 <= k < n && r.nodes[k].zid == zid);
            }
        }
    }
}

/// The switcher says which port is listened on.
pub proof fn law_the_switcher_says_where_it_listens(m: ScoutModel, port: u16)
    requires
        m.scout_port_current == Some(port),
    ensures
        part_of(decimal(port as nat), current_words(m)),
{
    let p = decimal(port as nat);
    if 7446 <= port <= 7546 {
        let d = "domain "@ + decimal((port - 7446) as nat) + " (port "@;
        assert(current_words(m) =~= ("Current: "@ + d) + p + ")"@);
        lemma_part("Current: "@ + d, p, ")"@);
    } else {
        assert(current_words(m) =~= ("Current: "@ + "port "@) + p + " (custom)"@);
        lemma_part("Current: "@ + "port "@, p, " (custom)"@);
    }
}

/// The saved views stand in their order, each with its name, how much of it is open and
/// its filter; the one under the cursor is marked and no other.
pub proof fn law_the_saved_views_mark_the_cursor(
    profiles: Seq<ProfileModel>,
    selected: usize,
    i: int,
)
    requires
        0 <= i < profiles.len(),
    ensures
        ({
            let line = view_lines(profiles, selected)[i];
            let p = profiles[i];
            &&& line.len() == 1
            &&& part_of(p.name, line[0].text)
            &&& part_of(decimal(p.expanded.len()), line[0].text)
            &&& part_of(decimal(p.plot_fields.dom().len()), line[0].text)
            &&& part_of(p.filter, line[0].text)
            &&& line[0].style == chosen() <==> i == selected
        }),
{
    let p = profiles[i];
    let line = view_line(p, i == selected);
    assert(view_lines(profiles, selected)[i] == line);
    let none = Seq::<char>::empty();
    let w = crate::view::popups::view_words(p);
    lemma_view_words(p);
    let name = left_aligned(p.name, 20);
    let words = right_aligned(w, 30);
    assert(name =~= none + p.name + crate::text::spread(' ', 20 - p.name.len()));
    lemma_part(none, p.name, crate::text::spread(' ', 20 - p.name.len()));
    lemma_onward(p.name, " "@, name, " "@);
    lemma_onward(p.name, " "@, " "@ + name, " "@);
    lemma_onward(p.name, " "@, " "@ + name + " "@, words);
    lemma_onward(p.name, " "@, " "@ + name + " "@ + words, " "@);
    lemma_in_view_line(decimal(p.expanded.len()), p, w);
    lemma_in_view_line(decimal(p.plot_fields.dom().len()), p, w);
    lemma_in_view_line(p.filter, p, w);
}

proof fn lemma_in_view_line(words: Seq<char>, p: ProfileModel, w: Seq<char>)
    requires
        part_of(words, w),
    ensures
        part_of(words, " "@ + left_aligned(p.name, 20) + " "@ + right_aligned(w, 30) + " "@),
{
    let front = " "@ + left_aligned(p.name, 20) + " "@;
    lemma_onward(words, crate::text::spread(' ', 30 - w.len()), w, " "@);
    lemma_onward(words, front, right_aligned(w, 30), " "@);
    lemma_onward(words, " "@, front + right_aligned(w, 30), " "@);
}

proof fn lemma_view_words(p: ProfileModel)
    ensures
        part_of(decimal(p.expanded.len()), crate::view::popups::view_words(p)),
        part_of(decimal(p.plot_fields.dom().len()), crate::view::popups::view_words(p)),
        part_of(p.filter, crate::view::popups::view_words(p)),
{
    let none = Seq::<char>::empty();
    let open = decimal(p.expanded.len());
    let plotted = decimal(p.plot_fields.dom().len());
    let tail = if p.filter.len() == 0 {
        ""@
    } else {
        ", /"@ + p.filter
    };
    let front = open + " open, "@ + plotted + " plotted"@;
    assert(open + " open, "@ =~= none + open + " open, "@);
    lemma_part(none, open, " open, "@);
    lemma_onward(open, none, open + " open, "@, plotted);
    lemma_onward(open, none, open + " open, "@ + plotted, " plotted"@);
    lemma_onward(open, none, front, tail);
    lemma_part(open + " open, "@, plotted, " plotted"@);
    lemma_onward(plotted, none, front, tail);
    if p.filter.len() == 0 {
        assert(p.filter =~= none);
        assert(front + tail =~= none + p.filter + (front + tail));
        lemma_part(none, p.filter, front + tail);
    } else {
        assert(tail =~= ", /"@ + p.filter + none);
        lemma_part(", /"@, p.filter, none);
        lemma_onward(p.filter, front, tail, none);
    }
}

/// The fields that can be plotted stand in their order, each with its own value; the one
/// under the cursor is marked and no other.
pub proof fn law_the_picker_marks_the_cursor(
    fields: Seq<Seq<char>>,
    values: Seq<Seq<char>>,
    selected: usize,
    i: int,
)
    requires
        0 <= i < fields.len(),
        values.len() == fields.len(),
    ensures
        ({
            let line = picker_lines(fields, values, selected)[i];
            &&& line.len() == 1
            &&& part_of(unslashed(fields[i]), line[0].text)
            &&& part_of(values[i], line[0].text)
            &&& line[0].style == chosen() <==> i == selected
        }),
        fields[i].len() > 0 && fields[i][0] != '/' ==> unslashed(fields[i]) == fields[i],
        unslashed(fields[i]).len() > 0 ==> unslashed(fields[i])[0] != '/',
        unslashed(fields[i]) == fields[i].skip(fields[i].len() - unslashed(fields[i]).len()),
        forall|k: int|
            0 <= k < fields[i].len() - unslashed(fields[i]).len() ==> fields[i][k] == '/',
{
    let f = unslashed(fields[i]);
    let line = field_line(fields[i], values[i], i == selected);
    assert(picker_lines(fields, values, selected)[i] == line);
    let t = line[0].text;
    let pad = crate::text::spread(' ', 24 - f.len());
    let gap = crate::text::spread(' ', 14 - values[i].len());
    assert(t =~= " "@ + f + (pad + " "@ + gap + values[i] + " "@));
    lemma_part(" "@, f, pad + " "@ + gap + values[i] + " "@);
    let front = " "@ + f + pad + " "@ + gap;
    assert(t =~= front + values[i] + " "@);
    lemma_part(front, values[i], " "@);
    lemma_unslashed(fields[i]);
}

proof fn lemma_unslashed(s: Seq<char>)
    ensures
        unslashed(s).len() <= s.len(),
        unslashed(s).len() > 0 ==> unslashed(s)[0] != '/',
        unslashed(s) == s.skip(s.len() - unslashed(s).len()),
        forall|k: int| 0 <= k < s.len() - unslashed(s).len() ==> s[k] == '/',
    decreases s.len(),
{
    if s.len() > 0 && s[0] == '/' {
        let rest = s.skip(1);
        lemma_unslashed(rest);
        assert(unslashed(s) =~= s.skip(s.len() - unslashed(s).len()));
        assert forall|k: int| 0 <= k < s.len() - unslashed(s).len() implies s[k] == '/' by {
            if k > 0 {
                assert(s[k] == rest[k - 1]);
            }
        }
    } else {
        assert(s.skip(0) =~= s);
    }
}

/// The mode under the cursor is marked and the other is not, and the one that is on is
/// named.
pub proof fn law_the_modes_mark_the_cursor(
    selection: ConnectMode,
    current: ConnectMode,
    area: Rect,
    rows: Seq<Rect>,
)
    requires
        popup(area, 36, 9, 24, 7) is Some,
    ensures
        ({
            let p = mode_paints(selection, current, area, rows);
            let peer = selection == ConnectMode::Peer;
            &&& p.len() == 6
            &&& p[2] matches PaintModel::Text { area, lines, .. } && area == rows[1]
                && lines[0][0].text == (if peer {
                "> [*] Peer"@
            } else {
                "  [ ] Peer"@
            })
            &&& p[3] matches PaintModel::Text { area, lines, .. } && area == rows[2]
                && lines[0][0].text == (if peer {
                "  [ ] Client"@
            } else {
                "> [*] Client"@
            })
            &&& p[4] matches PaintModel::Text { area, lines, .. } && area == rows[4] && part_of(
                (if current == ConnectMode::Peer {
                    "peer"@
                } else {
                    "client"@
                }),
                lines[0][0].text,
            )
        }),
{
    let none = Seq::<char>::empty();
    let word = if current == ConnectMode::Peer {
        "peer"@
    } else {
        "client"@
    };
    lemma_part("current: "@, word, none);
    assert("current: "@ + current.word() =~= "current: "@ + word + none);
}

// ---------------------------------------------------------------------------
// The diagnostics
// ---------------------------------------------------------------------------

/// A check shows its name, how long it took and what it found; one that passed gives no
/// hint, and any other gives the one it has. The colour tells the outcome.
pub proof fn law_a_check_shows_its_outcome(c: CheckModel)
    ensures
        tells_of(check_lines(c)[0], c.name),
        tells_of(check_lines(c)[0], decimal(c.latency_ms as nat)),
        c.message matches Some(m) ==> tells_of(check_lines(c)[0], m),
        check_lines(c)[0][0].style.fg == Some(
            match c.status {
                CheckStatus::Pass => Color::Green,
                CheckStatus::Warn => Color::Yellow,
                CheckStatus::Fail => Color::Red,
            },
        ),
        check_lines(c).len() == (if c.status != CheckStatus::Pass && c.hint is Some {
            2int
        } else {
            1
        }),
        c.status != CheckStatus::Pass && c.hint is Some ==> tells_of(check_lines(c)[1], c.hint->0),
{
    let none = Seq::<char>::empty();
    let line = check_line(c);
    let name = crate::text::spread(' ', 12 - c.name.len());
    assert(line[1].text =~= none + c.name + name);
    lemma_part(none, c.name, name);
    let n = decimal(c.latency_ms as nat);
    let gap = crate::text::spread(' ', 6 - n.len());
    assert(line[2].text =~= gap + n + "ms  "@);
    lemma_part(gap, n, "ms  "@);
    if let Some(m) = c.message {
        assert(line[3].text =~= none + m + none);
        lemma_part(none, m, none);
    }
    if c.status != CheckStatus::Pass && c.hint is Some {
        let h = c.hint->0;
        assert(check_lines(c)[1][0].text =~= "      hint: "@ + h + none);
        lemma_part("      hint: "@, h, none);
    }
}

/// Every check of the report is shown, the ones before it above it.
pub proof fn law_every_check_is_shown(m: DoctorModel, i: int)
    requires
        m.doctor_report is Some,
        0 <= i < (m.doctor_report->0).checks.len(),
    ensures
        ({
            let checks = (m.doctor_report->0).checks;
            let at = (if m.doctor_running {
                1int
            } else {
                0
            }) + checks_lines(checks, i as nat).len();
            &&& at < doctor_lines(m).len()
            &&& doctor_lines(m)[at] == check_line(checks[i])
            &&& checks_lines(checks, i as nat).len() >= i
        }),
{
    let checks = (m.doctor_report->0).checks;
    lemma_shown(checks, i, checks.len());
}

proof fn lemma_shown(checks: Seq<CheckModel>, i: int, n: nat)
    requires
        0 <= i < n <= checks.len(),
    ensures
        checks_lines(checks, i as nat).len() < checks_lines(checks, n).len(),
        checks_lines(checks, i as nat).len() >= i,
        checks_lines(checks, n)[checks_lines(checks, i as nat).len() as int] == check_line(
            checks[i],
        ),
    decreases n,
{
    if i > 0 {
        lemma_shown(checks, i - 1, i as nat);
        assert(checks_lines(checks, i as nat) == checks_lines(checks, (i - 1) as nat)
            + check_lines(checks[i - 1]));
    }
    if i < n - 1 {
        lemma_shown(checks, i, (n - 1) as nat);
    }
}

/// Scrolling goes as far as asked, but not past the end: what is left fills the popup
/// where there is enough of it.
pub proof fn law_scrolling_ends_with_the_last_line(scroll: u16, lines: nat, height: u16)
    requires
        lines <= u16::MAX,
    ensures
        scroll_within(scroll, lines, height) <= scroll,
        scroll + height <= lines ==> scroll_within(scroll, lines, height) == scroll,
        lines <= height ==> scroll_within(scroll, lines, height) == 0,
        lines > height ==> scroll_within(scroll, lines, height) + height <= lines,
        lines > height && scroll + height > lines ==> scroll_within(scroll, lines, height) + height
            == lines,
{
}

// ---------------------------------------------------------------------------
// The header
// ---------------------------------------------------------------------------

/// The header names the spaces in the order in which they are clicked: the tabs do not
/// overlap, stay on their line, and the one that is on is underlined.
pub proof fn law_the_tabs_stand_side_by_side(m: AppModel, line: Rect, space: Space, active: bool)
    ensures
        tabs(m, line).0 matches Some(a) ==> a.y == line.y && a.height == 1 && line.x <= a.x && a.x
            + a.width <= line.x + line.width,
        tabs(m, line).1 matches Some(b) ==> b.y == line.y && b.height == 1 && line.x <= b.x && b.x
            + b.width <= line.x + line.width,
        tabs(m, line) matches (Some(a), Some(b)) ==> a.x + a.width < b.x,
        tabs(m, line).0 matches Some(a) ==> a.width == Space::Traffic.name().len() + 2,
        tabs(m, line).1 matches Some(b) ==> b.width == Space::Network.name().len() + 2,
        forall|a: Rect|
            (#[trigger] tab_paint(Some(a), space, active)).len() == 1 && (tab_paint(
                Some(a),
                space,
                active,
            )[0] matches PaintModel::Text { area, lines, .. } && area == a && part_of(
                space.name(),
                lines[0][0].text,
            ) && lines[0][0].style.underlined == active),
{
    assert forall|a: Rect|
        (#[trigger] tab_paint(Some(a), space, active)).len() == 1 && (tab_paint(
            Some(a),
            space,
            active,
        )[0] matches PaintModel::Text { area, lines, .. } && area == a && part_of(
            space.name(),
            lines[0][0].text,
        ) && lines[0][0].style.underlined == active) by {
        lemma_part("["@, space.name(), "]"@);
    }
}

/// The header counts the sessions, the services and the keys, and what was forgotten.
pub proof fn law_the_header_counts_what_is_known(m: AppModel, rate: Seq<char>)
    ensures
        ({
            let t = counts_words(m, rate);
            let sessions = decimal(m.network.nodes.len()) + " sessions"@;
            let services = decimal(m.network.liveliness_tokens.len()) + " services"@;
            let keys = decimal(m.pane.tree.keys().len()) + " keys"@;
            &&& part_of(sessions, t)
            &&& part_of(services, t)
            &&& part_of(keys, t)
            &&& part_of(rate + " msg/s"@, t)
            &&& m.feed.keys_aged_out > 0 ==> part_of(
                decimal(m.feed.keys_aged_out as nat) + " aged out"@,
                t,
            )
        }),
{
    let none = Seq::<char>::empty();
    let flow = crate::app::rate::bandwidth(m.feed.total_rate.latest());
    let sessions = decimal(m.network.nodes.len());
    let services = decimal(m.network.liveliness_tokens.len());
    let keys = decimal(m.pane.tree.keys().len());
    let tail = if m.feed.keys_aged_out > 0 {
        " · "@ + decimal(m.feed.keys_aged_out as nat) + " aged out"@
    } else {
        ""@
    };
    lemma_header_words();
    let a = sessions + " sessions · "@;
    let b = a + services + " services · "@;
    let c = b + keys + " keys · "@;
    let d = c + rate + " msg/s · "@;
    lemma_counted_thing(none, sessions, " sessions"@, " sessions · "@);
    assert(none + sessions =~= sessions);
    lemma_counted_thing(a, services, " services"@, " services · "@);
    lemma_counted_thing(b, keys, " keys"@, " keys · "@);
    lemma_counted_thing(c, rate, " msg/s"@, " msg/s · "@);
    let w = sessions + " sessions"@;
    lemma_onward(w, none, a, services);
    lemma_onward(w, none, a + services, " services · "@);
    lemma_in_counts(w, b, keys, " keys · "@, rate, " msg/s · "@);
    lemma_in_counts(services + " services"@, b, keys, " keys · "@, rate, " msg/s · "@);
    lemma_onward(keys + " keys"@, none, c, rate);
    lemma_onward(keys + " keys"@, none, c + rate, " msg/s · "@);
    lemma_ends_counts(w, d, flow, tail);
    lemma_ends_counts(services + " services"@, d, flow, tail);
    lemma_ends_counts(keys + " keys"@, d, flow, tail);
    lemma_ends_counts(rate + " msg/s"@, d, flow, tail);
    if m.feed.keys_aged_out > 0 {
        let gone = decimal(m.feed.keys_aged_out as nat) + " aged out"@;
        assert(tail =~= " · "@ + gone + none);
        lemma_part(" · "@, gone, none);
        lemma_onward(gone, d + flow, tail, none);
    }
}

proof fn lemma_header_words()
    ensures
        " sessions"@.len() <= " sessions · "@.len(),
        " sessions · "@.take(" sessions"@.len() as int) == " sessions"@,
        " services"@.len() <= " services · "@.len(),
        " services · "@.take(" services"@.len() as int) == " services"@,
        " keys"@.len() <= " keys · "@.len(),
        " keys · "@.take(" keys"@.len() as int) == " keys"@,
        " msg/s"@.len() <= " msg/s · "@.len(),
        " msg/s · "@.take(" msg/s"@.len() as int) == " msg/s"@,
{
    reveal_strlit(" sessions · ");
    reveal_strlit(" sessions");
    reveal_strlit(" services · ");
    reveal_strlit(" services");
    reveal_strlit(" keys · ");
    reveal_strlit(" keys");
    reveal_strlit(" msg/s · ");
    reveal_strlit(" msg/s");
    assert(" sessions · "@.take(" sessions"@.len() as int) =~= " sessions"@);
    assert(" services · "@.take(" services"@.len() as int) =~= " services"@);
    assert(" keys · "@.take(" keys"@.len() as int) =~= " keys"@);
    assert(" msg/s · "@.take(" msg/s"@.len() as int) =~= " msg/s"@);
}

proof fn lemma_in_counts(
    words: Seq<char>,
    t: Seq<char>,
    a: Seq<char>,
    b: Seq<char>,
    c: Seq<char>,
    d: Seq<char>,
)
    requires
        part_of(words, t),
    ensures
        part_of(words, t + a + b + c + d),
{
    lemma_onward(words, a, t, a);
    lemma_onward(words, a, t + a, b);
    lemma_onward(words, a, t + a + b, c);
    lemma_onward(words, a, t + a + b + c, d);
}

proof fn lemma_ends_counts(words: Seq<char>, t: Seq<char>, flow: Seq<char>, tail: Seq<char>)
    requires
        part_of(words, t),
    ensures
        part_of(words, t + flow + tail),
{
    lemma_onward(words, flow, t, flow);
    lemma_onward(words, flow, t + flow, tail);
}

/// What is about to be saved is told: the filter, and how much is open and plotted.
pub proof fn law_a_view_to_be_saved_is_told(m: AppModel)
    ensures
        m.pane.filter.len() > 0 ==> part_of(m.pane.filter, save_summary(m)),
        part_of(decimal(m.pane.expanded.len()) + " open"@, save_summary(m)),
        part_of(decimal(m.plot_field.dom().len()) + " plotted"@, save_summary(m)),
{
    let t = save_summary(m);
    let none = Seq::<char>::empty();
    reveal_strlit(" open  ·  ");
    reveal_strlit(" open");
    reveal_strlit("  ·  ");
    assert(" open  ·  "@ =~= " open"@ + "  ·  "@);
    let shown = if m.pane.filter.len() == 0 {
        "(none)"@
    } else {
        "'"@ + m.pane.filter + "'"@
    };
    let open = decimal(m.pane.expanded.len()) + " open"@;
    let plotted = decimal(m.plot_field.dom().len()) + " plotted"@;
    let front = "  filter "@ + shown + "  ·  "@;
    assert(t =~= front + open + ("  ·  "@ + plotted));
    lemma_part(front, open, "  ·  "@ + plotted);
    assert(t =~= (front + open + "  ·  "@) + plotted + none);
    lemma_part(front + open + "  ·  "@, plotted, none);
    if m.pane.filter.len() > 0 {
        let rest = "'"@ + "  ·  "@ + open + "  ·  "@ + plotted;
        assert(t =~= ("  filter "@ + "'"@) + m.pane.filter + rest);
        lemma_part("  filter "@ + "'"@, m.pane.filter, rest);
    }
}

/// What changed is painted as soon as a fifteenth of a second has gone by since the
/// frame before, or at once after a key press or when there was none before; a toast is
/// painted like a change.
pub proof fn law_a_change_is_painted_in_time(l: LoopState, has_toast: bool, now: u64)
    ensures
        ({
            let paints = paints(
                l.needs_redraw,
                has_toast,
                l.since_draw(now),
                l.draw_immediately,
            );
            let due = match l.last_draw {
                Some(at) => now - at >= 66_000_000,
                None => true,
            };
            paints <==> (l.needs_redraw || has_toast) && (l.draw_immediately || due)
        }),
{
}

} // verus!
