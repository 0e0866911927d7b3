//! What the dialogs do with what is typed into them, and what is asked through them.
use vstd::prelude::*;

use crate::app::doctor::{counted, CheckModel, CheckStatus};
use crate::app::feed::FeedModel;
use crate::app::mouse::item_at;
use crate::app::palette::{
    commands, law_the_palette_lists_what_holds_the_input, listed_upto, palette_outcome,
    PaletteModel, PaletteOutcome,
};
use crate::app::profiles::{LoadOutcome, ProfilesModel, SaveModel};
use crate::app::query::{QueryModel, StatusModel};
use crate::app::runtime::RequestModel;
use crate::app::scout_port::{hits, scout_outcome, PortModel, ScoutModel, ScoutOutcome};
use crate::app::state::{holding, AppModel};
use crate::app::types::{KeyCode, PaneFocus, Rect, Space};
use crate::message::MessageModel;
use crate::plot::number_pointers;
use crate::text::{
    all_digits, ascii_lowered, is_white_space, trimmed,
};
use crate::text_laws::{
    law_a_text_occurs_where_it_is_a_part, lemma_digits_spell, number_of, part_of,
};

verus! {

// ---------------------------------------------------------------------------
// The palette
// ---------------------------------------------------------------------------

/// Putting ASCII letters in lower case leaves every other character alone.
pub proof fn law_only_ascii_capitals_are_lowered(s: Seq<char>, i: int)
    requires
        0 <= i < s.len(),
    ensures
        ascii_lowered(s).len() == s.len(),
        'A' <= s[i] <= 'Z' ==> ascii_lowered(s)[i] as int == s[i] as int + 32,
        !('A' <= s[i] <= 'Z') ==> ascii_lowered(s)[i] == s[i],
{
}

/// The palette lists exactly the commands whose label holds what was typed, whatever the
/// case of ASCII letters, in the order of the table.
pub proof fn law_the_palette_lists_by_label(m: PaletteModel)
    ensures
        forall|i: int|
            0 <= i < commands().len() ==> (m.filtered().contains(i as usize) <==> (
            m.palette_input.len() == 0 || part_of(
                ascii_lowered(m.palette_input),
                ascii_lowered((#[trigger] commands()[i]).label),
            ))),
        forall|k: int| 0 <= k < m.filtered().len() ==> #[trigger] m.filtered()[k] < commands().len(),
        forall|j: int, k: int|
            0 <= j < k < m.filtered().len() ==> #[trigger] m.filtered()[j]
                < #[trigger] m.filtered()[k],
{
    assert forall|i: int| 0 <= i < commands().len() implies (m.filtered().contains(i as usize)
        <==> (m.palette_input.len() == 0 || part_of(
        ascii_lowered(m.palette_input),
        ascii_lowered((#[trigger] commands()[i]).label),
    ))) by {
        law_the_palette_lists_what_holds_the_input(m.palette_input, commands().len(), i);
        law_a_text_occurs_where_it_is_a_part(
            ascii_lowered(m.palette_input),
            ascii_lowered(commands()[i].label),
        );
    }
    lemma_listed_in_order(m.palette_input, commands().len());
}

proof fn lemma_listed_in_order(input: Seq<char>, n: nat)
    requires
        n <= 12,
    ensures
        forall|k: int| 0 <= k < listed_upto(input, n).len() ==> #[trigger] listed_upto(input, n)[k]
            < n,
        forall|j: int, k: int|
            0 <= j < k < listed_upto(input, n).len() ==> #[trigger] listed_upto(input, n)[j]
                < #[trigger] listed_upto(input, n)[k],
        listed_upto(input, n).len() <= n,
    decreases n,
{
    if n > 0 {
        lemma_listed_in_order(input, (n - 1) as nat);
        let before = listed_upto(input, (n - 1) as nat);
        let all = listed_upto(input, n);
        assert forall|k: int| 0 <= k < all.len() implies #[trigger] all[k] < n by {
            if k < before.len() {
                assert(all[k] == before[k]);
            }
        }
        assert forall|j: int, k: int| 0 <= j < k < all.len() implies #[trigger] all[j]
            < #[trigger] all[k] by {
            assert(all[j] == before[j]);
            if k < before.len() {
                assert(all[k] == before[k]);
            }
        }
    }
}

/// A character typed into the palette goes to the end of the input and Backspace takes
/// it out; Enter runs the listed command under the cursor, Esc closes, and nothing else
/// acts. The arrows go to the neighbour.
pub proof fn law_the_palette_runs_what_is_under_the_cursor(m: PaletteModel, c: char)
    ensures
        m.pressed(KeyCode::Char(c)).palette_input == m.palette_input + seq![c],
        m.pressed(KeyCode::Char(c)).pressed(KeyCode::Backspace).palette_input == m.palette_input,
        palette_outcome(m, KeyCode::Char(c)) == PaletteOutcome::Stay,
        palette_outcome(m, KeyCode::Backspace) == PaletteOutcome::Stay,
        palette_outcome(m, KeyCode::Esc) == PaletteOutcome::Close,
        m.palette_selected < m.filtered().len() ==> palette_outcome(m, KeyCode::Enter)
            == PaletteOutcome::Run(
            commands()[m.filtered()[m.palette_selected as int] as int].action,
        ),
        m.palette_selected >= m.filtered().len() ==> palette_outcome(m, KeyCode::Enter)
            == PaletteOutcome::Stay,
        m.palette_selected + 1 < m.filtered().len() ==> m.pressed(KeyCode::Down).palette_selected
            == m.palette_selected + 1,
        m.palette_selected > 0 ==> m.pressed(KeyCode::Up).palette_selected == m.palette_selected - 1,
        m.pressed(KeyCode::Down).palette_input == m.palette_input,
        m.pressed(KeyCode::Up).palette_input == m.palette_input,
        m.pressed(KeyCode::Tab) == m.pressed(KeyCode::Down),
{
    lemma_listed_in_order(m.palette_input, commands().len());
    assert(m.palette_input.push(c) =~= m.palette_input + seq![c]);
    assert(m.palette_input.push(c).drop_last() =~= m.palette_input);
}

// ---------------------------------------------------------------------------
// The port switcher
// ---------------------------------------------------------------------------

proof fn lemma_hits(results: Seq<PortModel>, n: nat)
    requires
        n <= results.len(),
    ensures
        forall|i: int|
            #[trigger] hits(results, n).contains(i) <==> 0 <= i < n && results[i].nodes.len() > 0,
        forall|j: int, k: int|
            0 <= j < k < hits(results, n).len() ==> #[trigger] hits(results, n)[j]
                < #[trigger] hits(results, n)[k],
    decreases n,
{
    if n > 0 {
        lemma_hits(results, (n - 1) as nat);
        let before = hits(results, (n - 1) as nat);
        let all = hits(results, n);
        assert forall|i: int| #[trigger] all.contains(i) <==> 0 <= i < n && results[i].nodes.len()
            > 0 by {
            if before.contains(i) {
                assert(all[before.index_of(i)] == i);
            }
            if all.contains(i) {
                let k = all.index_of(i);
                if k < before.len() {
                    assert(before[k] == i);
                }
            }
            if i == n - 1 && results[i].nodes.len() > 0 {
                assert(all[before.len() as int] == i);
            }
        }
        assert forall|j: int, k: int| 0 <= j < k < all.len() implies #[trigger] all[j]
            < #[trigger] all[k] by {
            assert(before.contains(before[j]));
        }
    }
}

/// The switcher lists exactly the ports of the scan where somebody answered, in order.
pub proof fn law_the_switcher_lists_who_answered(m: ScoutModel)
    ensures
        forall|i: int|
            #[trigger] m.found().contains(i) <==> 0 <= i < m.port_scan_results.len()
                && m.port_scan_results[i].nodes.len() > 0,
        forall|j: int, k: int|
            0 <= j < k < m.found().len() ==> #[trigger] m.found()[j] < #[trigger] m.found()[k],
{
    lemma_hits(m.port_scan_results, m.port_scan_results.len());
}

proof fn lemma_digits_trimmed(s: Seq<char>)
    requires
        all_digits(s),
    ensures
        trimmed(s) == s,
{
    assert(crate::text::is_digit(s[0]));
    assert(crate::text::is_digit(s[s.len() - 1]));
    assert(!is_white_space(s[0]) && !is_white_space(s.last()));
}

/// Enter switches to the port whose digits were typed; where nothing was typed, to the
/// one under the cursor. A number that is no port is refused, and nothing but Enter
/// switches.
pub proof fn law_enter_switches_to_the_port_that_was_typed(m: ScoutModel, code: KeyCode)
    ensures
        all_digits(m.scout_port_input) ==> scout_outcome(m, KeyCode::Enter) == (
        if 0 < number_of(m.scout_port_input) <= 65535 {
            ScoutOutcome::Switch(number_of(m.scout_port_input) as u16)
        } else {
            ScoutOutcome::Refuse
        }),
        m.scout_port_input.len() == 0 ==> scout_outcome(m, KeyCode::Enter) == (
        if m.port_scan_selected < m.found().len() {
            ScoutOutcome::Switch(
                m.port_scan_results[m.found()[m.port_scan_selected as int]].port,
            )
        } else {
            ScoutOutcome::Refuse
        }),
        scout_outcome(m, KeyCode::Enter) matches ScoutOutcome::Switch(p) ==> {
            &&& m.pressed(KeyCode::Enter).pending_reconnect_port == Some(p)
            &&& m.pressed(KeyCode::Enter).scout_port_current == Some(p)
        },
        code != KeyCode::Enter ==> !(scout_outcome(m, code) is Switch) && m.pressed(
            code,
        ).pending_reconnect_port == m.pending_reconnect_port,
        scout_outcome(m, KeyCode::Esc) == ScoutOutcome::Close,
{
    if all_digits(m.scout_port_input) {
        lemma_digits_trimmed(m.scout_port_input);
        lemma_digits_spell(m.scout_port_input);
        assert(crate::text::is_digit(m.scout_port_input[0]));
    }
    if m.scout_port_input.len() == 0 {
        assert(trimmed(m.scout_port_input) =~= m.scout_port_input);
    }
}

/// A digit goes to the end of the port until it has five, and Backspace takes it out.
pub proof fn law_digits_make_up_the_port(m: ScoutModel, c: char)
    requires
        '0' <= c <= '9',
    ensures
        m.scout_port_input.len() < 5 ==> {
            &&& m.pressed(KeyCode::Char(c)).scout_port_input == m.scout_port_input + seq![c]
            &&& m.pressed(KeyCode::Char(c)).pressed(KeyCode::Backspace) == m
        },
        m.scout_port_input.len() >= 5 ==> m.pressed(KeyCode::Char(c)) == m,
{
    assert(m.scout_port_input.push(c) =~= m.scout_port_input + seq![c]);
    assert(m.scout_port_input.push(c).drop_last() =~= m.scout_port_input);
}

// ---------------------------------------------------------------------------
// Saved views
// ---------------------------------------------------------------------------

/// A view is saved under the name that was typed, without the space around it, and not
/// at all under a blank one.
pub proof fn law_a_view_is_saved_under_its_name(m: ProfilesModel, c: char, code: KeyCode)
    ensures
        m.save_pressed(KeyCode::Char(c)).profile_name_input == m.profile_name_input + seq![c],
        m.save_pressed(KeyCode::Char(c)).save_pressed(KeyCode::Backspace) == m,
        trimmed(m.profile_name_input).len() > 0 ==> m.save_outcome(KeyCode::Enter)
            == SaveModel::Save(trimmed(m.profile_name_input)),
        trimmed(m.profile_name_input).len() == 0 ==> m.save_outcome(KeyCode::Enter)
            == SaveModel::Refuse,
        m.save_outcome(KeyCode::Esc) == SaveModel::Close,
        code != KeyCode::Enter ==> !(m.save_outcome(code) is Save),
        m.save_pressed(code).profiles == m.profiles,
{
    assert(m.profile_name_input.push(c) =~= m.profile_name_input + seq![c]);
    assert(m.profile_name_input.push(c).drop_last() =~= m.profile_name_input);
}

/// The picker loads the view under the cursor, and the arrows go to the neighbour.
pub proof fn law_the_view_under_the_cursor_is_loaded(m: ProfilesModel, code: KeyCode)
    requires
        m.profiles.len() <= usize::MAX,
    ensures
        m.profile_selected < m.profiles.len() ==> m.load_outcome(KeyCode::Enter)
            == LoadOutcome::Load(m.profile_selected),
        code != KeyCode::Enter ==> !(m.load_outcome(code) is Load),
        m.load_outcome(KeyCode::Esc) == LoadOutcome::Close,
        m.profile_selected + 1 < m.profiles.len() ==> m.load_pressed(
            KeyCode::Down,
        ).profile_selected == m.profile_selected + 1,
        m.profile_selected > 0 ==> m.load_pressed(KeyCode::Up).profile_selected
            == m.profile_selected - 1,
        m.load_pressed(code).profiles == m.profiles,
{
}

/// The loaded view is the one that was picked: its filter, what it has open, the fields
/// it plots and whether it marks changes.
pub proof fn law_a_picked_view_is_restored(m: AppModel, now: u64)
    requires
        m.views.profile_selected < m.views.profiles.len(),
    ensures
        ({
            let p = m.views.profiles[m.views.profile_selected as int];
            let after = m.load_pressed(KeyCode::Enter, now);
            &&& after.pane.filter == p.filter
            &&& forall|x: Seq<char>|
                after.pane.expanded.contains(x) <==> #[trigger] p.expanded.contains(x)
            &&& forall|x: Seq<char>|
                after.pane.unfolded.contains(x) <==> #[trigger] p.unfolded.contains(x)
            &&& after.plot_field == p.plot_fields
            &&& after.diff_enabled == p.diff_enabled
            &&& after.pane.tree == m.pane.tree
            &&& after.pane.user_touched
        }),
{
    let p = m.views.profiles[m.views.profile_selected as int];
    assert forall|x: Seq<char>| p.expanded.to_set().contains(x) <==> #[trigger]
        p.expanded.contains(x) by {}
}

// ---------------------------------------------------------------------------
// Diagnostics
// ---------------------------------------------------------------------------

/// The checks that count as bad are those that failed and, if asked for, those that
/// warn.
pub proof fn law_bad_checks_failed_or_warn(checks: Seq<CheckModel>, warnings_too: bool)
    ensures
        counted(checks, warnings_too, checks.len()) == checks.filter(
            |c: CheckModel|
                c.status == CheckStatus::Fail || warnings_too && c.status == CheckStatus::Warn,
        ).len(),
    decreases checks.len(),
{
    reveal(Seq::filter);
    if checks.len() > 0 {
        law_bad_checks_failed_or_warn(checks.drop_last(), warnings_too);
        lemma_counted_start(checks, warnings_too, (checks.len() - 1) as nat);
    }
}

proof fn lemma_counted_start(checks: Seq<CheckModel>, warnings_too: bool, n: nat)
    requires
        n < checks.len(),
    ensures
        counted(checks, warnings_too, n) == counted(checks.drop_last(), warnings_too, n),
    decreases n,
{
    if n > 0 {
        lemma_counted_start(checks, warnings_too, (n - 1) as nat);
        assert(checks.drop_last()[n - 1] == checks[n - 1]);
    }
}

// ---------------------------------------------------------------------------
// The pointer
// ---------------------------------------------------------------------------

/// A click selects the item that was drawn on its row, and none where none was.
pub proof fn law_a_click_hits_what_is_drawn_there(
    rect: Rect,
    row: u16,
    offset: usize,
    total: nat,
    first: u16,
    item: nat,
)
    ensures
        item_at(rect, row, offset, total, first) == Some(item) <==> {
            &&& item < total
            &&& item >= offset
            &&& first + (item - offset) == row
            &&& row < rect.y + rect.height
        },
{
}

// ---------------------------------------------------------------------------
// What is asked of the session
// ---------------------------------------------------------------------------

/// What is handed out is exactly what is pending. A query and a message go out only
/// while there is a session.
pub proof fn law_what_is_pending_is_what_is_handed_out(
    m: AppModel,
    connected: bool,
    r: RequestModel,
)
    ensures
        m.requests(connected).contains(r) <==> match r {
            RequestModel::Query(q) => connected && m.query.pending_query == Some(q),
            RequestModel::Scout => m.network.pending_scout_request,
            RequestModel::ScanPorts => m.scout.pending_port_scan_request,
            RequestModel::Doctor => m.doctor.pending_doctor_request,
            RequestModel::Publish(k, v) => connected && m.publish.pending_publish == Some((k, v)),
            RequestModel::ReconnectPort(p) => m.scout.pending_reconnect_port == Some(p),
            RequestModel::ReconnectMode(mode) => m.pending_reconnect_mode == Some(mode),
        },
{
    let (a, b, c, d, e, f, g) = (
        crate::app::runtime::maybe(
            connected && m.query.pending_query is Some,
            RequestModel::Query(m.query.pending_query->0),
        ),
        crate::app::runtime::maybe(m.network.pending_scout_request, RequestModel::Scout),
        crate::app::runtime::maybe(m.scout.pending_port_scan_request, RequestModel::ScanPorts),
        crate::app::runtime::maybe(m.doctor.pending_doctor_request, RequestModel::Doctor),
        crate::app::runtime::maybe(
            connected && m.publish.pending_publish is Some,
            RequestModel::Publish(
                (m.publish.pending_publish->0).0,
                (m.publish.pending_publish->0).1,
            ),
        ),
        crate::app::runtime::maybe(
            m.scout.pending_reconnect_port is Some,
            RequestModel::ReconnectPort(m.scout.pending_reconnect_port->0),
        ),
        crate::app::runtime::maybe(
            m.pending_reconnect_mode is Some,
            RequestModel::ReconnectMode(m.pending_reconnect_mode->0),
        ),
    );
    lemma_in_either(a, b, r);
    lemma_in_either(a + b, c, r);
    lemma_in_either(a + b + c, d, r);
    lemma_in_either(a + b + c + d, e, r);
    lemma_in_either(a + b + c + d + e, f, r);
    lemma_in_either(a + b + c + d + e + f, g, r);
    lemma_maybe(a, r);
    lemma_maybe(b, r);
    lemma_maybe(c, r);
    lemma_maybe(d, r);
    lemma_maybe(e, r);
    lemma_maybe(f, r);
    lemma_maybe(g, r);
}

proof fn lemma_in_either(a: Seq<RequestModel>, b: Seq<RequestModel>, r: RequestModel)
    ensures
        (a + b).contains(r) <==> a.contains(r) || b.contains(r),
{
    if a.contains(r) {
        assert((a + b)[a.index_of(r)] == r);
    }
    if b.contains(r) {
        assert((a + b)[a.len() + b.index_of(r)] == r);
    }
    if (a + b).contains(r) {
        let i = (a + b).index_of(r);
        if i < a.len() {
            assert(a[i] == r);
        } else {
            assert(b[i - a.len()] == r);
        }
    }
}

proof fn lemma_maybe(a: Seq<RequestModel>, r: RequestModel)
    requires
        a.len() <= 1,
    ensures
        a.contains(r) <==> a.len() == 1 && a[0] == r,
{
}

/// A message that cannot go out for want of a session is reported as not sent.
pub proof fn law_a_message_without_a_session_is_refused(m: AppModel)
    requires
        m.publish.pending_publish is Some,
    ensures
        m.handed_out(false).publish.publish_result matches Some(Err(_)),
        m.handed_out(true).publish.publish_result == m.publish.publish_result,
        m.handed_out(true).publish.publish_key == m.publish.publish_key,
        m.handed_out(true).publish.publish_payload == m.publish.publish_payload,
{
}

/// The keys that hold a text are those of which it is a part, in order.
pub proof fn law_the_keys_listed_hold_the_text(keys: Seq<Seq<char>>, text: Seq<char>)
    ensures
        holding(keys, text, keys.len()) == keys.filter(
            |k: Seq<char>| text.len() == 0 || part_of(text, k),
        ),
    decreases keys.len(),
{
    reveal(Seq::filter);
    if keys.len() > 0 {
        law_the_keys_listed_hold_the_text(keys.drop_last(), text);
        law_a_text_occurs_where_it_is_a_part(text, keys.last());
        lemma_holding_start(keys, text, (keys.len() - 1) as nat);
    }
}

proof fn lemma_holding_start(keys: Seq<Seq<char>>, text: Seq<char>, n: nat)
    requires
        n < keys.len(),
    ensures
        holding(keys, text, n) == holding(keys.drop_last(), text, n),
    decreases n,
{
    if n > 0 {
        lemma_holding_start(keys, text, (n - 1) as nat);
        assert(keys.drop_last()[n - 1] == keys[n - 1]);
    }
}

/// A click on a drawn row of the key tree selects that row and goes to its detail; one
/// beside the rows selects nothing. The wheel goes to the neighbour.
pub proof fn law_a_click_selects_the_row(m: AppModel, rect: Rect, row: u16, down: bool)
    ensures
        ({
            let pane = m.pane.refreshed();
            let after = m.traffic_clicked(rect, row);
            let at = row - m.list_first_item_row + m.list_scroll_offset;
            let hit = row >= m.list_first_item_row && row < rect.y + rect.height && at
                < pane.rows.len();
            &&& hit && at <= usize::MAX ==> after.pane.selected == at && after.pane_focus
                == PaneFocus::Detail
            &&& !hit ==> after.pane == pane && after.pane_focus == m.pane_focus
            &&& after.pane.expanded == pane.expanded
        }),
        m.space == Space::Traffic ==> m.wheeled(down) == (AppModel {
            pane: m.pane.stepped(down),
            ..m
        }),
        m.space == Space::Network ==> m.wheeled(down) == (AppModel {
            network: m.network.stepped(down),
            ..m
        }),
{
}

/// A click on a tab goes to its space.
pub proof fn law_a_click_on_a_tab_goes_there(m: AppModel, col: u16, row: u16, i: int)
    requires
        m.space_tab_rects.len() == 2,
        0 <= i < 2,
        m.space_tab_rects[i] is Some,
        ({
            let r = m.space_tab_rects[i]->0;
            r.x <= col < r.x + r.width && r.y <= row < r.y + r.height
        }),
        i == 1 && m.space_tab_rects[0] is Some ==> {
            let r = m.space_tab_rects[0]->0;
            !(r.x <= col < r.x + r.width && r.y <= row < r.y + r.height)
        },
    ensures
        m.clicked(col, row).space == (if i == 0 {
            Space::Traffic
        } else {
            Space::Network
        }),
{
}

/// The answers of a query are what came back, and as many as are counted. One that failed
/// says why, and keeps the answers of the one before.
pub proof fn law_answers_are_what_came_back(
    q: QueryModel,
    results: Seq<MessageModel>,
    why: Seq<char>,
    key: Seq<char>,
)
    ensures
        q.answered(results).query_results == results,
        q.answered(results).query_status == StatusModel::Done(results.len()),
        q.failed(why).query_results == q.query_results,
        q.failed(why).query_status == StatusModel::Error(why),
        q.asked(key).pending_query == Some(key),
        q.asked(key).query_history == q.query_history.push(key),
        q.started(true).pending_query is None && q.started(true).query_status
            == StatusModel::Running,
        q.started(false).pending_query is None && q.started(false).query_status is Error,
{
}

/// The fields that are offered for a key are those of its newest message, up to
/// twenty-four of them, in the order of the document.
pub proof fn law_the_fields_are_those_of_the_newest_message(f: FeedModel, key: Seq<char>)
    ensures
        ({
            let any = f.history.rings.dom().contains(key) && f.history.rings[key].len() > 0;
            let all = number_pointers(f.history.rings[key][0].view, Seq::empty());
            &&& !any ==> f.fields_of(key).len() == 0
            &&& any && all.len() <= 24 ==> f.fields_of(key) == all
            &&& any && all.len() > 24 ==> f.fields_of(key) == all.take(24)
        }),
{
}

} // verus!
