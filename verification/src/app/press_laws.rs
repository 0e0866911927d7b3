//! What a key press does to the dashboard, whatever state it is in.
use vstd::prelude::*;

use crate::app::keys::Wanted;
use crate::app::state::AppModel;
use crate::app::tree_pane::PaneModel;
use crate::app::types::{
    scrolled, scrolled_by, DetailMode, DetailScroll, KeyCode, KeyEvent, Overlay, PaneFocus, Space,
};

verus! {

/// Whether a key press reaches the global keys and the active space.
pub open spec fn at_rest(m: AppModel) -> bool {
    &&& m.overlay == Overlay::Closed
    &&& !m.pane.filtering
    &&& !m.network.network_filtering
    &&& !m.stream.stream_filtering
    &&& !m.query.query_editing
}

/// At rest a key press is one of the global keys or goes to the active space; while a
/// text is typed with nothing in front, it goes to the text.
pub proof fn law_where_a_key_press_goes(m: AppModel, key: KeyEvent, now: u64)
    ensures
        at_rest(m) ==> m.pressed(key, now) == m.plain_pressed(key.code, now),
        m.overlay == Overlay::Closed && !at_rest(m) ==> m.pressed(key, now) == m.text_pressed(
            key.code,
        ),
{
}

/// The global keys: `q` quits, `?` opens the help, `d` the diagnostics and asks for a run,
/// `:` a palette with nothing typed, `1` and `2` and Tab go to a space, Enter to the
/// detail and Esc back to the list.
pub proof fn law_the_global_keys(m: AppModel, now: u64)
    ensures
        m.plain_pressed(KeyCode::Char('q'), now) == (AppModel { should_quit: true, ..m }),
        m.plain_pressed(KeyCode::Char('?'), now) == (AppModel {
            overlay: Overlay::Help,
            help_scroll: 0,
            ..m
        }),
        m.plain_pressed(KeyCode::Char('d'), now).overlay == Overlay::Doctor,
        m.plain_pressed(KeyCode::Char('d'), now).doctor.pending_doctor_request,
        m.plain_pressed(KeyCode::Char(':'), now).overlay == Overlay::Palette,
        m.plain_pressed(KeyCode::Char(':'), now).palette.palette_input.len() == 0,
        m.plain_pressed(KeyCode::Char('1'), now) == (AppModel {
            space: Space::Traffic,
            pane_focus: PaneFocus::Master,
            ..m
        }),
        m.plain_pressed(KeyCode::Char('2'), now) == (AppModel {
            space: Space::Network,
            pane_focus: PaneFocus::Master,
            ..m
        }),
        m.plain_pressed(KeyCode::Tab, now).space != m.space,
        m.plain_pressed(KeyCode::Tab, now) == (AppModel {
            space: m.plain_pressed(KeyCode::Tab, now).space,
            pane_focus: PaneFocus::Master,
            ..m
        }),
        m.plain_pressed(KeyCode::Enter, now) == (AppModel { pane_focus: PaneFocus::Detail, ..m }),
        m.plain_pressed(KeyCode::Esc, now) == (AppModel { pane_focus: PaneFocus::Master, ..m }),
{
}

/// A key that is not one of the global ones goes to the space that is active, whose rows
/// are brought up to date first.
pub proof fn law_other_keys_go_to_the_space(m: AppModel, code: KeyCode, now: u64)
    requires
        !(code is Tab || code is Enter || code is Esc),
        code matches KeyCode::Char(c) ==> c != 'q' && c != '?' && c != 'd' && c != ':' && c != '1'
            && c != '2' && c != 'J' && c != 'K',
    ensures
        m.space == Space::Traffic ==> m.plain_pressed(code, now) == (AppModel {
            pane: m.pane.refreshed(),
            ..m
        }).traffic_refreshed_pressed(code, now),
        m.space == Space::Network ==> m.plain_pressed(code, now) == m.network_pressed(code, now),
{
}

/// The cursor of the Traffic space goes down with `j` and the arrow and up with `k` and the
/// arrow, and `l`, `h` and the arrows walk in and out.
pub proof fn law_walking_the_traffic_space(m: AppModel, now: u64)
    ensures
        m.traffic_refreshed_pressed(KeyCode::Char('j'), now) == (AppModel {
            pane: m.pane.stepped(true),
            ..m
        }),
        m.traffic_refreshed_pressed(KeyCode::Down, now) == (AppModel {
            pane: m.pane.stepped(true),
            ..m
        }),
        m.traffic_refreshed_pressed(KeyCode::Char('k'), now) == (AppModel {
            pane: m.pane.stepped(false),
            ..m
        }),
        m.traffic_refreshed_pressed(KeyCode::Up, now) == (AppModel {
            pane: m.pane.stepped(false),
            ..m
        }),
        m.traffic_refreshed_pressed(KeyCode::Char('l'), now).pane == m.pane.descended(),
        m.traffic_refreshed_pressed(KeyCode::Right, now)
            == m.traffic_refreshed_pressed(KeyCode::Char('l'), now),
        m.pane.enters_detail() ==> m.traffic_refreshed_pressed(
            KeyCode::Char('l'),
            now,
        ).pane_focus == PaneFocus::Detail,
        m.traffic_refreshed_pressed(KeyCode::Char('h'), now) == (AppModel {
            pane: m.pane.ascended(),
            ..m
        }),
        m.traffic_refreshed_pressed(KeyCode::Left, now) == (AppModel {
            pane: m.pane.ascended(),
            ..m
        }),
{
}

/// In the Traffic space `z` toggles a branch, `E` and `C` open and close everything, `/`
/// starts the filter, `L` and `Q` choose what the detail shows, the space bar pauses and
/// `D` marks changes or not. `Q` asks for the selected key.
pub proof fn law_the_keys_of_the_traffic_space(m: AppModel, now: u64)
    ensures
        m.traffic_typed('z', now) == (AppModel { pane: m.pane.toggled(), ..m }),
        m.traffic_typed('E', now) == (AppModel { pane: m.pane.all_opened(), ..m }),
        m.traffic_typed('C', now) == (AppModel { pane: m.pane.all_closed(), ..m }),
        m.traffic_typed('/', now) == (AppModel {
            pane: PaneModel { filtering: true, ..m.pane },
            ..m
        }),
        m.traffic_typed('L', now) == (AppModel { detail_mode: DetailMode::Live, ..m }),
        m.traffic_typed('Q', now).detail_mode == DetailMode::Query,
        m.pane.selected_key() is Some ==> m.traffic_typed('Q', now).query.pending_query
            == m.pane.selected_key(),
        m.pane.selected_key() is None ==> m.traffic_typed('Q', now).query == m.query,
        m.traffic_typed(' ', now).feed.history_paused == !m.feed.history_paused,
        m.traffic_typed(' ', now).traffic_typed(' ', now) == m,
        m.traffic_typed('D', now).diff_enabled == !m.diff_enabled,
        m.traffic_typed('D', now).traffic_typed('D', now) == m,
{
}

/// In the Network space the cursor goes down and up, `s` asks for a scout unless one runs,
/// `/` starts the filter and `D` turns over whether only the dead are listed.
pub proof fn law_the_keys_of_the_network_space(m: AppModel, now: u64)
    ensures
        m.network_pressed(KeyCode::Char('j'), now) == (AppModel {
            network: m.network.stepped(true),
            ..m
        }),
        m.network_pressed(KeyCode::Down, now) == (AppModel {
            network: m.network.stepped(true),
            ..m
        }),
        m.network_pressed(KeyCode::Char('k'), now) == (AppModel {
            network: m.network.stepped(false),
            ..m
        }),
        m.network_pressed(KeyCode::Up, now) == (AppModel {
            network: m.network.stepped(false),
            ..m
        }),
        m.network_pressed(KeyCode::Char('s'), now).network.pending_scout_request == (
        m.network.pending_scout_request || !m.network.scout_in_progress),
        m.network_pressed(KeyCode::Char('/'), now).network.network_filtering,
        m.network_pressed(KeyCode::Char('/'), now).network.network_filter
            == m.network.network_filter,
        m.network_pressed(KeyCode::Char('D'), now).network.network_dead_only
            == !m.network.network_dead_only,
        m.network_pressed(KeyCode::Char('D'), now).network.liveliness_tokens
            == m.network.liveliness_tokens,
        m.network_pressed(KeyCode::Char('D'), now).network.network_filter
            == m.network.network_filter,
        m.network_pressed(KeyCode::Right, now) == (AppModel {
            pane_focus: PaneFocus::Detail,
            ..m
        }),
        m.network_pressed(KeyCode::Left, now) == (AppModel {
            pane_focus: PaneFocus::Master,
            ..m
        }),
{
}

/// `J` and `K` scroll the detail of the active space by three lines.
pub proof fn law_capitals_scroll_the_detail(m: AppModel, now: u64)
    ensures
        m.traffic_pressed(KeyCode::Char('J'), now).pane == (PaneModel {
            detail_scroll: scrolled_by(m.pane.detail_scroll, 3),
            ..m.pane
        }),
        m.traffic_pressed(KeyCode::Char('K'), now).pane == (PaneModel {
            detail_scroll: scrolled_by(m.pane.detail_scroll, -3),
            ..m.pane
        }),
        m.network_pressed(KeyCode::Char('J'), now).network.node_detail_scroll == scrolled_by(
            m.network.node_detail_scroll,
            3,
        ),
        m.network_pressed(KeyCode::Char('K'), now).network.node_detail_scroll == scrolled_by(
            m.network.node_detail_scroll,
            -3,
        ),
{
}

/// Scrolling by some lines and back again ends where it began, unless an end was reached.
pub proof fn law_scrolling_back_undoes_scrolling(at: u16)
    ensures
        at <= u16::MAX - 3 ==> scrolled(at, DetailScroll::Down) == at + 3,
        at >= 3 ==> scrolled(at, DetailScroll::Up) == at - 3,
        at < 3 ==> scrolled(at, DetailScroll::Up) == 0,
        at <= u16::MAX - 3 ==> scrolled(scrolled(at, DetailScroll::Down), DetailScroll::Up) == at,
{
}

/// The filter of the keys takes what is typed at its end and gives it back to Backspace.
/// Nothing else changes, and Enter and Esc leave the text as it is.
pub proof fn law_a_filter_takes_what_is_typed(m: AppModel, c: char)
    requires
        m.pane.filtering,
    ensures
        m.text_pressed(KeyCode::Char(c)) == (AppModel {
            pane: PaneModel { filter: m.pane.filter + seq![c], ..m.pane },
            ..m
        }),
        m.text_pressed(KeyCode::Char(c)).text_pressed(KeyCode::Backspace) == m,
        m.text_pressed(KeyCode::Enter).pane == (PaneModel { filtering: false, ..m.pane }),
        m.text_pressed(KeyCode::Esc).pane == (PaneModel { filtering: false, ..m.pane }),
{
    assert(m.pane.filter.push(c) =~= m.pane.filter + seq![c]);
    assert(m.pane.filter.push(c).drop_last() =~= m.pane.filter);
}

/// The filter of the participants and that of the stream take what is typed at their end
/// and give it back to Backspace.
pub proof fn law_the_other_filters_take_what_is_typed(m: AppModel, c: char)
    requires
        !m.pane.filtering,
        m.network.network_filtering || m.stream.stream_filtering,
    ensures
        ({
            let typed = m.text_pressed(KeyCode::Char(c));
            let undone = typed.text_pressed(KeyCode::Backspace);
            &&& m.network.network_filtering ==> {
                &&& typed.network.network_filter == m.network.network_filter + seq![c]
                &&& undone.network.network_filter == m.network.network_filter
                &&& typed.stream == m.stream
            }
            &&& !m.network.network_filtering ==> {
                &&& typed.stream.stream_filter == m.stream.stream_filter + seq![c]
                &&& undone.stream.stream_filter == m.stream.stream_filter
                &&& typed.network == m.network
            }
            &&& typed.pane == m.pane
            &&& typed.query == m.query
        }),
{
    assert(m.network.network_filter.push(c) =~= m.network.network_filter + seq![c]);
    assert(m.network.network_filter.push(c).drop_last() =~= m.network.network_filter);
    assert(m.stream.stream_filter.push(c) =~= m.stream.stream_filter + seq![c]);
    assert(m.stream.stream_filter.push(c).drop_last() =~= m.stream.stream_filter);
}

/// An edited query takes what is typed, and Enter asks exactly for it; an empty one asks
/// for nothing, and Esc gives up.
pub proof fn law_an_edited_query_is_what_is_asked(m: AppModel, c: char)
    requires
        !m.pane.filtering,
        !m.network.network_filtering,
        !m.stream.stream_filtering,
        m.query.query_editing,
    ensures
        m.text_pressed(KeyCode::Char(c)).query.query_input == m.query.query_input + seq![c],
        m.text_pressed(KeyCode::Char(c)).text_pressed(KeyCode::Backspace) == m,
        m.text_pressed(KeyCode::Enter).query.pending_query == (if m.query.query_input.len() > 0 {
            Some(m.query.query_input)
        } else {
            m.query.pending_query
        }),
        m.query.query_input.len() > 0 ==> m.text_pressed(KeyCode::Enter).query.query_history
            == m.query.query_history.push(m.query.query_input),
        m.text_pressed(KeyCode::Esc).query.pending_query == m.query.pending_query,
        !m.text_pressed(KeyCode::Enter).query.query_editing,
        !m.text_pressed(KeyCode::Esc).query.query_editing,
{
    assert(m.query.query_input.push(c) =~= m.query.query_input + seq![c]);
    assert(m.query.query_input.push(c).drop_last() =~= m.query.query_input);
}

/// What is copied is the newest payload of the selected key, or the key itself; in the
/// Network space the id of the session or the key of the token under the cursor.
pub proof fn law_what_is_copied_is_what_is_selected(m: AppModel, key: KeyEvent)
    requires
        at_rest(m),
    ensures
        m.space == Space::Traffic && key.code == KeyCode::Char('Y') ==> match m.pane.refreshed().selected_key() {
            Some(k) => m.wanted(key) == Wanted::Copy(k, "key"@),
            None => m.wanted(key) is Nothing,
        },
        m.space == Space::Traffic && key.code == KeyCode::Char('y') ==> match m.pane.refreshed().selected_key() {
            Some(k) => if m.feed.latest.dom().contains(k) {
                m.wanted(key) == Wanted::Copy(m.feed.latest[k].message.payload.pretty, "payload"@)
            } else {
                m.wanted(key) is Nothing
            },
            None => m.wanted(key) is Nothing,
        },
        m.space == Space::Network && key.code == KeyCode::Char('y')
            && m.network.network_selected < m.network.rows().len() ==> match m.network.rows()[m.network.network_selected as int] {
            crate::app::network_pane::NetworkRow::Session(i) => m.wanted(key) == Wanted::Copy(
                m.network.nodes[i as int].zid,
                "zid"@,
            ),
            crate::app::network_pane::NetworkRow::Service(i) => m.wanted(key) == Wanted::Copy(
                m.network.liveliness_tokens[i as int].key_expr,
                "key"@,
            ),
        },
        !(key.code == KeyCode::Char('y') || key.code == KeyCode::Char('Y')) ==> m.wanted(key)
            is Nothing,
{
}

/// The field under the picker's cursor is plotted for the selected key and for no other,
/// and giving a plot up gives up that of the selected key alone.
pub proof fn law_a_plot_is_picked_for_the_selected_key(m: AppModel, other: Seq<char>, now: u64)
    requires
        m.pane.selected_key() is Some,
        other != m.pane.selected_key()->0,
    ensures
        ({
            let key = m.pane.selected_key()->0;
            &&& m.plot_picker_selected < m.fields().len() ==> {
                &&& m.picked().plot_field.dom().contains(key)
                &&& m.picked().plot_field[key] == m.fields()[m.plot_picker_selected as int]
            }
            &&& m.picked().plot_field.dom().contains(other) == m.plot_field.dom().contains(other)
            &&& m.plot_field.dom().contains(other) ==> m.picked().plot_field[other]
                == m.plot_field[other]
            &&& !m.unplotted(now).plot_field.dom().contains(key)
            &&& m.unplotted(now).plot_field.dom().contains(other)
                == m.plot_field.dom().contains(other)
            &&& m.picked().overlay == Overlay::Closed
        }),
{
}

} // verus!
