//! What the keys do in the dialogs, and what each event concerns.
use vstd::prelude::*;

use crate::app::doctor::DoctorModel;
use crate::app::ingest::{event_leads, AppEvent};
use crate::app::keys::place_of;
use crate::app::palette::PaletteModel;
use crate::app::profiles::ProfilesModel;
use crate::app::scout_port::ScoutModel;
use crate::app::state::AppModel;
use crate::app::types::{ConnectionModel, EmptyReason, KeyCode, Overlay, PaneFocus, Rect};

verus! {

/// Whether the cursor of a list went one item down: to the next one, and not past the
/// last.
pub open spec fn one_down(before: usize, after: usize, len: nat) -> bool {
    &&& before + 1 < len ==> after == before + 1
    &&& before + 1 >= len && len > 0 ==> after == len - 1
    &&& len == 0 ==> after == before
}

/// Whether the cursor of a list went one item up: to the one before, and not past the
/// first.
pub open spec fn one_up(before: usize, after: usize) -> bool {
    &&& before > 0 ==> after == before - 1
    &&& before == 0 ==> after == 0
}

/// In the palette the arrows step through what is listed and leave what was typed.
pub proof fn law_arrows_step_through_the_palette(m: PaletteModel)
    requires
        m.filtered().len() <= usize::MAX,
    ensures
        one_down(
            m.palette_selected,
            m.pressed(KeyCode::Down).palette_selected,
            m.filtered().len(),
        ),
        one_up(m.palette_selected, m.pressed(KeyCode::Up).palette_selected),
        m.pressed(KeyCode::Down).palette_input == m.palette_input,
        m.pressed(KeyCode::Up).palette_input == m.palette_input,
{
}

/// Among the saved views the arrows step, and so do `j` and `k`.
pub proof fn law_arrows_step_through_the_views(m: ProfilesModel)
    requires
        m.profiles.len() <= usize::MAX,
    ensures
        one_down(
            m.profile_selected,
            m.load_pressed(KeyCode::Down).profile_selected,
            m.profiles.len(),
        ),
        one_up(m.profile_selected, m.load_pressed(KeyCode::Up).profile_selected),
        m.load_pressed(KeyCode::Char('j')) == m.load_pressed(KeyCode::Down),
        m.load_pressed(KeyCode::Char('k')) == m.load_pressed(KeyCode::Up),
        m.load_pressed(KeyCode::Down).profiles == m.profiles,
        m.load_pressed(KeyCode::Up).profiles == m.profiles,
{
}

/// Among the ports where somebody answered the arrows step, and so do `j` and `k`.
pub proof fn law_arrows_step_through_the_ports(m: ScoutModel)
    requires
        m.port_scan_selected < m.found().len() <= usize::MAX,
    ensures
        one_down(
            m.port_scan_selected,
            m.pressed(KeyCode::Down).port_scan_selected,
            m.found().len(),
        ),
        one_up(m.port_scan_selected, m.pressed(KeyCode::Up).port_scan_selected),
        m.pressed(KeyCode::Char('j')) == m.pressed(KeyCode::Down),
        m.pressed(KeyCode::Char('k')) == m.pressed(KeyCode::Up),
        m.pressed(KeyCode::Down).scout_port_input == m.scout_port_input,
        m.pressed(KeyCode::Up).scout_port_input == m.scout_port_input,
{
}

/// Among the fields that can be plotted the arrows step, and so do `j` and `k`. The
/// dialog opens on the field that is plotted already, and on the first otherwise.
pub proof fn law_arrows_step_through_the_fields(m: AppModel, key: Seq<char>)
    requires
        m.fields().len() <= usize::MAX,
    ensures
        one_down(
            m.plot_picker_selected,
            m.picker_pressed(KeyCode::Down).plot_picker_selected,
            m.fields().len(),
        ),
        one_up(m.plot_picker_selected, m.picker_pressed(KeyCode::Up).plot_picker_selected),
        m.picker_pressed(KeyCode::Char('j')) == m.picker_pressed(KeyCode::Down),
        m.picker_pressed(KeyCode::Char('k')) == m.picker_pressed(KeyCode::Up),
        m.picker_pressed(KeyCode::Down).plot_field == m.plot_field,
        m.picker_pressed(KeyCode::Esc).plot_field == m.plot_field,
        m.plot_field.dom().contains(key) && m.fields().contains(m.plot_field[key]) ==> {
            &&& m.picker_start(key) < m.fields().len()
            &&& m.fields()[m.picker_start(key) as int] == m.plot_field[key]
        },
        !m.plot_field.dom().contains(key) ==> m.picker_start(key) == 0,
{
    if m.plot_field.dom().contains(key) {
        lemma_place(m.fields(), m.plot_field[key], m.fields().len());
        if m.fields().contains(m.plot_field[key]) {
            let k = m.fields().index_of(m.plot_field[key]);
            assert(m.fields()[k] == m.plot_field[key]);
        }
    }
}

proof fn lemma_place(fields: Seq<Seq<char>>, field: Seq<char>, n: nat)
    requires
        n <= fields.len(),
    ensures
        place_of(fields, field, n) matches Some(i) ==> i < n && fields[i as int] == field,
        place_of(fields, field, n) is None ==> forall|k: int| 0 <= k < n ==> fields[k] != field,
    decreases n,
{
    if n > 0 {
        lemma_place(fields, field, (n - 1) as nat);
    }
}

/// The help and the diagnostics scroll by a line, no further up than the top; `r` runs
/// the diagnostics again and changes nothing else.
pub proof fn law_arrows_scroll_the_text_in_front(m: AppModel)
    ensures
        m.help_scroll < u16::MAX ==> m.help_pressed(KeyCode::Down).help_scroll == m.help_scroll + 1,
        m.help_scroll > 0 ==> m.help_pressed(KeyCode::Up).help_scroll == m.help_scroll - 1,
        m.help_scroll == 0 ==> m.help_pressed(KeyCode::Up).help_scroll == 0,
        m.help_pressed(KeyCode::Char('j')) == m.help_pressed(KeyCode::Down),
        m.help_pressed(KeyCode::Char('k')) == m.help_pressed(KeyCode::Up),
        m.doctor.doctor_scroll < u16::MAX ==> m.doctor_pressed(KeyCode::Down).doctor.doctor_scroll
            == m.doctor.doctor_scroll + 1,
        m.doctor.doctor_scroll > 0 ==> m.doctor_pressed(KeyCode::Up).doctor.doctor_scroll
            == m.doctor.doctor_scroll - 1,
        m.doctor.doctor_scroll == 0 ==> m.doctor_pressed(KeyCode::Up).doctor.doctor_scroll == 0,
        m.doctor_pressed(KeyCode::Char('j')) == m.doctor_pressed(KeyCode::Down),
        m.doctor_pressed(KeyCode::Char('k')) == m.doctor_pressed(KeyCode::Up),
        m.doctor_pressed(KeyCode::Char('r')).doctor == (DoctorModel {
            pending_doctor_request: true,
            ..m.doctor
        }),
        m.doctor_pressed(KeyCode::Char('r')).overlay == m.overlay,
        m.doctor_pressed(KeyCode::Char('d')).overlay == Overlay::Closed,
        m.help_pressed(KeyCode::Char('?')).overlay == Overlay::Closed,
{
}

/// A click on a participant selects that one and goes to its detail; one on a heading or
/// beside the list does nothing.
pub proof fn law_a_click_selects_the_participant(m: AppModel, rect: Rect, row: u16)
    ensures
        ({
            let at = row - m.list_first_item_row + m.list_scroll_offset;
            let hit = row >= m.list_first_item_row && row < rect.y + rect.height && at
                < m.network_click_map.len() && at <= usize::MAX;
            let after = m.network_clicked(rect, row);
            &&& hit && m.network_click_map[at] is Some ==> {
                &&& after.network.network_selected == m.network_click_map[at]->0
                &&& after.pane_focus == PaneFocus::Detail
                &&& after.network.liveliness_tokens == m.network.liveliness_tokens
                &&& after.network.nodes == m.network.nodes
            }
            &&& hit && m.network_click_map[at] is None ==> after == m
            &&& row < m.list_first_item_row || row >= rect.y + rect.height ==> after == m
        }),
{
}

/// An empty list says why: first the connection, then the filter if there would be
/// something without it, else that nothing came yet.
pub proof fn law_an_empty_list_says_why(m: AppModel)
    ensures
        m.connection is Connecting ==> m.topics_reason() == EmptyReason::Connecting
            && m.stream_reason() == EmptyReason::Connecting && m.nodes_reason()
            == EmptyReason::Connecting,
        m.connection is Disconnected ==> m.topics_reason() == EmptyReason::Disconnected
            && m.stream_reason() == EmptyReason::Disconnected && m.nodes_reason()
            == EmptyReason::Disconnected,
        m.connection is Connected ==> {
            &&& m.nodes_reason() == EmptyReason::NoDataYet
            &&& m.topics_reason() == EmptyReason::FilteredOut <==> m.pane.filter.len() > 0
                && m.pane.tree.keys().len() > 0
            &&& m.topics_reason() == EmptyReason::NoDataYet <==> m.pane.filter.len() == 0
                || m.pane.tree.keys().len() == 0
            &&& m.stream_reason() == EmptyReason::FilteredOut <==> m.stream.stream_filter.len() > 0
                && m.stream.sub_messages.len() > 0
            &&& m.stream_reason() == EmptyReason::NoDataYet <==> m.stream.stream_filter.len() == 0
                || m.stream.sub_messages.len() == 0
        },
{
}

/// What comes from the network concerns the part that it is about: who takes part does
/// not touch the keys, messages do not touch who takes part, and nothing that comes in
/// changes what the user has in front or typed.
pub proof fn law_an_event_concerns_its_part(
    m: AppModel,
    event: AppEvent,
    now: u64,
    after: AppModel,
)
    requires
        event_leads(m, event, now, after),
        !(event is Key),
        !(event is Mouse),
    ensures
        after.overlay == m.overlay,
        after.publish == m.publish,
        after.query == m.query,
        after.palette == m.palette,
        after.views == m.views,
        after.space == m.space,
        after.connection == m.connection,
        event is Zenoh || event is Tick ==> after.network == m.network && after.doctor == m.doctor
            && after.scout == m.scout,
        event is Liveliness || event is AdminNodes || event is ScoutNodes || event is ScoutStarted
            ==> after.feed == m.feed && after.pane == m.pane && after.stream == m.stream
            && after.doctor == m.doctor && after.scout == m.scout,
        event is DoctorStarted ==> after.doctor.doctor_running && after.network == m.network
            && after.feed == m.feed,
        event matches AppEvent::DoctorReport(r) ==> !after.doctor.doctor_running
            && after.doctor.doctor_report == Some(r@) && after.network == m.network && after.feed
            == m.feed,
        event is PortScanStarted ==> after.scout.port_scan_in_progress,
        event is PortScanResults ==> !after.scout.port_scan_in_progress
            && after.scout.port_scan_selected == 0 && after.network == m.network,
        event is ScoutStarted ==> after.network.scout_in_progress,
        event is ScoutNodes ==> !after.network.scout_in_progress,
{
}

/// The light in the header is that of the diagnostics where there are any, and that of
/// the connection otherwise.
pub proof fn law_the_light_follows_the_connection(c: ConnectionModel)
    ensures
        ({
            let color = crate::view::chrome::health(None, c).1;
            &&& c is Connected <==> color == crate::view::style::Color::Green
            &&& c is Connecting <==> color == crate::view::style::Color::Yellow
            &&& c is Disconnected <==> color == crate::view::style::Color::Red
        }),
{
}

} // verus!
