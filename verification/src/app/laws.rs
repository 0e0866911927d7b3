//! What holds of the dashboard whatever is pressed.
use vstd::prelude::*;

use crate::app::ingest::takes_in;
use crate::app::palette::{palette_outcome, PaletteAction, PaletteOutcome};
use crate::app::state::AppModel;
use crate::app::types::{scroll_request, KeyCode, KeyEvent, MouseEvent, Overlay, Space};
use crate::message::MessageModel;

verus! {

/// A session that may not write never does: no key press hands a message over for
/// sending, none turns the permission on, and the editor never opens.
pub proof fn law_a_session_that_may_not_write_never_does(m: AppModel, key: KeyEvent, now: u64)
    requires
        !m.publish.allow_publish,
    ensures
        m.pressed(key, now).publish.pending_publish == m.publish.pending_publish,
        !m.pressed(key, now).publish.allow_publish,
        m.overlay != Overlay::Publish ==> m.pressed(key, now).overlay != Overlay::Publish,
{
    match m.overlay {
        Overlay::Palette => lemma_the_palette_keeps_the_editor(m, key, now),
        Overlay::Closed => lemma_plain_keys_keep_the_editor(m, key, now),
        _ => lemma_other_overlays_keep_the_editor(m, key, now),
    }
}

/// Whether a key press leaves what the editor would send alone, and does not open it.
spec fn spares_the_editor(m: AppModel, key: KeyEvent, now: u64) -> bool {
    &&& m.pressed(key, now).publish.pending_publish == m.publish.pending_publish
    &&& !m.pressed(key, now).publish.allow_publish
    &&& m.overlay != Overlay::Publish ==> m.pressed(key, now).overlay != Overlay::Publish
}

#[verifier::rlimit(40)]
proof fn lemma_the_palette_keeps_the_editor(m: AppModel, key: KeyEvent, now: u64)
    requires
        !m.publish.allow_publish,
        m.overlay == Overlay::Palette,
    ensures
        spares_the_editor(m, key, now),
{
    match palette_outcome(m.palette, key.code) {
        PaletteOutcome::Run(action) => {
            let typed = AppModel { palette: m.palette.pressed(key.code), ..m };
            lemma_commands_keep_the_editor(typed, action, now);
        },
        _ => {},
    }
}

#[verifier::rlimit(40)]
proof fn lemma_other_overlays_keep_the_editor(m: AppModel, key: KeyEvent, now: u64)
    requires
        !m.publish.allow_publish,
        m.overlay != Overlay::Palette,
        m.overlay != Overlay::Closed,
    ensures
        spares_the_editor(m, key, now),
{
    let code = key.code;
    match m.overlay {
        Overlay::ScoutPort => {
            lemma_the_port_switcher_keeps_to_itself(m, code, now);
            assert(m.pressed(key, now) == m.scout_pressed(code, now));
        },
        Overlay::PlotPicker => {
            lemma_the_picker_keeps_to_itself(m, code);
            assert(m.pressed(key, now) == m.picker_pressed(code));
        },
        Overlay::Publish => {
            lemma_the_editor_sends_nothing_unpermitted(m, key);
            assert(m.pressed(key, now) == m.publish_pressed(key));
        },
        Overlay::ProfileSave => {
            lemma_the_save_prompt_keeps_to_itself(m, code, now);
            assert(m.pressed(key, now) == m.save_pressed(code, now));
        },
        Overlay::ProfileLoad => {
            lemma_the_load_list_keeps_to_itself(m, code, now);
            assert(m.pressed(key, now) == m.load_pressed(code, now));
        },
        Overlay::Doctor => {
            lemma_the_diagnostics_keeps_to_itself(m, code);
            assert(m.pressed(key, now) == m.doctor_pressed(code));
        },
        Overlay::Help => {
            lemma_the_help_keeps_to_itself(m, code);
            assert(m.pressed(key, now) == m.help_pressed(code));
        },
        _ => {},
    }
}

proof fn lemma_the_port_switcher_keeps_to_itself(m: AppModel, code: KeyCode, now: u64)
    requires
        m.overlay == Overlay::ScoutPort,
    ensures
        m.scout_pressed(code, now).publish == m.publish,
        m.scout_pressed(code, now).overlay != Overlay::Publish,
        m.scout_pressed(code, now).should_quit == m.should_quit,
        m.scout_pressed(code, now).space == m.space,
{
}

proof fn lemma_the_picker_keeps_to_itself(m: AppModel, code: KeyCode)
    requires
        m.overlay == Overlay::PlotPicker,
    ensures
        m.picker_pressed(code).publish == m.publish,
        m.picker_pressed(code).overlay != Overlay::Publish,
        m.picker_pressed(code).should_quit == m.should_quit,
        m.picker_pressed(code).space == m.space,
{
}

proof fn lemma_the_save_prompt_keeps_to_itself(m: AppModel, code: KeyCode, now: u64)
    requires
        m.overlay == Overlay::ProfileSave,
    ensures
        m.save_pressed(code, now).publish == m.publish,
        m.save_pressed(code, now).overlay != Overlay::Publish,
        m.save_pressed(code, now).should_quit == m.should_quit,
        m.save_pressed(code, now).space == m.space,
{
}

proof fn lemma_the_load_list_keeps_to_itself(m: AppModel, code: KeyCode, now: u64)
    requires
        m.overlay == Overlay::ProfileLoad,
    ensures
        m.load_pressed(code, now).publish == m.publish,
        m.load_pressed(code, now).overlay != Overlay::Publish,
        m.load_pressed(code, now).should_quit == m.should_quit,
        m.load_pressed(code, now).space == m.space,
{
}

proof fn lemma_the_diagnostics_keeps_to_itself(m: AppModel, code: KeyCode)
    requires
        m.overlay == Overlay::Doctor,
    ensures
        m.doctor_pressed(code).publish == m.publish,
        m.doctor_pressed(code).overlay != Overlay::Publish,
        m.doctor_pressed(code).should_quit == m.should_quit,
        m.doctor_pressed(code).space == m.space,
{
}

proof fn lemma_the_help_keeps_to_itself(m: AppModel, code: KeyCode)
    requires
        m.overlay == Overlay::Help,
    ensures
        m.help_pressed(code).publish == m.publish,
        m.help_pressed(code).overlay != Overlay::Publish,
        m.help_pressed(code).should_quit == m.should_quit,
        m.help_pressed(code).space == m.space,
{
}

proof fn lemma_the_editor_sends_nothing_unpermitted(m: AppModel, key: KeyEvent)
    requires
        !m.publish.allow_publish,
    ensures
        m.publish_pressed(key).publish.pending_publish == m.publish.pending_publish,
        !m.publish_pressed(key).publish.allow_publish,
{
}

#[verifier::rlimit(40)]
proof fn lemma_plain_keys_keep_the_editor(m: AppModel, key: KeyEvent, now: u64)
    requires
        !m.publish.allow_publish,
        m.overlay == Overlay::Closed,
    ensures
        spares_the_editor(m, key, now),
{
    if m.typing() {
        lemma_typing_keeps_to_itself(m, key.code);
        assert(m.pressed(key, now) == m.text_pressed(key.code));
    } else {
        assert(m.pressed(key, now) == m.plain_pressed(key.code, now));
        match m.space {
            Space::Traffic => {
                lemma_traffic_keeps_the_editor(m, key.code, now);
                assert(m.space_pressed(key.code, now) == m.traffic_pressed(key.code, now));
            },
            Space::Network => {
                lemma_network_keeps_the_editor(m, key.code, now);
                assert(m.space_pressed(key.code, now) == m.network_pressed(key.code, now));
            },
        }
    }
}

proof fn lemma_typing_keeps_to_itself(m: AppModel, code: KeyCode)
    ensures
        m.text_pressed(code).publish == m.publish,
        m.text_pressed(code).overlay == m.overlay,
        m.text_pressed(code).should_quit == m.should_quit,
        m.text_pressed(code).space == m.space,
{
}

proof fn lemma_commands_keep_the_editor(m: AppModel, action: PaletteAction, now: u64)
    requires
        !m.publish.allow_publish,
        m.overlay == Overlay::Palette,
    ensures
        m.ran(action, now).publish == m.publish,
        m.ran(action, now).overlay != Overlay::Publish,
{
}

#[verifier::rlimit(40)]
proof fn lemma_traffic_keeps_the_editor(m: AppModel, code: KeyCode, now: u64)
    requires
        m.overlay == Overlay::Closed,
    ensures
        m.traffic_pressed(code, now).publish == m.publish,
        m.traffic_pressed(code, now).overlay != Overlay::Publish,
{
    if scroll_request(code) is None {
        let fresh = m.with_pane(m.pane.refreshed());
        assert(fresh.publish == m.publish && fresh.overlay == m.overlay);
        match code {
            KeyCode::Char(c) => lemma_traffic_characters_keep_the_editor(fresh, c, now),
            _ => {},
        }
    }
}

#[verifier::rlimit(40)]
proof fn lemma_traffic_characters_keep_the_editor(m: AppModel, c: char, now: u64)
    requires
        m.overlay == Overlay::Closed,
    ensures
        m.traffic_typed(c, now).publish == m.publish,
        m.traffic_typed(c, now).overlay != Overlay::Publish,
{
}

#[verifier::rlimit(40)]
proof fn lemma_network_keeps_the_editor(m: AppModel, code: KeyCode, now: u64)
    requires
        m.overlay == Overlay::Closed,
    ensures
        m.network_pressed(code, now).publish == m.publish,
        m.network_pressed(code, now).overlay != Overlay::Publish,
{
}

/// While a text is typed no key reaches the global actions: the program does not
/// quit, the space stays, no overlay opens, and nothing is asked of the world
/// outside.
#[verifier::rlimit(40)]
pub proof fn law_typing_swallows_the_global_keys(m: AppModel, key: KeyEvent, now: u64)
    requires
        m.overlay == Overlay::Closed,
        m.typing(),
    ensures
        m.pressed(key, now).should_quit == m.should_quit,
        m.pressed(key, now).space == m.space,
        m.pressed(key, now).overlay == Overlay::Closed,
        m.wanted(key) is Nothing,
{
    lemma_typing_keeps_to_itself(m, key.code);
    lemma_typing_asks_nothing(m, key);
    assert(m.pressed(key, now) == m.text_pressed(key.code));
}

proof fn lemma_typing_asks_nothing(m: AppModel, key: KeyEvent)
    requires
        m.overlay == Overlay::Closed,
        m.typing(),
    ensures
        m.wanted(key) is Nothing,
{
    if let KeyCode::Char(c) = key.code {
        assert(!m.reaches_space(c));
    }
}

/// In the palette every character filters; none of them acts.
#[verifier::rlimit(40)]
pub proof fn law_the_palette_takes_every_character(m: AppModel, c: char, key: KeyEvent, now: u64)
    requires
        m.overlay == Overlay::Palette,
        key.code == KeyCode::Char(c),
    ensures
        m.pressed(key, now) == (AppModel { palette: m.palette.pressed(key.code), ..m }),
        m.pressed(key, now).palette.palette_input == m.palette.palette_input.push(c),
{
}

/// With an overlay in front only the palette's own command quits, and only its own
/// commands change the space.
#[verifier::rlimit(40)]
pub proof fn law_overlays_shield_the_rest(m: AppModel, key: KeyEvent, now: u64)
    requires
        m.overlay != Overlay::Closed,
        !(m.overlay == Overlay::Palette && palette_outcome(m.palette, key.code) is Run),
    ensures
        m.pressed(key, now).should_quit == m.should_quit,
        m.pressed(key, now).space == m.space,
{
    let code = key.code;
    match m.overlay {
        Overlay::ScoutPort => lemma_the_port_switcher_keeps_to_itself(m, code, now),
        Overlay::PlotPicker => lemma_the_picker_keeps_to_itself(m, code),
        Overlay::ProfileSave => lemma_the_save_prompt_keeps_to_itself(m, code, now),
        Overlay::ProfileLoad => lemma_the_load_list_keeps_to_itself(m, code, now),
        Overlay::Doctor => lemma_the_diagnostics_keeps_to_itself(m, code),
        Overlay::Help => lemma_the_help_keeps_to_itself(m, code),
        _ => {},
    }
}

/// `Esc` closes every overlay.
#[verifier::rlimit(40)]
pub proof fn law_esc_closes_every_overlay(m: AppModel, key: KeyEvent, now: u64)
    requires
        m.overlay != Overlay::Closed,
        key.code == KeyCode::Esc,
    ensures
        m.pressed(key, now).overlay == Overlay::Closed,
{
}

/// The pointer does nothing while a text is typed or an overlay is in front.
pub proof fn law_the_pointer_rests_while_something_is_in_front(m: AppModel, ev: MouseEvent)
    requires
        m.typing() || m.overlay != Overlay::Closed,
    ensures
        m.pointed(ev) == m,
{
}

/// A paused detail keeps the payload and the history that are being read, while the
/// counts go on.
pub proof fn law_pausing_freezes_what_is_read(
    m: AppModel,
    msg: MessageModel,
    now: u64,
    after: AppModel,
)
    requires
        m.feed.history_paused,
        takes_in(m, msg, now, after),
    ensures
        after.feed.latest == m.feed.latest,
        after.feed.history == m.feed.history,
        after.feed.msg_counts.dom().contains(msg.key_expr),
        after.feed.msg_counts[msg.key_expr] > 0,
{
}

/// A message that is taken in is the newest one of its key, and no other key's
/// newest message changes.
pub proof fn law_the_newest_message_is_kept(
    m: AppModel,
    msg: MessageModel,
    now: u64,
    after: AppModel,
    other: Seq<char>,
)
    requires
        !m.feed.history_paused,
        takes_in(m, msg, now, after),
        other != msg.key_expr,
    ensures
        after.feed.latest.dom().contains(msg.key_expr),
        after.feed.latest[msg.key_expr].message == msg,
        after.feed.latest[msg.key_expr].at == now,
        m.feed.latest.dom().contains(other) ==> after.feed.latest.dom().contains(other)
            && after.feed.latest[other] == m.feed.latest[other],
{
}

/// In the Traffic space with nothing in front, the pause key and the diff key turn
/// over their own setting and leave the other alone.
#[verifier::rlimit(40)]
pub proof fn law_toggles_turn_over_one_setting(m: AppModel, key: KeyEvent, now: u64)
    requires
        m.overlay == Overlay::Closed,
        !m.typing(),
        m.space == Space::Traffic,
        key.code == KeyCode::Char(' ') || key.code == KeyCode::Char('D'),
    ensures
        m.pressed(key, now).feed.history_paused == (m.feed.history_paused != (key.code
            == KeyCode::Char(' '))),
        m.pressed(key, now).diff_enabled == (m.diff_enabled != (key.code == KeyCode::Char('D'))),
        m.pressed(key, now).feed.latest == m.feed.latest,
{
    let c = key.code->Char_0;
    let fresh = m.with_pane(m.pane.refreshed());
    assert(m.pressed(key, now) == fresh.traffic_typed(c, now));
}

/// A command that switches to the mode that is on asks for no reconnect.
pub proof fn law_the_mode_that_is_on_is_not_switched_to(m: AppModel, now: u64)
    ensures
        m.ran(PaletteAction::SetMode(m.current_mode), now).pending_reconnect_mode
            == m.pending_reconnect_mode,
{
}

/// Every command of the palette closes it: what it wants to be in front replaces it,
/// and a command that is refused leaves nothing in front.
pub proof fn law_every_command_closes_the_palette(m: AppModel, action: PaletteAction, now: u64)
    ensures
        m.ran(action, now).overlay != Overlay::Palette,
        action == PaletteAction::OpenPublish && !m.publish.allow_publish ==> m.ran(
            action,
            now,
        ).overlay == Overlay::Closed,
        action == PaletteAction::LoadProfile && m.views.profiles.len() == 0 ==> m.ran(
            action,
            now,
        ).overlay == Overlay::Closed,
        action == PaletteAction::Quit ==> m.ran(action, now).overlay == Overlay::Closed,
{
}

} // verus!
