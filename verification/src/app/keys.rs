//! Keyboard dispatch: global keys, the keys of each space, the keys of the overlays,
//! and the text input that filters and editors run in.
use vstd::prelude::*;

use crate::app::palette::{palette_outcome, PaletteAction, PaletteModel, PaletteOutcome};
use crate::app::profiles::{
    captures, text_map, LoadOutcome, ProfilesModel, SaveModel, SaveOutcome, TuiProfile,
};
use crate::app::query::QueryModel;
use crate::app::scout_port::{scout_outcome, ScoutModel, ScoutOutcome};
use crate::app::state::{App, AppModel};
use crate::app::stream::StreamModel;
use crate::app::tree_pane::PaneModel;
use crate::app::types::{
    apply_detail_scroll, detail_scroll_action, scroll_request, scrolled, scrolled_by, shortened,
    DetailMode, KeyCode, KeyEvent, Overlay, PaneFocus, Space,
};
use crate::app::doctor::DoctorModel;
use crate::app::feed::FeedModel;
use crate::app::network_pane::NetworkModel;
use crate::text::{cat, cat3, decimal, decimal_text, same, texts};

verus! {

/// What a key press asks of the world outside.
pub enum Effect {
    Nothing,
    /// Put a text on the clipboard, and report back under the label.
    Copy { text: String, label: String },
    /// Keep a view among the saved ones, write them, and report back.
    SaveProfile(TuiProfile),
}

/// What a key press asks, as a mathematical value.
pub enum Wanted {
    Nothing,
    Copy(Seq<char>, Seq<char>),
    /// Save what is looked at under a name.
    Save(Seq<char>),
}

/// Whether an effect is what is wanted in a state.
pub open spec fn grants(m: AppModel, wanted: Wanted, e: Effect) -> bool {
    match wanted {
        Wanted::Nothing => e is Nothing,
        Wanted::Copy(text, label) => match e {
            Effect::Copy { text: t, label: l } => t@ == text && l@ == label,
            _ => false,
        },
        Wanted::Save(name) => match e {
            Effect::SaveProfile(p) => captures(
                p@,
                name,
                m.pane,
                m.plot_field,
                m.diff_enabled,
            ),
            _ => false,
        },
    }
}

/// The place of a field among those offered, the first one where it is not offered.
pub open spec fn place_of(fields: Seq<Seq<char>>, field: Seq<char>, n: nat) -> Option<nat>
    decreases n,
{
    if n == 0 {
        None
    } else {
        match place_of(fields, field, (n - 1) as nat) {
            Some(i) => Some(i),
            None => if fields[n - 1] == field {
                Some((n - 1) as nat)
            } else {
                None
            },
        }
    }
}

impl AppModel {
    /// After a space was gone to.
    pub open spec fn went(self, space: Space) -> AppModel {
        AppModel { space, pane_focus: PaneFocus::Master, ..self }
    }

    /// With an overlay in front.
    pub open spec fn over(self, overlay: Overlay) -> AppModel {
        AppModel { overlay, ..self }
    }

    /// After the diagnostics were opened.
    pub open spec fn diagnosed(self) -> AppModel {
        AppModel { doctor: self.doctor.opened(), ..self.over(Overlay::Doctor) }
    }

    /// After the palette was opened.
    pub open spec fn commanded(self) -> AppModel {
        AppModel { palette: PaletteModel::fresh(), ..self.over(Overlay::Palette) }
    }

    /// After the help was opened or closed.
    pub open spec fn helped(self, overlay: Overlay) -> AppModel {
        AppModel { help_scroll: 0, ..self.over(overlay) }
    }

    /// After a key press with the diagnostics in front.
    pub open spec fn doctor_pressed(self, code: KeyCode) -> AppModel {
        match code {
            KeyCode::Esc => self.over(Overlay::Closed),
            KeyCode::Down => self.doctor_scrolled(1),
            KeyCode::Up => self.doctor_scrolled(-1),
            KeyCode::Char(c) => if c == 'q' || c == 'd' {
                self.over(Overlay::Closed)
            } else if c == 'r' {
                AppModel {
                    doctor: DoctorModel { pending_doctor_request: true, ..self.doctor },
                    ..self
                }
            } else if c == 'j' {
                self.doctor_scrolled(1)
            } else if c == 'k' {
                self.doctor_scrolled(-1)
            } else {
                self
            },
            _ => self,
        }
    }

    /// After the diagnostics were scrolled.
    pub open spec fn doctor_scrolled(self, by: int) -> AppModel {
        AppModel {
            doctor: DoctorModel {
                doctor_scroll: scrolled_by(self.doctor.doctor_scroll, by),
                ..self.doctor
            },
            ..self
        }
    }

    /// After a key press with the help in front.
    pub open spec fn help_pressed(self, code: KeyCode) -> AppModel {
        match code {
            KeyCode::Esc => self.helped(Overlay::Closed),
            KeyCode::Down => self.help_scrolled(1),
            KeyCode::Up => self.help_scrolled(-1),
            KeyCode::Char(c) => if c == 'q' || c == '?' {
                self.helped(Overlay::Closed)
            } else if c == 'j' {
                self.help_scrolled(1)
            } else if c == 'k' {
                self.help_scrolled(-1)
            } else {
                self
            },
            _ => self,
        }
    }

    /// After the help was scrolled.
    pub open spec fn help_scrolled(self, by: int) -> AppModel {
        AppModel { help_scroll: scrolled_by(self.help_scroll, by), ..self }
    }

    /// After the publish editor was asked for. Without permission this refuses and
    /// says how to get it.
    pub open spec fn publish_asked(self, now: u64) -> AppModel {
        if self.publish.allow_publish {
            AppModel {
                publish: self.publish.opened(self.pane.selected_key()),
                ..self.over(Overlay::Publish)
            }
        } else {
            self.warned("Publishing is off — restart with --allow-publish"@, now)
        }
    }

    /// After a palette command ran.
    pub open spec fn ran(self, action: PaletteAction, now: u64) -> AppModel {
        match action {
            PaletteAction::SwitchSpace(space) => self.went(space).over(Overlay::Closed),
            PaletteAction::RunDoctor => self.diagnosed(),
            PaletteAction::ScoutRefresh => AppModel {
                network: self.network.scout_asked(),
                ..self.over(Overlay::Closed)
            },
            PaletteAction::SetMode(mode) => if mode != self.current_mode {
                (AppModel { pending_reconnect_mode: Some(mode), ..self }).toasted(
                    "Switching to "@ + mode.word() + " mode…"@,
                    now,
                ).over(Overlay::Closed)
            } else {
                self.toasted("Already in "@ + mode.word() + " mode"@, now).over(Overlay::Closed)
            },
            PaletteAction::OpenScoutPort => AppModel {
                scout: ScoutModel { scout_port_input: Seq::empty(), ..self.scout },
                ..self.over(Overlay::ScoutPort)
            },
            PaletteAction::OpenPublish => self.over(Overlay::Closed).publish_asked(now),
            PaletteAction::SaveProfile => AppModel {
                views: ProfilesModel { profile_name_input: Seq::empty(), ..self.views },
                ..self.over(Overlay::ProfileSave)
            },
            PaletteAction::LoadProfile => if self.views.profiles.len() == 0 {
                self.warned("No saved views yet — save one first"@, now).over(Overlay::Closed)
            } else {
                AppModel {
                    views: ProfilesModel { profile_selected: 0, ..self.views },
                    ..self.over(Overlay::ProfileLoad)
                }
            },
            PaletteAction::OpenHelp => self.helped(Overlay::Help),
            PaletteAction::Quit => AppModel { should_quit: true, ..self.over(Overlay::Closed) },
        }
    }

    /// After a key press in the palette.
    pub open spec fn palette_pressed(self, code: KeyCode, now: u64) -> AppModel {
        let typed = AppModel { palette: self.palette.pressed(code), ..self };
        match palette_outcome(self.palette, code) {
            PaletteOutcome::Stay => typed,
            PaletteOutcome::Close => typed.over(Overlay::Closed),
            PaletteOutcome::Run(action) => typed.ran(action, now),
        }
    }

    /// After a key press in the port switcher.
    pub open spec fn scout_pressed(self, code: KeyCode, now: u64) -> AppModel {
        let typed = AppModel { scout: self.scout.pressed(code), ..self };
        match scout_outcome(self.scout, code) {
            ScoutOutcome::Stay => typed,
            ScoutOutcome::Close => typed.over(Overlay::Closed),
            ScoutOutcome::Switch(port) => typed.over(Overlay::Closed).toasted(
                "Reconnecting with scout port "@ + decimal(port as nat),
                now,
            ),
            ScoutOutcome::Refuse => typed.warned("Type a port or scan and select one"@, now),
        }
    }

    /// After the plot-field picker was asked for. Only keys have fields, and a key
    /// with nothing numeric in it says so. The picker starts on the field that is
    /// plotted already.
    pub open spec fn picker_asked(self, now: u64) -> AppModel {
        match self.pane.selected_key() {
            None => self.warned("Select a key to plot a field from"@, now),
            Some(key) => if self.fields().len() == 0 {
                self.warned("No numeric fields in "@ + key, now)
            } else {
                AppModel {
                    plot_picker_selected: self.picker_start(key),
                    ..self.over(Overlay::PlotPicker)
                }
            },
        }
    }

    /// Where the picker starts.
    pub open spec fn picker_start(self, key: Seq<char>) -> usize {
        if self.plot_field.dom().contains(key) {
            match place_of(self.fields(), self.plot_field[key], self.fields().len()) {
                Some(i) => i as usize,
                None => 0,
            }
        } else {
            0
        }
    }

    /// After the plot of the selected key was given up.
    pub open spec fn unplotted(self, now: u64) -> AppModel {
        match self.pane.selected_key() {
            None => self,
            Some(key) => if self.plot_field.dom().contains(key) {
                (AppModel { plot_field: self.plot_field.remove(key), ..self }).toasted(
                    "Plot cleared"@,
                    now,
                )
            } else {
                self
            },
        }
    }

    /// After the picker's cursor went down.
    pub open spec fn picker_lower(self) -> AppModel {
        let len = self.fields().len();
        if len == 0 {
            self
        } else {
            AppModel {
                plot_picker_selected: if self.plot_picker_selected + 1 < len {
                    (self.plot_picker_selected + 1) as usize
                } else {
                    (len - 1) as usize
                },
                ..self
            }
        }
    }

    /// After the picker's cursor went up.
    pub open spec fn picker_higher(self) -> AppModel {
        AppModel {
            plot_picker_selected: if self.plot_picker_selected > 0 {
                (self.plot_picker_selected - 1) as usize
            } else {
                0
            },
            ..self
        }
    }

    /// After the field under the picker's cursor was chosen.
    pub open spec fn picked(self) -> AppModel {
        let closed = self.over(Overlay::Closed);
        match self.pane.selected_key() {
            None => closed,
            Some(key) => if self.plot_picker_selected < self.fields().len() {
                AppModel {
                    plot_field: self.plot_field.insert(
                        key,
                        self.fields()[self.plot_picker_selected as int],
                    ),
                    ..closed
                }
            } else {
                closed
            },
        }
    }

    /// After a key press in the picker.
    pub open spec fn picker_pressed(self, code: KeyCode) -> AppModel {
        match code {
            KeyCode::Esc => self.over(Overlay::Closed),
            KeyCode::Enter => self.picked(),
            KeyCode::Down => self.picker_lower(),
            KeyCode::Up => self.picker_higher(),
            KeyCode::Char(c) => if c == 'q' || c == 'p' {
                self.over(Overlay::Closed)
            } else if c == 'j' {
                self.picker_lower()
            } else if c == 'k' {
                self.picker_higher()
            } else {
                self
            },
            _ => self,
        }
    }

    /// After a key press in the publish editor.
    pub open spec fn publish_pressed(self, key: KeyEvent) -> AppModel {
        let typed = AppModel { publish: self.publish.pressed(key), ..self };
        if key.code == KeyCode::Esc {
            typed.over(Overlay::Closed)
        } else {
            typed
        }
    }

    /// After a key press in the save dialog.
    pub open spec fn save_pressed(self, code: KeyCode, now: u64) -> AppModel {
        let typed = AppModel { views: self.views.save_pressed(code), ..self };
        match self.views.save_outcome(code) {
            SaveModel::Stay => typed,
            SaveModel::Close => typed.over(Overlay::Closed),
            SaveModel::Refuse => typed.warned("Give the view a name"@, now),
            SaveModel::Save(_) => typed.over(Overlay::Closed),
        }
    }

    /// After a key press in the view picker.
    pub open spec fn load_pressed(self, code: KeyCode, now: u64) -> AppModel {
        let moved = AppModel { views: self.views.load_pressed(code), ..self };
        match self.views.load_outcome(code) {
            LoadOutcome::Stay => moved,
            LoadOutcome::Close => moved.over(Overlay::Closed),
            LoadOutcome::Load(i) => moved.viewed(self.views.profiles[i as int]).toasted(
                "Loaded '"@ + self.views.profiles[i as int].name + "'"@,
                now,
            ).over(Overlay::Closed),
        }
    }

    /// After a key press while a text is typed.
    pub open spec fn text_pressed(self, code: KeyCode) -> AppModel {
        match code {
            KeyCode::Esc => self.typing_done(QueryModel { query_editing: false, ..self.query }),
            KeyCode::Enter => {
                let done = self.typing_done(self.query.committed());
                if self.stream.stream_filtering {
                    AppModel { stream: done.stream.on_a_message(), ..done }
                } else {
                    done
                }
            },
            KeyCode::Char(c) => if self.pane.filtering {
                AppModel {
                    pane: PaneModel { filter: self.pane.filter.push(c), ..self.pane },
                    ..self
                }
            } else if self.network.network_filtering {
                AppModel { network: self.network.typed(c), ..self }
            } else if self.stream.stream_filtering {
                AppModel { stream: self.stream.typed(c), ..self }
            } else if self.query.query_editing {
                AppModel {
                    query: QueryModel {
                        query_input: self.query.query_input.push(c),
                        ..self.query
                    },
                    ..self
                }
            } else {
                self
            },
            KeyCode::Backspace => if self.pane.filtering {
                AppModel {
                    pane: PaneModel { filter: shortened(self.pane.filter), ..self.pane },
                    ..self
                }
            } else if self.network.network_filtering {
                AppModel { network: self.network.rubbed_out(), ..self }
            } else if self.stream.stream_filtering {
                AppModel { stream: self.stream.rubbed_out(), ..self }
            } else if self.query.query_editing {
                AppModel {
                    query: QueryModel {
                        query_input: shortened(self.query.query_input),
                        ..self.query
                    },
                    ..self
                }
            } else {
                self
            },
            _ => self,
        }
    }

    /// With every text input left.
    pub open spec fn typing_done(self, query: QueryModel) -> AppModel {
        AppModel {
            pane: PaneModel { filtering: false, ..self.pane },
            network: NetworkModel { network_filtering: false, ..self.network },
            stream: StreamModel { stream_filtering: false, ..self.stream },
            query,
            ..self
        }
    }

    /// After a query on the selected key was asked for.
    pub open spec fn queried(self) -> AppModel {
        let m = AppModel { detail_mode: DetailMode::Query, ..self };
        match self.pane.selected_key() {
            Some(k) => AppModel { query: self.query.asked(k), ..m },
            None => m,
        }
    }

    /// What is copied of the latest payload of the selected key: the payload, or why
    /// there is none.
    pub open spec fn payload_to_copy(self) -> Result<Seq<char>, Seq<char>> {
        match self.pane.selected_key() {
            None => Err("No key selected to copy"@),
            Some(k) => if self.feed.latest.dom().contains(k) {
                Ok(self.feed.latest[k].message.payload.pretty)
            } else {
                Err("No payload received for selected key"@)
            },
        }
    }

    /// What is copied for the selected key: the key, or why there is none.
    pub open spec fn key_to_copy(self) -> Result<Seq<char>, Seq<char>> {
        match self.pane.selected_key() {
            None => Err("No key selected to copy"@),
            Some(k) => Ok(k),
        }
    }

    /// With the error of a copy that cannot be made put up.
    pub open spec fn copy_tried(self, what: Result<Seq<char>, Seq<char>>, now: u64) -> AppModel {
        match what {
            Ok(_) => self,
            Err(why) => self.warned(why, now),
        }
    }

    /// With the tree as the rows are now.
    pub open spec fn with_pane(self, pane: PaneModel) -> AppModel {
        AppModel { pane, ..self }
    }

    /// After a key press in the Traffic space.
    pub open spec fn traffic_pressed(self, code: KeyCode, now: u64) -> AppModel {
        match scroll_request(code) {
            Some(action) => self.with_pane(
                PaneModel {
                    detail_scroll: scrolled(self.pane.detail_scroll, action),
                    ..self.pane
                },
            ),
            None => self.with_pane(self.pane.refreshed()).traffic_refreshed_pressed(code, now),
        }
    }

    /// After a key press in the Traffic space whose rows are up to date.
    pub open spec fn traffic_refreshed_pressed(self, code: KeyCode, now: u64) -> AppModel {
        match code {
            KeyCode::Down => self.with_pane(self.pane.stepped(true)),
            KeyCode::Up => self.with_pane(self.pane.stepped(false)),
            KeyCode::Right => self.tree_entered(),
            KeyCode::Left => self.with_pane(self.pane.ascended()),
            KeyCode::Char(c) => self.traffic_typed(c, now),
            _ => self,
        }
    }

    /// After the tree was walked into, or the detail was entered from a key.
    pub open spec fn tree_entered(self) -> AppModel {
        AppModel {
            pane: self.pane.descended(),
            pane_focus: if self.pane.enters_detail() {
                PaneFocus::Detail
            } else {
                self.pane_focus
            },
            ..self
        }
    }

    /// After a character key in the Traffic space whose rows are up to date.
    pub open spec fn traffic_typed(self, c: char, now: u64) -> AppModel {
        if c == 'j' {
            self.with_pane(self.pane.stepped(true))
        } else if c == 'k' {
            self.with_pane(self.pane.stepped(false))
        } else if c == 'l' {
            self.tree_entered()
        } else if c == 'h' {
            self.with_pane(self.pane.ascended())
        } else if c == 'z' {
            self.with_pane(self.pane.toggled())
        } else if c == 'E' {
            self.with_pane(self.pane.all_opened())
        } else if c == 'C' {
            self.with_pane(self.pane.all_closed())
        } else if c == '/' {
            self.with_pane(PaneModel { filtering: true, ..self.pane })
        } else if c == 'L' {
            AppModel { detail_mode: DetailMode::Live, ..self }
        } else if c == 'Q' {
            self.queried()
        } else if c == ' ' {
            AppModel {
                feed: FeedModel { history_paused: !self.feed.history_paused, ..self.feed },
                ..self
            }
        } else if c == 'D' {
            AppModel { diff_enabled: !self.diff_enabled, ..self }
        } else if c == 'p' {
            self.picker_asked(now)
        } else if c == 'P' {
            self.unplotted(now)
        } else if c == 'y' {
            self.copy_tried(self.payload_to_copy(), now)
        } else if c == 'Y' {
            self.copy_tried(self.key_to_copy(), now)
        } else {
            self
        }
    }

    /// After a key press in the Network space.
    pub open spec fn network_pressed(self, code: KeyCode, now: u64) -> AppModel {
        match scroll_request(code) {
            Some(action) => self.with_network(
                NetworkModel {
                    node_detail_scroll: scrolled(self.network.node_detail_scroll, action),
                    ..self.network
                },
            ),
            None => match code {
                KeyCode::Down => self.with_network(self.network.stepped(true)),
                KeyCode::Up => self.with_network(self.network.stepped(false)),
                KeyCode::Right => AppModel { pane_focus: PaneFocus::Detail, ..self },
                KeyCode::Left => AppModel { pane_focus: PaneFocus::Master, ..self },
                KeyCode::Char(c) => self.network_typed(c, now),
                _ => self,
            },
        }
    }

    /// With other participants.
    pub open spec fn with_network(self, network: NetworkModel) -> AppModel {
        AppModel { network, ..self }
    }

    /// After a character key in the Network space.
    pub open spec fn network_typed(self, c: char, now: u64) -> AppModel {
        if c == 'j' {
            self.with_network(self.network.stepped(true))
        } else if c == 'k' {
            self.with_network(self.network.stepped(false))
        } else if c == 's' {
            self.with_network(self.network.scout_asked())
        } else if c == '/' {
            self.with_network(NetworkModel { network_filtering: true, ..self.network })
        } else if c == 'D' {
            self.with_network(self.network.dead_toggled())
        } else if c == 'y' && self.network.copied() is None {
            self.warned("No participant selected to copy"@, now)
        } else {
            self
        }
    }

    /// After a key press with nothing in front and no text typed.
    pub open spec fn plain_pressed(self, code: KeyCode, now: u64) -> AppModel {
        match code {
            KeyCode::Tab => self.went(self.space.following()),
            KeyCode::Enter => AppModel { pane_focus: PaneFocus::Detail, ..self },
            KeyCode::Esc => AppModel { pane_focus: PaneFocus::Master, ..self },
            KeyCode::Char(c) => if c == 'q' {
                AppModel { should_quit: true, ..self }
            } else if c == '?' {
                self.helped(Overlay::Help)
            } else if c == 'd' {
                self.diagnosed()
            } else if c == ':' {
                self.commanded()
            } else if c == '1' {
                self.went(Space::Traffic)
            } else if c == '2' {
                self.went(Space::Network)
            } else {
                self.space_pressed(code, now)
            },
            _ => self.space_pressed(code, now),
        }
    }

    /// After a key press that the active space gets.
    pub open spec fn space_pressed(self, code: KeyCode, now: u64) -> AppModel {
        match self.space {
            Space::Traffic => self.traffic_pressed(code, now),
            Space::Network => self.network_pressed(code, now),
        }
    }

    /// After a key press.
    pub open spec fn pressed(self, key: KeyEvent, now: u64) -> AppModel {
        match self.overlay {
            Overlay::Palette => self.palette_pressed(key.code, now),
            Overlay::ScoutPort => self.scout_pressed(key.code, now),
            Overlay::PlotPicker => self.picker_pressed(key.code),
            Overlay::Publish => self.publish_pressed(key),
            Overlay::ProfileSave => self.save_pressed(key.code, now),
            Overlay::ProfileLoad => self.load_pressed(key.code, now),
            Overlay::Doctor => self.doctor_pressed(key.code),
            Overlay::Help => self.help_pressed(key.code),
            Overlay::Closed => if self.typing() {
                self.text_pressed(key.code)
            } else {
                self.plain_pressed(key.code, now)
            },
        }
    }

    /// Whether a character key reaches the active space.
    pub open spec fn reaches_space(self, c: char) -> bool {
        &&& self.overlay == Overlay::Closed
        &&& !self.typing()
        &&& !(c == 'q' || c == '?' || c == 'd' || c == ':' || c == '1' || c == '2')
    }

    /// What a key press asks of the world outside.
    pub open spec fn wanted(self, key: KeyEvent) -> Wanted {
        match key.code {
            KeyCode::Char(c) => if !self.reaches_space(c) {
                Wanted::Nothing
            } else {
                match self.space {
                    Space::Traffic => {
                        let m = self.with_pane(self.pane.refreshed());
                        if c == 'y' {
                            wanted_copy(m.payload_to_copy(), "payload"@)
                        } else if c == 'Y' {
                            wanted_copy(m.key_to_copy(), "key"@)
                        } else {
                            Wanted::Nothing
                        }
                    },
                    Space::Network => match self.network.copied() {
                        Some((text, label)) => if c == 'y' {
                            Wanted::Copy(text, label)
                        } else {
                            Wanted::Nothing
                        },
                        None => Wanted::Nothing,
                    },
                }
            },
            KeyCode::Enter => if self.overlay == Overlay::ProfileSave {
                match self.views.save_outcome(key.code) {
                    SaveModel::Save(name) => Wanted::Save(name),
                    _ => Wanted::Nothing,
                }
            } else {
                Wanted::Nothing
            },
            _ => Wanted::Nothing,
        }
    }
}

/// The copy that is wanted, if one can be made.
pub open spec fn wanted_copy(what: Result<Seq<char>, Seq<char>>, label: Seq<char>) -> Wanted {
    match what {
        Ok(text) => Wanted::Copy(text, label),
        Err(_) => Wanted::Nothing,
    }
}

impl App {
    /// A key press. What it asks of the world outside is handed back.
    pub fn handle_key(&mut self, key: KeyEvent, now: u64) -> (e: Effect)
        ensures
            final(self)@ == old(self)@.pressed(key, now),
            grants(old(self)@, old(self)@.wanted(key), e),
    {
        match self.overlay {
            Overlay::Palette => self.handle_palette_key(key, now),
            Overlay::ScoutPort => self.handle_scout_modal_key(key, now),
            Overlay::PlotPicker => self.handle_plot_picker_key(key),
            Overlay::Publish => {
                if self.publish.handle_publish_key(key) {
                    self.overlay = Overlay::Closed;
                }
            },
            Overlay::ProfileSave => {
                return self.handle_profile_save_key(key, now);
            },
            Overlay::ProfileLoad => self.handle_profile_load_key(key, now),
            Overlay::Doctor => self.handle_doctor_key(key),
            Overlay::Help => self.handle_help_key(key),
            Overlay::Closed => {
                if self.is_text_input_active() {
                    self.handle_text_input_key(key);
                } else {
                    return self.handle_plain_key(key, now);
                }
            },
        }
        Effect::Nothing
    }

    /// A key press with nothing in front and no text typed: the global keys, then
    /// those of the active space.
    fn handle_plain_key(&mut self, key: KeyEvent, now: u64) -> (e: Effect)
        requires
            old(self)@.overlay == Overlay::Closed,
            !old(self)@.typing(),
        ensures
            final(self)@ == old(self)@.plain_pressed(key.code, now),
            grants(old(self)@, old(self)@.wanted(key), e),
    {
        match key.code {
            KeyCode::Tab => {
                let next = self.space.next();
                self.switch_space(next);
            },
            KeyCode::Enter => {
                self.pane_focus = PaneFocus::Detail;
            },
            KeyCode::Esc => {
                self.pane_focus = PaneFocus::Master;
            },
            KeyCode::Char(c) => {
                if c == 'q' {
                    self.should_quit = true;
                } else if c == '?' {
                    self.overlay = Overlay::Help;
                    self.help_scroll = 0;
                } else if c == 'd' {
                    self.overlay = Overlay::Doctor;
                    self.doctor.open();
                } else if c == ':' {
                    self.overlay = Overlay::Palette;
                    self.palette.open();
                } else if c == '1' {
                    self.switch_space(Space::Traffic);
                } else if c == '2' {
                    self.switch_space(Space::Network);
                } else {
                    return self.handle_space_key(key, now);
                }
            },
            _ => {
                return self.handle_space_key(key, now);
            },
        }
        Effect::Nothing
    }

    /// A key press that the active space gets.
    fn handle_space_key(&mut self, key: KeyEvent, now: u64) -> (e: Effect)
        requires
            old(self)@.overlay == Overlay::Closed,
            !old(self)@.typing(),
            key.code matches KeyCode::Char(c) ==> old(self)@.reaches_space(c),
            key.code != KeyCode::Enter,
        ensures
            final(self)@ == old(self)@.space_pressed(key.code, now),
            grants(old(self)@, old(self)@.wanted(key), e),
    {
        match self.space {
            Space::Traffic => self.handle_traffic_key(key, now),
            Space::Network => self.handle_network_key(key, now),
        }
    }

    /// A key press in the Traffic space: moving in the tree, and acting on the
    /// selected key.
    fn handle_traffic_key(&mut self, key: KeyEvent, now: u64) -> (e: Effect)
        requires
            old(self)@.space == Space::Traffic,
            key.code matches KeyCode::Char(c) ==> old(self)@.reaches_space(c),
            key.code != KeyCode::Enter,
        ensures
            final(self)@ == old(self)@.traffic_pressed(key.code, now),
            grants(old(self)@, old(self)@.wanted(key), e),
    {
        if let Some(action) = detail_scroll_action(key) {
            self.pane.detail_scroll = apply_detail_scroll(self.pane.detail_scroll, action);
            return Effect::Nothing;
        }
        // Every key below reads or moves within the visible rows, and the last key
        // may have changed them.
        self.pane.refresh_tree_rows();
        match key.code {
            KeyCode::Down => self.pane.move_tree_selection(true),
            KeyCode::Up => self.pane.move_tree_selection(false),
            KeyCode::Right => self.enter_tree(),
            KeyCode::Left => self.pane.tree_collapse_or_ascend(),
            KeyCode::Char(c) => {
                return self.handle_traffic_char(c, now);
            },
            _ => {},
        }
        Effect::Nothing
    }

    fn enter_tree(&mut self)
        ensures
            final(self)@ == old(self)@.tree_entered(),
    {
        if self.pane.tree_expand_or_descend() {
            self.pane_focus = PaneFocus::Detail;
        }
    }

    /// A character key in the Traffic space whose rows are up to date.
    fn handle_traffic_char(&mut self, c: char, now: u64) -> (e: Effect)
        ensures
            final(self)@ == old(self)@.traffic_typed(c, now),
            c == 'y' ==> grants(
                old(self)@,
                wanted_copy(old(self)@.payload_to_copy(), "payload"@),
                e,
            ),
            c == 'Y' ==> grants(old(self)@, wanted_copy(old(self)@.key_to_copy(), "key"@), e),
            c != 'y' && c != 'Y' ==> e is Nothing,
    {
        if c == 'j' {
            self.pane.move_tree_selection(true);
        } else if c == 'k' {
            self.pane.move_tree_selection(false);
        } else if c == 'l' {
            self.enter_tree();
        } else if c == 'h' {
            self.pane.tree_collapse_or_ascend();
        } else if c == 'z' {
            self.pane.tree_toggle_at_cursor();
        } else if c == 'E' {
            self.pane.tree_expand_all();
        } else if c == 'C' {
            self.pane.tree_collapse_all();
        } else if c == '/' {
            self.pane.filtering = true;
        } else if c == 'L' {
            self.detail_mode = DetailMode::Live;
        } else if c == 'Q' {
            self.detail_mode = DetailMode::Query;
            if let Some(key_expr) = self.pane.selected_topic_key() {
                self.query.ask(key_expr);
            }
        } else if c == ' ' {
            self.feed.history_paused = !self.feed.history_paused;
        } else if c == 'D' {
            self.diff_enabled = !self.diff_enabled;
        } else if c == 'p' {
            self.open_plot_picker(now);
        } else if c == 'P' {
            self.clear_plot_field(now);
        } else if c == 'y' {
            return self.copy_selected_payload(now);
        } else if c == 'Y' {
            return self.copy_selected_key(now);
        }
        Effect::Nothing
    }

    /// The latest payload of the selected key, for the clipboard.
    fn copy_selected_payload(&mut self, now: u64) -> (e: Effect)
        ensures
            final(self)@ == old(self)@.copy_tried(old(self)@.payload_to_copy(), now),
            grants(old(self)@, wanted_copy(old(self)@.payload_to_copy(), "payload"@), e),
    {
        match self.pane.selected_topic_key() {
            None => {
                self.set_error_toast("No key selected to copy".to_owned(), now);
                Effect::Nothing
            },
            Some(key) => {
                let text = match self.feed.latest.get(key.as_str()) {
                    Some(l) => {
                        assert(l@ == self@.feed.latest[key@]);
                        Some(l.message.payload.pretty.clone())
                    },
                    None => None,
                };
                match text {
                    Some(text) => Effect::Copy { text, label: "payload".to_owned() },
                    None => {
                        self.set_error_toast(
                            "No payload received for selected key".to_owned(),
                            now,
                        );
                        Effect::Nothing
                    },
                }
            },
        }
    }

    /// The selected key, for the clipboard.
    fn copy_selected_key(&mut self, now: u64) -> (e: Effect)
        ensures
            final(self)@ == old(self)@.copy_tried(old(self)@.key_to_copy(), now),
            grants(old(self)@, wanted_copy(old(self)@.key_to_copy(), "key"@), e),
    {
        match self.pane.selected_topic_key() {
            Some(key) => Effect::Copy { text: key, label: "key".to_owned() },
            None => {
                self.set_error_toast("No key selected to copy".to_owned(), now);
                Effect::Nothing
            },
        }
    }

    /// Open the field picker for the selected key.
    fn open_plot_picker(&mut self, now: u64)
        ensures
            final(self)@ == old(self)@.picker_asked(now),
    {
        let key = match self.pane.selected_topic_key() {
            Some(key) => key,
            None => {
                self.set_error_toast("Select a key to plot a field from".to_owned(), now);
                return;
            },
        };
        let fields = self.plottable_fields();
        assert(texts(fields@).len() == fields@.len());
        if fields.len() == 0 {
            let text = cat("No numeric fields in ", key.as_str());
            self.set_error_toast(text, now);
            return;
        }
        let start: usize = match self.plot_field.get(key.as_str()) {
            Some(current) => {
                assert(current@ == self@.plot_field[key@]);
                match find_text(&fields, current.as_str()) {
                    Some(i) => i,
                    None => 0,
                }
            },
            None => 0,
        };
        self.plot_picker_selected = start;
        self.overlay = Overlay::PlotPicker;
    }

    /// Give up the plot of the selected key.
    fn clear_plot_field(&mut self, now: u64)
        ensures
            final(self)@ == old(self)@.unplotted(now),
    {
        if let Some(key) = self.pane.selected_topic_key() {
            let ghost before = self.plot_field@;
            if self.plot_field.remove(key.as_str()) {
                assert(text_map(self.plot_field@) =~= text_map(before).remove(key@));
                self.set_toast("Plot cleared".to_owned(), now);
            } else {
                assert(before.remove(key@) =~= before);
            }
        }
    }

    /// A key press in the plot-field picker.
    fn handle_plot_picker_key(&mut self, key: KeyEvent)
        ensures
            final(self)@ == old(self)@.picker_pressed(key.code),
    {
        match key.code {
            KeyCode::Esc => {
                self.overlay = Overlay::Closed;
            },
            KeyCode::Enter => {
                let mut fields = self.plottable_fields();
                assert(texts(fields@).len() == fields@.len());
                if let Some(k) = self.pane.selected_topic_key() {
                    if self.plot_picker_selected < fields.len() {
                        let ghost before = self.plot_field@;
                        let field = fields[self.plot_picker_selected].clone();
                        let ghost f = field@;
                        assert(f == self@.fields()[self.plot_picker_selected as int]);
                        self.plot_field.insert(k, field);
                        assert(text_map(self.plot_field@) =~= text_map(before).insert(k@, f));
                    }
                }
                self.overlay = Overlay::Closed;
            },
            KeyCode::Down => self.picker_down(),
            KeyCode::Up => {
                self.plot_picker_selected = self.plot_picker_selected.saturating_sub(1);
            },
            KeyCode::Char(c) => {
                if c == 'q' || c == 'p' {
                    self.overlay = Overlay::Closed;
                } else if c == 'j' {
                    self.picker_down();
                } else if c == 'k' {
                    self.plot_picker_selected = self.plot_picker_selected.saturating_sub(1);
                }
            },
            _ => {},
        }
    }

    fn picker_down(&mut self)
        ensures
            final(self)@ == old(self)@.picker_lower(),
    {
        let fields = self.plottable_fields();
        assert(texts(fields@).len() == fields@.len());
        let len: usize = fields.len();
        if len > 0 {
            self.plot_picker_selected = if self.plot_picker_selected < len - 1 {
                self.plot_picker_selected + 1
            } else {
                len - 1
            };
        }
    }

    /// A key press in the save dialog.
    fn handle_profile_save_key(&mut self, key: KeyEvent, now: u64) -> (e: Effect)
        requires
            old(self)@.overlay == Overlay::ProfileSave,
        ensures
            final(self)@ == old(self)@.save_pressed(key.code, now),
            grants(old(self)@, old(self)@.wanted(key), e),
    {
        match self.views.handle_profile_save_key(key) {
            SaveOutcome::Stay => {},
            SaveOutcome::Close => {
                self.overlay = Overlay::Closed;
            },
            SaveOutcome::Refuse => {
                self.set_error_toast("Give the view a name".to_owned(), now);
            },
            SaveOutcome::Save(name) => {
                let profile = self.snapshot_profile(name.as_str());
                self.overlay = Overlay::Closed;
                return Effect::SaveProfile(profile);
            },
        }
        Effect::Nothing
    }

    /// A key press in the view picker.
    fn handle_profile_load_key(&mut self, key: KeyEvent, now: u64)
        ensures
            final(self)@ == old(self)@.load_pressed(key.code, now),
    {
        let ghost before = self@;
        match self.views.handle_profile_load_key(key) {
            LoadOutcome::Stay => {},
            LoadOutcome::Close => {
                self.overlay = Overlay::Closed;
            },
            LoadOutcome::Load(i) => {
                assert(before.views.profiles[i as int] == self.views.profiles@[i as int]@);
                let profile = self.views.profiles[i].duplicate();
                self.apply_profile(&profile);
                let text = cat3("Loaded '", profile.name.as_str(), "'");
                self.set_toast(text, now);
                self.overlay = Overlay::Closed;
            },
        }
    }

    /// A key press with the diagnostics in front.
    fn handle_doctor_key(&mut self, key: KeyEvent)
        ensures
            final(self)@ == old(self)@.doctor_pressed(key.code),
    {
        match key.code {
            KeyCode::Esc => {
                self.overlay = Overlay::Closed;
            },
            KeyCode::Down => {
                self.doctor.doctor_scroll = self.doctor.doctor_scroll.saturating_add(1);
            },
            KeyCode::Up => {
                self.doctor.doctor_scroll = self.doctor.doctor_scroll.saturating_sub(1);
            },
            KeyCode::Char(c) => {
                if c == 'q' || c == 'd' {
                    self.overlay = Overlay::Closed;
                } else if c == 'r' {
                    self.doctor.pending_doctor_request = true;
                } else if c == 'j' {
                    self.doctor.doctor_scroll = self.doctor.doctor_scroll.saturating_add(1);
                } else if c == 'k' {
                    self.doctor.doctor_scroll = self.doctor.doctor_scroll.saturating_sub(1);
                }
            },
            _ => {},
        }
    }

    /// A key press with the help in front.
    fn handle_help_key(&mut self, key: KeyEvent)
        ensures
            final(self)@ == old(self)@.help_pressed(key.code),
    {
        match key.code {
            KeyCode::Esc => {
                self.overlay = Overlay::Closed;
                self.help_scroll = 0;
            },
            KeyCode::Down => {
                self.help_scroll = self.help_scroll.saturating_add(1);
            },
            KeyCode::Up => {
                self.help_scroll = self.help_scroll.saturating_sub(1);
            },
            KeyCode::Char(c) => {
                if c == 'q' || c == '?' {
                    self.overlay = Overlay::Closed;
                    self.help_scroll = 0;
                } else if c == 'j' {
                    self.help_scroll = self.help_scroll.saturating_add(1);
                } else if c == 'k' {
                    self.help_scroll = self.help_scroll.saturating_sub(1);
                }
            },
            _ => {},
        }
    }

    /// A key press in the Network space.
    fn handle_network_key(&mut self, key: KeyEvent, now: u64) -> (e: Effect)
        requires
            old(self)@.space == Space::Network,
            key.code matches KeyCode::Char(c) ==> old(self)@.reaches_space(c),
            key.code != KeyCode::Enter,
        ensures
            final(self)@ == old(self)@.network_pressed(key.code, now),
            grants(old(self)@, old(self)@.wanted(key), e),
    {
        if let Some(action) = detail_scroll_action(key) {
            self.network.node_detail_scroll = apply_detail_scroll(
                self.network.node_detail_scroll,
                action,
            );
            return Effect::Nothing;
        }
        match key.code {
            KeyCode::Down => self.network.move_network_selection(true),
            KeyCode::Up => self.network.move_network_selection(false),
            KeyCode::Right => {
                self.pane_focus = PaneFocus::Detail;
            },
            KeyCode::Left => {
                self.pane_focus = PaneFocus::Master;
            },
            KeyCode::Char(c) => {
                if c == 'j' {
                    self.network.move_network_selection(true);
                } else if c == 'k' {
                    self.network.move_network_selection(false);
                } else if c == 's' {
                    self.network.request_scout();
                } else if c == '/' {
                    self.network.network_filtering = true;
                } else if c == 'D' {
                    self.network.toggle_dead_only();
                } else if c == 'y' {
                    match self.network.copy_of_selection() {
                        Some((text, label)) => {
                            return Effect::Copy { text, label: label.to_owned() };
                        },
                        None => {
                            self.set_error_toast(
                                "No participant selected to copy".to_owned(),
                                now,
                            );
                        },
                    }
                }
            },
            _ => {},
        }
        Effect::Nothing
    }

    fn switch_space(&mut self, space: Space)
        ensures
            final(self)@ == old(self)@.went(space),
    {
        self.space = space;
        self.pane_focus = PaneFocus::Master;
    }

    /// A key press in the palette.
    fn handle_palette_key(&mut self, key: KeyEvent, now: u64)
        ensures
            final(self)@ == old(self)@.palette_pressed(key.code, now),
    {
        match self.palette.handle_palette_key(key) {
            PaletteOutcome::Stay => {},
            PaletteOutcome::Close => {
                self.overlay = Overlay::Closed;
            },
            PaletteOutcome::Run(action) => self.run_palette_action(action, now),
        }
    }

    /// Open the publish editor, with the selected key filled in.
    fn open_publish_editor(&mut self, now: u64)
        ensures
            final(self)@ == old(self)@.publish_asked(now),
    {
        if !self.publish.allow_publish {
            self.set_error_toast(
                "Publishing is off — restart with --allow-publish".to_owned(),
                now,
            );
            return;
        }
        let key = self.pane.selected_topic_key();
        self.publish.open_on(key);
        self.overlay = Overlay::Publish;
    }

    /// Do what a palette command says. Every command closes the palette; some put
    /// something else in front.
    #[verifier::rlimit(40)]
    pub fn run_palette_action(&mut self, action: PaletteAction, now: u64)
        ensures
            final(self)@ == old(self)@.ran(action, now),
    {
        match action {
            PaletteAction::SwitchSpace(space) => {
                self.switch_space(space);
                self.overlay = Overlay::Closed;
            },
            PaletteAction::RunDoctor => {
                self.overlay = Overlay::Doctor;
                self.doctor.open();
            },
            PaletteAction::ScoutRefresh => {
                self.network.request_scout();
                self.overlay = Overlay::Closed;
            },
            PaletteAction::SetMode(mode) => {
                if mode != self.current_mode {
                    self.pending_reconnect_mode = Some(mode);
                    let text = cat3("Switching to ", mode.name(), " mode…");
                    self.set_toast(text, now);
                } else {
                    let text = cat3("Already in ", mode.name(), " mode");
                    self.set_toast(text, now);
                }
                self.overlay = Overlay::Closed;
            },
            PaletteAction::OpenScoutPort => {
                self.overlay = Overlay::ScoutPort;
                self.scout.scout_port_input = String::new();
            },
            PaletteAction::OpenPublish => {
                self.overlay = Overlay::Closed;
                self.open_publish_editor(now);
            },
            PaletteAction::SaveProfile => {
                self.views.profile_name_input = String::new();
                self.overlay = Overlay::ProfileSave;
            },
            PaletteAction::LoadProfile => {
                assert(self@.views.profiles.len() == self.views.profiles@.len());
                if self.views.profiles.len() == 0 {
                    self.set_error_toast("No saved views yet — save one first".to_owned(), now);
                    self.overlay = Overlay::Closed;
                } else {
                    self.views.profile_selected = 0;
                    self.overlay = Overlay::ProfileLoad;
                }
            },
            PaletteAction::OpenHelp => {
                self.overlay = Overlay::Help;
                self.help_scroll = 0;
            },
            PaletteAction::Quit => {
                self.should_quit = true;
                self.overlay = Overlay::Closed;
            },
        }
    }

    /// A key press in the port switcher.
    fn handle_scout_modal_key(&mut self, key: KeyEvent, now: u64)
        ensures
            final(self)@ == old(self)@.scout_pressed(key.code, now),
    {
        match self.scout.handle_scout_modal_key(key) {
            ScoutOutcome::Stay => {},
            ScoutOutcome::Close => {
                self.overlay = Overlay::Closed;
            },
            ScoutOutcome::Switch(port) => {
                self.overlay = Overlay::Closed;
                let n = decimal_text(port as u64);
                let text = cat("Reconnecting with scout port ", n.as_str());
                self.set_toast(text, now);
            },
            ScoutOutcome::Refuse => {
                self.set_error_toast("Type a port or scan and select one".to_owned(), now);
            },
        }
    }

    /// A key press while a text is typed. It swallows every key, so that typing `q`
    /// or `1` edits the text.
    fn handle_text_input_key(&mut self, key: KeyEvent)
        ensures
            final(self)@ == old(self)@.text_pressed(key.code),
    {
        match key.code {
            KeyCode::Esc => self.leave_input(),
            KeyCode::Enter => self.commit_input(),
            KeyCode::Char(c) => self.type_char(c),
            KeyCode::Backspace => self.rub_out(),
            _ => {},
        }
    }

    fn leave_input(&mut self)
        ensures
            final(self)@ == old(self)@.text_pressed(KeyCode::Esc),
    {
        self.pane.filtering = false;
        self.network.network_filtering = false;
        self.stream.stream_filtering = false;
        self.query.query_editing = false;
    }

    fn commit_input(&mut self)
        ensures
            final(self)@ == old(self)@.text_pressed(KeyCode::Enter),
    {
        self.query.commit();
        self.pane.filtering = false;
        self.network.network_filtering = false;
        if self.stream.stream_filtering {
            self.stream.stream_filtering = false;
            self.stream.clamp_stream_selection();
        }
    }

    fn type_char(&mut self, c: char)
        ensures
            final(self)@ == old(self)@.text_pressed(KeyCode::Char(c)),
    {
        if self.pane.filtering {
            self.pane.filter.push(c);
        } else if self.network.network_filtering {
            self.network.type_char(c);
        } else if self.stream.stream_filtering {
            self.stream.type_char(c);
        } else if self.query.query_editing {
            self.query.query_input.push(c);
        }
    }

    fn rub_out(&mut self)
        ensures
            final(self)@ == old(self)@.text_pressed(KeyCode::Backspace),
    {
        if self.pane.filtering {
            let _ = self.pane.filter.pop();
        } else if self.network.network_filtering {
            self.network.rub_out();
        } else if self.stream.stream_filtering {
            self.stream.rub_out();
        } else if self.query.query_editing {
            let _ = self.query.query_input.pop();
        }
    }
}

/// The place of a text in a list.
fn find_text(v: &Vec<String>, text: &str) -> (r: Option<usize>)
    ensures
        match r {
            Some(i) => i < v.len() && place_of(texts(v@), text@, v@.len()) == Some(i as nat),
            None => place_of(texts(v@), text@, v@.len()) is None,
        },
{
    let ghost all = texts(v@);
    let mut i: usize = 0;
    while i < v.len()
        invariant
            i <= v.len(),
            all == texts(v@),
            place_of(all, text@, i as nat) is None,
        decreases v.len() - i,
    {
        assert(all[i as int] == v@[i as int]@);
        if same(v[i].as_str(), text) {
            proof {
                lemma_place_stays(all, text@, (i + 1) as nat, v@.len());
            }
            return Some(i);
        }
        i = i + 1;
    }
    None
}

proof fn lemma_place_stays(fields: Seq<Seq<char>>, field: Seq<char>, n: nat, m: nat)
    requires
        n <= m,
        place_of(fields, field, n) is Some,
    ensures
        place_of(fields, field, m) == place_of(fields, field, n),
    decreases m - n,
{
    if n < m {
        lemma_place_stays(fields, field, n, (m - 1) as nat);
    }
}

} // verus!
