//! The state of the dashboard: its parts, put together.
use vstd::prelude::*;

use crate::app::doctor::{Doctor, DoctorModel};
use crate::app::feed::{Feed, FeedModel, NANOS_PER_SEC};
use crate::app::network_pane::{NetworkModel, NetworkPane};
use crate::app::palette::{Palette, PaletteModel};
use crate::app::profiles::{
    captures, copy_text_map, profile_models, snapshot_profile, text_map, ProfileModel, Profiles,
    ProfilesModel, TuiProfile,
};
use crate::app::publish::{PublishEditor, PublishModel};
use crate::app::query::{QueryModel, QueryPane};
use crate::app::rate::{Rate, RateWindow, WindowModel, RATE_WINDOW_SECS};
use crate::app::scout_port::{ScoutModel, ScoutPort};
use crate::app::stream::{Stream, StreamModel};
use crate::app::tree_pane::{PaneModel, TreePane};
use crate::app::types::{
    toast_view, ConnectMode, ConnectionModel, ConnectionState, DetailMode, EmptyReason, Overlay,
    PaneFocus, Rect, Space, Toast, ToastModel,
};
use crate::history::HistoryModel;
use crate::keyed::{lemma_ordered, ordered, KeyMap};
use crate::message::ZenohMessage;
use crate::plot::{at_most, number_pointers, numeric_pointers};
use crate::text::{cat, cat4, contains_text, decimal, decimal_text, occurs, texts};

verus! {

/// Numeric fields offered in the plot picker. A payload with more numbers is a
/// table, not a set of signals, and a list that long stops being a menu.
pub const PLOT_FIELD_LIMIT: usize = 24;

/// How long a toast is shown, in seconds.
pub const TOAST_SECS: u64 = 2;

/// The dashboard.
pub struct App {
    pub space: Space,
    pub overlay: Overlay,
    pub pane_focus: PaneFocus,
    pub detail_mode: DetailMode,
    pub should_quit: bool,
    pub connection_state: ConnectionState,
    pub endpoint: String,
    /// Where the header drew the two space tabs.
    pub space_tab_rects: [Option<Rect>; 2],
    /// The key tree.
    pub pane: TreePane,
    /// What was observed.
    pub feed: Feed,
    /// The message stream.
    pub stream: Stream,
    /// The participants.
    pub network: NetworkPane,
    pub query: QueryPane,
    pub publish: PublishEditor,
    /// The saved views.
    pub views: Profiles,
    pub palette: Palette,
    pub scout: ScoutPort,
    pub doctor: Doctor,
    /// Which field is plotted, per key. Remembered across cursor moves.
    pub plot_field: KeyMap<String>,
    /// The cursor of the plot-field picker.
    pub plot_picker_selected: usize,
    /// Highlight what changed since the previous message on the selected key.
    pub diff_enabled: bool,
    pub current_mode: ConnectMode,
    pub pending_reconnect_mode: Option<ConnectMode>,
    /// Where the master list was drawn.
    pub list_rect: Option<Rect>,
    pub list_first_item_row: u16,
    pub list_scroll_offset: usize,
    /// For each drawn row of the participant list, the row that it selects;
    /// nothing for a header.
    pub network_click_map: Vec<Option<usize>>,
    pub toast: Option<Toast>,
    pub help_scroll: u16,
}

/// The dashboard, as a mathematical value.
pub struct AppModel {
    pub space: Space,
    pub overlay: Overlay,
    pub pane_focus: PaneFocus,
    pub detail_mode: DetailMode,
    pub should_quit: bool,
    pub connection: ConnectionModel,
    pub endpoint: Seq<char>,
    pub space_tab_rects: Seq<Option<Rect>>,
    pub pane: PaneModel,
    pub feed: FeedModel,
    pub stream: StreamModel,
    pub network: NetworkModel,
    pub query: QueryModel,
    pub publish: PublishModel,
    pub views: ProfilesModel,
    pub palette: PaletteModel,
    pub scout: ScoutModel,
    pub doctor: DoctorModel,
    pub plot_field: Map<Seq<char>, Seq<char>>,
    pub plot_picker_selected: usize,
    pub diff_enabled: bool,
    pub current_mode: ConnectMode,
    pub pending_reconnect_mode: Option<ConnectMode>,
    pub list_rect: Option<Rect>,
    pub list_first_item_row: u16,
    pub list_scroll_offset: usize,
    pub network_click_map: Seq<Option<usize>>,
    pub toast: Option<ToastModel>,
    pub help_scroll: u16,
}

impl View for App {
    type V = AppModel;

    open spec fn view(&self) -> AppModel {
        AppModel {
            space: self.space,
            overlay: self.overlay,
            pane_focus: self.pane_focus,
            detail_mode: self.detail_mode,
            should_quit: self.should_quit,
            connection: self.connection_state@,
            endpoint: self.endpoint@,
            space_tab_rects: self.space_tab_rects@,
            pane: self.pane@,
            feed: self.feed@,
            stream: self.stream@,
            network: self.network@,
            query: self.query@,
            publish: self.publish@,
            views: self.views@,
            palette: self.palette@,
            scout: self.scout@,
            doctor: self.doctor@,
            plot_field: text_map(self.plot_field@),
            plot_picker_selected: self.plot_picker_selected,
            diff_enabled: self.diff_enabled,
            current_mode: self.current_mode,
            pending_reconnect_mode: self.pending_reconnect_mode,
            list_rect: self.list_rect,
            list_first_item_row: self.list_first_item_row,
            list_scroll_offset: self.list_scroll_offset,
            network_click_map: self.network_click_map@,
            toast: toast_view(self.toast),
            help_scroll: self.help_scroll,
        }
    }
}

/// The keys among the first `n` that hold a text.
pub open spec fn holding(keys: Seq<Seq<char>>, text: Seq<char>, n: nat) -> Seq<Seq<char>>
    decreases n,
{
    if n == 0 {
        Seq::empty()
    } else {
        let before = holding(keys, text, (n - 1) as nat);
        if text.len() == 0 || occurs(keys[n - 1], text) {
            before.push(keys[n - 1])
        } else {
            before
        }
    }
}

impl FeedModel {
    /// After the observations of a session were dropped.
    pub open spec fn emptied(self) -> FeedModel {
        FeedModel {
            latest: Map::empty(),
            history: HistoryModel { rings: Map::empty(), evicted: 0 },
            msg_counts: Map::empty(),
            byte_counts: Map::empty(),
            total_msg_count: 0,
            total_byte_count: 0,
            hz: Map::empty(),
            rates: Map::empty(),
            total_rate: WindowModel::empty(RATE_WINDOW_SECS),
            total_hz: Rate { messages: 0, nanos: NANOS_PER_SEC },
            ..self
        }
    }

    /// The numeric fields that a key offers for plotting, from its latest payload.
    pub open spec fn fields_of(self, key: Seq<char>) -> Seq<Seq<char>> {
        if self.history.rings.dom().contains(key) && self.history.rings[key].len() > 0 {
            at_most(
                number_pointers(self.history.rings[key][0].view, Seq::empty()),
                PLOT_FIELD_LIMIT as nat,
            )
        } else {
            Seq::empty()
        }
    }
}

impl Feed {
    /// Drop the observations of a session.
    pub fn clear(&mut self)
        ensures
            final(self)@ == old(self)@.emptied(),
    {
        self.latest = KeyMap::new();
        self.history.clear();
        self.msg_counts = KeyMap::new();
        self.byte_counts = KeyMap::new();
        self.total_msg_count = 0;
        self.total_byte_count = 0;
        self.hz = KeyMap::new();
        self.rates = KeyMap::new();
        self.total_rate = RateWindow::new(RATE_WINDOW_SECS);
        self.total_hz = Rate { messages: 0, nanos: NANOS_PER_SEC };
        assert(self@.latest =~= Map::empty());
        assert(self@.rates =~= Map::empty());
        assert(self@.history == (HistoryModel { rings: Map::empty(), evicted: 0 }));
    }

    /// The numeric fields that a key offers for plotting, from its latest payload.
    pub fn plottable(&self, key: &str) -> (v: Vec<String>)
        ensures
            texts(v@) == self@.fields_of(key@),
    {
        match self.history.get(key) {
            Some(h) => match h.latest() {
                Some(e) => numeric_pointers(&e.view, PLOT_FIELD_LIMIT),
                None => {
                    let v: Vec<String> = Vec::new();
                    assert(texts(v@) =~= Seq::empty());
                    v
                },
            },
            None => {
                let v: Vec<String> = Vec::new();
                assert(texts(v@) =~= Seq::empty());
                v
            },
        }
    }
}

impl AppModel {
    /// After a message was put up.
    pub open spec fn toasted(self, text: Seq<char>, now: u64) -> AppModel {
        AppModel { toast: Some(ToastModel { text, at: now, is_error: false }), ..self }
    }

    /// After an error was put up.
    pub open spec fn warned(self, text: Seq<char>, now: u64) -> AppModel {
        AppModel { toast: Some(ToastModel { text, at: now, is_error: true }), ..self }
    }

    /// After everything observed was dropped, before a reconnect. What is alive is
    /// dropped when the new session is up; queries and filters are the user's and
    /// stay.
    pub open spec fn cleared(self, tree: crate::tree::TreeModel) -> AppModel {
        AppModel {
            pane: self.pane.emptied(tree),
            feed: self.feed.emptied(),
            stream: self.stream.emptied(),
            network: self.network.emptied(),
            list_scroll_offset: 0,
            ..self
        }
    }

    /// Why nothing is shown, where that is the connection.
    pub open spec fn connection_reason(self) -> Option<EmptyReason> {
        match self.connection {
            ConnectionModel::Connecting => Some(EmptyReason::Connecting),
            ConnectionModel::Disconnected(_) => Some(EmptyReason::Disconnected),
            ConnectionModel::Connected(_) => None,
        }
    }

    /// Why the key list is empty (only meaningful when it is).
    pub open spec fn topics_reason(self) -> EmptyReason {
        match self.connection_reason() {
            Some(r) => r,
            None => if self.pane.filter.len() > 0 && self.pane.tree.keys().len() > 0 {
                EmptyReason::FilteredOut
            } else {
                EmptyReason::NoDataYet
            },
        }
    }

    /// Why the participant list is empty (only meaningful when it is).
    pub open spec fn nodes_reason(self) -> EmptyReason {
        match self.connection_reason() {
            Some(r) => r,
            None => EmptyReason::NoDataYet,
        }
    }

    /// Why the stream is empty (only meaningful when it is).
    pub open spec fn stream_reason(self) -> EmptyReason {
        match self.connection_reason() {
            Some(r) => r,
            None => if self.stream.stream_filter.len() > 0 && self.stream.sub_messages.len() > 0 {
                EmptyReason::FilteredOut
            } else {
                EmptyReason::NoDataYet
            },
        }
    }

    /// The numeric fields that can be plotted for the selected key.
    pub open spec fn fields(self) -> Seq<Seq<char>> {
        match self.pane.selected_key() {
            Some(k) => self.feed.fields_of(k),
            None => Seq::empty(),
        }
    }

    /// After a saved view was restored.
    pub open spec fn viewed(self, p: ProfileModel) -> AppModel {
        AppModel {
            pane: self.pane.restored(p),
            plot_field: p.plot_fields,
            diff_enabled: p.diff_enabled,
            ..self
        }
    }

    /// Whether a text is being typed, which swallows every key.
    pub open spec fn typing(self) -> bool {
        ||| self.pane.filtering
        ||| self.network.network_filtering
        ||| self.stream.stream_filtering
        ||| self.query.query_editing
        ||| self.overlay == Overlay::Palette
        ||| self.overlay == Overlay::ScoutPort
    }
}

/// How handing a text to the clipboard went.
#[derive(Debug)]
pub enum CopyOutcome {
    Copied,
    Failed(String),
    Unavailable(String),
    /// There is no clipboard in this build.
    Unsupported,
}

/// What is said of a copy.
pub open spec fn copy_words(label: Seq<char>, bytes: u64, outcome: CopyOutcome) -> Seq<char> {
    match outcome {
        CopyOutcome::Copied => "Copied "@ + label + " ("@ + decimal(bytes as nat) + "B)"@,
        CopyOutcome::Failed(e) => "Copy failed: "@ + e@,
        CopyOutcome::Unavailable(e) => "Clipboard unavailable: "@ + e@,
        CopyOutcome::Unsupported => "Clipboard not supported in this build"@,
    }
}

impl App {
    /// The dashboard of an endpoint that is being connected to.
    pub fn new(endpoint: String, now: u64) -> (a: App)
        ensures
            a@.pane.tree.wf(),
            a@.pane.tree.keys() == Set::<Seq<Seq<char>>>::empty(),
            a@ == (AppModel {
                space: Space::Traffic,
                overlay: Overlay::Closed,
                pane_focus: PaneFocus::Master,
                detail_mode: DetailMode::Live,
                should_quit: false,
                connection: ConnectionModel::Connecting,
                endpoint: endpoint@,
                space_tab_rects: seq![None, None],
                pane: PaneModel::blank(),
                feed: FeedModel::fresh(now),
                stream: StreamModel::fresh(),
                network: NetworkModel::fresh(),
                query: QueryModel::fresh(),
                publish: PublishModel::fresh(),
                views: ProfilesModel::fresh(),
                palette: PaletteModel::fresh(),
                scout: ScoutModel::fresh(),
                doctor: DoctorModel::fresh(),
                plot_field: Map::empty(),
                plot_picker_selected: 0,
                diff_enabled: true,
                current_mode: ConnectMode::Client,
                pending_reconnect_mode: None,
                list_rect: None,
                list_first_item_row: 0,
                list_scroll_offset: 0,
                network_click_map: Seq::empty(),
                toast: None,
                help_scroll: 0,
            }),
    {
        let a = App {
            space: Space::Traffic,
            overlay: Overlay::Closed,
            pane_focus: PaneFocus::Master,
            detail_mode: DetailMode::Live,
            should_quit: false,
            connection_state: ConnectionState::Connecting,
            endpoint,
            space_tab_rects: [None, None],
            pane: TreePane::new(),
            feed: Feed::new(now),
            stream: Stream::new(),
            network: NetworkPane::new(),
            query: QueryPane::new(),
            publish: PublishEditor::new(),
            views: Profiles::new(),
            palette: Palette::new(),
            scout: ScoutPort::new(),
            doctor: Doctor::new(),
            plot_field: KeyMap::new(),
            plot_picker_selected: 0,
            diff_enabled: true,
            current_mode: ConnectMode::Client,
            pending_reconnect_mode: None,
            list_rect: None,
            list_first_item_row: 0,
            list_scroll_offset: 0,
            network_click_map: Vec::new(),
            toast: None,
            help_scroll: 0,
        };
        assert(a@.plot_field =~= Map::empty());
        assert(a@.space_tab_rects =~= seq![None, None]);
        a
    }

    /// Whether a session is up.
    pub fn is_connected(&self) -> (r: bool)
        ensures
            r == (self@.connection is Connected),
    {
        match &self.connection_state {
            ConnectionState::Connected(_) => true,
            _ => false,
        }
    }

    /// Put up a message.
    pub fn set_toast(&mut self, msg: String, now: u64)
        ensures
            final(self)@ == old(self)@.toasted(msg@, now),
    {
        self.toast = Some(Toast { text: msg, at: now, is_error: false });
    }

    /// Put up an error.
    pub fn set_error_toast(&mut self, msg: String, now: u64)
        ensures
            final(self)@ == old(self)@.warned(msg@, now),
    {
        self.toast = Some(Toast { text: msg, at: now, is_error: true });
    }

    /// Drop everything observed (keys, messages, sessions) and reset the cursors that
    /// went with it, before reconnecting in another mode, so that what the previous
    /// session saw does not bleed into the new one.
    ///
    /// What is alive is dropped once the new session is up. Query results, query
    /// history and filters are the user's and survive a reconnect.
    pub fn clear_network_state(&mut self)
        ensures
            final(self)@ == old(self)@.cleared(final(self)@.pane.tree),
            final(self)@.pane.tree.keys() == Set::<Seq<Seq<char>>>::empty(),
            final(self)@.pane.tree.wf(),
            final(self)@.pane.tree.version == 0,
    {
        self.pane.reset();
        self.feed.clear();
        self.stream.clear();
        self.network.clear_nodes();
        self.list_scroll_offset = 0;
    }

    /// A text was handed to the clipboard, or was not.
    pub fn finish_copy(&mut self, label: &str, bytes: u64, outcome: CopyOutcome, now: u64)
        ensures
            outcome is Copied ==> final(self)@ == old(self)@.toasted(
                copy_words(label@, bytes, outcome),
                now,
            ),
            !(outcome is Copied) ==> final(self)@ == old(self)@.warned(
                copy_words(label@, bytes, outcome),
                now,
            ),
    {
        match outcome {
            CopyOutcome::Copied => {
                let n = decimal_text(bytes);
                let s = cat4("Copied ", label, " (", n.as_str());
                let text = cat(s.as_str(), "B)");
                assert(text@ =~= copy_words(label@, bytes, CopyOutcome::Copied));
                self.set_toast(text, now);
            },
            CopyOutcome::Failed(e) => {
                let text = cat("Copy failed: ", e.as_str());
                self.set_error_toast(text, now);
            },
            CopyOutcome::Unavailable(e) => {
                let text = cat("Clipboard unavailable: ", e.as_str());
                self.set_error_toast(text, now);
            },
            CopyOutcome::Unsupported => {
                self.set_error_toast("Clipboard not supported in this build".to_owned(), now);
            },
        }
    }

    /// A view was written, or was not: the saved views as they are now, where the
    /// file is, and why it was not written.
    pub fn profile_saved(
        &mut self,
        profiles: Vec<TuiProfile>,
        name: &str,
        outcome: Result<String, String>,
        now: u64,
    )
        ensures
            ({
                let kept = AppModel {
                    views: ProfilesModel {
                        profiles: profile_models(profiles@),
                        ..old(self)@.views
                    },
                    ..old(self)@
                };
                final(self)@ == (match outcome {
                    Ok(place) => kept.toasted("Saved '"@ + name@ + "' to "@ + place@, now),
                    Err(e) => kept.warned("Could not save: "@ + e@, now),
                })
            }),
    {
        self.views.profiles = profiles;
        match outcome {
            Ok(place) => {
                let text = cat4("Saved '", name, "' to ", place.as_str());
                assert(text@ =~= "Saved '"@ + name@ + "' to "@ + place@);
                self.set_toast(text, now);
            },
            Err(e) => {
                let text = cat("Could not save: ", e.as_str());
                self.set_error_toast(text, now);
            },
        }
    }

    /// The saved views could be read when the program started, or could not: a broken
    /// file should not stop the dashboard.
    pub fn profiles_loaded(&mut self, outcome: Result<Vec<TuiProfile>, String>, now: u64)
        ensures
            match outcome {
                Ok(profiles) => final(self)@ == (AppModel {
                    views: ProfilesModel {
                        profiles: profile_models(profiles@),
                        ..old(self)@.views
                    },
                    ..old(self)@
                }),
                Err(e) => final(self)@ == old(self)@.warned(
                    "Saved views unavailable: "@ + e@,
                    now,
                ),
            },
    {
        match outcome {
            Ok(profiles) => {
                self.views.profiles = profiles;
            },
            Err(e) => {
                let text = cat("Saved views unavailable: ", e.as_str());
                self.set_error_toast(text, now);
            },
        }
    }

    fn connection_empty_reason(&self) -> (r: Option<EmptyReason>)
        ensures
            r == self@.connection_reason(),
    {
        match &self.connection_state {
            ConnectionState::Connecting => Some(EmptyReason::Connecting),
            ConnectionState::Disconnected(_) => Some(EmptyReason::Disconnected),
            ConnectionState::Connected(_) => None,
        }
    }

    /// Why the key list is empty (only meaningful when it is).
    pub fn topics_empty_reason(&self) -> (r: EmptyReason)
        ensures
            r == self@.topics_reason(),
    {
        if let Some(r) = self.connection_empty_reason() {
            return r;
        }
        let keys: usize = self.pane.key_tree.len();
        if !self.pane.filter.as_str().is_empty() && keys > 0 {
            EmptyReason::FilteredOut
        } else {
            EmptyReason::NoDataYet
        }
    }

    /// Why the participant list is empty (only meaningful when it is).
    pub fn nodes_empty_reason(&self) -> (r: EmptyReason)
        ensures
            r == self@.nodes_reason(),
    {
        match self.connection_empty_reason() {
            Some(r) => r,
            None => EmptyReason::NoDataYet,
        }
    }

    /// Why the stream is empty (only meaningful when it is).
    pub fn stream_empty_reason(&self) -> (r: EmptyReason)
        ensures
            r == self@.stream_reason(),
    {
        if let Some(r) = self.connection_empty_reason() {
            return r;
        }
        assert(self@.stream.sub_messages.len() == self.stream.sub_messages@.len());
        if !self.stream.stream_filter.as_str().is_empty() && self.stream.sub_messages.len() > 0 {
            EmptyReason::FilteredOut
        } else {
            EmptyReason::NoDataYet
        }
    }

    /// The keys with a message, ascending, that hold the tree filter as it is typed.
    pub fn filtered_topics(&self) -> (v: Vec<String>)
        ensures
            texts(v@) == holding(
                ordered(self@.feed.latest.dom()),
                self@.pane.filter,
                ordered(self@.feed.latest.dom()).len(),
            ),
    {
        let keys = self.feed.latest.keys();
        let ghost all = texts(keys@);
        let ghost text = self@.pane.filter;
        let mut v: Vec<String> = Vec::new();
        let mut i: usize = 0;
        assert(texts(v@) =~= Seq::empty());
        while i < keys.len()
            invariant
                i <= keys.len(),
                all == texts(keys@),
                text == self.pane.filter@,
                texts(v@) == holding(all, text, i as nat),
            decreases keys.len() - i,
        {
            assert(all[i as int] == keys@[i as int]@);
            let ghost before = v@;
            if self.pane.filter.as_str().is_empty() || contains_text(
                keys[i].as_str(),
                self.pane.filter.as_str(),
            ) {
                v.push(keys[i].clone());
                assert(texts(v@) =~= texts(before).push(all[i as int]));
            }
            i = i + 1;
        }
        proof {
            assert forall|k: Seq<char>| self@.feed.latest.dom().contains(
                k,
            ) <==> #[trigger] all.contains(k) by {
                assert(self.feed.latest@.dom().contains(k) <==> all.contains(k));
            }
            lemma_ordered(all, self@.feed.latest.dom());
        }
        v
    }

    /// The messages of the stream that pass its filters, newest first.
    pub fn filtered_sub_messages(&self) -> (v: Vec<&ZenohMessage>)
        ensures
            Seq::new(v@.len(), |i: int| v@[i]@) == self@.stream.filtered(),
    {
        self.stream.filtered_sub_messages()
    }

    /// Narrow the stream to the selected key, and look at its newest message.
    pub fn open_selected_topic_in_stream(&mut self, now: u64)
        ensures
            match old(self)@.pane.selected_key() {
                Some(k) => final(self)@ == (AppModel {
                    stream: old(self)@.stream.narrowed(k).following(),
                    space: Space::Traffic,
                    ..old(self)@
                }).toasted("Stream filtered to exact topic: "@ + k, now),
                None => final(self)@ == old(self)@,
            },
    {
        if let Some(key) = self.pane.selected_topic_key() {
            self.stream.narrow_to(key.as_str());
            self.stream.follow_stream();
            self.space = Space::Traffic;
            let text = cat("Stream filtered to exact topic: ", key.as_str());
            self.set_toast(text, now);
        }
    }

    /// The numeric fields that can be plotted for the selected key, from its latest
    /// payload. Empty when nothing numeric is in it.
    pub fn plottable_fields(&self) -> (v: Vec<String>)
        ensures
            texts(v@) == self@.fields(),
    {
        match self.pane.selected_topic_key() {
            Some(key) => self.feed.plottable(key.as_str()),
            None => {
                let v: Vec<String> = Vec::new();
                assert(texts(v@) =~= Seq::empty());
                v
            },
        }
    }

    /// Capture the current view under a name.
    pub fn snapshot_profile(&self, name: &str) -> (p: TuiProfile)
        ensures
            captures(p@, name@, self@.pane, self@.plot_field, self@.diff_enabled),
    {
        snapshot_profile(name, &self.pane, &self.plot_field, self.diff_enabled)
    }

    /// Restore a saved view.
    ///
    /// The expansion state is applied as the user's own, so the automatic opening
    /// stands down: loading a view is exactly as deliberate as expanding by hand.
    pub fn apply_profile(&mut self, profile: &TuiProfile)
        ensures
            final(self)@ == old(self)@.viewed(profile@),
    {
        self.pane.restore(profile);
        self.plot_field = copy_text_map(&profile.plot_fields);
        self.diff_enabled = profile.diff_enabled;
    }

    /// Whether a text is being typed, which swallows every key.
    pub fn is_text_input_active(&self) -> (r: bool)
        ensures
            r == self@.typing(),
    {
        self.pane.filtering || self.network.network_filtering || self.stream.stream_filtering
            || self.query.query_editing || self.overlay == Overlay::Palette || self.overlay
            == Overlay::ScoutPort
    }
}

/// A reconnect drops what was observed and leaves what the user set: queries and
/// their answers, the filters, the stream's pause and follow mode, the saved views,
/// and what is known to be alive.
pub proof fn law_clearing_keeps_what_the_user_set(m: AppModel, tree: crate::tree::TreeModel)
    ensures
        m.cleared(tree).query == m.query,
        m.cleared(tree).pane.filter == m.pane.filter,
        m.cleared(tree).network.network_filter == m.network.network_filter,
        m.cleared(tree).network.liveliness_tokens == m.network.liveliness_tokens,
        m.cleared(tree).stream.stream_filter == m.stream.stream_filter,
        m.cleared(tree).stream.stream_key_filter == m.stream.stream_key_filter,
        m.cleared(tree).stream.stream_follow == m.stream.stream_follow,
        m.cleared(tree).stream.sub_paused == m.stream.sub_paused,
        m.cleared(tree).views == m.views,
        m.cleared(tree).plot_field == m.plot_field,
{
}

/// Nothing that the last session saw reaches the next: no message, no history, no
/// count, no rate and no session is left.
pub proof fn law_nothing_of_the_last_session_is_left(m: AppModel, tree: crate::tree::TreeModel)
    ensures
        m.cleared(tree).feed == (FeedModel {
            history_paused: m.feed.history_paused,
            keys_aged_out: m.feed.keys_aged_out,
            ..FeedModel::fresh(m.feed.last_hz_update)
        }),
        m.cleared(tree).stream.sub_messages.len() == 0,
        m.cleared(tree).network.nodes.len() == 0,
        m.cleared(tree).network.admin_nodes.len() == 0,
        m.cleared(tree).network.scout_nodes.len() == 0,
{
}

} // verus!
