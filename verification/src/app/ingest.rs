//! What comes in: keys and pointer, messages, participants, scans and diagnostics.
use vstd::prelude::*;

use crate::app::doctor::{DoctorModel, DoctorReport};
use crate::app::feed::recorded;
use crate::app::keys::{grants, Effect, Wanted};
use crate::app::network_pane::{node_models, LivelinessToken, NetworkModel, NodeInfo};
use crate::app::scout_port::{port_models, PortScoutResult, ScoutModel};
use crate::app::state::{App, AppModel};
use crate::app::sweep::{swept, update_hz};
use crate::app::tree_pane::{PaneModel, TreePane};
use crate::app::types::{KeyEvent, MouseEvent};
use crate::message::{MessageModel, ZenohMessage};
use crate::text::segments;
use crate::tree::TreeModel;

verus! {

/// Something that came in.
pub enum AppEvent {
    Key(KeyEvent),
    Mouse(MouseEvent),
    Zenoh(ZenohMessage),
    Tick,
    /// The sessions that the routers report, and those merged with the scouted ones.
    AdminNodes { nodes: Vec<NodeInfo>, merged: Vec<NodeInfo> },
    ScoutStarted,
    /// The sessions that a scout found, and those merged with the reported ones.
    ScoutNodes { found: Vec<NodeInfo>, all: Vec<NodeInfo> },
    PortScanStarted,
    PortScanResults(Vec<PortScoutResult>),
    /// A token joined or left.
    Liveliness { token: LivelinessToken, is_join: bool },
    DoctorStarted,
    DoctorReport(DoctorReport),
}

/// Whether noting a key in the tree leads from one pane to the other. A key that is
/// known changes nothing; a new one is listed, and the automatic opening gets its go.
pub open spec fn notes(before: PaneModel, key: Seq<char>, after: PaneModel) -> bool {
    if segments(key).len() == 0 || before.tree.keys().contains(segments(key)) {
        after == before
    } else {
        exists|tree: TreeModel|
            {
                &&& #[trigger] tree.wf()
                &&& tree.keys() == before.tree.keys().insert(segments(key))
                &&& tree.version == before.tree.version.wrapping_add(1)
                &&& after == (PaneModel { tree, ..before }).auto_expanded()
            }
    }
}

/// Whether taking in a message leads from one state to the other.
pub open spec fn takes_in(m: AppModel, msg: MessageModel, now: u64, after: AppModel) -> bool {
    &&& notes(m.pane, msg.key_expr, after.pane)
    &&& after.feed == m.feed.received(msg, now, after.feed.history)
    &&& m.feed.history_paused ==> after.feed.history == m.feed.history
    &&& !m.feed.history_paused ==> recorded(m.feed.history, msg, now, after.feed.history)
    &&& after == (AppModel {
        pane: after.pane,
        feed: after.feed,
        stream: m.stream.received(msg),
        ..m
    })
}

/// Whether an event leads from one state to the other.
pub open spec fn event_leads(m: AppModel, event: AppEvent, now: u64, after: AppModel) -> bool {
    match event {
        AppEvent::Key(key) => after == m.pressed(key, now),
        AppEvent::Mouse(ev) => after == m.pointed(ev),
        AppEvent::Zenoh(msg) => takes_in(m, msg@, now, after),
        AppEvent::Tick => {
            &&& swept(m.feed, after.feed, m.pane, after.pane, now)
            &&& after == (AppModel { feed: after.feed, pane: after.pane, ..m })
        },
        AppEvent::AdminNodes { nodes, merged } => after == m.with_network(
            m.network.admin_seen(node_models(nodes@), node_models(merged@)),
        ),
        AppEvent::ScoutStarted => after == m.with_network(
            NetworkModel { scout_in_progress: true, ..m.network },
        ),
        AppEvent::ScoutNodes { found, all } => after == m.with_network(
            m.network.scouted(node_models(found@), node_models(all@), now),
        ),
        AppEvent::PortScanStarted => after == (AppModel {
            scout: ScoutModel { port_scan_in_progress: true, ..m.scout },
            ..m
        }),
        AppEvent::PortScanResults(results) => after == (AppModel {
            scout: m.scout.scanned(port_models(results@)),
            ..m
        }),
        AppEvent::Liveliness { token, is_join } => after == m.with_network(
            m.network.lived(token@, is_join, now),
        ),
        AppEvent::DoctorStarted => after == (AppModel {
            doctor: DoctorModel { doctor_running: true, ..m.doctor },
            ..m
        }),
        AppEvent::DoctorReport(report) => after == (AppModel {
            doctor: m.doctor.reported(report@),
            ..m
        }),
    }
}

/// What an event asks of the world outside: only keys ask anything.
pub open spec fn event_wants(m: AppModel, event: AppEvent) -> Wanted {
    match event {
        AppEvent::Key(key) => m.wanted(key),
        _ => Wanted::Nothing,
    }
}

impl TreePane {
    /// Note a key in the tree.
    pub fn note_key(&mut self, key: &str)
        requires
            old(self)@.tree.keys().len() < usize::MAX,
        ensures
            notes(old(self)@, key@, final(self)@),
    {
        let ghost before = self@;
        if self.key_tree.insert(key) {
            let ghost tree = self.key_tree@;
            assert(self@ == (PaneModel { tree, ..before }));
            self.auto_expand();
            assert(tree.wf());
            assert(self@ == (PaneModel { tree, ..before }).auto_expanded());
        }
    }
}

impl App {
    /// Something came in. What it asks of the world outside is handed back.
    pub fn handle_event(&mut self, event: AppEvent, now: u64) -> (e: Effect)
        requires
            event is Zenoh ==> old(self)@.pane.tree.keys().len() < usize::MAX,
        ensures
            event_leads(old(self)@, event, now, final(self)@),
            grants(old(self)@, event_wants(old(self)@, event), e),
    {
        match event {
            AppEvent::Key(key) => {
                return self.handle_key(key, now);
            },
            AppEvent::Mouse(ev) => self.handle_mouse(ev),
            AppEvent::Zenoh(msg) => self.handle_zenoh_message(msg, now),
            AppEvent::Tick => self.update_hz(now),
            AppEvent::AdminNodes { nodes, merged } => self.network.handle_admin_nodes(nodes, merged),
            AppEvent::ScoutStarted => {
                self.network.scout_in_progress = true;
            },
            AppEvent::ScoutNodes { found, all } => self.network.handle_scout_nodes(found, all, now),
            AppEvent::PortScanStarted => {
                self.scout.port_scan_in_progress = true;
            },
            AppEvent::PortScanResults(results) => self.scout.scan_done(results),
            AppEvent::Liveliness { token, is_join } => self.network.handle_liveliness(
                token,
                is_join,
                now,
            ),
            AppEvent::DoctorStarted => {
                self.doctor.doctor_running = true;
            },
            AppEvent::DoctorReport(report) => self.doctor.report(report),
        }
        Effect::Nothing
    }

    /// A message arrived.
    ///
    /// Only a genuinely new key does any work on the tree, so the steady state of a
    /// running stream does none.
    pub fn handle_zenoh_message(&mut self, msg: ZenohMessage, now: u64)
        requires
            old(self)@.pane.tree.keys().len() < usize::MAX,
        ensures
            takes_in(old(self)@, msg@, now, final(self)@),
    {
        self.pane.note_key(msg.key_expr.as_str());
        self.stream.receive(&msg);
        self.feed.receive(msg, now);
    }

    /// The once-a-second sweep over rates and keys.
    pub fn update_hz(&mut self, now: u64)
        ensures
            swept(old(self)@.feed, final(self)@.feed, old(self)@.pane, final(self)@.pane, now),
            final(self)@ == (AppModel {
                feed: final(self)@.feed,
                pane: final(self)@.pane,
                ..old(self)@
            }),
    {
        update_hz(&mut self.feed, &mut self.pane, now);
    }
}

} // verus!
