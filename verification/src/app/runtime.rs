//! The decisions of the event loop: when to paint, what to hand to the session, and
//! when to connect again. The loop itself performs what is decided here.
use vstd::prelude::*;

use crate::app::doctor::{Doctor, DoctorModel};
use crate::app::feed::{elapsed, since};
use crate::app::ingest::AppEvent;
use crate::app::network_pane::{NetworkModel, NetworkPane};
use crate::app::publish::{PublishEditor, PublishModel};
use crate::app::query::QueryPane;
use crate::app::scout_port::{ScoutModel, ScoutPort};
use crate::app::state::{App, AppModel};
use crate::app::stream::message_models;
use crate::app::types::{ConnectMode, ConnectionModel, ConnectionState};
use crate::message::ZenohMessage;
use crate::text::{head, head_of};

verus! {

/// Minimum spacing between full repaints, in milliseconds.
pub const REDRAW_INTERVAL_MS: u64 = 66;

/// The same in nanoseconds.
pub const REDRAW_INTERVAL_NANOS: u64 = 66_000_000;

/// Events taken from the queue before the next repaint.
pub const MAX_PENDING_EVENTS_PER_BATCH: usize = 512;

/// Characters kept of the reason why a connection failed.
pub const REASON_CHARS: usize = 60;

/// Whether to paint: only what changed is painted, at most once an interval, unless
/// a key press asks for it.
pub open spec fn paints(
    needs_redraw: bool,
    has_toast: bool,
    since_last_draw: u64,
    immediate: bool,
) -> bool {
    &&& needs_redraw || has_toast
    &&& immediate || since_last_draw >= REDRAW_INTERVAL_NANOS
}

/// Whether the event loop should paint this time.
///
/// Draining a batch already collapses a burst of messages into one frame, but a
/// stream arriving slower than a repaint takes would still buy one full repaint per
/// message. Spacing the frames bounds that, at the cost of showing a value up to one
/// frame late. `immediate` opts out: a key press must never wait on the frame budget.
pub fn should_draw(
    needs_redraw: bool,
    has_toast: bool,
    since_last_draw: u64,
    immediate: bool,
) -> (r: bool)
    ensures
        r == paints(needs_redraw, has_toast, since_last_draw, immediate),
{
    if !needs_redraw && !has_toast {
        return false;
    }
    immediate || since_last_draw >= REDRAW_INTERVAL_NANOS
}

/// Nothing to paint never paints, and without a key press two frames are at least
/// an interval apart.
pub proof fn law_the_frame_gate(
    needs_redraw: bool,
    has_toast: bool,
    since_last_draw: u64,
    immediate: bool,
)
    ensures
        !paints(false, false, since_last_draw, immediate),
        paints(needs_redraw, has_toast, since_last_draw, false) ==> since_last_draw
            >= REDRAW_INTERVAL_NANOS,
        needs_redraw ==> paints(needs_redraw, has_toast, since_last_draw, true),
        paints(needs_redraw, has_toast, since_last_draw, immediate) ==> paints(
            needs_redraw,
            has_toast,
            since_last_draw,
            true,
        ),
{
}

/// What the loop is to do outside.
#[derive(Debug)]
pub enum Request {
    /// Run a query on the session.
    Query(String),
    Scout,
    ScanPorts,
    Doctor,
    /// Put a payload on a key.
    Publish { key: String, payload: String },
    /// Drop the session, and connect again on a scout port.
    ReconnectPort(u16),
    /// Drop the session, and connect again in a mode.
    ReconnectMode(ConnectMode),
}

/// What the loop is to do, as a mathematical value.
pub enum RequestModel {
    Query(Seq<char>),
    Scout,
    ScanPorts,
    Doctor,
    Publish(Seq<char>, Seq<char>),
    ReconnectPort(u16),
    ReconnectMode(ConnectMode),
}

impl View for Request {
    type V = RequestModel;

    open spec fn view(&self) -> RequestModel {
        match self {
            Request::Query(q) => RequestModel::Query(q@),
            Request::Scout => RequestModel::Scout,
            Request::ScanPorts => RequestModel::ScanPorts,
            Request::Doctor => RequestModel::Doctor,
            Request::Publish { key, payload } => RequestModel::Publish(key@, payload@),
            Request::ReconnectPort(p) => RequestModel::ReconnectPort(*p),
            Request::ReconnectMode(m) => RequestModel::ReconnectMode(*m),
        }
    }
}

/// The models of a list of requests.
pub open spec fn request_models(v: Seq<Request>) -> Seq<RequestModel> {
    v.map_values(|r: Request| r@)
}

/// One request, or none.
pub open spec fn maybe(is: bool, r: RequestModel) -> Seq<RequestModel> {
    if is {
        seq![r]
    } else {
        Seq::empty()
    }
}

impl AppModel {
    /// What is pending, in the order in which it is handed out. A query or a put
    /// needs a session.
    pub open spec fn requests(self, connected: bool) -> Seq<RequestModel> {
        maybe(
            connected && self.query.pending_query is Some,
            RequestModel::Query(self.query.pending_query->0),
        ) + maybe(self.network.pending_scout_request, RequestModel::Scout) + maybe(
            self.scout.pending_port_scan_request,
            RequestModel::ScanPorts,
        ) + maybe(self.doctor.pending_doctor_request, RequestModel::Doctor) + maybe(
            connected && self.publish.pending_publish is Some,
            RequestModel::Publish(
                (self.publish.pending_publish->0).0,
                (self.publish.pending_publish->0).1,
            ),
        ) + maybe(
            self.scout.pending_reconnect_port is Some,
            RequestModel::ReconnectPort(self.scout.pending_reconnect_port->0),
        ) + maybe(
            self.pending_reconnect_mode is Some,
            RequestModel::ReconnectMode(self.pending_reconnect_mode->0),
        )
    }

    /// Whether something of the above changes what is shown.
    pub open spec fn requests_show(self) -> bool {
        ||| self.publish.pending_publish is Some
        ||| self.scout.pending_reconnect_port is Some
        ||| self.pending_reconnect_mode is Some
    }

    /// Whether a new session is asked for.
    pub open spec fn reconnects(self) -> bool {
        self.scout.pending_reconnect_port is Some || self.pending_reconnect_mode is Some
    }

    /// After everything pending was handed out, short of what a change of mode
    /// drops.
    pub open spec fn handed_out(self, connected: bool) -> AppModel {
        AppModel {
            query: if self.query.pending_query is Some {
                self.query.started(connected)
            } else {
                self.query
            },
            network: NetworkModel { pending_scout_request: false, ..self.network },
            scout: ScoutModel {
                pending_port_scan_request: false,
                pending_reconnect_port: None,
                ..self.scout
            },
            doctor: DoctorModel { pending_doctor_request: false, ..self.doctor },
            publish: PublishModel {
                pending_publish: None,
                publish_result: if self.publish.pending_publish is Some && !connected {
                    Some(Err("not connected"@))
                } else {
                    self.publish.publish_result
                },
                ..self.publish
            },
            connection: if self.reconnects() {
                ConnectionModel::Connecting
            } else {
                self.connection
            },
            pending_reconnect_mode: None,
            current_mode: match self.pending_reconnect_mode {
                Some(mode) => mode,
                None => self.current_mode,
            },
            ..self
        }
    }
}

/// What the loop remembers between two turns.
#[derive(Debug, Clone, Copy, PartialEq, Eq, Structural)]
pub struct LoopState {
    /// A connection is being made.
    pub reconnect_pending: bool,
    pub needs_redraw: bool,
    pub draw_immediately: bool,
    /// When the last frame was painted; nothing before the first one.
    pub last_draw: Option<u64>,
}

impl LoopState {
    /// How long ago the last frame was painted. The first one is always due.
    pub open spec fn since_draw(self, now: u64) -> u64 {
        match self.last_draw {
            Some(at) => since(at, now),
            None => REDRAW_INTERVAL_NANOS,
        }
    }

    /// The loop at its start: connecting, with a first frame to paint.
    pub fn new() -> (l: LoopState)
        ensures
            l == (LoopState {
                reconnect_pending: true,
                needs_redraw: true,
                draw_immediately: false,
                last_draw: None,
            }),
    {
        LoopState {
            reconnect_pending: true,
            needs_redraw: true,
            draw_immediately: false,
            last_draw: None,
        }
    }

    /// Whether to paint now; painting settles what was pending.
    pub fn frame(&mut self, has_toast: bool, now: u64) -> (r: bool)
        ensures
            r == paints(
                old(self).needs_redraw,
                has_toast,
                old(self).since_draw(now),
                old(self).draw_immediately,
            ),
            *final(self) == (if r {
                LoopState {
                    needs_redraw: false,
                    draw_immediately: false,
                    last_draw: Some(now),
                    ..*old(self)
                }
            } else {
                *old(self)
            }),
    {
        let ago: u64 = match self.last_draw {
            Some(at) => elapsed(at, now),
            None => REDRAW_INTERVAL_NANOS,
        };
        let r = should_draw(self.needs_redraw, has_toast, ago, self.draw_immediately);
        if r {
            self.needs_redraw = false;
            self.draw_immediately = false;
            self.last_draw = Some(now);
        }
        r
    }

    /// A batch of events was handled.
    pub fn batch_done(&mut self, saw_key: bool)
        ensures
            *final(self) == (LoopState {
                needs_redraw: true,
                draw_immediately: old(self).draw_immediately || saw_key,
                ..*old(self)
            }),
    {
        self.needs_redraw = true;
        self.draw_immediately = self.draw_immediately || saw_key;
    }
}

/// Whether an event is a key press, which lets its batch pass the frame gate.
pub fn is_key(event: &AppEvent) -> (r: bool)
    ensures
        r == (event is Key),
{
    match event {
        AppEvent::Key(_) => true,
        _ => false,
    }
}

/// The model of an optional request.
pub open spec fn request_view(r: Option<Request>) -> Seq<RequestModel> {
    match r {
        Some(r) => seq![r@],
        None => Seq::empty(),
    }
}

fn push_request(v: &mut Vec<Request>, r: Option<Request>)
    ensures
        request_models(final(v)@) == request_models(old(v)@) + request_view(r),
{
    let ghost before = v@;
    let ghost more = request_view(r);
    if let Some(r) = r {
        v.push(r);
        assert(request_models(v@) =~= request_models(before) + more);
    } else {
        assert(request_models(v@) =~= request_models(before) + more);
    }
}

fn take_flag(flag: &mut bool) -> (r: bool)
    ensures
        r == *old(flag),
        *final(flag) == false,
{
    let r = *flag;
    *flag = false;
    r
}

fn take_query(query: &mut QueryPane, connected: bool) -> (r: Option<Request>)
    ensures
        request_view(r) == maybe(
            connected && old(query)@.pending_query is Some,
            RequestModel::Query(old(query)@.pending_query->0),
        ),
        final(query)@ == (if old(query)@.pending_query is Some {
            old(query)@.started(connected)
        } else {
            old(query)@
        }),
{
    match query.take_pending(connected) {
        Some(q) => if connected {
            Some(Request::Query(q))
        } else {
            None
        },
        None => None,
    }
}

fn take_scout(network: &mut NetworkPane) -> (r: Option<Request>)
    ensures
        request_view(r) == maybe(old(network)@.pending_scout_request, RequestModel::Scout),
        final(network)@ == (NetworkModel { pending_scout_request: false, ..old(network)@ }),
{
    if take_flag(&mut network.pending_scout_request) {
        Some(Request::Scout)
    } else {
        None
    }
}

fn take_scan(scout: &mut ScoutPort) -> (r: Option<Request>)
    ensures
        request_view(r) == maybe(old(scout)@.pending_port_scan_request, RequestModel::ScanPorts),
        final(scout)@ == (ScoutModel { pending_port_scan_request: false, ..old(scout)@ }),
{
    if take_flag(&mut scout.pending_port_scan_request) {
        Some(Request::ScanPorts)
    } else {
        None
    }
}

fn take_port(scout: &mut ScoutPort) -> (r: Option<Request>)
    ensures
        request_view(r) == maybe(
            old(scout)@.pending_reconnect_port is Some,
            RequestModel::ReconnectPort(old(scout)@.pending_reconnect_port->0),
        ),
        final(scout)@ == (ScoutModel { pending_reconnect_port: None, ..old(scout)@ }),
{
    let r = match scout.pending_reconnect_port {
        Some(port) => Some(Request::ReconnectPort(port)),
        None => None,
    };
    scout.pending_reconnect_port = None;
    r
}

fn take_doctor(doctor: &mut Doctor) -> (r: Option<Request>)
    ensures
        request_view(r) == maybe(old(doctor)@.pending_doctor_request, RequestModel::Doctor),
        final(doctor)@ == (DoctorModel { pending_doctor_request: false, ..old(doctor)@ }),
{
    if take_flag(&mut doctor.pending_doctor_request) {
        Some(Request::Doctor)
    } else {
        None
    }
}

fn take_publish(editor: &mut PublishEditor, connected: bool) -> (r: Option<Request>)
    ensures
        request_view(r) == maybe(
            connected && old(editor)@.pending_publish is Some,
            RequestModel::Publish(
                (old(editor)@.pending_publish->0).0,
                (old(editor)@.pending_publish->0).1,
            ),
        ),
        final(editor)@ == (PublishModel {
            pending_publish: None,
            publish_result: if old(editor)@.pending_publish is Some && !connected {
                Some(Err("not connected"@))
            } else {
                old(editor)@.publish_result
            },
            ..old(editor)@
        }),
{
    let mut pending: Option<(String, String)> = None;
    std::mem::swap(&mut pending, &mut editor.pending_publish);
    match pending {
        Some((key, payload)) => if connected {
            Some(Request::Publish { key, payload })
        } else {
            editor.publish_result = Some(Err("not connected".to_owned()));
            None
        },
        None => None,
    }
}

impl App {
    /// Take what is pending: it is handed out once, in order. A query or a put
    /// without a session is answered here.
    pub fn take_requests(&mut self, state: &mut LoopState, connected: bool) -> (v: Vec<Request>)
        ensures
            request_models(v@) == old(self)@.requests(connected),
            old(self)@.pending_reconnect_mode is None ==> final(self)@ == old(self)@.handed_out(
                connected,
            ),
            old(self)@.pending_reconnect_mode is Some ==> final(self)@ == old(self)@.handed_out(
                connected,
            ).cleared(final(self)@.pane.tree) && final(self)@.pane.tree.keys() == Set::<
                Seq<Seq<char>>,
            >::empty(),
            *final(state) == (LoopState {
                needs_redraw: old(state).needs_redraw || old(self)@.requests_show(),
                reconnect_pending: old(state).reconnect_pending || old(self)@.reconnects(),
                ..*old(state)
            }),
    {
        let ghost before = self@;
        let writes = self.publish.pending_publish.is_some();
        let moves = self.scout.pending_reconnect_port.is_some()
            || self.pending_reconnect_mode.is_some();
        state.needs_redraw = state.needs_redraw || writes || moves;
        state.reconnect_pending = state.reconnect_pending || moves;
        let query = take_query(&mut self.query, connected);
        let scout = take_scout(&mut self.network);
        let scan = take_scan(&mut self.scout);
        let doctor = take_doctor(&mut self.doctor);
        let publish = take_publish(&mut self.publish, connected);
        let port = take_port(&mut self.scout);
        let mode = self.pending_reconnect_mode;
        let mut v: Vec<Request> = Vec::new();
        assert(request_models(v@) =~= Seq::empty());
        push_request(&mut v, query);
        push_request(&mut v, scout);
        push_request(&mut v, scan);
        push_request(&mut v, doctor);
        push_request(&mut v, publish);
        push_request(&mut v, port);
        let last = match mode {
            Some(mode) => Some(Request::ReconnectMode(mode)),
            None => None,
        };
        push_request(&mut v, last);
        assert(request_models(v@) =~= before.requests(connected));
        if moves {
            self.connection_state = ConnectionState::Connecting;
        }
        self.pending_reconnect_mode = None;
        if let Some(mode) = mode {
            self.current_mode = mode;
            assert(self@ == before.handed_out(connected));
            self.clear_network_state();
        }
        v
    }

    /// A put went out, or did not.
    pub fn published(&mut self, outcome: Result<String, String>)
        ensures
            final(self)@ == (AppModel {
                publish: PublishModel {
                    publish_result: match outcome {
                        Ok(k) => Some(Ok(k@)),
                        Err(e) => Some(Err(e@)),
                    },
                    ..old(self)@.publish
                },
                ..old(self)@
            }),
    {
        self.publish.publish_result = Some(outcome);
    }

    /// A query came back.
    pub fn query_done(&mut self, state: &mut LoopState, outcome: Result<Vec<ZenohMessage>, String>)
        ensures
            final(self)@ == (AppModel {
                query: match outcome {
                    Ok(results) => old(self)@.query.answered(message_models(results@)),
                    Err(e) => old(self)@.query.failed(e@),
                },
                ..old(self)@
            }),
            *final(state) == (LoopState { needs_redraw: true, ..*old(state) }),
    {
        match outcome {
            Ok(results) => self.query.answer(results),
            Err(e) => self.query.fail(e),
        }
        state.needs_redraw = true;
    }

    /// A session came up. What was known to be alive is dropped before it is asked
    /// for again, and a fresh set of diagnostics is asked for.
    pub fn connected(&mut self, state: &mut LoopState, zid: String)
        ensures
            final(self)@ == (AppModel {
                connection: ConnectionModel::Connected(zid@),
                network: old(self)@.network.reconnected(zid@),
                doctor: DoctorModel { pending_doctor_request: true, ..old(self)@.doctor },
                ..old(self)@
            }),
            *final(state) == (LoopState {
                needs_redraw: true,
                reconnect_pending: false,
                ..*old(state)
            }),
    {
        self.network.connected_as(zid.as_str());
        self.connection_state = ConnectionState::Connected(zid);
        self.doctor.pending_doctor_request = true;
        state.reconnect_pending = false;
        state.needs_redraw = true;
    }

    /// A session did not come up.
    pub fn connect_failed(&mut self, state: &mut LoopState, reason: &str)
        ensures
            final(self)@ == (AppModel {
                connection: ConnectionModel::Disconnected(head_of(reason@, REASON_CHARS as nat)),
                ..old(self)@
            }),
            *final(state) == (LoopState {
                needs_redraw: true,
                reconnect_pending: false,
                ..*old(state)
            }),
    {
        self.connection_state = ConnectionState::Disconnected(head(reason, REASON_CHARS));
        state.reconnect_pending = false;
        state.needs_redraw = true;
    }

    /// Whether to connect again, asked every few seconds: not while a session is up
    /// or being made.
    pub fn retry_due(&mut self, state: &mut LoopState) -> (r: bool)
        ensures
            r == (!(old(self)@.connection is Connected) && !old(state).reconnect_pending),
            r ==> final(self)@ == (AppModel {
                connection: ConnectionModel::Connecting,
                ..old(self)@
            }) && *final(state) == (LoopState {
                needs_redraw: true,
                reconnect_pending: true,
                ..*old(state)
            }),
            !r ==> final(self)@ == old(self)@ && *final(state) == *old(state),
    {
        if self.is_connected() || state.reconnect_pending {
            return false;
        }
        self.connection_state = ConnectionState::Connecting;
        state.reconnect_pending = true;
        state.needs_redraw = true;
        true
    }
}

/// What is pending is handed out once: right after, nothing is left to hand out.
pub proof fn law_requests_are_handed_out_once(m: AppModel, connected: bool, again: bool)
    ensures
        m.handed_out(connected).requests(again) == Seq::<RequestModel>::empty(),
{
    assert(m.handed_out(connected).requests(again) =~= Seq::<RequestModel>::empty());
}

/// Nothing is put on the network by a session that is not up.
pub proof fn law_no_session_no_put(m: AppModel, i: int)
    requires
        0 <= i < m.requests(false).len(),
    ensures
        !(m.requests(false)[i] is Publish),
        !(m.requests(false)[i] is Query),
{
}

} // verus!
