//! The capture loop of an unattended background recorder.
//!
//! The loop alternates outside work (opening a session, receiving, writing) with
//! decisions. The decisions are here: [`CaptureRun::step`] takes what happened
//! and answers with what to do next, and keeps the status that the tray shows.
//!
//! Retention is enforced once per [`RETENTION_CHECK_NANOS`] instead of once per
//! message: a directory listing per message adds up over hours.
use vstd::prelude::*;

use crate::message::string_view;

verus! {

/// How often retention is enforced while recording: a minute, in nanoseconds.
pub const RETENTION_CHECK_NANOS: u64 = 60_000_000_000;

#[derive(Debug, Clone, Copy, PartialEq, Eq, Structural)]
pub enum CaptureState {
    Starting,
    Running,
    Idle,
    Failed,
}

#[derive(Debug, Clone)]
pub struct CaptureStatus {
    pub state: CaptureState,
    pub profile_name: String,
    pub messages_written: u64,
    /// Approximate total bytes written this session: line lengths summed.
    pub bytes_written: u64,
    /// Milliseconds since the Unix epoch, or `None`.
    pub started_at_ms: Option<u64>,
    pub last_message_at_ms: Option<u64>,
    pub last_error: Option<String>,
}

/// A status, as a mathematical value.
pub struct StatusModel {
    pub state: CaptureState,
    pub profile_name: Seq<char>,
    pub messages_written: u64,
    pub bytes_written: u64,
    pub started_at_ms: Option<u64>,
    pub last_message_at_ms: Option<u64>,
    pub last_error: Option<Seq<char>>,
}

impl View for CaptureStatus {
    type V = StatusModel;

    open spec fn view(&self) -> StatusModel {
        StatusModel {
            state: self.state,
            profile_name: self.profile_name@,
            messages_written: self.messages_written,
            bytes_written: self.bytes_written,
            started_at_ms: self.started_at_ms,
            last_message_at_ms: self.last_message_at_ms,
            last_error: string_view(self.last_error),
        }
    }
}

/// Nothing written, nothing wrong.
pub open spec fn fresh_status(state: CaptureState, profile_name: Seq<char>) -> StatusModel {
    StatusModel {
        state,
        profile_name,
        messages_written: 0,
        bytes_written: 0,
        started_at_ms: None,
        last_message_at_ms: None,
        last_error: None,
    }
}

/// A time as milliseconds since the Unix epoch. `None` stands for a time before
/// it; what does not fit wraps around.
pub fn epoch_millis(since_epoch_ms: Option<u128>) -> (r: Option<u64>)
    ensures
        r == (match since_epoch_ms {
            Some(ms) => Some((ms % 0x1_0000_0000_0000_0000) as u64),
            None => None,
        }),
{
    match since_epoch_ms {
        Some(ms) => {
            let low: u128 = ms % 0x1_0000_0000_0000_0000;
            Some(low as u64)
        },
        None => None,
    }
}

impl CaptureStatus {
    pub fn idle(profile_name: &str) -> (s: CaptureStatus)
        ensures
            s@ == fresh_status(CaptureState::Idle, profile_name@),
    {
        CaptureStatus {
            state: CaptureState::Idle,
            profile_name: profile_name.to_owned(),
            messages_written: 0,
            bytes_written: 0,
            started_at_ms: None,
            last_message_at_ms: None,
            last_error: None,
        }
    }

    pub fn starting(profile_name: &str) -> (s: CaptureStatus)
        ensures
            s@ == fresh_status(CaptureState::Starting, profile_name@),
    {
        CaptureStatus {
            state: CaptureState::Starting,
            profile_name: profile_name.to_owned(),
            messages_written: 0,
            bytes_written: 0,
            started_at_ms: None,
            last_message_at_ms: None,
            last_error: None,
        }
    }
}

/// Where a capture stands.
#[derive(Debug, Clone, Copy, PartialEq, Eq, Structural)]
pub enum CaptureStage {
    /// A session is being opened.
    Connecting,
    /// The subscription is being declared.
    Subscribing,
    /// The segment writer is being opened.
    OpeningWriter,
    /// Waiting for messages or for the stop signal.
    Recording,
    /// A line was written and retention is being enforced before it is counted.
    Retaining { line_bytes: u64, at_ms: Option<u64> },
    /// Flushing and tearing down.
    Ending,
    /// Over.
    Done,
}

/// What happened outside.
#[derive(Debug)]
pub enum CaptureEvent {
    SessionOpened,
    SessionFailed(String),
    Subscribed,
    SubscribeFailed(String),
    WriterOpened { started_at_ms: Option<u64>, now: u64 },
    WriterFailed(String),
    /// The stop flag changed to this value.
    StopSignal(bool),
    /// A message arrived and its line, `line_bytes` long without the newline,
    /// was written.
    LineWritten { line_bytes: usize, at_ms: Option<u64>, now: u64 },
    /// A message arrived and could not be serialised or written.
    LineFailed(String),
    RetentionChecked { now: u64 },
    /// The subscription closed by itself.
    StreamEnded,
    /// Flushed, retention enforced, subscription stopped, session closed.
    Ended { error: Option<String>, is_error: bool },
}

/// What to do next.
#[derive(Debug, Clone, Copy, PartialEq, Eq, Structural)]
pub enum CaptureAction {
    Subscribe,
    OpenWriter,
    /// Wait for the stop signal, then for the next message.
    Wait,
    EnforceRetention,
    /// Flush, enforce retention, stop the subscription and close the session.
    FlushAndStop,
    /// Tear down what was set up so far, and end.
    Abandon { stop_subscription: bool, close_session: bool },
    /// The loop is over.
    Exit,
}

/// A running capture: where it stands and what it shows.
#[derive(Debug)]
pub struct CaptureRun {
    pub stage: CaptureStage,
    pub status: CaptureStatus,
    pub last_retention_check: u64,
}

/// A running capture, as a mathematical value.
pub struct RunModel {
    pub stage: CaptureStage,
    pub status: StatusModel,
    pub last_retention_check: u64,
}

impl View for CaptureRun {
    type V = RunModel;

    open spec fn view(&self) -> RunModel {
        RunModel {
            stage: self.stage,
            status: self.status@,
            last_retention_check: self.last_retention_check,
        }
    }
}

/// A sum that stops at the largest number it can hold.
pub open spec fn sum_up(a: u64, b: int) -> u64 {
    if a + b <= u64::MAX {
        (a + b) as u64
    } else {
        u64::MAX
    }
}

/// The status after a failure.
pub open spec fn failed(s: StatusModel, message: Seq<char>) -> StatusModel {
    StatusModel { state: CaptureState::Failed, last_error: Some(message), ..s }
}

/// The status after a line of this length was counted.
pub open spec fn written(s: StatusModel, line_bytes: int, at_ms: Option<u64>) -> StatusModel {
    StatusModel {
        messages_written: sum_up(s.messages_written, 1),
        bytes_written: sum_up(s.bytes_written, line_bytes + 1),
        last_message_at_ms: at_ms,
        ..s
    }
}

/// How an event moves a capture.
pub open spec fn capture_next(m: RunModel, e: CaptureEvent) -> RunModel {
    match (m.stage, e) {
        (CaptureStage::Connecting, CaptureEvent::SessionOpened) => RunModel {
            stage: CaptureStage::Subscribing,
            ..m
        },
        (CaptureStage::Connecting, CaptureEvent::SessionFailed(err)) => RunModel {
            stage: CaptureStage::Done,
            status: failed(m.status, err@),
            ..m
        },
        (CaptureStage::Subscribing, CaptureEvent::Subscribed) => RunModel {
            stage: CaptureStage::OpeningWriter,
            ..m
        },
        (CaptureStage::Subscribing, CaptureEvent::SubscribeFailed(err)) => RunModel {
            stage: CaptureStage::Done,
            status: failed(m.status, err@),
            ..m
        },
        (CaptureStage::OpeningWriter, CaptureEvent::WriterOpened { started_at_ms, now }) => RunModel {
            stage: CaptureStage::Recording,
            status: StatusModel { state: CaptureState::Running, started_at_ms, ..m.status },
            last_retention_check: now,
        },
        (CaptureStage::OpeningWriter, CaptureEvent::WriterFailed(err)) => RunModel {
            stage: CaptureStage::Done,
            status: failed(m.status, err@),
            ..m
        },
        (CaptureStage::Recording, CaptureEvent::StopSignal(true)) => RunModel {
            stage: CaptureStage::Ending,
            ..m
        },
        (CaptureStage::Recording, CaptureEvent::StreamEnded) => RunModel {
            stage: CaptureStage::Ending,
            ..m
        },
        (CaptureStage::Recording, CaptureEvent::LineFailed(err)) => RunModel {
            status: StatusModel { last_error: Some(err@), ..m.status },
            ..m
        },
        (CaptureStage::Recording, CaptureEvent::LineWritten { line_bytes, at_ms, now }) => if retention_due(
        m, now) {
            RunModel {
                stage: CaptureStage::Retaining { line_bytes: line_bytes as u64, at_ms },
                ..m
            }
        } else {
            RunModel { status: written(m.status, line_bytes as int, at_ms), ..m }
        },
        (
            CaptureStage::Retaining { line_bytes, at_ms },
            CaptureEvent::RetentionChecked { now },
        ) => RunModel {
            stage: CaptureStage::Recording,
            status: written(m.status, line_bytes as int, at_ms),
            last_retention_check: now,
        },
        (CaptureStage::Ending, CaptureEvent::Ended { error, is_error }) => RunModel {
            stage: CaptureStage::Done,
            status: StatusModel {
                state: if is_error {
                    CaptureState::Failed
                } else {
                    CaptureState::Idle
                },
                last_error: match error {
                    Some(err) => Some(err@),
                    None => m.status.last_error,
                },
                ..m.status
            },
            ..m
        },
        _ => m,
    }
}

/// Whether retention was last enforced long enough ago.
pub open spec fn retention_due(m: RunModel, now: u64) -> bool {
    now >= m.last_retention_check && now - m.last_retention_check >= RETENTION_CHECK_NANOS
}

/// What an event asks for.
pub open spec fn capture_action(m: RunModel, e: CaptureEvent) -> CaptureAction {
    match (m.stage, e) {
        (CaptureStage::Connecting, CaptureEvent::SessionOpened) => CaptureAction::Subscribe,
        (CaptureStage::Connecting, CaptureEvent::SessionFailed(_)) => CaptureAction::Abandon {
            stop_subscription: false,
            close_session: false,
        },
        (CaptureStage::Subscribing, CaptureEvent::Subscribed) => CaptureAction::OpenWriter,
        (CaptureStage::Subscribing, CaptureEvent::SubscribeFailed(_)) => CaptureAction::Abandon {
            stop_subscription: false,
            close_session: true,
        },
        (CaptureStage::OpeningWriter, CaptureEvent::WriterFailed(_)) => CaptureAction::Abandon {
            stop_subscription: true,
            close_session: true,
        },
        (CaptureStage::Recording, CaptureEvent::StopSignal(true)) => CaptureAction::FlushAndStop,
        (CaptureStage::Recording, CaptureEvent::StreamEnded) => CaptureAction::FlushAndStop,
        (CaptureStage::Recording, CaptureEvent::LineWritten { now, .. }) => if retention_due(
        m, now) {
            CaptureAction::EnforceRetention
        } else {
            CaptureAction::Wait
        },
        (CaptureStage::Ending, CaptureEvent::Ended { .. }) => CaptureAction::Exit,
        (CaptureStage::Done, _) => CaptureAction::Exit,
        _ => CaptureAction::Wait,
    }
}

impl CaptureRun {
    /// A capture that is about to open its session.
    pub fn new(profile_name: &str) -> (r: CaptureRun)
        ensures
            r@.stage == CaptureStage::Connecting,
            r@.status == fresh_status(CaptureState::Starting, profile_name@),
            r@.last_retention_check == 0,
    {
        CaptureRun {
            stage: CaptureStage::Connecting,
            status: CaptureStatus::starting(profile_name),
            last_retention_check: 0,
        }
    }

    fn fail(&mut self, message: String)
        ensures
            final(self)@ == (RunModel {
                stage: CaptureStage::Done,
                status: failed(old(self)@.status, message@),
                ..old(self)@
            }),
    {
        self.stage = CaptureStage::Done;
        self.status.state = CaptureState::Failed;
        self.status.last_error = Some(message);
    }

    fn count_line(&mut self, line_bytes: u64, at_ms: Option<u64>)
        ensures
            final(self)@ == (RunModel {
                status: written(old(self)@.status, line_bytes as int, at_ms),
                ..old(self)@
            }),
    {
        self.status.messages_written = self.status.messages_written.saturating_add(1);
        // The newline counts too.
        self.status.bytes_written = self.status.bytes_written.saturating_add(line_bytes).saturating_add(1);
        self.status.last_message_at_ms = at_ms;
    }

    /// Takes what happened and answers with what to do next.
    pub fn step(&mut self, event: CaptureEvent) -> (action: CaptureAction)
        ensures
            final(self)@ == capture_next(old(self)@, event),
            action == capture_action(old(self)@, event),
    {
        match (self.stage, event) {
            (CaptureStage::Connecting, CaptureEvent::SessionOpened) => {
                self.stage = CaptureStage::Subscribing;
                CaptureAction::Subscribe
            },
            (CaptureStage::Connecting, CaptureEvent::SessionFailed(err)) => {
                self.fail(err);
                CaptureAction::Abandon { stop_subscription: false, close_session: false }
            },
            (CaptureStage::Subscribing, CaptureEvent::Subscribed) => {
                self.stage = CaptureStage::OpeningWriter;
                CaptureAction::OpenWriter
            },
            (CaptureStage::Subscribing, CaptureEvent::SubscribeFailed(err)) => {
                self.fail(err);
                CaptureAction::Abandon { stop_subscription: false, close_session: true }
            },
            (CaptureStage::OpeningWriter, CaptureEvent::WriterOpened { started_at_ms, now }) => {
                self.stage = CaptureStage::Recording;
                self.status.state = CaptureState::Running;
                self.status.started_at_ms = started_at_ms;
                self.last_retention_check = now;
                CaptureAction::Wait
            },
            (CaptureStage::OpeningWriter, CaptureEvent::WriterFailed(err)) => {
                self.fail(err);
                CaptureAction::Abandon { stop_subscription: true, close_session: true }
            },
            (CaptureStage::Recording, CaptureEvent::StopSignal(true)) => {
                self.stage = CaptureStage::Ending;
                CaptureAction::FlushAndStop
            },
            (CaptureStage::Recording, CaptureEvent::StreamEnded) => {
                self.stage = CaptureStage::Ending;
                CaptureAction::FlushAndStop
            },
            (CaptureStage::Recording, CaptureEvent::LineFailed(err)) => {
                self.status.last_error = Some(err);
                CaptureAction::Wait
            },
            (
                CaptureStage::Recording,
                CaptureEvent::LineWritten { line_bytes, at_ms, now },
            ) => {
                if now >= self.last_retention_check && now - self.last_retention_check
                    >= RETENTION_CHECK_NANOS {
                    self.stage = CaptureStage::Retaining { line_bytes: line_bytes as u64, at_ms };
                    CaptureAction::EnforceRetention
                } else {
                    self.count_line(line_bytes as u64, at_ms);
                    CaptureAction::Wait
                }
            },
            (
                CaptureStage::Retaining { line_bytes, at_ms },
                CaptureEvent::RetentionChecked { now },
            ) => {
                self.stage = CaptureStage::Recording;
                self.last_retention_check = now;
                self.count_line(line_bytes, at_ms);
                CaptureAction::Wait
            },
            (CaptureStage::Ending, CaptureEvent::Ended { error, is_error }) => {
                self.stage = CaptureStage::Done;
                if let Some(err) = error {
                    self.status.last_error = Some(err);
                }
                self.status.state = if is_error {
                    CaptureState::Failed
                } else {
                    CaptureState::Idle
                };
                CaptureAction::Exit
            },
            (CaptureStage::Done, _) => CaptureAction::Exit,
            _ => CaptureAction::Wait,
        }
    }
}

// ---------------------------------------------------------------------------
// Laws
// ---------------------------------------------------------------------------

/// The states a status shows at each stage.
pub open spec fn shows_its_stage(m: RunModel) -> bool {
    match m.stage {
        CaptureStage::Connecting | CaptureStage::Subscribing | CaptureStage::OpeningWriter =>
            m.status.state == CaptureState::Starting,
        CaptureStage::Recording | CaptureStage::Retaining { .. } | CaptureStage::Ending =>
            m.status.state == CaptureState::Running,
        CaptureStage::Done => m.status.state == CaptureState::Idle || m.status.state
            == CaptureState::Failed,
    }
}

/// Whatever happens, the status says starting until the writer is open, running
/// until the teardown is over, and idle or failed after that.
pub proof fn law_status_follows_the_stage(m: RunModel, e: CaptureEvent)
    requires
        shows_its_stage(m),
    ensures
        shows_its_stage(capture_next(m, e)),
{
}

/// A capture that is over stays as it is.
pub proof fn law_done_is_final(m: RunModel, e: CaptureEvent)
    requires
        m.stage == CaptureStage::Done,
    ensures
        capture_next(m, e) == m,
        capture_action(m, e) == CaptureAction::Exit,
{
}

/// A session that was opened is closed again: a capture ends before its teardown
/// only where something failed to open, and then asks for what was open to be
/// closed.
pub proof fn law_what_was_opened_is_closed(m: RunModel, e: CaptureEvent)
    requires
        m.stage != CaptureStage::Done,
        capture_next(m, e).stage == CaptureStage::Done,
    ensures
        match m.stage {
            CaptureStage::Ending => capture_action(m, e) == CaptureAction::Exit,
            CaptureStage::Connecting => capture_action(m, e) == (CaptureAction::Abandon {
                stop_subscription: false,
                close_session: false,
            }),
            CaptureStage::Subscribing => capture_action(m, e) == (CaptureAction::Abandon {
                stop_subscription: false,
                close_session: true,
            }),
            _ => capture_action(m, e) == (CaptureAction::Abandon {
                stop_subscription: true,
                close_session: true,
            }),
        },
{
}

} // verus!
