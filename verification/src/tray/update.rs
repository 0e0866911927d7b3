//! Tray self-update.
//!
//! Releases are version-locked (one tag, one release), so a single check answers
//! for the tray *and* the bundled CLI: the installer it downloads carries the
//! matching command-line tool.
use vstd::prelude::*;

use crate::message::string_view;
use crate::tray::state::error_view;

verus! {

/// Progress during a download is reported once per this many nanoseconds: one
/// event per received chunk would hammer the display for no visible benefit.
pub const PROGRESS_NANOS: u64 = 200_000_000;

/// The parts of an update.
#[derive(Debug, Clone, Copy, PartialEq, Eq, Structural)]
pub enum Phase {
    Idle,
    Checking,
    UpToDate,
    Available,
    Downloading,
    Installing,
    Error,
}

/// The name of a phase as the settings window reads it.
pub open spec fn phase_name(phase: Phase) -> Seq<char> {
    match phase {
        Phase::Idle => "idle"@,
        Phase::Checking => "checking"@,
        Phase::UpToDate => "up_to_date"@,
        Phase::Available => "available"@,
        Phase::Downloading => "downloading"@,
        Phase::Installing => "installing"@,
        Phase::Error => "error"@,
    }
}

impl Phase {
    /// The name of the phase as the settings window reads it.
    pub fn name(self) -> (s: String)
        ensures
            s@ == phase_name(self),
    {
        match self {
            Phase::Idle => "idle".to_owned(),
            Phase::Checking => "checking".to_owned(),
            Phase::UpToDate => "up_to_date".to_owned(),
            Phase::Available => "available".to_owned(),
            Phase::Downloading => "downloading".to_owned(),
            Phase::Installing => "installing".to_owned(),
            Phase::Error => "error".to_owned(),
        }
    }
}

#[derive(Debug, Clone)]
pub struct UpdateStatus {
    /// "idle" | "checking" | "up_to_date" | "available" | "downloading"
    /// | "installing" | "error"
    pub phase: String,
    pub current_version: String,
    pub available_version: Option<String>,
    pub downloaded: Option<u64>,
    pub total: Option<u64>,
    pub message: Option<String>,
}

/// An update status, as a mathematical value.
pub struct UpdateModel {
    pub phase: Seq<char>,
    pub current_version: Seq<char>,
    pub available_version: Option<Seq<char>>,
    pub downloaded: Option<u64>,
    pub total: Option<u64>,
    pub message: Option<Seq<char>>,
}

impl View for UpdateStatus {
    type V = UpdateModel;

    open spec fn view(&self) -> UpdateModel {
        UpdateModel {
            phase: self.phase@,
            current_version: self.current_version@,
            available_version: string_view(self.available_version),
            downloaded: self.downloaded,
            total: self.total,
            message: string_view(self.message),
        }
    }
}

/// A status that says no more than its phase.
pub open spec fn plain_status(phase: Phase, version: Seq<char>) -> UpdateModel {
    UpdateModel {
        phase: phase_name(phase),
        current_version: version,
        available_version: None,
        downloaded: None,
        total: None,
        message: None,
    }
}

/// A status about an update that was found.
pub open spec fn about(phase: Phase, version: Seq<char>, found: Seq<char>) -> UpdateModel {
    UpdateModel { available_version: Some(found), ..plain_status(phase, version) }
}

/// A status that reports an error.
pub open spec fn troubled(version: Seq<char>, message: Seq<char>) -> UpdateModel {
    UpdateModel { message: Some(message), ..plain_status(Phase::Error, version) }
}

impl Default for UpdateStatus {
    /// A status before anything was reported.
    fn default() -> (s: UpdateStatus)
        ensures
            s@ == (UpdateModel {
                phase: Seq::empty(),
                current_version: Seq::empty(),
                available_version: None,
                downloaded: None,
                total: None,
                message: None,
            }),
    {
        UpdateStatus {
            phase: String::new(),
            current_version: String::new(),
            available_version: None,
            downloaded: None,
            total: None,
            message: None,
        }
    }
}

impl UpdateStatus {
    /// A status that says no more than its phase.
    pub fn new(phase: Phase, version: &str) -> (s: UpdateStatus)
        ensures
            s@ == plain_status(phase, version@),
    {
        UpdateStatus {
            phase: phase.name(),
            current_version: version.to_owned(),
            available_version: None,
            downloaded: None,
            total: None,
            message: None,
        }
    }

    /// A status about an update that was found.
    pub fn found(phase: Phase, version: &str, found: &str) -> (s: UpdateStatus)
        ensures
            s@ == about(phase, version@, found@),
    {
        let mut s = UpdateStatus::new(phase, version);
        s.available_version = Some(found.to_owned());
        s
    }

    /// A status that reports an error.
    pub fn error(version: &str, message: &str) -> (s: UpdateStatus)
        ensures
            s@ == troubled(version@, message@),
    {
        let mut s = UpdateStatus::new(Phase::Error, version);
        s.message = Some(message.to_owned());
        s
    }

    /// A copy of the status.
    pub fn duplicate(&self) -> (s: UpdateStatus)
        ensures
            s@ == self@,
    {
        let available_version = match &self.available_version {
            Some(v) => Some(v.clone()),
            None => None,
        };
        let message = match &self.message {
            Some(v) => Some(v.clone()),
            None => None,
        };
        UpdateStatus {
            phase: self.phase.clone(),
            current_version: self.current_version.clone(),
            available_version,
            downloaded: self.downloaded,
            total: self.total,
            message,
        }
    }
}

/// What the settings window paints on (re)open: the last status that was pushed,
/// or an idle one where none was.
pub fn current_status(last: Option<&UpdateStatus>, version: &str) -> (s: UpdateStatus)
    ensures
        s@ == (match last {
            Some(l) => if l@.phase.len() == 0 {
                plain_status(Phase::Idle, version@)
            } else {
                l@
            },
            None => plain_status(Phase::Idle, version@),
        }),
{
    match last {
        Some(l) => if l.phase.as_str().is_empty() {
            UpdateStatus::new(Phase::Idle, version)
        } else {
            l.duplicate()
        },
        None => UpdateStatus::new(Phase::Idle, version),
    }
}

/// A dev binary must never install a release over itself.
pub fn reject_dev_build(dev: bool) -> (r: Result<(), String>)
    ensures
        error_view(r) == (if dev {
            Some(dev_refusal())
        } else {
            None
        }),
{
    if dev {
        return Err(
            "this is a dev build — self-update is disabled so it can't overwrite itself with a release install. Use `npm run tauri build`.".to_owned(),
        );
    }
    Ok(())
}

pub open spec fn dev_refusal() -> Seq<char> {
    "this is a dev build — self-update is disabled so it can't overwrite itself with a release install. Use `npm run tauri build`."@
}

/// The release manifest only carries the Windows installer; saying so beats
/// surfacing the updater's "platform not found" error.
pub fn reject_unsupported_platform(windows: bool) -> (r: Result<(), String>)
    ensures
        error_view(r) == (if windows {
            None
        } else {
            Some(platform_refusal())
        }),
{
    if windows {
        Ok(())
    } else {
        Err(
            "tray self-update is Windows-only for now — update this tray with `zenmon update apply` instead".to_owned(),
        )
    }
}

pub open spec fn platform_refusal() -> Seq<char> {
    "tray self-update is Windows-only for now — update this tray with `zenmon update apply` instead"@
}

/// Why an update cannot even be looked for, if it cannot.
pub open spec fn refusal(dev: bool, windows: bool) -> Option<Seq<char>> {
    if dev {
        Some(dev_refusal())
    } else if !windows {
        Some(platform_refusal())
    } else {
        None
    }
}

/// Whether this binary can update itself at all.
pub fn guard(dev: bool, windows: bool) -> (r: Result<(), String>)
    ensures
        error_view(r) == refusal(dev, windows),
{
    match reject_dev_build(dev) {
        Err(e) => Err(e),
        Ok(()) => reject_unsupported_platform(windows),
    }
}

/// What the release endpoint answered, as a status to show: the version it
/// found, nothing newer, or an error.
pub fn checked(answer: &Result<Option<String>, String>, version: &str) -> (s: UpdateStatus)
    ensures
        s@ == check_status(*answer, version@),
{
    match answer {
        Ok(Some(found)) => UpdateStatus::found(Phase::Available, version, found.as_str()),
        Ok(None) => UpdateStatus::new(Phase::UpToDate, version),
        Err(e) => UpdateStatus::error(version, e.as_str()),
    }
}

pub open spec fn check_status(
    answer: Result<Option<String>, String>,
    version: Seq<char>,
) -> UpdateModel {
    match answer {
        Ok(Some(found)) => about(Phase::Available, version, found@),
        Ok(None) => plain_status(Phase::UpToDate, version),
        Err(e) => troubled(version, e@),
    }
}

/// Counts what has been downloaded and reports it at a readable rate.
#[derive(Debug, Clone, Copy, PartialEq, Eq, Structural)]
pub struct Progress {
    pub downloaded: u64,
    pub last_pushed: Option<u64>,
}

/// Whether a report is due: the first one always is.
pub open spec fn progress_due(p: Progress, now: u64) -> bool {
    match p.last_pushed {
        Some(at) => now >= at && now - at >= PROGRESS_NANOS,
        None => true,
    }
}

impl Progress {
    pub fn new() -> (p: Progress)
        ensures
            p.downloaded == 0,
            p.last_pushed is None,
    {
        Progress { downloaded: 0, last_pushed: None }
    }

    /// Counts a chunk that arrived at `now`, and gives the status to push, if
    /// one is due.
    pub fn chunk(
        &mut self,
        bytes: usize,
        content_length: Option<u64>,
        now: u64,
        version: &str,
        found: &str,
    ) -> (r: Option<UpdateStatus>)
        ensures
            final(self).downloaded == crate::tray::capture::sum_up(old(self).downloaded, bytes as int),
            progress_due(*old(self), now) ==> {
                &&& final(self).last_pushed == Some(now)
                &&& match r {
                    Some(s) => s@ == (UpdateModel {
                        downloaded: Some(final(self).downloaded),
                        total: content_length,
                        ..about(Phase::Downloading, version@, found@)
                    }),
                    None => false,
                }
            },
            !progress_due(*old(self), now) ==> r is None && final(self).last_pushed == old(
                self,
            ).last_pushed,
    {
        self.downloaded = self.downloaded.saturating_add(bytes as u64);
        let due = match self.last_pushed {
            Some(at) => now >= at && now - at >= PROGRESS_NANOS,
            None => true,
        };
        if !due {
            return None;
        }
        self.last_pushed = Some(now);
        let mut s = UpdateStatus::found(Phase::Downloading, version, found);
        s.downloaded = Some(self.downloaded);
        s.total = content_length;
        Some(s)
    }
}

// ---------------------------------------------------------------------------
// Applying an update
// ---------------------------------------------------------------------------

/// Where applying an update stands.
#[derive(Debug)]
pub enum ApplyStage {
    /// Nothing asked for yet.
    Start,
    /// No update was at hand, so the endpoint is being asked.
    Checking,
    /// An update is being downloaded.
    Downloading,
    /// A running capture is being closed.
    Parking,
    /// The installer is running.
    Installing,
    /// Over.
    Done,
}

/// What happened outside.
#[derive(Debug)]
pub enum ApplyEvent {
    /// The update was asked for, with the version at hand from an earlier check.
    Requested { pending: Option<String> },
    /// The endpoint answered.
    Checked(Result<Option<String>, String>),
    /// The download ended.
    Downloaded(Result<(), String>),
    /// No capture is running any more.
    Parked,
    /// The installer returned without ending this process.
    Installed(Result<(), String>),
}

/// What to do next.
#[derive(Debug)]
pub enum ApplyAction {
    /// Ask the endpoint.
    Check,
    /// Push a status and download this version.
    Download { status: UpdateStatus },
    /// Close a running capture cleanly.
    ParkCapture,
    /// Push a status and run the installer.
    Install { status: UpdateStatus },
    /// Give up with this message; a status may have to be pushed first.
    Refuse { message: String, shown: Option<UpdateStatus> },
    /// The new binary takes over.
    Restart,
    Nothing,
}

/// What decides about an update besides what happens during it.
#[derive(Debug, Clone, Copy, PartialEq, Eq, Structural)]
pub struct ApplyContext {
    pub dev: bool,
    pub windows: bool,
    /// A capture exists.
    pub capturing: bool,
    /// The user has agreed to interrupt it.
    pub confirmed: bool,
}

/// The stage that follows.
pub open spec fn apply_next(stage: ApplyStage, ctx: ApplyContext, e: ApplyEvent) -> ApplyStage {
    match (stage, e) {
        (ApplyStage::Start, ApplyEvent::Requested { pending }) => if refusal(
        ctx.dev, ctx.windows) is Some {
            ApplyStage::Done
        } else {
            match pending {
                Some(_) => if ctx.capturing && !ctx.confirmed {
                    ApplyStage::Done
                } else {
                    ApplyStage::Downloading
                },
                None => ApplyStage::Checking,
            }
        },
        (ApplyStage::Checking, ApplyEvent::Checked(answer)) => match answer {
            Ok(Some(_)) => if ctx.capturing && !ctx.confirmed {
                ApplyStage::Done
            } else {
                ApplyStage::Downloading
            },
            _ => ApplyStage::Done,
        },
        (ApplyStage::Downloading, ApplyEvent::Downloaded(Ok(_))) => ApplyStage::Parking,
        (ApplyStage::Downloading, ApplyEvent::Downloaded(Err(_))) => ApplyStage::Done,
        (ApplyStage::Parking, ApplyEvent::Parked) => ApplyStage::Installing,
        (ApplyStage::Installing, ApplyEvent::Installed(_)) => ApplyStage::Done,
        (s, _) => s,
    }
}

/// What begins a download of `found`, or refuses it while a capture runs.
pub open spec fn begins(
    action: ApplyAction,
    ctx: ApplyContext,
    version: Seq<char>,
    found: Seq<char>,
) -> bool {
    if ctx.capturing && !ctx.confirmed {
        match action {
            ApplyAction::Refuse { message, shown } => message@ == "capture-running"@
                && shown is None,
            _ => false,
        }
    } else {
        match action {
            ApplyAction::Download { status } => status@ == about(
                Phase::Downloading,
                version,
                found,
            ),
            _ => false,
        }
    }
}

/// Refuses with an error that is shown.
pub open spec fn gives_up(action: ApplyAction, version: Seq<char>, error: Seq<char>) -> bool {
    match action {
        ApplyAction::Refuse { message, shown: Some(s) } => message@ == error && s@ == troubled(
            version,
            error,
        ),
        _ => false,
    }
}

/// Whether `action` is what `e` asks for.
pub open spec fn apply_answers(
    stage: ApplyStage,
    ctx: ApplyContext,
    version: Seq<char>,
    e: ApplyEvent,
    action: ApplyAction,
) -> bool {
    match (stage, e) {
        (ApplyStage::Start, ApplyEvent::Requested { pending }) => match refusal(
            ctx.dev,
            ctx.windows,
        ) {
            Some(why) => match action {
                ApplyAction::Refuse { message, shown } => message@ == why && shown is None,
                _ => false,
            },
            None => match pending {
                Some(found) => begins(action, ctx, version, found@),
                None => action is Check,
            },
        },
        (ApplyStage::Checking, ApplyEvent::Checked(answer)) => match answer {
            Ok(Some(found)) => begins(action, ctx, version, found@),
            Ok(None) => match action {
                ApplyAction::Refuse { message, shown } => message@ == "already up to date"@
                    && shown is None,
                _ => false,
            },
            Err(e) => match action {
                ApplyAction::Refuse { message, shown } => message@ == e@ && shown is None,
                _ => false,
            },
        },
        (ApplyStage::Downloading, ApplyEvent::Downloaded(Ok(_))) => action is ParkCapture,
        (ApplyStage::Downloading, ApplyEvent::Downloaded(Err(e))) => gives_up(action, version, e@),
        (ApplyStage::Parking, ApplyEvent::Parked) => match action {
            ApplyAction::Install { status } => status@ == plain_status(Phase::Installing, version),
            _ => false,
        },
        (ApplyStage::Installing, ApplyEvent::Installed(Ok(_))) => action is Restart,
        (ApplyStage::Installing, ApplyEvent::Installed(Err(e))) => gives_up(action, version, e@),
        _ => action is Nothing,
    }
}

fn begin_download(ctx: ApplyContext, version: &str, found: &str) -> (r: (ApplyStage, ApplyAction))
    ensures
        begins(r.1, ctx, version@, found@),
        r.0 == (if ctx.capturing && !ctx.confirmed {
            ApplyStage::Done
        } else {
            ApplyStage::Downloading
        }),
{
    if ctx.capturing && !ctx.confirmed {
        // The settings window recognises this and asks. It is raised before any
        // download: the answer may be "not now", and then the bandwidth would
        // have been spent for nothing.
        (
            ApplyStage::Done,
            ApplyAction::Refuse { message: "capture-running".to_owned(), shown: None },
        )
    } else {
        (
            ApplyStage::Downloading,
            ApplyAction::Download {
                status: UpdateStatus::found(Phase::Downloading, version, found),
            },
        )
    }
}

fn give_up(version: &str, error: String) -> (a: ApplyAction)
    ensures
        gives_up(a, version@, error@),
{
    let status = UpdateStatus::error(version, error.as_str());
    ApplyAction::Refuse { message: error, shown: Some(status) }
}

/// One step of downloading and installing an update.
///
/// The download comes first, while a running capture keeps running: a failed or
/// aborted download must leave the app exactly as it was. Then the capture is
/// closed cleanly and the installer takes over.
pub fn apply_step(
    stage: ApplyStage,
    ctx: ApplyContext,
    version: &str,
    event: ApplyEvent,
) -> (r: (ApplyStage, ApplyAction))
    ensures
        r.0 == apply_next(stage, ctx, event),
        apply_answers(stage, ctx, version@, event, r.1),
{
    match (stage, event) {
        (ApplyStage::Start, ApplyEvent::Requested { pending }) => {
            if let Err(e) = guard(ctx.dev, ctx.windows) {
                return (ApplyStage::Done, ApplyAction::Refuse { message: e, shown: None });
            }
            match pending {
                Some(found) => begin_download(ctx, version, found.as_str()),
                None => (ApplyStage::Checking, ApplyAction::Check),
            }
        },
        (ApplyStage::Checking, ApplyEvent::Checked(answer)) => match answer {
            Ok(Some(found)) => begin_download(ctx, version, found.as_str()),
            Ok(None) => (
                ApplyStage::Done,
                ApplyAction::Refuse { message: "already up to date".to_owned(), shown: None },
            ),
            Err(e) => (ApplyStage::Done, ApplyAction::Refuse { message: e, shown: None }),
        },
        (ApplyStage::Downloading, ApplyEvent::Downloaded(outcome)) => match outcome {
            Ok(_) => (ApplyStage::Parking, ApplyAction::ParkCapture),
            Err(e) => (ApplyStage::Done, give_up(version, e)),
        },
        (ApplyStage::Parking, ApplyEvent::Parked) => (
            ApplyStage::Installing,
            ApplyAction::Install { status: UpdateStatus::new(Phase::Installing, version) },
        ),
        (ApplyStage::Installing, ApplyEvent::Installed(outcome)) => match outcome {
            Ok(_) => (ApplyStage::Done, ApplyAction::Restart),
            Err(e) => (ApplyStage::Done, give_up(version, e)),
        },
        (s, _) => (s, ApplyAction::Nothing),
    }
}

/// A capture is only ever closed for an update after its download succeeded, and
/// a capture that runs is not interrupted unless the user agreed.
pub proof fn law_a_running_capture_is_not_interrupted_unasked(
    stage: ApplyStage,
    ctx: ApplyContext,
    e: ApplyEvent,
)
    requires
        ctx.capturing,
        !ctx.confirmed,
        stage is Start || stage is Checking,
    ensures
        !(apply_next(stage, ctx, e) is Downloading),
        !(apply_next(stage, ctx, e) is Parking),
        !(apply_next(stage, ctx, e) is Installing),
{
}

/// A capture is closed only once the download has succeeded.
pub proof fn law_download_comes_before_closing_the_capture(
    stage: ApplyStage,
    ctx: ApplyContext,
    version: Seq<char>,
    e: ApplyEvent,
    action: ApplyAction,
)
    requires
        apply_answers(stage, ctx, version, e, action),
        action is ParkCapture,
    ensures
        stage is Downloading,
        e is Downloaded,
        e->Downloaded_0 is Ok,
{
}

} // verus!
