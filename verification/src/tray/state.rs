//! Shared recorder state plus the operations both the tray menu and the settings
//! window drive. Keeping them in one place means the two entry points can't
//! drift — clicking "Capture" in the tray and toggling it in the settings window
//! run exactly the same code.
use vstd::prelude::*;

use crate::diff::text_view;
use crate::keyed::KeySet;
use crate::text::{
    cat, cat3, cat4, decimal, decimal_text, lowercase, lowercased, same, trim, trimmed,
};
use crate::tray::capture::{fresh_status, CaptureState, CaptureStatus, StatusModel};
use crate::tray::config::{
    find_profile, profile_index, profile_models, AppConfig, ConfigModel, Profile, ProfileModel, resumes,
};

verus! {

/// How often a *running* capture's counters are allowed to reach the tray and
/// the settings window: a second, in nanoseconds. State transitions bypass this.
pub const VISUAL_REFRESH_NANOS: u64 = 1_000_000_000;

// ---------------------------------------------------------------------------
// Validation
// ---------------------------------------------------------------------------

/// What is wrong with the profile at `i`, given those before it.
pub open spec fn profile_problem(profiles: Seq<ProfileModel>, i: int) -> Option<Seq<char>> {
    let p = profiles[i];
    let name = trimmed(p.name);
    if name.len() == 0 {
        Some("a profile has an empty name"@)
    } else if exists|j: int| 0 <= j < i && same_name(profiles, j, i) {
        Some("two profiles are named \""@ + name + "\""@)
    } else if trimmed(p.key_expr).len() == 0 {
        Some(
            "profile \""@ + name
                + "\": key expression is empty — nothing would be recorded. Use ** to record everything"@,
        )
    } else if p.mode == "client"@ && trimmed(p.endpoint).len() == 0 {
        Some("profile \""@ + name + "\": an endpoint is required in client mode"@)
    } else if p.output_dir.len() == 0 {
        Some("profile \""@ + name + "\": output directory is empty"@)
    } else {
        None
    }
}

/// Whether two profiles have the same name, apart from case and outer spaces.
pub open spec fn same_name(profiles: Seq<ProfileModel>, i: int, j: int) -> bool {
    lowercased(trimmed(profiles[i].name)) == lowercased(trimmed(profiles[j].name))
}

/// The first problem from position `i` on.
pub open spec fn problem_from(profiles: Seq<ProfileModel>, i: int) -> Option<Seq<char>>
    decreases profiles.len() - i,
{
    if i < 0 || i >= profiles.len() {
        None
    } else {
        match profile_problem(profiles, i) {
            Some(e) => Some(e),
            None => problem_from(profiles, i + 1),
        }
    }
}

/// What is wrong with a configuration.
pub open spec fn config_problem(profiles: Seq<ProfileModel>) -> Option<Seq<char>> {
    if profiles.len() == 0 {
        Some("at least one profile is required"@)
    } else {
        problem_from(profiles, 0)
    }
}

/// The text of an error.
pub open spec fn error_view<T>(r: Result<T, String>) -> Option<Seq<char>> {
    match r {
        Ok(_) => None,
        Err(e) => Some(e@),
    }
}

/// Reject configs that would save fine and then fail at capture start.
///
/// Without this, an empty key expression (say) is accepted silently and the
/// failure surfaces minutes or days later when capture is toggled — far from
/// the edit that caused it. The error belongs next to the Save button.
pub fn validate_config(config: &AppConfig) -> (r: Result<(), String>)
    ensures
        error_view(r) == config_problem(config@.profiles),
{
    if config.profiles.len() == 0 {
        return Err("at least one profile is required".to_owned());
    }
    let ghost all = profile_models(config.profiles@);
    let mut seen = KeySet::new();
    let mut i: usize = 0;
    while i < config.profiles.len()
        invariant
            i <= config.profiles.len(),
            all == profile_models(config.profiles@),
            all.len() == config.profiles@.len(),
            all.len() > 0,
            config@.profiles == all,
            config_problem(all) == problem_from(all, i as int),
            forall|x: Seq<char>|
                seen@.contains(x) <==> exists|j: int|
                    0 <= j < i && x == #[trigger] lowercased(trimmed(all[j].name)),
        decreases config.profiles.len() - i,
    {
        let profile = &config.profiles[i];
        assert(all[i as int] == profile@);
        let name = trim(profile.name.as_str());
        if name.as_str().is_empty() {
            return Err("a profile has an empty name".to_owned());
        }
        let folded = lowercase(name.as_str());
        let taken = seen.contains(folded.as_str());
        proof {
            if taken {
                let j = choose|j: int|
                    0 <= j < i && folded@ == #[trigger] lowercased(trimmed(all[j].name));
                assert(same_name(all, j, i as int));
            } else {
                assert forall|j: int| 0 <= j < i implies !same_name(all, j, i as int) by {
                    if same_name(all, j, i as int) {
                        assert(folded@ == lowercased(trimmed(all[j].name)));
                    }
                }
            }
        }
        if taken {
            return Err(cat3("two profiles are named \"", name.as_str(), "\""));
        }
        let ghost seen0 = seen@;
        seen.insert(folded);
        proof {
            assert forall|x: Seq<char>|
                seen@.contains(x) <==> exists|j: int|
                    0 <= j < i + 1 && x == #[trigger] lowercased(trimmed(all[j].name)) by {
                if seen@.contains(x) {
                    if seen0.contains(x) {
                        let j = choose|j: int|
                            0 <= j < i && x == #[trigger] lowercased(trimmed(all[j].name));
                        assert(0 <= j < i + 1);
                    } else {
                        assert(x == lowercased(trimmed(all[i as int].name)));
                    }
                }
                if exists|j: int|
                    0 <= j < i + 1 && x == #[trigger] lowercased(trimmed(all[j].name)) {
                    let j = choose|j: int|
                        0 <= j < i + 1 && x == #[trigger] lowercased(trimmed(all[j].name));
                    if j < i {
                        assert(seen0.contains(x));
                    }
                }
            }
        }
        if trim(profile.key_expr.as_str()).as_str().is_empty() {
            return Err(
                cat3(
                    "profile \"",
                    name.as_str(),
                    "\": key expression is empty — nothing would be recorded. Use ** to record everything",
                ),
            );
        }
        if same(profile.mode.as_str(), "client") && trim(
            profile.endpoint.as_str(),
        ).as_str().is_empty() {
            return Err(
                cat3("profile \"", name.as_str(), "\": an endpoint is required in client mode"),
            );
        }
        if profile.output_dir.as_str().is_empty() {
            return Err(cat3("profile \"", name.as_str(), "\": output directory is empty"));
        }
        i += 1;
    }
    Ok(())
}

// ---------------------------------------------------------------------------
// State
// ---------------------------------------------------------------------------

/// The recorder as the tray and the settings window see it.
pub struct TrayState {
    pub config: AppConfig,
    /// The state its task last reported, where a capture was started. A task
    /// that has already ended — Failed, or Idle once the stream closed on its
    /// own — is a report, not a running capture.
    pub capture: Option<CaptureState>,
    /// Last capture state actually pushed to the tray icon. Every icon update
    /// repaints it, so re-sending the same one at message rate makes it visibly
    /// flicker — this lets the tray skip no-op icon updates.
    pub tray_icon_state: Option<CaptureState>,
}

/// The recorder, as a mathematical value.
pub struct TrayModel {
    pub config: ConfigModel,
    pub capture: Option<CaptureState>,
    pub tray_icon_state: Option<CaptureState>,
}

impl View for TrayState {
    type V = TrayModel;

    open spec fn view(&self) -> TrayModel {
        TrayModel {
            config: self.config@,
            capture: self.capture,
            tray_icon_state: self.tray_icon_state,
        }
    }
}

/// Whether a capture in this state is running.
pub open spec fn live(capture: Option<CaptureState>) -> bool {
    capture == Some(CaptureState::Starting) || capture == Some(CaptureState::Running)
}

/// Whether a capture in this state is running.
pub fn is_live(capture: Option<CaptureState>) -> (r: bool)
    ensures
        r == live(capture),
{
    match capture {
        Some(s) => s == CaptureState::Starting || s == CaptureState::Running,
        None => false,
    }
}

/// What starting a capture comes to.
pub enum StartStep {
    /// One is already running.
    AlreadyRunning,
    /// A task for this profile is to be spawned.
    Spawn(Profile),
}

/// What selecting a profile comes to.
#[derive(Debug, Clone, Copy, PartialEq, Eq, Structural)]
pub enum SelectStep {
    /// It was selected already.
    Unchanged,
    /// It is now. A capture that existed has to be pointed at it.
    Selected { restart: bool },
}

/// A dead capture is no capture.
pub open spec fn without_dead(m: TrayModel) -> TrayModel {
    TrayModel {
        capture: if live(m.capture) {
            m.capture
        } else {
            None
        },
        ..m
    }
}

/// The settings with the running flag set to this, and no update pending.
pub open spec fn flagged(c: ConfigModel, running: bool) -> ConfigModel {
    ConfigModel { last_capture_running: running, resume_after_update: false, ..c }
}

/// After the user stopped the capture.
pub open spec fn stopped(m: TrayModel) -> TrayModel {
    TrayModel { config: flagged(m.config, false), capture: None, ..m }
}

/// After the capture was given up for the process to end.
pub open spec fn parked(m: TrayModel) -> TrayModel {
    TrayModel { config: flagged(m.config, m.capture is Some), capture: None, ..m }
}

/// After the capture was given up for an update, which restarts the process.
pub open spec fn handed_over(m: TrayModel) -> TrayModel {
    TrayModel {
        config: ConfigModel {
            last_capture_running: m.capture is Some,
            resume_after_update: m.capture is Some,
            ..m.config
        },
        capture: None,
        ..m
    }
}

impl TrayState {
    pub fn new(config: AppConfig) -> (s: TrayState)
        ensures
            s@ == (TrayModel { config: config@, capture: None, tray_icon_state: None }),
    {
        TrayState { config, capture: None, tray_icon_state: None }
    }

    /// Start capture on the selected profile. No-op if already running.
    ///
    /// A dead capture is cleared first, so "Start capture" after a failure
    /// retries in one click. Nothing else changes until the task has been
    /// spawned (see [`TrayState::started`]).
    pub fn start_capture(&mut self) -> (r: Result<StartStep, String>)
        ensures
            final(self)@ == without_dead(old(self)@),
            live(old(self)@.capture) ==> r == Ok::<StartStep, String>(StartStep::AlreadyRunning),
            !live(old(self)@.capture) ==> match profile_index(
                old(self)@.config.profiles,
                old(self)@.config.selected_profile,
            ) {
                Some(i) => match r {
                    Ok(StartStep::Spawn(p)) => p@ == old(self)@.config.profiles[i],
                    _ => false,
                },
                None => match r {
                    Err(e) => e@ == "no profile selected"@,
                    Ok(_) => false,
                },
            },
    {
        if !is_live(self.capture) {
            self.capture = None;
        }
        if self.capture.is_some() {
            return Ok(StartStep::AlreadyRunning);
        }
        match self.config.selected_profile() {
            Some(p) => Ok(StartStep::Spawn(p.duplicate())),
            None => Err("no profile selected".to_owned()),
        }
    }

    /// The task that [`TrayState::start_capture`] asked for has been spawned.
    pub fn started(&mut self)
        ensures
            final(self)@ == (TrayModel {
                config: flagged(old(self)@.config, true),
                capture: Some(CaptureState::Starting),
                ..old(self)@
            }),
    {
        self.capture = Some(CaptureState::Starting);
        self.config.app.last_capture_running = true;
        self.config.app.resume_after_update = false;
    }

    /// The capture task reported this state.
    pub fn reported(&mut self, state: CaptureState)
        ensures
            final(self)@ == (TrayModel {
                capture: match old(self)@.capture {
                    Some(_) => Some(state),
                    None => None,
                },
                ..old(self)@
            }),
    {
        if self.capture.is_some() {
            self.capture = Some(state);
        }
    }

    /// Stop capture. Returns whether a task has to be signalled; it keeps
    /// running to completion (flush and teardown) after the signal.
    pub fn stop_capture(&mut self) -> (signal: bool)
        ensures
            signal == (old(self)@.capture is Some),
            final(self)@ == stopped(old(self)@),
    {
        let signal = self.capture.is_some();
        self.capture = None;
        self.config.app.last_capture_running = false;
        self.config.app.resume_after_update = false;
        signal
    }

    /// Whether toggling stops the capture. Judged by the task's actual state,
    /// not by its presence — the button label does the same, and the two
    /// disagreeing is exactly the "Start capture that actually stops" bug.
    pub fn toggle_stops(&self) -> (r: bool)
        ensures
            r == live(self@.capture),
    {
        is_live(self.capture)
    }

    /// End the process: the capture is given up and recorded as running, so that the
    /// next launch can resume it. Returns whether a task has to be signalled and
    /// awaited.
    pub fn park_capture(&mut self) -> (signal: bool)
        ensures
            signal == (old(self)@.capture is Some),
            final(self)@ == parked(old(self)@),
    {
        self.config.app.resume_after_update = false;
        match self.capture {
            Some(_) => {
                self.config.app.last_capture_running = true;
                self.capture = None;
                true
            },
            None => {
                self.config.app.last_capture_running = false;
                false
            },
        }
    }

    /// Hand over to an installer: as [`TrayState::park_capture`], but the next launch
    /// resumes the capture whatever the settings say. Returns whether a task has to be
    /// signalled and awaited.
    pub fn stop_capture_for_restart(&mut self) -> (signal: bool)
        ensures
            signal == (old(self)@.capture is Some),
            final(self)@ == handed_over(old(self)@),
    {
        match self.capture {
            Some(_) => {
                self.config.app.last_capture_running = true;
                self.config.app.resume_after_update = true;
                self.capture = None;
                true
            },
            None => {
                self.config.app.last_capture_running = false;
                self.config.app.resume_after_update = false;
                false
            },
        }
    }

    /// Select a profile by name. A capture that exists has to be restarted, so
    /// that the running session never silently diverges from what the UI shows.
    pub fn select_profile(&mut self, name: &str) -> (r: Result<SelectStep, String>)
        ensures
            old(self)@.config.selected_profile == name@ ==> r == Ok::<SelectStep, String>(
                SelectStep::Unchanged,
            ) && final(self)@ == old(self)@,
            old(self)@.config.selected_profile != name@ && profile_index(
                old(self)@.config.profiles,
                name@,
            ) is None ==> final(self)@ == old(self)@ && match r {
                Err(e) => e@ == "no such profile: "@ + name@,
                Ok(_) => false,
            },
            old(self)@.config.selected_profile != name@ && profile_index(
                old(self)@.config.profiles,
                name@,
            ) is Some ==> {
                &&& r == Ok::<SelectStep, String>(
                    SelectStep::Selected { restart: old(self)@.capture is Some },
                )
                &&& final(self)@ == (TrayModel {
                    config: ConfigModel { selected_profile: name@, ..old(self)@.config },
                    ..old(self)@
                })
            },
    {
        if same(self.config.app.selected_profile.as_str(), name) {
            return Ok(SelectStep::Unchanged);
        }
        if find_profile(&self.config.profiles, name).is_none() {
            return Err(cat("no such profile: ", name));
        }
        self.config.app.selected_profile = name.to_owned();
        Ok(SelectStep::Selected { restart: self.capture.is_some() })
    }

    /// Replace the whole config (settings window "Save"). Returns whether a
    /// capture has to be restarted, so that edits to the active profile take
    /// effect immediately. A selection that was renamed or deleted falls back to
    /// the first profile.
    pub fn replace_config(&mut self, new_config: AppConfig) -> (r: Result<bool, String>)
        ensures
            error_view(r) == config_problem(new_config@.profiles),
            r is Err ==> final(self)@ == old(self)@,
            match r {
                Ok(restart) => {
                    &&& restart == (old(self)@.capture is Some)
                    &&& final(self)@ == (TrayModel {
                        config: adopted(new_config@, old(self)@.capture is Some),
                        ..old(self)@
                    })
                },
                Err(_) => true,
            },
    {
        if let Err(e) = validate_config(&new_config) {
            return Err(e);
        }
        let restart = self.capture.is_some();
        let mut config = new_config;
        if find_profile(&config.profiles, config.app.selected_profile.as_str()).is_none() {
            if config.profiles.len() > 0 {
                assert(config@.profiles[0] == config.profiles@[0]@);
                config.app.selected_profile = config.profiles[0].name.clone();
            }
        }
        config.app.last_capture_running = restart;
        config.app.resume_after_update = false;
        self.config = config;
        Ok(restart)
    }

    /// The directory to open in the file manager. The settings window passes the
    /// *edited* profile's directory — which may differ from the selected
    /// profile's and may not be saved yet; `None` (the tray menu) falls back to
    /// the selected profile.
    pub fn open_store_folder(&self, dir: Option<&str>) -> (r: Result<String, String>)
        ensures
            match explicit_dir(text_view(dir)) {
                Some(d) => match r {
                    Ok(s) => s@ == d,
                    Err(_) => false,
                },
                None => match profile_index(self@.config.profiles, self@.config.selected_profile) {
                    Some(i) => match r {
                        Ok(s) => s@ == self@.config.profiles[i].output_dir,
                        Err(_) => false,
                    },
                    None => match r {
                        Err(e) => e@ == "no profile selected"@,
                        Ok(_) => false,
                    },
                },
            },
    {
        if let Some(d) = dir {
            let explicit = trim(d);
            if !explicit.as_str().is_empty() {
                return Ok(explicit);
            }
        }
        match self.config.selected_profile() {
            Some(p) => Ok(p.output_dir.clone()),
            None => Err("no profile selected".to_owned()),
        }
    }

    /// What is shown while no capture exists.
    pub fn idle_status(&self) -> (s: CaptureStatus)
        ensures
            s@ == fresh_status(CaptureState::Idle, self@.config.selected_profile),
    {
        CaptureStatus::idle(self.config.app.selected_profile.as_str())
    }

    /// The icon color to send to the tray, if it differs from what it shows.
    pub fn refresh_icon(&mut self, state: CaptureState) -> (r: Option<[u8; 4]>)
        ensures
            final(self)@ == (TrayModel { tray_icon_state: Some(state), ..old(self)@ }),
            old(self)@.tray_icon_state == Some(state) ==> r is None,
            old(self)@.tray_icon_state != Some(state) ==> match r {
                Some(c) => c@ == icon_color(state),
                None => false,
            },
    {
        let shown = match self.tray_icon_state {
            Some(s) => s == state,
            None => false,
        };
        self.tray_icon_state = Some(state);
        if shown {
            return None;
        }
        let color: [u8; 4] = match state {
            CaptureState::Running => [0x15, 0x80, 0x3D, 0xFF],
            CaptureState::Starting => [0xB4, 0x53, 0x09, 0xFF],
            CaptureState::Failed => [0xB9, 0x1C, 0x1C, 0xFF],
            CaptureState::Idle => [0x94, 0xA3, 0xB8, 0xFF],
        };
        assert(color@ =~= icon_color(state));
        Some(color)
    }
}

/// The RGBA color of a capture state: go, warn, stop and faint.
pub open spec fn icon_color(state: CaptureState) -> Seq<u8> {
    match state {
        CaptureState::Running => seq![0x15u8, 0x80u8, 0x3Du8, 0xFFu8],
        CaptureState::Starting => seq![0xB4u8, 0x53u8, 0x09u8, 0xFFu8],
        CaptureState::Failed => seq![0xB9u8, 0x1Cu8, 0x1Cu8, 0xFFu8],
        CaptureState::Idle => seq![0x94u8, 0xA3u8, 0xB8u8, 0xFFu8],
    }
}

/// How many pixels an icon is wide and high.
pub const ICON_SIZE: usize = 32;

/// The pixels of an icon of one color, row by row, four bytes each.
pub fn solid_icon(rgba: [u8; 4]) -> (pixels: Vec<u8>)
    ensures
        pixels@ == Seq::new((ICON_SIZE * ICON_SIZE * 4) as nat, |i: int| rgba@[i % 4]),
{
    let mut pixels: Vec<u8> = Vec::new();
    let mut i: usize = 0;
    while i < ICON_SIZE * ICON_SIZE
        invariant
            i <= ICON_SIZE * ICON_SIZE,
            pixels@ == Seq::new((i * 4) as nat, |k: int| rgba@[k % 4]),
        decreases ICON_SIZE * ICON_SIZE - i,
    {
        pixels.push(rgba[0]);
        pixels.push(rgba[1]);
        pixels.push(rgba[2]);
        pixels.push(rgba[3]);
        i += 1;
    }
    pixels
}

/// A directory that was named, apart from outer spaces.
pub open spec fn explicit_dir(dir: Option<Seq<char>>) -> Option<Seq<char>> {
    match dir {
        Some(d) => if trimmed(d).len() > 0 {
            Some(trimmed(d))
        } else {
            None
        },
        None => None,
    }
}

/// A configuration as it is taken over from the settings window.
pub open spec fn adopted(c: ConfigModel, running: bool) -> ConfigModel {
    ConfigModel {
        selected_profile: if profile_index(c.profiles, c.selected_profile) is None
            && c.profiles.len() > 0 {
            c.profiles[0].name
        } else {
            c.selected_profile
        },
        last_capture_running: running,
        resume_after_update: false,
        ..c
    }
}

/// The tray tooltip. The hints are how left-click-to-toggle gets discovered —
/// there is no other affordance for it.
pub open spec fn tooltip_text(s: StatusModel) -> Seq<char> {
    match (s.last_error, s.state) {
        (Some(err), _) => "zenmon-tray — "@ + s.profile_name + ": "@ + err,
        (None, CaptureState::Running) => "zenmon-tray — "@ + s.profile_name + " · "@ + decimal(
            s.messages_written as nat,
        ) + " msgs\nClick to stop"@,
        (None, CaptureState::Starting) => "zenmon-tray — "@ + s.profile_name + " · connecting…"@,
        (None, _) => "zenmon-tray — not capturing\nClick to start"@,
    }
}

/// The tray tooltip for a status.
pub fn tooltip(status: &CaptureStatus) -> (s: String)
    ensures
        s@ == tooltip_text(status@),
{
    match (&status.last_error, status.state) {
        (Some(err), _) => cat4("zenmon-tray — ", status.profile_name.as_str(), ": ", err.as_str()),
        (None, CaptureState::Running) => {
            let mut s = cat3("zenmon-tray — ", status.profile_name.as_str(), " · ");
            s.append(decimal_text(status.messages_written).as_str());
            s.append(" msgs\nClick to stop");
            s
        },
        (None, CaptureState::Starting) => cat3(
            "zenmon-tray — ",
            status.profile_name.as_str(),
            " · connecting…",
        ),
        (None, _) => "zenmon-tray — not capturing\nClick to start".to_owned(),
    }
}

/// Coalesces status updates on their way to the tray and the settings window.
///
/// The status ticks once per captured message — potentially hundreds of times a
/// second — but nothing downstream benefits from that rate. Updates go through
/// once per [`VISUAL_REFRESH_NANOS`], and state changes always.
#[derive(Debug, Clone, Copy, PartialEq, Eq, Structural)]
pub struct StatusWatch {
    pub last_state: CaptureState,
    pub last_push: u64,
}

impl StatusWatch {
    /// Whether a status that arrives at `now` goes through.
    pub fn observe(&mut self, state: CaptureState, now: u64) -> (due: bool)
        ensures
            due == (state != old(self).last_state || now >= old(self).last_push && now - old(
                self,
            ).last_push >= VISUAL_REFRESH_NANOS),
            *final(self) == (if due {
                (StatusWatch { last_state: state, last_push: now })
            } else {
                *old(self)
            }),
    {
        let due = state != self.last_state || (now >= self.last_push && now - self.last_push
            >= VISUAL_REFRESH_NANOS);
        if due {
            self.last_state = state;
            self.last_push = now;
        }
        due
    }
}

// ---------------------------------------------------------------------------
// Laws
// ---------------------------------------------------------------------------

/// A capture that an update stopped is resumed after the restart, whatever the
/// settings say. One that was given up for the process to end is resumed by the next
/// launch where that is wanted, and one that the user stopped is not. Nothing is
/// resumed where nothing ran.
pub proof fn law_a_parked_capture_is_resumed(m: TrayModel)
    ensures
        resumes(handed_over(m).config) == (m.capture is Some),
        resumes(parked(m).config) == (m.capture is Some && m.config.resume_capture_on_launch),
        !resumes(stopped(m).config),
{
}

/// A configuration that was taken over always has its selected profile.
pub proof fn law_adopted_selection_exists(c: ConfigModel, running: bool)
    requires
        config_problem(c.profiles) is None,
    ensures
        profile_index(adopted(c, running).profiles, adopted(c, running).selected_profile) is Some,
{
    if profile_index(c.profiles, c.selected_profile) is None {
        lemma_first_is_found(c.profiles);
    }
}

proof fn lemma_first_is_found(profiles: Seq<ProfileModel>)
    requires
        profiles.len() > 0,
    ensures
        profile_index(profiles, profiles[0].name) is Some,
    decreases profiles.len(),
{
    if profiles.len() > 1 {
        lemma_first_is_found(profiles.drop_last());
    }
}

proof fn lemma_problem_none(profiles: Seq<ProfileModel>, from: int, i: int)
    requires
        0 <= from <= i < profiles.len(),
        problem_from(profiles, from) is None,
    ensures
        profile_problem(profiles, i) is None,
    decreases i - from,
{
    if from < i {
        lemma_problem_none(profiles, from + 1, i);
    }
}

proof fn lemma_problem_some(profiles: Seq<ProfileModel>, from: int)
    requires
        0 <= from <= profiles.len(),
        forall|i: int| from <= i < profiles.len() ==> (#[trigger] profile_problem(profiles, i)) is None,
    ensures
        problem_from(profiles, from) is None,
    decreases profiles.len() - from,
{
    if from < profiles.len() {
        assert(profile_problem(profiles, from) is None);
        lemma_problem_some(profiles, from + 1);
    }
}

/// A configuration is accepted exactly when it has a profile, and every profile
/// has a name that no earlier one has, a key expression, an endpoint where it
/// is a client, and an output directory.
pub proof fn law_accepted_configs(profiles: Seq<ProfileModel>)
    ensures
        config_problem(profiles) is None <==> profiles.len() > 0 && forall|i: int|
            0 <= i < profiles.len() ==> {
                &&& trimmed((#[trigger] profiles[i]).name).len() > 0
                &&& trimmed(profiles[i].key_expr).len() > 0
                &&& profiles[i].mode == "client"@ ==> trimmed(profiles[i].endpoint).len() > 0
                &&& profiles[i].output_dir.len() > 0
                &&& forall|j: int| 0 <= j < i ==> !same_name(profiles, j, i)
            },
{
    if config_problem(profiles) is None {
        assert forall|i: int| 0 <= i < profiles.len() implies {
            &&& trimmed((#[trigger] profiles[i]).name).len() > 0
            &&& trimmed(profiles[i].key_expr).len() > 0
            &&& profiles[i].mode == "client"@ ==> trimmed(profiles[i].endpoint).len() > 0
            &&& profiles[i].output_dir.len() > 0
            &&& forall|j: int| 0 <= j < i ==> !same_name(profiles, j, i)
        } by {
            lemma_problem_none(profiles, 0, i);
        }
    } else if profiles.len() > 0 && forall|i: int|
        0 <= i < profiles.len() ==> {
            &&& trimmed((#[trigger] profiles[i]).name).len() > 0
            &&& trimmed(profiles[i].key_expr).len() > 0
            &&& profiles[i].mode == "client"@ ==> trimmed(profiles[i].endpoint).len() > 0
            &&& profiles[i].output_dir.len() > 0
            &&& forall|j: int| 0 <= j < i ==> !same_name(profiles, j, i)
        } {
        assert forall|i: int| 0 <= i < profiles.len() implies (#[trigger] profile_problem(
            profiles,
            i,
        )) is None by {
            assert(trimmed(profiles[i].name).len() > 0);
        }
        lemma_problem_some(profiles, 0);
    }
}

} // verus!
