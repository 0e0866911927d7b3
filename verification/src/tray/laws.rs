//! What holds of the tray whatever happens.
use vstd::prelude::*;

use crate::text::{decimal, spaced, trimmed};
use crate::text_laws::part_of;
use crate::tray::capture::{
    capture_action, capture_next, CaptureAction, CaptureEvent, CaptureStage, CaptureState, RunModel,
    StatusModel,
};
use crate::tray::cli::{
    extended_path, failure_text, first_version, last_written, manager, parsed_version,
};
use crate::tray::config::{profile_index, resumes, seeded, ConfigModel, ProfileModel};
use crate::tray::menu::{action_for, menu_of, profile_entries, EntryModel, MenuAction};
use crate::tray::state::{
    adopted, explicit_dir, handed_over, icon_color, live, parked, stopped, tooltip_text,
    without_dead, TrayModel,
};
use crate::tray::update::{
    apply_answers, apply_next, check_status, progress_due, ApplyAction, ApplyContext, ApplyEvent,
    ApplyStage, Progress,
};

verus! {

// ---------------------------------------------------------------------------
// The capture
// ---------------------------------------------------------------------------

/// The lines that were written so far: those that are counted, and the one that waits
/// for retention.
pub open spec fn lines_written(m: RunModel) -> int {
    m.status.messages_written + (if m.stage is Retaining {
        1int
    } else {
        0int
    })
}

/// The bytes of those lines, each with its newline.
pub open spec fn bytes_written(m: RunModel) -> int {
    m.status.bytes_written + (match m.stage {
        CaptureStage::Retaining { line_bytes, .. } => line_bytes + 1,
        _ => 0,
    })
}

/// Every line that is written while recording counts once, with its newline, whether or
/// not retention comes in between, and nothing else counts.
pub proof fn law_every_line_counts_once(m: RunModel, e: CaptureEvent)
    requires
        lines_written(m) < u64::MAX,
        e matches CaptureEvent::LineWritten { line_bytes, .. } ==> bytes_written(m) + line_bytes
            < u64::MAX,
        bytes_written(m) <= u64::MAX,
    ensures
        ({
            let after = capture_next(m, e);
            match e {
                CaptureEvent::LineWritten { line_bytes, .. } => if m.stage == CaptureStage::Recording {
                    &&& lines_written(after) == lines_written(m) + 1
                    &&& bytes_written(after) == bytes_written(m) + line_bytes + 1
                } else {
                    after == m
                },
                _ => lines_written(after) == lines_written(m) && bytes_written(after)
                    == bytes_written(m),
            }
        }),
{
}

/// Retention is enforced with the first line that comes a minute or more after it last
/// was, and the minute starts anew when that is done.
pub proof fn law_retention_comes_once_a_minute(
    m: RunModel,
    line_bytes: usize,
    at_ms: Option<u64>,
    now: u64,
    later: u64,
)
    requires
        m.stage == CaptureStage::Recording,
        now >= m.last_retention_check,
    ensures
        ({
            let e = CaptureEvent::LineWritten { line_bytes, at_ms, now };
            let after = capture_next(m, e);
            let done = capture_next(after, CaptureEvent::RetentionChecked { now: later });
            &&& now - m.last_retention_check >= 60_000_000_000 <==> capture_action(m, e)
                == CaptureAction::EnforceRetention
            &&& now - m.last_retention_check < 60_000_000_000 ==> capture_action(m, e)
                == CaptureAction::Wait && after.stage == CaptureStage::Recording
                && after.last_retention_check == m.last_retention_check
                && after.status.last_message_at_ms == at_ms
            &&& capture_action(m, e) == CaptureAction::EnforceRetention ==> done.stage
                == CaptureStage::Recording && done.last_retention_check == later
                && done.status.last_message_at_ms == at_ms
        }),
{
}

/// A capture that opens everything records; one that is told to stop, or whose stream
/// ends, flushes and is idle when that went well. A line that cannot be written is
/// reported, and the recording goes on.
pub proof fn law_a_capture_runs_its_course(
    m: RunModel,
    started_at_ms: Option<u64>,
    now: u64,
    trouble: String,
)
    ensures
        m.stage == CaptureStage::Connecting ==> {
            let opened = capture_next(m, CaptureEvent::SessionOpened);
            let subscribed = capture_next(opened, CaptureEvent::Subscribed);
            let recording = capture_next(
                subscribed,
                CaptureEvent::WriterOpened { started_at_ms, now },
            );
            &&& capture_action(m, CaptureEvent::SessionOpened) == CaptureAction::Subscribe
            &&& capture_action(opened, CaptureEvent::Subscribed) == CaptureAction::OpenWriter
            &&& recording.stage == CaptureStage::Recording
            &&& recording.status.state == CaptureState::Running
            &&& recording.status.started_at_ms == started_at_ms
            &&& recording.last_retention_check == now
        },
        m.stage == CaptureStage::Recording ==> {
            let stop = CaptureEvent::StopSignal(true);
            let ending = capture_next(m, stop);
            let idle = capture_next(ending, CaptureEvent::Ended { error: None, is_error: false });
            let broken = capture_next(m, CaptureEvent::LineFailed(trouble));
            &&& capture_action(m, stop) == CaptureAction::FlushAndStop
            &&& capture_action(m, CaptureEvent::StreamEnded) == CaptureAction::FlushAndStop
            &&& capture_next(m, CaptureEvent::StreamEnded) == ending
            &&& idle.stage == CaptureStage::Done
            &&& idle.status.state == CaptureState::Idle
            &&& capture_next(m, CaptureEvent::StopSignal(false)) == m
            &&& broken.stage == CaptureStage::Recording
            &&& broken.status.last_error == Some(trouble@)
            &&& broken.status.messages_written == m.status.messages_written
            &&& broken.status.state == m.status.state
        },
        m.stage == CaptureStage::Connecting ==> capture_next(
            m,
            CaptureEvent::SessionFailed(trouble),
        ).status.last_error == Some(trouble@) && capture_next(
            m,
            CaptureEvent::SessionFailed(trouble),
        ).status.state == CaptureState::Failed,
        m.stage == CaptureStage::Ending ==> capture_next(
            m,
            CaptureEvent::Ended { error: Some(trouble), is_error: true },
        ).status.state == CaptureState::Failed && capture_next(
            m,
            CaptureEvent::Ended { error: Some(trouble), is_error: true },
        ).status.last_error == Some(trouble@),
{
}

// ---------------------------------------------------------------------------
// The settings
// ---------------------------------------------------------------------------

/// A profile is found under its name, the first one where several have it, and nothing is
/// found where none has it.
pub proof fn law_a_profile_is_found_by_its_name(profiles: Seq<ProfileModel>, name: Seq<char>)
    ensures
        match profile_index(profiles, name) {
            Some(i) => {
                &&& 0 <= i < profiles.len()
                &&& profiles[i].name == name
                &&& forall|j: int| 0 <= j < i ==> (#[trigger] profiles[j]).name != name
            },
            None => forall|j: int| 0 <= j < profiles.len() ==> (#[trigger] profiles[j]).name != name,
        },
    decreases profiles.len(),
{
    if profiles.len() > 0 {
        let first = profiles.drop_last();
        law_a_profile_is_found_by_its_name(first, name);
        match profile_index(first, name) {
            Some(i) => {
                assert(first[i] == profiles[i]);
                assert forall|j: int| 0 <= j < i implies (#[trigger] profiles[j]).name != name by {
                    assert(first[j] == profiles[j]);
                }
            },
            None => {
                assert forall|j: int| 0 <= j < first.len() implies (#[trigger] profiles[j]).name
                    != name by {
                    assert(first[j] == profiles[j]);
                }
            },
        }
    }
}

/// Settings that are taken over keep their profiles and the selection, which falls back
/// to the first profile where it is gone.
pub proof fn law_a_lost_selection_falls_back(c: ConfigModel, running: bool)
    requires
        c.profiles.len() > 0,
    ensures
        adopted(c, running).profiles == c.profiles,
        adopted(c, running).last_capture_running == running,
        (exists|i: int| 0 <= i < c.profiles.len() && (#[trigger] c.profiles[i]).name
            == c.selected_profile) ==> adopted(c, running).selected_profile == c.selected_profile,
        (forall|i: int| 0 <= i < c.profiles.len() ==> (#[trigger] c.profiles[i]).name
            != c.selected_profile) ==> adopted(c, running).selected_profile == c.profiles[0].name,
{
    law_a_profile_is_found_by_its_name(c.profiles, c.selected_profile);
}

/// A capture runs from when it starts until it is idle or has failed. Stopping it, giving
/// it up for the process to end and handing it over for an update all end it, and only the
/// last two are remembered.
pub proof fn law_what_is_remembered_of_a_capture(m: TrayModel)
    ensures
        live(Some(CaptureState::Starting)) && live(Some(CaptureState::Running)),
        !live(Some(CaptureState::Idle)) && !live(Some(CaptureState::Failed)) && !live(None),
        stopped(m).capture is None && parked(m).capture is None && handed_over(m).capture is None,
        !stopped(m).config.last_capture_running,
        parked(m).config.last_capture_running == (m.capture is Some),
        handed_over(m).config.last_capture_running == (m.capture is Some),
        stopped(m).config.profiles == m.config.profiles,
        parked(m).config.profiles == m.config.profiles,
        handed_over(m).config.profiles == m.config.profiles,
        resumes(m.config) ==> m.config.last_capture_running,
{
}

// ---------------------------------------------------------------------------
// The menu
// ---------------------------------------------------------------------------

/// The menu lists every profile once, in order, with a check mark at the selected one and
/// at no other, and a check mark at the capture while there is one.
pub proof fn law_the_menu_marks_the_selected_profile(
    profiles: Seq<ProfileModel>,
    selected: Seq<char>,
    capturing: bool,
    i: int,
)
    requires
        0 <= i < profiles.len(),
    ensures
        ({
            let items = profile_entries(profiles, selected);
            &&& items.len() == profiles.len()
            &&& items[i].1 == profiles[i].name
            &&& items[i].2 <==> profiles[i].name == selected
            &&& menu_of(profiles, selected, capturing)[1] matches EntryModel::Submenu {
                items: listed,
                ..
            } && listed == items
            &&& menu_of(profiles, selected, capturing)[0] matches EntryModel::Check {
                checked,
                ..
            } && checked == capturing
        }),
{
}

/// Choosing a profile in the menu selects the profile of that name, whatever the name.
pub proof fn law_a_profile_in_the_menu_selects_it(
    profiles: Seq<ProfileModel>,
    selected: Seq<char>,
    i: int,
    action: MenuAction,
)
    requires
        0 <= i < profiles.len(),
        action_for(profile_entries(profiles, selected)[i].0, action),
    ensures
        action matches MenuAction::SelectProfile(name) && name@ == profiles[i].name,
{
    let lead = "profile:"@;
    let id = profile_entries(profiles, selected)[i].0;
    reveal_strlit("profile:");
    reveal_strlit("capture");
    reveal_strlit("settings");
    reveal_strlit("open_folder");
    reveal_strlit("quit");
    assert(id == lead + profiles[i].name);
    assert(id[0] == 'p');
    assert("capture"@[0] == 'c');
    assert("settings"@[0] == 's');
    assert("open_folder"@[0] == 'o');
    assert("quit"@[0] == 'q');
    match action {
        MenuAction::SelectProfile(name) => {
            assert(id == lead + name@);
            assert(id.skip(8) =~= name@);
            assert(id.skip(8) =~= profiles[i].name);
        },
        MenuAction::Nothing => {
            assert(id != lead + profiles[i].name);
        },
        _ => {},
    }
}

// ---------------------------------------------------------------------------
// The CLI
// ---------------------------------------------------------------------------

/// The answer of the updater is the last line that is not blank: every line behind it is.
pub proof fn law_the_answer_is_the_last_line_that_is_not_blank(lines: Seq<Seq<char>>)
    ensures
        match last_written(lines) {
            Some(line) => exists|i: int|
                {
                    &&& 0 <= i < lines.len()
                    &&& #[trigger] lines[i] == line
                    &&& trimmed(line).len() > 0
                    &&& forall|j: int|
                        i < j < lines.len() ==> trimmed(#[trigger] lines[j]).len() == 0
                },
            None => forall|j: int| 0 <= j < lines.len() ==> trimmed(#[trigger] lines[j]).len() == 0,
        },
    decreases lines.len(),
{
    if lines.len() > 0 {
        let n = lines.len() - 1;
        let first = lines.drop_last();
        if trimmed(lines.last()).len() > 0 {
            assert(lines[n] == lines.last());
        } else {
            law_the_answer_is_the_last_line_that_is_not_blank(first);
            match last_written(first) {
                Some(line) => {
                    let i = choose|i: int|
                        {
                            &&& 0 <= i < first.len()
                            &&& #[trigger] first[i] == line
                            &&& trimmed(line).len() > 0
                            &&& forall|j: int|
                                i < j < first.len() ==> trimmed(#[trigger] first[j]).len() == 0
                        };
                    assert(lines[i] == line);
                    assert forall|j: int| i < j < lines.len() implies trimmed(
                        #[trigger] lines[j],
                    ).len() == 0 by {
                        if j < n {
                            assert(first[j] == lines[j]);
                        }
                    }
                },
                None => {
                    assert forall|j: int| 0 <= j < lines.len() implies trimmed(
                        #[trigger] lines[j],
                    ).len() == 0 by {
                        if j < n {
                            assert(first[j] == lines[j]);
                        }
                    }
                },
            }
        }
    }
}

/// The version of a program is the first word of its output that is one.
pub proof fn law_the_version_is_the_first_word_that_is_one(tokens: Seq<Seq<char>>)
    ensures
        match first_version(tokens) {
            Some(v) => exists|i: int|
                {
                    &&& 0 <= i < tokens.len()
                    &&& parsed_version(#[trigger] tokens[i]) == Some(v)
                    &&& forall|j: int|
                        0 <= j < i ==> parsed_version(#[trigger] tokens[j]) is None
                },
            None => forall|j: int|
                0 <= j < tokens.len() ==> parsed_version(#[trigger] tokens[j]) is None,
        },
    decreases tokens.len(),
{
    if tokens.len() > 0 {
        let rest = tokens.drop_first();
        match parsed_version(tokens[0]) {
            Some(v) => {
                assert(parsed_version(tokens[0]) == Some(v));
            },
            None => {
                law_the_version_is_the_first_word_that_is_one(rest);
                match first_version(rest) {
                    Some(v) => {
                        let i = choose|i: int|
                            {
                                &&& 0 <= i < rest.len()
                                &&& parsed_version(#[trigger] rest[i]) == Some(v)
                                &&& forall|j: int|
                                    0 <= j < i ==> parsed_version(#[trigger] rest[j]) is None
                            };
                        assert(tokens[i + 1] == rest[i]);
                        assert forall|j: int| 0 <= j < i + 1 implies parsed_version(
                            #[trigger] tokens[j],
                        ) is None by {
                            if j > 0 {
                                assert(rest[j - 1] == tokens[j]);
                            }
                        }
                    },
                    None => {
                        assert forall|j: int| 0 <= j < tokens.len() implies parsed_version(
                            #[trigger] tokens[j],
                        ) is None by {
                            if j > 0 {
                                assert(rest[j - 1] == tokens[j]);
                            }
                        }
                    },
                }
            },
        }
    }
}

/// A directory that is put on a PATH value stands at its end, and what was there stays in
/// front of it.
pub proof fn law_a_directory_goes_to_the_end_of_the_path(current: Seq<char>, dir: Seq<char>)
    ensures
        part_of(dir, extended_path(current, dir)),
        current.len() > 0 && current.last() != ';' && trimmed(current).len() > 0 ==> extended_path(
            current,
            dir,
        ) == current + seq![';'] + dir,
        current.len() == 0 ==> extended_path(current, dir) == dir,
{
    let all = extended_path(current, dir);
    let empty = Seq::<char>::empty();
    reveal_strlit(";");
    assert(";"@ =~= seq![';']);
    let kept = crate::text::stripped_end(current, |c: char| c == ';');
    if trimmed(kept).len() == 0 {
        assert(all =~= empty + dir + empty);
    } else {
        assert(all =~= (kept + seq![';']) + dir + empty);
    }
    if current.len() == 0 {
        assert(kept =~= empty);
        assert(trimmed(empty) =~= empty);
    }
}

/// A CLI is the tray's where it lies in the tray's directory, cargo's where it lies in
/// cargo's, and somebody else's otherwise. Separators at the end of a directory do not
/// matter.
pub proof fn law_a_cli_belongs_to_its_directory(
    dir: Seq<char>,
    tray: Option<Seq<char>>,
    cargo: Option<Seq<char>>,
)
    ensures
        tray == Some(dir) ==> manager(dir, tray, cargo) == "tray"@,
        tray is None && cargo == Some(dir) ==> manager(dir, tray, cargo) == "cargo"@,
        tray is None && cargo is None ==> manager(dir, tray, cargo) == "external"@,
        manager(dir.push('/'), tray, cargo) == manager(dir, tray, cargo),
        manager(dir.push('\\'), tray, cargo) == manager(dir, tray, cargo),
{
    assert(dir.push('/').drop_last() =~= dir);
    assert(dir.push('\\').drop_last() =~= dir);
}

// ---------------------------------------------------------------------------
// Updates
// ---------------------------------------------------------------------------

/// An update that was asked for is looked for, downloaded, waits for the capture to be
/// closed, is installed and takes over; a version that is at hand is not looked for. A
/// failure anywhere ends it.
pub proof fn law_an_update_runs_its_course(ctx: ApplyContext, found: String, trouble: String)
    requires
        !ctx.dev,
        ctx.windows,
        ctx.confirmed || !ctx.capturing,
    ensures
        apply_next(ApplyStage::Start, ctx, ApplyEvent::Requested { pending: None })
            == ApplyStage::Checking,
        apply_next(ApplyStage::Start, ctx, ApplyEvent::Requested { pending: Some(found) })
            == ApplyStage::Downloading,
        apply_next(ApplyStage::Checking, ctx, ApplyEvent::Checked(Ok(Some(found))))
            == ApplyStage::Downloading,
        apply_next(ApplyStage::Checking, ctx, ApplyEvent::Checked(Ok(None))) == ApplyStage::Done,
        apply_next(ApplyStage::Checking, ctx, ApplyEvent::Checked(Err(trouble)))
            == ApplyStage::Done,
        apply_next(ApplyStage::Downloading, ctx, ApplyEvent::Downloaded(Ok(())))
            == ApplyStage::Parking,
        apply_next(ApplyStage::Downloading, ctx, ApplyEvent::Downloaded(Err(trouble)))
            == ApplyStage::Done,
        apply_next(ApplyStage::Parking, ctx, ApplyEvent::Parked) == ApplyStage::Installing,
        apply_next(ApplyStage::Installing, ctx, ApplyEvent::Installed(Ok(()))) == ApplyStage::Done,
{
}

/// A dev build and a machine that is not Windows never update themselves, and a running
/// capture is not interrupted unless the user agreed. Each refusal is answered as one.
pub proof fn law_an_update_is_refused(
    ctx: ApplyContext,
    version: Seq<char>,
    pending: Option<String>,
    action: ApplyAction,
)
    requires
        apply_answers(
            ApplyStage::Start,
            ctx,
            version,
            ApplyEvent::Requested { pending },
            action,
        ),
    ensures
        ctx.dev || !ctx.windows ==> action is Refuse && apply_next(
            ApplyStage::Start,
            ctx,
            ApplyEvent::Requested { pending },
        ) == ApplyStage::Done,
        !ctx.dev && ctx.windows && pending is Some && ctx.capturing && !ctx.confirmed ==> (action
            matches ApplyAction::Refuse { message, .. } && message@ == "capture-running"@),
        !ctx.dev && ctx.windows && pending is Some && (ctx.confirmed || !ctx.capturing)
            ==> action is Download,
        !ctx.dev && ctx.windows && pending is None ==> action is Check,
{
}

/// The progress of a download is reported with the first chunk, and from then on when a
/// fifth of a second has gone by since the last report.
pub proof fn law_progress_is_reported_at_a_readable_rate(p: Progress, now: u64)
    ensures
        p.last_pushed is None ==> progress_due(p, now),
        p.last_pushed is Some && now >= p.last_pushed->0 ==> (progress_due(p, now) <==> now
            - p.last_pushed->0 >= 200_000_000),
{
}

/// What is said of a capture names its profile, and an error where there is one; while it
/// runs without one, how many messages were written.
pub proof fn law_the_tooltip_says_what_happened(s: StatusModel)
    ensures
        s.last_error is Some ==> part_of(s.last_error->0, tooltip_text(s)) && part_of(
            s.profile_name,
            tooltip_text(s),
        ),
        s.last_error is None && s.state == CaptureState::Running ==> part_of(
            decimal(s.messages_written as nat),
            tooltip_text(s),
        ) && part_of(s.profile_name, tooltip_text(s)),
{
    let t = tooltip_text(s);
    let empty = Seq::<char>::empty();
    if let Some(err) = s.last_error {
        assert(t =~= ("zenmon-tray — "@ + s.profile_name + ": "@) + err + empty);
        assert(t =~= "zenmon-tray — "@ + s.profile_name + (": "@ + err));
    } else if s.state == CaptureState::Running {
        let n = decimal(s.messages_written as nat);
        assert(t =~= ("zenmon-tray — "@ + s.profile_name + " · "@) + n
            + " msgs\nClick to stop"@);
        assert(t =~= "zenmon-tray — "@ + s.profile_name + (" · "@ + n
            + " msgs\nClick to stop"@));
    }
}

/// Every state of a capture has a colour of its own.
pub proof fn law_every_state_has_its_colour(a: CaptureState, b: CaptureState)
    ensures
        icon_color(a) == icon_color(b) <==> a == b,
        icon_color(a).len() == 4,
{
    if a != b {
        assert(icon_color(a)[0] != icon_color(b)[0]);
    }
}

/// A check for an update reports the version that was found, that there is none, or what
/// went wrong, and the version that runs in each case.
pub proof fn law_a_check_reports_what_was_found(
    answer: Result<Option<String>, String>,
    version: Seq<char>,
)
    ensures
        ({
            let s = check_status(answer, version);
            &&& s.current_version == version
            &&& answer matches Ok(Some(found)) ==> s.phase == "available"@ && s.available_version
                == Some(found@) && s.message is None
            &&& answer matches Ok(None) ==> s.phase == "up_to_date"@ && s.available_version is None
                && s.message is None
            &&& answer matches Err(e) ==> s.phase == "error"@ && s.message == Some(e@)
                && s.available_version is None
        }),
{
}

/// A command that failed is named with its arguments and how it ended, and with the end
/// of what it said: on its error output, or on its output where that is blank.
pub proof fn law_a_failure_says_what_was_run(
    exe: Seq<char>,
    args: Seq<Seq<char>>,
    exit: Seq<char>,
    stdout: Seq<char>,
    stderr: Seq<char>,
)
    ensures
        ({
            let t = failure_text(exe, args, exit, stdout, stderr);
            let said = if trimmed(stderr).len() > 0 {
                trimmed(stderr)
            } else {
                trimmed(stdout)
            };
            &&& part_of(exe + " "@ + spaced(args), t)
            &&& part_of(exit, t)
            &&& said.len() <= 500 ==> said.is_suffix_of(t)
            &&& said.len() > 500 ==> said.skip(said.len() - 500).is_suffix_of(t)
        }),
{
    let t = failure_text(exe, args, exit, stdout, stderr);
    let said = if trimmed(stderr).len() > 0 {
        trimmed(stderr)
    } else {
        trimmed(stdout)
    };
    let end = if said.len() <= 500 {
        said
    } else {
        said.skip(said.len() - 500)
    };
    let run = exe + " "@ + spaced(args);
    let rest = "` failed ("@ + exit + "): "@ + end;
    assert(t =~= "`"@ + run + rest);
    let front = "`"@ + run + "` failed ("@;
    let behind = "): "@ + end;
    assert(t =~= front + exit + behind);
    assert(end =~= t.subrange(t.len() - end.len(), t.len() as int));
}

/// A directory that is given counts only where it is not blank, and then without the
/// white space around it.
pub proof fn law_a_blank_directory_is_none(dir: Option<Seq<char>>)
    ensures
        dir is None ==> explicit_dir(dir) is None,
        dir matches Some(d) ==> (explicit_dir(dir) is None <==> trimmed(d).len() == 0),
        dir matches Some(d) ==> explicit_dir(dir) matches Some(e) ==> e == trimmed(d),
{
}

/// A capture that ended is dropped from what is held, and one that runs is kept; nothing
/// else changes.
pub proof fn law_only_what_ended_is_dropped(m: TrayModel)
    ensures
        live(m.capture) ==> without_dead(m) == m,
        !live(m.capture) ==> without_dead(m).capture is None,
        without_dead(m) == (TrayModel { capture: without_dead(m).capture, ..m }),
{
}

/// The profile that a new user finds records everything from the router on this machine,
/// and keeps files of an hour or 64 MiB for a week or up to 1 GiB.
pub proof fn law_the_first_profile_records_everything(name: Seq<char>, dir: Seq<char>)
    ensures
        ({
            let p = seeded(name, dir);
            &&& p.name == name && p.output_dir == dir
            &&& p.mode == "client"@ && p.endpoint == "tcp/localhost:7447"@ && p.key_expr == "**"@
            &&& p.namespace is None
            &&& p.rotate_size_bytes == 64 * 1024 * 1024 && p.rotate_interval_secs == 60 * 60
            &&& p.max_total_size_bytes == 1024 * 1024 * 1024 && p.max_age_secs == 7 * 24 * 60 * 60
        }),
{
}

} // verus!
