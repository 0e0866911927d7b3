//! The tray: its settings, its capture, its menu, the CLI beside it and its updates.

use zenmon::tray::capture::{
    epoch_millis, CaptureAction, CaptureEvent, CaptureRun, CaptureStage, CaptureState, CaptureStatus,
    RETENTION_CHECK_NANOS,
};
use zenmon::tray::cli::{
    add_to_user_path, answer_line, bundled_cli, classify, exe_name, failure_message, may_update,
    require_bundled, resolve, same_dir, status, updater_answer, user_path_contains, verdict_of,
    version_of,
};
use zenmon::tray::config::{default_store_folder, find_profile, AppConfig, AppSettings, Profile};
use zenmon::tray::menu::{build_menu, menu_action, MenuAction, MenuEntry};
use zenmon::tray::state::{
    solid_icon, tooltip, validate_config, SelectStep, StartStep, StatusWatch, TrayState,
};
use zenmon::tray::update::{
    apply_step, checked, current_status, guard, ApplyAction, ApplyContext, ApplyEvent, ApplyStage,
    Phase, Progress, UpdateStatus, PROGRESS_NANOS,
};

fn config_with(profiles: Vec<Profile>) -> AppConfig {
    AppConfig {
        schema_version: 1,
        app: AppSettings {
            selected_profile: profiles.first().map(|p| p.name.clone()).unwrap_or_default(),
            resume_capture_on_launch: false,
            last_capture_running: false,
            resume_after_update: false,
        },
        profiles,
    }
}

fn seed(name: &str) -> Profile {
    Profile::seed(name, "C:/tmp/zenmon-test", '/')
}

fn two() -> TrayState {
    TrayState::new(config_with(vec![seed("default"), seed("field")]))
}

#[test]
fn accepts_a_seed_profile() {
    assert!(validate_config(&config_with(vec![seed("default")])).is_ok());
}

#[test]
fn rejects_an_empty_profile_list() {
    assert!(validate_config(&config_with(vec![])).is_err());
}

#[test]
fn rejects_an_empty_key_expression() {
    let mut profile = seed("default");
    profile.key_expr = "  ".to_string();
    let err = validate_config(&config_with(vec![profile])).unwrap_err();
    assert!(err.contains("key expression"), "got: {err}");
}

#[test]
fn rejects_a_missing_endpoint_in_client_mode() {
    let mut profile = seed("default");
    profile.endpoint = String::new();
    let err = validate_config(&config_with(vec![profile])).unwrap_err();
    assert!(err.contains("endpoint"), "got: {err}");
}

#[test]
fn allows_a_missing_endpoint_in_peer_mode() {
    let mut profile = seed("default");
    profile.endpoint = String::new();
    profile.mode = "peer".to_string();
    assert!(validate_config(&config_with(vec![profile])).is_ok());
}

#[test]
fn rejects_duplicate_names_case_insensitively() {
    let err = validate_config(&config_with(vec![seed("Prod"), seed("prod")])).unwrap_err();
    assert!(err.contains("named"), "got: {err}");
}

#[test]
fn rejects_an_empty_name() {
    let mut profile = seed("default");
    profile.name = " ".to_string();
    assert!(validate_config(&config_with(vec![profile])).is_err());
}

#[test]
fn rejects_an_empty_output_directory() {
    let mut profile = seed("default");
    profile.output_dir = String::new();
    let err = validate_config(&config_with(vec![profile])).unwrap_err();
    assert_eq!(err, "profile \"default\": output directory is empty");
}

#[test]
fn the_first_problem_is_reported_in_full() {
    assert_eq!(
        validate_config(&config_with(vec![])).unwrap_err(),
        "at least one profile is required"
    );
    let mut nameless = seed("x");
    nameless.name = " ".to_string();
    assert_eq!(
        validate_config(&config_with(vec![nameless])).unwrap_err(),
        "a profile has an empty name"
    );
    assert_eq!(
        validate_config(&config_with(vec![seed("A"), seed("b"), seed("B ")])).unwrap_err(),
        "two profiles are named \"B\""
    );
}

#[test]
fn a_seed_profile_records_everything() {
    let p = seed("default");
    assert_eq!(p.endpoint, "tcp/localhost:7447");
    assert_eq!(p.mode, "client");
    assert_eq!(p.key_expr, "**");
    assert_eq!(p.namespace, None);
    assert_eq!(p.rotate_size_bytes, 64 * 1024 * 1024);
    assert_eq!(p.rotate_interval(), 3600);
    assert_eq!(p.max_total_size_bytes, 1024 * 1024 * 1024);
    assert_eq!(p.max_age(), 7 * 24 * 3600);
}

#[test]
fn a_first_run_has_one_profile_that_is_selected() {
    let c = AppConfig::first_run("/d", '/');
    assert_eq!(c.schema_version, 1);
    assert_eq!(c.profiles.len(), 1);
    assert_eq!(c.selected_profile().unwrap().output_dir, "/d/captures/default");
    assert!(validate_config(&c).is_ok());
    assert_eq!(find_profile(&c.profiles, "default"), Some(0));
    assert_eq!(find_profile(&c.profiles, "other"), None);
}

#[test]
fn a_capture_that_an_update_stopped_is_resumed() {
    let mut s = TrayState::new(AppConfig::first_run("/d", '/'));
    assert!(!s.stop_capture_for_restart());
    assert!(!s.config.resumes_on_launch());
    s.started();
    assert!(s.stop_capture_for_restart());
    assert_eq!(s.capture, None);
    assert!(!s.config.app.resume_capture_on_launch);
    assert!(s.config.resumes_on_launch());
    s.started();
    assert!(!s.config.app.resume_after_update);
    assert!(s.park_capture());
    assert!(!s.config.resumes_on_launch());
}

#[test]
fn the_store_folder_is_named_after_the_profile() {
    assert_eq!(default_store_folder("/d", "default", '/'), "/d/captures/default");
    assert_eq!(default_store_folder("/d/", "x", '/'), "/d/captures/x");
    assert_eq!(default_store_folder("", "x", '/'), "captures/x");
    assert_eq!(default_store_folder("/d", "/x", '/'), "/x");
    assert_eq!(default_store_folder("/d", "C:x", '/'), "/d/captures/C:x");
    assert_eq!(default_store_folder("/d", "a\\b", '/'), "/d/captures/a\\b");
}

#[test]
fn the_store_folder_follows_drives_and_shares() {
    let at = |dir: &str, name: &str| default_store_folder(dir, name, '\\');
    assert_eq!(at("C:\\d", "x"), "C:\\d\\captures\\x");
    assert_eq!(at("C:/d/", "x"), "C:/d/captures\\x");
    assert_eq!(at("C:", "x"), "C:captures\\x");
    assert_eq!(at("C:\\d", "D:"), "D:");
    assert_eq!(at("C:\\d", "D:\\x"), "D:\\x");
    assert_eq!(at("C:\\d", "\\x"), "C:\\x");
    assert_eq!(at("C:\\d", "/x"), "C:/x");
    assert_eq!(at("d", "\\x"), "\\x");
    assert_eq!(at("\\\\host\\share\\d", "x"), "\\\\host\\share\\d\\captures\\x");
    assert_eq!(at("\\\\host\\share\\d", "/x"), "\\\\host\\share/x");
    assert_eq!(at("C:\\d", "\\\\host\\share"), "\\\\host\\share");
    assert_eq!(at("C:\\d", "\\\\host"), "C:\\\\host");
    assert_eq!(at("C:\\d", "1:x"), "C:\\d\\captures\\1:x");
}

#[test]
fn the_updaters_answer_is_its_last_written_line() {
    assert_eq!(
        updater_answer("looking\n  {\"status\": \"updated\", \"to\": [2, 0]} \n\n"),
        Ok("{\"status\":\"updated\",\"to\":[2,0]}".to_string())
    );
    assert_eq!(updater_answer("{}\nnull"), Ok("null".to_string()));
    assert_eq!(updater_answer(" \n\n"), Err("zenmon update produced no output".to_string()));
    assert_eq!(updater_answer(""), Err("zenmon update produced no output".to_string()));
}

#[test]
fn an_answer_that_is_no_json_says_why() {
    assert_eq!(
        updater_answer("{}\n oops"),
        Err("unparseable zenmon update output (expected value at line 1 column 1):  oops".to_string())
    );
    assert_eq!(
        verdict_of("oops", Err("expected value".to_string())),
        Err("unparseable zenmon update output (expected value): oops".to_string())
    );
    assert_eq!(verdict_of(" 1 ", Ok("1".to_string())), Ok("1".to_string()));
}

#[test]
fn a_dev_build_offers_no_bundled_cli() {
    let neighbour = || Some("/opt/zenmon".to_string());
    assert_eq!(bundled_cli(false, neighbour()), neighbour());
    assert_eq!(bundled_cli(false, None), None);
    assert_eq!(bundled_cli(true, neighbour()), None);
}

#[test]
fn a_status_starts_out_blank_and_reads_as_idle() {
    let blank = UpdateStatus::default();
    assert_eq!(blank.phase, "");
    assert_eq!(blank.message, None);
    assert_eq!(current_status(Some(&blank), "1.0.0").phase, "idle");
}

#[test]
fn a_capture_is_resumed_only_where_both_flags_say_so() {
    let mut c = AppConfig::first_run("/d", '/');
    for (resume, running, expected) in
        [(false, false, false), (true, false, false), (false, true, false), (true, true, true)]
    {
        c.app.resume_capture_on_launch = resume;
        c.app.last_capture_running = running;
        assert_eq!(c.resumes_on_launch(), expected);
    }
}

#[test]
fn a_capture_is_started_once() {
    let mut s = two();
    match s.start_capture() {
        Ok(StartStep::Spawn(p)) => assert_eq!(p.name, "default"),
        _ => panic!("a task was to be spawned"),
    }
    assert!(!s.config.app.last_capture_running);
    s.started();
    assert!(s.config.app.last_capture_running);
    assert!(s.toggle_stops());
    assert!(matches!(s.start_capture(), Ok(StartStep::AlreadyRunning)));
    assert!(s.stop_capture());
    assert!(!s.config.app.last_capture_running);
    assert!(!s.stop_capture());
}

#[test]
fn a_failed_capture_can_be_started_again() {
    let mut s = two();
    s.started();
    s.reported(CaptureState::Failed);
    assert!(!s.toggle_stops());
    assert!(matches!(s.start_capture(), Ok(StartStep::Spawn(_))));
    assert_eq!(s.capture, None);
}

#[test]
fn nothing_starts_without_a_selected_profile() {
    let mut s = two();
    s.config.app.selected_profile = "gone".to_string();
    match s.start_capture() {
        Err(e) => assert_eq!(e, "no profile selected"),
        Ok(_) => panic!("nothing to start"),
    }
}

#[test]
fn a_parked_capture_is_remembered() {
    let mut s = two();
    assert!(!s.park_capture());
    assert!(!s.config.app.last_capture_running);
    s.started();
    assert!(s.park_capture());
    assert!(s.config.app.last_capture_running);
    assert_eq!(s.capture, None);
}

#[test]
fn selecting_a_profile_restarts_a_capture() {
    let mut s = two();
    assert_eq!(s.select_profile("default"), Ok(SelectStep::Unchanged));
    assert_eq!(s.select_profile("nope"), Err("no such profile: nope".to_string()));
    assert_eq!(s.select_profile("field"), Ok(SelectStep::Selected { restart: false }));
    s.started();
    assert_eq!(s.select_profile("default"), Ok(SelectStep::Selected { restart: true }));
    assert_eq!(s.config.app.selected_profile, "default");
}

#[test]
fn a_saved_configuration_falls_back_to_its_first_profile() {
    let mut s = two();
    s.started();
    let mut new = config_with(vec![seed("a"), seed("b")]);
    new.app.selected_profile = "default".to_string();
    assert_eq!(s.replace_config(new), Ok(true));
    assert_eq!(s.config.app.selected_profile, "a");
    assert!(s.config.app.last_capture_running);
    assert!(s.replace_config(config_with(vec![])).is_err());
    assert_eq!(s.config.profiles.len(), 2);
}

#[test]
fn the_folder_to_open_is_the_edited_one_first() {
    let mut s = two();
    assert_eq!(s.open_store_folder(Some(" /edited ")), Ok("/edited".to_string()));
    assert_eq!(s.open_store_folder(Some("  ")), Ok("C:/tmp/zenmon-test/captures/default".to_string()));
    assert_eq!(s.open_store_folder(None), Ok("C:/tmp/zenmon-test/captures/default".to_string()));
    s.config.app.selected_profile = "gone".to_string();
    assert_eq!(s.open_store_folder(None), Err("no profile selected".to_string()));
}

#[test]
fn the_icon_is_sent_only_when_it_changes() {
    let mut s = two();
    assert_eq!(s.refresh_icon(CaptureState::Running), Some([0x15, 0x80, 0x3D, 0xFF]));
    assert_eq!(s.refresh_icon(CaptureState::Running), None);
    assert_eq!(s.refresh_icon(CaptureState::Starting), Some([0xB4, 0x53, 0x09, 0xFF]));
    assert_eq!(s.refresh_icon(CaptureState::Failed), Some([0xB9, 0x1C, 0x1C, 0xFF]));
    assert_eq!(s.refresh_icon(CaptureState::Idle), Some([0x94, 0xA3, 0xB8, 0xFF]));
}

#[test]
fn the_tooltip_names_the_profile_and_the_count() {
    let mut st = CaptureStatus::starting("default");
    assert_eq!(tooltip(&st), "zenmon-tray — default · connecting…");
    st.state = CaptureState::Running;
    st.messages_written = 12;
    assert_eq!(tooltip(&st), "zenmon-tray — default · 12 msgs\nClick to stop");
    st.last_error = Some("disk full".to_string());
    assert_eq!(tooltip(&st), "zenmon-tray — default: disk full");
    assert_eq!(
        tooltip(&CaptureStatus::idle("default")),
        "zenmon-tray — not capturing\nClick to start"
    );
}

#[test]
fn state_changes_go_through_at_once_and_ticks_do_not() {
    let mut w = StatusWatch { last_state: CaptureState::Starting, last_push: 1_000 };
    assert!(w.observe(CaptureState::Running, 1_001));
    assert!(!w.observe(CaptureState::Running, 1_002));
    assert!(w.observe(CaptureState::Running, u64::MAX));
    assert_eq!(w.last_push, u64::MAX);
}

fn recording() -> CaptureRun {
    let mut run = CaptureRun::new("default");
    assert_eq!(run.status.state, CaptureState::Starting);
    assert_eq!(run.step(CaptureEvent::SessionOpened), CaptureAction::Subscribe);
    assert_eq!(run.step(CaptureEvent::Subscribed), CaptureAction::OpenWriter);
    assert_eq!(
        run.step(CaptureEvent::WriterOpened { started_at_ms: Some(5), now: 100 }),
        CaptureAction::Wait
    );
    assert_eq!(run.status.state, CaptureState::Running);
    assert_eq!(run.status.started_at_ms, Some(5));
    run
}

#[test]
fn a_capture_counts_lines_with_their_newline() {
    let mut run = recording();
    let line = |n| CaptureEvent::LineWritten { line_bytes: n, at_ms: Some(9), now: 200 };
    assert_eq!(run.step(line(10)), CaptureAction::Wait);
    assert_eq!(run.step(line(4)), CaptureAction::Wait);
    assert_eq!(run.status.messages_written, 2);
    assert_eq!(run.status.bytes_written, 16);
    assert_eq!(run.status.last_message_at_ms, Some(9));
}

#[test]
fn retention_is_enforced_once_a_minute() {
    let mut run = recording();
    let late = CaptureEvent::LineWritten {
        line_bytes: 7,
        at_ms: Some(9),
        now: 100 + RETENTION_CHECK_NANOS,
    };
    assert_eq!(run.step(late), CaptureAction::EnforceRetention);
    assert_eq!(run.status.messages_written, 0);
    assert_eq!(
        run.step(CaptureEvent::RetentionChecked { now: 200 + RETENTION_CHECK_NANOS }),
        CaptureAction::Wait
    );
    assert_eq!(run.status.messages_written, 1);
    assert_eq!(run.status.bytes_written, 8);
    assert_eq!(run.last_retention_check, 200 + RETENTION_CHECK_NANOS);
}

#[test]
fn a_line_that_cannot_be_written_is_reported_and_skipped() {
    let mut run = recording();
    assert_eq!(run.step(CaptureEvent::LineFailed("bad".to_string())), CaptureAction::Wait);
    assert_eq!(run.status.last_error, Some("bad".to_string()));
    assert_eq!(run.status.messages_written, 0);
    assert_eq!(run.status.state, CaptureState::Running);
}

#[test]
fn a_capture_ends_idle_or_failed() {
    let mut run = recording();
    assert_eq!(run.step(CaptureEvent::StopSignal(false)), CaptureAction::Wait);
    assert_eq!(run.step(CaptureEvent::StopSignal(true)), CaptureAction::FlushAndStop);
    assert_eq!(
        run.step(CaptureEvent::Ended { error: None, is_error: false }),
        CaptureAction::Exit
    );
    assert_eq!(run.status.state, CaptureState::Idle);
    assert_eq!(run.stage, CaptureStage::Done);

    let mut run = recording();
    assert_eq!(run.step(CaptureEvent::StreamEnded), CaptureAction::FlushAndStop);
    run.step(CaptureEvent::Ended { error: Some("flush".to_string()), is_error: true });
    assert_eq!(run.status.state, CaptureState::Failed);
    assert_eq!(run.status.last_error, Some("flush".to_string()));
}

#[test]
fn a_capture_that_cannot_start_tears_down_what_it_set_up() {
    let mut run = CaptureRun::new("p");
    assert_eq!(
        run.step(CaptureEvent::SessionFailed("a".to_string())),
        CaptureAction::Abandon { stop_subscription: false, close_session: false }
    );
    assert_eq!(run.status.state, CaptureState::Failed);

    let mut run = CaptureRun::new("p");
    run.step(CaptureEvent::SessionOpened);
    assert_eq!(
        run.step(CaptureEvent::SubscribeFailed("b".to_string())),
        CaptureAction::Abandon { stop_subscription: false, close_session: true }
    );

    let mut run = CaptureRun::new("p");
    run.step(CaptureEvent::SessionOpened);
    run.step(CaptureEvent::Subscribed);
    assert_eq!(
        run.step(CaptureEvent::WriterFailed("c".to_string())),
        CaptureAction::Abandon { stop_subscription: true, close_session: true }
    );
    assert_eq!(run.status.last_error, Some("c".to_string()));
}

#[test]
fn times_before_the_epoch_are_no_times() {
    assert_eq!(epoch_millis(None), None);
    assert_eq!(epoch_millis(Some(1_700_000_000_123)), Some(1_700_000_000_123));
}

#[test]
fn the_menu_marks_the_selected_profile() {
    let menu = build_menu(&two().config, true);
    assert!(menu.iter().any(|e| matches!(
        e,
        MenuEntry::Check { id, checked, .. } if id == "capture" && *checked
    )));
    let items = menu
        .iter()
        .find_map(|e| match e {
            MenuEntry::Submenu { items, .. } => Some(items),
            _ => None,
        })
        .unwrap();
    assert_eq!(
        *items,
        vec![
            ("profile:default".to_string(), "default".to_string(), true),
            ("profile:field".to_string(), "field".to_string(), false),
        ]
    );
}

#[test]
fn menu_ids_lead_back_to_what_they_stand_for() {
    assert!(matches!(menu_action("capture"), MenuAction::ToggleCapture));
    assert!(matches!(menu_action("settings"), MenuAction::ShowSettings));
    assert!(matches!(menu_action("quit"), MenuAction::Quit));
    match menu_action("profile:a:b") {
        MenuAction::SelectProfile(name) => assert_eq!(name, "a:b"),
        _ => panic!("a profile was meant"),
    }
    assert!(matches!(menu_action("else"), MenuAction::Nothing));
}

#[test]
fn directories_are_compared_as_path_entries() {
    assert!(same_dir("C:\\Tools\\", "c:/tools".replace('/', "\\").as_str()));
    assert!(same_dir("/usr/BIN//", "/usr/bin"));
    assert!(!same_dir("/usr/bin", "/usr/sbin"));
    assert_eq!(classify("/opt/zenmon/", Some("/opt/Zenmon"), None), "tray");
    assert_eq!(classify("/home/u/.cargo/bin", Some("/opt"), Some("/home/u/.cargo/bin")), "cargo");
    assert_eq!(classify("/usr/bin", Some("/opt"), None), "external");
    assert_eq!(exe_name(true), "zenmon.exe");
    assert_eq!(exe_name(false), "zenmon");
}

#[test]
fn a_version_is_the_first_word_that_parses() {
    assert_eq!(version_of("zenmon 0.4.1"), Ok("0.4.1".to_string()));
    assert_eq!(version_of("zenmon 1.2.3-rc.1+build extra"), Ok("1.2.3-rc.1+build".to_string()));
    assert_eq!(
        version_of("zenmon \"dev\"\n"),
        Err("no version in `zenmon --version` output: \"zenmon \\\"dev\\\"\\n\"".to_string())
    );
}

#[test]
fn the_cli_is_out_of_date_where_its_version_comes_first() {
    let st = |v: Option<&str>| {
        status("0.10.0", Some("/bin/zenmon"), v, Some("external"), true, false).update_available
    };
    assert!(st(Some("0.9.9")));
    assert!(st(Some("0.10.0-rc.1")));
    assert!(!st(Some("0.10.0")));
    assert!(!st(Some("0.11.0")));
    assert!(!st(Some("not a version")));
    assert!(!st(None));
}

#[test]
fn the_bundled_copy_counts_once_the_registry_knows_it() {
    assert_eq!(
        resolve(Some("/a/zenmon".to_string()), Some("/b/zenmon"), true),
        (Some("/a/zenmon".to_string()), false)
    );
    assert_eq!(resolve(None, Some("/b/zenmon"), true), (Some("/b/zenmon".to_string()), true));
    assert_eq!(resolve(None, Some("/b/zenmon"), false), (None, false));
    assert_eq!(resolve(None, None, true), (None, false));
}

#[test]
fn a_failed_run_is_reported_by_its_error_output() {
    let args = vec!["update".to_string(), "apply".to_string()];
    assert_eq!(
        failure_message("zenmon", &args, "exit status: 1", "out", " err \n"),
        "`zenmon update apply` failed (exit status: 1): err"
    );
    assert_eq!(
        failure_message("zenmon", &args, "exit status: 1", "out", " \n"),
        "`zenmon update apply` failed (exit status: 1): out"
    );
    let long = "x".repeat(700);
    assert!(failure_message("z", &args, "1", "", &long).ends_with(&format!("): {}", "x".repeat(500))));
}

#[test]
fn only_a_copy_of_its_own_updates_itself() {
    assert_eq!(may_update(Some("/usr/bin/zenmon"), "external"), Ok("/usr/bin/zenmon".to_string()));
    assert_eq!(may_update(None, ""), Err("zenmon CLI not found on PATH".to_string()));
    assert!(may_update(Some("/opt/zenmon"), "tray").unwrap_err().contains("bundled"));
    assert!(require_bundled(None).unwrap_err().contains("no bundled zenmon CLI"));
    assert_eq!(require_bundled(Some("/b")), Ok("/b".to_string()));
    assert_eq!(answer_line("\n"), Err("zenmon update produced no output".to_string()));
}

#[test]
fn the_user_path_gains_a_directory_once() {
    let entries = vec!["C:\\A".to_string(), "C:\\B\\".to_string()];
    assert!(user_path_contains(&entries, "c:\\b"));
    assert_eq!(add_to_user_path("C:\\A;C:\\B\\", &entries, "C:\\b"), None);
    assert_eq!(
        add_to_user_path("C:\\A;C:\\B\\;;", &entries, "C:\\C"),
        Some("C:\\A;C:\\B\\;C:\\C".to_string())
    );
    assert_eq!(add_to_user_path(" ", &vec![], "C:\\C"), Some("C:\\C".to_string()));
}

#[test]
fn a_binary_that_cannot_update_itself_says_why() {
    assert!(guard(true, true).unwrap_err().contains("dev build"));
    assert!(guard(false, false).unwrap_err().contains("Windows-only"));
    assert!(guard(false, true).is_ok());
}

#[test]
fn an_answer_becomes_a_status() {
    let st = checked(&Ok(Some("2.0.0".to_string())), "1.0.0");
    assert_eq!(st.phase, "available");
    assert_eq!(st.available_version, Some("2.0.0".to_string()));
    assert_eq!(checked(&Ok(None), "1.0.0").phase, "up_to_date");
    let st = checked(&Err("offline".to_string()), "1.0.0");
    assert_eq!(st.phase, "error");
    assert_eq!(st.message, Some("offline".to_string()));
    assert_eq!(current_status(None, "1.0.0").phase, "idle");
    let last = UpdateStatus::new(Phase::Checking, "1.0.0");
    assert_eq!(current_status(Some(&last), "1.0.0").phase, "checking");
}

#[test]
fn progress_is_pushed_at_a_readable_rate() {
    let mut p = Progress::new();
    let first = p.chunk(100, Some(1000), 0, "1.0.0", "2.0.0").unwrap();
    assert_eq!((first.downloaded, first.total), (Some(100), Some(1000)));
    assert!(p.chunk(100, Some(1000), PROGRESS_NANOS - 1, "1.0.0", "2.0.0").is_none());
    let next = p.chunk(100, Some(1000), PROGRESS_NANOS, "1.0.0", "2.0.0").unwrap();
    assert_eq!(next.downloaded, Some(300));
    assert_eq!(next.phase, "downloading");
}

fn context(capturing: bool, confirmed: bool) -> ApplyContext {
    ApplyContext { dev: false, windows: true, capturing, confirmed }
}

#[test]
fn an_update_runs_through_its_stages() {
    let ctx = context(true, true);
    let (s, a) = apply_step(ApplyStage::Start, ctx, "1.0.0", ApplyEvent::Requested { pending: None });
    assert!(matches!(a, ApplyAction::Check));
    let (s, a) =
        apply_step(s, ctx, "1.0.0", ApplyEvent::Checked(Ok(Some("2.0.0".to_string()))));
    match a {
        ApplyAction::Download { status } => {
            assert_eq!(status.available_version, Some("2.0.0".to_string()))
        }
        _ => panic!("a download was to begin"),
    }
    let (s, a) = apply_step(s, ctx, "1.0.0", ApplyEvent::Downloaded(Ok(())));
    assert!(matches!(a, ApplyAction::ParkCapture));
    let (s, a) = apply_step(s, ctx, "1.0.0", ApplyEvent::Parked);
    assert!(matches!(a, ApplyAction::Install { .. }));
    let (s, a) = apply_step(s, ctx, "1.0.0", ApplyEvent::Installed(Ok(())));
    assert!(matches!(a, ApplyAction::Restart));
    assert!(matches!(s, ApplyStage::Done));
}

#[test]
fn an_update_asks_before_it_interrupts_a_capture() {
    let (s, a) = apply_step(
        ApplyStage::Start,
        context(true, false),
        "1.0.0",
        ApplyEvent::Requested { pending: Some("2.0.0".to_string()) },
    );
    assert!(matches!(s, ApplyStage::Done));
    match a {
        ApplyAction::Refuse { message, shown } => {
            assert_eq!(message, "capture-running");
            assert!(shown.is_none());
        }
        _ => panic!("a refusal was due"),
    }
}

#[test]
fn nothing_newer_is_nothing_to_apply() {
    let (_, a) =
        apply_step(ApplyStage::Checking, context(false, false), "1.0.0", ApplyEvent::Checked(Ok(None)));
    match a {
        ApplyAction::Refuse { message, .. } => assert_eq!(message, "already up to date"),
        _ => panic!("a refusal was due"),
    }
}

#[test]
fn an_icon_is_one_color_all_over() {
    let pixels = solid_icon([1, 2, 3, 4]);
    assert_eq!(pixels.len(), 32 * 32 * 4);
    assert!(pixels.chunks(4).all(|p| p == [1, 2, 3, 4]));
}
