use spp::DriveReason;
use spp::Mode;
use spp::SppError;
use spp::config::AppConfig;
use spp::gate::apply_gate;
use spp::gate::compute_weekly_report;
use spp::recorder::RecorderDone;
use spp::session::DriveCommand;
use spp::session::DriveOutcome;
use spp::session::StartRequest;
use spp::session::StopRequest;
use spp::session::cmd_drive;
use spp::session::drive_start_plan;
use spp::session::drive_stop_plan;
use spp::session::stop_wait_timeout;
use spp::session::validate_codex_extra_args;
use spp::session::validate_transcript_source;
use spp::session::codex_plan;
use spp::state::ActiveDriveSession;
use spp::state::State;

fn start_request(session_id: &str) -> StartRequest {
    StartRequest {
        history_exists: true,
        history_len: 512,
        history_path: "/home/u/.codex/history.jsonl".to_string(),
        session_id: session_id.to_string(),
        transcript_path: format!(".codex-spp/transcripts/{session_id}.jsonl"),
        control_path: format!(".codex-spp/runtime/{session_id}.control"),
        done_path: format!(".codex-spp/runtime/{session_id}.done"),
        commits: vec![],
        now: 1_700_000_000,
    }
}

fn active_session(id: &str) -> ActiveDriveSession {
    ActiveDriveSession {
        session_id: id.to_string(),
        started_at: 1_699_999_000,
        history_path: "h".to_string(),
        history_offset: 100,
        transcript_path: "t".to_string(),
        control_path: "c".to_string(),
        done_path: "d".to_string(),
        recorder_pid: Some(4242),
    }
}

#[test]
fn starting_begins_a_session_with_the_baseline_offset() {
    let mut state = State::initial();
    let config = AppConfig::default();
    let plan = drive_start_plan(&mut state, &config, start_request("s-1")).unwrap();
    assert_eq!(state.mode, Mode::Drive);
    assert_eq!(state.drive_reason, Some(DriveReason::Manual));
    let s = state.active_drive_session.as_ref().unwrap();
    assert_eq!(s.session_id, "s-1");
    assert_eq!(s.history_offset, 512);
    assert!(s.recorder_pid.is_none());
    assert_eq!(plan.args.session_id, "s-1");
    assert_eq!(plan.args.history_offset, 512);
    assert_eq!(plan.args.max_event_bytes, 64000);
    assert_eq!(plan.args.exclude, vec![".git/", ".codex-spp/", "target/"]);
    assert!(plan.report.gate_passed);
}

#[test]
fn starting_a_second_session_fails_without_mutating_the_first() {
    let mut state = State::initial();
    state.active_drive_session = Some(active_session("first"));
    state.mode = Mode::Drive;
    state.drive_reason = Some(DriveReason::Manual);
    let config = AppConfig::default();
    let r = drive_start_plan(&mut state, &config, start_request("second"));
    assert_eq!(r.err(), Some(SppError::SessionAlreadyActive));
    let s = state.active_drive_session.as_ref().unwrap();
    assert_eq!(s.session_id, "first");
    assert_eq!(s.history_offset, 100);
    assert_eq!(s.recorder_pid, Some(4242));
    assert_eq!(state.mode, Mode::Drive);
}

#[test]
fn starting_without_a_history_file_fails_cleanly() {
    let mut state = State::initial();
    let config = AppConfig::default();
    let mut req = start_request("s-1");
    req.history_exists = false;
    let r = drive_start_plan(&mut state, &config, req);
    assert_eq!(r.err(), Some(SppError::HistoryFileMissing));
    assert!(state.active_drive_session.is_none());
    assert_eq!(state.mode, Mode::Normal);
}

#[test]
fn start_keeps_a_gate_forced_reason() {
    let mut state = State::initial();
    state.mode = Mode::Drive;
    state.drive_reason = Some(DriveReason::Gate);
    let config = AppConfig::default();
    // the empty week passes, but a pause blocks the reversion
    state.pause_until = Some(1_700_000_500);
    drive_start_plan(&mut state, &config, start_request("s-2")).unwrap();
    assert_eq!(state.mode, Mode::Drive);
    assert_eq!(state.drive_reason, Some(DriveReason::Gate));
}

#[test]
fn unsupported_chat_source_is_rejected() {
    let mut config = AppConfig::default();
    config.transcript.chat_source = "webhook".to_string();
    assert_eq!(
        validate_transcript_source(&config.transcript).err(),
        Some(SppError::UnsupportedChatSource)
    );
    let mut state = State::initial();
    let r = drive_start_plan(&mut state, &config, start_request("s"));
    assert_eq!(r.err(), Some(SppError::UnsupportedChatSource));
}

#[test]
fn stopping_without_a_session_fails() {
    let mut state = State::initial();
    let req = StopRequest {
        done: None,
        finished_at: "2023-11-14T22:13:20Z".to_string(),
        termination_note: None,
        now: 1_700_000_000,
    };
    assert_eq!(drive_stop_plan(&mut state, req).err(), Some(SppError::NoActiveSession));
}

#[test]
fn stopping_with_a_summary_uses_its_stats() {
    let mut state = State::initial();
    state.active_drive_session = Some(active_session("s-9"));
    let done = RecorderDone {
        session_id: "s-9".to_string(),
        finished_at: "2023-11-14T22:13:20Z".to_string(),
        history_offset: 900,
        chat_events: 4,
        diff_events: 2,
        errors: vec![],
    };
    let req = StopRequest {
        done: Some(done),
        finished_at: "2023-11-14T22:13:20Z".to_string(),
        termination_note: None,
        now: 1_700_000_000,
    };
    let plan = drive_stop_plan(&mut state, req).unwrap();
    assert!(!plan.timed_out);
    assert_eq!(plan.reason, "manual_stop");
    assert_eq!(plan.done.chat_events, 4);
    assert_eq!(plan.done.diff_events, 2);
    assert_eq!(plan.duration_sec, 1_700_000_000 - 1_699_999_000);
    assert!(state.active_drive_session.is_none());
}

#[test]
fn stop_timeout_synthesizes_a_summary_with_errors() {
    let mut state = State::initial();
    state.active_drive_session = Some(active_session("s-7"));
    let req = StopRequest {
        done: None,
        finished_at: "2023-11-14T22:13:20Z".to_string(),
        termination_note: Some(
            "recorder did not finish in time; sent termination signal to pid 4242".to_string(),
        ),
        now: 1_700_000_000,
    };
    let plan = drive_stop_plan(&mut state, req).unwrap();
    assert!(plan.timed_out);
    assert_eq!(plan.reason, "manual_stop_timeout");
    assert!(!plan.done.errors.is_empty());
    assert_eq!(plan.done.session_id, "s-7");
    assert_eq!(plan.done.history_offset, 100);
    assert_eq!(plan.done.chat_events, 0);
    assert_eq!(plan.done.diff_events, 0);
}

#[test]
fn stop_timeout_without_a_note_still_reports_one_error() {
    let mut state = State::initial();
    state.active_drive_session = Some(active_session("s-8"));
    let req = StopRequest {
        done: None,
        finished_at: "now".to_string(),
        termination_note: None,
        now: 1_700_000_000,
    };
    let plan = drive_stop_plan(&mut state, req).unwrap();
    assert_eq!(plan.done.errors, vec!["recorder did not finish in time".to_string()]);
}

#[test]
fn stop_reverts_only_a_manual_drive() {
    let mut state = State::initial();
    state.mode = Mode::Drive;
    state.drive_reason = Some(DriveReason::Manual);
    state.active_drive_session = Some(active_session("m"));
    let req = StopRequest {
        done: None,
        finished_at: "now".to_string(),
        termination_note: None,
        now: 1_700_000_000,
    };
    drive_stop_plan(&mut state, req).unwrap();
    assert_eq!(state.mode, Mode::Normal);
    assert_eq!(state.drive_reason, None);
}

#[test]
fn gate_forced_drive_survives_stop_until_a_passing_evaluation() {
    let mut state = State::initial();
    state.mode = Mode::Drive;
    state.drive_reason = Some(DriveReason::Gate);
    state.active_drive_session = Some(active_session("g"));
    let req = StopRequest {
        done: None,
        finished_at: "now".to_string(),
        termination_note: None,
        now: 1_700_000_000,
    };
    drive_stop_plan(&mut state, req).unwrap();
    // stopping the recording did not clear the forced mode
    assert_eq!(state.mode, Mode::Drive);
    assert_eq!(state.drive_reason, Some(DriveReason::Gate));

    // only a passing evaluation does
    let config = AppConfig::default();
    let mut report = compute_weekly_report(&config, &state, &vec![], 1_700_000_100);
    assert!(report.gate_passed);
    apply_gate(&mut state, &mut report, false);
    assert_eq!(state.mode, Mode::Normal);
    assert_eq!(state.drive_reason, None);
}

#[test]
fn drive_dispatch_routes_each_subcommand() {
    let mut state = State::initial();
    let config = AppConfig::default();
    let r = cmd_drive(&mut state, &config, DriveCommand::Status);
    assert!(matches!(r, Ok(DriveOutcome::Status)));
    let r = cmd_drive(&mut state, &config, DriveCommand::Start(start_request("d-1")));
    assert!(matches!(r, Ok(DriveOutcome::Started(_))));
    let req = StopRequest {
        done: None,
        finished_at: "now".to_string(),
        termination_note: None,
        now: 1_700_000_001,
    };
    let r = cmd_drive(&mut state, &config, DriveCommand::Stop(req));
    assert!(matches!(r, Ok(DriveOutcome::Stopped(_))));
    assert!(state.active_drive_session.is_none());
}

#[test]
fn managed_codex_arguments_are_rejected() {
    assert!(validate_codex_extra_args(&vec![]).is_ok());
    assert!(validate_codex_extra_args(&vec!["--model".to_string(), "o".to_string()]).is_ok());
    assert_eq!(
        validate_codex_extra_args(&vec!["--full-auto".to_string()]).err(),
        Some(SppError::FullAutoProhibited)
    );
    assert_eq!(
        validate_codex_extra_args(&vec!["--full-auto=yes".to_string()]).err(),
        Some(SppError::FullAutoProhibited)
    );
    assert_eq!(
        validate_codex_extra_args(&vec!["--sandbox".to_string()]).err(),
        Some(SppError::SandboxManaged)
    );
    assert_eq!(
        validate_codex_extra_args(&vec!["--ask-for-approval=never".to_string()]).err(),
        Some(SppError::ApprovalManaged)
    );
}

#[test]
fn codex_plan_appends_the_managed_arguments() {
    let mut state = State::initial();
    let config = AppConfig::default();
    let extra = vec!["exec".to_string(), "task".to_string()];
    let plan = codex_plan(&mut state, &config, &extra, &vec![], 1_700_000_000).unwrap();
    assert_eq!(plan.mode, Mode::Normal);
    assert_eq!(plan.sandbox, "workspace-write");
    assert_eq!(plan.approval, "on-request");
    assert_eq!(
        plan.codex_args,
        vec!["exec", "task", "--sandbox", "workspace-write", "--ask-for-approval", "on-request"]
    );
}

#[test]
fn codex_plan_uses_drive_settings_when_the_gate_fails() {
    let mut state = State::initial();
    let config = AppConfig::default();
    let commits = vec![spp::gate::CommitRecord {
        id: "x".to_string(),
        message: "Co-Authored-By: Codex".to_string(),
        author_email: "d@x".to_string(),
        notes: None,
        numstat: "10\t0\tf\n".to_string(),
    }];
    let plan = codex_plan(&mut state, &config, &vec![], &commits, 1_700_000_000).unwrap();
    assert_eq!(plan.mode, Mode::Drive);
    assert_eq!(plan.sandbox, "read-only");
    assert_eq!(state.drive_reason, Some(DriveReason::Gate));
}

#[test]
fn codex_plan_rejects_managed_arguments_without_touching_state() {
    let mut state = State::initial();
    let config = AppConfig::default();
    let extra = vec!["--full-auto".to_string()];
    let r = codex_plan(&mut state, &config, &extra, &vec![], 1_700_000_000);
    assert_eq!(r.err(), Some(SppError::FullAutoProhibited));
    assert_eq!(state.mode, Mode::Normal);
    assert!(state.drive_reason.is_none());
}

#[test]
fn stop_wait_is_three_polls_with_a_floor() {
    let mut config = AppConfig::default();
    assert_eq!(stop_wait_timeout(&config), 15_000);
    config.transcript.poll_interval_ms = 10_000;
    assert_eq!(stop_wait_timeout(&config), 30_000);
    config.transcript.poll_interval_ms = 0;
    assert_eq!(stop_wait_timeout(&config), 15_000);
}

#[test]
fn errors_describe_themselves_tersely() {
    assert_eq!(SppError::NoActiveSession.describe(), "no active drive session");
    assert_eq!(
        SppError::FullAutoProhibited.describe(),
        "`--full-auto` is prohibited by SPP policy"
    );
}
