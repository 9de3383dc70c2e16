use spp::Actor;
use spp::Mode;
use spp::config::AppConfig;
use spp::config::default_codex_mode_drive;
use spp::config::default_codex_mode_normal;
use spp::gate::classify_actor;
use spp::gate::CommitRecord;
use spp::state::State;
use spp::state::pause_active;
use spp::state::pause_gate;
use spp::state::refresh_pause;
use spp::state::resume_gate;
use spp::state::set_attribution_override;
use spp::state::set_recorder_pid;

#[test]
fn fresh_state_is_normal_and_idle() {
    let s = State::initial();
    assert_eq!(s.mode, Mode::Normal);
    assert!(s.drive_reason.is_none());
    assert!(s.pause_until.is_none());
    assert!(s.active_drive_session.is_none());
    assert!(s.attribution_overrides.is_empty());
}

#[test]
fn pause_clamps_hours_and_expires() {
    let mut s = State::initial();
    pause_gate(&mut s, 1_000, 0);
    assert_eq!(s.pause_until, Some(1_000 + 3600));
    pause_gate(&mut s, 1_000, 200);
    assert_eq!(s.pause_until, Some(1_000 + 24 * 3600));
    pause_gate(&mut s, 1_000, 5);
    assert_eq!(s.pause_until, Some(1_000 + 5 * 3600));

    assert!(pause_active(&s, 1_000 + 5 * 3600 - 1));
    assert!(!pause_active(&s, 1_000 + 5 * 3600));

    refresh_pause(&mut s, 1_000);
    assert!(s.pause_until.is_some());
    refresh_pause(&mut s, 1_000 + 5 * 3600);
    assert!(s.pause_until.is_none());

    pause_gate(&mut s, 2_000, 1);
    resume_gate(&mut s, 2_500);
    assert!(s.pause_until.is_none());
}

#[test]
fn attribution_override_is_persisted_and_applied() {
    let mut s = State::initial();
    let config = AppConfig::default();
    set_attribution_override(&mut s, "deadbeef".to_string(), Actor::Ai, 3_000);
    let c = CommitRecord {
        id: "deadbeef".to_string(),
        message: "plain human work".to_string(),
        author_email: "dev@x".to_string(),
        notes: None,
        numstat: String::new(),
    };
    assert_eq!(classify_actor(&s, &config, &c), Actor::Ai);
    // a later override replaces the earlier one
    set_attribution_override(&mut s, "deadbeef".to_string(), Actor::Human, 3_100);
    assert_eq!(classify_actor(&s, &config, &c), Actor::Human);
}

#[test]
fn recorder_pid_lands_on_the_active_session() {
    let mut s = State::initial();
    set_recorder_pid(&mut s, 99);
    assert!(s.active_drive_session.is_none());
    s.active_drive_session = Some(spp::state::ActiveDriveSession {
        session_id: "x".to_string(),
        started_at: 0,
        history_path: "h".to_string(),
        history_offset: 0,
        transcript_path: "t".to_string(),
        control_path: "c".to_string(),
        done_path: "d".to_string(),
        recorder_pid: None,
    });
    set_recorder_pid(&mut s, 99);
    assert_eq!(s.active_drive_session.as_ref().unwrap().recorder_pid, Some(99));
}

#[test]
fn default_codex_modes_match_the_policy() {
    let normal = default_codex_mode_normal();
    assert_eq!(normal.sandbox, "workspace-write");
    assert_eq!(normal.approval, "on-request");
    let drive = default_codex_mode_drive();
    assert_eq!(drive.sandbox, "read-only");
    assert_eq!(drive.approval, "on-request");
}

#[test]
fn default_config_matches_the_policy() {
    let c = AppConfig::default();
    assert_eq!(c.log_schema_version, "1.1");
    assert_eq!(c.weekly_ratio_target_ppm, 700_000);
    assert_eq!(c.max_log_bytes, 524_288_000);
    assert!(!c.diff_snapshot_enabled);
    assert_eq!(c.transcript.chat_source, "history_jsonl");
    assert_eq!(c.transcript.history_path, "auto");
    assert!(c.transcript.capture_full_text);
    assert_eq!(c.transcript.max_event_bytes, 64_000);
    assert!(c.transcript.include_file_diff);
    assert_eq!(c.transcript.watch_exclude, vec![".git/", ".codex-spp/", "target/"]);
    assert_eq!(c.transcript.poll_interval_ms, 2_000);
    assert!(c.attribution.codex_author_emails.is_empty());
}
