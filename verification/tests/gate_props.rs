use spp::Actor;
use spp::DriveReason;
use spp::Mode;
use spp::config::AppConfig;
use spp::gate::CommitRecord;
use spp::gate::apply_gate;
use spp::gate::classify_actor;
use spp::gate::commit_added_lines;
use spp::gate::compute_weekly_report;
use spp::gate::ratio_ppm;
use spp::state::State;

fn commit(id: &str, message: &str, email: &str, notes: Option<&str>, numstat: &str) -> CommitRecord {
    CommitRecord {
        id: id.to_string(),
        message: message.to_string(),
        author_email: email.to_string(),
        notes: notes.map(|n| n.to_string()),
        numstat: numstat.to_string(),
    }
}

#[test]
fn added_lines_sum_numeric_stats_and_skip_binary_markers() {
    assert_eq!(commit_added_lines("10\t2\tsrc/a.rs\n-\t-\tlogo.png\n3\t0\tb.rs\n"), 13);
    assert_eq!(commit_added_lines(""), 0);
    assert_eq!(commit_added_lines("-\t-\tbin\n"), 0);
    assert_eq!(commit_added_lines("  7\t1\tc.rs  \n"), 7);
    assert_eq!(commit_added_lines("oops\t1\tc.rs\n"), 0);
}

#[test]
fn classifier_default_is_human() {
    let state = State::initial();
    let config = AppConfig::default();
    let c = commit("abc", "plain work", "dev@example.com", None, "");
    assert_eq!(classify_actor(&state, &config, &c), Actor::Human);
}

#[test]
fn classifier_sees_the_coauthor_trailer() {
    let state = State::initial();
    let config = AppConfig::default();
    let c = commit("abc", "feat: x\n\nCo-Authored-By: Codex <bot@x>", "dev@example.com", None, "");
    assert_eq!(classify_actor(&state, &config, &c), Actor::Ai);
}

#[test]
fn classifier_matches_configured_emails_case_insensitively() {
    let state = State::initial();
    let mut config = AppConfig::default();
    config.attribution.codex_author_emails.push("Bot@Example.COM".to_string());
    let c = commit("abc", "msg", "  bot@example.com \n", None, "");
    assert_eq!(classify_actor(&state, &config, &c), Actor::Ai);
}

#[test]
fn classifier_reads_note_markers() {
    let state = State::initial();
    let config = AppConfig::default();
    let ai = commit("a", "msg", "dev@x", Some("reviewed SPP:AI later"), "");
    assert_eq!(classify_actor(&state, &config, &ai), Actor::Ai);
    let human = commit("b", "msg", "dev@x", Some("spp:human"), "");
    assert_eq!(classify_actor(&state, &config, &human), Actor::Human);
    let both = commit("c", "msg", "dev@x", Some("spp:human spp:ai"), "");
    // the AI marker is checked first
    assert_eq!(classify_actor(&state, &config, &both), Actor::Ai);
}

#[test]
fn override_always_wins() {
    let mut state = State::initial();
    let config = AppConfig::default();
    state.attribution_overrides.push(("abc".to_string(), Actor::Human));
    // trailer, email and note all say AI; the override says Human
    let mut cfg = config;
    cfg.attribution.codex_author_emails.push("bot@x".to_string());
    let c = commit("abc", "Co-Authored-By: Codex", "bot@x", Some("spp:ai"), "");
    assert_eq!(classify_actor(&state, &cfg, &c), Actor::Human);
}

#[test]
fn ratio_formula_on_a_synthetic_commit_set() {
    // three human commits totaling 70 added lines, two AI commits
    // totaling 30 => ratio 0.70
    let state = State::initial();
    let config = AppConfig::default();
    let commits = vec![
        commit("h1", "a", "dev@x", None, "30\t0\tf\n"),
        commit("h2", "b", "dev@x", None, "20\t0\tf\n"),
        commit("h3", "c", "dev@x", None, "20\t0\tf\n"),
        commit("a1", "Co-Authored-By: Codex", "dev@x", None, "10\t0\tf\n"),
        commit("a2", "Co-Authored-By: Codex", "dev@x", None, "20\t0\tf\n"),
    ];
    let report = compute_weekly_report(&config, &state, &commits, 1_700_000_000);
    assert_eq!(report.human_lines_added, 70);
    assert_eq!(report.ai_lines_added, 30);
    assert_eq!(report.human_commit_count, 3);
    assert_eq!(report.ai_commit_count, 2);
    assert_eq!(report.ratio_ppm, 700_000);
    assert!(report.gate_passed);
}

#[test]
fn gate_boundary_is_inclusive() {
    assert_eq!(ratio_ppm(70, 30), 700_000);
    assert!(ratio_ppm(70, 30) >= 700_000);
    // 0.699999 fails a 0.70 target
    assert_eq!(ratio_ppm(699_999, 300_001), 699_999);
    assert!(ratio_ppm(699_999, 300_001) < 700_000);
}

#[test]
fn empty_week_counts_as_fully_human_and_passes() {
    let state = State::initial();
    let config = AppConfig::default();
    let report = compute_weekly_report(&config, &state, &vec![], 1_700_000_000);
    assert_eq!(report.ratio_ppm, 1_000_000);
    assert!(report.gate_passed);
    assert_eq!(report.human_commit_count, 0);
    assert_eq!(report.ai_commit_count, 0);
}

#[test]
fn failing_gate_forces_drive_and_notes_it() {
    let mut state = State::initial();
    let config = AppConfig::default();
    let commits = vec![commit("a1", "Co-Authored-By: Codex", "dev@x", None, "100\t0\tf\n")];
    let mut report = compute_weekly_report(&config, &state, &commits, 1_700_000_000);
    assert!(!report.gate_passed);
    apply_gate(&mut state, &mut report, false);
    assert_eq!(state.mode, Mode::Drive);
    assert_eq!(state.drive_reason, Some(DriveReason::Gate));
    assert_eq!(report.mode_after_evaluation, Mode::Drive);
    assert_eq!(report.notes, vec!["ratio below target, forced drive mode".to_string()]);
}

#[test]
fn passing_gate_reverts_only_gate_forced_drive() {
    let config = AppConfig::default();
    let mut state = State::initial();
    state.mode = Mode::Drive;
    state.drive_reason = Some(DriveReason::Gate);
    let mut report = compute_weekly_report(&config, &state, &vec![], 1_700_000_000);
    apply_gate(&mut state, &mut report, false);
    assert_eq!(state.mode, Mode::Normal);
    assert_eq!(state.drive_reason, None);

    let mut manual = State::initial();
    manual.mode = Mode::Drive;
    manual.drive_reason = Some(DriveReason::Manual);
    let mut report = compute_weekly_report(&config, &manual, &vec![], 1_700_000_000);
    apply_gate(&mut manual, &mut report, false);
    assert_eq!(manual.mode, Mode::Drive);
    assert_eq!(manual.drive_reason, Some(DriveReason::Manual));
}

#[test]
fn pause_bypasses_the_evaluation() {
    let config = AppConfig::default();
    let mut state = State::initial();
    state.mode = Mode::Drive;
    state.drive_reason = Some(DriveReason::Gate);
    let mut report = compute_weekly_report(&config, &state, &vec![], 1_700_000_000);
    assert!(report.gate_passed);
    apply_gate(&mut state, &mut report, true);
    // a pass under pause changes nothing
    assert_eq!(state.mode, Mode::Drive);
    assert_eq!(state.drive_reason, Some(DriveReason::Gate));
    assert_eq!(report.notes, vec!["gate evaluation bypassed due to active pause".to_string()]);
}

#[test]
fn week_bounds_span_seven_utc_days_from_monday() {
    // ISO week 46 of 2023 starts Monday 2023-11-13 00:00:00 UTC
    let (start, end) = spp::gate::week_bounds(2023, 46).unwrap();
    assert_eq!(start, 1_699_833_600);
    assert_eq!(end, start + 7 * 86_400);
    assert!(spp::gate::week_bounds(2023, 60).is_none());
}

#[test]
fn report_carries_week_and_target() {
    let state = State::initial();
    let config = AppConfig::default();
    // 2023-11-14 21:13:20 UTC falls in ISO week 46 of 2023
    let report = compute_weekly_report(&config, &state, &vec![], 1_700_000_000);
    assert_eq!(report.year, 2023);
    assert_eq!(report.iso_week, 46);
    assert_eq!(report.target_ppm, 700_000);
    assert_eq!(report.generated_at, 1_700_000_000);
    assert_eq!(report.log_schema_version, "1.1");
}
