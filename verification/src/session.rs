//! The session controller: starting and stopping the single drive
//! recording session, the stop-wait timeout, and the decisions behind
//! launching the assistant.  File, process and clock work stays outside;
//! these functions turn its plain results into checked state changes.

use vstd::prelude::*;

use vstd::string::StringExecFns;

use crate::DriveReason;
use crate::Mode;
use crate::SppError;
use crate::config::AppConfig;
use crate::config::TranscriptConfig;
use crate::gate::CommitRecord;
use crate::gate::WeeklyReport;
use crate::gate::apply_gate;
use crate::gate::capped;
use crate::gate::gate_transition;
use crate::gate::metrics_spec;
use crate::outside::iso_week_of;
use crate::gate::notes_pushed;
use crate::gate::ratio_ppm_spec;
use crate::gate::compute_weekly_report;
use crate::recorder::RecorderDone;
use crate::state::ActiveDriveSession;
use crate::state::State;
use crate::state::pause_active;
use crate::state::refresh_pause;
use crate::text::clone_strings;
use crate::text::is_prefix;
use crate::text::str_eq;
use crate::text::str_starts_with;

verus! {

/// Everything the detached recorder process is handed on its command
/// line.
pub struct DriveRecordArgs {
    pub session_id: String,
    pub log_schema_version: String,
    pub transcript_path: String,
    pub history_path: String,
    pub history_offset: u64,
    pub control_path: String,
    pub done_path: String,
    pub include_file_diff: bool,
    pub capture_full_text: bool,
    pub max_event_bytes: u64,
    pub poll_interval_ms: u64,
    pub exclude: Vec<String>,
}

/// Marshals one recorder invocation from the session's identifiers and
/// the transcript configuration.
pub fn build_recorder_args(
    session_id: &String,
    log_schema_version: &String,
    transcript_path: &String,
    history_path: &String,
    history_offset: u64,
    control_path: &String,
    done_path: &String,
    transcript: &TranscriptConfig,
) -> (r: DriveRecordArgs)
    ensures
        r.session_id == session_id,
        r.log_schema_version == log_schema_version,
        r.transcript_path == transcript_path,
        r.history_path == history_path,
        r.history_offset == history_offset,
        r.control_path == control_path,
        r.done_path == done_path,
        r.include_file_diff == transcript.include_file_diff,
        r.capture_full_text == transcript.capture_full_text,
        r.max_event_bytes == transcript.max_event_bytes,
        r.poll_interval_ms == transcript.poll_interval_ms,
        r.exclude@ == transcript.watch_exclude@,
{
    DriveRecordArgs {
        session_id: session_id.clone(),
        log_schema_version: log_schema_version.clone(),
        transcript_path: transcript_path.clone(),
        history_path: history_path.clone(),
        history_offset,
        control_path: control_path.clone(),
        done_path: done_path.clone(),
        include_file_diff: transcript.include_file_diff,
        capture_full_text: transcript.capture_full_text,
        max_event_bytes: transcript.max_event_bytes,
        poll_interval_ms: transcript.poll_interval_ms,
        exclude: clone_strings(&transcript.watch_exclude),
    }
}

/// Accepts only the one supported chat source.
pub fn validate_transcript_source(config: &TranscriptConfig) -> (r: Result<(), SppError>)
    ensures
        r == (if config.chat_source@ == "history_jsonl"@ {
            Ok::<(), SppError>(())
        } else {
            Err::<(), SppError>(SppError::UnsupportedChatSource)
        }),
{
    if str_eq(config.chat_source.as_str(), "history_jsonl") {
        Ok(())
    } else {
        Err(SppError::UnsupportedChatSource)
    }
}

/// The policy violation one extra argument commits, if any.
pub open spec fn arg_violation(a: Seq<char>) -> Option<SppError> {
    if a == "--full-auto"@ || is_prefix(a, "--full-auto="@) {
        Some(SppError::FullAutoProhibited)
    } else if a == "--sandbox"@ || is_prefix(a, "--sandbox="@) {
        Some(SppError::SandboxManaged)
    } else if a == "--ask-for-approval"@ || is_prefix(a, "--ask-for-approval="@) {
        Some(SppError::ApprovalManaged)
    } else {
        None
    }
}

/// The first policy violation among the extra arguments, if any.
pub open spec fn first_violation(args: Seq<String>) -> Option<SppError>
    decreases args.len(),
{
    if args.len() == 0 {
        None
    } else {
        match arg_violation(args[0]@) {
            Some(e) => Some(e),
            None => first_violation(args.drop_first()),
        }
    }
}

/// Rejects extra assistant arguments that would bypass the policy:
/// `--full-auto` is prohibited, and the sandbox and approval levels are
/// managed here.
pub fn validate_codex_extra_args(extra: &Vec<String>) -> (r: Result<(), SppError>)
    ensures
        r == (match first_violation(extra@) {
            None => Ok::<(), SppError>(()),
            Some(e) => Err::<(), SppError>(e),
        }),
{
    let n = extra.len();
    let mut i: usize = 0;
    proof {
        assert(extra@.skip(0) =~= extra@);
    }
    while i < n
        invariant
            n == extra@.len(),
            i <= n,
            first_violation(extra@) == first_violation(extra@.skip(i as int)),
        decreases n - i,
    {
        proof {
            assert(extra@.skip(i as int)[0] == extra@[i as int]);
            assert(extra@.skip(i as int).drop_first() =~= extra@.skip(i as int + 1));
        }
        let a = extra[i].as_str();
        if str_eq(a, "--full-auto") || str_starts_with(a, "--full-auto=") {
            return Err(SppError::FullAutoProhibited);
        }
        if str_eq(a, "--sandbox") || str_starts_with(a, "--sandbox=") {
            return Err(SppError::SandboxManaged);
        }
        if str_eq(a, "--ask-for-approval") || str_starts_with(a, "--ask-for-approval=") {
            return Err(SppError::ApprovalManaged);
        }
        i += 1;
    }
    proof {
        assert(extra@.skip(n as int) =~= Seq::<String>::empty());
    }
    Ok(())
}

/// How long a stop waits for the recorder's summary, in milliseconds:
/// three poll intervals (the interval clamped up to 100 ms first), and
/// never less than fifteen seconds.
pub open spec fn stop_wait_ms(poll_ms: u64) -> int {
    let p: int = if poll_ms < 100 {
        100
    } else {
        poll_ms as int
    };
    let d: int = if p * 3 > u64::MAX {
        u64::MAX as int
    } else {
        p * 3
    };
    if d < 15000 {
        15000
    } else {
        d
    }
}

pub fn stop_wait_timeout(config: &AppConfig) -> (r: u64)
    ensures
        r == stop_wait_ms(config.transcript.poll_interval_ms),
{
    let poll = config.transcript.poll_interval_ms;
    let p: u64 = if poll < 100 {
        100
    } else {
        poll
    };
    let d: u64 = if p > u64::MAX / 3 {
        u64::MAX
    } else {
        p * 3
    };
    if d < 15000 {
        15000
    } else {
        d
    }
}

/// What a start decision consumes: the resolved history file's presence
/// and length, the freshly generated identifiers and paths, this week's
/// commits, and the clock.
pub struct StartRequest {
    pub history_exists: bool,
    pub history_len: u64,
    pub history_path: String,
    pub session_id: String,
    pub transcript_path: String,
    pub control_path: String,
    pub done_path: String,
    pub commits: Vec<CommitRecord>,
    pub now: i64,
}

/// A successful start: the recorder arguments, and the weekly report that
/// evaluation produced on the way.
pub struct StartPlan {
    pub args: DriveRecordArgs,
    pub report: WeeklyReport,
}

/// The report fields a gate evaluation pins down, before the mode note.
pub open spec fn report_core(
    rep: WeeklyReport,
    config: &AppConfig,
    ov: Seq<(String, crate::Actor)>,
    emails: Seq<String>,
    commits: Seq<CommitRecord>,
    now: i64,
) -> bool {
    let m = metrics_spec(ov, emails, commits);
    &&& rep.log_schema_version@ == config.log_schema_version@
    &&& rep.generated_at == now
    &&& rep.year == iso_week_of(now).0
    &&& rep.iso_week == iso_week_of(now).1
    &&& rep.human_lines_added == capped(m.human_lines)
    &&& rep.ai_lines_added == capped(m.ai_lines)
    &&& rep.human_commit_count == m.human_commits
    &&& rep.ai_commit_count == m.ai_commits
    &&& rep.ratio_ppm == ratio_ppm_spec(rep.human_lines_added, rep.ai_lines_added)
    &&& rep.target_ppm == config.weekly_ratio_target_ppm
    &&& rep.gate_passed == (rep.ratio_ppm >= rep.target_ppm)
}

/// Whether a pause window covers the instant, as the state stands before
/// expiry refresh.
pub open spec fn pause_covers(pre: State, now: i64) -> bool {
    match pre.pause_until {
        Some(u) => now < u,
        None => false,
    }
}

/// The pause window after expiry refresh.
pub open spec fn refreshed_pause(pre: State, now: i64) -> Option<i64> {
    match pre.pause_until {
        Some(u) => if now >= u {
            None
        } else {
            Some(u)
        },
        None => None,
    }
}

/// Everything a start decides.  On any error the state is untouched — in
/// particular, a second start while a session is active fails without
/// mutating the existing session.
pub open spec fn start_post(
    pre: State,
    post: State,
    config: &AppConfig,
    req: StartRequest,
    r: Result<StartPlan, SppError>,
) -> bool {
    let src_ok = config.transcript.chat_source@ == "history_jsonl"@;
    let was_active = pre.active_drive_session is Some;
    match r {
        Err(e) => {
            &&& post == pre
            &&& ((!src_ok && e == SppError::UnsupportedChatSource) || (src_ok && was_active && e
                == SppError::SessionAlreadyActive) || (src_ok && !was_active
                && !req.history_exists && e == SppError::HistoryFileMissing))
        },
        Ok(plan) => {
            let paused = pause_covers(pre, req.now);
            let (m1, r1) = gate_transition(
                pre.mode,
                pre.drive_reason,
                plan.report.gate_passed,
                paused,
            );
            &&& src_ok && !was_active && req.history_exists
            &&& report_core(
                plan.report,
                config,
                pre.attribution_overrides@,
                config.attribution.codex_author_emails@,
                req.commits@,
                req.now,
            )
            &&& plan.report.mode_after_evaluation == m1
            &&& (paused ==> notes_pushed(
                Seq::empty(),
                plan.report.notes@,
                "gate evaluation bypassed due to active pause"@,
            ))
            &&& (!paused && !plan.report.gate_passed ==> notes_pushed(
                Seq::empty(),
                plan.report.notes@,
                "ratio below target, forced drive mode"@,
            ))
            &&& (!paused && plan.report.gate_passed ==> plan.report.notes@.len() == 0)
            &&& post.mode == Mode::Drive
            &&& post.drive_reason == (if r1 == Some(DriveReason::Gate) {
                Some(DriveReason::Gate)
            } else {
                Some(DriveReason::Manual)
            })
            &&& post.pause_until == refreshed_pause(pre, req.now)
            &&& post.attribution_overrides == pre.attribution_overrides
            &&& post.updated_at == pre.updated_at
            &&& (post.active_drive_session matches Some(s) && {
                &&& s.session_id == req.session_id
                &&& s.started_at == req.now
                &&& s.history_path == req.history_path
                &&& s.history_offset == req.history_len
                &&& s.transcript_path == req.transcript_path
                &&& s.control_path == req.control_path
                &&& s.done_path == req.done_path
                &&& s.recorder_pid is None
            })
            &&& plan.args.session_id == req.session_id
            &&& plan.args.log_schema_version == config.log_schema_version
            &&& plan.args.transcript_path == req.transcript_path
            &&& plan.args.history_path == req.history_path
            &&& plan.args.history_offset == req.history_len
            &&& plan.args.control_path == req.control_path
            &&& plan.args.done_path == req.done_path
            &&& plan.args.include_file_diff == config.transcript.include_file_diff
            &&& plan.args.capture_full_text == config.transcript.capture_full_text
            &&& plan.args.max_event_bytes == config.transcript.max_event_bytes
            &&& plan.args.poll_interval_ms == config.transcript.poll_interval_ms
            &&& plan.args.exclude@ == config.transcript.watch_exclude@
        },
    }
}

/// Decides a session start: checks the chat source, the single-session
/// invariant and the history file; runs a gate evaluation; enters drive mode
/// (a gate-forced reason is kept, anything else becomes manual); and
/// records the new session with its baseline offset.
pub fn drive_start_plan(state: &mut State, config: &AppConfig, req: StartRequest) -> (r: Result<
    StartPlan,
    SppError,
>)
    ensures
        start_post(*old(state), *final(state), config, req, r),
{
    if let Err(e) = validate_transcript_source(&config.transcript) {
        return Err(e);
    }
    if state.active_drive_session.is_some() {
        return Err(SppError::SessionAlreadyActive);
    }
    if !req.history_exists {
        return Err(SppError::HistoryFileMissing);
    }
    refresh_pause(state, req.now);
    let paused = pause_active(state, req.now);
    let mut report = compute_weekly_report(config, state, &req.commits, req.now);
    apply_gate(state, &mut report, paused);
    proof {
        assert(report.notes@.take(0) =~= Seq::<String>::empty());
    }
    state.mode = Mode::Drive;
    let keep_gate = matches!(state.drive_reason, Some(DriveReason::Gate));
    state.drive_reason = if keep_gate {
        Some(DriveReason::Gate)
    } else {
        Some(DriveReason::Manual)
    };
    let args = build_recorder_args(
        &req.session_id,
        &config.log_schema_version,
        &req.transcript_path,
        &req.history_path,
        req.history_len,
        &req.control_path,
        &req.done_path,
        &config.transcript,
    );
    state.active_drive_session = Some(
        ActiveDriveSession {
            session_id: req.session_id,
            started_at: req.now,
            history_path: req.history_path,
            history_offset: req.history_len,
            transcript_path: req.transcript_path,
            control_path: req.control_path,
            done_path: req.done_path,
            recorder_pid: None,
        },
    );
    Ok(StartPlan { args, report })
}

/// What a stop decision consumes: the recorder's summary if it arrived in
/// time, the rendered finish instant for a synthesized one, the outcome
/// of forced termination when it did not, and the clock.
pub struct StopRequest {
    pub done: Option<RecorderDone>,
    pub finished_at: String,
    pub termination_note: Option<String>,
    pub now: i64,
}

/// Everything a stop decided: the session that was stopped, the summary
/// to report, and how the session ended.
pub struct StopPlan {
    pub session: ActiveDriveSession,
    pub done: RecorderDone,
    pub timed_out: bool,
    pub duration_sec: i64,
    /// `manual_stop`, or `manual_stop_timeout` when the recorder had to
    /// be terminated.
    pub reason: String,
}

/// Seconds between start and stop, clamped to a representable range.
pub open spec fn duration_spec(now: i64, started_at: i64) -> int {
    let d = now - started_at;
    if d < 0 {
        0
    } else if d > i64::MAX {
        i64::MAX as int
    } else {
        d
    }
}

/// Everything a stop decides.  Without an active session it fails and
/// changes nothing.  A missing summary means the recorder timed out: the
/// plan carries a synthesized summary with a non-empty error list and
/// the timeout reason.  Stopping reverts only a manually entered drive
/// mode: a gate-forced one stays until a passing evaluation clears it.
pub open spec fn stop_post(
    pre: State,
    post: State,
    req: StopRequest,
    r: Result<StopPlan, SppError>,
) -> bool {
    match pre.active_drive_session {
        None => r == Err::<StopPlan, SppError>(SppError::NoActiveSession) && post == pre,
        Some(active) => r matches Ok(plan) && {
            let manual = pre.mode == Mode::Drive && pre.drive_reason == Some(DriveReason::Manual);
            &&& plan.session == active
            &&& plan.timed_out == (req.done is None)
            &&& (req.done matches Some(d) ==> plan.done == d)
            &&& (req.done is None ==> {
                &&& plan.done.session_id == active.session_id
                &&& plan.done.finished_at == req.finished_at
                &&& plan.done.history_offset == active.history_offset
                &&& plan.done.chat_events == 0
                &&& plan.done.diff_events == 0
                &&& (match req.termination_note {
                    Some(n) => plan.done.errors@ == seq![n],
                    None => plan.done.errors@.len() == 1 && plan.done.errors@[0]@
                        == "recorder did not finish in time"@,
                })
            })
            &&& (plan.timed_out ==> plan.done.errors@.len() >= 1)
            &&& plan.reason@ == (if plan.timed_out {
                "manual_stop_timeout"@
            } else {
                "manual_stop"@
            })
            &&& plan.duration_sec == duration_spec(req.now, active.started_at)
            &&& post.mode == (if manual {
                Mode::Normal
            } else {
                pre.mode
            })
            &&& post.drive_reason == (if manual {
                None::<DriveReason>
            } else {
                pre.drive_reason
            })
            &&& post.active_drive_session is None
            &&& post.pause_until == pre.pause_until
            &&& post.attribution_overrides == pre.attribution_overrides
            &&& post.updated_at == pre.updated_at
        },
    }
}

/// Decides a session stop.
pub fn drive_stop_plan(state: &mut State, req: StopRequest) -> (r: Result<StopPlan, SppError>)
    ensures
        stop_post(*old(state), *final(state), req, r),
{
    let active_opt = state.active_drive_session.take();
    let active = match active_opt {
        Some(a) => a,
        None => {
            return Err(SppError::NoActiveSession);
        },
    };
    let timed_out = req.done.is_none();
    let done = match req.done {
        Some(d) => d,
        None => {
            let mut errors: Vec<String> = Vec::new();
            match req.termination_note {
                Some(n) => {
                    errors.push(n);
                },
                None => {
                    errors.push("recorder did not finish in time".to_owned());
                },
            }
            proof {
                assert(errors@ =~= seq![errors@[0]]);
            }
            RecorderDone {
                session_id: active.session_id.clone(),
                finished_at: req.finished_at,
                history_offset: active.history_offset,
                chat_events: 0,
                diff_events: 0,
                errors,
            }
        },
    };
    let duration_sec: i64 = {
        let d: i128 = req.now as i128 - active.started_at as i128;
        if d < 0 {
            0
        } else if d > i64::MAX as i128 {
            i64::MAX
        } else {
            d as i64
        }
    };
    let reason = if timed_out {
        "manual_stop_timeout".to_owned()
    } else {
        "manual_stop".to_owned()
    };
    if state.mode == Mode::Drive && matches!(state.drive_reason, Some(DriveReason::Manual)) {
        state.mode = Mode::Normal;
        state.drive_reason = None;
    }
    Ok(StopPlan { session: active, done, timed_out, duration_sec, reason })
}

/// One drive subcommand, with everything its decision consumes.
pub enum DriveCommand {
    Start(StartRequest),
    Stop(StopRequest),
    Status,
}

/// What the drive subcommand decided.
pub enum DriveOutcome {
    Started(StartPlan),
    Stopped(StopPlan),
    /// Status only reads the state; the caller renders it.
    Status,
}

/// Dispatches one drive subcommand to its decision.
pub fn cmd_drive(state: &mut State, config: &AppConfig, cmd: DriveCommand) -> (r: Result<
    DriveOutcome,
    SppError,
>)
    ensures
        match cmd {
            DriveCommand::Start(req) => match r {
                Ok(o) => o matches DriveOutcome::Started(plan) && start_post(
                    *old(state),
                    *final(state),
                    config,
                    req,
                    Ok(plan),
                ),
                Err(e) => start_post(*old(state), *final(state), config, req, Err(e)),
            },
            DriveCommand::Stop(req) => match r {
                Ok(o) => o matches DriveOutcome::Stopped(plan) && stop_post(
                    *old(state),
                    *final(state),
                    req,
                    Ok(plan),
                ),
                Err(e) => stop_post(*old(state), *final(state), req, Err(e)),
            },
            DriveCommand::Status => r matches Ok(o) && o is Status && *final(state) == *old(
                state,
            ),
        },
{
    match cmd {
        DriveCommand::Start(req) => {
            match drive_start_plan(state, config, req) {
                Ok(plan) => Ok(DriveOutcome::Started(plan)),
                Err(e) => Err(e),
            }
        },
        DriveCommand::Stop(req) => {
            match drive_stop_plan(state, req) {
                Ok(plan) => Ok(DriveOutcome::Stopped(plan)),
                Err(e) => Err(e),
            }
        },
        DriveCommand::Status => Ok(DriveOutcome::Status),
    }
}

/// What launching the assistant decides: a fresh weekly report,
/// the mode-derived sandbox and approval levels, and the final argument
/// list.
pub struct CodexPlan {
    pub report: WeeklyReport,
    pub mode: Mode,
    pub sandbox: String,
    pub approval: String,
    pub codex_args: Vec<String>,
    pub paused: bool,
}

/// Decides an assistant launch: runs a gate evaluation, picks the mode's
/// sandbox and approval levels, rejects managed arguments, and appends
/// the managed ones to the caller's extra arguments.
pub fn codex_plan(
    state: &mut State,
    config: &AppConfig,
    extra: &Vec<String>,
    commits: &Vec<CommitRecord>,
    now: i64,
) -> (r: Result<CodexPlan, SppError>)
    ensures
        match r {
            Err(e) => first_violation(extra@) == Some(e) && *final(state) == *old(state),
            Ok(plan) => {
                let paused = pause_covers(*old(state), now);
                let (m1, r1) = gate_transition(
                    old(state).mode,
                    old(state).drive_reason,
                    plan.report.gate_passed,
                    paused,
                );
                &&& first_violation(extra@) is None
                &&& report_core(
                    plan.report,
                    config,
                    old(state).attribution_overrides@,
                    config.attribution.codex_author_emails@,
                    commits@,
                    now,
                )
                &&& plan.report.mode_after_evaluation == m1
                &&& plan.paused == paused
                &&& final(state).mode == m1
                &&& final(state).drive_reason == r1
                &&& final(state).pause_until == refreshed_pause(*old(state), now)
                &&& final(state).attribution_overrides == old(state).attribution_overrides
                &&& final(state).active_drive_session == old(state).active_drive_session
                &&& final(state).updated_at == old(state).updated_at
                &&& plan.mode == m1
                &&& plan.sandbox == (if m1 == Mode::Drive {
                    config.codex.drive.sandbox
                } else {
                    config.codex.normal.sandbox
                })
                &&& plan.approval == (if m1 == Mode::Drive {
                    config.codex.drive.approval
                } else {
                    config.codex.normal.approval
                })
                &&& plan.codex_args@.len() == extra@.len() + 4
                &&& plan.codex_args@.take(extra@.len() as int) == extra@
                &&& plan.codex_args@[extra@.len() as int]@ == "--sandbox"@
                &&& plan.codex_args@[extra@.len() as int + 1] == plan.sandbox
                &&& plan.codex_args@[extra@.len() as int + 2]@ == "--ask-for-approval"@
                &&& plan.codex_args@[extra@.len() as int + 3] == plan.approval
            },
        },
{
    if let Err(e) = validate_codex_extra_args(extra) {
        return Err(e);
    }
    refresh_pause(state, now);
    let paused = pause_active(state, now);
    let mut report = compute_weekly_report(config, state, commits, now);
    apply_gate(state, &mut report, paused);
    let (sandbox, approval) = match state.mode {
        Mode::Normal => (config.codex.normal.sandbox.clone(), config.codex.normal.approval.clone()),
        Mode::Drive => (config.codex.drive.sandbox.clone(), config.codex.drive.approval.clone()),
    };
    let mut codex_args = clone_strings(extra);
    codex_args.push("--sandbox".to_owned());
    codex_args.push(sandbox.clone());
    codex_args.push("--ask-for-approval".to_owned());
    codex_args.push(approval.clone());
    proof {
        assert(codex_args@.take(extra@.len() as int) =~= extra@);
    }
    Ok(
        CodexPlan {
            report,
            mode: state.mode,
            sandbox,
            approval,
            codex_args,
            paused,
        },
    )
}

/// A gate-forced drive mode outlives a manual stop: stopping a session
/// in Drive(gate) leaves the mode in force, and only a later evaluation
/// that passes while no pause is active returns it to Normal.
pub proof fn lemma_stop_never_clears_gate_mode(
    pre: State,
    post: State,
    req: StopRequest,
    r: Result<StopPlan, SppError>,
    passed: bool,
    paused: bool,
)
    requires
        pre.mode == Mode::Drive,
        pre.drive_reason == Some(DriveReason::Gate),
        stop_post(pre, post, req, r),
    ensures
        post.mode == Mode::Drive,
        post.drive_reason == Some(DriveReason::Gate),
        ({
            let (m2, r2) = gate_transition(post.mode, post.drive_reason, passed, paused);
            m2 == Mode::Normal <==> (passed && !paused)
        }),
{
    match pre.active_drive_session {
        None => {},
        Some(_) => {},
    }
}

} // verus!
