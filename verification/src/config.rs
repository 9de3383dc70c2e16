//! Runtime configuration as the library consumes it: plain values, with
//! the weekly ratio target held in parts per million.

use vstd::prelude::*;

use vstd::string::StringExecFns;

verus! {

/// Sandbox and approval levels handed to the assistant in one mode.
pub struct CodexModeConfig {
    pub sandbox: String,
    pub approval: String,
}

/// Per-mode assistant settings.
pub struct CodexConfig {
    pub normal: CodexModeConfig,
    pub drive: CodexModeConfig,
}

/// How the recorder tails and transcribes a session.
pub struct TranscriptConfig {
    pub chat_source: String,
    pub history_path: String,
    pub capture_full_text: bool,
    pub max_event_bytes: u64,
    pub include_file_diff: bool,
    pub watch_exclude: Vec<String>,
    pub poll_interval_ms: u64,
}

/// Author emails that mark a commit as AI-authored.
pub struct AttributionConfig {
    pub codex_author_emails: Vec<String>,
}

/// The whole runtime configuration.
pub struct AppConfig {
    pub log_schema_version: String,
    /// Target ratio of the weekly check, in parts per million of added lines.
    pub weekly_ratio_target_ppm: u64,
    pub max_log_bytes: u64,
    pub diff_snapshot_enabled: bool,
    pub codex: CodexConfig,
    pub transcript: TranscriptConfig,
    pub attribution: AttributionConfig,
}

/// Assistant settings for normal mode: a writable workspace, approvals on
/// request.
pub fn default_codex_mode_normal() -> (r: CodexModeConfig)
    ensures
        r.sandbox@ == "workspace-write"@,
        r.approval@ == "on-request"@,
{
    CodexModeConfig { sandbox: "workspace-write".to_owned(), approval: "on-request".to_owned() }
}

/// Assistant settings for drive mode: a read-only sandbox, approvals on
/// request.
pub fn default_codex_mode_drive() -> (r: CodexModeConfig)
    ensures
        r.sandbox@ == "read-only"@,
        r.approval@ == "on-request"@,
{
    CodexModeConfig { sandbox: "read-only".to_owned(), approval: "on-request".to_owned() }
}

impl Default for CodexModeConfig {
    fn default() -> (r: CodexModeConfig)
        ensures
            r.sandbox@ == "read-only"@,
            r.approval@ == "on-request"@,
    {
        CodexModeConfig { sandbox: "read-only".to_owned(), approval: "on-request".to_owned() }
    }
}

impl Default for CodexConfig {
    fn default() -> (r: CodexConfig)
        ensures
            r.normal.sandbox@ == "workspace-write"@,
            r.normal.approval@ == "on-request"@,
            r.drive.sandbox@ == "read-only"@,
            r.drive.approval@ == "on-request"@,
    {
        CodexConfig { normal: default_codex_mode_normal(), drive: default_codex_mode_drive() }
    }
}

impl Default for TranscriptConfig {
    fn default() -> (r: TranscriptConfig)
        ensures
            r.chat_source@ == "history_jsonl"@,
            r.history_path@ == "auto"@,
            r.capture_full_text == true,
            r.max_event_bytes == 64000,
            r.include_file_diff == true,
            r.watch_exclude@.len() == 3,
            r.watch_exclude@[0]@ == ".git/"@,
            r.watch_exclude@[1]@ == ".codex-spp/"@,
            r.watch_exclude@[2]@ == "target/"@,
            r.poll_interval_ms == 2000,
    {
        let mut watch_exclude: Vec<String> = Vec::new();
        watch_exclude.push(".git/".to_owned());
        watch_exclude.push(".codex-spp/".to_owned());
        watch_exclude.push("target/".to_owned());
        TranscriptConfig {
            chat_source: "history_jsonl".to_owned(),
            history_path: "auto".to_owned(),
            capture_full_text: true,
            max_event_bytes: 64000,
            include_file_diff: true,
            watch_exclude,
            poll_interval_ms: 2000,
        }
    }
}

impl Default for AttributionConfig {
    fn default() -> (r: AttributionConfig)
        ensures
            r.codex_author_emails@.len() == 0,
    {
        AttributionConfig { codex_author_emails: Vec::new() }
    }
}

impl Default for AppConfig {
    fn default() -> (r: AppConfig)
        ensures
            r.log_schema_version@ == "1.1"@,
            r.weekly_ratio_target_ppm == 700000,
            r.max_log_bytes == 524288000,
            r.diff_snapshot_enabled == false,
            r.codex.normal.sandbox@ == "workspace-write"@,
            r.codex.drive.sandbox@ == "read-only"@,
            r.transcript.chat_source@ == "history_jsonl"@,
            r.transcript.max_event_bytes == 64000,
            r.transcript.poll_interval_ms == 2000,
            r.attribution.codex_author_emails@.len() == 0,
    {
        AppConfig {
            log_schema_version: "1.1".to_owned(),
            weekly_ratio_target_ppm: 700000,
            max_log_bytes: 524288000,
            diff_snapshot_enabled: false,
            codex: CodexConfig::default(),
            transcript: TranscriptConfig::default(),
            attribution: AttributionConfig::default(),
        }
    }
}

} // verus!
