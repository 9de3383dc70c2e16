//! Session governance for AI-assisted development inside a repository.
//!
//! The crate measures how much of a week's code change is human- versus
//! AI-authored, gates an autonomy ("drive") mode on that ratio, and models the
//! background recorder that tails an assistant's history stream and the
//! workspace's file changes into an append-only transcript.  All decision
//! logic lives here, verified; the thin binary around it performs the file,
//! process and clock work and hands plain values in and out.

#![allow(unused_imports)]

use vstd::prelude::*;

pub mod state;
pub mod text;
pub mod json;
pub mod outside;
pub mod tailer;
pub mod chat;
pub mod config;
pub mod gate;
pub mod recorder;
pub mod session;
pub mod snapshot;

verus! {

/// The autonomy mode the governance engine is in.
#[derive(Clone, Copy, Debug, PartialEq, Eq, Structural)]
pub enum Mode {
    Normal,
    Drive,
}

/// Why drive mode was entered; decides whether it may be reverted.
#[derive(Clone, Copy, Debug, PartialEq, Eq, Structural)]
pub enum DriveReason {
    Manual,
    Gate,
}

/// Who authored a commit.
#[derive(Clone, Copy, Debug, PartialEq, Eq, Structural)]
pub enum Actor {
    Human,
    Ai,
}

/// A setup error: reported immediately, the operation aborted, no state
/// mutated.
#[derive(Clone, Copy, Debug, PartialEq, Eq, Structural)]
pub enum SppError {
    UnsupportedChatSource,
    SessionAlreadyActive,
    NoActiveSession,
    HistoryFileMissing,
    FullAutoProhibited,
    SandboxManaged,
    ApprovalManaged,
}

impl SppError {
    /// A terse, one-line, causal message.
    pub fn describe(&self) -> (r: String)
        ensures
            r@ == match *self {
                SppError::UnsupportedChatSource => "unsupported transcript chat_source (supported: `history_jsonl`)"@,
                SppError::SessionAlreadyActive => "drive session already active (stop it first with `spp drive stop`)"@,
                SppError::NoActiveSession => "no active drive session"@,
                SppError::HistoryFileMissing => "history file not found. Ensure Codex history persistence is enabled."@,
                SppError::FullAutoProhibited => "`--full-auto` is prohibited by SPP policy"@,
                SppError::SandboxManaged => "`--sandbox` is managed by spp and cannot be overridden"@,
                SppError::ApprovalManaged => "`--ask-for-approval` is managed by spp and cannot be overridden"@,
            },
    {
        match self {
            SppError::UnsupportedChatSource => "unsupported transcript chat_source (supported: `history_jsonl`)".to_owned(),
            SppError::SessionAlreadyActive => "drive session already active (stop it first with `spp drive stop`)".to_owned(),
            SppError::NoActiveSession => "no active drive session".to_owned(),
            SppError::HistoryFileMissing => "history file not found. Ensure Codex history persistence is enabled.".to_owned(),
            SppError::FullAutoProhibited => "`--full-auto` is prohibited by SPP policy".to_owned(),
            SppError::SandboxManaged => "`--sandbox` is managed by spp and cannot be overridden".to_owned(),
            SppError::ApprovalManaged => "`--ask-for-approval` is managed by spp and cannot be overridden".to_owned(),
        }
    }
}

} // verus!
