//! Persisted governance state: mode, pause window, attribution overrides and
//! the single in-flight drive session.

use vstd::prelude::*;

use crate::Actor;
use crate::DriveReason;
use crate::Mode;

verus! {

/// The single allowed in-flight recording session.
pub struct ActiveDriveSession {
    pub session_id: String,
    /// Unix seconds at which the session started.
    pub started_at: i64,
    pub history_path: String,
    /// Byte offset into the history file at which replay begins.
    pub history_offset: u64,
    pub transcript_path: String,
    pub control_path: String,
    pub done_path: String,
    pub recorder_pid: Option<u32>,
}

/// Governance state persisted across invocations.
pub struct State {
    pub mode: Mode,
    pub drive_reason: Option<DriveReason>,
    /// While `now < pause_until`, gate evaluation is bypassed.
    pub pause_until: Option<i64>,
    /// Per-commit forced classifications, keyed by full commit id.
    pub attribution_overrides: Vec<(String, Actor)>,
    pub active_drive_session: Option<ActiveDriveSession>,
    /// Unix seconds of the last persisted mutation.
    pub updated_at: i64,
}

impl State {
    /// The state a fresh repository starts in.
    pub fn initial() -> (s: State)
        ensures
            s.mode == Mode::Normal,
            s.drive_reason is None,
            s.pause_until is None,
            s.attribution_overrides@.len() == 0,
            s.active_drive_session is None,
            s.updated_at == 0,
    {
        State {
            mode: Mode::Normal,
            drive_reason: None,
            pause_until: None,
            attribution_overrides: Vec::new(),
            active_drive_session: None,
            updated_at: 0,
        }
    }
}

impl Default for State {
    fn default() -> (s: State)
        ensures
            s.mode == Mode::Normal,
            s.drive_reason is None,
            s.pause_until is None,
            s.attribution_overrides@.len() == 0,
            s.active_drive_session is None,
            s.updated_at == 0,
    {
        State::initial()
    }
}

/// Drops an expired pause window; everything else is left as it was.
pub fn refresh_pause(state: &mut State, now: i64)
    ensures
        final(state).pause_until == (match old(state).pause_until {
            Some(until) => if now >= until { None::<i64> } else { Some(until) },
            None => None::<i64>,
        }),
        final(state).mode == old(state).mode,
        final(state).drive_reason == old(state).drive_reason,
        final(state).attribution_overrides == old(state).attribution_overrides,
        final(state).active_drive_session == old(state).active_drive_session,
        final(state).updated_at == old(state).updated_at,
{
    if let Some(until) = state.pause_until {
        if now >= until {
            state.pause_until = None;
        }
    }
}

/// True while a pause window covers the given instant.
pub fn pause_active(state: &State, now: i64) -> (r: bool)
    ensures
        r == (match state.pause_until {
            Some(until) => now < until,
            None => false,
        }),
{
    match state.pause_until {
        Some(until) => now < until,
        None => false,
    }
}

/// Opens a pause window: gate evaluation is bypassed for the given number
/// of hours, clamped between one hour and one day.
pub fn pause_gate(state: &mut State, now: i64, hours: u8)
    requires
        now <= i64::MAX - 86400,
    ensures
        ({
            let h: int = if hours < 1 {
                1
            } else if hours > 24 {
                24
            } else {
                hours as int
            };
            final(state).pause_until == Some((now + h * 3600) as i64)
        }),
        final(state).updated_at == now,
        final(state).mode == old(state).mode,
        final(state).drive_reason == old(state).drive_reason,
        final(state).attribution_overrides == old(state).attribution_overrides,
        final(state).active_drive_session == old(state).active_drive_session,
{
    let h: i64 = if hours < 1 {
        1
    } else if hours > 24 {
        24
    } else {
        hours as i64
    };
    state.pause_until = Some(now + h * 3600);
    state.updated_at = now;
}

/// Clears any pause window.
pub fn resume_gate(state: &mut State, now: i64)
    ensures
        final(state).pause_until is None,
        final(state).updated_at == now,
        final(state).mode == old(state).mode,
        final(state).drive_reason == old(state).drive_reason,
        final(state).attribution_overrides == old(state).attribution_overrides,
        final(state).active_drive_session == old(state).active_drive_session,
{
    state.pause_until = None;
    state.updated_at = now;
}

/// Forces a commit's classification.  The override wins over every
/// heuristic, and overrides for other commits are untouched.
pub fn set_attribution_override(state: &mut State, commit: String, actor: Actor, now: i64)
    ensures
        crate::gate::ov_get(final(state).attribution_overrides@, commit@) == Some(actor),
        forall|k: Seq<char>|
            k != commit@ ==> #[trigger] crate::gate::ov_get(final(state).attribution_overrides@, k)
                == crate::gate::ov_get(old(state).attribution_overrides@, k),
        final(state).updated_at == now,
        final(state).mode == old(state).mode,
        final(state).drive_reason == old(state).drive_reason,
        final(state).pause_until == old(state).pause_until,
        final(state).active_drive_session == old(state).active_drive_session,
{
    let ghost commitv = commit;
    state.attribution_overrides.push((commit, actor));
    state.updated_at = now;
    proof {
        let pairs = state.attribution_overrides@;
        assert(pairs.last() == (commitv, actor));
        assert(pairs.drop_last() =~= old(state).attribution_overrides@);
    }
}

/// Records the spawned recorder's process id on the active session.
pub fn set_recorder_pid(state: &mut State, pid: u32)
    ensures
        match old(state).active_drive_session {
            Some(s) => final(state).active_drive_session == Some(
                ActiveDriveSession { recorder_pid: Some(pid), ..s },
            ),
            None => final(state).active_drive_session is None,
        },
        final(state).mode == old(state).mode,
        final(state).drive_reason == old(state).drive_reason,
        final(state).pause_until == old(state).pause_until,
        final(state).attribution_overrides == old(state).attribution_overrides,
        final(state).updated_at == old(state).updated_at,
{
    match &mut state.active_drive_session {
        Some(s) => {
            s.recorder_pid = Some(pid);
        },
        None => {},
    }
}

} // verus!
