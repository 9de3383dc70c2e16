//! The recorder loop's state and decisions: what one polling iteration
//! consumes and emits, how errors are bounded and deduplicated, and the
//! completion summary.  The loop around these — file reads, event writes,
//! sleeping — lives outside the library and hands plain values in.

use vstd::prelude::*;

use vstd::string::StringExecFns;

use crate::chat::ChatMessage;
use crate::chat::ChatMessageModel;
use crate::chat::extract_chat_messages;
use crate::chat::extract_messages_spec;
use crate::chat::msg_matches;
use crate::chat::msgs_match;
use crate::json::JsonValue;
use crate::tailer::TailOutcome;
use crate::tailer::tail_history;
use crate::tailer::tail_spec;
use crate::text::str_eq;
use crate::text::summarize_spec;
use crate::text::summarize_text;
use crate::text::trim_spec;
use crate::text::trim_str;
use crate::text::truncate_spec;
use crate::text::truncate_to_bytes;

verus! {

/// The completion summary the recorder writes exactly once on exit.
pub struct RecorderDone {
    pub session_id: String,
    /// The finish instant, already rendered for the done file.
    pub finished_at: String,
    pub history_offset: u64,
    pub chat_events: u64,
    pub diff_events: u64,
    pub errors: Vec<String>,
}

impl Default for RecorderDone {
    fn default() -> (r: RecorderDone)
        ensures
            r.session_id@.len() == 0,
            r.finished_at@.len() == 0,
            r.history_offset == 0,
            r.chat_events == 0,
            r.diff_events == 0,
            r.errors@.len() == 0,
    {
        RecorderDone {
            session_id: String::new(),
            finished_at: String::new(),
            history_offset: 0,
            chat_events: 0,
            diff_events: 0,
            errors: Vec::new(),
        }
    }
}

/// A message is already in the deduplication list.
pub open spec fn seen_has(seen: Seq<String>, msg: Seq<char>) -> bool {
    exists|i: int| 0 <= i < seen.len() && (#[trigger] seen[i])@ == msg
}

fn seen_contains(seen: &Vec<String>, msg: &str) -> (r: bool)
    ensures
        r == seen_has(seen@, msg@),
{
    let n = seen.len();
    let mut i: usize = 0;
    while i < n
        invariant
            n == seen@.len(),
            i <= n,
            forall|j: int| 0 <= j < i ==> (#[trigger] seen@[j])@ != msg@,
        decreases n - i,
    {
        if str_eq(seen[i].as_str(), msg) {
            return true;
        }
        i += 1;
    }
    false
}

/// Appends a distinct error message to the bounded error list.  The list
/// is capped: reaching fifty distinct entries appends one extra
/// truncation marker entry, and nothing is recorded past that.
pub fn push_recorder_error(errors: &mut Vec<String>, seen: &mut Vec<String>, message: String)
    ensures
        old(errors)@.len() >= 51 ==> final(errors)@ == old(errors)@ && final(seen)@ == old(seen)@,
        old(errors)@.len() < 51 && seen_has(old(seen)@, message@) ==> final(errors)@ == old(
            errors,
        )@ && final(seen)@ == old(seen)@,
        old(errors)@.len() < 51 && !seen_has(old(seen)@, message@) ==> {
            let e2 = old(errors)@.push(message);
            let s2 = old(seen)@.push(message);
            if e2.len() == 50 && !seen_has(s2, "__truncated__"@) {
                &&& final(errors)@.len() == 51
                &&& final(errors)@.take(50) == e2
                &&& final(errors)@.last()@ == "recorder errors truncated at 50 unique entries"@
                &&& final(seen)@.len() == old(seen)@.len() + 2
                &&& final(seen)@.take(old(seen)@.len() as int + 1) == s2
                &&& final(seen)@.last()@ == "__truncated__"@
            } else {
                &&& final(errors)@ == e2
                &&& final(seen)@ == s2
            }
        },
{
    if errors.len() >= 51 {
        return ;
    }
    if seen_contains(seen, message.as_str()) {
        return ;
    }
    seen.push(message.clone());
    errors.push(message);
    if errors.len() == 50 && !seen_contains(seen, "__truncated__") {
        seen.push("__truncated__".to_owned());
        errors.push("recorder errors truncated at 50 unique entries".to_owned());
        proof {
            assert(errors@.take(50) =~= old(errors)@.push(message));
            assert(seen@.take(old(seen)@.len() as int + 1) =~= old(seen)@.push(message));
        }
    }
}

/// The recorder's mutable state across polling iterations.
pub struct RecorderState {
    /// Next byte of the history file to read.
    pub history_offset: u64,
    pub chat_events: u64,
    pub diff_events: u64,
    pub errors: Vec<String>,
    pub seen: Vec<String>,
}

impl RecorderState {
    /// The state a recorder starts in, replaying from a baseline offset.
    pub fn start(history_offset: u64) -> (r: RecorderState)
        ensures
            r.history_offset == history_offset,
            r.chat_events == 0,
            r.diff_events == 0,
            r.errors@.len() == 0,
            r.seen@.len() == 0,
    {
        RecorderState {
            history_offset,
            chat_events: 0,
            diff_events: 0,
            errors: Vec::new(),
            seen: Vec::new(),
        }
    }
}

/// The stop condition: the control file says `stop`, or it cannot be
/// read at all — a missing control file is an implicit stop.
pub fn should_stop_recorder(control: &Option<String>) -> (r: bool)
    ensures
        r == match *control {
            Some(c) => trim_spec(c@) == "stop"@,
            None => true,
        },
{
    match control {
        Some(c) => {
            let t = trim_str(c.as_str());
            str_eq(t.as_str(), "stop")
        },
        None => true,
    }
}

/// The messages a window's records carry, flattened in stream order.
pub open spec fn extract_all(values: Seq<JsonValue>, max: u64) -> Seq<ChatMessageModel>
    decreases values.len(),
{
    if values.len() == 0 {
        Seq::empty()
    } else {
        extract_messages_spec(values[0], max) + extract_all(values.drop_first(), max)
    }
}

/// A draft's content under the capture setting: the full text or a
/// one-line summary, cut to the byte budget either way.
pub open spec fn draft_content(content: Seq<char>, capture_full_text: bool, max: u64) -> Seq<
    char,
> {
    if capture_full_text {
        truncate_spec(content, max as int)
    } else {
        truncate_spec(summarize_spec(content), max as int)
    }
}

pub open spec fn drafts_match(
    ms: Seq<ChatMessage>,
    gs: Seq<ChatMessageModel>,
    capture_full_text: bool,
    max: u64,
) -> bool {
    &&& ms.len() == gs.len()
    &&& forall|i: int|
        0 <= i < ms.len() ==> {
            let g = #[trigger] gs[i];
            &&& ms[i].role@ == g.role
            &&& ms[i].content@ == draft_content(g.content, capture_full_text, max)
            &&& crate::text::opt_str_view(ms[i].message_id) == g.message_id
            &&& ms[i].raw == (if g.raw_ok {
                Some(g.src)
            } else {
                None::<JsonValue>
            })
        }
}

/// Consumes one window of the history stream: advances the offset past
/// whole valid records only, turns their messages into event drafts, and
/// records a read failure in the bounded error list instead of stopping.
pub fn process_history(
    st: &mut RecorderState,
    chunk: Result<Vec<u8>, String>,
    capture_full_text: bool,
    max_event_bytes: u64,
) -> (drafts: Vec<ChatMessage>)
    ensures
        final(st).chat_events == old(st).chat_events,
        final(st).diff_events == old(st).diff_events,
        match chunk {
            Ok(bytes) => {
                let t = tail_spec(bytes@);
                if !t.failed {
                    &&& final(st).history_offset == (if old(st).history_offset + t.consumed
                        > u64::MAX {
                        u64::MAX as int
                    } else {
                        old(st).history_offset + t.consumed
                    })
                    &&& drafts_match(
                        drafts@,
                        extract_all(t.values, max_event_bytes),
                        capture_full_text,
                        max_event_bytes,
                    )
                    &&& final(st).errors@ == old(st).errors@
                    &&& final(st).seen@ == old(st).seen@
                } else {
                    &&& final(st).history_offset == old(st).history_offset
                    &&& drafts@.len() == 0
                }
            },
            Err(_) => {
                &&& final(st).history_offset == old(st).history_offset
                &&& drafts@.len() == 0
            },
        },
{
    let mut drafts: Vec<ChatMessage> = Vec::new();
    match chunk {
        Ok(bytes) => {
            match tail_history(bytes.as_slice()) {
                Ok(outcome) => {
                    let TailOutcome { consumed, values } = outcome;
                    if st.history_offset > u64::MAX - consumed as u64 {
                        st.history_offset = u64::MAX;
                    } else {
                        st.history_offset = st.history_offset + consumed as u64;
                    }
                    let ghost values0 = values@;
                    let ghost t = tail_spec(bytes@);
                    let mut values = values;
                    let ghost mut gdone: Seq<ChatMessageModel> = Seq::empty();
                    proof {
                        assert(gdone + extract_all(values@, max_event_bytes) =~= extract_all(
                            values0,
                            max_event_bytes,
                        ));
                    }
                    while values.len() > 0
                        invariant
                            drafts_match(drafts@, gdone, capture_full_text, max_event_bytes),
                            gdone + extract_all(values@, max_event_bytes) == extract_all(
                                values0,
                                max_event_bytes,
                            ),
                        decreases values.len(),
                    {
                        let ghost pre = values@;
                        let value = values.remove(0);
                        proof {
                            assert(pre.subrange(1, pre.len() as int) =~= pre.drop_first());
                        }
                        let msgs = extract_chat_messages(value, max_event_bytes);
                        let ghost gs = extract_messages_spec(value, max_event_bytes);
                        let mut msgs = msgs;
                        let ghost msgs0 = msgs@;
                        let ghost mut k: int = 0;
                        while msgs.len() > 0
                            invariant
                                msgs_match(msgs0, gs),
                                0 <= k <= msgs0.len(),
                                msgs@ == msgs0.skip(k),
                                drafts_match(
                                    drafts@,
                                    gdone + gs.take(k),
                                    capture_full_text,
                                    max_event_bytes,
                                ),
                            decreases msgs.len(),
                        {
                            let ghost mpre = msgs@;
                            let m = msgs.remove(0);
                            proof {
                                assert(mpre.subrange(1, mpre.len() as int) =~= mpre.drop_first());
                                assert(m == msgs0[k]);
                                assert(msgs0.skip(k).drop_first() =~= msgs0.skip(k + 1));
                            }
                            let content = if capture_full_text {
                                truncate_to_bytes(m.content.as_str(), max_event_bytes)
                            } else {
                                let summary = summarize_text(m.content.as_str());
                                truncate_to_bytes(summary.as_str(), max_event_bytes)
                            };
                            let draft = ChatMessage {
                                role: m.role,
                                content,
                                message_id: m.message_id,
                                raw: m.raw,
                            };
                            drafts.push(draft);
                            proof {
                                assert(gs.take(k + 1).drop_last() =~= gs.take(k));
                                assert(gs.take(k + 1).last() == gs[k]);
                                assert(msg_matches(msgs0[k], gs[k]));
                                let gg = gdone + gs.take(k + 1);
                                assert(gg.last() == gs[k]);
                                assert forall|i: int| 0 <= i < drafts@.len() implies {
                                    let g = #[trigger] gg[i];
                                    &&& drafts@[i].role@ == g.role
                                    &&& drafts@[i].content@ == draft_content(
                                        g.content,
                                        capture_full_text,
                                        max_event_bytes,
                                    )
                                    &&& crate::text::opt_str_view(drafts@[i].message_id)
                                        == g.message_id
                                    &&& drafts@[i].raw == (if g.raw_ok {
                                        Some(g.src)
                                    } else {
                                        None::<JsonValue>
                                    })
                                } by {
                                    if i < drafts@.len() - 1 {
                                        assert(gg[i] == (gdone + gs.take(k))[i]);
                                    }
                                }
                                k = k + 1;
                            }
                        }
                        proof {
                            assert(msgs0.skip(k) =~= Seq::<ChatMessage>::empty());
                            assert(gs.take(k) =~= gs);
                            gdone = gdone + gs;
                            assert(gdone + extract_all(values@, max_event_bytes) =~= extract_all(
                                values0,
                                max_event_bytes,
                            ));
                        }
                    }
                    proof {
                        assert(extract_all(values@, max_event_bytes) =~= Seq::<
                            ChatMessageModel,
                        >::empty());
                        assert(gdone =~= extract_all(values0, max_event_bytes));
                        assert(gdone == extract_all(t.values, max_event_bytes));
                    }
                },
                Err(_) => {
                    push_recorder_error(
                        &mut st.errors,
                        &mut st.seen,
                        "failed to read history stream: stream did not contain valid UTF-8".to_owned(),
                    );
                },
            }
        },
        Err(io_text) => {
            let mut msg = "failed to read history stream: ".to_owned();
            msg.append(io_text.as_str());
            push_recorder_error(&mut st.errors, &mut st.seen, msg);
        },
    }
    drafts
}

/// Counts one successfully written chat event.
pub fn note_chat_written(st: &mut RecorderState)
    ensures
        final(st).chat_events == (if old(st).chat_events == u64::MAX {
            u64::MAX as int
        } else {
            old(st).chat_events + 1
        }),
        final(st).diff_events == old(st).diff_events,
        final(st).history_offset == old(st).history_offset,
        final(st).errors@ == old(st).errors@,
        final(st).seen@ == old(st).seen@,
{
    if st.chat_events < u64::MAX {
        st.chat_events = st.chat_events + 1;
    }
}

/// Counts one successfully written diff event.
pub fn note_diff_written(st: &mut RecorderState)
    ensures
        final(st).diff_events == (if old(st).diff_events == u64::MAX {
            u64::MAX as int
        } else {
            old(st).diff_events + 1
        }),
        final(st).chat_events == old(st).chat_events,
        final(st).history_offset == old(st).history_offset,
        final(st).errors@ == old(st).errors@,
        final(st).seen@ == old(st).seen@,
{
    if st.diff_events < u64::MAX {
        st.diff_events = st.diff_events + 1;
    }
}

/// Records a failed event write or snapshot pass in the bounded error
/// list; the loop keeps running.
pub fn note_recorder_failure(st: &mut RecorderState, prefix: &str, io_text: &str)
    ensures
        final(st).chat_events == old(st).chat_events,
        final(st).diff_events == old(st).diff_events,
        final(st).history_offset == old(st).history_offset,
        final(st).errors@.len() >= old(st).errors@.len(),
        old(st).errors@.len() < 50 && !seen_has(old(st).seen@, prefix@ + io_text@) ==> seen_has(
            final(st).seen@,
            prefix@ + io_text@,
        ) && final(st).errors@.len() > old(st).errors@.len(),
{
    let mut msg = prefix.to_owned();
    msg.append(io_text);
    let ghost msgval = msg;
    push_recorder_error(&mut st.errors, &mut st.seen, msg);
    proof {
        let idx = old(st).seen@.len() as int;
        if old(st).errors@.len() < 50 && !seen_has(old(st).seen@, prefix@ + io_text@) {
            if st.seen@.len() == old(st).seen@.len() + 2 {
                assert(st.seen@.take(idx + 1)[idx] == st.seen@[idx]);
            }
            assert(st.seen@[idx] == msgval);
            assert(seen_has(st.seen@, prefix@ + io_text@));
        }
    }
}

/// The completion summary of a finished loop.
pub fn recorder_finish(st: RecorderState, session_id: String, finished_at: String) -> (r:
    RecorderDone)
    ensures
        r.session_id == session_id,
        r.finished_at == finished_at,
        r.history_offset == st.history_offset,
        r.chat_events == st.chat_events,
        r.diff_events == st.diff_events,
        r.errors == st.errors,
{
    RecorderDone {
        session_id,
        finished_at,
        history_offset: st.history_offset,
        chat_events: st.chat_events,
        diff_events: st.diff_events,
        errors: st.errors,
    }
}

/// The summary written when the loop itself failed before producing one:
/// it carries the failure as its single error entry, so the parent is
/// never left waiting.
pub fn recorder_failure_done(
    session_id: String,
    finished_at: String,
    history_offset: u64,
    error: String,
) -> (r: RecorderDone)
    ensures
        r.session_id == session_id,
        r.finished_at == finished_at,
        r.history_offset == history_offset,
        r.chat_events == 0,
        r.diff_events == 0,
        r.errors@.len() == 1,
        r.errors@[0] == error,
{
    let mut errors: Vec<String> = Vec::new();
    errors.push(error);
    RecorderDone {
        session_id,
        finished_at,
        history_offset,
        chat_events: 0,
        diff_events: 0,
        errors,
    }
}

} // verus!
