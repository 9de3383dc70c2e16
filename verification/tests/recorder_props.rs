use spp::recorder::RecorderState;
use spp::recorder::note_chat_written;
use spp::recorder::note_diff_written;
use spp::recorder::note_recorder_failure;
use spp::recorder::process_history;
use spp::recorder::push_recorder_error;
use spp::recorder::recorder_failure_done;
use spp::recorder::recorder_finish;
use spp::recorder::should_stop_recorder;

#[test]
fn stop_condition_reads_the_control_content() {
    assert!(should_stop_recorder(&None));
    assert!(should_stop_recorder(&Some("stop\n".to_string())));
    assert!(should_stop_recorder(&Some("  stop  ".to_string())));
    assert!(!should_stop_recorder(&Some("run\n".to_string())));
    assert!(!should_stop_recorder(&Some("".to_string())));
}

#[test]
fn errors_are_deduplicated() {
    let mut errors = Vec::new();
    let mut seen = Vec::new();
    push_recorder_error(&mut errors, &mut seen, "boom".to_string());
    push_recorder_error(&mut errors, &mut seen, "boom".to_string());
    push_recorder_error(&mut errors, &mut seen, "crash".to_string());
    assert_eq!(errors, vec!["boom".to_string(), "crash".to_string()]);
}

#[test]
fn errors_are_capped_with_a_truncation_marker() {
    let mut errors = Vec::new();
    let mut seen = Vec::new();
    for i in 0..60 {
        push_recorder_error(&mut errors, &mut seen, format!("error {i}"));
    }
    assert_eq!(errors.len(), 51);
    assert_eq!(errors[49], "error 49");
    assert_eq!(errors[50], "recorder errors truncated at 50 unique entries");
    // nothing distinct is recorded past the cap
    push_recorder_error(&mut errors, &mut seen, "late".to_string());
    assert_eq!(errors.len(), 51);
}

#[test]
fn history_pass_advances_the_offset_and_drafts_events() {
    let mut st = RecorderState::start(1000);
    let chunk = b"{\"role\":\"user\",\"content\":\"hello\"}\n{\"x\":".to_vec();
    let consumed = b"{\"role\":\"user\",\"content\":\"hello\"}\n".len() as u64;
    let drafts = process_history(&mut st, Ok(chunk), true, 64000);
    assert_eq!(st.history_offset, 1000 + consumed);
    assert_eq!(drafts.len(), 1);
    assert_eq!(drafts[0].role, "user");
    assert_eq!(drafts[0].content, "hello");
    assert!(st.errors.is_empty());
}

#[test]
fn history_pass_summarizes_when_full_text_is_off() {
    let mut st = RecorderState::start(0);
    let chunk = b"{\"role\":\"user\",\"content\":\"  a   lot \\n of   space  \"}\n".to_vec();
    let drafts = process_history(&mut st, Ok(chunk), false, 64000);
    assert_eq!(drafts[0].content, "a lot of space");
}

#[test]
fn history_read_failure_is_recorded_and_keeps_the_offset() {
    let mut st = RecorderState::start(7);
    let drafts = process_history(&mut st, Err("permission denied".to_string()), true, 64000);
    assert!(drafts.is_empty());
    assert_eq!(st.history_offset, 7);
    assert_eq!(st.errors, vec!["failed to read history stream: permission denied".to_string()]);
}

#[test]
fn invalid_utf8_line_is_recorded_as_a_read_failure() {
    let mut st = RecorderState::start(0);
    let drafts = process_history(&mut st, Ok(vec![0xff, 0xfe, b'\n']), true, 64000);
    assert!(drafts.is_empty());
    assert_eq!(st.history_offset, 0);
    assert_eq!(
        st.errors,
        vec!["failed to read history stream: stream did not contain valid UTF-8".to_string()]
    );
}

#[test]
fn counters_and_failures_feed_the_summary() {
    let mut st = RecorderState::start(42);
    note_chat_written(&mut st);
    note_chat_written(&mut st);
    note_diff_written(&mut st);
    note_recorder_failure(&mut st, "failed to write chat event: ", "disk full");
    let done = recorder_finish(st, "s-1".to_string(), "2023-11-14T22:13:20Z".to_string());
    assert_eq!(done.session_id, "s-1");
    assert_eq!(done.chat_events, 2);
    assert_eq!(done.diff_events, 1);
    assert_eq!(done.history_offset, 42);
    assert_eq!(done.errors, vec!["failed to write chat event: disk full".to_string()]);
}

#[test]
fn a_failed_loop_still_produces_a_summary() {
    let done = recorder_failure_done(
        "s-2".to_string(),
        "2023-11-14T22:13:20Z".to_string(),
        512,
        "history file disappeared".to_string(),
    );
    assert_eq!(done.session_id, "s-2");
    assert_eq!(done.history_offset, 512);
    assert_eq!(done.chat_events, 0);
    assert_eq!(done.errors, vec!["history file disappeared".to_string()]);
}
