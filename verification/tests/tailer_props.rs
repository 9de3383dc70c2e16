use spp::json::JsonValue;
use spp::tailer::TailError;
use spp::tailer::tail_history;

fn role_of(v: &JsonValue) -> Option<String> {
    v.get("role").and_then(|r| r.as_str()).map(|s| s.clone())
}

#[test]
fn tailer_consumes_only_whole_valid_lines() {
    let chunk = b"{\"role\":\"user\"}\n{\"role\":\"assistant\"}\n{\"tr";
    let out = tail_history(chunk).unwrap();
    assert_eq!(out.consumed, b"{\"role\":\"user\"}\n{\"role\":\"assistant\"}\n".len());
    assert_eq!(out.values.len(), 2);
    assert_eq!(role_of(&out.values[0]).as_deref(), Some("user"));
    assert_eq!(role_of(&out.values[1]).as_deref(), Some("assistant"));
}

#[test]
fn tailer_is_resumable_without_duplication() {
    // a trailing incomplete line is not consumed ...
    let part1: &[u8] = b"{\"a\":1}\n{\"b\":2}\n{\"c\":";
    let r1 = tail_history(part1).unwrap();
    assert_eq!(r1.consumed, b"{\"a\":1}\n{\"b\":2}\n".len());
    assert_eq!(r1.values.len(), 2);

    // ... and once the writer finishes it, the leftover bytes plus the
    // new ones yield exactly the one remaining record, never the two
    // already-read ones again.
    let mut chunk2 = part1[r1.consumed..].to_vec();
    chunk2.extend_from_slice(b"3}\n");
    let r2 = tail_history(&chunk2).unwrap();
    assert_eq!(r2.values.len(), 1);
    assert_eq!(r2.consumed, chunk2.len());
}

#[test]
fn tailer_stops_at_an_unparsable_line() {
    let chunk = b"{\"a\":1}\nnot json\n{\"b\":2}\n";
    let out = tail_history(chunk).unwrap();
    assert_eq!(out.consumed, b"{\"a\":1}\n".len());
    assert_eq!(out.values.len(), 1);
}

#[test]
fn tailer_skips_blank_lines() {
    let chunk = b"\n   \n{\"a\":1}\n";
    let out = tail_history(chunk).unwrap();
    assert_eq!(out.consumed, chunk.len());
    assert_eq!(out.values.len(), 1);
}

#[test]
fn tailer_fails_on_invalid_utf8_line() {
    let chunk: &[u8] = &[b'{', 0xff, 0xfe, b'}', b'\n'];
    assert!(matches!(tail_history(chunk), Err(TailError::NotUtf8)));
}

#[test]
fn tailer_consumes_nothing_from_a_partial_line() {
    let chunk = b"{\"unfinished\":";
    let out = tail_history(chunk).unwrap();
    assert_eq!(out.consumed, 0);
    assert_eq!(out.values.len(), 0);
}

#[test]
fn parsed_objects_expose_members() {
    let chunk = b"{\"message\":{\"role\":\"user\",\"content\":\"hi\"}}\n";
    let out = tail_history(chunk).unwrap();
    let v = &out.values[0];
    let content = v.get2("message", "content").and_then(|c| c.as_str());
    assert_eq!(content.map(|s| s.as_str()), Some("hi"));
    assert!(v.get("missing").is_none());
}
