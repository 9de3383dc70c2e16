use spp::chat::extract_chat_messages;
use spp::chat::extract_single_chat_message;
use spp::chat::flatten_content;
use spp::json::JsonValue;
use spp::tailer::tail_history;

fn parse_one(line: &str) -> JsonValue {
    let mut bytes = line.as_bytes().to_vec();
    bytes.push(b'\n');
    let mut out = tail_history(&bytes).unwrap();
    assert_eq!(out.values.len(), 1);
    out.values.remove(0)
}

#[test]
fn extracts_a_plain_user_message() {
    let v = parse_one("{\"role\":\"user\",\"content\":\"hello there\"}");
    let msgs = extract_chat_messages(v, 64000);
    assert_eq!(msgs.len(), 1);
    assert_eq!(msgs[0].role, "user");
    assert_eq!(msgs[0].content, "hello there");
    assert!(msgs[0].message_id.is_none());
    assert!(msgs[0].raw.is_some());
}

#[test]
fn role_is_a_case_insensitive_substring_match() {
    let v = parse_one("{\"type\":\"AssistantTurn\",\"text\":\"ok\"}");
    let msgs = extract_chat_messages(v, 64000);
    assert_eq!(msgs.len(), 1);
    assert_eq!(msgs[0].role, "assistant");

    let v = parse_one("{\"role\":\"SuperUser\",\"content\":\"x\"}");
    let msgs = extract_chat_messages(v, 64000);
    assert_eq!(msgs[0].role, "user");

    let v = parse_one("{\"role\":\"system\",\"content\":\"x\"}");
    assert_eq!(extract_chat_messages(v, 64000).len(), 0);
}

#[test]
fn nested_message_fields_win() {
    let v = parse_one(
        "{\"message\":{\"role\":\"assistant\",\"content\":\"inner\",\"id\":\"m-1\"},\"role\":\"user\"}",
    );
    let m = extract_single_chat_message(v, 64000).unwrap();
    assert_eq!(m.role, "assistant");
    assert_eq!(m.content, "inner");
    assert_eq!(m.message_id.as_deref(), Some("m-1"));
}

#[test]
fn messages_array_yields_one_event_per_recognized_element() {
    let v = parse_one(
        "{\"messages\":[{\"role\":\"user\",\"content\":\"q\"},{\"role\":\"tool\",\"content\":\"x\"},{\"role\":\"assistant\",\"content\":\"a\"}]}",
    );
    let msgs = extract_chat_messages(v, 64000);
    assert_eq!(msgs.len(), 2);
    assert_eq!(msgs[0].role, "user");
    assert_eq!(msgs[0].content, "q");
    assert_eq!(msgs[1].role, "assistant");
    assert_eq!(msgs[1].content, "a");
}

#[test]
fn content_is_flattened_from_parts() {
    let v = parse_one(
        "{\"role\":\"assistant\",\"content\":[\"one\",{\"text\":\"two\"},{\"content\":{\"text\":\"three\"}},{\"other\":1}]}",
    );
    let m = extract_single_chat_message(v, 64000).unwrap();
    assert_eq!(m.content, "one\ntwo\nthree");
}

#[test]
fn flatten_handles_each_shape() {
    let v = parse_one("{\"text\":\"plain\"}");
    // the whole value is an object with a text member
    assert_eq!(flatten_content(&v).as_deref(), Some("plain"));
    let v = parse_one("[\"a\",\"b\"]");
    assert_eq!(flatten_content(&v).as_deref(), Some("a\nb"));
    let v = parse_one("[]");
    assert!(flatten_content(&v).is_none());
    let v = parse_one("42");
    assert!(flatten_content(&v).is_none());
}

#[test]
fn blank_content_is_discarded() {
    let v = parse_one("{\"role\":\"user\",\"content\":\"   \\n \"}");
    assert!(extract_single_chat_message(v, 64000).is_none());
}

#[test]
fn content_is_cut_to_the_byte_budget() {
    let long = "x".repeat(100);
    let v = parse_one(&format!("{{\"role\":\"user\",\"content\":\"{long}\"}}"));
    let m = extract_single_chat_message(v, 40).unwrap();
    assert_eq!(m.content.len(), 40);
    assert!(m.content.ends_with("...[truncated]"));
}

#[test]
fn raw_is_attached_only_when_its_rendering_fits() {
    let v = parse_one("{\"role\":\"user\",\"content\":\"small\"}");
    let m = extract_single_chat_message(v, 64000).unwrap();
    assert!(m.raw.is_some());

    let long = "y".repeat(200);
    let v = parse_one(&format!("{{\"role\":\"user\",\"content\":\"{long}\"}}"));
    let m = extract_single_chat_message(v, 50).unwrap();
    assert!(m.raw.is_none());
}

#[test]
fn a_messages_member_that_is_not_an_array_falls_back_to_the_record() {
    let v = parse_one("{\"messages\":\"nope\",\"role\":\"user\",\"content\":\"top\"}");
    let msgs = extract_chat_messages(v, 64000);
    assert_eq!(msgs.len(), 1);
    assert_eq!(msgs[0].content, "top");
}
