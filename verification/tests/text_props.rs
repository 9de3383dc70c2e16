use spp::text::clone_strings;
use spp::text::contains_subslice;
use spp::text::parse_u64;
use spp::text::str_eq;
use spp::text::str_starts_with;
use spp::text::summarize_text;
use spp::text::trim_str;
use spp::text::truncate_to_bytes;

#[test]
fn truncate_returns_short_input_unchanged() {
    assert_eq!(truncate_to_bytes("hello", 100), "hello");
    assert_eq!(truncate_to_bytes("", 0), "");
    assert_eq!(truncate_to_bytes("hello", 5), "hello");
}

#[test]
fn truncate_respects_byte_ceiling_and_appends_marker() {
    let input = "a".repeat(20);
    let out = truncate_to_bytes(&input, 18);
    assert_eq!(out, "aaaa...[truncated]");
    assert!(out.len() <= 18);
    assert!(out.ends_with("...[truncated]"));
}

#[test]
fn truncate_never_splits_a_multibyte_character() {
    // nine two-byte characters: 18 bytes
    let input = "ééééééééé";
    let out = truncate_to_bytes(input, 17);
    assert_eq!(out, "é...[truncated]");
    assert!(out.len() <= 17);
    // the output is valid UTF-8 by construction; the kept prefix is whole
    assert!(out.starts_with('é'));
}

#[test]
fn truncate_exact_boundary_stays_untouched() {
    let input = "a".repeat(18);
    assert_eq!(truncate_to_bytes(&input, 18), input);
}

#[test]
fn summarize_collapses_whitespace() {
    assert_eq!(summarize_text("  hello \t\n  world  "), "hello world");
    assert_eq!(summarize_text(""), "");
    assert_eq!(summarize_text(" \n\t "), "");
    assert_eq!(summarize_text("one"), "one");
}

#[test]
fn summarize_truncates_to_280_bytes() {
    let input = "a".repeat(400);
    let out = summarize_text(&input);
    assert_eq!(out.len(), 280);
    assert!(out.ends_with("...[truncated]"));
}

#[test]
fn trim_handles_unicode_whitespace() {
    assert_eq!(trim_str("  x  "), "x");
    assert_eq!(trim_str("\u{a0}x\u{a0}"), "x");
    assert_eq!(trim_str("\n\t"), "");
    assert_eq!(trim_str("a b"), "a b");
}

#[test]
fn parse_u64_accepts_what_std_parse_accepts() {
    assert_eq!(parse_u64(b"123"), Some(123));
    assert_eq!(parse_u64(b"+7"), Some(7));
    assert_eq!(parse_u64(b"0"), Some(0));
    assert_eq!(parse_u64(b"007"), Some(7));
    assert_eq!(parse_u64(b"18446744073709551615"), Some(u64::MAX));
    assert_eq!(parse_u64(b""), None);
    assert_eq!(parse_u64(b"+"), None);
    assert_eq!(parse_u64(b"12a"), None);
    assert_eq!(parse_u64(b"-3"), None);
    assert_eq!(parse_u64(b"18446744073709551616"), None);
}

#[test]
fn contains_and_prefix_and_equality() {
    assert!(contains_subslice(b"co-authored-by: codex rules", b"codex"));
    assert!(!contains_subslice(b"human work", b"codex"));
    assert!(contains_subslice(b"abc", b""));
    assert!(str_eq("same", "same"));
    assert!(!str_eq("same", "sam"));
    assert!(str_starts_with("--sandbox=off", "--sandbox="));
    assert!(!str_starts_with("--sand", "--sandbox"));
}

#[test]
fn clone_strings_copies_values() {
    let v = vec!["a".to_string(), "b".to_string()];
    let c = clone_strings(&v);
    assert_eq!(c, v);
}
