//! The `role: content` line codec.

use motorhead::models::{encode_message, parse_message, MemoryMessage};

fn msg(role: &str, content: &str) -> MemoryMessage {
    MemoryMessage { role: role.to_string(), content: content.to_string() }
}

#[test]
fn encode_joins_role_and_content() {
    let line = encode_message(&msg("Human", "hello there"));
    assert_eq!(line, "Human: hello there");
}

#[test]
fn parse_splits_at_first_separator() {
    let m = parse_message("AI: one: two").unwrap();
    assert_eq!(m.role, "AI");
    assert_eq!(m.content, "one: two");
}

#[test]
fn parse_accepts_empty_role_and_content() {
    let m = parse_message(": hi").unwrap();
    assert_eq!(m.role, "");
    assert_eq!(m.content, "hi");

    let m = parse_message("bot: ").unwrap();
    assert_eq!(m.role, "bot");
    assert_eq!(m.content, "");
}

#[test]
fn parse_rejects_line_without_separator() {
    assert!(parse_message("no separator here").is_none());
    assert!(parse_message("colon:but-no-space").is_none());
    assert!(parse_message("").is_none());
}

#[test]
fn codec_round_trip() {
    let original = msg("assistant", "the answer is 42");
    let line = encode_message(&original);
    let back = parse_message(line.as_str()).unwrap();
    assert_eq!(back.role, original.role);
    assert_eq!(back.content, original.content);
}
