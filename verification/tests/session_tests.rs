//! The windowed session store: appends, reads, the atomic compaction
//! commit, and the delete and end-to-end scenarios.

use motorhead::models::MemoryMessage;
use motorhead::reducer::{should_compact, CompactionPass};
use motorhead::registry::Registry;
use motorhead::session::{record_append, record_delete, SessionState};

fn msg(role: &str, content: &str) -> MemoryMessage {
    MemoryMessage { role: role.to_string(), content: content.to_string() }
}

fn batch(contents: &[&str]) -> Vec<MemoryMessage> {
    contents.iter().map(|c| msg("user", c)).collect()
}

#[test]
fn append_prepends_newest_first() {
    let mut session = SessionState::new();
    let len = session.append(&batch(&["first", "second"]));
    assert_eq!(len, 2);
    // The most recent message of the batch stands at index 0.
    assert_eq!(session.messages[0], "user: second");
    assert_eq!(session.messages[1], "user: first");

    let len = session.append(&batch(&["third"]));
    assert_eq!(len, 3);
    assert_eq!(session.messages[0], "user: third");
    assert_eq!(session.messages[2], "user: first");
}

#[test]
fn read_returns_limited_decoded_window() {
    let mut session = SessionState::new();
    session.append(&batch(&["a", "b", "c", "d"]));
    let r = session.read(2);
    assert_eq!(r.messages.len(), 2);
    assert_eq!(r.messages[0].content, "d");
    assert_eq!(r.messages[1].content, "c");
    assert_eq!(r.context, None);
    assert_eq!(r.tokens, Some(0));

    // A limit beyond the list returns everything.
    let r = session.read(10);
    assert_eq!(r.messages.len(), 4);
}

#[test]
fn set_context_overwrites_summary() {
    let mut session = SessionState::new();
    session.set_context("provided summary".to_string());
    let r = session.read(5);
    assert_eq!(r.context.as_deref(), Some("provided summary"));
}

#[test]
fn overflow_slice_takes_older_half_of_window() {
    let mut session = SessionState::new();
    session.append(&batch(&["m1", "m2", "m3", "m4", "m5", "m6", "m7"]));
    // window 6: indices [3, 6) of the newest-first list.
    let slice = session.overflow_slice(6);
    assert_eq!(slice, vec!["user: m4", "user: m3", "user: m2"]);
    // A window whose half already exceeds the list leaves nothing.
    let slice = session.overflow_slice(20);
    assert!(slice.is_empty());
    // A window longer than the list clamps its end.
    let slice = session.overflow_slice(8);
    assert_eq!(slice.len(), 3);
}

#[test]
fn commit_applies_all_three_effects_together() {
    let mut session = SessionState::new();
    session.append(&batch(&["a", "b", "c", "d", "e", "f"]));
    session.apply_commit(3, "summary of older turns".to_string(), 77);
    assert_eq!(session.messages.len(), 3);
    assert_eq!(session.messages[0], "user: f");
    assert_eq!(session.context.as_deref(), Some("summary of older turns"));
    assert_eq!(session.token_count, 77);
}

#[test]
fn abandoned_pass_leaves_session_unchanged() {
    // A pass that fails before its commit performs no transition: the
    // stored window, summary and counter stay fully pre-compaction.
    let mut session = SessionState::new();
    session.append(&batch(&["a", "b", "c"]));
    let before_messages = session.messages.clone();
    let overflow = session.overflow_slice(2);
    let pass = CompactionPass::begin(&overflow, None, 1000);
    drop(pass);
    assert_eq!(session.messages, before_messages);
    assert_eq!(session.context, None);
    assert_eq!(session.token_count, 0);
}

#[test]
fn end_to_end_window_compaction_scenario() {
    let window: usize = 10;
    let mut session = SessionState::new();
    let mut registry = Registry::new();
    let id = "session-e2e".to_string();

    // Append 12 messages to a fresh session with window size 10.
    let mut len = 0;
    for i in 0..12 {
        len = record_append(&mut session, &mut registry, &id,
            &batch(&[&format!("turn {}", i)]), i as i64);
    }
    assert_eq!(len, 12);

    // A read of the window returns the 10 most recent, no context yet.
    let r = session.read(window);
    assert_eq!(r.messages.len(), 10);
    assert_eq!(r.messages[0].content, "turn 11");
    assert_eq!(r.messages[9].content, "turn 2");
    assert!(r.context.is_none());

    // Two more appends push the total past the window: compaction runs.
    for i in 12..14 {
        len = record_append(&mut session, &mut registry, &id,
            &batch(&[&format!("turn {}", i)]), i as i64);
    }
    assert_eq!(len, 14);
    assert!(should_compact(len, window));

    let overflow = session.overflow_slice(window);
    let context = session.context.clone();
    let mut pass = CompactionPass::begin(&overflow, context, 100000);
    let mut calls = 0;
    while let Some(_prompt) = pass.next_prompt() {
        pass.apply_summary(format!("summary after call {}", calls), 55);
        calls += 1;
    }
    assert!(calls >= 1);
    let (summary, used) = pass.finish().ok().unwrap();
    assert!(used > 0);
    session.apply_commit(window / 2, summary, used as i64);

    // The summary is set, the kept window is at most W/2, and the
    // counter grew by a positive amount.
    let r = session.read(window);
    assert!(r.context.is_some());
    assert!(!r.context.as_deref().unwrap().is_empty());
    assert!(session.messages.len() <= window / 2);
    assert_eq!(r.messages[0].content, "turn 13");
    assert!(r.tokens.unwrap() > 0);
    assert!(registry.contains(&id));
}

#[test]
fn delete_scenario_clears_session_and_registry() {
    let mut session = SessionState::new();
    let mut registry = Registry::new();
    let id = "session-del".to_string();

    record_append(&mut session, &mut registry, &id, &batch(&["hello", "world"]), 7);
    session.set_context("a summary".to_string());
    assert!(registry.contains(&id));

    record_delete(&mut session, &mut registry, &id);

    let r = session.read(10);
    assert!(r.messages.is_empty());
    assert!(r.context.is_none());
    assert_eq!(r.tokens, Some(0));
    assert!(!registry.contains(&id));
    let page = registry.list(1, 10).unwrap();
    assert!(!page.contains(&id));
}
