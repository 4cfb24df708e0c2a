//! The compaction pass: prompts, summary accounting, and outcomes.

use motorhead::models::MotorheadError;
use motorhead::reducer::{
    build_summary_prompt, join_lines, should_compact, summarization_outcome, CompactionPass,
    MAX_MESSAGE_TOKENS,
};

#[test]
fn budget_constants_follow_the_model_window() {
    assert_eq!(MAX_MESSAGE_TOKENS, 4096 - 512 - 230);
}

#[test]
fn trigger_fires_only_past_the_window() {
    assert!(!should_compact(10, 10));
    assert!(should_compact(11, 10));
    assert!(!should_compact(3, 10));
}

#[test]
fn join_lines_is_newline_separated() {
    assert_eq!(join_lines(&Vec::new()), "");
    assert_eq!(join_lines(&vec!["one".to_string()]), "one");
    assert_eq!(
        join_lines(&vec!["one".to_string(), "two".to_string(), "three".to_string()]),
        "one\ntwo\nthree"
    );
}

#[test]
fn prompt_embeds_context_and_chunk() {
    let chunk = vec!["user: hi".to_string(), "ai: hello".to_string()];
    let prompt = build_summary_prompt(&Some("earlier summary".to_string()), &chunk);
    assert!(prompt.starts_with("\nProgressively summarize the lines of conversation"));
    assert!(prompt.contains("Current summary:\nearlier summary\nNew lines of conversation:\nuser: hi\nai: hello\nNew summary:\n"));
    assert!(prompt.ends_with("\nNew summary:\n"));
    assert!(prompt.contains("END OF EXAMPLE"));

    let bare = build_summary_prompt(&None, &chunk);
    assert!(bare.contains("Current summary:\n\nNew lines of conversation:\n"));
}

#[test]
fn pass_walks_chunks_oldest_first_and_accumulates_usage() {
    // Stored order is newest first; the pass walks it chronologically.
    let overflow_newest_first = vec![
        "user: third".to_string(),
        "user: second".to_string(),
        "user: first".to_string(),
    ];
    let mut pass = CompactionPass::begin(&overflow_newest_first, None, 1_000_000);
    assert!(!pass.is_done());

    let prompt = pass.next_prompt().unwrap();
    assert!(prompt.contains("user: first\nuser: second\nuser: third"));
    pass.apply_summary("they talked".to_string(), 40);
    assert!(pass.is_done());
    assert!(pass.next_prompt().is_none());

    let (summary, used) = pass.finish().ok().unwrap();
    assert_eq!(summary, "they talked");
    assert_eq!(used, 40);
}

#[test]
fn running_context_feeds_the_next_prompt() {
    let overflow = vec![
        "user: b".to_string(),
        "user: a".to_string(),
    ];
    // A budget of exactly one message forces one chunk per message.
    let budget = tiktoken_rs::p50k_base()
        .unwrap()
        .encode_with_special_tokens("user: a")
        .len();
    let mut pass = CompactionPass::begin(&overflow, Some("seed".to_string()), budget);
    let first = pass.next_prompt().unwrap();
    assert!(first.contains("Current summary:\nseed\n"));
    pass.apply_summary("after a".to_string(), 7);
    let second = pass.next_prompt().unwrap();
    assert!(second.contains("Current summary:\nafter a\n"));
    pass.apply_summary("after a and b".to_string(), 8);
    assert!(pass.is_done());
    let (summary, used) = pass.finish().ok().unwrap();
    assert_eq!(summary, "after a and b");
    assert_eq!(used, 15);
}

#[test]
fn empty_pass_without_context_aborts() {
    let pass = CompactionPass::begin(&Vec::new(), None, 100);
    assert!(pass.is_done());
    match pass.finish() {
        Err(MotorheadError::IncrementalSummarizationError(m)) => {
            assert_eq!(m, "No context found after summarization");
        }
        _ => panic!("expected the summarization error"),
    }
}

#[test]
fn outcome_requires_completion_and_usage() {
    match summarization_outcome(Some("a summary".to_string()), Some(31)) {
        Ok((text, used)) => {
            assert_eq!(text, "a summary");
            assert_eq!(used, 31);
        }
        _ => panic!("expected success"),
    }
    match summarization_outcome(None, Some(31)) {
        Err(MotorheadError::IncrementalSummarizationError(m)) => {
            assert_eq!(m, "No completion found");
        }
        _ => panic!("expected the completion error"),
    }
    match summarization_outcome(Some("text".to_string()), None) {
        Err(MotorheadError::IncrementalSummarizationError(m)) => {
            assert_eq!(m, "No Usage found");
        }
        _ => panic!("expected the usage error"),
    }
}
