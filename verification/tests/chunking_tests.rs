//! Token-budgeted chunking, held against the real tokenizer.

use motorhead::reducer::plan_chunks;
use tiktoken_rs::p50k_base;

fn real_count(text: &str) -> usize {
    p50k_base().unwrap().encode_with_special_tokens(text).len()
}

#[test]
fn oversized_sequence_splits_into_budgeted_chunks() {
    let messages: Vec<String> = (0..12)
        .map(|i| format!("user: message number {} with several words in it", i))
        .collect();
    let per_message: Vec<usize> = messages.iter().map(|m| real_count(m)).collect();
    let total: usize = per_message.iter().sum();
    let budget = total / 3;
    // Every message fits the budget on its own, the total does not.
    assert!(per_message.iter().all(|t| *t <= budget));
    assert!(total > budget);

    let chunks = plan_chunks(&messages, budget);

    // Split into at least two summarization calls.
    assert!(chunks.len() >= 2);
    // Each call's input chunk stays within the budget.
    for chunk in &chunks {
        let chunk_total: usize = chunk.iter().map(|m| real_count(m)).sum();
        assert!(chunk_total <= budget);
    }
    // Nothing is lost, duplicated or reordered.
    let flattened: Vec<String> = chunks.into_iter().flatten().collect();
    assert_eq!(flattened, messages);
}

#[test]
fn sequence_within_budget_stays_one_chunk() {
    let messages: Vec<String> = vec!["user: hi".to_string(), "ai: hello".to_string()];
    let total: usize = messages.iter().map(|m| real_count(m)).sum();
    let chunks = plan_chunks(&messages, total);
    assert_eq!(chunks.len(), 1);
    assert_eq!(chunks[0], messages);
}

#[test]
fn empty_sequence_plans_no_chunks() {
    let chunks = plan_chunks(&Vec::new(), 100);
    assert!(chunks.is_empty());
}

#[test]
fn greedy_boundary_closes_chunk_before_overflow() {
    // Messages of one or two tokens against a tiny budget: the walk
    // closes each chunk exactly when the next message would overflow it.
    let messages: Vec<String> = vec![
        "a".to_string(),
        "b".to_string(),
        "c".to_string(),
        "d".to_string(),
    ];
    let each = real_count("a");
    let chunks = plan_chunks(&messages, each * 2);
    assert!(chunks.len() >= 2);
    for chunk in &chunks {
        let chunk_total: usize = chunk.iter().map(|m| real_count(m)).sum();
        assert!(chunk_total <= each * 2);
    }
}
