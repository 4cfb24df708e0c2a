//! Long-term memory: reply parsing, record building, and the store
//! commands the engine issues.

use motorhead::keys::{context_key, long_term_key, session_key, sessions_key, token_count_key};
use motorhead::long_term::{
    build_index_records, ft_create_args, ft_search_args, index_missing_error, knn_query,
    parse_redisearch_response, CommandArg, RedisValue,
};
use motorhead::models::MemoryMessage;
use motorhead::text::u64_to_string;
use motorhead::vector::encode_vector;

fn data(s: &str) -> RedisValue {
    RedisValue::Data(s.to_string())
}

#[test]
fn parse_reply_decodes_records_after_count() {
    let record1 = RedisValue::Bulk(vec![
        data("role"), data("user"),
        data("content"), data("hello"),
        data("dist"), data("0.125"),
    ]);
    let record2 = RedisValue::Bulk(vec![
        data("content"), data("goodbye"),
        data("ignored"), data("x"),
    ]);
    let reply = RedisValue::Bulk(vec![RedisValue::Int(2), record1, record2]);
    let results = parse_redisearch_response(&reply);
    assert_eq!(results.len(), 2);
    assert_eq!(results[0].role, "user");
    assert_eq!(results[0].content, "hello");
    assert_eq!(results[0].dist, "0.125");
    assert_eq!(results[1].role, "");
    assert_eq!(results[1].content, "goodbye");
    assert_eq!(results[1].dist, "");
}

#[test]
fn parse_reply_drops_malformed_records() {
    let good = RedisValue::Bulk(vec![data("role"), data("ai")]);
    let not_an_array = RedisValue::Int(9);
    let non_text_entry = RedisValue::Bulk(vec![data("role"), RedisValue::Int(1)]);
    let reply = RedisValue::Bulk(vec![
        RedisValue::Int(3), not_an_array, good, non_text_entry,
    ]);
    let results = parse_redisearch_response(&reply);
    assert_eq!(results.len(), 1);
    assert_eq!(results[0].role, "ai");
}

#[test]
fn parse_reply_ignores_trailing_field_name() {
    let record = RedisValue::Bulk(vec![data("content"), data("kept"), data("dist")]);
    let reply = RedisValue::Bulk(vec![RedisValue::Int(1), record]);
    let results = parse_redisearch_response(&reply);
    assert_eq!(results.len(), 1);
    assert_eq!(results[0].content, "kept");
    assert_eq!(results[0].dist, "");
}

#[test]
fn parse_reply_of_other_shapes_is_empty() {
    assert!(parse_redisearch_response(&RedisValue::Nil).is_empty());
    assert!(parse_redisearch_response(&RedisValue::Int(5)).is_empty());
    assert!(parse_redisearch_response(&RedisValue::Bulk(Vec::new())).is_empty());
}

#[test]
fn index_records_carry_session_turn_and_encoded_vector() {
    let messages = vec![
        MemoryMessage { role: "user".to_string(), content: "first".to_string() },
        MemoryMessage { role: "ai".to_string(), content: "second".to_string() },
    ];
    let embeddings: Vec<Vec<u32>> = vec![
        vec![1.0f32.to_bits(), 2.0f32.to_bits()],
        vec![3.5f32.to_bits(), (-1.25f32).to_bits()],
    ];
    let session = "sess-1".to_string();
    let records = build_index_records(&messages, &embeddings, &session);
    assert_eq!(records.len(), 2);
    for (i, record) in records.iter().enumerate() {
        assert_eq!(record.session_id, "sess-1");
        assert_eq!(record.role, messages[i].role);
        assert_eq!(record.content, messages[i].content);
        assert_eq!(record.vector, encode_vector(&embeddings[i]));
        assert!(record.key.starts_with("motorhead:"));
        assert_eq!(record.key.chars().count(), 31);
    }
    // The generated ids differ between records.
    assert_ne!(records[0].key, records[1].key);
}

#[test]
fn knn_query_scopes_to_the_session() {
    assert_eq!(
        knn_query(&"abc".to_string()),
        "@session:{abc}=>[KNN 10 @vector $V AS dist]"
    );
}

#[test]
fn search_command_arguments_are_exact() {
    let args = ft_search_args(&"s1".to_string(), vec![9, 8, 7]);
    assert_eq!(args.len(), 15);
    let expect_text = |arg: &CommandArg, want: &str| match arg {
        CommandArg::Text(s) => assert_eq!(s, want),
        CommandArg::Blob(_) => panic!("expected text"),
    };
    expect_text(&args[0], "motorhead");
    expect_text(&args[1], "@session:{s1}=>[KNN 10 @vector $V AS dist]");
    expect_text(&args[2], "PARAMS");
    expect_text(&args[3], "2");
    expect_text(&args[4], "V");
    match &args[5] {
        CommandArg::Blob(b) => assert_eq!(b, &vec![9, 8, 7]),
        CommandArg::Text(_) => panic!("expected the vector blob"),
    }
    expect_text(&args[6], "RETURN");
    expect_text(&args[7], "3");
    expect_text(&args[8], "role");
    expect_text(&args[9], "content");
    expect_text(&args[10], "dist");
    expect_text(&args[11], "SORTBY");
    expect_text(&args[12], "dist");
    expect_text(&args[13], "DIALECT");
    expect_text(&args[14], "2");
}

#[test]
fn create_command_arguments_are_exact() {
    let args = ft_create_args(1536, &"COSINE".to_string());
    let want: Vec<&str> = vec![
        "motorhead", "ON", "HASH", "PREFIX", "1", "motorhead:",
        "SCHEMA", "session", "TAG", "content", "TEXT", "role", "TEXT",
        "vector", "VECTOR", "HNSW", "6", "TYPE", "FLOAT32", "DIM", "1536",
        "DISTANCE_METRIC", "COSINE",
    ];
    assert_eq!(args.len(), want.len());
    for (got, want) in args.iter().zip(want.iter()) {
        assert_eq!(got, want);
    }
}

#[test]
fn decimal_rendering_matches_standard_formatting() {
    assert_eq!(u64_to_string(0), "0");
    assert_eq!(u64_to_string(7), "7");
    assert_eq!(u64_to_string(1536), "1536");
    assert_eq!(u64_to_string(18_446_744_073_709_551_615), "18446744073709551615");
}

#[test]
fn index_missing_reply_is_recognized_case_insensitively() {
    // The folding runs through the real lowercase call: an upper-case
    // reply matches only because the text was actually folded.
    assert!(index_missing_error(&"Unknown: Index Name not found".to_string()));
    assert!(index_missing_error(&"UNKNOWN: INDEX NAME".to_string()));
    assert!(!index_missing_error(&"connection refused".to_string()));
    assert!(!index_missing_error(&"unknown index".to_string()));
}

#[test]
fn key_naming_is_prefixed_per_kind() {
    let id = "abc".to_string();
    assert_eq!(session_key(&id), "session:abc");
    assert_eq!(context_key(&id), "context:abc");
    assert_eq!(token_count_key(&id), "tokens:abc");
    assert_eq!(long_term_key(&id), "motorhead:abc");
    assert_eq!(sessions_key(&None), "sessions");
    assert_eq!(sessions_key(&Some("team".to_string())), "sessions:team");
}
