use polyverse_agent::compressor::{
    backoff_secs, build_metadata, format_recent_log, format_transcript, parse_compression,
    plan_ingestion, strip_code_fences, CompressionResult,
};
use polyverse_agent::event::Platform;
use polyverse_agent::types::MemoryMessage;

fn make_msg(id: &str, user: &str, content: &str, ts: i64) -> MemoryMessage {
    MemoryMessage {
        id: id.to_string(),
        platform: Platform::Discord,
        channel_id: "ch1".to_string(),
        user_id: user.to_string(),
        username: user.to_string(),
        content: content.to_string(),
        is_mention: true,
        is_bot_response: false,
        reply_to_user: None,
        timestamp: ts,
        importance: 700_000,
    }
}

#[test]
fn test_strip_code_fences() {
    assert_eq!(strip_code_fences("```json\n{\"a\":1}\n```"), "{\"a\":1}");
    assert_eq!(strip_code_fences("  {\"a\":1}  "), "{\"a\":1}");
    assert_eq!(strip_code_fences("```{\"a\":1}```"), "{\"a\":1}");
    // the json marker is only recognized at the very front
    assert_eq!(strip_code_fences("``````json{\"a\":1}```"), "json{\"a\":1}");
    assert_eq!(strip_code_fences("plain"), "plain");
}

#[test]
fn test_parse_compression_reads_diary() {
    let reply = "```json\n{\"diary_entry\":\"hôm nay vui\"}\n```";
    let result = parse_compression(reply).expect("diary entry present");
    assert_eq!(result.fact, "hôm nay vui");
    assert_eq!(result.importance, 7_000_000);
}

#[test]
fn test_parse_compression_rejects_empty_or_malformed() {
    assert!(parse_compression("{\"diary_entry\":\"\"}").is_none());
    assert!(parse_compression("{\"other\":\"x\"}").is_none());
    assert!(parse_compression("not json at all").is_none());
}

#[test]
fn test_short_session_not_ingested() {
    // a session of two messages never reaches the episodic store
    let messages = vec![
        make_msg("m1", "alice", "hi", 100),
        make_msg("m2", "alice", "bye", 200),
    ];
    let comp = CompressionResult { fact: "diary".to_string(), importance: 7_000_000 };
    assert!(plan_ingestion(&messages, &comp, "s1".to_string()).is_none());
}

#[test]
fn test_ingestion_plan_fields() {
    let mut messages = vec![
        make_msg("m1", "alice", "hi", 100),
        make_msg("m2", "bob", "hey", 200),
        make_msg("m3", "alice", "bye", 300),
    ];
    messages[0].is_bot_response = true; // speaker is the first non-bot sender
    let comp = CompressionResult { fact: "diary text".to_string(), importance: 7_000_000 };
    let ev = plan_ingestion(&messages, &comp, "s1".to_string()).expect("long enough");
    assert_eq!(ev.id, "s1");
    assert_eq!(ev.content, "diary text");
    assert_eq!(ev.timestamp, 300);
    assert_eq!(ev.importance, 7_000_000);
    assert_eq!(
        ev.metadata,
        "{\"username\":\"bob\",\"message_count\":3,\"first_message_timestamp\":100}"
    );
}

#[test]
fn test_metadata_escapes_quotes() {
    let meta = build_metadata("a\"b\\c", 2, 5);
    assert_eq!(
        meta,
        "{\"username\":\"a\\\"b\\\\c\",\"message_count\":2,\"first_message_timestamp\":5}"
    );
}

#[test]
fn test_backoff_doubles() {
    assert_eq!(backoff_secs(0), 1);
    assert_eq!(backoff_secs(1), 2);
    assert_eq!(backoff_secs(2), 4);
    assert_eq!(backoff_secs(3), 8);
}

#[test]
fn test_format_transcript_lines() {
    let mut messages = vec![
        make_msg("t1", "alice", "hi", 1),
        make_msg("t2", "ryuuko", "hello", 2),
    ];
    messages[1].is_bot_response = true;
    assert_eq!(format_transcript(&messages), "[alice]: hi\n[Ryuuko]: hello");
    assert_eq!(format_transcript(&vec![]), "");
}

#[test]
fn test_format_recent_log_takes_last_four() {
    let history = vec![
        ("user".to_string(), "alice".to_string(), "one".to_string()),
        ("assistant".to_string(), "".to_string(), "two".to_string()),
        ("user".to_string(), "bob".to_string(), "three".to_string()),
        ("user".to_string(), "alice".to_string(), "four".to_string()),
        ("user".to_string(), "bob".to_string(), "five".to_string()),
    ];
    let log = format_recent_log(&history, 4, "carol", "now");
    assert_eq!(
        log,
        "Ryuuko: two\nbob: three\nalice: four\nbob: five\ncarol: now\n"
    );
    let short = format_recent_log(&vec![], 4, "carol", "now");
    assert_eq!(short, "carol: now\n");
}
