use polyverse_agent::event::{Platform, RawEvent};
use polyverse_agent::stream::TurnStream;

fn mention(is_dm: bool) -> RawEvent {
    RawEvent {
        platform: Platform::Discord,
        channel_id: "ch1".to_string(),
        message_id: "1".to_string(),
        user_id: "u1".to_string(),
        username: "alice".to_string(),
        content: "<@1> hi".to_string(),
        is_mention: true,
        is_dm,
        timestamp: 1_700_000_000,
    }
}

fn sse(content: &str) -> String {
    format!(
        "data: {{\"choices\":[{{\"delta\":{{\"content\":\"{}\"}}}}]}}\n",
        content
    )
}

#[test]
fn test_mention_reply_completion() {
    let mut turn = TurnStream::new(&mention(false));
    let events = turn.feed_chunk(&sse("hello\\nworld\\n"));
    assert_eq!(events.len(), 2);
    assert_eq!(events[0].content, "hello");
    assert_eq!(events[0].reply_to_message_id.as_deref(), Some("1"));
    assert_eq!(events[1].content, "world");
    assert!(events[1].reply_to_message_id.is_none());

    let tail = turn.feed_chunk("data: [DONE]\n");
    assert!(tail.is_empty());
    let (final_events, completion) = turn.finish();
    assert!(final_events.is_empty());
    let completion = completion.expect("one completion per successful turn");
    assert_eq!(completion.content, "hello\nworld");
    assert_eq!(completion.reply_to_message_id.as_deref(), Some("1"));
}

#[test]
fn test_dm_reply_policy() {
    let mut turn = TurnStream::new(&mention(true));
    let events = turn.feed_chunk(&sse("ok\\n"));
    assert_eq!(events.len(), 1);
    assert_eq!(events[0].content, "ok");
    assert!(events[0].reply_to_message_id.is_none());
}

#[test]
fn test_thinking_filter_cross_chunk() {
    let mut turn = TurnStream::new(&mention(false));
    let mut events = turn.feed_chunk(&sse("<th"));
    events.extend(turn.feed_chunk(&sse("ink>secret</think>visible\\n")));
    assert_eq!(events.len(), 1);
    assert_eq!(events[0].content, "visible");
    assert!(!events[0].content.contains("secret"));
}

#[test]
fn test_thinking_filter_single_chunk() {
    let mut turn = TurnStream::new(&mention(false));
    let events = turn.feed_chunk(&sse("<think>secret plans</think>spoken\\n"));
    assert_eq!(events.len(), 1);
    assert_eq!(events[0].content, "spoken");
}

#[test]
fn test_at_most_one_reply_reference_per_turn() {
    let mut turn = TurnStream::new(&mention(false));
    let mut events = turn.feed_chunk(&sse("a\\n"));
    events.extend(turn.feed_chunk(&sse("b\\n")));
    events.extend(turn.feed_chunk(&sse("c\\n")));
    let (tail, _) = turn.finish();
    events.extend(tail);
    let with_reply: Vec<_> =
        events.iter().filter(|e| e.reply_to_message_id.is_some()).collect();
    assert_eq!(with_reply.len(), 1);
    assert_eq!(events[0].reply_to_message_id.as_deref(), Some("1"));
}

#[test]
fn test_remainder_flushed_at_finish() {
    let mut turn = TurnStream::new(&mention(false));
    let events = turn.feed_chunk(&sse("no newline yet"));
    assert!(events.is_empty());
    let (tail, completion) = turn.finish();
    assert_eq!(tail.len(), 1);
    assert_eq!(tail[0].content, "no newline yet");
    assert_eq!(completion.unwrap().content, "no newline yet");
}

#[test]
fn test_empty_turn_has_no_completion() {
    let mut turn = TurnStream::new(&mention(false));
    let _ = turn.feed_chunk("data: [DONE]\n");
    let (tail, completion) = turn.finish();
    assert!(tail.is_empty());
    assert!(completion.is_none());
}

#[test]
fn test_blank_lines_are_never_emitted() {
    let mut turn = TurnStream::new(&mention(false));
    let events = turn.feed_chunk(&sse("first\\n\\n\\nsecond\\n"));
    assert_eq!(events.len(), 2);
    assert_eq!(events[0].content, "first");
    assert_eq!(events[1].content, "second");
}

#[test]
fn test_data_after_done_is_ignored() {
    let mut turn = TurnStream::new(&mention(false));
    let mut events = turn.feed_chunk("data: [DONE]\n");
    events.extend(turn.feed_chunk(&sse("late\\n")));
    assert!(events.is_empty());
}
