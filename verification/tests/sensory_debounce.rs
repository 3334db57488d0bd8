use polyverse_agent::event::{directed_at_agent, Platform, RawEvent};
use polyverse_agent::sensory::{BufferKey, DebounceActor};

fn raw(message_id: &str, content: &str, is_mention: bool, is_dm: bool, ts: i64) -> RawEvent {
    RawEvent {
        platform: Platform::Discord,
        channel_id: "ch1".to_string(),
        message_id: message_id.to_string(),
        user_id: "u1".to_string(),
        username: "alice".to_string(),
        content: content.to_string(),
        is_mention,
        is_dm,
        timestamp: ts,
    }
}

#[test]
fn test_debounce_aggregation() {
    // three messages one second apart become one event three seconds after
    // the last input
    let mut actor = DebounceActor::new(0);
    actor.on_message(raw("1", "a", false, false, 10), 0);
    actor.on_message(raw("2", "b", false, false, 11), 1_000);
    actor.on_message(raw("3", "c", true, false, 12), 2_000);

    assert!(!actor.should_flush(4_999));
    assert!(actor.should_flush(5_000));

    let out = actor.flush().expect("aggregate present");
    assert_eq!(out.content, "a\nb\nc");
    assert!(out.is_mention); // OR-merged
    assert!(!out.is_dm);
    assert_eq!(out.message_id, "1"); // routing from the first message
    assert_eq!(out.timestamp, 12); // timestamp from the last
}

#[test]
fn test_single_push_quiesce_flushes_trimmed() {
    let mut actor = DebounceActor::new(0);
    actor.on_message(raw("1", "  hello  \n", true, true, 5), 0);
    assert!(actor.should_flush(3_000));
    let out = actor.flush().expect("aggregate present");
    assert_eq!(out.content, "hello");
    assert!(out.is_mention && out.is_dm);
}

#[test]
fn test_typing_extends_deadline() {
    let mut actor = DebounceActor::new(0);
    actor.on_message(raw("1", "x", false, false, 0), 0);
    actor.on_typing(2_000);
    assert!(!actor.should_flush(5_999));
    assert!(actor.should_flush(6_000));
}

#[test]
fn test_empty_actor_flushes_nothing() {
    let actor = DebounceActor::new(0);
    assert!(actor.flush().is_none());
}

#[test]
fn test_buffer_key_from_raw() {
    let key = BufferKey::from_raw(&raw("1", "x", false, false, 0));
    assert_eq!(key.platform, Platform::Discord);
    assert_eq!(key.channel_id, "ch1");
    assert_eq!(key.user_id, "u1");
}

#[test]
fn test_directed_at_agent_mention_dm_and_reply() {
    let mentions = vec!["42".to_string(), "7".to_string()];
    let none: Vec<String> = Vec::new();

    // a DM is always directed at the agent
    assert!(directed_at_agent("1", true, &none, &None));
    // the agent's own id among the mentioned ids
    assert!(directed_at_agent("7", false, &mentions, &None));
    assert!(!directed_at_agent("9", false, &mentions, &None));
    // a reply to one of the agent's own turns
    assert!(directed_at_agent("9", false, &none, &Some("9".to_string())));
    assert!(!directed_at_agent("9", false, &none, &Some("3".to_string())));
    // nothing points at the agent
    assert!(!directed_at_agent("9", false, &none, &None));
}
