use polyverse_agent::event::{Platform, RawEvent};
use polyverse_agent::types::{ConversationKey, MemoryMessage};

fn raw(content: &str, is_mention: bool) -> RawEvent {
    RawEvent {
        platform: Platform::Discord,
        channel_id: "ch1".to_string(),
        message_id: "m1".to_string(),
        user_id: "u1".to_string(),
        username: "TestUser".to_string(),
        content: content.to_string(),
        is_mention,
        is_dm: false,
        timestamp: 1_700_000_000,
    }
}

#[test]
fn test_memory_message_from_raw() {
    let msg = MemoryMessage::from_raw(&raw("Hello Ryuuko!", true));
    assert_eq!(msg.id, "m1");
    assert!(msg.is_mention);
    assert!(!msg.is_bot_response);
    assert!(msg.importance >= 700_000); // mention bonus
}

#[test]
fn test_conversation_key() {
    let key = ConversationKey::new(Platform::Discord, "ch1".to_string());
    assert_eq!(key.to_string(), "Discord:ch1");
}

#[test]
fn test_bot_response() {
    let msg = MemoryMessage::bot_response(
        Platform::Telegram,
        "chat123".to_string(),
        "xin chào".to_string(),
        None,
        Some("zvwgvx".to_string()),
    );
    assert!(msg.is_bot_response);
    assert_eq!(msg.username, "Ryuuko");
}

#[test]
fn test_importance_components() {
    // base 0.3; +0.4 mention; +0.1 question mark; +0.1 over ten words
    assert_eq!(MemoryMessage::from_raw(&raw("hi", false)).importance, 300_000);
    assert_eq!(MemoryMessage::from_raw(&raw("hi?", false)).importance, 400_000);
    assert_eq!(
        MemoryMessage::from_raw(&raw("one two three four five six seven eight nine ten eleven", false))
            .importance,
        400_000
    );
    // capped at one
    assert_eq!(
        MemoryMessage::from_raw(&raw(
            "a b c d e f g h i j k? is this long enough to cap the score",
            true
        ))
        .importance,
        900_000
    );
}

#[test]
fn test_mention_tags_stripped() {
    let msg = MemoryMessage::from_raw(&raw("<@123456> hello there", true));
    assert_eq!(msg.content, "hello there");
    let msg2 = MemoryMessage::from_raw(&raw("a <@1> b <@!2> c", false));
    assert_eq!(msg2.content, "a b c");
    // a `<@` with no closing `>` stays as ordinary text
    let msg3 = MemoryMessage::from_raw(&raw("keep <@unclosed", false));
    assert_eq!(msg3.content, "keep <@unclosed");
}
