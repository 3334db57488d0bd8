use polyverse_agent::event::Platform;
use polyverse_agent::short_term::{ShortTermConfig, ShortTermMemory};
use polyverse_agent::types::{ConversationKey, MemoryMessage};

fn make_msg(id: &str, channel: &str, user: &str, content: &str, is_mention: bool) -> MemoryMessage {
    MemoryMessage {
        id: id.to_string(),
        platform: Platform::Discord,
        channel_id: channel.to_string(),
        user_id: user.to_string(),
        username: user.to_string(),
        content: content.to_string(),
        is_mention,
        reply_to_user: None,
        is_bot_response: false,
        timestamp: 1_700_000_000,
        importance: if is_mention { 700_000 } else { 300_000 },
    }
}

#[test]
fn test_push_and_context() {
    let mut mem = ShortTermMemory::new();

    let msg1 = make_msg("a1", "ch1", "Alice", "hello", false);
    let msg2 = make_msg("a2", "ch1", "Bob", "hey ryuuko", true);
    let msg3 = make_msg("a3", "ch1", "Alice", "what's up", false);

    mem.push(msg1);
    mem.push(msg2);
    mem.push(msg3);

    let key = ConversationKey::new(Platform::Discord, "ch1".to_string());
    let context = mem.get_context_for_prompt(&key);
    assert_eq!(context.len(), 3);

    assert_eq!(mem.active_session_count(), 1);
    assert_eq!(mem.total_messages(), 3);
}

#[test]
fn test_separate_conversations() {
    let mut mem = ShortTermMemory::new();

    mem.push(make_msg("b1", "ch1", "Alice", "hello", false));
    mem.push(make_msg("b2", "ch2", "Bob", "hey", false));

    assert_eq!(mem.active_session_count(), 2);
}

#[test]
fn test_format_context() {
    let mut mem = ShortTermMemory::new();

    mem.push(make_msg("c1", "ch1", "Alice", "xin chào", false));
    let mut bot_msg = make_msg("c2", "ch1", "Ryuuko", "chào nha", false);
    bot_msg.is_bot_response = true;
    bot_msg.username = "Ryuuko".to_string();
    mem.push(bot_msg);

    let key = ConversationKey::new(Platform::Discord, "ch1".to_string());
    let formatted = mem.format_context(&key).unwrap();
    assert!(formatted.contains("Alice: xin chào"));
    assert!(formatted.contains("Ryuuko: chào nha"));
}

#[test]
fn test_max_prompt_messages() {
    let config = ShortTermConfig { base_timeout_secs: 1200, max_prompt_messages: 3 };
    let mut mem = ShortTermMemory::with_config(config);

    for i in 0..10 {
        mem.push(make_msg(&format!("d{}", i), "ch1", "User", &format!("msg {}", i), false));
    }

    let key = ConversationKey::new(Platform::Discord, "ch1".to_string());
    let context = mem.get_context_for_prompt(&key);
    assert_eq!(context.len(), 3); // limited to max_prompt_messages
}

#[test]
fn test_history_excludes_current_and_is_chronological() {
    let mut mem = ShortTermMemory::new();
    for i in 0..5 {
        let mut m = make_msg(&format!("e{}", i), "ch1", "Alice", &format!("line {}", i), false);
        m.timestamp = 1_700_000_000 + i;
        mem.push(m);
    }
    let key = ConversationKey::new(Platform::Discord, "ch1".to_string());
    let history = mem.get_history_for_prompt(&key, "e2");
    assert_eq!(history.len(), 4);
    for (role, name, content) in &history {
        assert_eq!(role, "user");
        assert_eq!(name, "Alice");
        assert_ne!(content, "line 2");
    }
    // chronological: ascending timestamps come back in order
    assert_eq!(history[0].2, "line 0");
    assert_eq!(history[3].2, "line 4");
}

#[test]
fn test_history_assistant_turns_carry_no_name() {
    let mut mem = ShortTermMemory::new();
    mem.push(make_msg("f1", "ch1", "Alice", "hi", false));
    let mut bot = make_msg("f2", "ch1", "Ryuuko", "hello", false);
    bot.is_bot_response = true;
    mem.push(bot);
    let key = ConversationKey::new(Platform::Discord, "ch1".to_string());
    let history = mem.get_history_for_prompt(&key, "");
    assert_eq!(history.len(), 2);
    assert_eq!(history[0].0, "user");
    assert_eq!(history[0].1, "Alice");
    assert_eq!(history[1].0, "assistant");
    assert_eq!(history[1].1, "");
    assert_eq!(history[1].2, "hello");
}

#[test]
fn test_expired_session_drained_on_push() {
    let mut mem = ShortTermMemory::new();
    let mut first = make_msg("g1", "ch1", "Alice", "old", false);
    first.timestamp = 1_000_000;
    assert!(mem.push(first).is_none());

    // far past the adaptive timeout (base 1200 s + 60 s for one message)
    let mut second = make_msg("g2", "ch1", "Alice", "new", false);
    second.timestamp = 1_000_000 + 10_000;
    let (drained, was_persisted) = mem.push(second).expect("expired session should drain");
    assert_eq!(drained.len(), 1);
    assert_eq!(drained[0].content, "old");
    assert!(!was_persisted);

    // the session restarted with just the new message
    assert_eq!(mem.total_messages(), 1);
}

#[test]
fn test_flush_expired_collects_timed_out_sessions() {
    let mut mem = ShortTermMemory::new();
    let mut old_msg = make_msg("h1", "ch1", "Alice", "stale", false);
    old_msg.timestamp = 1_000_000;
    mem.push(old_msg);
    let mut fresh = make_msg("h2", "ch2", "Bob", "fresh", false);
    fresh.timestamp = 1_005_000;
    mem.push(fresh);

    let flushed = mem.flush_expired(1_005_100);
    assert_eq!(flushed.len(), 1);
    assert_eq!(flushed[0].0.channel_id, "ch1");
    assert_eq!(flushed[0].1.len(), 1);
    assert_eq!(flushed[0].1[0].content, "stale");
    assert!(!flushed[0].2);
    assert_eq!(mem.active_session_count(), 1);
}

#[test]
fn test_load_history_appends_per_conversation() {
    let mut mem = ShortTermMemory::new();
    mem.push(make_msg("k0", "ch1", "Alice", "live", false));

    let mut older = Vec::new();
    for i in 0..3 {
        let mut m = make_msg(&format!("k{}", i + 1), "ch1", "Alice", &format!("old {}", i), false);
        m.timestamp = 1_600_000_000 + i;
        older.push(m);
    }
    let mut other = make_msg("k9", "ch2", "Bob", "elsewhere", false);
    other.timestamp = 1_600_000_500;
    older.push(other);

    mem.load_history(older);
    assert_eq!(mem.active_session_count(), 2);
    assert_eq!(mem.total_messages(), 5);

    let key = ConversationKey::new(Platform::Discord, "ch1".to_string());
    let history = mem.get_history_for_prompt(&key, "");
    assert_eq!(history.len(), 4);
    // the loaded messages are older, so they precede the live one
    assert_eq!(history[0].2, "old 0");
    assert_eq!(history[2].2, "old 2");
    assert_eq!(history[3].2, "live");
}

#[test]
fn test_push_out_of_order_keeps_chronological() {
    let mut mem = ShortTermMemory::new();
    let mut first = make_msg("m1", "ch1", "Alice", "later", false);
    first.timestamp = 1_700_000_100;
    mem.push(first);
    // a message stamped earlier lands before the one already there
    let mut second = make_msg("m2", "ch1", "Alice", "earlier", false);
    second.timestamp = 1_700_000_050;
    mem.push(second);

    let key = ConversationKey::new(Platform::Discord, "ch1".to_string());
    let history = mem.get_history_for_prompt(&key, "");
    assert_eq!(history.len(), 2);
    assert_eq!(history[0].2, "earlier");
    assert_eq!(history[1].2, "later");
}

#[test]
fn test_replenished_sessions_flush_as_already_persisted() {
    let mut mem = ShortTermMemory::new();
    let mut loaded = Vec::new();
    for i in 0..3 {
        let mut m = make_msg(&format!("p{}", i), "ch1", "Alice", &format!("old {}", i), false);
        m.timestamp = 1_000_000 + i;
        loaded.push(m);
    }
    mem.load_history(loaded);
    mem.mark_all_persisted();

    // far past the adaptive timeout: the replenished session expires
    let flushed = mem.flush_expired(2_000_000);
    assert_eq!(flushed.len(), 1);
    assert_eq!(flushed[0].1.len(), 3);
    // marked as already persisted, so the shell must not ingest it again
    assert!(flushed[0].2);
}

#[test]
fn test_new_message_clears_the_persisted_mark() {
    let mut mem = ShortTermMemory::new();
    let mut m = make_msg("q1", "ch1", "Alice", "old", false);
    m.timestamp = 1_000_000;
    mem.load_history(vec![m]);
    mem.mark_all_persisted();

    // fresh traffic in the marked session makes it ingestible again
    let mut fresh = make_msg("q2", "ch1", "Alice", "new", false);
    fresh.timestamp = 1_000_100;
    mem.push(fresh);

    let flushed = mem.flush_expired(2_000_000);
    assert_eq!(flushed.len(), 1);
    assert_eq!(flushed[0].1.len(), 2);
    assert!(!flushed[0].2);
}
