use polyverse_agent::event::Platform;
use polyverse_agent::journal::MemoryStore;
use polyverse_agent::types::MemoryMessage;

fn make_msg(id: &str, channel: &str, content: &str) -> MemoryMessage {
    MemoryMessage {
        id: id.to_string(),
        platform: Platform::Discord,
        channel_id: channel.to_string(),
        user_id: "u1".to_string(),
        username: "TestUser".to_string(),
        content: content.to_string(),
        is_mention: false,
        is_bot_response: false,
        reply_to_user: None,
        timestamp: 1_700_000_000,
        importance: 500_000,
    }
}

#[test]
fn test_insert_and_retrieve() {
    let mut store = MemoryStore::open_in_memory().unwrap();

    let msg = make_msg("m1", "ch1", "hello world");
    store.insert(&msg).unwrap();

    let messages = store.get_recent("Discord", "ch1", 10).unwrap();
    assert_eq!(messages.len(), 1);
    assert_eq!(messages[0].content, "hello world");
}

#[test]
fn test_batch_insert() {
    let mut store = MemoryStore::open_in_memory().unwrap();

    let msgs = vec![
        make_msg("m1", "ch1", "msg 1"),
        make_msg("m2", "ch1", "msg 2"),
        make_msg("m3", "ch1", "msg 3"),
    ];
    store.insert_batch(&msgs).unwrap();

    assert_eq!(store.message_count().unwrap(), 3);
}

#[test]
fn test_duplicate_insert_ignored() {
    let mut store = MemoryStore::open_in_memory().unwrap();

    let msg = make_msg("m1", "ch1", "hello");
    store.insert(&msg).unwrap();
    store.insert(&msg).unwrap(); // duplicate

    assert_eq!(store.message_count().unwrap(), 1);
}

#[test]
fn test_recent_comes_back_chronological() {
    let mut store = MemoryStore::open_in_memory().unwrap();
    for i in 0..5i64 {
        let mut m = make_msg(&format!("m{}", i), "ch1", &format!("line {}", i));
        m.timestamp = 1_700_000_000 + i * 60;
        store.insert(&m).unwrap();
    }
    let messages = store.get_recent("Discord", "ch1", 3).unwrap();
    assert_eq!(messages.len(), 3);
    assert!(messages.windows(2).all(|w| w[0].timestamp <= w[1].timestamp));
    assert_eq!(messages[2].content, "line 4");
}

#[test]
fn test_recent_all_is_complete_and_newest() {
    let mut store = MemoryStore::open_in_memory().unwrap();
    for i in 0..5i64 {
        let mut m = make_msg(&format!("n{}", i), "ch1", &format!("line {}", i));
        m.timestamp = 1_700_000_000 + i;
        store.insert(&m).unwrap();
    }
    // all five come back when the limit allows
    let all = store.get_recent_all(10).unwrap();
    assert_eq!(all.len(), 5);
    // the three newest come back when it does not
    let newest = store.get_recent_all(3).unwrap();
    assert_eq!(newest.len(), 3);
    assert_eq!(newest[0].content, "line 2");
    assert_eq!(newest[2].content, "line 4");
}

#[test]
fn test_batch_insert_with_duplicates_counts_fresh_ids() {
    let mut store = MemoryStore::open_in_memory().unwrap();
    let msgs = vec![
        make_msg("b1", "ch1", "one"),
        make_msg("b1", "ch1", "one again"),
        make_msg("b2", "ch1", "two"),
    ];
    store.insert_batch(&msgs).unwrap();
    assert_eq!(store.message_count().unwrap(), 2);
    // the first write under an id wins
    let rows = store.get_recent("Discord", "ch1", 10).unwrap();
    assert!(rows.iter().any(|m| m.content == "one"));
    assert!(!rows.iter().any(|m| m.content == "one again"));
}
