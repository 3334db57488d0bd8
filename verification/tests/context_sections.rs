use polyverse_agent::context::{
    context_depth, memory_section, search_query, social_section, time_history_section,
};
use polyverse_agent::graph::{AttitudesTowards, IllusionOf};
use polyverse_agent::numfmt::{i64_to_string, micro_to_string, u64_to_string};

fn att(affinity: i64, attachment: i64, trust: i64, safety: i64) -> AttitudesTowards {
    AttitudesTowards { affinity, attachment, trust, safety, tension: 0 }
}

#[test]
fn test_micro_rendering_six_places() {
    assert_eq!(micro_to_string(297_000), "0.297000");
    assert_eq!(micro_to_string(-1_000_000), "-1.000000");
    assert_eq!(micro_to_string(0), "0.000000");
    assert_eq!(micro_to_string(7_000_000), "7.000000");
    assert_eq!(micro_to_string(5), "0.000005");
}

#[test]
fn test_integer_rendering() {
    assert_eq!(u64_to_string(0), "0");
    assert_eq!(u64_to_string(1234), "1234");
    assert_eq!(i64_to_string(-42), "-42");
}

#[test]
fn test_context_depth_formula() {
    // mean of the four absolute axes plus the capped memory hint
    let depth = context_depth(&att(400_000, -400_000, 200_000, 200_000), 10);
    // (0.4+0.4+0.2+0.2)/4 = 0.3, plus 10/200 = 0.05
    assert_eq!(depth, 350_000);

    // the memory hint caps at 0.15
    let capped = context_depth(&att(0, 0, 0, 0), 10_000);
    assert_eq!(capped, 150_000);

    // the whole depth caps at one
    let full = context_depth(&att(1_000_000, 1_000_000, 1_000_000, 1_000_000), 10_000);
    assert_eq!(full, 1_000_000);
}

#[test]
fn test_social_section_serializes_six_places() {
    let attitudes = att(297_000, 0, 0, 0);
    let illusion = IllusionOf { affinity: -5, attachment: 0, trust: 0, safety: 0, tension: 0 };
    let text = social_section("alice", &attitudes, &illusion, 123_456);
    assert!(text.contains("alice"));
    assert!(text.contains("0.297000"));
    assert!(text.contains("0.123456"));
    assert!(text.contains("-0.000005"));
}

#[test]
fn test_memory_section_shape() {
    assert!(memory_section(&vec![]).is_none());
    let hits = vec![
        ("2026-01-01 00:00:00 UTC".to_string(), "một kỷ niệm".to_string()),
    ];
    let text = memory_section(&hits).unwrap();
    assert!(text.contains("- [Vào 2026-01-01 00:00:00 UTC]: một kỷ niệm\n"));
}

#[test]
fn test_search_query_takes_last_two() {
    let history = vec!["one".to_string(), "two".to_string(), "three".to_string()];
    assert_eq!(search_query(&history, "new"), "two | three | new");
    let one = vec!["only".to_string()];
    assert_eq!(search_query(&one, "new"), "only | new");
    assert_eq!(search_query(&vec![], "new"), "new");
}

#[test]
fn test_time_history_section_cases() {
    // a stranger's first turn
    let stranger = time_history_section("u", "s", "v", "alice", &vec![], 0, 0);
    assert!(stranger.starts_with("[NOW]: UTC: u | Ryuuko(GMT+8): s | User(GMT+7): v\n"));
    assert!(stranger.contains("tin nhắn đầu tiên từ alice"));
    // a known returner's first turn of a new session
    let returner = time_history_section("u", "s", "v", "alice", &vec![], 0, 5);
    assert!(returner.contains("người quen cũ"));
    // a continuation with deduplicated participants
    let names = vec!["alice".to_string(), "bob".to_string(), "alice".to_string()];
    let cont = time_history_section("u", "s", "v", "alice", &names, 3, 5);
    assert!(cont.contains("đã có 3 tin nhắn"));
    assert!(cont.contains("người tham gia: alice, bob."));
}
