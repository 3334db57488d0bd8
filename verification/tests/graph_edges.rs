use polyverse_agent::graph::{clamp_delta, CognitiveGraph, EmotionDelta, SocialDelta};

fn delta(affinity: i64, attachment: i64, trust: i64, safety: i64, tension: i64) -> SocialDelta {
    SocialDelta {
        delta_affinity: affinity,
        delta_attachment: attachment,
        delta_trust: trust,
        delta_safety: safety,
        delta_tension: tension,
    }
}

#[test]
fn test_delta_clamped_to_hard_limit() {
    // +0.40 written comes out as the stored change +0.30
    assert_eq!(clamp_delta(400_000), 300_000);
    assert_eq!(clamp_delta(-400_000), -300_000);
    assert_eq!(clamp_delta(123), 123);

    let mut graph = CognitiveGraph::new();
    graph.update_social_graph("u", delta(400_000, 0, 0, 0, 0), 0);
    let (att, _) = graph.get_social_context("u", 0);
    assert_eq!(att.affinity, 300_000);
}

#[test]
fn test_full_roundtrip() {
    let mut graph = CognitiveGraph::new();

    // First write
    graph.update_social_graph("roundtrip", delta(150_000, 50_000, 100_000, 80_000, -20_000), 0);
    let (att1, _) = graph.get_social_context("roundtrip", 0);
    assert_eq!(att1.affinity, 150_000);

    // Second write accumulates
    graph.update_social_graph("roundtrip", delta(100_000, 100_000, 0, 0, 0), 0);
    let (att2, _) = graph.get_social_context("roundtrip", 0);
    assert_eq!(att2.affinity, 250_000);
    assert_eq!(att2.attachment, 150_000);
    assert_eq!(att2.trust, 100_000);
}

#[test]
fn test_fields_stay_in_unit_range() {
    let mut graph = CognitiveGraph::new();
    for _ in 0..10 {
        graph.update_social_graph("u", delta(300_000, 300_000, -300_000, 300_000, -300_000), 0);
    }
    let (att, _) = graph.get_social_context("u", 0);
    assert_eq!(att.affinity, 1_000_000); // clamped at +1
    assert_eq!(att.trust, -1_000_000); // clamped at -1
    assert!(att.attachment.abs() <= 1_000_000);
}

#[test]
fn test_zero_delta_twice_keeps_zero() {
    let mut graph = CognitiveGraph::new();
    graph.update_social_graph("u", delta(0, 0, 0, 0, 0), 0);
    graph.update_social_graph("u", delta(0, 0, 0, 0, 0), 0);
    let (att, ill) = graph.get_social_context("u", 0);
    assert_eq!(att.affinity, 0);
    assert_eq!(att.attachment, 0);
    assert_eq!(att.trust, 0);
    assert_eq!(att.safety, 0);
    assert_eq!(att.tension, 0);
    assert_eq!(ill.affinity, 0);
}

#[test]
fn test_decay_one_day_on_read() {
    let mut graph = CognitiveGraph::new();
    let t0 = 1_700_000_000;
    graph.update_social_graph("u", delta(400_000, 0, 0, 0, 0), t0);
    // one simulated day later: 0.30 * 0.99 = 0.297
    let (att, _) = graph.get_social_context("u", t0 + 86_400);
    assert_eq!(att.affinity, 297_000);
}

#[test]
fn test_reading_twice_is_idempotent() {
    let mut graph = CognitiveGraph::new();
    let t0 = 1_700_000_000;
    graph.update_social_graph("u", delta(200_000, 100_000, 50_000, 25_000, -10_000), t0);
    let later = t0 + 5 * 86_400;
    let first = graph.get_social_context("u", later);
    let second = graph.get_social_context("u", later);
    assert_eq!(first, second);
    // and the decayed reading was never written back
    let (att, _) = graph.get_social_context("u", t0);
    assert_eq!(att.affinity, 200_000);
}

#[test]
fn test_names_are_sanitized_for_edge_keys() {
    let mut graph = CognitiveGraph::new();
    graph.update_social_graph("a`b'c\"d", delta(100_000, 0, 0, 0, 0), 0);
    // the quoted spelling reaches the same edge
    let (att, _) = graph.get_social_context("abcd", 0);
    assert_eq!(att.affinity, 100_000);
}

#[test]
fn test_entity_and_dynamic_edges() {
    let mut graph = CognitiveGraph::new();
    graph.update_emotion_graph(
        "coffee",
        EmotionDelta {
            entity_name: "coffee".to_string(),
            delta_preference: 500_000,
            delta_stress: -100_000,
            delta_fascination: 200_000,
        },
    );
    graph.update_observed_dynamic("alice", "bob", 150_000);
    graph.update_observed_dynamic("alice", "bob", 150_000);
    // the entity delta was clamped to the hard limit before accumulation
    let _ = graph;
}
