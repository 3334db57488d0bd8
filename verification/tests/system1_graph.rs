use polyverse_agent::graph::{CognitiveGraph, SocialDelta};
use polyverse_agent::system1::{
    apply_system1_update, EntityUpdate, ObservedDynamic, SocialTargetUpdate, System1Update,
};

fn delta(affinity: i64) -> SocialDelta {
    SocialDelta {
        delta_affinity: affinity,
        delta_attachment: 0,
        delta_trust: 0,
        delta_safety: 0,
        delta_tension: 0,
    }
}

#[test]
fn test_multi_target_write() {
    // two social updates: the chat partner with a projected delta, and a
    // mentioned person without one
    let update = System1Update {
        social_updates: vec![
            SocialTargetUpdate {
                target_user: "u1".to_string(),
                role: "chat_partner".to_string(),
                actual_perception_delta: delta(100_000),
                projected_illusion_delta: Some(delta(50_000)),
            },
            SocialTargetUpdate {
                target_user: "u2".to_string(),
                role: "mentioned_person".to_string(),
                actual_perception_delta: delta(200_000),
                projected_illusion_delta: None,
            },
        ],
        observed_dynamics: vec![],
        entity_updates: vec![],
    };
    let mut graph = CognitiveGraph::new();
    let (att_writes, ill_writes) = apply_system1_update(&mut graph, &update, 0);
    assert_eq!(att_writes, 2);
    assert_eq!(ill_writes, 1);

    let (att1, ill1) = graph.get_social_context("u1", 0);
    assert_eq!(att1.affinity, 100_000);
    assert_eq!(ill1.affinity, 50_000);
    let (att2, ill2) = graph.get_social_context("u2", 0);
    assert_eq!(att2.affinity, 200_000);
    assert_eq!(ill2.affinity, 0); // no illusion write for mentioned persons
}

#[test]
fn test_mentioned_person_with_projection_writes_no_illusion() {
    let update = System1Update {
        social_updates: vec![SocialTargetUpdate {
            target_user: "u3".to_string(),
            role: "mentioned_person".to_string(),
            actual_perception_delta: delta(100_000),
            projected_illusion_delta: Some(delta(999_999)),
        }],
        observed_dynamics: vec![],
        entity_updates: vec![],
    };
    let mut graph = CognitiveGraph::new();
    let (att_writes, ill_writes) = apply_system1_update(&mut graph, &update, 0);
    assert_eq!(att_writes, 1);
    assert_eq!(ill_writes, 0);
    let (_, ill) = graph.get_social_context("u3", 0);
    assert_eq!(ill.affinity, 0);
}

#[test]
fn test_entity_and_dynamic_lists_applied() {
    let update = System1Update {
        social_updates: vec![],
        observed_dynamics: vec![ObservedDynamic {
            from_user: "alice".to_string(),
            to_user: "bob".to_string(),
            observation: "bất đồng nhẹ".to_string(),
            estimated_tension: 50_000,
        }],
        entity_updates: vec![EntityUpdate {
            entity_name: "cà phê".to_string(),
            delta_preference: 400_000, // clamped to the hard limit
            delta_stress: 0,
            delta_fascination: 10_000,
        }],
    };
    let mut graph = CognitiveGraph::new();
    let (att_writes, ill_writes) = apply_system1_update(&mut graph, &update, 0);
    assert_eq!(att_writes, 0);
    assert_eq!(ill_writes, 0);
}
