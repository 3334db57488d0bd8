use polyverse_agent::biology::BiologyState;
use polyverse_agent::config::{
    default_log_level, default_name, EventBusConfig, LlmConfig, System1Config,
};
use polyverse_agent::coordinator::Coordinator;
use polyverse_agent::event::{BiologyEvent, BiologyEventKind, Event, Platform, RawEvent};
use polyverse_agent::state::AgentState;

fn llm(base: &str, key: &str, model: &str) -> LlmConfig {
    LlmConfig {
        api_base: base.to_string(),
        api_key: key.to_string(),
        model: model.to_string(),
        chat_max_tokens: 2048,
        reasoning: None,
    }
}

#[test]
fn test_llm_config_validity() {
    assert!(llm("https://api.example", "k", "m").is_valid());
    assert!(!llm("", "k", "m").is_valid());
    assert!(!llm("https://api.example", "", "m").is_valid());
    assert!(!llm("https://api.example", "k", "").is_valid());
    assert!(!llm("https://api.example", "your_api_key_here", "m").is_valid());
}

#[test]
fn test_system1_config_validity() {
    let ok = System1Config {
        api_base: "b".to_string(),
        api_key: "k".to_string(),
        model: "m".to_string(),
        reasoning: None,
    };
    assert!(ok.is_valid());
    let missing = System1Config { model: "".to_string(), ..ok };
    assert!(!missing.is_valid());
}

#[test]
fn test_defaults() {
    assert_eq!(default_name(), "PolyverseAgent");
    assert_eq!(default_log_level(), "info");
    let bus = EventBusConfig::default();
    assert_eq!(bus.mpsc_capacity, 256);
    assert_eq!(bus.broadcast_capacity, 128);
}

fn raw_event() -> Event {
    Event::Raw(RawEvent {
        platform: Platform::Cli,
        channel_id: "c".to_string(),
        message_id: "m".to_string(),
        user_id: "u".to_string(),
        username: "n".to_string(),
        content: "hi".to_string(),
        is_mention: true,
        is_dm: false,
        timestamp: 0,
    })
}

#[test]
fn test_coordinator_lifecycle() {
    let mut coord = Coordinator::new();
    assert_eq!(coord.state, AgentState::Initializing);
    assert!(coord.transition(AgentState::Idle).is_ok());
    // an invalid transition is reported and ignored
    assert!(coord.transition(AgentState::Initializing).is_err());
    assert_eq!(coord.state, AgentState::Idle);

    // a raw event is rebroadcast and nets back to Idle
    assert!(coord.handle_event(&raw_event()));
    assert_eq!(coord.state, AgentState::Idle);

    // biology events are absorbed, not rebroadcast
    let drained = Event::Biology(BiologyEvent {
        kind: BiologyEventKind::EnergyChanged { delta: -30_000_000 },
    });
    assert!(!coord.handle_event(&drained));
    assert_eq!(coord.biology.energy, 70_000_000);
    assert_eq!(coord.biology, BiologyState { energy: 70_000_000, ..BiologyState::new() });
}

#[test]
fn test_coordinator_returns_from_cloud_wait() {
    let mut coord = Coordinator::new();
    coord.transition(AgentState::Idle).unwrap();
    coord.transition(AgentState::Processing).unwrap();
    coord.transition(AgentState::WaitingForCloud).unwrap();
    let response = Event::Response(polyverse_agent::event::ResponseEvent {
        platform: Platform::Cli,
        channel_id: "c".to_string(),
        reply_to_message_id: None,
        reply_to_user: None,
        is_dm: false,
        content: "ok".to_string(),
        source: polyverse_agent::event::ResponseSource::CloudLLM,
    });
    assert!(coord.handle_event(&response));
    assert_eq!(coord.state, AgentState::Idle);
}

#[test]
fn test_energy_event_outcome() {
    let mut coord = Coordinator::new();
    let drain = Event::Biology(BiologyEvent {
        kind: BiologyEventKind::EnergyChanged { delta: i64::MIN },
    });
    assert!(!coord.handle_event(&drain));
    assert_eq!(coord.biology.energy, 0); // an unbounded drain empties it
    let recover = Event::Biology(BiologyEvent {
        kind: BiologyEventKind::EnergyChanged { delta: 40_000_000 },
    });
    assert!(!coord.handle_event(&recover));
    assert_eq!(coord.biology.energy, 40_000_000);
}
