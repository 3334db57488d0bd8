use polyverse_agent::state::AgentState;

#[test]
fn test_valid_transitions() {
    let state = AgentState::Initializing;
    assert!(state.transition_to(AgentState::Idle).is_ok());
    assert!(state.transition_to(AgentState::ShuttingDown).is_ok());
    assert!(state.transition_to(AgentState::Processing).is_err());
}

#[test]
fn test_idle_transitions() {
    let state = AgentState::Idle;
    assert!(state.transition_to(AgentState::Processing).is_ok());
    assert!(state.transition_to(AgentState::Consolidating).is_ok());
    assert!(state.transition_to(AgentState::Offline).is_ok());
    assert!(state.transition_to(AgentState::Initializing).is_err());
}

#[test]
fn test_shutting_down_is_terminal() {
    let state = AgentState::ShuttingDown;
    assert!(state.is_terminal());
    assert!(state.transition_to(AgentState::Idle).is_err());
}

#[test]
fn test_display() {
    assert_eq!(AgentState::Idle.to_string(), "Idle");
    assert_eq!(AgentState::WaitingForCloud.to_string(), "WaitingForCloud");
}

#[test]
fn test_transitions_follow_table_only() {
    // From every state, the listed successors are accepted and everything
    // else is refused.
    let all = [
        AgentState::Initializing,
        AgentState::Idle,
        AgentState::Processing,
        AgentState::WaitingForCloud,
        AgentState::Offline,
        AgentState::Consolidating,
        AgentState::ShuttingDown,
    ];
    for from in all {
        let allowed = from.valid_transitions();
        for to in all {
            assert_eq!(from.transition_to(to).is_ok(), allowed.contains(&to));
        }
    }
}
