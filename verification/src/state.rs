//! The top-level agent state machine.
//!
//! States cover the agent lifecycle from boot to shutdown; transitions are
//! validated against a fixed table, and `ShuttingDown` is terminal.

use vstd::prelude::*;

verus! {

/// The top-level state of the agent.
#[derive(Debug, Clone, Copy, PartialEq, Eq, Hash, Structural)]
pub enum AgentState {
    /// Booting up, workers being registered.
    Initializing,
    /// Running but not actively processing any event.
    Idle,
    /// Actively processing an incoming event.
    Processing,
    /// Delegated to the cloud model and waiting for a response.
    WaitingForCloud,
    /// Lost connectivity, running in local-only mode.
    Offline,
    /// Performing memory consolidation during idle time.
    Consolidating,
    /// Gracefully shutting down; no further transitions.
    ShuttingDown,
}

/// Errors from attempted state transitions.
#[derive(Debug, Clone, Copy, PartialEq, Eq, Structural)]
pub enum StateError {
    /// The transition table has no edge from `from` to `to`.
    InvalidTransition { from: AgentState, to: AgentState },
}

/// The transition table: `can_transition(from, to)` holds exactly when the
/// state machine may move from `from` to `to`.
pub open spec fn can_transition(from: AgentState, to: AgentState) -> bool {
    match from {
        AgentState::Initializing => to == AgentState::Idle || to == AgentState::ShuttingDown,
        AgentState::Idle => to == AgentState::Processing || to == AgentState::Consolidating
            || to == AgentState::Offline || to == AgentState::ShuttingDown,
        AgentState::Processing => to == AgentState::Idle || to == AgentState::WaitingForCloud
            || to == AgentState::Offline || to == AgentState::ShuttingDown,
        AgentState::WaitingForCloud => to == AgentState::Processing || to == AgentState::Idle
            || to == AgentState::Offline || to == AgentState::ShuttingDown,
        AgentState::Offline => to == AgentState::Idle || to == AgentState::Processing
            || to == AgentState::ShuttingDown,
        AgentState::Consolidating => to == AgentState::Idle || to == AgentState::Processing
            || to == AgentState::Offline || to == AgentState::ShuttingDown,
        AgentState::ShuttingDown => false,
    }
}

impl AgentState {
    /// The list of states this state may transition to.
    pub fn valid_transitions(&self) -> (r: Vec<AgentState>)
        ensures
            forall|s: AgentState| r@.contains(s) <==> can_transition(*self, s),
    {
        let r: Vec<AgentState> = match self {
            AgentState::Initializing => vec![AgentState::Idle, AgentState::ShuttingDown],
            AgentState::Idle => vec![
                AgentState::Processing,
                AgentState::Consolidating,
                AgentState::Offline,
                AgentState::ShuttingDown,
            ],
            AgentState::Processing => vec![
                AgentState::Idle,
                AgentState::WaitingForCloud,
                AgentState::Offline,
                AgentState::ShuttingDown,
            ],
            AgentState::WaitingForCloud => vec![
                AgentState::Processing,
                AgentState::Idle,
                AgentState::Offline,
                AgentState::ShuttingDown,
            ],
            AgentState::Offline => vec![
                AgentState::Idle,
                AgentState::Processing,
                AgentState::ShuttingDown,
            ],
            AgentState::Consolidating => vec![
                AgentState::Idle,
                AgentState::Processing,
                AgentState::Offline,
                AgentState::ShuttingDown,
            ],
            AgentState::ShuttingDown => vec![],
        };
        proof {
            assert forall|s: AgentState| r@.contains(s) <==> can_transition(*self, s) by {
                if can_transition(*self, s) {
                    assert(r@.contains(s));
                }
            }
        }
        r
    }

    /// Whether the table allows a transition from `self` to `next`.
    pub fn allows(&self, next: AgentState) -> (r: bool)
        ensures
            r == can_transition(*self, next),
    {
        match self {
            AgentState::Initializing => matches!(
                next,
                AgentState::Idle | AgentState::ShuttingDown
            ),
            AgentState::Idle => matches!(
                next,
                AgentState::Processing | AgentState::Consolidating | AgentState::Offline
                    | AgentState::ShuttingDown
            ),
            AgentState::Processing => matches!(
                next,
                AgentState::Idle | AgentState::WaitingForCloud | AgentState::Offline
                    | AgentState::ShuttingDown
            ),
            AgentState::WaitingForCloud => matches!(
                next,
                AgentState::Processing | AgentState::Idle | AgentState::Offline
                    | AgentState::ShuttingDown
            ),
            AgentState::Offline => matches!(
                next,
                AgentState::Idle | AgentState::Processing | AgentState::ShuttingDown
            ),
            AgentState::Consolidating => matches!(
                next,
                AgentState::Idle | AgentState::Processing | AgentState::Offline
                    | AgentState::ShuttingDown
            ),
            AgentState::ShuttingDown => false,
        }
    }

    /// Attempt to transition to `next`.
    ///
    /// Succeeds exactly when the table has the edge; an invalid transition is
    /// reported, never applied.
    pub fn transition_to(&self, next: AgentState) -> (r: Result<AgentState, StateError>)
        ensures
            can_transition(*self, next) ==> r == Ok::<AgentState, StateError>(next),
            !can_transition(*self, next) ==> r == Err::<AgentState, StateError>(
                StateError::InvalidTransition { from: *self, to: next },
            ),
    {
        if self.allows(next) {
            Ok(next)
        } else {
            Err(StateError::InvalidTransition { from: *self, to: next })
        }
    }

    /// Whether this is a terminal state: no outgoing transition exists.
    pub fn is_terminal(&self) -> (r: bool)
        ensures
            r == forall|s: AgentState| !can_transition(*self, s),
    {
        proof {
            if *self != AgentState::ShuttingDown {
                assert(can_transition(*self, AgentState::ShuttingDown));
            }
        }
        matches!(self, AgentState::ShuttingDown)
    }

    /// The state's name, for logs and diagnostics.
    pub fn to_string(&self) -> (r: String)
        ensures
            (*self == AgentState::Initializing) ==> r@ == "Initializing"@,
            (*self == AgentState::Idle) ==> r@ == "Idle"@,
            (*self == AgentState::Processing) ==> r@ == "Processing"@,
            (*self == AgentState::WaitingForCloud) ==> r@ == "WaitingForCloud"@,
            (*self == AgentState::Offline) ==> r@ == "Offline"@,
            (*self == AgentState::Consolidating) ==> r@ == "Consolidating"@,
            (*self == AgentState::ShuttingDown) ==> r@ == "ShuttingDown"@,
    {
        match self {
            AgentState::Initializing => String::from_str("Initializing"),
            AgentState::Idle => String::from_str("Idle"),
            AgentState::Processing => String::from_str("Processing"),
            AgentState::WaitingForCloud => String::from_str("WaitingForCloud"),
            AgentState::Offline => String::from_str("Offline"),
            AgentState::Consolidating => String::from_str("Consolidating"),
            AgentState::ShuttingDown => String::from_str("ShuttingDown"),
        }
    }
}

/// Once the machine reaches `ShuttingDown` it can never leave: the table has
/// no outgoing edge from the terminal state.
pub proof fn lemma_shutting_down_is_terminal()
    ensures
        forall|s: AgentState| !can_transition(AgentState::ShuttingDown, s),
{
}

} // verus!
