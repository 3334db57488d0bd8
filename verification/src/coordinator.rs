//! The coordinator's decision core: the agent state machine stepped per
//! event, and the biology state it alone may mutate.
//!
//! The surrounding runtime reads the inbox and rebroadcasts; this type
//! decides the transitions and says which events are rebroadcast. State
//! only ever changes through `transition`, so it never leaves the table.

use vstd::prelude::*;
use crate::biology::BiologyState;
use crate::event::{BiologyEventKind, Event};
use crate::state::{can_transition, AgentState, StateError};

verus! {

/// The coordinator's own state: the machine and the biology.
pub struct Coordinator {
    /// Current agent state.
    pub state: AgentState,
    /// Shared biology state; only the coordinator writes it.
    pub biology: BiologyState,
}

impl Coordinator {
    /// Boot in `Initializing` with fresh biology.
    pub fn new() -> (r: Self)
        ensures
            r.state == AgentState::Initializing,
            r.biology.wf(),
    {
        Coordinator { state: AgentState::Initializing, biology: BiologyState::new() }
    }

    /// Attempt a state transition. An invalid transition is reported and
    /// leaves the state untouched: the machine never moves outside the
    /// table.
    pub fn transition(&mut self, next: AgentState) -> (r: Result<(), StateError>)
        ensures
            can_transition(old(self).state, next) ==> r is Ok && final(self).state
                == next,
            !can_transition(old(self).state, next) ==> r is Err && final(self).state
                == old(self).state,
            final(self).biology == old(self).biology,
    {
        match self.state.transition_to(next) {
            Ok(new_state) => {
                self.state = new_state;
                Ok(())
            },
            Err(e) => Err(e),
        }
    }

    /// Handle one inbox event: step the machine where the table applies,
    /// apply biology changes, and say whether the event is rebroadcast to
    /// the workers.
    ///
    /// A raw event passes through `Processing` and back, so the visible
    /// state is unchanged; a response ends a cloud wait; biology and system
    /// events are not rebroadcast.
    pub fn handle_event(&mut self, event: &Event) -> (broadcast: bool)
        requires
            old(self).biology.wf(),
        ensures
            final(self).biology.wf(),
            match event {
                Event::Raw(_) => broadcast && final(self).state == old(self).state
                    && final(self).biology == old(self).biology,
                Event::Response(_) => broadcast && final(self).biology == old(
                    self,
                ).biology && final(self).state == (
                if old(self).state == AgentState::WaitingForCloud {
                    AgentState::Idle
                } else {
                    old(self).state
                }),
                Event::BotTurnCompletion(_) => broadcast && *final(self) == *old(self),
                Event::Biology(b) => !broadcast && final(self).state == old(self).state
                    && (match b.kind {
                    BiologyEventKind::EnergyChanged { delta } => {
                        &&& final(self).biology.mood == old(self).biology.mood
                        &&& final(self).biology.is_sleeping == old(self).biology.is_sleeping
                        &&& final(self).biology.mood_valence == old(self).biology.mood_valence
                        &&& final(self).biology.energy == (if delta >= 0 {
                            if old(self).biology.energy + delta <= crate::biology::ENERGY_MAX {
                                old(self).biology.energy + delta
                            } else {
                                crate::biology::ENERGY_MAX as int
                            }
                        } else if delta > i64::MIN && old(self).biology.energy + delta >= 0 {
                            old(self).biology.energy + delta
                        } else {
                            0
                        })
                    },
                    BiologyEventKind::SleepStarted => final(self).biology.is_sleeping,
                    BiologyEventKind::SleepEnded => !final(self).biology.is_sleeping,
                }),
                Event::System(_) => !broadcast && *final(self) == *old(self),
            },
    {
        match event {
            Event::Raw(_) => {
                // Dip into Processing for the duration of the dispatch.
                if self.state == AgentState::Idle {
                    let _ = self.transition(AgentState::Processing);
                    let _ = self.transition(AgentState::Idle);
                }
                true
            },
            Event::Response(_) => {
                if self.state == AgentState::WaitingForCloud {
                    let _ = self.transition(AgentState::Idle);
                }
                true
            },
            Event::BotTurnCompletion(_) => true,
            Event::Biology(b) => {
                match b.kind {
                    BiologyEventKind::EnergyChanged { delta } => {
                        if delta >= 0 {
                            self.biology.recover_energy(delta);
                        } else if delta > i64::MIN {
                            self.biology.drain_energy(-delta);
                        } else {
                            // a drain beyond any representable energy empties it
                            self.biology.drain_energy(i64::MAX);
                        }
                    },
                    BiologyEventKind::SleepStarted => {
                        self.biology.is_sleeping = true;
                    },
                    BiologyEventKind::SleepEnded => {
                        self.biology.is_sleeping = false;
                    },
                }
                false
            },
            Event::System(_) => false,
        }
    }
}

} // verus!
