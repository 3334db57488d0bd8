//! Configuration records for the model endpoints, the event bus, and worker
//! health reporting.

use vstd::prelude::*;

verus! {

/// Whether `s` starts with the placeholder prefix `your_`.
pub open spec fn has_placeholder_prefix(s: Seq<char>) -> bool {
    s.len() >= 5 && s.subrange(0, 5) == "your_"@
}

fn starts_with_placeholder(s: &str) -> (r: bool)
    ensures
        r == has_placeholder_prefix(s@),
{
    let chars = crate::text::str_to_chars(s);
    if chars.len() < 5 {
        proof {
            reveal_strlit("your_");
        }
        return false;
    }
    let r = chars[0] == 'y' && chars[1] == 'o' && chars[2] == 'u' && chars[3] == 'r'
        && chars[4] == '_';
    proof {
        reveal_strlit("your_");
        if r {
            assert(s@.subrange(0, 5) =~= "your_"@);
        } else {
            assert(s@.subrange(0, 5) != "your_"@) by {
                if s@.subrange(0, 5) == "your_"@ {
                    assert(s@.subrange(0, 5)[0] == s@[0]);
                    assert(s@.subrange(0, 5)[1] == s@[1]);
                    assert(s@.subrange(0, 5)[2] == s@[2]);
                    assert(s@.subrange(0, 5)[3] == s@[3]);
                    assert(s@.subrange(0, 5)[4] == s@[4]);
                    assert(s@[0] == 'y' && s@[1] == 'o' && s@[2] == 'u' && s@[3] == 'r'
                        && s@[4] == '_');
                }
            }
        }
    }
    r
}

/// Configuration of the streaming chat-completion endpoint.
#[derive(Debug, Clone)]
pub struct LlmConfig {
    /// Base URL of the API.
    pub api_base: String,
    /// Bearer key.
    pub api_key: String,
    /// Model name.
    pub model: String,
    /// Per-completion token cap.
    pub chat_max_tokens: u32,
    /// Optional reasoning effort hint.
    pub reasoning: Option<String>,
}

impl LlmConfig {
    /// Valid when every required field is set and the key is no placeholder.
    pub fn is_valid(&self) -> (r: bool)
        ensures
            r == (self.api_base@.len() > 0 && self.api_key@.len() > 0 && self.model@.len()
                > 0 && !has_placeholder_prefix(self.api_key@)),
    {
        self.api_base.as_str().unicode_len() > 0 && self.api_key.as_str().unicode_len()
            > 0 && self.model.as_str().unicode_len() > 0 && !starts_with_placeholder(
            self.api_key.as_str(),
        )
    }
}

/// Configuration of the JSON-mode evaluator endpoint.
#[derive(Debug, Clone)]
pub struct System1Config {
    pub api_base: String,
    pub api_key: String,
    pub model: String,
    /// Optional reasoning effort hint.
    pub reasoning: Option<String>,
}

impl System1Config {
    /// Valid when every required field is set.
    pub fn is_valid(&self) -> (r: bool)
        ensures
            r == (self.api_base@.len() > 0 && self.api_key@.len() > 0 && self.model@.len()
                > 0),
    {
        self.api_base.as_str().unicode_len() > 0 && self.api_key.as_str().unicode_len()
            > 0 && self.model.as_str().unicode_len() > 0
    }
}

/// Reasoning effort hint passed through to the endpoint.
#[derive(Debug, Clone)]
pub struct ReasoningConfig {
    pub effort: String,
}

/// The three prompt sections shared by the responder and the evaluator.
#[derive(Debug, Clone)]
pub struct SharedCognitiveContext {
    /// Recalled episodic memories, when any matched.
    pub memory_text: Option<String>,
    /// Relationship state toward the current user.
    pub social_text: String,
    /// Current time and a note on the conversation so far.
    pub time_and_history_text: String,
}

/// Channel capacities of the event bus.
#[derive(Debug, Clone, Copy, PartialEq, Eq, Structural)]
pub struct EventBusConfig {
    /// Capacity of the many-producer inbox.
    pub mpsc_capacity: usize,
    /// Capacity of the fan-out broadcast.
    pub broadcast_capacity: usize,
}

impl Default for EventBusConfig {
    fn default() -> (r: Self)
        ensures
            r.mpsc_capacity == 256,
            r.broadcast_capacity == 128,
    {
        EventBusConfig { mpsc_capacity: 256, broadcast_capacity: 128 }
    }
}

/// Worker health, as reported to the supervisor.
#[derive(Debug, Clone)]
pub enum WorkerStatus {
    /// Running normally.
    Healthy,
    /// Running but impaired.
    Degraded { reason: String },
    /// Stopped, gracefully or not.
    Stopped,
    /// Not yet started.
    NotStarted,
}

/// The default display name of the agent.
pub fn default_name() -> (r: String)
    ensures
        r@ == "PolyverseAgent"@,
{
    String::from_str("PolyverseAgent")
}

/// The default log filter level.
pub fn default_log_level() -> (r: String)
    ensures
        r@ == "info"@,
{
    String::from_str("info")
}

} // verus!
