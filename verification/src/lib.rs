//! Runtime fabric and cognitive memory pipeline for a multi-platform
//! conversational agent.
//!
//! The crate holds the verified core: the agent state machine, the sensory
//! debounce aggregation, the tiered memory (short-term sessions, durable
//! journal, episodic planning, cognitive graph), the streaming response
//! splitter with its thinking filter, and the System-1 delta application.
//! Platform wiring, HTTP transport, and the async runtime live outside and
//! call into this crate with plain values.

pub mod biology;
pub mod clock;
pub mod compressor;
pub mod config;
pub mod context;
pub mod coordinator;
pub mod episodic;
pub mod event;
pub mod graph;
pub mod journal;
pub mod numfmt;
pub mod sensory;
pub mod short_term;
pub mod state;
pub mod stream;
pub mod system1;
pub mod text;
pub mod types;
