//! Events that flow over the bus: platform messages in, streamed response
//! lines and turn completions out, plus biology and system notifications.
//!
//! Quantities that the surrounding system measures in fractional units
//! (importance, energy, valence) are carried here in micro-units: the value
//! one is `1_000_000`. Timestamps are epoch seconds.

use vstd::prelude::*;

verus! {

/// One unit in the fixed-point scale used across the crate: 1.0 == 1_000_000.
pub const UNIT: i64 = 1_000_000;

/// The chat platform a message came from or is routed to.
#[derive(Debug, Clone, Copy, PartialEq, Eq, Hash, Structural)]
pub enum Platform {
    /// The Discord bot gateway.
    Discord,
    /// The Discord selfbot bridge over the local WebSocket.
    DiscordSelfbot,
    /// Telegram.
    Telegram,
    /// Local command-line ingress.
    Cli,
}

/// The platform's name, as persisted by the journal and shown in keys.
pub open spec fn platform_name(p: Platform) -> Seq<char> {
    match p {
        Platform::Discord => "Discord"@,
        Platform::DiscordSelfbot => "DiscordSelfbot"@,
        Platform::Telegram => "Telegram"@,
        Platform::Cli => "Cli"@,
    }
}

impl Platform {
    /// The platform's name, as persisted by the journal.
    pub fn to_string(&self) -> (r: String)
        ensures
            r@ == platform_name(*self),
    {
        match self {
            Platform::Discord => String::from_str("Discord"),
            Platform::DiscordSelfbot => String::from_str("DiscordSelfbot"),
            Platform::Telegram => String::from_str("Telegram"),
            Platform::Cli => String::from_str("Cli"),
        }
    }
}

/// A platform message after sensory aggregation.
///
/// Only events with `is_mention` drive cognitive work. A direct message is
/// always a mention: `wf()` records that invariant.
#[derive(Debug, Clone)]
pub struct RawEvent {
    pub platform: Platform,
    pub channel_id: String,
    pub message_id: String,
    pub user_id: String,
    pub username: String,
    pub content: String,
    pub is_mention: bool,
    pub is_dm: bool,
    /// Epoch seconds when the message was received.
    pub timestamp: i64,
}

impl RawEvent {
    /// A direct message is always directed at the agent.
    pub open spec fn wf(&self) -> bool {
        self.is_dm ==> self.is_mention
    }
}

/// Whether an incoming platform message is directed at the agent: a direct
/// message always is; otherwise the agent's own user id must be among the
/// mentioned ids, or the message must reply to one of the agent's own
/// turns. Adapters compute `is_mention` with this before an event enters
/// the sensory buffer.
pub fn directed_at_agent(
    own_id: &str,
    is_dm: bool,
    mentioned_ids: &Vec<String>,
    replied_to_author: &Option<String>,
) -> (r: bool)
    ensures
        r == (is_dm || mentioned_ids@.map_values(|s: String| s@).contains(own_id@) || (
        replied_to_author matches Some(a) && a@ == own_id@)),
{
    if is_dm {
        return true;
    }
    let ghost ids = mentioned_ids@.map_values(|s: String| s@);
    let n = mentioned_ids.len();
    let mut i: usize = 0;
    while i < n
        invariant
            i <= n,
            n == mentioned_ids@.len(),
            ids == mentioned_ids@.map_values(|s: String| s@),
            forall|j: int| 0 <= j < i ==> ids[j] != own_id@,
        decreases n - i,
    {
        if crate::text::str_eq(mentioned_ids[i].as_str(), own_id) {
            proof {
                assert(ids[i as int] == own_id@);
            }
            return true;
        }
        i = i + 1;
    }
    proof {
        assert(!ids.contains(own_id@)) by {
            if ids.contains(own_id@) {
                let j = choose|j: int| 0 <= j < ids.len() && ids[j] == own_id@;
                assert(ids[j] != own_id@);
            }
        }
    }
    match replied_to_author {
        Some(author) => crate::text::str_eq(author.as_str(), own_id),
        None => false,
    }
}

/// Where a response line was produced.
#[derive(Debug, Clone, Copy, PartialEq, Eq, Structural)]
pub enum ResponseSource {
    /// The streaming cloud chat-completion endpoint.
    CloudLLM,
}

/// One non-empty line of the agent's streamed reply.
///
/// `reply_to_message_id` is set only on the first line of a turn, so that a
/// multi-line reply pings the user once.
#[derive(Debug, Clone)]
pub struct ResponseEvent {
    pub platform: Platform,
    pub channel_id: String,
    pub reply_to_message_id: Option<String>,
    pub reply_to_user: Option<String>,
    pub is_dm: bool,
    pub content: String,
    pub source: ResponseSource,
}

/// The single terminal event of a successful turn; `content` is the full
/// concatenated assistant text.
#[derive(Debug, Clone)]
pub struct BotTurnCompletion {
    pub platform: Platform,
    pub channel_id: String,
    pub reply_to_message_id: Option<String>,
    pub reply_to_user: Option<String>,
    pub content: String,
}

/// A change to the agent's biology state, applied only by the coordinator.
#[derive(Debug, Clone, Copy, PartialEq, Eq, Structural)]
pub enum BiologyEventKind {
    /// Energy delta in micro-units; positive recovers, negative drains.
    EnergyChanged { delta: i64 },
    SleepStarted,
    SleepEnded,
}

/// Carrier for a biology state change.
#[derive(Debug, Clone, Copy, PartialEq, Eq, Structural)]
pub struct BiologyEvent {
    pub kind: BiologyEventKind,
}

/// Lifecycle notifications from the supervisor.
#[derive(Debug, Clone)]
pub enum SystemEvent {
    WorkerStarted { name: String },
}

/// Everything that travels over the event bus.
#[derive(Debug, Clone)]
pub enum Event {
    Raw(RawEvent),
    Response(ResponseEvent),
    BotTurnCompletion(BotTurnCompletion),
    Biology(BiologyEvent),
    System(SystemEvent),
}

impl Event {
    /// Whether this is a raw platform event.
    pub fn is_raw(&self) -> (r: bool)
        ensures
            r == (self is Raw),
    {
        matches!(self, Event::Raw(_))
    }

    /// Whether this is a system lifecycle event.
    pub fn is_system(&self) -> (r: bool)
        ensures
            r == (self is System),
    {
        matches!(self, Event::System(_))
    }
}

} // verus!
