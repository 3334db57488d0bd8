//! Normalized message types shared by every memory layer.

use vstd::prelude::*;
use crate::event::{Platform, RawEvent, platform_name, UNIT};
use crate::text;

verus! {

/// Importance of any inbound message starts here: 0.3 in micro-units.
pub const IMPORTANCE_BASE: i64 = 300_000;

/// Added when the message is a mention or DM: 0.4 in micro-units.
pub const IMPORTANCE_MENTION: i64 = 400_000;

/// Added for long messages and for questions: 0.1 in micro-units.
pub const IMPORTANCE_MINOR: i64 = 100_000;

/// Importance of the agent's own turns: 0.6 in micro-units.
pub const IMPORTANCE_BOT: i64 = 600_000;

/// Key identifying one conversation across all memory layers.
#[derive(Debug, Clone, PartialEq, Eq, Hash)]
pub struct ConversationKey {
    pub platform: Platform,
    pub channel_id: String,
}

impl ConversationKey {
    pub fn new(platform: Platform, channel_id: String) -> (r: Self)
        ensures
            r.platform == platform,
            r.channel_id@ == channel_id@,
    {
        ConversationKey { platform, channel_id }
    }

    pub fn from_raw(raw: &RawEvent) -> (r: Self)
        ensures
            r.platform == raw.platform,
            r.channel_id@ == raw.channel_id@,
    {
        ConversationKey { platform: raw.platform, channel_id: raw.channel_id.clone() }
    }

    /// Whether two keys name the same conversation.
    pub fn same_key(&self, other: &ConversationKey) -> (r: bool)
        ensures
            r == (self.platform == other.platform && self.channel_id@
                == other.channel_id@),
    {
        self.platform == other.platform && self.channel_id == other.channel_id
    }

    /// The key as `<platform>:<channel>`, for logs.
    pub fn to_string(&self) -> (r: String)
        ensures
            r@ == platform_name(self.platform) + ":"@ + self.channel_id@,
    {
        let mut s = self.platform.to_string();
        s.append(":");
        s.append(self.channel_id.as_str());
        s
    }
}

/// A normalized message stored in memory, converted from a `RawEvent` (or
/// recorded from one of the agent's own turns) with computed importance.
#[derive(Debug)]
pub struct MemoryMessage {
    /// Unique message id (from the platform, or freshly generated).
    pub id: String,
    pub platform: Platform,
    pub channel_id: String,
    pub user_id: String,
    /// Display name of the sender.
    pub username: String,
    /// Message text, mention tags stripped.
    pub content: String,
    /// Whether this message was directed at the agent.
    pub is_mention: bool,
    /// Whether this is one of the agent's own turns.
    pub is_bot_response: bool,
    /// Whom the agent replied to, on bot turns.
    pub reply_to_user: Option<String>,
    /// Epoch seconds when the message was received.
    pub timestamp: i64,
    /// Importance in micro-units, within `[0, UNIT]`.
    pub importance: i64,
}

/// The importance score of an inbound message: base 0.3, plus 0.4 for a
/// mention, 0.1 for more than ten words, 0.1 for a question mark, capped at
/// one.
pub open spec fn importance_of(raw: RawEvent) -> int {
    let s = IMPORTANCE_BASE + (if raw.is_mention {
        IMPORTANCE_MENTION as int
    } else {
        0
    }) + (if text::word_count(raw.content@) > 10 {
        IMPORTANCE_MINOR as int
    } else {
        0
    }) + (if text::contains_char(raw.content@, '?') {
        IMPORTANCE_MINOR as int
    } else {
        0
    });
    if s > UNIT {
        UNIT as int
    } else {
        s
    }
}

impl MemoryMessage {
    /// Importance stays inside `[0, UNIT]`.
    pub open spec fn wf(&self) -> bool {
        0 <= self.importance <= UNIT
    }

    /// Normalize a raw event: strip mention tags from the content and score
    /// its importance.
    pub fn from_raw(raw: &RawEvent) -> (r: Self)
        ensures
            r.id@ == raw.message_id@,
            r.platform == raw.platform,
            r.channel_id@ == raw.channel_id@,
            r.user_id@ == raw.user_id@,
            r.username@ == raw.username@,
            r.content@ == text::stripped_content(raw.content@),
            r.is_mention == raw.is_mention,
            !r.is_bot_response,
            r.reply_to_user is None,
            r.timestamp == raw.timestamp,
            r.importance == importance_of(*raw),
            r.wf(),
    {
        let importance = Self::compute_importance(raw);
        MemoryMessage {
            id: raw.message_id.clone(),
            platform: raw.platform,
            channel_id: raw.channel_id.clone(),
            user_id: raw.user_id.clone(),
            username: raw.username.clone(),
            content: text::strip_mention_tags(raw.content.as_str()),
            is_mention: raw.is_mention,
            is_bot_response: false,
            reply_to_user: None,
            timestamp: raw.timestamp,
            importance,
        }
    }

    /// Record one of the agent's own turns, stamped with a fresh id and the
    /// current time.
    pub fn bot_response(
        platform: Platform,
        channel_id: String,
        content: String,
        _reply_to: Option<String>,
        reply_to_user: Option<String>,
    ) -> (r: Self)
        ensures
            r.id@.len() == 36,
            r.platform == platform,
            r.channel_id@ == channel_id@,
            r.user_id@ == "ryuuko"@,
            r.username@ == "Ryuuko"@,
            r.content@ == content@,
            !r.is_mention,
            r.is_bot_response,
            r.reply_to_user == reply_to_user,
            r.importance == IMPORTANCE_BOT,
            r.wf(),
    {
        MemoryMessage {
            id: new_message_id(),
            platform,
            channel_id,
            user_id: String::from_str("ryuuko"),
            username: String::from_str("Ryuuko"),
            content,
            is_mention: false,
            is_bot_response: true,
            reply_to_user,
            timestamp: crate::clock::now_epoch_seconds(),
            importance: IMPORTANCE_BOT,
        }
    }

    /// Score an inbound message's importance.
    fn compute_importance(raw: &RawEvent) -> (r: i64)
        ensures
            r == importance_of(*raw),
            0 <= r <= UNIT,
    {
        let mut score: i64 = IMPORTANCE_BASE;
        if raw.is_mention {
            score = score + IMPORTANCE_MENTION;
        }
        if text::count_words(raw.content.as_str()) > 10 {
            score = score + IMPORTANCE_MINOR;
        }
        if text::str_contains_char(raw.content.as_str(), '?') {
            score = score + IMPORTANCE_MINOR;
        }
        if score > UNIT {
            UNIT
        } else {
            score
        }
    }
}

impl Clone for MemoryMessage {
    /// A clone is equal to the original in every field.
    fn clone(&self) -> (r: Self)
        ensures
            r == *self,
    {
        MemoryMessage {
            id: self.id.clone(),
            platform: self.platform,
            channel_id: self.channel_id.clone(),
            user_id: self.user_id.clone(),
            username: self.username.clone(),
            content: self.content.clone(),
            is_mention: self.is_mention,
            is_bot_response: self.is_bot_response,
            reply_to_user: match &self.reply_to_user {
                Some(u) => Some(u.clone()),
                None => None,
            },
            timestamp: self.timestamp,
            importance: self.importance,
        }
    }
}

/// Relies on `uuid::Uuid::new_v4` and its `Display` impl: a fresh random v4
/// UUID in the 36-character hyphenated form. The value itself is random, so
/// only its length is stated.
#[verifier::external_body]
fn new_message_id() -> (r: String)
    ensures
        r@.len() == 36,
{
    uuid::Uuid::new_v4().to_string()
}

} // verus!
