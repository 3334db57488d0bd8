//! The sensory debounce buffer: bursts of platform messages from one
//! (platform, channel, user) are aggregated into a single raw event.
//!
//! Each key has at most one actor; the actor holds a pending aggregate and a
//! deadline three seconds past the last input (four past a typing signal).
//! When the deadline passes in silence the aggregate is flushed: contents
//! joined with newlines, mention and DM flags OR-merged, trailing
//! whitespace trimmed.

use vstd::prelude::*;
use crate::event::{Platform, RawEvent};
use crate::text::trim_spec;

verus! {

/// Idle window after a message, in milliseconds.
pub const DEBOUNCE_MS: i64 = 3_000;

/// Extended window after a typing signal, in milliseconds.
pub const TYPING_EXTEND_MS: i64 = 4_000;

/// What a platform adapter sends to a debounce actor.
pub enum BufferMsg {
    Event(RawEvent),
    Typing,
}

/// Key of one debounce actor: the conversation plus the sender.
#[derive(Debug, Clone, PartialEq, Eq, Hash)]
pub struct BufferKey {
    pub platform: Platform,
    pub channel_id: String,
    pub user_id: String,
}

impl BufferKey {
    pub fn from_raw(raw: &RawEvent) -> (r: Self)
        ensures
            r.platform == raw.platform,
            r.channel_id@ == raw.channel_id@,
            r.user_id@ == raw.user_id@,
    {
        BufferKey {
            platform: raw.platform,
            channel_id: raw.channel_id.clone(),
            user_id: raw.user_id.clone(),
        }
    }
}

/// The concatenation of a burst's contents, separated by newlines.
pub open spec fn burst_content(msgs: Seq<RawEvent>) -> Seq<char>
    decreases msgs.len(),
{
    if msgs.len() == 0 {
        Seq::empty()
    } else if msgs.len() == 1 {
        msgs[0].content@
    } else {
        burst_content(msgs.drop_last()) + seq!['\n'] + msgs.last().content@
    }
}

/// Whether any message of the burst was a mention.
pub open spec fn burst_mention(msgs: Seq<RawEvent>) -> bool
    decreases msgs.len(),
{
    if msgs.len() == 0 {
        false
    } else {
        burst_mention(msgs.drop_last()) || msgs.last().is_mention
    }
}

/// Whether any message of the burst was a DM.
pub open spec fn burst_dm(msgs: Seq<RawEvent>) -> bool
    decreases msgs.len(),
{
    if msgs.len() == 0 {
        false
    } else {
        burst_dm(msgs.drop_last()) || msgs.last().is_dm
    }
}

/// One debounce actor: the pending aggregate, its deadline, and (as ghost
/// history) the burst it was built from.
pub struct DebounceActor {
    /// The pending aggregate, if any input arrived.
    pub aggregate: Option<RawEvent>,
    /// Epoch milliseconds at which the aggregate flushes.
    pub deadline_ms: i64,
    /// The messages merged so far, in arrival order.
    pub history: Ghost<Seq<RawEvent>>,
}

impl DebounceActor {
    /// The aggregate is exactly the merge of the history: contents joined
    /// with newlines, flags OR-merged, routing taken from the first
    /// message, timestamp from the last.
    pub open spec fn wf(&self) -> bool {
        match self.aggregate {
            Some(a) => {
                &&& self.history@.len() > 0
                &&& a.content@ == burst_content(self.history@)
                &&& a.is_mention == burst_mention(self.history@)
                &&& a.is_dm == burst_dm(self.history@)
                &&& a.platform == self.history@[0].platform
                &&& a.channel_id@ == self.history@[0].channel_id@
                &&& a.message_id@ == self.history@[0].message_id@
                &&& a.user_id@ == self.history@[0].user_id@
                &&& a.username@ == self.history@[0].username@
                &&& a.timestamp == self.history@.last().timestamp
            },
            None => self.history@.len() == 0,
        }
    }

    /// A fresh actor with an empty aggregate and the standard deadline.
    pub fn new(now_ms: i64) -> (r: Self)
        requires
            now_ms <= i64::MAX - TYPING_EXTEND_MS,
        ensures
            r.aggregate is None,
            r.deadline_ms == now_ms + DEBOUNCE_MS,
            r.history@ =~= Seq::<RawEvent>::empty(),
            r.wf(),
    {
        DebounceActor {
            aggregate: None,
            deadline_ms: now_ms + DEBOUNCE_MS,
            history: Ghost(Seq::empty()),
        }
    }

    /// Merge one more message into the aggregate and reset the deadline.
    pub fn on_message(&mut self, msg: RawEvent, now_ms: i64)
        requires
            old(self).wf(),
            now_ms <= i64::MAX - TYPING_EXTEND_MS,
        ensures
            final(self).wf(),
            final(self).history@ == old(self).history@.push(msg),
            final(self).deadline_ms == now_ms + DEBOUNCE_MS,
            final(self).aggregate is Some,
    {
        proof {
            self.history@ = self.history@.push(msg);
        }
        let next = match &self.aggregate {
            Some(existing) => {
                let mut content = existing.content.clone();
                content.append("\n");
                content.append(msg.content.as_str());
                let merged = RawEvent {
                    platform: existing.platform,
                    channel_id: existing.channel_id.clone(),
                    message_id: existing.message_id.clone(),
                    user_id: existing.user_id.clone(),
                    username: existing.username.clone(),
                    content,
                    is_mention: existing.is_mention || msg.is_mention,
                    is_dm: existing.is_dm || msg.is_dm,
                    timestamp: msg.timestamp,
                };
                proof {
                    reveal_strlit("\n");
                    assert("\n"@ =~= seq!['\n']);
                    assert(self.history@.drop_last() =~= old(self).history@);
                    assert(self.history@.last() == msg);
                    assert(self.history@[0] == old(self).history@[0]);
                    assert(merged.content@ =~= burst_content(self.history@));
                    assert(burst_mention(self.history@) == (existing.is_mention
                        || msg.is_mention));
                    assert(burst_dm(self.history@) == (existing.is_dm || msg.is_dm));
                }
                merged
            },
            None => {
                proof {
                    assert(self.history@.drop_last() =~= old(self).history@);
                    assert(self.history@.len() == 1);
                    assert(self.history@[0] == msg);
                    assert(burst_content(self.history@) == msg.content@);
                    assert(burst_mention(self.history@.drop_last()) == false);
                    assert(burst_dm(self.history@.drop_last()) == false);
                    assert(burst_mention(self.history@) == msg.is_mention);
                    assert(burst_dm(self.history@) == msg.is_dm);
                }
                msg
            },
        };
        self.aggregate = Some(next);
        self.deadline_ms = now_ms + DEBOUNCE_MS;
    }

    /// A typing signal extends the deadline without touching the aggregate.
    pub fn on_typing(&mut self, now_ms: i64)
        requires
            old(self).wf(),
            now_ms <= i64::MAX - TYPING_EXTEND_MS,
        ensures
            final(self).wf(),
            final(self).aggregate == old(self).aggregate,
            final(self).history@ == old(self).history@,
            final(self).deadline_ms == now_ms + TYPING_EXTEND_MS,
    {
        self.deadline_ms = now_ms + TYPING_EXTEND_MS;
    }

    /// Whether the deadline has passed and the aggregate should flush.
    pub fn should_flush(&self, now_ms: i64) -> (r: bool)
        ensures
            r == (now_ms >= self.deadline_ms),
    {
        now_ms >= self.deadline_ms
    }

    /// Flush: the single emitted event is the whole burst — contents joined
    /// with newlines and trimmed of surrounding whitespace, flags OR-merged
    /// over every input, routing fields from the first input. An actor that
    /// never received input emits nothing.
    pub fn flush(self) -> (r: Option<RawEvent>)
        requires
            self.wf(),
        ensures
            match r {
                Some(out) => {
                    &&& self.history@.len() > 0
                    &&& out.content@ == trim_spec(burst_content(self.history@))
                    &&& out.is_mention == burst_mention(self.history@)
                    &&& out.is_dm == burst_dm(self.history@)
                    &&& out.platform == self.history@[0].platform
                    &&& out.channel_id@ == self.history@[0].channel_id@
                    &&& out.message_id@ == self.history@[0].message_id@
                    &&& out.user_id@ == self.history@[0].user_id@
                    &&& out.username@ == self.history@[0].username@
                    &&& out.timestamp == self.history@.last().timestamp
                },
                None => self.history@.len() == 0,
            },
    {
        match self.aggregate {
            Some(a) => {
                let chars = crate::text::str_to_chars(a.content.as_str());
                let trimmed = crate::text::trim_chars(&chars);
                let content = crate::text::string_from_chars(&trimmed);
                Some(
                    RawEvent {
                        platform: a.platform,
                        channel_id: a.channel_id,
                        message_id: a.message_id,
                        user_id: a.user_id,
                        username: a.username,
                        content,
                        is_mention: a.is_mention,
                        is_dm: a.is_dm,
                        timestamp: a.timestamp,
                    },
                )
            },
            None => None,
        }
    }
}

} // verus!
