//! Short-term memory: per-conversation sessions in RAM with an adaptive
//! idle timeout and score-based prompt assembly.
//!
//! A session expires once `now - last_active` exceeds
//! `base_timeout + min(message_count * 60, 90 min - base_timeout)`. Expired
//! sessions are drained and handed to the caller for episodic ingestion.

use vstd::prelude::*;
use crate::event::{Platform, UNIT};
use crate::types::{ConversationKey, MemoryMessage};

verus! {

/// Ninety minutes, the ceiling of the adaptive timeout.
pub const TIMEOUT_CEILING_SECS: i64 = 5_400;

/// Configuration for short-term memory.
#[derive(Debug, Clone)]
pub struct ShortTermConfig {
    /// Base session timeout in seconds.
    pub base_timeout_secs: i64,
    /// Maximum messages injected into a prompt.
    pub max_prompt_messages: usize,
}

impl ShortTermConfig {
    /// The base timeout is non-negative and under the ceiling.
    pub open spec fn wf(&self) -> bool {
        0 <= self.base_timeout_secs <= TIMEOUT_CEILING_SECS
    }
}

impl Default for ShortTermConfig {
    /// Twenty minutes base, twenty messages per prompt.
    fn default() -> (r: Self)
        ensures
            r.base_timeout_secs == 1200,
            r.max_prompt_messages == 20,
            r.wf(),
    {
        ShortTermConfig { base_timeout_secs: 20 * 60, max_prompt_messages: 20 }
    }
}

/// One conversation session: its messages and activity bounds.
#[derive(Debug, Clone)]
pub struct Session {
    /// All messages of the session, ordered by timestamp.
    pub messages: Vec<MemoryMessage>,
    /// Epoch seconds of the last push.
    pub last_active: i64,
    /// Epoch seconds when the session began.
    pub started_at: i64,
    /// Whether every message here is already persisted downstream, so an
    /// expiry of this session must not be ingested again.
    pub persisted: bool,
}

/// Messages in non-decreasing timestamp order.
pub open spec fn chronological(msgs: Seq<MemoryMessage>) -> bool {
    forall|i: int, j: int|
        0 <= i < j < msgs.len() ==> msgs[i].timestamp <= msgs[j].timestamp
}

/// The position where a message stamped `ts` joins a chronological
/// sequence: after every message no newer than `ts`, before the rest.
pub open spec fn chrono_pos(msgs: Seq<MemoryMessage>, ts: int) -> int
    decreases msgs.len(),
{
    if msgs.len() == 0 {
        0
    } else if msgs.last().timestamp <= ts {
        msgs.len() as int
    } else {
        chrono_pos(msgs.drop_last(), ts)
    }
}

/// A message inserted at its chronological position; on a chronological
/// sequence the result is chronological, and a message no older than every
/// present one is appended at the end.
pub open spec fn chrono_insert(msgs: Seq<MemoryMessage>, m: MemoryMessage) -> Seq<MemoryMessage> {
    msgs.insert(chrono_pos(msgs, m.timestamp as int), m)
}

/// A batch folded in by chronological insertion, first element first.
pub open spec fn chrono_insert_all(
    msgs: Seq<MemoryMessage>,
    added: Seq<MemoryMessage>,
) -> Seq<MemoryMessage>
    decreases added.len(),
{
    if added.len() == 0 {
        msgs
    } else {
        chrono_insert_all(chrono_insert(msgs, added[0]), added.drop_first())
    }
}

/// On a chronological sequence, the insertion position splits the messages
/// into a prefix no newer than `ts` and a suffix strictly newer.
pub proof fn lemma_chrono_pos_split(msgs: Seq<MemoryMessage>, ts: int)
    requires
        chronological(msgs),
    ensures
        0 <= chrono_pos(msgs, ts) <= msgs.len(),
        forall|j: int| 0 <= j < chrono_pos(msgs, ts) ==> msgs[j].timestamp <= ts,
        forall|j: int| chrono_pos(msgs, ts) <= j < msgs.len() ==> msgs[j].timestamp > ts,
    decreases msgs.len(),
{
    if msgs.len() == 0 {
    } else if msgs.last().timestamp <= ts {
        assert forall|j: int| 0 <= j < msgs.len() implies msgs[j].timestamp <= ts by {
            if j < msgs.len() - 1 {
                assert(msgs[j].timestamp <= msgs[msgs.len() - 1].timestamp);
            }
        }
    } else {
        let rest = msgs.drop_last();
        assert(chronological(rest)) by {
            assert(forall|i: int, j: int|
                0 <= i < j < rest.len() ==> rest[i] == msgs[i] && rest[j] == msgs[j]);
        }
        lemma_chrono_pos_split(rest, ts);
        assert forall|j: int| chrono_pos(msgs, ts) <= j < msgs.len() implies msgs[j].timestamp
            > ts by {
            if j < msgs.len() - 1 {
                assert(rest[j] == msgs[j]);
            }
        }
        assert forall|j: int| 0 <= j < chrono_pos(msgs, ts) implies msgs[j].timestamp <= ts by {
            assert(rest[j] == msgs[j]);
        }
    }
}

/// The exec scan that walks back over strictly newer messages lands on the
/// chronological position.
pub proof fn lemma_chrono_pos_unique(msgs: Seq<MemoryMessage>, ts: int, p: int)
    requires
        chronological(msgs),
        0 <= p <= msgs.len(),
        p == 0 || msgs[p - 1].timestamp <= ts,
        forall|j: int| p <= j < msgs.len() ==> msgs[j].timestamp > ts,
    ensures
        p == chrono_pos(msgs, ts),
    decreases msgs.len(),
{
    if msgs.len() == 0 {
    } else if msgs.last().timestamp <= ts {
        assert(p == msgs.len());
    } else {
        assert(p < msgs.len());
        let rest = msgs.drop_last();
        assert(chronological(rest)) by {
            assert(forall|i: int, j: int|
                0 <= i < j < rest.len() ==> rest[i] == msgs[i] && rest[j] == msgs[j]);
        }
        assert forall|j: int| p <= j < rest.len() implies rest[j].timestamp > ts by {
            assert(rest[j] == msgs[j]);
        }
        if p > 0 {
            assert(rest[p - 1] == msgs[p - 1]);
        }
        lemma_chrono_pos_unique(rest, ts, p);
    }
}

/// Chronological insertion keeps a chronological sequence chronological.
pub proof fn lemma_chrono_insert_sorted(msgs: Seq<MemoryMessage>, m: MemoryMessage)
    requires
        chronological(msgs),
    ensures
        chronological(chrono_insert(msgs, m)),
        chrono_insert(msgs, m).len() == msgs.len() + 1,
{
    let ts = m.timestamp as int;
    let p = chrono_pos(msgs, ts);
    lemma_chrono_pos_split(msgs, ts);
    let r = chrono_insert(msgs, m);
    msgs.insert_ensures(p, m);
    assert forall|i: int, j: int| 0 <= i < j < r.len() implies r[i].timestamp
        <= r[j].timestamp by {
        let a = if i < p {
            msgs[i].timestamp as int
        } else if i == p {
            ts
        } else {
            msgs[i - 1].timestamp as int
        };
        let b = if j < p {
            msgs[j].timestamp as int
        } else if j == p {
            ts
        } else {
            msgs[j - 1].timestamp as int
        };
        assert(r[i].timestamp as int == a && r[j].timestamp as int == b);
        assert(a <= b);
    }
}

/// Folding one more message into a batch is one more chronological
/// insertion at the end.
pub proof fn lemma_chrono_insert_all_push(
    msgs: Seq<MemoryMessage>,
    added: Seq<MemoryMessage>,
    m: MemoryMessage,
)
    ensures
        chrono_insert_all(msgs, added.push(m)) == chrono_insert(
            chrono_insert_all(msgs, added),
            m,
        ),
    decreases added.len(),
{
    let ap = added.push(m);
    if added.len() == 0 {
        assert(ap[0] == m);
        assert(ap.drop_first() =~= Seq::<MemoryMessage>::empty());
        assert(chrono_insert_all(msgs, ap) == chrono_insert_all(
            chrono_insert(msgs, m),
            ap.drop_first(),
        ));
        assert(chrono_insert_all(chrono_insert(msgs, m), ap.drop_first()) == chrono_insert(
            msgs,
            m,
        ));
        assert(chrono_insert_all(msgs, added) == msgs);
    } else {
        assert(ap[0] == added[0]);
        assert(ap.drop_first() =~= added.drop_first().push(m));
        lemma_chrono_insert_all_push(chrono_insert(msgs, added[0]), added.drop_first(), m);
        assert(chrono_insert_all(msgs, ap) == chrono_insert_all(
            chrono_insert(msgs, ap[0]),
            ap.drop_first(),
        ));
        assert(chrono_insert_all(msgs, added) == chrono_insert_all(
            chrono_insert(msgs, added[0]),
            added.drop_first(),
        ));
    }
}

/// The adaptive timeout: longer conversations get a longer grace period,
/// capped at ninety minutes in total.
pub open spec fn adaptive_timeout(base: int, count: nat) -> int {
    base + (if count * 60 < TIMEOUT_CEILING_SECS - base {
        (count * 60) as int
    } else {
        TIMEOUT_CEILING_SECS - base
    })
}

/// Whether a session has idled past its adaptive timeout at `now`.
pub open spec fn expired_spec(s: Session, now: int, base: int) -> bool {
    now - s.last_active > adaptive_timeout(base, s.messages@.len())
}

impl Session {
    /// Activity stamps are non-negative, every message is well-formed, and
    /// the messages are ordered by timestamp.
    pub open spec fn wf(&self) -> bool {
        &&& 0 <= self.last_active
        &&& 0 <= self.started_at
        &&& forall|i: int|
            0 <= i < self.messages@.len() ==> (#[trigger] self.messages@[i]).wf()
        &&& chronological(self.messages@)
    }

    /// An empty session beginning at `now`, not yet persisted.
    pub fn new(now: i64) -> (r: Self)
        requires
            now >= 0,
        ensures
            r.messages@.len() == 0,
            r.last_active == now,
            r.started_at == now,
            !r.persisted,
            r.wf(),
    {
        Session { messages: Vec::new(), last_active: now, started_at: now, persisted: false }
    }

    /// Whether this session has timed out at `now` under `base` seconds of
    /// base timeout.
    pub fn is_expired(&self, now: i64, base_timeout_secs: i64) -> (r: bool)
        requires
            self.wf(),
            now >= 0,
            0 <= base_timeout_secs <= TIMEOUT_CEILING_SECS,
        ensures
            r == expired_spec(*self, now as int, base_timeout_secs as int),
    {
        let count = self.messages.len();
        let grown: i64 = if count >= 90 {
            TIMEOUT_CEILING_SECS
        } else {
            (count as i64) * 60
        };
        let cap = TIMEOUT_CEILING_SECS - base_timeout_secs;
        let extra = if grown < cap {
            grown
        } else {
            cap
        };
        let adaptive = base_timeout_secs + extra;
        proof {
            assert(adaptive == adaptive_timeout(
                base_timeout_secs as int,
                self.messages@.len(),
            ));
        }
        now - self.last_active > adaptive
    }
}

/// One conversation's entry in the store.
#[derive(Debug, Clone)]
pub struct SessionEntry {
    pub key: ConversationKey,
    pub session: Session,
}

/// The first session stored under (`p`, `c`).
pub open spec fn lookup_session(s: Seq<SessionEntry>, p: Platform, c: Seq<char>) -> Option<
    Session,
>
    decreases s.len(),
{
    if s.len() == 0 {
        None
    } else if s[0].key.platform == p && s[0].key.channel_id@ == c {
        Some(s[0].session)
    } else {
        lookup_session(s.drop_first(), p, c)
    }
}

proof fn lemma_lookup_session_at(s: Seq<SessionEntry>, p: Platform, c: Seq<char>, i: int)
    requires
        0 <= i < s.len(),
        s[i].key.platform == p && s[i].key.channel_id@ == c,
        forall|j: int|
            0 <= j < i ==> !(s[j].key.platform == p && s[j].key.channel_id@ == c),
    ensures
        lookup_session(s, p, c) == Some(s[i].session),
    decreases i,
{
    if i > 0 {
        lemma_lookup_session_at(s.drop_first(), p, c, i - 1);
    }
}

proof fn lemma_lookup_session_none(s: Seq<SessionEntry>, p: Platform, c: Seq<char>)
    requires
        forall|j: int|
            0 <= j < s.len() ==> !(s[j].key.platform == p && s[j].key.channel_id@ == c),
    ensures
        lookup_session(s, p, c) is None,
    decreases s.len(),
{
    if s.len() > 0 {
        lemma_lookup_session_none(s.drop_first(), p, c);
    }
}

proof fn lemma_lookup_session_update(
    s: Seq<SessionEntry>,
    i: int,
    entry: SessionEntry,
    p: Platform,
    c: Seq<char>,
)
    requires
        0 <= i < s.len(),
        entry.key.platform == s[i].key.platform,
        entry.key.channel_id@ == s[i].key.channel_id@,
        forall|j: int|
            0 <= j < i ==> !(s[j].key.platform == s[i].key.platform
                && s[j].key.channel_id@ == s[i].key.channel_id@),
    ensures
        s[i].key.platform == p && s[i].key.channel_id@ == c ==> lookup_session(
            s.update(i, entry),
            p,
            c,
        ) == Some(entry.session),
        !(s[i].key.platform == p && s[i].key.channel_id@ == c) ==> lookup_session(
            s.update(i, entry),
            p,
            c,
        ) == lookup_session(s, p, c),
    decreases i,
{
    let t = s.update(i, entry);
    if i == 0 {
        if !(s[0].key.platform == p && s[0].key.channel_id@ == c) {
            assert(t.drop_first() =~= s.drop_first());
        }
    } else {
        assert(t.drop_first() =~= s.drop_first().update(i - 1, entry));
        lemma_lookup_session_update(s.drop_first(), i - 1, entry, p, c);
    }
}

proof fn lemma_lookup_session_push(
    s: Seq<SessionEntry>,
    entry: SessionEntry,
    p: Platform,
    c: Seq<char>,
)
    ensures
        entry.key.platform == p && entry.key.channel_id@ == c && lookup_session(s, p, c)
            is None ==> lookup_session(s.push(entry), p, c) == Some(entry.session),
        !(entry.key.platform == p && entry.key.channel_id@ == c) ==> lookup_session(
            s.push(entry),
            p,
            c,
        ) == lookup_session(s, p, c),
    decreases s.len(),
{
    let t = s.push(entry);
    if s.len() > 0 {
        assert(t[0] == s[0]);
        assert(t.drop_first() =~= s.drop_first().push(entry));
        lemma_lookup_session_push(s.drop_first(), entry, p, c);
        if s[0].key.platform == p && s[0].key.channel_id@ == c {
            assert(lookup_session(t, p, c) == Some(t[0].session));
            assert(lookup_session(s, p, c) == Some(s[0].session));
        } else {
            assert(lookup_session(t, p, c) == lookup_session(t.drop_first(), p, c));
            assert(lookup_session(s, p, c) == lookup_session(s.drop_first(), p, c));
        }
    } else {
        assert(t[0] == entry);
        assert(t.drop_first() =~= Seq::<SessionEntry>::empty());
        if !(entry.key.platform == p && entry.key.channel_id@ == c) {
            assert(lookup_session(t, p, c) == lookup_session(t.drop_first(), p, c));
            assert(lookup_session(t.drop_first(), p, c) is None);
            assert(lookup_session(s, p, c) is None);
        }
    }
}

/// Session-based conversation context living in RAM. Each conversation has
/// its own session; sessions expire after the adaptive timeout.
pub struct ShortTermMemory {
    /// Active sessions, at most one per conversation key.
    pub sessions: Vec<SessionEntry>,
    /// Configuration.
    pub config: ShortTermConfig,
}

impl ShortTermMemory {
    /// At most one session per key, every session well-formed, and the
    /// configuration in range.
    pub open spec fn wf(&self) -> bool {
        &&& forall|i: int, j: int|
            0 <= i < j < self.sessions@.len() ==> !(self.sessions@[i].key.platform
                == self.sessions@[j].key.platform && self.sessions@[i].key.channel_id@
                == self.sessions@[j].key.channel_id@)
        &&& forall|i: int|
            0 <= i < self.sessions@.len() ==> (#[trigger] self.sessions@[i]).session.wf()
        &&& self.config.wf()
    }

    /// The session stored for (`p`, `c`), if one is active.
    pub open spec fn spec_session(&self, p: Platform, c: Seq<char>) -> Option<Session> {
        lookup_session(self.sessions@, p, c)
    }

    /// An empty store with the default configuration.
    pub fn new() -> (r: Self)
        ensures
            r.wf(),
            r.sessions@.len() == 0,
            r.config.base_timeout_secs == 1200,
            r.config.max_prompt_messages == 20,
    {
        ShortTermMemory { sessions: Vec::new(), config: ShortTermConfig::default() }
    }

    /// An empty store with the given configuration.
    pub fn with_config(config: ShortTermConfig) -> (r: Self)
        requires
            config.wf(),
        ensures
            r.wf(),
            r.sessions@.len() == 0,
            r.config == config,
    {
        ShortTermMemory { sessions: Vec::new(), config }
    }

    /// The number of active sessions.
    pub fn active_session_count(&self) -> (r: usize)
        ensures
            r == self.sessions@.len(),
    {
        self.sessions.len()
    }

    fn find_session_index(&self, p: Platform, channel_id: &String) -> (r: Option<usize>)
        ensures
            match r {
                Some(i) => i < self.sessions@.len() && self.sessions@[i as int].key.platform
                    == p && self.sessions@[i as int].key.channel_id@ == channel_id@
                    && (forall|j: int|
                    0 <= j < i ==> !(self.sessions@[j].key.platform == p
                        && self.sessions@[j].key.channel_id@ == channel_id@)),
                None => forall|j: int|
                    0 <= j < self.sessions@.len() ==> !(self.sessions@[j].key.platform
                        == p && self.sessions@[j].key.channel_id@ == channel_id@),
            },
    {
        let n = self.sessions.len();
        let mut i: usize = 0;
        while i < n
            invariant
                i <= n,
                n == self.sessions@.len(),
                forall|j: int|
                    0 <= j < i ==> !(self.sessions@[j].key.platform == p
                        && self.sessions@[j].key.channel_id@ == channel_id@),
            decreases n - i,
        {
            if self.sessions[i].key.platform == p && self.sessions[i].key.channel_id
                == *channel_id {
                return Some(i);
            }
            i = i + 1;
        }
        None
    }

    /// Push a message into its conversation's session, at its chronological
    /// position.
    ///
    /// If that session had already expired at the message's timestamp, it is
    /// removed first and its messages are returned for persistence, with the
    /// flag saying whether they were already persisted downstream; the
    /// message then opens a fresh session. Returns `None` when the session
    /// was still live (or new). A touched session always counts as not yet
    /// persisted.
    pub fn push(&mut self, msg: MemoryMessage) -> (r: Option<(Vec<MemoryMessage>, bool)>)
        requires
            old(self).wf(),
            msg.wf(),
            msg.timestamp >= 0,
        ensures
            final(self).wf(),
            final(self).config == old(self).config,
            ({
                let p = msg.platform;
                let c = msg.channel_id@;
                let prior = old(self).spec_session(p, c);
                match prior {
                    Some(s) => {
                        if expired_spec(
                            s,
                            msg.timestamp as int,
                            old(self).config.base_timeout_secs as int,
                        ) {
                            &&& (match r {
                                Some(drained) => drained.0@ == s.messages@ && drained.1
                                    == s.persisted,
                                None => false,
                            })
                            &&& (match final(self).spec_session(p, c) {
                                Some(ns) => ns.messages@ =~= seq![msg]
                                    && ns.last_active == msg.timestamp && !ns.persisted,
                                None => false,
                            })
                        } else {
                            &&& r is None
                            &&& (match final(self).spec_session(p, c) {
                                Some(ns) => ns.messages@ =~= chrono_insert(s.messages@, msg)
                                    && ns.last_active == msg.timestamp
                                    && ns.started_at == s.started_at && !ns.persisted,
                                None => false,
                            })
                        }
                    },
                    None => {
                        &&& r is None
                        &&& (match final(self).spec_session(p, c) {
                            Some(ns) => ns.messages@ =~= seq![msg] && ns.last_active
                                == msg.timestamp && !ns.persisted,
                            None => false,
                        })
                    },
                }
            }),
            forall|p2: Platform, c2: Seq<char>|
                !(p2 == msg.platform && c2 == msg.channel_id@) ==> final(self).spec_session(p2, c2) == old(self).spec_session(p2, c2),
    {
        let ghost s0 = self.sessions@;
        let p = msg.platform;
        let now = msg.timestamp;
        let base = self.config.base_timeout_secs;
        let mut drained: Option<(Vec<MemoryMessage>, bool)> = None;
        let found = self.find_session_index(p, &msg.channel_id);
        let idx: usize;
        match found {
            Some(i) => {
                proof {
                    lemma_lookup_session_at(s0, p, msg.channel_id@, i as int);
                }
                if self.sessions[i].session.is_expired(now, base) {
                    // Drain the expired session and restart in place.
                    let mut entry = SessionEntry {
                        key: ConversationKey::new(p, msg.channel_id.clone()),
                        session: Session::new(now),
                    };
                    self.sessions.set_and_swap(i, &mut entry);
                    proof {
                        lemma_lookup_session_update(
                            s0,
                            i as int,
                            self.sessions@[i as int],
                            p,
                            msg.channel_id@,
                        );
                    }
                    let was_persisted = entry.session.persisted;
                    drained = Some((entry.session.messages, was_persisted));
                    idx = i;
                } else {
                    idx = i;
                }
            },
            None => {
                proof {
                    lemma_lookup_session_none(s0, p, msg.channel_id@);
                }
                let entry = SessionEntry {
                    key: ConversationKey::new(p, msg.channel_id.clone()),
                    session: Session::new(now),
                };
                self.sessions.push(entry);
                idx = self.sessions.len() - 1;
            },
        }
        let ghost s1 = self.sessions@;
        proof {
            assert(idx < s1.len());
            assert(s1[idx as int].key.platform == p && s1[idx as int].key.channel_id@
                == msg.channel_id@);
            assert(forall|j: int|
                0 <= j < idx ==> !(s1[j].key.platform == p && s1[j].key.channel_id@
                    == msg.channel_id@));
        }
        // Insert the message at its chronological position and refresh
        // activity on the session in place.
        let ghost msgs_before = s1[idx as int].session.messages@;
        proof {
            assert(s1[idx as int].session.wf());
            lemma_chrono_pos_split(msgs_before, now as int);
        }
        let mut pos: usize = self.sessions[idx].session.messages.len();
        while pos > 0 && self.sessions[idx].session.messages[pos - 1].timestamp > now
            invariant
                self.sessions@ == s1,
                idx < s1.len(),
                pos <= msgs_before.len(),
                msgs_before == s1[idx as int].session.messages@,
                forall|j: int|
                    pos <= j < msgs_before.len() ==> msgs_before[j].timestamp > now,
            decreases pos,
        {
            pos = pos - 1;
        }
        proof {
            lemma_chrono_pos_unique(msgs_before, now as int, pos as int);
            lemma_chrono_insert_sorted(msgs_before, msg);
            msgs_before.insert_ensures(pos as int, msg);
        }
        self.sessions[idx].session.messages.insert(pos, msg);
        self.sessions[idx].session.last_active = now;
        self.sessions[idx].session.persisted = false;
        let ghost s2 = self.sessions@;
        proof {
            let newent = s2[idx as int];
            assert(newent.key == s1[idx as int].key);
            assert(newent.session.messages@ == chrono_insert(msgs_before, msg));
            assert(newent.session.last_active == now);
            assert(!newent.session.persisted);
            assert(newent.session.wf()) by {
                assert forall|t: int|
                    0 <= t < newent.session.messages@.len() implies (
                #[trigger] newent.session.messages@[t]).wf() by {
                    if t < pos {
                        assert(newent.session.messages@[t] == msgs_before[t]);
                    } else if t == pos {
                        assert(newent.session.messages@[t] == msg);
                    } else {
                        assert(newent.session.messages@[t] == msgs_before[t - 1]);
                    }
                }
            }
            assert(s2 =~= s1.update(idx as int, newent));
            lemma_lookup_session_update(s1, idx as int, newent, p, msg.channel_id@);
            assert(lookup_session(s2, p, msg.channel_id@) == Some(newent.session));
            assert forall|p2: Platform, c2: Seq<char>|
                !(p2 == p && c2 == msg.channel_id@) implies lookup_session(s2, p2, c2)
                == lookup_session(s0, p2, c2) by {
                lemma_lookup_session_update(s1, idx as int, newent, p2, c2);
                if s1 != s0 {
                    if s1.len() == s0.len() {
                        // the expired session was replaced in place
                        lemma_lookup_session_update(s0, idx as int, s1[idx as int], p2, c2);
                        assert(s1 =~= s0.update(idx as int, s1[idx as int]));
                    } else {
                        let pushed = s1[s1.len() - 1];
                        assert(s1 =~= s0.push(pushed));
                        lemma_lookup_session_push(s0, pushed, p2, c2);
                    }
                }
            }
        }
        drained
    }
}

/// The recency factor of position `i` among `total` messages, in
/// micro-units: the last message scores one, the first close to one tenth.
pub open spec fn recency_of(i: int, total: int) -> int {
    if total <= 1 {
        UNIT as int
    } else {
        100_000 + 900_000 * i / (total - 1)
    }
}

/// The prompt-inclusion score of message `m` at position `i` of `total`:
/// half the recency plus three tenths of the importance, plus bonuses for
/// bot turns and mentions, capped at one. All in micro-units.
pub open spec fn prompt_score_spec(m: MemoryMessage, i: int, total: int) -> int {
    let s = recency_of(i, total) / 2 + m.importance * 3 / 10 + (if m.is_bot_response {
        200_000int
    } else {
        0int
    }) + (if m.is_mention {
        150_000int
    } else {
        0int
    });
    if s > UNIT {
        UNIT as int
    } else {
        s
    }
}

/// Score a message for prompt inclusion.
fn prompt_score(m: &MemoryMessage, index: usize, total: usize) -> (r: i64)
    requires
        m.wf(),
        index < total,
    ensures
        r == prompt_score_spec(*m, index as int, total as int),
        0 <= r <= UNIT,
{
    let recency: i64 = if total <= 1 {
        UNIT
    } else {
        let num: u128 = 900_000u128 * (index as u128);
        let q: u128 = num / ((total - 1) as u128);
        proof {
            let t1 = total as int - 1;
            assert(900_000 * (index as int) <= 900_000 * t1) by (nonlinear_arith)
                requires
                    0 <= index as int <= t1,
            ;
            vstd::arithmetic::div_mod::lemma_div_is_ordered(
                900_000 * (index as int),
                900_000 * t1,
                t1,
            );
            vstd::arithmetic::div_mod::lemma_div_by_multiple(900_000, t1);
            assert(900_000 * (index as int) / t1 <= 900_000);
        }
        100_000 + (q as i64)
    };
    let mut s: i64 = recency / 2 + m.importance * 3 / 10;
    if m.is_bot_response {
        s = s + 200_000;
    }
    if m.is_mention {
        s = s + 150_000;
    }
    if s > UNIT {
        UNIT
    } else {
        s
    }
}

/// Whether `m` survives the exclusion filter.
pub open spec fn eligible(m: MemoryMessage, exclude: Option<Seq<char>>) -> bool {
    match exclude {
        Some(x) => m.id@ != x,
        None => true,
    }
}

/// How many messages survive the exclusion filter.
pub open spec fn count_eligible(msgs: Seq<MemoryMessage>, exclude: Option<Seq<char>>) -> nat
    decreases msgs.len(),
{
    if msgs.len() == 0 {
        0
    } else {
        count_eligible(msgs.drop_last(), exclude) + (if eligible(msgs.last(), exclude) {
            1nat
        } else {
            0nat
        })
    }
}

/// A valid prompt selection: strictly increasing positions, all in range and
/// none excluded.
pub open spec fn selection_ok(
    msgs: Seq<MemoryMessage>,
    exclude: Option<Seq<char>>,
    sel: Seq<int>,
) -> bool {
    &&& forall|a: int, b: int| 0 <= a < b < sel.len() ==> sel[a] < sel[b]
    &&& forall|t: int|
        0 <= t < sel.len() ==> 0 <= sel[t] < msgs.len() && eligible(
            msgs[sel[t]],
            exclude,
        )
}

/// Every selected message scores at least as high as every eligible message
/// left out: the selection is a top-scoring subset.
pub open spec fn selection_dominant(
    msgs: Seq<MemoryMessage>,
    exclude: Option<Seq<char>>,
    sel: Seq<int>,
) -> bool {
    forall|t: int, i: int|
        0 <= t < sel.len() && 0 <= i < msgs.len() && eligible(msgs[i], exclude)
            && !sel.contains(i) ==> prompt_score_spec(msgs[sel[t]], sel[t], msgs.len() as int)
            >= prompt_score_spec(msgs[i], i, msgs.len() as int)
}

/// The number of `true` flags.
pub open spec fn count_true(s: Seq<bool>) -> nat
    decreases s.len(),
{
    if s.len() == 0 {
        0
    } else {
        count_true(s.drop_last()) + (if s.last() {
            1nat
        } else {
            0nat
        })
    }
}

proof fn lemma_count_true_update(s: Seq<bool>, i: int)
    requires
        0 <= i < s.len(),
        !s[i],
    ensures
        count_true(s.update(i, true)) == count_true(s) + 1,
    decreases s.len(),
{
    let t = s.update(i, true);
    if i == s.len() - 1 {
        assert(t.drop_last() =~= s.drop_last());
    } else {
        assert(t.drop_last() =~= s.drop_last().update(i, true));
        lemma_count_true_update(s.drop_last(), i);
    }
}

proof fn lemma_count_true_bound(s: Seq<bool>)
    ensures
        count_true(s) <= s.len(),
    decreases s.len(),
{
    if s.len() > 0 {
        lemma_count_true_bound(s.drop_last());
    }
}

proof fn lemma_exists_untaken(s: Seq<bool>)
    requires
        count_true(s) < s.len(),
    ensures
        exists|j: int| 0 <= j < s.len() && !s[j],
    decreases s.len(),
{
    if s.len() > 0 {
        if s.last() {
            lemma_exists_untaken(s.drop_last());
            let j = choose|j: int| 0 <= j < s.drop_last().len() && !s.drop_last()[j];
            assert(!s[j]);
        } else {
            assert(!s[s.len() - 1]);
        }
    }
}

/// Select up to `limit` message positions for the prompt: the eligible
/// messages with the highest scores, returned in chronological (position)
/// order.
fn select_prompt_indices(
    msgs: &Vec<MemoryMessage>,
    exclude: Option<&String>,
    limit: usize,
) -> (r: Vec<usize>)
    requires
        forall|i: int| 0 <= i < msgs@.len() ==> (#[trigger] msgs@[i]).wf(),
    ensures
        ({
            let exv = match exclude {
                Some(x) => Some(x@),
                None => None::<Seq<char>>,
            };
            let sel = r@.map_values(|u: usize| u as int);
            &&& r@.len() == (if limit <= count_eligible(msgs@, exv) {
                limit as nat
            } else {
                count_eligible(msgs@, exv)
            })
            &&& selection_ok(msgs@, exv, sel)
            &&& selection_dominant(msgs@, exv, sel)
        }),
{
    let ghost exv = match exclude {
        Some(x) => Some(x@),
        None => None::<Seq<char>>,
    };
    let total = msgs.len();
    // Pass one: gather eligible positions and their scores.
    let mut cand_idx: Vec<usize> = Vec::new();
    let mut cand_score: Vec<i64> = Vec::new();
    let mut i: usize = 0;
    while i < total
        invariant
            i <= total,
            total == msgs@.len(),
            forall|k: int| 0 <= k < msgs@.len() ==> (#[trigger] msgs@[k]).wf(),
            cand_score@.len() == cand_idx@.len(),
            cand_idx@.len() == count_eligible(msgs@.subrange(0, i as int), exv),
            forall|a: int, b: int|
                0 <= a < b < cand_idx@.len() ==> cand_idx@[a] < cand_idx@[b],
            forall|t: int|
                0 <= t < cand_idx@.len() ==> cand_idx@[t] < i && eligible(
                    msgs@[cand_idx@[t] as int],
                    exv,
                ),
            forall|t: int|
                0 <= t < cand_idx@.len() ==> cand_score@[t] == prompt_score_spec(
                    msgs@[cand_idx@[t] as int],
                    cand_idx@[t] as int,
                    total as int,
                ),
            forall|j: int|
                0 <= j < i && eligible(msgs@[j], exv) ==> exists|t: int|
                    0 <= t < cand_idx@.len() && cand_idx@[t] == j,
            ({
                let exm = match exclude {
                    Some(x) => Some(x@),
                    None => None::<Seq<char>>,
                };
                exm == exv
            }),
        decreases total - i,
    {
        let keep = match exclude {
            Some(x) => !(msgs[i].id == *x),
            None => true,
        };
        proof {
            assert(keep == eligible(msgs@[i as int], exv));
            assert(msgs@.subrange(0, i + 1).drop_last() =~= msgs@.subrange(0, i as int));
            assert(msgs@.subrange(0, i + 1).last() == msgs@[i as int]);
        }
        let ghost ci_before = cand_idx@;
        if keep {
            let sc = prompt_score(&msgs[i], i, total);
            cand_idx.push(i);
            cand_score.push(sc);
            proof {
                assert(cand_idx@[cand_idx@.len() - 1] == i);
            }
        }
        proof {
            assert forall|j: int| 0 <= j < i + 1 && eligible(msgs@[j], exv)
                implies exists|t2: int|
                0 <= t2 < cand_idx@.len() && cand_idx@[t2] == j by {
                if j < i {
                    let t2 = choose|t2: int|
                        0 <= t2 < ci_before.len() && ci_before[t2] == j;
                    assert(cand_idx@[t2] == j);
                } else {
                    assert(cand_idx@[cand_idx@.len() - 1] == j);
                }
            }
        }
        i = i + 1;
    }
    proof {
        assert(msgs@.subrange(0, total as int) =~= msgs@);
    }
    let m = cand_idx.len();
    let k = if limit <= m {
        limit
    } else {
        m
    };
    // Pass two: mark the k highest-scoring candidates.
    let mut taken: Vec<bool> = Vec::new();
    let mut z: usize = 0;
    while z < m
        invariant
            z <= m,
            taken@.len() == z,
            forall|j: int| 0 <= j < z ==> !taken@[j],
            count_true(taken@) == 0,
        decreases m - z,
    {
        let ghost tk_before = taken@;
        taken.push(false);
        proof {
            assert(taken@.drop_last() =~= tk_before);
            assert(count_true(taken@) == count_true(tk_before));
        }
        z = z + 1;
    }
    let mut t: usize = 0;
    while t < k
        invariant
            t <= k,
            k <= m,
            taken@.len() == m,
            cand_idx@.len() == m,
            cand_score@.len() == m,
            count_true(taken@) == t,
            forall|a: int, b: int|
                0 <= a < m && 0 <= b < m && taken@[a] && !taken@[b] ==> cand_score@[a]
                    >= cand_score@[b],
        decreases k - t,
    {
        proof {
            lemma_exists_untaken(taken@);
        }
        // Find the highest-scoring untaken candidate.
        let mut best: usize = 0;
        let mut have_best = false;
        let mut j: usize = 0;
        while j < m
            invariant
                j <= m,
                taken@.len() == m,
                cand_score@.len() == m,
                have_best ==> best < m && !taken@[best as int],
                have_best ==> forall|j2: int|
                    0 <= j2 < j && !taken@[j2] ==> cand_score@[j2] <= cand_score@[best as int],
                !have_best ==> forall|j2: int| 0 <= j2 < j ==> taken@[j2],
            decreases m - j,
        {
            if !taken[j] {
                if !have_best || cand_score[j] > cand_score[best] {
                    best = j;
                    have_best = true;
                }
            }
            j = j + 1;
        }
        proof {
            if !have_best {
                assert(forall|j2: int| 0 <= j2 < m ==> taken@[j2]);
                let w = choose|w: int| 0 <= w < taken@.len() && !taken@[w];
                assert(false);
            }
        }
        let ghost taken_before = taken@;
        taken.set(best, true);
        proof {
            lemma_count_true_update(taken_before, best as int);
        }
        t = t + 1;
    }
    // Pass three: collect the marked candidates in position order.
    let mut out: Vec<usize> = Vec::new();
    let ghost mut src: Seq<int> = Seq::empty();
    let mut u: usize = 0;
    while u < m
        invariant
            u <= m,
            taken@.len() == m,
            cand_idx@.len() == m,
            cand_score@.len() == m,
            out@.len() == count_true(taken@.subrange(0, u as int)),
            src.len() == out@.len(),
            forall|w: int|
                0 <= w < src.len() ==> 0 <= #[trigger] src[w] < u && taken@[src[w]]
                    && cand_idx@[src[w]] == out@[w],
            forall|a: int, b: int| 0 <= a < b < src.len() ==> src[a] < src[b],
            forall|q: int|
                0 <= q < u && taken@[q] ==> out@.contains(cand_idx@[q]),
            forall|a: int, b: int|
                0 <= a < b < cand_idx@.len() ==> cand_idx@[a] < cand_idx@[b],
        decreases m - u,
    {
        proof {
            assert(taken@.subrange(0, u + 1).drop_last() =~= taken@.subrange(
                0,
                u as int,
            ));
        }
        if taken[u] {
            let ghost out_before = out@;
            out.push(cand_idx[u]);
            proof {
                src = src.push(u as int);
                assert(out@[out@.len() - 1] == cand_idx@[u as int]);
                assert forall|q: int| 0 <= q < u + 1 && taken@[q] implies out@.contains(
                    cand_idx@[q],
                ) by {
                    if q < u {
                        let w = choose|w: int|
                            0 <= w < out_before.len() && out_before[w] == cand_idx@[q];
                        assert(out@[w] == cand_idx@[q]);
                    } else {
                        assert(out@[out@.len() - 1] == cand_idx@[q]);
                    }
                }
            }
        }
        u = u + 1;
    }
    proof {
        assert(taken@.subrange(0, m as int) =~= taken@);
        let sel = out@.map_values(|x: usize| x as int);
        assert(sel.len() == out@.len());
        assert forall|a: int, b: int| 0 <= a < b < sel.len() implies sel[a] < sel[b] by {
            assert(cand_idx@[src[a]] < cand_idx@[src[b]]);
            assert(out@[a] < out@[b]);
        }
        assert forall|w: int| 0 <= w < sel.len() implies 0 <= sel[w] < msgs@.len()
            && eligible(msgs@[sel[w]], exv) by {
            let q = src[w];
            assert(eligible(msgs@[cand_idx@[q] as int], exv));
        }
        assert forall|w: int, i2: int|
            0 <= w < sel.len() && 0 <= i2 < msgs@.len() && eligible(msgs@[i2], exv)
                && !sel.contains(i2) implies prompt_score_spec(
            msgs@[sel[w]],
            sel[w],
            msgs@.len() as int,
        ) >= prompt_score_spec(msgs@[i2], i2, msgs@.len() as int) by {
            // The left-out message is some untaken candidate.
            let q = src[w];
            let qe = choose|t2: int|
                0 <= t2 < cand_idx@.len() && cand_idx@[t2] == i2;
            if taken@[qe] {
                assert(out@.contains(cand_idx@[qe]));
                let ww = choose|ww: int|
                    0 <= ww < out@.len() && out@[ww] == cand_idx@[qe];
                assert(sel[ww] == i2);
                assert(sel.contains(i2));
                assert(false);
            }
            assert(cand_score@[q] >= cand_score@[qe]);
        }
    }
    out
}


/// What a history triple must say about its source message: bot turns carry
/// role `assistant` with no name, user turns carry role `user` and the
/// sender's name; the content has mention tags stripped either way.
pub open spec fn triple_matches(t: (String, String, String), m: MemoryMessage) -> bool {
    if m.is_bot_response {
        t.0@ == "assistant"@ && t.1@ == Seq::<char>::empty() && t.2@
            == crate::text::stripped_content(m.content@)
    } else {
        t.0@ == "user"@ && t.1@ == m.username@ && t.2@ == crate::text::stripped_content(
            m.content@,
        )
    }
}

/// There is a top-scoring selection behind the returned history triples.
pub open spec fn history_selection_witness(
    msgs: Seq<MemoryMessage>,
    ex: Option<Seq<char>>,
    r: Seq<(String, String, String)>,
) -> bool {
    exists|sel: Seq<int>|
        {
            &&& selection_ok(msgs, ex, sel)
            &&& selection_dominant(msgs, ex, sel)
            &&& sel.len() == r.len()
            &&& forall|t: int|
                0 <= t < sel.len() ==> triple_matches(#[trigger] r[t], msgs[sel[t]])
        }
}

/// There is a top-scoring selection behind the returned messages.
pub open spec fn context_selection_witness(
    msgs: Seq<MemoryMessage>,
    r: Seq<MemoryMessage>,
) -> bool {
    exists|sel: Seq<int>|
        {
            &&& selection_ok(msgs, None, sel)
            &&& selection_dominant(msgs, None, sel)
            &&& sel.len() == r.len()
            &&& forall|t: int| 0 <= t < sel.len() ==> #[trigger] r[t] == msgs[sel[t]]
        }
}

/// There is a top-scoring selection of the given size whose glued lines
/// are the returned text.
pub open spec fn formatted_selection_witness(
    msgs: Seq<MemoryMessage>,
    picked: nat,
    text: Seq<char>,
) -> bool {
    exists|sel: Seq<int>|
        {
            &&& selection_ok(msgs, None, sel)
            &&& selection_dominant(msgs, None, sel)
            &&& sel.len() == picked
            &&& text == joined_lines(msgs, sel)
        }
}

proof fn lemma_intro_formatted_selection(
    msgs: Seq<MemoryMessage>,
    sel: Seq<int>,
    text: Seq<char>,
)
    requires
        selection_ok(msgs, None, sel),
        selection_dominant(msgs, None, sel),
        text == joined_lines(msgs, sel),
    ensures
        formatted_selection_witness(msgs, sel.len(), text),
{
    assert({
        &&& selection_ok(msgs, None, sel)
        &&& selection_dominant(msgs, None, sel)
        &&& sel.len() == sel.len()
        &&& text == joined_lines(msgs, sel)
    });
}

proof fn lemma_intro_history_selection(
    msgs: Seq<MemoryMessage>,
    ex: Option<Seq<char>>,
    sel: Seq<int>,
    r: Seq<(String, String, String)>,
)
    requires
        selection_ok(msgs, ex, sel),
        selection_dominant(msgs, ex, sel),
        sel.len() == r.len(),
        forall|t: int| 0 <= t < sel.len() ==> triple_matches(#[trigger] r[t], msgs[sel[t]]),
    ensures
        history_selection_witness(msgs, ex, r),
{
    assert({
        &&& selection_ok(msgs, ex, sel)
        &&& selection_dominant(msgs, ex, sel)
        &&& sel.len() == r.len()
        &&& forall|t: int|
            0 <= t < sel.len() ==> triple_matches(#[trigger] r[t], msgs[sel[t]])
    });
}

/// One line of the legacy formatted context: `<name>: <content>`, where bot
/// turns are named `Ryuuko`.
pub open spec fn context_line(m: MemoryMessage) -> Seq<char> {
    (if m.is_bot_response {
        "Ryuuko"@
    } else {
        m.username@
    }) + ": "@ + m.content@
}

/// The selected messages' lines joined with newlines.
pub open spec fn joined_lines(msgs: Seq<MemoryMessage>, sel: Seq<int>) -> Seq<char>
    decreases sel.len(),
{
    if sel.len() == 0 {
        Seq::empty()
    } else if sel.len() == 1 {
        context_line(msgs[sel[0]])
    } else {
        joined_lines(msgs, sel.drop_last()) + "\n"@ + context_line(msgs[sel.last()])
    }
}

/// The messages of one conversation, as a filter predicate.
pub open spec fn keyed_to(p: Platform, c: Seq<char>) -> spec_fn(MemoryMessage) -> bool {
    |m: MemoryMessage| m.platform == p && m.channel_id@ == c
}

/// The session-keeping predicate of a flush at `now`: the session has not
/// yet expired.
pub open spec fn keeps_at(now: int, base: int) -> spec_fn(SessionEntry) -> bool {
    |e: SessionEntry| !expired_spec(e.session, now, base)
}

/// The complement: sessions drained by a flush at `now`.
pub open spec fn drops_at(now: int, base: int) -> spec_fn(SessionEntry) -> bool {
    |e: SessionEntry| expired_spec(e.session, now, base)
}

/// The total number of messages over all sessions.
pub open spec fn total_in(s: Seq<SessionEntry>) -> nat
    decreases s.len(),
{
    if s.len() == 0 {
        0
    } else {
        total_in(s.drop_last()) + s.last().session.messages@.len()
    }
}

impl ShortTermMemory {
    /// Conversation history for the prompt, as `(role, name, content)`
    /// triples in chronological order.
    ///
    /// The message with `exclude_id` is never included; at most the
    /// configured maximum of messages is returned, chosen by descending
    /// prompt score; bot turns carry no name so the model does not echo its
    /// own display prefix.
    pub fn get_history_for_prompt(&self, key: &ConversationKey, exclude_id: &str) -> (r: Vec<
        (String, String, String),
    >)
        requires
            self.wf(),
        ensures
            self.spec_session(key.platform, key.channel_id@) is None ==> r@.len() == 0,
            self.spec_session(key.platform, key.channel_id@) matches Some(s) ==> r@.len()
                == (if self.config.max_prompt_messages <= count_eligible(
                s.messages@,
                Some(exclude_id@),
            ) {
                self.config.max_prompt_messages as nat
            } else {
                count_eligible(s.messages@, Some(exclude_id@))
            }),
            self.spec_session(key.platform, key.channel_id@) matches Some(s)
                ==> history_selection_witness(s.messages@, Some(exclude_id@), r@),
    {
        match self.find_session_index(key.platform, &key.channel_id) {
            None => {
                proof {
                    lemma_lookup_session_none(self.sessions@, key.platform, key.channel_id@);
                }
                Vec::new()
            },
            Some(i) => {
                proof {
                    lemma_lookup_session_at(
                        self.sessions@,
                        key.platform,
                        key.channel_id@,
                        i as int,
                    );
                }
                let msgs = &self.sessions[i].session.messages;
                let ex = exclude_id.to_owned();
                let idxs = select_prompt_indices(
                    msgs,
                    Some(&ex),
                    self.config.max_prompt_messages,
                );
                let ghost sel = idxs@.map_values(|u: usize| u as int);
                let mut r: Vec<(String, String, String)> = Vec::new();
                let mut t: usize = 0;
                while t < idxs.len()
                    invariant
                        t <= idxs@.len(),
                        selection_ok(msgs@, Some(ex@), sel),
                        sel == idxs@.map_values(|u: usize| u as int),
                        r@.len() == t,
                        forall|t2: int|
                            0 <= t2 < t ==> triple_matches(
                                #[trigger] r@[t2],
                                msgs@[sel[t2]],
                            ),
                    decreases idxs@.len() - t,
                {
                    proof {
                        assert(sel[t as int] == idxs@[t as int] as int);
                        assert(0 <= sel[t as int] < msgs@.len());
                    }
                    let m = &msgs[idxs[t]];
                    let clean = crate::text::strip_mention_tags(m.content.as_str());
                    if m.is_bot_response {
                        r.push((String::from_str("assistant"), String::new(), clean));
                    } else {
                        r.push((String::from_str("user"), m.username.clone(), clean));
                    }
                    t = t + 1;
                }
                proof {
                    assert(Some(ex@) == Some(exclude_id@));
                    lemma_intro_history_selection(msgs@, Some(exclude_id@), sel, r@);
                }
                r
            },
        }
    }

    /// The messages selected for the prompt, in chronological order.
    pub fn get_context_for_prompt(&self, key: &ConversationKey) -> (r: Vec<MemoryMessage>)
        requires
            self.wf(),
        ensures
            self.spec_session(key.platform, key.channel_id@) is None ==> r@.len() == 0,
            self.spec_session(key.platform, key.channel_id@) matches Some(s) ==> r@.len()
                == (if self.config.max_prompt_messages <= s.messages@.len() {
                self.config.max_prompt_messages as nat
            } else {
                s.messages@.len()
            }),
            self.spec_session(key.platform, key.channel_id@) matches Some(s)
                ==> context_selection_witness(s.messages@, r@),
    {
        match self.find_session_index(key.platform, &key.channel_id) {
            None => {
                proof {
                    lemma_lookup_session_none(self.sessions@, key.platform, key.channel_id@);
                }
                Vec::new()
            },
            Some(i) => {
                proof {
                    lemma_lookup_session_at(
                        self.sessions@,
                        key.platform,
                        key.channel_id@,
                        i as int,
                    );
                }
                let msgs = &self.sessions[i].session.messages;
                proof {
                    lemma_count_eligible_all(msgs@);
                }
                let idxs = select_prompt_indices(
                    msgs,
                    None,
                    self.config.max_prompt_messages,
                );
                let ghost sel = idxs@.map_values(|u: usize| u as int);
                let mut r: Vec<MemoryMessage> = Vec::new();
                let mut t: usize = 0;
                while t < idxs.len()
                    invariant
                        t <= idxs@.len(),
                        selection_ok(msgs@, None, sel),
                        sel == idxs@.map_values(|u: usize| u as int),
                        r@.len() == t,
                        forall|t2: int|
                            0 <= t2 < t ==> #[trigger] r@[t2] == msgs@[sel[t2]],
                    decreases idxs@.len() - t,
                {
                    proof {
                        assert(sel[t as int] == idxs@[t as int] as int);
                        assert(0 <= sel[t as int] < msgs@.len());
                    }
                    r.push(msgs[idxs[t]].clone());
                    t = t + 1;
                }
                proof {
                    let sess = self.sessions@[i as int].session;
                    assert(sess.messages@ == msgs@);
                    lemma_intro_context_selection(sess.messages@, sel, r@);
                }
                r
            },
        }
    }

    /// The selected history formatted as `<name>: <content>` lines joined by
    /// newlines, or `None` when the conversation has no messages.
    pub fn format_context(&self, key: &ConversationKey) -> (r: Option<String>)
        requires
            self.wf(),
        ensures
            self.spec_session(key.platform, key.channel_id@) is None ==> r is None,
            self.spec_session(key.platform, key.channel_id@) matches Some(s) ==> (
            s.messages@.len() == 0 ==> r is None),
            self.spec_session(key.platform, key.channel_id@) matches Some(s) ==> (
            s.messages@.len() > 0 && r is None ==> self.config.max_prompt_messages == 0),
            self.spec_session(key.platform, key.channel_id@) matches Some(s) ==> (match r {
                Some(text) => formatted_selection_witness(
                    s.messages@,
                    (if self.config.max_prompt_messages <= s.messages@.len() {
                        self.config.max_prompt_messages as nat
                    } else {
                        s.messages@.len()
                    }),
                    text@,
                ),
                None => true,
            }),
    {
        match self.find_session_index(key.platform, &key.channel_id) {
            None => {
                proof {
                    lemma_lookup_session_none(self.sessions@, key.platform, key.channel_id@);
                }
                None
            },
            Some(i) => {
                proof {
                    lemma_lookup_session_at(
                        self.sessions@,
                        key.platform,
                        key.channel_id@,
                        i as int,
                    );
                }
                let msgs = &self.sessions[i].session.messages;
                proof {
                    lemma_count_eligible_all(msgs@);
                }
                let idxs = select_prompt_indices(
                    msgs,
                    None,
                    self.config.max_prompt_messages,
                );
                if idxs.len() == 0 {
                    return None;
                }
                let ghost sel = idxs@.map_values(|u: usize| u as int);
                let mut text = String::new();
                let mut t: usize = 0;
                while t < idxs.len()
                    invariant
                        t <= idxs@.len(),
                        idxs@.len() > 0,
                        selection_ok(msgs@, None, sel),
                        sel == idxs@.map_values(|u: usize| u as int),
                        text@ == joined_lines(msgs@, sel.subrange(0, t as int)),
                    decreases idxs@.len() - t,
                {
                    proof {
                        assert(sel[t as int] == idxs@[t as int] as int);
                        assert(0 <= sel[t as int] < msgs@.len());
                    }
                    let m = &msgs[idxs[t]];
                    if t > 0 {
                        text.append("\n");
                    }
                    if m.is_bot_response {
                        text.append("Ryuuko");
                    } else {
                        text.append(m.username.as_str());
                    }
                    text.append(": ");
                    text.append(m.content.as_str());
                    proof {
                        let pre = sel.subrange(0, t as int);
                        let cur = sel.subrange(0, t + 1);
                        assert(cur.drop_last() =~= pre);
                        assert(cur.last() == sel[t as int]);
                        if t == 0 {
                            assert(cur.len() == 1);
                            assert(text@ =~= context_line(msgs@[sel[0]]));
                        } else {
                            assert(text@ =~= joined_lines(msgs@, pre) + "\n"@
                                + context_line(msgs@[cur.last()]));
                        }
                    }
                    t = t + 1;
                }
                proof {
                    assert(sel.subrange(0, sel.len() as int) =~= sel);
                    lemma_intro_formatted_selection(msgs@, sel, text@);
                }
                Some(text)
            },
        }
    }

    /// Drain every session that has idled past its adaptive timeout at
    /// `now`. The kept sessions are exactly the live ones, in order; the
    /// result pairs each drained conversation's key with its messages, in
    /// the order the sessions were stored.
    pub fn flush_expired(&mut self, now: i64) -> (r: Vec<
        (ConversationKey, Vec<MemoryMessage>, bool),
    >)
        requires
            old(self).wf(),
            now >= 0,
        ensures
            final(self).wf(),
            final(self).config == old(self).config,
            final(self).sessions@ =~= old(self).sessions@.filter(
                keeps_at(now as int, old(self).config.base_timeout_secs as int),
            ),
            ({
                let drained = old(self).sessions@.filter(
                    drops_at(now as int, old(self).config.base_timeout_secs as int),
                );
                &&& r@.len() == drained.len()
                &&& forall|t: int|
                    0 <= t < r@.len() ==> (#[trigger] r@[t]).0 == drained[t].key && r@[t].1@
                        == drained[t].session.messages@ && r@[t].2
                        == drained[t].session.persisted
            }),
    {
        let base = self.config.base_timeout_secs;
        let ghost keep_pred = keeps_at(now as int, base as int);
        let ghost drop_pred = drops_at(now as int, base as int);
        let n = self.sessions.len();
        let mut kept: Vec<SessionEntry> = Vec::new();
        let mut out: Vec<(ConversationKey, Vec<MemoryMessage>, bool)> = Vec::new();
        let ghost s0 = self.sessions@;
        let mut i: usize = 0;
        while i < n
            invariant
                i <= n,
                n == s0.len(),
                now >= 0,
                self.sessions@.len() == s0.len(),
                forall|j: int| i <= j < n ==> self.sessions@[j] == s0[j],
                self.config == old(self).config,
                self.config.base_timeout_secs == base,
                self.config.wf(),
                forall|j: int| 0 <= j < s0.len() ==> (#[trigger] s0[j]).session.wf(),
                keep_pred == keeps_at(now as int, base as int),
                drop_pred == drops_at(now as int, base as int),
                kept@ == s0.subrange(0, i as int).filter(keep_pred),
                ({
                    let drained = s0.subrange(0, i as int).filter(drop_pred);
                    &&& out@.len() == drained.len()
                    &&& forall|t: int|
                        0 <= t < out@.len() ==> (#[trigger] out@[t]).0 == drained[t].key
                            && out@[t].1@ == drained[t].session.messages@ && out@[t].2
                            == drained[t].session.persisted
                }),
            decreases n - i,
        {
            proof {
                reveal(Seq::filter);
                assert(s0.subrange(0, i + 1).drop_last() =~= s0.subrange(0, i as int));
                assert(s0.subrange(0, i + 1).last() == s0[i as int]);
            }
            let expired = self.sessions[i].session.is_expired(now, base);
            if expired {
                let e = SessionEntry {
                    key: ConversationKey::new(
                        self.sessions[i].key.platform,
                        self.sessions[i].key.channel_id.clone(),
                    ),
                    session: Session {
                        messages: Vec::new(),
                        last_active: 0,
                        started_at: 0,
                        persisted: false,
                    },
                };
                // Swap the expired entry out so its messages move to the result.
                let mut taken_entry = e;
                self.sessions.set_and_swap(i, &mut taken_entry);
                let was_persisted = taken_entry.session.persisted;
                out.push((taken_entry.key, taken_entry.session.messages, was_persisted));
                proof {
                    assert(self.sessions@[i as int].key.platform == s0[i as int].key.platform);
                    assert(self.sessions@[i as int].key.channel_id@ == s0[
                        i as int
                    ].key.channel_id@);
                }
            } else {
                let entry = SessionEntry {
                    key: ConversationKey::new(
                        self.sessions[i].key.platform,
                        self.sessions[i].key.channel_id.clone(),
                    ),
                    session: Session {
                        messages: Vec::new(),
                        last_active: 0,
                        started_at: 0,
                        persisted: false,
                    },
                };
                let mut taken_entry = entry;
                self.sessions.set_and_swap(i, &mut taken_entry);
                kept.push(taken_entry);
            }
            proof {
                // the placeholder left behind never matters again
            }
            i = i + 1;
        }
        proof {
            assert(s0.subrange(0, n as int) =~= s0);
        }
        self.sessions = kept;
        proof {
            lemma_filter_keeps_wf(s0, keep_pred, now as int, base as int);
        }
        out
    }

    /// Load persisted history: fold each message into the session of its
    /// key (creating sessions as needed), in the order given, each at its
    /// chronological position. For every conversation, the new session
    /// holds exactly the old messages with the loaded messages of that key
    /// folded in by timestamp.
    pub fn load_history(&mut self, messages: Vec<MemoryMessage>)
        requires
            old(self).wf(),
            forall|i: int|
                0 <= i < messages@.len() ==> (#[trigger] messages@[i]).wf()
                    && messages@[i].timestamp >= 0,
        ensures
            final(self).wf(),
            final(self).config == old(self).config,
            forall|p: Platform, c: Seq<char>|
                {
                    let added = messages@.filter(#[trigger] keyed_to(p, c));
                    match (old(self).spec_session(p, c), final(self).spec_session(p, c)) {
                        (Some(s0), Some(s1)) => s1.messages@ == chrono_insert_all(
                            s0.messages@,
                            added,
                        ),
                        (None, Some(s1)) => s1.messages@ == chrono_insert_all(
                            Seq::empty(),
                            added,
                        ) && added.len() > 0,
                        (None, None) => added.len() == 0,
                        (Some(_), None) => false,
                    }
                },
    {
        let ghost msgs0 = messages@;
        let n = messages.len();
        let mut rest = messages;
        let ghost base = *self;
        proof {
            reveal(Seq::filter);
            assert forall|p: Platform, c: Seq<char>| #[trigger]
                msgs0.take(0).filter(keyed_to(p, c)) =~= Seq::<MemoryMessage>::empty() by {
                assert(msgs0.take(0) =~= Seq::<MemoryMessage>::empty());
            }
        }
        while rest.len() > 0
            invariant
                self.wf(),
                self.config == base.config,
                base.wf(),
                n == msgs0.len(),
                rest@.len() <= n,
                rest@ == msgs0.skip(n - rest@.len()),
                forall|i: int|
                    0 <= i < msgs0.len() ==> (#[trigger] msgs0[i]).wf()
                        && msgs0[i].timestamp >= 0,
                forall|p: Platform, c: Seq<char>|
                    {
                        let added = msgs0.take(n - rest@.len()).filter(
                            #[trigger] keyed_to(p, c),
                        );
                        match (base.spec_session(p, c), self.spec_session(p, c)) {
                            (Some(s0), Some(s1)) => s1.messages@ == chrono_insert_all(
                                s0.messages@,
                                added,
                            ),
                            (None, Some(s1)) => s1.messages@ == chrono_insert_all(
                                Seq::empty(),
                                added,
                            ) && added.len() > 0,
                            (None, None) => added.len() == 0,
                            (Some(_), None) => false,
                        }
                    },
            decreases rest@.len(),
        {
            let ghost k = n - rest@.len();
            let ghost pre = *self;
            proof {
                assert(rest@[0] == msgs0[k]);
            }
            let msg = rest.remove(0);
            proof {
                assert(rest@ =~= msgs0.skip(k + 1));
            }
            self.append_to_session(msg);
            proof {
                reveal(Seq::filter);
                assert forall|p: Platform, c: Seq<char>|
                    {
                        let added = msgs0.take(k + 1).filter(#[trigger] keyed_to(p, c));
                        match (base.spec_session(p, c), self.spec_session(p, c)) {
                            (Some(s0), Some(s1)) => s1.messages@ == chrono_insert_all(
                                s0.messages@,
                                added,
                            ),
                            (None, Some(s1)) => s1.messages@ == chrono_insert_all(
                                Seq::empty(),
                                added,
                            ) && added.len() > 0,
                            (None, None) => added.len() == 0,
                            (Some(_), None) => false,
                        }
                    } by {
                    let taken = msgs0.take(k + 1);
                    assert(taken.drop_last() =~= msgs0.take(k));
                    assert(taken.last() == msgs0[k]);
                    let added_pre = msgs0.take(k).filter(keyed_to(p, c));
                    let added = taken.filter(keyed_to(p, c));
                    if p == msgs0[k].platform && c == msgs0[k].channel_id@ {
                        assert(keyed_to(p, c)(msgs0[k]));
                        assert(added =~= added_pre.push(msgs0[k]));
                        match pre.spec_session(p, c) {
                            Some(s1_pre) => {
                                match base.spec_session(p, c) {
                                    Some(s0) => {
                                        lemma_chrono_insert_all_push(
                                            s0.messages@,
                                            added_pre,
                                            msgs0[k],
                                        );
                                        assert(self.spec_session(p, c) matches Some(s1)
                                            && s1.messages@ == chrono_insert_all(
                                            s0.messages@,
                                            added,
                                        ));
                                    },
                                    None => {
                                        lemma_chrono_insert_all_push(
                                            Seq::empty(),
                                            added_pre,
                                            msgs0[k],
                                        );
                                        assert(self.spec_session(p, c) matches Some(s1)
                                            && s1.messages@ == chrono_insert_all(
                                            Seq::empty(),
                                            added,
                                        ));
                                    },
                                }
                            },
                            None => {
                                assert(self.spec_session(p, c) matches Some(s1)
                                    && s1.messages@ =~= seq![msgs0[k as int]]);
                                assert(added_pre.len() == 0);
                                assert(added_pre =~= Seq::<MemoryMessage>::empty());
                                assert(added =~= seq![msgs0[k as int]]);
                                lemma_chrono_insert_all_push(
                                    Seq::empty(),
                                    added_pre,
                                    msgs0[k],
                                );
                                assert(chrono_insert(
                                    Seq::<MemoryMessage>::empty(),
                                    msgs0[k],
                                ) =~= seq![msgs0[k as int]]);
                                assert(self.spec_session(p, c) matches Some(s1)
                                    && s1.messages@ == chrono_insert_all(
                                    Seq::empty(),
                                    added,
                                ));
                            },
                        }
                    } else {
                        assert(!keyed_to(p, c)(msgs0[k]));
                        assert(added =~= added_pre);
                        assert(self.spec_session(p, c) == pre.spec_session(p, c));
                    }
                }
            }
        }
        proof {
            assert(msgs0.take(n as int) =~= msgs0);
        }
    }

    /// Mark every active session as already persisted downstream, so that
    /// its later drain is not ingested again; called once right after the
    /// journal replenishes short-term memory on startup. Everything else
    /// about every session is left as it was.
    pub fn mark_all_persisted(&mut self)
        requires
            old(self).wf(),
        ensures
            final(self).wf(),
            final(self).config == old(self).config,
            final(self).sessions@.len() == old(self).sessions@.len(),
            forall|i: int|
                0 <= i < old(self).sessions@.len() ==> {
                    let e0 = old(self).sessions@[i];
                    let e1 = #[trigger] final(self).sessions@[i];
                    e1.key == e0.key && e1.session.messages@ == e0.session.messages@
                        && e1.session.last_active == e0.session.last_active
                        && e1.session.started_at == e0.session.started_at
                        && e1.session.persisted
                },
    {
        let n = self.sessions.len();
        let mut i: usize = 0;
        while i < n
            invariant
                i <= n,
                n == self.sessions@.len(),
                self.sessions@.len() == old(self).sessions@.len(),
                self.config == old(self).config,
                old(self).wf(),
                forall|j: int|
                    0 <= j < i ==> {
                        let e0 = old(self).sessions@[j];
                        let e1 = #[trigger] self.sessions@[j];
                        e1.key == e0.key && e1.session.messages@ == e0.session.messages@
                            && e1.session.last_active == e0.session.last_active
                            && e1.session.started_at == e0.session.started_at
                            && e1.session.persisted
                    },
                forall|j: int| i <= j < n ==> self.sessions@[j] == old(self).sessions@[j],
            decreases n - i,
        {
            self.sessions[i].session.persisted = true;
            i = i + 1;
        }
        proof {
            assert forall|a: int, b: int| 0 <= a < b < self.sessions@.len() implies !(
            self.sessions@[a].key.platform == self.sessions@[b].key.platform
                && self.sessions@[a].key.channel_id@
                == self.sessions@[b].key.channel_id@) by {
                assert(self.sessions@[a].key == old(self).sessions@[a].key);
                assert(self.sessions@[b].key == old(self).sessions@[b].key);
            }
            assert forall|a: int|
                0 <= a < self.sessions@.len() implies (
            #[trigger] self.sessions@[a]).session.wf() by {
                assert(old(self).sessions@[a].session.wf());
                assert(self.sessions@[a].session.messages@ == old(
                    self,
                ).sessions@[a].session.messages@);
            }
        }
    }

    /// Fold a message into its session at its chronological position,
    /// without the expiry check, creating the session if needed; used when
    /// replenishing from the journal. The persisted flag of an existing
    /// session is left alone: the caller marks sessions once the whole
    /// batch is in.
    fn append_to_session(&mut self, msg: MemoryMessage)
        requires
            old(self).wf(),
            msg.wf(),
            msg.timestamp >= 0,
        ensures
            final(self).wf(),
            final(self).config == old(self).config,
            match old(self).spec_session(msg.platform, msg.channel_id@) {
                Some(s) => final(self).spec_session(msg.platform, msg.channel_id@)
                    matches Some(ns) && ns.messages@ == chrono_insert(s.messages@, msg)
                    && ns.persisted == s.persisted,
                None => final(self).spec_session(msg.platform, msg.channel_id@)
                    matches Some(ns) && ns.messages@ =~= seq![msg] && !ns.persisted,
            },
            forall|p2: Platform, c2: Seq<char>|
                !(p2 == msg.platform && c2 == msg.channel_id@) ==> final(self).spec_session(p2, c2) == old(self).spec_session(p2, c2),
    {
        let ghost s0 = self.sessions@;
        let p = msg.platform;
        let idx: usize;
        match self.find_session_index(p, &msg.channel_id) {
            Some(i) => {
                proof {
                    lemma_lookup_session_at(s0, p, msg.channel_id@, i as int);
                }
                idx = i;
            },
            None => {
                proof {
                    lemma_lookup_session_none(s0, p, msg.channel_id@);
                }
                let entry = SessionEntry {
                    key: ConversationKey::new(p, msg.channel_id.clone()),
                    session: Session::new(msg.timestamp),
                };
                self.sessions.push(entry);
                idx = self.sessions.len() - 1;
            },
        }
        let ghost s1 = self.sessions@;
        proof {
            assert(idx < s1.len());
            assert(s1[idx as int].key.platform == p && s1[idx as int].key.channel_id@
                == msg.channel_id@);
            assert(forall|j: int|
                0 <= j < idx ==> !(s1[j].key.platform == p && s1[j].key.channel_id@
                    == msg.channel_id@));
        }
        let ts = msg.timestamp;
        let ghost msgs_before = s1[idx as int].session.messages@;
        proof {
            assert(s1[idx as int].session.wf());
            lemma_chrono_pos_split(msgs_before, ts as int);
        }
        let mut pos: usize = self.sessions[idx].session.messages.len();
        while pos > 0 && self.sessions[idx].session.messages[pos - 1].timestamp > ts
            invariant
                self.sessions@ == s1,
                idx < s1.len(),
                pos <= msgs_before.len(),
                msgs_before == s1[idx as int].session.messages@,
                forall|j: int|
                    pos <= j < msgs_before.len() ==> msgs_before[j].timestamp > ts,
            decreases pos,
        {
            pos = pos - 1;
        }
        proof {
            lemma_chrono_pos_unique(msgs_before, ts as int, pos as int);
            lemma_chrono_insert_sorted(msgs_before, msg);
            msgs_before.insert_ensures(pos as int, msg);
        }
        self.sessions[idx].session.messages.insert(pos, msg);
        if ts > self.sessions[idx].session.last_active {
            self.sessions[idx].session.last_active = ts;
        }
        if ts < self.sessions[idx].session.started_at {
            self.sessions[idx].session.started_at = ts;
        }
        let ghost s2 = self.sessions@;
        proof {
            let newent = s2[idx as int];
            assert(newent.key == s1[idx as int].key);
            assert(newent.session.messages@ == chrono_insert(msgs_before, msg));
            assert(newent.session.wf()) by {
                assert forall|t: int|
                    0 <= t < newent.session.messages@.len() implies (
                #[trigger] newent.session.messages@[t]).wf() by {
                    if t < pos {
                        assert(newent.session.messages@[t] == msgs_before[t]);
                    } else if t == pos {
                        assert(newent.session.messages@[t] == msg);
                    } else {
                        assert(newent.session.messages@[t] == msgs_before[t - 1]);
                    }
                }
            }
            assert(s2 =~= s1.update(idx as int, newent));
            lemma_lookup_session_update(s1, idx as int, newent, p, msg.channel_id@);
            assert(lookup_session(s2, p, msg.channel_id@) == Some(newent.session));
            assert forall|p2: Platform, c2: Seq<char>|
                !(p2 == p && c2 == msg.channel_id@) implies lookup_session(s2, p2, c2)
                == lookup_session(s0, p2, c2) by {
                lemma_lookup_session_update(s1, idx as int, newent, p2, c2);
                if s1 != s0 {
                    let pushed = s1[s1.len() - 1];
                    assert(s1 =~= s0.push(pushed));
                    lemma_lookup_session_push(s0, pushed, p2, c2);
                }
            }
        }
    }

    /// The total number of messages across all sessions.
    pub fn total_messages(&self) -> (r: usize)
        requires
            total_in(self.sessions@) <= usize::MAX,
        ensures
            r == total_in(self.sessions@),
    {
        let n = self.sessions.len();
        let mut sum: usize = 0;
        let mut i: usize = 0;
        while i < n
            invariant
                i <= n,
                n == self.sessions@.len(),
                total_in(self.sessions@) <= usize::MAX,
                sum == total_in(self.sessions@.subrange(0, i as int)),
            decreases n - i,
        {
            proof {
                assert(self.sessions@.subrange(0, i + 1).drop_last() =~= self.sessions@.subrange(
                    0,
                    i as int,
                ));
                assert(self.sessions@.subrange(0, i + 1).last() == self.sessions@[i as int]);
                lemma_total_in_prefix(self.sessions@, i + 1);
            }
            sum = sum + self.sessions[i].session.messages.len();
            i = i + 1;
        }
        proof {
            assert(self.sessions@.subrange(0, n as int) =~= self.sessions@);
        }
        sum
    }
}

proof fn lemma_intro_context_selection(
    msgs: Seq<MemoryMessage>,
    sel: Seq<int>,
    r: Seq<MemoryMessage>,
)
    requires
        selection_ok(msgs, None, sel),
        selection_dominant(msgs, None, sel),
        sel.len() == r.len(),
        forall|t: int| 0 <= t < sel.len() ==> #[trigger] r[t] == msgs[sel[t]],
    ensures
        context_selection_witness(msgs, r),
{
    assert({
        &&& selection_ok(msgs, None, sel)
        &&& selection_dominant(msgs, None, sel)
        &&& sel.len() == r.len()
        &&& forall|t: int| 0 <= t < sel.len() ==> #[trigger] r[t] == msgs[sel[t]]
    });
}

proof fn lemma_total_in_prefix(s: Seq<SessionEntry>, i: int)
    requires
        0 < i <= s.len(),
    ensures
        total_in(s.subrange(0, i)) <= total_in(s),
    decreases s.len() - i,
{
    if i == s.len() {
        assert(s.subrange(0, i) =~= s);
    } else {
        assert(s.subrange(0, i + 1).drop_last() =~= s.subrange(0, i));
        lemma_total_in_prefix(s, i + 1);
    }
}

/// With no exclusion, every message is eligible.
proof fn lemma_count_eligible_all(msgs: Seq<MemoryMessage>)
    ensures
        count_eligible(msgs, None) == msgs.len(),
    decreases msgs.len(),
{
    if msgs.len() > 0 {
        lemma_count_eligible_all(msgs.drop_last());
    }
}

proof fn lemma_filter_keeps_wf(
    s: Seq<SessionEntry>,
    keep_pred: spec_fn(SessionEntry) -> bool,
    now: int,
    base: int,
)
    requires
        forall|i: int, j: int|
            0 <= i < j < s.len() ==> !(s[i].key.platform == s[j].key.platform
                && s[i].key.channel_id@ == s[j].key.channel_id@),
        forall|i: int| 0 <= i < s.len() ==> (#[trigger] s[i]).session.wf(),
    ensures
        forall|i: int, j: int|
            0 <= i < j < s.filter(keep_pred).len() ==> !(s.filter(keep_pred)[i].key.platform
                == s.filter(keep_pred)[j].key.platform && s.filter(
                keep_pred,
            )[i].key.channel_id@ == s.filter(keep_pred)[j].key.channel_id@),
        forall|i: int|
            0 <= i < s.filter(keep_pred).len() ==> (#[trigger] s.filter(
                keep_pred,
            )[i]).session.wf(),
{
    reveal(Seq::filter);
    s.filter_lemma(keep_pred);
    let f = s.filter(keep_pred);
    assert forall|i: int, j: int| 0 <= i < j < f.len() implies !(f[i].key.platform
        == f[j].key.platform && f[i].key.channel_id@ == f[j].key.channel_id@) by {
        lemma_filter_pair_distinct(s, keep_pred, i, j);
    }
    assert forall|i: int| 0 <= i < f.len() implies (#[trigger] f[i]).session.wf() by {
        lemma_filter_member(s, keep_pred, i);
        let a = choose|a: int| 0 <= a < s.len() && s[a] == f[i];
        assert(s[a].session.wf());
    }
}

/// Two distinct positions of a filtered sequence come from two distinct
/// positions of the original, in order.
proof fn lemma_filter_pair_distinct(
    s: Seq<SessionEntry>,
    pred: spec_fn(SessionEntry) -> bool,
    i: int,
    j: int,
)
    requires
        0 <= i < j < s.filter(pred).len(),
    ensures
        exists|a: int, b: int|
            0 <= a < b < s.len() && s[a] == #[trigger] s.filter(pred)[i] && s[b]
                == #[trigger] s.filter(pred)[j],
    decreases s.len(),
{
    reveal(Seq::filter);
    let f = s.filter(pred);
    if s.len() > 0 {
        let fd = s.drop_last().filter(pred);
        if pred(s.last()) {
            assert(f =~= fd.push(s.last()));
            if j == f.len() - 1 {
                // s.last() is the j element; find the i element inside drop_last
                lemma_filter_member(s.drop_last(), pred, i);
                let a = choose|a: int|
                    0 <= a < s.drop_last().len() && s.drop_last()[a] == fd[i];
                assert(s[a] == f[i]);
                assert(s[s.len() - 1] == f[j]);
            } else {
                lemma_filter_pair_distinct(s.drop_last(), pred, i, j);
                let (a, b) = choose|a: int, b: int|
                    0 <= a < b < s.drop_last().len() && s.drop_last()[a] == fd[i]
                        && s.drop_last()[b] == fd[j];
                assert(s[a] == f[i] && s[b] == f[j]);
            }
        } else {
            assert(f =~= fd);
            lemma_filter_pair_distinct(s.drop_last(), pred, i, j);
            let (a, b) = choose|a: int, b: int|
                0 <= a < b < s.drop_last().len() && s.drop_last()[a] == fd[i]
                    && s.drop_last()[b] == fd[j];
            assert(s[a] == f[i] && s[b] == f[j]);
        }
    }
}

proof fn lemma_filter_member(s: Seq<SessionEntry>, pred: spec_fn(SessionEntry) -> bool, i: int)
    requires
        0 <= i < s.filter(pred).len(),
    ensures
        exists|a: int| 0 <= a < s.len() && s[a] == #[trigger] s.filter(pred)[i],
    decreases s.len(),
{
    reveal(Seq::filter);
    let f = s.filter(pred);
    if s.len() > 0 {
        let fd = s.drop_last().filter(pred);
        if pred(s.last()) {
            assert(f =~= fd.push(s.last()));
            if i == f.len() - 1 {
                assert(s[s.len() - 1] == f[i]);
            } else {
                lemma_filter_member(s.drop_last(), pred, i);
                let a = choose|a: int|
                    0 <= a < s.drop_last().len() && s.drop_last()[a] == fd[i];
                assert(s[a] == f[i]);
            }
        } else {
            assert(f =~= fd);
            lemma_filter_member(s.drop_last(), pred, i);
            let a = choose|a: int|
                0 <= a < s.drop_last().len() && s.drop_last()[a] == fd[i];
            assert(s[a] == f[i]);
        }
    }
}

} // verus!
