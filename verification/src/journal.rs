//! The message journal: append-only persistence of user mentions and bot
//! turns over an embedded relational store.
//!
//! The store is modelled as a map from message id to the stored row: the
//! platform name as persisted, and the message as this module reads it
//! back. Inserts are idempotent by id, batch inserts are transactional, the
//! count is the number of distinct ids, and reads return the newest rows of
//! a conversation in chronological order. The embedded engine is reached
//! only through the trusted items in this module.

use vstd::prelude::*;
use crate::event::{Platform, platform_name};
use crate::types::MemoryMessage;

verus! {

#[verifier::external_type_specification]
#[verifier::external_body]
pub struct ExConnection(rusqlite::Connection);

#[verifier::external_type_specification]
#[verifier::external_body]
pub struct ExSqlError(rusqlite::Error);

/// The journal's own error: the embedded store failed.
#[derive(Debug, Clone, Copy, PartialEq, Eq, Structural)]
pub enum JournalError {
    Storage,
}

/// The platform stored under the given name; unknown names fall back to the
/// local command-line platform.
pub open spec fn platform_of_name(s: Seq<char>) -> Platform {
    if s == "Discord"@ {
        Platform::Discord
    } else if s == "DiscordSelfbot"@ {
        Platform::DiscordSelfbot
    } else if s == "Telegram"@ {
        Platform::Telegram
    } else {
        Platform::Cli
    }
}

/// Map a stored platform name back to the platform.
pub fn platform_from_name(s: &str) -> (r: Platform)
    ensures
        r == platform_of_name(s@),
{
    if crate::text::str_eq(s, "Discord") {
        Platform::Discord
    } else if crate::text::str_eq(s, "DiscordSelfbot") {
        Platform::DiscordSelfbot
    } else if crate::text::str_eq(s, "Telegram") {
        Platform::Telegram
    } else {
        Platform::Cli
    }
}

/// The contents after inserting one message: unchanged when the id is
/// already present, extended with the row (platform name, message)
/// otherwise.
pub open spec fn insert_model(
    m: Map<Seq<char>, (Seq<char>, MemoryMessage)>,
    msg: MemoryMessage,
) -> Map<Seq<char>, (Seq<char>, MemoryMessage)> {
    if m.contains_key(msg.id@) {
        m
    } else {
        m.insert(msg.id@, (platform_name(msg.platform), msg))
    }
}

/// The contents after inserting a batch, in order.
pub open spec fn batch_model(
    m: Map<Seq<char>, (Seq<char>, MemoryMessage)>,
    msgs: Seq<MemoryMessage>,
) -> Map<Seq<char>, (Seq<char>, MemoryMessage)>
    decreases msgs.len(),
{
    if msgs.len() == 0 {
        m
    } else {
        batch_model(insert_model(m, msgs[0]), msgs.drop_first())
    }
}

/// Inserting a message twice is the same as inserting it once: the second
/// insert finds the id present and changes nothing, so the message count is
/// unchanged.
pub proof fn lemma_insert_idempotent(
    m: Map<Seq<char>, (Seq<char>, MemoryMessage)>,
    msg: MemoryMessage,
)
    ensures
        insert_model(insert_model(m, msg), msg) == insert_model(m, msg),
{
}

/// The ids of the rows of one conversation: stored platform name and
/// channel both equal to the query texts.
pub open spec fn matching_ids(
    m: Map<Seq<char>, (Seq<char>, MemoryMessage)>,
    platform: Seq<char>,
    channel_id: Seq<char>,
) -> Set<Seq<char>> {
    Set::new(
        |k: Seq<char>|
            m.dom().contains(k) && m[k].0 == platform && m[k].1.channel_id@ == channel_id,
    )
}

/// What a message read back from the journal says about its stored row:
/// every column round-trips, the platform comes back parsed from its stored
/// name, and `reply_to_user` is not read.
pub open spec fn row_matches(m: MemoryMessage, row: (Seq<char>, MemoryMessage)) -> bool {
    &&& m.platform == platform_of_name(row.0)
    &&& m.channel_id@ == row.1.channel_id@
    &&& m.user_id@ == row.1.user_id@
    &&& m.username@ == row.1.username@
    &&& m.content@ == row.1.content@
    &&& m.is_mention == row.1.is_mention
    &&& m.is_bot_response == row.1.is_bot_response
    &&& m.reply_to_user is None
    &&& m.timestamp == row.1.timestamp
    &&& m.importance == row.1.importance
}

/// The persistent message journal. The connection and the model of its
/// rows are private: only this module's constructors and methods, whose
/// contracts speak of `contents()`, ever touch them.
pub struct MemoryStore {
    conn: rusqlite::Connection,
    /// The journal's rows, keyed by message id.
    model: Ghost<Map<Seq<char>, (Seq<char>, MemoryMessage)>>,
}

impl MemoryStore {
    /// The journal's rows, keyed by message id: the stored platform name
    /// and the message as this module reads it back.
    pub closed spec fn contents(&self) -> Map<Seq<char>, (Seq<char>, MemoryMessage)> {
        self.model@
    }

    /// The contents form a finite map.
    pub open spec fn wf(&self) -> bool {
        self.contents().dom().finite()
    }

    /// Relies on `rusqlite::Connection::open` and `execute_batch`: opens or
    /// creates the journal file and ensures the `messages` table and its
    /// indices exist. The file may already hold rows, so the returned model
    /// is a fresh map about which only finiteness is stated.
    #[verifier::external_body]
    fn open_conn(path: &str) -> (r: Result<
        (rusqlite::Connection, Ghost<Map<Seq<char>, (Seq<char>, MemoryMessage)>>),
        rusqlite::Error,
    >)
        ensures
            r matches Ok(p) ==> p.1@.dom().finite(),
    {
        let conn = rusqlite::Connection::open(path)?;
        Self::init_tables(&conn)?;
        Ok((conn, Ghost(Map::empty())))
    }

    /// Relies on `rusqlite::Connection::open_in_memory`: a fresh, empty
    /// journal backed by RAM.
    #[verifier::external_body]
    fn open_conn_in_memory() -> Result<rusqlite::Connection, rusqlite::Error> {
        let conn = rusqlite::Connection::open_in_memory()?;
        Self::init_tables(&conn)?;
        Ok(conn)
    }

    /// Relies on `rusqlite::Connection::execute_batch`: creates the
    /// `messages` table and its three indices if absent.
    #[verifier::external_body]
    fn init_tables(conn: &rusqlite::Connection) -> Result<(), rusqlite::Error> {
        conn.execute_batch(
            "CREATE TABLE IF NOT EXISTS messages (
                id TEXT PRIMARY KEY, platform TEXT NOT NULL, channel_id TEXT NOT NULL,
                user_id TEXT NOT NULL, username TEXT NOT NULL, content TEXT NOT NULL,
                is_mention BOOLEAN DEFAULT 0, is_bot_response BOOLEAN DEFAULT 0,
                reply_to_user TEXT, importance INTEGER DEFAULT 500000,
                created_at TEXT NOT NULL, timestamp INTEGER NOT NULL DEFAULT 0);
            CREATE INDEX IF NOT EXISTS idx_messages_channel ON messages(platform, channel_id);
            CREATE INDEX IF NOT EXISTS idx_messages_time ON messages(created_at DESC);
            CREATE INDEX IF NOT EXISTS idx_messages_importance ON messages(importance DESC);",
        )
    }

    /// Relies on `rusqlite::Connection::execute` with `INSERT OR IGNORE`
    /// into a table whose primary key is the id: a fresh id is appended, a
    /// known id leaves the table untouched, and a failed call changes
    /// nothing.
    #[verifier::external_body]
    fn insert_raw(&mut self, msg: &MemoryMessage) -> (r: Result<(), rusqlite::Error>)
        ensures
            r is Ok ==> final(self).contents() == insert_model(old(self).contents(), *msg),
            r is Err ==> final(self).contents() == old(self).contents(),
            old(self).wf() ==> final(self).wf(),
    {
        let created = chrono::DateTime::<chrono::Utc>::from_timestamp(msg.timestamp, 0)
            .map(|d| d.to_rfc3339())
            .unwrap_or_default();
        self.conn.execute(
            "INSERT OR IGNORE INTO messages (id, platform, channel_id, user_id, username,
                content, is_mention, is_bot_response, reply_to_user, importance, created_at, timestamp)
             VALUES (?1, ?2, ?3, ?4, ?5, ?6, ?7, ?8, ?9, ?10, ?11, ?12)",
            (&msg.id, msg.platform.to_string(), &msg.channel_id, &msg.user_id,
                &msg.username, &msg.content, msg.is_mention, msg.is_bot_response,
                &msg.reply_to_user, msg.importance, created, msg.timestamp),
        )?;
        Ok(())
    }

    /// Relies on `rusqlite::Connection::unchecked_transaction`,
    /// `Transaction::execute` and `Transaction::commit`: the whole batch is
    /// one transaction, so on success every fresh id is appended and on any
    /// failure the rollback (explicit on drop) leaves the table as it was.
    #[verifier::external_body]
    fn insert_batch_raw(&mut self, messages: &Vec<MemoryMessage>) -> (r: Result<
        (),
        rusqlite::Error,
    >)
        ensures
            r is Ok ==> final(self).contents() == batch_model(
                old(self).contents(),
                messages@,
            ),
            r is Err ==> final(self).contents() == old(self).contents(),
            old(self).wf() ==> final(self).wf(),
    {
        let tx = self.conn.unchecked_transaction()?;
        for msg in messages.iter() {
            let created = chrono::DateTime::<chrono::Utc>::from_timestamp(msg.timestamp, 0)
                .map(|d| d.to_rfc3339())
                .unwrap_or_default();
            tx.execute(
                "INSERT OR IGNORE INTO messages (id, platform, channel_id, user_id, username,
                    content, is_mention, is_bot_response, reply_to_user, importance, created_at, timestamp)
                 VALUES (?1, ?2, ?3, ?4, ?5, ?6, ?7, ?8, ?9, ?10, ?11, ?12)",
                (&msg.id, msg.platform.to_string(), &msg.channel_id, &msg.user_id,
                    &msg.username, &msg.content, msg.is_mention, msg.is_bot_response,
                    &msg.reply_to_user, msg.importance, created, msg.timestamp),
            )?;
        }
        tx.commit()?;
        Ok(())
    }

    /// Relies on `rusqlite::Connection::query_row` with `SELECT COUNT(*)`:
    /// the number of rows equals the number of distinct ids kept.
    #[verifier::external_body]
    fn count_raw(&self) -> (r: Result<i64, rusqlite::Error>)
        ensures
            r matches Ok(n) ==> n == self.contents().dom().len(),
    {
        self.conn.query_row("SELECT COUNT(*) FROM messages", (), |row| row.get(0))
    }

    /// Relies on `rusqlite::Statement::query_map` over a `SELECT` filtered
    /// by the platform and channel texts, ordered by the integer
    /// `timestamp` column descending with a `LIMIT`, reversed on return:
    /// the newest rows of the conversation — as many as the limit allows —
    /// with distinct ids, each the faithful read-back of its stored row, in
    /// chronological order, and no row left out is newer than any returned.
    /// A row whose columns cannot be converted back (a foreign or edited
    /// file may hold other column types) fails the whole read, so `Ok`
    /// means every fetched row was read back faithfully.
    #[verifier::external_body]
    fn fetch_recent_raw(&self, platform: &str, channel_id: &str, limit: usize) -> (r:
        Result<Vec<MemoryMessage>, rusqlite::Error>)
        requires
            self.wf(),
        ensures
            r matches Ok(v) ==> {
                let ms = matching_ids(self.contents(), platform@, channel_id@);
                &&& ms.finite()
                &&& v@.len() == (if limit <= ms.len() {
                    limit as nat
                } else {
                    ms.len()
                })
                &&& (forall|i: int|
                    0 <= i < v@.len() ==> ms.contains((#[trigger] v@[i]).id@)
                        && row_matches(v@[i], self.contents()[v@[i].id@]))
                &&& (forall|i: int, j: int|
                    0 <= i < j < v@.len() ==> v@[i].id@ != v@[j].id@)
                &&& (forall|i: int, j: int|
                    0 <= i < j < v@.len() ==> v@[i].timestamp <= v@[j].timestamp)
                &&& (forall|k: Seq<char>, i: int| #![trigger ms.contains(k), v@[i]]
                    ms.contains(k) && (forall|j: int|
                        0 <= j < v@.len() ==> (#[trigger] v@[j]).id@ != k) && 0 <= i
                        < v@.len() ==> self.contents()[k].1.timestamp <= v@[i].timestamp)
            },
    {
        let mut stmt = self.conn.prepare(
            "SELECT id, platform, channel_id, user_id, username, content, is_mention, is_bot_response, importance, timestamp FROM messages WHERE platform = ?1 AND channel_id = ?2 ORDER BY timestamp DESC LIMIT ?3",
        )?;
        let rows = stmt.query_map((platform, channel_id, limit as i64), |row| {
            let name: String = row.get(1)?;
            Ok(MemoryMessage {
                id: row.get(0)?, platform: platform_from_name(&name), channel_id: row.get(2)?,
                user_id: row.get(3)?, username: row.get(4)?, content: row.get(5)?,
                is_mention: row.get(6)?, is_bot_response: row.get(7)?, reply_to_user: None,
                timestamp: row.get(9)?, importance: row.get(8)?,
            })
        })?;
        let mut out: Vec<MemoryMessage> = rows.collect::<Result<Vec<_>, _>>()?;
        out.reverse();
        Ok(out)
    }

    /// Relies on the same functions over a `SELECT` without the
    /// conversation filter: the newest rows across all conversations, with
    /// the same read-back, distinctness, order and completeness guarantees,
    /// and the same failure on any row that cannot be converted back.
    #[verifier::external_body]
    fn fetch_recent_all_raw(&self, limit: usize) -> (r: Result<
        Vec<MemoryMessage>,
        rusqlite::Error,
    >)
        requires
            self.wf(),
        ensures
            r matches Ok(v) ==> {
                let dom = self.contents().dom();
                &&& v@.len() == (if limit <= dom.len() {
                    limit as nat
                } else {
                    dom.len()
                })
                &&& (forall|i: int|
                    0 <= i < v@.len() ==> dom.contains((#[trigger] v@[i]).id@)
                        && row_matches(v@[i], self.contents()[v@[i].id@]))
                &&& (forall|i: int, j: int|
                    0 <= i < j < v@.len() ==> v@[i].id@ != v@[j].id@)
                &&& (forall|i: int, j: int|
                    0 <= i < j < v@.len() ==> v@[i].timestamp <= v@[j].timestamp)
                &&& (forall|k: Seq<char>, i: int| #![trigger dom.contains(k), v@[i]]
                    dom.contains(k) && (forall|j: int|
                        0 <= j < v@.len() ==> (#[trigger] v@[j]).id@ != k) && 0 <= i
                        < v@.len() ==> self.contents()[k].1.timestamp <= v@[i].timestamp)
            },
    {
        let mut stmt = self.conn.prepare(
            "SELECT id, platform, channel_id, user_id, username, content, is_mention, is_bot_response, importance, timestamp FROM messages ORDER BY timestamp DESC LIMIT ?1",
        )?;
        let rows = stmt.query_map((limit as i64,), |row| {
            let name: String = row.get(1)?;
            Ok(MemoryMessage {
                id: row.get(0)?, platform: platform_from_name(&name), channel_id: row.get(2)?,
                user_id: row.get(3)?, username: row.get(4)?, content: row.get(5)?,
                is_mention: row.get(6)?, is_bot_response: row.get(7)?, reply_to_user: None,
                timestamp: row.get(9)?, importance: row.get(8)?,
            })
        })?;
        let mut out: Vec<MemoryMessage> = rows.collect::<Result<Vec<_>, _>>()?;
        out.reverse();
        Ok(out)
    }

    /// Open or create the journal at `path`. The file may already hold
    /// rows, so nothing is known of the contents beyond well-formedness.
    pub fn open(path: &str) -> (r: Result<MemoryStore, JournalError>)
        ensures
            r matches Ok(s) ==> s.wf(),
    {
        match Self::open_conn(path) {
            Ok((conn, contents)) => Ok(MemoryStore { conn, model: contents }),
            Err(_) => Err(JournalError::Storage),
        }
    }

    /// Open an in-memory journal, empty at birth.
    pub fn open_in_memory() -> (r: Result<MemoryStore, JournalError>)
        ensures
            r matches Ok(s) ==> s.wf() && s.contents() =~= Map::<
                Seq<char>,
                (Seq<char>, MemoryMessage),
            >::empty(),
    {
        match Self::open_conn_in_memory() {
            Ok(conn) => Ok(MemoryStore { conn, model: Ghost(Map::empty()) }),
            Err(_) => Err(JournalError::Storage),
        }
    }

    /// Insert one message; a message with a known id is ignored, so the
    /// insert is idempotent by id.
    pub fn insert(&mut self, msg: &MemoryMessage) -> (r: Result<(), JournalError>)
        requires
            old(self).wf(),
        ensures
            final(self).wf(),
            r is Ok ==> final(self).contents() == insert_model(old(self).contents(), *msg),
            r is Err ==> final(self).contents() == old(self).contents(),
    {
        match self.insert_raw(msg) {
            Ok(()) => Ok(()),
            Err(_) => Err(JournalError::Storage),
        }
    }

    /// Insert a batch of messages as one transaction: on success every
    /// fresh id is persisted in order (duplicates ignored), and on failure
    /// nothing of the batch is.
    pub fn insert_batch(&mut self, messages: &Vec<MemoryMessage>) -> (r: Result<
        (),
        JournalError,
    >)
        requires
            old(self).wf(),
        ensures
            final(self).wf(),
            r is Ok ==> final(self).contents() == batch_model(
                old(self).contents(),
                messages@,
            ),
            r is Err ==> final(self).contents() == old(self).contents(),
    {
        match self.insert_batch_raw(messages) {
            Ok(()) => Ok(()),
            Err(_) => Err(JournalError::Storage),
        }
    }

    /// The number of messages kept (distinct ids).
    pub fn message_count(&self) -> (r: Result<i64, JournalError>)
        ensures
            r matches Ok(n) ==> n == self.contents().dom().len(),
    {
        match self.count_raw() {
            Ok(n) => Ok(n),
            Err(_) => Err(JournalError::Storage),
        }
    }

    /// The newest messages of one conversation — as many as the limit
    /// allows — in chronological order; every row left out is no newer than
    /// any returned.
    pub fn get_recent(&self, platform: &str, channel_id: &str, limit: usize) -> (r: Result<
        Vec<MemoryMessage>,
        JournalError,
    >)
        requires
            self.wf(),
        ensures
            r matches Ok(v) ==> {
                let ms = matching_ids(self.contents(), platform@, channel_id@);
                &&& v@.len() == (if limit <= ms.len() {
                    limit as nat
                } else {
                    ms.len()
                })
                &&& (forall|i: int|
                    0 <= i < v@.len() ==> ms.contains((#[trigger] v@[i]).id@)
                        && row_matches(v@[i], self.contents()[v@[i].id@]))
                &&& (forall|i: int, j: int|
                    0 <= i < j < v@.len() ==> v@[i].id@ != v@[j].id@)
                &&& (forall|i: int, j: int|
                    0 <= i < j < v@.len() ==> v@[i].timestamp <= v@[j].timestamp)
                &&& (forall|k: Seq<char>, i: int| #![trigger ms.contains(k), v@[i]]
                    ms.contains(k) && (forall|j: int|
                        0 <= j < v@.len() ==> (#[trigger] v@[j]).id@ != k) && 0 <= i
                        < v@.len() ==> self.contents()[k].1.timestamp <= v@[i].timestamp)
            },
    {
        match self.fetch_recent_raw(platform, channel_id, limit) {
            Ok(v) => Ok(v),
            Err(_) => Err(JournalError::Storage),
        }
    }

    /// The newest messages across all conversations, chronologically; used
    /// to replenish short-term memory on startup.
    pub fn get_recent_all(&self, limit: usize) -> (r: Result<Vec<MemoryMessage>, JournalError>)
        requires
            self.wf(),
        ensures
            r matches Ok(v) ==> {
                &&& v@.len() == (if limit <= self.contents().dom().len() {
                    limit as nat
                } else {
                    self.contents().dom().len()
                })
                &&& (forall|i: int|
                    0 <= i < v@.len() ==> self.contents().dom().contains(
                        (#[trigger] v@[i]).id@,
                    ) && row_matches(v@[i], self.contents()[v@[i].id@]))
                &&& (forall|i: int, j: int|
                    0 <= i < j < v@.len() ==> v@[i].timestamp <= v@[j].timestamp)
            },
    {
        match self.fetch_recent_all_raw(limit) {
            Ok(v) => Ok(v),
            Err(_) => Err(JournalError::Storage),
        }
    }
}

} // verus!
