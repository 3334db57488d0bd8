//! The semantic compressor's verifiable half: code-fence stripping, diary
//! extraction from the model's JSON reply, the retry/backoff schedule, and
//! the rule deciding whether an expired session is ingested at all.
//!
//! The HTTP call itself is made outside; this module turns its textual
//! result into an ingestion plan.

use vstd::prelude::*;
use crate::text::{trim_spec, trim_chars, str_to_chars, string_from_chars, chars_slice};
use crate::types::MemoryMessage;
use crate::numfmt::{dec_rep, int_rep};
use crate::episodic::EpisodicEvent;

verus! {

/// Sessions shorter than this are never ingested.
pub const MIN_SESSION_MESSAGES: usize = 3;

/// The fixed baseline importance of a diary entry: 7.0 in micro-units.
pub const DIARY_IMPORTANCE: i64 = 7_000_000;

/// A compressed session: the diary text and its importance.
#[derive(Debug, Clone)]
pub struct CompressionResult {
    pub fact: String,
    /// Importance in micro-units, within (0, 10].
    pub importance: i64,
}

/// `s` with every leading repetition of `pat` removed.
pub open spec fn strip_prefix_all(s: Seq<char>, pat: Seq<char>) -> Seq<char>
    decreases s.len(),
{
    if pat.len() > 0 && s.len() >= pat.len() && s.subrange(0, pat.len() as int) == pat {
        strip_prefix_all(s.skip(pat.len() as int), pat)
    } else {
        s
    }
}

/// `s` with every trailing repetition of `pat` removed.
pub open spec fn strip_suffix_all(s: Seq<char>, pat: Seq<char>) -> Seq<char>
    decreases s.len(),
{
    if pat.len() > 0 && s.len() >= pat.len() && s.subrange(
        s.len() - pat.len(),
        s.len() as int,
    ) == pat {
        strip_suffix_all(s.take(s.len() - pat.len()), pat)
    } else {
        s
    }
}

/// The model reply with markdown code fences removed: trim, drop leading
/// ```` ```json ```` and ```` ``` ```` markers and trailing ```` ``` ````
/// markers, trim again.
pub open spec fn defenced(s: Seq<char>) -> Seq<char> {
    trim_spec(
        strip_suffix_all(
            strip_prefix_all(strip_prefix_all(trim_spec(s), "```json"@), "```"@),
            "```"@,
        ),
    )
}

fn has_prefix(v: &Vec<char>, pat: &Vec<char>) -> (r: bool)
    ensures
        r == (pat@.len() > 0 && v@.len() >= pat@.len() && v@.subrange(
            0,
            pat@.len() as int,
        ) == pat@),
{
    let m = pat.len();
    if m == 0 || v.len() < m {
        return false;
    }
    let mut i: usize = 0;
    while i < m
        invariant
            i <= m,
            m == pat@.len(),
            v@.len() >= m,
            forall|k: int| 0 <= k < i ==> v@[k] == pat@[k],
        decreases m - i,
    {
        if v[i] != pat[i] {
            proof {
                assert(v@.subrange(0, m as int)[i as int] == v@[i as int]);
            }
            return false;
        }
        i = i + 1;
    }
    proof {
        assert(v@.subrange(0, m as int) =~= pat@);
    }
    true
}

fn has_suffix(v: &Vec<char>, pat: &Vec<char>) -> (r: bool)
    ensures
        r == (pat@.len() > 0 && v@.len() >= pat@.len() && v@.subrange(
            v@.len() - pat@.len(),
            v@.len() as int,
        ) == pat@),
{
    let m = pat.len();
    let n = v.len();
    if m == 0 || n < m {
        return false;
    }
    let mut i: usize = 0;
    while i < m
        invariant
            i <= m,
            m == pat@.len(),
            n == v@.len(),
            n >= m,
            forall|k: int| 0 <= k < i ==> v@[n - m + k] == pat@[k],
        decreases m - i,
    {
        if v[n - m + i] != pat[i] {
            proof {
                assert(v@.subrange(n - m, n as int)[i as int] == v@[n - m + i]);
            }
            return false;
        }
        i = i + 1;
    }
    proof {
        assert(v@.subrange(n - m, n as int) =~= pat@);
    }
    true
}

fn strip_prefix_loop(v: Vec<char>, pat: &Vec<char>) -> (r: Vec<char>)
    ensures
        r@ == strip_prefix_all(v@, pat@),
{
    let ghost orig = v@;
    let mut cur = v;
    let mut go = has_prefix(&cur, pat);
    while go
        invariant
            strip_prefix_all(cur@, pat@) == strip_prefix_all(orig, pat@),
            go == (pat@.len() > 0 && cur@.len() >= pat@.len() && cur@.subrange(
                0,
                pat@.len() as int,
            ) == pat@),
        decreases cur@.len(),
    {
        let ghost before = cur@;
        cur = chars_slice(&cur, pat.len(), cur.len());
        proof {
            assert(cur@ =~= before.skip(pat@.len() as int));
            assert(strip_prefix_all(before, pat@) == strip_prefix_all(cur@, pat@));
        }
        go = has_prefix(&cur, pat);
    }
    cur
}

fn strip_suffix_loop(v: Vec<char>, pat: &Vec<char>) -> (r: Vec<char>)
    ensures
        r@ == strip_suffix_all(v@, pat@),
{
    let ghost orig = v@;
    let mut cur = v;
    let mut go = has_suffix(&cur, pat);
    while go
        invariant
            strip_suffix_all(cur@, pat@) == strip_suffix_all(orig, pat@),
            go == (pat@.len() > 0 && cur@.len() >= pat@.len() && cur@.subrange(
                cur@.len() - pat@.len(),
                cur@.len() as int,
            ) == pat@),
        decreases cur@.len(),
    {
        let ghost before = cur@;
        cur = chars_slice(&cur, 0, cur.len() - pat.len());
        proof {
            assert(cur@ =~= before.take(before.len() - pat@.len()));
            assert(strip_suffix_all(before, pat@) == strip_suffix_all(cur@, pat@));
        }
        go = has_suffix(&cur, pat);
    }
    cur
}

/// Strip markdown code fences from a model reply.
pub fn strip_code_fences(content: &str) -> (r: String)
    ensures
        r@ == defenced(content@),
{
    let chars = str_to_chars(content);
    let trimmed = trim_chars(&chars);
    let fence_json = str_to_chars("```json");
    let fence = str_to_chars("```");
    let s1 = strip_prefix_loop(trimmed, &fence_json);
    let s2 = strip_prefix_loop(s1, &fence);
    let s3 = strip_suffix_loop(s2, &fence);
    let out = trim_chars(&s3);
    string_from_chars(&out)
}

/// The name of what the diary extractor returns: the string at the
/// `diary_entry` field of the reply, when the reply is JSON of that shape.
/// It depends on the reply text alone.
pub uninterp spec fn diary_entry_of(s: Seq<char>) -> Option<Seq<char>>;

/// Relies on `serde_json::from_str` and `serde_json::Value`'s `get` /
/// `as_str` accessors: the `diary_entry` string of the reply, or `None`
/// when the reply does not parse or has no such field.
#[verifier::external_body]
fn extract_diary_field(data: &str) -> (r: Option<String>)
    ensures
        r is Some <==> diary_entry_of(data@) is Some,
        r matches Some(s) ==> (diary_entry_of(data@) matches Some(v) && s@ == v),
{
    let parsed: serde_json::Value = serde_json::from_str(data).ok()?;
    let fact = parsed.get("diary_entry")?.as_str()?;
    Some(fact.to_string())
}

/// Parse a compressor reply: strip fences, read the diary entry, and keep
/// it only when non-empty, at the fixed baseline importance.
pub fn parse_compression(content: &str) -> (r: Option<CompressionResult>)
    ensures
        match r {
            Some(c) => {
                &&& diary_entry_of(defenced(content@)) matches Some(f) && f == c.fact@
                    && f.len() > 0
                &&& c.importance == DIARY_IMPORTANCE
            },
            None => match diary_entry_of(defenced(content@)) {
                Some(f) => f.len() == 0,
                None => true,
            },
        },
{
    let cleaned = strip_code_fences(content);
    match extract_diary_field(cleaned.as_str()) {
        Some(fact) => {
            if fact.as_str().unicode_len() > 0 {
                Some(CompressionResult { fact, importance: DIARY_IMPORTANCE })
            } else {
                None
            }
        },
        None => None,
    }
}

/// `s` with backslashes and double quotes escaped for a JSON string.
pub open spec fn json_escaped(s: Seq<char>) -> Seq<char>
    decreases s.len(),
{
    if s.len() == 0 {
        Seq::empty()
    } else {
        let head: Seq<char> = if s[0] == '"' || s[0] == '\\' {
            seq!['\\', s[0]]
        } else {
            seq![s[0]]
        };
        head + json_escaped(s.drop_first())
    }
}

fn json_escape(s: &str) -> (r: Vec<char>)
    ensures
        r@ == json_escaped(s@),
{
    let chars = str_to_chars(s);
    let n = chars.len();
    let mut out: Vec<char> = Vec::new();
    proof {
        assert(chars@.skip(0) =~= chars@);
        assert(Seq::<char>::empty() + json_escaped(chars@) =~= json_escaped(chars@));
    }
    let mut i: usize = 0;
    while i < n
        invariant
            i <= n,
            n == chars@.len(),
            chars@ == s@,
            out@ + json_escaped(chars@.skip(i as int)) == json_escaped(chars@),
        decreases n - i,
    {
        let ghost rest = chars@.skip(i as int);
        proof {
            assert(rest[0] == chars@[i as int]);
            assert(rest.drop_first() =~= chars@.skip(i + 1));
        }
        let c = chars[i];
        let ghost pre = out@;
        if c == '"' || c == '\\' {
            out.push('\\');
            out.push(c);
            proof {
                assert(out@ =~= pre + seq!['\\', c]);
                assert((pre + seq!['\\', c]) + json_escaped(chars@.skip(i + 1)) =~= pre
                    + (seq!['\\', c] + json_escaped(chars@.skip(i + 1))));
            }
        } else {
            out.push(c);
            proof {
                assert(out@ =~= pre + seq![c]);
                assert((pre + seq![c]) + json_escaped(chars@.skip(i + 1)) =~= pre + (seq![
                    c,
                ] + json_escaped(chars@.skip(i + 1))));
            }
        }
        i = i + 1;
    }
    proof {
        assert(chars@.skip(n as int) =~= Seq::<char>::empty());
        assert(json_escaped(Seq::<char>::empty()) =~= Seq::<char>::empty());
        assert(out@ + Seq::<char>::empty() =~= out@);
    }
    out
}

/// The metadata JSON recorded with a diary entry: the first non-bot
/// speaker, the message count, and the first message's timestamp.
pub open spec fn metadata_rep(username: Seq<char>, count: nat, first_ts: int) -> Seq<char> {
    "{\"username\":\""@ + json_escaped(username) + "\",\"message_count\":"@ + dec_rep(
        count,
    ) + ",\"first_message_timestamp\":"@ + int_rep(first_ts) + "}"@
}

/// Build the metadata JSON string for a diary entry.
pub fn build_metadata(username: &str, count: usize, first_ts: i64) -> (r: String)
    requires
        first_ts != i64::MIN,
    ensures
        r@ == metadata_rep(username@, count as nat, first_ts as int),
{
    let mut s = String::from_str("{\"username\":\"");
    let escaped = json_escape(username);
    let escaped_s = string_from_chars(&escaped);
    s.append(escaped_s.as_str());
    s.append("\",\"message_count\":");
    let count_s = crate::numfmt::u64_to_string(count as u64);
    s.append(count_s.as_str());
    s.append(",\"first_message_timestamp\":");
    let ts_s = crate::numfmt::i64_to_string(first_ts);
    s.append(ts_s.as_str());
    s.append("}");
    s
}

/// The index of the first message not sent by the agent, or the length if
/// every message is a bot turn.
pub open spec fn first_non_bot(msgs: Seq<MemoryMessage>, i: int) -> int
    decreases msgs.len() - i,
{
    if i < 0 || i >= msgs.len() {
        msgs.len() as int
    } else if !msgs[i].is_bot_response {
        i
    } else {
        first_non_bot(msgs, i + 1)
    }
}

/// The name recorded as the session's speaker: the first non-bot sender,
/// or `unknown` when there is none.
pub open spec fn speaker_of(msgs: Seq<MemoryMessage>) -> Seq<char> {
    if first_non_bot(msgs, 0) < msgs.len() {
        msgs[first_non_bot(msgs, 0)].username@
    } else {
        "unknown"@
    }
}

fn find_speaker(messages: &Vec<MemoryMessage>) -> (r: String)
    ensures
        r@ == speaker_of(messages@),
{
    let n = messages.len();
    let mut i: usize = 0;
    while i < n
        invariant
            i <= n,
            n == messages@.len(),
            first_non_bot(messages@, 0) == first_non_bot(messages@, i as int),
        decreases n - i,
    {
        if !messages[i].is_bot_response {
            return messages[i].username.clone();
        }
        i = i + 1;
    }
    String::from_str("unknown")
}

/// Decide whether an expired session is ingested, and with what.
///
/// A session of fewer than three messages is never ingested; otherwise the
/// diary text becomes one episodic event stamped with the last message's
/// time and metadata naming the first non-bot speaker, the message count,
/// and the first message's time.
pub fn plan_ingestion(
    messages: &Vec<MemoryMessage>,
    compression: &CompressionResult,
    session_id: String,
) -> (r: Option<EpisodicEvent>)
    requires
        forall|i: int|
            0 <= i < messages@.len() ==> (#[trigger] messages@[i]).timestamp
                != i64::MIN,
        0 < compression.importance <= 10_000_000,
    ensures
        messages@.len() < MIN_SESSION_MESSAGES ==> r is None,
        messages@.len() >= MIN_SESSION_MESSAGES ==> match r {
            Some(ev) => {
                &&& ev.id@ == session_id@
                &&& ev.content@ == compression.fact@
                &&& ev.timestamp == messages@.last().timestamp
                &&& ev.importance == compression.importance
                &&& ev.metadata@ == metadata_rep(
                    speaker_of(messages@),
                    messages@.len(),
                    messages@[0].timestamp as int,
                )
                &&& ev.wf()
            },
            None => false,
        },
{
    if messages.len() < MIN_SESSION_MESSAGES {
        return None;
    }
    let speaker = find_speaker(messages);
    let first_ts = messages[0].timestamp;
    let last_ts = messages[messages.len() - 1].timestamp;
    let metadata = build_metadata(speaker.as_str(), messages.len(), first_ts);
    Some(
        EpisodicEvent {
            id: session_id,
            content: compression.fact.clone(),
            timestamp: last_ts,
            importance: compression.importance,
            metadata,
        },
    )
}

/// Powers of two, for the retry backoff.
pub open spec fn pow2(n: nat) -> nat
    decreases n,
{
    if n == 0 {
        1
    } else {
        2 * pow2((n - 1) as nat)
    }
}

/// The compressor gives up after this many attempts.
pub const MAX_ATTEMPTS: u32 = 3;

/// The exponential backoff before retry `attempt`: two to the power of the
/// attempt number, in seconds.
pub fn backoff_secs(attempt: u32) -> (r: u64)
    requires
        attempt <= MAX_ATTEMPTS,
    ensures
        r == pow2(attempt as nat),
{
    proof {
        assert(pow2(0) == 1);
        assert(pow2(1) == 2);
        assert(pow2(2) == 4);
        assert(pow2(3) == 8);
    }
    let mut r: u64 = 1;
    let mut k: u32 = 0;
    while k < attempt
        invariant
            k <= attempt <= 3,
            r == pow2(k as nat),
            r <= 8,
        decreases attempt - k,
    {
        r = r * 2;
        k = k + 1;
        proof {
            assert(pow2(k as nat) == 2 * pow2((k - 1) as nat));
            assert(pow2(0) == 1);
            assert(pow2(1) == 2);
            assert(pow2(2) == 4);
            assert(pow2(3) == 8);
        }
    }
    r
}


/// One transcript line: `[<speaker>]: <content>`, where the agent's own
/// turns speak as `Ryuuko`.
pub open spec fn transcript_line(m: MemoryMessage) -> Seq<char> {
    "["@ + (if m.is_bot_response {
        "Ryuuko"@
    } else {
        m.username@
    }) + "]: "@ + m.content@
}

/// The chat-log document handed to the compressor: the transcript lines
/// joined with newlines.
pub open spec fn transcript_rep(msgs: Seq<MemoryMessage>) -> Seq<char>
    decreases msgs.len(),
{
    if msgs.len() == 0 {
        Seq::empty()
    } else if msgs.len() == 1 {
        transcript_line(msgs[0])
    } else {
        transcript_rep(msgs.drop_last()) + "\n"@ + transcript_line(msgs.last())
    }
}

/// Format a session's messages as the chat-log document the compressor is
/// asked to summarize.
pub fn format_transcript(messages: &Vec<MemoryMessage>) -> (r: String)
    ensures
        r@ == transcript_rep(messages@),
{
    let n = messages.len();
    let mut s = String::new();
    let mut i: usize = 0;
    while i < n
        invariant
            i <= n,
            n == messages@.len(),
            s@ == transcript_rep(messages@.subrange(0, i as int)),
        decreases n - i,
    {
        if i > 0 {
            s.append("\n");
        }
        s.append("[");
        if messages[i].is_bot_response {
            s.append("Ryuuko");
        } else {
            s.append(messages[i].username.as_str());
        }
        s.append("]: ");
        s.append(messages[i].content.as_str());
        proof {
            let cur = messages@.subrange(0, i + 1);
            assert(cur.drop_last() =~= messages@.subrange(0, i as int));
            assert(cur.last() == messages@[i as int]);
            if i == 0 {
                assert(cur.len() == 1);
                assert(s@ =~= transcript_line(cur[0]));
            } else {
                assert(s@ =~= transcript_rep(cur.drop_last()) + "\n"@
                    + transcript_line(cur.last()));
            }
        }
        i = i + 1;
    }
    proof {
        assert(messages@.subrange(0, n as int) =~= messages@);
    }
    s
}

/// One line of the evaluator's abbreviated log: assistant turns speak as
/// `Ryuuko`, user turns under their name.
pub open spec fn log_line(role: Seq<char>, name: Seq<char>, content: Seq<char>) -> Seq<
    char,
> {
    (if role == "assistant"@ {
        "Ryuuko"@
    } else {
        name
    }) + ": "@ + content + "\n"@
}

/// The lines of the listed history triples, in order.
pub open spec fn log_lines(hist: Seq<(Seq<char>, Seq<char>, Seq<char>)>) -> Seq<char>
    decreases hist.len(),
{
    if hist.len() == 0 {
        Seq::empty()
    } else {
        log_lines(hist.drop_last()) + log_line(
            hist.last().0,
            hist.last().1,
            hist.last().2,
        )
    }
}

/// The evaluator's log: the last `take_last` history turns, then the
/// current message under the current user's name.
pub open spec fn recent_log_rep(
    hist: Seq<(Seq<char>, Seq<char>, Seq<char>)>,
    take_last: nat,
    current_user: Seq<char>,
    current_msg: Seq<char>,
) -> Seq<char> {
    let start = if hist.len() <= take_last {
        0
    } else {
        hist.len() - take_last
    };
    log_lines(hist.skip(start as int)) + log_line("user"@, current_user, current_msg)
}

/// Format the evaluator's abbreviated conversation log.
pub fn format_recent_log(
    history: &Vec<(String, String, String)>,
    take_last: usize,
    current_user: &str,
    current_msg: &str,
) -> (r: String)
    ensures
        r@ == recent_log_rep(
            history@.map_values(
                |t: (String, String, String)| (t.0@, t.1@, t.2@),
            ),
            take_last as nat,
            current_user@,
            current_msg@,
        ),
{
    let ghost hv = history@.map_values(|t: (String, String, String)| (t.0@, t.1@, t.2@));
    let n = history.len();
    let start = if n <= take_last {
        0
    } else {
        n - take_last
    };
    let mut s = String::new();
    let mut i: usize = start;
    proof {
        assert(hv.skip(start as int).subrange(0, 0) =~= Seq::<
            (Seq<char>, Seq<char>, Seq<char>),
        >::empty());
    }
    while i < n
        invariant
            start <= i <= n,
            n == history@.len(),
            hv == history@.map_values(|t: (String, String, String)| (t.0@, t.1@, t.2@)),
            start == (if hv.len() <= take_last {
                0int
            } else {
                hv.len() - take_last
            }),
            s@ == log_lines(hv.skip(start as int).subrange(0, i - start)),
        decreases n - i,
    {
        if crate::text::str_eq(history[i].0.as_str(), "assistant") {
            s.append("Ryuuko");
        } else {
            s.append(history[i].1.as_str());
        }
        s.append(": ");
        s.append(history[i].2.as_str());
        s.append("\n");
        proof {
            let tail = hv.skip(start as int);
            let cur = tail.subrange(0, i + 1 - start);
            assert(cur.drop_last() =~= tail.subrange(0, i - start));
            assert(cur.last() == hv[i as int]);
            assert(s@ =~= log_lines(cur.drop_last()) + log_line(
                hv[i as int].0,
                hv[i as int].1,
                hv[i as int].2,
            ));
        }
        i = i + 1;
    }
    proof {
        assert(hv.skip(start as int).subrange(0, n - start) =~= hv.skip(start as int));
    }
    s.append(current_user);
    s.append(": ");
    s.append(current_msg);
    s.append("\n");
    proof {
        reveal_strlit("user");
        reveal_strlit("assistant");
        assert("user"@ != "assistant"@) by {
            assert("user"@.len() == 4);
            assert("assistant"@.len() == 9);
        }
        assert(log_line("user"@, current_user@, current_msg@) =~= current_user@ + ": "@
            + current_msg@ + "\n"@);
    }
    s
}

} // verus!
