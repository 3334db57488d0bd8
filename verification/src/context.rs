//! The context builder: the prompt sections handed to the responder and the
//! evaluator — recalled memories, the social state with its derived context
//! depth, and the current time with a note on the conversation so far.
//!
//! Everything here is plain text assembly over values the callers pass in;
//! the stores and the embedder are queried outside and their results arrive
//! as arguments.

use vstd::prelude::*;
use crate::event::UNIT;
use crate::graph::{AttitudesTowards, IllusionOf};
use crate::numfmt::{micro_rep, micro_to_string};

verus! {

/// The ceiling of the memory hint: 0.15 in micro-units.
pub const MEMORY_HINT_CAP: i64 = 150_000;

/// The memory hint per stored chunk: one two-hundredth, in micro-units.
pub const MEMORY_HINT_PER_CHUNK: i64 = 5_000;

/// The absolute value of a micro-unit quantity.
pub open spec fn abs_spec(v: int) -> int {
    if v < 0 {
        -v
    } else {
        v
    }
}

/// The derived context depth: the mean absolute weight of the four positive
/// social axes, plus a small hint from the number of stored memories
/// (capped at 0.15), the sum capped at one.
pub open spec fn context_depth_spec(att: AttitudesTowards, chunk_count: nat) -> int {
    let graph_depth = (abs_spec(att.affinity as int) + abs_spec(att.attachment as int)
        + abs_spec(att.trust as int) + abs_spec(att.safety as int)) / 4;
    let hint = if chunk_count * MEMORY_HINT_PER_CHUNK < MEMORY_HINT_CAP {
        (chunk_count * MEMORY_HINT_PER_CHUNK) as int
    } else {
        MEMORY_HINT_CAP as int
    };
    if graph_depth + hint < UNIT {
        graph_depth + hint
    } else {
        UNIT as int
    }
}

/// Compute the context depth from the decayed attitudes and the number of
/// stored memory chunks for the user.
pub fn context_depth(att: &AttitudesTowards, chunk_count: usize) -> (r: i64)
    requires
        -UNIT <= att.affinity <= UNIT,
        -UNIT <= att.attachment <= UNIT,
        -UNIT <= att.trust <= UNIT,
        -UNIT <= att.safety <= UNIT,
    ensures
        r == context_depth_spec(*att, chunk_count as nat),
        0 <= r <= UNIT,
{
    let a = if att.affinity < 0 {
        -att.affinity
    } else {
        att.affinity
    };
    let b = if att.attachment < 0 {
        -att.attachment
    } else {
        att.attachment
    };
    let c = if att.trust < 0 {
        -att.trust
    } else {
        att.trust
    };
    let d = if att.safety < 0 {
        -att.safety
    } else {
        att.safety
    };
    let graph_depth = (a + b + c + d) / 4;
    let hint: i64 = if chunk_count >= 30 {
        MEMORY_HINT_CAP
    } else {
        let h = (chunk_count as i64) * MEMORY_HINT_PER_CHUNK;
        if h < MEMORY_HINT_CAP {
            h
        } else {
            MEMORY_HINT_CAP
        }
    };
    proof {
        assert(hint == (if (chunk_count as nat) * MEMORY_HINT_PER_CHUNK
            < MEMORY_HINT_CAP {
            ((chunk_count as nat) * MEMORY_HINT_PER_CHUNK) as int
        } else {
            MEMORY_HINT_CAP as int
        })) by (nonlinear_arith)
            requires
                hint == (if chunk_count >= 30 {
                    MEMORY_HINT_CAP as int
                } else if (chunk_count as int) * MEMORY_HINT_PER_CHUNK
                    < MEMORY_HINT_CAP {
                    (chunk_count as int) * MEMORY_HINT_PER_CHUNK
                } else {
                    MEMORY_HINT_CAP as int
                }),
        ;
    }
    let sum = graph_depth + hint;
    if sum < UNIT {
        sum
    } else {
        UNIT
    }
}

/// The name of what the clock formatter returns: the `%d/%m/%Y %H:%M:%S`
/// rendering of an epoch second in a fixed offset given in seconds. It
/// depends on the two arguments alone.
pub uninterp spec fn datetime_rep(secs: int, offset_seconds: int) -> Seq<char>;

/// Relies on `chrono::DateTime::from_timestamp`, `FixedOffset::east_opt`
/// and `format`: the wall-clock rendering `%d/%m/%Y %H:%M:%S` of the given
/// epoch second shifted by the given offset. An unrepresentable timestamp
/// or offset renders as the empty string.
#[verifier::external_body]
fn format_datetime_offset(secs: i64, offset_seconds: i32) -> (r: String)
    requires
        -86_400 <= offset_seconds <= 86_400,
    ensures
        r@ == datetime_rep(secs as int, offset_seconds as int),
{
    let shifted = chrono::DateTime::from_timestamp(secs, 0)
        .zip(chrono::FixedOffset::east_opt(offset_seconds))
        .map(|(utc, tz)| utc.with_timezone(&tz).format("%d/%m/%Y %H:%M:%S").to_string());
    shifted.unwrap_or_default()
}

/// Render an epoch second in a fixed whole-hour offset, as the `[NOW]`
/// prompt line shows times.
pub fn format_datetime(secs: i64, offset_hours: i32) -> (r: String)
    requires
        -24 <= offset_hours <= 24,
    ensures
        r@ == datetime_rep(secs as int, offset_hours as int * 3600),
{
    format_datetime_offset(secs, offset_hours * 3600)
}

/// One recalled memory line: `- [Vào <datetime>]: <content>`, ended by a
/// newline.
pub open spec fn memory_line(stamp: Seq<char>, content: Seq<char>) -> Seq<char> {
    "- [Vào "@ + stamp + "]: "@ + content + "\n"@
}

/// The recalled-memory lines of the listed hits, in order.
pub open spec fn memory_lines(hits: Seq<(Seq<char>, Seq<char>)>) -> Seq<char>
    decreases hits.len(),
{
    if hits.len() == 0 {
        Seq::empty()
    } else {
        memory_lines(hits.drop_last()) + memory_line(
            hits.last().0,
            hits.last().1,
        )
    }
}

/// The header of the recalled-memory section.
pub open spec fn memory_header() -> Seq<char> {
    "### TỰ SUY NGHĨ (KÝ ỨC CŨ): Những thông tin sau có thể liên quan đến ngữ cảnh cuộc trò chuyện. Hãy linh hoạt sử dụng nếu thấy cần thiết (KHÔNG nhắc lại nguyên văn):\n"@
}

/// Format the recalled-memory section from `(formatted timestamp, content)`
/// pairs; with no hits there is no section.
pub fn memory_section(hits: &Vec<(String, String)>) -> (r: Option<String>)
    ensures
        hits@.len() == 0 <==> r is None,
        r matches Some(text) ==> text@ == memory_header() + memory_lines(
            hits@.map_values(|h: (String, String)| (h.0@, h.1@)),
        ),
{
    if hits.len() == 0 {
        return None;
    }
    let ghost hv = hits@.map_values(|h: (String, String)| (h.0@, h.1@));
    let mut text = String::from_str(
        "### TỰ SUY NGHĨ (KÝ ỨC CŨ): Những thông tin sau có thể liên quan đến ngữ cảnh cuộc trò chuyện. Hãy linh hoạt sử dụng nếu thấy cần thiết (KHÔNG nhắc lại nguyên văn):\n",
    );
    let n = hits.len();
    let mut i: usize = 0;
    while i < n
        invariant
            i <= n,
            n == hits@.len(),
            hv == hits@.map_values(|h: (String, String)| (h.0@, h.1@)),
            text@ == memory_header() + memory_lines(hv.subrange(0, i as int)),
        decreases n - i,
    {
        text.append("- [Vào ");
        text.append(hits[i].0.as_str());
        text.append("]: ");
        text.append(hits[i].1.as_str());
        text.append("\n");
        proof {
            assert(hv.subrange(0, i + 1).drop_last() =~= hv.subrange(0, i as int));
            assert(hv.subrange(0, i + 1).last() == hv[i as int]);
            assert(text@ =~= memory_header() + memory_lines(hv.subrange(0, i + 1)));
        }
        i = i + 1;
    }
    proof {
        assert(hv.subrange(0, n as int) =~= hv);
    }
    Some(text)
}

/// The social section: the five decayed attitude axes, the context depth,
/// and the projected illusion, each value with six decimal places.
pub open spec fn social_rep(
    username: Seq<char>,
    att: AttitudesTowards,
    ill: IllusionOf,
    depth: int,
) -> Seq<char> {
    "### TRẠNG THÁI CẢM XÚC, QUAN HỆ & BỐI CẢNH VỚI "@ + username + ":\n"@
        + "- Mức độ Hảo cảm (Affinity): "@ + micro_rep(att.affinity as int)
        + " (-1 ghét tởm, 1 yêu quý)\n"@ + "- Độ thân thiết/Bám dính (Attachment): "@
        + micro_rep(att.attachment as int) + " (-1 né tránh, 1 bám lấy)\n"@
        + "- Niềm tin (Trust): "@ + micro_rep(att.trust as int)
        + " (-1 nghi ngờ, 1 tin tưởng tuyệt đối)\n"@
        + "- Cảm giác An toàn (Safety): "@ + micro_rep(att.safety as int)
        + " (-1 sợ hãi/deft, 1 an tâm)\n"@ + "- Độ căng thẳng (Tension): "@
        + micro_rep(att.tension as int) + " (0 thoải mái, 1 áp lực/tức giận)\n"@
        + "- Độ sâu Bối cảnh (Context Depth): "@ + micro_rep(depth)
        + " (0.0 người lạ mới quen, 1.0 bạn tâm giao lâu năm)\n\n"@
        + "Lưu ý: Bạn (Ryuuko) đang có ảo tưởng rằng "@ + username
        + " cảm nhận về bạn như sau:\n"@ + "- Họ thích/ghét bạn (Affinity): "@
        + micro_rep(ill.affinity as int) + " | Thân thiết (Attachment): "@ + micro_rep(
        ill.attachment as int,
    ) + " | Tin tưởng (Trust): "@ + micro_rep(ill.trust as int) + " | An toàn (Safety): "@
        + micro_rep(ill.safety as int) + " | Căng thẳng (Tension): "@ + micro_rep(
        ill.tension as int,
    ) + "\n"@
}

/// Format the social section for the prompt.
pub fn social_section(
    username: &str,
    att: &AttitudesTowards,
    ill: &IllusionOf,
    depth: i64,
) -> (r: String)
    requires
        att.affinity != i64::MIN,
        att.attachment != i64::MIN,
        att.trust != i64::MIN,
        att.safety != i64::MIN,
        att.tension != i64::MIN,
        ill.affinity != i64::MIN,
        ill.attachment != i64::MIN,
        ill.trust != i64::MIN,
        ill.safety != i64::MIN,
        ill.tension != i64::MIN,
        depth != i64::MIN,
    ensures
        r@ == social_rep(username@, *att, *ill, depth as int),
{
    let mut s = String::from_str("### TRẠNG THÁI CẢM XÚC, QUAN HỆ & BỐI CẢNH VỚI ");
    s.append(username);
    s.append(":\n");
    s.append("- Mức độ Hảo cảm (Affinity): ");
    let v = micro_to_string(att.affinity);
    s.append(v.as_str());
    s.append(" (-1 ghét tởm, 1 yêu quý)\n");
    s.append("- Độ thân thiết/Bám dính (Attachment): ");
    let v = micro_to_string(att.attachment);
    s.append(v.as_str());
    s.append(" (-1 né tránh, 1 bám lấy)\n");
    s.append("- Niềm tin (Trust): ");
    let v = micro_to_string(att.trust);
    s.append(v.as_str());
    s.append(" (-1 nghi ngờ, 1 tin tưởng tuyệt đối)\n");
    s.append("- Cảm giác An toàn (Safety): ");
    let v = micro_to_string(att.safety);
    s.append(v.as_str());
    s.append(" (-1 sợ hãi/deft, 1 an tâm)\n");
    s.append("- Độ căng thẳng (Tension): ");
    let v = micro_to_string(att.tension);
    s.append(v.as_str());
    s.append(" (0 thoải mái, 1 áp lực/tức giận)\n");
    s.append("- Độ sâu Bối cảnh (Context Depth): ");
    let v = micro_to_string(depth);
    s.append(v.as_str());
    s.append(" (0.0 người lạ mới quen, 1.0 bạn tâm giao lâu năm)\n\n");
    s.append("Lưu ý: Bạn (Ryuuko) đang có ảo tưởng rằng ");
    s.append(username);
    s.append(" cảm nhận về bạn như sau:\n");
    s.append("- Họ thích/ghét bạn (Affinity): ");
    let v = micro_to_string(ill.affinity);
    s.append(v.as_str());
    s.append(" | Thân thiết (Attachment): ");
    let v = micro_to_string(ill.attachment);
    s.append(v.as_str());
    s.append(" | Tin tưởng (Trust): ");
    let v = micro_to_string(ill.trust);
    s.append(v.as_str());
    s.append(" | An toàn (Safety): ");
    let v = micro_to_string(ill.safety);
    s.append(v.as_str());
    s.append(" | Căng thẳng (Tension): ");
    let v = micro_to_string(ill.tension);
    s.append(v.as_str());
    s.append("\n");
    s
}

/// The search text for the episodic lookup: the last two history contents
/// joined by ` | `, then the new message, or just the new message when
/// there is no history.
pub open spec fn search_query_rep(recent: Seq<Seq<char>>, new_message: Seq<char>) -> Seq<
    char,
> {
    if recent.len() == 0 {
        new_message
    } else if recent.len() == 1 {
        recent[0] + " | "@ + new_message
    } else {
        recent[recent.len() - 2] + " | "@ + recent[recent.len() - 1] + " | "@
            + new_message
    }
}

/// Assemble the episodic search query from the history contents (oldest
/// first) and the new message.
pub fn search_query(history_contents: &Vec<String>, new_message: &str) -> (r: String)
    ensures
        r@ == search_query_rep(
            history_contents@.map_values(|s: String| s@),
            new_message@,
        ),
{
    let n = history_contents.len();
    if n == 0 {
        let mut s = String::new();
        s.append(new_message);
        return s;
    }
    let mut s = String::new();
    if n >= 2 {
        s.append(history_contents[n - 2].as_str());
        s.append(" | ");
    }
    s.append(history_contents[n - 1].as_str());
    s.append(" | ");
    s.append(new_message);
    proof {
        let hv = history_contents@.map_values(|t: String| t@);
        assert(hv[n - 1] == history_contents@[n - 1]@);
        if n >= 2 {
            assert(hv[n - 2] == history_contents@[n - 2]@);
        }
    }
    s
}


/// The `[NOW]` line: the three clock renderings.
pub open spec fn now_line_rep(utc: Seq<char>, gmt8: Seq<char>, gmt7: Seq<char>) -> Seq<char> {
    "[NOW]: UTC: "@ + utc + " | Ryuuko(GMT+8): "@ + gmt8 + " | User(GMT+7): "@ + gmt7
        + "\n"@
}

/// The participant names with later repetitions dropped.
pub open spec fn dedup_names(names: Seq<Seq<char>>) -> Seq<Seq<char>>
    decreases names.len(),
{
    if names.len() == 0 {
        Seq::empty()
    } else {
        let d = dedup_names(names.drop_last());
        if d.contains(names.last()) {
            d
        } else {
            d.push(names.last())
        }
    }
}

/// Names joined with `, `.
pub open spec fn joined_names(names: Seq<Seq<char>>) -> Seq<char>
    decreases names.len(),
{
    if names.len() == 0 {
        Seq::empty()
    } else if names.len() == 1 {
        names[0]
    } else {
        joined_names(names.drop_last()) + ", "@ + names.last()
    }
}

/// The time-and-history section: the `[NOW]` line, then — for a first turn
/// — the stranger or known-returner note, or — for a continuation — the
/// message count with the deduplicated participant list.
pub open spec fn time_history_rep(
    utc: Seq<char>,
    gmt8: Seq<char>,
    gmt7: Seq<char>,
    username: Seq<char>,
    names: Seq<Seq<char>>,
    history_len: nat,
    chunk_count: nat,
) -> Seq<char> {
    now_line_rep(utc, gmt8, gmt7) + (if history_len == 0 {
        if chunk_count > 0 {
            "[context: đây là tin nhắn đầu tiên của phiên trò chuyện mới. người dùng ("@
                + username
                + ") là người quen cũ, hãy dựa vào đồ thị bối cảnh phía trên để cư xử phù hợp.]"@
        } else {
            "[context: đây là tin nhắn đầu tiên từ "@ + username
                + ". mày chưa biết người này — đây là người lạ. Hãy cẩn trọng.]"@
        }
    } else {
        "[context: đã có "@ + crate::numfmt::dec_rep(history_len)
            + " tin nhắn trước đó trong cuộc hội thoại này. người tham gia: "@
            + joined_names(dedup_names(names))
            + ". hãy trả lời dựa trên mạch hội thoại ở trên.]"@
    })
}

fn vec_contains_name(v: &Vec<String>, x: &String) -> (r: bool)
    ensures
        r == v@.map_values(|s: String| s@).contains(x@),
{
    let ghost names = v@.map_values(|s: String| s@);
    let n = v.len();
    let mut i: usize = 0;
    while i < n
        invariant
            i <= n,
            n == v@.len(),
            names == v@.map_values(|s: String| s@),
            forall|j: int| 0 <= j < i ==> names[j] != x@,
        decreases n - i,
    {
        if crate::text::str_eq(v[i].as_str(), x.as_str()) {
            proof {
                assert(names[i as int] == x@);
            }
            return true;
        }
        i = i + 1;
    }
    proof {
        assert(forall|j: int| 0 <= j < names.len() ==> names[j] != x@);
    }
    false
}

fn dedup_strings(names: &Vec<String>) -> (r: Vec<String>)
    ensures
        r@.map_values(|s: String| s@) == dedup_names(names@.map_values(|s: String| s@)),
{
    let ghost nv = names@.map_values(|s: String| s@);
    let n = names.len();
    let mut r: Vec<String> = Vec::new();
    let mut i: usize = 0;
    while i < n
        invariant
            i <= n,
            n == names@.len(),
            nv == names@.map_values(|s: String| s@),
            r@.map_values(|s: String| s@) == dedup_names(nv.subrange(0, i as int)),
        decreases n - i,
    {
        proof {
            assert(nv.subrange(0, i + 1).drop_last() =~= nv.subrange(0, i as int));
            assert(nv.subrange(0, i + 1).last() == nv[i as int]);
        }
        let ghost before = r@.map_values(|s: String| s@);
        if !vec_contains_name(&r, &names[i]) {
            r.push(names[i].clone());
            proof {
                assert(r@.map_values(|s: String| s@) =~= before.push(nv[i as int]));
            }
        }
        i = i + 1;
    }
    proof {
        assert(nv.subrange(0, n as int) =~= nv);
    }
    r
}

fn join_names(names: &Vec<String>) -> (r: String)
    ensures
        r@ == joined_names(names@.map_values(|s: String| s@)),
{
    let ghost nv = names@.map_values(|s: String| s@);
    let n = names.len();
    let mut r = String::new();
    let mut i: usize = 0;
    while i < n
        invariant
            i <= n,
            n == names@.len(),
            nv == names@.map_values(|s: String| s@),
            r@ == joined_names(nv.subrange(0, i as int)),
        decreases n - i,
    {
        if i > 0 {
            r.append(", ");
        }
        r.append(names[i].as_str());
        proof {
            let cur = nv.subrange(0, i + 1);
            assert(cur.drop_last() =~= nv.subrange(0, i as int));
            assert(cur.last() == nv[i as int]);
            if i == 0 {
                assert(cur.len() == 1);
                assert(r@ =~= cur[0]);
            } else {
                assert(r@ =~= joined_names(cur.drop_last()) + ", "@ + cur.last());
            }
        }
        i = i + 1;
    }
    proof {
        assert(nv.subrange(0, n as int) =~= nv);
    }
    r
}

/// Format the time-and-history section from the three preformatted clock
/// stamps, the current user, the user names of the history's user turns,
/// the history length, and the user's stored-memory count.
pub fn time_history_section(
    utc: &str,
    gmt8: &str,
    gmt7: &str,
    username: &str,
    history_user_names: &Vec<String>,
    history_len: usize,
    chunk_count: usize,
) -> (r: String)
    ensures
        r@ == time_history_rep(
            utc@,
            gmt8@,
            gmt7@,
            username@,
            history_user_names@.map_values(|s: String| s@),
            history_len as nat,
            chunk_count as nat,
        ),
{
    let mut s = String::from_str("[NOW]: UTC: ");
    s.append(utc);
    s.append(" | Ryuuko(GMT+8): ");
    s.append(gmt8);
    s.append(" | User(GMT+7): ");
    s.append(gmt7);
    s.append("\n");
    if history_len == 0 {
        if chunk_count > 0 {
            s.append("[context: đây là tin nhắn đầu tiên của phiên trò chuyện mới. người dùng (");
            s.append(username);
            s.append(") là người quen cũ, hãy dựa vào đồ thị bối cảnh phía trên để cư xử phù hợp.]");
        } else {
            s.append("[context: đây là tin nhắn đầu tiên từ ");
            s.append(username);
            s.append(". mày chưa biết người này — đây là người lạ. Hãy cẩn trọng.]");
        }
    } else {
        s.append("[context: đã có ");
        let count = crate::numfmt::u64_to_string(history_len as u64);
        s.append(count.as_str());
        s.append(" tin nhắn trước đó trong cuộc hội thoại này. người tham gia: ");
        let unique = dedup_strings(history_user_names);
        let joined = join_names(&unique);
        s.append(joined.as_str());
        s.append(". hãy trả lời dựa trên mạch hội thoại ở trên.]");
    }
    s
}

} // verus!
