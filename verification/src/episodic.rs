//! The episodic store's verifiable half: the event record, the
//! time-decayed re-ranking of search candidates, and the metadata match
//! used to count a user's stored memories.
//!
//! The vector index itself (embedding, approximate search, columnar
//! persistence) lives outside; it hands back candidates with distances, and
//! this module scores and ranks them.

use vstd::prelude::*;
use crate::event::UNIT;

verus! {

/// Upper bound of episodic importance: 10.0 in micro-units.
pub const IMPORTANCE_CEILING: i64 = 10_000_000;

/// One diary entry held by the episodic store. The embedding vector is kept
/// by the store itself, keyed by the same id.
#[derive(Debug, Clone)]
pub struct EpisodicEvent {
    /// Unique id of the entry.
    pub id: String,
    /// The diary text.
    pub content: String,
    /// Epoch seconds of the session's last message.
    pub timestamp: i64,
    /// Importance in micro-units, within (0, 10].
    pub importance: i64,
    /// JSON metadata naming the speaker and the session shape.
    pub metadata: String,
}

impl EpisodicEvent {
    /// Importance stays inside (0, 10].
    pub open spec fn wf(&self) -> bool {
        0 < self.importance <= IMPORTANCE_CEILING
    }
}

/// `factor` (micro-units) multiplied onto one, `days` times, truncating:
/// the fixed-point power used for per-day decay.
pub open spec fn decay_pow(factor: int, days: nat) -> int
    decreases days,
{
    if days == 0 {
        UNIT as int
    } else {
        decay_pow(factor, (days - 1) as nat) * factor / (UNIT as int)
    }
}

/// The re-rank score of one candidate: similarity `1/(1+distance)` times
/// the per-day decay times the importance, all in micro-units.
pub open spec fn episodic_score_spec(
    distance: int,
    age_days: nat,
    importance: int,
    decay_factor: int,
) -> int {
    let sim = (UNIT as int) * (UNIT as int) / ((UNIT as int) + distance);
    let decay = decay_pow(decay_factor, age_days);
    sim * decay / (UNIT as int) * importance / (UNIT as int)
}

/// Score one candidate for re-ranking.
///
/// `distance` is the index's reported distance, `age_days` whole days since
/// the entry's timestamp, `importance` the stored importance, and
/// `decay_factor` the per-day retention (for a decay rate lambda, the
/// caller passes e^(-lambda) in micro-units).
pub fn episodic_score(distance: i64, age_days: u64, importance: i64, decay_factor: i64) -> (r:
    i64)
    requires
        0 <= distance <= i64::MAX - UNIT,
        0 < importance <= IMPORTANCE_CEILING,
        0 <= decay_factor <= UNIT,
    ensures
        r == episodic_score_spec(
            distance as int,
            age_days as nat,
            importance as int,
            decay_factor as int,
        ),
        0 <= r <= IMPORTANCE_CEILING,
{
    let sim: i64 = UNIT * UNIT / (UNIT + distance);
    proof {
        assert(UNIT * UNIT / ((UNIT as int) + distance) <= UNIT) by {
            vstd::arithmetic::div_mod::lemma_div_is_ordered_by_denominator(
                (UNIT * UNIT) as int,
                UNIT as int,
                (UNIT as int) + distance,
            );
            vstd::arithmetic::div_mod::lemma_div_by_multiple(UNIT as int, UNIT as int);
        }
        assert(UNIT * UNIT / ((UNIT as int) + distance) >= 0) by {
            vstd::arithmetic::div_mod::lemma_div_pos_is_pos(
                (UNIT * UNIT) as int,
                (UNIT as int) + distance,
            );
        }
    }
    let mut decay: i64 = UNIT;
    let mut d: u64 = 0;
    while d < age_days && decay > 0
        invariant
            d <= age_days,
            0 <= decay <= UNIT,
            0 <= decay_factor <= UNIT,
            decay == decay_pow(decay_factor as int, d as nat),
        decreases age_days - d,
    {
        let ghost prev = decay as int;
        proof {
            assert(prev * decay_factor <= UNIT * UNIT && prev * decay_factor >= 0)
                by (nonlinear_arith)
                requires
                    0 <= prev <= UNIT,
                    0 <= decay_factor <= UNIT,
            ;
            vstd::arithmetic::div_mod::lemma_div_is_ordered(
                prev * decay_factor,
                UNIT * UNIT,
                UNIT as int,
            );
            vstd::arithmetic::div_mod::lemma_div_by_multiple(UNIT as int, UNIT as int);
            vstd::arithmetic::div_mod::lemma_div_pos_is_pos(
                prev * decay_factor,
                UNIT as int,
            );
        }
        decay = decay * decay_factor / UNIT;
        d = d + 1;
    }
    proof {
        if d < age_days {
            lemma_decay_pow_zero(decay_factor as int, d as nat, age_days as nat);
        }
    }
    let ghost sim_i = sim as int;
    let ghost decay_i = decay as int;
    proof {
        assert(sim_i * decay_i <= UNIT * UNIT && sim_i * decay_i >= 0)
            by (nonlinear_arith)
            requires
                0 <= sim_i <= UNIT,
                0 <= decay_i <= UNIT,
        ;
        vstd::arithmetic::div_mod::lemma_div_is_ordered(
            sim_i * decay_i,
            UNIT * UNIT,
            UNIT as int,
        );
        vstd::arithmetic::div_mod::lemma_div_by_multiple(UNIT as int, UNIT as int);
        vstd::arithmetic::div_mod::lemma_div_pos_is_pos(sim_i * decay_i, UNIT as int);
        let sd = sim_i * decay_i / (UNIT as int);
        assert(sd * importance <= UNIT * (IMPORTANCE_CEILING as int) && sd * importance
            >= 0) by (nonlinear_arith)
            requires
                0 <= sd <= UNIT,
                0 < importance <= IMPORTANCE_CEILING,
        ;
        vstd::arithmetic::div_mod::lemma_div_is_ordered(
            sd * importance,
            UNIT * (IMPORTANCE_CEILING as int),
            UNIT as int,
        );
        vstd::arithmetic::div_mod::lemma_div_by_multiple(
            IMPORTANCE_CEILING as int,
            UNIT as int,
        );
        vstd::arithmetic::div_mod::lemma_div_pos_is_pos(sd * importance, UNIT as int);
    }
    sim * decay / UNIT * importance / UNIT
}

proof fn lemma_decay_pow_zero(factor: int, d: nat, total: nat)
    requires
        d <= total,
        decay_pow(factor, d) == 0,
        factor >= 0,
    ensures
        decay_pow(factor, total) == 0,
    decreases total - d,
{
    if d < total {
        assert(decay_pow(factor, d + 1) == decay_pow(factor, d) * factor / (UNIT as int));
        assert(decay_pow(factor, d) * factor == 0) by (nonlinear_arith)
            requires
                decay_pow(factor, d) == 0,
        ;
        lemma_decay_pow_zero(factor, d + 1, total);
    }
}

/// The number of `true` flags.
pub open spec fn marked_count(s: Seq<bool>) -> nat
    decreases s.len(),
{
    if s.len() == 0 {
        0
    } else {
        marked_count(s.drop_last()) + (if s.last() {
            1nat
        } else {
            0nat
        })
    }
}

proof fn lemma_marked_count_update(s: Seq<bool>, i: int)
    requires
        0 <= i < s.len(),
        !s[i],
    ensures
        marked_count(s.update(i, true)) == marked_count(s) + 1,
    decreases s.len(),
{
    let t = s.update(i, true);
    if i == s.len() - 1 {
        assert(t.drop_last() =~= s.drop_last());
    } else {
        assert(t.drop_last() =~= s.drop_last().update(i, true));
        lemma_marked_count_update(s.drop_last(), i);
    }
}

proof fn lemma_marked_exists_unmarked(s: Seq<bool>)
    requires
        marked_count(s) < s.len(),
    ensures
        exists|j: int| 0 <= j < s.len() && !s[j],
    decreases s.len(),
{
    if s.len() > 0 {
        if s.last() {
            lemma_marked_exists_unmarked(s.drop_last());
            let j = choose|j: int| 0 <= j < s.drop_last().len() && !s.drop_last()[j];
            assert(!s[j]);
        } else {
            assert(!s[s.len() - 1]);
        }
    }
}

/// Pick up to `limit` candidate positions, highest score first: the result
/// is sorted by score descending, its positions are distinct, and every
/// picked candidate scores at least as high as every candidate left out.
pub fn rank_top(scores: &Vec<i64>, limit: usize) -> (r: Vec<usize>)
    ensures
        r@.len() == (if limit <= scores@.len() {
            limit as nat
        } else {
            scores@.len()
        }),
        forall|a: int| 0 <= a < r@.len() ==> (#[trigger] r@[a]) < scores@.len(),
        forall|a: int, b: int| 0 <= a < b < r@.len() ==> r@[a] != r@[b],
        forall|a: int, b: int|
            0 <= a < b < r@.len() ==> scores@[r@[a] as int] >= scores@[r@[b] as int],
        forall|a: int, u: int| #![trigger scores@[r@[a] as int], scores@[u]]
            0 <= a < r@.len() && 0 <= u < scores@.len() && (forall|b: int|
                0 <= b < r@.len() ==> (#[trigger] r@[b]) != u) ==> scores@[r@[a] as int]
                >= scores@[u],
{
    let m = scores.len();
    let k = if limit <= m {
        limit
    } else {
        m
    };
    let mut taken: Vec<bool> = Vec::new();
    let mut z: usize = 0;
    while z < m
        invariant
            z <= m,
            taken@.len() == z,
            forall|j: int| 0 <= j < z ==> !taken@[j],
            marked_count(taken@) == 0,
        decreases m - z,
    {
        let ghost pre = taken@;
        taken.push(false);
        proof {
            assert(taken@.drop_last() =~= pre);
        }
        z = z + 1;
    }
    let mut out: Vec<usize> = Vec::new();
    let mut t: usize = 0;
    while t < k
        invariant
            t <= k,
            k <= m,
            m == scores@.len(),
            taken@.len() == m,
            out@.len() == t,
            marked_count(taken@) == t,
            forall|a: int|
                0 <= a < out@.len() ==> (#[trigger] out@[a]) < m && taken@[out@[a] as int],
            forall|q: int|
                0 <= q < m && taken@[q] ==> exists|a: int|
                    0 <= a < out@.len() && (#[trigger] out@[a]) == q,
            forall|a: int, b: int| 0 <= a < b < out@.len() ==> out@[a] != out@[b],
            forall|a: int, b: int|
                0 <= a < b < out@.len() ==> scores@[out@[a] as int] >= scores@[out@[
                    b
                ] as int],
            forall|a: int, u: int|
                0 <= a < out@.len() && 0 <= u < m && !taken@[u] ==> scores@[out@[
                    a
                ] as int] >= scores@[u],
        decreases k - t,
    {
        // Find the highest-scoring untaken candidate.
        let mut best: usize = 0;
        let mut have_best = false;
        let mut j: usize = 0;
        while j < m
            invariant
                j <= m,
                m == scores@.len(),
                taken@.len() == m,
                have_best ==> best < m && !taken@[best as int],
                have_best ==> forall|j2: int|
                    0 <= j2 < j && !taken@[j2] ==> scores@[j2] <= scores@[best as int],
                !have_best ==> forall|j2: int| 0 <= j2 < j ==> taken@[j2],
            decreases m - j,
        {
            if !taken[j] {
                if !have_best || scores[j] > scores[best] {
                    best = j;
                    have_best = true;
                }
            }
            j = j + 1;
        }
        proof {
            lemma_marked_exists_unmarked(taken@);
            if !have_best {
                let w = choose|w: int| 0 <= w < taken@.len() && !taken@[w];
                assert(false);
            }
        }
        let ghost out_before = out@;
        let ghost taken_before = taken@;
        out.push(best);
        taken.set(best, true);
        proof {
            lemma_marked_count_update(taken_before, best as int);
            assert forall|q: int| 0 <= q < m && taken@[q] implies exists|a: int|
                0 <= a < out@.len() && (#[trigger] out@[a]) == q by {
                if q == best {
                    assert(out@[out@.len() - 1] == q);
                } else {
                    assert(taken_before[q]);
                    let a = choose|a: int|
                        0 <= a < out_before.len() && out_before[a] == q;
                    assert(out@[a] == q);
                }
            }
        }
        t = t + 1;
    }
    proof {
        assert forall|a: int, u: int| #![trigger scores@[out@[a] as int], scores@[u]]
            0 <= a < out@.len() && 0 <= u < m && (forall|b: int|
                0 <= b < out@.len() ==> (#[trigger] out@[b]) != u)
            implies scores@[out@[a] as int] >= scores@[u] by {
            if taken@[u] {
                let w = choose|w: int| 0 <= w < out@.len() && (#[trigger] out@[w]) == u;
                assert(out@[w] != u);
                assert(false);
            }
        }
    }
    out
}

/// Whether `needle` occurs in `haystack` as a contiguous run.
pub open spec fn contains_sub(haystack: Seq<char>, needle: Seq<char>) -> bool {
    exists|i: int|
        0 <= i <= haystack.len() - needle.len() && #[trigger] haystack.subrange(
            i,
            i + needle.len(),
        ) == needle
}

fn contains_chars(haystack: &Vec<char>, needle: &Vec<char>) -> (r: bool)
    ensures
        r == contains_sub(haystack@, needle@),
{
    let n = haystack.len();
    let m = needle.len();
    if m > n {
        return false;
    }
    let mut i: usize = 0;
    while i <= n - m
        invariant
            m <= n,
            n == haystack@.len(),
            m == needle@.len(),
            i <= n - m + 1,
            forall|i2: int|
                0 <= i2 < i ==> #[trigger] haystack@.subrange(i2, i2 + needle@.len())
                    != needle@,
        decreases n - m + 1 - i,
    {
        let mut j: usize = 0;
        let mut matched = true;
        while j < m
            invariant
                j <= m,
                i + m <= n,
                n == haystack@.len(),
                m == needle@.len(),
                matched == (forall|k: int|
                    0 <= k < j ==> haystack@[i + k] == needle@[k]),
            decreases m - j,
        {
            if haystack[i + j] != needle[j] {
                matched = false;
                proof {
                    assert(!(forall|k: int|
                        0 <= k < j + 1 ==> haystack@[i + k] == needle@[k])) by {
                        assert(haystack@[i + j] != needle@[j as int]);
                    }
                }
                j = m;
            } else {
                j = j + 1;
            }
        }
        if matched {
            proof {
                assert(haystack@.subrange(i as int, i + needle@.len()) =~= needle@);
            }
            return true;
        }
        proof {
            if haystack@.subrange(i as int, i + needle@.len()) == needle@ {
                assert(forall|k: int|
                    0 <= k < m ==> haystack@.subrange(i as int, i + needle@.len())[k]
                        == needle@[k]);
                assert(forall|k: int|
                    0 <= k < m ==> haystack@[i + k] == needle@[k]);
                assert(false);
            }
        }
        i = i + 1;
    }
    false
}

/// The pattern whose presence in an entry's metadata counts it toward a
/// user: `"username":"<name>"`.
pub open spec fn user_pattern(username: Seq<char>) -> Seq<char> {
    "\"username\":\""@ + username + "\""@
}

/// Whether an entry's metadata names the given user, by the same substring
/// match the store's filter applies.
pub fn metadata_matches_user(metadata: &str, username: &str) -> (r: bool)
    ensures
        r == contains_sub(metadata@, user_pattern(username@)),
{
    let mut pat = String::from_str("\"username\":\"");
    pat.append(username);
    pat.append("\"");
    let hay = crate::text::str_to_chars(metadata);
    let needle = crate::text::str_to_chars(pat.as_str());
    contains_chars(&hay, &needle)
}

} // verus!
