//! The cognitive graph: signed, clamped, accumulating, decaying edges that
//! encode the agent's relationship state toward users and entities.
//!
//! All edge fields live in `[-UNIT, UNIT]` micro-units. Incoming deltas are
//! hard-clamped to `[-MAX_DELTA, MAX_DELTA]` before accumulation, and reads
//! apply a passive decay of one percent per whole elapsed day without
//! persisting it, so repeated reads do not compound.
//!
//! Edge identities are deterministic from the participants: the agent's edge
//! toward a user is keyed by the sanitized user name, the user's projected
//! edge back by the same key in the `illusion` table, entity edges by the
//! sanitized entity name, and user-to-user edges by `<from>_<to>`.

use vstd::prelude::*;
use crate::event::UNIT;

verus! {

/// Hard limit on any single accumulated delta: 0.30 in micro-units.
pub const MAX_DELTA: i64 = 300_000;

/// Seconds in a day, for the decay schedule.
pub const SECS_PER_DAY: i64 = 86_400;

/// Clamp into `[-UNIT, UNIT]`.
pub open spec fn clamp_unit_spec(v: int) -> int {
    if v < -UNIT {
        -UNIT as int
    } else if v > UNIT {
        UNIT as int
    } else {
        v
    }
}

/// Clamp into `[-MAX_DELTA, MAX_DELTA]`.
pub open spec fn clamp_delta_spec(v: int) -> int {
    if v < -MAX_DELTA {
        -MAX_DELTA as int
    } else if v > MAX_DELTA {
        MAX_DELTA as int
    } else {
        v
    }
}

/// Clamp a delta to the hard per-evaluation limit.
pub fn clamp_delta(v: i64) -> (r: i64)
    ensures
        r == clamp_delta_spec(v as int),
        -MAX_DELTA <= r <= MAX_DELTA,
{
    if v < -MAX_DELTA {
        -MAX_DELTA
    } else if v > MAX_DELTA {
        MAX_DELTA
    } else {
        v
    }
}

fn clamp_unit(v: i64) -> (r: i64)
    requires
        -4 * UNIT <= v <= 4 * UNIT,
    ensures
        r == clamp_unit_spec(v as int),
        -UNIT <= r <= UNIT,
{
    if v < -UNIT {
        -UNIT
    } else if v > UNIT {
        UNIT
    } else {
        v
    }
}

/// One decay step: one percent toward zero, truncating toward zero.
pub open spec fn decay_step(v: int) -> int {
    if v >= 0 {
        v * 99 / 100
    } else {
        -((-v) * 99 / 100)
    }
}

/// `d` days of passive decay applied to `v`.
pub open spec fn decay_value(v: int, d: nat) -> int
    decreases d,
{
    if d == 0 {
        v
    } else {
        decay_value(decay_step(v), (d - 1) as nat)
    }
}

/// Whole days elapsed between `last` and `now`; a clock that moved backwards
/// counts as zero.
pub open spec fn days_between(last: int, now: int) -> nat {
    if now > last {
        ((now - last) / (SECS_PER_DAY as int)) as nat
    } else {
        0
    }
}

proof fn lemma_decay_zero(d: nat)
    ensures
        decay_value(0, d) == 0,
    decreases d,
{
    if d > 0 {
        lemma_decay_zero((d - 1) as nat);
    }
}

proof fn lemma_decay_step_bounds(v: int)
    requires
        0 <= v <= UNIT,
    ensures
        0 <= decay_step(v) <= v,
{
}

proof fn lemma_decay_neg(v: int, d: nat)
    requires
        v >= 0,
    ensures
        decay_value(-v, d) == -decay_value(v, d),
    decreases d,
{
    if d > 0 {
        assert(decay_step(-v) == -decay_step(v));
        lemma_decay_neg(decay_step(v), (d - 1) as nat);
    }
}

/// Apply `days` days of decay to a micro-unit value.
fn decay_apply(v: i64, days: u64) -> (r: i64)
    requires
        -UNIT <= v <= UNIT,
    ensures
        r == decay_value(v as int, days as nat),
        -UNIT <= r <= UNIT,
{
    let neg = v < 0;
    let mut a: i64 = if neg {
        -v
    } else {
        v
    };
    let ghost a0 = a as int;
    let mut i: u64 = 0;
    while i < days && a > 0
        invariant
            0 <= a <= UNIT,
            i <= days,
            decay_value(a0, days as nat) == decay_value(a as int, (days - i) as nat),
        decreases days - i,
    {
        proof {
            lemma_decay_step_bounds(a as int);
            assert(decay_value(a as int, (days - i) as nat) == decay_value(
                decay_step(a as int),
                (days - i - 1) as nat,
            ));
        }
        a = a * 99 / 100;
        i = i + 1;
    }
    proof {
        if a == 0 {
            lemma_decay_zero((days - i) as nat);
        }
        if neg {
            lemma_decay_neg(-(v as int), days as nat);
        }
    }
    if neg {
        -a
    } else {
        a
    }
}

/// A quote character stripped from user and entity names before keying.
pub open spec fn is_quote_char(c: char) -> bool {
    c == '`' || c == '\'' || c == '"'
}

/// The tail of `s` from `i` with quote characters removed.
pub open spec fn sanitized_from(s: Seq<char>, i: int) -> Seq<char>
    decreases s.len() - i,
{
    if i < 0 || i >= s.len() {
        Seq::empty()
    } else if is_quote_char(s[i]) {
        sanitized_from(s, i + 1)
    } else {
        seq![s[i]] + sanitized_from(s, i + 1)
    }
}

/// `s` with backticks, single quotes and double quotes removed: the form in
/// which names key graph edges.
pub open spec fn sanitized(s: Seq<char>) -> Seq<char> {
    sanitized_from(s, 0)
}

/// Strip quote characters from a name before using it as an edge key.
pub fn sanitize_name(name: &str) -> (r: String)
    ensures
        r@ == sanitized(name@),
{
    let chars = crate::text::str_to_chars(name);
    let n = chars.len();
    let mut out: Vec<char> = Vec::new();
    let mut i: usize = 0;
    while i < n
        invariant
            i <= n,
            n == chars@.len(),
            chars@ == name@,
            out@ + sanitized_from(chars@, i as int) == sanitized(chars@),
        decreases n - i,
    {
        let c = chars[i];
        if c == '`' || c == '\'' || c == '"' {
            proof {
                assert(sanitized_from(chars@, i as int) == sanitized_from(
                    chars@,
                    i + 1,
                ));
            }
        } else {
            proof {
                assert(sanitized_from(chars@, i as int) =~= seq![chars@[i as int]]
                    + sanitized_from(chars@, i + 1));
                assert((out@ + seq![chars@[i as int]]) + sanitized_from(chars@, i + 1)
                    =~= out@ + sanitized_from(chars@, i as int));
            }
            out.push(c);
        }
        i = i + 1;
    }
    proof {
        assert(out@ + sanitized_from(chars@, n as int) =~= out@);
    }
    crate::text::string_from_chars(&out)
}

/// A signed delta over the five social axes, as produced by the evaluator.
#[derive(Debug, Clone, Copy, PartialEq, Eq, Structural)]
pub struct SocialDelta {
    pub delta_affinity: i64,
    pub delta_attachment: i64,
    pub delta_trust: i64,
    pub delta_safety: i64,
    pub delta_tension: i64,
}

impl SocialDelta {
    /// Clamp every axis to `[-MAX_DELTA, MAX_DELTA]`.
    pub fn clamped(self) -> (r: Self)
        ensures
            r.delta_affinity == clamp_delta_spec(self.delta_affinity as int),
            r.delta_attachment == clamp_delta_spec(self.delta_attachment as int),
            r.delta_trust == clamp_delta_spec(self.delta_trust as int),
            r.delta_safety == clamp_delta_spec(self.delta_safety as int),
            r.delta_tension == clamp_delta_spec(self.delta_tension as int),
    {
        SocialDelta {
            delta_affinity: clamp_delta(self.delta_affinity),
            delta_attachment: clamp_delta(self.delta_attachment),
            delta_trust: clamp_delta(self.delta_trust),
            delta_safety: clamp_delta(self.delta_safety),
            delta_tension: clamp_delta(self.delta_tension),
        }
    }
}

/// A signed delta over the three entity axes.
#[derive(Debug, Clone)]
pub struct EmotionDelta {
    pub entity_name: String,
    pub delta_preference: i64,
    pub delta_stress: i64,
    pub delta_fascination: i64,
}

impl EmotionDelta {
    /// Clamp every axis to `[-MAX_DELTA, MAX_DELTA]`.
    pub fn clamped(self) -> (r: Self)
        ensures
            r.entity_name@ == self.entity_name@,
            r.delta_preference == clamp_delta_spec(self.delta_preference as int),
            r.delta_stress == clamp_delta_spec(self.delta_stress as int),
            r.delta_fascination == clamp_delta_spec(self.delta_fascination as int),
    {
        EmotionDelta {
            entity_name: self.entity_name,
            delta_preference: clamp_delta(self.delta_preference),
            delta_stress: clamp_delta(self.delta_stress),
            delta_fascination: clamp_delta(self.delta_fascination),
        }
    }
}

/// The agent's attitude toward a user, after decay.
#[derive(Debug, Clone, Copy, PartialEq, Eq, Structural)]
pub struct AttitudesTowards {
    pub affinity: i64,
    pub attachment: i64,
    pub trust: i64,
    pub safety: i64,
    pub tension: i64,
}

/// The agent's projection of how a user perceives it, after decay.
#[derive(Debug, Clone, Copy, PartialEq, Eq, Structural)]
pub struct IllusionOf {
    pub affinity: i64,
    pub attachment: i64,
    pub trust: i64,
    pub safety: i64,
    pub tension: i64,
}

/// The agent's feelings toward an entity.
#[derive(Debug, Clone, Copy, PartialEq, Eq, Structural)]
pub struct FeelsAbout {
    pub preference: i64,
    pub stress: i64,
    pub fascination: i64,
}

/// A person node, as named in edge identities.
#[derive(Debug, Clone)]
pub struct Person {
    pub id: Option<String>,
    pub name: String,
}

/// An entity node, as named in edge identities.
#[derive(Debug, Clone)]
pub struct Entity {
    pub id: Option<String>,
    pub name: String,
}

/// A stored social edge: five axes plus the time of the last write.
#[derive(Debug, Clone, Copy, PartialEq, Eq, Structural)]
pub struct SocialEdge {
    pub affinity: i64,
    pub attachment: i64,
    pub trust: i64,
    pub safety: i64,
    pub tension: i64,
    /// Epoch seconds of the last write; decay counts from here.
    pub last_updated: i64,
}

impl SocialEdge {
    /// Every axis inside `[-UNIT, UNIT]`, stamp non-negative.
    pub open spec fn wf(&self) -> bool {
        &&& -UNIT <= self.affinity <= UNIT
        &&& -UNIT <= self.attachment <= UNIT
        &&& -UNIT <= self.trust <= UNIT
        &&& -UNIT <= self.safety <= UNIT
        &&& -UNIT <= self.tension <= UNIT
        &&& 0 <= self.last_updated
    }

    /// The zero-initialized edge stamped with `now`.
    pub open spec fn spec_zero(now: int) -> SocialEdge {
        SocialEdge {
            affinity: 0,
            attachment: 0,
            trust: 0,
            safety: 0,
            tension: 0,
            last_updated: now as i64,
        }
    }
}

/// The stored edge after one clamped accumulation, stamped with `now`.
pub open spec fn acc_social(e: SocialEdge, d: SocialDelta, now: int) -> SocialEdge {
    SocialEdge {
        affinity: clamp_unit_spec(e.affinity + clamp_delta_spec(d.delta_affinity as int))
            as i64,
        attachment: clamp_unit_spec(
            e.attachment + clamp_delta_spec(d.delta_attachment as int),
        ) as i64,
        trust: clamp_unit_spec(e.trust + clamp_delta_spec(d.delta_trust as int)) as i64,
        safety: clamp_unit_spec(e.safety + clamp_delta_spec(d.delta_safety as int))
            as i64,
        tension: clamp_unit_spec(e.tension + clamp_delta_spec(d.delta_tension as int))
            as i64,
        last_updated: now as i64,
    }
}

/// A keyed social edge (the key is the sanitized user name).
#[derive(Debug, Clone)]
pub struct SocialEntry {
    pub user: String,
    pub edge: SocialEdge,
}

/// A keyed entity edge (the key is the sanitized entity name).
#[derive(Debug, Clone)]
pub struct FeelsEntry {
    pub entity: String,
    pub edge: FeelsAbout,
}

/// A keyed user-to-user tension edge (the key is `<from>_<to>`, sanitized).
#[derive(Debug, Clone)]
pub struct TensionEntry {
    pub pair: String,
    pub tension: i64,
}

/// The first social edge stored under `key`.
pub open spec fn lookup_social(s: Seq<SocialEntry>, key: Seq<char>) -> Option<SocialEdge>
    decreases s.len(),
{
    if s.len() == 0 {
        None
    } else if s[0].user@ == key {
        Some(s[0].edge)
    } else {
        lookup_social(s.drop_first(), key)
    }
}

/// The first entity edge stored under `key`.
pub open spec fn lookup_feels(s: Seq<FeelsEntry>, key: Seq<char>) -> Option<FeelsAbout>
    decreases s.len(),
{
    if s.len() == 0 {
        None
    } else if s[0].entity@ == key {
        Some(s[0].edge)
    } else {
        lookup_feels(s.drop_first(), key)
    }
}

/// The first tension value stored under `key`.
pub open spec fn lookup_tension(s: Seq<TensionEntry>, key: Seq<char>) -> Option<i64>
    decreases s.len(),
{
    if s.len() == 0 {
        None
    } else if s[0].pair@ == key {
        Some(s[0].tension)
    } else {
        lookup_tension(s.drop_first(), key)
    }
}

proof fn lemma_lookup_social_at(s: Seq<SocialEntry>, key: Seq<char>, i: int)
    requires
        0 <= i < s.len(),
        s[i].user@ == key,
        forall|j: int| 0 <= j < i ==> s[j].user@ != key,
    ensures
        lookup_social(s, key) == Some(s[i].edge),
    decreases i,
{
    if i > 0 {
        lemma_lookup_social_at(s.drop_first(), key, i - 1);
    }
}

proof fn lemma_lookup_social_none(s: Seq<SocialEntry>, key: Seq<char>)
    requires
        forall|j: int| 0 <= j < s.len() ==> s[j].user@ != key,
    ensures
        lookup_social(s, key) is None,
    decreases s.len(),
{
    if s.len() > 0 {
        lemma_lookup_social_none(s.drop_first(), key);
    }
}

proof fn lemma_lookup_social_update(s: Seq<SocialEntry>, i: int, entry: SocialEntry, k: Seq<char>)
    requires
        0 <= i < s.len(),
        entry.user@ == s[i].user@,
        forall|j: int| 0 <= j < i ==> s[j].user@ != s[i].user@,
    ensures
        s[i].user@ == k ==> lookup_social(s.update(i, entry), k) == Some(entry.edge),
        s[i].user@ != k ==> lookup_social(s.update(i, entry), k) == lookup_social(s, k),
    decreases i,
{
    let t = s.update(i, entry);
    if i == 0 {
        if s[0].user@ != k {
            assert(t.drop_first() =~= s.drop_first());
        }
    } else {
        assert(t.drop_first() =~= s.drop_first().update(i - 1, entry));
        lemma_lookup_social_update(s.drop_first(), i - 1, entry, k);
    }
}

proof fn lemma_lookup_social_push(s: Seq<SocialEntry>, entry: SocialEntry, k: Seq<char>)
    ensures
        entry.user@ == k && lookup_social(s, k) is None ==> lookup_social(
            s.push(entry),
            k,
        ) == Some(entry.edge),
        entry.user@ != k ==> lookup_social(s.push(entry), k) == lookup_social(s, k),
    decreases s.len(),
{
    let t = s.push(entry);
    if s.len() > 0 {
        assert(t[0] == s[0]);
        assert(t.drop_first() =~= s.drop_first().push(entry));
        lemma_lookup_social_push(s.drop_first(), entry, k);
        if s[0].user@ == k {
            assert(lookup_social(t, k) == Some(t[0].edge));
            assert(lookup_social(s, k) == Some(s[0].edge));
        } else {
            assert(lookup_social(t, k) == lookup_social(t.drop_first(), k));
            assert(lookup_social(s, k) == lookup_social(s.drop_first(), k));
        }
    } else {
        assert(t[0] == entry);
        assert(t.drop_first() =~= Seq::<SocialEntry>::empty());
        if entry.user@ != k {
            assert(lookup_social(t, k) == lookup_social(t.drop_first(), k));
            assert(lookup_social(t.drop_first(), k) is None);
            assert(lookup_social(s, k) is None);
        }
    }
}

proof fn lemma_lookup_feels_at(s: Seq<FeelsEntry>, key: Seq<char>, i: int)
    requires
        0 <= i < s.len(),
        s[i].entity@ == key,
        forall|j: int| 0 <= j < i ==> s[j].entity@ != key,
    ensures
        lookup_feels(s, key) == Some(s[i].edge),
    decreases i,
{
    if i > 0 {
        lemma_lookup_feels_at(s.drop_first(), key, i - 1);
    }
}

proof fn lemma_lookup_feels_none(s: Seq<FeelsEntry>, key: Seq<char>)
    requires
        forall|j: int| 0 <= j < s.len() ==> s[j].entity@ != key,
    ensures
        lookup_feels(s, key) is None,
    decreases s.len(),
{
    if s.len() > 0 {
        lemma_lookup_feels_none(s.drop_first(), key);
    }
}

proof fn lemma_lookup_feels_update(s: Seq<FeelsEntry>, i: int, entry: FeelsEntry, k: Seq<char>)
    requires
        0 <= i < s.len(),
        entry.entity@ == s[i].entity@,
        forall|j: int| 0 <= j < i ==> s[j].entity@ != s[i].entity@,
    ensures
        s[i].entity@ == k ==> lookup_feels(s.update(i, entry), k) == Some(entry.edge),
        s[i].entity@ != k ==> lookup_feels(s.update(i, entry), k) == lookup_feels(s, k),
    decreases i,
{
    let t = s.update(i, entry);
    if i == 0 {
        if s[0].entity@ != k {
            assert(t.drop_first() =~= s.drop_first());
        }
    } else {
        assert(t.drop_first() =~= s.drop_first().update(i - 1, entry));
        lemma_lookup_feels_update(s.drop_first(), i - 1, entry, k);
    }
}

proof fn lemma_lookup_feels_push(s: Seq<FeelsEntry>, entry: FeelsEntry, k: Seq<char>)
    ensures
        entry.entity@ == k && lookup_feels(s, k) is None ==> lookup_feels(
            s.push(entry),
            k,
        ) == Some(entry.edge),
        entry.entity@ != k ==> lookup_feels(s.push(entry), k) == lookup_feels(s, k),
    decreases s.len(),
{
    let t = s.push(entry);
    if s.len() > 0 {
        assert(t[0] == s[0]);
        assert(t.drop_first() =~= s.drop_first().push(entry));
        lemma_lookup_feels_push(s.drop_first(), entry, k);
        if s[0].entity@ == k {
            assert(lookup_feels(t, k) == Some(t[0].edge));
            assert(lookup_feels(s, k) == Some(s[0].edge));
        } else {
            assert(lookup_feels(t, k) == lookup_feels(t.drop_first(), k));
            assert(lookup_feels(s, k) == lookup_feels(s.drop_first(), k));
        }
    } else {
        assert(t[0] == entry);
        assert(t.drop_first() =~= Seq::<FeelsEntry>::empty());
        if entry.entity@ != k {
            assert(lookup_feels(t, k) == lookup_feels(t.drop_first(), k));
            assert(lookup_feels(t.drop_first(), k) is None);
            assert(lookup_feels(s, k) is None);
        }
    }
}

proof fn lemma_lookup_tension_at(s: Seq<TensionEntry>, key: Seq<char>, i: int)
    requires
        0 <= i < s.len(),
        s[i].pair@ == key,
        forall|j: int| 0 <= j < i ==> s[j].pair@ != key,
    ensures
        lookup_tension(s, key) == Some(s[i].tension),
    decreases i,
{
    if i > 0 {
        lemma_lookup_tension_at(s.drop_first(), key, i - 1);
    }
}

proof fn lemma_lookup_tension_none(s: Seq<TensionEntry>, key: Seq<char>)
    requires
        forall|j: int| 0 <= j < s.len() ==> s[j].pair@ != key,
    ensures
        lookup_tension(s, key) is None,
    decreases s.len(),
{
    if s.len() > 0 {
        lemma_lookup_tension_none(s.drop_first(), key);
    }
}

proof fn lemma_lookup_tension_update(s: Seq<TensionEntry>, i: int, entry: TensionEntry, k: Seq<char>)
    requires
        0 <= i < s.len(),
        entry.pair@ == s[i].pair@,
        forall|j: int| 0 <= j < i ==> s[j].pair@ != s[i].pair@,
    ensures
        s[i].pair@ == k ==> lookup_tension(s.update(i, entry), k) == Some(entry.tension),
        s[i].pair@ != k ==> lookup_tension(s.update(i, entry), k) == lookup_tension(
            s,
            k,
        ),
    decreases i,
{
    let t = s.update(i, entry);
    if i == 0 {
        if s[0].pair@ != k {
            assert(t.drop_first() =~= s.drop_first());
        }
    } else {
        assert(t.drop_first() =~= s.drop_first().update(i - 1, entry));
        lemma_lookup_tension_update(s.drop_first(), i - 1, entry, k);
    }
}

proof fn lemma_lookup_tension_push(s: Seq<TensionEntry>, entry: TensionEntry, k: Seq<char>)
    ensures
        entry.pair@ == k && lookup_tension(s, k) is None ==> lookup_tension(
            s.push(entry),
            k,
        ) == Some(entry.tension),
        entry.pair@ != k ==> lookup_tension(s.push(entry), k) == lookup_tension(s, k),
    decreases s.len(),
{
    let t = s.push(entry);
    if s.len() > 0 {
        assert(t[0] == s[0]);
        assert(t.drop_first() =~= s.drop_first().push(entry));
        lemma_lookup_tension_push(s.drop_first(), entry, k);
        if s[0].pair@ == k {
            assert(lookup_tension(t, k) == Some(t[0].tension));
            assert(lookup_tension(s, k) == Some(s[0].tension));
        } else {
            assert(lookup_tension(t, k) == lookup_tension(t.drop_first(), k));
            assert(lookup_tension(s, k) == lookup_tension(s.drop_first(), k));
        }
    } else {
        assert(t[0] == entry);
        assert(t.drop_first() =~= Seq::<TensionEntry>::empty());
        if entry.pair@ != k {
            assert(lookup_tension(t, k) == lookup_tension(t.drop_first(), k));
            assert(lookup_tension(t.drop_first(), k) is None);
            assert(lookup_tension(s, k) is None);
        }
    }
}

/// The in-memory cognitive graph store.
pub struct CognitiveGraph {
    /// Agent-to-user edges, keyed by sanitized user name.
    pub attitudes: Vec<SocialEntry>,
    /// User-to-agent projected edges, keyed by sanitized user name.
    pub illusion: Vec<SocialEntry>,
    /// Agent-to-entity edges, keyed by sanitized entity name.
    pub feels: Vec<FeelsEntry>,
    /// User-to-user tension edges, keyed by `<from>_<to>`.
    pub interacts: Vec<TensionEntry>,
}

impl CognitiveGraph {
    /// Keys are unique per table and every stored field is in range.
    pub open spec fn wf(&self) -> bool {
        &&& forall|i: int, j: int|
            0 <= i < j < self.attitudes@.len() ==> self.attitudes@[i].user@
                != self.attitudes@[j].user@
        &&& forall|i: int, j: int|
            0 <= i < j < self.illusion@.len() ==> self.illusion@[i].user@
                != self.illusion@[j].user@
        &&& forall|i: int, j: int|
            0 <= i < j < self.feels@.len() ==> self.feels@[i].entity@
                != self.feels@[j].entity@
        &&& forall|i: int, j: int|
            0 <= i < j < self.interacts@.len() ==> self.interacts@[i].pair@
                != self.interacts@[j].pair@
        &&& forall|i: int|
            0 <= i < self.attitudes@.len() ==> (#[trigger] self.attitudes@[i]).edge.wf()
        &&& forall|i: int|
            0 <= i < self.illusion@.len() ==> (#[trigger] self.illusion@[i]).edge.wf()
        &&& forall|i: int|
            0 <= i < self.feels@.len() ==> {
                let e = (#[trigger] self.feels@[i]).edge;
                -UNIT <= e.preference <= UNIT && -UNIT <= e.stress <= UNIT && -UNIT
                    <= e.fascination <= UNIT
            }
        &&& forall|i: int|
            0 <= i < self.interacts@.len() ==> -UNIT <= (
            #[trigger] self.interacts@[i]).tension <= UNIT
    }

    /// The agent-to-user edge stored for `key` (sanitized), if any.
    pub open spec fn spec_attitudes(&self, key: Seq<char>) -> Option<SocialEdge> {
        lookup_social(self.attitudes@, key)
    }

    /// The user-to-agent edge stored for `key` (sanitized), if any.
    pub open spec fn spec_illusion(&self, key: Seq<char>) -> Option<SocialEdge> {
        lookup_social(self.illusion@, key)
    }

    /// The entity edge stored for `key` (sanitized), if any.
    pub open spec fn spec_feels(&self, key: Seq<char>) -> Option<FeelsAbout> {
        lookup_feels(self.feels@, key)
    }

    /// The user-to-user tension stored for the pair key, if any.
    pub open spec fn spec_tension(&self, key: Seq<char>) -> Option<i64> {
        lookup_tension(self.interacts@, key)
    }

    /// An empty graph.
    pub fn new() -> (r: Self)
        ensures
            r.wf(),
            r.attitudes@.len() == 0,
            r.illusion@.len() == 0,
            r.feels@.len() == 0,
            r.interacts@.len() == 0,
    {
        CognitiveGraph {
            attitudes: Vec::new(),
            illusion: Vec::new(),
            feels: Vec::new(),
            interacts: Vec::new(),
        }
    }
}

/// Find the index of `key` in a social table, with the no-earlier-match fact
/// needed to reason about the lookup.
fn find_social_index(entries: &Vec<SocialEntry>, key: &String) -> (r: Option<usize>)
    ensures
        match r {
            Some(i) => i < entries@.len() && entries@[i as int].user@ == key@
                && (forall|j: int| 0 <= j < i ==> entries@[j].user@ != key@),
            None => forall|j: int|
                0 <= j < entries@.len() ==> entries@[j].user@ != key@,
        },
{
    let n = entries.len();
    let mut i: usize = 0;
    while i < n
        invariant
            i <= n,
            n == entries@.len(),
            forall|j: int| 0 <= j < i ==> entries@[j].user@ != key@,
        decreases n - i,
    {
        if entries[i].user == *key {
            return Some(i);
        }
        i = i + 1;
    }
    None
}

fn find_feels_index(entries: &Vec<FeelsEntry>, key: &String) -> (r: Option<usize>)
    ensures
        match r {
            Some(i) => i < entries@.len() && entries@[i as int].entity@ == key@
                && (forall|j: int| 0 <= j < i ==> entries@[j].entity@ != key@),
            None => forall|j: int|
                0 <= j < entries@.len() ==> entries@[j].entity@ != key@,
        },
{
    let n = entries.len();
    let mut i: usize = 0;
    while i < n
        invariant
            i <= n,
            n == entries@.len(),
            forall|j: int| 0 <= j < i ==> entries@[j].entity@ != key@,
        decreases n - i,
    {
        if entries[i].entity == *key {
            return Some(i);
        }
        i = i + 1;
    }
    None
}

fn find_tension_index(entries: &Vec<TensionEntry>, key: &String) -> (r: Option<usize>)
    ensures
        match r {
            Some(i) => i < entries@.len() && entries@[i as int].pair@ == key@
                && (forall|j: int| 0 <= j < i ==> entries@[j].pair@ != key@),
            None => forall|j: int|
                0 <= j < entries@.len() ==> entries@[j].pair@ != key@,
        },
{
    let n = entries.len();
    let mut i: usize = 0;
    while i < n
        invariant
            i <= n,
            n == entries@.len(),
            forall|j: int| 0 <= j < i ==> entries@[j].pair@ != key@,
        decreases n - i,
    {
        if entries[i].pair == *key {
            return Some(i);
        }
        i = i + 1;
    }
    None
}

/// Accumulate a clamped delta into a social table under `key`, creating the
/// zero edge first if the key is new. Returns nothing; the contract speaks
/// through the table's lookup.
fn upsert_social(entries: &mut Vec<SocialEntry>, key: String, delta: SocialDelta, now: i64)
    requires
        forall|i: int, j: int|
            0 <= i < j < old(entries)@.len() ==> old(entries)@[i].user@ != old(entries)@[j].user@,
        forall|i: int|
            0 <= i < old(entries)@.len() ==> (#[trigger] old(entries)@[i]).edge.wf(),
        now >= 0,
    ensures
        forall|i: int, j: int|
            0 <= i < j < final(entries)@.len() ==> final(entries)@[i].user@ != final(entries)@[j].user@,
        forall|i: int|
            0 <= i < final(entries)@.len() ==> (#[trigger] final(entries)@[i]).edge.wf(),
        lookup_social(final(entries)@, key@) == Some(
            acc_social(
                match lookup_social(old(entries)@, key@) {
                    Some(e) => e,
                    None => SocialEdge::spec_zero(now as int),
                },
                delta,
                now as int,
            ),
        ),
        forall|k: Seq<char>|
            k != key@ ==> lookup_social(final(entries)@, k) == lookup_social(
                old(entries)@,
                k,
            ),
{
    let ghost s0 = entries@;
    let idx: usize;
    let ghost base: SocialEdge;
    match find_social_index(entries, &key) {
        Some(i) => {
            idx = i;
            proof {
                base = s0[i as int].edge;
                lemma_lookup_social_at(s0, key@, i as int);
            }
        },
        None => {
            let zero = SocialEdge {
                affinity: 0,
                attachment: 0,
                trust: 0,
                safety: 0,
                tension: 0,
                last_updated: now,
            };
            proof {
                base = zero;
                lemma_lookup_social_none(s0, key@);
            }
            entries.push(SocialEntry { user: key.clone(), edge: zero });
            idx = entries.len() - 1;
        },
    }
    let ghost s1 = entries@;
    proof {
        assert(idx < s1.len() && s1[idx as int].user@ == key@);
        assert(forall|j: int| 0 <= j < idx ==> s1[j].user@ != key@);
        assert(s1[idx as int].edge == base);
        assert(base.wf());
    }
    let e = entries[idx].edge;
    let updated = SocialEdge {
        affinity: clamp_unit(e.affinity + clamp_delta(delta.delta_affinity)),
        attachment: clamp_unit(e.attachment + clamp_delta(delta.delta_attachment)),
        trust: clamp_unit(e.trust + clamp_delta(delta.delta_trust)),
        safety: clamp_unit(e.safety + clamp_delta(delta.delta_safety)),
        tension: clamp_unit(e.tension + clamp_delta(delta.delta_tension)),
        last_updated: now,
    };
    let entry = SocialEntry { user: key, edge: updated };
    proof {
        assert(updated == acc_social(base, delta, now as int));
    }
    entries.set(idx, entry);
    proof {
        let newent = SocialEntry { user: entry.user, edge: updated };
        assert(entries@ =~= s1.update(idx as int, newent));
        lemma_lookup_social_update(s1, idx as int, newent, key@);
        assert(lookup_social(entries@, key@) == Some(updated));
        assert forall|k: Seq<char>| k != key@ implies lookup_social(entries@, k)
            == lookup_social(s0, k) by {
            lemma_lookup_social_update(s1, idx as int, newent, k);
            if s1 != s0 {
                let pushed = s1[s1.len() - 1];
                assert(s1 =~= s0.push(pushed));
                lemma_lookup_social_push(s0, pushed, k);
            }
        }
        match lookup_social(s0, key@) {
            Some(e0) => {
                assert(e0 == base);
            },
            None => {
                assert(base == SocialEdge::spec_zero(now as int));
            },
        }
    }
}

impl CognitiveGraph {
    /// Accumulate a clamped delta on the agent's attitude toward `user_id`,
    /// stamped `now`. Every other edge is left as it was.
    pub fn update_social_graph(&mut self, user_id: &str, delta: SocialDelta, now: i64)
        requires
            old(self).wf(),
            now >= 0,
        ensures
            final(self).wf(),
            final(self).spec_attitudes(sanitized(user_id@)) == Some(
                acc_social(
                    match old(self).spec_attitudes(sanitized(user_id@)) {
                        Some(e) => e,
                        None => SocialEdge::spec_zero(now as int),
                    },
                    delta,
                    now as int,
                ),
            ),
            forall|k: Seq<char>|
                k != sanitized(user_id@) ==> final(self).spec_attitudes(k) == old(self).spec_attitudes(k),
            final(self).illusion@ == old(self).illusion@,
            final(self).feels@ == old(self).feels@,
            final(self).interacts@ == old(self).interacts@,
    {
        let key = sanitize_name(user_id);
        upsert_social(&mut self.attitudes, key, delta, now);
    }

    /// Accumulate a clamped delta on the user's projected perception of the
    /// agent, stamped `now`.
    pub fn update_illusion_graph(&mut self, user_id: &str, delta: SocialDelta, now: i64)
        requires
            old(self).wf(),
            now >= 0,
        ensures
            final(self).wf(),
            final(self).spec_illusion(sanitized(user_id@)) == Some(
                acc_social(
                    match old(self).spec_illusion(sanitized(user_id@)) {
                        Some(e) => e,
                        None => SocialEdge::spec_zero(now as int),
                    },
                    delta,
                    now as int,
                ),
            ),
            forall|k: Seq<char>|
                k != sanitized(user_id@) ==> final(self).spec_illusion(k) == old(self).spec_illusion(k),
            final(self).attitudes@ == old(self).attitudes@,
            final(self).feels@ == old(self).feels@,
            final(self).interacts@ == old(self).interacts@,
    {
        let key = sanitize_name(user_id);
        upsert_social(&mut self.illusion, key, delta, now);
    }
}

/// The attitude values read from a stored edge at time `now`: every axis
/// passively decayed by one percent per whole elapsed day. A missing edge
/// reads as all zeros.
pub open spec fn decayed_attitudes(e: Option<SocialEdge>, now: int) -> AttitudesTowards {
    match e {
        Some(ed) => {
            let d = days_between(ed.last_updated as int, now);
            AttitudesTowards {
                affinity: decay_value(ed.affinity as int, d) as i64,
                attachment: decay_value(ed.attachment as int, d) as i64,
                trust: decay_value(ed.trust as int, d) as i64,
                safety: decay_value(ed.safety as int, d) as i64,
                tension: decay_value(ed.tension as int, d) as i64,
            }
        },
        None => AttitudesTowards {
            affinity: 0,
            attachment: 0,
            trust: 0,
            safety: 0,
            tension: 0,
        },
    }
}

/// The illusion values read from a stored edge at time `now`, decayed the
/// same way.
pub open spec fn decayed_illusion(e: Option<SocialEdge>, now: int) -> IllusionOf {
    match e {
        Some(ed) => {
            let d = days_between(ed.last_updated as int, now);
            IllusionOf {
                affinity: decay_value(ed.affinity as int, d) as i64,
                attachment: decay_value(ed.attachment as int, d) as i64,
                trust: decay_value(ed.trust as int, d) as i64,
                safety: decay_value(ed.safety as int, d) as i64,
                tension: decay_value(ed.tension as int, d) as i64,
            }
        },
        None => IllusionOf { affinity: 0, attachment: 0, trust: 0, safety: 0, tension: 0 },
    }
}

/// Whole days between a stored stamp and `now`, as the decay schedule counts
/// them.
fn elapsed_days(last: i64, now: i64) -> (r: u64)
    requires
        last >= 0,
        now >= 0,
    ensures
        r == days_between(last as int, now as int),
{
    if now > last {
        ((now - last) / SECS_PER_DAY) as u64
    } else {
        0
    }
}

fn read_social_edge(entries: &Vec<SocialEntry>, key: &String, now: i64) -> (r: SocialEdge)
    requires
        forall|i: int| 0 <= i < entries@.len() ==> (#[trigger] entries@[i]).edge.wf(),
        now >= 0,
    ensures
        r.wf(),
        ({
            let looked = lookup_social(entries@, key@);
            match looked {
                Some(ed) => {
                    let d = days_between(ed.last_updated as int, now as int);
                    &&& r.affinity == decay_value(ed.affinity as int, d)
                    &&& r.attachment == decay_value(ed.attachment as int, d)
                    &&& r.trust == decay_value(ed.trust as int, d)
                    &&& r.safety == decay_value(ed.safety as int, d)
                    &&& r.tension == decay_value(ed.tension as int, d)
                },
                None => r.affinity == 0 && r.attachment == 0 && r.trust == 0 && r.safety
                    == 0 && r.tension == 0,
            }
        }),
{
    match find_social_index(entries, key) {
        Some(i) => {
            proof {
                lemma_lookup_social_at(entries@, key@, i as int);
            }
            let e = entries[i].edge;
            let d = elapsed_days(e.last_updated, now);
            SocialEdge {
                affinity: decay_apply(e.affinity, d),
                attachment: decay_apply(e.attachment, d),
                trust: decay_apply(e.trust, d),
                safety: decay_apply(e.safety, d),
                tension: decay_apply(e.tension, d),
                last_updated: e.last_updated,
            }
        },
        None => {
            proof {
                lemma_lookup_social_none(entries@, key@);
            }
            SocialEdge {
                affinity: 0,
                attachment: 0,
                trust: 0,
                safety: 0,
                tension: 0,
                last_updated: now,
            }
        },
    }
}

impl CognitiveGraph {
    /// Read the agent's attitude toward `user_id` and its projected illusion
    /// of the user's perception, both passively decayed as of `now`.
    ///
    /// Reading never writes: the store is borrowed immutably, decay is
    /// computed on the way out, and the result is a function of the store,
    /// the user and `now` alone — reading twice at one instant yields two
    /// equal values.
    pub fn get_social_context(&self, user_id: &str, now: i64) -> (r: (
        AttitudesTowards,
        IllusionOf,
    ))
        requires
            self.wf(),
            now >= 0,
        ensures
            r.0 == decayed_attitudes(
                self.spec_attitudes(sanitized(user_id@)),
                now as int,
            ),
            r.1 == decayed_illusion(self.spec_illusion(sanitized(user_id@)), now as int),
    {
        let key = sanitize_name(user_id);
        let att = read_social_edge(&self.attitudes, &key, now);
        let ill = read_social_edge(&self.illusion, &key, now);
        (
            AttitudesTowards {
                affinity: att.affinity,
                attachment: att.attachment,
                trust: att.trust,
                safety: att.safety,
                tension: att.tension,
            },
            IllusionOf {
                affinity: ill.affinity,
                attachment: ill.attachment,
                trust: ill.trust,
                safety: ill.safety,
                tension: ill.tension,
            },
        )
    }
}

/// The entity edge after one clamped accumulation of the three axis deltas.
pub open spec fn acc_feels_values(e: FeelsAbout, dp: int, ds: int, df: int) -> FeelsAbout {
    FeelsAbout {
        preference: clamp_unit_spec(e.preference + clamp_delta_spec(dp)) as i64,
        stress: clamp_unit_spec(e.stress + clamp_delta_spec(ds)) as i64,
        fascination: clamp_unit_spec(e.fascination + clamp_delta_spec(df)) as i64,
    }
}

/// The entity edge after one clamped accumulation.
pub open spec fn acc_feels(e: FeelsAbout, d: EmotionDelta) -> FeelsAbout {
    acc_feels_values(
        e,
        d.delta_preference as int,
        d.delta_stress as int,
        d.delta_fascination as int,
    )
}

impl CognitiveGraph {
    /// Accumulate a clamped delta on the agent's feelings toward an entity.
    pub fn update_emotion_graph(&mut self, entity_name: &str, delta: EmotionDelta)
        requires
            old(self).wf(),
        ensures
            final(self).wf(),
            final(self).spec_feels(sanitized(entity_name@)) == Some(
                acc_feels(
                    match old(self).spec_feels(sanitized(entity_name@)) {
                        Some(e) => e,
                        None => FeelsAbout { preference: 0, stress: 0, fascination: 0 },
                    },
                    delta,
                ),
            ),
            forall|k: Seq<char>|
                k != sanitized(entity_name@) ==> final(self).spec_feels(k) == old(self).spec_feels(k),
            final(self).attitudes@ == old(self).attitudes@,
            final(self).illusion@ == old(self).illusion@,
            final(self).interacts@ == old(self).interacts@,
    {
        let key = sanitize_name(entity_name);
        let ghost s0 = self.feels@;
        let idx: usize;
        let ghost base: FeelsAbout;
        match find_feels_index(&self.feels, &key) {
            Some(i) => {
                idx = i;
                proof {
                    base = s0[i as int].edge;
                    lemma_lookup_feels_at(s0, key@, i as int);
                }
            },
            None => {
                let zero = FeelsAbout { preference: 0, stress: 0, fascination: 0 };
                proof {
                    base = zero;
                    lemma_lookup_feels_none(s0, key@);
                }
                self.feels.push(FeelsEntry { entity: key.clone(), edge: zero });
                idx = self.feels.len() - 1;
            },
        }
        let ghost s1 = self.feels@;
        proof {
            assert(idx < s1.len() && s1[idx as int].entity@ == key@);
            assert(forall|j: int| 0 <= j < idx ==> s1[j].entity@ != key@);
            assert(s1[idx as int].edge == base);
        }
        let e = self.feels[idx].edge;
        let updated = FeelsAbout {
            preference: clamp_unit(e.preference + clamp_delta(delta.delta_preference)),
            stress: clamp_unit(e.stress + clamp_delta(delta.delta_stress)),
            fascination: clamp_unit(e.fascination + clamp_delta(delta.delta_fascination)),
        };
        let entry = FeelsEntry { entity: key, edge: updated };
        proof {
            assert(updated == acc_feels(base, delta));
        }
        self.feels.set(idx, entry);
        proof {
            let newent = FeelsEntry { entity: entry.entity, edge: updated };
            assert(self.feels@ =~= s1.update(idx as int, newent));
            lemma_lookup_feels_update(s1, idx as int, newent, key@);
            assert(lookup_feels(self.feels@, key@) == Some(updated));
            assert forall|k: Seq<char>| k != key@ implies lookup_feels(self.feels@, k)
                == lookup_feels(s0, k) by {
                lemma_lookup_feels_update(s1, idx as int, newent, k);
                if s1 != s0 {
                    let pushed = s1[s1.len() - 1];
                    assert(s1 =~= s0.push(pushed));
                    lemma_lookup_feels_push(s0, pushed, k);
                }
            }
        }
    }

    /// Record observed tension between two users: accumulate onto the
    /// `<from>_<to>` edge under the `[-UNIT, UNIT]` clamp.
    pub fn update_observed_dynamic(&mut self, from_user: &str, to_user: &str, tension: i64)
        requires
            old(self).wf(),
        ensures
            final(self).wf(),
            final(self).spec_tension(pair_key(from_user@, to_user@)) == Some(
                (clamp_unit_spec(
                    (match old(self).spec_tension(pair_key(from_user@, to_user@)) {
                        Some(t) => t as int,
                        None => 0,
                    }) + tension,
                )) as i64,
            ),
            forall|k: Seq<char>|
                k != pair_key(from_user@, to_user@) ==> final(self).spec_tension(k)
                    == old(self).spec_tension(k),
            final(self).attitudes@ == old(self).attitudes@,
            final(self).illusion@ == old(self).illusion@,
            final(self).feels@ == old(self).feels@,
    {
        let mut key = sanitize_name(from_user);
        key.append("_");
        let to_clean = sanitize_name(to_user);
        key.append(to_clean.as_str());
        proof {
            assert(key@ == pair_key(from_user@, to_user@));
        }
        let ghost s0 = self.interacts@;
        let idx: usize;
        let ghost base: i64;
        match find_tension_index(&self.interacts, &key) {
            Some(i) => {
                idx = i;
                proof {
                    base = s0[i as int].tension;
                    lemma_lookup_tension_at(s0, key@, i as int);
                }
            },
            None => {
                proof {
                    base = 0;
                    lemma_lookup_tension_none(s0, key@);
                }
                self.interacts.push(TensionEntry { pair: key.clone(), tension: 0 });
                idx = self.interacts.len() - 1;
            },
        }
        let ghost s1 = self.interacts@;
        proof {
            assert(idx < s1.len() && s1[idx as int].pair@ == key@);
            assert(forall|j: int| 0 <= j < idx ==> s1[j].pair@ != key@);
            assert(s1[idx as int].tension == base);
        }
        let e = self.interacts[idx].tension;
        proof {
            assert(-UNIT <= e <= UNIT);
        }
        let bounded: i64 = if tension > 2 * UNIT {
            2 * UNIT
        } else if tension < -2 * UNIT {
            -2 * UNIT
        } else {
            tension
        };
        let updated = clamp_unit(e + bounded);
        proof {
            assert(updated == clamp_unit_spec(base + tension));
        }
        let entry = TensionEntry { pair: key, tension: updated };
        self.interacts.set(idx, entry);
        proof {
            let newent = TensionEntry { pair: entry.pair, tension: updated };
            assert(self.interacts@ =~= s1.update(idx as int, newent));
            lemma_lookup_tension_update(s1, idx as int, newent, key@);
            assert(lookup_tension(self.interacts@, key@) == Some(updated));
            assert forall|k: Seq<char>| k != key@ implies lookup_tension(
                self.interacts@,
                k,
            ) == lookup_tension(s0, k) by {
                lemma_lookup_tension_update(s1, idx as int, newent, k);
                if s1 != s0 {
                    let pushed = s1[s1.len() - 1];
                    assert(s1 =~= s0.push(pushed));
                    lemma_lookup_tension_push(s0, pushed, k);
                }
            }
        }
    }
}

/// The key of the user-to-user edge from `from` to `to`: both names
/// sanitized, joined by an underscore.
pub open spec fn pair_key(from: Seq<char>, to: Seq<char>) -> Seq<char> {
    sanitized(from) + "_"@ + sanitized(to)
}

/// Accumulating the all-zero delta moves no axis: with the edge already in
/// range, clamping `field + 0` gives the field back. Writing a zero delta
/// any number of times leaves every value where it was.
pub proof fn lemma_zero_delta_accumulation(e: SocialEdge, z: SocialDelta, now: int)
    requires
        e.wf(),
        z.delta_affinity == 0,
        z.delta_attachment == 0,
        z.delta_trust == 0,
        z.delta_safety == 0,
        z.delta_tension == 0,
    ensures
        acc_social(e, z, now).affinity == e.affinity,
        acc_social(e, z, now).attachment == e.attachment,
        acc_social(e, z, now).trust == e.trust,
        acc_social(e, z, now).safety == e.safety,
        acc_social(e, z, now).tension == e.tension,
{
}

proof fn lemma_lookup_social_member(s: Seq<SocialEntry>, k: Seq<char>, e: SocialEdge)
    requires
        lookup_social(s, k) == Some(e),
    ensures
        exists|i: int| 0 <= i < s.len() && s[i].edge == e,
    decreases s.len(),
{
    if s.len() > 0 {
        if s[0].user@ == k {
            assert(s[0].edge == e);
        } else {
            lemma_lookup_social_member(s.drop_first(), k, e);
            let i = choose|i: int|
                0 <= i < s.drop_first().len() && s.drop_first()[i].edge == e;
            assert(s[i + 1].edge == e);
        }
    }
}

/// Every field of every stored social edge stays within `[-UNIT, UNIT]`:
/// whatever sequence of clamped writes produced the store, a well-formed
/// graph only ever holds values in range.
pub proof fn lemma_graph_fields_bounded(g: CognitiveGraph, key: Seq<char>, e: SocialEdge)
    requires
        g.wf(),
        g.spec_attitudes(key) == Some(e) || g.spec_illusion(key) == Some(e),
    ensures
        -UNIT <= e.affinity <= UNIT,
        -UNIT <= e.attachment <= UNIT,
        -UNIT <= e.trust <= UNIT,
        -UNIT <= e.safety <= UNIT,
        -UNIT <= e.tension <= UNIT,
{
    if g.spec_attitudes(key) == Some(e) {
        lemma_lookup_social_member(g.attitudes@, key, e);
    } else {
        lemma_lookup_social_member(g.illusion@, key, e);
    }
}

/// Decay never enlarges a value and never flips its sign out of range: a
/// decayed reading of a well-formed edge stays within `[-UNIT, UNIT]`.
pub proof fn lemma_decay_bounded(v: int, d: nat)
    requires
        -UNIT <= v <= UNIT,
    ensures
        -UNIT <= decay_value(v, d) <= UNIT,
    decreases d,
{
    if d > 0 {
        if v >= 0 {
            lemma_decay_bounded(v * 99 / 100, (d - 1) as nat);
        } else {
            lemma_decay_bounded(-((-v) * 99 / 100), (d - 1) as nat);
        }
    }
}

} // verus!
