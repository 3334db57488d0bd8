//! Application of a System-1 evaluation to the cognitive graph: the parsed
//! multi-target delta set is written under the hard clamp — one attitude
//! write per social target, one illusion write per chat partner that came
//! with a projected delta, plus entity and user-to-user updates.

use vstd::prelude::*;
use crate::graph::{
    acc_social, sanitized, CognitiveGraph, EmotionDelta, SocialDelta, SocialEdge,
};

verus! {

/// One social target of an evaluation.
pub struct SocialTargetUpdate {
    /// The user written to.
    pub target_user: String,
    /// `chat_partner` or `mentioned_person`.
    pub role: String,
    /// The delta for the agent's own attitude.
    pub actual_perception_delta: SocialDelta,
    /// The delta for the projected illusion, present for chat partners.
    pub projected_illusion_delta: Option<SocialDelta>,
}

impl SocialTargetUpdate {
    /// Whether this target is the chat partner.
    pub open spec fn is_chat_partner(&self) -> bool {
        self.role@ == "chat_partner"@
    }

    /// Whether this target gets an illusion write.
    pub open spec fn writes_illusion(&self) -> bool {
        self.is_chat_partner() && self.projected_illusion_delta is Some
    }
}

/// An observed user-to-user dynamic.
pub struct ObservedDynamic {
    pub from_user: String,
    pub to_user: String,
    /// The evaluator's note; carried along, not interpreted.
    pub observation: String,
    /// Tension delta in micro-units.
    pub estimated_tension: i64,
}

/// A delta on the agent's feelings toward an entity.
pub struct EntityUpdate {
    pub entity_name: String,
    pub delta_preference: i64,
    pub delta_stress: i64,
    pub delta_fascination: i64,
}

/// A full parsed evaluation: absent optional lists arrive empty.
pub struct System1Update {
    pub social_updates: Vec<SocialTargetUpdate>,
    pub observed_dynamics: Vec<ObservedDynamic>,
    pub entity_updates: Vec<EntityUpdate>,
}

/// How many of the first `n` social targets get an illusion write.
pub open spec fn illusion_writes(ups: Seq<SocialTargetUpdate>, n: int) -> nat
    decreases n,
{
    if n <= 0 {
        0
    } else {
        illusion_writes(ups, n - 1) + (if ups[n - 1].writes_illusion() {
            1nat
        } else {
            0nat
        })
    }
}

/// Whether `k` is the sanitized key of some social target of the list.
pub open spec fn is_social_key(ups: Seq<SocialTargetUpdate>, k: Seq<char>) -> bool {
    exists|t: int| 0 <= t < ups.len() && sanitized(ups[t].target_user@) == k
}

/// Whether `k` is the sanitized key of a target that gets an illusion
/// write.
pub open spec fn is_illusion_key(ups: Seq<SocialTargetUpdate>, k: Seq<char>) -> bool {
    exists|t: int|
        0 <= t < ups.len() && ups[t].writes_illusion() && sanitized(ups[t].target_user@) == k
}

/// Whether `k` is the pair key of some observed dynamic of the list.
pub open spec fn is_dynamic_key(ds: Seq<ObservedDynamic>, k: Seq<char>) -> bool {
    exists|t: int|
        0 <= t < ds.len() && crate::graph::pair_key(ds[t].from_user@, ds[t].to_user@) == k
}

/// Whether `k` is the sanitized name of some entity update of the list.
pub open spec fn is_entity_key(es: Seq<EntityUpdate>, k: Seq<char>) -> bool {
    exists|t: int| 0 <= t < es.len() && sanitized(es[t].entity_name@) == k
}

/// Pairwise-distinct sanitized social target names: each target owns its
/// own edge.
pub open spec fn distinct_social_targets(ups: Seq<SocialTargetUpdate>) -> bool {
    forall|t: int, t2: int|
        0 <= t < ups.len() && 0 <= t2 < ups.len() && t != t2 ==> sanitized(
            ups[t].target_user@,
        ) != sanitized(ups[t2].target_user@)
}

/// Pairwise-distinct sanitized entity names.
pub open spec fn distinct_entities(es: Seq<EntityUpdate>) -> bool {
    forall|t: int, t2: int|
        0 <= t < es.len() && 0 <= t2 < es.len() && t != t2 ==> sanitized(
            es[t].entity_name@,
        ) != sanitized(es[t2].entity_name@)
}

/// Pairwise-distinct user-to-user edge keys.
pub open spec fn distinct_pairs(ds: Seq<ObservedDynamic>) -> bool {
    forall|t: int, t2: int|
        0 <= t < ds.len() && 0 <= t2 < ds.len() && t != t2 ==> crate::graph::pair_key(
            ds[t].from_user@,
            ds[t].to_user@,
        ) != crate::graph::pair_key(ds[t2].from_user@, ds[t2].to_user@)
}

/// The attitude edge a social target leaves behind: its clamped delta
/// accumulated onto what `g` held (or the zero edge), stamped `now`.
pub open spec fn social_outcome(g: CognitiveGraph, u: SocialTargetUpdate, now: int) -> Option<
    SocialEdge,
> {
    Some(
        acc_social(
            match g.spec_attitudes(sanitized(u.target_user@)) {
                Some(e) => e,
                None => SocialEdge::spec_zero(now),
            },
            u.actual_perception_delta,
            now,
        ),
    )
}

/// The illusion edge a social target leaves behind: accumulated from the
/// projected delta for a chat partner that sent one, untouched otherwise.
pub open spec fn illusion_outcome(g: CognitiveGraph, u: SocialTargetUpdate, now: int) -> Option<
    SocialEdge,
> {
    if u.writes_illusion() {
        Some(
            acc_social(
                match g.spec_illusion(sanitized(u.target_user@)) {
                    Some(e) => e,
                    None => SocialEdge::spec_zero(now),
                },
                u.projected_illusion_delta.unwrap(),
                now,
            ),
        )
    } else {
        g.spec_illusion(sanitized(u.target_user@))
    }
}

/// The entity edge an update leaves behind: each axis is the clamped delta
/// accumulated onto what `g` held, or onto zero.
pub open spec fn feels_outcome(g: CognitiveGraph, u: EntityUpdate) -> crate::graph::FeelsAbout {
    crate::graph::acc_feels_values(
        match g.spec_feels(sanitized(u.entity_name@)) {
            Some(e) => e,
            None => crate::graph::FeelsAbout { preference: 0, stress: 0, fascination: 0 },
        },
        u.delta_preference as int,
        u.delta_stress as int,
        u.delta_fascination as int,
    )
}

/// The tension an observed dynamic leaves behind on its pair edge.
pub open spec fn tension_outcome(g: CognitiveGraph, d: ObservedDynamic) -> i64 {
    crate::graph::clamp_unit_spec(
        (match g.spec_tension(crate::graph::pair_key(d.from_user@, d.to_user@)) {
            Some(t) => t as int,
            None => 0,
        }) + d.estimated_tension,
    ) as i64
}

/// Apply one evaluation to the graph.
///
/// Every social target gets exactly one (clamped) attitude write; a chat
/// partner whose update carries a projected delta additionally gets exactly
/// one illusion write; each entity update and observed dynamic goes to its
/// own edge. The returned pair counts the attitude and illusion writes.
///
/// Where the targets of a list have pairwise distinct keys, the resulting
/// edges are exactly the clamped accumulations onto what the graph held
/// before the call. Whatever the lists hold — repeated keys included — an
/// edge whose key no list names is left as it was, so an empty or absent
/// list writes nothing to its table.
pub fn apply_system1_update(graph: &mut CognitiveGraph, update: &System1Update, now: i64) -> (r: (
    usize,
    usize,
))
    requires
        old(graph).wf(),
        now >= 0,
    ensures
        final(graph).wf(),
        forall|k: Seq<char>|
            !is_social_key(update.social_updates@, k) ==> final(graph).spec_attitudes(k)
                == old(graph).spec_attitudes(k),
        forall|k: Seq<char>|
            !is_illusion_key(update.social_updates@, k) ==> final(graph).spec_illusion(k)
                == old(graph).spec_illusion(k),
        forall|k: Seq<char>|
            !is_dynamic_key(update.observed_dynamics@, k) ==> final(graph).spec_tension(k)
                == old(graph).spec_tension(k),
        forall|k: Seq<char>|
            !is_entity_key(update.entity_updates@, k) ==> final(graph).spec_feels(k)
                == old(graph).spec_feels(k),
        r.0 == update.social_updates@.len(),
        r.1 == illusion_writes(
            update.social_updates@,
            update.social_updates@.len() as int,
        ),
        distinct_social_targets(update.social_updates@) ==> (forall|t: int|
            0 <= t < update.social_updates@.len() ==> final(graph).spec_attitudes(
                sanitized((#[trigger] update.social_updates@[t]).target_user@),
            ) == social_outcome(*old(graph), update.social_updates@[t], now as int)),
        distinct_social_targets(update.social_updates@) ==> (forall|t: int|
            0 <= t < update.social_updates@.len() ==> final(graph).spec_illusion(
                sanitized((#[trigger] update.social_updates@[t]).target_user@),
            ) == illusion_outcome(*old(graph), update.social_updates@[t], now as int)),
        distinct_pairs(update.observed_dynamics@) ==> (forall|t: int|
            0 <= t < update.observed_dynamics@.len() ==> final(graph).spec_tension(
                crate::graph::pair_key(
                    (#[trigger] update.observed_dynamics@[t]).from_user@,
                    update.observed_dynamics@[t].to_user@,
                ),
            ) == Some(tension_outcome(*old(graph), update.observed_dynamics@[t]))),
        distinct_entities(update.entity_updates@) ==> (forall|t: int|
            0 <= t < update.entity_updates@.len() ==> final(graph).spec_feels(
                sanitized((#[trigger] update.entity_updates@[t]).entity_name@),
            ) == Some(feels_outcome(*old(graph), update.entity_updates@[t]))),
{
    let ghost ups = update.social_updates@;
    let n = update.social_updates.len();
    let mut att_writes: usize = 0;
    let mut ill_writes: usize = 0;
    let mut i: usize = 0;
    while i < n
        invariant
            i <= n,
            n == ups.len(),
            ups == update.social_updates@,
            graph.wf(),
            now >= 0,
            att_writes == i,
            ill_writes <= i,
            ill_writes == illusion_writes(ups, i as int),
            graph.feels@ == old(graph).feels@,
            graph.interacts@ == old(graph).interacts@,
            forall|k: Seq<char>|
                !is_social_key(ups, k) ==> graph.spec_attitudes(k) == old(
                    graph,
                ).spec_attitudes(k),
            forall|k: Seq<char>|
                !is_illusion_key(ups, k) ==> graph.spec_illusion(k) == old(
                    graph,
                ).spec_illusion(k),
            distinct_social_targets(ups) ==> (forall|t: int|
                0 <= t < i ==> graph.spec_attitudes(
                    sanitized((#[trigger] ups[t]).target_user@),
                ) == social_outcome(*old(graph), ups[t], now as int)),
            distinct_social_targets(ups) ==> (forall|t: int|
                i <= t < ups.len() ==> graph.spec_attitudes(
                    sanitized((#[trigger] ups[t]).target_user@),
                ) == old(graph).spec_attitudes(sanitized(ups[t].target_user@))),
            distinct_social_targets(ups) ==> (forall|t: int|
                0 <= t < i ==> graph.spec_illusion(
                    sanitized((#[trigger] ups[t]).target_user@),
                ) == illusion_outcome(*old(graph), ups[t], now as int)),
            distinct_social_targets(ups) ==> (forall|t: int|
                i <= t < ups.len() ==> graph.spec_illusion(
                    sanitized((#[trigger] ups[t]).target_user@),
                ) == old(graph).spec_illusion(sanitized(ups[t].target_user@))),
        decreases n - i,
    {
        let social = &update.social_updates[i];
        graph.update_social_graph(
            social.target_user.as_str(),
            social.actual_perception_delta,
            now,
        );
        att_writes = att_writes + 1;
        let wrote_illusion: bool;
        if crate::text::str_eq(social.role.as_str(), "chat_partner") {
            match &social.projected_illusion_delta {
                Some(projected) => {
                    graph.update_illusion_graph(social.target_user.as_str(), *projected, now);
                    ill_writes = ill_writes + 1;
                    wrote_illusion = true;
                },
                None => {
                    wrote_illusion = false;
                },
            }
        } else {
            wrote_illusion = false;
        }
        proof {
            assert(is_social_key(ups, sanitized(ups[i as int].target_user@)));
            if ups[i as int].writes_illusion() {
                assert(is_illusion_key(ups, sanitized(ups[i as int].target_user@)));
            }
            assert(wrote_illusion == ups[i as int].writes_illusion());
            assert(illusion_writes(ups, i + 1) == illusion_writes(ups, i as int) + (
            if ups[i as int].writes_illusion() {
                1nat
            } else {
                0nat
            }));
        }
        i = i + 1;
    }
    // User-to-user tension edges; the other tables are untouched here.
    let ghost att_after = graph.attitudes@;
    let ghost ill_after = graph.illusion@;
    let ghost dyns = update.observed_dynamics@;
    proof {
        assert forall|k: Seq<char>| !is_social_key(ups, k) implies crate::graph::lookup_social(
            att_after,
            k,
        ) == old(graph).spec_attitudes(k) by {
            assert(graph.spec_attitudes(k) == old(graph).spec_attitudes(k));
        }
        assert forall|k: Seq<char>| !is_illusion_key(ups, k) implies crate::graph::lookup_social(
            ill_after,
            k,
        ) == old(graph).spec_illusion(k) by {
            assert(graph.spec_illusion(k) == old(graph).spec_illusion(k));
        }
    }
    let m = update.observed_dynamics.len();
    let mut j: usize = 0;
    while j < m
        invariant
            j <= m,
            m == dyns.len(),
            dyns == update.observed_dynamics@,
            graph.wf(),
            graph.attitudes@ == att_after,
            graph.illusion@ == ill_after,
            graph.feels@ == old(graph).feels@,
            forall|k: Seq<char>|
                !is_dynamic_key(dyns, k) ==> graph.spec_tension(k) == old(
                    graph,
                ).spec_tension(k),
            distinct_pairs(dyns) ==> (forall|t: int|
                0 <= t < j ==> graph.spec_tension(
                    crate::graph::pair_key(
                        (#[trigger] dyns[t]).from_user@,
                        dyns[t].to_user@,
                    ),
                ) == Some(tension_outcome(*old(graph), dyns[t]))),
            distinct_pairs(dyns) ==> (forall|t: int|
                j <= t < dyns.len() ==> graph.spec_tension(
                    crate::graph::pair_key(
                        (#[trigger] dyns[t]).from_user@,
                        dyns[t].to_user@,
                    ),
                ) == old(graph).spec_tension(
                    crate::graph::pair_key(dyns[t].from_user@, dyns[t].to_user@),
                )),
        decreases m - j,
    {
        let dynamic = &update.observed_dynamics[j];
        graph.update_observed_dynamic(
            dynamic.from_user.as_str(),
            dynamic.to_user.as_str(),
            dynamic.estimated_tension,
        );
        proof {
            assert(is_dynamic_key(
                dyns,
                crate::graph::pair_key(dyns[j as int].from_user@, dyns[j as int].to_user@),
            ));
        }
        j = j + 1;
    }
    // Entity edges; the other tables are untouched here.
    let ghost inter_after = graph.interacts@;
    let ghost ents = update.entity_updates@;
    proof {
        assert forall|k: Seq<char>| !is_dynamic_key(dyns, k) implies crate::graph::lookup_tension(
            inter_after,
            k,
        ) == old(graph).spec_tension(k) by {
            assert(graph.spec_tension(k) == old(graph).spec_tension(k));
        }
    }
    let e = update.entity_updates.len();
    let mut k: usize = 0;
    while k < e
        invariant
            k <= e,
            e == ents.len(),
            ents == update.entity_updates@,
            graph.wf(),
            graph.attitudes@ == att_after,
            graph.illusion@ == ill_after,
            graph.interacts@ == inter_after,
            forall|k2: Seq<char>|
                !is_entity_key(ents, k2) ==> graph.spec_feels(k2) == old(
                    graph,
                ).spec_feels(k2),
            distinct_entities(ents) ==> (forall|t: int|
                0 <= t < k ==> graph.spec_feels(
                    sanitized((#[trigger] ents[t]).entity_name@),
                ) == Some(feels_outcome(*old(graph), ents[t]))),
            distinct_entities(ents) ==> (forall|t: int|
                k <= t < ents.len() ==> graph.spec_feels(
                    sanitized((#[trigger] ents[t]).entity_name@),
                ) == old(graph).spec_feels(sanitized(ents[t].entity_name@))),
        decreases e - k,
    {
        let entity = &update.entity_updates[k];
        let delta = EmotionDelta {
            entity_name: entity.entity_name.clone(),
            delta_preference: entity.delta_preference,
            delta_stress: entity.delta_stress,
            delta_fascination: entity.delta_fascination,
        };
        graph.update_emotion_graph(entity.entity_name.as_str(), delta);
        proof {
            assert(is_entity_key(ents, sanitized(ents[k as int].entity_name@)));
        }
        k = k + 1;
    }
    proof {
        assert forall|k2: Seq<char>| !is_social_key(ups, k2) implies graph.spec_attitudes(k2)
            == old(graph).spec_attitudes(k2) by {
            assert(crate::graph::lookup_social(att_after, k2) == old(graph).spec_attitudes(k2));
        }
        assert forall|k2: Seq<char>| !is_illusion_key(ups, k2) implies graph.spec_illusion(k2)
            == old(graph).spec_illusion(k2) by {
            assert(crate::graph::lookup_social(ill_after, k2) == old(graph).spec_illusion(k2));
        }
        assert forall|k2: Seq<char>| !is_dynamic_key(dyns, k2) implies graph.spec_tension(k2)
            == old(graph).spec_tension(k2) by {
            assert(crate::graph::lookup_tension(inter_after, k2) == old(graph).spec_tension(k2));
        }
    }
    (att_writes, ill_writes)
}

} // verus!


