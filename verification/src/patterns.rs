//! Pattern extraction from episodic memory: recurring events, preferred
//! outcomes, common workflows and event clusters.
//!
//! Groups appear in the order their key first occurs among the episodes.
use vstd::prelude::*;
use crate::grouping::{Group, group_by_key, group_values, groups_view, lemma_group_sizes};
use crate::text::{concat_str, owned};
use crate::textsort::{stable_sort_by_text, stable_text_order};

verus! {

/// What the pattern extractor reads of one episode. The two valence flags
/// are `valence > 0.5` and `valence > 0.0` of the stored valence (absent
/// valence gives `false` for both).
pub struct EpisodeFacts {
    pub id: Option<i64>,
    pub event_type: String,
    pub conversation_id: Option<String>,
    pub outcome: Option<String>,
    pub timestamp: String,
    pub strongly_positive: bool,
    pub positive: bool,
}

/// The kind of a pattern; its name is stored as the pattern type.
#[derive(Clone, Copy, Debug, PartialEq, Eq, Structural)]
pub enum PatternKind {
    RecurringEvent,
    UserPreference,
    Workflow,
    Cluster,
}

impl PatternKind {
    /// The stored name of the pattern kind.
    pub fn label(&self) -> (s: &'static str)
        ensures
            *self == PatternKind::RecurringEvent ==> s@ == "recurring_event"@,
            *self == PatternKind::UserPreference ==> s@ == "user_preference"@,
            *self == PatternKind::Workflow ==> s@ == "workflow"@,
            *self == PatternKind::Cluster ==> s@ == "cluster"@,
    {
        match self {
            PatternKind::RecurringEvent => "recurring_event",
            PatternKind::UserPreference => "user_preference",
            PatternKind::Workflow => "workflow",
            PatternKind::Cluster => "cluster",
        }
    }
}

/// A confidence held as the exact fraction `num / den`.
#[derive(Clone, Copy, Debug, PartialEq, Eq, Structural)]
pub struct Confidence {
    pub num: u64,
    pub den: u64,
}

/// A pattern found among episodes.
pub struct Pattern {
    pub kind: PatternKind,
    pub description: String,
    pub frequency: i64,
    pub confidence: Confidence,
    pub source_episodes: Vec<i64>,
}

/// The mathematical content of a pattern.
pub struct PatternView {
    pub kind: PatternKind,
    pub description: Seq<char>,
    pub frequency: int,
    pub confidence: Confidence,
    pub sources: Seq<i64>,
}

impl View for Pattern {
    type V = PatternView;

    open spec fn view(&self) -> PatternView {
        PatternView {
            kind: self.kind,
            description: self.description@,
            frequency: self.frequency as int,
            confidence: self.confidence,
            sources: self.source_episodes@,
        }
    }
}

pub open spec fn patterns_view(ps: Seq<Pattern>) -> Seq<PatternView> {
    ps.map_values(|p: Pattern| p@)
}

/// How the groups of one extractor become patterns.
pub struct PatternRule {
    pub kind: PatternKind,
    pub min_count: nat,
    pub prefix: Seq<char>,
    pub fixed_confidence: Option<Confidence>,
    pub total: u64,
    pub keep_sources: bool,
}

/// The pattern made from one group: description is the prefix and the key,
/// frequency the group size, confidence either fixed or size/total.
pub open spec fn pattern_of_group(g: (Seq<char>, Seq<i64>), r: PatternRule) -> PatternView {
    PatternView {
        kind: r.kind,
        description: r.prefix + g.0,
        frequency: g.1.len() as int,
        confidence: match r.fixed_confidence {
            Some(c) => c,
            None => Confidence { num: g.1.len() as u64, den: r.total },
        },
        sources: if r.keep_sources {
            g.1
        } else {
            Seq::empty()
        },
    }
}

/// Patterns made from the groups with at least `min_count` members, in
/// group order.
pub open spec fn patterns_of_groups(gs: Seq<(Seq<char>, Seq<i64>)>, r: PatternRule) -> Seq<
    PatternView,
>
    decreases gs.len(),
{
    if gs.len() == 0 {
        Seq::empty()
    } else {
        let p = patterns_of_groups(gs.drop_last(), r);
        if gs.last().1.len() >= r.min_count {
            p.push(pattern_of_group(gs.last(), r))
        } else {
            p
        }
    }
}

fn patterns_from_groups(
    groups: &Vec<Group>,
    min_count: usize,
    kind: PatternKind,
    prefix: &str,
    fixed_confidence: Option<Confidence>,
    total: u64,
    keep_sources: bool,
) -> (out: Vec<Pattern>)
    requires
        forall|i: int| 0 <= i < groups.len() ==> (#[trigger] groups@[i]).members.len() <= i64::MAX,
    ensures
        patterns_view(out@) == patterns_of_groups(
            groups_view(groups@),
            PatternRule {
                kind,
                min_count: min_count as nat,
                prefix: prefix@,
                fixed_confidence,
                total,
                keep_sources,
            },
        ),
{
    let ghost rule = PatternRule {
        kind,
        min_count: min_count as nat,
        prefix: prefix@,
        fixed_confidence,
        total,
        keep_sources,
    };
    let mut out: Vec<Pattern> = Vec::new();
    let mut i: usize = 0;
    while i < groups.len()
        invariant
            i <= groups.len(),
            forall|q: int| 0 <= q < groups.len() ==> (#[trigger] groups@[q]).members.len() <= i64::MAX,
            rule == (PatternRule {
                kind,
                min_count: min_count as nat,
                prefix: prefix@,
                fixed_confidence,
                total,
                keep_sources,
            }),
            patterns_view(out@) == patterns_of_groups(groups_view(groups@).take(i as int), rule),
        decreases groups.len() - i,
    {
        let g = &groups[i];
        proof {
            assert(groups_view(groups@).take(i + 1).drop_last() =~= groups_view(groups@).take(
                i as int,
            ));
            assert(groups_view(groups@).take(i + 1).last() == (g.key@, g.members@));
        }
        if g.members.len() >= min_count {
            let n = g.members.len();
            let confidence = match fixed_confidence {
                Some(c) => c,
                None => Confidence { num: n as u64, den: total },
            };
            let sources = if keep_sources {
                g.members.clone()
            } else {
                Vec::new()
            };
            let ghost before = patterns_view(out@);
            let p = Pattern {
                kind,
                description: concat_str(prefix, g.key.as_str()),
                frequency: n as i64,
                confidence,
                source_episodes: sources,
            };
            proof {
                assert(sources@ == if keep_sources {
                    g.members@
                } else {
                    Seq::<i64>::empty()
                });
                assert(p@ == pattern_of_group((g.key@, g.members@), rule));
            }
            out.push(p);
            proof {
                assert(patterns_view(out@) =~= before.push(pattern_of_group((g.key@, g.members@), rule)));
            }
        }
        i += 1;
    }
    proof {
        assert(groups_view(groups@).take(groups.len() as int) =~= groups_view(groups@));
    }
    out
}

/// Event types of the episodes, in order.
pub open spec fn event_types(eps: Seq<EpisodeFacts>) -> Seq<Seq<char>> {
    eps.map_values(|e: EpisodeFacts| e.event_type@)
}

/// Ids of the episodes, zero where an episode has none.
pub open spec fn episode_ids(eps: Seq<EpisodeFacts>) -> Seq<i64> {
    eps.map_values(
        |e: EpisodeFacts|
            match e.id {
                Some(i) => i,
                None => 0,
            },
    )
}

/// `n` zeros: group members whose values are not kept.
pub open spec fn zeros(n: nat) -> Seq<i64> {
    Seq::new(n, |i: int| 0i64)
}

/// The patterns `extract_recurring_patterns` finds: each event type seen at
/// least twice, with its episode ids and a confidence of its share of all
/// episodes.
pub open spec fn recurring_patterns_spec(eps: Seq<EpisodeFacts>) -> Seq<PatternView> {
    patterns_of_groups(
        group_by_key(event_types(eps), episode_ids(eps)),
        PatternRule {
            kind: PatternKind::RecurringEvent,
            min_count: 2,
            prefix: "Recurring event: "@,
            fixed_confidence: None,
            total: eps.len() as u64,
            keep_sources: true,
        },
    )
}

fn keys_and_ids(eps: &Vec<EpisodeFacts>) -> (r: (Vec<String>, Vec<i64>))
    ensures
        r.0.deep_view() == event_types(eps@),
        r.1@ == episode_ids(eps@),
{
    let mut keys: Vec<String> = Vec::new();
    let mut ids: Vec<i64> = Vec::new();
    let mut i: usize = 0;
    while i < eps.len()
        invariant
            i <= eps.len(),
            keys.deep_view() == event_types(eps@).take(i as int),
            ids@ == episode_ids(eps@).take(i as int),
        decreases eps.len() - i,
    {
        let ghost prev = keys.deep_view();
        let ghost prev_ids = ids@;
        keys.push(owned(eps[i].event_type.as_str()));
        let id = match eps[i].id {
            Some(x) => x,
            None => 0,
        };
        ids.push(id);
        proof {
            assert(keys.deep_view() =~= prev.push(eps@[i as int].event_type@));
            assert(event_types(eps@).take(i + 1) =~= event_types(eps@).take(i as int).push(
                eps@[i as int].event_type@,
            ));
            assert(ids@ =~= prev_ids.push(id));
            assert(episode_ids(eps@).take(i + 1) =~= episode_ids(eps@).take(i as int).push(id));
        }
        i += 1;
    }
    proof {
        assert(event_types(eps@).take(eps.len() as int) =~= event_types(eps@));
        assert(episode_ids(eps@).take(eps.len() as int) =~= episode_ids(eps@));
    }
    (keys, ids)
}

proof fn lemma_groups_fit(keys: Seq<Seq<char>>, vals: Seq<i64>, gs: Seq<Group>)
    requires
        keys.len() == vals.len(),
        keys.len() <= i64::MAX,
        groups_view(gs) == group_by_key(keys, vals),
    ensures
        forall|i: int| 0 <= i < gs.len() ==> (#[trigger] gs[i]).members.len() <= i64::MAX,
{
    lemma_group_sizes(keys, vals);
    assert forall|i: int| 0 <= i < gs.len() implies (#[trigger] gs[i]).members.len() <= i64::MAX by {
        lemma_member_bound(group_by_key(keys, vals), i);
        assert(groups_view(gs)[i] == (gs[i].key@, gs[i].members@));
    }
}

proof fn lemma_member_bound(g: Seq<(Seq<char>, Seq<i64>)>, i: int)
    requires
        0 <= i < g.len(),
    ensures
        g[i].1.len() <= crate::grouping::total_members(g),
    decreases g.len(),
{
    if i < g.len() - 1 {
        lemma_member_bound(g.drop_last(), i);
        assert(g.drop_last()[i] == g[i]);
    }
}

/// Patterns of event types that recur: every event type seen at least twice.
pub fn extract_recurring_patterns(eps: &Vec<EpisodeFacts>) -> (out: Vec<Pattern>)
    requires
        eps.len() <= i64::MAX,
    ensures
        patterns_view(out@) == recurring_patterns_spec(eps@),
{
    let (keys, ids) = keys_and_ids(eps);
    let groups = group_values(&keys, &ids);
    proof {
        lemma_groups_fit(keys.deep_view(), ids@, groups@);
    }
    patterns_from_groups(
        &groups,
        2,
        PatternKind::RecurringEvent,
        "Recurring event: ",
        None,
        eps.len() as u64,
        true,
    )
}

/// Outcomes of the episodes with a valence above one half, in order.
pub open spec fn preferred_outcomes(eps: Seq<EpisodeFacts>) -> Seq<Seq<char>>
    decreases eps.len(),
{
    if eps.len() == 0 {
        Seq::empty()
    } else {
        let p = preferred_outcomes(eps.drop_last());
        let e = eps.last();
        if e.strongly_positive && e.outcome is Some {
            p.push(e.outcome->0@)
        } else {
            p
        }
    }
}

/// The patterns `extract_user_preferences` finds: each outcome of a strongly
/// positive episode seen at least twice, with confidence 0.7.
pub open spec fn user_preferences_spec(eps: Seq<EpisodeFacts>) -> Seq<PatternView> {
    patterns_of_groups(
        group_by_key(preferred_outcomes(eps), zeros(preferred_outcomes(eps).len())),
        PatternRule {
            kind: PatternKind::UserPreference,
            min_count: 2,
            prefix: "Preferred outcome: "@,
            fixed_confidence: Some(Confidence { num: 7, den: 10 }),
            total: 0,
            keep_sources: false,
        },
    )
}

/// Patterns of outcomes that strongly positive episodes share.
pub fn extract_user_preferences(eps: &Vec<EpisodeFacts>) -> (out: Vec<Pattern>)
    requires
        eps.len() <= i64::MAX,
    ensures
        patterns_view(out@) == user_preferences_spec(eps@),
{
    let mut keys: Vec<String> = Vec::new();
    let mut vals: Vec<i64> = Vec::new();
    let mut i: usize = 0;
    while i < eps.len()
        invariant
            i <= eps.len(),
            keys.deep_view() == preferred_outcomes(eps@.take(i as int)),
            vals@ == zeros(keys.len() as nat),
            keys.len() <= i,
        decreases eps.len() - i,
    {
        proof {
            assert(eps@.take(i + 1).drop_last() =~= eps@.take(i as int));
        }
        let e = &eps[i];
        if e.strongly_positive {
            match &e.outcome {
                Some(o) => {
                    keys.push(owned(o.as_str()));
                    vals.push(0);
                    assert(vals@ =~= zeros(keys.len() as nat));
                },
                None => {},
            }
        }
        i += 1;
    }
    proof {
        assert(eps@.take(eps.len() as int) =~= eps@);
    }
    let groups = group_values(&keys, &vals);
    proof {
        lemma_groups_fit(keys.deep_view(), vals@, groups@);
    }
    patterns_from_groups(
        &groups,
        2,
        PatternKind::UserPreference,
        "Preferred outcome: ",
        Some(Confidence { num: 7, den: 10 }),
        0,
        false,
    )
}

/// Timestamps of the episodes, in order.
pub open spec fn timestamps(eps: Seq<EpisodeFacts>) -> Seq<Seq<char>> {
    eps.map_values(|e: EpisodeFacts| e.timestamp@)
}

pub open spec fn opt_chars(o: Option<String>) -> Option<Seq<char>> {
    match o {
        Some(s) => Some(s@),
        None => None,
    }
}

/// "a -> b" for consecutive episodes (in `order`) of the same conversation.
pub open spec fn transitions(eps: Seq<EpisodeFacts>, order: Seq<usize>) -> Seq<Seq<char>>
    decreases order.len(),
{
    if order.len() < 2 {
        Seq::empty()
    } else {
        let p = transitions(eps, order.drop_last());
        let a = eps[order[order.len() - 2] as int];
        let b = eps[order[order.len() - 1] as int];
        if a.conversation_id is Some && opt_chars(b.conversation_id) == opt_chars(a.conversation_id) {
            p.push(a.event_type@ + " -> "@ + b.event_type@)
        } else {
            p
        }
    }
}

/// The patterns `extract_successful_workflows` finds: with the episodes in
/// stable timestamp order, each step between consecutive episodes of one
/// conversation that occurs at least twice, with confidence 0.6.
pub open spec fn workflows_spec(eps: Seq<EpisodeFacts>) -> Seq<PatternView> {
    let t = transitions(eps, stable_text_order(timestamps(eps)));
    patterns_of_groups(
        group_by_key(t, zeros(t.len())),
        PatternRule {
            kind: PatternKind::Workflow,
            min_count: 2,
            prefix: "Common workflow: "@,
            fixed_confidence: Some(Confidence { num: 6, den: 10 }),
            total: 0,
            keep_sources: false,
        },
    )
}

/// Two episodes form a workflow step when both name a conversation and it
/// is the same one.
pub open spec fn same_conversation_step(a: EpisodeFacts, b: EpisodeFacts) -> bool {
    &&& a.conversation_id is Some
    &&& b.conversation_id is Some
    &&& a.conversation_id->0@ == b.conversation_id->0@
}

/// The text of the step from position `k - 1` to position `k` of `order`.
pub open spec fn step_text(eps: Seq<EpisodeFacts>, order: Seq<usize>, k: int) -> Seq<char> {
    eps[order[k - 1] as int].event_type@ + " -> "@ + eps[order[k] as int].event_type@
}

/// `s` is the step from position `k - 1` to position `k` of `order`, and
/// those two episodes belong to one conversation.
pub open spec fn is_conversation_step(eps: Seq<EpisodeFacts>, order: Seq<usize>, k: int, s: Seq<char>) -> bool {
    &&& 1 <= k < order.len()
    &&& same_conversation_step(eps[order[k - 1] as int], eps[order[k] as int])
    &&& s == step_text(eps, order, k)
}

proof fn lemma_transition_is_step(eps: Seq<EpisodeFacts>, order: Seq<usize>, m: int)
    requires
        0 <= m < transitions(eps, order).len(),
    ensures
        exists|k: int| is_conversation_step(eps, order, k, transitions(eps, order)[m]),
    decreases order.len(),
{
    let p = order.drop_last();
    let tp = transitions(eps, p);
    let n = order.len() - 1;
    if m < tp.len() {
        lemma_transition_is_step(eps, p, m);
        assert(transitions(eps, order)[m] == tp[m]);
        let k = choose|k: int| is_conversation_step(eps, p, k, tp[m]);
        assert(p[k - 1] == order[k - 1] && p[k] == order[k]);
        assert(is_conversation_step(eps, order, k, transitions(eps, order)[m]));
    } else {
        let a = eps[order[n - 1] as int];
        let b = eps[order[n] as int];
        assert(a.conversation_id is Some && opt_chars(b.conversation_id) == opt_chars(
            a.conversation_id,
        ));
        assert(is_conversation_step(eps, order, n, transitions(eps, order)[m]));
    }
}

proof fn lemma_group_keys_from(keys: Seq<Seq<char>>, vals: Seq<i64>)
    ensures
        forall|j: int|
            0 <= j < group_by_key(keys, vals).len() ==> exists|m: int|
                0 <= m < keys.len() && #[trigger] group_by_key(keys, vals)[j].0 == keys[m],
    decreases keys.len(),
{
    if keys.len() > 0 && vals.len() > 0 {
        let kp = keys.drop_last();
        let g = group_by_key(kp, vals.drop_last());
        lemma_group_keys_from(kp, vals.drop_last());
        let h = group_by_key(keys, vals);
        crate::grouping::lemma_find_key(g, keys.last());
        assert forall|j: int| 0 <= j < h.len() implies exists|m: int|
            0 <= m < keys.len() && #[trigger] h[j].0 == keys[m] by {
            match crate::grouping::find_key(g, keys.last()) {
                Some(i) => {
                    assert(h == g.update(i, (g[i].0, g[i].1.push(vals.last()))));
                    assert(h.len() == g.len());
                    assert(h[j].0 == g[j].0);
                    let mm = choose|m: int| 0 <= m < kp.len() && #[trigger] g[j].0 == kp[m];
                    assert(kp[mm] == keys[mm]);
                },
                None => {
                    if j < g.len() {
                        let mm = choose|m: int| 0 <= m < kp.len() && #[trigger] g[j].0 == kp[m];
                        assert(h[j] == g[j]);
                        assert(kp[mm] == keys[mm]);
                    } else {
                        assert(h[j].0 == keys[keys.len() - 1]);
                    }
                },
            }
        }
    }
}

proof fn lemma_patterns_from_group(gs: Seq<(Seq<char>, Seq<i64>)>, r: PatternRule)
    ensures
        forall|i: int|
            0 <= i < patterns_of_groups(gs, r).len() ==> exists|j: int|
                0 <= j < gs.len() && gs[j].1.len() >= r.min_count && #[trigger] patterns_of_groups(
                    gs,
                    r,
                )[i] == pattern_of_group(gs[j], r),
    decreases gs.len(),
{
    if gs.len() > 0 {
        let gp = gs.drop_last();
        lemma_patterns_from_group(gp, r);
        let pp = patterns_of_groups(gp, r);
        let ps = patterns_of_groups(gs, r);
        assert forall|i: int| 0 <= i < ps.len() implies exists|j: int|
            0 <= j < gs.len() && gs[j].1.len() >= r.min_count && #[trigger] ps[i] == pattern_of_group(
                gs[j],
                r,
            ) by {
            if i < pp.len() {
                assert(ps[i] == pp[i]);
                let j = choose|j: int|
                    0 <= j < gp.len() && gp[j].1.len() >= r.min_count && #[trigger] pp[i]
                        == pattern_of_group(gp[j], r);
                assert(gp[j] == gs[j]);
            } else {
                assert(ps[i] == pattern_of_group(gs[gs.len() - 1], r));
            }
        }
    }
}

/// Every workflow is a step between episodes that are consecutive in
/// timestamp order and belong to one and the same conversation: its
/// description is `Common workflow: <earlier type> -> <later type>` for such
/// a pair, it was seen at least twice, and its confidence is 0.6. Episodes
/// of different conversations, or without one, never form a workflow step.
pub proof fn lemma_workflows_within_conversations(eps: Seq<EpisodeFacts>)
    ensures
        forall|i: int|
            0 <= i < workflows_spec(eps).len() ==> {
                &&& exists|k: int|
                    is_conversation_step(
                        eps,
                        stable_text_order(timestamps(eps)),
                        k,
                        (#[trigger] workflows_spec(eps)[i]).description.skip(17),
                    )
                &&& workflows_spec(eps)[i].description.take(17) == "Common workflow: "@
                &&& workflows_spec(eps)[i].frequency >= 2
                &&& workflows_spec(eps)[i].kind == PatternKind::Workflow
                &&& workflows_spec(eps)[i].confidence == (Confidence { num: 6, den: 10 })
            },
{
    reveal_strlit("Common workflow: ");
    let ord = stable_text_order(timestamps(eps));
    let t = transitions(eps, ord);
    let gs = group_by_key(t, zeros(t.len()));
    let r = PatternRule {
        kind: PatternKind::Workflow,
        min_count: 2,
        prefix: "Common workflow: "@,
        fixed_confidence: Some(Confidence { num: 6, den: 10 }),
        total: 0,
        keep_sources: false,
    };
    lemma_group_keys_from(t, zeros(t.len()));
    lemma_patterns_from_group(gs, r);
    let w = workflows_spec(eps);
    assert(w == patterns_of_groups(gs, r));
    assert forall|i: int| 0 <= i < w.len() implies {
        &&& exists|k: int| is_conversation_step(eps, ord, k, (#[trigger] w[i]).description.skip(17))
        &&& w[i].description.take(17) == "Common workflow: "@
        &&& w[i].frequency >= 2
        &&& w[i].kind == PatternKind::Workflow
        &&& w[i].confidence == (Confidence { num: 6, den: 10 })
    } by {
        let j = choose|j: int|
            0 <= j < gs.len() && gs[j].1.len() >= r.min_count && #[trigger] w[i] == pattern_of_group(
                gs[j],
                r,
            );
        let m = choose|m: int| 0 <= m < t.len() && #[trigger] gs[j].0 == t[m];
        lemma_transition_is_step(eps, ord, m);
        let k = choose|k: int| is_conversation_step(eps, ord, k, t[m]);
        assert(w[i].description == "Common workflow: "@ + gs[j].0);
        assert(w[i].description.skip(17) =~= gs[j].0);
        assert(w[i].description.take(17) =~= "Common workflow: "@);
        assert(is_conversation_step(eps, ord, k, w[i].description.skip(17)));
    }
}

fn same_conversation(a: &Option<String>, b: &Option<String>) -> (r: bool)
    ensures
        r == (a is Some && opt_chars(*b) == opt_chars(*a)),
{
    match (a, b) {
        (Some(x), Some(y)) => crate::text::text_eq(x.as_str(), y.as_str()),
        _ => false,
    }
}

/// Patterns of event sequences that recur within conversations.
pub fn extract_successful_workflows(eps: &Vec<EpisodeFacts>) -> (out: Vec<Pattern>)
    requires
        eps.len() <= i64::MAX,
    ensures
        patterns_view(out@) == workflows_spec(eps@),
{
    let mut ts: Vec<String> = Vec::new();
    let mut i: usize = 0;
    while i < eps.len()
        invariant
            i <= eps.len(),
            ts.deep_view() == timestamps(eps@).take(i as int),
        decreases eps.len() - i,
    {
        let ghost prev = ts.deep_view();
        ts.push(owned(eps[i].timestamp.as_str()));
        proof {
            assert(ts.deep_view() =~= prev.push(eps@[i as int].timestamp@));
            assert(timestamps(eps@).take(i + 1) =~= timestamps(eps@).take(i as int).push(
                eps@[i as int].timestamp@,
            ));
        }
        i += 1;
    }
    assert(timestamps(eps@).take(eps.len() as int) =~= timestamps(eps@));
    let order = stable_sort_by_text(&ts);
    let ghost ord = order@;
    let mut keys: Vec<String> = Vec::new();
    let mut k: usize = 1;
    if order.len() == 0 {
        assert(ord.take(0) =~= ord);
        return patterns_from_groups(
            &Vec::new(),
            2,
            PatternKind::Workflow,
            "Common workflow: ",
            Some(Confidence { num: 6, den: 10 }),
            0,
            false,
        );
    }
    while k < order.len()
        invariant
            1 <= k <= order.len(),
            order@ == ord,
            order.len() == eps.len(),
            forall|q: int| 0 <= q < order.len() ==> (#[trigger] order@[q]) < eps.len(),
            keys.deep_view() == transitions(eps@, ord.take(k as int)),
            keys.len() < k,
        decreases order.len() - k,
    {
        proof {
            assert(ord.take(k + 1).drop_last() =~= ord.take(k as int));
            assert(ord.take(k + 1)[k - 1] == ord[k - 1]);
            assert(ord.take(k + 1)[k as int] == ord[k as int]);
        }
        let a = &eps[order[k - 1]];
        let b = &eps[order[k]];
        if same_conversation(&a.conversation_id, &b.conversation_id) {
            let s = concat_str(a.event_type.as_str(), " -> ");
            let s2 = concat_str(s.as_str(), b.event_type.as_str());
            keys.push(s2);
            proof {
                assert(keys.deep_view() =~= transitions(eps@, ord.take(k as int)).push(
                    a.event_type@ + " -> "@ + b.event_type@,
                ));
            }
        }
        k += 1;
    }
    proof {
        assert(ord.take(order.len() as int) =~= ord);
    }
    let mut vals: Vec<i64> = Vec::new();
    let mut j: usize = 0;
    while j < keys.len()
        invariant
            j <= keys.len(),
            vals@ == zeros(j as nat),
        decreases keys.len() - j,
    {
        vals.push(0);
        j += 1;
        assert(vals@ =~= zeros(j as nat));
    }
    let groups = group_values(&keys, &vals);
    proof {
        lemma_groups_fit(keys.deep_view(), vals@, groups@);
    }
    patterns_from_groups(
        &groups,
        2,
        PatternKind::Workflow,
        "Common workflow: ",
        Some(Confidence { num: 6, den: 10 }),
        0,
        false,
    )
}

/// The patterns `cluster_similar_episodes` finds among unarchived episodes
/// (id and event type): each event type seen at least three times, with its
/// ids and confidence 0.8.
pub open spec fn clusters_spec(ids: Seq<i64>, types: Seq<Seq<char>>) -> Seq<PatternView> {
    patterns_of_groups(
        group_by_key(types, ids),
        PatternRule {
            kind: PatternKind::Cluster,
            min_count: 3,
            prefix: "Event cluster: "@,
            fixed_confidence: Some(Confidence { num: 8, den: 10 }),
            total: 0,
            keep_sources: true,
        },
    )
}

/// Clusters of episodes that share an event type.
pub fn cluster_by_event_type(ids: &Vec<i64>, event_types: &Vec<String>) -> (out: Vec<Pattern>)
    requires
        ids.len() == event_types.len(),
        ids.len() <= i64::MAX,
    ensures
        patterns_view(out@) == clusters_spec(ids@, event_types.deep_view()),
{
    let groups = group_values(event_types, ids);
    proof {
        lemma_groups_fit(event_types.deep_view(), ids@, groups@);
    }
    patterns_from_groups(
        &groups,
        3,
        PatternKind::Cluster,
        "Event cluster: ",
        Some(Confidence { num: 8, den: 10 }),
        0,
        true,
    )
}

/// A pattern is turned into knowledge when its confidence exceeds 0.6.
pub open spec fn becomes_knowledge(c: Confidence) -> bool {
    (c.num as int) * 10 > 6 * (c.den as int)
}

/// Whether a pattern's confidence exceeds 0.6.
pub fn qualifies_as_knowledge(p: &Pattern) -> (b: bool)
    ensures
        b == becomes_knowledge(p.confidence),
{
    (p.confidence.num as u128) * 10 > 6 * (p.confidence.den as u128)
}

/// Recurring patterns always have a confidence of at most one: each
/// pattern's frequency is at most the number of episodes, and at least two.
pub proof fn lemma_recurring_confidence_bounded(eps: Seq<EpisodeFacts>)
    ensures
        forall|i: int|
            0 <= i < recurring_patterns_spec(eps).len() ==> 2 <= (#[trigger] recurring_patterns_spec(
                eps,
            )[i]).frequency <= eps.len(),
{
    let keys = event_types(eps);
    let vals = episode_ids(eps);
    lemma_group_sizes(keys, vals);
    let gs = group_by_key(keys, vals);
    let r = PatternRule {
        kind: PatternKind::RecurringEvent,
        min_count: 2,
        prefix: "Recurring event: "@,
        fixed_confidence: None,
        total: eps.len() as u64,
        keep_sources: true,
    };
    assert forall|j: int| 0 <= j < gs.len() implies (#[trigger] gs[j]).1.len() <= eps.len() by {
        lemma_member_bound(gs, j);
    }
    lemma_patterns_frequency(gs, r, eps.len());
}

proof fn lemma_patterns_frequency(gs: Seq<(Seq<char>, Seq<i64>)>, r: PatternRule, bound: nat)
    requires
        forall|j: int| 0 <= j < gs.len() ==> (#[trigger] gs[j]).1.len() <= bound,
    ensures
        forall|i: int|
            0 <= i < patterns_of_groups(gs, r).len() ==> r.min_count <= (
            #[trigger] patterns_of_groups(gs, r)[i]).frequency <= bound,
    decreases gs.len(),
{
    if gs.len() > 0 {
        assert forall|j: int| 0 <= j < gs.drop_last().len() implies (
        #[trigger] gs.drop_last()[j]).1.len() <= bound by {
            assert(gs.drop_last()[j] == gs[j]);
        }
        lemma_patterns_frequency(gs.drop_last(), r, bound);
        assert(gs.last() == gs[gs.len() - 1]);
    }
}

} // verus!
