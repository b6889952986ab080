//! Decisions of the retrieval paths: which search a memory type selects,
//! keyword match counting, the text an episode is searched by, which table
//! an access is recorded in, and the shape of the similarity query.
use vstd::prelude::*;
use crate::text::{chars_of, concat_str, lowercase_of, match_count, owned, text_eq, to_lowercase};

verus! {

/// The search that a memory-type name selects.
#[derive(Clone, Copy, Debug, PartialEq, Eq, Structural)]
pub enum SearchKind {
    Semantic,
    Episodic,
    Procedural,
    Hybrid,
}

/// `"semantic"`, `"episodic"` and `"procedural"` select their own search;
/// any other name selects the hybrid search.
pub fn search_kind(memory_type: &str) -> (k: SearchKind)
    ensures
        memory_type@ == "semantic"@ ==> k == SearchKind::Semantic,
        memory_type@ == "episodic"@ ==> k == SearchKind::Episodic,
        memory_type@ == "procedural"@ ==> k == SearchKind::Procedural,
        memory_type@ != "semantic"@ && memory_type@ != "episodic"@ && memory_type@
            != "procedural"@ ==> k == SearchKind::Hybrid,
{
    proof {
        reveal_strlit("semantic");
        reveal_strlit("episodic");
        reveal_strlit("procedural");
        assert("semantic"@[0] != "episodic"@[0]);
        assert("semantic"@.len() != "procedural"@.len());
        assert("episodic"@.len() != "procedural"@.len());
    }
    if text_eq(memory_type, "semantic") {
        SearchKind::Semantic
    } else if text_eq(memory_type, "episodic") {
        SearchKind::Episodic
    } else if text_eq(memory_type, "procedural") {
        SearchKind::Procedural
    } else {
        SearchKind::Hybrid
    }
}

/// Table whose row records an access to a retrieved result: episodic results
/// live in `episodes`, everything else in `memories`.
pub fn access_table(memory_type: &str) -> (t: &'static str)
    ensures
        memory_type@ == "episodic"@ ==> t@ == "episodes"@,
        memory_type@ != "episodic"@ ==> t@ == "memories"@,
{
    if text_eq(memory_type, "episodic") {
        "episodes"
    } else {
        "memories"
    }
}

/// For each keyword, how often its lower-case form occurs (without overlap)
/// in the lower-case text. The keyword score of a text is built from these
/// counts. `None` only for a lower-case text of `usize::MAX` characters,
/// where the count of an empty keyword (one more than the length) would not
/// fit.
pub fn keyword_match_counts(text: &str, keywords: &Vec<String>) -> (counts: Option<Vec<usize>>)
    ensures
        counts is None <==> lowercase_of(text@).len() >= usize::MAX,
        counts matches Some(c) ==> c.len() == keywords.len() && forall|i: int|
            0 <= i < keywords.len() ==> #[trigger] c@[i] == match_count(
                lowercase_of(text@),
                lowercase_of(keywords@[i]@),
            ),
{
    let lower = to_lowercase(text);
    let t = chars_of(lower.as_str());
    if t.len() == usize::MAX {
        return None;
    }
    let mut counts: Vec<usize> = Vec::new();
    let mut i: usize = 0;
    while i < keywords.len()
        invariant
            i <= keywords.len(),
            t@ == lowercase_of(text@),
            t.len() < usize::MAX,
            counts.len() == i,
            forall|j: int|
                0 <= j < i ==> #[trigger] counts@[j] == match_count(
                    lowercase_of(text@),
                    lowercase_of(keywords@[j]@),
                ),
        decreases keywords.len() - i,
    {
        let kw = to_lowercase(keywords[i].as_str());
        let p = chars_of(kw.as_str());
        let c = crate::text::count_matches(&t, &p);
        counts.push(c);
        i += 1;
    }
    Some(counts)
}

/// The text an episode is searched by: event type, outcome (empty when
/// absent) and context, separated by single spaces.
pub open spec fn episode_text(event_type: Seq<char>, outcome: Option<Seq<char>>, context: Seq<
    char,
>) -> Seq<char> {
    let o = match outcome {
        Some(o) => o,
        None => Seq::empty(),
    };
    event_type + " "@ + o + " "@ + context
}

/// The characters of an optional text.
pub open spec fn opt_text(o: Option<&str>) -> Option<Seq<char>> {
    match o {
        Some(s) => Some(s@),
        None => None,
    }
}

/// Builds the searchable text of an episode.
pub fn episode_search_text(event_type: &str, outcome: Option<&str>, context: &str) -> (r: String)
    ensures
        r@ == episode_text(event_type@, opt_text(outcome), context@),
{
    let mut r = concat_str(event_type, " ");
    match outcome {
        Some(o) => r.append(o),
        None => {},
    }
    r.append(" ");
    r.append(context);
    proof {
        match outcome {
            Some(o) => assert(r@ =~= episode_text(event_type@, Some(o@), context@)),
            None => assert(r@ =~= episode_text(event_type@, None, context@)),
        }
    }
    r
}

/// Which optional filters a similarity search applies.
#[derive(Clone, Copy, Debug, PartialEq, Eq, Structural)]
pub struct FilterPresence {
    pub workspace: bool,
    pub agent: bool,
    pub min_importance: bool,
    pub max_importance: bool,
    pub conversation: bool,
    pub created_after: bool,
    pub created_before: bool,
}

/// What each `?` of the similarity query binds, in order.
#[derive(Clone, Copy, Debug, PartialEq, Eq, Structural)]
pub enum QueryParam {
    Embedding,
    WorkspaceId,
    AgentId,
    MinImportance,
    MaxImportance,
    ConversationId,
    CreatedAfter,
    CreatedBefore,
    Limit,
}

/// Start of the similarity query, up to its always-true `WHERE` clause.
pub const SIMILARITY_SELECT: &'static str = "SELECT m.id, m.workspace_id, m.agent_id, m.text, m.tags, m.importance_score,
                 m.access_count, m.last_accessed, m.conversation_id, m.parent_memory_id,
                 m.user_feedback, m.source_episodes, m.confidence, m.last_validated,
                 m.created_at, m.updated_at,
                 vec_distance_cosine(v.embedding, vec_f32(?1)) as distance
                 FROM memories m
                 JOIN vec0 v ON m.id = v.memory_id
                 WHERE 1=1";

pub open spec fn clause_if(b: bool, clause: Seq<char>) -> Seq<char> {
    if b {
        clause
    } else {
        Seq::empty()
    }
}

pub open spec fn param_if(b: bool, p: QueryParam) -> Seq<QueryParam> {
    if b {
        seq![p]
    } else {
        Seq::empty()
    }
}

/// The SQL text of a similarity search with the given filters: the fixed
/// select, one `AND` clause per present filter, then ordering by distance and
/// the limit.
pub open spec fn similarity_sql(f: FilterPresence) -> Seq<char> {
    SIMILARITY_SELECT@ + clause_if(f.workspace, " AND m.workspace_id = ?"@) + clause_if(
        f.agent,
        " AND m.agent_id = ?"@,
    ) + clause_if(f.min_importance, " AND m.importance_score >= ?"@) + clause_if(
        f.max_importance,
        " AND m.importance_score <= ?"@,
    ) + clause_if(f.conversation, " AND m.conversation_id = ?"@) + clause_if(
        f.created_after,
        " AND m.created_at >= ?"@,
    ) + clause_if(f.created_before, " AND m.created_at <= ?"@) + " ORDER BY distance ASC LIMIT ?"@
}

/// The values the similarity query binds, in placeholder order.
pub open spec fn similarity_params(f: FilterPresence) -> Seq<QueryParam> {
    seq![QueryParam::Embedding] + param_if(f.workspace, QueryParam::WorkspaceId) + param_if(
        f.agent,
        QueryParam::AgentId,
    ) + param_if(f.min_importance, QueryParam::MinImportance) + param_if(
        f.max_importance,
        QueryParam::MaxImportance,
    ) + param_if(f.conversation, QueryParam::ConversationId) + param_if(
        f.created_after,
        QueryParam::CreatedAfter,
    ) + param_if(f.created_before, QueryParam::CreatedBefore) + seq![QueryParam::Limit]
}

/// The clause a filter's placeholder stands in: equality for the ids and the
/// conversation, `>=` for the lower bounds (minimum importance, created
/// after) and `<=` for the upper bounds (maximum importance, created before).
pub open spec fn filter_clause(p: QueryParam) -> Seq<char> {
    match p {
        QueryParam::WorkspaceId => " AND m.workspace_id = ?"@,
        QueryParam::AgentId => " AND m.agent_id = ?"@,
        QueryParam::MinImportance => " AND m.importance_score >= ?"@,
        QueryParam::MaxImportance => " AND m.importance_score <= ?"@,
        QueryParam::ConversationId => " AND m.conversation_id = ?"@,
        QueryParam::CreatedAfter => " AND m.created_at >= ?"@,
        QueryParam::CreatedBefore => " AND m.created_at <= ?"@,
        QueryParam::Embedding => Seq::empty(),
        QueryParam::Limit => Seq::empty(),
    }
}

/// The clauses of a run of filter placeholders, in order.
pub open spec fn clauses_of(ps: Seq<QueryParam>) -> Seq<char>
    decreases ps.len(),
{
    if ps.len() == 0 {
        Seq::empty()
    } else {
        clauses_of(ps.drop_last()) + filter_clause(ps.last())
    }
}

/// Whether the filters ask for a value to be bound to `p` (the embedding
/// and the limit are always bound).
pub open spec fn filter_requested(f: FilterPresence, p: QueryParam) -> bool {
    match p {
        QueryParam::WorkspaceId => f.workspace,
        QueryParam::AgentId => f.agent,
        QueryParam::MinImportance => f.min_importance,
        QueryParam::MaxImportance => f.max_importance,
        QueryParam::ConversationId => f.conversation,
        QueryParam::CreatedAfter => f.created_after,
        QueryParam::CreatedBefore => f.created_before,
        QueryParam::Embedding => true,
        QueryParam::Limit => true,
    }
}

proof fn lemma_clauses_of_concat(a: Seq<QueryParam>, b: Seq<QueryParam>)
    ensures
        clauses_of(a + b) == clauses_of(a) + clauses_of(b),
    decreases b.len(),
{
    if b.len() == 0 {
        assert(a + b =~= a);
        assert(clauses_of(a) + clauses_of(b) =~= clauses_of(a));
    } else {
        lemma_clauses_of_concat(a, b.drop_last());
        assert((a + b).drop_last() =~= a + b.drop_last());
        assert((a + b).last() == b.last());
        assert(clauses_of(a) + clauses_of(b) =~= clauses_of(a) + clauses_of(b.drop_last())
            + filter_clause(b.last()));
    }
}

proof fn lemma_clauses_of_param_if(b: bool, p: QueryParam)
    ensures
        clauses_of(param_if(b, p)) == clause_if(b, filter_clause(p)),
{
    if b {
        assert(seq![p].drop_last() =~= Seq::<QueryParam>::empty());
        assert(clauses_of(Seq::<QueryParam>::empty()) == Seq::<char>::empty());
        assert(clauses_of(seq![p]) == clauses_of(seq![p].drop_last()) + filter_clause(p));
        assert(clauses_of(seq![p]) =~= filter_clause(p));
    }
}

proof fn lemma_concat_contains<A>(a: Seq<A>, b: Seq<A>, x: A)
    ensures
        (a + b).contains(x) <==> a.contains(x) || b.contains(x),
{
    if (a + b).contains(x) {
        let i = choose|i: int| 0 <= i < (a + b).len() && (a + b)[i] == x;
        if i >= a.len() {
            assert(b[i - a.len()] == x);
        }
    }
    if a.contains(x) {
        let i = choose|i: int| 0 <= i < a.len() && a[i] == x;
        assert((a + b)[i] == x);
    }
    if b.contains(x) {
        let i = choose|i: int| 0 <= i < b.len() && b[i] == x;
        assert((a + b)[a.len() + i] == x);
    }
}

proof fn lemma_param_if_contains(b: bool, p: QueryParam, x: QueryParam)
    ensures
        param_if(b, p).contains(x) <==> b && x == p,
{
    if b {
        assert(seq![p][0] == p);
    }
}

/// The filter placeholders of the query, in binding order.
spec fn filter_params(f: FilterPresence) -> Seq<QueryParam> {
    param_if(f.workspace, QueryParam::WorkspaceId) + param_if(f.agent, QueryParam::AgentId)
        + param_if(f.min_importance, QueryParam::MinImportance) + param_if(
        f.max_importance,
        QueryParam::MaxImportance,
    ) + param_if(f.conversation, QueryParam::ConversationId) + param_if(
        f.created_after,
        QueryParam::CreatedAfter,
    ) + param_if(f.created_before, QueryParam::CreatedBefore)
}

proof fn lemma_filter_params_shape(f: FilterPresence)
    ensures
        similarity_params(f) == seq![QueryParam::Embedding] + filter_params(f) + seq![QueryParam::Limit],
        similarity_params(f).subrange(1, similarity_params(f).len() - 1) == filter_params(f),
{
    let e = seq![QueryParam::Embedding];
    let a1 = param_if(f.workspace, QueryParam::WorkspaceId);
    let a2 = param_if(f.agent, QueryParam::AgentId);
    let a3 = param_if(f.min_importance, QueryParam::MinImportance);
    let a4 = param_if(f.max_importance, QueryParam::MaxImportance);
    let a5 = param_if(f.conversation, QueryParam::ConversationId);
    let a6 = param_if(f.created_after, QueryParam::CreatedAfter);
    let a7 = param_if(f.created_before, QueryParam::CreatedBefore);
    vstd::seq_lib::lemma_concat_associative(e, a1, a2);
    vstd::seq_lib::lemma_concat_associative(e, a1 + a2, a3);
    vstd::seq_lib::lemma_concat_associative(e, a1 + a2 + a3, a4);
    vstd::seq_lib::lemma_concat_associative(e, a1 + a2 + a3 + a4, a5);
    vstd::seq_lib::lemma_concat_associative(e, a1 + a2 + a3 + a4 + a5, a6);
    vstd::seq_lib::lemma_concat_associative(e, a1 + a2 + a3 + a4 + a5 + a6, a7);
    let ps = similarity_params(f);
    let m = filter_params(f);
    assert(ps == e + m + seq![QueryParam::Limit]);
    assert(ps.subrange(1, ps.len() - 1) =~= m);
}

proof fn lemma_filter_clauses(f: FilterPresence)
    ensures
        similarity_sql(f) == SIMILARITY_SELECT@ + clauses_of(filter_params(f))
            + " ORDER BY distance ASC LIMIT ?"@,
{
    let a1 = param_if(f.workspace, QueryParam::WorkspaceId);
    let a2 = param_if(f.agent, QueryParam::AgentId);
    let a3 = param_if(f.min_importance, QueryParam::MinImportance);
    let a4 = param_if(f.max_importance, QueryParam::MaxImportance);
    let a5 = param_if(f.conversation, QueryParam::ConversationId);
    let a6 = param_if(f.created_after, QueryParam::CreatedAfter);
    let a7 = param_if(f.created_before, QueryParam::CreatedBefore);
    lemma_clauses_of_concat(a1, a2);
    lemma_clauses_of_concat(a1 + a2, a3);
    lemma_clauses_of_concat(a1 + a2 + a3, a4);
    lemma_clauses_of_concat(a1 + a2 + a3 + a4, a5);
    lemma_clauses_of_concat(a1 + a2 + a3 + a4 + a5, a6);
    lemma_clauses_of_concat(a1 + a2 + a3 + a4 + a5 + a6, a7);
    lemma_clauses_of_param_if(f.workspace, QueryParam::WorkspaceId);
    lemma_clauses_of_param_if(f.agent, QueryParam::AgentId);
    lemma_clauses_of_param_if(f.min_importance, QueryParam::MinImportance);
    lemma_clauses_of_param_if(f.max_importance, QueryParam::MaxImportance);
    lemma_clauses_of_param_if(f.conversation, QueryParam::ConversationId);
    lemma_clauses_of_param_if(f.created_after, QueryParam::CreatedAfter);
    lemma_clauses_of_param_if(f.created_before, QueryParam::CreatedBefore);
    let s0 = SIMILARITY_SELECT@;
    let c1 = clause_if(f.workspace, " AND m.workspace_id = ?"@);
    let c2 = clause_if(f.agent, " AND m.agent_id = ?"@);
    let c3 = clause_if(f.min_importance, " AND m.importance_score >= ?"@);
    let c4 = clause_if(f.max_importance, " AND m.importance_score <= ?"@);
    let c5 = clause_if(f.conversation, " AND m.conversation_id = ?"@);
    let c6 = clause_if(f.created_after, " AND m.created_at >= ?"@);
    let c7 = clause_if(f.created_before, " AND m.created_at <= ?"@);
    assert(clauses_of(filter_params(f)) == c1 + c2 + c3 + c4 + c5 + c6 + c7);
    vstd::seq_lib::lemma_concat_associative(s0, c1, c2);
    vstd::seq_lib::lemma_concat_associative(s0, c1 + c2, c3);
    vstd::seq_lib::lemma_concat_associative(s0, c1 + c2 + c3, c4);
    vstd::seq_lib::lemma_concat_associative(s0, c1 + c2 + c3 + c4, c5);
    vstd::seq_lib::lemma_concat_associative(s0, c1 + c2 + c3 + c4 + c5, c6);
    vstd::seq_lib::lemma_concat_associative(s0, c1 + c2 + c3 + c4 + c5 + c6, c7);
    assert(similarity_sql(f) == s0 + (c1 + c2 + c3 + c4 + c5 + c6 + c7) + " ORDER BY distance ASC LIMIT ?"@);
}

proof fn lemma_filter_params_contain(f: FilterPresence, p: QueryParam)
    ensures
        similarity_params(f).contains(p) <==> filter_requested(f, p),
{
    let a1 = param_if(f.workspace, QueryParam::WorkspaceId);
    let a2 = param_if(f.agent, QueryParam::AgentId);
    let a3 = param_if(f.min_importance, QueryParam::MinImportance);
    let a4 = param_if(f.max_importance, QueryParam::MaxImportance);
    let a5 = param_if(f.conversation, QueryParam::ConversationId);
    let a6 = param_if(f.created_after, QueryParam::CreatedAfter);
    let a7 = param_if(f.created_before, QueryParam::CreatedBefore);
    let m = filter_params(f);
    lemma_filter_params_shape(f);
    lemma_concat_contains(seq![QueryParam::Embedding] + m, seq![QueryParam::Limit], p);
    lemma_concat_contains(seq![QueryParam::Embedding], m, p);
    lemma_concat_contains(a1 + a2 + a3 + a4 + a5 + a6, a7, p);
    lemma_concat_contains(a1 + a2 + a3 + a4 + a5, a6, p);
    lemma_concat_contains(a1 + a2 + a3 + a4, a5, p);
    lemma_concat_contains(a1 + a2 + a3, a4, p);
    lemma_concat_contains(a1 + a2, a3, p);
    lemma_concat_contains(a1, a2, p);
    lemma_param_if_contains(f.workspace, QueryParam::WorkspaceId, p);
    lemma_param_if_contains(f.agent, QueryParam::AgentId, p);
    lemma_param_if_contains(f.min_importance, QueryParam::MinImportance, p);
    lemma_param_if_contains(f.max_importance, QueryParam::MaxImportance, p);
    lemma_param_if_contains(f.conversation, QueryParam::ConversationId, p);
    lemma_param_if_contains(f.created_after, QueryParam::CreatedAfter, p);
    lemma_param_if_contains(f.created_before, QueryParam::CreatedBefore, p);
    assert(seq![QueryParam::Embedding].contains(p) <==> p == QueryParam::Embedding) by {
        if p == QueryParam::Embedding {
            assert(seq![QueryParam::Embedding][0] == p);
        }
    }
    assert(seq![QueryParam::Limit].contains(p) <==> p == QueryParam::Limit) by {
        if p == QueryParam::Limit {
            assert(seq![QueryParam::Limit][0] == p);
        }
    }
}

/// The query's text and its bindings agree: the SQL is the fixed select,
/// then, for each placeholder between the embedding and the limit, in the
/// order the values are bound, that filter's own clause (so the value bound
/// for the maximum importance stands in `m.importance_score <= ?`, and the
/// one for the minimum in `>=`), then ordering and limit; and a value is
/// bound for a filter exactly when the filter is requested.
pub proof fn lemma_query_clauses_match_bindings(f: FilterPresence)
    ensures
        similarity_params(f).len() >= 2,
        similarity_params(f)[0] == QueryParam::Embedding,
        similarity_params(f).last() == QueryParam::Limit,
        similarity_sql(f) == SIMILARITY_SELECT@ + clauses_of(
            similarity_params(f).subrange(1, similarity_params(f).len() - 1),
        ) + " ORDER BY distance ASC LIMIT ?"@,
        forall|p: QueryParam| #[trigger]
            similarity_params(f).contains(p) <==> filter_requested(f, p),
{
    lemma_filter_params_shape(f);
    lemma_filter_clauses(f);
    assert forall|p: QueryParam| #[trigger]
        similarity_params(f).contains(p) <==> filter_requested(f, p) by {
        lemma_filter_params_contain(f, p);
    }
}

/// Builds the similarity query for the given filters and lists what its
/// placeholders bind.
pub fn similarity_query(f: &FilterPresence) -> (r: (String, Vec<QueryParam>))
    ensures
        r.0@ == similarity_sql(*f),
        r.1@ == similarity_params(*f),
{
    let mut sql = owned(SIMILARITY_SELECT);
    let mut params: Vec<QueryParam> = Vec::new();
    params.push(QueryParam::Embedding);
    assert(params@ =~= seq![QueryParam::Embedding]);
    add_filter(&mut sql, &mut params, f.workspace, " AND m.workspace_id = ?", QueryParam::WorkspaceId);
    add_filter(&mut sql, &mut params, f.agent, " AND m.agent_id = ?", QueryParam::AgentId);
    add_filter(
        &mut sql,
        &mut params,
        f.min_importance,
        " AND m.importance_score >= ?",
        QueryParam::MinImportance,
    );
    add_filter(
        &mut sql,
        &mut params,
        f.max_importance,
        " AND m.importance_score <= ?",
        QueryParam::MaxImportance,
    );
    add_filter(
        &mut sql,
        &mut params,
        f.conversation,
        " AND m.conversation_id = ?",
        QueryParam::ConversationId,
    );
    add_filter(&mut sql, &mut params, f.created_after, " AND m.created_at >= ?", QueryParam::CreatedAfter);
    add_filter(
        &mut sql,
        &mut params,
        f.created_before,
        " AND m.created_at <= ?",
        QueryParam::CreatedBefore,
    );
    let ghost s = sql@;
    sql.append(" ORDER BY distance ASC LIMIT ?");
    assert(sql@ =~= s + " ORDER BY distance ASC LIMIT ?"@);
    params.push(QueryParam::Limit);
    (sql, params)
}

/// Appends one filter's clause and placeholder binding when the filter is
/// present.
fn add_filter(sql: &mut String, params: &mut Vec<QueryParam>, present: bool, clause: &str, p: QueryParam)
    ensures
        final(sql)@ == old(sql)@ + clause_if(present, clause@),
        final(params)@ == old(params)@ + param_if(present, p),
{
    if present {
        sql.append(clause);
        params.push(p);
        assert(params@ =~= old(params)@ + seq![p]);
    } else {
        assert(sql@ =~= old(sql)@ + Seq::<char>::empty());
        assert(params@ =~= old(params)@ + Seq::<QueryParam>::empty());
    }
}

/// The episodes an episode search answers with: the vector results when
/// the vector query ran and found some, otherwise `None`, in which case the
/// search falls back to keyword scoring.
pub fn usable_vector_results<T>(vector: Option<Vec<T>>) -> (r: Option<Vec<T>>)
    ensures
        r == match vector {
            Some(v) => if v.len() > 0 {
                Some(v)
            } else {
                None::<Vec<T>>
            },
            None => None::<Vec<T>>,
        },
{
    match vector {
        Some(v) => if v.len() > 0 {
            Some(v)
        } else {
            None
        },
        None => None,
    }
}

} // verus!
