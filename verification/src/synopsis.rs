//! Daily synopsis content: summary line, key insights, daily counts and the
//! texts under which a synopsis is stored and shown.
use vstd::prelude::*;
use crate::grouping::{group_by_key, group_values};
use crate::numfmt::{decimal, decimal_string};
use crate::patterns::{
    EpisodeFacts, event_types, extract_recurring_patterns, patterns_view, recurring_patterns_spec,
    zeros,
};
use crate::text::{concat_str, join, join_strings, owned};

verus! {

/// Number of distinct keys (the number of groups they form).
pub open spec fn distinct_count(keys: Seq<Seq<char>>) -> nat {
    group_by_key(keys, zeros(keys.len())).len()
}

/// Counts the distinct keys.
pub fn count_distinct(keys: &Vec<String>) -> (n: usize)
    ensures
        n == distinct_count(keys.deep_view()),
{
    let mut vals: Vec<i64> = Vec::new();
    let mut j: usize = 0;
    while j < keys.len()
        invariant
            j <= keys.len(),
            vals@ == zeros(j as nat),
        decreases keys.len() - j,
    {
        vals.push(0);
        j += 1;
        assert(vals@ =~= zeros(j as nat));
    }
    let groups = group_values(keys, &vals);
    assert(keys.deep_view().len() == keys.len());
    groups.len()
}

/// The key an episode is grouped under for the summary: its conversation,
/// or its event type when it has none.
pub open spec fn context_keys(eps: Seq<EpisodeFacts>) -> Seq<Seq<char>> {
    eps.map_values(
        |e: EpisodeFacts|
            match e.conversation_id {
                Some(c) => c@,
                None => e.event_type@,
            },
    )
}

/// The summary sentence of a day's episodes.
pub open spec fn summary_text(eps: Seq<EpisodeFacts>) -> Seq<char> {
    "Processed "@ + decimal(eps.len()) + " episodes across "@ + decimal(
        distinct_count(context_keys(eps)),
    ) + " conversations. Event types: "@ + decimal(distinct_count(event_types(eps))) + ". "@
}

fn context_keys_exec(eps: &Vec<EpisodeFacts>) -> (r: (Vec<String>, Vec<String>))
    ensures
        r.0.deep_view() == context_keys(eps@),
        r.1.deep_view() == event_types(eps@),
{
    let mut ck: Vec<String> = Vec::new();
    let mut et: Vec<String> = Vec::new();
    let mut i: usize = 0;
    while i < eps.len()
        invariant
            i <= eps.len(),
            ck.deep_view() == context_keys(eps@).take(i as int),
            et.deep_view() == event_types(eps@).take(i as int),
        decreases eps.len() - i,
    {
        let ghost p1 = ck.deep_view();
        let ghost p2 = et.deep_view();
        let e = &eps[i];
        let key = match &e.conversation_id {
            Some(c) => owned(c.as_str()),
            None => owned(e.event_type.as_str()),
        };
        ck.push(key);
        et.push(owned(e.event_type.as_str()));
        proof {
            assert(ck.deep_view() =~= p1.push(context_keys(eps@)[i as int]));
            assert(context_keys(eps@).take(i + 1) =~= context_keys(eps@).take(i as int).push(
                context_keys(eps@)[i as int],
            ));
            assert(et.deep_view() =~= p2.push(event_types(eps@)[i as int]));
            assert(event_types(eps@).take(i + 1) =~= event_types(eps@).take(i as int).push(
                event_types(eps@)[i as int],
            ));
        }
        i += 1;
    }
    proof {
        assert(context_keys(eps@).take(eps.len() as int) =~= context_keys(eps@));
        assert(event_types(eps@).take(eps.len() as int) =~= event_types(eps@));
    }
    (ck, et)
}

/// Writes the summary sentence for a day's episodes.
pub fn generate_summary(eps: &Vec<EpisodeFacts>) -> (s: String)
    ensures
        s@ == summary_text(eps@),
{
    let (ck, et) = context_keys_exec(eps);
    let conversations = count_distinct(&ck);
    let types = count_distinct(&et);
    let mut s = owned("Processed ");
    s.append(decimal_string(eps.len() as u64).as_str());
    s.append(" episodes across ");
    s.append(decimal_string(conversations as u64).as_str());
    s.append(" conversations. Event types: ");
    s.append(decimal_string(types as u64).as_str());
    s.append(". ");
    s
}

/// Number of episodes with a valence above one half.
pub open spec fn strongly_positive_count(eps: Seq<EpisodeFacts>) -> nat
    decreases eps.len(),
{
    if eps.len() == 0 {
        0
    } else {
        strongly_positive_count(eps.drop_last()) + if eps.last().strongly_positive {
            1nat
        } else {
            0nat
        }
    }
}

/// Number of episodes with a recorded outcome.
pub open spec fn with_outcome_count(eps: Seq<EpisodeFacts>) -> nat
    decreases eps.len(),
{
    if eps.len() == 0 {
        0
    } else {
        with_outcome_count(eps.drop_last()) + if eps.last().outcome is Some {
            1nat
        } else {
            0nat
        }
    }
}

/// Number of episodes with a positive valence.
pub open spec fn positive_count(eps: Seq<EpisodeFacts>) -> nat
    decreases eps.len(),
{
    if eps.len() == 0 {
        0
    } else {
        positive_count(eps.drop_last()) + if eps.last().positive {
            1nat
        } else {
            0nat
        }
    }
}

/// The integer counts behind a day's statistics.
#[derive(Clone, Copy, Debug, PartialEq, Eq, Structural)]
pub struct DailyCounts {
    pub total_episodes: usize,
    pub with_outcome: usize,
    pub positive_valence: usize,
    pub strongly_positive: usize,
}

/// Counts a day's episodes by outcome and valence.
pub fn daily_counts(eps: &Vec<EpisodeFacts>) -> (c: DailyCounts)
    ensures
        c.total_episodes == eps.len(),
        c.with_outcome == with_outcome_count(eps@),
        c.positive_valence == positive_count(eps@),
        c.strongly_positive == strongly_positive_count(eps@),
        c.with_outcome <= c.total_episodes,
        c.positive_valence <= c.total_episodes,
        c.strongly_positive <= c.total_episodes,
{
    let mut w: usize = 0;
    let mut p: usize = 0;
    let mut sp: usize = 0;
    let mut i: usize = 0;
    while i < eps.len()
        invariant
            i <= eps.len(),
            w == with_outcome_count(eps@.take(i as int)),
            p == positive_count(eps@.take(i as int)),
            sp == strongly_positive_count(eps@.take(i as int)),
            w <= i,
            p <= i,
            sp <= i,
        decreases eps.len() - i,
    {
        proof {
            assert(eps@.take(i + 1).drop_last() =~= eps@.take(i as int));
        }
        if eps[i].outcome.is_some() {
            w += 1;
        }
        if eps[i].positive {
            p += 1;
        }
        if eps[i].strongly_positive {
            sp += 1;
        }
        i += 1;
    }
    assert(eps@.take(eps.len() as int) =~= eps@);
    DailyCounts { total_episodes: eps.len(), with_outcome: w, positive_valence: p, strongly_positive: sp }
}

/// Descriptions of the first `limit` recurring patterns, then, when more
/// than half of the episodes are strongly positive, a success-rate line with
/// the whole-number percentage.
pub open spec fn top_insights(eps: Seq<EpisodeFacts>, limit: nat) -> Seq<Seq<char>> {
    let ps = recurring_patterns_spec(eps);
    let taken = if ps.len() < limit {
        ps
    } else {
        ps.take(limit as int)
    };
    let descs = taken.map_values(|p: crate::patterns::PatternView| p.description);
    let pos = strongly_positive_count(eps);
    if pos > eps.len() / 2 {
        descs.push(
            "High success rate: "@ + decimal(pos * 100 / eps.len()) + "% positive outcomes"@,
        )
    } else {
        descs
    }
}

/// Builds the key insights of a day's episodes.
pub fn extract_top_insights(eps: &Vec<EpisodeFacts>, limit: usize) -> (r: Vec<String>)
    requires
        eps.len() <= i64::MAX,
        eps.len() * 100 <= u64::MAX,
    ensures
        r.deep_view() == top_insights(eps@, limit as nat),
{
    let patterns = extract_recurring_patterns(eps);
    let ghost pv = patterns_view(patterns@);
    let mut insights: Vec<String> = Vec::new();
    let mut i: usize = 0;
    while i < patterns.len() && i < limit
        invariant
            i <= patterns.len(),
            i <= limit,
            pv == patterns_view(patterns@),
            insights.deep_view() == pv.take(i as int).map_values(
                |p: crate::patterns::PatternView| p.description,
            ),
        decreases patterns.len() - i,
    {
        let ghost prev = insights.deep_view();
        insights.push(owned(patterns[i].description.as_str()));
        proof {
            assert(insights.deep_view() =~= prev.push(pv[i as int].description));
            assert(pv.take(i + 1).map_values(|p: crate::patterns::PatternView| p.description)
                =~= pv.take(i as int).map_values(|p: crate::patterns::PatternView| p.description).push(
                pv[i as int].description,
            ));
        }
        i += 1;
    }
    proof {
        if pv.len() < limit {
            assert(pv.take(i as int) =~= pv);
        }
    }
    let counts = daily_counts(eps);
    let pos = counts.strongly_positive;
    if pos > eps.len() / 2 {
        let pct = (pos as u64 * 100) / eps.len() as u64;
        let mut line = owned("High success rate: ");
        line.append(decimal_string(pct).as_str());
        line.append("% positive outcomes");
        insights.push(line);
    }
    insights
}

/// The content generated for a day: summary and key insights.
pub struct SynopsisContent {
    pub summary: String,
    pub key_insights: Vec<String>,
}

/// Generates a day's summary and its five leading insights.
pub fn synopsis_content(eps: &Vec<EpisodeFacts>) -> (c: SynopsisContent)
    requires
        eps.len() <= i64::MAX,
        eps.len() * 100 <= u64::MAX,
    ensures
        c.summary@ == summary_text(eps@),
        c.key_insights.deep_view() == top_insights(eps@, 5),
{
    let key_insights = extract_top_insights(eps, 5);
    let summary = generate_summary(eps);
    SynopsisContent { summary, key_insights }
}

/// The text under which a synopsis is kept as a searchable memory.
pub open spec fn synopsis_memory_text(date: Seq<char>, summary: Seq<char>, insights: Seq<
    Seq<char>,
>) -> Seq<char> {
    "Daily Synopsis ("@ + date + "): "@ + summary + " Key insights: "@ + join(insights, ", "@)
}

/// Builds the searchable text of a synopsis.
pub fn synopsis_memory(date: &str, summary: &str, insights: &Vec<String>) -> (s: String)
    ensures
        s@ == synopsis_memory_text(date@, summary@, insights.deep_view()),
{
    let mut s = owned("Daily Synopsis (");
    s.append(date);
    s.append("): ");
    s.append(summary);
    s.append(" Key insights: ");
    let j = join_strings(insights, ", ");
    s.append(j.as_str());
    s
}

/// `"1. a"`, `"2. b"`, ...: the insights numbered from one.
pub open spec fn numbered(insights: Seq<Seq<char>>) -> Seq<Seq<char>> {
    Seq::new(insights.len(), |i: int| decimal((i + 1) as nat) + ". "@ + insights[i])
}

/// How a synopsis is shown at the head of an injected context.
pub open spec fn synopsis_block(date: Seq<char>, summary: Seq<char>, insights: Seq<Seq<char>>) -> Seq<
    char,
> {
    "\n## Daily Synopsis ("@ + date + ")\n"@ + summary + "\n\nKey Insights:\n"@ + join(
        numbered(insights),
        "\n"@,
    ) + "\n\n"@
}

fn numbered_lines(insights: &Vec<String>) -> (lines: Vec<String>)
    requires
        insights.len() < u64::MAX,
    ensures
        lines.deep_view() == numbered(insights.deep_view()),
{
    let mut lines: Vec<String> = Vec::new();
    let mut i: usize = 0;
    while i < insights.len()
        invariant
            i <= insights.len(),
            insights.len() < u64::MAX,
            lines.deep_view() == numbered(insights.deep_view()).take(i as int),
        decreases insights.len() - i,
    {
        let ghost prev = lines.deep_view();
        let mut line = decimal_string((i + 1) as u64);
        line.append(". ");
        line.append(insights[i].as_str());
        lines.push(line);
        proof {
            assert(lines.deep_view() =~= prev.push(numbered(insights.deep_view())[i as int]));
            assert(numbered(insights.deep_view()).take(i + 1) =~= numbered(insights.deep_view()).take(
                i as int,
            ).push(numbered(insights.deep_view())[i as int]));
        }
        i += 1;
    }
    assert(numbered(insights.deep_view()).take(insights.len() as int) =~= numbered(
        insights.deep_view(),
    ));
    lines
}

/// Formats a synopsis for an injected context.
pub fn format_synopsis(date: &str, summary: &str, insights: &Vec<String>) -> (s: String)
    requires
        insights.len() < u64::MAX,
    ensures
        s@ == synopsis_block(date@, summary@, insights.deep_view()),
{
    let lines = numbered_lines(insights);
    let j = join_strings(&lines, "\n");
    let mut s = owned("\n## Daily Synopsis (");
    s.append(date);
    s.append(")\n");
    s.append(summary);
    s.append("\n\nKey Insights:\n");
    s.append(j.as_str());
    s.append("\n\n");
    s
}

} // verus!
