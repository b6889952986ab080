//! Retrieval quality measures used by the benchmark evaluator: the dialog
//! id a retrieved memory carries, whether the evidence was found in the top
//! `k`, and the rank of the first relevant hit.
use vstd::prelude::*;
use crate::text::{chars_of, concat_str, string_of, text_eq};

verus! {

/// `[D` starts a dialog id at `i`.
pub open spec fn opens_dia_id(s: Seq<char>, i: int) -> bool {
    0 <= i && i + 1 < s.len() && s[i] == '[' && s[i + 1] == 'D'
}

/// `i` is the first place a dialog id starts.
pub open spec fn is_first_opener(s: Seq<char>, i: int) -> bool {
    opens_dia_id(s, i) && forall|k: int| 0 <= k < i ==> !opens_dia_id(s, k)
}

/// `j` holds the first `]` at or after `i`.
pub open spec fn closes_at(s: Seq<char>, i: int, j: int) -> bool {
    0 <= i <= j < s.len() && s[j] == ']' && forall|k: int| i <= k < j ==> s[k] != ']'
}

/// The dialog id of a memory text such as `[D1:3] Speaker: text`: what lies
/// between the first `[D` and the next `]` (`D1:3`).
pub fn extract_dia_id(text: &str) -> (r: Option<String>)
    ensures
        r is Some <==> exists|i: int, j: int| is_first_opener(text@, i) && closes_at(text@, i, j),
        forall|i: int, j: int|
            is_first_opener(text@, i) && closes_at(text@, i, j) ==> r is Some && r->0@
                == text@.subrange(i + 1, j),
{
    let s = chars_of(text);
    let n = s.len();
    let mut i: usize = 0;
    while i < n
        invariant
            s@ == text@,
            n == s.len(),
            0 <= i <= n,
            forall|k: int| 0 <= k < i ==> !opens_dia_id(s@, k),
        decreases n - i,
    {
        if i + 1 < n && s[i] == '[' && s[i + 1] == 'D' {
            let start = i;
            assert(is_first_opener(s@, start as int));
            let mut j: usize = start;
            while j < n
                invariant
                    s@ == text@,
                    n == s.len(),
                    is_first_opener(s@, start as int),
                    start <= j <= n,
                    forall|k: int| start <= k < j ==> s@[k] != ']',
                decreases n - j,
            {
                if s[j] == ']' {
                    assert(closes_at(s@, start as int, j as int));
                    let mut id: Vec<char> = Vec::new();
                    let mut k: usize = start + 1;
                    while k < j
                        invariant
                            start + 1 <= k <= j,
                            j < n,
                            n == s.len(),
                            id@ == s@.subrange(start + 1, k as int),
                        decreases j - k,
                    {
                        id.push(s[k]);
                        k += 1;
                        assert(id@ =~= s@.subrange(start + 1, k as int));
                    }
                    let r = string_of(&id);
                    proof {
                        assert forall|a: int, b: int|
                            is_first_opener(text@, a) && closes_at(text@, a, b) implies a == start
                            && b == j by {
                            if a < start {
                                assert(!opens_dia_id(s@, a));
                            }
                            if start < a {
                                assert(!opens_dia_id(s@, start as int));
                            }
                            if b < j {
                                assert(s@[b] != ']');
                            }
                            if j < b {
                                assert(s@[j as int] != ']');
                            }
                        }
                    }
                    return Some(r);
                }
                j += 1;
            }
            proof {
                assert forall|a: int, b: int|
                    is_first_opener(text@, a) && closes_at(text@, a, b) implies false by {
                    if a < start {
                        assert(!opens_dia_id(s@, a));
                    }
                    if start < a {
                        assert(!opens_dia_id(s@, start as int));
                    }
                    assert(s@[b] != ']');
                }
            }
            return None;
        }
        i += 1;
    }
    proof {
        assert forall|a: int, b: int|
            is_first_opener(text@, a) && closes_at(text@, a, b) implies false by {
            assert(!opens_dia_id(s@, a));
        }
    }
    None
}

/// Some evidence id is among the first `k` retrieved ids.
pub open spec fn hit_in_top_k(retrieved: Seq<Seq<char>>, evidence: Seq<Seq<char>>, k: int) -> bool {
    exists|e: int, j: int|
        0 <= e < evidence.len() && 0 <= j < k && j < retrieved.len() && retrieved[j]
            == evidence[e]
}

/// Whether `texts` holds `t`.
fn contains_text(texts: &Vec<String>, t: &str) -> (b: bool)
    ensures
        b == exists|i: int| 0 <= i < texts.len() && texts@[i]@ == t@,
{
    let mut i: usize = 0;
    while i < texts.len()
        invariant
            i <= texts.len(),
            forall|x: int| 0 <= x < i ==> texts@[x]@ != t@,
        decreases texts.len() - i,
    {
        if text_eq(texts[i].as_str(), t) {
            return true;
        }
        i += 1;
    }
    false
}

/// Whether the evidence was retrieved within the first `k` results (recall
/// at `k` is 1 when it was and 0 otherwise, also for empty evidence).
pub fn evidence_found_in_top_k(retrieved_ids: &Vec<String>, evidence: &Vec<String>, k: usize) -> (b:
    bool)
    ensures
        b == hit_in_top_k(retrieved_ids.deep_view(), evidence.deep_view(), k as int),
{
    let mut j: usize = 0;
    while j < k && j < retrieved_ids.len()
        invariant
            forall|e: int, x: int|
                0 <= e < evidence.len() && 0 <= x < j && x < retrieved_ids.len() ==> retrieved_ids@[x]@
                    != evidence@[e]@,
        decreases retrieved_ids.len() - j,
    {
        if contains_text(evidence, retrieved_ids[j].as_str()) {
            proof {
                let e = choose|e: int| 0 <= e < evidence.len() && evidence@[e]@ == retrieved_ids@[j as int]@;
                assert(retrieved_ids.deep_view()[j as int] == retrieved_ids@[j as int]@);
                assert(evidence.deep_view()[e] == evidence@[e]@);
            }
            return true;
        }
        j += 1;
    }
    proof {
        assert forall|e: int, x: int|
            0 <= e < evidence.len() && 0 <= x < k && x < retrieved_ids.len() implies retrieved_ids.deep_view()[x]
                != evidence.deep_view()[e] by {
            assert(retrieved_ids.deep_view()[x] == retrieved_ids@[x]@);
            assert(evidence.deep_view()[e] == evidence@[e]@);
        }
    }
    false
}

/// The 1-based rank of the first retrieved id that is evidence, if any
/// (the reciprocal rank is 1 over it, and 0 where there is none).
pub fn first_relevant_rank(retrieved_ids: &Vec<String>, evidence: &Vec<String>) -> (r: Option<usize>)
    ensures
        match r {
            Some(rank) => 1 <= rank <= retrieved_ids.len() && evidence.deep_view().contains(
                retrieved_ids.deep_view()[rank - 1],
            ) && forall|x: int|
                0 <= x < rank - 1 ==> !evidence.deep_view().contains(
                    #[trigger] retrieved_ids.deep_view()[x],
                ),
            None => forall|x: int|
                0 <= x < retrieved_ids.len() ==> !evidence.deep_view().contains(
                    #[trigger] retrieved_ids.deep_view()[x],
                ),
        },
{
    let mut j: usize = 0;
    while j < retrieved_ids.len()
        invariant
            j <= retrieved_ids.len(),
            forall|x: int|
                0 <= x < j ==> !evidence.deep_view().contains(#[trigger] retrieved_ids.deep_view()[x]),
        decreases retrieved_ids.len() - j,
    {
        let found = contains_text(evidence, retrieved_ids[j].as_str());
        proof {
            assert(retrieved_ids.deep_view()[j as int] == retrieved_ids@[j as int]@);
            if found {
                let i = choose|i: int| 0 <= i < evidence.len() && evidence@[i]@ == retrieved_ids@[j as int]@;
                assert(evidence.deep_view()[i] == evidence@[i]@);
            } else {
                if evidence.deep_view().contains(retrieved_ids.deep_view()[j as int]) {
                    let i = choose|i: int| 0 <= i < evidence.deep_view().len() && evidence.deep_view()[i]
                        == retrieved_ids.deep_view()[j as int];
                    assert(evidence.deep_view()[i] == evidence@[i]@);
                }
            }
        }
        if found {
            return Some(j + 1);
        }
        j += 1;
    }
    None
}

/// The memory text of one conversation turn: `[D1:3] Speaker: text`.
pub open spec fn turn_text(dia_id: Seq<char>, speaker: Seq<char>, text: Seq<char>) -> Seq<char> {
    "["@ + dia_id + "] "@ + speaker + ": "@ + text
}

/// Builds the memory text of a conversation turn.
pub fn turn_memory_text(dia_id: &str, speaker: &str, text: &str) -> (r: String)
    ensures
        r@ == turn_text(dia_id@, speaker@, text@),
{
    let mut r = concat_str("[", dia_id);
    r.append("] ");
    r.append(speaker);
    r.append(": ");
    r.append(text);
    r
}

/// The tags of a conversation turn: `locomo,<sample>,session_<n>,<dia id>`.
pub open spec fn turn_tag_text(sample_id: Seq<char>, session_num: Seq<char>, dia_id: Seq<char>) -> Seq<
    char,
> {
    "locomo,"@ + sample_id + ",session_"@ + session_num + ","@ + dia_id
}

/// Builds the tags of a conversation turn.
pub fn turn_tags(sample_id: &str, session_num: &str, dia_id: &str) -> (r: String)
    ensures
        r@ == turn_tag_text(sample_id@, session_num@, dia_id@),
{
    let mut r = concat_str("locomo,", sample_id);
    r.append(",session_");
    r.append(session_num);
    r.append(",");
    r.append(dia_id);
    r
}

/// A key of a conversation object that holds a session's turns: it starts
/// with `session_` and does not end with `_date_time`.
pub open spec fn is_session_key_spec(k: Seq<char>) -> bool {
    &&& k.len() >= 8 && k.take(8) == "session_"@
    &&& !(k.len() >= 10 && k.skip(k.len() - 10) == "_date_time"@)
}

/// Whether `v[start..start + p.len()]` is `p`.
fn chars_match_at(v: &Vec<char>, start: usize, p: &Vec<char>) -> (b: bool)
    requires
        start + p.len() <= v.len(),
    ensures
        b == (v@.subrange(start as int, start + p.len()) == p@),
{
    let mut k: usize = 0;
    while k < p.len()
        invariant
            k <= p.len(),
            start + p.len() <= v.len(),
            forall|j: int| 0 <= j < k ==> v@[start + j] == p@[j],
        decreases p.len() - k,
    {
        if v[start + k] != p[k] {
            assert(v@.subrange(start as int, start + p.len())[k as int] != p@[k as int]);
            return false;
        }
        k += 1;
    }
    assert(v@.subrange(start as int, start + p.len()) =~= p@);
    true
}

/// Whether a conversation key names a session's turns.
pub fn is_session_key(k: &str) -> (b: bool)
    ensures
        b == is_session_key_spec(k@),
{
    proof {
        reveal_strlit("session_");
        reveal_strlit("_date_time");
    }
    let v = chars_of(k);
    let prefix = chars_of("session_");
    let suffix = chars_of("_date_time");
    if v.len() < 8 || !chars_match_at(&v, 0, &prefix) {
        proof {
            if v.len() >= 8 {
                assert(v@.subrange(0, 8) =~= v@.take(8));
            }
        }
        return false;
    }
    assert(v@.subrange(0, 8) =~= v@.take(8));
    if v.len() >= 10 && chars_match_at(&v, v.len() - 10, &suffix) {
        assert(v@.subrange(v.len() - 10, v.len() as int) =~= v@.skip(v.len() - 10));
        return false;
    }
    proof {
        if v.len() >= 10 {
            assert(v@.subrange(v.len() - 10, v.len() as int) =~= v@.skip(v.len() - 10));
        }
    }
    true
}

/// What the evaluator reads back is what the loader wrote: the dialog id of
/// a turn's memory text is the turn's id, for any id that starts with `D`
/// and holds no `]`.
pub proof fn lemma_dia_id_round_trip(dia_id: Seq<char>, speaker: Seq<char>, text: Seq<char>)
    requires
        dia_id.len() > 0,
        dia_id[0] == 'D',
        forall|k: int| 0 <= k < dia_id.len() ==> dia_id[k] != ']',
    ensures
        is_first_opener(turn_text(dia_id, speaker, text), 0),
        closes_at(turn_text(dia_id, speaker, text), 0, dia_id.len() + 1 as int),
        turn_text(dia_id, speaker, text).subrange(1, dia_id.len() + 1 as int) == dia_id,
{
    reveal_strlit("[");
    reveal_strlit("] ");
    let t = turn_text(dia_id, speaker, text);
    let head = "["@ + dia_id + "] "@;
    assert(t == head + (speaker + ": "@ + text)) by {
        assert(t =~= head + (speaker + ": "@ + text));
    }
    assert(t[0] == '[');
    assert(t[1] == dia_id[0]);
    assert(t[dia_id.len() + 1 as int] == ']');
    assert forall|k: int| 0 <= k < dia_id.len() + 1 implies t[k] != ']' by {
        if k > 0 {
            assert(t[k] == dia_id[k - 1]);
        }
    }
    assert(t.subrange(1, dia_id.len() + 1 as int) =~= dia_id);
}

} // verus!
