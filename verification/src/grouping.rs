//! Grouping of values by a text key, keys in order of first appearance.
use vstd::prelude::*;
use crate::text::{owned, text_eq};

verus! {

/// A key and the values attached to it, in input order.
pub struct Group {
    pub key: String,
    pub members: Vec<i64>,
}

pub open spec fn group_view(g: Group) -> (Seq<char>, Seq<i64>) {
    (g.key@, g.members@)
}

pub open spec fn groups_view(gs: Seq<Group>) -> Seq<(Seq<char>, Seq<i64>)> {
    gs.map_values(|g: Group| group_view(g))
}

/// Position of the group with key `k`, if any.
pub open spec fn find_key(g: Seq<(Seq<char>, Seq<i64>)>, k: Seq<char>) -> Option<int>
    decreases g.len(),
{
    if g.len() == 0 {
        None
    } else {
        match find_key(g.drop_last(), k) {
            Some(i) => Some(i),
            None => if g.last().0 == k {
                Some(g.len() - 1)
            } else {
                None
            },
        }
    }
}

/// The groups of `vals` by `keys`: one group per distinct key, groups in
/// order of the key's first appearance, each holding its values in order.
pub open spec fn group_by_key(keys: Seq<Seq<char>>, vals: Seq<i64>) -> Seq<(Seq<char>, Seq<i64>)>
    decreases keys.len(),
{
    if keys.len() == 0 || vals.len() == 0 {
        Seq::empty()
    } else {
        let g = group_by_key(keys.drop_last(), vals.drop_last());
        match find_key(g, keys.last()) {
            Some(i) => g.update(i, (g[i].0, g[i].1.push(vals.last()))),
            None => g.push((keys.last(), seq![vals.last()])),
        }
    }
}

pub proof fn lemma_find_key(g: Seq<(Seq<char>, Seq<i64>)>, k: Seq<char>)
    ensures
        match find_key(g, k) {
            Some(i) => 0 <= i < g.len() && g[i].0 == k && forall|j: int|
                0 <= j < i ==> g[j].0 != k,
            None => forall|j: int| 0 <= j < g.len() ==> g[j].0 != k,
        },
    decreases g.len(),
{
    if g.len() > 0 {
        lemma_find_key(g.drop_last(), k);
        match find_key(g.drop_last(), k) {
            Some(i) => {
                assert(g.drop_last()[i] == g[i]);
                assert forall|j: int| 0 <= j < i implies g[j].0 != k by {
                    assert(g.drop_last()[j] == g[j]);
                }
            },
            None => {
                assert forall|j: int| 0 <= j < g.len() - 1 implies g[j].0 != k by {
                    assert(g.drop_last()[j] == g[j]);
                }
            },
        }
    }
}

/// Every group holds at least one value, and together the groups hold as
/// many values as there were inputs.
pub proof fn lemma_group_sizes(keys: Seq<Seq<char>>, vals: Seq<i64>)
    requires
        keys.len() == vals.len(),
    ensures
        forall|i: int|
            0 <= i < group_by_key(keys, vals).len() ==> (#[trigger] group_by_key(keys, vals)[i]).1.len()
                >= 1,
        total_members(group_by_key(keys, vals)) == keys.len(),
    decreases keys.len(),
{
    if keys.len() > 0 {
        let g = group_by_key(keys.drop_last(), vals.drop_last());
        lemma_group_sizes(keys.drop_last(), vals.drop_last());
        lemma_find_key(g, keys.last());
        match find_key(g, keys.last()) {
            Some(i) => {
                let h = g.update(i, (g[i].0, g[i].1.push(vals.last())));
                lemma_total_members_update(g, i, (g[i].0, g[i].1.push(vals.last())));
                assert forall|j: int| 0 <= j < h.len() implies (#[trigger] h[j]).1.len() >= 1 by {
                    if j != i {
                        assert(h[j] == g[j]);
                    }
                }
            },
            None => {
                let h = g.push((keys.last(), seq![vals.last()]));
                assert(h.drop_last() =~= g);
                assert forall|j: int| 0 <= j < h.len() implies (#[trigger] h[j]).1.len() >= 1 by {
                    if j < g.len() {
                        assert(h[j] == g[j]);
                    }
                }
            },
        }
    }
}

/// Total number of values held by the groups.
pub open spec fn total_members(g: Seq<(Seq<char>, Seq<i64>)>) -> nat
    decreases g.len(),
{
    if g.len() == 0 {
        0
    } else {
        total_members(g.drop_last()) + g.last().1.len()
    }
}

proof fn lemma_total_members_update(
    g: Seq<(Seq<char>, Seq<i64>)>,
    i: int,
    x: (Seq<char>, Seq<i64>),
)
    requires
        0 <= i < g.len(),
    ensures
        total_members(g.update(i, x)) + g[i].1.len() == total_members(g) + x.1.len(),
    decreases g.len(),
{
    if i < g.len() - 1 {
        lemma_total_members_update(g.drop_last(), i, x);
        assert(g.update(i, x).drop_last() =~= g.drop_last().update(i, x));
    } else {
        assert(g.update(i, x).drop_last() =~= g.drop_last());
    }
}

fn find_group(groups: &Vec<Group>, key: &str) -> (r: Option<usize>)
    ensures
        match find_key(groups_view(groups@), key@) {
            Some(i) => r == Some(i as usize),
            None => r is None,
        },
        r matches Some(i) ==> i < groups.len(),
{
    proof {
        lemma_find_key(groups_view(groups@), key@);
        assert(groups_view(groups@).len() == groups@.len());
    }
    let mut i: usize = 0;
    while i < groups.len()
        invariant
            i <= groups.len(),
            forall|j: int| 0 <= j < i ==> groups@[j].key@ != key@,
        decreases groups.len() - i,
    {
        if text_eq(groups[i].key.as_str(), key) {
            proof {
                lemma_find_key(groups_view(groups@), key@);
                assert(groups_view(groups@).len() == groups@.len());
                match find_key(groups_view(groups@), key@) {
                    Some(k) => {
                        if k < i {
                            assert(groups_view(groups@)[k] == group_view(groups@[k]));
                        } else if k > i {
                            assert(groups_view(groups@)[i as int] == group_view(groups@[i as int]));
                        }
                    },
                    None => {
                        assert(groups_view(groups@)[i as int] == group_view(groups@[i as int]));
                    },
                }
            }
            return Some(i);
        }
        i += 1;
    }
    proof {
        lemma_find_key(groups_view(groups@), key@);
        assert(groups_view(groups@).len() == groups@.len());
        match find_key(groups_view(groups@), key@) {
            Some(k) => {
                assert(groups_view(groups@)[k] == group_view(groups@[k]));
            },
            None => {},
        }
    }
    None
}

/// Groups `vals` by the matching entries of `keys`.
pub fn group_values(keys: &Vec<String>, vals: &Vec<i64>) -> (groups: Vec<Group>)
    requires
        keys.len() == vals.len(),
    ensures
        groups_view(groups@) == group_by_key(keys.deep_view(), vals@),
{
    let mut groups: Vec<Group> = Vec::new();
    let mut i: usize = 0;
    while i < keys.len()
        invariant
            i <= keys.len(),
            keys.len() == vals.len(),
            groups_view(groups@) == group_by_key(keys.deep_view().take(i as int), vals@.take(i as int)),
        decreases keys.len() - i,
    {
        proof {
            assert(keys.deep_view().take(i + 1).drop_last() =~= keys.deep_view().take(i as int));
            assert(vals@.take(i + 1).drop_last() =~= vals@.take(i as int));
            assert(keys.deep_view().take(i + 1).last() == keys@[i as int]@);
            assert(vals@.take(i + 1).last() == vals@[i as int]);
        }
        let ghost before = groups_view(groups@);
        match find_group(&groups, keys[i].as_str()) {
            Some(j) => {
                let mut g = groups.remove(j);
                g.members.push(vals[i]);
                groups.insert(j, g);
                proof {
                    lemma_find_key(before, keys@[i as int]@);
                    assert(find_key(before, keys@[i as int]@) == Some(j as int));
                    assert(groups_view(groups@) =~= before.update(
                        j as int,
                        (before[j as int].0, before[j as int].1.push(vals@[i as int])),
                    ));
                    assert(groups_view(groups@) == group_by_key(
                        keys.deep_view().take(i + 1),
                        vals@.take(i + 1),
                    ));
                }
            },
            None => {
                let mut members: Vec<i64> = Vec::new();
                members.push(vals[i]);
                groups.push(Group { key: owned(keys[i].as_str()), members });
                proof {
                    assert(groups_view(groups@) =~= before.push((keys@[i as int]@, seq![vals@[i as int]])));
                    assert(groups_view(groups@) == group_by_key(
                        keys.deep_view().take(i + 1),
                        vals@.take(i + 1),
                    ));
                }
            },
        }
        i += 1;
    }
    proof {
        assert(keys.deep_view().take(keys.len() as int) =~= keys.deep_view());
        assert(vals@.take(vals.len() as int) =~= vals@);
    }
    groups
}

} // verus!
