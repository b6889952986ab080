//! Token budgeting of the context injected ahead of a query: a quarter of
//! the budget for the daily synopsis, two fifths for semantic memories, a
//! quarter for episodes, a tenth for procedures.
use vstd::prelude::*;
use crate::text::text_eq;
use vstd::string::StringSliceAdditionalSpecFns;

verus! {

/// Estimated tokens of a text: its UTF-8 length over four, rounded up.
pub fn estimate_tokens(text: &str) -> (n: usize)
    requires
        text.spec_bytes().len() + 3 <= usize::MAX,
    ensures
        n == (text.spec_bytes().len() + 3) / 4,
{
    (text.len() + 3) / 4
}

/// Token allowance of each part of the context.
#[derive(Clone, Copy, Debug, PartialEq, Eq, Structural)]
pub struct ContextBudgets {
    pub synopsis: usize,
    pub semantic: usize,
    pub episodic: usize,
    pub procedural: usize,
    pub other: usize,
}

/// Splits a token budget: synopsis 1/4, semantic 2/5, episodic 1/4,
/// procedural and any other kind 1/10 (each rounded down).
pub fn context_budgets(budget: usize) -> (b: ContextBudgets)
    requires
        budget * 2 <= usize::MAX,
    ensures
        b.synopsis == budget / 4,
        b.semantic == (budget * 2) / 5,
        b.episodic == budget / 4,
        b.procedural == budget / 10,
        b.other == budget / 10,
{
    ContextBudgets {
        synopsis: budget / 4,
        semantic: (budget * 2) / 5,
        episodic: budget / 4,
        procedural: budget / 10,
        other: budget / 10,
    }
}

/// The allowance of a memory type.
pub open spec fn type_budget_spec(budget: nat, memory_type: Seq<char>) -> nat {
    if memory_type == "semantic"@ {
        (budget * 2) / 5
    } else if memory_type == "episodic"@ {
        budget / 4
    } else if memory_type == "procedural"@ {
        budget / 10
    } else {
        budget / 10
    }
}

fn type_budget(b: &ContextBudgets, budget: Ghost<nat>, memory_type: &str) -> (t: usize)
    requires
        b.semantic == (budget@ * 2) / 5,
        b.episodic == budget@ / 4,
        b.procedural == budget@ / 10,
        b.other == budget@ / 10,
    ensures
        t == type_budget_spec(budget@, memory_type@),
{
    if text_eq(memory_type, "semantic") {
        b.semantic
    } else if text_eq(memory_type, "episodic") {
        b.episodic
    } else if text_eq(memory_type, "procedural") {
        b.procedural
    } else {
        b.other
    }
}

/// A retrieved memory offered for the context: its type and the tokens of
/// its formatted text.
pub struct ContextItem {
    pub memory_type: String,
    pub tokens: usize,
}

/// Which parts go into the context and how many tokens they use.
pub struct ContextPlan {
    pub take_synopsis: bool,
    pub taken: Vec<bool>,
    pub tokens_used: usize,
}

/// The synopsis goes in when it fits in its quarter of the budget.
pub open spec fn synopsis_fits(budget: nat, synopsis_tokens: Option<usize>) -> bool {
    synopsis_tokens matches Some(t) && t <= budget / 4
}

/// Inclusion decisions for the items, in order, and the tokens used after
/// them: an item goes in when the running total stays within the budget and
/// the item fits its type's allowance.
pub open spec fn plan_items(budget: nat, synopsis_tokens: Option<usize>, items: Seq<ContextItem>) -> (
    Seq<bool>,
    nat,
)
    decreases items.len(),
{
    if items.len() == 0 {
        (
            Seq::empty(),
            if synopsis_fits(budget, synopsis_tokens) {
                synopsis_tokens->0 as nat
            } else {
                0
            },
        )
    } else {
        let (inc, used) = plan_items(budget, synopsis_tokens, items.drop_last());
        let it = items.last();
        if used + it.tokens <= budget && it.tokens <= type_budget_spec(budget, it.memory_type@) {
            (inc.push(true), (used + it.tokens) as nat)
        } else {
            (inc.push(false), used)
        }
    }
}

/// Decides what fills the context: the synopsis (if offered and it fits its
/// quarter), then each item in retrieval order.
pub fn plan_context(budget: usize, synopsis_tokens: Option<usize>, items: &Vec<ContextItem>) -> (p:
    ContextPlan)
    requires
        budget * 2 <= usize::MAX,
    ensures
        p.take_synopsis == synopsis_fits(budget as nat, synopsis_tokens),
        (p.taken@, p.tokens_used as nat) == plan_items(budget as nat, synopsis_tokens, items@),
        p.tokens_used <= budget,
{
    let b = context_budgets(budget);
    let mut used: usize = 0;
    let mut take_synopsis = false;
    match synopsis_tokens {
        Some(t) => {
            if t <= b.synopsis {
                used = t;
                take_synopsis = true;
            }
        },
        None => {},
    }
    let mut taken: Vec<bool> = Vec::new();
    let mut i: usize = 0;
    while i < items.len()
        invariant
            i <= items.len(),
            budget * 2 <= usize::MAX,
            b == context_budgets_spec(budget as nat),
            used <= budget,
            (taken@, used as nat) == plan_items(budget as nat, synopsis_tokens, items@.take(i as int)),
        decreases items.len() - i,
    {
        proof {
            assert(items@.take(i + 1).drop_last() =~= items@.take(i as int));
        }
        let it = &items[i];
        let tb = type_budget(&b, Ghost(budget as nat), it.memory_type.as_str());
        if it.tokens <= budget - used && it.tokens <= tb {
            taken.push(true);
            used = used + it.tokens;
        } else {
            taken.push(false);
        }
        i += 1;
    }
    proof {
        assert(items@.take(items.len() as int) =~= items@);
    }
    ContextPlan { take_synopsis, taken, tokens_used: used }
}

pub open spec fn context_budgets_spec(budget: nat) -> ContextBudgets {
    ContextBudgets {
        synopsis: (budget / 4) as usize,
        semantic: ((budget * 2) / 5) as usize,
        episodic: (budget / 4) as usize,
        procedural: (budget / 10) as usize,
        other: (budget / 10) as usize,
    }
}

/// The context never uses more tokens than the budget, the synopsis never
/// more than its quarter, and every item taken fits its type's allowance.
pub proof fn lemma_plan_within_budget(budget: nat, synopsis_tokens: Option<usize>, items: Seq<
    ContextItem,
>)
    ensures
        plan_items(budget, synopsis_tokens, items).1 <= budget,
        plan_items(budget, synopsis_tokens, items).0.len() == items.len(),
        forall|i: int|
            0 <= i < items.len() && #[trigger] plan_items(budget, synopsis_tokens, items).0[i]
                ==> items[i].tokens <= type_budget_spec(budget, items[i].memory_type@),
        synopsis_fits(budget, synopsis_tokens) ==> synopsis_tokens->0 <= budget / 4,
    decreases items.len(),
{
    if items.len() > 0 {
        let p = items.drop_last();
        lemma_plan_within_budget(budget, synopsis_tokens, p);
        let (inc, used) = plan_items(budget, synopsis_tokens, p);
        let r = plan_items(budget, synopsis_tokens, items);
        assert forall|i: int|
            0 <= i < items.len() && #[trigger] r.0[i] implies items[i].tokens <= type_budget_spec(
            budget,
            items[i].memory_type@,
        ) by {
            if i < items.len() - 1 {
                assert(r.0[i] == inc[i]);
                assert(items[i] == p[i]);
            }
        }
    }
}

/// The four shares (a quarter, two fifths, a quarter, a tenth) never add up
/// to more than the budget.
pub proof fn lemma_budget_shares_fit(budget: nat)
    ensures
        budget / 4 + (budget * 2) / 5 + budget / 4 + budget / 10 <= budget,
{
    assert(budget / 4 + (budget * 2) / 5 + budget / 4 + budget / 10 <= budget) by (nonlinear_arith);
}

proof fn lemma_plan_decisions(budget: nat, synopsis_tokens: Option<usize>, items: Seq<ContextItem>)
    ensures
        plan_items(budget, synopsis_tokens, items).0.len() == items.len(),
        forall|i: int|
            0 <= i < items.len() ==> (#[trigger] plan_items(budget, synopsis_tokens, items).0[i] <==> (
            plan_items(budget, synopsis_tokens, items.take(i)).1 + items[i].tokens <= budget
                && items[i].tokens <= type_budget_spec(budget, items[i].memory_type@))),
    decreases items.len(),
{
    if items.len() > 0 {
        let p = items.drop_last();
        lemma_plan_decisions(budget, synopsis_tokens, p);
        assert(items.take(items.len() - 1) =~= p);
        assert forall|i: int| 0 <= i < items.len() - 1 implies items.take(i) == p.take(i) && items[i]
            == p[i] by {
            assert(items.take(i) =~= p.take(i));
        }
    }
}

/// An item goes into the context exactly when it fits both what is left of
/// the budget after the items before it and the allowance of its type: two
/// fifths of the budget for a semantic memory, a quarter for an episode, a
/// tenth for a procedure or any other type.
pub proof fn lemma_item_allowances(budget: nat, synopsis_tokens: Option<usize>, items: Seq<ContextItem>)
    ensures
        forall|i: int|
            0 <= i < items.len() ==> (#[trigger] plan_items(budget, synopsis_tokens, items).0[i] <==> (
            plan_items(budget, synopsis_tokens, items.take(i)).1 + items[i].tokens <= budget
                && items[i].tokens <= if items[i].memory_type@ == "semantic"@ {
                (budget * 2) / 5
            } else if items[i].memory_type@ == "episodic"@ {
                budget / 4
            } else {
                budget / 10
            })),
{
    reveal_strlit("semantic");
    reveal_strlit("episodic");
    reveal_strlit("procedural");
    lemma_plan_decisions(budget, synopsis_tokens, items);
}

/// The allowances by type, as fixed shares of the budget: a procedure may
/// use a tenth, never the two fifths of a semantic memory.
pub proof fn lemma_type_allowances(budget: nat)
    ensures
        type_budget_spec(budget, "semantic"@) == (budget * 2) / 5,
        type_budget_spec(budget, "episodic"@) == budget / 4,
        type_budget_spec(budget, "procedural"@) == budget / 10,
{
    reveal_strlit("semantic");
    reveal_strlit("episodic");
    reveal_strlit("procedural");
    assert("semantic"@[0] != "episodic"@[0]);
    assert("procedural"@.len() != "semantic"@.len());
    assert("procedural"@.len() != "episodic"@.len());
}

} // verus!
