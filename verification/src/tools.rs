//! Decisions of the MCP front end: request routing, input validation, the
//! message counter that triggers consolidation, the first-use gate that
//! loads the model once, and how the server picks its workspace and model.
use vstd::prelude::*;
use crate::models::ModelType;
use crate::numfmt::{hex_padded8, hex_string_padded8};
use crate::text::{is_blank, is_blank_text, lowercase_of, owned, text_eq, to_lowercase};

verus! {

/// JSON-RPC methods the tool handler answers.
#[derive(Clone, Copy, Debug, PartialEq, Eq, Structural)]
pub enum Method {
    Learn,
    Search,
    Initialize,
    ToolsList,
    ToolsCall,
    Unknown,
}

/// Routes a JSON-RPC method name.
pub fn route_method(method: &str) -> (m: Method)
    ensures
        method@ == "learn"@ ==> m == Method::Learn,
        method@ == "search"@ ==> m == Method::Search,
        method@ == "initialize"@ ==> m == Method::Initialize,
        method@ == "tools/list"@ ==> m == Method::ToolsList,
        method@ == "tools/call"@ ==> m == Method::ToolsCall,
        method@ != "learn"@ && method@ != "search"@ && method@ != "initialize"@ && method@
            != "tools/list"@ && method@ != "tools/call"@ ==> m == Method::Unknown,
{
    proof {
        reveal_strlit("learn");
        reveal_strlit("search");
        reveal_strlit("initialize");
        reveal_strlit("tools/list");
        reveal_strlit("tools/call");
        assert("learn"@.len() != "search"@.len());
        assert("learn"@.len() != "initialize"@.len());
        assert("learn"@.len() != "tools/list"@.len());
        assert("learn"@.len() != "tools/call"@.len());
        assert("search"@.len() != "initialize"@.len());
        assert("search"@.len() != "tools/list"@.len());
        assert("search"@.len() != "tools/call"@.len());
        assert("initialize"@[0] != "tools/list"@[0]);
        assert("initialize"@[0] != "tools/call"@[0]);
        assert("tools/list"@[6] != "tools/call"@[6]);
    }
    if text_eq(method, "learn") {
        Method::Learn
    } else if text_eq(method, "search") {
        Method::Search
    } else if text_eq(method, "initialize") {
        Method::Initialize
    } else if text_eq(method, "tools/list") {
        Method::ToolsList
    } else if text_eq(method, "tools/call") {
        Method::ToolsCall
    } else {
        Method::Unknown
    }
}

/// Tools that `tools/call` can invoke.
#[derive(Clone, Copy, Debug, PartialEq, Eq, Structural)]
pub enum ToolRoute {
    Learn,
    Search,
    Unknown,
}

/// Routes a tool name.
pub fn route_tool(name: &str) -> (t: ToolRoute)
    ensures
        name@ == "learn"@ ==> t == ToolRoute::Learn,
        name@ == "search"@ ==> t == ToolRoute::Search,
        name@ != "learn"@ && name@ != "search"@ ==> t == ToolRoute::Unknown,
{
    proof {
        reveal_strlit("learn");
        reveal_strlit("search");
        assert("learn"@.len() != "search"@.len());
    }
    if text_eq(name, "learn") {
        ToolRoute::Learn
    } else if text_eq(name, "search") {
        ToolRoute::Search
    } else {
        ToolRoute::Unknown
    }
}

/// Why a tool request is refused.
#[derive(Clone, Copy, Debug, PartialEq, Eq, Structural)]
pub enum ToolError {
    EmptyText,
    EmptyQuery,
    LimitOutOfRange,
}

impl ToolError {
    /// The message the request is refused with.
    pub fn message(&self) -> (m: &'static str)
        ensures
            *self == ToolError::EmptyText ==> m@ == "Text cannot be empty"@,
            *self == ToolError::EmptyQuery ==> m@ == "Query cannot be empty"@,
            *self == ToolError::LimitOutOfRange ==> m@ == "Limit must be between 1 and 100"@,
    {
        match self {
            ToolError::EmptyText => "Text cannot be empty",
            ToolError::EmptyQuery => "Query cannot be empty",
            ToolError::LimitOutOfRange => "Limit must be between 1 and 100",
        }
    }
}

/// Event type of a learned memory whose request names none.
pub fn default_event_type() -> (s: String)
    ensures
        s@ == "user_input"@,
{
    owned("user_input")
}

/// Number of results a search returns when its request names no limit.
pub fn default_limit() -> (n: usize)
    ensures
        n == 10,
{
    10
}

/// Largest number of results a search may ask for.
pub const MAX_SEARCH_LIMIT: usize = 100;

/// A memory to learn must hold some non-white-space text.
pub fn validate_learn(text: &str) -> (r: Result<(), ToolError>)
    ensures
        r is Err <==> is_blank(text@),
        r is Err ==> r == Err::<(), ToolError>(ToolError::EmptyText),
{
    if is_blank_text(text) {
        Err(ToolError::EmptyText)
    } else {
        Ok(())
    }
}

/// A search needs a non-blank query and a limit from 1 to 100; the query is
/// checked first.
pub fn validate_search(query: &str, limit: usize) -> (r: Result<(), ToolError>)
    ensures
        is_blank(query@) ==> r == Err::<(), ToolError>(ToolError::EmptyQuery),
        !is_blank(query@) && (limit == 0 || limit > 100) ==> r == Err::<(), ToolError>(
            ToolError::LimitOutOfRange,
        ),
        !is_blank(query@) && 1 <= limit <= 100 ==> r is Ok,
{
    if is_blank_text(query) {
        return Err(ToolError::EmptyQuery);
    }
    if limit == 0 || limit > MAX_SEARCH_LIMIT {
        return Err(ToolError::LimitOutOfRange);
    }
    Ok(())
}

/// The number of results the MCP server retrieves for a requested limit.
pub fn capped_limit(limit: usize) -> (n: usize)
    ensures
        n == if limit < 100 { limit } else { 100 },
{
    if limit < MAX_SEARCH_LIMIT {
        limit
    } else {
        MAX_SEARCH_LIMIT
    }
}

/// Messages between automatic consolidations.
pub const DEFAULT_CONSOLIDATION_THRESHOLD: usize = 20;

/// One message: the new count and whether consolidation runs now.
pub open spec fn counter_step(count: nat, threshold: nat) -> (nat, bool) {
    if count + 1 >= threshold {
        (0, true)
    } else {
        (count + 1, false)
    }
}

/// Count after `n` messages from zero.
pub open spec fn count_after(threshold: nat, n: nat) -> nat
    decreases n,
{
    if n == 0 {
        0
    } else {
        counter_step(count_after(threshold, (n - 1) as nat), threshold).0
    }
}

/// Counts messages and says when consolidation is due.
pub struct ConsolidationCounter {
    count: usize,
    threshold: usize,
}

impl ConsolidationCounter {
    /// The counter stays below its threshold (or at zero).
    pub closed spec fn wf(&self) -> bool {
        self.count == 0 || self.count < self.threshold
    }

    pub closed spec fn spec_count(&self) -> nat {
        self.count as nat
    }

    pub closed spec fn spec_threshold(&self) -> nat {
        self.threshold as nat
    }

    /// A counter at zero that fires every `threshold` messages.
    pub fn new(threshold: usize) -> (c: Self)
        ensures
            c.wf(),
            c.spec_count() == 0,
            c.spec_threshold() == threshold,
    {
        ConsolidationCounter { count: 0, threshold }
    }

    /// Messages counted since the last consolidation.
    pub fn count(&self) -> (n: usize)
        ensures
            n == self.spec_count(),
    {
        self.count
    }

    /// Counts one message; returns whether consolidation is due now, in
    /// which case the count starts again from zero.
    pub fn record_message(&mut self) -> (fire: bool)
        requires
            old(self).wf(),
        ensures
            final(self).wf(),
            final(self).spec_threshold() == old(self).spec_threshold(),
            (final(self).spec_count(), fire) == counter_step(
                old(self).spec_count(),
                old(self).spec_threshold(),
            ),
    {
        proof {
            assert(self.count < usize::MAX);
        }
        self.count = self.count + 1;
        if self.count >= self.threshold {
            self.count = 0;
            true
        } else {
            false
        }
    }
}

/// With a positive threshold `t`, the count after `n` messages is `n % t`,
/// and the `(n+1)`-th message triggers consolidation exactly when `n+1` is a
/// multiple of `t`.
pub proof fn lemma_consolidation_every_threshold(t: nat, n: nat)
    requires
        t > 0,
    ensures
        count_after(t, n) == n % t,
        counter_step(count_after(t, n), t).1 == ((n + 1) % t == 0),
    decreases n,
{
    if n > 0 {
        let m = (n - 1) as nat;
        lemma_consolidation_every_threshold(t, m);
        lemma_mod_successor(m, t);
    }
    lemma_mod_successor(n, t);
}

/// `(m + 1) % t` is `m % t + 1`, or zero when `m % t` is the last residue.
proof fn lemma_mod_successor(m: nat, t: nat)
    requires
        t > 0,
    ensures
        m % t + 1 >= t ==> (m + 1) % t == 0,
        m % t + 1 < t ==> (m + 1) % t == m % t + 1,
{
    vstd::arithmetic::div_mod::lemma_add_mod_noop(m as int, 1, t as int);
    vstd::arithmetic::div_mod::lemma_mod_self_0(t as int);
    if t > 1 {
        vstd::arithmetic::div_mod::lemma_small_mod(1, t);
    }
    if m % t + 1 < t {
        vstd::arithmetic::div_mod::lemma_small_mod((m % t + 1) as nat, t);
    }
}

/// Guards loading the model on first use: open until a load starts, shut
/// while it runs and after it succeeds, and open again when it fails, so that
/// the next request tries the load again.
pub struct InitGate {
    initialized: bool,
}

impl InitGate {
    pub closed spec fn is_open(&self) -> bool {
        !self.initialized
    }

    /// A gate through which no load has started.
    pub fn new() -> (g: Self)
        ensures
            g.is_open(),
    {
        InitGate { initialized: false }
    }

    /// Whether the caller must load the model now: true when it is open (no
    /// load has succeeded and none is under way); it is shut afterwards and
    /// stays shut unless `fail` reopens it.
    pub fn begin(&mut self) -> (load_now: bool)
        ensures
            load_now == old(self).is_open(),
            !final(self).is_open(),
    {
        if self.initialized {
            false
        } else {
            self.initialized = true;
            true
        }
    }

    /// The load that `begin` let through failed: open again, so that the
    /// next `begin` lets a load through.
    pub fn fail(&mut self)
        ensures
            final(self).is_open(),
    {
        self.initialized = false;
    }
}

/// The working directory facts a workspace name is derived from: the hash
/// of its path and its last component, if it has one.
pub struct CwdInfo {
    pub path_hash: u64,
    pub dir_name: Option<String>,
}

/// The workspace the server opens: the given name, else one derived from
/// the working directory (`{hash:08x}-{dir}`, `root` when the directory has
/// no name), else `default`.
pub open spec fn workspace_name_spec(given: Option<Seq<char>>, cwd: Option<(u64, Option<Seq<char>>)>) -> Seq<
    char,
> {
    match given {
        Some(n) => n,
        None => match cwd {
            Some((h, d)) => hex_padded8(h as nat) + "-"@ + match d {
                Some(d) => d,
                None => "root"@,
            },
            None => "default"@,
        },
    }
}

/// Picks the workspace name for the server.
pub fn resolve_workspace(given: Option<String>, cwd: Option<CwdInfo>) -> (r: String)
    ensures
        r@ == workspace_name_spec(
            match given {
                Some(n) => Some(n@),
                None => None,
            },
            match cwd {
                Some(c) => Some(
                    (
                        c.path_hash,
                        match c.dir_name {
                            Some(d) => Some(d@),
                            None => None,
                        },
                    ),
                ),
                None => None,
            },
        ),
{
    match given {
        Some(n) => n,
        None => match cwd {
            Some(c) => {
                let mut s = hex_string_padded8(c.path_hash);
                s.append("-");
                match &c.dir_name {
                    Some(d) => s.append(d.as_str()),
                    None => s.append("root"),
                }
                s
            },
            None => owned("default"),
        },
    }
}

/// The model a configured name selects, compared case-insensitively.
pub open spec fn model_for_name(name: Seq<char>) -> Option<ModelType> {
    let l = lowercase_of(name);
    if l == "minilm"@ {
        Some(ModelType::MiniLM)
    } else if l == "nomic"@ {
        Some(ModelType::Nomic)
    } else if l == "bge"@ || l == "bge-small"@ {
        Some(ModelType::BgeSmall)
    } else {
        None
    }
}

/// Model named by the configuration, if it names one.
pub fn model_from_name(name: &str) -> (m: Option<ModelType>)
    ensures
        m == model_for_name(name@),
{
    let l = to_lowercase(name);
    let s = l.as_str();
    if text_eq(s, "minilm") {
        Some(ModelType::MiniLM)
    } else if text_eq(s, "nomic") {
        Some(ModelType::Nomic)
    } else if text_eq(s, "bge") || text_eq(s, "bge-small") {
        Some(ModelType::BgeSmall)
    } else {
        None
    }
}

/// The model the server runs: the configured one when the configuration
/// names a known model, BGE-small otherwise.
pub fn resolve_model(configured: Option<String>) -> (m: ModelType)
    ensures
        m == match configured {
            Some(n) => match model_for_name(n@) {
                Some(x) => x,
                None => ModelType::BgeSmall,
            },
            None => ModelType::BgeSmall,
        },
{
    match configured {
        Some(n) => match model_from_name(n.as_str()) {
            Some(x) => x,
            None => ModelType::BgeSmall,
        },
        None => ModelType::BgeSmall,
    }
}

} // verus!
