//! Plain records handed between the storage layer and the front ends, and
//! the workspace directory layout.
use vstd::prelude::*;
use crate::models::ModelType;
use crate::text::{concat_str, owned};

verus! {

/// Counts of what a workspace holds.
#[derive(Clone, Copy, Debug, PartialEq, Eq, Structural)]
pub struct MemoryStats {
    pub active_episodes: usize,
    pub archived_episodes: usize,
    pub knowledge_count: usize,
}

impl MemoryStats {
    /// Stats from the three counts the database reports (each `COUNT(*)`,
    /// so never negative).
    pub fn from_counts(active: i64, archived: i64, knowledge: i64) -> (s: Self)
        requires
            0 <= active <= usize::MAX,
            0 <= archived <= usize::MAX,
            0 <= knowledge <= usize::MAX,
        ensures
            s.active_episodes == active,
            s.archived_episodes == archived,
            s.knowledge_count == knowledge,
    {
        MemoryStats {
            active_episodes: active as usize,
            archived_episodes: archived as usize,
            knowledge_count: knowledge as usize,
        }
    }
}

/// Answer to a successful `learn` request.
#[derive(Debug)]
pub struct LearnResponse {
    pub memory_id: i64,
    pub status: String,
}

impl LearnResponse {
    /// The answer for a memory stored under `memory_id`.
    pub fn success(memory_id: i64) -> (r: Self)
        ensures
            r.memory_id == memory_id,
            r.status@ == "success"@,
    {
        LearnResponse { memory_id, status: owned("success") }
    }
}

/// Whether an access count is zero (such a count is left out when a memory
/// is serialized).
pub fn is_zero(n: &i64) -> (b: bool)
    ensures
        b == (*n == 0),
{
    *n == 0
}

/// Whether a list of source episodes is empty (such a list is left out when
/// a memory is serialized).
pub fn is_empty_vec(v: &[i64]) -> (b: bool)
    ensures
        b == (v@.len() == 0),
{
    v.len() == 0
}

/// The key an episode's embedding is stored under in the shared vector
/// table: its id negated, so that it never meets the (positive) id of a
/// semantic memory.
pub open spec fn episode_key(episode_id: int) -> int {
    -episode_id
}

/// Key of an episode's embedding in the vector table.
pub fn episode_vector_key(episode_id: i64) -> (k: i64)
    requires
        episode_id > i64::MIN,
    ensures
        k == episode_key(episode_id as int),
{
    -episode_id
}

/// Episode embeddings and memory embeddings share one table without
/// clashing: the key of an episode (row ids are positive) is never the key
/// of a memory, and distinct episodes have distinct keys.
pub proof fn lemma_episode_keys_apart(episode_id: int, other_episode: int, memory_id: int)
    requires
        episode_id > 0,
        memory_id > 0,
    ensures
        episode_key(episode_id) != memory_id,
        episode_key(episode_id) < 0,
        episode_key(episode_id) == episode_key(other_episode) <==> episode_id == other_episode,
{
}

/// Version of the database schema this code creates.
pub const SCHEMA_VERSION: i32 = 1;

/// Whether a database reporting `current_version` still needs the row
/// recording the current schema version.
pub fn needs_schema_row(current_version: i32) -> (b: bool)
    ensures
        b == (current_version < SCHEMA_VERSION),
{
    current_version < SCHEMA_VERSION
}

/// `base` joined with `name` as a path: an absolute `name` replaces `base`;
/// otherwise a `/` separates them unless `base` is empty or already ends
/// with one.
pub open spec fn path_join(base: Seq<char>, name: Seq<char>) -> Seq<char> {
    if name.len() > 0 && name[0] == '/' {
        name
    } else if base.len() > 0 && base.last() != '/' {
        base + "/"@ + name
    } else {
        base + name
    }
}

/// Where workspaces live and which embedding model they are opened with.
pub struct WorkspaceManager {
    base_dir: String,
    model_type: ModelType,
}

impl WorkspaceManager {
    pub closed spec fn spec_base_dir(&self) -> Seq<char> {
        self.base_dir@
    }

    pub closed spec fn spec_model_type(&self) -> ModelType {
        self.model_type
    }

    /// A manager rooted at `base_dir` (which the caller has created).
    pub fn with_base_dir(base_dir: String, model_type: ModelType) -> (m: Self)
        ensures
            m.spec_base_dir() == base_dir@,
            m.spec_model_type() == model_type,
    {
        WorkspaceManager { base_dir, model_type }
    }

    /// The directory workspaces live under.
    pub fn base_dir(&self) -> (r: &str)
        ensures
            r@ == self.spec_base_dir(),
    {
        self.base_dir.as_str()
    }

    /// The model every workspace of this manager is opened with.
    pub fn model_type(&self) -> (m: ModelType)
        ensures
            m == self.spec_model_type(),
    {
        self.model_type
    }

    /// The directory of the workspace called `workspace_name`.
    pub fn workspace_path(&self, workspace_name: &str) -> (p: String)
        ensures
            p@ == path_join(self.spec_base_dir(), workspace_name@),
    {
        join_path(self.base_dir.as_str(), workspace_name)
    }
}

/// Joins two path texts as `path_join` says.
pub fn join_path(base: &str, name: &str) -> (p: String)
    ensures
        p@ == path_join(base@, name@),
{
    proof {
        reveal_strlit("/");
    }
    let n = name.unicode_len();
    if n > 0 && name.get_char(0) == '/' {
        return owned(name);
    }
    let b = base.unicode_len();
    if b > 0 && base.get_char(b - 1) != '/' {
        let mut r = concat_str(base, "/");
        r.append(name);
        r
    } else {
        concat_str(base, name)
    }
}

/// Workspaces stay apart: under one base directory, two relative workspace
/// names give the same directory only when they are the same name.
pub proof fn lemma_workspace_paths_distinct(base: Seq<char>, a: Seq<char>, b: Seq<char>)
    requires
        !(a.len() > 0 && a[0] == '/'),
        !(b.len() > 0 && b[0] == '/'),
    ensures
        path_join(base, a) == path_join(base, b) <==> a == b,
{
    if path_join(base, a) == path_join(base, b) {
        let pre = if base.len() > 0 && base.last() != '/' {
            base + "/"@
        } else {
            base
        };
        assert(path_join(base, a) == pre + a);
        assert(path_join(base, b) == pre + b);
        assert((pre + a).len() == (pre + b).len());
        assert forall|k: int| 0 <= k < a.len() implies a[k] == b[k] by {
            assert((pre + a)[pre.len() + k] == a[k]);
            assert((pre + b)[pre.len() + k] == b[k]);
        }
        assert(a =~= b);
    }
}

} // verus!
