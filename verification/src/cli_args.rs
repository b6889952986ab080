//! The command line of the memory CLI: flags are looked up anywhere in the
//! argument list, the query text is what remains after the command words and
//! each flag with its value.
use vstd::prelude::*;
use crate::numparse::{parse_i64, parse_i64_spec, parse_usize, parse_usize_spec};
use crate::text::{owned, text_eq};

verus! {

/// A parsed command.
pub enum CliCommand {
    Usage,
    CreateWorkspace { name: String, path: String },
    ListWorkspaces,
    DeleteWorkspace { id: i64 },
    UnknownWorkspaceSubcommand { name: String },
    Store {
        workspace_id: i64,
        event_type: String,
        context: String,
        outcome: Option<String>,
        valence: Option<String>,
    },
    Stats { workspace_id: i64 },
    Query { workspace_id: i64, text: String, limit: usize },
    MissingQueryText,
    UnknownCommand { name: String },
}

/// The mathematical content of a command.
pub enum CommandSpec {
    Usage,
    CreateWorkspace { name: Seq<char>, path: Seq<char> },
    ListWorkspaces,
    DeleteWorkspace { id: i64 },
    UnknownWorkspaceSubcommand { name: Seq<char> },
    Store {
        workspace_id: i64,
        event_type: Seq<char>,
        context: Seq<char>,
        outcome: Option<Seq<char>>,
        valence: Option<Seq<char>>,
    },
    Stats { workspace_id: i64 },
    Query { workspace_id: i64, text: Seq<char>, limit: usize },
    MissingQueryText,
    UnknownCommand { name: Seq<char> },
}

pub open spec fn opt_view(o: Option<String>) -> Option<Seq<char>> {
    match o {
        Some(s) => Some(s@),
        None => None,
    }
}

impl View for CliCommand {
    type V = CommandSpec;

    open spec fn view(&self) -> CommandSpec {
        match self {
            CliCommand::Usage => CommandSpec::Usage,
            CliCommand::CreateWorkspace { name, path } => CommandSpec::CreateWorkspace {
                name: name@,
                path: path@,
            },
            CliCommand::ListWorkspaces => CommandSpec::ListWorkspaces,
            CliCommand::DeleteWorkspace { id } => CommandSpec::DeleteWorkspace { id: *id },
            CliCommand::UnknownWorkspaceSubcommand { name } => CommandSpec::UnknownWorkspaceSubcommand {
                name: name@,
            },
            CliCommand::Store { workspace_id, event_type, context, outcome, valence } =>
                CommandSpec::Store {
                workspace_id: *workspace_id,
                event_type: event_type@,
                context: context@,
                outcome: opt_view(*outcome),
                valence: opt_view(*valence),
            },
            CliCommand::Stats { workspace_id } => CommandSpec::Stats { workspace_id: *workspace_id },
            CliCommand::Query { workspace_id, text, limit } => CommandSpec::Query {
                workspace_id: *workspace_id,
                text: text@,
                limit: *limit,
            },
            CliCommand::MissingQueryText => CommandSpec::MissingQueryText,
            CliCommand::UnknownCommand { name } => CommandSpec::UnknownCommand { name: name@ },
        }
    }
}

/// A required argument that the command line lacks.
#[derive(Clone, Copy, Debug, PartialEq, Eq, Structural)]
pub enum MissingArg {
    WorkspaceSubcommand,
    Name,
    Path,
    Id,
    Workspace,
    EventType,
    Context,
}

impl MissingArg {
    /// The message the CLI stops with.
    pub fn message(&self) -> (m: &'static str)
        ensures
            *self == MissingArg::WorkspaceSubcommand ==> m@ == "workspace subcommand required"@,
            *self == MissingArg::Name ==> m@ == "--name required"@,
            *self == MissingArg::Path ==> m@ == "--path required"@,
            *self == MissingArg::Id ==> m@ == "--id required"@,
            *self == MissingArg::Workspace ==> m@ == "--workspace required"@,
            *self == MissingArg::EventType ==> m@ == "--type required"@,
            *self == MissingArg::Context ==> m@ == "--context required"@,
    {
        match self {
            MissingArg::WorkspaceSubcommand => "workspace subcommand required",
            MissingArg::Name => "--name required",
            MissingArg::Path => "--path required",
            MissingArg::Id => "--id required",
            MissingArg::Workspace => "--workspace required",
            MissingArg::EventType => "--type required",
            MissingArg::Context => "--context required",
        }
    }
}

/// Position of the first argument equal to `flag`.
pub open spec fn first_pos(args: Seq<Seq<char>>, flag: Seq<char>) -> Option<int>
    decreases args.len(),
{
    if args.len() == 0 {
        None
    } else {
        match first_pos(args.drop_last(), flag) {
            Some(i) => Some(i),
            None => if args.last() == flag {
                Some(args.len() - 1)
            } else {
                None
            },
        }
    }
}

/// The argument following the first occurrence of `flag`, if both exist.
pub open spec fn flag_value(args: Seq<Seq<char>>, flag: Seq<char>) -> Option<Seq<char>> {
    match first_pos(args, flag) {
        Some(i) => if i + 1 < args.len() {
            Some(args[i + 1])
        } else {
            None
        },
        None => None,
    }
}

/// A flag's value parsed as an `i64`.
pub open spec fn flag_i64(args: Seq<Seq<char>>, flag: Seq<char>) -> Option<i64> {
    match flag_value(args, flag) {
        Some(v) => parse_i64_spec(v),
        None => None,
    }
}

pub open spec fn starts_with_dashes(a: Seq<char>) -> bool {
    a.len() >= 2 && a[0] == '-' && a[1] == '-'
}

/// Query text built from `words`: each word appended after a space, except
/// while the text is still empty; each `--flag` skips itself and the next
/// argument. The state is (text, skip-next).
pub open spec fn query_state(words: Seq<Seq<char>>) -> (Seq<char>, bool)
    decreases words.len(),
{
    if words.len() == 0 {
        (Seq::empty(), false)
    } else {
        let (text, skip) = query_state(words.drop_last());
        let a = words.last();
        if skip {
            (text, false)
        } else if starts_with_dashes(a) {
            (text, true)
        } else if text.len() == 0 {
            (a, false)
        } else {
            (text + " "@ + a, false)
        }
    }
}

/// The query text of a `query` command line.
pub open spec fn query_text(args: Seq<Seq<char>>) -> Seq<char> {
    query_state(args.skip(2)).0
}

/// The command a command line denotes, or the first required argument it
/// lacks.
pub open spec fn parse_spec(args: Seq<Seq<char>>) -> Result<CommandSpec, MissingArg> {
    if args.len() < 2 {
        Ok(CommandSpec::Usage)
    } else if args[1] == "workspace"@ {
        if args.len() < 3 {
            Err(MissingArg::WorkspaceSubcommand)
        } else if args[2] == "create"@ {
            match flag_value(args, "--name"@) {
                None => Err(MissingArg::Name),
                Some(name) => match flag_value(args, "--path"@) {
                    None => Err(MissingArg::Path),
                    Some(path) => Ok(CommandSpec::CreateWorkspace { name, path }),
                },
            }
        } else if args[2] == "list"@ {
            Ok(CommandSpec::ListWorkspaces)
        } else if args[2] == "delete"@ {
            match flag_i64(args, "--id"@) {
                None => Err(MissingArg::Id),
                Some(id) => Ok(CommandSpec::DeleteWorkspace { id }),
            }
        } else {
            Ok(CommandSpec::UnknownWorkspaceSubcommand { name: args[2] })
        }
    } else if args[1] == "store"@ {
        match flag_i64(args, "--workspace"@) {
            None => Err(MissingArg::Workspace),
            Some(w) => match flag_value(args, "--type"@) {
                None => Err(MissingArg::EventType),
                Some(t) => match flag_value(args, "--context"@) {
                    None => Err(MissingArg::Context),
                    Some(c) => Ok(
                        CommandSpec::Store {
                            workspace_id: w,
                            event_type: t,
                            context: c,
                            outcome: flag_value(args, "--outcome"@),
                            valence: flag_value(args, "--valence"@),
                        },
                    ),
                },
            },
        }
    } else if args[1] == "stats"@ {
        match flag_i64(args, "--workspace"@) {
            None => Err(MissingArg::Workspace),
            Some(w) => Ok(CommandSpec::Stats { workspace_id: w }),
        }
    } else if args[1] == "query"@ {
        match flag_i64(args, "--workspace"@) {
            None => Err(MissingArg::Workspace),
            Some(w) => if query_text(args).len() == 0 {
                Ok(CommandSpec::MissingQueryText)
            } else {
                Ok(
                    CommandSpec::Query {
                        workspace_id: w,
                        text: query_text(args),
                        limit: match flag_value(args, "--limit"@) {
                            Some(v) => match parse_usize_spec(v) {
                                Some(n) => n,
                                None => 10,
                            },
                            None => 10,
                        },
                    },
                )
            }
        }
    } else {
        Ok(CommandSpec::UnknownCommand { name: args[1] })
    }
}

proof fn lemma_first_pos(args: Seq<Seq<char>>, flag: Seq<char>)
    ensures
        match first_pos(args, flag) {
            Some(i) => 0 <= i < args.len() && args[i] == flag && forall|j: int|
                0 <= j < i ==> args[j] != flag,
            None => forall|j: int| 0 <= j < args.len() ==> args[j] != flag,
        },
    decreases args.len(),
{
    if args.len() > 0 {
        lemma_first_pos(args.drop_last(), flag);
        match first_pos(args.drop_last(), flag) {
            Some(i) => {
                assert(args.drop_last()[i] == args[i]);
                assert forall|j: int| 0 <= j < i implies args[j] != flag by {
                    assert(args.drop_last()[j] == args[j]);
                }
            },
            None => {
                assert forall|j: int| 0 <= j < args.len() - 1 implies args[j] != flag by {
                    assert(args.drop_last()[j] == args[j]);
                }
            },
        }
    }
}

/// `v` is what follows the first `flag` on the command line: the next
/// argument when the flag occurs and is not last, `None` when the flag does
/// not occur or its first occurrence ends the line.
pub open spec fn follows_first(args: Seq<Seq<char>>, flag: Seq<char>, v: Option<Seq<char>>) -> bool {
    match v {
        Some(x) => exists|i: int|
            0 <= i && i + 1 < args.len() && #[trigger] args[i] == flag && x == args[i + 1] && forall|j: int|
                0 <= j < i ==> args[j] != flag,
        None => forall|i: int|
            0 <= i < args.len() && #[trigger] args[i] == flag && (forall|j: int|
                0 <= j < i ==> args[j] != flag) ==> i + 1 >= args.len(),
    }
}

proof fn lemma_flag_value_follows(args: Seq<Seq<char>>, flag: Seq<char>)
    ensures
        follows_first(args, flag, flag_value(args, flag)),
{
    lemma_first_pos(args, flag);
    match first_pos(args, flag) {
        Some(i) => {
            if i + 1 < args.len() {
                assert(follows_first(args, flag, Some(args[i + 1])));
            } else {
                assert forall|k: int|
                    0 <= k < args.len() && args[k] == flag && (forall|j: int|
                        0 <= j < k ==> args[j] != flag) implies k + 1 >= args.len() by {
                    if k < i {
                    } else if k > i {
                        assert(args[i] == flag);
                    }
                }
            }
        },
        None => {},
    }
}

/// A `store` command carries what its flags give: the workspace is the
/// number after the first `--workspace`, and the event type, context,
/// outcome and valence are the arguments after the first `--type`,
/// `--context`, `--outcome` and `--valence` (the last two `None` exactly when
/// their flag is absent or ends the line).
pub proof fn lemma_store_fields(args: Seq<Seq<char>>)
    ensures
        parse_spec(args) matches Ok(CommandSpec::Store { workspace_id, event_type, context, outcome, valence })
            ==> {
            &&& args.len() >= 2 && args[1] == "store"@
            &&& exists|w: Seq<char>|
                follows_first(args, "--workspace"@, Some(w)) && parse_i64_spec(w) == Some(workspace_id)
            &&& follows_first(args, "--type"@, Some(event_type))
            &&& follows_first(args, "--context"@, Some(context))
            &&& follows_first(args, "--outcome"@, outcome)
            &&& follows_first(args, "--valence"@, valence)
        },
{
    reveal_strlit("workspace");
    reveal_strlit("store");
    lemma_flag_value_follows(args, "--workspace"@);
    lemma_flag_value_follows(args, "--type"@);
    lemma_flag_value_follows(args, "--context"@);
    lemma_flag_value_follows(args, "--outcome"@);
    lemma_flag_value_follows(args, "--valence"@);
    if parse_spec(args) is Ok && parse_spec(args)->Ok_0 is Store {
        assert(args.len() >= 2);
        if args[1] == "workspace"@ {
            assert("workspace"@.len() != "store"@.len());
        }
        assert(args[1] == "store"@);
        let w = flag_value(args, "--workspace"@)->0;
        assert(follows_first(args, "--workspace"@, Some(w)));
    }
}

/// A `workspace create` command carries the arguments after the first
/// `--name` and `--path`.
pub proof fn lemma_create_fields(args: Seq<Seq<char>>)
    ensures
        parse_spec(args) matches Ok(CommandSpec::CreateWorkspace { name, path }) ==> {
            &&& follows_first(args, "--name"@, Some(name))
            &&& follows_first(args, "--path"@, Some(path))
        },
{
    lemma_flag_value_follows(args, "--name"@);
    lemma_flag_value_follows(args, "--path"@);
}

/// The value after the first occurrence of `flag`.
pub fn find_flag_value(args: &Vec<String>, flag: &str) -> (r: Option<String>)
    ensures
        opt_view(r) == flag_value(args.deep_view(), flag@),
{
    proof {
        lemma_first_pos(args.deep_view(), flag@);
    }
    let mut i: usize = 0;
    while i < args.len()
        invariant
            i <= args.len(),
            forall|j: int| 0 <= j < i ==> args.deep_view()[j] != flag@,
        decreases args.len() - i,
    {
        if text_eq(args[i].as_str(), flag) {
            proof {
                lemma_first_pos(args.deep_view(), flag@);
                assert(args.deep_view()[i as int] == flag@);
                match first_pos(args.deep_view(), flag@) {
                    Some(k) => {
                        if k < i {
                            assert(args.deep_view()[k] != flag@);
                        } else if k > i {
                            assert(args.deep_view()[i as int] != flag@);
                        }
                    },
                    None => {},
                }
            }
            if i + 1 < args.len() {
                return Some(owned(args[i + 1].as_str()));
            } else {
                return None;
            }
        }
        i += 1;
    }
    proof {
        lemma_first_pos(args.deep_view(), flag@);
        match first_pos(args.deep_view(), flag@) {
            Some(k) => {
                assert(args.deep_view()[k] != flag@);
            },
            None => {},
        }
    }
    None
}

fn find_flag_i64(args: &Vec<String>, flag: &str) -> (r: Option<i64>)
    ensures
        r == flag_i64(args.deep_view(), flag@),
{
    match find_flag_value(args, flag) {
        Some(v) => parse_i64(v.as_str()),
        None => None,
    }
}

fn starts_with_two_dashes(a: &str) -> (b: bool)
    ensures
        b == starts_with_dashes(a@),
{
    let v = crate::text::chars_of(a);
    v.len() >= 2 && v[0] == '-' && v[1] == '-'
}

/// Assembles the query text of a `query` command line.
pub fn collect_query_text(args: &Vec<String>) -> (t: String)
    requires
        args.len() >= 2,
    ensures
        t@ == query_text(args.deep_view()),
{
    let ghost w = args.deep_view().skip(2);
    let mut text = String::new();
    let mut skip = false;
    let mut i: usize = 2;
    while i < args.len()
        invariant
            2 <= i <= args.len() || (args.len() < 2 && i == 2),
            w == args.deep_view().skip(2),
            (text@, skip) == query_state(w.take(i - 2)),
        decreases args.len() - i,
    {
        proof {
            assert(w.take(i - 1).drop_last() =~= w.take(i - 2));
            assert(w.take(i - 1).last() == args@[i as int]@);
        }
        if skip {
            skip = false;
        } else if starts_with_two_dashes(args[i].as_str()) {
            skip = true;
        } else if text.as_str().is_empty() {
            text = owned(args[i].as_str());
        } else {
            text.append(" ");
            text.append(args[i].as_str());
        }
        i += 1;
    }
    proof {
        if args.len() >= 2 {
            assert(w.take(args.len() - 2) =~= w);
        }
    }
    text
}

/// Parses a command line (program name first).
pub fn parse_command_line(args: &Vec<String>) -> (r: Result<CliCommand, MissingArg>)
    ensures
        match r {
            Ok(c) => parse_spec(args.deep_view()) == Ok::<CommandSpec, MissingArg>(c@),
            Err(e) => parse_spec(args.deep_view()) == Err::<CommandSpec, MissingArg>(e),
        },
{
    let ghost a = args.deep_view();
    if args.len() < 2 {
        return Ok(CliCommand::Usage);
    }
    assert(a[1] == args@[1]@);
    let cmd = args[1].as_str();
    if text_eq(cmd, "workspace") {
        if args.len() < 3 {
            return Err(MissingArg::WorkspaceSubcommand);
        }
        assert(a[2] == args@[2]@);
        let sub = args[2].as_str();
        if text_eq(sub, "create") {
            let name = match find_flag_value(args, "--name") {
                Some(n) => n,
                None => return Err(MissingArg::Name),
            };
            let path = match find_flag_value(args, "--path") {
                Some(p) => p,
                None => return Err(MissingArg::Path),
            };
            Ok(CliCommand::CreateWorkspace { name, path })
        } else if text_eq(sub, "list") {
            Ok(CliCommand::ListWorkspaces)
        } else if text_eq(sub, "delete") {
            match find_flag_i64(args, "--id") {
                Some(id) => Ok(CliCommand::DeleteWorkspace { id }),
                None => Err(MissingArg::Id),
            }
        } else {
            Ok(CliCommand::UnknownWorkspaceSubcommand { name: owned(sub) })
        }
    } else if text_eq(cmd, "store") {
        let workspace_id = match find_flag_i64(args, "--workspace") {
            Some(w) => w,
            None => return Err(MissingArg::Workspace),
        };
        let event_type = match find_flag_value(args, "--type") {
            Some(t) => t,
            None => return Err(MissingArg::EventType),
        };
        let context = match find_flag_value(args, "--context") {
            Some(c) => c,
            None => return Err(MissingArg::Context),
        };
        let outcome = find_flag_value(args, "--outcome");
        let valence = find_flag_value(args, "--valence");
        Ok(CliCommand::Store { workspace_id, event_type, context, outcome, valence })
    } else if text_eq(cmd, "stats") {
        match find_flag_i64(args, "--workspace") {
            Some(w) => Ok(CliCommand::Stats { workspace_id: w }),
            None => Err(MissingArg::Workspace),
        }
    } else if text_eq(cmd, "query") {
        let workspace_id = match find_flag_i64(args, "--workspace") {
            Some(w) => w,
            None => return Err(MissingArg::Workspace),
        };
        let text = collect_query_text(args);
        if text.as_str().is_empty() {
            return Ok(CliCommand::MissingQueryText);
        }
        let limit = match find_flag_value(args, "--limit") {
            Some(v) => match parse_usize(v.as_str()) {
                Some(n) => n,
                None => 10,
            },
            None => 10,
        };
        Ok(CliCommand::Query { workspace_id, text, limit })
    } else {
        Ok(CliCommand::UnknownCommand { name: owned(cmd) })
    }
}

} // verus!
