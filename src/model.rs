use indexmap::IndexMap;
use std::hash::RandomState;
use vstd::prelude::*;
use vstd::string::*;

verus! {

#[verifier::external_type_specification]
#[verifier::external_body]
#[verifier::reject_recursive_types(K)]
#[verifier::reject_recursive_types(V)]
#[verifier::reject_recursive_types(S)]
pub struct ExIndexMap<K, V, S>(IndexMap<K, V, S>);

/// An ordered mapping from environment variable names to values.
pub type EnvMap = IndexMap<String, String, RandomState>;

/// The entries of an `EnvMap`, in insertion order.
pub uninterp spec fn env_entries(m: EnvMap) -> Seq<(Seq<char>, Seq<char>)>;

/// The entries after inserting `k => v`: an existing key keeps its position and
/// takes the new value, a new key goes to the end.
pub open spec fn entries_insert(
    e: Seq<(Seq<char>, Seq<char>)>,
    k: Seq<char>,
    v: Seq<char>,
) -> Seq<(Seq<char>, Seq<char>)> {
    if exists|i: int| 0 <= i < e.len() && (#[trigger] e[i]).0 == k {
        let i = choose|i: int| 0 <= i < e.len() && (#[trigger] e[i]).0 == k;
        e.update(i, (k, v))
    } else {
        e.push((k, v))
    }
}

/// Relies on `IndexMap::new`: the map starts empty.
#[verifier::external_body]
pub(crate) fn env_map_new() -> (r: EnvMap)
    ensures
        env_entries(r) == Seq::<(Seq<char>, Seq<char>)>::empty(),
{
    IndexMap::new()
}

/// Relies on `IndexMap::insert`: an equivalent key keeps its place in the order
/// and gets the new value; otherwise the pair is appended.
#[verifier::external_body]
pub(crate) fn env_map_insert(m: &mut EnvMap, k: String, v: String)
    ensures
        env_entries(*final(m)) == entries_insert(env_entries(*old(m)), k@, v@),
{
    m.insert(k, v);
}

/// Whether no two pairs share a key.
pub open spec fn distinct_pair_keys(e: Seq<(Seq<char>, Seq<char>)>) -> bool {
    e.map_values(|q: (Seq<char>, Seq<char>)| q.0).no_duplicates()
}

/// Relies on `IndexMap::iter`: the pairs come out in the map's order, and a map
/// holds each key once.
#[verifier::external_body]
pub(crate) fn env_map_pairs(m: &EnvMap) -> (r: Vec<(String, String)>)
    ensures
        pair_views(r@) == env_entries(*m),
        distinct_pair_keys(pair_views(r@)),
{
    m.iter().map(|(k, v)| (k.clone(), v.clone())).collect()
}

/// The name of a task; ordered and compared as a string.
pub type TaskName = String;

/// The character sequences of a list of strings.
pub open spec fn views(v: Seq<String>) -> Seq<Seq<char>> {
    v.map_values(|s: String| s@)
}

/// The character sequences of a list of string pairs.
pub open spec fn pair_views(v: Seq<(String, String)>) -> Seq<(Seq<char>, Seq<char>)> {
    v.map_values(|p: (String, String)| (p.0@, p.1@))
}

/// The character sequence of an optional string.
pub open spec fn opt_view(o: Option<String>) -> Option<Seq<char>> {
    match o {
        Some(s) => Some(s@),
        None => None,
    }
}

/// The scoping group a task definition belongs to.
#[derive(Clone, Debug)]
pub enum FeatureName {
    Default,
    Named(String),
}

impl FeatureName {
    /// The feature as an optional name: `None` for the default feature.
    pub open spec fn key(&self) -> Option<Seq<char>> {
        match self {
            FeatureName::Default => None,
            FeatureName::Named(n) => Some(n@),
        }
    }
}

/// The command of an executable task.
#[derive(Clone, Debug)]
pub enum CmdArgs {
    Single(String),
    Multiple(Vec<String>),
}

/// A command with its metadata.
#[derive(Clone, Debug)]
pub struct Execute {
    pub cmd: CmdArgs,
    pub depends_on: Vec<TaskName>,
    pub inputs: Option<Vec<String>>,
    pub outputs: Option<Vec<String>>,
    pub cwd: Option<String>,
    pub env: Option<EnvMap>,
    pub clean_env: bool,
}

/// A task with no command of its own, naming the tasks it runs.
#[derive(Clone, Debug)]
pub struct Alias {
    pub depends_on: Vec<TaskName>,
}

/// A task declaration.
#[derive(Clone, Debug)]
pub enum Task {
    Plain(String),
    Execute(Execute),
    Alias(Alias),
}

/// The errors of the task operations.
#[derive(Clone, Debug)]
pub enum TaskError {
    /// An environment pair without `=`; holds the offending text.
    InvalidArgument(String),
    /// No task of that name in the requested scope.
    TaskNotFound(String),
    /// The explicitly named environment does not exist.
    UnknownEnvironment(String),
}

impl TaskError {
    /// The text of the error message.
    pub open spec fn message_view(&self) -> Seq<char> {
        match self {
            TaskError::InvalidArgument(t) => "invalid KEY=value: no `=` found in `"@ + t@ + "`"@,
            TaskError::TaskNotFound(n) => "task `"@ + n@ + "` does not exist"@,
            TaskError::UnknownEnvironment(n) => "unknown environment '"@ + n@ + "'"@,
        }
    }

    /// The error message shown to the user.
    pub fn message(&self) -> (r: String)
        ensures
            r@ == self.message_view(),
    {
        let (head, arg, tail) = match self {
            TaskError::InvalidArgument(t) => ("invalid KEY=value: no `=` found in `", t, "`"),
            TaskError::TaskNotFound(n) => ("task `", n, "` does not exist"),
            TaskError::UnknownEnvironment(n) => ("unknown environment '", n, "'"),
        };
        let mut r = String::from_str(head);
        r.append(arg.as_str());
        r.append(tail);
        r
    }
}

} // verus!
