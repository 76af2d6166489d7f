use vstd::prelude::*;

use crate::model::{
    env_entries, entries_insert, env_map_insert, env_map_new, opt_view, pair_views, views, Alias,
    CmdArgs, Execute, Task, TaskName,
};
use crate::text::{blank, is_blank, join_strings, quote, quoted, joined};

verus! {

/// Arguments of adding a task.
pub struct AddArgs {
    pub name: TaskName,
    pub commands: Vec<String>,
    pub depends_on: Option<Vec<TaskName>>,
    pub platform: Option<String>,
    pub feature: Option<String>,
    pub cwd: Option<String>,
    pub env: Vec<(String, String)>,
    pub clean_env: bool,
}

/// Arguments of removing tasks.
pub struct RemoveArgs {
    pub names: Vec<TaskName>,
    pub platform: Option<String>,
    pub feature: Option<String>,
}

/// Arguments of adding an alias.
pub struct AliasArgs {
    pub alias: TaskName,
    pub depends_on: Vec<TaskName>,
    pub platform: Option<String>,
}

/// Arguments of listing tasks.
pub struct ListArgs {
    pub summary: bool,
    pub machine_readable: bool,
    pub environment: Option<String>,
}

/// One task operation.
pub enum Operation {
    Add(AddArgs),
    Remove(RemoveArgs),
    Alias(AliasArgs),
    List(ListArgs),
}

/// A task operation on the manifest at an optional path.
pub struct Args {
    pub operation: Operation,
    pub manifest_path: Option<String>,
}

/// The command line that a list of command tokens stands for: a single token
/// as it is, several quoted one by one and joined by spaces.
pub open spec fn command_line(cmds: Seq<Seq<char>>) -> Seq<char> {
    if cmds.len() == 1 {
        cmds[0]
    } else {
        joined(cmds.map_values(|c: Seq<char>| quoted(c)), seq![' '])
    }
}

/// The entries of a map filled with `pairs` in order.
pub open spec fn entries_of(pairs: Seq<(Seq<char>, Seq<char>)>) -> Seq<(Seq<char>, Seq<char>)>
    decreases pairs.len(),
{
    if pairs.len() == 0 {
        Seq::empty()
    } else {
        entries_insert(entries_of(pairs.drop_last()), pairs.last().0, pairs.last().1)
    }
}

/// The dependency names of an optional list, empty when absent.
pub open spec fn deps_view(d: Option<Vec<TaskName>>) -> Seq<Seq<char>> {
    match d {
        Some(v) => views(v@),
        None => Seq::empty(),
    }
}

/// Which task the add arguments `a` describe.
pub open spec fn describes_task(a: AddArgs, t: Task) -> bool {
    let cmd = command_line(views(a.commands@));
    let deps = deps_view(a.depends_on);
    if is_blank(cmd) && deps.len() > 0 {
        t matches Task::Alias(al) && views(al.depends_on@) == deps
    } else if deps.len() == 0 && a.cwd is None && a.env@.len() == 0 {
        t matches Task::Plain(s) && s@ == cmd
    } else {
        match t {
            Task::Execute(e) => {
                &&& e.cmd matches CmdArgs::Single(c) && c@ == cmd
                &&& views(e.depends_on@) == deps
                &&& e.inputs is None
                &&& e.outputs is None
                &&& opt_view(e.cwd) == opt_view(a.cwd)
                &&& if a.env@.len() == 0 {
                    e.env is None
                } else {
                    e.env matches Some(m) && env_entries(m) == entries_of(pair_views(a.env@))
                }
                &&& e.clean_env == a.clean_env
            },
            _ => false,
        }
    }
}

/// Joins the command tokens into one command line.
fn join_commands(commands: &Vec<String>) -> (r: String)
    ensures
        r@ == command_line(views(commands@)),
{
    if commands.len() == 1 {
        return commands[0].clone();
    }
    let mut quoted_tokens: Vec<String> = Vec::new();
    let mut i: usize = 0;
    while i < commands.len()
        invariant
            0 <= i <= commands@.len(),
            quoted_tokens@.len() == i,
            forall|j: int| 0 <= j < i ==> (#[trigger] quoted_tokens@[j])@ == quoted(commands@[j]@),
        decreases commands@.len() - i,
    {
        let q = quote(commands[i].as_str());
        quoted_tokens.push(q);
        i = i + 1;
    }
    proof {
        reveal_strlit(" ");
        assert(" "@ =~= seq![' ']);
        assert(views(quoted_tokens@) =~= views(commands@).map_values(|c: Seq<char>| quoted(c)));
    }
    join_strings(&quoted_tokens, " ")
}

/// Fills an environment map with the pairs in order.
fn env_map_of(pairs: &Vec<(String, String)>) -> (r: crate::model::EnvMap)
    ensures
        env_entries(r) == entries_of(pair_views(pairs@)),
{
    let mut m = env_map_new();
    let mut i: usize = 0;
    while i < pairs.len()
        invariant
            0 <= i <= pairs@.len(),
            env_entries(m) == entries_of(pair_views(pairs@.take(i as int))),
        decreases pairs@.len() - i,
    {
        let k = pairs[i].0.clone();
        let v = pairs[i].1.clone();
        env_map_insert(&mut m, k, v);
        proof {
            assert(pair_views(pairs@.take(i + 1)).drop_last() == pair_views(pairs@.take(i as int)));
        }
        i = i + 1;
    }
    proof {
        assert(pairs@.take(pairs@.len() as int) == pairs@);
    }
    m
}

impl Task {
    /// The task that add arguments describe: an alias when the command is blank
    /// and there are dependencies, a plain command when there are no
    /// dependencies, working directory or environment, else an executable task.
    pub fn from_add_args(args: AddArgs) -> (t: Task)
        ensures
            describes_task(args, t),
    {
        let ghost a = args;
        let cmd = join_commands(&args.commands);
        let depends_on = match args.depends_on {
            Some(d) => d,
            None => Vec::new(),
        };
        assert(views(depends_on@) == deps_view(a.depends_on));
        if blank(cmd.as_str()) && depends_on.len() > 0 {
            Task::Alias(Alias { depends_on })
        } else if depends_on.len() == 0 && args.cwd.is_none() && args.env.len() == 0 {
            Task::Plain(cmd)
        } else {
            let env = if args.env.len() == 0 {
                None
            } else {
                Some(env_map_of(&args.env))
            };
            Task::Execute(
                Execute {
                    cmd: CmdArgs::Single(cmd),
                    depends_on,
                    inputs: None,
                    outputs: None,
                    cwd: args.cwd,
                    env,
                    clean_env: args.clean_env,
                },
            )
        }
    }

    /// The alias that alias arguments describe.
    pub fn from_alias_args(args: AliasArgs) -> (t: Task)
        ensures
            t matches Task::Alias(al) && al.depends_on@ == args.depends_on@,
    {
        Task::Alias(Alias { depends_on: args.depends_on })
    }
}

/// A single command with no dependencies, working directory or environment
/// becomes a plain task holding that command.
pub proof fn lemma_single_command_is_plain(a: AddArgs, t: Task)
    requires
        a.commands@.len() == 1,
        deps_view(a.depends_on).len() == 0,
        a.cwd is None,
        a.env@.len() == 0,
        describes_task(a, t),
    ensures
        t matches Task::Plain(s) && s@ == a.commands@[0]@,
{
}

/// A blank command with dependencies becomes an alias of those dependencies.
pub proof fn lemma_blank_command_is_alias(a: AddArgs, t: Task)
    requires
        is_blank(command_line(views(a.commands@))),
        deps_view(a.depends_on).len() > 0,
        describes_task(a, t),
    ensures
        t matches Task::Alias(al) && views(al.depends_on@) == deps_view(a.depends_on),
{
}

/// A command that is not blank, together with a working directory, an
/// environment or dependencies, becomes an executable task.
pub proof fn lemma_command_with_metadata_is_execute(a: AddArgs, t: Task)
    requires
        !is_blank(command_line(views(a.commands@))),
        a.cwd is Some || a.env@.len() > 0 || deps_view(a.depends_on).len() > 0,
        describes_task(a, t),
    ensures
        t is Execute,
{
}

} // verus!
