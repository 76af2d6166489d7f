use vstd::prelude::*;
use vstd::string::*;

use crate::model::{
    distinct_pair_keys, env_entries, env_map_pairs, pair_views, views, CmdArgs, Task,
};

verus! {

/// A value of a task table field.
pub enum FieldValue {
    Str(String),
    StrArray(Vec<String>),
    StrTable(Vec<(String, String)>),
}

/// A task as a configuration value: a bare string or an inline table.
pub enum TaskValue {
    Str(String),
    Table(Vec<(String, FieldValue)>),
}

/// The text of a field value.
pub enum FieldView {
    Str(Seq<char>),
    StrArray(Seq<Seq<char>>),
    StrTable(Seq<(Seq<char>, Seq<char>)>),
}

/// The text of a configuration value.
pub enum ValueView {
    Str(Seq<char>),
    Table(Seq<(Seq<char>, FieldView)>),
}

impl FieldValue {
    pub open spec fn view(&self) -> FieldView {
        match self {
            FieldValue::Str(s) => FieldView::Str(s@),
            FieldValue::StrArray(v) => FieldView::StrArray(views(v@)),
            FieldValue::StrTable(v) => FieldView::StrTable(pair_views(v@)),
        }
    }
}

/// The keys and field texts of a table.
pub open spec fn fields_view(f: Seq<(String, FieldValue)>) -> Seq<(Seq<char>, FieldView)> {
    f.map_values(|p: (String, FieldValue)| (p.0@, p.1.view()))
}

impl TaskValue {
    pub open spec fn view(&self) -> ValueView {
        match self {
            TaskValue::Str(s) => ValueView::Str(s@),
            TaskValue::Table(f) => ValueView::Table(fields_view(f@)),
        }
    }
}

pub open spec fn key_cmd() -> Seq<char> {
    seq!['c', 'm', 'd']
}

pub open spec fn key_depends_on() -> Seq<char> {
    seq!['d', 'e', 'p', 'e', 'n', 'd', 's', '-', 'o', 'n']
}

pub open spec fn key_cwd() -> Seq<char> {
    seq!['c', 'w', 'd']
}

pub open spec fn key_env() -> Seq<char> {
    seq!['e', 'n', 'v']
}

/// The configuration value of a task. A plain task is its command string. An
/// executable task is a table of `cmd`, then `depends-on` unless empty, then
/// `cwd` and `env` when present; its inputs, outputs and clean-environment flag
/// are not written. An alias is a table of `depends-on` alone.
pub open spec fn task_value(t: Task) -> ValueView {
    match t {
        Task::Plain(s) => ValueView::Str(s@),
        Task::Execute(e) => {
            let cmd = match e.cmd {
                CmdArgs::Single(c) => FieldView::Str(c@),
                CmdArgs::Multiple(v) => FieldView::StrArray(views(v@)),
            };
            let deps = views(e.depends_on@);
            let f1 = seq![(key_cmd(), cmd)];
            let f2 = if deps.len() > 0 {
                f1.push((key_depends_on(), FieldView::StrArray(deps)))
            } else {
                f1
            };
            let f3 = match e.cwd {
                Some(c) => f2.push((key_cwd(), FieldView::Str(c@))),
                None => f2,
            };
            let f4 = match e.env {
                Some(m) => f3.push((key_env(), FieldView::StrTable(env_entries(m)))),
                None => f3,
            };
            ValueView::Table(f4)
        },
        Task::Alias(a) => ValueView::Table(
            seq![(key_depends_on(), FieldView::StrArray(views(a.depends_on@)))],
        ),
    }
}

/// The keys of a table, each at most once.
pub open spec fn distinct_keys(f: Seq<(Seq<char>, FieldView)>) -> bool {
    f.map_values(|p: (Seq<char>, FieldView)| p.0).no_duplicates()
}

/// Whether no table of a configuration value repeats a key: neither the task
/// table nor a string table among its fields.
pub open spec fn well_keyed(v: ValueView) -> bool {
    v matches ValueView::Table(f) ==> distinct_keys(f) && forall|i: int|
        0 <= i < f.len() ==> ((#[trigger] f[i]).1 matches FieldView::StrTable(e)
            ==> distinct_pair_keys(e))
}

/// The keys of every task's configuration value are distinct.
pub proof fn lemma_task_value_keys_distinct(t: Task)
    ensures
        task_value(t) matches ValueView::Table(f) ==> distinct_keys(f),
{
    lemma_keys_differ();
    if let ValueView::Table(f) = task_value(t) {
        let ks = f.map_values(|p: (Seq<char>, FieldView)| p.0);
        assert forall|a: int, b: int| 0 <= a < b < ks.len() implies ks[a] != ks[b] by {
            let order = |k: Seq<char>|
                if k == key_cmd() {
                    0int
                } else if k == key_depends_on() {
                    1int
                } else if k == key_cwd() {
                    2int
                } else {
                    3int
                };
            assert(order(ks[a]) < order(ks[b]));
        }
    }
}

/// Converts a task into its configuration value.
pub fn to_value(task: Task) -> (r: TaskValue)
    ensures
        r.view() == task_value(task),
        well_keyed(r.view()),
{
    proof {
        lemma_task_value_keys_distinct(task);
    }
    let ghost t = task;
    match task {
        Task::Plain(s) => TaskValue::Str(s),
        Task::Execute(e) => {
            let mut fields: Vec<(String, FieldValue)> = Vec::new();
            proof {
                reveal_strlit("cmd");
                reveal_strlit("depends-on");
                reveal_strlit("cwd");
                reveal_strlit("env");
                assert("cmd"@ =~= key_cmd());
                assert("depends-on"@ =~= key_depends_on());
                assert("cwd"@ =~= key_cwd());
                assert("env"@ =~= key_env());
            }
            let cmd = match e.cmd {
                CmdArgs::Single(c) => FieldValue::Str(c),
                CmdArgs::Multiple(v) => FieldValue::StrArray(v),
            };
            fields.push((String::from_str("cmd"), cmd));
            let ghost f1 = fields_view(fields@);
            assert(f1 =~= seq![(key_cmd(), cmd.view())]);
            let ghost deps = views(e.depends_on@);
            if e.depends_on.len() > 0 {
                fields.push((String::from_str("depends-on"), FieldValue::StrArray(e.depends_on)));
                assert(fields_view(fields@) =~= f1.push((key_depends_on(), FieldView::StrArray(deps))));
            }
            let ghost f2 = fields_view(fields@);
            match e.cwd {
                Some(c) => {
                    fields.push((String::from_str("cwd"), FieldValue::Str(c)));
                    assert(fields_view(fields@) =~= f2.push((key_cwd(), FieldView::Str(c@))));
                },
                None => {},
            }
            let ghost f3 = fields_view(fields@);
            match e.env {
                Some(m) => {
                    let pairs = env_map_pairs(&m);
                    fields.push((String::from_str("env"), FieldValue::StrTable(pairs)));
                    assert(fields_view(fields@) =~= f3.push((key_env(), FieldView::StrTable(env_entries(m)))));
                },
                None => {},
            }
            proof {
                assert(fields_view(fields@) =~= match task_value(t) {
                    ValueView::Table(f) => f,
                    _ => Seq::empty(),
                });
            }
            TaskValue::Table(fields)
        },
        Task::Alias(a) => {
            let mut fields: Vec<(String, FieldValue)> = Vec::new();
            proof {
                reveal_strlit("depends-on");
                assert("depends-on"@ =~= key_depends_on());
            }
            fields.push((String::from_str("depends-on"), FieldValue::StrArray(a.depends_on)));
            proof {
                assert(fields_view(fields@) =~= seq![
                    (key_depends_on(), FieldView::StrArray(views(a.depends_on@))),
                ]);
            }
            TaskValue::Table(fields)
        },
    }
}

/// Whether a table has a field under `k`.
pub open spec fn has_field(f: Seq<(Seq<char>, FieldView)>, k: Seq<char>) -> bool {
    exists|i: int| 0 <= i < f.len() && (#[trigger] f[i]).0 == k
}

/// The four field keys differ from each other.
pub proof fn lemma_keys_differ()
    ensures
        key_cmd() != key_depends_on() && key_cmd() != key_cwd() && key_cmd() != key_env(),
        key_depends_on() != key_cwd() && key_depends_on() != key_env() && key_cwd() != key_env(),
{
    assert(key_cmd().len() != key_depends_on().len());
    assert(key_cmd()[0] != key_env()[0]);
    assert(key_cmd()[1] != key_cwd()[1]);
    assert(key_depends_on().len() != key_cwd().len());
    assert(key_depends_on().len() != key_env().len());
    assert(key_cwd()[0] != key_env()[0]);
}

/// A plain task serializes to its command string; an executable task's table
/// has `depends-on` exactly when the dependency list is non-empty, and `cwd`
/// and `env` exactly when they are present.
pub proof fn lemma_serialized_fields(t: Task)
    ensures
        t matches Task::Plain(s) ==> task_value(t) == ValueView::Str(s@),
        t matches Task::Execute(e) ==> (task_value(t) matches ValueView::Table(f) && (has_field(
            f,
            key_depends_on(),
        ) <==> e.depends_on@.len() > 0) && (has_field(f, key_cwd()) <==> e.cwd is Some) && (
        has_field(f, key_env()) <==> e.env is Some)),
{
    if let Task::Execute(e) = t {
        let f = match task_value(t) {
            ValueView::Table(f) => f,
            _ => Seq::empty(),
        };
        lemma_keys_differ();
        if e.depends_on@.len() > 0 {
            assert(f[1].0 == key_depends_on());
        }
        if has_field(f, key_depends_on()) {
            let i = choose|i: int| 0 <= i < f.len() && (#[trigger] f[i]).0 == key_depends_on();
            assert(views(e.depends_on@).len() > 0);
        }
        if e.cwd is Some {
            assert(f[f.len() - 1 - if e.env is Some { 1int } else { 0int }].0 == key_cwd());
        }
        if has_field(f, key_cwd()) {
            let i = choose|i: int| 0 <= i < f.len() && (#[trigger] f[i]).0 == key_cwd();
            assert(e.cwd is Some);
        }
        if e.env is Some {
            assert(f[f.len() - 1].0 == key_env());
        }
        if has_field(f, key_env()) {
            let i = choose|i: int| 0 <= i < f.len() && (#[trigger] f[i]).0 == key_env();
            assert(e.env is Some);
        }
    }
}

} // verus!
