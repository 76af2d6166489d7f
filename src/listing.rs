use itertools::Itertools;
use vstd::prelude::*;

use crate::args::ListArgs;
use crate::model::{views, TaskError, TaskName};
use crate::text::{join_strings, joined};

verus! {

/// An environment with the task names valid for it, and whether it can be used
/// on the current machine.
pub struct EnvironmentTasks {
    pub name: String,
    pub tasks: Vec<TaskName>,
    pub compatible: bool,
}

/// String order: lexicographic by character code, which is the order of the
/// UTF-8 bytes.
pub open spec fn text_le(a: Seq<char>, b: Seq<char>) -> bool
    decreases a.len(),
{
    if a.len() == 0 {
        true
    } else if b.len() == 0 {
        false
    } else if a[0] != b[0] {
        (a[0] as u32) < (b[0] as u32)
    } else {
        text_le(a.drop_first(), b.drop_first())
    }
}

/// Whether the names are in ascending string order.
pub open spec fn is_sorted(s: Seq<Seq<char>>) -> bool {
    forall|i: int, j: int| 0 <= i < j < s.len() ==> text_le(#[trigger] s[i], #[trigger] s[j])
}

/// Relies on `Itertools::sorted`: the same names, in ascending order of `String`'s
/// `Ord` (lexicographic over the UTF-8 bytes).
#[verifier::external_body]
fn sorted_names(v: &Vec<TaskName>) -> (r: Vec<TaskName>)
    ensures
        views(r@).to_multiset() == views(v@).to_multiset(),
        is_sorted(views(r@)),
{
    v.iter().cloned().sorted().collect()
}

/// The index of the first environment of that name.
pub open spec fn first_env(envs: Seq<EnvironmentTasks>, n: Seq<char>) -> Option<int> {
    if exists|i: int| 0 <= i < envs.len() && (#[trigger] envs[i]).name@ == n {
        Some(
            choose|i: int|
                0 <= i < envs.len() && (#[trigger] envs[i]).name@ == n && forall|j: int|
                    0 <= j < i ==> envs[j].name@ != n,
        )
    } else {
        None
    }
}

/// The task names of the environments usable on this machine.
pub open spec fn compatible_tasks(envs: Seq<EnvironmentTasks>) -> Set<Seq<char>> {
    Set::new(
        |t: Seq<char>|
            exists|i: int|
                0 <= i < envs.len() && envs[i].compatible && views(
                    (#[trigger] envs[i]).tasks@,
                ).contains(t),
    )
}

/// Whether `v` holds a name with the text of `n`.
fn contains_name(v: &Vec<TaskName>, n: &TaskName) -> (r: bool)
    ensures
        r == views(v@).contains(n@),
{
    let mut i: usize = 0;
    while i < v.len()
        invariant
            0 <= i <= v@.len(),
            forall|j: int| 0 <= j < i ==> v@[j]@ != n@,
        decreases v@.len() - i,
    {
        if v[i].eq(n) {
            assert(views(v@)[i as int] == n@);
            return true;
        }
        i = i + 1;
    }
    proof {
        if views(v@).contains(n@) {
            let j = choose|j: int| 0 <= j < views(v@).len() && views(v@)[j] == n@;
            assert(v@[j]@ == n@);
        }
    }
    false
}

/// Adds the names of `src` that `acc` lacks to `acc`.
fn add_missing(acc: &mut Vec<TaskName>, src: &Vec<TaskName>)
    requires
        views(old(acc)@).no_duplicates(),
    ensures
        views(final(acc)@).no_duplicates(),
        views(final(acc)@).to_set() == views(old(acc)@).to_set() + views(src@).to_set(),
{
    let ghost start = views(acc@).to_set();
    let mut i: usize = 0;
    while i < src.len()
        invariant
            0 <= i <= src@.len(),
            views(acc@).no_duplicates(),
            views(acc@).to_set() == start + views(src@.take(i as int)).to_set(),
        decreases src@.len() - i,
    {
        let n = &src[i];
        let ghost before = views(acc@);
        if !contains_name(acc, n) {
            acc.push(n.clone());
            proof {
                assert(views(acc@) =~= before.push(n@));
                before.lemma_push_to_set_commute(n@);
                assert forall|a: int, b: int|
                    0 <= a < b < views(acc@).len() implies views(acc@)[a] != views(acc@)[b] by {
                    if b == before.len() {
                        assert(before.contains(before[a]));
                    }
                }
            }
        }
        proof {
            assert(views(src@.take(i + 1)) =~= views(src@.take(i as int)).push(n@));
            views(src@.take(i as int)).lemma_push_to_set_commute(n@);
            assert(views(acc@).to_set() =~= start + views(src@.take(i + 1)).to_set());
        }
        i = i + 1;
    }
    proof {
        assert(src@.take(src@.len() as int) == src@);
    }
}

/// The task names to list, without repeats: those of the named environment, or,
/// with no name given, those of every environment usable on this machine.
/// `UnknownEnvironment` when the named environment does not exist.
pub fn available_tasks(envs: &Vec<EnvironmentTasks>, environment: &Option<String>) -> (r: Result<
    Vec<TaskName>,
    TaskError,
>)
    ensures
        match environment {
            Some(n) => match first_env(envs@, n@) {
                Some(i) => r matches Ok(v) && views(v@).no_duplicates() && views(v@).to_set()
                    == views(envs@[i].tasks@).to_set(),
                None => r matches Err(TaskError::UnknownEnvironment(m)) && m@ == n@,
            },
            None => r matches Ok(v) && views(v@).no_duplicates() && views(v@).to_set()
                == compatible_tasks(envs@),
        },
{
    let mut acc: Vec<TaskName> = Vec::new();
    proof {
        assert(views(acc@).to_set() =~= Set::empty());
    }
    match environment {
        Some(n) => {
            let mut i: usize = 0;
            while i < envs.len()
                invariant
                    0 <= i <= envs@.len(),
                    acc@.len() == 0,
                    *environment == Some(*n),
                    forall|j: int| 0 <= j < i ==> envs@[j].name@ != n@,
                decreases envs@.len() - i,
            {
                if envs[i].name.eq(n) {
                    proof {
                        assert(views(acc@).to_set() =~= Set::empty());
                    }
                    add_missing(&mut acc, &envs[i].tasks);
                    proof {
                        assert(envs@[i as int].name@ == n@);
                        assert(0 <= i < envs@.len() && envs@[i as int].name@ == n@ && forall|j: int|
                            0 <= j < i ==> envs@[j].name@ != n@);
                        let k = first_env(envs@, n@);
                        assert(k == Some(i as int)) by {
                            let c = k.unwrap();
                            assert(!(c < i));
                            assert(!(i < c));
                        }
                        assert(views(acc@).to_set() =~= views(envs@[i as int].tasks@).to_set());
                        assert(first_env(envs@, n@) == Some(i as int));
                    }
                    return Ok(acc);
                }
                i = i + 1;
            }
            Err(TaskError::UnknownEnvironment(n.clone()))
        },
        None => {
            let mut i: usize = 0;
            while i < envs.len()
                invariant
                    0 <= i <= envs@.len(),
                    views(acc@).no_duplicates(),
                    views(acc@).to_set() == compatible_tasks(envs@.take(i as int)),
                decreases envs@.len() - i,
            {
                let ghost pre = views(acc@).to_set();
                if envs[i].compatible {
                    add_missing(&mut acc, &envs[i].tasks);
                }
                proof {
                    let e = envs@.take(i + 1);
                    let d = envs@.take(i as int);
                    assert forall|t: Seq<char>| compatible_tasks(e).contains(t) == views(
                        acc@,
                    ).to_set().contains(t) by {
                        if compatible_tasks(e).contains(t) {
                            let j = choose|j: int|
                                0 <= j < e.len() && e[j].compatible && views(
                                    (#[trigger] e[j]).tasks@,
                                ).contains(t);
                            if j < i {
                                assert(d[j] == e[j]);
                                assert(compatible_tasks(d).contains(t));
                            } else {
                                assert(views(envs@[i as int].tasks@).to_set().contains(t));
                            }
                        }
                        if views(acc@).to_set().contains(t) {
                            if pre.contains(t) {
                                let j = choose|j: int|
                                    0 <= j < d.len() && d[j].compatible && views(
                                        (#[trigger] d[j]).tasks@,
                                    ).contains(t);
                                assert(d[j] == e[j]);
                            } else {
                                assert(views(envs@[i as int].tasks@).contains(t));
                                assert(e[i as int] == envs@[i as int]);
                            }
                        }
                    }
                    assert(compatible_tasks(e) =~= views(acc@).to_set());
                }
                i = i + 1;
            }
            proof {
                assert(envs@.take(envs@.len() as int) == envs@);
            }
            Ok(acc)
        },
    }
}

/// What a listing shows.
pub enum ListOutput {
    /// There is nothing to list.
    NoTasks,
    /// The tasks of each environment are shown in turn.
    Summary,
    /// The names, sorted and separated by single spaces.
    MachineReadable(String),
    /// The names, sorted, for display.
    Plain(Vec<TaskName>),
}

/// The names sorted and joined by single spaces.
pub fn machine_readable(names: &Vec<TaskName>) -> (r: String)
    ensures
        exists|s: Seq<Seq<char>>|
            s.to_multiset() == views(names@).to_multiset() && is_sorted(s) && r@ == joined(
                s,
                seq![' '],
            ),
{
    let sorted = sorted_names(names);
    proof {
        reveal_strlit(" ");
        assert(" "@ =~= seq![' ']);
    }
    join_strings(&sorted, " ")
}

/// A list with the same items as a list without repeats has no repeats and
/// the same set of items.
proof fn lemma_permutation_keeps_unique(a: Seq<Seq<char>>, b: Seq<Seq<char>>)
    requires
        a.to_multiset() == b.to_multiset(),
        a.no_duplicates(),
    ensures
        b.no_duplicates(),
        a.to_set() == b.to_set(),
{
    broadcast use vstd::seq_lib::group_to_multiset_ensures;

    a.lemma_multiset_has_no_duplicates();
    b.lemma_multiset_has_no_duplicates_conv();
    assert forall|x: Seq<char>| a.to_set().contains(x) == b.to_set().contains(x) by {
        assert(a.contains(x) <==> a.to_multiset().count(x) > 0);
        assert(b.contains(x) <==> b.to_multiset().count(x) > 0);
    }
    assert(a.to_set() =~= b.to_set());
}

/// The names of an environment's tasks, each once, in ascending order.
pub fn sorted_env_tasks(env: &EnvironmentTasks) -> (r: Vec<TaskName>)
    ensures
        views(r@).no_duplicates(),
        views(r@).to_set() == views(env.tasks@).to_set(),
        is_sorted(views(r@)),
{
    let mut unique: Vec<TaskName> = Vec::new();
    proof {
        assert(views(unique@).to_set() =~= Set::empty());
    }
    add_missing(&mut unique, &env.tasks);
    let r = sorted_names(&unique);
    proof {
        lemma_permutation_keeps_unique(views(unique@), views(r@));
        assert(views(unique@).to_set() =~= views(env.tasks@).to_set());
    }
    r
}

/// What a listing of `available` shows under the given flags: nothing found,
/// then the per-environment summary, then the machine-readable line, then the
/// sorted names.
pub fn list_output(args: &ListArgs, available: &Vec<TaskName>) -> (r: ListOutput)
    ensures
        available@.len() == 0 ==> r is NoTasks,
        available@.len() > 0 && args.summary ==> r is Summary,
        available@.len() > 0 && !args.summary && args.machine_readable ==> (r matches ListOutput::MachineReadable(s)
            && exists|t: Seq<Seq<char>>|
            t.to_multiset() == views(available@).to_multiset() && is_sorted(t) && s@ == joined(
                t,
                seq![' '],
            )),
        available@.len() > 0 && !args.summary && !args.machine_readable ==> (r matches ListOutput::Plain(v)
            && views(v@).to_multiset() == views(available@).to_multiset() && is_sorted(views(v@))),
{
    if available.len() == 0 {
        ListOutput::NoTasks
    } else if args.summary {
        ListOutput::Summary
    } else if args.machine_readable {
        ListOutput::MachineReadable(machine_readable(available))
    } else {
        ListOutput::Plain(sorted_names(available))
    }
}

} // verus!
