use vstd::prelude::*;
use vstd::string::*;

use crate::model::{opt_view, views, FeatureName, Task, TaskError, TaskName};

verus! {

/// The scope of a task definition: name, platform (`None`: all platforms) and
/// feature (`None`: the default feature).
pub type ScopeKey = (Seq<char>, Option<Seq<char>>, Option<Seq<char>>);

/// One task definition of the manifest.
pub struct TaskEntry {
    pub name: TaskName,
    pub platform: Option<String>,
    pub feature: FeatureName,
    pub task: Task,
}

impl TaskEntry {
    pub open spec fn key(&self) -> ScopeKey {
        (self.name@, opt_view(self.platform), self.feature.key())
    }
}

/// The scope key of a name, platform and feature.
pub open spec fn scope_key(name: Seq<char>, platform: Option<String>, feature: FeatureName) -> ScopeKey {
    (name, opt_view(platform), feature.key())
}

/// The keys of a list of entries.
pub open spec fn keys_of(entries: Seq<TaskEntry>) -> Seq<ScopeKey> {
    entries.map_values(|e: TaskEntry| e.key())
}

/// The names, in order, of the entries defined for a platform and feature.
pub open spec fn names_in_scope(
    entries: Seq<TaskEntry>,
    platform: Option<Seq<char>>,
    feature: Option<Seq<char>>,
) -> Seq<Seq<char>>
    decreases entries.len(),
{
    if entries.len() == 0 {
        Seq::empty()
    } else {
        let rest = names_in_scope(entries.drop_last(), platform, feature);
        let e = entries.last();
        if e.key().1 == platform && e.key().2 == feature {
            rest.push(e.key().0)
        } else {
            rest
        }
    }
}

/// The names among `names`, in order, whose scope `(name, platform, feature)`
/// is among `keys` (`present`) or is not (`!present`).
pub open spec fn names_by_presence(
    keys: Seq<ScopeKey>,
    names: Seq<Seq<char>>,
    platform: Option<Seq<char>>,
    feature: Option<Seq<char>>,
    present: bool,
) -> Seq<Seq<char>>
    decreases names.len(),
{
    if names.len() == 0 {
        Seq::empty()
    } else {
        let rest = names_by_presence(keys, names.drop_last(), platform, feature, present);
        let n = names.last();
        if keys.contains((n, platform, feature)) == present {
            rest.push(n)
        } else {
            rest
        }
    }
}

/// How many times `n` occurs in `s`.
pub open spec fn occurrences(s: Seq<Seq<char>>, n: Seq<char>) -> nat
    decreases s.len(),
{
    if s.len() == 0 {
        0
    } else {
        occurrences(s.drop_last(), n) + if s.last() == n {
            1nat
        } else {
            0nat
        }
    }
}

/// A name that is not defined in the scope of a removal is never among the
/// names to remove, and is reported as missing once for each time it was asked
/// for.
pub proof fn lemma_absent_names_reported_not_removed(
    keys: Seq<ScopeKey>,
    names: Seq<Seq<char>>,
    platform: Option<Seq<char>>,
    feature: Option<Seq<char>>,
    n: Seq<char>,
)
    requires
        !keys.contains((n, platform, feature)),
    ensures
        !names_by_presence(keys, names, platform, feature, true).contains(n),
        occurrences(names_by_presence(keys, names, platform, feature, false), n) == occurrences(
            names,
            n,
        ),
    decreases names.len(),
{
    if names.len() > 0 {
        lemma_absent_names_reported_not_removed(keys, names.drop_last(), platform, feature, n);
        let rest = names_by_presence(keys, names.drop_last(), platform, feature, true);
        if keys.contains((names.last(), platform, feature)) {
            assert(names.last() != n);
            assert forall|i: int| 0 <= i < rest.push(names.last()).len() implies rest.push(
                names.last(),
            )[i] != n by {
                if i < rest.len() {
                    assert(rest[i] == rest.push(names.last())[i]);
                }
            }
        }
        let miss = names_by_presence(keys, names.drop_last(), platform, feature, false);
        if !keys.contains((names.last(), platform, feature)) {
            assert(miss.push(names.last()).drop_last() == miss);
        }
    }
}

/// A name is listed for a platform and feature exactly when a definition has
/// that scope.
pub proof fn lemma_names_in_scope_contains(
    entries: Seq<TaskEntry>,
    n: Seq<char>,
    platform: Option<Seq<char>>,
    feature: Option<Seq<char>>,
)
    ensures
        names_in_scope(entries, platform, feature).contains(n) <==> keys_of(entries).contains(
            (n, platform, feature),
        ),
    decreases entries.len(),
{
    if entries.len() > 0 {
        let d = entries.drop_last();
        lemma_names_in_scope_contains(d, n, platform, feature);
        let k = (n, platform, feature);
        let e = entries.last();
        let rest = names_in_scope(d, platform, feature);
        assert(keys_of(entries) =~= keys_of(d).push(e.key()));
        lemma_push_contains(keys_of(d), e.key(), k);
        if e.key().1 == platform && e.key().2 == feature {
            lemma_push_contains(rest, e.key().0, n);
        }
    }
}

proof fn lemma_push_contains<A>(s: Seq<A>, x: A, y: A)
    ensures
        s.push(x).contains(y) <==> (s.contains(y) || x == y),
{
    if s.contains(y) {
        let j = choose|j: int| 0 <= j < s.len() && s[j] == y;
        assert(s.push(x)[j] == y);
    }
    if x == y {
        assert(s.push(x)[s.len() as int] == y);
    }
    if s.push(x).contains(y) && x != y {
        let j = choose|j: int| 0 <= j < s.push(x).len() && s.push(x)[j] == y;
        assert(s[j] == y);
    }
}

/// After a task is added for a scope, it is listed for that platform and
/// feature.
pub proof fn lemma_added_task_listed(before: Seq<TaskEntry>, after: Seq<TaskEntry>, e: TaskEntry)
    requires
        if keys_of(before).contains(e.key()) {
            exists|i: int| 0 <= i < before.len() && before[i].key() == e.key() && after == before.update(i, e)
        } else {
            after == before.push(e)
        },
    ensures
        names_in_scope(after, e.key().1, e.key().2).contains(e.key().0),
{
    lemma_names_in_scope_contains(after, e.key().0, e.key().1, e.key().2);
    if keys_of(before).contains(e.key()) {
        let i = choose|i: int| 0 <= i < before.len() && before[i].key() == e.key() && after == before.update(i, e);
        assert(keys_of(after)[i] == e.key());
    } else {
        assert(keys_of(after)[before.len() as int] == e.key());
    }
}

/// After the task of a scope is removed from a well-formed table, it is no
/// longer listed for that platform and feature.
pub proof fn lemma_removed_task_unlisted(before: Seq<TaskEntry>, after: Seq<TaskEntry>, k: ScopeKey)
    requires
        keys_of(before).no_duplicates(),
        exists|i: int| 0 <= i < before.len() && before[i].key() == k && after == before.remove(i),
    ensures
        !names_in_scope(after, k.1, k.2).contains(k.0),
{
    lemma_names_in_scope_contains(after, k.0, k.1, k.2);
    let i = choose|i: int| 0 <= i < before.len() && before[i].key() == k && after == before.remove(i);
    if keys_of(after).contains(k) {
        let j = choose|j: int| 0 <= j < keys_of(after).len() && keys_of(after)[j] == k;
        if j < i {
            assert(keys_of(before)[j] == k);
            assert(keys_of(before)[i] == k);
        } else {
            assert(keys_of(before)[j + 1] == k);
            assert(keys_of(before)[i] == k);
        }
    }
}

/// A platform and feature that task definitions are scoped to.
pub type Scope = (Option<Seq<char>>, Option<Seq<char>>);

/// The scopes of a list of platform and feature pairs.
pub open spec fn scopes_view(v: Seq<(Option<String>, FeatureName)>) -> Seq<Scope> {
    v.map_values(|p: (Option<String>, FeatureName)| (opt_view(p.0), p.1.key()))
}

/// The names of the tasks defined for any of the scopes.
pub open spec fn scope_names(entries: Seq<TaskEntry>, scopes: Seq<Scope>) -> Set<Seq<char>> {
    Set::new(
        |n: Seq<char>|
            exists|j: int|
                0 <= j < scopes.len() && names_in_scope(
                    entries,
                    (#[trigger] scopes[j]).0,
                    scopes[j].1,
                ).contains(n),
    )
}

/// After a task is added for a scope, every environment that takes in that
/// scope holds the task.
pub proof fn lemma_added_task_in_environment(
    before: Seq<TaskEntry>,
    after: Seq<TaskEntry>,
    e: TaskEntry,
    scopes: Seq<Scope>,
)
    requires
        if keys_of(before).contains(e.key()) {
            exists|i: int| 0 <= i < before.len() && before[i].key() == e.key() && after == before.update(i, e)
        } else {
            after == before.push(e)
        },
        scopes.contains((e.key().1, e.key().2)),
    ensures
        scope_names(after, scopes).contains(e.key().0),
{
    lemma_added_task_listed(before, after, e);
    let j = choose|j: int| 0 <= j < scopes.len() && scopes[j] == (e.key().1, e.key().2);
    assert(names_in_scope(after, scopes[j].0, scopes[j].1).contains(e.key().0));
}

/// After the task of a scope is removed from a well-formed table, an
/// environment that takes in that scope no longer holds the task, provided none
/// of its other scopes defines a task of the same name.
pub proof fn lemma_removed_task_not_in_environment(
    before: Seq<TaskEntry>,
    after: Seq<TaskEntry>,
    k: ScopeKey,
    scopes: Seq<Scope>,
)
    requires
        keys_of(before).no_duplicates(),
        exists|i: int| 0 <= i < before.len() && before[i].key() == k && after == before.remove(i),
        forall|j: int|
            0 <= j < scopes.len() && #[trigger] scopes[j] != (k.1, k.2) ==> !keys_of(before).contains(
                (k.0, scopes[j].0, scopes[j].1),
            ),
    ensures
        !scope_names(after, scopes).contains(k.0),
{
    lemma_removed_task_unlisted(before, after, k);
    let i = choose|i: int| 0 <= i < before.len() && before[i].key() == k && after == before.remove(i);
    if scope_names(after, scopes).contains(k.0) {
        let j = choose|j: int|
            0 <= j < scopes.len() && names_in_scope(after, (#[trigger] scopes[j]).0, scopes[j].1).contains(k.0);
        lemma_names_in_scope_contains(after, k.0, scopes[j].0, scopes[j].1);
        let key = (k.0, scopes[j].0, scopes[j].1);
        let m = choose|m: int| 0 <= m < keys_of(after).len() && keys_of(after)[m] == key;
        if m < i {
            assert(keys_of(before)[m] == key);
        } else {
            assert(keys_of(before)[m + 1] == key);
        }
    }
}

/// What a batch removal does: the names to remove, and the names to report as
/// missing, each in request order.
pub struct RemovalPlan {
    pub remove: Vec<TaskName>,
    pub missing: Vec<TaskName>,
}

/// The task table of a project: each scope key at most once.
pub struct Manifest {
    entries: Vec<TaskEntry>,
}

impl View for Manifest {
    type V = Seq<TaskEntry>;

    closed spec fn view(&self) -> Seq<TaskEntry> {
        self.entries@
    }
}

/// Whether two optional strings hold the same text.
fn same_opt(a: &Option<String>, b: &Option<String>) -> (r: bool)
    ensures
        r == (opt_view(*a) == opt_view(*b)),
{
    match a {
        Some(x) => match b {
            Some(y) => {
                let r = x.eq(y);
                assert(r ==> opt_view(*a) == opt_view(*b));
                r
            },
            None => false,
        },
        None => b.is_none(),
    }
}

/// Whether two features are the same.
fn same_feature(a: &FeatureName, b: &FeatureName) -> (r: bool)
    ensures
        r == (a.key() == b.key()),
{
    match a {
        FeatureName::Named(x) => match b {
            FeatureName::Named(y) => {
                let r = x.eq(y);
                assert(r ==> a.key() == b.key());
                r
            },
            FeatureName::Default => false,
        },
        FeatureName::Default => match b {
            FeatureName::Named(_) => false,
            FeatureName::Default => true,
        },
    }
}

impl Manifest {
    /// Each scope key occurs at most once.
    pub open spec fn wf(&self) -> bool {
        keys_of(self@).no_duplicates()
    }

    /// An empty task table.
    pub fn new() -> (m: Manifest)
        ensures
            m@ == Seq::<TaskEntry>::empty(),
            m.wf(),
    {
        Manifest { entries: Vec::new() }
    }

    /// The definitions, in order.
    pub fn entries(&self) -> (r: &Vec<TaskEntry>)
        ensures
            r@ == self@,
    {
        &self.entries
    }

    /// The position of the entry with the given scope.
    fn find(&self, name: &TaskName, platform: &Option<String>, feature: &FeatureName) -> (r: Option<
        usize,
    >)
        ensures
            match r {
                Some(i) => i < self@.len() && self@[i as int].key() == scope_key(
                    name@,
                    *platform,
                    *feature,
                ),
                None => !keys_of(self@).contains(scope_key(name@, *platform, *feature)),
            },
    {
        let mut i: usize = 0;
        while i < self.entries.len()
            invariant
                0 <= i <= self@.len(),
                self@ == self.entries@,
                forall|j: int| 0 <= j < i ==> (#[trigger] self@[j]).key() != scope_key(
                    name@,
                    *platform,
                    *feature,
                ),
            decreases self@.len() - i,
        {
            let e = &self.entries[i];
            if e.name.eq(name) && same_opt(&e.platform, platform) && same_feature(
                &e.feature,
                feature,
            ) {
                return Some(i);
            }
            i = i + 1;
        }
        proof {
            if keys_of(self@).contains(scope_key(name@, *platform, *feature)) {
                let j = choose|j: int|
                    0 <= j < keys_of(self@).len() && keys_of(self@)[j] == scope_key(
                        name@,
                        *platform,
                        *feature,
                    );
                assert(self@[j].key() == keys_of(self@)[j]);
            }
        }
        None
    }

    /// Whether a task of that name is defined for exactly this platform and feature.
    pub fn has_task(&self, name: &TaskName, platform: &Option<String>, feature: &FeatureName) -> (r:
        bool)
        ensures
            r == keys_of(self@).contains(scope_key(name@, *platform, *feature)),
    {
        match self.find(name, platform, feature) {
            Some(i) => {
                assert(keys_of(self@)[i as int] == scope_key(name@, *platform, *feature));
                true
            },
            None => false,
        }
    }

    /// Defines a task for a scope: an existing definition of the same scope is
    /// replaced in place, a new one is appended.
    pub fn add_task(
        &mut self,
        name: TaskName,
        task: Task,
        platform: Option<String>,
        feature: FeatureName,
    )
        requires
            old(self).wf(),
        ensures
            final(self).wf(),
            ({
                let e = TaskEntry { name, platform, feature, task };
                if keys_of(old(self)@).contains(e.key()) {
                    exists|i: int|
                        0 <= i < old(self)@.len() && old(self)@[i].key() == e.key()
                            && final(self)@ == old(self)@.update(i, e)
                } else {
                    final(self)@ == old(self)@.push(e)
                }
            }),
    {
        let ghost e = TaskEntry { name, platform, feature, task };
        let found = self.find(&name, &platform, &feature);
        match found {
            Some(i) => {
                let ghost pre = self@;
                self.entries.set(i, TaskEntry { name, platform, feature, task });
                proof {
                    assert(keys_of(self@) =~= keys_of(pre).update(i as int, e.key()));
                    assert(keys_of(pre)[i as int] == e.key());
                    assert(keys_of(pre).contains(e.key()));
                }
            },
            None => {
                let ghost pre = self@;
                self.entries.push(TaskEntry { name, platform, feature, task });
                proof {
                    assert(keys_of(self@) =~= keys_of(pre).push(e.key()));
                }
            },
        }
    }

    /// Removes the definition of a scope; `TaskNotFound` when there is none, and
    /// then the table is unchanged.
    pub fn remove_task(&mut self, name: &TaskName, platform: &Option<String>, feature: &FeatureName) -> (r:
        Result<(), TaskError>)
        requires
            old(self).wf(),
        ensures
            final(self).wf(),
            keys_of(old(self)@).contains(scope_key(name@, *platform, *feature)) <==> r is Ok,
            match r {
                Ok(()) => exists|i: int|
                    0 <= i < old(self)@.len() && old(self)@[i].key() == scope_key(
                        name@,
                        *platform,
                        *feature,
                    ) && final(self)@ == old(self)@.remove(i),
                Err(TaskError::TaskNotFound(n)) => n@ == name@ && final(self)@ == old(self)@,
                Err(_) => false,
            },
    {
        match self.find(name, platform, feature) {
            Some(i) => {
                let ghost pre = self@;
                self.entries.remove(i);
                proof {
                    assert(keys_of(pre)[i as int] == scope_key(name@, *platform, *feature));
                    assert(keys_of(self@) =~= keys_of(pre).remove(i as int));
                }
                Ok(())
            },
            None => Err(TaskError::TaskNotFound(name.clone())),
        }
    }

    /// The names of the tasks defined for a platform and feature, in order.
    pub fn task_names(&self, platform: &Option<String>, feature: &FeatureName) -> (r: Vec<TaskName>)
        ensures
            views(r@) == names_in_scope(self@, opt_view(*platform), feature.key()),
    {
        let mut r: Vec<TaskName> = Vec::new();
        let mut i: usize = 0;
        while i < self.entries.len()
            invariant
                0 <= i <= self@.len(),
                self@ == self.entries@,
                views(r@) == names_in_scope(self@.take(i as int), opt_view(*platform), feature.key()),
            decreases self@.len() - i,
        {
            let e = &self.entries[i];
            proof {
                assert(self@.take(i + 1).drop_last() == self@.take(i as int));
            }
            if same_opt(&e.platform, platform) && same_feature(&e.feature, feature) {
                r.push(e.name.clone());
                proof {
                    assert(views(r@) =~= names_in_scope(
                        self@.take(i as int),
                        opt_view(*platform),
                        feature.key(),
                    ).push(e.name@));
                }
            }
            i = i + 1;
        }
        proof {
            assert(self@.take(self@.len() as int) == self@);
        }
        r
    }

    /// Sorts the requested names, before anything is removed, into those
    /// defined for the platform and feature and those that are missing.
    pub fn plan_removal(&self, names: &Vec<TaskName>, platform: &Option<String>, feature: &FeatureName) -> (r:
        RemovalPlan)
        ensures
            views(r.remove@) == names_by_presence(
                keys_of(self@),
                views(names@),
                opt_view(*platform),
                feature.key(),
                true,
            ),
            views(r.missing@) == names_by_presence(
                keys_of(self@),
                views(names@),
                opt_view(*platform),
                feature.key(),
                false,
            ),
    {
        let mut remove: Vec<TaskName> = Vec::new();
        let mut missing: Vec<TaskName> = Vec::new();
        let ghost keys = keys_of(self@);
        let ghost p = opt_view(*platform);
        let ghost f = feature.key();
        let mut i: usize = 0;
        while i < names.len()
            invariant
                0 <= i <= names@.len(),
                keys == keys_of(self@),
                p == opt_view(*platform),
                f == feature.key(),
                views(remove@) == names_by_presence(keys, views(names@.take(i as int)), p, f, true),
                views(missing@) == names_by_presence(
                    keys,
                    views(names@.take(i as int)),
                    p,
                    f,
                    false,
                ),
            decreases names@.len() - i,
        {
            let n = &names[i];
            proof {
                assert(views(names@.take(i + 1)).drop_last() == views(names@.take(i as int)));
                assert(views(names@.take(i + 1)).last() == n@);
            }
            if self.has_task(n, platform, feature) {
                remove.push(n.clone());
                proof {
                    assert(views(remove@) =~= names_by_presence(
                        keys,
                        views(names@.take(i as int)),
                        p,
                        f,
                        true,
                    ).push(n@));
                }
            } else {
                missing.push(n.clone());
                proof {
                    assert(views(missing@) =~= names_by_presence(
                        keys,
                        views(names@.take(i as int)),
                        p,
                        f,
                        false,
                    ).push(n@));
                }
            }
            i = i + 1;
        }
        proof {
            assert(names@.take(names@.len() as int) == names@);
        }
        RemovalPlan { remove, missing }
    }

    /// The names of the tasks defined for any of the given platform and feature
    /// pairs: the tasks of an environment made of those scopes. A name may
    /// occur more than once.
    pub fn environment_tasks(&self, scopes: &Vec<(Option<String>, FeatureName)>) -> (r: Vec<
        TaskName,
    >)
        ensures
            views(r@).to_set() == scope_names(self@, scopes_view(scopes@)),
    {
        let mut r: Vec<TaskName> = Vec::new();
        let mut i: usize = 0;
        while i < scopes.len()
            invariant
                0 <= i <= scopes@.len(),
                views(r@).to_set() == scope_names(self@, scopes_view(scopes@.take(i as int))),
            decreases scopes@.len() - i,
        {
            let mut names = self.task_names(&scopes[i].0, &scopes[i].1);
            let ghost pre = views(r@);
            let ghost add = views(names@);
            r.append(&mut names);
            proof {
                let sv = scopes_view(scopes@.take(i + 1));
                let sp = scopes_view(scopes@.take(i as int));
                assert(views(r@) =~= pre + add);
                assert(sv[i as int] == (opt_view(scopes@[i as int].0), scopes@[i as int].1.key()));
                assert forall|n: Seq<char>|
                    views(r@).to_set().contains(n) == scope_names(self@, sv).contains(n) by {
                    if views(r@).contains(n) {
                        let m = choose|m: int| 0 <= m < views(r@).len() && views(r@)[m] == n;
                        if m < pre.len() {
                            assert(pre[m] == n);
                            assert(pre.contains(n));
                            assert(pre.to_set().contains(n));
                            let j = choose|j: int|
                                0 <= j < sp.len() && names_in_scope(
                                    self@,
                                    (#[trigger] sp[j]).0,
                                    sp[j].1,
                                ).contains(n);
                            assert(sv[j] == sp[j]);
                        } else {
                            assert(add[m - pre.len()] == n);
                            assert(names_in_scope(self@, sv[i as int].0, sv[i as int].1).contains(n));
                        }
                    }
                    if scope_names(self@, sv).contains(n) {
                        let j = choose|j: int|
                            0 <= j < sv.len() && names_in_scope(
                                self@,
                                (#[trigger] sv[j]).0,
                                sv[j].1,
                            ).contains(n);
                        if j < i {
                            assert(sv[j] == sp[j]);
                            assert(scope_names(self@, sp).contains(n));
                            assert(pre.to_set().contains(n));
                            let m = choose|m: int| 0 <= m < pre.len() && pre[m] == n;
                            assert(views(r@)[m] == n);
                        } else {
                            assert(add.contains(n));
                            let m = choose|m: int| 0 <= m < add.len() && add[m] == n;
                            assert(views(r@)[pre.len() + m] == n);
                        }
                    }
                }
                assert(views(r@).to_set() =~= scope_names(self@, sv));
            }
            i = i + 1;
        }
        proof {
            assert(scopes@.take(scopes@.len() as int) == scopes@);
        }
        r
    }
}

} // verus!
