use vstd::prelude::*;
use crate::ast::{lemma_views_concat, lemma_views_push, terms_view, views, Term, TermV, Variable};
use crate::command::{invocation_of, parse_make_line};
use crate::error::{no_parent_message, Error};
use crate::text::{decimal, decimal_string};
use crate::vars::{resolve_text, substituted, var_ref_gaps_of, var_ref_names_of, var_value};

verus! {

/// The identifier that a generator with this prefix hands out for `n`.
pub open spec fn task_id(prefix: Seq<char>, n: nat) -> Seq<char> {
    prefix + decimal(n)
}

/// Hands out `prefix0`, `prefix1`, ... in turn.
pub struct IDGen {
    pub prefix: String,
    pub count: usize,
}

impl IDGen {
    pub fn new(prefix: &str) -> (r: IDGen)
        ensures
            r.prefix@ == prefix@,
            r.count == 0,
    {
        IDGen { prefix: prefix.to_owned(), count: 0 }
    }

    pub fn next(&mut self) -> (r: String)
        requires
            old(self).count < usize::MAX,
        ensures
            r@ == task_id(old(self).prefix@, old(self).count as nat),
            final(self).prefix@ == old(self).prefix@,
            final(self).count == old(self).count + 1,
    {
        let mut id = self.prefix.clone();
        let n = decimal_string(self.count);
        id.append(n.as_str());
        self.count = self.count + 1;
        id
    }
}

/// A task of one file, after its rules are merged.
#[derive(Debug, Clone)]
pub struct Task {
    pub phony: bool,
    pub name: String,
    pub dependencies: Vec<String>,
    pub commands: Vec<String>,
}

/// The mathematical value of a task.
pub struct TaskV {
    pub phony: bool,
    pub name: Seq<char>,
    pub dependencies: Seq<Seq<char>>,
    pub commands: Seq<Seq<char>>,
}

impl View for Task {
    type V = TaskV;

    open spec fn view(&self) -> TaskV {
        TaskV {
            phony: self.phony,
            name: self.name@,
            dependencies: views(self.dependencies@),
            commands: views(self.commands@),
        }
    }
}

/// A text whose `${NAME}` references are not yet resolved.
#[derive(Debug, Clone, PartialEq, Eq, Hash)]
pub struct VarStr(pub String);

/// A task's invocation of tasks of another file.
#[derive(Debug, Clone, PartialEq, Eq, Hash)]
pub struct External<T> {
    pub path: T,
    pub id: String,
    pub tasks: Vec<String>,
}

impl<T> External<T> {
    pub fn map_path<U, F: FnOnce(T) -> U>(self, f: F) -> (r: External<U>)
        requires
            f.requires((self.path,)),
        ensures
            f.ensures((self.path,), r.path),
            r.id == self.id,
            r.tasks == self.tasks,
    {
        External { path: f(self.path), id: self.id, tasks: self.tasks }
    }
}

/// One parsed file: its path, its variables, and its tasks by identifier.
#[derive(Debug)]
pub struct Makefile {
    pub file: String,
    pub variables: Vec<Variable>,
    pub tasks: Vec<(String, Task)>,
}

pub open spec fn phony_target() -> Seq<char> {
    seq!['.', 'P', 'H', 'O', 'N', 'Y']
}

/// The names that `.PHONY` rules list, in order.
pub open spec fn phony_names(ts: Seq<TermV>) -> Seq<Seq<char>>
    decreases ts.len(),
{
    if ts.len() == 0 {
        seq![]
    } else {
        let prev = phony_names(ts.drop_last());
        match ts.last() {
            TermV::Task { name, dependencies, commands } => if name == phony_target() {
                prev + dependencies
            } else {
                prev
            },
            _ => prev,
        }
    }
}

/// The index of the task with this name, or -1.
pub open spec fn task_index(tasks: Seq<TaskV>, name: Seq<char>) -> int
    decreases tasks.len(),
{
    if tasks.len() == 0 {
        -1
    } else if tasks.last().name == name {
        tasks.len() - 1
    } else {
        task_index(tasks.drop_last(), name)
    }
}

/// A rule added to the tasks: a new name makes a new task; a known one gets
/// the new dependencies after its own, and the new commands if there are
/// any.
pub open spec fn merge_rule(
    tasks: Seq<TaskV>,
    name: Seq<char>,
    deps: Seq<Seq<char>>,
    cmds: Seq<Seq<char>>,
) -> Seq<TaskV> {
    let i = task_index(tasks, name);
    if i >= 0 {
        tasks.update(
            i,
            TaskV {
                phony: tasks[i].phony,
                name,
                dependencies: tasks[i].dependencies + deps,
                commands: if cmds.len() > 0 {
                    cmds
                } else {
                    tasks[i].commands
                },
            },
        )
    } else {
        tasks.push(TaskV { phony: false, name, dependencies: deps, commands: cmds })
    }
}

/// The rules of a file merged by name, in order of first appearance;
/// `.PHONY` is not among them.
pub open spec fn merged_rules(ts: Seq<TermV>) -> Seq<TaskV>
    decreases ts.len(),
{
    if ts.len() == 0 {
        seq![]
    } else {
        let prev = merged_rules(ts.drop_last());
        match ts.last() {
            TermV::Task { name, dependencies, commands } => if name == phony_target() {
                prev
            } else {
                merge_rule(prev, name, dependencies, commands)
            },
            _ => prev,
        }
    }
}

/// A merged task with its phony flag: whether any `.PHONY` rule lists it.
pub open spec fn with_phony(t: TaskV, phonies: Seq<Seq<char>>) -> TaskV {
    TaskV {
        phony: phonies.contains(t.name),
        name: t.name,
        dependencies: t.dependencies,
        commands: t.commands,
    }
}

/// The tasks that a file's terms describe.
pub open spec fn assembled_tasks(ts: Seq<TermV>) -> Seq<TaskV> {
    merged_rules(ts).map_values(|t: TaskV| with_phony(t, phony_names(ts)))
}

/// The value that the last assignment of a name gives it.
pub open spec fn defined_value(ts: Seq<TermV>, n: Seq<char>) -> Option<Seq<char>>
    decreases ts.len(),
{
    if ts.len() == 0 {
        None
    } else {
        match ts.last() {
            TermV::Variable { name, op, value } => if name == n {
                Some(value)
            } else {
                defined_value(ts.drop_last(), n)
            },
            _ => defined_value(ts.drop_last(), n),
        }
    }
}

pub open spec fn names_unique(vars: Seq<Variable>) -> bool {
    forall|i: int, j: int| 0 <= i < j < vars.len() ==> vars[i].name@ != vars[j].name@
}

pub open spec fn task_names_unique(tasks: Seq<TaskV>) -> bool {
    forall|i: int, j: int| 0 <= i < j < tasks.len() ==> tasks[i].name != tasks[j].name
}

proof fn lemma_task_index(tasks: Seq<TaskV>, name: Seq<char>)
    ensures
        -1 <= task_index(tasks, name) < tasks.len(),
        task_index(tasks, name) >= 0 ==> tasks[task_index(tasks, name)].name == name,
        task_index(tasks, name) < 0 ==> forall|k: int| 0 <= k < tasks.len() ==> tasks[k].name != name,
    decreases tasks.len(),
{
    if tasks.len() > 0 {
        lemma_task_index(tasks.drop_last(), name);
        assert forall|k: int|
            0 <= k < tasks.len() && task_index(tasks, name) < 0 implies tasks[k].name != name by {
            if k < tasks.len() - 1 {
                assert(tasks.drop_last()[k] == tasks[k]);
            }
        }
    }
}

proof fn lemma_var_value_update(vs: Seq<Variable>, i: int, x: Variable, n: Seq<char>)
    requires
        names_unique(vs),
        0 <= i < vs.len(),
        vs[i].name@ == x.name@,
    ensures
        var_value(vs.update(i, x), n) == if n == x.name@ {
            Some(x.value@)
        } else {
            var_value(vs, n)
        },
    decreases vs.len(),
{
    let u = vs.update(i, x);
    if i == vs.len() - 1 {
        assert(u.drop_last() =~= vs.drop_last());
    } else {
        assert(u.drop_last() =~= vs.drop_last().update(i, x));
        lemma_var_value_update(vs.drop_last(), i, x, n);
        if n == x.name@ {
            assert(vs.last().name@ != vs[i].name@);
        }
    }
}

proof fn lemma_var_value_absent(vs: Seq<Variable>, n: Seq<char>)
    requires
        forall|k: int| 0 <= k < vs.len() ==> vs[k].name@ != n,
    ensures
        var_value(vs, n) is None,
    decreases vs.len(),
{
    if vs.len() > 0 {
        lemma_var_value_absent(vs.drop_last(), n);
    }
}

pub(crate) fn clone_strings(v: &Vec<String>) -> (r: Vec<String>)
    ensures
        views(r@) == views(v@),
{
    let mut r: Vec<String> = Vec::new();
    let mut i: usize = 0;
    while i < v.len()
        invariant
            i <= v.len(),
            views(r@) == views(v@.subrange(0, i as int)),
        decreases v.len() - i,
    {
        let s = v[i].clone();
        proof {
            lemma_views_push(r@, s);
            assert(v@.subrange(0, i + 1) =~= v@.subrange(0, i as int).push(s));
            lemma_views_push(v@.subrange(0, i as int), s);
        }
        r.push(s);
        i = i + 1;
    }
    assert(v@.subrange(0, v.len() as int) =~= v@);
    r
}

pub(crate) fn contains_string(v: &Vec<String>, s: &String) -> (r: bool)
    ensures
        r == views(v@).contains(s@),
{
    let mut i: usize = 0;
    while i < v.len()
        invariant
            i <= v.len(),
            forall|k: int| 0 <= k < i ==> views(v@)[k] != s@,
        decreases v.len() - i,
    {
        if v[i] == *s {
            assert(views(v@)[i as int] == s@);
            return true;
        }
        i = i + 1;
    }
    false
}

fn phony_keyword() -> (r: String)
    ensures
        r@ == phony_target(),
{
    proof {
        reveal_strlit(".PHONY");
    }
    ".PHONY".to_owned()
}

/// The names listed by `.PHONY` rules.
fn collect_phonies(terms: &Vec<Term>) -> (r: Vec<String>)
    ensures
        views(r@) == phony_names(terms_view(terms@)),
{
    let kw = phony_keyword();
    let mut out: Vec<String> = Vec::new();
    let mut k: usize = 0;
    while k < terms.len()
        invariant
            k <= terms.len(),
            kw@ == phony_target(),
            views(out@) == phony_names(terms_view(terms@).subrange(0, k as int)),
        decreases terms.len() - k,
    {
        assert(terms_view(terms@).subrange(0, k + 1).drop_last() =~= terms_view(terms@).subrange(
            0,
            k as int,
        ));
        match &terms[k] {
            Term::Task(t) => {
                if t.name == kw {
                    let ds = clone_strings(&t.dependencies);
                    proof {
                        lemma_views_concat(out@, ds@);
                    }
                    let mut ds = ds;
                    out.append(&mut ds);
                }
            },
            _ => {},
        }
        k = k + 1;
    }
    assert(terms_view(terms@).subrange(0, terms.len() as int) =~= terms_view(terms@));
    out
}

/// Finds the merged task with this name.
fn find_task(tasks: &Vec<Task>, name: &String) -> (r: Option<usize>)
    ensures
        pos_or_none(r) == task_index(tasks@.map_values(|t: Task| t@), name@),
{
    let ghost tv = tasks@.map_values(|t: Task| t@);
    let mut k = tasks.len();
    assert(tv.subrange(0, k as int) =~= tv);
    while k > 0
        invariant
            k <= tasks.len(),
            tv == tasks@.map_values(|t: Task| t@),
            task_index(tv, name@) == task_index(tv.subrange(0, k as int), name@),
        decreases k,
    {
        assert(tv.subrange(0, k - 1) =~= tv.subrange(0, k as int).drop_last());
        if tasks[k - 1].name == *name {
            return Some(k - 1);
        }
        k = k - 1;
    }
    None
}

pub open spec fn pos_or_none(r: Option<usize>) -> int {
    match r {
        Some(i) => i as int,
        None => -1,
    }
}

/// Merges the rules of a file's terms by name.
fn merge_rules(terms: &Vec<Term>) -> (r: Vec<Task>)
    ensures
        r@.map_values(|t: Task| t@) == merged_rules(terms_view(terms@)),
{
    let kw = phony_keyword();
    let mut out: Vec<Task> = Vec::new();
    let mut k: usize = 0;
    while k < terms.len()
        invariant
            k <= terms.len(),
            kw@ == phony_target(),
            out@.map_values(|t: Task| t@) == merged_rules(terms_view(terms@).subrange(0, k as int)),
        decreases terms.len() - k,
    {
        let ghost tv = terms_view(terms@);
        assert(tv.subrange(0, k + 1).drop_last() =~= tv.subrange(0, k as int));
        assert(tv.subrange(0, k + 1).last() == terms@[k as int]@);
        match &terms[k] {
            Term::Task(t) => {
                if !(t.name == kw) {
                    let ghost before = out@.map_values(|t: Task| t@);
                    proof {
                        lemma_task_index(before, t.name@);
                    }
                    match find_task(&out, &t.name) {
                        Some(i) => {
                            let mut deps = clone_strings(&out[i].dependencies);
                            let mut more = clone_strings(&t.dependencies);
                            proof {
                                lemma_views_concat(deps@, more@);
                            }
                            deps.append(&mut more);
                            let cmds = if t.commands.len() > 0 {
                                clone_strings(&t.commands)
                            } else {
                                clone_strings(&out[i].commands)
                            };
                            let merged = Task {
                                phony: out[i].phony,
                                name: t.name.clone(),
                                dependencies: deps,
                                commands: cmds,
                            };
                            out.set(i, merged);
                            proof {
                                assert(out@.map_values(|t: Task| t@) =~= before.update(
                                    i as int,
                                    merged@,
                                ));
                            }
                        },
                        None => {
                            let fresh = Task {
                                phony: false,
                                name: t.name.clone(),
                                dependencies: clone_strings(&t.dependencies),
                                commands: clone_strings(&t.commands),
                            };
                            out.push(fresh);
                            proof {
                                assert(out@.map_values(|t: Task| t@) =~= before.push(fresh@));
                            }
                        },
                    }
                }
            },
            _ => {},
        }
        k = k + 1;
    }
    assert(terms_view(terms@).subrange(0, terms.len() as int) =~= terms_view(terms@));
    out
}


/// The variables that a file's terms define, each name once.
fn collect_variables(terms: &Vec<Term>) -> (r: Vec<Variable>)
    ensures
        names_unique(r@),
        forall|n: Seq<char>| #[trigger] var_value(r@, n) == defined_value(terms_view(terms@), n),
{
    let mut out: Vec<Variable> = Vec::new();
    let mut k: usize = 0;
    while k < terms.len()
        invariant
            k <= terms.len(),
            names_unique(out@),
            forall|n: Seq<char>|
                #[trigger] var_value(out@, n) == defined_value(
                    terms_view(terms@).subrange(0, k as int),
                    n,
                ),
        decreases terms.len() - k,
    {
        let ghost tv = terms_view(terms@);
        let ghost before = out@;
        assert(tv.subrange(0, k + 1).drop_last() =~= tv.subrange(0, k as int));
        assert(tv.subrange(0, k + 1).last() == terms@[k as int]@);
        match &terms[k] {
            Term::Variable(v) => {
                let x = Variable { name: v.name.clone(), op: v.op.clone(), value: v.value.clone() };
                let mut j = out.len();
                while j > 0 && !(out[j - 1].name == x.name)
                    invariant
                        j <= out.len(),
                        out@ == before,
                        forall|m: int| j <= m < out.len() ==> out@[m].name@ != x.name@,
                    decreases j,
                {
                    j = j - 1;
                }
                if j > 0 {
                    let i = j - 1;
                    proof {
                        assert forall|n: Seq<char>|
                            #[trigger] var_value(before.update(i as int, x), n) == defined_value(
                                tv.subrange(0, k + 1),
                                n,
                            ) by {
                            lemma_var_value_update(before, i as int, x, n);
                        }
                    }
                    out.set(i, x);
                } else {
                    proof {
                        assert forall|n: Seq<char>|
                            #[trigger] var_value(before.push(x), n) == defined_value(
                                tv.subrange(0, k + 1),
                                n,
                            ) by {
                            assert(before.push(x).drop_last() =~= before);
                            assert(var_value(before, n) == defined_value(tv.subrange(0, k as int), n));
                        }
                    }
                    out.push(x);
                }
            },
            _ => {},
        }
        k = k + 1;
    }
    assert(terms_view(terms@).subrange(0, terms.len() as int) =~= terms_view(terms@));
    out
}

proof fn lemma_merged_rules_len(ts: Seq<TermV>)
    ensures
        merged_rules(ts).len() <= ts.len(),
    decreases ts.len(),
{
    if ts.len() > 0 {
        lemma_merged_rules_len(ts.drop_last());
        let prev = merged_rules(ts.drop_last());
        match ts.last() {
            TermV::Task { name, dependencies, commands } => {
                lemma_task_index(prev, name);
            },
            _ => {},
        }
    }
}

proof fn lemma_merged_rules_shape(ts: Seq<TermV>)
    ensures
        task_names_unique(merged_rules(ts)),
        forall|k: int|
            0 <= k < merged_rules(ts).len() ==> (#[trigger] merged_rules(ts)[k]).name
                != phony_target(),
    decreases ts.len(),
{
    if ts.len() > 0 {
        lemma_merged_rules_shape(ts.drop_last());
        let prev = merged_rules(ts.drop_last());
        match ts.last() {
            TermV::Task { name, dependencies, commands } => {
                if name != phony_target() {
                    lemma_task_index(prev, name);
                    let next = merge_rule(prev, name, dependencies, commands);
                    assert forall|x: int, y: int| 0 <= x < y < next.len() implies next[x].name
                        != next[y].name by {
                        if task_index(prev, name) >= 0 {
                            assert(next[x].name == prev[x].name);
                            assert(next[y].name == prev[y].name);
                        } else if y == prev.len() {
                            assert(next[x] == prev[x]);
                        }
                    }
                    assert forall|k: int| 0 <= k < next.len() implies (#[trigger] next[k]).name
                        != phony_target() by {
                        if k < prev.len() {
                            assert(next[k].name == prev[k].name);
                        }
                    }
                }
            },
            _ => {},
        }
    }
}

/// Within one file, a name names at most one task, and `.PHONY` names none.
pub proof fn lemma_assembled_tasks_shape(ts: Seq<TermV>)
    ensures
        task_names_unique(assembled_tasks(ts)),
        forall|k: int|
            0 <= k < assembled_tasks(ts).len() ==> (#[trigger] assembled_tasks(ts)[k]).name
                != phony_target(),
{
    lemma_merged_rules_shape(ts);
    let a = assembled_tasks(ts);
    let m = merged_rules(ts);
    assert forall|x: int, y: int| 0 <= x < y < a.len() implies a[x].name != a[y].name by {
        assert(a[x].name == m[x].name);
        assert(a[y].name == m[y].name);
    }
    assert forall|k: int| 0 <= k < a.len() implies (#[trigger] a[k]).name != phony_target() by {
        assert(a[k].name == m[k].name);
    }
}

/// Two rules for one name make one task: the dependencies of both, in
/// order, and the commands of the second unless it has none.
pub proof fn lemma_two_rules_merge(
    x: Seq<char>,
    d1: Seq<Seq<char>>,
    c1: Seq<Seq<char>>,
    d2: Seq<Seq<char>>,
    c2: Seq<Seq<char>>,
)
    requires
        x != phony_target(),
    ensures
        assembled_tasks(
            seq![
                TermV::Task { name: x, dependencies: d1, commands: c1 },
                TermV::Task { name: x, dependencies: d2, commands: c2 },
            ],
        ) == seq![
            TaskV {
                phony: false,
                name: x,
                dependencies: d1 + d2,
                commands: if c2.len() > 0 {
                    c2
                } else {
                    c1
                },
            },
        ],
{
    let t1 = TermV::Task { name: x, dependencies: d1, commands: c1 };
    let t2 = TermV::Task { name: x, dependencies: d2, commands: c2 };
    let ts = seq![t1, t2];
    assert(ts.drop_last() =~= seq![t1]);
    assert(seq![t1].drop_last() =~= Seq::<TermV>::empty());
    let first = TaskV { phony: false, name: x, dependencies: d1, commands: c1 };
    assert(seq![t1].last() == t1);
    assert(ts.last() == t2);
    assert(merged_rules(Seq::<TermV>::empty()) == Seq::<TaskV>::empty());
    assert(task_index(Seq::<TaskV>::empty(), x) == -1);
    assert(Seq::<TaskV>::empty().push(first) =~= seq![first]);
    assert(merged_rules(seq![t1]) =~= seq![first]);
    assert(task_index(seq![first], x) == 0);
    let merged = TaskV {
        phony: false,
        name: x,
        dependencies: d1 + d2,
        commands: if c2.len() > 0 {
            c2
        } else {
            c1
        },
    };
    assert(merged_rules(ts) =~= seq![merged]);
    assert(phony_names(seq![t1]) =~= phony_names(Seq::<TermV>::empty()));
    assert(phony_names(ts) =~= Seq::<Seq<char>>::empty());
    assert(assembled_tasks(ts) =~= seq![merged]);
}

/// Names that a `.PHONY` rule lists become phony tasks, and `.PHONY`
/// itself becomes no task.
pub proof fn lemma_phony_marks(a: Seq<char>, b: Seq<char>, ca: Seq<Seq<char>>, cb: Seq<Seq<char>>)
    requires
        a != b,
        a != phony_target(),
        b != phony_target(),
    ensures
        assembled_tasks(
            seq![
                TermV::Task { name: phony_target(), dependencies: seq![a, b], commands: seq![] },
                TermV::Empty,
                TermV::Task { name: a, dependencies: seq![], commands: ca },
                TermV::Empty,
                TermV::Task { name: b, dependencies: seq![], commands: cb },
            ],
        ) == seq![
            TaskV { phony: true, name: a, dependencies: seq![], commands: ca },
            TaskV { phony: true, name: b, dependencies: seq![], commands: cb },
        ],
{
    let tp = TermV::Task { name: phony_target(), dependencies: seq![a, b], commands: seq![] };
    let ta = TermV::Task { name: a, dependencies: seq![], commands: ca };
    let tb = TermV::Task { name: b, dependencies: seq![], commands: cb };
    let ts = seq![tp, TermV::Empty, ta, TermV::Empty, tb];
    let s1 = seq![tp];
    let s2 = seq![tp, TermV::Empty];
    let s3 = seq![tp, TermV::Empty, ta];
    let s4 = seq![tp, TermV::Empty, ta, TermV::Empty];
    assert(ts.drop_last() =~= s4);
    assert(s4.drop_last() =~= s3);
    assert(s3.drop_last() =~= s2);
    assert(s2.drop_last() =~= s1);
    assert(s1.drop_last() =~= Seq::<TermV>::empty());
    assert(ts.last() == tb);
    assert(s4.last() == TermV::Empty);
    assert(s3.last() == ta);
    assert(s2.last() == TermV::Empty);
    assert(s1.last() == tp);
    let fa = TaskV { phony: false, name: a, dependencies: seq![], commands: ca };
    let fb = TaskV { phony: false, name: b, dependencies: seq![], commands: cb };
    assert(merged_rules(Seq::<TermV>::empty()) == Seq::<TaskV>::empty());
    assert(merged_rules(s1) == Seq::<TaskV>::empty());
    assert(merged_rules(s2) == Seq::<TaskV>::empty());
    assert(task_index(Seq::<TaskV>::empty(), a) == -1);
    assert(merged_rules(s3) =~= seq![fa]);
    assert(merged_rules(s4) =~= seq![fa]);
    assert(seq![fa].drop_last() =~= Seq::<TaskV>::empty());
    assert(seq![fa].last() == fa);
    assert(task_index(Seq::<TaskV>::empty(), b) == -1);
    assert(task_index(seq![fa], b) == -1);
    assert(merged_rules(ts) =~= seq![fa, fb]);
    assert(phony_names(Seq::<TermV>::empty()) == Seq::<Seq<char>>::empty());
    assert(phony_names(s1) =~= seq![a, b]);
    assert(phony_names(s2) == phony_names(s1));
    assert(phony_names(s3) == phony_names(s2));
    assert(phony_names(s4) == phony_names(s3));
    assert(phony_names(ts) == phony_names(s4));
    assert(seq![a, b][0] == a);
    assert(seq![a, b][1] == b);
    assert(assembled_tasks(ts) =~= seq![
        TaskV { phony: true, name: a, dependencies: seq![], commands: ca },
        TaskV { phony: true, name: b, dependencies: seq![], commands: cb },
    ]);
}

/// Whether some rule of the terms is named `n`.
pub open spec fn has_rule(ts: Seq<TermV>, n: Seq<char>) -> bool {
    exists|k: int| 0 <= k < ts.len() && (#[trigger] ts[k]) is Task && ts[k]->Task_name == n
}

/// The dependencies of the rules named `n`, one rule after the other.
pub open spec fn rule_deps(ts: Seq<TermV>, n: Seq<char>) -> Seq<Seq<char>>
    decreases ts.len(),
{
    if ts.len() == 0 {
        seq![]
    } else {
        match ts.last() {
            TermV::Task { name, dependencies, commands } => if name == n {
                rule_deps(ts.drop_last(), n) + dependencies
            } else {
                rule_deps(ts.drop_last(), n)
            },
            _ => rule_deps(ts.drop_last(), n),
        }
    }
}

/// The commands of the last rule named `n` that has any, or none.
pub open spec fn rule_cmds(ts: Seq<TermV>, n: Seq<char>) -> Seq<Seq<char>>
    decreases ts.len(),
{
    if ts.len() == 0 {
        seq![]
    } else {
        match ts.last() {
            TermV::Task { name, dependencies, commands } => if name == n && commands.len() > 0 {
                commands
            } else {
                rule_cmds(ts.drop_last(), n)
            },
            _ => rule_cmds(ts.drop_last(), n),
        }
    }
}

proof fn lemma_task_index_names(a: Seq<TaskV>, b: Seq<TaskV>, n: Seq<char>)
    requires
        a.len() == b.len(),
        forall|k: int| 0 <= k < a.len() ==> a[k].name == b[k].name,
    ensures
        task_index(a, n) == task_index(b, n),
    decreases a.len(),
{
    if a.len() > 0 {
        lemma_task_index_names(a.drop_last(), b.drop_last(), n);
    }
}

proof fn lemma_merged_rule_of(ts: Seq<TermV>, n: Seq<char>)
    requires
        n != phony_target(),
    ensures
        has_rule(ts, n) <==> task_index(merged_rules(ts), n) >= 0,
        task_index(merged_rules(ts), n) >= 0 ==> merged_rules(ts)[task_index(merged_rules(ts), n)].dependencies
            == rule_deps(ts, n) && merged_rules(ts)[task_index(merged_rules(ts), n)].commands
            == rule_cmds(ts, n),
        task_index(merged_rules(ts), n) < 0 ==> rule_deps(ts, n) == Seq::<Seq<char>>::empty()
            && rule_cmds(ts, n) == Seq::<Seq<char>>::empty(),
    decreases ts.len(),
{
    if ts.len() == 0 {
        assert(!has_rule(ts, n));
    } else {
        let init = ts.drop_last();
        lemma_merged_rule_of(init, n);
        let prev = merged_rules(init);
        lemma_task_index(prev, n);
        assert forall|k: int| 0 <= k < init.len() implies ts[k] == init[k] by {}
        assert(has_rule(init, n) ==> has_rule(ts, n)) by {
            if has_rule(init, n) {
                let k = choose|k: int| 0 <= k < init.len() && (#[trigger] init[k]) is Task
                    && init[k]->Task_name == n;
                assert(ts[k] == init[k]);
            }
        }
        match ts.last() {
            TermV::Task { name, dependencies, commands } => {
                if name == phony_target() {
                    assert(name != n);
                    assert(has_rule(ts, n) ==> has_rule(init, n)) by {
                        if has_rule(ts, n) {
                            let k = choose|k: int| 0 <= k < ts.len() && (#[trigger] ts[k]) is Task
                                && ts[k]->Task_name == n;
                            assert(k != ts.len() - 1);
                            assert(init[k] == ts[k]);
                        }
                    }
                } else {
                    lemma_task_index(prev, name);
                    let j = task_index(prev, name);
                    let next = merge_rule(prev, name, dependencies, commands);
                    if name == n {
                        assert(ts[ts.len() - 1] == ts.last());
                        assert(has_rule(ts, n));
                        if j >= 0 {
                            lemma_task_index_names(next, prev, n);
                        } else {
                            assert(next.drop_last() =~= prev);
                        }
                    } else {
                        assert(has_rule(ts, n) ==> has_rule(init, n)) by {
                            if has_rule(ts, n) {
                                let k = choose|k: int| 0 <= k < ts.len() && (#[trigger] ts[k]) is Task
                                    && ts[k]->Task_name == n;
                                assert(k != ts.len() - 1);
                                assert(init[k] == ts[k]);
                            }
                        }
                        if j >= 0 {
                            lemma_task_index_names(next, prev, n);
                        } else {
                            assert(next.drop_last() =~= prev);
                        }
                    }
                }
            },
            _ => {
                assert(has_rule(ts, n) ==> has_rule(init, n)) by {
                    if has_rule(ts, n) {
                        let k = choose|k: int| 0 <= k < ts.len() && (#[trigger] ts[k]) is Task
                            && ts[k]->Task_name == n;
                        assert(k != ts.len() - 1);
                        assert(init[k] == ts[k]);
                    }
                }
            },
        }
    }
}

/// Every name that has a rule, but `.PHONY`, names exactly one task. Its
/// dependencies are those of all its rules, in order, and its commands are
/// those of its last rule that has any, or none.
pub proof fn lemma_rules_merge(ts: Seq<TermV>, n: Seq<char>)
    requires
        n != phony_target(),
        has_rule(ts, n),
    ensures
        exists|k: int|
            0 <= k < assembled_tasks(ts).len() && (#[trigger] assembled_tasks(ts)[k]).name == n
                && assembled_tasks(ts)[k].dependencies == rule_deps(ts, n)
                && assembled_tasks(ts)[k].commands == rule_cmds(ts, n)
                && assembled_tasks(ts)[k].phony == phony_names(ts).contains(n),
        forall|k: int, l: int|
            0 <= k < l < assembled_tasks(ts).len() ==> assembled_tasks(ts)[k].name
                != assembled_tasks(ts)[l].name,
{
    lemma_merged_rule_of(ts, n);
    lemma_assembled_tasks_shape(ts);
    let m = merged_rules(ts);
    lemma_task_index(m, n);
    let k = task_index(m, n);
    assert(assembled_tasks(ts)[k].name == n);
}

/// Every task of a file comes from a rule of it, and none from `.PHONY`.
pub proof fn lemma_tasks_come_from_rules(ts: Seq<TermV>)
    ensures
        forall|k: int|
            0 <= k < assembled_tasks(ts).len() ==> has_rule(ts, (#[trigger] assembled_tasks(ts)[k]).name)
                && assembled_tasks(ts)[k].name != phony_target(),
{
    lemma_assembled_tasks_shape(ts);
    let m = merged_rules(ts);
    assert forall|k: int| 0 <= k < assembled_tasks(ts).len() implies has_rule(
        ts,
        (#[trigger] assembled_tasks(ts)[k]).name,
    ) by {
        let n = m[k].name;
        assert(assembled_tasks(ts)[k].name == n);
        lemma_task_index(m, n);
        lemma_merged_rule_of(ts, n);
    }
}

/// An invocation as the spec functions see it: path, task id, task names.
pub open spec fn ext_view(e: External<VarStr>) -> (Seq<char>, Seq<char>, Seq<Seq<char>>) {
    (e.path.0@, e.id@, views(e.tasks@))
}

pub open spec fn ext_views(es: Seq<External<VarStr>>) -> Seq<(Seq<char>, Seq<char>, Seq<Seq<char>>)> {
    es.map_values(|e: External<VarStr>| ext_view(e))
}

/// The invocations that a task's command lines make, in order.
pub open spec fn invocations(id: Seq<char>, cmds: Seq<Seq<char>>) -> Seq<
    (Seq<char>, Seq<char>, Seq<Seq<char>>),
>
    decreases cmds.len(),
{
    if cmds.len() == 0 {
        seq![]
    } else {
        let prev = invocations(id, cmds.drop_last());
        match invocation_of(cmds.last()) {
            Some((p, names)) => prev.push((p, id, names)),
            None => prev,
        }
    }
}

pub open spec fn tasks_view(ts: Seq<(String, Task)>) -> Seq<(Seq<char>, TaskV)> {
    ts.map_values(|p: (String, Task)| (p.0@, p.1@))
}

/// The invocations that a file's tasks make, task by task.
pub open spec fn all_invocations(ts: Seq<(Seq<char>, TaskV)>) -> Seq<
    (Seq<char>, Seq<char>, Seq<Seq<char>>),
>
    decreases ts.len(),
{
    if ts.len() == 0 {
        seq![]
    } else {
        all_invocations(ts.drop_last()) + invocations(ts.last().0, ts.last().1.commands)
    }
}

/// The directory that holds a file: None for the root and the empty path.
pub open spec fn parent_of(f: Seq<char>) -> Option<Seq<char>> {
    let k = last_slash(f);
    if f.len() == 0 || f == seq!['/'] {
        None
    } else if k < 0 {
        Some(seq![])
    } else if k == 0 {
        Some(seq!['/'])
    } else {
        Some(f.subrange(0, k))
    }
}

pub open spec fn last_slash(f: Seq<char>) -> int
    decreases f.len(),
{
    if f.len() == 0 {
        -1
    } else if f.last() == '/' {
        f.len() - 1
    } else {
        last_slash(f.drop_last())
    }
}

/// A path taken from a directory: an absolute path stands for itself.
pub open spec fn joined(dir: Seq<char>, p: Seq<char>) -> Seq<char> {
    if (p.len() > 0 && p[0] == '/') || dir.len() == 0 {
        p
    } else if dir.last() == '/' {
        dir + p
    } else {
        dir + seq!['/'] + p
    }
}

impl Makefile {
    /// Assembles a file's terms: rules merged by name, `.PHONY` consumed into
    /// the phony flags, variables by last assignment. Each task gets the next
    /// identifier, and the invocations in its commands are added to
    /// `external`.
    pub fn from_terms(
        id: &mut IDGen,
        external: &mut Vec<External<VarStr>>,
        path: String,
        terms: Vec<Term>,
    ) -> (r: Makefile)
        requires
            old(id).count + terms.len() <= usize::MAX,
        ensures
            r.file@ == path@,
            names_unique(r.variables@),
            forall|n: Seq<char>|
                #[trigger] var_value(r.variables@, n) == defined_value(terms_view(terms@), n),
            r.tasks.len() == assembled_tasks(terms_view(terms@)).len(),
            forall|a: int|
                0 <= a < r.tasks.len() ==> (#[trigger] r.tasks@[a]).1@ == assembled_tasks(
                    terms_view(terms@),
                )[a] && r.tasks@[a].0@ == task_id(old(id).prefix@, (old(id).count + a) as nat),
            final(id).prefix@ == old(id).prefix@,
            final(id).count == old(id).count + r.tasks.len(),
            ext_views(final(external)@) == ext_views(old(external)@) + all_invocations(
                tasks_view(r.tasks@),
            ),
    {
        let ghost tv = terms_view(terms@);
        let ghost ext0 = external@;
        let ghost count0 = id.count;
        let phonies = collect_phonies(&terms);
        let rules = merge_rules(&terms);
        let variables = collect_variables(&terms);
        proof {
            lemma_merged_rules_len(tv);
        }
        let mut tasks: Vec<(String, Task)> = Vec::new();
        let mut a: usize = 0;
        while a < rules.len()
            invariant
                tv == terms_view(terms@),
                count0 + terms.len() <= usize::MAX,
                rules@.map_values(|t: Task| t@) == merged_rules(tv),
                rules.len() <= terms.len(),
                views(phonies@) == phony_names(tv),
                a <= rules.len(),
                tasks.len() == a,
                id.prefix@ == old(id).prefix@,
                count0 == old(id).count,
                id.count == count0 + a,
                forall|j: int|
                    0 <= j < a ==> (#[trigger] tasks@[j]).1@ == assembled_tasks(tv)[j]
                        && tasks@[j].0@ == task_id(old(id).prefix@, (count0 + j) as nat),
                ext_views(external@) == ext_views(ext0) + all_invocations(tasks_view(tasks@)),
            decreases rules.len() - a,
        {
            let t = &rules[a];
            assert(rules@.map_values(|t: Task| t@)[a as int] == t@);
            let task = Task {
                phony: contains_string(&phonies, &t.name),
                name: t.name.clone(),
                dependencies: clone_strings(&t.dependencies),
                commands: clone_strings(&t.commands),
            };
            let tid = id.next();
            let ghost done = all_invocations(tasks_view(tasks@));
            let ghost cmds = views(task.commands@);
            let mut c: usize = 0;
            while c < task.commands.len()
                invariant
                    c <= task.commands.len(),
                    cmds == views(task.commands@),
                    ext_views(external@) == ext_views(ext0) + done + invocations(
                        tid@,
                        cmds.subrange(0, c as int),
                    ),
                decreases task.commands.len() - c,
            {
                assert(cmds.subrange(0, c + 1).drop_last() =~= cmds.subrange(0, c as int));
                assert(cmds.subrange(0, c + 1).last() == task.commands@[c as int]@);
                match parse_make_line(task.commands[c].as_str()) {
                    Some((p, names)) => {
                        let e = External { path: VarStr(p), id: tid.clone(), tasks: names };
                        let ghost before = external@;
                        external.push(e);
                        proof {
                            assert(ext_views(external@) =~= ext_views(before).push(ext_view(e)));
                            assert(ext_views(external@) =~= ext_views(ext0) + done + invocations(
                                tid@,
                                cmds.subrange(0, c + 1),
                            ));
                        }
                    },
                    None => {},
                }
                c = c + 1;
            }
            proof {
                assert(cmds.subrange(0, task.commands.len() as int) =~= cmds);
                let tv2 = tasks_view(tasks@.push((tid, task)));
                assert(tv2.drop_last() =~= tasks_view(tasks@));
                assert(ext_views(ext0) + done + invocations(tid@, cmds) =~= ext_views(ext0) + (done
                    + invocations(tid@, cmds)));
            }
            tasks.push((tid, task));
            a = a + 1;
        }
        Makefile { file: path, variables, tasks }
    }

    /// The identifier of the task with this name.
    pub fn get_id(&self, name: &str) -> (r: Option<&String>)
        ensures
            match r {
                Some(i) => exists|a: int|
                    0 <= a < self.tasks.len() && (#[trigger] self.tasks@[a]).1.name@ == name@
                        && self.tasks@[a].0 == *i,
                None => forall|a: int|
                    0 <= a < self.tasks.len() ==> (#[trigger] self.tasks@[a]).1.name@ != name@,
            },
    {
        let n = name.to_owned();
        let mut a: usize = 0;
        while a < self.tasks.len()
            invariant
                a <= self.tasks.len(),
                n@ == name@,
                forall|b: int| 0 <= b < a ==> (#[trigger] self.tasks@[b]).1.name@ != name@,
            decreases self.tasks.len() - a,
        {
            if self.tasks[a].1.name == n {
                return Some(&self.tasks[a].0);
            }
            a = a + 1;
        }
        None
    }

    /// Replaces the `${NAME}` references of a text by this file's variables.
    pub fn resolve_vars(&self, s: &VarStr) -> (r: String)
        ensures
            r@ == substituted(var_ref_gaps_of(s.0@), var_ref_names_of(s.0@), self.variables@),
    {
        resolve_text(s.0.as_str(), &self.variables)
    }

    /// The path that an invocation names, references resolved, taken from
    /// this file's directory. It is not yet checked against the file system.
    pub fn resolve_makefile(&self, path: &VarStr) -> (r: Result<String, Error>)
        ensures
            match parent_of(self.file@) {
                None => r matches Err(Error::PathErr(m)) && m@ == no_parent_message(self.file@),
                Some(d) => r matches Ok(p) && p@ == joined(
                    d,
                    substituted(var_ref_gaps_of(path.0@), var_ref_names_of(path.0@), self.variables@),
                ),
            },
    {
        let dir = match parent_dir(&self.file) {
            Some(d) => d,
            None => return Err(Error::no_parent(&self.file)),
        };
        let rel = self.resolve_vars(path);
        Ok(join_path(&dir, &rel))
    }
}

/// The directory that holds a file.
pub fn parent_dir(f: &String) -> (r: Option<String>)
    ensures
        opt_string_view(r) == parent_of(f@),
{
    let v = crate::parser::chars_of(f.as_str());
    proof {
        reveal_strlit("/");
    }
    if v.len() == 0 || (v.len() == 1 && v[0] == '/') {
        proof {
            if v.len() == 1 {
                assert(f@ =~= seq!['/']);
            }
        }
        return None;
    }
    assert(f@ != seq!['/']);
    let mut k = v.len();
    assert(f@.subrange(0, k as int) =~= f@);
    while k > 0 && v[k - 1] != '/'
        invariant
            k <= v.len(),
            v@ == f@,
            last_slash(f@) == last_slash(f@.subrange(0, k as int)),
        decreases k,
    {
        assert(f@.subrange(0, k - 1) =~= f@.subrange(0, k as int).drop_last());
        k = k - 1;
    }
    if k == 0 {
        Some(String::new())
    } else if k == 1 {
        Some("/".to_owned())
    } else {
        Some(f.as_str().substring_char(0, k - 1).to_owned())
    }
}

pub open spec fn opt_string_view(r: Option<String>) -> Option<Seq<char>> {
    match r {
        Some(s) => Some(s@),
        None => None,
    }
}

/// Takes a path from a directory.
pub fn join_path(dir: &String, p: &String) -> (r: String)
    ensures
        r@ == joined(dir@, p@),
{
    let pv = crate::parser::chars_of(p.as_str());
    let dv = crate::parser::chars_of(dir.as_str());
    proof {
        reveal_strlit("/");
    }
    if (pv.len() > 0 && pv[0] == '/') || dv.len() == 0 {
        return p.clone();
    }
    let mut r = dir.clone();
    if dv[dv.len() - 1] != '/' {
        r.append("/");
    }
    r.append(p.as_str());
    r
}

} // verus!
