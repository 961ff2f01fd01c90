use vstd::prelude::*;
use crate::ast::{terms_view, views};
use crate::error::{syntax_message, Error};
use crate::grammar::{failure_context, parse_spec};
use crate::makefile::{
    all_invocations, defined_value, ext_views, tasks_view, assembled_tasks, clone_strings, contains_string, joined, opt_string_view, parent_of,
    task_id, External, IDGen, Makefile, VarStr,
};
use crate::parser::{line_col, parse_terms};
use crate::text::lemma_prefixed_decimal_injective;
use crate::vars::{substituted, var_ref_gaps_of, var_ref_names_of, var_value};

verus! {

pub open spec fn files_of(ms: Seq<Makefile>) -> Seq<Seq<char>> {
    ms.map_values(|m: Makefile| m.file@)
}

pub open spec fn distinct(s: Seq<Seq<char>>) -> bool {
    forall|i: int, j: int| 0 <= i < j < s.len() ==> s[i] != s[j]
}

/// How many tasks the first `i` files hold.
pub open spec fn tasks_before(ms: Seq<Makefile>, i: int) -> int
    decreases i,
{
    if i <= 0 || i > ms.len() {
        0
    } else {
        tasks_before(ms, i - 1) + ms[i - 1].tasks.len()
    }
}

/// The tasks of the files are numbered one after the other, file by file.
pub open spec fn ids_in_order(ms: Seq<Makefile>, prefix: Seq<char>) -> bool {
    forall|i: int, a: int|
        0 <= i < ms.len() && 0 <= a < ms[i].tasks.len() ==> (#[trigger] ms[i].tasks@[a]).0@
            == task_id(prefix, (tasks_before(ms, i) + a) as nat)
}

pub open spec fn task_prefix() -> Seq<char> {
    seq!['t', 'a', 's', 'k']
}

/// The path of the Makefile that an invocation reaches: a directory stands
/// for the `Makefile` in it.
pub open spec fn makefile_path(canonical: Seq<char>, is_dir: bool) -> Seq<char> {
    if is_dir {
        joined(canonical, seq!['M', 'a', 'k', 'e', 'f', 'i', 'l', 'e'])
    } else {
        canonical
    }
}

/// The Makefile paths of the invocations that could be resolved, in order.
pub open spec fn found_paths(found: Seq<Option<(String, bool)>>) -> Seq<Seq<char>>
    decreases found.len(),
{
    if found.len() == 0 {
        seq![]
    } else {
        let prev = found_paths(found.drop_last());
        match found.last() {
            Some((c, d)) => prev.push(makefile_path(c@, d)),
            None => prev,
        }
    }
}

/// The paths, in order, that are seen neither before nor earlier among them.
pub open spec fn enqueued(seen: Seq<Seq<char>>, ps: Seq<Seq<char>>) -> Seq<Seq<char>>
    decreases ps.len(),
{
    if ps.len() == 0 {
        seq![]
    } else {
        let prev = enqueued(seen, ps.drop_last());
        if (seen + prev).contains(ps.last()) {
            prev
        } else {
            prev.push(ps.last())
        }
    }
}

pub open spec fn edge_view(e: External<String>) -> (Seq<char>, Seq<char>, Seq<Seq<char>>) {
    (e.path@, e.id@, views(e.tasks@))
}

pub open spec fn edge_views(es: Seq<External<String>>) -> Seq<(Seq<char>, Seq<char>, Seq<Seq<char>>)> {
    es.map_values(|e: External<String>| edge_view(e))
}

/// The invocations whose path was found, with that path, each recorded
/// once: one already among `seen` or earlier among them is left out.
pub open spec fn resolved_edges(
    seen: Seq<(Seq<char>, Seq<char>, Seq<Seq<char>>)>,
    pending: Seq<External<VarStr>>,
    found: Seq<Option<(String, bool)>>,
) -> Seq<(Seq<char>, Seq<char>, Seq<Seq<char>>)>
    decreases found.len(),
{
    if found.len() == 0 || pending.len() != found.len() {
        seq![]
    } else {
        let prev = resolved_edges(seen, pending.drop_last(), found.drop_last());
        match found.last() {
            Some((c, d)) => {
                let x = (makefile_path(c@, d), pending.last().id@, views(pending.last().tasks@));
                if (seen + prev).contains(x) {
                    prev
                } else {
                    prev.push(x)
                }
            },
            None => prev,
        }
    }
}

pub open spec fn distinct_edges(es: Seq<(Seq<char>, Seq<char>, Seq<Seq<char>>)>) -> bool {
    forall|i: int, j: int| 0 <= i < j < es.len() ==> es[i] != es[j]
}

/// The path that an invocation of a file names, before the file system
/// sees it.
pub open spec fn target_of(m: Makefile, e: External<VarStr>) -> Option<Seq<char>> {
    match parent_of(m.file@) {
        None => None,
        Some(d) => Some(
            joined(d, substituted(var_ref_gaps_of(e.path.0@), var_ref_names_of(e.path.0@), m.variables@)),
        ),
    }
}

/// A walk from file to file. `queue` holds the files still to do; while a
/// file is loaded (`current`), it is the first of them, and `pending` holds
/// its invocations until their paths are known.
pub struct Walker {
    pub queue: Vec<String>,
    pub makefiles: Vec<Makefile>,
    pub externals: Vec<External<String>>,
    pub ids: IDGen,
    pub current: Option<Makefile>,
    pub pending: Vec<External<VarStr>>,
}

impl Walker {
    /// Every file that is done or waiting, each once.
    pub open spec fn visited(&self) -> Seq<Seq<char>> {
        files_of(self.makefiles@) + views(self.queue@)
    }

    pub open spec fn wf(&self) -> bool {
        &&& distinct(self.visited())
        &&& distinct_edges(edge_views(self.externals@))
        &&& self.ids.prefix@ == task_prefix()
        &&& ids_in_order(self.makefiles@, task_prefix())
        &&& match self.current {
            None => self.ids.count == tasks_before(self.makefiles@, self.makefiles.len() as int)
                && self.pending.len() == 0,
            Some(m) => {
                &&& self.queue.len() > 0
                &&& m.file@ == self.queue@[0]@
                &&& self.ids.count == tasks_before(self.makefiles@, self.makefiles.len() as int)
                    + m.tasks.len()
                &&& forall|a: int|
                    0 <= a < m.tasks.len() ==> (#[trigger] m.tasks@[a]).0@ == task_id(
                        task_prefix(),
                        (tasks_before(self.makefiles@, self.makefiles.len() as int) + a) as nat,
                    )
            },
        }
    }

    /// A walk that starts at one file, given by its canonical path.
    pub fn new(entry: String) -> (r: Walker)
        ensures
            r.wf(),
            r.current is None,
            views(r.queue@) == seq![entry@],
            r.makefiles@.len() == 0,
            r.externals@.len() == 0,
    {
        proof {
            reveal_strlit("task");
        }
        let mut queue: Vec<String> = Vec::new();
        queue.push(entry);
        let r = Walker {
            queue,
            makefiles: Vec::new(),
            externals: Vec::new(),
            ids: IDGen::new("task"),
            current: None,
            pending: Vec::new(),
        };
        assert(views(r.queue@) =~= seq![entry@]);
        assert(r.visited() =~= seq![entry@]);
        assert(r.ids.prefix@ =~= task_prefix());
        assert(tasks_before(r.makefiles@, 0) == 0);
        r
    }

    /// The file to read next; None when the walk is over or a file waits for
    /// its paths.
    pub fn next_file(&self) -> (r: Option<String>)
        ensures
            match r {
                Some(f) => self.current is None && self.queue.len() > 0 && f@ == self.queue@[0]@,
                None => self.current is Some || self.queue.len() == 0,
            },
    {
        if self.current.is_none() && self.queue.len() > 0 {
            Some(self.queue[0].clone())
        } else {
            None
        }
    }

    /// Takes the text of the next file: parses and assembles it, and gives
    /// for each invocation in its recipes the path it names, or None where
    /// the file has no directory. A text that does not parse stops the walk.
    pub fn load(&mut self, text: &str) -> (r: Result<Vec<Option<String>>, Error>)
        requires
            old(self).wf(),
            old(self).current is None,
            old(self).queue.len() > 0,
        ensures
            match parse_spec(text@) {
                Err(off) => r matches Err(Error::ParseErr(m)) && m@ == syntax_message(
                    line_col(text@, off).0 as nat,
                    line_col(text@, off).1 as nat,
                    failure_context(text@, off),
                ) && *final(self) == *old(self),
                Ok(tv) => if old(self).ids.count + tv.len() > usize::MAX {
                    r matches Err(Error::Exhausted) && *final(self) == *old(self)
                } else {
                    &&& final(self).wf()
                    &&& final(self).queue == old(self).queue
                    &&& final(self).makefiles == old(self).makefiles
                    &&& final(self).externals == old(self).externals
                    &&& final(self).current matches Some(m) && m.file@ == old(self).queue@[0]@
                        && m.tasks@.map_values(|p: (String, crate::makefile::Task)| p.1@)
                        == assembled_tasks(tv) && (forall|n: Seq<char>|
                        #[trigger] var_value(m.variables@, n) == defined_value(tv, n))
                        && ext_views(final(self).pending@) == all_invocations(tasks_view(m.tasks@))
                    &&& r matches Ok(paths) && paths.len() == final(self).pending.len() && forall|
                        i: int,
                    |
                        0 <= i < paths.len() ==> opt_string_view(#[trigger] paths@[i]) == target_of(
                            final(self).current->0,
                            final(self).pending@[i],
                        )
                },
            },
    {
        let terms = match parse_terms(text) {
            Ok(ts) => ts,
            Err(e) => return Err(Error::from_syntax(&e)),
        };
        if terms.len() > usize::MAX - self.ids.count {
            return Err(Error::Exhausted);
        }
        let ghost tv = terms_view(terms@);
        let ghost base = self.ids.count;
        let mut pending: Vec<External<VarStr>> = Vec::new();
        let file = self.queue[0].clone();
        let m = Makefile::from_terms(&mut self.ids, &mut pending, file, terms);
        assert(ext_views(pending@) =~= all_invocations(tasks_view(m.tasks@)));
        assert(m.tasks@.map_values(|p: (String, crate::makefile::Task)| p.1@) =~= assembled_tasks(
            tv,
        ));
        let mut paths: Vec<Option<String>> = Vec::new();
        let mut i: usize = 0;
        while i < pending.len()
            invariant
                i <= pending.len(),
                paths.len() == i,
                forall|k: int|
                    0 <= k < i ==> opt_string_view(#[trigger] paths@[k]) == target_of(
                        m,
                        pending@[k],
                    ),
            decreases pending.len() - i,
        {
            let p = match m.resolve_makefile(&pending[i].path) {
                Ok(p) => Some(p),
                Err(_) => None,
            };
            paths.push(p);
            i = i + 1;
        }
        self.current = Some(m);
        self.pending = pending;
        Ok(paths)
    }
}


proof fn lemma_concat_contains(a: Seq<Seq<char>>, b: Seq<Seq<char>>, x: Seq<char>)
    ensures
        (a + b).contains(x) == (a.contains(x) || b.contains(x)),
{
    if a.contains(x) {
        let k = choose|k: int| 0 <= k < a.len() && a[k] == x;
        assert((a + b)[k] == x);
    }
    if b.contains(x) {
        let k = choose|k: int| 0 <= k < b.len() && b[k] == x;
        assert((a + b)[a.len() + k] == x);
    }
    if (a + b).contains(x) {
        let k = choose|k: int| 0 <= k < (a + b).len() && (a + b)[k] == x;
        if k < a.len() {
            assert(a[k] == x);
        } else {
            assert(b[k - a.len()] == x);
        }
    }
}

proof fn lemma_tasks_before_push(ms: Seq<Makefile>, m: Makefile, i: int)
    requires
        0 <= i <= ms.len(),
    ensures
        tasks_before(ms.push(m), i) == tasks_before(ms, i),
    decreases i,
{
    if i > 0 {
        lemma_tasks_before_push(ms, m, i - 1);
        assert(ms.push(m)[i - 1] == ms[i - 1]);
    }
}

proof fn lemma_tasks_before_grows(ms: Seq<Makefile>, i: int, j: int)
    requires
        0 <= i < j <= ms.len(),
    ensures
        0 <= tasks_before(ms, i),
        tasks_before(ms, i) + ms[i].tasks.len() <= tasks_before(ms, j),
    decreases j,
{
    lemma_tasks_before_nonneg(ms, i);
    if j - 1 > i {
        lemma_tasks_before_grows(ms, i, j - 1);
    }
}

proof fn lemma_tasks_before_nonneg(ms: Seq<Makefile>, i: int)
    ensures
        0 <= tasks_before(ms, i),
    decreases i,
{
    if i > 0 && i <= ms.len() {
        lemma_tasks_before_nonneg(ms, i - 1);
    }
}

/// No two tasks of the files receive the same identifier.
pub proof fn lemma_ids_unique(ms: Seq<Makefile>, prefix: Seq<char>, i: int, a: int, j: int, b: int)
    requires
        ids_in_order(ms, prefix),
        0 <= i < ms.len(),
        0 <= a < ms[i].tasks.len(),
        0 <= j < ms.len(),
        0 <= b < ms[j].tasks.len(),
        i != j || a != b,
    ensures
        ms[i].tasks@[a].0@ != ms[j].tasks@[b].0@,
{
    lemma_tasks_before_nonneg(ms, i);
    lemma_tasks_before_nonneg(ms, j);
    let n1 = tasks_before(ms, i) + a;
    let n2 = tasks_before(ms, j) + b;
    if i < j {
        lemma_tasks_before_grows(ms, i, j);
    } else if j < i {
        lemma_tasks_before_grows(ms, j, i);
    }
    assert(n1 != n2);
    assert(ms[i].tasks@[a].0@ == task_id(prefix, n1 as nat));
    assert(ms[j].tasks@[b].0@ == task_id(prefix, n2 as nat));
    if ms[i].tasks@[a].0@ == ms[j].tasks@[b].0@ {
        lemma_prefixed_decimal_injective(prefix, n1 as nat, n2 as nat);
    }
}

/// Across a whole walk, every task that has been taken in has its own
/// identifier.
pub proof fn lemma_walk_ids_unique(w: Walker, i: int, a: int, j: int, b: int)
    requires
        w.wf(),
        0 <= i < w.makefiles.len(),
        0 <= a < w.makefiles@[i].tasks.len(),
        0 <= j < w.makefiles.len(),
        0 <= b < w.makefiles@[j].tasks.len(),
        i != j || a != b,
    ensures
        w.makefiles@[i].tasks@[a].0@ != w.makefiles@[j].tasks@[b].0@,
{
    lemma_ids_unique(w.makefiles@, task_prefix(), i, a, j, b);
}

/// Along a walk each file is visited at most once: no two finished files
/// share a path, and no finished file waits in the queue again.
pub proof fn lemma_walk_files_once(w: Walker)
    requires
        w.wf(),
    ensures
        distinct(files_of(w.makefiles@)),
        forall|i: int, k: int|
            0 <= i < w.makefiles.len() && 0 <= k < w.queue.len() ==> (#[trigger] w.makefiles@[i]).file@
                != (#[trigger] w.queue@[k])@,
{
    let f = files_of(w.makefiles@);
    assert forall|i: int, j: int| 0 <= i < j < f.len() implies f[i] != f[j] by {
        assert(w.visited()[i] == f[i]);
        assert(w.visited()[j] == f[j]);
    }
    assert forall|i: int, k: int|
        0 <= i < w.makefiles.len() && 0 <= k < w.queue.len() implies (#[trigger] w.makefiles@[i]).file@
            != (#[trigger] w.queue@[k])@ by {
        assert(w.visited()[i] == f[i]);
        assert(w.visited()[f.len() + k] == views(w.queue@)[k]);
    }
}

fn has_file(ms: &Vec<Makefile>, p: &String) -> (r: bool)
    ensures
        r == files_of(ms@).contains(p@),
{
    let mut i: usize = 0;
    while i < ms.len()
        invariant
            i <= ms.len(),
            forall|k: int| 0 <= k < i ==> files_of(ms@)[k] != p@,
        decreases ms.len() - i,
    {
        if ms[i].file == *p {
            assert(files_of(ms@)[i as int] == p@);
            return true;
        }
        i = i + 1;
    }
    false
}

fn same_strings(a: &Vec<String>, b: &Vec<String>) -> (r: bool)
    ensures
        r == (views(a@) == views(b@)),
{
    if a.len() != b.len() {
        assert(views(a@).len() != views(b@).len());
        return false;
    }
    let mut i: usize = 0;
    while i < a.len()
        invariant
            a.len() == b.len(),
            i <= a.len(),
            forall|k: int| 0 <= k < i ==> views(a@)[k] == views(b@)[k],
        decreases a.len() - i,
    {
        if !(a[i] == b[i]) {
            assert(views(a@)[i as int] != views(b@)[i as int]);
            return false;
        }
        i = i + 1;
    }
    assert(views(a@) =~= views(b@));
    true
}

fn has_edge(es: &Vec<External<String>>, e: &External<String>) -> (r: bool)
    ensures
        r == edge_views(es@).contains(edge_view(*e)),
{
    let mut i: usize = 0;
    while i < es.len()
        invariant
            i <= es.len(),
            forall|k: int| 0 <= k < i ==> edge_views(es@)[k] != edge_view(*e),
        decreases es.len() - i,
    {
        if es[i].path == e.path && es[i].id == e.id && same_strings(&es[i].tasks, &e.tasks) {
            assert(edge_views(es@)[i as int] == edge_view(*e));
            return true;
        }
        assert(edge_views(es@)[i as int] == edge_view(es@[i as int]));
        i = i + 1;
    }
    false
}

/// The Makefile that a canonical path stands for.
pub fn makefile_in(canonical: &String, is_dir: bool) -> (r: String)
    ensures
        r@ == makefile_path(canonical@, is_dir),
{
    if is_dir {
        proof {
            reveal_strlit("Makefile");
        }
        let name = "Makefile".to_owned();
        assert(name@ =~= seq!['M', 'a', 'k', 'e', 'f', 'i', 'l', 'e']);
        crate::makefile::join_path(canonical, &name)
    } else {
        canonical.clone()
    }
}

impl Walker {
    /// Takes, for each pending invocation, its canonical path and whether
    /// that is a directory, or None where it could not be resolved. Records
    /// the resolved invocations, queues the files not yet seen, and finishes
    /// the current file.
    pub fn commit(&mut self, found: Vec<Option<(String, bool)>>)
        requires
            old(self).wf(),
            old(self).current is Some,
            found.len() == old(self).pending.len(),
        ensures
            final(self).wf(),
            final(self).current is None,
            final(self).makefiles@ == old(self).makefiles@.push(old(self).current->0),
            views(final(self).queue@) == views(old(self).queue@).skip(1) + enqueued(
                old(self).visited(),
                found_paths(found@),
            ),
            edge_views(final(self).externals@) == edge_views(old(self).externals@) + resolved_edges(
                edge_views(old(self).externals@),
                old(self).pending@,
                found@,
            ),
    {
        let ghost seen = self.visited();
        let ghost q0 = views(self.queue@);
        let ghost e0 = edge_views(self.externals@);
        let ghost s0 = *self;
        let mut i: usize = 0;
        while i < found.len()
            invariant
                i <= found.len(),
                found.len() == self.pending.len(),
                self.makefiles == s0.makefiles,
                self.current == s0.current,
                self.pending == s0.pending,
                self.ids == s0.ids,
                seen == files_of(self.makefiles@) + q0,
                q0.len() > 0,
                views(self.queue@) == q0 + enqueued(seen, found_paths(found@.subrange(0, i as int))),
                distinct(self.visited()),
                distinct_edges(edge_views(self.externals@)),
                edge_views(self.externals@) == e0 + resolved_edges(
                    e0,
                    self.pending@.subrange(0, i as int),
                    found@.subrange(0, i as int),
                ),
            decreases found.len() - i,
        {
            let ghost fi = found@.subrange(0, i + 1);
            let ghost pi = self.pending@.subrange(0, i + 1);
            assert(fi.drop_last() =~= found@.subrange(0, i as int));
            assert(pi.drop_last() =~= self.pending@.subrange(0, i as int));
            assert(fi.last() == found@[i as int]);
            assert(pi.last() == self.pending@[i as int]);
            match &found[i] {
                Some((c, d)) => {
                    let p = makefile_in(c, *d);
                    let e = External {
                        path: p.clone(),
                        id: self.pending[i].id.clone(),
                        tasks: clone_strings(&self.pending[i].tasks),
                    };
                    let ghost eb = self.externals@;
                    let ghost prev_edges = resolved_edges(
                        e0,
                        self.pending@.subrange(0, i as int),
                        found@.subrange(0, i as int),
                    );
                    proof {
                        assert(edge_views(eb) == e0 + prev_edges);
                    }
                    let recorded = has_edge(&self.externals, &e);
                    if !recorded {
                        self.externals.push(e);
                        proof {
                            let ev = edge_views(self.externals@);
                            assert(ev =~= edge_views(eb).push(edge_view(e)));
                            assert(ev =~= e0 + prev_edges.push(edge_view(e)));
                            assert forall|x: int, y: int| 0 <= x < y < ev.len() implies ev[x]
                                != ev[y] by {
                                if y == ev.len() - 1 {
                                    assert(edge_views(eb)[x] == ev[x]);
                                }
                            }
                        }
                    }
                    let ghost prev = enqueued(seen, found_paths(found@.subrange(0, i as int)));
                    let ghost qb = views(self.queue@);
                    proof {
                        assert(self.visited() =~= seen + prev);
                        lemma_concat_contains(files_of(self.makefiles@), qb, p@);
                    }
                    let already = contains_string(&self.queue, &p) || has_file(&self.makefiles, &p);
                    proof {
                        let fp = found_paths(found@.subrange(0, i as int));
                        assert(found_paths(fi) == fp.push(p@));
                        assert(fp.push(p@).drop_last() =~= fp);
                        assert(fp.push(p@).last() == p@);
                        assert(already == (seen + prev).contains(p@));
                    }
                    if !already {
                        self.queue.push(p);
                        proof {
                            assert(views(self.queue@) =~= qb.push(p@));
                            assert(views(self.queue@) =~= q0 + prev.push(p@));
                            let v = self.visited();
                            assert(v =~= (files_of(self.makefiles@) + qb).push(p@));
                            assert forall|x: int, y: int| 0 <= x < y < v.len() implies v[x] != v[y] by {
                                if y == v.len() - 1 {
                                    assert((files_of(self.makefiles@) + qb)[x] == v[x]);
                                }
                            }
                        }
                    }
                },
                None => {
                    assert(found_paths(fi) == found_paths(found@.subrange(0, i as int)));
                },
            }
            i = i + 1;
        }
        proof {
            assert(found@.subrange(0, found.len() as int) =~= found@);
            assert(self.pending@.subrange(0, found.len() as int) =~= self.pending@);
        }
        let ghost ms0 = self.makefiles@;
        let ghost qv = views(self.queue@);
        let cur = self.current.take();
        match cur {
            Some(m) => {
                self.makefiles.push(m);
            },
            None => {},
        }
        self.queue.remove(0);
        self.pending = Vec::new();
        proof {
            let m = s0.current->0;
            assert(views(self.queue@) =~= qv.skip(1));
            assert(files_of(self.makefiles@) =~= files_of(ms0).push(m.file@));
            assert(self.visited() =~= files_of(ms0) + qv);
            assert(views(self.queue@) =~= q0.skip(1) + enqueued(seen, found_paths(found@)));
            let ms = self.makefiles@;
            assert forall|x: int| 0 <= x <= ms0.len() implies tasks_before(ms, x) == tasks_before(
                ms0,
                x,
            ) by {
                lemma_tasks_before_push(ms0, m, x);
            }
            assert(tasks_before(ms, ms.len() as int) == tasks_before(ms0, ms0.len() as int)
                + m.tasks.len());
            assert forall|x: int, a: int|
                0 <= x < ms.len() && 0 <= a < ms[x].tasks.len() implies (#[trigger] ms[x].tasks@[a]).0@
                == task_id(task_prefix(), (tasks_before(ms, x) + a) as nat) by {
                if x < ms0.len() {
                    assert(ms[x] == ms0[x]);
                }
            }
        }
    }

    /// The finished files and the resolved invocations.
    pub fn finish(self) -> (r: (Vec<Makefile>, Vec<External<String>>))
        ensures
            r.0@ == self.makefiles@,
            r.1@ == self.externals@,
    {
        (self.makefiles, self.externals)
    }
}

} // verus!
