//! Which row of the tree each process is billed to.
use vstd::prelude::*;

use crate::containers::{ContainerIndex, IndexView};
use crate::rules::{Classes, Facts, FactsView, FolderName, Rules, Stage, UnitFlags};
use crate::types::{Folder, Process};
use crate::{classify, containers, identity, rules, text};

pub mod around;
pub mod assemble;
pub mod billing;
pub mod distant;
pub mod facts;
pub mod forest;
pub mod laws;
pub mod place;
pub mod totals;
pub mod tree;
pub mod walk;
pub mod weighed;

verus! {

// ---------------------------------------------------------------------------
// The processes of one sample
// ---------------------------------------------------------------------------

/// Each pid once, in order.
pub open spec fn by_pid(procs: Seq<Process>) -> bool {
    forall|i: int, j: int|
        0 <= i < j < procs.len() ==> (#[trigger] procs[i]).pid < (#[trigger] procs[j]).pid
}

/// The process with a pid.
pub open spec fn at_pid(procs: Seq<Process>, pid: u32) -> Option<int> {
    if exists|i: int| 0 <= i < procs.len() && (#[trigger] procs[i]).pid == pid {
        Some(choose|i: int| 0 <= i < procs.len() && (#[trigger] procs[i]).pid == pid)
    } else {
        None
    }
}

/// The process with a pid, by halving.
pub fn find_pid(procs: &Vec<Process>, pid: u32) -> (r: Option<usize>)
    requires
        by_pid(procs@),
    ensures
        match r {
            Some(i) => at_pid(procs@, pid) == Some(i as int) && i < procs@.len() && procs@[i as int].pid
                == pid,
            None => at_pid(procs@, pid) is None,
        },
{
    let mut lo: usize = 0;
    let mut hi: usize = procs.len();
    while lo < hi
        invariant
            lo <= hi <= procs.len(),
            by_pid(procs@),
            forall|i: int| 0 <= i < lo ==> (#[trigger] procs@[i]).pid < pid,
            forall|i: int| hi <= i < procs@.len() ==> (#[trigger] procs@[i]).pid > pid,
        decreases hi - lo,
    {
        let mid: usize = lo + (hi - lo) / 2;
        let at: u32 = procs[mid].pid;
        if at == pid {
            assert(procs@[mid as int].pid == pid);
            proof {
                let c = choose|i: int| 0 <= i < procs@.len() && (#[trigger] procs@[i]).pid == pid;
                assert(c == mid) by {
                    if c < mid {
                        assert(procs@[c].pid < procs@[mid as int].pid);
                    } else if c > mid {
                        assert(procs@[mid as int].pid < procs@[c].pid);
                    }
                }
            }
            return Some(mid);
        }
        if at < pid {
            assert forall|i: int| 0 <= i < mid + 1 implies (#[trigger] procs@[i]).pid < pid by {
                if i < mid {
                    assert(procs@[i].pid < procs@[mid as int].pid);
                }
            }
            lo = mid + 1;
        } else {
            assert forall|i: int| mid <= i < procs@.len() implies (#[trigger] procs@[i]).pid
                > pid by {
                if i > mid {
                    assert(procs@[mid as int].pid < procs@[i].pid);
                }
            }
            hi = mid;
        }
    }
    None
}

/// What placement depends on.
pub struct World {
    pub procs: Seq<Process>,
    pub rules: Rules,
    pub containers: IndexView,
}

// ---------------------------------------------------------------------------
// What the rule stages say of one process
// ---------------------------------------------------------------------------

/// The facts of a process in a unit.
pub open spec fn facts_view(p: Process) -> FactsView {
    FactsView {
        comm: p.comm@,
        name: classify::process_name(p),
        exe: text::opt_text(p.exe),
        argv: text::texts(p.cmdline@),
        cgroup: p.cgroup@,
        unit: identity::unit_of(p.cgroup@),
        script: None,
        identity: None,
        container: None,
    }
}

/// The flags of the unit a process runs in.
pub open spec fn flags_of(p: Process, rules: Rules) -> UnitFlags {
    match identity::unit_of(p.cgroup@) {
        Some(u) => rules.unit_flags_spec(u),
        None => UnitFlags(0),
    }
}

/// The first argument at or after `i` that is no flag.
pub open spec fn positional_from(argv: Seq<Seq<char>>, i: int) -> Option<Seq<char>>
    decreases argv.len() - i,
{
    if i < 0 || i >= argv.len() {
        None
    } else if !classify::is_flag(argv[i]) {
        Some(argv[i])
    } else {
        positional_from(argv, i + 1)
    }
}

/// A shell wrapper: its first argument that is no flag is a launcher.
pub open spec fn wraps_launcher(p: Process, rules: Rules) -> bool {
    match positional_from(text::texts(p.cmdline@), 1) {
        Some(arg) => rules.name_classes(text::after_last(arg, '/')).any_of(Classes::LAUNCHER),
        None => false,
    }
}

/// The classes of a process: those its facts give it, and the launcher's for
/// a wrapper of one.
pub open spec fn classes_of(p: Process, rules: Rules) -> Classes {
    let c = rules.classes_spec(facts_view(p));
    if wraps_launcher(p, rules) {
        Classes(c.0 | Classes::LAUNCHER)
    } else {
        c
    }
}

/// What the rule stages need of one process, worked out once.
pub struct Judged {
    pub unit: Option<String>,
    pub unit_flags: UnitFlags,
    pub classes: Classes,
}

impl Judged {
    /// This is what the rules say of `p`.
    pub open spec fn of(self, p: Process, rules: Rules) -> bool {
        &&& text::opt_text(self.unit) == identity::unit_of(p.cgroup@)
        &&& self.unit_flags == flags_of(p, rules)
        &&& self.classes == classes_of(p, rules)
    }
}

pub fn facts_of<'p>(p: &'p Process, unit: Option<&'p str>) -> (r: Facts<'p>)
    requires
        text::opt_str(unit) == identity::unit_of(p.cgroup@),
    ensures
        r@ == facts_view(*p),
{
    Facts {
        comm: p.comm.as_str(),
        name: classify::name_ref(p),
        exe: text::opt_borrow(&p.exe),
        argv: p.cmdline.as_slice(),
        cgroup: p.cgroup.as_str(),
        unit,
        script: None,
        identity: None,
        container: None,
    }
}

fn first_positional(cmdline: &Vec<String>) -> (r: Option<&str>)
    ensures
        text::opt_str(r) == positional_from(text::texts(cmdline@), 1),
{
    let ghost argv = text::texts(cmdline@);
    let mut i: usize = 1;
    while i < cmdline.len()
        invariant
            1 <= i,
            argv == text::texts(cmdline@),
            positional_from(argv, 1) == positional_from(argv, i as int),
        decreases cmdline.len() - i,
    {
        assert(argv[i as int] == cmdline@[i as int]@);
        if !classify::flag_arg(cmdline[i].as_str()) {
            return Some(cmdline[i].as_str());
        }
        i += 1;
    }
    None
}

fn judge(p: &Process, rules: &Rules) -> (r: Judged)
    ensures
        r.of(*p, *rules),
{
    let unit = identity::user_unit(p.cgroup.as_str());
    let unit_flags = match &unit {
        Some(u) => rules.unit_flags(u.as_str()),
        None => UnitFlags::default(),
    };
    let mut classes = rules.classes(&facts_of(p, text::opt_borrow(&unit)));
    if let Some(arg) = first_positional(&p.cmdline) {
        if rules.classes_of_name(classify::basename(arg)).has(Classes::LAUNCHER) {
            classes = Classes(classes.0 | Classes::LAUNCHER);
        }
    }
    Judged { unit, unit_flags, classes }
}

// ---------------------------------------------------------------------------
// Scopes that name an application running in them
// ---------------------------------------------------------------------------

/// A process in the unit, where the unit does not lie, is called `name`.
pub open spec fn runs_in(w: World, unit: Seq<char>, name: Seq<char>) -> bool {
    exists|j: int| 0 <= j < w.procs.len() && #[trigger] is_named_member(w, j, unit, name)
}

pub open spec fn is_named_member(w: World, j: int, unit: Seq<char>, name: Seq<char>) -> bool {
    let q = w.procs[j];
    identity::unit_of(q.cgroup@) == Some(unit) && !flags_of(q, w.rules).lies() && text::same_folded(
        classify::process_name(q),
        name,
    )
}

/// The application a scope names, where a process of that name runs in it: in
/// full, else without the launcher.
pub open spec fn app_of_scope(w: World, unit: Seq<char>) -> Option<Seq<char>> {
    match identity::scope_name(unit) {
        Some(full) => if runs_in(w, unit, full) {
            Some(full)
        } else {
            match identity::scope_short_name(full) {
                Some(short) => if runs_in(w, unit, short) {
                    Some(short)
                } else {
                    None
                },
                None => None,
            }
        },
        None => None,
    }
}

/// The application whose scope a process runs in.
pub open spec fn scope_app(w: World, p: Process) -> Option<Seq<char>> {
    match identity::unit_of(p.cgroup@) {
        Some(u) => app_of_scope(w, u),
        None => None,
    }
}

// ---------------------------------------------------------------------------
// The context of a placement
// ---------------------------------------------------------------------------

/// The children of a process among the first `n`, in pid order.
pub open spec fn children_upto(procs: Seq<Process>, pid: u32, n: int) -> Seq<int>
    decreases n,
{
    if n <= 0 {
        Seq::empty()
    } else if procs[n - 1].ppid == pid {
        children_upto(procs, pid, n - 1).push(n - 1)
    } else {
        children_upto(procs, pid, n - 1)
    }
}

/// The children of the `i`th process, in pid order.
pub open spec fn children_of(procs: Seq<Process>, i: int) -> Seq<int> {
    children_upto(procs, procs[i].pid, procs.len() as int)
}

/// The inputs of a placement, with what is worked out once per process.
pub struct Ctx<'a> {
    pub containers: &'a ContainerIndex,
    pub rules: &'a Rules,
    pub procs: &'a Vec<Process>,
    pub judged: Vec<Judged>,
    pub children: Vec<Vec<usize>>,
    pub scope: Vec<Option<String>>,
}

/// Indices as integers.
pub open spec fn ints(v: Seq<usize>) -> Seq<int> {
    Seq::new(v.len(), |k: int| v[k] as int)
}

impl<'a> Ctx<'a> {
    pub open spec fn world(self) -> World {
        World { procs: self.procs@, rules: *self.rules, containers: self.containers@ }
    }

    /// What is worked out belongs to the inputs.
    pub open spec fn wf(self) -> bool {
        &&& by_pid(self.procs@)
        &&& self.rules.wf()
        &&& self.judged@.len() == self.procs@.len()
        &&& self.children@.len() == self.procs@.len()
        &&& self.scope@.len() == self.procs@.len()
        &&& forall|i: int|
            0 <= i < self.procs@.len() ==> (#[trigger] self.judged@[i]).of(
                self.procs@[i],
                *self.rules,
            )
        &&& forall|i: int|
            0 <= i < self.procs@.len() ==> ints((#[trigger] self.children@[i])@) == children_of(
                self.procs@,
                i,
            )
        &&& forall|i: int|
            0 <= i < self.procs@.len() ==> text::opt_text(#[trigger] self.scope@[i]) == scope_app(
                self.world(),
                self.procs@[i],
            )
    }
}

/// Every child is a process.
pub proof fn lemma_children_bounds(procs: Seq<Process>, pid: u32, n: int, k: int)
    requires
        0 <= n,
        0 <= k < children_upto(procs, pid, n).len(),
    ensures
        0 <= children_upto(procs, pid, n)[k] < n,
        procs[children_upto(procs, pid, n)[k]].ppid == pid,
    decreases n,
{
    if n > 0 {
        let before = children_upto(procs, pid, n - 1);
        if k < before.len() {
            lemma_children_bounds(procs, pid, n - 1, k);
        }
    }
}

fn judge_all(procs: &Vec<Process>, rules: &Rules) -> (r: Vec<Judged>)
    ensures
        r@.len() == procs@.len(),
        forall|i: int| 0 <= i < procs@.len() ==> (#[trigger] r@[i]).of(procs@[i], *rules),
{
    let mut out: Vec<Judged> = Vec::new();
    let mut i: usize = 0;
    while i < procs.len()
        invariant
            i <= procs.len(),
            out@.len() == i,
            forall|j: int| 0 <= j < i ==> (#[trigger] out@[j]).of(procs@[j], *rules),
        decreases procs.len() - i,
    {
        out.push(judge(&procs[i], rules));
        i += 1;
    }
    out
}

/// The children of every process, found in one pass over the processes.
fn children_all(procs: &Vec<Process>) -> (r: Vec<Vec<usize>>)
    requires
        by_pid(procs@),
    ensures
        r@.len() == procs@.len(),
        forall|i: int|
            0 <= i < procs@.len() ==> ints((#[trigger] r@[i])@) == children_of(procs@, i),
{
    let mut out: Vec<Vec<usize>> = Vec::new();
    let mut i: usize = 0;
    while i < procs.len()
        invariant
            i <= procs.len(),
            out@.len() == i,
            forall|j: int| 0 <= j < i ==> (#[trigger] out@[j])@.len() == 0,
        decreases procs.len() - i,
    {
        out.push(Vec::new());
        i += 1;
    }
    assert forall|j: int| 0 <= j < procs@.len() implies ints((#[trigger] out@[j])@)
        == children_upto(procs@, procs@[j].pid, 0) by {
        assert(ints(out@[j]@) =~= Seq::<int>::empty());
    }
    let mut n: usize = 0;
    while n < procs.len()
        invariant
            n <= procs.len(),
            by_pid(procs@),
            out@.len() == procs@.len(),
            forall|j: int|
                0 <= j < procs@.len() ==> ints((#[trigger] out@[j])@) == children_upto(
                    procs@,
                    procs@[j].pid,
                    n as int,
                ),
        decreases procs.len() - n,
    {
        let ghost before = out@;
        match find_pid(procs, procs[n].ppid) {
            Some(k) => {
                let mut kids: Vec<usize> = Vec::new();
                std::mem::swap(&mut kids, &mut out[k]);
                kids.push(n);
                proof {
                    assert(ints(kids@) =~= ints(before[k as int]@).push(n as int));
                }
                out.set(k, kids);
                proof {
                    assert forall|j: int| 0 <= j < procs@.len() implies ints(
                        (#[trigger] out@[j])@,
                    ) == children_upto(procs@, procs@[j].pid, n + 1) by {
                        if j != k {
                            assert(out@[j] == before[j]);
                            assert(procs@[j].pid != procs@[k as int].pid) by {
                                if j < k {
                                    assert(procs@[j].pid < procs@[k as int].pid);
                                } else {
                                    assert(procs@[k as int].pid < procs@[j].pid);
                                }
                            }
                        } else {
                            assert(ints(before[j]@) == children_upto(
                                procs@,
                                procs@[j].pid,
                                n as int,
                            ));
                        }
                    }
                }
            },
            None => {
                assert forall|j: int| 0 <= j < procs@.len() implies ints((#[trigger] out@[j])@)
                    == children_upto(procs@, procs@[j].pid, n + 1) by {
                    assert(procs@[n as int].ppid != procs@[j].pid);
                }
            },
        }
        n += 1;
    }
    out
}

/// Whether a process called `name` runs in a unit that does not lie.
fn has_member(
    procs: &Vec<Process>,
    judged: &Vec<Judged>,
    unit: &str,
    name: &str,
    Ghost(w): Ghost<World>,
) -> (r: bool)
    requires
        w.procs == procs@,
        judged@.len() == procs@.len(),
        forall|i: int| 0 <= i < procs@.len() ==> (#[trigger] judged@[i]).of(procs@[i], w.rules),
    ensures
        r == runs_in(w, unit@, name@),
{
    let mut j: usize = 0;
    while j < procs.len()
        invariant
            j <= procs.len(),
            w.procs == procs@,
            judged@.len() == procs@.len(),
            forall|i: int|
                0 <= i < procs@.len() ==> (#[trigger] judged@[i]).of(procs@[i], w.rules),
            forall|k: int| 0 <= k < j ==> !#[trigger] is_named_member(w, k, unit@, name@),
        decreases procs.len() - j,
    {
        let g = &judged[j];
        assert(judged@[j as int].of(procs@[j as int], w.rules));
        let here = match &g.unit {
            Some(u) => text::same_str(u.as_str(), unit),
            None => false,
        };
        if here && !g.unit_flags.lying() && text::same_str_folded(
            classify::name_ref(&procs[j]),
            name,
        ) {
            assert(is_named_member(w, j as int, unit@, name@));
            return true;
        }
        assert(!is_named_member(w, j as int, unit@, name@));
        j += 1;
    }
    false
}

fn find_scope_app(
    procs: &Vec<Process>,
    judged: &Vec<Judged>,
    unit: &str,
    Ghost(w): Ghost<World>,
) -> (r: Option<String>)
    requires
        w.procs == procs@,
        judged@.len() == procs@.len(),
        forall|i: int| 0 <= i < procs@.len() ==> (#[trigger] judged@[i]).of(procs@[i], w.rules),
    ensures
        text::opt_text(r) == app_of_scope(w, unit@),
{
    match identity::app_scope_names(unit) {
        Some((full, short)) => {
            if has_member(procs, judged, unit, full.as_str(), Ghost(w)) {
                return Some(full);
            }
            match short {
                Some(s) => if has_member(procs, judged, unit, s.as_str(), Ghost(w)) {
                    Some(s)
                } else {
                    None
                },
                None => None,
            }
        },
        None => None,
    }
}

/// The scope's application for every process, each scope looked into once.
fn scopes_all(procs: &Vec<Process>, judged: &Vec<Judged>, Ghost(w): Ghost<World>) -> (r: Vec<
    Option<String>,
>)
    requires
        w.procs == procs@,
        judged@.len() == procs@.len(),
        forall|i: int| 0 <= i < procs@.len() ==> (#[trigger] judged@[i]).of(procs@[i], w.rules),
    ensures
        r@.len() == procs@.len(),
        forall|i: int|
            0 <= i < procs@.len() ==> text::opt_text(#[trigger] r@[i]) == scope_app(w, procs@[i]),
{
    let mut out: Vec<Option<String>> = Vec::new();
    let mut known: Vec<(String, Option<String>)> = Vec::new();
    let mut i: usize = 0;
    while i < procs.len()
        invariant
            i <= procs.len(),
            w.procs == procs@,
            judged@.len() == procs@.len(),
            forall|j: int|
                0 <= j < procs@.len() ==> (#[trigger] judged@[j]).of(procs@[j], w.rules),
            out@.len() == i,
            forall|j: int|
                0 <= j < i ==> text::opt_text(#[trigger] out@[j]) == scope_app(w, procs@[j]),
            forall|k: int|
                0 <= k < known@.len() ==> text::opt_text((#[trigger] known@[k]).1) == app_of_scope(
                    w,
                    known@[k].0@,
                ),
        decreases procs.len() - i,
    {
        assert(judged@[i as int].of(procs@[i as int], w.rules));
        let app = match &judged[i].unit {
            None => None,
            Some(unit) => {
                let mut k: usize = 0;
                while k < known.len() && !text::same_str(known[k].0.as_str(), unit.as_str())
                    invariant
                        k <= known.len(),
                    decreases known.len() - k,
                {
                    k += 1;
                }
                if k < known.len() {
                    text::opt_clone(&known[k].1)
                } else {
                    let app = find_scope_app(procs, judged, unit.as_str(), Ghost(w));
                    if app.is_some() || text::str_prefixed(unit.as_str(), "app-") {
                        known.push((unit.clone(), text::opt_clone(&app)));
                    }
                    app
                }
            },
        };
        out.push(app);
        i += 1;
    }
    out
}

impl<'a> Ctx<'a> {
    pub fn new(containers: &'a ContainerIndex, rules: &'a Rules, procs: &'a Vec<Process>) -> (r:
        Self)
        requires
            by_pid(procs@),
            rules.wf(),
        ensures
            r.wf(),
            r.world() == (World { procs: procs@, rules: *rules, containers: containers@ }),
    {
        let judged = judge_all(procs, rules);
        let children = children_all(procs);
        let ghost w = World { procs: procs@, rules: *rules, containers: containers@ };
        let scope = scopes_all(procs, &judged, Ghost(w));
        Ctx { containers, rules, procs, judged, children, scope }
    }
}

} // verus!
