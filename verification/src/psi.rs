//! Pressure: how much of an interval the tasks of a control group spent
//! waiting for a resource, billed to the rows that are control groups.
use vstd::prelude::*;

use crate::table::Table;
use crate::types::{
    HostTree, IdentNode, InstanceNode, MemberContainer, Metrics, ProcNode, Process, UserNode,
    Weight,
};
use crate::{group, net, proc, text};

pub mod billed;
pub mod files;
pub mod laws;

verus! {

// ---------------------------------------------------------------------------
// Reading
// ---------------------------------------------------------------------------

/// The control group on a line of the unified hierarchy, from line `i` on.
pub open spec fn unified_from(lines: Seq<Seq<char>>, i: int) -> Option<Seq<char>>
    decreases lines.len() - i,
{
    if i < 0 || i >= lines.len() {
        None
    } else if text::has_prefix(lines[i], "0::"@) {
        Some(text::rest_from(lines[i], "0::"@.len() as int))
    } else {
        unified_from(lines, i + 1)
    }
}

/// The path of a process's control group: none for the root, whose pressure is
/// the machine's.
pub open spec fn path_of(cgroup: Seq<char>) -> Option<Seq<char>> {
    match unified_from(text::lines_of(cgroup), 0) {
        Some(p) => if p != "/"@ && p.len() > 0 && p[0] == '/' {
            Some(p)
        } else {
            None
        },
        None => None,
    }
}

/// The path of a process's control group.
pub fn cgroup_path(cgroup: &str) -> (r: Option<String>)
    ensures
        text::opt_text(r) == path_of(cgroup@),
{
    let lines = text::split_lines(text::chars_of(cgroup).as_slice());
    let ghost all = text::lines_of(cgroup@);
    let key = text::chars_of("0::");
    let mut i: usize = 0;
    assert(text::views(lines@).len() == lines@.len());
    while i < lines.len()
        invariant
            i <= lines@.len(),
            all == text::views(lines@),
            all == text::lines_of(cgroup@),
            key@ == "0::"@,
            unified_from(all, 0) == unified_from(all, i as int),
        decreases lines.len() - i,
    {
        assert(all[i as int] == lines@[i as int]@);
        let line = lines[i].as_slice();
        if text::prefixed(line, key.as_slice()) {
            let p = text::cut(line, key.len(), line.len());
            assert(p@ =~= text::rest_from(line@, "0::"@.len() as int));
            if p.len() > 0 && p[0] == '/' && !text::same(
                p.as_slice(),
                text::chars_of("/").as_slice(),
            ) {
                return Some(text::string_of(p.as_slice()));
            }
            return None;
        }
        i += 1;
    }
    None
}

/// The first of some words, from `i` on, that starts with a key; what follows
/// the key.
pub open spec fn word_from(words: Seq<Seq<char>>, key: Seq<char>, i: int) -> Option<Seq<char>>
    decreases words.len() - i,
{
    if i < 0 || i >= words.len() {
        None
    } else if text::has_prefix(words[i], key) {
        Some(text::rest_from(words[i], key.len() as int))
    } else {
        word_from(words, key, i + 1)
    }
}

/// What a pressure file says under a key of the time in which some task waited.
pub open spec fn some_value(t: Seq<char>, key: Seq<char>) -> Option<Seq<char>> {
    match proc::line_from(text::lines_of(t), "some "@, 0) {
        Some(line) => word_from(text::words(line), key, 0),
        None => None,
    }
}

pub fn parse_some(t: &str, key: &str) -> (r: Option<String>)
    ensures
        text::opt_text(r) == some_value(t@, key@),
{
    let lines = text::split_lines(text::chars_of(t).as_slice());
    let line = match proc::find_line(&lines, text::chars_of("some ").as_slice()) {
        Some(i) => lines[i].as_slice(),
        None => {
            return None;
        },
    };
    let w = text::split_words(line);
    let ghost wv = text::words(line@);
    assert(text::views(w@).len() == w@.len());
    let k = text::chars_of(key);
    let mut i: usize = 0;
    while i < w.len()
        invariant
            i <= w@.len(),
            wv == text::views(w@),
            k@ == key@,
            some_value(t@, key@) == word_from(wv, key@, i as int),
        decreases w.len() - i,
    {
        assert(wv[i as int] == w@[i as int]@);
        let word = w[i].as_slice();
        if text::prefixed(word, k.as_slice()) {
            let rest = text::cut(word, k.len(), word.len());
            assert(rest@ =~= text::rest_from(word@, key@.len() as int));
            return Some(text::string_of(rest.as_slice()));
        }
        i += 1;
    }
    None
}

/// Microseconds that some task of a control group has waited so far.
#[derive(Clone, Copy, Debug, PartialEq, Eq, Structural)]
pub struct Totals {
    pub cpu: u64,
    pub io: u64,
    pub mem: u64,
}

/// Microseconds that some task waited within one interval.
#[derive(Clone, Copy, Debug, PartialEq, Eq, Structural)]
pub struct Stall {
    pub cpu: u64,
    pub io: u64,
    pub mem: u64,
}

pub open spec fn total_of(t: Option<Seq<char>>) -> Option<u64> {
    match t {
        Some(s) => match some_value(s, "total="@) {
            Some(v) => proc::number64(v),
            None => None,
        },
        None => None,
    }
}

/// The totals of a control group: all three or none.
pub open spec fn totals_of(
    cpu: Option<Seq<char>>,
    io: Option<Seq<char>>,
    mem: Option<Seq<char>>,
) -> Option<Totals> {
    match (total_of(cpu), total_of(io), total_of(mem)) {
        (Some(cpu), Some(io), Some(mem)) => Some(Totals { cpu, io, mem }),
        _ => None,
    }
}

fn total(t: &Option<String>) -> (r: Option<u64>)
    ensures
        r == total_of(text::opt_text(*t)),
{
    match t {
        Some(s) => match parse_some(s.as_str(), "total=") {
            Some(v) => proc::parse_u64(text::chars_of(v.as_str()).as_slice()),
            None => None,
        },
        None => None,
    }
}

/// What a control group waited between two samples. Nothing is known of an
/// interval in which a counter went back: the group was made anew.
pub open spec fn stall_between(prev: Option<Totals>, cur: Totals, elapsed: u64) -> Option<Stall> {
    match prev {
        Some(p) => if cur.cpu < p.cpu || cur.io < p.io || cur.mem < p.mem || elapsed == 0 {
            None
        } else {
            Some(
                Stall {
                    cpu: (cur.cpu - p.cpu) as u64,
                    io: (cur.io - p.io) as u64,
                    mem: (cur.mem - p.mem) as u64,
                },
            )
        },
        None => None,
    }
}

pub fn delta(prev: Option<&Totals>, cur: Totals, elapsed: u64) -> (r: Option<Stall>)
    ensures
        r == stall_between(
            match prev {
                Some(p) => Some(*p),
                None => None,
            },
            cur,
            elapsed,
        ),
{
    match prev {
        Some(p) => if cur.cpu < p.cpu || cur.io < p.io || cur.mem < p.mem || elapsed == 0 {
            None
        } else {
            Some(Stall { cpu: cur.cpu - p.cpu, io: cur.io - p.io, mem: cur.mem - p.mem })
        },
        None => None,
    }
}

/// The one process of a control group, from the list of its processes.
pub open spec fn lone_pid(t: Seq<char>) -> Option<u32> {
    let w = text::words(t);
    if w.len() == 1 {
        proc::number32(w[0])
    } else {
        None
    }
}

pub fn parse_sole(t: &str) -> (r: Option<u32>)
    ensures
        r == lone_pid(t@),
{
    let w = text::split_words(text::chars_of(t).as_slice());
    assert(text::views(w@).len() == w@.len());
    if w.len() == 1 {
        assert(text::views(w@)[0] == w@[0]@);
        match text::parse_number(w[0].as_slice(), u32::MAX as u64) {
            Some(n) => Some(n as u32),
            None => None,
        }
    } else {
        None
    }
}

// ---------------------------------------------------------------------------
// One tick
// ---------------------------------------------------------------------------

/// The control groups of the first `n` processes, each once.
pub open spec fn paths_upto(procs: Seq<Process>, n: int) -> Seq<Seq<char>>
    decreases n,
{
    if n <= 0 {
        Seq::empty()
    } else {
        let before = paths_upto(procs, n - 1);
        match path_of(procs[n - 1].cgroup@) {
            Some(p) => if before.contains(p) {
                before
            } else {
                before.push(p)
            },
            None => before,
        }
    }
}

/// The control groups whose pressure is to be read.
pub fn cgroup_paths(procs: &Vec<Process>) -> (r: Vec<String>)
    ensures
        text::texts(r@) == paths_upto(procs@, procs@.len() as int),
{
    let mut out: Vec<String> = Vec::new();
    let mut i: usize = 0;
    assert(text::texts(out@) =~= Seq::<Seq<char>>::empty());
    while i < procs.len()
        invariant
            i <= procs@.len(),
            text::texts(out@) == paths_upto(procs@, i as int),
        decreases procs.len() - i,
    {
        if let Some(p) = cgroup_path(procs[i].cgroup.as_str()) {
            if !text::among(&out, p.as_str()) {
                let ghost before = text::texts(out@);
                let ghost pv = p@;
                out.push(p);
                assert(text::texts(out@) =~= before.push(pv));
            }
        }
        i += 1;
    }
    out
}

/// The totals of the last tick, by control group.
#[derive(Debug)]
pub struct Sampler {
    pub prev: Table<Totals>,
}

/// The pressure files of one control group, as far as they could be read.
#[derive(Debug)]
pub struct Pressure {
    pub cpu: Option<String>,
    pub io: Option<String>,
    pub mem: Option<String>,
}

impl Pressure {
    pub open spec fn totals(self) -> Option<Totals> {
        totals_of(text::opt_text(self.cpu), text::opt_text(self.io), text::opt_text(self.mem))
    }

    fn read(&self) -> (r: Option<Totals>)
        ensures
            r == self.totals(),
    {
        match (total(&self.cpu), total(&self.io), total(&self.mem)) {
            (Some(cpu), Some(io), Some(mem)) => Some(Totals { cpu, io, mem }),
            _ => None,
        }
    }
}

/// The totals of the first `n` control groups that could be read.
pub open spec fn totals_upto(paths: Seq<Seq<char>>, files: Seq<Pressure>, n: int) -> Map<
    Seq<char>,
    Totals,
>
    decreases n,
{
    if n <= 0 {
        Map::empty()
    } else {
        let before = totals_upto(paths, files, n - 1);
        match files[n - 1].totals() {
            Some(t) => before.insert(paths[n - 1], t),
            None => before,
        }
    }
}

/// What the first `n` control groups waited since the totals before.
pub open spec fn stalls_upto(
    prev: Map<Seq<char>, Totals>,
    paths: Seq<Seq<char>>,
    files: Seq<Pressure>,
    elapsed: u64,
    n: int,
) -> Map<Seq<char>, Stall>
    decreases n,
{
    if n <= 0 {
        Map::empty()
    } else {
        let before = stalls_upto(prev, paths, files, elapsed, n - 1);
        match files[n - 1].totals() {
            Some(t) => match stall_between(net::opt_at(prev, paths[n - 1]), t, elapsed) {
                Some(s) => before.insert(paths[n - 1], s),
                None => before,
            },
            None => before,
        }
    }
}

impl Sampler {
    pub fn new() -> (r: Self)
        ensures
            r.prev@ == Map::<Seq<char>, Totals>::empty(),
    {
        Sampler { prev: Table::new() }
    }

    /// What each control group waited in the interval that ends now, `elapsed`
    /// nanoseconds long.
    pub fn tick(&mut self, paths: &Vec<String>, files: &Vec<Pressure>, elapsed: u64) -> (r: Stalls)
        requires
            files@.len() == paths@.len(),
        ensures
            final(self).prev@ == totals_upto(text::texts(paths@), files@, paths@.len() as int),
            r.rates@ == stalls_upto(
                old(self).prev@,
                text::texts(paths@),
                files@,
                elapsed,
                paths@.len() as int,
            ),
    {
        let ghost prev = self.prev@;
        let ghost ps = text::texts(paths@);
        let mut curr: Table<Totals> = Table::new();
        let mut rates: Table<Stall> = Table::new();
        let mut i: usize = 0;
        while i < paths.len()
            invariant
                i <= paths@.len(),
                files@.len() == paths@.len(),
                ps == text::texts(paths@),
                prev == self.prev@,
                curr@ == totals_upto(ps, files@, i as int),
                rates@ == stalls_upto(prev, ps, files@, elapsed, i as int),
            decreases paths.len() - i,
        {
            assert(ps[i as int] == paths@[i as int]@);
            if let Some(t) = files[i].read() {
                let path = paths[i].as_str();
                if let Some(s) = delta(self.prev.get(path), t, elapsed) {
                    rates.insert(path.to_owned(), s);
                }
                curr.insert(path.to_owned(), t);
            }
            i += 1;
        }
        self.prev = curr;
        Stalls { rates }
    }
}

/// What the control groups of an interval waited.
#[derive(Debug)]
pub struct Stalls {
    pub rates: Table<Stall>,
}

// ---------------------------------------------------------------------------
// What a row waited
// ---------------------------------------------------------------------------

/// The control group of the process with a pid.
pub open spec fn path_of_pid(procs: Seq<Process>, pid: u32) -> Option<Seq<char>> {
    match group::at_pid(procs, pid) {
        Some(i) => path_of(procs[i].cgroup@),
        None => None,
    }
}

pub open spec fn larger(a: u64, b: u64) -> u64 {
    if a < b {
        b
    } else {
        a
    }
}

/// The worst of two, resource by resource.
pub open spec fn worst(a: Option<Stall>, b: Option<Stall>) -> Option<Stall> {
    match (a, b) {
        (Some(x), Some(y)) => Some(
            Stall {
                cpu: larger(x.cpu, y.cpu),
                io: larger(x.io, y.io),
                mem: larger(x.mem, y.mem),
            },
        ),
        (Some(x), None) => Some(x),
        (None, y) => y,
    }
}

/// The worst that the control groups of the first `n` processes waited; nothing
/// where one of them is in none.
pub open spec fn worst_upto(
    rates: Map<Seq<char>, Stall>,
    procs: Seq<Process>,
    pids: Seq<u32>,
    n: int,
) -> Option<Stall>
    decreases n,
{
    if n <= 0 {
        None
    } else {
        worst(
            worst_upto(rates, procs, pids, n - 1),
            match path_of_pid(procs, pids[n - 1]) {
                Some(p) => net::opt_at(rates, p),
                None => None,
            },
        )
    }
}

pub open spec fn all_grouped(procs: Seq<Process>, pids: Seq<u32>, n: int) -> bool {
    forall|k: int| 0 <= k < n ==> path_of_pid(procs, #[trigger] pids[k]) is Some
}

/// What a row of these processes waited: the worst of its control groups, and
/// nothing where a process is in none of its own.
pub open spec fn row_stall(
    rates: Map<Seq<char>, Stall>,
    procs: Seq<Process>,
    pids: Seq<u32>,
) -> Option<Stall> {
    if all_grouped(procs, pids, pids.len() as int) {
        worst_upto(rates, procs, pids, pids.len() as int)
    } else {
        None
    }
}

/// The processes of nodes, each before those under it.
pub open spec fn pids_of(nodes: Seq<ProcNode>) -> Seq<u32>
    decreases nodes,
{
    if nodes.len() == 0 {
        Seq::empty()
    } else {
        pids_of(nodes.drop_last()) + (seq![nodes.last().pid] + pids_of(nodes.last().children@))
    }
}

/// A weight with what a control group waited, where that is known.
pub open spec fn with_stall(w: Weight, s: Option<Stall>) -> Weight {
    match s {
        Some(x) => Weight {
            cpu_stall: Some(x.cpu),
            io_stall: Some(x.io),
            mem_stall: Some(x.mem),
            ..w
        },
        None => w,
    }
}

/// How many of the first `n` processes are in a control group.
pub open spec fn seen_upto(procs: Seq<Process>, path: Seq<char>, n: int) -> nat
    decreases n,
{
    if n <= 0 {
        0
    } else {
        seen_upto(procs, path, n - 1) + if path_of(procs[n - 1].cgroup@) == Some(path) {
            1nat
        } else {
            0
        }
    }
}

/// What a process waited: known only where its control group holds it alone,
/// by the walk and by the group's own list.
pub open spec fn process_stall(
    rates: Map<Seq<char>, Stall>,
    procs: Seq<Process>,
    sole: Map<Seq<char>, u32>,
    pid: u32,
) -> Option<Stall> {
    match path_of_pid(procs, pid) {
        Some(p) => if seen_upto(procs, p, procs.len() as int) == 1 && net::opt_at(sole, p) == Some(
            pid,
        ) {
            net::opt_at(rates, p)
        } else {
            None
        },
        None => None,
    }
}

// ---------------------------------------------------------------------------
// Billing
// ---------------------------------------------------------------------------

/// A node and those under it with what each waited, and nothing else changed.
pub open spec fn billed_node(
    a: ProcNode,
    b: ProcNode,
    rates: Map<Seq<char>, Stall>,
    procs: Seq<Process>,
    sole: Map<Seq<char>, u32>,
) -> bool
    decreases a,
{
    &&& b.pid == a.pid && b.name == a.name && b.cmdline == a.cmdline
    &&& b.metrics@ == with_stall(a.metrics@, process_stall(rates, procs, sole, a.pid))
    &&& b.children@.len() == a.children@.len()
    &&& forall|k: int|
        0 <= k < a.children@.len() ==> billed_node(
            a.children@[k],
            #[trigger] b.children@[k],
            rates,
            procs,
            sole,
        )
}

pub open spec fn billed_nodes(
    a: Seq<ProcNode>,
    b: Seq<ProcNode>,
    rates: Map<Seq<char>, Stall>,
    procs: Seq<Process>,
    sole: Map<Seq<char>, u32>,
) -> bool {
    &&& b.len() == a.len()
    &&& forall|k: int|
        0 <= k < a.len() ==> billed_node(a[k], #[trigger] b[k], rates, procs, sole)
}

pub open spec fn billed_instance(
    a: InstanceNode,
    b: InstanceNode,
    rates: Map<Seq<char>, Stall>,
    procs: Seq<Process>,
    sole: Map<Seq<char>, u32>,
) -> bool {
    &&& b.key == a.key && b.nproc == a.nproc
    &&& b.metrics@ == with_stall(a.metrics@, row_stall(rates, procs, pids_of(a.processes@)))
    &&& billed_nodes(a.processes@, b.processes@, rates, procs, sole)
}

pub open spec fn billed_member(
    a: MemberContainer,
    b: MemberContainer,
    rates: Map<Seq<char>, Stall>,
    procs: Seq<Process>,
    sole: Map<Seq<char>, u32>,
) -> bool {
    &&& b.id == a.id && b.title == a.title && b.nproc == a.nproc
    &&& b.metrics@ == with_stall(a.metrics@, row_stall(rates, procs, pids_of(a.processes@)))
    &&& billed_nodes(a.processes@, b.processes@, rates, procs, sole)
}

/// The processes of the first `n` instances.
pub open spec fn instance_pids(v: Seq<InstanceNode>, n: int) -> Seq<u32>
    decreases n,
{
    if n <= 0 {
        Seq::empty()
    } else {
        instance_pids(v, n - 1) + pids_of(v[n - 1].processes@)
    }
}

/// A row with what it waited, its instances, containers and processes too, and
/// nothing else changed.
pub open spec fn billed_row(
    a: IdentNode,
    b: IdentNode,
    rates: Map<Seq<char>, Stall>,
    procs: Seq<Process>,
    sole: Map<Seq<char>, u32>,
) -> bool {
    &&& b.id == a.id && b.title == a.title && b.nproc == a.nproc
    &&& b.metrics@ == with_stall(
        a.metrics@,
        row_stall(rates, procs, instance_pids(a.instances@, a.instances@.len() as int)),
    )
    &&& b.instances@.len() == a.instances@.len()
    &&& forall|k: int|
        0 <= k < a.instances@.len() ==> billed_instance(
            a.instances@[k],
            #[trigger] b.instances@[k],
            rates,
            procs,
            sole,
        )
    &&& b.containers@.len() == a.containers@.len()
    &&& forall|k: int|
        0 <= k < a.containers@.len() ==> billed_member(
            a.containers@[k],
            #[trigger] b.containers@[k],
            rates,
            procs,
            sole,
        )
}

pub open spec fn billed_rows(
    a: Seq<IdentNode>,
    b: Seq<IdentNode>,
    rates: Map<Seq<char>, Stall>,
    procs: Seq<Process>,
    sole: Map<Seq<char>, u32>,
) -> bool {
    &&& b.len() == a.len()
    &&& forall|k: int| 0 <= k < a.len() ==> billed_row(a[k], #[trigger] b[k], rates, procs, sole)
}

pub open spec fn billed_user(
    a: UserNode,
    b: UserNode,
    rates: Map<Seq<char>, Stall>,
    procs: Seq<Process>,
    sole: Map<Seq<char>, u32>,
) -> bool {
    &&& b.uid == a.uid && b.name == a.name
    &&& billed_rows(a.applications@, b.applications@, rates, procs, sole)
    &&& billed_rows(a.user_services@, b.user_services@, rates, procs, sole)
    &&& billed_rows(a.containers@, b.containers@, rates, procs, sole)
}

fn pid_path(procs: &Vec<Process>, pid: u32) -> (r: Option<String>)
    requires
        group::by_pid(procs@),
    ensures
        text::opt_text(r) == path_of_pid(procs@, pid),
{
    match group::find_pid(procs, pid) {
        Some(i) => cgroup_path(procs[i].cgroup.as_str()),
        None => None,
    }
}

fn max_stall(a: Option<Stall>, b: Option<&Stall>) -> (r: Option<Stall>)
    ensures
        r == worst(
            a,
            match b {
                Some(y) => Some(*y),
                None => None,
            },
        ),
{
    match (a, b) {
        (Some(x), Some(y)) => {
            let cpu: u64 = if x.cpu < y.cpu {
                y.cpu
            } else {
                x.cpu
            };
            let io: u64 = if x.io < y.io {
                y.io
            } else {
                x.io
            };
            let mem: u64 = if x.mem < y.mem {
                y.mem
            } else {
                x.mem
            };
            Some(Stall { cpu, io, mem })
        },
        (Some(x), None) => Some(x),
        (None, Some(y)) => Some(*y),
        (None, None) => None,
    }
}

fn write_stall(m: &mut Metrics, s: Option<Stall>)
    ensures
        final(m)@ == with_stall(old(m)@, s),
{
    if let Some(x) = s {
        m.cpu_stall = Some(x.cpu);
        m.io_stall = Some(x.io);
        m.mem_stall = Some(x.mem);
    }
}

fn push_pids(nodes: &Vec<ProcNode>, out: &mut Vec<u32>)
    ensures
        final(out)@ == old(out)@ + pids_of(nodes@),
    decreases nodes,
{
    let ghost start = out@;
    let mut k: usize = 0;
    assert(nodes@.take(0) =~= Seq::<ProcNode>::empty());
    assert(start + Seq::<u32>::empty() =~= start);
    #[verifier::loop_isolation(false)]
    while k < nodes.len()
        invariant
            k <= nodes@.len(),
            out@ == start + pids_of(nodes@.take(k as int)),
        decreases nodes.len() - k,
    {
        let ghost before = out@;
        let ghost head = nodes@.take(k as int);
        let n = &nodes[k];
        out.push(n.pid);
        assert(decreases_to!(nodes => nodes@[k as int].children));
        push_pids(&n.children, out);
        proof {
            let all = nodes@.take(k + 1);
            assert(all.drop_last() =~= head);
            assert(all.last() == nodes@[k as int]);
            assert(out@ =~= start + (pids_of(head) + (seq![n.pid] + pids_of(n.children@))));
        }
        k += 1;
    }
    assert(nodes@.take(k as int) =~= nodes@);
}

impl Stalls {
    fn stall_of(&self, procs: &Vec<Process>, pids: &Vec<u32>) -> (r: Option<Stall>)
        requires
            group::by_pid(procs@),
        ensures
            r == row_stall(self.rates@, procs@, pids@),
    {
        let mut acc: Option<Stall> = None;
        let mut k: usize = 0;
        while k < pids.len()
            invariant
                k <= pids@.len(),
                group::by_pid(procs@),
                all_grouped(procs@, pids@, k as int),
                acc == worst_upto(self.rates@, procs@, pids@, k as int),
            decreases pids.len() - k,
        {
            match pid_path(procs, pids[k]) {
                Some(p) => {
                    acc = max_stall(acc, self.rates.get(p.as_str()));
                },
                None => {
                    assert(path_of_pid(procs@, pids@[k as int]) is None);
                    return None;
                },
            }
            k += 1;
        }
        acc
    }

    fn own_stall(&self, procs: &Vec<Process>, sole: &Table<u32>, pid: u32) -> (r: Option<Stall>)
        requires
            group::by_pid(procs@),
        ensures
            r == process_stall(self.rates@, procs@, sole@, pid),
    {
        let path = match pid_path(procs, pid) {
            Some(p) => p,
            None => {
                return None;
            },
        };
        let alone = match sole.get(path.as_str()) {
            Some(x) => *x == pid,
            None => false,
        };
        if alone && seen_once(procs, path.as_str()) {
            match self.rates.get(path.as_str()) {
                Some(s) => Some(*s),
                None => None,
            }
        } else {
            None
        }
    }

    fn bill_node(&self, node: &mut ProcNode, procs: &Vec<Process>, sole: &Table<u32>)
        requires
            group::by_pid(procs@),
        ensures
            billed_node(*old(node), *final(node), self.rates@, procs@, sole@),
        decreases *old(node),
    {
        let ghost start = node.children@;
        write_stall(&mut node.metrics, self.own_stall(procs, sole, node.pid));
        let mut k: usize = 0;
        #[verifier::loop_isolation(false)]
        while k < node.children.len()
            invariant
                k <= node.children@.len(),
                node.pid == old(node).pid && node.name == old(node).name && node.cmdline
                    == old(node).cmdline,
                node.metrics@ == with_stall(
                    old(node).metrics@,
                    process_stall(self.rates@, procs@, sole@, old(node).pid),
                ),
                node.children@.len() == start.len(),
                forall|j: int|
                    0 <= j < k ==> billed_node(
                        start[j],
                        #[trigger] node.children@[j],
                        self.rates@,
                        procs@,
                        sole@,
                    ),
                forall|j: int| k <= j < start.len() ==> node.children@[j] == start[j],
            decreases node.children.len() - k,
        {
            assert(node.children@[k as int] == old(node).children@[k as int]);
            self.bill_node(&mut node.children[k], procs, sole);
            k += 1;
        }
    }

    fn bill_nodes(&self, nodes: &mut Vec<ProcNode>, procs: &Vec<Process>, sole: &Table<u32>)
        requires
            group::by_pid(procs@),
        ensures
            billed_nodes(old(nodes)@, final(nodes)@, self.rates@, procs@, sole@),
    {
        let ghost start = nodes@;
        let mut k: usize = 0;
        while k < nodes.len()
            invariant
                k <= nodes@.len(),
                start == old(nodes)@,
                group::by_pid(procs@),
                nodes@.len() == start.len(),
                forall|j: int|
                    0 <= j < k ==> billed_node(
                        start[j],
                        #[trigger] nodes@[j],
                        self.rates@,
                        procs@,
                        sole@,
                    ),
                forall|j: int| k <= j < start.len() ==> nodes@[j] == start[j],
            decreases nodes.len() - k,
        {
            self.bill_node(&mut nodes[k], procs, sole);
            k += 1;
        }
    }

    fn bill_instance(&self, n: &mut InstanceNode, procs: &Vec<Process>, sole: &Table<u32>)
        requires
            group::by_pid(procs@),
        ensures
            billed_instance(*old(n), *final(n), self.rates@, procs@, sole@),
    {
        let mut pids: Vec<u32> = Vec::new();
        push_pids(&n.processes, &mut pids);
        assert(pids@ =~= pids_of(n.processes@));
        write_stall(&mut n.metrics, self.stall_of(procs, &pids));
        self.bill_nodes(&mut n.processes, procs, sole);
    }

    fn bill_member(&self, n: &mut MemberContainer, procs: &Vec<Process>, sole: &Table<u32>)
        requires
            group::by_pid(procs@),
        ensures
            billed_member(*old(n), *final(n), self.rates@, procs@, sole@),
    {
        let mut pids: Vec<u32> = Vec::new();
        push_pids(&n.processes, &mut pids);
        assert(pids@ =~= pids_of(n.processes@));
        write_stall(&mut n.metrics, self.stall_of(procs, &pids));
        self.bill_nodes(&mut n.processes, procs, sole);
    }

    fn bill_row(&self, row: &mut IdentNode, procs: &Vec<Process>, sole: &Table<u32>)
        requires
            group::by_pid(procs@),
        ensures
            billed_row(*old(row), *final(row), self.rates@, procs@, sole@),
    {
        let ghost start = *row;
        let mut pids: Vec<u32> = Vec::new();
        let mut k: usize = 0;
        while k < row.instances.len()
            invariant
                k <= row.instances@.len(),
                *row == start,
                pids@ == instance_pids(start.instances@, k as int),
            decreases row.instances.len() - k,
        {
            push_pids(&row.instances[k].processes, &mut pids);
            k += 1;
        }
        write_stall(&mut row.metrics, self.stall_of(procs, &pids));
        let ghost weight = row.metrics@;
        let mut k: usize = 0;
        while k < row.instances.len()
            invariant
                k <= row.instances@.len(),
                group::by_pid(procs@),
                row.id == start.id && row.title == start.title && row.nproc == start.nproc,
                row.containers == start.containers,
                row.metrics@ == weight,
                row.instances@.len() == start.instances@.len(),
                forall|j: int|
                    0 <= j < k ==> billed_instance(
                        start.instances@[j],
                        #[trigger] row.instances@[j],
                        self.rates@,
                        procs@,
                        sole@,
                    ),
                forall|j: int|
                    k <= j < start.instances@.len() ==> row.instances@[j] == start.instances@[j],
            decreases row.instances.len() - k,
        {
            self.bill_instance(&mut row.instances[k], procs, sole);
            k += 1;
        }
        let ghost done = row.instances@;
        let mut k: usize = 0;
        while k < row.containers.len()
            invariant
                k <= row.containers@.len(),
                group::by_pid(procs@),
                row.id == start.id && row.title == start.title && row.nproc == start.nproc,
                row.instances@ == done,
                row.metrics@ == weight,
                row.containers@.len() == start.containers@.len(),
                forall|j: int|
                    0 <= j < k ==> billed_member(
                        start.containers@[j],
                        #[trigger] row.containers@[j],
                        self.rates@,
                        procs@,
                        sole@,
                    ),
                forall|j: int|
                    k <= j < start.containers@.len() ==> row.containers@[j] == start.containers@[j],
            decreases row.containers.len() - k,
        {
            self.bill_member(&mut row.containers[k], procs, sole);
            k += 1;
        }
    }

    fn bill(&self, rows: &mut Vec<IdentNode>, procs: &Vec<Process>, sole: &Table<u32>)
        requires
            group::by_pid(procs@),
        ensures
            billed_rows(old(rows)@, final(rows)@, self.rates@, procs@, sole@),
    {
        let ghost start = rows@;
        let mut k: usize = 0;
        while k < rows.len()
            invariant
                k <= rows@.len(),
                start == old(rows)@,
                group::by_pid(procs@),
                rows@.len() == start.len(),
                forall|j: int|
                    0 <= j < k ==> billed_row(
                        start[j],
                        #[trigger] rows@[j],
                        self.rates@,
                        procs@,
                        sole@,
                    ),
                forall|j: int| k <= j < start.len() ==> rows@[j] == start[j],
            decreases rows.len() - k,
        {
            self.bill_row(&mut rows[k], procs, sole);
            k += 1;
        }
    }

    /// Bills what each control group waited to the rows, containers and
    /// processes that are one; `sole` names the groups that hold one process
    /// and that process.
    pub fn apply(&self, tree: &mut HostTree, procs: &Vec<Process>, sole: &Table<u32>)
        requires
            group::by_pid(procs@),
        ensures
            final(tree).same_header(*old(tree)),
            billed_rows(
                old(tree).containers@,
                final(tree).containers@,
                self.rates@,
                procs@,
                sole@,
            ),
            billed_rows(old(tree).system@, final(tree).system@, self.rates@, procs@, sole@),
            final(tree).users@.len() == old(tree).users@.len(),
            forall|k: int|
                0 <= k < old(tree).users@.len() ==> billed_user(
                    old(tree).users@[k],
                    #[trigger] final(tree).users@[k],
                    self.rates@,
                    procs@,
                    sole@,
                ),
    {
        let ghost start = tree.users@;
        let mut k: usize = 0;
        while k < tree.users.len()
            invariant
                k <= tree.users@.len(),
                group::by_pid(procs@),
                start == old(tree).users@,
                tree.same_header(*old(tree)),
                tree.system == old(tree).system,
                tree.containers == old(tree).containers,
                tree.users@.len() == start.len(),
                forall|j: int|
                    0 <= j < k ==> billed_user(
                        start[j],
                        #[trigger] tree.users@[j],
                        self.rates@,
                        procs@,
                        sole@,
                    ),
                forall|j: int| k <= j < start.len() ==> tree.users@[j] == start[j],
            decreases tree.users.len() - k,
        {
            let u = &mut tree.users[k];
            self.bill(&mut u.applications, procs, sole);
            self.bill(&mut u.user_services, procs, sole);
            self.bill(&mut u.containers, procs, sole);
            k += 1;
        }
        self.bill(&mut tree.containers, procs, sole);
        self.bill(&mut tree.system, procs, sole);
    }
}

fn seen_once(procs: &Vec<Process>, path: &str) -> (r: bool)
    ensures
        r == (seen_upto(procs@, path@, procs@.len() as int) == 1),
{
    let mut n: usize = 0;
    let mut i: usize = 0;
    while i < procs.len()
        invariant
            i <= procs@.len(),
            n <= i,
            n == seen_upto(procs@, path@, i as int),
        decreases procs.len() - i,
    {
        if let Some(p) = cgroup_path(procs[i].cgroup.as_str()) {
            if text::same_str(p.as_str(), path) {
                n += 1;
            }
        }
        i += 1;
    }
    n == 1
}

/// Whether the list of a control group is worth reading: it can say that a
/// process is alone there only where the walk saw one.
pub fn is_solo(procs: &Vec<Process>, path: &str) -> (r: bool)
    ensures
        r == (seen_upto(procs@, path@, procs@.len() as int) == 1),
{
    seen_once(procs, path)
}

/// What the control group of process `k` waited.
pub open spec fn member_stall(
    rates: Map<Seq<char>, Stall>,
    procs: Seq<Process>,
    pids: Seq<u32>,
    k: int,
) -> Option<Stall> {
    match path_of_pid(procs, pids[k]) {
        Some(p) => net::opt_at(rates, p),
        None => None,
    }
}

/// A row shows, resource by resource, the worst that any of its control groups
/// waited: no less than each of them, and no more than one of them.
pub proof fn law_a_row_shows_its_worst_member(
    rates: Map<Seq<char>, Stall>,
    procs: Seq<Process>,
    pids: Seq<u32>,
    n: int,
)
    requires
        0 <= n <= pids.len(),
    ensures
        forall|k: int|
            0 <= k < n ==> (#[trigger] member_stall(rates, procs, pids, k) matches Some(x) ==> (
            worst_upto(rates, procs, pids, n) matches Some(s) && x.cpu <= s.cpu && x.io <= s.io
                && x.mem <= s.mem)),
        worst_upto(rates, procs, pids, n) matches Some(s) ==> {
            &&& exists|k: int|
                0 <= k < n && #[trigger] member_stall(rates, procs, pids, k) is Some
                    && member_stall(rates, procs, pids, k)->0.cpu == s.cpu
            &&& exists|k: int|
                0 <= k < n && #[trigger] member_stall(rates, procs, pids, k) is Some
                    && member_stall(rates, procs, pids, k)->0.io == s.io
            &&& exists|k: int|
                0 <= k < n && #[trigger] member_stall(rates, procs, pids, k) is Some
                    && member_stall(rates, procs, pids, k)->0.mem == s.mem
        },
    decreases n,
{
    if n > 0 {
        law_a_row_shows_its_worst_member(rates, procs, pids, n - 1);
        let here = member_stall(rates, procs, pids, n - 1);
        assert(worst_upto(rates, procs, pids, n) == worst(
            worst_upto(rates, procs, pids, n - 1),
            here,
        ));
    }
}

/// Nothing is known of a row with a process in no control group of its own.
pub proof fn law_the_root_group_is_no_row(
    rates: Map<Seq<char>, Stall>,
    procs: Seq<Process>,
    pids: Seq<u32>,
    k: int,
)
    requires
        0 <= k < pids.len(),
        path_of_pid(procs, pids[k]) is None,
    ensures
        row_stall(rates, procs, pids) is None,
{
}

/// The machine's averages as the kernel writes them, for the header. Nothing
/// else changes.
pub fn host_avg10(
    tree: &mut HostTree,
    cpu: &Option<String>,
    io: &Option<String>,
    mem: &Option<String>,
)
    ensures
        text::opt_text(final(tree).psi_cpu_avg10) == average(text::opt_text(*cpu)),
        text::opt_text(final(tree).psi_io_avg10) == average(text::opt_text(*io)),
        text::opt_text(final(tree).psi_mem_avg10) == average(text::opt_text(*mem)),
        *final(tree) == (HostTree {
            psi_cpu_avg10: final(tree).psi_cpu_avg10,
            psi_io_avg10: final(tree).psi_io_avg10,
            psi_mem_avg10: final(tree).psi_mem_avg10,
            ..*old(tree)
        }),
{
    tree.psi_cpu_avg10 = average_of(cpu);
    tree.psi_io_avg10 = average_of(io);
    tree.psi_mem_avg10 = average_of(mem);
}

/// The average of a pressure file.
pub open spec fn average(t: Option<Seq<char>>) -> Option<Seq<char>> {
    match t {
        Some(s) => some_value(s, "avg10="@),
        None => None,
    }
}

fn average_of(t: &Option<String>) -> (r: Option<String>)
    ensures
        text::opt_text(r) == average(text::opt_text(*t)),
{
    match t {
        Some(s) => parse_some(s.as_str(), "avg10="),
        None => None,
    }
}

} // verus!
