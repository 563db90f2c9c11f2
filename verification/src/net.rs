//! Network traffic of containers: a namespace's bytes, billed to the rows that
//! are that namespace and to no other.
use vstd::prelude::*;

use crate::containers::{ContainerIndex, IndexView, InfoView};
use crate::table::Table;
use crate::types::{HostTree, IdentNode, MemberContainer, Metrics, Process, UserNode, Weight};
use crate::{containers, identity, proc, text, types};

pub mod laws;

verus! {

/// The bytes through a network namespace so far, and the process they were
/// read through, so that a restart is not taken for a jump.
#[derive(Clone, Copy, Debug, PartialEq, Eq, Structural)]
pub struct Sample {
    pub pid: u32,
    pub rx: u64,
    pub tx: u64,
}

/// The bytes through a namespace within one interval.
#[derive(Clone, Copy, Debug, PartialEq, Eq, Structural)]
pub struct Flow {
    pub rx: u64,
    pub tx: u64,
}

// ---------------------------------------------------------------------------
// Reading a namespace
// ---------------------------------------------------------------------------

/// What a line of the device file counts: the bytes received and sent by an
/// interface other than the loop.
pub open spec fn line_flow(line: Seq<char>) -> Option<Flow> {
    match text::cut_first(line, ':') {
        Some((name, rest)) => {
            let w = text::words(rest);
            if text::trimmed(name) != "lo"@ && w.len() > 8 {
                match (proc::number64(w[0]), proc::number64(w[8])) {
                    (Some(rx), Some(tx)) => Some(Flow { rx, tx }),
                    _ => None,
                }
            } else {
                None
            }
        },
        None => None,
    }
}

pub open spec fn flow_plus(a: Flow, b: Flow) -> Flow {
    Flow { rx: types::capped(a.rx, b.rx), tx: types::capped(a.tx, b.tx) }
}

/// What the interfaces of the first `n` lines count together.
pub open spec fn flow_upto(lines: Seq<Seq<char>>, n: int) -> Flow
    decreases n,
{
    if n <= 0 {
        Flow { rx: 0, tx: 0 }
    } else {
        match line_flow(lines[n - 1]) {
            Some(f) => flow_plus(flow_upto(lines, n - 1), f),
            None => flow_upto(lines, n - 1),
        }
    }
}

pub open spec fn dev_flow(t: Seq<char>) -> Flow {
    let l = text::lines_of(t);
    flow_upto(l, l.len() as int)
}

fn parse_line(line: &[char]) -> (r: Option<Flow>)
    ensures
        r == line_flow(line@),
{
    let at: usize = text::index_of(line, ':', 0);
    if at >= line.len() {
        return None;
    }
    let name = text::trim(text::cut(line, 0, at).as_slice());
    if text::same(name.as_slice(), text::chars_of("lo").as_slice()) {
        return None;
    }
    let w = text::split_words(text::cut(line, at + 1, line.len()).as_slice());
    assert(text::views(w@).len() == w@.len());
    if w.len() <= 8 {
        return None;
    }
    assert(text::views(w@)[0] == w@[0]@ && text::views(w@)[8] == w@[8]@);
    match (proc::parse_u64(w[0].as_slice()), proc::parse_u64(w[8].as_slice())) {
        (Some(rx), Some(tx)) => Some(Flow { rx, tx }),
        _ => None,
    }
}

/// The bytes received and sent through a namespace, from its device file.
pub fn parse_dev(t: &str) -> (r: (u64, u64))
    ensures
        r == (dev_flow(t@).rx, dev_flow(t@).tx),
{
    let lines = text::split_lines(text::chars_of(t).as_slice());
    let ghost all = text::lines_of(t@);
    assert(text::views(lines@).len() == lines@.len());
    let mut rx: u64 = 0;
    let mut tx: u64 = 0;
    let mut i: usize = 0;
    while i < lines.len()
        invariant
            i <= lines@.len(),
            all == text::views(lines@),
            (Flow { rx, tx }) == flow_upto(all, i as int),
        decreases lines.len() - i,
    {
        assert(all[i as int] == lines@[i as int]@);
        if let Some(f) = parse_line(lines[i].as_slice()) {
            rx = rx.saturating_add(f.rx);
            tx = tx.saturating_add(f.tx);
        }
        i += 1;
    }
    (rx, tx)
}

/// What went through a namespace between two samples. Nothing is known of an
/// interval in which the process changed or a counter went back: the container
/// was started anew.
pub open spec fn flow_between(prev: Option<Sample>, cur: Sample) -> Option<Flow> {
    match prev {
        Some(p) => if p.pid != cur.pid || cur.rx < p.rx || cur.tx < p.tx {
            None
        } else {
            Some(Flow { rx: (cur.rx - p.rx) as u64, tx: (cur.tx - p.tx) as u64 })
        },
        None => None,
    }
}

pub fn delta(prev: Option<&Sample>, cur: Sample) -> (r: Option<Flow>)
    ensures
        r == flow_between(
            match prev {
                Some(p) => Some(*p),
                None => None,
            },
            cur,
        ),
{
    match prev {
        Some(p) => if p.pid != cur.pid || cur.rx < p.rx || cur.tx < p.tx {
            None
        } else {
            Some(Flow { rx: cur.rx - p.rx, tx: cur.tx - p.tx })
        },
        None => None,
    }
}

// ---------------------------------------------------------------------------
// Which process to read through
// ---------------------------------------------------------------------------

/// The container whose namespace a process is in: it is in the container's own
/// scope, and the container has a namespace of its own.
pub open spec fn namespace_of(idx: IndexView, p: Process) -> Option<Seq<char>> {
    match identity::container_scope(p.cgroup@) {
        Some(id) => match idx.find(id) {
            Some(info) => if info.own_netns {
                Some(info.id)
            } else {
                None
            },
            None => None,
        },
        None => None,
    }
}

/// The lowest pid in each namespace, among the first `n` processes.
pub open spec fn lowest_upto(idx: IndexView, procs: Seq<Process>, n: int) -> Map<Seq<char>, u32>
    decreases n,
{
    if n <= 0 {
        Map::empty()
    } else {
        let before = lowest_upto(idx, procs, n - 1);
        match namespace_of(idx, procs[n - 1]) {
            Some(id) => if before.dom().contains(id) && before[id] <= procs[n - 1].pid {
                before
            } else {
                before.insert(id, procs[n - 1].pid)
            },
            None => before,
        }
    }
}

/// The process that each container's namespace is read through.
pub fn netns_pids(idx: &ContainerIndex, procs: &Vec<Process>) -> (r: Table<u32>)
    ensures
        r@ == lowest_upto(idx@, procs@, procs@.len() as int),
{
    let mut out: Table<u32> = Table::new();
    let mut i: usize = 0;
    while i < procs.len()
        invariant
            i <= procs@.len(),
            out@ == lowest_upto(idx@, procs@, i as int),
        decreases procs.len() - i,
    {
        let p = &procs[i];
        if let Some(id) = identity::docker_scope_id(p.cgroup.as_str()) {
            if let Some(info) = idx.get(id.as_str()) {
                if info.own_netns {
                    let lower = match out.get(info.id.as_str()) {
                        Some(known) => *known > p.pid,
                        None => true,
                    };
                    if lower {
                        out.insert(info.id.clone(), p.pid);
                    }
                }
            }
        }
        i += 1;
    }
    out
}

/// A namespace is read through the lowest of the processes in it, and only
/// through one of them.
pub proof fn law_a_namespace_is_read_through_its_lowest_process(
    idx: IndexView,
    procs: Seq<Process>,
    n: int,
    id: Seq<char>,
)
    requires
        0 <= n <= procs.len(),
        lowest_upto(idx, procs, n).dom().contains(id),
    ensures
        exists|i: int|
            0 <= i < n && namespace_of(idx, #[trigger] procs[i]) == Some(id) && procs[i].pid
                == lowest_upto(idx, procs, n)[id],
        forall|i: int|
            0 <= i < n && namespace_of(idx, #[trigger] procs[i]) == Some(id) ==> lowest_upto(
                idx,
                procs,
                n,
            )[id] <= procs[i].pid,
    decreases n,
{
    if n > 0 {
        let before = lowest_upto(idx, procs, n - 1);
        if before.dom().contains(id) {
            law_a_namespace_is_read_through_its_lowest_process(idx, procs, n - 1, id);
        } else {
            assert forall|i: int|
                0 <= i < n - 1 implies namespace_of(idx, #[trigger] procs[i]) != Some(id) by {
                if namespace_of(idx, procs[i]) == Some(id) {
                    lemma_namespace_found(idx, procs, n - 1, i, id);
                }
            }
        }
        if namespace_of(idx, procs[n - 1]) == Some(id) {
            assert(procs[n - 1].pid >= lowest_upto(idx, procs, n)[id]);
        }
    }
}

proof fn lemma_namespace_found(idx: IndexView, procs: Seq<Process>, n: int, i: int, id: Seq<char>)
    requires
        0 <= i < n <= procs.len(),
        namespace_of(idx, procs[i]) == Some(id),
    ensures
        lowest_upto(idx, procs, n).dom().contains(id),
    decreases n,
{
    if i < n - 1 {
        lemma_namespace_found(idx, procs, n - 1, i, id);
    }
}

// ---------------------------------------------------------------------------
// One tick
// ---------------------------------------------------------------------------

/// What went through the namespaces of an interval: by row, and by container
/// within a row.
#[derive(Debug)]
pub struct Rates {
    pub by_ident: Table<Flow>,
    pub by_member: Table<Flow>,
}

impl Rates {
    pub fn new() -> (r: Self)
        ensures
            r.by_ident@ == Map::<Seq<char>, Flow>::empty(),
            r.by_member@ == Map::<Seq<char>, Flow>::empty(),
    {
        Rates { by_ident: Table::new(), by_member: Table::new() }
    }
}

/// The samples of the last tick, by container.
#[derive(Debug)]
pub struct Sampler {
    pub prev: Table<Sample>,
}

/// What a tick has gathered.
pub struct Gathered {
    pub samples: Map<Seq<char>, Sample>,
    pub by_ident: Map<Seq<char>, Flow>,
    pub by_member: Map<Seq<char>, Flow>,
}

pub open spec fn opt_at<V>(m: Map<Seq<char>, V>, k: Seq<char>) -> Option<V> {
    if m.dom().contains(k) {
        Some(m[k])
    } else {
        None
    }
}

/// A map with a flow added under a name.
pub open spec fn flow_added(m: Map<Seq<char>, Flow>, k: Seq<char>, f: Flow) -> Map<Seq<char>, Flow> {
    m.insert(
        k,
        match opt_at(m, k) {
            Some(g) => flow_plus(g, f),
            None => f,
        },
    )
}

/// What the reading of one namespace adds.
pub open spec fn gather(
    g: Gathered,
    prev: Map<Seq<char>, Sample>,
    info: InfoView,
    id: Seq<char>,
    cur: Sample,
) -> Gathered {
    let samples = g.samples.insert(id, cur);
    match flow_between(opt_at(prev, id), cur) {
        Some(f) => Gathered {
            samples,
            by_ident: flow_added(g.by_ident, info.ident_key, f),
            by_member: match info.member_name {
                Some(name) => flow_added(g.by_member, name, f),
                None => g.by_member,
            },
        },
        None => Gathered { samples, by_ident: g.by_ident, by_member: g.by_member },
    }
}

/// What the first `n` namespaces add up to: each was read through a process,
/// or could not be read.
pub open spec fn gathered_upto(
    idx: IndexView,
    prev: Map<Seq<char>, Sample>,
    pids: Seq<(String, u32)>,
    files: Seq<Option<Seq<char>>>,
    n: int,
) -> Gathered
    decreases n,
{
    if n <= 0 {
        Gathered { samples: Map::empty(), by_ident: Map::empty(), by_member: Map::empty() }
    } else {
        let before = gathered_upto(idx, prev, pids, files, n - 1);
        let id = pids[n - 1].0@;
        match (idx.find(id), files[n - 1]) {
            (Some(info), Some(file)) => gather(
                before,
                prev,
                info,
                id,
                Sample { pid: pids[n - 1].1, rx: dev_flow(file).rx, tx: dev_flow(file).tx },
            ),
            _ => before,
        }
    }
}

pub open spec fn opt_texts(v: Seq<Option<String>>) -> Seq<Option<Seq<char>>> {
    Seq::new(v.len(), |k: int| text::opt_text(v[k]))
}

fn add_flow(map: &mut Table<Flow>, key: &str, f: Flow)
    ensures
        final(map)@ == flow_added(old(map)@, key@, f),
{
    let sum = match map.get(key) {
        Some(g) => Flow { rx: g.rx.saturating_add(f.rx), tx: g.tx.saturating_add(f.tx) },
        None => f,
    };
    map.insert(key.to_owned(), sum);
}

impl Sampler {
    pub fn new() -> (r: Self)
        ensures
            r.prev@ == Map::<Seq<char>, Sample>::empty(),
    {
        Sampler { prev: Table::new() }
    }

    /// The flows of the interval that ends now. `files` holds the device file
    /// read through each process of `pids`, where it could be read.
    pub fn tick(&mut self, idx: &ContainerIndex, pids: &Table<u32>, files: &Vec<Option<String>>)
        -> (r: Rates)
        requires
            files@.len() == pids.entries@.len(),
        ensures
            ({
                let g = gathered_upto(
                    idx@,
                    old(self).prev@,
                    pids.entries@,
                    opt_texts(files@),
                    pids.entries@.len() as int,
                );
                &&& final(self).prev@ == g.samples
                &&& r.by_ident@ == g.by_ident
                &&& r.by_member@ == g.by_member
            }),
    {
        let ghost prev = self.prev@;
        let ghost fs = opt_texts(files@);
        let mut curr: Table<Sample> = Table::new();
        let mut rates = Rates::new();
        let mut i: usize = 0;
        while i < pids.entries.len()
            invariant
                i <= pids.entries@.len(),
                files@.len() == pids.entries@.len(),
                fs == opt_texts(files@),
                prev == self.prev@,
                ({
                    let g = gathered_upto(idx@, prev, pids.entries@, fs, i as int);
                    &&& curr@ == g.samples
                    &&& rates.by_ident@ == g.by_ident
                    &&& rates.by_member@ == g.by_member
                }),
            decreases pids.entries.len() - i,
        {
            let ghost before = gathered_upto(idx@, prev, pids.entries@, fs, i as int);
            assert(fs[i as int] == text::opt_text(files@[i as int]));
            let id = pids.entries[i].0.as_str();
            if let Some(info) = idx.get(id) {
                if let Some(file) = &files[i] {
                    let (rx, tx) = parse_dev(file.as_str());
                    let cur = Sample { pid: pids.entries[i].1, rx, tx };
                    let moved = delta(self.prev.get(id), cur);
                    curr.insert(id.to_owned(), cur);
                    if let Some(f) = moved {
                        add_flow(&mut rates.by_ident, info.ident_key.as_str(), f);
                        if let Some(name) = &info.member_name {
                            add_flow(&mut rates.by_member, name.as_str(), f);
                        }
                    }
                    assert(gathered_upto(idx@, prev, pids.entries@, fs, i + 1) == gather(
                        before,
                        prev,
                        info@,
                        id@,
                        cur,
                    ));
                }
            }
            i += 1;
        }
        self.prev = curr;
        rates
    }
}

// ---------------------------------------------------------------------------
// Billing
// ---------------------------------------------------------------------------

/// A weight with the flow of one namespace.
pub open spec fn with_flow(w: Weight, f: Option<Flow>) -> Weight {
    Weight {
        net_rx: match f {
            Some(x) => Some(x.rx),
            None => None,
        },
        net_tx: match f {
            Some(x) => Some(x.tx),
            None => None,
        },
        ..w
    }
}

/// A container with its flow, and nothing else changed.
pub open spec fn billed_member(
    a: MemberContainer,
    b: MemberContainer,
    by_member: Map<Seq<char>, Flow>,
) -> bool {
    &&& b.id == a.id && b.title == a.title && b.nproc == a.nproc && b.processes == a.processes
    &&& b.metrics@ == with_flow(a.metrics@, opt_at(by_member, a.id@))
}

/// A row and its containers with their flows, and nothing else changed.
pub open spec fn billed_row(
    a: IdentNode,
    b: IdentNode,
    by_ident: Map<Seq<char>, Flow>,
    by_member: Map<Seq<char>, Flow>,
) -> bool {
    &&& b.id == a.id && b.title == a.title && b.nproc == a.nproc && b.instances == a.instances
    &&& b.metrics@ == with_flow(a.metrics@, opt_at(by_ident, a.id@))
    &&& b.containers@.len() == a.containers@.len()
    &&& forall|k: int|
        0 <= k < a.containers@.len() ==> billed_member(
            a.containers@[k],
            #[trigger] b.containers@[k],
            by_member,
        )
}

pub open spec fn billed_rows(a: Seq<IdentNode>, b: Seq<IdentNode>, rates: Rates) -> bool {
    &&& b.len() == a.len()
    &&& forall|k: int|
        0 <= k < a.len() ==> billed_row(
            a[k],
            #[trigger] b[k],
            rates.by_ident@,
            rates.by_member@,
        )
}

/// A user whose containers are billed, and nothing else changed.
pub open spec fn billed_user(a: UserNode, b: UserNode, rates: Rates) -> bool {
    &&& b.uid == a.uid && b.name == a.name && b.applications == a.applications
    &&& b.user_services == a.user_services
    &&& billed_rows(a.containers@, b.containers@, rates)
}

fn set_flow(m: &mut Metrics, f: Option<&Flow>)
    ensures
        final(m)@ == with_flow(
            old(m)@,
            match f {
                Some(x) => Some(*x),
                None => None,
            },
        ),
{
    match f {
        Some(x) => {
            m.net_rx = Some(x.rx);
            m.net_tx = Some(x.tx);
        },
        None => {
            m.net_rx = None;
            m.net_tx = None;
        },
    }
}

impl Rates {
    fn bill_row(&self, row: &mut IdentNode)
        ensures
            billed_row(*old(row), *final(row), self.by_ident@, self.by_member@),
    {
        set_flow(&mut row.metrics, self.by_ident.get(row.id.as_str()));
        let ghost start = row.containers@;
        let mut k: usize = 0;
        while k < row.containers.len()
            invariant
                k <= row.containers@.len(),
                start == old(row).containers@,
                row.id == old(row).id && row.title == old(row).title && row.nproc
                    == old(row).nproc && row.instances == old(row).instances,
                row.metrics@ == with_flow(old(row).metrics@, opt_at(self.by_ident@, old(row).id@)),
                row.containers@.len() == start.len(),
                forall|j: int|
                    0 <= j < k ==> billed_member(
                        start[j],
                        #[trigger] row.containers@[j],
                        self.by_member@,
                    ),
                forall|j: int| k <= j < start.len() ==> row.containers@[j] == start[j],
            decreases row.containers.len() - k,
        {
            let m = &mut row.containers[k];
            let f = self.by_member.get(m.id.as_str());
            set_flow(&mut m.metrics, f);
            k += 1;
        }
    }

    fn bill(&self, rows: &mut Vec<IdentNode>)
        ensures
            billed_rows(old(rows)@, final(rows)@, *self),
    {
        let ghost start = rows@;
        let mut k: usize = 0;
        while k < rows.len()
            invariant
                k <= rows@.len(),
                start == old(rows)@,
                rows@.len() == start.len(),
                forall|j: int|
                    0 <= j < k ==> billed_row(
                        start[j],
                        #[trigger] rows@[j],
                        self.by_ident@,
                        self.by_member@,
                    ),
                forall|j: int| k <= j < start.len() ==> rows@[j] == start[j],
            decreases rows.len() - k,
        {
            self.bill_row(&mut rows[k]);
            k += 1;
        }
    }

    /// Bills the flows to container rows and to nothing else.
    pub fn apply(&self, tree: &mut HostTree)
        ensures
            final(tree).same_header(*old(tree)),
            final(tree).system == old(tree).system,
            billed_rows(old(tree).containers@, final(tree).containers@, *self),
            final(tree).users@.len() == old(tree).users@.len(),
            forall|k: int|
                0 <= k < old(tree).users@.len() ==> billed_user(
                    old(tree).users@[k],
                    #[trigger] final(tree).users@[k],
                    *self,
                ),
    {
        let ghost start = tree.users@;
        let mut k: usize = 0;
        while k < tree.users.len()
            invariant
                k <= tree.users@.len(),
                start == old(tree).users@,
                tree.same_header(*old(tree)),
                tree.system == old(tree).system,
                tree.containers == old(tree).containers,
                tree.users@.len() == start.len(),
                forall|j: int|
                    0 <= j < k ==> billed_user(start[j], #[trigger] tree.users@[j], *self),
                forall|j: int| k <= j < start.len() ==> tree.users@[j] == start[j],
            decreases tree.users.len() - k,
        {
            self.bill(&mut tree.users[k].containers);
            k += 1;
        }
        self.bill(&mut tree.containers);
    }
}

} // verus!
