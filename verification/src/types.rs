//! The process records every other module reads.
use vstd::prelude::*;

pub mod sums;

verus! {

/// One process as a single walk of `/proc` saw it.
#[derive(Clone, Debug)]
pub struct Process {
    pub pid: u32,
    pub ppid: u32,
    pub pgrp: i32,
    pub uid: u32,
    /// `PF_KTHREAD` from the stat flags. A kernel thread has no files to read.
    pub kthread: bool,
    pub comm: String,
    pub exe: Option<String>,
    pub cmdline: Vec<String>,
    pub cgroup: String,
    pub utime: u64,
    pub stime: u64,
    pub threads: Option<u64>,
    pub starttime_ticks: Option<u64>,
    /// Uninterruptible sleep.
    pub d_state: bool,
    pub rss_pages: Option<u64>,
    pub pss_kb: Option<u64>,
    pub swap_pss_kb: Option<u64>,
    /// The resident pages when the two shares above were read.
    pub rollup_rss_pages: Option<u64>,
    /// How many times they have been due since, and kept.
    pub rollup_periods: u32,
    /// How many samples this process has been in before this one.
    pub walks: u32,
    /// The id of its control group, where the kernel gave one.
    pub cgroup_id: Option<u64>,
    /// How many descriptors were open when last counted.
    pub fd_count: Option<u32>,
    /// How many scans of them were skipped since.
    pub fd_skips: u32,
    /// Where the kernel mapped the program: it moves when another is started.
    pub exec_mark: ExecMark,
    pub read_bytes: Option<u64>,
    pub write_bytes: Option<u64>,
    pub gpu: GpuCounters,
    /// The descriptors that are open on a graphics device.
    pub drm_fds: Vec<u32>,
}

impl Default for Process {
    fn default() -> (r: Self)
        ensures
            r.pid == 0 && r.ppid == 0 && r.pgrp == 0 && r.uid == 0,
            !r.kthread && !r.d_state,
            r.comm@.len() == 0 && r.exe is None && r.cmdline@.len() == 0 && r.cgroup@.len() == 0,
            r.utime == 0 && r.stime == 0,
            r.threads is None && r.starttime_ticks is None,
            r.rss_pages is None && r.pss_kb is None && r.swap_pss_kb is None,
            r.rollup_rss_pages is None && r.rollup_periods == 0 && r.walks == 0,
            r.cgroup_id is None && r.fd_count is None && r.fd_skips == 0,
            r.exec_mark == (ExecMark { start_code: 0, end_code: 0, start_stack: 0 }),
            r.read_bytes is None && r.write_bytes is None,
            r.gpu == GpuCounters::empty() && r.drm_fds@.len() == 0,
    {
        Process {
            pid: 0,
            ppid: 0,
            pgrp: 0,
            uid: 0,
            kthread: false,
            comm: String::new(),
            exe: None,
            cmdline: Vec::new(),
            cgroup: String::new(),
            utime: 0,
            stime: 0,
            threads: None,
            starttime_ticks: None,
            d_state: false,
            rss_pages: None,
            pss_kb: None,
            swap_pss_kb: None,
            rollup_rss_pages: None,
            rollup_periods: 0,
            walks: 0,
            cgroup_id: None,
            fd_count: None,
            fd_skips: 0,
            exec_mark: ExecMark { start_code: 0, end_code: 0, start_stack: 0 },
            read_bytes: None,
            write_bytes: None,
            gpu: GpuCounters::default(),
            drm_fds: Vec::new(),
        }
    }
}

/// Where the kernel put a program in memory.
#[derive(Clone, Copy, Debug, PartialEq, Eq, Structural)]
pub struct ExecMark {
    pub start_code: u64,
    pub end_code: u64,
    pub start_stack: u64,
}

/// What the DRM clients of one process report.
#[derive(Clone, Copy, Debug, PartialEq, Eq, Structural)]
pub struct GpuCounters {
    pub vram_bytes: Option<u64>,
    pub gtt_bytes: Option<u64>,
    pub gfx_ns: Option<u64>,
    pub compute_ns: Option<u64>,
    /// Engine busy time in GPU cycles, already divided by the engine count.
    pub gfx_cycles: Option<u64>,
    pub compute_cycles: Option<u64>,
    /// The clock both cycle counters are measured against: one per device, so
    /// it is carried, never summed.
    pub total_cycles: Option<u64>,
}

impl GpuCounters {
    /// No counter at all.
    pub open spec fn empty() -> Self {
        GpuCounters {
            vram_bytes: None,
            gtt_bytes: None,
            gfx_ns: None,
            compute_ns: None,
            gfx_cycles: None,
            compute_cycles: None,
            total_cycles: None,
        }
    }
}

impl Default for GpuCounters {
    fn default() -> (r: Self)
        ensures
            r == GpuCounters::empty(),
    {
        GpuCounters {
            vram_bytes: None,
            gtt_bytes: None,
            gfx_ns: None,
            compute_ns: None,
            gfx_cycles: None,
            compute_cycles: None,
            total_cycles: None,
        }
    }
}

/// Kernel constants every per-process rate divides by.
#[derive(Clone, Copy, Debug, PartialEq, Eq, Structural)]
pub struct HostHeader {
    pub nproc: u32,
    pub clk_tck: u64,
    pub page_size: u64,
}

impl Default for HostHeader {
    fn default() -> (r: Self)
        ensures
            r == (HostHeader { nproc: 0, clk_tck: 0, page_size: 0 }),
    {
        HostHeader { nproc: 0, clk_tck: 0, page_size: 0 }
    }
}

/// The part of the tree a row stands in.
#[derive(Clone, Copy, Debug, PartialEq, Eq, Hash, Structural)]
pub enum Folder {
    Applications,
    UserServices,
    Containers,
    System,
}

// ---------------------------------------------------------------------------
// What a row weighs
// ---------------------------------------------------------------------------

/// A part of a whole: so much of an interval or of a device's clock.
#[derive(Clone, Copy, Debug, PartialEq, Eq, Structural)]
pub struct Share {
    pub part: u64,
    pub whole: u64,
}

/// What a row used over one interval and what it holds at its end. A rate is
/// kept as the quantity of the interval, so that sums stay exact.
#[derive(Debug)]
pub struct Metrics {
    /// Clock ticks of CPU time.
    pub cpu_ticks: u64,
    pub rss_bytes: Option<u64>,
    pub pss_bytes: Option<u64>,
    /// Swapped-out memory, shared pages divided among their holders the way
    /// the resident share is.
    pub swap_bytes: Option<u64>,
    pub threads: Option<u64>,
    /// The age of the oldest process of the row: never a sum.
    pub age_secs: Option<u64>,
    pub read_bytes: Option<u64>,
    pub written_bytes: Option<u64>,
    pub vram_bytes: Option<u64>,
    pub gtt_bytes: Option<u64>,
    /// The engine's busy shares, one per process that has any.
    pub gfx: Option<Vec<Share>>,
    pub compute: Option<Vec<Share>>,
    /// Bytes through one network namespace: a container's, never summed.
    pub net_rx: Option<u64>,
    pub net_tx: Option<u64>,
    /// Processes in uninterruptible sleep.
    pub d_state_procs: u32,
    /// Microseconds of the interval that one control group was stalled: never
    /// summed.
    pub cpu_stall: Option<u64>,
    pub io_stall: Option<u64>,
    pub mem_stall: Option<u64>,
}

/// The same as a value.
pub struct Weight {
    pub cpu_ticks: u64,
    pub rss_bytes: Option<u64>,
    pub pss_bytes: Option<u64>,
    pub swap_bytes: Option<u64>,
    pub threads: Option<u64>,
    pub age_secs: Option<u64>,
    pub read_bytes: Option<u64>,
    pub written_bytes: Option<u64>,
    pub vram_bytes: Option<u64>,
    pub gtt_bytes: Option<u64>,
    pub gfx: Option<Seq<Share>>,
    pub compute: Option<Seq<Share>>,
    pub net_rx: Option<u64>,
    pub net_tx: Option<u64>,
    pub d_state_procs: u32,
    pub cpu_stall: Option<u64>,
    pub io_stall: Option<u64>,
    pub mem_stall: Option<u64>,
}

pub open spec fn opt_shares(v: Option<Vec<Share>>) -> Option<Seq<Share>> {
    match v {
        Some(s) => Some(s@),
        None => None,
    }
}

impl View for Metrics {
    type V = Weight;

    open spec fn view(&self) -> Weight {
        Weight {
            cpu_ticks: self.cpu_ticks,
            rss_bytes: self.rss_bytes,
            pss_bytes: self.pss_bytes,
            swap_bytes: self.swap_bytes,
            threads: self.threads,
            age_secs: self.age_secs,
            read_bytes: self.read_bytes,
            written_bytes: self.written_bytes,
            vram_bytes: self.vram_bytes,
            gtt_bytes: self.gtt_bytes,
            gfx: opt_shares(self.gfx),
            compute: opt_shares(self.compute),
            net_rx: self.net_rx,
            net_tx: self.net_tx,
            d_state_procs: self.d_state_procs,
            cpu_stall: self.cpu_stall,
            io_stall: self.io_stall,
            mem_stall: self.mem_stall,
        }
    }
}

/// A sum that stops at the largest number there is.
pub open spec fn capped(a: u64, b: u64) -> u64 {
    if a + b > u64::MAX {
        u64::MAX
    } else {
        (a + b) as u64
    }
}

pub open spec fn capped32(a: u32, b: u32) -> u32 {
    if a + b > u32::MAX {
        u32::MAX
    } else {
        (a + b) as u32
    }
}

/// A product that stops at the largest number there is.
pub open spec fn capped_product(a: u64, b: u64) -> u64 {
    if a * b > u64::MAX {
        u64::MAX
    } else {
        (a * b) as u64
    }
}

pub fn capped_mul(a: u64, b: u64) -> (r: u64)
    ensures
        r == capped_product(a, b),
{
    match a.checked_mul(b) {
        Some(n) => n,
        None => u64::MAX,
    }
}

/// The sum of what is known; unknown where neither is.
#[verifier::opaque]
pub open spec fn opt_sum(a: Option<u64>, b: Option<u64>) -> Option<u64> {
    match (a, b) {
        (None, None) => None,
        (Some(x), None) => Some(x),
        (None, Some(y)) => Some(y),
        (Some(x), Some(y)) => Some(capped(x, y)),
    }
}

/// The larger of what is known; unknown where neither is.
#[verifier::opaque]
pub open spec fn opt_max(a: Option<u64>, b: Option<u64>) -> Option<u64> {
    match (a, b) {
        (None, None) => None,
        (Some(x), None) => Some(x),
        (None, Some(y)) => Some(y),
        (Some(x), Some(y)) => Some(
            if x < y {
                y
            } else {
                x
            },
        ),
    }
}

/// The shares of both, one after the other.
#[verifier::opaque]
pub open spec fn opt_chain(a: Option<Seq<Share>>, b: Option<Seq<Share>>) -> Option<Seq<Share>> {
    match (a, b) {
        (None, None) => None,
        (Some(x), None) => Some(x),
        (None, Some(y)) => Some(y),
        (Some(x), Some(y)) => Some(x + y),
    }
}

/// No weight.
pub open spec fn no_weight() -> Weight {
    Weight {
        cpu_ticks: 0,
        rss_bytes: None,
        pss_bytes: None,
        swap_bytes: None,
        threads: None,
        age_secs: None,
        read_bytes: None,
        written_bytes: None,
        vram_bytes: None,
        gtt_bytes: None,
        gfx: None,
        compute: None,
        net_rx: None,
        net_tx: None,
        d_state_procs: 0,
        cpu_stall: None,
        io_stall: None,
        mem_stall: None,
    }
}

impl Weight {
    /// This weight with another added: quantities add up, the age is the
    /// older, and what belongs to one network namespace or one control group
    /// stays as it is.
    pub open spec fn plus(self, o: Weight) -> Weight {
        Weight {
            cpu_ticks: capped(self.cpu_ticks, o.cpu_ticks),
            rss_bytes: opt_sum(self.rss_bytes, o.rss_bytes),
            pss_bytes: opt_sum(self.pss_bytes, o.pss_bytes),
            swap_bytes: opt_sum(self.swap_bytes, o.swap_bytes),
            threads: opt_sum(self.threads, o.threads),
            age_secs: opt_max(self.age_secs, o.age_secs),
            read_bytes: opt_sum(self.read_bytes, o.read_bytes),
            written_bytes: opt_sum(self.written_bytes, o.written_bytes),
            vram_bytes: opt_sum(self.vram_bytes, o.vram_bytes),
            gtt_bytes: opt_sum(self.gtt_bytes, o.gtt_bytes),
            gfx: opt_chain(self.gfx, o.gfx),
            compute: opt_chain(self.compute, o.compute),
            net_rx: self.net_rx,
            net_tx: self.net_tx,
            d_state_procs: capped32(self.d_state_procs, o.d_state_procs),
            cpu_stall: self.cpu_stall,
            io_stall: self.io_stall,
            mem_stall: self.mem_stall,
        }
    }
}

pub fn sum_opt(a: Option<u64>, b: Option<u64>) -> (r: Option<u64>)
    ensures
        r == opt_sum(a, b),
{
    proof {
        reveal(opt_sum);
    }
    match (a, b) {
        (None, None) => None,
        (Some(x), None) => Some(x),
        (None, Some(y)) => Some(y),
        (Some(x), Some(y)) => Some(x.saturating_add(y)),
    }
}

pub fn max_opt(a: Option<u64>, b: Option<u64>) -> (r: Option<u64>)
    ensures
        r == opt_max(a, b),
{
    proof {
        reveal(opt_max);
    }
    match (a, b) {
        (None, None) => None,
        (Some(x), None) => Some(x),
        (None, Some(y)) => Some(y),
        (Some(x), Some(y)) => if x < y {
            Some(y)
        } else {
            Some(x)
        },
    }
}

pub fn copy_shares(v: &Option<Vec<Share>>) -> (r: Option<Vec<Share>>)
    ensures
        opt_shares(r) == opt_shares(*v),
{
    match v {
        Some(s) => {
            let mut out: Vec<Share> = Vec::new();
            let mut i: usize = 0;
            while i < s.len()
                invariant
                    i <= s@.len(),
                    out@ == s@.take(i as int),
                decreases s.len() - i,
            {
                out.push(s[i]);
                i += 1;
                assert(s@.take(i as int) =~= s@.take(i - 1).push(s@[i - 1]));
            }
            assert(s@.take(i as int) =~= s@);
            Some(out)
        },
        None => None,
    }
}

fn chain_opt(a: Option<Vec<Share>>, b: &Option<Vec<Share>>) -> (r: Option<Vec<Share>>)
    ensures
        opt_shares(r) == opt_chain(opt_shares(a), opt_shares(*b)),
{
    proof {
        reveal(opt_chain);
    }
    match a {
        None => copy_shares(b),
        Some(mut x) => match b {
            None => Some(x),
            Some(y) => {
                let ghost start = x@;
                let mut i: usize = 0;
                assert(start + y@.take(0) =~= start);
                while i < y.len()
                    invariant
                        i <= y@.len(),
                        x@ == start + y@.take(i as int),
                    decreases y.len() - i,
                {
                    x.push(y[i]);
                    i += 1;
                    assert(start + y@.take(i as int) =~= (start + y@.take(i - 1)).push(
                        y@[i - 1],
                    ));
                }
                assert(y@.take(i as int) =~= y@);
                Some(x)
            },
        },
    }
}

impl Default for Metrics {
    fn default() -> (r: Self)
        ensures
            r@ == no_weight(),
    {
        Metrics {
            cpu_ticks: 0,
            rss_bytes: None,
            pss_bytes: None,
            swap_bytes: None,
            threads: None,
            age_secs: None,
            read_bytes: None,
            written_bytes: None,
            vram_bytes: None,
            gtt_bytes: None,
            gfx: None,
            compute: None,
            net_rx: None,
            net_tx: None,
            d_state_procs: 0,
            cpu_stall: None,
            io_stall: None,
            mem_stall: None,
        }
    }
}

impl Metrics {
    pub fn accumulate(&mut self, other: &Metrics)
        ensures
            final(self)@ == old(self)@.plus(other@),
    {
        self.cpu_ticks = self.cpu_ticks.saturating_add(other.cpu_ticks);
        self.rss_bytes = sum_opt(self.rss_bytes, other.rss_bytes);
        self.pss_bytes = sum_opt(self.pss_bytes, other.pss_bytes);
        self.swap_bytes = sum_opt(self.swap_bytes, other.swap_bytes);
        self.threads = sum_opt(self.threads, other.threads);
        self.age_secs = max_opt(self.age_secs, other.age_secs);
        self.read_bytes = sum_opt(self.read_bytes, other.read_bytes);
        self.written_bytes = sum_opt(self.written_bytes, other.written_bytes);
        self.vram_bytes = sum_opt(self.vram_bytes, other.vram_bytes);
        self.gtt_bytes = sum_opt(self.gtt_bytes, other.gtt_bytes);
        let gfx = self.gfx.take();
        self.gfx = chain_opt(gfx, &other.gfx);
        let compute = self.compute.take();
        self.compute = chain_opt(compute, &other.compute);
        self.d_state_procs = self.d_state_procs.saturating_add(other.d_state_procs);
    }

    pub fn copy(&self) -> (r: Metrics)
        ensures
            r@ == self@,
    {
        Metrics {
            cpu_ticks: self.cpu_ticks,
            rss_bytes: self.rss_bytes,
            pss_bytes: self.pss_bytes,
            swap_bytes: self.swap_bytes,
            threads: self.threads,
            age_secs: self.age_secs,
            read_bytes: self.read_bytes,
            written_bytes: self.written_bytes,
            vram_bytes: self.vram_bytes,
            gtt_bytes: self.gtt_bytes,
            gfx: copy_shares(&self.gfx),
            compute: copy_shares(&self.compute),
            net_rx: self.net_rx,
            net_tx: self.net_tx,
            d_state_procs: self.d_state_procs,
            cpu_stall: self.cpu_stall,
            io_stall: self.io_stall,
            mem_stall: self.mem_stall,
        }
    }
}

/// The weight of the first `n` of several, added up.
pub open spec fn weight_upto(v: Seq<Weight>, n: int) -> Weight
    decreases n,
{
    if n <= 0 {
        no_weight()
    } else {
        weight_upto(v, n - 1).plus(v[n - 1])
    }
}

/// The weight of several, added up.
pub open spec fn weight_of(v: Seq<Weight>) -> Weight {
    weight_upto(v, v.len() as int)
}

proof fn lemma_sums_associate(a: Option<u64>, b: Option<u64>, c: Option<u64>)
    ensures
        opt_sum(opt_sum(a, b), c) == opt_sum(a, opt_sum(b, c)),
{
    reveal(opt_sum);
}

proof fn lemma_maxes_associate(a: Option<u64>, b: Option<u64>, c: Option<u64>)
    ensures
        opt_max(opt_max(a, b), c) == opt_max(a, opt_max(b, c)),
{
    reveal(opt_max);
}

proof fn lemma_chains_associate(
    a: Option<Seq<Share>>,
    b: Option<Seq<Share>>,
    c: Option<Seq<Share>>,
)
    ensures
        opt_chain(opt_chain(a, b), c) == opt_chain(a, opt_chain(b, c)),
{
    reveal(opt_chain);
    if a is Some && b is Some && c is Some {
        assert((a->0 + b->0) + c->0 =~= a->0 + (b->0 + c->0));
    }
}

/// Adding weights up is the same in whatever way they are bracketed.
#[verifier::spinoff_prover]
pub proof fn law_weights_associate(a: Weight, b: Weight, c: Weight)
    ensures
        a.plus(b).plus(c) == a.plus(b.plus(c)),
{
    let l = a.plus(b).plus(c);
    let r = a.plus(b.plus(c));
    assert(l.rss_bytes == r.rss_bytes) by {
        lemma_sums_associate(a.rss_bytes, b.rss_bytes, c.rss_bytes);
    }
    assert(l.pss_bytes == r.pss_bytes) by {
        lemma_sums_associate(a.pss_bytes, b.pss_bytes, c.pss_bytes);
    }
    assert(l.swap_bytes == r.swap_bytes) by {
        lemma_sums_associate(a.swap_bytes, b.swap_bytes, c.swap_bytes);
    }
    assert(l.threads == r.threads) by {
        lemma_sums_associate(a.threads, b.threads, c.threads);
    }
    assert(l.age_secs == r.age_secs) by {
        lemma_maxes_associate(a.age_secs, b.age_secs, c.age_secs);
    }
    assert(l.read_bytes == r.read_bytes) by {
        lemma_sums_associate(a.read_bytes, b.read_bytes, c.read_bytes);
    }
    assert(l.written_bytes == r.written_bytes) by {
        lemma_sums_associate(a.written_bytes, b.written_bytes, c.written_bytes);
    }
    assert(l.vram_bytes == r.vram_bytes) by {
        lemma_sums_associate(a.vram_bytes, b.vram_bytes, c.vram_bytes);
    }
    assert(l.gtt_bytes == r.gtt_bytes) by {
        lemma_sums_associate(a.gtt_bytes, b.gtt_bytes, c.gtt_bytes);
    }
    assert(l.gfx == r.gfx) by {
        lemma_chains_associate(a.gfx, b.gfx, c.gfx);
    }
    assert(l.compute == r.compute) by {
        lemma_chains_associate(a.compute, b.compute, c.compute);
    }
}

/// A row weighs what its parts weigh, however it is divided: the weight of two
/// lists, one after the other, is the weight of the one plus that of the other.
pub proof fn law_a_row_weighs_its_parts(a: Seq<Weight>, b: Seq<Weight>)
    ensures
        weight_of(a + b) == weight_of(a).plus(weight_of(b)),
    decreases b.len(),
{
    if b.len() == 0 {
        assert(a + b =~= a);
        lemma_plus_nothing(weight_of(a));
    } else {
        let c = b.drop_last();
        law_a_row_weighs_its_parts(a, c);
        lemma_weight_prefix(a + b, a + c, (a.len() + c.len()) as int);
        lemma_weight_prefix(b, c, c.len() as int);
        assert((a + b)[a.len() + b.len() - 1] == b.last());
        law_weights_associate(weight_of(a), weight_of(c), b.last());
    }
}

proof fn lemma_plus_nothing(a: Weight)
    ensures
        a.plus(no_weight()) == a,
{
    reveal(opt_sum);
    reveal(opt_max);
    reveal(opt_chain);
}

pub proof fn lemma_weight_prefix(v: Seq<Weight>, u: Seq<Weight>, n: int)
    requires
        0 <= n <= v.len(),
        n <= u.len(),
        forall|k: int| 0 <= k < n ==> v[k] == u[k],
    ensures
        weight_upto(v, n) == weight_upto(u, n),
    decreases n,
{
    if n > 0 {
        lemma_weight_prefix(v, u, n - 1);
    }
}

/// What belongs to one network namespace or one control group never shows up
/// in a sum.
pub proof fn law_rates_of_one_namespace_are_never_summed(v: Seq<Weight>)
    ensures
        weight_of(v).net_rx is None && weight_of(v).net_tx is None,
        weight_of(v).cpu_stall is None && weight_of(v).io_stall is None && weight_of(
            v,
        ).mem_stall is None,
{
    lemma_no_namespace(v, v.len() as int);
}

proof fn lemma_no_namespace(v: Seq<Weight>, n: int)
    ensures
        weight_upto(v, n).net_rx is None && weight_upto(v, n).net_tx is None,
        weight_upto(v, n).cpu_stall is None && weight_upto(v, n).io_stall is None && weight_upto(
            v,
            n,
        ).mem_stall is None,
    decreases n,
{
    if n > 0 {
        lemma_no_namespace(v, n - 1);
    }
}

// ---------------------------------------------------------------------------
// The tree
// ---------------------------------------------------------------------------

/// One process with the processes under it.
#[derive(Debug)]
pub struct ProcNode {
    pub pid: u32,
    pub name: String,
    /// The arguments the process was started with, one space between them.
    pub cmdline: String,
    pub metrics: Metrics,
    pub children: Vec<ProcNode>,
}

/// The processes of a row that belong together.
#[derive(Debug)]
pub struct InstanceNode {
    pub key: String,
    pub nproc: u32,
    pub metrics: Metrics,
    pub processes: Vec<ProcNode>,
}

/// One container of a row that is a project of several.
#[derive(Debug)]
pub struct MemberContainer {
    pub id: String,
    pub title: String,
    pub nproc: u32,
    pub metrics: Metrics,
    pub processes: Vec<ProcNode>,
}

/// One row of the tree: an application, a service or a container.
#[derive(Debug)]
pub struct IdentNode {
    pub id: String,
    pub title: String,
    pub nproc: u32,
    pub metrics: Metrics,
    pub instances: Vec<InstanceNode>,
    pub containers: Vec<MemberContainer>,
}

/// The rows of one user.
#[derive(Debug)]
pub struct UserNode {
    pub uid: u32,
    pub name: String,
    pub applications: Vec<IdentNode>,
    pub user_services: Vec<IdentNode>,
    pub containers: Vec<IdentNode>,
}

/// How the machine's CPU time divides over an interval: each part is of the
/// same whole, which is zero where no time has passed.
#[derive(Clone, Copy, Debug, PartialEq, Eq, Structural)]
pub struct HostSplit {
    pub user: u64,
    pub system: u64,
    pub wait: u64,
    pub busy: u64,
    pub whole: u64,
}

/// The machine as a whole: what it uses, and every row.
#[derive(Debug)]
pub struct HostTree {
    /// When the sample was taken, in seconds of the epoch.
    pub sampled_at: u64,
    /// The kernel's own count of threads, which no hidden pid lowers.
    pub kernel_threads: Option<u64>,
    pub nproc: u32,
    pub cpu: HostSplit,
    pub mem_used_bytes: u64,
    pub mem_total_bytes: u64,
    pub mem_buffers_bytes: u64,
    pub mem_cached_bytes: u64,
    pub mem_shmem_bytes: u64,
    pub mem_anon_bytes: u64,
    pub mem_kernel_bytes: u64,
    pub mem_sreclaimable_bytes: u64,
    pub zram_used_bytes: u64,
    pub swap_used_bytes: u64,
    pub swap_total_bytes: u64,
    pub vram_used_bytes: Option<u64>,
    pub vram_total_bytes: Option<u64>,
    pub unified_memory: bool,
    /// The machine-wide pressure averages as the kernel writes them.
    pub psi_cpu_avg10: Option<String>,
    pub psi_io_avg10: Option<String>,
    pub psi_mem_avg10: Option<String>,
    pub users: Vec<UserNode>,
    pub containers: Vec<IdentNode>,
    pub system: Vec<IdentNode>,
}

impl HostTree {
    /// A tree in which nothing was measured and no row stands.
    pub open spec fn blank(self) -> bool {
        &&& self.sampled_at == 0 && self.kernel_threads is None && self.nproc == 0
        &&& self.cpu == (HostSplit { user: 0, system: 0, wait: 0, busy: 0, whole: 0 })
        &&& self.mem_used_bytes == 0 && self.mem_total_bytes == 0
        &&& self.mem_buffers_bytes == 0 && self.mem_cached_bytes == 0
        &&& self.mem_shmem_bytes == 0 && self.mem_anon_bytes == 0
        &&& self.mem_kernel_bytes == 0 && self.mem_sreclaimable_bytes == 0
        &&& self.zram_used_bytes == 0
        &&& self.swap_used_bytes == 0 && self.swap_total_bytes == 0
        &&& self.vram_used_bytes is None && self.vram_total_bytes is None
        &&& !self.unified_memory
        &&& self.psi_cpu_avg10 is None && self.psi_io_avg10 is None && self.psi_mem_avg10 is None
        &&& self.users@.len() == 0 && self.containers@.len() == 0 && self.system@.len() == 0
    }

    /// What the tree says of the machine is what another tree says; only the
    /// rows may differ.
    pub open spec fn same_header(self, o: HostTree) -> bool {
        &&& self.sampled_at == o.sampled_at && self.kernel_threads == o.kernel_threads
        &&& self.nproc == o.nproc && self.cpu == o.cpu
        &&& self.mem_used_bytes == o.mem_used_bytes && self.mem_total_bytes == o.mem_total_bytes
        &&& self.mem_buffers_bytes == o.mem_buffers_bytes
        &&& self.mem_cached_bytes == o.mem_cached_bytes
        &&& self.mem_shmem_bytes == o.mem_shmem_bytes && self.mem_anon_bytes == o.mem_anon_bytes
        &&& self.mem_kernel_bytes == o.mem_kernel_bytes
        &&& self.mem_sreclaimable_bytes == o.mem_sreclaimable_bytes
        &&& self.zram_used_bytes == o.zram_used_bytes
        &&& self.swap_used_bytes == o.swap_used_bytes
        &&& self.swap_total_bytes == o.swap_total_bytes
        &&& self.vram_used_bytes == o.vram_used_bytes
        &&& self.vram_total_bytes == o.vram_total_bytes
        &&& self.unified_memory == o.unified_memory
        &&& self.psi_cpu_avg10 == o.psi_cpu_avg10 && self.psi_io_avg10 == o.psi_io_avg10
        &&& self.psi_mem_avg10 == o.psi_mem_avg10
    }
}

impl Default for HostTree {
    fn default() -> (r: Self)
        ensures
            r.blank(),
    {
        HostTree {
            sampled_at: 0,
            kernel_threads: None,
            nproc: 0,
            cpu: HostSplit { user: 0, system: 0, wait: 0, busy: 0, whole: 0 },
            mem_used_bytes: 0,
            mem_total_bytes: 0,
            mem_buffers_bytes: 0,
            mem_cached_bytes: 0,
            mem_shmem_bytes: 0,
            mem_anon_bytes: 0,
            mem_kernel_bytes: 0,
            mem_sreclaimable_bytes: 0,
            zram_used_bytes: 0,
            swap_used_bytes: 0,
            swap_total_bytes: 0,
            vram_used_bytes: None,
            vram_total_bytes: None,
            unified_memory: false,
            psi_cpu_avg10: None,
            psi_io_avg10: None,
            psi_mem_avg10: None,
            users: Vec::new(),
            containers: Vec::new(),
            system: Vec::new(),
        }
    }
}

// ---------------------------------------------------------------------------
// Totals
// ---------------------------------------------------------------------------

/// The weights of rows.
pub open spec fn row_weights(rows: Seq<IdentNode>) -> Seq<Weight> {
    Seq::new(rows.len(), |k: int| rows[k].metrics@)
}

/// The processes of the first `n` rows, counted.
pub open spec fn count_upto(rows: Seq<IdentNode>, n: int) -> u32
    decreases n,
{
    if n <= 0 {
        0
    } else {
        capped32(count_upto(rows, n - 1), rows[n - 1].nproc)
    }
}

pub open spec fn count_of(rows: Seq<IdentNode>) -> u32 {
    count_upto(rows, rows.len() as int)
}

pub fn folder_nproc(idents: &[IdentNode]) -> (r: u32)
    ensures
        r == count_of(idents@),
{
    let mut n: u32 = 0;
    let mut i: usize = 0;
    while i < idents.len()
        invariant
            i <= idents@.len(),
            n == count_upto(idents@, i as int),
        decreases idents.len() - i,
    {
        n = n.saturating_add(idents[i].nproc);
        i += 1;
    }
    n
}

pub fn sum_idents(idents: &[IdentNode]) -> (r: Metrics)
    ensures
        r@ == weight_of(row_weights(idents@)),
{
    let mut m = Metrics::default();
    let mut i: usize = 0;
    while i < idents.len()
        invariant
            i <= idents@.len(),
            m@ == weight_upto(row_weights(idents@), i as int),
        decreases idents.len() - i,
    {
        m.accumulate(&idents[i].metrics);
        i += 1;
    }
    m
}

/// What a user's rows weigh together.
pub open spec fn user_weight(u: UserNode) -> Weight {
    weight_of(row_weights(u.applications@)).plus(weight_of(row_weights(u.user_services@))).plus(
        weight_of(row_weights(u.containers@)),
    )
}

/// How many processes a user's rows hold.
pub open spec fn user_count(u: UserNode) -> u32 {
    capped32(capped32(count_of(u.applications@), count_of(u.user_services@)), count_of(u.containers@))
}

pub fn user_metrics(user: &UserNode) -> (r: Metrics)
    ensures
        r@ == user_weight(*user),
{
    let mut m = sum_idents(user.applications.as_slice());
    m.accumulate(&sum_idents(user.user_services.as_slice()));
    m.accumulate(&sum_idents(user.containers.as_slice()));
    m
}

pub fn user_nproc(user: &UserNode) -> (r: u32)
    ensures
        r == user_count(*user),
{
    folder_nproc(user.applications.as_slice()).saturating_add(
        folder_nproc(user.user_services.as_slice()),
    ).saturating_add(folder_nproc(user.containers.as_slice()))
}

pub open spec fn users_count(users: Seq<UserNode>, n: int) -> u32
    decreases n,
{
    if n <= 0 {
        0
    } else {
        capped32(users_count(users, n - 1), user_count(users[n - 1]))
    }
}

/// How many processes the tree holds.
pub open spec fn tree_count(t: HostTree) -> u32 {
    capped32(
        capped32(users_count(t.users@, t.users@.len() as int), count_of(t.containers@)),
        count_of(t.system@),
    )
}

pub fn tree_host_nproc(tree: &HostTree) -> (r: u32)
    ensures
        r == tree_count(*tree),
{
    let mut n: u32 = 0;
    let mut i: usize = 0;
    while i < tree.users.len()
        invariant
            i <= tree.users@.len(),
            n == users_count(tree.users@, i as int),
        decreases tree.users.len() - i,
    {
        n = n.saturating_add(user_nproc(&tree.users[i]));
        i += 1;
    }
    n.saturating_add(folder_nproc(tree.containers.as_slice())).saturating_add(
        folder_nproc(tree.system.as_slice()),
    )
}

/// A weight with those of the first `n` users added.
pub open spec fn plus_users(w: Weight, users: Seq<UserNode>, n: int) -> Weight
    decreases n,
{
    if n <= 0 {
        w
    } else {
        plus_users(w, users, n - 1).plus(user_weight(users[n - 1]))
    }
}

/// What the tree weighs.
pub open spec fn tree_weight(t: HostTree) -> Weight {
    plus_users(
        weight_of(row_weights(t.containers@)).plus(weight_of(row_weights(t.system@))),
        t.users@,
        t.users@.len() as int,
    )
}

pub fn host_metrics(tree: &HostTree) -> (r: Metrics)
    ensures
        r@ == tree_weight(*tree),
{
    let mut m = sum_idents(tree.containers.as_slice());
    m.accumulate(&sum_idents(tree.system.as_slice()));
    let ghost start = m@;
    let mut i: usize = 0;
    while i < tree.users.len()
        invariant
            i <= tree.users@.len(),
            m@ == plus_users(start, tree.users@, i as int),
        decreases tree.users.len() - i,
    {
        m.accumulate(&user_metrics(&tree.users[i]));
        i += 1;
    }
    m
}

} // verus!
