//! CPU time: the machine's, and what one process used between two samples.
use vstd::prelude::*;

use crate::types::{HostHeader, HostSplit, HostTree, Metrics, Process, Share, Weight};
use crate::mem::GpuPool;
use crate::{mem, proc, text, types};

pub mod laws;

verus! {

// ---------------------------------------------------------------------------
// The machine
// ---------------------------------------------------------------------------

/// The machine's CPU time since boot, in clock ticks.
#[derive(Clone, Copy, Debug, PartialEq, Eq, Structural)]
pub struct HostCpu {
    /// Ordinary and low-priority programs; guests are within both.
    pub user: u64,
    /// The kernel, with its interrupts.
    pub system: u64,
    /// Waiting for input and output.
    pub wait: u64,
    /// All of it, with what was idle or stolen.
    pub total: u64,
}

impl Default for HostCpu {
    fn default() -> (r: Self)
        ensures
            r == no_time(),
    {
        HostCpu { user: 0, system: 0, wait: 0, total: 0 }
    }
}

/// No time at all.
pub open spec fn no_time() -> HostCpu {
    HostCpu { user: 0, system: 0, wait: 0, total: 0 }
}

/// The counter in column `k` of a CPU line; a column that is not there counts
/// nothing.
pub open spec fn column(w: Seq<Seq<char>>, k: int) -> u64 {
    if k + 1 < w.len() {
        proc::or_zero(proc::number64(w[k + 1]))
    } else {
        0
    }
}

/// A CPU line: its name, then at least four counters, and the first eight of
/// them all numbers.
pub open spec fn is_cpu_line(w: Seq<Seq<char>>) -> bool {
    &&& w.len() >= 5
    &&& w[0] == "cpu"@
    &&& forall|k: int| 1 <= k < w.len() && k <= 8 ==> proc::number64(#[trigger] w[k]) is Some
}

/// The times of a CPU line. Its columns are: user, low priority, system, idle,
/// wait, two kinds of interrupt, stolen.
pub open spec fn times_of(w: Seq<Seq<char>>) -> HostCpu {
    let user = types::capped(column(w, 0), column(w, 1));
    let system = types::capped(types::capped(column(w, 2), column(w, 5)), column(w, 6));
    let idle = types::capped(column(w, 3), column(w, 7));
    let wait = column(w, 4);
    HostCpu {
        user,
        system,
        wait,
        total: types::capped(types::capped(types::capped(user, system), wait), idle),
    }
}

pub open spec fn cpu_of(line: Seq<char>) -> Option<HostCpu> {
    let w = text::words(line);
    if is_cpu_line(w) {
        Some(times_of(w))
    } else {
        None
    }
}

fn counter(w: &Vec<Vec<char>>, k: usize) -> (r: u64)
    requires
        k < 8,
    ensures
        r == column(text::views(w@), k as int),
{
    assert(text::views(w@).len() == w@.len());
    if k + 1 < w.len() {
        assert(text::views(w@)[k + 1] == w@[k + 1]@);
        match proc::parse_u64(w[k + 1].as_slice()) {
            Some(n) => n,
            None => 0,
        }
    } else {
        0
    }
}

/// The times of a CPU line.
pub fn parse_host_cpu(line: &str) -> (r: Option<HostCpu>)
    ensures
        r == cpu_of(line@),
{
    let w = text::split_words(text::chars_of(line).as_slice());
    let ghost wv = text::words(line@);
    assert(text::views(w@).len() == w@.len());
    if w.len() < 5 {
        return None;
    }
    assert(wv[0] == w@[0]@);
    if !text::same(w[0].as_slice(), text::chars_of("cpu").as_slice()) {
        return None;
    }
    let mut k: usize = 1;
    while k < w.len() && k <= 8
        invariant
            1 <= k <= w@.len(),
            k <= 9,
            wv == text::views(w@),
            wv == text::words(line@),
            forall|j: int| 1 <= j < k ==> proc::number64(#[trigger] wv[j]) is Some,
        decreases w.len() - k,
    {
        assert(wv[k as int] == w@[k as int]@);
        if proc::parse_u64(w[k].as_slice()).is_none() {
            return None;
        }
        k += 1;
    }
    let user: u64 = counter(&w, 0).saturating_add(counter(&w, 1));
    let system: u64 = counter(&w, 2).saturating_add(counter(&w, 5)).saturating_add(counter(&w, 6));
    let idle: u64 = counter(&w, 3).saturating_add(counter(&w, 7));
    let wait: u64 = counter(&w, 4);
    Some(
        HostCpu {
            user,
            system,
            wait,
            total: user.saturating_add(system).saturating_add(wait).saturating_add(idle),
        },
    )
}

/// The machine's times in a stat file: its line for all CPUs together.
pub open spec fn host_of(stat: Seq<char>) -> HostCpu {
    match proc::line_from(text::lines_of(stat), "cpu "@, 0) {
        Some(line) => match cpu_of(line) {
            Some(c) => c,
            None => no_time(),
        },
        None => no_time(),
    }
}

pub fn parse_host(stat: &str) -> (r: HostCpu)
    ensures
        r == host_of(stat@),
{
    let lines = text::split_lines(text::chars_of(stat).as_slice());
    match proc::find_line(&lines, text::chars_of("cpu ").as_slice()) {
        Some(i) => match parse_host_cpu(text::string_of(lines[i].as_slice()).as_str()) {
            Some(c) => c,
            None => HostCpu::default(),
        },
        None => HostCpu::default(),
    }
}

/// A line for one CPU.
pub open spec fn names_a_cpu(line: Seq<char>) -> bool {
    text::has_prefix(line, "cpu"@) && line.len() > 3 && text::is_digit(line[3])
}

/// How many of the first `n` lines are for one CPU.
pub open spec fn cpus_upto(lines: Seq<Seq<char>>, n: int) -> nat
    decreases n,
{
    if n <= 0 {
        0
    } else {
        cpus_upto(lines, n - 1) + if names_a_cpu(lines[n - 1]) {
            1nat
        } else {
            0
        }
    }
}

/// How many CPUs a stat file lists, at least one.
pub open spec fn cpus_of(stat: Seq<char>) -> u32 {
    let lines = text::lines_of(stat);
    let n = cpus_upto(lines, lines.len() as int);
    if n == 0 {
        1
    } else if n > u32::MAX {
        u32::MAX
    } else {
        n as u32
    }
}

pub fn nproc(stat: &str) -> (r: u32)
    ensures
        r == cpus_of(stat@),
{
    let lines = text::split_lines(text::chars_of(stat).as_slice());
    let ghost all = text::lines_of(stat@);
    let key = text::chars_of("cpu");
    let mut n: u64 = 0;
    let mut i: usize = 0;
    assert(text::views(lines@).len() == lines@.len());
    while i < lines.len()
        invariant
            i <= lines@.len(),
            all == text::views(lines@),
            key@ == "cpu"@,
            n == cpus_upto(all, i as int),
            n <= i,
        decreases lines.len() - i,
    {
        assert(all[i as int] == lines@[i as int]@);
        let line = &lines[i];
        if text::prefixed(line.as_slice(), key.as_slice()) && line.len() > 3 && text::digit_char(
            line[3],
        ) {
            n += 1;
        }
        i += 1;
    }
    if n == 0 {
        1
    } else if n > u32::MAX as u64 {
        u32::MAX
    } else {
        n as u32
    }
}

/// The second of the epoch the machine booted in, from a stat file; zero where
/// it does not say.
pub fn btime(stat: &str) -> (r: u64)
    ensures
        r == proc::or_zero(proc::field_in(stat@, "btime"@)),
{
    match proc::find_field(stat, "btime") {
        Some(n) => n,
        None => 0,
    }
}

/// How far a counter went, a counter that went back standing still.
pub open spec fn advance(a: u64, b: u64) -> u64 {
    if b > a {
        (b - a) as u64
    } else {
        0
    }
}

pub open spec fn least(a: u64, b: u64) -> u64 {
    if a < b {
        a
    } else {
        b
    }
}

/// How the machine's time between two samples divides. After a counter reset
/// each part is held to the whole, and so is their sum.
pub open spec fn split_of(a: HostCpu, b: HostCpu) -> HostSplit {
    let whole = advance(a.total, b.total);
    let user = least(advance(a.user, b.user), whole);
    let system = least(advance(a.system, b.system), whole);
    let wait = least(advance(a.wait, b.wait), whole);
    HostSplit {
        user,
        system,
        wait,
        busy: least(types::capped(types::capped(user, system), wait), whole),
        whole,
    }
}

fn lesser(a: u64, b: u64) -> (r: u64)
    ensures
        r == least(a, b),
{
    if a < b {
        a
    } else {
        b
    }
}

pub fn host_split(a: &HostCpu, b: &HostCpu) -> (r: HostSplit)
    ensures
        r == split_of(*a, *b),
{
    let whole: u64 = b.total.saturating_sub(a.total);
    let user: u64 = lesser(b.user.saturating_sub(a.user), whole);
    let system: u64 = lesser(b.system.saturating_sub(a.system), whole);
    let wait: u64 = lesser(b.wait.saturating_sub(a.wait), whole);
    let busy: u64 = lesser(user.saturating_add(system).saturating_add(wait), whole);
    HostSplit { user, system, wait, busy, whole }
}

/// No part of a split is more than one machine, and the busy part is never
/// less than any of those it is made of.
pub proof fn law_a_split_stays_within_one_machine(a: HostCpu, b: HostCpu)
    ensures
        split_of(a, b).user <= split_of(a, b).busy,
        split_of(a, b).system <= split_of(a, b).busy,
        split_of(a, b).wait <= split_of(a, b).busy,
        split_of(a, b).busy <= split_of(a, b).whole,
{
}

// ---------------------------------------------------------------------------
// One process
// ---------------------------------------------------------------------------

/// Seconds since a process started. Its start is counted in ticks from boot,
/// so without the boot time, the tick rate or the present there is no age; a
/// process that started in the future is new.
pub open spec fn age_of(start: Option<u64>, clk_tck: u64, btime: u64, now: u64) -> Option<u64> {
    match start {
        Some(ticks) => if btime == 0 || clk_tck == 0 || now == 0 {
            None
        } else {
            Some(advance(types::capped(btime, ticks / clk_tck), now))
        },
        None => None,
    }
}

pub fn age_secs(starttime_ticks: Option<u64>, clk_tck: u64, btime: u64, now: u64) -> (r: Option<
    u64,
>)
    ensures
        r == age_of(starttime_ticks, clk_tck, btime, now),
{
    if btime == 0 || clk_tck == 0 || now == 0 {
        return None;
    }
    match starttime_ticks {
        Some(ticks) => {
            let started: u64 = btime.saturating_add(ticks / clk_tck);
            Some(now.saturating_sub(started))
        },
        None => None,
    }
}

/// How far an optional counter went.
pub open spec fn opt_advance(a: Option<u64>, b: Option<u64>) -> Option<u64> {
    match (a, b) {
        (Some(x), Some(y)) => Some(advance(x, y)),
        _ => None,
    }
}

fn advanced(a: Option<u64>, b: Option<u64>) -> (r: Option<u64>)
    ensures
        r == opt_advance(a, b),
{
    match (a, b) {
        (Some(x), Some(y)) => Some(y.saturating_sub(x)),
        _ => None,
    }
}

/// How far the clock of a graphics device went, if it went at all.
pub open spec fn span_of(prev: Option<Process>, cur: Process) -> Option<u64> {
    match prev {
        Some(p) => match opt_advance(p.gpu.total_cycles, cur.gpu.total_cycles) {
            Some(d) => if d > 0 {
                Some(d)
            } else {
                None
            },
            None => None,
        },
        None => None,
    }
}

pub fn cycles_span(prev: Option<&Process>, cur: &Process) -> (r: Option<u64>)
    ensures
        r == span_of(proc::opt_process(prev), *cur),
{
    match prev {
        Some(p) => match advanced(p.gpu.total_cycles, cur.gpu.total_cycles) {
            Some(d) => if d > 0 {
                Some(d)
            } else {
                None
            },
            None => None,
        },
        None => None,
    }
}

/// The busy share of an engine: of the interval where the driver counts
/// nanoseconds, else of the device's own clock where it counts cycles; never
/// more than the whole.
pub open spec fn busy_share(
    ns: Option<u64>,
    elapsed: u64,
    cycles: Option<u64>,
    span: Option<u64>,
) -> Option<Seq<Share>> {
    match ns {
        Some(n) => Some(seq![Share { part: least(n, elapsed), whole: elapsed }]),
        None => match (cycles, span) {
            (Some(c), Some(s)) => Some(seq![Share { part: least(c, s), whole: s }]),
            _ => None,
        },
    }
}

fn engine_share(ns: Option<u64>, elapsed: u64, cycles: Option<u64>, span: Option<u64>) -> (r: Option<
    Vec<Share>,
>)
    ensures
        types::opt_shares(r) == busy_share(ns, elapsed, cycles, span),
{
    let share = match ns {
        Some(n) => Share { part: lesser(n, elapsed), whole: elapsed },
        None => match (cycles, span) {
            (Some(c), Some(s)) => Share { part: lesser(c, s), whole: s },
            _ => {
                return None;
            },
        },
    };
    let mut v: Vec<Share> = Vec::new();
    v.push(share);
    assert(v@ =~= seq![share]);
    Some(v)
}

/// The counters of a previous sample, none where there is none.
pub open spec fn before<T>(prev: Option<Process>, f: spec_fn(Process) -> Option<T>) -> Option<T> {
    match prev {
        Some(p) => f(p),
        None => None,
    }
}

/// The shortest interval that a share is taken of, in nanoseconds.
pub const MIN_ELAPSED: u64 = 1000;

pub open spec fn interval_of(elapsed: u64) -> u64 {
    if elapsed < 1000 {
        1000
    } else {
        elapsed
    }
}

/// The CPU ticks a process used since a previous sample; a process that was
/// not there before has used none yet.
pub open spec fn ticks_since(prev: Option<Process>, cur: Process) -> u64 {
    match prev {
        Some(p) => {
            let d = (cur.utime + cur.stime) - (p.utime + p.stime);
            if d < 0 {
                0
            } else if d > u64::MAX {
                u64::MAX
            } else {
                d as u64
            }
        },
        None => 0,
    }
}

fn ticks_used(prev: Option<&Process>, cur: &Process) -> (r: u64)
    ensures
        r == ticks_since(proc::opt_process(prev), *cur),
{
    match prev {
        Some(p) => {
            let now: u128 = cur.utime as u128 + cur.stime as u128;
            let then: u128 = p.utime as u128 + p.stime as u128;
            if now <= then {
                0
            } else if now - then > u64::MAX as u128 {
                u64::MAX
            } else {
                (now - then) as u64
            }
        },
        None => 0,
    }
}

pub open spec fn opt_product(n: Option<u64>, by: u64) -> Option<u64> {
    match n {
        Some(x) => Some(types::capped_product(x, by)),
        None => None,
    }
}

fn scaled(n: Option<u64>, by: u64) -> (r: Option<u64>)
    ensures
        r == opt_product(n, by),
{
    match n {
        Some(x) => Some(types::capped_mul(x, by)),
        None => None,
    }
}

/// What a process used since a previous sample and what it holds: `elapsed` is
/// the interval in nanoseconds, `btime` and `now` are seconds of the epoch.
/// No network or pressure figure exists for one process.
pub open spec fn weight_since(
    prev: Option<Process>,
    cur: Process,
    elapsed: u64,
    consts: HostHeader,
    btime: u64,
    now: u64,
) -> Weight {
    let whole = interval_of(elapsed);
    Weight {
        cpu_ticks: ticks_since(prev, cur),
        rss_bytes: opt_product(cur.rss_pages, consts.page_size),
        pss_bytes: opt_product(cur.pss_kb, 1024),
        swap_bytes: opt_product(cur.swap_pss_kb, 1024),
        threads: cur.threads,
        age_secs: age_of(cur.starttime_ticks, consts.clk_tck, btime, now),
        read_bytes: opt_advance(before(prev, |p: Process| p.read_bytes), cur.read_bytes),
        written_bytes: opt_advance(before(prev, |p: Process| p.write_bytes), cur.write_bytes),
        vram_bytes: cur.gpu.vram_bytes,
        gtt_bytes: cur.gpu.gtt_bytes,
        gfx: busy_share(
            opt_advance(before(prev, |p: Process| p.gpu.gfx_ns), cur.gpu.gfx_ns),
            whole,
            opt_advance(before(prev, |p: Process| p.gpu.gfx_cycles), cur.gpu.gfx_cycles),
            span_of(prev, cur),
        ),
        compute: busy_share(
            opt_advance(before(prev, |p: Process| p.gpu.compute_ns), cur.gpu.compute_ns),
            whole,
            opt_advance(before(prev, |p: Process| p.gpu.compute_cycles), cur.gpu.compute_cycles),
            span_of(prev, cur),
        ),
        net_rx: None,
        net_tx: None,
        d_state_procs: if cur.d_state {
            1
        } else {
            0
        },
        cpu_stall: None,
        io_stall: None,
        mem_stall: None,
    }
}

/// What a process used since a previous sample and what it holds.
pub fn process_metrics(
    prev: Option<&Process>,
    cur: &Process,
    elapsed: u64,
    consts: &HostHeader,
    btime: u64,
    now: u64,
) -> (r: Metrics)
    ensures
        r@ == weight_since(proc::opt_process(prev), *cur, elapsed, *consts, btime, now),
{
    let whole: u64 = if elapsed < MIN_ELAPSED {
        MIN_ELAPSED
    } else {
        elapsed
    };
    let none: Option<u64> = None;
    let (read, write, gfx_ns, compute_ns, gfx_cycles, compute_cycles) = match prev {
        Some(p) => (
            p.read_bytes,
            p.write_bytes,
            p.gpu.gfx_ns,
            p.gpu.compute_ns,
            p.gpu.gfx_cycles,
            p.gpu.compute_cycles,
        ),
        None => (none, none, none, none, none, none),
    };
    let span: Option<u64> = cycles_span(prev, cur);
    let d_state_procs: u32 = if cur.d_state {
        1
    } else {
        0
    };
    Metrics {
        cpu_ticks: ticks_used(prev, cur),
        rss_bytes: scaled(cur.rss_pages, consts.page_size),
        pss_bytes: scaled(cur.pss_kb, 1024),
        swap_bytes: scaled(cur.swap_pss_kb, 1024),
        threads: cur.threads,
        age_secs: age_secs(cur.starttime_ticks, consts.clk_tck, btime, now),
        read_bytes: advanced(read, cur.read_bytes),
        written_bytes: advanced(write, cur.write_bytes),
        vram_bytes: cur.gpu.vram_bytes,
        gtt_bytes: cur.gpu.gtt_bytes,
        gfx: engine_share(
            advanced(gfx_ns, cur.gpu.gfx_ns),
            whole,
            advanced(gfx_cycles, cur.gpu.gfx_cycles),
            span,
        ),
        compute: engine_share(
            advanced(compute_ns, cur.gpu.compute_ns),
            whole,
            advanced(compute_cycles, cur.gpu.compute_cycles),
            span,
        ),
        net_rx: None,
        net_tx: None,
        d_state_procs,
        cpu_stall: None,
        io_stall: None,
        mem_stall: None,
    }
}

/// A busy share is never more than the whole.
pub proof fn law_no_engine_is_more_than_busy(
    prev: Option<Process>,
    cur: Process,
    elapsed: u64,
    consts: HostHeader,
    btime: u64,
    now: u64,
)
    ensures
        ({
            let w = weight_since(prev, cur, elapsed, consts, btime, now);
            &&& w.gfx matches Some(s) ==> s.len() == 1 && s[0].part <= s[0].whole && s[0].whole > 0
            &&& w.compute matches Some(s) ==> s.len() == 1 && s[0].part <= s[0].whole && s[0].whole
                > 0
        }),
{
}

/// What the tree says of the machine as a whole.
pub open spec fn is_header(
    t: HostTree,
    c: HostHeader,
    a: HostCpu,
    b: HostCpu,
    ram: HostTree,
    gpu: GpuPool,
    sampled_at: u64,
    kernel_threads: Option<u64>,
) -> bool {
    &&& t.sampled_at == sampled_at && t.kernel_threads == kernel_threads && t.nproc == c.nproc
    &&& t.cpu == split_of(a, b)
    &&& t.mem_used_bytes == ram.mem_used_bytes && t.mem_total_bytes == ram.mem_total_bytes
    &&& t.mem_buffers_bytes == ram.mem_buffers_bytes && t.mem_cached_bytes == ram.mem_cached_bytes
    &&& t.mem_shmem_bytes == ram.mem_shmem_bytes && t.mem_anon_bytes == ram.mem_anon_bytes
    &&& t.mem_kernel_bytes == ram.mem_kernel_bytes
    &&& t.mem_sreclaimable_bytes == ram.mem_sreclaimable_bytes
    &&& t.zram_used_bytes == ram.zram_used_bytes
    &&& t.swap_used_bytes == ram.swap_used_bytes && t.swap_total_bytes == ram.swap_total_bytes
    &&& t.vram_used_bytes == gpu.vram_used && t.vram_total_bytes == gpu.vram_total
    &&& t.unified_memory == mem::unified(ram.mem_total_bytes, gpu)
    &&& t.psi_cpu_avg10 is None && t.psi_io_avg10 is None && t.psi_mem_avg10 is None
    &&& t.users@.len() == 0 && t.containers@.len() == 0 && t.system@.len() == 0
}

/// The part of the tree that says what the machine as a whole uses: its rows
/// come later.
pub fn header_from(
    c: &HostHeader,
    a: &HostCpu,
    b: &HostCpu,
    ram: &HostTree,
    gpu: &GpuPool,
    sampled_at: u64,
    kernel_threads: Option<u64>,
) -> (r: HostTree)
    ensures
        is_header(r, *c, *a, *b, *ram, *gpu, sampled_at, kernel_threads),
{
    let mut t = HostTree::default();
    t.sampled_at = sampled_at;
    t.kernel_threads = kernel_threads;
    t.nproc = c.nproc;
    t.cpu = host_split(a, b);
    t.mem_used_bytes = ram.mem_used_bytes;
    t.mem_total_bytes = ram.mem_total_bytes;
    t.mem_buffers_bytes = ram.mem_buffers_bytes;
    t.mem_cached_bytes = ram.mem_cached_bytes;
    t.mem_shmem_bytes = ram.mem_shmem_bytes;
    t.mem_anon_bytes = ram.mem_anon_bytes;
    t.mem_kernel_bytes = ram.mem_kernel_bytes;
    t.mem_sreclaimable_bytes = ram.mem_sreclaimable_bytes;
    t.zram_used_bytes = ram.zram_used_bytes;
    t.swap_used_bytes = ram.swap_used_bytes;
    t.swap_total_bytes = ram.swap_total_bytes;
    t.vram_used_bytes = gpu.vram_used;
    t.vram_total_bytes = gpu.vram_total;
    t.unified_memory = mem::is_unified(ram.mem_total_bytes, gpu);
    t
}

} // verus!
