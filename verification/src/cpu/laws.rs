//! How the figures of one process and of the machine relate to the counters
//! they are read from.
use vstd::prelude::*;

use crate::cpu;
use crate::cpu::HostCpu;
use crate::group;
use crate::group::assemble;
use crate::mem::GpuPool;
use crate::types::{HostHeader, HostTree, Process, Share};
use crate::{proc, text};

verus! {

// ---------------------------------------------------------------------------
// One process
// ---------------------------------------------------------------------------

/// CPU time is what both clocks of a process advanced, the user's and the
/// kernel's: together with what they showed before it makes what they show
/// now.
pub proof fn law_cpu_time_is_what_both_clocks_advanced(
    p: Process,
    cur: Process,
    elapsed: u64,
    consts: HostHeader,
    btime: u64,
    now: u64,
)
    requires
        p.utime <= cur.utime,
        p.stime <= cur.stime,
    ensures
        ({
            let ticks = cpu::weight_since(Some(p), cur, elapsed, consts, btime, now).cpu_ticks;
            let used = (cur.utime - p.utime) + (cur.stime - p.stime);
            &&& used <= u64::MAX ==> ticks + p.utime + p.stime == cur.utime + cur.stime
            &&& used > u64::MAX ==> ticks == u64::MAX
        }),
{
}

/// A process whose clocks show less than before, or that was not there before,
/// has used nothing.
pub proof fn law_no_cpu_time_without_an_advance(
    p: Process,
    cur: Process,
    elapsed: u64,
    consts: HostHeader,
    btime: u64,
    now: u64,
)
    ensures
        cur.utime + cur.stime <= p.utime + p.stime ==> cpu::weight_since(
            Some(p),
            cur,
            elapsed,
            consts,
            btime,
            now,
        ).cpu_ticks == 0,
        cpu::weight_since(None, cur, elapsed, consts, btime, now).cpu_ticks == 0,
{
}

/// What was used over two intervals is what was used over the first and what
/// was used over the second.
pub proof fn law_intervals_add_up(
    a: Process,
    b: Process,
    c: Process,
    elapsed: u64,
    consts: HostHeader,
    btime: u64,
    now: u64,
)
    requires
        a.utime <= b.utime <= c.utime,
        a.stime <= b.stime <= c.stime,
        c.utime + c.stime <= u64::MAX,
        a.read_bytes is Some && b.read_bytes is Some && c.read_bytes is Some,
        a.read_bytes->0 <= b.read_bytes->0 <= c.read_bytes->0,
        a.write_bytes is Some && b.write_bytes is Some && c.write_bytes is Some,
        a.write_bytes->0 <= b.write_bytes->0 <= c.write_bytes->0,
    ensures
        ({
            let first = cpu::weight_since(Some(a), b, elapsed, consts, btime, now);
            let second = cpu::weight_since(Some(b), c, elapsed, consts, btime, now);
            let both = cpu::weight_since(Some(a), c, elapsed, consts, btime, now);
            &&& both.cpu_ticks == first.cpu_ticks + second.cpu_ticks
            &&& both.read_bytes->0 == first.read_bytes->0 + second.read_bytes->0
            &&& both.written_bytes->0 == first.written_bytes->0 + second.written_bytes->0
        }),
{
}

/// Each process is held against its own past: the one of the sample before
/// that has its pid, and none where no process had.
pub proof fn law_each_process_by_its_own_past(
    prev: Seq<Process>,
    curr: Seq<Process>,
    elapsed: u64,
    consts: HostHeader,
    btime: u64,
    now: u64,
    k: int,
    i: int,
)
    requires
        group::by_pid(prev),
        0 <= k < curr.len(),
    ensures
        0 <= i < prev.len() && prev[i].pid == curr[k].pid ==> assemble::weights_since(
            prev,
            curr,
            elapsed,
            consts,
            btime,
            now,
        )[k] == cpu::weight_since(Some(prev[i]), curr[k], elapsed, consts, btime, now),
        (forall|j: int| 0 <= j < prev.len() ==> (#[trigger] prev[j]).pid != curr[k].pid)
            ==> assemble::weights_since(prev, curr, elapsed, consts, btime, now)[k]
            == cpu::weight_since(None, curr[k], elapsed, consts, btime, now),
{
    let pid = curr[k].pid;
    if 0 <= i < prev.len() && prev[i].pid == pid {
        let c = choose|j: int| 0 <= j < prev.len() && (#[trigger] prev[j]).pid == pid;
        assert(prev[i].pid == pid);
        assert(c == i) by {
            if c < i {
                assert(prev[c].pid < prev[i].pid);
            } else if c > i {
                assert(prev[i].pid < prev[c].pid);
            }
        }
    }
}

/// `r` is how far a counter went: unknown where either reading is, nothing
/// where it went back.
pub open spec fn went(r: Option<u64>, from: Option<u64>, to: Option<u64>) -> bool {
    &&& r is Some <==> from is Some && to is Some
    &&& r is Some && from->0 <= to->0 ==> r->0 + from->0 == to->0
    &&& r is Some && from->0 > to->0 ==> r->0 == 0
}

/// Traffic is what the counters of the disk went, each its own; a process that
/// was not there before has none yet.
pub proof fn law_traffic_is_what_the_counters_went(
    p: Process,
    cur: Process,
    elapsed: u64,
    consts: HostHeader,
    btime: u64,
    now: u64,
)
    ensures
        ({
            let w = cpu::weight_since(Some(p), cur, elapsed, consts, btime, now);
            let new = cpu::weight_since(None, cur, elapsed, consts, btime, now);
            &&& went(w.read_bytes, p.read_bytes, cur.read_bytes)
            &&& went(w.written_bytes, p.write_bytes, cur.write_bytes)
            &&& new.read_bytes is None && new.written_bytes is None
            &&& new.gfx is None && new.compute is None
        }),
{
}

/// `r` is `n` units of `size` bytes, unknown where `n` is.
pub open spec fn in_bytes(r: Option<u64>, n: Option<u64>, size: int) -> bool {
    &&& r is Some <==> n is Some
    &&& r is Some && n->0 * size <= u64::MAX ==> r->0 == n->0 * size
    &&& r is Some && n->0 * size > u64::MAX ==> r->0 == u64::MAX
}

/// Memory is counted in bytes: the resident set in pages of the machine, the
/// shares of it and of the swap in kibibytes. It is what the process holds
/// now, whatever it held before.
pub proof fn law_memory_is_in_bytes(
    prev: Option<Process>,
    cur: Process,
    elapsed: u64,
    consts: HostHeader,
    btime: u64,
    now: u64,
)
    ensures
        ({
            let w = cpu::weight_since(prev, cur, elapsed, consts, btime, now);
            &&& in_bytes(w.rss_bytes, cur.rss_pages, consts.page_size as int)
            &&& in_bytes(w.pss_bytes, cur.pss_kb, 1024)
            &&& in_bytes(w.swap_bytes, cur.swap_pss_kb, 1024)
            &&& w.vram_bytes == cur.gpu.vram_bytes && w.gtt_bytes == cur.gpu.gtt_bytes
            &&& w.threads == cur.threads
            &&& w.d_state_procs == 1 <==> cur.d_state
            &&& w.d_state_procs <= 1
        }),
{
}

/// The boot, the seconds from it to the start of a process, and its age make
/// the present.
pub proof fn law_an_age_reaches_the_present(
    prev: Option<Process>,
    cur: Process,
    elapsed: u64,
    consts: HostHeader,
    btime: u64,
    now: u64,
)
    ensures
        ({
            let age = cpu::weight_since(prev, cur, elapsed, consts, btime, now).age_secs;
            let started = btime + cur.starttime_ticks->0 as int / consts.clk_tck as int;
            &&& age is Some <==> cur.starttime_ticks is Some && btime != 0 && consts.clk_tck != 0
                && now != 0
            &&& age is Some && started <= now ==> started + age->0 == now
            &&& age is Some && started > now ==> age->0 == 0
        }),
{
    if cur.starttime_ticks is Some && consts.clk_tck != 0 {
        let (t, c) = (cur.starttime_ticks->0 as int, consts.clk_tck as int);
        assert(0 <= t / c <= t) by (nonlinear_arith)
            requires
                t >= 0,
                c > 0,
        ;
        assert(t / c == (cur.starttime_ticks->0 / consts.clk_tck) as int);
    }
}

/// `shares` is the one share of `used` in `whole`, and never more than all.
pub open spec fn is_share(shares: Option<Seq<Share>>, used: int, whole: int) -> bool {
    &&& shares is Some
    &&& shares->0.len() == 1
    &&& shares->0[0].whole == whole
    &&& used <= whole ==> shares->0[0].part == used
    &&& used > whole ==> shares->0[0].part == whole
}

/// Where a driver counts nanoseconds, each engine is busy by what its own
/// counter went, of the interval.
pub proof fn law_engines_by_their_own_counters(
    p: Process,
    cur: Process,
    elapsed: u64,
    consts: HostHeader,
    btime: u64,
    now: u64,
)
    requires
        elapsed >= 1000,
    ensures
        ({
            let w = cpu::weight_since(Some(p), cur, elapsed, consts, btime, now);
            &&& p.gpu.gfx_ns is Some && cur.gpu.gfx_ns is Some && p.gpu.gfx_ns->0
                <= cur.gpu.gfx_ns->0 ==> is_share(
                w.gfx,
                cur.gpu.gfx_ns->0 - p.gpu.gfx_ns->0,
                elapsed as int,
            )
            &&& p.gpu.compute_ns is Some && cur.gpu.compute_ns is Some && p.gpu.compute_ns->0
                <= cur.gpu.compute_ns->0 ==> is_share(
                w.compute,
                cur.gpu.compute_ns->0 - p.gpu.compute_ns->0,
                elapsed as int,
            )
        }),
{
}

/// Where a driver counts cycles only, each engine is busy by what its own
/// counter went, of what the clock of the device went.
pub proof fn law_engines_by_the_devices_clock(
    p: Process,
    cur: Process,
    elapsed: u64,
    consts: HostHeader,
    btime: u64,
    now: u64,
)
    requires
        p.gpu.total_cycles is Some && cur.gpu.total_cycles is Some,
        p.gpu.total_cycles->0 < cur.gpu.total_cycles->0,
        p.gpu.gfx_ns is None || cur.gpu.gfx_ns is None,
        p.gpu.compute_ns is None || cur.gpu.compute_ns is None,
    ensures
        ({
            let w = cpu::weight_since(Some(p), cur, elapsed, consts, btime, now);
            let span = cur.gpu.total_cycles->0 - p.gpu.total_cycles->0;
            &&& p.gpu.gfx_cycles is Some && cur.gpu.gfx_cycles is Some && p.gpu.gfx_cycles->0
                <= cur.gpu.gfx_cycles->0 ==> is_share(
                w.gfx,
                cur.gpu.gfx_cycles->0 - p.gpu.gfx_cycles->0,
                span,
            )
            &&& p.gpu.compute_cycles is Some && cur.gpu.compute_cycles is Some
                && p.gpu.compute_cycles->0 <= cur.gpu.compute_cycles->0 ==> is_share(
                w.compute,
                cur.gpu.compute_cycles->0 - p.gpu.compute_cycles->0,
                span,
            )
            &&& p.gpu.gfx_cycles is None || cur.gpu.gfx_cycles is None ==> w.gfx is None
            &&& p.gpu.compute_cycles is None || cur.gpu.compute_cycles is None ==> w.compute is None
        }),
{
}

// ---------------------------------------------------------------------------
// The machine
// ---------------------------------------------------------------------------

/// The number of a column, nothing where there is none.
pub open spec fn count_in(w: Seq<Seq<char>>, k: int) -> int {
    if k < w.len() && proc::number64(w[k]) is Some {
        proc::number64(w[k])->0 as int
    } else {
        0
    }
}

/// Of a line of CPU times, the first two numbers are programs', the third, the
/// sixth and the seventh the kernel's, the fifth is waited, and the whole is
/// all of the first eight.
pub proof fn law_the_columns_of_cpu_time(line: Seq<char>)
    requires
        cpu::cpu_of(line) is Some,
        ({
            let w = text::words(line);
            count_in(w, 1) + count_in(w, 2) + count_in(w, 3) + count_in(w, 4) + count_in(w, 5)
                + count_in(w, 6) + count_in(w, 7) + count_in(w, 8) <= u64::MAX
        }),
    ensures
        ({
            let w = text::words(line);
            let t = cpu::cpu_of(line)->0;
            &&& w[0] == "cpu"@
            &&& t.user == count_in(w, 1) + count_in(w, 2)
            &&& t.system == count_in(w, 3) + count_in(w, 6) + count_in(w, 7)
            &&& t.wait == count_in(w, 5)
            &&& t.total == count_in(w, 1) + count_in(w, 2) + count_in(w, 3) + count_in(w, 4)
                + count_in(w, 5) + count_in(w, 6) + count_in(w, 7) + count_in(w, 8)
        }),
{
}

/// The machine's time is that of the first line that begins with `cpu` and a
/// blank.
pub proof fn law_the_machines_line(stat: Seq<char>, k: int)
    requires
        0 <= k < text::lines_of(stat).len(),
        text::has_prefix(text::lines_of(stat)[k], "cpu "@),
        forall|j: int|
            0 <= j < k ==> !text::has_prefix(#[trigger] text::lines_of(stat)[j], "cpu "@),
    ensures
        cpu::cpu_of(text::lines_of(stat)[k]) is Some ==> Some(cpu::host_of(stat)) == cpu::cpu_of(
            text::lines_of(stat)[k],
        ),
        cpu::cpu_of(text::lines_of(stat)[k]) is None ==> cpu::host_of(stat).total == 0,
{
    lemma_line(text::lines_of(stat), k, 0);
}

proof fn lemma_line(lines: Seq<Seq<char>>, k: int, j: int)
    requires
        0 <= j <= k < lines.len(),
        text::has_prefix(lines[k], "cpu "@),
        forall|m: int| 0 <= m < k ==> !text::has_prefix(#[trigger] lines[m], "cpu "@),
    ensures
        proc::line_from(lines, "cpu "@, j) == Some(lines[k]),
    decreases k - j,
{
    if j < k {
        assert(!text::has_prefix(lines[j], "cpu "@));
        lemma_line(lines, k, j + 1);
    }
}

/// Every line of one CPU counts, and no other: `cpu`, then a digit.
pub open spec fn lists_a_cpu(line: Seq<char>) -> bool {
    &&& line.len() > 3
    &&& line[0] == 'c' && line[1] == 'p' && line[2] == 'u'
    &&& '0' <= line[3] && line[3] <= '9'
}

proof fn lemma_cpus(lines: Seq<Seq<char>>, n: int)
    requires
        0 <= n <= lines.len(),
    ensures
        cpu::cpus_upto(lines, n) == lines.subrange(0, n).filter(
            |l: Seq<char>| lists_a_cpu(l),
        ).len(),
    decreases n,
{
    let f = |l: Seq<char>| lists_a_cpu(l);
    reveal(Seq::filter);
    if n > 0 {
        lemma_cpus(lines, n - 1);
        let (now, less) = (lines.subrange(0, n), lines.subrange(0, n - 1));
        assert(now.drop_last() =~= less);
        let line = lines[n - 1];
        assert(now.last() == line);
        reveal_strlit("cpu");
        assert(cpu::names_a_cpu(line) <==> lists_a_cpu(line)) by {
            if line.len() > 3 {
                let head = line.subrange(0, 3);
                assert(head[0] == line[0] && head[1] == line[1] && head[2] == line[2]);
                if lists_a_cpu(line) {
                    assert(head =~= "cpu"@);
                }
                if cpu::names_a_cpu(line) {
                    assert(head == "cpu"@);
                }
            }
        }
    } else {
        assert(lines.subrange(0, n).len() == 0);
    }
}

/// The machine has as many CPUs as lines list one, and at least one.
pub proof fn law_one_line_for_each_cpu(stat: Seq<char>)
    ensures
        ({
            let n = text::lines_of(stat).filter(|l: Seq<char>| lists_a_cpu(l)).len();
            &&& 0 < n <= u32::MAX ==> cpu::cpus_of(stat) == n
            &&& n == 0 ==> cpu::cpus_of(stat) == 1
        }),
{
    let lines = text::lines_of(stat);
    lemma_cpus(lines, lines.len() as int);
    assert(lines.subrange(0, lines.len() as int) =~= lines);
}

/// Between two samples of a machine that was not reset, each part of its time
/// with what it was before makes what it is now, and what is busy is the
/// programs', the kernel's and the wait together.
pub proof fn law_the_parts_of_the_machines_time(a: HostCpu, b: HostCpu)
    requires
        a.user <= b.user,
        a.system <= b.system,
        a.wait <= b.wait,
        a.total <= b.total,
        (b.user - a.user) + (b.system - a.system) + (b.wait - a.wait) <= b.total - a.total,
    ensures
        ({
            let s = cpu::split_of(a, b);
            &&& s.user + a.user == b.user
            &&& s.system + a.system == b.system
            &&& s.wait + a.wait == b.wait
            &&& s.whole + a.total == b.total
            &&& s.busy == s.user + s.system + s.wait
        }),
{
}

// ---------------------------------------------------------------------------
// The header
// ---------------------------------------------------------------------------

/// The header says of memory what memory was read as, of graphics memory what
/// the pool holds, and of the processes how many there are; the tree below it
/// is empty and no pressure is known yet.
pub proof fn law_the_header_repeats_what_was_read(
    t: HostTree,
    c: HostHeader,
    a: HostCpu,
    b: HostCpu,
    ram: HostTree,
    gpu: GpuPool,
    at: u64,
    threads: Option<u64>,
)
    requires
        cpu::is_header(t, c, a, b, ram, gpu, at, threads),
    ensures
        t.sampled_at == at && t.kernel_threads == threads && t.nproc == c.nproc,
        (t.mem_used_bytes, t.mem_total_bytes) == (ram.mem_used_bytes, ram.mem_total_bytes),
        (t.mem_buffers_bytes, t.mem_cached_bytes) == (ram.mem_buffers_bytes, ram.mem_cached_bytes),
        (t.mem_shmem_bytes, t.mem_anon_bytes) == (ram.mem_shmem_bytes, ram.mem_anon_bytes),
        (t.mem_kernel_bytes, t.mem_sreclaimable_bytes) == (
            ram.mem_kernel_bytes,
            ram.mem_sreclaimable_bytes,
        ),
        (t.swap_used_bytes, t.swap_total_bytes) == (ram.swap_used_bytes, ram.swap_total_bytes),
        t.zram_used_bytes == ram.zram_used_bytes,
        (t.vram_used_bytes, t.vram_total_bytes) == (gpu.vram_used, gpu.vram_total),
        t.psi_cpu_avg10 is None && t.psi_io_avg10 is None && t.psi_mem_avg10 is None,
        t.users@.len() == 0 && t.containers@.len() == 0 && t.system@.len() == 0,
{
}

} // verus!
