//! The machine's memory: what its files count, and how the used part divides.
use vstd::prelude::*;

use crate::types::{HostSplit, HostTree};
use crate::{io, proc, text, types};

pub mod laws;

verus! {

// ---------------------------------------------------------------------------
// Main memory
// ---------------------------------------------------------------------------

/// The bytes that the last line with a key counts in KiB; none where no line
/// has it.
pub open spec fn kib(lines: Seq<Seq<char>>, key: Seq<char>) -> u64 {
    match io::last_field(lines, key, lines.len() as int) {
        Some(n) => types::capped_product(n, 1024),
        None => 0,
    }
}

/// What a line counts of the kernel's own memory.
pub open spec fn kernel_field(line: Seq<char>) -> Option<u64> {
    if proc::field(line, "SUnreclaim:"@) is Some {
        proc::field(line, "SUnreclaim:"@)
    } else if proc::field(line, "PageTables:"@) is Some {
        proc::field(line, "PageTables:"@)
    } else {
        proc::field(line, "KernelStack:"@)
    }
}

/// The kernel's own memory over the first `n` lines.
pub open spec fn kernel_upto(lines: Seq<Seq<char>>, n: int) -> u64
    decreases n,
{
    if n <= 0 {
        0
    } else {
        match kernel_field(lines[n - 1]) {
            Some(v) => types::capped(
                kernel_upto(lines, n - 1),
                types::capped_product(v, 1024),
            ),
            None => kernel_upto(lines, n - 1),
        }
    }
}

/// `a` less `b`, nothing below zero.
pub open spec fn less(a: u64, b: u64) -> u64 {
    if a > b {
        (a - b) as u64
    } else {
        0
    }
}

/// A tree that says of the machine only what a meminfo file counts: used is
/// what is not available, and swap in use is what of it is not free.
pub open spec fn is_meminfo(t: HostTree, text: Seq<char>) -> bool {
    let l = text::lines_of(text);
    &&& t.mem_total_bytes == kib(l, "MemTotal:"@)
    &&& t.mem_used_bytes == less(kib(l, "MemTotal:"@), kib(l, "MemAvailable:"@))
    &&& t.mem_buffers_bytes == kib(l, "Buffers:"@)
    &&& t.mem_cached_bytes == kib(l, "Cached:"@)
    &&& t.mem_shmem_bytes == kib(l, "Shmem:"@)
    &&& t.mem_sreclaimable_bytes == kib(l, "SReclaimable:"@)
    &&& t.mem_anon_bytes == kib(l, "AnonPages:"@)
    &&& t.mem_kernel_bytes == kernel_upto(l, l.len() as int)
    &&& t.swap_total_bytes == kib(l, "SwapTotal:"@)
    &&& t.swap_used_bytes == less(kib(l, "SwapTotal:"@), kib(l, "SwapFree:"@))
    &&& t.zram_used_bytes == 0
    &&& t.sampled_at == 0 && t.kernel_threads is None && t.nproc == 0
    &&& t.cpu == (HostSplit { user: 0, system: 0, wait: 0, busy: 0, whole: 0 })
    &&& t.vram_used_bytes is None && t.vram_total_bytes is None && !t.unified_memory
    &&& t.psi_cpu_avg10 is None && t.psi_io_avg10 is None && t.psi_mem_avg10 is None
    &&& t.users@.len() == 0 && t.containers@.len() == 0 && t.system@.len() == 0
}

fn kib_of(lines: &Vec<Vec<char>>, key: &str) -> (r: u64)
    ensures
        r == kib(text::views(lines@), key@),
{
    assert(text::views(lines@).len() == lines@.len());
    match io::find_last_field(lines, key) {
        Some(n) => types::capped_mul(n, 1024),
        None => 0,
    }
}

fn kernel_bytes(lines: &Vec<Vec<char>>) -> (r: u64)
    ensures
        r == kernel_upto(text::views(lines@), lines@.len() as int),
{
    let ghost all = text::views(lines@);
    let a = text::chars_of("SUnreclaim:");
    let b = text::chars_of("PageTables:");
    let c = text::chars_of("KernelStack:");
    let mut sum: u64 = 0;
    let mut i: usize = 0;
    while i < lines.len()
        invariant
            i <= lines@.len(),
            all == text::views(lines@),
            a@ == "SUnreclaim:"@,
            b@ == "PageTables:"@,
            c@ == "KernelStack:"@,
            sum == kernel_upto(all, i as int),
        decreases lines.len() - i,
    {
        assert(all[i as int] == lines@[i as int]@);
        let line = lines[i].as_slice();
        let mut v: Option<u64> = proc::field_of(line, a.as_slice());
        if v.is_none() {
            v = proc::field_of(line, b.as_slice());
        }
        if v.is_none() {
            v = proc::field_of(line, c.as_slice());
        }
        if let Some(n) = v {
            sum = sum.saturating_add(types::capped_mul(n, 1024));
        }
        i += 1;
    }
    sum
}

/// The memory and swap that a meminfo file counts.
pub fn parse_meminfo(t: &str) -> (r: HostTree)
    ensures
        is_meminfo(r, t@),
{
    let lines = text::split_lines(text::chars_of(t).as_slice());
    assert(text::views(lines@).len() == lines@.len());
    let total: u64 = kib_of(&lines, "MemTotal:");
    let swap_total: u64 = kib_of(&lines, "SwapTotal:");
    let mut r = HostTree::default();
    r.mem_total_bytes = total;
    r.mem_used_bytes = total.saturating_sub(kib_of(&lines, "MemAvailable:"));
    r.mem_buffers_bytes = kib_of(&lines, "Buffers:");
    r.mem_cached_bytes = kib_of(&lines, "Cached:");
    r.mem_shmem_bytes = kib_of(&lines, "Shmem:");
    r.mem_sreclaimable_bytes = kib_of(&lines, "SReclaimable:");
    r.mem_anon_bytes = kib_of(&lines, "AnonPages:");
    r.mem_kernel_bytes = kernel_bytes(&lines);
    r.swap_total_bytes = swap_total;
    r.swap_used_bytes = swap_total.saturating_sub(kib_of(&lines, "SwapFree:"));
    r
}

/// What a compressed swap device costs in memory: the third number it counts.
pub open spec fn zram_of(mm_stat: Seq<char>) -> Option<u64> {
    let w = text::words(mm_stat);
    if w.len() > 2 {
        proc::number64(w[2])
    } else {
        None
    }
}

pub fn zram_used(mm_stat: &str) -> (r: Option<u64>)
    ensures
        r == zram_of(mm_stat@),
{
    let w = text::split_words(text::chars_of(mm_stat).as_slice());
    assert(text::views(w@).len() == w@.len());
    if w.len() > 2 {
        assert(text::views(w@)[2] == w@[2]@);
        proc::parse_u64(w[2].as_slice())
    } else {
        None
    }
}

/// What the first `n` devices cost; one that does not say costs nothing.
pub open spec fn zram_upto(stats: Seq<Seq<char>>, n: int) -> u64
    decreases n,
{
    if n <= 0 {
        0
    } else {
        match zram_of(stats[n - 1]) {
            Some(v) => types::capped(zram_upto(stats, n - 1), v),
            None => zram_upto(stats, n - 1),
        }
    }
}

/// What all compressed swap devices cost together.
pub fn zram_total(stats: &Vec<String>) -> (r: u64)
    ensures
        r == zram_upto(text::texts(stats@), stats@.len() as int),
{
    let ghost all = text::texts(stats@);
    let mut sum: u64 = 0;
    let mut i: usize = 0;
    while i < stats.len()
        invariant
            i <= stats@.len(),
            all == text::texts(stats@),
            sum == zram_upto(all, i as int),
        decreases stats.len() - i,
    {
        assert(all[i as int] == stats@[i as int]@);
        if let Some(v) = zram_used(stats[i].as_str()) {
            sum = sum.saturating_add(v);
        }
        i += 1;
    }
    sum
}

/// A compressed swap device, by its name.
pub fn is_zram(name: &str) -> (r: bool)
    ensures
        r == text::has_prefix(name@, "zram"@),
{
    text::str_prefixed(name, "zram")
}

// ---------------------------------------------------------------------------
// Graphics memory
// ---------------------------------------------------------------------------

/// What graphics devices count of their memory.
#[derive(Clone, Copy, Debug, PartialEq, Eq, Structural)]
pub struct GpuPool {
    pub vram_used: Option<u64>,
    pub vram_total: Option<u64>,
    pub gtt_total: Option<u64>,
    pub gtt_used: Option<u64>,
}

impl Default for GpuPool {
    fn default() -> (r: Self)
        ensures
            r == (GpuPool { vram_used: None, vram_total: None, gtt_total: None, gtt_used: None }),
    {
        GpuPool { vram_used: None, vram_total: None, gtt_total: None, gtt_used: None }
    }
}

/// A graphics device, by its name: a card, and no connector of one.
pub fn is_card(name: &str) -> (r: bool)
    ensures
        r == (text::has_prefix(name@, "card"@) && !name@.contains('-')),
{
    text::str_prefixed(name, "card") && !text::str_has(name, '-')
}

/// The number a file of one number holds.
pub fn lone_number(t: &str) -> (r: Option<u64>)
    ensures
        r == proc::number64(text::trimmed(t@)),
{
    proc::parse_u64(text::trim(text::chars_of(t).as_slice()).as_slice())
}

impl GpuPool {
    /// With another device added. Its own memory counts only where it gives
    /// both figures of it.
    pub open spec fn with(self, card: GpuPool) -> GpuPool {
        let both = card.vram_total is Some && card.vram_used is Some;
        GpuPool {
            vram_total: if both {
                types::opt_sum(self.vram_total, card.vram_total)
            } else {
                self.vram_total
            },
            vram_used: if both {
                types::opt_sum(self.vram_used, card.vram_used)
            } else {
                self.vram_used
            },
            gtt_total: types::opt_sum(self.gtt_total, card.gtt_total),
            gtt_used: types::opt_sum(self.gtt_used, card.gtt_used),
        }
    }

    pub fn add_card(&mut self, card: &GpuPool)
        ensures
            *final(self) == old(self).with(*card),
    {
        if card.vram_total.is_some() && card.vram_used.is_some() {
            self.vram_total = types::sum_opt(self.vram_total, card.vram_total);
            self.vram_used = types::sum_opt(self.vram_used, card.vram_used);
        }
        self.gtt_total = types::sum_opt(self.gtt_total, card.gtt_total);
        self.gtt_used = types::sum_opt(self.gtt_used, card.gtt_used);
    }
}

/// A device's memory is a part of main memory: it has some, less than main
/// memory, and either its window covers half of main memory or its own is less
/// than an eighth of it.
pub open spec fn unified(mem_total: u64, gpu: GpuPool) -> bool {
    match gpu.vram_total {
        Some(vram) => {
            &&& vram > 0 && mem_total > 0 && vram < mem_total
            &&& (gpu.gtt_total is Some && gpu.gtt_total->0 >= mem_total / 2) || vram * 8 < mem_total
        },
        None => false,
    }
}

pub fn is_unified(mem_total: u64, gpu: &GpuPool) -> (r: bool)
    ensures
        r == unified(mem_total, *gpu),
{
    let vram: u64 = match gpu.vram_total {
        Some(v) => v,
        None => {
            return false;
        },
    };
    if vram == 0 || mem_total == 0 || vram >= mem_total {
        return false;
    }
    if let Some(g) = gpu.gtt_total {
        if g >= mem_total / 2 {
            return true;
        }
    }
    types::capped_mul(vram, 8) < mem_total
}

// ---------------------------------------------------------------------------
// How the used part divides
// ---------------------------------------------------------------------------

/// The room left when the first `k` have taken what they want of it.
pub open spec fn left_after(room: u64, wants: Seq<u64>, k: int) -> u64
    decreases k, 0int,
{
    if k <= 0 {
        room
    } else {
        (left_after(room, wants, k - 1) - got(room, wants, k - 1)) as u64
    }
}

/// What the one at `k` gets: what it wants, as far as the ones before it left
/// room.
pub open spec fn got(room: u64, wants: Seq<u64>, k: int) -> u64
    decreases k, 1int,
{
    let left = left_after(room, wants, k);
    if wants[k] < left {
        wants[k]
    } else {
        left
    }
}

/// How memory is painted: six kinds inside what is used, then what of it none
/// of them itemises, then three kinds beyond it, each held to the room the
/// ones before it left.
pub open spec fn painted(used: u64, total: u64, inside: Seq<u64>, beyond: Seq<u64>) -> Seq<u64> {
    if total == 0 {
        Seq::new(10, |k: int| 0u64)
    } else {
        let u = if used < total {
            used
        } else {
            total
        };
        let rest = (total - u) as u64;
        seq![
            got(u, inside, 0),
            got(u, inside, 1),
            got(u, inside, 2),
            got(u, inside, 3),
            got(u, inside, 4),
            got(u, inside, 5),
            left_after(u, inside, 6),
            got(rest, beyond, 0),
            got(rest, beyond, 1),
            got(rest, beyond, 2),
        ]
    }
}

proof fn lemma_unfold(room: u64, wants: Seq<u64>)
    ensures
        left_after(room, wants, 0) == room,
        left_after(room, wants, 1) == left_after(room, wants, 0) - got(room, wants, 0),
        left_after(room, wants, 2) == left_after(room, wants, 1) - got(room, wants, 1),
        left_after(room, wants, 3) == left_after(room, wants, 2) - got(room, wants, 2),
        left_after(room, wants, 4) == left_after(room, wants, 3) - got(room, wants, 3),
        left_after(room, wants, 5) == left_after(room, wants, 4) - got(room, wants, 4),
        left_after(room, wants, 6) == left_after(room, wants, 5) - got(room, wants, 5),
{
}

fn take(want: u64, left: u64) -> (r: u64)
    ensures
        r <= left,
        r == if want < left {
            want
        } else {
            left
        },
{
    if want < left {
        want
    } else {
        left
    }
}

pub fn clip_used(used: u64, total: u64, inside: [u64; 6], beyond: [u64; 3]) -> (r: [u64; 10])
    ensures
        r@ == painted(used, total, inside@, beyond@),
{
    if total == 0 {
        let r: [u64; 10] = [0, 0, 0, 0, 0, 0, 0, 0, 0, 0];
        assert(r@ =~= painted(used, total, inside@, beyond@));
        return r;
    }
    let u: u64 = if used < total {
        used
    } else {
        total
    };
    let rest: u64 = total - u;
    proof {
        lemma_unfold(u, inside@);
        lemma_unfold(rest, beyond@);
    }
    let a: u64 = take(inside[0], u);
    let b: u64 = take(inside[1], u - a);
    let c: u64 = take(inside[2], u - a - b);
    let d: u64 = take(inside[3], u - a - b - c);
    let e: u64 = take(inside[4], u - a - b - c - d);
    let f: u64 = take(inside[5], u - a - b - c - d - e);
    let other: u64 = u - a - b - c - d - e - f;
    let g: u64 = take(beyond[0], rest);
    let h: u64 = take(beyond[1], rest - g);
    let i: u64 = take(beyond[2], rest - g - h);
    let r: [u64; 10] = [a, b, c, d, e, f, other, g, h, i];
    assert(r@ =~= painted(used, total, inside@, beyond@));
    r
}

/// What is painted inside the used part adds up to it, and all of it never
/// exceeds the whole.
pub proof fn law_the_painted_parts_fill_what_is_used(
    used: u64,
    total: u64,
    inside: Seq<u64>,
    beyond: Seq<u64>,
)
    requires
        inside.len() == 6,
        beyond.len() == 3,
    ensures
        ({
            let p = painted(used, total, inside, beyond);
            let sum = p[0] + p[1] + p[2] + p[3] + p[4] + p[5] + p[6];
            &&& p.len() == 10
            &&& sum == if used < total {
                used
            } else {
                total
            }
            &&& sum + p[7] + p[8] + p[9] <= total
        }),
{
    if total > 0 {
        let u = if used < total {
            used
        } else {
            total
        };
        lemma_unfold(u, inside);
        lemma_unfold((total - u) as u64, beyond);
    }
}

} // verus!
