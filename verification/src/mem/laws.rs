//! How the memory of a machine adds up, told by the lines it is read from.
use vstd::prelude::*;

use crate::mem;
use crate::mem::GpuPool;
use crate::types::HostTree;
use crate::{io, proc, text, types};

verus! {

/// A line of the memory file counts kibibytes behind its key: the last of them
/// stands, and none is nothing.
pub proof fn law_a_line_counts_kibibytes(
    lines: Seq<Seq<char>>,
    key: Seq<char>,
    k: int,
    gap: Seq<char>,
    n: u64,
)
    requires
        forall|j: int| 0 <= j < gap.len() ==> proc::is_blank(#[trigger] gap[j]),
        n <= u64::MAX / 1024,
    ensures
        0 <= k < lines.len() && lines[k] == key + (gap + text::decimal(n as nat) + seq![
            ' ',
            'k',
            'B',
        ]) && (forall|j: int|
            k < j < lines.len() ==> !text::has_prefix(#[trigger] lines[j], key)) ==> mem::kib(
            lines,
            key,
        ) == n * 1024,
        (forall|j: int| 0 <= j < lines.len() ==> !text::has_prefix(#[trigger] lines[j], key))
            ==> mem::kib(lines, key) == 0,
{
    if 0 <= k < lines.len() && lines[k] == key + (gap + text::decimal(n as nat) + seq![
        ' ',
        'k',
        'B',
    ]) && (forall|j: int| k < j < lines.len() ==> !text::has_prefix(#[trigger] lines[j], key)) {
        proc::laws::law_a_field_is_the_number_behind_its_key(key, gap, n, seq![' ', 'k', 'B']);
        proc::laws::law_the_last_field_counts(lines, key, k, lines.len() as int);
    }
    if forall|j: int| 0 <= j < lines.len() ==> !text::has_prefix(#[trigger] lines[j], key) {
        lemma_no_line(lines, key, lines.len() as int);
    }
}

proof fn lemma_no_line(lines: Seq<Seq<char>>, key: Seq<char>, n: int)
    requires
        0 <= n <= lines.len(),
        forall|j: int| 0 <= j < lines.len() ==> !text::has_prefix(#[trigger] lines[j], key),
    ensures
        io::last_field(lines, key, n) is None,
    decreases n,
{
    if n > 0 {
        assert(!text::has_prefix(lines[n - 1], key));
        lemma_no_line(lines, key, n - 1);
    }
}

/// What is used and what is available make the total, and so do swap in use
/// and swap that is free.
pub proof fn law_used_and_available_make_the_total(t: HostTree, file: Seq<char>)
    requires
        mem::is_meminfo(t, file),
    ensures
        ({
            let l = text::lines_of(file);
            let free = mem::kib(l, "MemAvailable:"@);
            let swap = mem::kib(l, "SwapFree:"@);
            &&& t.mem_total_bytes == mem::kib(l, "MemTotal:"@)
            &&& free <= t.mem_total_bytes ==> t.mem_used_bytes + free == t.mem_total_bytes
            &&& free > t.mem_total_bytes ==> t.mem_used_bytes == 0
            &&& t.swap_total_bytes == mem::kib(l, "SwapTotal:"@)
            &&& swap <= t.swap_total_bytes ==> t.swap_used_bytes + swap == t.swap_total_bytes
            &&& swap > t.swap_total_bytes ==> t.swap_used_bytes == 0
        }),
{
}

/// Each kind of memory is the one its own key counts.
pub proof fn law_each_kind_has_its_key(t: HostTree, file: Seq<char>)
    requires
        mem::is_meminfo(t, file),
    ensures
        ({
            let l = text::lines_of(file);
            &&& t.mem_buffers_bytes == mem::kib(l, "Buffers:"@)
            &&& t.mem_cached_bytes == mem::kib(l, "Cached:"@)
            &&& t.mem_shmem_bytes == mem::kib(l, "Shmem:"@)
            &&& t.mem_sreclaimable_bytes == mem::kib(l, "SReclaimable:"@)
            &&& t.mem_anon_bytes == mem::kib(l, "AnonPages:"@)
        }),
{
}

/// The kernel's own memory is what three keys count together: what it cannot
/// give back, its page tables and its stacks.
pub proof fn law_the_kernels_own_memory(lines: Seq<Seq<char>>, n: int, key: Seq<char>, v: u64)
    requires
        0 <= n < lines.len(),
        key == "SUnreclaim:"@ || key == "PageTables:"@ || key == "KernelStack:"@,
        proc::field(lines[n], key) == Some(v),
        mem::kernel_upto(lines, n) + v * 1024 <= u64::MAX,
    ensures
        mem::kernel_upto(lines, n + 1) == mem::kernel_upto(lines, n) + v * 1024,
{
    reveal_strlit("SUnreclaim:");
    reveal_strlit("PageTables:");
    reveal_strlit("KernelStack:");
    let line = lines[n];
    assert(text::has_prefix(line, key));
    assert(line.subrange(0, key.len() as int)[0] == line[0]);
    assert(key[0] == line[0]);
    if proc::field(line, "SUnreclaim:"@) is Some {
        assert(line.subrange(0, "SUnreclaim:"@.len() as int)[0] == line[0]);
        assert(line[0] == 'S');
    }
    if proc::field(line, "PageTables:"@) is Some {
        assert(line.subrange(0, "PageTables:"@.len() as int)[0] == line[0]);
        assert(line[0] == 'P');
    }
    assert("SUnreclaim:"@[0] == 'S' && "PageTables:"@[0] == 'P' && "KernelStack:"@[0] == 'K');
}

/// A line of any other key is no part of the kernel's own memory.
pub proof fn law_nothing_else_is_the_kernels(lines: Seq<Seq<char>>, n: int)
    requires
        0 <= n < lines.len(),
        !text::has_prefix(lines[n], "SUnreclaim:"@),
        !text::has_prefix(lines[n], "PageTables:"@),
        !text::has_prefix(lines[n], "KernelStack:"@),
    ensures
        mem::kernel_upto(lines, n + 1) == mem::kernel_upto(lines, n),
{
}

/// Compressed swap costs what the third number of each device says, all of
/// them together.
pub proof fn law_compressed_swap_adds_up(stats: Seq<Seq<char>>, n: int, v: u64)
    requires
        0 <= n < stats.len(),
        text::words(stats[n]).len() > 2,
        text::words(stats[n])[2] == text::decimal(v as nat),
        mem::zram_upto(stats, n) + v <= u64::MAX,
    ensures
        mem::zram_upto(stats, n + 1) == mem::zram_upto(stats, n) + v,
{
    text::laws::law_numbers_are_read_back(v as nat, u64::MAX as nat);
}

/// The devices of a machine add up, each figure to its own; a device that
/// gives only one figure of its own memory adds neither.
pub proof fn law_devices_add_up(pool: GpuPool, card: GpuPool)
    ensures
        ({
            let r = pool.with(card);
            let both = card.vram_total is Some && card.vram_used is Some;
            &&& both ==> crate::gpu::laws::added(r.vram_total, pool.vram_total, card.vram_total)
            &&& both ==> crate::gpu::laws::added(r.vram_used, pool.vram_used, card.vram_used)
            &&& !both ==> r.vram_total == pool.vram_total && r.vram_used == pool.vram_used
            &&& crate::gpu::laws::added(r.gtt_total, pool.gtt_total, card.gtt_total)
            &&& crate::gpu::laws::added(r.gtt_used, pool.gtt_used, card.gtt_used)
        }),
{
    reveal(types::opt_sum);
}

/// Memory is unified where the device's own is under an eighth of main memory,
/// or its window covers half of it; never where the device has none of its own
/// or as much as the machine.
pub proof fn law_when_memory_is_unified(total: u64, pool: GpuPool)
    ensures
        pool.vram_total is None || pool.vram_total == Some(0u64) || total == 0 ==> !mem::unified(
            total,
            pool,
        ),
        pool.vram_total is Some && pool.vram_total->0 >= total ==> !mem::unified(total, pool),
        pool.vram_total is Some && 0 < pool.vram_total->0 && 8 * pool.vram_total->0 < total
            ==> mem::unified(total, pool),
        pool.vram_total is Some && 0 < pool.vram_total->0 < total && pool.gtt_total is Some && 2
            * pool.gtt_total->0 >= total ==> mem::unified(total, pool),
        pool.vram_total is Some && 8 * pool.vram_total->0 >= total && (pool.gtt_total is None || 2
            * pool.gtt_total->0 + 1 < total) ==> !mem::unified(total, pool),
{
}

} // verus!
