//! What the bars of the header stand for.
use vstd::prelude::*;

use crate::glyph::GlyphSet;
use crate::types;
use crate::types::HostTree;
use crate::ui::bars;
use crate::ui::bars::{CpuWeights, Part};
use crate::{mem, once};

verus! {

// ---------------------------------------------------------------------------
// Cells
// ---------------------------------------------------------------------------

proof fn lemma_neediest(rests: Seq<int>, served: Seq<bool>, n: int)
    requires
        0 <= n <= served.len(),
    ensures
        bars::neediest(rests, served, n) matches Some(k) ==> 0 <= k < n && !served[k],
    decreases n,
{
    if n > 0 {
        lemma_neediest(rests, served, n - 1);
    }
}

proof fn lemma_handed_out(
    base: Seq<int>,
    cells: Seq<int>,
    rests: Seq<int>,
    served: Seq<bool>,
    extra: nat,
)
    requires
        cells.len() == base.len(),
        served.len() == base.len(),
        forall|k: int|
            0 <= k < base.len() ==> #[trigger] cells[k] == base[k] + if served[k] {
                1int
            } else {
                0
            },
    ensures
        bars::handed_out(cells, rests, served, extra).len() == base.len(),
        forall|k: int|
            0 <= k < base.len() ==> base[k] <= #[trigger] bars::handed_out(
                cells,
                rests,
                served,
                extra,
            )[k] <= base[k] + 1,
    decreases extra,
{
    if extra > 0 {
        lemma_neediest(rests, served, cells.len() as int);
        if let Some(k) = bars::neediest(rests, served, cells.len() as int) {
            let (more, marked) = (cells.update(k, cells[k] + 1), served.update(k, true));
            assert forall|j: int| 0 <= j < base.len() implies #[trigger] more[j] == base[j]
                + if marked[j] {
                1int
            } else {
                0
            } by {
                assert(cells[j] == base[j] + if served[j] {
                    1int
                } else {
                    0
                });
            }
            lemma_handed_out(base, more, rests, marked, (extra - 1) as nat);
        } else {
            assert forall|j: int| 0 <= j < base.len() implies base[j] <= #[trigger] cells[j]
                <= base[j] + 1 by {}
        }
    } else {
        assert forall|j: int| 0 <= j < base.len() implies base[j] <= #[trigger] cells[j] <= base[j]
            + 1 by {}
    }
}

/// Each part of a bar fills what its share of the width is, to within one
/// cell.
pub proof fn law_each_part_to_within_a_cell(
    parts: Seq<u64>,
    capacity: u64,
    width: usize,
    k: int,
)
    requires
        0 < capacity,
        0 < width,
        0 <= k < parts.len(),
    ensures
        ({
            let n = bars::shares(parts, capacity, width)[k];
            &&& n * capacity <= parts[k] * width + capacity
            &&& parts[k] * width < (n + 1) * capacity
        }),
{
    let base = bars::wholes(parts, capacity, width);
    let none = Seq::new(parts.len(), |k: int| false);
    assert forall|j: int| 0 <= j < base.len() implies #[trigger] base[j] == base[j] + if none[j] {
        1int
    } else {
        0
    } by {}
    lemma_handed_out(
        base,
        base,
        bars::remainders(parts, capacity, width),
        none,
        bars::shortfall(parts, capacity, width),
    );
    let n = bars::shares(parts, capacity, width)[k];
    let (x, c, q) = (parts[k] * width, capacity as int, base[k]);
    assert(q == x / c);
    assert(q * c <= x < (q + 1) * c) by (nonlinear_arith)
        requires
            q == x / c,
            c > 0,
    ;
    assert(n * c <= (q + 1) * c && (q + 1) * c <= (n + 1) * c && (q + 1) * c == q * c + c)
        by (nonlinear_arith)
        requires
            q <= n <= q + 1,
            c > 0,
    ;
}

/// In a row of bars the first keeps at least half, and no other is wider than
/// it asks for.
pub proof fn law_the_first_bar_keeps_half(width: usize, tanks: usize)
    requires
        tanks > 1,
    ensures
        2 * bars::tanks_of(width, tanks)[0] >= width,
        width >= 64 && tanks == 2 ==> bars::tanks_of(width, tanks)[1] == 32,
{
    reveal_with_fuel(bars::evenly, 2);
}

// ---------------------------------------------------------------------------
// Legends
// ---------------------------------------------------------------------------

/// Each entry of the legend of the processor names a part of its bar, by the
/// part's own colour and character, in the order of the bar.
pub proof fn law_the_legend_of_the_processor(w: CpuWeights, set: GlyphSet)
    ensures
        ({
            let (p, m) = (bars::cpu_parts(w, set), bars::cpu_marks(set));
            &&& p.len() == 3 && m.len() == 3
            &&& p[0].weight == w.user && m[0].text == "usr"@
            &&& p[1].weight == w.system && m[1].text == "sys"@
            &&& p[2].weight == w.wait && m[2].text == "wait"@
            &&& forall|k: int|
                0 <= k < 3 ==> (#[trigger] p[k]).color == m[k].color && p[k].glyph == m[k].glyph
            &&& p[0].glyph != p[1].glyph && p[1].glyph != p[2].glyph && p[0].glyph != p[2].glyph
        }),
{
}

/// Each entry of the legend of memory names a part of its bar, by the part's
/// own colour and character; the graphics memory is named only where it is a
/// part of main memory.
pub proof fn law_the_legend_of_memory(t: HostTree, set: GlyphSet)
    ensures
        ({
            let (p, m) = (bars::memory_parts(t, set), bars::memory_marks(t.unified_memory, set));
            let rest = if t.unified_memory {
                1int
            } else {
                0
            };
            &&& m.len() == 3 + rest
            &&& t.unified_memory ==> m[0].text == "vram"@ && m[0].color == p[0].color
                && m[0].glyph == p[0].glyph
            &&& m[rest].text == "gtt"@ && m[rest].color == p[1].color && m[rest].glyph
                == p[1].glyph
            &&& m[rest + 1].text == "cache"@ && m[rest + 1].color == p[3].color
                && m[rest + 1].glyph == p[3].glyph
            &&& m[rest + 2].text == "buf"@ && m[rest + 2].color == p[4].color
                && m[rest + 2].glyph == p[4].glyph
        }),
{
}

/// The parts of the memory bar: graphics memory where it is a part of main
/// memory, the window, the rest of what is used, and beyond it the cache that
/// can be given back and the buffers; each as far as there is room.
pub proof fn law_the_parts_of_memory(t: HostTree, set: GlyphSet)
    requires
        t.mem_total_bytes > 0,
        t.mem_used_bytes <= t.mem_total_bytes,
    ensures
        ({
            let p = bars::memory_parts(t, set);
            let host = types::tree_weight(t);
            let vram = if t.unified_memory && host.vram_bytes is Some {
                host.vram_bytes->0 as int
            } else {
                0
            };
            let gtt = if host.gtt_bytes is Some {
                host.gtt_bytes->0 as int
            } else {
                0
            };
            let cache = bars::reclaimable(t);
            &&& vram + gtt <= t.mem_used_bytes ==> p[0].weight == vram && p[1].weight == gtt
                && p[2].weight == t.mem_used_bytes - vram - gtt
            &&& t.mem_used_bytes + cache + t.mem_buffers_bytes <= t.mem_total_bytes
                ==> p[3].weight == cache && p[4].weight == t.mem_buffers_bytes
            &&& t.mem_shmem_bytes <= t.mem_cached_bytes ==> cache + t.mem_shmem_bytes
                == t.mem_cached_bytes
            &&& t.mem_shmem_bytes > t.mem_cached_bytes ==> cache == 0
        }),
{
    let host = types::tree_weight(t);
    let vram = if t.unified_memory {
        bars::or_none(host.vram_bytes)
    } else {
        0
    };
    let inside = seq![vram, bars::or_none(host.gtt_bytes), 0u64, 0u64, 0u64, 0u64];
    let beyond = seq![bars::reclaimable(t), 0u64, t.mem_buffers_bytes];
    let (used, rest) = (t.mem_used_bytes, (t.mem_total_bytes - t.mem_used_bytes) as u64);
    lemma_got(used, inside);
    lemma_got3(rest, beyond);
}

proof fn lemma_got(room: u64, w: Seq<u64>)
    requires
        w.len() == 6,
        w[2] == 0 && w[3] == 0 && w[4] == 0 && w[5] == 0,
    ensures
        w[0] + w[1] <= room ==> mem::got(room, w, 0) == w[0] && mem::got(room, w, 1) == w[1]
            && mem::left_after(room, w, 6) == room - w[0] - w[1],
{
    assert(mem::left_after(room, w, 0) == room);
    let a = mem::got(room, w, 0);
    assert(mem::left_after(room, w, 1) == room - a);
    let b = mem::got(room, w, 1);
    assert(mem::left_after(room, w, 2) == room - a - b);
    assert(mem::got(room, w, 2) == 0);
    assert(mem::left_after(room, w, 3) == room - a - b);
    assert(mem::got(room, w, 3) == 0);
    assert(mem::left_after(room, w, 4) == room - a - b);
    assert(mem::got(room, w, 4) == 0);
    assert(mem::left_after(room, w, 5) == room - a - b);
    assert(mem::got(room, w, 5) == 0);
    assert(mem::left_after(room, w, 6) == room - a - b);
}

proof fn lemma_got3(room: u64, w: Seq<u64>)
    requires
        w.len() == 3,
        w[1] == 0,
    ensures
        w[0] + w[2] <= room ==> mem::got(room, w, 0) == w[0] && mem::got(room, w, 2) == w[2],
{
    assert(mem::left_after(room, w, 0) == room);
    let a = mem::got(room, w, 0);
    assert(mem::left_after(room, w, 1) == room - a);
    assert(mem::got(room, w, 1) == 0);
    assert(mem::left_after(room, w, 2) == room - a);
    let c = mem::got(room, w, 2);
    assert(c <= room - a);
}

/// A card's memory has a bar of its own only where it is not a part of main
/// memory.
pub proof fn law_when_a_card_has_its_bar(t: HostTree)
    ensures
        bars::own_vram(t) is Some <==> !t.unified_memory && t.vram_total_bytes is Some
            && t.vram_total_bytes->0 > 0,
        bars::own_vram(t) is Some ==> bars::own_vram(t) == t.vram_total_bytes,
{
}

/// The figures of a bar are what is used and, behind a slash, the whole.
pub proof fn law_the_figures_of_a_bar(used: u64, whole: u64)
    ensures
        bars::usage_of(used, whole) == seq![']', ' '] + once::bytes_text(used as nat) + seq!['/']
            + once::bytes_text(whole as nat) + seq![' ', ' '],
        bars::usage_of(used, whole).len() == 5 + once::bytes_text(used as nat).len()
            + once::bytes_text(whole as nat).len(),
{
}

/// Swap has a row where the machine has swap, and its bar fills with what is
/// in use, never past the whole.
pub proof fn law_the_row_of_swap(t: HostTree, width: u16, bar_w: int, set: GlyphSet)
    ensures
        bars::swap_line(t, width, bar_w, set) is Some <==> t.swap_total_bytes > 0,
        t.swap_used_bytes <= t.swap_total_bytes ==> bars::swap_part(t, set).weight
            == t.swap_used_bytes,
        bars::swap_part(t, set).weight <= t.swap_total_bytes,
        bars::rows_of_header(t) == if t.swap_total_bytes > 0 {
            3
        } else {
            2int
        },
{
}

/// The header has a row for the processor, one for memory and one for swap, in
/// this order, and as many as it says.
pub proof fn law_the_rows_of_the_header(
    t: HostTree,
    w: CpuWeights,
    busy: Seq<char>,
    width: u16,
    set: GlyphSet,
)
    ensures
        ({
            let h = bars::header_of(t, w, busy, width, set);
            &&& h.len() == bars::rows_of_header(t)
            &&& h[0] == bars::cpu_line(t, w, busy, width, bars::memory_bar(t, width, set), set)
            &&& h[1] == bars::memory_line(t, width, set)
        }),
{
}

/// A bar draws a part with its own character, as many times as it has cells.
pub proof fn law_a_part_is_drawn_in_its_own_character(parts: Seq<Part>, cells: Seq<int>, n: int)
    requires
        0 <= n < parts.len(),
        cells.len() == parts.len(),
        cells[n] > 0,
    ensures
        ({
            let all = bars::filled_upto(parts, cells, n + 1);
            &&& all.drop_last() =~= bars::filled_upto(parts, cells, n)
            &&& all.last().color == Some(parts[n].color)
            &&& all.last().text.len() == cells[n]
            &&& forall|k: int| 0 <= k < cells[n] ==> all.last().text[k] == parts[n].glyph
        }),
{
}

} // verus!
