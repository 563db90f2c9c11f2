//! What the clients of a graphics device report, told by the keys and values
//! of their descriptors.
use vstd::prelude::*;

use crate::gpu;
use crate::gpu::{GpuCounters, Region};
use crate::text::laws::lacks;
use crate::{proc, text, types};

verus! {

// ---------------------------------------------------------------------------
// Keys and values
// ---------------------------------------------------------------------------

/// The last pair under a key or another says its value.
pub proof fn law_the_last_value_counts(
    pairs: Seq<(Seq<char>, Seq<char>)>,
    a: Seq<char>,
    b: Seq<char>,
    k: int,
    n: int,
)
    requires
        0 <= k < n <= pairs.len(),
        pairs[k].0 == a || pairs[k].0 == b,
        forall|j: int| k < j < n ==> (#[trigger] pairs[j]).0 != a && pairs[j].0 != b,
    ensures
        gpu::last_value(pairs, a, b, n) == Some(pairs[k].1),
    decreases n - k,
{
    if k < n - 1 {
        assert(pairs[n - 1].0 != a && pairs[n - 1].0 != b);
        law_the_last_value_counts(pairs, a, b, k, n - 1);
    }
}

proof fn lemma_no_value(pairs: Seq<(Seq<char>, Seq<char>)>, a: Seq<char>, b: Seq<char>, n: int)
    requires
        0 <= n <= pairs.len(),
        forall|j: int| 0 <= j < n ==> (#[trigger] pairs[j]).0 != a && pairs[j].0 != b,
    ensures
        gpu::last_value(pairs, a, b, n) is None,
    decreases n,
{
    if n > 0 {
        assert(pairs[n - 1].0 != a && pairs[n - 1].0 != b);
        lemma_no_value(pairs, a, b, n - 1);
    }
}

/// `v` is the last value under a key, and unknown where no pair has the key.
pub open spec fn last_under(
    pairs: Seq<(Seq<char>, Seq<char>)>,
    key: Seq<char>,
    v: Option<Seq<char>>,
) -> bool {
    ||| v is None && forall|j: int| 0 <= j < pairs.len() ==> (#[trigger] pairs[j]).0 != key
    ||| exists|k: int|
        0 <= k < pairs.len() && #[trigger] pairs[k] == (key, v->0) && v is Some && (forall|j: int|
            k < j < pairs.len() ==> (#[trigger] pairs[j]).0 != key)
}

proof fn lemma_under(pairs: Seq<(Seq<char>, Seq<char>)>, key: Seq<char>, v: Option<Seq<char>>)
    requires
        last_under(pairs, key, v),
    ensures
        gpu::value_of(pairs, key, key) == v,
{
    if v is None && forall|j: int| 0 <= j < pairs.len() ==> (#[trigger] pairs[j]).0 != key {
        lemma_no_value(pairs, key, key, pairs.len() as int);
    } else {
        let k = choose|k: int|
            0 <= k < pairs.len() && #[trigger] pairs[k] == (key, v->0) && v is Some && (forall|
                j: int,
            |
                k < j < pairs.len() ==> (#[trigger] pairs[j]).0 != key);
        law_the_last_value_counts(pairs, key, key, k, pairs.len() as int);
    }
}

/// A count is the number a value begins with, whatever unit follows.
pub proof fn law_a_count_is_a_number(n: u64, b: char, unit: Seq<char>)
    requires
        text::is_space(b),
    ensures
        gpu::count(text::decimal(n as nat)) == Some(n),
        gpu::count(text::decimal(n as nat) + seq![b] + unit) == Some(n),
{
    let d = text::decimal(n as nat);
    lemma_decimal(n);
    text::laws::law_words(Seq::empty(), d, b, unit);
    assert(Seq::<char>::empty() + d =~= d);
    assert(Seq::<char>::empty() + d + seq![b] + unit =~= d + seq![b] + unit);
    assert((seq![d] + text::words(seq![b] + unit))[0] == d);
}

proof fn lemma_decimal(n: u64)
    ensures
        proc::number64(text::decimal(n as nat)) == Some(n),
        text::decimal(n as nat).len() > 0,
        forall|k: int|
            0 <= k < text::decimal(n as nat).len() ==> !text::is_space(
                #[trigger] text::decimal(n as nat)[k],
            ),
{
    text::laws::law_numbers_are_read_back(n as nat, u64::MAX as nat);
    lemma_digits(n as nat);
    let s = text::decimal(n as nat);
    assert forall|k: int| 0 <= k < s.len() implies !text::is_space(#[trigger] s[k]) by {
        assert(text::is_digit(s[k]));
    }
}

proof fn lemma_digits(n: nat)
    ensures
        text::all_digits(text::decimal(n)),
    decreases n,
{
    let s = text::decimal(n);
    if n >= 10 {
        lemma_digits(n / 10);
        assert forall|k: int| 0 <= k < s.len() implies text::is_digit(#[trigger] s[k]) by {
            if k < s.len() - 1 {
                assert(s[k] == text::decimal(n / 10)[k]);
            }
        }
    }
}

/// A size is its number times its unit: bytes where none is said, and else
/// kibibytes, mebibytes or gibibytes.
pub proof fn law_a_size_is_a_number_of_units(v: Seq<char>, n: u64)
    requires
        text::words(v).len() == 2,
        text::words(v)[0] == text::decimal(n as nat),
        n <= 0xffff_ffff,
    ensures
        text::words(v)[1] == "KiB"@ ==> gpu::size(v) == Some((n * 1024) as u64),
        text::words(v)[1] == "MiB"@ ==> gpu::size(v) == Some((n * 1024 * 1024) as u64),
        text::words(v)[1] == "GiB"@ ==> gpu::size(v) == Some((n * 1024 * 1024 * 1024) as u64),
        text::words(v)[1] == "B"@ ==> gpu::size(v) == Some(n),
{
    lemma_decimal(n);
    reveal_strlit("KiB");
    reveal_strlit("MiB");
    reveal_strlit("GiB");
    reveal_strlit("MB");
    reveal_strlit("GB");
    reveal_strlit("B");
    assert("KiB"@[0] == 'K' && "MiB"@[0] == 'M' && "GiB"@[0] == 'G' && "B"@[0] == 'B');
    assert("MB"@[0] == 'M' && "GB"@[0] == 'G');
    assert("KiB"@.len() == 3 && "B"@.len() == 1);
}

// ---------------------------------------------------------------------------
// Engines
// ---------------------------------------------------------------------------

/// The time of the render engine stands under either of its two names, that of
/// the compute engine under its own.
pub proof fn law_engine_time_by_its_key(
    pairs: Seq<(Seq<char>, Seq<char>)>,
    g: int,
    c: Option<Seq<char>>,
    ns: u64,
    used: u64,
)
    requires
        0 <= g < pairs.len(),
        pairs[g].0 == "drm-engine-gfx"@ || pairs[g].0 == "drm-engine-render"@,
        forall|j: int|
            g < j < pairs.len() ==> (#[trigger] pairs[j]).0 != "drm-engine-gfx"@ && pairs[j].0
                != "drm-engine-render"@,
        gpu::count(pairs[g].1) == Some(ns),
        last_under(pairs, "drm-engine-compute"@, c),
        c is Some ==> gpu::count(c->0) == Some(used),
    ensures
        gpu::counters_of(pairs).gfx_ns == Some(ns),
        c is Some ==> gpu::counters_of(pairs).compute_ns == Some(used),
        c is None ==> gpu::counters_of(pairs).compute_ns is None,
{
    law_the_last_value_counts(
        pairs,
        "drm-engine-gfx"@,
        "drm-engine-render"@,
        g,
        pairs.len() as int,
    );
    lemma_under(pairs, "drm-engine-compute"@, c);
}

/// The cycles of an engine are what its key counts, shared among as many of
/// its kind as there are.
pub proof fn law_engine_cycles_by_their_keys(
    pairs: Seq<(Seq<char>, Seq<char>)>,
    r: Seq<char>,
    of_r: Option<Seq<char>>,
    c: Seq<char>,
    of_c: Option<Seq<char>>,
    n: u64,
    m: u64,
    many: u64,
)
    requires
        last_under(pairs, "drm-cycles-rcs"@, Some(r)),
        last_under(pairs, "drm-engine-capacity-rcs"@, of_r),
        last_under(pairs, "drm-cycles-ccs"@, Some(c)),
        last_under(pairs, "drm-engine-capacity-ccs"@, of_c),
        gpu::count(r) == Some(n),
        gpu::count(c) == Some(m),
        of_r is None,
        of_c is Some ==> gpu::count(of_c->0) == Some(many) && many >= 1,
    ensures
        gpu::counters_of(pairs).gfx_cycles == Some(n),
        of_c is None ==> gpu::counters_of(pairs).compute_cycles == Some(m),
        of_c is Some ==> gpu::counters_of(pairs).compute_cycles == Some((m / many) as u64),
{
    lemma_under(pairs, "drm-cycles-rcs"@, Some(r));
    lemma_under(pairs, "drm-engine-capacity-rcs"@, of_r);
    lemma_under(pairs, "drm-cycles-ccs"@, Some(c));
    lemma_under(pairs, "drm-engine-capacity-ccs"@, of_c);
    assert(n / 1 == n && m / 1 == m);
}

/// The clock of the device is counted under either of two keys.
pub proof fn law_the_devices_clock_by_its_key(
    pairs: Seq<(Seq<char>, Seq<char>)>,
    k: int,
    n: u64,
)
    requires
        0 <= k < pairs.len(),
        pairs[k].0 == "drm-total-cycles-rcs"@ || pairs[k].0 == "drm-total-cycles-ccs"@,
        forall|j: int|
            k < j < pairs.len() ==> (#[trigger] pairs[j]).0 != "drm-total-cycles-rcs"@
                && pairs[j].0 != "drm-total-cycles-ccs"@,
        gpu::count(pairs[k].1) == Some(n),
    ensures
        gpu::counters_of(pairs).total_cycles == Some(n),
{
    law_the_last_value_counts(
        pairs,
        "drm-total-cycles-rcs"@,
        "drm-total-cycles-ccs"@,
        k,
        pairs.len() as int,
    );
}

// ---------------------------------------------------------------------------
// Memory
// ---------------------------------------------------------------------------

proof fn lemma_region_prefix(
    a: Seq<(Seq<char>, Seq<char>)>,
    b: Seq<(Seq<char>, Seq<char>)>,
    prefix: Seq<char>,
    region: Region,
    n: int,
)
    requires
        0 <= n <= a.len(),
        n <= b.len(),
        forall|k: int| 0 <= k < n ==> a[k] == b[k],
    ensures
        gpu::region_upto(a, prefix, region, n) == gpu::region_upto(b, prefix, region, n),
    decreases n,
{
    if n > 0 {
        lemma_region_prefix(a, b, prefix, region, n - 1);
    }
}

/// One more line for a region adds its size to what the region holds; the
/// device's own memory goes by four names, the window into main memory by two.
pub proof fn law_a_region_adds_up(
    pairs: Seq<(Seq<char>, Seq<char>)>,
    prefix: Seq<char>,
    region: Region,
    name: Seq<char>,
    v: Seq<char>,
    n: u64,
)
    requires
        region == Region::Vram ==> name == "vram"@ || name == "vram0"@ || name == "vram1"@ || name
            == "local0"@,
        region == Region::Gtt ==> name == "gtt"@ || name == "system0"@,
        gpu::size(v) == Some(n),
    ensures
        ({
            let before = gpu::region_upto(pairs, prefix, region, pairs.len() as int);
            let after = gpu::region_upto(
                pairs.push((prefix + name, v)),
                prefix,
                region,
                pairs.len() as int + 1,
            );
            &&& before is None ==> after == Some(n)
            &&& before is Some && before->0 + n <= u64::MAX ==> after is Some && after->0
                == before->0 + n
        }),
{
    reveal(types::opt_sum);
    let longer = pairs.push((prefix + name, v));
    lemma_region_prefix(longer, pairs, prefix, region, pairs.len() as int);
    text::laws::law_parts_of_a_text(prefix + name, prefix);
    assert(text::rest_from(prefix + name, prefix.len() as int) =~= name);
    assert(longer[pairs.len() as int] == (prefix + name, v));
}

/// A line for one region says nothing of the other.
pub proof fn law_regions_are_apart(name: Seq<char>)
    ensures
        !(gpu::names_region(name, Region::Vram) && gpu::names_region(name, Region::Gtt)),
{
    reveal_strlit("vram");
    reveal_strlit("vram0");
    reveal_strlit("vram1");
    reveal_strlit("local0");
    reveal_strlit("gtt");
    reveal_strlit("system0");
    assert("vram"@[0] == 'v' && "vram0"@[0] == 'v' && "vram1"@[0] == 'v' && "local0"@[0] == 'l');
    assert("gtt"@[0] == 'g' && "system0"@[0] == 's');
}

/// What is resident counts before what is allocated, and that before the
/// oldest key.
pub proof fn law_the_most_exact_figure_counts(pairs: Seq<(Seq<char>, Seq<char>)>, region: Region)
    ensures
        ({
            let n = pairs.len() as int;
            let resident = gpu::region_upto(pairs, "drm-resident-"@, region, n);
            let total = gpu::region_upto(pairs, "drm-total-"@, region, n);
            let oldest = gpu::region_upto(pairs, "drm-memory-"@, region, n);
            let c = gpu::counters_of(pairs);
            let got = if region == Region::Vram {
                c.vram_bytes
            } else {
                c.gtt_bytes
            };
            &&& resident is Some ==> got == resident
            &&& resident is None && total is Some ==> got == total
            &&& resident is None && total is None ==> got == oldest
        }),
{
}

// ---------------------------------------------------------------------------
// Clients
// ---------------------------------------------------------------------------

/// A text is a client's where it names a known driver, or a client and what is
/// resident; the client is the number under its key.
pub proof fn law_who_is_a_client(
    t: Seq<char>,
    k: int,
    id: u64,
    v: Seq<char>,
)
    requires
        0 <= k < gpu::pairs_of(t).len(),
        gpu::pairs_of(t)[k].0 == "drm-driver"@,
        gpu::pairs_of(t)[k].1 == "amdgpu"@ || gpu::pairs_of(t)[k].1 == "i915"@ || gpu::pairs_of(
            t,
        )[k].1 == "xe"@,
        last_under(gpu::pairs_of(t), "drm-client-id"@, Some(v)),
        text::trimmed(v) == text::decimal(id as nat),
    ensures
        gpu::fdinfo_of(t) == Some((id, gpu::counters_of(gpu::pairs_of(t)))),
{
    let pairs = gpu::pairs_of(t);
    lemma_driver(pairs, k, pairs.len() as int);
    lemma_under(pairs, "drm-client-id"@, Some(v));
    lemma_decimal(id);
}

proof fn lemma_driver(pairs: Seq<(Seq<char>, Seq<char>)>, k: int, n: int)
    requires
        0 <= k < n <= pairs.len(),
        pairs[k].0 == "drm-driver"@,
        gpu::known_driver(pairs[k].1),
    ensures
        gpu::names_driver(pairs, n),
    decreases n,
{
    if k < n - 1 {
        lemma_driver(pairs, k, n - 1);
    }
}

/// `r` is two figures added: unknown only where both are, and each as it is
/// where it is the only one.
pub open spec fn added(r: Option<u64>, a: Option<u64>, b: Option<u64>) -> bool {
    &&& r is Some <==> a is Some || b is Some
    &&& a is None ==> r == b
    &&& b is None ==> r == a
    &&& a is Some && b is Some && a->0 + b->0 <= u64::MAX ==> r->0 == a->0 + b->0
    &&& a is Some && b is Some && a->0 + b->0 > u64::MAX ==> r->0 == u64::MAX
}

/// A client not seen before adds its figures to those of the others, each to
/// its own; the clock of the device is the furthest.
pub proof fn law_another_client_adds_its_figures(texts: Seq<Seq<char>>, n: int, id: u64, c: GpuCounters)
    requires
        0 <= n < texts.len(),
        gpu::fdinfo_of(texts[n]) == Some((id, c)),
        forall|k: int| 0 <= k < n ==> !gpu::is_from(#[trigger] texts[k], id),
    ensures
        ({
            let before = gpu::merged_upto(texts, n);
            let after = gpu::merged_upto(texts, n + 1);
            &&& added(after.vram_bytes, before.vram_bytes, c.vram_bytes)
            &&& added(after.gtt_bytes, before.gtt_bytes, c.gtt_bytes)
            &&& added(after.gfx_ns, before.gfx_ns, c.gfx_ns)
            &&& added(after.compute_ns, before.compute_ns, c.compute_ns)
            &&& added(after.gfx_cycles, before.gfx_cycles, c.gfx_cycles)
            &&& added(after.compute_cycles, before.compute_cycles, c.compute_cycles)
            &&& before.total_cycles is Some && c.total_cycles is Some ==> after.total_cycles is Some
                && after.total_cycles->0 >= before.total_cycles->0 && after.total_cycles->0
                >= c.total_cycles->0 && (after.total_cycles == before.total_cycles
                || after.total_cycles == c.total_cycles)
            &&& before.total_cycles is None ==> after.total_cycles == c.total_cycles
        }),
{
    reveal(types::opt_sum);
    reveal(types::opt_max);
    lemma_unseen(texts, id, n);
}

proof fn lemma_unseen(texts: Seq<Seq<char>>, id: u64, n: int)
    requires
        0 <= n <= texts.len(),
        forall|k: int| 0 <= k < n ==> !gpu::is_from(#[trigger] texts[k], id),
    ensures
        !gpu::seen(texts, id, n),
    decreases n,
{
    if n > 0 {
        assert(!gpu::is_from(texts[n - 1], id));
        lemma_unseen(texts, id, n - 1);
    }
}

/// A line is a key, a colon and a value, the blanks around both left out.
pub proof fn law_a_line_is_a_key_and_a_value(
    key: Seq<char>,
    gap: Seq<char>,
    v: Seq<char>,
)
    requires
        lacks(key, ':'),
        key.len() > 0,
        !text::is_space(key[0]),
        !text::is_space(key.last()),
        v.len() > 0,
        !text::is_space(v[0]),
        !text::is_space(v.last()),
        forall|k: int| 0 <= k < gap.len() ==> text::is_space(#[trigger] gap[k]),
    ensures
        gpu::pair_of(key + seq![':'] + (gap + v)) == Some((key, v)),
{
    text::laws::law_on_either_side_of_the_first(key, ':', gap + v);
    text::laws::law_trimmed(Seq::empty(), key, Seq::empty());
    text::laws::law_trimmed(gap, v, Seq::empty());
    assert(Seq::<char>::empty() + key + Seq::<char>::empty() =~= key);
    assert(gap + v + Seq::<char>::empty() =~= gap + v);
}

} // verus!
