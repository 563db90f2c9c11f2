//! What the graphics drivers report of each client, read from the text of its
//! file descriptors.
use vstd::prelude::*;

use crate::types::GpuCounters;
use crate::{proc, text, types};

pub mod laws;
pub mod scan;

verus! {

// ---------------------------------------------------------------------------
// Which descriptors to read
// ---------------------------------------------------------------------------

/// A graphics device, by the path a descriptor is open on.
pub fn fd_target_looks_like_drm(target: &str) -> (r: bool)
    ensures
        r == (text::has_infix(target@, "dri"@) || text::has_infix(target@, "drm"@)),
{
    text::str_infixed(target, "dri") || text::str_infixed(target, "drm")
}

/// Whether every descriptor is read after all: asked for, with graphics
/// devices among them, and none of those reported anything.
pub fn needs_full_fdinfo(full_scan: bool, prefilter_empty: bool, filtered: &GpuCounters) -> (r:
    bool)
    ensures
        r == (full_scan && !prefilter_empty && filtered.vram_bytes is None
            && filtered.gtt_bytes is None && filtered.gfx_ns is None && filtered.compute_ns is None),
{
    full_scan && !prefilter_empty && filtered.vram_bytes.is_none() && filtered.gtt_bytes.is_none()
        && filtered.gfx_ns.is_none() && filtered.compute_ns.is_none()
}

/// The descriptor a directory entry names.
pub fn fd_num(name: &[u8]) -> (r: Option<u32>)
    ensures
        r == match proc::number(proc::latin(name@)) {
            Some(n) => if n <= u32::MAX {
                Some(n as u32)
            } else {
                None
            },
            None => None,
        },
{
    match proc::atoi(name) {
        Some(n) => if n <= u32::MAX as u64 {
            Some(n as u32)
        } else {
            None
        },
        None => None,
    }
}

/// The longest text of a descriptor that is looked at: well above what a
/// graphics client reports, and well below other dumps.
pub const FDINFO_MAX_BYTES: usize = 65536;

/// A text that a graphics client reports.
pub fn is_drm_text(t: &str) -> (r: bool)
    ensures
        r == (vstd::utf8::encode_utf8(t@).len() <= 65536 && text::has_infix(
            t@,
            "drm-client-id"@,
        )),
{
    t.as_bytes().len() <= FDINFO_MAX_BYTES && text::str_infixed(t, "drm-client-id")
}

// ---------------------------------------------------------------------------
// Values
// ---------------------------------------------------------------------------

/// A count: the first word.
pub open spec fn count(v: Seq<char>) -> Option<u64> {
    let w = text::words(v);
    if w.len() > 0 {
        proc::number64(w[0])
    } else {
        None
    }
}

fn parse_count(v: &[char]) -> (r: Option<u64>)
    ensures
        r == count(v@),
{
    let w = text::split_words(v);
    assert(text::views(w@).len() == w@.len());
    if w.len() > 0 {
        assert(text::views(w@)[0] == w@[0]@);
        proc::parse_u64(w[0].as_slice())
    } else {
        None
    }
}

/// How many engines: at least one, and one where it is not said.
pub open spec fn capacity(v: Option<Seq<char>>) -> u64 {
    match v {
        Some(t) => match count(t) {
            Some(n) => if n < 1 {
                1
            } else {
                n
            },
            None => 1,
        },
        None => 1,
    }
}

/// How many bytes a unit is; KiB where it is spelled otherwise.
pub open spec fn unit_bytes(unit: Seq<char>) -> u64 {
    if unit == "MiB"@ || unit == "MB"@ {
        0x10_0000
    } else if unit == "GiB"@ || unit == "GB"@ {
        0x4000_0000
    } else if unit == "B"@ {
        1
    } else {
        1024
    }
}

/// A size: a number, then its unit, bytes where there is none.
pub open spec fn size(v: Seq<char>) -> Option<u64> {
    let w = text::words(v);
    if w.len() == 0 {
        None
    } else {
        match proc::number64(w[0]) {
            Some(n) => Some(
                types::capped_product(
                    n,
                    unit_bytes(
                        if w.len() > 1 {
                            w[1]
                        } else {
                            "B"@
                        },
                    ),
                ),
            ),
            None => None,
        }
    }
}

fn is_text(v: &[char], s: &str) -> (r: bool)
    ensures
        r == (v@ == s@),
{
    text::same(v, text::chars_of(s).as_slice())
}

fn unit_of(u: &[char]) -> (r: u64)
    ensures
        r == unit_bytes(u@),
{
    if is_text(u, "MiB") || is_text(u, "MB") {
        1024 * 1024
    } else if is_text(u, "GiB") || is_text(u, "GB") {
        1024 * 1024 * 1024
    } else if is_text(u, "B") {
        1
    } else {
        1024
    }
}

fn parse_size(v: &[char]) -> (r: Option<u64>)
    ensures
        r == size(v@),
{
    let w = text::split_words(v);
    assert(text::views(w@).len() == w@.len());
    if w.len() == 0 {
        return None;
    }
    assert(text::views(w@)[0] == w@[0]@);
    match proc::parse_u64(w[0].as_slice()) {
        Some(n) => {
            let unit: u64 = if w.len() > 1 {
                assert(text::views(w@)[1] == w@[1]@);
                unit_of(w[1].as_slice())
            } else {
                unit_of(text::chars_of("B").as_slice())
            };
            Some(types::capped_mul(n, unit))
        },
        None => None,
    }
}

// ---------------------------------------------------------------------------
// Keys
// ---------------------------------------------------------------------------

/// The key and the value of a line, white space around both left out.
pub open spec fn pair_of(line: Seq<char>) -> Option<(Seq<char>, Seq<char>)> {
    match text::cut_first(line, ':') {
        Some((k, v)) => Some((text::trimmed(k), text::trimmed(v))),
        None => None,
    }
}

/// The pairs of the first `n` lines; a line without a colon is none.
pub open spec fn pairs_upto(lines: Seq<Seq<char>>, n: int) -> Seq<(Seq<char>, Seq<char>)>
    decreases n,
{
    if n <= 0 {
        Seq::empty()
    } else {
        match pair_of(lines[n - 1]) {
            Some(p) => pairs_upto(lines, n - 1).push(p),
            None => pairs_upto(lines, n - 1),
        }
    }
}

pub open spec fn pairs_of(t: Seq<char>) -> Seq<(Seq<char>, Seq<char>)> {
    let l = text::lines_of(t);
    pairs_upto(l, l.len() as int)
}

/// The last value under either of two keys, among the first `n` pairs.
pub open spec fn last_value(
    pairs: Seq<(Seq<char>, Seq<char>)>,
    a: Seq<char>,
    b: Seq<char>,
    n: int,
) -> Option<Seq<char>>
    decreases n,
{
    if n <= 0 {
        None
    } else if pairs[n - 1].0 == a || pairs[n - 1].0 == b {
        Some(pairs[n - 1].1)
    } else {
        last_value(pairs, a, b, n - 1)
    }
}

/// The last value under either of two keys.
pub open spec fn value_of(pairs: Seq<(Seq<char>, Seq<char>)>, a: Seq<char>, b: Seq<char>) -> Option<
    Seq<char>,
> {
    last_value(pairs, a, b, pairs.len() as int)
}

pub open spec fn counted(v: Option<Seq<char>>) -> Option<u64> {
    match v {
        Some(t) => count(t),
        None => None,
    }
}

/// A driver whose keys are known.
pub open spec fn known_driver(v: Seq<char>) -> bool {
    v == "amdgpu"@ || v == "i915"@ || v == "xe"@
}

/// One of the first `n` pairs names a known driver.
pub open spec fn names_driver(pairs: Seq<(Seq<char>, Seq<char>)>, n: int) -> bool
    decreases n,
{
    n > 0 && ((pairs[n - 1].0 == "drm-driver"@ && known_driver(pairs[n - 1].1)) || names_driver(
        pairs,
        n - 1,
    ))
}

/// The memory of a device: its own, which two drivers number, or the machine's
/// as far as the device sees it.
#[derive(Clone, Copy, Debug, PartialEq, Eq, Structural)]
pub enum Region {
    Vram,
    Gtt,
}

pub open spec fn names_region(r: Seq<char>, region: Region) -> bool {
    match region {
        Region::Vram => r == "vram"@ || r == "vram0"@ || r == "vram1"@ || r == "local0"@,
        Region::Gtt => r == "gtt"@ || r == "system0"@,
    }
}

/// What the first `n` pairs say a region holds, under keys with a prefix.
pub open spec fn region_upto(
    pairs: Seq<(Seq<char>, Seq<char>)>,
    prefix: Seq<char>,
    region: Region,
    n: int,
) -> Option<u64>
    decreases n,
{
    if n <= 0 {
        None
    } else {
        let k = pairs[n - 1].0;
        let before = region_upto(pairs, prefix, region, n - 1);
        if text::has_prefix(k, prefix) && names_region(
            text::rest_from(k, prefix.len() as int),
            region,
        ) {
            types::opt_sum(before, size(pairs[n - 1].1))
        } else {
            before
        }
    }
}

/// What a region holds: what is resident, else what is allocated, else what
/// the oldest key says. A known zero beats a less exact figure.
pub open spec fn region_bytes(pairs: Seq<(Seq<char>, Seq<char>)>, region: Region) -> Option<u64> {
    let n = pairs.len() as int;
    let a = region_upto(pairs, "drm-resident-"@, region, n);
    let b = region_upto(pairs, "drm-total-"@, region, n);
    if a is Some {
        a
    } else if b is Some {
        b
    } else {
        region_upto(pairs, "drm-memory-"@, region, n)
    }
}

pub open spec fn divided(n: Option<u64>, by: u64) -> Option<u64> {
    match n {
        Some(x) => Some(x / by),
        None => None,
    }
}

/// What a client reports.
pub open spec fn counters_of(pairs: Seq<(Seq<char>, Seq<char>)>) -> GpuCounters {
    GpuCounters {
        vram_bytes: region_bytes(pairs, Region::Vram),
        gtt_bytes: region_bytes(pairs, Region::Gtt),
        gfx_ns: counted(value_of(pairs, "drm-engine-gfx"@, "drm-engine-render"@)),
        compute_ns: counted(value_of(pairs, "drm-engine-compute"@, "drm-engine-compute"@)),
        gfx_cycles: divided(
            counted(value_of(pairs, "drm-cycles-rcs"@, "drm-cycles-rcs"@)),
            capacity(value_of(pairs, "drm-engine-capacity-rcs"@, "drm-engine-capacity-rcs"@)),
        ),
        compute_cycles: divided(
            counted(value_of(pairs, "drm-cycles-ccs"@, "drm-cycles-ccs"@)),
            capacity(value_of(pairs, "drm-engine-capacity-ccs"@, "drm-engine-capacity-ccs"@)),
        ),
        total_cycles: counted(value_of(pairs, "drm-total-cycles-rcs"@, "drm-total-cycles-ccs"@)),
    }
}

/// The number of the client a text is from.
pub open spec fn client_of(pairs: Seq<(Seq<char>, Seq<char>)>) -> Option<u64> {
    match value_of(pairs, "drm-client-id"@, "drm-client-id"@) {
        Some(v) => proc::number64(text::trimmed(v)),
        None => None,
    }
}

/// A client and what it reports, from the text of one descriptor. The text
/// must name a known driver or, failing that, both a client and what is
/// resident.
pub open spec fn fdinfo_of(t: Seq<char>) -> Option<(u64, GpuCounters)> {
    let pairs = pairs_of(t);
    if names_driver(pairs, pairs.len() as int) || (text::has_infix(t, "drm-client-id"@)
        && text::has_infix(t, "drm-resident"@)) {
        match client_of(pairs) {
            Some(id) => Some((id, counters_of(pairs))),
            None => None,
        }
    } else {
        None
    }
}

// ---------------------------------------------------------------------------
// Reading them
// ---------------------------------------------------------------------------

/// Pairs as text.
pub open spec fn pair_views(v: Seq<(Vec<char>, Vec<char>)>) -> Seq<(Seq<char>, Seq<char>)> {
    Seq::new(v.len(), |k: int| (v[k].0@, v[k].1@))
}

fn split_pairs(t: &str) -> (r: Vec<(Vec<char>, Vec<char>)>)
    ensures
        pair_views(r@) == pairs_of(t@),
{
    let lines = text::split_lines(text::chars_of(t).as_slice());
    let ghost all = text::lines_of(t@);
    assert(text::views(lines@).len() == lines@.len());
    let mut out: Vec<(Vec<char>, Vec<char>)> = Vec::new();
    let mut i: usize = 0;
    assert(pair_views(out@) =~= pairs_upto(all, 0));
    while i < lines.len()
        invariant
            i <= lines@.len(),
            all == text::views(lines@),
            pair_views(out@) == pairs_upto(all, i as int),
        decreases lines.len() - i,
    {
        assert(all[i as int] == lines@[i as int]@);
        let line = lines[i].as_slice();
        let at: usize = text::index_of(line, ':', 0);
        if at < line.len() {
            let ghost before = pair_views(out@);
            let k = text::trim(text::cut(line, 0, at).as_slice());
            let v = text::trim(text::cut(line, at + 1, line.len()).as_slice());
            let ghost pair = (k@, v@);
            out.push((k, v));
            assert(pair_views(out@) =~= before.push(pair));
        }
        i += 1;
    }
    out
}

fn find_value<'a>(pairs: &'a Vec<(Vec<char>, Vec<char>)>, a: &str, b: &str) -> (r: Option<
    &'a Vec<char>,
>)
    ensures
        match r {
            Some(v) => value_of(pair_views(pairs@), a@, b@) == Some(v@),
            None => value_of(pair_views(pairs@), a@, b@) is None,
        },
{
    let ghost ps = pair_views(pairs@);
    let ka = text::chars_of(a);
    let kb = text::chars_of(b);
    let mut n: usize = pairs.len();
    while n > 0
        invariant
            n <= pairs@.len(),
            ps == pair_views(pairs@),
            ka@ == a@,
            kb@ == b@,
            value_of(ps, a@, b@) == last_value(ps, a@, b@, n as int),
        decreases n,
    {
        assert(ps[n - 1] == (pairs@[n - 1].0@, pairs@[n - 1].1@));
        let p = &pairs[n - 1];
        if text::same(p.0.as_slice(), ka.as_slice()) || text::same(p.0.as_slice(), kb.as_slice()) {
            return Some(&p.1);
        }
        n -= 1;
    }
    None
}

fn count_at(pairs: &Vec<(Vec<char>, Vec<char>)>, a: &str, b: &str) -> (r: Option<u64>)
    ensures
        r == counted(value_of(pair_views(pairs@), a@, b@)),
{
    match find_value(pairs, a, b) {
        Some(v) => parse_count(v.as_slice()),
        None => None,
    }
}

fn capacity_at(pairs: &Vec<(Vec<char>, Vec<char>)>, key: &str) -> (r: u64)
    ensures
        r == capacity(value_of(pair_views(pairs@), key@, key@)),
        r >= 1,
{
    match find_value(pairs, key, key) {
        Some(v) => match parse_count(v.as_slice()) {
            Some(n) => if n < 1 {
                1
            } else {
                n
            },
            None => 1,
        },
        None => 1,
    }
}

fn has_driver(pairs: &Vec<(Vec<char>, Vec<char>)>) -> (r: bool)
    ensures
        r == names_driver(pair_views(pairs@), pairs@.len() as int),
{
    let ghost ps = pair_views(pairs@);
    let mut n: usize = pairs.len();
    while n > 0
        invariant
            n <= pairs@.len(),
            ps == pair_views(pairs@),
            names_driver(ps, pairs@.len() as int) == names_driver(ps, n as int),
        decreases n,
    {
        assert(ps[n - 1] == (pairs@[n - 1].0@, pairs@[n - 1].1@));
        let p = &pairs[n - 1];
        let v = p.1.as_slice();
        if is_text(p.0.as_slice(), "drm-driver") && (is_text(v, "amdgpu") || is_text(v, "i915")
            || is_text(v, "xe")) {
            return true;
        }
        n -= 1;
    }
    false
}

fn in_region(r: &[char], region: Region) -> (b: bool)
    ensures
        b == names_region(r@, region),
{
    match region {
        Region::Vram => is_text(r, "vram") || is_text(r, "vram0") || is_text(r, "vram1")
            || is_text(r, "local0"),
        Region::Gtt => is_text(r, "gtt") || is_text(r, "system0"),
    }
}

fn region_sum(pairs: &Vec<(Vec<char>, Vec<char>)>, prefix: &str, region: Region) -> (r: Option<u64>)
    ensures
        r == region_upto(pair_views(pairs@), prefix@, region, pairs@.len() as int),
{
    let ghost ps = pair_views(pairs@);
    let p = text::chars_of(prefix);
    let mut sum: Option<u64> = None;
    let mut i: usize = 0;
    while i < pairs.len()
        invariant
            i <= pairs@.len(),
            ps == pair_views(pairs@),
            p@ == prefix@,
            sum == region_upto(ps, prefix@, region, i as int),
        decreases pairs.len() - i,
    {
        assert(ps[i as int] == (pairs@[i as int].0@, pairs@[i as int].1@));
        let k = pairs[i].0.as_slice();
        if text::prefixed(k, p.as_slice()) {
            let rest = text::cut(k, p.len(), k.len());
            assert(rest@ =~= text::rest_from(k@, prefix@.len() as int));
            if in_region(rest.as_slice(), region) {
                sum = types::sum_opt(sum, parse_size(pairs[i].1.as_slice()));
            }
        }
        i += 1;
    }
    sum
}

fn region_of(pairs: &Vec<(Vec<char>, Vec<char>)>, region: Region) -> (r: Option<u64>)
    ensures
        r == region_bytes(pair_views(pairs@), region),
{
    let a: Option<u64> = region_sum(pairs, "drm-resident-", region);
    if a.is_some() {
        return a;
    }
    let b: Option<u64> = region_sum(pairs, "drm-total-", region);
    if b.is_some() {
        return b;
    }
    region_sum(pairs, "drm-memory-", region)
}

fn shared(n: Option<u64>, by: u64) -> (r: Option<u64>)
    requires
        by >= 1,
    ensures
        r == divided(n, by),
{
    match n {
        Some(x) => Some(x / by),
        None => None,
    }
}

/// A client and what it reports, from the text of one descriptor.
pub fn parse_fdinfo(t: &str) -> (r: Option<(u64, GpuCounters)>)
    ensures
        r == fdinfo_of(t@),
{
    let pairs = split_pairs(t);
    assert(pair_views(pairs@).len() == pairs@.len());
    if !has_driver(&pairs) && !(text::str_infixed(t, "drm-client-id") && text::str_infixed(
        t,
        "drm-resident",
    )) {
        return None;
    }
    let id: u64 = match find_value(&pairs, "drm-client-id", "drm-client-id") {
        Some(v) => match proc::parse_u64(text::trim(v.as_slice()).as_slice()) {
            Some(n) => n,
            None => {
                return None;
            },
        },
        None => {
            return None;
        },
    };
    Some(
        (
            id,
            GpuCounters {
                vram_bytes: region_of(&pairs, Region::Vram),
                gtt_bytes: region_of(&pairs, Region::Gtt),
                gfx_ns: count_at(&pairs, "drm-engine-gfx", "drm-engine-render"),
                compute_ns: count_at(&pairs, "drm-engine-compute", "drm-engine-compute"),
                gfx_cycles: shared(
                    count_at(&pairs, "drm-cycles-rcs", "drm-cycles-rcs"),
                    capacity_at(&pairs, "drm-engine-capacity-rcs"),
                ),
                compute_cycles: shared(
                    count_at(&pairs, "drm-cycles-ccs", "drm-cycles-ccs"),
                    capacity_at(&pairs, "drm-engine-capacity-ccs"),
                ),
                total_cycles: count_at(&pairs, "drm-total-cycles-rcs", "drm-total-cycles-ccs"),
            },
        ),
    )
}

// ---------------------------------------------------------------------------
// All clients of a process
// ---------------------------------------------------------------------------

/// Two clients together: quantities add up; the clock of the device is carried.
pub open spec fn together(a: GpuCounters, b: GpuCounters) -> GpuCounters {
    GpuCounters {
        vram_bytes: types::opt_sum(a.vram_bytes, b.vram_bytes),
        gtt_bytes: types::opt_sum(a.gtt_bytes, b.gtt_bytes),
        gfx_ns: types::opt_sum(a.gfx_ns, b.gfx_ns),
        compute_ns: types::opt_sum(a.compute_ns, b.compute_ns),
        gfx_cycles: types::opt_sum(a.gfx_cycles, b.gfx_cycles),
        compute_cycles: types::opt_sum(a.compute_cycles, b.compute_cycles),
        total_cycles: types::opt_max(a.total_cycles, b.total_cycles),
    }
}

/// A text is from a client.
pub open spec fn is_from(t: Seq<char>, id: u64) -> bool {
    match fdinfo_of(t) {
        Some((x, _)) => x == id,
        None => false,
    }
}

/// A client is named by one of the first `n` texts.
pub open spec fn seen(texts: Seq<Seq<char>>, id: u64, n: int) -> bool
    decreases n,
{
    n > 0 && (is_from(texts[n - 1], id) || seen(texts, id, n - 1))
}

/// What the clients of the first `n` texts report together, each client once
/// however many descriptors it has.
pub open spec fn merged_upto(texts: Seq<Seq<char>>, n: int) -> GpuCounters
    decreases n,
{
    if n <= 0 {
        GpuCounters::empty()
    } else {
        let before = merged_upto(texts, n - 1);
        match fdinfo_of(texts[n - 1]) {
            Some((id, c)) => if seen(texts, id, n - 1) {
                before
            } else {
                together(before, c)
            },
            None => before,
        }
    }
}

fn add_client(a: &mut GpuCounters, b: &GpuCounters)
    ensures
        *final(a) == together(*old(a), *b),
{
    a.vram_bytes = types::sum_opt(a.vram_bytes, b.vram_bytes);
    a.gtt_bytes = types::sum_opt(a.gtt_bytes, b.gtt_bytes);
    a.gfx_ns = types::sum_opt(a.gfx_ns, b.gfx_ns);
    a.compute_ns = types::sum_opt(a.compute_ns, b.compute_ns);
    a.gfx_cycles = types::sum_opt(a.gfx_cycles, b.gfx_cycles);
    a.compute_cycles = types::sum_opt(a.compute_cycles, b.compute_cycles);
    a.total_cycles = types::max_opt(a.total_cycles, b.total_cycles);
}

/// What the clients of these texts report together.
pub fn merge_fdinfo_texts(texts: &Vec<String>) -> (r: GpuCounters)
    ensures
        r == merged_upto(text::texts(texts@), texts@.len() as int),
{
    let ghost all = text::texts(texts@);
    let mut ids: Vec<u64> = Vec::new();
    let mut out = GpuCounters::default();
    let mut i: usize = 0;
    while i < texts.len()
        invariant
            i <= texts@.len(),
            all == text::texts(texts@),
            out == merged_upto(all, i as int),
            forall|id: u64| seen(all, id, i as int) == #[trigger] ids@.contains(id),
        decreases texts.len() - i,
    {
        assert(all[i as int] == texts@[i as int]@);
        let ghost before = ids@;
        if let Some((id, c)) = parse_fdinfo(texts[i].as_str()) {
            let mut known: bool = false;
            let mut k: usize = 0;
            while k < ids.len() && !known
                invariant
                    k <= ids@.len(),
                    known ==> ids@.contains(id),
                    !known ==> forall|j: int| 0 <= j < k ==> ids@[j] != id,
                decreases ids.len() - k,
            {
                if ids[k] == id {
                    assert(ids@[k as int] == id);
                    known = true;
                }
                k += 1;
            }
            if !known {
                assert(!ids@.contains(id));
                add_client(&mut out, &c);
                ids.push(id);
                proof {
                    assert forall|x: u64| seen(all, x, i + 1) == #[trigger] ids@.contains(x) by {
                        assert(seen(all, x, i as int) == before.contains(x));
                        if before.contains(x) {
                            let j = choose|j: int| 0 <= j < before.len() && before[j] == x;
                            assert(ids@[j] == x);
                        }
                        assert(ids@.last() == id);
                    }
                }
            }
        }
        i += 1;
    }
    out
}

proof fn lemma_nothing_together(c: GpuCounters)
    ensures
        together(GpuCounters::empty(), c) == c,
{
    reveal(types::opt_sum);
    reveal(types::opt_max);
}

/// A client that several descriptors report counts once: a further text of a
/// client already seen changes nothing, whatever the text says and wherever
/// after the first it stands.
pub proof fn law_a_client_counts_once(texts: Seq<Seq<char>>, t: Seq<char>, id: u64, k: int, at: int)
    requires
        0 <= k < at <= texts.len(),
        is_from(texts[k], id),
        is_from(t, id),
    ensures
        merged_upto(texts.insert(at, t), texts.len() as int + 1) == merged_upto(
            texts,
            texts.len() as int,
        ),
{
    lemma_further_text(texts, t, id, k, at, texts.len() as int);
}

proof fn lemma_further_text(
    texts: Seq<Seq<char>>,
    t: Seq<char>,
    id: u64,
    k: int,
    at: int,
    n: int,
)
    requires
        0 <= k < at <= n <= texts.len(),
        is_from(texts[k], id),
        is_from(t, id),
    ensures
        merged_upto(texts.insert(at, t), n + 1) == merged_upto(texts, n),
        forall|x: u64| #[trigger] seen(texts.insert(at, t), x, n + 1) == seen(texts, x, n),
    decreases n,
{
    let more = texts.insert(at, t);
    if n == at {
        lemma_same_texts(texts, more, n);
        lemma_seen(texts, id, n, k);
        lemma_same_seen(texts, more, id, n);
        assert(more[n] == t);
        assert forall|x: u64| #[trigger] seen(more, x, n + 1) == seen(texts, x, n) by {
            lemma_same_seen(texts, more, x, n);
        }
    } else {
        lemma_further_text(texts, t, id, k, at, n - 1);
        assert(more[n] == texts[n - 1]);
        assert forall|x: u64| #[trigger] seen(more, x, n + 1) == seen(texts, x, n) by {
            assert(seen(more, x, n) == seen(texts, x, n - 1));
        }
        if let Some((x, _)) = fdinfo_of(texts[n - 1]) {
            assert(seen(more, x, n) == seen(texts, x, n - 1));
        }
    }
}

proof fn lemma_seen(texts: Seq<Seq<char>>, id: u64, n: int, k: int)
    requires
        0 <= k < n <= texts.len(),
        is_from(texts[k], id),
    ensures
        seen(texts, id, n),
    decreases n,
{
    if k < n - 1 {
        lemma_seen(texts, id, n - 1, k);
    }
}

proof fn lemma_same_seen(a: Seq<Seq<char>>, b: Seq<Seq<char>>, id: u64, n: int)
    requires
        0 <= n <= a.len(),
        n <= b.len(),
        forall|k: int| 0 <= k < n ==> a[k] == b[k],
    ensures
        seen(a, id, n) == seen(b, id, n),
    decreases n,
{
    if n > 0 {
        lemma_same_seen(a, b, id, n - 1);
    }
}

proof fn lemma_same_texts(a: Seq<Seq<char>>, b: Seq<Seq<char>>, n: int)
    requires
        0 <= n <= a.len(),
        n <= b.len(),
        forall|k: int| 0 <= k < n ==> a[k] == b[k],
    ensures
        merged_upto(a, n) == merged_upto(b, n),
    decreases n,
{
    if n > 0 {
        lemma_same_texts(a, b, n - 1);
        if let Some((id, _)) = fdinfo_of(a[n - 1]) {
            lemma_same_seen(a, b, id, n - 1);
        }
    }
}

/// One client alone reports what its text says.
pub proof fn law_one_client_is_itself(t: Seq<char>)
    ensures
        merged_upto(seq![t], 1) == match fdinfo_of(t) {
            Some((_, c)) => c,
            None => GpuCounters::empty(),
        },
{
    assert(merged_upto(seq![t], 0) == GpuCounters::empty());
    if let Some((id, c)) = fdinfo_of(t) {
        assert(!seen(seq![t], id, 0));
        lemma_nothing_together(c);
    }
}

} // verus!
