//! Which descriptors of a process are looked at for a graphics device.
use vstd::prelude::*;

use crate::types::GpuCounters;
use crate::{gpu, proc, text};

verus! {

/// What the texts of some descriptors report together.
pub open spec fn reported(texts: Seq<String>) -> GpuCounters {
    gpu::merged_upto(text::texts(texts), texts.len() as int)
}

pub open spec fn says_nothing(c: GpuCounters) -> bool {
    c.vram_bytes is None && c.gtt_bytes is None && c.gfx_ns is None && c.compute_ns is None
}

/// The counters of these descriptors; of every descriptor where a full scan is
/// wanted and these say nothing.
pub open spec fn counted_of<S: FnOnce(Vec<u32>) -> Vec<String>, A: FnOnce() -> Vec<String>>(
    fds: Seq<u32>,
    full_scan: bool,
    some: S,
    all: A,
    c: GpuCounters,
) -> bool {
    if fds.len() == 0 {
        c == GpuCounters::empty()
    } else {
        exists|asked: Vec<u32>, texts: Vec<String>| #[trigger]
            call_ensures(some, (asked,), texts) && asked@ == fds && if full_scan && says_nothing(
                reported(texts@),
            ) {
                exists|more: Vec<String>| #[trigger]
                    call_ensures(all, (), more) && c == reported(more@)
            } else {
                c == reported(texts@)
            }
    }
}

/// What the graphics devices say of a process, the descriptors on them, and
/// the size of the table where it was counted. `list` gives both from the
/// table, where it can be read, told the size at which it need not be looked
/// through; `some` and `all` give the texts of these descriptors and of all.
pub fn read_pid<
    L: FnOnce(Option<u32>) -> Option<(Vec<u32>, u32)>,
    S: FnOnce(Vec<u32>) -> Vec<String>,
    A: FnOnce() -> Vec<String>,
>(
    full_scan: bool,
    carried: Option<Vec<u32>>,
    unchanged: Option<u32>,
    list: L,
    some: S,
    all: A,
) -> (r: (GpuCounters, Vec<u32>, Option<u32>))
    requires
        call_requires(list, (unchanged,)),
        forall|v: Vec<u32>| #[trigger] call_requires(some, (v,)),
        call_requires(all, ()),
    ensures
        counted_of(r.1@, full_scan, some, all, r.0),
        match carried {
            Some(v) => r.1@ == v@ && r.2 is None,
            None => exists|t: Option<(Vec<u32>, u32)>| #[trigger]
                call_ensures(list, (unchanged,), t) && match t {
                    Some(held) => r.1@ == held.0@ && r.2 == Some(held.1),
                    None => r.1@.len() == 0 && r.2 is None,
                },
        },
{
    let (fds, counted): (Vec<u32>, Option<u32>) = match carried {
        Some(v) => (v, None),
        None => {
            let t = list(unchanged);
            assert(call_ensures(list, (unchanged,), t));
            match t {
                Some((v, n)) => (v, Some(n)),
                None => (Vec::new(), None),
            }
        },
    };
    if fds.len() == 0 {
        return (GpuCounters::default(), fds, counted);
    }
    let asked = proc::record::copy_fds(&fds);
    let ghost a = asked;
    let texts = some(asked);
    assert(call_ensures(some, (a,), texts));
    let found = gpu::merge_fdinfo_texts(&texts);
    if !gpu::needs_full_fdinfo(full_scan, false, &found) {
        return (found, fds, counted);
    }
    let more = all();
    assert(call_ensures(all, (), more));
    (gpu::merge_fdinfo_texts(&more), fds, counted)
}

} // verus!
