//! One process of a sample: which of its files are read, and what stays as it
//! was.
use vstd::prelude::*;

use crate::proc::{Rollup, SharePlan, StatFields, StatView};
use crate::types::{GpuCounters, Process};
use crate::{identity, io, proc, text};

verus! {

/// A file of a process.
#[derive(Clone, Copy, Debug, PartialEq, Eq, Structural)]
pub enum File {
    Stat,
    /// The target of the link.
    Exe,
    Status,
    Cgroup,
    Cmdline,
    Statm,
    SmapsRollup,
    Io,
}

pub open spec fn opt_bytes(b: Option<Vec<u8>>) -> Option<Seq<u8>> {
    match b {
        Some(v) => Some(v@),
        None => None,
    }
}

// ---------------------------------------------------------------------------
// What a file says, or what holds where it cannot be read
// ---------------------------------------------------------------------------

/// The program: the target of its link without the mark of a deleted file.
pub open spec fn exe_told(b: Option<Seq<u8>>) -> Option<Seq<char>> {
    match b {
        Some(s) => Some(proc::undeleted(identity::lossy_text(s))),
        None => None,
    }
}

fn exe_of(b: &Option<Vec<u8>>) -> (r: Option<String>)
    ensures
        text::opt_text(r) == exe_told(opt_bytes(*b)),
{
    match b {
        Some(v) => {
            let t = identity::text_lossy(v.as_slice());
            Some(proc::strip_deleted(t.as_str()).to_owned())
        },
        None => None,
    }
}

/// The user: the superuser where it cannot be read.
pub open spec fn uid_told(b: Option<Seq<u8>>) -> u32 {
    match b {
        Some(s) => match proc::uid_of_status(s) {
            Some(u) => u,
            None => 0,
        },
        None => 0,
    }
}

fn uid_of(b: &Option<Vec<u8>>) -> (r: u32)
    ensures
        r == uid_told(opt_bytes(*b)),
{
    match b {
        Some(v) => match proc::parse_uid(v.as_slice()) {
            Some(u) => u,
            None => 0,
        },
        None => 0,
    }
}

/// The control groups.
pub open spec fn cgroup_told(b: Option<Seq<u8>>) -> Seq<char> {
    match b {
        Some(s) => text::trimmed(identity::lossy_text(s)),
        None => Seq::empty(),
    }
}

fn cgroup_of(b: &Option<Vec<u8>>) -> (r: String)
    ensures
        r@ == cgroup_told(opt_bytes(*b)),
{
    match b {
        Some(v) => {
            let t = identity::text_lossy(v.as_slice());
            text::string_of(text::trim(text::chars_of(t.as_str()).as_slice()).as_slice())
        },
        None => String::new(),
    }
}

/// The arguments.
pub open spec fn args_told(b: Option<Seq<u8>>) -> Seq<Seq<char>> {
    match b {
        Some(s) => proc::args_from(s, 0),
        None => Seq::empty(),
    }
}

fn args_of(b: &Option<Vec<u8>>) -> (r: Vec<String>)
    ensures
        text::texts(r@) == args_told(opt_bytes(*b)),
{
    match b {
        Some(v) => proc::parse_cmdline(v.as_slice()),
        None => {
            let out: Vec<String> = Vec::new();
            assert(text::texts(out@) =~= Seq::<Seq<char>>::empty());
            out
        },
    }
}

/// The resident pages.
pub open spec fn rss_told(b: Option<Seq<u8>>) -> Option<u64> {
    match b {
        Some(s) => proc::rss_of(identity::lossy_text(s)),
        None => None,
    }
}

fn rss_of(b: &Option<Vec<u8>>) -> (r: Option<u64>)
    ensures
        r == rss_told(opt_bytes(*b)),
{
    match b {
        Some(v) => proc::parse_rss_pages(identity::text_lossy(v.as_slice()).as_str()),
        None => None,
    }
}

/// The shares of memory and of swap.
pub open spec fn shares_told(b: Option<Seq<u8>>, want_swap: bool) -> (Option<u64>, Option<u64>) {
    match b {
        Some(s) => (
            proc::field_in(identity::lossy_text(s), "Pss:"@),
            if want_swap {
                proc::field_in(identity::lossy_text(s), "SwapPss:"@)
            } else {
                None
            },
        ),
        None => (None, None),
    }
}

fn shares_of(b: &Option<Vec<u8>>, want_swap: bool) -> (r: (Option<u64>, Option<u64>))
    ensures
        r == shares_told(opt_bytes(*b), want_swap),
{
    match b {
        Some(v) => io::parse_rollup_kb(identity::text_lossy(v.as_slice()).as_str(), want_swap),
        None => (None, None),
    }
}

/// The bytes read and written.
pub open spec fn io_told(b: Option<Seq<u8>>) -> (Option<u64>, Option<u64>) {
    match b {
        Some(s) => {
            let lines = text::lines_of(identity::lossy_text(s));
            (
                io::last_field(lines, "read_bytes:"@, lines.len() as int),
                io::last_field(lines, "write_bytes:"@, lines.len() as int),
            )
        },
        None => (None, None),
    }
}

fn io_of(b: &Option<Vec<u8>>) -> (r: (Option<u64>, Option<u64>))
    ensures
        r == io_told(opt_bytes(*b)),
{
    match b {
        Some(v) => io::parse_io(identity::text_lossy(v.as_slice()).as_str()),
        None => (None, None),
    }
}

// ---------------------------------------------------------------------------
// The process
// ---------------------------------------------------------------------------

/// A file says these bytes, or cannot be read.
pub open spec fn says<F: Fn(File) -> Option<Vec<u8>>>(
    read: F,
    f: File,
    b: Option<Vec<u8>>,
) -> bool {
    call_ensures(read, (f,), b)
}

/// What the kernel counts of a process is taken as it stands.
pub open spec fn counts(p: Process, pid: u32, s: StatView, prev: Option<Process>) -> bool {
    &&& p.pid == pid && p.ppid == s.ppid && p.pgrp == s.pgrp
    &&& p.kthread == s.kthread && p.d_state == s.d_state && p.comm@ == s.comm
    &&& p.utime == s.utime && p.stime == s.stime && p.threads == s.threads
    &&& p.starttime_ticks == s.starttime_ticks && p.exec_mark == s.exec_mark
    &&& p.walks == proc::walks_for(prev, s.starttime_ticks)
}

/// A kernel thread has none of the other files.
pub open spec fn bare(p: Process) -> bool {
    &&& p.uid == 0 && p.exe is None && p.cmdline@.len() == 0 && p.cgroup@.len() == 0
    &&& p.rss_pages == Some(0u64) && p.cgroup_id is None
    &&& p.fd_count is None && p.fd_skips == 0
    &&& p.read_bytes is None && p.write_bytes is None
    &&& p.gpu == GpuCounters::empty() && p.drm_fds@.len() == 0
}

/// The program is read unless it is still the one that was there.
pub open spec fn exe_right<F: Fn(File) -> Option<Vec<u8>>>(
    p: Process,
    prev: Option<Process>,
    read: F,
) -> bool {
    if proc::program_kept(prev, p.walks, p.comm@, p.exec_mark) {
        text::opt_text(p.exe) == text::opt_text(prev->0.exe)
    } else {
        exists|b: Option<Vec<u8>>| #[trigger]
            says(read, File::Exe, b) && text::opt_text(p.exe) == exe_told(opt_bytes(b))
    }
}

/// The user is whom the kernel names, and else whom the status file does.
pub open spec fn uid_right<F: Fn(File) -> Option<Vec<u8>>>(
    uid: u32,
    info: Option<(u32, u64)>,
    read: F,
) -> bool {
    match info {
        Some(i) => uid == i.0,
        None => exists|b: Option<Vec<u8>>| #[trigger]
            says(read, File::Status, b) && uid == uid_told(opt_bytes(b)),
    }
}

/// The control groups stay where the kernel names the group of before.
pub open spec fn cgroup_right<F: Fn(File) -> Option<Vec<u8>>>(
    cgroup: Seq<char>,
    prev: Option<Process>,
    info: Option<(u32, u64)>,
    read: F,
) -> bool {
    if info is Some && prev is Some && prev->0.cgroup_id == Some((info->0).1) && proc::v2_only(
        prev->0.cgroup@,
    ) {
        cgroup == prev->0.cgroup@
    } else {
        exists|b: Option<Vec<u8>>| #[trigger]
            says(read, File::Cgroup, b) && cgroup == cgroup_told(opt_bytes(b))
    }
}

/// Who the process is: as it was while that stands, and else read anew.
pub open spec fn identity_right<
    F: Fn(File) -> Option<Vec<u8>>,
    I: FnOnce() -> Option<(u32, u64)>,
>(p: Process, prev: Option<Process>, read: F, info: I) -> bool {
    if prev is Some && proc::identity_kept(prev->0, p.walks, p.comm@, text::opt_text(p.exe)) {
        &&& p.uid == prev->0.uid && p.cgroup_id == prev->0.cgroup_id
        &&& text::texts(p.cmdline@) == text::texts(prev->0.cmdline@)
        &&& p.cgroup@ == prev->0.cgroup@
    } else {
        exists|i: Option<(u32, u64)>|
            {
                &&& #[trigger] call_ensures(info, (), i)
                &&& uid_right(p.uid, i, read)
                &&& cgroup_right(p.cgroup@, prev, i, read)
                &&& p.cgroup_id == match i {
                    Some(v) => Some(v.1),
                    None => None::<u64>,
                }
                &&& exists|b: Option<Vec<u8>>| #[trigger]
                    says(read, File::Cmdline, b) && text::texts(p.cmdline@) == args_told(
                        opt_bytes(b),
                    )
            }
    }
}

/// The shares of memory: none, as they were, or read.
pub open spec fn shares_right<F: Fn(File) -> Option<Vec<u8>>>(
    p: Process,
    prev: Option<Process>,
    plan: SharePlan,
    want_swap: bool,
    read: F,
) -> bool {
    match plan {
        SharePlan::Blank => p.pss_kb is None && p.swap_pss_kb is None && p.rollup_rss_pages is None
            && p.rollup_periods == 0,
        SharePlan::Keep(n) => p.pss_kb == prev->0.pss_kb && p.swap_pss_kb == prev->0.swap_pss_kb
            && p.rollup_rss_pages == prev->0.rollup_rss_pages && p.rollup_periods == n,
        SharePlan::Read => p.rollup_rss_pages == p.rss_pages && p.rollup_periods == 0
            && exists|b: Option<Vec<u8>>| #[trigger]
            says(read, File::SmapsRollup, b) && (p.pss_kb, p.swap_pss_kb) == shares_told(
                opt_bytes(b),
                want_swap,
            ),
    }
}

/// The descriptors that are handed on to be looked at.
pub open spec fn carried(
    prev: Option<Process>,
    want_pss: bool,
    starttime: Option<u64>,
) -> Option<Seq<u32>> {
    if prev is Some && !want_pss && prev->0.starttime_ticks is Some && prev->0.starttime_ticks
        == starttime {
        Some(prev->0.drm_fds@)
    } else {
        None
    }
}

pub open spec fn opt_fds(v: Option<Vec<u32>>) -> Option<Seq<u32>> {
    match v {
        Some(f) => Some(f@),
        None => None,
    }
}

/// What the graphics devices say, asked with what is known of the descriptors.
pub open spec fn gpu_right<
    G: FnOnce(Option<Vec<u32>>, Option<u32>) -> (GpuCounters, Vec<u32>, Option<u32>),
>(p: Process, prev: Option<Process>, want_pss: bool, gpu: G) -> bool {
    let unscanned = proc::unscanned_size(prev, p.starttime_ticks);
    exists|fds: Option<Vec<u32>>, n: Option<u32>|
        {
            &&& opt_fds(fds) == carried(prev, want_pss, p.starttime_ticks)
            &&& #[trigger] call_ensures(gpu, (fds, unscanned), (p.gpu, p.drm_fds, n))
            &&& (p.fd_count, p.fd_skips) == proc::tally(prev, n, unscanned)
        }
}

/// Everything that is read of a process that is no kernel thread.
pub open spec fn full<
    F: Fn(File) -> Option<Vec<u8>>,
    I: FnOnce() -> Option<(u32, u64)>,
    G: FnOnce(Option<Vec<u32>>, Option<u32>) -> (GpuCounters, Vec<u32>, Option<u32>),
>(p: Process, prev: Option<Process>, want_pss: bool, read: F, info: I, gpu: G) -> bool {
    &&& exe_right(p, prev, read)
    &&& identity_right(p, prev, read, info)
    &&& exists|b: Option<Vec<u8>>| #[trigger]
        says(read, File::Statm, b) && p.rss_pages == rss_told(opt_bytes(b))
    &&& exists|b: Option<Vec<u8>>| #[trigger]
        says(read, File::Io, b) && (p.read_bytes, p.write_bytes) == io_told(opt_bytes(b))
    &&& gpu_right(p, prev, want_pss, gpu)
}

struct Who {
    uid: u32,
    cmdline: Vec<String>,
    cgroup: String,
    cgroup_id: Option<u64>,
}

/// Reads anew who a process is.
fn read_who<F: Fn(File) -> Option<Vec<u8>>>(
    prev: Option<&Process>,
    told: Option<(u32, u64)>,
    read: &F,
) -> (r: Who)
    requires
        forall|f: File| #[trigger] call_requires(*read, (f,)),
    ensures
        uid_right(r.uid, told, *read),
        cgroup_right(r.cgroup@, proc::opt_process(prev), told, *read),
        r.cgroup_id == match told {
            Some(v) => Some(v.1),
            None => None::<u64>,
        },
        exists|b: Option<Vec<u8>>| #[trigger]
            says(*read, File::Cmdline, b) && text::texts(r.cmdline@) == args_told(opt_bytes(b)),
{
    let uid: u32 = match told {
        Some(i) => i.0,
        None => {
            let b = read(File::Status);
            assert(says(*read, File::Status, b));
            uid_of(&b)
        },
    };
    let id: Option<u64> = match told {
        Some(i) => Some(i.1),
        None => None,
    };
    let cgroup = if proc::keeps_cgroup(prev, id) {
        match prev {
            Some(p) => p.cgroup.clone(),
            None => String::new(),
        }
    } else {
        let b = read(File::Cgroup);
        assert(says(*read, File::Cgroup, b));
        cgroup_of(&b)
    };
    let b = read(File::Cmdline);
    assert(says(*read, File::Cmdline, b));
    let cmdline = args_of(&b);
    Who { uid, cmdline, cgroup, cgroup_id: id }
}

pub(crate) fn copy_fds(v: &Vec<u32>) -> (r: Vec<u32>)
    ensures
        r@ == v@,
{
    let mut out: Vec<u32> = Vec::new();
    let mut i: usize = 0;
    while i < v.len()
        invariant
            i <= v@.len(),
            out@ == v@.take(i as int),
        decreases v.len() - i,
    {
        out.push(v[i]);
        assert(v@.take(i + 1) =~= v@.take(i as int).push(v@[i as int]));
        i += 1;
    }
    assert(v@.take(i as int) =~= v@);
    out
}

/// A process as it is now, given what it was: `read` gives the bytes of one of
/// its files, `info` the user and the control group that the kernel names, and
/// `gpu` what the graphics devices say. Nothing where it cannot be read at all.
#[verifier::rlimit(40)]
pub fn read_pid<
    F: Fn(File) -> Option<Vec<u8>>,
    I: FnOnce() -> Option<(u32, u64)>,
    G: FnOnce(Option<Vec<u32>>, Option<u32>) -> (GpuCounters, Vec<u32>, Option<u32>),
>(
    pid: u32,
    want_pss: bool,
    want_swap: bool,
    prev: Option<&Process>,
    page_size: u64,
    read: F,
    info: I,
    gpu: G,
) -> (r: Option<Process>)
    requires
        forall|f: File| #[trigger] call_requires(read, (f,)),
        call_requires(info, ()),
        forall|fds: Option<Vec<u32>>, n: Option<u32>| #[trigger] call_requires(gpu, (fds, n)),
    ensures
        exists|b: Option<Vec<u8>>| #[trigger]
            says(read, File::Stat, b) && match r {
                None => b is None || proc::stat_of(b->0@) is None,
                Some(p) => b is Some && proc::stat_of(b->0@) is Some && counts(
                    p,
                    pid,
                    proc::stat_of(b->0@)->0,
                    proc::opt_process(prev),
                ),
            },
        match r {
            Some(p) => {
                &&& p.kthread ==> bare(p)
                &&& !p.kthread ==> full(p, proc::opt_process(prev), want_pss, read, info, gpu)
                &&& shares_right(
                    p,
                    proc::opt_process(prev),
                    proc::share_plan(
                        want_pss,
                        want_swap,
                        p.kthread,
                        proc::opt_process(prev),
                        (p.starttime_ticks, p.rss_pages),
                        page_size,
                    ),
                    want_swap,
                    read,
                )
            },
            None => true,
        },
{
    let stat = read(File::Stat);
    assert(says(read, File::Stat, stat));
    let s: StatFields = match &stat {
        Some(v) => match proc::parse_stat(v.as_slice()) {
            Some(s) => s,
            None => {
                return None;
            },
        },
        None => {
            return None;
        },
    };
    let start: Option<u64> = s.starttime_ticks;
    let walks: u32 = proc::walks_of(prev, start);
    if s.kthread {
        return Some(
            Process {
                pid,
                ppid: s.ppid,
                pgrp: s.pgrp,
                kthread: true,
                comm: s.comm,
                utime: s.utime,
                stime: s.stime,
                threads: s.threads,
                starttime_ticks: start,
                d_state: s.d_state,
                rss_pages: Some(0),
                walks,
                exec_mark: s.exec_mark,
                ..Process::default()
            },
        );
    }
    let exe = if proc::same_exec(prev, walks, s.comm.as_str(), s.exec_mark) {
        match prev {
            Some(p) => text::opt_clone(&p.exe),
            None => None,
        }
    } else {
        let b = read(File::Exe);
        assert(says(read, File::Exe, b));
        exe_of(&b)
    };
    let keeps = match prev {
        Some(p) => proc::carries_identity(p, walks, s.comm.as_str(), text::opt_borrow(&exe)),
        None => false,
    };
    let who = if keeps {
        match prev {
            Some(p) => Who {
                uid: p.uid,
                cmdline: text::clone_all(p.cmdline.as_slice()),
                cgroup: p.cgroup.clone(),
                cgroup_id: p.cgroup_id,
            },
            None => Who { uid: 0, cmdline: Vec::new(), cgroup: String::new(), cgroup_id: None },
        }
    } else {
        let told = info();
        assert(call_ensures(info, (), told));
        read_who(prev, told, &read)
    };
    let statm = read(File::Statm);
    assert(says(read, File::Statm, statm));
    let rss: Option<u64> = rss_of(&statm);
    let look = || -> (o: (Option<u64>, Option<u64>))
        requires
            call_requires(read, (File::SmapsRollup,)),
        ensures
            exists|b: Option<Vec<u8>>| #[trigger]
                says(read, File::SmapsRollup, b) && o == shares_told(opt_bytes(b), want_swap),
        {
            let b = read(File::SmapsRollup);
            assert(says(read, File::SmapsRollup, b));
            shares_of(&b, want_swap)
        };
    let shares: Rollup = proc::rollup_for(
        want_pss,
        want_swap,
        false,
        prev,
        (start, rss),
        page_size,
        look,
    );
    let b = read(File::Io);
    assert(says(read, File::Io, b));
    let (read_bytes, write_bytes) = io_of(&b);
    let fds: Option<Vec<u32>> = if proc::carries_fds(prev, want_pss, start) {
        match prev {
            Some(p) => Some(copy_fds(&p.drm_fds)),
            None => None,
        }
    } else {
        None
    };
    let unscanned: Option<u32> = proc::unchanged_at(prev, start);
    let ghost asked = fds;
    let (counters, drm_fds, n) = gpu(fds, unscanned);
    assert(call_ensures(gpu, (asked, unscanned), (counters, drm_fds, n)));
    let (fd_count, fd_skips) = proc::fd_tally(prev, n, unscanned);
    let p = Process {
        pid,
        ppid: s.ppid,
        pgrp: s.pgrp,
        uid: who.uid,
        kthread: false,
        comm: s.comm,
        exe,
        cmdline: who.cmdline,
        cgroup: who.cgroup,
        utime: s.utime,
        stime: s.stime,
        threads: s.threads,
        starttime_ticks: start,
        d_state: s.d_state,
        rss_pages: rss,
        pss_kb: shares.pss_kb,
        swap_pss_kb: shares.swap_pss_kb,
        rollup_rss_pages: shares.rss_pages,
        rollup_periods: shares.periods,
        walks,
        cgroup_id: who.cgroup_id,
        fd_count,
        fd_skips,
        exec_mark: s.exec_mark,
        read_bytes,
        write_bytes,
        gpu: counters,
        drm_fds,
    };
    Some(p)
}

} // verus!
