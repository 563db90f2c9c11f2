//! What control groups waited for, told by the totals their files count.
use vstd::prelude::*;

use crate::group;
use crate::psi;
use crate::psi::{Pressure, Stall, Totals};
use crate::types::{Process, Weight};
use crate::{net, proc, text};

verus! {

/// What a group waited is what each total went; together with what it was it
/// makes what it is. Nothing is known of an interval without a sample before
/// it, without a length, or over which any total went back.
pub proof fn law_a_stall_is_what_the_totals_went(p: Totals, cur: Totals, elapsed: u64)
    ensures
        psi::stall_between(None, cur, elapsed) is None,
        psi::stall_between(Some(p), cur, elapsed) is Some <==> elapsed > 0 && p.cpu <= cur.cpu
            && p.io <= cur.io && p.mem <= cur.mem,
        psi::stall_between(Some(p), cur, elapsed) matches Some(s) ==> s.cpu + p.cpu == cur.cpu
            && s.io + p.io == cur.io && s.mem + p.mem == cur.mem,
{
}

/// Two intervals in a row wait what they wait together.
pub proof fn law_stalls_add_up(a: Totals, b: Totals, c: Totals, elapsed: u64)
    requires
        elapsed > 0,
        a.cpu <= b.cpu <= c.cpu,
        a.io <= b.io <= c.io,
        a.mem <= b.mem <= c.mem,
    ensures
        ({
            let first = psi::stall_between(Some(a), b, elapsed)->0;
            let second = psi::stall_between(Some(b), c, elapsed)->0;
            let both = psi::stall_between(Some(a), c, elapsed)->0;
            &&& both.cpu == first.cpu + second.cpu
            &&& both.io == first.io + second.io
            &&& both.mem == first.mem + second.mem
        }),
{
}

proof fn lemma_word(words: Seq<Seq<char>>, key: Seq<char>, k: int, j: int)
    requires
        0 <= j <= k < words.len(),
        text::has_prefix(words[k], key),
        forall|m: int| 0 <= m < k ==> !text::has_prefix(#[trigger] words[m], key),
    ensures
        psi::word_from(words, key, j) == Some(text::rest_from(words[k], key.len() as int)),
    decreases k - j,
{
    if j < k {
        assert(!text::has_prefix(words[j], key));
        lemma_word(words, key, k, j + 1);
    }
}

proof fn lemma_line(lines: Seq<Seq<char>>, p: Seq<char>, k: int, j: int)
    requires
        0 <= j <= k < lines.len(),
        text::has_prefix(lines[k], p),
        forall|m: int| 0 <= m < k ==> !text::has_prefix(#[trigger] lines[m], p),
    ensures
        proc::line_from(lines, p, j) == Some(lines[k]),
    decreases k - j,
{
    if j < k {
        assert(!text::has_prefix(lines[j], p));
        lemma_line(lines, p, k, j + 1);
    }
}

/// The `k`th line of a pressure file is the first on the time in which some
/// task waited, and its `m`th word the first under a key.
pub open spec fn says_some(t: Seq<char>, key: Seq<char>, k: int, m: int, v: Seq<char>) -> bool {
    let lines = text::lines_of(t);
    let words = text::words(lines[k]);
    &&& 0 <= k < lines.len()
    &&& text::has_prefix(lines[k], "some "@)
    &&& forall|j: int| 0 <= j < k ==> !text::has_prefix(#[trigger] lines[j], "some "@)
    &&& 0 <= m < words.len()
    &&& words[m] == key + v
    &&& forall|j: int| 0 <= j < m ==> !text::has_prefix(#[trigger] words[j], key)
}

proof fn lemma_some(t: Seq<char>, key: Seq<char>, k: int, m: int, v: Seq<char>)
    requires
        says_some(t, key, k, m, v),
    ensures
        psi::some_value(t, key) == Some(v),
{
    let lines = text::lines_of(t);
    let words = text::words(lines[k]);
    lemma_line(lines, "some "@, k, 0);
    text::laws::law_parts_of_a_text(words[m], key);
    lemma_word(words, key, m, 0);
    assert(text::rest_from(words[m], key.len() as int) =~= v);
}

/// A total is the number behind `total=` on the line of some waiting, and an
/// average what stands behind `avg10=`.
pub proof fn law_totals_and_averages_have_their_keys(
    t: Seq<char>,
    k: int,
    m: int,
    n: u64,
    a: int,
    v: Seq<char>,
)
    requires
        says_some(t, "total="@, k, m, text::decimal(n as nat)),
        says_some(t, "avg10="@, k, a, v),
    ensures
        psi::total_of(Some(t)) == Some(n),
        psi::average(Some(t)) == Some(v),
        psi::total_of(None) is None,
        psi::average(None) is None,
{
    lemma_some(t, "total="@, k, m, text::decimal(n as nat));
    lemma_some(t, "avg10="@, k, a, v);
    text::laws::law_numbers_are_read_back(n as nat, u64::MAX as nat);
}

/// The totals of a group are those of its three files, each of its own; all or
/// none.
pub proof fn law_three_files_or_none(
    cpu: Option<Seq<char>>,
    io: Option<Seq<char>>,
    mem: Option<Seq<char>>,
)
    ensures
        psi::totals_of(cpu, io, mem) is Some <==> psi::total_of(cpu) is Some && psi::total_of(
            io,
        ) is Some && psi::total_of(mem) is Some,
        psi::totals_of(cpu, io, mem) matches Some(t) ==> psi::total_of(cpu) == Some(t.cpu)
            && psi::total_of(io) == Some(t.io) && psi::total_of(mem) == Some(t.mem),
{
}

proof fn lemma_unified(lines: Seq<Seq<char>>, k: int, j: int)
    requires
        0 <= j <= k < lines.len(),
        text::has_prefix(lines[k], "0::"@),
        forall|m: int| 0 <= m < k ==> !text::has_prefix(#[trigger] lines[m], "0::"@),
    ensures
        psi::unified_from(lines, j) == Some(text::rest_from(lines[k], "0::"@.len() as int)),
    decreases k - j,
{
    if j < k {
        assert(!text::has_prefix(lines[j], "0::"@));
        lemma_unified(lines, k, j + 1);
    }
}

/// The group of a process is the path on its line of the unified hierarchy;
/// the root's is none.
pub proof fn law_the_group_of_a_process(cgroup: Seq<char>, k: int, path: Seq<char>)
    requires
        0 <= k < text::lines_of(cgroup).len(),
        text::lines_of(cgroup)[k] == "0::"@ + path,
        forall|m: int|
            0 <= m < k ==> !text::has_prefix(#[trigger] text::lines_of(cgroup)[m], "0::"@),
    ensures
        path.len() > 1 && path[0] == '/' ==> psi::path_of(cgroup) == Some(path),
        path == seq!['/'] || path.len() == 0 || path[0] != '/' ==> psi::path_of(cgroup) is None,
{
    let lines = text::lines_of(cgroup);
    text::laws::law_parts_of_a_text(lines[k], "0::"@);
    lemma_unified(lines, k, 0);
    assert(text::rest_from(lines[k], "0::"@.len() as int) =~= path);
    reveal_strlit("/");
    assert("/"@ =~= seq!['/']);
}

/// A group of one process is known by its list: one number and no other.
pub proof fn law_a_group_of_one(t: Seq<char>, pid: u32)
    ensures
        text::words(t) =~= seq![text::decimal(pid as nat)] ==> psi::lone_pid(t) == Some(pid),
        text::words(t).len() != 1 ==> psi::lone_pid(t) is None,
{
    text::laws::law_numbers_are_read_back(pid as nat, u32::MAX as nat);
    if text::words(t) =~= seq![text::decimal(pid as nat)] {
        assert(text::words(t)[0] == text::decimal(pid as nat));
    }
}

/// What a process waited is what its group waited, and known only where the
/// group holds it alone, by the walk and by the group's own list.
pub proof fn law_a_process_waits_for_itself_alone(
    rates: Map<Seq<char>, Stall>,
    procs: Seq<Process>,
    sole: Map<Seq<char>, u32>,
    pid: u32,
)
    ensures
        psi::process_stall(rates, procs, sole, pid) matches Some(s) ==> {
            let path = psi::path_of_pid(procs, pid);
            &&& path is Some && rates.dom().contains(path->0) && rates[path->0] == s
            &&& sole.dom().contains(path->0) && sole[path->0] == pid
            &&& psi::seen_upto(procs, path->0, procs.len() as int) == 1
        },
        ({
            let path = psi::path_of_pid(procs, pid);
            path is Some && rates.dom().contains(path->0) && sole.dom().contains(path->0)
                && sole[path->0] == pid && psi::seen_upto(procs, path->0, procs.len() as int) == 1
                ==> psi::process_stall(rates, procs, sole, pid) == Some(rates[path->0])
        }),
{
}

/// Two processes seen in one group leave neither alone.
pub proof fn law_two_in_a_group_are_not_alone(
    procs: Seq<Process>,
    path: Seq<char>,
    a: int,
    b: int,
    n: int,
)
    requires
        0 <= a < b < n <= procs.len(),
        psi::path_of(procs[a].cgroup@) == Some(path),
        psi::path_of(procs[b].cgroup@) == Some(path),
    ensures
        psi::seen_upto(procs, path, n) >= 2,
    decreases n,
{
    if b < n - 1 {
        law_two_in_a_group_are_not_alone(procs, path, a, b, n - 1);
    } else {
        lemma_one_seen(procs, path, a, n - 1);
    }
}

proof fn lemma_one_seen(procs: Seq<Process>, path: Seq<char>, a: int, n: int)
    requires
        0 <= a < n <= procs.len(),
        psi::path_of(procs[a].cgroup@) == Some(path),
    ensures
        psi::seen_upto(procs, path, n) >= 1,
    decreases n,
{
    if a < n - 1 {
        lemma_one_seen(procs, path, a, n - 1);
    }
}

/// A row shows each kind of waiting in its own column, and nothing else of it
/// changes.
pub proof fn law_each_stall_has_its_column(w: Weight, s: Stall)
    ensures
        ({
            let r = psi::with_stall(w, Some(s));
            &&& r.cpu_stall == Some(s.cpu) && r.io_stall == Some(s.io) && r.mem_stall == Some(s.mem)
            &&& Weight {
                cpu_stall: w.cpu_stall,
                io_stall: w.io_stall,
                mem_stall: w.mem_stall,
                ..r
            } == w
        }),
        psi::with_stall(w, None) == w,
{
}

proof fn lemma_stall_kept(
    prev: Map<Seq<char>, Totals>,
    paths: Seq<Seq<char>>,
    files: Seq<Pressure>,
    elapsed: u64,
    k: int,
    n: int,
)
    requires
        0 <= k < n <= paths.len(),
        files.len() == paths.len(),
        forall|j: int| k < j < n ==> #[trigger] paths[j] != paths[k],
    ensures
        net::opt_at(psi::stalls_upto(prev, paths, files, elapsed, n), paths[k]) == net::opt_at(
            psi::stalls_upto(prev, paths, files, elapsed, k + 1),
            paths[k],
        ),
    decreases n,
{
    if k < n - 1 {
        assert(paths[n - 1] != paths[k]);
        lemma_stall_kept(prev, paths, files, elapsed, k, n - 1);
    }
}

/// Each group waited what its own totals went since its own totals before.
pub proof fn law_each_group_by_its_own_totals(
    prev: Map<Seq<char>, Totals>,
    paths: Seq<Seq<char>>,
    files: Seq<Pressure>,
    elapsed: u64,
    k: int,
    cur: Totals,
)
    requires
        0 <= k < paths.len(),
        files.len() == paths.len(),
        paths.no_duplicates(),
        files[k].totals() == Some(cur),
        elapsed > 0,
        prev.dom().contains(paths[k]),
        prev[paths[k]].cpu <= cur.cpu,
        prev[paths[k]].io <= cur.io,
        prev[paths[k]].mem <= cur.mem,
    ensures
        ({
            let all = psi::stalls_upto(prev, paths, files, elapsed, paths.len() as int);
            &&& all.dom().contains(paths[k])
            &&& all[paths[k]].cpu + prev[paths[k]].cpu == cur.cpu
            &&& all[paths[k]].io + prev[paths[k]].io == cur.io
            &&& all[paths[k]].mem + prev[paths[k]].mem == cur.mem
        }),
{
    lemma_stall_kept(prev, paths, files, elapsed, k, paths.len() as int);
    let at = psi::stalls_upto(prev, paths, files, elapsed, k + 1);
    assert(at.dom().contains(paths[k]));
}

/// The group of a pid is that of the process that has it.
pub proof fn law_the_group_of_a_pid(procs: Seq<Process>, i: int)
    requires
        group::by_pid(procs),
        0 <= i < procs.len(),
    ensures
        psi::path_of_pid(procs, procs[i].pid) == psi::path_of(procs[i].cgroup@),
{
    let pid = procs[i].pid;
    let c = choose|k: int| 0 <= k < procs.len() && (#[trigger] procs[k]).pid == pid;
    assert(procs[i].pid == pid);
    assert(c == i) by {
        if c < i {
            assert(procs[c].pid < procs[i].pid);
        } else if c > i {
            assert(procs[i].pid < procs[c].pid);
        }
    }
}

} // verus!
