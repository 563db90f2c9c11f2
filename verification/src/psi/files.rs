//! Which control groups are read, and what of each is kept.
use vstd::prelude::*;

use crate::psi;
use crate::psi::Pressure;
use crate::types::Process;

verus! {

/// Each control group that a process is in is read, no other is, and none is
/// read twice.
pub proof fn law_every_group_is_read_once(procs: Seq<Process>, n: int, path: Seq<char>)
    requires
        0 <= n <= procs.len(),
    ensures
        psi::paths_upto(procs, n).contains(path) <==> exists|k: int|
            0 <= k < n && psi::path_of((#[trigger] procs[k]).cgroup@) == Some(path),
        psi::paths_upto(procs, n).no_duplicates(),
    decreases n,
{
    if n > 0 {
        law_every_group_is_read_once(procs, n - 1, path);
        let before = psi::paths_upto(procs, n - 1);
        let here = psi::path_of(procs[n - 1].cgroup@);
        if here is Some && !before.contains(here->0) {
            let all = before.push(here->0);
            assert(psi::paths_upto(procs, n) == all);
            assert(all.last() == here->0);
            if before.contains(path) {
                let j = choose|j: int| 0 <= j < before.len() && before[j] == path;
                assert(all[j] == path);
            }
        } else if here is Some && before.contains(path) {
            assert(psi::paths_upto(procs, n) == before);
        }
    }
}

/// The totals of a control group are those of its own files, and there are
/// none where its files tell none.
pub proof fn law_totals_are_of_their_own_group(
    paths: Seq<Seq<char>>,
    files: Seq<Pressure>,
    n: int,
    k: int,
)
    requires
        paths.no_duplicates(),
        paths.len() == files.len(),
        0 <= k < n <= paths.len(),
    ensures
        ({
            let m = psi::totals_upto(paths, files, n);
            &&& m.dom().contains(paths[k]) <==> files[k].totals() is Some
            &&& files[k].totals() is Some ==> m[paths[k]] == files[k].totals()->0
        }),
    decreases n,
{
    if k < n - 1 {
        law_totals_are_of_their_own_group(paths, files, n - 1, k);
        assert(paths[n - 1] != paths[k]);
    } else {
        lemma_not_yet(paths, files, n - 1, k);
    }
}

proof fn lemma_not_yet(paths: Seq<Seq<char>>, files: Seq<Pressure>, n: int, k: int)
    requires
        paths.no_duplicates(),
        paths.len() == files.len(),
        0 <= n <= k < paths.len(),
    ensures
        !psi::totals_upto(paths, files, n).dom().contains(paths[k]),
    decreases n,
{
    if n > 0 {
        lemma_not_yet(paths, files, n - 1, k);
        assert(paths[n - 1] != paths[k]);
    }
}

} // verus!
