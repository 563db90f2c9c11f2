//! What is billed of waiting to a row and to what it holds.
use vstd::prelude::*;

use crate::psi;
use crate::psi::Stall;
use crate::types::{IdentNode, InstanceNode, ProcNode, Process, UserNode, Weight};

verus! {

/// A weight but for what was waited.
pub open spec fn unwaited(w: Weight) -> Weight {
    Weight { cpu_stall: None, io_stall: None, mem_stall: None, ..w }
}

/// `w` waited at least `s`.
pub open spec fn waits_for(w: Weight, s: Stall) -> bool {
    &&& w.cpu_stall is Some && s.cpu <= w.cpu_stall->0
    &&& w.io_stall is Some && s.io <= w.io_stall->0
    &&& w.mem_stall is Some && s.mem <= w.mem_stall->0
}

/// Every process of nodes is among those counted, at whatever depth.
pub proof fn law_every_node_is_counted(nodes: Seq<ProcNode>, k: int)
    requires
        0 <= k < nodes.len(),
    ensures
        psi::pids_of(nodes).contains(nodes[k].pid),
        forall|p: u32| #[trigger]
            psi::pids_of(nodes[k].children@).contains(p) ==> psi::pids_of(nodes).contains(p),
    decreases nodes.len(),
{
    let front = psi::pids_of(nodes.drop_last());
    let back = psi::pids_of(nodes.last().children@);
    let all = psi::pids_of(nodes);
    assert(all == front + (seq![nodes.last().pid] + back));
    if k == nodes.len() - 1 {
        assert(all[front.len() as int] == nodes[k].pid);
        assert forall|p: u32| #[trigger] back.contains(p) implies all.contains(p) by {
            let j = choose|j: int| 0 <= j < back.len() && back[j] == p;
            assert(all[front.len() + 1 + j] == p);
        }
    } else {
        law_every_node_is_counted(nodes.drop_last(), k);
        assert(nodes.drop_last()[k] == nodes[k]);
        assert forall|p: u32| #[trigger] front.contains(p) implies all.contains(p) by {
            let j = choose|j: int| 0 <= j < front.len() && front[j] == p;
            assert(all[j] == p);
        }
    }
}

/// Every process of every instance is among those of the row.
pub proof fn law_every_instance_is_counted(v: Seq<InstanceNode>, n: int, g: int, p: u32)
    requires
        0 <= g < n <= v.len(),
        psi::pids_of(v[g].processes@).contains(p),
    ensures
        psi::instance_pids(v, n).contains(p),
    decreases n,
{
    let front = psi::instance_pids(v, n - 1);
    let back = psi::pids_of(v[n - 1].processes@);
    let all = psi::instance_pids(v, n);
    assert(all == front + back);
    if g == n - 1 {
        let j = choose|j: int| 0 <= j < back.len() && back[j] == p;
        assert(all[front.len() + j] == p);
    } else {
        law_every_instance_is_counted(v, n - 1, g, p);
        let j = choose|j: int| 0 <= j < front.len() && front[j] == p;
        assert(all[j] == p);
    }
}

/// Billing changes nothing of a row but what was waited. A row whose processes
/// all have a control group waited at least as long as the group of each; one
/// with a process that has none is as it was.
pub proof fn law_a_row_waits_as_long_as_its_members(
    a: IdentNode,
    b: IdentNode,
    rates: Map<Seq<char>, Stall>,
    procs: Seq<Process>,
    sole: Map<Seq<char>, u32>,
    g: int,
    p: u32,
)
    requires
        psi::billed_row(a, b, rates, procs, sole),
        0 <= g < a.instances@.len(),
        psi::pids_of(a.instances@[g].processes@).contains(p),
    ensures
        b.id == a.id && b.title == a.title && b.nproc == a.nproc,
        unwaited(b.metrics@) == unwaited(a.metrics@),
        psi::path_of_pid(procs, p) is None ==> b.metrics@ == a.metrics@,
        ({
            let pids = psi::instance_pids(a.instances@, a.instances@.len() as int);
            (forall|k: int| 0 <= k < pids.len() ==> psi::path_of_pid(procs, #[trigger] pids[k])
                is Some) ==> (psi::path_of_pid(procs, p) matches Some(t) ==> (rates.dom().contains(
                t,
            ) ==> waits_for(b.metrics@, rates[t])))
        }),
{
    let pids = psi::instance_pids(a.instances@, a.instances@.len() as int);
    law_every_instance_is_counted(a.instances@, a.instances@.len() as int, g, p);
    let j = choose|j: int| 0 <= j < pids.len() && pids[j] == p;
    assert(psi::path_of_pid(procs, pids[j]) == psi::path_of_pid(procs, p));
    psi::law_a_row_shows_its_worst_member(rates, procs, pids, pids.len() as int);
    let here = psi::member_stall(rates, procs, pids, j);
    assert(here == here);
}

/// The same of an instance of a row.
pub proof fn law_an_instance_waits_as_long_as_its_members(
    a: InstanceNode,
    b: InstanceNode,
    rates: Map<Seq<char>, Stall>,
    procs: Seq<Process>,
    sole: Map<Seq<char>, u32>,
    j: int,
)
    requires
        psi::billed_instance(a, b, rates, procs, sole),
        0 <= j < psi::pids_of(a.processes@).len(),
    ensures
        b.key == a.key && b.nproc == a.nproc,
        unwaited(b.metrics@) == unwaited(a.metrics@),
        psi::path_of_pid(procs, psi::pids_of(a.processes@)[j]) is None ==> b.metrics@
            == a.metrics@,
        ({
            let pids = psi::pids_of(a.processes@);
            (forall|k: int| 0 <= k < pids.len() ==> psi::path_of_pid(procs, #[trigger] pids[k])
                is Some) ==> (psi::path_of_pid(procs, pids[j]) matches Some(t) ==> (
            rates.dom().contains(t) ==> waits_for(b.metrics@, rates[t])))
        }),
{
    let pids = psi::pids_of(a.processes@);
    psi::law_a_row_shows_its_worst_member(rates, procs, pids, pids.len() as int);
    let here = psi::member_stall(rates, procs, pids, j);
    assert(here == here);
}

/// What a user's folders hold is billed folder by folder, row by row.
pub proof fn law_every_row_of_a_user_is_billed(
    a: UserNode,
    b: UserNode,
    rates: Map<Seq<char>, Stall>,
    procs: Seq<Process>,
    sole: Map<Seq<char>, u32>,
    k: int,
)
    requires
        psi::billed_user(a, b, rates, procs, sole),
    ensures
        b.uid == a.uid && b.name == a.name,
        b.applications@.len() == a.applications@.len(),
        b.user_services@.len() == a.user_services@.len(),
        b.containers@.len() == a.containers@.len(),
        0 <= k < a.applications@.len() ==> psi::billed_row(
            a.applications@[k],
            b.applications@[k],
            rates,
            procs,
            sole,
        ),
        0 <= k < a.user_services@.len() ==> psi::billed_row(
            a.user_services@[k],
            b.user_services@[k],
            rates,
            procs,
            sole,
        ),
        0 <= k < a.containers@.len() ==> psi::billed_row(
            a.containers@[k],
            b.containers@[k],
            rates,
            procs,
            sole,
        ),
{
}

} // verus!
