//! What a row, an instance and a container say of the processes they hold.
use vstd::prelude::*;

use crate::group::place::PlaceView;
use crate::group::tree;
use crate::types;
use crate::types::sums;
use crate::types::{IdentNode, InstanceNode, MemberContainer, Process, Weight};

verus! {

/// What these members weigh, each in its place.
pub open spec fn of_members(weights: Seq<Weight>, members: Seq<int>) -> Seq<Weight> {
    Seq::new(members.len(), |k: int| weights[members[k]])
}

/// `w` is the sum of these weights: its CPU time, its memory, its threads and
/// its traffic add up, and it is as old as the oldest.
pub open spec fn sums_up(w: Weight, v: Seq<Weight>) -> bool {
    let ticks = sums::total(v.map_values(|x: Weight| x.cpu_ticks as int));
    &&& w.cpu_ticks == if ticks <= u64::MAX {
        ticks
    } else {
        u64::MAX as int
    }
    &&& sums::adds_up(w.rss_bytes, sums::column(v, |x: Weight| x.rss_bytes))
    &&& sums::adds_up(w.pss_bytes, sums::column(v, |x: Weight| x.pss_bytes))
    &&& sums::adds_up(w.swap_bytes, sums::column(v, |x: Weight| x.swap_bytes))
    &&& sums::adds_up(w.threads, sums::column(v, |x: Weight| x.threads))
    &&& sums::adds_up(w.read_bytes, sums::column(v, |x: Weight| x.read_bytes))
    &&& sums::adds_up(w.written_bytes, sums::column(v, |x: Weight| x.written_bytes))
    &&& sums::adds_up(w.vram_bytes, sums::column(v, |x: Weight| x.vram_bytes))
    &&& sums::adds_up(w.gtt_bytes, sums::column(v, |x: Weight| x.gtt_bytes))
    &&& sums::tops(w.age_secs, sums::column(v, |x: Weight| x.age_secs))
}

proof fn lemma_sums_up(weights: Seq<Weight>, members: Seq<int>)
    ensures
        sums_up(
            types::weight_of(tree::picked(weights, members)),
            of_members(weights, members),
        ),
{
    let v = of_members(weights, members);
    assert(tree::picked(weights, members) =~= v);
    sums::law_cpu_time_adds_up(v);
    sums::law_quantities_add_up(v);
    sums::law_a_row_is_as_old_as_its_oldest(v);
}

/// A row is called by its key, counts its processes and weighs what they
/// weigh together.
pub proof fn law_a_row_weighs_its_processes(
    n: IdentNode,
    key: Seq<char>,
    members: Seq<int>,
    places: Seq<Option<PlaceView>>,
    procs: Seq<Process>,
    weights: Seq<Weight>,
)
    requires
        tree::is_row(n, key, members, places, procs, weights),
    ensures
        n.id@ == key && n.title@ == key,
        members.len() <= u32::MAX ==> n.nproc == members.len(),
        members.len() > u32::MAX ==> n.nproc == u32::MAX,
        sums_up(n.metrics@, of_members(weights, members)),
{
    lemma_sums_up(weights, members);
}

/// So does an instance of a row.
pub proof fn law_an_instance_weighs_its_processes(
    n: InstanceNode,
    key: Seq<char>,
    members: Seq<int>,
    procs: Seq<Process>,
    weights: Seq<Weight>,
)
    requires
        tree::is_instance(n, key, members, procs, weights),
    ensures
        n.key@ == key,
        members.len() <= u32::MAX ==> n.nproc == members.len(),
        members.len() > u32::MAX ==> n.nproc == u32::MAX,
        sums_up(n.metrics@, of_members(weights, members)),
{
    lemma_sums_up(weights, members);
}

/// So does a container of a row.
pub proof fn law_a_container_weighs_its_processes(
    n: MemberContainer,
    id: Seq<char>,
    members: Seq<int>,
    procs: Seq<Process>,
    weights: Seq<Weight>,
)
    requires
        tree::is_container(n, id, members, procs, weights),
    ensures
        n.id@ == id && n.title@ == id,
        members.len() <= u32::MAX ==> n.nproc == members.len(),
        members.len() > u32::MAX ==> n.nproc == u32::MAX,
        sums_up(n.metrics@, of_members(weights, members)),
{
    lemma_sums_up(weights, members);
}

} // verus!
