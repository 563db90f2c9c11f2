//! What a row shows of many processes: each figure as the sum, the maximum or
//! the list that its members make.
use vstd::prelude::*;

use crate::types;
use crate::types::{HostTree, IdentNode, Share, UserNode, Weight};

verus! {

// ---------------------------------------------------------------------------
// Columns of figures
// ---------------------------------------------------------------------------

/// The sum of a column, as long as it may be.
pub open spec fn total(col: Seq<int>) -> int
    decreases col.len(),
{
    if col.len() == 0 {
        0
    } else {
        total(col.drop_last()) + col.last()
    }
}

/// A figure counted as nothing where it is unknown.
pub open spec fn counted(x: Option<u64>) -> int {
    match x {
        Some(n) => n as int,
        None => 0,
    }
}

/// `r` is the sum of a column of figures, unknown exactly where all of them
/// are, and held at the largest number there is.
pub open spec fn adds_up(r: Option<u64>, col: Seq<Option<u64>>) -> bool {
    let sum = total(col.map_values(|x: Option<u64>| counted(x)));
    &&& r is None <==> forall|k: int| 0 <= k < col.len() ==> (#[trigger] col[k]) is None
    &&& r is Some ==> r->0 == if sum <= u64::MAX {
        sum
    } else {
        u64::MAX as int
    }
}

/// `r` is the largest of a column of figures, unknown exactly where all of
/// them are.
pub open spec fn tops(r: Option<u64>, col: Seq<Option<u64>>) -> bool {
    &&& r is None <==> forall|k: int| 0 <= k < col.len() ==> (#[trigger] col[k]) is None
    &&& r is Some ==> col.contains(r)
    &&& r is Some ==> forall|k: int|
        0 <= k < col.len() && (#[trigger] col[k]) is Some ==> col[k]->0 <= r->0
}

/// All the lists of a column, one after the other.
pub open spec fn strung(col: Seq<Option<Seq<Share>>>) -> Seq<Share>
    decreases col.len(),
{
    if col.len() == 0 {
        Seq::empty()
    } else {
        strung(col.drop_last()) + match col.last() {
            Some(s) => s,
            None => Seq::empty(),
        }
    }
}

/// `r` is every list of a column, unknown exactly where all of them are.
pub open spec fn strings(r: Option<Seq<Share>>, col: Seq<Option<Seq<Share>>>) -> bool {
    &&& r is None <==> forall|k: int| 0 <= k < col.len() ==> (#[trigger] col[k]) is None
    &&& r is Some ==> r->0 == strung(col)
}

proof fn lemma_adds_up(r: Option<u64>, col: Seq<Option<u64>>, x: Option<u64>)
    requires
        adds_up(r, col),
    ensures
        adds_up(types::opt_sum(r, x), col.push(x)),
        total(col.map_values(|x: Option<u64>| counted(x))) >= 0,
{
    reveal(types::opt_sum);
    let f = |x: Option<u64>| counted(x);
    let longer = col.push(x);
    assert(longer.map_values(f).drop_last() =~= col.map_values(f));
    lemma_not_negative(col);
    assert(longer[col.len() as int] == x);
    if types::opt_sum(r, x) is None {
        assert forall|k: int| 0 <= k < longer.len() implies (#[trigger] longer[k]) is None by {
            if k < col.len() {
                assert(col[k] is None);
            }
        }
    } else if forall|k: int| 0 <= k < longer.len() ==> (#[trigger] longer[k]) is None {
        assert forall|k: int| 0 <= k < col.len() implies (#[trigger] col[k]) is None by {
            assert(longer[k] is None);
        }
    }
    if r is None {
        lemma_nothing(col);
    }
}

proof fn lemma_not_negative(col: Seq<Option<u64>>)
    ensures
        total(col.map_values(|x: Option<u64>| counted(x))) >= 0,
    decreases col.len(),
{
    let f = |x: Option<u64>| counted(x);
    if col.len() > 0 {
        lemma_not_negative(col.drop_last());
        assert(col.map_values(f).drop_last() =~= col.drop_last().map_values(f));
    }
}

proof fn lemma_nothing(col: Seq<Option<u64>>)
    requires
        forall|k: int| 0 <= k < col.len() ==> (#[trigger] col[k]) is None,
    ensures
        total(col.map_values(|x: Option<u64>| counted(x))) == 0,
    decreases col.len(),
{
    let f = |x: Option<u64>| counted(x);
    if col.len() > 0 {
        let less = col.drop_last();
        assert forall|k: int| 0 <= k < less.len() implies (#[trigger] less[k]) is None by {
            assert(col[k] is None);
        }
        lemma_nothing(less);
        assert(col.map_values(f).drop_last() =~= less.map_values(f));
        assert(col.last() is None);
    }
}

proof fn lemma_tops(r: Option<u64>, col: Seq<Option<u64>>, x: Option<u64>)
    requires
        tops(r, col),
    ensures
        tops(types::opt_max(r, x), col.push(x)),
{
    reveal(types::opt_max);
    let longer = col.push(x);
    let n = col.len() as int;
    assert(longer[n] == x);
    assert forall|k: int| 0 <= k < n implies #[trigger] longer[k] == col[k] by {}
    if r is Some {
        let k = choose|k: int| 0 <= k < n && col[k] == r;
        assert(longer[k] == r);
    }
    if types::opt_max(r, x) is None {
        assert forall|k: int| 0 <= k < longer.len() implies (#[trigger] longer[k]) is None by {
            if k < n {
                assert(col[k] is None);
            }
        }
    } else if r is Some {
        let k = choose|k: int| 0 <= k < n && col[k] == r;
        assert(longer[k] is Some);
    }
}

proof fn lemma_strings(r: Option<Seq<Share>>, col: Seq<Option<Seq<Share>>>, x: Option<Seq<Share>>)
    requires
        strings(r, col),
    ensures
        strings(types::opt_chain(r, x), col.push(x)),
{
    reveal(types::opt_chain);
    let longer = col.push(x);
    let n = col.len() as int;
    assert(longer.drop_last() =~= col);
    assert(longer[n] == x);
    assert forall|k: int| 0 <= k < n implies #[trigger] longer[k] == col[k] by {}
    if r is None {
        lemma_nothing_strung(col);
        assert(strung(longer) =~= match x {
            Some(s) => s,
            None => Seq::empty(),
        });
    }
    if x is None {
        assert(strung(longer) =~= strung(col));
    }
    if types::opt_chain(r, x) is None {
        assert forall|k: int| 0 <= k < longer.len() implies (#[trigger] longer[k]) is None by {
            if k < n {
                assert(col[k] is None);
            }
        }
    } else if forall|k: int| 0 <= k < longer.len() ==> (#[trigger] longer[k]) is None {
        assert forall|k: int| 0 <= k < n implies (#[trigger] col[k]) is None by {
            assert(longer[k] is None);
        }
    }
}

proof fn lemma_nothing_strung(col: Seq<Option<Seq<Share>>>)
    requires
        forall|k: int| 0 <= k < col.len() ==> (#[trigger] col[k]) is None,
    ensures
        strung(col) =~= Seq::<Share>::empty(),
    decreases col.len(),
{
    if col.len() > 0 {
        let less = col.drop_last();
        assert forall|k: int| 0 <= k < less.len() implies (#[trigger] less[k]) is None by {
            assert(col[k] is None);
        }
        lemma_nothing_strung(less);
        assert(col.last() is None);
    }
}

// ---------------------------------------------------------------------------
// The laws
// ---------------------------------------------------------------------------

/// The CPU time of a row is the sum of its members', and so is the number of
/// processes that wait for a device: exactly, up to the largest number there
/// is.
pub proof fn law_cpu_time_adds_up(v: Seq<Weight>)
    ensures
        ({
            let sum = total(v.map_values(|x: Weight| x.cpu_ticks as int));
            types::weight_of(v).cpu_ticks == if sum <= u64::MAX {
                sum
            } else {
                u64::MAX as int
            }
        }),
        ({
            let sum = total(v.map_values(|x: Weight| x.d_state_procs as int));
            types::weight_of(v).d_state_procs == if sum <= u32::MAX {
                sum
            } else {
                u32::MAX as int
            }
        }),
        total(v.map_values(|x: Weight| x.cpu_ticks as int)) >= 0,
        total(v.map_values(|x: Weight| x.d_state_procs as int)) >= 0,
    decreases v.len(),
{
    let f = |x: Weight| x.cpu_ticks as int;
    let g = |x: Weight| x.d_state_procs as int;
    if v.len() > 0 {
        let less = v.drop_last();
        law_cpu_time_adds_up(less);
        types::lemma_weight_prefix(v, less, less.len() as int);
        assert(v.map_values(f).drop_last() =~= less.map_values(f));
        assert(v.map_values(g).drop_last() =~= less.map_values(g));
    }
}

/// One column of a list of weights.
pub open spec fn column(v: Seq<Weight>, f: spec_fn(Weight) -> Option<u64>) -> Seq<Option<u64>> {
    v.map_values(f)
}

/// Memory, threads, traffic and graphics memory of a row add up over its
/// members; a figure nobody knows stays unknown.
pub proof fn law_quantities_add_up(v: Seq<Weight>)
    ensures
        adds_up(types::weight_of(v).rss_bytes, column(v, |x: Weight| x.rss_bytes)),
        adds_up(types::weight_of(v).pss_bytes, column(v, |x: Weight| x.pss_bytes)),
        adds_up(types::weight_of(v).swap_bytes, column(v, |x: Weight| x.swap_bytes)),
        adds_up(types::weight_of(v).threads, column(v, |x: Weight| x.threads)),
        adds_up(types::weight_of(v).read_bytes, column(v, |x: Weight| x.read_bytes)),
        adds_up(types::weight_of(v).written_bytes, column(v, |x: Weight| x.written_bytes)),
        adds_up(types::weight_of(v).vram_bytes, column(v, |x: Weight| x.vram_bytes)),
        adds_up(types::weight_of(v).gtt_bytes, column(v, |x: Weight| x.gtt_bytes)),
    decreases v.len(),
{
    if v.len() > 0 {
        let less = v.drop_last();
        let (x, so_far) = (v.last(), types::weight_of(less));
        law_quantities_add_up(less);
        types::lemma_weight_prefix(v, less, less.len() as int);
        assert(column(v, |x: Weight| x.rss_bytes) =~= column(less, |x: Weight| x.rss_bytes).push(
            x.rss_bytes,
        ));
        lemma_adds_up(so_far.rss_bytes, column(less, |x: Weight| x.rss_bytes), x.rss_bytes);
        assert(column(v, |x: Weight| x.pss_bytes) =~= column(less, |x: Weight| x.pss_bytes).push(
            x.pss_bytes,
        ));
        lemma_adds_up(so_far.pss_bytes, column(less, |x: Weight| x.pss_bytes), x.pss_bytes);
        assert(column(v, |x: Weight| x.swap_bytes) =~= column(less, |x: Weight| x.swap_bytes).push(
            x.swap_bytes,
        ));
        lemma_adds_up(so_far.swap_bytes, column(less, |x: Weight| x.swap_bytes), x.swap_bytes);
        assert(column(v, |x: Weight| x.threads) =~= column(less, |x: Weight| x.threads).push(
            x.threads,
        ));
        lemma_adds_up(so_far.threads, column(less, |x: Weight| x.threads), x.threads);
        assert(column(v, |x: Weight| x.read_bytes) =~= column(less, |x: Weight| x.read_bytes).push(
            x.read_bytes,
        ));
        lemma_adds_up(so_far.read_bytes, column(less, |x: Weight| x.read_bytes), x.read_bytes);
        assert(column(v, |x: Weight| x.written_bytes) =~= column(
            less,
            |x: Weight| x.written_bytes,
        ).push(x.written_bytes));
        lemma_adds_up(
            so_far.written_bytes,
            column(less, |x: Weight| x.written_bytes),
            x.written_bytes,
        );
        assert(column(v, |x: Weight| x.vram_bytes) =~= column(less, |x: Weight| x.vram_bytes).push(
            x.vram_bytes,
        ));
        lemma_adds_up(so_far.vram_bytes, column(less, |x: Weight| x.vram_bytes), x.vram_bytes);
        assert(column(v, |x: Weight| x.gtt_bytes) =~= column(less, |x: Weight| x.gtt_bytes).push(
            x.gtt_bytes,
        ));
        lemma_adds_up(so_far.gtt_bytes, column(less, |x: Weight| x.gtt_bytes), x.gtt_bytes);
    }
}

/// A row is as old as its oldest member: the age is never a sum.
pub proof fn law_a_row_is_as_old_as_its_oldest(v: Seq<Weight>)
    ensures
        tops(types::weight_of(v).age_secs, column(v, |x: Weight| x.age_secs)),
    decreases v.len(),
{
    if v.len() > 0 {
        let less = v.drop_last();
        law_a_row_is_as_old_as_its_oldest(less);
        types::lemma_weight_prefix(v, less, less.len() as int);
        assert(column(v, |x: Weight| x.age_secs) =~= column(less, |x: Weight| x.age_secs).push(
            v.last().age_secs,
        ));
        lemma_tops(
            types::weight_of(less).age_secs,
            column(less, |x: Weight| x.age_secs),
            v.last().age_secs,
        );
    }
}

/// The busy shares of a row are those of its members, all of them and in
/// their order.
pub proof fn law_shares_are_kept_apart(v: Seq<Weight>)
    ensures
        strings(types::weight_of(v).gfx, v.map_values(|x: Weight| x.gfx)),
        strings(types::weight_of(v).compute, v.map_values(|x: Weight| x.compute)),
    decreases v.len(),
{
    let f = |x: Weight| x.gfx;
    let g = |x: Weight| x.compute;
    if v.len() > 0 {
        let less = v.drop_last();
        law_shares_are_kept_apart(less);
        types::lemma_weight_prefix(v, less, less.len() as int);
        assert(v.map_values(f) =~= less.map_values(f).push(v.last().gfx));
        assert(v.map_values(g) =~= less.map_values(g).push(v.last().compute));
        lemma_strings(types::weight_of(less).gfx, less.map_values(f), v.last().gfx);
        lemma_strings(types::weight_of(less).compute, less.map_values(g), v.last().compute);
    }
}

/// What belongs to one network namespace or one control group is never summed:
/// a sum of weights has none of it.
pub proof fn law_traffic_and_stalls_are_never_summed(v: Seq<Weight>)
    ensures
        ({
            let sum = types::weight_of(v);
            &&& sum.net_rx is None && sum.net_tx is None
            &&& sum.cpu_stall is None && sum.io_stall is None && sum.mem_stall is None
        }),
    decreases v.len(),
{
    if v.len() > 0 {
        let less = v.drop_last();
        law_traffic_and_stalls_are_never_summed(less);
        types::lemma_weight_prefix(v, less, less.len() as int);
    }
}

/// The processes of rows add up to the processes of a folder, those of its
/// folders to a user's, and those of all to the machine's: exactly, up to the
/// largest number there is.
pub proof fn law_processes_add_up(rows: Seq<IdentNode>, n: int)
    requires
        0 <= n <= rows.len(),
    ensures
        ({
            let sum = total(rows.take(n).map_values(|x: IdentNode| x.nproc as int));
            &&& sum >= 0
            &&& types::count_upto(rows, n) == if sum <= u32::MAX {
                sum
            } else {
                u32::MAX as int
            }
        }),
    decreases n,
{
    let f = |x: IdentNode| x.nproc as int;
    if n > 0 {
        law_processes_add_up(rows, n - 1);
        assert(rows.take(n).map_values(f).drop_last() =~= rows.take(n - 1).map_values(f));
        assert(rows.take(n).map_values(f).last() == rows[n - 1].nproc);
    } else {
        assert(rows.take(0).map_values(f).len() == 0);
    }
}

/// A user's processes are those of the three folders together.
pub proof fn law_a_users_processes(u: UserNode)
    requires
        types::count_of(u.applications@) + types::count_of(u.user_services@) + types::count_of(
            u.containers@,
        ) <= u32::MAX,
    ensures
        types::user_count(u) == types::count_of(u.applications@) + types::count_of(
            u.user_services@,
        ) + types::count_of(u.containers@),
{
}

/// The machine's processes are those of its users, of its containers and of
/// the system together.
pub proof fn law_the_machines_processes(t: HostTree)
    requires
        types::users_count(t.users@, t.users@.len() as int) + types::count_of(t.containers@)
            + types::count_of(t.system@) <= u32::MAX,
    ensures
        types::tree_count(t) == types::users_count(t.users@, t.users@.len() as int)
            + types::count_of(t.containers@) + types::count_of(t.system@),
        t.users@.len() > 0 ==> types::users_count(t.users@, 1) == types::user_count(t.users@[0]),
{
    if t.users@.len() > 0 {
        assert(types::users_count(t.users@, 0) == 0);
    }
}

/// A user's CPU time is that of the three folders together.
pub proof fn law_a_users_cpu_time(u: UserNode)
    ensures
        ({
            let sum = types::weight_of(types::row_weights(u.applications@)).cpu_ticks
                + types::weight_of(types::row_weights(u.user_services@)).cpu_ticks
                + types::weight_of(types::row_weights(u.containers@)).cpu_ticks;
            types::user_weight(u).cpu_ticks == if sum <= u64::MAX {
                sum
            } else {
                u64::MAX as int
            }
        }),
{
}

/// The machine's CPU time is that of its containers, of the system and of each
/// of its users together.
pub proof fn law_the_machines_cpu_time(t: HostTree, w: Weight, n: int)
    requires
        0 <= n < t.users@.len(),
        types::plus_users(w, t.users@, n).cpu_ticks + types::user_weight(t.users@[n]).cpu_ticks
            <= u64::MAX,
    ensures
        types::plus_users(w, t.users@, n + 1).cpu_ticks == types::plus_users(
            w,
            t.users@,
            n,
        ).cpu_ticks + types::user_weight(t.users@[n]).cpu_ticks,
        t.users@.len() == 0 ==> types::tree_weight(t) == types::weight_of(
            types::row_weights(t.containers@),
        ).plus(types::weight_of(types::row_weights(t.system@))),
{
}

} // verus!
