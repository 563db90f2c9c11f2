//! Nothing is lost in the tree: what a row and the machine weigh is what
//! their processes weigh.
use vstd::prelude::*;
use vstd::seq_lib::*;

use crate::group::assemble::{Home, Row};
use crate::group::place::PlaceView;
use crate::group::{assemble, tree};
use crate::types;
use crate::types::{Folder, HostTree, IdentNode, Process, UserNode, Weight};

verus! {

/// The part of a weight that adds up in any order. A device's shares are kept
/// one by one, in the order of their processes, and what belongs to one
/// namespace or group is never summed.
pub open spec fn counted(w: Weight) -> Weight {
    Weight {
        gfx: None,
        compute: None,
        net_rx: None,
        net_tx: None,
        cpu_stall: None,
        io_stall: None,
        mem_stall: None,
        ..w
    }
}

proof fn lemma_counted_plus(a: Weight, b: Weight)
    ensures
        counted(a.plus(b)) == counted(a).plus(counted(b)),
{
    reveal(types::opt_chain);
}

proof fn lemma_counted_commutes(a: Weight, b: Weight)
    ensures
        counted(a).plus(counted(b)) == counted(b).plus(counted(a)),
{
    reveal(types::opt_sum);
    reveal(types::opt_max);
    reveal(types::opt_chain);
}

spec fn step(ws: Seq<Weight>) -> spec_fn(Weight, int) -> Weight {
    |a: Weight, i: int| a.plus(counted(ws[i]))
}

/// The weights at these positions, added up.
spec fn summed(ws: Seq<Weight>, at: Seq<int>) -> Weight {
    at.fold_left(types::no_weight(), step(ws))
}

proof fn lemma_summed(ws: Seq<Weight>, at: Seq<int>)
    ensures
        counted(types::weight_of(tree::picked(ws, at))) == summed(ws, at),
    decreases at.len(),
{
    if at.len() == 0 {
        reveal_with_fuel(Seq::fold_left, 1);
    } else {
        let front = at.drop_last();
        let n = at.len() as int;
        lemma_summed(ws, front);
        types::lemma_weight_prefix(tree::picked(ws, at), tree::picked(ws, front), n - 1);
        lemma_counted_plus(types::weight_of(tree::picked(ws, front)), ws[at.last()]);
        assert(tree::picked(ws, at)[n - 1] == ws[at.last()]);
    }
}

proof fn lemma_step_commutes(ws: Seq<Weight>)
    ensures
        commutative_foldl(step(ws)),
{
    let f = step(ws);
    assert forall|x: int, y: int, v: Weight| #[trigger] f(f(v, x), y) == f(f(v, y), x) by {
        types::law_weights_associate(v, counted(ws[x]), counted(ws[y]));
        types::law_weights_associate(v, counted(ws[y]), counted(ws[x]));
        lemma_counted_commutes(ws[x], ws[y]);
    }
}

// ---------------------------------------------------------------------------
// Dividing
// ---------------------------------------------------------------------------

pub open spec fn in_some(gs: Seq<Seq<int>>, x: int) -> bool {
    exists|g: int| 0 <= g < gs.len() && #[trigger] gs[g].contains(x)
}

/// Each position below `n` is in exactly one group, and once there.
pub open spec fn divides(gs: Seq<Seq<int>>, n: int) -> bool {
    &&& forall|g: int| 0 <= g < gs.len() ==> (#[trigger] gs[g]).no_duplicates()
    &&& forall|g: int, x: int|
        0 <= g < gs.len() && (#[trigger] gs[g].contains(x)) ==> 0 <= x < n
    &&& forall|x: int| 0 <= x < n ==> #[trigger] in_some(gs, x)
    &&& forall|g: int, h: int, x: int|
        0 <= g < h < gs.len() ==> !(#[trigger] gs[g].contains(x) && #[trigger] gs[h].contains(x))
}

/// The first `n` groups, one after the other.
spec fn chained(gs: Seq<Seq<int>>, n: int) -> Seq<int>
    decreases n,
{
    if n <= 0 {
        Seq::empty()
    } else {
        chained(gs, n - 1) + gs[n - 1]
    }
}

/// What each group weighs.
pub open spec fn group_weights(ws: Seq<Weight>, gs: Seq<Seq<int>>) -> Seq<Weight> {
    Seq::new(gs.len(), |g: int| types::weight_of(tree::picked(ws, gs[g])))
}

proof fn lemma_chained_has(gs: Seq<Seq<int>>, n: int, x: int)
    requires
        0 <= n <= gs.len(),
    ensures
        chained(gs, n).contains(x) == exists|g: int| 0 <= g < n && #[trigger] gs[g].contains(x),
    decreases n,
{
    if n > 0 {
        lemma_chained_has(gs, n - 1, x);
        let a = chained(gs, n - 1);
        let b = gs[n - 1];
        if a.contains(x) {
            let k = choose|k: int| 0 <= k < a.len() && a[k] == x;
            assert((a + b)[k] == x);
        }
        if b.contains(x) {
            let k = choose|k: int| 0 <= k < b.len() && b[k] == x;
            assert((a + b)[a.len() + k] == x);
        }
        if (a + b).contains(x) {
            let k = choose|k: int| 0 <= k < (a + b).len() && (a + b)[k] == x;
            if k < a.len() {
                assert(a[k] == x);
            } else {
                assert(b[k - a.len()] == x);
            }
        }
    }
}

proof fn lemma_chained_once(gs: Seq<Seq<int>>, n: int, m: int)
    requires
        divides(gs, m),
        0 <= n <= gs.len(),
    ensures
        chained(gs, n).no_duplicates(),
    decreases n,
{
    if n > 0 {
        lemma_chained_once(gs, n - 1, m);
        let a = chained(gs, n - 1);
        let b = gs[n - 1];
        assert forall|i: int, j: int| 0 <= i < j < (a + b).len() implies (a + b)[i] != (a + b)[j] by {
            if (a + b)[i] == (a + b)[j] && i < a.len() && j >= a.len() {
                let x = a[i];
                assert(a.contains(x));
                assert(b[j - a.len()] == x);
                assert(b.contains(x));
                lemma_chained_has(gs, n - 1, x);
                let g = choose|g: int| 0 <= g < n - 1 && #[trigger] gs[g].contains(x);
                assert(gs[g].contains(x) && gs[n - 1].contains(x));
            }
        }
    }
}

spec fn whole(n: int) -> Seq<int> {
    Seq::new(n as nat, |i: int| i)
}

proof fn lemma_chained_is_all(gs: Seq<Seq<int>>, n: int)
    requires
        divides(gs, n),
        0 <= n,
    ensures
        chained(gs, gs.len() as int).to_multiset() == whole(n).to_multiset(),
{
    broadcast use group_to_multiset_ensures;

    let a = chained(gs, gs.len() as int);
    let b = whole(n);
    lemma_chained_once(gs, gs.len() as int, n);
    a.lemma_multiset_has_no_duplicates();
    b.lemma_multiset_has_no_duplicates();
    assert forall|x: int| #[trigger] a.to_multiset().count(x) == b.to_multiset().count(x) by {
        lemma_chained_has(gs, gs.len() as int, x);
        if 0 <= x < n {
            assert(b[x] == x);
            assert(b.contains(x));
            assert(in_some(gs, x));
            assert(a.contains(x));
        } else {
            assert(!b.contains(x));
            assert(!a.contains(x));
        }
        assert(a.contains(x) <==> a.to_multiset().count(x) > 0);
        assert(b.contains(x) <==> b.to_multiset().count(x) > 0);
    }
    assert(a.to_multiset() =~= b.to_multiset());
}

proof fn lemma_chained_weighs(ws: Seq<Weight>, gs: Seq<Seq<int>>, n: int)
    requires
        0 <= n <= gs.len(),
    ensures
        types::weight_upto(group_weights(ws, gs), n) == types::weight_of(
            tree::picked(ws, chained(gs, n)),
        ),
    decreases n,
{
    if n > 0 {
        lemma_chained_weighs(ws, gs, n - 1);
        let a = tree::picked(ws, chained(gs, n - 1));
        let b = tree::picked(ws, gs[n - 1]);
        types::law_a_row_weighs_its_parts(a, b);
        assert(tree::picked(ws, chained(gs, n)) =~= a + b);
    }
}

/// Whatever is divided weighs what its parts weigh together.
pub proof fn law_dividing_keeps_the_total(ws: Seq<Weight>, gs: Seq<Seq<int>>)
    requires
        divides(gs, ws.len() as int),
    ensures
        counted(types::weight_of(group_weights(ws, gs))) == counted(types::weight_of(ws)),
{
    let n = ws.len() as int;
    let all = chained(gs, gs.len() as int);
    lemma_chained_weighs(ws, gs, gs.len() as int);
    lemma_summed(ws, all);
    lemma_chained_is_all(gs, n);
    lemma_step_commutes(ws);
    lemma_fold_left_permutation(all, whole(n), step(ws), types::no_weight());
    lemma_summed(ws, whole(n));
    assert(tree::picked(ws, whole(n)) =~= ws);
}

// ---------------------------------------------------------------------------
// A row and its instances
// ---------------------------------------------------------------------------

proof fn lemma_groups_divide<T>(labels: Seq<Option<T>>)
    requires
        forall|k: int| 0 <= k < labels.len() ==> #[trigger] labels[k] is Some,
    ensures
        divides(tree::groups_of(labels), labels.len() as int),
{
    let gs = tree::groups_of(labels);
    let n = labels.len() as int;
    assert forall|g: int| 0 <= g < gs.len() implies (#[trigger] gs[g]).no_duplicates() by {
        tree::lemma_group_in_order(labels, g);
    }
    assert forall|g: int, x: int| 0 <= g < gs.len() && (#[trigger] gs[g].contains(x)) implies 0 <= x
        < n by {
        tree::lemma_group_in_order(labels, g);
        let k = choose|k: int| 0 <= k < gs[g].len() && gs[g][k] == x;
        assert(0 <= gs[g][k] < n);
    }
    assert forall|x: int| 0 <= x < n implies #[trigger] in_some(gs, x) by {
        assert(labels[x] is Some);
        tree::law_groups_divide(labels, x);
    }
    assert forall|g: int, h: int, x: int| 0 <= g < h < gs.len() implies !(
    #[trigger] gs[g].contains(x) && #[trigger] gs[h].contains(x)) by {
        if gs[g].contains(x) && gs[h].contains(x) {
            tree::lemma_group_in_order(labels, g);
            let k = choose|k: int| 0 <= k < gs[g].len() && gs[g][k] == x;
            assert(0 <= gs[g][k] < n);
            tree::law_groups_divide(labels, x);
        }
    }
}

/// The weights of a row's instances.
pub open spec fn instance_weights(n: IdentNode) -> Seq<Weight> {
    Seq::new(n.instances@.len(), |g: int| n.instances@[g].metrics@)
}

/// A row weighs what its instances weigh together.
pub proof fn law_a_row_is_its_instances(
    n: IdentNode,
    key: Seq<char>,
    members: Seq<int>,
    places: Seq<Option<PlaceView>>,
    procs: Seq<Process>,
    weights: Seq<Weight>,
)
    requires
        tree::is_row(n, key, members, places, procs, weights),
    ensures
        counted(n.metrics@) == counted(types::weight_of(instance_weights(n))),
{
    let labels = tree::instance_labels(places, procs, members);
    let gs = tree::groups_of(labels);
    let ws = tree::picked(weights, members);
    lemma_groups_divide(labels);
    law_dividing_keeps_the_total(ws, gs);
    assert forall|g: int| 0 <= g < gs.len() implies tree::picked(
        weights,
        #[trigger] tree::picked(members, gs[g]),
    ) == tree::picked(ws, gs[g]) by {
        assert forall|k: int| 0 <= k < gs[g].len() implies 0 <= #[trigger] gs[g][k] < members.len() by {
            assert(gs[g].contains(gs[g][k]));
        }
        assert(tree::picked(weights, tree::picked(members, gs[g])) =~= tree::picked(ws, gs[g]));
    }
    assert(instance_weights(n) =~= group_weights(ws, gs)) by {
        assert forall|g: int| 0 <= g < gs.len() implies #[trigger] instance_weights(n)[g]
            == group_weights(ws, gs)[g] by {
            assert(tree::is_instance(
                n.instances@[g],
                labels[gs[g][0]]->0,
                tree::picked(members, gs[g]),
                procs,
                weights,
            ));
        }
    }
}

// ---------------------------------------------------------------------------
// The machine and its processes
// ---------------------------------------------------------------------------

/// Where the rows of one list stand among the first `n`.
pub open spec fn indices_at(rows: Seq<Row>, h: Home, n: int) -> Seq<int>
    decreases n,
{
    if n <= 0 {
        Seq::empty()
    } else if assemble::home_of(rows[n - 1].key.folder, rows[n - 1].key.uid) == h {
        indices_at(rows, h, n - 1).push(n - 1)
    } else {
        indices_at(rows, h, n - 1)
    }
}

proof fn lemma_indices(rows: Seq<Row>, h: Home, n: int)
    requires
        0 <= n <= rows.len(),
    ensures
        tree::picked(rows, indices_at(rows, h, n)) == assemble::rows_at(rows, h, n),
        indices_at(rows, h, n).no_duplicates(),
        forall|x: int|
            #[trigger] indices_at(rows, h, n).contains(x) <==> (0 <= x < n && assemble::home_of(
                rows[x].key.folder,
                rows[x].key.uid,
            ) == h),
    decreases n,
{
    let v = indices_at(rows, h, n);
    if n > 0 {
        let before = indices_at(rows, h, n - 1);
        lemma_indices(rows, h, n - 1);
        assert forall|x: int| #[trigger] v.contains(x) <==> (0 <= x < n && assemble::home_of(
            rows[x].key.folder,
            rows[x].key.uid,
        ) == h) by {
            if v.contains(x) {
                let k = choose|k: int| 0 <= k < v.len() && v[k] == x;
                if k < before.len() {
                    assert(before[k] == x);
                    assert(before.contains(x));
                }
            }
            if before.contains(x) {
                let k = choose|k: int| 0 <= k < before.len() && before[k] == x;
                assert(v[k] == x);
            }
            if x == n - 1 && assemble::home_of(rows[x].key.folder, rows[x].key.uid) == h {
                assert(v.last() == x);
            }
        }
        assert forall|i: int, j: int| 0 <= i < j < v.len() implies v[i] != v[j] by {
            assert(before.contains(before[i]));
        }
    }
    assert(tree::picked(rows, v) =~= assemble::rows_at(rows, h, n));
}

/// The lists of the tree, in the order they are added up.
pub open spec fn homes(users: Seq<u32>, k: int) -> Seq<Home>
    decreases k,
{
    if k <= 0 {
        seq![Home::Containers, Home::System]
    } else {
        homes(users, k - 1) + seq![
            Home::Of(users[k - 1], Folder::Applications),
            Home::Of(users[k - 1], Folder::UserServices),
            Home::Of(users[k - 1], Folder::Containers),
        ]
    }
}

proof fn lemma_homes(users: Seq<u32>, k: int)
    requires
        0 <= k <= users.len(),
        users.no_duplicates(),
    ensures
        homes(users, k).no_duplicates(),
        homes(users, k).len() == 2 + 3 * k,
        homes(users, k)[0] == Home::Containers,
        homes(users, k)[1] == Home::System,
        forall|j: int|
            0 <= j < k ==> homes(users, k)[2 + 3 * j] == Home::Of(
                #[trigger] users[j],
                Folder::Applications,
            ) && homes(users, k)[3 + 3 * j] == Home::Of(users[j], Folder::UserServices) && homes(
                users,
                k,
            )[4 + 3 * j] == Home::Of(users[j], Folder::Containers),
        forall|i: int|
            0 <= i < homes(users, k).len() ==> ((#[trigger] homes(users, k)[i]) matches Home::Of(
                u,
                _,
            ) ==> users.take(k).contains(u)),
    decreases k,
{
    if k > 0 {
        lemma_homes(users, k - 1);
        let a = homes(users, k - 1);
        let b = homes(users, k);
        let u = users[k - 1];
        assert(!users.take(k - 1).contains(u));
        assert forall|i: int| 0 <= i < b.len() implies ((#[trigger] b[i]) matches Home::Of(w, _)
            ==> users.take(k).contains(w)) by {
            if i < a.len() {
                assert(b[i] == a[i]);
                if let Home::Of(w, _) = a[i] {
                    assert(users.take(k - 1).contains(w));
                    let j = choose|j: int|
                        0 <= j < k - 1 && #[trigger] users.take(k - 1)[j] == w;
                    assert(users.take(k)[j] == w);
                }
            } else {
                assert(users.take(k)[k - 1] == u);
            }
        }
        assert forall|i: int, j: int| 0 <= i < j < b.len() implies b[i] != b[j] by {
            if i < a.len() {
                assert(b[i] == a[i]);
                if j < a.len() {
                    assert(b[j] == a[j]);
                } else if let Home::Of(w, _) = a[i] {
                    assert(users.take(k - 1).contains(w));
                }
            }
        }
        assert forall|j: int| 0 <= j < k implies b[2 + 3 * j] == Home::Of(
            #[trigger] users[j],
            Folder::Applications,
        ) && b[3 + 3 * j] == Home::Of(users[j], Folder::UserServices) && b[4 + 3 * j] == Home::Of(
            users[j],
            Folder::Containers,
        ) by {
            if j < k - 1 {
                assert(b[2 + 3 * j] == a[2 + 3 * j]);
                assert(b[3 + 3 * j] == a[3 + 3 * j]);
                assert(b[4 + 3 * j] == a[4 + 3 * j]);
            }
        }
    }
}

proof fn lemma_with_user_once(users: Seq<u32>, u: u32, our: u32, passwd: Seq<char>)
    requires
        users.no_duplicates(),
        !users.contains(u),
    ensures
        assemble::with_user(users, u, our, passwd).no_duplicates(),
    decreases users.len(),
{
    let r = assemble::with_user(users, u, our, passwd);
    if users.len() == 0 || assemble::listed_before(users.last(), u, our, passwd) {
        assert forall|i: int, j: int| 0 <= i < j < r.len() implies r[i] != r[j] by {
            assert(users.contains(users[i]));
        }
    } else {
        let head = users.drop_last();
        let t = assemble::with_user(head, u, our, passwd);
        assert(!head.contains(u)) by {
            if head.contains(u) {
                let k = choose|k: int| 0 <= k < head.len() && head[k] == u;
                assert(users[k] == u);
            }
        }
        lemma_with_user_once(head, u, our, passwd);
        assemble::lemma_with_user_has(head, u, our, passwd);
        assert forall|i: int, j: int| 0 <= i < j < r.len() implies r[i] != r[j] by {
            if j == t.len() {
                assert(t.contains(t[i]));
                assert(users.contains(users.last()));
                if t[i] != u {
                    let k = choose|k: int| 0 <= k < head.len() && head[k] == t[i];
                    assert(users[k] == t[i]);
                }
            }
        }
    }
}

proof fn lemma_users_once(rows: Seq<Row>, our: u32, passwd: Seq<char>, n: int)
    requires
        0 <= n <= rows.len(),
    ensures
        assemble::users_upto(rows, our, passwd, n).no_duplicates(),
    decreases n,
{
    if n > 0 {
        lemma_users_once(rows, our, passwd, n - 1);
        let before = assemble::users_upto(rows, our, passwd, n - 1);
        if let Home::Of(u, _) = assemble::home_of(rows[n - 1].key.folder, rows[n - 1].key.uid) {
            if !before.contains(u) {
                lemma_with_user_once(before, u, our, passwd);
            }
        }
    }
}

/// The rows of each list.
spec fn rows_by_home(rows: Seq<Row>, hs: Seq<Home>) -> Seq<Seq<int>> {
    Seq::new(hs.len(), |k: int| indices_at(rows, hs[k], rows.len() as int))
}

proof fn lemma_homes_divide(rows: Seq<Row>, our: u32, passwd: Seq<char>)
    ensures
        ({
            let users = assemble::users_upto(rows, our, passwd, rows.len() as int);
            divides(rows_by_home(rows, homes(users, users.len() as int)), rows.len() as int)
        }),
{
    let n = rows.len() as int;
    let users = assemble::users_upto(rows, our, passwd, n);
    let hs = homes(users, users.len() as int);
    let gs = rows_by_home(rows, hs);
    lemma_users_once(rows, our, passwd, n);
    lemma_homes(users, users.len() as int);
    assert forall|g: int| 0 <= g < gs.len() implies (#[trigger] gs[g]).no_duplicates() by {
        lemma_indices(rows, hs[g], n);
    }
    assert forall|g: int, x: int| 0 <= g < gs.len() && (#[trigger] gs[g].contains(x)) implies 0 <= x
        < n by {
        lemma_indices(rows, hs[g], n);
    }
    assert forall|x: int| 0 <= x < n implies #[trigger] in_some(gs, x) by {
        let h = assemble::home_of(rows[x].key.folder, rows[x].key.uid);
        lemma_indices(rows, h, n);
        let g: int = match h {
            Home::Containers => 0,
            Home::System => 1,
            Home::Of(u, f) => {
                assemble::law_every_owner_is_listed(rows, our, passwd, n, x);
                let j = choose|j: int| 0 <= j < users.len() && users[j] == u;
                assert(users[j] == u);
                match f {
                    Folder::Applications => 2 + 3 * j,
                    Folder::UserServices => 3 + 3 * j,
                    _ => 4 + 3 * j,
                }
            },
        };
        assert(hs[g] == h);
        assert(gs[g].contains(x));
    }
    assert forall|g: int, h: int, x: int| 0 <= g < h < gs.len() implies !(
    #[trigger] gs[g].contains(x) && #[trigger] gs[h].contains(x)) by {
        lemma_indices(rows, hs[g], n);
        lemma_indices(rows, hs[h], n);
    }
}

/// What each row weighs.
pub open spec fn weights_by_row(rows: Seq<Row>, weights: Seq<Weight>) -> Seq<Weight> {
    Seq::new(rows.len(), |g: int| types::weight_of(tree::picked(weights, rows[g].members)))
}

proof fn lemma_list_weighs(
    nodes: Seq<IdentNode>,
    rows: Seq<Row>,
    h: Home,
    places: Seq<Option<PlaceView>>,
    procs: Seq<Process>,
    weights: Seq<Weight>,
)
    requires
        assemble::lists(
            nodes,
            assemble::rows_at(rows, h, rows.len() as int),
            places,
            procs,
            weights,
        ),
    ensures
        types::row_weights(nodes) == tree::picked(
            weights_by_row(rows, weights),
            indices_at(rows, h, rows.len() as int),
        ),
{
    let n = rows.len() as int;
    let at = indices_at(rows, h, n);
    let mine = assemble::rows_at(rows, h, n);
    lemma_indices(rows, h, n);
    assert forall|k: int| 0 <= k < nodes.len() implies #[trigger] types::row_weights(nodes)[k]
        == tree::picked(weights_by_row(rows, weights), at)[k] by {
        assert(tree::picked(rows, at)[k] == mine[k]);
        assert(at.contains(at[k]));
        assert(tree::is_row(nodes[k], mine[k].key.key, mine[k].members, places, procs, weights));
    }
    assert(types::row_weights(nodes) =~= tree::picked(weights_by_row(rows, weights), at));
}

proof fn lemma_nothing_plus(v: Seq<Weight>)
    ensures
        types::no_weight().plus(types::weight_of(v)) == types::weight_of(v),
{
    types::law_rates_of_one_namespace_are_never_summed(v);
    reveal(types::opt_sum);
    reveal(types::opt_max);
    reveal(types::opt_chain);
}

proof fn lemma_three_more(parts: Seq<Weight>, before: Seq<Weight>)
    requires
        parts.len() == before.len() + 3,
        forall|i: int| 0 <= i < before.len() ==> parts[i] == before[i],
    ensures
        ({
            let m = before.len() as int;
            types::weight_of(parts) == types::weight_of(before).plus(
                parts[m].plus(parts[m + 1]).plus(parts[m + 2]),
            )
        }),
{
    let m = before.len() as int;
    let (a, b, c) = (parts[m], parts[m + 1], parts[m + 2]);
    let w = types::weight_of(before);
    types::lemma_weight_prefix(parts, before, m);
    assert(types::weight_upto(parts, m) == w);
    assert(types::weight_upto(parts, m + 1) == w.plus(a));
    assert(types::weight_upto(parts, m + 2) == w.plus(a).plus(b));
    assert(types::weight_upto(parts, m + 3) == w.plus(a).plus(b).plus(c));
    types::law_weights_associate(w, a, b);
    types::law_weights_associate(w, a.plus(b), c);
}

proof fn lemma_two(parts: Seq<Weight>)
    requires
        parts.len() == 2,
        types::no_weight().plus(parts[0]) == parts[0],
    ensures
        types::weight_of(parts) == parts[0].plus(parts[1]),
{
    reveal_with_fuel(types::weight_upto, 3);
}

/// A user adds three lists to those before.
proof fn lemma_user_parts(
    u: UserNode,
    places: Seq<Option<PlaceView>>,
    procs: Seq<Process>,
    weights: Seq<Weight>,
    our: u32,
    passwd: Seq<char>,
    k: int,
)
    requires
        ({
            let rows = assemble::rows_of(places);
            let users = assemble::users_upto(rows, our, passwd, rows.len() as int);
            &&& 0 < k <= users.len()
            &&& assemble::is_user(u, users[k - 1], rows, places, procs, weights, passwd)
        }),
    ensures
        ({
            let rows = assemble::rows_of(places);
            let users = assemble::users_upto(rows, our, passwd, rows.len() as int);
            let ws = weights_by_row(rows, weights);
            let before = group_weights(ws, rows_by_home(rows, homes(users, k - 1)));
            let parts = group_weights(ws, rows_by_home(rows, homes(users, k)));
            let m = before.len() as int;
            &&& parts.len() == m + 3
            &&& forall|i: int| 0 <= i < m ==> parts[i] == before[i]
            &&& parts[m] == types::weight_of(types::row_weights(u.applications@))
            &&& parts[m + 1] == types::weight_of(types::row_weights(u.user_services@))
            &&& parts[m + 2] == types::weight_of(types::row_weights(u.containers@))
        }),
{
    let rows = assemble::rows_of(places);
    let n = rows.len() as int;
    let users = assemble::users_upto(rows, our, passwd, n);
    let ws = weights_by_row(rows, weights);
    let hs = homes(users, k);
    let parts = group_weights(ws, rows_by_home(rows, hs));
    let id = users[k - 1];
    let apps = Home::Of(id, Folder::Applications);
    let services = Home::Of(id, Folder::UserServices);
    let containers = Home::Of(id, Folder::Containers);
    lemma_users_once(rows, our, passwd, n);
    lemma_homes(users, k);
    lemma_homes(users, k - 1);
    lemma_list_weighs(u.applications@, rows, apps, places, procs, weights);
    lemma_list_weighs(u.user_services@, rows, services, places, procs, weights);
    lemma_list_weighs(u.containers@, rows, containers, places, procs, weights);
    let before = group_weights(ws, rows_by_home(rows, homes(users, k - 1)));
    let m = before.len() as int;
    assert(users[k - 1] == id);
    assert forall|i: int| 0 <= i < m implies parts[i] == before[i] by {
        assert(hs[i] == homes(users, k - 1)[i]);
    }
    assert(hs[m] == apps && hs[m + 1] == services && hs[m + 2] == containers);
}

/// The tree adds up what its lists weigh, list after list.
proof fn lemma_tree_adds(
    t: HostTree,
    places: Seq<Option<PlaceView>>,
    procs: Seq<Process>,
    weights: Seq<Weight>,
    our: u32,
    passwd: Seq<char>,
    k: int,
)
    requires
        assemble::is_tree(t, places, procs, weights, our, passwd),
        0 <= k <= t.users@.len(),
    ensures
        ({
            let rows = assemble::rows_of(places);
            let users = assemble::users_upto(rows, our, passwd, rows.len() as int);
            let ws = weights_by_row(rows, weights);
            types::plus_users(
                types::weight_of(types::row_weights(t.containers@)).plus(
                    types::weight_of(types::row_weights(t.system@)),
                ),
                t.users@,
                k,
            ) == types::weight_of(group_weights(ws, rows_by_home(rows, homes(users, k))))
        }),
    decreases k,
{
    let rows = assemble::rows_of(places);
    let n = rows.len() as int;
    let users = assemble::users_upto(rows, our, passwd, n);
    let ws = weights_by_row(rows, weights);
    let hs = homes(users, k);
    let parts = group_weights(ws, rows_by_home(rows, hs));
    lemma_users_once(rows, our, passwd, n);
    lemma_homes(users, k);
    if k == 0 {
        lemma_list_weighs(t.containers@, rows, Home::Containers, places, procs, weights);
        lemma_list_weighs(t.system@, rows, Home::System, places, procs, weights);
        lemma_nothing_plus(types::row_weights(t.containers@));
        assert(parts.len() == 2);
        assert(parts[0] == types::weight_of(types::row_weights(t.containers@)));
        assert(parts[1] == types::weight_of(types::row_weights(t.system@)));
        lemma_two(parts);
    } else {
        lemma_tree_adds(t, places, procs, weights, our, passwd, k - 1);
        let before = group_weights(ws, rows_by_home(rows, homes(users, k - 1)));
        lemma_user_parts(t.users@[k - 1], places, procs, weights, our, passwd, k);
        lemma_three_more(parts, before);
    }
}

/// The members of each row.
spec fn members_by_row(rows: Seq<Row>) -> Seq<Seq<int>> {
    Seq::new(rows.len(), |g: int| rows[g].members)
}

/// The machine weighs what its processes weigh together: the grouping loses
/// nothing and counts nothing twice.
pub proof fn law_the_machine_is_its_processes(
    t: HostTree,
    places: Seq<Option<PlaceView>>,
    procs: Seq<Process>,
    weights: Seq<Weight>,
    our: u32,
    passwd: Seq<char>,
)
    requires
        assemble::is_tree(t, places, procs, weights, our, passwd),
        places.len() == weights.len(),
        forall|k: int| 0 <= k < places.len() ==> #[trigger] places[k] is Some,
    ensures
        counted(types::tree_weight(t)) == counted(types::weight_of(weights)),
{
    let rows = assemble::rows_of(places);
    let n = rows.len() as int;
    let users = assemble::users_upto(rows, our, passwd, n);
    let ws = weights_by_row(rows, weights);
    let labels = assemble::row_labels(places);
    lemma_tree_adds(t, places, procs, weights, our, passwd, t.users@.len() as int);
    lemma_homes_divide(rows, our, passwd);
    law_dividing_keeps_the_total(ws, rows_by_home(rows, homes(users, users.len() as int)));
    assert forall|k: int| 0 <= k < labels.len() implies #[trigger] labels[k] is Some by {
        assert(places[k] is Some);
    }
    lemma_groups_divide(labels);
    assert(members_by_row(rows) =~= tree::groups_of(labels));
    law_dividing_keeps_the_total(weights, tree::groups_of(labels));
    assert(group_weights(weights, tree::groups_of(labels)) =~= ws);
}

// ---------------------------------------------------------------------------
// How many processes
// ---------------------------------------------------------------------------

spec fn adding(rows: Seq<Row>) -> spec_fn(nat, int) -> nat {
    |n: nat, i: int| n + rows[i].members.len()
}

/// How many processes the rows at these positions hold.
spec fn held(rows: Seq<Row>, at: Seq<int>) -> nat {
    at.fold_left(0nat, adding(rows))
}

proof fn lemma_held_joins(rows: Seq<Row>, a: Seq<int>, b: Seq<int>)
    ensures
        held(rows, a + b) == held(rows, a) + held(rows, b),
    decreases b.len(),
{
    if b.len() == 0 {
        assert(a + b =~= a);
    } else {
        lemma_held_joins(rows, a, b.drop_last());
        assert((a + b).drop_last() =~= a + b.drop_last());
    }
}

proof fn lemma_capped(a: nat, b: nat)
    ensures
        types::capped32(tree::count32(a), tree::count32(b)) == tree::count32(a + b),
{
}

proof fn lemma_list_counts(
    nodes: Seq<IdentNode>,
    rows: Seq<Row>,
    h: Home,
    places: Seq<Option<PlaceView>>,
    procs: Seq<Process>,
    weights: Seq<Weight>,
    k: int,
)
    requires
        assemble::lists(
            nodes,
            assemble::rows_at(rows, h, rows.len() as int),
            places,
            procs,
            weights,
        ),
        0 <= k <= nodes.len(),
    ensures
        indices_at(rows, h, rows.len() as int).len() == nodes.len(),
        types::count_upto(nodes, k) == tree::count32(
            held(rows, indices_at(rows, h, rows.len() as int).take(k)),
        ),
    decreases k,
{
    let n = rows.len() as int;
    let at = indices_at(rows, h, n);
    let mine = assemble::rows_at(rows, h, n);
    lemma_indices(rows, h, n);
    assert(tree::picked(rows, at).len() == at.len());
    if k == 0 {
        assert(at.take(0) =~= Seq::empty());
    } else {
        lemma_list_counts(nodes, rows, h, places, procs, weights, k - 1);
        assert(tree::picked(rows, at)[k - 1] == mine[k - 1]);
        assert(tree::is_row(
            nodes[k - 1],
            mine[k - 1].key.key,
            mine[k - 1].members,
            places,
            procs,
            weights,
        ));
        assert(at.take(k).drop_last() =~= at.take(k - 1));
        lemma_capped(held(rows, at.take(k - 1)), mine[k - 1].members.len());
    }
}

/// What one list counts.
proof fn lemma_list_count(
    nodes: Seq<IdentNode>,
    rows: Seq<Row>,
    h: Home,
    places: Seq<Option<PlaceView>>,
    procs: Seq<Process>,
    weights: Seq<Weight>,
)
    requires
        assemble::lists(
            nodes,
            assemble::rows_at(rows, h, rows.len() as int),
            places,
            procs,
            weights,
        ),
    ensures
        types::count_of(nodes) == tree::count32(
            held(rows, indices_at(rows, h, rows.len() as int)),
        ),
{
    let at = indices_at(rows, h, rows.len() as int);
    lemma_list_counts(nodes, rows, h, places, procs, weights, nodes.len() as int);
    assert(at.take(at.len() as int) =~= at);
}

/// How many processes the lists of the first `k` users hold.
spec fn held_by_users(rows: Seq<Row>, users: Seq<u32>, k: int) -> nat
    decreases k,
{
    if k <= 0 {
        0
    } else {
        let n = rows.len() as int;
        let u = users[k - 1];
        held_by_users(rows, users, k - 1) + held(
            rows,
            indices_at(rows, Home::Of(u, Folder::Applications), n),
        ) + held(rows, indices_at(rows, Home::Of(u, Folder::UserServices), n)) + held(
            rows,
            indices_at(rows, Home::Of(u, Folder::Containers), n),
        )
    }
}

proof fn lemma_users_count(
    t: HostTree,
    places: Seq<Option<PlaceView>>,
    procs: Seq<Process>,
    weights: Seq<Weight>,
    our: u32,
    passwd: Seq<char>,
    k: int,
)
    requires
        assemble::is_tree(t, places, procs, weights, our, passwd),
        0 <= k <= t.users@.len(),
    ensures
        ({
            let rows = assemble::rows_of(places);
            let users = assemble::users_upto(rows, our, passwd, rows.len() as int);
            types::users_count(t.users@, k) == tree::count32(held_by_users(rows, users, k))
        }),
    decreases k,
{
    if k > 0 {
        lemma_users_count(t, places, procs, weights, our, passwd, k - 1);
        let rows = assemble::rows_of(places);
        let n = rows.len() as int;
        let users = assemble::users_upto(rows, our, passwd, n);
        let u = t.users@[k - 1];
        let id = users[k - 1];
        assert(assemble::is_user(u, id, rows, places, procs, weights, passwd));
        let (a, b, c) = (
            Home::Of(id, Folder::Applications),
            Home::Of(id, Folder::UserServices),
            Home::Of(id, Folder::Containers),
        );
        lemma_list_count(u.applications@, rows, a, places, procs, weights);
        lemma_list_count(u.user_services@, rows, b, places, procs, weights);
        lemma_list_count(u.containers@, rows, c, places, procs, weights);
        let (x, y, z) = (
            held(rows, indices_at(rows, a, n)),
            held(rows, indices_at(rows, b, n)),
            held(rows, indices_at(rows, c, n)),
        );
        lemma_capped(x, y);
        lemma_capped(x + y, z);
        lemma_capped(held_by_users(rows, users, k - 1), x + y + z);
    }
}

proof fn lemma_homes_hold(rows: Seq<Row>, users: Seq<u32>, k: int)
    requires
        0 <= k <= users.len(),
        users.no_duplicates(),
    ensures
        ({
            let n = rows.len() as int;
            held(rows, chained(rows_by_home(rows, homes(users, k)), 2 + 3 * k)) == held(
                rows,
                indices_at(rows, Home::Containers, n),
            ) + held(rows, indices_at(rows, Home::System, n)) + held_by_users(rows, users, k)
        }),
    decreases k,
{
    let n = rows.len() as int;
    let hs = homes(users, k);
    let gs = rows_by_home(rows, hs);
    lemma_homes(users, k);
    if k == 0 {
        reveal_with_fuel(chained, 3);
        lemma_held_joins(rows, Seq::empty(), gs[0]);
        lemma_held_joins(rows, Seq::empty() + gs[0], gs[1]);
        assert(held(rows, Seq::empty()) == 0);
    } else {
        lemma_homes_hold(rows, users, k - 1);
        lemma_homes(users, k - 1);
        let fewer = rows_by_home(rows, homes(users, k - 1));
        let m = 2 + 3 * (k - 1);
        assert forall|i: int| 0 <= i < m implies gs[i] == fewer[i] by {
            assert(hs[i] == homes(users, k - 1)[i]);
        }
        lemma_chained_prefix(gs, fewer, m);
        assert(users[k - 1] == homes(users, k)[m]->0);
        let base = chained(gs, m);
        lemma_held_joins(rows, base, gs[m]);
        lemma_held_joins(rows, base + gs[m], gs[m + 1]);
        lemma_held_joins(rows, base + gs[m] + gs[m + 1], gs[m + 2]);
        assert(chained(gs, m + 1) == base + gs[m]);
        assert(chained(gs, m + 2) == base + gs[m] + gs[m + 1]);
        assert(chained(gs, m + 3) == base + gs[m] + gs[m + 1] + gs[m + 2]);
    }
}

proof fn lemma_chained_prefix(a: Seq<Seq<int>>, b: Seq<Seq<int>>, n: int)
    requires
        0 <= n <= a.len(),
        n <= b.len(),
        forall|i: int| 0 <= i < n ==> a[i] == b[i],
    ensures
        chained(a, n) == chained(b, n),
    decreases n,
{
    if n > 0 {
        lemma_chained_prefix(a, b, n - 1);
    }
}

proof fn lemma_rows_hold(rows: Seq<Row>, n: int)
    requires
        0 <= n <= rows.len(),
    ensures
        held(rows, whole(n)) == chained(members_by_row(rows), n).len(),
    decreases n,
{
    if n > 0 {
        lemma_rows_hold(rows, n - 1);
        assert(whole(n).drop_last() =~= whole(n - 1));
        assert(members_by_row(rows)[n - 1] == rows[n - 1].members);
    } else {
        assert(whole(n) =~= Seq::empty());
    }
}

/// The machine counts as many processes as there are, up to the largest number
/// that can be shown.
pub proof fn law_the_machine_counts_its_processes(
    t: HostTree,
    places: Seq<Option<PlaceView>>,
    procs: Seq<Process>,
    weights: Seq<Weight>,
    our: u32,
    passwd: Seq<char>,
)
    requires
        assemble::is_tree(t, places, procs, weights, our, passwd),
        forall|k: int| 0 <= k < places.len() ==> #[trigger] places[k] is Some,
    ensures
        types::tree_count(t) == tree::count32(places.len()),
{
    let rows = assemble::rows_of(places);
    let n = rows.len() as int;
    let users = assemble::users_upto(rows, our, passwd, n);
    let m = users.len() as int;
    let gs = rows_by_home(rows, homes(users, m));
    lemma_users_once(rows, our, passwd, n);
    lemma_homes(users, m);
    lemma_users_count(t, places, procs, weights, our, passwd, m);
    lemma_list_count(t.containers@, rows, Home::Containers, places, procs, weights);
    lemma_list_count(t.system@, rows, Home::System, places, procs, weights);
    lemma_homes_hold(rows, users, m);
    let c = held(rows, indices_at(rows, Home::Containers, n));
    let y = held(rows, indices_at(rows, Home::System, n));
    let w = held_by_users(rows, users, m);
    lemma_capped(w, c);
    lemma_capped(w + c, y);
    lemma_homes_divide(rows, our, passwd);
    lemma_chained_is_all(gs, n);
    let f = adding(rows);
    assert(commutative_foldl(f)) by {
        assert forall|a: int, b: int, v: nat| #[trigger] f(f(v, a), b) == f(f(v, b), a) by {}
    }
    lemma_fold_left_permutation(chained(gs, gs.len() as int), whole(n), f, 0nat);
    lemma_rows_hold(rows, n);
    let labels = assemble::row_labels(places);
    assert forall|k: int| 0 <= k < labels.len() implies #[trigger] labels[k] is Some by {
        assert(places[k] is Some);
    }
    lemma_groups_divide(labels);
    assert(members_by_row(rows) =~= tree::groups_of(labels));
    let all = chained(members_by_row(rows), n);
    lemma_chained_is_all(members_by_row(rows), labels.len() as int);
    assert(all.len() == labels.len()) by {
        broadcast use group_to_multiset_ensures;

        assert(all.to_multiset().len() == all.len());
        assert(whole(labels.len() as int).to_multiset().len() == labels.len());
    }
}

} // verus!
