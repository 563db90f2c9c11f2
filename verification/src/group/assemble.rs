//! The tree of all rows.
use vstd::prelude::*;
use vstd::utf8::*;

use crate::containers::ContainerIndex;
use crate::group::place::{Place, PlaceView};
use crate::group::tree::{RowKey, RowKeyView};
use crate::group::{laws, tree, walk, Ctx, World};
use crate::proc::Passwd;
use crate::rules::Rules;
use crate::types::{
    Folder, HostHeader, HostTree, IdentNode, Metrics, Process, UserNode, Weight,
};
use crate::{cpu, group, proc, text};

verus! {

// ---------------------------------------------------------------------------
// Where a row stands
// ---------------------------------------------------------------------------

/// What makes a process's row.
pub open spec fn row_labels(places: Seq<Option<PlaceView>>) -> Seq<Option<RowKeyView>> {
    Seq::new(
        places.len(),
        |k: int|
            match places[k] {
                Some(p) => Some(RowKeyView { folder: p.folder, uid: p.uid, key: p.key }),
                None => None,
            },
    )
}

/// One row of the tree to be: what it is, and its processes.
pub struct Row {
    pub key: RowKeyView,
    pub members: Seq<int>,
}

/// The rows, in the order their first processes stand.
pub open spec fn rows_of(places: Seq<Option<PlaceView>>) -> Seq<Row> {
    let labels = row_labels(places);
    Seq::new(
        tree::groups_of(labels).len(),
        |g: int|
            Row { key: labels[tree::groups_of(labels)[g][0]]->0, members: tree::groups_of(labels)[g] },
    )
}

/// The list of the tree that a row stands in.
#[derive(Clone, Copy, Debug, PartialEq, Eq, Structural)]
pub enum Home {
    System,
    Containers,
    Of(u32, Folder),
}

/// The system's rows and the containers of no user stand by themselves; any
/// other row is a user's, of the superuser where none is named.
pub open spec fn home_of(folder: Folder, uid: Option<u32>) -> Home {
    if folder == Folder::System {
        Home::System
    } else if folder == Folder::Containers && uid is None {
        Home::Containers
    } else {
        Home::Of(
            match uid {
                Some(u) => u,
                None => 0,
            },
            folder,
        )
    }
}

fn home(folder: Folder, uid: Option<u32>) -> (r: Home)
    ensures
        r == home_of(folder, uid),
{
    if folder == Folder::System {
        Home::System
    } else if folder == Folder::Containers && uid.is_none() {
        Home::Containers
    } else {
        let owner: u32 = match uid {
            Some(u) => u,
            None => 0,
        };
        Home::Of(owner, folder)
    }
}

/// The rows of one list among the first `n`, in order.
pub open spec fn rows_at(rows: Seq<Row>, h: Home, n: int) -> Seq<Row>
    decreases n,
{
    if n <= 0 {
        Seq::empty()
    } else if home_of(rows[n - 1].key.folder, rows[n - 1].key.uid) == h {
        rows_at(rows, h, n - 1).push(rows[n - 1])
    } else {
        rows_at(rows, h, n - 1)
    }
}

/// A list of the tree that holds these rows.
pub open spec fn lists(
    nodes: Seq<IdentNode>,
    rows: Seq<Row>,
    places: Seq<Option<PlaceView>>,
    procs: Seq<Process>,
    weights: Seq<Weight>,
) -> bool {
    &&& nodes.len() == rows.len()
    &&& forall|k: int|
        0 <= k < nodes.len() ==> tree::is_row(
            #[trigger] nodes[k],
            rows[k].key.key,
            rows[k].members,
            places,
            procs,
            weights,
        )
}

/// A user is listed before another or is that other: the one who looks comes
/// first, then they come by name, then by number.
pub open spec fn listed_before(a: u32, b: u32, our: u32, passwd: Seq<char>) -> bool {
    let x = encode_utf8(proc::name_in(passwd, a));
    let y = encode_utf8(proc::name_in(passwd, b));
    if (a == our) != (b == our) {
        a == our
    } else if x != y {
        text::bytes_le(x, y)
    } else {
        a <= b
    }
}

/// Users in order with one more.
pub open spec fn with_user(users: Seq<u32>, u: u32, our: u32, passwd: Seq<char>) -> Seq<u32>
    decreases users.len(),
{
    if users.len() == 0 || listed_before(users.last(), u, our, passwd) {
        users.push(u)
    } else {
        with_user(users.drop_last(), u, our, passwd).push(users.last())
    }
}

/// The users with a row among the first `n`, each once and in order.
pub open spec fn users_upto(rows: Seq<Row>, our: u32, passwd: Seq<char>, n: int) -> Seq<u32>
    decreases n,
{
    if n <= 0 {
        Seq::empty()
    } else {
        let before = users_upto(rows, our, passwd, n - 1);
        match home_of(rows[n - 1].key.folder, rows[n - 1].key.uid) {
            Home::Of(u, _) => if before.contains(u) {
                before
            } else {
                with_user(before, u, our, passwd)
            },
            _ => before,
        }
    }
}

/// A user's part of the tree.
pub open spec fn is_user(
    n: UserNode,
    uid: u32,
    rows: Seq<Row>,
    places: Seq<Option<PlaceView>>,
    procs: Seq<Process>,
    weights: Seq<Weight>,
    passwd: Seq<char>,
) -> bool {
    let end = rows.len() as int;
    &&& n.uid == uid
    &&& n.name@ == proc::name_in(passwd, uid)
    &&& lists(
        n.applications@,
        rows_at(rows, Home::Of(uid, Folder::Applications), end),
        places,
        procs,
        weights,
    )
    &&& lists(
        n.user_services@,
        rows_at(rows, Home::Of(uid, Folder::UserServices), end),
        places,
        procs,
        weights,
    )
    &&& lists(
        n.containers@,
        rows_at(rows, Home::Of(uid, Folder::Containers), end),
        places,
        procs,
        weights,
    )
}

/// The rows of a tree: one for each folder, user and key that a process is
/// placed under.
pub open spec fn is_tree(
    t: HostTree,
    places: Seq<Option<PlaceView>>,
    procs: Seq<Process>,
    weights: Seq<Weight>,
    our: u32,
    passwd: Seq<char>,
) -> bool {
    let rows = rows_of(places);
    let end = rows.len() as int;
    let users = users_upto(rows, our, passwd, end);
    &&& lists(t.system@, rows_at(rows, Home::System, end), places, procs, weights)
    &&& lists(t.containers@, rows_at(rows, Home::Containers, end), places, procs, weights)
    &&& t.users@.len() == users.len()
    &&& forall|k: int|
        0 <= k < users.len() ==> is_user(
            #[trigger] t.users@[k],
            users[k],
            rows,
            places,
            procs,
            weights,
            passwd,
        )
}

// ---------------------------------------------------------------------------
// Building it
// ---------------------------------------------------------------------------

fn row_keys(places: &Vec<Option<Place>>) -> (r: Vec<Option<RowKey>>)
    ensures
        tree::labels_of(r@) == row_labels(walk::found_in(places@)),
{
    let ghost ls = row_labels(walk::found_in(places@));
    let mut out: Vec<Option<RowKey>> = Vec::new();
    let mut k: usize = 0;
    while k < places.len()
        invariant
            k <= places@.len(),
            ls == row_labels(walk::found_in(places@)),
            out@.len() == k,
            forall|j: int| 0 <= j < k ==> #[trigger] tree::labels_of(out@)[j] == ls[j],
        decreases places.len() - k,
    {
        let ghost before = out@;
        let label: Option<RowKey> = match &places[k] {
            Some(p) => Some(RowKey { folder: p.folder, uid: p.uid, key: p.key.clone() }),
            None => None,
        };
        out.push(label);
        proof {
            assert(walk::found_in(places@)[k as int] == group::place::opt_place(
                places@[k as int],
            ));
            assert forall|j: int| 0 <= j < k + 1 implies #[trigger] tree::labels_of(out@)[j] == ls[j] by {
                if j < k {
                    assert(tree::labels_of(before)[j] == ls[j]);
                }
            }
        }
        k += 1;
    }
    assert(tree::labels_of(out@) =~= ls);
    out
}

/// The processes of a row as they are found, the first one naming it.
spec fn found_row(v: Seq<usize>, row: Row, places: Seq<Option<PlaceView>>) -> bool {
    &&& v.len() > 0
    &&& v[0] < places.len()
    &&& group::ints(v) == row.members
    &&& tree::in_order(row.members, places.len() as int)
    &&& row_labels(places)[v[0] as int] == Some(row.key)
}

spec fn found_rows(gs: Seq<Vec<usize>>, places: Seq<Option<PlaceView>>) -> bool {
    let rows = rows_of(places);
    &&& gs.len() == rows.len()
    &&& forall|g: int| 0 <= g < gs.len() ==> found_row((#[trigger] gs[g])@, rows[g], places)
}

fn find_rows(places: &Vec<Option<Place>>) -> (r: Vec<Vec<usize>>)
    ensures
        found_rows(r@, walk::found_in(places@)),
{
    let keys = row_keys(places);
    let gs = tree::groups(&keys);
    proof {
        let ps = walk::found_in(places@);
        let ls = row_labels(ps);
        assert(ls.len() == keys@.len());
        assert forall|g: int| 0 <= g < gs@.len() implies found_row(
            (#[trigger] gs@[g])@,
            rows_of(ps)[g],
            ps,
        ) by {
            tree::lemma_group_in_order(ls, g);
            tree::lemma_first_bound(ls, ls.len() as int, g);
            assert(group::ints(gs@[g]@) == tree::groups_of(ls)[g]);
            assert(group::ints(gs@[g]@)[0] == gs@[g]@[0]);
        }
    }
    gs
}

fn idents_at(
    h: Home,
    gs: &Vec<Vec<usize>>,
    places: &Vec<Option<Place>>,
    procs: &Vec<Process>,
    metrics: &Vec<Metrics>,
) -> (r: Vec<IdentNode>)
    requires
        group::by_pid(procs@),
        places@.len() == procs@.len(),
        metrics@.len() == procs@.len(),
        found_rows(gs@, walk::found_in(places@)),
    ensures
        lists(
            r@,
            rows_at(
                rows_of(walk::found_in(places@)),
                h,
                rows_of(walk::found_in(places@)).len() as int,
            ),
            walk::found_in(places@),
            procs@,
            tree::weights_of(metrics@),
        ),
{
    let ghost ps = walk::found_in(places@);
    let ghost rows = rows_of(ps);
    let mut out: Vec<IdentNode> = Vec::new();
    let mut g: usize = 0;
    while g < gs.len()
        invariant
            g <= gs@.len(),
            ps == walk::found_in(places@),
            rows == rows_of(ps),
            group::by_pid(procs@),
            places@.len() == procs@.len(),
            metrics@.len() == procs@.len(),
            found_rows(gs@, ps),
            lists(out@, rows_at(rows, h, g as int), ps, procs@, tree::weights_of(metrics@)),
        decreases gs.len() - g,
    {
        let ghost before = rows_at(rows, h, g as int);
        let ghost built = out@;
        assert(found_row(gs@[g as int]@, rows[g as int], ps));
        let first: usize = gs[g][0];
        assert(ps[first as int] == group::place::opt_place(places@[first as int]));
        if let Some(p) = &places[first] {
            if home(p.folder, p.uid) == h {
                let n = tree::ident_node(p.key.as_str(), &gs[g], places, procs, metrics);
                out.push(n);
                proof {
                    assert(rows_at(rows, h, g + 1) == before.push(rows[g as int]));
                    assert forall|k: int| 0 <= k < out@.len() implies tree::is_row(
                        #[trigger] out@[k],
                        before.push(rows[g as int])[k].key.key,
                        before.push(rows[g as int])[k].members,
                        ps,
                        procs@,
                        tree::weights_of(metrics@),
                    ) by {
                        if k < before.len() {
                            assert(out@[k] == built[k]);
                        }
                    }
                }
            }
        }
        g += 1;
    }
    out
}

fn before_user(a: u32, b: u32, our: u32, passwd: &Passwd) -> (r: bool)
    ensures
        r == listed_before(a, b, our, passwd@),
{
    if (a == our) != (b == our) {
        return a == our;
    }
    let x = passwd.name(a);
    let y = passwd.name(b);
    if !text::same_str(x.as_str(), y.as_str()) {
        proof {
            if encode_utf8(x@) == encode_utf8(y@) {
                encode_utf8_decode_utf8(x@);
                encode_utf8_decode_utf8(y@);
            }
        }
        return text::bytes_not_after(x.as_str().as_bytes(), y.as_str().as_bytes());
    }
    a <= b
}

proof fn lemma_with_user(users: Seq<u32>, u: u32, our: u32, passwd: Seq<char>, k: int)
    requires
        0 <= k <= users.len(),
        k > 0 ==> listed_before(users[k - 1], u, our, passwd),
        forall|j: int| k <= j < users.len() ==> !listed_before(#[trigger] users[j], u, our, passwd),
    ensures
        with_user(users, u, our, passwd) == users.insert(k, u),
    decreases users.len(),
{
    if k == users.len() {
        assert(users.push(u) =~= users.insert(k, u));
    } else {
        let head = users.drop_last();
        lemma_with_user(head, u, our, passwd, k);
        assert(head.insert(k, u).push(users.last()) =~= users.insert(k, u));
    }
}

fn put_user(users: &mut Vec<u32>, u: u32, our: u32, passwd: &Passwd)
    ensures
        final(users)@ == with_user(old(users)@, u, our, passwd@),
{
    let mut k: usize = users.len();
    while k > 0 && !before_user(users[k - 1], u, our, passwd)
        invariant
            k <= users@.len(),
            users@ == old(users)@,
            forall|j: int|
                k <= j < users@.len() ==> !listed_before(#[trigger] users@[j], u, our, passwd@),
        decreases k,
    {
        k -= 1;
    }
    proof {
        lemma_with_user(users@, u, our, passwd@, k as int);
    }
    users.insert(k, u);
}

fn has_user(users: &Vec<u32>, u: u32) -> (r: bool)
    ensures
        r == users@.contains(u),
{
    let mut k: usize = 0;
    while k < users.len()
        invariant
            k <= users@.len(),
            forall|j: int| 0 <= j < k ==> users@[j] != u,
        decreases users.len() - k,
    {
        if users[k] == u {
            assert(users@[k as int] == u);
            return true;
        }
        k += 1;
    }
    false
}

fn find_users(gs: &Vec<Vec<usize>>, places: &Vec<Option<Place>>, our: u32, passwd: &Passwd) -> (r:
    Vec<u32>)
    requires
        found_rows(gs@, walk::found_in(places@)),
    ensures
        r@ == users_upto(
            rows_of(walk::found_in(places@)),
            our,
            passwd@,
            rows_of(walk::found_in(places@)).len() as int,
        ),
{
    let ghost ps = walk::found_in(places@);
    let ghost rows = rows_of(ps);
    let mut out: Vec<u32> = Vec::new();
    let mut g: usize = 0;
    while g < gs.len()
        invariant
            g <= gs@.len(),
            ps == walk::found_in(places@),
            rows == rows_of(ps),
            found_rows(gs@, ps),
            out@ == users_upto(rows, our, passwd@, g as int),
        decreases gs.len() - g,
    {
        assert(found_row(gs@[g as int]@, rows[g as int], ps));
        let first: usize = gs[g][0];
        assert(ps[first as int] == group::place::opt_place(places@[first as int]));
        if let Some(p) = &places[first] {
            if let Home::Of(u, _) = home(p.folder, p.uid) {
                if !has_user(&out, u) {
                    put_user(&mut out, u, our, passwd);
                }
            }
        }
        g += 1;
    }
    out
}

/// The tree of all rows, under what is already said of the machine: `our` is
/// the user who looks.
pub fn assemble(
    procs: &Vec<Process>,
    places: &Vec<Option<Place>>,
    metrics: &Vec<Metrics>,
    header: HostTree,
    our: u32,
    passwd: &Passwd,
) -> (r: HostTree)
    requires
        group::by_pid(procs@),
        places@.len() == procs@.len(),
        metrics@.len() == procs@.len(),
    ensures
        r.same_header(header),
        is_tree(
            r,
            walk::found_in(places@),
            procs@,
            tree::weights_of(metrics@),
            our,
            passwd@,
        ),
{
    let gs = find_rows(places);
    let ghost ps = walk::found_in(places@);
    let ghost ws = tree::weights_of(metrics@);
    let ghost rows = rows_of(ps);
    let uids = find_users(&gs, places, our, passwd);
    let mut users: Vec<UserNode> = Vec::new();
    let mut k: usize = 0;
    while k < uids.len()
        invariant
            k <= uids@.len(),
            ps == walk::found_in(places@),
            ws == tree::weights_of(metrics@),
            rows == rows_of(ps),
            group::by_pid(procs@),
            places@.len() == procs@.len(),
            metrics@.len() == procs@.len(),
            found_rows(gs@, ps),
            users@.len() == k,
            forall|j: int|
                0 <= j < k ==> is_user(
                    #[trigger] users@[j],
                    uids@[j],
                    rows,
                    ps,
                    procs@,
                    ws,
                    passwd@,
                ),
        decreases uids.len() - k,
    {
        let uid: u32 = uids[k];
        users.push(
            UserNode {
                uid,
                name: passwd.name(uid),
                applications: idents_at(
                    Home::Of(uid, Folder::Applications),
                    &gs,
                    places,
                    procs,
                    metrics,
                ),
                user_services: idents_at(
                    Home::Of(uid, Folder::UserServices),
                    &gs,
                    places,
                    procs,
                    metrics,
                ),
                containers: idents_at(
                    Home::Of(uid, Folder::Containers),
                    &gs,
                    places,
                    procs,
                    metrics,
                ),
            },
        );
        k += 1;
    }
    let mut r = header;
    r.users = users;
    r.containers = idents_at(Home::Containers, &gs, places, procs, metrics);
    r.system = idents_at(Home::System, &gs, places, procs, metrics);
    r
}

/// What every process used since a previous sample.
pub open spec fn weights_since(
    prev: Seq<Process>,
    curr: Seq<Process>,
    elapsed: u64,
    consts: HostHeader,
    btime: u64,
    now: u64,
) -> Seq<Weight> {
    Seq::new(
        curr.len(),
        |k: int|
            cpu::weight_since(
                match group::at_pid(prev, curr[k].pid) {
                    Some(i) => Some(prev[i]),
                    None => None,
                },
                curr[k],
                elapsed,
                consts,
                btime,
                now,
            ),
    )
}

fn metrics_of(
    prev: &Vec<Process>,
    curr: &Vec<Process>,
    elapsed: u64,
    consts: &HostHeader,
    btime: u64,
    now: u64,
) -> (r: Vec<Metrics>)
    requires
        group::by_pid(prev@),
    ensures
        tree::weights_of(r@) == weights_since(prev@, curr@, elapsed, *consts, btime, now),
        r@.len() == curr@.len(),
{
    let ghost ws = weights_since(prev@, curr@, elapsed, *consts, btime, now);
    let mut out: Vec<Metrics> = Vec::new();
    let mut k: usize = 0;
    while k < curr.len()
        invariant
            k <= curr@.len(),
            group::by_pid(prev@),
            ws == weights_since(prev@, curr@, elapsed, *consts, btime, now),
            out@.len() == k,
            forall|j: int| 0 <= j < k ==> (#[trigger] out@[j])@ == ws[j],
        decreases curr.len() - k,
    {
        let before: Option<&Process> = match group::find_pid(prev, curr[k].pid) {
            Some(i) => Some(&prev[i]),
            None => None,
        };
        out.push(cpu::process_metrics(before, &curr[k], elapsed, consts, btime, now));
        k += 1;
    }
    assert(tree::weights_of(out@) =~= ws);
    out
}

/// The tree of one sample: every process placed, weighed against the previous
/// sample, and put in its row. `elapsed` is the time between the samples in
/// nanoseconds; `btime` and `now` are seconds of the epoch.
pub fn build_tree(
    prev: &Vec<Process>,
    curr: &Vec<Process>,
    elapsed: u64,
    consts: &HostHeader,
    btime: u64,
    now: u64,
    header: HostTree,
    containers: &ContainerIndex,
    rules: &Rules,
    our: u32,
    passwd: &Passwd,
) -> (r: HostTree)
    requires
        group::by_pid(prev@),
        group::by_pid(curr@),
        rules.wf(),
    ensures
        r.same_header(header),
        is_tree(
            r,
            laws::places(World { procs: curr@, rules: *rules, containers: containers@ }),
            curr@,
            weights_since(prev@, curr@, elapsed, *consts, btime, now),
            our,
            passwd@,
        ),
{
    let ctx = Ctx::new(containers, rules, curr);
    let places = walk::resolve_places(&ctx);
    let metrics = metrics_of(prev, curr, elapsed, consts, btime, now);
    proof {
        laws::law_every_process_has_a_place(ctx.world());
        assert(walk::found_in(places@).len() == places@.len());
    }
    assemble(curr, &places, &metrics, header, our, passwd)
}

// ---------------------------------------------------------------------------
// Laws
// ---------------------------------------------------------------------------

/// Every process is billed to exactly one row, the row of its own folder, user
/// and key.
pub proof fn law_every_process_is_in_one_row(w: World, i: int)
    requires
        0 <= i < w.procs.len(),
    ensures
        ({
            let rows = rows_of(laws::places(w));
            let p = laws::places(w)[i]->0;
            let key = RowKeyView { folder: p.folder, uid: p.uid, key: p.key };
            &&& exists|g: int| 0 <= g < rows.len() && (#[trigger] rows[g]).members.contains(i)
            &&& forall|g: int|
                0 <= g < rows.len() ==> ((#[trigger] rows[g]).members.contains(i) ==> rows[g].key
                    == key)
            &&& forall|g: int, h: int|
                0 <= g < h < rows.len() ==> !((#[trigger] rows[g]).members.contains(i) && (
                #[trigger] rows[h]).members.contains(i))
        }),
{
    let ps = laws::places(w);
    let ls = row_labels(ps);
    let rows = rows_of(ps);
    let gs = tree::groups_of(ls);
    laws::law_every_process_has_a_place(w);
    assert(ps[i] is Some);
    tree::law_groups_divide(ls, i);
    let g = choose|g: int| 0 <= g < gs.len() && (#[trigger] gs[g]).contains(i);
    assert(rows[g].members.contains(i));
    assert forall|g: int| 0 <= g < rows.len() && (#[trigger] rows[g]).members.contains(i) implies rows[g].key
        == ls[i]->0 by {
        tree::lemma_group_holds(ls, g, i);
    }
    assert forall|g: int, h: int| 0 <= g < h < rows.len() implies !((
    #[trigger] rows[g]).members.contains(i) && (#[trigger] rows[h]).members.contains(i)) by {
        assert(rows[g].members == gs[g] && rows[h].members == gs[h]);
    }
}

pub proof fn lemma_with_user_has(users: Seq<u32>, u: u32, our: u32, passwd: Seq<char>)
    ensures
        with_user(users, u, our, passwd).contains(u),
        forall|x: u32| users.contains(x) ==> #[trigger] with_user(users, u, our, passwd).contains(x),
        forall|x: u32|
            #[trigger] with_user(users, u, our, passwd).contains(x) ==> x == u || users.contains(x),
        with_user(users, u, our, passwd).len() == users.len() + 1,
    decreases users.len(),
{
    let r = with_user(users, u, our, passwd);
    if users.len() == 0 || listed_before(users.last(), u, our, passwd) {
        assert(r.last() == u);
        assert forall|x: u32| users.contains(x) implies #[trigger] r.contains(x) by {
            let k = choose|k: int| 0 <= k < users.len() && users[k] == x;
            assert(r[k] == x);
        }
    } else {
        let head = users.drop_last();
        let t = with_user(head, u, our, passwd);
        lemma_with_user_has(head, u, our, passwd);
        let k = choose|k: int| 0 <= k < t.len() && t[k] == u;
        assert(r[k] == u);
        assert forall|x: u32| users.contains(x) implies #[trigger] r.contains(x) by {
            let k = choose|k: int| 0 <= k < users.len() && users[k] == x;
            if k < head.len() {
                assert(head[k] == x);
                assert(t.contains(x));
                let j = choose|j: int| 0 <= j < t.len() && t[j] == x;
                assert(r[j] == x);
            } else {
                assert(r.last() == x);
            }
        }
        assert forall|x: u32| #[trigger] r.contains(x) implies x == u || users.contains(x) by {
            let k = choose|k: int| 0 <= k < r.len() && r[k] == x;
            if k < t.len() {
                assert(t[k] == x);
                assert(t.contains(x));
                if x != u {
                    let j = choose|j: int| 0 <= j < head.len() && head[j] == x;
                    assert(users[j] == x);
                }
            } else {
                assert(users.last() == x);
            }
        }
    }
}

/// Every row of a user stands under that user: no row is lost between users.
pub proof fn law_every_owner_is_listed(rows: Seq<Row>, our: u32, passwd: Seq<char>, n: int, g: int)
    requires
        0 <= g < n <= rows.len(),
    ensures
        home_of(rows[g].key.folder, rows[g].key.uid) matches Home::Of(u, _) ==> users_upto(
            rows,
            our,
            passwd,
            n,
        ).contains(u),
    decreases n,
{
    let before = users_upto(rows, our, passwd, n - 1);
    if let Home::Of(v, _) = home_of(rows[n - 1].key.folder, rows[n - 1].key.uid) {
        lemma_with_user_has(before, v, our, passwd);
    }
    if g < n - 1 {
        law_every_owner_is_listed(rows, our, passwd, n - 1, g);
    }
}

/// The one who looks is never second: where that user has a row, their part of
/// the tree comes first.
pub proof fn law_the_one_who_looks_comes_first(rows: Seq<Row>, our: u32, passwd: Seq<char>, n: int)
    requires
        0 <= n <= rows.len(),
    ensures
        users_upto(rows, our, passwd, n).contains(our) ==> users_upto(rows, our, passwd, n)[0] == our,
        forall|k: int|
            0 < k < users_upto(rows, our, passwd, n).len() ==> #[trigger] users_upto(
                rows,
                our,
                passwd,
                n,
            )[k] != our,
    decreases n,
{
    if n > 0 {
        law_the_one_who_looks_comes_first(rows, our, passwd, n - 1);
        let before = users_upto(rows, our, passwd, n - 1);
        if let Home::Of(u, _) = home_of(rows[n - 1].key.folder, rows[n - 1].key.uid) {
            if !before.contains(u) {
                lemma_first_stays(before, u, our, passwd);
            }
        }
    }
}

proof fn lemma_first_stays(users: Seq<u32>, u: u32, our: u32, passwd: Seq<char>)
    requires
        !users.contains(u),
        forall|k: int| 0 < k < users.len() ==> #[trigger] users[k] != our,
    ensures
        ({
            let r = with_user(users, u, our, passwd);
            &&& r.len() == users.len() + 1
            &&& forall|k: int| 0 < k < r.len() ==> #[trigger] r[k] != our
            &&& r.contains(our) ==> r[0] == our
        }),
    decreases users.len(),
{
    let r = with_user(users, u, our, passwd);
    if users.len() == 0 {
    } else if listed_before(users.last(), u, our, passwd) {
        if u == our {
            assert(users.last() == our);
            assert(users.contains(u));
        }
        assert forall|k: int| 0 < k < r.len() implies #[trigger] r[k] != our by {
            if k < users.len() {
                assert(users[k] != our);
            }
        }
        assert(r[0] == users[0]);
    } else {
        let head = users.drop_last();
        assert forall|k: int| 0 < k < head.len() implies #[trigger] head[k] != our by {
            assert(users[k] != our);
        }
        assert(!head.contains(u)) by {
            if head.contains(u) {
                let k = choose|k: int| 0 <= k < head.len() && head[k] == u;
                assert(users[k] == u);
            }
        }
        lemma_first_stays(head, u, our, passwd);
        let t = with_user(head, u, our, passwd);
        assert(users.last() != our) by {
            if users.last() == our {
                assert(u == our);
                assert(users[users.len() - 1] == u);
            }
        }
        assert forall|k: int| 0 < k < r.len() implies #[trigger] r[k] != our by {
            if k < t.len() {
                assert(t[k] != our);
            }
        }
        if r.contains(our) {
            let k = choose|k: int| 0 <= k < r.len() && r[k] == our;
            assert(k == 0);
        }
    }
}

} // verus!
