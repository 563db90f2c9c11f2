//! Rows out of places: the processes of one row, its instances and its member
//! containers, each as a forest, and the tree of all rows.
use vstd::prelude::*;

use crate::group::forest::{Node, Parents, MAX_PROC_DEPTH};
use crate::group::place::{Place, PlaceView};
use crate::proc::Passwd;
use crate::types::{
    Folder, HostTree, IdentNode, InstanceNode, MemberContainer, Metrics, ProcNode, Process,
    UserNode, Weight,
};
use crate::{classify, group, proc, text, types};
use crate::group::{forest, place, walk};

verus! {

// ---------------------------------------------------------------------------
// Members as a forest
// ---------------------------------------------------------------------------

/// Indices of processes, each once and in order.
pub open spec fn in_order(members: Seq<int>, n: int) -> bool {
    &&& forall|k: int| 0 <= k < members.len() ==> 0 <= #[trigger] members[k] < n
    &&& forall|a: int, b: int|
        0 <= a < b < members.len() ==> #[trigger] members[a] < #[trigger] members[b]
}

/// Where a process stands among the members.
pub open spec fn position_of(members: Seq<int>, x: int) -> Option<int> {
    if exists|k: int| 0 <= k < members.len() && #[trigger] members[k] == x {
        Some(choose|k: int| 0 <= k < members.len() && #[trigger] members[k] == x)
    } else {
        None
    }
}

/// Each member's parent, where that is a member too.
pub open spec fn family(procs: Seq<Process>, members: Seq<int>) -> Parents {
    Seq::new(
        members.len(),
        |k: int|
            match group::at_pid(procs, procs[members[k]].ppid) {
                Some(x) => position_of(members, x),
                None => None,
            },
    )
}

/// A node says of its process and of those under it what is true of them.
pub open spec fn shows(
    n: ProcNode,
    v: Node,
    procs: Seq<Process>,
    members: Seq<int>,
    weights: Seq<Weight>,
) -> bool
    decreases v,
{
    let i = members[v.at];
    &&& n.pid == procs[i].pid
    &&& n.name@ == classify::process_name(procs[i])
    &&& n.cmdline@ == text::joined_with(text::texts(procs[i].cmdline@), " "@)
    &&& n.metrics@ == weights[i]
    &&& n.children@.len() == v.children.len()
    &&& forall|k: int|
        0 <= k < v.children.len() ==> shows(
            #[trigger] n.children@[k],
            v.children[k],
            procs,
            members,
            weights,
        )
}

/// Nodes that show the members as a forest.
pub open spec fn shows_all(
    nodes: Seq<ProcNode>,
    procs: Seq<Process>,
    members: Seq<int>,
    weights: Seq<Weight>,
) -> bool {
    let f = forest::forest(family(procs, members));
    &&& nodes.len() == f.len()
    &&& forall|k: int|
        0 <= k < f.len() ==> shows(#[trigger] nodes[k], f[k], procs, members, weights)
}

/// The weights of all processes.
pub open spec fn weights_of(metrics: Seq<Metrics>) -> Seq<Weight> {
    Seq::new(metrics.len(), |k: int| metrics[k]@)
}

fn position(members: &Vec<usize>, x: usize, Ghost(n): Ghost<int>) -> (r: Option<usize>)
    requires
        in_order(group::ints(members@), n),
    ensures
        match r {
            Some(k) => position_of(group::ints(members@), x as int) == Some(k as int) && k
                < members@.len(),
            None => position_of(group::ints(members@), x as int) is None,
        },
{
    let ghost ms = group::ints(members@);
    let mut lo: usize = 0;
    let mut hi: usize = members.len();
    while lo < hi
        invariant
            lo <= hi <= members@.len(),
            ms == group::ints(members@),
            in_order(ms, n),
            forall|k: int| 0 <= k < lo ==> #[trigger] ms[k] < x,
            forall|k: int| hi <= k < ms.len() ==> #[trigger] ms[k] > x,
        decreases hi - lo,
    {
        let mid: usize = lo + (hi - lo) / 2;
        let at: usize = members[mid];
        assert(ms[mid as int] == at);
        if at == x {
            proof {
                let c = choose|k: int| 0 <= k < ms.len() && #[trigger] ms[k] == x as int;
                assert(ms[c] == ms[mid as int]);
                assert(c == mid);
            }
            return Some(mid);
        }
        if at < x {
            lo = mid + 1;
        } else {
            hi = mid;
        }
    }
    None
}

/// The parents as positions.
fn parents(members: &Vec<usize>, procs: &Vec<Process>) -> (r: Vec<Option<usize>>)
    requires
        group::by_pid(procs@),
        in_order(group::ints(members@), procs@.len() as int),
    ensures
        forest::parents_of(r@) == family(procs@, group::ints(members@)),
        forest::closed_family(family(procs@, group::ints(members@))),
{
    let ghost ms = group::ints(members@);
    let ghost fam = family(procs@, ms);
    let mut out: Vec<Option<usize>> = Vec::new();
    let mut k: usize = 0;
    while k < members.len()
        invariant
            k <= members@.len(),
            ms == group::ints(members@),
            fam == family(procs@, ms),
            group::by_pid(procs@),
            in_order(ms, procs@.len() as int),
            out@.len() == k,
            forall|j: int|
                0 <= j < k ==> forest::parents_of(out@)[j] == #[trigger] fam[j] && (fam[j] matches Some(
                    p,
                ) ==> 0 <= p < fam.len()),
        decreases members.len() - k,
    {
        assert(ms[k as int] == members@[k as int]);
        let i: usize = members[k];
        let ghost before = out@;
        let up: Option<usize> = match group::find_pid(procs, procs[i].ppid) {
            Some(x) => position(members, x, Ghost(procs@.len() as int)),
            None => None,
        };
        out.push(up);
        proof {
            assert forall|j: int| 0 <= j < k + 1 implies forest::parents_of(out@)[j]
                == #[trigger] fam[j] && (fam[j] matches Some(p) ==> 0 <= p < fam.len()) by {
                if j < k {
                    assert(out@[j] == before[j]);
                    assert(forest::parents_of(before)[j] == fam[j]);
                }
            }
        }
        k += 1;
    }
    assert(forest::parents_of(out@) =~= fam);
    out
}

fn proc_node(
    at: usize,
    depth: usize,
    kids: &Vec<Vec<usize>>,
    members: &Vec<usize>,
    procs: &Vec<Process>,
    metrics: &Vec<Metrics>,
    Ghost(par): Ghost<Parents>,
) -> (r: ProcNode)
    requires
        1 <= depth <= 48,
        in_order(group::ints(members@), procs@.len() as int),
        metrics@.len() == procs@.len(),
        par.len() == members@.len(),
        at < par.len(),
        forest::closed_family(par),
        kids@.len() == par.len(),
        forall|k: int|
            0 <= k < par.len() ==> group::ints((#[trigger] kids@[k])@) == forest::kids_upto(
                par,
                k,
                par.len() as int,
            ),
    ensures
        shows(
            r,
            forest::node(par, at as int, depth as int),
            procs@,
            group::ints(members@),
            weights_of(metrics@),
        ),
    decreases 48 - depth,
{
    let ghost ms = group::ints(members@);
    let ghost ws = weights_of(metrics@);
    assert(ms[at as int] == members@[at as int]);
    let i: usize = members[at];
    let ghost under = forest::shown_under(par, at as int, depth as int);
    let mut out: Vec<ProcNode> = Vec::new();
    if depth < MAX_PROC_DEPTH {
        let gathered: Vec<usize> = if depth + 1 < MAX_PROC_DEPTH {
            Vec::new()
        } else {
            forest::descendants(at, kids, Ghost(par))
        };
        let shown: &Vec<usize> = if depth + 1 < MAX_PROC_DEPTH {
            &kids[at]
        } else {
            &gathered
        };
        assert(group::ints(shown@) == under);
        let mut k: usize = 0;
        #[verifier::loop_isolation(false)]
        while k < shown.len()
            invariant
                k <= shown@.len(),
                out@.len() == k,
                forall|j: int|
                    0 <= j < k ==> shows(
                        #[trigger] out@[j],
                        forest::node(par, under[j], depth + 1),
                        procs@,
                        ms,
                        ws,
                    ),
            decreases shown.len() - k,
        {
            assert(group::ints(shown@)[k as int] == shown@[k as int]);
            proof {
                lemma_shown_bound(par, at as int, depth as int, k as int);
            }
            let n = proc_node(shown[k], depth + 1, kids, members, procs, metrics, Ghost(par));
            out.push(n);
            k += 1;
        }
    }
    let r = ProcNode {
        pid: procs[i].pid,
        name: classify::name_of(&procs[i]),
        cmdline: text::join(&procs[i].cmdline, " "),
        metrics: metrics[i].copy(),
        children: out,
    };
    proof {
        let v = forest::node(par, at as int, depth as int);
        assert(v.at == at);
        assert(ws[i as int] == metrics@[i as int]@);
        assert(v.children.len() == out@.len());
        assert forall|k: int| 0 <= k < v.children.len() implies shows(
            #[trigger] r.children@[k],
            v.children[k],
            procs@,
            ms,
            ws,
        ) by {
            assert(v.children[k] == forest::node(par, under[k], depth + 1));
        }
    }
    r
}

proof fn lemma_shown_bound(par: Parents, i: int, depth: int, k: int)
    requires
        0 <= k < forest::shown_under(par, i, depth).len(),
    ensures
        0 <= forest::shown_under(par, i, depth)[k] < par.len(),
{
    if depth + 1 < 48 {
        lemma_kid_bound(par, i, par.len() as int, k);
    } else {
        lemma_below_bound(par, i, par.len() as int, k);
    }
}

proof fn lemma_kid_bound(par: Parents, i: int, n: int, k: int)
    requires
        0 <= k < forest::kids_upto(par, i, n).len(),
    ensures
        0 <= forest::kids_upto(par, i, n)[k] < n,
    decreases n,
{
    if n > 0 && k < forest::kids_upto(par, i, n - 1).len() {
        lemma_kid_bound(par, i, n - 1, k);
    }
}

proof fn lemma_below_bound(par: Parents, i: int, n: int, k: int)
    requires
        0 <= k < forest::below_upto(par, i, n).len(),
    ensures
        0 <= forest::below_upto(par, i, n)[k] < n,
    decreases n,
{
    if n > 0 && k < forest::below_upto(par, i, n - 1).len() {
        lemma_below_bound(par, i, n - 1, k);
    }
}

/// The members as a forest.
pub fn proc_forest(members: &Vec<usize>, procs: &Vec<Process>, metrics: &Vec<Metrics>) -> (r: Vec<
    ProcNode,
>)
    requires
        group::by_pid(procs@),
        in_order(group::ints(members@), procs@.len() as int),
        metrics@.len() == procs@.len(),
    ensures
        shows_all(r@, procs@, group::ints(members@), weights_of(metrics@)),
{
    let ghost ms = group::ints(members@);
    let ghost ws = weights_of(metrics@);
    let par = parents(members, procs);
    let ghost ps = family(procs@, ms);
    assert(forest::parents_of(par@).len() == par@.len());
    let kids = forest::kids_all(&par);
    let mut out: Vec<ProcNode> = Vec::new();
    let mut n: usize = 0;
    while n < par.len()
        invariant
            n <= par@.len(),
            ms == group::ints(members@),
            ws == weights_of(metrics@),
            ps == family(procs@, ms),
            forest::parents_of(par@) == ps,
            par@.len() == ps.len(),
            forest::closed_family(ps),
            in_order(ms, procs@.len() as int),
            metrics@.len() == procs@.len(),
            kids@.len() == ps.len(),
            forall|i: int|
                0 <= i < ps.len() ==> group::ints((#[trigger] kids@[i])@) == forest::kids_upto(
                    ps,
                    i,
                    ps.len() as int,
                ),
            out@.len() == forest::roots_upto(ps, n as int).len(),
            forall|k: int|
                0 <= k < out@.len() ==> shows(
                    #[trigger] out@[k],
                    forest::node(ps, forest::roots_upto(ps, n as int)[k], 1),
                    procs@,
                    ms,
                    ws,
                ),
        decreases par.len() - n,
    {
        let ghost before = forest::roots_upto(ps, n as int);
        assert(ps[n as int] == forest::parents_of(par@)[n as int]);
        if par[n].is_none() {
            let node = proc_node(n, 1, &kids, members, procs, metrics, Ghost(ps));
            out.push(node);
            assert(forest::roots_upto(ps, n + 1) == before.push(n as int));
        }
        n += 1;
    }
    out
}

fn sum_metrics(members: &Vec<usize>, metrics: &Vec<Metrics>) -> (r: Metrics)
    requires
        in_order(group::ints(members@), metrics@.len() as int),
    ensures
        r@ == types::weight_of(picked(weights_of(metrics@), group::ints(members@))),
{
    let ghost ms = group::ints(members@);
    let ghost ws = picked(weights_of(metrics@), ms);
    let mut m = Metrics::default();
    let mut k: usize = 0;
    while k < members.len()
        invariant
            k <= members@.len(),
            ms == group::ints(members@),
            in_order(ms, metrics@.len() as int),
            ws == picked(weights_of(metrics@), ms),
            m@ == types::weight_upto(ws, k as int),
        decreases members.len() - k,
    {
        assert(ms[k as int] == members@[k as int]);
        m.accumulate(&metrics[members[k]]);
        k += 1;
    }
    m
}

/// The values at some indices.
pub open spec fn picked<T>(v: Seq<T>, at: Seq<int>) -> Seq<T> {
    Seq::new(at.len(), |k: int| v[at[k]])
}

// ---------------------------------------------------------------------------
// Grouping by a label
// ---------------------------------------------------------------------------

/// The first position of each label, in order.
pub open spec fn firsts_upto<T>(labels: Seq<Option<T>>, n: int) -> Seq<int>
    decreases n,
{
    if n <= 0 {
        Seq::empty()
    } else if labels[n - 1] is Some && forall|j: int|
        0 <= j < n - 1 ==> #[trigger] labels[j] != labels[n - 1] {
        firsts_upto(labels, n - 1).push(n - 1)
    } else {
        firsts_upto(labels, n - 1)
    }
}

/// The positions with a label among the first `n`, in order.
pub open spec fn same_upto<T>(labels: Seq<Option<T>>, x: Option<T>, n: int) -> Seq<int>
    decreases n,
{
    if n <= 0 {
        Seq::empty()
    } else if labels[n - 1] == x {
        same_upto(labels, x, n - 1).push(n - 1)
    } else {
        same_upto(labels, x, n - 1)
    }
}

/// The positions of each label, the labels in the order they first appear.
pub open spec fn groups_of<T>(labels: Seq<Option<T>>) -> Seq<Seq<int>> {
    let f = firsts_upto(labels, labels.len() as int);
    Seq::new(f.len(), |g: int| same_upto(labels, labels[f[g]], labels.len() as int))
}

/// What things are grouped by.
pub trait Label {
    type V;

    spec fn label(&self) -> Self::V;

    fn same_label(&self, o: &Self) -> (r: bool)
        ensures
            r == (self.label() == o.label()),
    ;
}

impl Label for String {
    type V = Seq<char>;

    open spec fn label(&self) -> Seq<char> {
        self@
    }

    fn same_label(&self, o: &Self) -> (r: bool) {
        text::same_str(self.as_str(), o.as_str())
    }
}

/// What makes two processes share a row.
pub struct RowKey {
    pub folder: Folder,
    pub uid: Option<u32>,
    pub key: String,
}

/// The same as text.
pub struct RowKeyView {
    pub folder: Folder,
    pub uid: Option<u32>,
    pub key: Seq<char>,
}

impl Label for RowKey {
    type V = RowKeyView;

    open spec fn label(&self) -> RowKeyView {
        RowKeyView { folder: self.folder, uid: self.uid, key: self.key@ }
    }

    fn same_label(&self, o: &Self) -> (r: bool) {
        let same_uid = match (self.uid, o.uid) {
            (Some(a), Some(b)) => a == b,
            (None, None) => true,
            _ => false,
        };
        self.folder == o.folder && same_uid && text::same_str(self.key.as_str(), o.key.as_str())
    }
}

pub open spec fn labels_of<T: Label>(v: Seq<Option<T>>) -> Seq<Option<T::V>> {
    Seq::new(
        v.len(),
        |k: int|
            match v[k] {
                Some(l) => Some(l.label()),
                None => None,
            },
    )
}

/// A first position lies where it is looked for.
pub proof fn lemma_first_bound<T>(labels: Seq<Option<T>>, n: int, g: int)
    requires
        0 <= g < firsts_upto(labels, n).len(),
    ensures
        0 <= firsts_upto(labels, n)[g] < n,
        labels[firsts_upto(labels, n)[g]] is Some,
    decreases n,
{
    if n > 0 && g < firsts_upto(labels, n - 1).len() {
        lemma_first_bound(labels, n - 1, g);
    }
}

/// No label has two first positions.
proof fn lemma_firsts_differ<T>(labels: Seq<Option<T>>, n: int, g: int, h: int)
    requires
        0 <= g < h < firsts_upto(labels, n).len(),
    ensures
        labels[firsts_upto(labels, n)[g]] != labels[firsts_upto(labels, n)[h]],
        firsts_upto(labels, n)[g] < firsts_upto(labels, n)[h],
    decreases n,
{
    if n > 0 {
        if h < firsts_upto(labels, n - 1).len() {
            lemma_firsts_differ(labels, n - 1, g, h);
        } else {
            lemma_first_bound(labels, n - 1, g);
        }
    }
}

/// Every label has a first position.
proof fn lemma_has_first<T>(labels: Seq<Option<T>>, n: int, j: int) -> (g: int)
    requires
        0 <= j < n,
        labels[j] is Some,
    ensures
        0 <= g < firsts_upto(labels, n).len(),
        labels[firsts_upto(labels, n)[g]] == labels[j],
    decreases n,
{
    if j == n - 1 {
        if forall|i: int| 0 <= i < n - 1 ==> #[trigger] labels[i] != labels[n - 1] {
            firsts_upto(labels, n).len() - 1
        } else {
            let i = choose|i: int| 0 <= i < n - 1 && #[trigger] labels[i] == labels[n - 1];
            lemma_has_first(labels, n - 1, i)
        }
    } else {
        lemma_has_first(labels, n - 1, j)
    }
}

/// The positions with a label, each once and in order.
proof fn lemma_same_bound<T>(labels: Seq<Option<T>>, x: Option<T>, n: int, k: int)
    requires
        0 <= k < same_upto(labels, x, n).len(),
    ensures
        0 <= same_upto(labels, x, n)[k] < n,
        labels[same_upto(labels, x, n)[k]] == x,
    decreases n,
{
    if n > 0 && k < same_upto(labels, x, n - 1).len() {
        lemma_same_bound(labels, x, n - 1, k);
    }
}

proof fn lemma_same_ascends<T>(labels: Seq<Option<T>>, x: Option<T>, n: int, a: int, b: int)
    requires
        0 <= a < b < same_upto(labels, x, n).len(),
    ensures
        same_upto(labels, x, n)[a] < same_upto(labels, x, n)[b],
    decreases n,
{
    if n > 0 {
        if b < same_upto(labels, x, n - 1).len() {
            lemma_same_ascends(labels, x, n - 1, a, b);
        } else {
            lemma_same_bound(labels, x, n - 1, a);
        }
    }
}

proof fn lemma_same_in_order<T>(labels: Seq<Option<T>>, x: Option<T>, n: int)
    ensures
        in_order(same_upto(labels, x, n), n),
{
    let s = same_upto(labels, x, n);
    assert forall|k: int| 0 <= k < s.len() implies 0 <= #[trigger] s[k] < n by {
        lemma_same_bound(labels, x, n, k);
    }
    assert forall|a: int, b: int| 0 <= a < b < s.len() implies #[trigger] s[a] < #[trigger] s[b] by {
        lemma_same_ascends(labels, x, n, a, b);
    }
}

proof fn lemma_same_none<T>(labels: Seq<Option<T>>, x: Option<T>, n: int)
    requires
        forall|j: int| 0 <= j < n ==> #[trigger] labels[j] != x,
    ensures
        same_upto(labels, x, n).len() == 0,
    decreases n,
{
    if n > 0 {
        lemma_same_none(labels, x, n - 1);
    }
}

/// The positions of each label, the labels in the order they first appear.
pub fn groups<T: Label>(labels: &Vec<Option<T>>) -> (r: Vec<Vec<usize>>)
    ensures
        r@.len() == groups_of(labels_of(labels@)).len(),
        forall|g: int|
            0 <= g < r@.len() ==> group::ints((#[trigger] r@[g])@) == groups_of(
                labels_of(labels@),
            )[g],
        forall|g: int|
            0 <= g < r@.len() ==> (#[trigger] r@[g])@.len() > 0 && r@[g]@[0] == firsts_upto(
                labels_of(labels@),
                labels@.len() as int,
            )[g],
{
    let ghost ls = labels_of(labels@);
    let mut out: Vec<Vec<usize>> = Vec::new();
    let mut n: usize = 0;
    while n < labels.len()
        invariant
            n <= labels@.len(),
            ls == labels_of(labels@),
            out@.len() == firsts_upto(ls, n as int).len(),
            forall|g: int|
                0 <= g < out@.len() ==> group::ints((#[trigger] out@[g])@) == same_upto(
                    ls,
                    ls[firsts_upto(ls, n as int)[g]],
                    n as int,
                ) && out@[g]@.len() > 0 && out@[g]@[0] == firsts_upto(ls, n as int)[g],
        decreases labels.len() - n,
    {
        let ghost f = firsts_upto(ls, n as int);
        let ghost before = out@;
        match &labels[n] {
            Some(l) => {
                assert(ls[n as int] == Some(l.label()));
                let mut g: usize = 0;
                let mut found: bool = false;
                while g < out.len()
                    invariant_except_break
                        !found,
                        forall|h: int| 0 <= h < g ==> ls[#[trigger] f[h]] != ls[n as int],
                    invariant
                        g <= out@.len(),
                        n < labels@.len(),
                        ls == labels_of(labels@),
                        f == firsts_upto(ls, n as int),
                        out@ == before,
                        out@.len() == f.len(),
                        ls[n as int] == Some(l.label()),
                        forall|h: int|
                            0 <= h < out@.len() ==> (#[trigger] out@[h])@.len() > 0 && out@[h]@[0] == f[h],
                    ensures
                        found ==> g < out@.len() && ls[f[g as int]] == ls[n as int],
                        !found ==> forall|h: int| 0 <= h < f.len() ==> ls[#[trigger] f[h]] != ls[n as int],
                    decreases out.len() - g,
                {
                    let first: usize = out[g][0];
                    proof {
                        lemma_first_bound(ls, n as int, g as int);
                    }
                    if let Some(o) = &labels[first] {
                        if l.same_label(o) {
                            found = true;
                            break;
                        }
                    }
                    g += 1;
                }
                if found {
                    let mut v: Vec<usize> = Vec::new();
                    std::mem::swap(&mut v, &mut out[g]);
                    v.push(n);
                    out.set(g, v);
                    proof {
                        lemma_first_bound(ls, n as int, g as int);
                        assert(ls[f[g as int]] == ls[n as int]);
                        assert(firsts_upto(ls, n + 1) == f);
                        assert(group::ints(out@[g as int]@) =~= group::ints(
                            before[g as int]@,
                        ).push(n as int));
                        assert forall|h: int| 0 <= h < out@.len() implies group::ints(
                            (#[trigger] out@[h])@,
                        ) == same_upto(ls, ls[f[h]], n + 1) && out@[h]@.len() > 0 && out@[h]@[0]
                            == f[h] by {
                            if h != g {
                                assert(out@[h] == before[h]);
                                if h < g {
                                    lemma_firsts_differ(ls, n as int, h, g as int);
                                } else {
                                    lemma_firsts_differ(ls, n as int, g as int, h);
                                }
                            }
                        }
                    }
                } else {
                    let mut v: Vec<usize> = Vec::new();
                    v.push(n);
                    out.push(v);
                    proof {
                        assert forall|j: int| 0 <= j < n implies #[trigger] ls[j] != ls[n as int] by {
                            if ls[j] == ls[n as int] {
                                let h = lemma_has_first(ls, n as int, j);
                                assert(ls[f[h]] != ls[n as int]);
                            }
                        }
                        assert(firsts_upto(ls, n + 1) == f.push(n as int));
                        lemma_same_none(ls, ls[n as int], n as int);
                        assert forall|h: int| 0 <= h < out@.len() implies group::ints(
                            (#[trigger] out@[h])@,
                        ) == same_upto(ls, ls[f.push(n as int)[h]], n + 1) && out@[h]@.len() > 0
                            && out@[h]@[0] == f.push(n as int)[h] by {
                            if h < f.len() {
                                assert(out@[h] == before[h]);
                                assert(ls[f[h]] != ls[n as int]);
                            } else {
                                assert(same_upto(ls, ls[n as int], n as int)
                                    =~= Seq::<int>::empty());
                                assert(group::ints(out@[h]@) =~= seq![n as int]);
                            }
                        }
                    }
                }
            },
            None => {
                proof {
                    assert(ls[n as int] is None);
                    assert forall|h: int| 0 <= h < out@.len() implies group::ints(
                        (#[trigger] out@[h])@,
                    ) == same_upto(ls, ls[f[h]], n + 1) by {
                        lemma_first_bound(ls, n as int, h);
                    }
                }
            },
        }
        n += 1;
    }
    out
}

// ---------------------------------------------------------------------------
// Rows
// ---------------------------------------------------------------------------

/// A count held to 32 bits.
pub open spec fn count32(n: nat) -> u32 {
    if n > u32::MAX {
        u32::MAX
    } else {
        n as u32
    }
}

fn count_of(n: usize) -> (r: u32)
    ensures
        r == count32(n as nat),
{
    if n > u32::MAX as usize {
        u32::MAX
    } else {
        n as u32
    }
}

/// The instance that process `i` belongs to.
pub open spec fn instance_of(places: Seq<Option<PlaceView>>, procs: Seq<Process>, i: int) -> Seq<
    char,
> {
    match places[i] {
        Some(p) => p.instance,
        None => "pid:"@ + text::decimal(procs[i].pid as nat),
    }
}

/// The container that process `i` is in, within its row.
pub open spec fn container_of(places: Seq<Option<PlaceView>>, i: int) -> Option<Seq<char>> {
    match places[i] {
        Some(p) => p.member,
        None => None,
    }
}

pub open spec fn instance_labels(
    places: Seq<Option<PlaceView>>,
    procs: Seq<Process>,
    members: Seq<int>,
) -> Seq<Option<Seq<char>>> {
    Seq::new(members.len(), |k: int| Some(instance_of(places, procs, members[k])))
}

pub open spec fn container_labels(places: Seq<Option<PlaceView>>, members: Seq<int>) -> Seq<
    Option<Seq<char>>,
> {
    Seq::new(members.len(), |k: int| container_of(places, members[k]))
}

/// An instance of these processes.
pub open spec fn is_instance(
    n: InstanceNode,
    key: Seq<char>,
    members: Seq<int>,
    procs: Seq<Process>,
    weights: Seq<Weight>,
) -> bool {
    &&& n.key@ == key
    &&& n.nproc == count32(members.len())
    &&& n.metrics@ == types::weight_of(picked(weights, members))
    &&& shows_all(n.processes@, procs, members, weights)
}

/// A member container of these processes.
pub open spec fn is_container(
    n: MemberContainer,
    id: Seq<char>,
    members: Seq<int>,
    procs: Seq<Process>,
    weights: Seq<Weight>,
) -> bool {
    &&& n.id@ == id
    &&& n.title@ == id
    &&& n.nproc == count32(members.len())
    &&& n.metrics@ == types::weight_of(picked(weights, members))
    &&& shows_all(n.processes@, procs, members, weights)
}

/// A row of these processes: an instance for each that they belong to, and a
/// container for each that they are in, in the order they first appear.
pub open spec fn is_row(
    n: IdentNode,
    key: Seq<char>,
    members: Seq<int>,
    places: Seq<Option<PlaceView>>,
    procs: Seq<Process>,
    weights: Seq<Weight>,
) -> bool {
    let inst = instance_labels(places, procs, members);
    let cont = container_labels(places, members);
    &&& n.id@ == key
    &&& n.title@ == key
    &&& n.nproc == count32(members.len())
    &&& n.metrics@ == types::weight_of(picked(weights, members))
    &&& n.instances@.len() == groups_of(inst).len()
    &&& forall|g: int|
        0 <= g < n.instances@.len() ==> is_instance(
            #[trigger] n.instances@[g],
            inst[groups_of(inst)[g][0]]->0,
            picked(members, groups_of(inst)[g]),
            procs,
            weights,
        )
    &&& n.containers@.len() == groups_of(cont).len()
    &&& forall|g: int|
        0 <= g < n.containers@.len() ==> is_container(
            #[trigger] n.containers@[g],
            cont[groups_of(cont)[g][0]]->0,
            picked(members, groups_of(cont)[g]),
            procs,
            weights,
        )
}

fn pick(members: &Vec<usize>, at: &Vec<usize>, Ghost(n): Ghost<int>) -> (r: Vec<usize>)
    requires
        in_order(group::ints(members@), n),
        in_order(group::ints(at@), members@.len() as int),
    ensures
        group::ints(r@) == picked(group::ints(members@), group::ints(at@)),
        in_order(group::ints(r@), n),
{
    let ghost ms = group::ints(members@);
    let ghost ps = group::ints(at@);
    let mut out: Vec<usize> = Vec::new();
    let mut k: usize = 0;
    while k < at.len()
        invariant
            k <= at@.len(),
            ms == group::ints(members@),
            ps == group::ints(at@),
            in_order(ps, members@.len() as int),
            out@.len() == k,
            forall|j: int| 0 <= j < k ==> #[trigger] group::ints(out@)[j] == ms[ps[j]],
        decreases at.len() - k,
    {
        assert(ps[k as int] == at@[k as int]);
        let ghost before = out@;
        out.push(members[at[k]]);
        proof {
            assert forall|j: int| 0 <= j < k + 1 implies #[trigger] group::ints(out@)[j] == ms[ps[j]] by {
                if j < k {
                    assert(group::ints(before)[j] == ms[ps[j]]);
                }
            }
        }
        k += 1;
    }
    proof {
        let r = group::ints(out@);
        assert(r =~= picked(ms, ps));
        assert forall|a: int, b: int| 0 <= a < b < r.len() implies #[trigger] r[a] < #[trigger] r[b] by {
            assert(ps[a] < ps[b]);
            assert(ms[ps[a]] < ms[ps[b]]);
        }
    }
    out
}

pub proof fn lemma_group_in_order<T>(labels: Seq<Option<T>>, g: int)
    requires
        0 <= g < groups_of(labels).len(),
    ensures
        in_order(groups_of(labels)[g], labels.len() as int),
{
    let f = firsts_upto(labels, labels.len() as int);
    lemma_same_in_order(labels, labels[f[g]], labels.len() as int);
}

fn instances_of(
    members: &Vec<usize>,
    places: &Vec<Option<Place>>,
    procs: &Vec<Process>,
    metrics: &Vec<Metrics>,
) -> (r: Vec<InstanceNode>)
    requires
        group::by_pid(procs@),
        in_order(group::ints(members@), procs@.len() as int),
        places@.len() == procs@.len(),
        metrics@.len() == procs@.len(),
    ensures
        ({
            let ms = group::ints(members@);
            let inst = instance_labels(walk::found_in(places@), procs@, ms);
            &&& r@.len() == groups_of(inst).len()
            &&& forall|g: int|
                0 <= g < r@.len() ==> is_instance(
                    #[trigger] r@[g],
                    inst[groups_of(inst)[g][0]]->0,
                    picked(ms, groups_of(inst)[g]),
                    procs@,
                    weights_of(metrics@),
                )
        }),
{
    let ghost ms = group::ints(members@);
    let ghost ps = walk::found_in(places@);
    let ghost inst = instance_labels(ps, procs@, ms);
    let mut labels: Vec<Option<String>> = Vec::new();
    let mut k: usize = 0;
    while k < members.len()
        invariant
            k <= members@.len(),
            ms == group::ints(members@),
            ps == walk::found_in(places@),
            inst == instance_labels(ps, procs@, ms),
            in_order(ms, procs@.len() as int),
            places@.len() == procs@.len(),
            labels@.len() == k,
            forall|j: int| 0 <= j < k ==> #[trigger] labels_of(labels@)[j] == inst[j],
        decreases members.len() - k,
    {
        assert(ms[k as int] == members@[k as int]);
        let i: usize = members[k];
        assert(ps[i as int] == place::opt_place(places@[i as int]));
        let ghost before = labels@;
        let label: String = match &places[i] {
            Some(p) => p.instance.clone(),
            None => text::joined("pid:", text::number_text(procs[i].pid as u64).as_str()),
        };
        labels.push(Some(label));
        proof {
            assert forall|j: int| 0 <= j < k + 1 implies #[trigger] labels_of(labels@)[j] == inst[j] by {
                if j < k {
                    assert(labels_of(before)[j] == inst[j]);
                }
            }
        }
        k += 1;
    }
    assert(labels_of(labels@) =~= inst);
    let gs = groups(&labels);
    let mut out: Vec<InstanceNode> = Vec::new();
    let mut g: usize = 0;
    while g < gs.len()
        invariant
            g <= gs@.len(),
            ms == group::ints(members@),
            inst == labels_of(labels@),
            inst == instance_labels(ps, procs@, ms),
            group::by_pid(procs@),
            in_order(ms, procs@.len() as int),
            metrics@.len() == procs@.len(),
            gs@.len() == groups_of(inst).len(),
            forall|h: int|
                0 <= h < gs@.len() ==> group::ints((#[trigger] gs@[h])@) == groups_of(inst)[h]
                    && gs@[h]@.len() > 0,
            out@.len() == g,
            forall|h: int|
                0 <= h < g ==> is_instance(
                    #[trigger] out@[h],
                    inst[groups_of(inst)[h][0]]->0,
                    picked(ms, groups_of(inst)[h]),
                    procs@,
                    weights_of(metrics@),
                ),
        decreases gs.len() - g,
    {
        proof {
            lemma_group_in_order(inst, g as int);
            assert(group::ints(gs@[g as int]@) == groups_of(inst)[g as int]);
            assert(group::ints(gs@[g as int]@)[0] == gs@[g as int]@[0]);
        }
        let sub = pick(members, &gs[g], Ghost(procs@.len() as int));
        let first: usize = gs[g][0];
        assert(inst[first as int] is Some);
        let key: String = match &labels[first] {
            Some(l) => l.clone(),
            None => String::new(),
        };
        out.push(
            InstanceNode {
                key,
                nproc: count_of(sub.len()),
                metrics: sum_metrics(&sub, metrics),
                processes: proc_forest(&sub, procs, metrics),
            },
        );
        g += 1;
    }
    out
}

fn containers_of(
    members: &Vec<usize>,
    places: &Vec<Option<Place>>,
    procs: &Vec<Process>,
    metrics: &Vec<Metrics>,
) -> (r: Vec<MemberContainer>)
    requires
        group::by_pid(procs@),
        in_order(group::ints(members@), procs@.len() as int),
        places@.len() == procs@.len(),
        metrics@.len() == procs@.len(),
    ensures
        ({
            let ms = group::ints(members@);
            let cont = container_labels(walk::found_in(places@), ms);
            &&& r@.len() == groups_of(cont).len()
            &&& forall|g: int|
                0 <= g < r@.len() ==> is_container(
                    #[trigger] r@[g],
                    cont[groups_of(cont)[g][0]]->0,
                    picked(ms, groups_of(cont)[g]),
                    procs@,
                    weights_of(metrics@),
                )
        }),
{
    let ghost ms = group::ints(members@);
    let ghost ps = walk::found_in(places@);
    let ghost cont = container_labels(ps, ms);
    let mut labels: Vec<Option<String>> = Vec::new();
    let mut k: usize = 0;
    while k < members.len()
        invariant
            k <= members@.len(),
            ms == group::ints(members@),
            ps == walk::found_in(places@),
            cont == container_labels(ps, ms),
            in_order(ms, procs@.len() as int),
            places@.len() == procs@.len(),
            labels@.len() == k,
            forall|j: int| 0 <= j < k ==> #[trigger] labels_of(labels@)[j] == cont[j],
        decreases members.len() - k,
    {
        assert(ms[k as int] == members@[k as int]);
        let i: usize = members[k];
        assert(ps[i as int] == place::opt_place(places@[i as int]));
        let ghost before = labels@;
        let label: Option<String> = match &places[i] {
            Some(p) => text::opt_clone(&p.member),
            None => None,
        };
        labels.push(label);
        proof {
            assert forall|j: int| 0 <= j < k + 1 implies #[trigger] labels_of(labels@)[j] == cont[j] by {
                if j < k {
                    assert(labels_of(before)[j] == cont[j]);
                }
            }
        }
        k += 1;
    }
    assert(labels_of(labels@) =~= cont);
    let gs = groups(&labels);
    let mut out: Vec<MemberContainer> = Vec::new();
    let mut g: usize = 0;
    while g < gs.len()
        invariant
            g <= gs@.len(),
            ms == group::ints(members@),
            cont == labels_of(labels@),
            cont == container_labels(ps, ms),
            group::by_pid(procs@),
            in_order(ms, procs@.len() as int),
            metrics@.len() == procs@.len(),
            gs@.len() == groups_of(cont).len(),
            forall|h: int|
                0 <= h < gs@.len() ==> group::ints((#[trigger] gs@[h])@) == groups_of(cont)[h]
                    && gs@[h]@.len() > 0 && gs@[h]@[0] == firsts_upto(cont, cont.len() as int)[h],
            out@.len() == g,
            forall|h: int|
                0 <= h < g ==> is_container(
                    #[trigger] out@[h],
                    cont[groups_of(cont)[h][0]]->0,
                    picked(ms, groups_of(cont)[h]),
                    procs@,
                    weights_of(metrics@),
                ),
        decreases gs.len() - g,
    {
        proof {
            lemma_group_in_order(cont, g as int);
            assert(group::ints(gs@[g as int]@) == groups_of(cont)[g as int]);
            assert(group::ints(gs@[g as int]@)[0] == gs@[g as int]@[0]);
            lemma_first_bound(cont, cont.len() as int, g as int);
        }
        let sub = pick(members, &gs[g], Ghost(procs@.len() as int));
        let first: usize = gs[g][0];
        assert(cont[first as int] is Some);
        let id: String = match &labels[first] {
            Some(l) => l.clone(),
            None => String::new(),
        };
        out.push(
            MemberContainer {
                title: id.clone(),
                id,
                nproc: count_of(sub.len()),
                metrics: sum_metrics(&sub, metrics),
                processes: proc_forest(&sub, procs, metrics),
            },
        );
        g += 1;
    }
    out
}

/// The row of these processes.
pub fn ident_node(
    key: &str,
    members: &Vec<usize>,
    places: &Vec<Option<Place>>,
    procs: &Vec<Process>,
    metrics: &Vec<Metrics>,
) -> (r: IdentNode)
    requires
        group::by_pid(procs@),
        in_order(group::ints(members@), procs@.len() as int),
        places@.len() == procs@.len(),
        metrics@.len() == procs@.len(),
    ensures
        is_row(
            r,
            key@,
            group::ints(members@),
            walk::found_in(places@),
            procs@,
            weights_of(metrics@),
        ),
{
    let instances = instances_of(members, places, procs, metrics);
    let containers = containers_of(members, places, procs, metrics);
    assert(group::ints(members@).len() == members@.len());
    IdentNode {
        id: key.to_owned(),
        title: key.to_owned(),
        nproc: count_of(members.len()),
        metrics: sum_metrics(members, metrics),
        instances,
        containers,
    }
}

// ---------------------------------------------------------------------------
// Laws
// ---------------------------------------------------------------------------

/// Every position with the label is among those with the label.
proof fn lemma_same_has<T>(labels: Seq<Option<T>>, x: Option<T>, n: int, i: int)
    requires
        0 <= i < n,
        labels[i] == x,
    ensures
        same_upto(labels, x, n).contains(i),
    decreases n,
{
    if i == n - 1 {
        assert(same_upto(labels, x, n).last() == i);
    } else {
        lemma_same_has(labels, x, n - 1, i);
        let s = same_upto(labels, x, n - 1);
        let k = choose|k: int| 0 <= k < s.len() && s[k] == i;
        assert(same_upto(labels, x, n)[k] == i);
    }
}

/// The group at `g` holds exactly the positions that share its label.
pub proof fn lemma_group_holds<T>(labels: Seq<Option<T>>, g: int, i: int)
    requires
        0 <= g < groups_of(labels).len(),
        0 <= i < labels.len(),
    ensures
        groups_of(labels)[g].len() > 0,
        0 <= groups_of(labels)[g][0] < labels.len(),
        labels[groups_of(labels)[g][0]] is Some,
        groups_of(labels)[g].contains(i) == (labels[i] == labels[groups_of(labels)[g][0]]),
{
    let n = labels.len() as int;
    let f = firsts_upto(labels, n);
    let x = labels[f[g]];
    let s = same_upto(labels, x, n);
    lemma_first_bound(labels, n, g);
    lemma_same_has(labels, x, n, f[g]);
    lemma_same_bound(labels, x, n, 0);
    if labels[i] == x {
        lemma_same_has(labels, x, n, i);
    }
    if s.contains(i) {
        let k = choose|k: int| 0 <= k < s.len() && s[k] == i;
        lemma_same_bound(labels, x, n, k);
    }
}

/// Grouping loses nothing and doubles nothing: what has a label is in exactly
/// one group, and what has none is in no group.
pub proof fn law_groups_divide<T>(labels: Seq<Option<T>>, i: int)
    requires
        0 <= i < labels.len(),
    ensures
        labels[i] is Some ==> exists|g: int|
            0 <= g < groups_of(labels).len() && (#[trigger] groups_of(labels)[g]).contains(i),
        forall|g: int, h: int|
            0 <= g < h < groups_of(labels).len() ==> !((#[trigger] groups_of(labels)[g]).contains(i)
                && (#[trigger] groups_of(labels)[h]).contains(i)),
        labels[i] is None ==> forall|g: int|
            0 <= g < groups_of(labels).len() ==> !(#[trigger] groups_of(labels)[g]).contains(i),
{
    let n = labels.len() as int;
    let f = firsts_upto(labels, n);
    let gs = groups_of(labels);
    if labels[i] is Some {
        let g = lemma_has_first(labels, n, i);
        lemma_same_has(labels, labels[f[g]], n, i);
        assert(gs[g].contains(i));
    } else {
        assert forall|g: int| 0 <= g < gs.len() implies !(#[trigger] gs[g]).contains(i) by {
            lemma_group_holds(labels, g, i);
        }
    }
    assert forall|g: int, h: int| 0 <= g < h < gs.len() implies !((#[trigger] gs[g]).contains(i)
        && (#[trigger] gs[h]).contains(i)) by {
        if gs[g].contains(i) && gs[h].contains(i) {
            let a = choose|k: int| 0 <= k < gs[g].len() && gs[g][k] == i;
            let b = choose|k: int| 0 <= k < gs[h].len() && gs[h][k] == i;
            lemma_same_bound(labels, labels[f[g]], n, a);
            lemma_same_bound(labels, labels[f[h]], n, b);
            lemma_firsts_differ(labels, n, g, h);
        }
    }
}

/// Within a row every process is in exactly one instance.
pub proof fn law_every_member_is_in_one_instance(
    places: Seq<Option<PlaceView>>,
    procs: Seq<Process>,
    members: Seq<int>,
    k: int,
)
    requires
        0 <= k < members.len(),
    ensures
        ({
            let gs = groups_of(instance_labels(places, procs, members));
            &&& exists|g: int| 0 <= g < gs.len() && (#[trigger] gs[g]).contains(k)
            &&& forall|g: int, h: int|
                0 <= g < h < gs.len() ==> !((#[trigger] gs[g]).contains(k) && (
                #[trigger] gs[h]).contains(k))
        }),
{
    law_groups_divide(instance_labels(places, procs, members), k);
}

} // verus!
