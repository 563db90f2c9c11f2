//! Processes as a forest: each under its parent, no deeper than a bound.
use vstd::prelude::*;

use crate::group::ints;
use crate::group;

verus! {

/// The deepest a node nests, a root being at depth one. A node above the
/// deepest level takes all of its descendants as its children, so that none is
/// lost and no reader nests further.
pub const MAX_PROC_DEPTH: usize = 48;

// ---------------------------------------------------------------------------
// Families
// ---------------------------------------------------------------------------

/// The parent of each member, where that is a member too.
pub type Parents = Seq<Option<int>>;

/// Every parent is a member.
pub open spec fn closed_family(par: Parents) -> bool {
    forall|j: int|
        0 <= j < par.len() ==> (#[trigger] par[j] matches Some(p) ==> 0 <= p < par.len())
}

/// The ancestor `k` steps up.
pub open spec fn up(par: Parents, j: int, k: nat) -> Option<int>
    decreases k,
{
    if k == 0 {
        Some(j)
    } else {
        match up(par, j, (k - 1) as nat) {
            Some(x) => par[x],
            None => None,
        }
    }
}

/// `i` is an ancestor of `j`.
pub open spec fn below(par: Parents, i: int, j: int) -> bool {
    exists|k: nat| k >= 1 && #[trigger] up(par, j, k) == Some(i)
}

/// The children of `i` among the first `n` members, in order.
pub open spec fn kids_upto(par: Parents, i: int, n: int) -> Seq<int>
    decreases n,
{
    if n <= 0 {
        Seq::empty()
    } else if par[n - 1] == Some(i) {
        kids_upto(par, i, n - 1).push(n - 1)
    } else {
        kids_upto(par, i, n - 1)
    }
}

/// The descendants of `i` among the first `n` members, in order.
pub open spec fn below_upto(par: Parents, i: int, n: int) -> Seq<int>
    decreases n,
{
    if n <= 0 {
        Seq::empty()
    } else if below(par, i, n - 1) {
        below_upto(par, i, n - 1).push(n - 1)
    } else {
        below_upto(par, i, n - 1)
    }
}

/// The members without a parent among the first `n`, in order.
pub open spec fn roots_upto(par: Parents, n: int) -> Seq<int>
    decreases n,
{
    if n <= 0 {
        Seq::empty()
    } else if par[n - 1] is None {
        roots_upto(par, n - 1).push(n - 1)
    } else {
        roots_upto(par, n - 1)
    }
}

/// A member with what stands under it.
pub struct Node {
    pub at: int,
    pub children: Seq<Node>,
}

/// What stands directly under `i` at a depth: its children, just above the
/// deepest level all of its descendants, at the deepest nothing.
pub open spec fn shown_under(par: Parents, i: int, depth: int) -> Seq<int> {
    if depth + 1 < 48 {
        kids_upto(par, i, par.len() as int)
    } else if depth + 1 == 48 {
        below_upto(par, i, par.len() as int)
    } else {
        Seq::empty()
    }
}

/// The member `i` with what stands under it.
pub open spec fn node(par: Parents, i: int, depth: int) -> Node
    decreases 48 - depth,
{
    if depth >= 48 {
        Node { at: i, children: Seq::empty() }
    } else {
        let under = shown_under(par, i, depth);
        Node { at: i, children: Seq::new(under.len(), |k: int| node(par, under[k], depth + 1)) }
    }
}

/// The whole family: every root with what stands under it.
pub open spec fn forest(par: Parents) -> Seq<Node> {
    let roots = roots_upto(par, par.len() as int);
    Seq::new(roots.len(), |k: int| node(par, roots[k], 1))
}

// ---------------------------------------------------------------------------
// Finding what stands under a member
// ---------------------------------------------------------------------------

/// The parents as integers.
pub open spec fn parents_of(v: Seq<Option<usize>>) -> Parents {
    Seq::new(
        v.len(),
        |k: int|
            match v[k] {
                Some(p) => Some(p as int),
                None => None,
            },
    )
}

/// The children of every member.
pub fn kids_all(par: &Vec<Option<usize>>) -> (r: Vec<Vec<usize>>)
    requires
        closed_family(parents_of(par@)),
    ensures
        r@.len() == par@.len(),
        forall|i: int|
            0 <= i < par@.len() ==> ints((#[trigger] r@[i])@) == kids_upto(
                parents_of(par@),
                i,
                par@.len() as int,
            ),
{
    let ghost ps = parents_of(par@);
    let mut out: Vec<Vec<usize>> = Vec::new();
    let mut i: usize = 0;
    while i < par.len()
        invariant
            i <= par.len(),
            out@.len() == i,
            forall|j: int| 0 <= j < i ==> (#[trigger] out@[j])@.len() == 0,
        decreases par.len() - i,
    {
        out.push(Vec::new());
        i += 1;
    }
    assert forall|j: int| 0 <= j < par@.len() implies ints((#[trigger] out@[j])@) == kids_upto(
        ps,
        j,
        0,
    ) by {
        assert(ints(out@[j]@) =~= Seq::<int>::empty());
    }
    let mut n: usize = 0;
    while n < par.len()
        invariant
            n <= par.len(),
            ps == parents_of(par@),
            closed_family(ps),
            out@.len() == par@.len(),
            forall|j: int|
                0 <= j < par@.len() ==> ints((#[trigger] out@[j])@) == kids_upto(
                    ps,
                    j,
                    n as int,
                ),
        decreases par.len() - n,
    {
        let ghost before = out@;
        assert(ps[n as int] matches Some(p) ==> 0 <= p < ps.len());
        if let Some(k) = par[n] {
            assert(ps[n as int] == Some(k as int));
            let mut kids: Vec<usize> = Vec::new();
            std::mem::swap(&mut kids, &mut out[k]);
            kids.push(n);
            proof {
                assert(ints(kids@) =~= ints(before[k as int]@).push(n as int));
            }
            out.set(k, kids);
            proof {
                assert forall|j: int| 0 <= j < par@.len() implies ints((#[trigger] out@[j])@)
                    == kids_upto(ps, j, n + 1) by {
                    if j != k {
                        assert(out@[j] == before[j]);
                    } else {
                        assert(ints(before[j]@) == kids_upto(ps, j, n as int));
                    }
                }
            }
        } else {
            assert(ps[n as int] is None);
        }
        n += 1;
    }
    out
}

pub proof fn lemma_kids(par: Parents, i: int, n: int, c: int)
    requires
        0 <= n <= par.len(),
    ensures
        kids_upto(par, i, n).contains(c) <==> 0 <= c < n && par[c] == Some(i),
    decreases n,
{
    let ks = kids_upto(par, i, n);
    if n > 0 {
        let before = kids_upto(par, i, n - 1);
        lemma_kids(par, i, n - 1, c);
        if par[n - 1] == Some(i) {
            assert(ks == before.push(n - 1));
            if before.contains(c) {
                let w = choose|w: int| 0 <= w < before.len() && before[w] == c;
                assert(ks[w] == c);
            }
            if c == n - 1 {
                assert(ks[ks.len() - 1] == c);
            }
            if ks.contains(c) && c != n - 1 {
                let w = choose|w: int| 0 <= w < ks.len() && ks[w] == c;
                assert(w < before.len());
                assert(before[w] == c);
            }
        }
    }
}

/// One step more at the bottom is one step more at the top.
pub proof fn lemma_up_shift(par: Parents, j: int, k: nat)
    requires
        par[j] is Some,
    ensures
        up(par, j, k + 1) == up(par, par[j]->0, k),
    decreases k,
{
    if k == 0 {
        assert(up(par, j, 0) == Some(j));
    } else {
        lemma_up_shift(par, j, (k - 1) as nat);
    }
}

proof fn lemma_up_none(par: Parents, j: int, k: nat)
    requires
        par[j] is None,
        k >= 1,
    ensures
        up(par, j, k) is None,
    decreases k,
{
    if k == 1 {
        assert(up(par, j, 0) == Some(j));
    } else {
        lemma_up_none(par, j, (k - 1) as nat);
    }
}

/// What stands below `i` is its children and what stands below them.
pub proof fn lemma_below_step(par: Parents, i: int, j: int)
    ensures
        below(par, i, j) <==> par[j] is Some && (par[j]->0 == i || below(par, i, par[j]->0)),
{
    if below(par, i, j) {
        let k = choose|k: nat| k >= 1 && #[trigger] up(par, j, k) == Some(i);
        if par[j] is None {
            lemma_up_none(par, j, k);
        } else {
            lemma_up_shift(par, j, (k - 1) as nat);
            if k == 1 {
                assert(up(par, par[j]->0, 0) == Some(par[j]->0));
            } else {
                assert(up(par, par[j]->0, (k - 1) as nat) == Some(i));
            }
        }
    }
    if par[j] is Some {
        if par[j]->0 == i {
            assert(up(par, j, 0) == Some(j));
            assert(up(par, j, 1) == Some(i));
        }
        if below(par, i, par[j]->0) {
            let k = choose|k: nat| k >= 1 && #[trigger] up(par, par[j]->0, k) == Some(i);
            lemma_up_shift(par, j, k);
            assert(up(par, j, k + 1) == Some(i));
        }
    }
}

/// A set that holds the children of `i` and of each of its own members holds
/// everything below `i`.
proof fn lemma_closed_holds_all(par: Parents, i: int, seen: Seq<bool>, j: int, k: nat)
    requires
        closed_family(par),
        seen.len() == par.len(),
        0 <= j < par.len(),
        k >= 1,
        up(par, j, k) == Some(i),
        forall|c: int|
            0 <= c < par.len() && (#[trigger] par[c]) is Some && (par[c]->0 == i || seen[par[c]->0])
                ==> seen[c],
    ensures
        seen[j],
    decreases k,
{
    if par[j] is None {
        lemma_up_none(par, j, k);
    } else {
        let p = par[j]->0;
        lemma_up_shift(par, j, (k - 1) as nat);
        if k == 1 {
            assert(up(par, p, 0) == Some(p));
        } else {
            lemma_closed_holds_all(par, i, seen, p, (k - 1) as nat);
        }
    }
}

/// How many are not marked yet.
spec fn unmarked(seen: Seq<bool>, n: int) -> nat
    decreases n,
{
    if n <= 0 {
        0
    } else {
        unmarked(seen, n - 1) + if seen[n - 1] {
            0nat
        } else {
            1nat
        }
    }
}

proof fn lemma_mark(seen: Seq<bool>, c: int, n: int)
    requires
        0 <= c < seen.len(),
        0 <= n <= seen.len(),
        !seen[c],
    ensures
        unmarked(seen.update(c, true), n) == unmarked(seen, n) - if c < n {
            1int
        } else {
            0
        },
    decreases n,
{
    if n > 0 {
        lemma_mark(seen, c, n - 1);
    }
}

/// Everything below `i`, in order, found with a stack of its own so that a
/// chain of any length costs no call depth.
pub(crate) fn descendants(i: usize, kids: &Vec<Vec<usize>>, Ghost(par): Ghost<Parents>) -> (r: Vec<usize>)
    requires
        closed_family(par),
        kids@.len() == par.len(),
        i < par.len(),
        forall|k: int|
            0 <= k < par.len() ==> ints((#[trigger] kids@[k])@) == kids_upto(
                par,
                k,
                par.len() as int,
            ),
    ensures
        ints(r@) == below_upto(par, i as int, par.len() as int),
{
    let n: usize = kids.len();
    let mut seen: Vec<bool> = Vec::new();
    let mut j: usize = 0;
    while j < n
        invariant
            j <= n,
            seen@.len() == j,
            forall|x: int| 0 <= x < j ==> !(#[trigger] seen@[x]),
        decreases n - j,
    {
        seen.push(false);
        j += 1;
    }
    let mut stack: Vec<usize> = Vec::new();
    push_all(&mut stack, &kids[i]);
    proof {
        assert forall|x: int| 0 <= x < stack@.len() implies (#[trigger] stack@[x]) < n && below(
            par,
            i as int,
            stack@[x] as int,
        ) by {
            let c = stack@[x] as int;
            assert(ints(kids@[i as int]@)[x] == c);
            lemma_kids(par, i as int, par.len() as int, c);
            assert(kids_upto(par, i as int, par.len() as int).contains(c));
            lemma_below_step(par, i as int, c);
        }
        assert forall|c: int|
            0 <= c < par.len() && (#[trigger] par[c]) is Some && par[c]->0
                == i implies seen@[c] || on_stack(stack@, c) by {
            lemma_kids(par, i as int, par.len() as int, c);
            let ks = kids_upto(par, i as int, par.len() as int);
            assert(ks.contains(c));
            let x = choose|x: int| 0 <= x < ks.len() && ks[x] == c;
            assert(ints(kids@[i as int]@)[x] == c);
            assert(stack@[x] == c);
        }
    }
    while stack.len() > 0
        invariant
            closed_family(par),
            n == par.len(),
            kids@.len() == n,
            i < n,
            seen@.len() == n,
            forall|k: int|
                0 <= k < par.len() ==> ints((#[trigger] kids@[k])@) == kids_upto(
                    par,
                    k,
                    par.len() as int,
                ),
            forall|x: int|
                0 <= x < stack@.len() ==> (#[trigger] stack@[x]) < n && below(
                    par,
                    i as int,
                    stack@[x] as int,
                ),
            forall|c: int| 0 <= c < n && #[trigger] seen@[c] ==> below(par, i as int, c),
            forall|c: int|
                0 <= c < par.len() && (#[trigger] par[c]) is Some && (par[c]->0 == i
                    || seen@[par[c]->0]) ==> seen@[c] || on_stack(stack@, c),
        decreases unmarked(seen@, n as int), stack.len(),
    {
        let ghost before = stack@;
        let c: usize = stack[stack.len() - 1];
        assert(c < n && below(par, i as int, c as int));
        stack.pop();
        assert(before =~= stack@.push(c));
        if !seen[c] {
            let ghost marks = seen@;
            proof {
                lemma_mark(marks, c as int, n as int);
            }
            seen.set(c, true);
            let ghost rest = stack@;
            push_all(&mut stack, &kids[c]);
            proof {
                assert forall|x: int| 0 <= x < stack@.len() implies (#[trigger] stack@[x]) < n
                    && below(par, i as int, stack@[x] as int) by {
                    if x < rest.len() {
                        assert(stack@[x] == rest[x]);
                        assert(before[x] == rest[x]);
                    } else {
                        let y = x - rest.len();
                        let d = stack@[x] as int;
                        assert(stack@[x] == kids@[c as int]@[y]);
                        assert(ints(kids@[c as int]@)[y] == d);
                        lemma_kids(par, c as int, par.len() as int, d);
                        assert(kids_upto(par, c as int, par.len() as int).contains(d));
                        lemma_below_step(par, i as int, d);
                    }
                }
                assert forall|d: int|
                    0 <= d < par.len() && (#[trigger] par[d]) is Some && (par[d]->0 == i
                        || seen@[par[d]->0]) implies seen@[d] || on_stack(stack@, d) by {
                    if par[d]->0 == c {
                        lemma_kids(par, c as int, par.len() as int, d);
                        let ks = kids_upto(par, c as int, par.len() as int);
                        assert(ks.contains(d));
                        let y = choose|y: int| 0 <= y < ks.len() && ks[y] == d;
                        assert(ints(kids@[c as int]@)[y] == d);
                        assert(stack@[rest.len() + y] == d);
                    } else {
                        assert(marks[d] || on_stack(before, d));
                        if !marks[d] && d != c {
                            let x = choose|x: int|
                                0 <= x < before.len() && #[trigger] before[x] == d;
                            assert(rest[x] == d);
                            assert(stack@[x] == d);
                        }
                    }
                }
            }
        } else {
            proof {
                assert forall|x: int| 0 <= x < stack@.len() implies (#[trigger] stack@[x]) < n
                    && below(par, i as int, stack@[x] as int) by {
                    assert(before[x] == stack@[x]);
                }
                assert forall|d: int|
                    0 <= d < par.len() && (#[trigger] par[d]) is Some && (par[d]->0 == i
                        || seen@[par[d]->0]) implies seen@[d] || on_stack(stack@, d) by {
                    if !seen@[d] {
                        let x = choose|x: int|
                            0 <= x < before.len() && #[trigger] before[x] == d;
                        assert(stack@[x] == d);
                    }
                }
            }
        }
    }
    let mut out: Vec<usize> = Vec::new();
    let mut j: usize = 0;
    assert(ints(out@) =~= Seq::<int>::empty());
    proof {
        assert forall|d: int| 0 <= d < n implies #[trigger] seen@[d] == below(
            par,
            i as int,
            d,
        ) by {
            if below(par, i as int, d) {
                let k = choose|k: nat| k >= 1 && #[trigger] up(par, d, k) == Some(i as int);
                lemma_closed_holds_all(par, i as int, seen@, d, k);
            }
        }
    }
    while j < n
        invariant
            j <= n,
            n == par.len(),
            seen@.len() == n,
            forall|d: int| 0 <= d < n ==> #[trigger] seen@[d] == below(par, i as int, d),
            ints(out@) == below_upto(par, i as int, j as int),
        decreases n - j,
    {
        if seen[j] {
            let ghost before = ints(out@);
            out.push(j);
            assert(ints(out@) =~= before.push(j as int));
        }
        j += 1;
    }
    out
}

spec fn on_stack(stack: Seq<usize>, c: int) -> bool {
    exists|x: int| 0 <= x < stack.len() && #[trigger] stack[x] == c
}

fn push_all(stack: &mut Vec<usize>, v: &Vec<usize>)
    ensures
        final(stack)@ == old(stack)@ + v@,
{
    let mut k: usize = 0;
    assert(old(stack)@ + v@.take(0) =~= old(stack)@);
    while k < v.len()
        invariant
            k <= v.len(),
            stack@ == old(stack)@ + v@.take(k as int),
        decreases v.len() - k,
    {
        stack.push(v[k]);
        k += 1;
        assert(old(stack)@ + v@.take(k as int) =~= (old(stack)@ + v@.take(k - 1)).push(v@[k - 1]));
    }
    assert(v@.take(k as int) =~= v@);
}

// ---------------------------------------------------------------------------
// Laws
// ---------------------------------------------------------------------------

/// Some ancestor of `j`, or `j` itself, has no parent.
pub open spec fn rooted(par: Parents, j: int) -> bool {
    exists|k: nat| #[trigger] up(par, j, k) matches Some(r) && par[r] is None
}

/// The members in a node, itself first.
pub open spec fn flat(n: Node) -> Seq<int>
    decreases n,
{
    seq![n.at] + flat_all(n.children)
}

/// The members in several nodes.
pub open spec fn flat_all(v: Seq<Node>) -> Seq<int>
    decreases v,
{
    if v.len() == 0 {
        Seq::empty()
    } else {
        flat(v[0]) + flat_all(v.drop_first())
    }
}

/// The nodes nest no deeper than `d`.
pub open spec fn nests_within(v: Seq<Node>, d: int) -> bool
    decreases v,
{
    v.len() > 0 ==> d > 0 && forall|k: int|
        0 <= k < v.len() ==> nests_within((#[trigger] v[k]).children, d - 1)
}

proof fn lemma_up_compose(par: Parents, j: int, a: nat, b: nat)
    requires
        up(par, j, a) is Some,
    ensures
        up(par, j, a + b) == up(par, up(par, j, a)->0, b),
    decreases b,
{
    if b > 0 {
        lemma_up_compose(par, j, a, (b - 1) as nat);
        assert((a + b - 1) as nat == a + (b - 1) as nat);
    }
}

proof fn lemma_up_stays_none(par: Parents, j: int, a: nat, b: nat)
    requires
        up(par, j, a) is None,
        a <= b,
    ensures
        up(par, j, b) is None,
    decreases b,
{
    if a < b {
        lemma_up_stays_none(par, j, a, (b - 1) as nat);
    }
}

proof fn lemma_cycle_never_ends(par: Parents, i: int, m: nat, t: nat)
    requires
        m >= 1,
        up(par, i, m) == Some(i),
    ensures
        up(par, i, t) is Some,
    decreases t,
{
    if t < m {
        if up(par, i, t) is None {
            lemma_up_stays_none(par, i, t, m);
        }
    } else {
        lemma_up_compose(par, i, m, (t - m) as nat);
        lemma_cycle_never_ends(par, i, m, (t - m) as nat);
    }
}

/// A member under a root is not its own ancestor.
proof fn lemma_rooted_acyclic(par: Parents, i: int)
    requires
        rooted(par, i),
    ensures
        !below(par, i, i),
{
    if below(par, i, i) {
        let m = choose|k: nat| k >= 1 && #[trigger] up(par, i, k) == Some(i);
        let k = choose|k: nat| #[trigger] up(par, i, k) matches Some(r) && par[r] is None;
        lemma_cycle_never_ends(par, i, m, k + 1);
        assert(up(par, i, k + 1) is None);
    }
}

/// `j` is `i` or stands below it.
spec fn at_or_below(par: Parents, i: int, j: int) -> bool {
    exists|k: nat| #[trigger] up(par, j, k) == Some(i)
}

proof fn lemma_at_or_below(par: Parents, i: int, j: int)
    ensures
        at_or_below(par, i, j) <==> (j == i || below(par, i, j)),
{
    if at_or_below(par, i, j) {
        let k = choose|k: nat| #[trigger] up(par, j, k) == Some(i);
        if k == 0 {
            assert(up(par, j, 0) == Some(j));
        }
    }
    if j == i {
        assert(up(par, j, 0) == Some(i));
    }
}

/// Two children of one member have nothing in common below them.
proof fn lemma_kids_apart(par: Parents, i: int, c: int, d: int, x: int)
    requires
        par[c] == Some(i),
        par[d] == Some(i),
        !below(par, i, i),
        at_or_below(par, c, x),
        at_or_below(par, d, x),
    ensures
        c == d,
{
    let a = choose|k: nat| #[trigger] up(par, x, k) == Some(c);
    let b = choose|k: nat| #[trigger] up(par, x, k) == Some(d);
    if a < b {
        lemma_loop(par, i, c, d, x, a, b);
    } else if b < a {
        lemma_loop(par, i, d, c, x, b, a);
    }
}

proof fn lemma_loop(par: Parents, i: int, c: int, d: int, x: int, a: nat, b: nat)
    requires
        par[c] == Some(i),
        par[d] == Some(i),
        up(par, x, a) == Some(c),
        up(par, x, b) == Some(d),
        a < b,
    ensures
        below(par, i, i),
{
    let s = (b - a) as nat;
    lemma_up_compose(par, x, a, s);
    assert(up(par, c, s) == Some(d));
    assert(up(par, c, 0) == Some(c));
    assert(up(par, c, 1) == Some(i));
    lemma_up_compose(par, c, 1, (s - 1) as nat);
    assert(up(par, i, (s - 1) as nat) == Some(d));
    assert(up(par, i, s) == par[d]);
}

proof fn lemma_kid_rooted(par: Parents, i: int, c: int)
    requires
        rooted(par, i),
        par[c] == Some(i),
    ensures
        rooted(par, c),
{
    let k = choose|k: nat| #[trigger] up(par, i, k) matches Some(r) && par[r] is None;
    lemma_up_shift(par, c, k);
    assert(up(par, c, k + 1) == up(par, i, k));
}

proof fn lemma_below_at(par: Parents, i: int, n: int, x: int)
    requires
        0 <= n <= par.len(),
    ensures
        below_upto(par, i, n).contains(x) <==> (0 <= x < n && below(par, i, x)),
    decreases n,
{
    if n > 0 {
        lemma_below_at(par, i, n - 1, x);
        lemma_push_contains(below_upto(par, i, n - 1), n - 1, x);
    }
}

proof fn lemma_below_list(par: Parents, i: int, n: int)
    requires
        0 <= n <= par.len(),
    ensures
        below_upto(par, i, n).no_duplicates(),
    decreases n,
{
    if n > 0 {
        lemma_below_list(par, i, n - 1);
        lemma_below_at(par, i, n - 1, n - 1);
        lemma_push_distinct(below_upto(par, i, n - 1), n - 1);
    }
}

proof fn lemma_kids_list(par: Parents, i: int, n: int)
    requires
        0 <= n <= par.len(),
    ensures
        kids_upto(par, i, n).no_duplicates(),
    decreases n,
{
    if n > 0 {
        lemma_kids_list(par, i, n - 1);
        lemma_kids(par, i, n - 1, n - 1);
        lemma_push_distinct(kids_upto(par, i, n - 1), n - 1);
    }
}

proof fn lemma_roots_at(par: Parents, n: int, x: int)
    requires
        0 <= n <= par.len(),
    ensures
        roots_upto(par, n).contains(x) <==> (0 <= x < n && par[x] is None),
    decreases n,
{
    if n > 0 {
        lemma_roots_at(par, n - 1, x);
        lemma_push_contains(roots_upto(par, n - 1), n - 1, x);
    }
}

proof fn lemma_roots_list(par: Parents, n: int)
    requires
        0 <= n <= par.len(),
    ensures
        roots_upto(par, n).no_duplicates(),
    decreases n,
{
    if n > 0 {
        lemma_roots_list(par, n - 1);
        lemma_roots_at(par, n - 1, n - 1);
        lemma_push_distinct(roots_upto(par, n - 1), n - 1);
    }
}

proof fn lemma_push_contains(v: Seq<int>, y: int, x: int)
    ensures
        v.push(y).contains(x) <==> (v.contains(x) || x == y),
{
    let w = v.push(y);
    if v.contains(x) {
        let k = choose|k: int| 0 <= k < v.len() && v[k] == x;
        assert(w[k] == x);
    }
    assert(w[v.len() as int] == y);
    if w.contains(x) && x != y {
        let k = choose|k: int| 0 <= k < w.len() && w[k] == x;
        assert(v[k] == x);
    }
}

proof fn lemma_push_distinct(v: Seq<int>, y: int)
    requires
        v.no_duplicates(),
        !v.contains(y),
    ensures
        v.push(y).no_duplicates(),
{
    let w = v.push(y);
    assert forall|a: int, b: int| 0 <= a < w.len() && 0 <= b < w.len() && a != b implies w[a]
        != w[b] by {
        if a < v.len() && b < v.len() {
            assert(v[a] != v[b]);
        } else if a < v.len() {
            assert(v[a] == w[a]);
        } else {
            assert(v[b] == w[b]);
        }
    }
}

proof fn lemma_concat(a: Seq<int>, b: Seq<int>, x: int)
    ensures
        (a + b).contains(x) <==> (a.contains(x) || b.contains(x)),
{
    let c = a + b;
    if a.contains(x) {
        let k = choose|k: int| 0 <= k < a.len() && a[k] == x;
        assert(c[k] == x);
    }
    if b.contains(x) {
        let k = choose|k: int| 0 <= k < b.len() && b[k] == x;
        assert(c[a.len() + k] == x);
    }
    if c.contains(x) {
        let k = choose|k: int| 0 <= k < c.len() && c[k] == x;
        if k < a.len() {
            assert(a[k] == x);
        } else {
            assert(b[k - a.len()] == x);
        }
    }
}

proof fn lemma_concat_distinct(a: Seq<int>, b: Seq<int>)
    requires
        a.no_duplicates(),
        b.no_duplicates(),
        forall|x: int| !(#[trigger] a.contains(x) && b.contains(x)),
    ensures
        (a + b).no_duplicates(),
{
    let c = a + b;
    assert forall|p: int, q: int| 0 <= p < c.len() && 0 <= q < c.len() && p != q implies c[p]
        != c[q] by {
        let n = a.len() as int;
        if p < n && q < n {
            assert(a[p] != a[q]);
        } else if p >= n && q >= n {
            assert(b[p - n] != b[q - n]);
        } else if p < n {
            assert(a.contains(a[p]));
            assert(b[q - n] == c[q]);
            if c[p] == c[q] {
                assert(b.contains(c[p]));
            }
        } else {
            assert(a.contains(a[q]));
            assert(b[p - n] == c[p]);
            if c[p] == c[q] {
                assert(b.contains(c[q]));
            }
        }
    }
}

/// Nodes without a repetition and without anything in common flatten to a list
/// without a repetition that holds what they hold.
proof fn lemma_flat_all(v: Seq<Node>)
    requires
        forall|k: int| 0 <= k < v.len() ==> flat(#[trigger] v[k]).no_duplicates(),
        forall|k: int, l: int, x: int|
            0 <= k < v.len() && 0 <= l < v.len() && k != l ==> !(#[trigger] flat(v[k]).contains(x)
                && #[trigger] flat(v[l]).contains(x)),
    ensures
        flat_all(v).no_duplicates(),
        forall|x: int| #[trigger]
            flat_all(v).contains(x) <==> exists|k: int|
                0 <= k < v.len() && #[trigger] flat(v[k]).contains(x),
    decreases v.len(),
{
    if v.len() > 0 {
        let t = v.drop_first();
        assert forall|k: int| 0 <= k < t.len() implies flat(#[trigger] t[k]).no_duplicates() by {
            assert(t[k] == v[k + 1]);
        }
        assert forall|k: int, l: int, x: int|
            0 <= k < t.len() && 0 <= l < t.len() && k != l implies !(#[trigger] flat(t[k]).contains(
            x,
        ) && #[trigger] flat(t[l]).contains(x)) by {
            assert(t[k] == v[k + 1] && t[l] == v[l + 1]);
            assert(!(flat(v[k + 1]).contains(x) && flat(v[l + 1]).contains(x)));
        }
        lemma_flat_all(t);
        assert forall|x: int| !(#[trigger] flat(v[0]).contains(x) && flat_all(t).contains(x)) by {
            if flat(v[0]).contains(x) && flat_all(t).contains(x) {
                let k = choose|k: int| 0 <= k < t.len() && #[trigger] flat(t[k]).contains(x);
                assert(flat(v[k + 1]).contains(x));
            }
        }
        lemma_concat_distinct(flat(v[0]), flat_all(t));
        assert forall|x: int| #[trigger]
            flat_all(v).contains(x) <==> exists|k: int|
                0 <= k < v.len() && #[trigger] flat(v[k]).contains(x) by {
            lemma_concat(flat(v[0]), flat_all(t), x);
            if flat_all(t).contains(x) {
                let k = choose|k: int| 0 <= k < t.len() && #[trigger] flat(t[k]).contains(x);
                assert(flat(v[k + 1]).contains(x));
            }
            if exists|k: int| 0 <= k < v.len() && #[trigger] flat(v[k]).contains(x) {
                let k = choose|k: int| 0 <= k < v.len() && #[trigger] flat(v[k]).contains(x);
                if k > 0 {
                    assert(t[k - 1] == v[k]);
                    assert(flat(t[k - 1]).contains(x));
                }
            }
        }
    }
}

proof fn lemma_leaf_flat(par: Parents, i: int)
    ensures
        flat(node(par, i, 48)) == seq![i],
{
    let n = node(par, i, 48);
    assert(flat_all(n.children) =~= Seq::<int>::empty());
    assert(flat(n) =~= seq![i]);
}

/// A node above the deepest level holds its member and everything below it,
/// each once.
proof fn lemma_node_flat(par: Parents, i: int, depth: int)
    requires
        closed_family(par),
        0 <= i < par.len(),
        rooted(par, i),
        1 <= depth < 48,
    ensures
        flat(node(par, i, depth)).no_duplicates(),
        forall|x: int| #![trigger flat(node(par, i, depth)).contains(x)]
            #![trigger at_or_below(par, i, x)]
            flat(node(par, i, depth)).contains(x) <==> (0 <= x < par.len() && at_or_below(
                par,
                i,
                x,
            )),
    decreases 48 - depth,
{
    lemma_rooted_acyclic(par, i);
    let n = node(par, i, depth);
    let under = shown_under(par, i, depth);
    let v = n.children;
    assert(v.len() == under.len());
    if depth == 47 {
        lemma_below_list(par, i, par.len() as int);
        assert forall|k: int| 0 <= k < v.len() implies flat(#[trigger] v[k]) == seq![under[k]] by {
            lemma_leaf_flat(par, under[k]);
        }
        assert forall|k: int, l: int, x: int|
            0 <= k < v.len() && 0 <= l < v.len() && k != l implies !(#[trigger] flat(v[k]).contains(
            x,
        ) && #[trigger] flat(v[l]).contains(x)) by {
            assert(under[k] != under[l]);
        }
        lemma_flat_all(v);
        assert forall|x: int| #[trigger]
            flat_all(v).contains(x) <==> (0 <= x < par.len() && below(par, i, x)) by {
            if flat_all(v).contains(x) {
                let k = choose|k: int| 0 <= k < v.len() && #[trigger] flat(v[k]).contains(x);
                assert(flat(v[k]) == seq![under[k]]);
                assert(under[k] == x);
                assert(under.contains(x));
                lemma_below_at(par, i, par.len() as int, x);
            }
            if 0 <= x < par.len() && below(par, i, x) {
                lemma_below_at(par, i, par.len() as int, x);
                assert(under.contains(x));
                let k = choose|k: int| 0 <= k < under.len() && under[k] == x;
                assert(flat(v[k]) == seq![under[k]]);
                assert(flat(v[k])[0] == x);
                assert(flat(v[k]).contains(x));
            }
        }
    } else {
        lemma_kids_list(par, i, par.len() as int);
        assert forall|k: int| 0 <= k < v.len() implies par[under[k]] == Some(i) && 0 <= #[trigger] under[k]
            < par.len() by {
            lemma_kids(par, i, par.len() as int, under[k]);
            assert(under.contains(under[k]));
        }
        assert forall|k: int| 0 <= k < v.len() implies flat(#[trigger] v[k]).no_duplicates() by {
            assert(0 <= under[k] < par.len());
            lemma_kid_rooted(par, i, under[k]);
            lemma_node_flat(par, under[k], depth + 1);
        }
        assert forall|k: int, l: int, x: int|
            0 <= k < v.len() && 0 <= l < v.len() && k != l implies !(#[trigger] flat(v[k]).contains(
            x,
        ) && #[trigger] flat(v[l]).contains(x)) by {
            assert(0 <= under[k] < par.len() && 0 <= under[l] < par.len());
            lemma_kid_rooted(par, i, under[k]);
            lemma_kid_rooted(par, i, under[l]);
            lemma_node_flat(par, under[k], depth + 1);
            lemma_node_flat(par, under[l], depth + 1);
            if flat(v[k]).contains(x) && flat(v[l]).contains(x) {
                assert(at_or_below(par, under[k], x));
                assert(at_or_below(par, under[l], x));
                lemma_kids_apart(par, i, under[k], under[l], x);
                assert(under[k] != under[l]);
            }
        }
        lemma_flat_all(v);
        assert forall|x: int| #[trigger]
            flat_all(v).contains(x) <==> (0 <= x < par.len() && below(par, i, x)) by {
            if flat_all(v).contains(x) {
                let k = choose|k: int| 0 <= k < v.len() && #[trigger] flat(v[k]).contains(x);
                assert(0 <= under[k] < par.len());
                lemma_kid_rooted(par, i, under[k]);
                lemma_node_flat(par, under[k], depth + 1);
                assert(at_or_below(par, under[k], x));
                let m = choose|m: nat| #[trigger] up(par, x, m) == Some(under[k]);
                assert(up(par, x, m + 1) == Some(i));
            }
            if 0 <= x < par.len() && below(par, i, x) {
                let m = choose|m: nat| m >= 1 && #[trigger] up(par, x, m) == Some(i);
                let c = up(par, x, (m - 1) as nat)->0;
                lemma_up_in_family(par, x, (m - 1) as nat);
                assert(par[c] == Some(i));
                lemma_kids(par, i, par.len() as int, c);
                assert(under.contains(c));
                let k = choose|k: int| 0 <= k < under.len() && under[k] == c;
                lemma_kid_rooted(par, i, c);
                lemma_node_flat(par, c, depth + 1);
                assert(at_or_below(par, c, x));
                assert(flat(v[k]).contains(x));
            }
        }
    }
    let head = seq![i];
    assert(head.no_duplicates());
    assert forall|x: int| !(#[trigger] head.contains(x) && flat_all(v).contains(x)) by {
        if head.contains(x) {
            assert(x == i);
        }
    }
    lemma_concat_distinct(head, flat_all(v));
    assert forall|x: int| #![trigger flat(n).contains(x)] #![trigger at_or_below(par, i, x)]
        flat(n).contains(x) <==> (0 <= x < par.len() && at_or_below(par, i, x)) by {
        lemma_concat(head, flat_all(v), x);
        lemma_at_or_below(par, i, x);
        assert(head[0] == i);
        assert(head.contains(x) <==> x == i);
    }
}

proof fn lemma_up_in_family(par: Parents, j: int, k: nat)
    requires
        closed_family(par),
        0 <= j < par.len(),
    ensures
        up(par, j, k) matches Some(x) ==> 0 <= x < par.len(),
    decreases k,
{
    if k > 0 {
        lemma_up_in_family(par, j, (k - 1) as nat);
        if let Some(x) = up(par, j, (k - 1) as nat) {
            assert(par[x] matches Some(p) ==> 0 <= p < par.len());
        }
    }
}

/// No process is lost and none is shown twice: the forest holds every member
/// under a root exactly once, however deep the chain it stands in.
pub proof fn law_the_forest_holds_each_process_once(par: Parents)
    requires
        closed_family(par),
    ensures
        flat_all(forest(par)).no_duplicates(),
        forall|x: int| #![trigger flat_all(forest(par)).contains(x)] #![trigger rooted(par, x)]
            flat_all(forest(par)).contains(x) <==> (0 <= x < par.len() && rooted(par, x)),
{
    let roots = roots_upto(par, par.len() as int);
    let v = forest(par);
    lemma_roots_list(par, par.len() as int);
    assert forall|k: int| 0 <= k < v.len() implies 0 <= #[trigger] roots[k] < par.len()
        && par[roots[k]] is None && rooted(par, roots[k]) by {
        assert(roots.contains(roots[k]));
        lemma_roots_at(par, par.len() as int, roots[k]);
        assert(up(par, roots[k], 0) == Some(roots[k]));
    }
    assert forall|k: int| 0 <= k < v.len() implies flat(#[trigger] v[k]).no_duplicates() by {
        assert(0 <= roots[k] < par.len());
        lemma_node_flat(par, roots[k], 1);
    }
    assert forall|k: int, l: int, x: int|
        0 <= k < v.len() && 0 <= l < v.len() && k != l implies !(#[trigger] flat(v[k]).contains(x)
        && #[trigger] flat(v[l]).contains(x)) by {
        assert(0 <= roots[k] < par.len() && 0 <= roots[l] < par.len());
        lemma_node_flat(par, roots[k], 1);
        lemma_node_flat(par, roots[l], 1);
        if flat(v[k]).contains(x) && flat(v[l]).contains(x) {
            assert(at_or_below(par, roots[k], x) && at_or_below(par, roots[l], x));
            lemma_one_root(par, x, roots[k], roots[l]);
            assert(roots[k] != roots[l]);
        }
    }
    lemma_flat_all(v);
    assert forall|x: int| #![trigger flat_all(v).contains(x)] #![trigger rooted(par, x)]
        flat_all(v).contains(x) <==> (0 <= x < par.len() && rooted(par, x)) by {
        if flat_all(v).contains(x) {
            let k = choose|k: int| 0 <= k < v.len() && #[trigger] flat(v[k]).contains(x);
            assert(0 <= roots[k] < par.len());
            lemma_node_flat(par, roots[k], 1);
            assert(at_or_below(par, roots[k], x));
            let m = choose|m: nat| #[trigger] up(par, x, m) == Some(roots[k]);
            assert(rooted(par, x));
        }
        if 0 <= x < par.len() && rooted(par, x) {
            let m = choose|m: nat| #[trigger] up(par, x, m) matches Some(r) && par[r] is None;
            let r = up(par, x, m)->0;
            lemma_up_in_family(par, x, m);
            lemma_roots_at(par, par.len() as int, r);
            assert(roots.contains(r));
            let k = choose|k: int| 0 <= k < roots.len() && roots[k] == r;
            lemma_node_flat(par, r, 1);
            assert(at_or_below(par, r, x));
            assert(flat(v[k]).contains(x));
        }
    }
}

proof fn lemma_one_root(par: Parents, x: int, r: int, s: int)
    requires
        par[r] is None,
        par[s] is None,
        at_or_below(par, r, x),
        at_or_below(par, s, x),
    ensures
        r == s,
{
    let a = choose|k: nat| #[trigger] up(par, x, k) == Some(r);
    let b = choose|k: nat| #[trigger] up(par, x, k) == Some(s);
    if a < b {
        assert(up(par, x, a + 1) is None);
        lemma_up_stays_none(par, x, a + 1, b);
    } else if b < a {
        assert(up(par, x, b + 1) is None);
        lemma_up_stays_none(par, x, b + 1, a);
    }
}

proof fn lemma_node_nests(par: Parents, i: int, depth: int)
    requires
        1 <= depth <= 48,
    ensures
        nests_within(node(par, i, depth).children, 48 - depth),
    decreases 48 - depth,
{
    let v = node(par, i, depth).children;
    if depth < 48 {
        assert forall|k: int| 0 <= k < v.len() implies nests_within(
            (#[trigger] v[k]).children,
            48 - depth - 1,
        ) by {
            lemma_node_nests(par, shown_under(par, i, depth)[k], depth + 1);
        }
    }
}

/// The forest nests no deeper than its bound.
pub proof fn law_the_forest_is_capped(par: Parents)
    ensures
        nests_within(forest(par), MAX_PROC_DEPTH as int),
{
    let roots = roots_upto(par, par.len() as int);
    let v = forest(par);
    assert forall|k: int| 0 <= k < v.len() implies nests_within(
        (#[trigger] v[k]).children,
        47,
    ) by {
        lemma_node_nests(par, roots[k], 1);
    }
}

} // verus!
