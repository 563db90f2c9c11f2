//! How a width is divided among the parts of a bar, and the bars of the header.
use vstd::prelude::*;

use crate::glyph;
use crate::glyph::GlyphSet;
use crate::mem;
use crate::once;
use crate::types;
use crate::types::HostTree;

verus! {

// ---------------------------------------------------------------------------
// Cells
// ---------------------------------------------------------------------------

/// The first `n` parts, added up.
pub open spec fn total_upto(parts: Seq<u64>, n: int) -> int
    decreases n,
{
    if n <= 0 {
        0
    } else {
        total_upto(parts, n - 1) + parts[n - 1]
    }
}

pub open spec fn total(parts: Seq<u64>) -> int {
    total_upto(parts, parts.len() as int)
}

/// The whole cells of one part.
pub open spec fn whole(part: u64, capacity: u64, width: usize) -> int {
    (part * width) / capacity as int
}

/// What is left of one part after its whole cells.
pub open spec fn remainder(part: u64, capacity: u64, width: usize) -> int {
    (part * width) % capacity as int
}

pub open spec fn wholes(parts: Seq<u64>, capacity: u64, width: usize) -> Seq<int> {
    Seq::new(parts.len(), |k: int| whole(parts[k], capacity, width))
}

pub open spec fn remainders(parts: Seq<u64>, capacity: u64, width: usize) -> Seq<int> {
    Seq::new(parts.len(), |k: int| remainder(parts[k], capacity, width))
}

/// The first `n` cell counts, added up.
pub open spec fn sum_upto(cells: Seq<int>, n: int) -> int
    decreases n,
{
    if n <= 0 {
        0
    } else {
        sum_upto(cells, n - 1) + cells[n - 1]
    }
}

pub open spec fn sum(cells: Seq<int>) -> int {
    sum_upto(cells, cells.len() as int)
}

/// The part among the first `n` that is served next: the one with the largest
/// remainder that has had none yet, the first of several.
pub open spec fn neediest(rests: Seq<int>, served: Seq<bool>, n: int) -> Option<int>
    decreases n,
{
    if n <= 0 {
        None
    } else {
        match neediest(rests, served, n - 1) {
            Some(k) => if !served[n - 1] && rests[n - 1] > rests[k] {
                Some(n - 1)
            } else {
                Some(k)
            },
            None => if !served[n - 1] {
                Some(n - 1)
            } else {
                None
            },
        }
    }
}

/// `extra` more cells given out one by one.
pub open spec fn handed_out(cells: Seq<int>, rests: Seq<int>, served: Seq<bool>, extra: nat) -> Seq<
    int,
>
    decreases extra,
{
    if extra == 0 {
        cells
    } else {
        match neediest(rests, served, cells.len() as int) {
            Some(k) => handed_out(
                cells.update(k, cells[k] + 1),
                rests,
                served.update(k, true),
                (extra - 1) as nat,
            ),
            None => cells,
        }
    }
}

/// The cells that all parts fill together.
pub open spec fn target(parts: Seq<u64>, capacity: u64, width: usize) -> int {
    (total(parts) * width) / capacity as int
}

/// How many cells the whole ones fall short of the target, as far as the width
/// has room.
pub open spec fn shortfall(parts: Seq<u64>, capacity: u64, width: usize) -> nat {
    let assigned = sum(wholes(parts, capacity, width));
    let want = target(parts, capacity, width) - assigned;
    let room = width - assigned;
    let left = if want < room {
        want
    } else {
        room
    };
    if left < 0 {
        0
    } else {
        left as nat
    }
}

/// The cells of each part: its whole ones, and the rest of what the parts fill
/// together to those with the largest remainders.
pub open spec fn shares(parts: Seq<u64>, capacity: u64, width: usize) -> Seq<int> {
    if width == 0 || capacity == 0 {
        Seq::new(parts.len(), |k: int| 0)
    } else {
        handed_out(
            wholes(parts, capacity, width),
            remainders(parts, capacity, width),
            Seq::new(parts.len(), |k: int| false),
            shortfall(parts, capacity, width),
        )
    }
}

pub open spec fn ints(v: Seq<usize>) -> Seq<int> {
    Seq::new(v.len(), |k: int| v[k] as int)
}

proof fn lemma_neediest(rests: Seq<int>, served: Seq<bool>, n: int)
    requires
        0 <= n <= served.len(),
    ensures
        neediest(rests, served, n) matches Some(k) ==> 0 <= k < n && !served[k],
        neediest(rests, served, n) is None ==> forall|j: int|
            0 <= j < n ==> #[trigger] served[j],
    decreases n,
{
    if n > 0 {
        lemma_neediest(rests, served, n - 1);
    }
}

fn pick_neediest(rests: &Vec<u128>, served: &Vec<bool>) -> (r: Option<usize>)
    requires
        rests@.len() == served@.len(),
    ensures
        match r {
            Some(k) => k < served@.len() && neediest(
                wide(rests@),
                served@,
                served@.len() as int,
            ) == Some(k as int),
            None => neediest(wide(rests@), served@, served@.len() as int) is None,
        },
{
    let mut best: Option<usize> = None;
    let mut i: usize = 0;
    while i < served.len()
        invariant
            i <= served@.len(),
            rests@.len() == served@.len(),
            match best {
                Some(k) => k < i && neediest(wide(rests@), served@, i as int) == Some(k as int),
                None => neediest(wide(rests@), served@, i as int) is None,
            },
        decreases served.len() - i,
    {
        let take: bool = match best {
            Some(k) => !served[i] && rests[i] > rests[k],
            None => !served[i],
        };
        if take {
            best = Some(i);
        }
        i += 1;
    }
    best
}

pub open spec fn wide(v: Seq<u128>) -> Seq<int> {
    Seq::new(v.len(), |k: int| v[k] as int)
}

proof fn lemma_sum_bounds(cells: Seq<int>, n: int)
    requires
        0 <= n <= cells.len(),
        forall|k: int| 0 <= k < cells.len() ==> 0 <= #[trigger] cells[k],
    ensures
        0 <= sum_upto(cells, n),
        forall|k: int| 0 <= k < n ==> #[trigger] cells[k] <= sum_upto(cells, n),
    decreases n,
{
    if n > 0 {
        lemma_sum_bounds(cells, n - 1);
    }
}

proof fn lemma_total_bounds(parts: Seq<u64>, n: int, m: int)
    requires
        0 <= n <= m <= parts.len(),
    ensures
        0 <= total_upto(parts, n) <= total_upto(parts, m),
    decreases m,
{
    if n < m {
        lemma_total_bounds(parts, n, m - 1);
    } else if n > 0 {
        lemma_total_bounds(parts, n - 1, n - 1);
    }
}

/// The whole cells of several parts are at most what the parts fill together,
/// and short of it by less than one per part.
proof fn lemma_wholes(parts: Seq<u64>, capacity: u64, width: usize, n: int)
    requires
        0 <= n <= parts.len(),
        capacity > 0,
    ensures
        0 <= sum_upto(wholes(parts, capacity, width), n) <= (total_upto(parts, n) * width)
            / capacity as int <= sum_upto(wholes(parts, capacity, width), n) + (if n > 0 {
            n - 1
        } else {
            0
        }),
    decreases n,
{
    let w = wholes(parts, capacity, width);
    if n > 0 {
        lemma_wholes(parts, capacity, width, n - 1);
        lemma_total_bounds(parts, 0, n - 1);
        let a = total_upto(parts, n - 1) * width;
        let b = parts[n - 1] * width;
        let c = capacity as int;
        assert(total_upto(parts, n) * width == a + b) by (nonlinear_arith)
            requires
                a == total_upto(parts, n - 1) * width,
                b == parts[n - 1] * width,
                total_upto(parts, n) == total_upto(parts, n - 1) + parts[n - 1],
        ;
        assert(a >= 0) by (nonlinear_arith)
            requires
                a == total_upto(parts, n - 1) * width,
                total_upto(parts, n - 1) >= 0,
        ;
        assert(b >= 0) by (nonlinear_arith)
            requires
                b == parts[n - 1] * width,
        ;
        assert(a / c + b / c <= (a + b) / c <= a / c + b / c + 1 && b / c >= 0) by (nonlinear_arith)
            requires
                a >= 0,
                b >= 0,
                c > 0,
        ;
        assert(w[n - 1] == b / c);
        if n == 1 {
            assert(total_upto(parts, 0) == 0);
            assert(a == 0) by (nonlinear_arith)
                requires
                    a == 0 * width,
            ;
            assert((a + b) / c == b / c);
        }
    } else {
        assert(0 * width == 0) by (nonlinear_arith);
        assert(0int / capacity as int == 0) by (nonlinear_arith)
            requires
                capacity > 0,
        ;
    }
}

/// Adding one to one of several adds one to their sum.
proof fn lemma_sum_update(cells: Seq<int>, k: int, n: int)
    requires
        0 <= k < cells.len(),
        0 <= n <= cells.len(),
    ensures
        sum_upto(cells.update(k, cells[k] + 1), n) == sum_upto(cells, n) + (if k < n {
            1int
        } else {
            0
        }),
    decreases n,
{
    if n > 0 {
        lemma_sum_update(cells, k, n - 1);
    }
}

/// How many of the first `n` have been served.
spec fn served_upto(served: Seq<bool>, n: int) -> int
    decreases n,
{
    if n <= 0 {
        0
    } else {
        served_upto(served, n - 1) + (if served[n - 1] {
            1int
        } else {
            0
        })
    }
}

proof fn lemma_all_served(served: Seq<bool>, n: int)
    requires
        0 <= n <= served.len(),
        forall|j: int| 0 <= j < n ==> #[trigger] served[j],
    ensures
        served_upto(served, n) == n,
    decreases n,
{
    if n > 0 {
        lemma_all_served(served, n - 1);
    }
}

proof fn lemma_serve(served: Seq<bool>, k: int, n: int)
    requires
        0 <= k < served.len(),
        !served[k],
        0 <= n <= served.len(),
    ensures
        served_upto(served.update(k, true), n) == served_upto(served, n) + (if k < n {
            1int
        } else {
            0
        }),
    decreases n,
{
    if n > 0 {
        lemma_serve(served, k, n - 1);
    }
}

/// Handing out so many cells adds so many, and no part gets more than one.
proof fn lemma_handed_out(cells: Seq<int>, rests: Seq<int>, served: Seq<bool>, extra: nat)
    requires
        cells.len() == served.len() == rests.len(),
        served_upto(served, served.len() as int) + extra <= served.len(),
    ensures
        handed_out(cells, rests, served, extra).len() == cells.len(),
        sum(handed_out(cells, rests, served, extra)) == sum(cells) + extra,
    decreases extra,
{
    if extra > 0 {
        lemma_neediest(rests, served, served.len() as int);
        match neediest(rests, served, cells.len() as int) {
            Some(k) => {
                lemma_sum_update(cells, k, cells.len() as int);
                lemma_serve(served, k, served.len() as int);
                lemma_handed_out(
                    cells.update(k, cells[k] + 1),
                    rests,
                    served.update(k, true),
                    (extra - 1) as nat,
                );
            },
            None => {
                lemma_all_served(served, served.len() as int);
            },
        }
    }
}

proof fn lemma_none_served(n: nat, m: int)
    requires
        0 <= m <= n,
    ensures
        served_upto(Seq::new(n, |k: int| false), m) == 0,
    decreases m,
{
    if m > 0 {
        lemma_none_served(n, m - 1);
    }
}

proof fn lemma_zero_sum(n: nat, m: int)
    requires
        0 <= m <= n,
    ensures
        sum_upto(Seq::new(n, |k: int| 0int), m) == 0,
    decreases m,
{
    if m > 0 {
        lemma_zero_sum(n, m - 1);
    }
}

/// The cells of the parts add up to what the parts fill together: exactly, as
/// long as that is no more than the width.
pub proof fn law_cells_add_up(parts: Seq<u64>, capacity: u64, width: usize)
    requires
        capacity > 0,
    ensures
        shares(parts, capacity, width).len() == parts.len(),
        target(parts, capacity, width) <= width ==> sum(shares(parts, capacity, width)) == target(
            parts,
            capacity,
            width,
        ),
        total(parts) <= capacity ==> target(parts, capacity, width) <= width,
{
    lemma_total_bounds(parts, 0, parts.len() as int);
    if width == 0 {
        lemma_zero_sum(parts.len(), parts.len() as int);
        assert(total(parts) * 0 == 0) by (nonlinear_arith);
        assert(0int / capacity as int == 0) by (nonlinear_arith)
            requires
                capacity > 0,
        ;
    } else {
        lemma_wholes(parts, capacity, width, parts.len() as int);
        lemma_none_served(parts.len(), parts.len() as int);
        lemma_handed_out(
            wholes(parts, capacity, width),
            remainders(parts, capacity, width),
            Seq::new(parts.len(), |k: int| false),
            shortfall(parts, capacity, width),
        );
    }
    if total(parts) <= capacity {
        let t = total(parts);
        let c = capacity as int;
        assert((t * width) / c <= width) by (nonlinear_arith)
            requires
                0 <= t <= c,
                c > 0,
        ;
    }
}

fn sum_cells(cells: &Vec<usize>) -> (r: usize)
    requires
        sum(ints(cells@)) <= usize::MAX,
    ensures
        r == sum(ints(cells@)),
{
    let mut n: usize = 0;
    let mut i: usize = 0;
    while i < cells.len()
        invariant
            i <= cells@.len(),
            sum(ints(cells@)) <= usize::MAX,
            n == sum_upto(ints(cells@), i as int),
        decreases cells.len() - i,
    {
        proof {
            lemma_sum_grows(ints(cells@), i + 1, cells@.len() as int);
        }
        n = n + cells[i];
        i += 1;
    }
    n
}

proof fn lemma_sum_grows(cells: Seq<int>, n: int, m: int)
    requires
        0 <= n <= m <= cells.len(),
        forall|k: int| 0 <= k < cells.len() ==> 0 <= #[trigger] cells[k],
    ensures
        sum_upto(cells, n) <= sum_upto(cells, m),
    decreases m,
{
    if n < m {
        lemma_sum_grows(cells, n, m - 1);
    }
}

/// Every part's whole cells and remainders.
fn split(parts: &[u64], capacity: u64, width: usize) -> (r: (Vec<usize>, Vec<u128>))
    requires
        capacity > 0,
        target(parts@, capacity, width) <= usize::MAX,
    ensures
        r.0@.len() == parts@.len() && r.1@.len() == parts@.len(),
        ints(r.0@) == wholes(parts@, capacity, width),
        wide(r.1@) == remainders(parts@, capacity, width),
{
    let mut cells: Vec<usize> = Vec::new();
    let mut rests: Vec<u128> = Vec::new();
    let mut i: usize = 0;
    let ghost w = wholes(parts@, capacity, width);
    while i < parts.len()
        invariant
            i <= parts@.len(),
            capacity > 0,
            w == wholes(parts@, capacity, width),
            target(parts@, capacity, width) <= usize::MAX,
            cells@.len() == i,
            rests@.len() == i,
            forall|k: int| 0 <= k < i ==> #[trigger] cells@[k] == w[k],
            forall|k: int|
                0 <= k < i ==> #[trigger] rests@[k] == remainder(parts@[k], capacity, width),
        decreases parts.len() - i,
    {
        assert(parts@[i as int] * width <= u64::MAX * u64::MAX) by (nonlinear_arith)
            requires
                parts@[i as int] <= u64::MAX,
                width <= u64::MAX,
        ;
        let n: u128 = parts[i] as u128 * width as u128;
        let c: u128 = capacity as u128;
        proof {
            lemma_wholes(parts@, capacity, width, parts@.len() as int);
            assert forall|k: int| 0 <= k < w.len() implies 0 <= #[trigger] w[k] by {
                let a = parts@[k] * width;
                assert(a >= 0) by (nonlinear_arith)
                    requires
                        a == parts@[k] * width,
                ;
                assert(a / capacity as int >= 0) by (nonlinear_arith)
                    requires
                        a >= 0,
                        capacity > 0,
                ;
            }
            lemma_sum_bounds(w, w.len() as int);
            assert(w[i as int] <= usize::MAX);
        }
        cells.push((n / c) as usize);
        rests.push(n % c);
        i += 1;
    }
    assert(ints(cells@) =~= wholes(parts@, capacity, width));
    assert(wide(rests@) =~= remainders(parts@, capacity, width));
    (cells, rests)
}

fn sum_parts(parts: &[u64]) -> (r: u64)
    requires
        total(parts@) <= u64::MAX,
    ensures
        r == total(parts@),
{
    let mut n: u64 = 0;
    let mut i: usize = 0;
    while i < parts.len()
        invariant
            i <= parts@.len(),
            total(parts@) <= u64::MAX,
            n == total_upto(parts@, i as int),
        decreases parts.len() - i,
    {
        proof {
            lemma_total_bounds(parts@, i + 1, parts@.len() as int);
        }
        n = n + parts[i];
        i += 1;
    }
    n
}

/// How many cells of a bar each part gets.
pub fn share_cells(parts: &[u64], capacity: u64, width: usize) -> (r: Vec<usize>)
    requires
        total(parts@) <= u64::MAX,
        capacity > 0 ==> target(parts@, capacity, width) <= usize::MAX,
    ensures
        ints(r@) == shares(parts@, capacity, width),
{
    let n: usize = parts.len();
    if width == 0 || capacity == 0 {
        let mut zero: Vec<usize> = Vec::new();
        let mut i: usize = 0;
        while i < n
            invariant
                i <= n,
                zero@.len() == i,
                forall|k: int| 0 <= k < i ==> #[trigger] zero@[k] == 0,
            decreases n - i,
        {
            zero.push(0);
            i += 1;
        }
        assert(ints(zero@) =~= shares(parts@, capacity, width));
        return zero;
    }
    proof {
        lemma_wholes(parts@, capacity, width, parts@.len() as int);
        lemma_total_bounds(parts@, 0, parts@.len() as int);
    }
    let (mut cells, rests) = split(parts, capacity, width);
    let assigned: usize = sum_cells(&cells);
    let all: u64 = sum_parts(parts);
    assert(all * width <= u64::MAX * u64::MAX) by (nonlinear_arith)
        requires
            all <= u64::MAX,
            width <= u64::MAX,
    ;
    let wanted: usize = ((all as u128 * width as u128) / (capacity as u128)) as usize;
    let want: usize = wanted - assigned;
    let room: usize = if width > assigned {
        width - assigned
    } else {
        0
    };
    let mut extra: usize = if want < room {
        want
    } else {
        room
    };
    assert(extra == shortfall(parts@, capacity, width));
    let mut served: Vec<bool> = Vec::new();
    let mut i: usize = 0;
    while i < n
        invariant
            i <= n,
            served@.len() == i,
            forall|k: int| 0 <= k < i ==> !(#[trigger] served@[k]),
        decreases n - i,
    {
        served.push(false);
        i += 1;
    }
    proof {
        assert(served@ =~= Seq::new(parts@.len(), |k: int| false));
        lemma_none_served(parts@.len(), parts@.len() as int);
    }
    while extra > 0
        invariant
            n == parts@.len(),
            cells@.len() == n,
            rests@.len() == n,
            served@.len() == n,
            wide(rests@) == remainders(parts@, capacity, width),
            handed_out(ints(cells@), wide(rests@), served@, extra as nat) == shares(
                parts@,
                capacity,
                width,
            ),
            sum(ints(cells@)) + extra <= usize::MAX,
            served_upto(served@, n as int) + extra <= n,
        decreases extra,
    {
        proof {
            lemma_neediest(wide(rests@), served@, n as int);
        }
        match pick_neediest(&rests, &served) {
            Some(k) => {
                let ghost before = ints(cells@);
                proof {
                    lemma_sum_bounds(before, n as int);
                    lemma_sum_update(before, k as int, n as int);
                    lemma_serve(served@, k as int, n as int);
                    assert(before[k as int] <= sum(before));
                }
                let more: usize = cells[k] + 1;
                cells.set(k, more);
                served.set(k, true);
                extra = extra - 1;
                assert(ints(cells@) =~= before.update(k as int, before[k as int] + 1));
            },
            None => {
                proof {
                    lemma_all_served(served@, n as int);
                }
            },
        }
    }
    cells
}

// ---------------------------------------------------------------------------
// Tanks
// ---------------------------------------------------------------------------

/// What a second bar beside the first is given.
pub const SIDE_TANK: usize = 32;

/// A width divided evenly, what does not divide going to the last ones.
pub open spec fn evenly(rest: int, n: nat) -> Seq<int>
    decreases n,
{
    if n == 0 {
        Seq::empty()
    } else {
        seq![rest / n as int] + evenly(rest - rest / n as int, (n - 1) as nat)
    }
}

/// The widths of a row of bars: the first keeps what the others do not need,
/// and never less than half.
pub open spec fn tanks_of(width: usize, tanks: usize) -> Seq<int> {
    if tanks <= 1 {
        seq![width as int]
    } else {
        let extras = (tanks - 1) as nat;
        let want = SIDE_TANK * extras;
        let half = width as int / 2;
        let budget = if want < half {
            want
        } else {
            half
        };
        seq![width - budget] + evenly(budget, extras)
    }
}

proof fn lemma_sum_cons(x: int, v: Seq<int>, n: int)
    requires
        0 <= n <= v.len(),
    ensures
        sum_upto(seq![x] + v, n + 1) == x + sum_upto(v, n),
    decreases n,
{
    let w = seq![x] + v;
    if n > 0 {
        lemma_sum_cons(x, v, n - 1);
        assert(w[n] == v[n - 1]);
    } else {
        assert(sum_upto(w, 0) == 0);
        assert(w[0] == x);
    }
}

proof fn lemma_evenly(rest: int, n: nat)
    requires
        rest >= 0,
    ensures
        evenly(rest, n).len() == n,
        n > 0 ==> sum(evenly(rest, n)) == rest,
    decreases n,
{
    if n > 0 {
        let first = rest / n as int;
        assert(0 <= first <= rest) by (nonlinear_arith)
            requires
                first == rest / n as int,
                n > 0,
                rest >= 0,
        ;
        lemma_evenly(rest - first, (n - 1) as nat);
        lemma_sum_cons(first, evenly(rest - first, (n - 1) as nat), n - 1);
        if n == 1 {
            assert(rest / 1 == rest);
        }
    }
}

/// However a row is divided, its parts add up to its width.
pub proof fn law_tanks_fill_the_row(width: usize, tanks: usize)
    ensures
        tanks_of(width, tanks).len() == if tanks <= 1 {
            1
        } else {
            tanks as int
        },
        sum(tanks_of(width, tanks)) == width,
{
    if tanks <= 1 {
        let v = seq![width as int];
        assert(sum_upto(v, 0) == 0);
        assert(sum_upto(v, 1) == v[0]);
    } else {
        let extras = (tanks - 1) as nat;
        let want = SIDE_TANK * extras;
        let half = width as int / 2;
        let budget = if want < half {
            want
        } else {
            half
        };
        lemma_evenly(budget, extras);
        lemma_sum_cons(width - budget, evenly(budget, extras), extras as int);
    }
}

/// Divides one row among its bars.
pub fn tank_widths(width: usize, tanks: usize) -> (r: Vec<usize>)
    requires
        SIDE_TANK * tanks <= usize::MAX,
    ensures
        ints(r@) == tanks_of(width, tanks),
{
    let mut out: Vec<usize> = Vec::new();
    if tanks <= 1 {
        out.push(width);
        assert(ints(out@) =~= tanks_of(width, tanks));
        return out;
    }
    let extras: usize = tanks - 1;
    let want: usize = SIDE_TANK * extras;
    let half: usize = width / 2;
    let budget: usize = if want < half {
        want
    } else {
        half
    };
    out.push(width - budget);
    let mut rest: usize = budget;
    let mut left: usize = extras;
    assert(ints(out@) + evenly(rest as int, left as nat) =~= tanks_of(width, tanks));
    while left > 0
        invariant
            ints(out@) + evenly(rest as int, left as nat) == tanks_of(width, tanks),
        decreases left,
    {
        let w: usize = rest / left;
        assert(w <= rest) by (nonlinear_arith)
            requires
                w == rest / left,
                left > 0,
                rest >= 0,
        ;
        let ghost before = ints(out@);
        out.push(w);
        rest = rest - w;
        left = left - 1;
        assert(ints(out@) =~= before.push(w as int));
        assert(before.push(w as int) + evenly(rest as int, left as nat) =~= before + (seq![
            w as int,
        ] + evenly(rest as int, left as nat)));
    }
    assert(ints(out@) + evenly(rest as int, 0) =~= ints(out@));
    out
}

// ---------------------------------------------------------------------------
// Pieces of text
// ---------------------------------------------------------------------------

/// The colours that tell one part of a bar from another.
#[derive(Clone, Copy, Debug, PartialEq, Eq, Structural)]
pub enum Color {
    Cyan,
    Magenta,
    Yellow,
    LightRed,
    LightCyan,
    Blue,
    Green,
    Gray,
    DarkGray,
}

/// A piece of a line in one colour, or in none.
#[derive(Debug)]
pub struct Span {
    pub text: String,
    pub color: Option<Color>,
}

/// The same as a value.
pub struct Run {
    pub text: Seq<char>,
    pub color: Option<Color>,
}

impl View for Span {
    type V = Run;

    open spec fn view(&self) -> Run {
        Run { text: self.text@, color: self.color }
    }
}

pub open spec fn runs(v: Seq<Span>) -> Seq<Run> {
    Seq::new(v.len(), |k: int| v[k]@)
}

/// How many columns the first `n` pieces take.
pub open spec fn columns_upto(v: Seq<Run>, n: int) -> int
    decreases n,
{
    if n <= 0 {
        0
    } else {
        columns_upto(v, n - 1) + v[n - 1].text.len()
    }
}

/// How many columns a line takes.
pub open spec fn columns(v: Seq<Run>) -> int {
    columns_upto(v, v.len() as int)
}

proof fn lemma_columns_prefix(a: Seq<Run>, b: Seq<Run>, n: int)
    requires
        0 <= n <= a.len(),
    ensures
        columns_upto(a + b, n) == columns_upto(a, n),
    decreases n,
{
    if n > 0 {
        lemma_columns_prefix(a, b, n - 1);
        assert((a + b)[n - 1] == a[n - 1]);
    }
}

proof fn lemma_columns_join_upto(a: Seq<Run>, b: Seq<Run>, n: int)
    requires
        0 <= n <= b.len(),
    ensures
        columns_upto(a + b, a.len() + n) == columns(a) + columns_upto(b, n),
    decreases n,
{
    if n > 0 {
        lemma_columns_join_upto(a, b, n - 1);
        assert((a + b)[a.len() + n - 1] == b[n - 1]);
    } else {
        lemma_columns_prefix(a, b, a.len() as int);
    }
}

/// Two lines after each other take the columns of both.
pub proof fn lemma_columns_join(a: Seq<Run>, b: Seq<Run>)
    ensures
        columns(a + b) == columns(a) + columns(b),
{
    lemma_columns_join_upto(a, b, b.len() as int);
}

pub proof fn lemma_columns_push(a: Seq<Run>, r: Run)
    ensures
        columns(a.push(r)) == columns(a) + r.text.len(),
{
    assert(a.push(r) =~= a + seq![r]);
    lemma_columns_join(a, seq![r]);
    assert(columns_upto(seq![r], 0) == 0);
    assert(columns_upto(seq![r], 1) == r.text.len());
}

proof fn lemma_runs_push(v: Seq<Span>, s: Span)
    ensures
        runs(v.push(s)) == runs(v).push(s@),
{
    assert(runs(v.push(s)) =~= runs(v).push(s@));
}

fn push_span(out: &mut Vec<Span>, text: String, color: Option<Color>)
    ensures
        runs(final(out)@) == runs(old(out)@).push(Run { text: text@, color }),
{
    let s = Span { text, color };
    proof {
        lemma_runs_push(out@, s);
    }
    out.push(s);
}

fn push_all(out: &mut Vec<Span>, more: Vec<Span>)
    ensures
        runs(final(out)@) == runs(old(out)@) + runs(more@),
{
    let mut more = more;
    let ghost all = more@;
    out.append(&mut more);
    assert(runs(out@) =~= runs(old(out)@) + runs(all));
}

/// One character, so many times.
pub open spec fn repeated(c: char, n: nat) -> Seq<char> {
    Seq::new(n, |k: int| c)
}

pub fn repeat(c: char, n: usize) -> (r: String)
    ensures
        r@ == repeated(c, n as nat),
{
    let mut s = String::new();
    let mut i: usize = 0;
    assert(s@ =~= repeated(c, 0));
    while i < n
        invariant
            i <= n,
            s@ == repeated(c, i as nat),
        decreases n - i,
    {
        s.push(c);
        i += 1;
        assert(repeated(c, i as nat) =~= repeated(c, (i - 1) as nat).push(c));
    }
    s
}

// ---------------------------------------------------------------------------
// One bar
// ---------------------------------------------------------------------------

/// A part of a bar. Its character tells it apart where its colour does not.
#[derive(Clone, Copy, Debug, PartialEq, Eq, Structural)]
pub struct Part {
    pub weight: u64,
    pub color: Color,
    pub glyph: char,
}

pub open spec fn weights(parts: Seq<Part>) -> Seq<u64> {
    Seq::new(parts.len(), |k: int| parts[k].weight)
}

/// The filled pieces of the first `n` parts.
pub open spec fn filled_upto(parts: Seq<Part>, cells: Seq<int>, n: int) -> Seq<Run>
    decreases n,
{
    if n <= 0 {
        Seq::empty()
    } else {
        let before = filled_upto(parts, cells, n - 1);
        if cells[n - 1] > 0 {
            before.push(
                Run {
                    text: repeated(parts[n - 1].glyph, cells[n - 1] as nat),
                    color: Some(parts[n - 1].color),
                },
            )
        } else {
            before
        }
    }
}

/// A bar: its parts from the left, and what they leave free in a character of
/// its own.
pub open spec fn bar(width: usize, parts: Seq<Part>, capacity: u64, light: char) -> Seq<Run> {
    if width == 0 {
        Seq::empty()
    } else {
        let cells = shares(weights(parts), capacity, width);
        let filled = filled_upto(parts, cells, parts.len() as int);
        let rest = width - sum(cells);
        if rest > 0 {
            filled.push(Run { text: repeated(light, rest as nat), color: Some(Color::DarkGray) })
        } else {
            filled
        }
    }
}

proof fn lemma_filled_columns(parts: Seq<Part>, cells: Seq<int>, n: int)
    requires
        0 <= n <= cells.len() == parts.len(),
        forall|k: int| 0 <= k < cells.len() ==> 0 <= #[trigger] cells[k],
    ensures
        columns(filled_upto(parts, cells, n)) == sum_upto(cells, n),
    decreases n,
{
    if n > 0 {
        lemma_filled_columns(parts, cells, n - 1);
        let before = filled_upto(parts, cells, n - 1);
        if cells[n - 1] > 0 {
            lemma_columns_push(
                before,
                Run {
                    text: repeated(parts[n - 1].glyph, cells[n - 1] as nat),
                    color: Some(parts[n - 1].color),
                },
            );
        }
    }
}

proof fn lemma_handed_out_grow(cells: Seq<int>, rests: Seq<int>, served: Seq<bool>, extra: nat)
    requires
        cells.len() == served.len(),
        forall|k: int| 0 <= k < cells.len() ==> 0 <= #[trigger] cells[k],
    ensures
        forall|k: int|
            0 <= k < handed_out(cells, rests, served, extra).len() ==> 0
                <= #[trigger] handed_out(cells, rests, served, extra)[k],
    decreases extra,
{
    if extra > 0 {
        lemma_neediest(rests, served, served.len() as int);
        match neediest(rests, served, cells.len() as int) {
            Some(k) => {
                let next = cells.update(k, cells[k] + 1);
                assert forall|j: int| 0 <= j < next.len() implies 0 <= #[trigger] next[j] by {
                    assert(cells[j] >= 0);
                }
                lemma_handed_out_grow(next, rests, served.update(k, true), (extra - 1) as nat);
                assert(handed_out(cells, rests, served, extra) == handed_out(
                    next,
                    rests,
                    served.update(k, true),
                    (extra - 1) as nat,
                ));
            },
            None => {},
        }
    }
}

proof fn lemma_shares_nonnegative(parts: Seq<u64>, capacity: u64, width: usize)
    requires
        capacity > 0,
    ensures
        forall|k: int|
            0 <= k < shares(parts, capacity, width).len() ==> 0 <= #[trigger] shares(
                parts,
                capacity,
                width,
            )[k],
{
    let w = wholes(parts, capacity, width);
    assert forall|k: int| 0 <= k < w.len() implies 0 <= #[trigger] w[k] by {
        let a = parts[k] * width;
        assert(a >= 0) by (nonlinear_arith)
            requires
                a == parts[k] * width,
        ;
        assert(a / capacity as int >= 0) by (nonlinear_arith)
            requires
                a >= 0,
                capacity > 0,
        ;
    }
    if width > 0 {
        lemma_handed_out_grow(
            w,
            remainders(parts, capacity, width),
            Seq::new(parts.len(), |k: int| false),
            shortfall(parts, capacity, width),
        );
    }
}

/// A bar whose parts fit its capacity takes exactly the width it is given,
/// whatever characters it is drawn with.
pub proof fn law_a_bar_fills_its_width(width: usize, parts: Seq<Part>, capacity: u64, light: char)
    requires
        0 < capacity,
        total(weights(parts)) <= capacity,
    ensures
        columns(bar(width, parts, capacity, light)) == width,
{
    if width > 0 {
        let cells = shares(weights(parts), capacity, width);
        law_cells_add_up(weights(parts), capacity, width);
        lemma_shares_nonnegative(weights(parts), capacity, width);
        lemma_filled_columns(parts, cells, parts.len() as int);
        let rest = width - sum(cells);
        if rest > 0 {
            lemma_columns_push(
                filled_upto(parts, cells, parts.len() as int),
                Run { text: repeated(light, rest as nat), color: Some(Color::DarkGray) },
            );
        }
    }
}

/// The cells of the parts are one per part, and together no more than the parts
/// fill.
proof fn lemma_shares_sum(parts: Seq<u64>, capacity: u64, width: usize)
    ensures
        shares(parts, capacity, width).len() == parts.len(),
        capacity > 0 ==> 0 <= sum(shares(parts, capacity, width)) <= target(parts, capacity, width),
        capacity == 0 ==> sum(shares(parts, capacity, width)) == 0,
{
    if width == 0 || capacity == 0 {
        lemma_zero_sum(parts.len(), parts.len() as int);
        if capacity > 0 {
            law_cells_add_up(parts, capacity, width);
        }
    } else {
        lemma_wholes(parts, capacity, width, parts.len() as int);
        lemma_none_served(parts.len(), parts.len() as int);
        lemma_handed_out(
            wholes(parts, capacity, width),
            remainders(parts, capacity, width),
            Seq::new(parts.len(), |k: int| false),
            shortfall(parts, capacity, width),
        );
    }
}

/// Draws one bar.
pub fn stacked_bar(width: usize, parts: &[Part], capacity: u64, light: char) -> (r: Vec<Span>)
    requires
        total(weights(parts@)) <= u64::MAX,
        capacity > 0 ==> target(weights(parts@), capacity, width) <= usize::MAX,
    ensures
        runs(r@) == bar(width, parts@, capacity, light),
{
    let mut out: Vec<Span> = Vec::new();
    assert(runs(out@) =~= Seq::empty());
    if width == 0 {
        return out;
    }
    let mut given: Vec<u64> = Vec::new();
    let mut i: usize = 0;
    while i < parts.len()
        invariant
            i <= parts@.len(),
            given@ == weights(parts@).take(i as int),
        decreases parts.len() - i,
    {
        given.push(parts[i].weight);
        i += 1;
        assert(weights(parts@).take(i as int) =~= weights(parts@).take(i - 1).push(
            parts@[i - 1].weight,
        ));
    }
    assert(weights(parts@).take(i as int) =~= weights(parts@));
    proof {
        lemma_shares_sum(weights(parts@), capacity, width);
    }
    let cells: Vec<usize> = share_cells(given.as_slice(), capacity, width);
    let filled: usize = sum_cells(&cells);
    let ghost c = ints(cells@);
    let mut k: usize = 0;
    while k < parts.len()
        invariant
            k <= parts@.len(),
            cells@.len() == parts@.len(),
            c == ints(cells@),
            runs(out@) == filled_upto(parts@, c, k as int),
        decreases parts.len() - k,
    {
        if cells[k] > 0 {
            push_span(&mut out, repeat(parts[k].glyph, cells[k]), Some(parts[k].color));
        }
        k += 1;
    }
    if filled < width {
        push_span(&mut out, repeat(light, width - filled), Some(Color::DarkGray));
    }
    out
}

// ---------------------------------------------------------------------------
// The header
// ---------------------------------------------------------------------------

/// What a legend says of one part.
#[derive(Debug)]
pub struct Label {
    pub text: String,
    pub color: Color,
    pub glyph: char,
}

/// The same as a value.
pub struct Mark {
    pub text: Seq<char>,
    pub color: Color,
    pub glyph: char,
}

impl View for Label {
    type V = Mark;

    open spec fn view(&self) -> Mark {
        Mark { text: self.text@, color: self.color, glyph: self.glyph }
    }
}

pub open spec fn marks(v: Seq<Label>) -> Seq<Mark> {
    Seq::new(v.len(), |k: int| v[k]@)
}

/// The pieces of the first `n` labels, a slash between two.
pub open spec fn legend_upto(labels: Seq<Mark>, n: int) -> Seq<Run>
    decreases n,
{
    if n <= 0 {
        Seq::empty()
    } else {
        let before = legend_upto(labels, n - 1);
        let with = if n > 1 {
            before.push(Run { text: "/"@, color: None })
        } else {
            before
        };
        with.push(
            Run {
                text: seq![labels[n - 1].glyph] + labels[n - 1].text,
                color: Some(labels[n - 1].color),
            },
        )
    }
}

/// The columns of the first `n` labels.
pub open spec fn legend_columns(labels: Seq<Mark>, n: int) -> int
    decreases n,
{
    if n <= 0 {
        0
    } else {
        legend_columns(labels, n - 1) + labels[n - 1].text.len() + 1 + (if n > 1 {
            1int
        } else {
            0
        })
    }
}

proof fn lemma_legend_columns(labels: Seq<Mark>, n: int)
    requires
        0 <= n <= labels.len(),
    ensures
        columns(legend_upto(labels, n)) == legend_columns(labels, n),
        legend_columns(labels, n) >= 0,
    decreases n,
{
    if n > 0 {
        reveal_strlit("/");
        lemma_legend_columns(labels, n - 1);
        let before = legend_upto(labels, n - 1);
        let slash = Run { text: "/"@, color: None };
        let with = if n > 1 {
            before.push(slash)
        } else {
            before
        };
        lemma_columns_push(before, slash);
        lemma_columns_push(
            with,
            Run {
                text: seq![labels[n - 1].glyph] + labels[n - 1].text,
                color: Some(labels[n - 1].color),
            },
        );
    }
}

proof fn lemma_legend_grows(labels: Seq<Mark>, n: int, m: int)
    requires
        0 <= n <= m <= labels.len(),
    ensures
        legend_columns(labels, n) <= legend_columns(labels, m),
    decreases m,
{
    if n < m {
        lemma_legend_grows(labels, n, m - 1);
    }
}

/// The labels of a bar, and how many columns they take.
pub fn legend(labels: &[Label]) -> (r: (Vec<Span>, usize))
    requires
        legend_columns(marks(labels@), labels@.len() as int) <= usize::MAX,
    ensures
        runs(r.0@) == legend_upto(marks(labels@), labels@.len() as int),
        r.1 == columns(runs(r.0@)),
{
    let mut out: Vec<Span> = Vec::new();
    let mut cols: usize = 0;
    let mut i: usize = 0;
    assert(runs(out@) =~= Seq::empty());
    while i < labels.len()
        invariant
            i <= labels@.len(),
            legend_columns(marks(labels@), labels@.len() as int) <= usize::MAX,
            runs(out@) == legend_upto(marks(labels@), i as int),
            cols == legend_columns(marks(labels@), i as int),
        decreases labels.len() - i,
    {
        proof {
            lemma_legend_grows(marks(labels@), i + 1, labels@.len() as int);
            lemma_legend_columns(marks(labels@), i as int);
        }
        if i > 0 {
            push_span(&mut out, "/".to_owned(), None);
            cols = cols + 1;
        }
        let mut t = String::new();
        t.push(labels[i].glyph);
        t.append(labels[i].text.as_str());
        assert(t@ =~= seq![labels@[i as int].glyph] + labels@[i as int].text@);
        push_span(&mut out, t, Some(labels[i].color));
        cols = cols + labels[i].text.as_str().unicode_len() + 1;
        i += 1;
    }
    proof {
        lemma_legend_columns(marks(labels@), labels@.len() as int);
    }
    (out, cols)
}

/// A label set right in its column, with the bracket that opens a bar.
pub open spec fn prefix_of(label: Seq<char>, label_w: nat) -> Seq<char> {
    let gap = if label.len() < label_w {
        (label_w - label.len()) as nat
    } else {
        0
    };
    seq![' '] + repeated(' ', gap) + label + seq![' ', '[']
}

pub fn bar_prefix(label: &str, label_w: usize) -> (r: String)
    ensures
        r@ == prefix_of(label@, label_w as nat),
{
    let n: usize = label.unicode_len();
    let gap: usize = if n < label_w {
        label_w - n
    } else {
        0
    };
    let mut s = String::new();
    s.push(' ');
    s.append(repeat(' ', gap).as_str());
    s.append(label);
    s.push(' ');
    s.push('[');
    assert(s@ =~= prefix_of(label@, label_w as nat));
    s
}

/// The memory of a card of its own, which has a capacity of its own.
pub open spec fn own_vram(tree: HostTree) -> Option<u64> {
    match tree.vram_total_bytes {
        Some(v) => if !tree.unified_memory && v > 0 {
            Some(v)
        } else {
            None
        },
        None => None,
    }
}

pub fn discrete_vram(tree: &HostTree) -> (r: Option<u64>)
    ensures
        r == own_vram(*tree),
{
    match tree.vram_total_bytes {
        Some(v) => if !tree.unified_memory && v > 0 {
            Some(v)
        } else {
            None
        },
        None => None,
    }
}

/// The length of the longest label on the screen.
pub open spec fn label_columns(tree: HostTree) -> nat {
    if tree.swap_total_bytes > 0 || own_vram(tree) is Some {
        4
    } else {
        3
    }
}

pub fn label_width(tree: &HostTree) -> (r: usize)
    ensures
        r == label_columns(*tree),
{
    if tree.swap_total_bytes > 0 || discrete_vram(tree).is_some() {
        4
    } else {
        3
    }
}

/// What is used of a whole, with the bracket that closes a bar.
pub open spec fn usage_of(used: u64, whole_of: u64) -> Seq<char> {
    seq![']', ' '] + once::bytes_text(used as nat) + seq!['/'] + once::bytes_text(
        whole_of as nat,
    ) + seq![' ', ' ']
}

fn usage(used: u64, whole_of: u64) -> (r: String)
    ensures
        r@ == usage_of(used, whole_of),
{
    let mut s = String::new();
    s.push(']');
    s.push(' ');
    s.append(once::fmt_bytes(Some(used)).as_str());
    s.push('/');
    s.append(once::fmt_bytes(Some(whole_of)).as_str());
    s.push(' ');
    s.push(' ');
    assert(s@ =~= usage_of(used, whole_of));
    s
}

/// One of at least one.
pub open spec fn at_least_one(n: u64) -> u64 {
    if n == 0 {
        1
    } else {
        n
    }
}

/// What is left of a width.
pub open spec fn left_of(width: int, taken: int) -> int {
    if width < taken {
        0
    } else {
        width - taken
    }
}

/// The columns of the bar in a group: what its text leaves.
pub open spec fn group_bar(
    label: Seq<char>,
    label_w: nat,
    width: int,
    used: u64,
    whole_of: u64,
    labels: Seq<Mark>,
) -> int {
    left_of(
        width,
        prefix_of(label, label_w).len() + usage_of(used, whole_of).len() + legend_columns(
            labels,
            labels.len() as int,
        ),
    )
}

/// A label, a bar that takes what is left, the figures and the legend.
pub open spec fn group_runs(
    label: Seq<char>,
    label_w: nat,
    width: usize,
    parts: Seq<Part>,
    used: u64,
    whole_of: u64,
    labels: Seq<Mark>,
    light: char,
) -> Seq<Run> {
    let bar_w = group_bar(label, label_w, width as int, used, whole_of, labels);
    seq![Run { text: prefix_of(label, label_w), color: None }] + bar(
        bar_w as usize,
        parts,
        at_least_one(whole_of),
        light,
    ) + seq![Run { text: usage_of(used, whole_of), color: None }] + legend_upto(
        labels,
        labels.len() as int,
    )
}

/// A group takes exactly the width it is given, where its text fits.
pub proof fn law_a_group_fills_its_width(
    label: Seq<char>,
    label_w: nat,
    width: usize,
    parts: Seq<Part>,
    used: u64,
    whole_of: u64,
    labels: Seq<Mark>,
    light: char,
)
    requires
        total(weights(parts)) <= at_least_one(whole_of),
        prefix_of(label, label_w).len() + usage_of(used, whole_of).len() + legend_columns(
            labels,
            labels.len() as int,
        ) <= width,
    ensures
        columns(group_runs(label, label_w, width, parts, used, whole_of, labels, light)) == width,
{
    let bar_w = group_bar(label, label_w, width as int, used, whole_of, labels);
    lemma_legend_columns(labels, labels.len() as int);
    law_a_bar_fills_its_width(bar_w as usize, parts, at_least_one(whole_of), light);
    lemma_around(
        Run { text: prefix_of(label, label_w), color: None },
        bar(bar_w as usize, parts, at_least_one(whole_of), light),
        Run { text: usage_of(used, whole_of), color: None },
        legend_upto(labels, labels.len() as int),
    );
}

proof fn lemma_around(a: Run, b: Seq<Run>, c: Run, d: Seq<Run>)
    ensures
        columns(seq![a] + b + seq![c] + d) == a.text.len() + columns(b) + c.text.len() + columns(d),
{
    lemma_columns_push(Seq::empty(), a);
    assert(Seq::<Run>::empty().push(a) =~= seq![a]);
    lemma_columns_push(Seq::empty(), c);
    assert(Seq::<Run>::empty().push(c) =~= seq![c]);
    lemma_columns_join(seq![a], b);
    lemma_columns_join(seq![a] + b, seq![c]);
    lemma_columns_join(seq![a] + b + seq![c], d);
}

fn room(width: usize, a: usize, b: usize, c: usize) -> (r: usize)
    ensures
        r == left_of(width as int, a + b + c),
{
    width.saturating_sub(a).saturating_sub(b).saturating_sub(c)
}

/// Draws one group, and says how wide its bar is.
fn bar_group(
    label: &str,
    label_w: usize,
    width: usize,
    parts: &[Part],
    used: u64,
    whole_of: u64,
    labels: &[Label],
    light: char,
) -> (r: (Vec<Span>, usize))
    requires
        total(weights(parts@)) <= at_least_one(whole_of),
        legend_columns(marks(labels@), labels@.len() as int) <= usize::MAX,
    ensures
        runs(r.0@) == group_runs(
            label@,
            label_w as nat,
            width,
            parts@,
            used,
            whole_of,
            marks(labels@),
            light,
        ),
        r.1 == group_bar(label@, label_w as nat, width as int, used, whole_of, marks(labels@)),
{
    let prefix = bar_prefix(label, label_w);
    let mid = usage(used, whole_of);
    let (tail, tail_w) = legend(labels);
    proof {
        lemma_legend_columns(marks(labels@), labels@.len() as int);
    }
    let bar_w: usize = room(
        width,
        prefix.as_str().unicode_len(),
        mid.as_str().unicode_len(),
        tail_w,
    );
    let capacity: u64 = if whole_of == 0 {
        1
    } else {
        whole_of
    };
    proof {
        law_cells_add_up(weights(parts@), capacity, bar_w);
    }
    let ghost p = Run { text: prefix@, color: None };
    let ghost m = Run { text: mid@, color: None };
    let drawn = stacked_bar(bar_w, parts, capacity, light);
    let ghost d = runs(drawn@);
    let ghost t = runs(tail@);
    let mut out: Vec<Span> = Vec::new();
    assert(runs(out@) =~= Seq::empty());
    push_span(&mut out, prefix, None);
    push_all(&mut out, drawn);
    push_span(&mut out, mid, None);
    push_all(&mut out, tail);
    assert((Seq::<Run>::empty().push(p) + d).push(m) + t =~= seq![p] + d + seq![m] + t);
    (out, bar_w)
}

/// What is known, else nothing.
pub open spec fn or_none(n: Option<u64>) -> u64 {
    match n {
        Some(v) => v,
        None => 0,
    }
}

fn zero_if_unknown(n: Option<u64>) -> (r: u64)
    ensures
        r == or_none(n),
{
    match n {
        Some(v) => v,
        None => 0,
    }
}

/// The page cache that can be given back.
pub open spec fn reclaimable(tree: HostTree) -> u64 {
    if tree.mem_cached_bytes > tree.mem_shmem_bytes {
        (tree.mem_cached_bytes - tree.mem_shmem_bytes) as u64
    } else {
        0
    }
}

/// The parts of the memory bar: what graphics clients hold of the memory in
/// use, the rest of it, and beyond it what can be given back.
pub open spec fn memory_parts(tree: HostTree, set: GlyphSet) -> Seq<Part> {
    let host = types::tree_weight(tree);
    let vram = if tree.unified_memory {
        or_none(host.vram_bytes)
    } else {
        0
    };
    let p = mem::painted(
        tree.mem_used_bytes,
        tree.mem_total_bytes,
        seq![vram, or_none(host.gtt_bytes), 0, 0, 0, 0],
        seq![reclaimable(tree), 0, tree.mem_buffers_bytes],
    );
    seq![
        Part {
            weight: p[0],
            color: Color::LightRed,
            glyph: glyph::either(set, '\u{2580}', '%'),
        },
        Part {
            weight: p[1],
            color: Color::LightCyan,
            glyph: glyph::either(set, '\u{2584}', '*'),
        },
        Part { weight: p[6], color: Color::Gray, glyph: glyph::either(set, '\u{2588}', '#') },
        Part { weight: p[7], color: Color::Blue, glyph: glyph::either(set, '\u{2593}', '=') },
        Part { weight: p[9], color: Color::Green, glyph: glyph::either(set, '\u{2592}', '+') },
    ]
}

/// The legend of the memory bar: the graphics memory only where it is a part
/// of the machine's own.
pub open spec fn memory_marks(unified: bool, set: GlyphSet) -> Seq<Mark> {
    let rest = seq![
        Mark {
            text: "gtt"@,
            color: Color::LightCyan,
            glyph: glyph::either(set, '\u{2584}', '*'),
        },
        Mark { text: "cache"@, color: Color::Blue, glyph: glyph::either(set, '\u{2593}', '=') },
        Mark { text: "buf"@, color: Color::Green, glyph: glyph::either(set, '\u{2592}', '+') },
    ];
    if unified {
        seq![
            Mark {
                text: "vram"@,
                color: Color::LightRed,
                glyph: glyph::either(set, '\u{2580}', '%'),
            },
        ] + rest
    } else {
        rest
    }
}

proof fn lemma_memory_parts(tree: HostTree, set: GlyphSet)
    ensures
        total(weights(memory_parts(tree, set))) <= tree.mem_total_bytes,
{
    let host = types::tree_weight(tree);
    let vram = if tree.unified_memory {
        or_none(host.vram_bytes)
    } else {
        0
    };
    let inside = seq![vram, or_none(host.gtt_bytes), 0, 0, 0, 0];
    let beyond = seq![reclaimable(tree), 0, tree.mem_buffers_bytes];
    mem::law_the_painted_parts_fill_what_is_used(
        tree.mem_used_bytes,
        tree.mem_total_bytes,
        inside,
        beyond,
    );
    let w = weights(memory_parts(tree, set));
    reveal_with_fuel(total_upto, 6);
    assert(w.len() == 5);
    assert(total(w) == w[0] + w[1] + w[2] + w[3] + w[4]);
}

fn label(text: &str, color: Color, glyph: char) -> (r: Label)
    ensures
        r@ == (Mark { text: text@, color, glyph }),
{
    Label { text: text.to_owned(), color, glyph }
}

/// The memory row: the machine's own, and beside it that of a card.
pub open spec fn memory_line(tree: HostTree, width: u16, set: GlyphSet) -> Seq<Run> {
    let w = label_columns(tree);
    let light = glyph::either(set, '\u{2591}', '.');
    let tanks = tanks_of(
        width as usize,
        if own_vram(tree) is Some {
            2
        } else {
            1
        },
    );
    let first = group_runs(
        "MEM"@,
        w,
        tanks[0] as usize,
        memory_parts(tree, set),
        tree.mem_used_bytes,
        tree.mem_total_bytes,
        memory_marks(tree.unified_memory, set),
        light,
    );
    match own_vram(tree) {
        Some(whole_of) => {
            let held = or_none(tree.vram_used_bytes);
            let used = if held < whole_of {
                held
            } else {
                whole_of
            };
            first + group_runs(
                "VRAM"@,
                w,
                tanks[1] as usize,
                seq![
                    Part {
                        weight: used,
                        color: Color::LightRed,
                        glyph: glyph::either(set, '\u{2588}', '#'),
                    },
                ],
                used,
                whole_of,
                Seq::empty(),
                light,
            )
        },
        None => first,
    }
}

/// The width of the memory bar, to which the other rows are drawn.
pub open spec fn memory_bar(tree: HostTree, width: u16, set: GlyphSet) -> int {
    let tanks = tanks_of(
        width as usize,
        if own_vram(tree) is Some {
            2
        } else {
            1
        },
    );
    group_bar(
        "MEM"@,
        label_columns(tree),
        tanks[0],
        tree.mem_used_bytes,
        tree.mem_total_bytes,
        memory_marks(tree.unified_memory, set),
    )
}

proof fn lemma_one_total(w: u64)
    ensures
        total(seq![w]) == w,
{
    reveal_with_fuel(total_upto, 2);
}

proof fn lemma_memory_legend(unified: bool, set: GlyphSet)
    ensures
        legend_columns(
            memory_marks(unified, set),
            memory_marks(unified, set).len() as int,
        ) <= 30,
{
    reveal_strlit("vram");
    reveal_strlit("gtt");
    reveal_strlit("cache");
    reveal_strlit("buf");
    reveal_with_fuel(legend_columns, 5);
    let m = memory_marks(unified, set);
    assert(m.len() == if unified {
        4int
    } else {
        3
    });
}

fn memory_labels(unified: bool, set: GlyphSet) -> (r: Vec<Label>)
    ensures
        marks(r@) == memory_marks(unified, set),
{
    let mut v: Vec<Label> = Vec::new();
    if unified {
        v.push(label("vram", Color::LightRed, glyph::quad_a(set)));
    }
    v.push(label("gtt", Color::LightCyan, glyph::quad_b(set)));
    v.push(label("cache", Color::Blue, glyph::dark(set)));
    v.push(label("buf", Color::Green, glyph::medium(set)));
    assert(marks(v@) =~= memory_marks(unified, set));
    v
}

fn memory_weights(tree: &HostTree, set: GlyphSet) -> (r: Vec<Part>)
    ensures
        r@ == memory_parts(*tree, set),
{
    let host = types::host_metrics(tree);
    let vram: u64 = if tree.unified_memory {
        zero_if_unknown(host.vram_bytes)
    } else {
        0
    };
    let gtt: u64 = zero_if_unknown(host.gtt_bytes);
    let cache: u64 = if tree.mem_cached_bytes > tree.mem_shmem_bytes {
        tree.mem_cached_bytes - tree.mem_shmem_bytes
    } else {
        0
    };
    let inside: [u64; 6] = [vram, gtt, 0, 0, 0, 0];
    let beyond: [u64; 3] = [cache, 0, tree.mem_buffers_bytes];
    let p: [u64; 10] = mem::clip_used(tree.mem_used_bytes, tree.mem_total_bytes, inside, beyond);
    assert(inside@ =~= seq![vram, gtt, 0, 0, 0, 0]);
    assert(beyond@ =~= seq![cache, 0, tree.mem_buffers_bytes]);
    let mut v: Vec<Part> = Vec::new();
    v.push(Part { weight: p[0], color: Color::LightRed, glyph: glyph::quad_a(set) });
    v.push(Part { weight: p[1], color: Color::LightCyan, glyph: glyph::quad_b(set) });
    v.push(Part { weight: p[6], color: Color::Gray, glyph: glyph::full(set) });
    v.push(Part { weight: p[7], color: Color::Blue, glyph: glyph::dark(set) });
    v.push(Part { weight: p[9], color: Color::Green, glyph: glyph::medium(set) });
    assert(v@ =~= memory_parts(*tree, set));
    v
}

/// Draws the memory row, and says how wide its first bar is.
pub fn mem_header_line(tree: &HostTree, width: u16, set: GlyphSet) -> (r: (Vec<Span>, usize))
    ensures
        runs(r.0@) == memory_line(*tree, width, set),
        r.1 == memory_bar(*tree, width, set),
{
    let own = discrete_vram(tree);
    let label_w: usize = label_width(tree);
    let light: char = glyph::light(set);
    let count: usize = if own.is_some() {
        2
    } else {
        1
    };
    let tanks: Vec<usize> = tank_widths(width as usize, count);
    proof {
        law_tanks_fill_the_row(width as usize, count);
        lemma_memory_parts(*tree, set);
        lemma_memory_legend(tree.unified_memory, set);
        assert(ints(tanks@)[0] == tanks@[0]);
    }
    let parts = memory_weights(tree, set);
    let labels = memory_labels(tree.unified_memory, set);
    assert(labels@.len() == marks(labels@).len());
    let (mut out, bar_w) = bar_group(
        "MEM",
        label_w,
        tanks[0],
        parts.as_slice(),
        tree.mem_used_bytes,
        tree.mem_total_bytes,
        labels.as_slice(),
        light,
    );
    if let Some(whole_of) = own {
        assert(ints(tanks@)[1] == tanks@[1]);
        let held: u64 = zero_if_unknown(tree.vram_used_bytes);
        let used: u64 = if held < whole_of {
            held
        } else {
            whole_of
        };
        let mut card: Vec<Part> = Vec::new();
        card.push(Part { weight: used, color: Color::LightRed, glyph: glyph::full(set) });
        let none: Vec<Label> = Vec::new();
        proof {
            assert(weights(card@) =~= seq![used]);
            lemma_one_total(used);
            assert(card@ =~= seq![
                Part {
                    weight: used,
                    color: Color::LightRed,
                    glyph: glyph::either(set, '\u{2588}', '#'),
                },
            ]);
            assert(marks(none@) =~= Seq::empty());
            assert(legend_columns(marks(none@), 0) == 0);
        }
        let (more, _) = bar_group(
            "VRAM",
            label_w,
            tanks[1],
            card.as_slice(),
            used,
            whole_of,
            none.as_slice(),
            light,
        );
        push_all(&mut out, more);
    }
    (out, bar_w)
}

/// A row drawn to the memory bar's width: a label, its bar, what stands behind
/// it, and spaces for what the bar did not take.
pub open spec fn matched(
    prefix: Seq<char>,
    parts: Seq<Part>,
    capacity: u64,
    mid: Seq<char>,
    labels: Seq<Mark>,
    width: u16,
    bar_w: int,
    light: char,
) -> Seq<Run> {
    let fits = left_of(
        width as int,
        prefix.len() + mid.len() + legend_columns(labels, labels.len() as int),
    );
    let w = if bar_w < fits {
        bar_w
    } else {
        fits
    };
    seq![Run { text: prefix, color: None }] + bar(w as usize, parts, capacity, light) + seq![
        Run { text: mid, color: None },
    ] + legend_upto(labels, labels.len() as int) + seq![
        Run { text: repeated(' ', (fits - w) as nat), color: None },
    ]
}

/// Such a row takes exactly its width, where its text fits.
pub proof fn law_a_matched_row_fills_its_width(
    prefix: Seq<char>,
    parts: Seq<Part>,
    capacity: u64,
    mid: Seq<char>,
    labels: Seq<Mark>,
    width: u16,
    bar_w: int,
    light: char,
)
    requires
        bar_w >= 0,
        0 < capacity,
        total(weights(parts)) <= capacity,
        prefix.len() + mid.len() + legend_columns(labels, labels.len() as int) <= width,
    ensures
        columns(matched(prefix, parts, capacity, mid, labels, width, bar_w, light)) == width,
{
    let fits = left_of(
        width as int,
        prefix.len() + mid.len() + legend_columns(labels, labels.len() as int),
    );
    let w = if bar_w < fits {
        bar_w
    } else {
        fits
    };
    let a = Run { text: prefix, color: None };
    let b = bar(w as usize, parts, capacity, light);
    let c = Run { text: mid, color: None };
    let d = legend_upto(labels, labels.len() as int);
    let e = Run { text: repeated(' ', (fits - w) as nat), color: None };
    lemma_legend_columns(labels, labels.len() as int);
    law_a_bar_fills_its_width(w as usize, parts, capacity, light);
    lemma_around(a, b, c, d);
    lemma_columns_push(seq![a] + b + seq![c] + d, e);
    assert((seq![a] + b + seq![c] + d).push(e) =~= seq![a] + b + seq![c] + d + seq![e]);
}

fn matched_row(
    prefix: String,
    parts: &[Part],
    capacity: u64,
    mid: String,
    labels: &[Label],
    width: u16,
    bar_w: usize,
    light: char,
) -> (r: Vec<Span>)
    requires
        0 < capacity,
        total(weights(parts@)) <= u64::MAX,
        total(weights(parts@)) <= 3 * capacity,
        legend_columns(marks(labels@), labels@.len() as int) <= usize::MAX,
    ensures
        runs(r@) == matched(
            prefix@,
            parts@,
            capacity,
            mid@,
            marks(labels@),
            width,
            bar_w as int,
            light,
        ),
{
    let (tail, tail_w) = legend(labels);
    proof {
        lemma_legend_columns(marks(labels@), labels@.len() as int);
    }
    let fits: usize = room(
        width as usize,
        prefix.as_str().unicode_len(),
        mid.as_str().unicode_len(),
        tail_w,
    );
    let w: usize = if bar_w < fits {
        bar_w
    } else {
        fits
    };
    proof {
        let t = total(weights(parts@));
        let c = capacity as int;
        lemma_total_bounds(weights(parts@), 0, parts@.len() as int);
        assert((t * w) / c <= 3 * w) by (nonlinear_arith)
            requires
                0 <= t <= 3 * c,
                c > 0,
                w >= 0,
        ;
    }
    let ghost p = Run { text: prefix@, color: None };
    let ghost m = Run { text: mid@, color: None };
    let ghost g = Run { text: repeated(' ', (fits - w) as nat), color: None };
    let drawn = stacked_bar(w, parts, capacity, light);
    let ghost d = runs(drawn@);
    let ghost t = runs(tail@);
    let mut out: Vec<Span> = Vec::new();
    assert(runs(out@) =~= Seq::empty());
    push_span(&mut out, prefix, None);
    push_all(&mut out, drawn);
    push_span(&mut out, mid, None);
    push_all(&mut out, tail);
    push_span(&mut out, repeat(' ', fits - w), None);
    assert(((Seq::<Run>::empty().push(p) + d).push(m) + t).push(g) =~= seq![p] + d + seq![m] + t
        + seq![g]);
    out
}

/// The part of the swap in use.
pub open spec fn swap_part(tree: HostTree, set: GlyphSet) -> Part {
    Part {
        weight: if tree.swap_used_bytes < tree.swap_total_bytes {
            tree.swap_used_bytes
        } else {
            tree.swap_total_bytes
        },
        color: Color::Yellow,
        glyph: glyph::either(set, '\u{2588}', '#'),
    }
}

/// The swap row: none on a machine without swap.
pub open spec fn swap_line(tree: HostTree, width: u16, bar_w: int, set: GlyphSet) -> Option<
    Seq<Run>,
> {
    if tree.swap_total_bytes == 0 {
        None
    } else {
        let part = swap_part(tree, set);
        Some(
            matched(
                prefix_of("SWAP"@, label_columns(tree)),
                seq![part],
                tree.swap_total_bytes,
                usage_of(part.weight, tree.swap_total_bytes),
                Seq::empty(),
                width,
                bar_w,
                glyph::either(set, '\u{2591}', '.'),
            ),
        )
    }
}

pub open spec fn opt_runs(v: Option<Vec<Span>>) -> Option<Seq<Run>> {
    match v {
        Some(s) => Some(runs(s@)),
        None => None,
    }
}

/// Draws the swap row.
pub fn swap_header_line(tree: &HostTree, width: u16, bar_w: usize, set: GlyphSet) -> (r: Option<
    Vec<Span>,
>)
    ensures
        opt_runs(r) == swap_line(*tree, width, bar_w as int, set),
{
    if tree.swap_total_bytes == 0 {
        return None;
    }
    let used: u64 = if tree.swap_used_bytes < tree.swap_total_bytes {
        tree.swap_used_bytes
    } else {
        tree.swap_total_bytes
    };
    let mut parts: Vec<Part> = Vec::new();
    parts.push(Part { weight: used, color: Color::Yellow, glyph: glyph::full(set) });
    let none: Vec<Label> = Vec::new();
    proof {
        assert(weights(parts@) =~= seq![used]);
        lemma_one_total(used);
        assert(parts@ =~= seq![swap_part(*tree, set)]);
        assert(marks(none@) =~= Seq::empty());
        assert(legend_columns(marks(none@), 0) == 0);
    }
    Some(
        matched_row(
            bar_prefix("SWAP", label_width(tree)),
            parts.as_slice(),
            tree.swap_total_bytes,
            usage(used, tree.swap_total_bytes),
            none.as_slice(),
            width,
            bar_w,
            glyph::light(set),
        ),
    )
}

/// A hundred percent, in hundredths of one.
pub const FULL_CPU: u64 = 10_000;

/// How the CPU time of an interval divides, in hundredths of a percent.
#[derive(Clone, Copy, Debug, PartialEq, Eq, Structural)]
pub struct CpuWeights {
    pub user: u64,
    pub system: u64,
    pub wait: u64,
}

pub open spec fn cpu_parts(w: CpuWeights, set: GlyphSet) -> Seq<Part> {
    seq![
        Part { weight: w.user, color: Color::Cyan, glyph: glyph::either(set, '\u{2588}', '#') },
        Part {
            weight: w.system,
            color: Color::Magenta,
            glyph: glyph::either(set, '\u{2593}', '='),
        },
        Part { weight: w.wait, color: Color::Yellow, glyph: glyph::either(set, '\u{2592}', '+') },
    ]
}

pub open spec fn cpu_marks(set: GlyphSet) -> Seq<Mark> {
    seq![
        Mark { text: "usr"@, color: Color::Cyan, glyph: glyph::either(set, '\u{2588}', '#') },
        Mark { text: "sys"@, color: Color::Magenta, glyph: glyph::either(set, '\u{2593}', '=') },
        Mark { text: "wait"@, color: Color::Yellow, glyph: glyph::either(set, '\u{2592}', '+') },
    ]
}

/// The busy share, set right in five columns.
pub open spec fn busy_text(busy: Seq<char>) -> Seq<char> {
    let gap = if busy.len() < 5 {
        (5 - busy.len()) as nat
    } else {
        0
    };
    seq![']', ' '] + repeated(' ', gap) + busy + seq!['%', ' ', ' ']
}

/// The CPU row.
pub open spec fn cpu_line(
    tree: HostTree,
    w: CpuWeights,
    busy: Seq<char>,
    width: u16,
    bar_w: int,
    set: GlyphSet,
) -> Seq<Run> {
    matched(
        prefix_of("CPU"@, label_columns(tree)),
        cpu_parts(w, set),
        FULL_CPU,
        busy_text(busy),
        cpu_marks(set),
        width,
        bar_w,
        glyph::either(set, '\u{2591}', '.'),
    )
}

/// Draws the CPU row: `busy` is the share in use, to one decimal.
pub fn cpu_header_line(
    tree: &HostTree,
    w: CpuWeights,
    busy: &str,
    width: u16,
    bar_w: usize,
    set: GlyphSet,
) -> (r: Vec<Span>)
    requires
        w.user <= FULL_CPU && w.system <= FULL_CPU && w.wait <= FULL_CPU,
    ensures
        runs(r@) == cpu_line(*tree, w, busy@, width, bar_w as int, set),
{
    let mut parts: Vec<Part> = Vec::new();
    parts.push(Part { weight: w.user, color: Color::Cyan, glyph: glyph::full(set) });
    parts.push(Part { weight: w.system, color: Color::Magenta, glyph: glyph::dark(set) });
    parts.push(Part { weight: w.wait, color: Color::Yellow, glyph: glyph::medium(set) });
    let mut labels: Vec<Label> = Vec::new();
    labels.push(label("usr", Color::Cyan, glyph::full(set)));
    labels.push(label("sys", Color::Magenta, glyph::dark(set)));
    labels.push(label("wait", Color::Yellow, glyph::medium(set)));
    let n: usize = busy.unicode_len();
    let gap: usize = if n < 5 {
        5 - n
    } else {
        0
    };
    let mut mid = String::new();
    mid.push(']');
    mid.push(' ');
    mid.append(repeat(' ', gap).as_str());
    mid.append(busy);
    mid.push('%');
    mid.push(' ');
    mid.push(' ');
    proof {
        assert(mid@ =~= busy_text(busy@));
        assert(parts@ =~= cpu_parts(w, set));
        assert(marks(labels@) =~= cpu_marks(set));
        let v = weights(parts@);
        assert(v =~= seq![w.user, w.system, w.wait]);
        reveal_with_fuel(total_upto, 4);
        assert(total(v) == v[0] + v[1] + v[2]);
        lemma_cpu_legend(set);
    }
    matched_row(
        bar_prefix("CPU", label_width(tree)),
        parts.as_slice(),
        FULL_CPU,
        mid,
        labels.as_slice(),
        width,
        bar_w,
        glyph::light(set),
    )
}

proof fn lemma_cpu_legend(set: GlyphSet)
    ensures
        legend_columns(cpu_marks(set), 3) <= 20,
{
    reveal_strlit("usr");
    reveal_strlit("sys");
    reveal_strlit("wait");
    reveal_with_fuel(legend_columns, 4);
}

/// Every row of the header opens its bar in the same column, whatever bars the
/// machine has.
pub proof fn law_every_bar_opens_in_the_same_column(tree: HostTree)
    ensures
        prefix_of("CPU"@, label_columns(tree)).len() == label_columns(tree) + 3,
        prefix_of("MEM"@, label_columns(tree)).len() == label_columns(tree) + 3,
        tree.swap_total_bytes > 0 ==> prefix_of("SWAP"@, label_columns(tree)).len()
            == label_columns(tree) + 3,
        own_vram(tree) is Some ==> prefix_of("VRAM"@, label_columns(tree)).len() == label_columns(
            tree,
        ) + 3,
{
    reveal_strlit("CPU");
    reveal_strlit("MEM");
    reveal_strlit("SWAP");
    reveal_strlit("VRAM");
}

/// The rows of the header: one more for a machine with swap.
pub open spec fn rows_of_header(tree: HostTree) -> u16 {
    if tree.swap_total_bytes > 0 {
        3
    } else {
        2
    }
}

/// How many rows the CPU and the memory take.
pub const HEADER_ROWS: u16 = 2;

pub fn header_rows(tree: &HostTree) -> (r: u16)
    ensures
        r == rows_of_header(*tree),
        r == HEADER_ROWS + (if tree.swap_total_bytes > 0 {
            1int
        } else {
            0
        }),
{
    if tree.swap_total_bytes > 0 {
        HEADER_ROWS + 1
    } else {
        HEADER_ROWS
    }
}

pub open spec fn lines_runs(v: Seq<Vec<Span>>) -> Seq<Seq<Run>> {
    Seq::new(v.len(), |k: int| runs(v[k]@))
}

/// The header: every row drawn to the memory bar's width.
pub open spec fn header_of(
    tree: HostTree,
    w: CpuWeights,
    busy: Seq<char>,
    width: u16,
    set: GlyphSet,
) -> Seq<Seq<Run>> {
    let bar_w = memory_bar(tree, width, set);
    let two = seq![
        cpu_line(tree, w, busy, width, bar_w, set),
        memory_line(tree, width, set),
    ];
    match swap_line(tree, width, bar_w, set) {
        Some(s) => two.push(s),
        None => two,
    }
}

/// Draws the header.
pub fn header(tree: &HostTree, w: CpuWeights, busy: &str, width: u16, set: GlyphSet) -> (r: Vec<
    Vec<Span>,
>)
    requires
        w.user <= FULL_CPU && w.system <= FULL_CPU && w.wait <= FULL_CPU,
    ensures
        lines_runs(r@) == header_of(*tree, w, busy@, width, set),
        r@.len() == rows_of_header(*tree),
{
    let (memory, bar_w) = mem_header_line(tree, width, set);
    let mut out: Vec<Vec<Span>> = Vec::new();
    out.push(cpu_header_line(tree, w, busy, width, bar_w, set));
    out.push(memory);
    let swap = swap_header_line(tree, width, bar_w, set);
    if let Some(s) = swap {
        out.push(s);
    }
    assert(lines_runs(out@) =~= header_of(*tree, w, busy@, width, set));
    out
}

} // verus!
