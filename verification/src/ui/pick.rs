//! Which rows of the table stay, and where the cursor and the screen are in it.
use vstd::prelude::*;

use crate::config;
use crate::text;
use crate::types::HostTree;
use crate::ui::filter;
use crate::ui::filter::Filter;
use crate::ui::rows;
use crate::ui::rows::{Flat, Line};

verus! {

// ---------------------------------------------------------------------------
// Keeping rows
// ---------------------------------------------------------------------------

/// The first `n` rows without those that are not kept.
pub open spec fn selected(v: Seq<Line>, keep: Seq<bool>, n: int) -> Seq<Line>
    decreases n,
{
    if n <= 0 {
        Seq::empty()
    } else if keep[n - 1] {
        selected(v, keep, n - 1).push(v[n - 1])
    } else {
        selected(v, keep, n - 1)
    }
}

fn select(all: Vec<Flat>, keep: &Vec<bool>) -> (r: Vec<Flat>)
    requires
        keep@.len() == all@.len(),
    ensures
        rows::lines(r@) == selected(rows::lines(all@), keep@, all@.len() as int),
{
    let ghost v = all@;
    let ghost lv = rows::lines(v);
    let mut all = all;
    let n: usize = all.len();
    let mut back: Vec<Flat> = Vec::new();
    assert(v.take(n as int) =~= v);
    while all.len() > 0
        invariant
            all@.len() + back@.len() == v.len(),
            all@ == v.take(all@.len() as int),
            forall|k: int| 0 <= k < back@.len() ==> #[trigger] back@[k] == v[v.len() - 1 - k],
        decreases all.len(),
    {
        let m: usize = all.len();
        match all.pop() {
            Some(f) => {
                back.push(f);
            },
            None => {},
        }
        assert(all@ =~= v.take(m - 1));
    }
    let mut out: Vec<Flat> = Vec::new();
    let mut i: usize = 0;
    assert(rows::lines(out@) =~= Seq::empty());
    while i < n
        invariant
            i <= n,
            n == v.len(),
            keep@.len() == n,
            lv == rows::lines(v),
            back@.len() == n - i,
            forall|k: int| 0 <= k < back@.len() ==> #[trigger] back@[k] == v[v.len() - 1 - k],
            rows::lines(out@) == selected(lv, keep@, i as int),
        decreases n - i,
    {
        match back.pop() {
            Some(f) => {
                assert(f == v[i as int]);
                assert(lv[i as int] == f@);
                if keep[i] {
                    let ghost before = out@;
                    out.push(f);
                    assert(rows::lines(out@) =~= rows::lines(before).push(f@));
                }
            },
            None => {},
        }
        i += 1;
    }
    out
}

/// Whether a row under row `i` is hit, from row `j` on.
pub open spec fn hit_under(v: Seq<Line>, hits: Seq<bool>, i: int, j: int) -> bool
    decreases v.len() - j,
{
    if j >= v.len() || v[j].depth <= v[i].depth {
        false
    } else {
        hits[j] || hit_under(v, hits, i, j + 1)
    }
}

/// The rows that a search keeps: those it hits, and those above them.
pub open spec fn found(v: Seq<Line>, hits: Seq<bool>) -> Seq<bool> {
    Seq::new(v.len(), |i: int| hits[i] || hit_under(v, hits, i, i + 1))
}

fn under_hit(v: &Vec<Flat>, hits: &Vec<bool>, i: usize) -> (r: bool)
    requires
        hits@.len() == v@.len(),
        i < v@.len(),
    ensures
        r == hit_under(rows::lines(v@), hits@, i as int, i + 1),
{
    let ghost l = rows::lines(v@);
    let end: usize = v.len();
    let mut j: usize = i + 1;
    assert(l[i as int] == v@[i as int]@);
    while j < end
        invariant
            i < j <= end,
            end == v@.len(),
            hits@.len() == v@.len(),
            l == rows::lines(v@),
            l[i as int] == v@[i as int]@,
            hit_under(l, hits@, i as int, i + 1) == hit_under(l, hits@, i as int, j as int),
        decreases end - j,
    {
        assert(l[j as int] == v@[j as int]@);
        if v[j].depth <= v[i].depth {
            return false;
        }
        if hits[j] {
            return true;
        }
        j += 1;
    }
    false
}

/// Keeps what a search hits, and the path to it: a folder above a hit stays,
/// one beside it does not.
pub fn keep_matches(all: Vec<Flat>, hits: &Vec<bool>) -> (r: Vec<Flat>)
    requires
        hits@.len() == all@.len(),
    ensures
        rows::lines(r@) == selected(
            rows::lines(all@),
            found(rows::lines(all@), hits@),
            all@.len() as int,
        ),
{
    let ghost want = found(rows::lines(all@), hits@);
    let mut keep: Vec<bool> = Vec::new();
    let mut i: usize = 0;
    while i < all.len()
        invariant
            i <= all@.len(),
            hits@.len() == all@.len(),
            want == found(rows::lines(all@), hits@),
            keep@.len() == i,
            forall|k: int| 0 <= k < i ==> #[trigger] keep@[k] == want[k],
        decreases all.len() - i,
    {
        let k: bool = hits[i] || under_hit(&all, hits, i);
        keep.push(k);
        i += 1;
    }
    assert(keep@ =~= want);
    select(all, &keep)
}

/// What a search looks at in a row.
pub open spec fn searched(l: Line) -> Seq<char> {
    match l.search {
        Some(s) => s,
        None => l.name,
    }
}

pub fn search_text(f: &Flat) -> (r: &str)
    ensures
        r@ == searched(f@),
{
    match &f.search {
        Some(s) => s.as_str(),
        None => f.name.as_str(),
    }
}

/// Which rows a pattern hits.
pub open spec fn hits_of(v: Seq<Line>, pattern: Seq<char>) -> Seq<bool> {
    Seq::new(v.len(), |i: int| filter::hits(pattern, searched(v[i])))
}

/// The rows that a pattern hits, and those above them.
pub open spec fn matched(v: Seq<Line>, pattern: Seq<char>) -> Seq<Line> {
    selected(v, found(v, hits_of(v, pattern)), v.len() as int)
}

/// Keeps what a pattern hits, and the path to it.
pub fn keep_rows(all: Vec<Flat>, filter: &Filter) -> (r: Vec<Flat>)
    ensures
        rows::lines(r@) == matched(rows::lines(all@), filter@),
{
    let ghost want = hits_of(rows::lines(all@), filter@);
    let mut hits: Vec<bool> = Vec::new();
    let mut i: usize = 0;
    while i < all.len()
        invariant
            i <= all@.len(),
            want == hits_of(rows::lines(all@), filter@),
            hits@.len() == i,
            forall|k: int| 0 <= k < i ==> #[trigger] hits@[k] == want[k],
        decreases all.len() - i,
    {
        hits.push(filter.is_match(search_text(&all[i])));
        i += 1;
    }
    assert(hits@ =~= want);
    keep_matches(all, &hits)
}

/// How many entries stand before row `i` in the same list, counted back from
/// row `j`.
pub open spec fn rank_from(v: Seq<Line>, i: int, j: int) -> nat
    decreases j + 1,
{
    if j < 0 || v[j].depth < v[i].depth {
        0
    } else {
        rank_from(v, i, j - 1) + if v[j].depth == v[i].depth && v[j].trimmable {
            1nat
        } else {
            0
        }
    }
}

/// The row that row `i` is under, looked for back from row `j`.
pub open spec fn parent_from(v: Seq<Line>, i: int, j: int) -> Option<int>
    decreases j + 1,
{
    if j < 0 {
        None
    } else if v[j].depth < v[i].depth {
        Some(j)
    } else {
        parent_from(v, i, j - 1)
    }
}

/// Whether row `i` is among the first `n` entries of its list, and so is every
/// row that it is under.
pub open spec fn near_top(v: Seq<Line>, n: nat, i: int) -> bool
    decreases i,
{
    &&& v[i].trimmable ==> rank_from(v, i, i - 1) < n
    &&& match parent_from(v, i, i - 1) {
        Some(p) => if 0 <= p < i {
            near_top(v, n, p)
        } else {
            true
        },
        None => true,
    }
}

pub open spec fn top_of(v: Seq<Line>, n: nat) -> Seq<bool> {
    Seq::new(v.len(), |i: int| near_top(v, n, i))
}

fn rank(v: &Vec<Flat>, i: usize) -> (r: usize)
    requires
        i < v@.len(),
    ensures
        r == rank_from(rows::lines(v@), i as int, i - 1),
{
    let ghost l = rows::lines(v@);
    let mut n: usize = 0;
    let mut j: usize = i;
    assert(l[i as int] == v@[i as int]@);
    while j > 0
        invariant
            j <= i < v@.len(),
            n <= i - j,
            l == rows::lines(v@),
            l[i as int] == v@[i as int]@,
            rank_from(l, i as int, i - 1) == n + rank_from(l, i as int, j - 1),
        decreases j,
    {
        assert(l[j - 1] == v@[j - 1]@);
        if v[j - 1].depth < v[i].depth {
            return n;
        }
        if v[j - 1].depth == v[i].depth && v[j - 1].trimmable {
            n += 1;
        }
        j -= 1;
    }
    n
}

fn parent(v: &Vec<Flat>, i: usize) -> (r: Option<usize>)
    requires
        i < v@.len(),
    ensures
        match r {
            Some(p) => p < i && parent_from(rows::lines(v@), i as int, i - 1) == Some(p as int),
            None => parent_from(rows::lines(v@), i as int, i - 1) is None,
        },
{
    let ghost l = rows::lines(v@);
    let mut j: usize = i;
    assert(l[i as int] == v@[i as int]@);
    while j > 0
        invariant
            j <= i < v@.len(),
            l == rows::lines(v@),
            l[i as int] == v@[i as int]@,
            parent_from(l, i as int, i - 1) == parent_from(l, i as int, j - 1),
        decreases j,
    {
        assert(l[j - 1] == v@[j - 1]@);
        if v[j - 1].depth < v[i].depth {
            return Some(j - 1);
        }
        j -= 1;
    }
    None
}

/// Keeps the first `n` entries of every list, with what is under them.
pub fn keep_top(all: Vec<Flat>, n: usize) -> (r: Vec<Flat>)
    ensures
        rows::lines(r@) == selected(
            rows::lines(all@),
            top_of(rows::lines(all@), n as nat),
            all@.len() as int,
        ),
{
    let ghost l = rows::lines(all@);
    let ghost want = top_of(l, n as nat);
    let mut keep: Vec<bool> = Vec::new();
    let mut i: usize = 0;
    while i < all.len()
        invariant
            i <= all@.len(),
            l == rows::lines(all@),
            want == top_of(l, n as nat),
            keep@.len() == i,
            forall|k: int| 0 <= k < i ==> #[trigger] keep@[k] == want[k],
        decreases all.len() - i,
    {
        assert(l[i as int] == all@[i as int]@);
        let own: bool = !all[i].trimmable || rank(&all, i) < n;
        let over: bool = match parent(&all, i) {
            Some(p) => keep[p],
            None => true,
        };
        assert(want[i as int] == near_top(l, n as nat, i as int));
        keep.push(own && over);
        i += 1;
    }
    assert(keep@ =~= want);
    select(all, &keep)
}

/// The rows within a limit, where there is one.
pub open spec fn limited(v: Seq<Line>, top: Option<usize>) -> Seq<Line> {
    match top {
        Some(n) => selected(v, top_of(v, n as nat), v.len() as int),
        None => v,
    }
}

/// The rows of the table: those that are open, of them what the pattern hits
/// where a filter is typed, and of those the first of every list.
pub open spec fn shown(
    tree: HostTree,
    open: Seq<Seq<char>>,
    typed: Seq<char>,
    pattern: Option<Seq<char>>,
    top: Option<usize>,
) -> Seq<Line> {
    let by = if typed.len() == 0 {
        None
    } else {
        pattern
    };
    let v = rows::tree_lines(tree, open, by is Some);
    limited(
        match by {
            Some(p) => matched(v, p),
            None => v,
        },
        top,
    )
}

/// The rows of the table. `filter` is the last pattern that could be searched
/// by; it counts for nothing where no filter is typed.
pub fn flatten(
    tree: &HostTree,
    expand: &Vec<String>,
    view: &config::View,
    filter: &Option<Filter>,
) -> (r: Vec<Flat>)
    ensures
        rows::lines(r@) == shown(
            *tree,
            text::texts(expand@),
            view.filter@,
            filter::searched_by(*filter),
            view.top,
        ),
{
    let kept: Vec<Flat> = match filter {
        Some(f) if !view.filter.as_str().is_empty() => keep_rows(
            rows::tree_rows(tree, expand, true),
            f,
        ),
        _ => rows::tree_rows(tree, expand, false),
    };
    match view.top {
        Some(n) => keep_top(kept, n),
        None => kept,
    }
}

/// A row that a search hits stays, and so does every row above it.
pub proof fn law_a_hit_keeps_its_path(v: Seq<Line>, hits: Seq<bool>, i: int, j: int)
    requires
        hits.len() == v.len(),
        0 <= i < j < v.len(),
        hits[j],
        forall|k: int| i < k <= j ==> #[trigger] v[k].depth > v[i].depth,
    ensures
        found(v, hits)[i],
        found(v, hits)[j],
{
    lemma_hit_reaches(v, hits, i, i + 1, j);
}

proof fn lemma_hit_reaches(v: Seq<Line>, hits: Seq<bool>, i: int, m: int, j: int)
    requires
        hits.len() == v.len(),
        0 <= i < m <= j < v.len(),
        hits[j],
        forall|k: int| i < k <= j ==> #[trigger] v[k].depth > v[i].depth,
    ensures
        hit_under(v, hits, i, m),
    decreases j - m,
{
    assert(v[m].depth > v[i].depth);
    if m < j {
        lemma_hit_reaches(v, hits, i, m + 1, j);
    }
}

/// A row stays only where a search hits it or something under it.
pub proof fn law_nothing_else_stays(v: Seq<Line>, hits: Seq<bool>, i: int)
    requires
        hits.len() == v.len(),
        0 <= i < v.len(),
        found(v, hits)[i],
    ensures
        hits[i] || exists|j: int|
            i < j < v.len() && #[trigger] hits[j] && forall|k: int|
                i < k <= j ==> #[trigger] v[k].depth > v[i].depth,
{
    if !hits[i] {
        lemma_hit_found(v, hits, i, i + 1);
    }
}

proof fn lemma_hit_found(v: Seq<Line>, hits: Seq<bool>, i: int, m: int)
    requires
        hits.len() == v.len(),
        0 <= i < m,
        hit_under(v, hits, i, m),
        forall|k: int| i < k < m ==> #[trigger] v[k].depth > v[i].depth,
    ensures
        exists|j: int|
            i < j < v.len() && #[trigger] hits[j] && forall|k: int|
                i < k <= j ==> #[trigger] v[k].depth > v[i].depth,
    decreases v.len() - m,
{
    if hits[m] {
        assert(i < m < v.len() && hits[m]);
    } else {
        lemma_hit_found(v, hits, i, m + 1);
    }
}

// ---------------------------------------------------------------------------
// The cursor
// ---------------------------------------------------------------------------

/// The first row with an id, from row `i` on.
pub open spec fn row_at(v: Seq<Line>, id: Seq<char>, i: int) -> Option<int>
    decreases v.len() - i,
{
    if i < 0 || i >= v.len() {
        None
    } else if v[i].id == id {
        Some(i)
    } else {
        row_at(v, id, i + 1)
    }
}

proof fn lemma_before_last_shrinks(s: Seq<char>, c: char)
    ensures
        text::before_last(s, c) matches Some(p) ==> p.len() < s.len(),
    decreases s.len(),
{
    if s.len() > 0 {
        lemma_before_last_shrinks(s.drop_last(), c);
    }
}

/// The row of an id, or of the nearest one above it that is left; the first
/// where none is.
pub open spec fn row_of(v: Seq<Line>, id: Seq<char>) -> int
    decreases id.len(),
{
    match row_at(v, id, 0) {
        Some(i) => i,
        None => match text::before_last(id, '/') {
            Some(p) => if p.len() < id.len() {
                row_of(v, p)
            } else {
                0
            },
            None => 0,
        },
    }
}

fn find_row(v: &Vec<Flat>, id: &str) -> (r: Option<usize>)
    ensures
        match r {
            Some(i) => i < v@.len() && row_at(rows::lines(v@), id@, 0) == Some(i as int),
            None => row_at(rows::lines(v@), id@, 0) is None,
        },
{
    let ghost l = rows::lines(v@);
    let mut i: usize = 0;
    while i < v.len()
        invariant
            i <= v@.len(),
            l == rows::lines(v@),
            row_at(l, id@, 0) == row_at(l, id@, i as int),
        decreases v.len() - i,
    {
        assert(l[i as int] == v@[i as int]@);
        if text::same_str(v[i].id.as_str(), id) {
            return Some(i);
        }
        i += 1;
    }
    None
}

/// Where the cursor is after the rows have changed: it stays on its row, not
/// at its place.
pub fn remap_cursor(v: &Vec<Flat>, id: &str) -> (r: usize)
    ensures
        r == row_of(rows::lines(v@), id@),
        v@.len() > 0 ==> r < v@.len(),
{
    let ghost l = rows::lines(v@);
    let mut probe: &str = id;
    loop
        invariant
            l == rows::lines(v@),
            row_of(l, id@) == row_of(l, probe@),
        decreases probe@.len(),
    {
        if let Some(i) = find_row(v, probe) {
            return i;
        }
        proof {
            lemma_before_last_shrinks(probe@, '/');
        }
        match text::str_before_last(probe, '/') {
            Some(p) => {
                probe = p;
            },
            None => {
                return 0;
            },
        }
    }
}

/// As long as a row with the id is left, the cursor is on one.
pub proof fn law_the_cursor_stays_on_its_row(v: Seq<Line>, id: Seq<char>, k: int)
    requires
        0 <= k < v.len(),
        v[k].id == id,
    ensures
        0 <= row_of(v, id) < v.len(),
        v[row_of(v, id)].id == id,
{
    lemma_row_at(v, id, 0, k);
}

proof fn lemma_row_at(v: Seq<Line>, id: Seq<char>, i: int, k: int)
    requires
        0 <= i <= k < v.len(),
        v[k].id == id,
    ensures
        row_at(v, id, i) matches Some(r) && i <= r < v.len() && v[r].id == id,
    decreases k - i,
{
    if v[i].id != id {
        lemma_row_at(v, id, i + 1, k);
    }
}

// ---------------------------------------------------------------------------
// The screen
// ---------------------------------------------------------------------------

pub open spec fn lesser(a: int, b: int) -> int {
    if a < b {
        a
    } else {
        b
    }
}

/// The first row on the screen: moved as little as keeps the selected one on
/// it, and never past the last screenful.
pub open spec fn first_row(selected_row: int, offset: int, visible: int, n: int) -> int {
    if visible == 0 || n == 0 {
        0
    } else {
        let last = if n < visible {
            0
        } else {
            n - visible
        };
        if selected_row < offset {
            lesser(selected_row, last)
        } else if selected_row >= offset + visible {
            lesser(selected_row + 1 - visible, last)
        } else {
            lesser(offset, last)
        }
    }
}

pub fn follow_viewport(selected_row: usize, offset: usize, visible: usize, n: usize) -> (r: usize)
    ensures
        r == first_row(selected_row as int, offset as int, visible as int, n as int),
{
    if visible == 0 || n == 0 {
        return 0;
    }
    let last: usize = if n < visible {
        0
    } else {
        n - visible
    };
    let want: usize = if selected_row < offset {
        selected_row
    } else if selected_row - offset >= visible {
        selected_row - (visible - 1)
    } else {
        offset
    };
    if want < last {
        want
    } else {
        last
    }
}

/// The selected row is on the screen, and so is every row there is room for.
pub proof fn law_the_selected_row_is_on_the_screen(
    selected_row: nat,
    offset: nat,
    visible: nat,
    n: nat,
)
    requires
        visible > 0,
        selected_row < n,
    ensures
        ({
            let first = first_row(
                selected_row as int,
                offset as int,
                visible as int,
                n as int,
            );
            &&& 0 <= first <= selected_row < first + visible
            &&& first + visible <= n || first == 0
        }),
{
}

/// How many rows of the table the screen has room for: all but the header, two
/// rules, the column titles and the footer.
pub fn table_body_rows(term_h: u16, header: u16) -> (r: usize)
    requires
        header <= u16::MAX - 4,
    ensures
        r == if term_h < header + 4 {
            0
        } else {
            term_h - (header + 4)
        },
{
    term_h.saturating_sub(header + 4) as usize
}

/// A process row's id ends in its pid; no other row is one process.
pub open spec fn pid_in(id: Seq<char>) -> Option<u32> {
    match last_mark(id, id.len() as int) {
        Some(i) => match text::number_upto(id.skip(i + 3), u32::MAX as nat) {
            Some(n) => Some(n as u32),
            None => None,
        },
        None => None,
    }
}

/// The last `/p/` that begins before `n`.
pub open spec fn last_mark(id: Seq<char>, n: int) -> Option<int>
    decreases n,
{
    if n <= 0 {
        None
    } else if text::occurs_at(id, "/p/"@, n - 1) {
        Some(n - 1)
    } else {
        last_mark(id, n - 1)
    }
}

pub fn row_pid(id: &str) -> (r: Option<u32>)
    ensures
        r == pid_in(id@),
{
    let v = text::chars_of(id);
    let mark = text::chars_of("/p/");
    let total: usize = v.len();
    let mut n: usize = total;
    while n > 0
        invariant
            n <= total,
            total == v@.len(),
            v@ == id@,
            mark@ == "/p/"@,
            last_mark(id@, id@.len() as int) == last_mark(id@, n as int),
        decreases n,
    {
        if text::occurs(v.as_slice(), mark.as_slice(), n - 1) {
            proof {
                reveal_strlit("/p/");
                assert(n + 2 <= total);
            }
            let from: usize = n + 2;
            let tail = text::cut(v.as_slice(), from, v.len());
            assert(tail@ =~= id@.skip(n + 2));
            return match text::parse_number(tail.as_slice(), u32::MAX as u64) {
                Some(x) => Some(x as u32),
                None => None,
            };
        }
        n -= 1;
    }
    None
}

} // verus!
