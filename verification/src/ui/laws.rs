//! What each key does to the table, and which rows and columns it then shows.
use vstd::prelude::*;

use crate::text;
use crate::text::laws::lacks;
use crate::ui::columns;
use crate::ui::columns::Head;
use crate::ui::pick;
use crate::ui::press;
use crate::ui::press::{Action, Held, Key, Screen};
use crate::ui::rows::Line;

verus! {

// ---------------------------------------------------------------------------
// Keys
// ---------------------------------------------------------------------------

/// What a key alone does to the table.
pub open spec fn after(s: Screen, key: Key, v: Seq<Line>, all: Seq<Head>) -> Screen {
    press::pressed(s, key, Held { control: false, alt: false, meta: false }, v, all, 0).0
}

/// What a key alone leaves to do.
pub open spec fn asked(s: Screen, key: Key, v: Seq<Line>, all: Seq<Head>) -> Action {
    press::pressed(s, key, Held { control: false, alt: false, meta: false }, v, all, 0).1
}

/// No overlay takes the keys.
pub open spec fn bare(s: Screen) -> bool {
    !s.filter_edit && !s.help && !s.detail
}

/// Up goes one row up and down one row down, so that either undoes the other;
/// `k` and `j` do the same. Nothing else of the table changes.
pub proof fn law_up_and_down(s: Screen, v: Seq<Line>, all: Seq<Head>)
    requires
        bare(s),
        s.cursor < v.len() <= usize::MAX,
    ensures
        ({
            let (up, down) = (after(s, Key::Up, v, all), after(s, Key::Down, v, all));
            &&& s.cursor > 0 ==> up.cursor + 1 == s.cursor && after(up, Key::Down, v, all) == s
            &&& s.cursor == 0 ==> up == s
            &&& s.cursor + 1 < v.len() ==> down.cursor == s.cursor + 1 && after(
                down,
                Key::Up,
                v,
                all,
            ) == s
            &&& s.cursor + 1 == v.len() ==> down == s
            &&& after(s, Key::Char('k'), v, all) == up
            &&& after(s, Key::Char('j'), v, all) == down
        }),
{
}

/// A page is what the screen shows; paging stops at either end, and the ends
/// are one key away.
pub proof fn law_pages_and_ends(s: Screen, v: Seq<Line>, all: Seq<Head>)
    requires
        bare(s),
        s.cursor < v.len() <= usize::MAX,
        s.row_vis > 0,
    ensures
        ({
            let (next, prev) = (after(s, Key::PageDown, v, all), after(s, Key::PageUp, v, all));
            &&& s.cursor + s.row_vis < v.len() ==> next.cursor == s.cursor + s.row_vis
            &&& s.cursor + s.row_vis >= v.len() ==> next.cursor == v.len() - 1
            &&& s.cursor >= s.row_vis ==> prev.cursor + s.row_vis == s.cursor
            &&& s.cursor < s.row_vis ==> prev.cursor == 0
            &&& after(s, Key::Home, v, all).cursor == 0
            &&& after(s, Key::End, v, all).cursor == v.len() - 1
        }),
{
}

/// `d` turns the order round, and twice leaves it; nothing else changes.
pub proof fn law_the_order_turns_round(s: Screen, v: Seq<Line>, all: Seq<Head>)
    requires
        bare(s),
    ensures
        after(s, Key::Char('d'), v, all) == (Screen { desc: !s.desc, ..s }),
        after(after(s, Key::Char('d'), v, all), Key::Char('d'), v, all) == s,
{
}

/// Letters typed into the filter are its text, one after the other; backspace
/// takes the last back, Escape drops the text, Enter keeps it, and both leave.
pub proof fn law_typing_a_filter(s: Screen, c: char, v: Seq<Line>, all: Seq<Head>)
    requires
        s.filter_edit,
    ensures
        after(s, Key::Char(c), v, all).filter == s.filter + seq![c],
        after(after(s, Key::Char(c), v, all), Key::Backspace, v, all).filter == s.filter,
        after(s, Key::Char(c), v, all).filter_edit,
        after(s, Key::Esc, v, all).filter.len() == 0,
        !after(s, Key::Esc, v, all).filter_edit,
        after(s, Key::Enter, v, all).filter == s.filter,
        !after(s, Key::Enter, v, all).filter_edit,
        asked(s, Key::Char(c), v, all) == Action::Stay,
        asked(s, Key::Esc, v, all) == Action::Stay,
{
    assert(s.filter.push(c) =~= s.filter + seq![c]);
    assert(s.filter.push(c).drop_last() =~= s.filter);
}

/// `/` begins a filter, `q` and Escape leave, and `s` saves: each of them
/// changes nothing else.
pub proof fn law_leaving_saving_searching(s: Screen, v: Seq<Line>, all: Seq<Head>)
    requires
        bare(s),
    ensures
        after(s, Key::Char('/'), v, all) == (Screen { filter_edit: true, ..s }),
        asked(s, Key::Char('/'), v, all) == Action::Stay,
        asked(s, Key::Char('q'), v, all) == Action::Quit,
        asked(s, Key::Esc, v, all) == Action::Quit,
        after(s, Key::Char('q'), v, all) == s,
        asked(s, Key::Char('s'), v, all) == Action::Save,
        asked(s, Key::Char('S'), v, all) == Action::Save,
        after(s, Key::Char('s'), v, all) == s,
{
}

/// The help, the detail and the pause come and go by one key each; Escape
/// closes an overlay before it leaves.
pub proof fn law_overlays_come_and_go(s: Screen, v: Seq<Line>, all: Seq<Head>, now: u64)
    requires
        !s.filter_edit,
    ensures
        after(s, Key::Char('?'), v, all).help == !s.help,
        after(s, Key::F(1), v, all).help == !s.help,
        after(s, Key::Char('i'), v, all).detail == !s.detail,
        s.help ==> !after(s, Key::Esc, v, all).help && asked(s, Key::Esc, v, all) == Action::Stay,
        !s.help && s.detail ==> !after(s, Key::Esc, v, all).detail && asked(s, Key::Esc, v, all)
            == Action::Stay,
        ({
            let none = Held { control: false, alt: false, meta: false };
            let paused = press::pressed(s, Key::Char('p'), none, v, all, now).0.paused;
            &&& s.paused is None ==> paused == Some(now)
            &&& s.paused is Some ==> paused is None
        }),
{
}

/// Left closes the row under the cursor; Right, Enter, Space and `l` open it
/// where it is closed and close it where it is open, if there is anything in
/// it.
pub proof fn law_opening_and_closing(s: Screen, v: Seq<Line>, all: Seq<Head>, x: Seq<char>)
    requires
        bare(s),
        s.cursor < v.len(),
    ensures
        ({
            let row = v[s.cursor as int];
            let (left, right) = (after(s, Key::Left, v, all), after(s, Key::Right, v, all));
            &&& left.expand.contains(x) <==> s.expand.contains(x) && x != row.id
            &&& after(s, Key::Char('h'), v, all) == left
            &&& row.expandable ==> (right.expand.contains(row.id) <==> !s.expand.contains(row.id))
            &&& x != row.id ==> (right.expand.contains(x) <==> s.expand.contains(x))
            &&& !row.expandable ==> right == s
            &&& after(s, Key::Enter, v, all) == right
            &&& after(s, Key::Char(' '), v, all) == right
            &&& after(s, Key::Char('l'), v, all) == right
            &&& left.cursor == s.cursor && right.cursor == s.cursor
        }),
{
    let row = v[s.cursor as int];
    press::law_closing_a_row_leaves_the_others(s.expand, row.id, x);
    press::law_toggling_twice_changes_nothing(s.expand, row.id, x);
    if !s.expand.contains(row.id) {
        let more = s.expand.push(row.id);
        if s.expand.contains(x) {
            assert(more[s.expand.index_of(x)] == x);
        }
        if more.contains(x) && x != row.id {
            let k = more.index_of(x);
            assert(s.expand[k] == x);
        }
    }
}

/// The columns scroll one to the left and one to the right, each undoing the
/// other.
pub proof fn law_columns_scroll_both_ways(s: Screen, v: Seq<Line>, all: Seq<Head>)
    requires
        bare(s),
        s.col_off < u16::MAX,
    ensures
        after(s, Key::Char(']'), v, all).col_off == s.col_off + 1,
        after(s, Key::Char('>'), v, all) == after(s, Key::Char(']'), v, all),
        after(after(s, Key::Char(']'), v, all), Key::Char('['), v, all) == s,
        s.col_off > 0 ==> after(s, Key::Char('['), v, all).col_off + 1 == s.col_off,
        after(s, Key::Char('<'), v, all) == after(s, Key::Char('['), v, all),
{
}

// ---------------------------------------------------------------------------
// Sorting and hiding
// ---------------------------------------------------------------------------

proof fn lemma_head(v: Seq<Head>, k: int, j: int)
    requires
        0 <= j <= k < v.len(),
        forall|m: int| 0 <= m < k ==> (#[trigger] v[m]).label != v[k].label,
    ensures
        columns::head_at(v, v[k].label, j) == Some(k),
    decreases k - j,
{
    if j < k {
        assert(v[j].label != v[k].label);
        lemma_head(v, k, j + 1);
    }
}

/// `c` sorts by the column after the one sorted by, and after the last by the
/// first; the trend is passed over.
pub proof fn law_the_next_column_is_sorted_by(v: Seq<Head>, k: int)
    requires
        0 <= k < v.len(),
        forall|i: int, j: int|
            0 <= i < j < v.len() ==> (#[trigger] v[i]).label != (#[trigger] v[j]).label,
    ensures
        ({
            let next = if k + 1 < v.len() {
                k + 1
            } else {
                0
            };
            let third = if next + 1 < v.len() {
                next + 1
            } else {
                0
            };
            &&& v[next].label != "spark"@ ==> columns::next_sort_of(v, v[k].label) == v[next].label
            &&& v[next].label == "spark"@ && v.len() > 1 ==> columns::next_sort_of(v, v[k].label)
                == v[third].label
        }),
{
    lemma_head(v, k, 0);
    reveal_with_fuel(columns::next_from, 3);
    let next = if k + 1 < v.len() {
        k + 1
    } else {
        0
    };
    let third = if next + 1 < v.len() {
        next + 1
    } else {
        0
    };
    if v[next].label == "spark"@ && v.len() > 1 {
        assert(third != next);
        if third < next {
            assert(v[third].label != v[next].label);
        } else {
            assert(v[next].label != v[third].label);
        }
    }
}

/// A key sorts by the next of the columns on the screen, and changes nothing
/// else.
pub proof fn law_a_key_sorts_by_the_next(s: Screen, v: Seq<Line>, all: Seq<Head>)
    requires
        bare(s),
    ensures
        after(s, Key::Char('c'), v, all) == (Screen {
            sort: columns::next_sort_of(s.cols, s.sort),
            ..s
        }),
{
}

/// Hiding the sort column takes it off the screen, and showing again brings
/// back the column that was hidden last; the name cannot be hidden.
pub proof fn law_hiding_and_showing_again(s: Screen, v: Seq<Line>, all: Seq<Head>)
    requires
        bare(s),
        s.sort != "name"@,
        !s.hidden.contains(s.sort),
    ensures
        ({
            let gone = after(s, Key::Char('H'), v, all);
            let back = after(gone, Key::Char('u'), v, all);
            &&& gone.hidden == s.hidden.push(s.sort)
            &&& columns::head_at(gone.cols, s.sort, 0) is None
            &&& gone.sort == columns::next_sort_of(s.cols, s.sort)
            &&& back.hidden == s.hidden
            &&& back.cols == columns::arranged(all, s.order, s.hidden)
            &&& gone.order == s.order && gone.cursor == s.cursor && gone.expand == s.expand
            &&& after(gone, Key::Char('U'), v, all) == back
        }),
        after(Screen { sort: "name"@, ..s }, Key::Char('H'), v, all).hidden == s.hidden,
        after(Screen { hidden: Seq::empty(), ..s }, Key::Char('u'), v, all) == (Screen {
            hidden: Seq::empty(),
            ..s
        }),
{
    let hidden = s.hidden.push(s.sort);
    assert(hidden.drop_last() =~= s.hidden);
    assert(hidden.last() == s.sort);
    columns::law_every_column_once(all, s.order, hidden);
    let cols = columns::arranged(all, s.order, hidden);
    assert(hidden[s.hidden.len() as int] == s.sort);
    if columns::head_at(cols, s.sort, 0) is Some {
        lemma_head_found(cols, s.sort, 0);
        let k = columns::head_at(cols, s.sort, 0)->0;
        assert(!columns::left_out(cols[k].label, hidden));
    }
}

proof fn lemma_head_found(v: Seq<Head>, label: Seq<char>, j: int)
    requires
        0 <= j,
        columns::head_at(v, label, j) is Some,
    ensures
        j <= columns::head_at(v, label, j)->0 < v.len(),
        v[columns::head_at(v, label, j)->0].label == label,
    decreases v.len() - j,
{
    if j < v.len() && v[j].label != label {
        lemma_head_found(v, label, j + 1);
    }
}

/// The name is the first column unless the order places it; a column the order
/// names first comes first.
pub proof fn law_the_order_of_columns(
    all: Seq<Head>,
    order: Seq<Seq<char>>,
    hidden: Seq<Seq<char>>,
    k: int,
)
    requires
        0 <= k < all.len(),
        forall|m: int| 0 <= m < k ==> (#[trigger] all[m]).label != all[k].label,
    ensures
        !order.contains("name"@) && all[k].label == "name"@ ==> columns::arranged(
            all,
            order,
            hidden,
        ).len() > 0 && columns::arranged(all, order, hidden)[0] == all[k],
        order.contains("name"@) && order[0] == all[k].label && !columns::left_out(
            all[k].label,
            hidden,
        ) ==> columns::arranged(all, order, hidden).len() > 0 && columns::arranged(
            all,
            order,
            hidden,
        )[0] == all[k],
{
    let want = columns::wanted(all, order);
    lemma_head(all, k, 0);
    let named = !order.contains("name"@) && all[k].label == "name"@;
    let ordered = order.contains("name"@) && order[0] == all[k].label && !columns::left_out(
        all[k].label,
        hidden,
    );
    if named || ordered {
        if named {
            assert(want[0] == "name"@);
        } else {
            assert(order.len() > 0);
            assert(want[0] == order[0]);
        }
        let one = columns::arranged_upto(all, want, hidden, 1);
        reveal_with_fuel(columns::arranged_upto, 2);
        assert(columns::arranged_upto(all, want, hidden, 0) =~= Seq::<Head>::empty());
        assert(columns::head_at(Seq::<Head>::empty(), want[0], 0) is None);
        assert(one =~= seq![all[k]]);
        lemma_first_stays(all, want, hidden, want.len() as int);
    }
}

proof fn lemma_first_stays(all: Seq<Head>, want: Seq<Seq<char>>, hidden: Seq<Seq<char>>, n: int)
    requires
        1 <= n <= want.len(),
        columns::arranged_upto(all, want, hidden, 1).len() > 0,
    ensures
        columns::arranged_upto(all, want, hidden, n).len() > 0,
        columns::arranged_upto(all, want, hidden, n)[0] == columns::arranged_upto(
            all,
            want,
            hidden,
            1,
        )[0],
    decreases n,
{
    if n > 1 {
        lemma_first_stays(all, want, hidden, n - 1);
    }
}

// ---------------------------------------------------------------------------
// Rows
// ---------------------------------------------------------------------------

/// A row is on the screen exactly where it is kept, and rows keep their order.
pub proof fn law_kept_rows_in_their_order(v: Seq<Line>, keep: Seq<bool>, n: int)
    requires
        0 <= n < v.len(),
        keep.len() == v.len(),
    ensures
        keep[n] ==> pick::selected(v, keep, n + 1) == pick::selected(v, keep, n) + seq![v[n]],
        !keep[n] ==> pick::selected(v, keep, n + 1) == pick::selected(v, keep, n),
        pick::selected(v, keep, 0) == Seq::<Line>::empty(),
{
    assert(pick::selected(v, keep, n).push(v[n]) =~= pick::selected(v, keep, n) + seq![v[n]]);
}

proof fn lemma_rank(v: Seq<Line>, i: int, j: int)
    requires
        -1 <= j < i < v.len(),
        forall|k: int| 0 <= k < v.len() ==> (#[trigger] v[k]).depth == 0 && v[k].trimmable,
    ensures
        pick::rank_from(v, i, j) == j + 1,
        pick::parent_from(v, i, j) is None,
    decreases j + 1,
{
    if j >= 0 {
        assert(v[j].depth == 0 && v[j].trimmable);
        assert(v[i].depth == 0);
        lemma_rank(v, i, j - 1);
    }
}

/// A limit on a list keeps its first entries, as many as it says.
pub proof fn law_a_limit_keeps_the_first(v: Seq<Line>, n: usize)
    requires
        forall|k: int| 0 <= k < v.len() ==> (#[trigger] v[k]).depth == 0 && v[k].trimmable,
    ensures
        pick::limited(v, Some(n)) =~= v.take(
            if n < v.len() {
                n as int
            } else {
                v.len() as int
            },
        ),
        pick::limited(v, None) == v,
{
    let keep = pick::top_of(v, n as nat);
    assert forall|i: int| 0 <= i < v.len() implies #[trigger] keep[i] == (i < n) by {
        lemma_rank(v, i, i - 1);
        assert(v[i].trimmable);
    }
    lemma_first_kept(v, keep, n as int, v.len() as int);
}

proof fn lemma_first_kept(v: Seq<Line>, keep: Seq<bool>, n: int, m: int)
    requires
        0 <= m <= v.len(),
        0 <= n,
        keep.len() == v.len(),
        forall|i: int| 0 <= i < v.len() ==> #[trigger] keep[i] == (i < n),
    ensures
        pick::selected(v, keep, m) =~= v.take(
            if n < m {
                n
            } else {
                m
            },
        ),
    decreases m,
{
    if m > 0 {
        lemma_first_kept(v, keep, n, m - 1);
        assert(keep[m - 1] == (m - 1 < n));
        if m - 1 < n {
            assert(v.take(m - 1).push(v[m - 1]) =~= v.take(m));
        }
    }
}

/// An entry past the limit of its list is dropped, whatever stands under it.
pub proof fn law_past_the_limit_is_dropped(v: Seq<Line>, n: nat, i: int)
    requires
        0 <= i < v.len(),
        v[i].trimmable,
        pick::rank_from(v, i, i - 1) >= n,
    ensures
        !pick::top_of(v, n)[i],
        forall|c: int|
            i < c < v.len() && #[trigger] pick::parent_from(v, c, c - 1) == Some(i)
                ==> !pick::top_of(v, n)[c],
{
    assert(!pick::near_top(v, n, i));
    assert forall|c: int| i < c < v.len() && #[trigger] pick::parent_from(v, c, c - 1) == Some(
        i,
    ) implies !pick::top_of(v, n)[c] by {
        assert(!pick::near_top(v, n, c));
    }
}

/// A search looks at what a row is searched by, and else at its name.
pub proof fn law_what_a_search_looks_at(l: Line)
    ensures
        l.search is Some ==> pick::searched(l) == l.search->0,
        l.search is None ==> pick::searched(l) == l.name,
{
}

proof fn lemma_mark(id: Seq<char>, at: int, n: int)
    requires
        0 <= at < n <= id.len(),
        text::occurs_at(id, "/p/"@, at),
        forall|k: int| at < k < id.len() ==> !#[trigger] text::occurs_at(id, "/p/"@, k),
    ensures
        pick::last_mark(id, n) == Some(at),
    decreases n,
{
    if at < n - 1 {
        assert(!text::occurs_at(id, "/p/"@, n - 1));
        lemma_mark(id, at, n - 1);
    }
}

/// The row of a process is told by its id: what follows the last `/p/` is its
/// pid.
pub proof fn law_a_process_row_ends_in_its_pid(above: Seq<char>, pid: u32)
    ensures
        pick::pid_in(above + "/p/"@ + text::decimal(pid as nat)) == Some(pid),
{
    let d = text::decimal(pid as nat);
    let id = above + "/p/"@ + d;
    let at = above.len() as int;
    reveal_strlit("/p/");
    text::laws::law_numbers_are_read_back(pid as nat, u32::MAX as nat);
    lemma_digits(pid as nat);
    assert(id.subrange(at, at + 3) =~= "/p/"@);
    assert forall|k: int| at < k < id.len() implies !#[trigger] text::occurs_at(id, "/p/"@, k) by {
        if text::occurs_at(id, "/p/"@, k) {
            let part = id.subrange(k, k + 3);
            assert(part[0] == id[k] && part[1] == id[k + 1]);
            if k == at + 2 {
                assert(id[k + 1] == d[0]);
                assert(text::is_digit(d[0]));
            } else if k > at + 2 {
                assert(id[k] == d[k - at - 3]);
                assert(text::is_digit(d[k - at - 3]));
            } else {
                assert(id[k] == "/p/"@[k - at]);
            }
        }
    }
    lemma_mark(id, at, id.len() as int);
    assert(id.skip(at + 3) =~= d);
}

proof fn lemma_digits(n: nat)
    ensures
        text::all_digits(text::decimal(n)),
    decreases n,
{
    let s = text::decimal(n);
    if n >= 10 {
        lemma_digits(n / 10);
        assert forall|k: int| 0 <= k < s.len() implies text::is_digit(#[trigger] s[k]) by {
            if k < s.len() - 1 {
                assert(s[k] == text::decimal(n / 10)[k]);
            }
        }
    }
}

/// A cursor whose row is gone stands on the row above it.
pub proof fn law_a_lost_row_falls_to_the_one_above(
    v: Seq<Line>,
    above: Seq<char>,
    own: Seq<char>,
    k: int,
)
    requires
        lacks(own, '/'),
        forall|j: int| 0 <= j < v.len() ==> (#[trigger] v[j]).id != above + seq!['/'] + own,
        0 <= k < v.len(),
        v[k].id == above,
    ensures
        v[pick::row_of(v, above + seq!['/'] + own)].id == above,
{
    let id = above + seq!['/'] + own;
    text::laws::law_on_either_side_of_the_last(above, '/', own);
    lemma_no_row(v, id, 0);
    pick::law_the_cursor_stays_on_its_row(v, above, k);
}

proof fn lemma_no_row(v: Seq<Line>, id: Seq<char>, j: int)
    requires
        0 <= j <= v.len(),
        forall|k: int| 0 <= k < v.len() ==> (#[trigger] v[k]).id != id,
    ensures
        pick::row_at(v, id, j) is None,
    decreases v.len() - j,
{
    if j < v.len() {
        assert(v[j].id != id);
        lemma_no_row(v, id, j + 1);
    }
}

} // verus!
