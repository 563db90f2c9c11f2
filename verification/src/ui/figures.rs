//! What a row shows of its past and of its trouble, and how its detail is laid
//! out.
use vstd::prelude::*;

use crate::glyph::GlyphSet;
use crate::once;
use crate::text;
use crate::types::Metrics;
use crate::ui::columns::Head;
use crate::ui::frame;
use crate::ui::frame::Room;
use crate::ui::press::Screen;
use crate::ui::rows::Line;
use crate::ui::trend::History;
use crate::ui::{columns, detail, trend};

verus! {

// ---------------------------------------------------------------------------
// The trend
// ---------------------------------------------------------------------------

/// A sample is put behind the others; where there are enough, the oldest is
/// given up and every other moves up by one.
pub proof fn law_a_sample_is_put_behind(v: Seq<u64>, x: u64)
    requires
        v.len() <= trend::TREND,
    ensures
        ({
            let r = trend::appended(v, x);
            &&& r.last() == x
            &&& v.len() < trend::TREND ==> r.len() == v.len() + 1 && forall|k: int|
                0 <= k < v.len() ==> r[k] == v[k]
            &&& v.len() == trend::TREND ==> r.len() == v.len() && forall|k: int|
                0 <= k < v.len() - 1 ==> r[k] == v[k + 1]
        }),
{
}

/// A row that is listed once gets one sample more: its own.
pub proof fn law_a_row_gets_its_own_sample(
    start: Option<Seq<u64>>,
    v: Seq<Line>,
    values: Seq<u64>,
    k: int,
    n: int,
)
    requires
        0 <= k < n <= v.len(),
        values.len() == v.len(),
        forall|j: int| 0 <= j < v.len() && j != k ==> (#[trigger] v[j]).id != v[k].id,
    ensures
        trend::recorded(start, v, values, v[k].id, n) == Some(
            trend::appended(
                match start {
                    Some(s) => s,
                    None => Seq::empty(),
                },
                values[k],
            ),
        ),
    decreases n,
{
    if k < n - 1 {
        assert(v[n - 1].id != v[k].id);
        law_a_row_gets_its_own_sample(start, v, values, k, n - 1);
    } else {
        lemma_unrecorded(start, v, values, v[k].id, k);
    }
}

proof fn lemma_unrecorded(
    start: Option<Seq<u64>>,
    v: Seq<Line>,
    values: Seq<u64>,
    id: Seq<char>,
    n: int,
)
    requires
        0 <= n <= v.len(),
        forall|j: int| 0 <= j < n ==> (#[trigger] v[j]).id != id,
    ensures
        trend::recorded(start, v, values, id, n) == start,
    decreases n,
{
    if n > 0 {
        assert(v[n - 1].id != id);
        lemma_unrecorded(start, v, values, id, n - 1);
    }
}

/// Samples of one column are never shown as another's.
pub proof fn law_another_column_starts_anew(
    h: History,
    sort: Seq<char>,
    v: Seq<Line>,
    id: Seq<char>,
)
    requires
        h.sorted_by@ != sort,
    ensures
        trend::carried(h, sort, v, id) is None,
{
}

/// A mark is the nearest of eight steps: nothing is the lowest, the heaviest
/// the highest, and the rest in proportion.
pub proof fn law_a_mark_is_the_nearest_step(v: u64, full: u64)
    requires
        0 < v <= full,
    ensures
        ({
            let s = trend::step_of(v, full);
            &&& 0 <= s <= 7
            &&& 2 * full * s <= 14 * v + full
            &&& 14 * v < 2 * full * s + full
            &&& v == full ==> s == 7
        }),
        trend::step_of(0, full) == 0,
{
    let (x, d) = (14 * v + full, 2 * full as int);
    let s = x / d;
    assert(d * s <= x < d * s + d && 0 <= s) by (nonlinear_arith)
        requires
            s == x / d,
            d > 0,
            x >= 0,
    ;
    assert(2 * full * s == d * s);
    assert(s <= 7) by (nonlinear_arith)
        requires
            d * s <= x,
            x <= 15 * full,
            d == 2 * full,
            full > 0,
    ;
    if v == full {
        assert(s >= 7) by (nonlinear_arith)
            requires
                x < d * s + d,
                x == 15 * full,
                d == 2 * full,
                full > 0,
        ;
    }
}

/// The scale of the trend is the heaviest sample of any entry: none is above
/// it.
pub proof fn law_no_sample_is_above_the_scale(m: u64, s: Seq<u64>, n: int)
    requires
        0 <= n <= s.len(),
    ensures
        trend::heaviest_upto(m, s, n) >= m,
        forall|k: int| 0 <= k < n ==> #[trigger] s[k] <= trend::heaviest_upto(m, s, n),
        trend::heaviest_upto(m, s, n) == m || exists|k: int|
            0 <= k < n && #[trigger] s[k] == trend::heaviest_upto(m, s, n),
    decreases n,
{
    if n > 0 {
        law_no_sample_is_above_the_scale(m, s, n - 1);
        assert(s[n - 1] <= trend::heaviest_upto(m, s, n));
    }
}

/// The scale leaves out the totals: an entry counts, a total does not.
pub proof fn law_totals_do_not_set_the_scale(h: History, v: Seq<Line>, n: int)
    requires
        0 <= n < v.len(),
    ensures
        !v[n].trimmable ==> trend::heaviest(h, v, n + 1) == trend::heaviest(h, v, n),
        v[n].trimmable && trend::past(h, v[n].id) is Some ==> forall|k: int|
            0 <= k < trend::past(h, v[n].id)->0.len() ==> #[trigger] trend::past(
                h,
                v[n].id,
            )->0[k] <= trend::heaviest(h, v, n + 1),
        trend::heaviest(h, v, n + 1) >= trend::heaviest(h, v, n),
{
    if let Some(s) = trend::past(h, v[n].id) {
        law_no_sample_is_above_the_scale(trend::heaviest(h, v, n), s, s.len() as int);
    }
}

/// The corner of marked cells is at or before each of them, and each of its
/// two numbers is one of theirs.
pub proof fn law_the_corner_of_marked_cells(v: Seq<(u16, u16)>, n: int)
    requires
        0 < n <= v.len(),
    ensures
        trend::corner_upto(v, n) is Some,
        ({
            let (x, y) = trend::corner_upto(v, n)->0;
            &&& forall|k: int| 0 <= k < n ==> x <= (#[trigger] v[k]).0 && y <= v[k].1
            &&& exists|k: int| 0 <= k < n && (#[trigger] v[k]).0 == x
            &&& exists|k: int| 0 <= k < n && (#[trigger] v[k]).1 == y
        }),
    decreases n,
{
    if n > 1 {
        law_the_corner_of_marked_cells(v, n - 1);
        let (x, y) = trend::corner_upto(v, n - 1)->0;
        let i = choose|k: int| 0 <= k < n - 1 && (#[trigger] v[k]).0 == x;
        let j = choose|k: int| 0 <= k < n - 1 && (#[trigger] v[k]).1 == y;
        assert(v[i].0 == x && v[j].1 == y);
        assert(v[n - 1].0 == v[n - 1].0);
    } else {
        assert(trend::corner_upto(v, 0) is None);
        assert(v[0].0 == v[0].0);
    }
}

/// A cell is in trouble by its own figure: a process that waits for a device,
/// or a stall of its own kind; no other column ever is.
pub proof fn law_trouble_is_told_by_its_own_figure(label: Seq<char>, m: Metrics, elapsed: u64)
    ensures
        trend::in_trouble("dstate"@, m, elapsed) <==> m.d_state_procs > 0,
        trend::in_trouble("cpustall"@, m, elapsed) <==> trend::stalled(m.cpu_stall, elapsed),
        trend::in_trouble("iostall"@, m, elapsed) <==> trend::stalled(m.io_stall, elapsed),
        trend::in_trouble("memstall"@, m, elapsed) <==> trend::stalled(m.mem_stall, elapsed),
        label != "dstate"@ && label != "cpustall"@ && label != "iostall"@ && label != "memstall"@
            ==> !trend::in_trouble(label, m, elapsed),
{
    reveal_strlit("dstate");
    reveal_strlit("cpustall");
    reveal_strlit("iostall");
    reveal_strlit("memstall");
    assert("dstate"@[0] == 'd' && "cpustall"@[0] == 'c' && "iostall"@[0] == 'i' && "memstall"@[0]
        == 'm');
}

/// A stall alarms from a fifth of the interval on: more of it is never less
/// alarming, and an unknown one never is.
pub proof fn law_a_longer_stall_alarms_as_well(a: u64, b: u64, elapsed: u64)
    requires
        a <= b,
    ensures
        trend::stalled(Some(a), elapsed) ==> trend::stalled(Some(b), elapsed),
        !trend::stalled(None, elapsed),
        2 * a <= u64::MAX && 2 * elapsed <= u64::MAX ==> (trend::stalled(
            Some((2 * a) as u64),
            (2 * elapsed) as u64,
        ) <==> trend::stalled(Some(a), elapsed)),
        trend::stalled(Some(a), elapsed) <==> elapsed > 0 && 5 * (1000 * a) >= elapsed,
{
}

// ---------------------------------------------------------------------------
// The detail
// ---------------------------------------------------------------------------

/// As many pairs stand side by side as fit, from one to four.
pub proof fn law_pairs_side_by_side(avail: u16)
    ensures
        ({
            let n = detail::per_row(avail);
            &&& 1 <= n <= 4
            &&& n > 1 ==> 21 * n - 2 <= avail
            &&& n < 4 ==> 21 * (n + 1) - 2 > avail
        }),
{
}

/// A header that fits stands before its value, the value in the eleventh
/// column.
pub proof fn law_a_header_before_its_value(header: Seq<char>, value: Seq<char>)
    requires
        header.len() <= 9,
        value.len() <= 9,
    ensures
        ({
            let p = detail::pair(header, value);
            &&& p.len() == 19
            &&& forall|k: int| 0 <= k < header.len() ==> p[k] == header[k]
            &&& forall|k: int| 0 <= k < value.len() ==> p[10 + k] == value[k]
        }),
{
    once::laws::law_padding_adds_blanks_behind(header, 9);
    once::laws::law_padding_adds_blanks_behind(value, 9);
}

/// The figures of a row fill the columns of the grid one after the other: each
/// stands in its own row of its own column.
pub proof fn law_figures_fill_the_columns(cells: Seq<Seq<char>>, depth: int, row: int, c: int)
    requires
        0 <= c,
        0 <= row < depth,
        (c as int) * depth + row < cells.len(),
    ensures
        detail::grid_cells(cells, depth, row, c + 1) == detail::grid_cells(cells, depth, row, c)
            + seq![cells[c * depth + row]],
{
    let before = detail::grid_cells(cells, depth, row, c);
    assert(before.push(cells[c * depth + row]) =~= before + seq![cells[c * depth + row]]);
}

/// A row's name is set in by two blanks for each level and two for its mark.
pub proof fn law_a_label_is_set_in(l: Line, set: GlyphSet)
    requires
        !l.expandable,
    ensures
        forall|open: bool|
            #![trigger detail::label_of(l, open, set)]
            detail::label_of(l, open, set).len() == 2 * l.depth + 2 + l.name.len(),
        detail::label_of(l, true, set) == detail::label_of(l, false, set),
        forall|k: int|
            0 <= k < l.name.len() ==> detail::label_of(l, true, set)[2 * l.depth + 2 + k]
                == l.name[k],
{
}

/// The footer says how many seconds ago the table was frozen.
pub proof fn law_how_long_it_has_been_frozen(since: u64, now: u64)
    requires
        since <= now,
    ensures
        detail::paused_text(Some(since), now) == "  PAUSED "@ + text::decimal((now - since) as nat)
            + "s"@,
        detail::paused_text(None, now).len() == 0,
{
    reveal_strlit("");
}

/// The footer says which filter is typed or set, and marks one that is no
/// pattern yet.
pub proof fn law_the_filter_in_the_footer(s: Screen)
    ensures
        s.filter_edit && s.filter_ok ==> detail::filter_text(s) == "filter> "@ + s.filter + "_"@,
        s.filter_edit && !s.filter_ok ==> detail::filter_text(s) == "filter> "@ + s.filter + "_"@
            + " ?"@,
        !s.filter_edit && s.filter.len() == 0 ==> detail::filter_text(s).len() == 0,
        !s.filter_edit && s.filter.len() > 0 && s.filter_ok ==> detail::filter_text(s)
            == "filter: "@ + s.filter,
        !s.filter_edit && s.filter.len() > 0 && !s.filter_ok ==> detail::filter_text(s)
            == "filter: "@ + s.filter + " ?"@,
{
    reveal_strlit("");
    assert("filter> "@ + s.filter + "_"@ + ""@ =~= "filter> "@ + s.filter + "_"@);
    assert("filter: "@ + s.filter + ""@ =~= "filter: "@ + s.filter);
}

// ---------------------------------------------------------------------------
// The frame
// ---------------------------------------------------------------------------

/// The name takes what room is left; any other column has its own width, or
/// the bare one where the name is off the screen.
pub proof fn law_the_room_of_a_column(c: Head)
    ensures
        c.label == "name"@ ==> frame::room_of(c, true) == Room::AtLeast(c.width)
            && frame::room_of(c, false) == Room::AtLeast(c.width),
        c.label != "name"@ ==> frame::room_of(c, true) == Room::Exactly(c.width)
            && frame::room_of(c, false) == Room::Exactly(columns::BARE_WIDTH),
{
}

/// A window shows rows from its offset on, as many as fit and at least one,
/// and never past the last.
pub proof fn law_the_rows_of_a_window(
    v: Seq<Head>,
    col_off: u16,
    width: u16,
    row_off: nat,
    row_vis: nat,
    n: nat,
)
    requires
        row_off < n <= usize::MAX,
        row_off + row_vis <= usize::MAX,
        row_vis > 0,
    ensures
        ({
            let w = frame::window_of(v, col_off, width, row_off, row_vis, n);
            &&& w.start == row_off
            &&& row_off + row_vis <= n ==> w.end == row_off + row_vis
            &&& row_off + row_vis > n ==> w.end == n
        }),
{
}

} // verus!
