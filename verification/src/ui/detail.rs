//! The overlays, the labels of rows and the footer.
use vstd::prelude::*;

use crate::glyph;
use crate::glyph::GlyphSet;
use crate::once;
use crate::text;
use crate::ui::bars;
use crate::ui::press;
use crate::ui::rows::{Flat, Line};

verus! {

// ---------------------------------------------------------------------------
// The detail of one row
// ---------------------------------------------------------------------------

/// The width of one pair of a title and its figure.
pub const CELL: usize = 19;

/// The space between two pairs.
pub const GUTTER: usize = 2;

/// One pair.
pub open spec fn pair(header: Seq<char>, value: Seq<char>) -> Seq<char> {
    once::padded(header, 9) + seq![' '] + once::padded(value, 9)
}

/// A title and its figure. The title shows where the figure is blank: that
/// nothing could be read is a fact too.
pub fn metric_cell(header: &str, value: &str) -> (r: String)
    ensures
        r@ == pair(header@, value@),
{
    let mut s = once::pad(header, 9);
    s.push(' ');
    s.append(once::pad(value, 9).as_str());
    assert(s@ =~= pair(header@, value@));
    s
}

/// How many pairs stand side by side.
pub open spec fn per_row(avail: u16) -> int {
    let n = (avail + 2) / 21;
    if n < 1 {
        1
    } else if n > 4 {
        4
    } else {
        n
    }
}

/// How many rows so many pairs take.
pub open spec fn grid_depth(n: nat, across: int) -> int {
    (n + across - 1) / across
}

/// The first `c` pairs of one row, filled down the columns first.
pub open spec fn grid_cells(
    cells: Seq<Seq<char>>,
    depth: int,
    row: int,
    c: int,
) -> Seq<Seq<char>>
    decreases c,
{
    if c <= 0 {
        Seq::empty()
    } else {
        let before = grid_cells(cells, depth, row, c - 1);
        let at = (c - 1) * depth + row;
        if at < cells.len() {
            before.push(cells[at])
        } else {
            before
        }
    }
}

/// A text without the white space it ends with.
pub open spec fn trimmed_end(s: Seq<char>) -> Seq<char> {
    s.take(text::trim_end_at(s, s.len() as int))
}

fn trim_end(s: &str) -> (r: String)
    ensures
        r@ == trimmed_end(s@),
{
    let v = text::chars_of(s);
    let mut b: usize = v.len();
    while b > 0 && text::space_char(v[b - 1])
        invariant
            b <= v@.len(),
            v@ == s@,
            text::trim_end_at(s@, s@.len() as int) == text::trim_end_at(s@, b as int),
        decreases b,
    {
        b -= 1;
    }
    let head = text::cut(v.as_slice(), 0, b);
    assert(head@ =~= trimmed_end(s@));
    text::string_of(head.as_slice())
}

/// One row of the grid.
pub open spec fn grid_line(cells: Seq<Seq<char>>, depth: int, row: int, across: int) -> Seq<char> {
    trimmed_end(text::joined_with(grid_cells(cells, depth, row, across), "  "@))
}

/// The grid of a row's figures.
pub open spec fn grid(cells: Seq<Seq<char>>, avail: u16) -> Seq<Seq<char>> {
    let across = per_row(avail);
    let depth = grid_depth(cells.len(), across);
    Seq::new(depth as nat, |row: int| grid_line(cells, depth, row, across))
}

fn grid_row(cells: &Vec<String>, depth: usize, row: usize, across: usize) -> (r: String)
    requires
        across <= 4,
        row < depth <= cells@.len(),
    ensures
        r@ == grid_line(text::texts(cells@), depth as int, row as int, across as int),
{
    let ghost t = text::texts(cells@);
    let mut out: Vec<String> = Vec::new();
    let mut c: usize = 0;
    assert(text::texts(out@) =~= Seq::empty());
    let mut at: u128 = row as u128;
    while c < across
        invariant
            c <= across <= 4,
            row < depth <= cells@.len(),
            t == text::texts(cells@),
            at == c * depth + row,
            text::texts(out@) == grid_cells(t, depth as int, row as int, c as int),
        decreases across - c,
    {
        if at < cells.len() as u128 {
            let k: usize = at as usize;
            assert(t[k as int] == cells@[k as int]@);
            let s = cells[k].clone();
            let ghost before = out@;
            out.push(s);
            assert(text::texts(out@) =~= text::texts(before).push(s@));
        }
        assert((c + 1) * depth == c * depth + depth) by (nonlinear_arith);
        assert(c * depth <= 4 * depth) by (nonlinear_arith)
            requires
                c <= 4,
                depth >= 0,
        ;
        at = at + depth as u128;
        c += 1;
    }
    trim_end(text::join(&out, "  ").as_str())
}

/// Lays a row's figures across as many columns as the pane is wide.
pub fn metric_grid(cells: &Vec<String>, avail: u16) -> (r: Vec<String>)
    ensures
        text::texts(r@) == grid(text::texts(cells@), avail),
{
    let n: u32 = (avail as u32 + 2) / 21;
    let across: usize = if n < 1 {
        1
    } else if n > 4 {
        4
    } else {
        n as usize
    };
    let len: usize = cells.len();
    let depth: usize = if len == 0 {
        0
    } else {
        (len - 1) / across + 1
    };
    proof {
        lemma_depth(len as nat, across as int);
    }
    let mut out: Vec<String> = Vec::new();
    let mut row: usize = 0;
    let ghost want = grid(text::texts(cells@), avail);
    while row < depth
        invariant
            row <= depth <= cells@.len(),
            across <= 4,
            across == per_row(avail),
            depth == grid_depth(cells@.len(), across as int),
            want == grid(text::texts(cells@), avail),
            want.len() == depth,
            text::texts(out@) == want.take(row as int),
        decreases depth - row,
    {
        let s = grid_row(cells, depth, row, across);
        let ghost before = out@;
        out.push(s);
        row += 1;
        assert(text::texts(out@) =~= text::texts(before).push(s@));
        assert(want.take(row as int) =~= want.take(row - 1).push(want[row - 1]));
    }
    assert(want.take(row as int) =~= want);
    out
}

proof fn lemma_depth(n: nat, across: int)
    requires
        1 <= across <= 4,
    ensures
        n == 0 ==> grid_depth(n, across) == 0,
        n > 0 ==> grid_depth(n, across) == (n - 1) / across + 1,
        grid_depth(n, across) <= n,
        n <= across * grid_depth(n, across),
{
    if n == 0 {
        assert((across - 1) / across == 0) by (nonlinear_arith)
            requires
                1 <= across,
        ;
    } else {
        assert((n + across - 1) / across == (n - 1) / across + 1 && (n - 1) / across + 1 <= n && n
            <= across * ((n - 1) / across + 1)) by (nonlinear_arith)
            requires
                1 <= across <= 4,
                n >= 1,
        ;
    }
}

/// Every figure has a place in the grid: one row and one column of it.
pub proof fn law_every_figure_is_on_the_grid(n: nat, avail: u16, i: int)
    requires
        0 <= i < n,
    ensures
        ({
            let across = per_row(avail);
            let depth = grid_depth(n, across);
            &&& depth > 0
            &&& 0 <= i % depth < depth
            &&& 0 <= i / depth < across
            &&& (i / depth) * depth + i % depth == i
        }),
{
    let across = per_row(avail);
    let depth = grid_depth(n, across);
    lemma_depth(n, across);
    assert(depth > 0) by (nonlinear_arith)
        requires
            0 <= i < n,
            n <= across * depth,
            across >= 1,
    ;
    assert(0 <= i % depth < depth && 0 <= i / depth < across && (i / depth) * depth + i % depth
        == i) by (nonlinear_arith)
        requires
            0 <= i < n,
            n <= across * depth,
            across >= 1,
            depth > 0,
    ;
}

/// One fact of a process: its name, set in a column, and its value.
pub open spec fn fact_line(k: Seq<char>, v: Seq<char>) -> Seq<char> {
    once::padded(k, 9) + seq![' '] + v
}

pub open spec fn fact_lines(facts: Seq<(String, String)>) -> Seq<Seq<char>> {
    Seq::new(facts.len(), |k: int| fact_line(facts[k].0@, facts[k].1@))
}

/// The detail of a row: its name, its figures, and where it is one process
/// what the kernel says of that.
pub open spec fn detail_lines(
    name: Seq<char>,
    cells: Seq<Seq<char>>,
    avail: u16,
    facts: Option<Seq<(String, String)>>,
) -> Seq<Seq<char>> {
    let head = seq![name, Seq::<char>::empty()] + grid(cells, avail);
    match facts {
        Some(f) => head.push(Seq::<char>::empty()) + fact_lines(f),
        None => head,
    }
}

pub open spec fn opt_facts(facts: Option<&Vec<(String, String)>>) -> Option<
    Seq<(String, String)>,
> {
    match facts {
        Some(f) => Some(f@),
        None => None,
    }
}

pub fn detail_text(
    name: &str,
    cells: &Vec<String>,
    avail: u16,
    facts: Option<&Vec<(String, String)>>,
) -> (r: String)
    ensures
        r@ == text::joined_with(
            detail_lines(name@, text::texts(cells@), avail, opt_facts(facts)),
            "\n"@,
        ),
{
    let mut out: Vec<String> = Vec::new();
    out.push(name.to_owned());
    out.push(String::new());
    let mut g = metric_grid(cells, avail);
    let ghost gs = text::texts(g@);
    let ghost before = out@;
    out.append(&mut g);
    proof {
        assert(text::texts(out@) =~= text::texts(before) + gs);
        assert(text::texts(before) =~= seq![name@, Seq::<char>::empty()]);
    }
    if let Some(f) = facts {
        let ghost head = text::texts(out@);
        out.push(String::new());
        let ghost start = text::texts(out@);
        assert(start =~= head.push(Seq::<char>::empty()));
        let ghost want = fact_lines(f@);
        let mut i: usize = 0;
        assert(start + want.take(0) =~= start);
        while i < f.len()
            invariant
                i <= f@.len(),
                want == fact_lines(f@),
                text::texts(out@) == start + want.take(i as int),
            decreases f.len() - i,
        {
            let mut line = once::pad(f[i].0.as_str(), 9);
            line.push(' ');
            line.append(f[i].1.as_str());
            assert(line@ =~= want[i as int]);
            let ghost was = out@;
            out.push(line);
            i += 1;
            assert(text::texts(out@) =~= text::texts(was).push(line@));
            assert(start + want.take(i as int) =~= (start + want.take(i - 1)).push(want[i - 1]));
        }
        assert(want.take(i as int) =~= want);
    }
    text::join(&out, "\n")
}

// ---------------------------------------------------------------------------
// Where an overlay stands
// ---------------------------------------------------------------------------

/// A part of the screen.
#[derive(Clone, Copy, Debug, PartialEq, Eq, Structural)]
pub struct Area {
    pub x: u16,
    pub y: u16,
    pub width: u16,
    pub height: u16,
}

/// The longest of the first `n` lines.
pub open spec fn widest(lines: Seq<Seq<char>>, n: int) -> nat
    decreases n,
{
    if n <= 0 {
        0
    } else {
        let w = widest(lines, n - 1);
        if lines[n - 1].len() > w {
            lines[n - 1].len()
        } else {
            w
        }
    }
}

/// The rows that one line takes where it wraps.
pub open spec fn wrapped(len: nat, inner: int) -> int {
    let n = if len < 1 {
        1
    } else {
        len as int
    };
    (n + inner - 1) / inner
}

/// The rows that the first `n` lines take.
pub open spec fn rows_upto(lines: Seq<Seq<char>>, inner: int, n: int) -> int
    decreases n,
{
    if n <= 0 {
        0
    } else {
        rows_upto(lines, inner, n - 1) + wrapped(lines[n - 1].len(), inner)
    }
}

pub open spec fn cap16(n: int) -> int {
    if n > u16::MAX {
        u16::MAX as int
    } else {
        n
    }
}

/// A number held between two bounds, the lower one counting most.
pub open spec fn held(n: int, low: int, high: int) -> int {
    let m = if n > high {
        high
    } else {
        n
    };
    if m < low {
        low
    } else {
        m
    }
}

pub open spec fn less(a: int, b: int) -> int {
    if a > b {
        a - b
    } else {
        0
    }
}

/// Where a text stands over an area: in its middle, as large as it needs, with
/// a frame and a space inside it.
pub open spec fn popup_of(lines: Seq<Seq<char>>, area: Area) -> Area {
    let n = lines.len() as int;
    let cols = cap16(widest(lines, n) as int);
    let width = held(cap16(cols + 4), 3, less(area.width as int, 2));
    let inner = held(less(width, 4), 1, u16::MAX as int);
    let tall = cap16(rows_upto(lines, inner, n));
    let height = held(cap16(tall + 2), 3, less(area.height as int, 1));
    Area {
        x: (area.x + less(area.width as int, width) / 2) as u16,
        y: (area.y + less(area.height as int, height) / 2) as u16,
        width: width as u16,
        height: height as u16,
    }
}

fn between(n: u16, low: u16, high: u16) -> (r: u16)
    ensures
        r == held(n as int, low as int, high as int),
{
    let m: u16 = if n > high {
        high
    } else {
        n
    };
    if m < low {
        low
    } else {
        m
    }
}

fn widest_line(lines: &Vec<Vec<char>>) -> (r: usize)
    ensures
        r == widest(text::views(lines@), lines@.len() as int),
{
    let ghost v = text::views(lines@);
    let mut w: usize = 0;
    let mut i: usize = 0;
    while i < lines.len()
        invariant
            i <= lines@.len(),
            v == text::views(lines@),
            w == widest(v, i as int),
        decreases lines.len() - i,
    {
        assert(v[i as int] == lines@[i as int]@);
        if lines[i].len() > w {
            w = lines[i].len();
        }
        i += 1;
    }
    w
}

fn wrapped_rows(lines: &Vec<Vec<char>>, inner: u16) -> (r: u16)
    requires
        inner >= 1,
    ensures
        r == cap16(rows_upto(text::views(lines@), inner as int, lines@.len() as int)),
{
    let ghost v = text::views(lines@);
    let mut n: u16 = 0;
    let mut i: usize = 0;
    while i < lines.len()
        invariant
            i <= lines@.len(),
            inner >= 1,
            v == text::views(lines@),
            n == cap16(rows_upto(v, inner as int, i as int)),
            rows_upto(v, inner as int, i as int) >= 0,
        decreases lines.len() - i,
    {
        assert(v[i as int] == lines@[i as int]@);
        let l: usize = lines[i].len();
        let rows: usize = if l == 0 {
            1
        } else {
            (l - 1) / inner as usize + 1
        };
        proof {
            let k = inner as int;
            if l == 0 {
                assert((1 + k - 1) / k == 1) by (nonlinear_arith)
                    requires
                        k >= 1,
                ;
            } else {
                assert((l + k - 1) / k == (l - 1) / k + 1) by (nonlinear_arith)
                    requires
                        k >= 1,
                        l >= 1,
                ;
                assert((l - 1) / k >= 0) by (nonlinear_arith)
                    requires
                        k >= 1,
                        l >= 1,
                ;
            }
        }
        let add: u16 = if rows > u16::MAX as usize {
            u16::MAX
        } else {
            rows as u16
        };
        n = n.saturating_add(add);
        i += 1;
    }
    n
}

pub fn popup(shown: &str, area: Area) -> (r: Area)
    requires
        area.x + area.width <= u16::MAX,
        area.y + area.height <= u16::MAX,
    ensures
        r == popup_of(text::lines_of(shown@), area),
{
    let v = text::chars_of(shown);
    let lines = text::split_lines(v.as_slice());
    assert(text::views(lines@).len() == lines@.len());
    let w: usize = widest_line(&lines);
    let cols: u16 = if w > u16::MAX as usize {
        u16::MAX
    } else {
        w as u16
    };
    let width: u16 = between(cols.saturating_add(4), 3, area.width.saturating_sub(2));
    let inner: u16 = between(width.saturating_sub(4), 1, u16::MAX);
    let tall: u16 = wrapped_rows(&lines, inner);
    let height: u16 = between(tall.saturating_add(2), 3, area.height.saturating_sub(1));
    let dx: u16 = area.width.saturating_sub(width) / 2;
    let dy: u16 = area.height.saturating_sub(height) / 2;
    Area { x: area.x + dx, y: area.y + dy, width, height }
}

/// An overlay never leaves the pane it covers, where the pane has room for a
/// frame.
pub proof fn law_an_overlay_stays_in_its_pane(lines: Seq<Seq<char>>, area: Area)
    requires
        area.width >= 3,
        area.height >= 3,
        area.x + area.width <= u16::MAX,
        area.y + area.height <= u16::MAX,
    ensures
        ({
            let p = popup_of(lines, area);
            &&& area.x <= p.x && p.x + p.width <= area.x + area.width
            &&& area.y <= p.y && p.y + p.height <= area.y + area.height
        }),
{
}

// ---------------------------------------------------------------------------
// The name of a row, and the footer
// ---------------------------------------------------------------------------

/// The name of a row, set in by its depth, with a mark that says whether it is
/// open.
pub open spec fn label_of(l: Line, open: bool, set: GlyphSet) -> Seq<char> {
    let mark = if !l.expandable {
        seq![' ', ' ']
    } else if open {
        glyph::expanded_of(set)
    } else {
        glyph::collapsed_of(set)
    };
    bars::repeated(' ', 2 * (l.depth as nat)) + mark + l.name
}

pub fn row_label(f: &Flat, expand: &Vec<String>, set: GlyphSet) -> (r: String)
    ensures
        r@ == label_of(f@, text::texts(expand@).contains(f.id@), set),
{
    let mut s = bars::repeat(' ', 2 * f.depth as usize);
    if !f.expandable {
        s.push(' ');
        s.push(' ');
    } else if text::among(expand, f.id.as_str()) {
        s.append(glyph::expanded(set).as_str());
    } else {
        s.append(glyph::collapsed(set).as_str());
    }
    s.append(f.name.as_str());
    assert(s@ =~= label_of(f@, text::texts(expand@).contains(f.id@), set));
    s
}

/// What the footer says of the filter. A question mark says that the text is
/// no pattern yet, so the table is still cut by the last one that was.
pub open spec fn filter_text(s: press::Screen) -> Seq<char> {
    let stale = if s.filter_ok {
        ""@
    } else {
        " ?"@
    };
    if s.filter_edit {
        "filter> "@ + s.filter + "_"@ + stale
    } else if s.filter.len() == 0 {
        ""@
    } else {
        "filter: "@ + s.filter + stale
    }
}

/// How long the table has been frozen.
pub open spec fn paused_text(paused: Option<u64>, now: u64) -> Seq<char> {
    match paused {
        Some(since) => "  PAUSED "@ + text::decimal(
            (if now > since {
                now - since
            } else {
                0
            }) as nat,
        ) + "s"@,
        None => ""@,
    }
}

/// The footer: the keys, how stale the table is, what it leaves out, the filter
/// and the last thing that was done.
pub open spec fn footer_text(s: press::Screen, now: u64, coverage: Seq<char>) -> Seq<char> {
    " q quit  / filter  c sort ("@ + s.sort + ")  i detail  p pause  s save  ? help"@ + paused_text(
        s.paused,
        now,
    ) + coverage + "  "@ + filter_text(s) + "  "@ + s.status
}

pub fn footer(app: &press::App, now: u64, coverage: &str) -> (r: String)
    ensures
        r@ == footer_text(app@, now, coverage@),
{
    let mut s = " q quit  / filter  c sort (".to_owned();
    s.append(app.view.sort.as_str());
    s.append(")  i detail  p pause  s save  ? help");
    if let Some(since) = app.paused {
        let ghost before = s@;
        s.append("  PAUSED ");
        text::push_decimal(&mut s, now.saturating_sub(since));
        s.append("s");
        assert(s@ =~= before + paused_text(app.paused, now));
    } else {
        proof {
            reveal_strlit("");
            assert(s@ =~= s@ + paused_text(app.paused, now));
        }
    }
    s.append(coverage);
    s.append("  ");
    let stale: &str = if app.filter_ok {
        ""
    } else {
        " ?"
    };
    let ghost before = s@;
    if app.filter_edit {
        s.append("filter> ");
        s.append(app.view.filter.as_str());
        s.append("_");
        s.append(stale);
        assert(s@ =~= before + filter_text(app@));
    } else if !app.view.filter.as_str().is_empty() {
        s.append("filter: ");
        s.append(app.view.filter.as_str());
        s.append(stale);
        assert(s@ =~= before + filter_text(app@));
    } else {
        proof {
            reveal_strlit("");
            assert(s@ =~= before + filter_text(app@));
        }
    }
    s.append("  ");
    s.append(app.status.as_str());
    s
}

} // verus!
