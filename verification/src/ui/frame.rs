//! One frame of the table: which rows and columns are drawn, and how.
use vstd::prelude::*;

use crate::glyph::GlyphSet;
use crate::ui::columns::{Column, Head};
use crate::ui::press::App;
use crate::ui::rows::Flat;
use crate::ui::trend::{History, TrendMode};
use crate::ui::{columns, detail, pick, trend};
use crate::{kgp, text};

verus! {

// ---------------------------------------------------------------------------
// What is on the screen
// ---------------------------------------------------------------------------

/// The columns and rows of a frame: `fit` columns from `skip` on, and the rows
/// from `start` up to `end`.
#[derive(Clone, Copy, Debug, PartialEq, Eq, Structural)]
pub struct Window {
    pub skip: usize,
    pub fit: usize,
    pub name_on_screen: bool,
    /// Whether the trend column is among them.
    pub spark_shown: bool,
    pub start: usize,
    pub end: usize,
}

pub open spec fn least(a: int, b: int) -> int {
    if a < b {
        a
    } else {
        b
    }
}

/// A column of this label is among those from `from` up to `to`.
pub open spec fn among(v: Seq<Head>, label: Seq<char>, from: int, to: int) -> bool {
    exists|k: int| from <= k < to && k < v.len() && #[trigger] v[k].label == label
}

/// The first column that is drawn: never past the last there is.
pub open spec fn first_column(n: nat, col_off: u16) -> int {
    if n == 0 {
        0
    } else {
        least(col_off as int, n - 1)
    }
}

/// How many columns are drawn.
pub open spec fn drawn_columns(v: Seq<Head>, skip: int, width: u16) -> int {
    least(
        columns::fitting(v, skip, width as int, among(v, "name"@, skip, v.len() as int)),
        v.len() - skip,
    )
}

pub open spec fn window_of(
    v: Seq<Head>,
    col_off: u16,
    width: u16,
    row_off: nat,
    row_vis: nat,
    n: nat,
) -> Window {
    let skip = first_column(v.len(), col_off);
    let fit = drawn_columns(v, skip, width);
    let start = least(row_off as int, n as int);
    Window {
        skip: skip as usize,
        fit: fit as usize,
        name_on_screen: among(v, "name"@, skip, v.len() as int),
        spark_shown: among(v, "spark"@, skip, skip + fit),
        start: start as usize,
        end: least(
            start + if row_vis < 1 {
                1
            } else {
                row_vis as int
            },
            n as int,
        ) as usize,
    }
}

fn has_label(cols: &Vec<Column>, label: &str, from: usize, to: usize) -> (r: bool)
    ensures
        r == among(columns::heads(cols@), label@, from as int, to as int),
{
    let ghost h = columns::heads(cols@);
    let mut i: usize = from;
    while i < to && i < cols.len()
        invariant
            h == columns::heads(cols@),
            from <= i,
            i <= to || i == from,
            forall|k: int| from <= k < i && k < h.len() ==> #[trigger] h[k].label != label@,
        decreases cols.len() - i,
    {
        assert(h[i as int].label == cols@[i as int].label@);
        if text::same_str(cols[i].label.as_str(), label) {
            return true;
        }
        i += 1;
    }
    false
}

/// The columns and rows to draw, of `n` rows, in a table `width` columns wide.
pub fn window(app: &App, width: u16, row_off: usize, n: usize) -> (r: Window)
    ensures
        r == window_of(
            columns::heads(app.cols@),
            app.col_off,
            width,
            row_off as nat,
            app.row_vis as nat,
            n as nat,
        ),
        r.skip + r.fit <= app.cols@.len(),
        r.start <= r.end <= n,
{
    let total: usize = app.cols.len();
    let off: usize = app.col_off as usize;
    let skip: usize = if total == 0 {
        0
    } else if off < total - 1 {
        off
    } else {
        total - 1
    };
    let name_on_screen = has_label(&app.cols, "name", skip, total);
    let fits: usize = columns::columns_that_fit(&app.cols, skip, width, name_on_screen);
    let fit: usize = if fits < total - skip {
        fits
    } else {
        total - skip
    };
    let spark_shown = has_label(&app.cols, "spark", skip, skip + fit);
    let start: usize = if row_off < n {
        row_off
    } else {
        n
    };
    let tall: usize = if app.row_vis < 1 {
        1
    } else {
        app.row_vis
    };
    let end: usize = if tall < n - start {
        start + tall
    } else {
        n
    };
    Window { skip, fit, name_on_screen, spark_shown, start, end }
}

/// How much room a column is given.
#[derive(Clone, Copy, Debug, PartialEq, Eq, Structural)]
pub enum Room {
    /// The names take what the others leave.
    AtLeast(u16),
    Exactly(u16),
}

pub open spec fn room_of(c: Head, name_on_screen: bool) -> Room {
    if c.label == "name"@ {
        Room::AtLeast(c.width)
    } else if name_on_screen {
        Room::Exactly(c.width)
    } else {
        Room::Exactly(columns::BARE_WIDTH)
    }
}

/// The room of every column that is drawn.
pub fn rooms(cols: &Vec<Column>, w: Window) -> (r: Vec<Room>)
    requires
        w.skip + w.fit <= cols@.len(),
    ensures
        r@ == Seq::new(
            w.fit as nat,
            |k: int| room_of(columns::heads(cols@)[w.skip + k], w.name_on_screen),
        ),
{
    let ghost h = columns::heads(cols@);
    let total: usize = cols.len();
    let mut out: Vec<Room> = Vec::new();
    let mut k: usize = 0;
    while k < w.fit
        invariant
            total == cols@.len(),
            w.skip + w.fit <= total,
            h == columns::heads(cols@),
            k <= w.fit,
            out@ == Seq::new(k as nat, |j: int| room_of(h[w.skip + j], w.name_on_screen)),
        decreases w.fit - k,
    {
        let c = &cols[w.skip + k];
        assert(h[w.skip + k] == c@);
        let room = if text::same_str(c.label.as_str(), "name") {
            Room::AtLeast(c.width)
        } else if w.name_on_screen {
            Room::Exactly(c.width)
        } else {
            Room::Exactly(columns::BARE_WIDTH)
        };
        let ghost before = out@;
        out.push(room);
        assert(out@ =~= Seq::new(
            (k + 1) as nat,
            |j: int| room_of(h[w.skip + j], w.name_on_screen),
        ));
        k += 1;
    }
    out
}

// ---------------------------------------------------------------------------
// The cells
// ---------------------------------------------------------------------------

/// How a cell stands out.
#[derive(Clone, Copy, Debug, PartialEq, Eq, Structural)]
pub enum Stress {
    Plain,
    /// The figure says that the row is in trouble.
    Alarm,
    /// The cell shows a band of the image.
    Band,
    /// An image is painted over the cell.
    Covered,
}

#[derive(Debug)]
pub struct Field {
    pub text: String,
    pub stress: Stress,
}

/// What a frame is drawn with besides the rows: `full` is the height of the
/// trends, `image` whether they are drawn as one.
#[derive(Clone, Copy, Debug, PartialEq, Eq, Structural)]
pub struct Pen {
    pub mode: TrendMode,
    pub image: bool,
    pub full: u64,
    pub set: GlyphSet,
    pub elapsed_ns: u64,
}

/// The text of a cell: the name of the row, its trend, or the figure that
/// stands for it in this column.
pub open spec fn cell_text(
    label: Seq<char>,
    f: Flat,
    open: bool,
    past: Option<Seq<u64>>,
    band: int,
    pen: Pen,
    figure: Seq<char>,
) -> Seq<char> {
    if label == "spark"@ {
        trend::trend_text(f@, past, band, pen.mode, pen.image, pen.full, pen.set)
    } else if label == "name"@ {
        detail::label_of(f@, open, pen.set)
    } else {
        figure
    }
}

pub open spec fn cell_stress(label: Seq<char>, f: Flat, band: int, pen: Pen) -> Stress {
    if label == "spark"@ && pen.image && pen.mode == TrendMode::Sixel {
        Stress::Covered
    } else if label == "spark"@ && pen.image && pen.mode == TrendMode::Kitty && f.trimmable
        && kgp::band_cells(band, trend::TREND as nat) is Some {
        Stress::Band
    } else if trend::in_trouble(label, f.metrics, pen.elapsed_ns) {
        Stress::Alarm
    } else {
        Stress::Plain
    }
}

/// One cell of the table: `band` is the row's place on the screen, `figure`
/// what the column says of it.
pub fn cell(
    label: &str,
    f: &Flat,
    expand: &Vec<String>,
    h: &History,
    band: usize,
    pen: Pen,
    figure: &str,
) -> (r: Field)
    ensures
        r.text@ == cell_text(
            label@,
            *f,
            text::texts(expand@).contains(f.id@),
            trend::past(*h, f.id@),
            band as int,
            pen,
            figure@,
        ),
        r.stress == cell_stress(label@, *f, band as int, pen),
{
    let spark = text::same_str(label, "spark");
    let covered = spark && pen.image && pen.mode == TrendMode::Sixel;
    let banded = spark && pen.image && pen.mode == TrendMode::Kitty && f.trimmable
        && kgp::placeholder(band, trend::TREND).is_some();
    let stress = if covered {
        Stress::Covered
    } else if banded {
        Stress::Band
    } else if trend::alarming(label, &f.metrics, pen.elapsed_ns) {
        Stress::Alarm
    } else {
        Stress::Plain
    };
    let shown = if spark {
        trend::trend_cell(f, h, band, pen.mode, pen.image, pen.full, pen.set)
    } else if text::same_str(label, "name") {
        detail::row_label(f, expand, pen.set)
    } else {
        figure.to_owned()
    };
    Field { text: shown, stress }
}

/// One row of the table.
#[derive(Debug)]
pub struct Strip {
    pub fields: Vec<Field>,
    pub selected: bool,
}

/// A field is the cell of column `c` on row `i`.
pub open spec fn is_cell(
    d: Field,
    app: App,
    f: Flat,
    h: History,
    band: int,
    pen: Pen,
    c: int,
    figure: Seq<char>,
) -> bool {
    let label = app.cols@[c].label@;
    &&& d.text@ == cell_text(
        label,
        f,
        text::texts(app.expand@).contains(f.id@),
        trend::past(h, f.id@),
        band,
        pen,
        figure,
    )
    &&& d.stress == cell_stress(label, f, band, pen)
}

/// The rows of a frame. `figures` holds a text for every row that is drawn and
/// every column there is.
pub fn body(
    app: &App,
    v: &Vec<Flat>,
    w: Window,
    h: &History,
    pen: Pen,
    figures: &Vec<Vec<String>>,
) -> (r: Vec<Strip>)
    requires
        w.start <= w.end <= v@.len(),
        w.skip + w.fit <= app.cols@.len(),
        figures@.len() == w.end - w.start,
        forall|k: int| 0 <= k < figures@.len() ==> (#[trigger] figures@[k])@.len()
            == app.cols@.len(),
    ensures
        r@.len() == w.end - w.start,
        forall|k: int|
            0 <= k < r@.len() ==> {
                &&& (#[trigger] r@[k]).selected == (w.start + k == app.cursor)
                &&& r@[k].fields@.len() == w.fit
            },
        forall|k: int, c: int|
            0 <= k < r@.len() && 0 <= c < w.fit ==> is_cell(
                #[trigger] r@[k].fields@[c],
                *app,
                v@[w.start + k],
                *h,
                k,
                pen,
                w.skip + c,
                figures@[k]@[w.skip + c]@,
            ),
{
    let mut out: Vec<Strip> = Vec::new();
    let total: usize = app.cols.len();
    let n: usize = w.end - w.start;
    let mut i: usize = 0;
    while i < n
        invariant
            n == w.end - w.start,
            w.start <= w.end <= v@.len(),
            total == app.cols@.len(),
            w.skip + w.fit <= total,
            figures@.len() == n,
            forall|k: int| 0 <= k < figures@.len() ==> (#[trigger] figures@[k])@.len()
                == app.cols@.len(),
            i <= n,
            out@.len() == i,
            forall|k: int|
                0 <= k < i ==> {
                    &&& (#[trigger] out@[k]).selected == (w.start + k == app.cursor)
                    &&& out@[k].fields@.len() == w.fit
                },
            forall|k: int, c: int|
                0 <= k < i && 0 <= c < w.fit ==> is_cell(
                    #[trigger] out@[k].fields@[c],
                    *app,
                    v@[w.start + k],
                    *h,
                    k,
                    pen,
                    w.skip + c,
                    figures@[k]@[w.skip + c]@,
                ),
        decreases n - i,
    {
        let f: &Flat = &v[w.start + i];
        let told: &Vec<String> = &figures[i];
        assert(figures@[i as int]@.len() == app.cols@.len());
        let mut fields: Vec<Field> = Vec::new();
        let mut c: usize = 0;
        while c < w.fit
            invariant
                total == app.cols@.len(),
                w.skip + w.fit <= total,
                told@.len() == total,
                c <= w.fit,
                fields@.len() == c,
                forall|j: int|
                    0 <= j < c ==> is_cell(
                        #[trigger] fields@[j],
                        *app,
                        *f,
                        *h,
                        i as int,
                        pen,
                        w.skip + j,
                        told@[w.skip + j]@,
                    ),
            decreases w.fit - c,
        {
            let d = cell(
                app.cols[w.skip + c].label.as_str(),
                f,
                &app.expand,
                h,
                i,
                pen,
                told[w.skip + c].as_str(),
            );
            fields.push(d);
            c += 1;
        }
        out.push(Strip { fields, selected: w.start + i == app.cursor });
        i += 1;
    }
    out
}

/// The columns on the screen are whole: they stand one after the other within
/// the width, unless there is only one.
pub proof fn law_what_is_drawn_fits(v: Seq<Head>, col_off: u16, width: u16)
    ensures
        ({
            let skip = first_column(v.len(), col_off);
            let fit = drawn_columns(v, skip, width);
            fit > 1 ==> columns::width_upto(
                v,
                skip,
                fit,
                among(v, "name"@, skip, v.len() as int),
            ) <= width
        }),
{
    let skip = first_column(v.len(), col_off);
    let name = among(v, "name"@, skip, v.len() as int);
    if v.len() > 0 {
        columns::law_a_column_is_drawn_whole_or_not_at_all(v, skip, width as nat, name);
    }
}

// ---------------------------------------------------------------------------
// From one frame to the next
// ---------------------------------------------------------------------------

/// Whether the sample on the table has yet to be measured. A frame drawn for a
/// key is no measurement.
#[derive(Debug)]
pub struct Turn {
    pub fresh: bool,
}

impl Turn {
    /// The first frame is measured.
    pub fn new() -> (r: Self)
        ensures
            r.fresh,
    {
        Turn { fresh: true }
    }

    /// Whether this frame is the one that measures its sample.
    pub fn measure(&mut self) -> (r: bool)
        ensures
            r == old(self).fresh,
            !final(self).fresh,
    {
        let due: bool = self.fresh;
        self.fresh = false;
        due
    }

    /// Whether a sample that has come in goes onto the table. While the table
    /// is frozen one is dropped, so that going on shows the machine as it is.
    pub fn take(&mut self, paused: Option<u64>, arrived: bool) -> (r: bool)
        ensures
            r == (arrived && paused is None),
            final(self).fresh == (old(self).fresh || r),
    {
        let taken: bool = arrived && paused.is_none();
        if taken {
            self.fresh = true;
        }
        taken
    }
}

/// Where the cursor is kept between frames: the id of its row, and the first
/// row on the screen.
#[derive(Debug)]
pub struct Seat {
    pub id: String,
    pub row_off: usize,
}

impl Seat {
    /// At the top, on the whole machine.
    pub fn new() -> (r: Self)
        ensures
            r.id@ == "host"@,
            r.row_off == 0,
    {
        Seat { id: "host".to_owned(), row_off: 0 }
    }

    /// Puts the cursor on its row of the new list, and the rows on the screen
    /// around it.
    pub fn settle(&mut self, app: &mut App, v: &Vec<Flat>, term_h: u16, header: u16)
        requires
            header <= u16::MAX - 4,
        ensures
            final(app)@ == (crate::ui::press::Screen {
                cursor: final(app).cursor,
                row_vis: final(app).row_vis,
                ..old(app)@
            }),
            final(app).cursor == pick::row_of(crate::ui::rows::lines(v@), old(self).id@),
            final(app).row_vis == if term_h < header + 4 {
                0
            } else {
                term_h - (header + 4)
            },
            final(self).id@ == old(self).id@,
            final(self).row_off == pick::first_row(
                final(app).cursor as int,
                old(self).row_off as int,
                final(app).row_vis as int,
                v@.len() as int,
            ),
    {
        app.cursor = pick::remap_cursor(v, self.id.as_str());
        app.row_vis = pick::table_body_rows(term_h, header);
        self.row_off = pick::follow_viewport(app.cursor, self.row_off, app.row_vis, v.len());
    }

    /// Remembers the row that the cursor is on now.
    pub fn pin(&mut self, app: &App, v: &Vec<Flat>)
        ensures
            final(self).row_off == old(self).row_off,
            final(self).id@ == if app.cursor < v@.len() {
                v@[app.cursor as int].id@
            } else {
                old(self).id@
            },
    {
        if app.cursor < v.len() {
            self.id = v[app.cursor].id.clone();
        }
    }
}

/// The row that the cursor was left on is the row it is put on again, while
/// that row is there, and it is on the screen.
pub proof fn law_the_cursor_keeps_its_row(
    v: Seq<crate::ui::rows::Line>,
    id: Seq<char>,
    k: int,
    offset: nat,
    visible: nat,
)
    requires
        0 <= k < v.len(),
        v[k].id == id,
        visible > 0,
    ensures
        v[pick::row_of(v, id)].id == id,
        ({
            let row = pick::row_of(v, id);
            let first = pick::first_row(row, offset as int, visible as int, v.len() as int);
            first <= row < first + visible
        }),
{
    pick::law_the_cursor_stays_on_its_row(v, id, k);
    pick::law_the_selected_row_is_on_the_screen(
        pick::row_of(v, id) as nat,
        offset,
        visible,
        v.len(),
    );
}

} // verus!
