//! The recent past of each row, drawn against one scale.
use vstd::prelude::*;

use crate::caps::Caps;
use crate::glyph;
use crate::glyph::GlyphSet;
use crate::kgp;
use crate::table::Table;
use crate::text;
use crate::types::Metrics;
use crate::ui::bars;
use crate::ui::rows;
use crate::ui::rows::{Flat, Line};

verus! {

/// How the trend is drawn.
#[derive(Clone, Copy, Debug, PartialEq, Eq, Structural)]
pub enum TrendMode {
    /// Ask the terminal, once, before the first frame.
    Auto,
    Chars,
    Kitty,
    Sixel,
}

/// What to draw with, by what the terminal answered. On this machine an image
/// tied to the cells goes through shared memory; over a connection every pixel
/// of it would be sent, so the smaller encoding is taken where there is one.
pub fn resolve_trend(caps: Caps, remote: bool) -> (r: TrendMode)
    ensures
        r == if caps.sixel && (remote || !caps.kitty) {
            TrendMode::Sixel
        } else if caps.kitty {
            TrendMode::Kitty
        } else {
            TrendMode::Chars
        },
{
    if caps.sixel && (remote || !caps.kitty) {
        TrendMode::Sixel
    } else if caps.kitty {
        TrendMode::Kitty
    } else {
        TrendMode::Chars
    }
}

/// Whether `NO_COLOR` asks for no colour: set to anything but the empty text.
pub fn no_color(var: Option<&str>) -> (r: bool)
    ensures
        r == (var is Some && var->0@.len() > 0),
{
    match var {
        Some(v) => !v.is_empty(),
        None => false,
    }
}

/// The colour an image is drawn in.
pub fn trend_colour(colored: bool) -> (r: [u8; 3])
    ensures
        r@ == if colored {
            seq![0x00u8, 0xaf, 0xd7]
        } else {
            seq![0xbcu8, 0xbc, 0xbc]
        },
{
    let r: [u8; 3] = if colored {
        [0x00, 0xaf, 0xd7]
    } else {
        [0xbc, 0xbc, 0xbc]
    };
    assert(r@ =~= if colored {
        seq![0x00u8, 0xaf, 0xd7]
    } else {
        seq![0xbcu8, 0xbc, 0xbc]
    });
    r
}

// ---------------------------------------------------------------------------
// History
// ---------------------------------------------------------------------------

/// How many samples a trend keeps: as many as its column is wide.
pub const TREND: usize = 9;

/// The last samples of each row.
pub struct History {
    /// The column the samples are of.
    pub sorted_by: String,
    pub samples: Table<Vec<u64>>,
}

/// The samples of a row, oldest first.
pub open spec fn past(h: History, id: Seq<char>) -> Option<Seq<u64>> {
    if h.samples@.dom().contains(id) {
        Some(h.samples@[id]@)
    } else {
        None
    }
}

/// One sample more, the oldest given up for it where there are enough.
pub open spec fn appended(v: Seq<u64>, x: u64) -> Seq<u64> {
    if v.len() == TREND {
        v.drop_first().push(x)
    } else {
        v.push(x)
    }
}

pub open spec fn or_empty(v: Option<Seq<u64>>) -> Seq<u64> {
    match v {
        Some(s) => s,
        None => Seq::empty(),
    }
}

/// The samples of a row after the first `n` rows have been recorded.
pub open spec fn recorded(
    start: Option<Seq<u64>>,
    v: Seq<Line>,
    values: Seq<u64>,
    id: Seq<char>,
    n: int,
) -> Option<Seq<u64>>
    decreases n,
{
    if n <= 0 {
        start
    } else if v[n - 1].id == id {
        Some(appended(or_empty(recorded(start, v, values, id, n - 1)), values[n - 1]))
    } else {
        recorded(start, v, values, id, n - 1)
    }
}

/// Whether one of the first `n` rows has an id.
pub open spec fn listed(v: Seq<Line>, id: Seq<char>, n: int) -> bool
    decreases n,
{
    n > 0 && (v[n - 1].id == id || listed(v, id, n - 1))
}

/// What a row has of the past before it is recorded: nothing where it is not
/// on the table, or where the samples were of another column.
pub open spec fn carried(h: History, sort: Seq<char>, v: Seq<Line>, id: Seq<char>) -> Option<
    Seq<u64>,
> {
    if h.sorted_by@ == sort && listed(v, id, v.len() as int) {
        past(h, id)
    } else {
        None
    }
}

fn longer(v: Option<&Vec<u64>>, x: u64) -> (r: Vec<u64>)
    ensures
        r@ == appended(
            match v {
                Some(s) => s@,
                None => Seq::empty(),
            },
            x,
        ),
{
    let mut out: Vec<u64> = Vec::new();
    if let Some(s) = v {
        let from: usize = if s.len() == TREND {
            1
        } else {
            0
        };
        let mut i: usize = from;
        assert(s@.subrange(from as int, from as int) =~= Seq::empty());
        while i < s.len()
            invariant
                from <= i <= s@.len(),
                out@ == s@.subrange(from as int, i as int),
            decreases s.len() - i,
        {
            out.push(s[i]);
            i += 1;
            assert(s@.subrange(from as int, i as int) =~= s@.subrange(
                from as int,
                i - 1,
            ).push(s@[i - 1]));
        }
        assert(s@.len() == TREND ==> out@ =~= s@.drop_first());
        assert(s@.len() != TREND ==> out@ =~= s@);
    }
    out.push(x);
    out
}

fn copy_samples(s: &Vec<u64>) -> (r: Vec<u64>)
    ensures
        r@ == s@,
{
    let mut out: Vec<u64> = Vec::new();
    let mut i: usize = 0;
    while i < s.len()
        invariant
            i <= s@.len(),
            out@ == s@.take(i as int),
        decreases s.len() - i,
    {
        out.push(s[i]);
        i += 1;
        assert(s@.take(i as int) =~= s@.take(i - 1).push(s@[i - 1]));
    }
    assert(s@.take(i as int) =~= s@);
    out
}

impl History {
    pub fn new() -> (r: Self)
        ensures
            r.sorted_by@.len() == 0,
            forall|id: Seq<char>| #[trigger] past(r, id) is None,
    {
        History { sorted_by: String::new(), samples: Table::new() }
    }

    /// What is kept of the past for the rows on the table.
    fn carry(&self, v: &Vec<Flat>, sort: &str) -> (r: History)
        ensures
            r.sorted_by@ == sort@,
            forall|id: Seq<char>| #[trigger]
                past(r, id) == carried(*self, sort@, rows::lines(v@), id),
    {
        let ghost l = rows::lines(v@);
        let mut out = History { sorted_by: sort.to_owned(), samples: Table::new() };
        if !text::same_str(self.sorted_by.as_str(), sort) {
            return out;
        }
        let mut i: usize = 0;
        while i < v.len()
            invariant
                i <= v@.len(),
                l == rows::lines(v@),
                self.sorted_by@ == sort@,
                out.sorted_by@ == sort@,
                forall|id: Seq<char>| #[trigger]
                    past(out, id) == if listed(l, id, i as int) {
                        past(*self, id)
                    } else {
                        None
                    },
            decreases v.len() - i,
        {
            assert(l[i as int] == v@[i as int]@);
            let ghost before = out;
            if let Some(s) = self.samples.get(v[i].id.as_str()) {
                let c = copy_samples(s);
                out.samples.insert(v[i].id.clone(), c);
                assert forall|id: Seq<char>| #[trigger]
                    past(out, id) == if listed(l, id, i + 1) {
                        past(*self, id)
                    } else {
                        None
                    } by {
                    assert(past(before, id) == if listed(l, id, i as int) {
                        past(*self, id)
                    } else {
                        None
                    });
                }
            } else {
                assert forall|id: Seq<char>| #[trigger]
                    past(out, id) == if listed(l, id, i + 1) {
                        past(*self, id)
                    } else {
                        None
                    } by {
                    assert(past(before, id) == if listed(l, id, i as int) {
                        past(*self, id)
                    } else {
                        None
                    });
                }
            }
            i += 1;
        }
        out
    }

    /// Adds this sample's value of every row, and forgets the rows that are
    /// gone. Another column starts the measurement again: two in one would be
    /// drawn as one picture.
    pub fn record(&mut self, sort: &str, v: &Vec<Flat>, values: &Vec<u64>)
        requires
            values@.len() == v@.len(),
        ensures
            final(self).sorted_by@ == sort@,
            forall|id: Seq<char>| #[trigger]
                past(*final(self), id) == recorded(
                    carried(*old(self), sort@, rows::lines(v@), id),
                    rows::lines(v@),
                    values@,
                    id,
                    v@.len() as int,
                ),
    {
        let ghost l = rows::lines(v@);
        let ghost first = *self;
        let mut next = self.carry(v, sort);
        let mut i: usize = 0;
        while i < v.len()
            invariant
                i <= v@.len(),
                values@.len() == v@.len(),
                l == rows::lines(v@),
                next.sorted_by@ == sort@,
                forall|id: Seq<char>| #[trigger]
                    past(next, id) == recorded(
                        carried(first, sort@, l, id),
                        l,
                        values@,
                        id,
                        i as int,
                    ),
            decreases v.len() - i,
        {
            assert(l[i as int] == v@[i as int]@);
            let ghost before = next;
            let s = longer(next.samples.get(v[i].id.as_str()), values[i]);
            assert(s@ == appended(or_empty(past(before, v@[i as int].id@)), values@[i as int]));
            next.samples.insert(v[i].id.clone(), s);
            assert forall|id: Seq<char>| #[trigger]
                past(next, id) == recorded(carried(first, sort@, l, id), l, values@, id, i + 1) by {
                assert(past(before, id) == recorded(
                    carried(first, sort@, l, id),
                    l,
                    values@,
                    id,
                    i as int,
                ));
            }
            i += 1;
        }
        *self = next;
    }
}

/// A row that is gone has no past, and neither has any after another column is
/// sorted by but what has just been recorded.
pub proof fn law_a_row_that_is_gone_is_forgotten(
    h: History,
    sort: Seq<char>,
    v: Seq<Line>,
    values: Seq<u64>,
    id: Seq<char>,
)
    requires
        values.len() == v.len(),
        !listed(v, id, v.len() as int),
    ensures
        recorded(carried(h, sort, v, id), v, values, id, v.len() as int) is None,
{
    lemma_unlisted(carried(h, sort, v, id), v, values, id, v.len() as int);
}

proof fn lemma_unlisted(
    start: Option<Seq<u64>>,
    v: Seq<Line>,
    values: Seq<u64>,
    id: Seq<char>,
    n: int,
)
    requires
        !listed(v, id, n),
    ensures
        recorded(start, v, values, id, n) == start,
    decreases n,
{
    if n > 0 {
        lemma_unlisted(start, v, values, id, n - 1);
    }
}

/// No row keeps more samples than its column can show.
pub proof fn law_a_trend_never_outgrows_its_column(
    start: Option<Seq<u64>>,
    v: Seq<Line>,
    values: Seq<u64>,
    id: Seq<char>,
    n: int,
)
    requires
        or_empty(start).len() <= TREND,
    ensures
        or_empty(recorded(start, v, values, id, n)).len() <= TREND,
    decreases n,
{
    if n > 0 {
        law_a_trend_never_outgrows_its_column(start, v, values, id, n - 1);
    }
}

// ---------------------------------------------------------------------------
// The scale
// ---------------------------------------------------------------------------

/// The larger of a number and the first `n` samples.
pub open spec fn heaviest_upto(m: u64, s: Seq<u64>, n: int) -> u64
    decreases n,
{
    if n <= 0 {
        m
    } else {
        let h = heaviest_upto(m, s, n - 1);
        if s[n - 1] > h {
            s[n - 1]
        } else {
            h
        }
    }
}

/// The heaviest sample among the entries of the first `n` rows.
pub open spec fn heaviest(h: History, v: Seq<Line>, n: int) -> u64
    decreases n,
{
    if n <= 0 {
        0
    } else {
        let m = heaviest(h, v, n - 1);
        match past(h, v[n - 1].id) {
            Some(s) => if v[n - 1].trimmable {
                heaviest_upto(m, s, s.len() as int)
            } else {
                m
            },
            None => m,
        }
    }
}

/// What a mark of full height stands for: the metric's own full scale where it
/// has one, else the heaviest sample of an entry. A total is no entry: the
/// machine would draw every row flat along the bottom.
pub fn trend_scale(own: Option<u64>, v: &Vec<Flat>, h: &History) -> (r: u64)
    ensures
        r == match own {
            Some(full) => full,
            None => heaviest(*h, rows::lines(v@), v@.len() as int),
        },
{
    if let Some(full) = own {
        return full;
    }
    let ghost l = rows::lines(v@);
    let mut m: u64 = 0;
    let mut i: usize = 0;
    while i < v.len()
        invariant
            i <= v@.len(),
            l == rows::lines(v@),
            m == heaviest(*h, l, i as int),
        decreases v.len() - i,
    {
        assert(l[i as int] == v@[i as int]@);
        if v[i].trimmable {
            if let Some(s) = h.samples.get(v[i].id.as_str()) {
                let ghost base = m;
                let mut k: usize = 0;
                while k < s.len()
                    invariant
                        k <= s@.len(),
                        m == heaviest_upto(base, s@, k as int),
                    decreases s.len() - k,
                {
                    if s[k] > m {
                        m = s[k];
                    }
                    k += 1;
                }
            }
        }
        i += 1;
    }
    m
}

/// The step of a sample on a ramp of eight: the nearest, the upper of two.
pub open spec fn step_of(v: u64, full: u64) -> int {
    if full == 0 || v == 0 {
        0
    } else {
        let x = if v < full {
            v
        } else {
            full
        };
        (14 * x + full) / (2 * full as int)
    }
}

/// A row's past as rising marks. One that has none yet is blank; one that has
/// been at zero throughout is flat.
pub open spec fn sparks(s: Seq<u64>, full: u64, set: GlyphSet) -> Seq<char> {
    Seq::new(s.len(), |k: int| glyph::ramp_of(set)[step_of(s[k], full)])
}

fn step(v: u64, full: u64) -> (r: usize)
    ensures
        r == step_of(v, full),
        r < 8,
{
    if full == 0 || v == 0 {
        return 0;
    }
    let x: u64 = if v < full {
        v
    } else {
        full
    };
    let n: u128 = (14 * x as u128 + full as u128) / (2 * full as u128);
    assert(n <= 7) by (nonlinear_arith)
        requires
            n == (14 * x + full) / (2 * full as int),
            0 < x <= full,
    ;
    n as usize
}

pub fn spark(s: Option<&Vec<u64>>, full: u64, set: GlyphSet) -> (r: String)
    ensures
        r@ == match s {
            Some(v) => sparks(v@, full, set),
            None => Seq::empty(),
        },
{
    let mut out = String::new();
    if let Some(v) = s {
        let ramp: [char; 8] = glyph::spark_ramp(set);
        let ghost want = sparks(v@, full, set);
        let mut i: usize = 0;
        assert(want.take(0) =~= Seq::empty());
        while i < v.len()
            invariant
                i <= v@.len(),
                ramp@ == glyph::ramp_of(set),
                want == sparks(v@, full, set),
                out@ == want.take(i as int),
            decreases v.len() - i,
        {
            let k: usize = step(v[i], full);
            out.push(ramp[k]);
            i += 1;
            assert(want.take(i as int) =~= want.take(i - 1).push(want[i - 1]));
        }
        assert(want.take(i as int) =~= want);
    }
    out
}

/// A heavier sample is never drawn lower, and the heaviest are drawn alike.
pub proof fn law_a_heavier_sample_is_never_lower(a: u64, b: u64, full: u64)
    requires
        a <= b,
    ensures
        0 <= step_of(a, full) <= step_of(b, full) <= 7,
        full > 0 && b >= full ==> step_of(b, full) == 7,
{
    if full > 0 && b > 0 {
        let x = if a < full {
            a
        } else {
            full
        };
        let y = if b < full {
            b
        } else {
            full
        };
        let f = full as int;
        assert((14 * y + f) / (2 * f) <= 7 && (14 * x + f) / (2 * f) <= (14 * y + f) / (2 * f) && (14
            * x + f) / (2 * f) >= 0) by (nonlinear_arith)
            requires
                0 <= x <= y <= f,
                f > 0,
        ;
        if b >= full {
            assert((14 * f + f) / (2 * f) == 7) by (nonlinear_arith)
                requires
                    f > 0,
            ;
        }
    }
}

// ---------------------------------------------------------------------------
// What a frame draws
// ---------------------------------------------------------------------------

/// What each row from `start` on is drawn from: a total has no band.
pub open spec fn band_of(h: History, l: Line) -> Option<Seq<u64>> {
    if l.trimmable {
        past(h, l.id)
    } else {
        None
    }
}

/// What an image of the rows from `start` to `end` is painted from; none where
/// it has no row, or more rows than can be numbered.
pub fn bands(h: &History, v: &Vec<Flat>, start: usize, end: usize) -> (r: Option<
    Vec<Option<Vec<u64>>>,
>)
    requires
        start <= end <= v@.len(),
    ensures
        r is Some == (0 < end - start <= kgp::MAX_BANDS),
        r matches Some(b) ==> kgp::samples_of(b@) == Seq::new(
            (end - start) as nat,
            |k: int| band_of(*h, rows::lines(v@)[start + k]),
        ),
{
    if start == end || end - start > kgp::MAX_BANDS {
        return None;
    }
    let ghost l = rows::lines(v@);
    let mut out: Vec<Option<Vec<u64>>> = Vec::new();
    let mut i: usize = start;
    while i < end
        invariant
            start <= i <= end <= v@.len(),
            l == rows::lines(v@),
            out@.len() == i - start,
            forall|k: int|
                0 <= k < i - start ==> #[trigger] kgp::samples_of(out@)[k] == band_of(
                    *h,
                    l[start + k],
                ),
        decreases end - i,
    {
        assert(l[i as int] == v@[i as int]@);
        let b: Option<Vec<u64>> = if v[i].trimmable {
            match h.samples.get(v[i].id.as_str()) {
                Some(s) => Some(copy_samples(s)),
                None => None,
            }
        } else {
            None
        };
        let ghost before = out@;
        out.push(b);
        assert forall|k: int| 0 <= k < i + 1 - start implies #[trigger] kgp::samples_of(out@)[k]
            == band_of(*h, l[start + k]) by {
            if k < i - start {
                assert(kgp::samples_of(before)[k] == band_of(*h, l[start + k]));
            }
        }
        i += 1;
    }
    assert(kgp::samples_of(out@) =~= Seq::new(
        (end - start) as nat,
        |k: int| band_of(*h, l[start + k]),
    ));
    Some(out)
}

/// What stands in a row's cell of the trend column: placeholders for a band of
/// an image, spaces for an image to be painted over, or the marks themselves.
/// A total has none: the scale is the entries'.
pub open spec fn trend_text(
    l: Line,
    s: Option<Seq<u64>>,
    band: int,
    mode: TrendMode,
    image: bool,
    full: u64,
    set: GlyphSet,
) -> Seq<char> {
    let cells = kgp::band_cells(band, TREND as nat);
    if image && mode == TrendMode::Kitty && l.trimmable && cells is Some {
        cells->0
    } else if image && mode == TrendMode::Sixel {
        bars::repeated(' ', TREND as nat)
    } else if !l.trimmable {
        Seq::empty()
    } else {
        match s {
            Some(v) => sparks(v, full, set),
            None => Seq::empty(),
        }
    }
}

pub fn trend_cell(
    f: &Flat,
    h: &History,
    band: usize,
    mode: TrendMode,
    image: bool,
    full: u64,
    set: GlyphSet,
) -> (r: String)
    ensures
        r@ == trend_text(f@, past(*h, f.id@), band as int, mode, image, full, set),
{
    if image && mode == TrendMode::Kitty && f.trimmable {
        if let Some(p) = kgp::placeholder(band, TREND) {
            return p;
        }
    }
    if image && mode == TrendMode::Sixel {
        return bars::repeat(' ', TREND);
    }
    if !f.trimmable {
        return String::new();
    }
    spark(h.samples.get(f.id.as_str()), full, set)
}

pub open spec fn least(a: u16, b: u16) -> u16 {
    if a < b {
        a
    } else {
        b
    }
}

/// The corner of the first `n` marked cells.
pub open spec fn corner_upto(v: Seq<(u16, u16)>, n: int) -> Option<(u16, u16)>
    decreases n,
{
    if n <= 0 {
        None
    } else {
        let (x, y) = v[n - 1];
        match corner_upto(v, n - 1) {
            Some((a, b)) => Some((least(a, x), least(b, y))),
            None => Some((x, y)),
        }
    }
}

/// The top left corner of the cells that carry the mark of an image.
pub fn marked_corner(v: &Vec<(u16, u16)>) -> (r: Option<(u16, u16)>)
    ensures
        r == corner_upto(v@, v@.len() as int),
{
    let mut best: Option<(u16, u16)> = None;
    let mut i: usize = 0;
    while i < v.len()
        invariant
            i <= v@.len(),
            best == corner_upto(v@, i as int),
        decreases v.len() - i,
    {
        let (x, y) = v[i];
        best = match best {
            Some((a, b)) => Some(
                (
                    if a < x {
                        a
                    } else {
                        x
                    },
                    if b < y {
                        b
                    } else {
                        y
                    },
                ),
            ),
            None => Some((x, y)),
        };
        i += 1;
    }
    best
}

// ---------------------------------------------------------------------------
// Trouble
// ---------------------------------------------------------------------------

/// A stall of at least this many percent of the interval is trouble; below it
/// is the ordinary noise of scheduling.
pub const STALL_ALARM: u64 = 20;

/// Whether so many microseconds are the alarming share of so many nanoseconds.
pub open spec fn stalled(us: Option<u64>, elapsed_ns: u64) -> bool {
    match us {
        Some(n) => elapsed_ns > 0 && n * 1000 * 100 >= STALL_ALARM * elapsed_ns,
        None => false,
    }
}

/// Whether a column's figure says that its row is in trouble.
pub open spec fn in_trouble(label: Seq<char>, m: Metrics, elapsed_ns: u64) -> bool {
    if label == "dstate"@ {
        m.d_state_procs > 0
    } else if label == "cpustall"@ {
        stalled(m.cpu_stall, elapsed_ns)
    } else if label == "iostall"@ {
        stalled(m.io_stall, elapsed_ns)
    } else if label == "memstall"@ {
        stalled(m.mem_stall, elapsed_ns)
    } else {
        false
    }
}

fn over(us: Option<u64>, elapsed_ns: u64) -> (r: bool)
    ensures
        r == stalled(us, elapsed_ns),
{
    match us {
        Some(n) => {
            let share: u128 = STALL_ALARM as u128;
            assert(share * elapsed_ns == 20 * elapsed_ns) by (nonlinear_arith)
                requires
                    share == 20,
            ;
            elapsed_ns > 0 && n as u128 * 100_000 >= share * elapsed_ns as u128
        },
        None => false,
    }
}

pub fn alarming(label: &str, m: &Metrics, elapsed_ns: u64) -> (r: bool)
    ensures
        r == in_trouble(label@, *m, elapsed_ns),
{
    if text::same_str(label, "dstate") {
        m.d_state_procs > 0
    } else if text::same_str(label, "cpustall") {
        over(m.cpu_stall, elapsed_ns)
    } else if text::same_str(label, "iostall") {
        over(m.io_stall, elapsed_ns)
    } else if text::same_str(label, "memstall") {
        over(m.mem_stall, elapsed_ns)
    } else {
        false
    }
}

} // verus!
