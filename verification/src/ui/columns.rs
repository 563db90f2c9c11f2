//! Which columns the table has, and how many of them fit.
use vstd::prelude::*;

use crate::config;
use crate::text;

verus! {

/// One column of the table.
#[derive(Debug)]
pub struct Column {
    /// What it is called on the command line and in a saved view.
    pub label: String,
    /// What stands above it.
    pub header: String,
    pub width: u16,
}

/// The same as a value.
pub struct Head {
    pub label: Seq<char>,
    pub header: Seq<char>,
    pub width: u16,
}

impl vstd::view::View for Column {
    type V = Head;

    open spec fn view(&self) -> Head {
        Head { label: self.label@, header: self.header@, width: self.width }
    }
}

pub open spec fn heads(v: Seq<Column>) -> Seq<Head> {
    Seq::new(v.len(), |k: int| v[k]@)
}

impl Column {
    pub fn copy(&self) -> (r: Column)
        ensures
            r@ == self@,
    {
        Column { label: self.label.clone(), header: self.header.clone(), width: self.width }
    }
}

// ---------------------------------------------------------------------------
// How many fit
// ---------------------------------------------------------------------------

/// The width of a column where the names are off the screen.
pub const BARE_WIDTH: u16 = 8;

/// How wide a column is drawn.
pub open spec fn drawn_width(c: Head, name_on_screen: bool) -> int {
    if c.label == "name"@ || name_on_screen {
        c.width as int
    } else {
        BARE_WIDTH as int
    }
}

/// The width of the first `n` columns from `skip` on, one space between two.
pub open spec fn width_upto(v: Seq<Head>, skip: int, n: int, name_on_screen: bool) -> int
    decreases n,
{
    if n <= 0 {
        0
    } else {
        width_upto(v, skip, n - 1, name_on_screen) + drawn_width(v[skip + n - 1], name_on_screen)
            + (if n > 1 {
            1int
        } else {
            0
        })
    }
}

/// How many columns fit, counted from `n` on.
pub open spec fn fitting_from(
    v: Seq<Head>,
    skip: int,
    avail: int,
    name_on_screen: bool,
    n: int,
) -> int
    decreases v.len() - skip - n,
{
    if skip + n >= v.len() || width_upto(v, skip, n + 1, name_on_screen) > avail {
        n
    } else {
        fitting_from(v, skip, avail, name_on_screen, n + 1)
    }
}

/// How many columns fit whole; one in any case.
pub open spec fn fitting(v: Seq<Head>, skip: int, avail: int, name_on_screen: bool) -> int {
    let n = fitting_from(v, skip, avail, name_on_screen, 0);
    if n < 1 {
        1
    } else {
        n
    }
}

/// How many columns, from `skip` on, fit at their full width.
pub fn columns_that_fit(cols: &Vec<Column>, skip: usize, avail: u16, name_on_screen: bool) -> (r:
    usize)
    ensures
        r == fitting(heads(cols@), skip as int, avail as int, name_on_screen),
{
    let ghost h = heads(cols@);
    let mut used: u32 = 0;
    let mut n: usize = 0;
    let mut i: usize = skip;
    while i < cols.len()
        invariant
            h == heads(cols@),
            skip <= i,
            i == skip + n,
            i <= cols@.len() || n == 0,
            used == width_upto(h, skip as int, n as int, name_on_screen),
            used <= avail,
            fitting_from(h, skip as int, avail as int, name_on_screen, 0) == fitting_from(
                h,
                skip as int,
                avail as int,
                name_on_screen,
                n as int,
            ),
        ensures
            n == fitting_from(h, skip as int, avail as int, name_on_screen, 0),
        decreases cols.len() - i,
    {
        assert(h[i as int] == cols@[i as int]@);
        let w: u32 = if name_on_screen || text::same_str(cols[i].label.as_str(), "name") {
            cols[i].width as u32
        } else {
            BARE_WIDTH as u32
        };
        let need: u32 = if n == 0 {
            w
        } else {
            w + 1
        };
        assert(width_upto(h, skip as int, n + 1, name_on_screen) == used + need);
        if used + need > avail as u32 {
            break;
        }
        used = used + need;
        n += 1;
        i += 1;
    }
    if n < 1 {
        1
    } else {
        n
    }
}

proof fn lemma_fitting(v: Seq<Head>, skip: int, avail: int, name_on_screen: bool, n: int)
    requires
        0 <= n,
        width_upto(v, skip, n, name_on_screen) <= avail,
        n == 0 || skip + n <= v.len(),
    ensures
        ({
            let m = fitting_from(v, skip, avail, name_on_screen, n);
            &&& n <= m
            &&& width_upto(v, skip, m, name_on_screen) <= avail
            &&& m == n || skip + m <= v.len()
            &&& skip + m >= v.len() || width_upto(v, skip, m + 1, name_on_screen) > avail
        }),
    decreases v.len() - skip - n,
{
    if skip + n < v.len() && width_upto(v, skip, n + 1, name_on_screen) <= avail {
        lemma_fitting(v, skip, avail, name_on_screen, n + 1);
    }
}

/// A column is drawn whole or not at all: what is drawn fits, but for the one
/// that is drawn in any case, and the next column would not.
pub proof fn law_a_column_is_drawn_whole_or_not_at_all(
    v: Seq<Head>,
    skip: int,
    avail: nat,
    name_on_screen: bool,
)
    requires
        0 <= skip < v.len(),
    ensures
        ({
            let n = fitting(v, skip, avail as int, name_on_screen);
            &&& 1 <= n <= v.len() - skip
            &&& n > 1 ==> width_upto(v, skip, n, name_on_screen) <= avail
            &&& skip + n < v.len() ==> width_upto(v, skip, n + 1, name_on_screen) > avail
        }),
{
    lemma_fitting(v, skip, avail as int, name_on_screen, 0);
    let n = fitting_from(v, skip, avail as int, name_on_screen, 0);
    if n == 0 {
        lemma_width_grows(v, skip, 1, 2, name_on_screen);
    }
}

proof fn lemma_width_grows(v: Seq<Head>, skip: int, n: int, m: int, name_on_screen: bool)
    requires
        0 <= n <= m,
    ensures
        width_upto(v, skip, n, name_on_screen) <= width_upto(v, skip, m, name_on_screen),
    decreases m,
{
    if n < m {
        lemma_width_grows(v, skip, n, m - 1, name_on_screen);
    }
}

/// A wider table never shows fewer columns.
pub proof fn law_wider_is_never_fewer(
    v: Seq<Head>,
    skip: int,
    narrow: nat,
    avail: nat,
    name_on_screen: bool,
)
    requires
        0 <= skip < v.len(),
        narrow <= avail,
    ensures
        fitting(v, skip, narrow as int, name_on_screen) <= fitting(
            v,
            skip,
            avail as int,
            name_on_screen,
        ),
{
    lemma_fitting(v, skip, narrow as int, name_on_screen, 0);
    lemma_fitting(v, skip, avail as int, name_on_screen, 0);
    let a = fitting_from(v, skip, narrow as int, name_on_screen, 0);
    let b = fitting_from(v, skip, avail as int, name_on_screen, 0);
    if b < a {
        lemma_width_grows(v, skip, b + 1, a, name_on_screen);
    }
}

// ---------------------------------------------------------------------------
// Which there are
// ---------------------------------------------------------------------------

/// The first column with a label, from column `i` on.
pub open spec fn head_at(all: Seq<Head>, label: Seq<char>, i: int) -> Option<int>
    decreases all.len() - i,
{
    if i < 0 || i >= all.len() {
        None
    } else if all[i].label == label {
        Some(i)
    } else {
        head_at(all, label, i + 1)
    }
}

/// The labels in the order they are asked for: those listed, then all as they
/// stand. The name comes first unless it is listed.
pub open spec fn wanted(all: Seq<Head>, order: Seq<Seq<char>>) -> Seq<Seq<char>> {
    let listed = if order.contains("name"@) {
        order
    } else {
        seq!["name"@] + order
    };
    listed + Seq::new(all.len(), |k: int| all[k].label)
}

/// Whether a column is left out: never the name.
pub open spec fn left_out(label: Seq<char>, hidden: Seq<Seq<char>>) -> bool {
    label != "name"@ && hidden.contains(label)
}

/// The columns of the first `n` labels asked for, each once.
pub open spec fn arranged_upto(
    all: Seq<Head>,
    want: Seq<Seq<char>>,
    hidden: Seq<Seq<char>>,
    n: int,
) -> Seq<Head>
    decreases n,
{
    if n <= 0 {
        Seq::empty()
    } else {
        let before = arranged_upto(all, want, hidden, n - 1);
        let label = want[n - 1];
        match head_at(all, label, 0) {
            Some(k) => if left_out(label, hidden) || head_at(before, label, 0) is Some {
                before
            } else {
                before.push(all[k])
            },
            None => before,
        }
    }
}

/// The columns on the screen.
pub open spec fn arranged(all: Seq<Head>, order: Seq<Seq<char>>, hidden: Seq<Seq<char>>) -> Seq<
    Head,
> {
    let want = wanted(all, order);
    arranged_upto(all, want, hidden, want.len() as int)
}

pub(crate) fn find(v: &Vec<Column>, label: &str) -> (r: Option<usize>)
    ensures
        match r {
            Some(k) => k < v@.len() && head_at(heads(v@), label@, 0) == Some(k as int),
            None => head_at(heads(v@), label@, 0) is None,
        },
{
    let ghost h = heads(v@);
    let mut i: usize = 0;
    while i < v.len()
        invariant
            i <= v@.len(),
            h == heads(v@),
            head_at(h, label@, 0) == head_at(h, label@, i as int),
        decreases v.len() - i,
    {
        assert(h[i as int] == v@[i as int]@);
        if text::same_str(v[i].label.as_str(), label) {
            return Some(i);
        }
        i += 1;
    }
    None
}

fn place(out: &mut Vec<Column>, all: &Vec<Column>, label: &str, hidden: &Vec<String>)
    ensures
        heads(final(out)@) == match head_at(heads(all@), label@, 0) {
            Some(k) => if left_out(label@, text::texts(hidden@)) || head_at(
                heads(old(out)@),
                label@,
                0,
            ) is Some {
                heads(old(out)@)
            } else {
                heads(old(out)@).push(heads(all@)[k])
            },
            None => heads(old(out)@),
        },
{
    if let Some(k) = find(all, label) {
        let gone: bool = !text::same_str(label, "name") && text::among(hidden, label);
        if !gone && find(out, label).is_none() {
            let c = all[k].copy();
            let ghost before = out@;
            out.push(c);
            assert(heads(out@) =~= heads(before).push(c@));
        }
    }
}

/// The columns that a view asks for, of all there are.
pub fn from_view(all: &Vec<Column>, view: &config::View) -> (r: Vec<Column>)
    ensures
        heads(r@) == arranged(
            heads(all@),
            text::texts(view.column_order@),
            text::texts(view.hide_columns@),
        ),
{
    let ghost h = heads(all@);
    let ghost order = text::texts(view.column_order@);
    let ghost hidden = text::texts(view.hide_columns@);
    let ghost want = wanted(h, order);
    let mut out: Vec<Column> = Vec::new();
    assert(heads(out@) =~= arranged_upto(h, want, hidden, 0));
    let named: bool = text::among(&view.column_order, "name");
    if !named {
        assert(want[0] == "name"@);
        place(&mut out, all, "name", &view.hide_columns);
        assert(heads(out@) == arranged_upto(h, want, hidden, 1));
    }
    let ghost base = if named {
        0int
    } else {
        1
    };
    let mut i: usize = 0;
    while i < view.column_order.len()
        invariant
            i <= view.column_order@.len(),
            h == heads(all@),
            order == text::texts(view.column_order@),
            hidden == text::texts(view.hide_columns@),
            want == wanted(h, order),
            base == if order.contains("name"@) {
                0int
            } else {
                1
            },
            heads(out@) == arranged_upto(h, want, hidden, base + i),
        decreases view.column_order.len() - i,
    {
        assert(order[i as int] == view.column_order@[i as int]@);
        assert(want[base + i] == order[i as int]);
        place(&mut out, all, view.column_order[i].as_str(), &view.hide_columns);
        i += 1;
    }
    let mut k: usize = 0;
    while k < all.len()
        invariant
            k <= all@.len(),
            i == view.column_order@.len(),
            h == heads(all@),
            order == text::texts(view.column_order@),
            hidden == text::texts(view.hide_columns@),
            want == wanted(h, order),
            base == if order.contains("name"@) {
                0int
            } else {
                1
            },
            heads(out@) == arranged_upto(h, want, hidden, base + i + k),
        decreases all.len() - k,
    {
        assert(h[k as int] == all@[k as int]@);
        assert(want[base + i + k] == h[k as int].label);
        place(&mut out, all, all[k].label.as_str(), &view.hide_columns);
        k += 1;
    }
    out
}

proof fn lemma_head_at(all: Seq<Head>, label: Seq<char>, i: int)
    requires
        0 <= i,
    ensures
        match head_at(all, label, i) {
            Some(k) => i <= k < all.len() && all[k].label == label,
            None => forall|k: int| i <= k < all.len() ==> #[trigger] all[k].label != label,
        },
    decreases all.len() - i,
{
    if i < all.len() && all[i].label != label {
        lemma_head_at(all, label, i + 1);
    }
}

proof fn lemma_arranged(all: Seq<Head>, want: Seq<Seq<char>>, hidden: Seq<Seq<char>>, n: int)
    requires
        0 <= n <= want.len(),
    ensures
        ({
            let v = arranged_upto(all, want, hidden, n);
            &&& forall|i: int, j: int|
                0 <= i < j < v.len() ==> #[trigger] v[i].label != #[trigger] v[j].label
            &&& forall|i: int| 0 <= i < v.len() ==> !left_out(#[trigger] v[i].label, hidden)
        }),
    decreases n,
{
    if n > 0 {
        lemma_arranged(all, want, hidden, n - 1);
        let before = arranged_upto(all, want, hidden, n - 1);
        lemma_head_at(all, want[n - 1], 0);
        lemma_head_at(before, want[n - 1], 0);
    }
}

/// No column is shown twice, and none that is hidden.
pub proof fn law_every_column_once(all: Seq<Head>, order: Seq<Seq<char>>, hidden: Seq<Seq<char>>)
    ensures
        ({
            let v = arranged(all, order, hidden);
            &&& forall|i: int, j: int|
                0 <= i < j < v.len() ==> #[trigger] v[i].label != #[trigger] v[j].label
            &&& forall|i: int| 0 <= i < v.len() ==> !left_out(#[trigger] v[i].label, hidden)
        }),
{
    let want = wanted(all, order);
    lemma_arranged(all, want, hidden, want.len() as int);
}

proof fn lemma_arranged_keeps(
    all: Seq<Head>,
    want: Seq<Seq<char>>,
    hidden: Seq<Seq<char>>,
    n: int,
    m: int,
)
    requires
        0 <= n < m <= want.len(),
        head_at(all, want[n], 0) is Some,
        !left_out(want[n], hidden),
    ensures
        head_at(arranged_upto(all, want, hidden, m), want[n], 0) is Some,
    decreases m,
{
    let label = want[n];
    let v = arranged_upto(all, want, hidden, m);
    let before = arranged_upto(all, want, hidden, m - 1);
    lemma_head_at(v, label, 0);
    if n < m - 1 {
        lemma_arranged_keeps(all, want, hidden, n, m - 1);
        lemma_head_at(before, label, 0);
        let k = head_at(before, label, 0)->0;
        assert(v[k] == before[k]);
    } else {
        lemma_head_at(all, label, 0);
        lemma_head_at(before, label, 0);
        if head_at(before, label, 0) is None {
            assert(v[before.len() as int].label == label);
        }
    }
}

/// Every column that is not hidden is shown, whatever order is asked for.
pub proof fn law_what_is_not_hidden_is_shown(
    all: Seq<Head>,
    order: Seq<Seq<char>>,
    hidden: Seq<Seq<char>>,
    k: int,
)
    requires
        0 <= k < all.len(),
        !left_out(all[k].label, hidden),
    ensures
        head_at(arranged(all, order, hidden), all[k].label, 0) is Some,
{
    let want = wanted(all, order);
    let at = want.len() - all.len() + k;
    assert(want[at] == all[k].label);
    lemma_head_at(all, all[k].label, 0);
    lemma_arranged_keeps(all, want, hidden, at, want.len() as int);
}

// ---------------------------------------------------------------------------
// Hiding, and the sort column
// ---------------------------------------------------------------------------

/// Hides a column; the name cannot be hidden.
pub fn hide_column(view: &mut config::View, label: &str) -> (r: bool)
    ensures
        r == (label@ != "name"@),
        text::texts(final(view).hide_columns@) == if !r || text::texts(
            old(view).hide_columns@,
        ).contains(label@) {
            text::texts(old(view).hide_columns@)
        } else {
            text::texts(old(view).hide_columns@).push(label@)
        },
        final(view).sort == old(view).sort && final(view).desc == old(view).desc,
        final(view).filter == old(view).filter && final(view).top == old(view).top,
        final(view).column_order == old(view).column_order && final(view).users == old(view).users,
{
    if text::same_str(label, "name") {
        return false;
    }
    if !text::among(&view.hide_columns, label) {
        let ghost before = view.hide_columns@;
        view.hide_columns.push(label.to_owned());
        assert(text::texts(view.hide_columns@) =~= text::texts(before).push(label@));
    }
    true
}

/// Shows the column that was hidden last, and says which it was.
pub fn unhide_last(view: &mut config::View) -> (r: Option<String>)
    ensures
        match r {
            Some(label) => old(view).hide_columns@.len() > 0 && label@ == text::texts(
                old(view).hide_columns@,
            ).last() && text::texts(final(view).hide_columns@) == text::texts(
                old(view).hide_columns@,
            ).drop_last(),
            None => old(view).hide_columns@.len() == 0 && final(view).hide_columns@ == old(
                view,
            ).hide_columns@,
        },
        final(view).sort == old(view).sort && final(view).desc == old(view).desc,
        final(view).filter == old(view).filter && final(view).top == old(view).top,
        final(view).column_order == old(view).column_order && final(view).users == old(view).users,
{
    let ghost before = view.hide_columns@;
    let r = view.hide_columns.pop();
    proof {
        if before.len() > 0 {
            assert(text::texts(view.hide_columns@) =~= text::texts(before).drop_last());
        }
    }
    r
}

/// The next column to sort by, of `left` from column `i` on, round and round.
/// The trend is no figure of this sample, so nothing sorts by it.
pub open spec fn next_from(v: Seq<Head>, current: Seq<char>, i: int, left: nat) -> Seq<char>
    decreases left,
{
    if left == 0 || v.len() == 0 {
        current
    } else {
        let k = if i >= v.len() {
            0
        } else {
            i
        };
        if v[k].label != "spark"@ {
            v[k].label
        } else {
            next_from(v, current, k + 1, (left - 1) as nat)
        }
    }
}

/// The column to sort by after the current one; the first where the current
/// one is not shown.
pub open spec fn next_sort_of(v: Seq<Head>, current: Seq<char>) -> Seq<char> {
    let start = match head_at(v, current, 0) {
        Some(k) => k + 1,
        None => 0,
    };
    next_from(v, current, start, v.len())
}

pub fn next_sort(cols: &Vec<Column>, current: &str) -> (r: String)
    ensures
        r@ == next_sort_of(heads(cols@), current@),
{
    let ghost h = heads(cols@);
    let n: usize = cols.len();
    let mut i: usize = match find(cols, current) {
        Some(k) => k + 1,
        None => 0,
    };
    let mut left: usize = n;
    while left > 0
        invariant
            n == cols@.len(),
            left <= n,
            i <= n,
            h == heads(cols@),
            next_sort_of(h, current@) == next_from(h, current@, i as int, left as nat),
        decreases left,
    {
        let k: usize = if i >= n {
            0
        } else {
            i
        };
        assert(h[k as int] == cols@[k as int]@);
        if !text::same_str(cols[k].label.as_str(), "spark") {
            return cols[k].label.clone();
        }
        i = k + 1;
        left = left - 1;
    }
    current.to_owned()
}

/// A label that is one of those given.
pub fn check_column(label: &str, labels: &Vec<String>) -> (r: bool)
    ensures
        r == text::texts(labels@).contains(label@),
{
    text::among(labels, label)
}

/// A column shows how long something waited.
pub open spec fn is_stall(h: Head) -> bool {
    text::has_suffix(h.label, "stall"@)
}

/// Whether any of these columns shows how long something waited: only then is
/// it worth reading.
pub fn shows_stalls(cols: &Vec<Column>) -> (r: bool)
    ensures
        r == exists|k: int| 0 <= k < cols@.len() && is_stall(#[trigger] heads(cols@)[k]),
{
    let ghost v = heads(cols@);
    let mut i: usize = 0;
    while i < cols.len()
        invariant
            i <= cols@.len(),
            v == heads(cols@),
            forall|k: int| 0 <= k < i ==> !is_stall(#[trigger] v[k]),
        decreases cols.len() - i,
    {
        assert(v[i as int] == cols@[i as int]@);
        if text::str_suffixed(cols[i].label.as_str(), "stall") {
            assert(is_stall(v[i as int]));
            return true;
        }
        i += 1;
    }
    false
}

} // verus!
