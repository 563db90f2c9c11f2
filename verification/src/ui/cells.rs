//! What stands in the cells of a row, and which folders there are to open.
use vstd::prelude::*;

use crate::glyph;
use crate::glyph::GlyphSet;
use crate::text;
use crate::types::UserNode;
use crate::ui::frame;
use crate::ui::frame::Pen;
use crate::ui::rows::Flat;
use crate::ui::trend::TrendMode;
use crate::ui::{columns, detail, rows, trend};

verus! {

/// A trend has one mark for each sample, in their order, and a larger sample
/// never a lower mark.
pub proof fn law_a_mark_for_each_sample(s: Seq<u64>, full: u64, set: GlyphSet, j: int, k: int)
    requires
        0 <= j < s.len(),
        0 <= k < s.len(),
        s[j] <= s[k],
    ensures
        trend::sparks(s, full, set).len() == s.len(),
        exists|a: int, b: int|
            a <= b && trend::sparks(s, full, set)[j] == #[trigger] glyph::ramp_of(set)[a]
                && trend::sparks(s, full, set)[k] == #[trigger] glyph::ramp_of(set)[b],
        s[j] == 0 ==> trend::sparks(s, full, set)[j] == glyph::ramp_of(set)[0],
        full > 0 && s[k] >= full ==> trend::sparks(s, full, set)[k] == glyph::ramp_of(set)[7],
{
    let (a, b) = (trend::step_of(s[j], full), trend::step_of(s[k], full));
    lemma_steps_rise(s[j], s[k], full);
    assert(trend::sparks(s, full, set)[j] == glyph::ramp_of(set)[a]);
    assert(trend::sparks(s, full, set)[k] == glyph::ramp_of(set)[b]);
}

proof fn lemma_steps_rise(v: u64, w: u64, full: u64)
    requires
        v <= w,
    ensures
        trend::step_of(v, full) <= trend::step_of(w, full),
        full > 0 && w >= full ==> trend::step_of(w, full) == 7,
{
    if full > 0 {
        let d = 2 * full as int;
        let x = if v < full { v as int } else { full as int };
        let y = if w < full { w as int } else { full as int };
        vstd::arithmetic::div_mod::lemma_div_is_ordered(14 * x + full, 14 * y + full, d);
        vstd::arithmetic::div_mod::lemma_div_pos_is_pos(14 * y + full, d);
        if y == full {
            assert((15 * y) / (2 * y) == 7) by (nonlinear_arith)
                requires
                    y > 0,
            ;
        }
    }
}

/// Drawn as text, a row that stands for others alone shows a trend, and only
/// where it has a past.
pub proof fn law_who_shows_a_trend(
    l: rows::Line,
    s: Option<Seq<u64>>,
    band: int,
    mode: TrendMode,
    full: u64,
    set: GlyphSet,
)
    ensures
        !l.trimmable ==> trend::trend_text(l, s, band, mode, false, full, set).len() == 0,
        s is None ==> trend::trend_text(l, s, band, mode, false, full, set).len() == 0,
        l.trimmable && s is Some ==> trend::trend_text(l, s, band, mode, false, full, set).len()
            == s->0.len(),
{
}

/// The name of a row stands under `name`, and every column but that and the
/// trend shows its figure, whatever else the row is.
pub proof fn law_a_figure_stands_in_its_cell(
    label: Seq<char>,
    f: Flat,
    open: bool,
    past: Option<Seq<u64>>,
    band: int,
    pen: Pen,
    figure: Seq<char>,
)
    ensures
        label != "spark"@ && label != "name"@ ==> frame::cell_text(
            label,
            f,
            open,
            past,
            band,
            pen,
            figure,
        ) == figure,
        frame::cell_text("name"@, f, open, past, band, pen, figure) == detail::label_of(
            f@,
            open,
            pen.set,
        ),
{
    reveal_strlit("spark");
    reveal_strlit("name");
    assert("spark"@.len() == 5 && "name"@.len() == 4);
}

/// A column tells of waiting exactly where its label ends in `stall`.
pub proof fn law_which_columns_tell_of_waiting(h: columns::Head)
    ensures
        columns::is_stall(h) <==> exists|a: Seq<char>| h.label == #[trigger] (a + "stall"@),
{
    text::laws::law_parts_of_a_text(h.label, "stall"@);
}

/// The folders are those of the host and the four of each user, and no
/// others.
pub proof fn law_which_folders_there_are(users: Seq<UserNode>, n: int, id: Seq<char>)
    requires
        0 <= n <= users.len(),
    ensures
        rows::folder_ids(users, n).contains(id) <==> (id == "host"@ || id == "host/containers"@
            || id == "host/system"@ || exists|k: int|
            0 <= k < n && is_folder_of(#[trigger] users[k], id)),
        rows::folder_ids(users, n).len() == 3 + 4 * n,
    decreases n,
{
    let all = rows::folder_ids(users, n);
    if n <= 0 {
        assert(all[0] == "host"@ && all[1] == "host/containers"@ && all[2] == "host/system"@);
    } else {
        law_which_folders_there_are(users, n - 1, id);
        let before = rows::folder_ids(users, n - 1);
        let u = rows::user_id(users[n - 1].uid);
        let m = before.len() as int;
        assert(all[m] == u && all[m + 1] == u + "/apps"@ && all[m + 2] == u + "/services"@);
        assert(all[m + 3] == u + "/containers"@);
        assert(all.len() == m + 4);
        assert forall|j: int| 0 <= j < m implies all[j] == before[j] by {}
        if before.contains(id) {
            let j = choose|j: int| 0 <= j < before.len() && before[j] == id;
            assert(all[j] == id);
        }
        if all.contains(id) {
            let j = choose|j: int| 0 <= j < all.len() && all[j] == id;
            if j < m {
                assert(before[j] == id);
            } else {
                assert(is_folder_of(users[n - 1], id));
            }
        }
    }
}

/// A folder of a user: their own, and one for each kind of row.
pub open spec fn is_folder_of(u: UserNode, id: Seq<char>) -> bool {
    let own = "user:"@ + text::decimal(u.uid as nat);
    id == own || id == own + "/apps"@ || id == own + "/services"@ || id == own + "/containers"@
}

} // verus!
