//! The keys of the table, and what each does.
use vstd::prelude::*;

use crate::glyph;
use crate::glyph::GlyphSet;
use crate::once;
use crate::text;

verus! {

/// One line of the help: the keys, and what they do. `{up}` and its like stand
/// for the arrows that the terminal can show.
pub struct Binding {
    pub keys: &'static str,
    pub what: &'static str,
}

pub open spec fn bound(keys: Seq<char>, what: Seq<char>) -> (Seq<char>, Seq<char>) {
    (keys, what)
}

/// Every binding.
pub open spec fn all_keys() -> Seq<(Seq<char>, Seq<char>)> {
    seq![
        bound("q  Esc  Ctrl-C"@, "quit"@),
        bound("{up} {down}  j k"@, "move"@),
        bound("PgUp PgDn  Home End"@, "page or jump"@),
        bound("{left} {right}  h l"@, "expand / collapse"@),
        bound("Enter  Space"@, "expand / collapse"@),
        bound("/"@, "filter by regex (Enter apply, Esc cancel)"@),
        bound("c"@, "cycle sort column"@),
        bound("d"@, "reverse sort"@),
        bound("H"@, "hide sort column"@),
        bound("u"@, "unhide last column"@),
        bound("i"@, "detail for the selected row"@),
        bound("p"@, "pause (the footer says how stale the view is)"@),
        bound("s"@, "save view"@),
        bound("[ ]  < >"@, "scroll columns"@),
        bound("?  F1"@, "toggle this help"@),
    ]
}

pub open spec fn bindings(v: Seq<Binding>) -> Seq<(Seq<char>, Seq<char>)> {
    Seq::new(v.len(), |k: int| (v[k].keys@, v[k].what@))
}

fn bind(keys: &'static str, what: &'static str) -> (r: Binding)
    ensures
        r.keys@ == keys@ && r.what@ == what@,
{
    Binding { keys, what }
}

/// Every binding, in the order of the help.
pub fn keys() -> (r: Vec<Binding>)
    ensures
        bindings(r@) == all_keys(),
{
    let mut v: Vec<Binding> = Vec::new();
    v.push(bind("q  Esc  Ctrl-C", "quit"));
    v.push(bind("{up} {down}  j k", "move"));
    v.push(bind("PgUp PgDn  Home End", "page or jump"));
    v.push(bind("{left} {right}  h l", "expand / collapse"));
    v.push(bind("Enter  Space", "expand / collapse"));
    v.push(bind("/", "filter by regex (Enter apply, Esc cancel)"));
    v.push(bind("c", "cycle sort column"));
    v.push(bind("d", "reverse sort"));
    v.push(bind("H", "hide sort column"));
    v.push(bind("u", "unhide last column"));
    v.push(bind("i", "detail for the selected row"));
    v.push(bind("p", "pause (the footer says how stale the view is)"));
    v.push(bind("s", "save view"));
    v.push(bind("[ ]  < >", "scroll columns"));
    v.push(bind("?  F1", "toggle this help"));
    assert(bindings(v@) =~= all_keys());
    v
}

/// A text with each of the four arrows in its place.
pub open spec fn with_arrows(s: Seq<char>, up: char, down: char, left: char, right: char) -> Seq<
    char,
> {
    let a = text::replaced_from(s, "{up}"@, seq![up], 0);
    let b = text::replaced_from(a, "{down}"@, seq![down], 0);
    let c = text::replaced_from(b, "{left}"@, seq![left], 0);
    text::replaced_from(c, "{right}"@, seq![right], 0)
}

/// The column in which the descriptions begin.
pub const KEY_COLUMN: usize = 20;

/// One line of the help.
pub open spec fn help_line(b: (Seq<char>, Seq<char>), set: GlyphSet) -> Seq<char> {
    let k = with_arrows(
        b.0,
        glyph::either(set, '\u{2191}', '^'),
        glyph::either(set, '\u{2193}', 'v'),
        glyph::either(set, '\u{2190}', '<'),
        glyph::arrow_of(set),
    );
    once::padded(k, KEY_COLUMN as nat) + seq![' '] + b.1
}

pub open spec fn help_lines(set: GlyphSet) -> Seq<Seq<char>> {
    Seq::new(all_keys().len(), |k: int| help_line(all_keys()[k], set))
}

fn one_char(c: char) -> (r: String)
    ensures
        r@ == seq![c],
{
    let mut s = String::new();
    s.push(c);
    assert(s@ =~= seq![c]);
    s
}

/// The help, a line for each binding.
pub fn help_text(set: GlyphSet) -> (r: String)
    ensures
        r@ == text::joined_with(help_lines(set), "\n"@),
{
    let all = keys();
    let (up, down, left, right) = glyph::arrows(set);
    let mut out: Vec<String> = Vec::new();
    let mut i: usize = 0;
    while i < all.len()
        invariant
            i <= all@.len(),
            bindings(all@) == all_keys(),
            up == glyph::either(set, '\u{2191}', '^'),
            down == glyph::either(set, '\u{2193}', 'v'),
            left == glyph::either(set, '\u{2190}', '<'),
            right == glyph::arrow_of(set),
            out@.len() == i,
            forall|k: int| 0 <= k < i ==> #[trigger] out@[k]@ == help_line(all_keys()[k], set),
        decreases all.len() - i,
    {
        assert(all_keys()[i as int] == (all@[i as int].keys@, all@[i as int].what@)) by {
            assert(bindings(all@)[i as int] == (all@[i as int].keys@, all@[i as int].what@));
        }
        proof {
            reveal_strlit("{up}");
            reveal_strlit("{down}");
            reveal_strlit("{left}");
            reveal_strlit("{right}");
        }
        let a = text::replace_all(all[i].keys, "{up}", one_char(up).as_str());
        let b = text::replace_all(a.as_str(), "{down}", one_char(down).as_str());
        let c = text::replace_all(b.as_str(), "{left}", one_char(left).as_str());
        let d = text::replace_all(c.as_str(), "{right}", one_char(right).as_str());
        let mut line = once::pad(d.as_str(), KEY_COLUMN);
        line.push(' ');
        line.append(all[i].what);
        assert(line@ =~= help_line(all_keys()[i as int], set));
        out.push(line);
        i += 1;
    }
    assert(bindings(all@).len() == all@.len());
    assert(text::texts(out@) =~= help_lines(set));
    text::join(&out, "\n")
}

} // verus!
