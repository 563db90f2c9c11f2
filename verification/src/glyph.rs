//! Which characters bars, rules and markers are drawn with.
use vstd::prelude::*;

use crate::text;

pub mod laws;

verus! {

/// The characters a terminal can show.
#[derive(Clone, Copy, Debug, PartialEq, Eq, Structural)]
pub enum GlyphSet {
    Unicode,
    /// Everything but the eighth blocks of the trend, which some fonts lack
    /// while they draw the bars. Only ever asked for: nothing says what a font
    /// covers.
    Legacy,
    Ascii,
}

impl Default for GlyphSet {
    fn default() -> (r: Self)
        ensures
            r == GlyphSet::Unicode,
    {
        GlyphSet::Unicode
    }
}

/// The set a locale earns: the block characters with a UTF-8 charmap only.
pub open spec fn set_of(locale: Seq<char>) -> GlyphSet {
    let v = text::lowered(locale);
    if text::has_infix(v, "utf-8"@) || text::has_infix(v, "utf8"@) {
        GlyphSet::Unicode
    } else {
        GlyphSet::Ascii
    }
}

pub fn charmap_set(locale: &str) -> (r: GlyphSet)
    ensures
        r == set_of(locale@),
{
    let v = text::lower_string(locale);
    if text::str_infixed(v.as_str(), "utf-8") || text::str_infixed(v.as_str(), "utf8") {
        GlyphSet::Unicode
    } else {
        GlyphSet::Ascii
    }
}

pub open spec fn is_given(v: Option<Seq<char>>) -> bool {
    v is Some && v->0.len() > 0
}

/// The set that the environment earns: the first variable that is set and not
/// empty decides, and with none the locale is the one without a charmap.
pub open spec fn detected(
    lc_all: Option<Seq<char>>,
    lc_ctype: Option<Seq<char>>,
    lang: Option<Seq<char>>,
) -> GlyphSet {
    if is_given(lc_all) {
        set_of(lc_all->0)
    } else if is_given(lc_ctype) {
        set_of(lc_ctype->0)
    } else if is_given(lang) {
        set_of(lang->0)
    } else {
        GlyphSet::Ascii
    }
}

fn detect(lc_all: Option<&str>, lc_ctype: Option<&str>, lang: Option<&str>) -> (r: GlyphSet)
    ensures
        r == detected(text::opt_str(lc_all), text::opt_str(lc_ctype), text::opt_str(lang)),
{
    if let Some(v) = lc_all {
        if !v.is_empty() {
            return charmap_set(v);
        }
    }
    if let Some(v) = lc_ctype {
        if !v.is_empty() {
            return charmap_set(v);
        }
    }
    if let Some(v) = lang {
        if !v.is_empty() {
            return charmap_set(v);
        }
    }
    GlyphSet::Ascii
}

/// The set to draw with: the one asked for, else the one detected.
pub fn init(
    choice: Option<GlyphSet>,
    lc_all: Option<&str>,
    lc_ctype: Option<&str>,
    lang: Option<&str>,
) -> (r: GlyphSet)
    ensures
        r == match choice {
            Some(s) => s,
            None => detected(text::opt_str(lc_all), text::opt_str(lc_ctype), text::opt_str(lang)),
        },
{
    match choice {
        Some(s) => s,
        None => detect(lc_all, lc_ctype, lang),
    }
}

/// One of two characters: the second in ASCII.
pub open spec fn either(set: GlyphSet, block: char, plain: char) -> char {
    if set == GlyphSet::Ascii {
        plain
    } else {
        block
    }
}

fn pick(set: GlyphSet, block: char, plain: char) -> (r: char)
    ensures
        r == either(set, block, plain),
{
    if set == GlyphSet::Ascii {
        plain
    } else {
        block
    }
}

/// A filled part of a bar, and the densest step of the ramp.
pub fn full(set: GlyphSet) -> (r: char)
    ensures
        r == either(set, '\u{2588}', '#'),
{
    pick(set, '\u{2588}', '#')
}

pub fn dark(set: GlyphSet) -> (r: char)
    ensures
        r == either(set, '\u{2593}', '='),
{
    pick(set, '\u{2593}', '=')
}

pub fn medium(set: GlyphSet) -> (r: char)
    ensures
        r == either(set, '\u{2592}', '+'),
{
    pick(set, '\u{2592}', '+')
}

/// The unfilled tail of a bar: never a part of it.
pub fn light(set: GlyphSet) -> (r: char)
    ensures
        r == either(set, '\u{2591}', '.'),
{
    pick(set, '\u{2591}', '.')
}

/// Two parts that differ from the ramp rather than continue it.
pub fn quad_a(set: GlyphSet) -> (r: char)
    ensures
        r == either(set, '\u{2580}', '%'),
{
    pick(set, '\u{2580}', '%')
}

pub fn quad_b(set: GlyphSet) -> (r: char)
    ensures
        r == either(set, '\u{2584}', '*'),
{
    pick(set, '\u{2584}', '*')
}

pub fn rule(set: GlyphSet) -> (r: char)
    ensures
        r == either(set, '\u{2500}', '-'),
{
    pick(set, '\u{2500}', '-')
}

pub fn ellipsis(set: GlyphSet) -> (r: char)
    ensures
        r == either(set, '\u{2026}', '~'),
{
    pick(set, '\u{2026}', '~')
}

/// The arrow of a path.
pub open spec fn arrow_of(set: GlyphSet) -> char {
    either(set, '\u{2192}', '>')
}

/// The four cursor keys: up, down, left, right.
pub fn arrows(set: GlyphSet) -> (r: (char, char, char, char))
    ensures
        r == (
            either(set, '\u{2191}', '^'),
            either(set, '\u{2193}', 'v'),
            either(set, '\u{2190}', '<'),
            arrow_of(set),
        ),
{
    (
        pick(set, '\u{2191}', '^'),
        pick(set, '\u{2193}', 'v'),
        pick(set, '\u{2190}', '<'),
        pick(set, '\u{2192}', '>'),
    )
}

/// The steps of a trend, lowest first: the one place where the legacy set
/// parts from the full one.
pub open spec fn ramp_of(set: GlyphSet) -> Seq<char> {
    if set == GlyphSet::Unicode {
        seq![
            '\u{2581}',
            '\u{2582}',
            '\u{2583}',
            '\u{2584}',
            '\u{2585}',
            '\u{2586}',
            '\u{2587}',
            '\u{2588}',
        ]
    } else {
        seq!['_', '.', ',', ':', '-', '=', '+', '#']
    }
}

pub fn spark_ramp(set: GlyphSet) -> (r: [char; 8])
    ensures
        r@ == ramp_of(set),
{
    let r: [char; 8] = if set == GlyphSet::Unicode {
        [
            '\u{2581}',
            '\u{2582}',
            '\u{2583}',
            '\u{2584}',
            '\u{2585}',
            '\u{2586}',
            '\u{2587}',
            '\u{2588}',
        ]
    } else {
        ['_', '.', ',', ':', '-', '=', '+', '#']
    };
    assert(r@ =~= ramp_of(set));
    r
}

/// The marker of a row that is open.
pub open spec fn expanded_of(set: GlyphSet) -> Seq<char> {
    seq![either(set, '\u{25bc}', 'v'), ' ']
}

/// The marker of a row that is closed.
pub open spec fn collapsed_of(set: GlyphSet) -> Seq<char> {
    seq![either(set, '\u{25ba}', '>'), ' ']
}

pub fn expanded(set: GlyphSet) -> (r: String)
    ensures
        r@ == expanded_of(set),
{
    let mut s = String::new();
    s.push(pick(set, '\u{25bc}', 'v'));
    s.push(' ');
    assert(s@ =~= expanded_of(set));
    s
}

pub fn collapsed(set: GlyphSet) -> (r: String)
    ensures
        r@ == collapsed_of(set),
{
    let mut s = String::new();
    s.push(pick(set, '\u{25ba}', '>'));
    s.push(' ');
    assert(s@ =~= collapsed_of(set));
    s
}

/// Every set draws everything in as many columns as any other, so no width
/// depends on the terminal.
pub proof fn law_every_set_keeps_the_widths(a: GlyphSet, b: GlyphSet)
    ensures
        ramp_of(a).len() == ramp_of(b).len(),
        expanded_of(a).len() == expanded_of(b).len(),
        collapsed_of(a).len() == expanded_of(b).len(),
{
}

} // verus!
