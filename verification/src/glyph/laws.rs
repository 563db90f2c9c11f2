//! Which characters a terminal is taken to draw.
use vstd::prelude::*;

use crate::glyph;
use crate::glyph::GlyphSet;
use crate::text;

verus! {

/// The first variable that is set and not empty decides: the one for all, then
/// the one for characters, then the language.
pub proof fn law_the_first_variable_decides(
    all: Option<Seq<char>>,
    ctype: Option<Seq<char>>,
    lang: Option<Seq<char>>,
    v: Seq<char>,
)
    requires
        v.len() > 0,
    ensures
        glyph::detected(Some(v), ctype, lang) == glyph::set_of(v),
        glyph::detected(None, Some(v), lang) == glyph::set_of(v),
        glyph::detected(Some(Seq::empty()), Some(v), lang) == glyph::set_of(v),
        glyph::detected(None, None, Some(v)) == glyph::set_of(v),
        glyph::detected(None, None, None) == GlyphSet::Ascii,
{
}

/// A locale draws blocks exactly where it names UTF-8, with or without the
/// dash, in any case.
pub proof fn law_which_locale_draws_blocks(v: Seq<char>)
    ensures
        glyph::set_of(v) == GlyphSet::Unicode <==> (exists|a: Seq<char>, b: Seq<char>|
            text::lowered(v) == #[trigger] (a + "utf-8"@ + b)) || (exists|
            a: Seq<char>,
            b: Seq<char>,
        |
            text::lowered(v) == #[trigger] (a + "utf8"@ + b)),
        glyph::set_of(v) == GlyphSet::Unicode || glyph::set_of(v) == GlyphSet::Ascii,
{
    text::laws::law_parts_of_a_text(text::lowered(v), "utf-8"@);
    text::laws::law_parts_of_a_text(text::lowered(v), "utf8"@);
}

/// The steps of a trend are eight different characters in every set.
pub proof fn law_eight_different_steps(set: GlyphSet)
    ensures
        glyph::ramp_of(set).len() == 8,
        glyph::ramp_of(set).no_duplicates(),
{
}

/// An open row and a closed one are marked differently in every set.
pub proof fn law_open_and_closed_look_different(set: GlyphSet)
    ensures
        glyph::expanded_of(set)[0] != glyph::collapsed_of(set)[0],
        glyph::expanded_of(set).len() == 2 && glyph::collapsed_of(set).len() == 2,
{
}

} // verus!
