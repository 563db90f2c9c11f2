//! What replacing a part of a text does, told by the texts around it.
use vstd::prelude::*;

use crate::text;

verus! {

proof fn lemma_behind(a: Seq<char>, b: Seq<char>, p: Seq<char>, with: Seq<char>, i: int)
    requires
        0 <= i,
    ensures
        text::replaced_from(a + b, p, with, a.len() + i) == text::replaced_from(b, p, with, i),
    decreases b.len() - i,
{
    let s = a + b;
    let from = a.len() + i;
    if i < b.len() && p.len() > 0 {
        if from + p.len() <= s.len() {
            assert(s.subrange(from, from + p.len()) =~= b.subrange(i, i + p.len()));
        }
        assert(text::occurs_at(s, p, from) == text::occurs_at(b, p, i));
        if text::occurs_at(s, p, from) {
            lemma_behind(a, b, p, with, i + p.len());
        } else {
            assert(s[from] == b[i]);
            lemma_behind(a, b, p, with, i + 1);
        }
    }
}

/// A text that begins with a part begins with what replaces it, and goes on
/// as the rest does.
pub proof fn law_a_part_in_front_is_replaced(p: Seq<char>, rest: Seq<char>, with: Seq<char>)
    requires
        p.len() > 0,
    ensures
        text::replaced_from(p + rest, p, with, 0) == with + text::replaced_from(rest, p, with, 0),
{
    assert((p + rest).subrange(0, p.len() as int) =~= p);
    assert(text::occurs_at(p + rest, p, 0));
    lemma_behind(p, rest, p, with, 0);
}

/// A text without the part stays as it is.
pub proof fn law_a_text_without_the_part_stays(s: Seq<char>, p: Seq<char>, with: Seq<char>, i: int)
    requires
        p.len() > 0,
        !text::has_infix(s, p),
        0 <= i <= s.len(),
    ensures
        text::replaced_from(s, p, with, i) == s.skip(i),
    decreases s.len() - i,
{
    if i < s.len() {
        assert(!text::occurs_at(s, p, i));
        law_a_text_without_the_part_stays(s, p, with, i + 1);
        assert(seq![s[i]] + s.skip(i + 1) =~= s.skip(i));
    } else {
        assert(s.skip(i) =~= Seq::<char>::empty());
    }
}

} // verus!
