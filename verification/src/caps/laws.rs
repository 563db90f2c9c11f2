//! What a terminal's answers say.
use vstd::prelude::*;

use crate::caps;
use crate::text;
use crate::text::laws::lacks;

verus! {

/// A graphics reply says yes where `OK` follows its first semicolon.
pub proof fn law_a_reply_says_yes(head: Seq<char>, v: Seq<char>)
    requires
        lacks(head, ';'),
    ensures
        caps::says_ok(head + seq![';'] + v) <==> exists|b: Seq<char>| v == #[trigger] ("OK"@ + b),
        !caps::says_ok(head),
{
    text::laws::law_on_either_side_of_the_first(head, ';', v);
    text::laws::law_parts_of_a_text(v, "OK"@);
}

/// A list of attributes has sixel where a whole field before its end is a
/// four: first, or behind a semicolon.
pub proof fn law_a_four_is_sixel(before: Seq<char>, rest: Seq<char>, end: Seq<char>)
    requires
        lacks(before, ';'),
        lacks(before, 'c'),
        lacks(rest, 'c'),
    ensures
        caps::lists_sixel(seq!['4'] + seq![';'] + rest + seq!['c'] + end),
        caps::lists_sixel(before + seq![';'] + (seq!['4'] + seq![';'] + rest) + seq!['c'] + end),
        !caps::lists_sixel(before),
        before != seq!['4'] ==> !caps::lists_sixel(before + seq!['c'] + end),
{
    reveal_strlit("4");
    let four = seq!['4'];
    assert("4"@ =~= four);
    let first = four + seq![';'] + rest;
    lemma_lacks(four, ';', rest, 'c');
    text::laws::law_on_either_side_of_the_first(first, 'c', end);
    text::laws::law_pieces(four, ';', rest);
    assert((seq![four] + text::pieces(rest, ';'))[0] == four);
    assert(text::pieces(first, ';').contains(four));
    let second = before + seq![';'] + first;
    lemma_lacks(before, ';', first, 'c');
    text::laws::law_on_either_side_of_the_first(second, 'c', end);
    text::laws::law_pieces(before, ';', first);
    let p = text::pieces(second, ';');
    assert(p =~= seq![before] + (seq![four] + text::pieces(rest, ';')));
    assert(p[1] == four);
    assert(p.contains(four));
    text::laws::law_on_either_side_of_the_first(before, 'c', end);
    if before != four {
        let q = text::pieces(before, ';');
        assert(q =~= seq![before]);
        if q.contains(four) {
            assert(q[q.index_of(four)] == before);
        }
    }
}

proof fn lemma_lacks(a: Seq<char>, m: char, b: Seq<char>, c: char)
    requires
        lacks(a, c),
        lacks(b, c),
        m != c,
    ensures
        lacks(a + seq![m] + b, c),
{
    let s = a + seq![m] + b;
    assert forall|k: int| 0 <= k < s.len() implies #[trigger] s[k] != c by {
        if k < a.len() {
            assert(s[k] == a[k]);
        } else if k > a.len() {
            assert(s[k] == b[k - a.len() - 1]);
        }
    }
}

} // verus!
