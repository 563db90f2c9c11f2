//! What the operations on text do, told by the texts they are put together
//! from.
use vstd::prelude::*;

use crate::text;

verus! {

/// `c` stands nowhere in `s`.
pub open spec fn lacks(s: Seq<char>, c: char) -> bool {
    forall|k: int| 0 <= k < s.len() ==> #[trigger] s[k] != c
}

#[verifier::rlimit(50)]
#[verifier::spinoff_prover]
proof fn lemma_begins(s: Seq<char>, p: Seq<char>)
    ensures
        text::has_prefix(s, p) <==> exists|b: Seq<char>| s == #[trigger] (p + b),
{
    let (m, n) = (p.len() as int, s.len() as int);
    if text::has_prefix(s, p) {
        let b = s.subrange(m, n);
        assert(s =~= p + b);
    } else if exists|b: Seq<char>| s == #[trigger] (p + b) {
        let b = choose|b: Seq<char>| s == #[trigger] (p + b);
        lemma_put_together(Seq::empty(), p, b);
        assert(Seq::empty() + p + b =~= s);
    }
}

#[verifier::rlimit(50)]
#[verifier::spinoff_prover]
proof fn lemma_ends(s: Seq<char>, p: Seq<char>)
    ensures
        text::has_suffix(s, p) <==> exists|a: Seq<char>| s == #[trigger] (a + p),
{
    let (m, n) = (p.len() as int, s.len() as int);
    if text::has_suffix(s, p) {
        let a = s.subrange(0, n - m);
        assert(s =~= a + p);
    } else if exists|a: Seq<char>| s == #[trigger] (a + p) {
        let a = choose|a: Seq<char>| s == #[trigger] (a + p);
        lemma_put_together(a, p, Seq::empty());
        assert(a + p + Seq::empty() =~= s);
    }
}

#[verifier::rlimit(50)]
#[verifier::spinoff_prover]
proof fn lemma_holds(s: Seq<char>, p: Seq<char>)
    ensures
        text::has_infix(s, p) <==> exists|a: Seq<char>, b: Seq<char>| s == #[trigger] (a + p + b),
{
    let (m, n) = (p.len() as int, s.len() as int);
    if text::has_infix(s, p) {
        let i = choose|i: int| #[trigger] text::occurs_at(s, p, i);
        let (a, b) = (s.subrange(0, i), s.subrange(i + m, n));
        assert(s =~= a + p + b);
    } else if exists|a: Seq<char>, b: Seq<char>| s == #[trigger] (a + p + b) {
        let (a, b) = choose|a: Seq<char>, b: Seq<char>| s == #[trigger] (a + p + b);
        lemma_put_together(a, p, b);
    }
}

proof fn lemma_put_together(a: Seq<char>, p: Seq<char>, b: Seq<char>)
    ensures
        text::occurs_at(a + p + b, p, a.len() as int),
{
    let i = a.len() as int;
    assert((a + p + b).subrange(i, i + p.len()) =~= p);
}

/// A text begins with another, ends with it or holds it exactly where it is
/// put together so.
#[verifier::rlimit(50)]
#[verifier::spinoff_prover]
pub proof fn law_parts_of_a_text(s: Seq<char>, p: Seq<char>)
    ensures
        text::has_prefix(s, p) <==> exists|b: Seq<char>| s == #[trigger] (p + b),
        text::has_suffix(s, p) <==> exists|a: Seq<char>| s == #[trigger] (a + p),
        text::has_infix(s, p) <==> exists|a: Seq<char>, b: Seq<char>| s == #[trigger] (a + p + b),
{
    lemma_begins(s, p);
    lemma_ends(s, p);
    lemma_holds(s, p);
}

/// What follows the last `c`, and what stands before it.
pub proof fn law_on_either_side_of_the_last(a: Seq<char>, c: char, b: Seq<char>)
    requires
        lacks(b, c),
    ensures
        text::after_last(a + seq![c] + b, c) == b,
        text::before_last(a + seq![c] + b, c) == Some(a),
        lacks(a, c) ==> text::after_last(a, c) == a && text::before_last(a, c) is None,
{
    let s = a + seq![c] + b;
    let i = a.len() as int;
    assert(s[i] == c);
    assert forall|j: int| i < j < s.len() implies s[j] != c by {
        assert(s[j] == b[j - i - 1]);
    }
    text::lemma_last_at(s, c, i);
    assert(s.subrange(i + 1, s.len() as int) =~= b);
    assert(s.subrange(0, i) =~= a);
    if lacks(a, c) {
        text::lemma_last_none(a, c);
    }
}

proof fn lemma_first(a: Seq<char>, c: char, b: Seq<char>, k: int)
    requires
        lacks(a, c),
        0 <= k <= a.len(),
    ensures
        text::index_from(a + seq![c] + b, c, k) == a.len(),
        text::index_from(a, c, k) == a.len(),
    decreases a.len() - k,
{
    let s = a + seq![c] + b;
    if k < a.len() {
        assert(s[k] == a[k]);
        lemma_first(a, c, b, k + 1);
    } else {
        assert(s[k] == c);
    }
}

/// What stands before the first `c`, and what follows it.
pub proof fn law_on_either_side_of_the_first(a: Seq<char>, c: char, b: Seq<char>)
    requires
        lacks(a, c),
    ensures
        text::cut_first(a + seq![c] + b, c) == Some((a, b)),
        text::cut_first(a, c) is None,
{
    let s = a + seq![c] + b;
    lemma_first(a, c, b, 0);
    assert(s.subrange(0, a.len() as int) =~= a);
    assert(s.subrange(a.len() as int + 1, s.len() as int) =~= b);
}

/// The pieces of a text are what stands before its first `c` and the pieces of
/// the rest; a text without one is one piece.
pub proof fn law_pieces(a: Seq<char>, c: char, b: Seq<char>)
    requires
        lacks(a, c),
    ensures
        text::pieces(a + seq![c] + b, c) == seq![a] + text::pieces(b, c),
        text::pieces(a, c) == seq![a],
{
    law_on_either_side_of_the_first(a, c, b);
}

proof fn lemma_decimal(n: nat)
    ensures
        text::all_digits(text::decimal(n)),
        text::decimal_value(text::decimal(n)) == n,
    decreases n,
{
    if n >= 10 {
        lemma_decimal(n / 10);
        let (d, s) = (text::digit((n % 10) as int), text::decimal(n));
        assert(s.drop_last() =~= text::decimal(n / 10));
        assert(s.last() == d);
        assert forall|i: int| 0 <= i < s.len() implies text::is_digit(#[trigger] s[i]) by {
            if i < s.len() - 1 {
                assert(s[i] == text::decimal(n / 10)[i]);
            }
        }
    } else {
        let s = text::decimal(n);
        assert(s.drop_last() =~= Seq::<char>::empty());
        assert(s.last() == text::digit(n as int));
        assert(text::decimal_value(s.drop_last()) == 0);
    }
}

/// A number written down is read back; one past the bound is none.
pub proof fn law_numbers_are_read_back(n: nat, max: nat)
    ensures
        n <= max ==> text::number_upto(text::decimal(n), max) == Some(n),
        n > max ==> text::number_upto(text::decimal(n), max) is None,
        n <= max ==> text::number_upto(seq!['+'] + text::decimal(n), max) == Some(n),
{
    lemma_decimal(n);
    let s = text::decimal(n);
    assert(text::is_digit(s[0]));
    assert(text::rest_from(seq!['+'] + s, 1) =~= s);
}

/// A shortened text is the text where it fits; else it fills the width with
/// its beginning and one ellipsis.
pub proof fn law_shortened(s: Seq<char>, width: nat)
    ensures
        s.len() <= width ==> text::shortened(s, width) == s,
        0 < width < s.len() ==> {
            let r = text::shortened(s, width);
            &&& r.len() == width
            &&& r.last() == '\u{2026}'
            &&& forall|k: int| 0 <= k < width - 1 ==> r[k] == s[k]
        },
{
    reveal_strlit("\u{2026}");
}

proof fn lemma_put_keeps(v: Seq<Seq<char>>, x: Seq<char>)
    ensures
        text::put(v, x).to_multiset() =~= v.to_multiset().insert(x),
        text::put(v, x).len() == v.len() + 1,
    decreases v.len(),
{
    broadcast use vstd::seq_lib::group_to_multiset_ensures;

    if v.len() > 0 {
        let d = v.drop_last();
        lemma_put_keeps(d, x);
        assert(v =~= d.push(v.last()));
        assert(v.to_multiset() =~= d.to_multiset().insert(v.last()));
        assert(text::put(d, x).push(v.last()).to_multiset() =~= text::put(d, x).to_multiset().insert(
            v.last(),
        ));
    }
}

/// Sorting neither drops a text nor makes one up.
pub proof fn law_sorting_keeps_every_text(v: Seq<Seq<char>>)
    ensures
        text::sorted_texts(v).to_multiset() =~= v.to_multiset(),
        text::sorted_texts(v).len() == v.len(),
    decreases v.len(),
{
    broadcast use vstd::seq_lib::group_to_multiset_ensures;

    if v.len() > 0 {
        let d = v.drop_last();
        law_sorting_keeps_every_text(d);
        lemma_put_keeps(text::sorted_texts(d), v.last());
        assert(v =~= d.push(v.last()));
        assert(v.to_multiset() =~= d.to_multiset().insert(v.last()));
    } else {
        assert(v =~= Seq::<Seq<char>>::empty());
    }
}

proof fn lemma_leading(s: Seq<char>, n: int, k: int)
    requires
        0 <= k <= n <= s.len(),
        forall|j: int| 0 <= j < n ==> text::is_space(#[trigger] s[j]),
        n < s.len() ==> !text::is_space(s[n]),
    ensures
        text::run_end(s, true, k) == n,
    decreases n - k,
{
    if k < n {
        assert(text::is_space(s[k]));
        lemma_leading(s, n, k + 1);
    }
}

proof fn lemma_trailing(s: Seq<char>, n: int, k: int)
    requires
        0 < n <= k <= s.len(),
        forall|j: int| n <= j < s.len() ==> text::is_space(#[trigger] s[j]),
        !text::is_space(s[n - 1]),
    ensures
        text::trim_end_at(s, k) == n,
    decreases k - n,
{
    if n < k {
        assert(text::is_space(s[k - 1]));
        lemma_trailing(s, n, k - 1);
    }
}

/// Trimming takes the blanks from both ends and nothing else.
pub proof fn law_trimmed(a: Seq<char>, s: Seq<char>, b: Seq<char>)
    requires
        forall|k: int| 0 <= k < a.len() ==> text::is_space(#[trigger] a[k]),
        forall|k: int| 0 <= k < b.len() ==> text::is_space(#[trigger] b[k]),
        s.len() > 0,
        !text::is_space(s[0]),
        !text::is_space(s.last()),
    ensures
        text::trimmed(a + s + b) == s,
{
    let t = a + s + b;
    let (m, n) = (a.len() as int, a.len() + s.len() as int);
    assert forall|j: int| 0 <= j < m implies text::is_space(#[trigger] t[j]) by {
        assert(t[j] == a[j]);
    }
    assert forall|j: int| n <= j < t.len() implies text::is_space(#[trigger] t[j]) by {
        assert(t[j] == b[j - n]);
    }
    assert(t[m] == s[0] && t[n - 1] == s.last());
    lemma_leading(t, m, 0);
    lemma_trailing(t, n, t.len() as int);
    assert(t.subrange(m, n) =~= s);
}

proof fn lemma_run(s: Seq<char>, space: bool, n: int, k: int)
    requires
        0 <= k <= n <= s.len(),
        forall|j: int| k <= j < n ==> text::is_space(#[trigger] s[j]) == space,
        n < s.len() ==> text::is_space(s[n]) != space,
    ensures
        text::run_end(s, space, k) == n,
    decreases n - k,
{
    if k < n {
        assert(text::is_space(s[k]) == space);
        lemma_run(s, space, n, k + 1);
    }
}

proof fn lemma_run_shift(s: Seq<char>, t: Seq<char>, space: bool, from: int, k: int)
    requires
        0 <= from <= s.len(),
        t == text::rest_from(s, from),
        0 <= k <= t.len(),
    ensures
        text::run_end(s, space, from + k) == from + text::run_end(t, space, k),
        k <= text::run_end(t, space, k) <= t.len(),
    decreases t.len() - k,
{
    if k < t.len() {
        assert(t[k] == s[from + k]);
        if text::is_space(t[k]) == space {
            lemma_run_shift(s, t, space, from, k + 1);
        }
    }
}

proof fn lemma_words_shift(s: Seq<char>, from: int, k: int)
    requires
        0 <= from <= s.len(),
        0 <= k <= s.len() - from,
    ensures
        text::words_from(s, from + k) == text::words_from(text::rest_from(s, from), k),
    decreases s.len() - from - k,
{
    let t = text::rest_from(s, from);
    let a = text::run_end(t, true, k);
    lemma_run_shift(s, t, true, from, k);
    lemma_run_shift(s, t, false, from, a);
    let b = text::run_end(t, false, a);
    if a < b {
        assert(t.subrange(a, b) =~= s.subrange(from + a, from + b));
        lemma_words_shift(s, from, b);
    }
}

/// The words of a text are its first run without a blank and the words after
/// it, however many blanks stand around them.
pub proof fn law_words(a: Seq<char>, w: Seq<char>, b: char, rest: Seq<char>)
    requires
        forall|k: int| 0 <= k < a.len() ==> text::is_space(#[trigger] a[k]),
        w.len() > 0,
        forall|k: int| 0 <= k < w.len() ==> !text::is_space(#[trigger] w[k]),
        text::is_space(b),
    ensures
        text::words(a + w + seq![b] + rest) == seq![w] + text::words(seq![b] + rest),
        text::words(a + w) == seq![w],
        text::words(a) == Seq::<Seq<char>>::empty(),
{
    let s = a + w + seq![b] + rest;
    let (m, n) = (a.len() as int, a.len() + w.len() as int);
    assert forall|j: int| 0 <= j < m implies text::is_space(#[trigger] s[j]) by {
        assert(s[j] == a[j]);
    }
    assert forall|j: int| m <= j < n implies !text::is_space(#[trigger] s[j]) by {
        assert(s[j] == w[j - m]);
    }
    assert(s[m] == w[0] && s[n] == b);
    lemma_run(s, true, m, 0);
    lemma_run(s, false, n, m);
    assert(s.subrange(m, n) =~= w);
    lemma_words_shift(s, n, 0);
    assert(text::rest_from(s, n) =~= seq![b] + rest);
    let t = a + w;
    assert forall|j: int| 0 <= j < m implies text::is_space(#[trigger] t[j]) by {
        assert(t[j] == a[j]);
    }
    assert forall|j: int| m <= j < n implies !text::is_space(#[trigger] t[j]) by {
        assert(t[j] == w[j - m]);
    }
    assert(t[m] == w[0]);
    lemma_run(t, true, m, 0);
    lemma_run(t, false, n, m);
    assert(t.subrange(m, n) =~= w);
    lemma_run(t, true, n, n);
    lemma_run(t, false, n, n);
    assert(text::words_from(t, n) =~= Seq::<Seq<char>>::empty());
    assert(seq![w] + Seq::<Seq<char>>::empty() =~= seq![w]);
    lemma_run(a, true, m, 0);
    lemma_run(a, false, m, m);
}

} // verus!
