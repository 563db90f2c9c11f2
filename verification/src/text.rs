//! Strings as sequences of characters: the comparisons, cuts and number
//! formats the rest of the library is stated with.
use vstd::prelude::*;
use vstd::utf8::*;

pub mod laws;
pub mod replace;

verus! {

/// `String::push` appends one character.
pub assume_specification[ String::push ](s: &mut String, c: char)
    ensures
        final(s)@ == old(s)@.push(c),
;

// ---------------------------------------------------------------------------
// Characters
// ---------------------------------------------------------------------------

/// `c` with an ASCII capital made small.
pub open spec fn lower(c: char) -> char {
    if 'A' <= c && c <= 'Z' {
        ((c as u8) + 32) as u8 as char
    } else {
        c
    }
}

/// An ASCII decimal digit.
pub open spec fn is_digit(c: char) -> bool {
    '0' <= c && c <= '9'
}

/// An ASCII hexadecimal digit of either case.
pub open spec fn is_hex(c: char) -> bool {
    is_digit(c) || ('a' <= c && c <= 'f') || ('A' <= c && c <= 'F')
}

/// The characters Unicode calls white space.
pub open spec fn is_space(c: char) -> bool {
    ('\u{9}' <= c && c <= '\u{d}') || c == ' ' || c == '\u{85}' || c == '\u{a0}' || c == '\u{1680}'
        || ('\u{2000}' <= c && c <= '\u{200a}') || c == '\u{2028}' || c == '\u{2029}' || c
        == '\u{202f}' || c == '\u{205f}' || c == '\u{3000}'
}

pub fn lower_char(c: char) -> (r: char)
    ensures
        r == lower(c),
{
    if 'A' <= c && c <= 'Z' {
        ((c as u8) + 32) as char
    } else {
        c
    }
}

pub fn digit_char(c: char) -> (r: bool)
    ensures
        r == is_digit(c),
{
    '0' <= c && c <= '9'
}

pub fn hex_char(c: char) -> (r: bool)
    ensures
        r == is_hex(c),
{
    digit_char(c) || ('a' <= c && c <= 'f') || ('A' <= c && c <= 'F')
}

pub fn space_char(c: char) -> (r: bool)
    ensures
        r == is_space(c),
{
    ('\u{9}' <= c && c <= '\u{d}') || c == ' ' || c == '\u{85}' || c == '\u{a0}' || c == '\u{1680}'
        || ('\u{2000}' <= c && c <= '\u{200a}') || c == '\u{2028}' || c == '\u{2029}' || c
        == '\u{202f}' || c == '\u{205f}' || c == '\u{3000}'
}

// ---------------------------------------------------------------------------
// Sequences of characters
// ---------------------------------------------------------------------------

/// `s` with every ASCII capital made small.
pub open spec fn lowered(s: Seq<char>) -> Seq<char> {
    Seq::new(s.len(), |i: int| lower(s[i]))
}

/// Equality that ignores ASCII case.
pub open spec fn same_folded(a: Seq<char>, b: Seq<char>) -> bool {
    lowered(a) == lowered(b)
}

/// `p` stands in `s` at index `i`.
pub open spec fn occurs_at(s: Seq<char>, p: Seq<char>, i: int) -> bool {
    &&& 0 <= i
    &&& i + p.len() <= s.len()
    &&& s.subrange(i, i + p.len()) == p
}

pub open spec fn has_prefix(s: Seq<char>, p: Seq<char>) -> bool {
    occurs_at(s, p, 0)
}

pub open spec fn has_suffix(s: Seq<char>, p: Seq<char>) -> bool {
    occurs_at(s, p, s.len() - p.len())
}

/// `p` stands somewhere in `s`.
pub open spec fn has_infix(s: Seq<char>, p: Seq<char>) -> bool {
    exists|i: int| #[trigger] occurs_at(s, p, i)
}

/// The index of the first `c` at or after `from`, or the length when there is none.
pub open spec fn index_from(s: Seq<char>, c: char, from: int) -> int
    decreases s.len() - from,
{
    if from < 0 || from >= s.len() {
        s.len() as int
    } else if s[from] == c {
        from
    } else {
        index_from(s, c, from + 1)
    }
}

/// The part of `s` after its last `c`; the whole of `s` when it holds none.
pub open spec fn after_last(s: Seq<char>, c: char) -> Seq<char>
    decreases s.len(),
{
    if s.len() == 0 || s.last() == c {
        Seq::empty()
    } else {
        after_last(s.drop_last(), c).push(s.last())
    }
}

/// The part of `s` before its last `c`, if it holds one.
pub open spec fn before_last(s: Seq<char>, c: char) -> Option<Seq<char>>
    decreases s.len(),
{
    if s.len() == 0 {
        None
    } else if s.last() == c {
        Some(s.drop_last())
    } else {
        before_last(s.drop_last(), c)
    }
}

/// The text on either side of the first `c`.
pub open spec fn cut_first(s: Seq<char>, c: char) -> Option<(Seq<char>, Seq<char>)> {
    let i = index_from(s, c, 0);
    if i < s.len() {
        Some((s.subrange(0, i), s.subrange(i + 1, s.len() as int)))
    } else {
        None
    }
}

/// The pieces of `s` between its `c`s: one more than there are `c`s.
pub open spec fn pieces(s: Seq<char>, c: char) -> Seq<Seq<char>>
    decreases s.len(),
{
    match cut_first(s, c) {
        None => seq![s],
        Some((head, tail)) => if tail.len() < s.len() {
            seq![head] + pieces(tail, c)
        } else {
            seq![s]
        },
    }
}

/// The characters of `s`, in order.
pub fn chars_of(s: &str) -> (r: Vec<char>)
    ensures
        r@ == s@,
{
    let mut out: Vec<char> = Vec::new();
    for c in it: s.chars()
        invariant
            out@ == s@.take(it.index() as int),
            it.seq() == s@,
    {
        out.push(c);
        assert(s@.take(it.index() as int + 1) =~= s@.take(it.index() as int).push(c));
    }
    assert(s@.take(s@.len() as int) =~= s@);
    out
}

/// The string whose characters are `v`.
pub fn string_of(v: &[char]) -> (r: String)
    ensures
        r@ == v@,
{
    let mut out = String::new();
    let mut i: usize = 0;
    while i < v.len()
        invariant
            i <= v.len(),
            out@ == v@.take(i as int),
        decreases v.len() - i,
    {
        out.push(v[i]);
        i += 1;
        assert(v@.take(i as int) =~= v@.take(i - 1).push(v@[i - 1]));
    }
    assert(v@.take(v@.len() as int) =~= v@);
    out
}

/// The characters of `s` from `from` to `to`.
pub fn cut(s: &[char], from: usize, to: usize) -> (r: Vec<char>)
    requires
        from <= to <= s@.len(),
    ensures
        r@ == s@.subrange(from as int, to as int),
{
    let mut out: Vec<char> = Vec::new();
    let mut i: usize = from;
    while i < to
        invariant
            from <= i <= to <= s@.len(),
            out@ == s@.subrange(from as int, i as int),
        decreases to - i,
    {
        out.push(s[i]);
        i += 1;
        assert(s@.subrange(from as int, i as int) =~= s@.subrange(from as int, i - 1).push(
            s@[i - 1],
        ));
    }
    out
}

/// Whether `p` stands in `s` at `i`.
pub fn occurs(s: &[char], p: &[char], i: usize) -> (r: bool)
    ensures
        r == occurs_at(s@, p@, i as int),
{
    if s.len() < p.len() || s.len() - p.len() < i {
        return false;
    }
    let mut k: usize = 0;
    while k < p.len()
        invariant
            k <= p.len(),
            i + p.len() <= s.len(),
            forall|j: int| 0 <= j < k ==> s@[i + j] == p@[j],
        decreases p.len() - k,
    {
        if s[i + k] != p[k] {
            proof {
                let sub = s@.subrange(i as int, i + p@.len());
                assert(sub[k as int] == s@[i + k]);
            }
            return false;
        }
        k += 1;
    }
    assert(s@.subrange(i as int, i + p@.len()) =~= p@);
    true
}

pub fn same(a: &[char], b: &[char]) -> (r: bool)
    ensures
        r == (a@ == b@),
{
    let r = a.len() == b.len() && occurs(a, b, 0);
    proof {
        if a@.len() == b@.len() {
            assert(a@.subrange(0, b@.len() as int) =~= a@);
        }
    }
    r
}

pub fn prefixed(s: &[char], p: &[char]) -> (r: bool)
    ensures
        r == has_prefix(s@, p@),
{
    occurs(s, p, 0)
}

pub fn suffixed(s: &[char], p: &[char]) -> (r: bool)
    ensures
        r == has_suffix(s@, p@),
{
    s.len() >= p.len() && occurs(s, p, s.len() - p.len())
}

/// The first index at or after `from` where `p` stands in `s`.
pub open spec fn find_at(s: Seq<char>, p: Seq<char>, from: int) -> Option<int>
    decreases s.len() + 1 - from,
{
    if from < 0 || from > s.len() {
        None
    } else if occurs_at(s, p, from) {
        Some(from)
    } else {
        find_at(s, p, from + 1)
    }
}

proof fn lemma_find_none(s: Seq<char>, p: Seq<char>, from: int)
    requires
        0 <= from,
        from > s.len() - p.len(),
    ensures
        find_at(s, p, from) is None,
        forall|j: int| from <= j ==> !#[trigger] occurs_at(s, p, j),
    decreases s.len() + 1 - from,
{
    if from <= s.len() {
        lemma_find_none(s, p, from + 1);
    }
}

/// The first index at or after `from` where `p` stands in `s`.
pub fn find_from(s: &[char], p: &[char], from: usize) -> (r: Option<usize>)
    ensures
        match r {
            Some(i) => find_at(s@, p@, from as int) == Some(i as int) && from <= i && occurs_at(
                s@,
                p@,
                i as int,
            ) && forall|j: int| from <= j < i ==> !#[trigger] occurs_at(s@, p@, j),
            None => find_at(s@, p@, from as int) is None && forall|j: int|
                from <= j ==> !#[trigger] occurs_at(s@, p@, j),
        },
{
    let mut i: usize = from;
    while i <= s.len() && s.len() - i >= p.len()
        invariant
            from <= i,
            find_at(s@, p@, from as int) == find_at(s@, p@, i as int),
            forall|j: int| from <= j < i ==> !#[trigger] occurs_at(s@, p@, j),
        decreases s.len() + 1 - i,
    {
        if occurs(s, p, i) {
            return Some(i);
        }
        if i == s.len() {
            proof {
                lemma_find_none(s@, p@, i + 1);
            }
            return None;
        }
        i += 1;
    }
    proof {
        lemma_find_none(s@, p@, i as int);
    }
    None
}

pub fn infixed(s: &[char], p: &[char]) -> (r: bool)
    ensures
        r == has_infix(s@, p@),
{
    find_from(s, p, 0).is_some()
}

// ---------------------------------------------------------------------------
// Strings
// ---------------------------------------------------------------------------

/// The characters of `s` with ASCII case folded away.
pub fn folded(s: &str) -> (r: Vec<char>)
    ensures
        r@ == lowered(s@),
{
    let mut v = chars_of(s);
    let mut i: usize = 0;
    while i < v.len()
        invariant
            i <= v.len(),
            v.len() == s@.len(),
            forall|j: int| 0 <= j < i ==> v@[j] == lower(s@[j]),
            forall|j: int| i <= j < v.len() ==> v@[j] == s@[j],
        decreases v.len() - i,
    {
        let c = lower_char(v[i]);
        v.set(i, c);
        i += 1;
    }
    assert(v@ =~= lowered(s@));
    v
}

/// `s` with every ASCII capital made small.
pub fn lower_string(s: &str) -> (r: String)
    ensures
        r@ == lowered(s@),
{
    string_of(folded(s).as_slice())
}

pub fn same_str(a: &str, b: &str) -> (r: bool)
    ensures
        r == (a@ == b@),
{
    same(chars_of(a).as_slice(), chars_of(b).as_slice())
}

pub fn same_str_folded(a: &str, b: &str) -> (r: bool)
    ensures
        r == same_folded(a@, b@),
{
    same(folded(a).as_slice(), folded(b).as_slice())
}

pub fn str_prefixed(s: &str, p: &str) -> (r: bool)
    ensures
        r == has_prefix(s@, p@),
{
    prefixed(chars_of(s).as_slice(), chars_of(p).as_slice())
}

pub fn str_suffixed(s: &str, p: &str) -> (r: bool)
    ensures
        r == has_suffix(s@, p@),
{
    suffixed(chars_of(s).as_slice(), chars_of(p).as_slice())
}

pub fn str_infixed(s: &str, p: &str) -> (r: bool)
    ensures
        r == has_infix(s@, p@),
{
    infixed(chars_of(s).as_slice(), chars_of(p).as_slice())
}

/// Whether `c` is among the characters of `s`.
pub fn str_has(s: &str, c: char) -> (r: bool)
    ensures
        r == s@.contains(c),
{
    let v = chars_of(s);
    let mut i: usize = 0;
    while i < v.len()
        invariant
            i <= v.len(),
            v@ == s@,
            forall|j: int| 0 <= j < i ==> s@[j] != c,
        decreases v.len() - i,
    {
        if v[i] == c {
            return true;
        }
        i += 1;
    }
    false
}

/// The index of the first `c` at or after `from`; the length when there is none.
pub fn index_of(s: &[char], c: char, from: usize) -> (r: usize)
    requires
        from <= s@.len(),
    ensures
        r == index_from(s@, c, from as int),
        from <= r <= s@.len(),
        r < s@.len() ==> s@[r as int] == c,
        forall|j: int| from <= j < r ==> s@[j] != c,
{
    let mut i: usize = from;
    while i < s.len()
        invariant
            from <= i <= s@.len(),
            index_from(s@, c, from as int) == index_from(s@, c, i as int),
            forall|j: int| from <= j < i ==> s@[j] != c,
        decreases s.len() - i,
    {
        if s[i] == c {
            return i;
        }
        i += 1;
    }
    i
}

/// What `index_from` finds: the first `c`, with none before it.
pub proof fn lemma_index_from(s: Seq<char>, c: char, from: int)
    requires
        0 <= from <= s.len(),
    ensures
        from <= index_from(s, c, from) <= s.len(),
        index_from(s, c, from) < s.len() ==> s[index_from(s, c, from)] == c,
        forall|j: int| from <= j < index_from(s, c, from) ==> s[j] != c,
    decreases s.len() - from,
{
    if from < s.len() && s[from] != c {
        lemma_index_from(s, c, from + 1);
    }
}

/// The text after the last `c` is what follows its index.
pub proof fn lemma_last_at(s: Seq<char>, c: char, i: int)
    requires
        0 <= i < s.len(),
        s[i] == c,
        forall|j: int| i < j < s.len() ==> s[j] != c,
    ensures
        after_last(s, c) == s.subrange(i + 1, s.len() as int),
        before_last(s, c) == Some(s.subrange(0, i)),
    decreases s.len(),
{
    if i == s.len() - 1 {
        assert(s.subrange(i + 1, s.len() as int) =~= Seq::<char>::empty());
        assert(s.drop_last() =~= s.subrange(0, i));
    } else {
        let d = s.drop_last();
        lemma_last_at(d, c, i);
        assert(d.subrange(i + 1, d.len() as int).push(s.last()) =~= s.subrange(
            i + 1,
            s.len() as int,
        ));
        assert(d.subrange(0, i) =~= s.subrange(0, i));
    }
}

pub proof fn lemma_last_none(s: Seq<char>, c: char)
    requires
        forall|j: int| 0 <= j < s.len() ==> s[j] != c,
    ensures
        after_last(s, c) == s,
        before_last(s, c) is None,
    decreases s.len(),
{
    if s.len() > 0 {
        lemma_last_none(s.drop_last(), c);
        assert(s.drop_last().push(s.last()) =~= s);
    }
}

/// The index of the last `c`.
pub fn last_index_of(s: &[char], c: char) -> (r: Option<usize>)
    ensures
        match r {
            Some(i) => i < s@.len() && s@[i as int] == c && (forall|j: int|
                i < j < s@.len() ==> s@[j] != c) && after_last(s@, c) == s@.subrange(
                i + 1,
                s@.len() as int,
            ) && before_last(s@, c) == Some(s@.subrange(0, i as int)),
            None => !s@.contains(c) && after_last(s@, c) == s@ && before_last(s@, c) is None,
        },
{
    let mut i: usize = s.len();
    while i > 0
        invariant
            i <= s@.len(),
            forall|j: int| i <= j < s@.len() ==> s@[j] != c,
        decreases i,
    {
        i -= 1;
        if s[i] == c {
            proof {
                lemma_last_at(s@, c, i as int);
            }
            return Some(i);
        }
    }
    proof {
        lemma_last_none(s@, c);
    }
    None
}

/// The part of `s` after its last `c`.
pub fn str_after_last(s: &str, c: char) -> (r: &str)
    ensures
        r@ == after_last(s@, c),
{
    let v = chars_of(s);
    match last_index_of(v.as_slice(), c) {
        Some(i) => s.substring_char(i + 1, v.len()),
        None => s,
    }
}

/// The part of `s` before its last `c`.
pub fn str_before_last(s: &str, c: char) -> (r: Option<&str>)
    ensures
        match r {
            Some(t) => before_last(s@, c) == Some(t@),
            None => before_last(s@, c) is None,
        },
{
    let v = chars_of(s);
    match last_index_of(v.as_slice(), c) {
        Some(i) => Some(s.substring_char(0, i)),
        None => None,
    }
}

/// The text on either side of the first `c`.
pub fn str_cut_first(s: &str, c: char) -> (r: Option<(&str, &str)>)
    ensures
        match r {
            Some((a, b)) => cut_first(s@, c) == Some((a@, b@)),
            None => cut_first(s@, c) is None,
        },
{
    let v = chars_of(s);
    let i: usize = index_of(v.as_slice(), c, 0);
    if i < v.len() {
        Some((s.substring_char(0, i), s.substring_char(i + 1, v.len())))
    } else {
        None
    }
}

/// `s` from index `n` on.
pub open spec fn rest_from(s: Seq<char>, n: int) -> Seq<char> {
    s.subrange(n, s.len() as int)
}

/// `s` without the suffix `p`, compared as it stands.
pub fn str_strip_suffix<'a>(s: &'a str, p: &str) -> (r: Option<&'a str>)
    ensures
        match r {
            Some(t) => has_suffix(s@, p@) && t@ == s@.subrange(0, s@.len() - p@.len()),
            None => !has_suffix(s@, p@),
        },
{
    let v = chars_of(s);
    let q = chars_of(p);
    if suffixed(v.as_slice(), q.as_slice()) {
        Some(s.substring_char(0, v.len() - q.len()))
    } else {
        None
    }
}

/// `s` without the prefix `p`, compared as it stands.
pub fn str_strip_prefix<'a>(s: &'a str, p: &str) -> (r: Option<&'a str>)
    ensures
        match r {
            Some(t) => has_prefix(s@, p@) && t@ == rest_from(s@, p@.len() as int),
            None => !has_prefix(s@, p@),
        },
{
    let v = chars_of(s);
    let q = chars_of(p);
    if prefixed(v.as_slice(), q.as_slice()) {
        Some(s.substring_char(q.len(), v.len()))
    } else {
        None
    }
}

/// `a` followed by `b`.
pub fn joined(a: &str, b: &str) -> (r: String)
    ensures
        r@ == a@ + b@,
{
    let mut out = a.to_owned();
    out.append(b);
    out
}

/// The characters of each vector.
pub open spec fn views(v: Seq<Vec<char>>) -> Seq<Seq<char>> {
    Seq::new(v.len(), |i: int| v[i]@)
}

/// The characters of each string.
pub open spec fn texts(v: Seq<String>) -> Seq<Seq<char>> {
    Seq::new(v.len(), |i: int| v[i]@)
}

/// The characters of an optional string.
pub open spec fn opt_text(s: Option<String>) -> Option<Seq<char>> {
    match s {
        Some(t) => Some(t@),
        None => None,
    }
}

/// The characters of an optional borrowed string.
pub open spec fn opt_str(s: Option<&str>) -> Option<Seq<char>> {
    match s {
        Some(t) => Some(t@),
        None => None,
    }
}

pub fn opt_clone(s: &Option<String>) -> (r: Option<String>)
    ensures
        opt_text(r) == opt_text(*s),
{
    match s {
        Some(t) => Some(t.clone()),
        None => None,
    }
}

pub fn opt_borrow(s: &Option<String>) -> (r: Option<&str>)
    ensures
        opt_str(r) == opt_text(*s),
{
    match s {
        Some(t) => Some(t.as_str()),
        None => None,
    }
}

/// A copy of every string.
pub fn clone_all(v: &[String]) -> (r: Vec<String>)
    ensures
        texts(r@) == texts(v@),
{
    let mut out: Vec<String> = Vec::new();
    let mut i: usize = 0;
    while i < v.len()
        invariant
            i <= v.len(),
            out.len() == i,
            forall|j: int| 0 <= j < i ==> out@[j]@ == v@[j]@,
        decreases v.len() - i,
    {
        out.push(v[i].clone());
        i += 1;
    }
    assert(texts(out@) =~= texts(v@));
    out
}

// ---------------------------------------------------------------------------
// Pieces
// ---------------------------------------------------------------------------

pub proof fn lemma_pieces_step(s: Seq<char>, c: char, i: int)
    requires
        0 <= i <= s.len(),
        i == index_from(s, c, 0),
    ensures
        i < s.len() ==> pieces(s, c) == seq![s.subrange(0, i)] + pieces(rest_from(s, i + 1), c),
        i == s.len() ==> pieces(s, c) == seq![s],
{
}

pub proof fn lemma_index_shift(s: Seq<char>, c: char, from: int, k: int)
    requires
        0 <= from <= s.len(),
        0 <= k <= s.len() - from,
    ensures
        index_from(rest_from(s, from), c, k) == index_from(s, c, from + k) - from,
    decreases s.len() - from - k,
{
    let t = rest_from(s, from);
    if k < t.len() {
        assert(t[k] == s[from + k]);
        if t[k] != c {
            lemma_index_shift(s, c, from, k + 1);
        }
    }
}

/// The pieces of `s` between its `c`s.
pub fn split_on(s: &[char], c: char) -> (r: Vec<Vec<char>>)
    ensures
        views(r@) == pieces(s@, c),
{
    let mut out: Vec<Vec<char>> = Vec::new();
    let mut from: usize = 0;
    proof {
        assert(rest_from(s@, 0) =~= s@);
        assert(views(out@) + pieces(s@, c) =~= pieces(s@, c));
    }
    loop
        invariant
            from <= s@.len(),
            views(out@) + pieces(rest_from(s@, from as int), c) == pieces(s@, c),
        decreases s@.len() - from,
    {
        let i: usize = index_of(s, c, from);
        proof {
            lemma_index_shift(s@, c, from as int, 0);
            lemma_pieces_step(rest_from(s@, from as int), c, i - from);
        }
        let ghost before = views(out@);
        let piece = cut(s, from, i);
        let ghost pv = piece@;
        out.push(piece);
        assert(views(out@) =~= before.push(pv));
        if i >= s.len() {
            assert(pv =~= rest_from(s@, from as int));
            assert(before.push(pv) =~= before + seq![pv]);
            return out;
        }
        proof {
            let t = rest_from(s@, from as int);
            assert(t.subrange(0, i - from) =~= pv);
            assert(rest_from(t, i - from + 1) =~= rest_from(s@, i + 1));
            assert(before + (seq![pv] + pieces(rest_from(s@, i + 1), c)) =~= before.push(pv)
                + pieces(rest_from(s@, i + 1), c));
        }
        from = i + 1;
    }
}

/// One line without the carriage return a line break may carry.
pub open spec fn without_cr(s: Seq<char>) -> Seq<char> {
    if s.len() > 0 && s.last() == '\r' {
        s.drop_last()
    } else {
        s
    }
}

/// The lines of `s`: the pieces between line feeds, an empty last one left
/// out, each without its carriage return (a last line that no line feed ends
/// keeps its own).
pub open spec fn lines_of(s: Seq<char>) -> Seq<Seq<char>> {
    let p = pieces(s, '\n');
    Seq::new(
        (if p.last().len() == 0 {
            p.len() - 1
        } else {
            p.len() as int
        }) as nat,
        |i: int|
            if i < p.len() - 1 {
                without_cr(p[i])
            } else {
                p[i]
            },
    )
}

pub proof fn lemma_pieces_nonempty(s: Seq<char>, c: char)
    ensures
        pieces(s, c).len() >= 1,
{
}

/// The lines of `s`.
pub fn split_lines(s: &[char]) -> (r: Vec<Vec<char>>)
    ensures
        views(r@) == lines_of(s@),
{
    let mut p = split_on(s, '\n');
    proof {
        lemma_pieces_nonempty(s@, '\n');
        assert(views(p@).len() == p@.len());
    }
    let n: usize = p.len();
    let mut out: Vec<Vec<char>> = Vec::new();
    let ghost ps = pieces(s@, '\n');
    let mut i: usize = 0;
    while i < n
        invariant
            n == p.len(),
            n == ps.len(),
            n >= 1,
            views(p@) == ps,
            out.len() == if i == n && ps.last().len() == 0 { n - 1 } else { i as int },
            i <= n,
            forall|j: int|
                0 <= j < out.len() ==> out@[j]@ == if j < n - 1 {
                    without_cr(ps[j])
                } else {
                    ps[j]
                },
        decreases n - i,
    {
        let line = &p[i];
        assert(line@ == views(p@)[i as int]);
        if i == n - 1 {
            if line.len() > 0 {
                out.push(cut(line.as_slice(), 0, line.len()));
                assert(line@.subrange(0, line@.len() as int) =~= line@);
            }
        } else {
            let l: usize = line.len();
            let end: usize = if l > 0 && line[l - 1] == '\r' {
                l - 1
            } else {
                l
            };
            out.push(cut(line.as_slice(), 0, end));
            assert(line@.subrange(0, end as int) =~= without_cr(ps[i as int]));
        }
        i += 1;
    }
    assert(views(out@) =~= lines_of(s@));
    out
}

/// The index of the first white space, or of the first other character, at or
/// after `from`.
pub open spec fn run_end(s: Seq<char>, space: bool, from: int) -> int
    decreases s.len() - from,
{
    if from < 0 || from >= s.len() || is_space(s[from]) != space {
        from
    } else {
        run_end(s, space, from + 1)
    }
}

/// The words of `s` from index `from` on: its longest runs without white space.
pub open spec fn words_from(s: Seq<char>, from: int) -> Seq<Seq<char>>
    decreases s.len() - from,
{
    let a = run_end(s, true, from);
    let b = run_end(s, false, a);
    if 0 <= from <= a < b <= s.len() {
        seq![s.subrange(a, b)] + words_from(s, b)
    } else {
        Seq::empty()
    }
}

pub open spec fn words(s: Seq<char>) -> Seq<Seq<char>> {
    words_from(s, 0)
}

pub fn run_stop(s: &[char], space: bool, from: usize) -> (r: usize)
    requires
        from <= s@.len(),
    ensures
        r == run_end(s@, space, from as int),
        from <= r <= s@.len(),
        r < s@.len() ==> is_space(s@[r as int]) != space,
        from < s@.len() && is_space(s@[from as int]) == space ==> r > from,
{
    let mut i: usize = from;
    while i < s.len() && space_char(s[i]) == space
        invariant
            from <= i <= s@.len(),
            run_end(s@, space, from as int) == run_end(s@, space, i as int),
        decreases s.len() - i,
    {
        i += 1;
    }
    i
}

/// The words of `s`.
pub fn split_words(s: &[char]) -> (r: Vec<Vec<char>>)
    ensures
        views(r@) == words(s@),
{
    let mut out: Vec<Vec<char>> = Vec::new();
    let mut from: usize = 0;
    loop
        invariant
            from <= s@.len(),
            views(out@) + words_from(s@, from as int) == words(s@),
        decreases s@.len() - from,
    {
        let a: usize = run_stop(s, true, from);
        let b: usize = run_stop(s, false, a);
        if b <= a {
            assert(views(out@) + Seq::<Seq<char>>::empty() =~= views(out@));
            return out;
        }
        let ghost before = views(out@);
        let w = cut(s, a, b);
        let ghost wv = w@;
        out.push(w);
        proof {
            assert(views(out@) =~= before.push(wv));
            assert(before + (seq![wv] + words_from(s@, b as int)) =~= before.push(wv) + words_from(
                s@,
                b as int,
            ));
        }
        from = b;
    }
}

/// The index after the last character that is not white space, among the first
/// `n`.
pub open spec fn trim_end_at(s: Seq<char>, n: int) -> int
    decreases n,
{
    if n <= 0 || !is_space(s[n - 1]) {
        n
    } else {
        trim_end_at(s, n - 1)
    }
}

/// `s` without the white space it starts and ends with.
pub open spec fn trimmed(s: Seq<char>) -> Seq<char> {
    let a = run_end(s, true, 0);
    let b = trim_end_at(s, s.len() as int);
    if a < b {
        s.subrange(a, b)
    } else {
        Seq::empty()
    }
}

/// `s` without the white space it starts and ends with.
pub fn trim(s: &[char]) -> (r: Vec<char>)
    ensures
        r@ == trimmed(s@),
{
    let a: usize = run_stop(s, true, 0);
    let mut b: usize = s.len();
    while b > 0 && space_char(s[b - 1])
        invariant
            b <= s@.len(),
            trim_end_at(s@, s@.len() as int) == trim_end_at(s@, b as int),
        decreases b,
    {
        b -= 1;
    }
    if a < b {
        cut(s, a, b)
    } else {
        Vec::new()
    }
}

/// `s` without the `c`s it ends with.
pub open spec fn without_trailing(s: Seq<char>, c: char) -> Seq<char>
    decreases s.len(),
{
    if s.len() > 0 && s.last() == c {
        without_trailing(s.drop_last(), c)
    } else {
        s
    }
}

/// `s` without the `c`s it ends with.
pub fn trim_trailing(s: &str, c: char) -> (r: String)
    ensures
        r@ == without_trailing(s@, c),
{
    let mut v = chars_of(s);
    while v.len() > 0 && v[v.len() - 1] == c
        invariant
            without_trailing(s@, c) == without_trailing(v@, c),
        decreases v.len(),
    {
        let ghost before = v@;
        v.pop();
        assert(v@ =~= before.drop_last());
    }
    string_of(v.as_slice())
}

/// `s` from index `from` on, with every `p` in it read from the left replaced.
pub open spec fn replaced_from(s: Seq<char>, p: Seq<char>, with: Seq<char>, from: int) -> Seq<char>
    decreases s.len() - from,
{
    if from < 0 || from >= s.len() || p.len() == 0 {
        Seq::empty()
    } else if occurs_at(s, p, from) {
        with + replaced_from(s, p, with, from + p.len())
    } else {
        seq![s[from]] + replaced_from(s, p, with, from + 1)
    }
}

/// `s` with every `p` in it, read from the left, replaced.
pub fn replace_all(s: &str, p: &str, with: &str) -> (r: String)
    requires
        p@.len() > 0,
    ensures
        r@ == replaced_from(s@, p@, with@, 0),
{
    let v = chars_of(s);
    let q = chars_of(p);
    let mut out = String::new();
    let mut i: usize = 0;
    assert(out@ + replaced_from(s@, p@, with@, 0) =~= replaced_from(s@, p@, with@, 0));
    while i < v.len()
        invariant
            i <= v@.len(),
            v@ == s@,
            q@ == p@,
            p@.len() > 0,
            out@ + replaced_from(s@, p@, with@, i as int) == replaced_from(s@, p@, with@, 0),
        decreases v.len() - i,
    {
        let ghost before = out@;
        if occurs(v.as_slice(), q.as_slice(), i) {
            out.append(with);
            proof {
                let rest = replaced_from(s@, p@, with@, i + p@.len());
                assert(before + (with@ + rest) =~= (before + with@) + rest);
            }
            i += q.len();
        } else {
            out.push(v[i]);
            proof {
                let rest = replaced_from(s@, p@, with@, i + 1);
                assert(before + (seq![s@[i as int]] + rest) =~= before.push(s@[i as int]) + rest);
            }
            i += 1;
        }
    }
    assert(out@ + Seq::<char>::empty() =~= out@);
    out
}

/// `s`, its tail beyond `width` characters given up for an ellipsis.
pub open spec fn shortened(s: Seq<char>, width: nat) -> Seq<char> {
    if s.len() <= width {
        s
    } else {
        s.take(
            if width > 0 {
                width - 1
            } else {
                0
            },
        ) + "\u{2026}"@
    }
}

/// The parts of `s` from index `from` on, between the `p`s in it read from the
/// left.
pub open spec fn parts_from(s: Seq<char>, p: Seq<char>, from: int) -> Seq<Seq<char>>
    decreases s.len() - from,
{
    match find_at(s, p, from) {
        Some(i) => if p.len() > 0 && 0 <= from <= i && i + p.len() <= s.len() {
            seq![s.subrange(from, i)] + parts_from(s, p, i + p.len())
        } else {
            Seq::empty()
        },
        None => seq![rest_from(s, from)],
    }
}

/// The parts of `s` between the `p`s in it.
pub fn split_parts(s: &[char], p: &[char]) -> (r: Vec<Vec<char>>)
    requires
        p@.len() > 0,
    ensures
        views(r@) == parts_from(s@, p@, 0),
{
    let mut out: Vec<Vec<char>> = Vec::new();
    let end: usize = s.len();
    let mut from: usize = 0;
    assert(views(out@) + parts_from(s@, p@, 0) =~= parts_from(s@, p@, 0));
    loop
        invariant
            end == s@.len(),
            from <= s@.len(),
            p@.len() > 0,
            views(out@) + parts_from(s@, p@, from as int) == parts_from(s@, p@, 0),
        decreases s@.len() - from,
    {
        let ghost before = views(out@);
        match find_from(s, p, from) {
            Some(i) => {
                let piece = cut(s, from, i);
                let ghost pv = piece@;
                out.push(piece);
                proof {
                    assert(views(out@) =~= before.push(pv));
                    let rest = parts_from(s@, p@, i + p@.len());
                    assert(before + (seq![pv] + rest) =~= before.push(pv) + rest);
                }
                from = i + p.len();
            },
            None => {
                let piece = cut(s, from, s.len());
                let ghost pv = piece@;
                out.push(piece);
                proof {
                    assert(views(out@) =~= before.push(pv));
                    assert(pv =~= rest_from(s@, from as int));
                    assert(before + seq![pv] =~= before.push(pv));
                }
                return out;
            },
        }
    }
}

// ---------------------------------------------------------------------------
// Numbers
// ---------------------------------------------------------------------------

/// The number a run of decimal digits spells.
pub open spec fn decimal_value(s: Seq<char>) -> nat
    decreases s.len(),
{
    if s.len() == 0 {
        0
    } else {
        decimal_value(s.drop_last()) * 10 + (s.last() as nat - '0' as nat) as nat
    }
}

/// `s` without the one plus sign it may start with.
pub open spec fn unsigned_body(s: Seq<char>) -> Seq<char> {
    if s.len() > 0 && s[0] == '+' {
        rest_from(s, 1)
    } else {
        s
    }
}

/// At least one character, each a decimal digit.
pub open spec fn all_digits(s: Seq<char>) -> bool {
    s.len() > 0 && forall|i: int| 0 <= i < s.len() ==> is_digit(#[trigger] s[i])
}

/// The number not above `max` that `s` spells, if it spells one.
pub open spec fn number_upto(s: Seq<char>, max: nat) -> Option<nat> {
    let b = unsigned_body(s);
    if all_digits(b) && decimal_value(b) <= max {
        Some(decimal_value(b))
    } else {
        None
    }
}

proof fn lemma_decimal_grows(s: Seq<char>, i: int)
    requires
        0 <= i <= s.len(),
        forall|j: int| 0 <= j < s.len() ==> is_digit(#[trigger] s[j]),
    ensures
        decimal_value(s.take(i)) <= decimal_value(s),
    decreases s.len() - i,
{
    if i < s.len() {
        lemma_decimal_grows(s, i + 1);
        assert(s.take(i + 1).drop_last() =~= s.take(i));
    } else {
        assert(s.take(i) =~= s);
    }
}

/// The number not above `max` that `s` spells.
pub fn parse_number(s: &[char], max: u64) -> (r: Option<u64>)
    ensures
        match r {
            Some(n) => number_upto(s@, max as nat) == Some(n as nat),
            None => number_upto(s@, max as nat) is None,
        },
{
    let start: usize = if s.len() > 0 && s[0] == '+' {
        1
    } else {
        0
    };
    let ghost b = unsigned_body(s@);
    assert(b =~= rest_from(s@, start as int));
    if start >= s.len() {
        return None;
    }
    let mut i: usize = start;
    let mut n: u64 = 0;
    while i < s.len()
        invariant
            start <= i <= s@.len(),
            start < s@.len(),
            b == rest_from(s@, start as int),
            b == unsigned_body(s@),
            forall|j: int| 0 <= j < i - start ==> is_digit(#[trigger] b[j]),
            n == decimal_value(b.take(i - start)),
            n <= max,
        decreases s.len() - i,
    {
        let c = s[i];
        assert(b[i - start] == c);
        if !digit_char(c) {
            return None;
        }
        let d: u64 = (c as u64) - ('0' as u64);
        assert(b.take(i - start + 1).drop_last() =~= b.take(i - start));
        assert(decimal_value(b.take(i - start + 1)) == n * 10 + d);
        if n > max / 10 || d > max - n * 10 {
            proof {
                if all_digits(b) {
                    lemma_decimal_grows(b, i - start + 1);
                }
            }
            return None;
        }
        n = n * 10 + d;
        i += 1;
    }
    assert(b.take(i - start) =~= b);
    Some(n)
}

/// One decimal digit.
pub open spec fn digit(n: int) -> char {
    ('0' as int + n) as char
}

/// `n` in decimal.
pub open spec fn decimal(n: nat) -> Seq<char>
    decreases n,
{
    if n < 10 {
        seq![digit(n as int)]
    } else {
        decimal(n / 10).push(digit((n % 10) as int))
    }
}

/// `n` in decimal, a minus sign before a negative one.
pub open spec fn signed_decimal(n: int) -> Seq<char> {
    if n < 0 {
        seq!['-'] + decimal((-n) as nat)
    } else {
        decimal(n as nat)
    }
}

pub fn push_decimal(out: &mut String, n: u64)
    ensures
        final(out)@ == old(out)@ + decimal(n as nat),
    decreases n,
{
    if n < 10 {
        out.push(((n as u8) + 48) as char);
        assert(old(out)@.push(digit(n as int)) =~= old(out)@ + seq![digit(n as int)]);
    } else {
        push_decimal(out, n / 10);
        let ghost mid = out@;
        out.push((((n % 10) as u8) + 48) as char);
        assert(mid.push(digit((n % 10) as int)) =~= old(out)@ + decimal((n / 10) as nat).push(
            digit((n % 10) as int),
        ));
    }
}

/// `n` in decimal.
pub fn number_text(n: u64) -> (r: String)
    ensures
        r@ == decimal(n as nat),
{
    let mut out = String::new();
    push_decimal(&mut out, n);
    assert(Seq::<char>::empty() + decimal(n as nat) =~= decimal(n as nat));
    out
}

/// `n` in decimal, with its sign.
pub fn signed_text(n: i32) -> (r: String)
    ensures
        r@ == signed_decimal(n as int),
{
    let mut out = String::new();
    if n < 0 {
        out.push('-');
        push_decimal(&mut out, (-(n as i64)) as u64);
        assert(Seq::<char>::empty().push('-') =~= seq!['-']);
    } else {
        push_decimal(&mut out, n as u64);
        assert(Seq::<char>::empty() + decimal(n as nat) =~= decimal(n as nat));
    }
    out
}

/// Byte order, shorter first where one begins with the other.
pub open spec fn bytes_le(a: Seq<u8>, b: Seq<u8>) -> bool
    decreases a.len(),
{
    if a.len() == 0 {
        true
    } else if b.len() == 0 {
        false
    } else {
        a[0] < b[0] || (a[0] == b[0] && bytes_le(a.drop_first(), b.drop_first()))
    }
}

/// Of two texts one is not after the other.
pub proof fn lemma_bytes_total(a: Seq<u8>, b: Seq<u8>)
    ensures
        bytes_le(a, b) || bytes_le(b, a),
    decreases a.len(),
{
    if a.len() > 0 && b.len() > 0 {
        lemma_bytes_total(a.drop_first(), b.drop_first());
    }
}

pub proof fn lemma_bytes_chain(a: Seq<u8>, b: Seq<u8>, c: Seq<u8>)
    requires
        bytes_le(a, b),
        bytes_le(b, c),
    ensures
        bytes_le(a, c),
    decreases a.len(),
{
    if a.len() > 0 && a[0] == b[0] && b[0] == c[0] {
        lemma_bytes_chain(a.drop_first(), b.drop_first(), c.drop_first());
    }
}

/// Only equal bytes are neither before nor after each other.
pub proof fn lemma_bytes_equal(a: Seq<u8>, b: Seq<u8>)
    requires
        bytes_le(a, b),
        bytes_le(b, a),
    ensures
        a == b,
    decreases a.len(),
{
    if a.len() > 0 {
        lemma_bytes_equal(a.drop_first(), b.drop_first());
        assert(a =~= seq![a[0]] + a.drop_first());
        assert(b =~= seq![b[0]] + b.drop_first());
    } else {
        assert(a =~= b);
    }
}

/// Whether `a` is not after `b` in byte order.
pub fn bytes_not_after(a: &[u8], b: &[u8]) -> (r: bool)
    ensures
        r == bytes_le(a@, b@),
{
    let mut i: usize = 0;
    assert(a@.skip(0) =~= a@ && b@.skip(0) =~= b@);
    while i < a.len()
        invariant
            i <= a.len(),
            i <= b.len(),
            bytes_le(a@, b@) == bytes_le(a@.skip(i as int), b@.skip(i as int)),
        decreases a.len() - i,
    {
        assert(a@.skip(i as int).drop_first() =~= a@.skip(i + 1));
        if i >= b.len() {
            return false;
        }
        assert(b@.skip(i as int).drop_first() =~= b@.skip(i + 1));
        if a[i] != b[i] {
            return a[i] < b[i];
        }
        i += 1;
    }
    true
}

/// Whether `s` is among the strings of `v`.
pub fn among(v: &Vec<String>, s: &str) -> (r: bool)
    ensures
        r == texts(v@).contains(s@),
{
    let mut i: usize = 0;
    while i < v.len()
        invariant
            i <= v.len(),
            forall|j: int| 0 <= j < i ==> #[trigger] texts(v@)[j] != s@,
        decreases v.len() - i,
    {
        assert(texts(v@)[i as int] == v@[i as int]@);
        if same_str(v[i].as_str(), s) {
            return true;
        }
        i += 1;
    }
    false
}

/// The texts one after the other with `sep` between them.
pub open spec fn joined_with(v: Seq<Seq<char>>, sep: Seq<char>) -> Seq<char>
    decreases v.len(),
{
    if v.len() == 0 {
        Seq::empty()
    } else if v.len() == 1 {
        v[0]
    } else {
        joined_with(v.drop_last(), sep) + sep + v.last()
    }
}

pub fn join(v: &Vec<String>, sep: &str) -> (r: String)
    ensures
        r@ == joined_with(texts(v@), sep@),
{
    let ghost all = texts(v@);
    let mut out = String::new();
    let mut i: usize = 0;
    assert(all.take(0) =~= Seq::<Seq<char>>::empty());
    while i < v.len()
        invariant
            i <= v.len(),
            all == texts(v@),
            out@ == joined_with(all.take(i as int), sep@),
        decreases v.len() - i,
    {
        let ghost next = all.take(i + 1);
        assert(next.drop_last() =~= all.take(i as int));
        assert(next.last() == v@[i as int]@);
        if i > 0 {
            out.append(sep);
            out.append(v[i].as_str());
        } else {
            out = v[i].clone();
        }
        i += 1;
    }
    assert(all.take(i as int) =~= all);
    out
}

// ---------------------------------------------------------------------------
// Lists of strings
// ---------------------------------------------------------------------------

/// `v`, in order, with `x` put behind every text not after it in byte order.
pub open spec fn put(v: Seq<Seq<char>>, x: Seq<char>) -> Seq<Seq<char>>
    decreases v.len(),
{
    if v.len() == 0 || bytes_le(encode_utf8(v.last()), encode_utf8(x)) {
        v.push(x)
    } else {
        put(v.drop_last(), x).push(v.last())
    }
}

/// The texts in byte order.
pub open spec fn sorted_texts(v: Seq<Seq<char>>) -> Seq<Seq<char>>
    decreases v.len(),
{
    if v.len() == 0 {
        Seq::empty()
    } else {
        put(sorted_texts(v.drop_last()), v.last())
    }
}

proof fn lemma_put_at(v: Seq<Seq<char>>, x: Seq<char>, k: int)
    requires
        0 <= k <= v.len(),
        k == 0 || bytes_le(encode_utf8(v[k - 1]), encode_utf8(x)),
        forall|j: int|
            k <= j < v.len() ==> !bytes_le(encode_utf8(#[trigger] v[j]), encode_utf8(x)),
    ensures
        put(v, x) == v.insert(k, x),
    decreases v.len(),
{
    if k == v.len() {
        assert(v.insert(k, x) =~= v.push(x));
    } else {
        let d = v.drop_last();
        assert(v.last() == v[v.len() - 1]);
        lemma_put_at(d, x, k);
        assert(d.insert(k, x).push(v.last()) =~= v.insert(k, x));
    }
}

pub fn put_string(v: &mut Vec<String>, x: String)
    ensures
        texts(final(v)@) == put(texts(old(v)@), x@),
{
    let ghost all = texts(v@);
    let mut k: usize = v.len();
    while k > 0
        invariant
            k <= v.len(),
            v@ == old(v)@,
            all == texts(v@),
            forall|j: int|
                k <= j < v.len() ==> !bytes_le(
                    encode_utf8(#[trigger] all[j]),
                    encode_utf8(x@),
                ),
        decreases k,
    {
        assert(all[k - 1] == v@[k - 1]@);
        if bytes_not_after(v[k - 1].as_str().as_bytes(), x.as_str().as_bytes()) {
            proof {
                lemma_put_at(all, x@, k as int);
            }
            let ghost xv = x@;
            v.insert(k, x);
            assert(texts(v@) =~= all.insert(k as int, xv));
            return ;
        }
        k -= 1;
    }
    proof {
        lemma_put_at(all, x@, 0);
    }
    let ghost xv = x@;
    v.insert(0, x);
    assert(texts(v@) =~= all.insert(0, xv));
}

pub fn sort_strings(v: Vec<String>) -> (r: Vec<String>)
    ensures
        texts(r@) == sorted_texts(texts(v@)),
{
    let ghost all = texts(v@);
    let mut out: Vec<String> = Vec::new();
    let mut i: usize = 0;
    assert(all.take(0) =~= Seq::<Seq<char>>::empty());
    assert(texts(out@) =~= Seq::<Seq<char>>::empty());
    while i < v.len()
        invariant
            i <= v.len(),
            all == texts(v@),
            texts(out@) == sorted_texts(all.take(i as int)),
        decreases v.len() - i,
    {
        assert(all.take(i + 1).drop_last() =~= all.take(i as int));
        assert(all.take(i + 1).last() == v@[i as int]@);
        put_string(&mut out, v[i].clone());
        i += 1;
    }
    assert(all.take(i as int) =~= all);
    out
}

pub fn same_strings(a: &Vec<String>, b: &Vec<String>) -> (r: bool)
    ensures
        r == (texts(a@) == texts(b@)),
{
    if a.len() != b.len() {
        assert(texts(a@).len() != texts(b@).len());
        return false;
    }
    let mut i: usize = 0;
    while i < a.len()
        invariant
            i <= a.len(),
            a.len() == b.len(),
            forall|j: int| 0 <= j < i ==> (#[trigger] a@[j])@ == b@[j]@,
        decreases a.len() - i,
    {
        if !same_str(a[i].as_str(), b[i].as_str()) {
            assert(texts(a@)[i as int] != texts(b@)[i as int]);
            return false;
        }
        i += 1;
    }
    assert(texts(a@) =~= texts(b@));
    true
}

} // verus!
