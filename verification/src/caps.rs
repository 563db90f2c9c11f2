//! What a terminal answers when asked what it can draw.
use vstd::prelude::*;

use crate::text;

pub mod laws;

verus! {

/// What the terminal said it can do.
#[derive(Clone, Copy, Debug, PartialEq, Eq, Structural)]
pub struct Caps {
    pub kitty: bool,
    pub sixel: bool,
}

impl Default for Caps {
    fn default() -> (r: Self)
        ensures
            r == (Caps { kitty: false, sixel: false }),
    {
        Caps { kitty: false, sixel: false }
    }
}

/// A graphics reply that says yes: what follows its first semicolon starts
/// with OK, where a refusal names an error.
pub open spec fn says_ok(reply: Seq<char>) -> bool {
    match text::cut_first(reply, ';') {
        Some((_, v)) => text::has_prefix(v, "OK"@),
        None => false,
    }
}

/// A reply that lists the device's attributes, sixel among them: a whole field
/// that is a four.
pub open spec fn lists_sixel(reply: Seq<char>) -> bool {
    match text::cut_first(reply, 'c') {
        Some((attrs, _)) => text::pieces(attrs, ';').contains("4"@),
        None => false,
    }
}

/// What a terminal can do, by everything it answered.
pub open spec fn caps_of(s: Seq<char>) -> Caps {
    let g = text::parts_from(s, "\u{1b}_G"@, 0);
    let a = text::parts_from(s, "\u{1b}[?"@, 0);
    Caps {
        kitty: exists|k: int| 1 <= k < g.len() && says_ok(#[trigger] g[k]),
        sixel: exists|k: int| 1 <= k < a.len() && lists_sixel(#[trigger] a[k]),
    }
}

fn ok_reply(r: &[char]) -> (b: bool)
    ensures
        b == says_ok(r@),
{
    let at: usize = text::index_of(r, ';', 0);
    if at >= r.len() {
        return false;
    }
    let v = text::cut(r, at + 1, r.len());
    text::prefixed(v.as_slice(), text::chars_of("OK").as_slice())
}

fn sixel_reply(r: &[char]) -> (b: bool)
    ensures
        b == lists_sixel(r@),
{
    let at: usize = text::index_of(r, 'c', 0);
    if at >= r.len() {
        return false;
    }
    let attrs = text::split_on(text::cut(r, 0, at).as_slice(), ';');
    let ghost av = text::pieces(r@.subrange(0, at as int), ';');
    let four = text::chars_of("4");
    let mut k: usize = 0;
    while k < attrs.len()
        invariant
            k <= attrs@.len(),
            at < r@.len(),
            at == text::index_from(r@, 'c', 0),
            av == text::pieces(r@.subrange(0, at as int), ';'),
            text::views(attrs@) == av,
            four@ == "4"@,
            forall|j: int| 0 <= j < k ==> #[trigger] av[j] != "4"@,
        decreases attrs.len() - k,
    {
        assert(text::views(attrs@)[k as int] == attrs@[k as int]@);
        if text::same(attrs[k].as_slice(), four.as_slice()) {
            assert(av[k as int] == "4"@);
            return true;
        }
        k += 1;
    }
    assert(text::views(attrs@).len() == attrs@.len());
    false
}

/// What a terminal can do, by everything it answered.
pub fn parse_reply(s: &str) -> (r: Caps)
    ensures
        r == caps_of(s@),
{
    proof {
        reveal_strlit("\u{1b}_G");
        reveal_strlit("\u{1b}[?");
    }
    let v = text::chars_of(s);
    let g = text::split_parts(v.as_slice(), text::chars_of("\u{1b}_G").as_slice());
    let a = text::split_parts(v.as_slice(), text::chars_of("\u{1b}[?").as_slice());
    let ghost gv = text::parts_from(s@, "\u{1b}_G"@, 0);
    let ghost av = text::parts_from(s@, "\u{1b}[?"@, 0);
    assert(text::views(g@).len() == g@.len() && text::views(a@).len() == a@.len());
    let mut kitty: bool = false;
    let mut k: usize = 1;
    while k < g.len()
        invariant
            1 <= k,
            gv == text::views(g@),
            gv.len() == g@.len(),
            kitty == exists|j: int| 1 <= j < k && j < gv.len() && says_ok(#[trigger] gv[j]),
        decreases g.len() - k,
    {
        assert(gv[k as int] == g@[k as int]@);
        if ok_reply(g[k].as_slice()) {
            kitty = true;
        }
        k += 1;
    }
    let mut sixel: bool = false;
    let mut k: usize = 1;
    while k < a.len()
        invariant
            1 <= k,
            av == text::views(a@),
            av.len() == a@.len(),
            sixel == exists|j: int| 1 <= j < k && j < av.len() && lists_sixel(#[trigger] av[j]),
        decreases a.len() - k,
    {
        assert(av[k as int] == a@[k as int]@);
        if sixel_reply(a[k].as_slice()) {
            sixel = true;
        }
        k += 1;
    }
    Caps { kitty, sixel }
}

/// The answer is complete: it holds a whole list of attributes, which every
/// terminal sends, and sends last.
pub open spec fn complete(s: Seq<char>) -> bool {
    let a = text::parts_from(s, "\u{1b}[?"@, 0);
    exists|k: int| 1 <= k < a.len() && (#[trigger] a[k]).contains('c')
}

pub fn done(s: &str) -> (r: bool)
    ensures
        r == complete(s@),
{
    proof {
        reveal_strlit("\u{1b}[?");
    }
    let a = text::split_parts(
        text::chars_of(s).as_slice(),
        text::chars_of("\u{1b}[?").as_slice(),
    );
    let ghost av = text::parts_from(s@, "\u{1b}[?"@, 0);
    assert(text::views(a@).len() == a@.len());
    let mut k: usize = 1;
    while k < a.len()
        invariant
            1 <= k,
            av == text::views(a@),
            av.len() == a@.len(),
            av == text::parts_from(s@, "\u{1b}[?"@, 0),
            forall|j: int| 1 <= j < k && j < av.len() ==> !(#[trigger] av[j]).contains('c'),
        decreases a.len() - k,
    {
        assert(av[k as int] == a@[k as int]@);
        let at: usize = text::index_of(a[k].as_slice(), 'c', 0);
        if at < a[k].len() {
            assert(av[k as int][at as int] == 'c');
            return true;
        }
        assert(!av[k as int].contains('c'));
        k += 1;
    }
    false
}

/// A terminal that lists sixel has answered completely.
pub proof fn law_a_sixel_answer_is_complete(s: Seq<char>)
    ensures
        caps_of(s).sixel ==> complete(s),
{
    let a = text::parts_from(s, "\u{1b}[?"@, 0);
    if caps_of(s).sixel {
        let k = choose|k: int| 1 <= k < a.len() && lists_sixel(#[trigger] a[k]);
        let i = text::index_from(a[k], 'c', 0);
        text::lemma_index_from(a[k], 'c', 0);
        assert(a[k][i] == 'c');
        assert(a[k].contains('c'));
    }
}

} // verus!
