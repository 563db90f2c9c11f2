//! The files a user keeps: the view, and what overrides a placement.
use vstd::prelude::*;
use vstd::utf8::*;
use vstd::view::View as _;

use crate::table::Table;
use crate::text;
use crate::types::Folder;

pub mod laws;

verus! {

// ---------------------------------------------------------------------------
// Comments
// ---------------------------------------------------------------------------

/// What a character of a file stands in.
#[derive(Clone, Copy, Debug, PartialEq, Eq, Structural)]
pub enum Within {
    Code,
    Text,
    /// A comment up to the end of its line.
    Line,
    /// A comment up to its closing mark.
    Block,
}

/// As many spaces as a character has bytes.
pub open spec fn blanks(c: char) -> Seq<char> {
    Seq::new(encode_scalar(c as u32).len(), |k: int| ' ')
}

/// One character of a block comment: a line break stays, so that lines keep
/// their numbers.
pub open spec fn hidden(c: char) -> Seq<char> {
    if c == '\n' {
        seq!['\n']
    } else {
        blanks(c)
    }
}

/// The text from index `i` on with its comments blanked.
pub open spec fn stripped_from(s: Seq<char>, i: int, w: Within) -> Seq<char>
    decreases s.len() - i,
{
    if i < 0 || i >= s.len() {
        Seq::empty()
    } else {
        let c = s[i];
        let pair = i + 1 < s.len();
        match w {
            Within::Text => if c == '\\' && pair {
                seq![c, s[i + 1]] + stripped_from(s, i + 2, Within::Text)
            } else if c == '"' {
                seq![c] + stripped_from(s, i + 1, Within::Code)
            } else {
                seq![c] + stripped_from(s, i + 1, Within::Text)
            },
            Within::Line => if c == '\n' {
                seq![c] + stripped_from(s, i + 1, Within::Code)
            } else {
                blanks(c) + stripped_from(s, i + 1, Within::Line)
            },
            Within::Block => if c == '*' && pair && s[i + 1] == '/' {
                seq![' ', ' '] + stripped_from(s, i + 2, Within::Code)
            } else {
                hidden(c) + stripped_from(s, i + 1, Within::Block)
            },
            Within::Code => if c == '"' {
                seq![c] + stripped_from(s, i + 1, Within::Text)
            } else if c == '/' && pair && s[i + 1] == '/' {
                seq![' ', ' '] + stripped_from(s, i + 2, Within::Line)
            } else if c == '/' && pair && s[i + 1] == '*' {
                seq![' ', ' '] + stripped_from(s, i + 2, Within::Block)
            } else {
                seq![c] + stripped_from(s, i + 1, Within::Code)
            },
        }
    }
}

/// A text with its comments blanked. What looks like a comment inside a string
/// is none, and a comment that never closes runs to the end.
pub open spec fn stripped(s: Seq<char>) -> Seq<char> {
    stripped_from(s, 0, Within::Code)
}

fn push_blanks(out: &mut String, c: char)
    ensures
        final(out)@ == old(out)@ + blanks(c),
{
    let n: usize = if (c as u32) <= 0x7f {
        1
    } else if (c as u32) <= 0x7ff {
        2
    } else if (c as u32) <= 0xffff {
        3
    } else {
        4
    };
    let ghost start = out@;
    let mut k: usize = 0;
    assert(out@ =~= start + Seq::new(0, |j: int| ' '));
    while k < n
        invariant
            k <= n,
            out@ == start + Seq::new(k as nat, |j: int| ' '),
        decreases n - k,
    {
        out.push(' ');
        k += 1;
        assert(start + Seq::new(k as nat, |j: int| ' ') =~= (start + Seq::new(
            (k - 1) as nat,
            |j: int| ' ',
        )).push(' '));
    }
    proof {
        char_is_scalar(c);
        assert(n == encode_scalar(c as u32).len());
    }
}

fn step_text(v: &Vec<char>, i: usize, out: &mut String) -> (r: (usize, Within))
    requires
        i < v@.len(),
    ensures
        i < r.0 <= v@.len(),
        final(out)@ + stripped_from(v@, r.0 as int, r.1) == old(out)@ + stripped_from(
            v@,
            i as int,
            Within::Text,
        ),
{
    let ghost start = out@;
    let end: usize = v.len();
    let c = v[i];
    let pair: bool = i + 1 < end;
    if c == '\\' && pair {
        out.push(c);
        out.push(v[i + 1]);
        proof {
            let rest = stripped_from(v@, i + 2, Within::Text);
            assert(out@ + rest =~= start + (seq![c, v@[i + 1]] + rest));
        }
        return (i + 2, Within::Text);
    }
    let next = if c == '"' {
        Within::Code
    } else {
        Within::Text
    };
    out.push(c);
    proof {
        let rest = stripped_from(v@, i + 1, next);
        assert(out@ + rest =~= start + (seq![c] + rest));
    }
    (i + 1, next)
}

fn step_line(v: &Vec<char>, i: usize, out: &mut String) -> (r: (usize, Within))
    requires
        i < v@.len(),
    ensures
        i < r.0 <= v@.len(),
        final(out)@ + stripped_from(v@, r.0 as int, r.1) == old(out)@ + stripped_from(
            v@,
            i as int,
            Within::Line,
        ),
{
    let ghost start = out@;
    let end: usize = v.len();
    let c = v[i];
    if c == '\n' {
        out.push(c);
        proof {
            let rest = stripped_from(v@, i + 1, Within::Code);
            assert(out@ + rest =~= start + (seq![c] + rest));
        }
        (i + 1, Within::Code)
    } else {
        push_blanks(out, c);
        proof {
            let rest = stripped_from(v@, i + 1, Within::Line);
            assert(out@ + rest =~= start + (blanks(c) + rest));
        }
        (i + 1, Within::Line)
    }
}

fn step_block(v: &Vec<char>, i: usize, out: &mut String) -> (r: (usize, Within))
    requires
        i < v@.len(),
    ensures
        i < r.0 <= v@.len(),
        final(out)@ + stripped_from(v@, r.0 as int, r.1) == old(out)@ + stripped_from(
            v@,
            i as int,
            Within::Block,
        ),
{
    let ghost start = out@;
    let end: usize = v.len();
    let c = v[i];
    let pair: bool = i + 1 < end;
    if c == '*' && pair && v[i + 1] == '/' {
        out.push(' ');
        out.push(' ');
        proof {
            let rest = stripped_from(v@, i + 2, Within::Code);
            assert(out@ + rest =~= start + (seq![' ', ' '] + rest));
        }
        return (i + 2, Within::Code);
    }
    if c == '\n' {
        out.push('\n');
    } else {
        push_blanks(out, c);
    }
    proof {
        let rest = stripped_from(v@, i + 1, Within::Block);
        assert(out@ + rest =~= start + (hidden(c) + rest));
    }
    (i + 1, Within::Block)
}

fn step_code(v: &Vec<char>, i: usize, out: &mut String) -> (r: (usize, Within))
    requires
        i < v@.len(),
    ensures
        i < r.0 <= v@.len(),
        final(out)@ + stripped_from(v@, r.0 as int, r.1) == old(out)@ + stripped_from(
            v@,
            i as int,
            Within::Code,
        ),
{
    let ghost start = out@;
    let end: usize = v.len();
    let c = v[i];
    let pair: bool = i + 1 < end;
    if c == '/' && pair && (v[i + 1] == '/' || v[i + 1] == '*') {
        let next = if v[i + 1] == '/' {
            Within::Line
        } else {
            Within::Block
        };
        out.push(' ');
        out.push(' ');
        proof {
            let rest = stripped_from(v@, i + 2, next);
            assert(out@ + rest =~= start + (seq![' ', ' '] + rest));
        }
        return (i + 2, next);
    }
    let next = if c == '"' {
        Within::Text
    } else {
        Within::Code
    };
    out.push(c);
    proof {
        let rest = stripped_from(v@, i + 1, next);
        assert(out@ + rest =~= start + (seq![c] + rest));
    }
    (i + 1, next)
}

/// A text with its comments blanked.
pub fn strip_comments(t: &str) -> (r: String)
    ensures
        r@ == stripped(t@),
{
    let v = text::chars_of(t);
    let mut out = String::new();
    let mut w = Within::Code;
    let mut i: usize = 0;
    assert(out@ + stripped(t@) =~= stripped(t@));
    while i < v.len()
        invariant
            i <= v@.len(),
            v@ == t@,
            out@ + stripped_from(t@, i as int, w) == stripped(t@),
        decreases v.len() - i,
    {
        let (next, within) = match w {
            Within::Text => step_text(&v, i, &mut out),
            Within::Line => step_line(&v, i, &mut out),
            Within::Block => step_block(&v, i, &mut out),
            Within::Code => step_code(&v, i, &mut out),
        };
        i = next;
        w = within;
    }
    assert(out@ + Seq::<char>::empty() =~= out@);
    out
}

/// The bytes of two texts, one after the other.
proof fn lemma_encode_joins(a: Seq<char>, b: Seq<char>)
    ensures
        encode_utf8(a + b) == encode_utf8(a) + encode_utf8(b),
    decreases a.len(),
{
    if a.len() == 0 {
        assert(a + b =~= b);
        assert(encode_utf8(a) + encode_utf8(b) =~= encode_utf8(b));
    } else {
        lemma_encode_joins(a.drop_first(), b);
        assert((a + b).drop_first() =~= a.drop_first() + b);
        let x = encode_scalar(a[0] as u32);
        assert(x + (encode_utf8(a.drop_first()) + encode_utf8(b)) =~= (x + encode_utf8(
            a.drop_first(),
        )) + encode_utf8(b));
    }
}

/// How many line breaks the first `n` characters hold.
pub open spec fn breaks_upto(s: Seq<char>, n: int) -> nat
    decreases n,
{
    if n <= 0 {
        0
    } else {
        breaks_upto(s, n - 1) + if s[n - 1] == '\n' {
            1nat
        } else {
            0
        }
    }
}

pub open spec fn breaks(s: Seq<char>) -> nat {
    breaks_upto(s, s.len() as int)
}

proof fn lemma_breaks_join(a: Seq<char>, b: Seq<char>, n: int)
    requires
        0 <= n <= b.len(),
    ensures
        breaks_upto(a + b, a.len() + n) == breaks(a) + breaks_upto(b, n),
    decreases n,
{
    if n > 0 {
        lemma_breaks_join(a, b, n - 1);
        assert((a + b)[a.len() + n - 1] == b[n - 1]);
    } else {
        lemma_breaks_prefix(a + b, a, a.len() as int);
    }
}

proof fn lemma_breaks_prefix(s: Seq<char>, t: Seq<char>, n: int)
    requires
        0 <= n <= s.len(),
        n <= t.len(),
        forall|k: int| 0 <= k < n ==> s[k] == t[k],
    ensures
        breaks_upto(s, n) == breaks_upto(t, n),
    decreases n,
{
    if n > 0 {
        lemma_breaks_prefix(s, t, n - 1);
    }
}

proof fn lemma_no_breaks(s: Seq<char>, n: int)
    requires
        0 <= n <= s.len(),
        forall|k: int| 0 <= k < n ==> s[k] != '\n',
    ensures
        breaks_upto(s, n) == 0,
    decreases n,
{
    if n > 0 {
        lemma_no_breaks(s, n - 1);
    }
}

/// `a` is `b` with some bytes blanked: each is kept or becomes a space, and
/// line breaks are where they were.
pub open spec fn blanked(a: Seq<u8>, b: Seq<u8>) -> bool {
    &&& a.len() == b.len()
    &&& forall|k: int|
        0 <= k < a.len() ==> ((#[trigger] a[k] == b[k] || a[k] == 32) && (a[k] == 10 <==> b[k]
            == 10))
}

/// A piece that stands for a piece of the text.
spec fn stands_for(a: Seq<char>, b: Seq<char>) -> bool {
    blanked(encode_utf8(a), encode_utf8(b)) && breaks(a) == breaks(b)
}

proof fn lemma_stands_join(a: Seq<char>, b: Seq<char>, c: Seq<char>, d: Seq<char>)
    requires
        stands_for(a, b),
        stands_for(c, d),
    ensures
        stands_for(a + c, b + d),
{
    lemma_encode_joins(a, c);
    lemma_encode_joins(b, d);
    lemma_breaks_join(a, c, c.len() as int);
    lemma_breaks_join(b, d, d.len() as int);
    assert((a + c).len() == a.len() + c.len());
    assert((b + d).len() == b.len() + d.len());
    let (x, y) = (encode_utf8(a + c), encode_utf8(b + d));
    let n = encode_utf8(a).len();
    assert forall|k: int| 0 <= k < x.len() implies (#[trigger] x[k] == y[k] || x[k] == 32) && (x[k]
        == 10 <==> y[k] == 10) by {
        if k < n {
            assert(x[k] == encode_utf8(a)[k] && y[k] == encode_utf8(b)[k]);
        } else {
            assert(x[k] == encode_utf8(c)[k - n] && y[k] == encode_utf8(d)[k - n]);
        }
    }
}

/// Only a line break has the byte of one.
proof fn lemma_break_byte(c: char)
    ensures
        forall|k: int|
            0 <= k < encode_scalar(c as u32).len() ==> (#[trigger] encode_scalar(c as u32)[k] == 10
                <==> c == '\n'),
{
    char_is_scalar(c);
    let v = c as u32;
    assert(0xC0u8 | (((v >> 6) & 0x1F) as u8) >= 0x80) by (bit_vector);
    assert(0xE0u8 | (((v >> 12) & 0x0F) as u8) >= 0x80) by (bit_vector);
    assert(0xF0u8 | (((v >> 18) & 0x07) as u8) >= 0x80) by (bit_vector);
    assert(0x80u8 | ((v & 0x3F) as u8) >= 0x80) by (bit_vector);
    assert(0x80u8 | (((v >> 6) & 0x3F) as u8) >= 0x80) by (bit_vector);
    assert(0x80u8 | (((v >> 12) & 0x3F) as u8) >= 0x80) by (bit_vector);
    if has_width_1_encoding(v) {
        assert((v & 0x7F) as u8 == v) by (bit_vector)
            requires
                v <= 0x7F,
        ;
    }
}

proof fn lemma_one_char(c: char)
    ensures
        encode_utf8(seq![c]) == encode_scalar(c as u32),
{
    assert(seq![c].drop_first() =~= Seq::<char>::empty());
    assert(encode_utf8(Seq::<char>::empty()) =~= Seq::<u8>::empty());
    assert(encode_utf8(seq![c]) =~= encode_scalar(c as u32));
}

proof fn lemma_spaces(n: nat)
    ensures
        encode_utf8(Seq::new(n, |k: int| ' ')) == Seq::new(n, |k: int| 32u8),
        breaks(Seq::new(n, |k: int| ' ')) == 0,
    decreases n,
{
    let s = Seq::new(n, |k: int| ' ');
    lemma_no_breaks(s, n as int);
    if n > 0 {
        lemma_spaces((n - 1) as nat);
        assert(s.drop_first() =~= Seq::new((n - 1) as nat, |k: int| ' '));
        lemma_one_char(' ');
        lemma_encode_joins(seq![' '], s.drop_first());
        assert(seq![' '] + s.drop_first() =~= s);
        assert(32u32 & 0x7F == 32) by (bit_vector);
        assert(encode_scalar(' ' as u32) =~= seq![32u8]);
    }
    assert(encode_utf8(s) =~= Seq::new(n, |k: int| 32u8));
}

proof fn lemma_blanks_stand(c: char)
    requires
        c != '\n',
    ensures
        stands_for(blanks(c), seq![c]),
{
    lemma_one_char(c);
    lemma_spaces(encode_scalar(c as u32).len());
    lemma_break_byte(c);
    lemma_no_breaks(seq![c], 1);
}

proof fn lemma_two_spaces(c: char, d: char)
    requires
        (c as u32) <= 0x7f && (d as u32) <= 0x7f,
        c != '\n' && d != '\n',
    ensures
        stands_for(seq![' ', ' '], seq![c, d]),
{
    lemma_one_char(c);
    lemma_one_char(d);
    lemma_encode_joins(seq![c], seq![d]);
    lemma_break_byte(c);
    lemma_break_byte(d);
    assert(seq![c] + seq![d] =~= seq![c, d]);
    lemma_spaces(2);
    assert(Seq::new(2, |k: int| ' ') =~= seq![' ', ' ']);
    lemma_no_breaks(seq![c, d], 2);
}

proof fn lemma_stripped_stands(s: Seq<char>, i: int, w: Within)
    requires
        0 <= i <= s.len(),
    ensures
        stands_for(stripped_from(s, i, w), s.skip(i)),
    decreases s.len() - i,
{
    if i == s.len() {
        assert(s.skip(i) =~= Seq::<char>::empty());
    } else {
        let c = s[i];
        let one = seq![c];
        assert(s.skip(i) =~= one + s.skip(i + 1));
        let pair = i + 1 < s.len();
        if pair {
            assert(s.skip(i) =~= seq![c, s[i + 1]] + s.skip(i + 2));
        }
        match w {
            Within::Text => {
                if c == '\\' && pair {
                    lemma_stripped_stands(s, i + 2, w);
                    lemma_stands_join(
                        seq![c, s[i + 1]],
                        seq![c, s[i + 1]],
                        stripped_from(s, i + 2, w),
                        s.skip(i + 2),
                    );
                } else {
                    let next = if c == '"' {
                        Within::Code
                    } else {
                        w
                    };
                    lemma_stripped_stands(s, i + 1, next);
                    lemma_stands_join(one, one, stripped_from(s, i + 1, next), s.skip(i + 1));
                }
            },
            Within::Line => {
                if c == '\n' {
                    lemma_stripped_stands(s, i + 1, Within::Code);
                    lemma_stands_join(
                        one,
                        one,
                        stripped_from(s, i + 1, Within::Code),
                        s.skip(i + 1),
                    );
                } else {
                    lemma_blanks_stand(c);
                    lemma_stripped_stands(s, i + 1, w);
                    lemma_stands_join(blanks(c), one, stripped_from(s, i + 1, w), s.skip(i + 1));
                }
            },
            Within::Block => {
                if c == '*' && pair && s[i + 1] == '/' {
                    lemma_two_spaces(c, s[i + 1]);
                    lemma_stripped_stands(s, i + 2, Within::Code);
                    lemma_stands_join(
                        seq![' ', ' '],
                        seq![c, s[i + 1]],
                        stripped_from(s, i + 2, Within::Code),
                        s.skip(i + 2),
                    );
                } else {
                    if c != '\n' {
                        lemma_blanks_stand(c);
                    }
                    lemma_stripped_stands(s, i + 1, w);
                    lemma_stands_join(hidden(c), one, stripped_from(s, i + 1, w), s.skip(i + 1));
                }
            },
            Within::Code => {
                if c == '/' && pair && (s[i + 1] == '/' || s[i + 1] == '*') {
                    let next = if s[i + 1] == '/' {
                        Within::Line
                    } else {
                        Within::Block
                    };
                    lemma_two_spaces(c, s[i + 1]);
                    lemma_stripped_stands(s, i + 2, next);
                    lemma_stands_join(
                        seq![' ', ' '],
                        seq![c, s[i + 1]],
                        stripped_from(s, i + 2, next),
                        s.skip(i + 2),
                    );
                } else {
                    let next = if c == '"' {
                        Within::Text
                    } else {
                        w
                    };
                    lemma_stripped_stands(s, i + 1, next);
                    lemma_stands_join(one, one, stripped_from(s, i + 1, next), s.skip(i + 1));
                }
            },
        }
    }
}

/// Blanking comments moves nothing: the text keeps its length in bytes and its
/// line breaks, and every other byte is kept or becomes a space. So what a
/// parser says of a place is true of the file.
pub proof fn law_blanking_moves_nothing(s: Seq<char>)
    ensures
        encode_utf8(stripped(s)).len() == encode_utf8(s).len(),
        blanked(encode_utf8(stripped(s)), encode_utf8(s)),
        breaks(stripped(s)) == breaks(s),
{
    lemma_stripped_stands(s, 0, Within::Code);
    assert(s.skip(0) =~= s);
}

/// Where spaces and line breaks stand in code, they stay.
proof fn lemma_space_stays(pre: Seq<char>, b: Seq<char>, rest: Seq<char>, n: int)
    requires
        0 <= n <= b.len(),
        forall|k: int| 0 <= k < b.len() ==> b[k] == ' ' || b[k] == '\n',
    ensures
        stripped_from(pre + b + rest, (pre.len() + b.len() - n) as int, Within::Code) == b.skip(
            b.len() - n,
        ) + stripped_from(pre + b + rest, (pre.len() + b.len()) as int, Within::Code),
    decreases n,
{
    let all = pre + b + rest;
    let at = (pre.len() + b.len() - n) as int;
    let tail = stripped_from(all, (pre.len() + b.len()) as int, Within::Code);
    if n == 0 {
        assert(b.skip(b.len() as int) + tail =~= tail);
    } else {
        lemma_space_stays(pre, b, rest, n - 1);
        let c = b[b.len() - n];
        assert(all[at] == c);
        assert(seq![c] + (b.skip(b.len() - n + 1) + tail) =~= b.skip(b.len() - n) + tail);
    }
}

/// What a blanked text is read in: where a comment stood, code.
spec fn again(w: Within) -> Within {
    match w {
        Within::Text => Within::Text,
        _ => Within::Code,
    }
}

proof fn lemma_again(s: Seq<char>, i: int, w: Within, pre: Seq<char>)
    requires
        0 <= i <= s.len(),
    ensures
        stripped_from(pre + stripped_from(s, i, w), pre.len() as int, again(w)) == stripped_from(
            s,
            i,
            w,
        ),
    decreases s.len() - i,
{
    let out = stripped_from(s, i, w);
    let all = pre + out;
    if i < s.len() {
        let c = s[i];
        let pair = i + 1 < s.len();
        let comment = w == Within::Code && c == '/' && pair && (s[i + 1] == '/' || s[i + 1] == '*');
        let close = w == Within::Block && c == '*' && pair && s[i + 1] == '/';
        if w == Within::Text && c == '\\' && pair {
            let rest = stripped_from(s, i + 2, w);
            lemma_again(s, i + 2, w, pre + seq![c, s[i + 1]]);
            assert(pre + seq![c, s[i + 1]] + rest =~= all);
            assert(all[pre.len() as int] == c && all[pre.len() + 1int] == s[i + 1]);
        } else if comment || close {
            let next = if close {
                Within::Code
            } else if s[i + 1] == '/' {
                Within::Line
            } else {
                Within::Block
            };
            let two = seq![' ', ' '];
            let rest = stripped_from(s, i + 2, next);
            lemma_again(s, i + 2, next, pre + two);
            assert(pre + two + rest =~= all);
            lemma_space_stays(pre, two, rest, 2);
            assert(two.skip(0) =~= two);
        } else if w == Within::Block || (w == Within::Line && c != '\n') {
            let b = if w == Within::Block {
                hidden(c)
            } else {
                blanks(c)
            };
            let rest = stripped_from(s, i + 1, w);
            lemma_again(s, i + 1, w, pre + b);
            assert(pre + b + rest =~= all);
            lemma_space_stays(pre, b, rest, b.len() as int);
            assert(b.skip(0) =~= b);
        } else {
            let next = if w == Within::Line {
                Within::Code
            } else if c != '"' {
                w
            } else if w == Within::Text {
                Within::Code
            } else {
                Within::Text
            };
            let rest = stripped_from(s, i + 1, next);
            lemma_again(s, i + 1, next, pre + seq![c]);
            assert(pre + seq![c] + rest =~= all);
            assert(all[pre.len() as int] == c);
            if pair {
                let d = s[i + 1];
                if c == '/' && w == Within::Code {
                    assert(rest[0] == d);
                    assert(all[pre.len() + 1int] == d);
                }
            } else {
                assert(rest =~= Seq::empty());
            }
        }
    }
}

/// Blanking comments a second time changes nothing.
pub proof fn law_blanking_twice_changes_nothing(s: Seq<char>)
    ensures
        stripped(stripped(s)) == stripped(s),
{
    lemma_again(s, 0, Within::Code, Seq::empty());
    assert(Seq::<char>::empty() + stripped(s) =~= stripped(s));
}

proof fn lemma_plain_stays(s: Seq<char>, i: int, w: Within)
    requires
        0 <= i <= s.len(),
        !s.contains('/'),
        w == Within::Code || w == Within::Text,
    ensures
        stripped_from(s, i, w) == s.skip(i),
    decreases s.len() - i,
{
    if i == s.len() {
        assert(s.skip(i) =~= Seq::<char>::empty());
    } else {
        let c = s[i];
        assert(c != '/');
        assert(s.skip(i) =~= seq![c] + s.skip(i + 1));
        if w == Within::Text && c == '\\' && i + 1 < s.len() {
            lemma_plain_stays(s, i + 2, w);
            assert(s.skip(i) =~= seq![c, s[i + 1]] + s.skip(i + 2));
        } else if c == '"' {
            lemma_plain_stays(
                s,
                i + 1,
                if w == Within::Text {
                    Within::Code
                } else {
                    Within::Text
                },
            );
        } else {
            lemma_plain_stays(s, i + 1, w);
        }
    }
}

/// A text without a slash has no comment, and stays as it is.
pub proof fn law_a_text_without_comments_stays(s: Seq<char>)
    requires
        !s.contains('/'),
    ensures
        stripped(s) == s,
{
    lemma_plain_stays(s, 0, Within::Code);
    assert(s.skip(0) =~= s);
}

// ---------------------------------------------------------------------------
// The view
// ---------------------------------------------------------------------------

/// What a user wants to see: how the table is sorted and cut.
#[derive(Debug)]
pub struct View {
    pub sort: String,
    pub desc: bool,
    pub filter: String,
    /// Labels of columns left out. A list of what to hide, so that a column
    /// added later shows.
    pub hide_columns: Vec<String>,
    /// Labels left to right; the rest keep their place after these.
    pub column_order: Vec<String>,
    /// The users to show. Never saved: it would hide most of the machine on
    /// every later run.
    pub users: Vec<u32>,
    /// How many rows of a list to keep. Never saved, for the same reason.
    pub top: Option<usize>,
}

impl Default for View {
    fn default() -> (r: Self)
        ensures
            r.sort@ == "pss"@,
            r.desc,
            r.filter@.len() == 0,
            r.hide_columns@.len() == 0,
            r.column_order@.len() == 0,
            r.users@.len() == 0,
            r.top is None,
    {
        View {
            sort: "pss".to_owned(),
            desc: true,
            filter: String::new(),
            hide_columns: Vec::new(),
            column_order: Vec::new(),
            users: Vec::new(),
            top: None,
        }
    }
}

/// What the command line says about the view.
#[derive(Debug)]
pub struct Flags {
    pub sort: Option<String>,
    pub filter: Option<String>,
    pub top: Option<usize>,
    pub asc: bool,
    pub desc: bool,
    pub hide: Vec<String>,
    pub order: Vec<String>,
    pub users: Vec<u32>,
}

/// The first `n` of some labels put behind others, where they are not yet.
pub open spec fn added(v: Seq<Seq<char>>, more: Seq<Seq<char>>, n: int) -> Seq<Seq<char>>
    decreases n,
{
    if n <= 0 {
        v
    } else {
        let before = added(v, more, n - 1);
        if before.contains(more[n - 1]) {
            before
        } else {
            before.push(more[n - 1])
        }
    }
}

impl View {
    /// The view with what the command line says. What it hides is hidden on
    /// top of what the view hides; who is shown and how many rows are only
    /// ever the command line's.
    pub fn with_flags(self, f: Flags) -> (r: View)
        ensures
            r.sort@ == match f.sort {
                Some(s) => s@,
                None => self.sort@,
            },
            r.filter@ == match f.filter {
                Some(s) => s@,
                None => self.filter@,
            },
            r.desc == if f.asc {
                false
            } else if f.desc {
                true
            } else {
                self.desc
            },
            text::texts(r.hide_columns@) == added(
                text::texts(self.hide_columns@),
                text::texts(f.hide@),
                f.hide@.len() as int,
            ),
            r.column_order@ == if f.order@.len() > 0 {
                f.order@
            } else {
                self.column_order@
            },
            r.users@ == f.users@,
            r.top == f.top,
    {
        let mut view = self;
        if let Some(s) = f.sort {
            view.sort = s;
        }
        if let Some(s) = f.filter {
            view.filter = s;
        }
        if f.asc {
            view.desc = false;
        } else if f.desc {
            view.desc = true;
        }
        let ghost start = text::texts(self.hide_columns@);
        let ghost more = text::texts(f.hide@);
        let mut i: usize = 0;
        let mut hidden: Vec<String> = view.hide_columns;
        while i < f.hide.len()
            invariant
                i <= f.hide@.len(),
                more == text::texts(f.hide@),
                text::texts(hidden@) == added(start, more, i as int),
            decreases f.hide.len() - i,
        {
            assert(more[i as int] == f.hide@[i as int]@);
            if !text::among(&hidden, f.hide[i].as_str()) {
                let s = f.hide[i].clone();
                let ghost before = hidden@;
                hidden.push(s);
                assert(text::texts(hidden@) =~= text::texts(before).push(s@));
            }
            i += 1;
        }
        view.hide_columns = hidden;
        if f.order.len() > 0 {
            view.column_order = f.order;
        }
        view.users = f.users;
        view.top = f.top;
        view
    }
}

/// The first label, among the first `n`, that has been listed before.
pub open spec fn repeat_upto(v: Seq<Seq<char>>, n: int) -> Option<int>
    decreases n,
{
    if n <= 0 {
        None
    } else {
        match repeat_upto(v, n - 1) {
            Some(k) => Some(k),
            None => if v.take(n - 1).contains(v[n - 1]) {
                Some(n - 1)
            } else {
                None
            },
        }
    }
}

fn listed_before(v: &Vec<String>, i: usize) -> (r: bool)
    requires
        i < v@.len(),
    ensures
        r == text::texts(v@).take(i as int).contains(text::texts(v@)[i as int]),
{
    let ghost t = text::texts(v@);
    let mut k: usize = 0;
    while k < i
        invariant
            k <= i < v@.len(),
            t == text::texts(v@),
            forall|j: int| 0 <= j < k ==> #[trigger] t.take(i as int)[j] != t[i as int],
        decreases i - k,
    {
        assert(t[k as int] == v@[k as int]@);
        assert(t[i as int] == v@[i as int]@);
        if text::same_str(v[k].as_str(), v[i].as_str()) {
            assert(t.take(i as int)[k as int] == t[i as int]);
            return true;
        }
        assert(t.take(i as int)[k as int] == t[k as int]);
        k += 1;
    }
    false
}

/// The first label that is listed more than once.
pub fn first_repeat(v: &Vec<String>) -> (r: Option<usize>)
    ensures
        match r {
            Some(k) => k < v@.len() && repeat_upto(text::texts(v@), v@.len() as int) == Some(
                k as int,
            ),
            None => repeat_upto(text::texts(v@), v@.len() as int) is None,
        },
{
    let ghost t = text::texts(v@);
    let mut i: usize = 0;
    while i < v.len()
        invariant
            i <= v@.len(),
            t == text::texts(v@),
            repeat_upto(t, i as int) is None,
        decreases v.len() - i,
    {
        if listed_before(v, i) {
            proof {
                lemma_repeat_stays(t, i + 1, v@.len() as int);
            }
            return Some(i);
        }
        i += 1;
    }
    None
}

proof fn lemma_repeat_stays(v: Seq<Seq<char>>, n: int, m: int)
    requires
        0 <= n <= m <= v.len(),
        repeat_upto(v, n) is Some,
    ensures
        repeat_upto(v, m) == repeat_upto(v, n),
    decreases m,
{
    if n < m {
        lemma_repeat_stays(v, n, m - 1);
    }
}

/// What stands above a saved view.
pub open spec fn header_text(labels: Seq<Seq<char>>) -> Seq<char> {
    "// heft view -- sort, direction, filter, hidden columns, column order.\n"@
        + "// Written by `s` in the TUI, and rewritten whole by the next `s`.\n"@
        + "// `//` and `/* */` comments are allowed here and in grouping.json.\n"@ + "//\n"@
        + "// sort:          one of the labels below\n"@ + "// desc:          true for high to low\n"@
        + "// filter:        a regex, case-insensitive unless it says (?-i)\n"@
        + "// hide_columns:  labels to leave out; `name` cannot be hidden\n"@
        + "// column_order:  labels left to right; the rest keep their place\n"@ + "//\n"@
        + "// labels: "@ + text::joined_with(labels, " "@) + "\n"@
}

/// What stands above a saved view, so that the file explains itself.
pub fn view_header(labels: &Vec<String>) -> (r: String)
    ensures
        r@ == header_text(text::texts(labels@)),
{
    let mut s =
        "// heft view -- sort, direction, filter, hidden columns, column order.\n".to_owned();
    s.append("// Written by `s` in the TUI, and rewritten whole by the next `s`.\n");
    s.append("// `//` and `/* */` comments are allowed here and in grouping.json.\n");
    s.append("//\n");
    s.append("// sort:          one of the labels below\n");
    s.append("// desc:          true for high to low\n");
    s.append("// filter:        a regex, case-insensitive unless it says (?-i)\n");
    s.append("// hide_columns:  labels to leave out; `name` cannot be hidden\n");
    s.append("// column_order:  labels left to right; the rest keep their place\n");
    s.append("//\n");
    s.append("// labels: ");
    s.append(text::join(labels, " ").as_str());
    s.append("\n");
    s
}

// ---------------------------------------------------------------------------
// Where the files are
// ---------------------------------------------------------------------------

/// A name under a directory.
pub open spec fn under(dir: Seq<char>, name: Seq<char>) -> Seq<char> {
    if dir.len() == 0 {
        name
    } else if dir.last() == '/' {
        dir + name
    } else {
        dir + "/"@ + name
    }
}

fn join_path(dir: &str, name: &str) -> (r: String)
    ensures
        r@ == under(dir@, name@),
{
    if dir.is_empty() {
        return name.to_owned();
    }
    let last = dir.get_char(dir.unicode_len() - 1);
    let mut s = dir.to_owned();
    if last != '/' {
        s.append("/");
    }
    s.append(name);
    s
}

/// The directory of the files: under the configured directory, else under the
/// home directory.
pub open spec fn dir_of(xdg: Option<Seq<char>>, home: Option<Seq<char>>) -> Seq<char> {
    let base = if xdg is Some && xdg->0.len() > 0 {
        xdg->0
    } else {
        under(
            match home {
                Some(h) => h,
                None => "/"@,
            },
            ".config"@,
        )
    };
    under(base, "heft"@)
}

pub fn config_dir(xdg: Option<&str>, home: Option<&str>) -> (r: String)
    ensures
        r@ == dir_of(text::opt_str(xdg), text::opt_str(home)),
{
    if let Some(x) = xdg {
        if !x.is_empty() {
            return join_path(x, "heft");
        }
    }
    let base = match home {
        Some(h) => join_path(h, ".config"),
        None => join_path("/", ".config"),
    };
    join_path(base.as_str(), "heft")
}

pub fn view_path(dir: &str) -> (r: String)
    ensures
        r@ == under(dir@, "view.json"@),
{
    join_path(dir, "view.json")
}

pub fn overrides_path(dir: &str) -> (r: String)
    ensures
        r@ == under(dir@, "grouping.json"@),
{
    join_path(dir, "grouping.json")
}

// ---------------------------------------------------------------------------
// Overrides
// ---------------------------------------------------------------------------

/// What a user decides about rows, by the names the tree shows.
#[derive(Debug)]
pub struct Overrides {
    /// Rows that are applications.
    pub applications: Vec<String>,
    /// Rows that are user services.
    pub user_services: Vec<String>,
    /// The row that another is billed to instead.
    pub fold: Table<String>,
    /// The user that a container belongs to.
    pub container_owners: Table<u32>,
}

impl Default for Overrides {
    fn default() -> (r: Self)
        ensures
            r.applications@.len() == 0,
            r.user_services@.len() == 0,
            r.fold@ == Map::<Seq<char>, String>::empty(),
            r.container_owners@ == Map::<Seq<char>, u32>::empty(),
    {
        Overrides {
            applications: Vec::new(),
            user_services: Vec::new(),
            fold: Table::new(),
            container_owners: Table::new(),
        }
    }
}

impl Overrides {
    /// The folder a row is pinned to: an application where both lists name it.
    pub open spec fn pinned(self, ident: Seq<char>) -> Option<Folder> {
        if text::texts(self.applications@).contains(ident) {
            Some(Folder::Applications)
        } else if text::texts(self.user_services@).contains(ident) {
            Some(Folder::UserServices)
        } else {
            None
        }
    }

    pub fn folder_for(&self, ident: &str) -> (r: Option<Folder>)
        ensures
            r == self.pinned(ident@),
    {
        if text::among(&self.applications, ident) {
            Some(Folder::Applications)
        } else if text::among(&self.user_services, ident) {
            Some(Folder::UserServices)
        } else {
            None
        }
    }

    /// The row that another is billed to instead.
    pub fn fold_key(&self, ident: &str) -> (r: Option<&str>)
        ensures
            match r {
                Some(k) => self.fold@.dom().contains(ident@) && self.fold@[ident@]@ == k@,
                None => !self.fold@.dom().contains(ident@),
            },
    {
        match self.fold.get(ident) {
            Some(k) => Some(k.as_str()),
            None => None,
        }
    }

    /// No override can move a row.
    pub fn no_placement_overrides(&self) -> (r: bool)
        ensures
            r == (self.applications@.len() == 0 && self.user_services@.len() == 0
                && self.fold.entries@.len() == 0),
    {
        self.applications.len() == 0 && self.user_services.len() == 0 && self.fold.entries.len()
            == 0
    }

    /// The user that a container belongs to.
    pub fn container_owner(&self, name: &str) -> (r: Option<u32>)
        ensures
            r == if self.container_owners@.dom().contains(name@) {
                Some(self.container_owners@[name@])
            } else {
                None
            },
    {
        match self.container_owners.get(name) {
            Some(uid) => Some(*uid),
            None => None,
        }
    }

    /// Where no override can move a row, none is pinned or billed elsewhere.
    pub proof fn law_without_overrides_nothing_moves(self, ident: Seq<char>)
        requires
            self.applications@.len() == 0,
            self.user_services@.len() == 0,
            self.fold.entries@.len() == 0,
        ensures
            self.pinned(ident) is None,
            !self.fold@.dom().contains(ident),
    {
        assert(text::texts(self.applications@).len() == 0);
        assert(text::texts(self.user_services@).len() == 0);
    }
}

} // verus!
