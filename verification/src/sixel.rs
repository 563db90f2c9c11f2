//! The trend as a sixel image.
use vstd::prelude::*;

use crate::kgp::Image;
use crate::text;

pub mod laws;

verus! {

/// A component of a colour as a percentage.
pub open spec fn percent_of(v: u8) -> nat {
    ((v * 100 + 127) / 255) as nat
}

fn percent(v: u8) -> (r: u64)
    ensures
        r == percent_of(v),
{
    ((v as u64) * 100 + 127) / 255
}

/// A run shorter than this is cheaper written out.
pub const RUN_MIN: usize = 4;

/// A character `n` times: counted where that is shorter.
pub open spec fn run_text(c: char, n: nat) -> Seq<char> {
    if n >= 4 {
        seq!['!'] + text::decimal(n) + seq![c]
    } else {
        Seq::new(n, |k: int| c)
    }
}

fn push_run(out: &mut String, c: char, n: usize)
    ensures
        final(out)@ == old(out)@ + run_text(c, n as nat),
{
    let ghost start = out@;
    if n >= RUN_MIN {
        out.push('!');
        text::push_decimal(out, n as u64);
        out.push(c);
        assert(out@ =~= start + run_text(c, n as nat));
    } else {
        let mut k: usize = 0;
        assert(out@ =~= start + Seq::new(0, |j: int| c));
        while k < n
            invariant
                k <= n,
                out@ == start + Seq::new(k as nat, |j: int| c),
            decreases n - k,
        {
            out.push(c);
            k += 1;
            assert(start + Seq::new(k as nat, |j: int| c) =~= (start + Seq::new(
                (k - 1) as nat,
                |j: int| c,
            )).push(c));
        }
    }
}

/// A pixel that is drawn: within the image, and not clear.
pub open spec fn drawn(img: Image, x: int, y: int) -> bool {
    0 <= y < img.h && img.rgba@[(y * img.w + x) * 4 + 3] != 0
}

pub open spec fn bit(b: bool) -> int {
    if b {
        1
    } else {
        0
    }
}

/// One column of a band as a character: its six pixels as bits, the top one
/// the lowest.
pub open spec fn column(img: Image, top: int, x: int) -> char {
    (63 + bit(drawn(img, x, top)) + 2 * bit(drawn(img, x, top + 1)) + 4 * bit(
        drawn(img, x, top + 2),
    ) + 8 * bit(drawn(img, x, top + 3)) + 16 * bit(drawn(img, x, top + 4)) + 32 * bit(
        drawn(img, x, top + 5),
    )) as char
}

/// How many columns from `x` on are alike.
pub open spec fn run_length(img: Image, top: int, x: int, n: nat) -> nat
    decreases img.w - (x + n),
{
    if x + n < img.w && column(img, top, x + n as int) == column(img, top, x) {
        run_length(img, top, x, n + 1)
    } else {
        n
    }
}

/// The columns of a band from `x` on, in runs.
pub open spec fn band_from(img: Image, top: int, x: int) -> Seq<char>
    decreases img.w - x,
{
    let n = run_length(img, top, x, 1);
    if x < 0 || x >= img.w || n < 1 || x + n > img.w {
        Seq::empty()
    } else {
        run_text(column(img, top, x), n) + band_from(img, top, x + n as int)
    }
}

/// How many bands of six rows there are.
pub open spec fn bands_of(img: Image) -> int {
    (img.h + 5) / 6
}

/// The first `n` bands, a mark between two of them.
pub open spec fn bands_upto(img: Image, n: int) -> Seq<char>
    decreases n,
{
    if n <= 0 {
        Seq::empty()
    } else {
        bands_upto(img, n - 1) + "#0"@ + band_from(img, (n - 1) * 6, 0) + (if n < bands_of(img) {
            "-"@
        } else {
            Seq::empty()
        })
    }
}

/// The opacity of an image as a sixel in one colour, clear where the image is.
pub open spec fn sixel_of(img: Image, colour: Seq<u8>) -> Seq<char> {
    "\u{1b}P0;1;0q"@ + "\"1;1;"@ + text::decimal(img.w as nat) + ";"@ + text::decimal(img.h as nat)
        + "#0;2;"@ + text::decimal(percent_of(colour[0])) + ";"@ + text::decimal(
        percent_of(colour[1]),
    ) + ";"@ + text::decimal(percent_of(colour[2])) + bands_upto(img, bands_of(img)) + "\u{1b}\\"@
}

fn is_drawn(img: &Image, x: u32, y: u64) -> (r: bool)
    requires
        img.wf(),
        x < img.w,
    ensures
        r == drawn(*img, x as int, y as int),
{
    if y >= img.h as u64 {
        return false;
    }
    proof {
        let (w, h) = (img.w as int, img.h as int);
        assert((y as int) * w + x < w * h) by (nonlinear_arith)
            requires
                0 <= y < h,
                0 <= x < w,
        ;
        assert(0 <= (y as int) * w) by (nonlinear_arith)
            requires
                0 <= y,
                0 <= w,
        ;
        assert(img.rgba@.len() == (w * h) * 4) by (nonlinear_arith)
            requires
                img.rgba@.len() == w * h * 4,
        ;
    }
    let n: usize = img.rgba.len();
    let at: u128 = ((y as u128) * (img.w as u128) + x as u128) * 4 + 3;
    assert(at < n);
    img.rgba[at as usize] != 0
}

fn column_of(img: &Image, top: u64, x: u32) -> (r: char)
    requires
        img.wf(),
        x < img.w,
        top + 6 <= u64::MAX,
    ensures
        r == column(*img, top as int, x as int),
{
    let mut n: u8 = 63;
    if is_drawn(img, x, top) {
        n = n + 1;
    }
    if is_drawn(img, x, top + 1) {
        n = n + 2;
    }
    if is_drawn(img, x, top + 2) {
        n = n + 4;
    }
    if is_drawn(img, x, top + 3) {
        n = n + 8;
    }
    if is_drawn(img, x, top + 4) {
        n = n + 16;
    }
    if is_drawn(img, x, top + 5) {
        n = n + 32;
    }
    n as char
}

fn push_band(out: &mut String, img: &Image, top: u64)
    requires
        img.wf(),
        top + 6 <= u64::MAX,
    ensures
        final(out)@ == old(out)@ + band_from(*img, top as int, 0),
{
    let ghost start = out@;
    let ghost all = band_from(*img, top as int, 0);
    let mut x: u32 = 0;
    while x < img.w
        invariant
            x <= img.w,
            img.wf(),
            top + 6 <= u64::MAX,
            start == old(out)@,
            all == band_from(*img, top as int, 0),
            out@ + band_from(*img, top as int, x as int) == start + all,
        decreases img.w - x,
    {
        let ghost before = out@;
        let c = column_of(img, top, x);
        let mut end: u32 = x + 1;
        let mut alike: bool = true;
        while end < img.w && alike
            invariant
                x < end <= img.w,
                img.wf(),
                top + 6 <= u64::MAX,
                c == column(*img, top as int, x as int),
                run_length(*img, top as int, x as int, 1) == run_length(
                    *img,
                    top as int,
                    x as int,
                    (end - x) as nat,
                ),
                !alike ==> end < img.w && column(*img, top as int, end as int) != c,
            decreases img.w - end,
                if alike {
                    1int
                } else {
                    0
                },
        {
            if column_of(img, top, end) == c {
                end += 1;
            } else {
                alike = false;
            }
        }
        push_run(out, c, (end - x) as usize);
        proof {
            let n = (end - x) as nat;
            assert(run_length(*img, top as int, x as int, 1) == n);
            let rest = band_from(*img, top as int, end as int);
            assert(before + (run_text(c, n) + rest) =~= (before + run_text(c, n)) + rest);
        }
        x = end;
    }
    assert(out@ + Seq::<char>::empty() =~= out@);
}

/// The opacity of an image as a sixel in one colour.
pub fn encode(img: &Image, colour: [u8; 3]) -> (r: String)
    requires
        img.wf(),
    ensures
        r@ == sixel_of(*img, colour@),
{
    let mut out = "\u{1b}P0;1;0q".to_owned();
    out.append("\"1;1;");
    text::push_decimal(&mut out, img.w as u64);
    out.append(";");
    text::push_decimal(&mut out, img.h as u64);
    out.append("#0;2;");
    text::push_decimal(&mut out, percent(colour[0]));
    out.append(";");
    text::push_decimal(&mut out, percent(colour[1]));
    out.append(";");
    text::push_decimal(&mut out, percent(colour[2]));
    let ghost head = out@;
    let bands: u64 = (img.h as u64 + 5) / 6;
    let mut n: u64 = 0;
    assert(head + bands_upto(*img, 0) =~= head);
    while n < bands
        invariant
            n <= bands,
            bands == bands_of(*img),
            img.wf(),
            out@ == head + bands_upto(*img, n as int),
        decreases bands - n,
    {
        let ghost before = out@;
        out.append("#0");
        push_band(&mut out, img, n * 6);
        if n + 1 < bands {
            out.append("-");
        }
        proof {
            assert(out@ =~= head + bands_upto(*img, n + 1));
        }
        n += 1;
    }
    out.append("\u{1b}\\");
    proof {
        assert(out@ =~= sixel_of(*img, colour@));
    }
    out
}

/// A text painted at a cell, the cursor put back where it was.
pub fn at(row: u16, col: u16, body: &str) -> (r: String)
    ensures
        r@ == "\u{1b}7\u{1b}["@ + text::decimal((row + 1) as nat) + ";"@ + text::decimal(
            (col + 1) as nat,
        ) + "H"@ + body@ + "\u{1b}8"@,
{
    let mut s = "\u{1b}7\u{1b}[".to_owned();
    s.append(text::number_text(row as u64 + 1).as_str());
    s.append(";");
    s.append(text::number_text(col as u64 + 1).as_str());
    s.append("H");
    s.append(body);
    s.append("\u{1b}8");
    s
}

} // verus!
