//! The trend as an image for terminals with the kitty graphics protocol.
use vstd::prelude::*;
use vstd::utf8::*;

use crate::text;

pub mod laws;
pub mod sending;

verus! {

// ---------------------------------------------------------------------------
// The image
// ---------------------------------------------------------------------------

/// Pixels of four bytes, row by row: red, green, blue, opacity.
#[derive(Debug)]
pub struct Image {
    pub w: u32,
    pub h: u32,
    pub rgba: Vec<u8>,
}

impl Image {
    pub open spec fn wf(self) -> bool {
        self.rgba@.len() == self.w * self.h * 4
    }
}

/// The largest image that is painted, in pixels.
pub const MAX_PIXELS: usize = 4_194_304;

/// The row of pixels a sample sits on, within a band: the bottom row at zero,
/// the top row at the full scale and above it, the nearest between.
pub open spec fn row_of(v: u64, full: u64, cell_h: u32) -> int {
    let last = if cell_h > 0 {
        cell_h - 1
    } else {
        0
    };
    if v == 0 || full == 0 {
        last
    } else if v >= full {
        0
    } else {
        last - (2 * v * last + full) / (2 * full as int)
    }
}

/// The row of pixels a sample sits on.
pub fn sample_y(v: u64, full: u64, cell_h: u32) -> (r: u32)
    ensures
        r == row_of(v, full, cell_h),
        cell_h > 0 ==> r < cell_h,
{
    let last: u32 = if cell_h > 0 {
        cell_h - 1
    } else {
        0
    };
    if v == 0 || full == 0 {
        return last;
    }
    if v >= full {
        return 0;
    }
    proof {
        assert(2 * (v as int) * (last as int) <= 2 * (full as int) * (last as int))
            by (nonlinear_arith)
            requires
                v <= full,
        ;
        assert(2 * (full as int) * (last as int) <= 2 * 0x1_0000_0000_0000_0000 * 0x1_0000_0000)
            by (nonlinear_arith)
            requires
                full < 0x1_0000_0000_0000_0000,
                last < 0x1_0000_0000,
        ;
        assert(0 <= 2 * (v as int) * (last as int)) by (nonlinear_arith);
    }
    let top: u128 = 2 * (v as u128) * (last as u128) + full as u128;
    let up: u128 = top / (2 * (full as u128));
    proof {
        let q = up as int;
        let f = full as int;
        let l = last as int;
        assert(q <= l) by (nonlinear_arith)
            requires
                q == (2 * (v as int) * l + f) / (2 * f),
                0 < f,
                (v as int) < f,
                2 * (v as int) * l <= 2 * f * l,
                0 <= l,
        ;
    }
    last - up as u32
}

/// The samples that a band shows: as many as there are columns.
pub open spec fn shown(row: Option<Seq<u64>>, cols: u32) -> Seq<u64> {
    match row {
        Some(v) => if v.len() <= cols {
            v
        } else {
            v.take(cols as int)
        },
        None => Seq::empty(),
    }
}

/// A pixel is on the line: it is on the row of the sample its column of cells
/// shows, or in that column's first pixel and between that row and the one of
/// the sample before.
pub open spec fn on_line(
    rows: Seq<Option<Seq<u64>>>,
    cols: u32,
    cell_w: u32,
    cell_h: u32,
    full: u64,
    x: int,
    y: int,
) -> bool {
    let v = shown(rows[y / (cell_h as int)], cols);
    let i = x / (cell_w as int);
    let at = y % (cell_h as int);
    i < v.len() && {
        let here = row_of(v[i], full, cell_h);
        ||| at == here
        ||| {
            let before = row_of(v[i - 1], full, cell_h);
            i > 0 && x % (cell_w as int) == 0 && (before <= at <= here || here <= at <= before)
        }
    }
}

/// One byte of an image with a line in it: the line's colour where it runs, and
/// clear elsewhere.
pub open spec fn byte_of(
    rows: Seq<Option<Seq<u64>>>,
    cols: u32,
    cell_w: u32,
    cell_h: u32,
    colour: Seq<u8>,
    full: u64,
    k: int,
) -> u8 {
    let w = cols * cell_w;
    let p = k / 4;
    if on_line(rows, cols, cell_w, cell_h, full, p % w, p / w) {
        if k % 4 < 3 {
            colour[k % 4]
        } else {
            0xff
        }
    } else {
        0
    }
}

/// An image can be painted: it has pixels, and not too many.
pub open spec fn paintable(n: nat, cols: u32, cell_w: u32, cell_h: u32) -> bool {
    &&& cols * cell_w <= u32::MAX
    &&& n <= u32::MAX
    &&& n * cell_h <= u32::MAX
    &&& 0 < cols * cell_w * (n * cell_h) <= 4_194_304
}

pub open spec fn samples_of(rows: Seq<Option<Vec<u64>>>) -> Seq<Option<Seq<u64>>> {
    Seq::new(
        rows.len(),
        |k: int|
            match rows[k] {
                Some(v) => Some(v@),
                None => None,
            },
    )
}

fn lit(
    rows: &Vec<Option<Vec<u64>>>,
    cols: u32,
    cell_w: u32,
    cell_h: u32,
    full: u64,
    x: u32,
    y: u32,
) -> (r: bool)
    requires
        cell_w > 0,
        cell_h > 0,
        y as int / (cell_h as int) < rows@.len(),
    ensures
        r == on_line(samples_of(rows@), cols, cell_w, cell_h, full, x as int, y as int),
{
    let band: u32 = y / cell_h;
    let i: u32 = x / cell_w;
    let at: u32 = y % cell_h;
    let ghost v = shown(samples_of(rows@)[band as int], cols);
    match &rows[band as usize] {
        Some(b) => {
            if i as usize >= b.len() || i >= cols {
                return false;
            }
            assert(v[i as int] == b@[i as int]);
            let here: u32 = sample_y(b[i as usize], full, cell_h);
            if at == here {
                return true;
            }
            if i == 0 || x % cell_w != 0 {
                return false;
            }
            assert(v[i - 1] == b@[i - 1]);
            let before: u32 = sample_y(b[i as usize - 1], full, cell_h);
            (before <= at && at <= here) || (here <= at && at <= before)
        },
        None => false,
    }
}

/// One band for each row, with a line through the row's samples on the scale
/// from nothing to `full`. A row without samples stays clear.
pub fn paint(
    rows: &Vec<Option<Vec<u64>>>,
    cols: u32,
    cell: (u32, u32),
    colour: [u8; 3],
    full: u64,
) -> (r: Option<Image>)
    ensures
        r is Some == paintable(rows@.len(), cols, cell.0, cell.1),
        r matches Some(img) ==> {
            &&& img.wf()
            &&& img.w == cols * cell.0
            &&& img.h == rows@.len() * cell.1
            &&& forall|k: int|
                0 <= k < img.rgba@.len() ==> #[trigger] img.rgba@[k] == byte_of(
                    samples_of(rows@),
                    cols,
                    cell.0,
                    cell.1,
                    colour@,
                    full,
                    k,
                )
        },
{
    let (cell_w, cell_h) = cell;
    let w: u32 = match cols.checked_mul(cell_w) {
        Some(n) => n,
        None => {
            return None;
        },
    };
    if rows.len() > u32::MAX as usize {
        return None;
    }
    let n: u32 = rows.len() as u32;
    let h: u32 = match n.checked_mul(cell_h) {
        Some(n) => n,
        None => {
            return None;
        },
    };
    proof {
        assert(0 <= (w as int) * (h as int) < 0x1_0000_0000 * 0x1_0000_0000) by (nonlinear_arith)
            requires
                0 <= w < 0x1_0000_0000,
                0 <= h < 0x1_0000_0000,
        ;
    }
    let px: u64 = (w as u64) * (h as u64);
    if px == 0 || px > MAX_PIXELS as u64 {
        return None;
    }
    proof {
        assert(w > 0 && h > 0) by (nonlinear_arith)
            requires
                0 < (w as int) * (h as int),
                0 <= w,
                0 <= h,
        ;
        assert(cell_w > 0) by (nonlinear_arith)
            requires
                cols * cell_w > 0,
                cols >= 0,
                cell_w >= 0,
        ;
        assert(cell_h > 0) by (nonlinear_arith)
            requires
                n * cell_h > 0,
                n >= 0,
                cell_h >= 0,
        ;
    }
    let ghost rs = samples_of(rows@);
    let mut rgba: Vec<u8> = Vec::new();
    let mut p: u64 = 0;
    while p < px
        invariant
            p <= px,
            px == w * h,
            px <= 4_194_304,
            w > 0,
            h > 0,
            w == cols * cell_w,
            h == rows@.len() * cell_h,
            cell_w > 0,
            cell_h > 0,
            rs == samples_of(rows@),
            rgba@.len() == 4 * p,
            forall|k: int|
                0 <= k < 4 * p ==> #[trigger] rgba@[k] == byte_of(
                    rs,
                    cols,
                    cell_w,
                    cell_h,
                    colour@,
                    full,
                    k,
                ),
        decreases px - p,
    {
        let x: u32 = (p % (w as u64)) as u32;
        proof {
            lemma_row_in_range(p as int, w as int, h as int);
            lemma_band_in_range(p as int / w as int, rows@.len() as int, cell_h as int);
        }
        let y: u32 = (p / (w as u64)) as u32;
        let ghost before = rgba@;
        if lit(rows, cols, cell_w, cell_h, full, x, y) {
            rgba.push(colour[0]);
            rgba.push(colour[1]);
            rgba.push(colour[2]);
            rgba.push(0xff);
        } else {
            rgba.push(0);
            rgba.push(0);
            rgba.push(0);
            rgba.push(0);
        }
        proof {
            assert forall|k: int| 0 <= k < 4 * (p + 1) implies #[trigger] rgba@[k] == byte_of(
                rs,
                cols,
                cell_w,
                cell_h,
                colour@,
                full,
                k,
            ) by {
                if k < 4 * p {
                    assert(rgba@[k] == before[k]);
                } else {
                    assert(k / 4 == p);
                }
            }
        }
        p += 1;
    }
    Some(Image { w, h, rgba })
}

proof fn lemma_row_in_range(p: int, w: int, h: int)
    requires
        0 <= p < w * h,
        w > 0,
    ensures
        0 <= p / w < h,
        0 <= p % w < w,
{
    assert(0 <= p / w < h && 0 <= p % w < w) by (nonlinear_arith)
        requires
            0 <= p < w * h,
            w > 0,
    ;
}

proof fn lemma_band_in_range(y: int, n: int, c: int)
    requires
        0 <= y < n * c,
        c > 0,
    ensures
        0 <= y / c < n,
{
    assert(0 <= y / c < n) by (nonlinear_arith)
        requires
            0 <= y < n * c,
            c > 0,
    ;
}

/// The size of one cell in pixels, where the terminal says how large it is.
pub fn cell_size(cols: u16, rows: u16, xpixel: u16, ypixel: u16) -> (r: Option<(u32, u32)>)
    ensures
        r == if cols == 0 || rows == 0 || xpixel == 0 || ypixel == 0 {
            None
        } else {
            Some(((xpixel / cols) as u32, (ypixel / rows) as u32))
        },
{
    if cols == 0 || rows == 0 || xpixel == 0 || ypixel == 0 {
        None
    } else {
        Some(((xpixel / cols) as u32, (ypixel / rows) as u32))
    }
}

// ---------------------------------------------------------------------------
// Placeholders
// ---------------------------------------------------------------------------

/// The id of the image, among those of every program that draws on the
/// terminal. Its top byte is zero.
pub const IMAGE_ID: u32 = 0x0068_6566;

/// The character that every cell of the image is drawn with.
pub const PLACEHOLDER: char = '\u{10eeee}';

/// The combining marks that spell row and column numbers, in order.
pub const DIACRITICS: [char; 297] = [
    '\u{0305}', '\u{030d}', '\u{030e}', '\u{0310}', '\u{0312}', '\u{033d}', '\u{033e}',
    '\u{033f}', '\u{0346}', '\u{034a}', '\u{034b}', '\u{034c}', '\u{0350}', '\u{0351}',
    '\u{0352}', '\u{0357}', '\u{035b}', '\u{0363}', '\u{0364}', '\u{0365}', '\u{0366}',
    '\u{0367}', '\u{0368}', '\u{0369}', '\u{036a}', '\u{036b}', '\u{036c}', '\u{036d}',
    '\u{036e}', '\u{036f}', '\u{0483}', '\u{0484}', '\u{0485}', '\u{0486}', '\u{0487}',
    '\u{0592}', '\u{0593}', '\u{0594}', '\u{0595}', '\u{0597}', '\u{0598}', '\u{0599}',
    '\u{059c}', '\u{059d}', '\u{059e}', '\u{059f}', '\u{05a0}', '\u{05a1}', '\u{05a8}',
    '\u{05a9}', '\u{05ab}', '\u{05ac}', '\u{05af}', '\u{05c4}', '\u{0610}', '\u{0611}',
    '\u{0612}', '\u{0613}', '\u{0614}', '\u{0615}', '\u{0616}', '\u{0617}', '\u{0657}',
    '\u{0658}', '\u{0659}', '\u{065a}', '\u{065b}', '\u{065d}', '\u{065e}', '\u{06d6}',
    '\u{06d7}', '\u{06d8}', '\u{06d9}', '\u{06da}', '\u{06db}', '\u{06dc}', '\u{06df}',
    '\u{06e0}', '\u{06e1}', '\u{06e2}', '\u{06e4}', '\u{06e7}', '\u{06e8}', '\u{06eb}',
    '\u{06ec}', '\u{0730}', '\u{0732}', '\u{0733}', '\u{0735}', '\u{0736}', '\u{073a}',
    '\u{073d}', '\u{073f}', '\u{0740}', '\u{0741}', '\u{0743}', '\u{0745}', '\u{0747}',
    '\u{0749}', '\u{074a}', '\u{07eb}', '\u{07ec}', '\u{07ed}', '\u{07ee}', '\u{07ef}',
    '\u{07f0}', '\u{07f1}', '\u{07f3}', '\u{0816}', '\u{0817}', '\u{0818}', '\u{0819}',
    '\u{081b}', '\u{081c}', '\u{081d}', '\u{081e}', '\u{081f}', '\u{0820}', '\u{0821}',
    '\u{0822}', '\u{0823}', '\u{0825}', '\u{0826}', '\u{0827}', '\u{0829}', '\u{082a}',
    '\u{082b}', '\u{082c}', '\u{082d}', '\u{0951}', '\u{0953}', '\u{0954}', '\u{0f82}',
    '\u{0f83}', '\u{0f86}', '\u{0f87}', '\u{135d}', '\u{135e}', '\u{135f}', '\u{17dd}',
    '\u{193a}', '\u{1a17}', '\u{1a75}', '\u{1a76}', '\u{1a77}', '\u{1a78}', '\u{1a79}',
    '\u{1a7a}', '\u{1a7b}', '\u{1a7c}', '\u{1b6b}', '\u{1b6d}', '\u{1b6e}', '\u{1b6f}',
    '\u{1b70}', '\u{1b71}', '\u{1b72}', '\u{1b73}', '\u{1cd0}', '\u{1cd1}', '\u{1cd2}',
    '\u{1cda}', '\u{1cdb}', '\u{1ce0}', '\u{1dc0}', '\u{1dc1}', '\u{1dc3}', '\u{1dc4}',
    '\u{1dc5}', '\u{1dc6}', '\u{1dc7}', '\u{1dc8}', '\u{1dc9}', '\u{1dcb}', '\u{1dcc}',
    '\u{1dd1}', '\u{1dd2}', '\u{1dd3}', '\u{1dd4}', '\u{1dd5}', '\u{1dd6}', '\u{1dd7}',
    '\u{1dd8}', '\u{1dd9}', '\u{1dda}', '\u{1ddb}', '\u{1ddc}', '\u{1ddd}', '\u{1dde}',
    '\u{1ddf}', '\u{1de0}', '\u{1de1}', '\u{1de2}', '\u{1de3}', '\u{1de4}', '\u{1de5}',
    '\u{1de6}', '\u{1dfe}', '\u{20d0}', '\u{20d1}', '\u{20d4}', '\u{20d5}', '\u{20d6}',
    '\u{20d7}', '\u{20db}', '\u{20dc}', '\u{20e1}', '\u{20e7}', '\u{20e9}', '\u{20f0}',
    '\u{2cef}', '\u{2cf0}', '\u{2cf1}', '\u{2de0}', '\u{2de1}', '\u{2de2}', '\u{2de3}',
    '\u{2de4}', '\u{2de5}', '\u{2de6}', '\u{2de7}', '\u{2de8}', '\u{2de9}', '\u{2dea}',
    '\u{2deb}', '\u{2dec}', '\u{2ded}', '\u{2dee}', '\u{2def}', '\u{2df0}', '\u{2df1}',
    '\u{2df2}', '\u{2df3}', '\u{2df4}', '\u{2df5}', '\u{2df6}', '\u{2df7}', '\u{2df8}',
    '\u{2df9}', '\u{2dfa}', '\u{2dfb}', '\u{2dfc}', '\u{2dfd}', '\u{2dfe}', '\u{2dff}',
    '\u{a66f}', '\u{a67c}', '\u{a67d}', '\u{a6f0}', '\u{a6f1}', '\u{a8e0}', '\u{a8e1}',
    '\u{a8e2}', '\u{a8e3}', '\u{a8e4}', '\u{a8e5}', '\u{a8e6}', '\u{a8e7}', '\u{a8e8}',
    '\u{a8e9}', '\u{a8ea}', '\u{a8eb}', '\u{a8ec}', '\u{a8ed}', '\u{a8ee}', '\u{a8ef}',
    '\u{a8f0}', '\u{a8f1}', '\u{aab0}', '\u{aab2}', '\u{aab3}', '\u{aab7}', '\u{aab8}',
    '\u{aabe}', '\u{aabf}', '\u{aac1}', '\u{fe20}', '\u{fe21}', '\u{fe22}', '\u{fe23}',
    '\u{fe24}', '\u{fe25}', '\u{fe26}', '\u{10a0f}', '\u{10a38}', '\u{1d185}', '\u{1d186}',
    '\u{1d187}', '\u{1d188}', '\u{1d189}', '\u{1d1aa}', '\u{1d1ab}', '\u{1d1ac}', '\u{1d1ad}',
    '\u{1d242}', '\u{1d243}', '\u{1d244}',
];

/// How many bands one image can number.
pub const MAX_BANDS: usize = 297;

pub open spec fn mark(i: int) -> Option<char> {
    if 0 <= i < DIACRITICS@.len() {
        Some(DIACRITICS@[i])
    } else {
        None
    }
}

/// The combining mark that spells an index.
pub fn diacritic(i: usize) -> (r: Option<char>)
    ensures
        r == mark(i as int),
{
    if i < MAX_BANDS {
        Some(DIACRITICS[i])
    } else {
        None
    }
}

/// Placeholders, `n` of them.
pub open spec fn cells(n: nat) -> Seq<char> {
    Seq::new(n, |k: int| PLACEHOLDER)
}

/// The cells of a band: the first spells its row and its column, and the rest
/// run on from it.
pub open spec fn band_cells(band: int, cols: nat) -> Option<Seq<char>> {
    match (mark(band), mark(0)) {
        (Some(row), Some(col)) => Some(
            seq![PLACEHOLDER, row, col] + cells(
                (if cols > 0 {
                    cols - 1
                } else {
                    0
                }) as nat,
            ),
        ),
        _ => None,
    }
}

/// The cells that show a band of the image.
pub fn placeholder(band: usize, cols: usize) -> (r: Option<String>)
    ensures
        text::opt_text(r) == band_cells(band as int, cols as nat),
{
    match (diacritic(band), diacritic(0)) {
        (Some(row), Some(col)) => {
            let mut s = String::new();
            s.push(PLACEHOLDER);
            s.push(row);
            s.push(col);
            let ghost head = seq![PLACEHOLDER, row, col];
            assert(s@ =~= head + cells(0));
            let mut k: usize = 1;
            while k < cols
                invariant
                    1 <= k,
                    k <= cols || k == 1,
                    s@ == head + cells((k - 1) as nat),
                decreases cols - k,
            {
                s.push(PLACEHOLDER);
                assert(head + cells(k as nat) =~= (head + cells((k - 1) as nat)).push(PLACEHOLDER));
                k += 1;
            }
            Some(s)
        },
        _ => None,
    }
}

/// Every band an image can number has cells, and no other has: a row beyond
/// them is never drawn as another.
pub proof fn law_every_numbered_band_has_cells(band: int, cols: nat)
    ensures
        band_cells(band, cols) is Some == (0 <= band < MAX_BANDS),
{
}

/// The id of the image as the colour its cells carry.
pub fn id_rgb() -> (r: (u8, u8, u8))
    ensures
        r.0 * 0x1_0000 + r.1 * 0x100 + r.2 == IMAGE_ID,
{
    (0x68, 0x65, 0x66)
}

// ---------------------------------------------------------------------------
// Base64
// ---------------------------------------------------------------------------

/// The digit of six bits.
#[verifier::opaque]
pub open spec fn digit64(n: int) -> char {
    if n < 26 {
        ('A' as int + n) as char
    } else if n < 52 {
        ('a' as int + (n - 26)) as char
    } else if n < 62 {
        ('0' as int + (n - 52)) as char
    } else if n == 62 {
        '+'
    } else {
        '/'
    }
}

/// Three bytes as four digits.
pub open spec fn group64(a: u8, b: u8, c: u8) -> Seq<char> {
    seq![
        digit64(a as int / 4),
        digit64((a as int % 4) * 16 + b as int / 16),
        digit64((b as int % 16) * 4 + c as int / 64),
        digit64(c as int % 64),
    ]
}

/// Bytes in base64: three by three, a last group of one or two filled up with
/// equals signs.
pub open spec fn base64(data: Seq<u8>) -> Seq<char>
    decreases data.len(),
{
    if data.len() == 0 {
        Seq::empty()
    } else if data.len() == 1 {
        group64(data[0], 0, 0).take(2) + seq!['=', '=']
    } else if data.len() == 2 {
        group64(data[0], data[1], 0).take(3) + seq!['=']
    } else {
        group64(data[0], data[1], data[2]) + base64(data.skip(3))
    }
}

fn digit_of(n: u8) -> (r: char)
    requires
        n < 64,
    ensures
        r == digit64(n as int),
{
    proof {
        reveal(digit64);
    }
    if n < 26 {
        (65 + n) as char
    } else if n < 52 {
        (97 + (n - 26)) as char
    } else if n < 62 {
        (48 + (n - 52)) as char
    } else if n == 62 {
        '+'
    } else {
        '/'
    }
}

/// Appends bytes in base64.
pub fn b64(data: &[u8], out: &mut String)
    ensures
        final(out)@ == old(out)@ + base64(data@),
{
    let mut i: usize = 0;
    assert(data@.skip(0) =~= data@);
    let ghost start = out@;
    while i < data.len()
        invariant
            i <= data@.len(),
            start == old(out)@,
            out@ + base64(data@.skip(i as int)) == start + base64(data@),
        decreases data.len() - i,
    {
        let ghost before = out@;
        let ghost rest = data@.skip(i as int);
        let left: usize = data.len() - i;
        let a: u8 = data[i];
        let b: u8 = if left > 1 {
            data[i + 1]
        } else {
            0
        };
        let c: u8 = if left > 2 {
            data[i + 2]
        } else {
            0
        };
        let ghost g = group64(a, b, c);
        out.push(digit_of(a / 4));
        out.push(digit_of((a % 4) * 16 + b / 16));
        if left > 1 {
            out.push(digit_of((b % 16) * 4 + c / 64));
        } else {
            out.push('=');
        }
        if left > 2 {
            out.push(digit_of(c % 64));
        } else {
            out.push('=');
        }
        if left > 2 {
            proof {
                assert(rest.skip(3) =~= data@.skip(i + 3));
                assert(out@ =~= before + g);
                assert(before + (g + base64(rest.skip(3))) =~= (before + g) + base64(rest.skip(3)));
            }
            i += 3;
        } else {
            proof {
                assert(out@ =~= before + base64(rest));
                assert(data@.skip(data@.len() as int) =~= Seq::<u8>::empty());
                assert(out@ + Seq::<char>::empty() =~= out@);
            }
            i = data.len();
        }
    }
    assert(data@.skip(i as int) =~= Seq::<u8>::empty());
    assert(out@ + Seq::<char>::empty() =~= out@);
}

/// The six bits of a digit.
#[verifier::opaque]
pub open spec fn value64(c: char) -> int {
    if 'A' <= c && c <= 'Z' {
        c as int - 'A' as int
    } else if 'a' <= c && c <= 'z' {
        c as int - 'a' as int + 26
    } else if '0' <= c && c <= '9' {
        c as int - '0' as int + 52
    } else if c == '+' {
        62
    } else {
        63
    }
}

/// The bytes that base64 spells.
pub open spec fn bytes64(s: Seq<char>) -> Seq<u8>
    decreases s.len(),
{
    if s.len() < 4 {
        Seq::empty()
    } else {
        let a = (value64(s[0]) * 4 + value64(s[1]) / 16) as u8;
        let b = ((value64(s[1]) % 16) * 16 + value64(s[2]) / 4) as u8;
        let c = ((value64(s[2]) % 4) * 64 + value64(s[3])) as u8;
        let group = if s[2] == '=' {
            seq![a]
        } else if s[3] == '=' {
            seq![a, b]
        } else {
            seq![a, b, c]
        };
        group + bytes64(s.skip(4))
    }
}

proof fn lemma_digit64(n: int)
    requires
        0 <= n < 64,
    ensures
        value64(digit64(n)) == n,
        digit64(n) != '=',
        (digit64(n) as int) < 128,
{
    reveal(digit64);
    reveal(value64);
}

/// The bytes of a group, read back from its digits.
proof fn lemma_group64(a: u8, b: u8, c: u8)
    ensures
        ({
            let g = group64(a, b, c);
            &&& value64(g[0]) * 4 + value64(g[1]) / 16 == a
            &&& (value64(g[1]) % 16) * 16 + value64(g[2]) / 4 == b
            &&& (value64(g[2]) % 4) * 64 + value64(g[3]) == c
            &&& g[2] != '='
            &&& g[3] != '='
        }),
{
    let (x, y, z) = (a as int, b as int, c as int);
    lemma_digit64(x / 4);
    lemma_digit64((x % 4) * 16 + y / 16);
    lemma_digit64((y % 16) * 4 + z / 64);
    lemma_digit64(z % 64);
}

/// What is written in base64 reads back as it was: the pixels survive the
/// wire.
pub proof fn law_base64_reads_back(data: Seq<u8>)
    ensures
        bytes64(base64(data)) == data,
    decreases data.len(),
{
    let s = base64(data);
    if data.len() == 0 {
        assert(bytes64(s) =~= data);
    } else if data.len() <= 2 {
        lemma_group64(
            data[0],
            if data.len() == 2 {
                data[1]
            } else {
                0
            },
            0,
        );
        assert(s.skip(4) =~= Seq::<char>::empty());
        assert(bytes64(s.skip(4)) =~= Seq::<u8>::empty());
        assert(bytes64(s) =~= data);
    } else {
        lemma_group64(data[0], data[1], data[2]);
        let g = group64(data[0], data[1], data[2]);
        assert(s[0] == g[0] && s[1] == g[1] && s[2] == g[2] && s[3] == g[3]);
        assert(s.skip(4) =~= base64(data.skip(3)));
        law_base64_reads_back(data.skip(3));
        assert(bytes64(s) =~= seq![data[0], data[1], data[2]] + data.skip(3));
        assert(data =~= seq![data[0], data[1], data[2]] + data.skip(3));
    }
}

/// Base64 is plain text.
pub proof fn lemma_base64_is_plain(data: Seq<u8>)
    ensures
        is_ascii_chars(base64(data)),
    decreases data.len(),
{
    let s = base64(data);
    if data.len() > 0 {
        let a = data[0] as int;
        let b = if data.len() > 1 {
            data[1] as int
        } else {
            0
        };
        let c = if data.len() > 2 {
            data[2] as int
        } else {
            0
        };
        lemma_digit64(a / 4);
        lemma_digit64((a % 4) * 16 + b / 16);
        lemma_digit64((b % 16) * 4 + c / 64);
        lemma_digit64(c % 64);
        if data.len() > 2 {
            lemma_base64_is_plain(data.skip(3));
            assert forall|k: int| 0 <= k < s.len() implies 0 <= #[trigger] s[k] as nat <= 127 by {
                if k >= 4 {
                    assert(s[k] == base64(data.skip(3))[k - 4]);
                }
            }
        }
    }
}

// ---------------------------------------------------------------------------
// On the wire
// ---------------------------------------------------------------------------

/// How the pixels reach the terminal.
#[derive(Clone, Copy, Debug, PartialEq, Eq, Structural)]
pub enum Transport {
    /// Through shared memory: the escape carries only a name.
    Shm,
    /// Through the escape itself.
    Direct,
}

/// Shared memory needs a terminal on the same machine, which a session over a
/// connection is not.
pub fn transport_for_env(ssh_connection: bool, ssh_tty: bool) -> (r: Transport)
    ensures
        r == if ssh_connection || ssh_tty {
            Transport::Direct
        } else {
            Transport::Shm
        },
{
    if ssh_connection || ssh_tty {
        Transport::Direct
    } else {
        Transport::Shm
    }
}

/// The longest payload of one escape: a multiple of four, so that no group of
/// digits is split between two.
pub const CHUNK: usize = 4096;

/// One escape: a head, whether more follows, and a payload.
pub open spec fn escape(head: Seq<char>, more: bool, payload: Seq<char>) -> Seq<char> {
    "\u{1b}_G"@ + head + "m="@ + (if more {
        "1;"@
    } else {
        "0;"@
    }) + payload + "\u{1b}\\"@
}

/// The chunks of a payload from here on: full ones, which say that more
/// follows, and a last one, which does not and is empty where the full ones
/// took everything.
pub open spec fn chunks(head: Seq<char>, payload: Seq<char>) -> Seq<char>
    decreases payload.len(),
{
    if payload.len() < 4096 {
        escape(head, false, payload)
    } else {
        escape(head, true, payload.take(4096)) + chunks(Seq::empty(), payload.skip(4096))
    }
}

/// A payload in chunks, of which only the first carries the control data.
/// Nothing is sent of nothing.
pub open spec fn chunked(head: Seq<char>, payload: Seq<char>) -> Seq<char> {
    if payload.len() == 0 {
        Seq::empty()
    } else {
        chunks(head, payload)
    }
}

/// The control data of the first chunk.
pub open spec fn direct_head(head: Seq<char>) -> Seq<char> {
    head + ",t=d,"@
}

fn push_escape(out: &mut String, head: &str, more: bool, payload: &str)
    ensures
        final(out)@ == old(out)@ + escape(head@, more, payload@),
{
    let ghost start = out@;
    out.append("\u{1b}_G");
    out.append(head);
    out.append("m=");
    if more {
        out.append("1;");
    } else {
        out.append("0;");
    }
    out.append(payload);
    out.append("\u{1b}\\");
    assert(out@ =~= start + escape(head@, more, payload@));
}

/// A payload of plain text in chunks.
pub fn write_chunked(head: &str, payload: &str) -> (r: String)
    requires
        is_ascii_chars(payload@),
    ensures
        r@ == chunked(direct_head(head@), payload@),
{
    let mut out = String::new();
    let v = text::chars_of(payload);
    let total: usize = v.len();
    let mut left: usize = total;
    if left == 0 {
        assert(out@ =~= Seq::empty());
        return out;
    }
    let mut lead = text::joined(head, ",t=d,");
    let mut from: usize = 0;
    let ghost all = chunks(direct_head(head@), payload@);
    assert(payload@.skip(0) =~= payload@);
    assert(out@ + all =~= all);
    while left >= CHUNK
        invariant
            from + left == total,
            total == v@.len(),
            v@ == payload@,
            out@ + chunks(lead@, payload@.skip(from as int)) == all,
        decreases left,
    {
        let ghost rest = payload@.skip(from as int);
        let ghost before = out@;
        let chunk = text::string_of(text::cut(v.as_slice(), from, from + CHUNK).as_slice());
        push_escape(&mut out, lead.as_str(), true, chunk.as_str());
        proof {
            assert(chunk@ =~= rest.take(4096));
            assert(rest.skip(4096) =~= payload@.skip(from + 4096));
            assert(out@ + chunks(Seq::empty(), rest.skip(4096)) =~= before + chunks(lead@, rest));
        }
        lead = String::new();
        assert(lead@ =~= Seq::empty());
        from += CHUNK;
        left -= CHUNK;
    }
    let last = text::string_of(text::cut(v.as_slice(), from, total).as_slice());
    assert(last@ =~= payload@.skip(from as int));
    push_escape(&mut out, lead.as_str(), false, last.as_str());
    out
}

/// A number that tells two images apart.
pub open spec fn hash_upto(data: Seq<u8>, n: int) -> u64
    decreases n,
{
    if n <= 0 {
        0xcbf2_9ce4_8422_2325
    } else {
        (hash_upto(data, n - 1) ^ (data[n - 1] as u64)).wrapping_mul(0x1000_0000_01b3)
    }
}

pub fn hash(data: &[u8]) -> (r: u64)
    ensures
        r == hash_upto(data@, data@.len() as int),
{
    let mut h: u64 = 0xcbf2_9ce4_8422_2325;
    let mut i: usize = 0;
    while i < data.len()
        invariant
            i <= data@.len(),
            h == hash_upto(data@, i as int),
        decreases data.len() - i,
    {
        h = (h ^ (data[i] as u64)).wrapping_mul(0x1000_0000_01b3);
        i += 1;
    }
    h
}

/// The control data of an image: transmitted and placed at once, invisible
/// until a placeholder refers to it, four bytes a pixel, silent on failure.
pub open spec fn control(w: u32, h: u32, cols: u32, rows: u32) -> Seq<char> {
    "a=T,U=1,i="@ + text::decimal(IMAGE_ID as nat) + ",f=32,s="@ + text::decimal(w as nat) + ",v="@
        + text::decimal(h as nat) + ",c="@ + text::decimal(cols as nat) + ",r="@ + text::decimal(
        rows as nat,
    ) + ",q=2"@
}

fn control_text(w: u32, h: u32, cols: u32, rows: u32) -> (r: String)
    ensures
        r@ == control(w, h, cols, rows),
{
    let mut s = "a=T,U=1,i=".to_owned();
    s.append(text::number_text(IMAGE_ID as u64).as_str());
    s.append(",f=32,s=");
    s.append(text::number_text(w as u64).as_str());
    s.append(",v=");
    s.append(text::number_text(h as u64).as_str());
    s.append(",c=");
    s.append(text::number_text(cols as u64).as_str());
    s.append(",r=");
    s.append(text::number_text(rows as u64).as_str());
    s.append(",q=2");
    s
}

/// What is sent for an image.
#[derive(Debug)]
pub enum Frame {
    /// Nothing: the same image is on screen.
    Same,
    /// The escapes that carry it.
    Inline(String),
    /// The shared memory object to fill, and the escape that names it.
    Shared(String, String),
}

/// The state of the image on the terminal.
#[derive(Debug)]
pub struct Kgp {
    pub transport: Transport,
    /// The hash of the image on screen.
    pub last: Option<u64>,
    /// How many shared memory objects were named.
    pub seq: u64,
    /// The object that the terminal may not have taken yet.
    pub live: Option<String>,
}

/// The name of a shared memory object.
pub open spec fn object_name(pid: u32, seq: u64) -> Seq<char> {
    "/heft-"@ + text::decimal(pid as nat) + "-"@ + text::decimal(seq as nat)
}

/// The escape that names a shared memory object.
pub open spec fn shared_escape(head: Seq<char>, name: Seq<char>) -> Seq<char> {
    "\u{1b}_G"@ + head + ",t=s;"@ + base64(encode_utf8(name)) + "\u{1b}\\"@
}

impl Kgp {
    pub fn with_transport(transport: Transport) -> (r: Self)
        ensures
            r.transport == transport && r.last is None && r.seq == 0 && r.live is None,
    {
        Kgp { transport, last: None, seq: 0, live: None }
    }

    /// What to send so that an image is on screen, over the cell rectangle its
    /// placeholders cover. An image that is there already is not sent again;
    /// until it is sent, none is.
    pub fn send(&mut self, img: &Image, cols: u32, rows: u32, pid: u32) -> (r: Frame)
        requires
            old(self).seq < u64::MAX,
        ensures
            final(self).transport == old(self).transport,
            final(self).live == old(self).live,
            ({
                let h = hash_upto(img.rgba@, img.rgba@.len() as int);
                let head = control(img.w, img.h, cols, rows);
                if old(self).last == Some(h) {
                    r is Same && *final(self) == *old(self)
                } else {
                    final(self).last is None && match old(self).transport {
                        Transport::Direct => r matches Frame::Inline(t) && t@ == chunked(
                            direct_head(head),
                            base64(img.rgba@),
                        ) && final(self).seq == old(self).seq,
                        Transport::Shm => r matches Frame::Shared(name, t) && final(self).seq
                            == old(self).seq + 1 && name@ == object_name(pid, final(self).seq)
                            && t@ == shared_escape(head, name@),
                    }
                }
            }),
    {
        let h: u64 = hash(img.rgba.as_slice());
        if let Some(last) = self.last {
            if last == h {
                return Frame::Same;
            }
        }
        self.last = None;
        let head = control_text(img.w, img.h, cols, rows);
        match self.transport {
            Transport::Shm => {
                self.seq = self.seq + 1;
                let mut name = "/heft-".to_owned();
                name.append(text::number_text(pid as u64).as_str());
                name.append("-");
                name.append(text::number_text(self.seq).as_str());
                let mut payload = String::new();
                b64(name.as_str().as_bytes(), &mut payload);
                assert(payload@ =~= base64(encode_utf8(name@)));
                let mut t = "\u{1b}_G".to_owned();
                t.append(head.as_str());
                t.append(",t=s;");
                t.append(payload.as_str());
                t.append("\u{1b}\\");
                Frame::Shared(name, t)
            },
            Transport::Direct => {
                let mut payload = String::new();
                b64(img.rgba.as_slice(), &mut payload);
                assert(payload@ =~= base64(img.rgba@));
                proof {
                    lemma_base64_is_plain(img.rgba@);
                }
                Frame::Inline(write_chunked(head.as_str(), payload.as_str()))
            },
        }
    }

    /// An image was sent.
    pub fn sent(&mut self, img: &Image)
        ensures
            final(self).last == Some(hash_upto(img.rgba@, img.rgba@.len() as int)),
            final(self).transport == old(self).transport && final(self).seq == old(self).seq
                && final(self).live == old(self).live,
    {
        self.last = Some(hash(img.rgba.as_slice()));
    }

    /// A shared memory object was filled: the one before it is handed back to
    /// be dropped.
    pub fn hold(&mut self, name: String) -> (r: Option<String>)
        ensures
            r == old(self).live,
            final(self).live == Some(name),
            final(self).transport == old(self).transport && final(self).seq == old(self).seq
                && final(self).last == old(self).last,
    {
        let before = self.live.take();
        self.live = Some(name);
        before
    }

    /// The escape that deletes the image and frees its data, and the object
    /// the terminal may not have taken.
    pub fn teardown(&mut self) -> (r: (String, Option<String>))
        ensures
            (r.0)@ == "\u{1b}_Ga=d,d=I,i="@ + text::decimal(IMAGE_ID as nat) + ",q=2\u{1b}\\"@,
            r.1 == old(self).live,
            final(self).live is None,
            final(self).transport == old(self).transport && final(self).seq == old(self).seq
                && final(self).last == old(self).last,
    {
        let mut t = "\u{1b}_Ga=d,d=I,i=".to_owned();
        t.append(text::number_text(IMAGE_ID as u64).as_str());
        t.append(",q=2\u{1b}\\");
        let name = self.live.take();
        (t, name)
    }
}

} // verus!
