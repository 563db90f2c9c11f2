//! What the characters of a sixel say.
use vstd::prelude::*;

use crate::kgp::Image;
use crate::sixel;
use crate::text;

verus! {

/// A colour's share is the nearest hundredth: nothing is none, and all is a
/// hundred.
pub proof fn law_a_share_in_hundredths(v: u8)
    ensures
        510 * sixel::percent_of(v) <= 200 * v + 255,
        200 * v <= 510 * sixel::percent_of(v) + 255,
        sixel::percent_of(0) == 0,
        sixel::percent_of(255) == 100,
{
}

/// A character of a band has a bit for each of its six pixels, the top one the
/// lowest, and the bit is set where the pixel is drawn.
pub proof fn law_a_character_is_six_pixels(img: Image, top: int, x: int)
    ensures
        ({
            let n = sixel::column(img, top, x) as int - 63;
            &&& 0 <= n < 64
            &&& n % 2 == 1 <==> sixel::drawn(img, x, top)
            &&& n / 2 % 2 == 1 <==> sixel::drawn(img, x, top + 1)
            &&& n / 4 % 2 == 1 <==> sixel::drawn(img, x, top + 2)
            &&& n / 8 % 2 == 1 <==> sixel::drawn(img, x, top + 3)
            &&& n / 16 % 2 == 1 <==> sixel::drawn(img, x, top + 4)
            &&& n / 32 % 2 == 1 <==> sixel::drawn(img, x, top + 5)
        }),
{
}

/// A run is written out where it is short and counted where it is long.
pub proof fn law_a_long_run_is_counted(c: char, n: nat)
    ensures
        n < 4 ==> sixel::run_text(c, n).len() == n && forall|k: int|
            0 <= k < n ==> sixel::run_text(c, n)[k] == c,
        n >= 4 ==> sixel::run_text(c, n)[0] == '!' && sixel::run_text(c, n).last() == c
            && sixel::run_text(c, n).subrange(1, sixel::run_text(c, n).len() - 1) =~= text::decimal(
            n,
        ),
{
}

/// A run goes as far as the columns are alike, and no further.
pub proof fn law_a_run_is_as_long_as_it_can_be(img: Image, top: int, x: int, n: nat)
    requires
        0 <= x,
        1 <= n,
        x + n <= img.w,
        forall|k: int|
            0 <= k < n ==> #[trigger] sixel::column(img, top, x + k) == sixel::column(img, top, x),
    ensures
        ({
            let r = sixel::run_length(img, top, x, n);
            &&& n <= r && x + r <= img.w
            &&& forall|k: int|
                0 <= k < r ==> #[trigger] sixel::column(img, top, x + k) == sixel::column(
                    img,
                    top,
                    x,
                )
            &&& x + r < img.w ==> sixel::column(img, top, x + r as int) != sixel::column(
                img,
                top,
                x,
            )
        }),
    decreases img.w - (x + n),
{
    if x + n < img.w && sixel::column(img, top, x + n as int) == sixel::column(img, top, x) {
        law_a_run_is_as_long_as_it_can_be(img, top, x, n + 1);
    }
}

/// There are as many bands of six rows as it takes to hold every row.
pub proof fn law_every_row_is_in_a_band(img: Image)
    ensures
        6 * sixel::bands_of(img) >= img.h,
        6 * sixel::bands_of(img) < img.h + 6,
{
}

} // verus!
