//! Where the line of a trend runs in its image.
use vstd::prelude::*;

use crate::kgp;

verus! {

/// The line is at the bottom for nothing, at the top for the full scale and
/// above it, and else on the row nearest to its share.
pub proof fn law_the_line_stands_at_its_share(v: u64, full: u64, h: u32)
    requires
        full > 0,
        h > 0,
    ensures
        ({
            let up = (h - 1) - kgp::row_of(v, full, h);
            &&& 0 <= up <= h - 1
            &&& v == 0 ==> up == 0
            &&& v >= full ==> up == h - 1
            &&& 0 < v < full ==> 2 * full * up <= 2 * v * (h - 1) + full && 2 * v * (h - 1) < 2
                * full * up + full
        }),
{
    if 0 < v < full {
        let last = h - 1;
        let (x, d) = (2 * v * last + full, 2 * full as int);
        let up = x / d;
        assert(d * up <= x < d * up + d && 0 <= up) by (nonlinear_arith)
            requires
                up == x / d,
                d > 0,
                x >= 0,
        ;
        assert(2 * full * up == d * up) by (nonlinear_arith)
            requires
                d == 2 * full,
        ;
        assert(up <= last) by (nonlinear_arith)
            requires
                d * up <= x,
                x == 2 * v * last + full,
                d == 2 * full,
                0 < v < full,
                last >= 0,
        ;
        assert(x >= 0) by (nonlinear_arith)
            requires
                x == 2 * v * last + full,
                v > 0,
                last >= 0,
                full > 0,
        ;
    }
}

/// A heavier sample is never drawn lower.
pub proof fn law_heavier_is_never_lower(a: u64, b: u64, full: u64, h: u32)
    requires
        a <= b,
        full > 0,
        h > 0,
    ensures
        kgp::row_of(b, full, h) <= kgp::row_of(a, full, h),
{
    law_the_line_stands_at_its_share(a, full, h);
    law_the_line_stands_at_its_share(b, full, h);
    if 0 < a && b < full {
        let last = h - 1;
        let d = 2 * full as int;
        let (x, y) = (2 * a * last + full, 2 * b * last + full);
        assert(x <= y) by (nonlinear_arith)
            requires
                a <= b,
                last >= 0,
                x == 2 * a * last + full,
                y == 2 * b * last + full,
        ;
        assert(x / d <= y / d) by (nonlinear_arith)
            requires
                x <= y,
                d > 0,
        ;
    }
}

/// A byte of the image is the line's colour where the line runs, solid; and
/// nothing where it does not.
pub proof fn law_the_colour_of_the_line(
    rows: Seq<Option<Seq<u64>>>,
    cols: u32,
    cell_w: u32,
    cell_h: u32,
    colour: Seq<u8>,
    full: u64,
    pixel: int,
)
    requires
        0 <= pixel,
    ensures
        ({
            let w = cols * cell_w;
            let on = kgp::on_line(rows, cols, cell_w, cell_h, full, pixel % w, pixel / w);
            let at = |k: int| kgp::byte_of(rows, cols, cell_w, cell_h, colour, full, 4 * pixel + k);
            &&& on ==> at(0) == colour[0] && at(1) == colour[1] && at(2) == colour[2] && at(3)
                == 255
            &&& !on ==> at(0) == 0 && at(1) == 0 && at(2) == 0 && at(3) == 0
        }),
{
    assert((4 * pixel + 0) / 4 == pixel && (4 * pixel + 1) / 4 == pixel);
    assert((4 * pixel + 2) / 4 == pixel && (4 * pixel + 3) / 4 == pixel);
    assert((4 * pixel + 0) % 4 == 0 && (4 * pixel + 1) % 4 == 1);
    assert((4 * pixel + 2) % 4 == 2 && (4 * pixel + 3) % 4 == 3);
}

/// The line passes through the row of every sample, in every pixel of its
/// column.
pub proof fn law_the_line_passes_every_sample(
    rows: Seq<Option<Seq<u64>>>,
    cols: u32,
    cell_w: u32,
    cell_h: u32,
    full: u64,
    band: int,
    i: int,
    dx: int,
)
    requires
        0 <= band < rows.len(),
        rows[band] is Some,
        0 <= i < rows[band]->0.len(),
        i < cols,
        0 <= dx < cell_w,
        cell_h > 0,
        full > 0,
    ensures
        kgp::on_line(
            rows,
            cols,
            cell_w,
            cell_h,
            full,
            i * cell_w + dx,
            band * cell_h + kgp::row_of(rows[band]->0[i], full, cell_h),
        ),
{
    let here = kgp::row_of(rows[band]->0[i], full, cell_h);
    law_the_line_stands_at_its_share(rows[band]->0[i], full, cell_h);
    let (w, h) = (cell_w as int, cell_h as int);
    assert((i * w + dx) / w == i) by (nonlinear_arith)
        requires
            0 <= dx < w,
            0 <= i,
    ;
    assert((band * h + here) / h == band && (band * h + here) % h == here) by (nonlinear_arith)
        requires
            0 <= here < h,
            0 <= band,
    ;
}

/// Two shared objects of one process have different names, and so have those
/// of two processes.
pub proof fn law_objects_have_names_of_their_own(pid: u32, a: u64, b: u64)
    ensures
        kgp::object_name(pid, a) == kgp::object_name(pid, b) <==> a == b,
{
    let head = "/heft-"@ + crate::text::decimal(pid as nat) + "-"@;
    let (x, y) = (crate::text::decimal(a as nat), crate::text::decimal(b as nat));
    if head + x == head + y {
        assert((head + x).skip(head.len() as int) =~= x);
        assert((head + y).skip(head.len() as int) =~= y);
        crate::text::laws::law_numbers_are_read_back(a as nat, u64::MAX as nat);
        crate::text::laws::law_numbers_are_read_back(b as nat, u64::MAX as nat);
    }
}

} // verus!
