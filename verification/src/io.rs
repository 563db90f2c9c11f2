//! What a process has read, written and swapped out, from the text of its
//! files.
use vstd::prelude::*;

use crate::{proc, text};

verus! {

/// The last number after a key, over the first `n` lines.
pub open spec fn last_field(lines: Seq<Seq<char>>, key: Seq<char>, n: int) -> Option<u64>
    decreases n,
{
    if n <= 0 {
        None
    } else if proc::field(lines[n - 1], key) is Some {
        proc::field(lines[n - 1], key)
    } else {
        last_field(lines, key, n - 1)
    }
}

/// The last number after a key at the start of a line.
pub fn find_last_field(lines: &Vec<Vec<char>>, key: &str) -> (r: Option<u64>)
    ensures
        r == last_field(text::views(lines@), key@, lines@.len() as int),
{
    let ghost all = text::views(lines@);
    let k = text::chars_of(key);
    let mut n: usize = lines.len();
    while n > 0
        invariant
            n <= lines@.len(),
            all == text::views(lines@),
            k@ == key@,
            last_field(all, key@, lines@.len() as int) == last_field(all, key@, n as int),
        decreases n,
    {
        assert(all[n - 1] == lines@[n - 1]@);
        let v: Option<u64> = proc::field_of(lines[n - 1].as_slice(), k.as_slice());
        if v.is_some() {
            return v;
        }
        n -= 1;
    }
    None
}

/// The bytes read and written that an io file counts.
pub fn parse_io(t: &str) -> (r: (Option<u64>, Option<u64>))
    ensures
        r.0 == last_field(
            text::lines_of(t@),
            "read_bytes:"@,
            text::lines_of(t@).len() as int,
        ),
        r.1 == last_field(
            text::lines_of(t@),
            "write_bytes:"@,
            text::lines_of(t@).len() as int,
        ),
{
    let lines = text::split_lines(text::chars_of(t).as_slice());
    assert(text::views(lines@).len() == lines@.len());
    (find_last_field(&lines, "read_bytes:"), find_last_field(&lines, "write_bytes:"))
}

/// The proportional share of resident memory, in KiB.
pub fn parse_pss_kb(t: &str) -> (r: Option<u64>)
    ensures
        r == proc::field_in(t@, "Pss:"@),
{
    proc::find_field(t, "Pss:")
}

/// The proportional share of swapped-out memory, in KiB.
pub fn parse_swap_pss_kb(t: &str) -> (r: Option<u64>)
    ensures
        r == proc::field_in(t@, "SwapPss:"@),
{
    proc::find_field(t, "SwapPss:")
}

/// Both shares; the second only where the machine has swap at all, since a
/// column of zeros would claim a figure where there is none.
pub fn parse_rollup_kb(t: &str, want_swap: bool) -> (r: (Option<u64>, Option<u64>))
    ensures
        r.0 == proc::field_in(t@, "Pss:"@),
        r.1 == if want_swap {
            proc::field_in(t@, "SwapPss:"@)
        } else {
            None
        },
{
    let swap: Option<u64> = if want_swap {
        parse_swap_pss_kb(t)
    } else {
        None
    };
    (parse_pss_kb(t), swap)
}

} // verus!
