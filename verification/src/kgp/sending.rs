//! How an image is sent to a terminal.
use vstd::prelude::*;

use crate::kgp;

verus! {

/// What fits into one escape is sent in one, marked as the last; what does not
/// begins with a full one, marked as followed by more, and goes on without the
/// head.
pub proof fn law_an_image_is_sent_in_pieces(head: Seq<char>, first: Seq<char>, rest: Seq<char>)
    ensures
        0 < first.len() < 4096 ==> kgp::chunked(head, first) == "\u{1b}_G"@ + head + "m="@ + "0;"@
            + first + "\u{1b}\\"@,
        first.len() == 4096 ==> kgp::chunked(head, first + rest) == "\u{1b}_G"@ + head + "m="@
            + "1;"@ + first + "\u{1b}\\"@ + kgp::chunks(Seq::empty(), rest),
        kgp::chunked(head, Seq::empty()).len() == 0,
{
    if first.len() == 4096 {
        assert((first + rest).take(4096) =~= first);
        assert((first + rest).skip(4096) =~= rest);
    }
}

} // verus!
