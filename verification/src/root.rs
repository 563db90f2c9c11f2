//! Where `/proc` and `/sys` are read from.
use vstd::prelude::*;

use crate::text;

verus! {

/// The prefix of every kernel path: no slash at its end, so that no path
/// doubles the separator; empty for the running machine.
pub open spec fn prefix_of(root: Option<Seq<char>>) -> Seq<char> {
    match root {
        Some(r) => text::without_trailing(r, '/'),
        None => Seq::empty(),
    }
}

pub fn trimmed(given: &str) -> (r: String)
    ensures
        r@ == text::without_trailing(given@, '/'),
{
    text::trim_trailing(given, '/')
}

/// The prefix of every kernel path.
pub fn init(root: Option<&str>) -> (r: String)
    ensures
        r@ == prefix_of(text::opt_str(root)),
{
    match root {
        Some(given) => trimmed(given),
        None => String::new(),
    }
}

/// An absolute kernel path under a prefix.
pub fn path(prefix: &str, abs: &str) -> (r: String)
    ensures
        r@ == prefix@ + abs@,
{
    text::joined(prefix, abs)
}

/// A prefix never ends in a slash, and one that does not end in a slash is
/// left as it is.
pub proof fn law_a_prefix_never_ends_in_a_slash(given: Seq<char>)
    ensures
        prefix_of(Some(given)).len() > 0 ==> prefix_of(Some(given)).last() != '/',
        given.len() > 0 && given.last() != '/' ==> prefix_of(Some(given)) == given,
        prefix_of(Some(given.push('/'))) == prefix_of(Some(given)),
    decreases given.len(),
{
    assert(given.push('/').drop_last() =~= given);
    if given.len() > 0 && given.last() == '/' {
        law_a_prefix_never_ends_in_a_slash(given.drop_last());
    }
}

} // verus!
