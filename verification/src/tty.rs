//! What is left to clean up when the terminal has to be given back at once.
use vstd::prelude::*;
use vstd::utf8::*;

use crate::text;

verus! {

/// How long a path may be, with the byte that ends it.
pub const PATH_MAX: usize = 128;

/// A text without the slashes it starts with.
pub open spec fn leaf_of(s: Seq<char>) -> Seq<char>
    decreases s.len(),
{
    if s.len() > 0 && s[0] == '/' {
        leaf_of(s.skip(1))
    } else {
        s
    }
}

/// Where the system keeps a shared memory object. A name too long to hold has
/// no path: a part of one would name something else.
pub open spec fn object_path(name: Seq<char>) -> Option<Seq<char>> {
    let leaf = leaf_of(name);
    if leaf.len() == 0 || 9 + encode_utf8(leaf).len() >= PATH_MAX {
        None
    } else {
        Some("/dev/shm/"@ + leaf)
    }
}

fn leaf(name: &str) -> (r: String)
    ensures
        r@ == leaf_of(name@),
{
    let v = text::chars_of(name);
    let mut i: usize = 0;
    assert(name@.skip(0) =~= name@);
    while i < v.len() && v[i] == '/'
        invariant
            i <= v@.len(),
            v@ == name@,
            leaf_of(name@) == leaf_of(name@.skip(i as int)),
        decreases v.len() - i,
    {
        assert(name@.skip(i as int).skip(1) =~= name@.skip(i + 1));
        i += 1;
    }
    let rest = text::cut(v.as_slice(), i, v.len());
    assert(rest@ =~= name@.skip(i as int));
    text::string_of(rest.as_slice())
}

/// The path of a shared memory object that is to be removed when the program
/// is killed.
pub fn held_path(name: &str) -> (r: Option<String>)
    ensures
        text::opt_text(r) == object_path(name@),
{
    let s = leaf(name);
    let n: usize = s.as_str().as_bytes().len();
    if s.as_str().is_empty() || n >= PATH_MAX - 9 {
        None
    } else {
        Some(text::joined("/dev/shm/", s.as_str()))
    }
}

/// What is removed is never a directory above, and never the directory itself.
pub proof fn law_a_held_path_names_one_object(name: Seq<char>)
    ensures
        object_path(name) matches Some(p) ==> p.len() > 9 && p.take(9) == "/dev/shm/"@ && p[9]
            != '/',
{
    reveal_strlit("/dev/shm/");
    lemma_leaf(name);
    if let Some(p) = object_path(name) {
        assert(p.take(9) =~= "/dev/shm/"@);
    }
}

proof fn lemma_leaf(s: Seq<char>)
    ensures
        leaf_of(s).len() > 0 ==> leaf_of(s)[0] != '/',
    decreases s.len(),
{
    if s.len() > 0 && s[0] == '/' {
        lemma_leaf(s.skip(1));
    }
}

} // verus!
