//! The pattern that a search goes by.
use vstd::prelude::*;

verus! {

/// Whether the regex engine takes this text for a pattern, with case folded
/// or not.
pub uninterp spec fn pattern_ok(pattern: Seq<char>, fold: bool) -> bool;

/// Whether a pattern that the engine takes matches somewhere in a text.
pub uninterp spec fn pattern_hit(pattern: Seq<char>, fold: bool, s: Seq<char>) -> bool;

/// `regex::RegexBuilder::build`. What is claimed: whether it succeeds depends
/// on the pattern and on the case setting alone. Which texts are patterns is
/// the engine's grammar, and is not stated.
#[verifier::external_body]
fn compiles(pattern: &str, fold: bool) -> (r: bool)
    ensures
        r == pattern_ok(pattern@, fold),
{
    regex::RegexBuilder::new(pattern).case_insensitive(fold).build().is_ok()
}

/// `regex::Regex::is_match` of the regex that `RegexBuilder::build` makes.
/// What is claimed: there is an answer exactly where the build succeeds, and
/// it depends on the pattern, the case setting and the text alone. Which texts
/// match is the engine's semantics, and is not stated.
#[verifier::external_body]
fn matches_in(pattern: &str, fold: bool, s: &str) -> (r: Option<bool>)
    ensures
        r == if pattern_ok(pattern@, fold) {
            Some(pattern_hit(pattern@, fold, s@))
        } else {
            None
        },
{
    match regex::RegexBuilder::new(pattern).case_insensitive(fold).build() {
        Ok(re) => Some(re.is_match(s)),
        Err(_) => None,
    }
}

/// Whether a text can be searched by. Case does not matter unless the pattern
/// itself says so.
pub open spec fn usable(pattern: Seq<char>) -> bool {
    pattern_ok(pattern, true)
}

/// Whether a search hits a text.
pub open spec fn hits(pattern: Seq<char>, s: Seq<char>) -> bool {
    pattern_hit(pattern, true, s)
}

/// A pattern that can be searched by. It is kept as text, and the engine reads
/// it for every text it is tried on.
#[derive(Debug)]
pub struct Filter {
    pattern: String,
}

impl View for Filter {
    type V = Seq<char>;

    closed spec fn view(&self) -> Seq<char> {
        self.pattern@
    }
}

/// What a filter that may be missing searches by.
pub open spec fn searched_by(f: Option<Filter>) -> Option<Seq<char>> {
    match f {
        Some(f) => Some(f@),
        None => None,
    }
}

impl Filter {
    #[verifier::type_invariant]
    spec fn inv(self) -> bool {
        usable(self.pattern@)
    }

    /// Nothing where the text is no pattern.
    pub fn new(pattern: &str) -> (r: Option<Filter>)
        ensures
            searched_by(r) == if usable(pattern@) {
                Some(pattern@)
            } else {
                None
            },
    {
        if compiles(pattern, true) {
            Some(Filter { pattern: pattern.to_owned() })
        } else {
            None
        }
    }

    /// Whether it matches somewhere in a text.
    pub fn is_match(&self, s: &str) -> (r: bool)
        ensures
            r == hits(self@, s@),
    {
        proof {
            use_type_invariant(self);
        }
        match matches_in(self.pattern.as_str(), true, s) {
            Some(b) => b,
            None => false,
        }
    }
}

} // verus!
