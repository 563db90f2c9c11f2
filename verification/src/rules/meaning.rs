//! What each test of the rule language asks, in the characters of the texts it
//! is put to.
use vstd::prelude::*;

use crate::rules;
use crate::rules::{FactsView, Field, Match, Op, Pat};
use crate::text;

verus! {

// ---------------------------------------------------------------------------
// Patterns and letters
// ---------------------------------------------------------------------------

/// `q` is a pattern of `p`: its only one, or one of its list.
pub open spec fn is_pattern(p: Pat, q: Seq<char>) -> bool {
    match p {
        Pat::One(s) => s@ == q,
        Pat::Many(v) => exists|k: int| 0 <= k < v@.len() && (#[trigger] v@[k])@ == q,
    }
}

/// Two characters are one but for the case of an ASCII letter.
pub open spec fn one_letter(a: char, b: char) -> bool {
    ||| a == b
    ||| 'A' <= a && a <= 'Z' && b as int == a as int + 32
    ||| 'A' <= b && b <= 'Z' && a as int == b as int + 32
}

/// Two texts are one but for the case of ASCII letters.
pub open spec fn one_text(a: Seq<char>, b: Seq<char>) -> bool {
    a.len() == b.len() && forall|k: int| 0 <= k < a.len() ==> #[trigger] one_letter(a[k], b[k])
}

/// `h` begins with `q`, ASCII case aside.
pub open spec fn begins(h: Seq<char>, q: Seq<char>) -> bool {
    exists|m: Seq<char>, b: Seq<char>| #[trigger] one_text(m, q) && h == #[trigger] (m + b)
}

/// `h` ends with `q`, ASCII case aside.
pub open spec fn ends(h: Seq<char>, q: Seq<char>) -> bool {
    exists|a: Seq<char>, m: Seq<char>| #[trigger] one_text(m, q) && h == #[trigger] (a + m)
}

/// `h` holds `q` somewhere, ASCII case aside.
pub open spec fn holds(h: Seq<char>, q: Seq<char>) -> bool {
    exists|a: Seq<char>, m: Seq<char>, b: Seq<char>| #[trigger]
        one_text(m, q) && h == #[trigger] (a + m + b)
}

proof fn lemma_letters(a: char, b: char)
    ensures
        one_letter(a, b) <==> text::lower(a) == text::lower(b),
{
}

/// Texts are folded alike exactly where they are one text but for the case.
pub proof fn law_folding_is_ascii_case(a: Seq<char>, b: Seq<char>)
    ensures
        text::same_folded(a, b) <==> one_text(a, b),
        text::lowered(a) == text::lowered(b) <==> one_text(a, b),
{
    let (x, y) = (text::lowered(a), text::lowered(b));
    assert forall|k: int| 0 <= k < a.len() implies #[trigger] x[k] == text::lower(a[k]) by {}
    assert forall|k: int| 0 <= k < b.len() implies #[trigger] y[k] == text::lower(b[k]) by {}
    if x == y {
        assert(x.len() == y.len());
        assert forall|k: int| 0 <= k < a.len() implies #[trigger] one_letter(a[k], b[k]) by {
            assert(x[k] == y[k]);
            lemma_letters(a[k], b[k]);
        }
    }
    if one_text(a, b) {
        assert forall|k: int| 0 <= k < a.len() implies x[k] == y[k] by {
            assert(one_letter(a[k], b[k]));
            lemma_letters(a[k], b[k]);
        }
        assert(x =~= y);
    }
}

// ---------------------------------------------------------------------------
// The four ways a pattern can stand in a text
// ---------------------------------------------------------------------------

proof fn lemma_lowered_part(h: Seq<char>, i: int, j: int)
    requires
        0 <= i <= j <= h.len(),
    ensures
        text::lowered(h).subrange(i, j) == text::lowered(h.subrange(i, j)),
{
    assert(text::lowered(h).subrange(i, j) =~= text::lowered(h.subrange(i, j)));
}

proof fn lemma_equal(q: Seq<char>, h: Seq<char>)
    ensures
        rules::op_holds(Op::Equal, q, h) <==> one_text(h, q),
{
    law_folding_is_ascii_case(h, q);
}

proof fn lemma_at(q: Seq<char>, h: Seq<char>, i: int)
    requires
        0 <= i,
        i + q.len() <= h.len(),
    ensures
        text::occurs_at(text::lowered(h), text::lowered(q), i) <==> one_text(
            h.subrange(i, i + q.len()),
            q,
        ),
{
    lemma_lowered_part(h, i, i + q.len());
    law_folding_is_ascii_case(h.subrange(i, i + q.len()), q);
}

proof fn lemma_prefix(q: Seq<char>, h: Seq<char>)
    ensures
        rules::op_holds(Op::Prefix, q, h) <==> begins(h, q),
{
    if rules::op_holds(Op::Prefix, q, h) {
        lemma_at(q, h, 0);
        let m = h.subrange(0, q.len() as int);
        let b = h.subrange(q.len() as int, h.len() as int);
        assert(h =~= m + b);
        assert(one_text(m, q));
    }
    if begins(h, q) {
        let (m, b) = choose|m: Seq<char>, b: Seq<char>| #[trigger]
            one_text(m, q) && h == #[trigger] (m + b);
        assert(h.subrange(0, q.len() as int) =~= m);
        lemma_at(q, h, 0);
    }
}

proof fn lemma_suffix(q: Seq<char>, h: Seq<char>)
    ensures
        rules::op_holds(Op::Suffix, q, h) <==> ends(h, q),
{
    let n = h.len() - q.len();
    if rules::op_holds(Op::Suffix, q, h) {
        lemma_at(q, h, n);
        let a = h.subrange(0, n);
        let m = h.subrange(n, h.len() as int);
        assert(h =~= a + m);
        assert(one_text(m, q));
    }
    if ends(h, q) {
        let (a, m) = choose|a: Seq<char>, m: Seq<char>| #[trigger]
            one_text(m, q) && h == #[trigger] (a + m);
        assert(h.subrange(n, h.len() as int) =~= m);
        lemma_at(q, h, n);
    }
}

proof fn lemma_infix(q: Seq<char>, h: Seq<char>)
    ensures
        rules::op_holds(Op::Contains, q, h) <==> holds(h, q),
{
    if rules::op_holds(Op::Contains, q, h) {
        let i = choose|i: int| #[trigger]
            text::occurs_at(text::lowered(h), text::lowered(q), i);
        lemma_at(q, h, i);
        let a = h.subrange(0, i);
        let m = h.subrange(i, i + q.len());
        let b = h.subrange(i + q.len(), h.len() as int);
        assert(h =~= a + m + b);
        assert(one_text(m, q));
    }
    if holds(h, q) {
        let (a, m, b) = choose|a: Seq<char>, m: Seq<char>, b: Seq<char>| #[trigger]
            one_text(m, q) && h == #[trigger] (a + m + b);
        let i = a.len() as int;
        assert(h.subrange(i, i + q.len()) =~= m);
        lemma_at(q, h, i);
        assert(text::occurs_at(text::lowered(h), text::lowered(q), i));
    }
}

/// What one way asks of one pattern and one text.
spec fn asks(o: Op, q: Seq<char>, h: Seq<char>) -> bool {
    match o {
        Op::Equal => one_text(h, q),
        Op::Prefix => begins(h, q),
        Op::Suffix => ends(h, q),
        Op::Contains => holds(h, q),
    }
}

proof fn lemma_asks(o: Op, q: Seq<char>, h: Seq<char>)
    ensures
        rules::op_holds(o, q, h) <==> asks(o, q, h),
{
    match o {
        Op::Equal => lemma_equal(q, h),
        Op::Prefix => lemma_prefix(q, h),
        Op::Suffix => lemma_suffix(q, h),
        Op::Contains => lemma_infix(q, h),
    }
}

/// Some pattern of `p` is asked of some text of `hay` and found so.
spec fn some_asked(o: Op, p: Pat, hay: Seq<Seq<char>>) -> bool {
    exists|q: Seq<char>, i: int| #[trigger]
        is_pattern(p, q) && 0 <= i < hay.len() && asks(o, q, #[trigger] hay[i])
}

proof fn lemma_patterns(p: Pat, q: Seq<char>)
    ensures
        is_pattern(p, q) <==> rules::pat_texts(p).contains(q),
{
    match p {
        Pat::One(s) => {
            assert(rules::pat_texts(p)[0] == s@);
            assert(rules::pat_texts(p).contains(s@));
        },
        Pat::Many(v) => {
            let t = rules::pat_texts(p);
            if is_pattern(p, q) {
                let k = choose|k: int| 0 <= k < v@.len() && (#[trigger] v@[k])@ == q;
                assert(t[k] == q);
            }
            if t.contains(q) {
                let k = choose|k: int| 0 <= k < t.len() && t[k] == q;
                assert(v@[k]@ == q);
            }
        },
    }
}

proof fn lemma_some_hit(o: Op, p: Pat, hay: Seq<Seq<char>>)
    ensures
        rules::some_hit(o, rules::pat_texts(p), hay) <==> some_asked(o, p, hay),
{
    let pats = rules::pat_texts(p);
    if rules::some_hit(o, pats, hay) {
        let (i, j) = choose|i: int, j: int|
            0 <= i < hay.len() && 0 <= j < pats.len() && #[trigger] rules::op_holds(
                o,
                pats[j],
                hay[i],
            );
        lemma_patterns(p, pats[j]);
        lemma_asks(o, pats[j], hay[i]);
        assert(pats.contains(pats[j]));
        assert(is_pattern(p, pats[j]) && asks(o, pats[j], hay[i]));
    }
    if some_asked(o, p, hay) {
        let (q, i) = choose|q: Seq<char>, i: int| #[trigger]
            is_pattern(p, q) && 0 <= i < hay.len() && asks(o, q, #[trigger] hay[i]);
        lemma_patterns(p, q);
        let j = choose|j: int| 0 <= j < pats.len() && pats[j] == q;
        lemma_asks(o, q, hay[i]);
        assert(rules::op_holds(o, pats[j], hay[i]));
    }
}

// ---------------------------------------------------------------------------
// The tests
// ---------------------------------------------------------------------------

/// Each test on the name asks it of the name a process gave itself or of the
/// name it is shown by.
pub proof fn law_tests_on_the_name(p: Pat, f: FactsView)
    ensures
        rules::match_holds(Match::Name(p), f) <==> exists|q: Seq<char>| #[trigger]
            is_pattern(p, q) && (one_text(f.comm, q) || one_text(f.name, q)),
        rules::match_holds(Match::NamePrefix(p), f) <==> exists|q: Seq<char>| #[trigger]
            is_pattern(p, q) && (begins(f.comm, q) || begins(f.name, q)),
        rules::match_holds(Match::NameSuffix(p), f) <==> exists|q: Seq<char>| #[trigger]
            is_pattern(p, q) && (ends(f.comm, q) || ends(f.name, q)),
        rules::match_holds(Match::NameContains(p), f) <==> exists|q: Seq<char>| #[trigger]
            is_pattern(p, q) && (holds(f.comm, q) || holds(f.name, q)),
{
    let hay = rules::field_texts(f, Field::Name);
    assert(hay[0] == f.comm && hay[1] == f.name && hay.len() == 2);
    lemma_some_hit(Op::Equal, p, hay);
    lemma_some_hit(Op::Prefix, p, hay);
    lemma_some_hit(Op::Suffix, p, hay);
    lemma_some_hit(Op::Contains, p, hay);
}

/// Each test on the executable asks it of its path, and fails where there is
/// none.
pub proof fn law_tests_on_the_executable(p: Pat, f: FactsView)
    ensures
        rules::match_holds(Match::ExePrefix(p), f) <==> f.exe is Some && exists|q: Seq<char>|
            #[trigger]
            is_pattern(p, q) && begins(f.exe->0, q),
        rules::match_holds(Match::ExeSuffix(p), f) <==> f.exe is Some && exists|q: Seq<char>|
            #[trigger]
            is_pattern(p, q) && ends(f.exe->0, q),
        rules::match_holds(Match::ExeContains(p), f) <==> f.exe is Some && exists|q: Seq<char>|
            #[trigger]
            is_pattern(p, q) && holds(f.exe->0, q),
{
    let hay = rules::field_texts(f, Field::Exe);
    assert(f.exe is Some ==> hay.len() == 1 && hay[0] == f.exe->0);
    assert(f.exe is None ==> hay.len() == 0);
    lemma_some_hit(Op::Prefix, p, hay);
    lemma_some_hit(Op::Suffix, p, hay);
    lemma_some_hit(Op::Contains, p, hay);
}

/// Each test on the arguments asks it of every argument and is content with
/// one.
pub proof fn law_tests_on_the_arguments(p: Pat, f: FactsView)
    ensures
        rules::match_holds(Match::ArgPrefix(p), f) <==> exists|q: Seq<char>, i: int| #[trigger]
            is_pattern(p, q) && 0 <= i < f.argv.len() && begins(#[trigger] f.argv[i], q),
        rules::match_holds(Match::ArgContains(p), f) <==> exists|q: Seq<char>, i: int| #[trigger]
            is_pattern(p, q) && 0 <= i < f.argv.len() && holds(#[trigger] f.argv[i], q),
{
    lemma_some_hit(Op::Prefix, p, f.argv);
    lemma_some_hit(Op::Contains, p, f.argv);
}

/// Each test on the control group or its unit asks it of the path, or of the
/// unit's name where there is one.
pub proof fn law_tests_on_the_control_group(p: Pat, f: FactsView)
    ensures
        rules::match_holds(Match::CgroupContains(p), f) <==> exists|q: Seq<char>| #[trigger]
            is_pattern(p, q) && holds(f.cgroup, q),
        rules::match_holds(Match::Unit(p), f) <==> f.unit is Some && exists|q: Seq<char>| #[trigger]
            is_pattern(p, q) && one_text(f.unit->0, q),
        rules::match_holds(Match::UnitPrefix(p), f) <==> f.unit is Some && exists|q: Seq<char>|
            #[trigger]
            is_pattern(p, q) && begins(f.unit->0, q),
        rules::match_holds(Match::UnitSuffix(p), f) <==> f.unit is Some && exists|q: Seq<char>|
            #[trigger]
            is_pattern(p, q) && ends(f.unit->0, q),
        rules::match_holds(Match::UnitContains(p), f) <==> f.unit is Some && exists|q: Seq<char>|
            #[trigger]
            is_pattern(p, q) && holds(f.unit->0, q),
{
    let group = rules::field_texts(f, Field::Cgroup);
    assert(group.len() == 1 && group[0] == f.cgroup);
    lemma_some_hit(Op::Contains, p, group);
    let unit = rules::field_texts(f, Field::Unit);
    assert(f.unit is Some ==> unit.len() == 1 && unit[0] == f.unit->0);
    assert(f.unit is None ==> unit.len() == 0);
    lemma_some_hit(Op::Equal, p, unit);
    lemma_some_hit(Op::Prefix, p, unit);
    lemma_some_hit(Op::Suffix, p, unit);
    lemma_some_hit(Op::Contains, p, unit);
}

/// The tests on a script, an identity and a container ask for the whole of it.
pub proof fn law_tests_on_what_is_known_later(p: Pat, f: FactsView)
    ensures
        rules::match_holds(Match::Script(p), f) <==> f.script is Some && exists|q: Seq<char>|
            #[trigger]
            is_pattern(p, q) && one_text(f.script->0, q),
        rules::match_holds(Match::Identity(p), f) <==> f.identity is Some && exists|q: Seq<char>|
            #[trigger]
            is_pattern(p, q) && one_text(f.identity->0, q),
        rules::match_holds(Match::Container(p), f) <==> f.container is Some && exists|q: Seq<char>|
            #[trigger]
            is_pattern(p, q) && one_text(f.container->0, q),
{
    let script = rules::field_texts(f, Field::Script);
    assert(f.script is Some ==> script.len() == 1 && script[0] == f.script->0);
    assert(f.script is None ==> script.len() == 0);
    lemma_some_hit(Op::Equal, p, script);
    let identity = rules::field_texts(f, Field::Identity);
    assert(f.identity is Some ==> identity.len() == 1 && identity[0] == f.identity->0);
    assert(f.identity is None ==> identity.len() == 0);
    lemma_some_hit(Op::Equal, p, identity);
    let container = rules::field_texts(f, Field::Container);
    assert(f.container is Some ==> container.len() == 1 && container[0] == f.container->0);
    assert(f.container is None ==> container.len() == 0);
    lemma_some_hit(Op::Equal, p, container);
}

/// A text found anywhere in an argument, a name, the control group or the
/// unit is found, whatever stands before it and after it.
pub proof fn law_a_part_is_found_anywhere(
    p: Pat,
    q: Seq<char>,
    a: Seq<char>,
    m: Seq<char>,
    b: Seq<char>,
    f: FactsView,
)
    requires
        is_pattern(p, q),
        one_text(m, q),
    ensures
        f.argv.contains(a + m + b) ==> rules::match_holds(Match::ArgContains(p), f),
        f.comm == a + m + b || f.name == a + m + b ==> rules::match_holds(
            Match::NameContains(p),
            f,
        ),
        f.cgroup == a + m + b ==> rules::match_holds(Match::CgroupContains(p), f),
        f.unit == Some(a + m + b) ==> rules::match_holds(Match::UnitContains(p), f),
        f.exe == Some(a + m + b) ==> rules::match_holds(Match::ExeContains(p), f),
{
    law_tests_on_the_arguments(p, f);
    law_tests_on_the_name(p, f);
    law_tests_on_the_control_group(p, f);
    law_tests_on_the_executable(p, f);
    assert(holds(a + m + b, q));
    if f.argv.contains(a + m + b) {
        let i = choose|i: int| 0 <= i < f.argv.len() && f.argv[i] == a + m + b;
        assert(is_pattern(p, q) && holds(f.argv[i], q));
    }
}

/// One more test narrows an `all` and widens an `any` by exactly what it says;
/// an empty `all` holds, an empty `any` does not; `not` says the opposite.
pub proof fn law_tests_combine(v: Vec<Match>, u: Vec<Match>, m: Match, f: FactsView)
    requires
        u@ == v@.push(m),
    ensures
        rules::match_holds(Match::All(u), f) <==> rules::match_holds(Match::All(v), f)
            && rules::match_holds(m, f),
        rules::match_holds(Match::Any(u), f) <==> rules::match_holds(Match::Any(v), f)
            || rules::match_holds(m, f),
        v@.len() == 0 ==> rules::match_holds(Match::All(v), f),
        v@.len() == 0 ==> !rules::match_holds(Match::Any(v), f),
        rules::match_holds(Match::Not(Box::new(m)), f) <==> !rules::match_holds(m, f),
{
    let (all_u, all_v) = (Match::All(u), Match::All(v));
    let (any_u, any_v) = (Match::Any(u), Match::Any(v));
    assert(all_u is All && all_u->All_0 == u && all_v is All && all_v->All_0 == v);
    assert(any_u is Any && any_u->Any_0 == u && any_v is Any && any_v->Any_0 == v);
    assert(rules::match_holds(all_u, f) == (forall|i: int|
        0 <= i < u@.len() ==> rules::match_holds(#[trigger] u@[i], f)));
    assert(rules::match_holds(all_v, f) == (forall|i: int|
        0 <= i < v@.len() ==> rules::match_holds(#[trigger] v@[i], f)));
    assert(rules::match_holds(any_u, f) == (exists|i: int|
        0 <= i < u@.len() && rules::match_holds(#[trigger] u@[i], f)));
    assert(rules::match_holds(any_v, f) == (exists|i: int|
        0 <= i < v@.len() && rules::match_holds(#[trigger] v@[i], f)));
    let n = v@.len() as int;
    assert(u@[n] == m);
    assert forall|k: int| 0 <= k < n implies u@[k] == v@[k] by {}
    if rules::match_holds(Match::All(u), f) {
        assert(rules::match_holds(u@[n], f));
        assert forall|k: int| 0 <= k < v@.len() implies rules::match_holds(#[trigger] v@[k], f) by {
            assert(rules::match_holds(u@[k], f));
        }
    }
    if rules::match_holds(Match::All(v), f) && rules::match_holds(m, f) {
        assert forall|k: int| 0 <= k < u@.len() implies rules::match_holds(#[trigger] u@[k], f) by {
            if k < n {
                assert(rules::match_holds(v@[k], f));
            }
        }
    }
    if rules::match_holds(Match::Any(u), f) {
        let k = choose|k: int| 0 <= k < u@.len() && rules::match_holds(#[trigger] u@[k], f);
        if k < n {
            assert(rules::match_holds(v@[k], f));
        }
    }
    if rules::match_holds(Match::Any(v), f) {
        let k = choose|k: int| 0 <= k < v@.len() && rules::match_holds(#[trigger] v@[k], f);
        assert(rules::match_holds(u@[k], f));
    }
    if rules::match_holds(m, f) {
        assert(rules::match_holds(u@[n], f));
    }
}

} // verus!
