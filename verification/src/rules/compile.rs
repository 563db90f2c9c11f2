//! Rules in the form they are evaluated in: patterns with case folded away,
//! equality patterns sorted by length.
use vstd::prelude::*;

use crate::rules::{Class, Classes, FactsView, Facts, Field, FolderName, Match, Op, Pat, Rule,
    RuleFile, Source, Stage, UnitFlag, UnitFlags};
use crate::rules;
use crate::text;

verus! {

/// A test ready to run.
#[derive(Debug)]
pub enum Test {
    Str(Field, Op, Vec<Vec<char>>),
    /// Equality, with the patterns of length `n` in place `n`.
    Eq(Field, Vec<Vec<Vec<char>>>),
    All(Vec<Test>),
    Any(Vec<Test>),
    Not(Box<Test>),
}

/// Each text with case folded away.
pub open spec fn low_all(hay: Seq<Seq<char>>) -> Seq<Seq<char>> {
    Seq::new(hay.len(), |i: int| text::lowered(hay[i]))
}

/// Some pattern stands in some text as `o` asks, both already folded.
pub open spec fn low_hit(o: Op, pats: Seq<Seq<char>>, hay: Seq<Seq<char>>) -> bool {
    exists|i: int, j: int|
        0 <= i < hay.len() && 0 <= j < pats.len() && #[trigger] rules::stands(o, pats[j], hay[i])
}

/// `h` is among the patterns of its length.
pub open spec fn in_bucket(by_len: Seq<Vec<Vec<char>>>, h: Seq<char>) -> bool {
    h.len() < by_len.len() && text::views(by_len[h.len() as int]@).contains(h)
}

/// Some text is among the patterns of its length.
pub open spec fn some_in_bucket(by_len: Seq<Vec<Vec<char>>>, hay: Seq<Seq<char>>) -> bool {
    exists|i: int| 0 <= i < hay.len() && #[trigger] in_bucket(by_len, hay[i])
}

/// What a compiled test says of a process.
pub open spec fn test_holds(t: Test, f: FactsView) -> bool
    decreases t,
{
    match t {
        Test::Str(field, o, pats) => low_hit(
            o,
            text::views(pats@),
            low_all(rules::field_texts(f, field)),
        ),
        Test::Eq(field, by_len) => some_in_bucket(
            by_len@,
            low_all(rules::field_texts(f, field)),
        ),
        Test::All(v) => forall|i: int| 0 <= i < v@.len() ==> test_holds(#[trigger] v@[i], f),
        Test::Any(v) => exists|i: int| 0 <= i < v@.len() && test_holds(#[trigger] v@[i], f),
        Test::Not(b) => !test_holds(*b, f),
    }
}

/// The texts of each field with case folded away, made once per process.
pub struct Folded {
    name: Vec<Vec<char>>,
    exe: Vec<Vec<char>>,
    arg: Vec<Vec<char>>,
    cgroup: Vec<Vec<char>>,
    unit: Vec<Vec<char>>,
    script: Vec<Vec<char>>,
    identity: Vec<Vec<char>>,
    container: Vec<Vec<char>>,
}

impl Folded {
    pub closed spec fn get_spec(self, field: Field) -> Seq<Seq<char>> {
        match field {
            Field::Name => text::views(self.name@),
            Field::Exe => text::views(self.exe@),
            Field::Arg => text::views(self.arg@),
            Field::Cgroup => text::views(self.cgroup@),
            Field::Unit => text::views(self.unit@),
            Field::Script => text::views(self.script@),
            Field::Identity => text::views(self.identity@),
            Field::Container => text::views(self.container@),
        }
    }

    /// These are the facts `f`, folded.
    pub open spec fn of(self, f: FactsView) -> bool {
        forall|field: Field| #[trigger]
            self.get_spec(field) == low_all(rules::field_texts(f, field))
    }

    fn get(&self, field: Field) -> (r: &Vec<Vec<char>>)
        ensures
            text::views(r@) == self.get_spec(field),
    {
        match field {
            Field::Name => &self.name,
            Field::Exe => &self.exe,
            Field::Arg => &self.arg,
            Field::Cgroup => &self.cgroup,
            Field::Unit => &self.unit,
            Field::Script => &self.script,
            Field::Identity => &self.identity,
            Field::Container => &self.container,
        }
    }
}

fn fold_one(s: &str) -> (r: Vec<Vec<char>>)
    ensures
        text::views(r@) == low_all(seq![s@]),
{
    let mut v: Vec<Vec<char>> = Vec::new();
    v.push(text::folded(s));
    assert(text::views(v@) =~= low_all(seq![s@]));
    v
}

fn fold_opt(s: Option<&str>) -> (r: Vec<Vec<char>>)
    ensures
        text::views(r@) == low_all(rules::opt_seq(text::opt_str(s))),
{
    match s {
        Some(t) => fold_one(t),
        None => {
            let v: Vec<Vec<char>> = Vec::new();
            assert(text::views(v@) =~= low_all(Seq::<Seq<char>>::empty()));
            v
        },
    }
}

fn fold_strings(s: &[String]) -> (r: Vec<Vec<char>>)
    ensures
        text::views(r@) == low_all(text::texts(s@)),
{
    let mut v: Vec<Vec<char>> = Vec::new();
    let mut i: usize = 0;
    while i < s.len()
        invariant
            i <= s.len(),
            v.len() == i,
            forall|j: int| 0 <= j < i ==> v@[j]@ == text::lowered(s@[j]@),
        decreases s.len() - i,
    {
        v.push(text::folded(s[i].as_str()));
        i += 1;
    }
    assert(text::views(v@) =~= low_all(text::texts(s@)));
    v
}

/// The facts with case folded away.
pub fn fold(f: &Facts) -> (r: Folded)
    ensures
        r.of(f@),
{
    let mut name: Vec<Vec<char>> = Vec::new();
    name.push(text::folded(f.comm));
    name.push(text::folded(f.name));
    assert(text::views(name@) =~= low_all(seq![f.comm@, f.name@]));
    let r = Folded {
        name,
        exe: fold_opt(f.exe),
        arg: fold_strings(f.argv),
        cgroup: fold_one(f.cgroup),
        unit: fold_opt(f.unit),
        script: fold_opt(f.script),
        identity: fold_opt(f.identity),
        container: fold_opt(f.container),
    };
    assert forall|field: Field| #[trigger]
        r.get_spec(field) == low_all(rules::field_texts(f@, field)) by {
        match field {
            Field::Name => {},
            Field::Exe => {},
            Field::Arg => {},
            Field::Cgroup => {},
            Field::Unit => {},
            Field::Script => {},
            Field::Identity => {},
            Field::Container => {},
        }
    }
    r
}

/// Whether `p` stands in `h` as `o` asks.
fn op(o: Op, p: &[char], h: &[char]) -> (r: bool)
    ensures
        r == rules::stands(o, p@, h@),
{
    match o {
        Op::Equal => text::same(h, p),
        Op::Prefix => text::prefixed(h, p),
        Op::Suffix => text::suffixed(h, p),
        Op::Contains => text::infixed(h, p),
    }
}

fn hit(o: Op, pats: &Vec<Vec<char>>, hay: &Vec<Vec<char>>) -> (r: bool)
    ensures
        r == low_hit(o, text::views(pats@), text::views(hay@)),
{
    let ghost pv = text::views(pats@);
    let ghost hv = text::views(hay@);
    let mut i: usize = 0;
    while i < hay.len()
        invariant
            i <= hay.len(),
            pv == text::views(pats@),
            hv == text::views(hay@),
            forall|a: int, b: int|
                0 <= a < i && 0 <= b < pv.len() ==> !#[trigger] rules::stands(o, pv[b], hv[a]),
        decreases hay.len() - i,
    {
        let mut j: usize = 0;
        while j < pats.len()
            invariant
                i < hay.len(),
                j <= pats.len(),
                pv == text::views(pats@),
                hv == text::views(hay@),
                forall|a: int, b: int|
                    0 <= a < i && 0 <= b < pv.len() ==> !#[trigger] rules::stands(
                        o,
                        pv[b],
                        hv[a],
                    ),
                forall|b: int|
                    0 <= b < j ==> !#[trigger] rules::stands(o, pv[b], hv[i as int]),
            decreases pats.len() - j,
        {
            if op(o, pats[j].as_slice(), hay[i].as_slice()) {
                assert(rules::stands(o, pv[j as int], hv[i as int]));
                return true;
            }
            j += 1;
        }
        i += 1;
    }
    false
}

fn bucket_hit(by_len: &Vec<Vec<Vec<char>>>, hay: &Vec<Vec<char>>) -> (r: bool)
    ensures
        r == some_in_bucket(by_len@, text::views(hay@)),
{
    let ghost hv = text::views(hay@);
    let mut i: usize = 0;
    while i < hay.len()
        invariant
            i <= hay.len(),
            hv == text::views(hay@),
            forall|a: int| 0 <= a < i ==> !#[trigger] in_bucket(by_len@, hv[a]),
        decreases hay.len() - i,
    {
        let h = &hay[i];
        assert(hv[i as int] == h@);
        let n: usize = h.len();
        if n < by_len.len() {
            let pats = &by_len[n];
            let mut j: usize = 0;
            while j < pats.len()
                invariant
                    j <= pats.len(),
                    n < by_len.len(),
                    n == h@.len(),
                    i < hay.len(),
                    hv == text::views(hay@),
                    hv[i as int] == h@,
                    *pats == by_len@[n as int],
                    forall|b: int| 0 <= b < j ==> text::views(pats@)[b] != h@,
                decreases pats.len() - j,
            {
                if text::same(pats[j].as_slice(), h.as_slice()) {
                    assert(text::views(pats@)[j as int] == h@);
                    assert(in_bucket(by_len@, hv[i as int]));
                    return true;
                }
                j += 1;
            }
        }
        assert(!in_bucket(by_len@, hv[i as int]));
        i += 1;
    }
    false
}

/// Whether a compiled test holds of the folded facts.
#[verifier::loop_isolation(false)]
pub(crate) fn eval(t: &Test, f: &Folded, Ghost(facts): Ghost<FactsView>) -> (r: bool)
    requires
        f.of(facts),
    ensures
        r == test_holds(*t, facts),
    decreases t,
{
    match t {
        Test::Str(field, o, pats) => hit(*o, pats, f.get(*field)),
        Test::Eq(field, by_len) => bucket_hit(by_len, f.get(*field)),
        Test::All(v) => {
            let mut i: usize = 0;
            while i < v.len()
                invariant
                    i <= v.len(),
                    forall|j: int| 0 <= j < i ==> test_holds(#[trigger] v@[j], facts),
                decreases v.len() - i,
            {
                if !eval(&v[i], f, Ghost(facts)) {
                    return false;
                }
                i += 1;
            }
            true
        },
        Test::Any(v) => {
            let mut i: usize = 0;
            while i < v.len()
                invariant
                    i <= v.len(),
                    forall|j: int| 0 <= j < i ==> !test_holds(#[trigger] v@[j], facts),
                decreases v.len() - i,
            {
                if eval(&v[i], f, Ghost(facts)) {
                    return true;
                }
                i += 1;
            }
            false
        },
        Test::Not(b) => !eval(b, f, Ghost(facts)),
    }
}

// ---------------------------------------------------------------------------
// Compiling a test
// ---------------------------------------------------------------------------

/// What is wrong with a list of patterns.
pub open spec fn pat_error(p: Pat) -> Option<Seq<char>> {
    let v = rules::pat_texts(p);
    if v.len() == 0 {
        Some("empty pattern list"@)
    } else if exists|i: int| 0 <= i < v.len() && #[trigger] v[i].len() == 0 {
        Some("empty string pattern"@)
    } else {
        None
    }
}

/// What is wrong with a test: the first fault in reading order.
pub open spec fn match_error(m: Match) -> Option<Seq<char>>
    decreases m,
{
    match m {
        Match::All(v) => if v@.len() == 0 {
            Some("empty all"@)
        } else {
            matches_error(v@)
        },
        Match::Any(v) => if v@.len() == 0 {
            Some("empty any"@)
        } else {
            matches_error(v@)
        },
        Match::Not(b) => match_error(*b),
        _ => {
            let (_, _, p) = rules::leaf_of(m)->0;
            pat_error(p)
        },
    }
}

/// The first fault of several tests.
pub open spec fn matches_error(v: Seq<Match>) -> Option<Seq<char>>
    decreases v,
{
    if v.len() == 0 {
        None
    } else {
        match match_error(v[0]) {
            Some(e) => Some(e),
            None => matches_error(v.drop_first()),
        }
    }
}

/// A test looks at a field, at any depth.
pub open spec fn uses_field(m: Match, field: Field) -> bool
    decreases m,
{
    match m {
        Match::All(v) => exists|i: int| 0 <= i < v@.len() && uses_field(#[trigger] v@[i], field),
        Match::Any(v) => exists|i: int| 0 <= i < v@.len() && uses_field(#[trigger] v@[i], field),
        Match::Not(b) => uses_field(*b, field),
        _ => {
            let (at, _, _) = rules::leaf_of(m)->0;
            at == field
        },
    }
}

/// A test looks at what only placement rules may look at.
pub open spec fn uses_placement_key(m: Match) -> bool {
    uses_field(m, Field::Identity) || uses_field(m, Field::Container)
}

/// Fields that only some rules may test, noted while a rule is compiled.
struct CompileCtx {
    uses_script: bool,
    uses_identity: bool,
    uses_container: bool,
}

/// The patterns of a list with case folded away.
fn pat(p: &Pat) -> (r: Result<Vec<Vec<char>>, String>)
    ensures
        match r {
            Ok(v) => pat_error(*p) is None && text::views(v@) == low_all(rules::pat_texts(*p)),
            Err(e) => pat_error(*p) == Some(e@),
        },
{
    match p {
        Pat::One(s) => {
            assert(rules::pat_texts(*p)[0] == s@);
            if s.as_str().is_empty() {
                return Err("empty string pattern".to_owned());
            }
            Ok(fold_one(s.as_str()))
        },
        Pat::Many(v) => {
            if v.len() == 0 {
                return Err("empty pattern list".to_owned());
            }
            let mut i: usize = 0;
            while i < v.len()
                invariant
                    i <= v.len(),
                    v.len() > 0,
                    *p == Pat::Many(*v),
                    forall|j: int| 0 <= j < i ==> #[trigger] rules::pat_texts(*p)[j].len() > 0,
                decreases v.len() - i,
            {
                assert(rules::pat_texts(*p)[i as int] == v@[i as int]@);
                if v[i].as_str().is_empty() {
                    return Err("empty string pattern".to_owned());
                }
                i += 1;
            }
            Ok(fold_strings(v.as_slice()))
        },
    }
}

/// The length of the longest pattern.
fn longest(v: &Vec<Vec<char>>) -> (r: usize)
    ensures
        forall|j: int| 0 <= j < v@.len() ==> #[trigger] v@[j]@.len() <= r,
{
    let mut max: usize = 0;
    let mut i: usize = 0;
    while i < v.len()
        invariant
            i <= v.len(),
            forall|j: int| 0 <= j < i ==> #[trigger] v@[j]@.len() <= max,
        decreases v.len() - i,
    {
        if v[i].len() > max {
            max = v[i].len();
        }
        i += 1;
    }
    max
}

/// The patterns sorted by length: a pattern is in the place of its length, and
/// nothing else is in any place.
fn bucket(v: Vec<Vec<char>>) -> (r: Vec<Vec<Vec<char>>>)
    ensures
        forall|h: Seq<char>| #[trigger] in_bucket(r@, h) == text::views(v@).contains(h),
{
    let max: usize = longest(&v);
    let mut out: Vec<Vec<Vec<char>>> = Vec::new();
    let ghost all = text::views(v@);
    let mut n: usize = 0;
    loop
        invariant
            n <= max,
            out@.len() == n,
            all == text::views(v@),
            forall|j: int| 0 <= j < v@.len() ==> #[trigger] v@[j]@.len() <= max,
            forall|h: Seq<char>|
                h.len() < n ==> #[trigger] in_bucket(out@, h) == all.contains(h),
        decreases max - n,
    {
        let mut here: Vec<Vec<char>> = Vec::new();
        let mut i: usize = 0;
        while i < v.len()
            invariant
                i <= v.len(),
                all == text::views(v@),
                forall|k: int|
                    0 <= k < here@.len() ==> (#[trigger] here@[k])@.len() == n && all.contains(
                        here@[k]@,
                    ),
                forall|k: int|
                    0 <= k < i && (#[trigger] all[k]).len() == n ==> text::views(here@).contains(
                        all[k],
                    ),
            decreases v.len() - i,
        {
            let ghost before = text::views(here@);
            assert(all[i as int] == v@[i as int]@);
            if v[i].len() == n {
                let c = text::cut(v[i].as_slice(), 0, n);
                assert(c@ =~= v@[i as int]@);
                here.push(c);
                proof {
                    let after = text::views(here@);
                    assert(after =~= before.push(all[i as int]));
                    assert(after[before.len() as int] == all[i as int]);
                    assert forall|k: int|
                        0 <= k < i + 1 && (#[trigger] all[k]).len() == n implies after.contains(
                        all[k],
                    ) by {
                        if k < i {
                            let w = choose|w: int| 0 <= w < before.len() && before[w] == all[k];
                            assert(after[w] == all[k]);
                        }
                    }
                }
            }
            i += 1;
        }
        let ghost prev = out@;
        let ghost hv = text::views(here@);
        out.push(here);
        proof {
            assert forall|h: Seq<char>| h.len() < n + 1 implies #[trigger] in_bucket(out@, h)
                == all.contains(h) by {
                if h.len() < n {
                    assert(out@[h.len() as int] == prev[h.len() as int]);
                    assert(in_bucket(prev, h) == all.contains(h));
                } else {
                    assert(text::views(out@[h.len() as int]@) =~= hv);
                    if all.contains(h) {
                        let k = choose|k: int| 0 <= k < all.len() && all[k] == h;
                        assert(hv.contains(all[k]));
                    }
                    if hv.contains(h) {
                        let k = choose|k: int| 0 <= k < hv.len() && hv[k] == h;
                        assert(here@[k]@ == h);
                    }
                }
            }
        }
        if n == max {
            proof {
                assert forall|h: Seq<char>| #[trigger] in_bucket(out@, h) == all.contains(h) by {
                    if h.len() > max && all.contains(h) {
                        let k = choose|k: int| 0 <= k < all.len() && all[k] == h;
                        assert(v@[k]@.len() <= max);
                    }
                }
            }
            return out;
        }
        n += 1;
    }
}

proof fn lemma_hit_folded(o: Op, pats: Seq<Seq<char>>, hay: Seq<Seq<char>>)
    ensures
        low_hit(o, low_all(pats), low_all(hay)) == rules::some_hit(o, pats, hay),
{
    let lp = low_all(pats);
    let lh = low_all(hay);
    if low_hit(o, lp, lh) {
        let (i, j) = choose|i: int, j: int|
            0 <= i < lh.len() && 0 <= j < lp.len() && #[trigger] rules::stands(o, lp[j], lh[i]);
        assert(rules::op_holds(o, pats[j], hay[i]));
    }
    if rules::some_hit(o, pats, hay) {
        let (i, j) = choose|i: int, j: int|
            0 <= i < hay.len() && 0 <= j < pats.len() && #[trigger] rules::op_holds(
                o,
                pats[j],
                hay[i],
            );
        assert(rules::stands(o, lp[j], lh[i]));
    }
}

proof fn lemma_bucket_folded(
    by_len: Seq<Vec<Vec<char>>>,
    pats: Seq<Seq<char>>,
    hay: Seq<Seq<char>>,
)
    requires
        forall|h: Seq<char>| #[trigger] in_bucket(by_len, h) == low_all(pats).contains(h),
    ensures
        some_in_bucket(by_len, low_all(hay)) == rules::some_hit(Op::Equal, pats, hay),
{
    let lp = low_all(pats);
    let lh = low_all(hay);
    if some_in_bucket(by_len, lh) {
        let i = choose|i: int| 0 <= i < lh.len() && #[trigger] in_bucket(by_len, lh[i]);
        let j = choose|j: int| 0 <= j < lp.len() && lp[j] == lh[i];
        assert(rules::op_holds(Op::Equal, pats[j], hay[i]));
    }
    if rules::some_hit(Op::Equal, pats, hay) {
        let (i, j) = choose|i: int, j: int|
            0 <= i < hay.len() && 0 <= j < pats.len() && #[trigger] rules::op_holds(
                Op::Equal,
                pats[j],
                hay[i],
            );
        assert(lp[j] == lh[i]);
        assert(in_bucket(by_len, lh[i]));
    }
}

/// A test on one field.
fn compile_leaf(field: Field, o: Op, p: &Pat) -> (r: Result<Test, String>)
    ensures
        match r {
            Ok(t) => pat_error(*p) is None && forall|f: FactsView| #[trigger]
                test_holds(t, f) == rules::some_hit(
                    o,
                    rules::pat_texts(*p),
                    rules::field_texts(f, field),
                ),
            Err(e) => pat_error(*p) == Some(e@),
        },
{
    let v = match pat(p) {
        Ok(v) => v,
        Err(e) => return Err(e),
    };
    let ghost pats = rules::pat_texts(*p);
    if o == Op::Equal {
        let by_len = bucket(v);
        let t = Test::Eq(field, by_len);
        assert forall|f: FactsView| #[trigger] test_holds(t, f) == rules::some_hit(
            o,
            pats,
            rules::field_texts(f, field),
        ) by {
            lemma_bucket_folded(by_len@, pats, rules::field_texts(f, field));
        }
        Ok(t)
    } else {
        let t = Test::Str(field, o, v);
        assert forall|f: FactsView| #[trigger] test_holds(t, f) == rules::some_hit(
            o,
            pats,
            rules::field_texts(f, field),
        ) by {
            lemma_hit_folded(o, pats, rules::field_texts(f, field));
        }
        Ok(t)
    }
}

/// The field, the relation and the patterns of a test on one field.
fn leaf(m: &Match) -> (r: Option<(Field, Op, &Pat)>)
    ensures
        match r {
            Some((field, o, p)) => rules::leaf_of(*m) == Some((field, o, *p)),
            None => rules::leaf_of(*m) is None,
        },
{
    match m {
        Match::Name(p) => Some((Field::Name, Op::Equal, p)),
        Match::NamePrefix(p) => Some((Field::Name, Op::Prefix, p)),
        Match::NameSuffix(p) => Some((Field::Name, Op::Suffix, p)),
        Match::NameContains(p) => Some((Field::Name, Op::Contains, p)),
        Match::ExePrefix(p) => Some((Field::Exe, Op::Prefix, p)),
        Match::ExeSuffix(p) => Some((Field::Exe, Op::Suffix, p)),
        Match::ExeContains(p) => Some((Field::Exe, Op::Contains, p)),
        Match::ArgPrefix(p) => Some((Field::Arg, Op::Prefix, p)),
        Match::ArgContains(p) => Some((Field::Arg, Op::Contains, p)),
        Match::CgroupContains(p) => Some((Field::Cgroup, Op::Contains, p)),
        Match::Unit(p) => Some((Field::Unit, Op::Equal, p)),
        Match::UnitPrefix(p) => Some((Field::Unit, Op::Prefix, p)),
        Match::UnitSuffix(p) => Some((Field::Unit, Op::Suffix, p)),
        Match::UnitContains(p) => Some((Field::Unit, Op::Contains, p)),
        Match::Script(p) => Some((Field::Script, Op::Equal, p)),
        Match::Identity(p) => Some((Field::Identity, Op::Equal, p)),
        Match::Container(p) => Some((Field::Container, Op::Equal, p)),
        Match::All(_) | Match::Any(_) | Match::Not(_) => None,
    }
}

/// Lists that agree member by member agree as conjunctions and disjunctions.
proof fn lemma_lists_agree(v: Vec<Match>, w: Vec<Test>, f: FactsView)
    requires
        v@.len() == w@.len(),
        forall|j: int|
            0 <= j < w@.len() ==> #[trigger] test_holds(w@[j], f) == rules::match_holds(v@[j], f),
    ensures
        test_holds(Test::All(w), f) == rules::match_holds(Match::All(v), f),
        test_holds(Test::Any(w), f) == rules::match_holds(Match::Any(v), f),
{
    let (ma, my) = (Match::All(v), Match::Any(v));
    let (ta, ty) = (Test::All(w), Test::Any(w));
    assert(ma is All && ma->All_0 == v);
    assert(my is Any && my->Any_0 == v);
    assert(ta is All && ta->All_0 == w);
    assert(ty is Any && ty->Any_0 == w);
    assert(rules::match_holds(ma, f) == (forall|i: int|
        0 <= i < v@.len() ==> rules::match_holds(#[trigger] v@[i], f)));
    assert(rules::match_holds(my, f) == (exists|i: int|
        0 <= i < v@.len() && rules::match_holds(#[trigger] v@[i], f)));
    assert(test_holds(ta, f) == (forall|i: int|
        0 <= i < w@.len() ==> test_holds(#[trigger] w@[i], f)));
    assert(test_holds(ty, f) == (exists|i: int|
        0 <= i < w@.len() && test_holds(#[trigger] w@[i], f)));
    assert forall|j: int| 0 <= j < v@.len() implies #[trigger] rules::match_holds(v@[j], f)
        == test_holds(w@[j], f) by {
        assert(test_holds(w@[j], f) == rules::match_holds(v@[j], f));
    }
    if rules::match_holds(ma, f) {
        assert forall|j: int| 0 <= j < w@.len() implies test_holds(#[trigger] w@[j], f) by {
            assert(rules::match_holds(v@[j], f));
        }
    }
    if test_holds(ta, f) {
        assert forall|j: int| 0 <= j < v@.len() implies rules::match_holds(
            #[trigger] v@[j],
            f,
        ) by {
            assert(test_holds(w@[j], f));
        }
    }
    if rules::match_holds(my, f) {
        let j = choose|j: int| 0 <= j < v@.len() && rules::match_holds(#[trigger] v@[j], f);
        assert(test_holds(w@[j], f));
    }
    if test_holds(ty, f) {
        let j = choose|j: int| 0 <= j < w@.len() && test_holds(#[trigger] w@[j], f);
        assert(rules::match_holds(v@[j], f));
    }
}

/// Some test of the list looks at a field.
pub open spec fn list_uses(v: Seq<Match>, field: Field, n: int) -> bool {
    exists|j: int| 0 <= j < n && uses_field(#[trigger] v[j], field)
}

/// The flags after a compilation that went through: what was noted before, and
/// what the test looks at.
spec fn noted(before: CompileCtx, after: CompileCtx, s: bool, i: bool, c: bool) -> bool {
    &&& after.uses_script == (before.uses_script || s)
    &&& after.uses_identity == (before.uses_identity || i)
    &&& after.uses_container == (before.uses_container || c)
}

/// Every test of a list, compiled; or the first fault.
#[verifier::loop_isolation(false)]
fn compile_list(v: &Vec<Match>, ctx: &mut CompileCtx) -> (r: Result<Vec<Test>, String>)
    ensures
        match r {
            Ok(w) => {
                &&& matches_error(v@) is None
                &&& w@.len() == v@.len()
                &&& forall|j: int, f: FactsView|
                    0 <= j < w@.len() ==> #[trigger] test_holds(w@[j], f) == rules::match_holds(
                        v@[j],
                        f,
                    )
                &&& noted(
                    *old(ctx),
                    *final(ctx),
                    list_uses(v@, Field::Script, v@.len() as int),
                    list_uses(v@, Field::Identity, v@.len() as int),
                    list_uses(v@, Field::Container, v@.len() as int),
                )
            },
            Err(e) => matches_error(v@) == Some(e@),
        },
    decreases v,
{
    let mut out: Vec<Test> = Vec::new();
    let mut i: usize = 0;
    assert(v@.skip(0) =~= v@);
    while i < v.len()
        invariant
            i <= v.len(),
            out.len() == i,
            matches_error(v@) == matches_error(v@.skip(i as int)),
            forall|j: int, f: FactsView|
                0 <= j < i ==> #[trigger] test_holds(out@[j], f) == rules::match_holds(v@[j], f),
            noted(
                *old(ctx),
                *ctx,
                list_uses(v@, Field::Script, i as int),
                list_uses(v@, Field::Identity, i as int),
                list_uses(v@, Field::Container, i as int),
            ),
        decreases v.len() - i,
    {
        let ghost rest = v@.skip(i as int);
        assert(rest[0] == v@[i as int]);
        assert(rest.drop_first() =~= v@.skip(i + 1));
        let ghost before = *ctx;
        match compile_match(&v[i], ctx) {
            Ok(t) => out.push(t),
            Err(e) => return Err(e),
        }
        proof {
            lemma_uses_step(v@, Field::Script, i as int);
            lemma_uses_step(v@, Field::Identity, i as int);
            lemma_uses_step(v@, Field::Container, i as int);
        }
        i += 1;
    }
    Ok(out)
}

proof fn lemma_uses_step(v: Seq<Match>, field: Field, i: int)
    requires
        0 <= i < v.len(),
    ensures
        list_uses(v, field, i + 1) == (list_uses(v, field, i) || uses_field(v[i], field)),
{
    if list_uses(v, field, i + 1) {
        let j = choose|j: int| 0 <= j < i + 1 && uses_field(#[trigger] v[j], field);
        assert(j < i || j == i);
    }
}

/// What a list of tests uses, its conjunction and disjunction use.
proof fn lemma_uses_list(v: Vec<Match>, field: Field)
    ensures
        uses_field(Match::All(v), field) == list_uses(v@, field, v@.len() as int),
        uses_field(Match::Any(v), field) == list_uses(v@, field, v@.len() as int),
{
    let (ma, my) = (Match::All(v), Match::Any(v));
    assert(ma is All && ma->All_0 == v);
    assert(my is Any && my->Any_0 == v);
    assert(uses_field(ma, field) == (exists|i: int|
        0 <= i < v@.len() && uses_field(#[trigger] v@[i], field)));
    assert(uses_field(my, field) == (exists|i: int|
        0 <= i < v@.len() && uses_field(#[trigger] v@[i], field)));
}

/// A test in the form it is run in, with the same meaning; or the first fault.
fn compile_match(m: &Match, ctx: &mut CompileCtx) -> (r: Result<Test, String>)
    ensures
        match r {
            Ok(t) => {
                &&& match_error(*m) is None
                &&& forall|f: FactsView| #[trigger] test_holds(t, f) == rules::match_holds(*m, f)
                &&& noted(
                    *old(ctx),
                    *final(ctx),
                    uses_field(*m, Field::Script),
                    uses_field(*m, Field::Identity),
                    uses_field(*m, Field::Container),
                )
            },
            Err(e) => match_error(*m) == Some(e@),
        },
    decreases m,
{
    match m {
        Match::All(v) => {
            if v.len() == 0 {
                return Err("empty all".to_owned());
            }
            match compile_list(v, ctx) {
                Ok(w) => {
                    let t = Test::All(w);
                    proof {
                        assert forall|f: FactsView| #[trigger] test_holds(t, f)
                            == rules::match_holds(*m, f) by {
                            lemma_lists_agree(*v, w, f);
                        }
                        lemma_uses_list(*v, Field::Script);
                        lemma_uses_list(*v, Field::Identity);
                        lemma_uses_list(*v, Field::Container);
                    }
                    Ok(t)
                },
                Err(e) => Err(e),
            }
        },
        Match::Any(v) => {
            if v.len() == 0 {
                return Err("empty any".to_owned());
            }
            match compile_list(v, ctx) {
                Ok(w) => {
                    let t = Test::Any(w);
                    proof {
                        assert forall|f: FactsView| #[trigger] test_holds(t, f)
                            == rules::match_holds(*m, f) by {
                            lemma_lists_agree(*v, w, f);
                        }
                        lemma_uses_list(*v, Field::Script);
                        lemma_uses_list(*v, Field::Identity);
                        lemma_uses_list(*v, Field::Container);
                    }
                    Ok(t)
                },
                Err(e) => Err(e),
            }
        },
        Match::Not(b) => match compile_match(b, ctx) {
            Ok(t) => {
                let n = Test::Not(Box::new(t));
                assert forall|f: FactsView| #[trigger] test_holds(n, f) == rules::match_holds(
                    *m,
                    f,
                ) by {
                    assert(test_holds(t, f) == rules::match_holds(**b, f));
                }
                Ok(n)
            },
            Err(e) => Err(e),
        },
        _ => match leaf(m) {
            Some((field, o, p)) => {
                match field {
                    Field::Script => ctx.uses_script = true,
                    Field::Identity => ctx.uses_identity = true,
                    Field::Container => ctx.uses_container = true,
                    _ => {},
                }
                compile_leaf(field, o, p)
            },
            None => Err(String::new()),
        },
    }
}

// ---------------------------------------------------------------------------
// Compiling a rule
// ---------------------------------------------------------------------------

/// A value alone, or nothing.
pub open spec fn listed(v: Option<Seq<char>>) -> Seq<Seq<char>> {
    match v {
        Some(s) => seq![s],
        None => Seq::empty(),
    }
}

fn push_names(v: &mut Vec<String>, names: &Vec<&'static str>)
    ensures
        text::texts(final(v)@) == text::texts(old(v)@) + rules::slices(names@),
{
    let ghost start = text::texts(v@);
    let ghost all = rules::slices(names@);
    let mut i: usize = 0;
    assert(start + all.take(0) =~= start);
    while i < names.len()
        invariant
            i <= names@.len(),
            all == rules::slices(names@),
            text::texts(v@) == start + all.take(i as int),
        decreases names.len() - i,
    {
        let ghost before = text::texts(v@);
        assert(all[i as int] == names@[i as int]@);
        v.push(names[i].to_owned());
        assert(text::texts(v@) =~= before.push(all[i as int]));
        assert(start + all.take(i + 1) =~= (start + all.take(i as int)).push(all[i as int]));
        i += 1;
    }
    assert(all.take(i as int) =~= all);
}

/// A rule ready to run.
#[derive(Debug)]
pub struct Compiled {
    pub source: Source,
    pub file: String,
    pub id: String,
    pub test: Test,
    pub identity: Option<String>,
    pub folder: Option<FolderName>,
    pub fold_to: Option<String>,
    pub owner_uid: Option<u32>,
    pub classes: Classes,
    pub flags: UnitFlags,
}

/// A rule's name: its file, a colon, its id.
pub open spec fn full_name(file: Seq<char>, id: Seq<char>) -> Seq<char> {
    file + ":"@ + id
}

impl Compiled {
    /// The rule's test holds of the facts.
    pub open spec fn matches(self, f: FactsView) -> bool {
        test_holds(self.test, f)
    }

    pub open spec fn name_spec(self) -> Seq<char> {
        full_name(self.file@, self.id@)
    }

    #[must_use]
    pub fn name(&self) -> (r: String)
        ensures
            r@ == self.name_spec(),
    {
        let mut out = self.file.clone();
        out.append(":");
        out.append(self.id.as_str());
        out
    }

    /// What the rule gives: the values it sets, in order.
    pub open spec fn given(self) -> Seq<Seq<char>> {
        listed(text::opt_text(self.identity)) + listed(
            match self.folder {
                Some(f) => Some(rules::folder_label(f)),
                None => None,
            },
        ) + listed(text::opt_text(self.fold_to)) + listed(
            match self.owner_uid {
                Some(u) => Some(text::decimal(u as nat)),
                None => None,
            },
        ) + rules::class_names_upto(self.classes.0, 11) + rules::flag_names(self.flags.0)
    }

    /// What the rule gives, in one line.
    #[must_use]
    pub fn outputs(&self) -> (r: String)
        ensures
            r@ == text::joined_with(self.given(), " "@),
    {
        let mut v: Vec<String> = Vec::new();
        if let Some(s) = &self.identity {
            v.push(s.clone());
        }
        if let Some(f) = self.folder {
            v.push(rules::folder_name(f).to_owned());
        }
        if let Some(s) = &self.fold_to {
            v.push(s.clone());
        }
        if let Some(u) = self.owner_uid {
            v.push(text::number_text(u as u64));
        }
        assert(text::texts(v@) =~= listed(text::opt_text(self.identity)) + listed(
            match self.folder {
                Some(f) => Some(rules::folder_label(f)),
                None => None,
            },
        ) + listed(text::opt_text(self.fold_to)) + listed(
            match self.owner_uid {
                Some(u) => Some(text::decimal(u as nat)),
                None => None,
            },
        ));
        push_names(&mut v, &self.classes.names());
        push_names(&mut v, &self.flags.names());
        text::join(&v, " ")
    }

    /// Whether the rule's test holds of the folded facts.
    pub(crate) fn fires(&self, f: &Folded, Ghost(facts): Ghost<FactsView>) -> (r: bool)
        requires
            f.of(facts),
        ensures
            r == self.matches(facts),
    {
        eval(&self.test, f, Ghost(facts))
    }

    /// This is the rule `r` of the given file and source: it carries the same
    /// id and outputs, and its test means what the rule's test means.
    pub open spec fn is_rule(self, r: Rule, file: Seq<char>, source: Source) -> bool {
        &&& self.source.same_as(source)
        &&& self.file@ == file
        &&& self.id@ == r.id@
        &&& text::opt_text(self.identity) == text::opt_text(r.identity)
        &&& self.folder == r.folder
        &&& text::opt_text(self.fold_to) == text::opt_text(r.fold_to)
        &&& self.owner_uid == r.owner_uid
        &&& self.classes.0 == classes_bits(r.classes@)
        &&& self.flags.0 == flags_bits(r.flags@)
        &&& forall|f: FactsView| #[trigger] self.matches(f) == rules::match_holds(r.test, f)
    }
}

/// The set of several classes.
pub open spec fn classes_bits(v: Seq<Class>) -> u16
    decreases v.len(),
{
    if v.len() == 0 {
        0
    } else {
        classes_bits(v.drop_last()) | rules::class_bit(v.last())
    }
}

/// The set of several flags.
pub open spec fn flags_bits(v: Seq<UnitFlag>) -> u8
    decreases v.len(),
{
    if v.len() == 0 {
        0
    } else {
        flags_bits(v.drop_last()) | rules::flag_bit(v.last())
    }
}

pub fn classes_of(v: &Vec<Class>) -> (r: Classes)
    ensures
        r.0 == classes_bits(v@),
{
    let mut out: u16 = 0;
    let mut i: usize = 0;
    while i < v.len()
        invariant
            i <= v.len(),
            out == classes_bits(v@.take(i as int)),
        decreases v.len() - i,
    {
        out = out | Classes::bit(v[i]);
        assert(v@.take(i + 1).drop_last() =~= v@.take(i as int));
        i += 1;
    }
    assert(v@.take(i as int) =~= v@);
    Classes(out)
}

pub fn flags_of(v: &Vec<UnitFlag>) -> (r: UnitFlags)
    ensures
        r.0 == flags_bits(v@),
{
    let mut out: u8 = 0;
    let mut i: usize = 0;
    while i < v.len()
        invariant
            i <= v.len(),
            out == flags_bits(v@.take(i as int)),
        decreases v.len() - i,
    {
        out = out | match v[i] {
            UnitFlag::Lying => UnitFlags::LYING,
            UnitFlag::Service => UnitFlags::SERVICE,
        };
        assert(v@.take(i + 1).drop_last() =~= v@.take(i as int));
        i += 1;
    }
    assert(v@.take(i as int) =~= v@);
    UnitFlags(out)
}

/// What a rule can give a process.
#[derive(Clone, Copy, PartialEq, Eq, Debug, Structural)]
pub enum Output {
    Identity,
    Folder,
    FoldTo,
    OwnerUid,
    Classes,
    Flags,
}

/// The outputs in the order they are looked at.
pub open spec fn output_at(i: int) -> Output {
    if i == 0 {
        Output::Identity
    } else if i == 1 {
        Output::Folder
    } else if i == 2 {
        Output::FoldTo
    } else if i == 3 {
        Output::OwnerUid
    } else if i == 4 {
        Output::Classes
    } else {
        Output::Flags
    }
}

pub open spec fn output_name(o: Output) -> Seq<char> {
    match o {
        Output::Identity => "identity"@,
        Output::Folder => "folder"@,
        Output::FoldTo => "fold_to"@,
        Output::OwnerUid => "owner_uid"@,
        Output::Classes => "classes"@,
        Output::Flags => "flags"@,
    }
}

/// The rule carries the output.
pub open spec fn gives(r: Rule, o: Output) -> bool {
    match o {
        Output::Identity => r.identity is Some,
        Output::Folder => r.folder is Some,
        Output::FoldTo => r.fold_to is Some,
        Output::OwnerUid => r.owner_uid is Some,
        Output::Classes => r.classes@.len() > 0,
        Output::Flags => r.flags@.len() > 0,
    }
}

/// A rule of the stage must carry the output.
pub open spec fn requires_output(stage: Stage, o: Output) -> bool {
    match stage {
        Stage::Unit => o == Output::Flags,
        Stage::Class => o == Output::Classes,
        Stage::Session => o == Output::Identity || o == Output::Folder,
        Stage::App => o == Output::Identity,
        Stage::Placement => false,
    }
}

/// A rule of the stage may carry the output.
pub open spec fn allows_output(stage: Stage, o: Output) -> bool {
    requires_output(stage, o) || (stage == Stage::Placement && (o == Output::FoldTo || o
        == Output::Folder || o == Output::OwnerUid))
}

pub open spec fn stage_name(stage: Stage) -> Seq<char> {
    match stage {
        Stage::Unit => "Unit"@,
        Stage::Class => "Class"@,
        Stage::Session => "Session"@,
        Stage::App => "App"@,
        Stage::Placement => "Placement"@,
    }
}

/// The first output at or after `i` that the rule carries and its stage does
/// not allow.
pub open spec fn first_stray(stage: Stage, r: Rule, i: int) -> Option<Output>
    decreases 6 - i,
{
    if i >= 6 {
        None
    } else if gives(r, output_at(i)) && !allows_output(stage, output_at(i)) {
        Some(output_at(i))
    } else {
        first_stray(stage, r, i + 1)
    }
}

/// The first output at or after `i` that the stage requires and the rule does
/// not carry.
pub open spec fn first_missing(stage: Stage, r: Rule, i: int) -> Option<Output>
    decreases 6 - i,
{
    if i >= 6 {
        None
    } else if requires_output(stage, output_at(i)) && !gives(r, output_at(i)) {
        Some(output_at(i))
    } else {
        first_missing(stage, r, i + 1)
    }
}

/// A fault of the rule with the given id.
pub open spec fn rule_message(id: Seq<char>, what: Seq<char>) -> Seq<char> {
    "rule "@ + id + ": "@ + what
}

/// What is wrong with a rule of the stage, the id aside: a fault of its test,
/// an output that is not the stage's, an output that is missing, a mixture
/// that placement does not have, a test that only other rules may make.
pub open spec fn rule_fault(stage: Stage, r: Rule) -> Option<Seq<char>> {
    if let Some(e) = match_error(r.test) {
        Some(e)
    } else if let Some(o) = first_stray(stage, r, 0) {
        Some("`"@ + output_name(o) + "` is not an output of stage "@ + stage_name(stage))
    } else if let Some(o) = first_missing(stage, r, 0) {
        Some("stage "@ + stage_name(stage) + " requires `"@ + output_name(o) + "`"@)
    } else if stage == Stage::Placement && r.fold_to is None && r.folder is None && r.owner_uid is None {
        Some("placement needs fold_to, folder or owner_uid"@)
    } else if stage == Stage::Placement && r.owner_uid is Some && (r.fold_to is Some || r.folder is Some) {
        Some("owner_uid cannot be combined with fold_to or folder"@)
    } else if uses_field(r.test, Field::Script) && !(stage == Stage::Class && r.classes@
        == seq![Class::AnonymousScript]) {
        Some("`script` only in a class rule whose classes is [anonymous_script]"@)
    } else if uses_placement_key(r.test) && stage != Stage::Placement {
        Some("`identity`/`container` tests are placement-only"@)
    } else {
        None
    }
}

fn says(id: &str, what: &str) -> (r: String)
    ensures
        r@ == rule_message(id@, what@),
{
    let mut out = "rule ".to_owned();
    out.append(id);
    out.append(": ");
    out.append(what);
    out
}

fn output(i: usize) -> (r: Output)
    ensures
        r == output_at(i as int),
{
    if i == 0 {
        Output::Identity
    } else if i == 1 {
        Output::Folder
    } else if i == 2 {
        Output::FoldTo
    } else if i == 3 {
        Output::OwnerUid
    } else if i == 4 {
        Output::Classes
    } else {
        Output::Flags
    }
}

fn output_label(o: Output) -> (r: &'static str)
    ensures
        r@ == output_name(o),
{
    match o {
        Output::Identity => "identity",
        Output::Folder => "folder",
        Output::FoldTo => "fold_to",
        Output::OwnerUid => "owner_uid",
        Output::Classes => "classes",
        Output::Flags => "flags",
    }
}

pub fn stage_label(stage: Stage) -> (r: &'static str)
    ensures
        r@ == stage_name(stage),
{
    match stage {
        Stage::Unit => "Unit",
        Stage::Class => "Class",
        Stage::Session => "Session",
        Stage::App => "App",
        Stage::Placement => "Placement",
    }
}

fn has_output(r: &Rule, o: Output) -> (b: bool)
    ensures
        b == gives(*r, o),
{
    match o {
        Output::Identity => r.identity.is_some(),
        Output::Folder => r.folder.is_some(),
        Output::FoldTo => r.fold_to.is_some(),
        Output::OwnerUid => r.owner_uid.is_some(),
        Output::Classes => r.classes.len() > 0,
        Output::Flags => r.flags.len() > 0,
    }
}

fn is_required(stage: Stage, o: Output) -> (b: bool)
    ensures
        b == requires_output(stage, o),
{
    match stage {
        Stage::Unit => o == Output::Flags,
        Stage::Class => o == Output::Classes,
        Stage::Session => o == Output::Identity || o == Output::Folder,
        Stage::App => o == Output::Identity,
        Stage::Placement => false,
    }
}

fn is_allowed(stage: Stage, o: Output) -> (b: bool)
    ensures
        b == allows_output(stage, o),
{
    is_required(stage, o) || (stage == Stage::Placement && (o == Output::FoldTo || o
        == Output::Folder || o == Output::OwnerUid))
}

fn find_stray(stage: Stage, r: &Rule) -> (o: Option<Output>)
    ensures
        o == first_stray(stage, *r, 0),
{
    let mut i: usize = 0;
    while i < 6
        invariant
            i <= 6,
            first_stray(stage, *r, 0) == first_stray(stage, *r, i as int),
        decreases 6 - i,
    {
        let o = output(i);
        if has_output(r, o) && !is_allowed(stage, o) {
            return Some(o);
        }
        i += 1;
    }
    None
}

fn find_missing(stage: Stage, r: &Rule) -> (o: Option<Output>)
    ensures
        o == first_missing(stage, *r, 0),
{
    let mut i: usize = 0;
    while i < 6
        invariant
            i <= 6,
            first_missing(stage, *r, 0) == first_missing(stage, *r, i as int),
        decreases 6 - i,
    {
        let o = output(i);
        if is_required(stage, o) && !has_output(r, o) {
            return Some(o);
        }
        i += 1;
    }
    None
}

/// A rule ready to run, or what is wrong with it.
pub fn compile_rule(stage: Stage, r: &Rule, file: &str, source: &Source) -> (out: Result<
    Compiled,
    String,
>)
    ensures
        match out {
            Ok(c) => rule_fault(stage, *r) is None && c.is_rule(*r, file@, *source),
            Err(e) => rule_fault(stage, *r) is Some && e@ == rule_message(
                r.id@,
                rule_fault(stage, *r)->0,
            ),
        },
{
    let id = r.id.as_str();
    let mut ctx = CompileCtx { uses_script: false, uses_identity: false, uses_container: false };
    let test = match compile_match(&r.test, &mut ctx) {
        Ok(t) => t,
        Err(e) => return Err(says(id, e.as_str())),
    };
    if let Some(o) = find_stray(stage, r) {
        let mut what = "`".to_owned();
        what.append(output_label(o));
        what.append("` is not an output of stage ");
        what.append(stage_label(stage));
        return Err(says(id, what.as_str()));
    }
    if let Some(o) = find_missing(stage, r) {
        let mut what = "stage ".to_owned();
        what.append(stage_label(stage));
        what.append(" requires `");
        what.append(output_label(o));
        what.append("`");
        return Err(says(id, what.as_str()));
    }
    if stage == Stage::Placement {
        if r.fold_to.is_none() && r.folder.is_none() && r.owner_uid.is_none() {
            return Err(says(id, "placement needs fold_to, folder or owner_uid"));
        }
        if r.owner_uid.is_some() && (r.fold_to.is_some() || r.folder.is_some()) {
            return Err(says(id, "owner_uid cannot be combined with fold_to or folder"));
        }
    }
    if ctx.uses_script {
        let anonymous = stage == Stage::Class && r.classes.len() == 1 && r.classes[0]
            == Class::AnonymousScript;
        proof {
            let one = seq![Class::AnonymousScript];
            assert(anonymous == (stage == Stage::Class && r.classes@ == one)) by {
                if anonymous {
                    assert(r.classes@ =~= one);
                }
                if r.classes@ == one {
                    assert(r.classes@[0] == Class::AnonymousScript);
                }
            }
        }
        if !anonymous {
            return Err(
                says(id, "`script` only in a class rule whose classes is [anonymous_script]"),
            );
        }
    }
    if (ctx.uses_identity || ctx.uses_container) && stage != Stage::Placement {
        return Err(says(id, "`identity`/`container` tests are placement-only"));
    }
    let c = Compiled {
        source: source.copy(),
        file: file.to_owned(),
        id: r.id.clone(),
        test,
        identity: text::opt_clone(&r.identity),
        folder: r.folder,
        fold_to: text::opt_clone(&r.fold_to),
        owner_uid: r.owner_uid,
        classes: classes_of(&r.classes),
        flags: flags_of(&r.flags),
    };
    assert forall|f: FactsView| #[trigger] c.matches(f) == rules::match_holds(r.test, f) by {
        assert(test_holds(c.test, f) == rules::match_holds(r.test, f));
    }
    Ok(c)
}

} // verus!
