//! What a set of rules owes to the files it is made of: which of them count,
//! and in which order.
use vstd::prelude::*;
use vstd::seq_lib::*;
use vstd::utf8::*;

use crate::rules::check;
use crate::rules::compile::Compiled;
use crate::rules::laws;
use crate::rules::ruleset;
use crate::rules::ruleset::Rules;
use crate::rules::{FactsView, LoadedFile, Stage};
use crate::text;

verus! {

// ---------------------------------------------------------------------------
// The files in turn
// ---------------------------------------------------------------------------

/// The files at these places.
pub open spec fn files_at(files: Seq<LoadedFile>, order: Seq<int>) -> Seq<LoadedFile> {
    Seq::new(order.len(), |k: int| files[order[k]])
}

/// The files of a set in the order they are loaded in.
pub open spec fn in_turn(r: Rules) -> Seq<LoadedFile> {
    files_at(r.loaded@, r.in_order())
}

/// The files without a fault.
pub open spec fn good(files: Seq<LoadedFile>) -> Seq<LoadedFile>
    decreases files.len(),
{
    if files.len() == 0 {
        Seq::empty()
    } else if ruleset::problem_of(files.last()) is None {
        good(files.drop_last()).push(files.last())
    } else {
        good(files.drop_last())
    }
}

/// `v` with a file put behind every file that is not loaded after it.
spec fn put(v: Seq<LoadedFile>, f: LoadedFile) -> Seq<LoadedFile>
    decreases v.len(),
{
    if v.len() == 0 || ruleset::loads_before(v.last(), f) {
        v.push(f)
    } else {
        put(v.drop_last(), f).push(v.last())
    }
}

/// The files without a fault in the order they are loaded in.
spec fn sorted(files: Seq<LoadedFile>) -> Seq<LoadedFile>
    decreases files.len(),
{
    if files.len() == 0 {
        Seq::empty()
    } else if ruleset::problem_of(files.last()) is None {
        put(sorted(files.drop_last()), files.last())
    } else {
        sorted(files.drop_last())
    }
}

proof fn lemma_placed_is_put(files: Seq<LoadedFile>, order: Seq<int>, i: int)
    ensures
        files_at(files, ruleset::placed(files, order, i)) == put(files_at(files, order), files[i]),
    decreases order.len(),
{
    let v = files_at(files, order);
    if order.len() == 0 || ruleset::loads_before(files[order.last()], files[i]) {
        assert(files_at(files, order.push(i)) =~= v.push(files[i]));
    } else {
        let d = order.drop_last();
        lemma_placed_is_put(files, d, i);
        assert(v.drop_last() =~= files_at(files, d));
        let p = ruleset::placed(files, d, i);
        assert(files_at(files, p.push(order.last())) =~= files_at(files, p).push(v.last()));
    }
}

proof fn lemma_load_order_sorts(files: Seq<LoadedFile>, n: int)
    requires
        0 <= n <= files.len(),
    ensures
        files_at(files, ruleset::load_order(files, n)) == sorted(files.take(n)),
    decreases n,
{
    if n > 0 {
        lemma_load_order_sorts(files, n - 1);
        assert(files.take(n).drop_last() =~= files.take(n - 1));
        if ruleset::problem_of(files[n - 1]) is None {
            lemma_placed_is_put(files, ruleset::load_order(files, n - 1), n - 1);
        }
    } else {
        assert(files_at(files, Seq::empty()) =~= Seq::empty());
    }
}

proof fn lemma_turn_is_sorted(r: Rules)
    requires
        r.wf(),
    ensures
        in_turn(r) == sorted(r.loaded@),
{
    lemma_load_order_sorts(r.loaded@, r.loaded@.len() as int);
    assert(r.loaded@.take(r.loaded@.len() as int) =~= r.loaded@);
}

proof fn lemma_good_sorts(files: Seq<LoadedFile>)
    ensures
        sorted(good(files)) == sorted(files),
    decreases files.len(),
{
    if files.len() > 0 {
        lemma_good_sorts(files.drop_last());
        if ruleset::problem_of(files.last()) is None {
            assert(good(files).drop_last() =~= good(files.drop_last()));
        }
    }
}

proof fn lemma_good_is_good(files: Seq<LoadedFile>)
    ensures
        forall|k: int|
            0 <= k < good(files).len() ==> ruleset::problem_of(#[trigger] good(files)[k]) is None,
    decreases files.len(),
{
    if files.len() > 0 {
        lemma_good_is_good(files.drop_last());
    }
}

// ---------------------------------------------------------------------------
// Only the files in turn count
// ---------------------------------------------------------------------------

/// The places `0` to `n`.
spec fn places(n: nat) -> Seq<int> {
    Seq::new(n, |k: int| k)
}

proof fn lemma_disabled(files: Seq<LoadedFile>, order: Seq<int>, n: int)
    requires
        0 <= n <= order.len(),
    ensures
        ruleset::disabled_upto(files, order, n) == ruleset::disabled_upto(
            files_at(files, order),
            places(order.len()),
            n,
        ),
    decreases n,
{
    if n > 0 {
        lemma_disabled(files, order, n - 1);
    }
}

proof fn lemma_examples(files: Seq<LoadedFile>, order: Seq<int>, n: int)
    requires
        0 <= n <= order.len(),
    ensures
        ruleset::examples_upto(files, order, n) == ruleset::examples_upto(
            files_at(files, order),
            places(order.len()),
            n,
        ),
    decreases n,
{
    if n > 0 {
        lemma_examples(files, order, n - 1);
    }
}

proof fn lemma_names(files: Seq<LoadedFile>, order: Seq<int>, entry: Seq<char>)
    ensures
        ruleset::names_loaded(files, order, entry) == ruleset::names_loaded(
            files_at(files, order),
            places(order.len()),
            entry,
        ),
{
    let v = files_at(files, order);
    let id = places(order.len());
    if ruleset::names_loaded(files, order, entry) {
        let k = choose|k: int|
            0 <= k < order.len() && ruleset::entry_names(files[#[trigger] order[k]], entry);
        assert(ruleset::entry_names(v[id[k]], entry));
    }
    if ruleset::names_loaded(v, id, entry) {
        let k = choose|k: int| 0 <= k < id.len() && ruleset::entry_names(v[#[trigger] id[k]], entry);
        assert(ruleset::entry_names(files[order[k]], entry));
    }
}

proof fn lemma_warnings(
    files: Seq<LoadedFile>,
    order: Seq<int>,
    disabled: Seq<Seq<char>>,
    n: int,
)
    requires
        0 <= n <= disabled.len(),
    ensures
        ruleset::warnings_upto(files, order, disabled, n) == ruleset::warnings_upto(
            files_at(files, order),
            places(order.len()),
            disabled,
            n,
        ),
    decreases n,
{
    if n > 0 {
        lemma_warnings(files, order, disabled, n - 1);
        lemma_names(files, order, disabled[n - 1]);
    }
}

proof fn lemma_kept_in(
    files: Seq<LoadedFile>,
    order: Seq<int>,
    p: int,
    disabled: Seq<Seq<char>>,
    m: int,
)
    requires
        0 <= p < order.len(),
        0 <= m,
    ensures
        ({
            let a = ruleset::kept_in(files, order[p], disabled, m);
            let b = ruleset::kept_in(files_at(files, order), p, disabled, m);
            &&& a.len() == b.len()
            &&& forall|k: int|
                0 <= k < b.len() ==> #[trigger] a[k] == (order[p], b[k].1) && b[k].0 == p
        }),
    decreases m,
{
    if m > 0 {
        lemma_kept_in(files, order, p, disabled, m - 1);
    }
}

/// `a` points at what `b` points at through `order`.
spec fn points_through(
    a: Seq<(int, int)>,
    b: Seq<(int, int)>,
    order: Seq<int>,
    n: int,
) -> bool {
    &&& a.len() == b.len()
    &&& forall|k: int|
        0 <= k < b.len() ==> #[trigger] a[k] == (order[b[k].0], b[k].1) && 0 <= b[k].0 < n
}

/// The rules in force, told by the files in turn.
proof fn lemma_kept(
    files: Seq<LoadedFile>,
    order: Seq<int>,
    disabled: Seq<Seq<char>>,
    stage: Stage,
    n: int,
)
    requires
        0 <= n <= order.len(),
    ensures
        points_through(
            ruleset::kept(files, order, disabled, stage, n),
            ruleset::kept(files_at(files, order), places(order.len()), disabled, stage, n),
            order,
            n,
        ),
    decreases n,
{
    if n > 0 {
        let v = files_at(files, order);
        let id = places(order.len());
        lemma_kept(files, order, disabled, stage, n - 1);
        let m = ruleset::rules_in(files[order[n - 1]]).len() as int;
        lemma_kept_in(files, order, n - 1, disabled, m);
        assert(id[n - 1] == n - 1 && v[n - 1] == files[order[n - 1]]);
        let a0 = ruleset::kept(files, order, disabled, stage, n - 1);
        let b0 = ruleset::kept(v, id, disabled, stage, n - 1);
        let a1 = ruleset::kept_in(files, order[n - 1], disabled, m);
        let b1 = ruleset::kept_in(v, n - 1, disabled, m);
        let a = ruleset::kept(files, order, disabled, stage, n);
        let b = ruleset::kept(v, id, disabled, stage, n);
        let here = v[n - 1].parsed->Ok_0.stage == stage;
        assert(a == if here {
            a0 + a1
        } else {
            a0
        });
        assert(b == if here {
            b0 + b1
        } else {
            b0
        });
        assert(a.len() == b.len());
        assert forall|k: int| 0 <= k < b.len() implies #[trigger] a[k] == (order[b[k].0], b[k].1)
            && 0 <= b[k].0 < n by {
            if k < b0.len() {
                assert(a[k] == a0[k] && b[k] == b0[k]);
                assert(a0[k] == (order[b0[k].0], b0[k].1));
            } else {
                assert(a[k] == a1[k - a0.len()] && b[k] == b1[k - b0.len()]);
                assert(a1[k - a0.len()] == (order[n - 1], b1[k - b0.len()].1));
            }
        }
        assert(points_through(a, b, order, n));
    } else {
        assert(ruleset::kept(files, order, disabled, stage, n).len() == 0);
        assert(ruleset::kept(
            files_at(files, order),
            places(order.len()),
            disabled,
            stage,
            n,
        ).len() == 0);
    }
}

// ---------------------------------------------------------------------------
// The same answers
// ---------------------------------------------------------------------------

/// Two rules that cannot be told apart.
pub open spec fn alike(c: Compiled, d: Compiled) -> bool {
    &&& c.source.same_as(d.source)
    &&& c.file@ == d.file@
    &&& c.id@ == d.id@
    &&& text::opt_text(c.identity) == text::opt_text(d.identity)
    &&& c.folder == d.folder
    &&& text::opt_text(c.fold_to) == text::opt_text(d.fold_to)
    &&& c.owner_uid == d.owner_uid
    &&& c.classes == d.classes
    &&& c.flags == d.flags
    &&& forall|f: FactsView| #[trigger] c.matches(f) == d.matches(f)
}

pub open spec fn all_alike(a: Seq<Compiled>, b: Seq<Compiled>) -> bool {
    a.len() == b.len() && forall|k: int| 0 <= k < a.len() ==> alike(#[trigger] a[k], b[k])
}

/// Two sets give every question the same answer.
pub open spec fn same_answers(a: Rules, b: Rules) -> bool {
    &&& text::texts(a.disabled@) == text::texts(b.disabled@)
    &&& text::texts(a.warnings@) == text::texts(b.warnings@)
    &&& ruleset::examples_upto(a.loaded@, a.in_order(), a.in_order().len() as int)
        == ruleset::examples_upto(b.loaded@, b.in_order(), b.in_order().len() as int)
    &&& forall|s: Stage| #[trigger] all_alike(a.rules_of(s), b.rules_of(s))
    &&& forall|s: Stage, f: FactsView| #[trigger]
        all_alike(check::decided(a, s, f), check::decided(b, s, f))
    &&& forall|f: FactsView| #[trigger] a.classes_spec(f) == b.classes_spec(f)
    &&& forall|u: Seq<char>| #[trigger] a.unit_flags_spec(u) == b.unit_flags_spec(u)
    &&& forall|f: FactsView| #[trigger] a.session_spec(f) == b.session_spec(f)
    &&& forall|f: FactsView| #[trigger] a.app_spec(f) == b.app_spec(f)
    &&& forall|i: Seq<char>|
        match (#[trigger] a.placement_spec(i), b.placement_spec(i)) {
            (Some(c), Some(d)) => alike(c, d),
            (None, None) => true,
            _ => false,
        }
    &&& forall|c: Seq<char>| #[trigger] a.container_owner_spec(c) == b.container_owner_spec(c)
    &&& forall|strict: bool| #[trigger]
        check::check_lines(a, strict, a.in_order().len() as int) == check::check_lines(
            b,
            strict,
            b.in_order().len() as int,
        )
}

proof fn lemma_first_alike(a: Seq<Compiled>, b: Seq<Compiled>, f: FactsView, i: int)
    requires
        all_alike(a, b),
    ensures
        ruleset::first_match(a, f, i) == ruleset::first_match(b, f, i),
        ruleset::first_match(a, f, i) matches Some(k) ==> 0 <= k < a.len(),
    decreases a.len() - i,
{
    if 0 <= i < a.len() {
        assert(a[i].matches(f) == b[i].matches(f));
        if !a[i].matches(f) {
            lemma_first_alike(a, b, f, i + 1);
        }
    }
}

proof fn lemma_upto_alike(a: Seq<Compiled>, b: Seq<Compiled>, f: FactsView, n: int)
    requires
        all_alike(a, b),
        0 <= n <= a.len(),
    ensures
        ruleset::matches_upto(a, f, n) == ruleset::matches_upto(b, f, n),
        forall|k: int|
            0 <= k < ruleset::matches_upto(a, f, n).len() ==> 0
                <= #[trigger] ruleset::matches_upto(a, f, n)[k] < n,
        ruleset::classes_upto(a, f, n) == ruleset::classes_upto(b, f, n),
        ruleset::flags_upto(a, f, n) == ruleset::flags_upto(b, f, n),
    decreases n,
{
    if n > 0 {
        lemma_upto_alike(a, b, f, n - 1);
        assert(alike(a[n - 1], b[n - 1]));
        assert(a[n - 1].matches(f) == b[n - 1].matches(f));
    }
}

proof fn lemma_decided_alike(a: Rules, b: Rules, s: Stage, f: FactsView)
    requires
        all_alike(a.rules_of(s), b.rules_of(s)),
    ensures
        all_alike(check::decided(a, s, f), check::decided(b, s, f)),
{
    let (u, v) = (a.rules_of(s), b.rules_of(s));
    lemma_first_alike(u, v, f, 0);
    lemma_upto_alike(u, v, f, u.len() as int);
    let at = ruleset::deciders(s, u, f);
    assert(at == ruleset::deciders(s, v, f));
    assert forall|k: int| 0 <= k < at.len() implies alike(
        #[trigger] check::decided(a, s, f)[k],
        check::decided(b, s, f)[k],
    ) by {
        assert(0 <= at[k] < u.len());
        assert(alike(u[at[k]], v[at[k]]));
    }
}

proof fn lemma_sets_alike(a: Seq<Compiled>, b: Seq<Compiled>)
    requires
        all_alike(a, b),
    ensures
        check::names_of(a) == check::names_of(b),
        check::all_classes(a) == check::all_classes(b),
        check::all_flags(a) == check::all_flags(b),
    decreases a.len(),
{
    assert forall|k: int| 0 <= k < a.len() implies a[k].name_spec() == b[k].name_spec() by {
        assert(alike(a[k], b[k]));
    }
    assert(check::names_of(a) =~= check::names_of(b));
    if a.len() > 0 {
        let (c, d) = (a.drop_last(), b.drop_last());
        assert forall|k: int| 0 <= k < c.len() implies alike(#[trigger] c[k], d[k]) by {
            assert(alike(a[k], b[k]));
        }
        lemma_sets_alike(c, d);
        assert(alike(a[a.len() - 1], b[b.len() - 1]));
    }
}

proof fn lemma_example_alike(a: Rules, b: Rules, strict: bool, f: LoadedFile, i: int)
    requires
        text::texts(a.disabled@) == text::texts(b.disabled@),
        forall|s: Stage| #[trigger] all_alike(a.rules_of(s), b.rules_of(s)),
    ensures
        check::example_lines(a, strict, f, i) == check::example_lines(b, strict, f, i),
{
    let ex = f.parsed->Ok_0.examples@[i];
    let stage = f.parsed->Ok_0.stage;
    let view = check::subject_view(ex, stage);
    let (u, v) = (check::decided(a, stage, view), check::decided(b, stage, view));
    assert(all_alike(a.rules_of(stage), b.rules_of(stage)));
    lemma_decided_alike(a, b, stage, view);
    lemma_sets_alike(u, v);
    if u.len() > 0 {
        assert(alike(u[0], v[0]));
    }
    assert(check::verdict(ex, u, f.name@) == check::verdict(ex, v, f.name@));
    let rank = f.source.rank;
    if check::outranked(u, rank) {
        let k = choose|k: int| 0 <= k < u.len() && (#[trigger] u[k]).source.rank < rank;
        assert(alike(u[k], v[k]));
        assert(v[k].source.rank < rank);
    }
    if check::outranked(v, rank) {
        let k = choose|k: int| 0 <= k < v.len() && (#[trigger] v[k]).source.rank < rank;
        assert(alike(u[k], v[k]));
        assert(u[k].source.rank < rank);
    }
}

proof fn lemma_file_alike(a: Rules, b: Rules, strict: bool, f: LoadedFile, n: int)
    requires
        text::texts(a.disabled@) == text::texts(b.disabled@),
        forall|s: Stage| #[trigger] all_alike(a.rules_of(s), b.rules_of(s)),
    ensures
        check::file_lines(a, strict, f, n) == check::file_lines(b, strict, f, n),
    decreases n,
{
    if n > 0 {
        lemma_file_alike(a, b, strict, f, n - 1);
        lemma_example_alike(a, b, strict, f, n - 1);
    }
}

proof fn lemma_check_alike(a: Rules, b: Rules, strict: bool, n: int)
    requires
        text::texts(a.disabled@) == text::texts(b.disabled@),
        forall|s: Stage| #[trigger] all_alike(a.rules_of(s), b.rules_of(s)),
        in_turn(a) == in_turn(b),
        0 <= n <= in_turn(a).len(),
    ensures
        check::check_lines(a, strict, n) == check::check_lines(b, strict, n),
    decreases n,
{
    if n > 0 {
        lemma_check_alike(a, b, strict, n - 1);
        let f = in_turn(a)[n - 1];
        assert(f == in_turn(b)[n - 1]);
        lemma_file_alike(a, b, strict, f, f.parsed->Ok_0.examples@.len() as int);
    }
}

/// Two sets whose files are the same in turn hold the same rules.
proof fn lemma_rules_alike(a: Rules, b: Rules, s: Stage)
    requires
        a.wf(),
        b.wf(),
        in_turn(a) == in_turn(b),
        text::texts(a.disabled@) == text::texts(b.disabled@),
    ensures
        all_alike(a.rules_of(s), b.rules_of(s)),
{
    let turn = in_turn(a);
    let n = turn.len() as int;
    let dis = text::texts(a.disabled@);
    assert(turn.len() == a.in_order().len() && turn.len() == b.in_order().len());
    let at = ruleset::kept(turn, places(turn.len()), dis, s, n);
    let x = ruleset::kept(a.loaded@, a.in_order(), dis, s, n);
    let y = ruleset::kept(b.loaded@, b.in_order(), dis, s, n);
    lemma_kept(a.loaded@, a.in_order(), dis, s, n);
    lemma_kept(b.loaded@, b.in_order(), dis, s, n);
    assert(ruleset::lists(a.rules_of(s), a.loaded@, x));
    assert(ruleset::lists(b.rules_of(s), b.loaded@, y));
    assert forall|k: int| 0 <= k < a.rules_of(s).len() implies alike(
        #[trigger] a.rules_of(s)[k],
        b.rules_of(s)[k],
    ) by {
        let p = at[k].0;
        assert(x[k] == (a.in_order()[p], at[k].1));
        assert(y[k] == (b.in_order()[p], at[k].1));
        assert(turn[p] == a.loaded@[a.in_order()[p]]);
        assert(in_turn(b)[p] == b.loaded@[b.in_order()[p]]);
        assert(ruleset::is_rule_of(a.rules_of(s)[k], turn[p], at[k].1));
        assert(ruleset::is_rule_of(b.rules_of(s)[k], turn[p], at[k].1));
    }
}

proof fn lemma_same_turn(
    a: Rules,
    b: Rules,
    files: Seq<LoadedFile>,
    others: Seq<LoadedFile>,
)
    requires
        a.made_of(files),
        b.made_of(others),
        in_turn(a) == in_turn(b),
    ensures
        same_answers(a, b),
{
    let turn = in_turn(a);
    let n = turn.len() as int;
    assert(turn.len() == a.in_order().len() && turn.len() == b.in_order().len());
    lemma_disabled(files, a.in_order(), n);
    lemma_disabled(others, b.in_order(), n);
    lemma_examples(files, a.in_order(), n);
    lemma_examples(others, b.in_order(), n);
    let dis = text::texts(a.disabled@);
    assert(dis.len() == a.disabled@.len());
    assert(text::texts(b.disabled@).len() == b.disabled@.len());
    lemma_warnings(files, a.in_order(), dis, dis.len() as int);
    lemma_warnings(others, b.in_order(), dis, dis.len() as int);
    assert forall|s: Stage| #[trigger] all_alike(a.rules_of(s), b.rules_of(s)) by {
        lemma_rules_alike(a, b, s);
    }
    assert forall|s: Stage, f: FactsView| #[trigger]
        all_alike(check::decided(a, s, f), check::decided(b, s, f)) by {
        assert(all_alike(a.rules_of(s), b.rules_of(s)));
        lemma_decided_alike(a, b, s, f);
    }
    let len = |s: Stage| a.rules_of(s).len() as int;
    assert forall|f: FactsView| #[trigger] a.classes_spec(f) == b.classes_spec(f) by {
        assert(all_alike(a.rules_of(Stage::Class), b.rules_of(Stage::Class)));
        lemma_upto_alike(a.rules_of(Stage::Class), b.rules_of(Stage::Class), f, len(Stage::Class));
    }
    assert forall|u: Seq<char>| #[trigger] a.unit_flags_spec(u) == b.unit_flags_spec(u) by {
        assert(all_alike(a.rules_of(Stage::Unit), b.rules_of(Stage::Unit)));
        lemma_upto_alike(
            a.rules_of(Stage::Unit),
            b.rules_of(Stage::Unit),
            ruleset::unit_facts(u),
            len(Stage::Unit),
        );
    }
    assert forall|f: FactsView| #[trigger] a.session_spec(f) == b.session_spec(f) by {
        let (u, v) = (a.rules_of(Stage::Session), b.rules_of(Stage::Session));
        assert(all_alike(u, v));
        lemma_first_alike(u, v, f, 0);
        if let Some(k) = ruleset::first_match(u, f, 0) {
            ruleset::lemma_session_outputs(a, k);
            ruleset::lemma_session_outputs(b, k);
            assert(alike(u[k], v[k]));
        }
    }
    assert forall|f: FactsView| #[trigger] a.app_spec(f) == b.app_spec(f) by {
        let (u, v) = (a.rules_of(Stage::App), b.rules_of(Stage::App));
        assert(all_alike(u, v));
        lemma_first_alike(u, v, f, 0);
        if let Some(k) = ruleset::first_match(u, f, 0) {
            assert(alike(u[k], v[k]));
        }
    }
    let (u, v) = (a.rules_of(Stage::Placement), b.rules_of(Stage::Placement));
    assert(all_alike(u, v));
    assert forall|i: Seq<char>|
        match (#[trigger] a.placement_spec(i), b.placement_spec(i)) {
            (Some(c), Some(d)) => alike(c, d),
            (None, None) => true,
            _ => false,
        } by {
        lemma_first_alike(u, v, ruleset::identity_facts(i), 0);
        if let Some(k) = ruleset::first_match(u, ruleset::identity_facts(i), 0) {
            assert(alike(u[k], v[k]));
        }
    }
    assert forall|c: Seq<char>| #[trigger]
        a.container_owner_spec(c) == b.container_owner_spec(c) by {
        lemma_first_alike(u, v, ruleset::container_facts(c), 0);
        if let Some(k) = ruleset::first_match(u, ruleset::container_facts(c), 0) {
            assert(alike(u[k], v[k]));
        }
    }
    assert forall|strict: bool| #[trigger]
        check::check_lines(a, strict, a.in_order().len() as int) == check::check_lines(
            b,
            strict,
            b.in_order().len() as int,
        ) by {
        lemma_check_alike(a, b, strict, n);
    }
}

/// A file with a fault is as if it were not there: the rules answer as those
/// of the other files alone do, which have no problem.
pub proof fn law_a_faulty_file_is_left_out_whole(a: Rules, b: Rules, files: Seq<LoadedFile>)
    requires
        a.made_of(files),
        b.made_of(good(files)),
    ensures
        same_answers(a, b),
        b.problems@.len() == 0,
{
    lemma_turn_is_sorted(a);
    lemma_turn_is_sorted(b);
    lemma_good_sorts(files);
    lemma_same_turn(a, b, files, good(files));
    lemma_good_is_good(files);
    ruleset::lemma_no_problems(good(files), good(files).len() as int);
}

// ---------------------------------------------------------------------------
// In which order
// ---------------------------------------------------------------------------

/// Two files come from the same source under the same name.
pub open spec fn same_key(a: LoadedFile, b: LoadedFile) -> bool {
    a.source.rank == b.source.rank && a.name@ == b.name@
}

/// No two files have both source and name in common.
pub open spec fn keys_differ(files: Seq<LoadedFile>) -> bool {
    forall|i: int, j: int|
        0 <= i < j < files.len() ==> !same_key(#[trigger] files[i], #[trigger] files[j])
}

proof fn lemma_before_total(a: LoadedFile, b: LoadedFile)
    ensures
        ruleset::loads_before(a, b) || ruleset::loads_before(b, a),
{
    text::lemma_bytes_total(encode_utf8(a.name@), encode_utf8(b.name@));
}

proof fn lemma_before_chain(a: LoadedFile, b: LoadedFile, c: LoadedFile)
    requires
        ruleset::loads_before(a, b),
        ruleset::loads_before(b, c),
    ensures
        ruleset::loads_before(a, c),
{
    if a.source.rank == b.source.rank && b.source.rank == c.source.rank {
        text::lemma_bytes_chain(
            encode_utf8(a.name@),
            encode_utf8(b.name@),
            encode_utf8(c.name@),
        );
    }
}

proof fn lemma_before_key(a: LoadedFile, b: LoadedFile)
    requires
        ruleset::loads_before(a, b),
        ruleset::loads_before(b, a),
    ensures
        same_key(a, b),
{
    text::lemma_bytes_equal(encode_utf8(a.name@), encode_utf8(b.name@));
    encode_utf8_decode_utf8(a.name@);
    encode_utf8_decode_utf8(b.name@);
}

spec fn ordered(v: Seq<LoadedFile>) -> bool {
    forall|i: int, j: int|
        0 <= i < j < v.len() ==> ruleset::loads_before(#[trigger] v[i], #[trigger] v[j])
}

proof fn lemma_put_has(v: Seq<LoadedFile>, f: LoadedFile, g: LoadedFile)
    ensures
        put(v, f).contains(g) <==> v.contains(g) || g == f,
    decreases v.len(),
{
    let p = put(v, f);
    if v.len() == 0 || ruleset::loads_before(v.last(), f) {
        assert(p == v.push(f));
        if v.contains(g) {
            assert(p[v.index_of(g)] == g);
        }
        assert(p.last() == f);
        if p.contains(g) && g != f {
            assert(v[p.index_of(g)] == g);
        }
    } else {
        let d = v.drop_last();
        let q = put(d, f);
        lemma_put_has(d, f, g);
        if v.contains(g) {
            let k = v.index_of(g);
            if k < d.len() {
                assert(d[k] == g);
            }
        }
        if d.contains(g) {
            assert(v[d.index_of(g)] == g);
        }
        assert(v[v.len() - 1] == v.last());
        assert(p.last() == v.last());
        if q.contains(g) {
            assert(p[q.index_of(g)] == g);
        }
        if p.contains(g) {
            let k = p.index_of(g);
            if k < q.len() {
                assert(q[k] == g);
            }
        }
    }
}

proof fn lemma_put_ordered(v: Seq<LoadedFile>, f: LoadedFile)
    requires
        ordered(v),
    ensures
        ordered(put(v, f)),
    decreases v.len(),
{
    let p = put(v, f);
    if v.len() == 0 || ruleset::loads_before(v.last(), f) {
        assert forall|i: int, j: int| 0 <= i < j < p.len() implies ruleset::loads_before(
            #[trigger] p[i],
            #[trigger] p[j],
        ) by {
            if j < v.len() {
                assert(p[i] == v[i] && p[j] == v[j]);
            } else if i < v.len() - 1 {
                assert(ruleset::loads_before(v[i], v[v.len() - 1]));
                lemma_before_chain(v[i], v.last(), f);
            }
        }
    } else {
        let d = v.drop_last();
        let q = put(d, f);
        let last = v.last();
        assert forall|i: int, j: int| 0 <= i < j < d.len() implies ruleset::loads_before(
            #[trigger] d[i],
            #[trigger] d[j],
        ) by {
            assert(d[i] == v[i] && d[j] == v[j]);
        }
        lemma_put_ordered(d, f);
        lemma_before_total(last, f);
        assert forall|i: int, j: int| 0 <= i < j < p.len() implies ruleset::loads_before(
            #[trigger] p[i],
            #[trigger] p[j],
        ) by {
            if j < q.len() {
                assert(p[i] == q[i] && p[j] == q[j]);
            } else {
                assert(p[i] == q[i] && p[j] == last);
                lemma_put_has(d, f, q[i]);
                assert(q.contains(q[i]));
                if q[i] != f {
                    let k = d.index_of(q[i]);
                    assert(ruleset::loads_before(v[k], v[v.len() - 1]));
                }
            }
        }
    }
}

proof fn lemma_sorted(files: Seq<LoadedFile>)
    ensures
        ordered(sorted(files)),
        forall|g: LoadedFile| #[trigger]
            sorted(files).contains(g) <==> files.contains(g) && ruleset::problem_of(g) is None,
    decreases files.len(),
{
    if files.len() > 0 {
        let d = files.drop_last();
        let last = files.last();
        lemma_sorted(d);
        assert(files[files.len() - 1] == last);
        if ruleset::problem_of(last) is None {
            lemma_put_ordered(sorted(d), last);
        }
        assert forall|g: LoadedFile| #[trigger] sorted(files).contains(g) <==> files.contains(g)
            && ruleset::problem_of(g) is None by {
            if ruleset::problem_of(last) is None {
                lemma_put_has(sorted(d), last, g);
            }
            if d.contains(g) {
                assert(files[d.index_of(g)] == g);
            }
            if files.contains(g) {
                let k = files.index_of(g);
                if k < d.len() {
                    assert(d[k] == g);
                }
            }
        }
    }
}

proof fn lemma_put_differ(v: Seq<LoadedFile>, f: LoadedFile)
    requires
        keys_differ(v),
        forall|i: int| 0 <= i < v.len() ==> !same_key(#[trigger] v[i], f),
    ensures
        keys_differ(put(v, f)),
    decreases v.len(),
{
    let p = put(v, f);
    if v.len() == 0 || ruleset::loads_before(v.last(), f) {
        assert forall|i: int, j: int| 0 <= i < j < p.len() implies !same_key(
            #[trigger] p[i],
            #[trigger] p[j],
        ) by {
            assert(p[i] == v[i]);
            if j < v.len() {
                assert(p[j] == v[j]);
            }
        }
    } else {
        let d = v.drop_last();
        let q = put(d, f);
        assert forall|i: int, j: int| 0 <= i < j < d.len() implies !same_key(
            #[trigger] d[i],
            #[trigger] d[j],
        ) by {
            assert(d[i] == v[i] && d[j] == v[j]);
        }
        assert forall|i: int| 0 <= i < d.len() implies !same_key(#[trigger] d[i], f) by {
            assert(d[i] == v[i]);
        }
        lemma_put_differ(d, f);
        assert forall|i: int, j: int| 0 <= i < j < p.len() implies !same_key(
            #[trigger] p[i],
            #[trigger] p[j],
        ) by {
            assert(p[i] == q[i]);
            if j < q.len() {
                assert(p[j] == q[j]);
            } else {
                lemma_put_has(d, f, q[i]);
                assert(q.contains(q[i]));
                assert(v[v.len() - 1] == v.last());
                if q[i] != f {
                    let k = d.index_of(q[i]);
                    assert(!same_key(v[k], v[v.len() - 1]));
                }
            }
        }
    }
}

proof fn lemma_sorted_differ(files: Seq<LoadedFile>)
    requires
        keys_differ(files),
    ensures
        keys_differ(sorted(files)),
    decreases files.len(),
{
    if files.len() > 0 {
        let d = files.drop_last();
        assert forall|i: int, j: int| 0 <= i < j < d.len() implies !same_key(
            #[trigger] d[i],
            #[trigger] d[j],
        ) by {
            assert(d[i] == files[i] && d[j] == files[j]);
        }
        lemma_sorted_differ(d);
        if ruleset::problem_of(files.last()) is None {
            let v = sorted(d);
            assert forall|i: int| 0 <= i < v.len() implies !same_key(
                #[trigger] v[i],
                files.last(),
            ) by {
                lemma_sorted(d);
                assert(v.contains(v[i]));
                let k = d.index_of(v[i]);
                assert(!same_key(files[k], files[files.len() - 1]));
            }
            lemma_put_differ(v, files.last());
        }
    }
}

/// The same files in order are the same list.
proof fn lemma_one_order(x: Seq<LoadedFile>, y: Seq<LoadedFile>)
    requires
        ordered(x),
        ordered(y),
        keys_differ(x),
        keys_differ(y),
        forall|g: LoadedFile| #[trigger] x.contains(g) <==> y.contains(g),
    ensures
        x == y,
    decreases x.len(),
{
    if x.len() == 0 {
        if y.len() > 0 {
            assert(y.contains(y[0]));
            assert(x.contains(y[0]));
        }
        assert(x =~= y);
    } else {
        let (n, m) = (x.len() - 1, y.len() - 1);
        assert(x.contains(x[n]));
        assert(y.contains(x[n]));
        let j = y.index_of(x[n]);
        assert(y[j] == x[n]);
        assert(y.contains(y[m]));
        assert(x.contains(y[m]));
        let i = x.index_of(y[m]);
        assert(x[i] == y[m]);
        if j < m {
            assert(ruleset::loads_before(y[j], y[m]));
            assert(!same_key(y[j], y[m]));
            if i < n {
                assert(ruleset::loads_before(x[i], x[n]));
                lemma_before_key(x[n], y[m]);
            }
        }
        assert(x[n] == y[m]);
        let (a, b) = (x.drop_last(), y.drop_last());
        assert forall|p: int, q: int| 0 <= p < q < a.len() implies ruleset::loads_before(
            #[trigger] a[p],
            #[trigger] a[q],
        ) && !same_key(a[p], a[q]) by {
            assert(a[p] == x[p] && a[q] == x[q]);
        }
        assert forall|p: int, q: int| 0 <= p < q < b.len() implies ruleset::loads_before(
            #[trigger] b[p],
            #[trigger] b[q],
        ) && !same_key(b[p], b[q]) by {
            assert(b[p] == y[p] && b[q] == y[q]);
        }
        assert forall|g: LoadedFile| #[trigger] a.contains(g) <==> b.contains(g) by {
            if a.contains(g) {
                let k = a.index_of(g);
                assert(x[k] == g);
                assert(x.contains(g));
                assert(y.contains(g));
                let l = y.index_of(g);
                assert(!same_key(x[k], x[n]));
                assert(y[l] == g);
                assert(b[l] == g);
            }
            if b.contains(g) {
                let k = b.index_of(g);
                assert(y[k] == g);
                assert(y.contains(g));
                assert(x.contains(g));
                let l = x.index_of(g);
                assert(!same_key(y[k], y[m]));
                assert(x[l] == g);
                assert(a[l] == g);
            }
        }
        lemma_one_order(a, b);
        assert(x =~= a.push(x[n]));
        assert(y =~= b.push(y[m]));
    }
}

proof fn lemma_shuffled_differ(files: Seq<LoadedFile>, others: Seq<LoadedFile>)
    requires
        keys_differ(files),
        files.to_multiset() == others.to_multiset(),
    ensures
        keys_differ(others),
        forall|g: LoadedFile| #[trigger] files.contains(g) <==> others.contains(g),
{
    broadcast use group_to_multiset_ensures;

    assert forall|g: LoadedFile| #[trigger] files.contains(g) <==> others.contains(g) by {
        assert(files.contains(g) <==> files.to_multiset().count(g) > 0);
        assert(others.contains(g) <==> others.to_multiset().count(g) > 0);
    }
    assert(files.no_duplicates()) by {
        assert forall|i: int, j: int| 0 <= i < j < files.len() implies files[i] != files[j] by {
            assert(!same_key(files[i], files[j]));
        }
    }
    files.lemma_multiset_has_no_duplicates();
    others.lemma_multiset_has_no_duplicates_conv();
    assert forall|i: int, j: int| 0 <= i < j < others.len() implies !same_key(
        #[trigger] others[i],
        #[trigger] others[j],
    ) by {
        assert(others[i] != others[j]);
        assert(others.contains(others[i]) && others.contains(others[j]));
        assert(files.contains(others[i]) && files.contains(others[j]));
        let (k, l) = (files.index_of(others[i]), files.index_of(others[j]));
        assert(files[k] == others[i] && files[l] == others[j]);
    }
}

/// Where no two files have both source and name in common, it does not matter
/// in which order they are given.
pub proof fn law_files_may_come_in_any_order(
    a: Rules,
    b: Rules,
    files: Seq<LoadedFile>,
    others: Seq<LoadedFile>,
)
    requires
        a.made_of(files),
        b.made_of(others),
        files.to_multiset() == others.to_multiset(),
        keys_differ(files),
    ensures
        same_answers(a, b),
{
    lemma_shuffled_differ(files, others);
    lemma_turn_is_sorted(a);
    lemma_turn_is_sorted(b);
    lemma_sorted(files);
    lemma_sorted(others);
    lemma_sorted_differ(files);
    lemma_sorted_differ(others);
    lemma_one_order(sorted(files), sorted(others));
    lemma_same_turn(a, b, files, others);
}

// ---------------------------------------------------------------------------
// Which rule stands first
// ---------------------------------------------------------------------------

/// A rule of a set: the place of its file among the files in turn, and its own
/// place in the file.
pub open spec fn stands_at(r: Rules, stage: Stage, k: int, at: (int, int)) -> bool {
    &&& 0 <= at.0 < in_turn(r).len()
    &&& 0 <= at.1 < ruleset::rules_in(in_turn(r)[at.0]).len()
    &&& ruleset::is_rule_of(r.rules_of(stage)[k], in_turn(r)[at.0], at.1)
}

proof fn lemma_kept_in_order(v: Seq<LoadedFile>, p: int, disabled: Seq<Seq<char>>, m: int)
    requires
        0 <= m <= ruleset::rules_in(v[p]).len(),
    ensures
        ({
            let at = ruleset::kept_in(v, p, disabled, m);
            &&& forall|i: int|
                0 <= i < at.len() ==> (#[trigger] at[i]).0 == p && 0 <= at[i].1 < m
            &&& forall|i: int, j: int|
                0 <= i < j < at.len() ==> (#[trigger] at[i]).1 < (#[trigger] at[j]).1
        }),
    decreases m,
{
    if m > 0 {
        lemma_kept_in_order(v, p, disabled, m - 1);
        let before = ruleset::kept_in(v, p, disabled, m - 1);
        let at = ruleset::kept_in(v, p, disabled, m);
        assert forall|i: int| 0 <= i < at.len() implies (#[trigger] at[i]).0 == p && 0 <= at[i].1
            < m by {
            if i < before.len() {
                assert(at[i] == before[i]);
            }
        }
        assert forall|i: int, j: int| 0 <= i < j < at.len() implies (#[trigger] at[i]).1 < (
        #[trigger] at[j]).1 by {
            assert(at[i] == before[i]);
            if j < before.len() {
                assert(at[j] == before[j]);
            }
        }
    }
}

/// `at` comes before `b`: an earlier file, or in one file an earlier rule.
pub open spec fn earlier(a: (int, int), b: (int, int)) -> bool {
    a.0 < b.0 || (a.0 == b.0 && a.1 < b.1)
}

proof fn lemma_kept_order(
    v: Seq<LoadedFile>,
    disabled: Seq<Seq<char>>,
    stage: Stage,
    n: int,
)
    requires
        0 <= n <= v.len(),
    ensures
        ({
            let at = ruleset::kept(v, places(v.len()), disabled, stage, n);
            &&& forall|i: int|
                0 <= i < at.len() ==> 0 <= (#[trigger] at[i]).0 < n && 0 <= at[i].1
                    < ruleset::rules_in(v[at[i].0]).len()
            &&& forall|i: int, j: int|
                0 <= i < j < at.len() ==> earlier(#[trigger] at[i], #[trigger] at[j])
        }),
    decreases n,
{
    if n > 0 {
        lemma_kept_order(v, disabled, stage, n - 1);
        let m = ruleset::rules_in(v[n - 1]).len() as int;
        lemma_kept_in_order(v, n - 1, disabled, m);
        assert(places(v.len())[n - 1] == n - 1);
        let a = ruleset::kept(v, places(v.len()), disabled, stage, n - 1);
        let b = ruleset::kept_in(v, n - 1, disabled, m);
        let at = ruleset::kept(v, places(v.len()), disabled, stage, n);
        if v[n - 1].parsed->Ok_0.stage == stage {
            assert(at == a + b);
            assert forall|i: int| 0 <= i < at.len() implies 0 <= (#[trigger] at[i]).0 < n && 0
                <= at[i].1 < ruleset::rules_in(v[at[i].0]).len() by {
                if i < a.len() {
                    assert(at[i] == a[i]);
                } else {
                    assert(at[i] == b[i - a.len()]);
                }
            }
            assert forall|i: int, j: int| 0 <= i < j < at.len() implies earlier(
                #[trigger] at[i],
                #[trigger] at[j],
            ) by {
                if j < a.len() {
                    assert(at[i] == a[i] && at[j] == a[j]);
                } else {
                    assert(at[j] == b[j - a.len()]);
                    if i < a.len() {
                        assert(at[i] == a[i]);
                    } else {
                        assert(at[i] == b[i - a.len()]);
                    }
                }
            }
        }
    }
}

/// In every stage the rules stand by source, in one source by the name of
/// their file, and in one file as they are written.
pub proof fn law_rules_stand_by_source_file_and_place(
    r: Rules,
    stage: Stage,
    i: int,
    j: int,
) -> (at: ((int, int), (int, int)))
    requires
        r.wf(),
        0 <= i < j < r.rules_of(stage).len(),
    ensures
        stands_at(r, stage, i, at.0),
        stands_at(r, stage, j, at.1),
        earlier(at.0, at.1),
        r.rules_of(stage)[i].source.rank <= r.rules_of(stage)[j].source.rank,
        r.rules_of(stage)[i].source.rank == r.rules_of(stage)[j].source.rank ==> text::bytes_le(
            encode_utf8(r.rules_of(stage)[i].file@),
            encode_utf8(r.rules_of(stage)[j].file@),
        ),
{
    let v = in_turn(r);
    let n = v.len() as int;
    let dis = text::texts(r.disabled@);
    let at = ruleset::kept(v, places(v.len()), dis, stage, n);
    let x = ruleset::kept(r.loaded@, r.in_order(), dis, stage, n);
    assert(v.len() == r.in_order().len());
    lemma_kept(r.loaded@, r.in_order(), dis, stage, n);
    lemma_kept_order(v, dis, stage, n);
    assert(ruleset::lists(r.rules_of(stage), r.loaded@, x));
    let (a, b) = (at[i], at[j]);
    assert(x[i] == (r.in_order()[a.0], a.1));
    assert(x[j] == (r.in_order()[b.0], b.1));
    assert(v[a.0] == r.loaded@[r.in_order()[a.0]]);
    assert(v[b.0] == r.loaded@[r.in_order()[b.0]]);
    assert(ruleset::is_rule_of(r.rules_of(stage)[i], v[a.0], a.1));
    assert(ruleset::is_rule_of(r.rules_of(stage)[j], v[b.0], b.1));
    lemma_turn_is_sorted(r);
    lemma_sorted(r.loaded@);
    if a.0 < b.0 {
        assert(ruleset::loads_before(v[a.0], v[b.0]));
    } else {
        text::lemma_bytes_total(encode_utf8(v[a.0].name@), encode_utf8(v[a.0].name@));
    }
    (a, b)
}

/// The placement rule that decides for an identity is the first of those that
/// match it; none decides only where none matches. So a rule that is listed
/// before another on the same identity hides it.
pub proof fn law_the_first_placement_rule_hides_the_rest(r: Rules, identity: Seq<char>)
    ensures
        ({
            let f = ruleset::identity_facts(identity);
            let hits = check::decided(r, Stage::Placement, f);
            let list = r.rules_of(Stage::Placement);
            match r.placement_spec(identity) {
                None => hits.len() == 0 && forall|k: int|
                    0 <= k < list.len() ==> !(#[trigger] list[k]).matches(f),
                Some(c) => hits == seq![c] && exists|k: int|
                    0 <= k < list.len() && #[trigger] list[k] == c && c.matches(f) && forall|j: int|
                        0 <= j < k ==> !(#[trigger] list[j]).matches(f),
            }
        }),
{
    let f = ruleset::identity_facts(identity);
    let list = r.rules_of(Stage::Placement);
    laws::lemma_first(list, f, 0);
    let hits = check::decided(r, Stage::Placement, f);
    match ruleset::first_match(list, f, 0) {
        Some(k) => {
            assert(hits =~= seq![list[k]]);
            assert(list[k] == list[k]);
        },
        None => {},
    }
}

} // verus!
