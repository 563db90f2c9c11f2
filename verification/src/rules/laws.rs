//! What holds of every set of rules.
use vstd::prelude::*;

use crate::rules;
use crate::rules::compile::Compiled;
use crate::rules::precedence;
use crate::rules::ruleset;
use crate::rules::ruleset::Rules;
use crate::rules::{Class, FactsView, LoadedFile, Stage, UnitFlag};
use crate::text;

verus! {

// ---------------------------------------------------------------------------
// Which rules decide
// ---------------------------------------------------------------------------

/// Rule `k` of a list gives the class.
pub open spec fn gives_class(list: Seq<Compiled>, f: FactsView, c: Class, k: int) -> bool {
    list[k].matches(f) && list[k].classes.any_of(rules::class_bit(c))
}

proof fn lemma_classes(list: Seq<Compiled>, f: FactsView, c: Class, n: int)
    requires
        0 <= n <= list.len(),
    ensures
        (ruleset::classes_upto(list, f, n) & rules::class_bit(c)) != 0 <==> exists|k: int|
            0 <= k < n && #[trigger] gives_class(list, f, c, k),
    decreases n,
{
    let bit = rules::class_bit(c);
    if n > 0 {
        lemma_classes(list, f, c, n - 1);
        let a = ruleset::classes_upto(list, f, n - 1);
        let b = list[n - 1].classes.0;
        assert(((a | b) & bit) != 0 <==> (a & bit) != 0 || (b & bit) != 0) by (bit_vector);
        if gives_class(list, f, c, n - 1) {
            assert(0 <= n - 1 < n && gives_class(list, f, c, n - 1));
        }
        if exists|k: int| 0 <= k < n - 1 && #[trigger] gives_class(list, f, c, k) {
            let k = choose|k: int| 0 <= k < n - 1 && #[trigger] gives_class(list, f, c, k);
            assert(0 <= k < n && gives_class(list, f, c, k));
        }
    } else {
        assert((0u16 & bit) == 0) by (bit_vector);
    }
}

/// A process has a class exactly where some rule that matches it gives it the
/// class: classes only ever add up.
pub proof fn law_a_class_comes_from_a_rule(r: Rules, f: FactsView, c: Class)
    ensures
        r.classes_spec(f).any_of(rules::class_bit(c)) <==> exists|k: int|
            0 <= k < r.rules_of(Stage::Class).len() && #[trigger] gives_class(
                r.rules_of(Stage::Class),
                f,
                c,
                k,
            ),
{
    let list = r.rules_of(Stage::Class);
    lemma_classes(list, f, c, list.len() as int);
}

/// Rule `k` of a list gives the flag.
pub open spec fn gives_flag(list: Seq<Compiled>, f: FactsView, flag: UnitFlag, k: int) -> bool {
    list[k].matches(f) && (list[k].flags.0 & rules::flag_bit(flag)) != 0
}

proof fn lemma_flags(list: Seq<Compiled>, f: FactsView, flag: UnitFlag, n: int)
    requires
        0 <= n <= list.len(),
    ensures
        (ruleset::flags_upto(list, f, n) & rules::flag_bit(flag)) != 0 <==> exists|k: int|
            0 <= k < n && #[trigger] gives_flag(list, f, flag, k),
    decreases n,
{
    let bit = rules::flag_bit(flag);
    if n > 0 {
        lemma_flags(list, f, flag, n - 1);
        let a = ruleset::flags_upto(list, f, n - 1);
        let b = list[n - 1].flags.0;
        assert(((a | b) & bit) != 0 <==> (a & bit) != 0 || (b & bit) != 0) by (bit_vector);
        if gives_flag(list, f, flag, n - 1) {
            assert(0 <= n - 1 < n && gives_flag(list, f, flag, n - 1));
        }
        if exists|k: int| 0 <= k < n - 1 && #[trigger] gives_flag(list, f, flag, k) {
            let k = choose|k: int| 0 <= k < n - 1 && #[trigger] gives_flag(list, f, flag, k);
            assert(0 <= k < n && gives_flag(list, f, flag, k));
        }
    } else {
        assert((0u8 & bit) == 0) by (bit_vector);
    }
}

/// A unit has a flag exactly where some rule that matches it gives it the flag:
/// flags add up over all the rules that match.
pub proof fn law_unit_flags_add_up(r: Rules, unit: Seq<char>, flag: UnitFlag)
    ensures
        (r.unit_flags_spec(unit).0 & rules::flag_bit(flag)) != 0 <==> exists|k: int|
            0 <= k < r.rules_of(Stage::Unit).len() && #[trigger] gives_flag(
                r.rules_of(Stage::Unit),
                ruleset::unit_facts(unit),
                flag,
                k,
            ),
{
    let list = r.rules_of(Stage::Unit);
    lemma_flags(list, ruleset::unit_facts(unit), flag, list.len() as int);
}

pub proof fn lemma_first(list: Seq<Compiled>, f: FactsView, i: int)
    requires
        0 <= i,
    ensures
        match ruleset::first_match(list, f, i) {
            Some(k) => i <= k < list.len() && list[k].matches(f) && forall|j: int|
                i <= j < k ==> !(#[trigger] list[j]).matches(f),
            None => forall|j: int| i <= j < list.len() ==> !(#[trigger] list[j]).matches(f),
        },
    decreases list.len() - i,
{
    if i < list.len() && !list[i].matches(f) {
        lemma_first(list, f, i + 1);
    }
}

proof fn lemma_matches(list: Seq<Compiled>, f: FactsView, n: int, k: int)
    requires
        0 <= n <= list.len(),
    ensures
        ruleset::matches_upto(list, f, n).contains(k) <==> 0 <= k < n && list[k].matches(f),
    decreases n,
{
    if n > 0 {
        lemma_matches(list, f, n - 1, k);
        let before = ruleset::matches_upto(list, f, n - 1);
        if list[n - 1].matches(f) {
            let after = before.push(n - 1);
            if before.contains(k) {
                assert(after[before.index_of(k)] == k);
            }
            assert(after[before.len() as int] == n - 1);
            if after.contains(k) {
                let j = after.index_of(k);
                if j < before.len() {
                    assert(before[j] == k);
                }
            }
        }
    }
}

/// Where a stage collects, every rule that matches decides, and no other.
pub proof fn law_a_collecting_stage_takes_every_match(
    stage: Stage,
    list: Seq<Compiled>,
    f: FactsView,
    k: int,
)
    requires
        stage == Stage::Unit || stage == Stage::Class,
    ensures
        ruleset::deciders(stage, list, f).contains(k) <==> 0 <= k < list.len() && list[k].matches(
            f,
        ),
{
    lemma_matches(list, f, list.len() as int, k);
}

/// Where a stage picks, the rule that decides is the first that matches; none
/// decides only where none matches.
pub proof fn law_a_picking_stage_takes_the_first_match(
    stage: Stage,
    list: Seq<Compiled>,
    f: FactsView,
    k: int,
)
    requires
        stage != Stage::Unit && stage != Stage::Class,
    ensures
        ruleset::deciders(stage, list, f).len() <= 1,
        ruleset::deciders(stage, list, f) == seq![k] ==> 0 <= k < list.len() && list[k].matches(f)
            && forall|j: int| 0 <= j < k ==> !(#[trigger] list[j]).matches(f),
        ruleset::deciders(stage, list, f).len() == 0 <==> forall|j: int|
            0 <= j < list.len() ==> !(#[trigger] list[j]).matches(f),
{
    lemma_first(list, f, 0);
    match ruleset::first_match(list, f, 0) {
        Some(m) => {
            assert(ruleset::deciders(stage, list, f) == seq![m]);
            assert(seq![m][0] == m);
            if ruleset::deciders(stage, list, f) == seq![k] {
                assert(seq![k][0] == k);
            }
            assert(list[m].matches(f));
        },
        None => {
            if ruleset::deciders(stage, list, f) == seq![k] {
                assert(seq![k].len() == 1);
            }
        },
    }
}

// ---------------------------------------------------------------------------
// Precedence
// ---------------------------------------------------------------------------

/// In every stage the rules of a higher source stand before those of a lower
/// one, whatever their files are called: so the higher source decides.
pub proof fn law_a_higher_source_stands_first(r: Rules, stage: Stage, i: int, j: int)
    requires
        r.wf(),
        0 <= i <= j < r.rules_of(stage).len(),
    ensures
        r.rules_of(stage)[i].source.rank <= r.rules_of(stage)[j].source.rank,
{
    if i < j {
        precedence::law_rules_stand_by_source_file_and_place(r, stage, i, j);
    }
}

// ---------------------------------------------------------------------------
// Disabling
// ---------------------------------------------------------------------------

/// A rule that is disabled, alone or with its file, is in no stage, whichever
/// source it comes from.
pub proof fn law_a_disabled_rule_never_decides(r: Rules, stage: Stage, k: int)
    requires
        r.wf(),
        0 <= k < r.rules_of(stage).len(),
    ensures
        !ruleset::is_dropped(
            text::texts(r.disabled@),
            r.rules_of(stage)[k].file@,
            r.rules_of(stage)[k].id@,
        ),
{
    ruleset::lemma_rule_origin(r, stage, k);
}

proof fn lemma_kept_in_has(
    files: Seq<LoadedFile>,
    fi: int,
    disabled: Seq<Seq<char>>,
    m: int,
    ri: int,
)
    requires
        0 <= ri < m <= ruleset::rules_in(files[fi]).len(),
        !ruleset::is_dropped(disabled, files[fi].name@, ruleset::rules_in(files[fi])[ri].id@),
    ensures
        ruleset::kept_in(files, fi, disabled, m).contains((fi, ri)),
    decreases m,
{
    let all = ruleset::kept_in(files, fi, disabled, m);
    let before = ruleset::kept_in(files, fi, disabled, m - 1);
    if ri == m - 1 {
        assert(all[before.len() as int] == (fi, ri));
    } else {
        lemma_kept_in_has(files, fi, disabled, m - 1, ri);
        let k = before.index_of((fi, ri));
        assert(all[k] == before[k]);
    }
}

proof fn lemma_kept_has(
    files: Seq<LoadedFile>,
    order: Seq<int>,
    disabled: Seq<Seq<char>>,
    stage: Stage,
    n: int,
    x: int,
    ri: int,
)
    requires
        0 <= x < n <= order.len(),
        files[order[x]].parsed->Ok_0.stage == stage,
        0 <= ri < ruleset::rules_in(files[order[x]]).len(),
        !ruleset::is_dropped(
            disabled,
            files[order[x]].name@,
            ruleset::rules_in(files[order[x]])[ri].id@,
        ),
    ensures
        ruleset::kept(files, order, disabled, stage, n).contains((order[x], ri)),
    decreases n,
{
    let all = ruleset::kept(files, order, disabled, stage, n);
    let before = ruleset::kept(files, order, disabled, stage, n - 1);
    let fi = order[n - 1];
    if x == n - 1 {
        let m = ruleset::rules_in(files[fi]).len() as int;
        lemma_kept_in_has(files, fi, disabled, m, ri);
        let own = ruleset::kept_in(files, fi, disabled, m);
        let k = own.index_of((fi, ri));
        assert(all[before.len() + k] == own[k]);
    } else {
        lemma_kept_has(files, order, disabled, stage, n - 1, x, ri);
        let k = before.index_of((order[x], ri));
        assert(all[k] == before[k]);
    }
}

proof fn lemma_placed_has(files: Seq<LoadedFile>, order: Seq<int>, i: int, x: int)
    requires
        x == i || order.contains(x),
    ensures
        ruleset::placed(files, order, i).contains(x),
    decreases order.len(),
{
    let p = ruleset::placed(files, order, i);
    if order.len() == 0 || ruleset::loads_before(files[order.last()], files[i]) {
        if x == i {
            assert(p[order.len() as int] == i);
        } else {
            assert(p[order.index_of(x)] == x);
        }
    } else {
        let d = order.drop_last();
        let q = ruleset::placed(files, d, i);
        if x != i && order.index_of(x) == order.len() - 1 {
            assert(p[q.len() as int] == x);
        } else {
            if x != i {
                assert(d[order.index_of(x)] == x);
            }
            lemma_placed_has(files, d, i, x);
            assert(p[q.index_of(x)] == x);
        }
    }
}

proof fn lemma_loaded(files: Seq<LoadedFile>, n: int, x: int)
    requires
        0 <= x < n <= files.len(),
        ruleset::problem_of(files[x]) is None,
    ensures
        ruleset::load_order(files, n).contains(x),
    decreases n,
{
    if x == n - 1 {
        lemma_placed_has(files, ruleset::load_order(files, n - 1), n - 1, x);
    } else {
        lemma_loaded(files, n - 1, x);
        if ruleset::problem_of(files[n - 1]) is None {
            lemma_placed_has(files, ruleset::load_order(files, n - 1), n - 1, x);
        }
    }
}

/// Every rule of a file without a fault is in force unless it is disabled.
pub proof fn law_every_other_rule_is_in_force(r: Rules, fi: int, ri: int) -> (k: int)
    requires
        r.wf(),
        0 <= fi < r.loaded@.len(),
        ruleset::problem_of(r.loaded@[fi]) is None,
        0 <= ri < ruleset::rules_in(r.loaded@[fi]).len(),
        !ruleset::is_dropped(
            text::texts(r.disabled@),
            r.loaded@[fi].name@,
            ruleset::rules_in(r.loaded@[fi])[ri].id@,
        ),
    ensures
        0 <= k < r.rules_of(r.loaded@[fi].parsed->Ok_0.stage).len(),
        ruleset::is_rule_of(
            r.rules_of(r.loaded@[fi].parsed->Ok_0.stage)[k],
            r.loaded@[fi],
            ri,
        ),
{
    let files = r.loaded@;
    let ord = r.in_order();
    let dis = text::texts(r.disabled@);
    let n = ord.len() as int;
    let stage = files[fi].parsed->Ok_0.stage;
    lemma_loaded(files, files.len() as int, fi);
    let x = ord.index_of(fi);
    lemma_kept_has(files, ord, dis, stage, n, x, ri);
    let at = ruleset::kept(files, ord, dis, stage, n);
    let k = at.index_of((fi, ri));
    assert(ruleset::lists(r.rules_of(stage), files, at));
    assert(ruleset::is_rule_of(r.rules_of(stage)[k], files[at[k].0], at[k].1));
    k
}

} // verus!
