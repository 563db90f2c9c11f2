//! What the files of rules come to: which files are taken, and what a matching
//! rule gives.
use vstd::prelude::*;

use crate::rules;
use crate::rules::compile;
use crate::rules::laws;
use crate::rules::meaning::is_pattern;
use crate::rules::ruleset;
use crate::rules::ruleset::Rules;
use crate::rules::{Class, Example, FactsView, Field, Match, Pat, Rule, RuleFile, Stage, UnitFlag};

verus! {

// ---------------------------------------------------------------------------
// Classes and flags
// ---------------------------------------------------------------------------

/// The place of a class among the bits.
spec fn rank(c: Class) -> u16 {
    match c {
        Class::Launcher => 0,
        Class::Generic => 1,
        Class::Shell => 2,
        Class::Terminal => 3,
        Class::Compositor => 4,
        Class::Worker => 5,
        Class::Noise => 6,
        Class::CrashHelper => 7,
        Class::NoAbsorb => 8,
        Class::AnonymousScript => 9,
        Class::ContainerRuntime => 10,
    }
}

proof fn lemma_class_bits_apart(a: Class, b: Class)
    ensures
        rules::class_bit(a) & rules::class_bit(b) != 0 <==> a == b,
{
    let (i, j) = (rank(a), rank(b));
    assert(1u16 << 0u16 == 1 && 1u16 << 1u16 == 2 && 1u16 << 2u16 == 4 && 1u16 << 3u16 == 8 && 1u16
        << 4u16 == 16 && 1u16 << 5u16 == 32 && 1u16 << 6u16 == 64 && 1u16 << 7u16 == 128 && 1u16
        << 8u16 == 256 && 1u16 << 9u16 == 512 && 1u16 << 10u16 == 1024) by (bit_vector);
    assert(rules::class_bit(a) == 1u16 << i && rules::class_bit(b) == 1u16 << j);
    assert((1u16 << i) & (1u16 << j) != 0 <==> i == j) by (bit_vector)
        requires
            i < 11,
            j < 11,
    ;
}

/// A set of classes holds exactly the classes it is made of: no class stands
/// for another.
pub proof fn law_a_set_holds_its_classes(v: Seq<Class>, c: Class)
    ensures
        compile::classes_bits(v) & rules::class_bit(c) != 0 <==> v.contains(c),
    decreases v.len(),
{
    let bit = rules::class_bit(c);
    if v.len() > 0 {
        let (less, last) = (v.drop_last(), v.last());
        law_a_set_holds_its_classes(less, c);
        lemma_class_bits_apart(last, c);
        let (a, b) = (compile::classes_bits(less), rules::class_bit(last));
        assert(((a | b) & bit) != 0 <==> (a & bit) != 0 || (b & bit) != 0) by (bit_vector);
        if less.contains(c) {
            assert(v[less.index_of(c)] == c);
        }
        if last == c {
            assert(v[v.len() - 1] == c);
        }
        if v.contains(c) && last != c {
            assert(less[v.index_of(c)] == c);
        }
    } else {
        assert((0u16 & bit) == 0) by (bit_vector);
    }
}

/// A set of flags holds exactly the flags it is made of.
pub proof fn law_a_set_holds_its_flags(v: Seq<UnitFlag>, f: UnitFlag)
    ensures
        compile::flags_bits(v) & rules::flag_bit(f) != 0 <==> v.contains(f),
    decreases v.len(),
{
    let bit = rules::flag_bit(f);
    if v.len() > 0 {
        let (less, last) = (v.drop_last(), v.last());
        law_a_set_holds_its_flags(less, f);
        let (a, b) = (compile::flags_bits(less), rules::flag_bit(last));
        assert(((a | b) & bit) != 0 <==> (a & bit) != 0 || (b & bit) != 0) by (bit_vector);
        assert(1u8 & 1u8 != 0 && 2u8 & 2u8 != 0 && 1u8 & 2u8 == 0 && 2u8 & 1u8 == 0)
            by (bit_vector);
        assert(b & bit != 0 <==> last == f);
        if less.contains(f) {
            assert(v[less.index_of(f)] == f);
        }
        if last == f {
            assert(v[v.len() - 1] == f);
        }
        if v.contains(f) && last != f {
            assert(less[v.index_of(f)] == f);
        }
    } else {
        assert((0u8 & bit) == 0) by (bit_vector);
    }
}

/// A rule of a file in force, of a stage.
pub open spec fn in_force(r: Rules, stage: Stage, fi: int, ri: int) -> bool {
    &&& 0 <= fi < r.loaded@.len()
    &&& ruleset::problem_of(r.loaded@[fi]) is None
    &&& r.loaded@[fi].parsed->Ok_0.stage == stage
    &&& 0 <= ri < ruleset::rules_in(r.loaded@[fi]).len()
    &&& !ruleset::is_dropped(
        crate::text::texts(r.disabled@),
        r.loaded@[fi].name@,
        ruleset::rules_in(r.loaded@[fi])[ri].id@,
    )
}

/// A process has every class that a rule in force gives it, where the rule's
/// test holds of the process.
pub proof fn law_a_matching_rule_gives_its_classes(
    r: Rules,
    fi: int,
    ri: int,
    f: FactsView,
    c: Class,
)
    requires
        r.wf(),
        in_force(r, Stage::Class, fi, ri),
        rules::match_holds(ruleset::rules_in(r.loaded@[fi])[ri].test, f),
        ruleset::rules_in(r.loaded@[fi])[ri].classes@.contains(c),
    ensures
        r.classes_spec(f).any_of(rules::class_bit(c)),
{
    let k = laws::law_every_other_rule_is_in_force(r, fi, ri);
    let rule = ruleset::rules_in(r.loaded@[fi])[ri];
    law_a_set_holds_its_classes(rule.classes@, c);
    laws::law_a_class_comes_from_a_rule(r, f, c);
    let list = r.rules_of(Stage::Class);
    assert(list[k].matches(f) == rules::match_holds(rule.test, f));
    assert(laws::gives_class(list, f, c, k));
}

/// A unit has every flag that a rule in force gives it.
pub proof fn law_a_matching_rule_gives_its_flags(
    r: Rules,
    fi: int,
    ri: int,
    unit: Seq<char>,
    flag: UnitFlag,
)
    requires
        r.wf(),
        in_force(r, Stage::Unit, fi, ri),
        rules::match_holds(ruleset::rules_in(r.loaded@[fi])[ri].test, about_unit(unit)),
        ruleset::rules_in(r.loaded@[fi])[ri].flags@.contains(flag),
    ensures
        flag == UnitFlag::Lying ==> r.unit_flags_spec(unit).lies(),
        flag == UnitFlag::Service ==> r.unit_flags_spec(unit).is_service(),
{
    let k = laws::law_every_other_rule_is_in_force(r, fi, ri);
    let rule = ruleset::rules_in(r.loaded@[fi])[ri];
    law_a_set_holds_its_flags(rule.flags@, flag);
    laws::law_unit_flags_add_up(r, unit, flag);
    let list = r.rules_of(Stage::Unit);
    let f = ruleset::unit_facts(unit);
    assert(f == about_unit(unit));
    assert(list[k].matches(f) == rules::match_holds(rule.test, f));
    assert(laws::gives_flag(list, f, flag, k));
}

// ---------------------------------------------------------------------------
// What a stage is asked
// ---------------------------------------------------------------------------

/// Nothing known but a unit.
pub open spec fn about_unit(unit: Seq<char>) -> FactsView {
    FactsView {
        comm: Seq::empty(),
        name: Seq::empty(),
        exe: None,
        argv: Seq::empty(),
        cgroup: Seq::empty(),
        unit: Some(unit),
        script: None,
        identity: None,
        container: None,
    }
}

/// Nothing known but an identity.
pub open spec fn about_identity(identity: Seq<char>) -> FactsView {
    FactsView { identity: Some(identity), unit: None, ..about_unit(identity) }
}

/// Nothing known but a container's name.
pub open spec fn about_container(name: Seq<char>) -> FactsView {
    FactsView { container: Some(name), unit: None, ..about_unit(name) }
}

/// Nothing known but a name.
pub open spec fn about_name(name: Seq<char>) -> FactsView {
    FactsView { comm: name, name, unit: None, ..about_unit(name) }
}

/// The classes of a name are those of a process that is called so and of which
/// nothing else is known.
pub proof fn law_the_classes_of_a_name(r: Rules, name: Seq<char>)
    ensures
        r.name_classes(name) == r.classes_spec(about_name(name)),
{
}

/// The first rule of the session stage that matches gives a process its
/// identity and its folder.
pub proof fn law_the_first_session_rule_decides(r: Rules, f: FactsView, k: int)
    requires
        0 <= k < r.rules_of(Stage::Session).len(),
        r.rules_of(Stage::Session)[k].matches(f),
        forall|j: int| 0 <= j < k ==> !(#[trigger] r.rules_of(Stage::Session)[j]).matches(f),
    ensures
        r.session_spec(f) == Some(
            (
                r.rules_of(Stage::Session)[k].identity->0@,
                r.rules_of(Stage::Session)[k].folder->0,
            ),
        ),
{
    let list = r.rules_of(Stage::Session);
    laws::lemma_first(list, f, 0);
    assert(list[k].matches(f));
    assert(ruleset::first_match(list, f, 0) == Some(k));
}

/// The first rule of the application stage that matches gives a process its
/// identity.
pub proof fn law_the_first_application_rule_decides(r: Rules, f: FactsView, k: int)
    requires
        0 <= k < r.rules_of(Stage::App).len(),
        r.rules_of(Stage::App)[k].matches(f),
        r.rules_of(Stage::App)[k].identity is Some,
        forall|j: int| 0 <= j < k ==> !(#[trigger] r.rules_of(Stage::App)[j]).matches(f),
    ensures
        r.app_spec(f) == Some(r.rules_of(Stage::App)[k].identity->0@),
{
    let list = r.rules_of(Stage::App);
    laws::lemma_first(list, f, 0);
    assert(list[k].matches(f));
    assert(ruleset::first_match(list, f, 0) == Some(k));
}

/// The first placement rule that matches an identity decides on it, and the
/// first that matches a container's name on its owner.
pub proof fn law_the_first_placement_rule_decides(r: Rules, name: Seq<char>, k: int)
    requires
        0 <= k < r.rules_of(Stage::Placement).len(),
    ensures
        r.rules_of(Stage::Placement)[k].matches(about_identity(name)) && (forall|j: int|
            0 <= j < k ==> !(#[trigger] r.rules_of(Stage::Placement)[j]).matches(
                about_identity(name),
            )) ==> r.placement_spec(name) == Some(r.rules_of(Stage::Placement)[k]),
        r.rules_of(Stage::Placement)[k].matches(about_container(name)) && (forall|j: int|
            0 <= j < k ==> !(#[trigger] r.rules_of(Stage::Placement)[j]).matches(
                about_container(name),
            )) ==> r.container_owner_spec(name) == r.rules_of(Stage::Placement)[k].owner_uid,
{
    let list = r.rules_of(Stage::Placement);
    let (a, b) = (about_identity(name), about_container(name));
    assert(a == ruleset::identity_facts(name));
    assert(b == ruleset::container_facts(name));
    laws::lemma_first(list, a, 0);
    laws::lemma_first(list, b, 0);
    if list[k].matches(a) && (forall|j: int| 0 <= j < k ==> !(#[trigger] list[j]).matches(a)) {
        assert(ruleset::first_match(list, a, 0) == Some(k));
    }
    if list[k].matches(b) && (forall|j: int| 0 <= j < k ==> !(#[trigger] list[j]).matches(b)) {
        assert(ruleset::first_match(list, b, 0) == Some(k));
    }
}

// ---------------------------------------------------------------------------
// What a file may hold
// ---------------------------------------------------------------------------

/// A test has patterns, and none of them is empty.
pub open spec fn has_patterns(p: Pat) -> bool {
    (exists|q: Seq<char>| #[trigger] is_pattern(p, q)) && !is_pattern(p, Seq::empty())
}

/// A list of patterns is refused where it is empty or holds an empty one.
pub proof fn law_empty_patterns_are_refused(p: Pat)
    ensures
        compile::pat_error(p) is None <==> has_patterns(p),
{
    let v = rules::pat_texts(p);
    match p {
        Pat::One(s) => {
            assert(v[0] == s@);
            assert(is_pattern(p, s@));
            if s@.len() == 0 {
                assert(s@ =~= Seq::<char>::empty());
                assert(v[0].len() == 0);
            }
        },
        Pat::Many(list) => {
            if v.len() > 0 {
                assert(is_pattern(p, list@[0]@));
            }
            if is_pattern(p, Seq::empty()) {
                let k = choose|k: int|
                    0 <= k < list@.len() && (#[trigger] list@[k])@ == Seq::<char>::empty();
                assert(v[k].len() == 0);
            }
            if exists|i: int| 0 <= i < v.len() && #[trigger] v[i].len() == 0 {
                let i = choose|i: int| 0 <= i < v.len() && #[trigger] v[i].len() == 0;
                assert(list@[i]@ =~= Seq::<char>::empty());
            }
            if exists|q: Seq<char>| #[trigger] is_pattern(p, q) {
                let q = choose|q: Seq<char>| #[trigger] is_pattern(p, q);
                let k = choose|k: int| 0 <= k < list@.len() && (#[trigger] list@[k])@ == q;
                assert(v.len() > k);
            }
        },
    }
}

/// Each stage takes what it needs and nothing else: flags for a unit, classes
/// for a class, an identity and a folder for a session, an identity for an
/// application; a placement folds, moves or pins an owner, and a pin stands
/// alone. Only the class of anonymous scripts looks at a script, and only a
/// placement at an identity or a container.
pub proof fn law_what_a_rule_may_say(stage: Stage, r: Rule)
    requires
        compile::match_error(r.test) is None,
    ensures
        compile::rule_fault(stage, r) is None <==> {
            &&& r.flags@.len() > 0 <==> stage == Stage::Unit
            &&& r.classes@.len() > 0 <==> stage == Stage::Class
            &&& r.identity is Some <==> stage == Stage::Session || stage == Stage::App
            &&& stage == Stage::Session ==> r.folder is Some
            &&& r.folder is Some ==> stage == Stage::Session || stage == Stage::Placement
            &&& r.fold_to is Some ==> stage == Stage::Placement
            &&& r.owner_uid is Some ==> stage == Stage::Placement && r.fold_to is None
                && r.folder is None
            &&& stage == Stage::Placement ==> r.fold_to is Some || r.folder is Some
                || r.owner_uid is Some
            &&& compile::uses_field(r.test, Field::Script) ==> stage == Stage::Class && r.classes@
                == seq![Class::AnonymousScript]
            &&& compile::uses_field(r.test, Field::Identity) || compile::uses_field(
                r.test,
                Field::Container,
            ) ==> stage == Stage::Placement
        },
{
    reveal_with_fuel(compile::first_stray, 7);
    reveal_with_fuel(compile::first_missing, 7);
}

/// Which tests look at a script, an identity or a container.
pub proof fn law_what_a_test_looks_at(p: Pat)
    ensures
        compile::uses_field(Match::Script(p), Field::Script),
        compile::uses_field(Match::Identity(p), Field::Identity),
        compile::uses_field(Match::Container(p), Field::Container),
        forall|m: Match|
            #![trigger compile::uses_field(m, Field::Script)]
            compile::uses_field(m, Field::Script) ==> m is Script || m is All || m is Any || m is Not,
        forall|m: Match|
            #![trigger compile::uses_field(m, Field::Identity)]
            compile::uses_field(m, Field::Identity) ==> m is Identity || m is All || m is Any
                || m is Not,
        forall|m: Match|
            #![trigger compile::uses_field(m, Field::Container)]
            compile::uses_field(m, Field::Container) ==> m is Container || m is All || m is Any
                || m is Not,
{
}

/// An id: small letters, digits and hyphens, and at least one.
pub open spec fn plain_id(id: Seq<char>) -> bool {
    id.len() > 0 && forall|k: int|
        0 <= k < id.len() ==> ('a' <= #[trigger] id[k] && id[k] <= 'z') || ('0' <= id[k] && id[k]
            <= '9') || id[k] == '-'
}

/// The rules of a file are taken exactly where each has a plain id that no
/// other of them has, and each may say what it says.
pub proof fn law_which_rules_are_taken(stage: Stage, v: Seq<Rule>)
    ensures
        ruleset::rules_fault(stage, v, 0) is None <==> {
            &&& forall|k: int|
                0 <= k < v.len() ==> plain_id((#[trigger] v[k]).id@) && compile::rule_fault(
                    stage,
                    v[k],
                ) is None
            &&& forall|j: int, k: int|
                0 <= j < k < v.len() ==> (#[trigger] v[j]).id@ != (#[trigger] v[k]).id@
        },
{
    lemma_rules_taken(stage, v, 0);
    if ruleset::rules_fault(stage, v, 0) is None {
        assert forall|j: int, k: int| 0 <= j < k < v.len() implies (#[trigger] v[j]).id@ != (
        #[trigger] v[k]).id@ by {
            assert(!ruleset::id_taken(v, k));
        }
    } else if forall|j: int, k: int|
        0 <= j < k < v.len() ==> (#[trigger] v[j]).id@ != (#[trigger] v[k]).id@ {
        assert forall|k: int| 0 <= k < v.len() implies !#[trigger] ruleset::id_taken(v, k) by {}
    }
}

proof fn lemma_rules_taken(stage: Stage, v: Seq<Rule>, i: int)
    requires
        0 <= i <= v.len(),
    ensures
        ruleset::rules_fault(stage, v, i) is None <==> forall|k: int|
            i <= k < v.len() ==> plain_id((#[trigger] v[k]).id@) && compile::rule_fault(
                stage,
                v[k],
            ) is None && !ruleset::id_taken(v, k),
    decreases v.len() - i,
{
    if i < v.len() {
        lemma_rules_taken(stage, v, i + 1);
        lemma_plain(v[i].id@);
    }
}

proof fn lemma_plain(id: Seq<char>)
    ensures
        ruleset::id_valid(id) <==> plain_id(id),
{
    if plain_id(id) {
        assert forall|k: int| 0 <= k < id.len() implies ruleset::id_char(#[trigger] id[k]) by {}
    }
    if ruleset::id_valid(id) {
        assert forall|k: int| 0 <= k < id.len() implies ('a' <= #[trigger] id[k] && id[k] <= 'z')
            || ('0' <= id[k] && id[k] <= '9') || id[k] == '-' by {
            assert(ruleset::id_char(id[k]));
        }
    }
}

/// An example has a subject.
pub open spec fn speaks_of_something(e: Example) -> bool {
    e.comm is Some || e.unit is Some || e.identity is Some || e.container is Some
}

proof fn lemma_examples(v: Seq<Example>, i: int)
    requires
        0 <= i <= v.len(),
    ensures
        ruleset::examples_fault(v, i) is None <==> forall|k: int|
            i <= k < v.len() ==> speaks_of_something(#[trigger] v[k]),
    decreases v.len() - i,
{
    if i < v.len() {
        lemma_examples(v, i + 1);
    }
}

proof fn lemma_disables(v: Seq<String>, i: int)
    requires
        0 <= i <= v.len(),
    ensures
        ruleset::disable_fault(v, i) is None <==> forall|k: int|
            i <= k < v.len() ==> ruleset::disable_valid((#[trigger] v[k])@),
    decreases v.len() - i,
{
    if i < v.len() {
        lemma_disables(v, i + 1);
    }
}

/// A file is taken exactly where its rules are, every entry it disables is
/// well formed, and every example has a subject.
pub proof fn law_which_files_are_taken(rf: RuleFile)
    ensures
        ruleset::file_fault(rf) is None <==> {
            &&& ruleset::rules_fault(rf.stage, rf.rules@, 0) is None
            &&& forall|k: int|
                0 <= k < rf.disable@.len() ==> ruleset::disable_valid((#[trigger] rf.disable@[k])@)
            &&& forall|k: int|
                0 <= k < rf.examples@.len() ==> speaks_of_something(#[trigger] rf.examples@[k])
        },
{
    lemma_disables(rf.disable@, 0);
    lemma_examples(rf.examples@, 0);
}

/// A file disables another file by its name, or one rule of it by the name, a
/// colon and the id.
pub proof fn law_how_a_rule_is_disabled(
    disabled: Seq<Seq<char>>,
    file: Seq<char>,
    id: Seq<char>,
    other: Seq<char>,
)
    requires
        other == file || other == file + seq![':'] + id,
        disabled.contains(other),
    ensures
        ruleset::is_dropped(disabled, file, id),
{
    reveal_strlit(":");
    assert(":"@ =~= seq![':']);
}

} // verus!
