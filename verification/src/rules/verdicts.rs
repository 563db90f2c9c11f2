//! What an example of a file of rules comes to.
use vstd::prelude::*;

use crate::rules;
use crate::rules::check;
use crate::rules::compile::Compiled;
use crate::rules::ruleset;
use crate::rules::ruleset::Rules;
use crate::rules::{compile, Class, Example, Expect, LoadedFile, Stage};
use crate::text;
use crate::text::laws::lacks;
use crate::{classify, identity};

verus! {

/// A rule is named by its file and its id; without a file it is one of the
/// example's own.
pub proof fn law_a_rule_named_alone_is_of_the_same_file(file: Seq<char>, id: Seq<char>)
    ensures
        lacks(id, ':') ==> check::qualified(file, id) == file + seq![':'] + id,
        !lacks(id, ':') ==> check::qualified(file, id) == id,
{
    reveal_strlit(":");
    assert(":"@ =~= seq![':']);
    if lacks(id, ':') {
        assert(!id.contains(':'));
    } else {
        let k = choose|k: int| 0 <= k < id.len() && id[k] == ':';
        assert(id.contains(':'));
    }
}

/// What the first rule must have given.
pub open spec fn first_agrees(e: Expect, first: Compiled, file: Seq<char>) -> bool {
    &&& e.rule is Some ==> check::qualified(file, e.rule->0@) == first.file@ + ":"@ + first.id@
    &&& e.identity is Some ==> first.identity is Some && first.identity->0@ == e.identity->0@
    &&& e.folder is Some ==> first.folder == e.folder
    &&& e.fold_to is Some ==> first.fold_to is Some && first.fold_to->0@ == e.fold_to->0@
    &&& e.owner_uid is Some ==> first.owner_uid == e.owner_uid
}

/// What all the rules together must have given.
pub open spec fn all_agree(e: Expect, hits: Seq<Compiled>, file: Seq<char>) -> bool {
    &&& e.rules is Some ==> text::sorted_texts(check::wanted(file, e.rules->0@))
        == text::sorted_texts(check::names_of(hits))
    &&& e.classes is Some ==> compile::classes_bits(e.classes->0@) == check::all_classes(hits)
    &&& e.flags is Some ==> compile::flags_bits(e.flags->0@) == check::all_flags(hits)
}

/// An example holds exactly where what it expects came out: no rule where it
/// expects none; else a rule, with every output it names, from the first or
/// from all together.
pub proof fn law_when_an_example_holds(ex: Example, hits: Seq<Compiled>, file: Seq<char>)
    ensures
        ex.expect is None ==> (check::verdict(ex, hits, file).len() == 0 <==> hits.len() == 0),
        ex.expect matches Some(e) ==> (check::verdict(ex, hits, file).len() == 0 <==> {
            &&& hits.len() == 0 ==> (e.classes is Some || e.flags is Some)
            &&& hits.len() > 0 ==> first_agrees(e, hits[0], file)
            &&& all_agree(e, hits, file)
        }),
{
    if let Some(e) = ex.expect {
        if hits.len() > 0 {
            let first = hits[0];
            assert(first.name_spec() == first.file@ + ":"@ + first.id@);
        }
    }
}

/// Classes expected together are those of the rules together: each class of
/// any rule, and no other.
pub proof fn law_classes_of_several_rules(hits: Seq<Compiled>, c: Class)
    ensures
        check::all_classes(hits) & rules::class_bit(c) != 0 <==> exists|k: int|
            0 <= k < hits.len() && (#[trigger] hits[k]).classes.any_of(rules::class_bit(c)),
    decreases hits.len(),
{
    let bit = rules::class_bit(c);
    if hits.len() > 0 {
        let less = hits.drop_last();
        law_classes_of_several_rules(less, c);
        let (a, b) = (check::all_classes(less), hits.last().classes.0);
        assert(((a | b) & bit) != 0 <==> (a & bit) != 0 || (b & bit) != 0) by (bit_vector);
        if exists|k: int|
            0 <= k < less.len() && (#[trigger] less[k]).classes.any_of(rules::class_bit(c)) {
            let k = choose|k: int|
                0 <= k < less.len() && (#[trigger] less[k]).classes.any_of(rules::class_bit(c));
            assert(hits[k].classes.any_of(bit));
        }
        if exists|k: int|
            0 <= k < hits.len() && (#[trigger] hits[k]).classes.any_of(rules::class_bit(c)) {
            let k = choose|k: int|
                0 <= k < hits.len() && (#[trigger] hits[k]).classes.any_of(rules::class_bit(c));
            if k < less.len() {
                assert(less[k].classes.any_of(bit));
            }
        }
        assert(hits[hits.len() - 1] == hits.last());
    } else {
        assert((0u16 & bit) == 0) by (bit_vector);
    }
}

/// The subject of an example: a unit spelled out wins over the control
/// group's, and only a class rule is shown the script.
pub proof fn law_the_subject_of_an_example(ex: Example, stage: Stage)
    ensures
        ({
            let f = check::subject_view(ex, stage);
            &&& ex.comm is Some ==> f.comm == ex.comm->0@
            &&& ex.comm is None ==> f.comm.len() == 0
            &&& ex.exe is None ==> f.name == f.comm && f.exe is None
            &&& ex.exe is Some ==> f.exe == Some(ex.exe->0@)
            &&& f.argv.len() == ex.cmdline@.len()
            &&& forall|k: int| 0 <= k < f.argv.len() ==> #[trigger] f.argv[k] == ex.cmdline@[k]@
            &&& f.cgroup == ex.cgroup@
            &&& ex.unit is Some ==> f.unit == Some(ex.unit->0@)
            &&& ex.unit is None && ex.cgroup@.len() > 0 ==> f.unit == identity::unit_of(ex.cgroup@)
            &&& ex.unit is None && ex.cgroup@.len() == 0 ==> f.unit is None
            &&& stage != Stage::Class ==> f.script is None
            &&& stage == Stage::Class ==> f.script == classify::script_of(f.argv)
            &&& ex.identity is Some ==> f.identity == Some(ex.identity->0@)
            &&& ex.container is Some ==> f.container == Some(ex.container->0@)
        }),
{
}

/// A strict check fails every example that does not hold; a loose one only
/// those that no rule of a higher source and no disabled rule explains.
pub proof fn law_what_is_said_of_an_example(r: Rules, f: LoadedFile, i: int)
    ensures
        ({
            let ex = f.parsed->Ok_0.examples@[i];
            let stage = f.parsed->Ok_0.stage;
            let hits = check::decided(r, stage, check::subject_view(ex, stage));
            let fails = check::verdict(ex, hits, f.name@);
            let (strict, loose) = (
                check::example_lines(r, true, f, i),
                check::example_lines(r, false, f, i),
            );
            &&& fails.len() == 0 ==> strict.len() == 0 && loose.len() == 0
            &&& fails.len() > 0 ==> strict.len() == 1 && loose.len() == 1 && strict[0]
                == check::example_name(f, ex, i) + ": FAIL "@ + text::joined_with(fails, "; "@)
            &&& fails.len() > 0 && (forall|k: int|
                0 <= k < hits.len() ==> (#[trigger] hits[k]).source.rank >= f.source.rank)
                && !check::expects_disabled(text::texts(r.disabled@), ex, f.name@) ==> loose
                == strict
            &&& fails.len() > 0 && (exists|k: int|
                0 <= k < hits.len() && (#[trigger] hits[k]).source.rank < f.source.rank)
                ==> loose[0] == check::example_name(f, ex, i) + ": overridden by "@
                + hits[0].file@ + ":"@ + hits[0].id@
        }),
{
    let ex = f.parsed->Ok_0.examples@[i];
    let stage = f.parsed->Ok_0.stage;
    let hits = check::decided(r, stage, check::subject_view(ex, stage));
    let name = check::example_name(f, ex, i);
    if hits.len() > 0 {
        let (a, b) = (hits[0].file@, hits[0].id@);
        assert(name + ": overridden by "@ + (a + ":"@ + b) =~= name + ": overridden by "@ + a
            + ":"@ + b);
    }
}

/// The rules that an example is held to are those that decide for its subject,
/// in their order.
pub proof fn law_an_example_is_held_to_the_deciders(r: Rules, stage: Stage, f: rules::FactsView)
    ensures
        ({
            let at = ruleset::deciders(stage, r.rules_of(stage), f);
            let hits = check::decided(r, stage, f);
            &&& hits.len() == at.len()
            &&& forall|k: int| 0 <= k < hits.len() ==> #[trigger] hits[k] == r.rules_of(
                stage,
            )[at[k]]
        }),
{
}

} // verus!
