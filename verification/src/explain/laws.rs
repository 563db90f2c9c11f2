//! What is said of where a row is and of the rules that put it there.
use vstd::prelude::*;

use crate::explain;
use crate::explain::{report, FoundView};
use crate::glyph;
use crate::glyph::GlyphSet;
use crate::once;
use crate::rules::{Compiled, FactsView, Rules, Stage};
use crate::text;
use crate::types::{Folder, IdentNode, Process, UserNode};

verus! {

/// A row is named by the way to it: who has it, an arrow, and its folder; only
/// a row of a user's own can be pinned, and to the folder it is in.
pub proof fn law_the_way_to_a_row(
    set: GlyphSet,
    parent: Seq<char>,
    folder: Folder,
    ident: Seq<char>,
    instance: Seq<char>,
    beside: nat,
)
    ensures
        ({
            let f = explain::found_row(set, parent, folder, ident, instance, beside);
            let way = parent + " "@ + seq![glyph::arrow_of(set)] + " "@;
            &&& f.ident == ident && f.instance == instance && f.siblings == beside
            &&& folder == Folder::Applications ==> f.path == way + "Applications"@ && f.pinnable
                == Some("applications"@)
            &&& folder == Folder::UserServices ==> f.path == way + "User Services"@ && f.pinnable
                == Some("user_services"@)
            &&& folder == Folder::Containers ==> f.path == way + "Containers"@ && f.pinnable is None
            &&& folder == Folder::System ==> f.path == way + "System"@ && f.pinnable is None
        }),
{
}

proof fn lemma_no_row(rows: Seq<IdentNode>, pid: u32, k: int, j: int)
    requires
        0 <= j <= k < rows.len(),
        explain::within_row(rows[k], pid) is Some,
        forall|m: int| 0 <= m < k ==> explain::within_row(#[trigger] rows[m], pid) is None,
    ensures
        explain::row_from(rows, pid, j) == Some(k),
    decreases k - j,
{
    if j < k {
        assert(explain::within_row(rows[j], pid) is None);
        lemma_no_row(rows, pid, k, j + 1);
    }
}

/// A process is found in the first row that holds it: by the row's id, the
/// instance it is in, and how many stand beside it.
pub proof fn law_a_process_is_found_in_its_row(
    set: GlyphSet,
    rows: Seq<IdentNode>,
    pid: u32,
    parent: Seq<char>,
    folder: Folder,
    k: int,
    i: int,
)
    requires
        0 <= k < rows.len(),
        forall|m: int| 0 <= m < k ==> explain::within_row(#[trigger] rows[m], pid) is None,
        explain::instance_from(rows[k], pid, 0) == Some(i),
        0 <= i < rows[k].instances@.len(),
    ensures
        explain::found_among(set, rows, pid, parent, folder) is Some,
        ({
            let f = explain::found_among(set, rows, pid, parent, folder)->0;
            &&& f.ident == rows[k].id@
            &&& f.instance == rows[k].instances@[i].key@
            &&& f.siblings == rows[k].instances@[i].processes@.len()
        }),
{
    lemma_no_row(rows, pid, k, 0);
}

/// A process of a user's is looked for among the applications, then the
/// services, then the containers.
pub proof fn law_where_a_users_process_is_looked_for(set: GlyphSet, u: UserNode, pid: u32)
    ensures
        ({
            let who = "Host "@ + seq![glyph::arrow_of(set)] + " "@ + u.name@ + " ("@
                + text::decimal(u.uid as nat) + ")"@;
            let a = explain::found_among(set, u.applications@, pid, who, Folder::Applications);
            let b = explain::found_among(set, u.user_services@, pid, who, Folder::UserServices);
            let c = explain::found_among(set, u.containers@, pid, who, Folder::Containers);
            let f = explain::found_of_user(set, u, pid);
            &&& a is Some ==> f == a
            &&& a is None && b is Some ==> f == b
            &&& a is None && b is None ==> f == c
        }),
{
}

/// A row is found by the id it has on the screen: its folder's, a slash, and
/// its own.
pub proof fn law_a_row_is_found_by_its_id(
    rows: Seq<IdentNode>,
    folder: Seq<char>,
    k: int,
    j: int,
)
    requires
        0 <= j <= k < rows.len(),
        forall|m: int| 0 <= m < k ==> (#[trigger] rows[m]).id@ != rows[k].id@,
    ensures
        explain::named_from(rows, folder, folder + "/"@ + rows[k].id@, j) == Some(k),
    decreases k - j,
{
    if j < k {
        let (a, b) = (folder + "/"@ + rows[j].id@, folder + "/"@ + rows[k].id@);
        assert(rows[j].id@ != rows[k].id@);
        let n = folder.len() + "/"@.len();
        assert(a.skip(n as int) =~= rows[j].id@);
        assert(b.skip(n as int) =~= rows[k].id@);
        assert(a != b);
        law_a_row_is_found_by_its_id(rows, folder, k, j + 1);
    }
}

/// What a stage made of some facts is one line for each rule that decided; a
/// stage without rules and one where none matched say so.
pub proof fn law_what_a_stage_made_of_it(r: Rules, stage: Stage, f: FactsView)
    ensures
        ({
            let list = r.rules_of(stage);
            let hits = crate::rules::ruleset::deciders(stage, list, f);
            let said = explain::verdicts_of(r, stage, f);
            &&& list.len() == 0 ==> said == seq!["none"@]
            &&& list.len() > 0 && hits.len() == 0 ==> said == seq!["no match"@]
            &&& list.len() > 0 && hits.len() > 0 ==> said.len() == hits.len() && forall|k: int|
                0 <= k < hits.len() ==> #[trigger] said[k] == explain::verdict_of(list[hits[k]])
        }),
{
}

/// A rule is named by where it comes from, its file and its id, and what it
/// gave follows an arrow.
pub proof fn law_how_a_rule_is_named(c: Compiled)
    ensures
        c.source.rank == usize::MAX ==> explain::verdict_of(c) == "built-in "@ + (c.file@ + ":"@
            + c.id@) + " -> "@ + text::joined_with(c.given(), " "@),
        c.source.rank != usize::MAX ==> explain::verdict_of(c) == c.source.label@ + "/"@ + (c.file@
            + ":"@ + c.id@) + " -> "@ + text::joined_with(c.given(), " "@),
{
}

/// The unit and the placement are asked of the unit and of the row alone, the
/// other stages of the whole process, and all five in this order.
pub proof fn law_every_stage_is_told(r: Rules, p: Process, ident: Seq<char>)
    ensures
        ({
            let unit = crate::identity::unit_of(p.cgroup@);
            let f = crate::group::facts_view(p);
            let first = explain::verdicts_of(
                r,
                Stage::Unit,
                FactsView { unit, ..crate::rules::no_facts() },
            );
            let last = explain::verdicts_of(
                r,
                Stage::Placement,
                FactsView { identity: Some(ident), ..crate::rules::no_facts() },
            );
            explain::trace_of(r, p, ident).len() == first.len() + explain::verdicts_of(
                r,
                Stage::Class,
                f,
            ).len() + explain::verdicts_of(r, Stage::Session, f).len() + explain::verdicts_of(
                r,
                Stage::App,
                f,
            ).len() + last.len()
        }),
{
}

/// An instance of one process is said to have one, and any other so many.
pub proof fn law_how_many_stand_beside(f: FoundView)
    ensures
        f.siblings == 1 ==> explain::instance_line(f) == "  instance  "@ + once::shown(f.instance)
            + " ("@ + text::decimal(1) + " process"@ + ")"@,
        f.siblings != 1 ==> explain::instance_line(f) == "  instance  "@ + once::shown(f.instance)
            + " ("@ + text::decimal(f.siblings) + " process"@ + "es"@ + ")"@,
{
    reveal_strlit("");
    let head = "  instance  "@ + once::shown(f.instance) + " ("@ + text::decimal(f.siblings)
        + " process"@;
    assert(head + ""@ =~= head);
}

/// A pid that cannot be seen and is in no row is said to be neither; one that
/// was read and is in no row is said to be nowhere; and advice is given only of
/// a row.
pub proof fn law_what_is_answered_of_a_pid(
    pid: u32,
    visible: bool,
    facts: Seq<(String, String)>,
    found: Option<FoundView>,
    placed: Seq<Seq<char>>,
    dir: Seq<char>,
)
    ensures
        ({
            let a = report::answer(pid, visible, facts, found, placed, dir);
            &&& found is None && !visible ==> a == report::unseen(pid)
            &&& found is None && visible ==> a == report::head(pid, facts) + report::nowhere()
            &&& found is Some ==> a[0] == "pid "@ + text::decimal(pid as nat) && a.len()
                == 1 + facts.len() + 1 + placed.len() + 1 + report::advice(found->0, dir).len()
            &&& found is Some ==> forall|k: int|
                0 <= k < placed.len() ==> a[2 + facts.len() + k] == placed[k]
        }),
{
}

} // verus!
