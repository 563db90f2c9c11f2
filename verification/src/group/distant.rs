//! Where a helper goes when neither its parent nor a child of its own says so.
use vstd::prelude::*;

use crate::group;
use crate::group::around;
use crate::group::around::{a_users, given, shares, up_next};
use crate::group::billing;
use crate::group::place::PlaceView;
use crate::group::walk::Found;
use crate::group::World;
use crate::group::{place, walk};
use crate::rules;
use crate::rules::Class;
use crate::types::Folder;
use crate::{classify, identity, text};

verus! {

// ---------------------------------------------------------------------------
// Terminals
// ---------------------------------------------------------------------------

/// A terminal of the same user that a scope is named after: by its whole name,
/// or by its name and a dash.
pub open spec fn names_terminal(w: World, i: int, scope: Seq<char>, k: int) -> bool {
    let (stem, name) = (
        text::lowered(scope),
        text::lowered(classify::process_name(w.procs[k])),
    );
    &&& w.procs[k].uid == w.procs[i].uid
    &&& billing::is_a(w, k, Class::Terminal)
    &&& stem == name || exists|rest: Seq<char>| stem == #[trigger] (name + seq!['-'] + rest)
}

proof fn lemma_terminal(w: World, i: int, scope: Seq<char>, k: int, j: int)
    requires
        0 <= j <= k < w.procs.len(),
        names_terminal(w, i, scope, k),
        forall|m: int| 0 <= m < k ==> !#[trigger] names_terminal(w, i, scope, m),
    ensures
        walk::scope_terminal_from(w, i, text::lowered(scope), j) == Some(k),
    decreases k - j,
{
    let stem = text::lowered(scope);
    let name = text::lowered(classify::process_name(w.procs[j]));
    reveal_strlit("-");
    assert("-"@ =~= seq!['-']);
    text::laws::law_parts_of_a_text(stem, name + "-"@);
    if exists|rest: Seq<char>| stem == #[trigger] (name + seq!['-'] + rest) {
        let rest = choose|rest: Seq<char>| stem == #[trigger] (name + seq!['-'] + rest);
        assert(stem == (name + "-"@) + rest);
    }
    if text::has_prefix(stem, name + "-"@) {
        let rest = choose|rest: Seq<char>| stem == #[trigger] ((name + "-"@) + rest);
        assert(stem == name + seq!['-'] + rest);
    }
    if j < k {
        assert(!names_terminal(w, i, scope, j));
        lemma_terminal(w, i, scope, k, j + 1);
    }
}

/// A worker without a parent goes to the terminal its scope is named after.
pub proof fn law_a_lost_worker_is_its_terminals(
    w: World,
    i: int,
    k: int,
    unit: Seq<char>,
    scope: Seq<char>,
    found: Found,
    walking: Seq<bool>,
    depth: int,
    to: PlaceView,
)
    requires
        up_next(w, i, found, walking, depth),
        billing::is_a(w, i, Class::Worker),
        group::at_pid(w.procs, w.procs[i].ppid) is None,
        identity::unit_of(w.procs[i].cgroup@) == Some(unit),
        identity::scope_name(unit) == Some(scope),
        0 <= k < w.procs.len(),
        names_terminal(w, i, scope, k),
        forall|m: int| 0 <= m < k ==> !#[trigger] names_terminal(w, i, scope, m),
        found[k] == Some(to),
        to.folder != Folder::System,
    ensures
        shares(w, given(w, i, found, walking, depth), to),
{
    let (marks, d) = (walking.update(i, true), depth + 1);
    let ppid = w.procs[i].ppid;
    around::lemma_steps(w, i, found, walking, depth);
    assert(walk::resolve_pid(w, ppid, found, marks, d) == (None::<PlaceView>, found));
    assert(walk::owning_from(w, ppid, found, marks, d, walk::left(d) as int) == (
        None::<PlaceView>,
        found,
    ));
    assert(walk::owning_app(w, ppid, found, marks, d) == (None::<PlaceView>, found));
    lemma_terminal(w, i, scope, k, 0);
    around::lemma_told(w, 0, k, found, marks, d);
    assert(walk::lying_scope(w, i, found, marks, d) == (Some(walk::joined_by(w, i, to)), found));
}

// ---------------------------------------------------------------------------
// Images
// ---------------------------------------------------------------------------

/// A path goes on from a prefix.
#[verifier::opaque]
pub open spec fn starts_with(path: Seq<char>, prefix: Seq<char>) -> bool {
    exists|rest: Seq<char>| path == #[trigger] (prefix + rest)
}

proof fn lemma_starts_with(path: Seq<char>, prefix: Seq<char>)
    ensures
        starts_with(path, prefix) <==> text::has_prefix(path, prefix),
{
    reveal(starts_with);
    text::laws::law_parts_of_a_text(path, prefix);
}

/// Another process of the same user that runs from where an image is mounted,
/// and is no launcher, crash helper or worker.
pub open spec fn runs_from(w: World, i: int, prefix: Seq<char>, k: int) -> bool {
    let q = w.procs[k];
    &&& q.pid != w.procs[i].pid
    &&& q.uid == w.procs[i].uid
    &&& q.exe is Some
    &&& starts_with(q.exe->0@, prefix)
    &&& !billing::is_a(w, k, Class::Launcher)
    &&& !billing::is_a(w, k, Class::CrashHelper)
    &&& !billing::is_a(w, k, Class::Worker)
}

proof fn lemma_runs_from(w: World, i: int, prefix: Seq<char>, k: int)
    ensures
        runs_from(w, i, prefix, k) <==> walk::runs_from_mount(w, i, prefix, k),
{
    around::lemma_bits(group::classes_of(w.procs[k], w.rules).0);
    if w.procs[k].exe is Some {
        lemma_starts_with(w.procs[k].exe->0@, prefix);
    }
}

proof fn lemma_mounted(w: World, i: int, prefix: Seq<char>, k: int, j: int)
    requires
        0 <= j <= k < w.procs.len(),
        runs_from(w, i, prefix, k),
        forall|m: int| 0 <= m < k ==> !#[trigger] runs_from(w, i, prefix, m),
    ensures
        walk::mounted_from(w, i, prefix, j) == Some(k),
    decreases k - j,
{
    lemma_runs_from(w, i, prefix, j);
    if j < k {
        assert(!runs_from(w, i, prefix, j));
        lemma_mounted(w, i, prefix, k, j + 1);
    }
}

/// The runtime of an image goes to the first process that runs from its mount.
pub proof fn law_an_image_is_what_runs_from_it(
    w: World,
    i: int,
    k: int,
    prefix: Seq<char>,
    found: Found,
    walking: Seq<bool>,
    depth: int,
    to: PlaceView,
)
    requires
        up_next(w, i, found, walking, depth),
        billing::is_a(w, i, Class::Launcher),
        !billing::is_a(w, i, Class::Worker),
        !billing::is_a(w, i, Class::Noise),
        group::children_of(w.procs, i) =~= Seq::<int>::empty(),
        classify::mount_prefix(w.procs[i]) == Some(prefix),
        0 <= k < w.procs.len(),
        runs_from(w, i, prefix, k),
        forall|m: int| 0 <= m < k ==> !#[trigger] runs_from(w, i, prefix, m),
        found[k] == Some(to),
        a_users(to),
    ensures
        shares(w, given(w, i, found, walking, depth), to),
{
    let (marks, d) = (walking.update(i, true), depth + 1);
    around::lemma_steps(w, i, found, walking, depth);
    around::lemma_passed_by(w, i, found, marks, d);
    around::lemma_bits(group::classes_of(w.procs[i], w.rules).0);
    around::lemma_no_children(w, i, found, marks, d);
    lemma_mounted(w, i, prefix, k, 0);
    around::lemma_told(w, 0, k, found, marks, d);
    assert(walk::mount_owner(w, i, found, marks, d) == (Some(walk::joined_by(w, i, to)), found));
}

// ---------------------------------------------------------------------------
// Payloads further down
// ---------------------------------------------------------------------------

/// What pays for a launcher or a shell may stand below another: with one child
/// that is a launcher or a shell itself, and under that one that helps nobody,
/// the last one pays for both.
pub proof fn law_a_payload_below_a_shell_pays(
    w: World,
    i: int,
    s: int,
    c: int,
    found: Found,
    walking: Seq<bool>,
    depth: int,
    to: PlaceView,
)
    requires
        up_next(w, i, found, walking, depth),
        billing::is_a(w, i, Class::Launcher) || billing::is_a(w, i, Class::Shell),
        !billing::is_a(w, i, Class::Worker),
        !billing::is_a(w, i, Class::Noise),
        group::children_of(w.procs, i) =~= seq![s],
        billing::is_a(w, s, Class::Launcher) || billing::is_a(w, s, Class::Shell)
            || billing::is_a(w, s, Class::Noise),
        group::children_of(w.procs, s) =~= seq![c],
        !billing::is_a(w, c, Class::Launcher),
        !billing::is_a(w, c, Class::Shell),
        !billing::is_a(w, c, Class::Noise),
        !billing::is_a(w, c, Class::Worker),
        found[c] == Some(to),
    ensures
        shares(w, given(w, i, found, walking, depth), to),
{
    let (marks, d) = (walking.update(i, true), depth + 1);
    around::lemma_steps(w, i, found, walking, depth);
    around::lemma_bits(group::classes_of(w.procs[i], w.rules).0);
    around::lemma_bits(group::classes_of(w.procs[s], w.rules).0);
    lemma_one_payload(w, s, c, found, marks, d + 1, to);
    let kids = group::children_of(w.procs, i);
    assert(kids[0] == s && kids.len() == 1);
    assert(walk::kid_place(w, s, found, marks, d) == (seq![to], found));
    assert(walk::kid_places(w, kids, 1, found, marks, d) == (Seq::<PlaceView>::empty(), found));
    let all = walk::kid_places(w, kids, 0, found, marks, d);
    assert(all.0 =~= seq![to] && all.1 == found);
    assert(walk::agreed(all.0) == Some(to));
    assert(walk::unique(w, i, found, marks, d) == (Some(to), found));
}

proof fn lemma_one_payload(
    w: World,
    s: int,
    c: int,
    found: Found,
    walking: Seq<bool>,
    depth: int,
    to: PlaceView,
)
    requires
        0 <= depth < 60,
        group::children_of(w.procs, s) =~= seq![c],
        !billing::is_a(w, c, Class::Launcher),
        !billing::is_a(w, c, Class::Shell),
        !billing::is_a(w, c, Class::Noise),
        !billing::is_a(w, c, Class::Worker),
        found[c] == Some(to),
    ensures
        walk::unique(w, s, found, walking, depth) == (Some(to), found),
{
    around::lemma_bits(group::classes_of(w.procs[c], w.rules).0);
    around::lemma_told(w, 0, c, found, walking, depth + 1);
    let kids = group::children_of(w.procs, s);
    assert(kids[0] == c && kids.len() == 1);
    assert(walk::kid_place(w, c, found, walking, depth) == (seq![to], found));
    assert(walk::kid_places(w, kids, 1, found, walking, depth) == (Seq::<PlaceView>::empty(), found));
    let all = walk::kid_places(w, kids, 0, found, walking, depth);
    assert(all.0 =~= seq![to] && all.1 == found);
    assert(walk::agreed(all.0) == Some(to));
}

/// A worker below a launcher pays for it under the name its own facts give it,
/// where that is not just the name of its program.
pub proof fn law_a_named_worker_pays(
    w: World,
    i: int,
    c: int,
    found: Found,
    walking: Seq<bool>,
    depth: int,
)
    requires
        up_next(w, i, found, walking, depth),
        billing::is_a(w, i, Class::Launcher) || billing::is_a(w, i, Class::Shell),
        !billing::is_a(w, i, Class::Worker),
        !billing::is_a(w, i, Class::Noise),
        group::children_of(w.procs, i) =~= seq![c],
        billing::is_a(w, c, Class::Worker),
        !billing::is_a(w, c, Class::Launcher),
        !billing::is_a(w, c, Class::Shell),
        !billing::is_a(w, c, Class::Noise),
        group::children_of(w.procs, c) =~= Seq::<int>::empty(),
        place::raw(w, w.procs[c]).key != classify::process_name(w.procs[c]),
    ensures
        shares(w, given(w, i, found, walking, depth), place::raw(w, w.procs[c])),
{
    let (marks, d) = (walking.update(i, true), depth + 1);
    let own = place::raw(w, w.procs[c]);
    around::lemma_steps(w, i, found, walking, depth);
    around::lemma_bits(group::classes_of(w.procs[i], w.rules).0);
    around::lemma_bits(group::classes_of(w.procs[c], w.rules).0);
    around::lemma_no_children(w, c, found, marks, d + 1);
    let kids = group::children_of(w.procs, i);
    assert(kids[0] == c && kids.len() == 1);
    assert(walk::worker_leaf(w, c, found, marks, d) == (own, found));
    assert(walk::kid_place(w, c, found, marks, d) == (seq![own], found));
    assert(walk::kid_places(w, kids, 1, found, marks, d) == (Seq::<PlaceView>::empty(), found));
    let all = walk::kid_places(w, kids, 0, found, marks, d);
    assert(all.0 =~= seq![own] && all.1 == found);
    assert(walk::agreed(all.0) == Some(own));
    assert(walk::unique(w, i, found, marks, d) == (Some(own), found));
}

/// A shell is looked for a terminal past a parent that is none: the next one
/// up pays for it.
pub proof fn law_a_terminal_further_up(
    w: World,
    i: int,
    p: int,
    q: int,
    found: Found,
    walking: Seq<bool>,
    depth: int,
    at_p: PlaceView,
    to: PlaceView,
)
    requires
        up_next(w, i, found, walking, depth),
        billing::is_a(w, i, Class::Shell),
        !billing::is_a(w, i, Class::Worker),
        !billing::is_a(w, i, Class::Noise),
        !billing::is_a(w, i, Class::Launcher),
        group::children_of(w.procs, i) =~= Seq::<int>::empty(),
        group::at_pid(w.procs, w.procs[i].ppid) == Some(p),
        !around::stands_between(w, p),
        !around::owns_below(w, p),
        found[p] == Some(at_p),
        !w.rules.name_classes(at_p.key).any_of(rules::class_bit(Class::Terminal)),
        group::at_pid(w.procs, w.procs[p].ppid) == Some(q),
        found[q] == Some(to),
        to.folder != Folder::System,
        w.rules.name_classes(to.key).any_of(rules::class_bit(Class::Terminal)),
    ensures
        shares(w, given(w, i, found, walking, depth), to),
{
    let (marks, d) = (walking.update(i, true), depth + 1);
    let ppid = w.procs[i].ppid;
    around::lemma_steps(w, i, found, walking, depth);
    around::lemma_passed_by(w, i, found, marks, d);
    around::lemma_bits(group::classes_of(w.procs[i], w.rules).0);
    around::lemma_bits(group::classes_of(w.procs[p], w.rules).0);
    around::lemma_no_children(w, i, found, marks, d);
    around::lemma_told(w, ppid, p, found, marks, d);
    around::lemma_told(w, w.procs[p].ppid, q, found, marks, d + 1);
    assert(walk::owning_from(w, ppid, found, marks, d, walk::left(d) as int) == (
        None::<PlaceView>,
        found,
    ));
    assert(walk::owning_app(w, ppid, found, marks, d) == (None::<PlaceView>, found));
    assert(walk::terminal_from(w, w.procs[p].ppid, found, marks, d + 1) == (Some(to), found));
    assert(walk::terminal_from(w, ppid, found, marks, d) == (Some(to), found));
}

} // verus!
