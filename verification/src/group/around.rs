//! Where a helper goes once the processes around it have their places: one law
//! for each way a process can belong to another.
use vstd::prelude::*;

use crate::group;
use crate::group::billing;
use crate::group::place::PlaceView;
use crate::group::walk::Found;
use crate::group::World;
use crate::group::{laws, place, walk};
use crate::rules;
use crate::rules::Class;
use crate::types::Folder;

verus! {

// ---------------------------------------------------------------------------
// The setting
// ---------------------------------------------------------------------------

/// The `i`th process is up next: it has no place yet, nothing but a look
/// around gives it one, and the walk is not too deep to look.
pub open spec fn up_next(w: World, i: int, found: Found, walking: Seq<bool>, depth: int) -> bool {
    &&& laws::fits(w, found, walking)
    &&& 0 <= i < w.procs.len()
    &&& found[i] is None
    &&& !walking[i]
    &&& 0 <= depth < 32
    &&& billing::undecided(w, i)
}

/// The place the `i`th process then gets.
#[verifier::opaque]
pub open spec fn given(
    w: World,
    i: int,
    found: Found,
    walking: Seq<bool>,
    depth: int,
) -> PlaceView {
    walk::resolve(w, i, found, walking, depth).0
}

/// A process is billed to the row of a place.
pub open spec fn shares(w: World, pl: PlaceView, to: PlaceView) -> bool {
    billing::same_row(pl, place::overridden(w.rules, to))
}

/// The row of a user: one of the applications or of the user's services.
pub open spec fn a_users(pl: PlaceView) -> bool {
    pl.folder == Folder::Applications || pl.folder == Folder::UserServices
}

/// A process that stands between an application and what it started.
pub open spec fn stands_between(w: World, k: int) -> bool {
    &&& w.rules.app_spec(group::facts_view(w.procs[k])) is None
    &&& billing::is_a(w, k, Class::Launcher) || billing::is_a(w, k, Class::Generic)
        || billing::is_a(w, k, Class::Shell) || billing::is_a(w, k, Class::Noise)
}

/// A process that owns what runs below it.
pub open spec fn owns_below(w: World, k: int) -> bool {
    ||| w.rules.app_spec(group::facts_view(w.procs[k])) is Some
    ||| !(billing::is_a(w, k, Class::Launcher) || billing::is_a(w, k, Class::Generic)
        || billing::is_a(w, k, Class::Shell) || billing::is_a(w, k, Class::Noise)
        || billing::is_a(w, k, Class::Terminal) || billing::is_a(w, k, Class::Compositor)
        || billing::is_a(w, k, Class::NoAbsorb))
}

/// The ancestors of a process from its parent up: each but the last stands
/// between, and each is the parent of the one before.
pub open spec fn chain_up(w: World, pid: u32, up: Seq<int>) -> bool {
    &&& up.len() > 0
    &&& group::at_pid(w.procs, pid) == Some(up[0])
    &&& forall|j: int|
        0 <= j < up.len() - 1 ==> stands_between(w, #[trigger] up[j]) && group::at_pid(
            w.procs,
            w.procs[up[j]].ppid,
        ) == Some(up[j + 1])
}

// ---------------------------------------------------------------------------
// The bits of a class
// ---------------------------------------------------------------------------

pub proof fn lemma_bits(c: u16)
    ensures
        c & (1u16 | 4u16) != 0 <==> (c & 1 != 0 || c & 4 != 0),
        c & (1u16 | 2u16 | 4u16 | 64u16) != 0 <==> (c & 1 != 0 || c & 2 != 0 || c & 4 != 0 || c & 64
            != 0),
        c & (1u16 | 4u16 | 64u16) != 0 <==> (c & 1 != 0 || c & 4 != 0 || c & 64 != 0),
        c & (2u16 | 1u16 | 4u16 | 8u16 | 16u16 | 256u16) != 0 <==> (c & 1 != 0 || c & 2 != 0 || c
            & 4 != 0 || c & 8 != 0 || c & 16 != 0 || c & 256 != 0),
        c & (1u16 | 2u16 | 4u16 | 64u16 | 32u16) != 0 <==> (c & 1 != 0 || c & 2 != 0 || c & 4 != 0
            || c & 64 != 0 || c & 32 != 0),
        c & (1u16 | 128u16 | 32u16) != 0 <==> (c & 1 != 0 || c & 128 != 0 || c & 32 != 0),
{
    assert(c & (1u16 | 4u16) != 0 <==> (c & 1 != 0 || c & 4 != 0)) by (bit_vector);
    assert(c & (1u16 | 2u16 | 4u16 | 64u16) != 0 <==> (c & 1 != 0 || c & 2 != 0 || c & 4 != 0 || c
        & 64 != 0)) by (bit_vector);
    assert(c & (1u16 | 4u16 | 64u16) != 0 <==> (c & 1 != 0 || c & 4 != 0 || c & 64 != 0))
        by (bit_vector);
    assert(c & (2u16 | 1u16 | 4u16 | 8u16 | 16u16 | 256u16) != 0 <==> (c & 1 != 0 || c & 2 != 0 || c
        & 4 != 0 || c & 8 != 0 || c & 16 != 0 || c & 256 != 0)) by (bit_vector);
    assert(c & (1u16 | 2u16 | 4u16 | 64u16 | 32u16) != 0 <==> (c & 1 != 0 || c & 2 != 0 || c & 4
        != 0 || c & 64 != 0 || c & 32 != 0)) by (bit_vector);
    assert(c & (1u16 | 128u16 | 32u16) != 0 <==> (c & 1 != 0 || c & 128 != 0 || c & 32 != 0))
        by (bit_vector);
}

/// A process without the class of a step is passed by.
pub proof fn lemma_passed_by(w: World, i: int, found: Found, walking: Seq<bool>, depth: int)
    ensures
        !billing::is_a(w, i, Class::Worker) ==> walk::worker_step(w, i, found, walking, depth) == (
            None::<PlaceView>,
            found,
        ),
        !billing::is_a(w, i, Class::Noise) ==> walk::noise_step(w, i, found, walking, depth) == (
            None::<PlaceView>,
            found,
        ),
        !billing::is_a(w, i, Class::Launcher) && !billing::is_a(w, i, Class::Shell)
            ==> walk::payload_step(w, i, found, walking, depth) == (None::<PlaceView>, found),
        !billing::is_a(w, i, Class::Launcher) ==> walk::launcher_step(w, i, found, walking, depth)
            == (None::<PlaceView>, found),
        !billing::is_a(w, i, Class::Shell) ==> walk::shell_step(w, i, found, walking, depth) == (
            None::<PlaceView>,
            found,
        ),
        !billing::is_a(w, i, Class::Generic) ==> walk::generic_step(w, i, found, walking, depth)
            == (None::<PlaceView>, found),
        !billing::is_a(w, i, Class::Generic) || !billing::is_orphan(w, i) ==> walk::orphan_step(
            w,
            i,
            found,
            walking,
            depth,
        ) == (None::<PlaceView>, found),
        !billing::is_orphan(w, i) ==> walk::leader_step(w, i, found, walking, depth) == (
            None::<PlaceView>,
            found,
        ),
{
    lemma_bits(group::classes_of(w.procs[i], w.rules).0);
}

/// Which step decides.
pub proof fn lemma_steps(w: World, i: int, found: Found, walking: Seq<bool>, depth: int)
    requires
        up_next(w, i, found, walking, depth),
    ensures
        ({
            let marks = walking.update(i, true);
            let d = depth + 1;
            let r1 = walk::worker_step(w, i, found, marks, d);
            let r2 = walk::noise_step(w, i, found, marks, d);
            let r3 = walk::payload_step(w, i, found, marks, d);
            let r4 = walk::launcher_step(w, i, found, marks, d);
            let r5 = walk::shell_step(w, i, found, marks, d);
            let r6 = walk::generic_step(w, i, found, marks, d);
            let r7 = walk::orphan_step(w, i, found, marks, d);
            let got = given(w, i, found, walking, depth);
            let nothing = (None::<PlaceView>, found);
            let helper = billing::is_a(w, i, Class::Worker) || billing::is_a(w, i, Class::Noise);
            &&& r1.0 is Some ==> got == place::overridden(w.rules, r1.0->0)
            &&& !billing::is_a(w, i, Class::Worker) && r2.0 is Some ==> got == place::overridden(
                w.rules,
                r2.0->0,
            )
            &&& !helper && r3.0 is Some ==> got == place::overridden(w.rules, r3.0->0)
            &&& !helper && r3 == nothing && r4.0 is Some ==> got == place::overridden(
                w.rules,
                r4.0->0,
            )
            &&& !helper && r3 == nothing && r4 == nothing && r5.0 is Some ==> got
                == place::overridden(w.rules, r5.0->0)
            &&& !helper && r3 == nothing && r4 == nothing && r5 == nothing && r6.0 is Some ==> got
                == place::overridden(w.rules, r6.0->0)
            &&& !helper && r3 == nothing && r4 == nothing && r5 == nothing && r6 == nothing
                && r7.0 is Some ==> got == place::overridden(w.rules, r7.0->0)
            &&& !helper && r3 == nothing && r4 == nothing && r5 == nothing && r6 == nothing
                && !billing::is_orphan(w, i) ==> got == billing::alone(w, i)
        }),
{
    reveal(given);
    let marks = walking.update(i, true);
    let (pl, after) = walk::compute(w, i, found, marks, depth);
    lemma_passed_by(w, i, found, marks, depth + 1);
    assert(given(w, i, found, walking, depth) == place::overridden(w.rules, pl));
}

/// What is found is told.
pub proof fn lemma_told(w: World, pid: u32, q: int, found: Found, walking: Seq<bool>, depth: int)
    requires
        found[q] is Some,
    ensures
        walk::resolve(w, q, found, walking, depth) == (found[q]->0, found),
        group::at_pid(w.procs, pid) == Some(q) ==> walk::resolve_pid(w, pid, found, walking, depth)
            == (found[q], found),
{
    assert(walk::resolve(w, q, found, walking, depth) == (found[q]->0, found));
}

/// The place found of an ancestor that owns what runs below it is handed down
/// the chain.
proof fn lemma_handed_down(
    w: World,
    pid: u32,
    up: Seq<int>,
    found: Found,
    walking: Seq<bool>,
    depth: int,
    steps: int,
    to: PlaceView,
)
    requires
        chain_up(w, pid, up),
        owns_below(w, up.last()),
        found[up.last()] == Some(to),
        steps >= up.len(),
    ensures
        walk::owning_from(w, pid, found, walking, depth, steps) == (if a_users(to) {
            Some(to)
        } else {
            None
        }, found),
    decreases up.len(),
{
    let k = up[0];
    lemma_bits(group::classes_of(w.procs[k], w.rules).0);
    lemma_told(w, pid, up.last(), found, walking, depth);
    if up.len() > 1 {
        assert(stands_between(w, up[0]));
        let rest = up.subrange(1, up.len() as int);
        assert(rest[0] == up[1]);
        assert(rest.last() == up.last());
        assert forall|j: int| 0 <= j < rest.len() - 1 implies stands_between(w, #[trigger] rest[j])
            && group::at_pid(w.procs, w.procs[rest[j]].ppid) == Some(rest[j + 1]) by {
            assert(rest[j] == up[j + 1]);
            assert(stands_between(w, up[j + 1]));
            assert(rest[j + 1] == up[j + 2]);
        }
        lemma_handed_down(w, w.procs[k].ppid, rest, found, walking, depth, steps - 1, to);
    }
}

/// Without children there is no payload.
pub proof fn lemma_no_children(w: World, i: int, found: Found, walking: Seq<bool>, depth: int)
    requires
        group::children_of(w.procs, i) =~= Seq::<int>::empty(),
    ensures
        walk::unique(w, i, found, walking, depth) == (None::<PlaceView>, found),
{
    let kids = group::children_of(w.procs, i);
    let all = walk::kid_places(w, kids, 0, found, walking, depth);
    assert(all == (Seq::<PlaceView>::empty(), found));
}

// ---------------------------------------------------------------------------
// The laws
// ---------------------------------------------------------------------------

/// A pipe helper gets the row of its parent, whatever it is but the system's.
pub proof fn law_a_pipe_helper_follows_its_parent(
    w: World,
    i: int,
    q: int,
    found: Found,
    walking: Seq<bool>,
    depth: int,
    to: PlaceView,
)
    requires
        up_next(w, i, found, walking, depth),
        billing::is_a(w, i, Class::Noise),
        !billing::is_a(w, i, Class::Worker),
        group::at_pid(w.procs, w.procs[i].ppid) == Some(q),
        !billing::is_a(w, q, Class::NoAbsorb),
        found[q] == Some(to),
        to.folder != Folder::System,
    ensures
        shares(w, given(w, i, found, walking, depth), to),
        given(w, i, found, walking, depth).instance == place::instance_of(w, w.procs[i]),
{
    lemma_steps(w, i, found, walking, depth);
    lemma_passed_by(w, i, found, walking.update(i, true), depth + 1);
    lemma_told(w, w.procs[i].ppid, q, found, walking.update(i, true), depth + 1);
}

/// A worker gets the row of its parent, unless that is the system's or takes
/// nobody in.
pub proof fn law_a_worker_follows_its_parent(
    w: World,
    i: int,
    q: int,
    found: Found,
    walking: Seq<bool>,
    depth: int,
    to: PlaceView,
)
    requires
        up_next(w, i, found, walking, depth),
        billing::is_a(w, i, Class::Worker),
        group::at_pid(w.procs, w.procs[i].ppid) == Some(q),
        found[q] == Some(to),
        to.folder != Folder::System,
        !w.rules.name_classes(to.key).any_of(rules::class_bit(Class::NoAbsorb)),
    ensures
        shares(w, given(w, i, found, walking, depth), to),
        given(w, i, found, walking, depth).instance == place::instance_of(w, w.procs[i]),
{
    lemma_steps(w, i, found, walking, depth);
    lemma_passed_by(w, i, found, walking.update(i, true), depth + 1);
    lemma_told(w, w.procs[i].ppid, q, found, walking.update(i, true), depth + 1);
}

/// An interpreter gets the row of the nearest ancestor that owns what runs
/// below it, past every launcher, shell, pipe helper and other interpreter
/// between the two, where that row is a user's.
pub proof fn law_an_interpreter_follows_its_application(
    w: World,
    i: int,
    up: Seq<int>,
    found: Found,
    walking: Seq<bool>,
    depth: int,
    to: PlaceView,
)
    requires
        up_next(w, i, found, walking, depth),
        billing::is_a(w, i, Class::Generic),
        !billing::is_a(w, i, Class::Worker),
        !billing::is_a(w, i, Class::Noise),
        !billing::is_a(w, i, Class::Launcher),
        !billing::is_a(w, i, Class::Shell),
        chain_up(w, w.procs[i].ppid, up),
        up.len() < 32,
        owns_below(w, up.last()),
        found[up.last()] == Some(to),
        a_users(to),
    ensures
        shares(w, given(w, i, found, walking, depth), to),
{
    lemma_steps(w, i, found, walking, depth);
    lemma_passed_by(w, i, found, walking.update(i, true), depth + 1);
    assert(walk::owning_app(w, w.procs[i].ppid, found, walking.update(i, true), depth + 1)
        == walk::owning_from(w, w.procs[i].ppid, found, walking.update(i, true), depth + 1, walk::left(depth + 1) as int));
    lemma_bits(group::classes_of(w.procs[i], w.rules).0);
    lemma_handed_down(
        w,
        w.procs[i].ppid,
        up,
        found,
        walking.update(i, true),
        depth + 1,
        walk::left(depth + 1) as int,
        to,
    );
}

/// Below a terminal, a compositor or whatever takes nobody in, an interpreter
/// is a row of its own, unless it lost its application.
pub proof fn law_an_interpreter_of_a_terminal_is_its_own(
    w: World,
    i: int,
    q: int,
    found: Found,
    walking: Seq<bool>,
    depth: int,
)
    requires
        up_next(w, i, found, walking, depth),
        billing::is_a(w, i, Class::Generic),
        !billing::is_a(w, i, Class::Worker),
        !billing::is_a(w, i, Class::Noise),
        !billing::is_a(w, i, Class::Launcher),
        !billing::is_a(w, i, Class::Shell),
        group::at_pid(w.procs, w.procs[i].ppid) == Some(q),
        w.rules.app_spec(group::facts_view(w.procs[q])) is None,
        billing::is_a(w, q, Class::Terminal) || billing::is_a(w, q, Class::Compositor),
        !billing::is_a(w, q, Class::Launcher),
        !billing::is_a(w, q, Class::Generic),
        !billing::is_a(w, q, Class::Shell),
        !billing::is_a(w, q, Class::Noise),
        !billing::is_a(w, q, Class::NoAbsorb),
    ensures
        given(w, i, found, walking, depth) == billing::alone(w, i),
{
    lemma_steps(w, i, found, walking, depth);
    lemma_passed_by(w, i, found, walking.update(i, true), depth + 1);
    assert(walk::owning_app(w, w.procs[i].ppid, found, walking.update(i, true), depth + 1)
        == walk::owning_from(w, w.procs[i].ppid, found, walking.update(i, true), depth + 1, walk::left(depth + 1) as int));
    lemma_bits(group::classes_of(w.procs[i], w.rules).0);
    lemma_bits(group::classes_of(w.procs[q], w.rules).0);
    assert(walk::left(depth + 1) > 0);
}

/// A shell that started nothing gets the row of the application above it.
pub proof fn law_a_shell_follows_its_application(
    w: World,
    i: int,
    up: Seq<int>,
    found: Found,
    walking: Seq<bool>,
    depth: int,
    to: PlaceView,
)
    requires
        up_next(w, i, found, walking, depth),
        billing::is_a(w, i, Class::Shell),
        !billing::is_a(w, i, Class::Worker),
        !billing::is_a(w, i, Class::Noise),
        !billing::is_a(w, i, Class::Launcher),
        group::children_of(w.procs, i) =~= Seq::<int>::empty(),
        chain_up(w, w.procs[i].ppid, up),
        up.len() < 32,
        owns_below(w, up.last()),
        found[up.last()] == Some(to),
        a_users(to),
    ensures
        shares(w, given(w, i, found, walking, depth), to),
{
    lemma_steps(w, i, found, walking, depth);
    lemma_passed_by(w, i, found, walking.update(i, true), depth + 1);
    assert(walk::owning_app(w, w.procs[i].ppid, found, walking.update(i, true), depth + 1)
        == walk::owning_from(w, w.procs[i].ppid, found, walking.update(i, true), depth + 1, walk::left(depth + 1) as int));
    lemma_no_children(w, i, found, walking.update(i, true), depth + 1);
    lemma_bits(group::classes_of(w.procs[i], w.rules).0);
    lemma_handed_down(
        w,
        w.procs[i].ppid,
        up,
        found,
        walking.update(i, true),
        depth + 1,
        walk::left(depth + 1) as int,
        to,
    );
}

/// A shell that started nothing, right below a terminal, is billed to that
/// terminal.
pub proof fn law_an_idle_shell_is_its_terminals(
    w: World,
    i: int,
    q: int,
    found: Found,
    walking: Seq<bool>,
    depth: int,
    to: PlaceView,
)
    requires
        up_next(w, i, found, walking, depth),
        billing::is_a(w, i, Class::Shell),
        !billing::is_a(w, i, Class::Worker),
        !billing::is_a(w, i, Class::Noise),
        !billing::is_a(w, i, Class::Launcher),
        group::children_of(w.procs, i) =~= Seq::<int>::empty(),
        group::at_pid(w.procs, w.procs[i].ppid) == Some(q),
        w.rules.app_spec(group::facts_view(w.procs[q])) is None,
        billing::is_a(w, q, Class::Terminal),
        !billing::is_a(w, q, Class::Launcher),
        !billing::is_a(w, q, Class::Generic),
        !billing::is_a(w, q, Class::Shell),
        !billing::is_a(w, q, Class::Noise),
        found[q] == Some(to),
        to.folder != Folder::System,
        w.rules.name_classes(to.key).any_of(rules::class_bit(Class::Terminal)),
    ensures
        shares(w, given(w, i, found, walking, depth), to),
{
    lemma_steps(w, i, found, walking, depth);
    lemma_passed_by(w, i, found, walking.update(i, true), depth + 1);
    assert(walk::owning_app(w, w.procs[i].ppid, found, walking.update(i, true), depth + 1)
        == walk::owning_from(w, w.procs[i].ppid, found, walking.update(i, true), depth + 1, walk::left(depth + 1) as int));
    lemma_no_children(w, i, found, walking.update(i, true), depth + 1);
    lemma_told(w, w.procs[i].ppid, q, found, walking.update(i, true), depth + 1);
    lemma_bits(group::classes_of(w.procs[i], w.rules).0);
    lemma_bits(group::classes_of(w.procs[q], w.rules).0);
    assert(walk::terminal_from(w, w.procs[i].ppid, found, walking.update(i, true), depth + 1)
        == (Some(to), found));
    assert(walk::left(depth + 1) > 0);
}

/// A launcher or a shell with one child gets the row of that child, where the
/// child helps nobody itself: what it started pays for it.
pub proof fn law_what_was_started_pays(
    w: World,
    i: int,
    c: int,
    found: Found,
    walking: Seq<bool>,
    depth: int,
    to: PlaceView,
)
    requires
        up_next(w, i, found, walking, depth),
        billing::is_a(w, i, Class::Launcher) || billing::is_a(w, i, Class::Shell),
        !billing::is_a(w, i, Class::Worker),
        !billing::is_a(w, i, Class::Noise),
        group::children_of(w.procs, i) =~= seq![c],
        !billing::is_a(w, c, Class::Launcher),
        !billing::is_a(w, c, Class::Shell),
        !billing::is_a(w, c, Class::Noise),
        !billing::is_a(w, c, Class::Worker),
        found[c] == Some(to),
    ensures
        shares(w, given(w, i, found, walking, depth), to),
{
    lemma_steps(w, i, found, walking, depth);
    lemma_passed_by(w, i, found, walking.update(i, true), depth + 1);
    lemma_bits(group::classes_of(w.procs[i], w.rules).0);
    lemma_bits(group::classes_of(w.procs[c], w.rules).0);
    let marks = walking.update(i, true);
    let d = depth + 1;
    let kids = group::children_of(w.procs, i);
    assert(kids[0] == c && kids.len() == 1);
    let here = walk::kid_place(w, c, found, marks, d);
    lemma_told(w, 0, c, found, marks, d + 1);
    assert(here == (seq![to], found));
    let rest = walk::kid_places(w, kids, 1, found, marks, d);
    assert(rest == (Seq::<PlaceView>::empty(), found));
    let all = walk::kid_places(w, kids, 0, found, marks, d);
    assert(all.0 == seq![to] + Seq::<PlaceView>::empty());
    assert(all.0 =~= seq![to]);
    assert(walk::agreed(all.0) == Some(to));
    assert(walk::unique(w, i, found, marks, d) == (Some(to), found));
}

/// With two children of different rows, neither pays for the launcher or the
/// shell that started them: a shell of nobody's stays a row of its own.
pub proof fn law_two_payloads_pay_nothing(
    w: World,
    i: int,
    c: int,
    e: int,
    found: Found,
    walking: Seq<bool>,
    depth: int,
)
    requires
        up_next(w, i, found, walking, depth),
        billing::is_a(w, i, Class::Shell),
        !billing::is_a(w, i, Class::Launcher),
        !billing::is_a(w, i, Class::Worker),
        !billing::is_a(w, i, Class::Noise),
        !billing::is_a(w, i, Class::Generic),
        group::children_of(w.procs, i) =~= seq![c, e],
        forall|k: int| k == c || k == e ==> !#[trigger] billing::is_a(w, k, Class::Launcher)
            && !billing::is_a(w, k, Class::Shell) && !billing::is_a(w, k, Class::Noise)
            && !billing::is_a(w, k, Class::Worker),
        found[c] is Some,
        found[e] is Some,
        found[c]->0.key != found[e]->0.key,
        group::at_pid(w.procs, w.procs[i].ppid) is None,
        0 <= w.procs[i].pgrp,
    ensures
        given(w, i, found, walking, depth) == billing::alone(w, i),
{
    lemma_steps(w, i, found, walking, depth);
    lemma_passed_by(w, i, found, walking.update(i, true), depth + 1);
    assert(walk::owning_app(w, w.procs[i].ppid, found, walking.update(i, true), depth + 1)
        == walk::owning_from(w, w.procs[i].ppid, found, walking.update(i, true), depth + 1, walk::left(depth + 1) as int));
    lemma_bits(group::classes_of(w.procs[i], w.rules).0);
    lemma_bits(group::classes_of(w.procs[c], w.rules).0);
    lemma_bits(group::classes_of(w.procs[e], w.rules).0);
    assert(!billing::is_a(w, c, Class::Launcher) && !billing::is_a(w, e, Class::Launcher));
    let marks = walking.update(i, true);
    let d = depth + 1;
    let kids = group::children_of(w.procs, i);
    assert(kids[0] == c && kids[1] == e && kids.len() == 2);
    lemma_told(w, 0, c, found, marks, d + 1);
    lemma_told(w, 0, e, found, marks, d + 1);
    assert(walk::kid_place(w, c, found, marks, d) == (seq![found[c]->0], found));
    assert(walk::kid_place(w, e, found, marks, d) == (seq![found[e]->0], found));
    assert(walk::kid_places(w, kids, 2, found, marks, d) == (Seq::<PlaceView>::empty(), found));
    let tail = walk::kid_places(w, kids, 1, found, marks, d);
    assert(tail.0 =~= seq![found[e]->0] && tail.1 == found);
    let all = walk::kid_places(w, kids, 0, found, marks, d);
    assert(all.0 =~= seq![found[c]->0, found[e]->0] && all.1 == found);
    assert(all.0[1].key != all.0[0].key);
    assert(walk::agreed(all.0) is None);
    assert(walk::unique(w, i, found, marks, d) == (None::<PlaceView>, found));
    assert(walk::terminal_from(w, w.procs[i].ppid, found, marks, d) == (None::<PlaceView>, found));
    assert(walk::left(d) > 0);
}

/// A launcher that says nothing of what it starts, and has nothing below it,
/// gets the row of its parent, unless that is the system's or a launcher's.
pub proof fn law_a_silent_launcher_follows_its_parent(
    w: World,
    i: int,
    q: int,
    found: Found,
    walking: Seq<bool>,
    depth: int,
    to: PlaceView,
)
    requires
        up_next(w, i, found, walking, depth),
        billing::is_a(w, i, Class::Launcher),
        !billing::is_a(w, i, Class::Worker),
        !billing::is_a(w, i, Class::Noise),
        group::children_of(w.procs, i) =~= Seq::<int>::empty(),
        crate::classify::mount_prefix(w.procs[i]) is None,
        crate::classify::payload_hint(w.procs[i], w.rules) is None,
        group::at_pid(w.procs, w.procs[i].ppid) == Some(q),
        found[q] == Some(to),
        to.folder != Folder::System,
        !w.rules.name_classes(to.key).any_of(rules::class_bit(Class::Launcher)),
    ensures
        shares(w, given(w, i, found, walking, depth), to),
{
    lemma_steps(w, i, found, walking, depth);
    lemma_passed_by(w, i, found, walking.update(i, true), depth + 1);
    lemma_no_children(w, i, found, walking.update(i, true), depth + 1);
    lemma_told(w, w.procs[i].ppid, q, found, walking.update(i, true), depth + 1);
    assert(walk::mount_owner(w, i, found, walking.update(i, true), depth + 1) == (None::<PlaceView>, found));
    lemma_bits(group::classes_of(w.procs[i], w.rules).0);
}

/// A launcher that says what it starts is billed to that name, as a row of its
/// own user's.
pub proof fn law_a_launcher_is_named_by_what_it_starts(
    w: World,
    i: int,
    found: Found,
    walking: Seq<bool>,
    depth: int,
    name: Seq<char>,
)
    requires
        up_next(w, i, found, walking, depth),
        billing::is_a(w, i, Class::Launcher),
        !billing::is_a(w, i, Class::Worker),
        !billing::is_a(w, i, Class::Noise),
        group::children_of(w.procs, i) =~= Seq::<int>::empty(),
        crate::classify::mount_prefix(w.procs[i]) is None,
        crate::classify::payload_hint(w.procs[i], w.rules) == Some(name),
        w.rules.placement_spec(name) is None,
    ensures
        given(w, i, found, walking, depth).key == name,
        given(w, i, found, walking, depth).uid == Some(w.procs[i].uid),
        given(w, i, found, walking, depth).member is None,
        a_users(given(w, i, found, walking, depth)),
{
    lemma_steps(w, i, found, walking, depth);
    lemma_passed_by(w, i, found, walking.update(i, true), depth + 1);
    lemma_no_children(w, i, found, walking.update(i, true), depth + 1);
    assert(walk::mount_owner(w, i, found, walking.update(i, true), depth + 1) == (None::<PlaceView>, found));
    lemma_bits(group::classes_of(w.procs[i], w.rules).0);
}

/// An interpreter that lost its parent gets the row of the first process in
/// its control group that is an application in its own right.
pub proof fn law_a_lost_interpreter_follows_its_control_group(
    w: World,
    i: int,
    q: int,
    k: int,
    found: Found,
    walking: Seq<bool>,
    depth: int,
    to: PlaceView,
)
    requires
        up_next(w, i, found, walking, depth),
        billing::is_a(w, i, Class::Generic),
        !billing::helps_otherwise(w, i),
        group::at_pid(w.procs, w.procs[i].ppid) == Some(q),
        billing::is_a(w, q, Class::NoAbsorb),
        w.rules.app_spec(group::facts_view(w.procs[q])) is None,
        !stands_between(w, q),
        !group::flags_of(w.procs[i], w.rules).lies(),
        0 <= k < w.procs.len(),
        own_application(w, i, k),
        forall|j: int| 0 <= j < k ==> !#[trigger] own_application(w, i, j),
        found[k] == Some(to),
        a_users(to),
    ensures
        shares(w, given(w, i, found, walking, depth), to),
{
    lemma_steps(w, i, found, walking, depth);
    lemma_passed_by(w, i, found, walking.update(i, true), depth + 1);
    assert(walk::owning_app(w, w.procs[i].ppid, found, walking.update(i, true), depth + 1)
        == walk::owning_from(w, w.procs[i].ppid, found, walking.update(i, true), depth + 1, walk::left(depth + 1) as int));
    lemma_told(w, 0, k, found, walking.update(i, true), depth + 1);
    lemma_bits(group::classes_of(w.procs[i], w.rules).0);
    lemma_bits(group::classes_of(w.procs[q], w.rules).0);
    lemma_first_owner(w, i, k, 0);
    assert(walk::left(depth + 1) > 0);
}

/// Another process of the same control group that is no helper, or that a rule
/// names as an application.
pub open spec fn own_application(w: World, i: int, k: int) -> bool {
    &&& w.procs[k].pid != w.procs[i].pid
    &&& w.procs[k].cgroup@ == w.procs[i].cgroup@
    &&& !billing::helps(w, k) || w.rules.app_spec(group::facts_view(w.procs[k])) is Some
}

proof fn lemma_first_owner(w: World, i: int, k: int, j: int)
    requires
        0 <= j <= k < w.procs.len(),
        own_application(w, i, k),
        forall|m: int| 0 <= m < k ==> !#[trigger] own_application(w, i, m),
    ensures
        walk::group_owner_from(w, i, j) == Some(k),
    decreases k - j,
{
    lemma_bits(group::classes_of(w.procs[j], w.rules).0);
    if j < k {
        assert(!own_application(w, i, j));
        lemma_first_owner(w, i, k, j + 1);
    }
}

} // verus!
