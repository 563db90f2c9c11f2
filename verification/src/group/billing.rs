//! Who pays for a helper: what the place of a process owes to the places of
//! the processes around it.
use vstd::prelude::*;

use crate::group::place::PlaceView;
use crate::group::walk::Found;
use crate::group::World;
use crate::rules;
use crate::rules::Class;
use crate::types::Folder;
use crate::group;
use crate::group::{laws, place, walk};

verus! {

// ---------------------------------------------------------------------------
// What one process is told of another
// ---------------------------------------------------------------------------

/// The place a process gets when nobody around it is asked.
pub open spec fn alone(w: World, k: int) -> PlaceView {
    place::overridden(w.rules, place::raw(w, w.procs[k]))
}

/// What others are told of the `k`th process: its place where that is found,
/// or what it would get alone where it is being placed itself.
pub open spec fn told(w: World, found: Found, k: int, pl: PlaceView) -> bool {
    found[k] == Some(pl) || pl == alone(w, k)
}

/// The `k`th process has a class.
pub open spec fn is_a(w: World, k: int, c: Class) -> bool {
    group::classes_of(w.procs[k], w.rules).any_of(rules::class_bit(c))
}

/// A process that helps another: it may be billed elsewhere.
pub open spec fn helps(w: World, k: int) -> bool {
    is_a(w, k, Class::Worker) || is_a(w, k, Class::Noise) || is_a(w, k, Class::Launcher) || is_a(
        w,
        k,
        Class::Shell,
    ) || is_a(w, k, Class::Generic)
}

/// A process that helps another as anything but an interpreter.
pub open spec fn helps_otherwise(w: World, k: int) -> bool {
    is_a(w, k, Class::Worker) || is_a(w, k, Class::Noise) || is_a(w, k, Class::Launcher) || is_a(
        w,
        k,
        Class::Shell,
    )
}

/// Nothing but a look around places the `k`th process.
pub open spec fn undecided(w: World, k: int) -> bool {
    place::direct(w, w.procs[k]) is None
}

/// Two places in one row.
pub open spec fn same_row(a: PlaceView, b: PlaceView) -> bool {
    a.folder == b.folder && a.uid == b.uid && a.key == b.key && a.member == b.member
}

/// The `k`th process is billed to the row of the `q`th wherever that will do.
pub open spec fn billed_to(
    w: World,
    found: Found,
    k: int,
    pl: PlaceView,
    q: int,
    will_do: spec_fn(PlaceView) -> bool,
) -> bool {
    exists|to: PlaceView| #[trigger] told(w, found, q, to) && (will_do(to) ==> same_row(
        pl,
        place::overridden(w.rules, to),
    ))
}

/// A row outside the system.
pub open spec fn not_the_systems() -> spec_fn(PlaceView) -> bool {
    |to: PlaceView| to.folder != Folder::System
}

/// A row outside the system whose identity takes others in.
pub open spec fn takes_others(w: World) -> spec_fn(PlaceView) -> bool {
    |to: PlaceView|
        to.folder != Folder::System && !w.rules.name_classes(to.key).any_of(
            rules::class_bit(Class::NoAbsorb),
        )
}

/// A row of the applications.
pub open spec fn an_application() -> spec_fn(PlaceView) -> bool {
    |to: PlaceView| to.folder == Folder::Applications
}

/// The parent of the `k`th process takes nothing in.
pub open spec fn is_orphan(w: World, k: int) -> bool {
    match group::at_pid(w.procs, w.procs[k].ppid) {
        Some(q) => is_a(w, q, Class::NoAbsorb),
        None => false,
    }
}

/// How a found place follows from the places of others.
pub open spec fn explained(w: World, found: Found, k: int, pl: PlaceView) -> bool {
    let parent = group::at_pid(w.procs, w.procs[k].ppid);
    let leader = group::at_pid(w.procs, w.procs[k].pgrp as u32);
    undecided(w, k) ==> {
        &&& is_a(w, k, Class::Worker) && parent is Some ==> billed_to(
            w,
            found,
            k,
            pl,
            parent->0,
            takes_others(w),
        )
        &&& is_a(w, k, Class::Noise) && !is_a(w, k, Class::Worker) && parent is Some && !is_orphan(
            w,
            k,
        ) ==> billed_to(w, found, k, pl, parent->0, not_the_systems())
        &&& !helps(w, k) && is_orphan(w, k) && w.procs[k].pgrp >= 0 && w.procs[k].pgrp
            != w.procs[k].pid && leader is Some ==> billed_to(
            w,
            found,
            k,
            pl,
            leader->0,
            an_application(),
        )
        &&& !helps(w, k) && (!is_orphan(w, k) || w.procs[k].pgrp < 0 || w.procs[k].pgrp
            == w.procs[k].pid || leader is None) ==> pl == alone(w, k)
    }
}

/// What is told stays true.
pub proof fn lemma_billed_longer(
    w: World,
    a: Found,
    b: Found,
    k: int,
    pl: PlaceView,
    q: int,
    will_do: spec_fn(PlaceView) -> bool,
)
    requires
        laws::extends(a, b),
        0 <= q < a.len(),
        billed_to(w, a, k, pl, q, will_do),
    ensures
        billed_to(w, b, k, pl, q, will_do),
{
    let to = choose|to: PlaceView| #[trigger] told(w, a, q, to) && (will_do(to) ==> same_row(
        pl,
        place::overridden(w.rules, to),
    ));
    assert(told(w, b, q, to));
}

pub proof fn lemma_explained_longer(w: World, a: Found, b: Found, k: int, pl: PlaceView)
    requires
        laws::extends(a, b),
        a.len() == w.procs.len(),
        explained(w, a, k, pl),
    ensures
        explained(w, b, k, pl),
{
    if let Some(q) = group::at_pid(w.procs, w.procs[k].ppid) {
        if billed_to(w, a, k, pl, q, takes_others(w)) {
            lemma_billed_longer(w, a, b, k, pl, q, takes_others(w));
        }
        if billed_to(w, a, k, pl, q, not_the_systems()) {
            lemma_billed_longer(w, a, b, k, pl, q, not_the_systems());
        }
    }
    if let Some(q) = group::at_pid(w.procs, w.procs[k].pgrp as u32) {
        if billed_to(w, a, k, pl, q, an_application()) {
            lemma_billed_longer(w, a, b, k, pl, q, an_application());
        }
    }
}

/// The class bits, each apart from the others.
proof fn lemma_bits(c: u16)
    ensures
        c & (1u16 | 4u16) != 0 <==> (c & 1 != 0 || c & 4 != 0),
        c & (1u16 | 2u16 | 4u16 | 64u16) != 0 <==> (c & 1 != 0 || c & 2 != 0 || c & 4 != 0 || c & 64
            != 0),
{
    assert(c & (1u16 | 4u16) != 0 <==> (c & 1 != 0 || c & 4 != 0)) by (bit_vector);
    assert(c & (1u16 | 2u16 | 4u16 | 64u16) != 0 <==> (c & 1 != 0 || c & 2 != 0 || c & 4 != 0 || c
        & 64 != 0)) by (bit_vector);
}

proof fn lemma_same_row(w: World, i: int, to: PlaceView)
    ensures
        same_row(
            place::overridden(w.rules, walk::joined_by(w, i, to)),
            place::overridden(w.rules, to),
        ),
{
}

pub proof fn lemma_explains(w: World, i: int, found: Found, walking: Seq<bool>, depth: int)
    requires
        laws::fits(w, found, walking),
        laws::good(w, found),
        0 <= i < w.procs.len(),
        depth < 64,
    ensures
        ({
            let (r, after) = walk::compute(w, i, found, walking, depth);
            explained(w, after, i, place::overridden(w.rules, r))
        }),
    decreases walk::left(depth), 0int, 0int,
{
    let d = depth + 1;
    let (r, after) = walk::compute(w, i, found, walking, depth);
    let ppid = w.procs[i].ppid;
    let pgrp = w.procs[i].pgrp as u32;
    let classes = group::classes_of(w.procs[i], w.rules).0;
    lemma_bits(classes);
    if undecided(w, i) {
        let (r1, f1) = walk::worker_step(w, i, found, walking, d);
        laws::lemma_worker(w, i, found, walking, d);
        let (r2, f2) = walk::noise_step(w, i, f1, walking, d);
        laws::lemma_noise(w, i, f1, walking, d);
        let f3 = walk::payload_step(w, i, f2, walking, d).1;
        laws::lemma_payload(w, i, f2, walking, d);
        let f4 = walk::launcher_step(w, i, f3, walking, d).1;
        laws::lemma_launcher(w, i, f3, walking, d);
        let f5 = walk::shell_step(w, i, f4, walking, d).1;
        laws::lemma_shell(w, i, f4, walking, d);
        let f6 = walk::generic_step(w, i, f5, walking, d).1;
        laws::lemma_generic(w, i, f5, walking, d);
        let f7 = walk::orphan_step(w, i, f6, walking, d).1;
        laws::lemma_orphan(w, i, f6, walking, d);
        let f8 = walk::leader_step(w, i, f7, walking, d).1;
        laws::lemma_leader(w, i, f7, walking, d);
        laws::lemma_extends_twice(f1, f2, f3);
        laws::lemma_extends_twice(f1, f3, f4);
        laws::lemma_extends_twice(f1, f4, f5);
        laws::lemma_extends_twice(f1, f5, f6);
        laws::lemma_extends_twice(f1, f6, f7);
        laws::lemma_extends_twice(f1, f7, f8);
        laws::lemma_extends_twice(f2, f3, f4);
        laws::lemma_extends_twice(f2, f4, f5);
        laws::lemma_extends_twice(f2, f5, f6);
        laws::lemma_extends_twice(f2, f6, f7);
        laws::lemma_extends_twice(f2, f7, f8);
        assert(laws::extends(f1, after));
        assert(r1 is None ==> laws::extends(f2, after));
        let o = place::overridden(w.rules, r);
        if let Some(q) = group::at_pid(w.procs, ppid) {
            if is_a(w, i, Class::Worker) {
                laws::lemma_resolve_pid(w, ppid, found, walking, d);
                let (to, mid) = walk::resolve_pid(w, ppid, found, walking, d);
                lemma_same_row(w, i, to->0);
                if takes_others(w)(to->0) {
                    assert(r == walk::joined_by(w, i, to->0));
                    assert(after == mid);
                } else {
                    laws::lemma_lying(w, i, mid, walking, d);
                    assert(laws::extends(mid, f1));
                    laws::lemma_extends_twice(mid, f1, after);
                }
                assert(told(w, after, q, to->0));
                assert(billed_to(w, after, i, o, q, takes_others(w)));
            } else if is_a(w, i, Class::Noise) && !is_orphan(w, i) {
                assert(r1 is None && f1 == found);
                laws::lemma_resolve_pid(w, ppid, found, walking, d);
                let (to, mid) = walk::resolve_pid(w, ppid, found, walking, d);
                lemma_same_row(w, i, to->0);
                assert(f2 == mid);
                assert(told(w, after, q, to->0));
                assert(billed_to(w, after, i, o, q, not_the_systems()));
            }
        }
        if !helps(w, i) {
            assert(r1 is None && r2 is None && f2 == found);
            assert(f3 == found && f4 == found && f5 == found && f6 == found && f7 == found);
            if let Some(q) = group::at_pid(w.procs, pgrp) {
                if is_orphan(w, i) && w.procs[i].pgrp >= 0 && w.procs[i].pgrp != w.procs[i].pid {
                    laws::lemma_resolve_pid(w, pgrp, found, walking, d);
                    let (to, mid) = walk::resolve_pid(w, pgrp, found, walking, d);
                    lemma_same_row(w, i, to->0);
                    assert(after == mid);
                    assert(told(w, after, q, to->0));
                    assert(billed_to(w, after, i, o, q, an_application()));
                }
            }
        }
    }
}

// ---------------------------------------------------------------------------
// The laws of billing
// ---------------------------------------------------------------------------

/// A process billed to another has the row that other has in the end, or the
/// row the other would have alone where the two were being placed in a circle.
proof fn lemma_billed(w: World, k: int, q: int, will_do: spec_fn(PlaceView) -> bool)
    requires
        0 <= k < w.procs.len(),
        0 <= q < w.procs.len(),
        billed_to(w, laws::places(w), k, laws::places(w)[k]->0, q, will_do),
        will_do(laws::places(w)[q]->0),
        will_do(alone(w, q)),
        laws::places(w)[q] is Some,
    ensures
        same_row(
            laws::places(w)[k]->0,
            place::overridden(w.rules, laws::places(w)[q]->0),
        ) || same_row(laws::places(w)[k]->0, place::overridden(w.rules, alone(w, q))),
{
    let found = laws::places(w);
    let pl = found[k]->0;
    let to = choose|to: PlaceView| #[trigger] told(w, found, q, to) && (will_do(to) ==> same_row(
        pl,
        place::overridden(w.rules, to),
    ));
    assert(will_do(to));
}

/// A pipe helper (`cat`, `tee`) is billed to the row of its parent, in
/// whatever folder but the system's that row stands: the two share folder,
/// user, key and member, up to the placement rules.
pub proof fn law_a_pipe_helper_bills_to_its_parent(w: World, i: int, q: int)
    requires
        0 <= i < w.procs.len(),
        undecided(w, i),
        is_a(w, i, Class::Noise),
        !is_a(w, i, Class::Worker),
        group::at_pid(w.procs, w.procs[i].ppid) == Some(q),
        !is_a(w, q, Class::NoAbsorb),
        laws::places(w)[q]->0.folder != Folder::System,
        alone(w, q).folder != Folder::System,
    ensures
        same_row(
            laws::places(w)[i]->0,
            place::overridden(w.rules, laws::places(w)[q]->0),
        ) || same_row(laws::places(w)[i]->0, place::overridden(w.rules, alone(w, q))),
{
    laws::law_every_process_has_a_place(w);
    laws::lemma_all(w, 0, walk::nothing_found(w.procs.len()));
    let found = laws::places(w);
    assert(found[i] is Some && found[q] is Some);
    assert(explained(w, found, i, found[i]->0));
    lemma_billed(w, i, q, not_the_systems());
}

/// A worker is billed to the row of its parent, unless that is the system's or
/// the row of something that takes nobody in.
pub proof fn law_a_worker_bills_to_its_parent(w: World, i: int, q: int)
    requires
        0 <= i < w.procs.len(),
        undecided(w, i),
        is_a(w, i, Class::Worker),
        group::at_pid(w.procs, w.procs[i].ppid) == Some(q),
        laws::places(w)[q]->0.folder != Folder::System,
        !w.rules.name_classes(laws::places(w)[q]->0.key).any_of(rules::class_bit(Class::NoAbsorb)),
        alone(w, q).folder != Folder::System,
        !w.rules.name_classes(alone(w, q).key).any_of(rules::class_bit(Class::NoAbsorb)),
    ensures
        same_row(
            laws::places(w)[i]->0,
            place::overridden(w.rules, laws::places(w)[q]->0),
        ) || same_row(laws::places(w)[i]->0, place::overridden(w.rules, alone(w, q))),
{
    laws::law_every_process_has_a_place(w);
    laws::lemma_all(w, 0, walk::nothing_found(w.procs.len()));
    let found = laws::places(w);
    assert(found[i] is Some && found[q] is Some);
    assert(explained(w, found, i, found[i]->0));
    lemma_billed(w, i, q, takes_others(w));
}

/// A process whose own facts place it, or that helps nobody and was not left
/// behind by its session, is a row of its own: nothing around it matters.
pub proof fn law_who_helps_nobody_stands_alone(w: World, i: int)
    requires
        0 <= i < w.procs.len(),
        !undecided(w, i) || (!helps(w, i) && (!is_orphan(w, i) || w.procs[i].pgrp
            == w.procs[i].pid)),
    ensures
        laws::places(w)[i] == Some(alone(w, i)),
{
    laws::law_every_process_has_a_place(w);
    laws::lemma_all(w, 0, walk::nothing_found(w.procs.len()));
    let found = laws::places(w);
    assert(found[i] is Some);
    assert(explained(w, found, i, found[i]->0));
    assert(laws::settled(w, i, found[i]->0));
}

/// A pipe helper shares the row of a parent that stands alone: its folder, its
/// user, its key and its member, whatever the folder but the system's.
pub proof fn law_a_pipe_helper_of_an_application(w: World, i: int, q: int)
    requires
        0 <= i < w.procs.len(),
        undecided(w, i),
        is_a(w, i, Class::Noise),
        !is_a(w, i, Class::Worker),
        group::at_pid(w.procs, w.procs[i].ppid) == Some(q),
        !is_a(w, q, Class::NoAbsorb),
        !undecided(w, q) || (!helps(w, q) && !is_orphan(w, q)),
        laws::places(w)[q]->0.folder != Folder::System,
    ensures
        same_row(laws::places(w)[i]->0, place::overridden(w.rules, laws::places(w)[q]->0)),
        w.rules.placement_spec(laws::places(w)[q]->0.key) is None ==> same_row(
            laws::places(w)[i]->0,
            laws::places(w)[q]->0,
        ),
{
    law_who_helps_nobody_stands_alone(w, q);
    law_a_pipe_helper_bills_to_its_parent(w, i, q);
}

/// A process left behind by its session is billed to the leader of its process
/// group where that is an application.
pub proof fn law_an_orphan_bills_to_its_leader(w: World, i: int, q: int)
    requires
        0 <= i < w.procs.len(),
        undecided(w, i),
        !helps(w, i),
        is_orphan(w, i),
        w.procs[i].pgrp >= 0,
        w.procs[i].pgrp != w.procs[i].pid,
        group::at_pid(w.procs, w.procs[i].pgrp as u32) == Some(q),
        laws::places(w)[q]->0.folder == Folder::Applications,
        alone(w, q).folder == Folder::Applications,
    ensures
        same_row(
            laws::places(w)[i]->0,
            place::overridden(w.rules, laws::places(w)[q]->0),
        ) || same_row(laws::places(w)[i]->0, place::overridden(w.rules, alone(w, q))),
{
    laws::law_every_process_has_a_place(w);
    laws::lemma_all(w, 0, walk::nothing_found(w.procs.len()));
    let found = laws::places(w);
    assert(found[i] is Some && found[q] is Some);
    assert(explained(w, found, i, found[i]->0));
    lemma_billed(w, i, q, an_application());
}

} // verus!
