//! What holds of every placement.
use vstd::prelude::*;

use crate::group::place::PlaceView;
use crate::group::walk::Found;
use crate::group::World;
use crate::rules::{Classes, Rules};
use crate::types::{Folder, Process};
use crate::{classify, containers, group, identity, text};
use crate::group::{billing, place, walk};

verus! {

/// What every place keeps to: a folder of a user has a user, the system has
/// none, and only a container has members.
pub open spec fn sane(pl: PlaceView) -> bool {
    &&& place::users_own(pl.folder) ==> pl.uid is Some
    &&& pl.folder == Folder::System ==> pl.uid is None
    &&& pl.folder != Folder::Containers ==> pl.member is None
}

/// What is found so far keeps to that, and a process that needs no look around
/// has the place that its own facts give it.
pub open spec fn good(w: World, found: Found) -> bool {
    forall|k: int|
        0 <= k < found.len() && (#[trigger] found[k]) is Some ==> sane(found[k]->0) && settled(
            w,
            k,
            found[k]->0,
        ) && billing::explained(w, found, k, found[k]->0)
}

/// Where the facts of a process alone decide, the place is the one they give.
pub open spec fn settled(w: World, k: int, pl: PlaceView) -> bool {
    place::direct(w, w.procs[k]) is Some ==> pl == place::overridden(
        w.rules,
        place::direct(w, w.procs[k])->0,
    )
}

/// Nothing that was found is lost or changed.
pub open spec fn extends(a: Found, b: Found) -> bool {
    &&& a.len() == b.len()
    &&& forall|k: int| 0 <= k < a.len() && (#[trigger] a[k]) is Some ==> b[k] == a[k]
}

pub open spec fn fits(w: World, found: Found, walking: Seq<bool>) -> bool {
    found.len() == w.procs.len() && walking.len() == w.procs.len()
}

pub proof fn lemma_extends_twice(a: Found, b: Found, c: Found)
    requires
        extends(a, b),
        extends(b, c),
    ensures
        extends(a, c),
{
    assert forall|k: int| 0 <= k < a.len() && (#[trigger] a[k]) is Some implies c[k] == a[k] by {
        assert(b[k] == a[k]);
    }
}

/// Nothing that was found is lost or changed, and what is being placed is not
/// found meanwhile.
pub open spec fn kept(a: Found, b: Found, walking: Seq<bool>) -> bool {
    &&& extends(a, b)
    &&& forall|k: int|
        0 <= k < a.len() && walking[k] && (#[trigger] b[k]) is Some ==> a[k] is Some
}

pub proof fn lemma_kept_twice(a: Found, b: Found, c: Found, walking: Seq<bool>)
    requires
        kept(a, b, walking),
        kept(b, c, walking),
    ensures
        kept(a, c, walking),
{
    lemma_extends_twice(a, b, c);
    assert forall|k: int| 0 <= k < a.len() && walking[k] && (#[trigger] c[k]) is Some implies a[k] is Some by {
        assert(b[k] is Some);
    }
}

/// A process on its own gets a sane place.
proof fn lemma_raw_sane(w: World, p: Process)
    ensures
        sane(place::raw(w, p)),
        sane(place::in_user(w, p)),
        place::direct(w, p) matches Some(pl) ==> sane(pl),
{
}

/// The placement rules change nothing but the folder and the key of a row in a
/// user's folders, and keep it in a user's folders.
pub proof fn law_placement_rules_touch_only_the_user(rules: Rules, pl: PlaceView)
    ensures
        ({
            let o = place::overridden(rules, pl);
            &&& o.uid == pl.uid && o.instance == pl.instance && o.member == pl.member
            &&& !place::users_own(pl.folder) ==> o == pl
            &&& place::users_own(pl.folder) ==> place::users_own(o.folder)
        }),
{
}

pub proof fn lemma_resolve(w: World, i: int, found: Found, walking: Seq<bool>, depth: int)
    requires
        fits(w, found, walking),
        good(w, found),
        0 <= i < w.procs.len(),
    ensures
        ({
            let (r, after) = walk::resolve(w, i, found, walking, depth);
            &&& kept(found, after, walking)
            &&& good(w, after)
            &&& sane(r)
            &&& settled(w, i, r)
            &&& depth < 64 && !walking[i] ==> after[i] == Some(r)
            &&& billing::told(w, after, i, r)
        }),
    decreases walk::left(depth), 1int, 0int,
{
    if found[i] is Some {
    } else if depth >= 64 || walking[i] {
        lemma_raw_sane(w, w.procs[i]);
    } else {
        let marks = walking.update(i, true);
        lemma_compute(w, i, found, marks, depth);
        let (pl, mid) = walk::compute(w, i, found, marks, depth);
        let o = place::overridden(w.rules, pl);
        let after = mid.update(i, Some(o));
        assert(mid[i] is None);
        assert forall|k: int| 0 <= k < after.len() && walking[k] && (#[trigger] after[k]) is Some implies found[k] is Some by {
            assert(marks[k]);
            assert(mid[k] is Some);
        }
        assert forall|k: int| 0 <= k < after.len() && (#[trigger] after[k]) is Some implies sane(
            after[k]->0,
        ) && settled(w, k, after[k]->0) && billing::explained(w, after, k, after[k]->0) by {
            if k != i {
                assert(after[k] == mid[k]);
                billing::lemma_explained_longer(w, mid, after, k, mid[k]->0);
            } else {
                billing::lemma_explained_longer(w, mid, after, i, o);
            }
        }
        assert forall|k: int| 0 <= k < found.len() && (#[trigger] found[k]) is Some implies after[k]
            == found[k] by {
            assert(mid[k] == found[k]);
        }
    }
}

pub proof fn lemma_resolve_pid(w: World, pid: u32, found: Found, walking: Seq<bool>, depth: int)
    requires
        fits(w, found, walking),
        good(w, found),
    ensures
        ({
            let (r, after) = walk::resolve_pid(w, pid, found, walking, depth);
            &&& kept(found, after, walking)
            &&& good(w, after)
            &&& r matches Some(pl) ==> sane(pl)
            &&& match group::at_pid(w.procs, pid) {
                Some(q) => 0 <= q < w.procs.len() && r is Some && billing::told(w, after, q, r->0),
                None => r is None,
            }
        }),
    decreases walk::left(depth), 2int, 0int,
{
    if let Some(i) = group::at_pid(w.procs, pid) {
        lemma_resolve(w, i, found, walking, depth);
    }
}

proof fn lemma_compute(w: World, i: int, found: Found, walking: Seq<bool>, depth: int)
    requires
        fits(w, found, walking),
        good(w, found),
        0 <= i < w.procs.len(),
        depth < 64,
    ensures
        ({
            let (r, after) = walk::compute(w, i, found, walking, depth);
            &&& kept(found, after, walking)
            &&& good(w, after)
            &&& sane(r)
            &&& place::direct(w, w.procs[i]) matches Some(pl) ==> r == pl
            &&& billing::explained(w, after, i, place::overridden(w.rules, r))
        }),
    decreases walk::left(depth), 0int, 1int,
{
    lemma_raw_sane(w, w.procs[i]);
    if place::direct(w, w.procs[i]) is None {
        let d = depth + 1;
        let f1 = walk::worker_step(w, i, found, walking, d).1;
        lemma_worker(w, i, found, walking, d);
        let f2 = walk::noise_step(w, i, f1, walking, d).1;
        lemma_noise(w, i, f1, walking, d);
        lemma_kept_twice(found, f1, f2, walking);
        let f3 = walk::payload_step(w, i, f2, walking, d).1;
        lemma_payload(w, i, f2, walking, d);
        lemma_kept_twice(found, f2, f3, walking);
        let f4 = walk::launcher_step(w, i, f3, walking, d).1;
        lemma_launcher(w, i, f3, walking, d);
        lemma_kept_twice(found, f3, f4, walking);
        let f5 = walk::shell_step(w, i, f4, walking, d).1;
        lemma_shell(w, i, f4, walking, d);
        lemma_kept_twice(found, f4, f5, walking);
        let f6 = walk::generic_step(w, i, f5, walking, d).1;
        lemma_generic(w, i, f5, walking, d);
        lemma_kept_twice(found, f5, f6, walking);
        let f7 = walk::orphan_step(w, i, f6, walking, d).1;
        lemma_orphan(w, i, f6, walking, d);
        lemma_kept_twice(found, f6, f7, walking);
        let f8 = walk::leader_step(w, i, f7, walking, d).1;
        lemma_leader(w, i, f7, walking, d);
        lemma_kept_twice(found, f7, f8, walking);
    }
    billing::lemma_explains(w, i, found, walking, depth);
}

pub proof fn lemma_worker(w: World, i: int, found: Found, walking: Seq<bool>, depth: int)
    requires
        fits(w, found, walking),
        good(w, found),
        0 <= i < w.procs.len(),
    ensures
        ({
            let (r, after) = walk::worker_step(w, i, found, walking, depth);
            &&& kept(found, after, walking)
            &&& good(w, after)
            &&& r matches Some(pl) ==> sane(pl)
        }),
    decreases walk::left(depth), 7int, 0int,
{
    if walk::classes_at(w, i).any_of(Classes::WORKER) {
        lemma_resolve_pid(w, w.procs[i].ppid, found, walking, depth);
        let mid = walk::resolve_pid(w, w.procs[i].ppid, found, walking, depth).1;
        lemma_lying(w, i, mid, walking, depth);
        let last = walk::lying_scope(w, i, mid, walking, depth).1;
        lemma_kept_twice(found, mid, last, walking);
    }
}

pub proof fn lemma_noise(w: World, i: int, found: Found, walking: Seq<bool>, depth: int)
    requires
        fits(w, found, walking),
        good(w, found),
        0 <= i < w.procs.len(),
    ensures
        ({
            let (r, after) = walk::noise_step(w, i, found, walking, depth);
            &&& kept(found, after, walking)
            &&& good(w, after)
            &&& r matches Some(pl) ==> sane(pl)
        }),
    decreases walk::left(depth), 7int, 0int,
{
    if walk::classes_at(w, i).any_of(Classes::NOISE) {
        lemma_lying(w, i, found, walking, depth);
        lemma_resolve_pid(w, w.procs[i].ppid, found, walking, depth);
    }
}

pub proof fn lemma_payload(w: World, i: int, found: Found, walking: Seq<bool>, depth: int)
    requires
        fits(w, found, walking),
        good(w, found),
        0 <= i < w.procs.len(),
    ensures
        ({
            let (r, after) = walk::payload_step(w, i, found, walking, depth);
            &&& kept(found, after, walking)
            &&& good(w, after)
            &&& r matches Some(pl) ==> sane(pl)
        }),
    decreases walk::left(depth), 7int, 0int,
{
    lemma_unique(w, i, found, walking, depth);
}

pub proof fn lemma_launcher(w: World, i: int, found: Found, walking: Seq<bool>, depth: int)
    requires
        fits(w, found, walking),
        good(w, found),
        0 <= i < w.procs.len(),
    ensures
        ({
            let (r, after) = walk::launcher_step(w, i, found, walking, depth);
            &&& kept(found, after, walking)
            &&& good(w, after)
            &&& r matches Some(pl) ==> sane(pl)
        }),
    decreases walk::left(depth), 7int, 0int,
{
    lemma_raw_sane(w, w.procs[i]);
    lemma_mount(w, i, found, walking, depth);
    let mid = walk::mount_owner(w, i, found, walking, depth).1;
    lemma_resolve_pid(w, w.procs[i].ppid, mid, walking, depth);
    let last = walk::resolve_pid(w, w.procs[i].ppid, mid, walking, depth).1;
    lemma_kept_twice(found, mid, last, walking);
}

proof fn lemma_mounted_bounds(w: World, i: int, prefix: Seq<char>, k: int)
    requires
        0 <= k,
    ensures
        walk::mounted_from(w, i, prefix, k) matches Some(q) ==> 0 <= q < w.procs.len(),
    decreases w.procs.len() - k,
{
    if k < w.procs.len() {
        lemma_mounted_bounds(w, i, prefix, k + 1);
    }
}

proof fn lemma_owner_bounds(w: World, i: int, k: int)
    requires
        0 <= k,
    ensures
        walk::group_owner_from(w, i, k) matches Some(q) ==> 0 <= q < w.procs.len(),
    decreases w.procs.len() - k,
{
    if k < w.procs.len() {
        lemma_owner_bounds(w, i, k + 1);
    }
}

proof fn lemma_terminal_bounds(w: World, i: int, stem: Seq<char>, k: int)
    requires
        0 <= k,
    ensures
        walk::scope_terminal_from(w, i, stem, k) matches Some(q) ==> 0 <= q < w.procs.len(),
    decreases w.procs.len() - k,
{
    if k < w.procs.len() {
        lemma_terminal_bounds(w, i, stem, k + 1);
    }
}

proof fn lemma_mount(w: World, i: int, found: Found, walking: Seq<bool>, depth: int)
    requires
        fits(w, found, walking),
        good(w, found),
        0 <= i < w.procs.len(),
    ensures
        ({
            let (r, after) = walk::mount_owner(w, i, found, walking, depth);
            &&& kept(found, after, walking)
            &&& good(w, after)
            &&& r matches Some(pl) ==> sane(pl)
        }),
    decreases walk::left(depth), 6int, 0int,
{
    if let Some(prefix) = classify::mount_prefix(w.procs[i]) {
        lemma_mounted_bounds(w, i, prefix, 0);
        if let Some(k) = walk::mounted_from(w, i, prefix, 0) {
            lemma_resolve(w, k, found, walking, depth);
        }
    }
}

pub proof fn lemma_shell(w: World, i: int, found: Found, walking: Seq<bool>, depth: int)
    requires
        fits(w, found, walking),
        good(w, found),
        0 <= i < w.procs.len(),
    ensures
        ({
            let (r, after) = walk::shell_step(w, i, found, walking, depth);
            &&& kept(found, after, walking)
            &&& good(w, after)
            &&& r matches Some(pl) ==> sane(pl)
        }),
    decreases walk::left(depth), 7int, 0int,
{
    let ppid = w.procs[i].ppid;
    lemma_owning(w, ppid, found, walking, depth);
    let mid = walk::owning_app(w, ppid, found, walking, depth).1;
    lemma_terminal(w, ppid, mid, walking, depth);
    let last = walk::terminal_from(w, ppid, mid, walking, depth).1;
    lemma_kept_twice(found, mid, last, walking);
}

pub proof fn lemma_generic(w: World, i: int, found: Found, walking: Seq<bool>, depth: int)
    requires
        fits(w, found, walking),
        good(w, found),
        0 <= i < w.procs.len(),
    ensures
        ({
            let (r, after) = walk::generic_step(w, i, found, walking, depth);
            &&& kept(found, after, walking)
            &&& good(w, after)
            &&& r matches Some(pl) ==> sane(pl)
        }),
    decreases walk::left(depth), 7int, 0int,
{
    lemma_owning(w, w.procs[i].ppid, found, walking, depth);
}

pub proof fn lemma_orphan(w: World, i: int, found: Found, walking: Seq<bool>, depth: int)
    requires
        fits(w, found, walking),
        good(w, found),
        0 <= i < w.procs.len(),
    ensures
        ({
            let (r, after) = walk::orphan_step(w, i, found, walking, depth);
            &&& kept(found, after, walking)
            &&& good(w, after)
            &&& r matches Some(pl) ==> sane(pl)
        }),
    decreases walk::left(depth), 7int, 0int,
{
    lemma_lying(w, i, found, walking, depth);
    lemma_owner_bounds(w, i, 0);
    if let Some(k) = walk::group_owner_from(w, i, 0) {
        lemma_resolve(w, k, found, walking, depth);
    }
}

pub proof fn lemma_leader(w: World, i: int, found: Found, walking: Seq<bool>, depth: int)
    requires
        fits(w, found, walking),
        good(w, found),
        0 <= i < w.procs.len(),
    ensures
        ({
            let (r, after) = walk::leader_step(w, i, found, walking, depth);
            &&& kept(found, after, walking)
            &&& good(w, after)
            &&& r matches Some(pl) ==> sane(pl)
        }),
    decreases walk::left(depth), 7int, 0int,
{
    lemma_resolve_pid(w, w.procs[i].pgrp as u32, found, walking, depth);
}

pub proof fn lemma_lying(w: World, i: int, found: Found, walking: Seq<bool>, depth: int)
    requires
        fits(w, found, walking),
        good(w, found),
        0 <= i < w.procs.len(),
    ensures
        ({
            let (r, after) = walk::lying_scope(w, i, found, walking, depth);
            &&& kept(found, after, walking)
            &&& good(w, after)
            &&& r matches Some(pl) ==> sane(pl)
        }),
    decreases walk::left(depth), 5int, 0int,
{
    let ppid = w.procs[i].ppid;
    lemma_owning(w, ppid, found, walking, depth);
    let mid = walk::owning_app(w, ppid, found, walking, depth).1;
    if let Some(u) = identity::unit_of(w.procs[i].cgroup@) {
        if let Some(full) = identity::scope_name(u) {
            lemma_terminal_bounds(w, i, text::lowered(full), 0);
        }
    }
    if let Some(k) = walk::scope_terminal(w, i) {
        lemma_resolve(w, k, mid, walking, depth);
        let last = walk::resolve(w, k, mid, walking, depth).1;
        lemma_kept_twice(found, mid, last, walking);
    }
}

proof fn lemma_owning(w: World, pid: u32, found: Found, walking: Seq<bool>, depth: int)
    requires
        fits(w, found, walking),
        good(w, found),
    ensures
        ({
            let (r, after) = walk::owning_app(w, pid, found, walking, depth);
            &&& kept(found, after, walking)
            &&& good(w, after)
            &&& r matches Some(pl) ==> sane(pl)
        }),
    decreases walk::left(depth), 4int, 0int,
{
    lemma_owning_from(w, pid, found, walking, depth, walk::left(depth) as int);
}

proof fn lemma_owning_from(
    w: World,
    pid: u32,
    found: Found,
    walking: Seq<bool>,
    depth: int,
    steps: int,
)
    requires
        fits(w, found, walking),
        good(w, found),
    ensures
        ({
            let (r, after) = walk::owning_from(w, pid, found, walking, depth, steps);
            &&& kept(found, after, walking)
            &&& good(w, after)
            &&& r matches Some(pl) ==> sane(pl) && place::users_own(pl.folder)
        }),
    decreases walk::left(depth), 3int, steps,
{
    if steps > 0 {
        if let Some(i) = group::at_pid(w.procs, pid) {
            if !walk::app_named(w, i) && walk::classes_at(w, i).any_of(
                Classes::LAUNCHER | Classes::GENERIC | Classes::SHELL | Classes::NOISE,
            ) {
                lemma_owning_from(w, w.procs[i].ppid, found, walking, depth, steps - 1);
            } else {
                lemma_resolve(w, i, found, walking, depth);
            }
        }
    }
}

proof fn lemma_terminal(w: World, pid: u32, found: Found, walking: Seq<bool>, depth: int)
    requires
        fits(w, found, walking),
        good(w, found),
    ensures
        ({
            let (r, after) = walk::terminal_from(w, pid, found, walking, depth);
            &&& kept(found, after, walking)
            &&& good(w, after)
            &&& r matches Some(pl) ==> sane(pl)
        }),
    decreases walk::left(depth), 3int, 0int,
{
    if depth < 64 {
        if let Some(i) = group::at_pid(w.procs, pid) {
            lemma_resolve(w, i, found, walking, depth);
            let mid = walk::resolve(w, i, found, walking, depth).1;
            lemma_terminal(w, w.procs[i].ppid, mid, walking, depth + 1);
            let last = walk::terminal_from(w, w.procs[i].ppid, mid, walking, depth + 1).1;
            lemma_kept_twice(found, mid, last, walking);
        }
    }
}

proof fn lemma_unique(w: World, i: int, found: Found, walking: Seq<bool>, depth: int)
    requires
        fits(w, found, walking),
        good(w, found),
        0 <= i < w.procs.len(),
    ensures
        ({
            let (r, after) = walk::unique(w, i, found, walking, depth);
            &&& kept(found, after, walking)
            &&& good(w, after)
            &&& r matches Some(pl) ==> sane(pl)
        }),
    decreases walk::left(depth), 6int, 0int,
{
    if depth < 64 {
        let kids = group::children_of(w.procs, i);
        assert forall|k: int| 0 <= k < kids.len() implies 0 <= #[trigger] kids[k]
            < w.procs.len() by {
            group::lemma_children_bounds(w.procs, w.procs[i].pid, w.procs.len() as int, k);
        }
        lemma_kids(w, kids, 0, found, walking, depth);
    }
}

proof fn lemma_kids(w: World, kids: Seq<int>, k: int, found: Found, walking: Seq<bool>, depth: int)
    requires
        fits(w, found, walking),
        good(w, found),
        0 <= k,
        forall|j: int| 0 <= j < kids.len() ==> 0 <= #[trigger] kids[j] < w.procs.len(),
    ensures
        ({
            let (r, after) = walk::kid_places(w, kids, k, found, walking, depth);
            &&& kept(found, after, walking)
            &&& good(w, after)
            &&& forall|k: int| 0 <= k < r.len() ==> sane(#[trigger] r[k])
        }),
    decreases walk::left(depth), 5int, kids.len() - k,
{
    if depth < 64 && k < kids.len() {
        let c = kids[k];
        lemma_kid(w, c, found, walking, depth);
        let (here, mid) = walk::kid_place(w, c, found, walking, depth);
        lemma_kids(w, kids, k + 1, mid, walking, depth);
        let (rest, last) = walk::kid_places(w, kids, k + 1, mid, walking, depth);
        lemma_kept_twice(found, mid, last, walking);
        assert forall|j: int| 0 <= j < (here + rest).len() implies sane(
            #[trigger] (here + rest)[j],
        ) by {
            if j < here.len() {
                assert((here + rest)[j] == here[j]);
            } else {
                assert((here + rest)[j] == rest[j - here.len()]);
            }
        }
    }
}

proof fn lemma_kid(w: World, c: int, found: Found, walking: Seq<bool>, depth: int)
    requires
        fits(w, found, walking),
        good(w, found),
        0 <= c < w.procs.len(),
    ensures
        ({
            let (r, after) = walk::kid_place(w, c, found, walking, depth);
            &&& kept(found, after, walking)
            &&& good(w, after)
            &&& forall|k: int| 0 <= k < r.len() ==> sane(#[trigger] r[k])
        }),
    decreases walk::left(depth), 4int, 1int,
{
    if depth < 64 {
        lemma_unique(w, c, found, walking, depth + 1);
        let mid = walk::unique(w, c, found, walking, depth + 1).1;
        lemma_leaf(w, c, mid, walking, depth);
        let last = walk::worker_leaf(w, c, mid, walking, depth).1;
        lemma_kept_twice(found, mid, last, walking);
        lemma_resolve(w, c, found, walking, depth + 1);
    }
}

proof fn lemma_leaf(w: World, c: int, found: Found, walking: Seq<bool>, depth: int)
    requires
        fits(w, found, walking),
        good(w, found),
        0 <= c < w.procs.len(),
    ensures
        ({
            let (r, after) = walk::worker_leaf(w, c, found, walking, depth);
            &&& kept(found, after, walking)
            &&& good(w, after)
            &&& sane(r)
        }),
    decreases walk::left(depth), 4int, 0int,
{
    lemma_raw_sane(w, w.procs[c]);
    lemma_siblings(w, c, 0, found, walking, depth, None);
}

proof fn lemma_siblings(
    w: World,
    c: int,
    k: int,
    found: Found,
    walking: Seq<bool>,
    depth: int,
    so_far: Option<PlaceView>,
)
    requires
        fits(w, found, walking),
        good(w, found),
        0 <= k,
        so_far matches Some(pl) ==> sane(pl),
    ensures
        ({
            let (r, after) = walk::siblings_from(w, c, k, found, walking, depth, so_far);
            &&& kept(found, after, walking)
            &&& good(w, after)
            &&& r matches Some(pl) ==> sane(pl)
        }),
    decreases walk::left(depth), 3int, w.procs.len() - k,
{
    if k < w.procs.len() {
        if !walk::is_sibling(w, c, k) {
            lemma_siblings(w, c, k + 1, found, walking, depth, so_far);
        } else {
            lemma_resolve(w, k, found, walking, depth + 1);
            let (pl, mid) = walk::resolve(w, k, found, walking, depth + 1);
            let next = if so_far is Some {
                so_far
            } else {
                Some(pl)
            };
            lemma_siblings(w, c, k + 1, mid, walking, depth, next);
            let last = walk::siblings_from(w, c, k + 1, mid, walking, depth, next).1;
            lemma_kept_twice(found, mid, last, walking);
        }
    }
}

pub proof fn lemma_all(w: World, i: int, found: Found)
    requires
        found.len() == w.procs.len(),
        good(w, found),
        0 <= i <= w.procs.len(),
        forall|k: int| 0 <= k < i ==> (#[trigger] found[k]) is Some,
    ensures
        ({
            let after = walk::resolve_all(w, i, found);
            &&& extends(found, after)
            &&& good(w, after)
            &&& forall|k: int| 0 <= k < w.procs.len() ==> (#[trigger] after[k]) is Some
        }),
    decreases w.procs.len() - i,
{
    if i < w.procs.len() {
        let idle = Seq::new(w.procs.len(), |k: int| false);
        lemma_resolve(w, i, found, idle, 0);
        let mid = walk::resolve(w, i, found, idle, 0).1;
        assert forall|k: int| 0 <= k < i + 1 implies (#[trigger] mid[k]) is Some by {
            if k < i {
                assert(found[k] is Some);
            }
        }
        lemma_all(w, i + 1, mid);
        lemma_extends_twice(found, mid, walk::resolve_all(w, i + 1, mid));
    }
}

/// The places of all processes of a sample.
pub open spec fn places(w: World) -> Found {
    walk::resolve_all(w, 0, walk::nothing_found(w.procs.len()))
}

/// Every process is billed to a row: none is left out.
pub proof fn law_every_process_has_a_place(w: World)
    ensures
        places(w).len() == w.procs.len(),
        forall|i: int| 0 <= i < w.procs.len() ==> (#[trigger] places(w)[i]) is Some && sane(
            places(w)[i]->0,
        ),
{
    lemma_all(w, 0, walk::nothing_found(w.procs.len()));
}

/// Where a process's own facts decide, no ancestor, child or sibling moves it,
/// whatever order the processes are placed in: it gets the place those facts
/// give, after the placement rules.
pub proof fn law_own_facts_decide(w: World, i: int)
    requires
        0 <= i < w.procs.len(),
        place::direct(w, w.procs[i]) is Some,
    ensures
        places(w)[i] == Some(
            place::overridden(w.rules, place::direct(w, w.procs[i])->0),
        ),
{
    lemma_all(w, 0, walk::nothing_found(w.procs.len()));
    assert(places(w)[i] is Some);
}

/// A process in a container's scope is billed to that container: never to the
/// system, to the daemon, or to whatever started it.
pub proof fn law_a_container_scope_is_a_container_row(w: World, i: int)
    requires
        0 <= i < w.procs.len(),
        identity::container_scope(w.procs[i].cgroup@) is Some,
    ensures
        ({
            let id = identity::container_scope(w.procs[i].cgroup@)->0;
            let pl = places(w)[i]->0;
            &&& pl.folder == Folder::Containers
            &&& w.containers.find(id) matches Some(info) ==> pl.key == info.ident_key && pl.uid
                == info.owner_uid && pl.member == info.member_name
            &&& w.containers.find(id) is None ==> pl.key == containers::title_of_id(id) && pl.uid is None
        }),
{
    law_own_facts_decide(w, i);
}

/// A kernel thread outside any container is billed to the kernel's row of the
/// system.
pub proof fn law_a_kernel_thread_is_the_systems(w: World, i: int)
    requires
        0 <= i < w.procs.len(),
        w.procs[i].kthread,
        place::in_container(w, w.procs[i]) is None,
        place::in_machine(w, w.procs[i]) is None,
    ensures
        ({
            let pl = places(w)[i]->0;
            pl.folder == Folder::System && pl.key == "kernel"@ && pl.uid is None
        }),
{
    law_own_facts_decide(w, i);
}

/// No rule file can pull a process out of a container or out of the system.
pub proof fn law_rules_cannot_move_the_system_or_a_container(w: World, other: Rules, i: int)
    requires
        0 <= i < w.procs.len(),
        place::direct(w, w.procs[i]) is Some,
        !place::users_own(place::direct(w, w.procs[i])->0.folder),
    ensures
        place::overridden(other, places(w)[i]->0) == places(w)[i]->0,
        places(w)[i] == place::direct(w, w.procs[i]),
{
    law_own_facts_decide(w, i);
}

} // verus!
