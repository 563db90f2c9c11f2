//! The walk that bills helpers to the applications they serve: up to parents,
//! down to payloads, across a control group.
use vstd::prelude::*;

use crate::group::place::{Place, PlaceView};
use crate::group::{Ctx, World};
use crate::rules::{Classes, Rules};
use crate::types::{Folder, Process};
use crate::group::place;
use crate::{classify, group, identity, text};

verus! {

/// How many steps one placement may take up or down. A parent beyond it
/// answers for itself alone, and a search for a payload beyond it finds none.
pub const MAX_WALK: usize = 64;

/// The places found so far, by process.
pub type Found = Seq<Option<PlaceView>>;

/// What is left of the walk at a depth.
pub open spec fn left(depth: int) -> nat {
    if depth < 64 {
        (64 - depth) as nat
    } else {
        0
    }
}

/// The facts of a process, its classes, and whether an app rule names it.
pub open spec fn classes_at(w: World, i: int) -> Classes {
    group::classes_of(w.procs[i], w.rules)
}

pub open spec fn app_named(w: World, i: int) -> bool {
    w.rules.app_spec(group::facts_view(w.procs[i])) is Some
}

/// The row `place`, joined by the `i`th process.
pub open spec fn joined_by(w: World, i: int, place: PlaceView) -> PlaceView {
    place::with_instance(place, place::instance_of(w, w.procs[i]))
}

/// The classes of the identity a place carries.
pub open spec fn key_is(w: World, place: PlaceView, bits: u16) -> bool {
    w.rules.name_classes(place.key).any_of(bits)
}

/// The parent of the `i`th process takes in nothing.
pub open spec fn parent_absorbs_nothing(w: World, i: int) -> bool {
    match group::at_pid(w.procs, w.procs[i].ppid) {
        Some(q) => classes_at(w, q).any_of(Classes::NO_ABSORB),
        None => false,
    }
}

// ---------------------------------------------------------------------------
// Who else is there
// ---------------------------------------------------------------------------

/// The `k`th process runs from the mount of the AppImage that is the `i`th.
pub open spec fn runs_from_mount(w: World, i: int, prefix: Seq<char>, k: int) -> bool {
    let (p, q) = (w.procs[i], w.procs[k]);
    &&& q.pid != p.pid
    &&& q.uid == p.uid
    &&& q.exe is Some && text::has_prefix(q.exe->0@, prefix)
    &&& !classes_at(w, k).any_of(Classes::LAUNCHER | Classes::CRASH_HELPER | Classes::WORKER)
}

pub open spec fn mounted_from(w: World, i: int, prefix: Seq<char>, k: int) -> Option<int>
    decreases w.procs.len() - k,
{
    if k < 0 || k >= w.procs.len() {
        None
    } else if runs_from_mount(w, i, prefix, k) {
        Some(k)
    } else {
        mounted_from(w, i, prefix, k + 1)
    }
}

/// The `k`th process could own the rest of its control group, the `i`th
/// process among it.
pub open spec fn owns_group_of(w: World, i: int, k: int) -> bool {
    let (p, q) = (w.procs[i], w.procs[k]);
    &&& q.pid != p.pid
    &&& q.cgroup@ == p.cgroup@
    &&& !classes_at(w, k).any_of(
        Classes::LAUNCHER | Classes::GENERIC | Classes::SHELL | Classes::NOISE | Classes::WORKER,
    ) || app_named(w, k)
}

pub open spec fn group_owner_from(w: World, i: int, k: int) -> Option<int>
    decreases w.procs.len() - k,
{
    if k < 0 || k >= w.procs.len() {
        None
    } else if owns_group_of(w, i, k) {
        Some(k)
    } else {
        group_owner_from(w, i, k + 1)
    }
}

/// The `k`th process is a terminal of the same user that the scope is named
/// after.
pub open spec fn is_scope_terminal(w: World, i: int, stem: Seq<char>, k: int) -> bool {
    let n = text::lowered(classify::process_name(w.procs[k]));
    &&& w.procs[k].uid == w.procs[i].uid
    &&& classes_at(w, k).any_of(Classes::TERMINAL)
    &&& stem == n || text::has_prefix(stem, n + "-"@)
}

pub open spec fn scope_terminal_from(w: World, i: int, stem: Seq<char>, k: int) -> Option<int>
    decreases w.procs.len() - k,
{
    if k < 0 || k >= w.procs.len() {
        None
    } else if is_scope_terminal(w, i, stem, k) {
        Some(k)
    } else {
        scope_terminal_from(w, i, stem, k + 1)
    }
}

/// The `k`th process stands in the control group of the `c`th and is no
/// helper itself.
pub open spec fn is_sibling(w: World, c: int, k: int) -> bool {
    &&& w.procs[k].pid != w.procs[c].pid
    &&& w.procs[k].cgroup@ == w.procs[c].cgroup@
    &&& !classes_at(w, k).any_of(
        Classes::LAUNCHER | Classes::WORKER | Classes::NOISE | Classes::SHELL
            | Classes::CRASH_HELPER,
    )
}

// ---------------------------------------------------------------------------
// The walk
// ---------------------------------------------------------------------------

/// The place of the `i`th process, and the places found on the way. One that
/// is being placed already, or that stands too deep, answers for itself.
pub open spec fn resolve(
    w: World,
    i: int,
    found: Found,
    walking: Seq<bool>,
    depth: int,
) -> (PlaceView, Found)
    decreases left(depth), 1int, 0int,
{
    if found[i] is Some {
        (found[i]->0, found)
    } else if depth >= 64 || walking[i] {
        (place::overridden(w.rules, place::raw(w, w.procs[i])), found)
    } else {
        let (pl, after) = compute(w, i, found, walking.update(i, true), depth);
        let o = place::overridden(w.rules, pl);
        (o, after.update(i, Some(o)))
    }
}

/// The place of the process with a pid.
pub open spec fn resolve_pid(
    w: World,
    pid: u32,
    found: Found,
    walking: Seq<bool>,
    depth: int,
) -> (Option<PlaceView>, Found)
    decreases left(depth), 2int, 0int,
{
    match group::at_pid(w.procs, pid) {
        Some(i) => {
            let (pl, after) = resolve(w, i, found, walking, depth);
            (Some(pl), after)
        },
        None => (None, found),
    }
}

/// The place of the `i`th process before the placement rules: its own where it
/// needs no look around, else what the first of the steps finds that finds
/// anything, else its own row.
pub open spec fn compute(
    w: World,
    i: int,
    found: Found,
    walking: Seq<bool>,
    depth: int,
) -> (PlaceView, Found)
    decreases left(depth), 0int, 0int,
{
    let own = place::in_user(w, w.procs[i]);
    if depth >= 64 {
        (own, found)
    } else if let Some(pl) = place::direct(w, w.procs[i]) {
        (pl, found)
    } else {
        let (r1, f1) = worker_step(w, i, found, walking, depth + 1);
        let (r2, f2) = noise_step(w, i, f1, walking, depth + 1);
        let (r3, f3) = payload_step(w, i, f2, walking, depth + 1);
        let (r4, f4) = launcher_step(w, i, f3, walking, depth + 1);
        let (r5, f5) = shell_step(w, i, f4, walking, depth + 1);
        let (r6, f6) = generic_step(w, i, f5, walking, depth + 1);
        let (r7, f7) = orphan_step(w, i, f6, walking, depth + 1);
        let (r8, f8) = leader_step(w, i, f7, walking, depth + 1);
        if r1 is Some {
            (r1->0, f1)
        } else if r2 is Some {
            (r2->0, f2)
        } else if r3 is Some {
            (r3->0, f3)
        } else if r4 is Some {
            (r4->0, f4)
        } else if r5 is Some {
            (r5->0, f5)
        } else if r6 is Some {
            (r6->0, f6)
        } else if r7 is Some {
            (r7->0, f7)
        } else if r8 is Some {
            (r8->0, f8)
        } else {
            (own, f8)
        }
    }
}

/// A worker bills to its parent, unless that is the system's or takes in
/// nothing; else to the owner of the scope it runs in.
pub open spec fn worker_step(
    w: World,
    i: int,
    found: Found,
    walking: Seq<bool>,
    depth: int,
) -> (Option<PlaceView>, Found)
    decreases left(depth), 7int, 0int,
{
    if !classes_at(w, i).any_of(Classes::WORKER) {
        (None, found)
    } else {
        let (parent, after) = resolve_pid(w, w.procs[i].ppid, found, walking, depth);
        match parent {
            Some(pl) if pl.folder != Folder::System && !key_is(w, pl, Classes::NO_ABSORB) => (
                Some(joined_by(w, i, pl)),
                after,
            ),
            _ => lying_scope(w, i, after, walking, depth),
        }
    }
}

/// A pipe helper bills to its parent and to no other; where the parent takes
/// in nothing, to the owner of the scope it runs in.
pub open spec fn noise_step(
    w: World,
    i: int,
    found: Found,
    walking: Seq<bool>,
    depth: int,
) -> (Option<PlaceView>, Found)
    decreases left(depth), 7int, 0int,
{
    if !classes_at(w, i).any_of(Classes::NOISE) {
        (None, found)
    } else if parent_absorbs_nothing(w, i) {
        lying_scope(w, i, found, walking, depth)
    } else {
        let (parent, after) = resolve_pid(w, w.procs[i].ppid, found, walking, depth);
        match parent {
            Some(pl) if pl.folder != Folder::System => (Some(joined_by(w, i, pl)), after),
            _ => (None, after),
        }
    }
}

/// A launcher or a shell bills to the one identity it started.
pub open spec fn payload_step(
    w: World,
    i: int,
    found: Found,
    walking: Seq<bool>,
    depth: int,
) -> (Option<PlaceView>, Found)
    decreases left(depth), 7int, 0int,
{
    if !classes_at(w, i).any_of(Classes::LAUNCHER | Classes::SHELL) {
        (None, found)
    } else {
        let (payload, after) = unique(w, i, found, walking, depth);
        match payload {
            Some(pl) => (Some(joined_by(w, i, pl)), after),
            None => (None, after),
        }
    }
}

/// A launcher without such a payload bills to the application that runs from
/// its mount, else under the name it gives its payload, else to its parent
/// where that is no launcher.
pub open spec fn launcher_step(
    w: World,
    i: int,
    found: Found,
    walking: Seq<bool>,
    depth: int,
) -> (Option<PlaceView>, Found)
    decreases left(depth), 7int, 0int,
{
    if !classes_at(w, i).any_of(Classes::LAUNCHER) {
        (None, found)
    } else {
        let (r1, f1) = mount_owner(w, i, found, walking, depth);
        if r1 is Some {
            (r1, f1)
        } else if let Some(hint) = classify::payload_hint(w.procs[i], w.rules) {
            (Some(PlaceView { key: hint, ..place::in_user(w, w.procs[i]) }), f1)
        } else {
            let (parent, f2) = resolve_pid(w, w.procs[i].ppid, f1, walking, depth);
            match parent {
                Some(pl) if pl.folder != Folder::System && !key_is(w, pl, Classes::LAUNCHER) => (
                    Some(joined_by(w, i, pl)),
                    f2,
                ),
                _ => (None, f2),
            }
        }
    }
}

/// The application that runs from an AppImage's mount.
pub open spec fn mount_owner(
    w: World,
    i: int,
    found: Found,
    walking: Seq<bool>,
    depth: int,
) -> (Option<PlaceView>, Found)
    decreases left(depth), 6int, 0int,
{
    match classify::mount_prefix(w.procs[i]) {
        Some(prefix) => match mounted_from(w, i, prefix, 0) {
            Some(k) => {
                let (pl, after) = resolve(w, k, found, walking, depth);
                if place::users_own(pl.folder) {
                    (Some(joined_by(w, i, pl)), after)
                } else {
                    (None, after)
                }
            },
            None => (None, found),
        },
        None => (None, found),
    }
}

/// A shell without a payload bills to the application that started it, else to
/// the terminal it runs in.
pub open spec fn shell_step(
    w: World,
    i: int,
    found: Found,
    walking: Seq<bool>,
    depth: int,
) -> (Option<PlaceView>, Found)
    decreases left(depth), 7int, 0int,
{
    if !classes_at(w, i).any_of(Classes::SHELL) {
        (None, found)
    } else {
        let (owner, f1) = owning_app(w, w.procs[i].ppid, found, walking, depth);
        match owner {
            Some(pl) if place::users_own(pl.folder) => (Some(joined_by(w, i, pl)), f1),
            _ => {
                let (term, f2) = terminal_from(w, w.procs[i].ppid, f1, walking, depth);
                match term {
                    Some(pl) => (Some(joined_by(w, i, pl)), f2),
                    None => (None, f2),
                }
            },
        }
    }
}

/// An interpreter bills to the application that started it.
pub open spec fn generic_step(
    w: World,
    i: int,
    found: Found,
    walking: Seq<bool>,
    depth: int,
) -> (Option<PlaceView>, Found)
    decreases left(depth), 7int, 0int,
{
    if !classes_at(w, i).any_of(Classes::GENERIC) {
        (None, found)
    } else {
        let (owner, after) = owning_app(w, w.procs[i].ppid, found, walking, depth);
        match owner {
            Some(pl) => (Some(joined_by(w, i, pl)), after),
            None => (None, after),
        }
    }
}

/// An interpreter whose parent takes in nothing bills to the application whose
/// control group it is still in, or where the unit lies to the owner of the
/// scope.
pub open spec fn orphan_step(
    w: World,
    i: int,
    found: Found,
    walking: Seq<bool>,
    depth: int,
) -> (Option<PlaceView>, Found)
    decreases left(depth), 7int, 0int,
{
    if !classes_at(w, i).any_of(Classes::GENERIC) || !parent_absorbs_nothing(w, i) {
        (None, found)
    } else if group::flags_of(w.procs[i], w.rules).lies() {
        lying_scope(w, i, found, walking, depth)
    } else {
        match group_owner_from(w, i, 0) {
            Some(k) => {
                let (pl, after) = resolve(w, k, found, walking, depth);
                if place::users_own(pl.folder) {
                    (Some(joined_by(w, i, pl)), after)
                } else {
                    (None, after)
                }
            },
            None => (None, found),
        }
    }
}

/// Any other process whose parent takes in nothing bills to the application
/// that leads its process group.
pub open spec fn leader_step(
    w: World,
    i: int,
    found: Found,
    walking: Seq<bool>,
    depth: int,
) -> (Option<PlaceView>, Found)
    decreases left(depth), 7int, 0int,
{
    let p = w.procs[i];
    if p.pgrp < 0 || p.pgrp == p.pid || !parent_absorbs_nothing(w, i) {
        (None, found)
    } else {
        let (leader, after) = resolve_pid(w, p.pgrp as u32, found, walking, depth);
        match leader {
            Some(pl) if pl.folder == Folder::Applications => (Some(joined_by(w, i, pl)), after),
            _ => (None, after),
        }
    }
}

/// The owner of a scope that does not say what runs in it: an application
/// among the ancestors, else a terminal that the scope is named after.
pub open spec fn lying_scope(
    w: World,
    i: int,
    found: Found,
    walking: Seq<bool>,
    depth: int,
) -> (Option<PlaceView>, Found)
    decreases left(depth), 5int, 0int,
{
    let (owner, f1) = owning_app(w, w.procs[i].ppid, found, walking, depth);
    match owner {
        Some(pl) if pl.folder == Folder::Applications => (Some(joined_by(w, i, pl)), f1),
        _ => match scope_terminal(w, i) {
            Some(k) => {
                let (pl, f2) = resolve(w, k, f1, walking, depth);
                if pl.folder == Folder::System {
                    (None, f2)
                } else {
                    (Some(joined_by(w, i, pl)), f2)
                }
            },
            None => (None, f1),
        },
    }
}

/// The terminal that the scope of the `i`th process is named after.
pub open spec fn scope_terminal(w: World, i: int) -> Option<int> {
    match identity::unit_of(w.procs[i].cgroup@) {
        Some(u) => match identity::scope_name(u) {
            Some(full) => scope_terminal_from(w, i, text::lowered(full), 0),
            None => None,
        },
        None => None,
    }
}

/// The application among the ancestors that start at `pid`: the first that an
/// app rule names or that is no launcher, interpreter, shell or pipe helper,
/// where it is one that takes in interpreters and belongs to a user.
pub open spec fn owning_app(
    w: World,
    pid: u32,
    found: Found,
    walking: Seq<bool>,
    depth: int,
) -> (Option<PlaceView>, Found)
    decreases left(depth), 4int, 0int,
{
    owning_from(w, pid, found, walking, depth, left(depth) as int)
}

pub open spec fn owning_from(
    w: World,
    pid: u32,
    found: Found,
    walking: Seq<bool>,
    depth: int,
    steps: int,
) -> (Option<PlaceView>, Found)
    decreases left(depth), 3int, steps,
{
    if steps <= 0 {
        (None, found)
    } else {
        match group::at_pid(w.procs, pid) {
            None => (None, found),
            Some(i) => {
                let classes = classes_at(w, i);
                if !app_named(w, i) && classes.any_of(
                    Classes::LAUNCHER | Classes::GENERIC | Classes::SHELL | Classes::NOISE,
                ) {
                    owning_from(w, w.procs[i].ppid, found, walking, depth, steps - 1)
                } else if !app_named(w, i) && !classify::takes_generic(classes) {
                    (None, found)
                } else {
                    let (pl, after) = resolve(w, i, found, walking, depth);
                    if place::users_own(pl.folder) {
                        (Some(pl), after)
                    } else {
                        (None, after)
                    }
                }
            },
        }
    }
}

/// The first ancestor at or above `pid` that bills to a terminal.
pub open spec fn terminal_from(
    w: World,
    pid: u32,
    found: Found,
    walking: Seq<bool>,
    depth: int,
) -> (Option<PlaceView>, Found)
    decreases left(depth), 3int, 0int,
{
    if depth >= 64 {
        (None, found)
    } else {
        match group::at_pid(w.procs, pid) {
            None => (None, found),
            Some(i) => {
                let (pl, after) = resolve(w, i, found, walking, depth);
                if pl.folder != Folder::System && key_is(w, pl, Classes::TERMINAL) {
                    (Some(pl), after)
                } else {
                    terminal_from(w, w.procs[i].ppid, after, walking, depth + 1)
                }
            },
        }
    }
}

/// The one identity among what the `i`th process started, looked for through
/// the launchers, shells, pipe helpers and workers in between.
pub open spec fn unique(
    w: World,
    i: int,
    found: Found,
    walking: Seq<bool>,
    depth: int,
) -> (Option<PlaceView>, Found)
    decreases left(depth), 6int, 0int,
{
    if depth >= 64 {
        (None, found)
    } else {
        let kids = group::children_of(w.procs, i);
        let (places, after) = kid_places(w, kids, 0, found, walking, depth);
        (agreed(places), after)
    }
}

/// The first of the places, where all of them have one key.
pub open spec fn agreed(places: Seq<PlaceView>) -> Option<PlaceView> {
    if places.len() > 0 && forall|k: int|
        0 <= k < places.len() ==> (#[trigger] places[k]).key == places[0].key {
        Some(places[0])
    } else {
        None
    }
}

/// The places that the children from the `k`th on stand for.
pub open spec fn kid_places(
    w: World,
    kids: Seq<int>,
    k: int,
    found: Found,
    walking: Seq<bool>,
    depth: int,
) -> (Seq<PlaceView>, Found)
    decreases left(depth), 5int, kids.len() - k,
{
    if depth >= 64 || k < 0 || k >= kids.len() {
        (Seq::empty(), found)
    } else {
        let c = kids[k];
        let (here, f1) = kid_place(w, c, found, walking, depth);
        let (rest, f2) = kid_places(w, kids, k + 1, f1, walking, depth);
        (here + rest, f2)
    }
}

/// The place a child stands for: its payload's where it only runs others, a
/// worker's own where it has none, else its own.
pub open spec fn kid_place(
    w: World,
    c: int,
    found: Found,
    walking: Seq<bool>,
    depth: int,
) -> (Seq<PlaceView>, Found)
    decreases left(depth), 4int, 1int,
{
    let classes = classes_at(w, c);
    if depth >= 64 {
        (Seq::empty(), found)
    } else if classes.any_of(Classes::LAUNCHER | Classes::SHELL | Classes::NOISE) {
        let (payload, after) = unique(w, c, found, walking, depth + 1);
        match payload {
            Some(pl) => (seq![pl], after),
            None => (Seq::empty(), after),
        }
    } else if classes.any_of(Classes::WORKER) {
        let (payload, f1) = unique(w, c, found, walking, depth + 1);
        match payload {
            Some(pl) => (seq![pl], f1),
            None => {
                let (pl, f2) = worker_leaf(w, c, f1, walking, depth);
                (seq![pl], f2)
            },
        }
    } else {
        let (pl, after) = resolve(w, c, found, walking, depth + 1);
        (seq![pl], after)
    }
}

/// The place of a worker without a payload: its own, or where that says no
/// more than its name, the one identity of its control group.
pub open spec fn worker_leaf(
    w: World,
    c: int,
    found: Found,
    walking: Seq<bool>,
    depth: int,
) -> (PlaceView, Found)
    decreases left(depth), 4int, 0int,
{
    let own = place::raw(w, w.procs[c]);
    if own.key != classify::process_name(w.procs[c]) {
        (own, found)
    } else {
        let (r, after) = siblings_from(w, c, 0, found, walking, depth, None);
        match r {
            Some(pl) => (pl, after),
            None => (own, after),
        }
    }
}

/// The one identity of the siblings from the `k`th process on and of `so_far`;
/// none where two differ or one is called like the `c`th process.
pub open spec fn siblings_from(
    w: World,
    c: int,
    k: int,
    found: Found,
    walking: Seq<bool>,
    depth: int,
    so_far: Option<PlaceView>,
) -> (Option<PlaceView>, Found)
    decreases left(depth), 3int, w.procs.len() - k,
{
    if k < 0 || k >= w.procs.len() {
        (so_far, found)
    } else if !is_sibling(w, c, k) {
        siblings_from(w, c, k + 1, found, walking, depth, so_far)
    } else {
        let (pl, after) = resolve(w, k, found, walking, depth + 1);
        if pl.key == classify::process_name(w.procs[c]) || (so_far is Some && so_far->0.key
            != pl.key) {
            (None, after)
        } else {
            siblings_from(
                w,
                c,
                k + 1,
                after,
                walking,
                depth,
                if so_far is Some {
                    so_far
                } else {
                    Some(pl)
                },
            )
        }
    }
}

/// The places of the processes from the `i`th on, each found in turn.
pub open spec fn resolve_all(w: World, i: int, found: Found) -> Found
    decreases w.procs.len() - i,
{
    if i < 0 || i >= w.procs.len() {
        found
    } else {
        let none_walking = Seq::new(w.procs.len(), |k: int| false);
        resolve_all(w, i + 1, resolve(w, i, found, none_walking, 0).1)
    }
}

/// Nothing found yet.
pub open spec fn nothing_found(n: nat) -> Found {
    Seq::new(n, |k: int| None)
}

// ---------------------------------------------------------------------------
// The same, computed
// ---------------------------------------------------------------------------

/// The places in a memo.
pub open spec fn found_in(memo: Seq<Option<Place>>) -> Found {
    Seq::new(memo.len(), |k: int| place::opt_place(memo[k]))
}

/// A walk leaves the sizes and the marks as they were.
pub open spec fn kept(
    memo: Vec<Option<Place>>,
    memo_after: Vec<Option<Place>>,
    walking: Vec<bool>,
    walking_after: Vec<bool>,
) -> bool {
    memo_after@.len() == memo@.len() && walking_after@ == walking@
}

impl<'a> Ctx<'a> {
    /// The state of a walk fits the processes.
    pub open spec fn ready(
        self,
        memo: Vec<Option<Place>>,
        walking: Vec<bool>,
        depth: usize,
    ) -> bool {
        &&& self.wf()
        &&& memo@.len() == self.procs@.len()
        &&& walking@.len() == self.procs@.len()
        &&& depth <= 64
    }

    fn is_app_named(&self, i: usize) -> (r: bool)
        requires
            self.wf(),
            i < self.procs@.len(),
        ensures
            r == app_named(self.world(), i as int),
    {
        self.rules.app(&self.facts(i)).is_some()
    }

    fn parent_is_no_absorb(&self, i: usize) -> (r: bool)
        requires
            self.wf(),
            i < self.procs@.len(),
        ensures
            r == parent_absorbs_nothing(self.world(), i as int),
    {
        match group::find_pid(self.procs, self.procs[i].ppid) {
            Some(q) => self.classes(q).has(Classes::NO_ABSORB),
            None => false,
        }
    }

    fn find_mounted(&self, i: usize, prefix: &str) -> (r: Option<usize>)
        requires
            self.wf(),
            i < self.procs@.len(),
        ensures
            match r {
                Some(k) => k < self.procs@.len() && mounted_from(
                    self.world(),
                    i as int,
                    prefix@,
                    0,
                ) == Some(k as int),
                None => mounted_from(self.world(), i as int, prefix@, 0) is None,
            },
    {
        let ghost w = self.world();
        let mut k: usize = 0;
        while k < self.procs.len()
            invariant
                k <= self.procs@.len(),
                i < self.procs@.len(),
                self.wf(),
                w == self.world(),
                mounted_from(w, i as int, prefix@, 0) == mounted_from(
                    w,
                    i as int,
                    prefix@,
                    k as int,
                ),
            decreases self.procs.len() - k,
        {
            let q = &self.procs[k];
            let under = match &q.exe {
                Some(e) => text::str_prefixed(e.as_str(), prefix),
                None => false,
            };
            if q.pid != self.procs[i].pid && q.uid == self.procs[i].uid && under && !self.classes(
                k,
            ).has(Classes::LAUNCHER | Classes::CRASH_HELPER | Classes::WORKER) {
                return Some(k);
            }
            k += 1;
        }
        None
    }

    fn find_group_owner(&self, i: usize) -> (r: Option<usize>)
        requires
            self.wf(),
            i < self.procs@.len(),
        ensures
            match r {
                Some(k) => k < self.procs@.len() && group_owner_from(self.world(), i as int, 0)
                    == Some(k as int),
                None => group_owner_from(self.world(), i as int, 0) is None,
            },
    {
        let ghost w = self.world();
        let mut k: usize = 0;
        while k < self.procs.len()
            invariant
                k <= self.procs@.len(),
                i < self.procs@.len(),
                self.wf(),
                w == self.world(),
                group_owner_from(w, i as int, 0) == group_owner_from(w, i as int, k as int),
            decreases self.procs.len() - k,
        {
            let q = &self.procs[k];
            if q.pid != self.procs[i].pid && q.cgroup == self.procs[i].cgroup && (!self.classes(
                k,
            ).has(
                Classes::LAUNCHER | Classes::GENERIC | Classes::SHELL | Classes::NOISE
                    | Classes::WORKER,
            ) || self.is_app_named(k)) {
                return Some(k);
            }
            k += 1;
        }
        None
    }

    fn find_scope_terminal(&self, i: usize) -> (r: Option<usize>)
        requires
            self.wf(),
            i < self.procs@.len(),
        ensures
            match r {
                Some(k) => k < self.procs@.len() && scope_terminal(self.world(), i as int) == Some(
                    k as int,
                ),
                None => scope_terminal(self.world(), i as int) is None,
            },
    {
        assert(self.judged@[i as int].of(self.procs@[i as int], *self.rules));
        let full = match &self.judged[i].unit {
            Some(u) => match identity::app_scope_names(u.as_str()) {
                Some((full, _)) => full,
                None => return None,
            },
            None => return None,
        };
        let stem = text::folded(full.as_str());
        let ghost w = self.world();
        let mut k: usize = 0;
        while k < self.procs.len()
            invariant
                k <= self.procs@.len(),
                i < self.procs@.len(),
                self.wf(),
                w == self.world(),
                scope_terminal(w, i as int) == scope_terminal_from(w, i as int, stem@, 0),
                scope_terminal_from(w, i as int, stem@, 0) == scope_terminal_from(
                    w,
                    i as int,
                    stem@,
                    k as int,
                ),
            decreases self.procs.len() - k,
        {
            let q = &self.procs[k];
            if q.uid == self.procs[i].uid && self.classes(k).has(Classes::TERMINAL) {
                let mut n = text::lower_string(classify::name_ref(q));
                let name = text::chars_of(n.as_str());
                n.append("-");
                let dashed = text::chars_of(n.as_str());
                if text::same(stem.as_slice(), name.as_slice()) || text::prefixed(
                    stem.as_slice(),
                    dashed.as_slice(),
                ) {
                    return Some(k);
                }
            }
            k += 1;
        }
        None
    }

    /// The place of the `i`th process, kept for the next time it is asked for.
    fn resolve_at(
        &self,
        i: usize,
        memo: &mut Vec<Option<Place>>,
        walking: &mut Vec<bool>,
        depth: usize,
    ) -> (r: Place)
        requires
            self.ready(*old(memo), *old(walking), depth),
            i < self.procs@.len(),
        ensures
            kept(*old(memo), *final(memo), *old(walking), *final(walking)),
            (r@, found_in(final(memo)@)) == resolve(
                self.world(),
                i as int,
                found_in(old(memo)@),
                old(walking)@,
                depth as int,
            ),
        decreases left(depth as int), 1int, 0int,
    {
        if let Some(p) = &memo[i] {
            return p.copy();
        }
        if depth >= MAX_WALK || walking[i] {
            return place::override_place(self.rules, self.raw_place(i));
        }
        walking.set(i, true);
        let found = self.compute_place(i, memo, walking, depth);
        let pl = place::override_place(self.rules, found);
        walking.set(i, false);
        assert(walking@ =~= old(walking)@);
        let ghost before = found_in(memo@);
        memo.set(i, Some(pl.copy()));
        assert(found_in(memo@) =~= before.update(i as int, Some(pl@)));
        pl
    }

    fn resolve_one(
        &self,
        pid: u32,
        memo: &mut Vec<Option<Place>>,
        walking: &mut Vec<bool>,
        depth: usize,
    ) -> (r: Option<Place>)
        requires
            self.ready(*old(memo), *old(walking), depth),
        ensures
            kept(*old(memo), *final(memo), *old(walking), *final(walking)),
            (place::opt_place(r), found_in(final(memo)@)) == resolve_pid(
                self.world(),
                pid,
                found_in(old(memo)@),
                old(walking)@,
                depth as int,
            ),
        decreases left(depth as int), 2int, 0int,
    {
        match group::find_pid(self.procs, pid) {
            Some(i) => Some(self.resolve_at(i, memo, walking, depth)),
            None => None,
        }
    }

    fn compute_place(
        &self,
        i: usize,
        memo: &mut Vec<Option<Place>>,
        walking: &mut Vec<bool>,
        depth: usize,
    ) -> (r: Place)
        requires
            self.ready(*old(memo), *old(walking), depth),
            i < self.procs@.len(),
            depth < 64,
        ensures
            kept(*old(memo), *final(memo), *old(walking), *final(walking)),
            (r@, found_in(final(memo)@)) == compute(
                self.world(),
                i as int,
                found_in(old(memo)@),
                old(walking)@,
                depth as int,
            ),
        decreases left(depth as int), 0int, 0int,
    {
        if let Some(place) = self.direct_place(i) {
            return place;
        }
        if let Some(place) = self.worker_place(i, memo, walking, depth + 1) {
            return place;
        }
        if let Some(place) = self.noise_place(i, memo, walking, depth + 1) {
            return place;
        }
        if let Some(place) = self.payload_place(i, memo, walking, depth + 1) {
            return place;
        }
        if let Some(place) = self.launcher_place(i, memo, walking, depth + 1) {
            return place;
        }
        if let Some(place) = self.shell_place(i, memo, walking, depth + 1) {
            return place;
        }
        if let Some(place) = self.generic_place(i, memo, walking, depth + 1) {
            return place;
        }
        if let Some(place) = self.orphan_place(i, memo, walking, depth + 1) {
            return place;
        }
        if let Some(place) = self.leader_place(i, memo, walking, depth + 1) {
            return place;
        }
        self.user_place(i)
    }

    fn worker_place(
        &self,
        i: usize,
        memo: &mut Vec<Option<Place>>,
        walking: &mut Vec<bool>,
        depth: usize,
    ) -> (r: Option<Place>)
        requires
            self.ready(*old(memo), *old(walking), depth),
            i < self.procs@.len(),
        ensures
            kept(*old(memo), *final(memo), *old(walking), *final(walking)),
            (place::opt_place(r), found_in(final(memo)@)) == worker_step(
                self.world(),
                i as int,
                found_in(old(memo)@),
                old(walking)@,
                depth as int,
            ),
        decreases left(depth as int), 7int, 0int,
    {
        if !self.classes(i).has(Classes::WORKER) {
            return None;
        }
        if let Some(parent) = self.resolve_one(self.procs[i].ppid, memo, walking, depth) {
            if parent.folder != Folder::System && !self.rules.classes_of_name(
                parent.key.as_str(),
            ).has(Classes::NO_ABSORB) {
                return Some(self.joining(i, parent));
            }
        }
        self.lying_scope_place(i, memo, walking, depth)
    }

    fn noise_place(
        &self,
        i: usize,
        memo: &mut Vec<Option<Place>>,
        walking: &mut Vec<bool>,
        depth: usize,
    ) -> (r: Option<Place>)
        requires
            self.ready(*old(memo), *old(walking), depth),
            i < self.procs@.len(),
        ensures
            kept(*old(memo), *final(memo), *old(walking), *final(walking)),
            (place::opt_place(r), found_in(final(memo)@)) == noise_step(
                self.world(),
                i as int,
                found_in(old(memo)@),
                old(walking)@,
                depth as int,
            ),
        decreases left(depth as int), 7int, 0int,
    {
        if !self.classes(i).has(Classes::NOISE) {
            return None;
        }
        if self.parent_is_no_absorb(i) {
            return self.lying_scope_place(i, memo, walking, depth);
        }
        if let Some(parent) = self.resolve_one(self.procs[i].ppid, memo, walking, depth) {
            if parent.folder != Folder::System {
                return Some(self.joining(i, parent));
            }
        }
        None
    }

    fn payload_place(
        &self,
        i: usize,
        memo: &mut Vec<Option<Place>>,
        walking: &mut Vec<bool>,
        depth: usize,
    ) -> (r: Option<Place>)
        requires
            self.ready(*old(memo), *old(walking), depth),
            i < self.procs@.len(),
        ensures
            kept(*old(memo), *final(memo), *old(walking), *final(walking)),
            (place::opt_place(r), found_in(final(memo)@)) == payload_step(
                self.world(),
                i as int,
                found_in(old(memo)@),
                old(walking)@,
                depth as int,
            ),
        decreases left(depth as int), 7int, 0int,
    {
        if !self.classes(i).has(Classes::LAUNCHER | Classes::SHELL) {
            return None;
        }
        match self.unique_descendant_ident(i, memo, walking, depth) {
            Some(payload) => Some(self.joining(i, payload)),
            None => None,
        }
    }

    fn launcher_place(
        &self,
        i: usize,
        memo: &mut Vec<Option<Place>>,
        walking: &mut Vec<bool>,
        depth: usize,
    ) -> (r: Option<Place>)
        requires
            self.ready(*old(memo), *old(walking), depth),
            i < self.procs@.len(),
        ensures
            kept(*old(memo), *final(memo), *old(walking), *final(walking)),
            (place::opt_place(r), found_in(final(memo)@)) == launcher_step(
                self.world(),
                i as int,
                found_in(old(memo)@),
                old(walking)@,
                depth as int,
            ),
        decreases left(depth as int), 7int, 0int,
    {
        if !self.classes(i).has(Classes::LAUNCHER) {
            return None;
        }
        if let Some(place) = self.mount_place(i, memo, walking, depth) {
            return Some(place);
        }
        if let Some(hint) = classify::launcher_payload_hint(&self.procs[i], self.rules) {
            return Some(Place { key: hint, ..self.user_place(i) });
        }
        if let Some(parent) = self.resolve_one(self.procs[i].ppid, memo, walking, depth) {
            if parent.folder != Folder::System && !self.rules.classes_of_name(
                parent.key.as_str(),
            ).has(Classes::LAUNCHER) {
                return Some(self.joining(i, parent));
            }
        }
        None
    }

    fn mount_place(
        &self,
        i: usize,
        memo: &mut Vec<Option<Place>>,
        walking: &mut Vec<bool>,
        depth: usize,
    ) -> (r: Option<Place>)
        requires
            self.ready(*old(memo), *old(walking), depth),
            i < self.procs@.len(),
        ensures
            kept(*old(memo), *final(memo), *old(walking), *final(walking)),
            (place::opt_place(r), found_in(final(memo)@)) == mount_owner(
                self.world(),
                i as int,
                found_in(old(memo)@),
                old(walking)@,
                depth as int,
            ),
        decreases left(depth as int), 6int, 0int,
    {
        let prefix = match classify::appimage_mount_prefix(&self.procs[i]) {
            Some(prefix) => prefix,
            None => return None,
        };
        match self.find_mounted(i, prefix.as_str()) {
            Some(k) => {
                let place = self.resolve_at(k, memo, walking, depth);
                if place.folder == Folder::System || place.folder == Folder::Containers {
                    None
                } else {
                    Some(self.joining(i, place))
                }
            },
            None => None,
        }
    }

    fn shell_place(
        &self,
        i: usize,
        memo: &mut Vec<Option<Place>>,
        walking: &mut Vec<bool>,
        depth: usize,
    ) -> (r: Option<Place>)
        requires
            self.ready(*old(memo), *old(walking), depth),
            i < self.procs@.len(),
        ensures
            kept(*old(memo), *final(memo), *old(walking), *final(walking)),
            (place::opt_place(r), found_in(final(memo)@)) == shell_step(
                self.world(),
                i as int,
                found_in(old(memo)@),
                old(walking)@,
                depth as int,
            ),
        decreases left(depth as int), 7int, 0int,
    {
        if !self.classes(i).has(Classes::SHELL) {
            return None;
        }
        if let Some(owner) = self.owning_app_ancestor(
            self.procs[i].ppid,
            memo,
            walking,
            depth,
        ) {
            if owner.folder == Folder::Applications || owner.folder == Folder::UserServices {
                return Some(self.joining(i, owner));
            }
        }
        match self.terminal_ancestor(self.procs[i].ppid, memo, walking, depth) {
            Some(place) => Some(self.joining(i, place)),
            None => None,
        }
    }

    fn generic_place(
        &self,
        i: usize,
        memo: &mut Vec<Option<Place>>,
        walking: &mut Vec<bool>,
        depth: usize,
    ) -> (r: Option<Place>)
        requires
            self.ready(*old(memo), *old(walking), depth),
            i < self.procs@.len(),
        ensures
            kept(*old(memo), *final(memo), *old(walking), *final(walking)),
            (place::opt_place(r), found_in(final(memo)@)) == generic_step(
                self.world(),
                i as int,
                found_in(old(memo)@),
                old(walking)@,
                depth as int,
            ),
        decreases left(depth as int), 7int, 0int,
    {
        if !self.classes(i).has(Classes::GENERIC) {
            return None;
        }
        match self.owning_app_ancestor(self.procs[i].ppid, memo, walking, depth) {
            Some(owner) => Some(self.joining(i, owner)),
            None => None,
        }
    }

    fn orphan_place(
        &self,
        i: usize,
        memo: &mut Vec<Option<Place>>,
        walking: &mut Vec<bool>,
        depth: usize,
    ) -> (r: Option<Place>)
        requires
            self.ready(*old(memo), *old(walking), depth),
            i < self.procs@.len(),
        ensures
            kept(*old(memo), *final(memo), *old(walking), *final(walking)),
            (place::opt_place(r), found_in(final(memo)@)) == orphan_step(
                self.world(),
                i as int,
                found_in(old(memo)@),
                old(walking)@,
                depth as int,
            ),
        decreases left(depth as int), 7int, 0int,
    {
        if !self.classes(i).has(Classes::GENERIC) || !self.parent_is_no_absorb(i) {
            return None;
        }
        if self.lying(i) {
            return self.lying_scope_place(i, memo, walking, depth);
        }
        match self.find_group_owner(i) {
            Some(k) => {
                let place = self.resolve_at(k, memo, walking, depth);
                if place.folder == Folder::Applications || place.folder == Folder::UserServices {
                    Some(self.joining(i, place))
                } else {
                    None
                }
            },
            None => None,
        }
    }

    fn leader_place(
        &self,
        i: usize,
        memo: &mut Vec<Option<Place>>,
        walking: &mut Vec<bool>,
        depth: usize,
    ) -> (r: Option<Place>)
        requires
            self.ready(*old(memo), *old(walking), depth),
            i < self.procs@.len(),
        ensures
            kept(*old(memo), *final(memo), *old(walking), *final(walking)),
            (place::opt_place(r), found_in(final(memo)@)) == leader_step(
                self.world(),
                i as int,
                found_in(old(memo)@),
                old(walking)@,
                depth as int,
            ),
        decreases left(depth as int), 7int, 0int,
    {
        let pgrp: i32 = self.procs[i].pgrp;
        if pgrp < 0 || pgrp as u32 == self.procs[i].pid || !self.parent_is_no_absorb(i) {
            return None;
        }
        if let Some(place) = self.resolve_one(pgrp as u32, memo, walking, depth) {
            if place.folder == Folder::Applications {
                return Some(self.joining(i, place));
            }
        }
        None
    }

    fn lying_scope_place(
        &self,
        i: usize,
        memo: &mut Vec<Option<Place>>,
        walking: &mut Vec<bool>,
        depth: usize,
    ) -> (r: Option<Place>)
        requires
            self.ready(*old(memo), *old(walking), depth),
            i < self.procs@.len(),
        ensures
            kept(*old(memo), *final(memo), *old(walking), *final(walking)),
            (place::opt_place(r), found_in(final(memo)@)) == lying_scope(
                self.world(),
                i as int,
                found_in(old(memo)@),
                old(walking)@,
                depth as int,
            ),
        decreases left(depth as int), 5int, 0int,
    {
        if let Some(owner) = self.owning_app_ancestor(
            self.procs[i].ppid,
            memo,
            walking,
            depth,
        ) {
            if owner.folder == Folder::Applications {
                return Some(self.joining(i, owner));
            }
        }
        match self.find_scope_terminal(i) {
            Some(k) => {
                let place = self.resolve_at(k, memo, walking, depth);
                if place.folder == Folder::System {
                    None
                } else {
                    Some(self.joining(i, place))
                }
            },
            None => None,
        }
    }

    fn owning_app_ancestor(
        &self,
        start: u32,
        memo: &mut Vec<Option<Place>>,
        walking: &mut Vec<bool>,
        depth: usize,
    ) -> (r: Option<Place>)
        requires
            self.ready(*old(memo), *old(walking), depth),
        ensures
            kept(*old(memo), *final(memo), *old(walking), *final(walking)),
            (place::opt_place(r), found_in(final(memo)@)) == owning_app(
                self.world(),
                start,
                found_in(old(memo)@),
                old(walking)@,
                depth as int,
            ),
        decreases left(depth as int), 4int, 0int,
    {
        let ghost w = self.world();
        let ghost found = found_in(memo@);
        let ghost marks = walking@;
        let mut pid: u32 = start;
        let mut steps: usize = MAX_WALK - depth;
        while steps > 0
            invariant
                steps <= 64,
                self.ready(*memo, *walking, depth),
                memo@ == old(memo)@,
                walking@ == old(walking)@,
                found == found_in(memo@),
                marks == walking@,
                w == self.world(),
                owning_app(w, start, found, marks, depth as int) == owning_from(
                    w,
                    pid,
                    found,
                    marks,
                    depth as int,
                    steps as int,
                ),
            decreases steps,
        {
            let i = match group::find_pid(self.procs, pid) {
                Some(i) => i,
                None => return None,
            };
            let classes = self.classes(i);
            let named = self.is_app_named(i);
            if !named && classes.has(
                Classes::LAUNCHER | Classes::GENERIC | Classes::SHELL | Classes::NOISE,
            ) {
                pid = self.procs[i].ppid;
                steps -= 1;
                continue ;
            }
            if !named && !classify::absorbs_generic(classes) {
                return None;
            }
            let place = self.resolve_at(i, memo, walking, depth);
            if place.folder == Folder::System || place.folder == Folder::Containers {
                return None;
            }
            return Some(place);
        }
        None
    }

    fn terminal_ancestor(
        &self,
        start: u32,
        memo: &mut Vec<Option<Place>>,
        walking: &mut Vec<bool>,
        depth: usize,
    ) -> (r: Option<Place>)
        requires
            self.ready(*old(memo), *old(walking), depth),
        ensures
            kept(*old(memo), *final(memo), *old(walking), *final(walking)),
            (place::opt_place(r), found_in(final(memo)@)) == terminal_from(
                self.world(),
                start,
                found_in(old(memo)@),
                old(walking)@,
                depth as int,
            ),
        decreases left(depth as int), 3int, 0int,
    {
        if depth >= MAX_WALK {
            return None;
        }
        let i = match group::find_pid(self.procs, start) {
            Some(i) => i,
            None => return None,
        };
        let place = self.resolve_at(i, memo, walking, depth);
        if place.folder != Folder::System && self.rules.classes_of_name(place.key.as_str()).has(
            Classes::TERMINAL,
        ) {
            return Some(place);
        }
        self.terminal_ancestor(self.procs[i].ppid, memo, walking, depth + 1)
    }

    fn unique_descendant_ident(
        &self,
        i: usize,
        memo: &mut Vec<Option<Place>>,
        walking: &mut Vec<bool>,
        depth: usize,
    ) -> (r: Option<Place>)
        requires
            self.ready(*old(memo), *old(walking), depth),
            i < self.procs@.len(),
        ensures
            kept(*old(memo), *final(memo), *old(walking), *final(walking)),
            (place::opt_place(r), found_in(final(memo)@)) == unique(
                self.world(),
                i as int,
                found_in(old(memo)@),
                old(walking)@,
                depth as int,
            ),
        decreases left(depth as int), 6int, 0int,
    {
        if depth >= MAX_WALK {
            return None;
        }
        let ghost w = self.world();
        let ghost kids = group::children_of(w.procs, i as int);
        let ghost start = found_in(memo@);
        let ghost marks = walking@;
        let children = &self.children[i];
        assert(ints_are(children@, kids)) by {
            assert(group::ints(self.children@[i as int]@) == kids);
        }
        let mut places: Vec<Place> = Vec::new();
        let mut k: usize = 0;
        assert(views_of(places@) =~= Seq::<PlaceView>::empty());
        proof {
            let all = kid_places(w, kids, 0, start, marks, depth as int);
            assert(Seq::<PlaceView>::empty() + all.0 =~= all.0);
        }
        while k < children.len()
            invariant
                k <= children@.len(),
                depth < 64,
                i < self.procs@.len(),
                self.ready(*memo, *walking, depth),
                memo@.len() == old(memo)@.len(),
                walking@ == old(walking)@,
                marks == walking@,
                w == self.world(),
                kids == group::children_of(w.procs, i as int),
                ints_are(children@, kids),
                ({
                    let all = kid_places(w, kids, 0, start, marks, depth as int);
                    let rest = kid_places(
                        w,
                        kids,
                        k as int,
                        found_in(memo@),
                        marks,
                        depth as int,
                    );
                    all == (views_of(places@) + rest.0, rest.1)
                }),
            decreases children.len() - k,
        {
            let c: usize = children[k];
            proof {
                group::lemma_children_bounds(
                    w.procs,
                    w.procs[i as int].pid,
                    w.procs.len() as int,
                    k as int,
                );
                assert(c == kids[k as int]);
            }
            let ghost before = views_of(places@);
            let ghost at = found_in(memo@);
            let ghost here = kid_place(w, c as int, at, marks, depth as int);
            let ghost rest = kid_places(w, kids, k + 1, here.1, marks, depth as int);
            match self.child_place(c, memo, walking, depth) {
                Some(pl) => {
                    let ghost pv = pl@;
                    places.push(pl);
                    assert(views_of(places@) =~= before + seq![pv]);
                },
                None => {
                    assert(views_of(places@) =~= before + Seq::<PlaceView>::empty());
                },
            }
            proof {
                assert(views_of(places@) == before + here.0);
                assert(before + (here.0 + rest.0) =~= views_of(places@) + rest.0);
            }
            k += 1;
        }
        proof {
            let rest = kid_places(w, kids, k as int, found_in(memo@), marks, depth as int);
            assert(views_of(places@) + rest.0 =~= views_of(places@));
        }
        one_key(places)
    }

    fn child_place(
        &self,
        c: usize,
        memo: &mut Vec<Option<Place>>,
        walking: &mut Vec<bool>,
        depth: usize,
    ) -> (r: Option<Place>)
        requires
            self.ready(*old(memo), *old(walking), depth),
            c < self.procs@.len(),
            depth < 64,
        ensures
            kept(*old(memo), *final(memo), *old(walking), *final(walking)),
            ({
                let (here, after) = kid_place(
                    self.world(),
                    c as int,
                    found_in(old(memo)@),
                    old(walking)@,
                    depth as int,
                );
                &&& found_in(final(memo)@) == after
                &&& here == match r {
                    Some(pl) => seq![pl@],
                    None => Seq::empty(),
                }
            }),
        decreases left(depth as int), 4int, 1int,
    {
        let classes = self.classes(c);
        if classes.has(Classes::LAUNCHER | Classes::SHELL | Classes::NOISE) {
            return self.unique_descendant_ident(c, memo, walking, depth + 1);
        }
        if classes.has(Classes::WORKER) {
            if let Some(pl) = self.unique_descendant_ident(c, memo, walking, depth + 1) {
                return Some(pl);
            }
            return Some(self.worker_leaf_place(c, memo, walking, depth));
        }
        Some(self.resolve_at(c, memo, walking, depth + 1))
    }

    fn worker_leaf_place(
        &self,
        c: usize,
        memo: &mut Vec<Option<Place>>,
        walking: &mut Vec<bool>,
        depth: usize,
    ) -> (r: Place)
        requires
            self.ready(*old(memo), *old(walking), depth),
            c < self.procs@.len(),
            depth < 64,
        ensures
            kept(*old(memo), *final(memo), *old(walking), *final(walking)),
            (r@, found_in(final(memo)@)) == worker_leaf(
                self.world(),
                c as int,
                found_in(old(memo)@),
                old(walking)@,
                depth as int,
            ),
        decreases left(depth as int), 4int, 0int,
    {
        let own = self.raw_place(c);
        let name = classify::name_ref(&self.procs[c]);
        if !text::same_str(own.key.as_str(), name) {
            return own;
        }
        let ghost w = self.world();
        let ghost start = found_in(memo@);
        let ghost marks = walking@;
        let mut so_far: Option<Place> = None;
        let mut k: usize = 0;
        while k < self.procs.len()
            invariant
                k <= self.procs@.len(),
                depth < 64,
                c < self.procs@.len(),
                self.ready(*memo, *walking, depth),
                memo@.len() == old(memo)@.len(),
                walking@ == old(walking)@,
                marks == walking@,
                w == self.world(),
                name@ == classify::process_name(w.procs[c as int]),
                own@ == place::raw(w, w.procs[c as int]),
                own@.key == name@,
                start == found_in(old(memo)@),
                siblings_from(w, c as int, 0, start, marks, depth as int, None) == siblings_from(
                    w,
                    c as int,
                    k as int,
                    found_in(memo@),
                    marks,
                    depth as int,
                    place::opt_place(so_far),
                ),
            decreases self.procs.len() - k,
        {
            let q = &self.procs[k];
            if q.pid != self.procs[c].pid && q.cgroup == self.procs[c].cgroup && !self.classes(
                k,
            ).has(
                Classes::LAUNCHER | Classes::WORKER | Classes::NOISE | Classes::SHELL
                    | Classes::CRASH_HELPER,
            ) {
                let next = self.resolve_at(k, memo, walking, depth + 1);
                if text::same_str(next.key.as_str(), name) {
                    return own;
                }
                match &so_far {
                    Some(prev) => {
                        if !text::same_str(prev.key.as_str(), next.key.as_str()) {
                            return own;
                        }
                    },
                    None => {
                        so_far = Some(next);
                    },
                }
            }
            k += 1;
        }
        match so_far {
            Some(pl) => pl,
            None => own,
        }
    }
}

/// The indices are these.
pub open spec fn ints_are(v: Seq<usize>, at: Seq<int>) -> bool {
    group::ints(v) == at
}

/// The places of a list.
pub open spec fn views_of(v: Seq<Place>) -> Seq<PlaceView> {
    Seq::new(v.len(), |k: int| v[k]@)
}

fn one_key(places: Vec<Place>) -> (r: Option<Place>)
    ensures
        place::opt_place(r) == agreed(views_of(places@)),
{
    if places.len() == 0 {
        return None;
    }
    let ghost v = views_of(places@);
    let mut k: usize = 0;
    while k < places.len()
        invariant
            k <= places@.len(),
            places@.len() > 0,
            v == views_of(places@),
            forall|j: int| 0 <= j < k ==> (#[trigger] v[j]).key == v[0].key,
        decreases places.len() - k,
    {
        assert(v[k as int] == places@[k as int]@);
        if !text::same_str(places[k].key.as_str(), places[0].key.as_str()) {
            assert(v[k as int].key != v[0].key);
            return None;
        }
        k += 1;
    }
    Some(places[0].copy())
}

/// The place of every process of a sample.
pub fn resolve_places(ctx: &Ctx) -> (r: Vec<Option<Place>>)
    requires
        ctx.wf(),
    ensures
        found_in(r@) == resolve_all(
            ctx.world(),
            0,
            nothing_found(ctx.world().procs.len()),
        ),
{
    let n: usize = ctx.procs.len();
    let ghost w = ctx.world();
    let mut memo: Vec<Option<Place>> = Vec::new();
    let mut walking: Vec<bool> = Vec::new();
    let mut i: usize = 0;
    while i < n
        invariant
            i <= n,
            memo@.len() == i,
            walking@.len() == i,
            forall|k: int| 0 <= k < i ==> (#[trigger] memo@[k]) is None,
            forall|k: int| 0 <= k < i ==> !(#[trigger] walking@[k]),
        decreases n - i,
    {
        memo.push(None);
        walking.push(false);
        i += 1;
    }
    let ghost idle = Seq::new(w.procs.len(), |k: int| false);
    assert(walking@ =~= idle);
    assert(found_in(memo@) =~= nothing_found(w.procs.len()));
    let mut i: usize = 0;
    while i < n
        invariant
            i <= n,
            n == ctx.procs@.len(),
            ctx.ready(memo, walking, 0),
            w == ctx.world(),
            idle == Seq::new(w.procs.len(), |k: int| false),
            walking@ == idle,
            resolve_all(w, 0, nothing_found(w.procs.len())) == resolve_all(
                w,
                i as int,
                found_in(memo@),
            ),
        decreases n - i,
    {
        ctx.resolve_at(i, &mut memo, &mut walking, 0);
        i += 1;
    }
    memo
}

} // verus!
