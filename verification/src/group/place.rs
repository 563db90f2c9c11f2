//! The places that need no look at a process's ancestors.
use vstd::prelude::*;

use crate::containers::{ContainerIndex, IndexView};
use crate::group::{Ctx, Judged, World};
use crate::rules::{Class, Classes, Facts, FactsView, FolderName, Rules, Stage, UnitFlags};
use crate::types::{Folder, Process};
use crate::{classify, containers, group, identity, rules, text};

verus! {

/// The row a process is billed to, and which copy of the application it is
/// part of.
#[derive(Debug)]
pub struct Place {
    pub folder: Folder,
    pub uid: Option<u32>,
    pub key: String,
    pub instance: String,
    pub member: Option<String>,
}

/// The same as text.
pub struct PlaceView {
    pub folder: Folder,
    pub uid: Option<u32>,
    pub key: Seq<char>,
    pub instance: Seq<char>,
    pub member: Option<Seq<char>>,
}

impl View for Place {
    type V = PlaceView;

    open spec fn view(&self) -> PlaceView {
        PlaceView {
            folder: self.folder,
            uid: self.uid,
            key: self.key@,
            instance: self.instance@,
            member: text::opt_text(self.member),
        }
    }
}

pub open spec fn opt_place(p: Option<Place>) -> Option<PlaceView> {
    match p {
        Some(x) => Some(x@),
        None => None,
    }
}

impl Place {
    pub fn copy(&self) -> (r: Place)
        ensures
            r@ == self@,
    {
        Place {
            folder: self.folder,
            uid: self.uid,
            key: self.key.clone(),
            instance: self.instance.clone(),
            member: text::opt_clone(&self.member),
        }
    }
}

/// The same row, as another copy.
pub open spec fn with_instance(place: PlaceView, instance: Seq<char>) -> PlaceView {
    PlaceView { instance, ..place }
}

/// The folder a rule names.
pub open spec fn folder_named(f: FolderName) -> Folder {
    match f {
        FolderName::Applications => Folder::Applications,
        FolderName::UserServices => Folder::UserServices,
    }
}

pub fn folder_of(f: FolderName) -> (r: Folder)
    ensures
        r == folder_named(f),
{
    match f {
        FolderName::Applications => Folder::Applications,
        FolderName::UserServices => Folder::UserServices,
    }
}

/// What tells one running copy from another: the container, else the unit
/// where it does not lie, else the process group.
pub open spec fn copy_of(p: Process, rules: Rules, container: Option<Seq<char>>) -> Seq<char> {
    match container {
        Some(id) => "ctr:"@ + id,
        None => match identity::unit_of(p.cgroup@) {
            Some(u) if !group::flags_of(p, rules).lies() => u,
            _ => "pgid:"@ + text::signed_decimal(p.pgrp as int),
        },
    }
}

fn instance_key(p: &Process, container: Option<&str>, j: &Judged, Ghost(r): Ghost<Rules>) -> (s:
    String)
    requires
        j.of(*p, r),
    ensures
        s@ == copy_of(*p, r, text::opt_str(container)),
{
    if let Some(id) = container {
        return text::joined("ctr:", id);
    }
    if let Some(unit) = &j.unit {
        if !j.unit_flags.lying() {
            return unit.clone();
        }
    }
    text::joined("pgid:", text::signed_text(p.pgrp).as_str())
}

/// The copy a process is part of, outside any container.
pub open spec fn instance_of(w: World, p: Process) -> Seq<char> {
    copy_of(p, w.rules, None)
}

// ---------------------------------------------------------------------------
// Containers and machines
// ---------------------------------------------------------------------------

/// The place of a process that runs in a container or serves one: the row of
/// the container where it is known, else a row of its id.
pub open spec fn in_container(w: World, p: Process) -> Option<PlaceView> {
    let runtime = group::classes_of(p, w.rules).any_of(Classes::CONTAINER_RUNTIME);
    match w.containers.of_process(p, runtime) {
        Some(info) => Some(
            PlaceView {
                folder: Folder::Containers,
                uid: info.owner_uid,
                key: info.ident_key,
                instance: copy_of(p, w.rules, Some(info.id)),
                member: info.member_name,
            },
        ),
        None => {
            let scope = identity::container_scope(p.cgroup@);
            let id = if scope is Some {
                scope
            } else {
                containers::helper_of(p, runtime)
            };
            match id {
                Some(id) => Some(
                    PlaceView {
                        folder: Folder::Containers,
                        uid: None,
                        key: containers::title_of_id(id),
                        instance: copy_of(p, w.rules, scope),
                        member: None,
                    },
                ),
                None => None,
            }
        },
    }
}

/// The place of a process in a machine's scope.
pub open spec fn in_machine(w: World, p: Process) -> Option<PlaceView> {
    match identity::machine_of(p.cgroup@) {
        Some(name) => Some(
            PlaceView {
                folder: Folder::Containers,
                uid: None,
                key: name,
                instance: copy_of(p, w.rules, Some(name)),
                member: None,
            },
        ),
        None => None,
    }
}

// ---------------------------------------------------------------------------
// The system and the user
// ---------------------------------------------------------------------------

/// The stem of a service unit that does not lie.
pub open spec fn service_stem(p: Process, rules: Rules) -> Option<Seq<char>> {
    match identity::unit_of(p.cgroup@) {
        Some(u) => if !group::flags_of(p, rules).lies() && text::has_suffix(u, ".service"@)
            && identity::stem_of_unit(u).len() > 0 {
            Some(identity::stem_of_unit(u))
        } else {
            None
        },
        None => None,
    }
}

/// The stem of the service a process runs in, else its name.
pub open spec fn service_or_name(p: Process, rules: Rules) -> Seq<char> {
    match service_stem(p, rules) {
        Some(s) => s,
        None => classify::process_name(p),
    }
}

/// A process of a user, no service, that is called `key`.
pub open spec fn is_peer(w: World, p: Process, key: Seq<char>, j: int) -> bool {
    let q = w.procs[j];
    q.pid != p.pid && identity::user_slice(q.cgroup@) && !group::flags_of(q, w.rules).is_service()
        && text::same_folded(classify::process_name(q), key)
}

/// The first such process at or after the `j`th.
pub open spec fn peer_from(w: World, p: Process, key: Seq<char>, j: int) -> Option<int>
    decreases w.procs.len() - j,
{
    if j < 0 || j >= w.procs.len() {
        None
    } else if is_peer(w, p, key, j) {
        Some(j)
    } else {
        peer_from(w, p, key, j + 1)
    }
}

/// The place of a kernel thread or a process of the system: its own row,
/// unless a user runs an application of the same name.
pub open spec fn in_system(w: World, p: Process) -> PlaceView {
    let key = service_or_name(p, w.rules);
    if p.kthread {
        PlaceView {
            folder: Folder::System,
            uid: None,
            key: "kernel"@,
            instance: instance_of(w, p),
            member: None,
        }
    } else {
        match peer_from(w, p, key, 0) {
            Some(j) => PlaceView {
                folder: Folder::Applications,
                uid: Some(w.procs[j].uid),
                key,
                instance: instance_of(w, p),
                member: None,
            },
            None => PlaceView {
                folder: Folder::System,
                uid: None,
                key,
                instance: instance_of(w, p),
                member: None,
            },
        }
    }
}

/// The facts of a process that runs a script.
pub open spec fn script_facts(p: Process, script: Seq<char>) -> FactsView {
    FactsView { script: Some(script), ..group::facts_view(p) }
}

/// What an interpreter is called: its unit's stem where the unit does not lie
/// and is not the bare `app`, else its script where the rules do not call that
/// anonymous, else its own name.
pub open spec fn interpreter_name(p: Process, rules: Rules) -> Seq<char> {
    match identity::unit_of(p.cgroup@) {
        Some(u) if !group::flags_of(p, rules).lies() && identity::stem_of_unit(u).len() > 0
            && identity::stem_of_unit(u) != "app"@ => identity::stem_of_unit(u),
        _ => match classify::script_of(text::texts(p.cmdline@)) {
            Some(s) if !rules.classes_spec(script_facts(p, s)).any_of(
                rules::class_bit(Class::AnonymousScript),
            ) => s,
            _ => classify::process_name(p),
        },
    }
}

/// The place of a process of a user that no other rule moves.
pub open spec fn in_user(w: World, p: Process) -> PlaceView {
    let classes = group::classes_of(p, w.rules);
    let flags = group::flags_of(p, w.rules);
    PlaceView {
        folder: if classes.any_of(Classes::COMPOSITOR) || (flags.is_service() && !flags.lies()) {
            Folder::UserServices
        } else {
            Folder::Applications
        },
        uid: Some(p.uid),
        key: match group::scope_app(w, p) {
            Some(app) => app,
            None => if classes.any_of(Classes::GENERIC) {
                interpreter_name(p, w.rules)
            } else {
                service_or_name(p, w.rules)
            },
        },
        instance: instance_of(w, p),
        member: None,
    }
}

/// The place a session rule gives.
pub open spec fn in_session(w: World, p: Process) -> Option<PlaceView> {
    match w.rules.session_spec(group::facts_view(p)) {
        Some((key, folder)) => Some(
            PlaceView {
                folder: folder_named(folder),
                uid: Some(p.uid),
                key,
                instance: instance_of(w, p),
                member: None,
            },
        ),
        None => None,
    }
}

/// The place of a crash helper: with the application it serves.
pub open spec fn with_crashed(w: World, p: Process) -> Option<PlaceView> {
    match classify::crash_app(p, group::classes_of(p, w.rules), w.rules) {
        Some(key) => Some(
            PlaceView {
                folder: Folder::Applications,
                uid: Some(p.uid),
                key,
                instance: instance_of(w, p),
                member: None,
            },
        ),
        None => None,
    }
}

/// The place an app rule gives.
pub open spec fn in_app(w: World, p: Process) -> Option<PlaceView> {
    match w.rules.app_spec(group::facts_view(p)) {
        Some(key) => Some(PlaceView { key, ..in_user(w, p) }),
        None => None,
    }
}

/// A process of the system rather than of a user.
pub open spec fn of_system(p: Process) -> bool {
    p.kthread || (identity::system_slice(p.cgroup@) && !identity::user_slice(p.cgroup@))
}

/// The place of a process that needs no look at its ancestors: its container,
/// its machine, the system, a session rule, a crash helper's application, an
/// app rule, in this order.
pub open spec fn direct(w: World, p: Process) -> Option<PlaceView> {
    if in_container(w, p) is Some {
        in_container(w, p)
    } else if in_machine(w, p) is Some {
        in_machine(w, p)
    } else if of_system(p) {
        Some(in_system(w, p))
    } else if in_session(w, p) is Some {
        in_session(w, p)
    } else if with_crashed(w, p) is Some {
        with_crashed(w, p)
    } else {
        in_app(w, p)
    }
}

/// The place of a process on its own.
pub open spec fn raw(w: World, p: Process) -> PlaceView {
    match direct(w, p) {
        Some(place) => place,
        None => in_user(w, p),
    }
}

/// A folder that belongs to a user.
pub open spec fn users_own(f: Folder) -> bool {
    f == Folder::Applications || f == Folder::UserServices
}

/// A place after the placement rules. They see the two folders of a user and
/// nothing else. The rule for the key may give another key; the folder comes
/// from that rule, or where it has none and the key is another, from the rule
/// for the new key.
pub open spec fn overridden(rules: Rules, place: PlaceView) -> PlaceView {
    if !users_own(place.folder) {
        place
    } else {
        match rules.placement_spec(place.key) {
            None => place,
            Some(r) => {
                let key = match r.fold_to {
                    Some(k) => k@,
                    None => place.key,
                };
                let folder = if r.folder is Some {
                    folder_named(r.folder->0)
                } else if r.fold_to is Some {
                    match rules.placement_spec(key) {
                        Some(r2) => if r2.folder is Some {
                            folder_named(r2.folder->0)
                        } else {
                            place.folder
                        },
                        None => place.folder,
                    }
                } else {
                    place.folder
                };
                PlaceView { folder, key, ..place }
            },
        }
    }
}

// ---------------------------------------------------------------------------
// The same, computed
// ---------------------------------------------------------------------------

impl<'a> Ctx<'a> {
    pub fn classes(&self, i: usize) -> (r: Classes)
        requires
            self.wf(),
            i < self.procs@.len(),
        ensures
            r == group::classes_of(self.world().procs[i as int], self.world().rules),
    {
        assert(self.judged@[i as int].of(self.procs@[i as int], *self.rules));
        self.judged[i].classes
    }

    pub fn lying(&self, i: usize) -> (r: bool)
        requires
            self.wf(),
            i < self.procs@.len(),
        ensures
            r == group::flags_of(self.world().procs[i as int], self.world().rules).lies(),
    {
        assert(self.judged@[i as int].of(self.procs@[i as int], *self.rules));
        self.judged[i].unit_flags.lying()
    }

    pub fn facts(&self, i: usize) -> (r: Facts<'_>)
        requires
            self.wf(),
            i < self.procs@.len(),
        ensures
            r@ == group::facts_view(self.world().procs[i as int]),
    {
        assert(self.judged@[i as int].of(self.procs@[i as int], *self.rules));
        group::facts_of(&self.procs[i], text::opt_borrow(&self.judged[i].unit))
    }

    pub fn instance(&self, i: usize) -> (r: String)
        requires
            self.wf(),
            i < self.procs@.len(),
        ensures
            r@ == instance_of(self.world(), self.world().procs[i as int]),
    {
        assert(self.judged@[i as int].of(self.procs@[i as int], *self.rules));
        instance_key(&self.procs[i], None, &self.judged[i], Ghost(*self.rules))
    }

    /// The row, as the copy the `i`th process is part of.
    pub fn joining(&self, i: usize, place: Place) -> (r: Place)
        requires
            self.wf(),
            i < self.procs@.len(),
        ensures
            r@ == with_instance(place@, instance_of(self.world(), self.world().procs[i as int])),
    {
        Place { instance: self.instance(i), ..place }
    }

    fn container_place(&self, i: usize) -> (r: Option<Place>)
        requires
            self.wf(),
            i < self.procs@.len(),
        ensures
            opt_place(r) == in_container(self.world(), self.world().procs[i as int]),
    {
        let p = &self.procs[i];
        let j = &self.judged[i];
        assert(self.judged@[i as int].of(self.procs@[i as int], *self.rules));
        let runtime = self.classes(i).has(Classes::CONTAINER_RUNTIME);
        if let Some(info) = self.containers.lookup_process(p, runtime) {
            return Some(
                Place {
                    folder: Folder::Containers,
                    uid: info.owner_uid,
                    key: info.ident_key.clone(),
                    instance: instance_key(p, Some(info.id.as_str()), j, Ghost(*self.rules)),
                    member: text::opt_clone(&info.member_name),
                },
            );
        }
        let scope = identity::docker_scope_id(p.cgroup.as_str());
        let id = match &scope {
            Some(s) => Some(s.clone()),
            None => containers::helper_id(p, runtime),
        };
        match id {
            Some(id) => Some(
                Place {
                    folder: Folder::Containers,
                    uid: None,
                    key: containers::docker_title(id.as_str()),
                    instance: instance_key(p, text::opt_borrow(&scope), j, Ghost(*self.rules)),
                    member: None,
                },
            ),
            None => None,
        }
    }

    fn machine_place(&self, i: usize) -> (r: Option<Place>)
        requires
            self.wf(),
            i < self.procs@.len(),
        ensures
            opt_place(r) == in_machine(self.world(), self.world().procs[i as int]),
    {
        let p = &self.procs[i];
        assert(self.judged@[i as int].of(self.procs@[i as int], *self.rules));
        match identity::machine_scope_name(p.cgroup.as_str()) {
            Some(name) => Some(
                Place {
                    folder: Folder::Containers,
                    uid: None,
                    instance: instance_key(
                        p,
                        Some(name.as_str()),
                        &self.judged[i],
                        Ghost(*self.rules),
                    ),
                    key: name,
                    member: None,
                },
            ),
            None => None,
        }
    }

    fn service_unit_stem(&self, i: usize) -> (r: Option<String>)
        requires
            self.wf(),
            i < self.procs@.len(),
        ensures
            text::opt_text(r) == service_stem(
                self.world().procs[i as int],
                self.world().rules,
            ),
    {
        let j = &self.judged[i];
        assert(self.judged@[i as int].of(self.procs@[i as int], *self.rules));
        match &j.unit {
            Some(unit) => {
                if j.unit_flags.lying() || !text::str_suffixed(unit.as_str(), ".service") {
                    return None;
                }
                let stem = identity::unit_stem(unit.as_str());
                if stem.as_str().is_empty() {
                    None
                } else {
                    Some(stem)
                }
            },
            None => None,
        }
    }

    fn service_or_own_name(&self, i: usize) -> (r: String)
        requires
            self.wf(),
            i < self.procs@.len(),
        ensures
            r@ == service_or_name(self.world().procs[i as int], self.world().rules),
    {
        match self.service_unit_stem(i) {
            Some(s) => s,
            None => classify::name_of(&self.procs[i]),
        }
    }

    fn find_peer(&self, i: usize, key: &str) -> (r: Option<usize>)
        requires
            self.wf(),
            i < self.procs@.len(),
        ensures
            match r {
                Some(j) => j < self.procs@.len() && peer_from(
                    self.world(),
                    self.world().procs[i as int],
                    key@,
                    0,
                ) == Some(j as int),
                None => peer_from(
                    self.world(),
                    self.world().procs[i as int],
                    key@,
                    0,
                ) is None,
            },
    {
        let ghost w = self.world();
        let ghost p = w.procs[i as int];
        let mut j: usize = 0;
        while j < self.procs.len()
            invariant
                j <= self.procs@.len(),
                i < self.procs@.len(),
                self.wf(),
                w == self.world(),
                p == w.procs[i as int],
                peer_from(w, p, key@, 0) == peer_from(w, p, key@, j as int),
            decreases self.procs.len() - j,
        {
            let q = &self.procs[j];
            assert(self.judged@[j as int].of(self.procs@[j as int], *self.rules));
            if q.pid != self.procs[i].pid && identity::in_user_slice(q.cgroup.as_str())
                && !self.judged[j].unit_flags.service() && text::same_str_folded(
                classify::name_ref(q),
                key,
            ) {
                return Some(j);
            }
            j += 1;
        }
        None
    }

    fn system_place(&self, i: usize) -> (r: Place)
        requires
            self.wf(),
            i < self.procs@.len(),
        ensures
            r@ == in_system(self.world(), self.world().procs[i as int]),
    {
        let p = &self.procs[i];
        if identity::is_kernel(p) {
            return Place {
                folder: Folder::System,
                uid: None,
                key: "kernel".to_owned(),
                instance: self.instance(i),
                member: None,
            };
        }
        let key = self.service_or_own_name(i);
        if let Some(j) = self.find_peer(i, key.as_str()) {
            return Place {
                folder: Folder::Applications,
                uid: Some(self.procs[j].uid),
                key,
                instance: self.instance(i),
                member: None,
            };
        }
        Place { folder: Folder::System, uid: None, key, instance: self.instance(i), member: None }
    }

    fn generic_fallback(&self, i: usize) -> (r: String)
        requires
            self.wf(),
            i < self.procs@.len(),
        ensures
            r@ == interpreter_name(self.world().procs[i as int], self.world().rules),
    {
        let p = &self.procs[i];
        let j = &self.judged[i];
        assert(self.judged@[i as int].of(self.procs@[i as int], *self.rules));
        if let Some(u) = &j.unit {
            if !j.unit_flags.lying() {
                let stem = identity::unit_stem(u.as_str());
                if !stem.as_str().is_empty() && !text::same_str(stem.as_str(), "app") {
                    return stem;
                }
            }
        }
        if let Some(script) = classify::script_basename(p.cmdline.as_slice()) {
            let facts = Facts { script: Some(script.as_str()), ..self.facts(i) };
            assert(facts@ == script_facts(*p, script@));
            if !self.rules.classes(&facts).contains(Class::AnonymousScript) {
                return script;
            }
        }
        classify::name_of(p)
    }

    pub fn user_place(&self, i: usize) -> (r: Place)
        requires
            self.wf(),
            i < self.procs@.len(),
        ensures
            r@ == in_user(self.world(), self.world().procs[i as int]),
    {
        let p = &self.procs[i];
        let j = &self.judged[i];
        assert(self.judged@[i as int].of(self.procs@[i as int], *self.rules));
        assert(text::opt_text(self.scope@[i as int]) == group::scope_app(
            self.world(),
            self.procs@[i as int],
        ));
        let folder = if j.classes.has(Classes::COMPOSITOR) || (j.unit_flags.service()
            && !j.unit_flags.lying()) {
            Folder::UserServices
        } else {
            Folder::Applications
        };
        let key = match &self.scope[i] {
            Some(app) => app.clone(),
            None => if j.classes.has(Classes::GENERIC) {
                self.generic_fallback(i)
            } else {
                self.service_or_own_name(i)
            },
        };
        Place { folder, uid: Some(p.uid), key, instance: self.instance(i), member: None }
    }

    fn session_plumbing_place(&self, i: usize) -> (r: Option<Place>)
        requires
            self.wf(),
            i < self.procs@.len(),
        ensures
            opt_place(r) == in_session(self.world(), self.world().procs[i as int]),
    {
        match self.rules.session(&self.facts(i)) {
            Some((key, folder)) => Some(
                Place {
                    folder: folder_of(folder),
                    uid: Some(self.procs[i].uid),
                    key: key.to_owned(),
                    instance: self.instance(i),
                    member: None,
                },
            ),
            None => None,
        }
    }

    fn crash_helper_place(&self, i: usize) -> (r: Option<Place>)
        requires
            self.wf(),
            i < self.procs@.len(),
        ensures
            opt_place(r) == with_crashed(self.world(), self.world().procs[i as int]),
    {
        match classify::crash_helper_app(&self.procs[i], self.classes(i), self.rules) {
            Some(key) => Some(
                Place {
                    folder: Folder::Applications,
                    uid: Some(self.procs[i].uid),
                    key,
                    instance: self.instance(i),
                    member: None,
                },
            ),
            None => None,
        }
    }

    pub fn direct_place(&self, i: usize) -> (r: Option<Place>)
        requires
            self.wf(),
            i < self.procs@.len(),
        ensures
            opt_place(r) == direct(self.world(), self.world().procs[i as int]),
    {
        if let Some(place) = self.container_place(i) {
            return Some(place);
        }
        if let Some(place) = self.machine_place(i) {
            return Some(place);
        }
        let p = &self.procs[i];
        if identity::is_kernel(p) || (identity::in_system_slice(p.cgroup.as_str())
            && !identity::in_user_slice(p.cgroup.as_str())) {
            return Some(self.system_place(i));
        }
        if let Some(place) = self.session_plumbing_place(i) {
            return Some(place);
        }
        if let Some(place) = self.crash_helper_place(i) {
            return Some(place);
        }
        match self.rules.app(&self.facts(i)) {
            Some(app) => Some(Place { key: app.to_owned(), ..self.user_place(i) }),
            None => None,
        }
    }

    /// The verdict for a process on its own, which is also the one a walk that
    /// went in a circle falls back to.
    pub fn raw_place(&self, i: usize) -> (r: Place)
        requires
            self.wf(),
            i < self.procs@.len(),
        ensures
            r@ == raw(self.world(), self.world().procs[i as int]),
    {
        match self.direct_place(i) {
            Some(place) => place,
            None => self.user_place(i),
        }
    }
}

/// Applies the placement rules to a finished place.
pub fn override_place(rules: &Rules, place: Place) -> (r: Place)
    ensures
        r@ == overridden(*rules, place@),
{
    if rules.is_empty(Stage::Placement) || !(place.folder == Folder::Applications || place.folder
        == Folder::UserServices) {
        proof {
            if rules.rules_of(Stage::Placement).len() == 0 {
                assert(rules.placement_spec(place@.key) is None);
            }
        }
        return place;
    }
    let first = match rules.placement(place.key.as_str()) {
        Some(r) => r,
        None => return place,
    };
    let key = match &first.fold_to {
        Some(k) => k.clone(),
        None => place.key.clone(),
    };
    let folder = match first.folder {
        Some(f) => folder_of(f),
        None => if first.fold_to.is_some() {
            match rules.placement(key.as_str()) {
                Some(second) => match second.folder {
                    Some(f) => folder_of(f),
                    None => place.folder,
                },
                None => place.folder,
            }
        } else {
            place.folder
        },
    };
    Place { folder, key, ..place }
}

} // verus!
