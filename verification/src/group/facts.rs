//! Where the facts of a process itself put it, before and after the placement
//! rules.
use vstd::prelude::*;

use crate::group;
use crate::group::laws;
use crate::group::place;
use crate::group::place::PlaceView;
use crate::group::World;
use crate::rules;
use crate::rules::{Class, FolderName, Rules};
use crate::types::{Folder, Process};
use crate::{classify, containers, identity, text};

verus! {

// ---------------------------------------------------------------------------
// The order of the facts
// ---------------------------------------------------------------------------

/// A process that belongs to no container and no machine.
pub open spec fn on_the_host(w: World, p: Process) -> bool {
    place::in_container(w, p) is None && place::in_machine(w, p) is None
}

/// A process of the system: the kernel's, or in the system's slice and in no
/// user's.
pub open spec fn the_systems(p: Process) -> bool {
    p.kthread || (identity::system_slice(p.cgroup@) && !identity::user_slice(p.cgroup@))
}

/// A machine's scope is a row of the containers under the machine's name.
pub proof fn law_a_machine_is_a_container_row(w: World, i: int, name: Seq<char>)
    requires
        0 <= i < w.procs.len(),
        place::in_container(w, w.procs[i]) is None,
        identity::machine_of(w.procs[i].cgroup@) == Some(name),
    ensures
        ({
            let pl = laws::places(w)[i]->0;
            &&& pl.folder == Folder::Containers && pl.key == name
            &&& pl.uid is None && pl.member is None
            &&& pl.instance == "ctr:"@ + name
        }),
{
    laws::law_own_facts_decide(w, i);
}

/// A helper of a container runtime is billed to the container its command line
/// names, and a proxy to the container whose address it serves.
pub proof fn law_a_runtime_helper_is_its_containers(
    w: World,
    i: int,
    info: containers::InfoView,
)
    requires
        0 <= i < w.procs.len(),
        identity::container_scope(w.procs[i].cgroup@) is None,
        ({
            let p = w.procs[i];
            let runtime = group::classes_of(p, w.rules).any_of(
                rules::class_bit(Class::ContainerRuntime),
            );
            let argv = text::texts(p.cmdline@);
            ||| containers::helper_of(p, runtime) is Some && w.containers.find(
                containers::helper_of(p, runtime)->0,
            ) == Some(info)
            ||| containers::helper_of(p, runtime) is None && classify::flag_value_from(
                argv,
                "-container-ip"@,
                0,
            ) is Some && w.containers.at_ip(
                classify::flag_value_from(argv, "-container-ip"@, 0)->0,
            ) == Some(info)
        }),
    ensures
        ({
            let pl = laws::places(w)[i]->0;
            &&& pl.folder == Folder::Containers
            &&& pl.key == info.ident_key && pl.member == info.member_name && pl.uid
                == info.owner_uid
        }),
{
    laws::law_own_facts_decide(w, i);
}

/// A service of the system is a row of the system under its unit's stem, or
/// under its own name where it has none.
pub proof fn law_a_system_service_is_the_systems(w: World, i: int)
    requires
        0 <= i < w.procs.len(),
        on_the_host(w, w.procs[i]),
        the_systems(w.procs[i]),
        !w.procs[i].kthread,
        forall|j: int|
            0 <= j < w.procs.len() ==> !runs_for_a_user(
                w,
                #[trigger] w.procs[j],
                w.procs[i],
                place::service_or_name(w.procs[i], w.rules),
            ),
    ensures
        ({
            let pl = laws::places(w)[i]->0;
            &&& pl.folder == Folder::System && pl.uid is None && pl.member is None
            &&& pl.key == place::service_or_name(w.procs[i], w.rules)
        }),
{
    laws::law_own_facts_decide(w, i);
    let p = w.procs[i];
    lemma_no_peer(w, p, place::service_or_name(p, w.rules), 0);
}

/// Another process of the same name that runs in a user's slice, outside the
/// user's services.
pub open spec fn runs_for_a_user(w: World, q: Process, p: Process, key: Seq<char>) -> bool {
    &&& q.pid != p.pid
    &&& identity::user_slice(q.cgroup@)
    &&& !group::flags_of(q, w.rules).is_service()
    &&& rules::meaning::one_text(classify::process_name(q), key)
}

proof fn lemma_no_peer(w: World, p: Process, key: Seq<char>, j: int)
    requires
        0 <= j <= w.procs.len(),
        forall|k: int|
            0 <= k < w.procs.len() ==> !runs_for_a_user(w, #[trigger] w.procs[k], p, key),
    ensures
        place::peer_from(w, p, key, j) is None,
    decreases w.procs.len() - j,
{
    if j < w.procs.len() {
        assert(!runs_for_a_user(w, w.procs[j], p, key));
        rules::meaning::law_folding_is_ascii_case(classify::process_name(w.procs[j]), key);
        lemma_no_peer(w, p, key, j + 1);
    }
}

proof fn lemma_peer(w: World, p: Process, key: Seq<char>, k: int, j: int)
    requires
        0 <= j <= k < w.procs.len(),
        runs_for_a_user(w, w.procs[k], p, key),
        forall|m: int| 0 <= m < k ==> !runs_for_a_user(w, #[trigger] w.procs[m], p, key),
    ensures
        place::peer_from(w, p, key, j) == Some(k),
    decreases k - j,
{
    rules::meaning::law_folding_is_ascii_case(classify::process_name(w.procs[j]), key);
    if j < k {
        assert(!runs_for_a_user(w, w.procs[j], p, key));
        lemma_peer(w, p, key, k, j + 1);
    }
}

/// A process of the system whose namesake runs for a user is billed to that
/// user's application.
pub proof fn law_a_namesake_of_a_users_application(w: World, i: int, k: int)
    requires
        0 <= i < w.procs.len(),
        0 <= k < w.procs.len(),
        on_the_host(w, w.procs[i]),
        the_systems(w.procs[i]),
        !w.procs[i].kthread,
        runs_for_a_user(
            w,
            w.procs[k],
            w.procs[i],
            place::service_or_name(w.procs[i], w.rules),
        ),
        forall|m: int|
            0 <= m < k ==> !runs_for_a_user(
                w,
                #[trigger] w.procs[m],
                w.procs[i],
                place::service_or_name(w.procs[i], w.rules),
            ),
        w.rules.placement_spec(place::service_or_name(w.procs[i], w.rules)) is None,
    ensures
        ({
            let pl = laws::places(w)[i]->0;
            &&& pl.folder == Folder::Applications && pl.uid == Some(w.procs[k].uid)
            &&& pl.key == place::service_or_name(w.procs[i], w.rules)
        }),
{
    laws::law_own_facts_decide(w, i);
    let p = w.procs[i];
    lemma_peer(w, p, place::service_or_name(p, w.rules), k, 0);
}

/// A process a session rule names is that session's, in the folder of the
/// rule, for its own user.
pub proof fn law_a_session_rule_places(w: World, i: int, key: Seq<char>, folder: FolderName)
    requires
        0 <= i < w.procs.len(),
        on_the_host(w, w.procs[i]),
        !the_systems(w.procs[i]),
        w.rules.session_spec(group::facts_view(w.procs[i])) == Some((key, folder)),
        w.rules.placement_spec(key) is None,
    ensures
        ({
            let pl = laws::places(w)[i]->0;
            &&& pl.key == key && pl.uid == Some(w.procs[i].uid) && pl.member is None
            &&& pl.folder == Folder::Applications <==> folder == FolderName::Applications
            &&& pl.folder == Folder::UserServices <==> folder == FolderName::UserServices
        }),
{
    laws::law_own_facts_decide(w, i);
}

/// A crash helper is billed to the application it handles, for its own user.
pub proof fn law_a_crash_helper_is_its_applications(w: World, i: int, app: Seq<char>)
    requires
        0 <= i < w.procs.len(),
        on_the_host(w, w.procs[i]),
        !the_systems(w.procs[i]),
        w.rules.session_spec(group::facts_view(w.procs[i])) is None,
        classify::crash_app(
            w.procs[i],
            group::classes_of(w.procs[i], w.rules),
            w.rules,
        ) == Some(app),
        w.rules.placement_spec(app) is None,
    ensures
        ({
            let pl = laws::places(w)[i]->0;
            pl.folder == Folder::Applications && pl.key == app && pl.uid == Some(w.procs[i].uid)
        }),
{
    laws::law_own_facts_decide(w, i);
}

/// A process an application rule names is billed under the rule's identity,
/// for its own user.
pub proof fn law_an_application_rule_names(w: World, i: int, key: Seq<char>)
    requires
        0 <= i < w.procs.len(),
        on_the_host(w, w.procs[i]),
        !the_systems(w.procs[i]),
        w.rules.session_spec(group::facts_view(w.procs[i])) is None,
        classify::crash_app(
            w.procs[i],
            group::classes_of(w.procs[i], w.rules),
            w.rules,
        ) is None,
        w.rules.app_spec(group::facts_view(w.procs[i])) == Some(key),
        w.rules.placement_spec(key) is None,
    ensures
        ({
            let pl = laws::places(w)[i]->0;
            &&& pl.key == key && pl.uid == Some(w.procs[i].uid)
            &&& pl.folder == users_folder(w, w.procs[i])
        }),
{
    law_a_users_process_is_the_users(w, w.procs[i]);
    laws::law_own_facts_decide(w, i);
}

// ---------------------------------------------------------------------------
// A user's own process
// ---------------------------------------------------------------------------

/// The compositor and the user's services stand apart from the applications; a
/// unit that lies makes no service.
pub open spec fn users_folder(w: World, p: Process) -> Folder {
    if group::classes_of(p, w.rules).any_of(rules::class_bit(Class::Compositor)) {
        Folder::UserServices
    } else if identity::unit_of(p.cgroup@) is Some && w.rules.unit_flags_spec(
        identity::unit_of(p.cgroup@)->0,
    ).is_service() && !w.rules.unit_flags_spec(identity::unit_of(p.cgroup@)->0).lies() {
        Folder::UserServices
    } else {
        Folder::Applications
    }
}

/// Left to itself, a user's process is a row of that user's, in the folder its
/// unit and its class give it.
pub proof fn law_a_users_process_is_the_users(w: World, p: Process)
    ensures
        ({
            let pl = place::in_user(w, p);
            pl.uid == Some(p.uid) && pl.member is None && pl.folder == users_folder(w, p)
        }),
{
    assert(0u8 & 1 == 0 && 0u8 & 2 == 0) by (bit_vector);
}

/// It is called by the application whose scope it runs in; an interpreter
/// without one by what it interprets; anything else by its service, or by its
/// own name.
pub proof fn law_how_a_users_process_is_called(w: World, p: Process)
    ensures
        ({
            let key = place::in_user(w, p).key;
            let unit = identity::unit_of(p.cgroup@);
            let generic = group::classes_of(p, w.rules).any_of(rules::class_bit(Class::Generic));
            &&& unit is Some && group::app_of_scope(w, unit->0) is Some ==> Some(key)
                == group::app_of_scope(w, unit->0)
            &&& unit is None && !generic ==> key == classify::process_name(p)
            &&& unit is None && generic ==> key == place::interpreter_name(p, w.rules)
            &&& unit is Some && group::app_of_scope(w, unit->0) is None && !generic
                && w.rules.unit_flags_spec(unit->0).lies() ==> key == classify::process_name(p)
            &&& unit is Some && group::app_of_scope(w, unit->0) is None && !generic
                && !w.rules.unit_flags_spec(unit->0).lies() && (exists|s: Seq<char>|
                s.len() > 0 && unit->0 == #[trigger] (s + ".service"@)) && identity::stem_of_unit(
                unit->0,
            ).len() > 0 ==> key == identity::stem_of_unit(unit->0)
        }),
{
    if let Some(u) = identity::unit_of(p.cgroup@) {
        text::laws::law_parts_of_a_text(u, ".service"@);
    }
}

/// A scope names an application only where a process of that name runs in the
/// scope: in full, or without the launcher.
pub proof fn law_a_scope_names_only_what_runs_in_it(w: World, unit: Seq<char>, app: Seq<char>)
    requires
        group::app_of_scope(w, unit) == Some(app),
    ensures
        exists|j: int|
            0 <= j < w.procs.len() && identity::unit_of((#[trigger] w.procs[j]).cgroup@) == Some(
                unit,
            ) && rules::meaning::one_text(classify::process_name(w.procs[j]), app),
        identity::scope_name(unit) is Some,
        app == identity::scope_name(unit)->0 || Some(app) == identity::scope_short_name(
            identity::scope_name(unit)->0,
        ),
{
    let j = choose|j: int|
        0 <= j < w.procs.len() && #[trigger] group::is_named_member(w, j, unit, app);
    rules::meaning::law_folding_is_ascii_case(classify::process_name(w.procs[j]), app);
    assert(0 <= j < w.procs.len() && identity::unit_of(w.procs[j].cgroup@) == Some(unit)
        && rules::meaning::one_text(classify::process_name(w.procs[j]), app));
}

/// What tells one running copy from another: its unit where that does not lie,
/// else its process group.
pub proof fn law_what_tells_copies_apart(w: World, p: Process)
    ensures
        ({
            let unit = identity::unit_of(p.cgroup@);
            let lies = unit is Some && w.rules.unit_flags_spec(unit->0).lies();
            &&& unit is Some && !lies ==> place::instance_of(w, p) == unit->0
            &&& unit is None || lies ==> place::instance_of(w, p) == "pgid:"@
                + text::signed_decimal(p.pgrp as int)
        }),
{
}

/// Two processes of no unit are one copy exactly where they are one process
/// group.
pub proof fn law_a_process_group_is_one_copy(w: World, p: Process, q: Process)
    requires
        identity::unit_of(p.cgroup@) is None,
        identity::unit_of(q.cgroup@) is None,
        p.pgrp >= 0,
        q.pgrp >= 0,
    ensures
        place::instance_of(w, p) == place::instance_of(w, q) <==> p.pgrp == q.pgrp,
{
    let (a, b) = (text::decimal(p.pgrp as nat), text::decimal(q.pgrp as nat));
    text::laws::law_numbers_are_read_back(p.pgrp as nat, i32::MAX as nat);
    text::laws::law_numbers_are_read_back(q.pgrp as nat, i32::MAX as nat);
    let head = "pgid:"@;
    if head + a == head + b {
        assert((head + a).skip(head.len() as int) =~= a);
        assert((head + b).skip(head.len() as int) =~= b);
    }
}

/// An interpreter is called by its unit where that says something, else by its
/// script where that has a name of its own, else by itself.
pub proof fn law_how_an_interpreter_is_called(p: Process, r: Rules)
    ensures
        ({
            let name = place::interpreter_name(p, r);
            let unit = identity::unit_of(p.cgroup@);
            let script = classify::script_of(text::texts(p.cmdline@));
            let telling = unit is Some && !r.unit_flags_spec(unit->0).lies()
                && identity::stem_of_unit(unit->0).len() > 0 && identity::stem_of_unit(unit->0)
                != "app"@;
            &&& telling ==> name == identity::stem_of_unit(unit->0)
            &&& !telling && script is None ==> name == classify::process_name(p)
            &&& !telling && script is Some ==> name == script->0 || name
                == classify::process_name(p)
        }),
{
}

// ---------------------------------------------------------------------------
// The placement rules
// ---------------------------------------------------------------------------

/// A placement rule folds a row of the user's into another identity, and keeps
/// whose it is; the folder is the rule's own, or else what the rule for the
/// other identity says, or else what it was.
pub proof fn law_a_folded_row(r: Rules, pl: PlaceView)
    requires
        pl.folder == Folder::Applications || pl.folder == Folder::UserServices,
        r.placement_spec(pl.key) is Some,
        r.placement_spec(pl.key)->0.fold_to is Some,
    ensures
        ({
            let rule = r.placement_spec(pl.key)->0;
            let to = rule.fold_to->0@;
            let o = place::overridden(r, pl);
            &&& o.key == to
            &&& o.uid == pl.uid && o.instance == pl.instance && o.member == pl.member
            &&& rule.folder is Some ==> (o.folder == Folder::Applications <==> rule.folder->0
                == FolderName::Applications)
            &&& rule.folder is None && r.placement_spec(to) is None ==> o.folder == pl.folder
            &&& rule.folder is None && r.placement_spec(to) is Some && r.placement_spec(
                to,
            )->0.folder is None ==> o.folder == pl.folder
            &&& rule.folder is None && r.placement_spec(to) is Some && r.placement_spec(
                to,
            )->0.folder is Some ==> (o.folder == Folder::Applications <==> r.placement_spec(
                to,
            )->0.folder->0 == FolderName::Applications)
        }),
{
}

/// A placement rule that only moves a row keeps everything but its folder; a
/// row no rule speaks of stays, and so does one outside the user's folders.
pub proof fn law_a_moved_row(r: Rules, pl: PlaceView)
    ensures
        ({
            let o = place::overridden(r, pl);
            &&& r.placement_spec(pl.key) is None ==> o == pl
            &&& pl.folder == Folder::System || pl.folder == Folder::Containers ==> o == pl
            &&& r.placement_spec(pl.key) is Some && r.placement_spec(pl.key)->0.fold_to is None
                ==> o.key == pl.key && o.uid == pl.uid && o.instance == pl.instance && o.member
                == pl.member
            &&& (pl.folder == Folder::Applications || pl.folder == Folder::UserServices)
                && r.placement_spec(pl.key) is Some && r.placement_spec(pl.key)->0.folder is Some
                ==> (o.folder == Folder::UserServices <==> r.placement_spec(pl.key)->0.folder->0
                == FolderName::UserServices)
        }),
{
}

} // verus!
