//! Which row a container bills to and whose it is, told by its labels, its
//! name and its mounts.
use vstd::prelude::*;

use crate::containers;
use crate::containers::{InfoView, Inspect, ListItem, Mount};
use crate::rules::Rules;
use crate::table::Table;
use crate::text;
use crate::text::laws::lacks;

verus! {

// ---------------------------------------------------------------------------
// Projects
// ---------------------------------------------------------------------------

/// The labels map `key` to `value`.
pub open spec fn labelled(labels: Option<Table<String>>, key: Seq<char>, value: Seq<char>) -> bool {
    labels is Some && labels->0@.dom().contains(key) && labels->0@[key]@ == value
}

/// The labels say nothing of `key`.
pub open spec fn unlabelled(labels: Option<Table<String>>, key: Seq<char>) -> bool {
    labels is None || !labels->0@.dom().contains(key)
}

/// `name` is a container's of the Supabase project `project`: the prefix, a
/// service, and the project after the last underscore.
pub open spec fn names_supabase(name: Seq<char>, project: Seq<char>) -> bool {
    project.len() > 0 && lacks(project, '_') && exists|service: Seq<char>|
        name == #[trigger] ("supabase_"@ + service + seq!['_'] + project)
}

/// `name` is no such container's.
pub open spec fn no_supabase_name(name: Seq<char>) -> bool {
    forall|project: Seq<char>| !#[trigger] names_supabase(name, project)
}

proof fn lemma_supabase(name: Seq<char>, project: Seq<char>)
    ensures
        containers::supabase_project(name) == Some(project) <==> names_supabase(name, project),
{
    let head = "supabase_"@;
    if names_supabase(name, project) {
        let service = choose|service: Seq<char>|
            name == #[trigger] (head + service + seq!['_'] + project);
        let rest = text::rest_from(name, head.len() as int);
        assert(rest =~= service + seq!['_'] + project);
        assert(name.subrange(0, head.len() as int) =~= head);
        text::laws::law_on_either_side_of_the_last(service, '_', project);
    }
    if containers::supabase_project(name) == Some(project) {
        let rest = text::rest_from(name, head.len() as int);
        lemma_last(rest, '_');
        let service = text::before_last(rest, '_')->0;
        assert(rest =~= service + seq!['_'] + project);
        assert(name =~= head + rest);
        assert(name =~= head + service + seq!['_'] + project);
    }
}

/// A text with a `c` is what stands before the last one, that, and the rest.
proof fn lemma_last(s: Seq<char>, c: char)
    ensures
        lacks(text::after_last(s, c), c),
        text::before_last(s, c) is Some ==> s == text::before_last(s, c)->0 + seq![c]
            + text::after_last(s, c),
        text::before_last(s, c) is None ==> s == text::after_last(s, c),
    decreases s.len(),
{
    if s.len() > 0 && s.last() != c {
        let d = s.drop_last();
        lemma_last(d, c);
        assert(s =~= d.push(s.last()));
        let after = text::after_last(d, c);
        assert forall|k: int| 0 <= k < text::after_last(s, c).len() implies #[trigger]
            text::after_last(s, c)[k] != c by {
            if k < after.len() {
                assert(text::after_last(s, c)[k] == after[k]);
            }
        }
        if text::before_last(s, c) is Some {
            assert(s =~= text::before_last(s, c)->0 + seq![c] + text::after_last(s, c));
        }
    } else if s.len() > 0 {
        assert(s =~= s.drop_last() + seq![c] + Seq::<char>::empty());
    }
}

proof fn lemma_no_supabase(name: Seq<char>)
    ensures
        containers::supabase_project(name) is None <==> no_supabase_name(name),
{
    if containers::supabase_project(name) is Some {
        lemma_supabase(name, containers::supabase_project(name)->0);
    } else {
        assert forall|project: Seq<char>| !#[trigger] names_supabase(name, project) by {
            lemma_supabase(name, project);
        }
    }
}

/// A container of a Compose project bills to the project, under its own name,
/// whatever its other labels are.
pub proof fn law_a_compose_project_is_one_row(
    name: Seq<char>,
    labels: Option<Table<String>>,
    p: Seq<char>,
)
    requires
        unlabelled(labels, "com.supabase.cli.project"@),
        no_supabase_name(name),
        labelled(labels, "com.docker.compose.project"@, p),
    ensures
        containers::project_of(name, labels) == (p, Some(name)),
{
    lemma_no_supabase(name);
}

/// Two containers of Compose projects share a row exactly where their projects
/// are one, whatever their names and their other labels are.
pub proof fn law_one_row_for_one_project(
    a: Seq<char>,
    b: Seq<char>,
    of_a: Option<Table<String>>,
    of_b: Option<Table<String>>,
    p: Seq<char>,
    q: Seq<char>,
)
    requires
        unlabelled(of_a, "com.supabase.cli.project"@),
        unlabelled(of_b, "com.supabase.cli.project"@),
        no_supabase_name(a),
        no_supabase_name(b),
        labelled(of_a, "com.docker.compose.project"@, p),
        labelled(of_b, "com.docker.compose.project"@, q),
    ensures
        containers::project_of(a, of_a).0 == containers::project_of(b, of_b).0 <==> p == q,
{
    law_a_compose_project_is_one_row(a, of_a, p);
    law_a_compose_project_is_one_row(b, of_b, q);
}

/// A Supabase project is a row of its own name, told by its label first and by
/// the container's name second, whatever a Compose label says.
pub proof fn law_a_supabase_project_is_one_row(
    name: Seq<char>,
    labels: Option<Table<String>>,
    p: Seq<char>,
)
    requires
        labelled(labels, "com.supabase.cli.project"@, p) || (unlabelled(
            labels,
            "com.supabase.cli.project"@,
        ) && names_supabase(name, p)),
    ensures
        containers::project_of(name, labels) == ("supabase:"@ + p, Some(name)),
{
    lemma_supabase(name, p);
}

/// A container of no project is a row of its own.
pub proof fn law_a_lone_container_is_its_own_row(name: Seq<char>, labels: Option<Table<String>>)
    requires
        unlabelled(labels, "com.supabase.cli.project"@),
        unlabelled(labels, "com.docker.compose.project"@),
        no_supabase_name(name),
    ensures
        containers::project_of(name, labels) == (name, None::<Seq<char>>),
{
    lemma_no_supabase(name);
}

// ---------------------------------------------------------------------------
// What is known of one container
// ---------------------------------------------------------------------------

/// An id: twelve hexadecimal digits or more.
pub open spec fn hex_id(s: Seq<char>) -> bool {
    s.len() >= 12 && forall|k: int|
        0 <= k < s.len() ==> ('0' <= #[trigger] s[k] && s[k] <= '9') || ('a' <= s[k] && s[k] <= 'f')
            || ('A' <= s[k] && s[k] <= 'F')
}

/// A container is known exactly where its id is one and the daemon does not
/// say that it is stopped.
pub proof fn law_a_stopped_container_is_unknown(
    item: ListItem,
    inspect: Option<Inspect>,
    owners: Map<Seq<char>, u32>,
    rules: Rules,
)
    ensures
        containers::resolved(item, inspect, owners, rules) is Some <==> hex_id(item.id@) && !(
        inspect is Some && inspect->0.state is Some && inspect->0.state->0.running == Some(false)),
        containers::resolved(item, inspect, owners, rules) matches Some(i) ==> i.id == text::lowered(
            item.id@,
        ),
{
    let s = item.id@;
    if hex_id(s) {
        assert forall|k: int| 0 <= k < s.len() implies text::is_hex(#[trigger] s[k]) by {}
    }
    if containers::is_id(s) {
        assert forall|k: int| 0 <= k < s.len() implies ('0' <= #[trigger] s[k] && s[k] <= '9') || (
        'a' <= s[k] && s[k] <= 'f') || ('A' <= s[k] && s[k] <= 'F') by {
            assert(text::is_hex(s[k]));
        }
    }
}

/// A known container has the name the daemon lists first, without its slash,
/// and bills where that name and its labels say.
pub proof fn law_a_container_bills_by_its_first_name(
    item: ListItem,
    inspect: Option<Inspect>,
    owners: Map<Seq<char>, u32>,
    rules: Rules,
    name: Seq<char>,
    i: InfoView,
)
    requires
        containers::resolved(item, inspect, owners, rules) == Some(i),
        item.names@.len() > 0,
        item.names@[0]@ == seq!['/'] + name || item.names@[0]@ == name,
        name.len() > 0,
        name[0] != '/',
    ensures
        (i.ident_key, i.member_name) == containers::project_of(name, item.labels),
        unlabelled(item.labels, "com.supabase.cli.project"@) && no_supabase_name(name) ==> {
            &&& unlabelled(item.labels, "com.docker.compose.project"@) ==> i.ident_key == name
                && i.member_name is None
            &&& forall|p: Seq<char>| #[trigger]
                labelled(item.labels, "com.docker.compose.project"@, p) ==> i.ident_key == p
                    && i.member_name == Some(name)
        },
{
    let listed = item.names@[0]@;
    if listed != name {
        assert(listed.drop_first() =~= name);
        assert(containers::without_slashes(name) == name);
    }
    assert(containers::without_slashes(listed) == name);
    if unlabelled(item.labels, "com.supabase.cli.project"@) && no_supabase_name(name) {
        lemma_no_supabase(name);
    }
}

/// A container has a network of its own where the daemon names a mode and that
/// is not the host's.
pub proof fn law_who_has_a_network_of_its_own(
    item: ListItem,
    inspect: Option<Inspect>,
    owners: Map<Seq<char>, u32>,
    rules: Rules,
    i: InfoView,
)
    requires
        containers::resolved(item, inspect, owners, rules) == Some(i),
    ensures
        i.own_netns <==> inspect is Some && inspect->0.host_config is Some
            && inspect->0.host_config->0.network_mode is Some
            && inspect->0.host_config->0.network_mode->0@ != "host"@,
{
}

// ---------------------------------------------------------------------------
// Owners
// ---------------------------------------------------------------------------

/// A rule that pins a container's owner beats everything else.
pub proof fn law_a_pinned_owner_is_the_owner(
    item: ListItem,
    name: Seq<char>,
    inspect: Option<Inspect>,
    owners: Map<Seq<char>, u32>,
    rules: Rules,
)
    requires
        rules.container_owner_spec(name) is Some,
    ensures
        containers::owner_of_item(item, name, inspect, owners, rules)
            == rules.container_owner_spec(name),
{
}

/// Else whoever owns the directory of the project owns the container: the
/// directory Supabase names, or else the one Compose names, before any mount.
pub proof fn law_a_projects_directory_says_whose_it_is(
    item: ListItem,
    name: Seq<char>,
    inspect: Option<Inspect>,
    owners: Map<Seq<char>, u32>,
    rules: Rules,
    dir: Seq<char>,
)
    requires
        rules.container_owner_spec(name) is None,
        labelled(item.labels, "com.supabase.cli.workdir"@, dir) || (unlabelled(
            item.labels,
            "com.supabase.cli.workdir"@,
        ) && labelled(item.labels, "com.docker.compose.project.working_dir"@, dir)),
        owners.dom().contains(dir),
    ensures
        containers::owner_of_item(item, name, inspect, owners, rules) == Some(owners[dir]),
{
}

/// A mount that says whose the container is: bound to a path whose owner is
/// known and is not root.
pub open spec fn tells(m: Mount, owners: Map<Seq<char>, u32>, uid: u32) -> bool {
    &&& m.kind is Some && m.kind->0@ == "bind"@
    &&& m.source is Some
    &&& owners.dom().contains(m.source->0@)
    &&& owners[m.source->0@] == uid
    &&& uid != 0
}

/// A mount that says nothing.
pub open spec fn tells_nothing(m: Mount, owners: Map<Seq<char>, u32>) -> bool {
    forall|uid: u32| !#[trigger] tells(m, owners, uid)
}

proof fn lemma_mounts(mounts: Seq<Mount>, owners: Map<Seq<char>, u32>, k: int, j: int, uid: u32)
    requires
        0 <= j <= k < mounts.len(),
        tells(mounts[k], owners, uid),
        forall|m: int| 0 <= m < k ==> tells_nothing(#[trigger] mounts[m], owners),
    ensures
        containers::mount_owner(mounts, owners, j) == Some(uid),
    decreases k - j,
{
    if j < k {
        assert(tells_nothing(mounts[j], owners));
        let at = containers::owner_at(owners, containers::bind_source(mounts[j]));
        if at is Some && at->0 != 0 {
            assert(tells(mounts[j], owners, at->0));
        }
        lemma_mounts(mounts, owners, k, j + 1, uid);
    }
}

proof fn lemma_no_mounts(mounts: Seq<Mount>, owners: Map<Seq<char>, u32>, j: int)
    requires
        0 <= j <= mounts.len(),
        forall|m: int| 0 <= m < mounts.len() ==> tells_nothing(#[trigger] mounts[m], owners),
    ensures
        containers::mount_owner(mounts, owners, j) is None,
    decreases mounts.len() - j,
{
    if j < mounts.len() {
        assert(tells_nothing(mounts[j], owners));
        let at = containers::owner_at(owners, containers::bind_source(mounts[j]));
        if at is Some && at->0 != 0 {
            assert(tells(mounts[j], owners, at->0));
        }
        lemma_no_mounts(mounts, owners, j + 1);
    }
}

/// Else whoever owns the first path bound into it, other than root, owns it;
/// where no mount tells, nobody is known to.
pub proof fn law_a_bound_path_says_whose_it_is(
    item: ListItem,
    name: Seq<char>,
    i: Inspect,
    owners: Map<Seq<char>, u32>,
    rules: Rules,
    k: int,
    uid: u32,
)
    requires
        rules.container_owner_spec(name) is None,
        unlabelled(item.labels, "com.supabase.cli.workdir"@),
        unlabelled(item.labels, "com.docker.compose.project.working_dir"@),
    ensures
        0 <= k < i.mounts@.len() && tells(i.mounts@[k], owners, uid) && (forall|m: int|
            0 <= m < k ==> tells_nothing(#[trigger] i.mounts@[m], owners))
            ==> containers::owner_of_item(item, name, Some(i), owners, rules) == Some(uid),
        (forall|m: int|
            0 <= m < i.mounts@.len() ==> tells_nothing(#[trigger] i.mounts@[m], owners))
            ==> containers::owner_of_item(item, name, Some(i), owners, rules) is None,
        containers::owner_of_item(item, name, None, owners, rules) is None,
{
    if 0 <= k < i.mounts@.len() && tells(i.mounts@[k], owners, uid) && (forall|m: int|
        0 <= m < k ==> tells_nothing(#[trigger] i.mounts@[m], owners)) {
        lemma_mounts(i.mounts@, owners, k, 0, uid);
    }
    if forall|m: int|
        0 <= m < i.mounts@.len() ==> tells_nothing(#[trigger] i.mounts@[m], owners) {
        lemma_no_mounts(i.mounts@, owners, 0);
    }
}

// ---------------------------------------------------------------------------
// The index
// ---------------------------------------------------------------------------

/// The container the `k`th of a list stands for, where it is not dropped.
pub open spec fn entry(
    items: Seq<ListItem>,
    answers: Map<Seq<char>, Inspect>,
    owners: Map<Seq<char>, u32>,
    rules: Rules,
    k: int,
) -> Option<InfoView> {
    if items[k].state is Some && (items[k].state->0@ == "exited"@ || items[k].state->0@
        == "dead"@) {
        None
    } else {
        containers::resolved(
            items[k],
            containers::answer_for(items[k], answers),
            owners,
            rules,
        )
    }
}

/// A container is found by its id: the last of the list with the first twelve
/// digits asked for, and nothing where there is none.
pub proof fn law_a_container_is_found_by_its_id(
    items: Seq<ListItem>,
    answers: Map<Seq<char>, Inspect>,
    owners: Map<Seq<char>, u32>,
    rules: Rules,
    raw: Seq<char>,
    k: int,
    n: int,
)
    requires
        0 <= k < n <= items.len(),
        hex_id(raw),
        entry(items, answers, owners, rules, k) is Some,
        text::lowered(raw).take(12) == entry(items, answers, owners, rules, k)->0.id.take(12),
        forall|j: int| k < j < n && (#[trigger] entry(items, answers, owners, rules, j)) is Some
            ==> entry(items, answers, owners, rules, j)->0.id.take(12) != text::lowered(raw).take(
            12,
        ),
    ensures
        containers::index_of(items, answers, owners, rules, n).find(raw) == entry(
            items,
            answers,
            owners,
            rules,
            k,
        ),
    decreases n,
{
    let at = entry(items, answers, owners, rules, n - 1);
    lemma_hex(raw);
    if at is Some {
        lemma_entry(items, answers, owners, rules, n - 1);
        assert(at->0.id.take(12) =~= at->0.id.subrange(0, 12));
        assert(text::lowered(raw).take(12) =~= text::lowered(raw).subrange(0, 12));
    }
    if k < n - 1 {
        law_a_container_is_found_by_its_id(items, answers, owners, rules, raw, k, n - 1);
    }
}

proof fn lemma_hex(s: Seq<char>)
    requires
        hex_id(s),
    ensures
        containers::is_id(s),
        containers::is_id(text::lowered(s)),
        text::lowered(text::lowered(s)) =~= text::lowered(s),
{
    let t = text::lowered(s);
    assert forall|k: int| 0 <= k < s.len() implies text::is_hex(#[trigger] s[k]) by {}
    assert forall|k: int| 0 <= k < t.len() implies text::is_hex(#[trigger] t[k]) by {
        assert(text::is_hex(s[k]));
        assert(t[k] == text::lower(s[k]));
    }
}

proof fn lemma_entry(
    items: Seq<ListItem>,
    answers: Map<Seq<char>, Inspect>,
    owners: Map<Seq<char>, u32>,
    rules: Rules,
    k: int,
)
    requires
        entry(items, answers, owners, rules, k) is Some,
    ensures
        ({
            let id = entry(items, answers, owners, rules, k)->0.id;
            containers::short_id(id) == Some(id.subrange(0, 12))
        }),
{
    let inspect = containers::answer_for(items[k], answers);
    law_a_stopped_container_is_unknown(items[k], inspect, owners, rules);
    lemma_hex(items[k].id@);
}

} // verus!
