//! Where a process landed in the tree, and what the rules make of it.
use vstd::prelude::*;

use crate::glyph::GlyphSet;
use crate::rules::{Compiled, Facts, FactsView, FolderName, Rules, Stage};
use crate::types::{Folder, HostTree, IdentNode, ProcNode, Process, UserNode};
use crate::{glyph, group, identity, once, psi, rules, text};

pub mod laws;
pub mod report;

verus! {

// ---------------------------------------------------------------------------
// Looking for a row
// ---------------------------------------------------------------------------

/// Where in the tree a process or a row is.
#[derive(Debug)]
pub struct Found {
    /// The way to the row, as the tree draws it.
    pub path: String,
    /// The id of the row: what a placement rule matches.
    pub ident: String,
    /// The folder a placement rule would name, where one can reach the row.
    pub pinnable: Option<String>,
    pub instance: String,
    pub siblings: usize,
}

/// The same as text.
pub struct FoundView {
    pub path: Seq<char>,
    pub ident: Seq<char>,
    pub pinnable: Option<Seq<char>>,
    pub instance: Seq<char>,
    pub siblings: nat,
}

impl View for Found {
    type V = FoundView;

    open spec fn view(&self) -> FoundView {
        FoundView {
            path: self.path@,
            ident: self.ident@,
            pinnable: text::opt_text(self.pinnable),
            instance: self.instance@,
            siblings: self.siblings as nat,
        }
    }
}

pub open spec fn opt_found(f: Option<Found>) -> Option<FoundView> {
    match f {
        Some(x) => Some(x@),
        None => None,
    }
}

/// The title of a folder.
pub open spec fn title_of(f: Folder) -> Seq<char> {
    match f {
        Folder::Applications => "Applications"@,
        Folder::UserServices => "User Services"@,
        Folder::Containers => "Containers"@,
        Folder::System => "System"@,
    }
}

pub fn folder_title(f: Folder) -> (r: &'static str)
    ensures
        r@ == title_of(f),
{
    match f {
        Folder::Applications => "Applications",
        Folder::UserServices => "User Services",
        Folder::Containers => "Containers",
        Folder::System => "System",
    }
}

/// A process is in nodes: one of them, or under one of them.
pub open spec fn is_in(nodes: Seq<ProcNode>, pid: u32) -> bool {
    psi::pids_of(nodes).contains(pid)
}

proof fn lemma_in_step(nodes: Seq<ProcNode>, k: int, pid: u32)
    requires
        0 <= k < nodes.len(),
    ensures
        is_in(nodes.take(k + 1), pid) == (is_in(nodes.take(k), pid) || nodes[k].pid == pid
            || is_in(nodes[k].children@, pid)),
{
    let t = nodes.take(k + 1);
    assert(t.drop_last() =~= nodes.take(k));
    assert(t.last() == nodes[k]);
    let a = psi::pids_of(nodes.take(k));
    let b = seq![nodes[k].pid];
    let c = psi::pids_of(nodes[k].children@);
    assert(psi::pids_of(t) == a + (b + c));
    if a.contains(pid) {
        let i = choose|i: int| 0 <= i < a.len() && a[i] == pid;
        assert((a + (b + c))[i] == pid);
    }
    if c.contains(pid) {
        let i = choose|i: int| 0 <= i < c.len() && c[i] == pid;
        assert((a + (b + c))[a.len() + 1 + i] == pid);
    }
    if nodes[k].pid == pid {
        assert((a + (b + c))[a.len() as int] == pid);
    }
    if (a + (b + c)).contains(pid) {
        let i = choose|i: int| 0 <= i < (a + (b + c)).len() && (a + (b + c))[i] == pid;
        if i < a.len() {
            assert(a[i] == pid);
        } else if i > a.len() {
            assert(c[i - a.len() - 1] == pid);
        }
    }
}

proof fn lemma_in_later(nodes: Seq<ProcNode>, k: int, pid: u32)
    requires
        0 <= k <= nodes.len(),
        is_in(nodes.take(k), pid),
    ensures
        is_in(nodes, pid),
    decreases nodes.len() - k,
{
    if k == nodes.len() {
        assert(nodes.take(k) =~= nodes);
    } else {
        lemma_in_step(nodes, k, pid);
        lemma_in_later(nodes, k + 1, pid);
    }
}

/// Whether a process is in nodes.
pub fn holds(procs: &Vec<ProcNode>, pid: u32) -> (r: bool)
    ensures
        r == is_in(procs@, pid),
    decreases procs,
{
    let mut k: usize = 0;
    assert(procs@.take(0) =~= Seq::<ProcNode>::empty());
    #[verifier::loop_isolation(false)]
    while k < procs.len()
        invariant
            k <= procs@.len(),
            !is_in(procs@.take(k as int), pid),
        decreases procs.len() - k,
    {
        let p = &procs[k];
        proof {
            lemma_in_step(procs@, k as int, pid);
        }
        assert(decreases_to!(procs => procs@[k as int].children));
        if p.pid == pid || holds(&p.children, pid) {
            proof {
                lemma_in_later(procs@, k + 1, pid);
            }
            return true;
        }
        k += 1;
    }
    assert(procs@.take(k as int) =~= procs@);
    false
}

/// The first instance from `k` on that a process is in.
pub open spec fn instance_from(n: IdentNode, pid: u32, k: int) -> Option<int>
    decreases n.instances@.len() - k,
{
    if k < 0 || k >= n.instances@.len() {
        None
    } else if is_in(n.instances@[k].processes@, pid) {
        Some(k)
    } else {
        instance_from(n, pid, k + 1)
    }
}

/// The first member container from `k` on that a process is in.
pub open spec fn member_from(n: IdentNode, pid: u32, k: int) -> Option<int>
    decreases n.containers@.len() - k,
{
    if k < 0 || k >= n.containers@.len() {
        None
    } else if is_in(n.containers@[k].processes@, pid) {
        Some(k)
    } else {
        member_from(n, pid, k + 1)
    }
}

/// Where in a row a process is: the instance, else the container, and how many
/// stand beside it.
pub open spec fn within_row(n: IdentNode, pid: u32) -> Option<(Seq<char>, nat)> {
    match instance_from(n, pid, 0) {
        Some(k) => Some((n.instances@[k].key@, n.instances@[k].processes@.len())),
        None => match member_from(n, pid, 0) {
            Some(k) => Some((n.containers@[k].id@, n.containers@[k].processes@.len())),
            None => None,
        },
    }
}

/// The first row from `k` on that a process is in.
pub open spec fn row_from(rows: Seq<IdentNode>, pid: u32, k: int) -> Option<int>
    decreases rows.len() - k,
{
    if k < 0 || k >= rows.len() {
        None
    } else if within_row(rows[k], pid) is Some {
        Some(k)
    } else {
        row_from(rows, pid, k + 1)
    }
}

fn find_within(n: &IdentNode, pid: u32) -> (r: Option<(String, usize)>)
    ensures
        match r {
            Some((key, beside)) => within_row(*n, pid) == Some((key@, beside as nat)),
            None => within_row(*n, pid) is None,
        },
{
    let mut k: usize = 0;
    while k < n.instances.len()
        invariant
            k <= n.instances@.len(),
            instance_from(*n, pid, 0) == instance_from(*n, pid, k as int),
        decreases n.instances.len() - k,
    {
        let inst = &n.instances[k];
        if holds(&inst.processes, pid) {
            return Some((inst.key.clone(), inst.processes.len()));
        }
        k += 1;
    }
    let mut k: usize = 0;
    while k < n.containers.len()
        invariant
            k <= n.containers@.len(),
            instance_from(*n, pid, 0) is None,
            member_from(*n, pid, 0) == member_from(*n, pid, k as int),
        decreases n.containers.len() - k,
    {
        let c = &n.containers[k];
        if holds(&c.processes, pid) {
            return Some((c.id.clone(), c.processes.len()));
        }
        k += 1;
    }
    None
}

/// A row of a folder as it is found.
pub open spec fn found_row(
    set: GlyphSet,
    parent: Seq<char>,
    folder: Folder,
    ident: Seq<char>,
    instance: Seq<char>,
    siblings: nat,
) -> FoundView {
    FoundView {
        path: parent + " "@ + seq![glyph::arrow_of(set)] + " "@ + title_of(folder),
        ident,
        pinnable: match folder {
            Folder::Applications => Some(rules::folder_label(FolderName::Applications)),
            Folder::UserServices => Some(rules::folder_label(FolderName::UserServices)),
            _ => None,
        },
        instance,
        siblings,
    }
}

/// Where a process is among the rows of a folder.
pub open spec fn found_among(
    set: GlyphSet,
    rows: Seq<IdentNode>,
    pid: u32,
    parent: Seq<char>,
    folder: Folder,
) -> Option<FoundView> {
    match row_from(rows, pid, 0) {
        Some(k) => {
            let (instance, beside) = within_row(rows[k], pid)->0;
            Some(found_row(set, parent, folder, rows[k].id@, instance, beside))
        },
        None => None,
    }
}

/// A user as the way to a row names them.
pub open spec fn user_path(set: GlyphSet, u: UserNode) -> Seq<char> {
    "Host "@ + seq![glyph::arrow_of(set)] + " "@ + u.name@ + " ("@ + text::decimal(u.uid as nat)
        + ")"@
}

pub open spec fn or_else<T>(a: Option<T>, b: Option<T>) -> Option<T> {
    match a {
        Some(x) => Some(x),
        None => b,
    }
}

/// Where a process is among the rows of a user.
pub open spec fn found_of_user(set: GlyphSet, u: UserNode, pid: u32) -> Option<FoundView> {
    let who = user_path(set, u);
    or_else(
        found_among(set, u.applications@, pid, who, Folder::Applications),
        or_else(
            found_among(set, u.user_services@, pid, who, Folder::UserServices),
            found_among(set, u.containers@, pid, who, Folder::Containers),
        ),
    )
}

/// Where a process is among the users from `k` on.
pub open spec fn found_of_users(set: GlyphSet, users: Seq<UserNode>, pid: u32, k: int) -> Option<
    FoundView,
>
    decreases users.len() - k,
{
    if k < 0 || k >= users.len() {
        None
    } else {
        or_else(found_of_user(set, users[k], pid), found_of_users(set, users, pid, k + 1))
    }
}

/// Where a process is in the tree.
pub open spec fn place_of(set: GlyphSet, t: HostTree, pid: u32) -> Option<FoundView> {
    or_else(
        found_of_users(set, t.users@, pid, 0),
        or_else(
            found_among(set, t.containers@, pid, "Host"@, Folder::Containers),
            found_among(set, t.system@, pid, "Host"@, Folder::System),
        ),
    )
}

fn found_at(
    set: GlyphSet,
    parent: &str,
    folder: Folder,
    ident: &str,
    instance: String,
    siblings: usize,
) -> (r: Found)
    ensures
        r@ == found_row(set, parent@, folder, ident@, instance@, siblings as nat),
{
    let mut path = parent.to_owned();
    path.append(" ");
    path.push(glyph::arrows(set).3);
    path.append(" ");
    path.append(folder_title(folder));
    assert(path@ =~= parent@ + " "@ + seq![glyph::arrow_of(set)] + " "@ + title_of(folder));
    let pinnable: Option<String> = match folder {
        Folder::Applications => Some(rules::folder_name(FolderName::Applications).to_owned()),
        Folder::UserServices => Some(rules::folder_name(FolderName::UserServices).to_owned()),
        _ => None,
    };
    Found { path, ident: ident.to_owned(), pinnable, instance, siblings }
}

fn find_in(set: GlyphSet, rows: &Vec<IdentNode>, pid: u32, parent: &str, folder: Folder) -> (r:
    Option<Found>)
    ensures
        opt_found(r) == found_among(set, rows@, pid, parent@, folder),
{
    let mut k: usize = 0;
    while k < rows.len()
        invariant
            k <= rows@.len(),
            row_from(rows@, pid, 0) == row_from(rows@, pid, k as int),
        decreases rows.len() - k,
    {
        if let Some((instance, beside)) = find_within(&rows[k], pid) {
            return Some(found_at(set, parent, folder, rows[k].id.as_str(), instance, beside));
        }
        k += 1;
    }
    None
}

fn user_text(set: GlyphSet, u: &UserNode) -> (r: String)
    ensures
        r@ == user_path(set, *u),
{
    let mut s = "Host ".to_owned();
    s.push(glyph::arrows(set).3);
    s.append(" ");
    s.append(u.name.as_str());
    s.append(" (");
    s.append(text::number_text(u.uid as u64).as_str());
    s.append(")");
    assert(s@ =~= user_path(set, *u));
    s
}

/// Where a process is in the tree.
pub fn locate(set: GlyphSet, tree: &HostTree, pid: u32) -> (r: Option<Found>)
    ensures
        opt_found(r) == place_of(set, *tree, pid),
{
    let mut k: usize = 0;
    while k < tree.users.len()
        invariant
            k <= tree.users@.len(),
            found_of_users(set, tree.users@, pid, 0) == found_of_users(
                set,
                tree.users@,
                pid,
                k as int,
            ),
        decreases tree.users.len() - k,
    {
        let u = &tree.users[k];
        let who = user_text(set, u);
        let a = find_in(set, &u.applications, pid, who.as_str(), Folder::Applications);
        if a.is_some() {
            return a;
        }
        let b = find_in(set, &u.user_services, pid, who.as_str(), Folder::UserServices);
        if b.is_some() {
            return b;
        }
        let c = find_in(set, &u.containers, pid, who.as_str(), Folder::Containers);
        if c.is_some() {
            return c;
        }
        k += 1;
    }
    let a = find_in(set, &tree.containers, pid, "Host", Folder::Containers);
    if a.is_some() {
        return a;
    }
    find_in(set, &tree.system, pid, "Host", Folder::System)
}

// ---------------------------------------------------------------------------
// A row by its own id
// ---------------------------------------------------------------------------

/// The first row from `k` on with an id under a folder.
pub open spec fn named_from(rows: Seq<IdentNode>, folder_id: Seq<char>, row_id: Seq<char>, k: int)
    -> Option<int>
    decreases rows.len() - k,
{
    if k < 0 || k >= rows.len() {
        None
    } else if row_id == folder_id + "/"@ + rows[k].id@ {
        Some(k)
    } else {
        named_from(rows, folder_id, row_id, k + 1)
    }
}

pub open spec fn named_among(
    set: GlyphSet,
    rows: Seq<IdentNode>,
    folder_id: Seq<char>,
    row_id: Seq<char>,
    parent: Seq<char>,
    folder: Folder,
) -> Option<FoundView> {
    match named_from(rows, folder_id, row_id, 0) {
        Some(k) => Some(found_row(set, parent, folder, rows[k].id@, Seq::empty(), 0)),
        None => None,
    }
}

/// The id of a user's folder.
pub open spec fn user_folder(uid: u32, slug: Seq<char>) -> Seq<char> {
    "user:"@ + text::decimal(uid as nat) + "/"@ + slug
}

pub open spec fn named_of_user(set: GlyphSet, u: UserNode, row_id: Seq<char>) -> Option<FoundView> {
    let who = user_path(set, u);
    or_else(
        named_among(
            set,
            u.applications@,
            user_folder(u.uid, "apps"@),
            row_id,
            who,
            Folder::Applications,
        ),
        or_else(
            named_among(
                set,
                u.user_services@,
                user_folder(u.uid, "services"@),
                row_id,
                who,
                Folder::UserServices,
            ),
            named_among(
                set,
                u.containers@,
                user_folder(u.uid, "containers"@),
                row_id,
                who,
                Folder::Containers,
            ),
        ),
    )
}

pub open spec fn named_of_users(
    set: GlyphSet,
    users: Seq<UserNode>,
    row_id: Seq<char>,
    k: int,
) -> Option<FoundView>
    decreases users.len() - k,
{
    if k < 0 || k >= users.len() {
        None
    } else {
        or_else(named_of_user(set, users[k], row_id), named_of_users(set, users, row_id, k + 1))
    }
}

/// The row with an id.
pub open spec fn row_of(set: GlyphSet, t: HostTree, row_id: Seq<char>) -> Option<FoundView> {
    or_else(
        named_of_users(set, t.users@, row_id, 0),
        or_else(
            named_among(
                set,
                t.containers@,
                "host/containers"@,
                row_id,
                "Host"@,
                Folder::Containers,
            ),
            named_among(set, t.system@, "host/system"@, row_id, "Host"@, Folder::System),
        ),
    )
}

fn find_named(
    set: GlyphSet,
    rows: &Vec<IdentNode>,
    folder_id: &str,
    row_id: &str,
    parent: &str,
    folder: Folder,
) -> (r: Option<Found>)
    ensures
        opt_found(r) == named_among(set, rows@, folder_id@, row_id@, parent@, folder),
{
    let mut k: usize = 0;
    while k < rows.len()
        invariant
            k <= rows@.len(),
            named_from(rows@, folder_id@, row_id@, 0) == named_from(
                rows@,
                folder_id@,
                row_id@,
                k as int,
            ),
        decreases rows.len() - k,
    {
        let mut id = folder_id.to_owned();
        id.append("/");
        id.append(rows[k].id.as_str());
        if text::same_str(row_id, id.as_str()) {
            let r = found_at(set, parent, folder, rows[k].id.as_str(), String::new(), 0);
            assert(r@.instance =~= Seq::<char>::empty());
            return Some(r);
        }
        k += 1;
    }
    None
}

fn user_folder_text(uid: u32, slug: &str) -> (r: String)
    ensures
        r@ == user_folder(uid, slug@),
{
    let mut s = "user:".to_owned();
    s.append(text::number_text(uid as u64).as_str());
    s.append("/");
    s.append(slug);
    s
}

/// The row with an id, as the table names rows.
pub fn locate_ident(set: GlyphSet, tree: &HostTree, row_id: &str) -> (r: Option<Found>)
    ensures
        opt_found(r) == row_of(set, *tree, row_id@),
{
    let mut k: usize = 0;
    while k < tree.users.len()
        invariant
            k <= tree.users@.len(),
            named_of_users(set, tree.users@, row_id@, 0) == named_of_users(
                set,
                tree.users@,
                row_id@,
                k as int,
            ),
        decreases tree.users.len() - k,
    {
        let u = &tree.users[k];
        let who = user_text(set, u);
        let a = find_named(
            set,
            &u.applications,
            user_folder_text(u.uid, "apps").as_str(),
            row_id,
            who.as_str(),
            Folder::Applications,
        );
        if a.is_some() {
            return a;
        }
        let b = find_named(
            set,
            &u.user_services,
            user_folder_text(u.uid, "services").as_str(),
            row_id,
            who.as_str(),
            Folder::UserServices,
        );
        if b.is_some() {
            return b;
        }
        let c = find_named(
            set,
            &u.containers,
            user_folder_text(u.uid, "containers").as_str(),
            row_id,
            who.as_str(),
            Folder::Containers,
        );
        if c.is_some() {
            return c;
        }
        k += 1;
    }
    let a = find_named(
        set,
        &tree.containers,
        "host/containers",
        row_id,
        "Host",
        Folder::Containers,
    );
    if a.is_some() {
        return a;
    }
    find_named(set, &tree.system, "host/system", row_id, "Host", Folder::System)
}

// ---------------------------------------------------------------------------
// What the rules make of a process
// ---------------------------------------------------------------------------

/// Where a rule comes from, and its name.
pub open spec fn origin_of(c: Compiled) -> Seq<char> {
    if c.source.rank == usize::MAX {
        "built-in "@ + c.name_spec()
    } else {
        c.source.label@ + "/"@ + c.name_spec()
    }
}

/// A rule that decided, and what it gave.
pub open spec fn verdict_of(c: Compiled) -> Seq<char> {
    origin_of(c) + " -> "@ + text::joined_with(c.given(), " "@)
}

/// What a stage makes of some facts: the rules that decided, or that none did,
/// or that it has none.
pub open spec fn verdicts_of(r: Rules, stage: Stage, f: FactsView) -> Seq<Seq<char>> {
    let list = r.rules_of(stage);
    let hits = rules::ruleset::deciders(stage, list, f);
    if list.len() == 0 {
        seq!["none"@]
    } else if hits.len() == 0 {
        seq!["no match"@]
    } else {
        Seq::new(hits.len(), |k: int| verdict_of(list[hits[k]]))
    }
}

/// One line of a stage: its name stands before the first only.
pub open spec fn stage_line(lead: Seq<char>, label: Seq<char>, verdict: Seq<char>, first: bool)
    -> Seq<char> {
    "  "@ + once::padded(
        if first {
            lead
        } else {
            ""@
        },
        9,
    ) + " "@ + once::padded(
        if first {
            label
        } else {
            ""@
        },
        10,
    ) + " "@ + verdict
}

pub open spec fn stage_lines(lead: Seq<char>, label: Seq<char>, verdicts: Seq<Seq<char>>) -> Seq<
    Seq<char>,
> {
    Seq::new(verdicts.len(), |k: int| stage_line(lead, label, verdicts[k], k == 0))
}

/// What each stage makes of a process and of the row it is in.
pub open spec fn trace_of(r: Rules, p: Process, ident: Seq<char>) -> Seq<Seq<char>> {
    let unit = FactsView { unit: identity::unit_of(p.cgroup@), ..rules::no_facts() };
    let process = group::facts_view(p);
    let row = FactsView { identity: Some(ident), ..rules::no_facts() };
    stage_lines("rules"@, "unit"@, verdicts_of(r, Stage::Unit, unit)) + stage_lines(
        ""@,
        "class"@,
        verdicts_of(r, Stage::Class, process),
    ) + stage_lines(""@, "session"@, verdicts_of(r, Stage::Session, process)) + stage_lines(
        ""@,
        "app"@,
        verdicts_of(r, Stage::App, process),
    ) + stage_lines(""@, "placement"@, verdicts_of(r, Stage::Placement, row))
}

fn origin_text(c: &Compiled) -> (r: String)
    ensures
        r@ == origin_of(*c),
{
    if c.source.rank == usize::MAX {
        text::joined("built-in ", c.name().as_str())
    } else {
        let mut s = c.source.label.clone();
        s.append("/");
        s.append(c.name().as_str());
        s
    }
}

fn verdicts(rs: &Rules, stage: Stage, f: &Facts) -> (r: Vec<String>)
    ensures
        text::texts(r@) == verdicts_of(*rs, stage, f@),
{
    let mut out: Vec<String> = Vec::new();
    if rs.is_empty(stage) {
        out.push("none".to_owned());
        assert(text::texts(out@) =~= seq!["none"@]);
        return out;
    }
    let hits = rs.deciding(stage, f);
    let ghost list = rs.rules_of(stage);
    let ghost at = rules::ruleset::deciders(stage, list, f@);
    if hits.len() == 0 {
        out.push("no match".to_owned());
        assert(text::texts(out@) =~= seq!["no match"@]);
        return out;
    }
    let mut k: usize = 0;
    while k < hits.len()
        invariant
            k <= hits@.len(),
            hits@.len() == at.len(),
            forall|j: int| 0 <= j < hits@.len() ==> *(#[trigger] hits@[j]) == list[at[j]],
            out@.len() == k,
            forall|j: int| 0 <= j < k ==> (#[trigger] out@[j])@ == verdict_of(list[at[j]]),
        decreases hits.len() - k,
    {
        let c: &Compiled = hits[k];
        let mut s = origin_text(c);
        s.append(" -> ");
        s.append(c.outputs().as_str());
        out.push(s);
        k += 1;
    }
    assert(text::texts(out@) =~= verdicts_of(*rs, stage, f@));
    out
}

fn push_stage(out: &mut Vec<String>, lead: &str, label: &str, found: &Vec<String>)
    ensures
        text::texts(final(out)@) == text::texts(old(out)@) + stage_lines(
            lead@,
            label@,
            text::texts(found@),
        ),
{
    let ghost start = text::texts(out@);
    let ghost all = stage_lines(lead@, label@, text::texts(found@));
    let mut k: usize = 0;
    assert(start + all.take(0) =~= start);
    while k < found.len()
        invariant
            k <= found@.len(),
            all == stage_lines(lead@, label@, text::texts(found@)),
            text::texts(out@) == start + all.take(k as int),
        decreases found.len() - k,
    {
        let ghost before = text::texts(out@);
        assert(text::texts(found@)[k as int] == found@[k as int]@);
        let mut s = "  ".to_owned();
        if k == 0 {
            s.append(once::pad(lead, 9).as_str());
        } else {
            s.append(once::pad("", 9).as_str());
        }
        s.append(" ");
        if k == 0 {
            s.append(once::pad(label, 10).as_str());
        } else {
            s.append(once::pad("", 10).as_str());
        }
        s.append(" ");
        s.append(found[k].as_str());
        let ghost line = s@;
        out.push(s);
        proof {
            assert(line == all[k as int]);
            assert(text::texts(out@) =~= before.push(line));
            assert(start + all.take(k + 1) =~= (start + all.take(k as int)).push(all[k as int]));
        }
        k += 1;
    }
    assert(all.take(k as int) =~= all);
}

pub open spec fn trace_or_gone(r: Rules, p: Option<Process>, ident: Seq<char>) -> Seq<Seq<char>> {
    match p {
        Some(q) => trace_of(r, q, ident),
        None => seq!["  rules     (process gone)"@],
    }
}

/// One line for each stage and each rule that decided there.
pub fn trace(rs: &Rules, p: Option<&Process>, ident: &str) -> (r: Vec<String>)
    ensures
        text::texts(r@) == trace_or_gone(*rs, crate::proc::opt_process(p), ident@),
{
    let mut out: Vec<String> = Vec::new();
    let p = match p {
        Some(q) => q,
        None => {
            out.push("  rules     (process gone)".to_owned());
            assert(text::texts(out@) =~= seq!["  rules     (process gone)"@]);
            return out;
        },
    };
    let unit = identity::user_unit(p.cgroup.as_str());
    let unit_str = text::opt_borrow(&unit);
    let process = group::facts_of(p, unit_str);
    let of_unit = Facts { unit: unit_str, ..Facts::default() };
    let of_row = Facts { identity: Some(ident), ..Facts::default() };
    assert(of_unit@ == (FactsView { unit: identity::unit_of(p.cgroup@), ..rules::no_facts() }));
    assert(of_row@ == (FactsView { identity: Some(ident@), ..rules::no_facts() }));
    assert(text::texts(out@) =~= Seq::<Seq<char>>::empty());
    push_stage(&mut out, "rules", "unit", &verdicts(rs, Stage::Unit, &of_unit));
    push_stage(&mut out, "", "class", &verdicts(rs, Stage::Class, &process));
    push_stage(&mut out, "", "session", &verdicts(rs, Stage::Session, &process));
    push_stage(&mut out, "", "app", &verdicts(rs, Stage::App, &process));
    push_stage(&mut out, "", "placement", &verdicts(rs, Stage::Placement, &of_row));
    assert(text::texts(out@) =~= trace_of(*rs, *p, ident@));
    out
}

// ---------------------------------------------------------------------------
// What is said of a row
// ---------------------------------------------------------------------------

/// Where a row is, and its id.
pub open spec fn row_lines(f: FoundView) -> Seq<Seq<char>> {
    seq!["  placed    "@ + once::shown(f.path), "  identity  "@ + once::shown(f.ident)]
}

pub fn placed_identity(found: &Found) -> (r: Vec<String>)
    ensures
        text::texts(r@) == row_lines(found@),
{
    let mut v: Vec<String> = Vec::new();
    v.push(text::joined("  placed    ", once::printable(found.path.as_str()).as_str()));
    v.push(text::joined("  identity  ", once::printable(found.ident.as_str()).as_str()));
    assert(text::texts(v@) =~= row_lines(found@));
    v
}

/// What is said of a row by itself: where it is and, where a rule can reach
/// it, that its id is what the rule names.
pub open spec fn key_lines(f: FoundView) -> Seq<Seq<char>> {
    row_lines(f) + (if f.pinnable is Some {
        seq!["  \""@ + once::shown(f.ident) + "\" is the placement key for this row."@]
    } else {
        Seq::empty()
    })
}

pub fn identity_placement(set: GlyphSet, tree: &HostTree, row_id: &str) -> (r: Option<Vec<String>>)
    ensures
        match r {
            Some(v) => row_of(set, *tree, row_id@) is Some && text::texts(v@) == key_lines(
                row_of(set, *tree, row_id@)->0,
            ),
            None => row_of(set, *tree, row_id@) is None,
        },
{
    match locate_ident(set, tree, row_id) {
        Some(found) => {
            let mut lines = placed_identity(&found);
            let ghost start = text::texts(lines@);
            if found.pinnable.is_some() {
                let mut s = "  \"".to_owned();
                s.append(once::printable(found.ident.as_str()).as_str());
                s.append("\" is the placement key for this row.");
                let ghost line = s@;
                lines.push(s);
                assert(text::texts(lines@) =~= start + seq![line]);
            } else {
                assert(start + Seq::<Seq<char>>::empty() =~= start);
            }
            Some(lines)
        },
        None => None,
    }
}

/// Which instance a process is in, and how many stand beside it.
pub open spec fn instance_line(f: FoundView) -> Seq<char> {
    "  instance  "@ + once::shown(f.instance) + " ("@ + text::decimal(f.siblings) + " process"@ + (
    if f.siblings == 1 {
        ""@
    } else {
        "es"@
    }) + ")"@
}

/// What is said of a process: where it is, the row, the instance, and what the
/// rules make of it.
pub open spec fn process_lines(f: FoundView, p: Option<Process>, r: Rules) -> Seq<Seq<char>> {
    let t = trace_or_gone(r, p, f.ident);
    row_lines(f) + seq![instance_line(f)] + Seq::new(t.len(), |k: int| once::shown(t[k]))
}

pub fn placement_lines(found: &Found, process: Option<&Process>, rs: &Rules) -> (r: Vec<String>)
    ensures
        text::texts(r@) == process_lines(found@, crate::proc::opt_process(process), *rs),
{
    let mut lines = placed_identity(found);
    let ghost start = text::texts(lines@);
    let mut s = "  instance  ".to_owned();
    s.append(once::printable(found.instance.as_str()).as_str());
    s.append(" (");
    s.append(text::number_text(found.siblings as u64).as_str());
    s.append(" process");
    if found.siblings == 1 {
        s.append("");
    } else {
        s.append("es");
    }
    s.append(")");
    let ghost line = s@;
    lines.push(s);
    assert(line == instance_line(found@));
    assert(text::texts(lines@) =~= start + seq![line]);
    let t = trace(rs, process, found.ident.as_str());
    let ghost tv = text::texts(t@);
    let ghost shown = Seq::new(tv.len(), |k: int| once::shown(tv[k]));
    let ghost head = text::texts(lines@);
    let mut k: usize = 0;
    assert(head + shown.take(0) =~= head);
    while k < t.len()
        invariant
            k <= t@.len(),
            tv == text::texts(t@),
            shown == Seq::new(tv.len(), |k: int| once::shown(tv[k])),
            text::texts(lines@) == head + shown.take(k as int),
        decreases t.len() - k,
    {
        let ghost before = text::texts(lines@);
        assert(tv[k as int] == t@[k as int]@);
        lines.push(once::printable(t[k].as_str()));
        assert(text::texts(lines@) =~= before.push(shown[k as int]));
        assert(head + shown.take(k + 1) =~= (head + shown.take(k as int)).push(shown[k as int]));
        k += 1;
    }
    assert(shown.take(k as int) =~= shown);
    lines
}

// ---------------------------------------------------------------------------
// An id as a file of rules writes it
// ---------------------------------------------------------------------------

/// A hexadecimal digit.
pub open spec fn hex_digit(n: int) -> char {
    if n < 10 {
        ('0' as int + n) as char
    } else {
        ('a' as int + (n - 10)) as char
    }
}

/// A character as it stands in a JSON string.
pub open spec fn json_char(c: char) -> Seq<char> {
    if c == '"' || c == '\\' {
        seq!['\\', c]
    } else if c == '\u{8}' {
        seq!['\\', 'b']
    } else if c == '\u{9}' {
        seq!['\\', 't']
    } else if c == '\u{a}' {
        seq!['\\', 'n']
    } else if c == '\u{c}' {
        seq!['\\', 'f']
    } else if c == '\u{d}' {
        seq!['\\', 'r']
    } else if c <= '\u{1f}' {
        escape_of(c)
    } else {
        seq![c]
    }
}

/// A text as it stands in a JSON string, from index `i` on.
pub open spec fn json_from(s: Seq<char>, i: int) -> Seq<char>
    decreases s.len() - i,
{
    if i < 0 || i >= s.len() {
        Seq::empty()
    } else {
        json_char(s[i]) + json_from(s, i + 1)
    }
}

/// A text as a JSON string.
pub open spec fn json_text(s: Seq<char>) -> Seq<char> {
    seq!['"'] + json_from(s, 0) + seq!['"']
}

/// `serde_json::Value::from` and its `to_string`: the text between quotes. A
/// quote, a backslash and what stands below the space are escaped, by a letter
/// where JSON has one and by four digits where it has none; everything else
/// stays.
#[verifier::external_body]
fn json_string(s: &str) -> (r: String)
    ensures
        r@ == json_text(s@),
{
    serde_json::Value::from(s).to_string()
}

/// A character as an escape of four digits.
pub open spec fn escape_of(c: char) -> Seq<char> {
    let n = c as u32 as int;
    seq![
        '\\',
        'u',
        hex_digit(n / 4096 % 16),
        hex_digit(n / 256 % 16),
        hex_digit(n / 16 % 16),
        hex_digit(n % 16),
    ]
}

/// The first `n` characters of a text, those a terminal may act on escaped.
pub open spec fn escaped_upto(s: Seq<char>, n: int) -> Seq<char>
    decreases n,
{
    if n <= 0 {
        Seq::empty()
    } else if once::is_control(s[n - 1]) {
        escaped_upto(s, n - 1) + escape_of(s[n - 1])
    } else {
        escaped_upto(s, n - 1).push(s[n - 1])
    }
}

fn hex_char(n: u32) -> (r: char)
    requires
        n < 16,
    ensures
        r == hex_digit(n as int),
{
    if n < 10 {
        (48u8 + n as u8) as char
    } else {
        (97u8 + (n as u8 - 10)) as char
    }
}

/// A text with what a terminal may act on escaped.
pub fn escape_controls(s: &str) -> (r: String)
    ensures
        r@ == escaped_upto(s@, s@.len() as int),
{
    let v = text::chars_of(s);
    let mut out = String::new();
    let mut i: usize = 0;
    while i < v.len()
        invariant
            i <= v@.len(),
            v@ == s@,
            out@ == escaped_upto(s@, i as int),
        decreases v.len() - i,
    {
        let c = v[i];
        let ghost before = out@;
        if once::control(c) {
            let n: u32 = c as u32;
            out.push('\\');
            out.push('u');
            out.push(hex_char(n / 4096 % 16));
            out.push(hex_char(n / 256 % 16));
            out.push(hex_char(n / 16 % 16));
            out.push(hex_char(n % 16));
            proof {
                let e = escape_of(c);
                assert(e.len() == 6);
                assert(out@.len() == before.len() + 6);
                assert(out@ =~= before + e);
            }
        } else {
            out.push(c);
        }
        i += 1;
    }
    out
}

/// An id as a file of rules writes it.
pub open spec fn key_text(ident: Seq<char>) -> Seq<char> {
    escaped_upto(json_text(ident), json_text(ident).len() as int)
}

/// An id as a JSON string that can be put on a terminal and pasted into a file
/// of rules.
pub fn json_key(ident: &str) -> (r: String)
    ensures
        r@ == key_text(ident@),
{
    escape_controls(json_string(ident).as_str())
}

/// An id as it is suggested puts nothing on the terminal that it may act on.
pub proof fn law_a_suggested_key_is_harmless(s: Seq<char>, n: int)
    requires
        0 <= n <= s.len(),
    ensures
        forall|k: int|
            0 <= k < escaped_upto(s, n).len() ==> !once::is_control(#[trigger] escaped_upto(s, n)[k]),
    decreases n,
{
    if n > 0 {
        law_a_suggested_key_is_harmless(s, n - 1);
        let before = escaped_upto(s, n - 1);
        let all = escaped_upto(s, n);
        assert forall|k: int| 0 <= k < all.len() implies !once::is_control(#[trigger] all[k]) by {
            if k < before.len() {
                assert(all[k] == before[k]);
            } else if once::is_control(s[n - 1]) {
                assert(all[k] == escape_of(s[n - 1])[k - before.len()]);
            }
        }
    }
}

/// The digit that a hexadecimal digit stands for.
pub open spec fn hex_of(c: char) -> Option<int> {
    if '0' <= c && c <= '9' {
        Some(c as int - '0' as int)
    } else if 'a' <= c && c <= 'f' {
        Some(c as int - 'a' as int + 10)
    } else if 'A' <= c && c <= 'F' {
        Some(c as int - 'A' as int + 10)
    } else {
        None
    }
}

/// The character that four digits at `i` name; a surrogate names none.
pub open spec fn four_digits(t: Seq<char>, i: int) -> Option<char> {
    if i + 4 > t.len() {
        None
    } else {
        match (hex_of(t[i]), hex_of(t[i + 1]), hex_of(t[i + 2]), hex_of(t[i + 3])) {
            (Some(a), Some(b), Some(c), Some(d)) => {
                let n = ((a * 16 + b) * 16 + c) * 16 + d;
                if 0xd800 <= n && n <= 0xdfff {
                    None
                } else {
                    Some(n as char)
                }
            },
            _ => None,
        }
    }
}

/// The character that an escape of one letter names.
pub open spec fn letter_of(c: char) -> Option<char> {
    if c == '"' || c == '\\' || c == '/' {
        Some(c)
    } else if c == 'b' {
        Some('\u{8}')
    } else if c == 't' {
        Some('\u{9}')
    } else if c == 'n' {
        Some('\u{a}')
    } else if c == 'f' {
        Some('\u{c}')
    } else if c == 'r' {
        Some('\u{d}')
    } else {
        None
    }
}

/// The character that stands at `i` of a JSON string, and where the next one
/// is.
pub open spec fn json_unit(t: Seq<char>, i: int) -> Option<(char, int)> {
    if t[i] == '\\' {
        if i + 1 >= t.len() {
            None
        } else if t[i + 1] == 'u' {
            match four_digits(t, i + 2) {
                Some(c) => Some((c, i + 6)),
                None => None,
            }
        } else {
            match letter_of(t[i + 1]) {
                Some(c) => Some((c, i + 2)),
                None => None,
            }
        }
    } else if t[i] <= '\u{1f}' {
        None
    } else {
        Some((t[i], i + 1))
    }
}

/// What a JSON string says from index `i` on, up to the quote that ends it.
pub open spec fn said_from(t: Seq<char>, i: int) -> Option<Seq<char>>
    decreases t.len() - i,
{
    if i < 0 || i >= t.len() {
        None
    } else if t[i] == '"' {
        if i + 1 == t.len() {
            Some(Seq::empty())
        } else {
            None
        }
    } else {
        match json_unit(t, i) {
            Some((c, next)) => if next > i {
                match said_from(t, next) {
                    Some(rest) => Some(seq![c] + rest),
                    None => None,
                }
            } else {
                None
            },
            None => None,
        }
    }
}

/// What a JSON string says.
pub open spec fn json_said(t: Seq<char>) -> Option<Seq<char>> {
    if t.len() > 0 && t[0] == '"' {
        said_from(t, 1)
    } else {
        None
    }
}

proof fn lemma_escaped_joins(a: Seq<char>, b: Seq<char>, n: int)
    requires
        0 <= n <= b.len(),
    ensures
        escaped_upto(a + b, a.len() + n) == escaped_upto(a, a.len() as int) + escaped_upto(b, n),
    decreases n,
{
    if n == 0 {
        lemma_escaped_prefix(a + b, a, a.len() as int);
        assert(escaped_upto(a, a.len() as int) + escaped_upto(b, 0) =~= escaped_upto(
            a,
            a.len() as int,
        ));
    } else {
        lemma_escaped_joins(a, b, n - 1);
        let x = escaped_upto(a, a.len() as int);
        let y = escaped_upto(b, n - 1);
        let c = b[n - 1];
        assert((a + b)[a.len() + n - 1] == c);
        assert((x + y) + escape_of(c) =~= x + (y + escape_of(c)));
        assert((x + y).push(c) =~= x + y.push(c));
    }
}

proof fn lemma_escaped_prefix(a: Seq<char>, b: Seq<char>, n: int)
    requires
        0 <= n <= a.len(),
        n <= b.len(),
        forall|k: int| 0 <= k < n ==> a[k] == b[k],
    ensures
        escaped_upto(a, n) == escaped_upto(b, n),
    decreases n,
{
    if n > 0 {
        lemma_escaped_prefix(a, b, n - 1);
    }
}

/// A character as it stands in a key.
spec fn key_char(c: char) -> Seq<char> {
    if c > '\u{1f}' && once::is_control(c) {
        escape_of(c)
    } else {
        json_char(c)
    }
}

spec fn key_from(s: Seq<char>, i: int) -> Seq<char>
    decreases s.len() - i,
{
    if i < 0 || i >= s.len() {
        Seq::empty()
    } else {
        key_char(s[i]) + key_from(s, i + 1)
    }
}

proof fn lemma_clean(s: Seq<char>, n: int)
    requires
        0 <= n <= s.len(),
        forall|k: int| 0 <= k < n ==> !once::is_control(s[k]),
    ensures
        escaped_upto(s, n) == s.take(n),
    decreases n,
{
    if n > 0 {
        lemma_clean(s, n - 1);
        assert(s.take(n) =~= s.take(n - 1).push(s[n - 1]));
    } else {
        assert(s.take(0) =~= Seq::empty());
    }
}

proof fn lemma_key_char(c: char)
    ensures
        escaped_upto(json_char(c), json_char(c).len() as int) == key_char(c),
{
    let j = json_char(c);
    if c > '\u{1f}' && once::is_control(c) {
        assert(j =~= seq![c]);
        reveal_with_fuel(escaped_upto, 2);
        assert(Seq::<char>::empty() + escape_of(c) =~= escape_of(c));
    } else {
        assert forall|k: int| 0 <= k < j.len() implies !once::is_control(j[k]) by {}
        lemma_clean(j, j.len() as int);
        assert(j.take(j.len() as int) =~= j);
    }
}

proof fn lemma_key_from(s: Seq<char>, i: int)
    requires
        0 <= i <= s.len(),
    ensures
        escaped_upto(json_from(s, i), json_from(s, i).len() as int) == key_from(s, i),
    decreases s.len() - i,
{
    if i < s.len() {
        lemma_key_from(s, i + 1);
        let (a, b) = (json_char(s[i]), json_from(s, i + 1));
        lemma_escaped_joins(a, b, b.len() as int);
        lemma_key_char(s[i]);
        assert((a + b).len() == a.len() + b.len());
    }
}

/// A character of a key reads as itself.
proof fn lemma_unit_reads(t: Seq<char>, i: int, c: char)
    requires
        0 <= i,
        i + key_char(c).len() <= t.len(),
        forall|k: int| 0 <= k < key_char(c).len() ==> t[i + k] == #[trigger] key_char(c)[k],
    ensures
        t[i] != '"',
        json_unit(t, i) == Some((c, i + key_char(c).len())),
        key_char(c).len() > 0,
{
    let u = key_char(c);
    assert(u.len() > 0);
    assert(t[i + 0] == u[0]);
    if u.len() > 1 {
        assert(t[i + 1] == u[1]);
    }
    if u == escape_of(c) {
        let n = c as u32 as int;
        assert(n < 0x100);
        assert(t[i + 2] == u[2] && t[i + 3] == u[3] && t[i + 4] == u[4] && t[i + 5] == u[5]);
        assert(n / 4096 % 16 == 0 && n / 256 % 16 == 0);
        assert(n / 16 % 16 == n / 16);
        assert(n == n / 16 * 16 + n % 16);
        assert(hex_of(u[2]) == Some(0int) && hex_of(u[3]) == Some(0int));
        assert(hex_of(u[4]) == Some(n / 16));
        assert(hex_of(u[5]) == Some(n % 16));
        assert(four_digits(t, i + 2) == Some(c));
    }
}

proof fn lemma_key_reads(s: Seq<char>, i: int, pre: Seq<char>)
    requires
        0 <= i <= s.len(),
    ensures
        said_from(pre + key_from(s, i) + seq!['"'], pre.len() as int) == Some(s.skip(i)),
    decreases s.len() - i,
{
    let t = pre + key_from(s, i) + seq!['"'];
    let at = pre.len() as int;
    if i == s.len() {
        assert(t[at] == '"');
        assert(s.skip(i) =~= Seq::empty());
    } else {
        let u = key_char(s[i]);
        lemma_key_reads(s, i + 1, pre + u);
        assert((pre + u) + key_from(s, i + 1) + seq!['"'] =~= t);
        assert forall|k: int| 0 <= k < u.len() implies t[at + k] == #[trigger] u[k] by {}
        lemma_unit_reads(t, at, s[i]);
        assert(seq![s[i]] + s.skip(i + 1) =~= s.skip(i));
    }
}

/// A key that is pasted into a file of rules is read as the id it was
/// suggested for.
pub proof fn law_a_suggested_key_reads_back(ident: Seq<char>)
    ensures
        json_said(key_text(ident)) == Some(ident),
{
    let q = seq!['"'];
    let body = json_from(ident, 0);
    lemma_key_from(ident, 0);
    lemma_clean(q, 1);
    assert(q.take(1) =~= q);
    lemma_escaped_joins(q, body, body.len() as int);
    assert((q + body).len() == q.len() + body.len());
    lemma_escaped_joins(q + body, q, 1);
    assert(key_text(ident) =~= q + key_from(ident, 0) + q);
    lemma_key_reads(ident, 0, q);
    assert(ident.skip(0) =~= ident);
}

/// A process that a row holds is found among the rows, and one that none holds
/// is not.
pub proof fn law_a_process_is_found_where_a_row_holds_it(rows: Seq<IdentNode>, pid: u32, k: int)
    requires
        0 <= k <= rows.len(),
    ensures
        row_from(rows, pid, k) is Some == exists|j: int|
            k <= j < rows.len() && within_row(#[trigger] rows[j], pid) is Some,
        row_from(rows, pid, k) matches Some(j) ==> k <= j < rows.len() && within_row(
            rows[j],
            pid,
        ) is Some,
    decreases rows.len() - k,
{
    if k < rows.len() {
        law_a_process_is_found_where_a_row_holds_it(rows, pid, k + 1);
    }
}

} // verus!
