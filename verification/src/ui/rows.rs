//! The rows of the table: the tree as far as it is open.
use vstd::prelude::*;

use crate::text;
use crate::types;
use crate::types::{
    HostTree, IdentNode, InstanceNode, MemberContainer, Metrics, ProcNode, UserNode, Weight,
};

verus! {

/// One row of the table.
#[derive(Debug)]
pub struct Flat {
    /// Where the row stands in the tree: the ids above it, a slash between two.
    pub id: String,
    pub depth: u16,
    pub name: String,
    pub nproc: u32,
    pub metrics: Metrics,
    pub expandable: bool,
    /// An entry of a list, not a part of the tree's shape.
    pub trimmable: bool,
    /// What a search looks at instead of the name: a closed row is found by
    /// what is under it.
    pub search: Option<String>,
}

/// The same as a value.
pub struct Line {
    pub id: Seq<char>,
    pub depth: u16,
    pub name: Seq<char>,
    pub nproc: u32,
    pub metrics: Weight,
    pub expandable: bool,
    pub trimmable: bool,
    pub search: Option<Seq<char>>,
}

impl View for Flat {
    type V = Line;

    open spec fn view(&self) -> Line {
        Line {
            id: self.id@,
            depth: self.depth,
            name: self.name@,
            nproc: self.nproc,
            metrics: self.metrics@,
            expandable: self.expandable,
            trimmable: self.trimmable,
            search: text::opt_text(self.search),
        }
    }
}

pub open spec fn lines(v: Seq<Flat>) -> Seq<Line> {
    Seq::new(v.len(), |k: int| v[k]@)
}

proof fn lemma_lines_push(v: Seq<Flat>, f: Flat)
    ensures
        lines(v.push(f)) == lines(v).push(f@),
{
    assert(lines(v.push(f)) =~= lines(v).push(f@));
}

/// One level further in.
pub open spec fn deeper(depth: u16, by: u16) -> u16 {
    if depth + by > u16::MAX {
        u16::MAX
    } else {
        (depth + by) as u16
    }
}

// ---------------------------------------------------------------------------
// What a search looks at
// ---------------------------------------------------------------------------

/// The arguments of processes and of those under them, each on a line.
pub open spec fn args_of(nodes: Seq<ProcNode>) -> Seq<char>
    decreases nodes,
{
    if nodes.len() == 0 {
        Seq::empty()
    } else {
        args_of(nodes.drop_last()) + seq!['\n'] + nodes.last().cmdline@ + args_of(
            nodes.last().children@,
        )
    }
}

#[verifier::loop_isolation(false)]
fn push_args(out: &mut String, nodes: &Vec<ProcNode>)
    ensures
        final(out)@ == old(out)@ + args_of(nodes@),
    decreases nodes,
{
    let ghost start = out@;
    let mut k: usize = 0;
    assert(nodes@.take(0) =~= Seq::empty());
    assert(start + args_of(nodes@.take(0)) =~= start);
    while k < nodes.len()
        invariant
            k <= nodes@.len(),
            out@ == start + args_of(nodes@.take(k as int)),
        decreases nodes.len() - k,
    {
        let ghost before = out@;
        out.push('\n');
        out.append(nodes[k].cmdline.as_str());
        assert(decreases_to!(nodes => nodes@[k as int].children));
        push_args(out, &nodes[k].children);
        k += 1;
        assert(nodes@.take(k as int).drop_last() =~= nodes@.take(k - 1));
        assert(out@ =~= start + args_of(nodes@.take(k as int)));
    }
    assert(nodes@.take(k as int) =~= nodes@);
}

/// A title and the arguments of what is under it.
pub open spec fn hay(title: Seq<char>, nodes: Seq<ProcNode>) -> Seq<char> {
    title + args_of(nodes)
}

pub fn haystack(title: &str, nodes: &Vec<ProcNode>) -> (r: String)
    ensures
        r@ == hay(title@, nodes@),
{
    let mut s = title.to_owned();
    push_args(&mut s, nodes);
    s
}

/// A process with its name and all arguments under it.
pub open spec fn process_hay(name: Seq<char>, p: ProcNode) -> Seq<char> {
    name + seq!['\n'] + p.cmdline@ + args_of(p.children@)
}

fn process_haystack(name: &str, p: &ProcNode) -> (r: String)
    ensures
        r@ == process_hay(name@, *p),
{
    let mut s = name.to_owned();
    s.push('\n');
    s.append(p.cmdline.as_str());
    push_args(&mut s, &p.children);
    assert(s@ =~= process_hay(name@, *p));
    s
}

/// What the first `n` containers of a row add to its search.
pub open spec fn member_hays(v: Seq<MemberContainer>, n: int) -> Seq<char>
    decreases n,
{
    if n <= 0 {
        Seq::empty()
    } else {
        member_hays(v, n - 1) + seq!['\n'] + hay(v[n - 1].title@, v[n - 1].processes@)
    }
}

/// What the first `n` instances of a row add to its search.
pub open spec fn instance_hays(v: Seq<InstanceNode>, n: int) -> Seq<char>
    decreases n,
{
    if n <= 0 {
        Seq::empty()
    } else {
        instance_hays(v, n - 1) + args_of(v[n - 1].processes@)
    }
}

/// A row with everything under it.
pub open spec fn ident_hay(ident: IdentNode) -> Seq<char> {
    ident.title@ + member_hays(ident.containers@, ident.containers@.len() as int) + instance_hays(
        ident.instances@,
        ident.instances@.len() as int,
    )
}

pub fn ident_haystack(ident: &IdentNode) -> (r: String)
    ensures
        r@ == ident_hay(*ident),
{
    let mut s = ident.title.clone();
    let mut i: usize = 0;
    assert(s@ =~= ident.title@ + member_hays(ident.containers@, 0));
    while i < ident.containers.len()
        invariant
            i <= ident.containers@.len(),
            s@ == ident.title@ + member_hays(ident.containers@, i as int),
        decreases ident.containers.len() - i,
    {
        s.push('\n');
        s.append(ident.containers[i].title.as_str());
        push_args(&mut s, &ident.containers[i].processes);
        i += 1;
        assert(s@ =~= ident.title@ + member_hays(ident.containers@, i as int));
    }
    let ghost head = s@;
    let mut k: usize = 0;
    assert(s@ =~= head + instance_hays(ident.instances@, 0));
    while k < ident.instances.len()
        invariant
            k <= ident.instances@.len(),
            s@ == head + instance_hays(ident.instances@, k as int),
        decreases ident.instances.len() - k,
    {
        push_args(&mut s, &ident.instances[k].processes);
        k += 1;
        assert(s@ =~= head + instance_hays(ident.instances@, k as int));
    }
    s
}

// ---------------------------------------------------------------------------
// Rows
// ---------------------------------------------------------------------------

pub open spec fn given(deep: bool, s: Seq<char>) -> Option<Seq<char>> {
    if deep {
        Some(s)
    } else {
        None
    }
}

pub open spec fn process_id(prefix: Seq<char>, pid: u32) -> Seq<char> {
    prefix + "/p/"@ + text::decimal(pid as nat)
}

pub open spec fn process_title(p: ProcNode) -> Seq<char> {
    p.name@ + " ["@ + text::decimal(p.pid as nat) + "]"@
}

pub open spec fn process_line(p: ProcNode, depth: u16, prefix: Seq<char>, deep: bool) -> Line {
    Line {
        id: process_id(prefix, p.pid),
        depth,
        name: process_title(p),
        nproc: 1,
        metrics: p.metrics@,
        expandable: p.children@.len() > 0,
        trimmable: true,
        search: given(deep, process_hay(process_title(p), p)),
    }
}

/// The rows of processes: each one, and where it is open those under it.
pub open spec fn process_lines(
    nodes: Seq<ProcNode>,
    open: Seq<Seq<char>>,
    depth: u16,
    prefix: Seq<char>,
    deep: bool,
) -> Seq<Line>
    decreases nodes,
{
    if nodes.len() == 0 {
        Seq::empty()
    } else {
        let p = nodes.last();
        let id = process_id(prefix, p.pid);
        let under = if open.contains(id) {
            process_lines(p.children@, open, deeper(depth, 1), id, deep)
        } else {
            Seq::empty()
        };
        process_lines(nodes.drop_last(), open, depth, prefix, deep).push(
            process_line(p, depth, prefix, deep),
        ) + under
    }
}

#[verifier::loop_isolation(false)]
fn push_procs(
    rows: &mut Vec<Flat>,
    expand: &Vec<String>,
    depth: u16,
    prefix: &str,
    procs: &Vec<ProcNode>,
    deep: bool,
)
    ensures
        lines(final(rows)@) == lines(old(rows)@) + process_lines(
            procs@,
            text::texts(expand@),
            depth,
            prefix@,
            deep,
        ),
    decreases procs,
{
    let ghost start = lines(rows@);
    let ghost open = text::texts(expand@);
    let mut k: usize = 0;
    assert(procs@.take(0) =~= Seq::empty());
    assert(start + process_lines(procs@.take(0), open, depth, prefix@, deep) =~= start);
    while k < procs.len()
        invariant
            k <= procs@.len(),
            lines(rows@) == start + process_lines(
                procs@.take(k as int),
                open,
                depth,
                prefix@,
                deep,
            ),
        decreases procs.len() - k,
    {
        let p: &ProcNode = &procs[k];
        let mut id = prefix.to_owned();
        id.append("/p/");
        text::push_decimal(&mut id, p.pid as u64);
        let mut name = p.name.clone();
        name.append(" [");
        text::push_decimal(&mut name, p.pid as u64);
        name.append("]");
        assert(id@ == process_id(prefix@, p.pid));
        assert(name@ == process_title(*p));
        let opened: bool = text::among(expand, id.as_str());
        let search = if deep {
            Some(process_haystack(name.as_str(), p))
        } else {
            None
        };
        let row = Flat {
            id: id.clone(),
            depth,
            name,
            nproc: 1,
            metrics: p.metrics.copy(),
            expandable: p.children.len() > 0,
            trimmable: true,
            search,
        };
        let ghost before = process_lines(procs@.take(k as int), open, depth, prefix@, deep);
        proof {
            assert(row@ == process_line(*p, depth, prefix@, deep));
            lemma_lines_push(rows@, row);
        }
        rows.push(row);
        assert(lines(rows@) =~= start + before.push(process_line(*p, depth, prefix@, deep)));
        if opened {
            assert(decreases_to!(procs => procs@[k as int].children));
            push_procs(
                rows,
                expand,
                depth.saturating_add(1),
                id.as_str(),
                &procs[k].children,
                deep,
            );
        }
        k += 1;
        assert(procs@.take(k as int).drop_last() =~= procs@.take(k - 1));
        assert(lines(rows@) =~= start + process_lines(
            procs@.take(k as int),
            open,
            depth,
            prefix@,
            deep,
        ));
    }
    assert(procs@.take(k as int) =~= procs@);
}

pub open spec fn under(prefix: Seq<char>, kind: Seq<char>, id: Seq<char>) -> Seq<char> {
    prefix + kind + id
}

fn id_under(prefix: &str, kind: &str, id: &str) -> (r: String)
    ensures
        r@ == under(prefix@, kind@, id@),
{
    let mut s = prefix.to_owned();
    s.append(kind);
    s.append(id);
    s
}

/// The rows of the first `n` containers of a row.
pub open spec fn member_lines(
    v: Seq<MemberContainer>,
    n: int,
    open: Seq<Seq<char>>,
    depth: u16,
    prefix: Seq<char>,
    deep: bool,
) -> Seq<Line>
    decreases n,
{
    if n <= 0 {
        Seq::empty()
    } else {
        let m = v[n - 1];
        let id = under(prefix, "/m/"@, m.id@);
        member_lines(v, n - 1, open, depth, prefix, deep).push(
            Line {
                id,
                depth,
                name: m.title@,
                nproc: m.nproc,
                metrics: m.metrics@,
                expandable: true,
                trimmable: true,
                search: given(deep, hay(m.title@, m.processes@)),
            },
        ) + if open.contains(id) {
            process_lines(m.processes@, open, deeper(depth, 1), id, deep)
        } else {
            Seq::empty()
        }
    }
}

/// The rows of the first `n` instances of a row.
pub open spec fn instance_lines(
    v: Seq<InstanceNode>,
    n: int,
    open: Seq<Seq<char>>,
    depth: u16,
    prefix: Seq<char>,
    deep: bool,
) -> Seq<Line>
    decreases n,
{
    if n <= 0 {
        Seq::empty()
    } else {
        let m = v[n - 1];
        let id = under(prefix, "/i/"@, m.key@);
        instance_lines(v, n - 1, open, depth, prefix, deep).push(
            Line {
                id,
                depth,
                name: m.key@,
                nproc: m.nproc,
                metrics: m.metrics@,
                expandable: true,
                trimmable: true,
                search: given(deep, hay(m.key@, m.processes@)),
            },
        ) + if open.contains(id) {
            process_lines(m.processes@, open, deeper(depth, 1), id, deep)
        } else {
            Seq::empty()
        }
    }
}

/// The rows of the first `n` entries of a folder: each one, and where it is
/// open its containers and its instances.
pub open spec fn ident_lines(
    v: Seq<IdentNode>,
    n: int,
    open: Seq<Seq<char>>,
    depth: u16,
    prefix: Seq<char>,
    deep: bool,
) -> Seq<Line>
    decreases n,
{
    if n <= 0 {
        Seq::empty()
    } else {
        let x = v[n - 1];
        let id = under(prefix, "/"@, x.id@);
        ident_lines(v, n - 1, open, depth, prefix, deep).push(
            Line {
                id,
                depth,
                name: x.title@,
                nproc: x.nproc,
                metrics: x.metrics@,
                expandable: true,
                trimmable: true,
                search: given(deep, ident_hay(x)),
            },
        ) + if open.contains(id) {
            member_lines(
                x.containers@,
                x.containers@.len() as int,
                open,
                deeper(depth, 1),
                id,
                deep,
            ) + instance_lines(
                x.instances@,
                x.instances@.len() as int,
                open,
                deeper(depth, 1),
                id,
                deep,
            )
        } else {
            Seq::empty()
        }
    }
}

/// A folder's title with how many entries it has.
pub open spec fn folder_name(title: Seq<char>, n: nat) -> Seq<char> {
    title + " ("@ + text::decimal(n) + ")"@
}

/// The rows of a folder: its own, and where it is open its entries. An empty
/// one is never open.
pub open spec fn folder_lines(
    v: Seq<IdentNode>,
    open: Seq<Seq<char>>,
    depth: u16,
    id: Seq<char>,
    title: Seq<char>,
    deep: bool,
) -> Seq<Line> {
    seq![
        Line {
            id,
            depth,
            name: folder_name(title, v.len()),
            nproc: types::count_of(v),
            metrics: types::weight_of(types::row_weights(v)),
            expandable: v.len() > 0,
            trimmable: false,
            search: None,
        },
    ] + if open.contains(id) {
        ident_lines(v, v.len() as int, open, deeper(depth, 1), id, deep)
    } else {
        Seq::empty()
    }
}

fn push_members(
    rows: &mut Vec<Flat>,
    expand: &Vec<String>,
    depth: u16,
    prefix: &str,
    v: &Vec<MemberContainer>,
    deep: bool,
)
    ensures
        lines(final(rows)@) == lines(old(rows)@) + member_lines(
            v@,
            v@.len() as int,
            text::texts(expand@),
            depth,
            prefix@,
            deep,
        ),
{
    let ghost start = lines(rows@);
    let ghost open = text::texts(expand@);
    let mut k: usize = 0;
    assert(start + member_lines(v@, 0, open, depth, prefix@, deep) =~= start);
    while k < v.len()
        invariant
            k <= v@.len(),
            open == text::texts(expand@),
            lines(rows@) == start + member_lines(v@, k as int, open, depth, prefix@, deep),
        decreases v.len() - k,
    {
        let id = id_under(prefix, "/m/", v[k].id.as_str());
        let row = Flat {
            id: id.clone(),
            depth,
            name: v[k].title.clone(),
            nproc: v[k].nproc,
            metrics: v[k].metrics.copy(),
            expandable: true,
            trimmable: true,
            search: if deep {
                Some(haystack(v[k].title.as_str(), &v[k].processes))
            } else {
                None
            },
        };
        proof {
            lemma_lines_push(rows@, row);
        }
        rows.push(row);
        if text::among(expand, id.as_str()) {
            push_procs(rows, expand, depth.saturating_add(1), id.as_str(), &v[k].processes, deep);
        }
        k += 1;
        assert(lines(rows@) =~= start + member_lines(v@, k as int, open, depth, prefix@, deep));
    }
}

fn push_instances(
    rows: &mut Vec<Flat>,
    expand: &Vec<String>,
    depth: u16,
    prefix: &str,
    v: &Vec<InstanceNode>,
    deep: bool,
)
    ensures
        lines(final(rows)@) == lines(old(rows)@) + instance_lines(
            v@,
            v@.len() as int,
            text::texts(expand@),
            depth,
            prefix@,
            deep,
        ),
{
    let ghost start = lines(rows@);
    let ghost open = text::texts(expand@);
    let mut k: usize = 0;
    assert(start + instance_lines(v@, 0, open, depth, prefix@, deep) =~= start);
    while k < v.len()
        invariant
            k <= v@.len(),
            open == text::texts(expand@),
            lines(rows@) == start + instance_lines(v@, k as int, open, depth, prefix@, deep),
        decreases v.len() - k,
    {
        let id = id_under(prefix, "/i/", v[k].key.as_str());
        let row = Flat {
            id: id.clone(),
            depth,
            name: v[k].key.clone(),
            nproc: v[k].nproc,
            metrics: v[k].metrics.copy(),
            expandable: true,
            trimmable: true,
            search: if deep {
                Some(haystack(v[k].key.as_str(), &v[k].processes))
            } else {
                None
            },
        };
        proof {
            lemma_lines_push(rows@, row);
        }
        rows.push(row);
        if text::among(expand, id.as_str()) {
            push_procs(rows, expand, depth.saturating_add(1), id.as_str(), &v[k].processes, deep);
        }
        k += 1;
        assert(lines(rows@) =~= start + instance_lines(v@, k as int, open, depth, prefix@, deep));
    }
}

fn push_idents(
    rows: &mut Vec<Flat>,
    expand: &Vec<String>,
    depth: u16,
    prefix: &str,
    v: &Vec<IdentNode>,
    deep: bool,
)
    ensures
        lines(final(rows)@) == lines(old(rows)@) + ident_lines(
            v@,
            v@.len() as int,
            text::texts(expand@),
            depth,
            prefix@,
            deep,
        ),
{
    let ghost start = lines(rows@);
    let ghost open = text::texts(expand@);
    let mut k: usize = 0;
    assert(start + ident_lines(v@, 0, open, depth, prefix@, deep) =~= start);
    while k < v.len()
        invariant
            k <= v@.len(),
            open == text::texts(expand@),
            lines(rows@) == start + ident_lines(v@, k as int, open, depth, prefix@, deep),
        decreases v.len() - k,
    {
        let id = id_under(prefix, "/", v[k].id.as_str());
        let row = Flat {
            id: id.clone(),
            depth,
            name: v[k].title.clone(),
            nproc: v[k].nproc,
            metrics: v[k].metrics.copy(),
            expandable: true,
            trimmable: true,
            search: if deep {
                Some(ident_haystack(&v[k]))
            } else {
                None
            },
        };
        proof {
            lemma_lines_push(rows@, row);
        }
        rows.push(row);
        if text::among(expand, id.as_str()) {
            let next: u16 = depth.saturating_add(1);
            push_members(rows, expand, next, id.as_str(), &v[k].containers, deep);
            push_instances(rows, expand, next, id.as_str(), &v[k].instances, deep);
        }
        k += 1;
        assert(lines(rows@) =~= start + ident_lines(v@, k as int, open, depth, prefix@, deep));
    }
}

fn push_folder(
    rows: &mut Vec<Flat>,
    expand: &Vec<String>,
    depth: u16,
    id: &str,
    title: &str,
    idents: &Vec<IdentNode>,
    deep: bool,
)
    ensures
        lines(final(rows)@) == lines(old(rows)@) + folder_lines(
            idents@,
            text::texts(expand@),
            depth,
            id@,
            title@,
            deep,
        ),
{
    let ghost start = lines(rows@);
    let mut name = title.to_owned();
    name.append(" (");
    text::push_decimal(&mut name, idents.len() as u64);
    name.append(")");
    let row = Flat {
        id: id.to_owned(),
        depth,
        name,
        nproc: types::folder_nproc(idents.as_slice()),
        metrics: types::sum_idents(idents.as_slice()),
        expandable: idents.len() > 0,
        trimmable: false,
        search: None,
    };
    proof {
        lemma_lines_push(rows@, row);
    }
    rows.push(row);
    if text::among(expand, id) {
        push_idents(rows, expand, depth.saturating_add(1), id, idents, deep);
    }
    assert(lines(rows@) =~= start + folder_lines(
        idents@,
        text::texts(expand@),
        depth,
        id@,
        title@,
        deep,
    ));
}

pub open spec fn user_id(uid: u32) -> Seq<char> {
    "user:"@ + text::decimal(uid as nat)
}

/// The rows of one user: their own, and where it is open the three folders.
pub open spec fn user_lines(u: UserNode, open: Seq<Seq<char>>, deep: bool) -> Seq<Line> {
    let id = user_id(u.uid);
    seq![
        Line {
            id,
            depth: 1,
            name: u.name@,
            nproc: types::user_count(u),
            metrics: types::user_weight(u),
            expandable: true,
            trimmable: false,
            search: None,
        },
    ] + if open.contains(id) {
        folder_lines(u.applications@, open, 2, id + "/apps"@, "Applications"@, deep)
            + folder_lines(u.user_services@, open, 2, id + "/services"@, "User Services"@, deep)
            + folder_lines(u.containers@, open, 2, id + "/containers"@, "Containers"@, deep)
    } else {
        Seq::empty()
    }
}

/// The rows of the first `n` users.
pub open spec fn users_lines(
    users: Seq<UserNode>,
    n: int,
    open: Seq<Seq<char>>,
    deep: bool,
) -> Seq<Line>
    decreases n,
{
    if n <= 0 {
        Seq::empty()
    } else {
        users_lines(users, n - 1, open, deep) + user_lines(users[n - 1], open, deep)
    }
}

/// The rows of the tree: the machine, and where it is open its users, its
/// containers and the system.
pub open spec fn tree_lines(tree: HostTree, open: Seq<Seq<char>>, deep: bool) -> Seq<Line> {
    seq![
        Line {
            id: "host"@,
            depth: 0,
            name: "Host"@,
            nproc: types::tree_count(tree),
            metrics: types::tree_weight(tree),
            expandable: true,
            trimmable: false,
            search: None,
        },
    ] + if open.contains("host"@) {
        users_lines(tree.users@, tree.users@.len() as int, open, deep) + folder_lines(
            tree.containers@,
            open,
            1,
            "host/containers"@,
            "Containers"@,
            deep,
        ) + folder_lines(tree.system@, open, 1, "host/system"@, "System"@, deep)
    } else {
        Seq::empty()
    }
}

fn push_user(rows: &mut Vec<Flat>, expand: &Vec<String>, user: &UserNode, deep: bool)
    ensures
        lines(final(rows)@) == lines(old(rows)@) + user_lines(*user, text::texts(expand@), deep),
{
    let ghost start = lines(rows@);
    let mut id = "user:".to_owned();
    text::push_decimal(&mut id, user.uid as u64);
    let row = Flat {
        id: id.clone(),
        depth: 1,
        name: user.name.clone(),
        nproc: types::user_nproc(user),
        metrics: types::user_metrics(user),
        expandable: true,
        trimmable: false,
        search: None,
    };
    proof {
        lemma_lines_push(rows@, row);
    }
    rows.push(row);
    if text::among(expand, id.as_str()) {
        let apps = text::joined(id.as_str(), "/apps");
        let services = text::joined(id.as_str(), "/services");
        let containers = text::joined(id.as_str(), "/containers");
        push_folder(rows, expand, 2, apps.as_str(), "Applications", &user.applications, deep);
        push_folder(
            rows,
            expand,
            2,
            services.as_str(),
            "User Services",
            &user.user_services,
            deep,
        );
        push_folder(rows, expand, 2, containers.as_str(), "Containers", &user.containers, deep);
    }
    assert(lines(rows@) =~= start + user_lines(*user, text::texts(expand@), deep));
}

/// The ids of every row that is a folder or holds folders.
pub open spec fn folder_ids(users: Seq<UserNode>, n: int) -> Seq<Seq<char>>
    decreases n,
{
    if n <= 0 {
        seq!["host"@, "host/containers"@, "host/system"@]
    } else {
        let id = user_id(users[n - 1].uid);
        folder_ids(users, n - 1).push(id).push(id + "/apps"@).push(id + "/services"@).push(
            id + "/containers"@,
        )
    }
}

/// What is open where every folder is.
pub fn every_folder(tree: &HostTree) -> (r: Vec<String>)
    ensures
        text::texts(r@) == folder_ids(tree.users@, tree.users@.len() as int),
{
    let mut v: Vec<String> = Vec::new();
    v.push("host".to_owned());
    v.push("host/containers".to_owned());
    v.push("host/system".to_owned());
    assert(text::texts(v@) =~= folder_ids(tree.users@, 0));
    let mut k: usize = 0;
    while k < tree.users.len()
        invariant
            k <= tree.users@.len(),
            text::texts(v@) == folder_ids(tree.users@, k as int),
        decreases tree.users.len() - k,
    {
        let ghost before = text::texts(v@);
        let mut id = "user:".to_owned();
        text::push_decimal(&mut id, tree.users[k].uid as u64);
        let ghost own = id@;
        let apps = text::joined(id.as_str(), "/apps");
        let services = text::joined(id.as_str(), "/services");
        let containers = text::joined(id.as_str(), "/containers");
        v.push(id);
        v.push(apps);
        v.push(services);
        v.push(containers);
        assert(text::texts(v@) =~= before.push(own).push(own + "/apps"@).push(
            own + "/services"@,
        ).push(own + "/containers"@));
        k += 1;
    }
    v
}

/// The rows of a tree, with what a search looks at where one is on.
pub fn tree_rows(tree: &HostTree, expand: &Vec<String>, deep: bool) -> (r: Vec<Flat>)
    ensures
        lines(r@) == tree_lines(*tree, text::texts(expand@), deep),
{
    let ghost open = text::texts(expand@);
    let mut rows: Vec<Flat> = Vec::new();
    assert(lines(rows@) =~= Seq::empty());
    let row = Flat {
        id: "host".to_owned(),
        depth: 0,
        name: "Host".to_owned(),
        nproc: types::tree_host_nproc(tree),
        metrics: types::host_metrics(tree),
        expandable: true,
        trimmable: false,
        search: None,
    };
    proof {
        lemma_lines_push(rows@, row);
    }
    rows.push(row);
    let ghost first = lines(rows@);
    if text::among(expand, "host") {
        let mut k: usize = 0;
        assert(first + users_lines(tree.users@, 0, open, deep) =~= first);
        while k < tree.users.len()
            invariant
                k <= tree.users@.len(),
                open == text::texts(expand@),
                lines(rows@) == first + users_lines(tree.users@, k as int, open, deep),
            decreases tree.users.len() - k,
        {
            push_user(&mut rows, expand, &tree.users[k], deep);
            k += 1;
            assert(lines(rows@) =~= first + users_lines(tree.users@, k as int, open, deep));
        }
        push_folder(
            &mut rows,
            expand,
            1,
            "host/containers",
            "Containers",
            &tree.containers,
            deep,
        );
        push_folder(&mut rows, expand, 1, "host/system", "System", &tree.system, deep);
    }
    assert(lines(rows@) =~= tree_lines(*tree, open, deep));
    rows
}

} // verus!
