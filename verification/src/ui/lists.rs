//! Which rows the table lists, and what a search finds in them.
use vstd::prelude::*;

use crate::text;
use crate::types;
use crate::types::{HostTree, IdentNode, InstanceNode, MemberContainer, ProcNode, UserNode};
use crate::ui::rows;

verus! {

/// `s` stands somewhere in `t`.
pub open spec fn within(t: Seq<char>, s: Seq<char>) -> bool {
    exists|a: Seq<char>, b: Seq<char>| t == #[trigger] (a + s + b)
}

proof fn lemma_within_longer(t: Seq<char>, s: Seq<char>, pre: Seq<char>, post: Seq<char>)
    requires
        within(t, s),
    ensures
        within(pre + t + post, s),
{
    let (a, b) = choose|a: Seq<char>, b: Seq<char>| t == #[trigger] (a + s + b);
    assert(pre + t + post =~= (pre + a) + s + (b + post));
}

proof fn lemma_within_self(s: Seq<char>)
    ensures
        within(s, s),
{
    assert(s =~= Seq::<char>::empty() + s + Seq::<char>::empty());
}

// ---------------------------------------------------------------------------
// What a search finds
// ---------------------------------------------------------------------------

/// A search of a row sees the arguments of every process in it.
pub proof fn law_a_search_sees_every_command_line(nodes: Seq<ProcNode>, k: int)
    requires
        0 <= k < nodes.len(),
    ensures
        within(rows::args_of(nodes), nodes[k].cmdline@),
        forall|s: Seq<char>| #[trigger]
            within(rows::args_of(nodes[k].children@), s) ==> within(rows::args_of(nodes), s),
    decreases nodes.len(),
{
    let less = nodes.drop_last();
    let before = rows::args_of(less);
    let own = nodes.last().cmdline@;
    let below = rows::args_of(nodes.last().children@);
    let all = rows::args_of(nodes);
    assert(all =~= before + seq!['\n'] + own + below);
    if k == nodes.len() - 1 {
        lemma_within_self(own);
        lemma_within_longer(own, own, before + seq!['\n'], below);
        assert(all =~= (before + seq!['\n']) + own + below);
        assert forall|s: Seq<char>| #[trigger]
            within(rows::args_of(nodes[k].children@), s) implies within(all, s) by {
            lemma_within_longer(below, s, before + seq!['\n'] + own, Seq::empty());
            assert(all =~= (before + seq!['\n'] + own) + below + Seq::<char>::empty());
        }
    } else {
        law_a_search_sees_every_command_line(less, k);
        assert(less[k] == nodes[k]);
        let rest = seq!['\n'] + own + below;
        assert(all =~= Seq::<char>::empty() + before + rest);
        lemma_within_longer(before, nodes[k].cmdline@, Seq::empty(), rest);
        assert forall|s: Seq<char>| #[trigger]
            within(rows::args_of(nodes[k].children@), s) implies within(all, s) by {
            assert(within(rows::args_of(less[k].children@), s));
            lemma_within_longer(before, s, Seq::empty(), rest);
        }
    }
}

/// A search of an entry sees its title, the title of each of its containers,
/// and the arguments of every process of its instances.
pub proof fn law_a_search_sees_an_entry_whole(x: IdentNode, m: int, i: int, p: int)
    ensures
        within(rows::ident_hay(x), x.title@),
        0 <= m < x.containers@.len() ==> within(rows::ident_hay(x), x.containers@[m].title@),
        0 <= i < x.instances@.len() && 0 <= p < x.instances@[i].processes@.len() ==> within(
            rows::ident_hay(x),
            x.instances@[i].processes@[p].cmdline@,
        ),
{
    let title = x.title@;
    let members = rows::member_hays(x.containers@, x.containers@.len() as int);
    let instances = rows::instance_hays(x.instances@, x.instances@.len() as int);
    let all = rows::ident_hay(x);
    assert(all =~= title + members + instances);
    lemma_within_self(title);
    lemma_within_longer(title, title, Seq::empty(), members + instances);
    assert(all =~= Seq::<char>::empty() + title + (members + instances));
    if 0 <= m < x.containers@.len() {
        lemma_member(x.containers@, m, x.containers@.len() as int);
        lemma_within_longer(members, x.containers@[m].title@, title, instances);
    }
    if 0 <= i < x.instances@.len() && 0 <= p < x.instances@[i].processes@.len() {
        lemma_instance(x.instances@, i, p, x.instances@.len() as int);
        lemma_within_longer(
            instances,
            x.instances@[i].processes@[p].cmdline@,
            title + members,
            Seq::empty(),
        );
        assert(all =~= (title + members) + instances + Seq::<char>::empty());
    }
}

proof fn lemma_member(v: Seq<MemberContainer>, m: int, n: int)
    requires
        0 <= m < n <= v.len(),
    ensures
        within(rows::member_hays(v, n), v[m].title@),
    decreases n,
{
    let before = rows::member_hays(v, n - 1);
    let own = rows::hay(v[n - 1].title@, v[n - 1].processes@);
    let all = rows::member_hays(v, n);
    if m == n - 1 {
        let args = rows::args_of(v[n - 1].processes@);
        lemma_within_self(v[m].title@);
        lemma_within_longer(v[m].title@, v[m].title@, before + seq!['\n'], args);
        assert(all =~= (before + seq!['\n']) + v[m].title@ + args);
    } else {
        lemma_member(v, m, n - 1);
        lemma_within_longer(before, v[m].title@, Seq::empty(), seq!['\n'] + own);
        assert(all =~= Seq::<char>::empty() + before + (seq!['\n'] + own));
    }
}

proof fn lemma_instance(v: Seq<InstanceNode>, i: int, p: int, n: int)
    requires
        0 <= i < n <= v.len(),
        0 <= p < v[i].processes@.len(),
    ensures
        within(rows::instance_hays(v, n), v[i].processes@[p].cmdline@),
    decreases n,
{
    let before = rows::instance_hays(v, n - 1);
    let own = rows::args_of(v[n - 1].processes@);
    let all = rows::instance_hays(v, n);
    let s = v[i].processes@[p].cmdline@;
    if i == n - 1 {
        law_a_search_sees_every_command_line(v[i].processes@, p);
        lemma_within_longer(own, s, before, Seq::empty());
        assert(all =~= before + own + Seq::<char>::empty());
    } else {
        lemma_instance(v, i, p, n - 1);
        lemma_within_longer(before, s, Seq::empty(), own);
        assert(all =~= Seq::<char>::empty() + before + own);
    }
}

/// A search of a process sees its name and its own arguments.
pub proof fn law_a_search_sees_a_process(name: Seq<char>, p: ProcNode)
    ensures
        within(rows::process_hay(name, p), name),
        within(rows::process_hay(name, p), p.cmdline@),
{
    let all = rows::process_hay(name, p);
    let below = rows::args_of(p.children@);
    assert(all =~= Seq::<char>::empty() + name + (seq!['\n'] + p.cmdline@ + below));
    assert(all =~= (name + seq!['\n']) + p.cmdline@ + below);
}

// ---------------------------------------------------------------------------
// Which rows there are
// ---------------------------------------------------------------------------

/// One more process is one more row, with its name and pid, and where it is
/// open the rows under it, one level in.
pub proof fn law_every_process_is_a_row(
    nodes: Seq<ProcNode>,
    open: Seq<Seq<char>>,
    depth: u16,
    prefix: Seq<char>,
    deep: bool,
)
    requires
        nodes.len() > 0,
        depth < u16::MAX,
    ensures
        ({
            let p = nodes.last();
            let id = prefix + "/p/"@ + text::decimal(p.pid as nat);
            let before = rows::process_lines(nodes.drop_last(), open, depth, prefix, deep);
            let all = rows::process_lines(nodes, open, depth, prefix, deep);
            let at = before.len() as int;
            &&& all.take(at) =~= before
            &&& all[at].id == id && all[at].depth == depth && all[at].metrics == p.metrics@
            &&& all[at].name == p.name@ + " ["@ + text::decimal(p.pid as nat) + "]"@
            &&& all[at].nproc == 1
            &&& all[at].expandable <==> p.children@.len() > 0
            &&& !open.contains(id) ==> all.len() == at + 1
            &&& open.contains(id) ==> all.skip(at + 1) =~= rows::process_lines(
                p.children@,
                open,
                (depth + 1) as u16,
                id,
                deep,
            )
        }),
{
}

/// An entry of a folder is a row with its title, its count and its weight, and
/// where it is open its containers and then its instances follow, one level
/// in.
pub proof fn law_every_entry_is_a_row(
    v: Seq<IdentNode>,
    n: int,
    open: Seq<Seq<char>>,
    depth: u16,
    prefix: Seq<char>,
    deep: bool,
)
    requires
        0 <= n < v.len(),
        depth < u16::MAX,
    ensures
        ({
            let x = v[n];
            let id = prefix + "/"@ + x.id@;
            let before = rows::ident_lines(v, n, open, depth, prefix, deep);
            let all = rows::ident_lines(v, n + 1, open, depth, prefix, deep);
            let at = before.len() as int;
            let d = (depth + 1) as u16;
            &&& all.take(at) =~= before
            &&& all[at].id == id && all[at].depth == depth && all[at].name == x.title@
            &&& all[at].nproc == x.nproc && all[at].metrics == x.metrics@
            &&& !open.contains(id) ==> all.len() == at + 1
            &&& open.contains(id) ==> all.skip(at + 1) =~= rows::member_lines(
                x.containers@,
                x.containers@.len() as int,
                open,
                d,
                id,
                deep,
            ) + rows::instance_lines(
                x.instances@,
                x.instances@.len() as int,
                open,
                d,
                id,
                deep,
            )
        }),
{
}

/// A container and an instance of an entry are rows of their own weight.
pub proof fn law_containers_and_instances_are_rows(
    m: Seq<MemberContainer>,
    i: Seq<InstanceNode>,
    n: int,
    open: Seq<Seq<char>>,
    depth: u16,
    prefix: Seq<char>,
    deep: bool,
)
    ensures
        0 <= n < m.len() ==> {
            let at = rows::member_lines(m, n, open, depth, prefix, deep).len() as int;
            let row = rows::member_lines(m, n + 1, open, depth, prefix, deep)[at];
            &&& row.id == prefix + "/m/"@ + m[n].id@ && row.name == m[n].title@
            &&& row.nproc == m[n].nproc && row.metrics == m[n].metrics@ && row.depth == depth
        },
        0 <= n < i.len() ==> {
            let at = rows::instance_lines(i, n, open, depth, prefix, deep).len() as int;
            let row = rows::instance_lines(i, n + 1, open, depth, prefix, deep)[at];
            &&& row.id == prefix + "/i/"@ + i[n].key@ && row.name == i[n].key@
            &&& row.nproc == i[n].nproc && row.metrics == i[n].metrics@ && row.depth == depth
        },
{
}

/// A folder's row counts its entries, weighs what they weigh, and is followed
/// by them where it is open.
pub proof fn law_a_folder_is_its_entries(
    v: Seq<IdentNode>,
    open: Seq<Seq<char>>,
    depth: u16,
    id: Seq<char>,
    title: Seq<char>,
    deep: bool,
)
    requires
        depth < u16::MAX,
    ensures
        ({
            let all = rows::folder_lines(v, open, depth, id, title, deep);
            &&& all[0].id == id && all[0].depth == depth
            &&& all[0].name == title + " ("@ + text::decimal(v.len()) + ")"@
            &&& all[0].nproc == types::count_of(v)
            &&& all[0].metrics == types::weight_of(types::row_weights(v))
            &&& all[0].expandable <==> v.len() > 0
            &&& !open.contains(id) ==> all.len() == 1
            &&& open.contains(id) ==> all.skip(1) =~= rows::ident_lines(
                v,
                v.len() as int,
                open,
                (depth + 1) as u16,
                id,
                deep,
            )
        }),
{
}

/// A closed user is one row; an open one with its folders closed is followed
/// by the applications, the services and the containers, in this order.
pub proof fn law_a_users_rows(u: UserNode, open: Seq<Seq<char>>, deep: bool)
    ensures
        ({
            let id = "user:"@ + text::decimal(u.uid as nat);
            let all = rows::user_lines(u, open, deep);
            &&& all[0].id == id && all[0].name == u.name@ && all[0].depth == 1
            &&& all[0].nproc == types::user_count(u) && all[0].metrics == types::user_weight(u)
            &&& !open.contains(id) ==> all.len() == 1
            &&& open.contains(id) && !open.contains(id + "/apps"@) && !open.contains(
                id + "/services"@,
            ) && !open.contains(id + "/containers"@) ==> {
                &&& all.len() == 4
                &&& all[1].id == id + "/apps"@ && all[1].nproc == types::count_of(u.applications@)
                &&& all[2].id == id + "/services"@ && all[2].nproc == types::count_of(
                    u.user_services@,
                )
                &&& all[3].id == id + "/containers"@ && all[3].nproc == types::count_of(
                    u.containers@,
                )
            }
        }),
{
}

/// The first row is the machine, with all it weighs; closed, it is the only
/// one.
pub proof fn law_the_first_row_is_the_machine(t: HostTree, open: Seq<Seq<char>>, deep: bool)
    ensures
        ({
            let all = rows::tree_lines(t, open, deep);
            &&& all[0].id == "host"@ && all[0].depth == 0 && all[0].name == "Host"@
            &&& all[0].nproc == types::tree_count(t) && all[0].metrics == types::tree_weight(t)
            &&& !open.contains("host"@) ==> all.len() == 1
        }),
{
}

/// Where the machine is open, its users come first, then its containers, then
/// the system.
pub proof fn law_the_order_of_the_tree(t: HostTree, open: Seq<Seq<char>>, deep: bool)
    requires
        open.contains("host"@),
    ensures
        ({
            let all = rows::tree_lines(t, open, deep);
            let users = rows::users_lines(t.users@, t.users@.len() as int, open, deep);
            let boxes = rows::folder_lines(
                t.containers@,
                open,
                1,
                "host/containers"@,
                "Containers"@,
                deep,
            );
            let system = rows::folder_lines(t.system@, open, 1, "host/system"@, "System"@, deep);
            let m = 1 + users.len() as int;
            let n = m + boxes.len() as int;
            &&& all.len() == n + system.len()
            &&& all.subrange(1, m) =~= users
            &&& all.subrange(m, n) =~= boxes
            &&& all.skip(n) =~= system
        }),
{
}

/// Every user's rows stand in the order of the users.
pub proof fn law_users_in_their_order(users: Seq<UserNode>, n: int, open: Seq<Seq<char>>, deep: bool)
    requires
        0 <= n < users.len(),
    ensures
        rows::users_lines(users, n + 1, open, deep) == rows::users_lines(users, n, open, deep)
            + rows::user_lines(users[n], open, deep),
{
}

/// A search is offered a row's text only where one is asked for.
pub proof fn law_text_is_given_where_it_is_asked_for(p: ProcNode, depth: u16, prefix: Seq<char>)
    ensures
        rows::process_line(p, depth, prefix, false).search is None,
        rows::process_line(p, depth, prefix, true).search is Some,
        within(rows::process_line(p, depth, prefix, true).search->0, p.cmdline@),
{
    law_a_search_sees_a_process(rows::process_title(p), p);
}

} // verus!
