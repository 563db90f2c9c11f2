//! What goes through the network of a container, told by the lines its
//! namespace counts.
use vstd::prelude::*;

use crate::containers::{IndexView, InfoView};
use crate::net;
use crate::net::{Flow, Gathered, Rates, Sample};
use crate::text::laws::lacks;
use crate::types::{IdentNode, Process, UserNode, Weight};
use crate::{identity, text};

verus! {

/// A line of an interface counts what was received in its first number and
/// what was sent in its ninth; the loop counts nothing.
pub proof fn law_a_line_counts_both_ways(
    gap: Seq<char>,
    name: Seq<char>,
    rest: Seq<char>,
    rx: u64,
    tx: u64,
)
    requires
        forall|k: int| 0 <= k < gap.len() ==> text::is_space(#[trigger] gap[k]),
        name.len() > 0,
        !text::is_space(name[0]),
        !text::is_space(name.last()),
        lacks(gap, ':'),
        lacks(name, ':'),
        text::words(rest).len() > 8,
        text::words(rest)[0] == text::decimal(rx as nat),
        text::words(rest)[8] == text::decimal(tx as nat),
    ensures
        name != "lo"@ ==> net::line_flow(gap + name + seq![':'] + rest) == Some(Flow { rx, tx }),
        name == "lo"@ ==> net::line_flow(gap + name + seq![':'] + rest) is None,
{
    let head = gap + name;
    assert forall|k: int| 0 <= k < head.len() implies #[trigger] head[k] != ':' by {
        if k < gap.len() {
            assert(head[k] == gap[k]);
        } else {
            assert(head[k] == name[k - gap.len()]);
        }
    }
    text::laws::law_on_either_side_of_the_first(head, ':', rest);
    text::laws::law_trimmed(gap, name, Seq::empty());
    assert(gap + name + Seq::<char>::empty() =~= head);
    text::laws::law_numbers_are_read_back(rx as nat, u64::MAX as nat);
    text::laws::law_numbers_are_read_back(tx as nat, u64::MAX as nat);
}

/// The interfaces of a namespace add up, each way on its own.
pub proof fn law_interfaces_add_up(lines: Seq<Seq<char>>, n: int, f: Flow)
    requires
        0 <= n < lines.len(),
        net::line_flow(lines[n]) == Some(f),
        net::flow_upto(lines, n).rx + f.rx <= u64::MAX,
        net::flow_upto(lines, n).tx + f.tx <= u64::MAX,
    ensures
        net::flow_upto(lines, n + 1).rx == net::flow_upto(lines, n).rx + f.rx,
        net::flow_upto(lines, n + 1).tx == net::flow_upto(lines, n).tx + f.tx,
{
}

/// What went through a namespace is what its counters went, each way on its
/// own; nothing is known where another process is read, or a counter went
/// back.
pub proof fn law_a_flow_is_what_the_counters_went(p: Sample, cur: Sample)
    ensures
        net::flow_between(None, cur) is None,
        net::flow_between(Some(p), cur) is Some <==> p.pid == cur.pid && p.rx <= cur.rx && p.tx
            <= cur.tx,
        net::flow_between(Some(p), cur) matches Some(f) ==> f.rx + p.rx == cur.rx && f.tx + p.tx
            == cur.tx,
{
}

/// A process stands for the namespace of the container whose scope it runs in,
/// where the container has one of its own.
pub proof fn law_whose_namespace_it_is(idx: IndexView, p: Process)
    ensures
        net::namespace_of(idx, p) matches Some(id) ==> {
            let scope = identity::container_scope(p.cgroup@);
            scope is Some && idx.find(scope->0) is Some && idx.find(scope->0)->0.own_netns
                && idx.find(scope->0)->0.id == id
        },
        ({
            let scope = identity::container_scope(p.cgroup@);
            scope is Some && idx.find(scope->0) is Some && idx.find(scope->0)->0.own_netns
                ==> net::namespace_of(idx, p) == Some(idx.find(scope->0)->0.id)
        }),
{
}

/// What went through a container is added to its row and, where the row is a
/// project's, to the container's own; nothing else changes.
pub proof fn law_a_flow_is_billed_to_its_row(
    g: Gathered,
    prev: Map<Seq<char>, Sample>,
    info: InfoView,
    id: Seq<char>,
    cur: Sample,
    other: Seq<char>,
)
    requires
        prev.dom().contains(id),
        prev[id].pid == cur.pid,
        prev[id].rx <= cur.rx,
        prev[id].tx <= cur.tx,
    ensures
        ({
            let r = net::gather(g, prev, info, id, cur);
            let (rx, tx) = (cur.rx - prev[id].rx, cur.tx - prev[id].tx);
            let key = info.ident_key;
            &&& r.samples.dom().contains(id) && r.samples[id] == cur
            &&& r.by_ident.dom().contains(key)
            &&& !g.by_ident.dom().contains(key) ==> r.by_ident[key].rx == rx && r.by_ident[key].tx
                == tx
            &&& g.by_ident.dom().contains(key) && g.by_ident[key].rx + rx <= u64::MAX
                && g.by_ident[key].tx + tx <= u64::MAX ==> r.by_ident[key].rx == g.by_ident[key].rx
                + rx && r.by_ident[key].tx == g.by_ident[key].tx + tx
            &&& other != key ==> net::opt_at(r.by_ident, other) == net::opt_at(g.by_ident, other)
            &&& info.member_name is None ==> r.by_member == g.by_member
            &&& info.member_name matches Some(name) ==> {
                &&& r.by_member.dom().contains(name)
                &&& !g.by_member.dom().contains(name) ==> r.by_member[name].rx == rx
                    && r.by_member[name].tx == tx
                &&& other != name ==> net::opt_at(r.by_member, other) == net::opt_at(
                    g.by_member,
                    other,
                )
            }
        }),
{
}

/// A row shows what came in and what went out in their own columns, and nothing
/// else of it changes.
pub proof fn law_each_way_has_its_column(w: Weight, f: Flow)
    ensures
        ({
            let r = net::with_flow(w, Some(f));
            &&& r.net_rx == Some(f.rx) && r.net_tx == Some(f.tx)
            &&& Weight { net_rx: w.net_rx, net_tx: w.net_tx, ..r } == w
        }),
        net::with_flow(w, None).net_rx is None && net::with_flow(w, None).net_tx is None,
{
}

/// The reading of a namespace carries the process it was read through and what
/// its file counts.
pub proof fn law_a_reading_is_of_its_process(
    idx: IndexView,
    prev: Map<Seq<char>, Sample>,
    pids: Seq<(String, u32)>,
    files: Seq<Option<Seq<char>>>,
    n: int,
    file: Seq<char>,
)
    requires
        0 <= n < pids.len(),
        idx.find(pids[n].0@) is Some,
        files[n] == Some(file),
    ensures
        ({
            let r = net::gathered_upto(idx, prev, pids, files, n + 1).samples;
            let lines = text::lines_of(file);
            &&& r.dom().contains(pids[n].0@)
            &&& r[pids[n].0@].pid == pids[n].1
            &&& r[pids[n].0@].rx == net::flow_upto(lines, lines.len() as int).rx
            &&& r[pids[n].0@].tx == net::flow_upto(lines, lines.len() as int).tx
        }),
{
}

/// A weight but for its traffic.
pub open spec fn untravelled(w: Weight) -> Weight {
    Weight { net_rx: None, net_tx: None, ..w }
}

/// Billing a row changes nothing of it but its traffic: what its own name
/// received and sent, and what the name of each of its containers did.
pub proof fn law_a_row_shows_its_own_traffic(
    a: IdentNode,
    b: IdentNode,
    by_ident: Map<Seq<char>, Flow>,
    by_member: Map<Seq<char>, Flow>,
    k: int,
)
    requires
        net::billed_row(a, b, by_ident, by_member),
        0 <= k < a.containers@.len(),
    ensures
        b.id == a.id && b.title == a.title && b.nproc == a.nproc && b.instances == a.instances,
        untravelled(b.metrics@) == untravelled(a.metrics@),
        by_ident.dom().contains(a.id@) ==> b.metrics@.net_rx == Some(by_ident[a.id@].rx)
            && b.metrics@.net_tx == Some(by_ident[a.id@].tx),
        !by_ident.dom().contains(a.id@) ==> b.metrics@.net_rx is None && b.metrics@.net_tx is None,
        b.containers@.len() == a.containers@.len(),
        ({
            let (c, d) = (a.containers@[k], b.containers@[k]);
            &&& d.id == c.id && d.nproc == c.nproc && d.processes == c.processes
            &&& by_member.dom().contains(c.id@) ==> d.metrics@.net_rx == Some(by_member[c.id@].rx)
                && d.metrics@.net_tx == Some(by_member[c.id@].tx)
            &&& !by_member.dom().contains(c.id@) ==> d.metrics@.net_rx is None && d.metrics@.net_tx
                is None
        }),
{
    assert(net::billed_member(a.containers@[k], b.containers@[k], by_member));
}

/// Of a user only the containers are billed.
pub proof fn law_only_containers_have_traffic(a: UserNode, b: UserNode, rates: Rates)
    requires
        net::billed_user(a, b, rates),
    ensures
        b.uid == a.uid && b.name == a.name,
        b.applications == a.applications && b.user_services == a.user_services,
        b.containers@.len() == a.containers@.len(),
{
}

} // verus!
