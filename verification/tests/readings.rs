//! Rates read per network namespace and per cgroup, and how rows add up.
use heft::containers::{ContainerIndex, HostConfig, Inspect, ListItem};
use heft::gpu::scan;
use heft::net;
use heft::net::{Flow, Rates, Sample};
use heft::proc;
use heft::proc::due::Due;
use heft::proc::record;
use heft::proc::record::File;
use heft::psi::{Stall, Stalls};
use heft::rules::ruleset::Rules;
use heft::table::Table;
use heft::types::{
    GpuCounters, HostTree, IdentNode, InstanceNode, MemberContainer, Metrics, ProcNode, Process, UserNode,
};

const DEV: &str = "Inter-|   Receive                    |  Transmit
 face |bytes    packets errs drop fifo frame compressed multicast|bytes    packets errs drop fifo colls carrier compressed
    lo: 47332844   1000    0    0    0     0          0         0 47332844   1000    0    0    0     0       0          0
  eth0: 26295295    500    0    0    0     0          0         0  1048576    200    0    0    0     0       0          0
  eth1:     1024      1    0    0    0     0          0         0      512      1    0    0    0     0       0          0
";

#[test]
fn loopback_excluded_and_interfaces_summed() {
    assert_eq!(net::parse_dev(DEV), (26_295_295 + 1024, 1_048_576 + 512));
    assert_eq!(net::parse_dev("Inter-|  Receive | Transmit\n"), (0, 0));
}

#[test]
fn restart_and_regression_discard_the_interval() {
    let a = Sample { pid: 10, rx: 100, tx: 200 };
    assert_eq!(net::delta(None, a), None);
    let grown = Sample { rx: 300, tx: 400, ..a };
    // Two hundred bytes each way: a hundred a second over two seconds.
    let flow = net::delta(Some(&a), grown).unwrap();
    assert_eq!((flow.rx as f64 / 2.0, flow.tx as f64 / 2.0), (100.0, 100.0));
    // Same id, new pid: a restarted container's namespace starts at zero.
    let restarted = Sample { pid: 11, rx: 5, tx: 5 };
    assert_eq!(net::delta(Some(&a), restarted), None);
    assert_eq!(net::delta(Some(&a), Sample { rx: 1, ..a }), None);
}

fn index(mode: &str) -> ContainerIndex {
    let id = "0123456789abcdef".to_string();
    let mut inspects: Table<Inspect> = Table::new();
    inspects.insert(
        id.clone(),
        Inspect {
            host_config: Some(HostConfig { network_mode: Some(mode.into()) }),
            ..Inspect::default()
        },
    );
    ContainerIndex::from_list(
        &[ListItem {
            id,
            names: vec!["/probe".into()],
            labels: None,
            state: Some("running".into()),
        }],
        &inspects,
        &Table::new(),
        &Rules::from_files(Vec::new()),
    )
}

fn proc_in(pid: u32, cgroup: &str) -> Process {
    Process { pid, cgroup: cgroup.into(), ..Process::default() }
}

#[test]
fn only_a_scope_member_of_a_namespaced_container_is_read() {
    let scope = "0::/system.slice/docker-0123456789abcdef.scope";
    let procs = vec![
        // Billed to the container but running in the root namespace: the
        // shim's cgroup is docker.service, not the container scope.
        proc_in(9, "0::/system.slice/docker.service"),
        proc_in(12, scope),
        proc_in(40, scope),
    ];
    let pids = net::netns_pids(&index("bridge"), &procs);
    assert_eq!(pids.entries, vec![("0123456789abcdef".to_string(), 12)]);
    // --network=host shares the root namespace; nothing is read.
    assert!(net::netns_pids(&index("host"), &procs).entries.is_empty());
}

fn ident(id: &str, member: &str) -> IdentNode {
    IdentNode {
        id: id.into(),
        title: id.into(),
        nproc: 1,
        metrics: Metrics::default(),
        instances: Vec::new(),
        containers: vec![MemberContainer {
            id: member.into(),
            title: member.into(),
            nproc: 1,
            metrics: Metrics::default(),
            processes: Vec::new(),
        }],
    }
}

#[test]
fn only_container_rows_are_billed() {
    let mut rates = Rates::new();
    rates.by_ident.insert("supabase:demo".into(), Flow { rx: 10, tx: 20 });
    rates.by_member.insert("supabase_db_demo".into(), Flow { rx: 10, tx: 20 });
    let mut tree = HostTree {
        users: vec![UserNode {
            uid: 1000,
            name: "u".into(),
            applications: vec![ident("supabase:demo", "supabase_db_demo")],
            user_services: Vec::new(),
            containers: vec![ident("supabase:demo", "supabase_db_demo")],
        }],
        ..HostTree::default()
    };
    rates.apply(&mut tree);
    let user = &tree.users[0];
    let c = &user.containers[0];
    assert_eq!(c.metrics.net_rx, Some(10));
    assert_eq!(c.containers[0].metrics.net_tx, Some(20));
    // An identity that is not under Containers never carries a rate, even
    // when it happens to share the key.
    let app = &user.applications[0];
    assert_eq!(app.metrics.net_rx, None);
    assert_eq!(app.containers[0].metrics.net_rx, None);
}

#[test]
fn nothing_above_a_container_accumulates_a_rate() {
    let mut m = Metrics { net_rx: Some(1), net_tx: Some(2), ..Metrics::default() };
    let mut sum = Metrics::default();
    sum.accumulate(&m);
    assert_eq!(sum.net_rx, None);
    assert_eq!(sum.net_tx, None);
    m.accumulate(&Metrics::default());
    assert_eq!(m.net_rx, Some(1));
}

#[test]
fn a_rate_that_belongs_to_one_namespace_or_cgroup_is_never_summed() {
    let with = |v: u64| Metrics {
        pss_bytes: Some(4),
        d_state_procs: 1,
        net_rx: Some(v),
        net_tx: Some(v),
        cpu_stall: Some(v),
        io_stall: Some(v),
        mem_stall: Some(v),
        ..Metrics::default()
    };
    let mut folder = with(10);
    folder.accumulate(&with(20));
    assert_eq!(folder.pss_bytes, Some(8), "quantities still add up");
    // D is a count of processes, so it rolls up the way PSS does.
    assert_eq!(folder.d_state_procs, 2, "a count still adds up");
    for (name, got) in [
        ("net_rx", folder.net_rx),
        ("net_tx", folder.net_tx),
        ("cpu_stall", folder.cpu_stall),
        ("io_stall", folder.io_stall),
        ("mem_stall", folder.mem_stall),
    ] {
        assert_eq!(got, Some(10), "{name} was summed into its parent");
    }
}

fn leaf(pid: u32) -> ProcNode {
    ProcNode {
        pid,
        name: format!("p{pid}"),
        cmdline: String::new(),
        metrics: Metrics::default(),
        children: Vec::new(),
    }
}

fn row(id: &str, pids: &[u32]) -> IdentNode {
    IdentNode {
        id: id.into(),
        title: id.into(),
        nproc: pids.len() as u32,
        metrics: Metrics::default(),
        instances: vec![InstanceNode {
            key: "1".into(),
            nproc: pids.len() as u32,
            metrics: Metrics::default(),
            processes: pids.iter().copied().map(leaf).collect(),
        }],
        containers: Vec::new(),
    }
}

#[test]
fn multi_cgroup_row_takes_the_max_some() {
    let mut rates: Table<Stall> = Table::new();
    rates.insert("/a".to_string(), Stall { cpu: 100_000, io: 0, mem: 0 });
    rates.insert("/b".to_string(), Stall { cpu: 400_000, io: 0, mem: 0 });
    let stalls = Stalls { rates };
    let procs = vec![proc_in(1, "0::/a"), proc_in(2, "0::/b"), proc_in(3, "0::/c")];
    let mut tree = HostTree {
        system: vec![row("multi", &[1, 2]), row("solo", &[1]), row("none", &[3])],
        ..HostTree::default()
    };
    stalls.apply(&mut tree, &procs, &Table::new());
    // Of a one-second interval, 40% and 10%.
    let pct = |m: &Metrics| m.cpu_stall.map(|us| us as f64 / 10_000.0);
    assert_eq!(pct(&tree.system[0].metrics), Some(40.0));
    assert_eq!(pct(&tree.system[1].metrics), Some(10.0));
    assert_eq!(pct(&tree.system[2].metrics), None, "a cgroup nothing was read of");
}

// ---------------------------------------------------------------------------
// One process of a sample
// ---------------------------------------------------------------------------

const STAT: &str = "10 (my app) D 1 10 10 0 -1 4194304 91 0 0 0 30 40 0 0 25 5 17 0 221093059 236335104 474 18446744073709551615 94000000000000 94000000100000 140730000000000";

fn file_of(f: File) -> Option<Vec<u8>> {
    let text = match f {
        File::Stat => STAT,
        File::Exe => "/usr/bin/my app (deleted)",
        File::Status => "Name:\tmy app\nUid:\t1000\t0\t0\t0\n",
        File::Cgroup => "0::/user.slice\n",
        File::Cmdline => "my\0app\0",
        File::Statm => "100 50 10 1 0 1 0\n",
        File::SmapsRollup => "Rss: 200 kB\nPss: 123 kB\nSwapPss: 7 kB\n",
        File::Io => "read_bytes: 11\nwrite_bytes: 22\n",
    };
    Some(text.as_bytes().to_vec())
}

fn no_gpu(_: Option<Vec<u32>>, _: Option<u32>) -> (GpuCounters, Vec<u32>, Option<u32>) {
    (GpuCounters::default(), Vec::new(), Some(3))
}

#[test]
fn a_new_process_is_read_in_full() {
    let p = record::read_pid(10, true, true, None, 4096, file_of, || None, no_gpu).unwrap();
    assert_eq!((p.pid, p.ppid, p.uid, p.comm.as_str()), (10, 1, 1000, "my app"));
    assert_eq!(p.exe.as_deref(), Some("/usr/bin/my app"));
    assert_eq!(p.cmdline, ["my", "app"]);
    assert_eq!(p.cgroup, "0::/user.slice");
    assert!(p.d_state && !p.kthread);
    assert_eq!((p.rss_pages, p.pss_kb, p.swap_pss_kb), (Some(50), Some(123), Some(7)));
    assert_eq!((p.read_bytes, p.write_bytes), (Some(11), Some(22)));
    assert_eq!((p.walks, p.fd_count, p.fd_skips), (0, Some(3), 0));
    // What the kernel names stands before the status file.
    let p = record::read_pid(10, false, true, None, 4096, file_of, || Some((7, 99)), no_gpu)
        .unwrap();
    assert_eq!((p.uid, p.cgroup_id), (7, Some(99)));
    assert_eq!(p.pss_kb, None, "the shares were not asked for");
}

#[test]
fn a_process_that_cannot_be_read_is_left_out() {
    assert!(record::read_pid(10, true, true, None, 4096, |_| None, || None, no_gpu).is_none());
    let torn = |f| if f == File::Stat { Some(b"10 my app".to_vec()) } else { file_of(f) };
    assert!(record::read_pid(10, true, true, None, 4096, torn, || None, no_gpu).is_none());
    // Anything less than that costs only its own figures.
    let bare = |f| if f == File::Stat { file_of(f) } else { None };
    let p = record::read_pid(10, true, true, None, 4096, bare, || None, no_gpu).unwrap();
    assert_eq!((p.uid, p.exe, p.rss_pages, p.pss_kb), (0, None, None, None));
    assert!(p.cmdline.is_empty() && p.cgroup.is_empty());
}

#[test]
fn an_old_process_keeps_who_it_is() {
    let first = record::read_pid(10, true, true, None, 4096, file_of, || None, no_gpu).unwrap();
    let before = Process { walks: 5, ..first };
    // On a sixth walk of pid 10 nothing is due: who it is stays as it was,
    // though the files say otherwise.
    let moved = |f| match f {
        File::Cgroup => Some(b"0::/elsewhere".to_vec()),
        File::Exe => Some(b"/usr/bin/other".to_vec()),
        _ => file_of(f),
    };
    let p =
        record::read_pid(10, false, true, Some(&before), 4096, moved, || None, no_gpu).unwrap();
    assert_eq!(p.walks, 6);
    assert_eq!(p.cgroup, "0::/user.slice");
    assert_eq!(p.exe.as_deref(), Some("/usr/bin/my app"));
    assert_eq!(p.pss_kb, Some(123), "the shares of before");
    // On a tenth it is read again.
    let due = Process { walks: 9, ..before };
    let p = record::read_pid(10, false, true, Some(&due), 4096, moved, || None, no_gpu).unwrap();
    assert_eq!(p.cgroup, "0::/elsewhere");
    assert_eq!(p.exe.as_deref(), Some("/usr/bin/other"));
}

#[test]
fn a_kernel_thread_has_no_other_files() {
    let stat = "2 (kthreadd) S 0 0 0 0 -1 2129984 0 0 0 0 1 2 0 0 20 0 1 0 5 0 0";
    let only = |f| match f {
        File::Stat => Some(stat.as_bytes().to_vec()),
        other => panic!("{other:?} was read"),
    };
    let p = record::read_pid(
        2,
        true,
        true,
        None,
        4096,
        only,
        || panic!("the kernel was asked"),
        |_, _| panic!("the devices were asked"),
    )
    .unwrap();
    assert!(p.kthread);
    assert_eq!((p.uid, p.rss_pages, p.pss_kb), (0, Some(0), None));
}

#[test]
fn every_descriptor_is_read_only_where_the_graphics_ones_say_nothing() {
    let drm = |id: u32, kb: u32| {
        format!(
            "drm-driver:\tamdgpu\ndrm-client-id:\t{id}\ndrm-resident-vram:\t{kb} KiB\n"
        )
    };
    let found = scan::read_pid(
        true,
        None,
        None,
        |_| Some((vec![4], 9)),
        |fds| vec![drm(fds[0], 2)],
        || panic!("all were read"),
    );
    assert_eq!(found.0.vram_bytes, Some(2048));
    assert_eq!((found.1, found.2), (vec![4], Some(9)));
    let all = scan::read_pid(
        true,
        Some(vec![5]),
        None,
        |_| panic!("the table was looked through"),
        |_| Vec::new(),
        || vec![drm(1, 1), drm(2, 3)],
    );
    assert_eq!(all.0.vram_bytes, Some(4096));
    assert_eq!((all.1, all.2), (vec![5], None));
    let none = scan::read_pid(true, None, None, |_| None, |_| vec![drm(1, 1)], Vec::new);
    assert_eq!((none.0, none.1, none.2), (GpuCounters::default(), Vec::new(), None));
}

#[test]
fn what_is_due_at_a_sample() {
    let scope = "0::/system.slice/docker-0123456789abcdef.scope";
    let none: Vec<Process> = Vec::new();
    let one = vec![proc_in(5, scope)];
    let mut due = Due::new(5_000_000_000, &none, 0);
    assert!(due.wants_pss(false, 0), "never read");
    assert!(!due.wants_pss(false, 4_999_999_999));
    assert!(due.wants_pss(false, 5_000_000_000));
    assert!(due.wants_pss(true, 5_000_000_001), "forced");
    assert!(!due.relists(&none, false, 1));
    assert!(due.relists(&one, false, 2), "a scope came");
    assert!(!due.relists(&one, false, 3));
    assert!(due.relists(&one, true, 4), "an answer is owed");
    assert!(due.relists(&one, false, 4 + proc::CONTAINER_RELIST), "the list is old");
}
