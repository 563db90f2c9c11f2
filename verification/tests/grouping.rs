//! Where processes are billed.
use heft::classify;
use heft::config;
use heft::containers;
use heft::containers::{ContainerIndex, ContainerInfo, Inspect, InspectCache, ListItem};
use heft::group::assemble;
use heft::group::forest;
use heft::group::place::Place;
use heft::group::walk;
use heft::group::Ctx;
use heft::identity;
use heft::once;
use heft::proc::Passwd;
use heft::rules::ruleset::Rules;
use heft::rules::{
    Class, Classes, FolderName, LoadedFile, Match, Pat, Rule, RuleFile, Source, Stage, UnitFlag,
};
use heft::table::Table;
use heft::types;
use heft::types::{Folder, HostHeader, HostTree, IdentNode, ProcNode, Process, UserNode};
use heft::ui::filter::Filter;

// ---------------------------------------------------------------------------
// Rules to group by
// ---------------------------------------------------------------------------

fn one(s: &str) -> Pat {
    Pat::One(s.to_string())
}

fn many(v: &[&str]) -> Pat {
    Pat::Many(v.iter().map(|s| s.to_string()).collect())
}

fn rule(id: &str, test: Match) -> Rule {
    Rule {
        id: id.to_string(),
        test,
        identity: None,
        folder: None,
        fold_to: None,
        owner_uid: None,
        classes: Vec::new(),
        flags: Vec::new(),
    }
}

fn class(id: &str, test: Match, classes: Vec<Class>) -> Rule {
    Rule { classes, ..rule(id, test) }
}

fn file(stage: Stage, rules: Vec<Rule>) -> RuleFile {
    RuleFile { stage, disable: Vec::new(), rules, examples: Vec::new() }
}

fn built_in_table() -> Vec<(String, RuleFile)> {
    let units = file(
        Stage::Unit,
        vec![
            Rule {
                flags: vec![UnitFlag::Service],
                ..rule(
                    "service",
                    Match::All(vec![
                        Match::UnitSuffix(one(".service")),
                        Match::Not(Box::new(Match::UnitPrefix(one("app-")))),
                    ]),
                )
            },
            Rule {
                flags: vec![UnitFlag::Lying],
                ..rule(
                    "session-helper",
                    Match::Unit(many(&["flatpak-session-helper.service"])),
                )
            },
        ],
    );
    let classes = file(
        Stage::Class,
        vec![
            class(
                "launcher",
                Match::Any(vec![
                    Match::Name(many(&["bwrap", "flatpak", "zypak-helper", "zypak-wrapper"])),
                    Match::NameSuffix(one(".appimage")),
                ]),
                vec![Class::Launcher],
            ),
            class(
                "runner",
                Match::All(vec![Match::Name(one("bun")), Match::ArgPrefix(one("bunx"))]),
                vec![Class::Launcher],
            ),
            class(
                "generic",
                Match::Name(many(&["node", "node-24", "npm", "bun", "python3"])),
                vec![Class::Generic],
            ),
            class("shell", Match::Name(many(&["bash", "sh", "zsh"])), vec![Class::Shell]),
            class("terminal", Match::Name(many(&["konsole", "ghostty"])), vec![Class::Terminal]),
            class("noise", Match::Name(one("cat")), vec![Class::Noise]),
            class("renderer", Match::ArgPrefix(one("--type=")), vec![Class::Worker]),
            class(
                "crash-helper",
                Match::NamePrefix(many(&["crashhelper", "chrome_crashpad"])),
                vec![Class::CrashHelper, Class::Worker],
            ),
            class("manager", Match::Name(one("systemd")), vec![Class::NoAbsorb]),
            class(
                "runtime",
                Match::Name(many(&["runc", "containerd-shim"])),
                vec![Class::ContainerRuntime],
            ),
        ],
    );
    let trinity = file(
        Stage::Session,
        vec![Rule {
            identity: Some("tdeinit".to_string()),
            folder: Some(FolderName::UserServices),
            ..rule("trinity-session", Match::ExePrefix(one("/opt/trinity/bin/")))
        }],
    );
    let editors = file(
        Stage::App,
        vec![Rule {
            identity: Some("cursor".to_string()),
            ..rule("cursor", Match::ExeContains(one("/.config/Cursor/")))
        }],
    );
    vec![
        ("05-units.json".to_string(), units),
        ("10-classes.json".to_string(), classes),
        ("40-trinity.json".to_string(), trinity),
        ("70-editors.json".to_string(), editors),
    ]
}

fn built_in() -> Rules {
    let r = Rules::builtin(built_in_table());
    assert!(r.problems.is_empty(), "{:?}", r.problems);
    r
}

/// One file of the user's own above those that come with the program.
fn with_user(mine: RuleFile) -> Rules {
    let mut files = vec![LoadedFile {
        source: Source { rank: 0, label: "xdg".to_string() },
        name: "90-mine.json".to_string(),
        parsed: Ok(mine),
    }];
    for (name, rf) in built_in_table() {
        files.push(LoadedFile { source: Source::builtin(), name, parsed: Ok(rf) });
    }
    let r = Rules::from_files(files);
    assert!(r.problems.is_empty(), "{:?}", r.problems);
    r
}

// ---------------------------------------------------------------------------
// Names
// ---------------------------------------------------------------------------

fn p(comm: &str, cmd: &[&str]) -> Process {
    Process {
        comm: comm.into(),
        exe: Some(format!("/usr/bin/{comm}")),
        cmdline: cmd.iter().map(|s| (*s).to_string()).collect(),
        ..Process::default()
    }
}

#[test]
fn appimage_launcher_hint_ignores_case() {
    let rules = built_in();
    let cursor = Process {
        comm: "Cursor-x86_64.AppImage".into(),
        exe: Some("/opt/Cursor-x86_64.AppImage".into()),
        ..Process::default()
    };
    assert_eq!(
        classify::launcher_payload_hint(&cursor, &rules).as_deref(),
        Some("Cursor-x86_64"),
        "a launcher with no hint takes a top-level row of its own"
    );
    let named = |name: &str| Process {
        comm: name.into(),
        exe: Some(format!("/opt/{name}")),
        ..Process::default()
    };
    assert_eq!(
        classify::launcher_payload_hint(&named("Curseé.AppImage"), &rules).as_deref(),
        Some("Curseé")
    );
    assert_eq!(
        classify::launcher_payload_hint(&named("éAppImage"), &rules),
        None,
        "a suffix cut inside a multibyte character is a miss"
    );
}

#[test]
fn interactive_shells() {
    let shell = Classes(Classes::SHELL);
    assert!(classify::is_interactive_shell(&p("bash", &["-bash"]), shell));
    assert!(
        classify::is_interactive_shell(&p("bash", &["/bin/bash", "--posix"]), shell),
        "ghostty's login bash is interactive"
    );
    let wrapper = p("bash", &["bash", "/app/bin/zypak-wrapper", "/app/extra/vscode/code"]);
    assert!(!classify::is_interactive_shell(&wrapper, shell));
    assert!(!classify::is_interactive_shell(&p("bashful", &["bashful"]), Classes::default()));
}

#[test]
fn crash_helpers_name_their_app() {
    let rules = built_in();
    let helper = Classes(Classes::CRASH_HELPER | Classes::WORKER);
    let at = |comm: &str, exe: &str, argv: &[&str]| Process {
        comm: comm.into(),
        exe: Some(exe.into()),
        cmdline: argv.iter().map(|s| s.to_string()).collect(),
        ..Process::default()
    };
    assert_eq!(
        classify::crash_helper_app(
            &Process {
                ppid: 6475,
                ..at(
                    "crashhelper",
                    "/usr/lib64/firefox/crashhelper",
                    &["crashhelper", "12766", "9", "/tmp/", "11"],
                )
            },
            helper,
            &rules
        )
        .as_deref(),
        Some("firefox")
    );
    assert_eq!(
        classify::crash_helper_app(
            &p("chrome_crashpad_handler", &["/opt/cursor/chrome_crashpad_handler"]),
            helper,
            &rules
        )
        .as_deref(),
        Some("cursor"),
        "an install path still names the owning app"
    );
    for temp in [
        "/tmp/mount/chrome_crashpad_handler",
        "/tmp/.mount_cursorAb12Cd/chrome_crashpad_handler",
        "/run/user/1000/appimage/chrome_crashpad_handler",
    ] {
        assert_eq!(
            classify::crash_helper_app(
                &at("chrome_crashpad_handler", temp, &[temp]),
                helper,
                &rules
            ),
            None,
            "a temp mount directory is not an app identity: {temp}"
        );
    }
    let multibyte = "/tmp/mounté/chrome_crashpad_handler";
    assert_eq!(
        classify::crash_helper_app(
            &at("chrome_crashpad_handler", multibyte, &[multibyte]),
            helper,
            &rules
        )
        .as_deref(),
        Some("mounté"),
        "a prefix cut inside a multibyte character is a miss"
    );
    let nested = "/tmp/.mount_cursorIDenmC/usr/share/cursor/chrome_crashpad_handler";
    assert_eq!(
        classify::crash_helper_app(
            &Process { ppid: 6475, ..at("chrome_crashpad", nested, &[nested]) },
            helper,
            &rules
        )
        .as_deref(),
        Some("cursor"),
        "a nested owner under an AppImage mount still names the app"
    );
}

#[test]
fn launcher_payload_hints_through_bwrap() {
    let rules = built_in();
    let zypak = p(
        "bwrap",
        &[
            "bwrap",
            "--args",
            "72",
            "--",
            "/app/bin/zypak-helper",
            "child",
            "-",
            "/app/extra/vscode/code",
            "--type=zygote",
        ],
    );
    assert_eq!(classify::launcher_payload_hint(&zypak, &rules).as_deref(), Some("code"));
    assert_eq!(
        classify::launcher_payload_hint(
            &p("bwrap", &["/usr/bin/bwrap", "--", "/usr/bin/flatpak"]),
            &rules
        )
        .as_deref(),
        None
    );
}

#[test]
fn unescaping_reassembles_a_multibyte_character() {
    assert_eq!(identity::systemd_unescape(r"caf\xc3\xa9.service"), "café.service");
    assert_eq!(
        identity::systemd_unescape(r"app-\xe6\x97\xa5\xe6\x9c\xac.scope"),
        "app-日本.scope"
    );
    assert_eq!(identity::systemd_unescape(r"dev\x2ddisk.mount"), "dev-disk.mount");
    assert_eq!(identity::systemd_unescape("plain.service"), "plain.service");
    // A trailing partial escape is data, not a decode.
    assert_eq!(identity::systemd_unescape(r"trail\xc"), r"trail\xc");
    // Bytes that are no text become replacement characters.
    assert_eq!(identity::systemd_unescape(r"a\xffb"), "a\u{fffd}b");
}

#[test]
fn docker_and_unescape() {
    let cg = "0::/system.slice/docker-31c4735b8670a5b31ca1894f141c5cff4a2f5ed814214c9ccd4dc2a3ec0cc94c.scope";
    assert_eq!(identity::docker_scope_id(cg).unwrap().len(), 64);
    assert_eq!(
        identity::systemd_unescape(r"app-gnome-vivaldi\x2dstable-1.scope"),
        "app-gnome-vivaldi-stable-1.scope"
    );
    assert!(identity::lying_unit("app-ghostty-surface-transient-1.scope"));
    assert!(identity::lying_unit("app-org.chromium.Chromium-1743723.scope"));
    assert!(identity::lying_unit("flatpak-session-helper.service"));
    assert!(identity::lying_unit("dbus-:1.2-org.gnome.Nautilus@250.service"));
    assert!(!identity::lying_unit("dbus-broker.service"));
    assert!(identity::is_user_service_unit("syncthing.service"));
    assert!(!identity::is_user_service_unit("app-com.mitchellh.ghostty.service"));
    assert!(identity::is_user_service_unit("org.gnome.Shell@user.service"));
}

// ---------------------------------------------------------------------------
// Containers
// ---------------------------------------------------------------------------

#[test]
fn supabase_project() {
    assert_eq!(containers::supabase_project_from_name("supabase_db_demo"), Some("demo"));
    let mut labels: Table<String> = Table::new();
    labels.insert("com.supabase.cli.project".to_string(), "demo".to_string());
    let (k, m) = containers::project_identity("supabase_db_demo", &Some(labels));
    assert_eq!(k, "supabase:demo");
    assert_eq!(m.as_deref(), Some("supabase_db_demo"));
    let (k, m) = containers::project_identity("spec-runner-7", &None);
    assert_eq!(k, "spec-runner-7");
    assert!(m.is_none());
}

fn runc(id: &str) -> Process {
    Process {
        comm: "runc".into(),
        cmdline: vec!["runc".into(), "-id".into(), id.into()],
        ..Process::default()
    }
}

fn info(id: &str) -> ContainerInfo {
    ContainerInfo {
        id: id.into(),
        ident_key: "x".into(),
        member_name: None,
        owner_uid: None,
        own_netns: false,
    }
}

#[test]
fn untrusted_helper_id_does_not_panic_or_index() {
    // 11 ASCII + U+00E9 (2 bytes) = 13 bytes; byte 12 is mid-character.
    let mid = "01234567890é";
    assert_eq!(mid.len(), 13);
    assert!(mid.get(..12).is_none());
    assert!(containers::helper_id(&runc(mid), true).is_none());
    assert!(containers::helper_id(&runc("zzzzzzzzzzzzz"), true).is_none());

    assert!(containers::id_key(mid).is_none());
    assert!(containers::id_key("zzzzzzzzzzzzz").is_none());

    let hex = "0123456789abcdef";
    let mut idx = ContainerIndex::new();
    idx.by_id.insert(containers::id_key(hex).unwrap(), info(hex));
    assert!(idx.get(hex).is_some());
    assert!(idx.get("0123456789AB").is_some(), "truncated, in another case");
    assert!(idx.get(mid).is_none());
    let mut short = ContainerIndex::new();
    short.by_id.insert(containers::id_key("0123456789ab").unwrap(), info("0123456789ab"));
    assert!(short.get(hex).is_some(), "a full id finds a row a truncated id keyed");
    assert_eq!(containers::helper_id(&runc(hex), true).as_deref(), Some(hex));
    assert!(containers::helper_id(&runc(hex), false).is_none());

    assert!(!containers::docker_get_path("/containers/0123456789ab\r\nHost: x/json"));
    assert!(!containers::docker_get_path(&format!("/containers/{mid}/json")));
    assert!(containers::docker_get_path("/containers/json"));
    assert!(containers::docker_get_path("/containers/0123456789ab/json"));
}

fn item(id: &str, state: Option<&str>) -> ListItem {
    ListItem { id: id.into(), names: vec![], labels: None, state: state.map(str::to_string) }
}

#[test]
fn live_ids_skip_exited_sort_and_lower() {
    let items = vec![
        item("BBBBBBBBBBBB", Some("running")),
        item("AAAAAAAAAAAA", Some("exited")),
        item("cccccccccccccccc", Some("dead")),
        item("aaaaaaaaaaaa", None),
    ];
    assert_eq!(
        containers::live_hex_ids(&items),
        vec!["aaaaaaaaaaaa".to_string(), "bbbbbbbbbbbb".to_string()]
    );
}

#[test]
fn inspect_cache_reuses_until_id_set_changes() {
    let mut cache = InspectCache::new();
    let mut fetches = 0;
    let a = "0123456789ab".to_string();
    let b = "0123456789cd".to_string();
    for id in cache.refresh(vec![a.clone(), b.clone()]) {
        fetches += 1;
        cache.store(id, Inspect::default());
    }
    assert_eq!(fetches, 2);
    for id in cache.refresh(vec![a.clone(), b.clone()]) {
        fetches += 1;
        cache.store(id, Inspect::default());
    }
    assert_eq!(fetches, 2);
    for id in cache.refresh(vec![b.clone()]) {
        fetches += 1;
        cache.store(id, Inspect::default());
    }
    assert_eq!(fetches, 3);
    assert!(!cache.inspects.has(&a));
    assert!(cache.inspects.has(&b));
    // An inspect the deadline skipped is fetched again on the next sample.
    cache.refresh(vec![a.clone(), b.clone()]);
    assert!(cache.inspects.entries.is_empty());
    for id in cache.refresh(vec![a, b]) {
        fetches += 1;
        cache.store(id, Inspect::default());
    }
    assert_eq!(fetches, 5);
}

/// The networks of an inspect as the daemon writes them.
fn inspect_of(text: &str) -> Inspect {
    let v: serde_json::Value = serde_json::from_str(text).unwrap();
    let word = |v: &serde_json::Value| v["IPAddress"].as_str().map(str::to_string);
    let network = v.get("NetworkSettings").map(|n| containers::NetworkSettings {
        ip: word(n),
        networks: n["Networks"].as_object().map(|m| {
            m.iter()
                .map(|(k, w)| {
                    (
                        k.clone(),
                        if w.is_null() { None } else { Some(containers::Network { ip: word(w) }) },
                    )
                })
                .collect()
        }),
    });
    Inspect { network, ..Inspect::default() }
}

#[test]
fn a_minimal_inspect_parses_and_yields_its_ips() {
    assert!(inspect_of("{}").ips().is_empty());
    let i = inspect_of(
        r#"{"Unknown":1,"NetworkSettings":{"IPAddress":"","Networks":{
                "bridge":{"IPAddress":"172.17.0.2","Gateway":"172.17.0.1"},"host":{},"none":null}}}"#,
    );
    assert_eq!(i.ips(), ["172.17.0.2"]);
}

#[test]
fn only_a_good_answer_has_a_body() {
    assert!(containers::http_2xx(b"HTTP/1.0 200 OK\r\n"));
    assert!(!containers::http_2xx(b"HTTP/1.0 404 Not Found\r\n"));
    assert_eq!(
        containers::response_body(b"HTTP/1.0 200 OK\r\nA: b\r\n\r\n[]").unwrap(),
        b"[]".to_vec()
    );
    assert!(containers::response_body(b"HTTP/1.0 500 No\r\n\r\n[]").is_err());
    assert!(containers::too_large(containers::MAX_RESPONSE + 1));
    assert!(containers::docker_request("/containers/json").is_some());
    assert!(containers::docker_request("/images/json").is_none());
}

// ---------------------------------------------------------------------------
// Placement
// ---------------------------------------------------------------------------

fn place_alone(p: Process) -> Place {
    let rules = built_in();
    let containers = ContainerIndex::new();
    let curr = vec![p];
    let ctx = Ctx::new(&containers, &rules, &curr);
    ctx.raw_place(0)
}

#[test]
fn cycle_path_still_bills_a_crash_helper_to_its_app() {
    let place = place_alone(Process {
        comm: "crashhelper".into(),
        exe: Some("/usr/lib64/firefox/crashhelper".into()),
        cmdline: vec!["crashhelper".into(), "12766".into()],
        uid: 1000,
        cgroup: "0::/user.slice/user-1000.slice/user@1000.service/app.slice".into(),
        ..Process::default()
    });
    assert_eq!(place.folder, Folder::Applications);
    assert_eq!(place.key, "firefox");
}

#[test]
fn a_vm_is_a_container_row_rather_than_root_s_application() {
    let place = |cgroup: &str, uid: u32| {
        place_alone(Process {
            comm: "qemu-system-x86".into(),
            exe: Some("/usr/bin/qemu-system-x86_64".into()),
            uid,
            cgroup: cgroup.into(),
            ..Process::default()
        })
    };
    let vm = place(r"0::/machine.slice/machine-qemu-3-fedora.scope/libvirt/emulator", 107);
    assert_eq!(vm.folder, Folder::Containers);
    assert_eq!(vm.key, "fedora");
    // Nothing here can say who owns it, so it is the machine's own.
    assert_eq!(vm.uid, None);
    // The slice alone is not a machine.
    assert_ne!(place("0::/machine.slice", 0).folder, Folder::Containers);
}

const CHAIN: u32 = 10_000;

/// Pid 1 is `root`, and pids 2 to `CHAIN` each run `link` as the child of the
/// pid before, all in one process group of one app scope.
fn chain(root: &str, link: &[&str]) -> Vec<Process> {
    (1..=CHAIN)
        .map(|pid| {
            let argv: Vec<String> = if pid == 1 {
                vec![root.into()]
            } else {
                link.iter().map(|&a| a.into()).collect()
            };
            Process {
                pid,
                ppid: pid - 1,
                pgrp: 1,
                uid: 1000,
                comm: argv[0].clone(),
                exe: Some(format!("/usr/bin/{}", argv[0])),
                cmdline: argv,
                cgroup: "0::/user.slice/user-1000.slice/user@1000.service/app.slice".into(),
                rss_pages: Some(1),
                ..Process::default()
            }
        })
        .collect()
}

fn passwd() -> Passwd {
    Passwd { text: "me:x:1000:1000::/home/me:/bin/sh\n".to_string() }
}

fn tree_with(curr: &Vec<Process>, index: &ContainerIndex, rules: &Rules) -> HostTree {
    let consts = HostHeader { nproc: 1, clk_tck: 100, page_size: 4096 };
    assemble::build_tree(
        curr,
        curr,
        1_000_000_000,
        &consts,
        0,
        0,
        HostTree::default(),
        index,
        rules,
        1000,
        &passwd(),
    )
}

fn tree_of(curr: &Vec<Process>) -> HostTree {
    tree_with(curr, &ContainerIndex::new(), &built_in())
}

fn placed(tree: &HostTree) -> u32 {
    tree.users.iter().map(types::user_nproc).sum()
}

#[test]
fn placing_a_deep_shell_chain_does_not_recurse_per_process() {
    let tree = tree_of(&chain("konsole", &["bash"]));
    assert_eq!(placed(&tree), CHAIN);
}

#[test]
fn placing_a_deep_worker_chain_does_not_recurse_per_process() {
    let tree = tree_of(&chain("cursor", &["cursor", "--type=renderer"]));
    assert_eq!(placed(&tree), CHAIN);
}

#[test]
fn placing_a_deep_launcher_chain_does_not_recurse_per_process() {
    let tree = tree_of(&chain("konsole", &["bwrap"]));
    assert_eq!(placed(&tree), CHAIN);
}

fn measure(nodes: &[ProcNode], depth: usize, max: &mut usize, count: &mut u64, rss: &mut u64) {
    for n in nodes {
        *max = (*max).max(depth);
        *count += 1;
        *rss += n.metrics.rss_bytes.unwrap_or(0);
        measure(&n.children, depth + 1, max, count, rss);
    }
}

#[test]
fn a_deep_process_chain_is_capped_without_losing_a_process() {
    let tree = tree_of(&chain("chain", &["chain"]));
    let ident = &tree.users[0].applications[0];
    assert_eq!(ident.nproc, CHAIN);
    let (mut max, mut count, mut rss) = (0, 0, 0);
    for inst in &ident.instances {
        measure(&inst.processes, 1, &mut max, &mut count, &mut rss);
    }
    assert_eq!(max, forest::MAX_PROC_DEPTH);
    assert_eq!(count, u64::from(CHAIN));
    assert_eq!(Some(rss), ident.metrics.rss_bytes);
}

fn keys(curr: &Vec<Process>, rules: &Rules) -> Vec<String> {
    let containers = ContainerIndex::new();
    let ctx = Ctx::new(&containers, rules, curr);
    walk::resolve_places(&ctx)
        .into_iter()
        .map(|p| p.map(|p| p.key).unwrap_or_default())
        .collect()
}

#[test]
fn a_worker_does_not_fold_onto_a_user_no_absorb_identity() {
    let at = |pid, ppid, argv: &[&str]| Process {
        pid,
        ppid,
        uid: 1000,
        comm: argv[0].into(),
        exe: Some(format!("/usr/bin/{}", argv[0])),
        cmdline: argv.iter().map(|&a| a.into()).collect(),
        cgroup: "0::/user.slice/user-1000.slice/user@1000.service/app.slice".into(),
        ..Process::default()
    };
    let curr = vec![at(1, 0, &["mgr"]), at(2, 1, &["cursor", "--type=renderer"])];
    assert_eq!(keys(&curr, &built_in())[1], "mgr");
    let rules = with_user(file(
        Stage::Class,
        vec![class("mgr", Match::Name(one("mgr")), vec![Class::NoAbsorb])],
    ));
    assert_eq!(keys(&curr, &rules)[1], "cursor");
}

#[test]
fn an_interpreter_under_an_app_named_interpreter_bills_to_that_app() {
    let scope = "0::/user.slice/user-1000.slice/user@1000.service/app.slice/app-cursor-9.scope";
    let at = |pid, ppid, exe: &str, argv: &[&str], cgroup: &str| Process {
        pid,
        ppid,
        uid: 1000,
        comm: argv[0].into(),
        exe: Some(exe.into()),
        cmdline: argv.iter().map(|&a| a.into()).collect(),
        cgroup: cgroup.into(),
        ..Process::default()
    };
    let curr = vec![
        at(
            1,
            0,
            "/usr/lib/systemd/systemd",
            &["systemd", "--user"],
            "0::/user.slice/user-1000.slice/user@1000.service/init.scope",
        ),
        at(
            2,
            1,
            "/home/u/.config/Cursor/User/globalStorage/agent/node",
            &["node", "cursor-agent"],
            scope,
        ),
        at(3, 2, "/usr/bin/node-24", &["npm", "exec", "shadcn@latest", "mcp"], scope),
        at(4, 1, "/usr/bin/bun", &["bun", "apps/server/src/main.ts"], scope),
        Process { pgrp: 5, ..at(5, 2, "/home/u/.local/bin/aider", &["aider"], scope) },
        Process { pgrp: 5, ..at(6, 1, "/usr/bin/wl-copy", &["wl-copy"], scope) },
    ];
    let placed = keys(&curr, &built_in());
    assert_eq!(placed[1], "cursor");
    assert_eq!(placed[2], "cursor");
    // Orphaned to the user manager, it still bills to its scope's app.
    assert_eq!(placed[3], "cursor");
    // Not an interpreter, so it bills to its process group's app instead.
    assert_eq!(placed[5], "aider");
}

#[test]
fn an_app_scope_that_names_a_process_in_it_owns_the_rest_of_that_scope() {
    let at = |pid, exe: &str, name: &str, cgroup: &str| Process {
        pid,
        ppid: 1,
        uid: 1000,
        comm: name.into(),
        exe: Some(exe.into()),
        cmdline: vec![name.into()],
        cgroup: cgroup.into(),
        ..Process::default()
    };
    let user = "0::/user.slice/user-1000.slice/user@1000.service/app.slice";
    let steam = format!("{user}/app-gnome-steam-9.scope");
    let browser = format!("{user}/app-com.vivaldi.Vivaldi-8.scope");
    let curr = vec![
        at(2, "/home/u/.local/share/Steam/steam", "steam", &steam),
        at(3, "/home/u/.local/share/Steam/libexec/srt-logger", "srt-logger", &steam),
        at(4, "/usr/bin/vivaldi-bin", "vivaldi-bin", &browser),
        at(5, "/home/u/.local/bin/aider", "aider", &browser),
    ];
    let placed = keys(&curr, &built_in());
    assert_eq!(placed[1], "steam");
    // The scope names a desktop id no process carries, so it names nothing.
    assert_eq!(placed[2], "vivaldi-bin");
    assert_eq!(placed[3], "aider");
}

// ---------------------------------------------------------------------------
// A small machine
// ---------------------------------------------------------------------------

const APP: &str = "0::/user.slice/user-1000.slice/user@1000.service/app.slice";

fn at(pid: u32, ppid: u32, exe: &str, argv: &[&str], cgroup: &str) -> Process {
    Process {
        pid,
        ppid,
        pgrp: pid as i32,
        uid: 1000,
        comm: argv[0].into(),
        exe: Some(exe.into()),
        cmdline: argv.iter().map(|&a| a.into()).collect(),
        cgroup: cgroup.into(),
        utime: 1,
        ..Process::default()
    }
}

fn world() -> Vec<Process> {
    vec![
        Process {
            pid: 2,
            kthread: true,
            comm: "kthreadd".into(),
            cgroup: "0::/".into(),
            ..Process::default()
        },
        at(
            10,
            1,
            "/usr/lib/systemd/systemd",
            &["systemd", "--user"],
            "0::/user.slice/user-1000.slice/user@1000.service/init.scope",
        ),
        at(20, 10, "/usr/bin/ghostty", &["ghostty"], APP),
        at(21, 20, "/usr/bin/bash", &["/bin/bash", "--posix"], APP),
        at(22, 20, "/usr/bin/bash", &["/bin/bash", "--posix"], APP),
        at(23, 22, "/home/me/.local/bin/aider", &["aider"], APP),
        at(30, 10, "/usr/bin/htop", &["htop"], APP),
        at(31, 10, "/app/extra/share/spotify/spotify", &["spotify"], APP),
        at(40, 10, "/usr/lib64/firefox/firefox", &["firefox"], APP),
        at(41, 10, "/usr/lib64/firefox/crashhelper", &["crashhelper", "40"], APP),
        at(50, 10, "/usr/bin/bwrap", &["bwrap", "--", "/app/bin/easyeffects"], APP),
        at(51, 50, "/app/bin/easyeffects", &["easyeffects"], APP),
        at(
            60,
            10,
            "/usr/bin/node-24",
            &["node-red"],
            "0::/user.slice/user-1000.slice/user@1000.service/app.slice/node-red.service",
        ),
        Process {
            pid: 70,
            ppid: 1,
            pgrp: 70,
            comm: "encoder".into(),
            exe: Some("/bin/encoder".into()),
            cmdline: vec!["encoder".into()],
            cgroup: "0::/system.slice/docker-0123456789abcdef.scope".into(),
            ..Process::default()
        },
    ]
}

fn index(rules: &Rules) -> ContainerIndex {
    let mut inspects: Table<Inspect> = Table::new();
    inspects.insert(
        "0123456789abcdef".to_string(),
        Inspect {
            mounts: vec![containers::Mount {
                kind: Some("bind".to_string()),
                source: Some("/home/me/data".to_string()),
            }],
            ..Inspect::default()
        },
    );
    let mut owners: Table<u32> = Table::new();
    owners.insert("/home/me/data".to_string(), 1000);
    ContainerIndex::from_list(
        &[ListItem {
            id: "0123456789abcdef".to_string(),
            names: vec!["/acme-encoder".to_string()],
            labels: None,
            state: Some("running".to_string()),
        }],
        &inspects,
        &owners,
        rules,
    )
}

fn small(rules: &Rules) -> HostTree {
    tree_with(&world(), &index(rules), rules)
}

fn titles(nodes: &[IdentNode]) -> Vec<String> {
    let mut v: Vec<String> = nodes.iter().map(|n| n.title.clone()).collect();
    v.sort();
    v
}

fn has(nodes: &[IdentNode], name: &str) -> bool {
    nodes.iter().any(|n| n.id == name || n.title == name)
}

fn walk_names(procs: &[ProcNode], out: &mut Vec<String>) {
    for p in procs {
        out.push(p.name.clone());
        walk_names(&p.children, out);
    }
}

fn proc_names(n: &IdentNode) -> Vec<String> {
    let mut v = Vec::new();
    for inst in &n.instances {
        walk_names(&inst.processes, &mut v);
    }
    v
}

fn user_of(tree: &HostTree, uid: u32) -> &UserNode {
    tree.users.iter().find(|u| u.uid == uid).unwrap_or_else(|| panic!("uid {uid}"))
}

#[test]
fn idle_interactive_bash_under_ghostty_bills_to_ghostty() {
    let tree = small(&built_in());
    let user = user_of(&tree, 1000);
    assert!(
        !has(&user.applications, "bash"),
        "idle --posix bash must not be an Applications row: {:?}",
        titles(&user.applications)
    );
    let ghostty = user.applications.iter().find(|n| n.id == "ghostty").expect("ghostty");
    assert!(
        proc_names(ghostty).iter().any(|n| n == "bash"),
        "idle bash must remain visible under ghostty: {:?}",
        proc_names(ghostty)
    );
}

#[test]
fn claude_under_bash_under_ghostty_owns_the_shell() {
    let tree = small(&built_in());
    let user = user_of(&tree, 1000);
    let aider = user.applications.iter().find(|n| n.id == "aider").expect("aider");
    let aider_procs = proc_names(aider);
    assert!(
        aider_procs.iter().any(|n| n == "bash"),
        "the launching bash bills to aider, not only ghostty: {aider_procs:?}"
    );
    assert!(
        has(&user.applications, "aider") && has(&user.applications, "ghostty"),
        "aider stays its own Applications row beside ghostty: {:?}",
        titles(&user.applications)
    );
}

#[test]
fn a_lone_crash_helper_under_a_launcher_bills_to_its_app() {
    let curr = vec![
        at(10, 1, "/usr/bin/bwrap", &["bwrap"], APP),
        at(11, 10, "/usr/lib64/firefox/crashhelper", &["crashhelper", "1"], APP),
    ];
    let tree = tree_of(&curr);
    let user = user_of(&tree, 1000);
    assert!(
        has(&user.applications, "firefox"),
        "expected the helper to bill to firefox, got: {:?}",
        titles(&user.applications)
    );
    assert!(
        !has(&user.applications, "crashhelper"),
        "a crash helper is never its own application row: {:?}",
        titles(&user.applications)
    );
}

fn pin_htop() -> RuleFile {
    file(
        Stage::Placement,
        vec![Rule {
            folder: Some(FolderName::UserServices),
            ..rule("pin-htop", Match::Identity(one("htop")))
        }],
    )
}

#[test]
fn one_placement_rule_moves_one_row_and_leaves_the_rest_alone() {
    let base = small(&built_in());
    let pinned = small(&with_user(pin_htop()));
    let (b, p) = (user_of(&base, 1000), user_of(&pinned, 1000));
    assert!(has(&b.applications, "htop") && !has(&b.user_services, "htop"));
    assert!(has(&p.user_services, "htop") && !has(&p.applications, "htop"));
    let drop_htop =
        |v: Vec<String>| -> Vec<String> { v.into_iter().filter(|t| t != "htop").collect() };
    assert_eq!(drop_htop(titles(&b.applications)), titles(&p.applications));
    assert_eq!(titles(&b.user_services), drop_htop(titles(&p.user_services)));
    assert_eq!(titles(&b.containers), titles(&p.containers));
    assert_eq!(titles(&base.containers), titles(&pinned.containers));
    assert_eq!(titles(&base.system), titles(&pinned.system));
}

fn fold_spotify() -> Rule {
    Rule {
        fold_to: Some("media".to_string()),
        ..rule("fold-spotify", Match::Identity(one("spotify")))
    }
}

#[test]
fn fold_bills_a_named_process_to_another_identity() {
    let tree = small(&with_user(file(Stage::Placement, vec![fold_spotify()])));
    let user = &user_of(&tree, 1000).applications;
    assert!(!has(user, "spotify"), "{:?}", titles(user));
    let media = user.iter().find(|n| n.id == "media").expect("media");
    assert!(proc_names(media).iter().any(|n| n == "spotify"), "{:?}", proc_names(media));
}

#[test]
fn a_pin_listed_before_a_fold_on_the_same_identity_hides_the_fold() {
    let pin = Rule {
        folder: Some(FolderName::UserServices),
        ..rule("pin-spotify", Match::Identity(one("spotify")))
    };
    let tree = small(&with_user(file(Stage::Placement, vec![pin, fold_spotify()])));
    let user = user_of(&tree, 1000);
    assert!(has(&user.user_services, "spotify"), "{:?}", titles(&user.user_services));
    assert!(!has(&user.applications, "media") && !has(&user.user_services, "media"));
}

#[test]
fn a_fold_rule_may_pin_its_target_in_the_same_rule() {
    let both = Rule { folder: Some(FolderName::UserServices), ..fold_spotify() };
    let tree = small(&with_user(file(Stage::Placement, vec![both])));
    let user = user_of(&tree, 1000);
    assert!(has(&user.user_services, "media"), "{:?}", titles(&user.user_services));
    assert!(!has(&user.applications, "media") && !has(&user.applications, "spotify"));
}

#[test]
fn a_user_app_rule_places_a_process_by_exe_prefix() {
    let music = Rule {
        identity: Some("music".to_string()),
        ..rule("music", Match::ExePrefix(one("/app/extra/share/spotify/")))
    };
    let tree = small(&with_user(file(Stage::App, vec![music])));
    let apps = &user_of(&tree, 1000).applications;
    assert!(!has(apps, "spotify"), "{:?}", titles(apps));
    let music = apps.iter().find(|n| n.id == "music").expect("music");
    assert!(proc_names(music).iter().any(|n| n == "spotify"), "{:?}", proc_names(music));
}

#[test]
fn a_user_session_rule_runs_before_the_crash_helper_and_an_app_rule_after_it() {
    let session = Rule {
        identity: Some("crash-reporter".to_string()),
        folder: Some(FolderName::UserServices),
        ..rule("reporter", Match::Name(one("crashhelper")))
    };
    let tree = small(&with_user(file(Stage::Session, vec![session])));
    let user = user_of(&tree, 1000);
    assert!(
        has(&user.user_services, "crash-reporter"),
        "a session rule beats the crash helper: {:?}",
        titles(&user.user_services)
    );
    let app = Rule {
        identity: Some("crash-reporter".to_string()),
        ..rule("reporter", Match::Name(one("crashhelper")))
    };
    let tree = small(&with_user(file(Stage::App, vec![app])));
    let user = user_of(&tree, 1000);
    assert!(
        !has(&user.applications, "crash-reporter") && !has(&user.user_services, "crash-reporter"),
        "the crash helper beats an app rule: {:?}",
        titles(&user.applications)
    );
    assert!(has(&user.applications, "firefox"));
}

#[test]
fn a_user_class_rule_makes_a_name_a_compositor() {
    let base = small(&built_in());
    assert!(has(&user_of(&base, 1000).applications, "easyeffects"));
    let fx = class("fx", Match::Name(one("easyeffects")), vec![Class::Compositor]);
    let tree = small(&with_user(file(Stage::Class, vec![fx])));
    let user = user_of(&tree, 1000);
    assert!(!has(&user.applications, "easyeffects"));
    let fx = user
        .user_services
        .iter()
        .find(|n| n.id == "easyeffects")
        .expect("easyeffects under User Services");
    assert!(
        proc_names(fx).iter().any(|n| n == "bwrap"),
        "its bwrap launcher folds with it: {:?}",
        proc_names(fx)
    );
}

#[test]
fn a_user_unit_rule_makes_a_unit_lie() {
    let base = small(&built_in());
    assert!(has(&user_of(&base, 1000).user_services, "node-red"));
    let red = Rule {
        flags: vec![UnitFlag::Lying],
        ..rule("red", Match::Unit(one("node-red.service")))
    };
    let tree = small(&with_user(file(Stage::Unit, vec![red])));
    let user = user_of(&tree, 1000);
    assert!(
        !has(&user.user_services, "node-red"),
        "a lying unit names neither the folder nor the identity: {:?}",
        titles(&user.user_services)
    );
}

#[test]
fn disabling_the_trinity_file_makes_a_tde_module_an_application() {
    let kicker = Process {
        pid: 2,
        ppid: 1,
        pgrp: 2,
        uid: 1000,
        comm: "kicker".into(),
        exe: Some("/opt/trinity/bin/tdeinit".into()),
        cmdline: vec!["kicker".into()],
        cgroup: "0::/user.slice/user-1000.slice/user@1000.service/app.slice/app-tde-kicker-1.scope"
            .into(),
        ..Process::default()
    };
    let curr = vec![kicker];
    let base = tree_of(&curr);
    assert!(has(&user_of(&base, 1000).user_services, "tdeinit"));
    let rules = with_user(RuleFile {
        stage: Stage::Session,
        disable: vec!["40-trinity.json".to_string()],
        rules: Vec::new(),
        examples: Vec::new(),
    });
    let tree = tree_with(&curr, &ContainerIndex::new(), &rules);
    let user = user_of(&tree, 1000);
    assert!(has(&user.applications, "kicker"), "{:?}", titles(&user.applications));
}

#[test]
fn a_placement_rule_cannot_break_a_structural_invariant() {
    let fold = |id: &str, identity: &str| Rule {
        fold_to: Some("myapp".to_string()),
        folder: Some(FolderName::Applications),
        ..rule(id, Match::Identity(one(identity)))
    };
    let tree = small(&with_user(file(
        Stage::Placement,
        vec![fold("fold-kernel", "kernel"), fold("fold-acme", "acme-encoder")],
    )));
    let user = user_of(&tree, 1000);
    assert!(has(&tree.system, "kernel"), "{:?}", titles(&tree.system));
    assert!(has(&user.containers, "acme-encoder"), "{:?}", titles(&user.containers));
    for bucket in [&user.applications, &user.user_services, &user.containers] {
        assert!(!has(bucket, "myapp") && !has(bucket, "kthreadd"), "{:?}", titles(bucket));
    }
}

#[test]
fn a_container_owner_rule_beats_bind_mount_inference() {
    let base = small(&built_in());
    assert!(has(&user_of(&base, 1000).containers, "acme-encoder"));
    let own = Rule {
        owner_uid: Some(1001),
        ..rule("own", Match::Container(one("acme-encoder")))
    };
    let tree = small(&with_user(file(Stage::Placement, vec![own])));
    assert!(has(&user_of(&tree, 1001).containers, "acme-encoder"));
    assert!(!has(&user_of(&tree, 1000).containers, "acme-encoder"));
    assert!(!has(&tree.containers, "acme-encoder"));
}

#[test]
fn every_process_of_the_small_machine_is_in_one_row() {
    let tree = small(&built_in());
    let total = types::tree_host_nproc(&tree);
    assert_eq!(total as usize, world().len());
    let mut seen = Vec::new();
    for u in &tree.users {
        for folder in [&u.applications, &u.user_services, &u.containers] {
            for row in folder {
                seen.extend(proc_names(row));
            }
        }
    }
    for folder in [&tree.containers, &tree.system] {
        for row in folder {
            seen.extend(proc_names(row));
        }
    }
    assert_eq!(seen.len(), world().len());
}

#[test]
fn what_the_rows_and_the_machine_hold_is_what_the_processes_hold() {
    let mut curr = world();
    let mut all: u64 = 0;
    for p in curr.iter_mut() {
        p.rss_pages = Some(p.pid as u64);
        all += p.pid as u64 * 4096;
    }
    let rules = built_in();
    let tree = tree_with(&curr, &index(&rules), &rules);
    assert_eq!(all, 471 * 4096);
    assert_eq!(types::host_metrics(&tree).rss_bytes, Some(all));
    let mut rows: u64 = 0;
    let mut each = |nodes: &Vec<IdentNode>| {
        for n in nodes {
            let parts: u64 = n.instances.iter().map(|i| i.metrics.rss_bytes.unwrap()).sum();
            assert_eq!(n.metrics.rss_bytes, Some(parts));
            rows += parts;
        }
    };
    each(&tree.containers);
    each(&tree.system);
    for u in &tree.users {
        each(&u.applications);
        each(&u.user_services);
        each(&u.containers);
    }
    assert_eq!(rows, all);
}

#[test]
fn only_named_users_stay() {
    let rules = built_in();
    let mut tree = small(&rules);
    let before = tree.users.len();
    let system = titles(&tree.system);
    once::keep_users(&mut tree, &Vec::new());
    assert_eq!(tree.users.len(), before);
    once::keep_users(&mut tree, &vec![7, 1000]);
    assert_eq!(tree.users.iter().map(|u| u.uid).collect::<Vec<u32>>(), [1000]);
    once::keep_users(&mut tree, &vec![7]);
    assert!(tree.users.is_empty());
    assert_eq!(titles(&tree.system), system);
}

#[test]
fn an_age_is_written_in_its_largest_whole_unit() {
    assert_eq!(once::fmt_age(None), "");
    for (secs, text) in [
        (0, "0s"),
        (59, "59s"),
        (60, "1m"),
        (3599, "59m"),
        (3600, "1h"),
        (86_399, "23h"),
        (86_400, "1d"),
        (864_000, "10d"),
    ] {
        assert_eq!(once::fmt_age(Some(secs)), text);
    }
}

#[test]
fn the_footer_counts_the_threads_that_no_row_holds() {
    let mut p = p("sleep", &["sleep", "9"]);
    p.threads = Some(3);
    let mut tree = tree_of(&vec![p]);
    assert_eq!(once::coverage_tail(&tree), "");
    tree.kernel_threads = Some(3);
    assert_eq!(once::coverage_tail(&tree), "");
    tree.kernel_threads = Some(812);
    assert_eq!(once::coverage_tail(&tree), "  3/812 threads seen");
}

#[test]
fn the_paths_that_say_whose_a_container_is() {
    let mut labels: Table<String> = Table::new();
    labels.insert(
        "com.docker.compose.project.working_dir".to_string(),
        "/home/me/project".to_string(),
    );
    let items = [ListItem {
        id: "0123456789abcdef".to_string(),
        names: vec!["/web".to_string()],
        labels: Some(labels),
        state: Some("running".to_string()),
    }];
    let mount = |kind: &str, source: &str| containers::Mount {
        kind: Some(kind.to_string()),
        source: Some(source.to_string()),
    };
    let mut inspects: Table<Inspect> = Table::new();
    inspects.insert(
        "0123456789abcdef".to_string(),
        Inspect {
            mounts: vec![mount("volume", "/var/lib/x"), mount("bind", "/home/me/data")],
            ..Inspect::default()
        },
    );
    assert_eq!(
        containers::owned_paths(&items, &inspects),
        ["/home/me/project", "/home/me/data"]
    );
    // The directory of the project comes before what is mounted.
    let mut owners: Table<u32> = Table::new();
    owners.insert("/home/me/project".to_string(), 1000);
    owners.insert("/home/me/data".to_string(), 1001);
    let rules = built_in();
    let idx = ContainerIndex::from_list(&items, &inspects, &owners, &rules);
    assert_eq!(idx.get("0123456789abcdef").unwrap().owner_uid, Some(1000));
    // A container that has exited names no path.
    let gone = [ListItem { state: Some("exited".to_string()), ..item("0123456789abcdef", None) }];
    assert!(containers::owned_paths(&gone, &inspects).is_empty());
}

#[test]
fn a_runtime_between_a_shell_and_an_application_bills_to_the_application() {
    let curr = vec![
        at(20, 10, "/usr/bin/ghostty", &["ghostty"], APP),
        at(21, 20, "/usr/bin/bash", &["/bin/bash", "--posix"], APP),
        at(22, 21, "/usr/bin/bun", &["bunx", "aider"], APP),
        at(23, 22, "/home/me/.local/bin/aider", &["aider"], APP),
    ];
    let tree = tree_of(&curr);
    let user = user_of(&tree, 1000);
    let aider = user.applications.iter().find(|n| n.id == "aider").expect("aider");
    let procs = proc_names(aider);
    assert!(
        procs.iter().any(|n| n == "bash") && procs.iter().any(|n| n == "bun"),
        "the shell and the runtime bill to aider, not only ghostty: {procs:?}"
    );
    assert!(
        has(&user.applications, "aider") && has(&user.applications, "ghostty"),
        "aider stays its own row beside ghostty: {:?}",
        titles(&user.applications)
    );
    assert!(!has(&user.applications, "bun"), "{:?}", titles(&user.applications));
}

#[test]
fn a_filter_or_a_limit_narrows_what_is_printed() {
    let tree = small(&built_in());
    let mut view = config::View::default();
    let labels = |view: &config::View| -> Vec<String> {
        once::print_rows(&tree, view, &Filter::new(&view.filter))
            .into_iter()
            .map(|r| r.label)
            .collect()
    };
    let whole: Vec<String> = once::table_rows(&tree).into_iter().map(|r| r.label).collect();
    assert_eq!(labels(&view), whole);
    view.filter = "^htop".to_string();
    assert_eq!(labels(&view).len(), 4);
    assert_eq!(labels(&view)[3], "      htop");
    view.filter = String::new();
    view.top = Some(0);
    assert!(!labels(&view).iter().any(|l| l.trim() == "htop"));
}

/// A terminal takes no interpreter in: what the shell started is a row, and
/// the shell bills to it.
#[test]
fn a_plain_interpreter_under_a_shell_is_a_row_of_its_own() {
    let curr = vec![
        at(20, 10, "/usr/bin/ghostty", &["ghostty"], APP),
        at(21, 20, "/usr/bin/bash", &["/bin/bash", "--posix"], APP),
        at(22, 21, "/usr/bin/bun", &["bun", "server.ts"], APP),
        at(23, 22, "/home/me/.local/bin/aider", &["aider"], APP),
    ];
    let tree = tree_of(&curr);
    let user = user_of(&tree, 1000);
    let mut rows: Vec<Vec<String>> = user.applications.iter().map(proc_names).collect();
    for r in rows.iter_mut() {
        r.sort();
    }
    rows.sort();
    assert_eq!(rows, [vec!["aider"], vec!["bash", "bun"], vec!["ghostty"]]);
}
