//! Rule files, and what a pid's placement is explained by.
use heft::config;
use heft::explain;
use heft::explain::report;
use heft::glyph::GlyphSet;
use heft::rules::ruleset::Rules;
use heft::rules::sources;
use heft::rules::{
    Class, Example, Expect, Facts, FolderName, LoadedFile, Match, Pat, Rule, RuleFile, Source,
    Stage, UnitFlag,
};
use heft::types::{Folder, HostTree, IdentNode, InstanceNode, Metrics, ProcNode, Process, UserNode};

fn one(s: &str) -> Pat {
    Pat::One(s.to_string())
}

fn rule(id: &str, test: Match) -> Rule {
    Rule {
        id: id.to_string(),
        test,
        identity: None,
        folder: None,
        fold_to: None,
        owner_uid: None,
        classes: Vec::new(),
        flags: Vec::new(),
    }
}

fn noise(id: &str, test: Match) -> Rule {
    Rule { classes: vec![Class::Noise], ..rule(id, test) }
}

fn parsed(stage: Stage, rules: Vec<Rule>) -> RuleFile {
    RuleFile { stage, disable: Vec::new(), rules, examples: Vec::new() }
}

fn file(name: &str, rf: RuleFile) -> LoadedFile {
    LoadedFile {
        source: Source { rank: 0, label: "xdg".into() },
        name: name.into(),
        parsed: Ok(rf),
    }
}

fn built_in_table() -> Vec<(String, RuleFile)> {
    vec![
        (
            "05-units.json".to_string(),
            parsed(
                Stage::Unit,
                vec![Rule {
                    flags: vec![UnitFlag::Service],
                    ..rule("service", Match::UnitSuffix(one(".service")))
                }],
            ),
        ),
        (
            "10-classes.json".to_string(),
            parsed(Stage::Class, vec![noise("noise", Match::Name(one("cat")))]),
        ),
        (
            "40-trinity.json".to_string(),
            parsed(
                Stage::Session,
                vec![Rule {
                    identity: Some("tdeinit".to_string()),
                    folder: Some(FolderName::UserServices),
                    ..rule("trinity-session", Match::ExePrefix(one("/opt/trinity/bin/")))
                }],
            ),
        ),
    ]
}

// ---------------------------------------------------------------------------
// Loading
// ---------------------------------------------------------------------------

#[test]
fn a_prefix_longer_than_the_haystack_or_inside_a_char_is_a_miss() {
    let r = Rules::from_files(vec![file(
        "10-x.json",
        parsed(Stage::Class, vec![noise("p", Match::NamePrefix(one("café")))]),
    )]);
    assert!(r.problems.is_empty(), "{:?}", r.problems);
    let probe = |hay: &str| {
        r.classes(&Facts { comm: hay, name: hay, ..Facts::default() }).contains(Class::Noise)
    };
    assert!(probe("caf\u{e9}x"));
    assert!(!probe("caf"));
    assert!(!probe("c\u{e9}x"));
}

#[test]
fn an_empty_list_combinator_or_string_pattern_fails_the_file() {
    for test in [
        Match::Name(Pat::Many(Vec::new())),
        Match::All(Vec::new()),
        Match::NamePrefix(one("")),
    ] {
        let what = format!("{test:?}");
        let r = Rules::from_files(vec![file(
            "90-a.json",
            parsed(Stage::Class, vec![noise("a", test)]),
        )]);
        assert_eq!(r.problems.len(), 1, "{what}");
        assert_eq!(r.count(Stage::Class), 0);
    }
}

#[test]
fn an_example_without_expect_fails_the_file() {
    let r = Rules::from_files(vec![LoadedFile {
        source: Source { rank: 0, label: "xdg".into() },
        name: "90-a.json".into(),
        parsed: Err("missing field `expect`".to_string()),
    }]);
    assert_eq!(r.problems.len(), 1);
    assert!(r.problems[0].what.contains("expect"), "{}", r.problems[0].what);
}

#[test]
fn a_placement_rule_mixing_owner_uid_with_fold_or_folder_fails_the_file() {
    let r = Rules::from_files(vec![file(
        "90-a.json",
        parsed(
            Stage::Placement,
            vec![Rule {
                owner_uid: Some(1),
                folder: Some(FolderName::Applications),
                ..rule("a", Match::Container(one("x")))
            }],
        ),
    )]);
    assert_eq!(r.problems.len(), 1);
}

#[test]
fn a_higher_source_beats_a_lower_one_whatever_the_file_names() {
    let user = file(
        "90-z.json",
        parsed(
            Stage::Session,
            vec![Rule {
                identity: Some("mine".to_string()),
                folder: Some(FolderName::Applications),
                ..rule("mine", Match::Name(one("gsd-color")))
            }],
        ),
    );
    let mut builtin = file(
        "10-a.json",
        parsed(
            Stage::Session,
            vec![Rule {
                identity: Some("gsd".to_string()),
                folder: Some(FolderName::UserServices),
                ..rule("gsd", Match::NamePrefix(one("gsd-")))
            }],
        ),
    );
    builtin.source = Source::builtin();
    let r = Rules::from_files(vec![builtin, user]);
    let f = Facts { comm: "gsd-color", name: "gsd-color", ..Facts::default() };
    assert_eq!(r.session(&f).map(|(i, _)| i), Some("mine"));
}

#[test]
fn disable_drops_a_file_and_a_rule_across_every_source() {
    let mut files = vec![file(
        "90-a.json",
        RuleFile {
            stage: Stage::Placement,
            disable: vec![
                "10-classes.json:noise".to_string(),
                "05-units.json".to_string(),
                "nothing.json".to_string(),
            ],
            rules: Vec::new(),
            examples: Vec::new(),
        },
    )];
    for (name, rf) in built_in_table() {
        files.push(LoadedFile { source: Source::builtin(), name, parsed: Ok(rf) });
    }
    let r = Rules::from_files(files);
    assert!(r.is_empty(Stage::Unit));
    assert!(!r.classes_of_name("cat").contains(Class::Noise));
    assert_eq!(r.warnings.len(), 1, "{:?}", r.warnings);
    assert!(!r.is_empty(Stage::Session), "a file nothing names is left alone");
    assert!(Rules::builtin(built_in_table()).classes_of_name("cat").contains(Class::Noise));
}

fn example(comm: &str, expect: Expect) -> Example {
    Example {
        pid: 0,
        ppid: 0,
        pgrp: 0,
        uid: 0,
        kthread: false,
        utime: 0,
        stime: 0,
        comm: Some(comm.to_string()),
        exe: None,
        cmdline: Vec::new(),
        cgroup: String::new(),
        unit: None,
        identity: None,
        container: None,
        expect: Some(expect),
    }
}

/// A rule's example is run through every file; a wrong one is reported with
/// the file's name and the text it gives, quotes and escapes included.
#[test]
fn an_example_that_fails_is_reported() {
    let good = example(
        "cat",
        Expect { classes: Some(vec![Class::Noise]), ..Expect::default() },
    );
    let rf = RuleFile {
        stage: Stage::Class,
        disable: Vec::new(),
        rules: vec![noise("noise", Match::Name(one("cat")))],
        examples: vec![good],
    };
    let r = Rules::from_files(vec![file("10-a.json", rf)]);
    assert!(r.problems.is_empty(), "{:?}", r.problems);
    assert_eq!(r.examples_total(), 1);
    let lines = r.check(true);
    assert!(lines.is_empty(), "{lines:?}");

    let bad = example("mutt", Expect { rule: Some("dog".to_string()), ..Expect::default() });
    let rf = RuleFile {
        stage: Stage::Class,
        disable: Vec::new(),
        rules: vec![noise("dog", Match::Name(one("dog")))],
        examples: vec![bad],
    };
    let r = Rules::from_files(vec![file("10-a.json", rf)]);
    let lines = r.check(true);
    assert_eq!(lines, ["10-a.json:dog#0 (xdg): FAIL expected a match, got none"]);

    let wrong = example(
        "dog",
        Expect { identity: Some("cat".to_string()), ..Expect::default() },
    );
    let rf = RuleFile {
        stage: Stage::App,
        disable: Vec::new(),
        rules: vec![Rule {
            identity: Some("p\"et".to_string()),
            ..rule("dog", Match::Name(one("dog")))
        }],
        examples: vec![wrong],
    };
    let r = Rules::from_files(vec![file("10-a.json", rf)]);
    let lines = r.check(true);
    assert_eq!(
        lines,
        [r#"10-a.json:-#0 (xdg): FAIL expected identity cat, got Some("p\"et")"#]
    );
}

// ---------------------------------------------------------------------------
// Explaining
// ---------------------------------------------------------------------------

fn proc_node(pid: u32) -> ProcNode {
    ProcNode {
        pid,
        name: format!("p{pid}"),
        cmdline: String::new(),
        metrics: Metrics::default(),
        children: Vec::new(),
    }
}

fn ident(id: &str, pids: &[u32]) -> IdentNode {
    IdentNode {
        id: id.into(),
        title: String::new(),
        nproc: pids.len() as u32,
        metrics: Metrics::default(),
        instances: vec![InstanceNode {
            key: format!("{id}/1"),
            nproc: pids.len() as u32,
            metrics: Metrics::default(),
            processes: pids.iter().copied().map(proc_node).collect(),
        }],
        containers: Vec::new(),
    }
}

fn tree_with(user: UserNode, system: Vec<IdentNode>) -> HostTree {
    HostTree { users: vec![user], system, ..HostTree::default() }
}

fn user(apps: Vec<IdentNode>, services: Vec<IdentNode>) -> UserNode {
    UserNode {
        uid: 1000,
        name: "nomad".into(),
        applications: apps,
        user_services: services,
        containers: Vec::new(),
    }
}

const SET: GlyphSet = GlyphSet::Unicode;

#[test]
fn trace_names_the_deciding_rule_per_stage() {
    let kicker = Process {
        comm: "kicker".into(),
        exe: Some("/opt/trinity/bin/tdeinit".into()),
        ..Process::default()
    };
    let rules = Rules::builtin(built_in_table());
    let lines = explain::trace(&rules, Some(&kicker), "tdeinit");
    let line = |stage: &str| {
        lines
            .iter()
            .find(|l| l.split_whitespace().any(|w| w == stage))
            .cloned()
            .unwrap_or_default()
    };
    assert!(
        line("session")
            .ends_with("built-in 40-trinity.json:trinity-session -> tdeinit user_services"),
        "{lines:#?}"
    );
    assert!(line("unit").ends_with("no match"), "{lines:#?}");
    assert!(line("placement").ends_with("none"), "{lines:#?}");
    assert!(lines[0].starts_with("  rules     unit"), "{lines:#?}");
    assert_eq!(explain::trace(&rules, None, "x"), ["  rules     (process gone)"]);
}

#[test]
fn a_pid_resolves_to_the_identity_that_is_the_placement_key() {
    let tree = tree_with(user(vec![ident("cursor", &[10, 11])], Vec::new()), vec![]);
    let f = explain::locate(SET, &tree, 11).expect("found");
    assert_eq!(f.ident, "cursor", "the row title, which is the placement key");
    assert_eq!(f.path, "Host → nomad (1000) → Applications");
    assert_eq!(f.pinnable.as_deref(), Some("applications"));
    assert_eq!(f.siblings, 2);
}

#[test]
fn a_user_service_offers_the_other_list() {
    let tree = tree_with(user(Vec::new(), vec![ident("syncthing", &[7])]), vec![]);
    let f = explain::locate(SET, &tree, 7).expect("found");
    assert_eq!(f.pinnable.as_deref(), Some("user_services"));
}

#[test]
fn a_system_row_is_reported_as_unmovable() {
    let tree = tree_with(user(Vec::new(), Vec::new()), vec![ident("kworker", &[3])]);
    let f = explain::locate(SET, &tree, 3).expect("found");
    assert_eq!(f.path, "Host → System");
    assert_eq!(f.pinnable, None);
}

#[test]
fn a_folded_child_resolves_to_the_row_it_bills_to() {
    let mut parent = proc_node(10);
    let mut worker = proc_node(11);
    worker.children = vec![proc_node(12)];
    parent.children = vec![worker];
    let mut id = ident("cursor", &[]);
    id.instances[0].processes = vec![parent];
    let tree = tree_with(user(vec![id], Vec::new()), vec![]);
    for pid in [10, 11, 12] {
        assert_eq!(explain::locate(SET, &tree, pid).expect("found").ident, "cursor", "{pid}");
    }
}

#[test]
fn the_suggested_key_is_json_for_any_identity() {
    let ident = "x\u{9b}y\u{7f}\"\\\u{1b}";
    let key = explain::json_key(ident);
    assert!(!key.chars().any(char::is_control), "{key}");
    assert_eq!(serde_json::from_str::<String>(&key).unwrap(), ident);
}

#[test]
fn a_pid_in_no_row_is_not_an_error() {
    let tree = tree_with(user(vec![ident("cursor", &[10])], Vec::new()), vec![]);
    assert!(explain::locate(SET, &tree, 99).is_none());
}

#[test]
fn placement_lines_name_the_row_and_omit_the_recipe() {
    let tree = tree_with(user(vec![ident("cursor", &[10, 11])], Vec::new()), vec![]);
    let found = explain::locate(SET, &tree, 11).expect("found");
    let lines = explain::placement_lines(&found, None, &Rules::builtin(built_in_table()));
    assert!(
        lines.iter().any(|l| l.contains("placed") && l.contains("Applications")),
        "{lines:#?}"
    );
    assert!(
        lines.iter().any(|l| l.contains("identity") && l.contains("cursor")),
        "{lines:#?}"
    );
    assert!(
        lines.iter().any(|l| l.contains("instance") && l.contains("2 processes")),
        "{lines:#?}"
    );
    assert!(
        lines.iter().any(|l| l.contains("rules") && l.contains("process gone")),
        "{lines:#?}"
    );
    assert!(
        lines.iter().all(|l| !l.contains("90-mine.json") && !l.contains("fold_to")),
        "{lines:#?}"
    );
}

#[test]
fn identity_placement_is_the_key_without_rules() {
    let tree = tree_with(user(vec![ident("cursor", &[10])], Vec::new()), vec![]);
    let lines = explain::identity_placement(SET, &tree, "user:1000/apps/cursor").expect("found");
    assert_eq!(lines.len(), 3, "{lines:#?}");
    assert!(lines[0].contains("placed") && lines[0].contains("Applications"), "{lines:#?}");
    assert!(lines[1].contains("identity") && lines[1].contains("cursor"), "{lines:#?}");
    assert!(
        lines[2].contains("\"cursor\" is the placement key for this row."),
        "{lines:#?}"
    );
    assert!(lines.iter().all(|l| !l.contains("rules") && !l.contains("90-mine.json")));
    let system = tree_with(user(Vec::new(), Vec::new()), vec![ident("kworker", &[3])]);
    let sys = explain::identity_placement(SET, &system, "host/system/kworker").expect("found");
    assert_eq!(sys.len(), 2, "{sys:#?}");
    assert!(sys.iter().all(|l| !l.contains("placement key")), "{sys:#?}");
    assert!(explain::identity_placement(SET, &tree, "user:1000/apps").is_none());
}

#[test]
fn a_report_ends_in_what_can_be_done() {
    let rules = Rules::builtin(built_in_table());
    let tree = tree_with(user(vec![ident("cursor", &[10])], Vec::new()), vec![]);
    let found = explain::locate(SET, &tree, 10).unwrap();
    let facts = vec![("EXE".to_string(), "/usr/bin/cur\u{1b}sor".to_string())];
    let (lines, said) =
        report::report(10, true, &facts, Some(&found), None, &rules, "/home/me/.config/heft");
    assert!(said);
    assert_eq!(lines[0], "pid 10");
    assert!(lines[1].starts_with("  EXE       /usr/bin/cur"), "{:?}", lines[1]);
    assert!(!lines[1].contains('\u{1b}'));
    assert!(lines.contains(
        &"  To pin it to a folder, in /home/me/.config/heft/rules.d/90-mine.json:".to_string()
    ));
    assert!(lines.iter().any(|l| l.contains(r#""identity": "cursor" }, "folder": "applications""#)));

    let (lines, said) = report::report(10, false, &Vec::new(), None, None, &rules, "/c");
    assert!(!said);
    assert_eq!(lines[0], "pid 10: not visible");
    let (lines, said) = report::report(10, true, &Vec::new(), None, None, &rules, "/c");
    assert!(said);
    assert!(lines[2].contains("nowhere"), "{lines:?}");

    let system = tree_with(user(Vec::new(), Vec::new()), vec![ident("kworker", &[3])]);
    let found = explain::locate(SET, &system, 3).unwrap();
    let (lines, _) = report::report(3, true, &Vec::new(), Some(&found), None, &rules, "/c");
    assert!(lines.iter().any(|l| l.contains("No placement rule can move this row")));
}

#[test]
fn a_list_of_directories_stands_in_place_of_the_usual_ones() {
    let dirs = |list: Option<&[u8]>| -> Vec<(usize, Vec<u8>)> {
        sources::rule_dirs(list, b"/c/rules.d".to_vec(), b"/etc/heft/rules.d".to_vec())
            .into_iter()
            .map(|d| (d.rank, d.path))
            .collect()
    };
    assert_eq!(
        dirs(None),
        [(0, b"/c/rules.d".to_vec()), (1, b"/etc/heft/rules.d".to_vec())]
    );
    assert!(dirs(Some(b"")).is_empty());
    assert_eq!(dirs(Some(b"/a::/b")), [(0, b"/a".to_vec()), (2, b"/b".to_vec())]);
    assert!(sources::is_rule_file("10-a.json"));
    assert!(!sources::is_rule_file("10-a.json~"));
}

#[test]
fn overrides_move_what_they_name() {
    let mut o = config::Overrides::default();
    assert!(o.no_placement_overrides());
    assert_eq!(o.folder_for("x"), None);
    o.user_services.push("x".to_string());
    o.fold.insert("a".to_string(), "b".to_string());
    o.container_owners.insert("db".to_string(), 1001);
    assert!(!o.no_placement_overrides());
    assert_eq!(o.folder_for("x"), Some(Folder::UserServices));
    o.applications.push("x".to_string());
    assert_eq!(o.folder_for("x"), Some(Folder::Applications), "applications win");
    assert_eq!(o.fold_key("a"), Some("b"));
    assert_eq!(o.fold_key("b"), None);
    assert_eq!(o.container_owner("db"), Some(1001));
}

// ---------------------------------------------------------------------------
// What a user keeps on disk
// ---------------------------------------------------------------------------

fn json(text: &str) -> serde_json::Value {
    serde_json::from_str(&config::strip_comments(text)).unwrap()
}

#[test]
fn comments_are_blanked_without_moving_anything_else() {
    let text = "{\n  // the column to sort by\n  \"sort\": \"pss\",\n  \"desc\": true\n}";
    let out = config::strip_comments(text);
    assert_eq!(out.len(), text.len(), "byte offsets are preserved");
    assert_eq!(out.lines().count(), text.lines().count());
    let v = json(text);
    assert_eq!(v["sort"], "pss");
    assert_eq!(v["desc"], true);
}

#[test]
fn a_block_comment_keeps_its_newlines() {
    let text = "{\n/* two\n   lines */\n\"sort\": \"rss\", \"desc\": false\n}";
    let out = config::strip_comments(text);
    assert_eq!(out.lines().count(), text.lines().count(), "line numbers hold");
    assert!(!out.contains("two"));
    assert_eq!(json(text)["sort"], "rss");
}

#[test]
fn a_comment_marker_inside_a_string_survives() {
    let text = r#"{"sort":"pss","desc":true,"filter":"https?://host /* keep */"}"#;
    assert_eq!(json(text)["filter"], "https?://host /* keep */");
    // An escaped quote does not end the string, so the comment marker after it
    // is still inside one.
    let text = r#"{"sort":"pss","desc":true,"filter":"say \" then //x"}"#;
    assert_eq!(json(text)["filter"], r#"say " then //x"#);
}

#[test]
fn overrides_take_comments_too() {
    let v = json("{\n // mine\n \"user_services\": [\"mydaemon\"] /* pinned */\n}");
    assert_eq!(v["user_services"][0], "mydaemon");
}

#[test]
fn a_written_view_round_trips_through_its_own_header() {
    let labels: Vec<String> =
        ["name", "spark", "pss", "core", "vram"].iter().map(|s| s.to_string()).collect();
    let mut view = serde_json::Map::new();
    view.insert("sort".to_string(), serde_json::Value::from("core"));
    view.insert("filter".to_string(), serde_json::Value::from("a//b"));
    view.insert("hide_columns".to_string(), serde_json::Value::from(vec!["vram"]));
    let text = format!(
        "{}{}\n",
        config::view_header(&labels),
        serde_json::to_string_pretty(&serde_json::Value::from(view)).unwrap()
    );
    assert!(text.starts_with("// heft view"));
    assert!(text.contains("labels: name spark"), "{text}");
    let back = json(&text);
    assert_eq!(back["sort"], "core");
    assert_eq!(back["filter"], "a//b");
    assert_eq!(back["hide_columns"][0], "vram");
}

#[test]
fn an_unterminated_block_comment_does_not_panic() {
    let out = config::strip_comments("{ /* oops");
    assert!(serde_json::from_str::<serde_json::Value>(&out).is_err());
    assert_eq!(config::strip_comments(""), "");
}

#[test]
fn blanking_comments_twice_changes_nothing() {
    let text = "{ /* \u{e9}\n */ \"a\": \"// no\\\" /* no\", // yes\n \"b\": 1 / 2 }";
    let out = config::strip_comments(text);
    assert_eq!(config::strip_comments(&out), out);
    for (a, b) in out.bytes().zip(text.bytes()) {
        assert!(a == b || a == b' ');
        assert_eq!(a == b'\n', b == b'\n');
    }
    assert!(out.contains("\"// no\\\" /* no\""));
}

fn placement(id: &str, identity: &str, folder: FolderName) -> Rule {
    Rule { folder: Some(folder), ..rule(id, Match::Identity(one(identity))) }
}

fn files() -> Vec<LoadedFile> {
    vec![
        file(
            "20-b.json",
            parsed(Stage::Placement, vec![placement("late", "htop", FolderName::UserServices)]),
        ),
        LoadedFile {
            source: Source { rank: 0, label: "xdg".into() },
            name: "15-broken.json".into(),
            parsed: Err("no".to_string()),
        },
        file(
            "10-a.json",
            parsed(Stage::Placement, vec![placement("early", "htop", FolderName::Applications)]),
        ),
    ]
}

#[test]
fn files_go_by_name_whatever_order_they_come_in() {
    let mut turned = files();
    turned.reverse();
    for v in [files(), turned] {
        let r = Rules::from_files(v);
        assert_eq!(r.placement("htop").unwrap().name(), "10-a.json:early");
        assert_eq!(r.count(Stage::Placement), 2);
        assert_eq!(r.problems.len(), 1);
    }
}

#[test]
fn a_file_with_a_fault_is_as_if_it_were_not_there() {
    let all = Rules::from_files(files());
    let good = Rules::from_files(files().into_iter().filter(|f| f.parsed.is_ok()).collect());
    assert_eq!(all.problems[0].file, "15-broken.json");
    assert_eq!(all.problems[0].what, "no");
    assert!(good.problems.is_empty());
    assert_eq!(all.count(Stage::Placement), good.count(Stage::Placement));
    assert_eq!(all.placement("htop").unwrap().name(), good.placement("htop").unwrap().name());
    assert!(all.placement("vim").is_none() && good.placement("vim").is_none());
}

#[test]
fn unit_flags_add_up_over_all_matching_rules() {
    let flag = |id: &str, suffix: &str, flags: Vec<UnitFlag>| Rule {
        flags,
        ..rule(id, Match::UnitSuffix(one(suffix)))
    };
    let r = Rules::from_files(vec![file(
        "05-u.json",
        parsed(
            Stage::Unit,
            vec![
                flag("a", ".service", vec![UnitFlag::Service]),
                flag("b", "x.service", vec![UnitFlag::Lying]),
            ],
        ),
    )]);
    assert_eq!(r.unit_flags("x.service").names(), ["lying", "service"]);
    assert_eq!(r.unit_flags("y.service").names(), ["service"]);
    assert!(r.unit_flags("z.scope").names().is_empty());
}

#[test]
fn a_strict_check_and_a_loose_one_report_the_same_examples() {
    let mut low = parsed(Stage::Class, vec![noise("a", Match::Name(one("cat")))]);
    low.examples = vec![
        example("cat", Expect { rules: Some(vec!["a".to_string()]), ..Expect::default() }),
        example("dog", Expect { rules: Some(vec!["a".to_string()]), ..Expect::default() }),
        example("cat", Expect { rules: Some(vec![]), ..Expect::default() }),
    ];
    let mut off = parsed(Stage::Class, Vec::new());
    off.disable = vec!["10-low.json:a".to_string()];
    let r = Rules::from_files(vec![file("10-low.json", low), file("20-off.json", off)]);
    let (strict, loose) = (r.check(true), r.check(false));
    assert_eq!(strict.len(), loose.len());
    assert!(strict.len() <= r.examples_total());
    for (s, l) in strict.iter().zip(&loose) {
        let (name, _) = s.split_once(": FAIL ").unwrap();
        assert!(l == s || *l == format!("{name}: disabled"), "{s} / {l}");
    }
    assert!(loose.iter().any(|l| l.ends_with(": disabled")));
}

#[test]
fn a_suggested_key_is_escaped_where_json_or_a_terminal_asks_for_it() {
    assert_eq!(explain::json_key("a\"b\\c"), r#""a\"b\\c""#);
    assert_eq!(explain::json_key("\t\n\u{8}\u{c}\r"), r#""\t\n\b\f\r""#);
    assert_eq!(explain::json_key("\u{1}\u{1f}\u{7f}\u{9b}"), r#""\u0001\u001f\u007f\u009b""#);
    assert_eq!(explain::json_key("caf\u{e9}/\u{1f600}"), "\"caf\u{e9}/\u{1f600}\"");
}
