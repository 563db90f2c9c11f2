//! The screen: its bars, its rows, its columns and its keys.
use heft::caps::Caps;
use heft::config::View;
use heft::glyph;
use heft::glyph::GlyphSet;
use heft::keys;
use heft::mem;
use heft::mode;
use heft::mode::{Asked, Mode, Refusal};
use heft::once;
use heft::tty;
use heft::types::{HostTree, IdentNode, Metrics, UserNode};
use heft::ui::bars;
use heft::ui::bars::{Color, CpuWeights, Part, Span};
use heft::ui::columns;
use heft::ui::columns::Column;
use heft::ui::detail;
use heft::ui::detail::Area;
use heft::ui::frame;
use heft::ui::filter::Filter;
use heft::ui::frame::{Pen, Room, Seat, Stress, Turn};
use heft::ui::pick;
use heft::ui::press;
use heft::ui::press::{Action, App, Held, Key};
use heft::ui::rows;
use heft::ui::rows::Flat;
use heft::ui::trend;
use heft::ui::trend::{History, TrendMode};

const ME: u32 = 1000;
const G: u64 = 1024 * 1024 * 1024;
const UNICODE: GlyphSet = GlyphSet::Unicode;

// ---------------------------------------------------------------------------
// Rows and the cursor
// ---------------------------------------------------------------------------

#[test]
fn follow_viewport_keeps_selection_visible() {
    assert_eq!(pick::follow_viewport(10, 0, 5, 20), 6);
    assert_eq!(pick::follow_viewport(2, 5, 5, 20), 2);
    assert_eq!(pick::follow_viewport(6, 5, 5, 20), 5);
    assert_eq!(pick::follow_viewport(4, 0, 5, 20), 0);
    assert_eq!(pick::follow_viewport(1, 8, 5, 3), 0);
    assert_eq!(pick::follow_viewport(0, 0, 5, 0), 0);
    assert_eq!(pick::follow_viewport(3, 0, 0, 10), 0);
}

fn ident(id: &str) -> IdentNode {
    IdentNode {
        id: id.into(),
        title: id.into(),
        nproc: 1,
        metrics: Metrics::default(),
        instances: Vec::new(),
        containers: Vec::new(),
    }
}

fn person(uid: u32, name: &str, applications: Vec<IdentNode>) -> UserNode {
    UserNode {
        uid,
        name: name.into(),
        applications,
        user_services: Vec::new(),
        containers: Vec::new(),
    }
}

fn apps_tree(apps: Vec<IdentNode>) -> HostTree {
    HostTree { users: vec![person(ME, "me", apps)], ..HostTree::default() }
}

fn row_id<'a>(rows: &'a Vec<Flat>, id: &str) -> &'a str {
    &rows[pick::remap_cursor(rows, id)].id
}

/// Two trees, identities in opposite order: the cursor is firefox's id, not
/// whichever row currently occupies firefox's old slot.
#[test]
fn remap_cursor_stays_on_the_same_id_when_the_list_reorders() {
    let expand = press::default_expand(ME);
    let id = format!("user:{ME}/apps/firefox");
    let desc =
        pick::flatten(&apps_tree(vec![ident("firefox"), ident("cursor")]), &expand, &View::default(), &None);
    let asc = pick::flatten(&apps_tree(vec![ident("cursor"), ident("firefox")]), &expand, &View::default(), &None);
    assert_eq!(row_id(&desc, &id), id);
    assert_eq!(row_id(&asc, &id), id);
    assert_ne!(pick::remap_cursor(&desc, &id), pick::remap_cursor(&asc, &id));
}

#[test]
fn remap_cursor_stays_on_the_same_id_when_a_sibling_is_inserted_above() {
    let expand = press::default_expand(ME);
    let id = format!("user:{ME}/apps/firefox");
    let before = pick::flatten(&apps_tree(vec![ident("firefox")]), &expand, &View::default(), &None);
    let after =
        pick::flatten(&apps_tree(vec![ident("chrome"), ident("firefox")]), &expand, &View::default(), &None);
    assert_eq!(row_id(&before, &id), id);
    assert_eq!(row_id(&after, &id), id);
    assert_eq!(pick::remap_cursor(&before, &id) + 1, pick::remap_cursor(&after, &id));
}

#[test]
fn remap_cursor_survives_a_filter_that_drops_other_rows() {
    let rows = keep_rows(filter_rows(), "firefox");
    assert_eq!(row_id(&rows, "firefox"), "firefox");
    assert_eq!(names(&rows), ["Host", "alice", "Applications", "firefox"]);
}

#[test]
fn remap_cursor_lands_on_the_parent_when_the_row_is_gone() {
    let expand = press::default_expand(ME);
    let rows = pick::flatten(&apps_tree(vec![ident("cursor")]), &expand, &View::default(), &None);
    let gone = format!("user:{ME}/apps/firefox");
    assert_eq!(row_id(&rows, &gone), format!("user:{ME}/apps"));
    let gone_pid = format!("user:{ME}/apps/firefox/i/pgid/p/123");
    assert_eq!(row_id(&rows, &gone_pid), format!("user:{ME}/apps"));
    assert_eq!(pick::remap_cursor(&Vec::new(), "host"), 0);
}

/// Every folder row exists for every user and for the host, but only the
/// documented ones open on a fresh start.
#[test]
fn default_expand_opens_only_the_documented_folders() {
    let user = |uid: u32, name: &str| UserNode {
        uid,
        name: name.into(),
        applications: vec![ident("app")],
        user_services: vec![ident("svc")],
        containers: vec![ident("ctr")],
    };
    let tree = HostTree {
        users: vec![user(ME, "me"), user(ME + 1, "other")],
        containers: vec![ident("hostctr")],
        system: vec![ident("kthread")],
        ..HostTree::default()
    };
    let rows = pick::flatten(&tree, &press::default_expand(ME), &View::default(), &None);
    let got: Vec<String> = rows.iter().map(|r| r.id.clone()).collect();
    assert_eq!(
        got,
        [
            "host".to_string(),
            format!("user:{ME}"),
            format!("user:{ME}/apps"),
            format!("user:{ME}/apps/app"),
            format!("user:{ME}/services"),
            format!("user:{ME}/containers"),
            format!("user:{ME}/containers/ctr"),
            format!("user:{}", ME + 1),
            "host/containers".to_string(),
            "host/system".to_string(),
        ]
    );
}

#[test]
fn empty_folders_do_not_draw_as_expanded() {
    let tree = apps_tree(vec![ident("app")]);
    let expand = press::default_expand(ME);
    let rows = pick::flatten(&tree, &expand, &View::default(), &None);
    let find = |id: String| {
        rows.iter().find(|r| r.id == id).unwrap_or_else(|| panic!("missing {id}"))
    };
    let mine = |suffix: &str| find(format!("user:{ME}/{suffix}"));
    assert!(mine("apps").expandable);
    assert_eq!(mine("apps").name, "Applications (1)");
    assert!(!mine("services").expandable);
    assert_eq!(mine("services").name, "User Services (0)");
    assert!(!mine("containers").expandable);
    assert_eq!(mine("containers").name, "Containers (0)");
    assert_eq!(find(format!("user:{ME}")).name, "me");
    assert_eq!(find("host/containers".to_string()).name, "Containers (0)");
    assert_eq!(find("host/system".to_string()).name, "System (0)");
    assert!(
        !rows.iter().any(|r| r.id.starts_with(&format!("user:{ME}/containers/"))),
        "an empty Containers folder must not grow child rows"
    );
    assert!(expand.contains(&format!("user:{ME}/containers")));
    assert!(!detail::row_label(mine("containers"), &expand, UNICODE)
        .contains(glyph::expanded(UNICODE).as_str()));
}

fn flat(depth: u16, name: &str) -> Flat {
    Flat {
        search: None,
        id: name.to_string(),
        depth,
        name: name.to_string(),
        nproc: 1,
        metrics: Metrics::default(),
        expandable: false,
        trimmable: true,
    }
}

fn names(rows: &[Flat]) -> Vec<&str> {
    rows.iter().map(|r| r.name.as_str()).collect()
}

/// Host / alice / {Applications / [firefox, cursor], User Services / pipewire}
/// and Host / bob / Applications / vim.
fn filter_rows() -> Vec<Flat> {
    vec![
        flat(0, "Host"),
        flat(1, "alice"),
        flat(2, "Applications"),
        flat(3, "firefox"),
        flat(3, "cursor"),
        flat(2, "User Services"),
        flat(3, "pipewire"),
        flat(1, "bob"),
        flat(2, "Applications"),
        flat(3, "vim"),
    ]
}

fn f(pattern: &str) -> Filter {
    Filter::new(pattern).expect("test patterns compile")
}

fn keep_rows(rows: Vec<Flat>, pattern: &str) -> Vec<Flat> {
    pick::keep_rows(rows, &f(pattern))
}

#[test]
fn keep_matches_keeps_the_path_to_a_leaf() {
    let rows = keep_rows(filter_rows(), "firefox");
    assert_eq!(names(&rows), ["Host", "alice", "Applications", "firefox"]);
}

#[test]
fn keep_matches_drops_shallower_rows_that_are_not_ancestors() {
    // A match under bob keeps bob's chain only.
    let rows = keep_rows(filter_rows(), "vim");
    assert_eq!(names(&rows), ["Host", "bob", "Applications", "vim"]);
}

#[test]
fn keep_matches_drops_children_of_a_matching_folder() {
    let rows = keep_rows(filter_rows(), "applications");
    assert_eq!(names(&rows), ["Host", "alice", "Applications", "bob", "Applications"]);
}

#[test]
fn a_filter_ignores_case_unless_the_pattern_says_otherwise() {
    let rows = keep_rows(filter_rows(), "user services");
    assert_eq!(names(&rows), ["Host", "alice", "User Services"]);
    let rows = keep_rows(filter_rows(), "Firefox");
    assert_eq!(names(&rows), ["Host", "alice", "Applications", "firefox"]);
    let rows = keep_rows(filter_rows(), "(?-i)Firefox");
    assert!(rows.is_empty(), "(?-i) turns the default back off");
}

#[test]
fn a_filter_can_anchor_and_alternate() {
    let rows = keep_rows(filter_rows(), "^(firefox|vim)$");
    assert_eq!(
        names(&rows),
        ["Host", "alice", "Applications", "firefox", "bob", "Applications", "vim"]
    );
    // An anchored name that only appears as a substring elsewhere.
    let rows = keep_rows(filter_rows(), "^app");
    assert_eq!(names(&rows), ["Host", "alice", "Applications", "bob", "Applications"]);
}

#[test]
fn an_unusable_pattern_compiles_to_nothing_rather_than_panicking() {
    assert!(Filter::new("[").is_none());
    assert!(Filter::new("a(").is_none());
    assert!(Filter::new("").is_some(), "an empty pattern is legal");
}

#[test]
fn the_table_shows_what_the_filter_and_the_limit_leave() {
    let tree = apps_tree(vec![ident("firefox"), ident("cursor"), ident("fish")]);
    let expand = press::default_expand(ME);
    let mut view = View::default();
    let shown = |view: &View, filter: &Option<Filter>| -> Vec<String> {
        pick::flatten(&tree, &expand, view, filter)
            .iter()
            .filter(|r| r.depth == 3)
            .map(|r| r.name.clone())
            .collect()
    };
    assert_eq!(shown(&view, &Filter::new("^fi")), ["firefox", "cursor", "fish"]);
    view.filter = "^fi".to_string();
    assert_eq!(shown(&view, &Filter::new(&view.filter)), ["firefox", "fish"]);
    view.top = Some(1);
    assert_eq!(shown(&view, &Filter::new(&view.filter)), ["firefox"]);
    // A text that is no pattern filters nothing.
    view.filter = "[".to_string();
    assert_eq!(shown(&view, &Filter::new(&view.filter)), ["firefox"]);
    view.top = None;
    assert_eq!(shown(&view, &None), ["firefox", "cursor", "fish"]);
}

#[test]
fn every_folder_of_every_user_can_be_open() {
    let tree = apps_tree(vec![ident("firefox")]);
    let open = rows::every_folder(&tree);
    assert_eq!(open[..3], ["host", "host/containers", "host/system"]);
    assert_eq!(open.len(), 3 + 4 * tree.users.len());
    assert_eq!(open[4], format!("user:{}/apps", tree.users[0].uid));
}

#[test]
fn a_sample_is_measured_once_and_dropped_while_paused() {
    let mut turn = Turn::new();
    assert!(turn.measure());
    assert!(!turn.measure());
    assert!(!turn.take(None, false));
    assert!(!turn.take(Some(7), true));
    assert!(!turn.measure());
    assert!(turn.take(None, true));
    assert!(turn.measure());
}

#[test]
fn only_the_first_rows_of_a_list_are_kept() {
    let mut rows = filter_rows();
    for r in rows.iter_mut().filter(|r| r.depth < 3) {
        r.trimmable = false;
    }
    assert_eq!(
        names(&pick::keep_top(rows, 1)),
        ["Host", "alice", "Applications", "firefox", "User Services", "pipewire", "bob",
            "Applications", "vim"]
    );
}

#[test]
fn a_row_of_one_process_names_its_pid() {
    assert_eq!(pick::row_pid("host/apps/firefox/i/1/p/1"), Some(1));
    assert_eq!(pick::row_pid("host/apps/firefox"), None);
    assert_eq!(pick::row_pid("host/apps/firefox/i/1/p/x"), None);
}

// ---------------------------------------------------------------------------
// Columns
// ---------------------------------------------------------------------------

fn column(label: &str, header: &str, width: u16) -> Column {
    Column { label: label.into(), header: header.into(), width }
}

fn all_columns() -> Vec<Column> {
    vec![
        column("name", "NAME", 28),
        column("spark", "TREND", 9),
        column("pss", "PSS", 8),
        column("rss", "RSS", 8),
        column("swap", "SWAP", 8),
        column("core", "%CORE", 7),
        column("vram", "VRAM", 8),
        column("dstate", "D", 4),
        column("cpustall", "CPU!", 6),
    ]
}

/// A clipped number is a wrong number. Every column the layout keeps must have
/// room for its whole width.
#[test]
fn a_column_is_drawn_whole_or_not_at_all() {
    let cols = columns::from_view(&all_columns(), &View::default());
    let width_of = |i: usize| cols[i].width;
    for avail in [10_u16, 20, 30, 44, 50, 70, 100, 160, 400] {
        let n = columns::columns_that_fit(&cols, 0, avail, true);
        assert!(n >= 1, "at least one column always survives");
        if n < cols.len() {
            // The next column was refused, so it did not fit.
            let used: u16 = (0..n).map(|i| width_of(i) + u16::from(i > 0)).sum();
            assert!(used + width_of(n) + 1 > avail, "column {n} was dropped but fits in {avail}");
        }
        if n > 1 {
            let used: u16 = (0..n).map(|i| width_of(i) + u16::from(i > 0)).sum();
            assert!(used <= avail, "{n} columns overflow {avail}");
        }
    }
    // Wider is never fewer columns.
    let narrow = columns::columns_that_fit(&cols, 0, 50, true);
    let wide = columns::columns_that_fit(&cols, 0, 160, true);
    assert!(wide > narrow, "a wider table must show more columns");
}

fn sort_header_title(cols: &[Column], skip: usize, sort: &str) -> Option<String> {
    cols.iter().skip(skip).find(|c| c.label == sort).map(|c| c.header.clone())
}

#[test]
fn the_sort_column_header_is_the_one_on_screen() {
    let cols = columns::from_view(&all_columns(), &View::default());
    assert_eq!(sort_header_title(&cols, 0, "pss").as_deref(), Some("PSS"));
    assert_eq!(sort_header_title(&cols, 0, "name").as_deref(), Some("NAME"));
    assert_eq!(sort_header_title(&cols, 1, "name"), None);
    let hidden = columns::from_view(
        &all_columns(),
        &View { hide_columns: vec!["pss".into()], ..View::default() },
    );
    assert_eq!(sort_header_title(&hidden, 0, "pss"), None);
    assert_eq!(sort_header_title(&hidden, 0, "rss").as_deref(), Some("RSS"));
}

#[test]
fn a_named_order_comes_first_and_the_rest_keep_their_place() {
    let cols = columns::from_view(
        &all_columns(),
        &View {
            column_order: vec!["core".into(), "name".into()],
            hide_columns: vec!["rss".into()],
            ..View::default()
        },
    );
    let labels: Vec<&str> = cols.iter().map(|c| c.label.as_str()).collect();
    assert_eq!(labels.len(), all_columns().len() - 1);
    assert!(!labels.contains(&"rss"));
    let at = |l: &str| labels.iter().position(|x| *x == l).unwrap();
    assert!(at("core") < at("pss") && at("pss") < at("swap"));
}

// ---------------------------------------------------------------------------
// Keys
// ---------------------------------------------------------------------------

const NONE: Held = Held { control: false, alt: false, meta: false };
const CTRL: Held = Held { control: true, alt: false, meta: false };
const ALT: Held = Held { control: false, alt: true, meta: false };

fn test_app() -> App {
    let view = View::default();
    App {
        cursor: 0,
        row_vis: 10,
        expand: Vec::new(),
        cols: columns::from_view(&all_columns(), &view),
        filter_edit: false,
        filter_ok: true,
        filter_re: Filter::new(""),
        view,
        col_off: 0,
        status: String::new(),
        help: false,
        detail: false,
        paused: None,
    }
}

fn press(app: &mut App, key: Key, held: Held, rows: &Vec<Flat>) -> Action {
    app.handle_key(key, held, rows, &all_columns(), 0)
}

/// Raw mode turns ISIG off, so nothing else is ever going to catch these.
#[test]
fn a_modified_key_never_reaches_its_bare_binding() {
    let rows = filter_rows();
    for (key, what) in [
        ('c', "sort cycle"),
        ('d', "sort direction"),
        ('s', "view save"),
        ('H', "hide column"),
        ('u', "unhide column"),
    ] {
        let mut app = test_app();
        let before = (app.view.sort.clone(), app.view.desc, app.view.hide_columns.clone());
        let a = press(&mut app, Key::Char(key), CTRL, &rows);
        assert_eq!(
            (app.view.sort.clone(), app.view.desc, app.view.hide_columns.clone()),
            before,
            "ctrl-{key} reached the {what} binding"
        );
        // Ctrl-C is the one that means something, and it means quit.
        assert_eq!(a == Action::Quit, key == 'c', "ctrl-{key} gave {a:?}");
        assert_ne!(a, Action::Save);
    }

    // Alt and Super are dropped outright; neither quits nor acts.
    let mut app = test_app();
    assert_eq!(press(&mut app, Key::Char('c'), ALT, &rows), Action::Stay);
    assert_eq!(app.view.sort, View::default().sort);

    // A capital is how you type one: it must still reach the bindings.
    let mut app = test_app();
    app.filter_edit = true;
    press(&mut app, Key::Char('A'), NONE, &rows);
    assert_eq!(app.view.filter, "A");

    // And Ctrl-C quits out of the filter editor too, rather than typing.
    let mut app = test_app();
    app.filter_edit = true;
    assert_eq!(press(&mut app, Key::Char('c'), CTRL, &rows), Action::Quit);
    assert!(app.view.filter.is_empty(), "ctrl-c must not type a `c`");
}

#[test]
fn hide_hides_the_sort_column_and_u_puts_it_back() {
    let rows = filter_rows();
    let mut app = test_app();
    assert_eq!(app.view.sort, "pss");
    press(&mut app, Key::Char('H'), NONE, &rows);
    assert_eq!(app.view.hide_columns, ["pss"]);
    assert_eq!(app.view.sort, "rss");
    press(&mut app, Key::Char('u'), NONE, &rows);
    assert!(app.view.hide_columns.is_empty());
    assert!(app.cols.iter().any(|c| c.label == "pss"));
}

#[test]
fn the_footer_marker_tracks_every_edit_to_the_pattern() {
    let rows: Vec<Flat> = Vec::new();
    let mut app = test_app();
    app.filter_edit = true;

    // Half-written: the table keeps the last pattern that worked, and the
    // footer has to say so.
    for c in ['a', 'p', 'p', '['] {
        press(&mut app, Key::Char(c), NONE, &rows);
    }
    assert!(!app.filter_ok, "`app[` is not a pattern");
    assert!(app.filter_re.as_ref().unwrap().is_match("an app"));
    assert!(!app.filter_re.as_ref().unwrap().is_match("ap["));

    // Completing it clears the marker.
    press(&mut app, Key::Char('a'), NONE, &rows);
    press(&mut app, Key::Char(']'), NONE, &rows);
    assert!(app.filter_ok, "`app[a]` is one");

    // Backspacing back into a broken pattern brings it back.
    press(&mut app, Key::Backspace, NONE, &rows);
    assert!(!app.filter_ok, "backspace put it back to `app[a`");

    // Esc empties the pattern, and an empty one filters nothing and compiles
    // fine.
    press(&mut app, Key::Esc, NONE, &rows);
    assert!(app.view.filter.is_empty());
    assert!(app.filter_ok, "an empty pattern is not a broken one");
}

#[test]
fn an_open_row_closes_and_opens_again() {
    let rows: Vec<Flat> = vec![Flat { expandable: true, ..flat(0, "host") }];
    let mut app = test_app();
    press(&mut app, Key::Enter, NONE, &rows);
    assert_eq!(app.expand, ["host"]);
    press(&mut app, Key::Enter, NONE, &rows);
    assert!(app.expand.is_empty());
}

#[test]
fn only_s_saves_and_q_quits() {
    let rows = filter_rows();
    let mut app = test_app();
    assert_eq!(press(&mut app, Key::Char('s'), NONE, &rows), Action::Save);
    app.saved("/home/me/.config/heft/view.json");
    assert!(app.status.contains("/home/me/.config/heft/view.json"), "{}", app.status);
    assert_eq!(press(&mut app, Key::Char('q'), NONE, &rows), Action::Quit);
}

#[test]
fn help_text_aligns_keys() {
    let text = keys::help_text(UNICODE);
    let lines: Vec<&str> = text.lines().collect();
    assert!(!lines.is_empty());
    assert!(lines.iter().all(|l| !l.is_empty()));
    for line in &lines {
        let chars: Vec<char> = line.chars().collect();
        assert!(chars.len() > 20);
        assert_eq!(chars[20], ' ');
    }
}

// ---------------------------------------------------------------------------
// The detail pane
// ---------------------------------------------------------------------------

fn cells() -> Vec<String> {
    [
        "TREND", "PSS", "RSS", "SWAP", "%CORE", "%HOST", "THR", "AGE", "READ", "WRITE", "VRAM",
        "GTT", "GFX", "CMP", "RX", "TX", "D", "CPU!", "IO!", "MEM!",
    ]
    .iter()
    .map(|h| detail::metric_cell(h, "1.0G"))
    .collect()
}

/// The pane lists every column, and speaks of one process only where the row
/// is one.
#[test]
fn detail_lists_every_column_and_only_reads_proc_for_a_pid() {
    let text = detail::detail_text("firefox", &cells(), 80, None);
    for c in cells() {
        assert!(text.contains(c.trim_end()), "{c} missing from {text}");
    }
    assert!(!text.contains("CGROUP"), "an aggregate row has no one pid");
    assert_eq!(pick::row_pid("host/apps/firefox/i/1/p/1"), Some(1));
    let facts = vec![("CGROUP".to_string(), "0::/init.scope".to_string())];
    let text = detail::detail_text("firefox", &cells(), 80, Some(&facts));
    assert!(text.contains("CGROUP") && text.contains("0::/init.scope"), "{text}");
}

#[test]
fn detail_metrics_fill_the_width_they_are_given() {
    let deep = |w| detail::detail_text("firefox", &cells(), w, None).lines().count();
    let wide = deep(150);
    assert!(wide < deep(20), "a wide pane must be shorter than a narrow one");
    assert!(wide <= 8, "expected a compact grid, got {wide} lines");
    for line in detail::detail_text("firefox", &cells(), 150, None).lines() {
        assert!(line.chars().count() <= 150, "grid overflowed: {line:?}");
    }
}

#[test]
fn an_overlay_stays_in_its_pane() {
    let pane = Area { x: 2, y: 1, width: 40, height: 10 };
    let p = detail::popup("a\nlonger line\nb", pane);
    assert!(p.x >= pane.x && p.x + p.width <= pane.x + pane.width);
    assert!(p.y >= pane.y && p.y + p.height <= pane.y + pane.height);
    let full = detail::popup(&"wide ".repeat(100), pane);
    assert!(full.width <= pane.width && full.height <= pane.height);
}

// ---------------------------------------------------------------------------
// Trends
// ---------------------------------------------------------------------------

fn buf(v: &[u64]) -> Vec<u64> {
    v.to_vec()
}

#[test]
fn a_trend_draws_against_the_frames_scale() {
    let ramp = glyph::spark_ramp(UNICODE);
    let low = ramp[0];
    let high = ramp[ramp.len() - 1];
    let spark = |v: Option<&Vec<u64>>, full: u64| trend::spark(v, full, UNICODE);

    assert_eq!(spark(None, 100), "");
    assert_eq!(spark(Some(&buf(&[])), 100), "");
    // Steadily zero is flat at the bottom, not blank.
    assert_eq!(spark(Some(&buf(&[0, 0])), 100), format!("{low}{low}"));
    assert_eq!(spark(Some(&buf(&[4; 3])), 100), format!("{low}{low}{low}"));
    // 400% and 4% are different pictures.
    assert_eq!(spark(Some(&buf(&[0, 400])), 100), format!("{low}{high}"));
    assert_eq!(spark(Some(&buf(&[0, 4])), 100), format!("{low}{low}"));
    // Full scale tops out, and above it pins rather than rescaling.
    assert_eq!(spark(Some(&buf(&[100])), 100), high.to_string());
    // Nothing on screen has a figure yet: the floor, not a divide by zero.
    assert_eq!(spark(Some(&buf(&[5])), 0), low.to_string());
    // One sample per value, so the cell never outgrows the column.
    assert_eq!(spark(Some(&buf(&[1; trend::TREND])), 100).chars().count(), trend::TREND);
}

fn flat_row(id: &str, trimmable: bool) -> Flat {
    Flat { trimmable, ..flat(0, id) }
}

#[test]
fn auto_prefers_the_cell_grid_locally_and_the_wire_cost_remotely() {
    let caps = |kitty, sixel| Caps { kitty, sixel };
    let resolve = trend::resolve_trend;
    assert_eq!(resolve(caps(true, true), false), TrendMode::Kitty);
    assert_eq!(resolve(caps(true, false), false), TrendMode::Kitty);
    // Over ssh that transport sends every pixel inline.
    assert_eq!(resolve(caps(true, true), true), TrendMode::Sixel);
    // Only one on offer, so the connection does not come into it.
    assert_eq!(resolve(caps(false, true), false), TrendMode::Sixel);
    assert_eq!(resolve(caps(false, true), true), TrendMode::Sixel);
    assert_eq!(resolve(caps(true, false), true), TrendMode::Kitty);
    // A terminal that answered neither gets the character ramp.
    assert_eq!(resolve(caps(false, false), false), TrendMode::Chars);
    assert_eq!(resolve(Caps::default(), true), TrendMode::Chars);
}

fn history(samples: &[(&str, &[u64])]) -> History {
    let mut h = History::new();
    for (id, v) in samples {
        h.samples.insert(id.to_string(), v.to_vec());
    }
    h
}

#[test]
fn an_aggregate_row_has_no_trend() {
    let h = history(&[("host", &[50]), ("a", &[50])]);
    let rows = vec![flat_row("host", false), flat_row("a", true)];
    let bands = trend::bands(&h, &rows, 0, 2).expect("a frame");
    assert!(bands[0].is_none(), "Host is a sum, not an entry");
    assert!(bands[1].is_some());
}

/// A percentage is full at 100 whatever else is on screen. Everything else
/// scales to the heaviest entry, never to Host.
#[test]
fn the_scale_is_the_metric_s_own_or_the_heaviest_entry() {
    let h = history(&[("host", &[9_000]), ("a", &[10, 40]), ("b", &[25])]);
    let rows = vec![flat_row("host", false), flat_row("a", true), flat_row("b", true)];
    assert_eq!(
        trend::trend_scale(Some(100), &rows, &h),
        100,
        "a percentage does not depend on what else is drawn"
    );
    assert_eq!(trend::trend_scale(None, &rows, &h), 40, "the heaviest entry, and Host is not one");
    assert_eq!(trend::trend_scale(None, &rows, &History::new()), 0, "nothing measured yet");
}

#[test]
fn a_row_that_is_gone_is_forgotten_and_a_new_sort_starts_over() {
    let mut h = History::new();
    let both = vec![flat_row("a", true), flat_row("b", true)];
    h.record("pss", &both, &vec![1, 2]);
    h.record("pss", &both, &vec![3, 4]);
    assert_eq!(h.samples.get("a"), Some(&vec![1, 3]));
    h.record("pss", &vec![flat_row("b", true)], &vec![5]);
    assert!(h.samples.get("a").is_none());
    assert_eq!(h.samples.get("b"), Some(&vec![2, 4, 5]));
    for n in 0..20 {
        h.record("pss", &vec![flat_row("b", true)], &vec![n]);
    }
    assert_eq!(h.samples.get("b").unwrap().len(), trend::TREND);
    h.record("rss", &vec![flat_row("b", true)], &vec![7]);
    assert_eq!(h.samples.get("b"), Some(&vec![7]));
}

#[test]
fn only_a_figure_in_trouble_is_marked() {
    let second: u64 = 1_000_000_000;
    let m = |d: u32, cpu: Option<u64>| Metrics {
        d_state_procs: d,
        cpu_stall: cpu,
        ..Metrics::default()
    };
    // Microseconds of a second that are one percent of it.
    let pct: u64 = 10_000;
    assert!(trend::alarming("dstate", &m(1, None), second));
    assert!(!trend::alarming("dstate", &m(0, None), second));
    // At the threshold, not merely past it.
    assert!(trend::alarming("cpustall", &m(0, Some(trend::STALL_ALARM * pct)), second));
    assert!(!trend::alarming("cpustall", &m(0, Some(trend::STALL_ALARM * pct - 1_000)), second));
    // A blank stall is no figure at all, so there is nothing to mark.
    assert!(!trend::alarming("cpustall", &m(0, None), second));
    // Every other column is left alone, including a large one.
    assert!(!trend::alarming("core", &m(9, Some(99 * pct)), second));
    assert!(!trend::alarming("name", &m(9, Some(99 * pct)), second));
}

/// Presence and non-emptiness decide, never the value.
#[test]
fn no_color_reads_presence_not_value() {
    assert!(!trend::no_color(None));
    assert!(!trend::no_color(Some("")));
    for v in ["1", "0", "false", "no", "yes"] {
        assert!(trend::no_color(Some(v)), "{v}");
    }
}

// ---------------------------------------------------------------------------
// The header
// ---------------------------------------------------------------------------

fn line(spans: &[Span]) -> String {
    spans.iter().map(|s| s.text.as_str()).collect()
}

fn mem_line(tree: &HostTree, width: u16) -> (String, usize) {
    let (spans, bar_w) = bars::mem_header_line(tree, width, UNICODE);
    (line(&spans), bar_w)
}

fn swap_line(tree: &HostTree, width: u16, bar_w: usize) -> Option<String> {
    bars::swap_header_line(tree, width, bar_w, UNICODE).map(|s| line(&s))
}

fn cpu_line(tree: &HostTree, width: u16, bar_w: usize) -> String {
    let w = CpuWeights { user: 500, system: 300, wait: 160 };
    line(&bars::cpu_header_line(tree, w, "9.6", width, bar_w, UNICODE))
}

#[test]
fn table_body_rows_two_header_no_box() {
    let header = bars::HEADER_ROWS;
    assert_eq!(pick::table_body_rows(24, header), 18);
    assert_eq!(pick::table_body_rows(6, header), 0);
    assert_eq!(pick::table_body_rows(7, header), 1);
    // A machine with swap spends one more row on the header, so the table
    // gets one fewer.
    assert_eq!(pick::table_body_rows(24, header + 1), 17);
    assert_eq!(pick::table_body_rows(7, header + 1), 0);
}

fn tree_with_gpu(gpu: &mem::GpuPool) -> HostTree {
    let mem_total = 32 * G;
    HostTree {
        mem_used_bytes: 8 * G,
        mem_total_bytes: mem_total,
        vram_used_bytes: gpu.vram_used,
        vram_total_bytes: gpu.vram_total,
        unified_memory: mem::is_unified(mem_total, gpu),
        ..HostTree::default()
    }
}

fn no_gpu() -> mem::GpuPool {
    mem::GpuPool { vram_used: None, vram_total: None, gtt_used: None, gtt_total: None }
}

/// Swap earns a row of its own; a machine without it draws two.
#[test]
fn the_header_grows_a_row_only_for_swap() {
    let mut tree = tree_with_gpu(&no_gpu());
    assert_eq!(bars::header_rows(&tree), 2);
    assert!(swap_line(&tree, 100, 40).is_none());
    tree.swap_total_bytes = 8 * G;
    tree.swap_used_bytes = 2 * G;
    assert_eq!(bars::header_rows(&tree), 3);
    let swap = swap_line(&tree, 100, 40).expect("a row");
    assert!(swap.starts_with(" SWAP ["), "{swap}");
    assert!(swap.contains("2.0G/8.0G"), "{swap}");
    assert_eq!(swap.chars().count(), 100);
    // Discrete VRAM still shares the MEMORY row.
    tree.vram_total_bytes = Some(12 * G);
    tree.vram_used_bytes = Some(6 * G);
    let mem = mem_line(&tree, 120).0;
    assert!(mem.contains("VRAM ["), "{mem}");
    assert!(!mem.contains("SWAP"), "swap left this row: {mem}");
}

#[test]
fn an_ascii_bar_fills_exactly_as_many_cells_as_a_unicode_one() {
    let parts = |a: char, b: char, c: char| {
        [
            Part { weight: 30, color: Color::Cyan, glyph: a },
            Part { weight: 30, color: Color::Magenta, glyph: b },
            Part { weight: 20, color: Color::Yellow, glyph: c },
        ]
    };
    for width in [1_usize, 7, 40, 137] {
        let uni = line(&bars::stacked_bar(width, &parts('█', '▓', '▒'), 100, '░'));
        let asc = line(&bars::stacked_bar(width, &parts('#', '=', '+'), 100, '.'));
        assert_eq!(uni.chars().count(), width, "unicode at {width}");
        assert_eq!(asc.chars().count(), width, "ascii at {width}");
    }
}

#[test]
fn share_cells_sums_to_fill() {
    let cells = bars::share_cells(&[25, 25, 50], 100, 10);
    assert_eq!(cells.iter().sum::<usize>(), 10);
    assert_eq!(cells, vec![3, 2, 5]);
}

#[test]
fn share_cells_leaves_remainder_for_idle() {
    let cells = bars::share_cells(&[18, 10, 5], 100, 20);
    assert_eq!(cells.iter().sum::<usize>(), 6);
}

#[test]
fn cpu_header_omits_disk_rates_and_fills_width() {
    let mut tree = HostTree {
        mem_used_bytes: 80 * G,
        mem_total_bytes: 125 * G,
        mem_cached_bytes: 20 * G,
        system: vec![IdentNode {
            metrics: Metrics {
                read_bytes: Some(96_400_000),
                written_bytes: Some(833_200),
                ..Metrics::default()
            },
            ..ident("sys")
        }],
        ..HostTree::default()
    };
    let width: u16 = 80;
    // The CPU bar takes the MEMORY row's first tank width, so the pair is
    // checked together.
    let rows = |tree: &HostTree, width: u16| {
        let (mem, bar_w) = mem_line(tree, width);
        (cpu_line(tree, width, bar_w), mem)
    };
    let bracket = |line: &str| line.chars().position(|c| c == ']');

    let (text, mem) = rows(&tree, width);
    assert!(text.contains("usr"));
    assert!(text.contains("wait"));
    assert!(!text.contains("/s R"));
    assert!(!text.contains("/s W"));
    assert_eq!(text.chars().count(), usize::from(width));
    assert_eq!(mem.chars().count(), usize::from(width));
    assert_eq!(bracket(&text), bracket(&mem), "{text}\n{mem}");

    let (wide, wide_mem) = rows(&tree, 200);
    assert_eq!(wide.chars().count(), 200);
    assert_eq!(wide_mem.chars().count(), 200);
    assert_eq!(bracket(&wide), bracket(&wide_mem), "{wide}\n{wide_mem}");

    // A host with pressure renders no differently.
    tree.psi_cpu_avg10 = Some("12.75".to_string());
    tree.psi_io_avg10 = None;
    tree.psi_mem_avg10 = Some("0.00".to_string());
    let (withpsi, psi_mem) = rows(&tree, width);
    assert!(!withpsi.contains("psi"), "{withpsi}");
    assert_eq!(withpsi.chars().count(), usize::from(width));
    assert_eq!(bracket(&withpsi), bracket(&psi_mem), "{withpsi}\n{psi_mem}");

    // With no memory at all the MEMORY suffix is the shorter of the two, and
    // this row stops at its own slack rather than overrunning the line.
    let none = HostTree::default();
    let (mem0, bar_w) = mem_line(&none, width);
    let idle = CpuWeights { user: 0, system: 0, wait: 0 };
    let cpu0 = line(&bars::cpu_header_line(&none, idle, "0.0", width, bar_w, UNICODE));
    assert_eq!(cpu0.chars().count(), usize::from(width));
    assert_eq!(mem0.chars().count(), usize::from(width));
    assert!(bracket(&cpu0) <= bracket(&mem0), "{cpu0}\n{mem0}");
}

#[test]
fn discrete_vram_gets_its_own_capacity() {
    let tree = tree_with_gpu(&mem::GpuPool {
        vram_used: Some(6 * G),
        vram_total: Some(12 * G),
        gtt_used: None,
        gtt_total: Some(4 * G),
    });
    assert!(!tree.unified_memory);
    let text = mem_line(&tree, 100).0;
    assert!(text.contains("VRAM ["), "{text}");
    assert!(text.contains("6.0G/12.0G"), "{text}");
    assert!(text.contains("8.0G/32.0G"), "{text}");
    assert_eq!(text.chars().count(), 100);
}

#[test]
fn discrete_gtt_still_paints_in_the_mem_bar() {
    let mut tree = tree_with_gpu(&mem::GpuPool {
        vram_used: Some(6 * G),
        vram_total: Some(12 * G),
        gtt_used: None,
        gtt_total: Some(4 * G),
    });
    tree.system = vec![IdentNode {
        metrics: Metrics { gtt_bytes: Some(2 * G), ..Metrics::default() },
        ..ident("sys")
    }];
    let (spans, _) = bars::mem_header_line(&tree, 100, UNICODE);
    let text = line(&spans);
    // GTT is system RAM sitting inside the MEM bar's used.
    assert!(text.contains("▄gtt/▓cache/▒buf"), "{text}");
    assert!(!text.contains("vram/"), "discrete vram is not a MEM segment");
    assert!(spans.iter().any(|s| s.text.contains('▄')), "{text}");
    assert_eq!(text.chars().count(), 100);
}

#[test]
fn unified_vram_stays_in_the_mem_bar() {
    let tree = tree_with_gpu(&mem::GpuPool {
        vram_used: Some(G / 2),
        vram_total: Some(G),
        gtt_used: None,
        gtt_total: Some(30 * G),
    });
    assert!(tree.unified_memory);
    let text = mem_line(&tree, 100).0;
    assert!(!text.contains("VRAM ["), "{text}");
    assert!(text.contains("▀vram/▄gtt/▓cache/▒buf"), "{text}");
    assert_eq!(text.chars().count(), 100);
}

#[test]
fn tank_widths_always_sum_to_the_row() {
    for width in [0, 1, 79, 80, 100, 201] {
        for tanks in 1..=3 {
            let w = bars::tank_widths(width, tanks);
            assert_eq!(w.len(), tanks);
            assert_eq!(w.iter().sum::<usize>(), width, "{width}/{tanks}");
        }
    }
    // MEM keeps the remainder: a side tank needs a fixed 32 whatever the
    // terminal is.
    assert_eq!(bars::tank_widths(101, 2), vec![69, 32]);
    // Two side tanks want 64, but the half-row cap binds first, so MEM still
    // keeps half rather than a third.
    assert_eq!(bars::tank_widths(120, 3), vec![60, 30, 30]);
    assert_eq!(bars::tank_widths(200, 2), vec![168, 32], "MEM takes the slack");
    // Narrow enough that the fixed budget would starve MEM.
    assert_eq!(bars::tank_widths(40, 2), vec![20, 20]);
    assert_eq!(bars::tank_widths(60, 3), vec![30, 15, 15]);
    assert_eq!(bars::tank_widths(80, 1), vec![80], "no side tanks, no split");
}

#[test]
fn a_swapless_host_gets_no_swap_tank() {
    let tree = tree_with_gpu(&no_gpu());
    assert_eq!(tree.swap_total_bytes, 0);
    let text = mem_line(&tree, 100).0;
    assert!(!text.contains("SWAP"), "{text}");
    assert!(text.starts_with(" MEM ["), "no swap, no padding: {text}");
    assert_eq!(text.chars().count(), 100);
}

/// Labels are right-aligned to the longest on screen.
#[test]
fn a_plain_machine_pads_nothing() {
    let mut tree = tree_with_gpu(&no_gpu());
    assert_eq!(tree.swap_total_bytes, 0);
    assert_eq!(bars::label_width(&tree), 3);
    let (mem, bar_w) = mem_line(&tree, 120);
    assert!(mem.starts_with(" MEM ["), "{mem}");
    let cpu = cpu_line(&tree, 120, bar_w);
    assert!(cpu.starts_with(" CPU ["), "{cpu}");
    assert_eq!(mem.find('[').unwrap(), 5);
    assert_eq!(cpu.find('[').unwrap(), 5);
    // A discrete card brings VRAM, which is as long as SWAP.
    tree.unified_memory = false;
    tree.vram_total_bytes = Some(12 * G);
    assert_eq!(bars::label_width(&tree), 4);
    assert!(mem_line(&tree, 120).0.starts_with("  MEM ["));
}

#[test]
fn every_header_bar_opens_in_the_same_column() {
    let mut tree = tree_with_gpu(&no_gpu());
    tree.swap_total_bytes = 8 * G;
    tree.swap_used_bytes = 2 * G;
    let (mem, bar_w) = mem_line(&tree, 120);
    let rows = [
        cpu_line(&tree, 120, bar_w),
        mem,
        swap_line(&tree, 120, bar_w).expect("a row"),
    ];
    let opens: Vec<usize> = rows.iter().map(|r| r.find('[').expect("a bar")).collect();
    assert_eq!(opens, vec![6, 6, 6], "{rows:#?}");
    let closes: Vec<usize> = rows.iter().map(|r| r.find(']').expect("a bar")).collect();
    assert_eq!(closes[0], closes[1]);
    assert_eq!(closes[1], closes[2]);
}

/// Swap is a device, not a slice of memory.
#[test]
fn swap_is_never_a_segment_of_the_mem_bar() {
    let mut tree = tree_with_gpu(&no_gpu());
    tree.swap_total_bytes = 8 * G;
    tree.swap_used_bytes = 2 * G;
    let mem = mem_line(&tree, 100).0;
    assert!(mem.contains("8.0G/32.0G"), "RAM only: {mem}");
    assert!(!mem.contains("SWAP"), "{mem}");
    assert_eq!(mem.chars().count(), 100);
    let swap = swap_line(&tree, 100, 40).expect("a row");
    assert!(swap.contains("2.0G/8.0G"), "{swap}");
    assert_eq!(swap.chars().count(), 100);
}

#[test]
fn swap_costs_the_mem_and_cpu_bars_nothing() {
    let mut swapped = tree_with_gpu(&no_gpu());
    let plain = mem_line(&swapped, 120).1;
    swapped.swap_total_bytes = 8 * G;
    swapped.swap_used_bytes = 2 * G;
    let with_swap = mem_line(&swapped, 120).1;
    // One column, and that one is the label pad that lines `[` up with SWAP's.
    assert_eq!(with_swap, plain - 1, "MEM went {plain} -> {with_swap}");
    // All three brackets stack in one column.
    let cpu = cpu_line(&swapped, 120, with_swap);
    let swap = swap_line(&swapped, 120, with_swap).expect("a row");
    let bar_of = |s: &str| {
        s.split_once('[').unwrap().1.split_once(']').unwrap().0.chars().count()
    };
    assert_eq!(bar_of(&cpu), with_swap);
    assert_eq!(bar_of(&swap), with_swap);
    assert_eq!(cpu.chars().count(), 120);
    assert_eq!(swap.chars().count(), 120);
}

// ---------------------------------------------------------------------------
// A frame
// ---------------------------------------------------------------------------

fn pen(mode: TrendMode, image: bool) -> Pen {
    Pen { mode, image, full: 100, set: UNICODE, elapsed_ns: 1_000_000_000 }
}

#[test]
fn a_frame_holds_the_rows_around_the_cursor() {
    let rows: Vec<Flat> = (0..30).map(|n| flat(3, &format!("r{n}"))).collect();
    let mut app = test_app();
    let mut seat = Seat::new();
    seat.id = "r20".to_string();
    seat.settle(&mut app, &rows, 16, bars::HEADER_ROWS);
    assert_eq!((app.cursor, app.row_vis, seat.row_off), (20, 10, 11));
    let w = frame::window(&app, 200, seat.row_off, rows.len());
    assert_eq!((w.start, w.end), (11, 21));
    assert!(w.name_on_screen && w.spark_shown);
    assert_eq!((w.skip, w.fit), (0, app.cols.len()));
    let figures: Vec<Vec<String>> =
        (w.start..w.end).map(|_| vec!["7".to_string(); app.cols.len()]).collect();
    let h = history(&[("r20", &[0, 100])]);
    let strips = frame::body(&app, &rows, w, &h, pen(TrendMode::Chars, false), &figures);
    assert_eq!(strips.len(), 10);
    assert_eq!(strips.iter().position(|s| s.selected), Some(9));
    let last = &strips[9].fields;
    assert_eq!(last[0].text, "        r20");
    assert_eq!(last[1].text.chars().count(), 2, "two samples");
    assert_eq!(last[2].text, "7");
    // The list is turned over; the cursor stays on its row.
    app.cursor = 3;
    seat.pin(&app, &rows);
    let turned: Vec<Flat> = (0..30).rev().map(|n| flat(3, &format!("r{n}"))).collect();
    seat.settle(&mut app, &turned, 16, bars::HEADER_ROWS);
    assert_eq!(app.cursor, 26);
}

#[test]
fn a_narrow_frame_drops_columns_and_scrolls_to_them() {
    let mut app = test_app();
    let w = frame::window(&app, 40, 0, 0);
    assert!(w.fit < app.cols.len());
    assert_eq!((w.start, w.end), (0, 0));
    app.col_off = 1_000;
    let w = frame::window(&app, 40, 0, 0);
    assert_eq!((w.skip, w.fit), (app.cols.len() - 1, 1));
    assert!(!w.name_on_screen && !w.spark_shown);
    assert_eq!(frame::rooms(&app.cols, w), [Room::Exactly(columns::BARE_WIDTH)]);
    app.col_off = 0;
    let w = frame::window(&app, 40, 0, 0);
    assert_eq!(frame::rooms(&app.cols, w)[0], Room::AtLeast(28));
}

#[test]
fn a_cell_stands_out_where_it_should() {
    let h = history(&[("a", &[1])]);
    let none: Vec<String> = Vec::new();
    let cell = |label: &str, f: &Flat, p: Pen| frame::cell(label, f, &none, &h, 0, p, "9");
    let a = flat(0, "a");
    assert_eq!(cell("pss", &a, pen(TrendMode::Chars, false)).stress, Stress::Plain);
    assert_eq!(cell("spark", &a, pen(TrendMode::Sixel, true)).stress, Stress::Covered);
    assert_eq!(cell("spark", &a, pen(TrendMode::Kitty, true)).stress, Stress::Band);
    assert_eq!(cell("spark", &a, pen(TrendMode::Kitty, false)).stress, Stress::Plain);
    let total = flat_row("a", false);
    assert_eq!(cell("spark", &total, pen(TrendMode::Kitty, true)).stress, Stress::Plain);
    assert_eq!(cell("spark", &total, pen(TrendMode::Kitty, true)).text, "");
    let stuck = Flat {
        metrics: Metrics { d_state_procs: 1, ..Metrics::default() },
        ..flat(0, "a")
    };
    assert_eq!(cell("dstate", &stuck, pen(TrendMode::Chars, false)).stress, Stress::Alarm);
}

// ---------------------------------------------------------------------------
// Around the screen
// ---------------------------------------------------------------------------

#[test]
fn a_byte_count_is_written_to_its_significant_digits() {
    assert_eq!(once::fmt_bytes(Some(0)), "0");
    assert_eq!(once::fmt_bytes(Some(2 * G)), "2.0G");
    assert_eq!(once::fmt_bytes(Some(12 * G)), "12.0G");
    assert_eq!(once::fmt_bytes(Some(1536)), "1.5K");
    assert_eq!(once::fmt_bytes(None), "");
    assert_eq!(once::fmt_bytes(Some(1023)), "1023");
    assert_eq!(once::fmt_bytes(Some(1024)), "1.0K");
    assert_eq!(once::fmt_bytes(Some(1024 * 1024)), "1.0M");
    assert_eq!(once::fmt_bytes(Some(1024 * 1024 * 1024)), "1.0G");
}

#[test]
fn what_is_asked_for_decides_the_mode() {
    let asked = Asked { once: false, json: false, follow: false, explain: None, fixture: false };
    assert_eq!(mode::mode(asked, true), Ok(Mode::Interactive));
    assert_eq!(mode::mode(asked, false), Err(Refusal::NoTerminal));
    assert_eq!(mode::mode(Asked { once: true, ..asked }, false), Ok(Mode::Table));
    assert_eq!(mode::mode(Asked { json: true, ..asked }, false), Ok(Mode::Json));
    assert_eq!(
        mode::mode(Asked { json: true, follow: true, ..asked }, false),
        Ok(Mode::FollowJson)
    );
    assert_eq!(
        mode::mode(Asked { once: true, follow: true, ..asked }, false),
        Ok(Mode::FollowTable)
    );
    assert_eq!(mode::mode(Asked { follow: true, ..asked }, true), Err(Refusal::FollowAlone));
    assert_eq!(
        mode::mode(Asked { explain: Some(7), ..asked }, false),
        Ok(Mode::Explain(7))
    );
}

#[test]
fn a_held_object_has_one_short_path() {
    assert_eq!(tty::held_path("/heft-12-0").as_deref(), Some("/dev/shm/heft-12-0"));
    assert_eq!(tty::held_path(&format!("/{}", "x".repeat(tty::PATH_MAX))), None);
}

#[test]
fn waits_are_read_only_where_a_column_shows_them() {
    let mut cols = vec![column("name", "NAME", 28), column("rss", "RSS", 8)];
    assert!(!columns::shows_stalls(&cols));
    assert!(!columns::shows_stalls(&Vec::new()));
    cols.push(column("iostall", "IO ST", 6));
    assert!(columns::shows_stalls(&cols));
}
