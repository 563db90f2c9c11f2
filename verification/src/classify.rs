//! What a process calls itself, and what its command line gives away.
use vstd::prelude::*;

use crate::rules::{Classes, Rules};
use crate::text;
use crate::types::Process;

pub mod laws;

verus! {

/// The last segment of a path.
pub fn basename(path: &str) -> (r: &str)
    ensures
        r@ == text::after_last(path@, '/'),
{
    text::str_after_last(path, '/')
}

/// The display name: the executable's base name, except where that says less
/// than the name the process gave itself. `tdeinit` runs every program as a
/// module of its own; `exe` and a bracketed name are placeholders.
pub open spec fn display_name(exe: Option<Seq<char>>, comm: Seq<char>) -> Seq<char> {
    match exe {
        Some(e) => {
            let b = text::after_last(e, '/');
            if b == "tdeinit"@ && comm.len() > 0 {
                comm
            } else if b.len() > 0 && b != "exe"@ && b[0] != '[' {
                b
            } else {
                comm
            }
        },
        None => comm,
    }
}

/// The display name of a process.
pub open spec fn process_name(p: Process) -> Seq<char> {
    display_name(text::opt_text(p.exe), p.comm@)
}

pub fn name_ref(p: &Process) -> (r: &str)
    ensures
        r@ == process_name(*p),
{
    if let Some(exe) = &p.exe {
        let b = basename(exe.as_str());
        if text::same_str(b, "tdeinit") && !p.comm.as_str().is_empty() {
            return p.comm.as_str();
        }
        if !b.is_empty() && !text::same_str(b, "exe") && b.get_char(0) != '[' {
            return b;
        }
    }
    p.comm.as_str()
}

pub fn name_of(p: &Process) -> (r: String)
    ensures
        r@ == process_name(*p),
{
    name_ref(p).to_owned()
}

/// A file suffix that belongs to an interpreter.
pub open spec fn script_suffix(e: Seq<char>) -> bool {
    e == "js"@ || e == "mjs"@ || e == "cjs"@ || e == "ts"@ || e == "py"@ || e == "rb"@ || e == "pl"@
        || e == "php"@
}

/// An argument whose base name carries such a suffix.
pub open spec fn script_like(arg: Seq<char>) -> bool {
    let b = text::after_last(arg, '/');
    text::before_last(b, '.') is Some && script_suffix(text::after_last(b, '.'))
}

pub fn looks_script(arg: &str) -> (r: bool)
    ensures
        r == script_like(arg@),
{
    let b = basename(arg);
    if text::str_before_last(b, '.').is_none() {
        return false;
    }
    let e = text::str_after_last(b, '.');
    text::same_str(e, "js") || text::same_str(e, "mjs") || text::same_str(e, "cjs") || text::same_str(e, "ts") || text::same_str(
        e,
        "py",
    ) || text::same_str(e, "rb") || text::same_str(e, "pl") || text::same_str(e, "php")
}

pub open spec fn is_flag(arg: Seq<char>) -> bool {
    arg.len() > 0 && arg[0] == '-'
}

pub fn flag_arg(arg: &str) -> (r: bool)
    ensures
        r == is_flag(arg@),
{
    !arg.is_empty() && arg.get_char(0) == '-'
}

/// What one argument says of the script being run: the base name of a path,
/// or the whole of a bare script name. A flag says nothing.
pub open spec fn script_of_arg(arg: Seq<char>) -> Option<Seq<char>> {
    if is_flag(arg) {
        None
    } else if arg.contains('/') && text::after_last(arg, '/').len() > 0 {
        Some(text::after_last(arg, '/'))
    } else if script_like(arg) {
        Some(arg)
    } else {
        None
    }
}

/// The first argument at or after `i` that names a script.
pub open spec fn script_from(argv: Seq<Seq<char>>, i: int) -> Option<Seq<char>>
    decreases argv.len() - i,
{
    if i < 0 || i >= argv.len() {
        None
    } else {
        match script_of_arg(argv[i]) {
            Some(s) => Some(s),
            None => script_from(argv, i + 1),
        }
    }
}

/// The script a command line runs.
pub open spec fn script_of(argv: Seq<Seq<char>>) -> Option<Seq<char>> {
    script_from(argv, 1)
}

pub fn script_basename(cmdline: &[String]) -> (r: Option<String>)
    ensures
        text::opt_text(r) == script_of(text::texts(cmdline@)),
{
    let ghost argv = text::texts(cmdline@);
    let mut i: usize = 1;
    while i < cmdline.len()
        invariant
            1 <= i,
            argv == text::texts(cmdline@),
            script_of(argv) == script_from(argv, i as int),
        decreases cmdline.len() - i,
    {
        let arg = cmdline[i].as_str();
        assert(argv[i as int] == arg@);
        if !flag_arg(arg) {
            if text::str_has(arg, '/') {
                let b = basename(arg);
                if !b.is_empty() {
                    return Some(b.to_owned());
                }
            }
            if looks_script(arg) {
                return Some(arg.to_owned());
            }
        }
        i += 1;
    }
    None
}

/// The value `flag` is given at or after `i`: the next argument after the flag
/// on its own, or what follows `flag=`.
pub open spec fn flag_value_from(argv: Seq<Seq<char>>, flag: Seq<char>, i: int) -> Option<Seq<char>>
    decreases argv.len() - i,
{
    if i < 0 || i >= argv.len() {
        None
    } else if argv[i] == flag {
        if i + 1 < argv.len() {
            Some(argv[i + 1])
        } else {
            None
        }
    } else if text::has_prefix(argv[i], flag + seq!['=']) {
        Some(text::rest_from(argv[i], flag.len() as int + 1))
    } else {
        flag_value_from(argv, flag, i + 1)
    }
}

pub fn cmdline_flag_value<'a>(cmdline: &'a [String], flag: &str) -> (r: Option<&'a str>)
    ensures
        text::opt_str(r) == flag_value_from(text::texts(cmdline@), flag@, 0),
{
    let ghost argv = text::texts(cmdline@);
    let mut with_eq = flag.to_owned();
    with_eq.push('=');
    assert(with_eq@ =~= flag@ + seq!['=']);
    let mut i: usize = 0;
    while i < cmdline.len()
        invariant
            argv == text::texts(cmdline@),
            with_eq@ == flag@ + seq!['='],
            flag_value_from(argv, flag@, 0) == flag_value_from(argv, flag@, i as int),
        decreases cmdline.len() - i,
    {
        assert(argv[i as int] == cmdline@[i as int]@);
        if text::same_str(cmdline[i].as_str(), flag) {
            if i + 1 < cmdline.len() {
                return Some(cmdline[i + 1].as_str());
            }
            return None;
        }
        if let Some(v) = text::str_strip_prefix(cmdline[i].as_str(), with_eq.as_str()) {
            return Some(v);
        }
        i += 1;
    }
    None
}

// ---------------------------------------------------------------------------
// Judgements that take the rules
// ---------------------------------------------------------------------------

/// `s` without `suffix`, ASCII case aside.
pub open spec fn without_suffix_folded(s: Seq<char>, suffix: Seq<char>) -> Option<Seq<char>> {
    if text::has_suffix(text::lowered(s), text::lowered(suffix)) {
        Some(s.subrange(0, s.len() - suffix.len()))
    } else {
        None
    }
}

pub fn strip_suffix_ignore_ascii_case<'a>(s: &'a str, suffix: &str) -> (r: Option<&'a str>)
    ensures
        text::opt_str(r) == without_suffix_folded(s@, suffix@),
{
    let v = text::folded(s);
    let q = text::folded(suffix);
    if text::suffixed(v.as_slice(), q.as_slice()) {
        Some(s.substring_char(0, v.len() - q.len()))
    } else {
        None
    }
}

/// A directory that temporary mounts and unpacked archives live under.
pub open spec fn temp_root(lower: Seq<char>) -> bool {
    text::has_prefix(lower, "/tmp/"@) || text::has_prefix(lower, "/var/tmp/"@) || text::has_prefix(
        lower,
        "/run/"@,
    )
}

pub fn is_temp_unpack_root(lower: &str) -> (r: bool)
    ensures
        r == temp_root(lower@),
{
    text::str_prefixed(lower, "/tmp/") || text::str_prefixed(lower, "/var/tmp/")
        || text::str_prefixed(lower, "/run/")
}

/// The name of a mount that lives as long as one run.
pub open spec fn ephemeral_mount(owner: Seq<char>) -> bool {
    let o = text::lowered(owner);
    o == text::lowered("mount"@) || o == text::lowered("appimage"@) || text::has_prefix(
        o,
        text::lowered(".mount"@),
    )
}

pub fn is_ephemeral_mount_dir(owner: &str) -> (r: bool)
    ensures
        r == ephemeral_mount(owner@),
{
    text::same_str_folded(owner, "mount") || text::same_str_folded(owner, "appimage")
        || text::prefixed(text::folded(owner).as_slice(), text::folded(".mount").as_slice())
}

/// A directory that many programs share.
pub open spec fn shared_dir(owner: Seq<char>) -> bool {
    owner == "bin"@ || owner == "libexec"@ || owner == "lib"@ || owner == "lib64"@
}

/// The application a path to a crash helper names: Firefox where the path goes
/// through it, else the directory the helper stands in, where that is an
/// application's own.
pub open spec fn crash_path_app(s: Seq<char>, rules: Rules) -> Option<Seq<char>> {
    let low = text::lowered(s);
    if text::has_infix(low, "/firefox/"@) || text::has_suffix(low, "/firefox"@) {
        Some("firefox"@)
    } else if !rules.name_classes(text::after_last(s, '/')).any_of(Classes::CRASH_HELPER) {
        None
    } else {
        match text::before_last(s, '/') {
            None => None,
            Some(dir) => {
                let owner = text::after_last(dir, '/');
                if owner.len() == 0 || shared_dir(owner) || (temp_root(low) && ephemeral_mount(
                    owner,
                )) {
                    None
                } else {
                    Some(owner)
                }
            },
        }
    }
}

/// The first of the paths at or after `i` that names an application.
pub open spec fn crash_app_from(
    paths: Seq<Seq<char>>,
    rules: Rules,
    i: int,
) -> Option<Seq<char>>
    decreases paths.len() - i,
{
    if i < 0 || i >= paths.len() {
        None
    } else {
        match crash_path_app(paths[i], rules) {
            Some(app) => Some(app),
            None => crash_app_from(paths, rules, i + 1),
        }
    }
}

/// The application a crash helper belongs to: the first that its executable
/// or one of its arguments names.
pub open spec fn crash_app(p: Process, classes: Classes, rules: Rules) -> Option<Seq<char>> {
    if !classes.any_of(Classes::CRASH_HELPER) {
        None
    } else {
        let from_exe = match p.exe {
            Some(e) => crash_path_app(e@, rules),
            None => None,
        };
        match from_exe {
            Some(app) => Some(app),
            None => crash_app_from(text::texts(p.cmdline@), rules, 0),
        }
    }
}

fn app_from_crash_helper_path(s: &str, rules: &Rules) -> (r: Option<String>)
    ensures
        text::opt_text(r) == crash_path_app(s@, *rules),
{
    let low = text::lower_string(s);
    if text::str_infixed(low.as_str(), "/firefox/") || text::str_suffixed(
        low.as_str(),
        "/firefox",
    ) {
        return Some("firefox".to_owned());
    }
    if !rules.classes_of_name(basename(s)).has(Classes::CRASH_HELPER) {
        return None;
    }
    match text::str_before_last(s, '/') {
        None => None,
        Some(dir) => {
            let owner = basename(dir);
            if owner.is_empty() || text::same_str(owner, "bin") || text::same_str(owner, "libexec")
                || text::same_str(owner, "lib") || text::same_str(owner, "lib64") {
                return None;
            }
            if is_temp_unpack_root(low.as_str()) && is_ephemeral_mount_dir(owner) {
                return None;
            }
            Some(owner.to_owned())
        },
    }
}

pub fn crash_helper_app(p: &Process, classes: Classes, rules: &Rules) -> (r: Option<String>)
    ensures
        text::opt_text(r) == crash_app(*p, classes, *rules),
{
    if !classes.has(Classes::CRASH_HELPER) {
        return None;
    }
    if let Some(e) = &p.exe {
        if let Some(app) = app_from_crash_helper_path(e.as_str(), rules) {
            return Some(app);
        }
    }
    let ghost paths = text::texts(p.cmdline@);
    let mut i: usize = 0;
    while i < p.cmdline.len()
        invariant
            i <= p.cmdline.len(),
            paths == text::texts(p.cmdline@),
            classes.any_of(Classes::CRASH_HELPER),
            p.exe matches Some(e) ==> crash_path_app(e@, *rules) is None,
            crash_app_from(paths, *rules, 0) == crash_app_from(paths, *rules, i as int),
        decreases p.cmdline.len() - i,
    {
        assert(paths[i as int] == p.cmdline@[i as int]@);
        if let Some(app) = app_from_crash_helper_path(p.cmdline[i].as_str(), rules) {
            return Some(app);
        }
        i += 1;
    }
    None
}

/// Whether an interpreter may bill to such a parent: a program of its own
/// right, not one that runs others.
pub open spec fn takes_generic(parent: Classes) -> bool {
    !parent.any_of(
        Classes::GENERIC | Classes::LAUNCHER | Classes::SHELL | Classes::TERMINAL
            | Classes::COMPOSITOR | Classes::NO_ABSORB,
    )
}

pub fn absorbs_generic(parent: Classes) -> (r: bool)
    ensures
        r == takes_generic(parent),
{
    !parent.has(
        Classes::GENERIC | Classes::LAUNCHER | Classes::SHELL | Classes::TERMINAL
            | Classes::COMPOSITOR | Classes::NO_ABSORB,
    )
}

/// An argument that gives a shell something to run.
pub open spec fn runs_something(arg: Seq<char>) -> bool {
    arg == "-c"@ || (!is_flag(arg) && (arg.contains('/') || script_like(arg)))
}

/// A shell that was given nothing to run.
pub open spec fn interactive_shell(p: Process, classes: Classes) -> bool {
    classes.any_of(Classes::SHELL) && forall|i: int|
        1 <= i < p.cmdline@.len() ==> !runs_something((#[trigger] p.cmdline@[i])@)
}

pub fn is_interactive_shell(p: &Process, classes: Classes) -> (r: bool)
    ensures
        r == interactive_shell(*p, classes),
{
    if !classes.has(Classes::SHELL) {
        return false;
    }
    let mut i: usize = 1;
    while i < p.cmdline.len()
        invariant
            1 <= i,
            forall|j: int| 1 <= j < i && j < p.cmdline@.len() ==> !runs_something(
                (#[trigger] p.cmdline@[j])@,
            ),
        decreases p.cmdline.len() - i,
    {
        let arg = p.cmdline[i].as_str();
        if text::same_str(arg, "-c") || (!flag_arg(arg) && (text::str_has(arg, '/')
            || looks_script(arg))) {
            assert(runs_something(p.cmdline@[i as int]@));
            return false;
        }
        i += 1;
    }
    true
}

/// The last argument among the first `n` that is `--`.
pub open spec fn last_dashes(argv: Seq<Seq<char>>, n: int) -> Option<int>
    decreases n,
{
    if n <= 0 {
        None
    } else if argv[n - 1] == "--"@ {
        Some(n - 1)
    } else {
        last_dashes(argv, n - 1)
    }
}

/// An argument that names what a launcher starts: not a flag, not another
/// launcher, not the subcommand `child`.
pub open spec fn is_payload(arg: Seq<char>, rules: Rules) -> bool {
    let b = text::after_last(arg, '/');
    !is_flag(arg) && b.len() > 0 && !rules.name_classes(b).any_of(Classes::LAUNCHER)
        && !text::same_folded(b, "child"@)
}

/// The first argument at or after `i` that names what a launcher starts.
pub open spec fn payload_from(argv: Seq<Seq<char>>, rules: Rules, i: int) -> Option<Seq<char>>
    decreases argv.len() - i,
{
    if i < 0 || i >= argv.len() {
        None
    } else if is_payload(argv[i], rules) {
        Some(text::after_last(argv[i], '/'))
    } else {
        payload_from(argv, rules, i + 1)
    }
}

/// What a launcher says it starts: an AppImage its own name, in its own
/// letters; any other the first program after the last `--`.
pub open spec fn payload_hint(p: Process, rules: Rules) -> Option<Seq<char>> {
    let argv = text::texts(p.cmdline@);
    match without_suffix_folded(process_name(p), ".appimage"@) {
        Some(stem) if stem.len() > 0 => Some(stem),
        _ => match last_dashes(argv, argv.len() as int) {
            Some(i) => payload_from(argv, rules, i + 1),
            None => None,
        },
    }
}

pub fn launcher_payload_hint(p: &Process, rules: &Rules) -> (r: Option<String>)
    ensures
        text::opt_text(r) == payload_hint(*p, *rules),
{
    if let Some(stem) = strip_suffix_ignore_ascii_case(name_ref(p), ".appimage") {
        if !stem.is_empty() {
            return Some(stem.to_owned());
        }
    }
    let ghost argv = text::texts(p.cmdline@);
    let n: usize = p.cmdline.len();
    let mut i: usize = n;
    while i > 0
        invariant
            i <= n,
            n == p.cmdline@.len(),
            argv == text::texts(p.cmdline@),
            last_dashes(argv, n as int) == last_dashes(argv, i as int),
            payload_hint(*p, *rules) == (match last_dashes(argv, n as int) {
                Some(k) => payload_from(argv, *rules, k + 1),
                None => None,
            }),
        decreases i,
    {
        assert(argv[i - 1] == p.cmdline@[i - 1]@);
        if text::same_str(p.cmdline[i - 1].as_str(), "--") {
            let mut k: usize = i;
            while k < n
                invariant
                    i <= k <= n,
                    n == p.cmdline@.len(),
                    argv == text::texts(p.cmdline@),
                    payload_hint(*p, *rules) == payload_from(argv, *rules, i as int),
                    payload_from(argv, *rules, i as int) == payload_from(argv, *rules, k as int),
                decreases n - k,
            {
                let arg = p.cmdline[k].as_str();
                assert(argv[k as int] == arg@);
                if !flag_arg(arg) {
                    let b = basename(arg);
                    if !b.is_empty() && !rules.classes_of_name(b).has(Classes::LAUNCHER)
                        && !text::same_str_folded(b, "child") {
                        return Some(b.to_owned());
                    }
                }
                k += 1;
            }
            return None;
        }
        i -= 1;
    }
    None
}

// ---------------------------------------------------------------------------
// AppImages
// ---------------------------------------------------------------------------

/// Where the runtime of an AppImage mounts it: a directory of the temporary
/// files whose name starts with the first six characters of the image's.
pub open spec fn mount_prefix(p: Process) -> Option<Seq<char>> {
    let name = process_name(p);
    match without_suffix_folded(name, ".appimage"@) {
        Some(stem) if stem.len() > 0 => Some(
            "/tmp/.mount_"@ + name.subrange(
                0,
                if name.len() < 6 {
                    name.len() as int
                } else {
                    6
                },
            ),
        ),
        _ => None,
    }
}

pub fn appimage_mount_prefix(p: &Process) -> (r: Option<String>)
    ensures
        text::opt_text(r) == mount_prefix(*p),
{
    let name = name_ref(p);
    match strip_suffix_ignore_ascii_case(name, ".appimage") {
        Some(stem) => {
            if stem.is_empty() {
                return None;
            }
            let n: usize = name.unicode_len();
            Some(
                text::joined(
                    "/tmp/.mount_",
                    name.substring_char(
                        0,
                        if n < 6 {
                            n
                        } else {
                            6
                        },
                    ),
                ),
            )
        },
        None => None,
    }
}

} // verus!
