//! What a process is called, what it runs and whose crash it handles, told by
//! the paths and arguments it has.
use vstd::prelude::*;

use crate::classify;
use crate::rules;
use crate::rules::meaning::one_text;
use crate::rules::{Class, Classes, Rules};
use crate::text;
use crate::text::laws::lacks;
use crate::types::Process;

verus! {

// ---------------------------------------------------------------------------
// Names
// ---------------------------------------------------------------------------

/// A process is called by the last part of its executable's path.
pub proof fn law_a_process_is_called_by_its_executable(
    dir: Seq<char>,
    base: Seq<char>,
    comm: Seq<char>,
)
    requires
        lacks(base, '/'),
        base.len() > 0,
        base[0] != '[',
        base != "exe"@,
        base != "tdeinit"@,
    ensures
        classify::display_name(Some(dir + seq!['/'] + base), comm) == base,
        classify::display_name(Some(base), comm) == base,
{
    text::laws::law_on_either_side_of_the_last(dir, '/', base);
    text::laws::law_on_either_side_of_the_last(base, '/', base);
}

/// Where the executable is unknown or a placeholder, a process is called what
/// it calls itself.
pub proof fn law_a_process_may_name_itself(dir: Seq<char>, base: Seq<char>, comm: Seq<char>)
    requires
        lacks(base, '/'),
        base.len() == 0 || base[0] == '[' || base == "exe"@ || (base == "tdeinit"@ && comm.len()
            > 0),
    ensures
        classify::display_name(Some(dir + seq!['/'] + base), comm) == comm,
        classify::display_name(None, comm) == comm,
{
    text::laws::law_on_either_side_of_the_last(dir, '/', base);
    reveal_strlit("tdeinit");
    reveal_strlit("exe");
}

// ---------------------------------------------------------------------------
// Scripts
// ---------------------------------------------------------------------------

/// An argument that names no script: a flag, or a bare word without a dot.
pub open spec fn names_no_script(arg: Seq<char>) -> bool {
    (arg.len() > 0 && arg[0] == '-') || (lacks(arg, '/') && lacks(arg, '.'))
}

proof fn lemma_no_script(arg: Seq<char>)
    requires
        names_no_script(arg),
    ensures
        classify::script_of_arg(arg) is None,
{
    if !(arg.len() > 0 && arg[0] == '-') {
        text::lemma_last_none(arg, '/');
        text::lemma_last_none(arg, '.');
        assert(!arg.contains('/'));
    }
}

proof fn lemma_script_at(argv: Seq<Seq<char>>, k: int, j: int, s: Seq<char>)
    requires
        1 <= j <= k < argv.len(),
        classify::script_of_arg(argv[k]) == Some(s),
        forall|m: int| 1 <= m < k ==> names_no_script(#[trigger] argv[m]),
    ensures
        classify::script_from(argv, j) == Some(s),
    decreases k - j,
{
    if j < k {
        assert(names_no_script(argv[j]));
        lemma_no_script(argv[j]);
        lemma_script_at(argv, k, j + 1, s);
    }
}

/// The script is the first argument that is a path, by its last part, past
/// every flag and every bare word.
pub proof fn law_a_path_is_the_script(
    argv: Seq<Seq<char>>,
    k: int,
    dir: Seq<char>,
    base: Seq<char>,
)
    requires
        1 <= k < argv.len(),
        forall|m: int| 1 <= m < k ==> names_no_script(#[trigger] argv[m]),
        argv[k] == dir + seq!['/'] + base,
        argv[k][0] != '-',
        lacks(base, '/'),
        base.len() > 0,
    ensures
        classify::script_of(argv) == Some(base),
{
    text::laws::law_on_either_side_of_the_last(dir, '/', base);
    assert(argv[k][dir.len() as int] == '/');
    assert(argv[k].contains('/'));
    lemma_script_at(argv, k, 1, base);
}

/// A bare word is a script where its suffix is an interpreter's.
pub proof fn law_a_bare_script_is_the_script(
    argv: Seq<Seq<char>>,
    k: int,
    stem: Seq<char>,
    ext: Seq<char>,
)
    requires
        1 <= k < argv.len(),
        forall|m: int| 1 <= m < k ==> names_no_script(#[trigger] argv[m]),
        argv[k] == stem + seq!['.'] + ext,
        argv[k][0] != '-',
        lacks(argv[k], '/'),
        ext == "js"@ || ext == "mjs"@ || ext == "cjs"@ || ext == "ts"@ || ext == "py"@ || ext
            == "rb"@ || ext == "pl"@ || ext == "php"@,
    ensures
        classify::script_of(argv) == Some(argv[k]),
{
    reveal_strlit("js");
    reveal_strlit("mjs");
    reveal_strlit("cjs");
    reveal_strlit("ts");
    reveal_strlit("py");
    reveal_strlit("rb");
    reveal_strlit("pl");
    reveal_strlit("php");
    assert(lacks(ext, '.'));
    text::lemma_last_none(argv[k], '/');
    text::laws::law_on_either_side_of_the_last(stem, '.', ext);
    assert(!argv[k].contains('/'));
    lemma_script_at(argv, k, 1, argv[k]);
}

// ---------------------------------------------------------------------------
// Flags
// ---------------------------------------------------------------------------

/// An argument that is not the flag, alone or with a value.
pub open spec fn another_flag(arg: Seq<char>, flag: Seq<char>) -> bool {
    arg != flag && forall|v: Seq<char>| arg != #[trigger] (flag + seq!['='] + v)
}

proof fn lemma_flag_at(argv: Seq<Seq<char>>, flag: Seq<char>, k: int, j: int)
    requires
        0 <= j <= k < argv.len(),
        forall|m: int| 0 <= m < k ==> another_flag(#[trigger] argv[m], flag),
    ensures
        classify::flag_value_from(argv, flag, j) == classify::flag_value_from(argv, flag, k),
    decreases k - j,
{
    if j < k {
        let arg = argv[j];
        assert(another_flag(arg, flag));
        text::laws::law_parts_of_a_text(arg, flag + seq!['=']);
        lemma_flag_at(argv, flag, k, j + 1);
    }
}

/// A flag is given the argument after it, or what follows its equals sign:
/// the first time it stands there.
pub proof fn law_the_value_of_a_flag(
    argv: Seq<Seq<char>>,
    flag: Seq<char>,
    k: int,
    v: Seq<char>,
)
    requires
        0 <= k < argv.len(),
        forall|m: int| 0 <= m < k ==> another_flag(#[trigger] argv[m], flag),
    ensures
        argv[k] == flag && k + 1 < argv.len() && argv[k + 1] == v ==> classify::flag_value_from(
            argv,
            flag,
            0,
        ) == Some(v),
        argv[k] == flag + seq!['='] + v ==> classify::flag_value_from(argv, flag, 0) == Some(v),
        argv[k] == flag && k + 1 == argv.len() ==> classify::flag_value_from(argv, flag, 0) is None,
{
    lemma_flag_at(argv, flag, k, 0);
    if argv[k] == flag + seq!['='] + v {
        text::laws::law_parts_of_a_text(argv[k], flag + seq!['=']);
        assert(argv[k].len() == flag.len() + 1 + v.len());
        assert(text::rest_from(argv[k], flag.len() as int + 1) =~= v);
    }
}

// ---------------------------------------------------------------------------
// Crash helpers
// ---------------------------------------------------------------------------

/// A path through Firefox is Firefox's, in any case.
pub proof fn law_a_path_through_firefox(s: Seq<char>, a: Seq<char>, b: Seq<char>, r: Rules)
    requires
        text::lowered(s) == a + "/firefox/"@ + b || text::lowered(s) == a + "/firefox"@,
    ensures
        classify::crash_path_app(s, r) == Some("firefox"@),
{
    text::laws::law_parts_of_a_text(text::lowered(s), "/firefox/"@);
    text::laws::law_parts_of_a_text(text::lowered(s), "/firefox"@);
}

/// Any other crash helper belongs to the directory it stands in, unless that
/// is shared by many programs.
pub proof fn law_a_crash_helper_is_its_directorys(
    dir: Seq<char>,
    owner: Seq<char>,
    helper: Seq<char>,
    r: Rules,
)
    requires
        lacks(owner, '/'),
        lacks(helper, '/'),
        owner.len() > 0,
        r.name_classes(helper).any_of(rules::class_bit(Class::CrashHelper)),
        ({
            let low = text::lowered(dir + seq!['/'] + owner + seq!['/'] + helper);
            !text::has_infix(low, "/firefox/"@) && !text::has_suffix(low, "/firefox"@)
                && !text::has_prefix(low, "/tmp/"@) && !text::has_prefix(low, "/var/tmp/"@)
                && !text::has_prefix(low, "/run/"@)
        }),
    ensures
        ({
            let shared = owner == "bin"@ || owner == "libexec"@ || owner == "lib"@ || owner
                == "lib64"@;
            classify::crash_path_app(dir + seq!['/'] + owner + seq!['/'] + helper, r) == if shared {
                None
            } else {
                Some(owner)
            }
        }),
{
    text::laws::law_on_either_side_of_the_last(dir + seq!['/'] + owner, '/', helper);
    text::laws::law_on_either_side_of_the_last(dir, '/', owner);
}

/// A crash helper belongs to the application its executable names, before any
/// that its arguments name; who is no crash helper belongs to none.
pub proof fn law_whose_crash_it_handles(p: Process, classes: Classes, r: Rules)
    ensures
        !classes.any_of(rules::class_bit(Class::CrashHelper)) ==> classify::crash_app(
            p,
            classes,
            r,
        ) is None,
        classes.any_of(rules::class_bit(Class::CrashHelper)) && p.exe is Some
            && classify::crash_path_app(p.exe->0@, r) is Some ==> classify::crash_app(p, classes, r)
            == classify::crash_path_app(p.exe->0@, r),
        classes.any_of(rules::class_bit(Class::CrashHelper)) && p.exe is None && p.cmdline@.len()
            > 0 && classify::crash_path_app(p.cmdline@[0]@, r) is Some ==> classify::crash_app(
            p,
            classes,
            r,
        ) == classify::crash_path_app(p.cmdline@[0]@, r),
{
    if p.cmdline@.len() > 0 {
        assert(text::texts(p.cmdline@)[0] == p.cmdline@[0]@);
    }
}

// ---------------------------------------------------------------------------
// Launchers
// ---------------------------------------------------------------------------

proof fn lemma_appimage(stem: Seq<char>, tail: Seq<char>)
    requires
        one_text(tail, ".appimage"@),
    ensures
        classify::without_suffix_folded(stem + tail, ".appimage"@) == Some(stem),
{
    let s = stem + tail;
    rules::meaning::law_folding_is_ascii_case(tail, ".appimage"@);
    assert(text::lowered(s) =~= text::lowered(stem) + text::lowered(tail));
    text::laws::law_parts_of_a_text(text::lowered(s), text::lowered(".appimage"@));
    assert(s.subrange(0, s.len() - ".appimage"@.len()) =~= stem);
}

/// An AppImage starts what it is called, and mounts it under the first six
/// characters of its name.
pub proof fn law_an_appimage_starts_itself(
    p: Process,
    stem: Seq<char>,
    tail: Seq<char>,
    r: Rules,
)
    requires
        classify::process_name(p) == stem + tail,
        one_text(tail, ".appimage"@),
        stem.len() > 0,
    ensures
        classify::payload_hint(p, r) == Some(stem),
        classify::mount_prefix(p) == Some("/tmp/.mount_"@ + (stem + tail).take(6)),
{
    lemma_appimage(stem, tail);
    reveal_strlit(".appimage");
    assert((stem + tail).take(6) =~= (stem + tail).subrange(0, 6));
}

/// An argument that a launcher passes by: a flag, a launcher, or the word
/// `child`.
pub open spec fn passed_by(arg: Seq<char>, r: Rules) -> bool {
    ||| arg.len() > 0 && arg[0] == '-'
    ||| lacks(arg, '/') && r.name_classes(arg).any_of(rules::class_bit(Class::Launcher))
    ||| one_text(arg, "child"@)
}

proof fn lemma_payload_at(argv: Seq<Seq<char>>, r: Rules, from: int, k: int, j: int)
    requires
        0 <= from <= j <= k < argv.len(),
        forall|m: int| from <= m < k ==> passed_by(#[trigger] argv[m], r),
    ensures
        classify::payload_from(argv, r, j) == classify::payload_from(argv, r, k),
    decreases k - j,
{
    if j < k {
        let arg = argv[j];
        assert(passed_by(arg, r));
        if one_text(arg, "child"@) {
            reveal_strlit("child");
            rules::meaning::law_folding_is_ascii_case(arg, "child"@);
            assert forall|m: int| 0 <= m < arg.len() implies #[trigger] arg[m] != '/' by {
                assert(rules::meaning::one_letter(arg[m], "child"@[m]));
            }
            text::lemma_last_none(arg, '/');
        } else if lacks(arg, '/') {
            text::lemma_last_none(arg, '/');
        }
        lemma_payload_at(argv, r, from, k, j + 1);
    }
}

proof fn lemma_dashes(argv: Seq<Seq<char>>, d: int, n: int)
    requires
        0 <= d < n <= argv.len(),
        argv[d] == "--"@,
        forall|m: int| d < m < argv.len() ==> #[trigger] argv[m] != "--"@,
    ensures
        classify::last_dashes(argv, n) == Some(d),
    decreases n - d,
{
    if d < n - 1 {
        assert(argv[n - 1] != "--"@);
        lemma_dashes(argv, d, n - 1);
    }
}

/// Any other launcher starts the first program after the last `--`, by the
/// last part of its path, past flags and other launchers.
pub proof fn law_a_launcher_starts_what_follows_the_dashes(
    p: Process,
    r: Rules,
    d: int,
    k: int,
    dir: Seq<char>,
    base: Seq<char>,
)
    requires
        classify::without_suffix_folded(classify::process_name(p), ".appimage"@) is None,
        0 <= d < k < p.cmdline@.len(),
        p.cmdline@[d]@ == "--"@,
        forall|m: int| d < m < p.cmdline@.len() ==> (#[trigger] p.cmdline@[m])@ != "--"@,
        forall|m: int| d < m < k ==> passed_by((#[trigger] p.cmdline@[m])@, r),
        p.cmdline@[k]@ == dir + seq!['/'] + base,
        p.cmdline@[k]@[0] != '-',
        lacks(base, '/'),
        base.len() > 0,
        !r.name_classes(base).any_of(rules::class_bit(Class::Launcher)),
        !one_text(base, "child"@),
    ensures
        classify::payload_hint(p, r) == Some(base),
{
    let argv = text::texts(p.cmdline@);
    assert(argv[d] == p.cmdline@[d]@);
    assert forall|m: int| d < m < argv.len() implies #[trigger] argv[m] != "--"@ by {
        assert(argv[m] == p.cmdline@[m]@);
    }
    lemma_dashes(argv, d, argv.len() as int);
    assert forall|m: int| d + 1 <= m < k implies passed_by(#[trigger] argv[m], r) by {
        assert(argv[m] == p.cmdline@[m]@);
    }
    lemma_payload_at(argv, r, d + 1, k, d + 1);
    assert(argv[k] == p.cmdline@[k]@);
    text::laws::law_on_either_side_of_the_last(dir, '/', base);
    rules::meaning::law_folding_is_ascii_case(base, "child"@);
}

/// A shell is interactive exactly where no argument gives it a command, a path
/// or a script.
pub proof fn law_a_shell_given_a_command_is_busy(p: Process, classes: Classes, k: int)
    requires
        1 <= k < p.cmdline@.len(),
        p.cmdline@[k]@ == "-c"@ || (p.cmdline@[k]@.len() > 0 && p.cmdline@[k]@[0] != '-'
            && p.cmdline@[k]@.contains('/')),
    ensures
        !classify::interactive_shell(p, classes),
{
    assert(classify::runs_something(p.cmdline@[k]@));
}

} // verus!
