//! What a control-group path and a command line say about who a process is.
use vstd::prelude::*;
use vstd::utf8::*;

use crate::classify;
use crate::text;
use crate::types::Process;

pub mod laws;

verus! {

/// What is read of bytes that are not well-formed UTF-8.
pub uninterp spec fn repaired_text(b: Seq<u8>) -> Seq<char>;

/// The text that bytes spell. Ill-formed ones are read as well as they can be.
pub open spec fn lossy_text(b: Seq<u8>) -> Seq<char> {
    if valid_utf8(b) {
        decode_utf8(b)
    } else {
        repaired_text(b)
    }
}

/// `String::from_utf8_lossy`: well-formed bytes are read as what they encode;
/// where U+FFFD stands for ill-formed ones is not said here beyond its being a
/// function of the bytes.
#[verifier::external_body]
pub(crate) fn text_lossy(b: &[u8]) -> (r: String)
    ensures
        r@ == if valid_utf8(b@) {
            decode_utf8(b@)
        } else {
            repaired_text(b@)
        },
{
    String::from_utf8_lossy(b).into_owned()
}

/// Well-formed bytes come back from the text that is read of them: nothing of
/// them is lost.
pub proof fn law_well_formed_bytes_are_kept(b: Seq<u8>)
    requires
        valid_utf8(b),
    ensures
        encode_utf8(lossy_text(b)) == b,
{
    decode_utf8_encode_utf8(b);
}

/// The index after the hexadecimal digits that stand at `from`.
pub open spec fn hex_end(s: Seq<char>, from: int) -> int
    decreases s.len() - from,
{
    if from < 0 || from >= s.len() || !text::is_hex(s[from]) {
        from
    } else {
        hex_end(s, from + 1)
    }
}

fn hex_stop(s: &[char], from: usize) -> (r: usize)
    requires
        from <= s@.len(),
    ensures
        r == hex_end(s@, from as int),
        from <= r <= s@.len(),
{
    let mut i: usize = from;
    while i < s.len() && text::hex_char(s[i])
        invariant
            from <= i <= s@.len(),
            hex_end(s@, from as int) == hex_end(s@, i as int),
        decreases s.len() - i,
    {
        i += 1;
    }
    i
}

/// The container id of a scope whose name begins at `j`: `prefix`, at least
/// twelve hexadecimal digits, `.scope`.
pub open spec fn scope_id_at(cgroup: Seq<char>, prefix: Seq<char>, j: int) -> Option<Seq<char>> {
    let i = j + prefix.len();
    let e = hex_end(cgroup, i);
    if text::occurs_at(cgroup, prefix, j) && e - i >= 12 && text::occurs_at(cgroup, ".scope"@, e) {
        Some(text::lowered(cgroup.subrange(i, e)))
    } else {
        None
    }
}

/// The first such id at or after `j`.
pub open spec fn scope_id_from(cgroup: Seq<char>, prefix: Seq<char>, j: int) -> Option<Seq<char>>
    decreases cgroup.len() + 1 - j,
{
    if j < 0 || j > cgroup.len() {
        None
    } else {
        match scope_id_at(cgroup, prefix, j) {
            Some(id) => Some(id),
            None => scope_id_from(cgroup, prefix, j + 1),
        }
    }
}

/// The Docker id of the scope a process runs in, else the Podman one.
pub open spec fn container_scope(cgroup: Seq<char>) -> Option<Seq<char>> {
    match scope_id_from(cgroup, "docker-"@, 0) {
        Some(id) => Some(id),
        None => scope_id_from(cgroup, "libpod-"@, 0),
    }
}

pub fn docker_scope_id(cgroup: &str) -> (r: Option<String>)
    ensures
        text::opt_text(r) == container_scope(cgroup@),
{
    match scope_hex(cgroup, "docker-") {
        Some(id) => Some(id),
        None => scope_hex(cgroup, "libpod-"),
    }
}

fn scope_hex(cgroup: &str, prefix: &str) -> (r: Option<String>)
    ensures
        text::opt_text(r) == scope_id_from(cgroup@, prefix@, 0),
{
    let s = text::chars_of(cgroup);
    let p = text::chars_of(prefix);
    let tail = text::chars_of(".scope");
    let mut j: usize = 0;
    while j <= s.len()
        invariant
            j <= s.len() + 1,
            s@ == cgroup@,
            p@ == prefix@,
            tail@ == ".scope"@,
            scope_id_from(cgroup@, prefix@, 0) == scope_id_from(cgroup@, prefix@, j as int),
        decreases s.len() + 1 - j,
    {
        if text::occurs(s.as_slice(), p.as_slice(), j) {
            let i: usize = j + p.len();
            let e: usize = hex_stop(s.as_slice(), i);
            if e - i >= 12 && text::occurs(s.as_slice(), tail.as_slice(), e) {
                let id = text::string_of(text::cut(s.as_slice(), i, e).as_slice());
                return Some(text::lower_string(id.as_str()));
            }
        }
        if j == s.len() {
            assert(scope_id_from(cgroup@, prefix@, j + 1) is None);
            return None;
        }
        j += 1;
    }
    None
}

pub open spec fn system_slice(cgroup: Seq<char>) -> bool {
    text::has_infix(cgroup, "/system.slice/"@) || text::has_suffix(cgroup, "/system.slice"@)
}

pub open spec fn user_slice(cgroup: Seq<char>) -> bool {
    text::has_infix(cgroup, "/user.slice/"@) || text::has_infix(cgroup, "user@"@)
}

pub fn in_system_slice(cgroup: &str) -> (r: bool)
    ensures
        r == system_slice(cgroup@),
{
    text::str_infixed(cgroup, "/system.slice/") || text::str_suffixed(cgroup, "/system.slice")
}

pub fn in_user_slice(cgroup: &str) -> (r: bool)
    ensures
        r == user_slice(cgroup@),
{
    text::str_infixed(cgroup, "/user.slice/") || text::str_infixed(cgroup, "user@")
}

/// The path below the user manager: what follows the first slash after
/// `user@`. Without a `user@` the whole path; with one and nothing below it,
/// none.
pub open spec fn below_user_manager(cgroup: Seq<char>) -> Option<Seq<char>> {
    match text::find_at(cgroup, "user@"@, 0) {
        None => Some(cgroup),
        Some(i) => {
            let slash = text::index_from(cgroup, '/', i);
            if slash + 1 < cgroup.len() {
                Some(text::rest_from(cgroup, slash + 1))
            } else {
                None
            }
        },
    }
}

/// The unit a process runs in: the last segment below the user manager, with
/// its escapes undone.
pub open spec fn unit_of(cgroup: Seq<char>) -> Option<Seq<char>> {
    match below_user_manager(cgroup) {
        Some(path) => {
            let leaf = text::after_last(path, '/');
            if leaf.len() == 0 {
                None
            } else {
                Some(unescape(leaf))
            }
        },
        None => None,
    }
}

pub fn user_unit(cgroup: &str) -> (r: Option<String>)
    ensures
        text::opt_text(r) == unit_of(cgroup@),
{
    let s = text::chars_of(cgroup);
    let p = text::chars_of("user@");
    let path = match text::find_from(s.as_slice(), p.as_slice(), 0) {
        None => cgroup,
        Some(i) => {
            let slash: usize = text::index_of(s.as_slice(), '/', i);
            if slash >= s.len() || slash + 1 >= s.len() {
                return None;
            }
            cgroup.substring_char(slash + 1, s.len())
        },
    };
    let leaf = text::str_after_last(path, '/');
    if leaf.is_empty() {
        return None;
    }
    Some(systemd_unescape(leaf))
}

/// The value of one hexadecimal digit.
pub open spec fn hex_digit(b: u8) -> Option<u8> {
    if 48 <= b <= 57 {
        Some((b - 48) as u8)
    } else if 97 <= b <= 102 {
        Some((b - 87) as u8)
    } else if 65 <= b <= 70 {
        Some((b - 55) as u8)
    } else {
        None
    }
}

/// The byte two characters after `\x` name: two hexadecimal digits, or a plus
/// sign and one.
pub open spec fn escape_value(hi: u8, lo: u8) -> Option<u8> {
    match (hex_digit(hi), hex_digit(lo)) {
        (Some(h), Some(l)) => Some((h * 16 + l) as u8),
        (None, Some(l)) => if hi == 43 {
            Some(l)
        } else {
            None
        },
        _ => None,
    }
}

/// The byte that the escape standing at `i` names, if one stands there.
pub open spec fn escape_at(b: Seq<u8>, i: int) -> Option<u8> {
    if 0 <= i && i + 3 < b.len() && b[i] == 92 && b[i + 1] == 120 {
        escape_value(b[i + 2], b[i + 3])
    } else {
        None
    }
}

/// `b` from `i` on with every `\xNN` replaced by the byte it names.
pub open spec fn unescaped_from(b: Seq<u8>, i: int) -> Seq<u8>
    decreases b.len() - i,
{
    if i < 0 || i >= b.len() {
        Seq::empty()
    } else {
        match escape_at(b, i) {
            Some(v) => seq![v] + unescaped_from(b, i + 4),
            None => seq![b[i]] + unescaped_from(b, i + 1),
        }
    }
}

/// A unit name with its escapes undone. The escapes name bytes, so the text is
/// read only once all of them are back in place.
pub open spec fn unescape(s: Seq<char>) -> Seq<char> {
    lossy_text(unescaped_from(encode_utf8(s), 0))
}

fn hex_value(b: u8) -> (r: Option<u8>)
    ensures
        r == hex_digit(b),
{
    if 48 <= b && b <= 57 {
        Some(b - 48)
    } else if 97 <= b && b <= 102 {
        Some(b - 87)
    } else if 65 <= b && b <= 70 {
        Some(b - 55)
    } else {
        None
    }
}

fn escape_byte(hi: u8, lo: u8) -> (r: Option<u8>)
    ensures
        r == escape_value(hi, lo),
{
    match (hex_value(hi), hex_value(lo)) {
        (Some(h), Some(l)) => Some(h * 16 + l),
        (None, Some(l)) => if hi == 43 {
            Some(l)
        } else {
            None
        },
        _ => None,
    }
}

pub fn systemd_unescape(s: &str) -> (r: String)
    ensures
        r@ == unescape(s@),
        valid_utf8(unescaped_from(encode_utf8(s@), 0)) ==> encode_utf8(r@) == unescaped_from(
            encode_utf8(s@),
            0,
        ),
{
    let b = s.as_bytes();
    let mut out: Vec<u8> = Vec::new();
    let mut i: usize = 0;
    while i < b.len()
        invariant
            i <= b@.len(),
            out@ + unescaped_from(b@, i as int) == unescaped_from(b@, 0),
        decreases b.len() - i,
    {
        let ghost before = out@;
        if b[i] == 92 && b.len() - i > 3 && b[i + 1] == 120 {
            if let Some(v) = escape_byte(b[i + 2], b[i + 3]) {
                out.push(v);
                i += 4;
                assert(before + (seq![v] + unescaped_from(b@, i as int)) =~= out@ + unescaped_from(
                    b@,
                    i as int,
                ));
                continue ;
            }
        }
        out.push(b[i]);
        i += 1;
        assert(before + (seq![b@[i - 1]] + unescaped_from(b@, i as int)) =~= out@ + unescaped_from(
            b@,
            i as int,
        ));
    }
    assert(out@ + Seq::<u8>::empty() =~= out@);
    proof {
        if valid_utf8(out@) {
            law_well_formed_bytes_are_kept(out@);
        }
    }
    text_lossy(out.as_slice())
}

/// A unit that does not say what runs in it.
pub open spec fn unit_lies(unit: Seq<char>) -> bool {
    let u = text::lowered(unit);
    text::has_infix(u, "-transient-"@) || text::has_infix(u, "org.chromium.chromium"@) || text::has_prefix(
        u,
        "dbus:"@,
    ) || text::has_prefix(u, "dbus-:"@) || text::has_prefix(u, "run-u"@) || text::has_prefix(
        u,
        "flatpak-session-helper"@,
    )
}

pub fn lying_unit(unit: &str) -> (r: bool)
    ensures
        r == unit_lies(unit@),
{
    let low = text::lower_string(unit);
    let u = low.as_str();
    text::str_infixed(u, "-transient-") || text::str_infixed(u, "org.chromium.chromium") || text::str_prefixed(
        u,
        "dbus:",
    ) || text::str_prefixed(u, "dbus-:") || text::str_prefixed(u, "run-u") || text::str_prefixed(
        u,
        "flatpak-session-helper",
    )
}

/// The user manager's own scope, or a service that no application started.
pub open spec fn service_unit(unit: Seq<char>) -> bool {
    let u = text::lowered(unit);
    u == "init.scope"@ || (text::has_suffix(u, ".service"@) && !text::has_prefix(u, "app-"@))
}

pub fn is_user_service_unit(unit: &str) -> (r: bool)
    ensures
        r == service_unit(unit@),
{
    let low = text::lower_string(unit);
    let u = low.as_str();
    text::same_str(u, "init.scope") || (text::str_suffixed(u, ".service") && !text::str_prefixed(u, "app-"))
}

/// `s` without `.scope`, else without `.service`.
pub open spec fn without_unit_suffix(s: Seq<char>) -> Seq<char> {
    if text::has_suffix(s, ".scope"@) {
        s.subrange(0, s.len() - ".scope"@.len())
    } else if text::has_suffix(s, ".service"@) {
        s.subrange(0, s.len() - ".service"@.len())
    } else {
        s
    }
}

/// A unit's name without its suffix and without its instance.
pub open spec fn stem_of_unit(unit: Seq<char>) -> Seq<char> {
    let s = without_unit_suffix(unit);
    match text::cut_first(s, '@') {
        Some((name, _)) => name,
        None => s,
    }
}

pub fn unit_stem(unit: &str) -> (r: String)
    ensures
        r@ == stem_of_unit(unit@),
{
    let s = match text::str_strip_suffix(unit, ".scope") {
        Some(t) => t,
        None => match text::str_strip_suffix(unit, ".service") {
            Some(t) => t,
            None => unit,
        },
    };
    match text::str_cut_first(s, '@') {
        Some((name, _)) => name.to_owned(),
        None => s.to_owned(),
    }
}

/// The kernel's own answer, not one read off uid, parent or name.
pub fn is_kernel(p: &Process) -> (r: bool)
    ensures
        r == p.kthread,
{
    p.kthread
}

/// A script name that says nothing of the program.
pub open spec fn anonymous_script(b: Seq<char>) -> bool {
    b == "main.js"@ || b == "main"@ || b == "index.js"@ || b == "app.js"@ || b == "server.js"@ || b
        == "run.js"@
}

/// What an interpreter is called: its unit's stem where the unit does not lie
/// and is not the bare `app`, else the script it runs where that has a name of
/// its own, else its own name.
pub open spec fn fallback_name(p: Process, unit: Option<Seq<char>>) -> Seq<char> {
    match unit {
        Some(u) if !unit_lies(u) && stem_of_unit(u).len() > 0 && stem_of_unit(u)
            != "app"@ => stem_of_unit(u),
        _ => script_or_name(p),
    }
}

/// The script an interpreter runs where that has a name of its own, else the
/// interpreter's name.
pub open spec fn script_or_name(p: Process) -> Seq<char> {
    match classify::script_of(text::texts(p.cmdline@)) {
        Some(s) if !anonymous_script(text::after_last(s, '/')) => s,
        _ => classify::process_name(p),
    }
}

fn is_anonymous(b: &str) -> (r: bool)
    ensures
        r == anonymous_script(b@),
{
    text::same_str(b, "main.js") || text::same_str(b, "main") || text::same_str(b, "index.js") || text::same_str(
        b,
        "app.js",
    ) || text::same_str(b, "server.js") || text::same_str(b, "run.js")
}

pub fn generic_fallback(p: &Process, unit: Option<&str>) -> (r: String)
    ensures
        r@ == fallback_name(*p, text::opt_str(unit)),
{
    if let Some(u) = unit {
        if !lying_unit(u) {
            let stem = unit_stem(u);
            if !stem.as_str().is_empty() && !text::same_str(stem.as_str(), "app") {
                return stem;
            }
        }
    }
    if let Some(script) = classify::script_basename(p.cmdline.as_slice()) {
        if !is_anonymous(classify::basename(script.as_str())) {
            return script;
        }
    }
    classify::name_of(p)
}

/// What tells one running copy of an application from another: its container,
/// else its unit where that does not lie, else its process group.
pub open spec fn instance_of(p: Process, container: Option<Seq<char>>) -> Seq<char> {
    match container {
        Some(id) => "ctr:"@ + id,
        None => match unit_of(p.cgroup@) {
            Some(u) if !unit_lies(u) => u,
            _ => "pgid:"@ + text::signed_decimal(p.pgrp as int),
        },
    }
}

pub fn instance_key(p: &Process, container_id: Option<&str>) -> (r: String)
    ensures
        r@ == instance_of(*p, text::opt_str(container_id)),
{
    if let Some(id) = container_id {
        return text::joined("ctr:", id);
    }
    if let Some(unit) = user_unit(p.cgroup.as_str()) {
        if !lying_unit(unit.as_str()) {
            return unit;
        }
    }
    text::joined("pgid:", text::signed_text(p.pgrp).as_str())
}

// ---------------------------------------------------------------------------
// Scopes that name what runs in them
// ---------------------------------------------------------------------------

/// `s` without a last dash and the digits that follow it.
pub open spec fn without_serial(s: Seq<char>) -> Seq<char> {
    match text::before_last(s, '-') {
        Some(head) => if text::all_digits(text::after_last(s, '-')) {
            head
        } else {
            s
        },
        None => s,
    }
}

/// The name in `app-<name>-<serial>.scope`.
pub open spec fn scope_name(unit: Seq<char>) -> Option<Seq<char>> {
    let inner = unit.subrange("app-"@.len() as int, unit.len() - ".scope"@.len());
    if unit.len() >= "app-"@.len() + ".scope"@.len() && text::has_prefix(unit, "app-"@)
        && text::has_suffix(unit, ".scope"@) && without_serial(inner).len() > 0 {
        Some(without_serial(inner))
    } else {
        None
    }
}

/// The part of a scope's name after the launcher that its first dash ends.
pub open spec fn scope_short_name(full: Seq<char>) -> Option<Seq<char>> {
    match text::cut_first(full, '-') {
        Some((_, short)) => if short.len() > 0 {
            Some(short)
        } else {
            None
        },
        None => None,
    }
}

fn strip_serial(s: &str) -> (r: &str)
    ensures
        r@ == without_serial(s@),
{
    match text::str_before_last(s, '-') {
        Some(head) => {
            let digits = digits_only(text::str_after_last(s, '-'));
            if digits {
                head
            } else {
                s
            }
        },
        None => s,
    }
}

/// The application a scope names, in full and without its launcher.
pub fn app_scope_names(unit: &str) -> (r: Option<(String, Option<String>)>)
    ensures
        match r {
            Some((full, short)) => scope_name(unit@) == Some(full@) && text::opt_text(short)
                == scope_short_name(full@),
            None => scope_name(unit@) is None,
        },
{
    let v = text::chars_of(unit);
    let head = text::chars_of("app-");
    let tail = text::chars_of(".scope");
    let (h, t): (usize, usize) = (head.len(), tail.len());
    if v.len() < h || v.len() - h < t || !text::prefixed(v.as_slice(), head.as_slice())
        || !text::suffixed(v.as_slice(), tail.as_slice()) {
        return None;
    }
    let full = strip_serial(unit.substring_char(h, v.len() - t));
    if full.is_empty() {
        return None;
    }
    let short = match text::str_cut_first(full, '-') {
        Some((_, s)) => if s.is_empty() {
            None
        } else {
            Some(s.to_owned())
        },
        None => None,
    };
    Some((full.to_owned(), short))
}

/// `s` without a virtualisation driver and the number it gave the machine.
pub open spec fn without_driver(s: Seq<char>) -> Seq<char> {
    match text::cut_first(s, '-') {
        Some((driver, rest)) => match text::cut_first(rest, '-') {
            Some((number, name)) => if (driver == "qemu"@ || driver == "lxc"@) && text::all_digits(
                number,
            ) && name.len() > 0 {
                name
            } else {
                s
            },
            None => s,
        },
        None => s,
    }
}

/// The machine in `/machine.slice/machine-<name>.scope`.
pub open spec fn machine_of(cgroup: Seq<char>) -> Option<Seq<char>> {
    match text::find_at(cgroup, "/machine.slice/"@, 0) {
        None => None,
        Some(i) => {
            let from = i + "/machine.slice/"@.len();
            let segment = cgroup.subrange(from, text::index_from(cgroup, '/', from));
            let (head, tail) = ("machine-"@, ".scope"@);
            if segment.len() >= head.len() + tail.len() && text::has_prefix(segment, head)
                && text::has_suffix(segment, tail) {
                let name = without_driver(
                    unescape(segment.subrange(head.len() as int, segment.len() - tail.len())),
                );
                if name.len() > 0 {
                    Some(name)
                } else {
                    None
                }
            } else {
                None
            }
        },
    }
}

fn digits_only(s: &str) -> (r: bool)
    ensures
        r == text::all_digits(s@),
{
    let v = text::chars_of(s);
    let mut i: usize = 0;
    while i < v.len()
        invariant
            i <= v.len(),
            v@ == s@,
            forall|j: int| 0 <= j < i ==> text::is_digit(#[trigger] s@[j]),
        decreases v.len() - i,
    {
        if !text::digit_char(v[i]) {
            assert(!text::is_digit(s@[i as int]));
            return false;
        }
        i += 1;
    }
    v.len() > 0
}

fn strip_driver(s: &str) -> (r: &str)
    ensures
        r@ == without_driver(s@),
{
    match text::str_cut_first(s, '-') {
        Some((driver, rest)) => match text::str_cut_first(rest, '-') {
            Some((number, name)) => if (text::same_str(driver, "qemu") || text::same_str(
                driver,
                "lxc",
            )) && digits_only(number) && !name.is_empty() {
                name
            } else {
                s
            },
            None => s,
        },
        None => s,
    }
}

/// The container or virtual machine whose scope a process runs in.
pub fn machine_scope_name(cgroup: &str) -> (r: Option<String>)
    ensures
        text::opt_text(r) == machine_of(cgroup@),
{
    let s = text::chars_of(cgroup);
    let p = text::chars_of("/machine.slice/");
    match text::find_from(s.as_slice(), p.as_slice(), 0) {
        None => None,
        Some(i) => {
            let n: usize = s.len();
            assert(text::occurs_at(s@, p@, i as int));
            assert(i + p@.len() <= n);
            let from: usize = i + p.len();
            let end: usize = text::index_of(s.as_slice(), '/', from);
            let segment = text::cut(s.as_slice(), from, end);
            let head = text::chars_of("machine-");
            let tail = text::chars_of(".scope");
            let (h, t): (usize, usize) = (head.len(), tail.len());
            if segment.len() < h || segment.len() - h < t || !text::prefixed(
                segment.as_slice(),
                head.as_slice(),
            ) || !text::suffixed(segment.as_slice(), tail.as_slice()) {
                return None;
            }
            let inner = text::string_of(
                text::cut(segment.as_slice(), h, segment.len() - t).as_slice(),
            );
            let plain = systemd_unescape(inner.as_str());
            let name = strip_driver(plain.as_str());
            if name.is_empty() {
                None
            } else {
                Some(name.to_owned())
            }
        },
    }
}

} // verus!
