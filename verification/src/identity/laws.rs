//! What a control group says of a process, told by the parts its path is made
//! of.
use vstd::prelude::*;
use vstd::utf8::*;

use crate::classify;
use crate::identity;
use crate::text;
use crate::text::laws::lacks;
use crate::types::Process;

verus! {

// ---------------------------------------------------------------------------
// Slices
// ---------------------------------------------------------------------------

/// A path is the system's where it goes through or ends in the system's slice,
/// and the user's where it goes through the users' slice or a user manager.
pub proof fn law_slices(cgroup: Seq<char>)
    ensures
        identity::system_slice(cgroup) <==> (exists|a: Seq<char>, b: Seq<char>|
            cgroup == #[trigger] (a + "/system.slice/"@ + b)) || (exists|a: Seq<char>|
            cgroup == #[trigger] (a + "/system.slice"@)),
        identity::user_slice(cgroup) <==> (exists|a: Seq<char>, b: Seq<char>|
            cgroup == #[trigger] (a + "/user.slice/"@ + b)) || (exists|a: Seq<char>, b: Seq<char>|
            cgroup == #[trigger] (a + "user@"@ + b)),
{
    text::laws::law_parts_of_a_text(cgroup, "/system.slice/"@);
    text::laws::law_parts_of_a_text(cgroup, "/system.slice"@);
    text::laws::law_parts_of_a_text(cgroup, "/user.slice/"@);
    text::laws::law_parts_of_a_text(cgroup, "user@"@);
}

// ---------------------------------------------------------------------------
// Containers
// ---------------------------------------------------------------------------

proof fn lemma_hex_run(s: Seq<char>, k: int, e: int)
    requires
        0 <= k <= e <= s.len(),
        forall|j: int| k <= j < e ==> text::is_hex(#[trigger] s[j]),
        e < s.len() ==> !text::is_hex(s[e]),
    ensures
        identity::hex_end(s, k) == e,
    decreases e - k,
{
    if k < e {
        assert(text::is_hex(s[k]));
        lemma_hex_run(s, k + 1, e);
    }
}

/// Where a prefix that ends in its only dash can first stand.
proof fn lemma_no_earlier(
    s: Seq<char>,
    a: Seq<char>,
    prefix: Seq<char>,
    b: Seq<char>,
    j: int,
)
    requires
        s == a + prefix + b,
        lacks(a, '-'),
        prefix.len() > 0,
        prefix.last() == '-',
        lacks(prefix.drop_last(), '-'),
        0 <= j < a.len(),
    ensures
        !text::occurs_at(s, prefix, j),
{
    if text::occurs_at(s, prefix, j) {
        let at = j + prefix.len() - 1;
        assert(s.subrange(j, j + prefix.len())[prefix.len() - 1] == s[at]);
        if at < a.len() {
            assert(s[at] == a[at]);
        } else {
            assert(s[at] == prefix[at - a.len()]);
            assert(prefix.drop_last()[at - a.len()] == prefix[at - a.len()]);
        }
    }
}

proof fn lemma_scope_id(
    s: Seq<char>,
    a: Seq<char>,
    prefix: Seq<char>,
    id: Seq<char>,
    b: Seq<char>,
    j: int,
)
    requires
        s == a + prefix + (id + ".scope"@ + b),
        lacks(a, '-'),
        prefix.len() > 0,
        prefix.last() == '-',
        lacks(prefix.drop_last(), '-'),
        id.len() >= 12,
        forall|k: int| 0 <= k < id.len() ==> text::is_hex(#[trigger] id[k]),
        0 <= j <= a.len(),
    ensures
        identity::scope_id_from(s, prefix, j) == Some(text::lowered(id)),
    decreases a.len() - j,
{
    if j < a.len() {
        lemma_no_earlier(s, a, prefix, id + ".scope"@ + b, j);
        lemma_scope_id(s, a, prefix, id, b, j + 1);
    } else {
        let i = j + prefix.len() as int;
        let e = i + id.len() as int;
        reveal_strlit(".scope");
        assert(s.subrange(j, j + prefix.len()) =~= prefix);
        assert forall|k: int| i <= k < e implies text::is_hex(#[trigger] s[k]) by {
            assert(s[k] == id[k - i]);
        }
        assert(s[e] == '.');
        lemma_hex_run(s, i, e);
        assert(s.subrange(i, e) =~= id);
        assert(s.subrange(e, e + ".scope"@.len()) =~= ".scope"@);
    }
}

/// A Docker scope names its container: what stands between `docker-` and
/// `.scope`, in small letters, where that is an id.
pub proof fn law_a_docker_scope_names_its_container(a: Seq<char>, id: Seq<char>, b: Seq<char>)
    requires
        lacks(a, '-'),
        id.len() >= 12,
        forall|k: int| 0 <= k < id.len() ==> text::is_hex(#[trigger] id[k]),
    ensures
        identity::container_scope(a + "docker-"@ + (id + ".scope"@ + b)) == Some(text::lowered(id)),
{
    reveal_strlit("docker-");
    lemma_scope_id(a + "docker-"@ + (id + ".scope"@ + b), a, "docker-"@, id, b, 0);
}

proof fn lemma_no_docker(a: Seq<char>, id: Seq<char>, b: Seq<char>, j: int)
    requires
        lacks(a, '-'),
        lacks(b, '-'),
        forall|k: int| 0 <= k < id.len() ==> text::is_hex(#[trigger] id[k]),
        0 <= j,
    ensures
        identity::scope_id_from(a + "libpod-"@ + (id + ".scope"@ + b), "docker-"@, j) is None,
    decreases a.len() + 7 + id.len() + 6 + b.len() + 1 - j,
{
    let s = a + "libpod-"@ + (id + ".scope"@ + b);
    reveal_strlit("libpod-");
    reveal_strlit("docker-");
    reveal_strlit(".scope");
    if j <= s.len() {
        if text::occurs_at(s, "docker-"@, j) {
            let part = s.subrange(j, j + "docker-"@.len());
            assert(part[6] == '-' && part[0] == 'd');
            assert(s[j + 6] == '-' && s[j] == 'd');
            let n = a.len() as int;
            if j + 6 < n {
                assert(s[j + 6] == a[j + 6]);
            } else if j + 6 < n + 7 {
                assert(s[j + 6] == "libpod-"@[j + 6 - n]);
                assert(j == n);
                assert(s[j] == 'l');
            } else if j + 6 < n + 7 + id.len() {
                assert(text::is_hex(id[j + 6 - n - 7]));
                assert(s[j + 6] == id[j + 6 - n - 7]);
            } else if j + 6 < n + 13 + id.len() {
                assert(s[j + 6] == ".scope"@[j + 6 - n - 7 - id.len()]);
            } else {
                assert(s[j + 6] == b[j + 6 - n - 13 - id.len()]);
            }
        }
        lemma_no_docker(a, id, b, j + 1);
    }
}

/// A Podman scope names its container the same way.
pub proof fn law_a_podman_scope_names_its_container(a: Seq<char>, id: Seq<char>, b: Seq<char>)
    requires
        lacks(a, '-'),
        lacks(b, '-'),
        id.len() >= 12,
        forall|k: int| 0 <= k < id.len() ==> text::is_hex(#[trigger] id[k]),
    ensures
        identity::container_scope(a + "libpod-"@ + (id + ".scope"@ + b)) == Some(text::lowered(id)),
{
    reveal_strlit("libpod-");
    lemma_no_docker(a, id, b, 0);
    lemma_scope_id(a + "libpod-"@ + (id + ".scope"@ + b), a, "libpod-"@, id, b, 0);
}

// ---------------------------------------------------------------------------
// Units
// ---------------------------------------------------------------------------

proof fn lemma_find(s: Seq<char>, a: Seq<char>, p: Seq<char>, b: Seq<char>, c: char, j: int)
    requires
        s == a + p + b,
        lacks(a, c),
        p.len() > 0,
        p.last() == c,
        lacks(p.drop_last(), c),
        0 <= j <= a.len(),
    ensures
        text::find_at(s, p, j) == Some(a.len() as int),
    decreases a.len() - j,
{
    if j < a.len() {
        if text::occurs_at(s, p, j) {
            let at = j + p.len() - 1;
            assert(s.subrange(j, j + p.len())[p.len() - 1] == s[at]);
            if at < a.len() {
                assert(s[at] == a[at]);
            } else {
                assert(p.drop_last()[at - a.len()] == p[at - a.len()]);
            }
        }
        lemma_find(s, a, p, b, c, j + 1);
    } else {
        assert(s.subrange(j, j + p.len()) =~= p);
    }
}

proof fn lemma_slash(s: Seq<char>, k: int, e: int)
    requires
        0 <= k <= e < s.len(),
        s[e] == '/',
        forall|j: int| k <= j < e ==> #[trigger] s[j] != '/',
    ensures
        text::index_from(s, '/', k) == e,
    decreases e - k,
{
    if k < e {
        lemma_slash(s, k + 1, e);
    }
}

/// The unit of a process is the last part of its path, below the user manager
/// where there is one, with its escapes undone.
pub proof fn law_a_unit_is_the_last_part(
    a: Seq<char>,
    manager: Seq<char>,
    path: Seq<char>,
    leaf: Seq<char>,
)
    requires
        lacks(a, '@'),
        lacks(manager, '/'),
        lacks(leaf, '/'),
        leaf.len() > 0,
    ensures
        identity::unit_of(a + "user@"@ + (manager + seq!['/'] + (path + seq!['/'] + leaf))) == Some(
            identity::unescape(leaf),
        ),
        identity::unit_of(a + "user@"@ + (manager + seq!['/'] + leaf)) == Some(
            identity::unescape(leaf),
        ),
{
    reveal_strlit("user@");
    let below = path + seq!['/'] + leaf;
    let s = a + "user@"@ + (manager + seq!['/'] + below);
    let t = a + "user@"@ + (manager + seq!['/'] + leaf);
    lemma_find(s, a, "user@"@, manager + seq!['/'] + below, '@', 0);
    lemma_find(t, a, "user@"@, manager + seq!['/'] + leaf, '@', 0);
    let i = a.len() as int;
    let e = i + 5 + manager.len() as int;
    assert forall|j: int| i <= j < e implies #[trigger] s[j] != '/' by {
        if j < i + 5 {
            assert(s[j] == "user@"@[j - i]);
        } else {
            assert(s[j] == manager[j - i - 5]);
        }
    }
    assert forall|j: int| i <= j < e implies #[trigger] t[j] != '/' by {
        if j < i + 5 {
            assert(t[j] == "user@"@[j - i]);
        } else {
            assert(t[j] == manager[j - i - 5]);
        }
    }
    lemma_slash(s, i, e);
    lemma_slash(t, i, e);
    assert(text::rest_from(s, e + 1) =~= below);
    assert(text::rest_from(t, e + 1) =~= leaf);
    text::laws::law_on_either_side_of_the_last(path, '/', leaf);
    text::laws::law_on_either_side_of_the_last(leaf, '/', leaf);
}

proof fn lemma_no_user(s: Seq<char>, j: int)
    requires
        lacks(s, '@'),
        0 <= j,
    ensures
        text::find_at(s, "user@"@, j) is None,
    decreases s.len() + 1 - j,
{
    reveal_strlit("user@");
    if j <= s.len() {
        if text::occurs_at(s, "user@"@, j) {
            assert(s.subrange(j, j + "user@"@.len())[4] == s[j + 4]);
        }
        lemma_no_user(s, j + 1);
    }
}

/// Without a user manager the unit is the last part of the whole path.
pub proof fn law_a_unit_without_a_manager(path: Seq<char>, leaf: Seq<char>)
    requires
        lacks(path, '@'),
        lacks(leaf, '@'),
        lacks(leaf, '/'),
    ensures
        identity::unit_of(path + seq!['/'] + leaf) == if leaf.len() == 0 {
            None
        } else {
            Some(identity::unescape(leaf))
        },
{
    let s = path + seq!['/'] + leaf;
    assert forall|k: int| 0 <= k < s.len() implies #[trigger] s[k] != '@' by {
        if k < path.len() {
            assert(s[k] == path[k]);
        } else if k > path.len() {
            assert(s[k] == leaf[k - path.len() - 1]);
        }
    }
    lemma_no_user(s, 0);
    text::laws::law_on_either_side_of_the_last(path, '/', leaf);
}

proof fn lemma_plain_bytes(b: Seq<u8>, i: int)
    requires
        0 <= i <= b.len(),
        forall|k: int| 0 <= k < b.len() ==> #[trigger] b[k] != 92,
    ensures
        identity::unescaped_from(b, i) == b.skip(i),
    decreases b.len() - i,
{
    if i < b.len() {
        lemma_plain_bytes(b, i + 1);
        assert(b.skip(i) =~= seq![b[i]] + b.skip(i + 1));
    } else {
        assert(b.skip(i) =~= Seq::<u8>::empty());
    }
}

/// A name without a backslash is read as it stands.
pub proof fn law_a_plain_name_stays(s: Seq<char>)
    requires
        forall|k: int| 0 <= k < encode_utf8(s).len() ==> #[trigger] encode_utf8(s)[k] != 92,
    ensures
        identity::unescape(s) == s,
{
    let b = encode_utf8(s);
    lemma_plain_bytes(b, 0);
    assert(b.skip(0) =~= b);
    encode_utf8_valid_utf8(s);
    encode_utf8_decode_utf8(s);
}

/// An escape stands for the byte its two hexadecimal digits name.
pub proof fn law_an_escape_names_a_byte(b: Seq<u8>, i: int, hi: u8, lo: u8)
    requires
        0 <= i,
        i + 3 < b.len(),
        b[i] == 92,
        b[i + 1] == 120,
        hi < 16,
        lo < 16,
        b[i + 2] == if hi < 10 {
            48 + hi
        } else {
            87 + hi
        },
        b[i + 3] == if lo < 10 {
            48 + lo
        } else {
            87 + lo
        },
    ensures
        identity::unescaped_from(b, i) == seq![(hi * 16 + lo) as u8] + identity::unescaped_from(
            b,
            i + 4,
        ),
{
}

/// A unit's stem is its name without `.scope` or `.service`, and without the
/// instance after an `@`.
pub proof fn law_the_stem_of_a_unit(name: Seq<char>, instance: Seq<char>)
    requires
        lacks(name, '@'),
    ensures
        identity::stem_of_unit(name + ".service"@) == name,
        identity::stem_of_unit(name + ".scope"@) == name,
        identity::stem_of_unit(name + seq!['@'] + instance + ".service"@) == name,
        identity::stem_of_unit(name + seq!['@'] + instance + ".scope"@) == name,
{
    reveal_strlit(".service");
    reveal_strlit(".scope");
    lemma_suffix(name);
    lemma_suffix(name + seq!['@'] + instance);
    text::laws::law_on_either_side_of_the_first(name, '@', instance);
}

proof fn lemma_suffix(s: Seq<char>)
    ensures
        identity::without_unit_suffix(s + ".service"@) == s,
        identity::without_unit_suffix(s + ".scope"@) == s,
{
    reveal_strlit(".service");
    reveal_strlit(".scope");
    let (a, b) = (s + ".service"@, s + ".scope"@);
    text::laws::law_parts_of_a_text(a, ".service"@);
    text::laws::law_parts_of_a_text(b, ".scope"@);
    if text::has_suffix(a, ".scope"@) {
        let tail = a.subrange(a.len() - 6, a.len() as int);
        assert(tail[5] == a[a.len() - 1]);
        assert(tail[1] == a[a.len() - 5] && a[a.len() - 5] == 'r');
    }
    assert(a.subrange(0, a.len() - 8) =~= s);
    assert(b.subrange(0, b.len() - 6) =~= s);
}

/// A scope names the application in `app-<name>-<serial>.scope`, with or
/// without the serial.
pub proof fn law_a_scope_names_an_application(name: Seq<char>, serial: Seq<char>)
    requires
        name.len() > 0,
        text::all_digits(serial),
    ensures
        identity::scope_name("app-"@ + name + seq!['-'] + serial + ".scope"@) == Some(name),
        lacks(name, '-') ==> identity::scope_name("app-"@ + name + ".scope"@) == Some(name),
{
    reveal_strlit("app-");
    reveal_strlit(".scope");
    let inner = name + seq!['-'] + serial;
    let u = "app-"@ + name + seq!['-'] + serial + ".scope"@;
    assert(u =~= "app-"@ + inner + ".scope"@);
    assert(u.subrange(0, 4) =~= "app-"@);
    assert(u.subrange(u.len() - 6, u.len() as int) =~= ".scope"@);
    assert(u.subrange(4, u.len() - 6) =~= inner);
    assert forall|k: int| 0 <= k < serial.len() implies #[trigger] serial[k] != '-' by {
        assert(text::is_digit(serial[k]));
    }
    text::laws::law_on_either_side_of_the_last(name, '-', serial);
    if lacks(name, '-') {
        let v = "app-"@ + name + ".scope"@;
        assert(v.subrange(0, 4) =~= "app-"@);
        assert(v.subrange(v.len() - 6, v.len() as int) =~= ".scope"@);
        assert(v.subrange(4, v.len() - 6) =~= name);
        text::lemma_last_none(name, '-');
    }
}

/// The short name of a scope is what follows its launcher's dash.
pub proof fn law_a_scopes_short_name(launcher: Seq<char>, name: Seq<char>)
    requires
        lacks(launcher, '-'),
    ensures
        name.len() > 0 ==> identity::scope_short_name(launcher + seq!['-'] + name) == Some(name),
        identity::scope_short_name(launcher) is None,
{
    text::laws::law_on_either_side_of_the_first(launcher, '-', name);
}

/// A machine is called by its scope, without its driver and the number that
/// gave it.
pub proof fn law_a_machine_is_called_by_its_scope(part: Seq<char>, rest: Seq<char>)
    requires
        lacks(part, '/'),
        rest.len() > 0 ==> rest[0] == '/',
    ensures
        ({
            let name = identity::without_driver(identity::unescape(part));
            identity::machine_of("/machine.slice/machine-"@ + part + ".scope"@ + rest) == if name.len()
                == 0 {
                None
            } else {
                Some(name)
            }
        }),
{
    reveal_strlit("/machine.slice/machine-");
    reveal_strlit("/machine.slice/");
    reveal_strlit("machine-");
    reveal_strlit(".scope");
    let head = "/machine.slice/machine-"@;
    let s = head + part + ".scope"@ + rest;
    assert(s.subrange(0, 15) =~= "/machine.slice/"@);
    assert(text::find_at(s, "/machine.slice/"@, 0) == Some(0int));
    let e = 23 + part.len() + 6;
    assert forall|j: int| 15 <= j < e implies #[trigger] s[j] != '/' by {
        if j < 23 {
            assert(s[j] == head[j]);
        } else if j < 23 + part.len() {
            assert(s[j] == part[j - 23]);
        } else {
            assert(s[j] == ".scope"@[j - 23 - part.len()]);
        }
    }
    if rest.len() > 0 {
        assert(s[e as int] == '/');
        lemma_slash(s, 15, e as int);
    } else {
        lemma_no_slash(s, 15);
    }
    let segment = s.subrange(15, e as int);
    assert(segment.subrange(0, 8) =~= "machine-"@);
    assert(segment.subrange(segment.len() - 6, segment.len() as int) =~= ".scope"@);
    assert(segment.subrange(8, segment.len() - 6) =~= part);
}

proof fn lemma_no_slash(s: Seq<char>, k: int)
    requires
        0 <= k <= s.len(),
        forall|j: int| k <= j < s.len() ==> #[trigger] s[j] != '/',
    ensures
        text::index_from(s, '/', k) == s.len(),
    decreases s.len() - k,
{
    if k < s.len() {
        lemma_no_slash(s, k + 1);
    }
}

/// The driver and the number of a machine are no part of its name.
pub proof fn law_a_machine_without_its_driver(number: Seq<char>, name: Seq<char>)
    requires
        text::all_digits(number),
        name.len() > 0,
    ensures
        identity::without_driver("qemu-"@ + number + seq!['-'] + name) == name,
        identity::without_driver("lxc-"@ + number + seq!['-'] + name) == name,
        lacks(name, '-') ==> identity::without_driver(name) == name,
{
    reveal_strlit("qemu-");
    reveal_strlit("lxc-");
    reveal_strlit("qemu");
    reveal_strlit("lxc");
    let rest = number + seq!['-'] + name;
    assert forall|k: int| 0 <= k < number.len() implies #[trigger] number[k] != '-' by {
        assert(text::is_digit(number[k]));
    }
    assert("qemu-"@ + number + seq!['-'] + name =~= "qemu"@ + seq!['-'] + rest);
    assert("lxc-"@ + number + seq!['-'] + name =~= "lxc"@ + seq!['-'] + rest);
    text::laws::law_on_either_side_of_the_first("qemu"@, '-', rest);
    text::laws::law_on_either_side_of_the_first("lxc"@, '-', rest);
    text::laws::law_on_either_side_of_the_first(number, '-', name);
    if lacks(name, '-') {
        text::laws::law_on_either_side_of_the_first(name, '-', name);
    }
}

/// A unit is a service's where it ends so, in either case of letters, unless
/// it is an application's.
pub proof fn law_which_units_are_services(name: Seq<char>)
    ensures
        ({
            let u = name + ".service"@;
            identity::service_unit(u) <==> !text::has_prefix(text::lowered(u), "app-"@)
        }),
{
    reveal_strlit(".service");
    reveal_strlit("init.scope");
    let u = name + ".service"@;
    let low = text::lowered(u);
    let n = u.len() as int;
    assert(low.subrange(n - 8, n) =~= ".service"@);
    if low == "init.scope"@ {
        assert(low.last() == 'e' && low[n - 2] == 'c');
        assert("init.scope"@[8] == 'p');
    }
}

/// An interpreter is called by the stem of a unit that tells the truth, and by
/// what it runs where there is no unit or the stem says nothing.
pub proof fn law_a_unit_names_an_interpreter(p: Process, u: Seq<char>)
    ensures
        !identity::unit_lies(u) && identity::stem_of_unit(u).len() > 0 && identity::stem_of_unit(u)
            != "app"@ ==> identity::fallback_name(p, Some(u)) == identity::stem_of_unit(u),
        identity::unit_lies(u) || identity::stem_of_unit(u).len() == 0 || identity::stem_of_unit(u)
            == "app"@ ==> identity::fallback_name(p, Some(u)) == identity::fallback_name(p, None),
        classify::script_of(text::texts(p.cmdline@)) is None ==> identity::fallback_name(p, None)
            == classify::process_name(p),
{
}

} // verus!
