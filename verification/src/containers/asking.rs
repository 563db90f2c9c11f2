//! What is asked of a container engine and what its answers are taken for.
use vstd::prelude::*;

use crate::containers;
use crate::containers::{Inspect, ListItem};
use crate::text;

verus! {

/// The ids asked about are those of the containers listed that are not passed
/// over, and no others.
pub proof fn law_who_is_asked_about(list: Seq<ListItem>, n: int, id: Seq<char>)
    requires
        0 <= n <= list.len(),
    ensures
        containers::live_ids(list, n).contains(id) <==> exists|k: int|
            0 <= k < n && !containers::skipped(#[trigger] list[k]) && containers::normal_id(
                list[k].id@,
            ) == Some(id),
    decreases n,
{
    if n > 0 {
        law_who_is_asked_about(list, n - 1, id);
        let before = containers::live_ids(list, n - 1);
        let here = containers::normal_id(list[n - 1].id@);
        if here is Some && !containers::skipped(list[n - 1]) {
            let all = before.push(here->0);
            assert(containers::live_ids(list, n) == all);
            assert(all.last() == here->0);
            if before.contains(id) {
                let j = choose|j: int| 0 <= j < before.len() && before[j] == id;
                assert(all[j] == id);
            }
        }
    }
}

/// The ids without an answer are those asked about that none came for.
pub proof fn law_who_was_not_answered(
    ids: Seq<String>,
    answers: Map<Seq<char>, Inspect>,
    n: int,
    id: Seq<char>,
)
    requires
        0 <= n <= ids.len(),
    ensures
        containers::unanswered(ids, answers, n).contains(id) <==> !answers.dom().contains(id)
            && exists|k: int| 0 <= k < n && (#[trigger] ids[k])@ == id,
    decreases n,
{
    if n > 0 {
        law_who_was_not_answered(ids, answers, n - 1, id);
        let before = containers::unanswered(ids, answers, n - 1);
        if !answers.dom().contains(ids[n - 1]@) {
            let all = before.push(ids[n - 1]@);
            assert(all.last() == ids[n - 1]@);
            if before.contains(id) {
                let j = choose|j: int| 0 <= j < before.len() && before[j] == id;
                assert(all[j] == id);
            }
        }
    }
}

proof fn lemma_no_space(b: Seq<u8>, i: int, e: int)
    requires
        0 <= i <= e < b.len(),
        b[e] == 32,
        forall|j: int| i <= j < e ==> #[trigger] b[j] != 32,
    ensures
        containers::space_from(b, i) == e,
    decreases e - i,
{
    if i < e {
        assert(b[i] != 32);
        lemma_no_space(b, i + 1, e);
    }
}

/// An answer succeeded exactly where the word behind its first blank is a
/// number of three digits that begins with a two.
pub proof fn law_which_answers_are_of_success(version: Seq<u8>, code: Seq<u8>, rest: Seq<u8>)
    requires
        forall|j: int| 0 <= j < version.len() ==> #[trigger] version[j] != 32,
        code.len() == 3,
        forall|j: int| 0 <= j < code.len() ==> #[trigger] code[j] != 32,
    ensures
        containers::is_success(version + seq![32u8] + code + seq![32u8] + rest) <==> code[0] == 50
            && 48 <= code[1] <= 57 && 48 <= code[2] <= 57,
{
    let b = version + seq![32u8] + code + seq![32u8] + rest;
    let e = version.len() as int;
    assert forall|j: int| 0 <= j < e implies #[trigger] b[j] != 32 by {
        assert(b[j] == version[j]);
    }
    lemma_no_space(b, 0, e);
    assert(b[e + 1] == code[0] && b[e + 2] == code[1] && b[e + 3] == code[2]);
    assert forall|j: int| e + 1 <= j < e + 4 implies #[trigger] b[j] != 32 by {
        assert(b[j] == code[j - e - 1]);
    }
    lemma_no_space(b, e + 1, e + 4);
}

proof fn lemma_head(b: Seq<u8>, i: int, e: int)
    requires
        0 <= i <= e,
        e + 4 <= b.len(),
        b[e] == 13 && b[e + 1] == 10 && b[e + 2] == 13 && b[e + 3] == 10,
        forall|j: int| i <= j < e ==> !(#[trigger] b[j] == 13 && b[j + 1] == 10 && b[j + 2] == 13
            && b[j + 3] == 10),
    ensures
        containers::head_end(b, i) == Some(e),
    decreases e - i,
{
    if i < e {
        assert(!(b[i] == 13 && b[i + 1] == 10 && b[i + 2] == 13 && b[i + 3] == 10));
        lemma_head(b, i + 1, e);
    }
}

/// The head of an answer ends at its first empty line.
pub proof fn law_a_head_ends_at_the_first_empty_line(head: Seq<u8>, body: Seq<u8>)
    requires
        forall|j: int| 0 <= j < head.len() ==> #[trigger] head[j] != 13 || (j + 1 < head.len()
            && head[j + 1] == 10 && j + 2 < head.len() && head[j + 2] != 13),
    ensures
        containers::head_end(head + seq![13u8, 10u8, 13u8, 10u8] + body, 0) == Some(
            head.len() as int,
        ),
{
    let b = head + seq![13u8, 10u8, 13u8, 10u8] + body;
    let e = head.len() as int;
    assert(b[e] == 13 && b[e + 1] == 10 && b[e + 2] == 13 && b[e + 3] == 10);
    assert forall|j: int| 0 <= j < e implies !(#[trigger] b[j] == 13 && b[j + 1] == 10 && b[j + 2]
        == 13 && b[j + 3] == 10) by {
        assert(b[j] == head[j]);
        if head[j] == 13 {
            assert(b[j + 2] == head[j + 2]);
        }
    }
    lemma_head(b, 0, e);
}

/// The socket that the environment names comes first, where it is one of the
/// file system; the engines' own follow it either way.
pub proof fn law_a_named_socket_comes_first(path: Seq<char>, euid: u32)
    ensures
        ({
            let v = containers::sockets(Some("unix://"@ + path), euid);
            &&& v.len() == 4 && v[0] == path
            &&& v.skip(1) == containers::sockets(None, euid)
            &&& v.contains("/var/run/docker.sock"@) && v.contains("/run/podman/podman.sock"@)
        }),
        !text::has_prefix(path, "unix://"@) ==> containers::sockets(Some(path), euid)
            == containers::sockets(None, euid),
{
    reveal_strlit("unix://");
    let s = "unix://"@ + path;
    assert(s.subrange(0, 7) =~= "unix://"@);
    assert(text::rest_from(s, 7) =~= path);
    let v = containers::sockets(Some(s), euid);
    assert(v.skip(1) =~= containers::sockets(None, euid));
    assert(v[1] == "/var/run/docker.sock"@ && v[3] == "/run/podman/podman.sock"@);
}

} // verus!
