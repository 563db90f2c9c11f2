//! What the files of a process say, told by the texts they are made of, and
//! when a process is read again.
use vstd::prelude::*;
use vstd::utf8::*;

use crate::proc;
use crate::proc::record;
use crate::text::laws::lacks;
use crate::types::{ExecMark, Process};
use crate::{identity, io, text};

verus! {

// ---------------------------------------------------------------------------
// Tokens and fields
// ---------------------------------------------------------------------------

proof fn lemma_run(s: Seq<char>, want: bool, n: int, k: int)
    requires
        0 <= k <= n <= s.len(),
        forall|j: int| k <= j < n ==> proc::is_blank(#[trigger] s[j]) == want,
        n < s.len() ==> proc::is_blank(s[n]) != want,
    ensures
        proc::blank_end(s, want, k) == n,
    decreases n - k,
{
    if k < n {
        assert(proc::is_blank(s[k]) == want);
        lemma_run(s, want, n, k + 1);
    }
}

/// The first token is the first run without a blank.
proof fn lemma_first_token(a: Seq<char>, w: Seq<char>, rest: Seq<char>)
    requires
        forall|k: int| 0 <= k < a.len() ==> proc::is_blank(#[trigger] a[k]),
        w.len() > 0,
        forall|k: int| 0 <= k < w.len() ==> !proc::is_blank(#[trigger] w[k]),
        rest.len() > 0 ==> proc::is_blank(rest[0]),
    ensures
        proc::tokens(a + w + rest).len() > 0,
        proc::tokens(a + w + rest)[0] == w,
{
    let s = a + w + rest;
    let (m, n) = (a.len() as int, a.len() + w.len() as int);
    assert forall|j: int| 0 <= j < m implies proc::is_blank(#[trigger] s[j]) by {
        assert(s[j] == a[j]);
    }
    assert forall|j: int| m <= j < n implies !proc::is_blank(#[trigger] s[j]) by {
        assert(s[j] == w[j - m]);
    }
    assert(s[m] == w[0]);
    if rest.len() > 0 {
        assert(s[n] == rest[0]);
    }
    lemma_run(s, true, m, 0);
    lemma_run(s, false, n, m);
    assert(s.subrange(m, n) =~= w);
}

proof fn lemma_number(n: u64)
    ensures
        proc::number(text::decimal(n as nat)) == Some(n),
        forall|k: int|
            0 <= k < text::decimal(n as nat).len() ==> !proc::is_blank(
                #[trigger] text::decimal(n as nat)[k],
            ),
        text::decimal(n as nat).len() > 0,
        proc::number64(text::decimal(n as nat)) == Some(n),
{
    let s = text::decimal(n as nat);
    text::laws::law_numbers_are_read_back(n as nat, u64::MAX as nat);
    lemma_digits(n as nat);
    assert(text::is_digit(s[0]));
    assert(text::unsigned_body(s) =~= s);
    assert forall|k: int| 0 <= k < s.len() implies !proc::is_blank(#[trigger] s[k]) by {
        assert(text::is_digit(s[k]));
    }
}

/// The number of a field is the one behind its key, past any blanks, whatever
/// unit follows.
pub proof fn law_a_field_is_the_number_behind_its_key(
    key: Seq<char>,
    gap: Seq<char>,
    n: u64,
    rest: Seq<char>,
)
    requires
        forall|k: int| 0 <= k < gap.len() ==> proc::is_blank(#[trigger] gap[k]),
        rest.len() > 0 ==> proc::is_blank(rest[0]),
    ensures
        proc::field(key + (gap + text::decimal(n as nat) + rest), key) == Some(n),
{
    let line = key + (gap + text::decimal(n as nat) + rest);
    lemma_number(n);
    lemma_first_token(gap, text::decimal(n as nat), rest);
    text::laws::law_parts_of_a_text(line, key);
    assert(text::rest_from(line, key.len() as int) =~= gap + text::decimal(n as nat) + rest);
}

/// The value of a file is that of the first line that has one.
pub proof fn law_the_first_field_counts(lines: Seq<Seq<char>>, key: Seq<char>, k: int, i: int)
    requires
        0 <= i <= k < lines.len(),
        proc::field(lines[k], key) is Some,
        forall|j: int| i <= j < k ==> proc::field(#[trigger] lines[j], key) is None,
    ensures
        proc::field_from(lines, key, i) == proc::field(lines[k], key),
    decreases k - i,
{
    if i < k {
        assert(proc::field(lines[i], key) is None);
        law_the_first_field_counts(lines, key, k, i + 1);
    }
}

/// Of the traffic of a process the last line counts.
pub proof fn law_the_last_field_counts(lines: Seq<Seq<char>>, key: Seq<char>, k: int, n: int)
    requires
        0 <= k < n <= lines.len(),
        proc::field(lines[k], key) is Some,
        forall|j: int| k < j < n ==> proc::field(#[trigger] lines[j], key) is None,
    ensures
        io::last_field(lines, key, n) == proc::field(lines[k], key),
    decreases n - k,
{
    if k < n - 1 {
        assert(proc::field(lines[n - 1], key) is None);
        law_the_last_field_counts(lines, key, k, n - 1);
    }
}

/// What a process read and what it wrote stand behind their own keys.
pub proof fn law_traffic_stands_behind_its_keys(b: Seq<u8>, r: int, w: int, read: u64, written: u64)
    requires
        ({
            let lines = text::lines_of(identity::lossy_text(b));
            &&& 0 <= r < lines.len() && 0 <= w < lines.len()
            &&& lines[r] == "read_bytes:"@ + (seq![' '] + text::decimal(read as nat) + Seq::empty())
            &&& lines[w] == "write_bytes:"@ + (seq![' '] + text::decimal(written as nat)
                + Seq::empty())
            &&& forall|j: int|
                r < j < lines.len() ==> !text::has_prefix(#[trigger] lines[j], "read_bytes:"@)
            &&& forall|j: int|
                w < j < lines.len() ==> !text::has_prefix(#[trigger] lines[j], "write_bytes:"@)
        }),
    ensures
        record::io_told(Some(b)) == (Some(read), Some(written)),
{
    let lines = text::lines_of(identity::lossy_text(b));
    let n = lines.len() as int;
    law_a_field_is_the_number_behind_its_key("read_bytes:"@, seq![' '], read, Seq::empty());
    law_a_field_is_the_number_behind_its_key("write_bytes:"@, seq![' '], written, Seq::empty());
    law_the_last_field_counts(lines, "read_bytes:"@, r, n);
    law_the_last_field_counts(lines, "write_bytes:"@, w, n);
}

/// The shares of memory and of swap stand behind their own keys; swap is read
/// only where it is wanted.
pub proof fn law_shares_stand_behind_their_keys(
    b: Seq<u8>,
    p: int,
    s: int,
    pss: u64,
    swap: u64,
    gap: Seq<char>,
)
    requires
        forall|k: int| 0 <= k < gap.len() ==> proc::is_blank(#[trigger] gap[k]),
        ({
            let lines = text::lines_of(identity::lossy_text(b));
            &&& 0 <= p < lines.len() && 0 <= s < lines.len()
            &&& lines[p] == "Pss:"@ + (gap + text::decimal(pss as nat) + seq![' ', 'k', 'B'])
            &&& lines[s] == "SwapPss:"@ + (gap + text::decimal(swap as nat) + seq![' ', 'k', 'B'])
            &&& forall|j: int| 0 <= j < p ==> !text::has_prefix(#[trigger] lines[j], "Pss:"@)
            &&& forall|j: int| 0 <= j < s ==> !text::has_prefix(#[trigger] lines[j], "SwapPss:"@)
        }),
    ensures
        record::shares_told(Some(b), true) == (Some(pss), Some(swap)),
        record::shares_told(Some(b), false) == (Some(pss), None::<u64>),
{
    let lines = text::lines_of(identity::lossy_text(b));
    let unit = seq![' ', 'k', 'B'];
    law_a_field_is_the_number_behind_its_key("Pss:"@, gap, pss, unit);
    law_a_field_is_the_number_behind_its_key("SwapPss:"@, gap, swap, unit);
    law_the_first_field_counts(lines, "Pss:"@, p, 0);
    law_the_first_field_counts(lines, "SwapPss:"@, s, 0);
}

/// The resident pages are the second number of their file.
pub proof fn law_resident_pages(statm: Seq<char>, n: u64)
    requires
        text::words(statm).len() > 1,
        text::words(statm)[1] == text::decimal(n as nat),
    ensures
        proc::rss_of(statm) == Some(n),
{
    lemma_number(n);
}

/// The threads of the machine stand behind the slash of the fourth word.
pub proof fn law_threads_of_the_machine(loadavg: Seq<char>, running: Seq<char>, n: u64)
    requires
        text::words(loadavg).len() > 3,
        text::words(loadavg)[3] == running + seq!['/'] + text::decimal(n as nat),
        lacks(running, '/'),
    ensures
        proc::threads_of(loadavg) == Some(n),
{
    lemma_number(n);
    text::laws::law_on_either_side_of_the_first(running, '/', text::decimal(n as nat));
}

// ---------------------------------------------------------------------------
// The stat line
// ---------------------------------------------------------------------------

/// A field by the number the kernel's manual gives it: the state is the third.
pub open spec fn manual(t: Seq<Seq<char>>, n: int) -> Option<u64> {
    proc::number_at(t, n - 3)
}

/// Each counter of a stat line is the field the kernel's manual says: the
/// parent is the fourth, the group the fifth, the flags the ninth, the two CPU
/// times the fourteenth and the fifteenth, the threads the twentieth, the start
/// the twenty-second, and what marks the program the twenty-sixth to the
/// twenty-eighth.
pub proof fn law_the_fields_of_a_stat_line(comm: Seq<char>, t: Seq<Seq<char>>)
    ensures
        proc::stat_tail(comm, t) matches Some(v) ==> {
            &&& v.comm == comm
            &&& manual(t, 4) == Some(v.ppid as u64)
            &&& manual(t, 5) == Some(v.pgrp as u64)
            &&& manual(t, 14) == Some(v.utime)
            &&& manual(t, 15) == Some(v.stime)
            &&& manual(t, 20) == v.threads
            &&& manual(t, 22) == v.starttime_ticks
            &&& manual(t, 26) is Some ==> manual(t, 26) == Some(v.exec_mark.start_code)
            &&& manual(t, 27) is Some ==> manual(t, 27) == Some(v.exec_mark.end_code)
            &&& manual(t, 28) is Some ==> manual(t, 28) == Some(v.exec_mark.start_stack)
            &&& manual(t, 9) is Some ==> v.kthread == ((manual(t, 9)->0 & 0x0020_0000) != 0)
            &&& v.d_state == (t[0] == "D"@)
        },
        proc::stat_tail(comm, t) is Some <==> manual(t, 4) is Some && manual(t, 4)->0 <= u32::MAX
            && manual(t, 5) is Some && manual(t, 5)->0 <= i32::MAX && manual(t, 14) is Some
            && manual(t, 15) is Some,
{
}

/// The name of a process stands between the first opening and the last closing
/// parenthesis, whatever parentheses it holds itself.
pub proof fn law_a_name_may_hold_parentheses(
    stat: Seq<u8>,
    pre: Seq<char>,
    name: Seq<char>,
    tail: Seq<char>,
)
    requires
        proc::latin(stat) == pre + seq!['('] + name + seq![')'] + tail,
        lacks(pre, '('),
        lacks(tail, ')'),
    ensures
        proc::stat_of(stat) == proc::stat_tail(
            identity::lossy_text(
                stat.subrange(pre.len() as int + 1, pre.len() + 1 + name.len() as int),
            ),
            proc::tokens(tail),
        ),
{
    let s = proc::latin(stat);
    let head = pre + seq!['('] + name;
    assert(s =~= head + seq![')'] + tail);
    text::laws::law_on_either_side_of_the_last(head, ')', tail);
    let rest = name + seq![')'] + tail;
    assert(s =~= pre + seq!['('] + rest);
    text::laws::law_on_either_side_of_the_first(pre, '(', rest);
    text::lemma_index_from(s, '(', 0);
    let open = text::index_from(s, '(', 0);
    assert(open == pre.len()) by {
        assert(s[pre.len() as int] == '(');
        if open < pre.len() {
            assert(s[open] == pre[open]);
        }
    }
    assert(text::rest_from(s, head.len() as int + 1) =~= tail);
}

// ---------------------------------------------------------------------------
// Arguments, paths, users
// ---------------------------------------------------------------------------

proof fn lemma_zero(s: Seq<u8>, a: int, e: int)
    requires
        0 <= a <= e <= s.len(),
        forall|k: int| a <= k < e ==> #[trigger] s[k] != 0,
        e < s.len() ==> s[e] == 0,
    ensures
        proc::zero_from(s, a) == e,
    decreases e - a,
{
    if a < e {
        lemma_zero(s, a + 1, e);
    }
}

/// Each argument runs to the next zero byte.
pub proof fn law_arguments_end_in_zeros(s: Seq<u8>, from: int, e: int)
    requires
        0 <= from < e < s.len(),
        forall|k: int| from <= k < e ==> #[trigger] s[k] != 0,
        s[e] == 0,
    ensures
        proc::args_from(s, from) == seq![identity::lossy_text(s.subrange(from, e))]
            + proc::args_from(s, e + 1),
        proc::args_from(s, e) == proc::args_from(s, e + 1),
{
    lemma_zero(s, from, e);
    lemma_zero(s, e, e);
}

/// A program that is gone keeps its path, without the mark.
pub proof fn law_a_deleted_program_keeps_its_path(path: Seq<char>)
    ensures
        proc::undeleted(path + " (deleted)"@) == path,
        !text::has_suffix(path, " (deleted)"@) ==> proc::undeleted(path) == path,
{
    let s = path + " (deleted)"@;
    text::laws::law_parts_of_a_text(s, " (deleted)"@);
    assert(s.subrange(0, s.len() - " (deleted)"@.len()) =~= path);
}

/// A line of the password file gives the name in its first field the number in
/// its third.
pub proof fn law_a_password_line(name: Seq<char>, x: Seq<char>, uid: u32, rest: Seq<char>)
    requires
        lacks(name, ':'),
        lacks(x, ':'),
        name.len() > 0,
    ensures
        proc::entry_of(
            name + seq![':'] + (x + seq![':'] + (text::decimal(uid as nat) + seq![':'] + rest)),
        ) == Some((name, uid)),
{
    let d = text::decimal(uid as nat);
    text::laws::law_numbers_are_read_back(uid as nat, u32::MAX as nat);
    assert(lacks(d, ':')) by {
        assert forall|k: int| 0 <= k < d.len() implies #[trigger] d[k] != ':' by {
            lemma_digits(uid as nat);
            assert(text::is_digit(d[k]));
        }
    }
    let third = d + seq![':'] + rest;
    text::laws::law_pieces(name, ':', x + seq![':'] + third);
    text::laws::law_pieces(x, ':', third);
    text::laws::law_pieces(d, ':', rest);
    let all = text::pieces(name + seq![':'] + (x + seq![':'] + third), ':');
    assert(all =~= seq![name] + (seq![x] + (seq![d] + text::pieces(rest, ':'))));
    assert(all[0] == name && all[2] == d);
}

proof fn lemma_digits(n: nat)
    ensures
        text::all_digits(text::decimal(n)),
    decreases n,
{
    let s = text::decimal(n);
    if n >= 10 {
        lemma_digits(n / 10);
        assert forall|k: int| 0 <= k < s.len() implies text::is_digit(#[trigger] s[k]) by {
            if k < s.len() - 1 {
                assert(s[k] == text::decimal(n / 10)[k]);
            }
        }
    }
}

/// The name of a line of the password file.
pub open spec fn who(line: Seq<char>) -> Seq<char> {
    match proc::entry_of(line) {
        Some((name, _)) => name,
        None => Seq::empty(),
    }
}

/// The uid of a line of the password file.
pub open spec fn number_of(line: Seq<char>) -> u32 {
    match proc::entry_of(line) {
        Some((_, uid)) => uid,
        None => 0,
    }
}

/// The first line with a name says its uid, and the first with a uid its name;
/// a uid without one is its own number.
pub proof fn law_users_by_name_and_by_number(lines: Seq<Seq<char>>, k: int, i: int)
    requires
        0 <= i <= k < lines.len(),
        proc::entry_of(lines[k]) is Some,
    ensures
        (forall|j: int|
            i <= j < k ==> proc::entry_of(#[trigger] lines[j]) is None || who(lines[j]) != who(lines[k])) ==> proc::uid_from(
            lines,
            who(lines[k]),
            i,
        ) == Some(number_of(lines[k])),
        (forall|j: int|
            i <= j < k ==> proc::entry_of(#[trigger] lines[j]) is None || number_of(lines[j]) != number_of(lines[k])) ==> proc::name_from(
            lines,
            number_of(lines[k]),
            i,
        ) == Some(who(lines[k])),
    decreases k - i,
{
    if i < k {
        law_users_by_name_and_by_number(lines, k, i + 1);
        if forall|j: int|
            i <= j < k ==> proc::entry_of(#[trigger] lines[j]) is None || who(lines[j]) != who(lines[k]) {
            assert(proc::entry_of(lines[i]) is None || who(lines[i])
                != who(lines[k]));
        }
        if forall|j: int|
            i <= j < k ==> proc::entry_of(#[trigger] lines[j]) is None || number_of(lines[j]) != number_of(lines[k]) {
            assert(proc::entry_of(lines[i]) is None || number_of(lines[i])
                != number_of(lines[k]));
        }
    }
}

/// The containers of a list of processes are those some process runs in, each
/// once.
pub proof fn law_each_container_once(procs: Seq<Process>, n: int, id: Seq<char>)
    requires
        0 <= n <= procs.len(),
    ensures
        proc::scopes_upto(procs, n).contains(id) <==> exists|k: int|
            0 <= k < n && identity::container_scope((#[trigger] procs[k]).cgroup@) == Some(id),
        proc::scopes_upto(procs, n).no_duplicates(),
    decreases n,
{
    if n > 0 {
        law_each_container_once(procs, n - 1, id);
        let before = proc::scopes_upto(procs, n - 1);
        if let Some(own) = identity::container_scope(procs[n - 1].cgroup@) {
            lemma_put(before, own, id);
            if own == id {
                assert(identity::container_scope(procs[n - 1].cgroup@) == Some(id));
            }
        }
    }
}

proof fn lemma_put(v: Seq<Seq<char>>, x: Seq<char>, id: Seq<char>)
    ensures
        text::put(v, x).contains(id) <==> v.contains(id) || id == x,
        v.no_duplicates() && !v.contains(x) ==> text::put(v, x).no_duplicates(),
    decreases v.len(),
{
    let p = text::put(v, x);
    if v.len() == 0 || p == v.push(x) {
        assert(v.push(x)[v.len() as int] == x);
        if v.contains(id) {
            assert(v.push(x)[v.index_of(id)] == id);
        }
    } else {
        let d = v.drop_last();
        let q = text::put(d, x);
        lemma_put(d, x, id);
        lemma_put(d, x, v.last());
        assert(p == q.push(v.last()));
        assert(p[q.len() as int] == v.last());
        if q.contains(id) {
            assert(p[q.index_of(id)] == id);
        }
        if v.contains(id) && id != v.last() {
            assert(d[v.index_of(id)] == id);
        }
        if d.contains(id) {
            assert(v[d.index_of(id)] == id);
        }
        assert(v[v.len() - 1] == v.last());
        if p.contains(id) {
            let k = p.index_of(id);
            if k < q.len() {
                assert(q[k] == id);
            }
        }
        if v.no_duplicates() && !v.contains(x) {
            assert forall|k: int| 0 <= k < d.len() implies d[k] != v.last() by {
                assert(v[k] == d[k]);
            }
            assert(!d.contains(v.last()));
            assert(x != v.last());
            if d.contains(x) {
                assert(v[d.index_of(x)] == x);
            }
            assert(!q.contains(v.last()));
        }
    }
}

// ---------------------------------------------------------------------------
// When a process is read again
// ---------------------------------------------------------------------------

/// Of any five walks in a row a process is read in full on exactly one.
pub proof fn law_one_walk_in_five_reads_in_full(walks: u32, pid: u32)
    requires
        walks + pid + 4 <= u32::MAX,
    ensures
        exists|k: int| 0 <= k < 5 && #[trigger] proc::rereads((walks + k) as u32, pid),
        forall|j: int, k: int|
            0 <= j < k < 5 ==> !(#[trigger] proc::rereads((walks + j) as u32, pid)
                && #[trigger] proc::rereads((walks + k) as u32, pid)),
{
    let k = (5 - (walks + pid) % 5) % 5;
    assert(proc::rereads((walks + k) as u32, pid));
}

/// A process seen before is on its next walk; a pid that came to name another
/// process starts anew.
pub proof fn law_walks_are_counted_by_process(p: Process, start: Option<u64>)
    ensures
        p.starttime_ticks is Some && p.starttime_ticks == start && p.walks < u32::MAX
            ==> proc::walks_for(Some(p), start) == p.walks + 1,
        p.starttime_ticks is None || p.starttime_ticks != start ==> proc::walks_for(Some(p), start)
            == 0,
        proc::walks_for(None, start) == 0,
{
}

/// Who a process is is never kept over a change of its name or its program,
/// nor on its first walks, nor on a walk that reads in full.
pub proof fn law_a_changed_process_is_read(
    prev: Process,
    walks: u32,
    comm: Seq<char>,
    exe: Option<Seq<char>>,
    mark: ExecMark,
)
    ensures
        proc::identity_kept(prev, walks, comm, exe) <==> walks >= 5 && !proc::rereads(
            walks,
            prev.pid,
        ) && prev.comm@ == comm && text::opt_text(prev.exe) == exe,
        proc::program_kept(Some(prev), walks, comm, mark) ==> prev.comm@ == comm && prev.exec_mark
            == mark && walks > 0 && !proc::rereads(walks, prev.pid),
        !proc::program_kept(None, walks, comm, mark),
{
}

/// The descriptors are scanned at least once in seven walks, and always where
/// a graphics device was held.
pub proof fn law_descriptors_are_scanned_in_time(
    p: Process,
    start: Option<u64>,
    counted: Option<u32>,
)
    ensures
        p.fd_skips >= 6 || p.drm_fds@.len() > 0 || p.starttime_ticks != start
            ==> proc::unscanned_size(Some(p), start) is None,
        ({
            let size = proc::unscanned_size(Some(p), start);
            let (count, skips) = proc::tally(Some(p), counted, size);
            &&& counted is Some ==> count == counted
            &&& counted is Some && counted == size ==> skips == p.fd_skips + 1 && skips <= 6
            &&& counted is Some && counted != size ==> skips == 0
            &&& counted is None ==> count == p.fd_count && skips == p.fd_skips
        }),
{
}

/// Shares of memory stand while the resident set is as it was; they never
/// stand for another process, past sixty reads, or over a drift of more than a
/// hundredth and more than a mebibyte.
pub proof fn law_shares_stand_for_a_while(
    prev: Process,
    start: Option<u64>,
    now: Option<u64>,
    want_swap: bool,
    page: u64,
)
    requires
        page > 0,
    ensures
        proc::shares_stand(prev, start, now, want_swap, page) ==> {
            &&& prev.starttime_ticks is Some && prev.starttime_ticks == start
            &&& prev.rollup_periods + 1 < 60
            &&& prev.pss_kb is Some ==> (prev.swap_pss_kb is Some <==> want_swap)
        },
        prev.rollup_rss_pages is Some && now == prev.rollup_rss_pages && prev.starttime_ticks is Some
            && prev.starttime_ticks == start && prev.rollup_periods < 5 && (prev.pss_kb is None || (
        prev.swap_pss_kb is Some) == want_swap) ==> proc::shares_stand(
            prev,
            start,
            now,
            want_swap,
            page,
        ),
        prev.rollup_rss_pages is Some && now is Some && (now->0 > prev.rollup_rss_pages->0
            + prev.rollup_rss_pages->0 / 100 + 0x10_0000int / page as int
            || prev.rollup_rss_pages->0 > now->0 + prev.rollup_rss_pages->0 / 100 + 0x10_0000int
            / page as int) ==> !proc::shares_stand(prev, start, now, want_swap, page),
{
    let m = 0x10_0000int / page as int;
    assert(m >= 0) by (nonlinear_arith)
        requires
            m == 0x10_0000int / page as int,
            page > 0,
    ;
}

/// Shares are read, kept or left blank by what is due: a kernel thread has
/// none, and another process inherits none.
pub proof fn law_the_plan_of_shares(
    want_pss: bool,
    want_swap: bool,
    kthread: bool,
    prev: Option<Process>,
    now: (Option<u64>, Option<u64>),
    page: u64,
)
    ensures
        ({
            let plan = proc::share_plan(want_pss, want_swap, kthread, prev, now, page);
            let same = prev is Some && prev->0.starttime_ticks is Some
                && prev->0.starttime_ticks == now.0;
            &&& kthread ==> plan == proc::SharePlan::Blank
            &&& !kthread && want_pss && prev is None ==> plan == proc::SharePlan::Read
            &&& !kthread && want_pss && !same ==> plan == proc::SharePlan::Read
            &&& !kthread && !want_pss && !same ==> plan == proc::SharePlan::Blank
            &&& !kthread && !want_pss && same ==> plan == proc::SharePlan::Keep(
                prev->0.rollup_periods,
            )
            &&& plan matches proc::SharePlan::Keep(n) ==> same && (n == prev->0.rollup_periods || (
            want_pss && n == prev->0.rollup_periods + 1))
        }),
{
}

/// What is shown of a status file is what stands behind a name, without the
/// blanks around it.
pub proof fn law_a_status_value(lines: Seq<Seq<char>>, status: Seq<char>, name: Seq<char>, k: int)
    requires
        lines == text::lines_of(status),
        0 <= k < lines.len(),
        text::has_prefix(lines[k], name),
        forall|j: int| 0 <= j < k ==> !text::has_prefix(#[trigger] lines[j], name),
    ensures
        proc::status_value(status, name) == text::trimmed(
            text::rest_from(lines[k], name.len() as int),
        ),
{
    lemma_line(lines, name, k, 0);
}

proof fn lemma_line(lines: Seq<Seq<char>>, p: Seq<char>, k: int, j: int)
    requires
        0 <= j <= k < lines.len(),
        text::has_prefix(lines[k], p),
        forall|m: int| 0 <= m < k ==> !text::has_prefix(#[trigger] lines[m], p),
    ensures
        proc::line_from(lines, p, j) == Some(lines[k]),
    decreases k - j,
{
    if j < k {
        assert(!text::has_prefix(lines[j], p));
        lemma_line(lines, p, k, j + 1);
    }
}

// ---------------------------------------------------------------------------
// A record
// ---------------------------------------------------------------------------

/// A record holds each counter of the stat line under its own name, and a
/// record of the same line again holds the same.
pub proof fn law_a_record_holds_the_stat_line(
    p: Process,
    q: Process,
    pid: u32,
    s: proc::StatView,
    prev: Option<Process>,
    later: Option<Process>,
)
    requires
        record::counts(p, pid, s, prev),
        record::counts(q, pid, s, later),
    ensures
        p.pid == pid && p.ppid == s.ppid && p.pgrp == s.pgrp && p.comm@ == s.comm,
        p.utime == s.utime && p.stime == s.stime && p.threads == s.threads,
        p.kthread == s.kthread && p.d_state == s.d_state,
        p.starttime_ticks == s.starttime_ticks && p.exec_mark == s.exec_mark,
        (q.utime, q.stime, q.ppid) == (p.utime, p.stime, p.ppid),
{
}

/// A file that cannot be read leaves nothing behind: no program, no control
/// group, no argument and no figure, and the superuser for an owner.
pub proof fn law_what_cannot_be_read_is_not_known(want_swap: bool)
    ensures
        record::exe_told(None) is None,
        record::uid_told(None) == 0,
        record::cgroup_told(None).len() == 0,
        record::args_told(None).len() == 0,
        record::rss_told(None) is None,
        record::shares_told(None, want_swap) == (None::<u64>, None::<u64>),
        record::io_told(None) == (None::<u64>, None::<u64>),
{
}

/// The share of swap is told only where it is wanted, and that of memory
/// either way.
pub proof fn law_swap_is_told_where_it_is_wanted(b: Seq<u8>)
    ensures
        ({
            let (memory, swap) = record::shares_told(Some(b), false);
            let (again, wanted) = record::shares_told(Some(b), true);
            swap is None && memory == again
        }),
{
}

/// A kernel thread is the superuser's, runs no program and holds no memory.
pub proof fn law_a_kernel_thread_holds_nothing(p: Process)
    requires
        record::bare(p),
    ensures
        p.uid == 0 && p.exe is None && p.cmdline@.len() == 0 && p.cgroup@.len() == 0,
        p.rss_pages == Some(0u64),
        p.read_bytes is None && p.write_bytes is None && p.fd_count is None,
{
}

// ---------------------------------------------------------------------------
// The home directory
// ---------------------------------------------------------------------------

/// A path below the home directory is written from the tilde on; a text that
/// does not name it stays as it is, and so does every text without a home.
pub proof fn law_the_home_is_written_short(home: Seq<char>, rest: Seq<char>)
    requires
        encode_utf8(home).len() > 1,
        home.len() > 0,
        home.last() != '/',
        !text::has_infix(rest, home + "/"@),
    ensures
        proc::tilded(home + "/"@ + rest, Some(home)) == "~/"@ + rest,
        proc::tilded(rest, Some(home)) == rest,
        proc::tilded(rest, None) == rest,
{
    let p = home + "/"@;
    text::replace::law_a_text_without_the_part_stays(rest, p, "~/"@, 0);
    assert(rest.skip(0) =~= rest);
    text::replace::law_a_part_in_front_is_replaced(p, rest, "~/"@);
}

} // verus!
