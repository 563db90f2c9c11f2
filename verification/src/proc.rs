//! What `/proc` and `/etc/passwd` say, read from their text.
use vstd::prelude::*;
use vstd::utf8::*;

use crate::types::{ExecMark, Process};
use crate::{identity, once, text, types};

pub mod due;
pub mod laws;
pub mod record;

verus! {

// ---------------------------------------------------------------------------
// Bytes
// ---------------------------------------------------------------------------

/// Bytes as characters, one for one.
pub open spec fn latin(s: Seq<u8>) -> Seq<char> {
    Seq::new(s.len(), |i: int| s[i] as char)
}

pub fn latin_chars(s: &[u8]) -> (r: Vec<char>)
    ensures
        r@ == latin(s@),
{
    let mut out: Vec<char> = Vec::new();
    let mut i: usize = 0;
    while i < s.len()
        invariant
            i <= s@.len(),
            out@.len() == i,
            forall|j: int| 0 <= j < i ==> out@[j] == s@[j] as char,
        decreases s.len() - i,
    {
        out.push(s[i] as char);
        i += 1;
    }
    assert(out@ =~= latin(s@));
    out
}

/// The white space of ASCII.
pub open spec fn is_blank(c: char) -> bool {
    c == ' ' || c == '\t' || c == '\n' || c == '\u{c}' || c == '\r'
}

fn blank(c: char) -> (r: bool)
    ensures
        r == is_blank(c),
{
    c == ' ' || c == '\t' || c == '\n' || c == '\u{c}' || c == '\r'
}

/// The index of the first blank, or of the first other character, at or after
/// `from`.
pub open spec fn blank_end(s: Seq<char>, want: bool, from: int) -> int
    decreases s.len() - from,
{
    if from < 0 || from >= s.len() || is_blank(s[from]) != want {
        from
    } else {
        blank_end(s, want, from + 1)
    }
}

/// The longest runs without a blank, from index `from` on.
pub open spec fn tokens_from(s: Seq<char>, from: int) -> Seq<Seq<char>>
    decreases s.len() - from,
{
    let a = blank_end(s, true, from);
    let b = blank_end(s, false, a);
    if 0 <= from <= a < b <= s.len() {
        seq![s.subrange(a, b)] + tokens_from(s, b)
    } else {
        Seq::empty()
    }
}

pub open spec fn tokens(s: Seq<char>) -> Seq<Seq<char>> {
    tokens_from(s, 0)
}

fn blank_stop(s: &[char], want: bool, from: usize) -> (r: usize)
    requires
        from <= s@.len(),
    ensures
        r == blank_end(s@, want, from as int),
        from <= r <= s@.len(),
{
    let mut i: usize = from;
    while i < s.len() && blank(s[i]) == want
        invariant
            from <= i <= s@.len(),
            blank_end(s@, want, from as int) == blank_end(s@, want, i as int),
        decreases s.len() - i,
    {
        i += 1;
    }
    i
}

/// The longest runs without a blank.
pub fn split_tokens(s: &[char]) -> (r: Vec<Vec<char>>)
    ensures
        text::views(r@) == tokens(s@),
{
    let mut out: Vec<Vec<char>> = Vec::new();
    let mut from: usize = 0;
    loop
        invariant
            from <= s@.len(),
            text::views(out@) + tokens_from(s@, from as int) == tokens(s@),
        decreases s@.len() - from,
    {
        let a: usize = blank_stop(s, true, from);
        let b: usize = blank_stop(s, false, a);
        if b <= a {
            assert(text::views(out@) + Seq::<Seq<char>>::empty() =~= text::views(out@));
            return out;
        }
        let ghost before = text::views(out@);
        let w = text::cut(s, a, b);
        let ghost wv = w@;
        out.push(w);
        proof {
            assert(text::views(out@) =~= before.push(wv));
            assert(before + (seq![wv] + tokens_from(s@, b as int)) =~= before.push(wv)
                + tokens_from(s@, b as int));
        }
        from = b;
    }
}

// ---------------------------------------------------------------------------
// Numbers
// ---------------------------------------------------------------------------

/// The number that decimal digits spell, if they are all digits and it fits.
pub open spec fn number(s: Seq<char>) -> Option<u64> {
    if text::all_digits(s) && text::decimal_value(s) <= u64::MAX {
        Some(text::decimal_value(s) as u64)
    } else {
        None
    }
}

/// The number that decimal digits spell.
pub fn digits_number(s: &[char]) -> (r: Option<u64>)
    ensures
        r == number(s@),
{
    if s.len() > 0 && s[0] == '+' {
        return None;
    }
    proof {
        assert(text::unsigned_body(s@) == s@);
    }
    text::parse_number(s, u64::MAX)
}

/// An unsigned decimal token: digits only, nothing on anything else or on
/// overflow.
pub fn atoi(token: &[u8]) -> (r: Option<u64>)
    ensures
        r == number(latin(token@)),
{
    digits_number(latin_chars(token).as_slice())
}

/// The number after a key at the start of a line: the first token there, so
/// that a unit behind it does no harm.
pub open spec fn field(line: Seq<char>, key: Seq<char>) -> Option<u64> {
    if text::has_prefix(line, key) {
        let t = tokens(text::rest_from(line, key.len() as int));
        if t.len() > 0 {
            number(t[0])
        } else {
            None
        }
    } else {
        None
    }
}

/// The number after a key at the start of a line.
pub fn field_of(line: &[char], key: &[char]) -> (r: Option<u64>)
    ensures
        r == field(line@, key@),
{
    if !text::prefixed(line, key) {
        return None;
    }
    let rest = text::cut(line, key.len(), line.len());
    assert(rest@ =~= text::rest_from(line@, key@.len() as int));
    let t = split_tokens(rest.as_slice());
    assert(text::views(t@).len() == t@.len());
    if t.len() > 0 {
        assert(text::views(t@)[0] == t@[0]@);
        digits_number(t[0].as_slice())
    } else {
        None
    }
}

/// The number after a key at the start of a line of bytes.
pub fn field_u64(line: &[u8], key: &str) -> (r: Option<u64>)
    ensures
        r == field(latin(line@), latin(encode_utf8(key@))),
{
    field_of(latin_chars(line).as_slice(), latin_chars(key.as_bytes()).as_slice())
}

/// The first number after a key, line by line from `i` on.
pub open spec fn field_from(lines: Seq<Seq<char>>, key: Seq<char>, i: int) -> Option<u64>
    decreases lines.len() - i,
{
    if i < 0 || i >= lines.len() {
        None
    } else if field(lines[i], key) is Some {
        field(lines[i], key)
    } else {
        field_from(lines, key, i + 1)
    }
}

/// The first number after a key at the start of a line of a text.
pub open spec fn field_in(t: Seq<char>, key: Seq<char>) -> Option<u64> {
    field_from(text::lines_of(t), key, 0)
}

/// The first number after a key at the start of a line of a text.
pub fn find_field(t: &str, key: &str) -> (r: Option<u64>)
    ensures
        r == field_in(t@, key@),
{
    let lines = text::split_lines(text::chars_of(t).as_slice());
    let ghost all = text::lines_of(t@);
    let k = text::chars_of(key);
    let mut i: usize = 0;
    while i < lines.len()
        invariant
            i <= lines@.len(),
            all == text::lines_of(t@),
            text::views(lines@) == all,
            lines@.len() == all.len(),
            k@ == key@,
            field_in(t@, key@) == field_from(all, key@, i as int),
        decreases lines.len() - i,
    {
        assert(text::views(lines@)[i as int] == lines@[i as int]@);
        let n: Option<u64> = field_of(lines[i].as_slice(), k.as_slice());
        if n.is_some() {
            return n;
        }
        i += 1;
    }
    None
}

// ---------------------------------------------------------------------------
// The files of one process
// ---------------------------------------------------------------------------

/// What the stat line of a process says of it.
#[derive(Debug)]
pub struct StatFields {
    pub comm: String,
    pub ppid: u32,
    pub pgrp: i32,
    pub utime: u64,
    pub stime: u64,
    pub threads: Option<u64>,
    pub starttime_ticks: Option<u64>,
    pub exec_mark: ExecMark,
    pub kthread: bool,
    /// Uninterruptible sleep.
    pub d_state: bool,
}

/// The same as text.
pub struct StatView {
    pub comm: Seq<char>,
    pub ppid: u32,
    pub pgrp: i32,
    pub utime: u64,
    pub stime: u64,
    pub threads: Option<u64>,
    pub starttime_ticks: Option<u64>,
    pub exec_mark: ExecMark,
    pub kthread: bool,
    pub d_state: bool,
}

impl View for StatFields {
    type V = StatView;

    open spec fn view(&self) -> StatView {
        StatView {
            comm: self.comm@,
            ppid: self.ppid,
            pgrp: self.pgrp,
            utime: self.utime,
            stime: self.stime,
            threads: self.threads,
            starttime_ticks: self.starttime_ticks,
            exec_mark: self.exec_mark,
            kthread: self.kthread,
            d_state: self.d_state,
        }
    }
}

/// The number in field `k`, if there is one.
pub open spec fn number_at(t: Seq<Seq<char>>, k: int) -> Option<u64> {
    if 0 <= k < t.len() {
        number(t[k])
    } else {
        None
    }
}

pub open spec fn or_zero(n: Option<u64>) -> u64 {
    match n {
        Some(x) => x,
        None => 0,
    }
}

/// What stands in a stat line behind the name: the state, the parent, the
/// group, then counters at fixed places. The parent, the group and the two CPU
/// times must be there; of a line cut short the rest is unknown.
pub open spec fn stat_tail(comm: Seq<char>, t: Seq<Seq<char>>) -> Option<StatView> {
    match (number_at(t, 1), number_at(t, 2), number_at(t, 11), number_at(t, 12)) {
        (Some(ppid), Some(pgrp), Some(utime), Some(stime)) => if ppid <= u32::MAX && pgrp
            <= i32::MAX {
            Some(
                StatView {
                    comm,
                    ppid: ppid as u32,
                    pgrp: pgrp as i32,
                    utime,
                    stime,
                    threads: number_at(t, 17),
                    starttime_ticks: number_at(t, 19),
                    exec_mark: ExecMark {
                        start_code: or_zero(number_at(t, 23)),
                        end_code: or_zero(number_at(t, 24)),
                        start_stack: or_zero(number_at(t, 25)),
                    },
                    kthread: (or_zero(number_at(t, 6)) & 0x0020_0000) != 0,
                    d_state: t[0] == "D"@,
                },
            )
        } else {
            None
        },
        _ => None,
    }
}

/// What a stat line says. The name stands between the first opening and the
/// last closing parenthesis, since it may hold either itself.
pub open spec fn stat_of(stat: Seq<u8>) -> Option<StatView> {
    let s = latin(stat);
    let open = text::index_from(s, '(', 0);
    match text::before_last(s, ')') {
        Some(head) => if open < head.len() {
            stat_tail(
                identity::lossy_text(stat.subrange(open + 1, head.len() as int)),
                tokens(text::rest_from(s, head.len() as int + 1)),
            )
        } else {
            None
        },
        None => None,
    }
}

fn number_of(t: &Vec<Vec<char>>, k: usize) -> (r: Option<u64>)
    ensures
        r == number_at(text::views(t@), k as int),
{
    assert(text::views(t@).len() == t@.len());
    if k < t.len() {
        assert(text::views(t@)[k as int] == t@[k as int]@);
        digits_number(t[k].as_slice())
    } else {
        None
    }
}

fn unwrap_zero(n: Option<u64>) -> (r: u64)
    ensures
        r == or_zero(n),
{
    match n {
        Some(x) => x,
        None => 0,
    }
}

/// What a stat line says.
pub fn parse_stat(stat: &[u8]) -> (r: Option<StatFields>)
    ensures
        match r {
            Some(f) => stat_of(stat@) == Some(f@),
            None => stat_of(stat@) is None,
        },
{
    let s = latin_chars(stat);
    let open: usize = text::index_of(s.as_slice(), '(', 0);
    let close: usize = match text::last_index_of(s.as_slice(), ')') {
        Some(i) => i,
        None => {
            return None;
        },
    };
    if close <= open {
        return None;
    }
    let name = vstd::slice::slice_subrange(stat, open + 1, close);
    let comm = identity::text_lossy(name);
    let rest = text::cut(s.as_slice(), close + 1, s.len());
    assert(rest@ =~= text::rest_from(s@, close + 1));
    let t = split_tokens(rest.as_slice());
    let ghost tv = text::views(t@);
    let (ppid, pgrp, utime, stime) = match (
        number_of(&t, 1),
        number_of(&t, 2),
        number_of(&t, 11),
        number_of(&t, 12),
    ) {
        (Some(a), Some(b), Some(c), Some(d)) => (a, b, c, d),
        _ => {
            return None;
        },
    };
    if ppid > u32::MAX as u64 || pgrp > i32::MAX as u64 {
        return None;
    }
    let flags: u64 = unwrap_zero(number_of(&t, 6));
    assert(tv[0] == t@[0]@);
    Some(
        StatFields {
            comm,
            ppid: ppid as u32,
            pgrp: pgrp as i32,
            utime,
            stime,
            threads: number_of(&t, 17),
            starttime_ticks: number_of(&t, 19),
            exec_mark: ExecMark {
                start_code: unwrap_zero(number_of(&t, 23)),
                end_code: unwrap_zero(number_of(&t, 24)),
                start_stack: unwrap_zero(number_of(&t, 25)),
            },
            kthread: flags & 0x0020_0000 != 0,
            d_state: text::same(t[0].as_slice(), text::chars_of("D").as_slice()),
        },
    )
}

/// The first line from `i` on that starts with a text.
pub open spec fn line_from(lines: Seq<Seq<char>>, p: Seq<char>, i: int) -> Option<Seq<char>>
    decreases lines.len() - i,
{
    if i < 0 || i >= lines.len() {
        None
    } else if text::has_prefix(lines[i], p) {
        Some(lines[i])
    } else {
        line_from(lines, p, i + 1)
    }
}

pub fn find_line(lines: &Vec<Vec<char>>, p: &[char]) -> (r: Option<usize>)
    ensures
        match r {
            Some(i) => i < lines@.len() && line_from(text::views(lines@), p@, 0) == Some(
                lines@[i as int]@,
            ) && text::has_prefix(lines@[i as int]@, p@),
            None => line_from(text::views(lines@), p@, 0) is None,
        },
{
    let ghost all = text::views(lines@);
    let mut i: usize = 0;
    while i < lines.len()
        invariant
            i <= lines@.len(),
            all == text::views(lines@),
            line_from(all, p@, 0) == line_from(all, p@, i as int),
        decreases lines.len() - i,
    {
        assert(all[i as int] == lines@[i as int]@);
        if text::prefixed(lines[i].as_slice(), p) {
            return Some(i);
        }
        i += 1;
    }
    None
}

/// The real uid a status file names.
pub open spec fn uid_of_status(status: Seq<u8>) -> Option<u32> {
    match line_from(text::pieces(latin(status), '\n'), "Uid:"@, 0) {
        Some(line) => match field(line, "Uid:"@) {
            Some(n) => if n <= u32::MAX {
                Some(n as u32)
            } else {
                None
            },
            None => None,
        },
        None => None,
    }
}

/// The real uid a status file names: the first of the four on its line.
pub fn parse_uid(status: &[u8]) -> (r: Option<u32>)
    ensures
        r == uid_of_status(status@),
{
    let lines = text::split_on(latin_chars(status).as_slice(), '\n');
    let key = text::chars_of("Uid:");
    match find_line(&lines, key.as_slice()) {
        Some(i) => match field_of(lines[i].as_slice(), key.as_slice()) {
            Some(n) => if n <= u32::MAX as u64 {
                Some(n as u32)
            } else {
                None
            },
            None => None,
        },
        None => None,
    }
}

/// A path without the mark of a file that is gone.
pub open spec fn undeleted(path: Seq<char>) -> Seq<char> {
    if text::has_suffix(path, " (deleted)"@) {
        path.subrange(0, path.len() - " (deleted)"@.len())
    } else {
        path
    }
}

pub fn strip_deleted(path: &str) -> (r: &str)
    ensures
        r@ == undeleted(path@),
{
    match text::str_strip_suffix(path, " (deleted)") {
        Some(t) => t,
        None => path,
    }
}

/// The index of the first zero byte at or after `from`, else the length.
pub open spec fn zero_from(s: Seq<u8>, from: int) -> int
    decreases s.len() - from,
{
    if from < 0 || from >= s.len() {
        s.len() as int
    } else if s[from] == 0 {
        from
    } else {
        zero_from(s, from + 1)
    }
}

/// The arguments from `from` on: what stands between zero bytes, the empty
/// ones left out.
pub open spec fn args_from(s: Seq<u8>, from: int) -> Seq<Seq<char>>
    decreases s.len() + 1 - from,
{
    let end = zero_from(s, from);
    if from < 0 || from >= s.len() || end < from || end > s.len() {
        Seq::empty()
    } else if end > from {
        seq![identity::lossy_text(s.subrange(from, end))] + args_from(s, end + 1)
    } else {
        args_from(s, end + 1)
    }
}

/// The arguments in the bytes of a command line file.
pub fn parse_cmdline(s: &[u8]) -> (r: Vec<String>)
    ensures
        text::texts(r@) == args_from(s@, 0),
{
    let mut out: Vec<String> = Vec::new();
    let mut from: usize = 0;
    assert(text::texts(out@) + args_from(s@, 0) =~= args_from(s@, 0));
    while from < s.len()
        invariant
            from <= s@.len(),
            text::texts(out@) + args_from(s@, from as int) == args_from(s@, 0),
        decreases s.len() - from,
    {
        let mut end: usize = from;
        while end < s.len() && s[end] != 0
            invariant
                from <= end <= s@.len(),
                zero_from(s@, from as int) == zero_from(s@, end as int),
            decreases s.len() - end,
        {
            end += 1;
        }
        let ghost before = text::texts(out@);
        if end > from {
            let arg = identity::text_lossy(vstd::slice::slice_subrange(s, from, end));
            let ghost a = arg@;
            out.push(arg);
            proof {
                assert(text::texts(out@) =~= before.push(a));
                let rest = args_from(s@, end + 1);
                assert(before + (seq![a] + rest) =~= before.push(a) + rest);
            }
        }
        if end == s.len() {
            assert(text::texts(out@) + Seq::<Seq<char>>::empty() =~= text::texts(out@));
            return out;
        }
        from = end + 1;
    }
    assert(text::texts(out@) + Seq::<Seq<char>>::empty() =~= text::texts(out@));
    out
}

/// The resident pages that a statm file counts: its second number.
pub open spec fn rss_of(statm: Seq<char>) -> Option<u64> {
    let w = text::words(statm);
    if w.len() > 1 {
        number64(w[1])
    } else {
        None
    }
}

/// A number of at most 64 bits.
pub open spec fn number64(s: Seq<char>) -> Option<u64> {
    match text::number_upto(s, u64::MAX as nat) {
        Some(n) => Some(n as u64),
        None => None,
    }
}

pub fn parse_u64(s: &[char]) -> (r: Option<u64>)
    ensures
        r == number64(s@),
{
    text::parse_number(s, u64::MAX)
}

pub fn parse_rss_pages(statm: &str) -> (r: Option<u64>)
    ensures
        r == rss_of(statm@),
{
    let w = text::split_words(text::chars_of(statm).as_slice());
    assert(text::views(w@).len() == w@.len());
    if w.len() > 1 {
        assert(text::views(w@)[1] == w@[1]@);
        parse_u64(w[1].as_slice())
    } else {
        None
    }
}

/// The kernel's count of all threads: the second part of the fourth word of
/// the load file.
pub open spec fn threads_of(loadavg: Seq<char>) -> Option<u64> {
    let w = text::words(loadavg);
    if w.len() > 3 {
        match text::cut_first(w[3], '/') {
            Some((_, total)) => number64(total),
            None => None,
        }
    } else {
        None
    }
}

pub fn kernel_threads(loadavg: &str) -> (r: Option<u64>)
    ensures
        r == threads_of(loadavg@),
{
    let w = text::split_words(text::chars_of(loadavg).as_slice());
    assert(text::views(w@).len() == w@.len());
    if w.len() > 3 {
        assert(text::views(w@)[3] == w@[3]@);
        let v = &w[3];
        let i: usize = text::index_of(v.as_slice(), '/', 0);
        if i < v.len() {
            let total = text::cut(v.as_slice(), i + 1, v.len());
            return parse_u64(total.as_slice());
        }
    }
    None
}

// ---------------------------------------------------------------------------
// Users by name
// ---------------------------------------------------------------------------

/// The user a line of the password file names: a name that is not empty, and
/// the number in the third field.
pub open spec fn entry_of(line: Seq<char>) -> Option<(Seq<char>, u32)> {
    let fields = text::pieces(line, ':');
    if fields.len() >= 3 && fields[0].len() > 0 {
        match number32(fields[2]) {
            Some(uid) => Some((fields[0], uid)),
            None => None,
        }
    } else {
        None
    }
}

/// A number of at most 32 bits.
pub open spec fn number32(s: Seq<char>) -> Option<u32> {
    match text::number_upto(s, u32::MAX as nat) {
        Some(n) => Some(n as u32),
        None => None,
    }
}

/// The uid of the first entry from `i` on with a name.
pub open spec fn uid_from(lines: Seq<Seq<char>>, name: Seq<char>, i: int) -> Option<u32>
    decreases lines.len() - i,
{
    if i < 0 || i >= lines.len() {
        None
    } else {
        match entry_of(lines[i]) {
            Some((n, uid)) => if n == name {
                Some(uid)
            } else {
                uid_from(lines, name, i + 1)
            },
            None => uid_from(lines, name, i + 1),
        }
    }
}

/// The name of the first entry from `i` on with a uid.
pub open spec fn name_from(lines: Seq<Seq<char>>, uid: u32, i: int) -> Option<Seq<char>>
    decreases lines.len() - i,
{
    if i < 0 || i >= lines.len() {
        None
    } else {
        match entry_of(lines[i]) {
            Some((n, u)) => if u == uid {
                Some(n)
            } else {
                name_from(lines, uid, i + 1)
            },
            None => name_from(lines, uid, i + 1),
        }
    }
}

/// The password file, for the lookups of one tree or one command.
#[derive(Debug)]
pub struct Passwd {
    pub text: String,
}

impl View for Passwd {
    type V = Seq<char>;

    open spec fn view(&self) -> Seq<char> {
        self.text@
    }
}

/// The uid that a password file gives a name.
pub open spec fn uid_in(passwd: Seq<char>, name: Seq<char>) -> Option<u32> {
    uid_from(text::lines_of(passwd), name, 0)
}

/// The name that a password file gives a uid, else the uid in decimal.
pub open spec fn name_in(passwd: Seq<char>, uid: u32) -> Seq<char> {
    match name_from(text::lines_of(passwd), uid, 0) {
        Some(n) => n,
        None => text::decimal(uid as nat),
    }
}

fn entry(line: &[char]) -> (r: Option<(Vec<char>, u32)>)
    ensures
        match r {
            Some((n, uid)) => entry_of(line@) == Some((n@, uid)),
            None => entry_of(line@) is None,
        },
{
    let mut fields = text::split_on(line, ':');
    let ghost all = text::pieces(line@, ':');
    assert(text::views(fields@).len() == fields@.len());
    if fields.len() < 3 {
        return None;
    }
    assert(text::views(fields@)[0] == all[0] && text::views(fields@)[2] == all[2]);
    if fields[0].len() == 0 {
        return None;
    }
    match text::parse_number(fields[2].as_slice(), u32::MAX as u64) {
        Some(n) => {
            let name = fields.swap_remove(0);
            Some((name, n as u32))
        },
        None => None,
    }
}

impl Passwd {
    /// The uid of the first user with a name.
    pub fn uid(&self, name: &str) -> (r: Option<u32>)
        ensures
            r == uid_in(self@, name@),
    {
        let lines = text::split_lines(text::chars_of(self.text.as_str()).as_slice());
        let ghost all = text::lines_of(self@);
        let want = text::chars_of(name);
        let mut i: usize = 0;
        while i < lines.len()
            invariant
                i <= lines@.len(),
                all == text::lines_of(self@),
                text::views(lines@) == all,
                lines@.len() == all.len(),
                want@ == name@,
                uid_from(all, name@, 0) == uid_from(all, name@, i as int),
            decreases lines.len() - i,
        {
            assert(text::views(lines@)[i as int] == lines@[i as int]@);
            if let Some((n, uid)) = entry(lines[i].as_slice()) {
                if text::same(n.as_slice(), want.as_slice()) {
                    return Some(uid);
                }
            }
            i += 1;
        }
        None
    }

    /// The name of the first user with a uid, else the uid in decimal.
    pub fn name(&self, uid: u32) -> (r: String)
        ensures
            r@ == name_in(self@, uid),
    {
        let lines = text::split_lines(text::chars_of(self.text.as_str()).as_slice());
        let ghost all = text::lines_of(self@);
        let mut i: usize = 0;
        while i < lines.len()
            invariant
                i <= lines@.len(),
                all == text::lines_of(self@),
                text::views(lines@) == all,
                lines@.len() == all.len(),
                name_from(all, uid, 0) == name_from(all, uid, i as int),
            decreases lines.len() - i,
        {
            assert(text::views(lines@)[i as int] == lines@[i as int]@);
            if let Some((n, u)) = entry(lines[i].as_slice()) {
                if u == uid {
                    return text::string_of(n.as_slice());
                }
            }
            i += 1;
        }
        text::number_text(uid as u64)
    }
}

/// A uid written out is itself; anything else is looked up as a name.
pub fn uid_for(who: &str, passwd: &Passwd) -> (r: Option<u32>)
    ensures
        r == match number32(who@) {
            Some(uid) => Some(uid),
            None => uid_in(passwd@, who@),
        },
{
    match text::parse_number(text::chars_of(who).as_slice(), u32::MAX as u64) {
        Some(n) => Some(n as u32),
        None => passwd.uid(who),
    }
}

/// No user has an empty name, so looking one up finds nobody.
pub proof fn law_nobody_has_an_empty_name(passwd: Seq<char>)
    ensures
        uid_in(passwd, Seq::empty()) is None,
{
    lemma_no_empty_name(text::lines_of(passwd), 0);
}

proof fn lemma_no_empty_name(lines: Seq<Seq<char>>, i: int)
    ensures
        uid_from(lines, Seq::empty(), i) is None,
    decreases lines.len() - i,
{
    if 0 <= i < lines.len() {
        lemma_no_empty_name(lines, i + 1);
    }
}

// ---------------------------------------------------------------------------
// What is read again
// ---------------------------------------------------------------------------

/// How often a process has been walked before: counted anew when the pid came
/// to name another process.
pub open spec fn walks_for(prev: Option<Process>, starttime: Option<u64>) -> u32 {
    match prev {
        Some(p) => if p.starttime_ticks is Some && p.starttime_ticks == starttime {
            if p.walks == u32::MAX {
                0
            } else {
                (p.walks + 1) as u32
            }
        } else {
            0
        },
        None => 0,
    }
}

fn same_number(a: Option<u64>, b: Option<u64>) -> (r: bool)
    ensures
        r == (a == b),
{
    match (a, b) {
        (Some(x), Some(y)) => x == y,
        (None, None) => true,
        _ => false,
    }
}

pub fn walks_of(prev: Option<&Process>, starttime: Option<u64>) -> (r: u32)
    ensures
        r == walks_for(opt_process(prev), starttime),
{
    match prev {
        Some(p) => if p.starttime_ticks.is_some() && same_number(p.starttime_ticks, starttime) {
            p.walks.wrapping_add(1)
        } else {
            0
        },
        None => 0,
    }
}

pub open spec fn opt_process(p: Option<&Process>) -> Option<Process> {
    match p {
        Some(x) => Some(*x),
        None => None,
    }
}

/// Every so many walks a process is read in full.
pub const IDENTITY_EVERY: u32 = 5;

/// Whether a walk is one on which a process is read in full: every fifth,
/// counted from its pid so that not all fall on one walk.
pub open spec fn rereads(walks: u32, pid: u32) -> bool {
    ((walks + pid) % 0x1_0000_0000int) % 5 == 0
}

fn rereads_now(walks: u32, pid: u32) -> (r: bool)
    ensures
        r == rereads(walks, pid),
{
    let sum: u64 = (walks as u64 + pid as u64) % 0x1_0000_0000;
    sum % (IDENTITY_EVERY as u64) == 0
}

/// The program is still the one that was there before.
pub open spec fn program_kept(
    prev: Option<Process>,
    walks: u32,
    comm: Seq<char>,
    mark: ExecMark,
) -> bool {
    match prev {
        Some(p) => walks > 0 && !rereads(walks, p.pid) && p.comm@ == comm && p.exec_mark == mark,
        None => false,
    }
}

/// Whether the path of the program need not be read again.
pub fn same_exec(prev: Option<&Process>, walks: u32, comm: &str, mark: ExecMark) -> (r: bool)
    ensures
        r == program_kept(opt_process(prev), walks, comm@, mark),
{
    match prev {
        Some(p) => walks > 0 && !rereads_now(walks, p.pid) && text::same_str(
            p.comm.as_str(),
            comm,
        ) && p.exec_mark == mark,
        None => false,
    }
}

/// The user, the arguments and the control group of a process still stand: it
/// is past its first walks, this is no walk on which it is read in full, and
/// neither its name nor its program has changed.
pub open spec fn identity_kept(
    prev: Process,
    walks: u32,
    comm: Seq<char>,
    exe: Option<Seq<char>>,
) -> bool {
    walks >= 5 && !rereads(walks, prev.pid) && prev.comm@ == comm && text::opt_text(prev.exe) == exe
}

pub fn carries_identity(prev: &Process, walks: u32, comm: &str, exe: Option<&str>) -> (r: bool)
    ensures
        r == identity_kept(*prev, walks, comm@, text::opt_str(exe)),
{
    let same_exe = match (&prev.exe, exe) {
        (Some(a), Some(b)) => text::same_str(a.as_str(), b),
        (None, None) => true,
        _ => false,
    };
    walks >= IDENTITY_EVERY && !rereads_now(walks, prev.pid) && text::same_str(
        prev.comm.as_str(),
        comm,
    ) && same_exe
}

/// A control group file that is the one line of the unified hierarchy, so that
/// the id of the group pins the whole text.
pub open spec fn v2_only(cgroup: Seq<char>) -> bool {
    text::has_prefix(cgroup, "0::"@) && !cgroup.contains('\n')
}

pub fn is_v2_only(cgroup: &str) -> (r: bool)
    ensures
        r == v2_only(cgroup@),
{
    text::str_prefixed(cgroup, "0::") && !text::str_has(cgroup, '\n')
}

/// Whether the control group file need not be read: the kernel names the group
/// that the process was in before.
pub fn keeps_cgroup(prev: Option<&Process>, id: Option<u64>) -> (r: bool)
    ensures
        r == (id is Some && prev is Some && prev->0.cgroup_id == id && v2_only(prev->0.cgroup@)),
{
    match (prev, id) {
        (Some(p), Some(_)) => same_number(p.cgroup_id, id) && is_v2_only(p.cgroup.as_str()),
        _ => false,
    }
}

/// Whether the descriptors found before are the ones to look at: between two
/// full reads, for the same process.
pub fn carries_fds(prev: Option<&Process>, want_pss: bool, starttime: Option<u64>) -> (r: bool)
    ensures
        r == (prev is Some && !want_pss && prev->0.starttime_ticks is Some
            && prev->0.starttime_ticks == starttime),
{
    match prev {
        Some(p) => !want_pss && p.starttime_ticks.is_some() && same_number(
            p.starttime_ticks,
            starttime,
        ),
        None => false,
    }
}

/// How many scans in a row a table of unchanged size may be left unread.
pub const FD_SKIPS_MAX: u32 = 6;

/// The size at which the table of descriptors is not scanned: the same process
/// held no graphics device at that size, and not too many scans were skipped.
pub open spec fn unscanned_size(prev: Option<Process>, starttime: Option<u64>) -> Option<u32> {
    match prev {
        Some(p) => if p.starttime_ticks == starttime && p.drm_fds@.len() == 0 && p.fd_skips < 6 {
            p.fd_count
        } else {
            None
        },
        None => None,
    }
}

pub fn unchanged_at(prev: Option<&Process>, starttime: Option<u64>) -> (r: Option<u32>)
    ensures
        r == unscanned_size(opt_process(prev), starttime),
{
    match prev {
        Some(p) => if same_number(p.starttime_ticks, starttime) && p.drm_fds.len() == 0
            && p.fd_skips < FD_SKIPS_MAX {
            p.fd_count
        } else {
            None
        },
        None => None,
    }
}

/// The size and the skips to remember: a count at the expected size is one
/// more skip, any other count starts anew, and no count changes nothing.
pub open spec fn tally(
    prev: Option<Process>,
    counted: Option<u32>,
    unchanged: Option<u32>,
) -> (Option<u32>, u32) {
    match (counted, prev) {
        (Some(n), Some(p)) => (
            Some(n),
            if unchanged == Some(n) {
                (p.fd_skips + 1) as u32
            } else {
                0
            },
        ),
        (Some(n), None) => (Some(n), 0),
        (None, Some(p)) => (p.fd_count, p.fd_skips),
        (None, None) => (None, 0),
    }
}

pub fn fd_tally(prev: Option<&Process>, counted: Option<u32>, unchanged: Option<u32>) -> (r: (
    Option<u32>,
    u32,
))
    requires
        prev is Some && unchanged is Some ==> prev->0.fd_skips < u32::MAX,
    ensures
        r == tally(opt_process(prev), counted, unchanged),
{
    let before: u32 = match prev {
        Some(p) => p.fd_skips,
        None => 0,
    };
    match counted {
        Some(n) => {
            let skips: u32 = match unchanged {
                Some(u) => if n == u && prev.is_some() {
                    before + 1
                } else {
                    0
                },
                None => 0,
            };
            (Some(n), skips)
        },
        None => {
            let count: Option<u32> = match prev {
                Some(p) => p.fd_count,
                None => None,
            };
            (count, before)
        },
    }
}

// ---------------------------------------------------------------------------
// The shares of memory
// ---------------------------------------------------------------------------

/// What is remembered of the last read of a process's memory shares.
#[derive(Clone, Copy, Debug, PartialEq, Eq, Structural)]
pub struct Rollup {
    pub pss_kb: Option<u64>,
    pub swap_pss_kb: Option<u64>,
    pub rss_pages: Option<u64>,
    pub periods: u32,
}

impl Default for Rollup {
    fn default() -> (r: Self)
        ensures
            r == (Rollup { pss_kb: None, swap_pss_kb: None, rss_pages: None, periods: 0 }),
    {
        Rollup { pss_kb: None, swap_pss_kb: None, rss_pages: None, periods: 0 }
    }
}

pub open spec fn min_of(a: int, b: int) -> int {
    if a < b {
        a
    } else {
        b
    }
}

pub open spec fn max_of(a: int, b: int) -> int {
    if a < b {
        b
    } else {
        a
    }
}

/// How many times in a row the shares may be kept: the read costs as much as
/// the process is large, so a large one is read less often.
pub open spec fn age_bound(rss_bytes: u64) -> int {
    min_of(6 * max_of(rss_bytes as int / 0x2000_0000, 1), 60)
}

fn rollup_age_bound(rss_bytes: u64) -> (r: u64)
    ensures
        r == age_bound(rss_bytes),
{
    let units: u64 = rss_bytes / 0x2000_0000;
    let n: u64 = if units < 1 {
        6
    } else if units > 10 {
        60
    } else {
        6 * units
    };
    n
}

pub open spec fn distance(a: u64, b: u64) -> int {
    if a < b {
        b - a
    } else {
        a - b
    }
}

/// The shares read before still stand: for the same process, its resident
/// memory within a hundredth or a mebibyte of what it was, not kept too often,
/// and read with or without swap as it is wanted now. Shares that could not be
/// read are kept in any case.
pub open spec fn shares_stand(
    prev: Process,
    starttime: Option<u64>,
    rss_pages: Option<u64>,
    want_swap: bool,
    page_size: u64,
) -> bool {
    match (prev.rollup_rss_pages, rss_pages) {
        (Some(then), Some(now)) => {
            &&& prev.starttime_ticks is Some
            &&& prev.starttime_ticks == starttime
            &&& prev.rollup_periods + 1 < age_bound(types::capped_product(then, page_size))
            &&& prev.pss_kb is None || (prev.swap_pss_kb is Some) == want_swap
            &&& distance(now, then) <= max_of(
                then as int / 100,
                0x10_0000int / max_of(page_size as int, 1),
            )
        },
        _ => false,
    }
}

pub fn rollup_holds(
    prev: &Process,
    starttime_ticks: Option<u64>,
    rss_pages: Option<u64>,
    want_swap: bool,
    page_size: u64,
) -> (r: bool)
    ensures
        r == shares_stand(*prev, starttime_ticks, rss_pages, want_swap, page_size),
{
    let (then, now) = match (prev.rollup_rss_pages, rss_pages) {
        (Some(a), Some(b)) => (a, b),
        _ => {
            return false;
        },
    };
    let page: u64 = if page_size < 1 {
        1
    } else {
        page_size
    };
    let floor: u64 = 0x10_0000 / page;
    let hundredth: u64 = then / 100;
    let slack: u64 = if hundredth < floor {
        floor
    } else {
        hundredth
    };
    let apart: u64 = if now < then {
        then - now
    } else {
        now - then
    };
    let bytes: u64 = types::capped_mul(then, page_size);
    prev.starttime_ticks.is_some() && same_number(prev.starttime_ticks, starttime_ticks) && (
    prev.rollup_periods as u64) + 1 < rollup_age_bound(bytes) && (prev.pss_kb.is_none()
        || prev.swap_pss_kb.is_some() == want_swap) && apart <= slack
}

/// What is done about the shares of a process.
pub enum SharePlan {
    /// They are unknown.
    Blank,
    /// They stay as they are, kept so many times.
    Keep(u32),
    /// They are read.
    Read,
}

/// A kernel thread has none; between two due reads the same process keeps its
/// own and any other has none; on a due read they are kept while they stand.
pub open spec fn share_plan(
    want_pss: bool,
    want_swap: bool,
    kthread: bool,
    prev: Option<Process>,
    now: (Option<u64>, Option<u64>),
    page_size: u64,
) -> SharePlan {
    if kthread {
        SharePlan::Blank
    } else if !want_pss {
        if prev is Some && prev->0.starttime_ticks is Some && prev->0.starttime_ticks == now.0 {
            SharePlan::Keep(prev->0.rollup_periods)
        } else {
            SharePlan::Blank
        }
    } else if prev is Some && shares_stand(prev->0, now.0, now.1, want_swap, page_size) {
        SharePlan::Keep((prev->0.rollup_periods + 1) as u32)
    } else {
        SharePlan::Read
    }
}

/// The shares to publish: `now` is when the process started and how many pages
/// it holds.
pub fn rollup_for<F: FnOnce() -> (Option<u64>, Option<u64>)>(
    want_pss: bool,
    want_swap: bool,
    kthread: bool,
    prev: Option<&Process>,
    now: (Option<u64>, Option<u64>),
    page_size: u64,
    read: F,
) -> (r: Rollup)
    requires
        share_plan(want_pss, want_swap, kthread, opt_process(prev), now, page_size) is Read
            ==> call_requires(read, ()),
    ensures
        match share_plan(want_pss, want_swap, kthread, opt_process(prev), now, page_size) {
            SharePlan::Blank => r == (Rollup {
                pss_kb: None,
                swap_pss_kb: None,
                rss_pages: None,
                periods: 0,
            }),
            SharePlan::Keep(n) => r == (Rollup {
                pss_kb: prev->0.pss_kb,
                swap_pss_kb: prev->0.swap_pss_kb,
                rss_pages: prev->0.rollup_rss_pages,
                periods: n,
            }),
            SharePlan::Read => call_ensures(read, (), (r.pss_kb, r.swap_pss_kb)) && r.rss_pages
                == now.1 && r.periods == 0,
        },
{
    if kthread {
        return Rollup::default();
    }
    if let Some(p) = prev {
        if !want_pss {
            if p.starttime_ticks.is_some() && same_number(p.starttime_ticks, now.0) {
                return Rollup {
                    pss_kb: p.pss_kb,
                    swap_pss_kb: p.swap_pss_kb,
                    rss_pages: p.rollup_rss_pages,
                    periods: p.rollup_periods,
                };
            }
        } else if rollup_holds(p, now.0, now.1, want_swap, page_size) {
            return Rollup {
                pss_kb: p.pss_kb,
                swap_pss_kb: p.swap_pss_kb,
                rss_pages: p.rollup_rss_pages,
                periods: p.rollup_periods + 1,
            };
        }
    }
    if !want_pss {
        return Rollup::default();
    }
    let (pss_kb, swap_pss_kb) = read();
    Rollup { pss_kb, swap_pss_kb, rss_pages: now.1, periods: 0 }
}

/// Whether the shares are due: never read, or an interval ago. Times are
/// nanoseconds of one clock.
pub fn pss_due(last: Option<u64>, now: u64, interval: u64) -> (r: bool)
    ensures
        r == match last {
            Some(t) => max_of(now - t, 0) >= interval,
            None => true,
        },
{
    match last {
        Some(t) => now.saturating_sub(t) >= interval,
        None => true,
    }
}

/// A renamed container starts no new scope, so the list of containers is asked
/// for at least this often. Nanoseconds.
pub const CONTAINER_RELIST: u64 = 30_000_000_000;

/// Whether the list of containers is asked for again.
pub fn relist_due(scopes_changed: bool, pending: bool, since_listed: u64) -> (r: bool)
    ensures
        r == (scopes_changed || pending || since_listed >= CONTAINER_RELIST),
{
    scopes_changed || pending || since_listed >= CONTAINER_RELIST
}

/// The container scopes of the first `n` processes: each once, in byte order.
pub open spec fn scopes_upto(procs: Seq<Process>, n: int) -> Seq<Seq<char>>
    decreases n,
{
    if n <= 0 {
        Seq::empty()
    } else {
        let before = scopes_upto(procs, n - 1);
        match identity::container_scope(procs[n - 1].cgroup@) {
            Some(id) => if before.contains(id) {
                before
            } else {
                text::put(before, id)
            },
            None => before,
        }
    }
}

/// The container scopes that processes run in.
pub fn container_scopes(procs: &Vec<Process>) -> (r: Vec<String>)
    ensures
        text::texts(r@) == scopes_upto(procs@, procs@.len() as int),
{
    let mut out: Vec<String> = Vec::new();
    let mut i: usize = 0;
    assert(text::texts(out@) =~= Seq::<Seq<char>>::empty());
    while i < procs.len()
        invariant
            i <= procs@.len(),
            text::texts(out@) == scopes_upto(procs@, i as int),
        decreases procs.len() - i,
    {
        if let Some(id) = identity::docker_scope_id(procs[i].cgroup.as_str()) {
            if !text::among(&out, id.as_str()) {
                text::put_string(&mut out, id);
            }
        }
        i += 1;
    }
    out
}

// ---------------------------------------------------------------------------
// One process in detail
// ---------------------------------------------------------------------------

/// What a status text says after a name: empty where it does not name it.
pub open spec fn status_value(status: Seq<char>, name: Seq<char>) -> Seq<char> {
    match line_from(text::lines_of(status), name, 0) {
        Some(line) => text::trimmed(text::rest_from(line, name.len() as int)),
        None => Seq::empty(),
    }
}

pub fn status_field(status: &str, name: &str) -> (r: String)
    ensures
        r@ == status_value(status@, name@),
{
    let lines = text::split_lines(text::chars_of(status).as_slice());
    let key = text::chars_of(name);
    match find_line(&lines, key.as_slice()) {
        Some(i) => {
            let line = &lines[i];
            let rest = text::cut(line.as_slice(), key.len(), line.len());
            assert(rest@ =~= text::rest_from(line@, name@.len() as int));
            text::string_of(text::trim(rest.as_slice()).as_slice())
        },
        None => String::new(),
    }
}

/// The user of a status text, with the name that user has.
pub open spec fn user_value(status: Seq<char>, passwd: Seq<char>) -> Seq<char> {
    match uid_of_status(encode_utf8(status)) {
        Some(uid) => text::decimal(uid as nat) + " ("@ + name_in(passwd, uid) + ")"@,
        None => Seq::empty(),
    }
}

/// What a process is, as labelled values.
pub open spec fn detail_of(
    pid: u32,
    status: Seq<char>,
    cgroup: Seq<char>,
    exe: Seq<char>,
    argv: Seq<Seq<char>>,
    passwd: Seq<char>,
) -> Seq<(Seq<char>, Seq<char>)> {
    seq![
        ("PID"@, text::decimal(pid as nat)),
        ("PPID"@, status_value(status, "PPid:"@)),
        ("STATE"@, status_value(status, "State:"@)),
        ("UID"@, user_value(status, passwd)),
        ("EXE"@, exe),
        ("CGROUP"@, cgroup),
        ("CMDLINE"@, text::shortened(text::joined_with(argv, " "@), 240)),
    ]
}

pub open spec fn pairs_of(v: Seq<(String, String)>) -> Seq<(Seq<char>, Seq<char>)> {
    Seq::new(v.len(), |k: int| (v[k].0@, v[k].1@))
}

/// What a process is, as labelled values. A file that could not be read is an
/// empty text.
pub fn detail(
    pid: u32,
    status: &str,
    cgroup: &str,
    exe: &str,
    argv: &Vec<String>,
    passwd: &Passwd,
) -> (r: Vec<(String, String)>)
    ensures
        pairs_of(r@) == detail_of(pid, status@, cgroup@, exe@, text::texts(argv@), passwd@),
{
    let user = match parse_uid(status.as_bytes()) {
        Some(uid) => {
            let mut s = text::number_text(uid as u64);
            s.append(" (");
            s.append(passwd.name(uid).as_str());
            s.append(")");
            s
        },
        None => String::new(),
    };
    let mut out: Vec<(String, String)> = Vec::new();
    out.push(("PID".to_owned(), text::number_text(pid as u64)));
    out.push(("PPID".to_owned(), status_field(status, "PPid:")));
    out.push(("STATE".to_owned(), status_field(status, "State:")));
    out.push(("UID".to_owned(), user));
    out.push(("EXE".to_owned(), exe.to_owned()));
    out.push(("CGROUP".to_owned(), cgroup.to_owned()));
    out.push(("CMDLINE".to_owned(), once::trunc(text::join(argv, " ").as_str(), 240)));
    assert(pairs_of(out@) =~= detail_of(
        pid,
        status@,
        cgroup@,
        exe@,
        text::texts(argv@),
        passwd@,
    ));
    out
}

// ---------------------------------------------------------------------------
// Samples to share
// ---------------------------------------------------------------------------

/// The home directory as it is looked for in paths, if it is more than a root.
pub open spec fn home_prefix(home: Seq<char>) -> Option<Seq<char>> {
    if encode_utf8(home).len() > 1 {
        Some(text::without_trailing(home, '/') + "/"@)
    } else {
        None
    }
}

/// A text with the home directory made a tilde.
pub open spec fn tilded(s: Seq<char>, home: Option<Seq<char>>) -> Seq<char> {
    match home {
        Some(h) => match home_prefix(h) {
            Some(p) => text::replaced_from(s, p, "~/"@, 0),
            None => s,
        },
        None => s,
    }
}

/// A text with the home directory made a tilde, so that no path carries the
/// login name.
pub fn tilde(s: &str, home: Option<&str>) -> (r: String)
    ensures
        r@ == tilded(s@, text::opt_str(home)),
{
    match home {
        Some(h) => if h.as_bytes().len() > 1 {
            let mut p = text::trim_trailing(h, '/');
            p.append("/");
            proof {
                reveal_strlit("/");
            }
            text::replace_all(s, p.as_str(), "~/")
        } else {
            s.to_owned()
        },
        None => s.to_owned(),
    }
}

} // verus!
