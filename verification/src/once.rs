//! Text for one-shot output.
use vstd::prelude::*;

use crate::config;
use crate::text;
use crate::types;
use crate::types::{HostTree, IdentNode, MemberContainer, Metrics, UserNode, Weight};
use crate::ui::filter;
use crate::ui::filter::Filter;
use crate::ui::pick;
use crate::ui::rows;
use crate::ui::rows::{Flat, Line};

pub mod laws;

verus! {

/// `s`, its tail beyond `width` characters given up for an ellipsis.
pub fn trunc(s: &str, width: usize) -> (r: String)
    ensures
        r@ == text::shortened(s@, width as nat),
{
    let v = text::chars_of(s);
    if v.len() <= width {
        return s.to_owned();
    }
    let keep: usize = if width > 0 {
        width - 1
    } else {
        0
    };
    let head = text::cut(v.as_slice(), 0, keep);
    assert(head@ =~= s@.take(keep as int));
    let mut out = text::string_of(head.as_slice());
    out.append("\u{2026}");
    out
}

/// A shortened text is never longer than it may be.
pub proof fn law_a_shortened_text_fits(s: Seq<char>, width: nat)
    requires
        width > 0,
    ensures
        text::shortened(s, width).len() <= width,
{
    reveal_strlit("\u{2026}");
}

/// A character that a terminal may act on.
pub open spec fn is_control(c: char) -> bool {
    c <= '\u{1f}' || ('\u{7f}' <= c && c <= '\u{9f}')
}

pub fn control(c: char) -> (r: bool)
    ensures
        r == is_control(c),
{
    c <= '\u{1f}' || ('\u{7f}' <= c && c <= '\u{9f}')
}

/// A text that can be put on a terminal: a replacement character for each that
/// a terminal may act on.
pub open spec fn shown(s: Seq<char>) -> Seq<char> {
    Seq::new(
        s.len(),
        |k: int|
            if is_control(s[k]) {
                '\u{fffd}'
            } else {
                s[k]
            },
    )
}

pub fn printable(s: &str) -> (r: String)
    ensures
        r@ == shown(s@),
{
    let v = text::chars_of(s);
    let mut out = String::new();
    let mut i: usize = 0;
    while i < v.len()
        invariant
            i <= v@.len(),
            v@ == s@,
            out@ == shown(s@).take(i as int),
        decreases v.len() - i,
    {
        let c = v[i];
        if control(c) {
            out.push('\u{fffd}');
        } else {
            out.push(c);
        }
        i += 1;
        assert(shown(s@).take(i as int) =~= shown(s@).take(i - 1).push(shown(s@)[i - 1]));
    }
    assert(shown(s@).take(i as int) =~= shown(s@));
    out
}

/// A text that is shown holds nothing a terminal acts on, and is itself where
/// it held nothing of the kind before.
pub proof fn law_what_is_shown_is_harmless(s: Seq<char>)
    ensures
        forall|k: int| 0 <= k < shown(s).len() ==> !is_control(#[trigger] shown(s)[k]),
        (forall|k: int| 0 <= k < s.len() ==> !is_control(#[trigger] s[k])) ==> shown(s) == s,
{
    if forall|k: int| 0 <= k < s.len() ==> !is_control(#[trigger] s[k]) {
        assert(shown(s) =~= s);
    }
}

/// A text filled up with spaces to a width.
pub open spec fn padded(s: Seq<char>, width: nat) -> Seq<char>
    decreases width - s.len(),
{
    if s.len() >= width {
        s
    } else {
        padded(s.push(' '), width)
    }
}

pub fn pad(s: &str, width: usize) -> (r: String)
    ensures
        r@ == padded(s@, width as nat),
{
    let mut out = s.to_owned();
    let mut n: usize = out.as_str().unicode_len();
    while n < width
        invariant
            n == out@.len(),
            padded(out@, width as nat) == padded(s@, width as nat),
        decreases width - n,
    {
        out.push(' ');
        n += 1;
    }
    out
}

// ---------------------------------------------------------------------------
// Byte counts
// ---------------------------------------------------------------------------

/// `n / d` to the nearest whole number, the even one where two are as near.
pub open spec fn nearest(n: nat, d: nat) -> nat {
    let q = n / d;
    let r = n % d;
    if 2 * r > d || (2 * r == d && q % 2 == 1) {
        q + 1
    } else {
        q
    }
}

/// The step between neighbouring numbers of a size when 53 bits are kept.
pub open spec fn step_of(n: nat) -> nat
    decreases n,
{
    if n < 0x20_0000_0000_0000 {
        1
    } else {
        2 * step_of(n / 2)
    }
}

/// A number with its first 53 bits kept.
pub open spec fn significant(n: nat) -> nat {
    nearest(n, step_of(n)) * step_of(n)
}

/// So many units to one decimal, with the unit's letter.
pub open spec fn in_units(n: nat, unit: nat, letter: char) -> Seq<char> {
    let tenths = nearest(10 * n, unit);
    text::decimal(tenths / 10) + seq!['.', text::digit((tenths % 10) as int), letter]
}

/// A byte count as it is shown: exact below a kibibyte, else to one decimal in
/// the largest unit that it reaches.
pub open spec fn bytes_text(n: nat) -> Seq<char> {
    let s = significant(n);
    if s >= 0x4000_0000 {
        in_units(s, 0x4000_0000, 'G')
    } else if s >= 0x10_0000 {
        in_units(s, 0x10_0000, 'M')
    } else if s >= 0x400 {
        in_units(s, 0x400, 'K')
    } else {
        text::decimal(n)
    }
}

fn step(n: u64) -> (r: u64)
    ensures
        r == step_of(n as nat),
        r >= 1,
        r == 1 || r * 0x10_0000_0000_0000 <= n,
    decreases n,
{
    if n < 0x20_0000_0000_0000 {
        1
    } else {
        2 * step(n / 2)
    }
}

fn round(n: u128, d: u128) -> (r: u128)
    requires
        0 < d <= u64::MAX,
        n <= 0x1_0000_0000_0000_0000_0000,
    ensures
        r == nearest(n as nat, d as nat),
        r <= n / d + 1,
{
    let q: u128 = n / d;
    let rest: u128 = n % d;
    assert(q <= n) by (nonlinear_arith)
        requires
            q == n / d,
            d >= 1,
            n >= 0,
    ;
    if 2 * rest > d || (2 * rest == d && q % 2 == 1) {
        q + 1
    } else {
        q
    }
}

fn significant_of(n: u64) -> (r: u128)
    ensures
        r == significant(n as nat),
        r <= n + 0x1000,
{
    let d: u64 = step(n);
    let q: u128 = round(n as u128, d as u128);
    assert(q * d <= n + d) by (nonlinear_arith)
        requires
            q <= n / d + 1,
            d >= 1,
            q >= 0,
            n >= 0,
    ;
    assert(d <= 0x1000);
    q * d as u128
}

fn units(n: u128, unit: u64, letter: char) -> (r: String)
    requires
        unit == 0x4000_0000 || unit == 0x10_0000 || unit == 0x400,
        n <= u64::MAX + 0x1000,
        unit < 0x4000_0000 ==> n < 1024 * unit,
    ensures
        r@ == in_units(n as nat, unit as nat, letter),
{
    let tenths: u128 = round(10 * n, unit as u128);
    assert(tenths <= u64::MAX) by {
        if unit == 0x4000_0000 {
            assert((10 * n) / 0x4000_0000 <= 10 * n);
            assert(tenths <= (10 * n) / 0x4000_0000 + 1);
        } else if unit == 0x10_0000 {
            assert(tenths <= (10 * n) / 0x10_0000 + 1);
        } else {
            assert(tenths <= (10 * n) / 0x400 + 1);
        }
    }
    let t: u64 = tenths as u64;
    let mut s = text::number_text(t / 10);
    s.push('.');
    s.append(text::number_text(t % 10).as_str());
    s.push(letter);
    proof {
        let d = (t % 10) as nat;
        assert(text::decimal(d) == seq![text::digit(d as int)]);
        assert(s@ =~= in_units(n as nat, unit as nat, letter));
    }
    s
}

/// A byte count as it is shown; nothing where none is known.
pub fn fmt_bytes(n: Option<u64>) -> (r: String)
    ensures
        r@ == match n {
            None => Seq::empty(),
            Some(b) => bytes_text(b as nat),
        },
{
    match n {
        None => String::new(),
        Some(b) => {
            let s: u128 = significant_of(b);
            if s >= 0x4000_0000 {
                units(s, 0x4000_0000, 'G')
            } else if s >= 0x10_0000 {
                units(s, 0x10_0000, 'M')
            } else if s >= 0x400 {
                units(s, 0x400, 'K')
            } else {
                text::number_text(b)
            }
        },
    }
}

/// An age in its largest whole unit.
pub open spec fn age_text(secs: nat) -> Seq<char> {
    if secs < 60 {
        text::decimal(secs).push('s')
    } else if secs < 3600 {
        text::decimal(secs / 60).push('m')
    } else if secs < 86_400 {
        text::decimal(secs / 3600).push('h')
    } else {
        text::decimal(secs / 86_400).push('d')
    }
}

/// An age as it is shown; nothing where none is known.
pub fn fmt_age(secs: Option<u64>) -> (r: String)
    ensures
        r@ == match secs {
            None => Seq::empty(),
            Some(s) => age_text(s as nat),
        },
{
    match secs {
        None => String::new(),
        Some(s) => {
            let (n, unit): (u64, char) = if s < 60 {
                (s, 's')
            } else if s < 3600 {
                (s / 60, 'm')
            } else if s < 86_400 {
                (s / 3600, 'h')
            } else {
                (s / 86_400, 'd')
            };
            let mut out = text::number_text(n);
            out.push(unit);
            out
        },
    }
}

/// How many of the kernel's threads the rows hold, where some are missing.
pub open spec fn coverage_text(t: HostTree) -> Seq<char> {
    let seen: u64 = match types::tree_weight(t).threads {
        Some(n) => n,
        None => 0,
    };
    match t.kernel_threads {
        Some(all) => if seen < all {
            "  "@ + text::decimal(seen as nat) + "/"@ + text::decimal(all as nat)
                + " threads seen"@
        } else {
            Seq::empty()
        },
        None => Seq::empty(),
    }
}

/// What the footer says of the threads that no row holds: other users'
/// processes may be hidden, and the kernel counts theirs too.
pub fn coverage_tail(tree: &HostTree) -> (r: String)
    ensures
        r@ == coverage_text(*tree),
{
    let seen: u64 = match types::host_metrics(tree).threads {
        Some(n) => n,
        None => 0,
    };
    let mut out = String::new();
    if let Some(all) = tree.kernel_threads {
        if seen < all {
            out.append("  ");
            out.append(text::number_text(seen).as_str());
            out.append("/");
            out.append(text::number_text(all).as_str());
            out.append(" threads seen");
            assert(Seq::<char>::empty() + "  "@ =~= "  "@);
        }
    }
    out
}

/// Those of the first `n` users that are named.
pub open spec fn named_users(users: Seq<UserNode>, named: Seq<u32>, n: int) -> Seq<UserNode>
    decreases n,
{
    if n <= 0 {
        Seq::empty()
    } else if named.contains(users[n - 1].uid) {
        named_users(users, named, n - 1).push(users[n - 1])
    } else {
        named_users(users, named, n - 1)
    }
}

fn is_named(named: &Vec<u32>, uid: u32) -> (r: bool)
    ensures
        r == named@.contains(uid),
{
    let mut i: usize = 0;
    while i < named.len()
        invariant
            i <= named@.len(),
            forall|k: int| 0 <= k < i ==> named@[k] != uid,
        decreases named.len() - i,
    {
        if named[i] == uid {
            return true;
        }
        i += 1;
    }
    false
}

/// Leaves only the users that are named, where any are. What belongs to no
/// user stays.
pub fn keep_users(tree: &mut HostTree, named: &Vec<u32>)
    ensures
        final(tree).users@ == if named@.len() == 0 {
            old(tree).users@
        } else {
            named_users(old(tree).users@, named@, old(tree).users@.len() as int)
        },
        *final(tree) == (HostTree { users: final(tree).users, ..*old(tree) }),
{
    if named.len() == 0 {
        return ;
    }
    let ghost all = tree.users@;
    let ghost mut seen: int = 0;
    let mut i: usize = 0;
    assert(all.skip(0) =~= all);
    while i < tree.users.len()
        invariant
            0 <= seen <= all.len(),
            i == named_users(all, named@, seen).len(),
            tree.users@ == named_users(all, named@, seen) + all.skip(seen),
            *tree == (HostTree { users: tree.users, ..*old(tree) }),
        decreases all.len() - seen,
    {
        let ghost kept = named_users(all, named@, seen);
        assert(tree.users@[i as int] == all[seen]);
        if is_named(named, tree.users[i].uid) {
            assert(kept.push(all[seen]) + all.skip(seen + 1) =~= kept + all.skip(seen));
            i += 1;
        } else {
            tree.users.remove(i);
            assert(tree.users@ =~= kept + all.skip(seen + 1));
        }
        proof {
            seen = seen + 1;
        }
    }
    assert(all.skip(seen) =~= Seq::empty());
    assert(tree.users@ =~= named_users(all, named@, all.len() as int));
}

// ---------------------------------------------------------------------------
// The table
// ---------------------------------------------------------------------------

/// The width of the column of names.
pub const NAME_WIDTH: usize = 28;

/// One row of the printed table.
#[derive(Debug)]
pub struct TableRow {
    /// The name, set in by its depth and cut to its column.
    pub label: String,
    pub nproc: u32,
    pub metrics: Metrics,
}

/// The same as a value.
pub struct Printed {
    pub label: Seq<char>,
    pub nproc: u32,
    pub metrics: Weight,
}

impl View for TableRow {
    type V = Printed;

    open spec fn view(&self) -> Printed {
        Printed { label: self.label@, nproc: self.nproc, metrics: self.metrics@ }
    }
}

pub open spec fn printed(v: Seq<TableRow>) -> Seq<Printed> {
    Seq::new(v.len(), |k: int| v[k]@)
}

/// A name set in by its depth, and cut to its column.
pub open spec fn label_of(depth: nat, name: Seq<char>) -> Seq<char> {
    text::shortened(Seq::new(2 * depth, |k: int| ' ') + name, NAME_WIDTH as nat)
}

pub open spec fn row_of(depth: nat, name: Seq<char>, nproc: u32, metrics: Weight) -> Printed {
    Printed { label: label_of(depth, name), nproc, metrics }
}

fn label(depth: u16, name: &str) -> (r: String)
    ensures
        r@ == label_of(depth as nat, name@),
{
    let mut s = String::new();
    let mut i: usize = 0;
    let n: usize = 2 * depth as usize;
    assert(s@ =~= Seq::new(0, |k: int| ' '));
    while i < n
        invariant
            i <= n,
            s@ == Seq::new(i as nat, |k: int| ' '),
        decreases n - i,
    {
        s.push(' ');
        i += 1;
        assert(Seq::new(i as nat, |k: int| ' ') =~= Seq::new((i - 1) as nat, |k: int| ' ').push(
            ' ',
        ));
    }
    s.append(name);
    trunc(s.as_str(), NAME_WIDTH)
}

fn emit_row(out: &mut Vec<TableRow>, depth: u16, name: &str, nproc: u32, metrics: Metrics)
    ensures
        printed(final(out)@) == printed(old(out)@).push(
            row_of(depth as nat, name@, nproc, metrics@),
        ),
{
    let row = TableRow { label: label(depth, name), nproc, metrics };
    let ghost before = out@;
    out.push(row);
    assert(printed(out@) =~= printed(before).push(row@));
}

/// The rows of the first `n` containers of a row.
pub open spec fn member_rows(v: Seq<MemberContainer>, depth: nat, n: int) -> Seq<Printed>
    decreases n,
{
    if n <= 0 {
        Seq::empty()
    } else {
        member_rows(v, depth, n - 1).push(
            row_of(depth, v[n - 1].title@, v[n - 1].nproc, v[n - 1].metrics@),
        )
    }
}

/// The rows of the first `n` entries of a folder: each one with its containers.
pub open spec fn ident_rows(v: Seq<IdentNode>, depth: nat, n: int) -> Seq<Printed>
    decreases n,
{
    if n <= 0 {
        Seq::empty()
    } else {
        let x = v[n - 1];
        ident_rows(v, depth, n - 1).push(row_of(depth, x.title@, x.nproc, x.metrics@))
            + member_rows(x.containers@, depth + 1, x.containers@.len() as int)
    }
}

/// The rows of a folder: its own, and its entries.
pub open spec fn folder_rows(v: Seq<IdentNode>, depth: nat, name: Seq<char>) -> Seq<Printed> {
    seq![
        row_of(depth, name, types::count_of(v), types::weight_of(types::row_weights(v))),
    ] + ident_rows(v, depth + 1, v.len() as int)
}

fn emit_ident(out: &mut Vec<TableRow>, depth: u16, ident: &IdentNode)
    requires
        depth < 200,
    ensures
        printed(final(out)@) == printed(old(out)@).push(
            row_of(depth as nat, ident.title@, ident.nproc, ident.metrics@),
        ) + member_rows(
            ident.containers@,
            depth as nat + 1,
            ident.containers@.len() as int,
        ),
{
    emit_row(out, depth, ident.title.as_str(), ident.nproc, ident.metrics.copy());
    let ghost start = printed(out@);
    let mut i: usize = 0;
    assert(start + member_rows(ident.containers@, depth as nat + 1, 0) =~= start);
    while i < ident.containers.len()
        invariant
            i <= ident.containers@.len(),
            depth < 200,
            printed(out@) == start + member_rows(ident.containers@, depth as nat + 1, i as int),
        decreases ident.containers.len() - i,
    {
        let m: &MemberContainer = &ident.containers[i];
        emit_row(out, depth + 1, m.title.as_str(), m.nproc, m.metrics.copy());
        i += 1;
        assert(printed(out@) =~= start + member_rows(
            ident.containers@,
            depth as nat + 1,
            i as int,
        ));
    }
}

fn write_folder(out: &mut Vec<TableRow>, depth: u16, name: &str, idents: &Vec<IdentNode>)
    requires
        depth < 100,
    ensures
        printed(final(out)@) == printed(old(out)@) + folder_rows(idents@, depth as nat, name@),
{
    let ghost first = printed(out@);
    emit_row(
        out,
        depth,
        name,
        types::folder_nproc(idents.as_slice()),
        types::sum_idents(idents.as_slice()),
    );
    let ghost start = printed(out@);
    let mut i: usize = 0;
    assert(start + ident_rows(idents@, depth as nat + 1, 0) =~= start);
    while i < idents.len()
        invariant
            i <= idents@.len(),
            depth < 100,
            printed(out@) == start + ident_rows(idents@, depth as nat + 1, i as int),
        decreases idents.len() - i,
    {
        emit_ident(out, depth + 1, &idents[i]);
        i += 1;
        assert(printed(out@) =~= start + ident_rows(idents@, depth as nat + 1, i as int));
    }
    assert(printed(out@) =~= first + folder_rows(idents@, depth as nat, name@));
}

/// A user's name with the number the kernel knows them by.
pub open spec fn user_title(u: UserNode) -> Seq<char> {
    u.name@ + " ("@ + text::decimal(u.uid as nat) + ")"@
}

/// The rows of the first `n` users: each one, and the three folders.
pub open spec fn user_rows(v: Seq<UserNode>, n: int) -> Seq<Printed>
    decreases n,
{
    if n <= 0 {
        Seq::empty()
    } else {
        let u = v[n - 1];
        user_rows(v, n - 1).push(
            row_of(1, user_title(u), types::user_count(u), types::user_weight(u)),
        ) + folder_rows(u.applications@, 2, "Applications"@) + folder_rows(
            u.user_services@,
            2,
            "User Services"@,
        ) + folder_rows(u.containers@, 2, "Containers"@)
    }
}

/// The rows of the printed table: the machine, its users, its containers and
/// the system.
pub open spec fn table_of(tree: HostTree) -> Seq<Printed> {
    seq![row_of(0, "Host"@, types::tree_count(tree), types::tree_weight(tree))] + user_rows(
        tree.users@,
        tree.users@.len() as int,
    ) + folder_rows(tree.containers@, 1, "Containers"@) + folder_rows(tree.system@, 1, "System"@)
}

/// The rows of the printed table.
pub fn table_rows(tree: &HostTree) -> (r: Vec<TableRow>)
    ensures
        printed(r@) == table_of(*tree),
{
    let mut out: Vec<TableRow> = Vec::new();
    assert(printed(out@) =~= Seq::empty());
    emit_row(&mut out, 0, "Host", types::tree_host_nproc(tree), types::host_metrics(tree));
    let ghost start = printed(out@);
    let mut i: usize = 0;
    assert(start + user_rows(tree.users@, 0) =~= start);
    while i < tree.users.len()
        invariant
            i <= tree.users@.len(),
            printed(out@) == start + user_rows(tree.users@, i as int),
        decreases tree.users.len() - i,
    {
        let u: &UserNode = &tree.users[i];
        let mut title = u.name.clone();
        title.append(" (");
        text::push_decimal(&mut title, u.uid as u64);
        title.append(")");
        emit_row(&mut out, 1, title.as_str(), types::user_nproc(u), types::user_metrics(u));
        write_folder(&mut out, 2, "Applications", &u.applications);
        write_folder(&mut out, 2, "User Services", &u.user_services);
        write_folder(&mut out, 2, "Containers", &u.containers);
        i += 1;
        assert(printed(out@) =~= start + user_rows(tree.users@, i as int));
    }
    write_folder(&mut out, 1, "Containers", &tree.containers);
    write_folder(&mut out, 1, "System", &tree.system);
    assert(printed(out@) =~= table_of(*tree));
    out
}

/// The first `n` rows of a search as they are printed.
pub open spec fn line_rows(v: Seq<Line>, n: int) -> Seq<Printed>
    decreases n,
{
    if n <= 0 {
        Seq::empty()
    } else {
        let l = v[n - 1];
        line_rows(v, n - 1).push(row_of(l.depth as nat, shown(l.name), l.nproc, l.metrics))
    }
}

/// What is printed: the whole table, or where a filter or a limit is set the
/// rows that they leave of it with every folder open.
pub open spec fn print_of(
    tree: HostTree,
    typed: Seq<char>,
    pattern: Option<Seq<char>>,
    top: Option<usize>,
) -> Seq<Printed> {
    if typed.len() == 0 && top is None {
        table_of(tree)
    } else {
        let open = rows::folder_ids(tree.users@, tree.users@.len() as int);
        let v = pick::shown(tree, open, typed, pattern, top);
        line_rows(v, v.len() as int)
    }
}

/// The rows to print of a tree.
pub fn print_rows(tree: &HostTree, view: &config::View, filter: &Option<Filter>) -> (r: Vec<
    TableRow,
>)
    ensures
        printed(r@) == print_of(
            *tree,
            view.filter@,
            filter::searched_by(*filter),
            view.top,
        ),
{
    if view.filter.as_str().is_empty() && view.top.is_none() {
        return table_rows(tree);
    }
    let left = pick::flatten(tree, &rows::every_folder(tree), view, filter);
    let ghost v = rows::lines(left@);
    let mut out: Vec<TableRow> = Vec::new();
    let mut i: usize = 0;
    assert(printed(out@) =~= Seq::empty());
    while i < left.len()
        invariant
            i <= left@.len(),
            v == rows::lines(left@),
            printed(out@) == line_rows(v, i as int),
        decreases left.len() - i,
    {
        let f: &Flat = &left[i];
        assert(v[i as int] == f@);
        let name = printable(f.name.as_str());
        emit_row(&mut out, f.depth, name.as_str(), f.nproc, f.metrics.copy());
        i += 1;
    }
    out
}

} // verus!
