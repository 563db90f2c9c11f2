//! How figures and rows are written down.
use vstd::prelude::*;

use crate::once;
use crate::once::Printed;
use crate::text;
use crate::types;
use crate::types::{HostTree, IdentNode, MemberContainer, UserNode};

verus! {

// ---------------------------------------------------------------------------
// Figures
// ---------------------------------------------------------------------------

/// A rounded number is within half a unit of the number, and of two as near
/// the even one.
pub proof fn law_rounding_is_to_the_nearest(n: nat, d: nat)
    requires
        d > 0,
    ensures
        ({
            let q = once::nearest(n, d);
            &&& 2 * (q * d) <= 2 * n + d
            &&& 2 * n <= 2 * (q * d) + d
            &&& 2 * n % (2 * d) == d % (2 * d) && n % d != 0 ==> q % 2 == 0
        }),
{
    let (q, r) = ((n / d) as int, (n % d) as int);
    let (ni, di) = (n as int, d as int);
    assert(ni == q * di + r && 0 <= r < di) by (nonlinear_arith)
        requires
            q == ni / di,
            r == ni % di,
            di > 0,
    ;
    assert((q + 1) * di == q * di + di) by (nonlinear_arith);
    if 2 * n % (2 * d) == d % (2 * d) && n % d != 0 {
        assert((2 * ni) % (2 * di) == 2 * r) by (nonlinear_arith)
            requires
                ni == q * di + r,
                0 <= r < di,
        ;
        assert(di % (2 * di) == di) by (nonlinear_arith)
            requires
                di > 0,
        ;
        assert(2 * r == di);
    }
}

/// A count below a kibibyte is written out; a larger one to a tenth of its
/// unit, rounded to the nearest: kibibytes below a mebibyte, mebibytes below a
/// gibibyte.
pub proof fn law_bytes_are_written_to_a_tenth(n: nat)
    requires
        n < 0x4000_0000,
    ensures
        n < 1024 ==> once::bytes_text(n) == text::decimal(n),
        1024 <= n < 1024 * 1024 ==> exists|t: nat| #[trigger] is_tenths(once::bytes_text(n), t, 'K')
            && 2 * (t * 1024) <= 20 * n + 1024 && 20 * n <= 2 * (t * 1024) + 1024,
        1024 * 1024 <= n ==> exists|t: nat| #[trigger] is_tenths(once::bytes_text(n), t, 'M') && 2
            * (t * 0x10_0000) <= 20 * n + 0x10_0000 && 20 * n <= 2 * (t * 0x10_0000) + 0x10_0000,
{
    assert(once::step_of(n) == 1);
    assert(n / 1 == n && n % 1 == 0);
    assert(once::nearest(n, 1) == n);
    assert(once::significant(n) == n);
    if 1024 <= n < 1024 * 1024 {
        let t = once::nearest(10 * n, 1024);
        law_rounding_is_to_the_nearest(10 * n, 1024);
        assert(is_tenths(once::bytes_text(n), t, 'K'));
    }
    if 1024 * 1024 <= n {
        let t = once::nearest(10 * n, 0x10_0000);
        law_rounding_is_to_the_nearest(10 * n, 0x10_0000);
        assert(is_tenths(once::bytes_text(n), t, 'M'));
    }
}

/// `s` writes so many tenths of a unit.
pub open spec fn is_tenths(s: Seq<char>, t: nat, unit: char) -> bool {
    s == text::decimal(t / 10) + seq!['.', text::digit((t % 10) as int), unit]
}

/// An age is written in its largest whole unit: so many of it have passed, and
/// not one more.
pub proof fn law_an_age_in_its_largest_unit(secs: nat)
    ensures
        exists|q: nat, unit: nat, c: char| #[trigger]
            says_age(secs, q, unit, c) && once::age_text(secs) == text::decimal(q) + seq![c],
{
    if secs < 60 {
        assert(says_age(secs, secs, 1, 's'));
        assert(text::decimal(secs).push('s') =~= text::decimal(secs) + seq!['s']);
    } else if secs < 3600 {
        let q = secs / 60;
        assert(says_age(secs, q, 60, 'm'));
        assert(text::decimal(q).push('m') =~= text::decimal(q) + seq!['m']);
    } else if secs < 86_400 {
        let q = secs / 3600;
        assert(says_age(secs, q, 3600, 'h'));
        assert(text::decimal(q).push('h') =~= text::decimal(q) + seq!['h']);
    } else {
        let q = secs / 86_400;
        assert(says_age(secs, q, 86_400, 'd'));
        assert(text::decimal(q).push('d') =~= text::decimal(q) + seq!['d']);
    }
}

/// So many of a unit have passed, the unit is the letter's, and the next
/// larger one has not been reached.
pub open spec fn says_age(secs: nat, q: nat, unit: nat, c: char) -> bool {
    &&& q * unit <= secs < (q + 1) * unit
    &&& (c == 's' && unit == 1 && q < 60) || (c == 'm' && unit == 60 && 1 <= q < 60) || (c == 'h'
        && unit == 3600 && 1 <= q < 24) || (c == 'd' && unit == 86_400 && 1 <= q)
}

/// A padded text fills its width with blanks behind it, and nothing is cut.
pub proof fn law_padding_adds_blanks_behind(s: Seq<char>, width: nat)
    ensures
        once::padded(s, width).len() == if s.len() < width {
            width
        } else {
            s.len()
        },
        forall|k: int| 0 <= k < s.len() ==> once::padded(s, width)[k] == s[k],
        forall|k: int| s.len() <= k < once::padded(s, width).len() ==> once::padded(s, width)[k] == ' ',
    decreases width - s.len(),
{
    if s.len() < width {
        let more = s.push(' ');
        law_padding_adds_blanks_behind(more, width);
        assert forall|k: int| 0 <= k < s.len() implies once::padded(s, width)[k] == s[k] by {
            assert(more[k] == s[k]);
        }
        assert(more[s.len() as int] == ' ');
    }
}

/// How many threads are seen is said only where some are missing, and then
/// both numbers are.
pub proof fn law_missing_threads_are_said(t: HostTree, seen: u64, all: u64)
    requires
        types::tree_weight(t).threads == Some(seen),
        t.kernel_threads == Some(all),
    ensures
        seen < all ==> once::coverage_text(t) == "  "@ + text::decimal(seen as nat) + "/"@
            + text::decimal(all as nat) + " threads seen"@,
        seen >= all ==> once::coverage_text(t).len() == 0,
{
}

// ---------------------------------------------------------------------------
// Rows
// ---------------------------------------------------------------------------

/// A name is set in by two blanks for each level, and follows them where it
/// fits.
pub proof fn law_a_name_is_set_in_by_its_depth(depth: nat, name: Seq<char>)
    requires
        2 * depth + name.len() <= once::NAME_WIDTH,
    ensures
        ({
            let l = once::label_of(depth, name);
            &&& l.len() == 2 * depth + name.len()
            &&& forall|k: int| 0 <= k < 2 * depth ==> l[k] == ' '
            &&& forall|k: int| 0 <= k < name.len() ==> l[2 * depth + k] == name[k]
        }),
{
}

/// Only the users that are named are shown, all of them, in their order.
pub proof fn law_named_users_are_shown(users: Seq<UserNode>, named: Seq<u32>, n: int)
    requires
        0 <= n < users.len(),
    ensures
        named.contains(users[n].uid) ==> once::named_users(users, named, n + 1)
            == once::named_users(users, named, n) + seq![users[n]],
        !named.contains(users[n].uid) ==> once::named_users(users, named, n + 1)
            == once::named_users(users, named, n),
{
    assert(once::named_users(users, named, n).push(users[n]) =~= once::named_users(
        users,
        named,
        n,
    ) + seq![users[n]]);
}

/// Each entry of a folder is a row with its title, its count and its weight,
/// and each of its containers one below it.
pub proof fn law_every_entry_is_a_row(v: Seq<IdentNode>, depth: nat, n: int)
    requires
        0 <= n < v.len(),
    ensures
        ({
            let x = v[n];
            let own = Printed {
                label: once::label_of(depth, x.title@),
                nproc: x.nproc,
                metrics: x.metrics@,
            };
            once::ident_rows(v, depth, n + 1) == once::ident_rows(v, depth, n) + seq![own]
                + once::member_rows(x.containers@, depth + 1, x.containers@.len() as int)
        }),
{
    let x = v[n];
    let before = once::ident_rows(v, depth, n);
    let own = once::row_of(depth, x.title@, x.nproc, x.metrics@);
    assert(before.push(own) =~= before + seq![own]);
}

/// Each container of an entry is a row with its title, its count and its
/// weight.
pub proof fn law_every_container_is_a_row(v: Seq<MemberContainer>, depth: nat, n: int)
    requires
        0 <= n < v.len(),
    ensures
        once::member_rows(v, depth, n + 1).len() == once::member_rows(v, depth, n).len() + 1,
        once::member_rows(v, depth, n + 1).last().label == once::label_of(depth, v[n].title@),
        once::member_rows(v, depth, n + 1).last().nproc == v[n].nproc,
        once::member_rows(v, depth, n + 1).last().metrics == v[n].metrics@,
{
}

/// A folder's row is the sum of its entries, and they follow it one level in.
pub proof fn law_a_folder_row_is_its_entries(v: Seq<IdentNode>, depth: nat, name: Seq<char>)
    ensures
        ({
            let r = once::folder_rows(v, depth, name);
            &&& r[0].label == once::label_of(depth, name)
            &&& r[0].nproc == types::count_of(v)
            &&& r[0].metrics == types::weight_of(types::row_weights(v))
            &&& r.skip(1) =~= once::ident_rows(v, depth + 1, v.len() as int)
        }),
{
}

/// A table begins with the machine and its whole weight, and ends with its
/// containers and the system.
pub proof fn law_a_table_is_the_whole_machine(t: HostTree)
    ensures
        ({
            let r = once::table_of(t);
            let tail = once::folder_rows(t.containers@, 1, "Containers"@) + once::folder_rows(
                t.system@,
                1,
                "System"@,
            );
            &&& r[0].nproc == types::tree_count(t) && r[0].metrics == types::tree_weight(t)
            &&& r[0].label == once::label_of(0, "Host"@)
            &&& r.skip(r.len() - tail.len()) =~= tail
        }),
{
}

/// A user's row is titled by the name and the number, has the user's whole
/// weight, and is followed by the three folders in their order.
pub proof fn law_a_users_rows(v: Seq<UserNode>, n: int)
    requires
        0 <= n < v.len(),
    ensures
        ({
            let u = v[n];
            let own = Printed {
                label: once::label_of(
                    1,
                    u.name@ + " ("@ + text::decimal(u.uid as nat) + ")"@,
                ),
                nproc: types::user_count(u),
                metrics: types::user_weight(u),
            };
            once::user_rows(v, n + 1) =~= once::user_rows(v, n) + seq![own] + once::folder_rows(
                u.applications@,
                2,
                "Applications"@,
            ) + once::folder_rows(u.user_services@, 2, "User Services"@) + once::folder_rows(
                u.containers@,
                2,
                "Containers"@,
            )
        }),
{
}

} // verus!
