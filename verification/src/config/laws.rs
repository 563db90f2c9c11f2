//! Where the files are, and how a view and a command line come together.
use vstd::prelude::*;

use crate::config;
use crate::config::Overrides;
use crate::text;
use crate::types::Folder;

verus! {

/// A file stands under its directory, with one slash between.
pub proof fn law_a_file_under_its_directory(dir: Seq<char>, name: Seq<char>)
    ensures
        dir.len() > 0 && dir.last() != '/' ==> config::under(dir, name) == dir + seq!['/'] + name,
        config::under(dir + seq!['/'], name) == dir + seq!['/'] + name,
        config::under(Seq::empty(), name) == name,
{
    reveal_strlit("/");
    assert("/"@ =~= seq!['/']);
}

/// The files stand under `heft` of the configured directory, and without one
/// under `.config/heft` of the home directory.
pub proof fn law_where_the_files_are(xdg: Seq<char>, home: Seq<char>)
    requires
        xdg.len() > 0,
        xdg.last() != '/',
        home.len() > 0,
        home.last() != '/',
    ensures
        config::dir_of(Some(xdg), Some(home)) == xdg + "/heft"@,
        config::dir_of(None, Some(home)) == home + "/.config/heft"@,
        config::dir_of(Some(Seq::empty()), Some(home)) == home + "/.config/heft"@,
{
    reveal_strlit("/");
    reveal_strlit("heft");
    reveal_strlit("/heft");
    reveal_strlit(".config");
    reveal_strlit("/.config/heft");
    assert(xdg + "/"@ + "heft"@ =~= xdg + "/heft"@);
    assert(home + "/"@ + ".config"@ + "/"@ + "heft"@ =~= home + "/.config/heft"@);
    assert((home + "/"@ + ".config"@).last() == 'g');
}

/// Labels put behind others: all of both, the first ones where they were, and
/// none twice that was not twice before.
pub proof fn law_labels_put_behind_others(
    v: Seq<Seq<char>>,
    more: Seq<Seq<char>>,
    n: int,
    x: Seq<char>,
)
    requires
        0 <= n <= more.len(),
    ensures
        config::added(v, more, n).contains(x) <==> v.contains(x) || more.take(n).contains(x),
        v.len() <= config::added(v, more, n).len(),
        config::added(v, more, n).take(v.len() as int) =~= v,
        v.no_duplicates() ==> config::added(v, more, n).no_duplicates(),
    decreases n,
{
    if n > 0 {
        law_labels_put_behind_others(v, more, n - 1, x);
        law_labels_put_behind_others(v, more, n - 1, more[n - 1]);
        let before = config::added(v, more, n - 1);
        let (now, then) = (more.take(n), more.take(n - 1));
        assert(now =~= then.push(more[n - 1]));
        assert(now[n - 1] == more[n - 1]);
        if then.contains(x) {
            assert(now[then.index_of(x)] == x);
        }
        if now.contains(x) && x != more[n - 1] {
            let k = now.index_of(x);
            assert(then[k] == x);
        }
        if !before.contains(more[n - 1]) {
            let after = before.push(more[n - 1]);
            assert(after[before.len() as int] == more[n - 1]);
            if before.contains(x) {
                assert(after[before.index_of(x)] == x);
            }
            if after.contains(x) && x != more[n - 1] {
                let k = after.index_of(x);
                assert(before[k] == x);
            }
            assert(after.take(v.len() as int) =~= before.take(v.len() as int));
        }
    } else {
        assert(more.take(0) =~= Seq::<Seq<char>>::empty());
        assert(v.take(v.len() as int) =~= v);
    }
}

/// A repeated label is the first that stands before itself; a list without one
/// has each label once.
pub proof fn law_the_first_repeat(v: Seq<Seq<char>>, n: int)
    requires
        0 <= n <= v.len(),
    ensures
        config::repeat_upto(v, n) matches Some(k) ==> 0 <= k < n && v.take(k).contains(v[k])
            && v.take(k).no_duplicates(),
        config::repeat_upto(v, n) is None <==> v.take(n).no_duplicates(),
    decreases n,
{
    if n > 0 {
        law_the_first_repeat(v, n - 1);
        let (now, less) = (v.take(n), v.take(n - 1));
        assert(now =~= less.push(v[n - 1]));
        if less.contains(v[n - 1]) {
            let j = less.index_of(v[n - 1]);
            assert(now[j] == now[n - 1] && j != n - 1);
        }
        if now.no_duplicates() {
            assert forall|i: int, j: int| 0 <= i < less.len() && 0 <= j < less.len() && i
                != j implies less[i] != less[j] by {
                assert(now[i] == less[i] && now[j] == less[j]);
            }
        }
        if less.no_duplicates() && !less.contains(v[n - 1]) {
            assert forall|i: int, j: int| 0 <= i < now.len() && 0 <= j < now.len() && i
                != j implies now[i] != now[j] by {
                if i < n - 1 {
                    assert(less[i] == now[i]);
                    assert(less.contains(now[i]));
                }
                if j < n - 1 {
                    assert(less[j] == now[j]);
                    assert(less.contains(now[j]));
                }
            }
        }
    }
}

/// A row is pinned to the folder whose list names it, and to the applications
/// where both do.
pub proof fn law_where_a_row_is_pinned(o: Overrides, ident: Seq<char>)
    ensures
        ({
            let app = exists|k: int|
                0 <= k < o.applications@.len() && (#[trigger] o.applications@[k])@ == ident;
            let service = exists|k: int|
                0 <= k < o.user_services@.len() && (#[trigger] o.user_services@[k])@ == ident;
            &&& app ==> o.pinned(ident) == Some(Folder::Applications)
            &&& !app && service ==> o.pinned(ident) == Some(Folder::UserServices)
            &&& !app && !service ==> o.pinned(ident) is None
        }),
{
    let (a, b) = (text::texts(o.applications@), text::texts(o.user_services@));
    if exists|k: int| 0 <= k < o.applications@.len() && (#[trigger] o.applications@[k])@ == ident {
        let k = choose|k: int|
            0 <= k < o.applications@.len() && (#[trigger] o.applications@[k])@ == ident;
        assert(a[k] == ident);
    }
    if exists|k: int| 0 <= k < o.user_services@.len() && (#[trigger] o.user_services@[k])@ == ident {
        let k = choose|k: int|
            0 <= k < o.user_services@.len() && (#[trigger] o.user_services@[k])@ == ident;
        assert(b[k] == ident);
    }
    if a.contains(ident) {
        let k = a.index_of(ident);
        assert(o.applications@[k]@ == ident);
    }
    if b.contains(ident) {
        let k = b.index_of(ident);
        assert(o.user_services@[k]@ == ident);
    }
}

} // verus!
