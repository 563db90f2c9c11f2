//! Where rule files are looked for.
use vstd::prelude::*;

use crate::text;

verus! {

/// A directory of rule files: the lower its rank, the higher its rules stand.
/// Its path is bytes, as the system keeps it.
#[derive(Debug)]
pub struct RuleDir {
    pub rank: usize,
    pub path: Vec<u8>,
}

/// The same as a value.
pub struct Place {
    pub rank: nat,
    pub path: Seq<u8>,
}

pub open spec fn places(v: Seq<RuleDir>) -> Seq<Place> {
    Seq::new(v.len(), |k: int| Place { rank: v[k].rank as nat, path: v[k].path@ })
}

/// Where the next colon is, or the end.
pub open spec fn colon_from(s: Seq<u8>, i: int) -> int
    decreases s.len() - i,
{
    if i >= s.len() || s[i] == 58 {
        i
    } else {
        colon_from(s, i + 1)
    }
}

/// The directories of a list, between its colons: an empty one is skipped, and
/// keeps its rank to itself.
pub open spec fn listed_from(s: Seq<u8>, from: int, rank: nat) -> Seq<Place>
    decreases s.len() - from,
{
    let end = colon_from(s, from);
    let here = if end > from {
        seq![Place { rank, path: s.subrange(from, end) }]
    } else {
        Seq::empty()
    };
    if from < 0 || end >= s.len() || end < from {
        here
    } else {
        here + listed_from(s, end + 1, rank + 1)
    }
}

fn next_colon(s: &[u8], from: usize) -> (r: usize)
    requires
        from <= s@.len(),
    ensures
        r == colon_from(s@, from as int),
        from <= r <= s@.len(),
{
    let mut i: usize = from;
    while i < s.len() && s[i] != 58
        invariant
            from <= i <= s@.len(),
            colon_from(s@, from as int) == colon_from(s@, i as int),
        decreases s.len() - i,
    {
        i += 1;
    }
    i
}

fn copy_bytes(s: &[u8], from: usize, to: usize) -> (r: Vec<u8>)
    requires
        from <= to <= s@.len(),
    ensures
        r@ == s@.subrange(from as int, to as int),
{
    let mut out: Vec<u8> = Vec::new();
    let mut i: usize = from;
    while i < to
        invariant
            from <= i <= to <= s@.len(),
            out@ == s@.subrange(from as int, i as int),
        decreases to - i,
    {
        out.push(s[i]);
        assert(s@.subrange(from as int, i + 1) =~= s@.subrange(from as int, i as int).push(
            s@[i as int],
        ));
        i += 1;
    }
    out
}

/// The directories of a list that is set; without one, the user's own and
/// the machine's.
pub open spec fn looked_in(list: Option<Seq<u8>>, config: Seq<u8>, machine: Seq<u8>) -> Seq<Place> {
    match list {
        Some(s) => listed_from(s, 0, 0),
        None => seq![Place { rank: 0, path: config }, Place { rank: 1, path: machine }],
    }
}

fn of_list(s: &[u8]) -> (r: Vec<RuleDir>)
    ensures
        places(r@) == listed_from(s@, 0, 0),
{
    let total: usize = s.len();
    let mut out: Vec<RuleDir> = Vec::new();
    let mut from: usize = 0;
    let mut rank: usize = 0;
    assert(places(out@) + listed_from(s@, 0, 0) =~= listed_from(s@, 0, 0));
    loop
        invariant
            total == s@.len(),
            from <= total,
            rank <= from,
            places(out@) + listed_from(s@, from as int, rank as nat) == listed_from(s@, 0, 0),
        decreases total - from,
    {
        let end: usize = next_colon(s, from);
        let ghost before = places(out@);
        let ghost here = if end > from {
            seq![Place { rank: rank as nat, path: s@.subrange(from as int, end as int) }]
        } else {
            Seq::empty()
        };
        if end > from {
            let d = RuleDir { rank, path: copy_bytes(s, from, end) };
            out.push(d);
        }
        assert(places(out@) =~= before + here);
        if end >= total {
            assert(before + here =~= listed_from(s@, 0, 0));
            return out;
        }
        assert(before + (here + listed_from(s@, end + 1, (rank + 1) as nat)) =~= (before + here)
            + listed_from(s@, end + 1, (rank + 1) as nat));
        from = end + 1;
        rank += 1;
    }
}

/// The directories that rule files are read from. A list that is set, even to
/// nothing, stands in place of the other two.
pub fn rule_dirs(list: Option<&[u8]>, config: Vec<u8>, machine: Vec<u8>) -> (r: Vec<RuleDir>)
    ensures
        places(r@) == looked_in(
            match list {
                Some(s) => Some(s@),
                None => None,
            },
            config@,
            machine@,
        ),
{
    match list {
        Some(s) => of_list(s),
        None => {
            let mut out: Vec<RuleDir> = Vec::new();
            out.push(RuleDir { rank: 0, path: config });
            out.push(RuleDir { rank: 1, path: machine });
            assert(places(out@) =~= seq![
                Place { rank: 0, path: config@ },
                Place { rank: 1, path: machine@ },
            ]);
            out
        },
    }
}

/// A file of a rule directory is one of rules where its name says so.
pub fn is_rule_file(name: &str) -> (r: bool)
    ensures
        r == text::has_suffix(name@, ".json"@),
{
    text::str_suffixed(name, ".json")
}

/// A list of directories is what stands before its first colon and then the
/// rest, each ranked below the one before; an empty one is skipped and keeps
/// its rank to itself.
pub proof fn law_directories_rank_as_they_are_listed(s: Seq<u8>, from: int, e: int, rank: nat)
    requires
        0 <= from <= e < s.len(),
        s[e] == 58,
        forall|k: int| from <= k < e ==> #[trigger] s[k] != 58,
    ensures
        from < e ==> listed_from(s, from, rank) == seq![
            Place { rank, path: s.subrange(from, e) },
        ] + listed_from(s, e + 1, rank + 1),
        from == e ==> listed_from(s, from, rank) == listed_from(s, e + 1, rank + 1),
{
    lemma_colon(s, from, e);
    if from == e {
        assert(Seq::<Place>::empty() + listed_from(s, e + 1, rank + 1) =~= listed_from(
            s,
            e + 1,
            rank + 1,
        ));
    }
}

/// The last directory of a list runs to its end; without a list the user's own
/// directory ranks before the machine's.
pub proof fn law_the_last_directory_and_none(
    s: Seq<u8>,
    from: int,
    rank: nat,
    config: Seq<u8>,
    machine: Seq<u8>,
)
    requires
        0 <= from < s.len(),
        forall|k: int| from <= k < s.len() ==> #[trigger] s[k] != 58,
    ensures
        listed_from(s, from, rank) == seq![Place { rank, path: s.skip(from) }],
        looked_in(None, config, machine).len() == 2,
        looked_in(None, config, machine)[0] == (Place { rank: 0, path: config }),
        looked_in(None, config, machine)[1] == (Place { rank: 1, path: machine }),
        looked_in(Some(s), config, machine) == listed_from(s, 0, 0),
{
    lemma_colon(s, from, s.len() as int);
    assert(s.subrange(from, s.len() as int) =~= s.skip(from));
}

proof fn lemma_colon(s: Seq<u8>, i: int, e: int)
    requires
        0 <= i <= e <= s.len(),
        e < s.len() ==> s[e] == 58,
        forall|k: int| i <= k < e ==> #[trigger] s[k] != 58,
    ensures
        colon_from(s, i) == e,
    decreases e - i,
{
    if i < e {
        lemma_colon(s, i + 1, e);
    }
}

} // verus!
