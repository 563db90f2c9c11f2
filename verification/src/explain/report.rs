//! What is printed of one process.
use vstd::prelude::*;

use crate::explain;
use crate::explain::{Found, FoundView};
use crate::rules::Rules;
use crate::types::Process;
use crate::{once, text};

verus! {

fn put(v: &mut Vec<String>, s: &str)
    ensures
        text::texts(final(v)@) == text::texts(old(v)@).push(s@),
{
    v.push(s.to_owned());
    assert(text::texts(v@) =~= text::texts(old(v)@).push(s@));
}

fn put_string(v: &mut Vec<String>, s: String)
    ensures
        text::texts(final(v)@) == text::texts(old(v)@).push(s@),
{
    v.push(s);
    assert(text::texts(v@) =~= text::texts(old(v)@).push(s@));
}

/// What is said of a pid that cannot be seen and is in no row.
pub open spec fn unseen(pid: u32) -> Seq<Seq<char>> {
    seq![
        "pid "@ + text::decimal(pid as nat) + ": not visible"@,
        ""@,
        "  It exited, or /proc hides it -- another user's process, a"@,
        "  hidepid mount, or a PID namespace. heft can only group what"@,
        "  it can walk."@,
    ]
}

/// One fact about a process.
pub open spec fn fact_line(k: Seq<char>, v: Seq<char>) -> Seq<char> {
    "  "@ + once::padded(k, 9) + " "@ + once::shown(v)
}

/// The pid and what is known of the process itself.
pub open spec fn head(pid: u32, facts: Seq<(String, String)>) -> Seq<Seq<char>> {
    seq!["pid "@ + text::decimal(pid as nat)] + Seq::new(
        facts.len(),
        |k: int| fact_line(facts[k].0@, facts[k].1@),
    )
}

/// What is said of a process that was read and is in no row.
pub open spec fn nowhere() -> Seq<Seq<char>> {
    seq![
        ""@,
        "  placed    nowhere: heft read this process but no row holds it."@,
        "            A kernel thread with no cgroup, or it exited after"@,
        "            the walk grouping used."@,
    ]
}

/// How the row can be moved, where it can.
pub open spec fn advice(f: FoundView, dir: Seq<char>) -> Seq<Seq<char>> {
    match f.pinnable {
        Some(list) => seq![
            "  \""@ + once::shown(f.ident) + "\" is the placement key for this row."@,
            ""@,
            "  To pin it to a folder, in "@ + once::shown(dir) + "/rules.d/90-mine.json:"@,
            "    { \"stage\": \"placement\", \"rules\": [ { \"id\": \"pin\", \"match\": { \"identity\": "@
                + explain::key_text(f.ident) + " }, \"folder\": \""@ + list + "\" } ] }"@,
            ""@,
            "  To bill it to another row instead, `\"fold_to\": \"<other identity>\"`"@,
            "  in place of `folder`."@,
        ],
        None => seq![
            "  No placement rule can move this row. A container is placed by its"@,
            "  runtime labels and a kernel thread by the cgroup it is in, so"@,
            "  `fold_to` and `folder` skip them. A rule with `owner_uid` sets a"@,
            "  container's owning uid by name."@,
        ],
    }
}

/// The whole answer about a pid: `visible` is whether its directory is there,
/// `found` the row that holds it.
pub open spec fn answer(
    pid: u32,
    visible: bool,
    facts: Seq<(String, String)>,
    found: Option<FoundView>,
    placed: Seq<Seq<char>>,
    dir: Seq<char>,
) -> Seq<Seq<char>> {
    if !visible && found is None {
        unseen(pid)
    } else {
        head(pid, facts) + match found {
            None => nowhere(),
            Some(f) => seq![""@] + placed + seq![""@] + advice(f, dir),
        }
    }
}

pub open spec fn opt_found(f: Option<&Found>) -> Option<FoundView> {
    match f {
        Some(v) => Some(v@),
        None => None,
    }
}

/// What stands between the facts and the advice.
pub open spec fn middle(f: Option<&Found>, p: Option<Process>, r: Rules) -> Seq<Seq<char>> {
    match f {
        Some(v) => explain::process_lines(v@, p, r),
        None => Seq::empty(),
    }
}

fn unseen_lines(pid: u32) -> (r: Vec<String>)
    ensures
        text::texts(r@) == unseen(pid),
{
    let mut v: Vec<String> = Vec::new();
    let mut s = "pid ".to_owned();
    s.append(text::number_text(pid as u64).as_str());
    s.append(": not visible");
    put_string(&mut v, s);
    put(&mut v, "");
    put(&mut v, "  It exited, or /proc hides it -- another user's process, a");
    put(&mut v, "  hidepid mount, or a PID namespace. heft can only group what");
    put(&mut v, "  it can walk.");
    assert(text::texts(v@) =~= unseen(pid));
    v
}

fn head_lines(pid: u32, facts: &Vec<(String, String)>) -> (r: Vec<String>)
    ensures
        text::texts(r@) == head(pid, facts@),
{
    let mut v: Vec<String> = Vec::new();
    let mut s = "pid ".to_owned();
    s.append(text::number_text(pid as u64).as_str());
    put_string(&mut v, s);
    let ghost all = Seq::new(facts@.len(), |k: int| fact_line(facts@[k].0@, facts@[k].1@));
    let ghost first = text::texts(v@);
    assert(first =~= seq!["pid "@ + text::decimal(pid as nat)]);
    assert(first + all.take(0) =~= first);
    let mut i: usize = 0;
    while i < facts.len()
        invariant
            i <= facts@.len(),
            all == Seq::new(facts@.len(), |k: int| fact_line(facts@[k].0@, facts@[k].1@)),
            text::texts(v@) == first + all.take(i as int),
        decreases facts.len() - i,
    {
        let mut line = "  ".to_owned();
        line.append(once::pad(facts[i].0.as_str(), 9).as_str());
        line.append(" ");
        line.append(once::printable(facts[i].1.as_str()).as_str());
        assert(line@ == all[i as int]);
        put_string(&mut v, line);
        assert(first + all.take(i + 1) =~= (first + all.take(i as int)).push(all[i as int]));
        i += 1;
    }
    assert(all.take(i as int) =~= all);
    v
}

fn nowhere_lines() -> (r: Vec<String>)
    ensures
        text::texts(r@) == nowhere(),
{
    let mut v: Vec<String> = Vec::new();
    put(&mut v, "");
    put(&mut v, "  placed    nowhere: heft read this process but no row holds it.");
    put(&mut v, "            A kernel thread with no cgroup, or it exited after");
    put(&mut v, "            the walk grouping used.");
    assert(text::texts(v@) =~= nowhere());
    v
}

fn advice_lines(f: &Found, dir: &str) -> (r: Vec<String>)
    ensures
        text::texts(r@) == advice(f@, dir@),
{
    let mut v: Vec<String> = Vec::new();
    match &f.pinnable {
        Some(list) => {
            let mut key = "  \"".to_owned();
            key.append(once::printable(f.ident.as_str()).as_str());
            key.append("\" is the placement key for this row.");
            put_string(&mut v, key);
            put(&mut v, "");
            let mut place = "  To pin it to a folder, in ".to_owned();
            place.append(once::printable(dir).as_str());
            place.append("/rules.d/90-mine.json:");
            put_string(&mut v, place);
            let mut rule =
                "    { \"stage\": \"placement\", \"rules\": [ { \"id\": \"pin\", \"match\": { \"identity\": ".to_owned();
            rule.append(explain::json_key(f.ident.as_str()).as_str());
            rule.append(" }, \"folder\": \"");
            rule.append(list.as_str());
            rule.append("\" } ] }");
            put_string(&mut v, rule);
            put(&mut v, "");
            put(&mut v, "  To bill it to another row instead, `\"fold_to\": \"<other identity>\"`");
            put(&mut v, "  in place of `folder`.");
        },
        None => {
            put(&mut v, "  No placement rule can move this row. A container is placed by its");
            put(&mut v, "  runtime labels and a kernel thread by the cgroup it is in, so");
            put(&mut v, "  `fold_to` and `folder` skip them. A rule with `owner_uid` sets a");
            put(&mut v, "  container's owning uid by name.");
        },
    }
    assert(text::texts(v@) =~= advice(f@, dir@));
    v
}

fn add_all(v: &mut Vec<String>, more: Vec<String>)
    ensures
        text::texts(final(v)@) == text::texts(old(v)@) + text::texts(more@),
{
    let mut m = more;
    v.append(&mut m);
    assert(text::texts(v@) =~= text::texts(old(v)@) + text::texts(more@));
}

/// The lines about a pid, and whether there was anything to say of it.
pub fn report(
    pid: u32,
    visible: bool,
    facts: &Vec<(String, String)>,
    found: Option<&Found>,
    process: Option<&Process>,
    rs: &Rules,
    dir: &str,
) -> (r: (Vec<String>, bool))
    ensures
        text::texts(r.0@) == answer(
            pid,
            visible,
            facts@,
            opt_found(found),
            middle(found, crate::proc::opt_process(process), *rs),
            dir@,
        ),
        r.1 == (visible || found is Some),
{
    match found {
        None => {
            if !visible {
                return (unseen_lines(pid), false);
            }
            let mut v = head_lines(pid, facts);
            add_all(&mut v, nowhere_lines());
            (v, true)
        },
        Some(f) => {
            let mut v = head_lines(pid, facts);
            let ghost h = text::texts(v@);
            put(&mut v, "");
            let placed = explain::placement_lines(f, process, rs);
            let ghost p = text::texts(placed@);
            add_all(&mut v, placed);
            put(&mut v, "");
            let last = advice_lines(f, dir);
            let ghost a = text::texts(last@);
            add_all(&mut v, last);
            assert(text::texts(v@) =~= h + (seq![""@] + p + seq![""@] + a));
            (v, true)
        },
    }
}

} // verus!
