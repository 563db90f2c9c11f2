//! The examples that rule files carry, run against the rules in force.
use vstd::prelude::*;

use crate::rules::compile::Compiled;
use crate::rules::ruleset::Rules;
use crate::rules::{Class, Classes, Example, Expect, Facts, FactsView, FolderName, LoadedFile, Stage,
    UnitFlag, UnitFlags};
use crate::rules::{compile, ruleset};
use crate::rules;
use crate::{classify, identity, text};

verus! {

/// A string as `Debug` writes it: quoted, with escapes.
pub uninterp spec fn quoted_text(s: Seq<char>) -> Seq<char>;

/// `format!` with the `Debug` of `str`: what it writes depends on the string
/// alone; which characters it escapes is not said here.
#[verifier::external_body]
fn quoted(s: &str) -> (r: String)
    ensures
        r@ == quoted_text(s@),
{
    format!("{:?}", s)
}

/// A list of texts as `Debug` writes it.
pub open spec fn quoted_list(v: Seq<Seq<char>>) -> Seq<char> {
    "["@ + text::joined_with(Seq::new(v.len(), |i: int| quoted_text(v[i])), ", "@) + "]"@
}

fn quote_list(v: &Vec<String>) -> (r: String)
    ensures
        r@ == quoted_list(text::texts(v@)),
{
    let ghost all = text::texts(v@);
    let mut q: Vec<String> = Vec::new();
    let mut i: usize = 0;
    while i < v.len()
        invariant
            i <= v.len(),
            q@.len() == i,
            forall|j: int| 0 <= j < i ==> (#[trigger] q@[j])@ == quoted_text(v@[j]@),
        decreases v.len() - i,
    {
        q.push(quoted(v[i].as_str()));
        i += 1;
    }
    assert(text::texts(q@) =~= Seq::new(all.len(), |i: int| quoted_text(all[i])));
    let mut out = "[".to_owned();
    out.append(text::join(&q, ", ").as_str());
    out.append("]");
    out
}

/// An optional text as `Debug` writes it.
pub open spec fn quoted_opt(s: Option<Seq<char>>) -> Seq<char> {
    match s {
        Some(t) => "Some("@ + quoted_text(t) + ")"@,
        None => "None"@,
    }
}

fn quote_opt(s: &Option<String>) -> (r: String)
    ensures
        r@ == quoted_opt(text::opt_text(*s)),
{
    match s {
        Some(t) => {
            let mut out = "Some(".to_owned();
            out.append(quoted(t.as_str()).as_str());
            out.append(")");
            out
        },
        None => "None".to_owned(),
    }
}

pub open spec fn folder_text(f: FolderName) -> Seq<char> {
    match f {
        FolderName::Applications => "Applications"@,
        FolderName::UserServices => "UserServices"@,
    }
}

fn folder_label(f: FolderName) -> (r: &'static str)
    ensures
        r@ == folder_text(f),
{
    match f {
        FolderName::Applications => "Applications",
        FolderName::UserServices => "UserServices",
    }
}

pub open spec fn folder_opt(f: Option<FolderName>) -> Seq<char> {
    match f {
        Some(x) => "Some("@ + folder_text(x) + ")"@,
        None => "None"@,
    }
}

fn folder_opt_text(f: Option<FolderName>) -> (r: String)
    ensures
        r@ == folder_opt(f),
{
    match f {
        Some(x) => {
            let mut out = "Some(".to_owned();
            out.append(folder_label(x));
            out.append(")");
            out
        },
        None => "None".to_owned(),
    }
}

pub open spec fn uid_opt(u: Option<u32>) -> Seq<char> {
    match u {
        Some(x) => "Some("@ + text::decimal(x as nat) + ")"@,
        None => "None"@,
    }
}

fn uid_opt_text(u: Option<u32>) -> (r: String)
    ensures
        r@ == uid_opt(u),
{
    match u {
        Some(x) => {
            let mut out = "Some(".to_owned();
            text::push_decimal(&mut out, x as u64);
            out.append(")");
            out
        },
        None => "None".to_owned(),
    }
}

// ---------------------------------------------------------------------------
// Judging one example
// ---------------------------------------------------------------------------

/// A rule named in an example: as it stands where it names a file, else a rule
/// of the example's own file.
pub open spec fn qualified(file: Seq<char>, rule: Seq<char>) -> Seq<char> {
    if rule.contains(':') {
        rule
    } else {
        compile::full_name(file, rule)
    }
}

fn qualify(file: &str, rule: &str) -> (r: String)
    ensures
        r@ == qualified(file@, rule@),
{
    if text::str_has(rule, ':') {
        rule.to_owned()
    } else {
        let mut out = file.to_owned();
        out.append(":");
        out.append(rule);
        out
    }
}

/// The names of several rules.
pub open spec fn names_of(hits: Seq<Compiled>) -> Seq<Seq<char>> {
    Seq::new(hits.len(), |i: int| hits[i].name_spec())
}

/// The classes that all of several rules give.
pub open spec fn all_classes(hits: Seq<Compiled>) -> u16
    decreases hits.len(),
{
    if hits.len() == 0 {
        0
    } else {
        all_classes(hits.drop_last()) | hits.last().classes.0
    }
}

/// The flags that all of several rules give.
pub open spec fn all_flags(hits: Seq<Compiled>) -> u8
    decreases hits.len(),
{
    if hits.len() == 0 {
        0
    } else {
        all_flags(hits.drop_last()) | hits.last().flags.0
    }
}

/// One message where there is a difference, none where there is not.
pub open spec fn when(differs: bool, message: Seq<char>) -> Seq<Seq<char>> {
    if differs {
        seq![message]
    } else {
        Seq::empty()
    }
}

pub open spec fn rule_faults(e: Expect, first: Compiled, file: Seq<char>) -> Seq<Seq<char>> {
    let want = qualified(file, e.rule->0@);
    when(
        e.rule is Some && want != first.name_spec(),
        "expected rule "@ + want + ", got "@ + first.name_spec(),
    )
}

pub open spec fn identity_faults(e: Expect, first: Compiled) -> Seq<Seq<char>> {
    let got = text::opt_text(first.identity);
    when(
        e.identity is Some && got != Some(e.identity->0@),
        "expected identity "@ + e.identity->0@ + ", got "@ + quoted_opt(got),
    )
}

pub open spec fn folder_faults(e: Expect, first: Compiled) -> Seq<Seq<char>> {
    when(
        e.folder is Some && first.folder != e.folder,
        "expected folder "@ + folder_text(e.folder->0) + ", got "@ + folder_opt(first.folder),
    )
}

pub open spec fn fold_faults(e: Expect, first: Compiled) -> Seq<Seq<char>> {
    let got = text::opt_text(first.fold_to);
    when(
        e.fold_to is Some && got != Some(e.fold_to->0@),
        "expected fold_to "@ + e.fold_to->0@ + ", got "@ + quoted_opt(got),
    )
}

pub open spec fn owner_faults(e: Expect, first: Compiled) -> Seq<Seq<char>> {
    when(
        e.owner_uid is Some && first.owner_uid != e.owner_uid,
        "expected owner_uid "@ + text::decimal(e.owner_uid->0 as nat) + ", got "@ + uid_opt(
            first.owner_uid,
        ),
    )
}

/// How the first rule that fired differs from what is expected.
pub open spec fn first_faults(e: Expect, first: Compiled, file: Seq<char>) -> Seq<Seq<char>> {
    rule_faults(e, first, file) + identity_faults(e, first) + folder_faults(e, first)
        + fold_faults(e, first) + owner_faults(e, first)
}

/// The rules an example names, each with its file.
pub open spec fn wanted(file: Seq<char>, v: Seq<String>) -> Seq<Seq<char>> {
    Seq::new(v.len(), |i: int| qualified(file, v[i]@))
}

/// How the rules that fired, taken together, differ from what is expected.
pub open spec fn set_faults(e: Expect, hits: Seq<Compiled>, file: Seq<char>) -> Seq<Seq<char>> {
    let want = text::sorted_texts(wanted(file, e.rules->0@));
    let got = text::sorted_texts(names_of(hits));
    let (wc, gc) = (compile::classes_bits(e.classes->0@), all_classes(hits));
    let (wf, gf) = (compile::flags_bits(e.flags->0@), all_flags(hits));
    when(
        e.rules is Some && want != got,
        "expected rules "@ + quoted_list(want) + ", got "@ + quoted_list(got),
    ) + when(
        e.classes is Some && wc != gc,
        "expected classes "@ + quoted_list(rules::class_names_upto(wc, 11)) + ", got "@
            + quoted_list(rules::class_names_upto(gc, 11)),
    ) + when(
        e.flags is Some && wf != gf,
        "expected flags "@ + quoted_list(rules::flag_names(wf)) + ", got "@ + quoted_list(
            rules::flag_names(gf),
        ),
    )
}

/// The differences between what an example expects and the rules that fired.
pub open spec fn verdict(ex: Example, hits: Seq<Compiled>, file: Seq<char>) -> Seq<Seq<char>> {
    match ex.expect {
        None => when(
            hits.len() > 0,
            "expected no match, got "@ + text::joined_with(names_of(hits), ","@),
        ),
        Some(e) => if hits.len() == 0 && e.classes is None && e.flags is None {
            seq!["expected a match, got none"@]
        } else if hits.len() == 0 {
            set_faults(e, hits, file)
        } else {
            first_faults(e, hits[0], file) + set_faults(e, hits, file)
        },
    }
}

/// The rules behind references.
pub open spec fn behind(v: Seq<&Compiled>) -> Seq<Compiled> {
    Seq::new(v.len(), |i: int| *v[i])
}

fn hit_names(hits: &Vec<&Compiled>) -> (r: Vec<String>)
    ensures
        text::texts(r@) == names_of(behind(hits@)),
{
    let mut out: Vec<String> = Vec::new();
    let mut i: usize = 0;
    while i < hits.len()
        invariant
            i <= hits.len(),
            out@.len() == i,
            forall|j: int| 0 <= j < i ==> (#[trigger] out@[j])@ == hits@[j].name_spec(),
        decreases hits.len() - i,
    {
        out.push(hits[i].name());
        i += 1;
    }
    assert(text::texts(out@) =~= names_of(behind(hits@)));
    out
}

fn hit_classes(hits: &Vec<&Compiled>) -> (r: Classes)
    ensures
        r.0 == all_classes(behind(hits@)),
{
    let ghost h = behind(hits@);
    let mut out: u16 = 0;
    let mut i: usize = 0;
    assert(h.take(0) =~= Seq::<Compiled>::empty());
    while i < hits.len()
        invariant
            i <= hits.len(),
            h == behind(hits@),
            out == all_classes(h.take(i as int)),
        decreases hits.len() - i,
    {
        assert(h.take(i + 1).drop_last() =~= h.take(i as int));
        assert(h.take(i + 1).last() == *hits@[i as int]);
        out = out | hits[i].classes.0;
        i += 1;
    }
    assert(h.take(i as int) =~= h);
    Classes(out)
}

fn hit_flags(hits: &Vec<&Compiled>) -> (r: UnitFlags)
    ensures
        r.0 == all_flags(behind(hits@)),
{
    let ghost h = behind(hits@);
    let mut out: u8 = 0;
    let mut i: usize = 0;
    assert(h.take(0) =~= Seq::<Compiled>::empty());
    while i < hits.len()
        invariant
            i <= hits.len(),
            h == behind(hits@),
            out == all_flags(h.take(i as int)),
        decreases hits.len() - i,
    {
        assert(h.take(i + 1).drop_last() =~= h.take(i as int));
        assert(h.take(i + 1).last() == *hits@[i as int]);
        out = out | hits[i].flags.0;
        i += 1;
    }
    assert(h.take(i as int) =~= h);
    UnitFlags(out)
}

fn owned(v: Vec<&'static str>) -> (r: Vec<String>)
    ensures
        text::texts(r@) == rules::slices(v@),
{
    let mut out: Vec<String> = Vec::new();
    let mut i: usize = 0;
    while i < v.len()
        invariant
            i <= v.len(),
            out@.len() == i,
            forall|j: int| 0 <= j < i ==> (#[trigger] out@[j])@ == v@[j]@,
        decreases v.len() - i,
    {
        out.push(v[i].to_owned());
        i += 1;
    }
    assert(text::texts(out@) =~= rules::slices(v@));
    out
}

/// `expected <what> <want>, got <got>`.
fn differs(what: &str, want: &str, got: &str) -> (r: String)
    ensures
        r@ == what@ + want@ + ", got "@ + got@,
{
    let mut out = what.to_owned();
    out.append(want);
    out.append(", got ");
    out.append(got);
    out
}

fn note(fails: &mut Vec<String>, message: String)
    ensures
        text::texts(final(fails)@) == text::texts(old(fails)@) + seq![message@],
{
    let ghost before = text::texts(fails@);
    let ghost m = message@;
    fails.push(message);
    assert(text::texts(fails@) =~= before + seq![m]);
}

fn judge_rule(e: &Expect, first: &Compiled, file: &str, fails: &mut Vec<String>)
    ensures
        text::texts(final(fails)@) == text::texts(old(fails)@) + rule_faults(*e, *first, file@),
{
    let ghost start = text::texts(fails@);
    if let Some(rule) = &e.rule {
        let want = qualify(file, rule.as_str());
        let got = first.name();
        if !text::same_str(want.as_str(), got.as_str()) {
            note(fails, differs("expected rule ", want.as_str(), got.as_str()));
        }
    }
    assert(text::texts(fails@) =~= start + rule_faults(*e, *first, file@));
}

fn judge_texts(e: &Expect, first: &Compiled, fails: &mut Vec<String>)
    ensures
        text::texts(final(fails)@) == text::texts(old(fails)@) + identity_faults(*e, *first)
            + folder_faults(*e, *first),
{
    let ghost start = text::texts(fails@);
    if let Some(id) = &e.identity {
        let same = match &first.identity {
            Some(x) => text::same_str(x.as_str(), id.as_str()),
            None => false,
        };
        if !same {
            note(
                fails,
                differs("expected identity ", id.as_str(), quote_opt(&first.identity).as_str()),
            );
        }
    }
    assert(text::texts(fails@) =~= start + identity_faults(*e, *first));
    if let Some(fo) = e.folder {
        let same = match first.folder {
            Some(x) => x == fo,
            None => false,
        };
        if !same {
            note(
                fails,
                differs(
                    "expected folder ",
                    folder_label(fo),
                    folder_opt_text(first.folder).as_str(),
                ),
            );
        }
    }
    assert(text::texts(fails@) =~= start + identity_faults(*e, *first) + folder_faults(*e, *first));
}

fn judge_targets(e: &Expect, first: &Compiled, fails: &mut Vec<String>)
    ensures
        text::texts(final(fails)@) == text::texts(old(fails)@) + fold_faults(*e, *first)
            + owner_faults(*e, *first),
{
    let ghost start = text::texts(fails@);
    if let Some(ft) = &e.fold_to {
        let same = match &first.fold_to {
            Some(x) => text::same_str(x.as_str(), ft.as_str()),
            None => false,
        };
        if !same {
            note(
                fails,
                differs("expected fold_to ", ft.as_str(), quote_opt(&first.fold_to).as_str()),
            );
        }
    }
    assert(text::texts(fails@) =~= start + fold_faults(*e, *first));
    if let Some(u) = e.owner_uid {
        let same = match first.owner_uid {
            Some(x) => x == u,
            None => false,
        };
        if !same {
            note(
                fails,
                differs(
                    "expected owner_uid ",
                    text::number_text(u as u64).as_str(),
                    uid_opt_text(first.owner_uid).as_str(),
                ),
            );
        }
    }
    assert(text::texts(fails@) =~= start + fold_faults(*e, *first) + owner_faults(*e, *first));
}

fn judge_first(e: &Expect, first: &Compiled, file: &str, fails: &mut Vec<String>)
    ensures
        text::texts(final(fails)@) == text::texts(old(fails)@) + first_faults(*e, *first, file@),
{
    let ghost start = text::texts(fails@);
    judge_rule(e, first, file, fails);
    judge_texts(e, first, fails);
    judge_targets(e, first, fails);
    assert(text::texts(fails@) =~= start + first_faults(*e, *first, file@));
}

fn judge_set(e: &Expect, hits: &Vec<&Compiled>, file: &str, fails: &mut Vec<String>)
    ensures
        text::texts(final(fails)@) == text::texts(old(fails)@) + set_faults(
            *e,
            behind(hits@),
            file@,
        ),
{
    let ghost start = text::texts(fails@);
    if let Some(list) = &e.rules {
        let mut want: Vec<String> = Vec::new();
        let mut i: usize = 0;
        while i < list.len()
            invariant
                i <= list.len(),
                want@.len() == i,
                forall|j: int|
                    0 <= j < i ==> (#[trigger] want@[j])@ == qualified(file@, list@[j]@),
            decreases list.len() - i,
        {
            want.push(qualify(file, list[i].as_str()));
            i += 1;
        }
        assert(text::texts(want@) =~= wanted(file@, list@));
        let want = text::sort_strings(want);
        let got = text::sort_strings(hit_names(hits));
        if !text::same_strings(&want, &got) {
            note(
                fails,
                differs("expected rules ", quote_list(&want).as_str(), quote_list(&got).as_str()),
            );
        }
    }
    if let Some(cs) = &e.classes {
        let want = compile::classes_of(cs);
        let got = hit_classes(hits);
        if want.0 != got.0 {
            note(
                fails,
                differs(
                    "expected classes ",
                    quote_list(&owned(want.names())).as_str(),
                    quote_list(&owned(got.names())).as_str(),
                ),
            );
        }
    }
    if let Some(fl) = &e.flags {
        let want = compile::flags_of(fl);
        let got = hit_flags(hits);
        if want.0 != got.0 {
            note(
                fails,
                differs(
                    "expected flags ",
                    quote_list(&owned(want.names())).as_str(),
                    quote_list(&owned(got.names())).as_str(),
                ),
            );
        }
    }
    assert(text::texts(fails@) =~= start + set_faults(*e, behind(hits@), file@));
}

/// The differences between one example's `expect` and the rules that fired.
pub fn judge(ex: &Example, hits: &Vec<&Compiled>, file: &str) -> (r: Vec<String>)
    ensures
        text::texts(r@) == verdict(*ex, behind(hits@), file@),
{
    let mut fails: Vec<String> = Vec::new();
    assert(text::texts(fails@) =~= Seq::<Seq<char>>::empty());
    match &ex.expect {
        None => {
            if hits.len() > 0 {
                let mut m = "expected no match, got ".to_owned();
                m.append(text::join(&hit_names(hits), ",").as_str());
                note(&mut fails, m);
            }
            assert(text::texts(fails@) =~= verdict(*ex, behind(hits@), file@));
            fails
        },
        Some(e) => {
            if hits.len() == 0 && e.classes.is_none() && e.flags.is_none() {
                note(&mut fails, "expected a match, got none".to_owned());
                assert(text::texts(fails@) =~= verdict(*ex, behind(hits@), file@));
                return fails;
            }
            if hits.len() > 0 {
                judge_first(e, hits[0], file, &mut fails);
                assert(behind(hits@)[0] == *hits@[0]);
            }
            judge_set(e, hits, file, &mut fails);
            assert(text::texts(fails@) =~= verdict(*ex, behind(hits@), file@));
            fails
        },
    }
}

// ---------------------------------------------------------------------------
// Subjects
// ---------------------------------------------------------------------------

/// The facts of an example's subject.
pub struct OwnedFacts {
    pub comm: String,
    pub name: String,
    pub exe: Option<String>,
    pub argv: Vec<String>,
    pub cgroup: String,
    pub unit: Option<String>,
    pub script: Option<String>,
    pub identity: Option<String>,
    pub container: Option<String>,
}

impl View for OwnedFacts {
    type V = FactsView;

    open spec fn view(&self) -> FactsView {
        FactsView {
            comm: self.comm@,
            name: self.name@,
            exe: text::opt_text(self.exe),
            argv: text::texts(self.argv@),
            cgroup: self.cgroup@,
            unit: text::opt_text(self.unit),
            script: text::opt_text(self.script),
            identity: text::opt_text(self.identity),
            container: text::opt_text(self.container),
        }
    }
}

impl OwnedFacts {
    #[must_use]
    pub fn facts(&self) -> (r: Facts<'_>)
        ensures
            r@ == self@,
    {
        Facts {
            comm: self.comm.as_str(),
            name: self.name.as_str(),
            exe: text::opt_borrow(&self.exe),
            argv: self.argv.as_slice(),
            cgroup: self.cgroup.as_str(),
            unit: text::opt_borrow(&self.unit),
            script: text::opt_borrow(&self.script),
            identity: text::opt_borrow(&self.identity),
            container: text::opt_borrow(&self.container),
        }
    }
}

/// What the process gave as its own name; nothing where the example says
/// nothing.
pub open spec fn subject_comm(ex: Example) -> Seq<char> {
    match ex.comm {
        Some(c) => c@,
        None => Seq::empty(),
    }
}

/// An example's subject as the engine sees it. A unit that is spelled out wins
/// over the one the control group names; only a class rule sees the script.
pub open spec fn subject_view(ex: Example, stage: Stage) -> FactsView {
    FactsView {
        comm: subject_comm(ex),
        name: classify::display_name(text::opt_text(ex.exe), subject_comm(ex)),
        exe: text::opt_text(ex.exe),
        argv: text::texts(ex.cmdline@),
        cgroup: ex.cgroup@,
        unit: if ex.unit is Some {
            text::opt_text(ex.unit)
        } else if ex.cgroup@.len() == 0 {
            None
        } else {
            identity::unit_of(ex.cgroup@)
        },
        script: if stage == Stage::Class {
            classify::script_of(text::texts(ex.cmdline@))
        } else {
            None
        },
        identity: text::opt_text(ex.identity),
        container: text::opt_text(ex.container),
    }
}

#[must_use]
pub fn subject_facts(ex: &Example, stage: Stage) -> (r: OwnedFacts)
    ensures
        r@ == subject_view(*ex, stage),
{
    let comm = match &ex.comm {
        Some(c) => c.clone(),
        None => String::new(),
    };
    let p = crate::types::Process {
        comm,
        exe: text::opt_clone(&ex.exe),
        ..crate::types::Process::default()
    };
    let name = classify::name_of(&p);
    let unit = match &ex.unit {
        Some(u) => Some(u.clone()),
        None => if ex.cgroup.as_str().is_empty() {
            None
        } else {
            identity::user_unit(ex.cgroup.as_str())
        },
    };
    let script = if stage == Stage::Class {
        classify::script_basename(ex.cmdline.as_slice())
    } else {
        None
    };
    OwnedFacts {
        comm: p.comm,
        name,
        exe: p.exe,
        argv: text::clone_all(ex.cmdline.as_slice()),
        cgroup: ex.cgroup.clone(),
        unit,
        script,
        identity: text::opt_clone(&ex.identity),
        container: text::opt_clone(&ex.container),
    }
}

// ---------------------------------------------------------------------------
// Running the examples
// ---------------------------------------------------------------------------

/// The rules that decide for the facts, in order.
pub open spec fn decided(r: Rules, stage: Stage, f: FactsView) -> Seq<Compiled> {
    let at = ruleset::deciders(stage, r.rules_of(stage), f);
    Seq::new(at.len(), |k: int| r.rules_of(stage)[at[k]])
}

/// How an example is called: its file, the rule it expects, its place, its source.
pub open spec fn example_name(f: LoadedFile, ex: Example, i: int) -> Seq<char> {
    let label = match ex.expect {
        Some(e) => match e.rule {
            Some(r) => r@,
            None => "-"@,
        },
        None => "-"@,
    };
    f.name@ + ":"@ + label + "#"@ + text::decimal(i as nat) + " ("@ + f.source.label@ + ")"@
}

/// A rule of a higher source decided.
pub open spec fn outranked(hits: Seq<Compiled>, rank: usize) -> bool {
    exists|k: int| 0 <= k < hits.len() && (#[trigger] hits[k]).source.rank < rank
}

/// A rule by its full name is disabled, alone or with its file.
pub open spec fn name_disabled(disabled: Seq<Seq<char>>, q: Seq<char>) -> bool {
    disabled.contains(q) || disabled.contains(
        match text::cut_first(q, ':') {
            Some((file, _)) => file,
            None => q,
        },
    )
}

/// An example expects a rule that is disabled.
pub open spec fn expects_disabled(disabled: Seq<Seq<char>>, ex: Example, file: Seq<char>) -> bool {
    match ex.expect {
        Some(e) => {
            ||| e.rule is Some && name_disabled(disabled, qualified(file, e.rule->0@))
            ||| e.rules is Some && exists|k: int|
                0 <= k < e.rules->0@.len() && name_disabled(
                    disabled,
                    qualified(file, (#[trigger] e.rules->0@[k])@),
                )
        },
        None => false,
    }
}

/// What is said of one example: nothing where it holds.
pub open spec fn example_lines(r: Rules, strict: bool, f: LoadedFile, i: int) -> Seq<Seq<char>> {
    let ex = f.parsed->Ok_0.examples@[i];
    let stage = f.parsed->Ok_0.stage;
    let name = example_name(f, ex, i);
    let hits = decided(r, stage, subject_view(ex, stage));
    let fails = verdict(ex, hits, f.name@);
    if fails.len() == 0 {
        Seq::empty()
    } else if !strict && outranked(hits, f.source.rank) {
        seq![name + ": overridden by "@ + hits[0].name_spec()]
    } else if !strict && expects_disabled(text::texts(r.disabled@), ex, f.name@) {
        seq![name + ": disabled"@]
    } else {
        seq![name + ": FAIL "@ + text::joined_with(fails, "; "@)]
    }
}

/// What is said of the first `n` examples of a file.
pub open spec fn file_lines(r: Rules, strict: bool, f: LoadedFile, n: int) -> Seq<Seq<char>>
    decreases n,
{
    if n <= 0 {
        Seq::empty()
    } else {
        file_lines(r, strict, f, n - 1) + example_lines(r, strict, f, n - 1)
    }
}

/// What is said of the first `n` loaded files.
pub open spec fn check_lines(r: Rules, strict: bool, n: int) -> Seq<Seq<char>>
    decreases n,
{
    if n <= 0 {
        Seq::empty()
    } else {
        let f = r.loaded@[r.in_order()[n - 1]];
        check_lines(r, strict, n - 1) + file_lines(
            r,
            strict,
            f,
            f.parsed->Ok_0.examples@.len() as int,
        )
    }
}

fn example_label(f: &LoadedFile, ex: &Example, i: usize) -> (r: String)
    ensures
        r@ == example_name(*f, *ex, i as int),
{
    let label = match &ex.expect {
        Some(e) => match &e.rule {
            Some(r) => r.as_str(),
            None => "-",
        },
        None => "-",
    };
    let mut out = f.name.clone();
    out.append(":");
    out.append(label);
    out.append("#");
    text::push_decimal(&mut out, i as u64);
    out.append(" (");
    out.append(f.source.label.as_str());
    out.append(")");
    out
}

fn has_outranked(hits: &Vec<&Compiled>, rank: usize) -> (r: bool)
    ensures
        r == outranked(behind(hits@), rank),
{
    let ghost h = behind(hits@);
    let mut k: usize = 0;
    while k < hits.len()
        invariant
            k <= hits.len(),
            h == behind(hits@),
            forall|j: int| 0 <= j < k ==> (#[trigger] h[j]).source.rank >= rank,
        decreases hits.len() - k,
    {
        assert(h[k as int] == *hits@[k as int]);
        if hits[k].source.rank < rank {
            return true;
        }
        k += 1;
    }
    false
}

fn is_name_disabled(disabled: &Vec<String>, q: &str) -> (r: bool)
    ensures
        r == name_disabled(text::texts(disabled@), q@),
{
    if text::among(disabled, q) {
        return true;
    }
    match text::str_cut_first(q, ':') {
        Some((head, _)) => text::among(disabled, head),
        None => text::among(disabled, q),
    }
}

fn has_disabled(disabled: &Vec<String>, ex: &Example, file: &str) -> (r: bool)
    ensures
        r == expects_disabled(text::texts(disabled@), *ex, file@),
{
    match &ex.expect {
        Some(e) => {
            if let Some(rule) = &e.rule {
                if is_name_disabled(disabled, qualify(file, rule.as_str()).as_str()) {
                    return true;
                }
            }
            if let Some(v) = &e.rules {
                let ghost dis = text::texts(disabled@);
                let mut k: usize = 0;
                while k < v.len()
                    invariant
                        k <= v.len(),
                        ex.expect == Some(*e),
                        e.rules == Some(*v),
                        dis == text::texts(disabled@),
                        forall|j: int|
                            0 <= j < k ==> !name_disabled(
                                dis,
                                qualified(file@, (#[trigger] v@[j])@),
                            ),
                    decreases v.len() - k,
                {
                    if is_name_disabled(disabled, qualify(file, v[k].as_str()).as_str()) {
                        proof {
                            let w = ex.expect->0.rules->0@[k as int];
                            assert(w == v@[k as int]);
                            assert(name_disabled(dis, qualified(file@, w@)));
                        }
                        return true;
                    }
                    k += 1;
                }
            }
            false
        },
        None => false,
    }
}

impl Rules {
    fn check_example(&self, strict: bool, f: &LoadedFile, stage: Stage, ex: &Example, i: usize) -> (r:
        Option<String>)
        requires
            f.parsed is Ok,
            i < f.parsed->Ok_0.examples@.len(),
            f.parsed->Ok_0.examples@[i as int] == *ex,
            f.parsed->Ok_0.stage == stage,
        ensures
            match r {
                Some(line) => example_lines(*self, strict, *f, i as int) == seq![line@],
                None => example_lines(*self, strict, *f, i as int).len() == 0,
            },
    {
        let owned = subject_facts(ex, stage);
        let facts = owned.facts();
        let hits = self.deciding(stage, &facts);
        proof {
            assert(behind(hits@) =~= decided(*self, stage, subject_view(*ex, stage)));
        }
        let fails = judge(ex, &hits, f.name.as_str());
        assert(text::texts(fails@).len() == fails@.len());
        if fails.len() == 0 {
            return None;
        }
        let mut line = example_label(f, ex, i);
        if !strict && has_outranked(&hits, f.source.rank) {
            line.append(": overridden by ");
            assert(behind(hits@)[0] == *hits@[0]);
            line.append(hits[0].name().as_str());
        } else if !strict && has_disabled(&self.disabled, ex, f.name.as_str()) {
            line.append(": disabled");
        } else {
            line.append(": FAIL ");
            line.append(text::join(&fails, "; ").as_str());
        }
        Some(line)
    }

    fn check_file(&self, strict: bool, f: &LoadedFile, out: &mut Vec<String>)
        requires
            f.parsed is Ok,
        ensures
            text::texts(final(out)@) == text::texts(old(out)@) + file_lines(
                *self,
                strict,
                *f,
                f.parsed->Ok_0.examples@.len() as int,
            ),
    {
        let ghost before = text::texts(out@);
        if let Ok(rf) = &f.parsed {
            let mut i: usize = 0;
            assert(before + Seq::<Seq<char>>::empty() =~= before);
            while i < rf.examples.len()
                invariant
                    i <= rf.examples.len(),
                    f.parsed == Ok::<rules::RuleFile, String>(*rf),
                    text::texts(out@) == before + file_lines(*self, strict, *f, i as int),
                decreases rf.examples.len() - i,
            {
                let ghost so_far = text::texts(out@);
                let ghost lines = example_lines(*self, strict, *f, i as int);
                match self.check_example(strict, f, rf.stage, &rf.examples[i], i) {
                    Some(line) => {
                        let ghost l = line@;
                        out.push(line);
                        assert(text::texts(out@) =~= so_far + seq![l]);
                    },
                    None => {
                        assert(lines =~= Seq::<Seq<char>>::empty());
                        assert(so_far =~= so_far + lines);
                    },
                }
                assert((before + file_lines(*self, strict, *f, i as int)) + lines =~= before + (
                file_lines(*self, strict, *f, i as int) + lines));
                i += 1;
            }
        }
    }

    /// Runs every loaded file's examples. `strict` fails every difference;
    /// otherwise an example that a higher source decided is reported as
    /// overridden, and one whose rule is disabled as disabled.
    #[must_use]
    pub fn check(&self, strict: bool) -> (r: Vec<String>)
        requires
            self.wf(),
        ensures
            text::texts(r@) == check_lines(*self, strict, self.in_order().len() as int),
    {
        let ghost ord = self.in_order();
        proof {
            ruleset::lemma_load_order_ok(self.loaded@, self.loaded@.len() as int);
        }
        let mut out: Vec<String> = Vec::new();
        assert(text::texts(out@) =~= Seq::<Seq<char>>::empty());
        let mut k: usize = 0;
        while k < self.order.len()
            invariant
                k <= self.order.len(),
                ord == self.in_order(),
                ruleset::order_ok(self.loaded@, ord),
                text::texts(out@) == check_lines(*self, strict, k as int),
            decreases self.order.len() - k,
        {
            assert(ord[k as int] == self.order@[k as int]);
            let f = &self.loaded[self.order[k]];
            assert(ruleset::problem_of(*f) is None);
            self.check_file(strict, f, &mut out);
            k += 1;
        }
        out
    }
}

// ---------------------------------------------------------------------------
// The two ways to check
// ---------------------------------------------------------------------------

/// What is said of one example in either way: the strict line is a failure,
/// and the loose one is the same line or explains the example by its name.
pub open spec fn said_of(
    strict: Seq<char>,
    loose: Seq<char>,
    name: Seq<char>,
    why: Seq<char>,
    rule: Seq<char>,
) -> bool {
    &&& strict == name + ": FAIL "@ + why
    &&& loose == strict || loose == name + ": overridden by "@ + rule || loose == name
        + ": disabled"@
}

/// Two lines that speak of one example.
pub open spec fn same_example(strict: Seq<char>, loose: Seq<char>) -> bool {
    exists|name: Seq<char>, why: Seq<char>, rule: Seq<char>| #[trigger]
        said_of(strict, loose, name, why, rule)
}

/// Line for line the same examples.
pub open spec fn same_examples(strict: Seq<Seq<char>>, loose: Seq<Seq<char>>) -> bool {
    &&& strict.len() == loose.len()
    &&& forall|k: int| 0 <= k < strict.len() ==> same_example(#[trigger] strict[k], loose[k])
}

proof fn lemma_same_joins(
    a: Seq<Seq<char>>,
    b: Seq<Seq<char>>,
    c: Seq<Seq<char>>,
    d: Seq<Seq<char>>,
)
    requires
        same_examples(a, b),
        same_examples(c, d),
    ensures
        same_examples(a + c, b + d),
{
    assert forall|k: int| 0 <= k < (a + c).len() implies same_example(
        #[trigger] (a + c)[k],
        (b + d)[k],
    ) by {
        if k < a.len() {
            assert(same_example(a[k], b[k]));
        } else {
            assert(same_example(c[k - a.len()], d[k - a.len()]));
        }
    }
}

proof fn lemma_example_ways(r: Rules, f: LoadedFile, i: int)
    ensures
        same_examples(example_lines(r, true, f, i), example_lines(r, false, f, i)),
        example_lines(r, true, f, i).len() <= 1,
{
    let ex = f.parsed->Ok_0.examples@[i];
    let stage = f.parsed->Ok_0.stage;
    let name = example_name(f, ex, i);
    let hits = decided(r, stage, subject_view(ex, stage));
    let fails = verdict(ex, hits, f.name@);
    let (a, b) = (example_lines(r, true, f, i), example_lines(r, false, f, i));
    if fails.len() > 0 {
        let why = text::joined_with(fails, "; "@);
        assert(said_of(a[0], b[0], name, why, hits[0].name_spec()));
    }
}

proof fn lemma_file_ways(r: Rules, f: LoadedFile, n: int)
    requires
        0 <= n,
    ensures
        same_examples(file_lines(r, true, f, n), file_lines(r, false, f, n)),
        file_lines(r, true, f, n).len() <= n,
    decreases n,
{
    if n > 0 {
        lemma_file_ways(r, f, n - 1);
        lemma_example_ways(r, f, n - 1);
        lemma_same_joins(
            file_lines(r, true, f, n - 1),
            file_lines(r, false, f, n - 1),
            example_lines(r, true, f, n - 1),
            example_lines(r, false, f, n - 1),
        );
    }
}

proof fn lemma_check_ways(r: Rules, n: int)
    requires
        0 <= n,
    ensures
        same_examples(check_lines(r, true, n), check_lines(r, false, n)),
        check_lines(r, true, n).len() <= ruleset::examples_upto(r.loaded@, r.in_order(), n),
    decreases n,
{
    if n > 0 {
        lemma_check_ways(r, n - 1);
        let f = r.loaded@[r.in_order()[n - 1]];
        let m = f.parsed->Ok_0.examples@.len() as int;
        lemma_file_ways(r, f, m);
        lemma_same_joins(
            check_lines(r, true, n - 1),
            check_lines(r, false, n - 1),
            file_lines(r, true, f, m),
            file_lines(r, false, f, m),
        );
    }
}

/// A strict check and a loose one report the same examples, line for line, and
/// never more than there are: the strict lines are failures, the loose ones
/// the same or an explanation. So all examples hold in one way exactly where
/// they hold in the other.
pub proof fn law_both_ways_report_the_same_examples(r: Rules)
    ensures
        same_examples(
            check_lines(r, true, r.in_order().len() as int),
            check_lines(r, false, r.in_order().len() as int),
        ),
        check_lines(r, true, r.in_order().len() as int).len() <= ruleset::examples_upto(
            r.loaded@,
            r.in_order(),
            r.in_order().len() as int,
        ),
        check_lines(r, true, r.in_order().len() as int).len() == 0 <==> check_lines(
            r,
            false,
            r.in_order().len() as int,
        ).len() == 0,
{
    lemma_check_ways(r, r.in_order().len() as int);
}

} // verus!
