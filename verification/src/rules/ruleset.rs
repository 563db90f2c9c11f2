//! A set of rule files, loaded in order of precedence, and the questions the
//! rest of the library asks of it.
use vstd::prelude::*;
use vstd::utf8::*;

use crate::rules::compile::{Compiled, Folded};
use crate::rules::{Classes, Example, Facts, FactsView, FolderName, LoadedFile, Problem, Rule,
    RuleFile, Source, Stage, UnitFlags};
use crate::rules::compile;
use crate::rules;
use crate::text;

verus! {

// ---------------------------------------------------------------------------
// One file
// ---------------------------------------------------------------------------

/// A character an id may hold.
pub open spec fn id_char(c: char) -> bool {
    ('a' <= c && c <= 'z') || text::is_digit(c) || c == '-'
}

/// An id: at least one character, each of them allowed.
pub open spec fn id_valid(id: Seq<char>) -> bool {
    id.len() > 0 && forall|i: int| 0 <= i < id.len() ==> id_char(#[trigger] id[i])
}

fn id_ok(id: &str) -> (r: bool)
    ensures
        r == id_valid(id@),
{
    let v = text::chars_of(id);
    let mut i: usize = 0;
    while i < v.len()
        invariant
            i <= v.len(),
            v@ == id@,
            forall|j: int| 0 <= j < i ==> id_char(#[trigger] id@[j]),
        decreases v.len() - i,
    {
        let c = v[i];
        if !(('a' <= c && c <= 'z') || text::digit_char(c) || c == '-') {
            assert(!id_char(id@[i as int]));
            return false;
        }
        i += 1;
    }
    v.len() > 0
}

/// A file name that ends in `.json`, with something before it and neither a
/// slash nor a colon there.
pub open spec fn file_name_valid(file: Seq<char>) -> bool {
    let stem = file.subrange(0, file.len() - ".json"@.len());
    &&& text::has_suffix(file, ".json"@)
    &&& stem.len() > 0
    &&& !stem.contains('/')
    &&& !stem.contains(':')
}

/// `<file>.json` or `<file>.json:<id>`.
pub open spec fn disable_valid(e: Seq<char>) -> bool {
    match text::cut_first(e, ':') {
        Some((file, id)) => file_name_valid(file) && id_valid(id),
        None => file_name_valid(e),
    }
}

fn file_name_ok(file: &str) -> (r: bool)
    ensures
        r == file_name_valid(file@),
{
    match text::str_strip_suffix(file, ".json") {
        Some(stem) => !stem.is_empty() && !text::str_has(stem, '/') && !text::str_has(stem, ':'),
        None => false,
    }
}

fn disable_ok(e: &str) -> (r: bool)
    ensures
        r == disable_valid(e@),
{
    match text::str_cut_first(e, ':') {
        Some((file, id)) => file_name_ok(file) && id_ok(id),
        None => file_name_ok(e),
    }
}

/// A rule before the `i`th has its id.
pub open spec fn id_taken(v: Seq<Rule>, i: int) -> bool {
    exists|j: int| 0 <= j < i && (#[trigger] v[j]).id@ == v[i].id@
}

/// What is wrong with the rules at or after the `i`th: the first fault.
pub open spec fn rules_fault(stage: Stage, v: Seq<Rule>, i: int) -> Option<Seq<char>>
    decreases v.len() - i,
{
    if i < 0 || i >= v.len() {
        None
    } else if !id_valid(v[i].id@) {
        Some("id `"@ + v[i].id@ + "` outside [a-z0-9-]+"@)
    } else if id_taken(v, i) {
        Some("duplicate id `"@ + v[i].id@ + "`"@)
    } else {
        match compile::rule_fault(stage, v[i]) {
            Some(what) => Some(compile::rule_message(v[i].id@, what)),
            None => rules_fault(stage, v, i + 1),
        }
    }
}

/// What is wrong with the disable entries at or after the `i`th.
pub open spec fn disable_fault(v: Seq<String>, i: int) -> Option<Seq<char>>
    decreases v.len() - i,
{
    if i < 0 || i >= v.len() {
        None
    } else if !disable_valid(v[i]@) {
        Some("disable entry `"@ + v[i]@ + "` is not <file>.json or <file>.json:<id>"@)
    } else {
        disable_fault(v, i + 1)
    }
}

/// An example names something a rule can look at.
pub open spec fn has_subject(e: Example) -> bool {
    e.comm is Some || e.unit is Some || e.identity is Some || e.container is Some
}

/// What is wrong with the examples at or after the `i`th.
pub open spec fn examples_fault(v: Seq<Example>, i: int) -> Option<Seq<char>>
    decreases v.len() - i,
{
    if i < 0 || i >= v.len() {
        None
    } else if !has_subject(v[i]) {
        Some("example #"@ + text::decimal(i as nat) + " has no subject"@)
    } else {
        examples_fault(v, i + 1)
    }
}

/// What is wrong with a file of rules.
pub open spec fn file_fault(rf: RuleFile) -> Option<Seq<char>> {
    if let Some(e) = rules_fault(rf.stage, rf.rules@, 0) {
        Some(e)
    } else if let Some(e) = disable_fault(rf.disable@, 0) {
        Some(e)
    } else {
        examples_fault(rf.examples@, 0)
    }
}

/// Why a file is left out, if it is.
pub open spec fn problem_of(f: LoadedFile) -> Option<Seq<char>> {
    match f.parsed {
        Ok(rf) => file_fault(rf),
        Err(e) => Some(e@),
    }
}

/// The rules of a file that could be read.
pub open spec fn rules_in(f: LoadedFile) -> Seq<Rule> {
    f.parsed->Ok_0.rules@
}

/// `c` is the `k`th rule of the file `f`.
pub open spec fn is_rule_of(c: Compiled, f: LoadedFile, k: int) -> bool {
    c.is_rule(rules_in(f)[k], f.name@, f.source)
}

fn taken(v: &Vec<Rule>, i: usize) -> (r: bool)
    requires
        i < v.len(),
    ensures
        r == id_taken(v@, i as int),
{
    let mut j: usize = 0;
    while j < i
        invariant
            j <= i < v.len(),
            forall|k: int| 0 <= k < j ==> (#[trigger] v@[k]).id@ != v@[i as int].id@,
        decreases i - j,
    {
        if text::same_str(v[j].id.as_str(), v[i].id.as_str()) {
            return true;
        }
        j += 1;
    }
    false
}

/// The rules of a file, each ready to run; or why the file is left out.
fn compile_file(f: &LoadedFile) -> (r: Result<Vec<Compiled>, String>)
    ensures
        match r {
            Ok(v) => {
                &&& problem_of(*f) is None
                &&& v@.len() == rules_in(*f).len()
                &&& forall|k: int| 0 <= k < v@.len() ==> is_rule_of(#[trigger] v@[k], *f, k)
            },
            Err(e) => problem_of(*f) == Some(e@),
        },
{
    let rf = match &f.parsed {
        Ok(rf) => rf,
        Err(e) => return Err(e.clone()),
    };
    let mut out: Vec<Compiled> = Vec::new();
    let mut i: usize = 0;
    while i < rf.rules.len()
        invariant
            i <= rf.rules.len(),
            f.parsed == Ok::<RuleFile, String>(*rf),
            out@.len() == i,
            rules_fault(rf.stage, rf.rules@, 0) == rules_fault(rf.stage, rf.rules@, i as int),
            forall|k: int| 0 <= k < i ==> is_rule_of(#[trigger] out@[k], *f, k),
        decreases rf.rules.len() - i,
    {
        let r = &rf.rules[i];
        if !id_ok(r.id.as_str()) {
            let mut what = "id `".to_owned();
            what.append(r.id.as_str());
            what.append("` outside [a-z0-9-]+");
            return Err(what);
        }
        if taken(&rf.rules, i) {
            let mut what = "duplicate id `".to_owned();
            what.append(r.id.as_str());
            what.append("`");
            return Err(what);
        }
        match compile::compile_rule(rf.stage, r, f.name.as_str(), &f.source) {
            Ok(c) => out.push(c),
            Err(e) => return Err(e),
        }
        i += 1;
    }
    let mut i: usize = 0;
    while i < rf.disable.len()
        invariant
            i <= rf.disable.len(),
            disable_fault(rf.disable@, 0) == disable_fault(rf.disable@, i as int),
            f.parsed == Ok::<RuleFile, String>(*rf),
            rules_fault(rf.stage, rf.rules@, 0) is None,
        decreases rf.disable.len() - i,
    {
        if !disable_ok(rf.disable[i].as_str()) {
            let mut what = "disable entry `".to_owned();
            what.append(rf.disable[i].as_str());
            what.append("` is not <file>.json or <file>.json:<id>");
            return Err(what);
        }
        i += 1;
    }
    let mut i: usize = 0;
    while i < rf.examples.len()
        invariant
            i <= rf.examples.len(),
            examples_fault(rf.examples@, 0) == examples_fault(rf.examples@, i as int),
            f.parsed == Ok::<RuleFile, String>(*rf),
            rules_fault(rf.stage, rf.rules@, 0) is None,
            disable_fault(rf.disable@, 0) is None,
        decreases rf.examples.len() - i,
    {
        let e = &rf.examples[i];
        if e.comm.is_none() && e.unit.is_none() && e.identity.is_none() && e.container.is_none() {
            let mut what = "example #".to_owned();
            text::push_decimal(&mut what, i as u64);
            what.append(" has no subject");
            return Err(what);
        }
        i += 1;
    }
    Ok(out)
}

// ---------------------------------------------------------------------------
// Precedence
// ---------------------------------------------------------------------------

/// `a` is not loaded after `b`: its source is not lower, and in one source its
/// name is not later.
pub open spec fn loads_before(a: LoadedFile, b: LoadedFile) -> bool {
    a.source.rank < b.source.rank || (a.source.rank == b.source.rank && text::bytes_le(
        encode_utf8(a.name@),
        encode_utf8(b.name@),
    ))
}

fn not_after(a: &LoadedFile, b: &LoadedFile) -> (r: bool)
    ensures
        r == loads_before(*a, *b),
{
    a.source.rank < b.source.rank || (a.source.rank == b.source.rank && text::bytes_not_after(
        a.name.as_str().as_bytes(),
        b.name.as_str().as_bytes(),
    ))
}

/// `order` with file `i` put behind every file that is not loaded after it.
pub open spec fn placed(files: Seq<LoadedFile>, order: Seq<int>, i: int) -> Seq<int>
    decreases order.len(),
{
    if order.len() == 0 || loads_before(files[order.last()], files[i]) {
        order.push(i)
    } else {
        placed(files, order.drop_last(), i).push(order.last())
    }
}

/// The files without a problem among the first `n`, in the order they are
/// loaded in.
pub open spec fn load_order(files: Seq<LoadedFile>, n: int) -> Seq<int>
    decreases n,
{
    if n <= 0 {
        Seq::empty()
    } else if problem_of(files[n - 1]) is None {
        placed(files, load_order(files, n - 1), n - 1)
    } else {
        load_order(files, n - 1)
    }
}

/// The files with a problem among the first `n`.
pub open spec fn bad_files(files: Seq<LoadedFile>, n: int) -> Seq<int>
    decreases n,
{
    if n <= 0 {
        Seq::empty()
    } else if problem_of(files[n - 1]) is Some {
        bad_files(files, n - 1).push(n - 1)
    } else {
        bad_files(files, n - 1)
    }
}

/// Indices as integers.
pub open spec fn ints(v: Seq<usize>) -> Seq<int> {
    Seq::new(v.len(), |k: int| v[k] as int)
}

proof fn lemma_placed_at(files: Seq<LoadedFile>, order: Seq<int>, i: int, k: int)
    requires
        0 <= k <= order.len(),
        k == 0 || loads_before(files[order[k - 1]], files[i]),
        forall|j: int| k <= j < order.len() ==> !loads_before(files[#[trigger] order[j]], files[i]),
    ensures
        placed(files, order, i) == order.insert(k, i),
    decreases order.len(),
{
    if k == order.len() {
        assert(order.insert(k, i) =~= order.push(i));
    } else {
        let d = order.drop_last();
        assert(order.last() == order[order.len() - 1]);
        lemma_placed_at(files, d, i, k);
        assert(d.insert(k, i).push(order.last()) =~= order.insert(k, i));
    }
}

/// Where the file `i` goes among the files already in order.
fn slot(files: &Vec<LoadedFile>, order: &Vec<usize>, i: usize) -> (k: usize)
    requires
        i < files.len(),
        forall|j: int| 0 <= j < order.len() ==> #[trigger] order@[j] < files.len(),
    ensures
        k <= order.len(),
        placed(files@, ints(order@), i as int) == ints(order@).insert(k as int, i as int),
{
    let mut k: usize = order.len();
    while k > 0
        invariant
            k <= order.len(),
            i < files.len(),
            forall|j: int| 0 <= j < order.len() ==> #[trigger] order@[j] < files.len(),
            forall|j: int|
                k <= j < order.len() ==> !loads_before(
                    files@[#[trigger] ints(order@)[j]],
                    files@[i as int],
                ),
        decreases k,
    {
        if not_after(&files[order[k - 1]], &files[i]) {
            assert(ints(order@)[k - 1] == order@[k - 1]);
            proof {
                lemma_placed_at(files@, ints(order@), i as int, k as int);
            }
            return k;
        }
        k -= 1;
        assert(ints(order@)[k as int] == order@[k as int]);
    }
    proof {
        lemma_placed_at(files@, ints(order@), i as int, 0);
    }
    0
}

// ---------------------------------------------------------------------------
// Disabling
// ---------------------------------------------------------------------------

/// `seen` with the first `n` entries of `v` that are not in it yet.
pub open spec fn with_entries(seen: Seq<Seq<char>>, v: Seq<String>, n: int) -> Seq<Seq<char>>
    decreases n,
{
    if n <= 0 {
        seen
    } else {
        let s = with_entries(seen, v, n - 1);
        if s.contains(v[n - 1]@) {
            s
        } else {
            s.push(v[n - 1]@)
        }
    }
}

/// What the first `n` loaded files disable, each entry once.
pub open spec fn disabled_upto(files: Seq<LoadedFile>, order: Seq<int>, n: int) -> Seq<Seq<char>>
    decreases n,
{
    if n <= 0 {
        Seq::empty()
    } else {
        let v = files[order[n - 1]].parsed->Ok_0.disable@;
        with_entries(disabled_upto(files, order, n - 1), v, v.len() as int)
    }
}

/// The rule `id` of a file is disabled, alone or with its file.
pub open spec fn is_dropped(disabled: Seq<Seq<char>>, file: Seq<char>, id: Seq<char>) -> bool {
    disabled.contains(file) || disabled.contains(compile::full_name(file, id))
}

/// The file has a rule with the id.
pub open spec fn has_rule(f: LoadedFile, id: Seq<char>) -> bool {
    exists|k: int| 0 <= k < rules_in(f).len() && (#[trigger] rules_in(f)[k]).id@ == id
}

/// A disable entry names the file, or a rule of it.
pub open spec fn entry_names(f: LoadedFile, entry: Seq<char>) -> bool {
    match text::cut_first(entry, ':') {
        None => f.name@ == entry,
        Some((name, id)) => f.name@ == name && has_rule(f, id),
    }
}

/// A disable entry names something that was loaded.
pub open spec fn names_loaded(files: Seq<LoadedFile>, order: Seq<int>, entry: Seq<char>) -> bool {
    exists|k: int| 0 <= k < order.len() && entry_names(files[#[trigger] order[k]], entry)
}

pub open spec fn idle_warning(entry: Seq<char>) -> Seq<char> {
    "disable `"@ + entry + "` names no loaded file or rule"@
}

/// A warning for each of the first `n` entries that names nothing loaded.
pub open spec fn warnings_upto(
    files: Seq<LoadedFile>,
    order: Seq<int>,
    disabled: Seq<Seq<char>>,
    n: int,
) -> Seq<Seq<char>>
    decreases n,
{
    if n <= 0 {
        Seq::empty()
    } else if names_loaded(files, order, disabled[n - 1]) {
        warnings_upto(files, order, disabled, n - 1)
    } else {
        warnings_upto(files, order, disabled, n - 1).push(idle_warning(disabled[n - 1]))
    }
}

fn add_entries(seen: &mut Vec<String>, v: &Vec<String>)
    ensures
        text::texts(final(seen)@) == with_entries(text::texts(old(seen)@), v@, v@.len() as int),
{
    let mut i: usize = 0;
    while i < v.len()
        invariant
            i <= v.len(),
            text::texts(seen@) == with_entries(text::texts(old(seen)@), v@, i as int),
        decreases v.len() - i,
    {
        if !text::among(seen, v[i].as_str()) {
            let ghost before = text::texts(seen@);
            seen.push(v[i].clone());
            assert(text::texts(seen@) =~= before.push(v@[i as int]@));
        }
        i += 1;
    }
}

fn rule_with_id(v: &Vec<Rule>, id: &str) -> (r: bool)
    ensures
        r == exists|k: int| 0 <= k < v@.len() && (#[trigger] v@[k]).id@ == id@,
{
    let mut i: usize = 0;
    while i < v.len()
        invariant
            i <= v.len(),
            forall|k: int| 0 <= k < i ==> (#[trigger] v@[k]).id@ != id@,
        decreases v.len() - i,
    {
        if text::same_str(v[i].id.as_str(), id) {
            return true;
        }
        i += 1;
    }
    false
}

fn names_file(f: &LoadedFile, entry: &str) -> (r: bool)
    requires
        f.parsed is Ok,
    ensures
        r == entry_names(*f, entry@),
{
    match text::str_cut_first(entry, ':') {
        None => text::same_str(f.name.as_str(), entry),
        Some((name, id)) => {
            if !text::same_str(f.name.as_str(), name) {
                return false;
            }
            match &f.parsed {
                Ok(rf) => {
                    assert(rules_in(*f) == rf.rules@);
                    rule_with_id(&rf.rules, id)
                },
                Err(_) => false,
            }
        },
    }
}

/// The files in `order` could be read.
pub open spec fn order_ok(files: Seq<LoadedFile>, order: Seq<int>) -> bool {
    forall|k: int|
        0 <= k < order.len() ==> 0 <= #[trigger] order[k] < files.len() && problem_of(
            files[order[k]],
        ) is None
}

fn names_something(files: &Vec<LoadedFile>, order: &Vec<usize>, entry: &str) -> (r: bool)
    requires
        order_ok(files@, ints(order@)),
    ensures
        r == names_loaded(files@, ints(order@), entry@),
{
    let ghost ord = ints(order@);
    let mut k: usize = 0;
    while k < order.len()
        invariant
            k <= order.len(),
            ord == ints(order@),
            order_ok(files@, ord),
            forall|j: int| 0 <= j < k ==> !entry_names(files@[#[trigger] ord[j]], entry@),
        decreases order.len() - k,
    {
        assert(ord[k as int] == order@[k as int]);
        if names_file(&files[order[k]], entry) {
            return true;
        }
        k += 1;
    }
    false
}

// ---------------------------------------------------------------------------
// The set
// ---------------------------------------------------------------------------

/// The rules of each stage, the deciding ones first.
pub struct Stages {
    pub unit: Vec<Compiled>,
    pub class: Vec<Compiled>,
    pub session: Vec<Compiled>,
    pub app: Vec<Compiled>,
    pub placement: Vec<Compiled>,
}

impl Stages {
    pub open spec fn at(self, stage: Stage) -> Seq<Compiled> {
        match stage {
            Stage::Unit => self.unit@,
            Stage::Class => self.class@,
            Stage::Session => self.session@,
            Stage::App => self.app@,
            Stage::Placement => self.placement@,
        }
    }

    fn get(&self, stage: Stage) -> (r: &Vec<Compiled>)
        ensures
            r@ == self.at(stage),
    {
        match stage {
            Stage::Unit => &self.unit,
            Stage::Class => &self.class,
            Stage::Session => &self.session,
            Stage::App => &self.app,
            Stage::Placement => &self.placement,
        }
    }

    fn push(&mut self, stage: Stage, c: Compiled)
        ensures
            forall|s: Stage| #[trigger]
                final(self).at(s) == if s == stage {
                    old(self).at(s).push(c)
                } else {
                    old(self).at(s)
                },
    {
        match stage {
            Stage::Unit => self.unit.push(c),
            Stage::Class => self.class.push(c),
            Stage::Session => self.session.push(c),
            Stage::App => self.app.push(c),
            Stage::Placement => self.placement.push(c),
        }
    }
}

/// The rules of file `fi` among its first `m` that are not disabled.
pub open spec fn kept_in(
    files: Seq<LoadedFile>,
    fi: int,
    disabled: Seq<Seq<char>>,
    m: int,
) -> Seq<(int, int)>
    decreases m,
{
    if m <= 0 {
        Seq::empty()
    } else if is_dropped(disabled, files[fi].name@, rules_in(files[fi])[m - 1].id@) {
        kept_in(files, fi, disabled, m - 1)
    } else {
        kept_in(files, fi, disabled, m - 1).push((fi, m - 1))
    }
}

/// The rules of a stage, as file and place in the file, among the first `n`
/// loaded files: file by file, without the disabled ones.
pub open spec fn kept(
    files: Seq<LoadedFile>,
    order: Seq<int>,
    disabled: Seq<Seq<char>>,
    stage: Stage,
    n: int,
) -> Seq<(int, int)>
    decreases n,
{
    if n <= 0 {
        Seq::empty()
    } else {
        let fi = order[n - 1];
        let before = kept(files, order, disabled, stage, n - 1);
        if files[fi].parsed->Ok_0.stage == stage {
            before + kept_in(files, fi, disabled, rules_in(files[fi]).len() as int)
        } else {
            before
        }
    }
}

/// `list` holds the rules that `at` points to.
pub open spec fn lists(list: Seq<Compiled>, files: Seq<LoadedFile>, at: Seq<(int, int)>) -> bool {
    &&& list.len() == at.len()
    &&& forall|k: int|
        0 <= k < list.len() ==> is_rule_of(#[trigger] list[k], files[at[k].0], at[k].1)
}

/// The rules in force: what every question is answered from.
pub struct Rules {
    pub loaded: Vec<LoadedFile>,
    /// The files that compiled, by place in `loaded`, the deciding ones first.
    pub order: Vec<usize>,
    pub stages: Stages,
    pub problems: Vec<Problem>,
    pub warnings: Vec<String>,
    pub disabled: Vec<String>,
}

/// A problem reports the file.
pub open spec fn reports(p: Problem, f: LoadedFile) -> bool {
    &&& p.source.same_as(f.source)
    &&& p.file@ == f.name@
    &&& problem_of(f) == Some(p.what@)
}

impl Rules {
    /// The files in the order they were loaded in.
    pub open spec fn in_order(self) -> Seq<int> {
        ints(self.order@)
    }

    /// Each stage holds the rules of the loaded files that are not disabled,
    /// by precedence of source, then by file name, then in the file's order.
    pub open spec fn wf(self) -> bool {
        &&& self.in_order() == load_order(self.loaded@, self.loaded@.len() as int)
        &&& text::texts(self.disabled@) == disabled_upto(
            self.loaded@,
            self.in_order(),
            self.in_order().len() as int,
        )
        &&& forall|stage: Stage| #[trigger]
            lists(
                self.stages.at(stage),
                self.loaded@,
                kept(
                    self.loaded@,
                    self.in_order(),
                    text::texts(self.disabled@),
                    stage,
                    self.in_order().len() as int,
                ),
            )
    }

    /// The rules of a stage, the deciding ones first.
    pub open spec fn rules_of(self, stage: Stage) -> Seq<Compiled> {
        self.stages.at(stage)
    }

    /// These are the rules of the files: a file with a fault is left out whole
    /// and reported; a disable entry that names nothing is warned of.
    pub open spec fn made_of(self, files: Seq<LoadedFile>) -> bool {
        let bad = bad_files(files, files.len() as int);
        &&& self.wf()
        &&& self.loaded@ == files
        &&& self.problems@.len() == bad.len()
        &&& forall|k: int|
            0 <= k < self.problems@.len() ==> reports(#[trigger] self.problems@[k], files[bad[k]])
        &&& text::texts(self.warnings@) == warnings_upto(
            files,
            self.in_order(),
            text::texts(self.disabled@),
            self.disabled@.len() as int,
        )
    }

    /// The rules of several files.
    #[must_use]
    pub fn from_files(files: Vec<LoadedFile>) -> (r: Self)
        ensures
            r.made_of(files@),
            r.loaded == files,
    {
        let mut problems: Vec<Problem> = Vec::new();
        let mut order: Vec<usize> = Vec::new();
        let mut units: Vec<Vec<Compiled>> = Vec::new();
        let mut i: usize = 0;
        assert(ints(order@) =~= Seq::<int>::empty());
        while i < files.len()
            invariant
                i <= files.len(),
                ints(order@) == load_order(files@, i as int),
                order_ok(files@, ints(order@)),
                units@.len() == order@.len(),
                forall|k: int| 0 <= k < order@.len() ==> #[trigger] order@[k] < files.len(),
                forall|k: int|
                    0 <= k < units@.len() ==> lists_file(
                        (#[trigger] units@[k])@,
                        files@[order@[k] as int],
                    ),
                problems@.len() == bad_files(files@, i as int).len(),
                forall|k: int|
                    0 <= k < problems@.len() ==> reports(
                        #[trigger] problems@[k],
                        files@[bad_files(files@, i as int)[k]],
                    ),
            decreases files.len() - i,
        {
            let f = &files[i];
            match compile_file(f) {
                Ok(v) => {
                    let k: usize = slot(&files, &order, i);
                    let ghost (o1, u1) = (order@, units@);
                    order.insert(k, i);
                    units.insert(k, v);
                    proof {
                        assert(ints(order@) =~= ints(o1).insert(k as int, i as int));
                        lemma_insert_ok(files@, ints(o1), i as int, k as int);
                        assert(lists_file(v@, files@[i as int]));
                        assert forall|j: int| 0 <= j < units@.len() implies lists_file(
                            (#[trigger] units@[j])@,
                            files@[order@[j] as int],
                        ) by {
                            if j < k {
                                assert(units@[j] == u1[j] && order@[j] == o1[j]);
                            } else if j > k {
                                assert(units@[j] == u1[j - 1] && order@[j] == o1[j - 1]);
                            }
                        }
                    }
                },
                Err(what) => {
                    problems.push(
                        Problem { source: f.source.copy(), file: f.name.clone(), what },
                    );
                },
            }
            i += 1;
        }
        let ghost ord = ints(order@);
        let ghost n = ord.len() as int;
        let mut disabled: Vec<String> = Vec::new();
        assert(text::texts(disabled@) =~= Seq::<Seq<char>>::empty());
        let mut k: usize = 0;
        while k < order.len()
            invariant
                k <= order.len(),
                ord == ints(order@),
                order_ok(files@, ord),
                text::texts(disabled@) == disabled_upto(files@, ord, k as int),
            decreases order.len() - k,
        {
            assert(ord[k as int] == order@[k as int]);
            match &files[order[k]].parsed {
                Ok(rf) => {
                    assert(files@[ord[k as int]].parsed->Ok_0 == *rf);
                    add_entries(&mut disabled, &rf.disable);
                },
                Err(_) => {},
            }
            k += 1;
        }
        let ghost dis = text::texts(disabled@);
        let mut warnings: Vec<String> = Vec::new();
        assert(text::texts(warnings@) =~= Seq::<Seq<char>>::empty());
        let mut k: usize = 0;
        while k < disabled.len()
            invariant
                k <= disabled.len(),
                ord == ints(order@),
                order_ok(files@, ord),
                dis == text::texts(disabled@),
                text::texts(warnings@) == warnings_upto(files@, ord, dis, k as int),
            decreases disabled.len() - k,
        {
            assert(dis[k as int] == disabled@[k as int]@);
            if !names_something(&files, &order, disabled[k].as_str()) {
                let mut w = "disable `".to_owned();
                w.append(disabled[k].as_str());
                w.append("` names no loaded file or rule");
                let ghost before = text::texts(warnings@);
                warnings.push(w);
                assert(text::texts(warnings@) =~= before.push(idle_warning(dis[k as int])));
            }
            k += 1;
        }
        let mut stages = Stages {
            unit: Vec::new(),
            class: Vec::new(),
            session: Vec::new(),
            app: Vec::new(),
            placement: Vec::new(),
        };
        let ghost all = units@;
        let mut k: usize = 0;
        assert(all.skip(0) =~= all);
        while k < order.len()
            invariant
                k <= order.len(),
                all.len() == order@.len(),
                units@ == all.skip(k as int),
                ord == ints(order@),
                order_ok(files@, ord),
                dis == text::texts(disabled@),
                forall|j: int|
                    0 <= j < all.len() ==> lists_file(
                        (#[trigger] all[j])@,
                        files@[order@[j] as int],
                    ),
                forall|stage: Stage| #[trigger]
                    lists(stages.at(stage), files@, kept(files@, ord, dis, stage, k as int)),
            decreases order.len() - k,
        {
            assert(ord[k as int] == order@[k as int]);
            let ghost fi = ord[k as int];
            let mut unit = units.remove(0);
            assert(unit == all[k as int]);
            assert(units@ =~= all.skip(k + 1));
            let stage = match &files[order[k]].parsed {
                Ok(rf) => rf.stage,
                Err(_) => Stage::Unit,
            };
            let ghost whole = unit@;
            let m: usize = unit.len();
            let mut j: usize = 0;
            assert(whole.skip(0) =~= whole);
            proof {
                assert forall|s: Stage| #[trigger] lists(
                    stages.at(s),
                    files@,
                    partly(files@, ord, dis, s, k as int, stage, 0),
                ) by {
                    assert(lists(stages.at(s), files@, kept(files@, ord, dis, s, k as int)));
                    assert(kept(files@, ord, dis, s, k as int) + Seq::<(int, int)>::empty()
                        =~= kept(files@, ord, dis, s, k as int));
                }
            }
            while j < m
                invariant
                    j <= m,
                    m == whole.len(),
                    k < order.len(),
                    unit@ == whole.skip(j as int),
                    fi == ord[k as int],
                    0 <= fi < files@.len(),
                    dis == text::texts(disabled@),
                    lists_file(whole, files@[fi]),
                    forall|s: Stage| #[trigger]
                        lists(
                            stages.at(s),
                            files@,
                            partly(files@, ord, dis, s, k as int, stage, j as int),
                        ),
                decreases m - j,
            {
                let c = unit.remove(0);
                assert(c == whole[j as int]);
                assert(unit@ =~= whole.skip(j + 1));
                assert(is_rule_of(whole[j as int], files@[fi], j as int));
                let dropped = text::among(&disabled, c.file.as_str()) || text::among(
                    &disabled,
                    c.name().as_str(),
                );
                let ghost st = stages;
                if !dropped {
                    stages.push(stage, c);
                }
                proof {
                    assert forall|s: Stage| #[trigger] lists(
                        stages.at(s),
                        files@,
                        partly(files@, ord, dis, s, k as int, stage, j + 1),
                    ) by {
                        let p0 = partly(files@, ord, dis, s, k as int, stage, j as int);
                        let p1 = partly(files@, ord, dis, s, k as int, stage, j + 1);
                        assert(lists(st.at(s), files@, p0));
                        if s == stage && !dropped {
                            assert(p1 =~= p0.push((fi, j as int)));
                            assert(stages.at(s) == st.at(s).push(c));
                            assert forall|x: int| 0 <= x < stages.at(s).len() implies is_rule_of(
                                #[trigger] stages.at(s)[x],
                                files@[p1[x].0],
                                p1[x].1,
                            ) by {
                                if x < st.at(s).len() {
                                    assert(stages.at(s)[x] == st.at(s)[x]);
                                    assert(p1[x] == p0[x]);
                                }
                            }
                        } else {
                            assert(p1 =~= p0);
                            assert(stages.at(s) == st.at(s));
                        }
                    }
                }
                j += 1;
            }
            proof {
                assert forall|s: Stage| #[trigger] lists(
                    stages.at(s),
                    files@,
                    kept(files@, ord, dis, s, k + 1),
                ) by {
                    assert(lists(
                        stages.at(s),
                        files@,
                        partly(files@, ord, dis, s, k as int, stage, m as int),
                    ));
                    let a = partly(files@, ord, dis, s, k as int, stage, m as int);
                    let b = kept(files@, ord, dis, s, k + 1);
                    assert(a =~= b);
                }
            }
            k += 1;
        }
        Rules { loaded: files, order, stages, problems, warnings, disabled }
    }
}

/// A file's rules, all of them, in order.
pub open spec fn lists_file(v: Seq<Compiled>, f: LoadedFile) -> bool {
    &&& v.len() == rules_in(f).len()
    &&& forall|k: int| 0 <= k < v.len() ==> is_rule_of(#[trigger] v[k], f, k)
}

/// What a stage holds after `n` whole files of which the last has the given
/// stage and contributed its first `m` rules.
spec fn partly(
    files: Seq<LoadedFile>,
    order: Seq<int>,
    disabled: Seq<Seq<char>>,
    s: Stage,
    n: int,
    stage: Stage,
    m: int,
) -> Seq<(int, int)> {
    kept(files, order, disabled, s, n) + (if s == stage {
        kept_in(files, order[n], disabled, m)
    } else {
        Seq::empty()
    })
}

proof fn lemma_insert_ok(files: Seq<LoadedFile>, order: Seq<int>, i: int, k: int)
    requires
        order_ok(files, order),
        0 <= k <= order.len(),
        0 <= i < files.len(),
        problem_of(files[i]) is None,
    ensures
        order_ok(files, order.insert(k, i)),
{
    let after = order.insert(k, i);
    assert forall|j: int| 0 <= j < after.len() implies 0 <= #[trigger] after[j] < files.len()
        && problem_of(files[after[j]]) is None by {
        if j < k {
            assert(after[j] == order[j]);
        } else if j > k {
            assert(after[j] == order[j - 1]);
        }
    }
}

// ---------------------------------------------------------------------------
// Questions
// ---------------------------------------------------------------------------

/// The first rule at or after the `i`th whose test holds.
pub open spec fn first_match(list: Seq<Compiled>, f: FactsView, i: int) -> Option<int>
    decreases list.len() - i,
{
    if i < 0 || i >= list.len() {
        None
    } else if list[i].matches(f) {
        Some(i)
    } else {
        first_match(list, f, i + 1)
    }
}

/// The rules among the first `n` whose tests hold.
pub open spec fn matches_upto(list: Seq<Compiled>, f: FactsView, n: int) -> Seq<int>
    decreases n,
{
    if n <= 0 {
        Seq::empty()
    } else if list[n - 1].matches(f) {
        matches_upto(list, f, n - 1).push(n - 1)
    } else {
        matches_upto(list, f, n - 1)
    }
}

/// The rules of a stage that decide: all that match where the stage collects,
/// the first that matches where it picks.
pub open spec fn deciders(stage: Stage, list: Seq<Compiled>, f: FactsView) -> Seq<int> {
    match stage {
        Stage::Unit | Stage::Class => matches_upto(list, f, list.len() as int),
        _ => match first_match(list, f, 0) {
            Some(k) => seq![k],
            None => Seq::empty(),
        },
    }
}

/// The classes that the first `n` rules give.
pub open spec fn classes_upto(list: Seq<Compiled>, f: FactsView, n: int) -> u16
    decreases n,
{
    if n <= 0 {
        0
    } else if list[n - 1].matches(f) {
        classes_upto(list, f, n - 1) | list[n - 1].classes.0
    } else {
        classes_upto(list, f, n - 1)
    }
}

/// The flags that the first `n` rules give.
pub open spec fn flags_upto(list: Seq<Compiled>, f: FactsView, n: int) -> u8
    decreases n,
{
    if n <= 0 {
        0
    } else if list[n - 1].matches(f) {
        flags_upto(list, f, n - 1) | list[n - 1].flags.0
    } else {
        flags_upto(list, f, n - 1)
    }
}

/// Facts that are a unit's name alone.
pub open spec fn unit_facts(unit: Seq<char>) -> FactsView {
    FactsView { unit: Some(unit), ..rules::no_facts() }
}

/// Facts that are a bare name: an identity, the base name of a path.
pub open spec fn name_facts(name: Seq<char>) -> FactsView {
    FactsView { comm: name, name, ..rules::no_facts() }
}

/// Facts that are an identity alone.
pub open spec fn identity_facts(identity: Seq<char>) -> FactsView {
    FactsView { identity: Some(identity), ..rules::no_facts() }
}

/// Facts that are a container's name alone.
pub open spec fn container_facts(name: Seq<char>) -> FactsView {
    FactsView { container: Some(name), ..rules::no_facts() }
}

/// The number of examples in the first `n` loaded files.
pub open spec fn examples_upto(files: Seq<LoadedFile>, order: Seq<int>, n: int) -> nat
    decreases n,
{
    if n <= 0 {
        0
    } else {
        examples_upto(files, order, n - 1) + files[order[n - 1]].parsed->Ok_0.examples@.len()
    }
}

fn find_first(list: &Vec<Compiled>, f: &Facts) -> (r: Option<usize>)
    ensures
        match r {
            Some(k) => first_match(list@, f@, 0) == Some(k as int) && k < list@.len(),
            None => first_match(list@, f@, 0) is None,
        },
{
    let folded = compile::fold(f);
    let mut i: usize = 0;
    while i < list.len()
        invariant
            i <= list.len(),
            folded.of(f@),
            first_match(list@, f@, 0) == first_match(list@, f@, i as int),
        decreases list.len() - i,
    {
        if list[i].fires(&folded, Ghost(f@)) {
            return Some(i);
        }
        i += 1;
    }
    None
}

impl Rules {
    /// The classes the rules give a process.
    pub open spec fn classes_spec(self, f: FactsView) -> Classes {
        Classes(
            classes_upto(
                self.rules_of(Stage::Class),
                f,
                self.rules_of(Stage::Class).len() as int,
            ),
        )
    }

    /// The flags the rules give a unit.
    pub open spec fn unit_flags_spec(self, unit: Seq<char>) -> UnitFlags {
        UnitFlags(
            flags_upto(
                self.rules_of(Stage::Unit),
                unit_facts(unit),
                self.rules_of(Stage::Unit).len() as int,
            ),
        )
    }

    /// The classes the rules give a bare name.
    pub open spec fn name_classes(self, name: Seq<char>) -> Classes {
        self.classes_spec(name_facts(name))
    }

    /// The session rule that decides.
    pub open spec fn session_spec(self, f: FactsView) -> Option<(Seq<char>, FolderName)> {
        match first_match(self.rules_of(Stage::Session), f, 0) {
            Some(k) => {
                let c = self.rules_of(Stage::Session)[k];
                Some((c.identity->0@, c.folder->0))
            },
            None => None,
        }
    }

    /// The identity the deciding app rule gives.
    pub open spec fn app_spec(self, f: FactsView) -> Option<Seq<char>> {
        match first_match(self.rules_of(Stage::App), f, 0) {
            Some(k) => text::opt_text(self.rules_of(Stage::App)[k].identity),
            None => None,
        }
    }

    /// The placement rule that decides for an identity.
    pub open spec fn placement_spec(self, identity: Seq<char>) -> Option<Compiled> {
        match first_match(self.rules_of(Stage::Placement), identity_facts(identity), 0) {
            Some(k) => Some(self.rules_of(Stage::Placement)[k]),
            None => None,
        }
    }

    /// The owner the deciding placement rule gives a container.
    pub open spec fn container_owner_spec(self, name: Seq<char>) -> Option<u32> {
        match first_match(self.rules_of(Stage::Placement), container_facts(name), 0) {
            Some(k) => self.rules_of(Stage::Placement)[k].owner_uid,
            None => None,
        }
    }

    /// The rules that come with the program, under the lowest precedence.
    #[must_use]
    pub fn builtin(table: Vec<(String, RuleFile)>) -> (r: Self)
        requires
            forall|i: int| 0 <= i < table@.len() ==> file_fault((#[trigger] table@[i]).1) is None,
        ensures
            r.made_of(r.loaded@),
            r.problems@.len() == 0,
            r.loaded@.len() == table@.len(),
            forall|i: int|
                0 <= i < table@.len() ==> is_builtin(#[trigger] r.loaded@[i], table@[i]),
    {
        let ghost whole = table@;
        let mut table = table;
        let mut files: Vec<LoadedFile> = Vec::new();
        let n: usize = table.len();
        let mut i: usize = 0;
        assert(whole.skip(0) =~= whole);
        while i < n
            invariant
                i <= n,
                n == whole.len(),
                table@ == whole.skip(i as int),
                files@.len() == i,
                forall|j: int| 0 <= j < i ==> is_builtin(#[trigger] files@[j], whole[j]),
            decreases n - i,
        {
            let (name, rf) = table.remove(0);
            assert((name, rf) == whole[i as int]);
            assert(table@ =~= whole.skip(i + 1));
            files.push(LoadedFile { source: Source::builtin(), name, parsed: Ok(rf) });
            i += 1;
        }
        proof {
            assert forall|j: int| 0 <= j < files@.len() implies problem_of(
                #[trigger] files@[j],
            ) is None by {
                assert(is_builtin(files@[j], whole[j]));
                assert(file_fault(whole[j].1) is None);
            }
            lemma_no_problems(files@, files@.len() as int);
        }
        Self::from_files(files)
    }

    #[must_use]
    pub fn is_empty(&self, stage: Stage) -> (r: bool)
        ensures
            r == (self.rules_of(stage).len() == 0),
    {
        self.stages.get(stage).len() == 0
    }

    #[must_use]
    pub fn count(&self, stage: Stage) -> (r: usize)
        ensures
            r == self.rules_of(stage).len(),
    {
        self.stages.get(stage).len()
    }

    #[must_use]
    pub fn unit_flags(&self, unit: &str) -> (r: UnitFlags)
        ensures
            r == self.unit_flags_spec(unit@),
    {
        let f = Facts { unit: Some(unit), ..Facts::default() };
        assert(f@ == unit_facts(unit@));
        let folded = compile::fold(&f);
        let list = &self.stages.unit;
        let mut out: u8 = 0;
        let mut i: usize = 0;
        while i < list.len()
            invariant
                i <= list.len(),
                folded.of(f@),
                out == flags_upto(list@, f@, i as int),
            decreases list.len() - i,
        {
            if list[i].fires(&folded, Ghost(f@)) {
                out = out | list[i].flags.0;
            }
            i += 1;
        }
        UnitFlags(out)
    }

    #[must_use]
    pub fn classes(&self, f: &Facts) -> (r: Classes)
        ensures
            r == self.classes_spec(f@),
    {
        let folded = compile::fold(f);
        let list = &self.stages.class;
        let mut out: u16 = 0;
        let mut i: usize = 0;
        while i < list.len()
            invariant
                i <= list.len(),
                folded.of(f@),
                out == classes_upto(list@, f@, i as int),
            decreases list.len() - i,
        {
            if list[i].fires(&folded, Ghost(f@)) {
                out = out | list[i].classes.0;
            }
            i += 1;
        }
        Classes(out)
    }

    /// The classes of a bare name: every other fact is absent, so a rule that
    /// looks at a path or an argument never fires here.
    #[must_use]
    pub fn classes_of_name(&self, name: &str) -> (r: Classes)
        ensures
            r == self.name_classes(name@),
    {
        let f = Facts { comm: name, name, ..Facts::default() };
        assert(f@ == name_facts(name@));
        self.classes(&f)
    }

    #[must_use]
    pub fn session(&self, f: &Facts) -> (r: Option<(&str, FolderName)>)
        requires
            self.wf(),
        ensures
            match r {
                Some((identity, folder)) => self.session_spec(f@) == Some((identity@, folder)),
                None => self.session_spec(f@) is None,
            },
    {
        match find_first(&self.stages.session, f) {
            Some(k) => {
                let c = &self.stages.session[k];
                proof {
                    lemma_session_outputs(*self, k as int);
                }
                match (&c.identity, c.folder) {
                    (Some(identity), Some(folder)) => Some((identity.as_str(), folder)),
                    _ => None,
                }
            },
            None => None,
        }
    }

    #[must_use]
    pub fn app(&self, f: &Facts) -> (r: Option<&str>)
        ensures
            text::opt_str(r) == self.app_spec(f@),
    {
        match find_first(&self.stages.app, f) {
            Some(k) => text::opt_borrow(&self.stages.app[k].identity),
            None => None,
        }
    }

    #[must_use]
    pub fn placement(&self, identity: &str) -> (r: Option<&Compiled>)
        ensures
            match r {
                Some(c) => self.placement_spec(identity@) == Some(*c),
                None => self.placement_spec(identity@) is None,
            },
    {
        let f = Facts { identity: Some(identity), ..Facts::default() };
        assert(f@ == identity_facts(identity@));
        match find_first(&self.stages.placement, &f) {
            Some(k) => Some(&self.stages.placement[k]),
            None => None,
        }
    }

    #[must_use]
    pub fn container_owner(&self, name: &str) -> (r: Option<u32>)
        ensures
            r == self.container_owner_spec(name@),
    {
        let f = Facts { container: Some(name), ..Facts::default() };
        assert(f@ == container_facts(name@));
        match find_first(&self.stages.placement, &f) {
            Some(k) => self.stages.placement[k].owner_uid,
            None => None,
        }
    }

    /// Every rule of the stage that decides, in order.
    #[must_use]
    pub fn deciding<'r>(&'r self, stage: Stage, f: &Facts) -> (r: Vec<&'r Compiled>)
        ensures
            r@.len() == deciders(stage, self.rules_of(stage), f@).len(),
            forall|k: int|
                0 <= k < r@.len() ==> *(#[trigger] r@[k]) == self.rules_of(stage)[deciders(
                    stage,
                    self.rules_of(stage),
                    f@,
                )[k]],
    {
        let list = self.stages.get(stage);
        let mut out: Vec<&'r Compiled> = Vec::new();
        if stage == Stage::Unit || stage == Stage::Class {
            let folded = compile::fold(f);
            let mut i: usize = 0;
            while i < list.len()
                invariant
                    i <= list.len(),
                    folded.of(f@),
                    out@.len() == matches_upto(list@, f@, i as int).len(),
                    forall|k: int|
                        0 <= k < out@.len() ==> *(#[trigger] out@[k]) == list@[matches_upto(
                            list@,
                            f@,
                            i as int,
                        )[k]],
                decreases list.len() - i,
            {
                if list[i].fires(&folded, Ghost(f@)) {
                    out.push(&list[i]);
                }
                i += 1;
            }
        } else {
            if let Some(k) = find_first(list, f) {
                out.push(&list[k]);
            }
        }
        out
    }

    #[must_use]
    pub fn examples_total(&self) -> (r: usize)
        requires
            self.wf(),
            examples_upto(self.loaded@, self.in_order(), self.in_order().len() as int)
                <= usize::MAX,
        ensures
            r == examples_upto(self.loaded@, self.in_order(), self.in_order().len() as int),
    {
        let ghost ord = self.in_order();
        proof {
            lemma_load_order_ok(self.loaded@, self.loaded@.len() as int);
        }
        let mut total: usize = 0;
        let mut k: usize = 0;
        while k < self.order.len()
            invariant
                k <= self.order.len(),
                ord == self.in_order(),
                order_ok(self.loaded@, ord),
                examples_upto(self.loaded@, ord, ord.len() as int) <= usize::MAX,
                total == examples_upto(self.loaded@, ord, k as int),
            decreases self.order.len() - k,
        {
            assert(ord[k as int] == self.order@[k as int]);
            if let Ok(rf) = &self.loaded[self.order[k]].parsed {
                proof {
                    assert(self.loaded@[ord[k as int]].parsed->Ok_0 == *rf);
                    lemma_examples_grow(self.loaded@, ord, k + 1);
                }
                total = total + rf.examples.len();
            }
            k += 1;
        }
        total
    }
}

/// The file `f` is the entry of the built-in table.
pub open spec fn is_builtin(f: LoadedFile, entry: (String, RuleFile)) -> bool {
    &&& f.source.rank == usize::MAX
    &&& f.source.label@ == "built-in"@
    &&& f.name@ == entry.0@
    &&& f.parsed == Ok::<RuleFile, String>(entry.1)
}

pub proof fn lemma_no_problems(files: Seq<LoadedFile>, n: int)
    requires
        0 <= n <= files.len(),
        forall|j: int| 0 <= j < files.len() ==> problem_of(#[trigger] files[j]) is None,
    ensures
        bad_files(files, n).len() == 0,
    decreases n,
{
    if n > 0 {
        lemma_no_problems(files, n - 1);
        assert(problem_of(files[n - 1]) is None);
    }
}

proof fn lemma_examples_grow(files: Seq<LoadedFile>, order: Seq<int>, n: int)
    requires
        0 <= n <= order.len(),
    ensures
        examples_upto(files, order, n) <= examples_upto(files, order, order.len() as int),
    decreases order.len() - n,
{
    if n < order.len() {
        lemma_examples_grow(files, order, n + 1);
    }
}

/// Putting a file in keeps every file readable.
proof fn lemma_placed_ok(files: Seq<LoadedFile>, order: Seq<int>, i: int)
    requires
        order_ok(files, order),
        0 <= i < files.len(),
        problem_of(files[i]) is None,
    ensures
        order_ok(files, placed(files, order, i)),
        placed(files, order, i).len() == order.len() + 1,
    decreases order.len(),
{
    if order.len() > 0 {
        let d = order.drop_last();
        assert(order_ok(files, d)) by {
            assert forall|k: int| 0 <= k < d.len() implies 0 <= #[trigger] d[k] < files.len()
                && problem_of(files[d[k]]) is None by {
                assert(d[k] == order[k]);
            }
        }
        if !loads_before(files[order.last()], files[i]) {
            lemma_placed_ok(files, d, i);
            let p = placed(files, d, i);
            assert forall|k: int| 0 <= k < p.push(order.last()).len() implies 0
                <= #[trigger] p.push(order.last())[k] < files.len() && problem_of(
                files[p.push(order.last())[k]],
            ) is None by {
                if k < p.len() {
                    assert(p.push(order.last())[k] == p[k]);
                } else {
                    assert(order.last() == order[order.len() - 1]);
                }
            }
        }
    }
}

/// Every file that is loaded could be read.
pub proof fn lemma_load_order_ok(files: Seq<LoadedFile>, n: int)
    requires
        0 <= n <= files.len(),
    ensures
        order_ok(files, load_order(files, n)),
    decreases n,
{
    if n > 0 {
        lemma_load_order_ok(files, n - 1);
        if problem_of(files[n - 1]) is None {
            lemma_placed_ok(files, load_order(files, n - 1), n - 1);
        }
    }
}

/// The rules a stage holds come from loaded files of that stage, and are not
/// disabled.
pub proof fn lemma_kept_in(
    files: Seq<LoadedFile>,
    fi: int,
    disabled: Seq<Seq<char>>,
    m: int,
    k: int,
)
    requires
        0 <= k < kept_in(files, fi, disabled, m).len(),
        0 <= m <= rules_in(files[fi]).len(),
    ensures
        kept_in(files, fi, disabled, m)[k].0 == fi,
        0 <= kept_in(files, fi, disabled, m)[k].1 < m,
        !is_dropped(
            disabled,
            files[fi].name@,
            rules_in(files[fi])[kept_in(files, fi, disabled, m)[k].1].id@,
        ),
    decreases m,
{
    if m > 0 {
        let before = kept_in(files, fi, disabled, m - 1);
        if k < before.len() {
            lemma_kept_in(files, fi, disabled, m - 1, k);
        }
    }
}

pub proof fn lemma_kept(
    files: Seq<LoadedFile>,
    order: Seq<int>,
    disabled: Seq<Seq<char>>,
    stage: Stage,
    n: int,
    k: int,
)
    requires
        order_ok(files, order),
        0 <= n <= order.len(),
        0 <= k < kept(files, order, disabled, stage, n).len(),
    ensures
        ({
            let (fi, ri) = kept(files, order, disabled, stage, n)[k];
            &&& 0 <= fi < files.len()
            &&& problem_of(files[fi]) is None
            &&& files[fi].parsed->Ok_0.stage == stage
            &&& 0 <= ri < rules_in(files[fi]).len()
            &&& !is_dropped(disabled, files[fi].name@, rules_in(files[fi])[ri].id@)
            &&& exists|j: int| 0 <= j < n && #[trigger] order[j] == fi
        }),
    decreases n,
{
    if n > 0 {
        let fi = order[n - 1];
        let before = kept(files, order, disabled, stage, n - 1);
        if k < before.len() {
            lemma_kept(files, order, disabled, stage, n - 1, k);
        } else {
            lemma_kept_in(
                files,
                fi,
                disabled,
                rules_in(files[fi]).len() as int,
                k - before.len(),
            );
        }
    }
}

proof fn lemma_rules_fault_none(stage: Stage, v: Seq<Rule>, i: int, k: int)
    requires
        0 <= i <= k < v.len(),
        rules_fault(stage, v, i) is None,
    ensures
        compile::rule_fault(stage, v[k]) is None,
    decreases k - i,
{
    if i < k {
        lemma_rules_fault_none(stage, v, i + 1, k);
    }
}

/// Every rule of a stage stands in a loaded file of that stage, is not
/// disabled, and has no fault.
pub proof fn lemma_rule_origin(r: Rules, stage: Stage, k: int)
    requires
        r.wf(),
        0 <= k < r.rules_of(stage).len(),
    ensures
        exists|fi: int, ri: int|
            #![trigger r.loaded@[fi], rules_in(r.loaded@[fi])[ri]]
            {
                &&& 0 <= fi < r.loaded@.len()
                &&& problem_of(r.loaded@[fi]) is None
                &&& r.loaded@[fi].parsed->Ok_0.stage == stage
                &&& 0 <= ri < rules_in(r.loaded@[fi]).len()
                &&& is_rule_of(r.rules_of(stage)[k], r.loaded@[fi], ri)
                &&& compile::rule_fault(stage, rules_in(r.loaded@[fi])[ri]) is None
                &&& !is_dropped(
                    text::texts(r.disabled@),
                    r.loaded@[fi].name@,
                    rules_in(r.loaded@[fi])[ri].id@,
                )
            },
{
    let files = r.loaded@;
    let ord = r.in_order();
    let dis = text::texts(r.disabled@);
    let n = ord.len() as int;
    lemma_load_order_ok(files, files.len() as int);
    assert(lists(r.rules_of(stage), files, kept(files, ord, dis, stage, n)));
    lemma_kept(files, ord, dis, stage, n, k);
    let (fi, ri) = kept(files, ord, dis, stage, n)[k];
    assert(is_rule_of(r.rules_of(stage)[k], files[fi], ri));
    lemma_rules_fault_none(stage, rules_in(files[fi]), 0, ri);
    assert(rules_in(files[fi])[ri] == rules_in(files[fi])[ri]);
}

pub proof fn lemma_session_outputs(r: Rules, k: int)
    requires
        r.wf(),
        0 <= k < r.rules_of(Stage::Session).len(),
    ensures
        r.rules_of(Stage::Session)[k].identity is Some,
        r.rules_of(Stage::Session)[k].folder is Some,
{
    lemma_rule_origin(r, Stage::Session, k);
    let (fi, ri) = choose|fi: int, ri: int|
        #![trigger r.loaded@[fi], rules_in(r.loaded@[fi])[ri]]
        {
            &&& 0 <= fi < r.loaded@.len()
            &&& is_rule_of(r.rules_of(Stage::Session)[k], r.loaded@[fi], ri)
            &&& compile::rule_fault(Stage::Session, rules_in(r.loaded@[fi])[ri]) is None
        };
    let rule = rules_in(r.loaded@[fi])[ri];
    reveal_with_fuel(compile::first_missing, 7);
    assert(compile::first_missing(Stage::Session, rule, 0) is None);
    assert(compile::gives(rule, compile::output_at(0)));
    assert(compile::gives(rule, compile::output_at(1)));
}

} // verus!
