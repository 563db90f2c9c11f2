//! The rules engine: files of rules evaluated per process, one stage at a
//! time. A file of a higher source adds rules before those of a lower one and
//! may disable them; it never replaces a file by name.
use vstd::prelude::*;

use crate::text;

pub mod check;
pub mod compile;
pub mod laws;
pub mod meaning;
pub mod outcome;
pub mod precedence;
pub mod ruleset;
pub mod sources;
pub mod verdicts;


pub use self::check::{subject_facts, OwnedFacts};
pub use self::compile::Compiled;
pub use self::ruleset::Rules;

verus! {

/// What a file's rules decide. Every process goes through the stages in order.
#[derive(Clone, Copy, PartialEq, Eq, Debug, Hash, PartialOrd, Ord, Structural)]
pub enum Stage {
    Unit,
    Class,
    Session,
    App,
    Placement,
}

/// One file of rules, as its text spells it.
#[derive(Debug)]
pub struct RuleFile {
    pub stage: Stage,
    pub disable: Vec<String>,
    pub rules: Vec<Rule>,
    pub examples: Vec<Example>,
}

/// One rule: a test, and what a process that passes it is given.
#[derive(Debug)]
pub struct Rule {
    pub id: String,
    pub test: Match,
    pub identity: Option<String>,
    pub folder: Option<FolderName>,
    pub fold_to: Option<String>,
    pub owner_uid: Option<u32>,
    pub classes: Vec<Class>,
    pub flags: Vec<UnitFlag>,
}

/// The folders a rule can put an identity in.
#[derive(Clone, Copy, PartialEq, Eq, Debug, Structural)]
pub enum FolderName {
    Applications,
    UserServices,
}

/// How a file of rules writes a folder.
pub open spec fn folder_label(f: FolderName) -> Seq<char> {
    match f {
        FolderName::Applications => "applications"@,
        FolderName::UserServices => "user_services"@,
    }
}

pub fn folder_name(f: FolderName) -> (r: &'static str)
    ensures
        r@ == folder_label(f),
{
    match f {
        FolderName::Applications => "applications",
        FolderName::UserServices => "user_services",
    }
}

/// A test on one process.
#[derive(Debug)]
pub enum Match {
    Name(Pat),
    NamePrefix(Pat),
    NameSuffix(Pat),
    NameContains(Pat),
    ExePrefix(Pat),
    ExeSuffix(Pat),
    ExeContains(Pat),
    ArgPrefix(Pat),
    ArgContains(Pat),
    CgroupContains(Pat),
    Unit(Pat),
    UnitPrefix(Pat),
    UnitSuffix(Pat),
    UnitContains(Pat),
    Script(Pat),
    Identity(Pat),
    Container(Pat),
    All(Vec<Match>),
    Any(Vec<Match>),
    Not(Box<Match>),
}

/// One pattern or several.
#[derive(Debug)]
pub enum Pat {
    One(String),
    Many(Vec<String>),
}

/// What kind of program a process is.
#[derive(Clone, Copy, PartialEq, Eq, Debug, Structural)]
pub enum Class {
    Launcher,
    Generic,
    Shell,
    Terminal,
    Compositor,
    Worker,
    Noise,
    CrashHelper,
    NoAbsorb,
    AnonymousScript,
    ContainerRuntime,
}

/// What a unit's name is worth.
#[derive(Clone, Copy, PartialEq, Eq, Debug, Structural)]
pub enum UnitFlag {
    Lying,
    Service,
}

/// A set of classes, one bit each.
#[derive(Clone, Copy, PartialEq, Eq, Debug, Structural)]
pub struct Classes(pub u16);

/// A set of unit flags, one bit each.
#[derive(Clone, Copy, PartialEq, Eq, Debug, Structural)]
pub struct UnitFlags(pub u8);

/// The bit that stands for a class.
pub open spec fn class_bit(c: Class) -> u16 {
    match c {
        Class::Launcher => 1,
        Class::Generic => 2,
        Class::Shell => 4,
        Class::Terminal => 8,
        Class::Compositor => 16,
        Class::Worker => 32,
        Class::Noise => 64,
        Class::CrashHelper => 128,
        Class::NoAbsorb => 256,
        Class::AnonymousScript => 512,
        Class::ContainerRuntime => 1024,
    }
}

/// The name of a class, in the order of the bits.
pub open spec fn class_name(i: int) -> Seq<char> {
    if i == 0 {
        "launcher"@
    } else if i == 1 {
        "generic"@
    } else if i == 2 {
        "shell"@
    } else if i == 3 {
        "terminal"@
    } else if i == 4 {
        "compositor"@
    } else if i == 5 {
        "worker"@
    } else if i == 6 {
        "noise"@
    } else if i == 7 {
        "crash_helper"@
    } else if i == 8 {
        "no_absorb"@
    } else if i == 9 {
        "anonymous_script"@
    } else {
        "container_runtime"@
    }
}

/// The names of the classes among the first `n` that `bits` holds.
pub open spec fn class_names_upto(bits: u16, n: int) -> Seq<Seq<char>>
    decreases n,
{
    if n <= 0 {
        Seq::empty()
    } else if bits & (1u16 << (n - 1)) != 0 {
        class_names_upto(bits, n - 1).push(class_name(n - 1))
    } else {
        class_names_upto(bits, n - 1)
    }
}

/// The characters of each string slice.
pub open spec fn slices(v: Seq<&str>) -> Seq<Seq<char>> {
    Seq::new(v.len(), |i: int| v[i]@)
}

fn class_label(i: usize) -> (r: &'static str)
    ensures
        r@ == class_name(i as int),
{
    if i == 0 {
        "launcher"
    } else if i == 1 {
        "generic"
    } else if i == 2 {
        "shell"
    } else if i == 3 {
        "terminal"
    } else if i == 4 {
        "compositor"
    } else if i == 5 {
        "worker"
    } else if i == 6 {
        "noise"
    } else if i == 7 {
        "crash_helper"
    } else if i == 8 {
        "no_absorb"
    } else if i == 9 {
        "anonymous_script"
    } else {
        "container_runtime"
    }
}

impl Classes {
    pub const LAUNCHER: u16 = 1;

    pub const GENERIC: u16 = 2;

    pub const SHELL: u16 = 4;

    pub const TERMINAL: u16 = 8;

    pub const COMPOSITOR: u16 = 16;

    pub const WORKER: u16 = 32;

    pub const NOISE: u16 = 64;

    pub const CRASH_HELPER: u16 = 128;

    pub const NO_ABSORB: u16 = 256;

    pub const ANONYMOUS_SCRIPT: u16 = 512;

    pub const CONTAINER_RUNTIME: u16 = 1024;

    #[must_use]
    pub fn bit(c: Class) -> (r: u16)
        ensures
            r == class_bit(c),
    {
        match c {
            Class::Launcher => Self::LAUNCHER,
            Class::Generic => Self::GENERIC,
            Class::Shell => Self::SHELL,
            Class::Terminal => Self::TERMINAL,
            Class::Compositor => Self::COMPOSITOR,
            Class::Worker => Self::WORKER,
            Class::Noise => Self::NOISE,
            Class::CrashHelper => Self::CRASH_HELPER,
            Class::NoAbsorb => Self::NO_ABSORB,
            Class::AnonymousScript => Self::ANONYMOUS_SCRIPT,
            Class::ContainerRuntime => Self::CONTAINER_RUNTIME,
        }
    }

    /// Any of `bits` is in the set.
    pub open spec fn any_of(self, bits: u16) -> bool {
        self.0 & bits != 0
    }

    /// Whether any of `bits` is in the set.
    #[must_use]
    pub fn has(self, bits: u16) -> (r: bool)
        ensures
            r == self.any_of(bits),
    {
        self.0 & bits != 0
    }

    #[must_use]
    pub fn contains(self, c: Class) -> (r: bool)
        ensures
            r == self.any_of(class_bit(c)),
    {
        self.has(Self::bit(c))
    }

    /// The names of the classes in the set.
    #[must_use]
    pub fn names(self) -> (r: Vec<&'static str>)
        ensures
            slices(r@) == class_names_upto(self.0, 11),
    {
        let mut out: Vec<&'static str> = Vec::new();
        let mut i: usize = 0;
        while i < 11
            invariant
                i <= 11,
                slices(out@) == class_names_upto(self.0, i as int),
            decreases 11 - i,
        {
            let ghost before = slices(out@);
            if self.0 & (1u16 << i) != 0 {
                out.push(class_label(i));
                assert(slices(out@) =~= before.push(class_name(i as int)));
            }
            i += 1;
        }
        out
    }
}

impl Default for Classes {
    fn default() -> (r: Self)
        ensures
            r == Classes(0),
    {
        Classes(0)
    }
}

/// The bit that stands for a unit flag.
pub open spec fn flag_bit(f: UnitFlag) -> u8 {
    match f {
        UnitFlag::Lying => 1,
        UnitFlag::Service => 2,
    }
}

/// The names of the flags that `bits` holds.
pub open spec fn flag_names(bits: u8) -> Seq<Seq<char>> {
    (if bits & 1 != 0 {
        seq!["lying"@]
    } else {
        Seq::empty()
    }) + (if bits & 2 != 0 {
        seq!["service"@]
    } else {
        Seq::empty()
    })
}

impl UnitFlags {
    pub const LYING: u8 = 1;

    pub const SERVICE: u8 = 2;

    pub open spec fn lies(self) -> bool {
        self.0 & 1 != 0
    }

    pub open spec fn is_service(self) -> bool {
        self.0 & 2 != 0
    }

    #[must_use]
    pub fn lying(self) -> (r: bool)
        ensures
            r == self.lies(),
    {
        self.0 & Self::LYING != 0
    }

    #[must_use]
    pub fn service(self) -> (r: bool)
        ensures
            r == self.is_service(),
    {
        self.0 & Self::SERVICE != 0
    }

    /// The names of the flags in the set.
    #[must_use]
    pub fn names(self) -> (r: Vec<&'static str>)
        ensures
            slices(r@) == flag_names(self.0),
    {
        let mut v: Vec<&'static str> = Vec::new();
        if self.lying() {
            v.push("lying");
        }
        if self.service() {
            v.push("service");
        }
        assert(slices(v@) =~= flag_names(self.0));
        v
    }
}

impl Default for UnitFlags {
    fn default() -> (r: Self)
        ensures
            r == UnitFlags(0),
    {
        UnitFlags(0)
    }
}

/// A subject a rule file carries with the answer its rules owe.
#[derive(Debug)]
pub struct Example {
    pub pid: u32,
    pub ppid: u32,
    pub pgrp: i32,
    pub uid: u32,
    pub kthread: bool,
    pub utime: u64,
    pub stime: u64,
    pub comm: Option<String>,
    pub exe: Option<String>,
    pub cmdline: Vec<String>,
    pub cgroup: String,
    pub unit: Option<String>,
    pub identity: Option<String>,
    pub container: Option<String>,
    /// None: no rule may match.
    pub expect: Option<Expect>,
}

/// The answer an example owes. What is left out is not compared.
#[derive(Debug)]
pub struct Expect {
    pub rule: Option<String>,
    pub rules: Option<Vec<String>>,
    pub identity: Option<String>,
    pub folder: Option<FolderName>,
    pub classes: Option<Vec<Class>>,
    pub flags: Option<Vec<UnitFlag>>,
    pub fold_to: Option<String>,
    pub owner_uid: Option<u32>,
}

impl Default for Expect {
    fn default() -> (r: Self)
        ensures
            r.rule is None && r.rules is None && r.identity is None && r.folder is None,
            r.classes is None && r.flags is None && r.fold_to is None && r.owner_uid is None,
    {
        Expect {
            rule: None,
            rules: None,
            identity: None,
            folder: None,
            classes: None,
            flags: None,
            fold_to: None,
            owner_uid: None,
        }
    }
}

/// Where a file came from. The lower rank wins; the built-in files come last.
#[derive(Clone, PartialEq, Eq, Debug, Hash, PartialOrd, Ord)]
pub struct Source {
    pub rank: usize,
    pub label: String,
}

impl Source {
    #[must_use]
    pub fn builtin() -> (r: Self)
        ensures
            r.rank == usize::MAX,
            r.label@ == "built-in"@,
    {
        Source { rank: usize::MAX, label: "built-in".to_owned() }
    }

    /// The same place, letter for letter.
    pub open spec fn same_as(self, o: Source) -> bool {
        self.rank == o.rank && self.label@ == o.label@
    }

    pub fn copy(&self) -> (r: Source)
        ensures
            r.same_as(*self),
    {
        Source { rank: self.rank, label: self.label.clone() }
    }
}

/// One file by name, with the rules its text spells or what is wrong with it.
pub struct LoadedFile {
    pub source: Source,
    pub name: String,
    pub parsed: Result<RuleFile, String>,
}

/// A file that was left out, and why.
#[derive(Debug)]
pub struct Problem {
    pub source: Source,
    pub file: String,
    pub what: String,
}

/// What one process looks like to the engine.
#[derive(Clone, Copy)]
pub struct Facts<'a> {
    pub comm: &'a str,
    pub name: &'a str,
    pub exe: Option<&'a str>,
    pub argv: &'a [String],
    pub cgroup: &'a str,
    pub unit: Option<&'a str>,
    pub script: Option<&'a str>,
    pub identity: Option<&'a str>,
    pub container: Option<&'a str>,
}

/// The same facts as text.
pub struct FactsView {
    pub comm: Seq<char>,
    pub name: Seq<char>,
    pub exe: Option<Seq<char>>,
    pub argv: Seq<Seq<char>>,
    pub cgroup: Seq<char>,
    pub unit: Option<Seq<char>>,
    pub script: Option<Seq<char>>,
    pub identity: Option<Seq<char>>,
    pub container: Option<Seq<char>>,
}

/// No facts at all.
pub open spec fn no_facts() -> FactsView {
    FactsView {
        comm: Seq::empty(),
        name: Seq::empty(),
        exe: None,
        argv: Seq::empty(),
        cgroup: Seq::empty(),
        unit: None,
        script: None,
        identity: None,
        container: None,
    }
}

impl<'a> View for Facts<'a> {
    type V = FactsView;

    open spec fn view(&self) -> FactsView {
        FactsView {
            comm: self.comm@,
            name: self.name@,
            exe: text::opt_str(self.exe),
            argv: text::texts(self.argv@),
            cgroup: self.cgroup@,
            unit: text::opt_str(self.unit),
            script: text::opt_str(self.script),
            identity: text::opt_str(self.identity),
            container: text::opt_str(self.container),
        }
    }
}

impl<'a> Default for Facts<'a> {
    fn default() -> (r: Self)
        ensures
            r@ == no_facts(),
    {
        let r = Facts {
            comm: "",
            name: "",
            exe: None,
            argv: &[],
            cgroup: "",
            unit: None,
            script: None,
            identity: None,
            container: None,
        };
        proof {
            reveal_strlit("");
            assert(""@ =~= Seq::<char>::empty());
            assert(text::texts(r.argv@) =~= Seq::<Seq<char>>::empty());
        }
        r
    }
}

/// The fact a test looks at.
#[derive(Clone, Copy, PartialEq, Eq, Debug, Structural)]
pub enum Field {
    Name,
    Exe,
    Arg,
    Cgroup,
    Unit,
    Script,
    Identity,
    Container,
}

/// How a pattern must stand in a text.
#[derive(Clone, Copy, PartialEq, Eq, Debug, Structural)]
pub enum Op {
    Equal,
    Prefix,
    Suffix,
    Contains,
}

/// The texts of a field: none where the fact is absent, two for the name, as
/// many as there are arguments for the command line.
pub open spec fn field_texts(f: FactsView, field: Field) -> Seq<Seq<char>> {
    match field {
        Field::Name => seq![f.comm, f.name],
        Field::Exe => opt_seq(f.exe),
        Field::Arg => f.argv,
        Field::Cgroup => seq![f.cgroup],
        Field::Unit => opt_seq(f.unit),
        Field::Script => opt_seq(f.script),
        Field::Identity => opt_seq(f.identity),
        Field::Container => opt_seq(f.container),
    }
}

pub open spec fn opt_seq(s: Option<Seq<char>>) -> Seq<Seq<char>> {
    match s {
        Some(t) => seq![t],
        None => Seq::empty(),
    }
}

/// `p` stands in `h` as `o` asks, letter for letter.
pub open spec fn stands(o: Op, p: Seq<char>, h: Seq<char>) -> bool {
    match o {
        Op::Equal => h == p,
        Op::Prefix => text::has_prefix(h, p),
        Op::Suffix => text::has_suffix(h, p),
        Op::Contains => text::has_infix(h, p),
    }
}

/// A pattern stands in a text as `o` asks, ASCII case aside.
pub open spec fn op_holds(o: Op, p: Seq<char>, h: Seq<char>) -> bool {
    stands(o, text::lowered(p), text::lowered(h))
}

/// Some pattern stands in some text as `o` asks.
pub open spec fn some_hit(o: Op, pats: Seq<Seq<char>>, hay: Seq<Seq<char>>) -> bool {
    exists|i: int, j: int|
        0 <= i < hay.len() && 0 <= j < pats.len() && #[trigger] op_holds(o, pats[j], hay[i])
}

/// The patterns of a list.
pub open spec fn pat_texts(p: Pat) -> Seq<Seq<char>> {
    match p {
        Pat::One(s) => seq![s@],
        Pat::Many(v) => text::texts(v@),
    }
}

/// The field, the relation and the patterns of a test on one field.
pub open spec fn leaf_of(m: Match) -> Option<(Field, Op, Pat)> {
    match m {
        Match::Name(p) => Some((Field::Name, Op::Equal, p)),
        Match::NamePrefix(p) => Some((Field::Name, Op::Prefix, p)),
        Match::NameSuffix(p) => Some((Field::Name, Op::Suffix, p)),
        Match::NameContains(p) => Some((Field::Name, Op::Contains, p)),
        Match::ExePrefix(p) => Some((Field::Exe, Op::Prefix, p)),
        Match::ExeSuffix(p) => Some((Field::Exe, Op::Suffix, p)),
        Match::ExeContains(p) => Some((Field::Exe, Op::Contains, p)),
        Match::ArgPrefix(p) => Some((Field::Arg, Op::Prefix, p)),
        Match::ArgContains(p) => Some((Field::Arg, Op::Contains, p)),
        Match::CgroupContains(p) => Some((Field::Cgroup, Op::Contains, p)),
        Match::Unit(p) => Some((Field::Unit, Op::Equal, p)),
        Match::UnitPrefix(p) => Some((Field::Unit, Op::Prefix, p)),
        Match::UnitSuffix(p) => Some((Field::Unit, Op::Suffix, p)),
        Match::UnitContains(p) => Some((Field::Unit, Op::Contains, p)),
        Match::Script(p) => Some((Field::Script, Op::Equal, p)),
        Match::Identity(p) => Some((Field::Identity, Op::Equal, p)),
        Match::Container(p) => Some((Field::Container, Op::Equal, p)),
        Match::All(_) | Match::Any(_) | Match::Not(_) => None,
    }
}

/// What a test says of a process: this is the meaning of the rule language.
pub open spec fn match_holds(m: Match, f: FactsView) -> bool
    decreases m,
{
    match m {
        Match::All(v) => forall|i: int| 0 <= i < v@.len() ==> match_holds(#[trigger] v@[i], f),
        Match::Any(v) => exists|i: int| 0 <= i < v@.len() && match_holds(#[trigger] v@[i], f),
        Match::Not(b) => !match_holds(*b, f),
        _ => {
            let (field, o, p) = leaf_of(m)->0;
            some_hit(o, pat_texts(p), field_texts(f, field))
        },
    }
}

} // verus!
