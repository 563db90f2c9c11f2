//! The containers a daemon reports, indexed so that a process finds its own.
use vstd::prelude::*;

use crate::rules::Rules;
use crate::table::Table;
use crate::types::Process;
use crate::{classify, identity, text};

pub mod asking;
pub mod laws;

verus! {

// ---------------------------------------------------------------------------
// Ids
// ---------------------------------------------------------------------------

/// At least twelve characters, all of them hexadecimal digits.
pub open spec fn is_id(s: Seq<char>) -> bool {
    s.len() >= 12 && forall|i: int| 0 <= i < s.len() ==> text::is_hex(#[trigger] s[i])
}

/// The id in small letters.
pub open spec fn normal_id(s: Seq<char>) -> Option<Seq<char>> {
    if is_id(s) {
        Some(text::lowered(s))
    } else {
        None
    }
}

/// The first twelve digits of the id in small letters: what containers are
/// indexed by, so that a full id and a shortened one meet.
pub open spec fn short_id(s: Seq<char>) -> Option<Seq<char>> {
    if is_id(s) {
        Some(text::lowered(s).subrange(0, 12))
    } else {
        None
    }
}

/// The title of a container without a name.
pub open spec fn title_of_id(id: Seq<char>) -> Seq<char> {
    "docker-"@ + if is_id(id) {
        id.subrange(0, 12)
    } else {
        id
    }
}

fn hex_id(s: &str) -> (r: bool)
    ensures
        r == is_id(s@),
{
    let v = text::chars_of(s);
    if v.len() < 12 {
        return false;
    }
    let mut i: usize = 0;
    while i < v.len()
        invariant
            i <= v.len(),
            v@ == s@,
            forall|j: int| 0 <= j < i ==> text::is_hex(#[trigger] s@[j]),
        decreases v.len() - i,
    {
        if !text::hex_char(v[i]) {
            assert(!text::is_hex(s@[i as int]));
            return false;
        }
        i += 1;
    }
    true
}

pub fn hex12(s: &str) -> (r: Option<&str>)
    ensures
        match r {
            Some(t) => is_id(s@) && t@ == s@.subrange(0, 12),
            None => !is_id(s@),
        },
{
    if hex_id(s) {
        Some(s.substring_char(0, 12))
    } else {
        None
    }
}

pub fn normalized_id(s: &str) -> (r: Option<String>)
    ensures
        text::opt_text(r) == normal_id(s@),
{
    if hex_id(s) {
        Some(text::lower_string(s))
    } else {
        None
    }
}

pub fn id_key(s: &str) -> (r: Option<String>)
    ensures
        text::opt_text(r) == short_id(s@),
{
    if hex_id(s) {
        let low = text::folded(s);
        Some(text::string_of(text::cut(low.as_slice(), 0, 12).as_slice()))
    } else {
        None
    }
}

pub fn docker_title(id: &str) -> (r: String)
    ensures
        r@ == title_of_id(id@),
{
    match hex12(id) {
        Some(t) => text::joined("docker-", t),
        None => text::joined("docker-", id),
    }
}

// ---------------------------------------------------------------------------
// What the daemon reports
// ---------------------------------------------------------------------------

/// One container of the daemon's list.
#[derive(Debug)]
pub struct ListItem {
    pub id: String,
    pub names: Vec<String>,
    pub labels: Option<Table<String>>,
    pub state: Option<String>,
}

/// What the daemon says of one container when asked for it.
#[derive(Debug)]
pub struct Inspect {
    pub state: Option<InspectState>,
    pub network: Option<NetworkSettings>,
    pub mounts: Vec<Mount>,
    pub host_config: Option<HostConfig>,
}

impl Default for Inspect {
    fn default() -> (r: Self)
        ensures
            r.state is None && r.network is None && r.mounts@.len() == 0 && r.host_config is None,
    {
        Inspect { state: None, network: None, mounts: Vec::new(), host_config: None }
    }
}

#[derive(Debug)]
pub struct HostConfig {
    pub network_mode: Option<String>,
}

#[derive(Debug)]
pub struct Mount {
    pub kind: Option<String>,
    pub source: Option<String>,
}

#[derive(Debug)]
pub struct InspectState {
    pub running: Option<bool>,
}

#[derive(Debug)]
pub struct NetworkSettings {
    pub ip: Option<String>,
    /// The networks by name; one may be reported empty.
    pub networks: Option<Vec<(String, Option<Network>)>>,
}

#[derive(Debug)]
pub struct Network {
    pub ip: Option<String>,
}

/// The container shares no network namespace with the machine. A container
/// that does not say is taken to share it.
pub open spec fn has_own_netns(i: Inspect) -> bool {
    match i.host_config {
        Some(h) => match h.network_mode {
            Some(mode) => mode@ != "host"@,
            None => false,
        },
        None => false,
    }
}

/// A text and nothing else, unless it is absent or empty.
pub open spec fn unless_empty(s: Option<String>) -> Seq<Seq<char>> {
    match s {
        Some(t) => if t@.len() > 0 {
            seq![t@]
        } else {
            Seq::empty()
        },
        None => Seq::empty(),
    }
}

/// The addresses of the first `n` networks.
pub open spec fn network_ips(v: Seq<(String, Option<Network>)>, n: int) -> Seq<Seq<char>>
    decreases n,
{
    if n <= 0 {
        Seq::empty()
    } else {
        network_ips(v, n - 1) + match v[n - 1].1 {
            Some(net) => unless_empty(net.ip),
            None => Seq::empty(),
        }
    }
}

/// Every address a container reports, network by network, then its own.
pub open spec fn reported_ips(i: Inspect) -> Seq<Seq<char>> {
    match i.network {
        Some(n) => (match n.networks {
            Some(v) => network_ips(v@, v@.len() as int),
            None => Seq::empty(),
        }) + unless_empty(n.ip),
        None => Seq::empty(),
    }
}

/// `v` without the texts that repeat the one before them.
pub open spec fn deduped(v: Seq<Seq<char>>) -> Seq<Seq<char>>
    decreases v.len(),
{
    if v.len() <= 1 {
        v
    } else if v.last() == v[v.len() - 2] {
        deduped(v.drop_last())
    } else {
        deduped(v.drop_last()).push(v.last())
    }
}

fn dedup(v: Vec<String>) -> (r: Vec<String>)
    ensures
        text::texts(r@) == deduped(text::texts(v@)),
{
    let ghost all = text::texts(v@);
    let mut out: Vec<String> = Vec::new();
    let mut i: usize = 0;
    assert(all.take(0) =~= Seq::<Seq<char>>::empty());
    assert(text::texts(out@) =~= Seq::<Seq<char>>::empty());
    while i < v.len()
        invariant
            i <= v.len(),
            all == text::texts(v@),
            text::texts(out@) == deduped(all.take(i as int)),
        decreases v.len() - i,
    {
        let ghost next = all.take(i + 1);
        assert(next.drop_last() =~= all.take(i as int));
        let repeats = i > 0 && text::same_str(v[i].as_str(), v[i - 1].as_str());
        proof {
            assert(next.last() == v@[i as int]@);
            if i > 0 {
                assert(next[next.len() - 2] == v@[i - 1]@);
            } else {
                assert(next =~= seq![v@[0]@]);
            }
        }
        if !repeats {
            let ghost before = text::texts(out@);
            out.push(v[i].clone());
            assert(text::texts(out@) =~= before.push(v@[i as int]@));
        }
        i += 1;
    }
    assert(all.take(i as int) =~= all);
    out
}

fn push_unless_empty(out: &mut Vec<String>, s: &Option<String>)
    ensures
        text::texts(final(out)@) == text::texts(old(out)@) + unless_empty(*s),
{
    let ghost before = text::texts(out@);
    if let Some(t) = s {
        if !t.as_str().is_empty() {
            out.push(t.clone());
        }
    }
    assert(text::texts(out@) =~= before + unless_empty(*s));
}

impl Inspect {
    pub fn owns_netns(&self) -> (r: bool)
        ensures
            r == has_own_netns(*self),
    {
        match &self.host_config {
            Some(h) => match &h.network_mode {
                Some(mode) => !text::same_str(mode.as_str(), "host"),
                None => false,
            },
            None => false,
        }
    }

    /// The addresses of the container, in order, each once.
    pub fn ips(&self) -> (r: Vec<String>)
        ensures
            text::texts(r@) == deduped(text::sorted_texts(reported_ips(*self))),
    {
        let mut out: Vec<String> = Vec::new();
        assert(text::texts(out@) =~= Seq::<Seq<char>>::empty());
        if let Some(n) = &self.network {
            if let Some(v) = &n.networks {
                let mut i: usize = 0;
                while i < v.len()
                    invariant
                        i <= v.len(),
                        text::texts(out@) == network_ips(v@, i as int),
                    decreases v.len() - i,
                {
                    let ghost before = text::texts(out@);
                    match &v[i].1 {
                        Some(net) => push_unless_empty(&mut out, &net.ip),
                        None => {
                            assert(before + Seq::<Seq<char>>::empty() =~= before);
                        },
                    }
                    i += 1;
                }
            }
            push_unless_empty(&mut out, &n.ip);
        }
        assert(text::texts(out@) =~= reported_ips(*self));
        dedup(text::sort_strings(out))
    }
}

/// A container that does not run.
pub open spec fn skipped(item: ListItem) -> bool {
    match item.state {
        Some(s) => s@ == "exited"@ || s@ == "dead"@,
        None => false,
    }
}

fn list_skip(item: &ListItem) -> (r: bool)
    ensures
        r == skipped(*item),
{
    match &item.state {
        Some(s) => text::same_str(s.as_str(), "exited") || text::same_str(s.as_str(), "dead"),
        None => false,
    }
}

/// The ids of the first `n` containers that run.
pub open spec fn live_ids(list: Seq<ListItem>, n: int) -> Seq<Seq<char>>
    decreases n,
{
    if n <= 0 {
        Seq::empty()
    } else {
        let before = live_ids(list, n - 1);
        match normal_id(list[n - 1].id@) {
            Some(id) => if skipped(list[n - 1]) {
                before
            } else {
                before.push(id)
            },
            None => before,
        }
    }
}

/// The ids of the containers that run, in order, each once.
pub fn live_hex_ids(list: &[ListItem]) -> (r: Vec<String>)
    ensures
        text::texts(r@) == deduped(text::sorted_texts(live_ids(list@, list@.len() as int))),
{
    let mut ids: Vec<String> = Vec::new();
    assert(text::texts(ids@) =~= Seq::<Seq<char>>::empty());
    let mut i: usize = 0;
    while i < list.len()
        invariant
            i <= list.len(),
            text::texts(ids@) == live_ids(list@, i as int),
        decreases list.len() - i,
    {
        let item = &list[i];
        let ghost before = text::texts(ids@);
        if !list_skip(item) {
            if let Some(id) = normalized_id(item.id.as_str()) {
                let ghost iv = id@;
                ids.push(id);
                assert(text::texts(ids@) =~= before.push(iv));
            }
        }
        i += 1;
    }
    dedup(text::sort_strings(ids))
}

// ---------------------------------------------------------------------------
// What was asked before
// ---------------------------------------------------------------------------

/// The answers the daemon gave for the containers that run now.
#[derive(Debug)]
pub struct InspectCache {
    pub ids: Vec<String>,
    pub inspects: Table<Inspect>,
}

/// The ids among the first `n` without an answer.
pub open spec fn unanswered(
    ids: Seq<String>,
    answers: Map<Seq<char>, Inspect>,
    n: int,
) -> Seq<Seq<char>>
    decreases n,
{
    if n <= 0 {
        Seq::empty()
    } else if answers.dom().contains(ids[n - 1]@) {
        unanswered(ids, answers, n - 1)
    } else {
        unanswered(ids, answers, n - 1).push(ids[n - 1]@)
    }
}

impl InspectCache {
    pub fn new() -> (r: Self)
        ensures
            r.ids@.len() == 0,
            r.inspects@ == Map::<Seq<char>, Inspect>::empty(),
    {
        InspectCache { ids: Vec::new(), inspects: Table::new() }
    }

    /// Whether an answer is still owed.
    pub fn pending(&self) -> (r: bool)
        ensures
            r == exists|i: int|
                0 <= i < self.ids@.len() && !self.inspects@.dom().contains(
                    (#[trigger] self.ids@[i])@,
                ),
    {
        let mut i: usize = 0;
        while i < self.ids.len()
            invariant
                i <= self.ids@.len(),
                forall|k: int|
                    0 <= k < i ==> self.inspects@.dom().contains((#[trigger] self.ids@[k])@),
            decreases self.ids.len() - i,
        {
            if !self.inspects.has(self.ids[i].as_str()) {
                return true;
            }
            i += 1;
        }
        false
    }

    /// Takes note of the containers that run and says which of them to ask
    /// for. The answers are kept while the set of ids stays the same, so an
    /// answer for a container that is gone cannot linger and one that did not
    /// come is asked for again.
    pub fn refresh(&mut self, ids: Vec<String>) -> (missing: Vec<String>)
        ensures
            final(self).ids@ == ids@,
            final(self).inspects@ == if text::texts(old(self).ids@) == text::texts(ids@) {
                old(self).inspects@
            } else {
                Map::<Seq<char>, Inspect>::empty()
            },
            text::texts(missing@) == unanswered(ids@, final(self).inspects@, ids@.len() as int),
    {
        if !text::same_strings(&self.ids, &ids) {
            self.inspects = Table::new();
        }
        let mut missing: Vec<String> = Vec::new();
        assert(text::texts(missing@) =~= Seq::<Seq<char>>::empty());
        let mut i: usize = 0;
        while i < ids.len()
            invariant
                i <= ids.len(),
                text::texts(missing@) == unanswered(ids@, self.inspects@, i as int),
            decreases ids.len() - i,
        {
            if !self.inspects.has(ids[i].as_str()) {
                let ghost before = text::texts(missing@);
                missing.push(ids[i].clone());
                assert(text::texts(missing@) =~= before.push(ids@[i as int]@));
            }
            i += 1;
        }
        self.ids = ids;
        missing
    }

    /// Keeps the answer that came for an id.
    pub fn store(&mut self, id: String, answer: Inspect)
        ensures
            final(self).ids == old(self).ids,
            final(self).inspects@ == old(self).inspects@.insert(id@, answer),
    {
        self.inspects.insert(id, answer);
    }
}

// ---------------------------------------------------------------------------
// The index
// ---------------------------------------------------------------------------

/// What the library knows of one container.
#[derive(Debug)]
pub struct ContainerInfo {
    pub id: String,
    pub ident_key: String,
    pub member_name: Option<String>,
    pub owner_uid: Option<u32>,
    /// It has a network namespace of its own.
    pub own_netns: bool,
}

/// The same as text.
pub struct InfoView {
    pub id: Seq<char>,
    pub ident_key: Seq<char>,
    pub member_name: Option<Seq<char>>,
    pub owner_uid: Option<u32>,
    pub own_netns: bool,
}

impl View for ContainerInfo {
    type V = InfoView;

    open spec fn view(&self) -> InfoView {
        InfoView {
            id: self.id@,
            ident_key: self.ident_key@,
            member_name: text::opt_text(self.member_name),
            owner_uid: self.owner_uid,
            own_netns: self.own_netns,
        }
    }
}

/// The containers that run, by shortened id and by address.
#[derive(Debug)]
pub struct ContainerIndex {
    pub by_id: Table<ContainerInfo>,
    pub by_ip: Table<String>,
}

/// What an index holds.
pub struct IndexView {
    pub by_id: Map<Seq<char>, InfoView>,
    pub by_ip: Map<Seq<char>, Seq<char>>,
}

impl View for ContainerIndex {
    type V = IndexView;

    open spec fn view(&self) -> IndexView {
        IndexView {
            by_id: Map::new(
                |k: Seq<char>| self.by_id@.dom().contains(k),
                |k: Seq<char>| self.by_id@[k]@,
            ),
            by_ip: Map::new(
                |k: Seq<char>| self.by_ip@.dom().contains(k),
                |k: Seq<char>| self.by_ip@[k]@,
            ),
        }
    }
}

/// An index of nothing.
pub open spec fn no_containers() -> IndexView {
    IndexView { by_id: Map::empty(), by_ip: Map::empty() }
}

impl IndexView {
    /// The container an id stands for.
    pub open spec fn find(self, raw: Seq<char>) -> Option<InfoView> {
        match short_id(raw) {
            Some(k) => if self.by_id.dom().contains(k) {
                Some(self.by_id[k])
            } else {
                None
            },
            None => None,
        }
    }

    /// The container an address belongs to.
    pub open spec fn at_ip(self, ip: Seq<char>) -> Option<InfoView> {
        if self.by_ip.dom().contains(ip) {
            self.find(self.by_ip[ip])
        } else {
            None
        }
    }

    /// The container a process runs in or serves: the one its scope names, and
    /// no other where a scope names one; else the one a runtime helper's
    /// command line names; else the one whose address it is given.
    pub open spec fn of_process(self, p: Process, runtime: bool) -> Option<InfoView> {
        match identity::container_scope(p.cgroup@) {
            Some(id) => self.find(id),
            None => {
                let named = match helper_of(p, runtime) {
                    Some(id) => self.find(id),
                    None => None,
                };
                if named is Some {
                    named
                } else {
                    match classify::flag_value_from(
                        text::texts(p.cmdline@),
                        "-container-ip"@,
                        0,
                    ) {
                        Some(ip) => self.at_ip(ip),
                        None => None,
                    }
                }
            },
        }
    }

    /// The index with one more container.
    pub open spec fn with(self, info: InfoView, ips: Seq<Seq<char>>) -> IndexView {
        IndexView {
            by_id: match short_id(info.id) {
                Some(k) => self.by_id.insert(k, info),
                None => self.by_id,
            },
            by_ip: with_ips(self.by_ip, ips, info.id, ips.len() as int),
        }
    }
}

/// The first `n` addresses point to the id.
pub open spec fn with_ips(
    by_ip: Map<Seq<char>, Seq<char>>,
    ips: Seq<Seq<char>>,
    id: Seq<char>,
    n: int,
) -> Map<Seq<char>, Seq<char>>
    decreases n,
{
    if n <= 0 {
        by_ip
    } else {
        with_ips(by_ip, ips, id, n - 1).insert(ips[n - 1], id)
    }
}

/// The first argument at or after `i` that is an id.
pub open spec fn id_among(argv: Seq<Seq<char>>, i: int) -> Option<Seq<char>>
    decreases argv.len() - i,
{
    if i < 0 || i >= argv.len() {
        None
    } else if is_id(argv[i]) {
        normal_id(argv[i])
    } else {
        id_among(argv, i + 1)
    }
}

/// The container id a runtime helper names in its command line: what `-id` is
/// given, else the first argument that is an id.
pub open spec fn helper_of(p: Process, runtime: bool) -> Option<Seq<char>> {
    let argv = text::texts(p.cmdline@);
    if !runtime {
        None
    } else {
        match classify::flag_value_from(argv, "-id"@, 0) {
            Some(id) => normal_id(id),
            None => id_among(argv, 0),
        }
    }
}

pub fn helper_id(p: &Process, runtime: bool) -> (r: Option<String>)
    ensures
        text::opt_text(r) == helper_of(*p, runtime),
{
    if !runtime {
        return None;
    }
    if let Some(id) = classify::cmdline_flag_value(p.cmdline.as_slice(), "-id") {
        return normalized_id(id);
    }
    let ghost argv = text::texts(p.cmdline@);
    let mut i: usize = 0;
    while i < p.cmdline.len()
        invariant
            i <= p.cmdline.len(),
            runtime,
            argv == text::texts(p.cmdline@),
            classify::flag_value_from(argv, "-id"@, 0) is None,
            id_among(argv, 0) == id_among(argv, i as int),
        decreases p.cmdline.len() - i,
    {
        assert(argv[i as int] == p.cmdline@[i as int]@);
        if let Some(id) = normalized_id(p.cmdline[i].as_str()) {
            return Some(id);
        }
        i += 1;
    }
    None
}

/// The label's value.
pub open spec fn label(labels: Option<Table<String>>, key: Seq<char>) -> Option<Seq<char>> {
    match labels {
        Some(t) => if t@.dom().contains(key) {
            Some(t@[key]@)
        } else {
            None
        },
        None => None,
    }
}

fn label_value<'a>(labels: &'a Option<Table<String>>, key: &str) -> (r: Option<&'a str>)
    ensures
        text::opt_str(r) == label(*labels, key@),
{
    match labels {
        Some(t) => match t.get(key) {
            Some(v) => Some(v.as_str()),
            None => None,
        },
        None => None,
    }
}

/// The project in `supabase_<service>_<project>`.
pub open spec fn supabase_project(name: Seq<char>) -> Option<Seq<char>> {
    let rest = text::rest_from(name, "supabase_"@.len() as int);
    if text::has_prefix(name, "supabase_"@) && text::before_last(rest, '_') is Some
        && text::after_last(rest, '_').len() > 0 {
        Some(text::after_last(rest, '_'))
    } else {
        None
    }
}

pub fn supabase_project_from_name(name: &str) -> (r: Option<&str>)
    ensures
        text::opt_str(r) == supabase_project(name@),
{
    match text::str_strip_prefix(name, "supabase_") {
        Some(rest) => {
            if text::str_before_last(rest, '_').is_none() {
                return None;
            }
            let project = text::str_after_last(rest, '_');
            if project.is_empty() {
                None
            } else {
                Some(project)
            }
        },
        None => None,
    }
}

/// The row a container bills to and, where that is a project's, the name it
/// has there: a Supabase project by label, by name, a Compose project, else
/// the container itself.
pub open spec fn project_of(
    name: Seq<char>,
    labels: Option<Table<String>>,
) -> (Seq<char>, Option<Seq<char>>) {
    if let Some(p) = label(labels, "com.supabase.cli.project"@) {
        ("supabase:"@ + p, Some(name))
    } else if let Some(p) = supabase_project(name) {
        ("supabase:"@ + p, Some(name))
    } else if let Some(p) = label(labels, "com.docker.compose.project"@) {
        (p, Some(name))
    } else {
        (name, None)
    }
}

pub fn project_identity(name: &str, labels: &Option<Table<String>>) -> (r: (String, Option<String>))
    ensures
        (r.0@, text::opt_text(r.1)) == project_of(name@, *labels),
{
    if let Some(p) = label_value(labels, "com.supabase.cli.project") {
        return (text::joined("supabase:", p), Some(name.to_owned()));
    }
    if let Some(p) = supabase_project_from_name(name) {
        return (text::joined("supabase:", p), Some(name.to_owned()));
    }
    if let Some(p) = label_value(labels, "com.docker.compose.project") {
        return (p.to_owned(), Some(name.to_owned()));
    }
    (name.to_owned(), None)
}

/// `s` without the slashes it starts with.
pub open spec fn without_slashes(s: Seq<char>) -> Seq<char>
    decreases s.len(),
{
    if s.len() > 0 && s[0] == '/' {
        without_slashes(s.drop_first())
    } else {
        s
    }
}

fn trim_slashes(s: &str) -> (r: &str)
    ensures
        r@ == without_slashes(s@),
{
    let v = text::chars_of(s);
    let mut i: usize = 0;
    assert(text::rest_from(s@, 0) =~= s@);
    while i < v.len() && v[i] == '/'
        invariant
            i <= v.len(),
            v@ == s@,
            without_slashes(s@) == without_slashes(text::rest_from(s@, i as int)),
        decreases v.len() - i,
    {
        assert(text::rest_from(s@, i as int)[0] == '/');
        assert(text::rest_from(s@, i as int).drop_first() =~= text::rest_from(s@, i + 1));
        i += 1;
    }
    proof {
        if i < v.len() {
            assert(text::rest_from(s@, i as int)[0] == s@[i as int]);
        }
    }
    s.substring_char(i, v.len())
}

/// What a container is called: its first name without the slash, else the
/// title its id gives.
pub open spec fn name_of_item(item: ListItem, id: Seq<char>) -> Seq<char> {
    if item.names@.len() > 0 && without_slashes(item.names@[0]@).len() > 0 {
        without_slashes(item.names@[0]@)
    } else {
        title_of_id(id)
    }
}

/// The directory a container's project lives in, by its labels.
pub open spec fn workdir_of(item: ListItem) -> Option<Seq<char>> {
    match label(item.labels, "com.supabase.cli.workdir"@) {
        Some(d) => Some(d),
        None => label(item.labels, "com.docker.compose.project.working_dir"@),
    }
}

/// The path behind a bind mount.
pub open spec fn bind_source(m: Mount) -> Option<Seq<char>> {
    if text::opt_text(m.kind) == Some("bind"@) {
        text::opt_text(m.source)
    } else {
        None
    }
}

/// The owner of a path, where it is known.
pub open spec fn owner_at(owners: Map<Seq<char>, u32>, path: Option<Seq<char>>) -> Option<u32> {
    match path {
        Some(p) => if owners.dom().contains(p) {
            Some(owners[p])
        } else {
            None
        },
        None => None,
    }
}

/// The first owner other than root of a bind mount at or after the `i`th. A
/// path of root's says nothing of who owns the container.
pub open spec fn mount_owner(
    mounts: Seq<Mount>,
    owners: Map<Seq<char>, u32>,
    i: int,
) -> Option<u32>
    decreases mounts.len() - i,
{
    if i < 0 || i >= mounts.len() {
        None
    } else {
        match owner_at(owners, bind_source(mounts[i])) {
            Some(uid) => if uid != 0 {
                Some(uid)
            } else {
                mount_owner(mounts, owners, i + 1)
            },
            None => mount_owner(mounts, owners, i + 1),
        }
    }
}

/// Who a container belongs to: the uid a rule pins it to, else the owner of
/// its project's directory, else the owner of what it mounts.
pub open spec fn owner_of_item(
    item: ListItem,
    name: Seq<char>,
    inspect: Option<Inspect>,
    owners: Map<Seq<char>, u32>,
    rules: Rules,
) -> Option<u32> {
    if let Some(uid) = rules.container_owner_spec(name) {
        Some(uid)
    } else if let Some(uid) = owner_at(owners, workdir_of(item)) {
        Some(uid)
    } else {
        match inspect {
            Some(i) => mount_owner(i.mounts@, owners, 0),
            None => None,
        }
    }
}

/// The container runs, unless the daemon says that it does not.
pub open spec fn runs(inspect: Option<Inspect>) -> bool {
    match inspect {
        Some(i) => match i.state {
            Some(s) => s.running != Some(false),
            None => true,
        },
        None => true,
    }
}

/// What is known of a container of the list; nothing where its id is none or
/// it does not run.
pub open spec fn resolved(
    item: ListItem,
    inspect: Option<Inspect>,
    owners: Map<Seq<char>, u32>,
    rules: Rules,
) -> Option<InfoView> {
    match normal_id(item.id@) {
        Some(id) => if runs(inspect) {
            let name = name_of_item(item, id);
            let (ident_key, member_name) = project_of(name, item.labels);
            Some(
                InfoView {
                    id,
                    ident_key,
                    member_name,
                    owner_uid: owner_of_item(item, name, inspect, owners, rules),
                    own_netns: match inspect {
                        Some(i) => has_own_netns(i),
                        None => false,
                    },
                },
            )
        } else {
            None
        },
        None => None,
    }
}

pub open spec fn ips_of(inspect: Option<Inspect>) -> Seq<Seq<char>> {
    match inspect {
        Some(i) => deduped(text::sorted_texts(reported_ips(i))),
        None => Seq::empty(),
    }
}

/// The answer that belongs to a container of the list.
pub open spec fn answer_for(item: ListItem, answers: Map<Seq<char>, Inspect>) -> Option<Inspect> {
    match normal_id(item.id@) {
        Some(id) => if answers.dom().contains(id) {
            Some(answers[id])
        } else {
            None
        },
        None => None,
    }
}

/// The index over the first `n` containers of a list.
pub open spec fn index_of(
    items: Seq<ListItem>,
    answers: Map<Seq<char>, Inspect>,
    owners: Map<Seq<char>, u32>,
    rules: Rules,
    n: int,
) -> IndexView
    decreases n,
{
    if n <= 0 {
        no_containers()
    } else {
        let before = index_of(items, answers, owners, rules, n - 1);
        let inspect = answer_for(items[n - 1], answers);
        if skipped(items[n - 1]) {
            before
        } else {
            match resolved(items[n - 1], inspect, owners, rules) {
                Some(info) => before.with(info, ips_of(inspect)),
                None => before,
            }
        }
    }
}

/// The same optional container, by reference and as text.
pub open spec fn opt_info(r: Option<&ContainerInfo>) -> Option<InfoView> {
    match r {
        Some(i) => Some(i@),
        None => None,
    }
}

fn owner_at_path(owners: &Table<u32>, path: Option<&str>) -> (r: Option<u32>)
    ensures
        r == owner_at(owners@, text::opt_str(path)),
{
    match path {
        Some(p) => match owners.get(p) {
            Some(uid) => Some(*uid),
            None => None,
        },
        None => None,
    }
}

fn bind_path(m: &Mount) -> (r: Option<&str>)
    ensures
        text::opt_str(r) == bind_source(*m),
{
    match &m.kind {
        Some(k) => if text::same_str(k.as_str(), "bind") {
            text::opt_borrow(&m.source)
        } else {
            None
        },
        None => None,
    }
}

fn find_mount_owner(mounts: &Vec<Mount>, owners: &Table<u32>) -> (r: Option<u32>)
    ensures
        r == mount_owner(mounts@, owners@, 0),
{
    let mut i: usize = 0;
    while i < mounts.len()
        invariant
            i <= mounts.len(),
            mount_owner(mounts@, owners@, 0) == mount_owner(mounts@, owners@, i as int),
        decreases mounts.len() - i,
    {
        if let Some(uid) = owner_at_path(owners, bind_path(&mounts[i])) {
            if uid != 0 {
                return Some(uid);
            }
        }
        i += 1;
    }
    None
}

fn item_workdir(item: &ListItem) -> (r: Option<&str>)
    ensures
        text::opt_str(r) == workdir_of(*item),
{
    match label_value(&item.labels, "com.supabase.cli.workdir") {
        Some(d) => Some(d),
        None => label_value(&item.labels, "com.docker.compose.project.working_dir"),
    }
}

fn item_name(item: &ListItem, id: &str) -> (r: String)
    ensures
        r@ == name_of_item(*item, id@),
{
    if item.names.len() > 0 {
        let n = trim_slashes(item.names[0].as_str());
        if !n.is_empty() {
            return n.to_owned();
        }
    }
    docker_title(id)
}

fn item_owner(
    item: &ListItem,
    name: &str,
    inspect: Option<&Inspect>,
    owners: &Table<u32>,
    rules: &Rules,
) -> (r: Option<u32>)
    ensures
        r == owner_of_item(
            *item,
            name@,
            match inspect {
                Some(i) => Some(*i),
                None => None,
            },
            owners@,
            *rules,
        ),
{
    if let Some(uid) = rules.container_owner(name) {
        return Some(uid);
    }
    if let Some(uid) = owner_at_path(owners, item_workdir(item)) {
        return Some(uid);
    }
    match inspect {
        Some(i) => find_mount_owner(&i.mounts, owners),
        None => None,
    }
}

// ---------------------------------------------------------------------------
// The paths whose owner counts
// ---------------------------------------------------------------------------

/// `v` and a path, where there is one.
pub open spec fn with_path(v: Seq<Seq<char>>, path: Option<Seq<char>>) -> Seq<Seq<char>> {
    match path {
        Some(p) => v.push(p),
        None => v,
    }
}

/// `v` and the paths behind the first `n` mounts.
pub open spec fn with_mounts(v: Seq<Seq<char>>, mounts: Seq<Mount>, n: int) -> Seq<Seq<char>>
    decreases n,
{
    if n <= 0 {
        v
    } else {
        with_path(with_mounts(v, mounts, n - 1), bind_source(mounts[n - 1]))
    }
}

/// The paths that say who owns one of the first `n` containers: of each the
/// directory of its project, and what it mounts.
pub open spec fn paths_of(
    items: Seq<ListItem>,
    answers: Map<Seq<char>, Inspect>,
    n: int,
) -> Seq<Seq<char>>
    decreases n,
{
    if n <= 0 {
        Seq::empty()
    } else {
        let before = paths_of(items, answers, n - 1);
        let item = items[n - 1];
        if skipped(item) {
            before
        } else {
            let v = with_path(before, workdir_of(item));
            match answer_for(item, answers) {
                Some(i) => with_mounts(v, i.mounts@, i.mounts@.len() as int),
                None => v,
            }
        }
    }
}

fn push_path(out: &mut Vec<String>, path: Option<&str>)
    ensures
        text::texts(final(out)@) == with_path(text::texts(old(out)@), text::opt_str(path)),
{
    let ghost before = text::texts(out@);
    if let Some(p) = path {
        out.push(p.to_owned());
        assert(text::texts(out@) =~= before.push(p@));
    }
}

/// The paths whose owner has to be looked up for the index of a list.
pub fn owned_paths(items: &[ListItem], inspects: &Table<Inspect>) -> (r: Vec<String>)
    ensures
        text::texts(r@) == paths_of(items@, inspects@, items@.len() as int),
{
    let mut out: Vec<String> = Vec::new();
    let mut i: usize = 0;
    assert(text::texts(out@) =~= Seq::empty());
    while i < items.len()
        invariant
            i <= items.len(),
            text::texts(out@) == paths_of(items@, inspects@, i as int),
        decreases items.len() - i,
    {
        let item = &items[i];
        if !list_skip(item) {
            push_path(&mut out, item_workdir(item));
            let inspect = match normalized_id(item.id.as_str()) {
                Some(id) => inspects.get(id.as_str()),
                None => None,
            };
            if let Some(answer) = inspect {
                let ghost start = text::texts(out@);
                let mut k: usize = 0;
                while k < answer.mounts.len()
                    invariant
                        k <= answer.mounts.len(),
                        text::texts(out@) == with_mounts(start, answer.mounts@, k as int),
                    decreases answer.mounts.len() - k,
                {
                    push_path(&mut out, bind_path(&answer.mounts[k]));
                    k += 1;
                }
            }
        }
        i += 1;
    }
    out
}

/// Two tables say the same of these paths.
pub open spec fn agree(
    a: Map<Seq<char>, u32>,
    b: Map<Seq<char>, u32>,
    paths: Seq<Seq<char>>,
) -> bool {
    forall|p: Seq<char>| #[trigger]
        paths.contains(p) ==> owner_at(a, Some(p)) == owner_at(b, Some(p))
}

proof fn lemma_with_path(v: Seq<Seq<char>>, path: Option<Seq<char>>)
    ensures
        forall|p: Seq<char>| v.contains(p) ==> #[trigger] with_path(v, path).contains(p),
        path matches Some(p) ==> with_path(v, path).contains(p),
{
    if let Some(q) = path {
        let w = v.push(q);
        assert(w.last() == q);
        assert forall|p: Seq<char>| v.contains(p) implies #[trigger] w.contains(p) by {
            let k = v.index_of(p);
            assert(w[k] == p);
        }
    }
}

proof fn lemma_with_mounts(v: Seq<Seq<char>>, mounts: Seq<Mount>, n: int)
    requires
        0 <= n <= mounts.len(),
    ensures
        forall|p: Seq<char>| v.contains(p) ==> #[trigger] with_mounts(v, mounts, n).contains(p),
        forall|k: int|
            0 <= k < n ==> (bind_source(#[trigger] mounts[k]) matches Some(p) ==> with_mounts(
                v,
                mounts,
                n,
            ).contains(p)),
    decreases n,
{
    if n > 0 {
        lemma_with_mounts(v, mounts, n - 1);
        lemma_with_path(with_mounts(v, mounts, n - 1), bind_source(mounts[n - 1]));
    }
}

proof fn lemma_mount_owner_agrees(
    mounts: Seq<Mount>,
    a: Map<Seq<char>, u32>,
    b: Map<Seq<char>, u32>,
    paths: Seq<Seq<char>>,
    i: int,
)
    requires
        agree(a, b, paths),
        forall|k: int|
            0 <= k < mounts.len() ==> (bind_source(#[trigger] mounts[k]) matches Some(p)
                ==> paths.contains(p)),
    ensures
        mount_owner(mounts, a, i) == mount_owner(mounts, b, i),
    decreases mounts.len() - i,
{
    if 0 <= i < mounts.len() {
        assert(owner_at(a, bind_source(mounts[i])) == owner_at(b, bind_source(mounts[i])));
        lemma_mount_owner_agrees(mounts, a, b, paths, i + 1);
    }
}

/// Only the paths that `owned_paths` lists say whose a container is: whoever
/// owns any other, the index is the same.
pub proof fn law_only_listed_paths_say_who_owns(
    items: Seq<ListItem>,
    answers: Map<Seq<char>, Inspect>,
    a: Map<Seq<char>, u32>,
    b: Map<Seq<char>, u32>,
    rules: Rules,
    n: int,
)
    requires
        0 <= n <= items.len(),
        agree(a, b, paths_of(items, answers, n)),
    ensures
        index_of(items, answers, a, rules, n) == index_of(items, answers, b, rules, n),
    decreases n,
{
    if n > 0 {
        let item = items[n - 1];
        let before = paths_of(items, answers, n - 1);
        let all = paths_of(items, answers, n);
        let answer = answer_for(item, answers);
        let v = with_path(before, workdir_of(item));
        lemma_with_path(before, workdir_of(item));
        if let Some(i) = answer {
            lemma_with_mounts(v, i.mounts@, i.mounts@.len() as int);
        }
        assert forall|p: Seq<char>| #[trigger] before.contains(p) implies owner_at(a, Some(p))
            == owner_at(b, Some(p)) by {
            assert(v.contains(p));
            assert(all.contains(p));
        }
        law_only_listed_paths_say_who_owns(items, answers, a, b, rules, n - 1);
        if !skipped(item) {
            if let Some(d) = workdir_of(item) {
                assert(v.contains(d));
                assert(all.contains(d));
            }
            if let Some(i) = answer {
                lemma_mount_owner_agrees(i.mounts@, a, b, all, 0);
            }
        }
    }
}

impl ContainerIndex {
    pub fn new() -> (r: Self)
        ensures
            r@ == no_containers(),
    {
        let r = ContainerIndex { by_id: Table::new(), by_ip: Table::new() };
        assert(r@.by_id =~= no_containers().by_id);
        assert(r@.by_ip =~= no_containers().by_ip);
        r
    }

    /// The index over a container list. `owners` says who owns the paths that
    /// the containers name.
    #[must_use]
    pub fn from_list(
        items: &[ListItem],
        inspects: &Table<Inspect>,
        owners: &Table<u32>,
        rules: &Rules,
    ) -> (r: Self)
        ensures
            r@ == index_of(items@, inspects@, owners@, *rules, items@.len() as int),
    {
        let mut idx = Self::new();
        let mut i: usize = 0;
        while i < items.len()
            invariant
                i <= items.len(),
                idx@ == index_of(items@, inspects@, owners@, *rules, i as int),
            decreases items.len() - i,
        {
            let item = &items[i];
            if !list_skip(item) {
                let inspect = match normalized_id(item.id.as_str()) {
                    Some(id) => inspects.get(id.as_str()),
                    None => None,
                };
                idx.insert_resolved(item, inspect, owners, rules);
            }
            i += 1;
        }
        idx
    }

    fn insert_resolved(
        &mut self,
        item: &ListItem,
        inspect: Option<&Inspect>,
        owners: &Table<u32>,
        rules: &Rules,
    )
        ensures
            ({
                let answer = match inspect {
                    Some(i) => Some(*i),
                    None => None,
                };
                match resolved(*item, answer, owners@, *rules) {
                    Some(info) => final(self)@ == old(self)@.with(info, ips_of(answer)),
                    None => final(self)@ == old(self)@,
                }
            }),
    {
        let ghost answer = match inspect {
            Some(i) => Some(*i),
            None => None,
        };
        let id = match normalized_id(item.id.as_str()) {
            Some(id) => id,
            None => return ,
        };
        let running = match inspect {
            Some(i) => match &i.state {
                Some(s) => match s.running {
                    Some(b) => b,
                    None => true,
                },
                None => true,
            },
            None => true,
        };
        if !running {
            return ;
        }
        let name = item_name(item, id.as_str());
        let (ident_key, member_name) = project_identity(name.as_str(), &item.labels);
        let info = ContainerInfo {
            ident_key,
            member_name,
            owner_uid: item_owner(item, name.as_str(), inspect, owners, rules),
            own_netns: match inspect {
                Some(i) => i.owns_netns(),
                None => false,
            },
            id,
        };
        let ghost iv = info@;
        assert(resolved(*item, answer, owners@, *rules) == Some(iv));
        let ips = match inspect {
            Some(i) => i.ips(),
            None => Vec::new(),
        };
        let ghost ipv = text::texts(ips@);
        assert(ipv =~= ips_of(answer));
        let ghost start = self@;
        let mut k: usize = 0;
        while k < ips.len()
            invariant
                k <= ips.len(),
                ipv == text::texts(ips@),
                info@ == iv,
                self@.by_id == start.by_id,
                self@.by_ip == with_ips(start.by_ip, ipv, iv.id, k as int),
            decreases ips.len() - k,
        {
            let ghost before = self@;
            self.by_ip.insert(ips[k].clone(), info.id.clone());
            proof {
                assert(ipv[k as int] == ips@[k as int]@);
                assert(self@.by_id =~= before.by_id);
                assert(self@.by_ip =~= before.by_ip.insert(ipv[k as int], iv.id));
            }
            k += 1;
        }
        let ghost mid = self@;
        if let Some(key) = id_key(info.id.as_str()) {
            let ghost kv = key@;
            self.by_id.insert(key, info);
            assert(self@.by_id =~= mid.by_id.insert(kv, iv));
            assert(self@.by_ip =~= mid.by_ip);
        }
        assert(self@ == start.with(iv, ipv));
    }

    pub fn get(&self, raw: &str) -> (r: Option<&ContainerInfo>)
        ensures
            opt_info(r) == self@.find(raw@),
    {
        match id_key(raw) {
            Some(k) => self.by_id.get(k.as_str()),
            None => None,
        }
    }

    pub fn by_ip(&self, ip: &str) -> (r: Option<&ContainerInfo>)
        ensures
            opt_info(r) == self@.at_ip(ip@),
    {
        match self.by_ip.get(ip) {
            Some(id) => self.get(id.as_str()),
            None => None,
        }
    }

    pub fn lookup_process(&self, p: &Process, runtime: bool) -> (r: Option<&ContainerInfo>)
        ensures
            opt_info(r) == self@.of_process(*p, runtime),
    {
        if let Some(id) = identity::docker_scope_id(p.cgroup.as_str()) {
            return self.get(id.as_str());
        }
        if let Some(id) = helper_id(p, runtime) {
            if let Some(info) = self.get(id.as_str()) {
                return Some(info);
            }
        }
        match classify::cmdline_flag_value(p.cmdline.as_slice(), "-container-ip") {
            Some(ip) => self.by_ip(ip),
            None => None,
        }
    }
}

// ---------------------------------------------------------------------------
// Talking to the daemon
// ---------------------------------------------------------------------------

/// A character that would break a request line.
pub open spec fn breaks_request(c: char) -> bool {
    c == '\r' || c == '\n' || c == '\0' || c == ' '
}

/// The paths that are asked for: the list, and one container by its id.
pub open spec fn askable(path: Seq<char>) -> bool {
    let (head, tail) = ("/containers/"@, "/json"@);
    &&& forall|i: int| 0 <= i < path.len() ==> !breaks_request(#[trigger] path[i])
    &&& path == "/containers/json"@ || (path.len() >= head.len() + tail.len() && text::has_prefix(
        path,
        head,
    ) && text::has_suffix(path, tail) && is_id(
        path.subrange(head.len() as int, path.len() - tail.len()),
    ))
}

pub fn docker_get_path(path: &str) -> (r: bool)
    ensures
        r == askable(path@),
{
    let v = text::chars_of(path);
    let mut i: usize = 0;
    while i < v.len()
        invariant
            i <= v.len(),
            v@ == path@,
            forall|j: int| 0 <= j < i ==> !breaks_request(#[trigger] path@[j]),
        decreases v.len() - i,
    {
        let c = v[i];
        if c == '\r' || c == '\n' || c == '\0' || c == ' ' {
            assert(breaks_request(path@[i as int]));
            return false;
        }
        i += 1;
    }
    if text::same_str(path, "/containers/json") {
        return true;
    }
    let head = text::chars_of("/containers/");
    let tail = text::chars_of("/json");
    let (h, t): (usize, usize) = (head.len(), tail.len());
    if v.len() < h || v.len() - h < t || !text::prefixed(v.as_slice(), head.as_slice())
        || !text::suffixed(v.as_slice(), tail.as_slice()) {
        return false;
    }
    hex_id(path.substring_char(h, v.len() - t))
}

/// The request for a path.
pub open spec fn request_text(path: Seq<char>) -> Seq<char> {
    "GET "@ + path + " HTTP/1.0\r\nHost: localhost\r\n\r\n"@
}

/// The request for a path that is asked for; none for any other.
pub fn docker_request(path: &str) -> (r: Option<String>)
    ensures
        text::opt_text(r) == if askable(path@) {
            Some(request_text(path@))
        } else {
            None
        },
{
    if !docker_get_path(path) {
        return None;
    }
    let mut out = "GET ".to_owned();
    out.append(path);
    out.append(" HTTP/1.0\r\nHost: localhost\r\n\r\n");
    Some(out)
}

/// The index of the first space at or after `i`; the length when there is none.
pub open spec fn space_from(b: Seq<u8>, i: int) -> int
    decreases b.len() - i,
{
    if i < 0 || i >= b.len() {
        b.len() as int
    } else if b[i] == 32 {
        i
    } else {
        space_from(b, i + 1)
    }
}

/// A byte that is an ASCII digit.
pub open spec fn digit_byte(b: u8) -> bool {
    48 <= b <= 57
}

/// The second word of a status line starts with a 2 and two digits more.
pub open spec fn is_success(head: Seq<u8>) -> bool {
    let a = space_from(head, 0);
    let b = space_from(head, a + 1);
    a < head.len() && b - (a + 1) >= 3 && head[a + 1] == 50 && digit_byte(head[a + 2]) && digit_byte(
        head[a + 3],
    )
}

fn find_space(b: &[u8], from: usize) -> (r: usize)
    requires
        from <= b@.len(),
    ensures
        r == space_from(b@, from as int),
        from <= r <= b@.len(),
{
    let mut i: usize = from;
    while i < b.len()
        invariant
            from <= i <= b@.len(),
            space_from(b@, from as int) == space_from(b@, i as int),
        decreases b.len() - i,
    {
        if b[i] == 32 {
            return i;
        }
        i += 1;
    }
    i
}

pub fn http_2xx(head: &[u8]) -> (r: bool)
    ensures
        r == is_success(head@),
{
    let a: usize = find_space(head, 0);
    if a >= head.len() {
        return false;
    }
    let b: usize = find_space(head, a + 1);
    b - (a + 1) >= 3 && head[a + 1] == 50 && 48 <= head[a + 2] && head[a + 2] <= 57 && 48 <= head[a
        + 3] && head[a + 3] <= 57
}

/// The blank line that ends a response's head stands at `i`.
pub open spec fn head_ends_at(b: Seq<u8>, i: int) -> bool {
    0 <= i && i + 4 <= b.len() && b[i] == 13 && b[i + 1] == 10 && b[i + 2] == 13 && b[i + 3] == 10
}

/// The first place at or after `i` where a response's head ends.
pub open spec fn head_end(b: Seq<u8>, i: int) -> Option<int>
    decreases b.len() - i,
{
    if i < 0 || i >= b.len() {
        None
    } else if head_ends_at(b, i) {
        Some(i)
    } else {
        head_end(b, i + 1)
    }
}

/// The most a response may hold.
pub const MAX_RESPONSE: usize = 4194304;

/// Whether a response of `len` bytes is more than is read.
pub fn too_large(len: usize) -> (r: bool)
    ensures
        r == (len > MAX_RESPONSE),
{
    len > MAX_RESPONSE
}

/// The body of a response that succeeded; what is wrong with any other.
pub fn response_body(buf: &[u8]) -> (r: Result<Vec<u8>, &'static str>)
    ensures
        match head_end(buf@, 0) {
            None => r matches Err(e) && e@ == "short docker response"@,
            Some(i) => if is_success(buf@.subrange(0, i)) {
                r matches Ok(body) && body@ == buf@.subrange(i + 4, buf@.len() as int)
            } else {
                r matches Err(e) && e@ == "docker HTTP error"@
            },
        },
{
    let mut i: usize = 0;
    while i < buf.len()
        invariant
            i <= buf@.len(),
            head_end(buf@, 0) == head_end(buf@, i as int),
        decreases buf.len() - i,
    {
        if buf.len() - i >= 4 && buf[i] == 13 && buf[i + 1] == 10 && buf[i + 2] == 13 && buf[i + 3]
            == 10 {
            let head = vstd::slice::slice_subrange(buf, 0, i);
            if !http_2xx(head) {
                return Err("docker HTTP error");
            }
            let body = vstd::slice::slice_subrange(buf, i + 4, buf.len());
            return Ok(vstd::slice::slice_to_vec(body));
        }
        i += 1;
    }
    Err("short docker response")
}

/// The sockets to try, in order: the one the environment names, Docker's, the
/// user's Podman, the system's Podman.
pub open spec fn sockets(host: Option<Seq<char>>, euid: u32) -> Seq<Seq<char>> {
    let named = match host {
        Some(h) => if text::has_prefix(h, "unix://"@) {
            seq![text::rest_from(h, "unix://"@.len() as int)]
        } else {
            Seq::empty()
        },
        None => Seq::empty(),
    };
    named + seq![
        "/var/run/docker.sock"@,
        "/run/user/"@ + text::decimal(euid as nat) + "/podman/podman.sock"@,
        "/run/podman/podman.sock"@,
    ]
}

pub fn docker_sockets(host: Option<&str>, euid: u32) -> (r: Vec<String>)
    ensures
        text::texts(r@) == sockets(text::opt_str(host), euid),
{
    let mut out: Vec<String> = Vec::new();
    if let Some(h) = host {
        if let Some(path) = text::str_strip_prefix(h, "unix://") {
            out.push(path.to_owned());
        }
    }
    out.push("/var/run/docker.sock".to_owned());
    let mut user = "/run/user/".to_owned();
    text::push_decimal(&mut user, euid as u64);
    user.append("/podman/podman.sock");
    out.push(user);
    out.push("/run/podman/podman.sock".to_owned());
    assert(text::texts(out@) =~= sockets(text::opt_str(host), euid));
    out
}

} // verus!
