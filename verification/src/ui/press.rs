//! How the table answers a key.
use vstd::prelude::*;

use crate::config;
use crate::text;
use crate::ui::columns;
use crate::ui::columns::{Column, Head};
use crate::ui::filter;
use crate::ui::filter::Filter;
use crate::ui::rows;
use crate::ui::rows::{Flat, Line};

verus! {

/// A key of the terminal.
#[derive(Clone, Copy, Debug, PartialEq, Eq, Structural)]
pub enum Key {
    Char(char),
    F(u8),
    Esc,
    Enter,
    Backspace,
    Up,
    Down,
    Left,
    Right,
    PageUp,
    PageDown,
    Home,
    End,
    Other,
}

/// What was held down with it. Shift is none: a capital is how one is typed.
#[derive(Clone, Copy, Debug, PartialEq, Eq, Structural)]
pub struct Held {
    pub control: bool,
    pub alt: bool,
    pub meta: bool,
}

/// What is left to do outside the table.
#[derive(Clone, Copy, Debug, PartialEq, Eq, Structural)]
pub enum Action {
    Stay,
    Quit,
    /// Write the view to its file.
    Save,
}

/// What the table remembers from one key to the next.
#[derive(Debug)]
pub struct App {
    pub cursor: usize,
    /// How many rows the screen has room for.
    pub row_vis: usize,
    /// The ids of the rows that are open.
    pub expand: Vec<String>,
    pub view: config::View,
    pub cols: Vec<Column>,
    pub filter_edit: bool,
    /// Whether the text of the filter is a pattern.
    pub filter_ok: bool,
    /// The last text that was one: a pattern is half-written for most of the
    /// keys that make it.
    pub filter_re: Option<Filter>,
    pub col_off: u16,
    pub status: String,
    pub help: bool,
    pub detail: bool,
    /// When the table was frozen.
    pub paused: Option<u64>,
}

/// The same as a value.
#[verifier::ext_equal]
pub struct Screen {
    pub cursor: usize,
    pub row_vis: usize,
    pub expand: Seq<Seq<char>>,
    pub sort: Seq<char>,
    pub desc: bool,
    pub filter: Seq<char>,
    pub hidden: Seq<Seq<char>>,
    pub order: Seq<Seq<char>>,
    pub users: Seq<u32>,
    pub top: Option<usize>,
    pub cols: Seq<Head>,
    pub filter_edit: bool,
    pub filter_ok: bool,
    pub filter_re: Option<Seq<char>>,
    pub col_off: u16,
    pub status: Seq<char>,
    pub help: bool,
    pub detail: bool,
    pub paused: Option<u64>,
}

impl vstd::view::View for App {
    type V = Screen;

    open spec fn view(&self) -> Screen {
        Screen {
            cursor: self.cursor,
            row_vis: self.row_vis,
            expand: text::texts(self.expand@),
            sort: self.view.sort@,
            desc: self.view.desc,
            filter: self.view.filter@,
            hidden: text::texts(self.view.hide_columns@),
            order: text::texts(self.view.column_order@),
            users: self.view.users@,
            top: self.view.top,
            cols: columns::heads(self.cols@),
            filter_edit: self.filter_edit,
            filter_ok: self.filter_ok,
            filter_re: filter::searched_by(self.filter_re),
            col_off: self.col_off,
            status: self.status@,
            help: self.help,
            detail: self.detail,
            paused: self.paused,
        }
    }
}

// ---------------------------------------------------------------------------
// Open rows
// ---------------------------------------------------------------------------

/// The first `n` ids without one.
pub open spec fn without_upto(v: Seq<Seq<char>>, id: Seq<char>, n: int) -> Seq<Seq<char>>
    decreases n,
{
    if n <= 0 {
        Seq::empty()
    } else if v[n - 1] == id {
        without_upto(v, id, n - 1)
    } else {
        without_upto(v, id, n - 1).push(v[n - 1])
    }
}

pub open spec fn without(v: Seq<Seq<char>>, id: Seq<char>) -> Seq<Seq<char>> {
    without_upto(v, id, v.len() as int)
}

proof fn lemma_without(v: Seq<Seq<char>>, id: Seq<char>, n: int, x: Seq<char>)
    requires
        0 <= n <= v.len(),
    ensures
        without_upto(v, id, n).contains(x) <==> x != id && v.take(n).contains(x),
    decreases n,
{
    if n > 0 {
        lemma_without(v, id, n - 1, x);
        let w = without_upto(v, id, n - 1);
        assert(v.take(n) =~= v.take(n - 1).push(v[n - 1]));
        if v.take(n - 1).contains(x) {
            let k = v.take(n - 1).index_of(x);
            assert(v.take(n)[k] == x);
        }
        if v[n - 1] == x {
            assert(v.take(n)[n - 1] == x);
        }
        if v[n - 1] != id {
            if w.contains(x) {
                let k = w.index_of(x);
                assert(w.push(v[n - 1])[k] == x);
            }
            if v[n - 1] == x {
                assert(w.push(v[n - 1])[w.len() as int] == x);
            }
        }
    }
}

/// Closing a row closes that one, and no other.
pub proof fn law_closing_a_row_leaves_the_others(
    v: Seq<Seq<char>>,
    id: Seq<char>,
    x: Seq<char>,
)
    ensures
        without(v, id).contains(x) <==> x != id && v.contains(x),
{
    lemma_without(v, id, v.len() as int, x);
    assert(v.take(v.len() as int) =~= v);
}

fn close(expand: &Vec<String>, id: &str) -> (r: Vec<String>)
    ensures
        text::texts(r@) == without(text::texts(expand@), id@),
{
    let ghost v = text::texts(expand@);
    let mut out: Vec<String> = Vec::new();
    let mut i: usize = 0;
    assert(text::texts(out@) =~= Seq::empty());
    while i < expand.len()
        invariant
            i <= expand@.len(),
            v == text::texts(expand@),
            text::texts(out@) == without_upto(v, id@, i as int),
        decreases expand.len() - i,
    {
        assert(v[i as int] == expand@[i as int]@);
        if !text::same_str(expand[i].as_str(), id) {
            let s = expand[i].clone();
            let ghost before = out@;
            out.push(s);
            assert(text::texts(out@) =~= text::texts(before).push(s@));
        }
        i += 1;
    }
    out
}

/// A row that is closed where it was open, and open where it was closed.
pub open spec fn toggled(v: Seq<Seq<char>>, id: Seq<char>) -> Seq<Seq<char>> {
    if v.contains(id) {
        without(v, id)
    } else {
        v.push(id)
    }
}

/// Whoever opens and closes a row has it as it was.
pub proof fn law_toggling_twice_changes_nothing(
    v: Seq<Seq<char>>,
    id: Seq<char>,
    x: Seq<char>,
)
    ensures
        toggled(v, id).contains(id) == !v.contains(id),
        toggled(toggled(v, id), id).contains(x) == v.contains(x),
{
    law_closing_a_row_leaves_the_others(v, id, id);
    law_closing_a_row_leaves_the_others(v, id, x);
    if v.contains(id) {
        let w = without(v, id);
        let p = w.push(id);
        if w.contains(x) {
            assert(p[w.index_of(x)] == x);
        }
        assert(p[w.len() as int] == id);
        if p.contains(x) {
            let k = p.index_of(x);
            if k < w.len() {
                assert(w[k] == x);
            }
        }
    } else {
        let p = v.push(id);
        assert(p[v.len() as int] == id);
        law_closing_a_row_leaves_the_others(p, id, x);
        if v.contains(x) {
            assert(p[v.index_of(x)] == x);
        }
        if p.contains(x) {
            let k = p.index_of(x);
            if k < v.len() {
                assert(v[k] == x);
            }
        }
    }
}

/// The rows that are open from the start: the machine, and of the one who
/// looks the applications and the containers.
pub open spec fn first_open(me: u32) -> Seq<Seq<char>> {
    seq![
        "host"@,
        rows::user_id(me),
        rows::user_id(me) + "/apps"@,
        rows::user_id(me) + "/containers"@,
    ]
}

pub fn default_expand(me: u32) -> (r: Vec<String>)
    ensures
        text::texts(r@) == first_open(me),
{
    let mut id = "user:".to_owned();
    text::push_decimal(&mut id, me as u64);
    let mut v: Vec<String> = Vec::new();
    v.push("host".to_owned());
    v.push(id.clone());
    v.push(text::joined(id.as_str(), "/apps"));
    v.push(text::joined(id.as_str(), "/containers"));
    assert(text::texts(v@) =~= first_open(me));
    v
}

// ---------------------------------------------------------------------------
// Keys
// ---------------------------------------------------------------------------

/// A key typed into the filter.
pub open spec fn typed(s: Screen, key: Key) -> Screen {
    match key {
        Key::Esc => Screen { filter_edit: false, filter: Seq::empty(), ..s },
        Key::Enter => Screen { filter_edit: false, ..s },
        Key::Backspace => Screen {
            filter: if s.filter.len() > 0 {
                s.filter.drop_last()
            } else {
                s.filter
            },
            ..s
        },
        Key::Char(c) => Screen { filter: s.filter.push(c), ..s },
        _ => s,
    }
}

/// The columns of a view, scrolled no further than to the last.
pub open spec fn recolumned(s: Screen, all: Seq<Head>) -> Screen {
    let cols = columns::arranged(all, s.order, s.hidden);
    let last = if cols.len() == 0 {
        0
    } else {
        cols.len() - 1
    };
    Screen {
        cols,
        col_off: if s.col_off > last {
            last as u16
        } else {
            s.col_off
        },
        ..s
    }
}

/// The sort column hidden, and the next one sorted by.
pub open spec fn hidden_sort(s: Screen, all: Seq<Head>) -> Screen {
    let label = s.sort;
    if label == "name"@ {
        Screen { status: "name cannot be hidden"@, ..s }
    } else {
        let hidden = if s.hidden.contains(label) {
            s.hidden
        } else {
            s.hidden.push(label)
        };
        let t = recolumned(Screen { hidden, ..s }, all);
        Screen {
            sort: if columns::head_at(t.cols, label, 0) is None {
                columns::next_sort_of(s.cols, label)
            } else {
                label
            },
            status: "hidden "@ + label,
            ..t
        }
    }
}

/// The column that was hidden last shown again.
pub open spec fn shown_again(s: Screen, all: Seq<Head>) -> Screen {
    if s.hidden.len() == 0 {
        s
    } else {
        let t = recolumned(Screen { hidden: s.hidden.drop_last(), ..s }, all);
        Screen { status: "shown "@ + s.hidden.last(), ..t }
    }
}

/// One screenful.
pub open spec fn page(s: Screen) -> int {
    if s.row_vis == 0 {
        1
    } else {
        s.row_vis as int
    }
}

/// The cursor moved to a row, no further than the last.
pub open spec fn moved(s: Screen, to: int, n: nat) -> Screen {
    let last = if n == 0 {
        0
    } else {
        n - 1
    };
    Screen {
        cursor: (if to < 0 {
            0
        } else if to > last {
            last
        } else {
            to
        }) as usize,
        ..s
    }
}

/// A key that moves the cursor.
pub open spec fn stepped(s: Screen, key: Key, v: Seq<Line>) -> Screen {
    let n = v.len();
    match key {
        Key::Up => Screen {
            cursor: if s.cursor > 0 {
                (s.cursor - 1) as usize
            } else {
                0
            },
            ..s
        },
        Key::Down => if s.cursor + 1 < n {
            Screen { cursor: (s.cursor + 1) as usize, ..s }
        } else {
            s
        },
        Key::PageUp => Screen {
            cursor: if s.cursor > page(s) {
                (s.cursor - page(s)) as usize
            } else {
                0
            },
            ..s
        },
        Key::PageDown => moved(s, s.cursor + page(s), n),
        Key::Home => Screen { cursor: 0, ..s },
        Key::End => moved(s, n as int, n),
        _ => s,
    }
}

/// The row under the cursor closed.
pub open spec fn closed_row(s: Screen, v: Seq<Line>) -> Screen {
    if s.cursor < v.len() {
        Screen { expand: without(s.expand, v[s.cursor as int].id), ..s }
    } else {
        s
    }
}

/// The row under the cursor opened or closed.
pub open spec fn toggled_row(s: Screen, v: Seq<Line>) -> Screen {
    if s.cursor < v.len() && v[s.cursor as int].expandable {
        Screen { expand: toggled(s.expand, v[s.cursor as int].id), ..s }
    } else {
        s
    }
}

/// What a character does when no overlay takes it.
pub open spec fn lettered(s: Screen, c: char, v: Seq<Line>, all: Seq<Head>) -> (Screen, Action) {
    if c == 'q' {
        (s, Action::Quit)
    } else if c == '/' {
        (Screen { filter_edit: true, ..s }, Action::Stay)
    } else if c == 's' || c == 'S' {
        (s, Action::Save)
    } else if c == 'c' {
        (Screen { sort: columns::next_sort_of(s.cols, s.sort), ..s }, Action::Stay)
    } else if c == 'd' {
        (Screen { desc: !s.desc, ..s }, Action::Stay)
    } else if c == 'H' {
        (hidden_sort(s, all), Action::Stay)
    } else if c == 'u' || c == 'U' {
        (shown_again(s, all), Action::Stay)
    } else if c == 'k' {
        (stepped(s, Key::Up, v), Action::Stay)
    } else if c == 'j' {
        (stepped(s, Key::Down, v), Action::Stay)
    } else if c == 'h' {
        (closed_row(s, v), Action::Stay)
    } else if c == 'l' || c == ' ' {
        (toggled_row(s, v), Action::Stay)
    } else if c == '[' || c == '<' {
        (
            Screen {
                col_off: if s.col_off > 0 {
                    (s.col_off - 1) as u16
                } else {
                    0
                },
                ..s
            },
            Action::Stay,
        )
    } else if c == ']' || c == '>' {
        (
            Screen {
                col_off: if s.col_off < u16::MAX {
                    (s.col_off + 1) as u16
                } else {
                    u16::MAX
                },
                ..s
            },
            Action::Stay,
        )
    } else {
        (s, Action::Stay)
    }
}

/// What a key does when no overlay takes it.
pub open spec fn plain(s: Screen, key: Key, v: Seq<Line>, all: Seq<Head>) -> (Screen, Action) {
    match key {
        Key::Esc => (s, Action::Quit),
        Key::Char(c) => lettered(s, c, v, all),
        Key::Left => (closed_row(s, v), Action::Stay),
        Key::Right | Key::Enter => (toggled_row(s, v), Action::Stay),
        _ => (stepped(s, key, v), Action::Stay),
    }
}

/// The text of the filter has changed: a pattern takes effect, and a text that
/// is none leaves the last in effect.
pub open spec fn tried(s: Screen, ok: bool) -> Screen {
    Screen {
        filter_ok: ok,
        filter_re: if ok {
            Some(s.filter)
        } else {
            s.filter_re
        },
        ..s
    }
}

/// What a key does to the table, and what it leaves to do.
pub open spec fn pressed(
    s: Screen,
    key: Key,
    held: Held,
    v: Seq<Line>,
    all: Seq<Head>,
    now: u64,
) -> (Screen, Action) {
    if held.control || held.alt || held.meta {
        (
            s,
            if held.control && key == Key::Char('c') {
                Action::Quit
            } else {
                Action::Stay
            },
        )
    } else if s.filter_edit {
        let t = typed(s, key);
        (
            if t.filter != s.filter {
                tried(t, filter::usable(t.filter))
            } else {
                t
            },
            Action::Stay,
        )
    } else if key == Key::Char('?') || key == Key::F(1) {
        (Screen { help: !s.help, ..s }, Action::Stay)
    } else if s.help && key == Key::Esc {
        (Screen { help: false, ..s }, Action::Stay)
    } else if key == Key::Char('p') {
        (
            Screen {
                paused: match s.paused {
                    Some(_) => None,
                    None => Some(now),
                },
                ..s
            },
            Action::Stay,
        )
    } else if key == Key::Char('i') {
        (Screen { detail: !s.detail, help: false, ..s }, Action::Stay)
    } else if s.detail && key == Key::Esc {
        (Screen { detail: false, ..s }, Action::Stay)
    } else {
        plain(s, key, v, all)
    }
}

fn minus_one(n: usize) -> (r: usize)
    ensures
        r == if n > 0 {
            n - 1
        } else {
            0
        },
{
    n.saturating_sub(1)
}

impl App {
    fn type_key(&mut self, key: Key) -> (r: bool)
        ensures
            final(self)@ == typed(old(self)@, key),
            r == (final(self)@.filter != old(self)@.filter),
    {
        let ghost before = self.view.filter@;
        match key {
            Key::Esc => {
                self.filter_edit = false;
                let had: bool = !self.view.filter.as_str().is_empty();
                self.view.filter = String::new();
                assert(self.view.filter@ =~= Seq::empty());
                assert(!had ==> before =~= Seq::empty());
                assert(had ==> before.len() > 0);
                had
            },
            Key::Enter => {
                self.filter_edit = false;
                false
            },
            Key::Backspace => {
                let v = text::chars_of(self.view.filter.as_str());
                let n: usize = v.len();
                if n == 0 {
                    return false;
                }
                let cut = text::cut(v.as_slice(), 0, n - 1);
                self.view.filter = text::string_of(cut.as_slice());
                assert(self.view.filter@ =~= before.drop_last());
                assert(before.drop_last().len() != before.len());
                true
            },
            Key::Char(c) => {
                self.view.filter.push(c);
                assert(before.push(c).len() != before.len());
                true
            },
            _ => false,
        }
    }

    fn refresh_columns(&mut self, all: &Vec<Column>)
        ensures
            final(self)@ == recolumned(old(self)@, columns::heads(all@)),
            final(self).view == old(self).view,
    {
        self.cols = columns::from_view(all, &self.view);
        let n: usize = self.cols.len();
        assert(columns::heads(self.cols@).len() == n);
        if n == 0 {
            self.col_off = 0;
        } else if self.col_off as usize > n - 1 {
            self.col_off = (n - 1) as u16;
        }
        assert(self@ =~= recolumned(old(self)@, columns::heads(all@)));
    }

    fn hide_sort(&mut self, all: &Vec<Column>)
        ensures
            final(self)@ == hidden_sort(old(self)@, columns::heads(all@)),
    {
        let label = self.view.sort.clone();
        let next = columns::next_sort(&self.cols, label.as_str());
        if columns::hide_column(&mut self.view, label.as_str()) {
            self.refresh_columns(all);
            if columns::find(&self.cols, label.as_str()).is_none() {
                self.view.sort = next;
            }
            self.status = text::joined("hidden ", label.as_str());
        } else {
            self.status = "name cannot be hidden".to_owned();
        }
        assert(self@ =~= hidden_sort(old(self)@, columns::heads(all@)));
    }

    fn show_again(&mut self, all: &Vec<Column>)
        ensures
            final(self)@ == shown_again(old(self)@, columns::heads(all@)),
    {
        let ghost n = self.view.hide_columns@.len();
        assert(text::texts(self.view.hide_columns@).len() == n);
        if let Some(label) = columns::unhide_last(&mut self.view) {
            self.refresh_columns(all);
            self.status = text::joined("shown ", label.as_str());
        }
        assert(self@ =~= shown_again(old(self)@, columns::heads(all@)));
    }

    fn step(&mut self, key: Key, v: &Vec<Flat>)
        ensures
            final(self)@ == stepped(old(self)@, key, rows::lines(v@)),
    {
        let n: usize = v.len();
        let one: usize = if self.row_vis == 0 {
            1
        } else {
            self.row_vis
        };
        match key {
            Key::Up => {
                self.cursor = minus_one(self.cursor);
            },
            Key::Down => {
                if n > 0 && self.cursor < n - 1 {
                    self.cursor = self.cursor + 1;
                }
            },
            Key::PageUp => {
                self.cursor = self.cursor.saturating_sub(one);
            },
            Key::PageDown => {
                let last: usize = minus_one(n);
                let to: usize = self.cursor.saturating_add(one);
                self.cursor = if to > last {
                    last
                } else {
                    to
                };
            },
            Key::Home => {
                self.cursor = 0;
            },
            Key::End => {
                self.cursor = minus_one(n);
            },
            _ => {},
        }
        assert(self@ =~= stepped(old(self)@, key, rows::lines(v@)));
    }

    fn close_row(&mut self, v: &Vec<Flat>)
        ensures
            final(self)@ == closed_row(old(self)@, rows::lines(v@)),
    {
        if self.cursor < v.len() {
            assert(rows::lines(v@)[self.cursor as int] == v@[self.cursor as int]@);
            self.expand = close(&self.expand, v[self.cursor].id.as_str());
        }
        assert(self@ =~= closed_row(old(self)@, rows::lines(v@)));
    }

    fn toggle_row(&mut self, v: &Vec<Flat>)
        ensures
            final(self)@ == toggled_row(old(self)@, rows::lines(v@)),
    {
        if self.cursor < v.len() && v[self.cursor].expandable {
            assert(rows::lines(v@)[self.cursor as int] == v@[self.cursor as int]@);
            let id = v[self.cursor].id.clone();
            if text::among(&self.expand, id.as_str()) {
                self.expand = close(&self.expand, id.as_str());
            } else {
                let ghost before = self.expand@;
                self.expand.push(id);
                assert(text::texts(self.expand@) =~= text::texts(before).push(id@));
            }
        } else {
            assert(self.cursor < v@.len() ==> rows::lines(v@)[self.cursor as int]
                == v@[self.cursor as int]@);
        }
        assert(self@ =~= toggled_row(old(self)@, rows::lines(v@)));
    }

    fn letter(&mut self, c: char, v: &Vec<Flat>, all: &Vec<Column>) -> (r: Action)
        ensures
            (final(self)@, r) == lettered(old(self)@, c, rows::lines(v@), columns::heads(all@)),
    {
        if c == 'q' {
            return Action::Quit;
        }
        if c == 's' || c == 'S' {
            return Action::Save;
        }
        if c == '/' {
            self.filter_edit = true;
        } else if c == 'c' {
            self.view.sort = columns::next_sort(&self.cols, self.view.sort.as_str());
        } else if c == 'd' {
            self.view.desc = !self.view.desc;
        } else if c == 'H' {
            self.hide_sort(all);
        } else if c == 'u' || c == 'U' {
            self.show_again(all);
        } else if c == 'k' {
            self.step(Key::Up, v);
        } else if c == 'j' {
            self.step(Key::Down, v);
        } else if c == 'h' {
            self.close_row(v);
        } else if c == 'l' || c == ' ' {
            self.toggle_row(v);
        } else if c == '[' || c == '<' {
            self.col_off = self.col_off.saturating_sub(1);
        } else if c == ']' || c == '>' {
            self.col_off = self.col_off.saturating_add(1);
        }
        assert(self@ =~= lettered(
            old(self)@,
            c,
            rows::lines(v@),
            columns::heads(all@),
        ).0);
        Action::Stay
    }

    /// Answers a key: `v` are the rows on the table, `all` every column there
    /// is, `now` the time.
    pub fn handle_key(
        &mut self,
        key: Key,
        held: Held,
        v: &Vec<Flat>,
        all: &Vec<Column>,
        now: u64,
    ) -> (r: Action)
        ensures
            (final(self)@, r) == pressed(
                old(self)@,
                key,
                held,
                rows::lines(v@),
                columns::heads(all@),
                now,
            ),
    {
        if held.control || held.alt || held.meta {
            return if held.control && key == Key::Char('c') {
                Action::Quit
            } else {
                Action::Stay
            };
        }
        if self.filter_edit {
            if self.type_key(key) {
                let tried = Filter::new(self.view.filter.as_str());
                self.refilter(tried);
            }
            return Action::Stay;
        }
        if key == Key::Char('?') || key == Key::F(1) {
            self.help = !self.help;
            return Action::Stay;
        }
        if self.help && key == Key::Esc {
            self.help = false;
            return Action::Stay;
        }
        if key == Key::Char('p') {
            self.paused = match self.paused {
                Some(_) => None,
                None => Some(now),
            };
            return Action::Stay;
        }
        if key == Key::Char('i') {
            self.detail = !self.detail;
            self.help = false;
            return Action::Stay;
        }
        if self.detail && key == Key::Esc {
            self.detail = false;
            return Action::Stay;
        }
        match key {
            Key::Esc => Action::Quit,
            Key::Char(c) => self.letter(c, v, all),
            Key::Left => {
                self.close_row(v);
                Action::Stay
            },
            Key::Right => {
                self.toggle_row(v);
                Action::Stay
            },
            Key::Enter => {
                self.toggle_row(v);
                Action::Stay
            },
            _ => {
                self.step(key, v);
                Action::Stay
            },
        }
    }

    /// Takes what the text of the filter was compiled to: a pattern takes
    /// effect, and nothing leaves the last in effect.
    pub fn refilter(&mut self, compiled: Option<Filter>)
        ensures
            final(self)@ == (Screen {
                filter_ok: compiled is Some,
                filter_re: match compiled {
                    Some(f) => Some(f@),
                    None => old(self)@.filter_re,
                },
                ..old(self)@
            }),
    {
        self.filter_ok = compiled.is_some();
        if compiled.is_some() {
            self.filter_re = compiled;
        }
    }

    /// Told where the view was saved.
    pub fn saved(&mut self, path: &str)
        ensures
            final(self)@ == (Screen { status: "saved "@ + path@, ..old(self)@ }),
    {
        self.status = text::joined("saved ", path);
    }
}

/// A key held with control, alt or super never does what it does alone: it
/// changes nothing, and only Ctrl-C quits.
pub proof fn law_a_modified_key_never_reaches_its_bare_binding(
    s: Screen,
    key: Key,
    held: Held,
    v: Seq<Line>,
    all: Seq<Head>,
    now: u64,
)
    requires
        held.control || held.alt || held.meta,
    ensures
        pressed(s, key, held, v, all, now).0 == s,
        pressed(s, key, held, v, all, now).1 == Action::Quit <==> held.control && key == Key::Char(
            'c',
        ),
{
}

/// No key moves the cursor off the rows.
pub proof fn law_the_cursor_stays_on_the_rows(
    s: Screen,
    key: Key,
    held: Held,
    v: Seq<Line>,
    all: Seq<Head>,
    now: u64,
)
    requires
        s.cursor < v.len() <= usize::MAX,
    ensures
        pressed(s, key, held, v, all, now).0.cursor < v.len(),
{
}

/// Nothing is written unless `s` is pressed while no filter is typed.
pub proof fn law_only_a_save_key_saves(
    s: Screen,
    key: Key,
    held: Held,
    v: Seq<Line>,
    all: Seq<Head>,
    now: u64,
)
    requires
        pressed(s, key, held, v, all, now).1 == Action::Save,
    ensures
        key == Key::Char('s') || key == Key::Char('S'),
        !held.control && !held.alt && !held.meta && !s.filter_edit,
{
}

/// A text that is no pattern leaves the last pattern in effect, and the table
/// says so: a pattern is half-written for most of the keys that make it.
pub proof fn law_a_broken_pattern_keeps_the_last(
    s: Screen,
    key: Key,
    held: Held,
    v: Seq<Line>,
    all: Seq<Head>,
    now: u64,
)
    requires
        s.filter_edit,
        !held.control && !held.alt && !held.meta,
        typed(s, key).filter != s.filter,
        !filter::usable(typed(s, key).filter),
    ensures
        pressed(s, key, held, v, all, now).0.filter_re == s.filter_re,
        !pressed(s, key, held, v, all, now).0.filter_ok,
{
}

} // verus!
