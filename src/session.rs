//! The state of an interactive session and how a key press changes it.
use vstd::prelude::*;
use crate::order::{ints, SortMode, SortOrd};
use crate::query::{selection, QueryMode};
use crate::record::RecordView;
use crate::store::BazaDate;
use crate::text::push_char;

verus! {

/// The views of the session.
#[derive(Debug, Clone, Copy, PartialEq, Eq, Structural)]
pub enum MenuItem {
    Home,
    Menu,
    Clients,
}

/// The position of a view among the menu tabs.
pub open spec fn menu_index(m: MenuItem) -> usize {
    match m {
        MenuItem::Home => 0,
        MenuItem::Menu => 1,
        MenuItem::Clients => 2,
    }
}

impl From<MenuItem> for usize {
    fn from(input: MenuItem) -> (r: usize)
        ensures
            r == menu_index(input),
    {
        match input {
            MenuItem::Home => 0,
            MenuItem::Menu => 1,
            MenuItem::Clients => 2,
        }
    }
}

impl vstd::std_specs::convert::FromSpecImpl<MenuItem> for usize {
    open spec fn obeys_from_spec() -> bool {
        true
    }

    open spec fn from_spec(v: MenuItem) -> usize {
        menu_index(v)
    }
}

/// Browsing (`Normal`) or typing the search text (`Editing`).
#[derive(Debug, Clone, Copy, PartialEq, Eq, Structural)]
pub enum InputMode {
    Normal,
    Editing,
}

/// The size of the terminal window.
#[allow(non_camel_case_types)]
#[derive(Debug, Clone, Copy, PartialEq, Eq, Structural)]
pub struct size {
    pub height: u16,
    pub width: u16,
}

/// An input event, or a tick of the clock.
pub enum Event<I> {
    Input(I),
    Tick,
}

/// A key press, as far as the session tells keys apart.
#[derive(Debug, Clone, Copy, PartialEq, Eq, Structural)]
pub enum Key {
    Char(char),
    Backspace,
    Esc,
    Tab,
    Up,
    Down,
    Other,
}

/// Whether the session goes on after a key press.
#[derive(Debug, Clone, Copy, PartialEq, Eq, Structural)]
pub enum Flow {
    Continue,
    Quit,
}

/// The state of the application. `selected` is the highlighted row of the
/// record list, counted among the rows that the current query shows.
#[derive(Debug)]
pub struct App {
    pub input: String,
    pub input_mode: InputMode,
    pub data_base: BazaDate,
    pub window_size: size,
    pub query: String,
    pub query_mode: QueryMode,
    pub sort_mode: SortMode,
    pub sort_order: SortOrd,
    pub active_menu_item: MenuItem,
    pub selected: usize,
}

/// What the application holds.
pub struct AppView {
    pub input: Seq<char>,
    pub input_mode: InputMode,
    pub records: Seq<RecordView>,
    pub top: nat,
    pub window_size: size,
    pub query: Seq<char>,
    pub query_mode: QueryMode,
    pub sort_mode: SortMode,
    pub sort_order: SortOrd,
    pub active_menu_item: MenuItem,
    pub selected: nat,
}

impl View for App {
    type V = AppView;

    open spec fn view(&self) -> AppView {
        AppView {
            input: self.input@,
            input_mode: self.input_mode,
            records: self.data_base.records(),
            top: self.data_base.top as nat,
            window_size: self.window_size,
            query: self.query@,
            query_mode: self.query_mode,
            sort_mode: self.sort_mode,
            sort_order: self.sort_order,
            active_menu_item: self.active_menu_item,
            selected: self.selected as nat,
        }
    }
}

/// The sort mode after `m` in the cycle Id, first name, last name, phone,
/// address.
pub open spec fn next_sort_mode(m: SortMode) -> SortMode {
    match m {
        SortMode::Id => SortMode::FirstName,
        SortMode::FirstName => SortMode::LastName,
        SortMode::LastName => SortMode::PhoneNumber,
        SortMode::PhoneNumber => SortMode::Address,
        SortMode::Address => SortMode::Id,
    }
}

/// The search field after `m` in the cycle first name, last name, phone,
/// address.
pub open spec fn next_query_mode(m: QueryMode) -> QueryMode {
    match m {
        QueryMode::FirstName => QueryMode::LastName,
        QueryMode::LastName => QueryMode::PhoneNumber,
        QueryMode::PhoneNumber => QueryMode::Address,
        QueryMode::Address => QueryMode::FirstName,
    }
}

/// The store positions of the rows that the session shows.
pub open spec fn shown(s: AppView) -> Seq<int> {
    selection(s.records, s.query, s.query_mode, s.sort_mode, s.sort_order)
}

/// The row below `sel` among `n` rows, wrapping from the last to the first.
pub open spec fn row_below(sel: nat, n: nat) -> nat {
    if sel + 1 >= n {
        0
    } else {
        sel + 1
    }
}

/// The row above `sel` among `n` rows, wrapping from the first to the last
/// (a row past the end moves to the last one).
pub open spec fn row_above(sel: nat, n: nat) -> nat {
    if n == 0 {
        0
    } else if sel == 0 || sel >= n {
        (n - 1) as nat
    } else {
        (sel - 1) as nat
    }
}

/// `sel`, moved to the last of `n` rows when it is past the end.
pub open spec fn clamp_row(sel: nat, n: nat) -> nat {
    if sel < n {
        sel
    } else if n == 0 {
        0
    } else {
        (n - 1) as nat
    }
}

/// Deletes the record of the selected row, if there is one, and keeps the
/// selection within the rows left.
pub open spec fn delete_selected(s: AppView) -> AppView {
    if s.selected < shown(s).len() {
        let t = AppView { records: s.records.remove(shown(s)[s.selected as int]), ..s };
        AppView { selected: clamp_row(s.selected, shown(t).len()), ..t }
    } else {
        s
    }
}

/// The session after a key press in the record list while browsing.
pub open spec fn clients_key(s: AppView, key: Key) -> AppView {
    match key {
        Key::Char('e') => AppView { input_mode: InputMode::Editing, ..s },
        Key::Char('d') | Key::Backspace => delete_selected(s),
        Key::Down => AppView { selected: row_below(s.selected, shown(s).len()), ..s },
        Key::Up => AppView { selected: row_above(s.selected, shown(s).len()), ..s },
        Key::Char('+') => AppView { sort_order: SortOrd::Incr, ..s },
        Key::Char('-') => AppView { sort_order: SortOrd::Decr, ..s },
        Key::Tab => AppView { sort_mode: next_sort_mode(s.sort_mode), ..s },
        _ => s,
    }
}

/// The session after a key press while browsing.
pub open spec fn normal_key(s: AppView, key: Key) -> (AppView, Flow) {
    match key {
        Key::Char('q') => (s, Flow::Quit),
        Key::Char('h') => (AppView { active_menu_item: MenuItem::Home, ..s }, Flow::Continue),
        Key::Char('m') => (AppView { active_menu_item: MenuItem::Menu, ..s }, Flow::Continue),
        Key::Char('c') => (AppView { active_menu_item: MenuItem::Clients, ..s }, Flow::Continue),
        _ => (
            if s.active_menu_item is Clients {
                clients_key(s, key)
            } else {
                s
            },
            Flow::Continue,
        ),
    }
}

/// The session after a key press while typing the search text.
pub open spec fn editing_key(s: AppView, key: Key) -> AppView {
    match key {
        Key::Char(c) => if s.active_menu_item is Clients {
            AppView { query: s.query.push(c), ..s }
        } else {
            s
        },
        Key::Backspace => if s.query.len() > 0 {
            AppView { query: s.query.drop_last(), ..s }
        } else {
            s
        },
        Key::Esc => AppView { input_mode: InputMode::Normal, ..s },
        Key::Tab => AppView { query_mode: next_query_mode(s.query_mode), ..s },
        _ => s,
    }
}

/// The session after a key press, and whether it goes on.
pub open spec fn step(s: AppView, key: Key) -> (AppView, Flow) {
    match s.input_mode {
        InputMode::Normal => normal_key(s, key),
        InputMode::Editing => (editing_key(s, key), Flow::Continue),
    }
}

/// Relies on `String::pop`: removes and returns the last character, or
/// returns `None` and leaves an empty string as it is.
#[verifier::external_body]
fn pop_char(s: &mut String) -> (r: Option<char>)
    ensures
        old(s)@.len() == 0 ==> r is None && final(s)@ == old(s)@,
        old(s)@.len() > 0 ==> r == Some(old(s)@.last()) && final(s)@ == old(s)@.drop_last(),
{
    s.pop()
}

impl Default for App {
    /// A browsing session on the home view with an empty store, an empty
    /// search by first name, and records sorted by increasing ordinal.
    fn default() -> (r: App)
        ensures
            r@ == (AppView {
                input: Seq::empty(),
                input_mode: InputMode::Normal,
                records: Seq::empty(),
                top: 0,
                window_size: size { height: 0, width: 0 },
                query: Seq::empty(),
                query_mode: QueryMode::FirstName,
                sort_mode: SortMode::Id,
                sort_order: SortOrd::Incr,
                active_menu_item: MenuItem::Home,
                selected: 0,
            }),
    {
        App {
            input: String::new(),
            input_mode: InputMode::Normal,
            data_base: BazaDate::new(),
            window_size: size { height: 0, width: 0 },
            query: String::new(),
            query_mode: QueryMode::FirstName,
            sort_mode: SortMode::Id,
            sort_order: SortOrd::Incr,
            active_menu_item: MenuItem::Home,
            selected: 0,
        }
    }
}

impl App {
    /// The size of the terminal window.
    pub fn size(&self) -> (r: &size)
        ensures
            *r == self.window_size,
    {
        &self.window_size
    }

    /// The number of rows that the current query shows.
    pub fn shown_count(&self) -> (r: usize)
        ensures
            r == shown(self@).len(),
    {
        let pos = self.data_base.query_positions(
            self.query.as_str(),
            self.query_mode,
            self.sort_mode,
            self.sort_order,
        );
        pos.len()
    }

    /// The store positions of the rows that the current query shows, in
    /// display order.
    pub fn shown_positions(&self) -> (r: Vec<usize>)
        ensures
            ints(r@) == shown(self@),
            forall|i: int| 0 <= i < r@.len() ==> #[trigger] r@[i] < self.data_base.clienti@.len(),
    {
        self.data_base.query_positions(
            self.query.as_str(),
            self.query_mode,
            self.sort_mode,
            self.sort_order,
        )
    }

    fn delete_selected_row(&mut self)
        ensures
            final(self)@ == delete_selected(old(self)@),
    {
        let pos = self.shown_positions();
        if self.selected < pos.len() {
            let k = pos[self.selected];
            assert(shown(self@)[self.selected as int] == k as int);
            let _ = self.data_base.delete_record(k);
            let n = self.shown_count();
            if self.selected >= n {
                self.selected = if n == 0 {
                    0
                } else {
                    n - 1
                };
            }
        }
    }

    fn clients_key(&mut self, key: Key)
        ensures
            final(self)@ == clients_key(old(self)@, key),
    {
        match key {
            Key::Char('e') => {
                self.input_mode = InputMode::Editing;
            },
            Key::Char('d') | Key::Backspace => {
                self.delete_selected_row();
            },
            Key::Down => {
                let n = self.shown_count();
                self.selected = if n == 0 || self.selected >= n - 1 {
                    0
                } else {
                    self.selected + 1
                };
            },
            Key::Up => {
                let n = self.shown_count();
                self.selected = if n == 0 {
                    0
                } else if self.selected == 0 || self.selected >= n {
                    n - 1
                } else {
                    self.selected - 1
                };
            },
            Key::Char('+') => {
                self.sort_order = SortOrd::Incr;
            },
            Key::Char('-') => {
                self.sort_order = SortOrd::Decr;
            },
            Key::Tab => {
                self.sort_mode = match self.sort_mode {
                    SortMode::Id => SortMode::FirstName,
                    SortMode::FirstName => SortMode::LastName,
                    SortMode::LastName => SortMode::PhoneNumber,
                    SortMode::PhoneNumber => SortMode::Address,
                    SortMode::Address => SortMode::Id,
                };
            },
            _ => {},
        }
    }

    /// Applies a key press to the session: see `step`. Returns whether the
    /// session goes on.
    pub fn handle_key(&mut self, key: Key) -> (r: Flow)
        ensures
            (final(self)@, r) == step(old(self)@, key),
    {
        match self.input_mode {
            InputMode::Normal => match key {
                Key::Char('q') => {
                    return Flow::Quit;
                },
                Key::Char('h') => {
                    self.active_menu_item = MenuItem::Home;
                },
                Key::Char('m') => {
                    self.active_menu_item = MenuItem::Menu;
                },
                Key::Char('c') => {
                    self.active_menu_item = MenuItem::Clients;
                },
                _ => {
                    if let MenuItem::Clients = self.active_menu_item {
                        self.clients_key(key);
                    }
                },
            },
            InputMode::Editing => match key {
                Key::Char(c) => {
                    if let MenuItem::Clients = self.active_menu_item {
                        push_char(&mut self.query, c);
                    }
                },
                Key::Backspace => {
                    let _ = pop_char(&mut self.query);
                },
                Key::Esc => {
                    self.input_mode = InputMode::Normal;
                },
                Key::Tab => {
                    self.query_mode = match self.query_mode {
                        QueryMode::FirstName => QueryMode::LastName,
                        QueryMode::LastName => QueryMode::PhoneNumber,
                        QueryMode::PhoneNumber => QueryMode::Address,
                        QueryMode::Address => QueryMode::FirstName,
                    };
                },
                _ => {},
            },
        }
        Flow::Continue
    }
}

} // verus!
