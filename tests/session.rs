use db_cli::{chars_of, create_database, string_of, App, Flow, InputMode, Key, MenuItem, QueryMode, SortMode, SortOrd};

fn app_with_three() -> App {
    let mut app = App::default();
    app.data_base = create_database(String::from(
        "Doe\nJohn\n1\na\nLee\nAnn\n2\nb\nLeo\nZed\n3\nc\n",
    ));
    app
}

#[test]
fn default_app() {
    let app = App::default();
    assert_eq!(app.input_mode, InputMode::Normal);
    assert_eq!(app.active_menu_item, MenuItem::Home);
    assert_eq!(app.query, "");
    assert_eq!(app.query_mode, QueryMode::FirstName);
    assert_eq!(app.sort_mode, SortMode::Id);
    assert_eq!(app.sort_order, SortOrd::Incr);
    assert_eq!(app.selected, 0);
    assert!(app.data_base.clienti.is_empty());
    assert_eq!(app.size().height, 0);
    assert_eq!(app.size().width, 0);
}

#[test]
fn menu_item_index() {
    assert_eq!(usize::from(MenuItem::Home), 0);
    assert_eq!(usize::from(MenuItem::Menu), 1);
    assert_eq!(usize::from(MenuItem::Clients), 2);
}

#[test]
fn quit_and_views() {
    let mut app = app_with_three();
    assert_eq!(app.handle_key(Key::Char('c')), Flow::Continue);
    assert_eq!(app.active_menu_item, MenuItem::Clients);
    assert_eq!(app.handle_key(Key::Char('m')), Flow::Continue);
    assert_eq!(app.active_menu_item, MenuItem::Menu);
    assert_eq!(app.handle_key(Key::Char('h')), Flow::Continue);
    assert_eq!(app.active_menu_item, MenuItem::Home);
    assert_eq!(app.handle_key(Key::Char('q')), Flow::Quit);
}

#[test]
fn search_only_from_record_list() {
    let mut app = app_with_three();
    app.handle_key(Key::Char('e'));
    assert_eq!(app.input_mode, InputMode::Normal);
    app.handle_key(Key::Char('c'));
    app.handle_key(Key::Char('e'));
    assert_eq!(app.input_mode, InputMode::Editing);
    app.handle_key(Key::Char('q'));
    app.handle_key(Key::Char('x'));
    assert_eq!(app.query, "qx");
    app.handle_key(Key::Backspace);
    assert_eq!(app.query, "q");
    app.handle_key(Key::Backspace);
    app.handle_key(Key::Backspace);
    assert_eq!(app.query, "");
    app.handle_key(Key::Tab);
    assert_eq!(app.query_mode, QueryMode::LastName);
    app.handle_key(Key::Tab);
    app.handle_key(Key::Tab);
    app.handle_key(Key::Tab);
    assert_eq!(app.query_mode, QueryMode::FirstName);
    app.handle_key(Key::Esc);
    assert_eq!(app.input_mode, InputMode::Normal);
}

#[test]
fn sort_keys_cycle_and_direction_is_set() {
    let mut app = app_with_three();
    app.handle_key(Key::Char('c'));
    let expected = [
        SortMode::FirstName,
        SortMode::LastName,
        SortMode::PhoneNumber,
        SortMode::Address,
        SortMode::Id,
    ];
    for m in expected {
        app.handle_key(Key::Tab);
        assert_eq!(app.sort_mode, m);
    }
    app.handle_key(Key::Char('-'));
    assert_eq!(app.sort_order, SortOrd::Decr);
    app.handle_key(Key::Char('-'));
    assert_eq!(app.sort_order, SortOrd::Decr);
    app.handle_key(Key::Char('+'));
    assert_eq!(app.sort_order, SortOrd::Incr);
}

#[test]
fn selection_wraps_over_shown_rows() {
    let mut app = app_with_three();
    app.handle_key(Key::Char('c'));
    app.handle_key(Key::Up);
    assert_eq!(app.selected, 2);
    app.handle_key(Key::Down);
    assert_eq!(app.selected, 0);
    app.handle_key(Key::Down);
    assert_eq!(app.selected, 1);
    app.query = String::from("Le");
    app.query_mode = QueryMode::LastName;
    assert_eq!(app.shown_count(), 2);
    app.handle_key(Key::Down);
    assert_eq!(app.selected, 0);
    app.handle_key(Key::Up);
    assert_eq!(app.selected, 1);
}

#[test]
fn delete_removes_the_shown_record() {
    let mut app = app_with_three();
    app.handle_key(Key::Char('c'));
    app.query = String::from("Le");
    app.query_mode = QueryMode::LastName;
    app.sort_order = SortOrd::Decr;
    // rows shown: Leo (position 2), Lee (position 1)
    app.handle_key(Key::Down);
    assert_eq!(app.selected, 1);
    app.handle_key(Key::Char('d'));
    assert_eq!(app.data_base.clienti.len(), 2);
    assert_eq!(app.data_base.clienti[0].nume, "Doe");
    assert_eq!(app.data_base.clienti[1].nume, "Leo");
    assert_eq!(app.selected, 0);
    app.handle_key(Key::Backspace);
    assert_eq!(app.data_base.clienti.len(), 1);
    assert_eq!(app.selected, 0);
    app.handle_key(Key::Char('d'));
    assert_eq!(app.data_base.clienti.len(), 1);
    assert_eq!(app.data_base.top, 3);
}

#[test]
fn chars_and_strings() {
    let cs = chars_of("añb");
    assert_eq!(cs, vec!['a', 'ñ', 'b']);
    assert_eq!(string_of(&cs), "añb");
    assert_eq!(string_of(&Vec::new()), "");
}
