use tasklist::codec::STORAGE_KEY;
use tasklist::router::{classify, Action, Event, Target, TodoApp};
use tasklist::task::TaskStore;

fn pairs(app: &TodoApp) -> Vec<(String, bool)> {
    app.store().list().iter().map(|t| (t.name().to_string(), t.completed())).collect()
}

fn pair(name: &str, completed: bool) -> (String, bool) {
    (name.to_string(), completed)
}

fn refresh(clear_input: bool, payload: &str, markup: &str) -> Action {
    Action::Refresh { clear_input, payload: payload.to_string(), markup: markup.to_string() }
}

fn app_of(names: &[&str]) -> TodoApp {
    let mut app = TodoApp::new();
    for name in names {
        app.handle(Event::Add(name.to_string()));
    }
    app
}

#[test]
fn new_app_has_no_tasks() {
    let app = TodoApp::new();
    assert_eq!(app.store(), &TaskStore::new());
}

#[test]
fn show_task_displays_what_was_stored() {
    let mut app = TodoApp::new();
    let markup = app.show_task(Some(
        "{\"tasks\":[{\"name\":\"Milk\",\"completed\":false},{\"name\":\"Eggs\",\"completed\":true}]}",
    ));
    assert_eq!(
        markup,
        "<li>Milk<span>&times;</span></li><li class=\"checked\">Eggs<span>&times;</span></li>"
    );
    assert_eq!(pairs(&app), vec![pair("Milk", false), pair("Eggs", true)]);
}

#[test]
fn show_task_starts_empty_without_a_readable_value() {
    let mut app = TodoApp::new();
    assert_eq!(app.show_task(None), "");
    assert_eq!(pairs(&app), vec![]);
    assert_eq!(app.show_task(Some("<li>Milk<span>\u{d7}</span></li>")), "");
    assert_eq!(pairs(&app), vec![]);
    assert_eq!(app.show_task(Some("{\"tasks\":[{\"name\":\"a\"}")), "");
    assert_eq!(pairs(&app), vec![]);
}

#[test]
fn show_task_replaces_the_tasks_held_before() {
    let mut app = app_of(&["old"]);
    assert_eq!(app.show_task(Some("{\"tasks\":[{\"name\":\"new\"}]}")), "<li>new<span>&times;</span></li>");
    assert_eq!(pairs(&app), vec![pair("new", false)]);
    assert_eq!(app.show_task(Some("corrupted")), "");
    assert_eq!(pairs(&app), vec![]);
}

#[test]
fn add_refreshes_and_empties_the_input() {
    let mut app = TodoApp::new();
    assert_eq!(
        app.handle(Event::Add("Buy milk".to_string())),
        refresh(
            true,
            "{\"tasks\":[{\"name\":\"Buy milk\",\"completed\":false}]}",
            "<li>Buy milk<span>&times;</span></li>"
        )
    );
    assert_eq!(pairs(&app), vec![pair("Buy milk", false)]);
}

#[test]
fn blank_add_notifies_and_changes_nothing() {
    let mut app = app_of(&["kept"]);
    let notice = Action::Notify { message: "Please enter a task".to_string() };
    assert_eq!(app.handle(Event::Add(String::new())), notice);
    assert_eq!(app.handle(Event::Add("   ".to_string())), notice);
    assert_eq!(pairs(&app), vec![pair("kept", false)]);
}

#[test]
fn click_on_an_item_toggles_it() {
    let mut app = app_of(&["a", "b"]);
    assert_eq!(
        app.handle(Event::List(Target::Item(1))),
        refresh(
            false,
            "{\"tasks\":[{\"name\":\"a\",\"completed\":false},{\"name\":\"b\",\"completed\":true}]}",
            "<li>a<span>&times;</span></li><li class=\"checked\">b<span>&times;</span></li>"
        )
    );
    assert_eq!(pairs(&app), vec![pair("a", false), pair("b", true)]);
    assert_eq!(
        app.handle(Event::List(Target::Item(1))),
        refresh(
            false,
            "{\"tasks\":[{\"name\":\"a\",\"completed\":false},{\"name\":\"b\",\"completed\":false}]}",
            "<li>a<span>&times;</span></li><li>b<span>&times;</span></li>"
        )
    );
    assert_eq!(pairs(&app), vec![pair("a", false), pair("b", false)]);
}

#[test]
fn click_on_a_delete_element_removes_its_item() {
    let mut app = app_of(&["a", "b", "c"]);
    assert_eq!(
        app.handle(Event::List(Target::Delete(1))),
        refresh(
            false,
            "{\"tasks\":[{\"name\":\"a\",\"completed\":false},{\"name\":\"c\",\"completed\":false}]}",
            "<li>a<span>&times;</span></li><li>c<span>&times;</span></li>"
        )
    );
    assert_eq!(pairs(&app), vec![pair("a", false), pair("c", false)]);
}

#[test]
fn removing_the_last_task_stores_and_shows_an_empty_list() {
    let mut app = app_of(&["a"]);
    assert_eq!(app.handle(Event::List(Target::Delete(0))), refresh(false, "{\"tasks\":[]}", ""));
    assert_eq!(pairs(&app), vec![]);
}

#[test]
fn other_clicks_do_nothing() {
    let mut app = app_of(&["a"]);
    assert_eq!(app.handle(Event::List(Target::Elsewhere)), Action::Nothing);
    assert_eq!(pairs(&app), vec![pair("a", false)]);
}

#[test]
fn stale_positions_do_nothing() {
    let mut app = app_of(&["a"]);
    assert_eq!(app.handle(Event::List(Target::Item(1))), Action::Nothing);
    assert_eq!(app.handle(Event::List(Target::Delete(1))), Action::Nothing);
    assert_eq!(app.handle(Event::List(Target::Item(usize::MAX))), Action::Nothing);
    assert_eq!(pairs(&app), vec![pair("a", false)]);
    let mut empty = TodoApp::new();
    assert_eq!(empty.handle(Event::List(Target::Item(0))), Action::Nothing);
    assert_eq!(empty.handle(Event::List(Target::Delete(0))), Action::Nothing);
}

#[test]
fn scenario_add_toggle_remove_through_events() {
    let mut app = TodoApp::new();
    match app.handle(Event::Add("Buy milk".to_string())) {
        Action::Refresh { markup, .. } => assert_eq!(markup, "<li>Buy milk<span>&times;</span></li>"),
        other => panic!("{:?}", other),
    }
    match app.handle(Event::List(Target::Item(0))) {
        Action::Refresh { markup, clear_input, .. } => {
            assert_eq!(markup, "<li class=\"checked\">Buy milk<span>&times;</span></li>");
            assert!(!clear_input);
        }
        other => panic!("{:?}", other),
    }
    assert_eq!(pairs(&app), vec![pair("Buy milk", true)]);
    match app.handle(Event::List(Target::Delete(0))) {
        Action::Refresh { markup, payload, .. } => {
            assert_eq!(markup, "");
            assert_eq!(payload, "{\"tasks\":[]}");
        }
        other => panic!("{:?}", other),
    }
    assert_eq!(pairs(&app), vec![]);
}

#[test]
fn what_is_stored_restores_what_is_shown() {
    let mut app = TodoApp::new();
    let events = vec![
        Event::Add("a <b>".to_string()),
        Event::Add("b \"q\"".to_string()),
        Event::List(Target::Item(0)),
        Event::Add("c\n".to_string()),
        Event::List(Target::Delete(1)),
        Event::List(Target::Item(1)),
    ];
    for event in events {
        match app.handle(event) {
            Action::Refresh { payload, markup, .. } => {
                let mut fresh = TodoApp::new();
                assert_eq!(fresh.show_task(Some(payload.as_str())), markup);
                assert_eq!(fresh, app);
            }
            other => panic!("{:?}", other),
        }
    }
    assert_eq!(pairs(&app), vec![pair("a <b>", true), pair("c\n", true)]);
}

#[test]
fn click_on_a_list_item_is_an_item() {
    assert_eq!(classify("LI", Some(0), None), Target::Item(0));
    assert_eq!(classify("LI", Some(7), Some(3)), Target::Item(7));
}

#[test]
fn click_on_a_span_inside_an_item_is_a_delete() {
    assert_eq!(classify("SPAN", None, Some(0)), Target::Delete(0));
    assert_eq!(classify("SPAN", None, Some(4)), Target::Delete(4));
    assert_eq!(classify("SPAN", Some(1), Some(4)), Target::Delete(4));
}

#[test]
fn other_clicks_are_elsewhere() {
    assert_eq!(classify("UL", None, None), Target::Elsewhere);
    assert_eq!(classify("DIV", Some(0), Some(0)), Target::Elsewhere);
    assert_eq!(classify("LI", None, None), Target::Elsewhere);
    assert_eq!(classify("LI", None, Some(2)), Target::Elsewhere);
    assert_eq!(classify("SPAN", None, None), Target::Elsewhere);
    assert_eq!(classify("SPAN", Some(2), None), Target::Elsewhere);
    assert_eq!(classify("li", Some(0), None), Target::Elsewhere);
    assert_eq!(classify("span", None, Some(0)), Target::Elsewhere);
    assert_eq!(classify("", Some(0), Some(0)), Target::Elsewhere);
    assert_eq!(classify("LIX", Some(0), None), Target::Elsewhere);
    assert_eq!(classify("SPA", None, Some(0)), Target::Elsewhere);
}

#[test]
fn the_list_is_stored_under_one_key() {
    assert_eq!(STORAGE_KEY, "tasks");
}

#[test]
fn a_copy_of_the_application_holds_the_same_tasks() {
    let mut app = app_of(&["a", "b"]);
    app.handle(Event::List(Target::Item(1)));
    let copy = app.clone();
    assert_eq!(copy, app);
    app.handle(Event::List(Target::Delete(0)));
    assert_eq!(pairs(&copy), vec![pair("a", false), pair("b", true)]);
    assert_eq!(pairs(&app), vec![pair("b", true)]);
}
